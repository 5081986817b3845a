//! Context: the isolation boundary of token data (`app`, `user`, `system`, …).

use vstd::prelude::*;
use crate::text::{owned, str_eq};

verus! {

/// Context provides isolation boundaries for token data.
///
/// `system` and `user` are privileged; `app` is the default.
#[derive(Debug, PartialEq, Eq, Hash)]
pub struct Context {
    name: String,
}

impl View for Context {
    type V = Seq<char>;

    closed spec fn view(&self) -> Seq<char> {
        self.name@
    }
}

impl Clone for Context {
    fn clone(&self) -> (r: Self)
        ensures
            r@ == self@,
    {
        Context { name: self.name.clone() }
    }
}

impl Context {
    /// Create a new context with the given name
    pub fn new(name: &str) -> (c: Self)
        ensures
            c@ == name@,
    {
        Context { name: owned(name) }
    }

    /// Create an app context (default)
    pub fn app() -> (c: Self)
        ensures
            c@ == "app"@,
    {
        Context::new("app")
    }

    /// Create a user context
    pub fn user() -> (c: Self)
        ensures
            c@ == "user"@,
    {
        Context::new("user")
    }

    /// Create a system context
    pub fn system() -> (c: Self)
        ensures
            c@ == "system"@,
    {
        Context::new("system")
    }

    /// Get the context name
    pub fn name(&self) -> (r: &str)
        ensures
            r@ == self@,
    {
        self.name.as_str()
    }

    /// Check if this is a privileged context (system or user)
    pub fn is_privileged(&self) -> (r: bool)
        ensures
            r == (self@ == "system"@ || self@ == "user"@),
    {
        str_eq(self.name.as_str(), "system") || str_eq(self.name.as_str(), "user")
    }

    /// Parses a context name; an empty name is refused.
    pub fn from_str(s: &str) -> (r: Result<Self, String>)
        ensures
            s@.len() == 0 ==> (r matches Err(e) && e@ == "Context name cannot be empty"@),
            s@.len() > 0 ==> (r matches Ok(c) && c@ == s@),
    {
        if s.unicode_len() == 0 {
            return Err(owned("Context name cannot be empty"));
        }
        Ok(Context::new(s))
    }

    /// The context's name, as its display shows it.
    pub fn to_string(&self) -> (r: String)
        ensures
            r@ == self@,
    {
        owned(self.name.as_str())
    }

    /// Whether two contexts have the same name.
    pub fn same_as(&self, other: &Context) -> (r: bool)
        ensures
            r == (self@ == other@),
    {
        str_eq(self.name.as_str(), other.name.as_str())
    }
}

impl Default for Context {
    fn default() -> (c: Self)
        ensures
            c@ == "app"@,
    {
        Context::app()
    }
}

} // verus!
