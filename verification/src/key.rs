//! TokenKey: a key with its flat form, and the bracket notation trait.

use vstd::prelude::*;
use crate::bracket::{reverse_spec, reverse_transform_key, transform_key, transform_spec};
use crate::text::{contains_char, owned};

verus! {

/// The flat form under which a key is stored: its bracket transformation,
/// or the key itself where the transformation refuses it.
pub open spec fn flat_key(key: Seq<char>) -> Seq<char> {
    match transform_spec(key) {
        Ok(v) => v,
        Err(_) => key,
    }
}

/// Individual key identifier for token data.
///
/// Bracket notation is flattened: `list[0]` → `list__i_0`,
/// `grid[2,3]` → `grid__i_2_3`, `list[]` → `list__i_APPEND`.
#[derive(Debug, PartialEq, Eq, Hash)]
pub struct TokenKey {
    base: String,
    transformed: String,
}

impl TokenKey {
    #[verifier::type_invariant]
    spec fn flat_matches(&self) -> bool {
        self.transformed@ == flat_key(self.base@)
    }
}

impl View for TokenKey {
    type V = Seq<char>;

    /// The key as it was written.
    closed spec fn view(&self) -> Seq<char> {
        self.base@
    }
}

impl Clone for TokenKey {
    fn clone(&self) -> (r: Self)
        ensures
            r@ == self@,
    {
        proof {
            use_type_invariant(self);
        }
        TokenKey { base: owned(self.base.as_str()), transformed: owned(self.transformed.as_str()) }
    }
}

impl TokenKey {
    /// Create a key; bracket notation is flattened, and a key whose brackets
    /// are refused is stored as written.
    pub fn new(key: &str) -> (k: Self)
        ensures
            k@ == key@,
    {
        let transformed = match transform_key(key) {
            Ok(t) => t,
            Err(_) => owned(key),
        };
        TokenKey { base: owned(key), transformed }
    }

    /// The key as it was written.
    pub fn base(&self) -> (r: &str)
        ensures
            r@ == self@,
    {
        self.base.as_str()
    }

    /// The flat form of the key.
    pub fn transformed(&self) -> (r: &str)
        ensures
            r@ == flat_key(self@),
    {
        proof {
            use_type_invariant(self);
        }
        self.transformed.as_str()
    }

    /// Whether the key holds both `[` and `]`.
    pub fn has_brackets(&self) -> (r: bool)
        ensures
            r == (self@.contains('[') && self@.contains(']')),
    {
        contains_char(self.base.as_str(), '[') && contains_char(self.base.as_str(), ']')
    }

    /// Parse a key; an empty key is refused.
    pub fn from_str(s: &str) -> (r: Result<Self, String>)
        ensures
            s@.len() == 0 ==> (r matches Err(e) && e@ == "TokenKey cannot be empty"@),
            s@.len() > 0 ==> (r matches Ok(k) && k@ == s@),
    {
        if s.unicode_len() == 0 {
            return Err(owned("TokenKey cannot be empty"));
        }
        Ok(TokenKey::new(s))
    }

    /// The key as displayed: its flat form.
    pub fn to_string(&self) -> (r: String)
        ensures
            r@ == flat_key(self@),
    {
        owned(self.transformed())
    }

    /// Whether two keys were written alike.
    pub fn same_as(&self, other: &TokenKey) -> (r: bool)
        ensures
            r == (self@ == other@),
    {
        crate::text::str_eq(self.base.as_str(), other.base.as_str())
    }
}

/// Conversion between bracket notation (`list[0]`) and flat notation
/// (`list__i_0`).
pub trait BracketNotation {
    /// The bracket form (best effort for flat keys).
    fn to_bracket(&self) -> String;

    /// Whether the value holds bracket notation.
    fn has_brackets(&self) -> bool;
}

impl BracketNotation for TokenKey {
    /// The key as it was written.
    fn to_bracket(&self) -> (r: String)
        ensures
            r@ == self@,
    {
        owned(self.base.as_str())
    }

    fn has_brackets(&self) -> (r: bool)
        ensures
            r == (self@.contains('[') && self@.contains(']')),
    {
        contains_char(self.base.as_str(), '[') && contains_char(self.base.as_str(), ']')
    }
}

impl BracketNotation for str {
    /// The flat key turned back into bracket notation.
    fn to_bracket(&self) -> (r: String)
        ensures
            r@ == reverse_spec(self@),
    {
        match reverse_transform_key(self) {
            Some(v) => v,
            None => owned(self),
        }
    }

    fn has_brackets(&self) -> (r: bool)
        ensures
            r == (self@.contains('[') && self@.contains(']')),
    {
        contains_char(self, '[') && contains_char(self, ']')
    }
}

impl BracketNotation for String {
    /// The flat key turned back into bracket notation.
    fn to_bracket(&self) -> (r: String)
        ensures
            r@ == reverse_spec(self@),
    {
        self.as_str().to_bracket()
    }

    fn has_brackets(&self) -> (r: bool)
        ensures
            r == (self@.contains('[') && self@.contains(']')),
    {
        self.as_str().has_brackets()
    }
}

} // verus!
