//! The addressing types of the bucket layer: contexts, a namespace that
//! warns at three levels and refuses four, and keys.

use vstd::prelude::*;
use crate::key::flat_key;
use crate::namespace::dot_parts;
use crate::text::{contains_char, join, join_strings, owned, split_char, str_eq, to_strings, views};
use crate::bracket::transform_key;

pub use crate::context::Context;

verus! {

/// Hierarchical namespace of the bucket layer: warns at three levels and
/// is too deep at four.
#[derive(Debug, PartialEq, Eq, Hash)]
pub struct Namespace {
    parts: Vec<String>,
}

impl View for Namespace {
    type V = Seq<Seq<char>>;

    closed spec fn view(&self) -> Seq<Seq<char>> {
        views(self.parts@)
    }
}

impl Clone for Namespace {
    fn clone(&self) -> (r: Self)
        ensures
            r@ == self@,
    {
        Namespace { parts: crate::text::clone_strings(&self.parts) }
    }
}

impl Namespace {
    /// Create a namespace from its parts.
    pub fn new(parts: Vec<String>) -> (ns: Self)
        ensures
            ns@ == views(parts@),
    {
        Namespace { parts }
    }

    /// The empty namespace (root level).
    pub fn root() -> (ns: Self)
        ensures
            ns@ == Seq::<Seq<char>>::empty(),
    {
        let ns = Namespace { parts: Vec::new() };
        assert(ns@ =~= Seq::<Seq<char>>::empty());
        ns
    }

    /// Parse a namespace from a dot-separated string.
    pub fn from_string(s: &str) -> (ns: Self)
        ensures
            ns@ == dot_parts(s@),
    {
        if s.unicode_len() == 0 {
            return Namespace::root();
        }
        let pieces = split_char(s, '.');
        Namespace { parts: to_strings(&pieces) }
    }

    /// The number of levels.
    pub fn depth(&self) -> (r: usize)
        ensures
            r == self@.len(),
    {
        self.parts.len()
    }

    /// Whether the namespace is deep enough to warn (three levels or more).
    pub fn should_warn(&self) -> (r: bool)
        ensures
            r == (self@.len() >= 3),
    {
        self.parts.len() >= 3
    }

    /// Whether the namespace is too deep (four levels or more).
    pub fn is_too_deep(&self) -> (r: bool)
        ensures
            r == (self@.len() >= 4),
    {
        self.parts.len() >= 4
    }

    /// The parts of the namespace.
    pub fn parts(&self) -> (r: &[String])
        ensures
            views(r@) == self@,
    {
        self.parts.as_slice()
    }

    /// The dot-separated form.
    pub fn to_string(&self) -> (r: String)
        ensures
            r@ == join(self@, "."@),
    {
        join_strings(&self.parts, ".")
    }

    /// Whether this namespace is a proper prefix of `other`.
    pub fn is_parent_of(&self, other: &Namespace) -> (r: bool)
        ensures
            r == (self@.len() < other@.len() && self@ == other@.take(self@.len() as int)),
    {
        let n = self.parts.len();
        if n >= other.parts.len() {
            return false;
        }
        let mut i: usize = 0;
        while i < n
            invariant
                i <= n,
                n == self@.len(),
                n < other@.len(),
                forall|j: int| 0 <= j < i ==> self@[j] == other@[j],
            decreases n - i,
        {
            if !str_eq(self.parts[i].as_str(), other.parts[i].as_str()) {
                assert(self@[i as int] != other@.take(n as int)[i as int]);
                return false;
            }
            i += 1;
        }
        assert(self@ =~= other@.take(n as int));
        true
    }

    /// Parse a namespace (never refused).
    pub fn from_str(s: &str) -> (r: Result<Self, String>)
        ensures
            r matches Ok(ns) && ns@ == dot_parts(s@),
    {
        Ok(Namespace::from_string(s))
    }
}

impl Default for Namespace {
    fn default() -> (ns: Self)
        ensures
            ns@ == Seq::<Seq<char>>::empty(),
    {
        Namespace::root()
    }
}

/// Individual key identifier, with its flat form for bracket notation.
#[derive(Debug, PartialEq, Eq, Hash)]
pub struct Key {
    base: String,
    transformed: String,
}

impl Key {
    #[verifier::type_invariant]
    spec fn flat_matches(&self) -> bool {
        self.transformed@ == flat_key(self.base@)
    }
}

impl View for Key {
    type V = Seq<char>;

    /// The key as it was written.
    closed spec fn view(&self) -> Seq<char> {
        self.base@
    }
}

impl Key {
    /// Create a key; bracket notation is flattened, and a key whose brackets
    /// are refused keeps its written form.
    pub fn new(key: &str) -> (k: Self)
        ensures
            k@ == key@,
    {
        let transformed = match transform_key(key) {
            Ok(t) => t,
            Err(_) => owned(key),
        };
        Key { base: owned(key), transformed }
    }

    /// The key as it was written.
    pub fn base(&self) -> (r: &str)
        ensures
            r@ == self@,
    {
        self.base.as_str()
    }

    /// The flat form of the key.
    pub fn transformed(&self) -> (r: &str)
        ensures
            r@ == flat_key(self@),
    {
        proof {
            use_type_invariant(self);
        }
        self.transformed.as_str()
    }

    /// Whether the key holds both `[` and `]`.
    pub fn has_brackets(&self) -> (r: bool)
        ensures
            r == (self@.contains('[') && self@.contains(']')),
    {
        contains_char(self.base.as_str(), '[') && contains_char(self.base.as_str(), ']')
    }

    /// Parse a key; an empty key is refused.
    pub fn from_str(s: &str) -> (r: Result<Self, String>)
        ensures
            s@.len() == 0 ==> (r matches Err(e) && e@ == "Key cannot be empty"@),
            s@.len() > 0 ==> (r matches Ok(k) && k@ == s@),
    {
        if s.unicode_len() == 0 {
            return Err(owned("Key cannot be empty"));
        }
        Ok(Key::new(s))
    }

    /// The key as displayed: its flat form.
    pub fn to_string(&self) -> (r: String)
        ensures
            r@ == flat_key(self@),
    {
        owned(self.transformed())
    }
}

} // verus!
