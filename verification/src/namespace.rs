//! Namespace: the dot-separated hierarchy of tokens within a context.

use vstd::prelude::*;
use crate::config::{MAX_NAMESPACE_PART_LENGTH, NAMESPACE_ERROR_DEPTH, NAMESPACE_WARNING_DEPTH};
use crate::text::{
    append, clone_strings, decimal, decimal_string, join, join_strings, owned, split_char,
    split_on, str_eq, to_strings, utf8_len, utf8_len_exceeds, views,
};

verus! {

/// Hierarchical namespace for organizing tokens within a context.
///
/// Namespaces use dot notation (`ui.widgets`, `db.config`). Five levels
/// produce a warning; six or more are refused by validation.
#[derive(Debug, PartialEq, Eq, Hash)]
pub struct Namespace {
    parts: Vec<String>,
}

impl View for Namespace {
    type V = Seq<Seq<char>>;

    closed spec fn view(&self) -> Seq<Seq<char>> {
        views(self.parts@)
    }
}

impl Clone for Namespace {
    fn clone(&self) -> (r: Self)
        ensures
            r@ == self@,
    {
        Namespace { parts: clone_strings(&self.parts) }
    }
}

/// The parts of a dot-separated string: none for the empty string.
pub open spec fn dot_parts(s: Seq<char>) -> Seq<Seq<char>> {
    if s.len() == 0 {
        Seq::empty()
    } else {
        split_on(s, '.')
    }
}

/// A letter or `_`: what a namespace part starts with.
pub open spec fn is_part_start(c: char) -> bool {
    ('a' <= c <= 'z') || ('A' <= c <= 'Z') || c == '_'
}

/// A letter, digit, `_` or `-`: what the rest of a namespace part holds.
pub open spec fn is_part_char(c: char) -> bool {
    is_part_start(c) || ('0' <= c <= '9') || c == '-'
}

/// A non-empty identifier of letters, digits, `_` and `-` that does not
/// start with a digit or `-`.
pub open spec fn valid_part(p: Seq<char>) -> bool {
    &&& p.len() > 0
    &&& is_part_start(p[0])
    &&& forall|i: int| 1 <= i < p.len() ==> is_part_char(#[trigger] p[i])
}

/// Namespace parts kept for the system, control and switching commands.
pub open spec fn is_reserved(p: Seq<char>) -> bool {
    ||| p == "global"@
    ||| p == "root"@
    ||| p == "default"@
    ||| p == "ctl"@
    ||| p == "control"@
    ||| p == "ctx"@
    ||| p == "context"@
    ||| p == "ns"@
    ||| p == "namespace"@
}

/// Why a namespace part is refused.
pub open spec fn part_error(p: Seq<char>, i: int) -> Option<Seq<char>> {
    if p.len() == 0 {
        Some("Empty namespace part at position "@ + decimal(i as nat))
    } else if utf8_len(p) > 64 {
        Some("Namespace part '"@ + p + "' too long (max "@ + decimal(64) + " chars)"@)
    } else if !valid_part(p) {
        Some("Invalid characters in namespace part '"@ + p + "'"@)
    } else if is_reserved(p) {
        Some("Reserved namespace part '"@ + p + "'"@)
    } else {
        None
    }
}

/// The error for the first refused part at index `i` or later.
pub open spec fn parts_error_from(parts: Seq<Seq<char>>, i: int) -> Option<Seq<char>>
    decreases parts.len() - i,
{
    if i < 0 || i >= parts.len() {
        None
    } else {
        match part_error(parts[i], i) {
            Some(m) => Some(m),
            None => parts_error_from(parts, i + 1),
        }
    }
}

/// What `Namespace::try_from_string` gives for a string.
pub open spec fn try_namespace(s: Seq<char>) -> Result<Seq<Seq<char>>, Seq<char>> {
    let parts = dot_parts(s);
    match parts_error_from(parts, 0) {
        Some(m) => Err(m),
        None => if parts.len() >= 6 {
            Err("Namespace too deep: "@ + decimal(parts.len()) + " levels (max "@ + decimal(5)
                + ")"@)
        } else {
            Ok(parts)
        },
    }
}

fn is_part_start_exec(c: char) -> (r: bool)
    ensures
        r == is_part_start(c),
{
    ('a' <= c && c <= 'z') || ('A' <= c && c <= 'Z') || c == '_'
}

fn is_part_char_exec(c: char) -> (r: bool)
    ensures
        r == is_part_char(c),
{
    is_part_start_exec(c) || ('0' <= c && c <= '9') || c == '-'
}

/// Whether a part is a valid identifier.
fn is_valid_namespace_part(part: &str) -> (r: bool)
    ensures
        r == valid_part(part@),
{
    let n = part.unicode_len();
    if n == 0 {
        return false;
    }
    if !is_part_start_exec(part.get_char(0)) {
        return false;
    }
    let mut i: usize = 1;
    while i < n
        invariant
            1 <= i <= n,
            n == part@.len(),
            forall|j: int| 1 <= j < i ==> is_part_char(#[trigger] part@[j]),
        decreases n - i,
    {
        if !is_part_char_exec(part.get_char(i)) {
            return false;
        }
        i += 1;
    }
    true
}

/// Whether a part is reserved.
fn is_reserved_namespace(part: &str) -> (r: bool)
    ensures
        r == is_reserved(part@),
{
    str_eq(part, "global") || str_eq(part, "root") || str_eq(part, "default") || str_eq(
        part,
        "ctl",
    ) || str_eq(part, "control") || str_eq(part, "ctx") || str_eq(part, "context") || str_eq(
        part,
        "ns",
    ) || str_eq(part, "namespace")
}

/// The message for a refused part, if it is refused.
fn check_part(part: &str, i: usize) -> (r: Option<String>)
    ensures
        r matches Some(m) ==> part_error(part@, i as int) == Some(m@),
        r is None ==> part_error(part@, i as int) is None,
{
    if part.unicode_len() == 0 {
        let mut m = owned("Empty namespace part at position ");
        append(&mut m, decimal_string(i as u64).as_str());
        return Some(m);
    }
    if utf8_len_exceeds(part, MAX_NAMESPACE_PART_LENGTH) {
        let mut m = owned("Namespace part '");
        append(&mut m, part);
        append(&mut m, "' too long (max ");
        append(&mut m, decimal_string(MAX_NAMESPACE_PART_LENGTH as u64).as_str());
        append(&mut m, " chars)");
        return Some(m);
    }
    if !is_valid_namespace_part(part) {
        let mut m = owned("Invalid characters in namespace part '");
        append(&mut m, part);
        append(&mut m, "'");
        return Some(m);
    }
    if is_reserved_namespace(part) {
        let mut m = owned("Reserved namespace part '");
        append(&mut m, part);
        append(&mut m, "'");
        return Some(m);
    }
    None
}

impl Namespace {
    /// Create a namespace from its parts.
    pub fn new(parts: Vec<String>) -> (ns: Self)
        ensures
            ns@ == views(parts@),
    {
        Namespace { parts }
    }

    /// The empty namespace (root level).
    pub fn root() -> (ns: Self)
        ensures
            ns@ == Seq::<Seq<char>>::empty(),
    {
        let ns = Namespace { parts: Vec::new() };
        assert(ns@ =~= Seq::<Seq<char>>::empty());
        ns
    }

    /// Parse a namespace from a dot-separated string, without validation.
    pub fn from_string(s: &str) -> (ns: Self)
        ensures
            ns@ == dot_parts(s@),
    {
        if s.unicode_len() == 0 {
            return Namespace::root();
        }
        let pieces = split_char(s, '.');
        Namespace { parts: to_strings(&pieces) }
    }

    /// Parse and validate a namespace from a dot-separated string.
    ///
    /// Each part must be a non-empty identifier of at most 64 bytes and not
    /// a reserved word; six or more levels are refused.
    pub fn try_from_string(s: &str) -> (r: Result<Self, String>)
        ensures
            match try_namespace(s@) {
                Ok(p) => r matches Ok(ns) && ns@ == p,
                Err(m) => r matches Err(e) && e@ == m,
            },
    {
        if s.unicode_len() == 0 {
            return Ok(Namespace::root());
        }
        let pieces = split_char(s, '.');
        let ghost parts = pieces@.map_values(|p: &str| p@);
        let mut i: usize = 0;
        while i < pieces.len()
            invariant
                i <= pieces@.len(),
                parts == pieces@.map_values(|p: &str| p@),
                parts == dot_parts(s@),
                forall|j: int| 0 <= j < i ==> (#[trigger] part_error(parts[j], j)) is None,
            decreases pieces@.len() - i,
        {
            match check_part(pieces[i], i) {
                Some(m) => {
                    proof {
                        lemma_parts_error_skip(parts, 0, i as int);
                    }
                    return Err(m);
                },
                None => {},
            }
            i += 1;
        }
        proof {
            lemma_parts_error_skip(parts, 0, i as int);
        }
        if pieces.len() >= NAMESPACE_ERROR_DEPTH {
            let mut m = owned("Namespace too deep: ");
            append(&mut m, decimal_string(pieces.len() as u64).as_str());
            append(&mut m, " levels (max ");
            append(&mut m, decimal_string((NAMESPACE_ERROR_DEPTH - 1) as u64).as_str());
            append(&mut m, ")");
            return Err(m);
        }
        Ok(Namespace { parts: to_strings(&pieces) })
    }

    /// The number of levels.
    pub fn depth(&self) -> (r: usize)
        ensures
            r == self@.len(),
    {
        self.parts.len()
    }

    /// Whether the namespace is deep enough to warn (five levels or more).
    pub fn should_warn(&self) -> (r: bool)
        ensures
            r == (self@.len() >= 5),
    {
        self.depth() >= NAMESPACE_WARNING_DEPTH
    }

    /// Whether the namespace is too deep (six levels or more).
    pub fn is_too_deep(&self) -> (r: bool)
        ensures
            r == (self@.len() >= 6),
    {
        self.depth() >= NAMESPACE_ERROR_DEPTH
    }

    /// The parts of the namespace.
    pub fn parts(&self) -> (r: &[String])
        ensures
            views(r@) == self@,
    {
        self.parts.as_slice()
    }

    /// The dot-separated form.
    pub fn to_string(&self) -> (r: String)
        ensures
            r@ == join(self@, "."@),
    {
        join_strings(&self.parts, ".")
    }

    /// Whether this namespace is a proper prefix of `other`.
    pub fn is_parent_of(&self, other: &Namespace) -> (r: bool)
        ensures
            r == (self@.len() < other@.len() && self@ == other@.take(self@.len() as int)),
    {
        let n = self.parts.len();
        if n >= other.parts.len() {
            return false;
        }
        let mut i: usize = 0;
        while i < n
            invariant
                i <= n,
                n == self@.len(),
                n < other@.len(),
                forall|j: int| 0 <= j < i ==> self@[j] == other@[j],
            decreases n - i,
        {
            if !str_eq(self.parts[i].as_str(), other.parts[i].as_str()) {
                assert(self@[i as int] != other@.take(n as int)[i as int]);
                return false;
            }
            i += 1;
        }
        assert(self@ =~= other@.take(n as int));
        true
    }

    /// Parse a namespace with validation (as `try_from_string`).
    pub fn from_str(s: &str) -> (r: Result<Self, String>)
        ensures
            match try_namespace(s@) {
                Ok(p) => r matches Ok(ns) && ns@ == p,
                Err(m) => r matches Err(e) && e@ == m,
            },
    {
        Namespace::try_from_string(s)
    }

    /// Whether two namespaces have the same parts.
    pub fn same_as(&self, other: &Namespace) -> (r: bool)
        ensures
            r == (self@ == other@),
    {
        let n = self.parts.len();
        if n != other.parts.len() {
            return false;
        }
        let mut i: usize = 0;
        while i < n
            invariant
                i <= n,
                n == self@.len(),
                n == other@.len(),
                forall|j: int| 0 <= j < i ==> self@[j] == other@[j],
            decreases n - i,
        {
            if !str_eq(self.parts[i].as_str(), other.parts[i].as_str()) {
                assert(self@[i as int] != other@[i as int]);
                return false;
            }
            i += 1;
        }
        assert(self@ =~= other@);
        true
    }
}

impl Default for Namespace {
    fn default() -> (ns: Self)
        ensures
            ns@ == Seq::<Seq<char>>::empty(),
    {
        Namespace::root()
    }
}

/// When every part before `i` is accepted, the first error from `start`
/// is the first error from `i`.
pub proof fn lemma_parts_error_skip(parts: Seq<Seq<char>>, start: int, i: int)
    requires
        0 <= start <= i <= parts.len(),
        forall|j: int| start <= j < i ==> (#[trigger] part_error(parts[j], j)) is None,
    ensures
        parts_error_from(parts, start) == parts_error_from(parts, i),
    decreases i - start,
{
    if start < i {
        lemma_parts_error_skip(parts, start + 1, i);
    }
}

/// What `parse_dot_path` gives for a non-empty path: context, namespace and
/// the rest of the path as a compound key.
pub open spec fn dot_path(path: Seq<char>) -> (Seq<char>, Seq<char>, Seq<char>) {
    let parts = split_on(path, '.');
    if parts.len() == 1 {
        (parts[0], Seq::empty(), Seq::empty())
    } else if parts.len() == 2 {
        (parts[0], parts[1], Seq::empty())
    } else {
        (parts[0], parts[1], join(parts.skip(2), "."@))
    }
}

/// Parse a dot path into (context, namespace, key): the first part is the
/// context, the second the namespace, the rest a compound key.
pub fn parse_dot_path(path: &str) -> (r: Result<(String, String, String), String>)
    ensures
        path@.len() == 0 ==> (r matches Err(e) && e@ == "Path cannot be empty"@),
        path@.len() > 0 ==> (r matches Ok((c, n, k)) && (c@, n@, k@) == dot_path(path@)),
{
    if path.unicode_len() == 0 {
        return Err(owned("Path cannot be empty"));
    }
    let parts = split_char(path, '.');
    proof {
        crate::text::lemma_split_on_len(path@, '.');
    }
    let ghost pv = parts@.map_values(|p: &str| p@);
    if parts.len() == 1 {
        Ok((owned(parts[0]), String::new(), String::new()))
    } else if parts.len() == 2 {
        Ok((owned(parts[0]), owned(parts[1]), String::new()))
    } else {
        let mut rest: Vec<&str> = Vec::new();
        let mut i: usize = 2;
        while i < parts.len()
            invariant
                2 <= i <= parts@.len(),
                pv == parts@.map_values(|p: &str| p@),
                rest@.map_values(|p: &str| p@) == pv.subrange(2, i as int),
            decreases parts@.len() - i,
        {
            let ghost before = rest@;
            rest.push(parts[i]);
            assert(rest@ == before.push(parts@[i as int]));
            assert(rest@.map_values(|p: &str| p@) =~= pv.subrange(2, i as int).push(pv[i as int]));
            assert(pv.subrange(2, i as int).push(pv[i as int]) =~= pv.subrange(2, i + 1));
            i += 1;
        }
        assert(pv.subrange(2, i as int) =~= pv.skip(2));
        let key = crate::text::join_strs(&rest, ".");
        Ok((owned(parts[0]), owned(parts[1]), key))
    }
}

/// A namespace's dotted text parses back into the namespace, where each
/// part is non-empty and holds no dot.
pub proof fn law_namespace_text_round_trip(parts: Seq<Seq<char>>)
    requires
        forall|i: int| 0 <= i < parts.len() ==> (#[trigger] parts[i]).len() > 0 && !parts[i].contains('.'),
    ensures
        dot_parts(join(parts, "."@)) == parts,
{
    reveal_strlit(".");
    assert("."@ =~= seq!['.']);
    if parts.len() > 0 {
        crate::text::lemma_split_join(parts, '.');
        if join(parts, "."@).len() == 0 {
            assert(split_on(join(parts, "."@), '.') =~= seq![Seq::<char>::empty()]);
            assert(parts[0].len() > 0);
        }
    } else {
        assert(join(parts, "."@) =~= Seq::<char>::empty());
    }
}


/// A dotted text is the text of the namespace parsed from it: splitting at
/// the dots and joining with dots gives it back.
pub proof fn law_namespace_parts_round_trip(s: Seq<char>)
    ensures
        join(dot_parts(s), "."@) == s,
{
    reveal_strlit(".");
    assert("."@ =~= seq!['.']);
    if s.len() == 0 {
        assert(join(Seq::<Seq<char>>::empty(), "."@) =~= s);
    } else {
        crate::text::lemma_join_split(s, '.');
    }
}

} // verus!
