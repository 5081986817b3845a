//! Bracket notation: `list[0]` ↔ `list__i_0`, `grid[2,3]` ↔ `grid__i_2_3`,
//! `queue[]` ↔ `queue__i_APPEND`.

use vstd::prelude::*;
use crate::error::MeteorError;
use crate::text::{
    append, contains_char, find_char, find_str, first_occurrence, join, join_strs, occurs_at, owned,
    rfind_char, split_char, split_on, starts_with, str_eq, trim, trim_str, lemma_split_join,
    lemma_split_on_plain,
};

verus! {

/// Why a key's bracket notation was refused.
pub enum BracketFault {
    MissingOpen,
    MissingClose,
    Mismatched,
    Malformed,
    Nested,
    EmptyBase,
    EmptyIndex,
    /// A char outside `[A-Za-z0-9_-]` in an index, and its position there.
    BadChar(char, nat),
}

pub open spec fn is_index_char(c: char) -> bool {
    ('a' <= c && c <= 'z') || ('A' <= c && c <= 'Z') || ('0' <= c && c <= '9') || c == '_' || c == '-'
}

/// The first position in `idx` of a char that an index may not hold.
pub open spec fn first_bad_from(idx: Seq<char>, i: int) -> Option<int>
    decreases idx.len() - i,
{
    if i < 0 || i >= idx.len() {
        None
    } else if !is_index_char(idx[i]) {
        Some(i)
    } else {
        first_bad_from(idx, i + 1)
    }
}

/// What `validate_index` finds wrong with an index, if anything.
pub open spec fn index_fault(idx: Seq<char>) -> Option<BracketFault> {
    if idx.len() == 0 {
        Some(BracketFault::EmptyIndex)
    } else if first_bad_from(idx, 0) is Some {
        let p = first_bad_from(idx, 0)->0;
        Some(BracketFault::BadChar(idx[p], p as nat))
    } else {
        None
    }
}

/// The first fault among a list of indices.
pub open spec fn indices_fault(parts: Seq<Seq<char>>) -> Option<BracketFault>
    decreases parts.len(),
{
    if parts.len() == 0 {
        None
    } else if index_fault(parts[0]) is Some {
        index_fault(parts[0])
    } else {
        indices_fault(parts.drop_first())
    }
}

/// The trimmed, non-empty comma-separated parts of bracket content.
pub open spec fn index_parts(content: Seq<char>) -> Seq<Seq<char>> {
    split_on(content, ',').map_values(|p: Seq<char>| trim(p)).filter(|p: Seq<char>| p.len() > 0)
}

/// The first `[` of `key`.
pub open spec fn open_pos(key: Seq<char>) -> int {
    first_occurrence(key, seq!['['])->0
}

/// The last `]` of `key`.
pub open spec fn close_pos(key: Seq<char>) -> int {
    choose|i: int| 0 <= i < key.len() && key[i] == ']' && forall|j: int| i < j < key.len() ==> key[j] != ']'
}

/// What `parse_bracket_notation` gives: the base name and the indices, or
/// what is wrong with the key.
pub open spec fn bracket_parse(key: Seq<char>) -> Result<(Seq<char>, Seq<Seq<char>>), BracketFault> {
    let o = open_pos(key);
    let c = close_pos(key);
    if !key.contains('[') {
        Err(BracketFault::MissingOpen)
    } else if !key.contains(']') {
        Err(BracketFault::MissingClose)
    } else if c <= o {
        Err(BracketFault::Malformed)
    } else {
        let content = key.subrange(o + 1, c);
        if content.contains('[') || content.contains(']') {
            Err(BracketFault::Nested)
        } else {
            let parts = if content.len() == 0 { Seq::empty() } else { index_parts(content) };
            if indices_fault(parts) is Some {
                Err(indices_fault(parts)->0)
            } else if o == 0 {
                Err(BracketFault::EmptyBase)
            } else {
                Ok((key.take(o), parts))
            }
        }
    }
}

/// What `transform_key` gives: the flat form of a key.
pub open spec fn transform_spec(key: Seq<char>) -> Result<Seq<char>, BracketFault> {
    if !key.contains('[') && !key.contains(']') {
        Ok(key)
    } else if key.contains('[') != key.contains(']') {
        Err(BracketFault::Mismatched)
    } else {
        match bracket_parse(key) {
            Err(f) => Err(f),
            Ok((base, indices)) => if indices.len() == 0 {
                Ok(base + "__i_APPEND"@)
            } else {
                Ok(base + "__i_"@ + join(indices, "_"@))
            },
        }
    }
}

/// `e` is the error that the key functions report for fault `f` in `key`.
pub open spec fn bracket_error(e: MeteorError, key: Seq<char>, f: BracketFault) -> bool {
    match f {
        BracketFault::BadChar(ch, p) => e matches MeteorError::InvalidCharacter {
            found,
            position,
            context,
        } && found == ch && position == p && context@ == "bracket index in "@ + key,
        _ => e matches MeteorError::InvalidBracketNotation { key: k, reason } && k@ == key
            && reason@ == fault_reason(f),
    }
}

pub open spec fn fault_reason(f: BracketFault) -> Seq<char> {
    match f {
        BracketFault::MissingOpen => "missing opening bracket"@,
        BracketFault::MissingClose => "missing closing bracket"@,
        BracketFault::Mismatched => "mismatched brackets"@,
        BracketFault::Malformed => "malformed bracket order"@,
        BracketFault::Nested => "nested brackets not supported"@,
        BracketFault::EmptyBase => "empty base name"@,
        BracketFault::EmptyIndex => "empty index"@,
        BracketFault::BadChar(_, _) => Seq::empty(),
    }
}

fn is_index_char_exec(c: char) -> (r: bool)
    ensures
        r == is_index_char(c),
{
    ('a' <= c && c <= 'z') || ('A' <= c && c <= 'Z') || ('0' <= c && c <= '9') || c == '_' || c
        == '-'
}

/// Checks one index of bracket notation: it is non-empty and holds only
/// letters, digits, `_` and `-`.
pub fn validate_index(index: &str, original_key: &str) -> (r: Result<String, MeteorError>)
    ensures
        index_fault(index@) is None ==> (r matches Ok(v) && v@ == index@),
        index_fault(index@) matches Some(f) ==> (r matches Err(e) && bracket_error(
            e,
            original_key@,
            f,
        )),
{
    let n = index.unicode_len();
    if n == 0 {
        return Err(MeteorError::invalid_bracket(original_key, "empty index"));
    }
    let mut i: usize = 0;
    while i < n
        invariant
            n == index@.len(),
            i <= n,
            first_bad_from(index@, 0) == first_bad_from(index@, i as int),
        decreases n - i,
    {
        let ch = index.get_char(i);
        if !is_index_char_exec(ch) {
            let mut ctx = owned("bracket index in ");
            append(&mut ctx, original_key);
            return Err(MeteorError::invalid_char(ch, i, ctx.as_str()));
        }
        i += 1;
    }
    Ok(owned(index))
}

/// Splits bracket content into its indices, validating each.
fn parse_indices<'a>(content: &'a str, original_key: &str) -> (r: Result<Vec<&'a str>, MeteorError>)
    requires
        content@.len() > 0,
    ensures
        indices_fault(index_parts(content@)) is None ==> (r matches Ok(v) && v@.map_values(
            |p: &str| p@,
        ) == index_parts(content@)),
        indices_fault(index_parts(content@)) matches Some(f) ==> (r matches Err(e)
            && bracket_error(e, original_key@, f)),
{
    let pieces = split_char(content, ',');
    let ghost views = pieces@.map_values(|p: &str| p@);
    let ghost all = views.map_values(|p: Seq<char>| trim(p)).filter(|p: Seq<char>| p.len() > 0);
    let mut out: Vec<&str> = Vec::new();
    let mut i: usize = 0;
    assert(views.skip(0) =~= views);
    assert(out@.map_values(|p: &str| p@) + all =~= all);
    assert(views.take(0).map_values(|p: Seq<char>| trim(p)).filter(|p: Seq<char>| p.len() > 0) =~= Seq::<Seq<char>>::empty()) by {
        assert(views.take(0).map_values(|p: Seq<char>| trim(p)) =~= Seq::<Seq<char>>::empty());
    }
    while i < pieces.len()
        invariant
            views == pieces@.map_values(|p: &str| p@),
            views == split_on(content@, ','),
            all == index_parts(content@),
            i <= pieces@.len(),
            out@.map_values(|p: &str| p@) == views.take(i as int).map_values(
                |p: Seq<char>| trim(p),
            ).filter(|p: Seq<char>| p.len() > 0),
            indices_fault(all) == indices_fault(out@.map_values(|p: &str| p@) + views.skip(
                i as int,
            ).map_values(|p: Seq<char>| trim(p)).filter(|p: Seq<char>| p.len() > 0)),
            indices_fault(out@.map_values(|p: &str| p@)) is None,
        decreases pieces@.len() - i,
    {
        proof {
            lemma_filter_split(views, i as int);
        }
        let t = trim_str(pieces[i]);
        if t.unicode_len() > 0 {
            let checked = validate_index(t, original_key);
            match checked {
                Ok(_) => {
                    assert(index_fault(t@) is None);
                    assert(seq![t@][0] == t@);
                    assert(indices_fault(seq![t@]) is None) by {
                        assert(seq![t@].drop_first() =~= Seq::<Seq<char>>::empty());
                        assert(indices_fault(Seq::<Seq<char>>::empty()) is None);
                    }
                },
                Err(e) => {
                    proof {
                        let rest = views.skip(i as int).map_values(|p: Seq<char>| trim(p)).filter(
                            |p: Seq<char>| p.len() > 0,
                        );
                        lemma_indices_fault_append(out@.map_values(|p: &str| p@), rest);
                        assert(rest[0] == t@);
                        assert(rest.len() > 0);
                    }
                    return Err(e);
                },
            }
            let ghost before = out@.map_values(|p: &str| p@);
            out.push(t);
            proof {
                assert(out@.map_values(|p: &str| p@) =~= before + seq![t@]);
                lemma_indices_fault_append(before, seq![t@]);
                assert(seq![t@].drop_first() =~= Seq::<Seq<char>>::empty());
                assert(before + seq![t@] + views.skip(i + 1).map_values(|p: Seq<char>| trim(p)).filter(
                    |p: Seq<char>| p.len() > 0,
                ) =~= before + views.skip(i as int).map_values(|p: Seq<char>| trim(p)).filter(
                    |p: Seq<char>| p.len() > 0,
                ));
            }
        } else {
            proof {
                assert(views.skip(i + 1).map_values(|p: Seq<char>| trim(p)).filter(
                    |p: Seq<char>| p.len() > 0,
                ) =~= views.skip(i as int).map_values(|p: Seq<char>| trim(p)).filter(
                    |p: Seq<char>| p.len() > 0,
                ));
            }
        }
        i += 1;
    }
    proof {
        assert(views.take(i as int) =~= views);
        assert(views.skip(i as int) =~= Seq::<Seq<char>>::empty());
        assert(views.skip(i as int).map_values(|p: Seq<char>| trim(p)).filter(|p: Seq<char>| p.len() > 0) =~= Seq::<Seq<char>>::empty());
        assert(out@.map_values(|p: &str| p@) + Seq::<Seq<char>>::empty() =~= out@.map_values(|p: &str| p@));
    }
    Ok(out)
}

pub proof fn lemma_filter_split(views: Seq<Seq<char>>, i: int)
    requires
        0 <= i < views.len(),
    ensures
        views.take(i + 1).map_values(|p: Seq<char>| trim(p)).filter(|p: Seq<char>| p.len() > 0)
            == views.take(i).map_values(|p: Seq<char>| trim(p)).filter(|p: Seq<char>| p.len() > 0)
            + if trim(views[i]).len() > 0 { seq![trim(views[i])] } else { Seq::empty() },
        views.skip(i).map_values(|p: Seq<char>| trim(p)).filter(|p: Seq<char>| p.len() > 0) == (if trim(views[i]).len() > 0 {
            seq![trim(views[i])]
        } else {
            Seq::empty()
        }) + views.skip(i + 1).map_values(|p: Seq<char>| trim(p)).filter(|p: Seq<char>| p.len() > 0),
{
    let f = |p: Seq<char>| trim(p);
    let keep = |p: Seq<char>| p.len() > 0;
    let a = views.take(i).map_values(f);
    let b = seq![trim(views[i])];
    assert(views.take(i + 1).map_values(f) =~= a + b);
    Seq::filter_distributes_over_add(a, b, keep);
    assert(b.filter(keep) =~= if trim(views[i]).len() > 0 { b } else { Seq::empty() }) by {
        reveal_with_fuel(Seq::filter, 2);
        assert(b.drop_last() =~= Seq::<Seq<char>>::empty());
    }
    let c = views.skip(i + 1).map_values(f);
    assert(views.skip(i).map_values(f) =~= b + c);
    Seq::filter_distributes_over_add(b, c, keep);
}

pub proof fn lemma_indices_fault_append(a: Seq<Seq<char>>, b: Seq<Seq<char>>)
    requires
        indices_fault(a) is None,
    ensures
        indices_fault(a + b) == indices_fault(b),
    decreases a.len(),
{
    if a.len() > 0 {
        assert((a + b).drop_first() =~= a.drop_first() + b);
        assert((a + b)[0] == a[0]);
        lemma_indices_fault_append(a.drop_first(), b);
    } else {
        assert(a + b =~= b);
    }
}

/// Splits a key that holds bracket notation into its base name and indices.
pub fn parse_bracket_notation(key: &str) -> (r: Result<(String, Vec<String>), MeteorError>)
    ensures
        bracket_parse(key@) matches Ok((b, ix)) ==> (r matches Ok((base, indices)) && base@ == b
            && indices@.map_values(|p: String| p@) == ix),
        bracket_parse(key@) matches Err(f) ==> (r matches Err(e) && bracket_error(e, key@, f)),
{
    let open = match find_char(key, '[') {
        Some(p) => p,
        None => {
            return Err(MeteorError::invalid_bracket(key, "missing opening bracket"));
        },
    };
    let close = match rfind_char(key, ']') {
        Some(p) => p,
        None => {
            return Err(MeteorError::invalid_bracket(key, "missing closing bracket"));
        },
    };
    proof {
        crate::text::lemma_first_char_occurrence(key@, '[', open as int);
        lemma_close_pos(key@, close as int);
        assert(key@.contains('['));
        assert(key@.contains(']'));
    }
    if close <= open {
        return Err(MeteorError::invalid_bracket(key, "malformed bracket order"));
    }
    let base = key.substring_char(0, open);
    let content = key.substring_char(open + 1, close);
    if contains_char(content, '[') || contains_char(content, ']') {
        return Err(MeteorError::invalid_bracket(key, "nested brackets not supported"));
    }
    let mut indices: Vec<String> = Vec::new();
    if content.unicode_len() > 0 {
        let parts = parse_indices(content, key)?;
        let mut i: usize = 0;
        while i < parts.len()
            invariant
                i <= parts@.len(),
                indices@.map_values(|p: String| p@) == parts@.map_values(|p: &str| p@).take(
                    i as int,
                ),
            decreases parts@.len() - i,
        {
            let ghost before = indices@.map_values(|p: String| p@);
            assert(parts@.map_values(|p: &str| p@).take(i + 1) =~= parts@.map_values(|p: &str| p@).take(i as int).push(parts@[i as int]@));
            indices.push(owned(parts[i]));
            assert(indices@.map_values(|p: String| p@) =~= parts@.map_values(|p: &str| p@).take(
                i + 1,
            ));
            i += 1;
        }
        assert(parts@.map_values(|p: &str| p@).take(i as int) =~= parts@.map_values(|p: &str| p@));
    } else {
        assert(indices@.map_values(|p: String| p@) =~= Seq::<Seq<char>>::empty());
        assert(indices_fault(Seq::<Seq<char>>::empty()) is None);
    }
    if open == 0 {
        return Err(MeteorError::invalid_bracket(key, "empty base name"));
    }
    assert(key@.subrange(0, open as int) =~= key@.take(open as int));
    Ok((owned(base), indices))
}

pub proof fn lemma_close_pos(s: Seq<char>, i: int)
    requires
        0 <= i < s.len(),
        s[i] == ']',
        forall|j: int| i < j < s.len() ==> s[j] != ']',
    ensures
        close_pos(s) == i,
{
    let k = close_pos(s);
    assert(0 <= k < s.len() && s[k] == ']' && forall|j: int| k < j < s.len() ==> s[j] != ']');
    if k < i {
        assert(s[i] != ']');
    }
    if i < k {
        assert(s[k] != ']');
    }
}

/// Transforms a key with bracket notation to its flat form: `list[0]` →
/// `list__i_0`, `grid[2,3]` → `grid__i_2_3`, `queue[]` → `queue__i_APPEND`;
/// a key without brackets comes back unchanged.
pub fn transform_key(key: &str) -> (r: Result<String, MeteorError>)
    ensures
        transform_spec(key@) matches Ok(v) ==> (r matches Ok(s) && s@ == v),
        transform_spec(key@) matches Err(f) ==> (r matches Err(e) && bracket_error(e, key@, f)),
{
    let has_open = contains_char(key, '[');
    let has_close = contains_char(key, ']');
    if !has_open && !has_close {
        return Ok(owned(key));
    }
    if has_open != has_close {
        return Err(MeteorError::invalid_bracket(key, "mismatched brackets"));
    }
    let (base, indices) = parse_bracket_notation(key)?;
    let mut out = base;
    if indices.len() == 0 {
        append(&mut out, "__i_APPEND");
    } else {
        append(&mut out, "__i_");
        append(&mut out, crate::text::join_strings(&indices, "_").as_str());
    }
    Ok(out)
}

/// Whether a key holds both `[` and `]`.
pub fn has_brackets(key: &str) -> (r: bool)
    ensures
        r == (key@.contains('[') && key@.contains(']')),
{
    contains_char(key, '[') && contains_char(key, ']')
}

/// The base name of a key: the part before its first `[` where it holds
/// bracket notation, the whole key otherwise.
pub fn extract_base_name(key: &str) -> (r: Result<String, MeteorError>)
    ensures
        r matches Ok(v) && v@ == (if key@.contains('[') && key@.contains(']') {
            key@.take(open_pos(key@))
        } else {
            key@
        }),
{
    if !has_brackets(key) {
        return Ok(owned(key));
    }
    let open = find_char(key, '[').unwrap();
    proof {
        crate::text::lemma_first_char_occurrence(key@, '[', open as int);
    }
    assert(key@.subrange(0, open as int) =~= key@.take(open as int));
    Ok(owned(key.substring_char(0, open)))
}

/// `s` with every `_` replaced by `,`.
pub open spec fn underscores_to_commas(s: Seq<char>) -> Seq<char> {
    join(split_on(s, '_'), ","@)
}

/// What `reverse_transform_key` gives: the bracket form of a flat key.
pub open spec fn reverse_spec(flat: Seq<char>) -> Seq<char> {
    match first_occurrence(flat, "__"@) {
        Some(d) => {
            let base = flat.take(d);
            let suffix = flat.skip(d + 2);
            if "i_"@.is_prefix_of(suffix) {
                let indices = suffix.skip(2);
                if indices == "APPEND"@ {
                    base + "[]"@
                } else {
                    base + "["@ + underscores_to_commas(indices) + "]"@
                }
            } else {
                base + "["@ + suffix + "]"@
            }
        },
        None => flat,
    }
}

/// Turns a flat key back into bracket notation (best effort): `list__i_0` →
/// `list[0]`, `grid__i_2_3` → `grid[2,3]`, `queue__i_APPEND` → `queue[]`,
/// `person__name` → `person[name]`; a key without `__` comes back unchanged.
pub fn reverse_transform_key(flat_key: &str) -> (r: Option<String>)
    ensures
        r matches Some(v) && v@ == reverse_spec(flat_key@),
{
    let n = flat_key.unicode_len();
    match find_str(flat_key, "__") {
        Some(d) => {
            proof {
                crate::text::lemma_first_occurrence_from(flat_key@, "__"@, 0);
                reveal_strlit("__");
            }
            let base = flat_key.substring_char(0, d);
            let suffix = flat_key.substring_char(d + 2, n);
            assert(base@ =~= flat_key@.take(d as int));
            assert(suffix@ =~= flat_key@.skip(d + 2));
            let mut out = owned(base);
            if starts_with(suffix, "i_") {
                proof {
                    reveal_strlit("i_");
                }
                let m = suffix.unicode_len();
                let indices = suffix.substring_char(2, m);
                assert(indices@ =~= suffix@.skip(2));
                if str_eq(indices, "APPEND") {
                    append(&mut out, "[]");
                } else {
                    let parts = split_char(indices, '_');
                    append(&mut out, "[");
                    append(&mut out, join_strs(&parts, ",").as_str());
                    append(&mut out, "]");
                }
            } else {
                append(&mut out, "[");
                append(&mut out, suffix);
                append(&mut out, "]");
            }
            Some(out)
        },
        None => Some(owned(flat_key)),
    }
}

/// A base name that the flat form can be split back at: no `__` in it and
/// no `_` at its end.
pub open spec fn splittable_base(b: Seq<char>) -> bool {
    &&& b.len() > 0
    &&& !b.contains('[')
    &&& !b.contains(']')
    &&& b.last() != '_'
    &&& forall|j: int| 0 <= j < b.len() - 1 ==> !(b[j] == '_' && #[trigger] b[j + 1] == '_')
}

/// An index that survives the round trip: non-empty, of index chars, and
/// without `_`.
pub open spec fn plain_index(p: Seq<char>) -> bool {
    p.len() > 0 && forall|j: int| 0 <= j < p.len() ==> is_index_char(#[trigger] p[j]) && p[j] != '_'
}

/// The key `base[i1,i2,...]`.
pub open spec fn bracket_key(base: Seq<char>, indices: Seq<Seq<char>>) -> Seq<char> {
    base + "["@ + join(indices, ","@) + "]"@
}

proof fn lemma_join_lacks(ps: Seq<Seq<char>>, sep: Seq<char>, c: char)
    requires
        !sep.contains(c),
        forall|i: int| 0 <= i < ps.len() ==> !(#[trigger] ps[i]).contains(c),
    ensures
        !join(ps, sep).contains(c),
    decreases ps.len(),
{
    if ps.len() >= 2 {
        let rest = ps.drop_last();
        assert forall|i: int| 0 <= i < rest.len() implies !(#[trigger] rest[i]).contains(c) by {
            assert(rest[i] == ps[i]);
        }
        lemma_join_lacks(rest, sep, c);
        let j = join(ps, sep);
        assert(ps.last() == ps[ps.len() - 1]);
        if j.contains(c) {
            let k = choose|k: int| 0 <= k < j.len() && j[k] == c;
            let a = join(rest, sep);
            if k < a.len() {
                assert(a[k] == c);
            } else if k < a.len() + sep.len() {
                assert(sep[k - a.len()] == c);
            } else {
                assert(ps.last()[k - a.len() - sep.len()] == c);
            }
        }
    }
}

proof fn lemma_plain_trimmed(p: Seq<char>)
    requires
        plain_index(p),
    ensures
        trim(p) == p,
{
    assert(p[0] == p[0]);
    crate::text::lemma_trim_start_skip(p, 0);
    assert(p.skip(0) =~= p);
    assert(p[p.len() - 1] == p[p.len() - 1]);
    crate::text::lemma_trim_end_take(p, p.len() as int);
    assert(p.take(p.len() as int) =~= p);
}

proof fn lemma_keep_all(ps: Seq<Seq<char>>)
    requires
        forall|i: int| 0 <= i < ps.len() ==> (#[trigger] ps[i]).len() > 0,
    ensures
        ps.filter(|p: Seq<char>| p.len() > 0) == ps,
    decreases ps.len(),
{
    reveal(Seq::filter);
    if ps.len() > 0 {
        let rest = ps.drop_last();
        assert forall|i: int| 0 <= i < rest.len() implies (#[trigger] rest[i]).len() > 0 by {
            assert(rest[i] == ps[i]);
        }
        lemma_keep_all(rest);
        assert(ps.last() == ps[ps.len() - 1]);
        assert(rest.push(ps.last()) =~= ps);
    }
}

proof fn lemma_no_bad_char(p: Seq<char>, i: int)
    requires
        0 <= i,
        forall|j: int| 0 <= j < p.len() ==> is_index_char(#[trigger] p[j]),
    ensures
        first_bad_from(p, i) is None,
    decreases p.len() - i,
{
    if i < p.len() {
        lemma_no_bad_char(p, i + 1);
    }
}

proof fn lemma_indices_plain(ps: Seq<Seq<char>>)
    requires
        forall|i: int| 0 <= i < ps.len() ==> plain_index(#[trigger] ps[i]),
    ensures
        indices_fault(ps) is None,
    decreases ps.len(),
{
    if ps.len() > 0 {
        assert(plain_index(ps[0]));
        lemma_no_bad_char(ps[0], 0);
        let rest = ps.drop_first();
        assert forall|i: int| 0 <= i < rest.len() implies plain_index(#[trigger] rest[i]) by {
            assert(rest[i] == ps[i + 1]);
        }
        lemma_indices_plain(rest);
    }
}

proof fn lemma_first_double_underscore(b: Seq<char>, rest: Seq<char>)
    requires
        splittable_base(b),
    ensures
        first_occurrence(b + "__"@ + rest, "__"@) == Some(b.len() as int),
{
    reveal_strlit("__");
    let s = b + "__"@ + rest;
    let o = b.len() as int;
    crate::text::lemma_first_occurrence_from(s, "__"@, 0);
    assert(s.subrange(o, o + 2) =~= "__"@);
    assert(occurs_at(s, "__"@, o));
    assert forall|j: int| 0 <= j < o implies !occurs_at(s, "__"@, j) by {
        if occurs_at(s, "__"@, j) {
            assert(s.subrange(j, j + 2)[0] == s[j]);
            assert(s.subrange(j, j + 2)[1] == s[j + 1]);
            assert(s[j] == b[j]);
            if j + 1 < o {
                assert(s[j + 1] == b[j + 1]);
            } else {
                assert(b.last() == b[o - 1]);
            }
        }
    }
}

/// A key in bracket notation comes back from its flat form: `base[i1,i2]`
/// flattens to `base__i_i1_i2` and back, `base[]` to `base__i_APPEND` and
/// back.
pub proof fn law_bracket_round_trip(base: Seq<char>, indices: Seq<Seq<char>>)
    requires
        splittable_base(base),
        forall|i: int| 0 <= i < indices.len() ==> plain_index(#[trigger] indices[i]),
        indices != seq!["APPEND"@],
    ensures
        transform_spec(bracket_key(base, indices)) matches Ok(flat) && reverse_spec(flat)
            == bracket_key(base, indices),
{
    reveal_strlit("[");
    reveal_strlit("]");
    reveal_strlit(",");
    reveal_strlit("_");
    reveal_strlit("__");
    reveal_strlit("i_");
    reveal_strlit("__i_");
    reveal_strlit("APPEND");
    reveal_strlit("__i_APPEND");
    reveal_strlit("i_APPEND");
    reveal_strlit("[]");
    let j = join(indices, ","@);
    let key = bracket_key(base, indices);
    let o = base.len() as int;
    assert(","@ =~= seq![',']);
    assert("_"@ =~= seq!['_']);
    assert forall|i: int| 0 <= i < indices.len() implies !(#[trigger] indices[i]).contains('[')
        && !indices[i].contains(']') && !indices[i].contains(',') && !indices[i].contains('_') by {
        let p = indices[i];
        assert(plain_index(p));
        if p.contains('[') {
            let k = choose|k: int| 0 <= k < p.len() && p[k] == '[';
            assert(is_index_char(p[k]));
        }
        if p.contains(']') {
            let k = choose|k: int| 0 <= k < p.len() && p[k] == ']';
            assert(is_index_char(p[k]));
        }
        if p.contains(',') {
            let k = choose|k: int| 0 <= k < p.len() && p[k] == ',';
            assert(is_index_char(p[k]));
        }
        if p.contains('_') {
            let k = choose|k: int| 0 <= k < p.len() && p[k] == '_';
        }
    }
    lemma_join_lacks(indices, ","@, '[');
    lemma_join_lacks(indices, ","@, ']');
    // the first '[' is the one after the base
    assert(key[o] == '[');
    assert forall|k: int| 0 <= k < o implies key[k] != '[' by {
        assert(key[k] == base[k]);
    }
    crate::text::lemma_first_char_occurrence(key, '[', o);
    assert(open_pos(key) == o);
    // the last ']' closes the key
    let last = key.len() - 1;
    assert(key[last] == ']');
    assert(key.contains('[') && key.contains(']'));
    let c = close_pos(key);
    assert(0 <= last < key.len() && key[last] == ']' && forall|i: int| last < i < key.len() ==> key[i] != ']');
    assert(c == last) by {
        if c < last {
            assert(key[last] != ']');
        }
    }
    assert(key.subrange(o + 1, c) =~= j);
    assert(!j.contains('[') && !j.contains(']'));
    assert(key.take(o) =~= base);
    lemma_indices_plain(indices);
    if indices.len() == 0 {
        assert(j =~= Seq::<char>::empty());
        assert(bracket_parse(key) == Ok::<(Seq<char>, Seq<Seq<char>>), BracketFault>((base, Seq::empty())));
        let flat = base + "__i_APPEND"@;
        assert(transform_spec(key) == Ok::<Seq<char>, BracketFault>(flat));
        assert("__i_APPEND"@.len() == 10 && "i_APPEND"@.len() == 8 && "__"@.len() == 2);
        assert("__i_APPEND"@ =~= "__"@ + "i_APPEND"@);
        assert(flat =~= base + "__"@ + "i_APPEND"@);
        lemma_first_double_underscore(base, "i_APPEND"@);
        assert(flat.take(o) =~= base);
        assert(flat.skip(o + 2) =~= "i_APPEND"@);
        assert("i_"@.is_prefix_of("i_APPEND"@)) by {
            assert("i_APPEND"@.take(2) =~= "i_"@);
        }
        assert("i_APPEND"@.skip(2) =~= "APPEND"@);
        assert(key =~= base + "[]"@);
    } else {
        lemma_split_join(indices, ',');
        assert forall|i: int| 0 <= i < indices.len() implies trim(#[trigger] indices[i]) == indices[i] by {
            lemma_plain_trimmed(indices[i]);
        }
        assert(indices.map_values(|p: Seq<char>| trim(p)) =~= indices);
        lemma_keep_all(indices);
        assert(index_parts(j) == indices);
        if j.len() == 0 {
            assert(split_on(j, ',') =~= seq![Seq::<char>::empty()]);
            assert(indices[0].len() > 0);
        }
        assert(bracket_parse(key) == Ok::<(Seq<char>, Seq<Seq<char>>), BracketFault>((base, indices)));
        let u = join(indices, "_"@);
        let flat = base + "__i_"@ + u;
        assert(transform_spec(key) == Ok::<Seq<char>, BracketFault>(flat));
        assert(flat =~= base + "__"@ + ("i_"@ + u));
        lemma_first_double_underscore(base, "i_"@ + u);
        assert(flat.take(o) =~= base);
        assert(flat.skip(o + 2) =~= "i_"@ + u);
        assert("i_"@.is_prefix_of("i_"@ + u)) by {
            assert(("i_"@ + u).take(2) =~= "i_"@);
        }
        assert(("i_"@ + u).skip(2) =~= u);
        lemma_split_join(indices, '_');
        assert(u != "APPEND"@) by {
            if indices.len() == 1 {
                assert(u == indices[0]);
                assert(indices =~= seq![indices[0]]);
            } else {
                assert(split_on(u, '_').len() >= 2);
                if u == "APPEND"@ {
                    assert(!"APPEND"@.contains('_')) by {
                        if "APPEND"@.contains('_') {
                            let k = choose|k: int| 0 <= k < 6 && "APPEND"@[k] == '_';
                        }
                    }
                    lemma_split_on_plain("APPEND"@, '_');
                }
            }
        }
        assert(underscores_to_commas(u) == j);
    }
}

/// A key without brackets and without `__` is its own flat form, and comes
/// back unchanged.
pub proof fn law_plain_key_round_trip(key: Seq<char>)
    requires
        !key.contains('['),
        !key.contains(']'),
        forall|j: int| 0 <= j < key.len() - 1 ==> !(key[j] == '_' && #[trigger] key[j + 1] == '_'),
    ensures
        transform_spec(key) == Ok::<Seq<char>, BracketFault>(key),
        reverse_spec(key) == key,
{
    reveal_strlit("__");
    crate::text::lemma_first_occurrence_from(key, "__"@, 0);
    if let Some(k) = first_occurrence(key, "__"@) {
        assert(key.subrange(k, k + 2)[0] == key[k]);
        assert(key.subrange(k, k + 2)[1] == key[k + 1]);
    }
}

} // verus!
