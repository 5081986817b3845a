//! Format checks on token, meteor and meteor-shower text, without parsing.

use vstd::prelude::*;
use crate::split::{smart_split_semicolons, split_pieces, SplitConfig};
use crate::text::{
    contains_char, count_char, count_chars, rfind_char, split_char, split_on, split_str,
    split_str_exec, trim, trim_str, lemma_split_on_len, push_char, owned, append,
};

verus! {

/// A token `key=value`: exactly one `=`, and a key that, trimmed, is
/// non-empty and holds no space.
pub open spec fn token_format_ok(s: Seq<char>) -> bool {
    let key = trim(split_on(s, '=')[0]);
    &&& count_char(s, '=') == 1
    &&& key.len() > 0
    &&& !key.contains(' ')
}

/// Checks the `key=value` token format.
pub fn is_valid_token_format(s: &str) -> (r: bool)
    ensures
        r == token_format_ok(s@),
{
    if count_chars(s, '=') != 1 {
        return false;
    }
    let parts = split_char(s, '=');
    proof {
        lemma_split_on_len(s@, '=');
    }
    assert(parts@.map_values(|p: &str| p@)[0] == parts@[0]@);
    let key = trim_str(parts[0]);
    if key.unicode_len() == 0 {
        return false;
    }
    if contains_char(key, ' ') {
        return false;
    }
    true
}

/// State after the first `i` chars of `s`: (inside quotes, the last char was a
/// `;` outside quotes, two such `;` in a row were seen).
pub open spec fn semicolon_scan(s: Seq<char>, i: int) -> (bool, bool, bool)
    decreases i,
{
    if i <= 0 {
        (false, false, false)
    } else {
        let (q, prev, found) = semicolon_scan(s, i - 1);
        let ch = s[i - 1];
        if ch == '"' {
            (!q, false, found)
        } else if ch == ';' {
            (q, !q, found || (!q && prev))
        } else {
            (q, false, found)
        }
    }
}

/// `s` holds two `;` in a row outside double quotes.
pub open spec fn has_double_semicolon(s: Seq<char>) -> bool {
    semicolon_scan(s, s.len() as int).2
}

/// Whether `s` holds two `;` in a row outside double quotes.
pub fn has_consecutive_semicolons_outside_quotes(s: &str) -> (r: bool)
    ensures
        r == has_double_semicolon(s@),
{
    let n = s.unicode_len();
    let mut in_quotes = false;
    let mut prev_was_semicolon = false;
    let mut i: usize = 0;
    while i < n
        invariant
            n == s@.len(),
            i <= n,
            semicolon_scan(s@, i as int) == (in_quotes, prev_was_semicolon, false),
        decreases n - i,
    {
        let ch = s.get_char(i);
        if ch == '"' {
            in_quotes = !in_quotes;
            prev_was_semicolon = false;
        } else if ch == ';' {
            if !in_quotes && prev_was_semicolon {
                proof {
                    lemma_semicolon_found_stays(s@, i + 1, n as int);
                }
                return true;
            }
            prev_was_semicolon = !in_quotes;
        } else {
            prev_was_semicolon = false;
        }
        i += 1;
    }
    false
}

proof fn lemma_semicolon_found_stays(s: Seq<char>, i: int, j: int)
    requires
        0 <= i <= j,
        semicolon_scan(s, i).2,
    ensures
        semicolon_scan(s, j).2,
    decreases j - i,
{
    if i < j {
        lemma_semicolon_found_stays(s, i, j - 1);
    }
}

/// The last index of `c` in `s`, or -1.
pub open spec fn last_index(s: Seq<char>, c: char) -> int
    decreases s.len(),
{
    if s.len() == 0 {
        -1
    } else if s.last() == c {
        s.len() - 1
    } else {
        last_index(s.drop_last(), c)
    }
}

proof fn lemma_last_index(s: Seq<char>, c: char, i: int)
    requires
        0 <= i < s.len(),
        s[i] == c,
        forall|j: int| i < j < s.len() ==> s[j] != c,
    ensures
        last_index(s, c) == i,
    decreases s.len(),
{
    if s.last() != c {
        lemma_last_index(s.drop_last(), c, i);
    }
}

proof fn lemma_no_last_index(s: Seq<char>, c: char)
    requires
        !s.contains(c),
    ensures
        last_index(s, c) == -1,
    decreases s.len(),
{
    if s.len() > 0 {
        assert(s.last() == s[s.len() - 1]);
        assert(!s.drop_last().contains(c)) by {
            if s.drop_last().contains(c) {
                let k = choose|k: int| 0 <= k < s.drop_last().len() && s.drop_last()[k] == c;
                assert(s[k] == c);
            }
        }
        lemma_no_last_index(s.drop_last(), c);
    }
}

/// One `;`-separated part of a meteor: `key=value`, or a path of one or two
/// `:` before the last `=` whose final segment, with the value, is a token.
pub open spec fn meteor_token_ok(s0: Seq<char>) -> bool {
    let s = trim(s0);
    if s.contains(':') {
        let e = last_index(s, '=');
        let path = s.take(e);
        let value = s.skip(e + 1);
        let colons = count_char(path, ':');
        &&& e >= 0
        &&& 1 <= colons <= 2
        &&& token_format_ok(split_on(path, ':').last() + seq!['='] + value)
    } else {
        token_format_ok(s)
    }
}

/// Checks one part of a meteor: full `context:namespace:key=value`,
/// `namespace:key=value`, or plain `key=value`.
pub fn is_valid_token_in_meteor_context(s0: &str) -> (r: bool)
    ensures
        r == meteor_token_ok(s0@),
{
    let s = trim_str(s0);
    if contains_char(s, ':') {
        match rfind_char(s, '=') {
            Some(eq_pos) => {
                proof {
                    lemma_last_index(s@, '=', eq_pos as int);
                }
                let n = s.unicode_len();
                let path = s.substring_char(0, eq_pos);
                let value = s.substring_char(eq_pos + 1, n);
                assert(path@ =~= s@.take(eq_pos as int));
                assert(value@ =~= s@.skip(eq_pos + 1));
                let colons = count_chars(path, ':');
                if colons == 0 || colons > 2 {
                    return false;
                }
                let segs = split_char(path, ':');
                proof {
                    lemma_split_on_len(path@, ':');
                }
                let last = segs[segs.len() - 1];
                assert(segs@.map_values(|p: &str| p@).last() == last@);
                let mut rebuilt = owned(last);
                push_char(&mut rebuilt, '=');
                append(&mut rebuilt, value);
                assert(rebuilt@ =~= last@ + seq!['='] + value@);
                is_valid_token_format(rebuilt.as_str())
            },
            None => {
                proof {
                    lemma_no_last_index(s@, '=');
                }
                false
            },
        }
    } else {
        is_valid_token_format(s)
    }
}

/// The `;`-separated parts of a (trimmed) meteor text.
pub open spec fn meteor_parts(s: Seq<char>) -> Seq<Seq<char>> {
    split_pieces(s, SplitConfig::semicolon_tokens_spec())
}

/// A meteor text: non-empty once trimmed, balanced double quotes, no `;;`
/// outside quotes, every non-blank part well formed and at least one such part.
pub open spec fn meteor_format_ok(s0: Seq<char>) -> bool {
    let s = trim(s0);
    let parts = meteor_parts(s);
    &&& s.len() > 0
    &&& count_char(s, '"') % 2 == 0
    &&& !has_double_semicolon(s)
    &&& forall|i: int|
        0 <= i < parts.len() && trim(#[trigger] parts[i]).len() > 0 ==> meteor_token_ok(parts[i])
    &&& exists|i: int| 0 <= i < parts.len() && trim(#[trigger] parts[i]).len() > 0
}

/// Checks the meteor format `context:namespace:key=value; key2=value2`.
pub fn is_valid_meteor_format(s0: &str) -> (r: bool)
    ensures
        r == meteor_format_ok(s0@),
{
    let s = trim_str(s0);
    if s.unicode_len() == 0 {
        return false;
    }
    let token_parts = match smart_split_semicolons(s) {
        Some(parts) => parts,
        None => return false,
    };
    if has_consecutive_semicolons_outside_quotes(s) {
        return false;
    }
    let ghost parts = meteor_parts(s@);
    assert(token_parts@.map_values(|p: &str| p@) == parts);
    let mut valid_tokens: usize = 0;
    let mut i: usize = 0;
    while i < token_parts.len()
        invariant
            i <= token_parts@.len(),
            parts == token_parts@.map_values(|p: &str| p@),
            s@ == trim(s0@),
            parts == meteor_parts(s@),
            valid_tokens <= i,
            forall|j: int|
                0 <= j < i && trim(#[trigger] parts[j]).len() > 0 ==> meteor_token_ok(parts[j]),
            (valid_tokens > 0) <==> exists|j: int| 0 <= j < i && trim(#[trigger] parts[j]).len() > 0,
        decreases token_parts@.len() - i,
    {
        let part = trim_str(token_parts[i]);
        assert(parts[i as int] == token_parts@[i as int]@);
        if part.unicode_len() > 0 {
            if is_valid_token_in_meteor_context(part) {
                assert(meteor_token_ok(parts[i as int])) by {
                    lemma_trim_idempotent(parts[i as int]);
                }
                valid_tokens += 1;
            } else {
                proof {
                    lemma_trim_idempotent(parts[i as int]);
                    assert(trim(parts[i as int]).len() > 0 && !meteor_token_ok(parts[i as int]));
                    assert(!meteor_format_ok(s0@));
                }
                return false;
            }
        }
        i += 1;
    }
    valid_tokens > 0
}

/// Trimming twice is trimming once.
pub proof fn lemma_trim_idempotent(s: Seq<char>)
    ensures
        trim(trim(s)) == trim(s),
{
    crate::text::lemma_trim_twice(s);
}

/// A meteor shower text: non-empty once trimmed, every non-blank piece
/// between `:;:` delimiters a meteor, and at least one such piece.
pub open spec fn shower_format_ok(s0: Seq<char>) -> bool {
    let s = trim(s0);
    let parts = split_str(s, seq![':', ';', ':']);
    &&& s.len() > 0
    &&& forall|i: int|
        0 <= i < parts.len() && trim(#[trigger] parts[i]).len() > 0 ==> meteor_format_ok(
            trim(parts[i]),
        )
    &&& exists|i: int| 0 <= i < parts.len() && trim(#[trigger] parts[i]).len() > 0
}

/// Checks the meteor shower format: meteors separated by `:;:`.
pub fn is_valid_meteor_shower_format(s0: &str) -> (r: bool)
    ensures
        r == shower_format_ok(s0@),
{
    let s = trim_str(s0);
    if s.unicode_len() == 0 {
        return false;
    }
    let delim = crate::shower::METEOR_DELIMITER;
    proof {
        reveal_strlit(":;:");
    }
    assert(delim@ =~= seq![':', ';', ':']);
    let meteor_parts = split_str_exec(s, delim);
    let ghost parts = split_str(s@, seq![':', ';', ':']);
    let mut valid_meteors: usize = 0;
    let mut i: usize = 0;
    while i < meteor_parts.len()
        invariant
            i <= meteor_parts@.len(),
            parts == meteor_parts@.map_values(|p: &str| p@),
            s@ == trim(s0@),
            parts == split_str(s@, seq![':', ';', ':']),
            valid_meteors <= i,
            forall|j: int|
                0 <= j < i && trim(#[trigger] parts[j]).len() > 0 ==> meteor_format_ok(
                    trim(parts[j]),
                ),
            (valid_meteors > 0) <==> exists|j: int|
                0 <= j < i && trim(#[trigger] parts[j]).len() > 0,
        decreases meteor_parts@.len() - i,
    {
        let part = trim_str(meteor_parts[i]);
        assert(parts[i as int] == meteor_parts@[i as int]@);
        if part.unicode_len() > 0 {
            if is_valid_meteor_format(part) {
                valid_meteors += 1;
            } else {
                assert(trim(parts[i as int]).len() > 0 && !meteor_format_ok(trim(parts[i as int])));
                assert(!shower_format_ok(s0@));
                return false;
            }
        }
        i += 1;
    }
    valid_meteors > 0
}

} // verus!
