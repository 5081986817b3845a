//! Escape sequences: JSON-style escapes in values.
//!
//! `\"`, `\\`, `\n`, `\t`, `\r` and `\uXXXX` are recognised; any other
//! escape is refused.

use vstd::prelude::*;
use crate::text::{append, decimal, decimal_string, owned, push_char, trim, trim_str};

verus! {

pub open spec fn is_hex(c: char) -> bool {
    ('0' <= c && c <= '9') || ('a' <= c && c <= 'f') || ('A' <= c && c <= 'F')
}

pub open spec fn hex_val(c: char) -> nat {
    if '0' <= c && c <= '9' {
        ((c as u32) - 48) as nat
    } else if 'a' <= c && c <= 'f' {
        ((c as u32) - 87) as nat
    } else {
        ((c as u32) - 55) as nat
    }
}

/// The value of a run of hex digits.
pub open spec fn hex_value(h: Seq<char>) -> nat
    decreases h.len(),
{
    if h.len() == 0 {
        0
    } else {
        hex_value(h.drop_last()) * 16 + hex_val(h.last())
    }
}

/// How many of the first (at most four) chars of `s` are hex digits in a row.
pub open spec fn hex_run(s: Seq<char>) -> nat {
    if s.len() < 1 || !is_hex(s[0]) {
        0
    } else if s.len() < 2 || !is_hex(s[1]) {
        1
    } else if s.len() < 3 || !is_hex(s[2]) {
        2
    } else if s.len() < 4 || !is_hex(s[3]) {
        3
    } else {
        4
    }
}

/// A Unicode scalar value: what `char::from_u32` accepts.
pub open spec fn is_scalar(code: nat) -> bool {
    code < 0xD800 || (0xE000 <= code && code <= 0x10FFFF)
}

pub open spec fn prepend(p: Seq<char>, r: Result<Seq<char>, Seq<char>>) -> Result<Seq<char>, Seq<char>> {
    match r {
        Ok(x) => Ok(p + x),
        Err(e) => Err(e),
    }
}

/// The char that a single-char escape `\c` stands for.
pub open spec fn simple_escape(c: char) -> Option<char> {
    if c == '"' {
        Some('"')
    } else if c == '\\' {
        Some('\\')
    } else if c == 'n' {
        Some('\n')
    } else if c == 't' {
        Some('\t')
    } else if c == 'r' {
        Some('\r')
    } else {
        None
    }
}

/// The result of `parse_escaped_value`: the unescaped text, or the message
/// of the first bad escape.
pub open spec fn unescape(s: Seq<char>) -> Result<Seq<char>, Seq<char>>
    decreases s.len(),
{
    if s.len() == 0 {
        Ok(Seq::empty())
    } else if s[0] != '\\' {
        prepend(seq![s[0]], unescape(s.drop_first()))
    } else if s.len() == 1 {
        Err("Unexpected end of input after backslash"@)
    } else if simple_escape(s[1]) is Some {
        prepend(seq![simple_escape(s[1])->0], unescape(s.skip(2)))
    } else if s[1] == 'u' {
        let k = hex_run(s.skip(2));
        if k < 4 {
            Err("Invalid unicode escape sequence at \\u"@ + s.subrange(2, 2 + k as int))
        } else if is_scalar(hex_value(s.subrange(2, 6))) {
            prepend(seq![hex_value(s.subrange(2, 6)) as char], unescape(s.skip(6)))
        } else {
            Err("Invalid unicode code point: \\u"@ + s.subrange(2, 6))
        }
    } else {
        Err("Invalid escape sequence: \\"@ + seq![s[1]])
    }
}

/// The result of `validate_escapes`.
pub open spec fn check_escapes(s: Seq<char>) -> Result<(), Seq<char>>
    decreases s.len(),
{
    if s.len() == 0 {
        Ok(())
    } else if s[0] != '\\' {
        check_escapes(s.drop_first())
    } else if s.len() == 1 {
        Err("Unexpected end of input after backslash"@)
    } else if simple_escape(s[1]) is Some {
        check_escapes(s.skip(2))
    } else if s[1] == 'u' {
        let k = hex_run(s.skip(2));
        if k < 4 {
            Err("Invalid unicode escape at position "@ + decimal(k))
        } else {
            check_escapes(s.skip(6))
        }
    } else {
        Err("Invalid escape sequence: \\"@ + seq![s[1]])
    }
}

/// `s` holds a `"` that no backslash escapes.
pub open spec fn has_unescaped_quote(s: Seq<char>) -> bool
    decreases s.len(),
{
    if s.len() == 0 {
        false
    } else if s[0] == '\\' {
        s.len() >= 2 && has_unescaped_quote(s.skip(2))
    } else if s[0] == '"' {
        true
    } else {
        has_unescaped_quote(s.drop_first())
    }
}

/// `s` is wrapped in double quotes, after trimming.
pub open spec fn is_quoted(s: Seq<char>) -> bool {
    let t = trim(s);
    t.len() >= 2 && t[0] == '"' && t.last() == '"'
}

/// The result of `strip_quotes`.
pub open spec fn stripped(s: Seq<char>) -> Result<Seq<char>, Seq<char>> {
    if is_quoted(s) {
        let t = trim(s);
        unescape(t.subrange(1, t.len() - 1))
    } else {
        Ok(s)
    }
}

/// `char::from_u32`: the char with code `code`, where `code` is a Unicode
/// scalar value; `None` otherwise, as its documentation says.
#[verifier::external_body]
pub(crate) fn char_from_code(code: u32) -> (r: Option<char>)
    ensures
        is_scalar(code as nat) ==> r == Some(code as char),
        !is_scalar(code as nat) ==> r is None,
{
    char::from_u32(code)
}

fn is_hex_digit(c: char) -> (r: bool)
    ensures
        r == is_hex(c),
{
    ('0' <= c && c <= '9') || ('a' <= c && c <= 'f') || ('A' <= c && c <= 'F')
}

fn hex_digit_value(c: char) -> (r: u32)
    requires
        is_hex(c),
    ensures
        r as nat == hex_val(c),
        r < 16,
{
    if '0' <= c && c <= '9' {
        c as u32 - 48
    } else if 'a' <= c && c <= 'f' {
        c as u32 - 87
    } else {
        c as u32 - 55
    }
}

fn escape_of(c: char) -> (r: Option<char>)
    ensures
        r == simple_escape(c),
{
    if c == '"' {
        Some('"')
    } else if c == '\\' {
        Some('\\')
    } else if c == 'n' {
        Some('\n')
    } else if c == 't' {
        Some('\t')
    } else if c == 'r' {
        Some('\r')
    } else {
        None
    }
}

/// Counts the hex digits (at most four) at char position `i` of `s`.
fn hex_run_at(s: &str, i: usize) -> (k: usize)
    requires
        i <= s@.len(),
    ensures
        k == hex_run(s@.skip(i as int)),
        k <= 4,
        i + k <= s@.len(),
        forall|j: int| i <= j < i + k ==> is_hex(s@[j]),
{
    let n = s.unicode_len();
    let ghost t = s@.skip(i as int);
    let mut k: usize = 0;
    while k < 4 && i + k < n && is_hex_digit(s.get_char(i + k))
        invariant
            n == s@.len(),
            i <= n,
            k <= 4,
            i + k <= n,
            forall|j: int| i <= j < i + k ==> is_hex(s@[j]),
        decreases 4 - k,
    {
        k += 1;
    }
    assert(forall|j: int| 0 <= j < t.len() ==> t[j] == s@[i + j]);
    k
}

/// The value of the four hex digits at char position `i` of `s`.
fn hex4_at(s: &str, i: usize) -> (v: u32)
    requires
        i + 4 <= s@.len(),
        forall|j: int| i <= j < i + 4 ==> is_hex(s@[j]),
    ensures
        v as nat == hex_value(s@.subrange(i as int, i + 4)),
        v <= 0xFFFF,
{
    let n = s.unicode_len();
    let mut v: u32 = 0;
    let mut k: usize = 0;
    while k < 4
        invariant
            n == s@.len(),
            i + 4 <= s@.len(),
            forall|j: int| i <= j < i + 4 ==> is_hex(s@[j]),
            k <= 4,
            v as nat == hex_value(s@.subrange(i as int, i + k)),
            v < pow16(k as nat),
        decreases 4 - k,
    {
        let d = hex_digit_value(s.get_char(i + k));
        assert(s@.subrange(i as int, i + k + 1).drop_last() =~= s@.subrange(i as int, i + k));
        v = v * 16 + d;
        k += 1;
    }
    v
}

pub open spec fn pow16(k: nat) -> nat {
    if k == 0 {
        1
    } else if k == 1 {
        16
    } else if k == 2 {
        256
    } else if k == 3 {
        4096
    } else {
        65536
    }
}

/// Parses a string with escape sequences, converting them to the chars they
/// stand for; an unknown or incomplete escape is refused with its message.
pub fn parse_escaped_value(input: &str) -> (r: Result<String, String>)
    ensures
        r matches Ok(v) ==> unescape(input@) == Ok::<Seq<char>, Seq<char>>(v@),
        r matches Err(e) ==> unescape(input@) == Err::<Seq<char>, Seq<char>>(e@),
{
    let n = input.unicode_len();
    let mut out = String::new();
    let mut i: usize = 0;
    assert(input@.skip(0) =~= input@);
    while i < n
        invariant
            n == input@.len(),
            i <= n,
            unescape(input@) == prepend(out@, unescape(input@.skip(i as int))),
        decreases n - i,
    {
        let ghost rest = input@.skip(i as int);
        let ch = input.get_char(i);
        assert(rest[0] == ch);
        if ch != '\\' {
            assert(rest.drop_first() =~= input@.skip(i + 1));
            assert(out@ + (seq![ch] + Seq::<char>::empty()) =~= out@.push(ch));
            proof {
                lemma_prepend_assoc(out@, seq![ch], unescape(rest.drop_first()));
            }
            push_char(&mut out, ch);
            i += 1;
            continue;
        }
        if i + 1 >= n {
            return Err(owned("Unexpected end of input after backslash"));
        }
        let c = input.get_char(i + 1);
        assert(rest[1] == c);
        match escape_of(c) {
            Some(e) => {
                assert(rest.skip(2) =~= input@.skip(i + 2));
                proof {
                    lemma_prepend_assoc(out@, seq![e], unescape(rest.skip(2)));
                }
                assert(out@ + seq![e] =~= out@.push(e));
                push_char(&mut out, e);
                i += 2;
            },
            None => {
                if c == 'u' {
                    let k = hex_run_at(input, i + 2);
                    assert(rest.skip(2) =~= input@.skip(i + 2));
                    if k < 4 {
                        let mut msg = owned("Invalid unicode escape sequence at \\u");
                        append(&mut msg, input.substring_char(i + 2, i + 2 + k));
                        assert(rest.subrange(2, 2 + k as int) =~= input@.subrange(i + 2, i + 2 + k));
                        return Err(msg);
                    }
                    let code = hex4_at(input, i + 2);
                    assert(rest.subrange(2, 6) =~= input@.subrange(i + 2, i + 6));
                    match char_from_code(code) {
                        Some(u) => {
                            assert(rest.skip(6) =~= input@.skip(i + 6));
                            proof {
                                lemma_prepend_assoc(out@, seq![u], unescape(rest.skip(6)));
                            }
                            assert(out@ + seq![u] =~= out@.push(u));
                            push_char(&mut out, u);
                            i += 6;
                        },
                        None => {
                            let mut msg = owned("Invalid unicode code point: \\u");
                            append(&mut msg, input.substring_char(i + 2, i + 6));
                            return Err(msg);
                        },
                    }
                } else {
                    let mut msg = owned("Invalid escape sequence: \\");
                    push_char(&mut msg, c);
                    assert(msg@ =~= "Invalid escape sequence: \\"@ + seq![c]);
                    return Err(msg);
                }
            },
        }
    }
    assert(input@.skip(n as int) =~= Seq::<char>::empty());
    assert(out@ + Seq::<char>::empty() =~= out@);
    Ok(out)
}

pub proof fn lemma_prepend_assoc(a: Seq<char>, b: Seq<char>, r: Result<Seq<char>, Seq<char>>)
    ensures
        prepend(a, prepend(b, r)) == prepend(a + b, r),
{
    match r {
        Ok(x) => {
            assert(a + (b + x) =~= (a + b) + x);
        },
        Err(_) => {},
    }
}

/// Checks that every escape sequence in `input` is valid, converting nothing.
pub fn validate_escapes(input: &str) -> (r: Result<(), String>)
    ensures
        r is Ok <==> check_escapes(input@) is Ok,
        r matches Err(e) ==> check_escapes(input@) == Err::<(), Seq<char>>(e@),
{
    let n = input.unicode_len();
    let mut i: usize = 0;
    assert(input@.skip(0) =~= input@);
    while i < n
        invariant
            n == input@.len(),
            i <= n,
            check_escapes(input@) == check_escapes(input@.skip(i as int)),
        decreases n - i,
    {
        let ghost rest = input@.skip(i as int);
        let ch = input.get_char(i);
        assert(rest[0] == ch);
        if ch != '\\' {
            assert(rest.drop_first() =~= input@.skip(i + 1));
            i += 1;
            continue;
        }
        if i + 1 >= n {
            return Err(owned("Unexpected end of input after backslash"));
        }
        let c = input.get_char(i + 1);
        assert(rest[1] == c);
        match escape_of(c) {
            Some(_) => {
                assert(rest.skip(2) =~= input@.skip(i + 2));
                i += 2;
            },
            None => {
                if c == 'u' {
                    let k = hex_run_at(input, i + 2);
                    assert(rest.skip(2) =~= input@.skip(i + 2));
                    if k < 4 {
                        let mut msg = owned("Invalid unicode escape at position ");
                        let d = decimal_string(k as u64);
                        append(&mut msg, d.as_str());
                        return Err(msg);
                    }
                    assert(rest.skip(6) =~= input@.skip(i + 6));
                    i += 6;
                } else {
                    let mut msg = owned("Invalid escape sequence: \\");
                    push_char(&mut msg, c);
                    assert(msg@ =~= "Invalid escape sequence: \\"@ + seq![c]);
                    return Err(msg);
                }
            },
        }
    }
    assert(input@.skip(n as int) =~= Seq::<char>::empty());
    Ok(())
}

/// Removes surrounding double quotes (after trimming) and unescapes what they
/// held; a value without them comes back unchanged.
pub fn strip_quotes(input: &str) -> (r: Result<String, String>)
    ensures
        r matches Ok(v) ==> stripped(input@) == Ok::<Seq<char>, Seq<char>>(v@),
        r matches Err(e) ==> stripped(input@) == Err::<Seq<char>, Seq<char>>(e@),
{
    let trimmed = trim_str(input);
    let m = trimmed.unicode_len();
    if m >= 2 && trimmed.get_char(0) == '"' && trimmed.get_char(m - 1) == '"' {
        let inner = trimmed.substring_char(1, m - 1);
        parse_escaped_value(inner)
    } else {
        Ok(owned(input))
    }
}

/// Whether `input` holds a double quote that no backslash escapes.
pub fn has_unescaped_quotes(input: &str) -> (r: bool)
    ensures
        r == has_unescaped_quote(input@),
{
    let n = input.unicode_len();
    let mut i: usize = 0;
    assert(input@.skip(0) =~= input@);
    while i < n
        invariant
            n == input@.len(),
            i <= n + 1,
            i <= n ==> has_unescaped_quote(input@) == has_unescaped_quote(input@.skip(i as int)),
            i > n ==> !has_unescaped_quote(input@),
        decreases n + 1 - i,
    {
        let ghost rest = input@.skip(i as int);
        let ch = input.get_char(i);
        assert(rest[0] == ch);
        if ch == '\\' {
            if i + 1 >= n {
                return false;
            }
            assert(rest.skip(2) =~= input@.skip(i + 2));
            i += 2;
        } else if ch == '"' {
            return true;
        } else {
            assert(rest.drop_first() =~= input@.skip(i + 1));
            i += 1;
        }
    }
    if i <= n {
        assert(input@.skip(i as int) =~= Seq::<char>::empty());
    }
    false
}

/// Text without a backslash unescapes to itself, in front of whatever
/// follows it.
proof fn lemma_unescape_plain_prefix(a: Seq<char>, t: Seq<char>)
    requires
        !a.contains('\\'),
    ensures
        unescape(a + t) == prepend(a, unescape(t)),
    decreases a.len(),
{
    if a.len() == 0 {
        assert(a + t =~= t);
        match unescape(t) {
            Ok(x) => assert(a + x =~= x),
            Err(_) => {},
        }
    } else {
        assert((a + t)[0] == a[0]);
        assert((a + t).drop_first() =~= a.drop_first() + t);
        assert(!a.drop_first().contains('\\')) by {
            if a.drop_first().contains('\\') {
                let k = choose|k: int| 0 <= k < a.drop_first().len() && a.drop_first()[k] == '\\';
                assert(a[k + 1] == '\\');
            }
        }
        lemma_unescape_plain_prefix(a.drop_first(), t);
        match unescape(t) {
            Ok(x) => assert(seq![a[0]] + (a.drop_first() + x) =~= a + x),
            Err(_) => {},
        }
    }
}

/// A two-char escape (a backslash and `x`), between texts without
/// backslashes, becomes the one char it stands for.
proof fn lemma_unescape_one(a: Seq<char>, x: char, b: Seq<char>)
    requires
        !a.contains('\\'),
        !b.contains('\\'),
        simple_escape(x) is Some,
    ensures
        unescape(a + seq!['\\', x] + b) == Ok::<Seq<char>, Seq<char>>(a + seq![simple_escape(x)->0] + b),
{
    let t = seq!['\\', x] + b;
    assert(a + seq!['\\', x] + b =~= a + t);
    lemma_unescape_plain_prefix(a, t);
    assert(t.skip(2) =~= b);
    assert(b + Seq::<char>::empty() =~= b);
    lemma_unescape_plain_prefix(b, Seq::empty());
    assert(a + (seq![simple_escape(x)->0] + b) =~= a + seq![simple_escape(x)->0] + b);
}

/// Unescaping gives each simple escape its own char and keeps the text
/// around it: between texts without backslashes, a backslash followed by
/// `n` becomes a line feed, by `t` a tab, by `r` a carriage return, by a
/// quote a quote, and by a backslash one backslash; text without a
/// backslash is kept as it is.
pub proof fn law_unescape_simple_escapes(a: Seq<char>, b: Seq<char>)
    requires
        !a.contains('\\'),
        !b.contains('\\'),
    ensures
        unescape(a) == Ok::<Seq<char>, Seq<char>>(a),
        unescape(a + seq!['\\', 'n'] + b) == Ok::<Seq<char>, Seq<char>>(a + seq!['\n'] + b),
        unescape(a + seq!['\\', 't'] + b) == Ok::<Seq<char>, Seq<char>>(a + seq!['\t'] + b),
        unescape(a + seq!['\\', 'r'] + b) == Ok::<Seq<char>, Seq<char>>(a + seq!['\r'] + b),
        unescape(a + seq!['\\', '"'] + b) == Ok::<Seq<char>, Seq<char>>(a + seq!['"'] + b),
        unescape(a + seq!['\\', '\\'] + b) == Ok::<Seq<char>, Seq<char>>(a + seq!['\\'] + b),
{
    lemma_unescape_plain_prefix(a, Seq::empty());
    assert(a + Seq::<char>::empty() =~= a);
    lemma_unescape_one(a, 'n', b);
    lemma_unescape_one(a, 't', b);
    lemma_unescape_one(a, 'r', b);
    lemma_unescape_one(a, '"', b);
    lemma_unescape_one(a, '\\', b);
}

/// An escape check that succeeds is also passed by the validator: every value
/// that `parse_escaped_value` accepts, `validate_escapes` accepts.
pub proof fn law_unescape_ok_implies_valid(s: Seq<char>)
    ensures
        unescape(s) is Ok ==> check_escapes(s) is Ok,
    decreases s.len(),
{
    if s.len() > 0 {
        if s[0] != '\\' {
            law_unescape_ok_implies_valid(s.drop_first());
        } else if s.len() >= 2 {
            if simple_escape(s[1]) is Some {
                law_unescape_ok_implies_valid(s.skip(2));
            } else if s[1] == 'u' && hex_run(s.skip(2)) >= 4 {
                law_unescape_ok_implies_valid(s.skip(6));
            }
        }
    }
}


/// Each `\uXXXX` escape that reading `s` meets names a Unicode scalar value
/// (four hex digits name one unless they name a surrogate, 0xD800..=0xDFFF).
pub open spec fn escapes_name_scalars(s: Seq<char>) -> bool
    decreases s.len(),
{
    if s.len() == 0 {
        true
    } else if s[0] != '\\' {
        escapes_name_scalars(s.drop_first())
    } else if s.len() == 1 {
        true
    } else if simple_escape(s[1]) is Some {
        escapes_name_scalars(s.skip(2))
    } else if s[1] == 'u' {
        if hex_run(s.skip(2)) < 4 {
            true
        } else {
            is_scalar(hex_value(s.subrange(2, 6))) && escapes_name_scalars(s.skip(6))
        }
    } else {
        true
    }
}

/// A value that the validator accepts is also unescaped without error,
/// unless one of its `\uXXXX` escapes names a surrogate.
pub proof fn law_valid_implies_unescape_ok(s: Seq<char>)
    requires
        check_escapes(s) is Ok,
        escapes_name_scalars(s),
    ensures
        unescape(s) is Ok,
    decreases s.len(),
{
    if s.len() > 0 {
        if s[0] != '\\' {
            law_valid_implies_unescape_ok(s.drop_first());
        } else if s.len() >= 2 {
            if simple_escape(s[1]) is Some {
                law_valid_implies_unescape_ok(s.skip(2));
            } else if s[1] == 'u' && hex_run(s.skip(2)) >= 4 {
                law_valid_implies_unescape_ok(s.skip(6));
            }
        }
    }
}

} // verus!
