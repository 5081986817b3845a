//! Parsing a token stream into a bucket: `;`-separated tokens with
//! `context:namespace:key`, `namespace:key` or `key` addresses, `ctx=`
//! context switches, and quoted values with escapes.

use vstd::prelude::*;
use crate::bucket::{set_entry, switched, BucketView, TokenBucket};
use crate::error::MeteorError;
use crate::key::flat_key;
use crate::organize::{too_deep, too_deep_error};
use crate::primary::{Context, Namespace};
use crate::text::{
    append, count_char, count_chars, find_char, first_occurrence, lemma_split_on_count, owned,
    push_char, split_char, split_on, str_eq, trim, trim_str, utf8_len,
};
use crate::token::Token;

verus! {

/// Why an address was refused.
pub enum AddressFault {
    EmptyNamespace,
    EmptyKeyAfterNamespace,
    TooDeep,
    EmptyContext,
    EmptyKey,
    TooManyColons,
}

/// The namespace part of an address of one or two colons.
pub open spec fn address_namespace(a: Seq<char>) -> Seq<char> {
    if count_char(a, ':') == 1 {
        trim(split_on(a, ':')[0])
    } else {
        trim(split_on(a, ':')[1])
    }
}

/// What an address resolves to: (context where one is named, namespace, key).
pub open spec fn address_spec(a: Seq<char>) -> Result<(Option<Seq<char>>, Seq<char>, Seq<char>), AddressFault> {
    let parts = split_on(a, ':');
    let colons = count_char(a, ':');
    if colons == 0 {
        Ok((None, Seq::empty(), a))
    } else if colons == 1 {
        let ns = trim(parts[0]);
        let key = trim(parts[1]);
        if ns.len() == 0 {
            Err(AddressFault::EmptyNamespace)
        } else if key.len() == 0 {
            Err(AddressFault::EmptyKeyAfterNamespace)
        } else if too_deep(ns) {
            Err(AddressFault::TooDeep)
        } else {
            Ok((None, ns, key))
        }
    } else if colons == 2 {
        let c = trim(parts[0]);
        let ns = trim(parts[1]);
        let key = trim(parts[2]);
        if c.len() == 0 {
            Err(AddressFault::EmptyContext)
        } else if key.len() == 0 {
            Err(AddressFault::EmptyKey)
        } else if ns.len() > 0 && too_deep(ns) {
            Err(AddressFault::TooDeep)
        } else {
            Ok((Some(c), ns, key))
        }
    } else {
        Err(AddressFault::TooManyColons)
    }
}

/// `e` reports fault `f` of address `a`.
pub open spec fn address_error(e: MeteorError, a: Seq<char>, f: AddressFault) -> bool {
    match f {
        AddressFault::EmptyNamespace => e matches MeteorError::InvalidToken { token, reason }
            && token@ == a && reason@ == "empty namespace"@,
        AddressFault::EmptyKeyAfterNamespace => e matches MeteorError::InvalidToken {
            token,
            reason,
        } && token@ == a && reason@ == "empty key after namespace"@,
        AddressFault::TooDeep => too_deep_error(e, address_namespace(a)),
        AddressFault::EmptyContext => e matches MeteorError::ParseError { position, message }
            && position == 0 && message@ == "Context name cannot be empty"@,
        AddressFault::EmptyKey => e matches MeteorError::InvalidToken { token, reason } && token@
            == a && reason@ == "empty key"@,
        AddressFault::TooManyColons => e matches MeteorError::InvalidToken { token, reason }
            && token@ == a && reason@ == "too many colons in address"@,
    }
}

/// What an escape sequence `\c` inside quotes stands for.
pub open spec fn escaped(c: char) -> Seq<char> {
    if c == '"' {
        seq!['"']
    } else if c == '\'' {
        seq!['\'']
    } else if c == '\\' {
        seq!['\\']
    } else if c == 'n' {
        seq!['\n']
    } else if c == 't' {
        seq!['\t']
    } else if c == 'r' {
        seq!['\r']
    } else {
        seq!['\\', c]
    }
}

/// The rest of quoted content `c` from char `i`, unescaped; or the char,
/// position and description of the first fault.
pub open spec fn unquote(c: Seq<char>, q: char, i: int) -> Result<Seq<char>, (char, int, Seq<char>)>
    decreases c.len() - i,
{
    if i < 0 || i >= c.len() {
        Ok(Seq::empty())
    } else if c[i] == '\\' {
        if i + 1 >= c.len() {
            Err(('\\', i + 2, "incomplete escape sequence at end of quoted value"@))
        } else {
            match unquote(c, q, i + 2) {
                Ok(rest) => Ok(escaped(c[i + 1]) + rest),
                Err(f) => Err(f),
            }
        }
    } else if c[i] == q {
        Err((q, i + 2, "unescaped "@ + seq![q] + " inside quoted value"@))
    } else {
        match unquote(c, q, i + 1) {
            Ok(rest) => Ok(seq![c[i]] + rest),
            Err(f) => Err(f),
        }
    }
}

/// A value quoted by `"` or `'` at both ends.
pub open spec fn is_quoted(t: Seq<char>) -> bool {
    t.len() >= 2 && ((t[0] == '"' && t.last() == '"') || (t[0] == '\'' && t.last() == '\''))
}

/// What a value gives: trimmed, and unquoted and unescaped where quoted.
pub open spec fn value_spec(v: Seq<char>) -> Result<Seq<char>, (char, int, Seq<char>)> {
    let t = trim(v);
    if is_quoted(t) {
        unquote(t.subrange(1, t.len() - 1), t[0], 0)
    } else {
        Ok(t)
    }
}

/// A run of quoted content without a backslash or the quote char is kept
/// as it is, in front of what the rest gives.
proof fn lemma_unquote_plain(c: Seq<char>, q: char, i: int, j: int)
    requires
        0 <= i <= j <= c.len(),
        forall|k: int| i <= k < j ==> c[k] != '\\' && c[k] != q,
    ensures
        unquote(c, q, i) == match unquote(c, q, j) {
            Ok(r) => Ok(c.subrange(i, j) + r),
            Err(f) => Err::<Seq<char>, (char, int, Seq<char>)>(f),
        },
    decreases j - i,
{
    if i < j {
        lemma_unquote_plain(c, q, i + 1, j);
        match unquote(c, q, j) {
            Ok(r) => {
                assert(seq![c[i]] + (c.subrange(i + 1, j) + r) =~= c.subrange(i, j) + r);
            },
            Err(_) => {},
        }
    } else {
        match unquote(c, q, j) {
            Ok(r) => {
                assert(c.subrange(i, j) + r =~= r);
            },
            Err(_) => {},
        }
    }
}

/// A text that starts and ends with a char other than whitespace is its
/// own trimmed form.
proof fn lemma_trim_kept(s: Seq<char>)
    requires
        s.len() > 0,
        !crate::text::is_ws(s[0]),
        !crate::text::is_ws(s.last()),
    ensures
        trim(s) == s,
{
}

/// A value in double quotes whose content has one escape (a backslash and
/// `x`) between texts without backslashes or quotes.
proof fn lemma_value_one_escape(a: Seq<char>, x: char, b: Seq<char>)
    requires
        !a.contains('\\'),
        !a.contains('"'),
        !b.contains('\\'),
        !b.contains('"'),
    ensures
        value_spec(seq!['"'] + a + seq!['\\', x] + b + seq!['"']) == Ok::<
            Seq<char>,
            (char, int, Seq<char>),
        >(a + escaped(x) + b),
{
    let v = seq!['"'] + a + seq!['\\', x] + b + seq!['"'];
    lemma_trim_kept(v);
    let c = v.subrange(1, v.len() - 1);
    assert(c =~= a + seq!['\\', x] + b);
    let n = a.len() as int;
    assert forall|k: int| 0 <= k < n implies c[k] != '\\' && c[k] != '"' by {
        assert(c[k] == a[k]);
    }
    lemma_unquote_plain(c, '"', 0, n);
    assert forall|k: int| n + 2 <= k < c.len() implies c[k] != '\\' && c[k] != '"' by {
        assert(c[k] == b[k - n - 2]);
    }
    lemma_unquote_plain(c, '"', n + 2, c.len() as int);
    assert(c.subrange(0, n) =~= a);
    assert(c.subrange(n + 2, c.len() as int) =~= b);
    assert(b + Seq::<char>::empty() =~= b);
    assert(a + (escaped(x) + b) =~= a + escaped(x) + b);
}

/// What a double-quoted value gives: its content, with each escape replaced
/// by the char it stands for. Between texts without backslashes or quotes,
/// a backslash followed by `n` gives a line feed, by `t` a tab, by `r` a
/// carriage return, by a double quote a double quote, by a single quote a
/// single quote, and by a backslash one backslash; content without an
/// escape is kept as it is.
pub proof fn law_quoted_value_escapes(a: Seq<char>, b: Seq<char>)
    requires
        !a.contains('\\'),
        !a.contains('"'),
        !b.contains('\\'),
        !b.contains('"'),
    ensures
        value_spec(seq!['"'] + a + seq!['"']) == Ok::<Seq<char>, (char, int, Seq<char>)>(a),
        value_spec(seq!['"'] + a + seq!['\\', 'n'] + b + seq!['"']) == Ok::<
            Seq<char>,
            (char, int, Seq<char>),
        >(a + seq!['\n'] + b),
        value_spec(seq!['"'] + a + seq!['\\', 't'] + b + seq!['"']) == Ok::<
            Seq<char>,
            (char, int, Seq<char>),
        >(a + seq!['\t'] + b),
        value_spec(seq!['"'] + a + seq!['\\', 'r'] + b + seq!['"']) == Ok::<
            Seq<char>,
            (char, int, Seq<char>),
        >(a + seq!['\r'] + b),
        value_spec(seq!['"'] + a + seq!['\\', '"'] + b + seq!['"']) == Ok::<
            Seq<char>,
            (char, int, Seq<char>),
        >(a + seq!['"'] + b),
        value_spec(seq!['"'] + a + seq!['\\', '\''] + b + seq!['"']) == Ok::<
            Seq<char>,
            (char, int, Seq<char>),
        >(a + seq!['\''] + b),
        value_spec(seq!['"'] + a + seq!['\\', '\\'] + b + seq!['"']) == Ok::<
            Seq<char>,
            (char, int, Seq<char>),
        >(a + seq!['\\'] + b),
{
    let v = seq!['"'] + a + seq!['"'];
    lemma_trim_kept(v);
    let c = v.subrange(1, v.len() - 1);
    assert(c =~= a);
    assert forall|k: int| 0 <= k < c.len() implies c[k] != '\\' && c[k] != '"' by {
        assert(c[k] == a[k]);
    }
    lemma_unquote_plain(c, '"', 0, c.len() as int);
    assert(c.subrange(0, c.len() as int) + Seq::<char>::empty() =~= a);
    lemma_value_one_escape(a, 'n', b);
    lemma_value_one_escape(a, 't', b);
    lemma_value_one_escape(a, 'r', b);
    lemma_value_one_escape(a, '"', b);
    lemma_value_one_escape(a, '\'', b);
    lemma_value_one_escape(a, '\\', b);
}

/// Why a token was refused.
pub enum TokenParseFault {
    MissingSeparator,
    EmptyKey,
    BadContext,
    Address(AddressFault),
    Value,
}

/// The trimmed part of a token before its first `=`.
pub open spec fn token_left(t: Seq<char>) -> Seq<char> {
    trim(t.take(first_occurrence(t, seq!['='])->0))
}

/// The trimmed part of a token after its first `=`.
pub open spec fn token_right(t: Seq<char>) -> Seq<char> {
    trim(t.skip(first_occurrence(t, seq!['='])->0 + 1))
}

/// The bucket after one token: a context switch, or a value stored at its
/// address (switching to the context the address names, if any).
pub open spec fn token_step(b: BucketView, t: Seq<char>) -> Result<BucketView, TokenParseFault> {
    match first_occurrence(t, seq!['=']) {
        None => Err(TokenParseFault::MissingSeparator),
        Some(_) => {
            let left = token_left(t);
            let right = token_right(t);
            if left.len() == 0 {
                Err(TokenParseFault::EmptyKey)
            } else if left == "ctx"@ {
                if right.len() == 0 {
                    Err(TokenParseFault::BadContext)
                } else {
                    Ok(switched(b, right))
                }
            } else {
                match address_spec(left) {
                    Err(f) => Err(TokenParseFault::Address(f)),
                    Ok((c, ns, key)) => match value_spec(right) {
                        Err(_) => Err(TokenParseFault::Value),
                        Ok(v) => {
                            let b1 = match c {
                                Some(cc) => switched(b, cc),
                                None => b,
                            };
                            Ok((b1.0, set_entry(b1.1, ns, flat_key(key), v), b1.2))
                        },
                    },
                }
            }
        },
    }
}

/// `e` reports fault `f` of token `t`, met at byte position `pos`.
pub open spec fn token_error(e: MeteorError, t: Seq<char>, pos: usize, f: TokenParseFault) -> bool {
    match f {
        TokenParseFault::MissingSeparator => e matches MeteorError::InvalidToken { token, reason }
            && token@ == t && reason@ == "missing '=' separator"@,
        TokenParseFault::EmptyKey => e matches MeteorError::InvalidToken { token, reason } && token@
            == t && reason@ == "empty key"@,
        TokenParseFault::BadContext => e matches MeteorError::ParseError { position, message }
            && position == pos && message@ == "Context name cannot be empty"@,
        TokenParseFault::Address(af) => address_error(e, token_left(t), af),
        TokenParseFault::Value => value_spec(token_right(t)) matches Err((c, p, m)) && e matches MeteorError::InvalidCharacter {
            found,
            position,
            context,
        } && found == c && position == p && context@ == m,
    }
}

/// The byte position after a token (saturating at the largest `usize`).
pub open spec fn advance(pos: usize, t: Seq<char>) -> usize {
    let n = pos + (utf8_len(t) as usize) + 1;
    if n > usize::MAX {
        usize::MAX
    } else {
        n as usize
    }
}

/// The bucket and position after the first `n` pieces, or the first token
/// that failed, its position and fault.
pub open spec fn stream_upto(pieces: Seq<Seq<char>>, n: int) -> Result<
    (BucketView, usize),
    (Seq<char>, usize, TokenParseFault),
>
    decreases n,
{
    if n <= 0 {
        Ok((TokenBucket::new_spec(), 0))
    } else {
        match stream_upto(pieces, n - 1) {
            Err(f) => Err(f),
            Ok((b, pos)) => {
                let t = trim(pieces[n - 1]);
                if t.len() == 0 {
                    Ok((b, pos))
                } else {
                    match token_step(b, t) {
                        Ok(b1) => Ok((b1, advance(pos, t))),
                        Err(f) => Err((t, pos, f)),
                    }
                }
            },
        }
    }
}

proof fn lemma_stream_error_stays(pieces: Seq<Seq<char>>, i: int, n: int)
    requires
        0 <= i <= n,
        stream_upto(pieces, i) is Err,
    ensures
        stream_upto(pieces, n) == stream_upto(pieces, i),
    decreases n - i,
{
    if i < n {
        lemma_stream_error_stays(pieces, i, n - 1);
    }
}

/// Parse a token stream into a bucket; an input that is blank is refused.
pub fn parse_token_stream(input: &str) -> (r: Result<TokenBucket, MeteorError>)
    ensures
        trim(input@).len() == 0 ==> (r matches Err(e) && e matches MeteorError::EmptyInput {
            component,
        } && component@ == "input"@),
        trim(input@).len() > 0 ==> match stream_upto(
            split_on(input@, ';'),
            split_on(input@, ';').len() as int,
        ) {
            Ok((b, _)) => r matches Ok(x) && x@ == b,
            Err((t, pos, f)) => r matches Err(e) && token_error(e, t, pos, f),
        },
{
    if trim_str(input).unicode_len() == 0 {
        return Err(MeteorError::empty("input"));
    }
    let mut bucket = TokenBucket::new();
    let mut position: usize = 0;
    let pieces = split_char(input, ';');
    let ghost pv = pieces@.map_values(|p: &str| p@);
    let mut i: usize = 0;
    while i < pieces.len()
        invariant
            i <= pieces@.len(),
            pv == pieces@.map_values(|p: &str| p@),
            pv == split_on(input@, ';'),
            trim(input@).len() > 0,
            stream_upto(pv, i as int) == Ok::<(BucketView, usize), (Seq<char>, usize, TokenParseFault)>(
                (bucket@, position),
            ),
        decreases pieces@.len() - i,
    {
        let t = trim_str(pieces[i]);
        assert(pv[i as int] == pieces@[i as int]@);
        if t.unicode_len() > 0 {
            match parse_token(t, &mut bucket, position) {
                Ok(()) => {},
                Err(e) => {
                    proof {
                        lemma_stream_error_stays(pv, i + 1, pv.len() as int);
                    }
                    return Err(e);
                },
            }
            position = position.saturating_add(t.len()).saturating_add(1);
        }
        i += 1;
    }
    Ok(bucket)
}

/// Parse one token into the bucket.
fn parse_token(token: &str, bucket: &mut TokenBucket, position: usize) -> (r: Result<(), MeteorError>)
    ensures
        match token_step(old(bucket)@, token@) {
            Ok(b) => r is Ok && final(bucket)@ == b,
            Err(f) => r matches Err(e) && token_error(e, token@, position, f),
        },
{
    proof {
        reveal_strlit("ctx");
    }
    let eq = match find_char(token, '=') {
        Some(i) => i,
        None => return Err(MeteorError::invalid_token(token, "missing '=' separator")),
    };
    let n = token.unicode_len();
    let left = trim_str(token.substring_char(0, eq));
    let right = trim_str(token.substring_char(eq + 1, n));
    assert(token@.subrange(0, eq as int) =~= token@.take(eq as int));
    assert(token@.subrange(eq + 1, n as int) =~= token@.skip(eq + 1));
    assert(left@ == token_left(token@));
    assert(right@ == token_right(token@));
    if left.unicode_len() == 0 {
        return Err(MeteorError::invalid_token(token, "empty key"));
    }
    if str_eq(left, "ctx") {
        let context = match Context::from_str(right) {
            Ok(c) => c,
            Err(e) => return Err(MeteorError::parse(position, e.as_str())),
        };
        bucket.switch_context(context);
        return Ok(());
    }
    let (context_opt, namespace, key) = parse_full_address(left)?;
    match context_opt {
        Some(c) => bucket.switch_context(c),
        None => {},
    }
    let value = parse_value(right)?;
    let t = Token::new(key.as_str(), value.as_str());
    bucket.set(namespace.as_str(), t.transformed_key(), owned(t.value()));
    Ok(())
}

/// Resolve an address: `context:namespace:key`, `namespace:key` or `key`.
fn parse_full_address(input: &str) -> (r: Result<(Option<Context>, String, String), MeteorError>)
    ensures
        match address_spec(input@) {
            Ok((c, ns, key)) => r matches Ok((rc, rn, rk)) && rn@ == ns && rk@ == key && match c {
                Some(cv) => rc matches Some(x) && x@ == cv,
                None => rc is None,
            },
            Err(f) => r matches Err(e) && address_error(e, input@, f),
        },
{
    let colons = count_chars(input, ':');
    proof {
        lemma_split_on_count(input@, ':');
    }
    if colons == 0 {
        return Ok((None, String::new(), owned(input)));
    }
    let parts = split_char(input, ':');
    let ghost pv = parts@.map_values(|p: &str| p@);
    if colons == 1 {
        assert(pv[0] == parts@[0]@ && pv[1] == parts@[1]@);
        let namespace = trim_str(parts[0]);
        let key = trim_str(parts[1]);
        if namespace.unicode_len() == 0 {
            return Err(MeteorError::invalid_token(input, "empty namespace"));
        }
        if key.unicode_len() == 0 {
            return Err(MeteorError::invalid_token(input, "empty key after namespace"));
        }
        let ns = Namespace::from_string(namespace);
        if ns.is_too_deep() {
            return Err(MeteorError::namespace_too_deep(namespace, ns.depth()));
        }
        Ok((None, owned(namespace), owned(key)))
    } else if colons == 2 {
        assert(pv[0] == parts@[0]@ && pv[1] == parts@[1]@ && pv[2] == parts@[2]@);
        let context = match Context::from_str(trim_str(parts[0])) {
            Ok(c) => c,
            Err(e) => return Err(MeteorError::parse(0, e.as_str())),
        };
        let namespace = trim_str(parts[1]);
        let key = trim_str(parts[2]);
        if key.unicode_len() == 0 {
            return Err(MeteorError::invalid_token(input, "empty key"));
        }
        if namespace.unicode_len() > 0 {
            let ns = Namespace::from_string(namespace);
            if ns.is_too_deep() {
                return Err(MeteorError::namespace_too_deep(namespace, ns.depth()));
            }
        }
        Ok((Some(context), owned(namespace), owned(key)))
    } else {
        Err(MeteorError::invalid_token(input, "too many colons in address"))
    }
}

/// Parse a value: trimmed, and unquoted with its escapes resolved where it
/// is quoted by `"` or `'`.
fn parse_value(input: &str) -> (r: Result<String, MeteorError>)
    ensures
        match value_spec(input@) {
            Ok(v) => r matches Ok(s) && s@ == v,
            Err((c, p, m)) => r matches Err(e) && e matches MeteorError::InvalidCharacter {
                found,
                position,
                context,
            } && found == c && position == p && context@ == m,
        },
{
    let trimmed = trim_str(input);
    if trimmed.unicode_len() == 0 {
        return Ok(String::new());
    }
    match get_quote_char(trimmed) {
        Some(q) => parse_quoted_value(trimmed, q),
        None => Ok(owned(trimmed)),
    }
}

/// The quote char of a value quoted at both ends.
fn get_quote_char(value: &str) -> (r: Option<char>)
    ensures
        is_quoted(value@) ==> r == Some(value@[0]),
        !is_quoted(value@) ==> r is None,
{
    let n = value.unicode_len();
    if n < 2 {
        return None;
    }
    let first = value.get_char(0);
    let last = value.get_char(n - 1);
    if (first == '"' && last == '"') || (first == '\'' && last == '\'') {
        Some(first)
    } else {
        None
    }
}

/// Unquote a quoted value, resolving its escapes.
fn parse_quoted_value(input: &str, quote_char: char) -> (r: Result<String, MeteorError>)
    requires
        input@.len() >= 2,
    ensures
        match unquote(input@.subrange(1, input@.len() - 1), quote_char, 0) {
            Ok(v) => r matches Ok(s) && s@ == v,
            Err((c, p, m)) => r matches Err(e) && e matches MeteorError::InvalidCharacter {
                found,
                position,
                context,
            } && found == c && position == p && context@ == m,
        },
{
    let n = input.unicode_len();
    let content = input.substring_char(1, n - 1);
    let m = content.unicode_len();
    let ghost c = content@;
    let mut result = String::new();
    let mut i: usize = 0;
    while i < m
        invariant
            m == c.len(),
            c == content@,
            m + 2 == n,
            n == input@.len(),
            i <= m,
            c == input@.subrange(1, input@.len() - 1),
            unquote(c, quote_char, 0) == match unquote(c, quote_char, i as int) {
                Ok(rest) => Ok(result@ + rest),
                Err(f) => Err::<Seq<char>, (char, int, Seq<char>)>(f),
            },
        decreases m - i,
    {
        let ch = content.get_char(i);
        if ch == '\\' {
            if i + 1 < m {
                let next = content.get_char(i + 1);
                let ghost before = result@;
                if next == '"' {
                    push_char(&mut result, '"');
                } else if next == '\'' {
                    push_char(&mut result, '\'');
                } else if next == '\\' {
                    push_char(&mut result, '\\');
                } else if next == 'n' {
                    push_char(&mut result, '\n');
                } else if next == 't' {
                    push_char(&mut result, '\t');
                } else if next == 'r' {
                    push_char(&mut result, '\r');
                } else {
                    push_char(&mut result, '\\');
                    push_char(&mut result, next);
                }
                assert(result@ =~= before + escaped(next));
                proof {
                    match unquote(c, quote_char, i + 2) {
                        Ok(rest) => {
                            assert(before + (escaped(next) + rest) =~= result@ + rest);
                        },
                        Err(_) => {},
                    }
                }
                i += 2;
            } else {
                return Err(MeteorError::invalid_char(
                    '\\',
                    i + 2,
                    "incomplete escape sequence at end of quoted value",
                ));
            }
        } else if ch == quote_char {
            let mut msg = owned("unescaped ");
            push_char(&mut msg, quote_char);
            append(&mut msg, " inside quoted value");
            return Err(MeteorError::invalid_char(ch, i + 2, msg.as_str()));
        } else {
            let ghost before = result@;
            push_char(&mut result, ch);
            proof {
                match unquote(c, quote_char, i + 1) {
                    Ok(rest) => {
                        assert(before + (seq![ch] + rest) =~= result@ + rest);
                    },
                    Err(_) => {},
                }
            }
            i += 1;
        }
    }
    assert(result@ + Seq::<char>::empty() =~= result@);
    Ok(result)
}

} // verus!
