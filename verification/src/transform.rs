//! Token transformation: keys in bracket notation to their flat form, and
//! `key=value` texts to (flat key, value) pairs.

use vstd::prelude::*;
use crate::bracket::{self, bracket_error, open_pos, transform_spec, BracketFault};
use crate::error::MeteorError;
use crate::text::{find_char, first_occurrence, owned, split_char, split_on, starts_with, trim, trim_str};

verus! {

/// Transform a key by the bracket notation rules (`list[0]` → `list__i_0`).
pub fn transform_key(key: &str) -> (r: Result<String, MeteorError>)
    ensures
        transform_spec(key@) matches Ok(v) ==> (r matches Ok(s) && s@ == v),
        transform_spec(key@) matches Err(f) ==> (r matches Err(e) && bracket_error(e, key@, f)),
{
    bracket::transform_key(key)
}

/// Transform a value: it is kept as it is.
pub fn transform_value(value: &str) -> (r: Result<String, MeteorError>)
    ensures
        r matches Ok(s) && s@ == value@,
{
    Ok(owned(value))
}

/// Why a token text could not be transformed.
pub enum TokenFault {
    /// No `=` in the text
    MissingSeparator,
    /// Nothing before the `=`
    EmptyKey,
    /// The key's bracket notation was refused
    Bracket(BracketFault),
}

/// What transforming a token text gives: (flat key, trimmed value), or why
/// it failed.
pub open spec fn token_transform(t: Seq<char>) -> Result<(Seq<char>, Seq<char>), TokenFault> {
    match first_occurrence(t, seq!['=']) {
        None => Err(TokenFault::MissingSeparator),
        Some(i) => {
            let k = trim(t.take(i));
            let v = trim(t.skip(i + 1));
            if k.len() == 0 {
                Err(TokenFault::EmptyKey)
            } else {
                match transform_spec(k) {
                    Ok(f) => Ok((f, v)),
                    Err(b) => Err(TokenFault::Bracket(b)),
                }
            }
        },
    }
}

/// `e` is the error that reports fault `f` of token text `t`.
pub open spec fn token_fault_error(e: MeteorError, t: Seq<char>, f: TokenFault) -> bool {
    match f {
        TokenFault::MissingSeparator => e matches MeteorError::InvalidToken { token, reason }
            && token@ == t && reason@ == "missing '=' separator"@,
        TokenFault::EmptyKey => e matches MeteorError::InvalidToken { token, reason } && token@ == t
            && reason@ == "empty key"@,
        TokenFault::Bracket(b) => bracket_error(
            e,
            trim(t.take(first_occurrence(t, seq!['='])->0)),
            b,
        ),
    }
}

/// Transform a `key=value` text into (flat key, trimmed value).
pub fn transform_token(token: &str) -> (r: Result<(String, String), MeteorError>)
    ensures
        match token_transform(token@) {
            Ok((k, v)) => r matches Ok((a, b)) && a@ == k && b@ == v,
            Err(f) => r matches Err(e) && token_fault_error(e, token@, f),
        },
{
    let eq = match find_char(token, '=') {
        Some(i) => i,
        None => return Err(MeteorError::invalid_token(token, "missing '=' separator")),
    };
    let n = token.unicode_len();
    let raw_key = trim_str(token.substring_char(0, eq));
    let raw_value = trim_str(token.substring_char(eq + 1, n));
    assert(token@.subrange(0, eq as int) =~= token@.take(eq as int));
    assert(token@.subrange(eq + 1, n as int) =~= token@.skip(eq + 1));
    if raw_key.unicode_len() == 0 {
        return Err(MeteorError::invalid_token(token, "empty key"));
    }
    let key = transform_key(raw_key)?;
    let value = transform_value(raw_value)?;
    Ok((key, value))
}

/// The pairs of a `;`-separated token text: blank pieces and context
/// switches (`ctx=`) are skipped; the first piece that fails is reported.
pub open spec fn batch_upto(pieces: Seq<Seq<char>>, n: int) -> Result<
    Seq<(Seq<char>, Seq<char>)>,
    Seq<char>,
>
    decreases n,
{
    if n <= 0 {
        Ok(Seq::empty())
    } else {
        match batch_upto(pieces, n - 1) {
            Err(t) => Err(t),
            Ok(v) => {
                let t = trim(pieces[n - 1]);
                if t.len() == 0 || "ctx="@.is_prefix_of(t) {
                    Ok(v)
                } else {
                    match token_transform(t) {
                        Ok(p) => Ok(v.push(p)),
                        Err(_) => Err(t),
                    }
                }
            },
        }
    }
}

/// The view of a list of pairs.
pub open spec fn pair_views(v: Seq<(String, String)>) -> Seq<(Seq<char>, Seq<char>)> {
    v.map_values(|p: (String, String)| (p.0@, p.1@))
}

proof fn lemma_batch_error_stays(pieces: Seq<Seq<char>>, i: int, n: int)
    requires
        0 <= i <= n,
        batch_upto(pieces, i) is Err,
    ensures
        batch_upto(pieces, n) == batch_upto(pieces, i),
    decreases n - i,
{
    if i < n {
        lemma_batch_error_stays(pieces, i, n - 1);
    }
}

/// Transform each `key=value` piece of a `;`-separated text.
pub fn transform_token_batch(tokens: &str) -> (r: Result<Vec<(String, String)>, MeteorError>)
    ensures
        match batch_upto(split_on(tokens@, ';'), split_on(tokens@, ';').len() as int) {
            Ok(v) => r matches Ok(x) && pair_views(x@) == v,
            Err(t) => r matches Err(e) && token_transform(t) matches Err(f) && token_fault_error(
                e,
                t,
                f,
            ),
        },
{
    let pieces = split_char(tokens, ';');
    let ghost pv = pieces@.map_values(|p: &str| p@);
    let mut results: Vec<(String, String)> = Vec::new();
    assert(pair_views(results@) =~= Seq::<(Seq<char>, Seq<char>)>::empty());
    let mut i: usize = 0;
    while i < pieces.len()
        invariant
            i <= pieces@.len(),
            pv == pieces@.map_values(|p: &str| p@),
            pv == split_on(tokens@, ';'),
            batch_upto(pv, i as int) == Ok::<Seq<(Seq<char>, Seq<char>)>, Seq<char>>(
                pair_views(results@),
            ),
        decreases pieces@.len() - i,
    {
        let t = trim_str(pieces[i]);
        assert(pv[i as int] == pieces@[i as int]@);
        if t.unicode_len() > 0 && !starts_with(t, "ctx=") {
            match transform_token(t) {
                Ok(p) => {
                    let ghost before = pair_views(results@);
                    results.push(p);
                    assert(pair_views(results@) =~= before.push((p.0@, p.1@)));
                },
                Err(e) => {
                    proof {
                        lemma_batch_error_stays(pv, i + 1, pv.len() as int);
                    }
                    return Err(e);
                },
            }
        }
        i += 1;
    }
    Ok(results)
}

/// Whether a key holds bracket notation to transform.
pub fn needs_transformation(key: &str) -> (r: bool)
    ensures
        r == (key@.contains('[') && key@.contains(']')),
{
    bracket::has_brackets(key)
}

/// The base name of a key: before its first `[` where it holds bracket
/// notation, the whole key otherwise.
pub fn extract_base_name(key: &str) -> (r: Result<String, MeteorError>)
    ensures
        r matches Ok(v) && v@ == (if key@.contains('[') && key@.contains(']') {
            key@.take(open_pos(key@))
        } else {
            key@
        }),
{
    bracket::extract_base_name(key)
}

} // verus!
