//! Token: a key and its value, optionally under a namespace.

use vstd::prelude::*;
use crate::key::{flat_key, TokenKey};
use crate::namespace::{dot_parts, Namespace};
use crate::split::{smart_split_semicolons, split_pieces, SplitConfig};
use crate::text::{append, count_char, find_char, first_occurrence, join, owned, trim, trim_str};

verus! {

/// What a token is: (namespace parts if any, key as written, value).
pub type TokenView = (Option<Seq<Seq<char>>>, Seq<char>, Seq<char>);

/// Individual token with key and value.
///
/// Keys support bracket notation: `list[0]=item` has key `list[0]`, flat
/// key `list__i_0` and value `item`.
#[derive(Debug, PartialEq, Eq, Hash)]
pub struct Token {
    namespace: Option<Namespace>,
    key: TokenKey,
    value: String,
}

impl View for Token {
    type V = TokenView;

    closed spec fn view(&self) -> TokenView {
        (
            match self.namespace {
                Some(n) => Some(n@),
                None => None,
            },
            self.key@,
            self.value@,
        )
    }
}

impl Clone for Token {
    fn clone(&self) -> (r: Self)
        ensures
            r@ == self@,
    {
        let namespace = match &self.namespace {
            Some(n) => Some(n.clone()),
            None => None,
        };
        Token { namespace, key: self.key.clone(), value: owned(self.value.as_str()) }
    }
}

/// The views of a list of tokens.
pub open spec fn token_views(ts: Seq<Token>) -> Seq<TokenView> {
    ts.map_values(|t: Token| t@)
}

/// What parsing one trimmed `key=value` or `namespace:key=value` piece gives.
pub open spec fn parse_single_spec(t: Seq<char>) -> Result<TokenView, Seq<char>> {
    match first_occurrence(t, seq!['=']) {
        None => Err("Invalid token format: "@ + t),
        Some(eq) => {
            let key_part = trim(t.take(eq));
            let value = t.skip(eq + 1);
            match first_occurrence(key_part, seq![':']) {
                Some(c) => {
                    let key = key_part.skip(c + 1);
                    if key.len() == 0 {
                        Err("Token key cannot be empty: "@ + t)
                    } else {
                        Ok((Some(dot_parts(key_part.take(c))), key, value))
                    }
                },
                None => if key_part.len() == 0 {
                    Err("Token key cannot be empty: "@ + t)
                } else {
                    Ok((None, key_part, value))
                },
            }
        },
    }
}

/// One piece of a token stream added to what was parsed before it: blank
/// pieces are skipped, and the first error stands.
pub open spec fn token_step(acc: Result<Seq<TokenView>, Seq<char>>, piece: Seq<char>) -> Result<
    Seq<TokenView>,
    Seq<char>,
> {
    match acc {
        Err(e) => Err(e),
        Ok(v) => {
            let t = trim(piece);
            if t.len() == 0 {
                Ok(v)
            } else {
                match parse_single_spec(t) {
                    Ok(tok) => Ok(v.push(tok)),
                    Err(e) => Err(e),
                }
            }
        },
    }
}

/// The tokens of the first `n` pieces.
pub open spec fn tokens_upto(pieces: Seq<Seq<char>>, n: int) -> Result<Seq<TokenView>, Seq<char>>
    decreases n,
{
    if n <= 0 {
        Ok(Seq::empty())
    } else {
        token_step(tokens_upto(pieces, n - 1), pieces[n - 1])
    }
}

/// What `Token::parse` gives for a semicolon-separated token string.
pub open spec fn parse_tokens_spec(s: Seq<char>) -> Result<Seq<TokenView>, Seq<char>> {
    if count_char(s, '"') % 2 != 0 {
        Err("Unbalanced quotes in token string"@)
    } else {
        let pieces = split_pieces(s, SplitConfig::semicolon_tokens_spec());
        match tokens_upto(pieces, pieces.len() as int) {
            Err(e) => Err(e),
            Ok(v) => if v.len() == 0 {
                Err("No valid tokens found"@)
            } else {
                Ok(v)
            },
        }
    }
}

/// A token as displayed: `namespace:flat_key=value` or `flat_key=value`.
pub open spec fn token_text(t: TokenView) -> Seq<char> {
    match t.0 {
        Some(ns) => join(ns, "."@) + ":"@ + flat_key(t.1) + "="@ + t.2,
        None => flat_key(t.1) + "="@ + t.2,
    }
}

impl Token {
    /// Create a token with key and value.
    pub fn new(key: &str, value: &str) -> (t: Self)
        ensures
            t@ == (None::<Seq<Seq<char>>>, key@, value@),
    {
        Token { namespace: None, key: TokenKey::new(key), value: owned(value) }
    }

    /// Create a token with namespace, key and value.
    pub fn new_with_namespace(namespace: Namespace, key: &str, value: &str) -> (t: Self)
        ensures
            t@ == (Some(namespace@), key@, value@),
    {
        Token { namespace: Some(namespace), key: TokenKey::new(key), value: owned(value) }
    }

    /// The key, with its bracket capabilities.
    pub fn key(&self) -> (r: &TokenKey)
        ensures
            r@ == self@.1,
    {
        &self.key
    }

    /// The key as it was written (bracket notation kept).
    pub fn key_notation(&self) -> (r: &str)
        ensures
            r@ == self@.1,
    {
        self.key.base()
    }

    /// The flat key, used for storage and comparison.
    pub fn key_str(&self) -> (r: &str)
        ensures
            r@ == flat_key(self@.1),
    {
        self.key.transformed()
    }

    /// The flat key (same as `key_str`).
    pub fn transformed_key(&self) -> (r: &str)
        ensures
            r@ == flat_key(self@.1),
    {
        self.key.transformed()
    }

    /// The namespace, if the token has one.
    pub fn namespace(&self) -> (r: Option<&Namespace>)
        ensures
            match r {
                Some(n) => self@.0 == Some(n@),
                None => self@.0 is None,
            },
    {
        match &self.namespace {
            Some(n) => Some(n),
            None => None,
        }
    }

    /// The value.
    pub fn value(&self) -> (r: &str)
        ensures
            r@ == self@.2,
    {
        self.value.as_str()
    }

    /// Whether the key holds bracket notation.
    pub fn has_brackets(&self) -> (r: bool)
        ensures
            r == (self@.1.contains('[') && self@.1.contains(']')),
    {
        self.key.has_brackets()
    }

    /// Parse all tokens of a semicolon-separated string such as
    /// `key1=val1; key2=val2; namespace:key3=val3`.
    pub fn parse(s: &str) -> (r: Result<Vec<Self>, String>)
        ensures
            match parse_tokens_spec(s@) {
                Ok(v) => r matches Ok(ts) && token_views(ts@) == v,
                Err(m) => r matches Err(e) && e@ == m,
            },
    {
        let parts = match smart_split_semicolons(s) {
            Some(p) => p,
            None => {
                return Err(owned("Unbalanced quotes in token string"));
            },
        };
        let ghost pieces = split_pieces(s@, SplitConfig::semicolon_tokens_spec());
        let mut tokens: Vec<Token> = Vec::new();
        let mut i: usize = 0;
        assert(token_views(tokens@) =~= Seq::<TokenView>::empty());
        while i < parts.len()
            invariant
                i <= parts@.len(),
                count_char(s@, '"') % 2 == 0,
                pieces == split_pieces(s@, SplitConfig::semicolon_tokens_spec()),
                parts@.map_values(|p: &str| p@) == pieces,
                tokens_upto(pieces, i as int) == Ok::<Seq<TokenView>, Seq<char>>(
                    token_views(tokens@),
                ),
            decreases parts@.len() - i,
        {
            let trimmed = trim_str(parts[i]);
            proof {
                assert(pieces[i as int] == parts@[i as int]@);
            }
            if trimmed.unicode_len() > 0 {
                match Self::parse_single(trimmed) {
                    Ok(t) => {
                        let ghost before = tokens@;
                        tokens.push(t);
                        assert(token_views(tokens@) =~= token_views(before).push(t@));
                    },
                    Err(e) => {
                        assert(parse_single_spec(trimmed@) == Err::<TokenView, Seq<char>>(e@));
                        assert(tokens_upto(pieces, i + 1) == token_step(tokens_upto(pieces, i as int), pieces[i as int]));
                        assert(tokens_upto(pieces, i + 1) == Err::<Seq<TokenView>, Seq<char>>(e@));
                        proof {
                            lemma_tokens_error_stays(pieces, i as int + 1, pieces.len() as int);
                        }
                        return Err(e);
                    },
                }
            }
            i += 1;
        }
        if tokens.len() == 0 {
            return Err(owned("No valid tokens found"));
        }
        Ok(tokens)
    }

    /// Parse the first token of a string.
    pub fn first(s: &str) -> (r: Result<Self, String>)
        ensures
            match parse_tokens_spec(s@) {
                Ok(v) => r matches Ok(t) && t@ == v[0],
                Err(m) => r matches Err(e) && e@ == m,
            },
    {
        let mut tokens = Self::parse(s)?;
        let t = tokens.swap_remove(0);
        Ok(t)
    }

    /// Parse one `key=value` or `namespace:key=value` piece.
    fn parse_single(s: &str) -> (r: Result<Self, String>)
        ensures
            match parse_single_spec(s@) {
                Ok(v) => r matches Ok(t) && t@ == v,
                Err(m) => r matches Err(e) && e@ == m,
            },
    {
        let n = s.unicode_len();
        let eq = match find_char(s, '=') {
            Some(e) => e,
            None => {
                let mut m = owned("Invalid token format: ");
                append(&mut m, s);
                return Err(m);
            },
        };
        let head = s.substring_char(0, eq);
        let value = s.substring_char(eq + 1, n);
        assert(head@ =~= s@.take(eq as int));
        assert(value@ =~= s@.skip(eq + 1));
        let key_part = trim_str(head);
        let m = key_part.unicode_len();
        match find_char(key_part, ':') {
            Some(c) => {
                let ns_part = key_part.substring_char(0, c);
                let key = key_part.substring_char(c + 1, m);
                assert(ns_part@ =~= key_part@.take(c as int));
                assert(key@ =~= key_part@.skip(c + 1));
                if key.unicode_len() == 0 {
                    let mut msg = owned("Token key cannot be empty: ");
                    append(&mut msg, s);
                    return Err(msg);
                }
                Ok(Token::new_with_namespace(Namespace::from_string(ns_part), key, value))
            },
            None => {
                if m == 0 {
                    let mut msg = owned("Token key cannot be empty: ");
                    append(&mut msg, s);
                    return Err(msg);
                }
                Ok(Token::new(key_part, value))
            },
        }
    }

    /// The token as displayed: `namespace:flat_key=value` or
    /// `flat_key=value`.
    pub fn to_string(&self) -> (r: String)
        ensures
            r@ == token_text(self@),
    {
        let mut out = match &self.namespace {
            Some(ns) => {
                let mut o = ns.to_string();
                append(&mut o, ":");
                o
            },
            None => String::new(),
        };
        append(&mut out, self.key.transformed());
        append(&mut out, "=");
        append(&mut out, self.value.as_str());
        out
    }

    /// Parse the first token of a string (as `first`).
    pub fn from_str(s: &str) -> (r: Result<Self, String>)
        ensures
            match parse_tokens_spec(s@) {
                Ok(v) => r matches Ok(t) && t@ == v[0],
                Err(m) => r matches Err(e) && e@ == m,
            },
    {
        Token::first(s)
    }
}

/// Once an error is met, later pieces keep it.
pub proof fn lemma_tokens_error_stays(pieces: Seq<Seq<char>>, i: int, n: int)
    requires
        1 <= i <= n,
        tokens_upto(pieces, i) is Err,
    ensures
        tokens_upto(pieces, n) == tokens_upto(pieces, i),
    decreases n - i,
{
    if i < n {
        lemma_tokens_error_stays(pieces, i, n - 1);
    }
}

} // verus!
