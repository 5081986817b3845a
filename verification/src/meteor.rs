//! Meteor: tokens addressed by one context and one namespace
//! (`context:namespace:key=value;key2=value2`).

use vstd::prelude::*;
use crate::context::Context;
use crate::error::MeteorError;
use crate::namespace::{dot_parts, Namespace};
use crate::split::{smart_split_semicolons, split_pieces, SplitConfig};
use crate::text::{
    append, contains_char, contains_string, count_char, count_chars, find_char, first_occurrence,
    join, owned, trim, trim_str, views,
};
use crate::token::{parse_tokens_spec, token_views, Token, TokenView};

verus! {

/// What a meteor is: (context name, namespace parts, tokens).
pub type MeteorView = (Seq<char>, Seq<Seq<char>>, Seq<TokenView>);

/// Complete meteor: a context, a namespace and the tokens under them.
///
/// Every token with an explicit namespace must have the meteor's
/// namespace; tokens without one inherit it.
#[derive(Debug, PartialEq, Eq)]
pub struct Meteor {
    context: Context,
    namespace: Namespace,
    tokens: Vec<Token>,
}

impl View for Meteor {
    type V = MeteorView;

    closed spec fn view(&self) -> MeteorView {
        (self.context@, self.namespace@, token_views(self.tokens@))
    }
}

impl Clone for Meteor {
    fn clone(&self) -> (r: Self)
        ensures
            r@ == self@,
    {
        Meteor {
            context: self.context.clone(),
            namespace: self.namespace.clone(),
            tokens: clone_tokens(&self.tokens),
        }
    }
}

/// The views of a list of meteors.
pub open spec fn meteor_views(ms: Seq<Meteor>) -> Seq<MeteorView> {
    ms.map_values(|m: Meteor| m@)
}

/// A copy of a list of tokens.
pub fn clone_tokens(v: &Vec<Token>) -> (r: Vec<Token>)
    ensures
        token_views(r@) == token_views(v@),
{
    let mut out: Vec<Token> = Vec::new();
    let mut i: usize = 0;
    while i < v.len()
        invariant
            i <= v@.len(),
            out@.len() == i,
            forall|j: int| 0 <= j < i ==> (#[trigger] out@[j])@ == v@[j]@,
        decreases v@.len() - i,
    {
        out.push(v[i].clone());
        i += 1;
    }
    assert(token_views(out@) =~= token_views(v@));
    out
}

/// The namespace a token names (none: the empty sequence).
pub open spec fn named_ns(t: TokenView) -> Seq<Seq<char>> {
    match t.0 {
        Some(n) => n,
        None => Seq::empty(),
    }
}

/// A token that names a namespace other than `ns`.
pub open spec fn mismatch(ns: Seq<Seq<char>>, t: TokenView) -> bool {
    t.0 matches Some(n) && n != ns
}

/// The index of the first mismatching token among the first `n`.
pub open spec fn first_mismatch_upto(ns: Seq<Seq<char>>, toks: Seq<TokenView>, n: int) -> Option<
    int,
>
    decreases n,
{
    if n <= 0 {
        None
    } else {
        match first_mismatch_upto(ns, toks, n - 1) {
            Some(i) => Some(i),
            None => if mismatch(ns, toks[n - 1]) {
                Some(n - 1)
            } else {
                None
            },
        }
    }
}

/// The index of the first mismatching token.
pub open spec fn first_mismatch(ns: Seq<Seq<char>>, toks: Seq<TokenView>) -> Option<int> {
    first_mismatch_upto(ns, toks, toks.len() as int)
}

/// The distinct dotted names of the mismatching namespaces among the first
/// `n` tokens, in order of first appearance.
pub open spec fn conflicts_upto(ns: Seq<Seq<char>>, toks: Seq<TokenView>, n: int) -> Seq<
    Seq<char>,
>
    decreases n,
{
    if n <= 0 {
        Seq::empty()
    } else {
        let prev = conflicts_upto(ns, toks, n - 1);
        if mismatch(ns, toks[n - 1]) {
            let s = join(named_ns(toks[n - 1]), "."@);
            if prev.contains(s) {
                prev
            } else {
                prev.push(s)
            }
        } else {
            prev
        }
    }
}

/// The distinct dotted names of the mismatching namespaces.
pub open spec fn conflicts(ns: Seq<Seq<char>>, toks: Seq<TokenView>) -> Seq<Seq<char>> {
    conflicts_upto(ns, toks, toks.len() as int)
}

/// No token names a namespace other than `ns`.
pub open spec fn tokens_fit(ns: Seq<Seq<char>>, toks: Seq<TokenView>) -> bool {
    forall|i: int| 0 <= i < toks.len() ==> !mismatch(ns, #[trigger] toks[i])
}

pub proof fn lemma_first_mismatch_upto(ns: Seq<Seq<char>>, toks: Seq<TokenView>, n: int)
    requires
        0 <= n <= toks.len(),
    ensures
        first_mismatch_upto(ns, toks, n) matches Some(i) ==> 0 <= i < n && mismatch(ns, toks[i])
            && forall|j: int| 0 <= j < i ==> !mismatch(ns, #[trigger] toks[j]),
        first_mismatch_upto(ns, toks, n) is None ==> forall|j: int|
            0 <= j < n ==> !mismatch(ns, #[trigger] toks[j]),
        (conflicts_upto(ns, toks, n).len() == 0) == (first_mismatch_upto(ns, toks, n) is None),
    decreases n,
{
    if n > 0 {
        lemma_first_mismatch_upto(ns, toks, n - 1);
    }
}

/// What the lenient check of tokens against a namespace gives.
pub open spec fn lenient_check(ns: Seq<Seq<char>>, toks: Seq<TokenView>) -> Result<(), Seq<char>> {
    match first_mismatch(ns, toks) {
        Some(i) => Err("Token namespace '"@ + join(named_ns(toks[i]), "."@)
            + "' does not match meteor namespace '"@ + join(ns, "."@) + "'"@),
        None => Ok(()),
    }
}

/// `e` is what the strict check of `toks` against `ns` reports.
pub open spec fn strict_error(e: MeteorError, ns: Seq<Seq<char>>, toks: Seq<TokenView>) -> bool {
    let c = conflicts(ns, toks);
    if c.len() == 1 {
        &&& e matches MeteorError::TokenNamespaceMismatch {
            meteor_namespace,
            token_namespace,
            token_key,
        }
        &&& meteor_namespace@ == join(ns, "."@)
        &&& first_mismatch(ns, toks) matches Some(i)
        &&& token_namespace@ == join(named_ns(toks[i]), "."@)
        &&& token_key@ == toks[i].1
    } else {
        e matches MeteorError::MixedTokenNamespaces { meteor_namespace, conflicting_namespaces }
            && meteor_namespace@ == join(ns, "."@) && views(conflicting_namespaces@) == c
    }
}

/// One piece of a meteor's token list added to what was parsed before it:
/// blank pieces are skipped; a piece contributes the first token it holds.
pub open spec fn meteor_token_step(acc: Result<Seq<TokenView>, Seq<char>>, piece: Seq<char>) -> Result<
    Seq<TokenView>,
    Seq<char>,
> {
    match acc {
        Err(e) => Err(e),
        Ok(v) => {
            let t = trim(piece);
            if t.len() == 0 {
                Ok(v)
            } else {
                match parse_tokens_spec(t) {
                    Ok(w) => Ok(v.push(w[0])),
                    Err(e) => Err(e),
                }
            }
        },
    }
}

/// The tokens of the first `n` pieces of a meteor's token list.
pub open spec fn meteor_tokens_upto(pieces: Seq<Seq<char>>, n: int) -> Result<
    Seq<TokenView>,
    Seq<char>,
>
    decreases n,
{
    if n <= 0 {
        Ok(Seq::empty())
    } else {
        meteor_token_step(meteor_tokens_upto(pieces, n - 1), pieces[n - 1])
    }
}

/// What parsing the token list of a meteor gives.
pub open spec fn meteor_tokens_spec(s: Seq<char>) -> Result<Seq<TokenView>, Seq<char>> {
    if count_char(s, '"') % 2 != 0 {
        Err("Unbalanced quotes in token string"@)
    } else {
        let pieces = split_pieces(s, SplitConfig::semicolon_tokens_spec());
        match meteor_tokens_upto(pieces, pieces.len() as int) {
            Err(e) => Err(e),
            Ok(v) => if v.len() == 0 {
                Err("No valid tokens found"@)
            } else {
                Ok(v)
            },
        }
    }
}

/// A meteor built from parts whose tokens were parsed, after the lenient
/// check.
pub open spec fn meteor_from(
    ctx: Seq<char>,
    ns: Seq<Seq<char>>,
    toks: Result<Seq<TokenView>, Seq<char>>,
) -> Result<MeteorView, Seq<char>> {
    match toks {
        Err(e) => Err(e),
        Ok(t) => match lenient_check(ns, t) {
            Err(e) => Err(e),
            Ok(_) => Ok((ctx, ns, t)),
        },
    }
}

/// The namespace of a meteor written without one.
pub open spec fn default_namespace() -> Seq<Seq<char>> {
    seq!["main"@]
}

/// What parsing one meteor gives: `key=value`, `namespace:key=value` or
/// `context:namespace:key=value`, each with `;`-separated tokens.
pub open spec fn parse_meteor_spec(s: Seq<char>) -> Result<MeteorView, Seq<char>> {
    let colons = count_char(s, ':');
    if colons == 0 {
        meteor_from("app"@, default_namespace(), meteor_tokens_spec(s))
    } else if colons == 1 {
        let c = first_occurrence(s, seq![':']).unwrap();
        let tail = s.skip(c + 1);
        if tail.contains('=') {
            meteor_from("app"@, dot_parts(s.take(c)), meteor_tokens_spec(tail))
        } else {
            Err("Invalid meteor format: "@ + s)
        }
    } else if colons == 2 {
        let c1 = first_occurrence(s, seq![':']).unwrap();
        let rest = s.skip(c1 + 1);
        let c2 = first_occurrence(rest, seq![':']).unwrap();
        let ctx = s.take(c1);
        if ctx.len() == 0 {
            Err("Context name cannot be empty"@)
        } else {
            meteor_from(ctx, dot_parts(rest.take(c2)), meteor_tokens_spec(rest.skip(c2 + 1)))
        }
    } else {
        Err("Too many colons in meteor format: "@ + s)
    }
}

/// A token as a meteor displays it: `key=value` with the key as written.
pub open spec fn meteor_token_text(t: TokenView) -> Seq<char> {
    t.1 + "="@ + t.2
}

/// The displayed tokens of a meteor, joined with `;`.
pub open spec fn tokens_text(toks: Seq<TokenView>) -> Seq<char> {
    join(toks.map_values(|t: TokenView| meteor_token_text(t)), ";"@)
}

/// A meteor as displayed: `context:namespace:key=value;key2=value2`.
pub open spec fn meteor_text(m: MeteorView) -> Seq<char> {
    m.0 + ":"@ + join(m.1, "."@) + ":"@ + tokens_text(m.2)
}

/// A meteor read from text always has at least one token, so its first
/// token can be taken from whatever `parse`, `first` and `from_str` give.
pub proof fn law_parsed_meteor_has_token(s: Seq<char>)
    ensures
        parse_meteor_spec(s) matches Ok(m) ==> m.2.len() > 0,
{
}

impl Meteor {
    /// Create a meteor with one token; the token's namespace, if it names
    /// one, must be the meteor's.
    pub fn new(context: Context, namespace: Namespace, token: Token) -> (m: Self)
        requires
            !mismatch(namespace@, token@),
        ensures
            m@.2.len() > 0,
            m@ == (context@, namespace@, seq![token@]),
    {
        let ghost c = context@;
        let ghost n = namespace@;
        let ghost t = token@;
        match Self::try_new(context, namespace, token) {
            Ok(m) => m,
            Err(_) => {
                assert(tokens_fit(n, seq![t]));
                proof {
                    lemma_first_mismatch_upto(n, seq![t], 1);
                }
                unreached()
            },
        }
    }

    /// Create a meteor with several tokens; the list must not be empty and
    /// every namespace that a token names must be the meteor's.
    pub fn new_with_tokens(context: Context, namespace: Namespace, tokens: Vec<Token>) -> (m: Self)
        requires
            tokens@.len() > 0,
            tokens_fit(namespace@, token_views(tokens@)),
        ensures
            m@.2.len() > 0,
            m@ == (context@, namespace@, token_views(tokens@)),
    {
        let ghost tv = token_views(tokens@);
        let ghost n = namespace@;
        match Self::try_new_with_tokens(context, namespace, tokens) {
            Ok(m) => m,
            Err(_) => {
                proof {
                    lemma_first_mismatch_upto(n, tv, tv.len() as int);
                }
                unreached()
            },
        }
    }

    /// Create a meteor in the default context (`app`).
    pub fn with_default_context(namespace: Namespace, token: Token) -> (m: Self)
        requires
            !mismatch(namespace@, token@),
        ensures
            m@.2.len() > 0,
            m@ == ("app"@, namespace@, seq![token@]),
    {
        Self::new(Context::default(), namespace, token)
    }

    /// Create a meteor with one token, refusing a token that names another
    /// namespace.
    pub fn try_new(context: Context, namespace: Namespace, token: Token) -> (r: Result<
        Self,
        MeteorError,
    >)
        ensures
            r matches Ok(m) ==> m@.2.len() > 0,
            !mismatch(namespace@, token@) ==> (r matches Ok(m) && m@ == (
                context@,
                namespace@,
                seq![token@],
            )),
            mismatch(namespace@, token@) ==> (r matches Err(e) && strict_error(
                e,
                namespace@,
                seq![token@],
            )),
    {
        let ghost t = token@;
        let v = vec![token];
        assert(token_views(v@) =~= seq![t]);
        proof {
            lemma_first_mismatch_upto(namespace@, seq![t], 1);
        }
        Self::try_new_with_tokens(context, namespace, v)
    }

    /// Create a meteor with several tokens: an empty list is refused, and so
    /// are tokens that name other namespaces.
    pub fn try_new_with_tokens(context: Context, namespace: Namespace, tokens: Vec<Token>) -> (r:
        Result<Self, MeteorError>)
        ensures
            r matches Ok(m) ==> m@.2.len() > 0,
            tokens@.len() == 0 ==> (r matches Err(e) && e is EmptyTokens),
            tokens@.len() > 0 && tokens_fit(namespace@, token_views(tokens@)) ==> (r matches Ok(m)
                && m@ == (context@, namespace@, token_views(tokens@))),
            tokens@.len() > 0 && !tokens_fit(namespace@, token_views(tokens@)) ==> (r matches Err(
                e,
            ) && strict_error(e, namespace@, token_views(tokens@))),
    {
        if tokens.len() == 0 {
            return Err(MeteorError::EmptyTokens);
        }
        proof {
            lemma_first_mismatch_upto(namespace@, token_views(tokens@), tokens@.len() as int);
        }
        match Self::validate_tokens_strict(&namespace, &tokens) {
            Ok(()) => Ok(Meteor { context, namespace, tokens }),
            Err(e) => Err(e),
        }
    }

    /// Create a meteor in the default context, refusing a token that names
    /// another namespace.
    pub fn try_with_default_context(namespace: Namespace, token: Token) -> (r: Result<
        Self,
        MeteorError,
    >)
        ensures
            r matches Ok(m) ==> m@.2.len() > 0,
            !mismatch(namespace@, token@) ==> (r matches Ok(m) && m@ == (
                "app"@,
                namespace@,
                seq![token@],
            )),
            mismatch(namespace@, token@) ==> (r matches Err(e) && strict_error(
                e,
                namespace@,
                seq![token@],
            )),
    {
        Self::try_new(Context::default(), namespace, token)
    }

    /// Create a meteor from parts with the lenient check.
    pub fn from_parts_legacy(context: Context, namespace: Namespace, tokens: Vec<Token>) -> (r:
        Result<Self, String>)
        ensures
            match lenient_check(namespace@, token_views(tokens@)) {
                Ok(_) => r matches Ok(m) && m@ == (context@, namespace@, token_views(tokens@)),
                Err(msg) => r matches Err(e) && e@ == msg,
            },
    {
        Self::from_parts(context, namespace, tokens)
    }

    /// Create a meteor with the lenient check; an empty list is refused.
    pub fn new_with_lenient_validation(
        context: Context,
        namespace: Namespace,
        tokens: Vec<Token>,
    ) -> (r: Result<Self, String>)
        ensures
            r matches Ok(m) ==> m@.2.len() > 0,
            tokens@.len() == 0 ==> (r matches Err(e) && e@
                == "Cannot create meteor with empty token list"@),
            tokens@.len() > 0 ==> match lenient_check(namespace@, token_views(tokens@)) {
                Ok(_) => r matches Ok(m) && m@ == (context@, namespace@, token_views(tokens@)),
                Err(msg) => r matches Err(e) && e@ == msg,
            },
    {
        if tokens.len() == 0 {
            return Err(owned("Cannot create meteor with empty token list"));
        }
        Self::from_parts(context, namespace, tokens)
    }

    /// Create a meteor without any check.
    pub fn force_create_unchecked(context: Context, namespace: Namespace, tokens: Vec<Token>) -> (m:
        Self)
        ensures
            m@ == (context@, namespace@, token_views(tokens@)),
    {
        Meteor { context, namespace, tokens }
    }

    /// The context.
    pub fn context(&self) -> (r: &Context)
        ensures
            r@ == self@.0,
    {
        &self.context
    }

    /// The namespace.
    pub fn namespace(&self) -> (r: &Namespace)
        ensures
            r@ == self@.1,
    {
        &self.namespace
    }

    /// The first token.
    pub fn token(&self) -> (r: &Token)
        requires
            self@.2.len() > 0,
        ensures
            r@ == self@.2[0],
    {
        &self.tokens[0]
    }

    /// All tokens.
    pub fn tokens(&self) -> (r: &[Token])
        ensures
            token_views(r@) == self@.2,
    {
        self.tokens.as_slice()
    }

    /// Parse a meteor from its full form; the result holds one meteor.
    pub fn parse(s: &str) -> (r: Result<Vec<Self>, String>)
        ensures
            r matches Ok(v) ==> v@.len() == 1 && v@[0]@.2.len() > 0,
            match parse_meteor_spec(s@) {
                Ok(m) => r matches Ok(v) && v@.len() == 1 && v@[0]@ == m,
                Err(msg) => r matches Err(e) && e@ == msg,
            },
    {
        let meteor = Self::parse_single(s)?;
        Ok(vec![meteor])
    }

    /// Parse the first meteor of a string.
    pub fn first(s: &str) -> (r: Result<Self, String>)
        ensures
            r matches Ok(m) ==> m@.2.len() > 0,
            match parse_meteor_spec(s@) {
                Ok(m) => r matches Ok(v) && v@ == m,
                Err(msg) => r matches Err(e) && e@ == msg,
            },
    {
        let mut meteors = Self::parse(s)?;
        Ok(meteors.swap_remove(0))
    }

    fn parse_single(s: &str) -> (r: Result<Self, String>)
        ensures
            match parse_meteor_spec(s@) {
                Ok(m) => r matches Ok(v) && v@ == m,
                Err(msg) => r matches Err(e) && e@ == msg,
            },
    {
        let colons = count_chars(s, ':');
        let n = s.unicode_len();
        if colons == 0 {
            let tokens = Self::parse_tokens(s)?;
            let mut parts: Vec<String> = Vec::new();
            parts.push(owned("main"));
            let ns = Namespace::new(parts);
            assert(views(parts@) =~= default_namespace());
            Self::from_parts(Context::default(), ns, tokens)
        } else if colons == 1 {
            proof {
                crate::text::lemma_count_char_contains(s@, ':');
            }
            let c = find_char(s, ':').unwrap();
            let head = s.substring_char(0, c);
            let tail = s.substring_char(c + 1, n);
            assert(head@ =~= s@.take(c as int));
            assert(tail@ =~= s@.skip(c + 1));
            if contains_char(tail, '=') {
                let namespace = Namespace::from_string(head);
                let tokens = Self::parse_tokens(tail)?;
                Self::from_parts(Context::default(), namespace, tokens)
            } else {
                let mut m = owned("Invalid meteor format: ");
                append(&mut m, s);
                Err(m)
            }
        } else if colons == 2 {
            proof {
                crate::text::lemma_count_char_contains(s@, ':');
            }
            let c1 = find_char(s, ':').unwrap();
            let rest = s.substring_char(c1 + 1, n);
            assert(rest@ =~= s@.skip(c1 + 1));
            let m = rest.unicode_len();
            let c2 = match find_char(rest, ':') {
                Some(c) => c,
                None => {
                    proof {
                        lemma_colon_in_rest(s@, c1 as int);
                    }
                    unreached()
                },
            };
            let ctx_str = s.substring_char(0, c1);
            let ns_str = rest.substring_char(0, c2);
            let tok_str = rest.substring_char(c2 + 1, m);
            assert(ctx_str@ =~= s@.take(c1 as int));
            assert(ns_str@ =~= rest@.take(c2 as int));
            assert(tok_str@ =~= rest@.skip(c2 + 1));
            let context = Context::from_str(ctx_str)?;
            let namespace = Namespace::from_string(ns_str);
            let tokens = Self::parse_tokens(tok_str)?;
            Self::from_parts(context, namespace, tokens)
        } else {
            let mut m = owned("Too many colons in meteor format: ");
            append(&mut m, s);
            Err(m)
        }
    }

    fn parse_tokens(tokens_str: &str) -> (r: Result<Vec<Token>, String>)
        ensures
            match meteor_tokens_spec(tokens_str@) {
                Ok(v) => r matches Ok(ts) && token_views(ts@) == v,
                Err(m) => r matches Err(e) && e@ == m,
            },
    {
        let parts = match smart_split_semicolons(tokens_str) {
            Some(p) => p,
            None => {
                return Err(owned("Unbalanced quotes in token string"));
            },
        };
        let ghost pieces = split_pieces(tokens_str@, SplitConfig::semicolon_tokens_spec());
        let mut tokens: Vec<Token> = Vec::new();
        let mut i: usize = 0;
        assert(token_views(tokens@) =~= Seq::<TokenView>::empty());
        while i < parts.len()
            invariant
                i <= parts@.len(),
                count_char(tokens_str@, '"') % 2 == 0,
                pieces == split_pieces(tokens_str@, SplitConfig::semicolon_tokens_spec()),
                parts@.map_values(|p: &str| p@) == pieces,
                meteor_tokens_upto(pieces, i as int) == Ok::<Seq<TokenView>, Seq<char>>(
                    token_views(tokens@),
                ),
            decreases parts@.len() - i,
        {
            let trimmed = trim_str(parts[i]);
            assert(pieces[i as int] == parts@[i as int]@);
            if trimmed.unicode_len() > 0 {
                match Token::first(trimmed) {
                    Ok(t) => {
                        let ghost before = tokens@;
                        tokens.push(t);
                        assert(token_views(tokens@) =~= token_views(before).push(t@));
                    },
                    Err(e) => {
                        assert(meteor_tokens_upto(pieces, i + 1) == Err::<Seq<TokenView>, Seq<char>>(
                            e@,
                        ));
                        proof {
                            lemma_meteor_tokens_error_stays(
                                pieces,
                                i as int + 1,
                                pieces.len() as int,
                            );
                        }
                        return Err(e);
                    },
                }
            }
            i += 1;
        }
        if tokens.len() == 0 {
            return Err(owned("No valid tokens found"));
        }
        Ok(tokens)
    }

    fn from_parts(context: Context, namespace: Namespace, tokens: Vec<Token>) -> (r: Result<
        Self,
        String,
    >)
        ensures
            match lenient_check(namespace@, token_views(tokens@)) {
                Ok(_) => r matches Ok(m) && m@ == (context@, namespace@, token_views(tokens@)),
                Err(msg) => r matches Err(e) && e@ == msg,
            },
    {
        Self::validate_tokens(&namespace, &tokens)?;
        Ok(Meteor { context, namespace, tokens })
    }

    fn validate_tokens(namespace: &Namespace, tokens: &Vec<Token>) -> (r: Result<(), String>)
        ensures
            match lenient_check(namespace@, token_views(tokens@)) {
                Ok(_) => r is Ok,
                Err(msg) => r matches Err(e) && e@ == msg,
            },
    {
        let ghost tv = token_views(tokens@);
        let mut i: usize = 0;
        while i < tokens.len()
            invariant
                i <= tokens@.len(),
                tv == token_views(tokens@),
                first_mismatch_upto(namespace@, tv, i as int) is None,
            decreases tokens@.len() - i,
        {
            match tokens[i].namespace() {
                Some(tn) => {
                    if !tn.same_as(namespace) {
                        proof {
                            lemma_first_mismatch_stays(namespace@, tv, i as int + 1, tv.len() as int);
                        }
                        let mut m = owned("Token namespace '");
                        append(&mut m, tn.to_string().as_str());
                        append(&mut m, "' does not match meteor namespace '");
                        append(&mut m, namespace.to_string().as_str());
                        append(&mut m, "'");
                        return Err(m);
                    }
                },
                None => {},
            }
            i += 1;
        }
        Ok(())
    }

    fn validate_tokens_strict(namespace: &Namespace, tokens: &Vec<Token>) -> (r: Result<
        (),
        MeteorError,
    >)
        ensures
            first_mismatch(namespace@, token_views(tokens@)) is None ==> r is Ok,
            first_mismatch(namespace@, token_views(tokens@)) is Some ==> (r matches Err(e)
                && strict_error(e, namespace@, token_views(tokens@))),
    {
        let ghost tv = token_views(tokens@);
        let ghost ns = namespace@;
        let mut conflicting: Vec<String> = Vec::new();
        let mut first: Option<(String, String)> = None;
        let mut i: usize = 0;
        while i < tokens.len()
            invariant
                i <= tokens@.len(),
                tv == token_views(tokens@),
                ns == namespace@,
                views(conflicting@) == conflicts_upto(ns, tv, i as int),
                match first_mismatch_upto(ns, tv, i as int) {
                    None => first is None,
                    Some(k) => first matches Some((a, b)) && a@ == join(named_ns(tv[k]), "."@)
                        && b@ == tv[k].1,
                },
            decreases tokens@.len() - i,
        {
            match tokens[i].namespace() {
                Some(tn) => {
                    if !tn.same_as(namespace) {
                        let s = tn.to_string();
                        if !contains_string(&conflicting, s.as_str()) {
                            let ghost before = conflicting@;
                            conflicting.push(s);
                            assert(views(conflicting@) =~= views(before).push(
                                join(named_ns(tv[i as int]), "."@),
                            ));
                        }
                        if first.is_none() {
                            first = Some((tn.to_string(), owned(tokens[i].key_notation())));
                        }
                    }
                },
                None => {},
            }
            i += 1;
        }
        if conflicting.len() == 0 {
            proof {
                lemma_first_mismatch_upto(ns, tv, tv.len() as int);
            }
            return Ok(());
        }
        proof {
            lemma_first_mismatch_upto(ns, tv, tv.len() as int);
        }
        let ns_text = namespace.to_string();
        if conflicting.len() == 1 {
            let (token_namespace, token_key) = first.unwrap();
            return Err(
                MeteorError::token_namespace_mismatch(
                    ns_text.as_str(),
                    token_namespace.as_str(),
                    token_key.as_str(),
                ),
            );
        }
        Err(MeteorError::mixed_token_namespaces(ns_text.as_str(), conflicting))
    }

    /// The meteor as displayed: `context:namespace:key=value;key2=value2`.
    pub fn to_string(&self) -> (r: String)
        ensures
            r@ == meteor_text(self@),
    {
        let mut out = self.context.to_string();
        append(&mut out, ":");
        append(&mut out, self.namespace.to_string().as_str());
        append(&mut out, ":");
        let ghost tv = token_views(self.tokens@);
        let ghost texts = tv.map_values(|t: TokenView| meteor_token_text(t));
        let ghost start = out@;
        let mut i: usize = 0;
        while i < self.tokens.len()
            invariant
                i <= self.tokens@.len(),
                tv == token_views(self.tokens@),
                texts == tv.map_values(|t: TokenView| meteor_token_text(t)),
                out@ == start + join(texts.take(i as int), ";"@),
            decreases self.tokens@.len() - i,
        {
            assert(texts.take(i + 1).drop_last() =~= texts.take(i as int));
            if i > 0 {
                append(&mut out, ";");
            }
            append(&mut out, self.tokens[i].key_notation());
            append(&mut out, "=");
            append(&mut out, self.tokens[i].value());
            proof {
                if i == 0 {
                    assert(join(texts.take(1), ";"@) == texts.take(1)[0]);
                }
            }
            i += 1;
        }
        assert(texts.take(i as int) =~= texts);
        out
    }

    /// Parse the first meteor of a string (as `first`).
    pub fn from_str(s: &str) -> (r: Result<Self, String>)
        ensures
            r matches Ok(m) ==> m@.2.len() > 0,
            match parse_meteor_spec(s@) {
                Ok(m) => r matches Ok(v) && v@ == m,
                Err(msg) => r matches Err(e) && e@ == msg,
            },
    {
        Self::first(s)
    }
}

/// With exactly two colons, one follows the first.
pub proof fn lemma_colon_in_rest(s: Seq<char>, c1: int)
    requires
        count_char(s, ':') == 2,
        first_occurrence(s, seq![':']) == Some(c1),
    ensures
        s.skip(c1 + 1).contains(':'),
{
    crate::text::lemma_first_occurrence_from(s, seq![':'], 0);
    assert(s.subrange(c1, c1 + 1)[0] == s[c1]);
    assert(s[c1] == ':');
    assert forall|j: int| 0 <= j < c1 implies s.take(c1)[j] != ':' by {
        if s[j] == ':' {
            assert(s.subrange(j, j + 1) =~= seq![':']);
            assert(crate::text::occurs_at(s, seq![':'], j));
        }
    }
    crate::text::lemma_count_char_absent(s.take(c1), ':');
    assert(s =~= s.take(c1) + seq![s[c1]] + s.skip(c1 + 1));
    crate::text::lemma_count_char_concat(s.take(c1) + seq![s[c1]], s.skip(c1 + 1), ':');
    crate::text::lemma_count_char_concat(s.take(c1), seq![s[c1]], ':');
    assert(count_char(seq![s[c1]], ':') == 1) by {
        assert(seq![s[c1]].drop_last() =~= Seq::<char>::empty());
        assert(seq![s[c1]].last() == ':');
        assert(count_char(Seq::<char>::empty(), ':') == 0);
    }
    if !s.skip(c1 + 1).contains(':') {
        crate::text::lemma_count_char_absent(s.skip(c1 + 1), ':');
    }
}

/// Once an error is met, later pieces keep it.
pub proof fn lemma_meteor_tokens_error_stays(pieces: Seq<Seq<char>>, i: int, n: int)
    requires
        1 <= i <= n,
        meteor_tokens_upto(pieces, i) is Err,
    ensures
        meteor_tokens_upto(pieces, n) == meteor_tokens_upto(pieces, i),
    decreases n - i,
{
    if i < n {
        lemma_meteor_tokens_error_stays(pieces, i, n - 1);
    }
}

/// Once a mismatch is found, it stays the first.
pub proof fn lemma_first_mismatch_stays(ns: Seq<Seq<char>>, toks: Seq<TokenView>, i: int, n: int)
    requires
        0 <= i <= n,
        first_mismatch_upto(ns, toks, i) is Some,
    ensures
        first_mismatch_upto(ns, toks, n) == first_mismatch_upto(ns, toks, i),
    decreases n - i,
{
    if i < n {
        lemma_first_mismatch_stays(ns, toks, i, n - 1);
    }
}

} // verus!
