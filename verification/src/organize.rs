//! Organizing transformed tokens into a bucket, by namespace and context.

use vstd::prelude::*;
use crate::bucket::{set_entry, switched, BucketView, Entry, TokenBucket};
use crate::error::MeteorError;
use crate::namespace::dot_parts;
use crate::primary::{Context, Namespace};
use crate::text::{owned, str_eq};

verus! {

/// A token that may switch the context.
#[derive(Debug, Clone, PartialEq)]
pub enum ContextualToken {
    /// A context switch
    ContextSwitch(String),
    /// A data token with namespace, key and value
    Data { namespace: String, key: String, value: String },
}

/// What a contextual token says: a context to switch to, or (namespace,
/// key, value).
pub open spec fn contextual_view(t: ContextualToken) -> Result<Seq<char>, Entry> {
    match t {
        ContextualToken::ContextSwitch(c) => Ok(c@),
        ContextualToken::Data { namespace, key, value } => Err((namespace@, key@, value@)),
    }
}

/// The views of a list of contextual tokens.
pub open spec fn contextual_views(ts: Seq<ContextualToken>) -> Seq<Result<Seq<char>, Entry>> {
    ts.map_values(|t: ContextualToken| contextual_view(t))
}

/// A dotted namespace of four levels or more.
pub open spec fn too_deep(ns: Seq<char>) -> bool {
    dot_parts(ns).len() >= 4
}

/// `e` reports namespace `ns` as too deep.
pub open spec fn too_deep_error(e: MeteorError, ns: Seq<char>) -> bool {
    e matches MeteorError::NamespaceTooDeep { namespace, depth, max_depth } && namespace@ == ns
        && depth == dot_parts(ns).len() && max_depth == 3
}

/// The bucket after storing pairs in the root namespace.
pub open spec fn pairs_stored(b: BucketView, ps: Seq<(Seq<char>, Seq<char>)>) -> BucketView
    decreases ps.len(),
{
    if ps.len() == 0 {
        b
    } else {
        let b1 = pairs_stored(b, ps.drop_last());
        (b1.0, set_entry(b1.1, Seq::empty(), ps.last().0, ps.last().1), b1.2)
    }
}

/// The bucket after storing entries, or the first namespace that is too deep.
pub open spec fn entries_stored(b: BucketView, es: Seq<Entry>) -> Result<BucketView, Seq<char>>
    decreases es.len(),
{
    if es.len() == 0 {
        Ok(b)
    } else {
        match entries_stored(b, es.drop_last()) {
            Err(ns) => Err(ns),
            Ok(b1) => {
                let e = es.last();
                if too_deep(e.0) {
                    Err(e.0)
                } else {
                    Ok((b1.0, set_entry(b1.1, e.0, e.1, e.2), b1.2))
                }
            },
        }
    }
}

/// Why organizing contextual tokens stopped: an empty context name, or a
/// namespace that is too deep.
pub type OrganizeFault = Result<(), Seq<char>>;

/// The bucket after contextual tokens, or why it stopped.
pub open spec fn contextual_stored(b: BucketView, ts: Seq<Result<Seq<char>, Entry>>) -> Result<
    BucketView,
    OrganizeFault,
>
    decreases ts.len(),
{
    if ts.len() == 0 {
        Ok(b)
    } else {
        match contextual_stored(b, ts.drop_last()) {
            Err(f) => Err(f),
            Ok(b1) => match ts.last() {
                Ok(c) => if c.len() == 0 {
                    Err(Ok(()))
                } else {
                    Ok(switched(b1, c))
                },
                Err(e) => if too_deep(e.0) {
                    Err(Err(e.0))
                } else {
                    Ok((b1.0, set_entry(b1.1, e.0, e.1, e.2), b1.2))
                },
            },
        }
    }
}

/// The views of (key, value) pairs.
pub open spec fn kv_views(v: Seq<(String, String)>) -> Seq<(Seq<char>, Seq<char>)> {
    v.map_values(|p: (String, String)| (p.0@, p.1@))
}

/// The views of (namespace, key, value) triples.
pub open spec fn triple_views(v: Seq<(String, String, String)>) -> Seq<Entry> {
    v.map_values(|p: (String, String, String)| (p.0@, p.1@, p.2@))
}

/// Checks the depth of a dotted namespace.
fn check_depth(namespace: &str) -> (r: Result<(), MeteorError>)
    ensures
        too_deep(namespace@) ==> (r matches Err(e) && too_deep_error(e, namespace@)),
        !too_deep(namespace@) ==> r is Ok,
{
    let ns = Namespace::from_string(namespace);
    if ns.is_too_deep() {
        return Err(MeteorError::namespace_too_deep(namespace, ns.depth()));
    }
    Ok(())
}

/// Organize (key, value) pairs into a bucket, all in the root namespace.
pub fn organize_tokens(tokens: Vec<(String, String)>) -> (r: Result<TokenBucket, MeteorError>)
    ensures
        r matches Ok(b) && b@ == pairs_stored(TokenBucket::new_spec(), kv_views(tokens@)),
{
    let mut bucket = TokenBucket::new();
    let ghost ps = kv_views(tokens@);
    let mut i: usize = 0;
    while i < tokens.len()
        invariant
            i <= tokens@.len(),
            ps == kv_views(tokens@),
            bucket@ == pairs_stored(TokenBucket::new_spec(), ps.take(i as int)),
        decreases tokens@.len() - i,
    {
        assert(ps.take(i + 1).drop_last() =~= ps.take(i as int));
        assert(ps.take(i + 1).last() == ps[i as int]);
        proof {
            reveal_strlit("");
        }
        assert(""@ =~= Seq::<char>::empty());
        bucket.set("", tokens[i].0.as_str(), owned(tokens[i].1.as_str()));
        i += 1;
    }
    assert(ps.take(i as int) =~= ps);
    Ok(bucket)
}

/// Organize (namespace, key, value) triples into a bucket; a namespace of
/// four levels or more is refused.
pub fn organize_namespaced_tokens(tokens: Vec<(String, String, String)>) -> (r: Result<
    TokenBucket,
    MeteorError,
>)
    ensures
        match entries_stored(TokenBucket::new_spec(), triple_views(tokens@)) {
            Ok(b) => r matches Ok(x) && x@ == b,
            Err(ns) => r matches Err(e) && too_deep_error(e, ns),
        },
{
    let mut bucket = TokenBucket::new();
    let ghost es = triple_views(tokens@);
    let mut i: usize = 0;
    while i < tokens.len()
        invariant
            i <= tokens@.len(),
            es == triple_views(tokens@),
            entries_stored(TokenBucket::new_spec(), es.take(i as int)) == Ok::<BucketView, Seq<char>>(bucket@),
        decreases tokens@.len() - i,
    {
        assert(es.take(i + 1).drop_last() =~= es.take(i as int));
        assert(es.take(i + 1).last() == es[i as int]);
        let t = &tokens[i];
        match check_depth(t.0.as_str()) {
            Err(e) => {
                proof {
                    lemma_entries_error_stays(es, i + 1);
                }
                return Err(e);
            },
            Ok(()) => {},
        }
        bucket.set(t.0.as_str(), t.1.as_str(), owned(t.2.as_str()));
        i += 1;
    }
    assert(es.take(i as int) =~= es);
    Ok(bucket)
}

proof fn lemma_entries_error_stays(es: Seq<Entry>, n: int)
    requires
        0 <= n <= es.len(),
        entries_stored(TokenBucket::new_spec(), es.take(n)) is Err,
    ensures
        entries_stored(TokenBucket::new_spec(), es) == entries_stored(TokenBucket::new_spec(), es.take(n)),
    decreases es.len() - n,
{
    if n < es.len() {
        assert(es.take(n + 1).drop_last() =~= es.take(n));
        lemma_entries_error_stays(es, n + 1);
    } else {
        assert(es.take(n) =~= es);
    }
}

proof fn lemma_contextual_error_stays(ts: Seq<Result<Seq<char>, Entry>>, n: int)
    requires
        0 <= n <= ts.len(),
        contextual_stored(TokenBucket::new_spec(), ts.take(n)) is Err,
    ensures
        contextual_stored(TokenBucket::new_spec(), ts) == contextual_stored(TokenBucket::new_spec(), ts.take(n)),
    decreases ts.len() - n,
{
    if n < ts.len() {
        assert(ts.take(n + 1).drop_last() =~= ts.take(n));
        lemma_contextual_error_stays(ts, n + 1);
    } else {
        assert(ts.take(n) =~= ts);
    }
}

/// Organize tokens that may switch the context: an empty context name and
/// a namespace of four levels or more are refused.
pub fn organize_contextual_tokens(tokens: Vec<ContextualToken>) -> (r: Result<
    TokenBucket,
    MeteorError,
>)
    ensures
        match contextual_stored(TokenBucket::new_spec(), contextual_views(tokens@)) {
            Ok(b) => r matches Ok(x) && x@ == b,
            Err(Ok(())) => r matches Err(e) && e matches MeteorError::ParseError {
                position,
                message,
            } && position == 0 && message@ == "Context name cannot be empty"@,
            Err(Err(ns)) => r matches Err(e) && too_deep_error(e, ns),
        },
{
    let mut bucket = TokenBucket::new();
    let ghost ts = contextual_views(tokens@);
    let mut i: usize = 0;
    while i < tokens.len()
        invariant
            i <= tokens@.len(),
            ts == contextual_views(tokens@),
            contextual_stored(TokenBucket::new_spec(), ts.take(i as int)) == Ok::<BucketView, OrganizeFault>(bucket@),
        decreases tokens@.len() - i,
    {
        assert(ts.take(i + 1).drop_last() =~= ts.take(i as int));
        assert(ts.take(i + 1).last() == ts[i as int]);
        match &tokens[i] {
            ContextualToken::ContextSwitch(name) => {
                match Context::from_str(name.as_str()) {
                    Ok(c) => bucket.switch_context(c),
                    Err(e) => {
                        proof {
                            lemma_contextual_error_stays(ts, i + 1);
                        }
                        return Err(MeteorError::parse(0, e.as_str()));
                    },
                }
            },
            ContextualToken::Data { namespace, key, value } => {
                match check_depth(namespace.as_str()) {
                    Err(e) => {
                        proof {
                            lemma_contextual_error_stays(ts, i + 1);
                        }
                        return Err(e);
                    },
                    Ok(()) => {},
                }
                bucket.set(namespace.as_str(), key.as_str(), owned(value.as_str()));
            },
        }
        i += 1;
    }
    assert(ts.take(i as int) =~= ts);
    Ok(bucket)
}

/// A data token.
pub fn create_contextual_token(namespace: &str, key: &str, value: &str) -> (t: ContextualToken)
    ensures
        contextual_view(t) == Err::<Seq<char>, Entry>((namespace@, key@, value@)),
{
    ContextualToken::Data { namespace: owned(namespace), key: owned(key), value: owned(value) }
}

/// A context switch token.
pub fn create_context_switch(context_name: &str) -> (t: ContextualToken)
    ensures
        contextual_view(t) == Ok::<Seq<char>, Entry>(context_name@),
{
    ContextualToken::ContextSwitch(owned(context_name))
}

/// The (key, value) pairs of each namespace, namespaces in order of first
/// appearance.
pub open spec fn grouped_by_namespace(es: Seq<Entry>) -> Seq<(Seq<char>, Seq<(Seq<char>, Seq<char>)>)>
    decreases es.len(),
{
    if es.len() == 0 {
        Seq::empty()
    } else {
        let g = grouped_by_namespace(es.drop_last());
        let e = es.last();
        let i = namespace_group(g, e.0);
        if i < 0 {
            g.push((e.0, seq![(e.1, e.2)]))
        } else {
            g.update(i, (e.0, g[i].1.push((e.1, e.2))))
        }
    }
}

/// The index of the group of a namespace, or -1.
pub open spec fn namespace_group(g: Seq<(Seq<char>, Seq<(Seq<char>, Seq<char>)>)>, ns: Seq<char>) -> int
    decreases g.len(),
{
    if g.len() == 0 {
        -1
    } else if g.last().0 == ns {
        g.len() - 1
    } else {
        namespace_group(g.drop_last(), ns)
    }
}

/// The view of exec namespace groups.
pub open spec fn ns_group_views(v: Seq<(String, Vec<(String, String)>)>) -> Seq<
    (Seq<char>, Seq<(Seq<char>, Seq<char>)>),
> {
    v.map_values(|g: (String, Vec<(String, String)>)| (g.0@, kv_views(g.1@)))
}

proof fn lemma_namespace_group(g: Seq<(Seq<char>, Seq<(Seq<char>, Seq<char>)>)>, ns: Seq<char>, i: int)
    requires
        0 <= i < g.len(),
        g[i].0 == ns,
        forall|j: int| i < j < g.len() ==> g[j].0 != ns,
    ensures
        namespace_group(g, ns) == i,
    decreases g.len(),
{
    if g.last().0 != ns {
        lemma_namespace_group(g.drop_last(), ns, i);
    }
}

proof fn lemma_namespace_group_none(g: Seq<(Seq<char>, Seq<(Seq<char>, Seq<char>)>)>, ns: Seq<char>)
    requires
        forall|j: int| 0 <= j < g.len() ==> g[j].0 != ns,
    ensures
        namespace_group(g, ns) == -1,
    decreases g.len(),
{
    if g.len() > 0 {
        lemma_namespace_group_none(g.drop_last(), ns);
    }
}

/// The index of the group of a namespace.
fn find_ns_group(groups: &Vec<(String, Vec<(String, String)>)>, ns: &str) -> (r: Option<usize>)
    ensures
        match r {
            Some(i) => i < groups@.len() && namespace_group(ns_group_views(groups@), ns@) == i
                && groups@[i as int].0@ == ns@,
            None => namespace_group(ns_group_views(groups@), ns@) == -1,
        },
{
    let ghost g = ns_group_views(groups@);
    let mut k: usize = groups.len();
    while k > 0
        invariant
            k <= groups@.len(),
            g == ns_group_views(groups@),
            forall|j: int| k <= j < g.len() ==> g[j].0 != ns@,
        decreases k,
    {
        assert(g[k - 1].0 == groups@[k - 1].0@);
        if str_eq(groups[k - 1].0.as_str(), ns) {
            proof {
                lemma_namespace_group(g, ns@, k - 1);
            }
            return Some(k - 1);
        }
        k -= 1;
    }
    proof {
        lemma_namespace_group_none(g, ns@);
    }
    None
}

/// Group (namespace, key, value) triples by namespace.
pub fn group_by_namespace(tokens: Vec<(String, String, String)>) -> (r: Vec<(String, Vec<(String, String)>)>)
    ensures
        ns_group_views(r@) == grouped_by_namespace(triple_views(tokens@)),
{
    let ghost es = triple_views(tokens@);
    let mut groups: Vec<(String, Vec<(String, String)>)> = Vec::new();
    assert(ns_group_views(groups@) =~= grouped_by_namespace(es.take(0)));
    let mut i: usize = 0;
    while i < tokens.len()
        invariant
            i <= tokens@.len(),
            es == triple_views(tokens@),
            ns_group_views(groups@) == grouped_by_namespace(es.take(i as int)),
        decreases tokens@.len() - i,
    {
        assert(es.take(i + 1).drop_last() =~= es.take(i as int));
        assert(es.take(i + 1).last() == es[i as int]);
        let t = &tokens[i];
        let ghost g = ns_group_views(groups@);
        let found = find_ns_group(&groups, t.0.as_str());
        match found {
            Some(j) => {
                let mut entry = groups.remove(j);
                let ghost before = kv_views(entry.1@);
                entry.1.push((owned(t.1.as_str()), owned(t.2.as_str())));
                assert(kv_views(entry.1@) =~= before.push((t.1@, t.2@)));
                groups.insert(j, entry);
                assert(ns_group_views(groups@) =~= g.update(j as int, (t.0@, g[j as int].1.push((t.1@, t.2@)))));
            },
            None => {
                let mut pairs: Vec<(String, String)> = Vec::new();
                pairs.push((owned(t.1.as_str()), owned(t.2.as_str())));
                assert(kv_views(pairs@) =~= seq![(t.1@, t.2@)]);
                groups.push((owned(t.0.as_str()), pairs));
                assert(ns_group_views(groups@) =~= g.push((t.0@, seq![(t.1@, t.2@)])));
            },
        }
        i += 1;
    }
    assert(es.take(i as int) =~= es);
    groups
}

/// What checking contextual tokens finds first: an empty context name, an
/// empty key, or a namespace of four levels or more.
pub open spec fn organization_fault(ts: Seq<Result<Seq<char>, Entry>>) -> Option<Result<Seq<char>, Seq<char>>>
    decreases ts.len(),
{
    if ts.len() == 0 {
        None
    } else {
        match organization_fault(ts.drop_last()) {
            Some(f) => Some(f),
            None => match ts.last() {
                Ok(c) => if c.len() == 0 {
                    Some(Ok("context name"@))
                } else {
                    None
                },
                Err(e) => if e.1.len() == 0 {
                    Some(Ok("key"@))
                } else if too_deep(e.0) {
                    Some(Err(e.0))
                } else {
                    None
                },
            },
        }
    }
}

proof fn lemma_fault_stays(ts: Seq<Result<Seq<char>, Entry>>, n: int)
    requires
        0 <= n <= ts.len(),
        organization_fault(ts.take(n)) is Some,
    ensures
        organization_fault(ts) == organization_fault(ts.take(n)),
    decreases ts.len() - n,
{
    if n < ts.len() {
        assert(ts.take(n + 1).drop_last() =~= ts.take(n));
        lemma_fault_stays(ts, n + 1);
    } else {
        assert(ts.take(n) =~= ts);
    }
}

/// Check contextual tokens before they are organized.
pub fn validate_token_organization(tokens: &[ContextualToken]) -> (r: Result<(), MeteorError>)
    ensures
        match organization_fault(contextual_views(tokens@)) {
            None => r is Ok,
            Some(Ok(component)) => r matches Err(e) && e matches MeteorError::EmptyInput {
                component: c,
            } && c@ == component,
            Some(Err(ns)) => r matches Err(e) && too_deep_error(e, ns),
        },
{
    let ghost ts = contextual_views(tokens@);
    let mut i: usize = 0;
    while i < tokens.len()
        invariant
            i <= tokens@.len(),
            ts == contextual_views(tokens@),
            organization_fault(ts.take(i as int)) is None,
        decreases tokens@.len() - i,
    {
        assert(ts.take(i + 1).drop_last() =~= ts.take(i as int));
        assert(ts.take(i + 1).last() == ts[i as int]);
        match &tokens[i] {
            ContextualToken::ContextSwitch(name) => {
                if name.unicode_len() == 0 {
                    proof {
                        lemma_fault_stays(ts, i + 1);
                    }
                    return Err(MeteorError::empty("context name"));
                }
            },
            ContextualToken::Data { namespace, key, value: _ } => {
                if key.unicode_len() == 0 {
                    proof {
                        lemma_fault_stays(ts, i + 1);
                    }
                    return Err(MeteorError::empty("key"));
                }
                match check_depth(namespace.as_str()) {
                    Err(e) => {
                        proof {
                            lemma_fault_stays(ts, i + 1);
                        }
                        return Err(e);
                    },
                    Ok(()) => {},
                }
            },
        }
        i += 1;
    }
    assert(ts.take(i as int) =~= ts);
    Ok(())
}

} // verus!
