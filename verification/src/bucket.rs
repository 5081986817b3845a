//! TokenBucket: token data of the current context by namespace and key,
//! with the data of other contexts put aside until they are switched back to.

use vstd::prelude::*;
use crate::key::flat_key;
use crate::namespace::dot_parts;
use crate::primary::{Context, Namespace};
use crate::text::{contains_string, distinct, distinct_upto, join, owned, str_eq, views};
use crate::token::{token_views, Token, TokenView};

verus! {

/// A stored token: (namespace, key, value).
pub type Entry = (Seq<char>, Seq<char>, Seq<char>);

/// What a bucket holds: (current context, its entries, the entries put
/// aside for other contexts).
pub type BucketView = (Seq<char>, Seq<Entry>, Seq<(Seq<char>, Seq<Entry>)>);

/// The index of the entry for (namespace, key), or -1.
pub open spec fn entry_index(es: Seq<Entry>, ns: Seq<char>, k: Seq<char>) -> int
    decreases es.len(),
{
    if es.len() == 0 {
        -1
    } else if es.last().0 == ns && es.last().1 == k {
        es.len() - 1
    } else {
        entry_index(es.drop_last(), ns, k)
    }
}

/// The entries after storing `v` at (namespace, key): the entry is replaced
/// where there is one, else added last.
pub open spec fn set_entry(es: Seq<Entry>, ns: Seq<char>, k: Seq<char>, v: Seq<char>) -> Seq<Entry> {
    let i = entry_index(es, ns, k);
    if i < 0 {
        es.push((ns, k, v))
    } else {
        es.update(i, (ns, k, v))
    }
}

/// The value stored at (namespace, key).
pub open spec fn lookup(es: Seq<Entry>, ns: Seq<char>, k: Seq<char>) -> Option<Seq<char>> {
    let i = entry_index(es, ns, k);
    if i < 0 {
        None
    } else {
        Some(es[i].2)
    }
}

/// The keys of a namespace, in the order of their entries.
pub open spec fn keys_in(es: Seq<Entry>, ns: Seq<char>) -> Seq<Seq<char>>
    decreases es.len(),
{
    if es.len() == 0 {
        Seq::empty()
    } else {
        let r = keys_in(es.drop_last(), ns);
        if es.last().0 == ns {
            r.push(es.last().1)
        } else {
            r
        }
    }
}

/// The namespace of each entry.
pub open spec fn entry_namespaces(es: Seq<Entry>) -> Seq<Seq<char>> {
    es.map_values(|e: Entry| e.0)
}

/// The index of the entries put aside for a context, or -1.
pub open spec fn stash_index(st: Seq<(Seq<char>, Seq<Entry>)>, name: Seq<char>) -> int
    decreases st.len(),
{
    if st.len() == 0 {
        -1
    } else if st.last().0 == name {
        st.len() - 1
    } else {
        stash_index(st.drop_last(), name)
    }
}

/// The bucket after switching to context `c`: the current entries, where
/// there are any, are put aside under the current context (replacing what
/// was there), and those put aside for `c` become current.
pub open spec fn switched(b: BucketView, c: Seq<char>) -> BucketView {
    let st1 = if b.1.len() > 0 {
        let i = stash_index(b.2, b.0);
        if i < 0 {
            b.2.push((b.0, b.1))
        } else {
            b.2.update(i, (b.0, b.1))
        }
    } else {
        b.2
    };
    let j = stash_index(st1, c);
    if j < 0 {
        (c, Seq::empty(), st1)
    } else {
        (c, st1[j].1, st1.remove(j))
    }
}

/// The view of exec entries.
pub open spec fn entries_view(v: Seq<(String, String, String)>) -> Seq<Entry> {
    v.map_values(|e: (String, String, String)| (e.0@, e.1@, e.2@))
}

/// The view of exec entries put aside.
pub open spec fn stash_view(v: Seq<(String, Vec<(String, String, String)>)>) -> Seq<
    (Seq<char>, Seq<Entry>),
> {
    v.map_values(|s: (String, Vec<(String, String, String)>)| (s.0@, entries_view(s.1@)))
}

/// Container for parsed token data with context isolation.
#[derive(Debug)]
pub struct TokenBucket {
    context: Context,
    data: Vec<(String, String, String)>,
    contexts: Vec<(String, Vec<(String, String, String)>)>,
}

impl View for TokenBucket {
    type V = BucketView;

    closed spec fn view(&self) -> BucketView {
        (self.context@, entries_view(self.data@), stash_view(self.contexts@))
    }
}

proof fn lemma_entry_index(es: Seq<Entry>, ns: Seq<char>, k: Seq<char>, i: int)
    requires
        0 <= i < es.len(),
        es[i].0 == ns && es[i].1 == k,
        forall|j: int| i < j < es.len() ==> !(es[j].0 == ns && es[j].1 == k),
    ensures
        entry_index(es, ns, k) == i,
    decreases es.len(),
{
    if !(es.last().0 == ns && es.last().1 == k) {
        lemma_entry_index(es.drop_last(), ns, k, i);
    }
}

proof fn lemma_entry_index_none(es: Seq<Entry>, ns: Seq<char>, k: Seq<char>)
    requires
        forall|j: int| 0 <= j < es.len() ==> !(es[j].0 == ns && es[j].1 == k),
    ensures
        entry_index(es, ns, k) == -1,
    decreases es.len(),
{
    if es.len() > 0 {
        lemma_entry_index_none(es.drop_last(), ns, k);
    }
}

proof fn lemma_stash_index(st: Seq<(Seq<char>, Seq<Entry>)>, name: Seq<char>, i: int)
    requires
        0 <= i < st.len(),
        st[i].0 == name,
        forall|j: int| i < j < st.len() ==> st[j].0 != name,
    ensures
        stash_index(st, name) == i,
    decreases st.len(),
{
    if st.last().0 != name {
        lemma_stash_index(st.drop_last(), name, i);
    }
}

proof fn lemma_stash_index_none(st: Seq<(Seq<char>, Seq<Entry>)>, name: Seq<char>)
    requires
        forall|j: int| 0 <= j < st.len() ==> st[j].0 != name,
    ensures
        stash_index(st, name) == -1,
    decreases st.len(),
{
    if st.len() > 0 {
        lemma_stash_index_none(st.drop_last(), name);
    }
}

/// The index of the entry for (namespace, key).
fn find_entry(data: &Vec<(String, String, String)>, ns: &str, key: &str) -> (r: Option<usize>)
    ensures
        match r {
            Some(i) => i < data@.len() && entry_index(entries_view(data@), ns@, key@) == i,
            None => entry_index(entries_view(data@), ns@, key@) == -1,
        },
{
    let ghost es = entries_view(data@);
    let mut i: usize = data.len();
    while i > 0
        invariant
            i <= data@.len(),
            es == entries_view(data@),
            forall|j: int| i <= j < es.len() ==> !(es[j].0 == ns@ && es[j].1 == key@),
        decreases i,
    {
        let k = i - 1;
        assert(es[k as int] == (data@[k as int].0@, data@[k as int].1@, data@[k as int].2@));
        if str_eq(data[k].0.as_str(), ns) && str_eq(data[k].1.as_str(), key) {
            proof {
                lemma_entry_index(es, ns@, key@, k as int);
            }
            return Some(k);
        }
        i = k;
    }
    proof {
        lemma_entry_index_none(es, ns@, key@);
    }
    None
}

/// The index of the entries put aside for a context.
fn find_stash(contexts: &Vec<(String, Vec<(String, String, String)>)>, name: &str) -> (r: Option<
    usize,
>)
    ensures
        match r {
            Some(i) => i < contexts@.len() && stash_index(stash_view(contexts@), name@) == i,
            None => stash_index(stash_view(contexts@), name@) == -1,
        },
{
    let ghost st = stash_view(contexts@);
    let mut i: usize = contexts.len();
    while i > 0
        invariant
            i <= contexts@.len(),
            st == stash_view(contexts@),
            forall|j: int| i <= j < st.len() ==> st[j].0 != name@,
        decreases i,
    {
        let k = i - 1;
        assert(st[k as int].0 == contexts@[k as int].0@);
        if str_eq(contexts[k].0.as_str(), name) {
            proof {
                lemma_stash_index(st, name@, k as int);
            }
            return Some(k);
        }
        i = k;
    }
    proof {
        lemma_stash_index_none(st, name@);
    }
    None
}

impl TokenBucket {
    /// An empty bucket in the `app` context, as a view.
    pub open spec fn new_spec() -> BucketView {
        ("app"@, Seq::<Entry>::empty(), Seq::<(Seq<char>, Seq<Entry>)>::empty())
    }

    /// An empty bucket in the `app` context.
    pub fn new() -> (b: Self)
        ensures
            b@ == ("app"@, Seq::<Entry>::empty(), Seq::<(Seq<char>, Seq<Entry>)>::empty()),
            stash_ok(b@),
    {
        let b = TokenBucket { context: Context::default(), data: Vec::new(), contexts: Vec::new() };
        assert(entries_view(b.data@) =~= Seq::<Entry>::empty());
        assert(stash_view(b.contexts@) =~= Seq::<(Seq<char>, Seq<Entry>)>::empty());
        b
    }

    /// An empty bucket in the given context.
    pub fn with_context(context: Context) -> (b: Self)
        ensures
            b@ == (context@, Seq::<Entry>::empty(), Seq::<(Seq<char>, Seq<Entry>)>::empty()),
            stash_ok(b@),
    {
        let b = TokenBucket { context, data: Vec::new(), contexts: Vec::new() };
        assert(entries_view(b.data@) =~= Seq::<Entry>::empty());
        assert(stash_view(b.contexts@) =~= Seq::<(Seq<char>, Seq<Entry>)>::empty());
        b
    }

    /// Store a value at (namespace, key) in the current context.
    pub fn set(&mut self, namespace: &str, key: &str, value: String)
        ensures
            final(self)@ == (
                old(self)@.0,
                set_entry(old(self)@.1, namespace@, key@, value@),
                old(self)@.2,
            ),
            stash_ok(old(self)@) ==> stash_ok(final(self)@),
    {
        let ghost es = entries_view(self.data@);
        match find_entry(&self.data, namespace, key) {
            Some(i) => {
                self.data.set(i, (owned(namespace), owned(key), value));
                assert(entries_view(self.data@) =~= es.update(i as int, (namespace@, key@, value@)));
            },
            None => {
                self.data.push((owned(namespace), owned(key), value));
                assert(entries_view(self.data@) =~= es.push((namespace@, key@, value@)));
            },
        }
    }

    /// The value at (namespace, key) in the current context.
    pub fn get(&self, namespace: &str, key: &str) -> (r: Option<&str>)
        ensures
            match lookup(self@.1, namespace@, key@) {
                Some(v) => r matches Some(s) && s@ == v,
                None => r is None,
            },
    {
        match find_entry(&self.data, namespace, key) {
            Some(i) => {
                assert(entries_view(self.data@)[i as int].2 == self.data@[i as int].2@);
                Some(self.data[i].2.as_str())
            },
            None => None,
        }
    }

    /// The keys of a namespace in the current context.
    pub fn keys_in_namespace(&self, namespace: &str) -> (r: Vec<String>)
        ensures
            views(r@) == keys_in(self@.1, namespace@),
    {
        let ghost es = entries_view(self.data@);
        let mut out: Vec<String> = Vec::new();
        let mut i: usize = 0;
        while i < self.data.len()
            invariant
                i <= self.data@.len(),
                es == entries_view(self.data@),
                views(out@) == keys_in(es.take(i as int), namespace@),
            decreases self.data@.len() - i,
        {
            assert(es.take(i + 1).drop_last() =~= es.take(i as int));
            assert(es.take(i + 1).last() == es[i as int]);
            let ghost e = self.data@[i as int];
            assert(es[i as int] == (e.0@, e.1@, e.2@));
            if str_eq(self.data[i].0.as_str(), namespace) {
                let ghost before = views(out@);
                out.push(owned(self.data[i].1.as_str()));
                assert(views(out@) =~= before.push(es[i as int].1));
            }
            i += 1;
        }
        assert(es.take(i as int) =~= es);
        out
    }

    /// The namespaces of the current context, in order of first entry.
    pub fn namespaces(&self) -> (r: Vec<String>)
        ensures
            views(r@) == distinct(entry_namespaces(self@.1)),
    {
        let ghost ns = entry_namespaces(entries_view(self.data@));
        let mut out: Vec<String> = Vec::new();
        let mut i: usize = 0;
        while i < self.data.len()
            invariant
                i <= self.data@.len(),
                ns == entry_namespaces(entries_view(self.data@)),
                ns.len() == self.data@.len(),
                views(out@) == distinct_upto(ns, i as int),
            decreases self.data@.len() - i,
        {
            assert(ns[i as int] == self.data@[i as int].0@);
            if !contains_string(&out, self.data[i].0.as_str()) {
                let ghost before = views(out@);
                out.push(owned(self.data[i].0.as_str()));
                assert(views(out@) =~= before.push(ns[i as int]));
            }
            i += 1;
        }
        out
    }

    /// The current context.
    pub fn context(&self) -> (r: &Context)
        ensures
            r@ == self@.0,
    {
        &self.context
    }

    /// Switch to another context, putting the current entries aside.
    pub fn switch_context(&mut self, context: Context)
        ensures
            final(self)@ == switched(old(self)@, context@),
            stash_ok(old(self)@) ==> stash_ok(final(self)@),
    {
        let ghost b = self@;
        if self.data.len() > 0 {
            let mut data: Vec<(String, String, String)> = Vec::new();
            std::mem::swap(&mut data, &mut self.data);
            let name = owned(self.context.name());
            let ghost st = stash_view(self.contexts@);
            match find_stash(&self.contexts, name.as_str()) {
                Some(i) => {
                    self.contexts.set(i, (name, data));
                    assert(stash_view(self.contexts@) =~= st.update(i as int, (b.0, b.1)));
                },
                None => {
                    self.contexts.push((name, data));
                    assert(stash_view(self.contexts@) =~= st.push((b.0, b.1)));
                },
            }
        }
        let ghost st1 = stash_view(self.contexts@);
        match find_stash(&self.contexts, context.name()) {
            Some(j) => {
                let (_, d) = self.contexts.remove(j);
                assert(stash_view(self.contexts@) =~= st1.remove(j as int));
                self.data = d;
            },
            None => {
                self.data = Vec::new();
                assert(entries_view(self.data@) =~= Seq::<Entry>::empty());
            },
        }
        self.context = context;
        proof {
            if stash_ok(b) {
                law_switch_keeps_stash_ok(b, context@);
            }
        }
    }

    /// Whether nothing is stored in any context.
    pub fn is_empty(&self) -> (r: bool)
        ensures
            r == (self@.1.len() == 0 && self@.2.len() == 0),
    {
        self.data.len() == 0 && self.contexts.len() == 0
    }

    /// The number of tokens in the current context.
    pub fn len(&self) -> (r: usize)
        ensures
            r == self@.1.len(),
    {
        self.data.len()
    }

    /// The tokens of the current context: (namespace, key, value).
    pub fn iter(&self) -> (r: Vec<(String, String, String)>)
        ensures
            entries_view(r@) == self@.1,
    {
        let mut out: Vec<(String, String, String)> = Vec::new();
        let mut i: usize = 0;
        while i < self.data.len()
            invariant
                i <= self.data@.len(),
                entries_view(out@) == entries_view(self.data@).take(i as int),
            decreases self.data@.len() - i,
        {
            let e = &self.data[i];
            let ghost before = entries_view(out@);
            out.push((owned(e.0.as_str()), owned(e.1.as_str()), owned(e.2.as_str())));
            assert(entries_view(out@) =~= before.push(entries_view(self.data@)[i as int]));
            assert(entries_view(self.data@).take(i + 1) =~= entries_view(self.data@).take(
                i as int,
            ).push(entries_view(self.data@)[i as int]));
            i += 1;
        }
        assert(entries_view(self.data@).take(i as int) =~= entries_view(self.data@));
        out
    }

    /// A bucket of tokens: `ns=` switches the namespace of the tokens after
    /// it (from `main`), `ctx=` switches the context, and the others are
    /// stored under their flat key.
    pub fn from_tokens(tokens: &[Token]) -> (b: Self)
        ensures
            b@ == collected(token_views(tokens@)).0,
            stash_ok(b@),
    {
        proof {
            reveal_strlit("ns");
            reveal_strlit("ctx");
        }
        let mut bucket = TokenBucket::new();
        let mut active = owned("main");
        let ghost ts = token_views(tokens@);
        let mut i: usize = 0;
        while i < tokens.len()
            invariant
                i <= tokens@.len(),
                ts == token_views(tokens@),
                collected(ts.take(i as int)) == (bucket@, active@),
                stash_ok(bucket@),
            decreases tokens@.len() - i,
        {
            let t = &tokens[i];
            assert(ts.take(i + 1).drop_last() =~= ts.take(i as int));
            assert(ts.take(i + 1).last() == t@);
            let k = t.key_str();
            if str_eq(k, "ns") {
                active = Namespace::from_string(t.value()).to_string();
            } else if str_eq(k, "ctx") {
                let context = match Context::from_str(t.value()) {
                    Ok(c) => c,
                    Err(_) => Context::default(),
                };
                bucket.switch_context(context);
            } else {
                bucket.set(active.as_str(), k, owned(t.value()));
            }
            i += 1;
        }
        assert(ts.take(i as int) =~= ts);
        bucket
    }
}

/// The bucket and active namespace after a list of tokens.
pub open spec fn collected(ts: Seq<TokenView>) -> (BucketView, Seq<char>)
    decreases ts.len(),
{
    if ts.len() == 0 {
        (("app"@, Seq::empty(), Seq::empty()), "main"@)
    } else {
        let (b, ns) = collected(ts.drop_last());
        let t = ts.last();
        let k = flat_key(t.1);
        if k == "ns"@ {
            (b, join(dot_parts(t.2), "."@))
        } else if k == "ctx"@ {
            (switched(b, if t.2.len() == 0 { "app"@ } else { t.2 }), ns)
        } else {
            ((b.0, set_entry(b.1, ns, k, t.2), b.2), ns)
        }
    }
}

impl Default for TokenBucket {
    fn default() -> (b: Self)
        ensures
            b@ == ("app"@, Seq::<Entry>::empty(), Seq::<(Seq<char>, Seq<Entry>)>::empty()),
            stash_ok(b@),
    {
        TokenBucket::new()
    }
}

proof fn lemma_stash_index_range(st: Seq<(Seq<char>, Seq<Entry>)>, name: Seq<char>)
    ensures
        -1 <= stash_index(st, name) < st.len(),
        stash_index(st, name) >= 0 ==> st[stash_index(st, name)].0 == name,
        stash_index(st, name) == -1 ==> forall|j: int| 0 <= j < st.len() ==> st[j].0 != name,
    decreases st.len(),
{
    if st.len() > 0 && st.last().0 != name {
        lemma_stash_index_range(st.drop_last(), name);
        if stash_index(st, name) == -1 {
            assert forall|j: int| 0 <= j < st.len() implies st[j].0 != name by {
                if j < st.len() - 1 {
                    assert(st[j] == st.drop_last()[j]);
                }
            }
        }
    }
}

/// Nothing is put aside for the current context, and each context has at
/// most one set of entries put aside.
pub open spec fn stash_ok(b: BucketView) -> bool {
    &&& stash_index(b.2, b.0) == -1
    &&& forall|i: int, j: int| 0 <= i < j < b.2.len() ==> (#[trigger] b.2[i]).0 != (#[trigger] b.2[j]).0
}

/// Switching context keeps what is put aside in order: nothing for the new
/// current context, and at most one set of entries per context.
pub proof fn law_switch_keeps_stash_ok(b: BucketView, c: Seq<char>)
    requires
        stash_ok(b),
    ensures
        stash_ok(switched(b, c)),
{
    lemma_stash_index_range(b.2, b.0);
    let st1 = if b.1.len() > 0 {
        b.2.push((b.0, b.1))
    } else {
        b.2
    };
    assert(forall|i: int, j: int| 0 <= i < j < st1.len() ==> (#[trigger] st1[i]).0 != (#[trigger] st1[j]).0) by {
        assert forall|i: int, j: int| 0 <= i < j < st1.len() implies (#[trigger] st1[i]).0 != (#[trigger] st1[j]).0 by {
            if j < b.2.len() {
                assert(st1[i] == b.2[i] && st1[j] == b.2[j]);
            } else {
                assert(st1[i] == b.2[i]);
            }
        }
    }
    let j = stash_index(st1, c);
    lemma_stash_index_range(st1, c);
    let r = switched(b, c);
    if j >= 0 {
        let st2 = st1.remove(j);
        assert(r.2 == st2);
        assert forall|k: int| 0 <= k < st2.len() implies st2[k].0 != c by {
            if k < j {
                assert(st2[k] == st1[k]);
            } else {
                assert(st2[k] == st1[k + 1]);
            }
        }
        lemma_stash_index_none(st2, c);
        assert forall|a: int, e: int| 0 <= a < e < st2.len() implies (#[trigger] st2[a]).0 != (#[trigger] st2[e]).0 by {
            let a1 = if a < j { a } else { a + 1 };
            let e1 = if e < j { e } else { e + 1 };
            assert(st2[a] == st1[a1] && st2[e] == st1[e1]);
        }
    }
}

/// Switching to another context, changing that context's entries in any
/// way, and switching back gives back the first context's entries, where
/// nothing was put aside for it before.
pub proof fn law_switch_back_after_sets(b: BucketView, other: Seq<char>, d: Seq<Entry>)
    requires
        other != b.0,
        stash_index(b.2, b.0) == -1,
    ensures
        switched((other, d, switched(b, other).2), b.0).0 == b.0,
        switched((other, d, switched(b, other).2), b.0).1 == b.1,
{
    lemma_stash_index_range(b.2, b.0);
    let st1 = if b.1.len() > 0 {
        b.2.push((b.0, b.1))
    } else {
        b.2
    };
    let j = stash_index(st1, other);
    lemma_stash_index_range(st1, other);
    let b2 = switched(b, other);
    let st2 = b2.2;
    assert(b2 == (other, if j < 0 { Seq::<Entry>::empty() } else { st1[j].1 }, if j < 0 { st1 } else { st1.remove(j) }));
    let st3 = if d.len() > 0 {
        let i = stash_index(st2, other);
        if i < 0 {
            st2.push((other, d))
        } else {
            st2.update(i, (other, d))
        }
    } else {
        st2
    };
    lemma_stash_index_range(st2, other);
    if b.1.len() > 0 {
        assert(st1.last().0 == b.0);
        assert(j < st1.len() - 1);
        assert(st2.len() > 0 && st2.last() == (b.0, b.1));
        if d.len() > 0 {
            let i = stash_index(st2, other);
            if i >= 0 {
                assert(i < st2.len() - 1);
            }
            assert(st3.len() >= 1);
            if i < 0 {
                assert(st3.drop_last() == st2);
                assert(stash_index(st3, b.0) == stash_index(st2, b.0));
            } else {
                assert(st3.last() == st2.last());
            }
        }
        assert(stash_index(st3, b.0) >= 0);
        lemma_stash_index_range(st3, b.0);
    } else {
        assert forall|k: int| 0 <= k < st3.len() implies st3[k].0 != b.0 by {
            if d.len() > 0 {
                let i = stash_index(st2, other);
                if i < 0 && k == st2.len() {
                } else if j >= 0 {
                    assert(st2[k].0 != b.0 || (i >= 0 && k == i)) by {
                        if !(i >= 0 && k == i) && k < st2.len() {
                            if k < j {
                                assert(st2[k] == st1[k]);
                            } else {
                                assert(st2[k] == st1[k + 1]);
                            }
                        }
                    }
                } else {
                    if k < st2.len() {
                        assert(st2[k] == st1[k]);
                    }
                }
            } else if j >= 0 {
                if k < j {
                    assert(st3[k] == st1[k]);
                } else {
                    assert(st3[k] == st1[k + 1]);
                }
            }
        }
        lemma_stash_index_none(st3, b.0);
    }
}


/// Switching to another context and back gives back the context's
/// entries, where nothing was put aside for the current context.
pub proof fn law_switch_back(b: BucketView, other: Seq<char>)
    requires
        other != b.0,
        stash_index(b.2, b.0) == -1,
    ensures
        switched(switched(b, other), b.0).0 == b.0,
        switched(switched(b, other), b.0).1 == b.1,
{
    let b2 = switched(b, other);
    law_switch_back_after_sets(b, other, b2.1);
    assert(b2 == (other, b2.1, b2.2));
}

} // verus!
