//! Engine workspace: per-namespace key order and query caches, and named
//! scratch slots of temporary values.

use vstd::prelude::*;
use crate::assoc::{keep_keys, lemma_keep_step, lemma_to_map_dom, lemma_to_map_last, lemma_to_map_update, to_map};
use crate::storage::pairs_view;
use crate::text::{contains_string, owned, str_eq, views};

verus! {

/// The system clock.
#[verifier::external_type_specification]
#[verifier::external_body]
pub struct ExSystemTime(std::time::SystemTime);

/// Why a time lies before another.
#[verifier::external_type_specification]
#[verifier::external_body]
pub struct ExSystemTimeError(std::time::SystemTimeError);

/// The current time.
///
/// Calls `SystemTime::now`; nothing is promised of the value, which
/// depends on the clock.
#[verifier::external_body]
fn clock_now() -> std::time::SystemTime {
    std::time::SystemTime::now()
}

/// How long after the Unix epoch a time lies.
///
/// Calls `SystemTime::duration_since` with `UNIX_EPOCH`; nothing is promised
/// of the result, which depends on the time handed in (a value Verus cannot
/// see into).
#[verifier::external_body]
fn since_epoch(t: &std::time::SystemTime) -> std::result::Result<
    core::time::Duration,
    std::time::SystemTimeError,
> {
    t.duration_since(std::time::UNIX_EPOCH)
}

/// The whole seconds of a duration.
///
/// Calls `Duration::as_secs`; nothing is promised of the result, which
/// depends on a value Verus cannot see into.
#[verifier::external_body]
fn whole_seconds(d: &core::time::Duration) -> u64 {
    d.as_secs()
}

/// The current time in seconds since the Unix epoch (0 where the clock
/// stands before it).
pub(crate) fn current_timestamp() -> (t: u64) {
    let now = clock_now();
    match since_epoch(&now) {
        Ok(d) => whole_seconds(&d),
        Err(_) => 0,
    }
}

/// What a namespace workspace holds: the order in which keys were added,
/// and the cached query results by pattern.
pub type NamespaceWorkspaceView = (Seq<Seq<char>>, Map<Seq<char>, Seq<Seq<char>>>);

/// Workspace data for one (context, namespace).
#[derive(Debug)]
pub struct NamespaceWorkspace {
    key_order: Vec<String>,
    query_cache: Vec<(String, Vec<String>)>,
    last_modified: u64,
}

spec fn cache_view(s: Seq<(String, Vec<String>)>) -> Seq<(Seq<char>, Seq<Seq<char>>)> {
    s.map_values(|p: (String, Vec<String>)| (p.0@, views(p.1@)))
}

impl View for NamespaceWorkspace {
    type V = NamespaceWorkspaceView;

    closed spec fn view(&self) -> NamespaceWorkspaceView {
        (views(self.key_order@), to_map(cache_view(self.query_cache@)))
    }
}

impl NamespaceWorkspace {
    /// The key order lists each key once.
    #[verifier::type_invariant]
    spec fn keys_once(self) -> bool {
        views(self.key_order@).no_duplicates()
    }

    /// An empty workspace.
    pub fn new() -> (w: Self)
        ensures
            w@.0 == Seq::<Seq<char>>::empty(),
            w@.1 == Map::<Seq<char>, Seq<Seq<char>>>::empty(),
    {
        let w = NamespaceWorkspace {
            key_order: Vec::new(),
            query_cache: Vec::new(),
            last_modified: current_timestamp(),
        };
        assert(views(w.key_order@) =~= Seq::empty());
        assert(cache_view(w.query_cache@) =~= Seq::empty());
        w
    }

    /// Record a modification time.
    pub fn touch(&mut self)
        ensures
            final(self)@ == old(self)@,
    {
        proof {
            use_type_invariant(&*self);
        }
        self.last_modified = current_timestamp();
    }

    /// Drop the cached queries.
    pub fn invalidate_caches(&mut self)
        ensures
            final(self)@.0 == old(self)@.0,
            final(self)@.1 == Map::<Seq<char>, Seq<Seq<char>>>::empty(),
    {
        proof {
            use_type_invariant(&*self);
        }
        self.query_cache = Vec::new();
        assert(cache_view(self.query_cache@) =~= Seq::empty());
        self.touch();
    }

    /// Add a key at the end of the order, unless it is there already.
    pub fn add_key(&mut self, key: &str)
        ensures
            final(self)@.0 == (if old(self)@.0.contains(key@) {
                old(self)@.0
            } else {
                old(self)@.0.push(key@)
            }),
            final(self)@.1 == old(self)@.1,
    {
        proof {
            use_type_invariant(&*self);
        }
        if !contains_string(&self.key_order, key) {
            let ghost before = self.key_order@;
            let mut order: Vec<String> = Vec::new();
            std::mem::swap(&mut order, &mut self.key_order);
            order.push(owned(key));
            assert(views(order@) =~= views(before).push(key@));
            self.key_order = order;
        }
        self.touch();
    }

    /// Remove every occurrence of a key from the order.
    pub fn remove_key(&mut self, key: &str)
        ensures
            final(self)@.0 == old(self)@.0.filter(other_than(key@)),
            final(self)@.1 == old(self)@.1,
    {
        proof {
            use_type_invariant(&*self);
        }
        let ghost ks = views(self.key_order@);
        let mut out: Vec<String> = Vec::new();
        let mut i: usize = 0;
        assert(ks.take(0).filter(other_than(key@)) =~= Seq::empty());
        assert(views(out@) =~= Seq::empty());
        while i < self.key_order.len()
            invariant
                i <= self.key_order@.len(),
                ks == views(self.key_order@),
                views(out@) == ks.take(i as int).filter(other_than(key@)),
            decreases self.key_order@.len() - i,
        {
            assert(ks.take(i + 1) =~= ks.take(i as int).push(ks[i as int]));
            proof {
                ks.take(i as int).lemma_filter_push(ks[i as int], |k: Seq<char>| k != key@);
            }
            if !str_eq(self.key_order[i].as_str(), key) {
                let ghost before = out@;
                out.push(owned(self.key_order[i].as_str()));
                assert(views(out@) =~= views(before).push(ks[i as int]));
            }
            i += 1;
        }
        assert(ks.take(i as int) =~= ks);
        proof {
            lemma_filter_out_key(ks, key@);
        }
        self.key_order = out;
        self.touch();
    }

    /// Cache the result of a query.
    pub fn cache_query(&mut self, pattern: &str, keys: Vec<String>)
        ensures
            final(self)@.0 == old(self)@.0,
            final(self)@.1 == old(self)@.1.insert(pattern@, views(keys@)),
    {
        proof {
            use_type_invariant(&*self);
        }
        let ghost cv = cache_view(self.query_cache@);
        let ghost kv = views(keys@);
        let mut cache: Vec<(String, Vec<String>)> = Vec::new();
        std::mem::swap(&mut cache, &mut self.query_cache);
        cache.push((owned(pattern), keys));
        self.query_cache = cache;
        proof {
            assert(cache_view(self.query_cache@) =~= cv.push((pattern@, kv)));
            assert(cv.push((pattern@, kv)).drop_last() =~= cv);
        }
    }

    /// The keys, in the order they were added.
    pub fn key_order(&self) -> (r: &[String])
        ensures
            views(r@) == self@.0,
            self@.0.no_duplicates(),
    {
        proof {
            use_type_invariant(self);
        }
        self.key_order.as_slice()
    }

    /// The number of cache entries kept (one per query cached).
    pub closed spec fn cache_entries(&self) -> nat {
        self.query_cache@.len()
    }

    /// The number of cached queries.
    pub fn cached_query_count(&self) -> (r: usize)
        ensures
            r == self.cache_entries(),
    {
        self.query_cache.len()
    }

    fn copy(&self) -> (r: Self)
        ensures
            r@ == self@,
    {
        proof {
            use_type_invariant(self);
        }
        let mut cache: Vec<(String, Vec<String>)> = Vec::new();
        let mut i: usize = 0;
        while i < self.query_cache.len()
            invariant
                i <= self.query_cache@.len(),
                cache_view(cache@) == cache_view(self.query_cache@).take(i as int),
            decreases self.query_cache@.len() - i,
        {
            let ghost before = cache_view(cache@);
            let k = owned(self.query_cache[i].0.as_str());
            let v = crate::text::clone_strings(&self.query_cache[i].1);
            assert(cache_view(self.query_cache@)[i as int] == (k@, views(v@)));
            cache.push((k, v));
            assert(cache_view(cache@) =~= before.push(cache_view(self.query_cache@)[i as int]));
            assert(cache_view(cache@) =~= cache_view(self.query_cache@).take(i + 1));
            i += 1;
        }
        assert(cache_view(self.query_cache@).take(i as int) =~= cache_view(self.query_cache@));
        NamespaceWorkspace {
            key_order: crate::text::clone_strings(&self.key_order),
            query_cache: cache,
            last_modified: self.last_modified,
        }
    }
}

/// What a scratch slot holds: its name and its values by key.
pub type ScratchSlotView = (Seq<char>, Map<Seq<char>, Seq<char>>);

/// A named store of temporary values.
#[derive(Debug)]
pub struct ScratchSlot {
    name: String,
    data: Vec<(String, String)>,
    created_at: u64,
}

impl View for ScratchSlot {
    type V = ScratchSlotView;

    closed spec fn view(&self) -> ScratchSlotView {
        (self.name@, to_map(pairs_view(self.data@)))
    }
}

impl ScratchSlot {
    /// An empty slot.
    pub fn new(name: &str) -> (s: Self)
        ensures
            s@.0 == name@,
            s@.1 == Map::<Seq<char>, Seq<char>>::empty(),
    {
        let s = ScratchSlot { name: owned(name), data: Vec::new(), created_at: current_timestamp() };
        assert(pairs_view(s.data@) =~= Seq::empty());
        s
    }

    /// The slot's name.
    pub fn name(&self) -> (r: &str)
        ensures
            r@ == self@.0,
    {
        self.name.as_str()
    }

    fn find(&self, key: &str) -> (r: Option<usize>)
        ensures
            match r {
                Some(i) => i < self.data@.len() && pairs_view(self.data@)[i as int].0 == key@
                    && forall|j: int|
                    i < j < self.data@.len() ==> (#[trigger] pairs_view(self.data@)[j]).0 != key@,
                None => forall|j: int|
                    0 <= j < self.data@.len() ==> (#[trigger] pairs_view(self.data@)[j]).0 != key@,
            },
    {
        let ghost pv = pairs_view(self.data@);
        let mut i: usize = self.data.len();
        while i > 0
            invariant
                i <= self.data@.len(),
                pv == pairs_view(self.data@),
                forall|j: int| i <= j < self.data@.len() ==> (#[trigger] pv[j]).0 != key@,
            decreases i,
        {
            assert(pv[i - 1] == (self.data@[i - 1].0@, self.data@[i - 1].1@));
            if str_eq(self.data[i - 1].0.as_str(), key) {
                return Some(i - 1);
            }
            i -= 1;
        }
        None
    }

    /// Store a value.
    pub fn set(&mut self, key: &str, value: &str)
        ensures
            final(self)@ == (old(self)@.0, old(self)@.1.insert(key@, value@)),
    {
        let ghost pv = pairs_view(self.data@);
        match self.find(key) {
            Some(i) => {
                let _ = self.data.remove(i);
                self.data.insert(i, (owned(key), owned(value)));
                proof {
                    assert(pairs_view(self.data@) =~= pv.update(i as int, (pv[i as int].0, value@)));
                    lemma_to_map_update(pv, i as int, value@);
                }
            },
            None => {
                self.data.push((owned(key), owned(value)));
                proof {
                    assert(pairs_view(self.data@) =~= pv.push((key@, value@)));
                    assert(pv.push((key@, value@)).drop_last() =~= pv);
                }
            },
        }
    }

    /// The value of a key.
    pub fn get(&self, key: &str) -> (r: Option<&str>)
        ensures
            match r {
                Some(v) => self@.1.contains_key(key@) && self@.1[key@] == v@,
                None => !self@.1.contains_key(key@),
            },
    {
        let ghost pv = pairs_view(self.data@);
        match self.find(key) {
            Some(i) => {
                proof {
                    lemma_to_map_last(pv, i as int);
                }
                Some(self.data[i].1.as_str())
            },
            None => {
                proof {
                    lemma_to_map_dom(pv, key@);
                }
                None
            },
        }
    }

    /// Drop every value.
    pub fn clear(&mut self)
        ensures
            final(self)@ == (old(self)@.0, Map::<Seq<char>, Seq<char>>::empty()),
    {
        self.data = Vec::new();
        assert(pairs_view(self.data@) =~= Seq::empty());
    }

    /// The number of pairs kept.
    pub closed spec fn stored_pairs(&self) -> nat {
        self.data@.len()
    }

    /// The number of stored pairs (one per key set).
    pub fn size(&self) -> (r: usize)
        ensures
            r == self.stored_pairs(),
    {
        self.data.len()
    }
}

/// Counts that describe a workspace.
#[derive(Debug, Clone, Copy)]
pub struct WorkspaceStatus {
    /// Number of namespace workspaces
    pub namespace_count: usize,
    /// Number of scratch slots
    pub scratch_slot_count: usize,
    /// Cached queries over all namespaces
    pub total_cached_queries: usize,
    /// Ordered keys over all namespaces
    pub total_ordered_keys: usize,
}

/// The place of a namespace workspace: (context, namespace).
pub type PlaceView = (Seq<char>, Seq<char>);

/// What an engine workspace holds: namespace workspaces by place, and
/// scratch slots by name.
pub type EngineWorkspaceView = (Map<PlaceView, NamespaceWorkspaceView>, Map<Seq<char>, ScratchSlotView>);

/// Internal workspace of an engine: key order and caches per namespace,
/// and scratch slots.
#[derive(Debug)]
pub struct EngineWorkspace {
    namespaces: Vec<((String, String), NamespaceWorkspace)>,
    scratch_slots: Vec<(String, ScratchSlot)>,
}

spec fn ns_view(s: Seq<((String, String), NamespaceWorkspace)>) -> Seq<(PlaceView, NamespaceWorkspaceView)> {
    s.map_values(|p: ((String, String), NamespaceWorkspace)| ((p.0.0@, p.0.1@), p.1@))
}

spec fn slot_view(s: Seq<(String, ScratchSlot)>) -> Seq<(Seq<char>, ScratchSlotView)> {
    s.map_values(|p: (String, ScratchSlot)| (p.0@, p.1@))
}

/// The workspace of a place after `add_key`.
pub open spec fn with_key(w: Map<PlaceView, NamespaceWorkspaceView>, place: PlaceView, key: Seq<char>) -> Map<
    PlaceView,
    NamespaceWorkspaceView,
> {
    let cur = if w.contains_key(place) {
        w[place]
    } else {
        (Seq::empty(), Map::empty())
    };
    w.insert(
        place,
        (
            if cur.0.contains(key) {
                cur.0
            } else {
                cur.0.push(key)
            },
            Map::empty(),
        ),
    )
}

/// The scratch slots after writing `value` at `key` in slot `name`
/// (reserved first where it is missing).
pub open spec fn scratch_written(
    slots: Map<Seq<char>, ScratchSlotView>,
    name: Seq<char>,
    key: Seq<char>,
    value: Seq<char>,
) -> Map<Seq<char>, ScratchSlotView> {
    let slot = if slots.contains_key(name) {
        slots[name]
    } else {
        (name, Map::<Seq<char>, Seq<char>>::empty())
    };
    slots.insert(name, (slot.0, slot.1.insert(key, value)))
}

/// The keys other than `key`.
pub open spec fn other_than(key: Seq<char>) -> spec_fn(Seq<char>) -> bool {
    |k: Seq<char>| k != key
}

/// The workspace of a place after `remove_key`.
pub open spec fn without_key(w: Map<PlaceView, NamespaceWorkspaceView>, place: PlaceView, key: Seq<char>) -> Map<
    PlaceView,
    NamespaceWorkspaceView,
> {
    let cur = if w.contains_key(place) {
        w[place]
    } else {
        (Seq::empty(), Map::empty())
    };
    w.insert(place, (cur.0.filter(other_than(key)), Map::empty()))
}

impl View for EngineWorkspace {
    type V = EngineWorkspaceView;

    closed spec fn view(&self) -> EngineWorkspaceView {
        (to_map(ns_view(self.namespaces@)), to_map(slot_view(self.scratch_slots@)))
    }
}

impl EngineWorkspace {
    /// An empty workspace.
    pub fn new() -> (w: Self)
        ensures
            w@.0 == Map::<PlaceView, NamespaceWorkspaceView>::empty(),
            w@.1 == Map::<Seq<char>, ScratchSlotView>::empty(),
    {
        let w = EngineWorkspace { namespaces: Vec::new(), scratch_slots: Vec::new() };
        assert(ns_view(w.namespaces@) =~= Seq::empty());
        assert(slot_view(w.scratch_slots@) =~= Seq::empty());
        w
    }

    fn find_namespace(&self, context: &str, namespace: &str) -> (r: Option<usize>)
        ensures
            match r {
                Some(i) => i < self.namespaces@.len() && ns_view(self.namespaces@)[i as int].0 == (
                    context@,
                    namespace@,
                ) && self@.0.contains_key((context@, namespace@)) && self@.0[(context@, namespace@)]
                    == ns_view(self.namespaces@)[i as int].1 && forall|j: int|
                    i < j < self.namespaces@.len() ==> (#[trigger] ns_view(self.namespaces@)[j]).0
                        != (context@, namespace@),
                None => !self@.0.contains_key((context@, namespace@)),
            },
    {
        let ghost nv = ns_view(self.namespaces@);
        let mut i: usize = self.namespaces.len();
        while i > 0
            invariant
                i <= self.namespaces@.len(),
                nv == ns_view(self.namespaces@),
                forall|j: int|
                    i <= j < self.namespaces@.len() ==> (#[trigger] nv[j]).0 != (
                        context@,
                        namespace@,
                    ),
            decreases i,
        {
            let e = &self.namespaces[i - 1];
            assert(nv[i - 1] == ((e.0.0@, e.0.1@), e.1@));
            if str_eq(e.0.0.as_str(), context) && str_eq(e.0.1.as_str(), namespace) {
                proof {
                    lemma_to_map_last(nv, i - 1);
                }
                return Some(i - 1);
            }
            i -= 1;
        }
        proof {
            lemma_to_map_dom(nv, (context@, namespace@));
        }
        None
    }

    /// Make sure a namespace workspace exists.
    pub fn get_or_create_namespace(&mut self, context: &str, namespace: &str)
        ensures
            final(self)@.0 == (if old(self)@.0.contains_key((context@, namespace@)) {
                old(self)@.0
            } else {
                old(self)@.0.insert(
                    (context@, namespace@),
                    (Seq::<Seq<char>>::empty(), Map::<Seq<char>, Seq<Seq<char>>>::empty()),
                )
            }),
            final(self)@.1 == old(self)@.1,
    {
        if self.find_namespace(context, namespace).is_none() {
            let ghost nv = ns_view(self.namespaces@);
            let w = NamespaceWorkspace::new();
            let ghost wv = w@;
            self.namespaces.push(((owned(context), owned(namespace)), w));
            proof {
                assert(ns_view(self.namespaces@) =~= nv.push(((context@, namespace@), wv)));
                assert(nv.push(((context@, namespace@), wv)).drop_last() =~= nv);
            }
        }
    }

    /// The workspace of a namespace, if it exists.
    pub fn get_namespace(&self, context: &str, namespace: &str) -> (r: Option<&NamespaceWorkspace>)
        ensures
            match r {
                Some(w) => self@.0.contains_key((context@, namespace@)) && self@.0[(
                    context@,
                    namespace@,
                )] == w@,
                None => !self@.0.contains_key((context@, namespace@)),
            },
    {
        match self.find_namespace(context, namespace) {
            Some(i) => {
                assert(ns_view(self.namespaces@)[i as int].1 == self.namespaces@[i as int].1@);
                Some(&self.namespaces[i].1)
            },
            None => None,
        }
    }

    /// Add a key to a namespace's order (creating the workspace) and drop
    /// its caches.
    pub fn add_key(&mut self, context: &str, namespace: &str, key: &str)
        ensures
            final(self)@.0 == with_key(old(self)@.0, (context@, namespace@), key@),
            final(self)@.1 == old(self)@.1,
    {
        self.get_or_create_namespace(context, namespace);
        let i = self.find_namespace(context, namespace).unwrap();
        let ghost nv = ns_view(self.namespaces@);
        let (place, mut w) = self.namespaces.remove(i);
        w.add_key(key);
        w.invalidate_caches();
        let ghost wv = w@;
        self.namespaces.insert(i, (place, w));
        proof {
            assert(ns_view(self.namespaces@) =~= nv.update(i as int, (nv[i as int].0, wv)));
            lemma_to_map_update(nv, i as int, wv);
            assert(to_map(nv).insert((context@, namespace@), wv) =~= with_key(
                old(self)@.0,
                (context@, namespace@),
                key@,
            ));
        }
    }

    /// Remove a key from a namespace's order (creating the workspace) and
    /// drop its caches.
    pub fn remove_key(&mut self, context: &str, namespace: &str, key: &str)
        ensures
            final(self)@.0 == without_key(old(self)@.0, (context@, namespace@), key@),
            final(self)@.1 == old(self)@.1,
    {
        self.get_or_create_namespace(context, namespace);
        let i = self.find_namespace(context, namespace).unwrap();
        let ghost nv = ns_view(self.namespaces@);
        let (place, mut w) = self.namespaces.remove(i);
        w.remove_key(key);
        w.invalidate_caches();
        let ghost wv = w@;
        self.namespaces.insert(i, (place, w));
        proof {
            assert(ns_view(self.namespaces@) =~= nv.update(i as int, (nv[i as int].0, wv)));
            lemma_to_map_update(nv, i as int, wv);
            assert(to_map(nv).insert((context@, namespace@), wv) =~= without_key(
                old(self)@.0,
                (context@, namespace@),
                key@,
            ));
        }
    }

    /// Cache a query result for a namespace (creating the workspace).
    pub fn cache_query(&mut self, context: &str, namespace: &str, pattern: &str, keys: Vec<String>)
        ensures
            final(self)@.1 == old(self)@.1,
            final(self)@.0.contains_key((context@, namespace@)),
            final(self)@.0[(context@, namespace@)].1.contains_key(pattern@),
            final(self)@.0[(context@, namespace@)].0 == (if old(self)@.0.contains_key(
                (context@, namespace@),
            ) {
                old(self)@.0[(context@, namespace@)].0
            } else {
                Seq::<Seq<char>>::empty()
            }),
    {
        self.get_or_create_namespace(context, namespace);
        let i = self.find_namespace(context, namespace).unwrap();
        let ghost nv = ns_view(self.namespaces@);
        let (place, mut w) = self.namespaces.remove(i);
        w.cache_query(pattern, keys);
        let ghost wv = w@;
        self.namespaces.insert(i, (place, w));
        proof {
            assert(ns_view(self.namespaces@) =~= nv.update(i as int, (nv[i as int].0, wv)));
            lemma_to_map_update(nv, i as int, wv);
        }
    }

    /// Drop the caches of one namespace.
    pub fn invalidate_namespace(&mut self, context: &str, namespace: &str)
        ensures
            final(self)@.1 == old(self)@.1,
            old(self)@.0.contains_key((context@, namespace@)) ==> final(self)@.0 == old(self)@.0.insert(
                (context@, namespace@),
                (old(self)@.0[(context@, namespace@)].0, Map::<Seq<char>, Seq<Seq<char>>>::empty()),
            ),
            !old(self)@.0.contains_key((context@, namespace@)) ==> final(self)@.0 == old(self)@.0,
    {
        match self.find_namespace(context, namespace) {
            Some(i) => {
                let ghost nv = ns_view(self.namespaces@);
                let (place, mut w) = self.namespaces.remove(i);
                w.invalidate_caches();
                let ghost wv = w@;
                self.namespaces.insert(i, (place, w));
                proof {
                    assert(ns_view(self.namespaces@) =~= nv.update(i as int, (nv[i as int].0, wv)));
                    lemma_to_map_update(nv, i as int, wv);
                }
            },
            None => {},
        }
    }

    /// Drop the caches of every namespace of a context.
    pub fn invalidate_context(&mut self, context: &str)
        ensures
            final(self)@.1 == old(self)@.1,
            final(self)@.0.dom() == old(self)@.0.dom(),
            forall|p: PlaceView|
                #[trigger] final(self)@.0.contains_key(p) ==> final(self)@.0[p] == (if p.0
                    == context@ {
                    (old(self)@.0[p].0, Map::<Seq<char>, Seq<Seq<char>>>::empty())
                } else {
                    old(self)@.0[p]
                }),
    {
        self.invalidate_where(context, true);
    }

    /// Drop the caches of every namespace.
    pub fn invalidate_all(&mut self)
        ensures
            final(self)@.1 == old(self)@.1,
            final(self)@.0.dom() == old(self)@.0.dom(),
            forall|p: PlaceView|
                #[trigger] final(self)@.0.contains_key(p) ==> final(self)@.0[p] == (
                    old(self)@.0[p].0,
                    Map::<Seq<char>, Seq<Seq<char>>>::empty(),
                ),
    {
        self.invalidate_where("", false);
    }

    fn invalidate_where(&mut self, context: &str, only_context: bool)
        ensures
            final(self)@.1 == old(self)@.1,
            final(self)@.0.dom() == old(self)@.0.dom(),
            forall|p: PlaceView|
                #[trigger] final(self)@.0.contains_key(p) ==> final(self)@.0[p] == (if !only_context
                    || p.0 == context@ {
                    (old(self)@.0[p].0, Map::<Seq<char>, Seq<Seq<char>>>::empty())
                } else {
                    old(self)@.0[p]
                }),
    {
        let ghost nv0 = ns_view(self.namespaces@);
        let ghost m0 = to_map(nv0);
        let mut i: usize = 0;
        while i < self.namespaces.len()
            invariant
                i <= self.namespaces@.len(),
                self.namespaces@.len() == nv0.len(),
                self@.1 == old(self)@.1,
                m0 == old(self)@.0,
                m0 == to_map(nv0),
                forall|j: int|
                    0 <= j < nv0.len() ==> (#[trigger] ns_view(self.namespaces@)[j]).0 == nv0[j].0,
                forall|j: int|
                    0 <= j < nv0.len() ==> (#[trigger] ns_view(self.namespaces@)[j]).1 == (if j < i
                        && (!only_context || nv0[j].0.0 == context@) {
                        (nv0[j].1.0, Map::<Seq<char>, Seq<Seq<char>>>::empty())
                    } else {
                        nv0[j].1
                    }),
            decreases self.namespaces@.len() - i,
        {
            let hit = !only_context || str_eq(self.namespaces[i].0.0.as_str(), context);
            assert(ns_view(self.namespaces@)[i as int] == (
                (self.namespaces@[i as int].0.0@, self.namespaces@[i as int].0.1@),
                self.namespaces@[i as int].1@,
            ));
            if hit {
                let ghost nv = ns_view(self.namespaces@);
                let (place, mut w) = self.namespaces.remove(i);
                w.invalidate_caches();
                let ghost wv = w@;
                self.namespaces.insert(i, (place, w));
                assert(ns_view(self.namespaces@) =~= nv.update(i as int, (nv[i as int].0, wv)));
            }
            i += 1;
        }
        proof {
            let nv1 = ns_view(self.namespaces@);
            lemma_same_keys_map(nv0, nv1, only_context, context@);
        }
    }

    /// Drop every namespace workspace and scratch slot.
    pub fn clear(&mut self)
        ensures
            final(self)@.0 == Map::<PlaceView, NamespaceWorkspaceView>::empty(),
            final(self)@.1 == Map::<Seq<char>, ScratchSlotView>::empty(),
    {
        self.namespaces = Vec::new();
        self.scratch_slots = Vec::new();
        assert(ns_view(self.namespaces@) =~= Seq::empty());
        assert(slot_view(self.scratch_slots@) =~= Seq::empty());
    }

    /// Drop one namespace workspace.
    pub fn remove_namespace(&mut self, context: &str, namespace: &str)
        ensures
            final(self)@.0 == old(self)@.0.remove((context@, namespace@)),
            final(self)@.1 == old(self)@.1,
    {
        self.remove_places(context, namespace, false);
        assert(keep_keys(old(self)@.0, |p: PlaceView| !(p.0 == context@ && p.1 == namespace@))
            =~= old(self)@.0.remove((context@, namespace@)));
    }

    /// Drop the namespace workspaces of a context.
    pub fn remove_context(&mut self, context: &str)
        ensures
            final(self)@.0 == keep_keys(old(self)@.0, |p: PlaceView| p.0 != context@),
            final(self)@.1 == old(self)@.1,
    {
        self.remove_places(context, "", true);
        assert(keep_keys(old(self)@.0, |p: PlaceView| !(p.0 == context@ && (true || p.1 == ""@)))
            =~= keep_keys(old(self)@.0, |p: PlaceView| p.0 != context@));
    }

    fn remove_places(&mut self, context: &str, namespace: &str, whole_context: bool)
        ensures
            final(self)@.0 == keep_keys(
                old(self)@.0,
                |p: PlaceView| !(p.0 == context@ && (whole_context || p.1 == namespace@)),
            ),
            final(self)@.1 == old(self)@.1,
    {
        let ghost nv = ns_view(self.namespaces@);
        let ghost keep = |p: PlaceView| !(p.0 == context@ && (whole_context || p.1 == namespace@));
        let mut old_list: Vec<((String, String), NamespaceWorkspace)> = Vec::new();
        std::mem::swap(&mut old_list, &mut self.namespaces);
        let mut out: Vec<((String, String), NamespaceWorkspace)> = Vec::new();
        assert(keep_keys(to_map(nv.take(0)), keep) =~= to_map(ns_view(out@))) by {
            assert(nv.take(0) =~= Seq::empty());
            assert(ns_view(out@) =~= Seq::empty());
        }
        let total_len = old_list.len();
        let ghost total = total_len as nat;
        let mut i: usize = 0;
        while old_list.len() > 0
            invariant
                i + old_list@.len() == total,
                total <= usize::MAX,
                total == nv.len(),
                ns_view(old_list@) == nv.skip(i as int),
                forall|p: PlaceView|
                    #[trigger] keep(p) == !(p.0 == context@ && (whole_context || p.1 == namespace@)),
                to_map(ns_view(out@)) == keep_keys(to_map(nv.take(i as int)), keep),
                self@.1 == old(self)@.1,
            decreases old_list@.len(),
        {
            proof {
                lemma_keep_step(nv, i as int, keep);
            }
            let ghost prev = old_list@;
            let (place, w) = old_list.remove(0);
            assert(nv[i as int] == ((place.0@, place.1@), w@)) by {
                assert(nv.skip(i as int)[0] == nv[i as int]);
                assert(ns_view(prev)[0] == ((prev[0].0.0@, prev[0].0.1@), prev[0].1@));
            }
            assert(ns_view(old_list@) =~= nv.skip(i + 1)) by {
                assert(old_list@ =~= prev.drop_first());
                assert(nv.skip(i + 1) =~= nv.skip(i as int).drop_first());
            }
            let drop = str_eq(place.0.as_str(), context) && (whole_context || str_eq(
                place.1.as_str(),
                namespace,
            ));
            if !drop {
                let ghost before = ns_view(out@);
                let ghost e = ((place.0@, place.1@), w@);
                out.push((place, w));
                proof {
                    assert(ns_view(out@) =~= before.push(e));
                    assert(before.push(e).drop_last() =~= before);
                }
            }
            i += 1;
        }
        assert(nv.take(i as int) =~= nv);
        self.namespaces = out;
    }

    fn find_slot(&self, name: &str) -> (r: Option<usize>)
        ensures
            match r {
                Some(i) => i < self.scratch_slots@.len() && slot_view(self.scratch_slots@)[i as int].0
                    == name@ && self@.1.contains_key(name@) && self@.1[name@] == slot_view(
                    self.scratch_slots@,
                )[i as int].1 && forall|j: int|
                    i < j < self.scratch_slots@.len() ==> (#[trigger] slot_view(
                        self.scratch_slots@,
                    )[j]).0 != name@,
                None => !self@.1.contains_key(name@),
            },
    {
        let ghost sv = slot_view(self.scratch_slots@);
        let mut i: usize = self.scratch_slots.len();
        while i > 0
            invariant
                i <= self.scratch_slots@.len(),
                sv == slot_view(self.scratch_slots@),
                forall|j: int| i <= j < self.scratch_slots@.len() ==> (#[trigger] sv[j]).0 != name@,
            decreases i,
        {
            assert(sv[i - 1] == (self.scratch_slots@[i - 1].0@, self.scratch_slots@[i - 1].1@));
            if str_eq(self.scratch_slots[i - 1].0.as_str(), name) {
                proof {
                    lemma_to_map_last(sv, i - 1);
                }
                return Some(i - 1);
            }
            i -= 1;
        }
        proof {
            lemma_to_map_dom(sv, name@);
        }
        None
    }

    /// Make sure a scratch slot of that name exists.
    pub fn reserve_scratch_slot(&mut self, name: &str)
        ensures
            final(self)@.0 == old(self)@.0,
            final(self)@.1 == (if old(self)@.1.contains_key(name@) {
                old(self)@.1
            } else {
                old(self)@.1.insert(name@, (name@, Map::<Seq<char>, Seq<char>>::empty()))
            }),
    {
        if self.find_slot(name).is_none() {
            let ghost sv = slot_view(self.scratch_slots@);
            let s = ScratchSlot::new(name);
            let ghost v = s@;
            self.scratch_slots.push((owned(name), s));
            proof {
                assert(slot_view(self.scratch_slots@) =~= sv.push((name@, v)));
                assert(sv.push((name@, v)).drop_last() =~= sv);
            }
        }
    }

    /// Store a value in a scratch slot (creating the slot).
    pub fn set_scratch(&mut self, name: &str, key: &str, value: &str)
        ensures
            final(self)@.0 == old(self)@.0,
            final(self)@.1 == scratch_written(old(self)@.1, name@, key@, value@),
    {
        self.reserve_scratch_slot(name);
        let i = self.find_slot(name).unwrap();
        let ghost sv = slot_view(self.scratch_slots@);
        let (n, mut s) = self.scratch_slots.remove(i);
        s.set(key, value);
        let ghost v = s@;
        self.scratch_slots.insert(i, (n, s));
        proof {
            assert(slot_view(self.scratch_slots@) =~= sv.update(i as int, (sv[i as int].0, v)));
            lemma_to_map_update(sv, i as int, v);
        }
    }

    /// Drop the values of a scratch slot.
    pub fn clear_scratch_slot(&mut self, name: &str)
        ensures
            final(self)@.0 == old(self)@.0,
            old(self)@.1.contains_key(name@) ==> final(self)@.1 == old(self)@.1.insert(
                name@,
                (old(self)@.1[name@].0, Map::<Seq<char>, Seq<char>>::empty()),
            ),
            !old(self)@.1.contains_key(name@) ==> final(self)@.1 == old(self)@.1,
    {
        match self.find_slot(name) {
            Some(i) => {
                let ghost sv = slot_view(self.scratch_slots@);
                let (n, mut s) = self.scratch_slots.remove(i);
                s.clear();
                let ghost v = s@;
                self.scratch_slots.insert(i, (n, s));
                proof {
                    assert(slot_view(self.scratch_slots@) =~= sv.update(i as int, (sv[i as int].0, v)));
                    lemma_to_map_update(sv, i as int, v);
                }
            },
            None => {},
        }
    }

    /// The scratch slot of a name, if it exists.
    pub fn get_scratch_slot(&self, name: &str) -> (r: Option<&ScratchSlot>)
        ensures
            match r {
                Some(s) => self@.1.contains_key(name@) && self@.1[name@] == s@,
                None => !self@.1.contains_key(name@),
            },
    {
        match self.find_slot(name) {
            Some(i) => {
                assert(slot_view(self.scratch_slots@)[i as int].1 == self.scratch_slots@[i as int].1@);
                Some(&self.scratch_slots[i].1)
            },
            None => None,
        }
    }

    /// Drop a scratch slot; says whether it existed.
    pub fn remove_scratch_slot(&mut self, name: &str) -> (r: bool)
        ensures
            r == old(self)@.1.contains_key(name@),
            final(self)@.1 == old(self)@.1.remove(name@),
            final(self)@.0 == old(self)@.0,
    {
        let had = self.find_slot(name).is_some();
        let ghost sv = slot_view(self.scratch_slots@);
        let ghost keep = |k: Seq<char>| k != name@;
        let mut old_list: Vec<(String, ScratchSlot)> = Vec::new();
        std::mem::swap(&mut old_list, &mut self.scratch_slots);
        let mut out: Vec<(String, ScratchSlot)> = Vec::new();
        assert(keep_keys(to_map(sv.take(0)), keep) =~= to_map(slot_view(out@))) by {
            assert(sv.take(0) =~= Seq::empty());
            assert(slot_view(out@) =~= Seq::empty());
        }
        let total_len = old_list.len();
        let ghost total = total_len as nat;
        let mut i: usize = 0;
        while old_list.len() > 0
            invariant
                i + old_list@.len() == total,
                total <= usize::MAX,
                total == sv.len(),
                slot_view(old_list@) == sv.skip(i as int),
                forall|k: Seq<char>| #[trigger] keep(k) == (k != name@),
                to_map(slot_view(out@)) == keep_keys(to_map(sv.take(i as int)), keep),
                self@.0 == old(self)@.0,
            decreases old_list@.len(),
        {
            proof {
                lemma_keep_step(sv, i as int, keep);
            }
            let ghost prev = old_list@;
            let (n, s) = old_list.remove(0);
            assert(sv[i as int] == (n@, s@)) by {
                assert(sv.skip(i as int)[0] == sv[i as int]);
                assert(slot_view(prev)[0] == (prev[0].0@, prev[0].1@));
            }
            assert(slot_view(old_list@) =~= sv.skip(i + 1)) by {
                assert(old_list@ =~= prev.drop_first());
                assert(sv.skip(i + 1) =~= sv.skip(i as int).drop_first());
            }
            if !str_eq(n.as_str(), name) {
                let ghost before = slot_view(out@);
                let ghost e = (n@, s@);
                out.push((n, s));
                proof {
                    assert(slot_view(out@) =~= before.push(e));
                    assert(before.push(e).drop_last() =~= before);
                }
            }
            i += 1;
        }
        assert(sv.take(i as int) =~= sv);
        assert(keep_keys(to_map(sv), keep) =~= to_map(sv).remove(name@));
        self.scratch_slots = out;
        had
    }

    /// Drop every scratch slot.
    pub fn clear_all_scratch(&mut self)
        ensures
            final(self)@.0 == old(self)@.0,
            final(self)@.1 == Map::<Seq<char>, ScratchSlotView>::empty(),
    {
        self.scratch_slots = Vec::new();
        assert(slot_view(self.scratch_slots@) =~= Seq::empty());
    }

    /// The names of the scratch slots, in the order they were made.
    pub fn list_scratch_slots(&self) -> (r: Vec<&str>)
        ensures
            forall|n: Seq<char>| self@.1.contains_key(n) <==> r@.map_values(|s: &str| s@).contains(n),
    {
        let ghost sv = slot_view(self.scratch_slots@);
        let ghost names = sv.map_values(|p: (Seq<char>, ScratchSlotView)| p.0);
        let mut out: Vec<&str> = Vec::new();
        let mut i: usize = 0;
        while i < self.scratch_slots.len()
            invariant
                i <= self.scratch_slots@.len(),
                sv == slot_view(self.scratch_slots@),
                names == sv.map_values(|p: (Seq<char>, ScratchSlotView)| p.0),
                out@.map_values(|s: &str| s@) == names.take(i as int),
            decreases self.scratch_slots@.len() - i,
        {
            assert(sv[i as int] == (self.scratch_slots@[i as int].0@, self.scratch_slots@[i as int].1@));
            let ghost b = out@.map_values(|s: &str| s@);
            assert(names[i as int] == sv[i as int].0);
            out.push(self.scratch_slots[i].0.as_str());
            assert(out@.map_values(|s: &str| s@) =~= b.push(names[i as int]));
            assert(out@.map_values(|s: &str| s@) =~= names.take(i + 1));
            i += 1;
        }
        assert(names.take(i as int) =~= names);
        proof {
            assert forall|n: Seq<char>| self@.1.contains_key(n) <==> names.contains(n) by {
                lemma_to_map_dom(sv, n);
                if names.contains(n) {
                    let j = choose|j: int| 0 <= j < names.len() && names[j] == n;
                    assert(sv[j].0 == n);
                }
                if self@.1.contains_key(n) {
                    let j = choose|j: int| 0 <= j < sv.len() && (#[trigger] sv[j]).0 == n;
                    assert(names[j] == n);
                }
            }
        }
        out
    }

    /// The number of namespace workspaces kept.
    pub closed spec fn place_entries(&self) -> nat {
        self.namespaces@.len()
    }

    /// The number of scratch slots kept.
    pub closed spec fn slot_entries(&self) -> nat {
        self.scratch_slots@.len()
    }

    /// The number of namespace workspaces kept (one per place made).
    pub fn namespace_count(&self) -> (r: usize)
        ensures
            r == self.place_entries(),
    {
        self.namespaces.len()
    }

    /// The number of scratch slots kept (one per name reserved).
    pub fn scratch_slot_count(&self) -> (r: usize)
        ensures
            r == self.slot_entries(),
    {
        self.scratch_slots.len()
    }

    /// The namespace workspaces, in the order they were made.
    pub closed spec fn place_workspaces(&self) -> Seq<NamespaceWorkspace> {
        self.namespaces@.map_values(|p: ((String, String), NamespaceWorkspace)| p.1)
    }

    /// Counts that describe the workspace (sums saturate at `usize::MAX`).
    pub fn workspace_status(&self) -> (r: WorkspaceStatus)
        ensures
            r.namespace_count == self.place_entries(),
            r.scratch_slot_count == self.slot_entries(),
            r.total_cached_queries == saturated(cache_sum(self.place_workspaces())),
            r.total_ordered_keys == saturated(key_sum(self.place_workspaces())),
    {
        let ghost ws = self.place_workspaces();
        let mut cached: usize = 0;
        let mut ordered: usize = 0;
        let mut i: usize = 0;
        while i < self.namespaces.len()
            invariant
                i <= self.namespaces@.len(),
                ws == self.place_workspaces(),
                cached == saturated(cache_sum(ws.take(i as int))),
                ordered == saturated(key_sum(ws.take(i as int))),
            decreases self.namespaces@.len() - i,
        {
            assert(ws.take(i + 1).drop_last() =~= ws.take(i as int));
            assert(ws[i as int] == self.namespaces@[i as int].1);
            let c = self.namespaces[i].1.cached_query_count();
            let k = self.namespaces[i].1.key_order().len();
            proof {
                lemma_views_len(self.namespaces@[i as int].1.key_order@);
            }
            cached = cached.saturating_add(c);
            ordered = ordered.saturating_add(k);
            i += 1;
        }
        assert(ws.take(i as int) =~= ws);
        WorkspaceStatus {
            namespace_count: self.namespaces.len(),
            scratch_slot_count: self.scratch_slots.len(),
            total_cached_queries: cached,
            total_ordered_keys: ordered,
        }
    }
}

/// `n`, or `usize::MAX` where it is larger.
pub open spec fn saturated(n: nat) -> usize {
    if n > usize::MAX {
        usize::MAX
    } else {
        n as usize
    }
}

/// The sizes of the query caches of some namespace workspaces, added up.
pub open spec fn cache_sum(ws: Seq<NamespaceWorkspace>) -> nat
    decreases ws.len(),
{
    if ws.len() == 0 {
        0
    } else {
        cache_sum(ws.drop_last()) + ws.last().cache_entries()
    }
}

/// The lengths of the key orders of some namespace workspaces, added up.
pub open spec fn key_sum(ws: Seq<NamespaceWorkspace>) -> nat
    decreases ws.len(),
{
    if ws.len() == 0 {
        0
    } else {
        key_sum(ws.drop_last()) + ws.last()@.0.len()
    }
}

proof fn lemma_views_len(v: Seq<String>)
    ensures
        views(v).len() == v.len(),
{
}

/// Invalidating in place keeps the keys and empties the chosen caches.
proof fn lemma_same_keys_map(
    nv0: Seq<(PlaceView, NamespaceWorkspaceView)>,
    nv1: Seq<(PlaceView, NamespaceWorkspaceView)>,
    only_context: bool,
    context: Seq<char>,
)
    requires
        nv0.len() == nv1.len(),
        forall|j: int| 0 <= j < nv0.len() ==> (#[trigger] nv1[j]).0 == nv0[j].0,
        forall|j: int|
            0 <= j < nv0.len() ==> (#[trigger] nv1[j]).1 == (if !only_context || nv0[j].0.0
                == context {
                (nv0[j].1.0, Map::<Seq<char>, Seq<Seq<char>>>::empty())
            } else {
                nv0[j].1
            }),
    ensures
        to_map(nv1).dom() == to_map(nv0).dom(),
        forall|p: PlaceView|
            #[trigger] to_map(nv1).contains_key(p) ==> to_map(nv1)[p] == (if !only_context || p.0
                == context {
                (to_map(nv0)[p].0, Map::<Seq<char>, Seq<Seq<char>>>::empty())
            } else {
                to_map(nv0)[p]
            }),
    decreases nv0.len(),
{
    if nv0.len() > 0 {
        let a = nv0.drop_last();
        let b = nv1.drop_last();
        assert forall|j: int| 0 <= j < a.len() implies (#[trigger] b[j]).0 == a[j].0 by {
            assert(nv1[j].0 == nv0[j].0);
        }
        assert forall|j: int| 0 <= j < a.len() implies (#[trigger] b[j]).1 == (if !only_context
            || a[j].0.0 == context {
            (a[j].1.0, Map::<Seq<char>, Seq<Seq<char>>>::empty())
        } else {
            a[j].1
        }) by {
            assert(nv1[j].1 == (if !only_context || nv0[j].0.0 == context {
                (nv0[j].1.0, Map::<Seq<char>, Seq<Seq<char>>>::empty())
            } else {
                nv0[j].1
            }));
        }
        lemma_same_keys_map(a, b, only_context, context);
        let l0 = nv0.last();
        let l1 = nv1.last();
        assert(l1.0 == l0.0);
        assert(to_map(nv1).dom() =~= to_map(nv0).dom());
    }
}

impl Default for EngineWorkspace {
    fn default() -> (w: Self)
        ensures
            w@.0 == Map::<PlaceView, NamespaceWorkspaceView>::empty(),
            w@.1 == Map::<Seq<char>, ScratchSlotView>::empty(),
    {
        EngineWorkspace::new()
    }
}

/// Adding a key to a place keeps its key order free of repeats, puts the
/// key in it, and empties the place's query cache.
pub proof fn law_add_key_keeps_order(w: Map<PlaceView, NamespaceWorkspaceView>, place: PlaceView, key: Seq<char>)
    requires
        w.contains_key(place) ==> w[place].0.no_duplicates(),
    ensures
        with_key(w, place, key)[place].0.no_duplicates(),
        with_key(w, place, key)[place].0.contains(key),
        with_key(w, place, key)[place].1 == Map::<Seq<char>, Seq<Seq<char>>>::empty(),
        forall|p: PlaceView| p != place && w.contains_key(p) ==> #[trigger] with_key(w, place, key)[p] == w[p],
{
    let cur = if w.contains_key(place) {
        w[place]
    } else {
        (Seq::<Seq<char>>::empty(), Map::<Seq<char>, Seq<Seq<char>>>::empty())
    };
    if !cur.0.contains(key) {
        let n = cur.0.push(key);
        assert forall|i: int, j: int| 0 <= i < n.len() && 0 <= j < n.len() && i != j implies n[i]
            != n[j] by {
            if i < cur.0.len() && j < cur.0.len() {
                assert(n[i] == cur.0[i] && n[j] == cur.0[j]);
            } else if i == cur.0.len() {
                assert(n[i] == key);
                assert(n[j] == cur.0[j]);
            } else {
                assert(n[j] == key);
                assert(n[i] == cur.0[i]);
            }
        }
        assert(n[cur.0.len() as int] == key);
    }
}

/// Removing a key from a place leaves no trace of it in the key order, keeps
/// the order free of repeats, and empties the place's query cache.
pub proof fn law_remove_key_keeps_order(w: Map<PlaceView, NamespaceWorkspaceView>, place: PlaceView, key: Seq<char>)
    requires
        w.contains_key(place) ==> w[place].0.no_duplicates(),
    ensures
        without_key(w, place, key)[place].0.no_duplicates(),
        !without_key(w, place, key)[place].0.contains(key),
        without_key(w, place, key)[place].1 == Map::<Seq<char>, Seq<Seq<char>>>::empty(),
{
    let cur = if w.contains_key(place) {
        w[place]
    } else {
        (Seq::<Seq<char>>::empty(), Map::<Seq<char>, Seq<Seq<char>>>::empty())
    };
    lemma_filter_out_key(cur.0, key);
    let f = without_key(w, place, key)[place].0;
    assert(f == cur.0.filter(other_than(key)));
    assert(f.no_duplicates());
}

/// Filtering a key out of a list without repeats leaves a list without
/// repeats that does not hold the key.
proof fn lemma_filter_out_key(s: Seq<Seq<char>>, key: Seq<char>)
    requires
        s.no_duplicates(),
    ensures
        s.filter(other_than(key)).no_duplicates(),
        !s.filter(other_than(key)).contains(key),
    decreases s.len(),
{
    reveal(Seq::filter);
    let pred = other_than(key);
    if s.len() > 0 {
        let rest = s.drop_last();
        assert(rest.no_duplicates()) by {
            assert forall|i: int, j: int| 0 <= i < rest.len() && 0 <= j < rest.len() && i != j implies rest[i]
                != rest[j] by {
                assert(rest[i] == s[i] && rest[j] == s[j]);
            }
        }
        lemma_filter_out_key(rest, key);
        let sub = rest.filter(pred);
        assert(s.filter(pred) == if pred(s.last()) { sub.push(s.last()) } else { sub });
        if pred(s.last()) {
            let n = sub.push(s.last());
            if sub.contains(s.last()) {
                rest.lemma_filter_contains_rev(pred, s.last());
                let k = choose|k: int| 0 <= k < rest.len() && rest[k] == s.last();
                assert(s[k] == s[s.len() - 1]);
            }
            assert forall|i: int, j: int| 0 <= i < n.len() && 0 <= j < n.len() && i != j implies n[i]
                != n[j] by {
                if i < sub.len() && j < sub.len() {
                } else if i == sub.len() {
                    assert(sub.contains(sub[j]));
                } else {
                    assert(sub.contains(sub[i]));
                }
            }
            if n.contains(key) {
                let k = choose|k: int| 0 <= k < n.len() && n[k] == key;
                if k < sub.len() {
                    assert(sub.contains(key));
                }
            }
        }
    }
}

/// Scratch slots are isolated: writing to one leaves every other slot as
/// it was, and the slot written to then holds the value at the key.
pub proof fn law_scratch_isolated(
    slots: Map<Seq<char>, ScratchSlotView>,
    name: Seq<char>,
    key: Seq<char>,
    value: Seq<char>,
    other: Seq<char>,
)
    requires
        other != name,
    ensures
        scratch_written(slots, name, key, value).contains_key(other) == slots.contains_key(other),
        slots.contains_key(other) ==> scratch_written(slots, name, key, value)[other] == slots[other],
        scratch_written(slots, name, key, value)[name].1[key] == value,
{
}

} // verus!
