//! Hybrid storage: per context, a flat map of canonical keys
//! (`namespace:path.to.key`) to values, beside a tree index of the
//! dot-separated paths that tells files from directories.

use vstd::prelude::*;
use crate::assoc::{keep_keys, lemma_keep_step, lemma_to_map_dom, lemma_to_map_last, lemma_to_map_update, to_map};
use crate::text::{
    append, insert_sorted, join, join_strings, lemma_sorted_list, owned, sorted_list, split_char, split_on,
    starts_with, str_eq, strictly_sorted, to_strings, trim_end_char, trim_end_matches, views,
};

verus! {

/// A node of the tree index: `None` is a directory, `Some(k)` a file that
/// points to canonical key `k`.
pub type NodeView = Option<Seq<char>>;

/// Where a node stands: its namespace and the parts of its path.
pub type NodeKey = (Seq<char>, Seq<Seq<char>>);

/// A tree index, as the map from node places to nodes.
pub type TreeView = Map<NodeKey, NodeView>;

/// One context's storage: flat values by canonical key, and the tree index.
pub type ContextView = (Map<Seq<char>, Seq<char>>, TreeView);

/// A node of the tree index: a directory, or a file that points to a
/// canonical key of the flat storage.
#[derive(Debug)]
pub enum TreeNode {
    /// A directory; its children are the nodes one level below its path.
    Directory,
    /// A file pointing to a canonical key.
    File(String),
}

impl View for TreeNode {
    type V = NodeView;

    open spec fn view(&self) -> NodeView {
        match self {
            TreeNode::Directory => None,
            TreeNode::File(k) => Some(k@),
        }
    }
}

impl Clone for TreeNode {
    fn clone(&self) -> (r: Self)
        ensures
            r@ == self@,
    {
        match self {
            TreeNode::Directory => TreeNode::Directory,
            TreeNode::File(k) => TreeNode::File(owned(k.as_str())),
        }
    }
}

impl TreeNode {
    /// A new directory.
    pub fn new_directory() -> (n: Self)
        ensures
            n@ == None::<Seq<char>>,
    {
        TreeNode::Directory
    }

    /// A new file pointing to a canonical key.
    pub fn new_file(canonical_key: &str) -> (n: Self)
        ensures
            n@ == Some(canonical_key@),
    {
        TreeNode::File(owned(canonical_key))
    }

    /// Whether the node is a directory.
    pub fn is_directory(&self) -> (r: bool)
        ensures
            r == (self@ is None),
    {
        match self {
            TreeNode::Directory => true,
            TreeNode::File(_) => false,
        }
    }

    /// Whether the node is a file.
    pub fn is_file(&self) -> (r: bool)
        ensures
            r == (self@ is Some),
    {
        match self {
            TreeNode::Directory => false,
            TreeNode::File(_) => true,
        }
    }

    /// The canonical key of a file.
    pub fn canonical_key(&self) -> (r: Option<&str>)
        ensures
            match self@ {
                Some(k) => r matches Some(s) && s@ == k,
                None => r is None,
            },
    {
        match self {
            TreeNode::File(k) => Some(k.as_str()),
            TreeNode::Directory => None,
        }
    }
}

#[derive(Debug)]
struct TreeEntry {
    namespace: String,
    path: Vec<String>,
    node: TreeNode,
}

spec fn entry_view(e: TreeEntry) -> (NodeKey, NodeView) {
    ((e.namespace@, views(e.path@)), e.node@)
}

spec fn entries_view(s: Seq<TreeEntry>) -> Seq<(NodeKey, NodeView)> {
    s.map_values(|e: TreeEntry| entry_view(e))
}

/// The (key, value) views of a list of string pairs.
pub open spec fn pairs_view(s: Seq<(String, String)>) -> Seq<(Seq<char>, Seq<char>)> {
    s.map_values(|p: (String, String)| (p.0@, p.1@))
}

/// The canonical key of a namespace and key: `namespace:key`.
pub open spec fn canonical(ns: Seq<char>, key: Seq<char>) -> Seq<char> {
    ns + ":"@ + key
}

/// The parts of a dot-separated path.
pub open spec fn path_of(key: Seq<char>) -> Seq<Seq<char>> {
    split_on(key, '.')
}

/// The place of a namespace's root directory.
pub open spec fn root_key(ns: Seq<char>) -> NodeKey {
    (ns, Seq::empty())
}

/// `p` is a prefix of path `q` (or `q` itself).
pub open spec fn is_path_prefix(p: Seq<Seq<char>>, q: Seq<Seq<char>>) -> bool {
    p.len() <= q.len() && q.take(p.len() as int) == p
}

/// The tree without the node at `p` and everything below it.
pub open spec fn remove_subtree(t: TreeView, ns: Seq<char>, p: Seq<Seq<char>>) -> TreeView {
    keep_keys(t, |k: NodeKey| !(k.0 == ns && is_path_prefix(p, k.1)))
}

/// A file stands at `k`.
pub open spec fn is_file_node(t: TreeView, k: NodeKey) -> bool {
    t.contains_key(k) && t[k] is Some
}

/// The length of the first proper prefix of `parts`, from length `k` on,
/// at which a file stands.
pub open spec fn first_file_from(t: TreeView, ns: Seq<char>, parts: Seq<Seq<char>>, k: int) -> Option<
    int,
>
    decreases parts.len() - k,
{
    if k < 1 || k >= parts.len() {
        None
    } else if is_file_node(t, (ns, parts.take(k))) {
        Some(k)
    } else {
        first_file_from(t, ns, parts, k + 1)
    }
}

/// The tree with a directory at each missing prefix of `parts` shorter than
/// `upto`.
pub open spec fn add_dirs(t: TreeView, ns: Seq<char>, parts: Seq<Seq<char>>, upto: int) -> TreeView {
    Map::new(
        |k: NodeKey|
            t.contains_key(k) || (k.0 == ns && 1 <= k.1.len() < upto && k.1 == parts.take(
                k.1.len() as int,
            )),
        |k: NodeKey|
            if t.contains_key(k) {
                t[k]
            } else {
                None
            },
    )
}

/// The tree with a root directory for `ns`.
pub open spec fn with_root(t: TreeView, ns: Seq<char>) -> TreeView {
    if t.contains_key(root_key(ns)) {
        t
    } else {
        t.insert(root_key(ns), None)
    }
}

/// The tree index after storing `key` of `ns` under canonical key `ck`:
/// directories are made along the path down to the first file met; where
/// none is met, the file replaces what stood at the path.
pub open spec fn tree_set(t: TreeView, ns: Seq<char>, key: Seq<char>, ck: Seq<char>) -> TreeView {
    let t1 = with_root(t, ns);
    let parts = path_of(key);
    match first_file_from(t1, ns, parts, 1) {
        Some(f) => add_dirs(t1, ns, parts, f),
        None => remove_subtree(add_dirs(t1, ns, parts, parts.len() as int), ns, parts).insert(
            (ns, parts),
            Some(ck),
        ),
    }
}

/// A node stands one level below `p`.
pub open spec fn has_children(t: TreeView, ns: Seq<char>, p: Seq<Seq<char>>) -> bool {
    exists|k: NodeKey|
        #![trigger t.contains_key(k)]
        t.contains_key(k) && k.0 == ns && k.1.len() == p.len() + 1 && k.1.take(p.len() as int) == p
}

/// The tree without the childless directories along `parts`, from the
/// prefix of length `k` upwards, up to the first one with children.
pub open spec fn prune(t: TreeView, ns: Seq<char>, parts: Seq<Seq<char>>, k: int) -> TreeView
    decreases k,
{
    if k < 1 {
        t
    } else if has_children(t, ns, parts.take(k)) {
        t
    } else {
        prune(t.remove((ns, parts.take(k))), ns, parts, k - 1)
    }
}

/// Every prefix of `parts` from length 1 up to `k` (exclusive) is a
/// directory.
pub open spec fn dirs_upto(t: TreeView, ns: Seq<char>, parts: Seq<Seq<char>>, k: int) -> bool {
    forall|j: int|
        1 <= j < k ==> #[trigger] t.contains_key((ns, parts.take(j))) && t[(ns, parts.take(j))] is None
}

/// Every proper prefix of `parts` is a directory.
pub open spec fn dirs_along(t: TreeView, ns: Seq<char>, parts: Seq<Seq<char>>) -> bool {
    forall|k: int|
        1 <= k < parts.len() ==> #[trigger] t.contains_key((ns, parts.take(k))) && t[(
            ns,
            parts.take(k),
        )] is None
}

/// The tree index after removing `key` of `ns`: the node at its path goes,
/// with everything below it, and so do the directories left empty above it.
pub open spec fn tree_remove(t: TreeView, ns: Seq<char>, key: Seq<char>) -> TreeView {
    let parts = path_of(key);
    if t.contains_key(root_key(ns)) && dirs_along(t, ns, parts) && t.contains_key((ns, parts)) {
        prune(remove_subtree(t, ns, parts), ns, parts, parts.len() - 1)
    } else {
        t
    }
}

/// A directory is reached at `path` of `ns`.
pub open spec fn reach_dir(t: TreeView, ns: Seq<char>, path: Seq<char>) -> bool {
    if path.len() == 0 {
        t.contains_key(root_key(ns)) && t[root_key(ns)] is None
    } else {
        let parts = path_of(path);
        &&& t.contains_key(root_key(ns))
        &&& t[root_key(ns)] is None
        &&& dirs_along(t, ns, parts)
        &&& t.contains_key((ns, parts))
        &&& t[(ns, parts)] is None
    }
}

/// The key of a directory's default value: `path.index`, or `index` at the
/// root.
pub open spec fn index_key(path: Seq<char>) -> Seq<char> {
    if path.len() == 0 {
        "index"@
    } else {
        path + ".index"@
    }
}

/// The canonical-key prefix that `find_keys` matches.
pub open spec fn key_prefix(ns: Seq<char>, pattern: Seq<char>) -> Seq<char> {
    ns + ":"@ + trim_end_char(pattern, '*')
}

/// The keys (after `namespace:`) whose canonical key starts with the
/// prefix of `pattern`.
pub open spec fn found_keys(flat: Map<Seq<char>, Seq<char>>, ns: Seq<char>, pattern: Seq<char>) -> Set<
    Seq<char>,
> {
    Set::new(
        |x: Seq<char>|
            exists|ck: Seq<char>|
                #![trigger flat.contains_key(ck)]
                flat.contains_key(ck) && key_prefix(ns, pattern).is_prefix_of(ck) && x == ck.skip(
                    ns.len() + 1 as int,
                ),
    )
}

/// The namespaces that have a root in a tree.
pub open spec fn tree_namespaces(t: TreeView) -> Set<Seq<char>> {
    Set::new(|n: Seq<char>| t.contains_key(root_key(n)))
}

/// The flat map without the keys of `ns`.
pub open spec fn drop_namespace_keys(flat: Map<Seq<char>, Seq<char>>, ns: Seq<char>) -> Map<
    Seq<char>,
    Seq<char>,
> {
    keep_keys(flat, |k: Seq<char>| !(ns + ":"@).is_prefix_of(k))
}

/// The tree without the nodes of `ns`.
pub open spec fn drop_namespace_nodes(t: TreeView, ns: Seq<char>) -> TreeView {
    keep_keys(t, |k: NodeKey| k.0 != ns)
}

/// Hybrid storage for one context: flat values by canonical key, and the
/// tree index of their paths.
#[derive(Debug)]
pub struct ContextStorage {
    flat_data: Vec<(String, String)>,
    tree_index: Vec<TreeEntry>,
}

impl View for ContextStorage {
    type V = ContextView;

    closed spec fn view(&self) -> ContextView {
        (to_map(pairs_view(self.flat_data@)), to_map(entries_view(self.tree_index@)))
    }
}

/// Whether two lists of strings are equal.
pub fn strings_eq(a: &Vec<String>, b: &Vec<String>) -> (r: bool)
    ensures
        r == (views(a@) == views(b@)),
{
    if a.len() != b.len() {
        return false;
    }
    let mut i: usize = 0;
    while i < a.len()
        invariant
            i <= a@.len(),
            a@.len() == b@.len(),
            forall|j: int| 0 <= j < i ==> a@[j]@ == b@[j]@,
        decreases a@.len() - i,
    {
        if !str_eq(a[i].as_str(), b[i].as_str()) {
            assert(views(a@)[i as int] != views(b@)[i as int]);
            return false;
        }
        i += 1;
    }
    assert(views(a@) =~= views(b@));
    true
}

/// Whether `p` is a prefix of `q`.
fn path_prefix(p: &Vec<String>, q: &Vec<String>) -> (r: bool)
    ensures
        r == is_path_prefix(views(p@), views(q@)),
{
    if p.len() > q.len() {
        return false;
    }
    let mut i: usize = 0;
    while i < p.len()
        invariant
            i <= p@.len(),
            p@.len() <= q@.len(),
            forall|j: int| 0 <= j < i ==> p@[j]@ == q@[j]@,
        decreases p@.len() - i,
    {
        if !str_eq(p[i].as_str(), q[i].as_str()) {
            assert(views(q@).take(p@.len() as int)[i as int] != views(p@)[i as int]);
            return false;
        }
        i += 1;
    }
    assert(views(q@).take(p@.len() as int) =~= views(p@));
    true
}

/// The first `k` strings of a list.
fn take_strings(v: &Vec<String>, k: usize) -> (r: Vec<String>)
    requires
        k <= v@.len(),
    ensures
        views(r@) == views(v@).take(k as int),
{
    let mut out: Vec<String> = Vec::new();
    let mut i: usize = 0;
    while i < k
        invariant
            i <= k,
            k <= v@.len(),
            out@.len() == i,
            forall|j: int| 0 <= j < i ==> (#[trigger] out@[j])@ == v@[j]@,
        decreases k - i,
    {
        out.push(owned(v[i].as_str()));
        i += 1;
    }
    assert(views(out@) =~= views(v@).take(k as int));
    out
}

/// The canonical key `namespace:key`.
fn canonical_key(namespace: &str, key: &str) -> (r: String)
    ensures
        r@ == canonical(namespace@, key@),
{
    let mut ck = owned(namespace);
    append(&mut ck, ":");
    append(&mut ck, key);
    ck
}

/// The key of a directory's default value.
fn default_key(path: &str) -> (r: String)
    ensures
        r@ == index_key(path@),
{
    if path.unicode_len() == 0 {
        owned("index")
    } else {
        let mut k = owned(path);
        append(&mut k, ".index");
        k
    }
}

proof fn lemma_push_map<K, V>(s: Seq<(K, V)>, k: K, v: V)
    ensures
        to_map(s.push((k, v))) == to_map(s).insert(k, v),
{
    assert(s.push((k, v)).drop_last() =~= s);
}

impl ContextStorage {
    /// An empty storage.
    pub fn new() -> (c: Self)
        ensures
            c@.0 == Map::<Seq<char>, Seq<char>>::empty(),
            c@.1 == Map::<NodeKey, NodeView>::empty(),
    {
        let c = ContextStorage { flat_data: Vec::new(), tree_index: Vec::new() };
        assert(pairs_view(c.flat_data@) =~= Seq::empty());
        assert(entries_view(c.tree_index@) =~= Seq::empty());
        c
    }

    /// The index of the last flat pair with key `ck`.
    fn find_flat(&self, ck: &str) -> (r: Option<usize>)
        ensures
            match r {
                Some(i) => i < self.flat_data@.len() && pairs_view(self.flat_data@)[i as int].0 == ck@
                    && forall|j: int|
                    i < j < self.flat_data@.len() ==> (#[trigger] pairs_view(self.flat_data@)[j]).0
                        != ck@,
                None => forall|j: int|
                    0 <= j < self.flat_data@.len() ==> (#[trigger] pairs_view(self.flat_data@)[j]).0
                        != ck@,
            },
    {
        let ghost pv = pairs_view(self.flat_data@);
        let mut i: usize = self.flat_data.len();
        while i > 0
            invariant
                i <= self.flat_data@.len(),
                pv == pairs_view(self.flat_data@),
                forall|j: int| i <= j < self.flat_data@.len() ==> (#[trigger] pv[j]).0 != ck@,
            decreases i,
        {
            if str_eq(self.flat_data[i - 1].0.as_str(), ck) {
                return Some(i - 1);
            }
            i -= 1;
        }
        None
    }

    /// The value at a canonical key.
    fn flat_get(&self, ck: &str) -> (r: Option<&str>)
        ensures
            match r {
                Some(v) => self@.0.contains_key(ck@) && self@.0[ck@] == v@,
                None => !self@.0.contains_key(ck@),
            },
    {
        let ghost pv = pairs_view(self.flat_data@);
        match self.find_flat(ck) {
            Some(i) => {
                proof {
                    lemma_to_map_last(pv, i as int);
                }
                Some(self.flat_data[i].1.as_str())
            },
            None => {
                proof {
                    lemma_to_map_dom(pv, ck@);
                }
                None
            },
        }
    }

    /// The index of the last tree entry at (namespace, path).
    fn find_node(&self, namespace: &str, path: &Vec<String>) -> (r: Option<usize>)
        ensures
            match r {
                Some(i) => i < self.tree_index@.len() && entries_view(self.tree_index@)[i as int].0
                    == (namespace@, views(path@)) && forall|j: int|
                    i < j < self.tree_index@.len() ==> (#[trigger] entries_view(
                        self.tree_index@,
                    )[j]).0 != (namespace@, views(path@)),
                None => forall|j: int|
                    0 <= j < self.tree_index@.len() ==> (#[trigger] entries_view(
                        self.tree_index@,
                    )[j]).0 != (namespace@, views(path@)),
            },
    {
        let ghost ev = entries_view(self.tree_index@);
        let mut i: usize = self.tree_index.len();
        while i > 0
            invariant
                i <= self.tree_index@.len(),
                ev == entries_view(self.tree_index@),
                forall|j: int|
                    i <= j < self.tree_index@.len() ==> (#[trigger] ev[j]).0 != (
                        namespace@,
                        views(path@),
                    ),
            decreases i,
        {
            let e = &self.tree_index[i - 1];
            if str_eq(e.namespace.as_str(), namespace) && strings_eq(&e.path, path) {
                return Some(i - 1);
            }
            i -= 1;
        }
        None
    }

    /// The node at (namespace, path), if any: `Some(true)` for a directory,
    /// `Some(false)` for a file.
    fn node_is_dir(&self, namespace: &str, path: &Vec<String>) -> (r: Option<bool>)
        ensures
            match r {
                Some(d) => self@.1.contains_key((namespace@, views(path@))) && d == (self@.1[(
                    namespace@,
                    views(path@),
                )] is None),
                None => !self@.1.contains_key((namespace@, views(path@))),
            },
    {
        let ghost ev = entries_view(self.tree_index@);
        match self.find_node(namespace, path) {
            Some(i) => {
                proof {
                    lemma_to_map_last(ev, i as int);
                }
                Some(self.tree_index[i].node.is_directory())
            },
            None => {
                proof {
                    lemma_to_map_dom(ev, (namespace@, views(path@)));
                }
                None
            },
        }
    }

    /// Store a value, updating the flat storage and the tree index.
    pub fn set(&mut self, namespace: &str, key: &str, value: &str)
        ensures
            final(self)@.0 == old(self)@.0.insert(canonical(namespace@, key@), value@),
            final(self)@.1 == tree_set(old(self)@.1, namespace@, key@, canonical(namespace@, key@)),
    {
        let ck = canonical_key(namespace, key);
        self.flat_put(ck.as_str(), value);
        self.update_tree_index(namespace, key, ck.as_str());
    }

    fn flat_put(&mut self, ck: &str, value: &str)
        ensures
            final(self)@.0 == old(self)@.0.insert(ck@, value@),
            final(self)@.1 == old(self)@.1,
            final(self).tree_index == old(self).tree_index,
    {
        let ghost pv = pairs_view(self.flat_data@);
        match self.find_flat(ck) {
            Some(i) => {
                let _ = self.flat_data.remove(i);
                self.flat_data.insert(i, (owned(ck), owned(value)));
                proof {
                    assert(pairs_view(self.flat_data@) =~= pv.update(i as int, (pv[i as int].0, value@)));
                    lemma_to_map_update(pv, i as int, value@);
                }
            },
            None => {
                self.flat_data.push((owned(ck), owned(value)));
                proof {
                    assert(pairs_view(self.flat_data@) =~= pv.push((ck@, value@)));
                    lemma_push_map(pv, ck@, value@);
                }
            },
        }
    }

    /// The value of a key in a namespace.
    pub fn get(&self, namespace: &str, key: &str) -> (r: Option<&str>)
        ensures
            match r {
                Some(v) => self@.0.contains_key(canonical(namespace@, key@)) && self@.0[canonical(
                    namespace@,
                    key@,
                )] == v@,
                None => !self@.0.contains_key(canonical(namespace@, key@)),
            },
    {
        let ck = canonical_key(namespace, key);
        self.flat_get(ck.as_str())
    }

    /// Whether a value is stored at the key.
    pub fn is_file(&self, namespace: &str, key: &str) -> (r: bool)
        ensures
            r == self@.0.contains_key(canonical(namespace@, key@)),
    {
        self.get(namespace, key).is_some()
    }

    /// Whether the path leads to a directory of the tree index.
    pub fn is_directory(&self, namespace: &str, path: &str) -> (r: bool)
        ensures
            r == reach_dir(self@.1, namespace@, path@),
    {
        let root: Vec<String> = Vec::new();
        assert(views(root@) =~= Seq::<Seq<char>>::empty());
        match self.node_is_dir(namespace, &root) {
            Some(true) => {},
            _ => {
                return false;
            },
        }
        if path.unicode_len() == 0 {
            return true;
        }
        self.traverse_path(namespace, path)
    }

    /// Whether the parts of `path` lead, through directories, to a directory.
    fn traverse_path(&self, namespace: &str, path: &str) -> (r: bool)
        requires
            path@.len() > 0,
            self@.1.contains_key(root_key(namespace@)),
            self@.1[root_key(namespace@)] is None,
        ensures
            r == reach_dir(self@.1, namespace@, path@),
    {
        let parts = to_strings(&split_char(path, '.'));
        let ghost ps = views(parts@);
        proof {
            crate::text::lemma_split_on_len(path@, '.');
        }
        let n = parts.len();
        let mut k: usize = 1;
        while k < n
            invariant
                1 <= k <= n,
                n == ps.len(),
                ps == views(parts@),
                ps == path_of(path@),
                dirs_upto(self@.1, namespace@, ps, k as int),
            decreases n - k,
        {
            let prefix = take_strings(&parts, k);
            match self.node_is_dir(namespace, &prefix) {
                Some(true) => {},
                _ => {
                    assert(!(self@.1.contains_key((namespace@, ps.take(k as int))) && self@.1[(
                        namespace@,
                        ps.take(k as int),
                    )] is None));
                    return false;
                },
            }
            assert(dirs_upto(self@.1, namespace@, ps, k + 1)) by {
                assert(self@.1.contains_key((namespace@, ps.take(k as int))) && self@.1[(
                    namespace@,
                    ps.take(k as int),
                )] is None);
            }
            k += 1;
        }
        assert(dirs_along(self@.1, namespace@, ps)) by {
            assert(dirs_upto(self@.1, namespace@, ps, n as int));
        }
        match self.node_is_dir(namespace, &parts) {
            Some(d) => d,
            None => false,
        }
    }

    /// Whether the directory has a default value (`path.index`).
    pub fn has_default(&self, namespace: &str, path: &str) -> (r: bool)
        ensures
            r == self@.0.contains_key(canonical(namespace@, index_key(path@))),
    {
        let k = default_key(path);
        self.is_file(namespace, k.as_str())
    }

    /// The default value of a directory (`path.index`).
    pub fn get_default(&self, namespace: &str, path: &str) -> (r: Option<&str>)
        ensures
            match r {
                Some(v) => self@.0.contains_key(canonical(namespace@, index_key(path@)))
                    && self@.0[canonical(namespace@, index_key(path@))] == v@,
                None => !self@.0.contains_key(canonical(namespace@, index_key(path@))),
            },
    {
        let k = default_key(path);
        self.get(namespace, k.as_str())
    }

    /// The keys of a namespace that start with `pattern` (a trailing `*` is
    /// ignored), sorted.
    pub fn find_keys(&self, namespace: &str, pattern: &str) -> (r: Vec<String>)
        ensures
            views(r@) == sorted_list(found_keys(self@.0, namespace@, pattern@)),
            strictly_sorted(views(r@)),
            views(r@).to_set() == found_keys(self@.0, namespace@, pattern@),
    {
        let mut prefix = canonical_key(namespace, trim_end_matches(pattern, '*'));
        let ghost pv = pairs_view(self.flat_data@);
        let ghost flat = self@.0;
        let mut results: Vec<String> = Vec::new();
        let mut i: usize = 0;
        while i < self.flat_data.len()
            invariant
                i <= self.flat_data@.len(),
                pv == pairs_view(self.flat_data@),
                flat == to_map(pv),
                prefix@ == key_prefix(namespace@, pattern@),
                strictly_sorted(views(results@)),
                views(results@).to_set() == Set::new(
                    |x: Seq<char>|
                        exists|j: int|
                            0 <= j < i && key_prefix(namespace@, pattern@).is_prefix_of(
                                #[trigger] pv[j].0,
                            ) && x == pv[j].0.skip(namespace@.len() + 1 as int),
                ),
            decreases self.flat_data@.len() - i,
        {
            let ck = self.flat_data[i].0.as_str();
            let ghost before = views(results@).to_set();
            if starts_with(ck, prefix.as_str()) {
                proof {
                    reveal_strlit(":");
                    assert(prefix@.len() >= namespace@.len() + 1);
                }
                let m = ck.unicode_len();
                let cut = namespace.unicode_len() + 1;
                let part = owned(ck.substring_char(cut, m));
                assert(part@ =~= pv[i as int].0.skip(namespace@.len() + 1 as int));
                insert_sorted(&mut results, part);
            }
            assert(views(results@).to_set() =~= Set::new(
                |x: Seq<char>|
                    exists|j: int|
                        0 <= j < i + 1 && key_prefix(namespace@, pattern@).is_prefix_of(
                            #[trigger] pv[j].0,
                        ) && x == pv[j].0.skip(namespace@.len() + 1 as int),
            )) by {
                assert forall|x: Seq<char>|
                    (exists|j: int|
                        0 <= j < i + 1 && key_prefix(namespace@, pattern@).is_prefix_of(
                            #[trigger] pv[j].0,
                        ) && x == pv[j].0.skip(namespace@.len() + 1 as int)) implies views(results@).to_set().contains(
                    x,
                ) by {
                    let j = choose|j: int|
                        0 <= j < i + 1 && key_prefix(namespace@, pattern@).is_prefix_of(
                            #[trigger] pv[j].0,
                        ) && x == pv[j].0.skip(namespace@.len() + 1 as int);
                    if j < i {
                        assert(before.contains(x));
                    }
                }
            }
            i += 1;
        }
        assert(views(results@).to_set() =~= found_keys(flat, namespace@, pattern@)) by {
            assert forall|x: Seq<char>| found_keys(flat, namespace@, pattern@).contains(x) implies views(
                results@,
            ).to_set().contains(x) by {
                let ck = choose|ck: Seq<char>|
                    #![trigger flat.contains_key(ck)]
                    flat.contains_key(ck) && key_prefix(namespace@, pattern@).is_prefix_of(ck) && x
                        == ck.skip(namespace@.len() + 1 as int);
                lemma_to_map_dom(pv, ck);
                let j = choose|j: int| 0 <= j < pv.len() && (#[trigger] pv[j]).0 == ck;
                assert(key_prefix(namespace@, pattern@).is_prefix_of(pv[j].0));
            }
            assert forall|x: Seq<char>| views(results@).to_set().contains(x) implies found_keys(
                flat,
                namespace@,
                pattern@,
            ).contains(x) by {
                let j = choose|j: int|
                    0 <= j < i && key_prefix(namespace@, pattern@).is_prefix_of(#[trigger] pv[j].0)
                        && x == pv[j].0.skip(namespace@.len() + 1 as int);
                lemma_to_map_dom(pv, pv[j].0);
                assert(flat.contains_key(pv[j].0));
            }
        }
        proof {
            lemma_sorted_list(views(results@));
        }
        results
    }

    /// The namespaces of the tree index, sorted.
    pub fn namespaces(&self) -> (r: Vec<String>)
        ensures
            views(r@) == sorted_list(tree_namespaces(self@.1)),
            strictly_sorted(views(r@)),
    {
        let ghost ev = entries_view(self.tree_index@);
        let ghost t = self@.1;
        let mut out: Vec<String> = Vec::new();
        let mut i: usize = 0;
        while i < self.tree_index.len()
            invariant
                i <= self.tree_index@.len(),
                ev == entries_view(self.tree_index@),
                t == to_map(ev),
                strictly_sorted(views(out@)),
                views(out@).to_set() == Set::new(
                    |n: Seq<char>|
                        exists|j: int| 0 <= j < i && (#[trigger] ev[j]).0 == root_key(n),
                ),
            decreases self.tree_index@.len() - i,
        {
            let e = &self.tree_index[i];
            let ghost before = views(out@).to_set();
            if e.path.len() == 0 {
                assert(views(e.path@) =~= Seq::<Seq<char>>::empty());
                insert_sorted(&mut out, owned(e.namespace.as_str()));
            }
            assert(views(out@).to_set() =~= Set::new(
                |n: Seq<char>| exists|j: int| 0 <= j < i + 1 && (#[trigger] ev[j]).0 == root_key(n),
            )) by {
                assert forall|n: Seq<char>|
                    (exists|j: int|
                        0 <= j < i + 1 && (#[trigger] ev[j]).0 == root_key(n)) implies views(
                    out@,
                ).to_set().contains(n) by {
                    let j = choose|j: int| 0 <= j < i + 1 && (#[trigger] ev[j]).0 == root_key(n);
                    if j < i {
                        assert(before.contains(n));
                    }
                }
                assert forall|n: Seq<char>| views(out@).to_set().contains(n) implies (exists|j: int|
                    0 <= j < i + 1 && (#[trigger] ev[j]).0 == root_key(n)) by {
                    if !before.contains(n) {
                        assert(ev[i as int].0 == root_key(n));
                    }
                }
            }
            i += 1;
        }
        assert(views(out@).to_set() =~= tree_namespaces(t)) by {
            assert forall|n: Seq<char>| tree_namespaces(t).contains(n) implies views(
                out@,
            ).to_set().contains(n) by {
                lemma_to_map_dom(ev, root_key(n));
            }
            assert forall|n: Seq<char>| views(out@).to_set().contains(n) implies tree_namespaces(
                t,
            ).contains(n) by {
                lemma_to_map_dom(ev, root_key(n));
            }
        }
        proof {
            lemma_sorted_list(views(out@));
        }
        out
    }

    /// Delete a key; says whether it was stored.
    pub fn delete_key(&mut self, namespace: &str, key: &str) -> (r: bool)
        ensures
            r == old(self)@.0.contains_key(canonical(namespace@, key@)),
            r ==> final(self)@.0 == old(self)@.0.remove(canonical(namespace@, key@)),
            r ==> final(self)@.1 == tree_remove(old(self)@.1, namespace@, key@),
            !r ==> final(self)@ == old(self)@,
    {
        let ck = canonical_key(namespace, key);
        if self.flat_get(ck.as_str()).is_none() {
            return false;
        }
        self.flat_remove(ck.as_str());
        self.remove_from_tree_index(namespace, key);
        true
    }

    fn flat_remove(&mut self, ck: &str)
        ensures
            final(self)@.0 == old(self)@.0.remove(ck@),
            final(self).tree_index == old(self).tree_index,
    {
        let ghost pv = pairs_view(self.flat_data@);
        let ghost keep = |k: Seq<char>| k != ck@;
        let mut out: Vec<(String, String)> = Vec::new();
        let mut i: usize = 0;
        assert(pairs_view(out@) =~= Seq::empty());
        assert(keep_keys(to_map(pv.take(0)), keep) =~= Map::empty()) by {
            assert(pv.take(0) =~= Seq::empty());
        }
        while i < self.flat_data.len()
            invariant
                i <= self.flat_data@.len(),
                pv == pairs_view(self.flat_data@),
                forall|k: Seq<char>| #[trigger] keep(k) == (k != ck@),
                to_map(pairs_view(out@)) == keep_keys(to_map(pv.take(i as int)), keep),
            decreases self.flat_data@.len() - i,
        {
            proof {
                lemma_keep_step(pv, i as int, keep);
            }
            assert(pv[i as int] == (self.flat_data@[i as int].0@, self.flat_data@[i as int].1@));
            if !str_eq(self.flat_data[i].0.as_str(), ck) {
                let ghost before = pairs_view(out@);
                out.push((owned(self.flat_data[i].0.as_str()), owned(self.flat_data[i].1.as_str())));
                proof {
                    assert(pairs_view(out@) =~= before.push(pv[i as int]));
                    lemma_push_map(before, pv[i as int].0, pv[i as int].1);
                }
            }
            i += 1;
        }
        assert(pv.take(i as int) =~= pv);
        assert(keep_keys(to_map(pv), keep) =~= to_map(pv).remove(ck@));
        self.flat_data = out;
    }

    /// Delete a namespace's values and tree; says whether the tree held it.
    pub fn delete_namespace(&mut self, namespace: &str) -> (r: bool)
        ensures
            r == old(self)@.1.contains_key(root_key(namespace@)),
            final(self)@.0 == drop_namespace_keys(old(self)@.0, namespace@),
            final(self)@.1 == drop_namespace_nodes(old(self)@.1, namespace@),
    {
        let root: Vec<String> = Vec::new();
        assert(views(root@) =~= Seq::<Seq<char>>::empty());
        let had = self.node_is_dir(namespace, &root).is_some();
        let mut prefix = owned(namespace);
        append(&mut prefix, ":");
        let ghost pv = pairs_view(self.flat_data@);
        let ghost keep = |k: Seq<char>| !(namespace@ + ":"@).is_prefix_of(k);
        let mut out: Vec<(String, String)> = Vec::new();
        let mut i: usize = 0;
        assert(keep_keys(to_map(pv.take(0)), keep) =~= to_map(pairs_view(out@))) by {
            assert(pv.take(0) =~= Seq::empty());
            assert(pairs_view(out@) =~= Seq::empty());
        }
        while i < self.flat_data.len()
            invariant
                i <= self.flat_data@.len(),
                pv == pairs_view(self.flat_data@),
                prefix@ == namespace@ + ":"@,
                forall|k: Seq<char>| #[trigger] keep(k) == !(namespace@ + ":"@).is_prefix_of(k),
                to_map(pairs_view(out@)) == keep_keys(to_map(pv.take(i as int)), keep),
            decreases self.flat_data@.len() - i,
        {
            proof {
                lemma_keep_step(pv, i as int, keep);
            }
            assert(pv[i as int] == (self.flat_data@[i as int].0@, self.flat_data@[i as int].1@));
            if !starts_with(self.flat_data[i].0.as_str(), prefix.as_str()) {
                let ghost before = pairs_view(out@);
                out.push((owned(self.flat_data[i].0.as_str()), owned(self.flat_data[i].1.as_str())));
                proof {
                    assert(pairs_view(out@) =~= before.push(pv[i as int]));
                    lemma_push_map(before, pv[i as int].0, pv[i as int].1);
                }
            }
            i += 1;
        }
        assert(pv.take(i as int) =~= pv);
        self.flat_data = out;
        self.drop_nodes_of(namespace);
        had
    }

    fn drop_nodes_of(&mut self, namespace: &str)
        ensures
            final(self)@.1 == drop_namespace_nodes(old(self)@.1, namespace@),
            final(self).flat_data == old(self).flat_data,
    {
        let ghost ev = entries_view(self.tree_index@);
        let ghost keep = |k: NodeKey| k.0 != namespace@;
        let mut out: Vec<TreeEntry> = Vec::new();
        let mut i: usize = 0;
        assert(keep_keys(to_map(ev.take(0)), keep) =~= to_map(entries_view(out@))) by {
            assert(ev.take(0) =~= Seq::empty());
            assert(entries_view(out@) =~= Seq::empty());
        }
        while i < self.tree_index.len()
            invariant
                i <= self.tree_index@.len(),
                ev == entries_view(self.tree_index@),
                forall|k: NodeKey| #[trigger] keep(k) == (k.0 != namespace@),
                to_map(entries_view(out@)) == keep_keys(to_map(ev.take(i as int)), keep),
            decreases self.tree_index@.len() - i,
        {
            proof {
                lemma_keep_step(ev, i as int, keep);
            }
            assert(ev[i as int] == entry_view(self.tree_index@[i as int]));
            if !str_eq(self.tree_index[i].namespace.as_str(), namespace) {
                let ghost before = entries_view(out@);
                out.push(self.tree_index[i].copy());
                proof {
                    assert(entries_view(out@) =~= before.push(ev[i as int]));
                    lemma_push_map(before, ev[i as int].0, ev[i as int].1);
                }
            }
            i += 1;
        }
        assert(ev.take(i as int) =~= ev);
        self.tree_index = out;
    }

    /// Drop the node at (namespace, path) and every node below it.
    fn drop_subtree(&mut self, namespace: &str, path: &Vec<String>)
        ensures
            final(self)@.1 == remove_subtree(old(self)@.1, namespace@, views(path@)),
            final(self).flat_data == old(self).flat_data,
    {
        let ghost ev = entries_view(self.tree_index@);
        let ghost keep = |k: NodeKey| !(k.0 == namespace@ && is_path_prefix(views(path@), k.1));
        let mut out: Vec<TreeEntry> = Vec::new();
        let mut i: usize = 0;
        assert(keep_keys(to_map(ev.take(0)), keep) =~= to_map(entries_view(out@))) by {
            assert(ev.take(0) =~= Seq::empty());
            assert(entries_view(out@) =~= Seq::empty());
        }
        while i < self.tree_index.len()
            invariant
                i <= self.tree_index@.len(),
                ev == entries_view(self.tree_index@),
                forall|k: NodeKey|
                    #[trigger] keep(k) == !(k.0 == namespace@ && is_path_prefix(views(path@), k.1)),
                to_map(entries_view(out@)) == keep_keys(to_map(ev.take(i as int)), keep),
            decreases self.tree_index@.len() - i,
        {
            proof {
                lemma_keep_step(ev, i as int, keep);
            }
            assert(ev[i as int] == entry_view(self.tree_index@[i as int]));
            let e = &self.tree_index[i];
            if !(str_eq(e.namespace.as_str(), namespace) && path_prefix(path, &e.path)) {
                let ghost before = entries_view(out@);
                out.push(e.copy());
                proof {
                    assert(entries_view(out@) =~= before.push(ev[i as int]));
                    lemma_push_map(before, ev[i as int].0, ev[i as int].1);
                }
            }
            i += 1;
        }
        assert(ev.take(i as int) =~= ev);
        self.tree_index = out;
    }

    /// The tree without the node at exactly (namespace, path).
    fn drop_node(&mut self, namespace: &str, path: &Vec<String>)
        ensures
            final(self)@.1 == old(self)@.1.remove((namespace@, views(path@))),
            final(self).flat_data == old(self).flat_data,
    {
        let ghost ev = entries_view(self.tree_index@);
        let ghost key = (namespace@, views(path@));
        let ghost keep = |k: NodeKey| k != key;
        let mut out: Vec<TreeEntry> = Vec::new();
        let mut i: usize = 0;
        assert(keep_keys(to_map(ev.take(0)), keep) =~= to_map(entries_view(out@))) by {
            assert(ev.take(0) =~= Seq::empty());
            assert(entries_view(out@) =~= Seq::empty());
        }
        while i < self.tree_index.len()
            invariant
                i <= self.tree_index@.len(),
                ev == entries_view(self.tree_index@),
                key == (namespace@, views(path@)),
                forall|k: NodeKey| #[trigger] keep(k) == (k != key),
                to_map(entries_view(out@)) == keep_keys(to_map(ev.take(i as int)), keep),
            decreases self.tree_index@.len() - i,
        {
            proof {
                lemma_keep_step(ev, i as int, keep);
            }
            assert(ev[i as int] == entry_view(self.tree_index@[i as int]));
            let e = &self.tree_index[i];
            if !(str_eq(e.namespace.as_str(), namespace) && strings_eq(&e.path, path)) {
                let ghost before = entries_view(out@);
                out.push(e.copy());
                proof {
                    assert(entries_view(out@) =~= before.push(ev[i as int]));
                    lemma_push_map(before, ev[i as int].0, ev[i as int].1);
                }
            }
            i += 1;
        }
        assert(ev.take(i as int) =~= ev);
        assert(keep_keys(to_map(ev), keep) =~= to_map(ev).remove(key));
        self.tree_index = out;
    }

    /// Add a tree node at (namespace, path).
    fn put_node(&mut self, namespace: &str, path: Vec<String>, node: TreeNode)
        ensures
            final(self)@.1 == old(self)@.1.insert((namespace@, views(path@)), node@),
            final(self).flat_data == old(self).flat_data,
    {
        let ghost ev = entries_view(self.tree_index@);
        let ghost k = (namespace@, views(path@));
        let ghost v = node@;
        self.tree_index.push(TreeEntry { namespace: owned(namespace), path, node });
        proof {
            assert(entries_view(self.tree_index@) =~= ev.push((k, v)));
            lemma_push_map(ev, k, v);
        }
    }

    /// Update the tree index for a stored key.
    fn update_tree_index(&mut self, namespace: &str, key: &str, canonical_key: &str)
        ensures
            final(self)@.1 == tree_set(old(self)@.1, namespace@, key@, canonical_key@),
            final(self)@.0 == old(self)@.0,
    {
        let root: Vec<String> = Vec::new();
        assert(views(root@) =~= Seq::<Seq<char>>::empty());
        if self.node_is_dir(namespace, &root).is_none() {
            self.put_node(namespace, root, TreeNode::Directory);
        }
        let ghost t1 = self@.1;
        assert(t1 == with_root(old(self)@.1, namespace@));
        let parts = to_strings(&split_char(key, '.'));
        let ghost ps = views(parts@);
        assert(ps == path_of(key@));
        proof {
            crate::text::lemma_split_on_len(key@, '.');
        }
        let n = parts.len();
        match self.first_file_prefix(namespace, &parts) {
            Some(f) => {
                self.ensure_directories(namespace, &parts, f);
            },
            None => {
                self.ensure_directories(namespace, &parts, n);
                self.insert_file_at_path(namespace, parts, canonical_key);
            },
        }
    }

    /// The length of the first proper prefix of `parts` at which a file
    /// stands.
    fn first_file_prefix(&self, namespace: &str, parts: &Vec<String>) -> (r: Option<usize>)
        ensures
            r matches Some(f) ==> first_file_from(self@.1, namespace@, views(parts@), 1) == Some(
                f as int,
            ) && 1 <= f < parts@.len(),
            r is None ==> first_file_from(self@.1, namespace@, views(parts@), 1) is None,
    {
        let ghost ps = views(parts@);
        let n = parts.len();
        let mut k: usize = 1;
        while k < n
            invariant
                1 <= k,
                n == ps.len(),
                ps == views(parts@),
                first_file_from(self@.1, namespace@, ps, 1) == first_file_from(
                    self@.1,
                    namespace@,
                    ps,
                    k as int,
                ),
            decreases n - k,
        {
            let prefix = take_strings(parts, k);
            match self.node_is_dir(namespace, &prefix) {
                Some(false) => {
                    return Some(k);
                },
                _ => {},
            }
            k += 1;
        }
        None
    }

    /// Make a directory at every missing prefix of `parts` shorter than
    /// `upto`.
    fn ensure_directories(&mut self, namespace: &str, parts: &Vec<String>, upto: usize)
        requires
            upto <= parts@.len(),
        ensures
            final(self)@.1 == add_dirs(old(self)@.1, namespace@, views(parts@), upto as int),
            final(self)@.0 == old(self)@.0,
    {
        let ghost t0 = self@.1;
        let ghost ps = views(parts@);
        let mut k: usize = 1;
        assert(add_dirs(t0, namespace@, ps, 1) =~= t0);
        while k < upto
            invariant
                1 <= k,
                upto <= ps.len(),
                ps == views(parts@),
                self@.0 == old(self)@.0,
                t0 == old(self)@.1,
                self@.1 == add_dirs(t0, namespace@, ps, if k <= upto {
                    k as int
                } else {
                    upto as int
                }),
            decreases upto - k,
        {
            let prefix = take_strings(parts, k);
            let ghost cur = self@.1;
            if self.node_is_dir(namespace, &prefix).is_none() {
                self.put_node(namespace, prefix, TreeNode::Directory);
                assert(self@.1 =~= add_dirs(t0, namespace@, ps, k + 1));
            } else {
                assert(self@.1 =~= add_dirs(t0, namespace@, ps, k + 1));
            }
            k += 1;
        }
        if upto == 0 {
            assert(add_dirs(t0, namespace@, ps, 0) =~= add_dirs(t0, namespace@, ps, 1));
        }
    }

    /// Put a file at `parts`, replacing what stood there.
    fn insert_file_at_path(&mut self, namespace: &str, parts: Vec<String>, canonical_key: &str)
        ensures
            final(self)@.1 == remove_subtree(old(self)@.1, namespace@, views(parts@)).insert(
                (namespace@, views(parts@)),
                Some(canonical_key@),
            ),
            final(self)@.0 == old(self)@.0,
    {
        self.drop_subtree(namespace, &parts);
        self.put_node(namespace, parts, TreeNode::File(owned(canonical_key)));
    }

    /// Remove a deleted key from the tree index.
    fn remove_from_tree_index(&mut self, namespace: &str, key: &str)
        ensures
            final(self)@.1 == tree_remove(old(self)@.1, namespace@, key@),
            final(self)@.0 == old(self)@.0,
    {
        let parts = to_strings(&split_char(key, '.'));
        proof {
            crate::text::lemma_split_on_len(key@, '.');
        }
        self.remove_from_tree_at_path(namespace, parts);
    }

    /// Remove the node at `parts` and the directories it leaves empty.
    fn remove_from_tree_at_path(&mut self, namespace: &str, parts: Vec<String>)
        requires
            parts@.len() > 0,
        ensures
            final(self)@.0 == old(self)@.0,
            final(self)@.1 == (if old(self)@.1.contains_key(root_key(namespace@)) && dirs_along(
                old(self)@.1,
                namespace@,
                views(parts@),
            ) && old(self)@.1.contains_key((namespace@, views(parts@))) {
                prune(
                    remove_subtree(old(self)@.1, namespace@, views(parts@)),
                    namespace@,
                    views(parts@),
                    parts@.len() - 1,
                )
            } else {
                old(self)@.1
            }),
    {
        let ghost t0 = self@.1;
        let ghost ps = views(parts@);
        let root: Vec<String> = Vec::new();
        assert(views(root@) =~= Seq::<Seq<char>>::empty());
        if self.node_is_dir(namespace, &root).is_none() {
            return;
        }
        let n = parts.len();
        let mut k: usize = 1;
        while k < n
            invariant
                1 <= k <= n,
                n == ps.len(),
                ps == views(parts@),
                self@ == old(self)@,
                t0 == old(self)@.1,
                dirs_upto(t0, namespace@, ps, k as int),
            decreases n - k,
        {
            let prefix = take_strings(&parts, k);
            match self.node_is_dir(namespace, &prefix) {
                Some(true) => {},
                _ => {
                    assert(!dirs_along(t0, namespace@, ps)) by {
                        assert(!(t0.contains_key((namespace@, ps.take(k as int))) && t0[(
                            namespace@,
                            ps.take(k as int),
                        )] is None));
                    }
                    return;
                },
            }
            k += 1;
        }
        if self.node_is_dir(namespace, &parts).is_none() {
            return;
        }
        self.drop_subtree(namespace, &parts);
        let ghost t1 = self@.1;
        let mut k: usize = n - 1;
        let mut done = false;
        while k >= 1 && !done
            invariant
                k < n,
                n == ps.len(),
                ps == views(parts@),
                self@.0 == old(self)@.0,
                prune(t1, namespace@, ps, n - 1) == prune(self@.1, namespace@, ps, k as int),
                done ==> prune(self@.1, namespace@, ps, k as int) == self@.1,
            decreases k + if done { 0int } else { 1int },
        {
            let prefix = take_strings(&parts, k);
            if self.has_children(namespace, &prefix) {
                done = true;
            } else {
                self.drop_node(namespace, &prefix);
                k -= 1;
            }
        }
    }

    /// Whether a node stands one level below (namespace, path).
    fn has_children(&self, namespace: &str, path: &Vec<String>) -> (r: bool)
        ensures
            r == has_children(self@.1, namespace@, views(path@)),
    {
        let ghost ev = entries_view(self.tree_index@);
        let ghost p = views(path@);
        let mut i: usize = 0;
        while i < self.tree_index.len()
            invariant
                i <= self.tree_index@.len(),
                ev == entries_view(self.tree_index@),
                p == views(path@),
                forall|j: int|
                    0 <= j < i ==> !((#[trigger] ev[j]).0.0 == namespace@ && ev[j].0.1.len() == p.len()
                        + 1 && ev[j].0.1.take(p.len() as int) == p),
            decreases self.tree_index@.len() - i,
        {
            let e = &self.tree_index[i];
            if str_eq(e.namespace.as_str(), namespace) && e.path.len() > 0 && e.path.len() - 1
                == path.len() && path_prefix(path, &e.path) {
                proof {
                    lemma_to_map_dom(ev, ev[i as int].0);
                    assert(self@.1.contains_key(ev[i as int].0));
                }
                return true;
            }
            i += 1;
        }
        proof {
            if has_children(self@.1, namespace@, p) {
                let k = choose|k: NodeKey|
                    #![trigger self@.1.contains_key(k)]
                    self@.1.contains_key(k) && k.0 == namespace@ && k.1.len() == p.len() + 1
                        && k.1.take(p.len() as int) == p;
                lemma_to_map_dom(ev, k);
                let j = choose|j: int| 0 <= j < ev.len() && (#[trigger] ev[j]).0 == k;
                assert(ev[j].0.0 == namespace@);
            }
        }
        false
    }
}

impl TreeEntry {
    fn copy(&self) -> (r: Self)
        ensures
            entry_view(r) == entry_view(*self),
    {
        TreeEntry {
            namespace: owned(self.namespace.as_str()),
            path: crate::text::clone_strings(&self.path),
            node: self.node.clone(),
        }
    }
}

impl Default for ContextStorage {
    fn default() -> (c: Self)
        ensures
            c@.0 == Map::<Seq<char>, Seq<char>>::empty(),
            c@.1 == Map::<NodeKey, NodeView>::empty(),
    {
        ContextStorage::new()
    }
}

impl ContextStorage {
    /// Whether some canonical key starts with `prefix`.
    fn has_key_prefix(&self, prefix: &str) -> (r: bool)
        ensures
            r == exists|ck: Seq<char>|
                #![trigger self@.0.contains_key(ck)]
                self@.0.contains_key(ck) && prefix@.is_prefix_of(ck),
    {
        let ghost pv = pairs_view(self.flat_data@);
        let mut i: usize = 0;
        while i < self.flat_data.len()
            invariant
                i <= self.flat_data@.len(),
                pv == pairs_view(self.flat_data@),
                forall|j: int| 0 <= j < i ==> !prefix@.is_prefix_of(#[trigger] pv[j].0),
            decreases self.flat_data@.len() - i,
        {
            assert(pv[i as int] == (self.flat_data@[i as int].0@, self.flat_data@[i as int].1@));
            if starts_with(self.flat_data[i].0.as_str(), prefix) {
                proof {
                    lemma_to_map_dom(pv, pv[i as int].0);
                    assert(self@.0.contains_key(pv[i as int].0));
                }
                return true;
            }
            i += 1;
        }
        proof {
            assert forall|ck: Seq<char>| self@.0.contains_key(ck) implies !prefix@.is_prefix_of(ck) by {
                lemma_to_map_dom(pv, ck);
                let j = choose|j: int| 0 <= j < pv.len() && (#[trigger] pv[j]).0 == ck;
                assert(!prefix@.is_prefix_of(pv[j].0));
            }
        }
        false
    }
}

/// A key found with pattern `*` is stored under `namespace:key`.
pub proof fn lemma_found_key_present(flat: Map<Seq<char>, Seq<char>>, ns: Seq<char>, x: Seq<char>)
    requires
        found_keys(flat, ns, "*"@).contains(x),
    ensures
        flat.contains_key(canonical(ns, x)),
{
    reveal_strlit("*");
    reveal_strlit(":");
    assert(trim_end_char("*"@, '*') == trim_end_char(Seq::<char>::empty(), '*')) by {
        assert("*"@.drop_last() =~= Seq::<char>::empty());
    }
    assert(key_prefix(ns, "*"@) =~= ns + ":"@);
    let ck = choose|ck: Seq<char>|
        #![trigger flat.contains_key(ck)]
        flat.contains_key(ck) && key_prefix(ns, "*"@).is_prefix_of(ck) && x == ck.skip(
            ns.len() + 1 as int,
        );
    assert(canonical(ns, x) =~= ck);
}

/// The views of a list of named context storages.
spec fn contexts_view(s: Seq<(String, ContextStorage)>) -> Seq<(Seq<char>, ContextView)> {
    s.map_values(|p: (String, ContextStorage)| (p.0@, p.1@))
}

/// All storages, by context name.
pub type StorageView = Map<Seq<char>, ContextView>;

/// A value can be stored in context `c`: it exists already, or fewer than
/// `MAX_CONTEXTS` contexts are stored.
pub open spec fn has_room(m: StorageView, c: Seq<char>) -> bool {
    m.contains_key(c) || m.dom().len() < crate::config::MAX_CONTEXTS
}

/// A key and a value are within the token length limits:
/// `MAX_TOKEN_KEY_LENGTH` and `MAX_TOKEN_VALUE_LENGTH` characters.
pub open spec fn fits_limits(key: Seq<char>, value: Seq<char>) -> bool {
    key.len() <= crate::config::MAX_TOKEN_KEY_LENGTH && value.len()
        <= crate::config::MAX_TOKEN_VALUE_LENGTH
}

/// A storage with nothing in it.
pub open spec fn empty_context() -> ContextView {
    (Map::empty(), Map::empty())
}

/// The storage of a context, empty where the context has none.
pub open spec fn context_of(m: StorageView, c: Seq<char>) -> ContextView {
    if m.contains_key(c) {
        m[c]
    } else {
        empty_context()
    }
}

/// The (key, value) pairs of a namespace, by sorted key.
pub open spec fn namespace_pairs(cv: ContextView, ns: Seq<char>) -> Seq<(Seq<char>, Seq<char>)> {
    sorted_list(found_keys(cv.0, ns, "*"@)).map_values(
        |k: Seq<char>| (k, cv.0[canonical(ns, k)]),
    )
}

/// Hybrid storage with context isolation: each context has its own flat
/// values and tree index.
#[derive(Debug)]
pub struct StorageData {
    contexts: Vec<(String, ContextStorage)>,
}

impl View for StorageData {
    type V = StorageView;

    closed spec fn view(&self) -> StorageView {
        to_map(contexts_view(self.contexts@))
    }
}

impl StorageData {
    /// An empty storage.
    pub fn new() -> (s: Self)
        ensures
            s@ == Map::<Seq<char>, ContextView>::empty(),
    {
        let s = StorageData { contexts: Vec::new() };
        assert(contexts_view(s.contexts@) =~= Seq::empty());
        s
    }

    /// The index of the last storage of a context.
    fn find_context(&self, context: &str) -> (r: Option<usize>)
        ensures
            match r {
                Some(i) => i < self.contexts@.len() && contexts_view(self.contexts@)[i as int].0
                    == context@ && self@.contains_key(context@) && self@[context@]
                    == contexts_view(self.contexts@)[i as int].1 && forall|j: int|
                    i < j < self.contexts@.len() ==> (#[trigger] contexts_view(self.contexts@)[j]).0
                        != context@,
                None => !self@.contains_key(context@),
            },
    {
        let ghost cv = contexts_view(self.contexts@);
        let mut i: usize = self.contexts.len();
        while i > 0
            invariant
                i <= self.contexts@.len(),
                cv == contexts_view(self.contexts@),
                forall|j: int| i <= j < self.contexts@.len() ==> (#[trigger] cv[j]).0 != context@,
            decreases i,
        {
            assert(cv[i - 1] == (self.contexts@[i - 1].0@, self.contexts@[i - 1].1@));
            if str_eq(self.contexts[i - 1].0.as_str(), context) {
                proof {
                    lemma_to_map_last(cv, i - 1);
                }
                return Some(i - 1);
            }
            i -= 1;
        }
        proof {
            lemma_to_map_dom(cv, context@);
        }
        None
    }

    /// The value of a key.
    pub fn get(&self, context: &str, namespace: &str, key: &str) -> (r: Option<&str>)
        ensures
            match r {
                Some(v) => context_of(self@, context@).0.contains_key(canonical(namespace@, key@))
                    && context_of(self@, context@).0[canonical(namespace@, key@)] == v@,
                None => !context_of(self@, context@).0.contains_key(canonical(namespace@, key@)),
            },
    {
        match self.find_context(context) {
            Some(i) => self.contexts[i].1.get(namespace, key),
            None => None,
        }
    }

    /// Store a value; a context beyond the first `MAX_CONTEXTS` is not
    /// created, and a key or value longer than its limit is not stored.
    pub fn set(&mut self, context: &str, namespace: &str, key: &str, value: &str)
        ensures
            final(self)@ == (if has_room(old(self)@, context@) && fits_limits(key@, value@) {
                old(self)@.insert(
                    context@,
                    (
                        context_of(old(self)@, context@).0.insert(canonical(namespace@, key@), value@),
                        tree_set(
                            context_of(old(self)@, context@).1,
                            namespace@,
                            key@,
                            canonical(namespace@, key@),
                        ),
                    ),
                )
            } else {
                old(self)@
            }),
            old(self)@.dom().len() <= crate::config::MAX_CONTEXTS ==> final(self)@.dom().len()
                <= crate::config::MAX_CONTEXTS,
    {
        if key.unicode_len() > crate::config::MAX_TOKEN_KEY_LENGTH || value.unicode_len()
            > crate::config::MAX_TOKEN_VALUE_LENGTH {
            return;
        }
        let ghost cv = contexts_view(self.contexts@);
        let count = self.contexts().len();
        proof {
            if !self@.contains_key(context@) && self@.dom().len() < crate::config::MAX_CONTEXTS {
                assert(self@.insert(context@, empty_context()).dom() =~= self@.dom().insert(context@));
            }
        }
        match self.find_context(context) {
            Some(i) => {
                let (name, mut storage) = self.contexts.remove(i);
                storage.set(namespace, key, value);
                let ghost nv = storage@;
                self.contexts.insert(i, (name, storage));
                proof {
                    assert(contexts_view(self.contexts@) =~= cv.update(i as int, (cv[i as int].0, nv)));
                    lemma_to_map_update(cv, i as int, nv);
                }
            },
            None => {
                if count >= crate::config::MAX_CONTEXTS {
                    return;
                }
                let mut storage = ContextStorage::new();
                storage.set(namespace, key, value);
                let ghost nv = storage@;
                self.contexts.push((owned(context), storage));
                proof {
                    assert(contexts_view(self.contexts@) =~= cv.push((context@, nv)));
                    lemma_push_map(cv, context@, nv);
                }
            },
        }
    }

    /// Whether a value is stored at the key.
    pub fn is_file(&self, context: &str, namespace: &str, key: &str) -> (r: bool)
        ensures
            r == context_of(self@, context@).0.contains_key(canonical(namespace@, key@)),
    {
        match self.find_context(context) {
            Some(i) => self.contexts[i].1.is_file(namespace, key),
            None => false,
        }
    }

    /// Whether the path leads to a directory.
    pub fn is_directory(&self, context: &str, namespace: &str, path: &str) -> (r: bool)
        ensures
            r == reach_dir(context_of(self@, context@).1, namespace@, path@),
    {
        match self.find_context(context) {
            Some(i) => self.contexts[i].1.is_directory(namespace, path),
            None => false,
        }
    }

    /// Whether some key of the namespace is stored in the context.
    pub fn namespace_exists(&self, context: &str, namespace: &str) -> (r: bool)
        ensures
            r == exists|ck: Seq<char>|
                #![trigger context_of(self@, context@).0.contains_key(ck)]
                context_of(self@, context@).0.contains_key(ck) && (namespace@ + ":"@).is_prefix_of(
                    ck,
                ),
    {
        match self.find_context(context) {
            Some(i) => {
                let mut prefix = owned(namespace);
                append(&mut prefix, ":");
                assert(self.contexts@[i as int].1@ == contexts_view(self.contexts@)[i as int].1);
                let r = self.contexts[i].1.has_key_prefix(prefix.as_str());
                proof {
                    let m = context_of(self@, context@).0;
                    let sm = self.contexts@[i as int].1@.0;
                    assert(m == sm);
                    if r {
                        let ck = choose|ck: Seq<char>|
                            #![trigger sm.contains_key(ck)]
                            sm.contains_key(ck) && prefix@.is_prefix_of(ck);
                        assert(m.contains_key(ck));
                    } else {
                        assert forall|ck: Seq<char>| #[trigger] m.contains_key(ck) implies !(namespace@
                            + ":"@).is_prefix_of(ck) by {
                            assert(sm.contains_key(ck));
                        }
                    }
                }
                r
            },
            None => false,
        }
    }

    /// Whether the directory has a default value.
    pub fn has_default(&self, context: &str, namespace: &str, path: &str) -> (r: bool)
        ensures
            r == context_of(self@, context@).0.contains_key(canonical(namespace@, index_key(path@))),
    {
        match self.find_context(context) {
            Some(i) => self.contexts[i].1.has_default(namespace, path),
            None => false,
        }
    }

    /// The default value of a directory.
    pub fn get_default(&self, context: &str, namespace: &str, path: &str) -> (r: Option<&str>)
        ensures
            match r {
                Some(v) => context_of(self@, context@).0.contains_key(
                    canonical(namespace@, index_key(path@)),
                ) && context_of(self@, context@).0[canonical(namespace@, index_key(path@))] == v@,
                None => !context_of(self@, context@).0.contains_key(
                    canonical(namespace@, index_key(path@)),
                ),
            },
    {
        match self.find_context(context) {
            Some(i) => self.contexts[i].1.get_default(namespace, path),
            None => None,
        }
    }

    /// The keys of a namespace that start with `pattern`, sorted.
    pub fn find_keys(&self, context: &str, namespace: &str, pattern: &str) -> (r: Vec<String>)
        ensures
            views(r@) == sorted_list(found_keys(context_of(self@, context@).0, namespace@, pattern@)),
            strictly_sorted(views(r@)),
            views(r@).to_set() == found_keys(context_of(self@, context@).0, namespace@, pattern@),
    {
        match self.find_context(context) {
            Some(i) => {
                assert(self.contexts@[i as int].1@ == contexts_view(self.contexts@)[i as int].1);
                self.contexts[i].1.find_keys(namespace, pattern)
            },
            None => {
                let r: Vec<String> = Vec::new();
                proof {
                    assert(found_keys(Map::empty(), namespace@, pattern@) =~= Set::empty());
                    assert(views(r@) =~= Seq::empty());
                    assert(views(r@).to_set() =~= Set::empty());
                    lemma_sorted_list(views(r@));
                }
                r
            },
        }
    }

    /// Delete a key; says whether it was stored.
    pub fn delete_key(&mut self, context: &str, namespace: &str, key: &str) -> (r: bool)
        ensures
            r == context_of(old(self)@, context@).0.contains_key(canonical(namespace@, key@)),
            r ==> final(self)@ == old(self)@.insert(
                context@,
                (
                    old(self)@[context@].0.remove(canonical(namespace@, key@)),
                    tree_remove(old(self)@[context@].1, namespace@, key@),
                ),
            ),
            !r ==> final(self)@ == old(self)@,
    {
        let ghost cv = contexts_view(self.contexts@);
        match self.find_context(context) {
            Some(i) => {
                let (name, mut storage) = self.contexts.remove(i);
                let r = storage.delete_key(namespace, key);
                let ghost nv = storage@;
                self.contexts.insert(i, (name, storage));
                proof {
                    assert(contexts_view(self.contexts@) =~= cv.update(i as int, (cv[i as int].0, nv)));
                    lemma_to_map_update(cv, i as int, nv);
                    if !r {
                        assert(to_map(cv).insert(context@, nv) =~= to_map(cv));
                    }
                }
                r
            },
            None => false,
        }
    }

    /// Delete a namespace of a context; says whether its tree existed.
    pub fn delete_namespace(&mut self, context: &str, namespace: &str) -> (r: bool)
        ensures
            r == context_of(old(self)@, context@).1.contains_key(root_key(namespace@)),
            old(self)@.contains_key(context@) ==> final(self)@ == old(self)@.insert(
                context@,
                (
                    drop_namespace_keys(old(self)@[context@].0, namespace@),
                    drop_namespace_nodes(old(self)@[context@].1, namespace@),
                ),
            ),
            !old(self)@.contains_key(context@) ==> final(self)@ == old(self)@,
    {
        let ghost cv = contexts_view(self.contexts@);
        match self.find_context(context) {
            Some(i) => {
                let (name, mut storage) = self.contexts.remove(i);
                let r = storage.delete_namespace(namespace);
                let ghost nv = storage@;
                self.contexts.insert(i, (name, storage));
                proof {
                    assert(contexts_view(self.contexts@) =~= cv.update(i as int, (cv[i as int].0, nv)));
                    lemma_to_map_update(cv, i as int, nv);
                }
                r
            },
            None => false,
        }
    }

    /// Delete a context; says whether it existed.
    pub fn delete_context(&mut self, context: &str) -> (r: bool)
        ensures
            r == old(self)@.contains_key(context@),
            final(self)@ == old(self)@.remove(context@),
    {
        let had = self.find_context(context).is_some();
        let ghost cv = contexts_view(self.contexts@);
        let ghost keep = |k: Seq<char>| k != context@;
        let mut old_list: Vec<(String, ContextStorage)> = Vec::new();
        std::mem::swap(&mut old_list, &mut self.contexts);
        let mut out: Vec<(String, ContextStorage)> = Vec::new();
        assert(keep_keys(to_map(cv.take(0)), keep) =~= to_map(contexts_view(out@))) by {
            assert(cv.take(0) =~= Seq::empty());
            assert(contexts_view(out@) =~= Seq::empty());
        }
        let total_len = old_list.len();
        let ghost total = total_len as nat;
        let mut i: usize = 0;
        while old_list.len() > 0
            invariant
                i + old_list@.len() == total,
                total <= usize::MAX,
                total == cv.len(),
                contexts_view(old_list@) == cv.skip(i as int),
                forall|k: Seq<char>| #[trigger] keep(k) == (k != context@),
                to_map(contexts_view(out@)) == keep_keys(to_map(cv.take(i as int)), keep),
            decreases old_list@.len(),
        {
            proof {
                lemma_keep_step(cv, i as int, keep);
            }
            let ghost prev = old_list@;
            let (name, storage) = old_list.remove(0);
            assert(cv[i as int] == (name@, storage@)) by {
                assert(cv.skip(i as int)[0] == cv[i as int]);
                assert(contexts_view(prev)[0] == (prev[0].0@, prev[0].1@));
            }
            assert(contexts_view(old_list@) =~= cv.skip(i + 1)) by {
                assert(old_list@ =~= prev.drop_first());
                assert(cv.skip(i + 1) =~= cv.skip(i as int).drop_first());
            }
            if !str_eq(name.as_str(), context) {
                let ghost before = contexts_view(out@);
                let ghost e = (name@, storage@);
                out.push((name, storage));
                proof {
                    assert(contexts_view(out@) =~= before.push(e));
                    lemma_push_map(before, e.0, e.1);
                }
            }
            i += 1;
        }
        assert(cv.take(i as int) =~= cv);
        assert(keep_keys(to_map(cv), keep) =~= to_map(cv).remove(context@));
        self.contexts = out;
        had
    }

    /// The contexts, sorted.
    pub fn contexts(&self) -> (r: Vec<String>)
        ensures
            views(r@) == sorted_list(self@.dom()),
            strictly_sorted(views(r@)),
            self@.dom().finite(),
            r@.len() == self@.dom().len(),
    {
        let ghost cv = contexts_view(self.contexts@);
        let mut out: Vec<String> = Vec::new();
        let mut i: usize = 0;
        assert(views(out@).to_set() =~= Set::empty());
        while i < self.contexts.len()
            invariant
                i <= self.contexts@.len(),
                cv == contexts_view(self.contexts@),
                strictly_sorted(views(out@)),
                views(out@).to_set() == Set::new(
                    |n: Seq<char>| exists|j: int| 0 <= j < i && (#[trigger] cv[j]).0 == n,
                ),
            decreases self.contexts@.len() - i,
        {
            let ghost before = views(out@).to_set();
            assert(cv[i as int] == (self.contexts@[i as int].0@, self.contexts@[i as int].1@));
            insert_sorted(&mut out, owned(self.contexts[i].0.as_str()));
            assert(views(out@).to_set() =~= Set::new(
                |n: Seq<char>| exists|j: int| 0 <= j < i + 1 && (#[trigger] cv[j]).0 == n,
            )) by {
                assert forall|n: Seq<char>|
                    (exists|j: int| 0 <= j < i + 1 && (#[trigger] cv[j]).0 == n) implies views(
                    out@,
                ).to_set().contains(n) by {
                    let j = choose|j: int| 0 <= j < i + 1 && (#[trigger] cv[j]).0 == n;
                    if j < i {
                        assert(before.contains(n));
                    }
                }
            }
            i += 1;
        }
        assert(views(out@).to_set() =~= self@.dom()) by {
            assert forall|n: Seq<char>| self@.dom().contains(n) implies views(out@).to_set().contains(
                n,
            ) by {
                lemma_to_map_dom(cv, n);
            }
            assert forall|n: Seq<char>| views(out@).to_set().contains(n) implies self@.dom().contains(
                n,
            ) by {
                lemma_to_map_dom(cv, n);
            }
        }
        proof {
            lemma_sorted_list(views(out@));
            let v = views(out@);
            assert(v.no_duplicates()) by {
                assert forall|a: int, b: int| 0 <= a < v.len() && 0 <= b < v.len() && a != b implies v[a]
                    != v[b] by {
                    if a < b {
                        assert(crate::text::str_lt(v[a], v[b]));
                        crate::text::lemma_str_lt_irreflexive(v[a]);
                    } else {
                        assert(crate::text::str_lt(v[b], v[a]));
                        crate::text::lemma_str_lt_irreflexive(v[b]);
                    }
                }
            }
            v.unique_seq_to_set();
        }
        out
    }

    /// Whether a value can be stored in a context: it exists, or fewer than
    /// `MAX_CONTEXTS` contexts are stored.
    pub fn can_store(&self, context: &str) -> (r: bool)
        ensures
            r == has_room(self@, context@),
    {
        if self.find_context(context).is_some() {
            return true;
        }
        self.contexts().len() < crate::config::MAX_CONTEXTS
    }

    /// The namespaces of a context, sorted.
    pub fn namespaces_in_context(&self, context: &str) -> (r: Vec<String>)
        ensures
            views(r@) == sorted_list(tree_namespaces(context_of(self@, context@).1)),
            strictly_sorted(views(r@)),
    {
        match self.find_context(context) {
            Some(i) => self.contexts[i].1.namespaces(),
            None => {
                let r: Vec<String> = Vec::new();
                proof {
                    assert(tree_namespaces(Map::empty()) =~= Set::empty());
                    assert(views(r@) =~= Seq::empty());
                    assert(views(r@).to_set() =~= Set::empty());
                    lemma_sorted_list(views(r@));
                }
                r
            },
        }
    }

    /// The (key, value) pairs of a namespace, sorted by key.
    pub fn get_all_keys_in_namespace(&self, context: &str, namespace: &str) -> (r: Vec<
        (String, String),
    >)
        ensures
            pairs_view(r@) == namespace_pairs(context_of(self@, context@), namespace@),
    {
        let keys = self.find_keys(context, namespace, "*");
        let ghost cvw = context_of(self@, context@);
        let ghost ks = views(keys@);
        let mut out: Vec<(String, String)> = Vec::new();
        let mut i: usize = 0;
        while i < keys.len()
            invariant
                i <= keys@.len(),
                ks == views(keys@),
                cvw == context_of(self@, context@),
                ks == sorted_list(found_keys(cvw.0, namespace@, "*"@)),
                ks.to_set() == found_keys(cvw.0, namespace@, "*"@),
                pairs_view(out@) == namespace_pairs(cvw, namespace@).take(i as int),
            decreases keys@.len() - i,
        {
            proof {
                assert(ks.to_set().contains(ks[i as int]));
                lemma_found_key_present(cvw.0, namespace@, ks[i as int]);
            }
            match self.get(context, namespace, keys[i].as_str()) {
                Some(v) => {
                    let ghost before = pairs_view(out@);
                    out.push((owned(keys[i].as_str()), owned(v)));
                    assert(namespace_pairs(cvw, namespace@)[i as int] == (
                        ks[i as int],
                        cvw.0[canonical(namespace@, ks[i as int])],
                    ));
                    assert(pairs_view(out@) =~= before.push(
                        (ks[i as int], cvw.0[canonical(namespace@, ks[i as int])]),
                    ));
                    assert(pairs_view(out@) =~= namespace_pairs(cvw, namespace@).take(i + 1));
                },
                None => {},
            }
            i += 1;
        }
        assert(namespace_pairs(cvw, namespace@).take(i as int) =~= namespace_pairs(cvw, namespace@));
        out
    }

    fn push_namespace_items(&self, out: &mut Vec<String>, context: &str, namespace: &str)
        ensures
            views(final(out)@) == views(old(out)@) + namespace_items(
                context@,
                namespace@,
                namespace_pairs(context_of(self@, context@), namespace@),
            ),
    {
        let pairs = self.get_all_keys_in_namespace(context, namespace);
        let ghost ps = pairs_view(pairs@);
        let ghost base = views(out@);
        let mut i: usize = 0;
        while i < pairs.len()
            invariant
                i <= pairs@.len(),
                ps == pairs_view(pairs@),
                views(out@) == base + namespace_items(context@, namespace@, ps.take(i as int)),
            decreases pairs@.len() - i,
        {
            let mut item = owned(context);
            append(&mut item, ":");
            append(&mut item, namespace);
            append(&mut item, ":");
            append(&mut item, pairs[i].0.as_str());
            append(&mut item, "=");
            append(&mut item, pairs[i].1.as_str());
            let ghost before = views(out@);
            out.push(item);
            assert(ps[i as int] == (pairs@[i as int].0@, pairs@[i as int].1@));
            assert(ps.take(i + 1) =~= ps.take(i as int).push(ps[i as int]));
            assert(namespace_items(context@, namespace@, ps.take(i + 1)) =~= namespace_items(
                context@,
                namespace@,
                ps.take(i as int),
            ).push(stream_item(context@, namespace@, ps[i as int])));
            assert(views(out@) =~= before.push(stream_item(context@, namespace@, ps[i as int])));
            i += 1;
        }
        assert(ps.take(i as int) =~= ps);
    }

    /// The stored values as a flat stream: `context:namespace:key=value`
    /// for each, joined by `; ` (contexts, namespaces and keys sorted).
    pub fn to_string(&self) -> (r: String)
        ensures
            r@ == join(stream_items(self@), "; "@),
    {
        let contexts = self.contexts();
        let ghost cs = views(contexts@);
        let mut items: Vec<String> = Vec::new();
        let mut i: usize = 0;
        while i < contexts.len()
            invariant
                i <= contexts@.len(),
                cs == views(contexts@),
                cs == sorted_list(self@.dom()),
                views(items@) == items_upto(self@, cs, i as int),
            decreases contexts@.len() - i,
        {
            let c = contexts[i].as_str();
            let namespaces = self.namespaces_in_context(c);
            let ghost names = views(namespaces@);
            let ghost head = views(items@);
            let mut j: usize = 0;
            while j < namespaces.len()
                invariant
                    j <= namespaces@.len(),
                    names == views(namespaces@),
                    views(items@) == head + context_items(self@, c@, names, j as int),
                decreases namespaces@.len() - j,
            {
                self.push_namespace_items(&mut items, c, namespaces[j].as_str());
                assert(names[j as int] == namespaces@[j as int]@);
                assert(views(items@) =~= head + context_items(self@, c@, names, j + 1));
                j += 1;
            }
            assert(cs[i as int] == c@);
            assert(views(items@) =~= items_upto(self@, cs, i + 1));
            i += 1;
        }
        assert(items@.map_values(|p: String| p@) =~= views(items@));
        join_strings(&items, "; ")
    }
}

/// One value in the flat stream: `context:namespace:key=value`.
pub open spec fn stream_item(c: Seq<char>, n: Seq<char>, kv: (Seq<char>, Seq<char>)) -> Seq<char> {
    c + ":"@ + n + ":"@ + kv.0 + "="@ + kv.1
}

/// The flat stream items of some (key, value) pairs of a namespace.
pub open spec fn namespace_items(c: Seq<char>, n: Seq<char>, ps: Seq<(Seq<char>, Seq<char>)>) -> Seq<
    Seq<char>,
> {
    ps.map_values(|kv: (Seq<char>, Seq<char>)| stream_item(c, n, kv))
}

/// The flat stream items of the first `k` namespaces of a context.
pub open spec fn context_items(d: StorageView, c: Seq<char>, names: Seq<Seq<char>>, k: int) -> Seq<Seq<char>>
    decreases k,
{
    if k <= 0 {
        Seq::empty()
    } else {
        context_items(d, c, names, k - 1) + namespace_items(
            c,
            names[k - 1],
            namespace_pairs(context_of(d, c), names[k - 1]),
        )
    }
}

/// The flat stream items of the first `k` contexts.
pub open spec fn items_upto(d: StorageView, cs: Seq<Seq<char>>, k: int) -> Seq<Seq<char>>
    decreases k,
{
    if k <= 0 {
        Seq::empty()
    } else {
        let c = cs[k - 1];
        let names = sorted_list(tree_namespaces(context_of(d, c).1));
        items_upto(d, cs, k - 1) + context_items(d, c, names, names.len() as int)
    }
}

/// The flat stream items of a storage: each context in sorted order, each
/// of its namespaces in sorted order, each key in sorted order.
pub open spec fn stream_items(d: StorageView) -> Seq<Seq<char>> {
    let cs = sorted_list(d.dom());
    items_upto(d, cs, cs.len() as int)
}

impl Default for StorageData {
    fn default() -> (s: Self)
        ensures
            s@ == Map::<Seq<char>, ContextView>::empty(),
    {
        StorageData::new()
    }
}

} // verus!
