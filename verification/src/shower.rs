//! MeteorShower: an ordered collection of meteors, queried by context and
//! namespace.

use vstd::prelude::*;
use crate::context::Context;
use crate::key::flat_key;
use crate::meteor::{meteor_text, meteor_views, Meteor, MeteorView};
use crate::text::{
    append, contains_string, distinct, distinct_upto, join, split_char, split_on, str_eq,
    trim, trim_str, views,
};

verus! {

/// The delimiter between meteors in a shower text.
pub const METEOR_DELIMITER: &'static str = ":;:";

/// A collection of meteors, kept in the order they were added.
#[derive(Debug, PartialEq)]
pub struct MeteorShower {
    meteors: Vec<Meteor>,
}

impl View for MeteorShower {
    type V = Seq<MeteorView>;

    closed spec fn view(&self) -> Seq<MeteorView> {
        meteor_views(self.meteors@)
    }
}

/// The meteors among the first `n` whose context is `c`.
pub open spec fn in_context_upto(ms: Seq<MeteorView>, c: Seq<char>, n: int) -> Seq<MeteorView>
    decreases n,
{
    if n <= 0 {
        Seq::empty()
    } else {
        let prev = in_context_upto(ms, c, n - 1);
        if ms[n - 1].0 == c {
            prev.push(ms[n - 1])
        } else {
            prev
        }
    }
}

/// The meteors whose context is `c`, in order.
pub open spec fn in_context(ms: Seq<MeteorView>, c: Seq<char>) -> Seq<MeteorView> {
    in_context_upto(ms, c, ms.len() as int)
}

/// A meteor in context `c` whose dotted namespace is `ns`.
pub open spec fn at(m: MeteorView, c: Seq<char>, ns: Seq<char>) -> bool {
    m.0 == c && join(m.1, "."@) == ns
}

/// The meteors among the first `n` in context `c` and namespace `ns`.
pub open spec fn in_place_upto(ms: Seq<MeteorView>, c: Seq<char>, ns: Seq<char>, n: int) -> Seq<
    MeteorView,
>
    decreases n,
{
    if n <= 0 {
        Seq::empty()
    } else {
        let prev = in_place_upto(ms, c, ns, n - 1);
        if at(ms[n - 1], c, ns) {
            prev.push(ms[n - 1])
        } else {
            prev
        }
    }
}

/// The meteors in context `c` and namespace `ns`, in order.
pub open spec fn in_place(ms: Seq<MeteorView>, c: Seq<char>, ns: Seq<char>) -> Seq<MeteorView> {
    in_place_upto(ms, c, ns, ms.len() as int)
}

/// A meteor whose first token has key `key`, as written or in flat form.
pub open spec fn first_key_is(m: MeteorView, key: Seq<char>) -> bool {
    m.2[0].1 == key || flat_key(m.2[0].1) == key
}

/// The index of the first meteor of `ms` whose first token has key `key`.
pub open spec fn first_with_key(ms: Seq<MeteorView>, key: Seq<char>, i: int) -> Option<int>
    decreases ms.len() - i,
{
    if i < 0 || i >= ms.len() {
        None
    } else if first_key_is(ms[i], key) {
        Some(i)
    } else {
        first_with_key(ms, key, i + 1)
    }
}

/// Every meteor that the search for `key` looks at has a token.
pub open spec fn search_safe(ms: Seq<MeteorView>, key: Seq<char>) -> bool {
    forall|i: int|
        0 <= i < ms.len() && (forall|j: int| 0 <= j < i ==> !first_key_is(#[trigger] ms[j], key))
            ==> (#[trigger] ms[i]).2.len() > 0
}

/// The contexts of a list of meteors.
pub open spec fn context_names(ms: Seq<MeteorView>) -> Seq<Seq<char>> {
    ms.map_values(|m: MeteorView| m.0)
}

/// The dotted namespaces of a list of meteors.
pub open spec fn namespace_names(ms: Seq<MeteorView>) -> Seq<Seq<char>> {
    ms.map_values(|m: MeteorView| join(m.1, "."@))
}

/// What parsing a `;`-separated list of meteors gives.
pub open spec fn shower_pieces_upto(pieces: Seq<Seq<char>>, n: int) -> Result<
    Seq<MeteorView>,
    Seq<char>,
>
    decreases n,
{
    if n <= 0 {
        Ok(Seq::empty())
    } else {
        match shower_pieces_upto(pieces, n - 1) {
            Err(e) => Err(e),
            Ok(v) => {
                let t = trim(pieces[n - 1]);
                if t.len() == 0 {
                    Ok(v)
                } else {
                    match crate::meteor::parse_meteor_spec(t) {
                        Ok(m) => Ok(capped_push(v, m)),
                        Err(e) => Err(e),
                    }
                }
            },
        }
    }
}

/// `v` with `m` added at the end, unless it holds `MAX_METEORS_PER_SHOWER`
/// meteors already.
pub open spec fn capped_push(v: Seq<MeteorView>, m: MeteorView) -> Seq<MeteorView> {
    if v.len() < crate::config::MAX_METEORS_PER_SHOWER {
        v.push(m)
    } else {
        v
    }
}

/// What `MeteorShower::parse` gives.
pub open spec fn parse_shower_spec(s: Seq<char>) -> Result<Seq<MeteorView>, Seq<char>> {
    let pieces = split_on(s, ';');
    shower_pieces_upto(pieces, pieces.len() as int)
}

/// A shower as displayed: its meteors joined with `; `.
pub open spec fn shower_text(ms: Seq<MeteorView>) -> Seq<char> {
    join(ms.map_values(|m: MeteorView| meteor_text(m)), "; "@)
}

pub proof fn lemma_shower_error_stays(pieces: Seq<Seq<char>>, i: int, n: int)
    requires
        1 <= i <= n,
        shower_pieces_upto(pieces, i) is Err,
    ensures
        shower_pieces_upto(pieces, n) == shower_pieces_upto(pieces, i),
    decreases n - i,
{
    if i < n {
        lemma_shower_error_stays(pieces, i, n - 1);
    }
}

impl MeteorShower {
    /// An empty shower.
    pub fn new() -> (s: Self)
        ensures
            s@ == Seq::<MeteorView>::empty(),
    {
        let s = MeteorShower { meteors: Vec::new() };
        assert(s@ =~= Seq::<MeteorView>::empty());
        s
    }

    /// An empty shower; the default context applies when meteors are
    /// parsed, not here.
    pub fn with_context(default_context: Context) -> (s: Self)
        ensures
            s@ == Seq::<MeteorView>::empty(),
    {
        MeteorShower::new()
    }

    /// Add a meteor at the end; a shower holds at most
    /// `MAX_METEORS_PER_SHOWER` meteors, and one added beyond that is left
    /// out.
    pub fn add(&mut self, meteor: Meteor)
        ensures
            final(self)@ == capped_push(old(self)@, meteor@),
            old(self)@.len() <= crate::config::MAX_METEORS_PER_SHOWER ==> final(self)@.len()
                <= crate::config::MAX_METEORS_PER_SHOWER,
    {
        if self.meteors.len() >= crate::config::MAX_METEORS_PER_SHOWER {
            return;
        }
        let ghost before = self.meteors@;
        self.meteors.push(meteor);
        assert(meteor_views(self.meteors@) =~= meteor_views(before).push(meteor@));
    }

    /// All meteors, in order.
    pub fn meteors(&self) -> (r: &[Meteor])
        ensures
            meteor_views(r@) == self@,
    {
        self.meteors.as_slice()
    }

    /// The meteors of a context, in order.
    pub fn by_context(&self, context: &str) -> (r: Vec<&Meteor>)
        ensures
            r@.map_values(|m: &Meteor| m@) == in_context(self@, context@),
    {
        let ghost ms = self@;
        let mut out: Vec<&Meteor> = Vec::new();
        let mut i: usize = 0;
        while i < self.meteors.len()
            invariant
                i <= self.meteors@.len(),
                ms == meteor_views(self.meteors@),
                out@.map_values(|m: &Meteor| m@) == in_context_upto(ms, context@, i as int),
            decreases self.meteors@.len() - i,
        {
            let m = &self.meteors[i];
            if str_eq(m.context().name(), context) {
                let ghost before = out@;
                out.push(m);
                assert(out@.map_values(|m: &Meteor| m@) =~= before.map_values(|m: &Meteor| m@).push(
                    m@,
                ));
            }
            i += 1;
        }
        out
    }

    /// The meteors of a context and dotted namespace, in order.
    pub fn by_context_namespace(&self, context: &str, namespace: &str) -> (r: Vec<&Meteor>)
        ensures
            r@.map_values(|m: &Meteor| m@) == in_place(self@, context@, namespace@),
    {
        let ghost ms = self@;
        let mut out: Vec<&Meteor> = Vec::new();
        let mut i: usize = 0;
        while i < self.meteors.len()
            invariant
                i <= self.meteors@.len(),
                ms == meteor_views(self.meteors@),
                out@.map_values(|m: &Meteor| m@) == in_place_upto(
                    ms,
                    context@,
                    namespace@,
                    i as int,
                ),
            decreases self.meteors@.len() - i,
        {
            let m = &self.meteors[i];
            if str_eq(m.context().name(), context) && str_eq(
                m.namespace().to_string().as_str(),
                namespace,
            ) {
                let ghost before = out@;
                out.push(m);
                assert(out@.map_values(|m: &Meteor| m@) =~= before.map_values(|m: &Meteor| m@).push(
                    m@,
                ));
            }
            i += 1;
        }
        out
    }

    /// The first meteor of a context and dotted namespace whose first token
    /// has the given key, as written or in flat form.
    pub fn find(&self, context: &str, namespace: &str, key: &str) -> (r: Option<&Meteor>)
        requires
            search_safe(in_place(self@, context@, namespace@), key@),
        ensures
            match first_with_key(in_place(self@, context@, namespace@), key@, 0) {
                Some(i) => r matches Some(m) && m@ == in_place(self@, context@, namespace@)[i],
                None => r is None,
            },
    {
        let found = self.by_context_namespace(context, namespace);
        let ghost ms = in_place(self@, context@, namespace@);
        let mut i: usize = 0;
        while i < found.len()
            invariant
                i <= found@.len(),
                found@.map_values(|m: &Meteor| m@) == ms,
                ms == in_place(self@, context@, namespace@),
                search_safe(ms, key@),
                forall|j: int| 0 <= j < i ==> !first_key_is(#[trigger] ms[j], key@),
                first_with_key(ms, key@, 0) == first_with_key(ms, key@, i as int),
            decreases found@.len() - i,
        {
            let m = found[i];
            assert(ms[i as int] == m@);
            let t = m.token();
            if str_eq(t.key_notation(), key) || str_eq(t.key_str(), key) {
                assert(first_key_is(ms[i as int], key@));
                assert(first_with_key(ms, key@, i as int) == Some(i as int));
                return Some(m);
            }
            i += 1;
        }
        None
    }

    /// The distinct contexts, in order of first appearance.
    pub fn contexts(&self) -> (r: Vec<&str>)
        ensures
            r@.map_values(|s: &str| s@) == distinct(context_names(self@)),
    {
        let ghost names = context_names(self@);
        let mut out: Vec<&str> = Vec::new();
        let mut i: usize = 0;
        while i < self.meteors.len()
            invariant
                i <= self.meteors@.len(),
                names == context_names(meteor_views(self.meteors@)),
                out@.map_values(|s: &str| s@) == distinct_upto(names, i as int),
            decreases self.meteors@.len() - i,
        {
            let name = self.meteors[i].context().name();
            assert(names[i as int] == name@);
            if !contains_str(&out, name) {
                let ghost before = out@;
                out.push(name);
                assert(out@.map_values(|s: &str| s@) =~= before.map_values(|s: &str| s@).push(
                    name@,
                ));
            }
            i += 1;
        }
        out
    }

    /// The distinct dotted namespaces of a context, in order of first
    /// appearance.
    pub fn namespaces_in_context(&self, context: &str) -> (r: Vec<String>)
        ensures
            views(r@) == distinct(namespace_names(in_context(self@, context@))),
    {
        let ms = self.by_context(context);
        let ghost sel = in_context(self@, context@);
        let ghost names = namespace_names(sel);
        let mut out: Vec<String> = Vec::new();
        let mut i: usize = 0;
        while i < ms.len()
            invariant
                i <= ms@.len(),
                ms@.map_values(|m: &Meteor| m@) == sel,
                names == namespace_names(sel),
                views(out@) == distinct_upto(names, i as int),
            decreases ms@.len() - i,
        {
            let name = ms[i].namespace().to_string();
            assert(names[i as int] == name@);
            if !contains_string(&out, name.as_str()) {
                let ghost before = out@;
                out.push(name);
                assert(views(out@) =~= views(before).push(names[i as int]));
            }
            i += 1;
        }
        out
    }

    /// The number of meteors.
    pub fn len(&self) -> (r: usize)
        ensures
            r == self@.len(),
    {
        self.meteors.len()
    }

    /// Whether the shower holds no meteor.
    pub fn is_empty(&self) -> (r: bool)
        ensures
            r == (self@.len() == 0),
    {
        self.meteors.len() == 0
    }

    /// Parse `;`-separated meteors, such as
    /// `app:ui.widgets:button=submit; user:settings:theme=dark`.
    pub fn parse(input: &str) -> (r: Result<Self, String>)
        ensures
            match parse_shower_spec(input@) {
                Ok(v) => r matches Ok(s) && s@ == v,
                Err(m) => r matches Err(e) && e@ == m,
            },
    {
        let mut shower = MeteorShower::new();
        let lines = split_char(input, ';');
        let ghost pieces = split_on(input@, ';');
        let mut i: usize = 0;
        while i < lines.len()
            invariant
                i <= lines@.len(),
                pieces == split_on(input@, ';'),
                lines@.map_values(|p: &str| p@) == pieces,
                shower_pieces_upto(pieces, i as int) == Ok::<Seq<MeteorView>, Seq<char>>(
                    shower@,
                ),
            decreases lines@.len() - i,
        {
            let line = trim_str(lines[i]);
            assert(pieces[i as int] == lines@[i as int]@);
            if line.unicode_len() > 0 {
                match Meteor::first(line) {
                    Ok(m) => {
                        shower.add(m);
                    },
                    Err(e) => {
                        assert(shower_pieces_upto(pieces, i + 1) == Err::<
                            Seq<MeteorView>,
                            Seq<char>,
                        >(e@));
                        proof {
                            lemma_shower_error_stays(pieces, i + 1, pieces.len() as int);
                        }
                        return Err(e);
                    },
                }
            }
            i += 1;
        }
        Ok(shower)
    }

    /// The shower as displayed: its meteors joined with `; `.
    pub fn to_string(&self) -> (r: String)
        ensures
            r@ == shower_text(self@),
    {
        let ghost texts = self@.map_values(|m: MeteorView| meteor_text(m));
        let mut out = String::new();
        let mut i: usize = 0;
        while i < self.meteors.len()
            invariant
                i <= self.meteors@.len(),
                texts == meteor_views(self.meteors@).map_values(|m: MeteorView| meteor_text(m)),
                out@ == join(texts.take(i as int), "; "@),
            decreases self.meteors@.len() - i,
        {
            assert(texts.take(i + 1).drop_last() =~= texts.take(i as int));
            if i > 0 {
                append(&mut out, "; ");
            }
            append(&mut out, self.meteors[i].to_string().as_str());
            proof {
                if i == 0 {
                    assert(out@ == texts.take(1)[0]);
                }
            }
            i += 1;
        }
        assert(texts.take(i as int) =~= texts);
        out
    }
}

impl Default for MeteorShower {
    fn default() -> (s: Self)
        ensures
            s@ == Seq::<MeteorView>::empty(),
    {
        MeteorShower::new()
    }
}

/// Whether `v` holds a slice equal to `s`.
fn contains_str(v: &Vec<&str>, s: &str) -> (r: bool)
    ensures
        r == v@.map_values(|p: &str| p@).contains(s@),
{
    let mut i: usize = 0;
    while i < v.len()
        invariant
            i <= v@.len(),
            forall|j: int| 0 <= j < i ==> v@[j]@ != s@,
        decreases v@.len() - i,
    {
        if str_eq(v[i], s) {
            assert(v@.map_values(|p: &str| p@)[i as int] == s@);
            return true;
        }
        i += 1;
    }
    assert(!v@.map_values(|p: &str| p@).contains(s@)) by {
        if v@.map_values(|p: &str| p@).contains(s@) {
            let vs = v@.map_values(|p: &str| p@);
            let k = choose|k: int| 0 <= k < vs.len() && #[trigger] vs[k] == s@;
            assert(v@[k]@ == s@);
        }
    }
    false
}


proof fn lemma_lookup_prefix(ms: Seq<MeteorView>, m: MeteorView, c: Seq<char>, ns: Seq<char>, k: int)
    requires
        0 <= k <= ms.len(),
    ensures
        in_context_upto(ms.push(m), c, k) == in_context_upto(ms, c, k),
        in_place_upto(ms.push(m), c, ns, k) == in_place_upto(ms, c, ns, k),
    decreases k,
{
    if k > 0 {
        lemma_lookup_prefix(ms, m, c, ns, k - 1);
        assert(ms.push(m)[k - 1] == ms[k - 1]);
    }
}

/// What adding meteors one after another to a shower gives.
pub open spec fn add_all(start: Seq<MeteorView>, ms: Seq<MeteorView>) -> Seq<MeteorView>
    decreases ms.len(),
{
    if ms.len() == 0 {
        start
    } else {
        capped_push(add_all(start, ms.drop_last()), ms.last())
    }
}

/// However many meteors are added to a shower that holds at most
/// `MAX_METEORS_PER_SHOWER` (a new one holds none), it never holds more.
pub proof fn law_shower_bounded(start: Seq<MeteorView>, ms: Seq<MeteorView>)
    requires
        start.len() <= crate::config::MAX_METEORS_PER_SHOWER,
    ensures
        add_all(start, ms).len() <= crate::config::MAX_METEORS_PER_SHOWER,
    decreases ms.len(),
{
    if ms.len() > 0 {
        law_shower_bounded(start, ms.drop_last());
    }
}

proof fn lemma_first_with_key_from(ms: Seq<MeteorView>, key: Seq<char>, i: int, j: int)
    requires
        0 <= i <= j < ms.len(),
        ms[j].2.len() > 0,
        ms[j].2[0].1 == key || flat_key(ms[j].2[0].1) == key,
    ensures
        match first_with_key(ms, key, i) {
            Some(k) => i <= k <= j && (ms[k].2.len() > 0 ==> (ms[k].2[0].1 == key || flat_key(
                ms[k].2[0].1,
            ) == key)),
            None => false,
        },
    decreases j - i,
{
    if i < j && !first_key_is(ms[i], key) {
        lemma_first_with_key_from(ms, key, i + 1, j);
    }
}

/// A search by key finds a meteor wherever one of the place has a first
/// token whose key, as written or in flat form, is the key sought: the
/// meteor found comes no later than that one, and its own first token has
/// the key, as written or in flat form.
pub proof fn law_find_by_key(ms: Seq<MeteorView>, c: Seq<char>, ns: Seq<char>, key: Seq<char>, j: int)
    requires
        0 <= j < in_place(ms, c, ns).len(),
        in_place(ms, c, ns)[j].2.len() > 0,
        in_place(ms, c, ns)[j].2[0].1 == key || flat_key(in_place(ms, c, ns)[j].2[0].1) == key,
    ensures
        match first_with_key(in_place(ms, c, ns), key, 0) {
            Some(k) => 0 <= k <= j && (in_place(ms, c, ns)[k].2.len() > 0 ==> (in_place(ms, c, ns)[k].2[0].1
                == key || flat_key(in_place(ms, c, ns)[k].2[0].1) == key)),
            None => false,
        },
{
    lemma_first_with_key_from(in_place(ms, c, ns), key, 0, j);
}

/// After a meteor with a token is added to a shower that has room, a search
/// in its context and namespace by the key of its first token, exactly as
/// written, finds a meteor.
pub proof fn law_find_written_key_after_add(ms: Seq<MeteorView>, m: MeteorView)
    requires
        ms.len() < crate::config::MAX_METEORS_PER_SHOWER,
        m.2.len() > 0,
    ensures
        first_with_key(in_place(capped_push(ms, m), m.0, join(m.1, "."@)), m.2[0].1, 0) is Some,
{
    let ns = join(m.1, "."@);
    law_lookup_after_add(ms, m, m.0, ns);
    let p = in_place(capped_push(ms, m), m.0, ns);
    assert(p == in_place(ms, m.0, ns).push(m));
    assert(p[p.len() - 1] == m);
    law_find_by_key(capped_push(ms, m), m.0, ns, m.2[0].1, p.len() - 1);
}

/// After a meteor is added, looking up its context (or its context and
/// namespace) lists what was listed before, then the new meteor where it
/// was kept and matches.
pub proof fn law_lookup_after_add(ms: Seq<MeteorView>, m: MeteorView, c: Seq<char>, ns: Seq<char>)
    ensures
        in_context(capped_push(ms, m), c) == (if ms.len() < crate::config::MAX_METEORS_PER_SHOWER
            && m.0 == c {
            in_context(ms, c).push(m)
        } else {
            in_context(ms, c)
        }),
        in_place(capped_push(ms, m), c, ns) == (if ms.len() < crate::config::MAX_METEORS_PER_SHOWER
            && at(m, c, ns) {
            in_place(ms, c, ns).push(m)
        } else {
            in_place(ms, c, ns)
        }),
{
    if ms.len() < crate::config::MAX_METEORS_PER_SHOWER {
        lemma_lookup_prefix(ms, m, c, ns, ms.len() as int);
        assert(ms.push(m)[ms.len() as int] == m);
    }
}

} // verus!
