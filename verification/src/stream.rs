//! What the stream parsers share: control commands, the fold of a stream's
//! parts over an engine, grouping tokens by place, and storing those groups.

use vstd::prelude::*;
use crate::context::Context;
use crate::engine::{control_outcome, full_path, path_parts, result_view, set_in, stored_at, MeteorEngine};
use crate::error::MeteorError;
use crate::key::flat_key;
use crate::meteor::{clone_tokens, strict_error, tokens_fit, Meteor};
use crate::namespace::Namespace;
use crate::storage::StorageView;
use crate::text::{append, find_char, first_occurrence, join, owned, trim};
use crate::token::{token_views, Token, TokenView};
use crate::workspace::{with_key, NamespaceWorkspaceView, PlaceView};

verus! {

/// The workspace's key order per place.
pub type WorkKeys = Map<PlaceView, NamespaceWorkspaceView>;

/// Two engines agree on their cursor, data, workspace and audit trail.
pub open spec fn same_state(a: MeteorEngine, b: MeteorEngine) -> bool {
    &&& a.ctx() == b.ctx()
    &&& a.ns() == b.ns()
    &&& a.data() == b.data()
    &&& a.work() == b.work()
    &&& a.history() == b.history()
}

/// `e1` is `e0` with the cursor moved to context `c` and namespace `n`.
pub open spec fn moved(e0: MeteorEngine, e1: MeteorEngine, c: Seq<char>, n: Seq<Seq<char>>) -> bool {
    &&& e1.ctx() == c
    &&& e1.ns() == n
    &&& e1.data() == e0.data()
    &&& e1.work() == e0.work()
    &&& e1.history() == e0.history()
}

/// The command and target of a control command text `ctl:COMMAND=TARGET`
/// (split at the first `=`); none where no `=` follows the prefix.
pub open spec fn control_parts(t: Seq<char>) -> Option<(Seq<char>, Seq<char>)> {
    let rest = t.skip(4);
    match first_occurrence(rest, seq!['=']) {
        Some(i) => Some((rest.take(i), rest.skip(i + 1))),
        None => None,
    }
}

/// What running the control command text `t` does to an engine.
pub open spec fn control_text_outcome(
    e0: MeteorEngine,
    e1: MeteorEngine,
    t: Seq<char>,
    r: Result<(), Seq<char>>,
) -> bool {
    match control_parts(t) {
        None => same_state(e0, e1) && r == Err::<(), Seq<char>>(
            "Invalid control command format: "@ + t,
        ),
        Some((c, g)) => control_outcome(e0, e1, c, g, r),
    }
}

/// Runs a control command text `ctl:COMMAND=TARGET` on the engine.
pub fn process_control_command(engine: &mut MeteorEngine, command: &str) -> (r: Result<(), String>)
    requires
        "ctl:"@.is_prefix_of(command@),
    ensures
        control_text_outcome(*old(engine), *final(engine), command@, result_view(r)),
{
    proof {
        reveal_strlit("ctl:");
    }
    let n = command.unicode_len();
    let rest = command.substring_char(4, n);
    assert(rest@ =~= command@.skip(4));
    match find_char(rest, '=') {
        Some(i) => {
            let m = rest.unicode_len();
            let cmd = rest.substring_char(0, i);
            let target = rest.substring_char(i + 1, m);
            assert(cmd@ =~= rest@.take(i as int));
            assert(target@ =~= rest@.skip(i + 1));
            engine.execute_control_command(cmd, target)
        },
        None => {
            let mut msg = owned("Invalid control command format: ");
            append(&mut msg, command);
            Err(msg)
        },
    }
}

/// The parts before position `es.len() - 1` ran without error, each from
/// the engine and local state that the one before left (`es`, `ls`).
pub open spec fn steps_ok<L>(
    step: spec_fn(MeteorEngine, L, Seq<char>, MeteorEngine, L, Result<(), Seq<char>>) -> bool,
    e0: MeteorEngine,
    l0: L,
    parts: Seq<Seq<char>>,
    es: Seq<MeteorEngine>,
    ls: Seq<L>,
) -> bool {
    &&& es.len() >= 1
    &&& ls.len() == es.len()
    &&& es.len() - 1 <= parts.len()
    &&& es[0] == e0
    &&& ls[0] == l0
    &&& forall|i: int|
        #![trigger es[i]]
        0 <= i < es.len() - 1 ==> step(es[i], ls[i], trim(parts[i]), es[i + 1], ls[i + 1], Ok(()))
}

/// A trace of a run: all parts ran and `e1`, `l1` are what the last left,
/// or the part after those of `es` failed with `r`, leaving `e1`, `l1`.
pub open spec fn trace_ok<L>(
    step: spec_fn(MeteorEngine, L, Seq<char>, MeteorEngine, L, Result<(), Seq<char>>) -> bool,
    e0: MeteorEngine,
    l0: L,
    parts: Seq<Seq<char>>,
    es: Seq<MeteorEngine>,
    ls: Seq<L>,
    e1: MeteorEngine,
    l1: L,
    r: Result<(), Seq<char>>,
) -> bool {
    &&& steps_ok(step, e0, l0, parts, es, ls)
    &&& if es.len() - 1 == parts.len() {
        same_state(es.last(), e1) && l1 == ls.last() && r is Ok
    } else {
        r is Err && step(es.last(), ls.last(), trim(parts[es.len() - 1]), e1, l1, r)
    }
}

/// A stream's parts run one after another over an engine and a local state
/// `L`, each (trimmed) as `step` says, stopping at the first error: `e1`,
/// `l1` and `r` are where that leaves them.
pub open spec fn run<L>(
    step: spec_fn(MeteorEngine, L, Seq<char>, MeteorEngine, L, Result<(), Seq<char>>) -> bool,
    e0: MeteorEngine,
    l0: L,
    parts: Seq<Seq<char>>,
    e1: MeteorEngine,
    l1: L,
    r: Result<(), Seq<char>>,
) -> bool {
    exists|es: Seq<MeteorEngine>, ls: Seq<L>| #[trigger]
        trace_ok(step, e0, l0, parts, es, ls, e1, l1, r)
}

/// One more part that ran without error extends a trace.
pub proof fn lemma_steps_push<L>(
    step: spec_fn(MeteorEngine, L, Seq<char>, MeteorEngine, L, Result<(), Seq<char>>) -> bool,
    e0: MeteorEngine,
    l0: L,
    parts: Seq<Seq<char>>,
    es: Seq<MeteorEngine>,
    ls: Seq<L>,
    e1: MeteorEngine,
    l1: L,
)
    requires
        steps_ok(step, e0, l0, parts, es, ls),
        es.len() - 1 < parts.len(),
        step(es.last(), ls.last(), trim(parts[es.len() - 1]), e1, l1, Ok(())),
    ensures
        steps_ok(step, e0, l0, parts, es.push(e1), ls.push(l1)),
{
    let es2 = es.push(e1);
    let ls2 = ls.push(l1);
    assert forall|i: int| #![trigger es2[i]] 0 <= i < es2.len() - 1 implies step(
        es2[i],
        ls2[i],
        trim(parts[i]),
        es2[i + 1],
        ls2[i + 1],
        Ok(()),
    ) by {
        if i < es.len() - 1 {
            assert(es[i] == es2[i]);
            assert(es2[i + 1] == es[i + 1]);
        } else {
            assert(es2[i] == es.last());
            assert(ls2[i] == ls.last());
        }
    }
}

/// A group's place: (context, namespace).
pub type GroupKey = (Seq<char>, Seq<Seq<char>>);

/// A place and the tokens gathered for it.
pub type GroupView = (GroupKey, Seq<TokenView>);

/// The index of the group for `key`, or -1.
pub open spec fn group_index(g: Seq<GroupView>, key: GroupKey) -> int
    decreases g.len(),
{
    if g.len() == 0 {
        -1
    } else if g.last().0 == key {
        g.len() - 1
    } else {
        group_index(g.drop_last(), key)
    }
}

/// `t` added to the group for `key`, which is opened after the others
/// where there is none yet.
pub open spec fn group_add(g: Seq<GroupView>, key: GroupKey, t: TokenView) -> Seq<GroupView> {
    let i = group_index(g, key);
    if i < 0 {
        g.push((key, seq![t]))
    } else {
        g.update(i, (key, g[i].1.push(t)))
    }
}

/// The view of an exec list of groups.
pub open spec fn group_views(v: Seq<(Context, Namespace, Vec<Token>)>) -> Seq<GroupView> {
    v.map_values(|g: (Context, Namespace, Vec<Token>)| ((g.0@, g.1@), token_views(g.2@)))
}

proof fn lemma_group_index(g: Seq<GroupView>, key: GroupKey, i: int)
    requires
        0 <= i < g.len(),
        g[i].0 == key,
        forall|j: int| i < j < g.len() ==> g[j].0 != key,
    ensures
        group_index(g, key) == i,
    decreases g.len(),
{
    if g.last().0 != key {
        lemma_group_index(g.drop_last(), key, i);
    }
}

proof fn lemma_group_index_none(g: Seq<GroupView>, key: GroupKey)
    requires
        forall|j: int| 0 <= j < g.len() ==> g[j].0 != key,
    ensures
        group_index(g, key) == -1,
    decreases g.len(),
{
    if g.len() > 0 {
        lemma_group_index_none(g.drop_last(), key);
    }
}

/// Adds a token to the group for (context, namespace).
pub fn group_insert(
    groups: &mut Vec<(Context, Namespace, Vec<Token>)>,
    context: &Context,
    namespace: &Namespace,
    token: Token,
)
    ensures
        group_views(final(groups)@) == group_add(
            group_views(old(groups)@),
            (context@, namespace@),
            token@,
        ),
{
    let ghost gv = group_views(groups@);
    let ghost key = (context@, namespace@);
    let mut i: usize = groups.len();
    while i > 0
        invariant
            i <= groups@.len(),
            groups@ == old(groups)@,
            gv == group_views(groups@),
            key == (context@, namespace@),
            forall|j: int| i <= j < gv.len() ==> gv[j].0 != key,
        decreases i,
    {
        let k = i - 1;
        let found = groups[k].0.same_as(context) && groups[k].1.same_as(namespace);
        assert(gv[k as int].0 == (groups@[k as int].0@, groups@[k as int].1@));
        if found {
            proof {
                lemma_group_index(gv, key, k as int);
            }
            let mut g = groups.remove(k);
            let ghost before = token_views(g.2@);
            g.2.push(token);
            assert(token_views(g.2@) =~= before.push(token@));
            groups.insert(k, g);
            assert(group_views(groups@) =~= gv.update(k as int, (key, gv[k as int].1.push(token@))));
            return;
        }
        i = k;
    }
    proof {
        lemma_group_index_none(gv, key);
    }
    let mut toks: Vec<Token> = Vec::new();
    toks.push(token);
    assert(token_views(toks@) =~= seq![token@]);
    groups.push((context.clone(), namespace.clone(), toks));
    assert(group_views(groups@) =~= gv.push((key, seq![token@])));
}

/// The key under which a token is stored: as written, or its flat form.
pub open spec fn store_key(t: TokenView, notation: bool) -> Seq<char> {
    if notation {
        t.1
    } else {
        flat_key(t.1)
    }
}

/// Storing tokens one after another at `c:ns:KEY`: the data, the key order,
/// and the error of the first path that could not be parsed.
pub open spec fn store_tokens(
    d: StorageView,
    w: WorkKeys,
    c: Seq<char>,
    ns: Seq<char>,
    toks: Seq<TokenView>,
    notation: bool,
) -> (StorageView, WorkKeys, Option<Seq<char>>)
    decreases toks.len(),
{
    if toks.len() == 0 {
        (d, w, None)
    } else {
        let (d1, w1, f) = store_tokens(d, w, c, ns, toks.drop_last(), notation);
        if f is Some {
            (d1, w1, f)
        } else {
            let t = toks.last();
            match stored_at(d1, w1, full_path(c, ns, store_key(t, notation)), t.2) {
                Ok((d2, w2)) => (d2, w2, None),
                Err(m) => (d1, w1, Some(m)),
            }
        }
    }
}

/// Why storing groups stopped: a path error, or tokens that name a
/// namespace other than their group's.
pub type StoreFault = Result<Seq<char>, (Seq<Seq<char>>, Seq<TokenView>)>;

/// Storing groups one after another, each as a meteor of its tokens.
pub open spec fn store_groups(d: StorageView, w: WorkKeys, gs: Seq<GroupView>, notation: bool) -> (
    StorageView,
    WorkKeys,
    Option<StoreFault>,
)
    decreases gs.len(),
{
    if gs.len() == 0 {
        (d, w, None)
    } else {
        let (d1, w1, f) = store_groups(d, w, gs.drop_last(), notation);
        if f is Some {
            (d1, w1, f)
        } else {
            let g = gs.last();
            if g.1.len() == 0 {
                (d1, w1, None)
            } else if !tokens_fit(g.0.1, g.1) {
                (d1, w1, Some(Err((g.0.1, g.1))))
            } else {
                let (d2, w2, f2) = store_tokens(d1, w1, g.0.0, join(g.0.1, "."@), g.1, notation);
                (
                    d2,
                    w2,
                    match f2 {
                        Some(m) => Some(Ok(m)),
                        None => None,
                    },
                )
            }
        }
    }
}

/// `e` is the error that reports `f`.
pub open spec fn fault_error(e: MeteorError, f: StoreFault) -> bool {
    match f {
        Ok(m) => e matches MeteorError::Other(s) && s@ == m,
        Err((ns, toks)) => strict_error(e, ns, toks),
    }
}

/// Stores each of a meteor's tokens at `context:namespace:KEY`, the key as
/// written (`notation`) or flat.
pub fn store_meteor_tokens(engine: &mut MeteorEngine, meteor: &Meteor, notation: bool) -> (r: Result<
    (),
    MeteorError,
>)
    ensures
        ({
            let (d, w, f) = store_tokens(
                old(engine).data(),
                old(engine).work().0,
                meteor@.0,
                join(meteor@.1, "."@),
                meteor@.2,
                notation,
            );
            &&& final(engine).data() == d
            &&& final(engine).work().0 == w
            &&& match f {
                None => r is Ok,
                Some(m) => r matches Err(e) && e matches MeteorError::Other(s) && s@ == m,
            }
        }),
        final(engine).work().1 == old(engine).work().1,
        final(engine).ctx() == old(engine).ctx(),
        final(engine).ns() == old(engine).ns(),
        final(engine).history() == old(engine).history(),
{
    let tokens = meteor.tokens();
    let c = meteor.context().to_string();
    let ns = meteor.namespace().to_string();
    let ghost toks = meteor@.2;
    let ghost d0 = engine.data();
    let ghost w0 = engine.work().0;
    let mut i: usize = 0;
    while i < tokens.len()
        invariant
            i <= tokens@.len(),
            token_views(tokens@) == toks,
            toks == meteor@.2,
            c@ == meteor@.0,
            ns@ == join(meteor@.1, "."@),
            store_tokens(d0, w0, c@, ns@, toks.take(i as int), notation) == (
                engine.data(),
                engine.work().0,
                None::<Seq<char>>,
            ),
            engine.work().1 == old(engine).work().1,
            engine.ctx() == old(engine).ctx(),
            engine.ns() == old(engine).ns(),
            engine.history() == old(engine).history(),
            d0 == old(engine).data(),
            w0 == old(engine).work().0,
        decreases tokens@.len() - i,
    {
        let t = &tokens[i];
        assert(toks[i as int] == t@);
        let key = if notation {
            t.key_notation()
        } else {
            t.transformed_key()
        };
        assert(key@ == store_key(t@, notation));
        let mut path = owned(c.as_str());
        append(&mut path, ":");
        append(&mut path, ns.as_str());
        append(&mut path, ":");
        append(&mut path, key);
        assert(path@ =~= full_path(c@, ns@, key@));
        assert(toks.take(i + 1).drop_last() =~= toks.take(i as int));
        assert(toks.take(i + 1).last() == t@);
        match engine.set(path.as_str(), t.value()) {
            Ok(()) => {},
            Err(e) => {
                let err = MeteorError::other(e.as_str());
                proof {
                    lemma_store_tokens_error_stays(d0, w0, c@, ns@, toks, notation, i + 1);
                }
                return Err(err);
            },
        }
        i += 1;
    }
    assert(toks.take(i as int) =~= toks);
    Ok(())
}

/// Once a path fails, the later tokens are not stored.
pub proof fn lemma_store_tokens_error_stays(
    d: StorageView,
    w: WorkKeys,
    c: Seq<char>,
    ns: Seq<char>,
    toks: Seq<TokenView>,
    notation: bool,
    n: int,
)
    requires
        0 <= n <= toks.len(),
        store_tokens(d, w, c, ns, toks.take(n), notation).2 is Some,
    ensures
        store_tokens(d, w, c, ns, toks, notation) == store_tokens(d, w, c, ns, toks.take(n), notation),
    decreases toks.len() - n,
{
    if n < toks.len() {
        assert(toks.take(n + 1).drop_last() =~= toks.take(n));
        lemma_store_tokens_error_stays(d, w, c, ns, toks, notation, n + 1);
    } else {
        assert(toks.take(n) =~= toks);
    }
}

/// Once a group fails, the later groups are not stored.
pub proof fn lemma_store_groups_error_stays(
    d: StorageView,
    w: WorkKeys,
    gs: Seq<GroupView>,
    notation: bool,
    n: int,
)
    requires
        0 <= n <= gs.len(),
        store_groups(d, w, gs.take(n), notation).2 is Some,
    ensures
        store_groups(d, w, gs, notation) == store_groups(d, w, gs.take(n), notation),
    decreases gs.len() - n,
{
    if n < gs.len() {
        assert(gs.take(n + 1).drop_last() =~= gs.take(n));
        lemma_store_groups_error_stays(d, w, gs, notation, n + 1);
    } else {
        assert(gs.take(n) =~= gs);
    }
}

/// Stores each group, in order, as a meteor of its tokens; a group whose
/// tokens name another namespace stops the run.
pub fn store_grouped_tokens(
    engine: &mut MeteorEngine,
    groups: &Vec<(Context, Namespace, Vec<Token>)>,
    notation: bool,
) -> (r: Result<(), MeteorError>)
    ensures
        ({
            let (d, w, f) = store_groups(
                old(engine).data(),
                old(engine).work().0,
                group_views(groups@),
                notation,
            );
            &&& final(engine).data() == d
            &&& final(engine).work().0 == w
            &&& match f {
                None => r is Ok,
                Some(fault) => r matches Err(e) && fault_error(e, fault),
            }
        }),
        final(engine).work().1 == old(engine).work().1,
        final(engine).ctx() == old(engine).ctx(),
        final(engine).ns() == old(engine).ns(),
        final(engine).history() == old(engine).history(),
{
    let ghost gs = group_views(groups@);
    let ghost d0 = engine.data();
    let ghost w0 = engine.work().0;
    let mut i: usize = 0;
    while i < groups.len()
        invariant
            i <= groups@.len(),
            gs == group_views(groups@),
            store_groups(d0, w0, gs.take(i as int), notation) == (
                engine.data(),
                engine.work().0,
                None::<StoreFault>,
            ),
            engine.work().1 == old(engine).work().1,
            engine.ctx() == old(engine).ctx(),
            engine.ns() == old(engine).ns(),
            engine.history() == old(engine).history(),
            d0 == old(engine).data(),
            w0 == old(engine).work().0,
        decreases groups@.len() - i,
    {
        let g = &groups[i];
        let ghost gi = gs[i as int];
        assert(gi == ((g.0@, g.1@), token_views(g.2@)));
        assert(gs.take(i + 1).drop_last() =~= gs.take(i as int));
        assert(gs.take(i + 1).last() == gi);
        if g.2.len() > 0 {
            let tokens = clone_tokens(&g.2);
            match Meteor::try_new_with_tokens(g.0.clone(), g.1.clone(), tokens) {
                Ok(meteor) => {
                    match store_meteor_tokens(engine, &meteor, notation) {
                        Ok(()) => {},
                        Err(e) => {
                            proof {
                                lemma_store_groups_error_stays(d0, w0, gs, notation, i + 1);
                            }
                            return Err(e);
                        },
                    }
                },
                Err(e) => {
                    proof {
                        lemma_store_groups_error_stays(d0, w0, gs, notation, i + 1);
                    }
                    return Err(e);
                },
            }
        }
        i += 1;
    }
    assert(gs.take(i as int) =~= gs);
    Ok(())
}

} // verus!
