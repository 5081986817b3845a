//! Token streams: `key=value` parts separated by `;`, with the control tokens
//! `ns=` and `ctx=` that move the cursor and `ctl:COMMAND=TARGET` commands.

use vstd::prelude::*;
use crate::context::Context;
use crate::engine::{full_path, path_parts, result_view, set_in, stored_at, MeteorEngine};
use crate::error::MeteorError;
use crate::key::flat_key;
use crate::namespace::{dot_parts, Namespace};
use crate::split::{smart_split, split_pieces, SplitConfig};
use crate::stream::{
    control_text_outcome, fault_error, group_add, group_insert, group_views, lemma_steps_push,
    moved, process_control_command, run, same_state, steps_ok, store_grouped_tokens, store_groups,
    trace_ok, GroupView,
};
use crate::text::{append, join, owned, starts_with, str_eq, trim, trim_str};
use crate::token::{parse_tokens_spec, Token};
use crate::validators::{is_valid_token_format, token_format_ok};
use crate::workspace::with_key;

verus! {

/// Token stream parser with validation and delegation to the engine.
pub struct TokenStreamParser;

/// What `MeteorEngine::set` does with a value at a path.
pub open spec fn set_outcome(
    e0: MeteorEngine,
    e1: MeteorEngine,
    path: Seq<char>,
    v: Seq<char>,
    r: Result<(), Seq<char>>,
) -> bool {
    &&& e1.work().1 == e0.work().1
    &&& e1.ctx() == e0.ctx()
    &&& e1.ns() == e0.ns()
    &&& e1.history() == e0.history()
    &&& match stored_at(e0.data(), e0.work().0, path, v) {
        Ok((d, w)) => r is Ok && e1.data() == d && e1.work().0 == w,
        Err(m) => r == Err::<(), Seq<char>>(m) && e1.data() == e0.data() && e1.work() == e0.work(),
    }
}

/// The message for a token that could not be parsed.
pub open spec fn parse_failure(t: Seq<char>, m: Seq<char>) -> Seq<char> {
    "Failed to parse token '"@ + t + "': "@ + m
}

/// The message for a refused context name.
pub open spec fn context_failure(name: Seq<char>) -> Seq<char> {
    "Invalid context '"@ + name + "': "@ + "Context name cannot be empty"@
}

/// What processing one trimmed part `t` of a token stream does to an engine:
/// a control command runs; `ns=` and `ctx=` move the cursor; another token
/// is stored at the cursor under its flat key.
pub open spec fn token_part_step(
    e0: MeteorEngine,
    t: Seq<char>,
    e1: MeteorEngine,
    r: Result<(), Seq<char>>,
) -> bool {
    if t.len() == 0 {
        same_state(e0, e1) && r is Ok
    } else if "ctl:"@.is_prefix_of(t) {
        control_text_outcome(e0, e1, t, r)
    } else if !token_format_ok(t) {
        same_state(e0, e1) && r == Err::<(), Seq<char>>("Invalid token format: "@ + t)
    } else {
        match parse_tokens_spec(t) {
            Err(m) => same_state(e0, e1) && r == Err::<(), Seq<char>>(parse_failure(t, m)),
            Ok(v) => {
                let k = flat_key(v[0].1);
                let val = v[0].2;
                if k == "ns"@ {
                    r is Ok && moved(e0, e1, e0.ctx(), dot_parts(val))
                } else if k == "ctx"@ {
                    if val.len() == 0 {
                        same_state(e0, e1) && r == Err::<(), Seq<char>>(context_failure(val))
                    } else {
                        r is Ok && moved(e0, e1, val, e0.ns())
                    }
                } else {
                    set_outcome(e0, e1, full_path(e0.ctx(), join(e0.ns(), "."@), k), val, r)
                }
            },
        }
    }
}

/// `token_part_step` as a step of a run.
pub open spec fn token_step() -> spec_fn(
    MeteorEngine,
    (),
    Seq<char>,
    MeteorEngine,
    (),
    Result<(), Seq<char>>,
) -> bool {
    |e0: MeteorEngine, l0: (), t: Seq<char>, e1: MeteorEngine, l1: (), r: Result<(), Seq<char>>|
        token_part_step(e0, t, e1, r)
}

/// The parts of a token stream: split on `;` outside quotes, trimmed,
/// blank ones dropped.
pub open spec fn stream_parts(input: Seq<char>) -> Seq<Seq<char>> {
    split_pieces(input, SplitConfig::general_parsing_spec(';'))
}

/// The cursor and groups while a stream is grouped: (context, namespace,
/// groups in order of first appearance).
pub type Grouping = (Seq<char>, Seq<Seq<char>>, Seq<GroupView>);

/// What grouping one trimmed part `t` does: a control command runs on the
/// engine; `ns=` and `ctx=` move the local cursor; another token joins the
/// group of the local cursor.
pub open spec fn group_part_step(
    e0: MeteorEngine,
    l0: Grouping,
    t: Seq<char>,
    e1: MeteorEngine,
    l1: Grouping,
    r: Result<(), Seq<char>>,
) -> bool {
    if t.len() == 0 {
        same_state(e0, e1) && l1 == l0 && r is Ok
    } else if "ctl:"@.is_prefix_of(t) {
        control_text_outcome(e0, e1, t, r) && l1 == l0
    } else {
        &&& same_state(e0, e1)
        &&& if !token_format_ok(t) {
            l1 == l0 && r == Err::<(), Seq<char>>("Invalid token format: "@ + t)
        } else {
            match parse_tokens_spec(t) {
                Err(m) => l1 == l0 && r == Err::<(), Seq<char>>(parse_failure(t, m)),
                Ok(v) => {
                    let k = flat_key(v[0].1);
                    let val = v[0].2;
                    if k == "ns"@ {
                        l1 == (l0.0, dot_parts(val), l0.2) && r is Ok
                    } else if k == "ctx"@ {
                        if val.len() == 0 {
                            l1 == l0 && r == Err::<(), Seq<char>>(context_failure(val))
                        } else {
                            l1 == (val, l0.1, l0.2) && r is Ok
                        }
                    } else {
                        l1 == (l0.0, l0.1, group_add(l0.2, (l0.0, l0.1), v[0])) && r is Ok
                    }
                },
            }
        }
    }
}

/// `group_part_step` as a step of a run.
pub open spec fn group_step() -> spec_fn(
    MeteorEngine,
    Grouping,
    Seq<char>,
    MeteorEngine,
    Grouping,
    Result<(), Seq<char>>,
) -> bool {
    |e0: MeteorEngine, l0: Grouping, t: Seq<char>, e1: MeteorEngine, l1: Grouping, r: Result<
        (),
        Seq<char>,
    >| group_part_step(e0, l0, t, e1, l1, r)
}

/// What grouping a token stream does: the run of its parts from the
/// engine's cursor, after which the engine's cursor is the local one.
pub open spec fn grouped(
    e0: MeteorEngine,
    input: Seq<char>,
    mid: MeteorEngine,
    l1: Grouping,
    rp: Result<(), Seq<char>>,
) -> bool {
    run(group_step(), e0, (e0.ctx(), e0.ns(), Seq::<GroupView>::empty()), stream_parts(input), mid, l1, rp)
}

impl TokenStreamParser {
    /// Processes one trimmed part of a token stream.
    fn process_token_part(engine: &mut MeteorEngine, t: &str) -> (r: Result<(), String>)
        ensures
            token_part_step(*old(engine), t@, *final(engine), result_view(r)),
    {
        proof {
            reveal_strlit("ns");
            reveal_strlit("ctx");
        }
        if t.unicode_len() == 0 {
            return Ok(());
        }
        if starts_with(t, "ctl:") {
            return process_control_command(engine, t);
        }
        if !is_valid_token_format(t) {
            let mut m = owned("Invalid token format: ");
            append(&mut m, t);
            return Err(m);
        }
        let token = match Token::from_str(t) {
            Ok(tok) => tok,
            Err(e) => {
                let mut m = owned("Failed to parse token '");
                append(&mut m, t);
                append(&mut m, "': ");
                append(&mut m, e.as_str());
                return Err(m);
            },
        };
        let k = token.transformed_key();
        if str_eq(k, "ns") {
            engine.switch_namespace(Namespace::from_string(token.value()));
            Ok(())
        } else if str_eq(k, "ctx") {
            match Context::from_str(token.value()) {
                Ok(c) => {
                    engine.switch_context(c);
                    Ok(())
                },
                Err(e) => {
                    let mut m = owned("Invalid context '");
                    append(&mut m, token.value());
                    append(&mut m, "': ");
                    append(&mut m, e.as_str());
                    Err(m)
                },
            }
        } else {
            let at = engine.cursor_guard();
            let mut path = owned(at.saved_context.name());
            append(&mut path, ":");
            append(&mut path, at.saved_namespace.to_string().as_str());
            append(&mut path, ":");
            append(&mut path, k);
            assert(path@ =~= full_path(engine.ctx(), join(engine.ns(), "."@), k@));
            engine.set(path.as_str(), token.value())
        }
    }

    /// Parses and processes a token stream: each part in turn, stopping at
    /// the first error.
    pub fn process(engine: &mut MeteorEngine, input: &str) -> (r: Result<(), String>)
        ensures
            run(token_step(), *old(engine), (), stream_parts(input@), *final(engine), (), result_view(r)),
    {
        let parts = smart_split(input, SplitConfig::general_parsing(';'));
        let ghost pv = parts@.map_values(|p: String| p@);
        let ghost step = token_step();
        let ghost mut es = seq![*engine];
        let ghost mut ls = seq![()];
        let mut i: usize = 0;
        while i < parts.len()
            invariant
                i <= parts@.len(),
                pv == parts@.map_values(|p: String| p@),
                pv == stream_parts(input@),
                step == token_step(),
                es.len() == i + 1,
                steps_ok(step, *old(engine), (), pv, es, ls),
                es.last() == *engine,
            decreases parts@.len() - i,
        {
            let trimmed = trim_str(parts[i].as_str());
            assert(trimmed@ == trim(pv[i as int]));
            let res = Self::process_token_part(engine, trimmed);
            match res {
                Err(e) => {
                    assert(trace_ok(step, *old(engine), (), pv, es, ls, *engine, (), result_view(res)));
                    return Err(e);
                },
                Ok(()) => {
                    proof {
                        lemma_steps_push(step, *old(engine), (), pv, es, ls, *engine, ());
                        es = es.push(*engine);
                        ls = ls.push(());
                    }
                },
            }
            i += 1;
        }
        assert(trace_ok(step, *old(engine), (), pv, es, ls, *engine, (), Ok(())));
        Ok(())
    }

    /// Groups one trimmed part of a token stream.
    fn group_token_part(
        engine: &mut MeteorEngine,
        context: &mut Context,
        namespace: &mut Namespace,
        groups: &mut Vec<(Context, Namespace, Vec<Token>)>,
        t: &str,
    ) -> (r: Result<(), String>)
        ensures
            group_part_step(
                *old(engine),
                (old(context)@, old(namespace)@, group_views(old(groups)@)),
                t@,
                *final(engine),
                (final(context)@, final(namespace)@, group_views(final(groups)@)),
                result_view(r),
            ),
    {
        proof {
            reveal_strlit("ns");
            reveal_strlit("ctx");
        }
        if t.unicode_len() == 0 {
            return Ok(());
        }
        if starts_with(t, "ctl:") {
            return process_control_command(engine, t);
        }
        if !is_valid_token_format(t) {
            let mut m = owned("Invalid token format: ");
            append(&mut m, t);
            return Err(m);
        }
        let token = match Token::from_str(t) {
            Ok(tok) => tok,
            Err(e) => {
                let mut m = owned("Failed to parse token '");
                append(&mut m, t);
                append(&mut m, "': ");
                append(&mut m, e.as_str());
                return Err(m);
            },
        };
        let k = token.transformed_key();
        if str_eq(k, "ns") {
            *namespace = Namespace::from_string(token.value());
            Ok(())
        } else if str_eq(k, "ctx") {
            match Context::from_str(token.value()) {
                Ok(c) => {
                    *context = c;
                    Ok(())
                },
                Err(e) => {
                    let mut m = owned("Invalid context '");
                    append(&mut m, token.value());
                    append(&mut m, "': ");
                    append(&mut m, e.as_str());
                    Err(m)
                },
            }
        } else {
            group_insert(groups, context, namespace, token);
            Ok(())
        }
    }

    /// Parses a token stream into groups by (context, namespace), in order
    /// of first appearance; control commands run as they come, and the
    /// engine's cursor ends where the stream's cursor tokens leave it.
    fn parse_and_group_tokens(engine: &mut MeteorEngine, input: &str) -> (r: Result<
        Vec<(Context, Namespace, Vec<Token>)>,
        MeteorError,
    >)
        ensures
            exists|mid: MeteorEngine, l1: Grouping, rp: Result<(), Seq<char>>|
                #[trigger] grouped(*old(engine), input@, mid, l1, rp) && match r {
                    Ok(g) => rp is Ok && group_views(g@) == l1.2 && moved(
                        mid,
                        *final(engine),
                        l1.0,
                        l1.1,
                    ),
                    Err(e) => (rp matches Err(m) && e matches MeteorError::Other(s) && s@ == m)
                        && same_state(mid, *final(engine)),
                },
    {
        let parts = smart_split(input, SplitConfig::general_parsing(';'));
        let ghost pv = parts@.map_values(|p: String| p@);
        let ghost step = group_step();
        let at = engine.cursor_guard();
        let mut context = at.saved_context;
        let mut namespace = at.saved_namespace;
        let mut groups: Vec<(Context, Namespace, Vec<Token>)> = Vec::new();
        let ghost l0: Grouping = (context@, namespace@, Seq::<GroupView>::empty());
        assert(group_views(groups@) =~= Seq::<GroupView>::empty());
        let ghost mut es = seq![*engine];
        let ghost mut ls = seq![l0];
        let mut i: usize = 0;
        while i < parts.len()
            invariant
                i <= parts@.len(),
                pv == parts@.map_values(|p: String| p@),
                pv == stream_parts(input@),
                step == group_step(),
                l0 == (old(engine).ctx(), old(engine).ns(), Seq::<GroupView>::empty()),
                es.len() == i + 1,
                steps_ok(step, *old(engine), l0, pv, es, ls),
                es.last() == *engine,
                ls.last() == (context@, namespace@, group_views(groups@)),
            decreases parts@.len() - i,
        {
            let trimmed = trim_str(parts[i].as_str());
            assert(trimmed@ == trim(pv[i as int]));
            let res = Self::group_token_part(engine, &mut context, &mut namespace, &mut groups, trimmed);
            let ghost l = (context@, namespace@, group_views(groups@));
            match res {
                Err(e) => {
                    assert(trace_ok(step, *old(engine), l0, pv, es, ls, *engine, l, result_view(res)));
                    assert(grouped(*old(engine), input@, *engine, l, result_view(res)));
                    let err = MeteorError::other(e.as_str());
                    return Err(err);
                },
                Ok(()) => {
                    proof {
                        lemma_steps_push(step, *old(engine), l0, pv, es, ls, *engine, l);
                        es = es.push(*engine);
                        ls = ls.push(l);
                    }
                },
            }
            i += 1;
        }
        let ghost l = (context@, namespace@, group_views(groups@));
        let ghost mid = *engine;
        assert(trace_ok(step, *old(engine), l0, pv, es, ls, mid, l, Ok(())));
        assert(grouped(*old(engine), input@, mid, l, Ok(())));
        engine.switch_context(context);
        engine.switch_namespace(namespace);
        Ok(groups)
    }

    /// Parses a token stream, groups its tokens by (context, namespace) and
    /// stores each group as a meteor, refusing tokens that name a namespace
    /// other than their group's.
    pub fn process_with_aggregation(engine: &mut MeteorEngine, input: &str) -> (r: Result<
        (),
        MeteorError,
    >)
        ensures
            exists|mid: MeteorEngine, l1: Grouping, rp: Result<(), Seq<char>>|
                #[trigger] grouped(*old(engine), input@, mid, l1, rp) && match rp {
                    Err(m) => (r matches Err(e) && e matches MeteorError::Other(s) && s@ == m)
                        && same_state(mid, *final(engine)),
                    Ok(_) => {
                        let (d, w, f) = store_groups(mid.data(), mid.work().0, l1.2, false);
                        &&& final(engine).ctx() == l1.0
                        &&& final(engine).ns() == l1.1
                        &&& final(engine).history() == mid.history()
                        &&& final(engine).work().1 == mid.work().1
                        &&& final(engine).data() == d
                        &&& final(engine).work().0 == w
                        &&& match f {
                            None => r is Ok,
                            Some(fault) => r matches Err(e) && fault_error(e, fault),
                        }
                    },
                },
    {
        let groups = Self::parse_and_group_tokens(engine, input)?;
        store_grouped_tokens(engine, &groups, false)
    }

    /// Checks a token stream without processing it: every part that is not
    /// a control command must be a `key=value` token.
    pub fn validate(input: &str) -> (r: Result<(), String>)
        ensures
            match first_invalid(stream_parts(input@)) {
                None => r is Ok,
                Some(t) => r matches Err(e) && e@ == "Invalid token format: "@ + t,
            },
    {
        let parts = smart_split(input, SplitConfig::general_parsing(';'));
        let ghost pv = parts@.map_values(|p: String| p@);
        let mut i: usize = 0;
        while i < parts.len()
            invariant
                i <= parts@.len(),
                pv == parts@.map_values(|p: String| p@),
                pv == stream_parts(input@),
                first_invalid(pv.take(i as int)) is None,
            decreases parts@.len() - i,
        {
            let trimmed = trim_str(parts[i].as_str());
            assert(trimmed@ == trim(pv[i as int]));
            assert(pv.take(i + 1).drop_last() =~= pv.take(i as int));
            if trimmed.unicode_len() > 0 && !starts_with(trimmed, "ctl:") && !is_valid_token_format(
                trimmed,
            ) {
                proof {
                    lemma_first_invalid_stays(pv, i + 1);
                }
                let mut m = owned("Invalid token format: ");
                append(&mut m, trimmed);
                return Err(m);
            }
            i += 1;
        }
        assert(pv.take(i as int) =~= pv);
        Ok(())
    }
}

/// A part that is neither blank, a control command nor a valid token.
pub open spec fn invalid_part(p: Seq<char>) -> bool {
    let t = trim(p);
    t.len() > 0 && !"ctl:"@.is_prefix_of(t) && !token_format_ok(t)
}

/// The first invalid part (trimmed), if any.
pub open spec fn first_invalid(parts: Seq<Seq<char>>) -> Option<Seq<char>>
    decreases parts.len(),
{
    if parts.len() == 0 {
        None
    } else {
        match first_invalid(parts.drop_last()) {
            Some(t) => Some(t),
            None => if invalid_part(parts.last()) {
                Some(trim(parts.last()))
            } else {
                None
            },
        }
    }
}

proof fn lemma_first_invalid_stays(parts: Seq<Seq<char>>, n: int)
    requires
        0 <= n <= parts.len(),
        first_invalid(parts.take(n)) is Some,
    ensures
        first_invalid(parts) == first_invalid(parts.take(n)),
    decreases parts.len() - n,
{
    if n < parts.len() {
        assert(parts.take(n + 1).drop_last() =~= parts.take(n));
        lemma_first_invalid_stays(parts, n + 1);
    } else {
        assert(parts.take(n) =~= parts);
    }
}

} // verus!
