//! Meteor streams: meteors separated by `:;:`, each a `;`-separated list of
//! fully addressed `context:namespace:key=value` tokens, with cursor parts
//! `ns=`/`ctx=` and control commands `ctl:COMMAND=TARGET`.

use vstd::prelude::*;
use crate::context::Context;
use crate::engine::{result_view, MeteorEngine};
use crate::error::{error_text, MeteorError};
use crate::meteor::{conflicts, first_mismatch, named_ns};
use crate::namespace::{dot_parts, Namespace};
use crate::shower::METEOR_DELIMITER;
use crate::split::{multi_pieces, smart_split, smart_split_multi_char, split_pieces, SplitConfig};
use crate::stream::{
    control_text_outcome, fault_error, group_add, group_insert, group_views, lemma_steps_push,
    process_control_command, run, same_state, steps_ok, store_grouped_tokens, store_groups,
    trace_ok, GroupView, StoreFault,
};
use crate::text::{
    append, find_char, first_occurrence, join, owned, split_char, split_on, split_str,
    split_str_exec, starts_with, trim, trim_str, views,
};
use crate::token::Token;
use crate::token_stream::context_failure;
use crate::validators::{is_valid_meteor_format, meteor_format_ok};

verus! {

/// Meteor stream parser with validation and delegation to the engine.
pub struct MeteorStreamParser;

/// The meteor delimiter as a sequence of chars.
pub open spec fn delimiter_chars() -> Seq<char> {
    seq![':', ';', ':']
}

/// What processing one trimmed token part `t` of a meteor does: a control
/// command runs; `ns=` and `ctx=` leave the cursor as it is (a stream uses
/// explicit addressing only), though `ctx=` still needs a non-empty name; a
/// token `context:namespace:key=value` joins the group of its place.
pub open spec fn meteor_part_step(
    e0: MeteorEngine,
    g0: Seq<GroupView>,
    t: Seq<char>,
    e1: MeteorEngine,
    g1: Seq<GroupView>,
    r: Result<(), Seq<char>>,
) -> bool {
    if t.len() == 0 {
        same_state(e0, e1) && g1 == g0 && r is Ok
    } else if "ctl:"@.is_prefix_of(t) {
        control_text_outcome(e0, e1, t, r) && g1 == g0
    } else if "ns="@.is_prefix_of(t) {
        same_state(e0, e1) && g1 == g0 && r is Ok
    } else if "ctx="@.is_prefix_of(t) {
        let name = t.skip(4);
        &&& g1 == g0
        &&& if name.len() == 0 {
            same_state(e0, e1) && r == Err::<(), Seq<char>>(context_failure(name))
        } else {
            same_state(e0, e1) && r is Ok
        }
    } else {
        &&& same_state(e0, e1)
        &&& match first_occurrence(t, seq!['=']) {
            None => g1 == g0 && r == Err::<(), Seq<char>>(
                "Invalid meteor format: '"@ + t + "' - missing value assignment"@,
            ),
            Some(i) => {
                let kp = split_on(t.take(i), ':');
                let val = t.skip(i + 1);
                if kp.len() != 3 {
                    g1 == g0 && r == Err::<(), Seq<char>>(
                        "Invalid meteor format: '"@ + t
                            + "' - expected context:namespace:key=value"@,
                    )
                } else if kp[0].len() == 0 {
                    g1 == g0 && r == Err::<(), Seq<char>>(context_failure(kp[0]))
                } else {
                    g1 == group_add(g0, (kp[0], dot_parts(kp[1])), (None, kp[2], val)) && r is Ok
                }
            },
        }
    }
}

/// `meteor_part_step` as a step of a run.
pub open spec fn meteor_step() -> spec_fn(
    MeteorEngine,
    Seq<GroupView>,
    Seq<char>,
    MeteorEngine,
    Seq<GroupView>,
    Result<(), Seq<char>>,
) -> bool {
    |e0: MeteorEngine, g0: Seq<GroupView>, t: Seq<char>, e1: MeteorEngine, g1: Seq<
        GroupView,
    >, r: Result<(), Seq<char>>| meteor_part_step(e0, g0, t, e1, g1, r)
}

/// A cursor or control part, which a meteor may be as a whole.
pub open spec fn is_directive(t: Seq<char>) -> bool {
    "ctl:"@.is_prefix_of(t) || "ns="@.is_prefix_of(t) || "ctx="@.is_prefix_of(t)
}

/// The token parts of one meteor: split on `;` outside quotes, trimmed,
/// blank ones dropped.
pub open spec fn meteor_token_parts(t: Seq<char>) -> Seq<Seq<char>> {
    split_pieces(t, SplitConfig::meteor_streams_spec(';'))
}

/// What processing one trimmed meteor `t` of a stream does.
pub open spec fn meteor_chunk_step(
    e0: MeteorEngine,
    g0: Seq<GroupView>,
    t: Seq<char>,
    e1: MeteorEngine,
    g1: Seq<GroupView>,
    r: Result<(), Seq<char>>,
) -> bool {
    if t.len() == 0 || is_directive(t) {
        meteor_part_step(e0, g0, t, e1, g1, r)
    } else {
        run(meteor_step(), e0, g0, meteor_token_parts(t), e1, g1, r)
    }
}

/// `meteor_chunk_step` as a step of a run.
pub open spec fn chunk_step() -> spec_fn(
    MeteorEngine,
    Seq<GroupView>,
    Seq<char>,
    MeteorEngine,
    Seq<GroupView>,
    Result<(), Seq<char>>,
) -> bool {
    |e0: MeteorEngine, g0: Seq<GroupView>, t: Seq<char>, e1: MeteorEngine, g1: Seq<
        GroupView,
    >, r: Result<(), Seq<char>>| meteor_chunk_step(e0, g0, t, e1, g1, r)
}

/// What parsing a meteor stream does: the run of its meteors (split at each
/// `:;:`) from no groups.
pub open spec fn parsed(
    e0: MeteorEngine,
    input: Seq<char>,
    e1: MeteorEngine,
    g1: Seq<GroupView>,
    r: Result<(), Seq<char>>,
) -> bool {
    run(chunk_step(), e0, Seq::<GroupView>::empty(), split_str(input, delimiter_chars()), e1, g1, r)
}

/// The text of the error that reports a failed store.
pub open spec fn fault_text(f: StoreFault) -> Seq<char> {
    match f {
        Ok(m) => m,
        Err((ns, toks)) => if conflicts(ns, toks).len() == 1 {
            let i = first_mismatch(ns, toks)->0;
            "Token '"@ + toks[i].1 + "' has namespace '"@ + join(named_ns(toks[i]), "."@)
                + "' but meteor requires namespace '"@ + join(ns, "."@) + "'"@
        } else {
            "Meteor with namespace '"@ + join(ns, "."@)
                + "' cannot contain tokens from namespaces: "@ + join(conflicts(ns, toks), ", "@)
        },
    }
}

/// The error that reports a failed store has the text `fault_text` gives.
pub proof fn lemma_fault_text(e: MeteorError, f: StoreFault)
    requires
        fault_error(e, f),
    ensures
        error_text(e) == fault_text(f),
{
    match f {
        Ok(m) => {},
        Err((ns, toks)) => {
            if conflicts(ns, toks).len() != 1 {
                if let MeteorError::MixedTokenNamespaces { meteor_namespace, conflicting_namespaces } = e {
                    assert(conflicting_namespaces@.map_values(|p: String| p@) == views(
                        conflicting_namespaces@,
                    ));
                }
            }
        },
    }
}

/// The first meteor (trimmed) that is neither blank, a control command nor
/// a valid meteor, if any.
pub open spec fn first_bad_meteor(parts: Seq<Seq<char>>) -> Option<Seq<char>>
    decreases parts.len(),
{
    if parts.len() == 0 {
        None
    } else {
        match first_bad_meteor(parts.drop_last()) {
            Some(t) => Some(t),
            None => {
                let t = trim(parts.last());
                if t.len() > 0 && !"ctl:"@.is_prefix_of(t) && !meteor_format_ok(t) {
                    Some(t)
                } else {
                    None
                }
            },
        }
    }
}

proof fn lemma_first_bad_meteor_stays(parts: Seq<Seq<char>>, n: int)
    requires
        0 <= n <= parts.len(),
        first_bad_meteor(parts.take(n)) is Some,
    ensures
        first_bad_meteor(parts) == first_bad_meteor(parts.take(n)),
    decreases parts.len() - n,
{
    if n < parts.len() {
        assert(parts.take(n + 1).drop_last() =~= parts.take(n));
        lemma_first_bad_meteor_stays(parts, n + 1);
    } else {
        assert(parts.take(n) =~= parts);
    }
}

/// What processing a meteor stream does: its meteors are parsed into
/// groups (cursor parts and control commands acting as they come), then each
/// group is stored as a meteor under the keys as written; `r` is the error
/// text, if any.
pub open spec fn processed(e0: MeteorEngine, input: Seq<char>, e1: MeteorEngine, r: Result<(), Seq<char>>) -> bool {
    exists|mid: MeteorEngine, g1: Seq<GroupView>, rp: Result<(), Seq<char>>|
        #[trigger] parsed(e0, input, mid, g1, rp) && match rp {
            Err(m) => r == Err::<(), Seq<char>>(m) && same_state(mid, e1),
            Ok(_) => {
                let (d, w, f) = store_groups(mid.data(), mid.work().0, g1, true);
                &&& e1.ctx() == mid.ctx()
                &&& e1.ns() == mid.ns()
                &&& e1.history() == mid.history()
                &&& e1.work().1 == mid.work().1
                &&& e1.data() == d
                &&& e1.work().0 == w
                &&& match f {
                    None => r is Ok,
                    Some(fault) => r == Err::<(), Seq<char>>(fault_text(fault)),
                }
            },
        }
}

impl MeteorStreamParser {
    /// Processes one trimmed token part of a meteor.
    fn meteor_token_part(
        engine: &mut MeteorEngine,
        groups: &mut Vec<(Context, Namespace, Vec<Token>)>,
        t: &str,
    ) -> (r: Result<(), String>)
        ensures
            meteor_part_step(
                *old(engine),
                group_views(old(groups)@),
                t@,
                *final(engine),
                group_views(final(groups)@),
                result_view(r),
            ),
    {
        proof {
            reveal_strlit("ns=");
            reveal_strlit("ctx=");
        }
        let n = t.unicode_len();
        if n == 0 {
            return Ok(());
        }
        if starts_with(t, "ctl:") {
            return process_control_command(engine, t);
        }
        if starts_with(t, "ns=") {
            return Ok(());
        }
        if starts_with(t, "ctx=") {
            let name = t.substring_char(4, n);
            assert(name@ =~= t@.skip(4));
            return match Context::from_str(name) {
                Ok(_) => Ok(()),
                Err(e) => {
                    let mut m = owned("Invalid context '");
                    append(&mut m, name);
                    append(&mut m, "': ");
                    append(&mut m, e.as_str());
                    Err(m)
                },
            };
        }
        match find_char(t, '=') {
            None => {
                let mut m = owned("Invalid meteor format: '");
                append(&mut m, t);
                append(&mut m, "' - missing value assignment");
                Err(m)
            },
            Some(i) => {
                let key_value = t.substring_char(0, i);
                let value = t.substring_char(i + 1, n);
                assert(key_value@ =~= t@.take(i as int));
                assert(value@ =~= t@.skip(i + 1));
                let key_parts = split_char(key_value, ':');
                let ghost kp = key_parts@.map_values(|p: &str| p@);
                if key_parts.len() != 3 {
                    let mut m = owned("Invalid meteor format: '");
                    append(&mut m, t);
                    append(&mut m, "' - expected context:namespace:key=value");
                    return Err(m);
                }
                assert(kp[0] == key_parts@[0]@ && kp[1] == key_parts@[1]@ && kp[2]
                    == key_parts@[2]@);
                let context = match Context::from_str(key_parts[0]) {
                    Ok(c) => c,
                    Err(e) => {
                        let mut m = owned("Invalid context '");
                        append(&mut m, key_parts[0]);
                        append(&mut m, "': ");
                        append(&mut m, e.as_str());
                        return Err(m);
                    },
                };
                let namespace = Namespace::from_string(key_parts[1]);
                let token = Token::new(key_parts[2], value);
                group_insert(groups, &context, &namespace, token);
                Ok(())
            },
        }
    }

    /// Processes one trimmed meteor of a stream: a cursor or control part
    /// as a whole, or else each of its `;`-separated token parts.
    fn meteor_chunk(
        engine: &mut MeteorEngine,
        groups: &mut Vec<(Context, Namespace, Vec<Token>)>,
        t: &str,
    ) -> (r: Result<(), String>)
        ensures
            meteor_chunk_step(
                *old(engine),
                group_views(old(groups)@),
                t@,
                *final(engine),
                group_views(final(groups)@),
                result_view(r),
            ),
    {
        if t.unicode_len() == 0 || starts_with(t, "ctl:") || starts_with(t, "ns=") || starts_with(
            t,
            "ctx=",
        ) {
            return Self::meteor_token_part(engine, groups, t);
        }
        let parts = smart_split(t, SplitConfig::meteor_streams(';'));
        let ghost pv = parts@.map_values(|p: String| p@);
        let ghost step = meteor_step();
        let ghost g0 = group_views(groups@);
        let ghost mut es = seq![*engine];
        let ghost mut ls = seq![g0];
        let mut i: usize = 0;
        while i < parts.len()
            invariant
                i <= parts@.len(),
                pv == parts@.map_values(|p: String| p@),
                pv == meteor_token_parts(t@),
                t@.len() > 0 && !is_directive(t@),
                step == meteor_step(),
                g0 == group_views(old(groups)@),
                es.len() == i + 1,
                steps_ok(step, *old(engine), g0, pv, es, ls),
                es.last() == *engine,
                ls.last() == group_views(groups@),
            decreases parts@.len() - i,
        {
            let trimmed = trim_str(parts[i].as_str());
            assert(trimmed@ == trim(pv[i as int]));
            let res = Self::meteor_token_part(engine, groups, trimmed);
            let ghost g = group_views(groups@);
            match res {
                Err(e) => {
                    assert(trace_ok(step, *old(engine), g0, pv, es, ls, *engine, g, result_view(res)));
                    assert(run(step, *old(engine), g0, pv, *engine, g, result_view(res)));
                    return Err(e);
                },
                Ok(()) => {
                    proof {
                        lemma_steps_push(step, *old(engine), g0, pv, es, ls, *engine, g);
                        es = es.push(*engine);
                        ls = ls.push(g);
                    }
                },
            }
            i += 1;
        }
        assert(trace_ok(step, *old(engine), g0, pv, es, ls, *engine, group_views(groups@), Ok(())));
        Ok(())
    }

    /// Parses a meteor stream into groups by (context, namespace), in order
    /// of first appearance; control commands act on the engine as they come,
    /// and cursor parts leave the cursor alone.
    fn parse_explicit_meteors(engine: &mut MeteorEngine, input: &str) -> (r: Result<
        Vec<(Context, Namespace, Vec<Token>)>,
        MeteorError,
    >)
        ensures
            exists|g1: Seq<GroupView>, rp: Result<(), Seq<char>>|
                #[trigger] parsed(*old(engine), input@, *final(engine), g1, rp) && match r {
                    Ok(g) => rp is Ok && group_views(g@) == g1,
                    Err(e) => rp matches Err(m) && e matches MeteorError::Other(s) && s@ == m,
                },
    {
        let delim = METEOR_DELIMITER;
        proof {
            reveal_strlit(":;:");
        }
        assert(delim@ =~= delimiter_chars());
        let meteors = split_str_exec(input, delim);
        let ghost pv = meteors@.map_values(|p: &str| p@);
        let ghost step = chunk_step();
        let mut groups: Vec<(Context, Namespace, Vec<Token>)> = Vec::new();
        let ghost g0 = Seq::<GroupView>::empty();
        assert(group_views(groups@) =~= g0);
        let ghost mut es = seq![*engine];
        let ghost mut ls = seq![g0];
        let mut i: usize = 0;
        while i < meteors.len()
            invariant
                i <= meteors@.len(),
                pv == meteors@.map_values(|p: &str| p@),
                pv == split_str(input@, delimiter_chars()),
                step == chunk_step(),
                g0 == Seq::<GroupView>::empty(),
                es.len() == i + 1,
                steps_ok(step, *old(engine), g0, pv, es, ls),
                es.last() == *engine,
                ls.last() == group_views(groups@),
            decreases meteors@.len() - i,
        {
            let trimmed = trim_str(meteors[i]);
            assert(trimmed@ == trim(pv[i as int]));
            let res = Self::meteor_chunk(engine, &mut groups, trimmed);
            let ghost g = group_views(groups@);
            match res {
                Err(e) => {
                    assert(trace_ok(step, *old(engine), g0, pv, es, ls, *engine, g, result_view(res)));
                    assert(parsed(*old(engine), input@, *engine, g, result_view(res)));
                    return Err(MeteorError::other(e.as_str()));
                },
                Ok(()) => {
                    proof {
                        lemma_steps_push(step, *old(engine), g0, pv, es, ls, *engine, g);
                        es = es.push(*engine);
                        ls = ls.push(g);
                    }
                },
            }
            i += 1;
        }
        assert(trace_ok(step, *old(engine), g0, pv, es, ls, *engine, group_views(groups@), Ok(())));
        assert(parsed(*old(engine), input@, *engine, group_views(groups@), Ok(())));
        Ok(groups)
    }

    /// Parses a meteor stream, groups its tokens by (context, namespace) and
    /// stores each group as a meteor under the keys as written.
    pub fn process_with_aggregation(engine: &mut MeteorEngine, input: &str) -> (r: Result<
        (),
        MeteorError,
    >)
        ensures
            exists|mid: MeteorEngine, g1: Seq<GroupView>, rp: Result<(), Seq<char>>|
                #[trigger] parsed(*old(engine), input@, mid, g1, rp) && match rp {
                    Err(m) => (r matches Err(e) && e matches MeteorError::Other(s) && s@ == m)
                        && same_state(mid, *final(engine)),
                    Ok(_) => {
                        let (d, w, f) = store_groups(mid.data(), mid.work().0, g1, true);
                        &&& final(engine).ctx() == mid.ctx()
                        &&& final(engine).ns() == mid.ns()
                        &&& final(engine).history() == mid.history()
                        &&& final(engine).work().1 == mid.work().1
                        &&& final(engine).data() == d
                        &&& final(engine).work().0 == w
                        &&& match f {
                            None => r is Ok,
                            Some(fault) => r matches Err(e) && fault_error(e, fault),
                        }
                    },
                },
    {
        let groups = Self::parse_explicit_meteors(engine, input)?;
        store_grouped_tokens(engine, &groups, true)
    }

    /// As `process_with_aggregation`, with the error as its text: explicit
    /// addressing only, so the cursor changes only by control commands.
    pub fn process(engine: &mut MeteorEngine, input: &str) -> (r: Result<(), String>)
        ensures
            processed(*old(engine), input@, *final(engine), result_view(r)),
    {
        let groups = match Self::parse_explicit_meteors(engine, input) {
            Ok(g) => g,
            Err(e) => {
                return Err(e.to_string());
            },
        };
        let ghost mid = *engine;
        match store_grouped_tokens(engine, &groups, true) {
            Ok(()) => Ok(()),
            Err(e) => {
                proof {
                    let f = store_groups(mid.data(), mid.work().0, group_views(groups@), true).2;
                    lemma_fault_text(e, f->Some_0);
                }
                Err(e.to_string())
            },
        }
    }

    /// Checks a meteor stream without processing it: every meteor that is
    /// not a control command must be in meteor format.
    pub fn validate(input: &str) -> (r: Result<(), String>)
        ensures
            match first_bad_meteor(split_str(input@, delimiter_chars())) {
                None => r is Ok,
                Some(t) => r matches Err(e) && e@ == "Invalid meteor format: "@ + t,
            },
    {
        let delim = METEOR_DELIMITER;
        proof {
            reveal_strlit(":;:");
        }
        assert(delim@ =~= delimiter_chars());
        let meteors = split_str_exec(input, delim);
        let ghost pv = meteors@.map_values(|p: &str| p@);
        let mut i: usize = 0;
        while i < meteors.len()
            invariant
                i <= meteors@.len(),
                pv == meteors@.map_values(|p: &str| p@),
                pv == split_str(input@, delimiter_chars()),
                first_bad_meteor(pv.take(i as int)) is None,
            decreases meteors@.len() - i,
        {
            let trimmed = trim_str(meteors[i]);
            assert(trimmed@ == trim(pv[i as int]));
            assert(pv.take(i + 1).drop_last() =~= pv.take(i as int));
            if trimmed.unicode_len() > 0 && !starts_with(trimmed, "ctl:") && !is_valid_meteor_format(
                trimmed,
            ) {
                proof {
                    lemma_first_bad_meteor_stays(pv, i + 1);
                }
                let mut m = owned("Invalid meteor format: ");
                append(&mut m, trimmed);
                return Err(m);
            }
            i += 1;
        }
        assert(pv.take(i as int) =~= pv);
        Ok(())
    }

    /// Splits a stream at each `:;:` outside quotes, trimming the pieces and
    /// dropping blank ones.
    pub fn smart_split(input: &str) -> (r: Vec<String>)
        ensures
            r@.map_values(|p: String| p@) == multi_pieces(
                input@,
                delimiter_chars(),
                SplitConfig::meteor_streams_spec(':'),
            ),
    {
        let delim = METEOR_DELIMITER;
        proof {
            reveal_strlit(":;:");
            broadcast use vstd::string::is_ascii_spec_bytes;
        }
        assert(delim@ =~= delimiter_chars());
        assert(vstd::string::is_ascii(delim));
        assert(delim.len() == 3);
        smart_split_multi_char(input, delim, SplitConfig::meteor_streams(':'))
    }
}

} // verus!
