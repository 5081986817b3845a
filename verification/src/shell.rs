//! The interactive shell: each command line's reply, and the engine it
//! leaves, computed from the engine and the line. The shell's one dialog
//! (editing a scratch entry) is a small state machine that the caller drives
//! with the lines it reads.

use vstd::prelude::*;
use crate::console::{
    cli_history, cli_reset, history_report, output_text, reset_outcome, CommandText, OutputFormat,
    cursor_text, displayed, eq_ignore_ascii_case, same_ignoring_case, line, line2, line3, lines_of, nl, ns_display,
    ns_displays, push_lines,
};
use crate::engine::{stored_at, command_views, ControlCommand, deleted, path_parts, path_value, result_view, set_in, MeteorEngine};
use crate::key::flat_key;
use crate::meteor_stream::{delimiter_chars, first_bad_meteor, processed, MeteorStreamParser};
use crate::split::{multi_pieces, SplitConfig};
use crate::storage::{context_of, namespace_pairs, pairs_view, tree_namespaces, StorageView};
use crate::text::{
    is_ws, after_first_word, append, decimal, decimal_string, first_occurrence, first_word, find_char,
    join, next_word, owned, sorted_list, split_str, starts_with, str_eq, trim, trim_end, trim_end_str, trim_start,
    trim_start_str, trim_str, views,
};
use crate::token::{parse_tokens_spec, token_views, Token, TokenView};
use crate::workspace::with_key;

verus! {

/// Lines `PREFIX KEY = VALUE`.
pub open spec fn kv_lines(es: Seq<(Seq<char>, Seq<char>)>, prefix: Seq<char>) -> Seq<char>
    decreases es.len(),
{
    if es.len() == 0 {
        Seq::empty()
    } else {
        kv_lines(es.drop_last(), prefix) + nl(prefix + es.last().0 + " = "@ + es.last().1)
    }
}

fn push_kv_lines(out: &mut String, es: &Vec<(String, String)>, prefix: &str)
    ensures
        final(out)@ == old(out)@ + kv_lines(pairs_view(es@), prefix@),
{
    let ghost base = out@;
    let ghost ps = pairs_view(es@);
    let mut i: usize = 0;
    while i < es.len()
        invariant
            i <= es@.len(),
            ps == pairs_view(es@),
            out@ == base + kv_lines(ps.take(i as int), prefix@),
        decreases es@.len() - i,
    {
        append(out, prefix);
        append(out, es[i].0.as_str());
        line2(out, " = ", es[i].1.as_str());
        assert(ps.take(i + 1).drop_last() =~= ps.take(i as int));
        assert(ps.take(i + 1).last() == (es@[i as int].0@, es@[i as int].1@));
        assert(out@ =~= base + kv_lines(ps.take(i + 1), prefix@));
        i += 1;
    }
    assert(ps.take(i as int) =~= ps);
}

/// The context that holds the scratch pad.
pub open spec fn mem_context() -> Seq<char> {
    "_mem"@
}

/// One namespace in the engine listing.
pub open spec fn ns_block(cv: crate::storage::ContextView, ns: Seq<char>) -> Seq<char> {
    nl("  Namespace: "@ + ns_display(ns)) + kv_lines(namespace_pairs(cv, ns), "    "@)
}

/// The first `k` namespaces in a context's listing.
pub open spec fn ns_blocks(cv: crate::storage::ContextView, nss: Seq<Seq<char>>, k: int) -> Seq<char>
    decreases k,
{
    if k <= 0 {
        Seq::empty()
    } else {
        ns_blocks(cv, nss, k - 1) + ns_block(cv, nss[k - 1])
    }
}

/// One context in the engine listing; the scratch pad's is marked.
pub open spec fn ctx_block(d: StorageView, c: Seq<char>) -> Seq<char> {
    let cv = context_of(d, c);
    let nss = sorted_list(tree_namespaces(cv.1));
    nl("Context: "@ + c + (if c == mem_context() {
        " (scratch)"@
    } else {
        Seq::empty()
    })) + ns_blocks(cv, nss, nss.len() as int) + nl(Seq::empty())
}

/// The first `k` contexts in the engine listing.
pub open spec fn ctx_blocks(d: StorageView, cs: Seq<Seq<char>>, k: int) -> Seq<char>
    decreases k,
{
    if k <= 0 {
        Seq::empty()
    } else {
        ctx_blocks(d, cs, k - 1) + ctx_block(d, cs[k - 1])
    }
}

/// The whole state of an engine: cursor, then each context with its
/// namespaces and their values.
pub open spec fn state_text(e: MeteorEngine) -> Seq<char> {
    let cs = sorted_list(e.data().dom());
    if cs.len() == 0 {
        nl("(engine empty)"@)
    } else {
        nl("=== Meteor Engine State ==="@) + nl("Cursor: "@ + e.ctx() + ":"@ + join(e.ns(), "."@)) + nl(
            Seq::empty(),
        ) + ctx_blocks(e.data(), cs, cs.len() as int)
    }
}

fn push_ctx_block(out: &mut String, engine: &MeteorEngine, c: &str)
    ensures
        final(out)@ == old(out)@ + ctx_block(engine.data(), c@),
{
    proof {
        reveal_strlit("_mem");
        reveal_strlit("");
    }
    let ghost start = out@;
    let storage = engine.storage();
    let ghost cv = context_of(engine.data(), c@);
    if str_eq(c, "_mem") {
        line3(out, "Context: ", c, " (scratch)");
    } else {
        line2(out, "Context: ", c);
    }
    let ghost head = out@;
    let namespaces = storage.namespaces_in_context(c);
    let ghost nss = views(namespaces@);
    let mut j: usize = 0;
    while j < namespaces.len()
        invariant
            j <= namespaces@.len(),
            nss == views(namespaces@),
            cv == context_of(storage@, c@),
            out@ == head + ns_blocks(cv, nss, j as int),
        decreases namespaces@.len() - j,
    {
        let ns = namespaces[j].as_str();
        let entries = storage.get_all_keys_in_namespace(c, ns);
        if ns.unicode_len() == 0 {
            line2(out, "  Namespace: ", "(root)");
        } else {
            line2(out, "  Namespace: ", ns);
        }
        push_kv_lines(out, &entries, "    ");
        assert(nss[j as int] == ns@);
        assert(out@ =~= head + ns_blocks(cv, nss, j + 1));
        j += 1;
    }
    line(out, "");
    assert(out@ =~= start + ctx_block(engine.data(), c@));
}

/// The whole state of the engine, as the shell's `show` and `dump` list it.
pub fn render_engine(engine: &MeteorEngine) -> (r: String)
    ensures
        r@ == state_text(*engine),
{
    proof {
        reveal_strlit("");
    }
    let mut out = String::new();
    let contexts = engine.storage().contexts();
    let ghost cs = views(contexts@);
    if contexts.len() == 0 {
        line(&mut out, "(engine empty)");
        return out;
    }
    line(&mut out, "=== Meteor Engine State ===");
    let (ctx, ns) = cursor_text(engine);
    append(&mut out, "Cursor: ");
    line3(&mut out, ctx.as_str(), ":", ns.as_str());
    line(&mut out, "");
    let ghost head = out@;
    let mut i: usize = 0;
    while i < contexts.len()
        invariant
            i <= contexts@.len(),
            cs == views(contexts@),
            out@ == head + ctx_blocks(engine.data(), cs, i as int),
        decreases contexts@.len() - i,
    {
        push_ctx_block(&mut out, engine, contexts[i].as_str());
        assert(cs[i as int] == contexts@[i as int]@);
        assert(out@ =~= head + ctx_blocks(engine.data(), cs, i + 1));
        i += 1;
    }
    assert(out@ =~= state_text(*engine));
    out
}


/// The number of segments the shell reports for a stream.
pub open spec fn segment_count(input: Seq<char>) -> nat {
    multi_pieces(input, delimiter_chars(), SplitConfig::meteor_streams_spec(':')).len()
}

/// The shell's `parse`: processes a stream into the engine (`e0` before,
/// `e1` after) and lists what the engine then holds.
pub open spec fn parse_reply(e0: MeteorEngine, input: Seq<char>, e1: MeteorEngine, out: Seq<char>) -> bool {
    if input.len() == 0 {
        out == nl("Usage: parse <meteor_stream>"@) && e1 == e0
    } else {
        exists|res: Result<(), Seq<char>>|
            #[trigger] processed(e0, input, e1, res) && out == match res {
                Ok(_) => nl("Parsed "@ + decimal(segment_count(input)) + " segment(s)"@) + state_text(e1),
                Err(m) => nl("Parse error: "@ + m),
            }
    }
}

/// The shell's `parse` command.
pub fn handle_parse(engine: &mut MeteorEngine, input: &str) -> (out: String)
    ensures
        parse_reply(*old(engine), input@, *final(engine), out@),
{
    let mut out = String::new();
    if input.unicode_len() == 0 {
        line(&mut out, "Usage: parse <meteor_stream>");
        return out;
    }
    let res = MeteorStreamParser::process(engine, input);
    match res {
        Ok(()) => {
            let segments = MeteorStreamParser::smart_split(input);
            let n = decimal_string(segments.len() as u64);
            line3(&mut out, "Parsed ", n.as_str(), " segment(s)");
            let state = render_engine(engine);
            append(&mut out, state.as_str());
            assert(processed(*old(engine), input@, *engine, Ok(())));
        },
        Err(e) => {
            line2(&mut out, "Parse error: ", e.as_str());
            assert(processed(*old(engine), input@, *engine, result_view(Err(e))));
        },
    }
    out
}

/// The shell's reply to `validate`.
pub open spec fn validate_reply(input: Seq<char>) -> Seq<char> {
    if input.len() == 0 {
        nl("Usage: validate <meteor_stream>"@)
    } else {
        match first_bad_meteor(split_str(input, delimiter_chars())) {
            None => nl("✅ Valid meteor stream ("@ + decimal(segment_count(input)) + " segment"@ + (if segment_count(input) == 1 {
                Seq::empty()
            } else {
                "s"@
            }) + ")"@),
            Some(t) => nl("❌ Invalid stream: "@ + "Invalid meteor format: "@ + t),
        }
    }
}

/// The shell's `validate` command.
pub fn handle_validate(input: &str) -> (out: String)
    ensures
        out@ == validate_reply(input@),
{
    proof {
        reveal_strlit("");
    }
    let mut out = String::new();
    if input.unicode_len() == 0 {
        line(&mut out, "Usage: validate <meteor_stream>");
        return out;
    }
    match MeteorStreamParser::validate(input) {
        Ok(()) => {
            let segments = MeteorStreamParser::smart_split(input);
            let n = decimal_string(segments.len() as u64);
            append(&mut out, "✅ Valid meteor stream (");
            append(&mut out, n.as_str());
            append(&mut out, " segment");
            if segments.len() == 1 {
                line(&mut out, ")");
            } else {
                line2(&mut out, "s", ")");
            }
        },
        Err(e) => line2(&mut out, "❌ Invalid stream: ", e.as_str()),
    }
    out
}

/// One token in the shell's listing.
pub open spec fn token_entry(i: nat, t: TokenView) -> Seq<char> {
    nl("Token "@ + decimal(i) + ":"@) + (match t.0 {
        Some(ns) => nl("  Namespace: "@ + join(ns, "."@)),
        None => Seq::empty(),
    }) + nl("  Key: "@ + flat_key(t.1)) + nl("  Value: "@ + t.2)
}

/// The first `k` tokens in the shell's listing.
pub open spec fn token_entries(ts: Seq<TokenView>, k: int) -> Seq<char>
    decreases k,
{
    if k <= 0 {
        Seq::empty()
    } else {
        token_entries(ts, k - 1) + token_entry(k as nat, ts[k - 1])
    }
}

/// The shell's reply to `token`.
pub open spec fn token_reply(input: Seq<char>) -> Seq<char> {
    if input.len() == 0 {
        nl("Usage: token <token_stream>"@)
    } else {
        match parse_tokens_spec(input) {
            Ok(ts) => if ts.len() == 0 {
                nl("No tokens parsed"@)
            } else {
                nl("Parsed "@ + decimal(ts.len()) + " token(s):"@) + token_entries(ts, ts.len() as int)
            },
            Err(m) => nl("Parse error: "@ + m),
        }
    }
}

fn push_token_entry(out: &mut String, i: usize, t: &Token)
    requires
        i < usize::MAX,
    ensures
        final(out)@ == old(out)@ + token_entry((i + 1) as nat, t@),
{
    let ghost start = out@;
    let j: usize = i + 1;
    let k = decimal_string(j as u64);
    line3(out, "Token ", k.as_str(), ":");
    match t.namespace() {
        Some(ns) => line2(out, "  Namespace: ", ns.to_string().as_str()),
        None => {},
    }
    line2(out, "  Key: ", t.key().to_string().as_str());
    line2(out, "  Value: ", t.value());
    assert(out@ =~= start + token_entry((i + 1) as nat, t@));
}

/// The shell's `token` command.
pub fn handle_token(input: &str) -> (out: String)
    ensures
        out@ == token_reply(input@),
{
    let mut out = String::new();
    if input.unicode_len() == 0 {
        line(&mut out, "Usage: token <token_stream>");
        return out;
    }
    match Token::parse(input) {
        Ok(tokens) => {
            let ghost ts = token_views(tokens@);
            if tokens.len() == 0 {
                line(&mut out, "No tokens parsed");
                return out;
            }
            let n = decimal_string(tokens.len() as u64);
            line3(&mut out, "Parsed ", n.as_str(), " token(s):");
            let ghost head = out@;
            let mut i: usize = 0;
            while i < tokens.len()
                invariant
                    i <= tokens@.len(),
                    ts == token_views(tokens@),
                    out@ == head + token_entries(ts, i as int),
                decreases tokens@.len() - i,
            {
                assert(ts[i as int] == tokens@[i as int]@);
                push_token_entry(&mut out, i, &tokens[i]);
                assert(out@ =~= head + token_entries(ts, i + 1));
                i += 1;
            }
        },
        Err(e) => line2(&mut out, "Parse error: ", e.as_str()),
    }
    out
}

/// The shell's `set`: `PATH VALUE`, cut at the first space.
pub open spec fn set_reply(e0: MeteorEngine, input: Seq<char>, e1: MeteorEngine, out: Seq<char>) -> bool {
    let cut = first_occurrence(input, seq![' ']);
    let path = match cut {
        Some(i) => input.take(i),
        None => input,
    };
    let value = match cut {
        Some(i) => input.skip(i + 1),
        None => Seq::empty(),
    };
    if path.len() == 0 || value.len() == 0 {
        out == nl("Usage: set <context:namespace:key> <value>"@) && e1 == e0
    } else {
        &&& e1.work().1 == e0.work().1
        &&& e1.ctx() == e0.ctx()
        &&& e1.ns() == e0.ns()
        &&& e1.history() == e0.history()
        &&& match stored_at(e0.data(), e0.work().0, path, value) {
            Ok((d, w)) => out == nl("Stored '"@ + path + "'."@) && e1.data() == d && e1.work().0
                == w,
            Err(m) => out == nl("Set error: "@ + m) && e1.data() == e0.data() && e1.work()
                == e0.work(),
        }
    }
}

/// The shell's `set` command.
pub fn handle_set(engine: &mut MeteorEngine, input: &str) -> (out: String)
    ensures
        set_reply(*old(engine), input@, *final(engine), out@),
{
    let mut out = String::new();
    let n = input.unicode_len();
    let (path, value) = match find_char(input, ' ') {
        Some(i) => (input.substring_char(0, i), input.substring_char(i + 1, n)),
        None => (input, input.substring_char(n, n)),
    };
    assert(first_occurrence(input@, seq![' ']) matches Some(i) ==> path@ =~= input@.take(i) && value@
        =~= input@.skip(i + 1));
    if path.unicode_len() == 0 || value.unicode_len() == 0 {
        line(&mut out, "Usage: set <context:namespace:key> <value>");
        return out;
    }
    match engine.set(path, value) {
        Ok(()) => line3(&mut out, "Stored '", path, "'."),
        Err(e) => line2(&mut out, "Set error: ", e.as_str()),
    }
    out
}

/// The shell's reply to `get`.
pub open spec fn get_reply(d: StorageView, path: Seq<char>) -> Seq<char> {
    if path.len() == 0 {
        nl("Usage: get <context:namespace:key>"@)
    } else {
        match path_value(d, path) {
            Some(v) => nl(path + " = "@ + v),
            None => nl(path + " not found"@),
        }
    }
}

/// The shell's `get` command.
pub fn handle_get(engine: &MeteorEngine, path: &str) -> (out: String)
    ensures
        out@ == get_reply(engine.data(), path@),
{
    let mut out = String::new();
    if path.unicode_len() == 0 {
        line(&mut out, "Usage: get <context:namespace:key>");
        return out;
    }
    match engine.get(path) {
        Some(v) => line3(&mut out, path, " = ", v),
        None => line2(&mut out, path, " not found"),
    }
    out
}

/// The shell's `delete`.
pub open spec fn delete_reply(e0: MeteorEngine, path: Seq<char>, e1: MeteorEngine, out: Seq<char>) -> bool {
    if path.len() == 0 {
        out == nl("Usage: delete <context:namespace:key>"@) && e1 == e0
    } else {
        &&& e1.work().1 == e0.work().1
        &&& e1.ctx() == e0.ctx()
        &&& e1.ns() == e0.ns()
        &&& e1.history() == e0.history()
        &&& match path_parts(path) {
            Err(m) => out == nl("Delete error: "@ + m) && e1.data() == e0.data() && e1.work()
                == e0.work(),
            Ok((c, n, k)) => exists|b: bool|
                deleted(e0.data(), e0.work().0, e1.data(), e1.work().0, c, n, k, b) && out == (if b {
                    nl("Removed "@ + path)
                } else {
                    nl("Nothing removed"@)
                }),
        }
    }
}

/// The shell's `delete` command.
pub fn handle_delete(engine: &mut MeteorEngine, path: &str) -> (out: String)
    ensures
        delete_reply(*old(engine), path@, *final(engine), out@),
{
    let mut out = String::new();
    if path.unicode_len() == 0 {
        line(&mut out, "Usage: delete <context:namespace:key>");
        return out;
    }
    match engine.delete(path) {
        Ok(true) => line2(&mut out, "Removed ", path),
        Ok(false) => line(&mut out, "Nothing removed"),
        Err(e) => line2(&mut out, "Delete error: ", e.as_str()),
    }
    out
}

/// The shell's reply to `contexts`.
pub open spec fn contexts_reply(d: StorageView) -> Seq<char> {
    let cs = sorted_list(d.dom());
    if cs.len() == 0 {
        nl("No contexts"@)
    } else {
        nl("Contexts:"@) + lines_of(cs, "  "@, ""@)
    }
}

/// The shell's `contexts` command.
pub fn handle_contexts(engine: &MeteorEngine) -> (out: String)
    ensures
        out@ == contexts_reply(engine.data()),
{
    let mut out = String::new();
    let contexts = engine.contexts();
    if contexts.len() == 0 {
        line(&mut out, "No contexts");
    } else {
        line(&mut out, "Contexts:");
        push_lines(&mut out, &contexts, "  ", "");
    }
    out
}

/// The shell's reply to `namespaces`.
pub open spec fn namespaces_reply(d: StorageView, input: Seq<char>) -> Seq<char> {
    let c = trim(input);
    if c.len() == 0 {
        nl("Usage: namespaces <context>"@)
    } else {
        let nss = sorted_list(tree_namespaces(context_of(d, c).1));
        if nss.len() == 0 {
            nl("No namespaces for "@ + c)
        } else {
            nl("Namespaces in "@ + c + ":"@) + lines_of(ns_displays(nss), "  "@, ""@)
        }
    }
}

/// The shell's `namespaces` command.
pub fn handle_namespaces(engine: &MeteorEngine, input: &str) -> (out: String)
    ensures
        out@ == namespaces_reply(engine.data(), input@),
{
    let mut out = String::new();
    let context = trim_str(input);
    if context.unicode_len() == 0 {
        line(&mut out, "Usage: namespaces <context>");
        return out;
    }
    let namespaces = engine.namespaces_in_context(context);
    if namespaces.len() == 0 {
        line2(&mut out, "No namespaces for ", context);
        return out;
    }
    line3(&mut out, "Namespaces in ", context, ":");
    let shown = displayed(&namespaces);
    push_lines(&mut out, &shown, "  ", "");
    out
}

/// The shell's reply to `list`.
pub open spec fn list_reply(d: StorageView, input: Seq<char>) -> Seq<char> {
    let c = first_word(input);
    let n = first_word(after_first_word(input));
    if c.len() == 0 {
        nl("Usage: list <context> [namespace]"@)
    } else {
        let es = namespace_pairs(context_of(d, c), n);
        if es.len() == 0 {
            nl("No entries for "@ + c + ":"@ + ns_display(n))
        } else {
            nl("Entries for "@ + c + ":"@ + ns_display(n) + ":"@) + kv_lines(es, "  "@)
        }
    }
}

/// The shell's `list` command.
pub fn handle_list(engine: &MeteorEngine, input: &str) -> (out: String)
    ensures
        out@ == list_reply(engine.data(), input@),
{
    proof {
        reveal_strlit("(root)");
    }
    let mut out = String::new();
    let (context, rest) = next_word(input);
    if context.unicode_len() == 0 {
        line(&mut out, "Usage: list <context> [namespace]");
        return out;
    }
    let (namespace, _) = next_word(rest);
    let shown = if namespace.unicode_len() == 0 {
        "(root)"
    } else {
        namespace
    };
    let entries = engine.storage().get_all_keys_in_namespace(context, namespace);
    if entries.len() == 0 {
        append(&mut out, "No entries for ");
        line3(&mut out, context, ":", shown);
        return out;
    }
    append(&mut out, "Entries for ");
    append(&mut out, context);
    line3(&mut out, ":", shown, ":");
    push_kv_lines(&mut out, &entries, "  ");
    out
}


/// `s` without its leading `c`s (`trim_start_matches` with a char).
pub open spec fn strip_leading(s: Seq<char>, c: char) -> Seq<char>
    decreases s.len(),
{
    if s.len() > 0 && s[0] == c {
        strip_leading(s.drop_first(), c)
    } else {
        s
    }
}

/// `s` with each whitespace char turned into `_`.
pub open spec fn underscored(s: Seq<char>) -> Seq<char> {
    s.map_values(|c: char| if is_ws(c) { '_' } else { c })
}

/// The scratch slot that a name denotes: trimmed, without leading `$`s,
/// whitespace turned into `_`; none where nothing is left.
pub open spec fn slot_name(raw: Seq<char>) -> Option<Seq<char>> {
    let cleaned = underscored(strip_leading(trim(raw), '$'));
    if cleaned.len() == 0 {
        None
    } else {
        Some(cleaned)
    }
}

proof fn lemma_strip_leading(s: Seq<char>, c: char, a: int)
    requires
        0 <= a <= s.len(),
        forall|j: int| 0 <= j < a ==> s[j] == c,
        a == s.len() || s[a] != c,
    ensures
        strip_leading(s, c) == s.skip(a),
    decreases a,
{
    if a == 0 {
        assert(s.skip(0) =~= s);
    } else {
        lemma_strip_leading(s.drop_first(), c, a - 1);
        assert(s.drop_first().skip(a - 1) =~= s.skip(a));
    }
}

/// The scratch slot that a name denotes.
pub fn mem_slot_name(raw: &str) -> (r: Option<String>)
    ensures
        match slot_name(raw@) {
            Some(n) => r matches Some(s) && s@ == n,
            None => r is None,
        },
{
    let t = trim_str(raw);
    let n = t.unicode_len();
    let mut a: usize = 0;
    while a < n && t.get_char(a) == '$'
        invariant
            n == t@.len(),
            a <= n,
            forall|j: int| 0 <= j < a ==> t@[j] == '$',
        decreases n - a,
    {
        a += 1;
    }
    proof {
        lemma_strip_leading(t@, '$', a as int);
    }
    let ghost w = t@.skip(a as int);
    let mut out = String::new();
    let mut i: usize = a;
    while i < n
        invariant
            n == t@.len(),
            a <= i <= n,
            w == t@.skip(a as int),
            out@ == underscored(w.take(i - a)),
        decreases n - i,
    {
        let c = t.get_char(i);
        if crate::text::is_whitespace(c) {
            crate::text::push_char(&mut out, '_');
        } else {
            crate::text::push_char(&mut out, c);
        }
        assert(w[i - a] == c);
        assert(underscored(w.take(i + 1 - a)) =~= underscored(w.take(i - a)).push(
            if is_ws(c) { '_' } else { c },
        ));
        i += 1;
    }
    assert(w.take(n - a) =~= w);
    if out.unicode_len() == 0 {
        None
    } else {
        Some(out)
    }
}

/// The path of a scratch slot.
pub open spec fn mem_path(slot: Seq<char>) -> Seq<char> {
    "_mem:scratch:"@ + slot
}

fn slot_path(slot: &str) -> (r: String)
    ensures
        r@ == mem_path(slot@),
{
    let mut p = owned("_mem:scratch:");
    append(&mut p, slot);
    p
}

/// The parts of an engine that only storing and deleting values leave alone
/// are as they were.
pub open spec fn cursor_kept(e0: MeteorEngine, e1: MeteorEngine) -> bool {
    &&& e1.work().1 == e0.work().1
    &&& e1.ctx() == e0.ctx()
    &&& e1.ns() == e0.ns()
    &&& e1.history() == e0.history()
}

/// Storing `value` at `path` (`e0` before, `e1` after), replying `ok` or the
/// error after `err_prefix`.
pub open spec fn store_reply(
    e0: MeteorEngine,
    path: Seq<char>,
    value: Seq<char>,
    e1: MeteorEngine,
    out: Seq<char>,
    ok: Seq<char>,
    err_prefix: Seq<char>,
) -> bool {
    &&& cursor_kept(e0, e1)
    &&& match stored_at(e0.data(), e0.work().0, path, value) {
        Ok((d, w)) => out == ok && e1.data() == d && e1.work().0 == w,
        Err(m) => out == nl(err_prefix + m) && e1.data() == e0.data() && e1.work() == e0.work(),
    }
}

fn store_at(engine: &mut MeteorEngine, path: &str, value: &str, ok: &str, err_prefix: &str) -> (out: String)
    ensures
        store_reply(*old(engine), path@, value@, *final(engine), out@, ok@, err_prefix@),
{
    let mut out = String::new();
    match engine.set(path, value) {
        Ok(()) => append(&mut out, ok),
        Err(e) => line2(&mut out, err_prefix, e.as_str()),
    }
    out
}

/// `mem set NAME VALUE`.
pub open spec fn mem_set_reply(e0: MeteorEngine, raw: Seq<char>, value: Seq<char>, e1: MeteorEngine, out: Seq<char>) -> bool {
    match slot_name(raw) {
        None => out == nl("Invalid name"@) && e1 == e0,
        Some(slot) => store_reply(e0, mem_path(slot), value, e1, out, nl("Stored $"@ + slot), "Set error: "@),
    }
}

/// Stores a value in a scratch slot.
pub fn mem_set(engine: &mut MeteorEngine, raw_name: &str, value: &str) -> (out: String)
    ensures
        mem_set_reply(*old(engine), raw_name@, value@, *final(engine), out@),
{
    match mem_slot_name(raw_name) {
        None => {
            let mut out = String::new();
            line(&mut out, "Invalid name");
            out
        },
        Some(slot) => {
            let path = slot_path(slot.as_str());
            let mut ok = String::new();
            line2(&mut ok, "Stored $", slot.as_str());
            store_at(engine, path.as_str(), value, ok.as_str(), "Set error: ")
        },
    }
}

/// `mem get NAME`.
pub open spec fn mem_get_reply(d: StorageView, raw: Seq<char>) -> Seq<char> {
    match slot_name(raw) {
        None => nl("Invalid name"@),
        Some(slot) => match path_value(d, mem_path(slot)) {
            Some(v) => nl("$"@ + slot + " = "@ + v),
            None => nl("$"@ + slot + " is empty"@),
        },
    }
}

/// Shows a scratch slot.
pub fn mem_get(engine: &MeteorEngine, raw_name: &str) -> (out: String)
    ensures
        out@ == mem_get_reply(engine.data(), raw_name@),
{
    let mut out = String::new();
    match mem_slot_name(raw_name) {
        None => line(&mut out, "Invalid name"),
        Some(slot) => {
            let path = slot_path(slot.as_str());
            append(&mut out, "$");
            match engine.get(path.as_str()) {
                Some(v) => line3(&mut out, slot.as_str(), " = ", v),
                None => line2(&mut out, slot.as_str(), " is empty"),
            }
        },
    }
    out
}

/// `mem delete NAME`.
pub open spec fn mem_delete_reply(e0: MeteorEngine, raw: Seq<char>, e1: MeteorEngine, out: Seq<char>) -> bool {
    match slot_name(raw) {
        None => out == nl("Invalid name"@) && e1 == e0,
        Some(slot) => {
            &&& cursor_kept(e0, e1)
            &&& match path_parts(mem_path(slot)) {
                Err(m) => out == nl("Delete error: "@ + m) && e1.data() == e0.data() && e1.work()
                    == e0.work(),
                Ok((c, n, k)) => exists|b: bool|
                    deleted(e0.data(), e0.work().0, e1.data(), e1.work().0, c, n, k, b) && out == (
                    if b {
                        nl("Removed $"@ + slot)
                    } else {
                        nl("$"@ + slot + " was empty"@)
                    }),
            }
        },
    }
}

/// Empties a scratch slot.
pub fn mem_delete(engine: &mut MeteorEngine, raw_name: &str) -> (out: String)
    ensures
        mem_delete_reply(*old(engine), raw_name@, *final(engine), out@),
{
    let mut out = String::new();
    match mem_slot_name(raw_name) {
        None => line(&mut out, "Invalid name"),
        Some(slot) => {
            let path = slot_path(slot.as_str());
            match engine.delete(path.as_str()) {
                Ok(true) => line2(&mut out, "Removed $", slot.as_str()),
                Ok(false) => line3(&mut out, "$", slot.as_str(), " was empty"),
                Err(e) => line2(&mut out, "Delete error: ", e.as_str()),
            }
        },
    }
    out
}

/// `mem list`.
pub open spec fn mem_list_reply(d: StorageView) -> Seq<char> {
    let es = namespace_pairs(context_of(d, mem_context()), "scratch"@);
    if es.len() == 0 {
        nl("Scratch pad empty"@)
    } else {
        nl("Scratch entries:"@) + kv_lines(es, "  $"@)
    }
}

/// Lists the scratch slots.
pub fn mem_list(engine: &MeteorEngine) -> (out: String)
    ensures
        out@ == mem_list_reply(engine.data()),
{
    let mut out = String::new();
    let entries = engine.storage().get_all_keys_in_namespace("_mem", "scratch");
    if entries.len() == 0 {
        line(&mut out, "Scratch pad empty");
    } else {
        line(&mut out, "Scratch entries:");
        push_kv_lines(&mut out, &entries, "  $");
    }
    out
}


/// Where the shell stands between two lines: ready for a command, or in the
/// middle of editing a scratch slot.
pub enum ShellState {
    Ready,
    AwaitValue { slot: String },
    AwaitConfirm { slot: String, value: String },
}

/// What a shell state says, over text.
pub enum StateView {
    Ready,
    AwaitValue(Seq<char>),
    AwaitConfirm(Seq<char>, Seq<char>),
}

/// The view of a shell state.
pub open spec fn state_view(s: ShellState) -> StateView {
    match s {
        ShellState::Ready => StateView::Ready,
        ShellState::AwaitValue { slot } => StateView::AwaitValue(slot@),
        ShellState::AwaitConfirm { slot, value } => StateView::AwaitConfirm(slot@, value@),
    }
}

/// What the shell was handed: a line as read (with its line break), the end
/// of the input, or a read error with its text.
pub enum ShellInput {
    Line(String),
    End,
    ReadError(String),
}

/// The view of a shell input.
pub enum InputView {
    Line(Seq<char>),
    End,
    ReadError(Seq<char>),
}

/// The view of a shell input.
pub open spec fn input_view(i: ShellInput) -> InputView {
    match i {
        ShellInput::Line(s) => InputView::Line(s@),
        ShellInput::End => InputView::End,
        ShellInput::ReadError(e) => InputView::ReadError(e@),
    }
}

/// What one line gives: the next state, the text to print (a prompt ends
/// without a line break) and whether the shell ends.
pub struct ShellStep {
    pub state: ShellState,
    pub out: String,
    pub quit: bool,
}

/// The prompt that asks for a slot's new value.
pub open spec fn edit_prompt(slot: Seq<char>, current: Seq<char>) -> Seq<char> {
    nl("Editing $"@ + slot + " (current value: "@ + current + ")"@) + "Enter new value (leave blank to keep): "@
}

/// `mem edit NAME` (or `load NAME`): the shell shows the slot and asks for
/// its new value.
pub open spec fn edit_reply(d: StorageView, raw: Seq<char>, out: Seq<char>, next: StateView) -> bool {
    match slot_name(raw) {
        None => out == nl("Invalid name"@) && next == StateView::Ready,
        Some(slot) => next == StateView::AwaitValue(slot) && out == edit_prompt(
            slot,
            match path_value(d, mem_path(slot)) {
                Some(v) => v,
                None => Seq::empty(),
            },
        ),
    }
}

/// Starts editing a scratch slot.
pub fn mem_edit(engine: &MeteorEngine, raw_name: &str) -> (r: (String, ShellState))
    ensures
        edit_reply(engine.data(), raw_name@, r.0@, state_view(r.1)),
{
    proof {
        reveal_strlit("");
    }
    let mut out = String::new();
    match mem_slot_name(raw_name) {
        None => {
            line(&mut out, "Invalid name");
            (out, ShellState::Ready)
        },
        Some(slot) => {
            let path = slot_path(slot.as_str());
            let current = match engine.get(path.as_str()) {
                Some(v) => v,
                None => "",
            };
            append(&mut out, "Editing $");
            append(&mut out, slot.as_str());
            line3(&mut out, " (current value: ", current, ")");
            append(&mut out, "Enter new value (leave blank to keep): ");
            assert(out@ =~= edit_prompt(slot@, current@));
            (out, ShellState::AwaitValue { slot })
        },
    }
}

/// The help of the `mem` commands.
pub open spec fn mem_help() -> Seq<char> {
    nl("mem commands:"@) + nl("  mem help                 - show this help"@) + nl(
        "  mem list                 - list scratch entries"@,
    ) + nl("  mem set <name> <value>   - store value in scratch pad"@) + nl(
        "  mem get <name>           - show value for scratch entry"@,
    ) + nl("  mem edit <name>          - interactively edit entry"@) + nl(
        "  mem delete <name>        - remove scratch entry"@,
    ) + nl("  load <name>              - alias for 'mem edit'"@)
}

fn push_mem_help(out: &mut String)
    ensures
        final(out)@ == old(out)@ + mem_help(),
{
    let ghost start = out@;
    line(out, "mem commands:");
    line(out, "  mem help                 - show this help");
    line(out, "  mem list                 - list scratch entries");
    line(out, "  mem set <name> <value>   - store value in scratch pad");
    line(out, "  mem get <name>           - show value for scratch entry");
    line(out, "  mem edit <name>          - interactively edit entry");
    line(out, "  mem delete <name>        - remove scratch entry");
    line(out, "  load <name>              - alias for 'mem edit'");
    assert(out@ =~= start + mem_help());
}

/// The name and the value after `mem set`: the first word, and what follows
/// it with leading whitespace removed; none where either is empty.
pub open spec fn name_value(rest: Seq<char>) -> Option<(Seq<char>, Seq<char>)> {
    let name = first_word(rest);
    let value = trim_start(after_first_word(rest));
    if name.len() == 0 || value.len() == 0 {
        None
    } else {
        Some((name, value))
    }
}

/// The name and the value after `mem set`.
pub fn split_name_value(rest: &str) -> (r: Option<(&str, &str)>)
    ensures
        match name_value(rest@) {
            Some((n, v)) => r matches Some((a, b)) && a@ == n && b@ == v,
            None => r is None,
        },
{
    let (name, after) = next_word(rest);
    let value = trim_start_str(after);
    if name.unicode_len() == 0 || value.unicode_len() == 0 {
        None
    } else {
        Some((name, value))
    }
}

/// `s` begins with `p`; then what follows it.
pub open spec fn after_prefix(s: Seq<char>, p: Seq<char>) -> Option<Seq<char>> {
    if p.is_prefix_of(s) {
        Some(s.skip(p.len() as int))
    } else {
        None
    }
}

fn strip_prefix<'a>(s: &'a str, p: &str) -> (r: Option<&'a str>)
    ensures
        match after_prefix(s@, p@) {
            Some(t) => r matches Some(x) && x@ == t,
            None => r is None,
        },
{
    if starts_with(s, p) {
        let x = s.substring_char(p.unicode_len(), s.unicode_len());
        assert(x@ =~= s@.skip(p@.len() as int));
        Some(x)
    } else {
        None
    }
}

/// The shell's `mem` commands (`e0` before, `e1` after).
pub open spec fn mem_reply(e0: MeteorEngine, input: Seq<char>, e1: MeteorEngine, out: Seq<char>, next: StateView) -> bool {
    let t = trim(input);
    if t.len() == 0 || t == "help"@ {
        out == mem_help() && e1 == e0 && next == StateView::Ready
    } else if t == "list"@ {
        out == mem_list_reply(e0.data()) && e1 == e0 && next == StateView::Ready
    } else if after_prefix(t, "set"@) is Some {
        next == StateView::Ready && match name_value(after_prefix(t, "set"@)->0) {
            Some((n, v)) => mem_set_reply(e0, n, v, e1, out),
            None => out == nl("Usage: mem set <name> <value>"@) && e1 == e0,
        }
    } else if after_prefix(t, "get"@) is Some {
        let name = trim(after_prefix(t, "get"@)->0);
        e1 == e0 && next == StateView::Ready && out == (if name.len() == 0 {
            nl("Usage: mem get <name>"@)
        } else {
            mem_get_reply(e0.data(), name)
        })
    } else if after_prefix(t, "edit"@) is Some {
        let name = trim(after_prefix(t, "edit"@)->0);
        e1 == e0 && if name.len() == 0 {
            out == nl("Usage: mem edit <name>"@) && next == StateView::Ready
        } else {
            edit_reply(e0.data(), name, out, next)
        }
    } else if after_prefix(t, "delete"@) is Some {
        let name = trim(after_prefix(t, "delete"@)->0);
        next == StateView::Ready && if name.len() == 0 {
            out == nl("Usage: mem delete <name>"@) && e1 == e0
        } else {
            mem_delete_reply(e0, name, e1, out)
        }
    } else {
        out == nl("Unknown mem subcommand '"@ + first_word(t) + "'. Try 'mem help'."@) && e1 == e0
            && next == StateView::Ready
    }
}

/// The shell's `mem` command.
pub fn handle_mem(engine: &mut MeteorEngine, input: &str) -> (r: (String, ShellState))
    ensures
        mem_reply(*old(engine), input@, *final(engine), r.0@, state_view(r.1)),
{
    let mut out = String::new();
    let t = trim_str(input);
    if t.unicode_len() == 0 || str_eq(t, "help") {
        push_mem_help(&mut out);
        return (out, ShellState::Ready);
    }
    if str_eq(t, "list") {
        return (mem_list(engine), ShellState::Ready);
    }
    if let Some(rest) = strip_prefix(t, "set") {
        match split_name_value(rest) {
            Some((name, value)) => {
                return (mem_set(engine, name, value), ShellState::Ready);
            },
            None => {
                line(&mut out, "Usage: mem set <name> <value>");
                return (out, ShellState::Ready);
            },
        }
    }
    if let Some(rest) = strip_prefix(t, "get") {
        let name = trim_str(rest);
        if name.unicode_len() == 0 {
            line(&mut out, "Usage: mem get <name>");
            return (out, ShellState::Ready);
        }
        return (mem_get(engine, name), ShellState::Ready);
    }
    if let Some(rest) = strip_prefix(t, "edit") {
        let name = trim_str(rest);
        if name.unicode_len() == 0 {
            line(&mut out, "Usage: mem edit <name>");
            return (out, ShellState::Ready);
        }
        return mem_edit(engine, name);
    }
    if let Some(rest) = strip_prefix(t, "delete") {
        let name = trim_str(rest);
        if name.unicode_len() == 0 {
            line(&mut out, "Usage: mem delete <name>");
            return (out, ShellState::Ready);
        }
        return (mem_delete(engine, name), ShellState::Ready);
    }
    let (w, _) = next_word(t);
    line3(&mut out, "Unknown mem subcommand '", w, "'. Try 'mem help'.");
    (out, ShellState::Ready)
}

/// The shell's `load NAME`, an alias of `mem edit NAME`.
pub open spec fn load_reply(d: StorageView, input: Seq<char>, out: Seq<char>, next: StateView) -> bool {
    if trim(input).len() == 0 {
        out == nl("Usage: load <name>"@) && next == StateView::Ready
    } else {
        edit_reply(d, input, out, next)
    }
}

/// The shell's `load` command.
pub fn handle_load(engine: &MeteorEngine, name: &str) -> (r: (String, ShellState))
    ensures
        load_reply(engine.data(), name@, r.0@, state_view(r.1)),
{
    if trim_str(name).unicode_len() == 0 {
        let mut out = String::new();
        line(&mut out, "Usage: load <name>");
        return (out, ShellState::Ready);
    }
    mem_edit(engine, name)
}


/// The shell's help.
pub open spec fn help_text() -> Seq<char> {
    nl("Available commands:"@) + nl("  parse <stream>            - parse meteor stream into engine"@)
        + nl("  validate <stream>         - validate meteor stream without storing"@) + nl(
        "  token <stream>            - parse token stream (no context)"@,
    ) + nl("  set <path> <value>        - store value at context:namespace:key"@) + nl(
        "  get <path>                - read value at context:namespace:key"@,
    ) + nl("  delete <path>             - remove value at context:namespace:key"@) + nl(
        "  contexts                  - list contexts"@,
    ) + nl("  namespaces <context>      - list namespaces in context"@) + nl(
        "  list <context> [ns]       - list key/value pairs for context/namespace"@,
    ) + nl("  mem <cmd> [...]           - scratch-pad helpers (see 'mem help')"@) + nl(
        "  load <name>               - edit scratch entry (alias for 'mem edit')"@,
    ) + nl("  dump | show               - print complete engine state"@) + nl(
        "  help                      - this help message"@,
    ) + nl("  exit | quit               - leave the REPL"@)
}

/// The shell's help.
pub fn help_lines() -> (out: String)
    ensures
        out@ == help_text(),
{
    let mut out = String::new();
    line(&mut out, "Available commands:");
    line(&mut out, "  parse <stream>            - parse meteor stream into engine");
    line(&mut out, "  validate <stream>         - validate meteor stream without storing");
    line(&mut out, "  token <stream>            - parse token stream (no context)");
    line(&mut out, "  set <path> <value>        - store value at context:namespace:key");
    line(&mut out, "  get <path>                - read value at context:namespace:key");
    line(&mut out, "  delete <path>             - remove value at context:namespace:key");
    line(&mut out, "  contexts                  - list contexts");
    line(&mut out, "  namespaces <context>      - list namespaces in context");
    line(&mut out, "  list <context> [ns]       - list key/value pairs for context/namespace");
    line(&mut out, "  mem <cmd> [...]           - scratch-pad helpers (see 'mem help')");
    line(&mut out, "  load <name>               - edit scratch entry (alias for 'mem edit')");
    line(&mut out, "  dump | show               - print complete engine state");
    line(&mut out, "  help                      - this help message");
    line(&mut out, "  exit | quit               - leave the REPL");
    assert(out@ =~= help_text());
    out
}

/// The command word of a shell line: what precedes its first space.
pub open spec fn command_of(l: Seq<char>) -> Seq<char> {
    match first_occurrence(l, seq![' ']) {
        Some(i) => l.take(i),
        None => l,
    }
}

/// The argument of a shell line: what follows its first space, trimmed.
pub open spec fn argument_of(l: Seq<char>) -> Seq<char> {
    match first_occurrence(l, seq![' ']) {
        Some(i) => trim(l.skip(i + 1)),
        None => Seq::empty(),
    }
}

/// A shell command that only reads the engine: its reply.
pub open spec fn query_reply(d: StorageView, e: MeteorEngine, cmd: Seq<char>, rest: Seq<char>) -> Seq<char> {
    if cmd == "validate"@ {
        validate_reply(rest)
    } else if cmd == "token"@ {
        token_reply(rest)
    } else if cmd == "get"@ {
        get_reply(d, rest)
    } else if cmd == "contexts"@ {
        contexts_reply(d)
    } else if cmd == "namespaces"@ {
        namespaces_reply(d, rest)
    } else if cmd == "list"@ {
        list_reply(d, rest)
    } else if cmd == "dump"@ || cmd == "show"@ {
        state_text(e)
    } else if cmd == "help"@ {
        help_text()
    } else {
        nl("Unknown command '"@ + cmd + "'. Try 'help'."@)
    }
}

/// What a shell command does (`e0` before, `e1` after) and replies.
pub open spec fn command_reply(
    e0: MeteorEngine,
    cmd: Seq<char>,
    rest: Seq<char>,
    e1: MeteorEngine,
    out: Seq<char>,
    next: StateView,
) -> bool {
    if cmd == "parse"@ {
        parse_reply(e0, rest, e1, out) && next == StateView::Ready
    } else if cmd == "set"@ {
        set_reply(e0, rest, e1, out) && next == StateView::Ready
    } else if cmd == "delete"@ {
        delete_reply(e0, rest, e1, out) && next == StateView::Ready
    } else if cmd == "mem"@ {
        mem_reply(e0, rest, e1, out, next)
    } else if cmd == "load"@ {
        load_reply(e0.data(), rest, out, next) && e1 == e0
    } else if cmd == "reset"@ {
        next == StateView::Ready && exists|t: CommandText|
            #[trigger] reset_outcome(e0, rest, OutputFormat::Text, e1, t) && out == t.1 + t.2
    } else if cmd == "history"@ {
        next == StateView::Ready && e1 == e0 && exists|cs: Seq<ControlCommand>|
            #[trigger] command_views(cs) == e0.history() && out == history_report(
                cs,
                None,
                OutputFormat::Text,
            ).1
    } else {
        out == query_reply(e0.data(), e0, cmd, rest) && e1 == e0 && next == StateView::Ready
    }
}

fn run_query(engine: &MeteorEngine, cmd: &str, rest: &str) -> (out: String)
    ensures
        out@ == query_reply(engine.data(), *engine, cmd@, rest@),
{
    if str_eq(cmd, "validate") {
        handle_validate(rest)
    } else if str_eq(cmd, "token") {
        handle_token(rest)
    } else if str_eq(cmd, "get") {
        handle_get(engine, rest)
    } else if str_eq(cmd, "contexts") {
        handle_contexts(engine)
    } else if str_eq(cmd, "namespaces") {
        handle_namespaces(engine, rest)
    } else if str_eq(cmd, "list") {
        handle_list(engine, rest)
    } else if str_eq(cmd, "dump") || str_eq(cmd, "show") {
        render_engine(engine)
    } else if str_eq(cmd, "help") {
        help_lines()
    } else {
        let mut out = String::new();
        line3(&mut out, "Unknown command '", cmd, "'. Try 'help'.");
        out
    }
}

/// Runs one shell command.
pub fn run_command(engine: &mut MeteorEngine, cmd: &str, rest: &str) -> (r: (String, ShellState))
    ensures
        command_reply(*old(engine), cmd@, rest@, *final(engine), r.0@, state_view(r.1)),
{
    if str_eq(cmd, "parse") {
        (handle_parse(engine, rest), ShellState::Ready)
    } else if str_eq(cmd, "set") {
        (handle_set(engine, rest), ShellState::Ready)
    } else if str_eq(cmd, "delete") {
        (handle_delete(engine, rest), ShellState::Ready)
    } else if str_eq(cmd, "mem") {
        handle_mem(engine, rest)
    } else if str_eq(cmd, "load") {
        handle_load(engine, rest)
    } else if str_eq(cmd, "reset") {
        let r = cli_reset(engine, rest, OutputFormat::Text);
        assert(reset_outcome(*old(engine), rest@, OutputFormat::Text, *engine, output_text(r)));
        let mut out = r.out;
        append(&mut out, r.err.as_str());
        (out, ShellState::Ready)
    } else if str_eq(cmd, "history") {
        let commands = engine.command_history();
        let r = cli_history(commands, None, OutputFormat::Text);
        assert(command_views(commands@) == engine.history());
        (r.out, ShellState::Ready)
    } else {
        (run_query(engine, cmd, rest), ShellState::Ready)
    }
}

/// What the shell does with a line when it is ready for a command.
pub open spec fn ready_reply(
    e0: MeteorEngine,
    raw: Seq<char>,
    e1: MeteorEngine,
    out: Seq<char>,
    next: StateView,
    quit: bool,
) -> bool {
    let l = trim(raw);
    if l.len() == 0 {
        out == Seq::<char>::empty() && e1 == e0 && next == StateView::Ready && !quit
    } else if l == "exit"@ || l == "quit"@ {
        out == nl("bye"@) && e1 == e0 && next == StateView::Ready && quit
    } else if l == "help"@ {
        out == help_text() && e1 == e0 && next == StateView::Ready && !quit
    } else {
        !quit && command_reply(e0, command_of(l), argument_of(l), e1, out, next)
    }
}

fn ready_line(engine: &mut MeteorEngine, raw: &str) -> (r: ShellStep)
    ensures
        ready_reply(*old(engine), raw@, *final(engine), r.out@, state_view(r.state), r.quit),
{
    let l = trim_str(raw);
    if l.unicode_len() == 0 {
        return ShellStep { state: ShellState::Ready, out: String::new(), quit: false };
    }
    if str_eq(l, "exit") || str_eq(l, "quit") {
        let mut out = String::new();
        line(&mut out, "bye");
        return ShellStep { state: ShellState::Ready, out, quit: true };
    }
    if str_eq(l, "help") {
        return ShellStep { state: ShellState::Ready, out: help_lines(), quit: false };
    }
    let n = l.unicode_len();
    let (cmd, rest) = match find_char(l, ' ') {
        Some(i) => (l.substring_char(0, i), trim_str(l.substring_char(i + 1, n))),
        None => (l, l.substring_char(n, n)),
    };
    assert(cmd@ =~= command_of(l@));
    assert(rest@ =~= argument_of(l@));
    let (out, state) = run_command(engine, cmd, rest);
    ShellStep { state, out, quit: false }
}


/// The text of a line handed to a dialog: the end of the input reads as an
/// empty line.
pub open spec fn dialog_text(i: InputView) -> Seq<char> {
    match i {
        InputView::Line(s) => s,
        _ => Seq::empty(),
    }
}

/// The dialog's answer to the new value of `slot`.
pub open spec fn value_reply(slot: Seq<char>, input: InputView, out: Seq<char>, next: StateView) -> bool {
    match input {
        InputView::ReadError(e) => out == nl("Read error: "@ + e) && next == StateView::Ready,
        _ => {
            let v = trim_end(dialog_text(input));
            if v.len() == 0 {
                out == nl("No change"@) && next == StateView::Ready
            } else {
                out == "Save to $"@ + slot + "? [y/N]: "@ && next == StateView::AwaitConfirm(slot, v)
            }
        },
    }
}

/// The dialog's answer to the confirmation of storing `value` in `slot`: a
/// reply of `y` or `yes`, in any case, stores it.
pub open spec fn confirm_reply(
    e0: MeteorEngine,
    slot: Seq<char>,
    value: Seq<char>,
    input: InputView,
    e1: MeteorEngine,
    out: Seq<char>,
) -> bool {
    match input {
        InputView::ReadError(_) => out == Seq::<char>::empty() && e1 == e0,
        _ => {
            let reply = trim(dialog_text(input));
            if eq_ignore_ascii_case(reply, "y"@) || eq_ignore_ascii_case(reply, "yes"@) {
                store_reply(e0, mem_path(slot), value, e1, out, nl("Saved $"@ + slot), "Save error: "@)
            } else {
                out == nl("Discarded"@) && e1 == e0
            }
        },
    }
}

/// What the shell does with one input in a state (`e0` before, `e1` after).
pub open spec fn step_reply(
    e0: MeteorEngine,
    state: StateView,
    input: InputView,
    e1: MeteorEngine,
    out: Seq<char>,
    next: StateView,
    quit: bool,
) -> bool {
    match state {
        StateView::Ready => match input {
            InputView::Line(raw) => ready_reply(e0, raw, e1, out, next, quit),
            InputView::End => out == nl("bye"@) && e1 == e0 && next == StateView::Ready && quit,
            InputView::ReadError(e) => out == nl("Read error: "@ + e) && e1 == e0 && next
                == StateView::Ready && !quit,
        },
        StateView::AwaitValue(slot) => value_reply(slot, input, out, next) && e1 == e0 && !quit,
        StateView::AwaitConfirm(slot, value) => confirm_reply(e0, slot, value, input, e1, out) && next
            == StateView::Ready && !quit,
    }
}

fn dialog_line(input: &ShellInput) -> (r: &str)
    requires
        !(input is ReadError),
    ensures
        r@ == dialog_text(input_view(*input)),
{
    proof {
        reveal_strlit("");
    }
    match input {
        ShellInput::Line(s) => s.as_str(),
        _ => "",
    }
}

/// One step of the shell: what it prints for the input in its state, the
/// state it goes to, and whether it ends.
pub fn shell_step(engine: &mut MeteorEngine, state: ShellState, input: ShellInput) -> (r: ShellStep)
    ensures
        step_reply(
            *old(engine),
            state_view(state),
            input_view(input),
            *final(engine),
            r.out@,
            state_view(r.state),
            r.quit,
        ),
{
    proof {
        reveal_strlit("");
    }
    match state {
        ShellState::Ready => match input {
            ShellInput::Line(raw) => ready_line(engine, raw.as_str()),
            ShellInput::End => {
                let mut out = String::new();
                line(&mut out, "bye");
                ShellStep { state: ShellState::Ready, out, quit: true }
            },
            ShellInput::ReadError(e) => {
                let mut out = String::new();
                line2(&mut out, "Read error: ", e.as_str());
                ShellStep { state: ShellState::Ready, out, quit: false }
            },
        },
        ShellState::AwaitValue { slot } => {
            let mut out = String::new();
            if let ShellInput::ReadError(e) = &input {
                line2(&mut out, "Read error: ", e.as_str());
                return ShellStep { state: ShellState::Ready, out, quit: false };
            }
            let v = trim_end_str(dialog_line(&input));
            if v.unicode_len() == 0 {
                line(&mut out, "No change");
                return ShellStep { state: ShellState::Ready, out, quit: false };
            }
            append(&mut out, "Save to $");
            append(&mut out, slot.as_str());
            append(&mut out, "? [y/N]: ");
            let value = owned(v);
            ShellStep { state: ShellState::AwaitConfirm { slot, value }, out, quit: false }
        },
        ShellState::AwaitConfirm { slot, value } => {
            if let ShellInput::ReadError(_) = &input {
                return ShellStep { state: ShellState::Ready, out: String::new(), quit: false };
            }
            let reply = trim_str(dialog_line(&input));
            let out = if same_ignoring_case(reply, "y") || same_ignoring_case(reply, "yes") {
                let path = slot_path(slot.as_str());
                let mut ok = String::new();
                line2(&mut ok, "Saved $", slot.as_str());
                store_at(engine, path.as_str(), value.as_str(), ok.as_str(), "Save error: ")
            } else {
                let mut out = String::new();
                line(&mut out, "Discarded");
                out
            };
            ShellStep { state: ShellState::Ready, out, quit: false }
        },
    }
}

} // verus!
