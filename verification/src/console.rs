//! What the command line and the interactive shell print: each command's
//! output text and exit code, computed from the engine and the input.

use vstd::prelude::*;
use crate::engine::{stored_at, all_entries, control_outcome, deleted, path_parts, path_value, result_view, set_in, ControlCommand, EntryView, MeteorEngine};
use crate::meteor_stream::{delimiter_chars, first_bad_meteor, processed, MeteorStreamParser};
use crate::split::{multi_pieces, SplitConfig};
use crate::storage::{context_of, namespace_pairs, pairs_view, tree_namespaces, StorageView};
use crate::token::parse_tokens_spec;
use crate::workspace::with_key;
use crate::key::flat_key;
use crate::text::{after_first_word, append, contains_char, decimal, first_word, next_word, decimal_string, first_occurrence, find_char, join, owned, push_char, sorted_list, split_str, str_eq, trim, trim_str, views};
use crate::token::{token_text, token_views, Token, TokenView};

verus! {

/// The output format a command was asked for.
#[derive(Debug, Clone, Copy, PartialEq, Eq, Structural)]
pub enum OutputFormat {
    Text,
    Json,
    Debug,
}

/// `c` in lower case where it is an ASCII capital.
pub open spec fn ascii_lower(c: char) -> char {
    if 'A' <= c && c <= 'Z' {
        ((c as u32) + 32) as char
    } else {
        c
    }
}

/// `a` and `b` are equal but for the case of ASCII letters.
pub open spec fn eq_ignore_ascii_case(a: Seq<char>, b: Seq<char>) -> bool {
    a.len() == b.len() && forall|i: int| 0 <= i < a.len() ==> ascii_lower(#[trigger] a[i]) == ascii_lower(b[i])
}

fn lower(c: char) -> (r: char)
    ensures
        r == ascii_lower(c),
{
    if 'A' <= c && c <= 'Z' {
        let b = (c as u8) + 32;
        b as char
    } else {
        c
    }
}

pub(crate) fn same_ignoring_case(a: &str, b: &str) -> (r: bool)
    ensures
        r == eq_ignore_ascii_case(a@, b@),
{
    let n = a.unicode_len();
    if n != b.unicode_len() {
        return false;
    }
    let mut i: usize = 0;
    while i < n
        invariant
            n == a@.len(),
            n == b@.len(),
            i <= n,
            forall|j: int| 0 <= j < i ==> ascii_lower(#[trigger] a@[j]) == ascii_lower(b@[j]),
        decreases n - i,
    {
        if lower(a.get_char(i)) != lower(b.get_char(i)) {
            return false;
        }
        i += 1;
    }
    true
}

/// The format named by an option value: `json` or `debug` in any case, else
/// text.
pub fn resolve_format(raw: &str) -> (r: OutputFormat)
    ensures
        eq_ignore_ascii_case(raw@, "json"@) ==> r == OutputFormat::Json,
        !eq_ignore_ascii_case(raw@, "json"@) && eq_ignore_ascii_case(raw@, "debug"@) ==> r
            == OutputFormat::Debug,
        !eq_ignore_ascii_case(raw@, "json"@) && !eq_ignore_ascii_case(raw@, "debug"@) ==> r
            == OutputFormat::Text,
{
    if same_ignoring_case(raw, "json") {
        OutputFormat::Json
    } else if same_ignoring_case(raw, "debug") {
        OutputFormat::Debug
    } else {
        OutputFormat::Text
    }
}

/// What a command prints and the code it exits with.
pub struct CommandOutput {
    pub code: i32,
    pub out: String,
    pub err: String,
}

/// A printed line.
pub open spec fn nl(s: Seq<char>) -> Seq<char> {
    s + seq!['\n']
}

/// A namespace as listed: `(root)` for the empty one.
pub open spec fn ns_display(ns: Seq<char>) -> Seq<char> {
    if ns.len() == 0 {
        "(root)"@
    } else {
        ns
    }
}

pub(crate) fn line(out: &mut String, s: &str)
    ensures
        final(out)@ == old(out)@ + nl(s@),
{
    append(out, s);
    push_char(out, '\n');
    assert(final(out)@ =~= old(out)@ + nl(s@));
}

pub(crate) fn line2(out: &mut String, a: &str, b: &str)
    ensures
        final(out)@ == old(out)@ + nl(a@ + b@),
{
    append(out, a);
    append(out, b);
    push_char(out, '\n');
    assert(final(out)@ =~= old(out)@ + nl(a@ + b@));
}

pub(crate) fn line3(out: &mut String, a: &str, b: &str, c: &str)
    ensures
        final(out)@ == old(out)@ + nl(a@ + b@ + c@),
{
    append(out, a);
    append(out, b);
    append(out, c);
    push_char(out, '\n');
    assert(final(out)@ =~= old(out)@ + nl(a@ + b@ + c@));
}

/// The block that lists the `i`-th stored value (counted from 0).
pub open spec fn meteor_block(i: nat, e: EntryView) -> Seq<char> {
    nl("Meteor "@ + decimal(i + 1) + ":"@) + nl("  Context: "@ + e.0) + nl(
        "  Namespace: "@ + ns_display(e.1),
    ) + nl("  Key: "@ + e.2) + nl("  Value: "@ + e.3) + nl(Seq::empty())
}

/// The blocks of a list of stored values.
pub open spec fn meteor_blocks(es: Seq<EntryView>) -> Seq<char>
    decreases es.len(),
{
    if es.len() == 0 {
        Seq::empty()
    } else {
        meteor_blocks(es.drop_last()) + meteor_block((es.len() - 1) as nat, es.last())
    }
}

/// The text report of an engine after parsing `input`.
pub open spec fn engine_text(
    ctx: Seq<char>,
    ns: Seq<char>,
    input: Seq<char>,
    verbose: bool,
    es: Seq<EntryView>,
    contexts: nat,
) -> Seq<char> {
    let head = (if verbose {
        nl("=== Meteor Parse Results ==="@) + nl("Input: "@ + input) + nl(Seq::empty())
    } else {
        Seq::empty()
    }) + nl("Current cursor: "@ + ctx + ":"@ + ns);
    if contexts == 0 {
        head + nl("No meteors parsed"@)
    } else {
        head + nl(Seq::empty()) + nl("=== Parsed Data ==="@) + meteor_blocks(es) + nl(
            "Total: "@ + decimal(es.len()) + " meteors across "@ + decimal(contexts)
                + " contexts"@,
        )
    }
}

/// The stored values of an engine in the order it walks them.
pub open spec fn engine_entries(e: MeteorEngine) -> Seq<EntryView> {
    all_entries(
        e.data(),
        e.work().0,
        sorted_list(e.data().dom()),
        sorted_list(e.data().dom()).len() as int,
    )
}

/// The number of contexts of an engine.
pub open spec fn context_count(e: MeteorEngine) -> nat {
    sorted_list(e.data().dom()).len()
}

fn push_meteor_block(out: &mut String, i: usize, e: &(String, String, String, String))
    requires
        i < usize::MAX,
    ensures
        final(out)@ == old(out)@ + meteor_block(i as nat, (e.0@, e.1@, e.2@, e.3@)),
{
    let n = decimal_string((i + 1) as u64);
    line3(out, "Meteor ", n.as_str(), ":");
    line2(out, "  Context: ", e.0.as_str());
    if e.1.unicode_len() == 0 {
        line2(out, "  Namespace: ", "(root)");
    } else {
        line2(out, "  Namespace: ", e.1.as_str());
    }
    line2(out, "  Key: ", e.2.as_str());
    line2(out, "  Value: ", e.3.as_str());
    line(out, "");
    proof {
        reveal_strlit("");
    }
    assert(final(out)@ =~= old(out)@ + meteor_block(i as nat, (e.0@, e.1@, e.2@, e.3@)));
}

/// The cursor as `context:namespace`.
pub(crate) fn cursor_text(engine: &MeteorEngine) -> (r: (String, String))
    ensures
        r.0@ == engine.ctx(),
        r.1@ == join(engine.ns(), "."@),
{
    let at = engine.cursor_guard();
    (owned(at.saved_context.name()), at.saved_namespace.to_string())
}

/// Lists the values an entry walk has still to hand out.
fn push_meteor_blocks(out: &mut String, it: &mut crate::engine::EntriesIterator) -> (count: usize)
    ensures
        final(out)@ == old(out)@ + meteor_blocks(old(it).rest()),
        count == old(it).rest().len(),
{
    let ghost all = it.rest();
    let ghost base = out@;
    proof {
        it.lemma_rest_fits();
    }
    let mut count: usize = 0;
    assert(all.take(0) =~= Seq::<EntryView>::empty());
    assert(all.skip(0) =~= all);
    loop
        invariant
            all.len() <= usize::MAX,
            count <= all.len(),
            it.rest() == all.skip(count as int),
            out@ == base + meteor_blocks(all.take(count as int)),
        ensures
            count == all.len(),
            out@ == base + meteor_blocks(all.take(count as int)),
        decreases all.len() - count,
    {
        match it.next() {
            Some(e) => {
                assert(all.skip(count as int)[0] == all[count as int]);
                push_meteor_block(out, count, &e);
                assert(all.take(count + 1).drop_last() =~= all.take(count as int));
                assert(all.take(count + 1).last() == all[count as int]);
                assert(out@ =~= base + meteor_blocks(all.take(count + 1)));
                assert(all.skip(count + 1) =~= all.skip(count as int).drop_first());
                count += 1;
            },
            None => {
                break;
            },
        }
    }
    assert(all.take(count as int) =~= all);
    count
}

/// The header of the text report: the input when verbose, then the cursor.
fn push_engine_head(out: &mut String, engine: &MeteorEngine, input: &str, verbose: bool)
    ensures
        final(out)@ == old(out)@ + (if verbose {
            nl("=== Meteor Parse Results ==="@) + nl("Input: "@ + input@) + nl(Seq::empty())
        } else {
            Seq::<char>::empty()
        }) + nl("Current cursor: "@ + engine.ctx() + ":"@ + join(engine.ns(), "."@)),
{
    proof {
        reveal_strlit("");
    }
    let ghost start = out@;
    if verbose {
        line(out, "=== Meteor Parse Results ===");
        line2(out, "Input: ", input);
        line(out, "");
    }
    let ghost mid = out@;
    assert(mid =~= start + (if verbose {
        nl("=== Meteor Parse Results ==="@) + nl("Input: "@ + input@) + nl(Seq::empty())
    } else {
        Seq::<char>::empty()
    }));
    let (c, n) = cursor_text(engine);
    append(out, "Current cursor: ");
    append(out, c.as_str());
    line2(out, ":", n.as_str());
    assert(out@ =~= mid + nl("Current cursor: "@ + c@ + ":"@ + n@));
}

/// The text report of an engine after parsing `input`: the cursor, then
/// each stored value with its place, and a total.
pub fn render_engine_text(engine: &MeteorEngine, input: &str, verbose: bool) -> (r: String)
    ensures
        r@ == engine_text(
            engine.ctx(),
            join(engine.ns(), "."@),
            input@,
            verbose,
            engine_entries(*engine),
            context_count(*engine),
        ),
{
    proof {
        reveal_strlit("");
    }
    let mut out = String::new();
    push_engine_head(&mut out, engine, input, verbose);
    let ghost head = out@;
    let contexts = engine.contexts();
    if contexts.len() == 0 {
        line(&mut out, "No meteors parsed");
        return out;
    }
    line(&mut out, "");
    line(&mut out, "=== Parsed Data ===");
    let mut it = engine.iter_entries();
    let count = push_meteor_blocks(&mut out, &mut it);
    let total = decimal_string(count as u64);
    let nctx = decimal_string(contexts.len() as u64);
    append(&mut out, "Total: ");
    append(&mut out, total.as_str());
    append(&mut out, " meteors across ");
    line2(&mut out, nctx.as_str(), " contexts");
    assert(out@ =~= head + nl(Seq::empty()) + nl("=== Parsed Data ==="@) + meteor_blocks(
        engine_entries(*engine),
    ) + nl("Total: "@ + decimal(count as nat) + " meteors across "@ + decimal(contexts@.len())
        + " contexts"@));
    out
}

/// One stored value in the JSON report.
pub open spec fn json_entry(e: EntryView) -> Seq<char> {
    nl("    {"@) + nl("      \"context\": \""@ + e.0 + "\","@) + nl(
        "      \"namespace\": \""@ + e.1 + "\","@,
    ) + nl("      \"key\": \""@ + e.2 + "\","@) + nl("      \"value\": \""@ + e.3 + "\""@)
        + "    }"@
}

/// The stored values in the JSON report, separated by `,` lines.
pub open spec fn json_entries(es: Seq<EntryView>) -> Seq<char>
    decreases es.len(),
{
    if es.len() == 0 {
        Seq::empty()
    } else {
        json_entries(es.drop_last()) + (if es.len() > 1 {
            nl(","@)
        } else {
            Seq::empty()
        }) + json_entry(es.last())
    }
}

/// The JSON report of an engine: its cursor, the number of contexts and
/// each stored value.
pub open spec fn engine_json(ctx: Seq<char>, ns: Seq<char>, es: Seq<EntryView>, contexts: nat) -> Seq<
    char,
> {
    nl("{"@) + nl("  \"cursor\": {"@) + nl("    \"context\": \""@ + ctx + "\","@) + nl(
        "    \"namespace\": \""@ + ns + "\""@,
    ) + nl("  },"@) + nl("  \"contexts\": "@ + decimal(contexts) + ","@) + nl("  \"meteors\": ["@)
        + json_entries(es) + (if es.len() > 0 {
        nl(Seq::empty())
    } else {
        Seq::empty()
    }) + nl("  ]"@) + nl("}"@)
}

fn push_json_entry(out: &mut String, e: &(String, String, String, String))
    ensures
        final(out)@ == old(out)@ + json_entry((e.0@, e.1@, e.2@, e.3@)),
{
    line(out, "    {");
    line3(out, "      \"context\": \"", e.0.as_str(), "\",");
    line3(out, "      \"namespace\": \"", e.1.as_str(), "\",");
    line3(out, "      \"key\": \"", e.2.as_str(), "\",");
    line3(out, "      \"value\": \"", e.3.as_str(), "\"");
    append(out, "    }");
    assert(final(out)@ =~= old(out)@ + json_entry((e.0@, e.1@, e.2@, e.3@)));
}

fn push_json_entries(out: &mut String, it: &mut crate::engine::EntriesIterator) -> (count: usize)
    ensures
        final(out)@ == old(out)@ + json_entries(old(it).rest()),
        count == old(it).rest().len(),
{
    let ghost all = it.rest();
    let ghost base = out@;
    proof {
        it.lemma_rest_fits();
    }
    let mut count: usize = 0;
    assert(all.take(0) =~= Seq::<EntryView>::empty());
    assert(all.skip(0) =~= all);
    loop
        invariant
            all.len() <= usize::MAX,
            count <= all.len(),
            it.rest() == all.skip(count as int),
            out@ == base + json_entries(all.take(count as int)),
        ensures
            count == all.len(),
            out@ == base + json_entries(all.take(count as int)),
        decreases all.len() - count,
    {
        match it.next() {
            Some(e) => {
                assert(all.skip(count as int)[0] == all[count as int]);
                let ghost before = out@;
                if count > 0 {
                    line(out, ",");
                }
                push_json_entry(out, &e);
                assert(all.take(count + 1).drop_last() =~= all.take(count as int));
                assert(all.take(count + 1).last() == all[count as int]);
                assert(out@ =~= base + json_entries(all.take(count + 1)));
                assert(all.skip(count + 1) =~= all.skip(count as int).drop_first());
                count += 1;
            },
            None => {
                break;
            },
        }
    }
    assert(all.take(count as int) =~= all);
    count
}

/// The JSON report of an engine.
pub fn render_engine_json(engine: &MeteorEngine) -> (r: String)
    ensures
        r@ == engine_json(
            engine.ctx(),
            join(engine.ns(), "."@),
            engine_entries(*engine),
            context_count(*engine),
        ),
{
    proof {
        reveal_strlit("");
    }
    let contexts = engine.contexts();
    let (c, n) = cursor_text(engine);
    let mut out = String::new();
    line(&mut out, "{");
    line(&mut out, "  \"cursor\": {");
    line3(&mut out, "    \"context\": \"", c.as_str(), "\",");
    line3(&mut out, "    \"namespace\": \"", n.as_str(), "\"");
    line(&mut out, "  },");
    let nctx = decimal_string(contexts.len() as u64);
    line3(&mut out, "  \"contexts\": ", nctx.as_str(), ",");
    line(&mut out, "  \"meteors\": [");
    let ghost head = out@;
    let mut it = engine.iter_entries();
    let count = push_json_entries(&mut out, &mut it);
    let ghost mid = out@;
    if count > 0 {
        line(&mut out, "");
    }
    line(&mut out, "  ]");
    line(&mut out, "}");
    assert(out@ =~= engine_json(c@, n@, engine_entries(*engine), context_count(*engine)));
    out
}

/// A token's namespace as listed.
pub open spec fn token_ns_line(t: TokenView) -> Seq<char> {
    match t.0 {
        Some(ns) => nl("  Namespace: "@ + join(ns, "."@)),
        None => nl("  Namespace: (none)"@),
    }
}

/// The block that lists the `i`-th of `n` tokens.
pub open spec fn token_block(i: nat, n: nat, t: TokenView, verbose: bool) -> Seq<char> {
    (if n > 1 {
        nl("Token "@ + decimal(i + 1) + ":"@)
    } else {
        nl("Parsed Token:"@)
    }) + token_ns_line(t) + nl("  Key: "@ + flat_key(t.1)) + nl("  Value: "@ + t.2) + (if verbose {
        nl("  Key (transformed): "@ + flat_key(t.1)) + nl("  Full format: "@ + token_text(t))
    } else {
        Seq::empty()
    }) + (if i + 1 < n {
        nl(Seq::empty())
    } else {
        Seq::empty()
    })
}

/// The blocks of the first `k` of `ts`.
pub open spec fn token_blocks(ts: Seq<TokenView>, k: int, verbose: bool) -> Seq<char>
    decreases k,
{
    if k <= 0 {
        Seq::empty()
    } else {
        token_blocks(ts, k - 1, verbose) + token_block((k - 1) as nat, ts.len(), ts[k - 1], verbose)
    }
}

/// The text listing of parsed tokens.
pub open spec fn tokens_text(ts: Seq<TokenView>, verbose: bool) -> Seq<char> {
    if ts.len() == 0 {
        nl("No tokens parsed"@)
    } else {
        (if verbose {
            nl("Parsed "@ + decimal(ts.len()) + " token(s)"@) + nl(Seq::empty())
        } else {
            Seq::empty()
        }) + token_blocks(ts, ts.len() as int, verbose)
    }
}

fn push_token_fields(out: &mut String, t: &Token, verbose: bool)
    ensures
        final(out)@ == old(out)@ + token_ns_line(t@) + nl("  Key: "@ + flat_key(t@.1)) + nl(
            "  Value: "@ + t@.2,
        ) + (if verbose {
            nl("  Key (transformed): "@ + flat_key(t@.1)) + nl("  Full format: "@ + token_text(t@))
        } else {
            Seq::<char>::empty()
        }),
{
    let ghost start = out@;
    match t.namespace() {
        Some(ns) => line2(out, "  Namespace: ", ns.to_string().as_str()),
        None => line(out, "  Namespace: (none)"),
    }
    let ghost s2 = out@;
    line2(out, "  Key: ", t.key().to_string().as_str());
    line2(out, "  Value: ", t.value());
    let ghost s3 = out@;
    if verbose {
        line2(out, "  Key (transformed): ", t.key().transformed());
        line2(out, "  Full format: ", t.to_string().as_str());
    }
    assert(out@ =~= start + token_ns_line(t@) + nl("  Key: "@ + flat_key(t@.1)) + nl(
        "  Value: "@ + t@.2,
    ) + (if verbose {
        nl("  Key (transformed): "@ + flat_key(t@.1)) + nl("  Full format: "@ + token_text(t@))
    } else {
        Seq::<char>::empty()
    }));
}

fn push_token_block(out: &mut String, i: usize, n: usize, t: &Token, verbose: bool)
    requires
        i < n,
    ensures
        final(out)@ == old(out)@ + token_block(i as nat, n as nat, t@, verbose),
{
    proof {
        reveal_strlit("");
    }
    let ghost start = out@;
    if n > 1 {
        let k = decimal_string((i + 1) as u64);
        line3(out, "Token ", k.as_str(), ":");
    } else {
        line(out, "Parsed Token:");
    }
    push_token_fields(out, t, verbose);
    if i + 1 < n {
        line(out, "");
    }
    assert(out@ =~= start + token_block(i as nat, n as nat, t@, verbose));
}

/// The text listing of parsed tokens: each with its namespace, key and value.
pub fn render_tokens_text(tokens: &[Token], verbose: bool) -> (r: String)
    ensures
        r@ == tokens_text(token_views(tokens@), verbose),
{
    proof {
        reveal_strlit("");
    }
    let ghost ts = token_views(tokens@);
    let mut out = String::new();
    if tokens.len() == 0 {
        line(&mut out, "No tokens parsed");
        return out;
    }
    if verbose {
        let n = decimal_string(tokens.len() as u64);
        line3(&mut out, "Parsed ", n.as_str(), " token(s)");
        line(&mut out, "");
    }
    let ghost head = out@;
    let mut i: usize = 0;
    while i < tokens.len()
        invariant
            i <= tokens@.len(),
            ts == token_views(tokens@),
            out@ == head + token_blocks(ts, i as int, verbose),
        decreases tokens@.len() - i,
    {
        assert(ts[i as int] == tokens@[i as int]@);
        push_token_block(&mut out, i, tokens.len(), &tokens[i], verbose);
        assert(out@ =~= head + token_blocks(ts, i + 1, verbose));
        i += 1;
    }
    out
}

/// The namespace field of a token in the JSON listing.
pub open spec fn token_json_ns(t: TokenView) -> Seq<char> {
    match t.0 {
        Some(ns) => nl("    \"namespace\": \""@ + join(ns, "."@) + "\","@),
        None => nl("    \"namespace\": null,"@),
    }
}

/// The key and value fields of a token in the JSON listing.
pub open spec fn token_json_fields(t: TokenView) -> Seq<char> {
    nl("    \"key\": \""@ + flat_key(t.1) + "\","@) + nl(
        "    \"key_transformed\": \""@ + flat_key(t.1) + "\","@,
    ) + nl("    \"value\": \""@ + t.2 + "\""@)
}

/// One token in the JSON listing.
pub open spec fn token_json(t: TokenView, last: bool) -> Seq<char> {
    nl("  {"@) + token_json_ns(t) + token_json_fields(t) + (if last {
        nl("  }"@)
    } else {
        nl("  },"@)
    })
}

/// The first `k` tokens in the JSON listing.
pub open spec fn tokens_json_upto(ts: Seq<TokenView>, k: int) -> Seq<char>
    decreases k,
{
    if k <= 0 {
        Seq::empty()
    } else {
        tokens_json_upto(ts, k - 1) + token_json(ts[k - 1], k == ts.len())
    }
}

/// The JSON listing of parsed tokens.
pub open spec fn tokens_json(ts: Seq<TokenView>) -> Seq<char> {
    nl("["@) + tokens_json_upto(ts, ts.len() as int) + nl("]"@)
}

fn push_token_json_ns(out: &mut String, t: &Token)
    ensures
        final(out)@ == old(out)@ + token_json_ns(t@),
{
    match t.namespace() {
        Some(ns) => line3(out, "    \"namespace\": \"", ns.to_string().as_str(), "\","),
        None => line(out, "    \"namespace\": null,"),
    }
}

fn push_token_json_fields(out: &mut String, t: &Token)
    ensures
        final(out)@ == old(out)@ + token_json_fields(t@),
{
    let ghost start = out@;
    line3(out, "    \"key\": \"", t.key().to_string().as_str(), "\",");
    line3(out, "    \"key_transformed\": \"", t.key().transformed(), "\",");
    line3(out, "    \"value\": \"", t.value(), "\"");
    assert(out@ =~= start + token_json_fields(t@));
}

fn push_token_json(out: &mut String, t: &Token, last: bool)
    ensures
        final(out)@ == old(out)@ + token_json(t@, last),
{
    let ghost start = out@;
    line(out, "  {");
    push_token_json_ns(out, t);
    push_token_json_fields(out, t);
    if last {
        line(out, "  }");
    } else {
        line(out, "  },");
    }
    assert(out@ =~= start + token_json(t@, last));
}

/// The JSON listing of parsed tokens.
pub fn render_tokens_json(tokens: &[Token]) -> (r: String)
    ensures
        r@ == tokens_json(token_views(tokens@)),
{
    let ghost ts = token_views(tokens@);
    let mut out = String::new();
    line(&mut out, "[");
    let ghost head = out@;
    let mut i: usize = 0;
    while i < tokens.len()
        invariant
            i <= tokens@.len(),
            ts == token_views(tokens@),
            out@ == head + tokens_json_upto(ts, i as int),
        decreases tokens@.len() - i,
    {
        assert(ts[i as int] == tokens@[i as int]@);
        push_token_json(&mut out, &tokens[i], i + 1 == tokens.len());
        assert(out@ =~= head + tokens_json_upto(ts, i + 1));
        i += 1;
    }
    line(&mut out, "]");
    assert(out@ =~= tokens_json(ts));
    out
}

/// The name of an output format.
pub open spec fn format_name(f: OutputFormat) -> Seq<char> {
    match f {
        OutputFormat::Text => "text"@,
        OutputFormat::Json => "json"@,
        OutputFormat::Debug => "debug"@,
    }
}

fn format_text(f: OutputFormat) -> (r: &'static str)
    ensures
        r@ == format_name(f),
{
    match f {
        OutputFormat::Text => "text",
        OutputFormat::Json => "json",
        OutputFormat::Debug => "debug",
    }
}

/// Lines `prefix ITEM suffix` for each item.
pub open spec fn lines_of(items: Seq<Seq<char>>, prefix: Seq<char>, suffix: Seq<char>) -> Seq<char>
    decreases items.len(),
{
    if items.len() == 0 {
        Seq::empty()
    } else {
        lines_of(items.drop_last(), prefix, suffix) + nl(prefix + items.last() + suffix)
    }
}

pub(crate) fn push_lines(out: &mut String, items: &Vec<String>, prefix: &str, suffix: &str)
    ensures
        final(out)@ == old(out)@ + lines_of(views(items@), prefix@, suffix@),
{
    let ghost base = out@;
    let ghost vs = views(items@);
    let mut i: usize = 0;
    while i < items.len()
        invariant
            i <= items@.len(),
            vs == views(items@),
            out@ == base + lines_of(vs.take(i as int), prefix@, suffix@),
        decreases items@.len() - i,
    {
        line3(out, prefix, items[i].as_str(), suffix);
        assert(vs.take(i + 1).drop_last() =~= vs.take(i as int));
        assert(vs.take(i + 1).last() == items@[i as int]@);
        assert(out@ =~= base + lines_of(vs.take(i + 1), prefix@, suffix@));
        i += 1;
    }
    assert(vs.take(i as int) =~= vs);
}

/// Quoted items, one per line after `indent`, separated by commas.
pub open spec fn json_list_upto(items: Seq<Seq<char>>, indent: Seq<char>, k: int) -> Seq<char>
    decreases k,
{
    if k <= 0 {
        Seq::empty()
    } else {
        json_list_upto(items, indent, k - 1) + nl(indent + "\""@ + items[k - 1] + (if k < items.len() {
            "\","@
        } else {
            "\""@
        }))
    }
}

/// Quoted items, one per line after `indent`, separated by commas.
pub open spec fn json_list(items: Seq<Seq<char>>, indent: Seq<char>) -> Seq<char> {
    json_list_upto(items, indent, items.len() as int)
}

fn push_json_list(out: &mut String, items: &Vec<String>, indent: &str)
    ensures
        final(out)@ == old(out)@ + json_list(views(items@), indent@),
{
    let ghost base = out@;
    let ghost vs = views(items@);
    let mut i: usize = 0;
    while i < items.len()
        invariant
            i <= items@.len(),
            vs == views(items@),
            out@ == base + json_list_upto(vs, indent@, i as int),
        decreases items@.len() - i,
    {
        append(out, indent);
        append(out, "\"");
        if i + 1 < items.len() {
            line2(out, items[i].as_str(), "\",");
        } else {
            line2(out, items[i].as_str(), "\"");
        }
        assert(vs[i as int] == items@[i as int]@);
        assert(out@ =~= base + json_list_upto(vs, indent@, i + 1));
        i += 1;
    }
}

/// Namespaces as listed: `(root)` for the empty one.
pub open spec fn ns_displays(v: Seq<Seq<char>>) -> Seq<Seq<char>> {
    v.map_values(|n: Seq<char>| ns_display(n))
}

pub(crate) fn displayed(v: &Vec<String>) -> (r: Vec<String>)
    ensures
        views(r@) == ns_displays(views(v@)),
{
    let mut out: Vec<String> = Vec::new();
    let mut i: usize = 0;
    while i < v.len()
        invariant
            i <= v@.len(),
            views(out@) == ns_displays(views(v@)).take(i as int),
        decreases v@.len() - i,
    {
        let ghost before = views(out@);
        if v[i].unicode_len() == 0 {
            out.push(owned("(root)"));
        } else {
            out.push(owned(v[i].as_str()));
        }
        assert(views(out@).drop_last() =~= before);
        assert(views(out@).last() == ns_display(v@[i as int]@));
        assert(ns_displays(views(v@))[i as int] == ns_display(views(v@)[i as int]));
        assert(views(out@) =~= ns_displays(views(v@)).take(i + 1));
        i += 1;
    }
    assert(ns_displays(views(v@)).take(i as int) =~= ns_displays(views(v@)));
    out
}

/// What `parse` reports before it parses.
pub open spec fn parse_notes(input: Seq<char>, verbose: bool, format: OutputFormat) -> Seq<char> {
    if verbose {
        nl("Parsing input: "@ + input) + nl("Output format: "@ + format_name(format))
    } else {
        Seq::empty()
    }
}

/// The report of an engine in a format (the debug dump is not text of the
/// library's own).
pub open spec fn engine_report(e: MeteorEngine, input: Seq<char>, verbose: bool, format: OutputFormat) -> Seq<char> {
    match format {
        OutputFormat::Json => engine_json(
            e.ctx(),
            join(e.ns(), "."@),
            engine_entries(e),
            context_count(e),
        ),
        OutputFormat::Text => engine_text(
            e.ctx(),
            join(e.ns(), "."@),
            input,
            verbose,
            engine_entries(e),
            context_count(e),
        ),
        OutputFormat::Debug => Seq::empty(),
    }
}

/// What `parse` says when no input was given.
pub open spec fn parse_usage() -> Seq<char> {
    nl("Error: No input provided"@) + nl(
        "Usage: meteor parse [--verbose] [--format=FORMAT] <meteor_stream>"@,
    ) + nl("Example: meteor parse \"app:ui:button=click :;: user:settings:theme=dark\""@)
}

/// The `parse` command: processes a meteor stream into the engine and
/// reports what the engine then holds.
pub fn cli_parse(engine: &mut MeteorEngine, input: &str, verbose: bool, format: OutputFormat) -> (r:
    CommandOutput)
    ensures
        input@.len() == 0 ==> r.code == 1 && r.out@ == Seq::<char>::empty() && r.err@
            == parse_usage() && *final(engine) == *old(engine),
        input@.len() > 0 ==> exists|res: Result<(), Seq<char>>|
            #[trigger] processed(*old(engine), input@, *final(engine), res) && match res {
                Ok(_) => r.code == 0 && r.err@ == parse_notes(input@, verbose, format) && r.out@
                    == engine_report(*final(engine), input@, verbose, format),
                Err(m) => r.code == 1 && r.out@ == Seq::<char>::empty() && r.err@ == parse_notes(
                    input@,
                    verbose,
                    format,
                ) + nl("Parse error: "@ + m),
            },
{
    let mut err = String::new();
    if input.unicode_len() == 0 {
        line(&mut err, "Error: No input provided");
        line(&mut err, "Usage: meteor parse [--verbose] [--format=FORMAT] <meteor_stream>");
        line(&mut err, "Example: meteor parse \"app:ui:button=click :;: user:settings:theme=dark\"");
        return CommandOutput { code: 1, out: String::new(), err };
    }
    if verbose {
        line2(&mut err, "Parsing input: ", input);
        line2(&mut err, "Output format: ", format_text(format));
    }
    assert(err@ =~= parse_notes(input@, verbose, format));
    let res = MeteorStreamParser::process(engine, input);
    match res {
        Err(e) => {
            line2(&mut err, "Parse error: ", e.as_str());
            assert(processed(*old(engine), input@, *engine, result_view(Err(e))));
            CommandOutput { code: 1, out: String::new(), err }
        },
        Ok(()) => {
            let out = match format {
                OutputFormat::Json => render_engine_json(engine),
                OutputFormat::Text => render_engine_text(engine, input, verbose),
                OutputFormat::Debug => String::new(),
            };
            assert(processed(*old(engine), input@, *engine, Ok(())));
            CommandOutput { code: 0, out, err }
        },
    }
}

/// The lines that explain the meteor format.
pub open spec fn validation_help() -> Seq<char> {
    nl("Valid meteor format patterns:"@) + nl("  key=value                    Basic key-value pair"@)
        + nl("  ns:key=value                 Namespaced key-value"@) + nl(
        "  ctx:ns:key=value             Full context addressing"@,
    ) + nl("  list[0]=item                 Bracket notation"@) + nl(
        "  key1=val1;key2=val2         Multiple tokens"@,
    ) + nl("  ctx=app;ui:button=click      Context switch with data"@) + nl(
        "  Use ':;:' to separate meteors in a stream"@,
    ) + nl(Seq::empty()) + nl(
        "Example: meteor parse \"app:ui:button=click :;: user:settings:theme=dark\""@,
    )
}

fn push_validation_help(out: &mut String)
    ensures
        final(out)@ == old(out)@ + validation_help(),
{
    proof {
        reveal_strlit("");
    }
    let ghost start = out@;
    line(out, "Valid meteor format patterns:");
    line(out, "  key=value                    Basic key-value pair");
    line(out, "  ns:key=value                 Namespaced key-value");
    line(out, "  ctx:ns:key=value             Full context addressing");
    line(out, "  list[0]=item                 Bracket notation");
    line(out, "  key1=val1;key2=val2         Multiple tokens");
    line(out, "  ctx=app;ui:button=click      Context switch with data");
    line(out, "  Use ':;:' to separate meteors in a stream");
    line(out, "");
    line(out, "Example: meteor parse \"app:ui:button=click :;: user:settings:theme=dark\"");
    assert(out@ =~= start + validation_help());
}

/// What `validate` prints for a stream.
pub open spec fn validate_report(input: Seq<char>, verbose: bool) -> CommandText {
    if input.len() == 0 {
        (1, Seq::empty(), nl("Error: No input provided"@) + nl(
            "Usage: meteor validate [--verbose] <meteor_stream>"@,
        ) + nl("Example: meteor validate \"app:ui:button=click :;: user:settings:theme=dark\""@))
    } else {
        let notes = if verbose {
            nl("Validating input: "@ + input)
        } else {
            Seq::empty()
        };
        match first_bad_meteor(split_str(input, delimiter_chars())) {
            None => (0, nl("✅ Valid meteor format"@) + (if verbose {
                nl("Segments parsed: "@ + decimal(
                    multi_pieces(input, delimiter_chars(), SplitConfig::meteor_streams_spec(':')).len(),
                ))
            } else {
                Seq::empty()
            }), notes),
            Some(t) => (1, nl("❌ Invalid meteor format"@) + (if verbose {
                nl("Error: "@ + "Invalid meteor format: "@ + t) + nl(Seq::empty())
                    + validation_help()
            } else {
                Seq::empty()
            }), notes),
        }
    }
}

/// An output as (exit code, printed text, error text).
pub type CommandText = (int, Seq<char>, Seq<char>);

/// An output as (exit code, printed text, error text).
pub open spec fn output_text(r: CommandOutput) -> CommandText {
    (r.code as int, r.out@, r.err@)
}

/// The `validate` command: checks a meteor stream.
pub fn cli_validate(input: &str, verbose: bool) -> (r: CommandOutput)
    ensures
        output_text(r) == validate_report(input@, verbose),
{
    proof {
        reveal_strlit("");
    }
    let mut err = String::new();
    let mut out = String::new();
    if input.unicode_len() == 0 {
        line(&mut err, "Error: No input provided");
        line(&mut err, "Usage: meteor validate [--verbose] <meteor_stream>");
        line(&mut err, "Example: meteor validate \"app:ui:button=click :;: user:settings:theme=dark\"");
        return CommandOutput { code: 1, out, err };
    }
    if verbose {
        line2(&mut err, "Validating input: ", input);
    }
    match MeteorStreamParser::validate(input) {
        Ok(()) => {
            line(&mut out, "✅ Valid meteor format");
            if verbose {
                let segments = MeteorStreamParser::smart_split(input);
                let n = decimal_string(segments.len() as u64);
                line2(&mut out, "Segments parsed: ", n.as_str());
            }
            CommandOutput { code: 0, out, err }
        },
        Err(e) => {
            line(&mut out, "❌ Invalid meteor format");
            if verbose {
                line2(&mut out, "Error: ", e.as_str());
                line(&mut out, "");
                push_validation_help(&mut out);
            }
            CommandOutput { code: 1, out, err }
        },
    }
}

/// What `token` prints for a token stream (the debug dump aside).
pub open spec fn token_report(input: Seq<char>, verbose: bool, format: OutputFormat) -> CommandText {
    if input.len() == 0 {
        (1, Seq::empty(), nl("Error: No input provided"@) + nl(
            "Usage: meteor token [--verbose] [--format=FORMAT] <token_stream>"@,
        ) + nl("Example: meteor token \"profile=name;role=admin\""@))
    } else {
        let notes = if verbose {
            nl("Parsing token stream: "@ + input) + nl("Output format: "@ + format_name(format))
        } else {
            Seq::empty()
        };
        match parse_tokens_spec(input) {
            Ok(ts) => (0, match format {
                OutputFormat::Json => tokens_json(ts),
                OutputFormat::Text => tokens_text(ts, verbose),
                OutputFormat::Debug => Seq::empty(),
            }, notes),
            Err(m) => (1, Seq::empty(), notes + nl("Parse error: "@ + m)),
        }
    }
}

/// The `token` command: parses a token stream and lists its tokens.
pub fn cli_token(input: &str, verbose: bool, format: OutputFormat) -> (r: CommandOutput)
    ensures
        output_text(r) == token_report(input@, verbose, format),
{
    let mut err = String::new();
    if input.unicode_len() == 0 {
        line(&mut err, "Error: No input provided");
        line(&mut err, "Usage: meteor token [--verbose] [--format=FORMAT] <token_stream>");
        line(&mut err, "Example: meteor token \"profile=name;role=admin\"");
        return CommandOutput { code: 1, out: String::new(), err };
    }
    if verbose {
        line2(&mut err, "Parsing token stream: ", input);
        line2(&mut err, "Output format: ", format_text(format));
    }
    match Token::parse(input) {
        Ok(tokens) => {
            let out = match format {
                OutputFormat::Json => render_tokens_json(tokens.as_slice()),
                OutputFormat::Text => render_tokens_text(tokens.as_slice(), verbose),
                OutputFormat::Debug => String::new(),
            };
            CommandOutput { code: 0, out, err }
        },
        Err(e) => {
            line2(&mut err, "Parse error: ", e.as_str());
            CommandOutput { code: 1, out: String::new(), err }
        },
    }
}


/// What `get` prints for a path.
pub open spec fn get_report(d: StorageView, input: Seq<char>, format: OutputFormat) -> CommandText {
    if input.len() == 0 {
        (1, Seq::empty(), nl("Error: No path provided"@) + nl(
            "Usage: meteor get [--format=FORMAT] <context:namespace:key>"@,
        ) + nl("Example: meteor get app:ui:button"@))
    } else {
        match path_value(d, input) {
            Some(v) => (0, if format == OutputFormat::Json {
                nl("{"@) + nl("  \"path\": \""@ + input + "\","@) + nl("  \"value\": \""@ + v + "\""@)
                    + nl("}"@)
            } else {
                nl(input + " = "@ + v)
            }, Seq::empty()),
            None => if format == OutputFormat::Json {
                (1, nl("{"@) + nl("  \"path\": \""@ + input + "\","@) + nl("  \"found\": false"@) + nl(
                    "}"@,
                ), Seq::empty())
            } else {
                (1, Seq::empty(), nl(input + " not found"@))
            },
        }
    }
}

/// The `get` command: the value at a path.
pub fn cli_get(engine: &MeteorEngine, input: &str, format: OutputFormat) -> (r: CommandOutput)
    ensures
        output_text(r) == get_report(engine.data(), input@, format),
{
    let mut out = String::new();
    let mut err = String::new();
    if input.unicode_len() == 0 {
        line(&mut err, "Error: No path provided");
        line(&mut err, "Usage: meteor get [--format=FORMAT] <context:namespace:key>");
        line(&mut err, "Example: meteor get app:ui:button");
        return CommandOutput { code: 1, out, err };
    }
    match engine.get(input) {
        Some(v) => {
            match format {
                OutputFormat::Json => {
                    line(&mut out, "{");
                    line3(&mut out, "  \"path\": \"", input, "\",");
                    line3(&mut out, "  \"value\": \"", v, "\"");
                    line(&mut out, "}");
                },
                _ => line3(&mut out, input, " = ", v),
            }
            CommandOutput { code: 0, out, err }
        },
        None => {
            match format {
                OutputFormat::Json => {
                    line(&mut out, "{");
                    line3(&mut out, "  \"path\": \"", input, "\",");
                    line(&mut out, "  \"found\": false");
                    line(&mut out, "}");
                },
                _ => line2(&mut err, input, " not found"),
            }
            CommandOutput { code: 1, out, err }
        },
    }
}

/// What `contexts` prints.
pub open spec fn contexts_report(d: StorageView, format: OutputFormat) -> CommandText {
    let cs = sorted_list(d.dom());
    (0, if cs.len() == 0 {
        if format == OutputFormat::Json {
            nl("[]"@)
        } else {
            nl("No contexts"@)
        }
    } else if format == OutputFormat::Json {
        nl("["@) + json_list(cs, "  "@) + nl("]"@)
    } else {
        nl("Contexts:"@) + lines_of(cs, "  "@, ""@)
    }, Seq::empty())
}

/// The `contexts` command: the contexts that hold data, sorted.
pub fn cli_contexts(engine: &MeteorEngine, format: OutputFormat) -> (r: CommandOutput)
    ensures
        output_text(r) == contexts_report(engine.data(), format),
{
    let contexts = engine.contexts();
    let mut out = String::new();
    if contexts.len() == 0 {
        match format {
            OutputFormat::Json => line(&mut out, "[]"),
            _ => line(&mut out, "No contexts"),
        }
    } else {
        match format {
            OutputFormat::Json => {
                line(&mut out, "[");
                push_json_list(&mut out, &contexts, "  ");
                line(&mut out, "]");
            },
            _ => {
                line(&mut out, "Contexts:");
                push_lines(&mut out, &contexts, "  ", "");
            },
        }
    }
    CommandOutput { code: 0, out, err: String::new() }
}

/// What `namespaces` prints for a context.
pub open spec fn namespaces_report(d: StorageView, input: Seq<char>, format: OutputFormat) -> CommandText {
    if input.len() == 0 {
        (1, Seq::empty(), nl("Error: No context provided"@) + nl(
            "Usage: meteor namespaces [--format=FORMAT] <context>"@,
        ) + nl("Example: meteor namespaces app"@))
    } else {
        let nss = sorted_list(tree_namespaces(context_of(d, input).1));
        (0, if nss.len() == 0 {
            if format == OutputFormat::Json {
                nl("{"@) + nl("  \"context\": \""@ + input + "\","@) + nl("  \"namespaces\": []"@) + nl(
                    "}"@,
                )
            } else {
                nl("No namespaces in context '"@ + input + "'"@)
            }
        } else if format == OutputFormat::Json {
            nl("{"@) + nl("  \"context\": \""@ + input + "\","@) + nl("  \"namespaces\": ["@)
                + json_list(ns_displays(nss), "    "@) + nl("  ]"@) + nl("}"@)
        } else {
            nl("Namespaces in '"@ + input + "':"@) + lines_of(ns_displays(nss), "  "@, ""@)
        }, Seq::empty())
    }
}

/// The `namespaces` command: the namespaces of a context, sorted, the root
/// one shown as `(root)`.
pub fn cli_namespaces(engine: &MeteorEngine, input: &str, format: OutputFormat) -> (r: CommandOutput)
    ensures
        output_text(r) == namespaces_report(engine.data(), input@, format),
{
    let mut out = String::new();
    let mut err = String::new();
    if input.unicode_len() == 0 {
        line(&mut err, "Error: No context provided");
        line(&mut err, "Usage: meteor namespaces [--format=FORMAT] <context>");
        line(&mut err, "Example: meteor namespaces app");
        return CommandOutput { code: 1, out, err };
    }
    let namespaces = engine.namespaces_in_context(input);
    if namespaces.len() == 0 {
        match format {
            OutputFormat::Json => {
                line(&mut out, "{");
                line3(&mut out, "  \"context\": \"", input, "\",");
                line(&mut out, "  \"namespaces\": []");
                line(&mut out, "}");
            },
            _ => line3(&mut out, "No namespaces in context '", input, "'"),
        }
    } else {
        let shown = displayed(&namespaces);
        match format {
            OutputFormat::Json => {
                line(&mut out, "{");
                line3(&mut out, "  \"context\": \"", input, "\",");
                line(&mut out, "  \"namespaces\": [");
                push_json_list(&mut out, &shown, "    ");
                line(&mut out, "  ]");
                line(&mut out, "}");
            },
            _ => {
                line3(&mut out, "Namespaces in '", input, "':");
                push_lines(&mut out, &shown, "  ", "");
            },
        }
    }
    CommandOutput { code: 0, out, err }
}

/// One entry in the JSON listing of a namespace.
pub open spec fn pair_json(kv: (Seq<char>, Seq<char>), last: bool) -> Seq<char> {
    nl("    {"@) + nl("      \"key\": \""@ + kv.0 + "\","@) + nl("      \"value\": \""@ + kv.1 + "\""@)
        + (if last {
        nl("    }"@)
    } else {
        nl("    },"@)
    })
}

/// The first `k` entries in the JSON listing of a namespace.
pub open spec fn pairs_json_upto(es: Seq<(Seq<char>, Seq<char>)>, k: int) -> Seq<char>
    decreases k,
{
    if k <= 0 {
        Seq::empty()
    } else {
        pairs_json_upto(es, k - 1) + pair_json(es[k - 1], k == es.len())
    }
}

/// Lines `  KEY = VALUE`.
pub open spec fn pair_lines(es: Seq<(Seq<char>, Seq<char>)>) -> Seq<char>
    decreases es.len(),
{
    if es.len() == 0 {
        Seq::empty()
    } else {
        pair_lines(es.drop_last()) + nl("  "@ + es.last().0 + " = "@ + es.last().1)
    }
}

fn push_pairs_json(out: &mut String, es: &Vec<(String, String)>)
    ensures
        final(out)@ == old(out)@ + pairs_json_upto(pairs_view(es@), es@.len() as int),
{
    let ghost base = out@;
    let ghost ps = pairs_view(es@);
    let mut i: usize = 0;
    while i < es.len()
        invariant
            i <= es@.len(),
            ps == pairs_view(es@),
            out@ == base + pairs_json_upto(ps, i as int),
        decreases es@.len() - i,
    {
        let ghost before = out@;
        line(out, "    {");
        line3(out, "      \"key\": \"", es[i].0.as_str(), "\",");
        line3(out, "      \"value\": \"", es[i].1.as_str(), "\"");
        if i + 1 < es.len() {
            line(out, "    },");
        } else {
            line(out, "    }");
        }
        assert(ps[i as int] == (es@[i as int].0@, es@[i as int].1@));
        assert(out@ =~= before + pair_json(ps[i as int], i + 1 == ps.len()));
        i += 1;
    }
}

fn push_pair_lines(out: &mut String, es: &Vec<(String, String)>)
    ensures
        final(out)@ == old(out)@ + pair_lines(pairs_view(es@)),
{
    let ghost base = out@;
    let ghost ps = pairs_view(es@);
    let mut i: usize = 0;
    while i < es.len()
        invariant
            i <= es@.len(),
            ps == pairs_view(es@),
            out@ == base + pair_lines(ps.take(i as int)),
        decreases es@.len() - i,
    {
        let ghost before = out@;
        append(out, "  ");
        append(out, es[i].0.as_str());
        line2(out, " = ", es[i].1.as_str());
        assert(ps.take(i + 1).drop_last() =~= ps.take(i as int));
        assert(ps.take(i + 1).last() == (es@[i as int].0@, es@[i as int].1@));
        assert(out@ =~= base + pair_lines(ps.take(i + 1)));
        i += 1;
    }
    assert(ps.take(i as int) =~= ps);
}

/// The head of the JSON listing of a namespace.
pub open spec fn list_json_head(c: Seq<char>, n: Seq<char>) -> Seq<char> {
    nl("{"@) + nl("  \"context\": \""@ + c + "\","@) + (if n.len() == 0 {
        Seq::empty()
    } else {
        nl("  \"namespace\": \""@ + n + "\","@)
    })
}

/// What `list` prints for `CONTEXT [NAMESPACE]`.
pub open spec fn list_report(d: StorageView, input: Seq<char>, format: OutputFormat) -> CommandText {
    if input.len() == 0 {
        (1, Seq::empty(), nl("Error: No context provided"@) + nl(
            "Usage: meteor list [--format=FORMAT] <context> [namespace]"@,
        ) + nl("Example: meteor list app"@) + nl("Example: meteor list app ui"@))
    } else {
        let c = first_word(input);
        let n = first_word(after_first_word(input));
        let es = namespace_pairs(context_of(d, c), n);
        (0, if es.len() == 0 {
            if format == OutputFormat::Json {
                list_json_head(c, n) + nl("  \"entries\": []"@) + nl("}"@)
            } else if n.len() == 0 {
                nl("No entries in context '"@ + c + "'"@)
            } else {
                nl("No entries in '"@ + c + ":"@ + n + "'"@)
            }
        } else if format == OutputFormat::Json {
            list_json_head(c, n) + nl("  \"entries\": ["@) + pairs_json_upto(es, es.len() as int) + nl(
                "  ]"@,
            ) + nl("}"@)
        } else {
            (if n.len() == 0 {
                nl("Entries in '"@ + c + "':"@)
            } else {
                nl("Entries in '"@ + c + ":"@ + n + "':"@)
            }) + pair_lines(es)
        }, Seq::empty())
    }
}

fn push_list_json_head(out: &mut String, c: &str, n: &str)
    ensures
        final(out)@ == old(out)@ + list_json_head(c@, n@),
{
    let ghost start = out@;
    line(out, "{");
    line3(out, "  \"context\": \"", c, "\",");
    if n.unicode_len() != 0 {
        line3(out, "  \"namespace\": \"", n, "\",");
    }
    assert(out@ =~= start + list_json_head(c@, n@));
}

/// The `list` command: the (key, value) pairs of a namespace (the root one
/// where none is named), sorted by key.
pub fn cli_list(engine: &MeteorEngine, input: &str, format: OutputFormat) -> (r: CommandOutput)
    requires
        input@.len() == 0 || first_word(input@).len() > 0,
    ensures
        output_text(r) == list_report(engine.data(), input@, format),
{
    let mut out = String::new();
    let mut err = String::new();
    if input.unicode_len() == 0 {
        line(&mut err, "Error: No context provided");
        line(&mut err, "Usage: meteor list [--format=FORMAT] <context> [namespace]");
        line(&mut err, "Example: meteor list app");
        line(&mut err, "Example: meteor list app ui");
        return CommandOutput { code: 1, out, err };
    }
    let (context, rest) = next_word(input);
    let (namespace, _) = next_word(rest);
    let entries = engine.storage().get_all_keys_in_namespace(context, namespace);
    let ghost es = pairs_view(entries@);
    if entries.len() == 0 {
        match format {
            OutputFormat::Json => {
                push_list_json_head(&mut out, context, namespace);
                line(&mut out, "  \"entries\": []");
                line(&mut out, "}");
            },
            _ => {
                if namespace.unicode_len() == 0 {
                    line3(&mut out, "No entries in context '", context, "'");
                } else {
                    append(&mut out, "No entries in '");
                    append(&mut out, context);
                    line3(&mut out, ":", namespace, "'");
                }
            },
        }
    } else {
        match format {
            OutputFormat::Json => {
                push_list_json_head(&mut out, context, namespace);
                line(&mut out, "  \"entries\": [");
                push_pairs_json(&mut out, &entries);
                line(&mut out, "  ]");
                line(&mut out, "}");
            },
            _ => {
                if namespace.unicode_len() == 0 {
                    line3(&mut out, "Entries in '", context, "':");
                } else {
                    append(&mut out, "Entries in '");
                    append(&mut out, context);
                    line3(&mut out, ":", namespace, "':");
                }
                push_pair_lines(&mut out, &entries);
            },
        }
    }
    CommandOutput { code: 0, out, err }
}


/// The JSON answer of a command that failed with `m`.
pub open spec fn json_failure(m: Seq<char>) -> Seq<char> {
    nl("{"@) + nl("  \"success\": false,"@) + nl("  \"error\": \""@ + m + "\""@) + nl("}"@)
}

fn push_json_failure(out: &mut String, m: &str)
    ensures
        final(out)@ == old(out)@ + json_failure(m@),
{
    let ghost start = out@;
    line(out, "{");
    line(out, "  \"success\": false,");
    line3(out, "  \"error\": \"", m, "\"");
    line(out, "}");
    assert(out@ =~= start + json_failure(m@));
}

/// `s` cut at its first space, where it has one (the two parts that
/// `splitn(2, ' ')` gives).
pub open spec fn split_at_space(s: Seq<char>) -> Option<(Seq<char>, Seq<char>)> {
    match first_occurrence(s, seq![' ']) {
        Some(i) => Some((s.take(i), s.skip(i + 1))),
        None => None,
    }
}

/// What `set` says when the path or the value is missing.
pub open spec fn set_usage() -> Seq<char> {
    nl("Error: Missing path or value"@) + nl(
        "Usage: meteor set [--dry-run] [--format=FORMAT] <context:namespace:key> <value>"@,
    ) + nl("Example: meteor set app:ui:button click"@) + nl(
        "Example: meteor set --dry-run app:ui:button click"@,
    )
}

/// What `set` prints for a path and a value, given what storing answered.
pub open spec fn set_report(
    path: Seq<char>,
    value: Seq<char>,
    format: OutputFormat,
    dry_run: bool,
    res: Result<(), Seq<char>>,
) -> CommandText {
    if dry_run {
        (0, if format == OutputFormat::Json {
            nl("{"@) + nl("  \"dry_run\": true,"@) + nl("  \"action\": \"set\","@) + nl(
                "  \"path\": \""@ + path + "\","@,
            ) + nl("  \"value\": \""@ + value + "\""@) + nl("}"@)
        } else {
            nl("[DRY RUN] Would set: "@ + path + " = "@ + value)
        }, Seq::empty())
    } else {
        match res {
            Ok(_) => (0, if format == OutputFormat::Json {
                nl("{"@) + nl("  \"success\": true,"@) + nl("  \"path\": \""@ + path + "\","@) + nl(
                    "  \"value\": \""@ + value + "\""@,
                ) + nl("}"@)
            } else {
                nl("Set: "@ + path + " = "@ + value)
            }, Seq::empty()),
            Err(m) => if format == OutputFormat::Json {
                (1, json_failure(m), Seq::empty())
            } else {
                (1, Seq::empty(), nl("Set error: "@ + m))
            },
        }
    }
}

fn set_output(path: &str, value: &str, format: OutputFormat, dry_run: bool, res: &Result<(), String>) -> (r:
    CommandOutput)
    ensures
        output_text(r) == set_report(path@, value@, format, dry_run, result_view(*res)),
{
    let mut out = String::new();
    let mut err = String::new();
    if dry_run {
        match format {
            OutputFormat::Json => {
                line(&mut out, "{");
                line(&mut out, "  \"dry_run\": true,");
                line(&mut out, "  \"action\": \"set\",");
                line3(&mut out, "  \"path\": \"", path, "\",");
                line3(&mut out, "  \"value\": \"", value, "\"");
                line(&mut out, "}");
            },
            _ => {
                append(&mut out, "[DRY RUN] Would set: ");
                line3(&mut out, path, " = ", value);
            },
        }
        return CommandOutput { code: 0, out, err };
    }
    match res {
        Ok(()) => {
            match format {
                OutputFormat::Json => {
                    line(&mut out, "{");
                    line(&mut out, "  \"success\": true,");
                    line3(&mut out, "  \"path\": \"", path, "\",");
                    line3(&mut out, "  \"value\": \"", value, "\"");
                    line(&mut out, "}");
                },
                _ => {
                    append(&mut out, "Set: ");
                    line3(&mut out, path, " = ", value);
                },
            }
            CommandOutput { code: 0, out, err }
        },
        Err(e) => {
            match format {
                OutputFormat::Json => push_json_failure(&mut out, e.as_str()),
                _ => line2(&mut err, "Set error: ", e.as_str()),
            }
            CommandOutput { code: 1, out, err }
        },
    }
}

/// The `set` command: `PATH VALUE` (cut at the first space) stores the
/// value at the path, or with `dry_run` only says what it would store.
pub fn cli_set(engine: &mut MeteorEngine, input: &str, format: OutputFormat, dry_run: bool) -> (r:
    CommandOutput)
    ensures
        split_at_space(input@) is None ==> output_text(r) == (1int, Seq::<char>::empty(), set_usage())
            && *final(engine) == *old(engine),
        split_at_space(input@) matches Some((path, value)) ==> {
            if dry_run {
                output_text(r) == set_report(path, value, format, true, Ok(())) && *final(engine)
                    == *old(engine)
            } else {
                &&& final(engine).work().1 == old(engine).work().1
                &&& final(engine).ctx() == old(engine).ctx()
                &&& final(engine).ns() == old(engine).ns()
                &&& final(engine).history() == old(engine).history()
                &&& match stored_at(old(engine).data(), old(engine).work().0, path, value) {
                    Ok((d, w)) => output_text(r) == set_report(path, value, format, false, Ok(()))
                        && final(engine).data() == d && final(engine).work().0 == w,
                    Err(m) => output_text(r) == set_report(path, value, format, false, Err(m))
                        && final(engine).data() == old(engine).data() && final(engine).work()
                        == old(engine).work(),
                }
            }
        },
{
    let n = input.unicode_len();
    match find_char(input, ' ') {
        None => {
            let mut err = String::new();
            line(&mut err, "Error: Missing path or value");
            line(&mut err, "Usage: meteor set [--dry-run] [--format=FORMAT] <context:namespace:key> <value>");
            line(&mut err, "Example: meteor set app:ui:button click");
            line(&mut err, "Example: meteor set --dry-run app:ui:button click");
            CommandOutput { code: 1, out: String::new(), err }
        },
        Some(i) => {
            let path = input.substring_char(0, i);
            let value = input.substring_char(i + 1, n);
            assert(path@ =~= input@.take(i as int));
            assert(value@ =~= input@.skip(i + 1));
            if dry_run {
                return set_output(path, value, format, true, &Ok(()));
            }
            let res = engine.set(path, value);
            set_output(path, value, format, false, &res)
        },
    }
}

/// What `delete` says when no path was given.
pub open spec fn delete_usage() -> Seq<char> {
    nl("Error: No path provided"@) + nl(
        "Usage: meteor delete [--dry-run] [--format=FORMAT] <context:namespace:key>"@,
    ) + nl("Example: meteor delete app:ui:button"@) + nl(
        "Example: meteor delete --dry-run app:ui:button"@,
    )
}

/// What `delete` prints for a path, given what deleting answered.
pub open spec fn delete_report(
    path: Seq<char>,
    format: OutputFormat,
    dry_run: bool,
    res: Result<bool, Seq<char>>,
) -> CommandText {
    if dry_run {
        (0, if format == OutputFormat::Json {
            nl("{"@) + nl("  \"dry_run\": true,"@) + nl("  \"action\": \"delete\","@) + nl(
                "  \"path\": \""@ + path + "\""@,
            ) + nl("}"@)
        } else {
            nl("[DRY RUN] Would delete: "@ + path)
        }, Seq::empty())
    } else {
        match res {
            Ok(b) => (if b {
                0int
            } else {
                1int
            }, if format == OutputFormat::Json {
                nl("{"@) + nl("  \"success\": true,"@) + (if b {
                    nl("  \"deleted\": true,"@)
                } else {
                    nl("  \"deleted\": false,"@)
                }) + nl("  \"path\": \""@ + path + "\""@) + nl("}"@)
            } else if b {
                nl("Deleted: "@ + path)
            } else {
                nl("Not found: "@ + path)
            }, Seq::empty()),
            Err(m) => if format == OutputFormat::Json {
                (1, json_failure(m), Seq::empty())
            } else {
                (1, Seq::empty(), nl("Delete error: "@ + m))
            },
        }
    }
}

/// The answer of a delete as its text.
pub open spec fn deleted_view(r: Result<bool, String>) -> Result<bool, Seq<char>> {
    match r {
        Ok(b) => Ok(b),
        Err(e) => Err(e@),
    }
}

fn delete_output(path: &str, format: OutputFormat, dry_run: bool, res: &Result<bool, String>) -> (r:
    CommandOutput)
    ensures
        output_text(r) == delete_report(path@, format, dry_run, deleted_view(*res)),
{
    let mut out = String::new();
    let mut err = String::new();
    if dry_run {
        match format {
            OutputFormat::Json => {
                line(&mut out, "{");
                line(&mut out, "  \"dry_run\": true,");
                line(&mut out, "  \"action\": \"delete\",");
                line3(&mut out, "  \"path\": \"", path, "\"");
                line(&mut out, "}");
            },
            _ => line2(&mut out, "[DRY RUN] Would delete: ", path),
        }
        return CommandOutput { code: 0, out, err };
    }
    match res {
        Ok(b) => {
            match format {
                OutputFormat::Json => {
                    line(&mut out, "{");
                    line(&mut out, "  \"success\": true,");
                    if *b {
                        line(&mut out, "  \"deleted\": true,");
                    } else {
                        line(&mut out, "  \"deleted\": false,");
                    }
                    line3(&mut out, "  \"path\": \"", path, "\"");
                    line(&mut out, "}");
                },
                _ => {
                    if *b {
                        line2(&mut out, "Deleted: ", path);
                    } else {
                        line2(&mut out, "Not found: ", path);
                    }
                },
            }
            CommandOutput { code: if *b { 0 } else { 1 }, out, err }
        },
        Err(e) => {
            match format {
                OutputFormat::Json => push_json_failure(&mut out, e.as_str()),
                _ => line2(&mut err, "Delete error: ", e.as_str()),
            }
            CommandOutput { code: 1, out, err }
        },
    }
}

/// The `delete` command: deletes what a path names, or with `dry_run` only
/// says what it would delete.
pub fn cli_delete(engine: &mut MeteorEngine, input: &str, format: OutputFormat, dry_run: bool) -> (r:
    CommandOutput)
    ensures
        input@.len() == 0 ==> output_text(r) == (1int, Seq::<char>::empty(), delete_usage())
            && *final(engine) == *old(engine),
        input@.len() > 0 && dry_run ==> output_text(r) == delete_report(input@, format, true, Ok(true))
            && *final(engine) == *old(engine),
        input@.len() > 0 && !dry_run ==> {
            &&& final(engine).work().1 == old(engine).work().1
            &&& final(engine).ctx() == old(engine).ctx()
            &&& final(engine).ns() == old(engine).ns()
            &&& final(engine).history() == old(engine).history()
            &&& match path_parts(input@) {
                Err(m) => output_text(r) == delete_report(input@, format, false, Err(m))
                    && final(engine).data() == old(engine).data() && final(engine).work()
                    == old(engine).work(),
                Ok((c, n, k)) => exists|b: bool|
                    deleted(
                        old(engine).data(),
                        old(engine).work().0,
                        final(engine).data(),
                        final(engine).work().0,
                        c,
                        n,
                        k,
                        b,
                    ) && output_text(r) == delete_report(input@, format, false, Ok(b)),
            }
        },
{
    if input.unicode_len() == 0 {
        let mut err = String::new();
        line(&mut err, "Error: No path provided");
        line(&mut err, "Usage: meteor delete [--dry-run] [--format=FORMAT] <context:namespace:key>");
        line(&mut err, "Example: meteor delete app:ui:button");
        line(&mut err, "Example: meteor delete --dry-run app:ui:button");
        return CommandOutput { code: 1, out: String::new(), err };
    }
    if dry_run {
        return delete_output(input, format, true, &Ok(true));
    }
    let res = engine.delete(input);
    delete_output(input, format, false, &res)
}


/// The commands that `history` shows: the last `limit` of them, or all.
pub open spec fn shown_commands(h: Seq<ControlCommand>, limit: Option<usize>) -> Seq<ControlCommand> {
    match limit {
        Some(n) => if n < h.len() {
            h.skip(h.len() - n)
        } else {
            h
        },
        None => h,
    }
}

/// `true` or `false`.
pub open spec fn bool_text(b: bool) -> Seq<char> {
    if b {
        "true"@
    } else {
        "false"@
    }
}

/// One command of the history as a text line.
pub open spec fn command_line(c: ControlCommand) -> Seq<char> {
    nl((if c.success {
        "✓"@
    } else {
        "✗"@
    }) + " ["@ + decimal(c.timestamp as nat) + "] "@ + c.command_type@ + " "@ + c.target@ + match c.error_message {
        Some(e) => " - Error: "@ + e@,
        None => Seq::empty(),
    })
}

/// The history as text lines.
pub open spec fn command_lines(cs: Seq<ControlCommand>) -> Seq<char>
    decreases cs.len(),
{
    if cs.len() == 0 {
        Seq::empty()
    } else {
        command_lines(cs.drop_last()) + command_line(cs.last())
    }
}

/// The fields of one command in the JSON history.
pub open spec fn command_json_fields(c: ControlCommand) -> Seq<char> {
    nl("    \"timestamp\": "@ + decimal(c.timestamp as nat) + ","@) + nl(
        "    \"command_type\": \""@ + c.command_type@ + "\","@,
    ) + nl("    \"target\": \""@ + c.target@ + "\","@) + nl("    \"success\": "@ + bool_text(c.success))
        + match c.error_message {
        Some(e) => nl("    ,\"error\": \""@ + e@ + "\""@),
        None => Seq::empty(),
    }
}

/// The first `k` commands of the JSON history.
pub open spec fn commands_json_upto(cs: Seq<ControlCommand>, k: int) -> Seq<char>
    decreases k,
{
    if k <= 0 {
        Seq::empty()
    } else {
        commands_json_upto(cs, k - 1) + nl("  {"@) + command_json_fields(cs[k - 1]) + (if k
            == cs.len() {
            nl("  }"@)
        } else {
            nl("  },"@)
        })
    }
}

/// What `history` prints.
pub open spec fn history_report(h: Seq<ControlCommand>, limit: Option<usize>, format: OutputFormat) -> CommandText {
    let cs = shown_commands(h, limit);
    (0, if cs.len() == 0 {
        if format == OutputFormat::Json {
            nl("[]"@)
        } else {
            nl("No command history"@)
        }
    } else if format == OutputFormat::Json {
        nl("["@) + commands_json_upto(cs, cs.len() as int) + nl("]"@)
    } else {
        command_lines(cs)
    }, Seq::empty())
}

fn push_command_line(out: &mut String, c: &ControlCommand)
    ensures
        final(out)@ == old(out)@ + command_line(*c),
{
    let ghost start = out@;
    if c.success {
        append(out, "✓");
    } else {
        append(out, "✗");
    }
    append(out, " [");
    let ts = decimal_string(c.timestamp);
    append(out, ts.as_str());
    append(out, "] ");
    append(out, c.command_type.as_str());
    append(out, " ");
    append(out, c.target.as_str());
    match &c.error_message {
        Some(e) => {
            append(out, " - Error: ");
            append(out, e.as_str());
        },
        None => {},
    }
    push_char(out, '\n');
    assert(out@ =~= start + command_line(*c));
}

fn push_command_json(out: &mut String, c: &ControlCommand)
    ensures
        final(out)@ == old(out)@ + command_json_fields(*c),
{
    let ghost start = out@;
    let ts = decimal_string(c.timestamp);
    line3(out, "    \"timestamp\": ", ts.as_str(), ",");
    line3(out, "    \"command_type\": \"", c.command_type.as_str(), "\",");
    line3(out, "    \"target\": \"", c.target.as_str(), "\",");
    if c.success {
        line2(out, "    \"success\": ", "true");
    } else {
        line2(out, "    \"success\": ", "false");
    }
    match &c.error_message {
        Some(e) => line3(out, "    ,\"error\": \"", e.as_str(), "\""),
        None => {},
    }
    assert(out@ =~= start + command_json_fields(*c));
}

/// The `history` command: the audit trail, the last `limit` commands where
/// a limit is given.
pub fn cli_history(commands: &[ControlCommand], limit: Option<usize>, format: OutputFormat) -> (r:
    CommandOutput)
    ensures
        output_text(r) == history_report(commands@, limit, format),
{
    let ghost cs = shown_commands(commands@, limit);
    let len = commands.len();
    let start: usize = match limit {
        Some(n) => if n < len {
            len - n
        } else {
            0
        },
        None => 0,
    };
    assert(commands@.skip(start as int) =~= cs);
    let mut out = String::new();
    if start == len {
        match format {
            OutputFormat::Json => line(&mut out, "[]"),
            _ => line(&mut out, "No command history"),
        }
        return CommandOutput { code: 0, out, err: String::new() };
    }
    let ghost base;
    match format {
        OutputFormat::Json => {
            line(&mut out, "[");
            proof {
                base = out@;
            }
            let mut i: usize = start;
            while i < len
                invariant
                    start <= i <= len,
                    len == commands@.len(),
                    cs == commands@.skip(start as int),
                    out@ == base + commands_json_upto(cs, i - start),
                decreases len - i,
            {
                line(&mut out, "  {");
                assert(cs[i - start] == commands@[i as int]);
                push_command_json(&mut out, &commands[i]);
                if i + 1 < len {
                    line(&mut out, "  },");
                } else {
                    line(&mut out, "  }");
                }
                assert(out@ =~= base + commands_json_upto(cs, i + 1 - start));
                i += 1;
            }
            line(&mut out, "]");
        },
        _ => {
            proof {
                base = out@;
            }
            let mut i: usize = start;
            while i < len
                invariant
                    start <= i <= len,
                    len == commands@.len(),
                    cs == commands@.skip(start as int),
                    out@ == base + command_lines(cs.take(i - start)),
                decreases len - i,
            {
                push_command_line(&mut out, &commands[i]);
                assert(cs.take(i + 1 - start).drop_last() =~= cs.take(i - start));
                assert(cs.take(i + 1 - start).last() == commands@[i as int]);
                assert(out@ =~= base + command_lines(cs.take(i + 1 - start)));
                i += 1;
            }
            assert(cs.take(i - start) =~= cs);
        },
    }
    CommandOutput { code: 0, out, err: String::new() }
}

/// What `reset` says when no target was given.
pub open spec fn reset_usage() -> Seq<char> {
    nl("Error: Missing reset target"@) + nl("Usage: meteor reset <target>"@) + nl(
        "Targets: cursor, storage, all, <context_name>"@,
    )
}

/// What a successful reset of `target` says.
pub open spec fn reset_message(target: Seq<char>) -> Seq<char> {
    if target == "cursor"@ {
        "Cursor reset to default (app:main)"@
    } else if target == "storage"@ {
        "All storage cleared"@
    } else if target == "all"@ {
        "Cursor and storage reset"@
    } else {
        "Context '"@ + target + "' deleted"@
    }
}

/// What `reset` prints for a target, given what resetting answered.
pub open spec fn reset_report(target: Seq<char>, format: OutputFormat, res: Result<(), Seq<char>>) -> CommandText {
    match res {
        Ok(_) => (0, if format == OutputFormat::Json {
            nl("{"@) + nl("  \"success\": true,"@) + nl("  \"target\": \""@ + target + "\""@) + nl("}"@)
        } else {
            nl(reset_message(target))
        }, Seq::empty()),
        Err(m) => if format == OutputFormat::Json {
            (1, json_failure(m), Seq::empty())
        } else {
            (1, Seq::empty(), nl("Reset error: "@ + m))
        },
    }
}

/// `reset` targets that are not a context's name.
pub open spec fn is_reset_keyword(t: Seq<char>) -> bool {
    t == "cursor"@ || t == "storage"@ || t == "all"@
}

fn reset_output(target: &str, format: OutputFormat, res: &Result<(), String>) -> (r: CommandOutput)
    ensures
        output_text(r) == reset_report(target@, format, result_view(*res)),
{
    proof {
        reveal_strlit("cursor");
        reveal_strlit("storage");
        reveal_strlit("all");
    }
    let mut out = String::new();
    let mut err = String::new();
    match res {
        Ok(()) => {
            match format {
                OutputFormat::Json => {
                    line(&mut out, "{");
                    line(&mut out, "  \"success\": true,");
                    line3(&mut out, "  \"target\": \"", target, "\"");
                    line(&mut out, "}");
                },
                _ => {
                    if str_eq(target, "cursor") {
                        line(&mut out, "Cursor reset to default (app:main)");
                    } else if str_eq(target, "storage") {
                        line(&mut out, "All storage cleared");
                    } else if str_eq(target, "all") {
                        line(&mut out, "Cursor and storage reset");
                    } else {
                        line3(&mut out, "Context '", target, "' deleted");
                    }
                },
            }
            CommandOutput { code: 0, out, err }
        },
        Err(e) => {
            match format {
                OutputFormat::Json => push_json_failure(&mut out, e.as_str()),
                _ => line2(&mut err, "Reset error: ", e.as_str()),
            }
            CommandOutput { code: 1, out, err }
        },
    }
}

/// The path that `reset` deletes for a target other than `cursor`, `storage`
/// or `all`: a bare name is a context (`NAME::`), anything with a `:` is a
/// path as it stands.
pub open spec fn reset_path(t: Seq<char>) -> Seq<char> {
    if t.contains(':') {
        t
    } else {
        t + "::"@
    }
}

/// What `reset` does to an engine (`e0` before, `e1` after) and prints:
/// `cursor`, `storage` or `all` run the reset control command; any other
/// target names a context to delete (or, with a `:`, a path), and deleting
/// nothing is an error.
pub open spec fn reset_outcome(
    e0: MeteorEngine,
    input: Seq<char>,
    format: OutputFormat,
    e1: MeteorEngine,
    r: CommandText,
) -> bool {
    let t = trim(input);
    if input.len() == 0 {
        r == (1int, Seq::<char>::empty(), reset_usage()) && e1 == e0
    } else if is_reset_keyword(t) {
        control_outcome(e0, e1, "reset"@, t, Ok(())) && r == reset_report(t, format, Ok(()))
    } else {
        &&& e1.work().1 == e0.work().1
        &&& e1.ctx() == e0.ctx()
        &&& e1.ns() == e0.ns()
        &&& e1.history() == e0.history()
        &&& match path_parts(reset_path(t)) {
            Err(m) => r == reset_report(t, format, Err(m)) && e1.data() == e0.data() && e1.work()
                == e0.work(),
            Ok((c, n, k)) => exists|b: bool|
                deleted(e0.data(), e0.work().0, e1.data(), e1.work().0, c, n, k, b) && r
                    == reset_report(
                    t,
                    format,
                    if b {
                        Ok(())
                    } else {
                        Err("Context '"@ + t + "' not found"@)
                    },
                ),
        }
    }
}

/// The `reset` command.
pub fn cli_reset(engine: &mut MeteorEngine, input: &str, format: OutputFormat) -> (r: CommandOutput)
    ensures
        reset_outcome(*old(engine), input@, format, *final(engine), output_text(r)),
{
    proof {
        reveal_strlit("cursor");
        reveal_strlit("storage");
        reveal_strlit("all");
        reveal_strlit("reset");
        reveal_strlit("delete");
    }
    if input.unicode_len() == 0 {
        let mut err = String::new();
        line(&mut err, "Error: Missing reset target");
        line(&mut err, "Usage: meteor reset <target>");
        line(&mut err, "Targets: cursor, storage, all, <context_name>");
        return CommandOutput { code: 1, out: String::new(), err };
    }
    let target = trim_str(input);
    if str_eq(target, "cursor") || str_eq(target, "storage") || str_eq(target, "all") {
        let res = engine.execute_control_command("reset", target);
        assert("reset"@.len() == 5 && "delete"@.len() == 6);
        assert("reset"@ != "delete"@);
        assert(target@ == "cursor"@ || target@ == "storage"@ || target@ == "all"@);
        assert(res is Ok);
        return reset_output(target, format, &res);
    }
    let mut path = owned(target);
    if !contains_char(target, ':') {
        append(&mut path, "::");
    }
    let res: Result<(), String> = match engine.delete(path.as_str()) {
        Ok(true) => Ok(()),
        Ok(false) => {
            let mut m = String::new();
            append(&mut m, "Context '");
            append(&mut m, target);
            append(&mut m, "' not found");
            Err(m)
        },
        Err(e) => Err(e),
    };
    reset_output(target, format, &res)
}

} // verus!
