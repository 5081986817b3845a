//! Quote- and escape-aware splitting of token and meteor streams.

use vstd::prelude::*;
use crate::text::{count_char, count_chars, lemma_split_on_len, occurs_at, owned, push_char, split_on, trim, trim_str};

verus! {

/// How a stream is split.
#[derive(Debug, Clone, Copy)]
pub struct SplitConfig {
    /// Character to split on
    pub delimiter: char,
    /// Whether a backslash escapes the next character
    pub handle_escapes: bool,
    /// Whether escapes count only inside quotes
    pub escapes_only_in_quotes: bool,
    /// Whether delimiters are kept in the output (not used by the splitters)
    pub preserve_delimiters: bool,
    /// Whether pieces are trimmed of whitespace
    pub trim_results: bool,
}

impl SplitConfig {
    /// Semicolon-separated tokens, with no escapes and no trimming.
    pub fn semicolon_tokens() -> (c: Self)
        ensures
            c == Self::semicolon_tokens_spec(),
            c.delimiter == ';',
            !c.handle_escapes,
            !c.escapes_only_in_quotes,
            !c.preserve_delimiters,
            !c.trim_results,
    {
        SplitConfig {
            delimiter: ';',
            handle_escapes: false,
            escapes_only_in_quotes: false,
            preserve_delimiters: false,
            trim_results: false,
        }
    }

    /// General parsing: escapes anywhere, trimmed pieces.
    pub fn general_parsing(delimiter: char) -> (c: Self)
        ensures
            c == Self::general_parsing_spec(delimiter),
            c.delimiter == delimiter,
            c.handle_escapes,
            !c.escapes_only_in_quotes,
            !c.preserve_delimiters,
            c.trim_results,
    {
        SplitConfig {
            delimiter,
            handle_escapes: true,
            escapes_only_in_quotes: false,
            preserve_delimiters: false,
            trim_results: true,
        }
    }

    /// Meteor streams: escapes only inside quotes, trimmed pieces.
    pub fn meteor_streams(delimiter: char) -> (c: Self)
        ensures
            c == Self::meteor_streams_spec(delimiter),
            c.delimiter == delimiter,
            c.handle_escapes,
            c.escapes_only_in_quotes,
            !c.preserve_delimiters,
            c.trim_results,
    {
        SplitConfig {
            delimiter,
            handle_escapes: true,
            escapes_only_in_quotes: true,
            preserve_delimiters: false,
            trim_results: true,
        }
    }

    /// The meteor delimiter `:;:` (the multi-char splitter matches the whole
    /// sequence; `delimiter` holds its first char).
    pub fn meteor_delimiter() -> (c: Self)
        ensures
            c.delimiter == ':',
            c.handle_escapes,
            c.escapes_only_in_quotes,
            !c.preserve_delimiters,
            c.trim_results,
    {
        SplitConfig {
            delimiter: ':',
            handle_escapes: true,
            escapes_only_in_quotes: true,
            preserve_delimiters: false,
            trim_results: true,
        }
    }
}

/// The piece that a segment contributes: trimmed where the config says so,
/// and nothing where it is empty.
pub open spec fn keep_piece(seg: Seq<char>, trim_results: bool) -> Seq<Seq<char>> {
    let t = if trim_results { trim(seg) } else { seg };
    if t.len() > 0 { seq![t] } else { Seq::empty() }
}

/// State of the single-char splitter after the first `i` chars of `s`:
/// (inside quotes, escaping the next char, start of the open segment,
/// pieces kept so far).
pub open spec fn scan(s: Seq<char>, cfg: SplitConfig, i: int) -> (bool, bool, int, Seq<Seq<char>>)
    decreases i,
{
    if i <= 0 {
        (false, false, 0, Seq::empty())
    } else {
        let (q, e, start, out) = scan(s, cfg, i - 1);
        let ch = s[i - 1];
        if e {
            (q, false, start, out)
        } else if ch == '\\' && cfg.handle_escapes {
            (q, !cfg.escapes_only_in_quotes || q, start, out)
        } else if ch == '"' {
            (!q, false, start, out)
        } else if ch == cfg.delimiter && !q {
            (q, false, i, out + keep_piece(s.subrange(start, i - 1), cfg.trim_results))
        } else {
            (q, false, start, out)
        }
    }
}

/// What `smart_split_borrowed` gives: the pieces between delimiters that stand
/// outside quotes, trimmed and non-empty as the config says.
pub open spec fn split_pieces(s: Seq<char>, cfg: SplitConfig) -> Seq<Seq<char>> {
    let (q, e, start, out) = scan(s, cfg, s.len() as int);
    out + keep_piece(s.subrange(start, s.len() as int), cfg.trim_results)
}

pub proof fn lemma_scan_start(s: Seq<char>, cfg: SplitConfig, i: int)
    requires
        0 <= i <= s.len(),
    ensures
        0 <= scan(s, cfg, i).2 <= i,
    decreases i,
{
    if i > 0 {
        lemma_scan_start(s, cfg, i - 1);
    }
}

fn keep_into<'a>(out: &mut Vec<&'a str>, seg: &'a str, trim_results: bool)
    ensures
        final(out)@.map_values(|p: &str| p@) == old(out)@.map_values(|p: &str| p@) + keep_piece(
            seg@,
            trim_results,
        ),
{
    let ghost before = out@.map_values(|p: &str| p@);
    let t = if trim_results {
        trim_str(seg)
    } else {
        seg
    };
    if t.unicode_len() > 0 {
        out.push(t);
        assert(out@.map_values(|p: &str| p@) =~= before + seq![t@]);
    } else {
        assert(before + keep_piece(seg@, trim_results) =~= before);
    }
}

/// Splits `input` on `config.delimiter` where it stands outside double quotes,
/// honouring backslash escapes as the config says; pieces come back as slices
/// of `input`.
pub fn smart_split_borrowed(input: &str, config: SplitConfig) -> (r: Vec<&str>)
    ensures
        r@.map_values(|p: &str| p@) == split_pieces(input@, config),
{
    let n = input.unicode_len();
    let mut result: Vec<&str> = Vec::new();
    let mut start: usize = 0;
    let mut in_quotes = false;
    let mut escape_next = false;
    let mut i: usize = 0;
    while i < n
        invariant
            n == input@.len(),
            i <= n,
            start <= i,
            scan(input@, config, i as int) == (in_quotes, escape_next, start as int, result@.map_values(
                |p: &str| p@,
            )),
        decreases n - i,
    {
        let ch = input.get_char(i);
        if escape_next {
            escape_next = false;
        } else if ch == '\\' && config.handle_escapes {
            if !config.escapes_only_in_quotes || in_quotes {
                escape_next = true;
            }
        } else if ch == '"' {
            in_quotes = !in_quotes;
        } else if ch == config.delimiter && !in_quotes {
            let seg = input.substring_char(start, i);
            keep_into(&mut result, seg, config.trim_results);
            start = i + 1;
        }
        i += 1;
    }
    let seg = input.substring_char(start, n);
    keep_into(&mut result, seg, config.trim_results);
    result
}

/// Like `smart_split_borrowed`, with owned pieces.
pub fn smart_split(input: &str, config: SplitConfig) -> (r: Vec<String>)
    ensures
        r@.map_values(|p: String| p@) == split_pieces(input@, config),
{
    let borrowed = smart_split_borrowed(input, config);
    let mut out: Vec<String> = Vec::new();
    let mut i: usize = 0;
    while i < borrowed.len()
        invariant
            i <= borrowed@.len(),
            out@.map_values(|p: String| p@) == borrowed@.map_values(|p: &str| p@).take(i as int),
        decreases borrowed@.len() - i,
    {
        let ghost before = out@.map_values(|p: String| p@);
        out.push(owned(borrowed[i]));
        assert(out@.map_values(|p: String| p@) =~= before.push(borrowed@[i as int]@));
        assert(borrowed@.map_values(|p: &str| p@).take(i + 1) =~= borrowed@.map_values(
            |p: &str| p@,
        ).take(i as int).push(borrowed@[i as int]@));
        i += 1;
    }
    assert(borrowed@.map_values(|p: &str| p@).take(i as int) =~= borrowed@.map_values(
        |p: &str| p@,
    ));
    out
}

/// The multi-char delimiter can be found whole: it holds no double quote,
/// and no backslash where backslashes escape (such a char is always taken
/// by the quote or escape handling first, so the delimiter never matches).
pub open spec fn plain_delimiter(d: Seq<char>, cfg: SplitConfig) -> bool {
    !d.contains('"') && !(cfg.handle_escapes && d.contains('\\'))
}

/// The state of the multi-char splitter: (open segment, inside quotes,
/// escaping the next char, pieces kept so far).
pub type MultiState = (Seq<char>, bool, bool, Seq<Seq<char>>);

/// The multi-char splitter, scanning `s` from position `i` on in state
/// `st`: left to right, every whole occurrence of `d` outside quotes ends
/// the open segment, which is kept where it (with the delimiter's first
/// chars after it) is not blank.
pub open spec fn scan_multi_from(s: Seq<char>, d: Seq<char>, cfg: SplitConfig, i: int, st: MultiState) -> MultiState
    decreases s.len() - i,
{
    if i < 0 || i >= s.len() || d.len() == 0 {
        st
    } else {
        let (cur, q, e, out) = st;
        let ch = s[i];
        if e {
            scan_multi_from(s, d, cfg, i + 1, (cur.push(ch), q, false, out))
        } else if ch == '\\' && cfg.handle_escapes {
            scan_multi_from(s, d, cfg, i + 1, (cur.push(ch), q, !cfg.escapes_only_in_quotes || q, out))
        } else if ch == '"' {
            scan_multi_from(s, d, cfg, i + 1, (cur.push(ch), !q, false, out))
        } else if !q && plain_delimiter(d, cfg) && occurs_at(s, d, i) {
            let kept = if trim(cur + d.take(d.len() - 1)).len() > 0 {
                keep_piece(cur, cfg.trim_results)
            } else {
                Seq::empty()
            };
            scan_multi_from(s, d, cfg, i + d.len(), (Seq::empty(), q, false, out + kept))
        } else {
            scan_multi_from(s, d, cfg, i + 1, (cur.push(ch), q, false, out))
        }
    }
}

/// What `smart_split_multi_char` gives for a delimiter of more than one byte.
pub open spec fn multi_pieces(s: Seq<char>, d: Seq<char>, cfg: SplitConfig) -> Seq<Seq<char>> {
    let (cur, q, e, out) = scan_multi_from(s, d, cfg, 0, (Seq::empty(), false, false, Seq::empty()));
    if trim(cur).len() > 0 {
        out.push(if cfg.trim_results { trim(cur) } else { cur })
    } else {
        out
    }
}

/// Splits `input` on the char sequence `delimiter` where it stands outside
/// quotes, at each whole occurrence found scanning left to right. A
/// delimiter of one byte is handed to `smart_split` with the config as it is
/// (its own `delimiter` char is then the one used).
pub fn smart_split_multi_char(input: &str, delimiter: &str, config: SplitConfig) -> (r: Vec<String>)
    requires
        delimiter@.len() > 0 || input@.len() == 0,
    ensures
        delimiter.len() == 1 ==> r@.map_values(|p: String| p@) == split_pieces(input@, config),
        delimiter.len() != 1 ==> r@.map_values(|p: String| p@) == multi_pieces(
            input@,
            delimiter@,
            config,
        ),
{
    if delimiter.len() == 1 {
        return smart_split(input, config);
    }
    if delimiter.unicode_len() == 0 {
        let r: Vec<String> = Vec::new();
        assert(r@.map_values(|p: String| p@) =~= Seq::<Seq<char>>::empty());
        assert(trim(Seq::<char>::empty()) =~= Seq::<char>::empty());
        return r;
    }
    let n = input.unicode_len();
    let dn = delimiter.unicode_len();
    let plain = !crate::text::contains_char(delimiter, '"') && !(config.handle_escapes
        && crate::text::contains_char(delimiter, '\\'));
    let ghost init: MultiState = (Seq::empty(), false, false, Seq::empty());
    let mut result: Vec<String> = Vec::new();
    let mut current = String::new();
    let mut in_quotes = false;
    let mut escape_next = false;
    let mut i: usize = 0;
    assert(result@.map_values(|p: String| p@) =~= Seq::<Seq<char>>::empty());
    while i < n
        invariant
            n == input@.len(),
            dn == delimiter@.len(),
            dn > 0,
            i <= n,
            plain == plain_delimiter(delimiter@, config),
            scan_multi_from(input@, delimiter@, config, 0, init) == scan_multi_from(
                input@,
                delimiter@,
                config,
                i as int,
                (current@, in_quotes, escape_next, result@.map_values(|p: String| p@)),
            ),
        decreases n - i,
    {
        let ch = input.get_char(i);
        let ghost before = result@.map_values(|p: String| p@);
        if escape_next {
            push_char(&mut current, ch);
            escape_next = false;
            i += 1;
        } else if ch == '\\' && config.handle_escapes {
            if !config.escapes_only_in_quotes || in_quotes {
                escape_next = true;
            }
            push_char(&mut current, ch);
            i += 1;
        } else if ch == '"' {
            push_char(&mut current, ch);
            in_quotes = !in_quotes;
            i += 1;
        } else if !in_quotes && plain && crate::text::matches_at(input, delimiter, i) {
            let mut probe = owned(current.as_str());
            let head = delimiter.substring_char(0, dn - 1);
            crate::text::append(&mut probe, head);
            assert(head@ =~= delimiter@.take(dn - 1));
            if trim_str(probe.as_str()).unicode_len() > 0 {
                let segment = if config.trim_results {
                    owned(trim_str(current.as_str()))
                } else {
                    current.clone()
                };
                if segment.unicode_len() > 0 {
                    result.push(segment);
                    assert(result@.map_values(|p: String| p@) =~= before + keep_piece(
                        current@,
                        config.trim_results,
                    ));
                } else {
                    assert(before + keep_piece(current@, config.trim_results) =~= before);
                }
            } else {
                assert(before + Seq::<Seq<char>>::empty() =~= before);
            }
            current = String::new();
            i += dn;
        } else {
            push_char(&mut current, ch);
            i += 1;
        }
    }
    if trim_str(current.as_str()).unicode_len() > 0 {
        let segment = if config.trim_results {
            owned(trim_str(current.as_str()))
        } else {
            current
        };
        let ghost before = result@.map_values(|p: String| p@);
        result.push(segment);
        assert(result@.map_values(|p: String| p@) =~= before.push(segment@));
    }
    result
}

/// Splits on semicolons outside quotes, keeping whitespace; `None` where the
/// string holds an odd number of double quotes.
pub fn smart_split_semicolons(s: &str) -> (r: Option<Vec<&str>>)
    ensures
        count_char(s@, '"') % 2 != 0 ==> r is None,
        count_char(s@, '"') % 2 == 0 ==> (r matches Some(v) && v@.map_values(|p: &str| p@)
            == split_pieces(s@, SplitConfig::semicolon_tokens_spec())),
{
    let result = smart_split_borrowed(s, SplitConfig::semicolon_tokens());
    let quote_count = count_chars(s, '"');
    if quote_count % 2 != 0 {
        return None;
    }
    Some(result)
}

impl SplitConfig {
    /// The configuration `general_parsing` gives.
    pub open spec fn general_parsing_spec(delimiter: char) -> SplitConfig {
        SplitConfig {
            delimiter,
            handle_escapes: true,
            escapes_only_in_quotes: false,
            preserve_delimiters: false,
            trim_results: true,
        }
    }

    /// The configuration `meteor_streams` gives.
    pub open spec fn meteor_streams_spec(delimiter: char) -> SplitConfig {
        SplitConfig {
            delimiter,
            handle_escapes: true,
            escapes_only_in_quotes: true,
            preserve_delimiters: false,
            trim_results: true,
        }
    }

    /// The configuration `semicolon_tokens` gives.
    pub open spec fn semicolon_tokens_spec() -> SplitConfig {
        SplitConfig {
            delimiter: ';',
            handle_escapes: false,
            escapes_only_in_quotes: false,
            preserve_delimiters: false,
            trim_results: false,
        }
    }
}


/// The pieces kept of a list of segments: each trimmed where `trim_results`
/// says so, and the empty ones dropped.
pub open spec fn kept_all(ps: Seq<Seq<char>>, trim_results: bool) -> Seq<Seq<char>>
    decreases ps.len(),
{
    if ps.len() == 0 {
        Seq::empty()
    } else {
        kept_all(ps.drop_last(), trim_results) + keep_piece(ps.last(), trim_results)
    }
}

/// The text holds nothing that the splitter treats specially: no double
/// quote, and no backslash where backslashes escape.
pub open spec fn plain_text(s: Seq<char>, cfg: SplitConfig) -> bool {
    !s.contains('"') && !(cfg.handle_escapes && s.contains('\\'))
}

proof fn lemma_plain_scan(s: Seq<char>, cfg: SplitConfig, i: int)
    requires
        0 <= i <= s.len(),
        plain_text(s, cfg),
    ensures
        ({
            let (q, e, start, out) = scan(s, cfg, i);
            &&& !q && !e
            &&& 0 <= start <= i
            &&& out == kept_all(split_on(s.take(i), cfg.delimiter).drop_last(), cfg.trim_results)
            &&& s.subrange(start, i) == split_on(s.take(i), cfg.delimiter).last()
        }),
    decreases i,
{
    let d = cfg.delimiter;
    if i == 0 {
        assert(s.take(0) =~= Seq::<char>::empty());
        assert(s.subrange(0, 0) =~= Seq::<char>::empty());
        assert(seq![Seq::<char>::empty()].drop_last() =~= Seq::<Seq<char>>::empty());
    } else {
        lemma_plain_scan(s, cfg, i - 1);
        let (q, e, start, out) = scan(s, cfg, i - 1);
        let ch = s[i - 1];
        let prev = split_on(s.take(i - 1), d);
        assert(s.take(i).drop_last() =~= s.take(i - 1));
        assert(s.take(i).last() == ch);
        lemma_split_on_len(s.take(i - 1), d);
        assert(ch != '"') by {
            if ch == '"' {
                assert(s.contains('"'));
            }
        }
        assert(!(ch == '\\' && cfg.handle_escapes)) by {
            if ch == '\\' && cfg.handle_escapes {
                assert(s.contains('\\'));
            }
        }
        if ch == d {
            let now = prev.push(Seq::<char>::empty());
            assert(split_on(s.take(i), d) == now);
            assert(now.drop_last() =~= prev);
            assert(now.drop_last().drop_last() =~= prev.drop_last());
            assert(s.subrange(i, i) =~= Seq::<char>::empty());
        } else {
            let now = prev.update(prev.len() - 1, prev.last().push(ch));
            assert(split_on(s.take(i), d) == now);
            assert(now.drop_last() =~= prev.drop_last());
            assert(s.subrange(start, i) =~= s.subrange(start, i - 1).push(ch));
        }
    }
}

/// Where the text holds no quotes (and no backslashes where they escape),
/// splitting it is a plain split at each delimiter, with the pieces trimmed
/// and the empty ones dropped as the config says.
pub proof fn law_plain_split(s: Seq<char>, cfg: SplitConfig)
    requires
        plain_text(s, cfg),
    ensures
        split_pieces(s, cfg) == kept_all(split_on(s, cfg.delimiter), cfg.trim_results),
{
    lemma_plain_scan(s, cfg, s.len() as int);
    let ps = split_on(s, cfg.delimiter);
    assert(s.take(s.len() as int) =~= s);
    lemma_split_on_len(s, cfg.delimiter);
}

} // verus!
