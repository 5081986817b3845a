//! Export and import of a namespace's tokens, as text or JSON, with a
//! checksum.
//!
//! Bracket patterns of keys give content hints: `section[..]`, `part[..]`,
//! `chunk[..]`, `function[..]`/`func[..]`, `library[..]`/`lib[..]`,
//! `module[..]`/`mod[..]`, `blob[..]`, `metadata[..]`; `full`, `raw` and
//! `packed` are canonical content; anything else is a simple value.

use vstd::prelude::*;
use std::collections::hash_map::DefaultHasher;
use std::hash::Hasher;
use base64::Engine;
use vstd::std_specs::hash::DefaultHasherAdditionalSpecFns;
use crate::storage::pairs_view;
use crate::text::{
    append, contains_char, decimal, decimal_string, find_char, find_str, first_occurrence, owned,
    parse_u64_spec, parse_u64_text, push_char, replace_all, replace_spec, rfind_char, split_on,
    split_char, split_str, starts_with, str_eq, trim, trim_str, is_digit,
};

verus! {

/// The kind of content that a key's bracket pattern hints at.
#[derive(Debug, Clone, Copy, PartialEq, Eq, Structural)]
pub enum ContentType {
    DocumentSection,
    ScriptPart,
    Chunk,
    Function,
    Library,
    Module,
    Blob,
    Metadata,
    Canonical,
    SimpleValue,
}

/// The content type of a key.
pub open spec fn content_type_of(key: Seq<char>) -> ContentType {
    if key == "full"@ || key == "raw"@ || key == "packed"@ {
        ContentType::Canonical
    } else if !key.contains('[') {
        ContentType::SimpleValue
    } else if "section["@.is_prefix_of(key) {
        ContentType::DocumentSection
    } else if "part["@.is_prefix_of(key) {
        ContentType::ScriptPart
    } else if "chunk["@.is_prefix_of(key) {
        ContentType::Chunk
    } else if "function["@.is_prefix_of(key) || "func["@.is_prefix_of(key) {
        ContentType::Function
    } else if "library["@.is_prefix_of(key) || "lib["@.is_prefix_of(key) {
        ContentType::Library
    } else if "module["@.is_prefix_of(key) || "mod["@.is_prefix_of(key) {
        ContentType::Module
    } else if "blob["@.is_prefix_of(key) {
        ContentType::Blob
    } else if "metadata["@.is_prefix_of(key) {
        ContentType::Metadata
    } else {
        ContentType::SimpleValue
    }
}

/// Content split into parts: sections, parts, chunks, functions,
/// libraries, modules and blobs.
pub open spec fn is_part_type(t: ContentType) -> bool {
    match t {
        ContentType::DocumentSection | ContentType::ScriptPart | ContentType::Chunk
        | ContentType::Function | ContentType::Library | ContentType::Module
        | ContentType::Blob => true,
        _ => false,
    }
}

impl ContentType {
    /// The content type that a key's pattern hints at.
    pub fn from_key(key: &str) -> (r: Self)
        ensures
            r == content_type_of(key@),
    {
        if str_eq(key, "full") || str_eq(key, "raw") || str_eq(key, "packed") {
            return ContentType::Canonical;
        }
        if !contains_char(key, '[') {
            return ContentType::SimpleValue;
        }
        if starts_with(key, "section[") {
            ContentType::DocumentSection
        } else if starts_with(key, "part[") {
            ContentType::ScriptPart
        } else if starts_with(key, "chunk[") {
            ContentType::Chunk
        } else if starts_with(key, "function[") || starts_with(key, "func[") {
            ContentType::Function
        } else if starts_with(key, "library[") || starts_with(key, "lib[") {
            ContentType::Library
        } else if starts_with(key, "module[") || starts_with(key, "mod[") {
            ContentType::Module
        } else if starts_with(key, "blob[") {
            ContentType::Blob
        } else if starts_with(key, "metadata[") {
            ContentType::Metadata
        } else {
            ContentType::SimpleValue
        }
    }

    /// Whether the type is a content part.
    pub fn is_content_part(&self) -> (r: bool)
        ensures
            r == is_part_type(*self),
    {
        match self {
            ContentType::DocumentSection | ContentType::ScriptPart | ContentType::Chunk
            | ContentType::Function | ContentType::Library | ContentType::Module
            | ContentType::Blob => true,
            _ => false,
        }
    }

    /// Whether the type is canonical content.
    pub fn is_canonical(&self) -> (r: bool)
        ensures
            r == (*self == ContentType::Canonical),
    {
        match self {
            ContentType::Canonical => true,
            _ => false,
        }
    }
}

/// The format of an export.
#[derive(Debug, Clone, Copy, PartialEq, Eq, Structural)]
pub enum ExportFormat {
    Text,
    Json,
}

/// Checksum, time and size of an export.
#[derive(Debug)]
pub struct ExportMetadata {
    pub checksum: String,
    pub timestamp: u64,
    pub token_count: usize,
}

impl ExportMetadata {
    /// Metadata stamped with the current time.
    pub fn new(checksum: String, token_count: usize) -> (m: Self)
        ensures
            m.checksum@ == checksum@,
            m.token_count == token_count,
    {
        let timestamp = crate::workspace::current_timestamp();
        ExportMetadata { checksum, timestamp, token_count }
    }
}

impl Clone for ExportMetadata {
    fn clone(&self) -> (r: Self)
        ensures
            r.checksum@ == self.checksum@,
            r.timestamp == self.timestamp,
            r.token_count == self.token_count,
    {
        ExportMetadata {
            checksum: owned(self.checksum.as_str()),
            timestamp: self.timestamp,
            token_count: self.token_count,
        }
    }
}

/// The digit of a six-bit value in the standard base64 alphabet.
pub open spec fn base64_digit(v: int) -> char {
    if v < 26 {
        (65 + v) as char
    } else if v < 52 {
        (97 + v - 26) as char
    } else if v < 62 {
        (48 + v - 52) as char
    } else if v == 62 {
        '+'
    } else {
        '/'
    }
}

/// The base64 text, standard alphabet and no padding, of eight bytes: two
/// groups of three bytes give four digits each, and the last two bytes give
/// three digits, the last of which has its two low bits zero.
pub open spec fn base64_no_pad(b: Seq<u8>) -> Seq<char>
    recommends
        b.len() == 8,
{
    seq![
        base64_digit(b[0] as int / 4),
        base64_digit((b[0] as int % 4) * 16 + b[1] as int / 16),
        base64_digit((b[1] as int % 16) * 4 + b[2] as int / 64),
        base64_digit(b[2] as int % 64),
        base64_digit(b[3] as int / 4),
        base64_digit((b[3] as int % 4) * 16 + b[4] as int / 16),
        base64_digit((b[4] as int % 16) * 4 + b[5] as int / 64),
        base64_digit(b[5] as int % 64),
        base64_digit(b[6] as int / 4),
        base64_digit((b[6] as int % 4) * 16 + b[7] as int / 16),
        base64_digit((b[7] as int % 16) * 4),
    ]
}

/// Encodes eight bytes as base64, standard alphabet, no padding.
///
/// Calls `base64::engine::general_purpose::STANDARD_NO_PAD.encode`. The
/// contract states the eleven digits that the standard alphabet gives for
/// eight bytes without padding.
#[verifier::external_body]
fn encode_no_pad(bytes: &[u8]) -> (r: String)
    requires
        bytes@.len() == 8,
    ensures
        r@ == base64_no_pad(bytes@),
{
    base64::engine::general_purpose::STANDARD_NO_PAD.encode(bytes)
}

/// The writes that hashing strings makes: each string's UTF-8 bytes, then
/// the byte 0xff (what `str::hash` writes).
pub open spec fn hash_writes(parts: Seq<Seq<char>>) -> Seq<Seq<u8>>
    decreases parts.len(),
{
    if parts.len() == 0 {
        Seq::empty()
    } else {
        hash_writes(parts.drop_last()).push(vstd::utf8::encode_utf8(parts.last())).push(seq![0xffu8])
    }
}

pub proof fn lemma_hash_writes_push(parts: Seq<Seq<char>>, s: Seq<char>)
    ensures
        hash_writes(parts.push(s)) == hash_writes(parts).push(vstd::utf8::encode_utf8(s)).push(
            seq![0xffu8],
        ),
{
    assert(parts.push(s).drop_last() =~= parts);
}

/// The keys and values of tokens, in order.
pub open spec fn token_strings(tokens: Seq<(Seq<char>, Seq<char>)>) -> Seq<Seq<char>>
    decreases tokens.len(),
{
    if tokens.len() == 0 {
        Seq::empty()
    } else {
        token_strings(tokens.drop_last()).push(tokens.last().0).push(tokens.last().1)
    }
}

/// The little-endian bytes of a `u64`.
pub open spec fn le_bytes(h: u64) -> Seq<u8> {
    seq![
        (h & 0xff) as u8,
        ((h >> 8u64) & 0xff) as u8,
        ((h >> 16u64) & 0xff) as u8,
        ((h >> 24u64) & 0xff) as u8,
        ((h >> 32u64) & 0xff) as u8,
        ((h >> 40u64) & 0xff) as u8,
        ((h >> 48u64) & 0xff) as u8,
        ((h >> 56u64) & 0xff) as u8,
    ]
}

/// The checksum of an export: the default hasher's value over the context,
/// the namespace and each key and value, as base64 of its little-endian
/// bytes.
pub open spec fn checksum_of(ctx: Seq<char>, ns: Seq<char>, tokens: Seq<(Seq<char>, Seq<char>)>) -> Seq<
    char,
> {
    base64_no_pad(
        le_bytes(
            DefaultHasher::spec_finish(hash_writes(seq![ctx, ns] + token_strings(tokens))),
        ),
    )
}

fn hash_str(hasher: &mut DefaultHasher, s: &str)
    ensures
        final(hasher)@ == old(hasher)@.push(vstd::utf8::encode_utf8(s@)).push(seq![0xffu8]),
{
    hasher.write(s.as_bytes());
    let end: Vec<u8> = vec![0xffu8];
    hasher.write(end.as_slice());
    assert(end@ =~= seq![0xffu8]);
}

fn le_bytes_of(h: u64) -> (r: Vec<u8>)
    ensures
        r@ == le_bytes(h),
{
    let mut v: Vec<u8> = Vec::new();
    v.push((h & 0xff) as u8);
    v.push(((h >> 8u64) & 0xff) as u8);
    v.push(((h >> 16u64) & 0xff) as u8);
    v.push(((h >> 24u64) & 0xff) as u8);
    v.push(((h >> 32u64) & 0xff) as u8);
    v.push(((h >> 40u64) & 0xff) as u8);
    v.push(((h >> 48u64) & 0xff) as u8);
    v.push(((h >> 56u64) & 0xff) as u8);
    assert(v@ =~= le_bytes(h));
    v
}

/// A namespace's tokens with checksum metadata, ready to be written out.
#[derive(Debug)]
pub struct ExportData {
    pub context: String,
    pub namespace: String,
    pub tokens: Vec<(String, String)>,
    pub metadata: ExportMetadata,
    pub format: ExportFormat,
}

/// The characters that `escape_json` writes for one char.
pub open spec fn json_escape_char(c: char) -> Seq<char> {
    if c == '\\' {
        seq!['\\', '\\']
    } else if c == '"' {
        seq!['\\', '"']
    } else if c == '\n' {
        seq!['\\', 'n']
    } else if c == '\r' {
        seq!['\\', 'r']
    } else if c == '\t' {
        seq!['\\', 't']
    } else {
        seq![c]
    }
}

/// A string with backslash, quote, newline, return and tab escaped.
pub open spec fn json_escape(s: Seq<char>) -> Seq<char>
    decreases s.len(),
{
    if s.len() == 0 {
        Seq::empty()
    } else {
        json_escape(s.drop_last()) + json_escape_char(s.last())
    }
}

/// Escaping a char in front of a text escapes the char, then the text.
proof fn lemma_json_escape_cons(c: char, s: Seq<char>)
    ensures
        json_escape(seq![c] + s) == json_escape_char(c) + json_escape(s),
    decreases s.len(),
{
    let x = seq![c] + s;
    assert(json_escape(x) == json_escape(x.drop_last()) + json_escape_char(x.last()));
    if s.len() == 0 {
        assert(x.drop_last() =~= Seq::<char>::empty());
        assert(json_escape(Seq::<char>::empty()) == Seq::<char>::empty());
        assert(json_escape(s) == Seq::<char>::empty());
        assert(Seq::<char>::empty() + json_escape_char(c) =~= json_escape_char(c) + Seq::<char>::empty());
    } else {
        lemma_json_escape_cons(c, s.drop_last());
        assert(x.drop_last() =~= seq![c] + s.drop_last());
        assert(x.last() == s.last());
        assert(json_escape(s) == json_escape(s.drop_last()) + json_escape_char(s.last()));
        assert(json_escape_char(c) + json_escape(s.drop_last()) + json_escape_char(s.last())
            =~= json_escape_char(c) + (json_escape(s.drop_last()) + json_escape_char(s.last())));
    }
}

/// Escaping for JSON is undone by unescaping: reading back the escapes
/// that `json_escape(s)` writes (a backslash before a quote, a backslash,
/// `n` for a line feed, `r` for a carriage return, `t` for a tab) gives `s`
/// again.
pub proof fn law_json_escape_round_trip(s: Seq<char>)
    ensures
        crate::escape::unescape(json_escape(s)) == Ok::<Seq<char>, Seq<char>>(s),
    decreases s.len(),
{
    if s.len() > 0 {
        let c = s[0];
        let rest = s.drop_first();
        assert(s =~= seq![c] + rest);
        lemma_json_escape_cons(c, rest);
        law_json_escape_round_trip(rest);
        let t = json_escape(s);
        let e = json_escape_char(c);
        assert(t == e + json_escape(rest));
        if c == '\\' || c == '"' || c == '\n' || c == '\r' || c == '\t' {
            assert(e.len() == 2 && t[0] == '\\' && t[1] == e[1]);
            assert(crate::escape::simple_escape(t[1]) == Some(c));
            assert(t.skip(2) =~= json_escape(rest));
            assert(crate::escape::unescape(t) == crate::escape::prepend(seq![c], crate::escape::unescape(t.skip(2))));
        } else {
            assert(e == seq![c]);
            assert(t[0] == c);
            assert(t.drop_first() =~= json_escape(rest));
            assert(crate::escape::unescape(t) == crate::escape::prepend(seq![c], crate::escape::unescape(t.drop_first())));
        }
        assert(seq![c] + rest =~= s);
        assert(crate::escape::unescape(t) == Ok::<Seq<char>, Seq<char>>(seq![c] + rest));
    } else {
        assert(json_escape(s) == Seq::<char>::empty());
        assert(crate::escape::unescape(Seq::<char>::empty()) == Ok::<Seq<char>, Seq<char>>(Seq::<char>::empty()));
        assert(s =~= Seq::<char>::empty());
    }
}

/// JSON escaping leaves no bare quote, line feed, carriage return or tab:
/// each quote it writes comes right after a backslash.
pub proof fn law_json_escape_quotes(s: Seq<char>)
    ensures
        forall|i: int|
            0 <= i < json_escape(s).len() && #[trigger] json_escape(s)[i] == '"' ==> i > 0
                && json_escape(s)[i - 1] == '\\',
        forall|i: int|
            0 <= i < json_escape(s).len() ==> #[trigger] json_escape(s)[i] != '\n' && json_escape(s)[i]
                != '\r' && json_escape(s)[i] != '\t',
    decreases s.len(),
{
    if s.len() > 0 {
        law_json_escape_quotes(s.drop_last());
        let p = json_escape(s.drop_last());
        let e = json_escape_char(s.last());
        let t = json_escape(s);
        assert(t == p + e);
        assert forall|i: int| 0 <= i < t.len() && #[trigger] t[i] == '"' implies i > 0 && t[i - 1] == '\\' by {
            if i < p.len() {
                assert(t[i] == p[i]);
                assert(p[i - 1] == t[i - 1]);
            } else {
                assert(t[i] == e[i - p.len()]);
                if i - p.len() == 1 {
                    assert(t[i - 1] == e[0]);
                }
            }
        }
        assert forall|i: int| 0 <= i < t.len() implies #[trigger] t[i] != '\n' && t[i] != '\r' && t[i] != '\t' by {
            if i < p.len() {
                assert(t[i] == p[i]);
            } else {
                assert(t[i] == e[i - p.len()]);
            }
        }
    }
}

/// The lines `key=value` of tokens.
pub open spec fn token_lines(tokens: Seq<(Seq<char>, Seq<char>)>) -> Seq<char>
    decreases tokens.len(),
{
    if tokens.len() == 0 {
        Seq::empty()
    } else {
        token_lines(tokens.drop_last()) + tokens.last().0 + "="@ + tokens.last().1 + "\n"@
    }
}

/// The text form of an export.
pub open spec fn export_text(d: ExportData) -> Seq<char> {
    "# Meteor Export\n# Context: "@ + d.context@ + "\n# Namespace: "@ + d.namespace@
        + "\n# Checksum: "@ + d.metadata.checksum@ + "\n# Timestamp: "@ + decimal(
        d.metadata.timestamp as nat,
    ) + "\n# Token Count: "@ + decimal(d.metadata.token_count as nat) + "\n\n"@ + token_lines(
        pairs_view(d.tokens@),
    )
}

/// One token object of the JSON form.
pub open spec fn json_token(t: (Seq<char>, Seq<char>), last: bool) -> Seq<char> {
    "    {\n      \"key\": \""@ + json_escape(t.0) + "\",\n      \"value\": \""@ + json_escape(t.1)
        + "\"\n"@ + if last {
        "    }\n"@
    } else {
        "    },\n"@
    }
}

/// The token objects of the first `n` tokens.
pub open spec fn json_tokens_upto(tokens: Seq<(Seq<char>, Seq<char>)>, n: int) -> Seq<char>
    decreases n,
{
    if n <= 0 {
        Seq::empty()
    } else {
        json_tokens_upto(tokens, n - 1) + json_token(tokens[n - 1], n - 1 == tokens.len() - 1)
    }
}

/// The JSON form of an export.
pub open spec fn export_json(d: ExportData) -> Seq<char> {
    let tokens = pairs_view(d.tokens@);
    "{\n  \"context\": \""@ + d.context@ + "\",\n  \"namespace\": \""@ + d.namespace@
        + "\",\n  \"tokens\": [\n"@ + json_tokens_upto(tokens, tokens.len() as int)
        + "  ],\n  \"metadata\": {\n    \"checksum\": \""@ + d.metadata.checksum@
        + "\",\n    \"timestamp\": "@ + decimal(d.metadata.timestamp as nat)
        + ",\n    \"token_count\": "@ + decimal(d.metadata.token_count as nat) + "\n  }\n}"@
}

fn json_token_text(key: &str, value: &str, last: bool) -> (r: String)
    ensures
        r@ == json_token((key@, value@), last),
{
    let mut out = owned("    {\n      \"key\": \"");
    append(&mut out, ExportData::escape_json(key).as_str());
    append(&mut out, "\",\n      \"value\": \"");
    append(&mut out, ExportData::escape_json(value).as_str());
    append(&mut out, "\"\n");
    if last {
        append(&mut out, "    }\n");
    } else {
        append(&mut out, "    },\n");
    }
    out
}

impl ExportData {
    /// An export of tokens, with its checksum and the current time.
    pub fn new(context: String, namespace: String, tokens: Vec<(String, String)>, format: ExportFormat) -> (d:
        Self)
        ensures
            d.context@ == context@,
            d.namespace@ == namespace@,
            pairs_view(d.tokens@) == pairs_view(tokens@),
            d.metadata.checksum@ == checksum_of(context@, namespace@, pairs_view(tokens@)),
            d.metadata.token_count == tokens@.len(),
            d.format == format,
    {
        let checksum = Self::calculate_checksum(context.as_str(), namespace.as_str(), &tokens);
        let n = tokens.len();
        let metadata = ExportMetadata::new(checksum, n);
        ExportData { context, namespace, tokens, metadata, format }
    }

    fn calculate_checksum(context: &str, namespace: &str, tokens: &Vec<(String, String)>) -> (r:
        String)
        ensures
            r@ == checksum_of(context@, namespace@, pairs_view(tokens@)),
    {
        let ghost pv = pairs_view(tokens@);
        let mut hasher = DefaultHasher::new();
        hash_str(&mut hasher, context);
        hash_str(&mut hasher, namespace);
        assert(hasher@ =~= hash_writes(seq![context@, namespace@] + token_strings(pv.take(0)))) by {
            assert(pv.take(0) =~= Seq::empty());
            assert(token_strings(pv.take(0)) =~= Seq::empty());
            assert(seq![context@, namespace@] + token_strings(pv.take(0)) =~= Seq::empty().push(
                context@,
            ).push(namespace@));
            lemma_hash_writes_push(Seq::empty(), context@);
            lemma_hash_writes_push(Seq::empty().push(context@), namespace@);
            assert(hash_writes(Seq::empty()) =~= Seq::empty());
        }
        let mut i: usize = 0;
        while i < tokens.len()
            invariant
                i <= tokens@.len(),
                pv == pairs_view(tokens@),
                hasher@ == hash_writes(seq![context@, namespace@] + token_strings(pv.take(i as int))),
            decreases tokens@.len() - i,
        {
            hash_str(&mut hasher, tokens[i].0.as_str());
            hash_str(&mut hasher, tokens[i].1.as_str());
            proof {
                let base = seq![context@, namespace@];
                assert(pv[i as int] == (tokens@[i as int].0@, tokens@[i as int].1@));
                assert(pv.take(i + 1).drop_last() =~= pv.take(i as int));
                let prev = base + token_strings(pv.take(i as int));
                let next = base + token_strings(pv.take(i + 1));
                assert(next =~= prev.push(pv[i as int].0).push(pv[i as int].1));
                lemma_hash_writes_push(prev, pv[i as int].0);
                lemma_hash_writes_push(prev.push(pv[i as int].0), pv[i as int].1);
            }
            i += 1;
        }
        assert(pv.take(i as int) =~= pv);
        let h = hasher.finish();
        let bytes = le_bytes_of(h);
        encode_no_pad(bytes.as_slice())
    }

    /// The text form: a commented header, then one `key=value` line per
    /// token.
    pub fn to_text(&self) -> (r: String)
        ensures
            r@ == export_text(*self),
    {
        let mut out = owned("# Meteor Export\n# Context: ");
        append(&mut out, self.context.as_str());
        append(&mut out, "\n# Namespace: ");
        append(&mut out, self.namespace.as_str());
        append(&mut out, "\n# Checksum: ");
        append(&mut out, self.metadata.checksum.as_str());
        append(&mut out, "\n# Timestamp: ");
        append(&mut out, decimal_string(self.metadata.timestamp).as_str());
        append(&mut out, "\n# Token Count: ");
        append(&mut out, decimal_string(self.metadata.token_count as u64).as_str());
        append(&mut out, "\n\n");
        let ghost head = out@;
        let ghost pv = pairs_view(self.tokens@);
        let mut i: usize = 0;
        assert(pv.take(0) =~= Seq::empty());
        assert(head + token_lines(pv.take(0)) =~= head);
        while i < self.tokens.len()
            invariant
                i <= self.tokens@.len(),
                pv == pairs_view(self.tokens@),
                out@ == head + token_lines(pv.take(i as int)),
            decreases self.tokens@.len() - i,
        {
            append(&mut out, self.tokens[i].0.as_str());
            append(&mut out, "=");
            append(&mut out, self.tokens[i].1.as_str());
            append(&mut out, "\n");
            proof {
                assert(pv[i as int] == (self.tokens@[i as int].0@, self.tokens@[i as int].1@));
                assert(pv.take(i + 1).drop_last() =~= pv.take(i as int));
            }
            i += 1;
        }
        assert(pv.take(i as int) =~= pv);
        out
    }

    /// The JSON form (keys and values escaped).
    pub fn to_json(&self) -> (r: Result<String, String>)
        ensures
            r matches Ok(s) && s@ == export_json(*self),
    {
        let mut out = owned("{\n  \"context\": \"");
        append(&mut out, self.context.as_str());
        append(&mut out, "\",\n  \"namespace\": \"");
        append(&mut out, self.namespace.as_str());
        append(&mut out, "\",\n  \"tokens\": [\n");
        let ghost head = out@;
        let ghost pv = pairs_view(self.tokens@);
        let n = self.tokens.len();
        let mut i: usize = 0;
        while i < n
            invariant
                i <= n,
                n == self.tokens@.len(),
                pv == pairs_view(self.tokens@),
                out@ == head + json_tokens_upto(pv, i as int),
            decreases n - i,
        {
            let piece = json_token_text(
                self.tokens[i].0.as_str(),
                self.tokens[i].1.as_str(),
                i + 1 >= n,
            );
            append(&mut out, piece.as_str());
            proof {
                assert(pv[i as int] == (self.tokens@[i as int].0@, self.tokens@[i as int].1@));
            }
            i += 1;
        }
        append(&mut out, "  ],\n  \"metadata\": {\n    \"checksum\": \"");
        append(&mut out, self.metadata.checksum.as_str());
        append(&mut out, "\",\n    \"timestamp\": ");
        append(&mut out, decimal_string(self.metadata.timestamp).as_str());
        append(&mut out, ",\n    \"token_count\": ");
        append(&mut out, decimal_string(self.metadata.token_count as u64).as_str());
        append(&mut out, "\n  }\n}");
        Ok(out)
    }

    /// Escapes backslash, quote, newline, return and tab for JSON.
    pub fn escape_json(s: &str) -> (r: String)
        ensures
            r@ == json_escape(s@),
    {
        let n = s.unicode_len();
        let mut out = String::new();
        let mut i: usize = 0;
        while i < n
            invariant
                i <= n,
                n == s@.len(),
                out@ == json_escape(s@.take(i as int)),
            decreases n - i,
        {
            let c = s.get_char(i);
            if c == '\\' {
                append(&mut out, "\\\\");
            } else if c == '"' {
                append(&mut out, "\\\"");
            } else if c == '\n' {
                append(&mut out, "\\n");
            } else if c == '\r' {
                append(&mut out, "\\r");
            } else if c == '\t' {
                append(&mut out, "\\t");
            } else {
                push_char(&mut out, c);
            }
            proof {
                reveal_strlit("\\\\");
                reveal_strlit("\\\"");
                reveal_strlit("\\n");
                reveal_strlit("\\r");
                reveal_strlit("\\t");
                assert(s@.take(i + 1).drop_last() =~= s@.take(i as int));
                assert(json_escape_char(c) =~= if c == '\\' {
                    "\\\\"@
                } else if c == '"' {
                    "\\\""@
                } else if c == '\n' {
                    "\\n"@
                } else if c == '\r' {
                    "\\r"@
                } else if c == '\t' {
                    "\\t"@
                } else {
                    seq![c]
                });
            }
            i += 1;
        }
        assert(s@.take(n as int) =~= s@);
        out
    }

    /// The content type of each token's key.
    pub fn content_types(&self) -> (r: Vec<(String, ContentType)>)
        ensures
            r@.len() == self.tokens@.len(),
            forall|i: int|
                0 <= i < r@.len() ==> (#[trigger] r@[i]).0@ == self.tokens@[i].0@ && r@[i].1
                    == content_type_of(self.tokens@[i].0@),
    {
        let mut out: Vec<(String, ContentType)> = Vec::new();
        let mut i: usize = 0;
        while i < self.tokens.len()
            invariant
                i <= self.tokens@.len(),
                out@.len() == i,
                forall|j: int|
                    0 <= j < i ==> (#[trigger] out@[j]).0@ == self.tokens@[j].0@ && out@[j].1
                        == content_type_of(self.tokens@[j].0@),
            decreases self.tokens@.len() - i,
        {
            let k = self.tokens[i].0.as_str();
            out.push((owned(k), ContentType::from_key(k)));
            i += 1;
        }
        out
    }

    /// Whether some token's key is canonical content.
    pub fn has_canonical(&self) -> (r: bool)
        ensures
            r == exists|i: int|
                0 <= i < self.tokens@.len() && content_type_of(#[trigger] self.tokens@[i].0@)
                    == ContentType::Canonical,
    {
        let mut i: usize = 0;
        while i < self.tokens.len()
            invariant
                i <= self.tokens@.len(),
                forall|j: int|
                    0 <= j < i ==> content_type_of(#[trigger] self.tokens@[j].0@)
                        != ContentType::Canonical,
            decreases self.tokens@.len() - i,
        {
            if ContentType::from_key(self.tokens[i].0.as_str()).is_canonical() {
                return true;
            }
            i += 1;
        }
        false
    }

    /// Whether some token's key is a content part.
    pub fn has_content_parts(&self) -> (r: bool)
        ensures
            r == exists|i: int|
                0 <= i < self.tokens@.len() && is_part_type(
                    content_type_of(#[trigger] self.tokens@[i].0@),
                ),
    {
        let mut i: usize = 0;
        while i < self.tokens.len()
            invariant
                i <= self.tokens@.len(),
                forall|j: int|
                    0 <= j < i ==> !is_part_type(content_type_of(#[trigger] self.tokens@[j].0@)),
            decreases self.tokens@.len() - i,
        {
            if ContentType::from_key(self.tokens[i].0.as_str()).is_content_part() {
                return true;
            }
            i += 1;
        }
        false
    }

    /// The value of the first token whose key is canonical content.
    pub fn get_canonical(&self) -> (r: Option<&str>)
        ensures
            match r {
                Some(v) => exists|i: int|
                    0 <= i < self.tokens@.len() && content_type_of(#[trigger] self.tokens@[i].0@)
                        == ContentType::Canonical && self.tokens@[i].1@ == v@ && forall|j: int|
                        0 <= j < i ==> content_type_of(#[trigger] self.tokens@[j].0@)
                            != ContentType::Canonical,
                None => forall|i: int|
                    0 <= i < self.tokens@.len() ==> content_type_of(#[trigger] self.tokens@[i].0@)
                        != ContentType::Canonical,
            },
    {
        let mut i: usize = 0;
        while i < self.tokens.len()
            invariant
                i <= self.tokens@.len(),
                forall|j: int|
                    0 <= j < i ==> content_type_of(#[trigger] self.tokens@[j].0@)
                        != ContentType::Canonical,
            decreases self.tokens@.len() - i,
        {
            if ContentType::from_key(self.tokens[i].0.as_str()).is_canonical() {
                return Some(self.tokens[i].1.as_str());
            }
            i += 1;
        }
        None
    }

    /// The export as displayed: its text or JSON form, as its format says.
    pub fn to_string(&self) -> (r: String)
        ensures
            r@ == (match self.format {
                ExportFormat::Text => export_text(*self),
                ExportFormat::Json => export_json(*self),
            }),
    {
        match self.format {
            ExportFormat::Text => self.to_text(),
            ExportFormat::Json => match self.to_json() {
                Ok(s) => s,
                Err(e) => e,
            },
        }
    }
}

/// What reading the text form gathers: context, namespace, checksum,
/// timestamp and tokens.
pub type TextState = (Seq<char>, Seq<char>, Seq<char>, u64, Seq<(Seq<char>, Seq<char>)>);

/// One line of the text form read into what was gathered before it.
pub open spec fn text_line_step(st: Result<TextState, Seq<char>>, raw: Seq<char>) -> Result<
    TextState,
    Seq<char>,
> {
    match st {
        Err(e) => Err(e),
        Ok(s) => {
            let line = trim(raw);
            if line.len() == 0 {
                Ok(s)
            } else if "# Context:"@.is_prefix_of(line) {
                Ok((trim(line.skip(10)), s.1, s.2, s.3, s.4))
            } else if "# Namespace:"@.is_prefix_of(line) {
                Ok((s.0, trim(line.skip(12)), s.2, s.3, s.4))
            } else if "# Checksum:"@.is_prefix_of(line) {
                Ok((s.0, s.1, trim(line.skip(11)), s.3, s.4))
            } else if "# Timestamp:"@.is_prefix_of(line) {
                let ts = trim(line.skip(12));
                match parse_u64_spec(ts) {
                    Some(v) => Ok((s.0, s.1, s.2, v, s.4)),
                    None => Err("Invalid timestamp: "@ + ts),
                }
            } else if line[0] == '#' {
                Ok(s)
            } else {
                match first_occurrence(line, seq!['=']) {
                    Some(eq) => Ok((s.0, s.1, s.2, s.3, s.4.push((line.take(eq), line.skip(eq + 1))))),
                    None => Ok(s),
                }
            }
        },
    }
}

/// What the first `n` lines gather.
pub open spec fn text_lines_upto(lines: Seq<Seq<char>>, n: int) -> Result<TextState, Seq<char>>
    decreases n,
{
    if n <= 0 {
        Ok((Seq::empty(), Seq::empty(), Seq::empty(), 0u64, Seq::empty()))
    } else {
        text_line_step(text_lines_upto(lines, n - 1), lines[n - 1])
    }
}

/// What `ExportData::from_text` gives.
pub open spec fn from_text_spec(text: Seq<char>) -> Result<TextState, Seq<char>> {
    let lines = split_on(text, '\n');
    match text_lines_upto(lines, lines.len() as int) {
        Err(e) => Err(e),
        Ok(s) => if s.0.len() == 0 || s.1.len() == 0 {
            Err("Missing context or namespace in export data"@)
        } else {
            Ok(s)
        },
    }
}

pub proof fn lemma_text_error_stays(lines: Seq<Seq<char>>, i: int, n: int)
    requires
        1 <= i <= n,
        text_lines_upto(lines, i) is Err,
    ensures
        text_lines_upto(lines, n) == text_lines_upto(lines, i),
    decreases n - i,
{
    if i < n {
        lemma_text_error_stays(lines, i, n - 1);
    }
}

/// The part of `s` after its first `k` chars, trimmed.
fn rest_trimmed(s: &str, k: usize) -> (r: &str)
    requires
        k <= s@.len(),
    ensures
        r@ == trim(s@.skip(k as int)),
{
    let n = s.unicode_len();
    let rest = s.substring_char(k, n);
    assert(rest@ =~= s@.skip(k as int));
    trim_str(rest)
}

/// The JSON string value of a field: what follows `"field": "` up to the
/// next quote, unescaped.
pub open spec fn unescape_json_spec(s: Seq<char>) -> Seq<char> {
    replace_spec(
        replace_spec(
            replace_spec(
                replace_spec(replace_spec(s, "\\n"@, "\n"@), "\\r"@, "\r"@),
                "\\t"@,
                "\t"@,
            ),
            "\\\""@,
            "\""@,
        ),
        "\\\\"@,
        "\\"@,
    )
}

/// What `extract_json_string` gives for a field.
pub open spec fn json_string_field(json: Seq<char>, field: Seq<char>) -> Result<Seq<char>, Seq<char>> {
    let pattern = "\""@ + field + "\": \""@;
    match first_occurrence(json, pattern) {
        None => Err("Missing field: "@ + field),
        Some(start) => {
            let section = json.skip(start + pattern.len());
            match first_occurrence(section, seq!['"']) {
                None => Err("Malformed field: "@ + field),
                Some(end) => Ok(unescape_json_spec(section.take(end))),
            }
        },
    }
}

/// The length of the run of ASCII digits that `s` starts with.
pub open spec fn digit_run(s: Seq<char>) -> nat
    decreases s.len(),
{
    if s.len() == 0 || !is_digit(s[0]) {
        0
    } else {
        1 + digit_run(s.drop_first())
    }
}

/// What `extract_json_number` gives for a field.
pub open spec fn json_number_field(json: Seq<char>, field: Seq<char>) -> Result<u64, Seq<char>> {
    let pattern = "\""@ + field + "\": "@;
    match first_occurrence(json, pattern) {
        None => Err("Missing field: "@ + field),
        Some(start) => {
            let section = json.skip(start + pattern.len());
            match parse_u64_spec(section.take(digit_run(section) as int)) {
                Some(v) => Ok(v),
                None => Err("Invalid number for field: "@ + field),
            }
        },
    }
}

/// The last position of `c` in `s`.
pub open spec fn last_pos(s: Seq<char>, c: char) -> Option<int>
    decreases s.len(),
{
    if s.len() == 0 {
        None
    } else if s.last() == c {
        Some(s.len() - 1)
    } else {
        last_pos(s.drop_last(), c)
    }
}

pub proof fn lemma_last_pos(s: Seq<char>, c: char, i: int)
    requires
        0 <= i < s.len(),
        s[i] == c,
        forall|j: int| i < j < s.len() ==> s[j] != c,
    ensures
        last_pos(s, c) == Some(i),
    decreases s.len(),
{
    if i < s.len() - 1 {
        lemma_last_pos(s.drop_last(), c, i);
    }
}

pub proof fn lemma_last_pos_none(s: Seq<char>, c: char)
    requires
        !s.contains(c),
    ensures
        last_pos(s, c) is None,
    decreases s.len(),
{
    if s.len() > 0 {
        assert(s.last() == s[s.len() - 1]);
        assert(!s.drop_last().contains(c)) by {
            if s.drop_last().contains(c) {
                let k = choose|k: int| 0 <= k < s.drop_last().len() && s.drop_last()[k] == c;
                assert(s[k] == c);
            }
        }
        lemma_last_pos_none(s.drop_last(), c);
    }
}

/// The positions that cut out the tokens array: after the first `[` and
/// before the last `]` that follow `"tokens"`.
pub open spec fn tokens_bounds(json: Seq<char>) -> Result<(int, int, Seq<char>), Seq<char>> {
    match first_occurrence(json, "\"tokens\""@) {
        None => Err("Missing 'tokens' field"@),
        Some(ts) => {
            let sec = json.skip(ts);
            match first_occurrence(sec, seq!['[']) {
                None => Err("Invalid tokens array"@),
                Some(a) => match last_pos(sec, ']') {
                    None => Err("Invalid tokens array"@),
                    Some(b) => Ok((a + 1, b, sec)),
                },
            }
        },
    }
}

/// The tokens array can be cut out: its closing bracket does not come
/// before its opening one.
pub open spec fn tokens_array_ok(json: Seq<char>) -> bool {
    match tokens_bounds(trim(json)) {
        Ok((a, b, _)) => a <= b,
        Err(_) => true,
    }
}

/// One object of the tokens array read into what was read before it.
pub open spec fn json_token_step(acc: Result<Seq<(Seq<char>, Seq<char>)>, Seq<char>>, piece: Seq<char>) -> Result<
    Seq<(Seq<char>, Seq<char>)>,
    Seq<char>,
> {
    match acc {
        Err(e) => Err(e),
        Ok(v) => {
            let obj = trim(piece);
            if obj.len() == 0 {
                Ok(v)
            } else {
                match json_string_field(obj, "key"@) {
                    Err(e) => Err(e),
                    Ok(k) => match json_string_field(obj, "value"@) {
                        Err(e) => Err(e),
                        Ok(val) => Ok(v.push((k, val))),
                    },
                }
            }
        },
    }
}

/// The tokens of the first `n` objects.
pub open spec fn json_objects_upto(pieces: Seq<Seq<char>>, n: int) -> Result<
    Seq<(Seq<char>, Seq<char>)>,
    Seq<char>,
>
    decreases n,
{
    if n <= 0 {
        Ok(Seq::empty())
    } else {
        json_token_step(json_objects_upto(pieces, n - 1), pieces[n - 1])
    }
}

pub proof fn lemma_json_error_stays(pieces: Seq<Seq<char>>, i: int, n: int)
    requires
        1 <= i <= n,
        json_objects_upto(pieces, i) is Err,
    ensures
        json_objects_upto(pieces, n) == json_objects_upto(pieces, i),
    decreases n - i,
{
    if i < n {
        lemma_json_error_stays(pieces, i, n - 1);
    }
}

/// What reading the JSON form gathers: context, namespace, tokens,
/// checksum, timestamp and token count.
pub type JsonState = (Seq<char>, Seq<char>, Seq<(Seq<char>, Seq<char>)>, Seq<char>, u64, u64);

/// What reading the JSON form gives once the tokens array has been read.
pub open spec fn json_rest(
    json: Seq<char>,
    ctx: Seq<char>,
    ns: Seq<char>,
    objects: Result<Seq<(Seq<char>, Seq<char>)>, Seq<char>>,
) -> Result<JsonState, Seq<char>> {
    match objects {
        Err(e) => Err(e),
        Ok(toks) => match json_string_field(json, "checksum"@) {
            Err(e) => Err(e),
            Ok(cs) => match json_number_field(json, "timestamp"@) {
                Err(e) => Err(e),
                Ok(ts) => match json_number_field(json, "token_count"@) {
                    Err(e) => Err(e),
                    Ok(tc) => Ok((ctx, ns, toks, cs, ts, tc)),
                },
            },
        },
    }
}

/// What `ExportData::from_json` gives.
pub open spec fn from_json_spec(json0: Seq<char>) -> Result<JsonState, Seq<char>> {
    let json = trim(json0);
    match json_string_field(json, "context"@) {
        Err(e) => Err(e),
        Ok(ctx) => match json_string_field(json, "namespace"@) {
            Err(e) => Err(e),
            Ok(ns) => match tokens_bounds(json) {
                Err(e) => Err(e),
                Ok((a, b, sec)) => {
                    let pieces = split_str(sec.subrange(a, b), "},"@);
                    json_rest(json, ctx, ns, json_objects_upto(pieces, pieces.len() as int))
                },
            },
        },
    }
}

impl ExportData {
    /// Read the text form: header lines `# Context:`, `# Namespace:`,
    /// `# Checksum:`, `# Timestamp:`, other comments skipped, and
    /// `key=value` lines.
    pub fn from_text(text: &str) -> (r: Result<Self, String>)
        ensures
            match from_text_spec(text@) {
                Ok(s) => r matches Ok(d) && d.context@ == s.0 && d.namespace@ == s.1
                    && d.metadata.checksum@ == s.2 && d.metadata.timestamp == s.3 && pairs_view(
                    d.tokens@,
                ) == s.4 && d.metadata.token_count == s.4.len() && d.format == ExportFormat::Text,
                Err(m) => r matches Err(e) && e@ == m,
            },
    {
        let lines = split_char(text, '\n');
        let ghost lv = split_on(text@, '\n');
        let mut context = String::new();
        let mut namespace = String::new();
        let mut checksum = String::new();
        let mut timestamp: u64 = 0;
        let mut tokens: Vec<(String, String)> = Vec::new();
        let mut i: usize = 0;
        assert(pairs_view(tokens@) =~= Seq::empty());
        while i < lines.len()
            invariant
                i <= lines@.len(),
                lv == split_on(text@, '\n'),
                lines@.map_values(|p: &str| p@) == lv,
                text_lines_upto(lv, i as int) == Ok::<TextState, Seq<char>>(
                    (context@, namespace@, checksum@, timestamp, pairs_view(tokens@)),
                ),
            decreases lines@.len() - i,
        {
            let line = trim_str(lines[i]);
            assert(lv[i as int] == lines@[i as int]@);
            proof {
                reveal_strlit("# Context:");
                reveal_strlit("# Namespace:");
                reveal_strlit("# Checksum:");
                reveal_strlit("# Timestamp:");
            }
            if line.unicode_len() == 0 {
            } else if starts_with(line, "# Context:") {
                context = owned(rest_trimmed(line, 10));
            } else if starts_with(line, "# Namespace:") {
                namespace = owned(rest_trimmed(line, 12));
            } else if starts_with(line, "# Checksum:") {
                checksum = owned(rest_trimmed(line, 11));
            } else if starts_with(line, "# Timestamp:") {
                let ts = rest_trimmed(line, 12);
                match parse_u64_text(ts) {
                    Some(v) => {
                        timestamp = v;
                    },
                    None => {
                        let mut m = owned("Invalid timestamp: ");
                        append(&mut m, ts);
                        proof {
                            lemma_text_error_stays(lv, i + 1, lv.len() as int);
                        }
                        return Err(m);
                    },
                }
            } else if line.get_char(0) == '#' {
            } else {
                match find_char(line, '=') {
                    Some(eq) => {
                        let n = line.unicode_len();
                        let k = line.substring_char(0, eq);
                        let v = line.substring_char(eq + 1, n);
                        assert(k@ =~= line@.take(eq as int));
                        assert(v@ =~= line@.skip(eq + 1));
                        let ghost before = pairs_view(tokens@);
                        tokens.push((owned(k), owned(v)));
                        assert(pairs_view(tokens@) =~= before.push((k@, v@)));
                    },
                    None => {},
                }
            }
            i += 1;
        }
        if context.unicode_len() == 0 || namespace.unicode_len() == 0 {
            return Err(owned("Missing context or namespace in export data"));
        }
        let n = tokens.len();
        let metadata = ExportMetadata { checksum, timestamp, token_count: n };
        Ok(ExportData { context, namespace, tokens, metadata, format: ExportFormat::Text })
    }

    /// Read the JSON form that `to_json` writes.
    pub fn from_json(json: &str) -> (r: Result<Self, String>)
        requires
            json_string_field(trim(json@), "context"@) is Ok && json_string_field(
                trim(json@),
                "namespace"@,
            ) is Ok ==> tokens_array_ok(json@),
        ensures
            match from_json_spec(json@) {
                Ok(s) => r matches Ok(d) && d.context@ == s.0 && d.namespace@ == s.1 && pairs_view(
                    d.tokens@,
                ) == s.2 && d.metadata.checksum@ == s.3 && d.metadata.timestamp == s.4
                    && d.metadata.token_count == s.5 as usize && d.format == ExportFormat::Json,
                Err(m) => r matches Err(e) && e@ == m,
            },
    {
        let jt = trim_str(json);
        let context = Self::extract_json_string(jt, "context")?;
        let namespace = Self::extract_json_string(jt, "namespace")?;
        let ts = match find_str(jt, "\"tokens\"") {
            Some(p) => p,
            None => {
                return Err(owned("Missing 'tokens' field"));
            },
        };
        let jn = jt.unicode_len();
        proof {
            crate::text::lemma_first_occurrence_from(jt@, "\"tokens\""@, 0);
        }
        let section = jt.substring_char(ts, jn);
        assert(section@ =~= jt@.skip(ts as int));
        let a = match find_char(section, '[') {
            Some(p) => p,
            None => {
                return Err(owned("Invalid tokens array"));
            },
        };
        let b = match rfind_char(section, ']') {
            Some(p) => p,
            None => {
                proof {
                    lemma_last_pos_none(section@, ']');
                }
                return Err(owned("Invalid tokens array"));
            },
        };
        proof {
            lemma_last_pos(section@, ']', b as int);
            crate::text::lemma_first_occurrence_from(section@, seq!['['], 0);
        }
        let array = section.substring_char(a + 1, b);
        proof {
            reveal_strlit("},");
        }
        let pieces = crate::text::split_str_exec(array, "},");
        let ghost pv = split_str(array@, "},"@);
        assert(tokens_bounds(jt@) == Ok::<(int, int, Seq<char>), Seq<char>>(
            ((a + 1) as int, b as int, section@),
        ));
        let mut tokens: Vec<(String, String)> = Vec::new();
        let mut i: usize = 0;
        assert(pairs_view(tokens@) =~= Seq::empty());
        while i < pieces.len()
            invariant
                i <= pieces@.len(),
                pieces@.map_values(|p: &str| p@) == pv,
                from_json_spec(json@) == json_rest(
                    jt@,
                    context@,
                    namespace@,
                    json_objects_upto(pv, pv.len() as int),
                ),
                json_objects_upto(pv, i as int) == Ok::<Seq<(Seq<char>, Seq<char>)>, Seq<char>>(
                    pairs_view(tokens@),
                ),
            decreases pieces@.len() - i,
        {
            let obj = trim_str(pieces[i]);
            assert(pv[i as int] == pieces@[i as int]@);
            if obj.unicode_len() > 0 {
                let k = match Self::extract_json_string(obj, "key") {
                    Ok(k) => k,
                    Err(e) => {
                        proof {
                            lemma_json_error_stays(pv, i + 1, pv.len() as int);
                        }
                        return Err(e);
                    },
                };
                let v = match Self::extract_json_string(obj, "value") {
                    Ok(v) => v,
                    Err(e) => {
                        proof {
                            lemma_json_error_stays(pv, i + 1, pv.len() as int);
                        }
                        return Err(e);
                    },
                };
                let ghost before = pairs_view(tokens@);
                let ghost e = (k@, v@);
                tokens.push((k, v));
                assert(pairs_view(tokens@) =~= before.push(e));
            }
            i += 1;
        }
        let checksum = Self::extract_json_string(jt, "checksum")?;
        let timestamp = Self::extract_json_number(jt, "timestamp")?;
        let token_count = Self::extract_json_number(jt, "token_count")?;
        let metadata = ExportMetadata { checksum, timestamp, token_count: token_count as usize };
        Ok(ExportData { context, namespace, tokens, metadata, format: ExportFormat::Json })
    }

    fn extract_json_string(json: &str, field: &str) -> (r: Result<String, String>)
        ensures
            match json_string_field(json@, field@) {
                Ok(v) => r matches Ok(s) && s@ == v,
                Err(m) => r matches Err(e) && e@ == m,
            },
    {
        let mut pattern = owned("\"");
        append(&mut pattern, field);
        append(&mut pattern, "\": \"");
        let start = match find_str(json, pattern.as_str()) {
            Some(p) => p,
            None => {
                let mut m = owned("Missing field: ");
                append(&mut m, field);
                return Err(m);
            },
        };
        proof {
            crate::text::lemma_first_occurrence_from(json@, pattern@, 0);
        }
        let n = json.unicode_len();
        let m = pattern.unicode_len();
        let section = json.substring_char(start + m, n);
        assert(section@ =~= json@.skip(start + pattern@.len()));
        let end = match find_char(section, '"') {
            Some(p) => p,
            None => {
                let mut msg = owned("Malformed field: ");
                append(&mut msg, field);
                return Err(msg);
            },
        };
        let raw = section.substring_char(0, end);
        assert(raw@ =~= section@.take(end as int));
        Ok(Self::unescape_json(raw))
    }

    fn extract_json_number(json: &str, field: &str) -> (r: Result<u64, String>)
        ensures
            match json_number_field(json@, field@) {
                Ok(v) => r == Ok::<u64, String>(v),
                Err(m) => r matches Err(e) && e@ == m,
            },
    {
        let mut pattern = owned("\"");
        append(&mut pattern, field);
        append(&mut pattern, "\": ");
        let start = match find_str(json, pattern.as_str()) {
            Some(p) => p,
            None => {
                let mut m = owned("Missing field: ");
                append(&mut m, field);
                return Err(m);
            },
        };
        proof {
            crate::text::lemma_first_occurrence_from(json@, pattern@, 0);
        }
        let n = json.unicode_len();
        let m = pattern.unicode_len();
        let section = json.substring_char(start + m, n);
        assert(section@ =~= json@.skip(start + pattern@.len()));
        let sn = section.unicode_len();
        let mut end: usize = 0;
        assert(section@.skip(0) =~= section@);
        while end < sn && is_ascii_digit(section.get_char(end))
            invariant
                end <= sn,
                sn == section@.len(),
                digit_run(section@) == end + digit_run(section@.skip(end as int)),
            decreases sn - end,
        {
            assert(section@.skip(end as int).drop_first() =~= section@.skip(end + 1));
            end += 1;
        }
        proof {
            if end < sn {
                assert(section@.skip(end as int)[0] == section@[end as int]);
            } else {
                assert(section@.skip(end as int).len() == 0);
            }
        }
        let digits = section.substring_char(0, end);
        assert(digits@ =~= section@.take(end as int));
        match parse_u64_text(digits) {
            Some(v) => Ok(v),
            None => {
                let mut msg = owned("Invalid number for field: ");
                append(&mut msg, field);
                Err(msg)
            },
        }
    }

    fn unescape_json(s: &str) -> (r: String)
        ensures
            r@ == unescape_json_spec(s@),
    {
        proof {
            reveal_strlit("\\n");
            reveal_strlit("\\r");
            reveal_strlit("\\t");
            reveal_strlit("\\\"");
            reveal_strlit("\\\\");
        }
        let a = replace_all(s, "\\n", "\n");
        let b = replace_all(a.as_str(), "\\r", "\r");
        let c = replace_all(b.as_str(), "\\t", "\t");
        let d = replace_all(c.as_str(), "\\\"", "\"");
        replace_all(d.as_str(), "\\\\", "\\")
    }
}

fn is_ascii_digit(c: char) -> (r: bool)
    ensures
        r == is_digit(c),
{
    '0' <= c && c <= '9'
}

/// One change that an import made or found.
#[derive(Debug)]
pub enum ImportDiff {
    /// A new key
    Added { key: String, value: String },
    /// A key whose value changed
    Updated { key: String, old_value: String, new_value: String },
    /// A key whose value was already the same
    Unchanged { key: String },
}

/// The display of one change.
pub open spec fn diff_text(d: ImportDiff) -> Seq<char> {
    match d {
        ImportDiff::Added { key, value } => "+ "@ + key@ + ": "@ + value@,
        ImportDiff::Updated { key, old_value, new_value } => "~ "@ + key@ + ": "@ + old_value@
            + " \u{2192} "@ + new_value@,
        ImportDiff::Unchanged { key } => "  "@ + key@,
    }
}

impl ImportDiff {
    /// The change as displayed: `+ key: value`, `~ key: old → new`, or
    /// `  key`.
    pub fn to_string(&self) -> (r: String)
        ensures
            r@ == diff_text(*self),
    {
        match self {
            ImportDiff::Added { key, value } => {
                let mut s = owned("+ ");
                append(&mut s, key.as_str());
                append(&mut s, ": ");
                append(&mut s, value.as_str());
                s
            },
            ImportDiff::Updated { key, old_value, new_value } => {
                let mut s = owned("~ ");
                append(&mut s, key.as_str());
                append(&mut s, ": ");
                append(&mut s, old_value.as_str());
                append(&mut s, " \u{2192} ");
                append(&mut s, new_value.as_str());
                s
            },
            ImportDiff::Unchanged { key } => {
                let mut s = owned("  ");
                append(&mut s, key.as_str());
                s
            },
        }
    }
}

/// The outcome of an import.
#[derive(Debug)]
pub struct ImportResult {
    pub success: bool,
    pub tokens_added: usize,
    pub tokens_updated: usize,
    pub tokens_unchanged: usize,
    pub diff: Vec<ImportDiff>,
    pub checksum_valid: bool,
}

impl ImportResult {
    /// An empty, not yet successful result.
    pub fn new() -> (r: Self)
        ensures
            !r.success,
            r.tokens_added == 0,
            r.tokens_updated == 0,
            r.tokens_unchanged == 0,
            r.diff@.len() == 0,
            !r.checksum_valid,
    {
        ImportResult {
            success: false,
            tokens_added: 0,
            tokens_updated: 0,
            tokens_unchanged: 0,
            diff: Vec::new(),
            checksum_valid: false,
        }
    }

    /// Added plus updated tokens.
    pub fn total_changes(&self) -> (r: usize)
        requires
            self.tokens_added + self.tokens_updated <= usize::MAX,
        ensures
            r == self.tokens_added + self.tokens_updated,
    {
        self.tokens_added + self.tokens_updated
    }

    /// The result as displayed: its flags and counts, one per line, then
    /// each change of the diff where there is one.
    pub fn to_string(&self) -> (r: String)
        requires
            self.tokens_added + self.tokens_updated <= usize::MAX,
        ensures
            r@ == import_result_text(*self),
    {
        let mut s = owned("Import Result:\n");
        append(&mut s, "  Success: ");
        append(&mut s, bool_word(self.success));
        append(&mut s, "\n  Checksum Valid: ");
        append(&mut s, bool_word(self.checksum_valid));
        append(&mut s, "\n  Added: ");
        append(&mut s, decimal_string(self.tokens_added as u64).as_str());
        append(&mut s, "\n  Updated: ");
        append(&mut s, decimal_string(self.tokens_updated as u64).as_str());
        append(&mut s, "\n  Unchanged: ");
        append(&mut s, decimal_string(self.tokens_unchanged as u64).as_str());
        append(&mut s, "\n  Total Changes: ");
        append(&mut s, decimal_string(self.total_changes() as u64).as_str());
        push_char(&mut s, '\n');
        let ghost head = s@;
        if self.diff.len() > 0 {
            append(&mut s, "\nDiff:\n");
            let ghost start = s@;
            let mut i: usize = 0;
            while i < self.diff.len()
                invariant
                    i <= self.diff@.len(),
                    s@ == start + diff_lines(self.diff@.take(i as int)),
                decreases self.diff@.len() - i,
            {
                append(&mut s, "  ");
                append(&mut s, self.diff[i].to_string().as_str());
                push_char(&mut s, '\n');
                assert(self.diff@.take(i + 1).drop_last() =~= self.diff@.take(i as int));
                assert(s@ =~= start + diff_lines(self.diff@.take(i + 1)));
                i += 1;
            }
            assert(self.diff@.take(i as int) =~= self.diff@);
        }
        assert(s@ =~= import_result_text(*self));
        s
    }
}

/// `true` or `false`.
pub open spec fn bool_text(b: bool) -> Seq<char> {
    if b {
        "true"@
    } else {
        "false"@
    }
}

fn bool_word(b: bool) -> (r: &'static str)
    ensures
        r@ == bool_text(b),
{
    if b {
        "true"
    } else {
        "false"
    }
}

/// Lines `  CHANGE`.
pub open spec fn diff_lines(ds: Seq<ImportDiff>) -> Seq<char>
    decreases ds.len(),
{
    if ds.len() == 0 {
        Seq::empty()
    } else {
        diff_lines(ds.drop_last()) + "  "@ + diff_text(ds.last()) + seq!['\n']
    }
}

/// An import result as displayed.
pub open spec fn import_result_text(r: ImportResult) -> Seq<char> {
    "Import Result:\n"@ + "  Success: "@ + bool_text(r.success) + "\n  Checksum Valid: "@ + bool_text(
        r.checksum_valid,
    ) + "\n  Added: "@ + decimal(r.tokens_added as nat) + "\n  Updated: "@ + decimal(
        r.tokens_updated as nat,
    ) + "\n  Unchanged: "@ + decimal(r.tokens_unchanged as nat) + "\n  Total Changes: "@ + decimal(
        (r.tokens_added + r.tokens_updated) as nat,
    ) + seq!['\n'] + (if r.diff@.len() > 0 {
        "\nDiff:\n"@ + diff_lines(r.diff@)
    } else {
        Seq::empty()
    })
}

impl Default for ImportResult {
    fn default() -> (r: Self)
        ensures
            !r.success,
            r.tokens_added == 0,
            r.tokens_updated == 0,
            r.tokens_unchanged == 0,
            r.diff@.len() == 0,
            !r.checksum_valid,
    {
        ImportResult::new()
    }
}


/// The lines of the text form of an export: the header, one `key=value`
/// line per token, and the empty piece after the last line break.
pub open spec fn header_lines(d: ExportData) -> Seq<Seq<char>> {
    seq![
        "# Meteor Export"@,
        "# Context: "@ + d.context@,
        "# Namespace: "@ + d.namespace@,
        "# Checksum: "@ + d.metadata.checksum@,
        "# Timestamp: "@ + decimal(d.metadata.timestamp as nat),
        "# Token Count: "@ + decimal(d.metadata.token_count as nat),
        Seq::<char>::empty(),
    ]
}

/// The `key=value` lines of tokens.
pub open spec fn token_line_list(toks: Seq<(Seq<char>, Seq<char>)>) -> Seq<Seq<char>> {
    toks.map_values(|t: (Seq<char>, Seq<char>)| t.0 + "="@ + t.1)
}

proof fn lemma_join_tokens(h: Seq<Seq<char>>, toks: Seq<(Seq<char>, Seq<char>)>)
    requires
        h.len() >= 1,
    ensures
        crate::text::join((h + token_line_list(toks)).push(Seq::empty()), seq!['\n']) == crate::text::join(
            h,
            seq!['\n'],
        ) + seq!['\n'] + token_lines(toks),
    decreases toks.len(),
{
    reveal_strlit("\n");
    let nl = seq!['\n'];
    let x = h + token_line_list(toks);
    assert(x.push(Seq::<char>::empty()).drop_last() =~= x);
    if toks.len() == 0 {
        assert(x =~= h);
        assert(token_lines(toks) =~= Seq::<char>::empty());
        assert(crate::text::join(x.push(Seq::<char>::empty()), nl) =~= crate::text::join(h, nl) + nl);
    } else {
        let prev = toks.drop_last();
        lemma_join_tokens(h, prev);
        let y = h + token_line_list(prev);
        assert(y.push(Seq::<char>::empty()).drop_last() =~= y);
        let t = toks.last();
        assert(x =~= y.push(t.0 + "="@ + t.1));
        assert(x.drop_last() =~= y);
        assert(crate::text::join(x, nl) == crate::text::join(y, nl) + nl + (t.0 + "="@ + t.1));
        assert("\n"@ =~= nl);
        assert(crate::text::join(x.push(Seq::<char>::empty()), nl) =~= crate::text::join(h, nl) + nl
            + token_lines(toks));
    }
}

/// The lines of the text form of an export.
pub open spec fn export_lines(d: ExportData) -> Seq<Seq<char>> {
    (header_lines(d) + token_line_list(pairs_view(d.tokens@))).push(Seq::empty())
}

#[verifier::spinoff_prover]
#[verifier::rlimit(60)]
proof fn lemma_export_join(d: ExportData)
    ensures
        crate::text::join(export_lines(d), seq!['\n']) == export_text(d),
{
    reveal_strlit("\n");
    reveal_strlit("# Meteor Export");
    reveal_strlit("# Context: ");
    reveal_strlit("# Namespace: ");
    reveal_strlit("# Checksum: ");
    reveal_strlit("# Timestamp: ");
    reveal_strlit("# Token Count: ");
    reveal_strlit("# Meteor Export\n# Context: ");
    reveal_strlit("\n# Namespace: ");
    reveal_strlit("\n# Checksum: ");
    reveal_strlit("\n# Timestamp: ");
    reveal_strlit("\n# Token Count: ");
    reveal_strlit("\n\n");
    let h = header_lines(d);
    lemma_join_tokens(h, pairs_view(d.tokens@));
    reveal_with_fuel(crate::text::join, 8);
    let nl = seq!['\n'];
    assert(h.drop_last().drop_last().drop_last().drop_last().drop_last().drop_last() =~= seq![
        "# Meteor Export"@,
    ]);
    assert(crate::text::join(h, nl) + nl =~= "# Meteor Export\n# Context: "@ + d.context@
        + "\n# Namespace: "@ + d.namespace@ + "\n# Checksum: "@ + d.metadata.checksum@
        + "\n# Timestamp: "@ + decimal(d.metadata.timestamp as nat) + "\n# Token Count: "@ + decimal(
        d.metadata.token_count as nat,
    ) + "\n\n"@);
}


proof fn lemma_free_concat(a: Seq<char>, b: Seq<char>, x: char)
    requires
        !a.contains(x),
        !b.contains(x),
    ensures
        !(a + b).contains(x),
{
    if (a + b).contains(x) {
        let i = choose|i: int| 0 <= i < (a + b).len() && (a + b)[i] == x;
        if i < a.len() {
            assert(a[i] == x);
        } else {
            assert(b[i - a.len()] == x);
        }
    }
}

proof fn lemma_digits_free(n: nat, x: char)
    requires
        !is_digit(x),
    ensures
        !decimal(n).contains(x),
        decimal(n).len() > 0,
        !crate::text::is_ws(decimal(n)[0]),
        !crate::text::is_ws(decimal(n).last()),
{
    crate::text::lemma_decimal_digits(n);
    if decimal(n).contains(x) {
        let i = choose|i: int| 0 <= i < decimal(n).len() && decimal(n)[i] == x;
        assert(is_digit(decimal(n)[i]));
    }
    assert(is_digit(decimal(n)[0]));
    assert(is_digit(decimal(n)[decimal(n).len() - 1]));
}

/// A text whose ends are not whitespace is its own trim.
proof fn lemma_trim_fixed(s: Seq<char>)
    requires
        s.len() > 0,
        !crate::text::is_ws(s[0]),
        !crate::text::is_ws(s.last()),
    ensures
        trim(s) == s,
{
    crate::text::lemma_trim_start_skip(s, 0);
    assert(s.skip(0) =~= s);
    crate::text::lemma_trim_end_take(s, s.len() as int);
    assert(s.take(s.len() as int) =~= s);
}

/// A header line `LABEL VALUE` (the label ending in a space) is its own
/// trim, and what follows the label's last non-space char, trimmed, is the
/// value.
proof fn lemma_field_line(label: Seq<char>, v: Seq<char>)
    requires
        label.len() >= 2,
        label.last() == ' ',
        !crate::text::is_ws(label[0]),
        v.len() > 0,
        !crate::text::is_ws(v[0]),
        !crate::text::is_ws(v.last()),
    ensures
        trim(label + v) == label + v,
        trim((label + v).skip(label.len() - 1)) == v,
{
    let l = label + v;
    assert(l[0] == label[0]);
    assert(l.last() == v.last());
    lemma_trim_fixed(l);
    let r = l.skip(label.len() - 1);
    assert(r =~= seq![' '] + v);
    crate::text::lemma_trim_start_skip(r, 1);
    assert(r.skip(1) =~= v);
    lemma_trim_fixed(v);
    crate::text::lemma_trim_start_skip(v, 0);
    assert(v.skip(0) =~= v);
}

proof fn lemma_not_prefix(p: Seq<char>, s: Seq<char>, i: int)
    requires
        0 <= i < p.len(),
        i < s.len(),
        p[i] != s[i],
    ensures
        !p.is_prefix_of(s),
{
    if p.is_prefix_of(s) {
        assert(s.take(p.len() as int)[i] == s[i]);
    }
}

proof fn lemma_prefix_of(p: Seq<char>, v: Seq<char>)
    ensures
        p.is_prefix_of(p + v),
{
    assert((p + v).take(p.len() as int) =~= p);
}


/// A header value that the text form carries back: non-empty, on one line,
/// with no whitespace at its ends.
pub open spec fn field_ok(v: Seq<char>) -> bool {
    v.len() > 0 && !v.contains('\n') && !crate::text::is_ws(v[0]) && !crate::text::is_ws(v.last())
}

/// A token that the text form carries back: on one line, a key without `=`
/// that neither starts with whitespace nor with `#`, and a value that does
/// not end with whitespace.
pub open spec fn token_ok(t: (Seq<char>, Seq<char>)) -> bool {
    &&& !t.0.contains('\n')
    &&& !t.1.contains('\n')
    &&& !t.0.contains('=')
    &&& t.0.len() > 0 ==> !crate::text::is_ws(t.0[0]) && t.0[0] != '#'
    &&& t.1.len() > 0 ==> !crate::text::is_ws(t.1.last())
}

/// An export whose text form reads back as it.
pub open spec fn text_safe(d: ExportData) -> bool {
    &&& field_ok(d.context@)
    &&& field_ok(d.namespace@)
    &&& (d.metadata.checksum@.len() == 0 || field_ok(d.metadata.checksum@))
    &&& forall|i: int| 0 <= i < d.tokens@.len() ==> token_ok(#[trigger] pairs_view(d.tokens@)[i])
}

#[verifier::spinoff_prover]
#[verifier::rlimit(60)]
proof fn lemma_header_read(d: ExportData)
    requires
        text_safe(d),
    ensures
        text_lines_upto(export_lines(d), 7) == Ok::<TextState, Seq<char>>(
            (d.context@, d.namespace@, d.metadata.checksum@, d.metadata.timestamp, Seq::empty()),
        ),
{
    reveal_strlit("# Meteor Export");
    reveal_strlit("# Context: ");
    reveal_strlit("# Namespace: ");
    reveal_strlit("# Checksum: ");
    reveal_strlit("# Timestamp: ");
    reveal_strlit("# Token Count: ");
    reveal_strlit("# Context:");
    reveal_strlit("# Namespace:");
    reveal_strlit("# Checksum:");
    reveal_strlit("# Timestamp:");
    let l = export_lines(d);
    let c = d.context@;
    let n = d.namespace@;
    let ck = d.metadata.checksum@;
    let ts = d.metadata.timestamp;
    let init: TextState = (Seq::empty(), Seq::empty(), Seq::empty(), 0u64, Seq::empty());
    assert(l[0] == "# Meteor Export"@);
    assert(l[1] == "# Context: "@ + c);
    assert(l[2] == "# Namespace: "@ + n);
    assert(l[3] == "# Checksum: "@ + ck);
    assert(l[4] == "# Timestamp: "@ + decimal(ts as nat));
    assert(l[5] == "# Token Count: "@ + decimal(d.metadata.token_count as nat));
    assert(l[6] == Seq::<char>::empty());
    // line 0
    let l0 = "# Meteor Export"@;
    lemma_trim_fixed(l0);
    lemma_not_prefix("# Context:"@, l0, 2);
    lemma_not_prefix("# Namespace:"@, l0, 2);
    lemma_not_prefix("# Checksum:"@, l0, 2);
    lemma_not_prefix("# Timestamp:"@, l0, 2);
    assert(text_lines_upto(l, 0) == Ok::<TextState, Seq<char>>(init));
    assert(trim(l0) == l0);
    assert(l0.len() > 0);
    assert(l0[0] == '#');
    assert(text_line_step(Ok::<TextState, Seq<char>>(init), l0) == Ok::<TextState, Seq<char>>(init));
    assert(text_lines_upto(l, 1) == Ok::<TextState, Seq<char>>(init));
    // line 1
    lemma_field_line("# Context: "@, c);
    lemma_prefix_of("# Context:"@, seq![' '] + c);
    assert("# Context: "@ + c =~= "# Context:"@ + (seq![' '] + c));
    let s1: TextState = (c, Seq::empty(), Seq::empty(), 0u64, Seq::empty());
    assert(text_lines_upto(l, 2) == Ok::<TextState, Seq<char>>(s1));
    // line 2
    let l2 = "# Namespace: "@ + n;
    lemma_field_line("# Namespace: "@, n);
    lemma_not_prefix("# Context:"@, l2, 2);
    lemma_prefix_of("# Namespace:"@, seq![' '] + n);
    assert(l2 =~= "# Namespace:"@ + (seq![' '] + n));
    let s2: TextState = (c, n, Seq::empty(), 0u64, Seq::empty());
    assert(text_lines_upto(l, 3) == Ok::<TextState, Seq<char>>(s2));
    // line 3
    let l3 = "# Checksum: "@ + ck;
    if ck.len() > 0 {
        lemma_field_line("# Checksum: "@, ck);
        lemma_not_prefix("# Context:"@, l3, 3);
        lemma_not_prefix("# Namespace:"@, l3, 2);
        lemma_prefix_of("# Checksum:"@, seq![' '] + ck);
        assert(l3 =~= "# Checksum:"@ + (seq![' '] + ck));
    } else {
        let lab = "# Checksum:"@;
        assert(l3 =~= lab + seq![' ']);
        crate::text::lemma_trim_start_skip(l3, 0);
        assert(l3.skip(0) =~= l3);
        crate::text::lemma_trim_end_take(l3, lab.len() as int);
        assert(l3.take(lab.len() as int) =~= lab);
        assert(trim(l3) == lab);
        lemma_not_prefix("# Context:"@, lab, 3);
        lemma_not_prefix("# Namespace:"@, lab, 2);
        lemma_prefix_of(lab, Seq::<char>::empty());
        assert(lab + Seq::<char>::empty() =~= lab);
        assert(lab.skip(11) =~= Seq::<char>::empty());
        assert(trim(Seq::<char>::empty()) =~= Seq::<char>::empty());
        assert(ck =~= Seq::<char>::empty());
    }
    let s3: TextState = (c, n, ck, 0u64, Seq::empty());
    assert(text_lines_upto(l, 4) == Ok::<TextState, Seq<char>>(s3));
    // line 4
    let dt = decimal(ts as nat);
    lemma_digits_free(ts as nat, '\n');
    crate::text::lemma_decimal_parses(ts);
    let l4 = "# Timestamp: "@ + dt;
    lemma_field_line("# Timestamp: "@, dt);
    lemma_not_prefix("# Context:"@, l4, 2);
    lemma_not_prefix("# Namespace:"@, l4, 2);
    lemma_not_prefix("# Checksum:"@, l4, 2);
    lemma_prefix_of("# Timestamp:"@, seq![' '] + dt);
    assert(l4 =~= "# Timestamp:"@ + (seq![' '] + dt));
    let s4: TextState = (c, n, ck, ts, Seq::empty());
    assert(text_lines_upto(l, 5) == Ok::<TextState, Seq<char>>(s4));
    // line 5
    let dc = decimal(d.metadata.token_count as nat);
    lemma_digits_free(d.metadata.token_count as nat, '\n');
    let l5 = "# Token Count: "@ + dc;
    lemma_field_line("# Token Count: "@, dc);
    lemma_not_prefix("# Context:"@, l5, 2);
    lemma_not_prefix("# Namespace:"@, l5, 2);
    lemma_not_prefix("# Checksum:"@, l5, 2);
    lemma_not_prefix("# Timestamp:"@, l5, 3);
    assert(text_lines_upto(l, 6) == Ok::<TextState, Seq<char>>(s4));
    // line 6
    assert(trim(Seq::<char>::empty()) =~= Seq::<char>::empty());
    assert(text_lines_upto(l, 7) == Ok::<TextState, Seq<char>>(s4));
}


#[verifier::spinoff_prover]
proof fn lemma_token_read(d: ExportData, j: int)
    requires
        text_safe(d),
        0 <= j <= d.tokens@.len(),
    ensures
        text_lines_upto(export_lines(d), 7 + j) == Ok::<TextState, Seq<char>>(
            (
                d.context@,
                d.namespace@,
                d.metadata.checksum@,
                d.metadata.timestamp,
                pairs_view(d.tokens@).take(j),
            ),
        ),
    decreases j,
{
    let toks = pairs_view(d.tokens@);
    if j == 0 {
        lemma_header_read(d);
        assert(toks.take(0) =~= Seq::<(Seq<char>, Seq<char>)>::empty());
    } else {
        lemma_token_read(d, j - 1);
        reveal_strlit("=");
        reveal_strlit("# Context:");
        reveal_strlit("# Namespace:");
        reveal_strlit("# Checksum:");
        reveal_strlit("# Timestamp:");
        let t = toks[j - 1];
        assert(token_ok(t));
        let k = t.0;
        let v = t.1;
        let line = k + "="@ + v;
        assert(export_lines(d)[7 + j - 1] == line);
        assert(line.len() > 0);
        assert(line[k.len() as int] == '=');
        if k.len() > 0 {
            assert(line[0] == k[0]);
        } else {
            assert(line[0] == '=');
        }
        if v.len() > 0 {
            assert(line.last() == v.last());
        } else {
            assert(line.last() == '=');
        }
        lemma_trim_fixed(line);
        assert(line[0] != '#');
        lemma_not_prefix("# Context:"@, line, 0);
        lemma_not_prefix("# Namespace:"@, line, 0);
        lemma_not_prefix("# Checksum:"@, line, 0);
        lemma_not_prefix("# Timestamp:"@, line, 0);
        assert forall|i: int| 0 <= i < k.len() implies line[i] != '=' by {
            assert(line[i] == k[i]);
        }
        crate::text::lemma_first_char_occurrence(line, '=', k.len() as int);
        assert(line.take(k.len() as int) =~= k);
        assert(line.skip(k.len() as int + 1) =~= v);
        assert(toks.take(j) =~= toks.take(j - 1).push(t));
    }
}

/// The text form of an export reads back as it: its context, namespace,
/// checksum, timestamp and tokens, where the context and namespace are
/// non-empty, the header values are on one line and without whitespace at
/// their ends, and each token is on
/// one line with a key that holds no `=` and starts neither with whitespace
/// nor with `#`, and a value that does not end with whitespace.
pub proof fn law_text_round_trip(d: ExportData)
    requires
        text_safe(d),
    ensures
        from_text_spec(export_text(d)) == Ok::<TextState, Seq<char>>(
            (
                d.context@,
                d.namespace@,
                d.metadata.checksum@,
                d.metadata.timestamp,
                pairs_view(d.tokens@),
            ),
        ),
{
    reveal_strlit("# Meteor Export");
    reveal_strlit("# Context: ");
    reveal_strlit("# Namespace: ");
    reveal_strlit("# Checksum: ");
    reveal_strlit("# Timestamp: ");
    reveal_strlit("# Token Count: ");
    reveal_strlit("=");
    let l = export_lines(d);
    let toks = pairs_view(d.tokens@);
    let m = toks.len();
    lemma_export_join(d);
    lemma_digits_free(d.metadata.timestamp as nat, '\n');
    lemma_digits_free(d.metadata.token_count as nat, '\n');
    assert forall|i: int| 0 <= i < l.len() implies !(#[trigger] l[i]).contains('\n') by {
        if i == 0 {
            assert(!"# Meteor Export"@.contains('\n'));
        } else if i == 1 {
            assert(!"# Context: "@.contains('\n'));
            lemma_free_concat("# Context: "@, d.context@, '\n');
        } else if i == 2 {
            assert(!"# Namespace: "@.contains('\n'));
            lemma_free_concat("# Namespace: "@, d.namespace@, '\n');
        } else if i == 3 {
            assert(!"# Checksum: "@.contains('\n'));
            assert(!d.metadata.checksum@.contains('\n'));
            lemma_free_concat("# Checksum: "@, d.metadata.checksum@, '\n');
        } else if i == 4 {
            assert(!"# Timestamp: "@.contains('\n'));
            lemma_free_concat("# Timestamp: "@, decimal(d.metadata.timestamp as nat), '\n');
        } else if i == 5 {
            assert(!"# Token Count: "@.contains('\n'));
            lemma_free_concat("# Token Count: "@, decimal(d.metadata.token_count as nat), '\n');
        } else if i == 6 {
            assert(l[i] == Seq::<char>::empty());
        } else if i < 7 + m {
            let t = toks[i - 7];
            assert(token_ok(t));
            assert(l[i] == t.0 + "="@ + t.1);
            assert(!"="@.contains('\n'));
            lemma_free_concat(t.0, "="@, '\n');
            lemma_free_concat(t.0 + "="@, t.1, '\n');
        } else {
            assert(l[i] == Seq::<char>::empty());
        }
    }
    crate::text::lemma_split_join(l, '\n');
    lemma_token_read(d, m as int);
    assert(toks.take(m as int) =~= toks);
    assert(l[7 + m as int] == Seq::<char>::empty());
    assert(trim(Seq::<char>::empty()) =~= Seq::<char>::empty());
    assert(l.len() == 8 + m);
}

} // verus!
