//! Semantic-search chunks: what is embedded for each transcript message.

use vstd::prelude::*;

use crate::config::model::opt_view;
use crate::text::{append_chars, append_str, chars_of, dec, push_dec, is_ws, normalize_whitespace, squeeze_state, squeeze_ws, str_chars, string_of};

verus! {

/// The length of the embedding vectors stored for chunks.
pub const EMBEDDING_DIM: usize = 1536;

/// A transcript message to be chunked.
#[derive(Debug)]
pub struct RagSourceMessage {
    pub session_id: String,
    pub source_event_id: i64,
    pub ts_ms: i64,
    pub tool_name: Option<String>,
    pub kind: String,
    pub text: String,
}

/// A chunk ready to be embedded.
#[derive(Debug)]
pub struct IndexableChunk {
    pub chunk_id: i64,
    pub session_id: String,
    pub ts_ms: i64,
    pub tool_name: Option<String>,
    pub kind: String,
    pub text: String,
    pub embedding_text: String,
    pub content_hash: String,
    pub source_event_id: i64,
}

/// What to (re)index.
#[derive(Debug)]
pub struct RagIndexOptions {
    pub session_id: Option<String>,
    pub since_ts_ms: Option<i64>,
    pub reindex: bool,
    pub batch_size: usize,
}

/// What an indexing pass did.
#[derive(Debug, Clone, Copy)]
pub struct RagIndexReport {
    pub scanned: usize,
    pub embedded: usize,
    pub skipped: usize,
    pub deleted: usize,
}

/// Restrictions on a semantic search.
#[derive(Debug)]
pub struct RagSearchFilters {
    pub session_id: Option<String>,
    pub tool_name: Option<String>,
    pub since_ts_ms: Option<i64>,
    pub until_ts_ms: Option<i64>,
}

// ---------------------------------------------------------------------------
// Hashing
// ---------------------------------------------------------------------------

/// The BLAKE3 digest of the bytes.
pub uninterp spec fn blake3_of(data: Seq<u8>) -> Seq<u8>;

/// Calls `blake3::hash` and copies out the digest, which the crate documents to
/// be `OUT_LEN` (32) bytes long.
#[verifier::external_body]
fn blake3_hash(data: &[u8]) -> (r: Vec<u8>)
    ensures
        r@ == blake3_of(data@),
        r@.len() == 32,
{
    blake3::hash(data).as_bytes().to_vec()
}

/// The UTF-8 encoding of one character.
pub open spec fn utf8_char(c: char) -> Seq<u8> {
    let u = c as u32;
    if u < 0x80 {
        seq![u as u8]
    } else if u < 0x800 {
        seq![(0xC0u32 | (u >> 6u32)) as u8, (0x80u32 | (u & 0x3Fu32)) as u8]
    } else if u < 0x10000 {
        seq![(0xE0u32 | (u >> 12u32)) as u8, (0x80u32 | ((u >> 6u32) & 0x3Fu32)) as u8, (0x80u32 | (u & 0x3Fu32)) as u8]
    } else {
        seq![
            (0xF0u32 | (u >> 18u32)) as u8, (0x80u32 | ((u >> 12u32) & 0x3Fu32)) as u8,
            (0x80u32 | ((u >> 6u32) & 0x3Fu32)) as u8, (0x80u32 | (u & 0x3Fu32)) as u8,
        ]
    }
}

/// The UTF-8 encoding of the text (`str::as_bytes`).
pub open spec fn utf8_of(s: Seq<char>) -> Seq<u8>
    decreases s.len(),
{
    if s.len() == 0 {
        Seq::empty()
    } else {
        utf8_of(s.drop_last()) + utf8_char(s.last())
    }
}

fn push_utf8(out: &mut Vec<u8>, c: char)
    ensures
        final(out)@ == old(out)@ + utf8_char(c),
{
    let ghost before = out@;
    let u = c as u32;
    if u < 0x80 {
        out.push(u as u8);
    } else if u < 0x800 {
        out.push((0xC0u32 | (u >> 6u32)) as u8);
        out.push((0x80u32 | (u & 0x3Fu32)) as u8);
    } else if u < 0x10000 {
        out.push((0xE0u32 | (u >> 12u32)) as u8);
        out.push((0x80u32 | ((u >> 6u32) & 0x3Fu32)) as u8);
        out.push((0x80u32 | (u & 0x3Fu32)) as u8);
    } else {
        out.push((0xF0u32 | (u >> 18u32)) as u8);
        out.push((0x80u32 | ((u >> 12u32) & 0x3Fu32)) as u8);
        out.push((0x80u32 | ((u >> 6u32) & 0x3Fu32)) as u8);
        out.push((0x80u32 | (u & 0x3Fu32)) as u8);
    }
    assert(out@ =~= before + utf8_char(c));
}

/// The text's UTF-8 bytes.
fn utf8_bytes(s: &str) -> (r: Vec<u8>)
    ensures
        r@ == utf8_of(s@),
{
    let cs = chars_of(s);
    let mut out: Vec<u8> = Vec::new();
    let mut i: usize = 0;
    assert(cs@.subrange(0, 0) =~= Seq::<char>::empty());
    while i < cs.len()
        invariant
            i <= cs.len(),
            out@ == utf8_of(cs@.subrange(0, i as int)),
        decreases cs.len() - i,
    {
        assert(cs@.subrange(0, i + 1).drop_last() =~= cs@.subrange(0, i as int));
        push_utf8(&mut out, cs[i]);
        i += 1;
    }
    assert(cs@.subrange(0, cs@.len() as int) =~= cs@);
    out
}

/// The eight bytes of `u`, least significant first (`to_le_bytes`).
pub open spec fn le_bytes(u: u64) -> Seq<u8> {
    seq![
        (u & 0xff) as u8, ((u >> 8u64) & 0xff) as u8, ((u >> 16u64) & 0xff) as u8, ((u >> 24u64) & 0xff) as u8,
        ((u >> 32u64) & 0xff) as u8, ((u >> 40u64) & 0xff) as u8, ((u >> 48u64) & 0xff) as u8, ((u >> 56u64) & 0xff) as u8,
    ]
}

fn push_le_bytes(out: &mut Vec<u8>, u: u64)
    ensures
        final(out)@ == old(out)@ + le_bytes(u),
{
    let ghost before = out@;
    out.push((u & 0xff) as u8);
    out.push(((u >> 8u64) & 0xff) as u8);
    out.push(((u >> 16u64) & 0xff) as u8);
    out.push(((u >> 24u64) & 0xff) as u8);
    out.push(((u >> 32u64) & 0xff) as u8);
    out.push(((u >> 40u64) & 0xff) as u8);
    out.push(((u >> 48u64) & 0xff) as u8);
    out.push(((u >> 56u64) & 0xff) as u8);
    assert(out@ =~= before + le_bytes(u));
}

/// The number the first eight bytes stand for, least significant first
/// (`from_le_bytes`).
pub open spec fn le_value(b: Seq<u8>) -> int {
    b[0] + 256 * b[1] + 65536 * b[2] + 16777216 * b[3] + 4294967296 * b[4] + 1099511627776 * b[5]
        + 281474976710656 * b[6] + 72057594037927936 * b[7]
}

/// The bytes hashed for a chunk id: the session id as UTF-8, then the event id
/// and the chunk's ordinal as little-endian 64-bit integers.
pub open spec fn chunk_key(session_id: Seq<char>, event_id: i64, ordinal: i64) -> Seq<u8> {
    utf8_of(session_id) + le_bytes(event_id as u64) + le_bytes(ordinal as u64)
}

/// `stable_chunk_id`: the first eight bytes of the BLAKE3 digest of the chunk's
/// key as a little-endian number, with the sign bit cleared.
pub open spec fn chunk_id_of(session_id: Seq<char>, event_id: i64, ordinal: i64) -> i64 {
    (le_value(blake3_of(chunk_key(session_id, event_id, ordinal))) % 0x8000_0000_0000_0000) as i64
}

pub fn stable_chunk_id(session_id: &str, source_event_id: i64, chunk_ordinal: i64) -> (r: i64)
    ensures
        r == chunk_id_of(session_id@, source_event_id, chunk_ordinal),
        r >= 0,
{
    let mut data = utf8_bytes(session_id);
    push_le_bytes(&mut data, source_event_id as u64);
    push_le_bytes(&mut data, chunk_ordinal as u64);
    assert(data@ == chunk_key(session_id@, source_event_id, chunk_ordinal));
    let digest = blake3_hash(data.as_slice());
    let v: u64 = (digest[0] as u64) + (digest[1] as u64) * 256 + (digest[2] as u64) * 65536 + (digest[3] as u64)
        * 16777216 + (digest[4] as u64) * 4294967296 + (digest[5] as u64) * 1099511627776 + (digest[6] as u64)
        * 281474976710656 + (digest[7] as u64) * 72057594037927936;
    let masked: u64 = v & 0x7fff_ffff_ffff_ffffu64;
    assert(masked == v % 0x8000_0000_0000_0000u64) by (bit_vector)
        requires
            masked == v & 0x7fff_ffff_ffff_ffffu64,
    ;
    masked as i64
}

pub open spec fn hex_digit(n: int) -> char {
    if n < 10 {
        ((n + 48) as u8) as char
    } else {
        ((n + 87) as u8) as char
    }
}

/// Lower-case hexadecimal, two digits per byte.
pub open spec fn hex_of(b: Seq<u8>) -> Seq<char>
    decreases b.len(),
{
    if b.len() == 0 {
        Seq::empty()
    } else {
        hex_of(b.drop_last()) + seq![hex_digit((b.last() / 16) as int), hex_digit((b.last() % 16) as int)]
    }
}

/// Lower-case hexadecimal digits only.
pub open spec fn lower_hex(s: Seq<char>) -> bool {
    forall|i: int| 0 <= i < s.len() ==> ('0' <= #[trigger] s[i] <= '9') || ('a' <= s[i] <= 'f')
}

fn hex_digit_exec(n: u8) -> (r: char)
    requires
        n < 16,
    ensures
        r == hex_digit(n as int),
        ('0' <= r <= '9') || ('a' <= r <= 'f'),
{
    if n < 10 {
        (n + 48) as char
    } else {
        (n + 87) as char
    }
}

/// `content_hash`: the BLAKE3 digest of the text's UTF-8 bytes, in hexadecimal.
pub open spec fn content_hash_of(text: Seq<char>) -> Seq<char> {
    hex_of(blake3_of(utf8_of(text)))
}

pub fn content_hash(text: &str) -> (r: String)
    ensures
        r@ == content_hash_of(text@),
        r@.len() == 64,
        lower_hex(r@),
{
    let bytes = utf8_bytes(text);
    let digest = blake3_hash(bytes.as_slice());
    let mut out: Vec<char> = Vec::new();
    let mut i: usize = 0;
    assert(digest@.subrange(0, 0) =~= Seq::<u8>::empty());
    while i < digest.len()
        invariant
            i <= digest@.len(),
            digest@.len() == 32,
            out@ == hex_of(digest@.subrange(0, i as int)),
            out@.len() == 2 * i,
            lower_hex(out@),
        decreases digest.len() - i,
    {
        assert(digest@.subrange(0, i + 1).drop_last() =~= digest@.subrange(0, i as int));
        let b = digest[i];
        out.push(hex_digit_exec(b / 16));
        out.push(hex_digit_exec(b % 16));
        i += 1;
    }
    assert(digest@.subrange(0, 32) =~= digest@);
    string_of(&out)
}

// ---------------------------------------------------------------------------
// Chunks
// ---------------------------------------------------------------------------

/// `normalize_text`: the words of the text joined by single spaces.
pub fn normalize_text(text: &str) -> (r: String)
    ensures
        r@ == squeeze_ws(text@),
{
    string_of(&normalize_whitespace(&chars_of(text)))
}

/// The text embedded for a chunk: its kind, its tool (when it has one) and its
/// normalized text, one per line.
pub open spec fn embedding_text_of(kind: Seq<char>, tool: Option<Seq<char>>, normalized: Seq<char>) -> Seq<char> {
    match tool {
        Some(t) => "kind: "@ + kind + "\ntool: "@ + t + "\ntext: "@ + normalized,
        None => "kind: "@ + kind + "\ntext: "@ + normalized,
    }
}

/// `to_indexable_chunks`: no chunk for a message without words; otherwise one
/// chunk (ordinal 0) holding the normalized text.
pub fn to_indexable_chunks(message: &RagSourceMessage) -> (r: Vec<IndexableChunk>)
    ensures
        squeeze_ws(message.text@).len() == 0 ==> r@.len() == 0,
        squeeze_ws(message.text@).len() > 0 ==> {
            &&& r@.len() == 1
            &&& r@[0].chunk_id == chunk_id_of(message.session_id@, message.source_event_id, 0)
            &&& r@[0].session_id@ == message.session_id@
            &&& r@[0].ts_ms == message.ts_ms
            &&& opt_view(r@[0].tool_name) == opt_view(message.tool_name)
            &&& r@[0].kind@ == message.kind@
            &&& r@[0].text@ == squeeze_ws(message.text@)
            &&& r@[0].embedding_text@ == embedding_text_of(message.kind@, opt_view(message.tool_name), squeeze_ws(message.text@))
            &&& r@[0].content_hash@ == content_hash_of(squeeze_ws(message.text@))
            &&& r@[0].content_hash@.len() == 64 && lower_hex(r@[0].content_hash@)
            &&& r@[0].source_event_id == message.source_event_id
        },
{
    let normalized = normalize_text(message.text.as_str());
    let nchars = str_chars(&normalized);
    if nchars.len() == 0 {
        return Vec::new();
    }
    let mut e = chars_of("kind: ");
    append_chars(&mut e, &str_chars(&message.kind));
    match &message.tool_name {
        Some(tool) => {
            append_str(&mut e, "\ntool: ");
            append_chars(&mut e, &str_chars(tool));
        },
        None => {},
    }
    append_str(&mut e, "\ntext: ");
    append_chars(&mut e, &nchars);
    let chunk_id = stable_chunk_id(message.session_id.as_str(), message.source_event_id, 0);
    let hash = content_hash(normalized.as_str());
    let mut out: Vec<IndexableChunk> = Vec::new();
    out.push(IndexableChunk {
        chunk_id,
        session_id: message.session_id.clone(),
        ts_ms: message.ts_ms,
        tool_name: crate::session::clone_opt_string(&message.tool_name),
        kind: message.kind.clone(),
        text: normalized,
        embedding_text: string_of(&e),
        content_hash: hash,
        source_event_id: message.source_event_id,
    });
    out
}

/// Whether a chunk can be skipped: not reindexing, and the stored content hash
/// is the chunk's.
pub fn should_skip(reindex: bool, existing_hash: &Option<String>, chunk: &IndexableChunk) -> (r: bool)
    ensures
        r == (!reindex && opt_view(*existing_hash) == Some(chunk.content_hash@)),
{
    if reindex {
        return false;
    }
    match existing_hash {
        Some(h) => crate::text::eq_chars(&str_chars(h), &str_chars(&chunk.content_hash)),
        None => false,
    }
}

/// The number of chunks sent to the embedding provider at once (at least one).
pub fn effective_batch_size(requested: usize) -> (r: usize)
    ensures
        r == (if requested == 0 { 1 } else { requested }),
{
    if requested == 0 {
        1
    } else {
        requested
    }
}

/// Why semantic indexing or search stopped.
#[derive(Debug)]
pub enum RagError {
    EmptyQuery,
    VectorCount { got: usize, expected: usize },
    Dimension { model: String, got: usize },
    NoQueryVector,
    QueryDimension { model: String, got: usize },
}

/// The text of each error.
pub open spec fn rag_error_text(e: RagError) -> Seq<char> {
    match e {
        RagError::EmptyQuery => "query must not be empty"@,
        RagError::VectorCount { got, expected } => "embedding provider returned "@ + dec(got as nat)
            + " vectors for "@ + dec(expected as nat) + " inputs"@,
        RagError::Dimension { model, got } => "embedding dimension mismatch for model "@ + model@
            + ": expected 1536, got "@ + dec(got as nat),
        RagError::NoQueryVector => "embedding provider returned no vectors for query"@,
        RagError::QueryDimension { model, got } => "query embedding dimension mismatch for model "@
            + model@ + ": expected 1536, got "@ + dec(got as nat),
    }
}

impl RagError {
    pub fn message(&self) -> (r: String)
        ensures
            r@ == rag_error_text(*self),
    {
        let mut m: Vec<char> = Vec::new();
        match self {
            RagError::EmptyQuery => append_str(&mut m, "query must not be empty"),
            RagError::VectorCount { got, expected } => {
                append_str(&mut m, "embedding provider returned ");
                push_dec(&mut m, *got as u64);
                append_str(&mut m, " vectors for ");
                push_dec(&mut m, *expected as u64);
                append_str(&mut m, " inputs");
            },
            RagError::Dimension { model, got } => {
                append_str(&mut m, "embedding dimension mismatch for model ");
                append_chars(&mut m, &str_chars(model));
                append_str(&mut m, ": expected 1536, got ");
                push_dec(&mut m, *got as u64);
            },
            RagError::NoQueryVector => append_str(&mut m, "embedding provider returned no vectors for query"),
            RagError::QueryDimension { model, got } => {
                append_str(&mut m, "query embedding dimension mismatch for model ");
                append_chars(&mut m, &str_chars(model));
                append_str(&mut m, ": expected 1536, got ");
                push_dec(&mut m, *got as u64);
            },
        }
        string_of(&m)
    }
}

/// Position `a` of a response comes before position `b` when ordered by the
/// items' `index`, items with equal indices kept in the order they came.
pub open spec fn index_before(idx: Seq<usize>, a: int, b: int) -> bool {
    idx[a] < idx[b] || (idx[a] == idx[b] && a < b)
}

/// The order in which to take the items of an embeddings response (`indices`
/// are the items' `index` fields): by index, a stable sort. `None` when the
/// response does not have one item per input.
pub fn embedding_order(expected: usize, indices: &Vec<usize>) -> (r: Option<Vec<usize>>)
    ensures
        r is Some <==> indices@.len() == expected,
        r matches Some(order) ==> {
            &&& order@.len() == expected
            &&& forall|a: int| 0 <= a < order@.len() ==> #[trigger] order@[a] < expected
            &&& forall|a: int, b: int|
                0 <= a < b < order@.len() ==> index_before(indices@, #[trigger] order@[a] as int, #[trigger] order@[b] as int)
        },
{
    if indices.len() != expected {
        return None;
    }
    let mut order: Vec<usize> = Vec::new();
    let mut i: usize = 0;
    while i < indices.len()
        invariant
            i <= indices@.len(),
            order@.len() == i,
            forall|a: int| 0 <= a < order@.len() ==> #[trigger] order@[a] < i,
            forall|a: int, b: int|
                0 <= a < b < order@.len() ==> index_before(indices@, #[trigger] order@[a] as int, #[trigger] order@[b] as int),
        decreases indices.len() - i,
    {
        let key = indices[i];
        let mut j: usize = 0;
        while j < order.len() && indices[order[j]] <= key
            invariant
                j <= order@.len(),
                i < indices@.len(),
                key == indices@[i as int],
                forall|a: int| 0 <= a < order@.len() ==> #[trigger] order@[a] < i,
                forall|a: int| 0 <= a < j ==> indices@[#[trigger] order@[a] as int] <= key,
            decreases order.len() - j,
        {
            j += 1;
        }
        let ghost old_order = order@;
        proof {
            assert forall|a: int| j <= a < old_order.len() implies indices@[#[trigger] old_order[a] as int] > key by {
                if j < old_order.len() {
                    assert(indices@[old_order[j as int] as int] > key);
                    if a > j {
                        assert(index_before(indices@, old_order[j as int] as int, old_order[a] as int));
                    }
                }
            }
        }
        order.insert(j, i);
        proof {
            assert forall|a: int| 0 <= a < order@.len() implies #[trigger] order@[a] < i + 1 by {
                if a < j {
                    assert(order@[a] == old_order[a]);
                } else if a > j {
                    assert(order@[a] == old_order[a - 1]);
                }
            }
            assert forall|a: int, b: int| 0 <= a < b < order@.len() implies index_before(
                indices@,
                #[trigger] order@[a] as int,
                #[trigger] order@[b] as int,
            ) by {
                if b < j {
                    assert(order@[a] == old_order[a] && order@[b] == old_order[b]);
                } else if b == j {
                    assert(order@[a] == old_order[a]);
                    assert(indices@[old_order[a] as int] <= key);
                } else if a < j {
                    assert(order@[a] == old_order[a] && order@[b] == old_order[b - 1]);
                    assert(indices@[old_order[a] as int] <= key);
                    assert(indices@[old_order[b - 1] as int] > key);
                } else if a == j {
                    assert(order@[b] == old_order[b - 1]);
                    assert(indices@[old_order[b - 1] as int] > key);
                } else {
                    assert(order@[a] == old_order[a - 1] && order@[b] == old_order[b - 1]);
                }
            }
        }
        i += 1;
    }
    Some(order)
}

/// The query's embedding: the provider must return a vector (`first_len` is the
/// first vector's length) of `EMBEDDING_DIM` numbers.
pub fn check_query_embedding(model: &str, first_len: Option<usize>) -> (r: Result<(), RagError>)
    ensures
        match first_len {
            None => r matches Err(RagError::NoQueryVector),
            Some(n) => if n == EMBEDDING_DIM {
                r is Ok
            } else {
                (r matches Err(RagError::QueryDimension { model: m, got }) && m@ == model@ && got == n)
            },
        },
{
    match first_len {
        None => Err(RagError::NoQueryVector),
        Some(n) => if n == EMBEDDING_DIM {
            Ok(())
        } else {
            Err(RagError::QueryDimension { model: model.to_owned(), got: n })
        },
    }
}

/// The query as searched: trimmed, and refused when blank.
pub fn prepare_query(query: &str) -> (r: Result<String, RagError>)
    ensures
        match r {
            Ok(q) => q@ == crate::text::trim(query@) && q@.len() > 0,
            Err(e) => e is EmptyQuery && crate::text::trim(query@).len() == 0,
        },
{
    let t = crate::text::trim_chars(&chars_of(query));
    if t.len() == 0 {
        return Err(RagError::EmptyQuery);
    }
    Ok(string_of(&t))
}

/// An embedding batch must have one vector per input, each `EMBEDDING_DIM` long
/// (`lens` are the vectors' lengths).
pub fn check_embeddings(model: &str, inputs: usize, lens: &Vec<usize>) -> (r: Result<(), RagError>)
    ensures
        r is Ok <==> (lens@.len() == inputs && forall|i: int| 0 <= i < lens@.len() ==> lens@[i] == EMBEDDING_DIM),
        lens@.len() != inputs ==> (r matches Err(RagError::VectorCount { got, expected }) && got == lens@.len()
            && expected == inputs),
        r matches Err(RagError::Dimension { model: m, got }) ==> m@ == model@ && exists|i: int|
            0 <= i < lens@.len() && lens@[i] == got && got != EMBEDDING_DIM && forall|j: int| 0 <= j < i ==> lens@[j]
                == EMBEDDING_DIM,
        r is Err ==> (r matches Err(RagError::VectorCount { .. }) || r matches Err(RagError::Dimension { .. })),
{
    if lens.len() != inputs {
        return Err(RagError::VectorCount { got: lens.len(), expected: inputs });
    }
    let mut i: usize = 0;
    while i < lens.len()
        invariant
            i <= lens.len(),
            lens@.len() == inputs,
            forall|j: int| 0 <= j < i ==> lens@[j] == EMBEDDING_DIM,
        decreases lens.len() - i,
    {
        if lens[i] != EMBEDDING_DIM {
            return Err(RagError::Dimension { model: model.to_owned(), got: lens[i] });
        }
        i += 1;
    }
    Ok(())
}

/// HTTP statuses after which an embeddings request is tried again.
pub fn is_retryable_status(code: u16) -> (r: bool)
    ensures
        r == (code == 429 || code == 500 || code == 502 || code == 503 || code == 504),
{
    code == 429 || code == 500 || code == 502 || code == 503 || code == 504
}

/// How many times a failed embeddings request is tried again.
pub const MAX_RETRIES: usize = 3;

/// How an embeddings request failed.
#[derive(Debug, Clone, Copy)]
pub enum RequestFailure {
    /// The server answered with this HTTP status.
    Status(u16),
    /// The request did not reach the server or its answer did not come back.
    Transport,
}

/// The wait before try `attempt + 1`: 200 ms, doubled on each try.
pub open spec fn backoff_ms(attempt: nat) -> nat
    decreases attempt,
{
    if attempt == 0 {
        200
    } else {
        2 * backoff_ms((attempt - 1) as nat)
    }
}

/// Whether a request that failed so is tried again.
pub open spec fn retried(failure: RequestFailure) -> bool {
    match failure {
        RequestFailure::Status(code) => code == 429 || code == 500 || code == 502 || code == 503 || code == 504,
        RequestFailure::Transport => true,
    }
}

/// After failed try number `attempt` (from 0): the milliseconds to wait before
/// trying again, or `None` when the request fails for good. A server status of
/// overload or a transport error is tried again, at most `MAX_RETRIES` times.
pub fn retry_delay(attempt: usize, failure: RequestFailure) -> (r: Option<u64>)
    ensures
        r == (if attempt < MAX_RETRIES && retried(failure) {
            Some(backoff_ms(attempt as nat) as u64)
        } else {
            None::<u64>
        }),
{
    let again = match failure {
        RequestFailure::Status(code) => is_retryable_status(code),
        RequestFailure::Transport => true,
    };
    if attempt >= MAX_RETRIES || !again {
        return None;
    }
    let mut delay: u64 = 200;
    let mut k: usize = 0;
    while k < attempt
        invariant
            k <= attempt,
            attempt < MAX_RETRIES,
            delay == backoff_ms(k as nat),
        decreases attempt - k,
    {
        assert(delay <= 400) by {
            reveal_with_fuel(backoff_ms, 2);
        }
        delay = delay * 2;
        k += 1;
        assert(backoff_ms(k as nat) == 2 * backoff_ms((k - 1) as nat));
    }
    Some(delay)
}

} // verus!
