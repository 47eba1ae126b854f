//! The inference engine: which model is loaded, the chat request it sends to
//! the Ollama server, and the reading of the reply that the server streams
//! back as newline-delimited JSON.
use vstd::prelude::*;

use std::sync::atomic::AtomicBool;
use std::sync::Arc;

use vstd::utf8::{decode_utf8, valid_utf8};

use crate::inference::llama_ffi::{new_flag, raise_flag, share_flag, lower_flag};
use crate::inference::tq_config::{config_for_bits, default_config, TurboQuantConfig};
use crate::json::{json_view, JsonValue, JsonView};
use crate::text::{chars_of, push_all, str_eq, string_from_chars, trim, trim_string};

pub mod download;
pub mod llama_ffi;
pub mod tq_config;

verus! {

/// A chat message as Ollama takes it.
pub struct OllamaMessage {
    pub role: String,
    pub content: String,
}

impl OllamaMessage {
    /// A copy of the message.
    pub fn duplicate(&self) -> (r: Self)
        ensures
            r.role@ == self.role@,
            r.content@ == self.content@,
    {
        OllamaMessage { role: self.role.clone(), content: self.content.clone() }
    }
}

/// One line of Ollama's streamed reply.
pub struct OllamaStreamChunk {
    pub message: Option<OllamaMessage>,
    pub done: bool,
    pub eval_count: Option<u64>,
    pub eval_duration: Option<u64>,
}

/// The content of a streamed line: the message as (role, content).
pub struct ChunkView {
    pub message: Option<(Seq<char>, Seq<char>)>,
    pub done: bool,
    pub eval_count: Option<u64>,
    pub eval_duration: Option<u64>,
}

/// The content of `c`.
pub open spec fn chunk_view(c: OllamaStreamChunk) -> ChunkView {
    ChunkView {
        message: match c.message {
            Some(m) => Some((m.role@, m.content@)),
            None => None,
        },
        done: c.done,
        eval_count: c.eval_count,
        eval_duration: c.eval_duration,
    }
}

/// The Ollama name of a model of the catalog; any other name is taken to be
/// an Ollama name already.
pub open spec fn ollama_name(id: Seq<char>) -> Seq<char> {
    if id == "llama3.2-3b"@ {
        "llama3.2:3b"@
    } else if id == "qwen3-30b-a3b"@ {
        "qwen3:30b-a3b"@
    } else if id == "qwen3.5-35b-a3b-q4km"@ {
        "qwen3:30b-a3b"@
    } else if id == "qwen3-8b-q4km"@ {
        "qwen3:8b"@
    } else if id == "llama3.3-70b-q4km"@ {
        "llama3.3:70b"@
    } else if id == "gemma3-27b-q4km"@ {
        "gemma3:27b"@
    } else if id == "phi4-14b-q4km"@ {
        "phi4:14b"@
    } else {
        id
    }
}

/// The Ollama name of the model with catalog id `model_id`.
pub fn catalog_id_to_ollama(model_id: &str) -> (r: String)
    ensures
        r@ == ollama_name(model_id@),
{
    if str_eq(model_id, "llama3.2-3b") {
        String::from_str("llama3.2:3b")
    } else if str_eq(model_id, "qwen3-30b-a3b") {
        String::from_str("qwen3:30b-a3b")
    } else if str_eq(model_id, "qwen3.5-35b-a3b-q4km") {
        String::from_str("qwen3:30b-a3b")
    } else if str_eq(model_id, "qwen3-8b-q4km") {
        String::from_str("qwen3:8b")
    } else if str_eq(model_id, "llama3.3-70b-q4km") {
        String::from_str("llama3.3:70b")
    } else if str_eq(model_id, "gemma3-27b-q4km") {
        String::from_str("gemma3:27b")
    } else if str_eq(model_id, "phi4-14b-q4km") {
        String::from_str("phi4:14b")
    } else {
        String::from_str(model_id)
    }
}

/// The characters of an optional string.
pub open spec fn opt_view(s: Option<String>) -> Option<Seq<char>> {
    match s {
        Some(x) => Some(x@),
        None => None,
    }
}

/// The error of a chat with no model loaded.
pub open spec fn no_model_error() -> Seq<char> {
    "No model loaded. Select and load a model first."@
}

/// The model a chat asks for: the loaded one, `qwen3:8b` when none is named.
pub open spec fn chat_model(ollama_model: Option<Seq<char>>) -> Seq<char> {
    match ollama_model {
        Some(m) => m,
        None => "qwen3:8b"@,
    }
}

/// The chat endpoint of the server at `base`.
pub open spec fn chat_url(base: Seq<char>) -> Seq<char> {
    base + "/api/chat"@
}

/// A message as JSON: its role, then its content.
pub open spec fn message_json(m: OllamaMessage) -> JsonView {
    JsonView::Object(seq![("role"@, JsonView::Str(m.role@)), ("content"@, JsonView::Str(m.content@))])
}

/// The body of a streamed chat request for `model` over `messages`.
pub open spec fn chat_body(model: Seq<char>, messages: Seq<OllamaMessage>) -> JsonView {
    JsonView::Object(
        seq![
            ("model"@, JsonView::Str(model)),
            ("messages"@, JsonView::Array(messages.map_values(|m: OllamaMessage| message_json(m)))),
            ("stream"@, JsonView::Bool(true)),
        ],
    )
}

/// A request to send: where, and what.
pub struct ChatRequest {
    pub url: String,
    pub body: JsonValue,
}

/// The state of the engine: whether a model is loaded and which, the server
/// it talks to, the KV-cache compression it asks for, and the stop flag that
/// the reading of a reply watches.
pub struct InferenceEngine {
    model_loaded: bool,
    model_id: Option<String>,
    ollama_model: Option<String>,
    ollama_url: String,
    tq_config: TurboQuantConfig,
    stop_flag: Arc<AtomicBool>,
}

impl InferenceEngine {
    pub closed spec fn spec_loaded(&self) -> bool {
        self.model_loaded
    }

    pub closed spec fn spec_model_id(&self) -> Option<Seq<char>> {
        opt_view(self.model_id)
    }

    pub closed spec fn spec_ollama_model(&self) -> Option<Seq<char>> {
        opt_view(self.ollama_model)
    }

    pub closed spec fn spec_url(&self) -> Seq<char> {
        self.ollama_url@
    }

    pub closed spec fn spec_tq_config(&self) -> TurboQuantConfig {
        self.tq_config
    }

    pub closed spec fn spec_stop_flag(&self) -> Arc<AtomicBool> {
        self.stop_flag
    }

    /// An engine with no model, talking to Ollama on `localhost:11434`, with
    /// the default compression.
    pub fn new() -> (r: Self)
        ensures
            !r.spec_loaded(),
            r.spec_model_id() is None,
            r.spec_ollama_model() is None,
            r.spec_url() == "http://localhost:11434"@,
            r.spec_tq_config() == default_config(),
    {
        InferenceEngine {
            model_loaded: false,
            model_id: None,
            ollama_model: None,
            ollama_url: String::from_str("http://localhost:11434"),
            tq_config: TurboQuantConfig::default(),
            stop_flag: new_flag(),
        }
    }

    /// Loads the model `model_id` with a `tq_bits`-bit KV cache. Always
    /// succeeds: the model is only named to the server when a chat begins.
    pub fn load_model(&mut self, model_id: &str, tq_bits: u8) -> (r: Result<(), String>)
        ensures
            r is Ok,
            final(self).spec_loaded(),
            final(self).spec_model_id() == Some(model_id@),
            final(self).spec_ollama_model() == Some(ollama_name(model_id@)),
            final(self).spec_tq_config() == config_for_bits(tq_bits),
            final(self).spec_url() == old(self).spec_url(),
            final(self).spec_stop_flag() == old(self).spec_stop_flag(),
    {
        let ollama = catalog_id_to_ollama(model_id);
        self.tq_config = TurboQuantConfig::new(tq_bits);
        self.model_id = Some(String::from_str(model_id));
        self.ollama_model = Some(ollama);
        self.model_loaded = true;
        Ok(())
    }

    /// Forgets the loaded model.
    pub fn unload(&mut self)
        ensures
            !final(self).spec_loaded(),
            final(self).spec_model_id() is None,
            final(self).spec_ollama_model() is None,
            final(self).spec_tq_config() == old(self).spec_tq_config(),
            final(self).spec_url() == old(self).spec_url(),
            final(self).spec_stop_flag() == old(self).spec_stop_flag(),
    {
        self.model_loaded = false;
        self.model_id = None;
        self.ollama_model = None;
    }

    /// Begins a chat over `messages`: refused when no model is loaded;
    /// otherwise lowers the stop flag and gives the request to stream.
    pub fn chat_request(&self, messages: &Vec<OllamaMessage>) -> (r: Result<ChatRequest, String>)
        ensures
            !self.spec_loaded() ==> (r matches Err(e) && e@ == no_model_error()),
            self.spec_loaded() ==> (r matches Ok(req) && req.url@ == chat_url(self.spec_url())
                && req.body@ == chat_body(chat_model(self.spec_ollama_model()), messages@)),
    {
        if !self.model_loaded {
            return Err(String::from_str("No model loaded. Select and load a model first."));
        }
        let model = match &self.ollama_model {
            Some(m) => m.clone(),
            None => String::from_str("qwen3:8b"),
        };
        lower_flag(&self.stop_flag);
        let mut v: Vec<char> = chars_of(self.ollama_url.as_str());
        let tail = chars_of("/api/chat");
        push_all(&mut v, &tail);
        let url = string_from_chars(v.as_slice());
        let mut items: Vec<JsonValue> = Vec::new();
        let mut i: usize = 0;
        while i < messages.len()
            invariant
                i <= messages.len(),
                items@.len() == i,
                forall|k: int| 0 <= k < i ==> json_view(#[trigger] items@[k]) == message_json(messages@[k]),
            decreases messages.len() - i,
        {
            let m = &messages[i];
            let mut members: Vec<(String, JsonValue)> = Vec::new();
            members.push((String::from_str("role"), JsonValue::Str(m.role.clone())));
            members.push((String::from_str("content"), JsonValue::Str(m.content.clone())));
            proof {
                crate::json::lemma_member_views(members@);
                assert(crate::json::member_views(members@) =~= seq![
                    ("role"@, JsonView::Str(m.role@)),
                    ("content"@, JsonView::Str(m.content@)),
                ]);
            }
            items.push(JsonValue::Object(members));
            i = i + 1;
        }
        let mut fields: Vec<(String, JsonValue)> = Vec::new();
        fields.push((String::from_str("model"), JsonValue::Str(model)));
        let ghost item_views = items@;
        fields.push((String::from_str("messages"), JsonValue::Array(items)));
        fields.push((String::from_str("stream"), JsonValue::Bool(true)));
        proof {
            crate::json::lemma_json_views(item_views);
            assert(crate::json::json_views(item_views) =~= messages@.map_values(
                |m: OllamaMessage| message_json(m),
            ));
            crate::json::lemma_member_views(fields@);
            assert(crate::json::member_views(fields@) =~= seq![
                ("model"@, JsonView::Str(chat_model(self.spec_ollama_model()))),
                ("messages"@, JsonView::Array(messages@.map_values(|m: OllamaMessage| message_json(m)))),
                ("stream"@, JsonView::Bool(true)),
            ]);
        }
        Ok(ChatRequest { url, body: JsonValue::Object(fields) })
    }

    /// Asks the reading of the current reply to stop.
    pub fn stop(&self) {
        raise_flag(&self.stop_flag);
    }

    /// Whether a model is loaded.
    pub fn is_loaded(&self) -> (r: bool)
        ensures
            r == self.spec_loaded(),
    {
        self.model_loaded
    }

    /// The catalog id of the loaded model.
    pub fn model_id(&self) -> (r: Option<&str>)
        ensures
            match r {
                Some(s) => self.spec_model_id() == Some(s@),
                None => self.spec_model_id() is None,
            },
    {
        match &self.model_id {
            Some(s) => Some(s.as_str()),
            None => None,
        }
    }

    /// The stop flag, shared with the reader of a reply.
    pub fn stop_flag(&self) -> (r: Arc<AtomicBool>)
        ensures
            r == self.spec_stop_flag(),
    {
        share_flag(&self.stop_flag)
    }

    /// The address of the Ollama server.
    pub fn ollama_url(&self) -> (r: &str)
        ensures
            r@ == self.spec_url(),
    {
        self.ollama_url.as_str()
    }

    /// The compression the loaded model runs with.
    pub fn tq_config(&self) -> (r: &TurboQuantConfig)
        ensures
            *r == self.spec_tq_config(),
    {
        &self.tq_config
    }
}

// ---------------------------------------------------------------------------
// Reading the streamed reply
// ---------------------------------------------------------------------------

/// What `String::from_utf8_lossy` makes of `bytes`.
pub uninterp spec fn spec_utf8_lossy(bytes: Seq<u8>) -> Seq<char>;

/// Calls `String::from_utf8_lossy`. Claimed: the result is a function of
/// `bytes` alone, named `spec_utf8_lossy`, and, as its documentation states,
/// valid UTF-8 is decoded as it is. How invalid sequences are replaced is
/// left to the name.
#[verifier::external_body]
fn utf8_lossy(bytes: &[u8]) -> (r: String)
    ensures
        r@ == spec_utf8_lossy(bytes@),
        valid_utf8(bytes@) ==> r@ == decode_utf8(bytes@),
{
    String::from_utf8_lossy(bytes).into_owned()
}

/// The text of a line of the reply: its bytes decoded (invalid sequences
/// replaced) and trimmed.
pub open spec fn line_text(line: Seq<u8>) -> Seq<char> {
    trim(spec_utf8_lossy(line))
}

/// The views of optional chunks.
pub open spec fn chunk_views(cs: Seq<Option<OllamaStreamChunk>>) -> Seq<Option<ChunkView>> {
    cs.map_values(
        |c: Option<OllamaStreamChunk>|
            match c {
                Some(x) => Some(chunk_view(x)),
                None => None,
            },
    )
}

/// The views of strings.
pub open spec fn text_views(v: Seq<String>) -> Seq<Seq<char>> {
    v.map_values(|t: String| t@)
}

/// A piece of reply text handed on, with the generation counters (tokens,
/// nanoseconds) when the chunk carried both and the time is not 0.
pub struct StreamToken {
    pub content: String,
    pub eval: Option<(u64, u64)>,
}

/// The counters that the speed is computed from.
pub open spec fn eval_pair(c: ChunkView) -> Option<(u64, u64)> {
    match (c.eval_count, c.eval_duration) {
        (Some(n), Some(d)) => if d > 0 {
            Some((n, d))
        } else {
            None
        },
        _ => None,
    }
}

/// The pieces a chunk hands on: its message's content, when not empty.
pub open spec fn chunk_tokens(c: ChunkView) -> Seq<(Seq<char>, Option<(u64, u64)>)> {
    match c.message {
        Some((_, content)) => if content.len() > 0 {
            seq![(content, eval_pair(c))]
        } else {
            seq![]
        },
        None => seq![],
    }
}

/// The index of the first newline in `b` at or after `i`.
pub open spec fn newline_from(b: Seq<u8>, i: int) -> Option<int>
    decreases b.len() - i,
{
    if i < 0 || i >= b.len() {
        None
    } else if b[i] == 10u8 {
        Some(i)
    } else {
        newline_from(b, i + 1)
    }
}

/// The texts of the complete, non-blank lines at the front of `pending`, in
/// order.
pub open spec fn line_texts(pending: Seq<u8>) -> Seq<Seq<char>>
    decreases pending.len(),
{
    match newline_from(pending, 0) {
        Some(p) => if 0 <= p < pending.len() {
            let rest = pending.subrange(p + 1, pending.len() as int);
            let t = line_text(pending.subrange(0, p + 1));
            if t.len() == 0 {
                line_texts(rest)
            } else {
                seq![t] + line_texts(rest)
            }
        } else {
            seq![]
        },
        None => seq![],
    }
}

/// Reads the complete lines at the front of `pending`, the non-blank ones
/// standing, in order, for the chunks `chunks` (none where a line does not
/// read as a chunk, and for lines past the end of `chunks`): the pieces handed
/// on and what is left for later. Blank lines are skipped; a chunk that is
/// done ends the reading, and what follows its line stays.
pub open spec fn read_lines(chunks: Seq<Option<ChunkView>>, pending: Seq<u8>) -> (
    Seq<(Seq<char>, Option<(u64, u64)>)>,
    Seq<u8>,
)
    decreases pending.len(),
{
    match newline_from(pending, 0) {
        Some(p) => if 0 <= p < pending.len() {
            let rest = pending.subrange(p + 1, pending.len() as int);
            if line_text(pending.subrange(0, p + 1)).len() == 0 {
                read_lines(chunks, rest)
            } else {
                let more = if chunks.len() > 0 {
                    chunks.drop_first()
                } else {
                    chunks
                };
                match if chunks.len() > 0 {
                    chunks[0]
                } else {
                    None
                } {
                    None => read_lines(more, rest),
                    Some(c) => if c.done {
                        (chunk_tokens(c), rest)
                    } else {
                        (chunk_tokens(c) + read_lines(more, rest).0, read_lines(more, rest).1)
                    },
                }
            }
        } else {
            (seq![], pending)
        },
        None => (seq![], pending),
    }
}

/// The chunk a line stands for when each non-blank line is read by `parse`.
pub open spec fn line_chunk(parse: spec_fn(Seq<char>) -> Option<ChunkView>, line: Seq<u8>) -> Option<ChunkView> {
    if line_text(line).len() == 0 {
        None
    } else {
        parse(line_text(line))
    }
}

/// Reading the complete lines at the front of `pending` when each line's text
/// is read as a chunk by `parse`.
pub open spec fn read_lines_by(parse: spec_fn(Seq<char>) -> Option<ChunkView>, pending: Seq<u8>) -> (
    Seq<(Seq<char>, Option<(u64, u64)>)>,
    Seq<u8>,
)
    decreases pending.len(),
{
    match newline_from(pending, 0) {
        Some(p) => if 0 <= p < pending.len() {
            let rest = pending.subrange(p + 1, pending.len() as int);
            match line_chunk(parse, pending.subrange(0, p + 1)) {
                None => read_lines_by(parse, rest),
                Some(c) => if c.done {
                    (chunk_tokens(c), rest)
                } else {
                    (chunk_tokens(c) + read_lines_by(parse, rest).0, read_lines_by(parse, rest).1)
                },
            }
        } else {
            (seq![], pending)
        },
        None => (seq![], pending),
    }
}

/// Reading the lines with the chunks that `parse` makes of their texts is
/// reading them by `parse`.
pub proof fn lemma_read_lines_by(parse: spec_fn(Seq<char>) -> Option<ChunkView>, pending: Seq<u8>)
    ensures
        read_lines(line_texts(pending).map_values(parse), pending) == read_lines_by(parse, pending),
    decreases pending.len(),
{
    match newline_from(pending, 0) {
        Some(p) => if 0 <= p < pending.len() {
            let rest = pending.subrange(p + 1, pending.len() as int);
            lemma_read_lines_by(parse, rest);
            let t = line_text(pending.subrange(0, p + 1));
            if t.len() > 0 {
                let cs = line_texts(pending).map_values(parse);
                assert(cs.drop_first() =~= line_texts(rest).map_values(parse));
                assert(cs[0] == parse(t));
            }
        } else {
        },
        None => {},
    }
}

/// Whether the reading by `parse` of the complete lines of `pending` ends at
/// a chunk that is done.
pub open spec fn stops_at_done(parse: spec_fn(Seq<char>) -> Option<ChunkView>, pending: Seq<u8>) -> bool
    decreases pending.len(),
{
    match newline_from(pending, 0) {
        Some(p) => if 0 <= p < pending.len() {
            let rest = pending.subrange(p + 1, pending.len() as int);
            match line_chunk(parse, pending.subrange(0, p + 1)) {
                None => stops_at_done(parse, rest),
                Some(c) => c.done || stops_at_done(parse, rest),
            }
        } else {
            false
        },
        None => false,
    }
}

/// A newline found in `a` is the first one in `a + b` too.
proof fn lemma_newline_prefix(a: Seq<u8>, b: Seq<u8>, i: int)
    requires
        0 <= i,
        newline_from(a, i) is Some,
    ensures
        newline_from(a + b, i) == newline_from(a, i),
    decreases a.len() - i,
{
    if i < a.len() && a[i] != 10u8 {
        lemma_newline_prefix(a, b, i + 1);
    }
}

/// Where the reply is cut into network pieces does not change what is read,
/// when each line is read by a function of its text: reading `a` and then,
/// after what was left, `b`, hands on the same pieces and leaves the same
/// bytes as reading `a + b` at once, as long as the reading of `a` did not end
/// at a done chunk.
pub proof fn lemma_read_lines_split(parse: spec_fn(Seq<char>) -> Option<ChunkView>, a: Seq<u8>, b: Seq<u8>)
    requires
        !stops_at_done(parse, a),
    ensures
        read_lines_by(parse, a + b) == (
            read_lines_by(parse, a).0 + read_lines_by(parse, read_lines_by(parse, a).1 + b).0,
            read_lines_by(parse, read_lines_by(parse, a).1 + b).1,
        ),
    decreases a.len(),
{
    match newline_from(a, 0) {
        None => {
            assert(Seq::<(Seq<char>, Option<(u64, u64)>)>::empty() + read_lines_by(parse, a + b).0
                =~= read_lines_by(parse, a + b).0);
        },
        Some(p) => {
            lemma_newline_prefix(a, b, 0);
            lemma_newline_bounds(a, 0);
            let rest = a.subrange(p + 1, a.len() as int);
            let ab = a + b;
            assert(ab.subrange(0, p + 1) =~= a.subrange(0, p + 1));
            assert(ab.subrange(p + 1, ab.len() as int) =~= rest + b);
            lemma_read_lines_split(parse, rest, b);
            let x = read_lines_by(parse, read_lines_by(parse, rest).1 + b);
            match line_chunk(parse, a.subrange(0, p + 1)) {
                None => {},
                Some(c) => {
                    let t = chunk_tokens(c);
                    assert(t + (read_lines_by(parse, rest).0 + x.0) =~= (t + read_lines_by(parse, rest).0) + x.0);
                },
            }
        },
    }
}

/// A newline found is within the bytes and is a newline.
proof fn lemma_newline_bounds(b: Seq<u8>, i: int)
    ensures
        newline_from(b, i) matches Some(p) ==> 0 <= i <= p < b.len() && b[p] == 10u8,
    decreases b.len() - i,
{
    if !(i < 0 || i >= b.len()) && b[i] != 10u8 {
        lemma_newline_bounds(b, i + 1);
    }
}

/// The text of the pieces `toks`, in order.
pub open spec fn tokens_text(toks: Seq<(Seq<char>, Option<(u64, u64)>)>) -> Seq<char>
    decreases toks.len(),
{
    if toks.len() == 0 {
        seq![]
    } else {
        tokens_text(toks.drop_last()) + toks.last().0
    }
}

/// The content of the pieces `toks`.
pub open spec fn token_views(toks: Seq<StreamToken>) -> Seq<(Seq<char>, Option<(u64, u64)>)> {
    toks.map_values(|t: StreamToken| (t.content@, t.eval))
}

proof fn lemma_tokens_text_concat(a: Seq<(Seq<char>, Option<(u64, u64)>)>, b: Seq<(Seq<char>, Option<(u64, u64)>)>)
    ensures
        tokens_text(a + b) == tokens_text(a) + tokens_text(b),
    decreases b.len(),
{
    if b.len() == 0 {
        assert(a + b =~= a);
    } else {
        lemma_tokens_text_concat(a, b.drop_last());
        assert((a + b).drop_last() =~= a + b.drop_last());
    }
}

/// The first newline of `b` at or after `from`.
fn find_newline(b: &Vec<u8>, from: usize) -> (r: Option<usize>)
    requires
        from <= b.len(),
    ensures
        match r {
            Some(p) => newline_from(b@, from as int) == Some(p as int) && from <= p < b.len(),
            None => newline_from(b@, from as int) is None,
        },
    decreases b.len() - from,
{
    if from == b.len() {
        None
    } else if b[from] == 10u8 {
        Some(from)
    } else {
        find_newline(b, from + 1)
    }
}

/// The bytes of `b` from `lo` to `hi`.
fn copy_bytes(b: &Vec<u8>, lo: usize, hi: usize) -> (r: Vec<u8>)
    requires
        lo <= hi <= b.len(),
    ensures
        r@ == b@.subrange(lo as int, hi as int),
{
    let mut r: Vec<u8> = Vec::new();
    let mut i: usize = lo;
    while i < hi
        invariant
            lo <= i <= hi <= b.len(),
            r@ == b@.subrange(lo as int, i as int),
        decreases hi - i,
    {
        r.push(b[i]);
        assert(b@.subrange(lo as int, i + 1) =~= b@.subrange(lo as int, i as int).push(b@[i as int]));
        i = i + 1;
    }
    r
}

/// The reading of one streamed reply: the text received so far and the bytes
/// of a line not yet complete.
pub struct ChatStream {
    response: Vec<char>,
    pending: Vec<u8>,
}

impl ChatStream {
    pub closed spec fn spec_response(&self) -> Seq<char> {
        self.response@
    }

    pub closed spec fn spec_pending(&self) -> Seq<u8> {
        self.pending@
    }

    /// Nothing received yet.
    pub fn new() -> (r: Self)
        ensures
            r.spec_response() == Seq::<char>::empty(),
            r.spec_pending() == Seq::<u8>::empty(),
    {
        ChatStream { response: Vec::new(), pending: Vec::new() }
    }

    /// Takes in a piece of the reply: its bytes join what is pending. Hands
    /// back the texts of the complete, non-blank lines now pending, in order,
    /// for the caller to read as chunks and hand to `read_chunks`.
    pub fn feed(&mut self, chunk: &[u8]) -> (texts: Vec<String>)
        ensures
            final(self).spec_pending() == old(self).spec_pending() + chunk@,
            final(self).spec_response() == old(self).spec_response(),
            text_views(texts@) == line_texts(final(self).spec_pending()),
    {
        let mut i: usize = 0;
        let ghost start = self.pending@;
        while i < chunk.len()
            invariant
                i <= chunk.len(),
                self.pending@ == start + chunk@.subrange(0, i as int),
                self.response@ == old(self).response@,
            decreases chunk.len() - i,
        {
            self.pending.push(chunk[i]);
            assert(chunk@.subrange(0, i + 1) =~= chunk@.subrange(0, i as int).push(chunk@[i as int]));
            i = i + 1;
        }
        assert(chunk@.subrange(0, chunk.len() as int) =~= chunk@);
        let mut texts: Vec<String> = Vec::new();
        let mut cur: Vec<u8> = copy_bytes(&self.pending, 0, self.pending.len());
        assert(cur@ =~= self.pending@);
        let mut finished = false;
        while !finished
            invariant
                finished ==> line_texts(self.pending@) == text_views(texts@),
                !finished ==> line_texts(self.pending@) == text_views(texts@) + line_texts(cur@),
            decreases cur@.len() + (if finished { 0int } else { 1int }),
        {
            match find_newline(&cur, 0) {
                None => {
                    finished = true;
                    assert(text_views(texts@) + Seq::<Seq<char>>::empty() =~= text_views(texts@));
                },
                Some(p) => {
                    let n = cur.len();
                    let line = copy_bytes(&cur, 0, p + 1);
                    let rest = copy_bytes(&cur, p + 1, n);
                    let text = trim_string(utf8_lossy(line.as_slice()).as_str());
                    let tv = chars_of(text.as_str());
                    let ghost before = text_views(texts@);
                    if tv.len() > 0 {
                        texts.push(text);
                        assert(text_views(texts@) =~= before.push(line_text(line@)));
                        assert(before + (seq![line_text(line@)] + line_texts(rest@)) =~= text_views(texts@)
                            + line_texts(rest@));
                    }
                    cur = rest;
                },
            }
        }
        texts
    }

    /// Reads the complete lines pending, the non-blank ones standing, in
    /// order, for the chunks `chunks` (none where a line did not read as a
    /// chunk): the content of each chunk's message, when not empty, is added
    /// to the response and handed back as a piece with the chunk's counters.
    /// Blank lines are skipped; a chunk that is done ends the reading, and the
    /// lines after it stay pending.
    pub fn read_chunks(&mut self, chunks: Vec<Option<OllamaStreamChunk>>) -> (toks: Vec<StreamToken>)
        ensures
            token_views(toks@) == read_lines(chunk_views(chunks@), old(self).spec_pending()).0,
            final(self).spec_pending() == read_lines(chunk_views(chunks@), old(self).spec_pending()).1,
            final(self).spec_response() == old(self).spec_response() + tokens_text(token_views(toks@)),
    {
        let ghost all = self.pending@;
        let ghost cs = chunk_views(chunks@);
        let ghost old_response = self.response@;
        let mut toks: Vec<StreamToken> = Vec::new();
        let mut k: usize = 0;
        let mut finished = false;
        assert(cs.subrange(0, cs.len() as int) =~= cs);
        while !finished
            invariant
                k <= chunks.len(),
                cs == chunk_views(chunks@),
                finished ==> read_lines(cs, all) == (token_views(toks@), self.pending@),
                !finished ==> read_lines(cs, all) == (
                    token_views(toks@) + read_lines(cs.subrange(k as int, cs.len() as int), self.pending@).0,
                    read_lines(cs.subrange(k as int, cs.len() as int), self.pending@).1,
                ),
                self.response@ == old_response + tokens_text(token_views(toks@)),
            decreases self.pending@.len() + (if finished { 0int } else { 1int }),
        {
            match find_newline(&self.pending, 0) {
                None => {
                    finished = true;
                    assert(token_views(toks@) + Seq::<(Seq<char>, Option<(u64, u64)>)>::empty()
                        =~= token_views(toks@));
                },
                Some(p) => {
                    let n = self.pending.len();
                    let line = copy_bytes(&self.pending, 0, p + 1);
                    let rest = copy_bytes(&self.pending, p + 1, n);
                    let ghost before = self.pending@;
                    let ghost rem = cs.subrange(k as int, cs.len() as int);
                    proof {
                        assert(before.subrange(0, p + 1) =~= line@);
                    }
                    self.pending = rest;
                    let text = trim_string(utf8_lossy(line.as_slice()).as_str());
                    let tv = chars_of(text.as_str());
                    if tv.len() > 0 && k < chunks.len() {
                        proof {
                            assert(rem.drop_first() =~= cs.subrange(k + 1, cs.len() as int));
                            assert(rem[0] == cs[k as int]);
                        }
                        match &chunks[k] {
                            None => {},
                            Some(c) => {
                                let ghost cv = chunk_view(*c);
                                assert(cs[k as int] == Some(cv));
                                let ghost prev = token_views(toks@);
                                let ghost rl = read_lines(cs.subrange(k + 1, cs.len() as int), self.pending@);
                                match &c.message {
                                    Some(m) => {
                                        let cl = chars_of(m.content.as_str());
                                        if cl.len() > 0 {
                                            let eval = match (c.eval_count, c.eval_duration) {
                                                (Some(x), Some(d)) => if d > 0 {
                                                    Some((x, d))
                                                } else {
                                                    None
                                                },
                                                _ => None,
                                            };
                                            push_all(&mut self.response, &cl);
                                            let content = m.content.clone();
                                            toks.push(StreamToken { content, eval });
                                            proof {
                                                assert(eval == eval_pair(cv));
                                                assert(token_views(toks@) =~= prev + chunk_tokens(cv));
                                                lemma_tokens_text_concat(prev, chunk_tokens(cv));
                                                let one = chunk_tokens(cv);
                                                assert(one.drop_last() =~= Seq::<
                                                    (Seq<char>, Option<(u64, u64)>),
                                                >::empty());
                                                assert(tokens_text(one.drop_last()) =~= Seq::<char>::empty());
                                                assert(tokens_text(one) =~= m.content@);
                                            }
                                        } else {
                                            assert(token_views(toks@) =~= prev + chunk_tokens(cv));
                                        }
                                    },
                                    None => {
                                        assert(token_views(toks@) =~= prev + chunk_tokens(cv));
                                    },
                                }
                                proof {
                                    assert(prev + chunk_tokens(cv) + rl.0 =~= prev + (chunk_tokens(cv) + rl.0));
                                }
                                if c.done {
                                    finished = true;
                                }
                            },
                        }
                        k = k + 1;
                    }
                },
            }
        }
        toks
    }

    /// The text received so far.
    pub fn response(&self) -> (r: String)
        ensures
            r@ == self.spec_response(),
    {
        string_from_chars(self.response.as_slice())
    }
}

} // verus!
