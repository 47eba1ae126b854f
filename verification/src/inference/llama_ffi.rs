//! The llama.cpp session: model and context parameters, the KV-cache types
//! with TurboQuant support, the ChatML prompt, and the session's state.
use vstd::prelude::*;

use std::sync::atomic::AtomicBool;
use std::sync::Arc;

use crate::rag::parsers::{path_extension, path_extension_spec};
use crate::text::{concat_str, push_str_chars, str_eq, string_from_chars};

verus! {

/// KV-cache quantization type, as llama.cpp's GGML types.
#[derive(Debug, Clone, Copy, PartialEq, Eq)]
pub enum KvCacheType {
    F16,
    Q8_0,
    Q4_0,
    /// GGML_TYPE_TQ3_0
    Turbo3,
    /// GGML_TYPE_TQ4_0
    Turbo4,
}

/// The cache type for `bits` bits: 3 and 4 are TurboQuant, 8 is Q8_0, 16 is
/// F16, and anything else falls back to TurboQuant 3-bit.
pub open spec fn cache_type_for_bits(bits: u8) -> KvCacheType {
    if bits == 4 {
        KvCacheType::Turbo4
    } else if bits == 8 {
        KvCacheType::Q8_0
    } else if bits == 16 {
        KvCacheType::F16
    } else {
        KvCacheType::Turbo3
    }
}

impl KvCacheType {
    /// The cache type for a bit width.
    pub fn from_tq_bits(bits: u8) -> (r: Self)
        ensures
            r == cache_type_for_bits(bits),
    {
        match bits {
            3 => KvCacheType::Turbo3,
            4 => KvCacheType::Turbo4,
            8 => KvCacheType::Q8_0,
            16 => KvCacheType::F16,
            _ => KvCacheType::Turbo3,
        }
    }

    /// The GGML type number llama.cpp uses for this cache type.
    pub fn ggml_type(&self) -> (r: i32)
        ensures
            r == (match *self {
                KvCacheType::F16 => 0i32,
                KvCacheType::Q8_0 => 8i32,
                KvCacheType::Q4_0 => 2i32,
                KvCacheType::Turbo3 => 30i32,
                KvCacheType::Turbo4 => 31i32,
            }),
    {
        match self {
            KvCacheType::F16 => 0,
            KvCacheType::Q8_0 => 8,
            KvCacheType::Q4_0 => 2,
            KvCacheType::Turbo3 => 30,
            KvCacheType::Turbo4 => 31,
        }
    }
}

/// Model parameters for loading.
#[derive(Debug, Clone, Copy)]
pub struct ModelParams {
    pub n_gpu_layers: i32,
    pub use_mmap: bool,
    pub use_mlock: bool,
}

impl Default for ModelParams {
    /// All layers on the GPU, memory-mapped, not locked.
    fn default() -> (r: Self)
        ensures
            r.n_gpu_layers == -1,
            r.use_mmap,
            !r.use_mlock,
    {
        ModelParams { n_gpu_layers: -1, use_mmap: true, use_mlock: false }
    }
}

/// Context parameters for inference.
#[derive(Debug, Clone, Copy)]
pub struct ContextParams {
    pub n_ctx: u32,
    pub n_batch: u32,
    pub n_threads: u32,
    pub cache_type_k: KvCacheType,
    pub cache_type_v: KvCacheType,
    pub flash_attn: bool,
}

/// A 64K context, batches of 512, four threads, TurboQuant 3-bit keys and
/// values, flash attention.
pub open spec fn default_context_params() -> ContextParams {
    ContextParams {
        n_ctx: 65536,
        n_batch: 512,
        n_threads: 4,
        cache_type_k: KvCacheType::Turbo3,
        cache_type_v: KvCacheType::Turbo3,
        flash_attn: true,
    }
}

impl Default for ContextParams {
    /// The parameters of `default_context_params`.
    fn default() -> (r: Self)
        ensures
            r == default_context_params(),
    {
        ContextParams {
            n_ctx: 65536,
            n_batch: 512,
            n_threads: 4,
            cache_type_k: KvCacheType::Turbo3,
            cache_type_v: KvCacheType::Turbo3,
            flash_attn: true,
        }
    }
}

/// One message of a ChatML prompt.
pub open spec fn chatml_message(role: Seq<char>, content: Seq<char>) -> Seq<char> {
    "<|im_start|>"@ + role + "\n"@ + content + "<|im_end|>\n"@
}

/// The ChatML messages for (role, content) pairs, in order.
pub open spec fn chatml_messages(messages: Seq<(String, String)>) -> Seq<char>
    decreases messages.len(),
{
    if messages.len() == 0 {
        seq![]
    } else {
        chatml_messages(messages.drop_last()) + chatml_message(
            messages.last().0@,
            messages.last().1@,
        )
    }
}

/// A ChatML prompt: each message in turn, then the opening of the
/// assistant's turn.
pub fn build_chatml_prompt(messages: &Vec<(String, String)>) -> (r: String)
    ensures
        r@ == chatml_messages(messages@) + "<|im_start|>assistant\n"@,
{
    let mut v: Vec<char> = Vec::new();
    let mut i: usize = 0;
    assert(messages@.subrange(0, 0) =~= Seq::<(String, String)>::empty());
    while i < messages.len()
        invariant
            i <= messages.len(),
            v@ == chatml_messages(messages@.subrange(0, i as int)),
        decreases messages.len() - i,
    {
        push_str_chars(&mut v, "<|im_start|>");
        push_str_chars(&mut v, messages[i].0.as_str());
        push_str_chars(&mut v, "\n");
        push_str_chars(&mut v, messages[i].1.as_str());
        push_str_chars(&mut v, "<|im_end|>\n");
        proof {
            let sub = messages@.subrange(0, i + 1);
            assert(sub.drop_last() =~= messages@.subrange(0, i as int));
            assert(sub.last() == messages@[i as int]);
        }
        i = i + 1;
    }
    assert(messages@.subrange(0, messages.len() as int) =~= messages@);
    push_str_chars(&mut v, "<|im_start|>assistant\n");
    string_from_chars(v.as_slice())
}

/// A new stop flag, lowered.
pub(crate) fn new_flag() -> (r: Arc<AtomicBool>) {
    Arc::new(AtomicBool::new(false))
}

/// Calls `Arc::clone`: another pointer to the same flag.
#[verifier::external_body]
pub fn share_flag(flag: &Arc<AtomicBool>) -> (r: Arc<AtomicBool>)
    ensures
        r == *flag,
{
    flag.clone()
}

/// Raises a stop flag (`AtomicBool::store` of `true`, relaxed).
pub fn raise_flag(flag: &Arc<AtomicBool>) {
    flag.store(true, std::sync::atomic::Ordering::Relaxed);
}

/// Lowers a stop flag (`AtomicBool::store` of `false`, relaxed).
pub fn lower_flag(flag: &Arc<AtomicBool>) {
    flag.store(false, std::sync::atomic::Ordering::Relaxed);
}

/// Reads a stop flag (`AtomicBool::load`, relaxed).
pub fn read_flag(flag: &Arc<AtomicBool>) -> bool {
    flag.load(std::sync::atomic::Ordering::Relaxed)
}

/// The error for a model file that is not a GGUF file.
pub open spec fn extension_error(ext: Seq<char>) -> Seq<char> {
    "Expected .gguf file, got ."@ + ext
}

/// A llama.cpp model and context.
pub struct LlamaSession {
    model_path: String,
    ctx_params: ContextParams,
    stop_flag: Arc<AtomicBool>,
    is_loaded: bool,
}

impl LlamaSession {
    pub closed spec fn spec_model_path(&self) -> Seq<char> {
        self.model_path@
    }

    pub closed spec fn spec_ctx_params(&self) -> ContextParams {
        self.ctx_params
    }

    pub closed spec fn spec_loaded(&self) -> bool {
        self.is_loaded
    }

    pub closed spec fn spec_stop_flag(&self) -> Arc<AtomicBool> {
        self.stop_flag
    }

    /// A session with no model, default context parameters and a lowered
    /// stop flag.
    pub fn new() -> (r: Self)
        ensures
            r.spec_model_path() == Seq::<char>::empty(),
            r.spec_ctx_params() == default_context_params(),
            !r.spec_loaded(),
    {
        LlamaSession {
            model_path: String::new(),
            ctx_params: ContextParams::default(),
            stop_flag: new_flag(),
            is_loaded: false,
        }
    }

    /// Loads the model at `path`: a path whose extension (as `Path::extension`
    /// gives it, empty when there is none) is anything but `gguf` is refused
    /// and changes nothing; otherwise the path and context parameters are
    /// kept and the session is loaded. (That the file exists is the caller's
    /// check.)
    pub fn load_model(&mut self, path: &str, _model_params: &ModelParams, ctx_params: &ContextParams) -> (r:
        Result<(), String>)
        ensures
            path_extension_spec(path@) != Some("gguf"@) ==> (r matches Err(e) && e@ == extension_error(
                match path_extension_spec(path@) {
                    Some(x) => x,
                    None => Seq::<char>::empty(),
                },
            )) && *final(self) == *old(self),
            path_extension_spec(path@) == Some("gguf"@) ==> r is Ok && final(self).spec_model_path() == path@
                && final(self).spec_ctx_params() == *ctx_params && final(self).spec_loaded()
                && final(self).spec_stop_flag() == old(self).spec_stop_flag(),
    {
        let extension = match path_extension(path) {
            Some(e) => e,
            None => String::new(),
        };
        proof {
            reveal_strlit("gguf");
        }
        assert(extension@ == match path_extension_spec(path@) {
            Some(x) => x,
            None => Seq::<char>::empty(),
        });
        if !str_eq(extension.as_str(), "gguf") {
            return Err(concat_str("Expected .gguf file, got .", extension.as_str()));
        }
        self.model_path = String::from_str(path);
        self.ctx_params = *ctx_params;
        self.is_loaded = true;
        Ok(())
    }

    /// Begins a generation over (role, content) `messages`: refused when no
    /// model is loaded; otherwise lowers the stop flag and gives the ChatML
    /// prompt.
    pub fn prepare_generation(&self, messages: &Vec<(String, String)>) -> (r: Result<String, String>)
        ensures
            !self.spec_loaded() ==> (r matches Err(e) && e@ == "No model loaded"@),
            self.spec_loaded() ==> (r matches Ok(p) && p@ == chatml_messages(messages@)
                + "<|im_start|>assistant\n"@),
    {
        if !self.is_loaded {
            return Err(String::from_str("No model loaded"));
        }
        lower_flag(&self.stop_flag);
        Ok(build_chatml_prompt(messages))
    }

    /// Signals the generation loop to stop.
    pub fn stop(&self) {
        raise_flag(&self.stop_flag);
    }

    /// Whether a model is loaded.
    pub fn is_loaded(&self) -> (r: bool)
        ensures
            r == self.spec_loaded(),
    {
        self.is_loaded
    }

    /// The stop flag, shared with the generation loop.
    pub fn stop_flag(&self) -> (r: Arc<AtomicBool>)
        ensures
            r == self.spec_stop_flag(),
    {
        share_flag(&self.stop_flag)
    }

    /// The path of the loaded model.
    pub fn model_path(&self) -> (r: &String)
        ensures
            r@ == self.spec_model_path(),
    {
        &self.model_path
    }

    /// The context parameters of the loaded model.
    pub fn ctx_params(&self) -> (r: ContextParams)
        ensures
            r == self.spec_ctx_params(),
    {
        self.ctx_params
    }
}

/// The pieces of `size` bytes that `data` is handed out in, the last one
/// shorter when `size` does not divide the length (what `slice::chunks` gives).
pub open spec fn byte_pieces_spec(data: Seq<u8>, size: nat) -> Seq<Seq<u8>>
    decreases data.len(),
{
    if data.len() == 0 || size == 0 {
        seq![]
    } else if data.len() <= size {
        seq![data]
    } else {
        seq![data.subrange(0, size as int)] + byte_pieces_spec(data.subrange(size as int, data.len() as int), size)
    }
}

/// Cuts `data` into pieces of `size` bytes, the last one possibly shorter.
pub fn byte_pieces(data: &[u8], size: usize) -> (r: Vec<Vec<u8>>)
    requires
        size > 0,
    ensures
        r@.map_values(|p: Vec<u8>| p@) == byte_pieces_spec(data@, size as nat),
{
    let mut r: Vec<Vec<u8>> = Vec::new();
    let mut start: usize = 0;
    proof {
        assert(data@.subrange(0, data.len() as int) =~= data@);
        assert(r@.map_values(|p: Vec<u8>| p@) + byte_pieces_spec(data@, size as nat) =~= byte_pieces_spec(
            data@,
            size as nat,
        ));
    }
    while start < data.len()
        invariant
            size > 0,
            start <= data.len(),
            r@.map_values(|p: Vec<u8>| p@) + byte_pieces_spec(data@.subrange(start as int, data.len() as int), size as nat)
                == byte_pieces_spec(data@, size as nat),
        decreases data.len() - start,
    {
        let end: usize = if data.len() - start <= size {
            data.len()
        } else {
            start + size
        };
        let mut piece: Vec<u8> = Vec::new();
        let mut i: usize = start;
        while i < end
            invariant
                start <= i <= end <= data.len(),
                piece@ == data@.subrange(start as int, i as int),
            decreases end - i,
        {
            piece.push(data[i]);
            assert(data@.subrange(start as int, i + 1) =~= data@.subrange(start as int, i as int).push(data@[i as int]));
            i = i + 1;
        }
        let ghost rest = data@.subrange(start as int, data.len() as int);
        let ghost before = r@.map_values(|p: Vec<u8>| p@);
        r.push(piece);
        proof {
            assert(r@.map_values(|p: Vec<u8>| p@) =~= before.push(data@.subrange(start as int, end as int)));
            if rest.len() <= size {
                assert(rest =~= data@.subrange(start as int, end as int));
                assert(data@.subrange(end as int, data.len() as int) =~= Seq::<u8>::empty());
                assert(byte_pieces_spec(rest, size as nat) == seq![rest]);
            } else {
                assert(rest.subrange(0, size as int) =~= data@.subrange(start as int, end as int));
                assert(rest.subrange(size as int, rest.len() as int) =~= data@.subrange(end as int, data.len() as int));
            }
            assert(before.push(data@.subrange(start as int, end as int)) + byte_pieces_spec(
                data@.subrange(end as int, data.len() as int),
                size as nat,
            ) =~= before + byte_pieces_spec(rest, size as nat));
        }
        start = end;
    }
    proof {
        assert(data@.subrange(start as int, data.len() as int) =~= Seq::<u8>::empty());
        assert(r@.map_values(|p: Vec<u8>| p@) + Seq::<Seq<u8>>::empty() =~= r@.map_values(|p: Vec<u8>| p@));
    }
    r
}

/// Cutting into pieces loses and adds nothing: the pieces, put back
/// together, are the data; none is empty, none is longer than `size`, and
/// all but the last are exactly `size` bytes long.
pub proof fn lemma_byte_pieces(data: Seq<u8>, size: nat)
    requires
        size > 0,
    ensures
        byte_pieces_spec(data, size).flatten() == data,
        forall|k: int|
            0 <= k < byte_pieces_spec(data, size).len() ==> 0 < (#[trigger] byte_pieces_spec(data, size)[k]).len()
                <= size,
        forall|k: int|
            0 <= k < byte_pieces_spec(data, size).len() - 1 ==> (#[trigger] byte_pieces_spec(data, size)[k]).len()
                == size,
    decreases data.len(),
{
    let ps = byte_pieces_spec(data, size);
    if data.len() == 0 {
    } else if data.len() <= size {
        assert(ps.drop_first() =~= Seq::<Seq<u8>>::empty());
        assert(ps.drop_first().flatten() =~= Seq::<u8>::empty());
        assert(ps.flatten() =~= data + Seq::<u8>::empty());
    } else {
        let rest = data.subrange(size as int, data.len() as int);
        lemma_byte_pieces(rest, size);
        let rp = byte_pieces_spec(rest, size);
        assert(ps.drop_first() =~= rp);
        assert(ps.first() == data.subrange(0, size as int));
        assert(ps.flatten() == data.subrange(0, size as int) + rp.flatten());
        assert(data =~= data.subrange(0, size as int) + rest);
        assert forall|k: int| 0 <= k < ps.len() implies 0 < (#[trigger] ps[k]).len() <= size by {
            if k > 0 {
                assert(ps[k] == rp[k - 1]);
            }
        }
        assert forall|k: int| 0 <= k < ps.len() - 1 implies (#[trigger] ps[k]).len() == size by {
            if k > 0 {
                assert(ps[k] == rp[k - 1]);
            }
        }
    }
}

/// What the generation loop does next.
#[derive(Debug, Clone, Copy, PartialEq, Eq)]
pub enum GenAction {
    /// Offer the piece with this index to the token callback.
    SendPiece(usize),
    /// Send the final empty piece, marked as the last, and stop.
    FinishDone,
}

/// The first action of a generation whose reply comes in `n_pieces` pieces:
/// the first piece, or at once the end when there is none.
pub fn generation_start(n_pieces: usize) -> (r: GenAction)
    ensures
        n_pieces > 0 ==> r == GenAction::SendPiece(0),
        n_pieces == 0 ==> r == GenAction::FinishDone,
{
    if n_pieces > 0 {
        GenAction::SendPiece(0)
    } else {
        GenAction::FinishDone
    }
}

/// One step of the generation loop, at piece `index` of `n_pieces` with `sent`
/// pieces sent so far. A raised stop flag (checked before the piece is
/// offered) or a refusal by the token callback ends the loop without counting
/// the piece; an accepted piece is counted, and the loop goes on to the next
/// piece, or ends after the last one.
pub fn generation_step(sent: u32, index: usize, n_pieces: usize, stop_raised: bool, accepted: bool) -> (r: (
    u32,
    GenAction,
))
    requires
        sent < u32::MAX,
        index < n_pieces,
    ensures
        stop_raised || !accepted ==> r == (sent, GenAction::FinishDone),
        !stop_raised && accepted && index + 1 < n_pieces ==> r == ((sent + 1) as u32, GenAction::SendPiece(
            (index + 1) as usize,
        )),
        !stop_raised && accepted && index + 1 == n_pieces ==> r == ((sent + 1) as u32, GenAction::FinishDone),
        r == generation_next(sent, index, n_pieces, stop_raised, accepted),
{
    if stop_raised || !accepted {
        (sent, GenAction::FinishDone)
    } else if index + 1 < n_pieces {
        (sent + 1, GenAction::SendPiece(index + 1))
    } else {
        (sent + 1, GenAction::FinishDone)
    }
}

/// The step of the generation loop as a function of what it sees: the count
/// of pieces sent and the next action.
pub open spec fn generation_next(sent: u32, index: usize, n_pieces: usize, stop_raised: bool, accepted: bool) -> (
    u32,
    GenAction,
) {
    if stop_raised || !accepted {
        (sent, GenAction::FinishDone)
    } else if index + 1 < n_pieces {
        ((sent + 1) as u32, GenAction::SendPiece((index + 1) as usize))
    } else {
        ((sent + 1) as u32, GenAction::FinishDone)
    }
}

/// The count of pieces sent when the loop goes on from `action` with `sent`
/// pieces sent, the stop flag and the callback answering as `obs` says, one
/// (stop raised, piece accepted) pair per piece offered.
pub open spec fn generation_run(sent: u32, action: GenAction, n_pieces: usize, obs: Seq<(bool, bool)>) -> u32
    decreases obs.len(),
{
    match action {
        GenAction::FinishDone => sent,
        GenAction::SendPiece(index) => if obs.len() == 0 {
            sent
        } else {
            let next = generation_next(sent, index, n_pieces, obs[0].0, obs[0].1);
            generation_run(next.0, next.1, n_pieces, obs.drop_first())
        },
    }
}

/// How many answers in a row, from the first, leave the stop flag down and
/// accept the piece.
pub open spec fn leading_accepted(obs: Seq<(bool, bool)>) -> nat
    decreases obs.len(),
{
    if obs.len() > 0 && !obs[0].0 && obs[0].1 {
        1 + leading_accepted(obs.drop_first())
    } else {
        0
    }
}

proof fn lemma_generation_run_from(sent: u32, index: usize, n_pieces: usize, obs: Seq<(bool, bool)>)
    requires
        index < n_pieces <= u32::MAX,
        sent == index,
    ensures
        generation_run(sent, GenAction::SendPiece(index), n_pieces, obs) == index + (if leading_accepted(obs)
            < n_pieces - index {
            leading_accepted(obs)
        } else {
            (n_pieces - index) as nat
        }),
    decreases obs.len(),
{
    if obs.len() > 0 && !obs[0].0 && obs[0].1 {
        let next = generation_next(sent, index, n_pieces, obs[0].0, obs[0].1);
        assert(generation_run(sent, GenAction::SendPiece(index), n_pieces, obs) == generation_run(
            next.0,
            next.1,
            n_pieces,
            obs.drop_first(),
        ));
        assert(leading_accepted(obs) == 1 + leading_accepted(obs.drop_first()));
        if index + 1 < n_pieces {
            lemma_generation_run_from((sent + 1) as u32, (index + 1) as usize, n_pieces, obs.drop_first());
        } else {
            assert(next.1 == GenAction::FinishDone);
        }
    } else {
        if obs.len() > 0 {
            let next = generation_next(sent, index, n_pieces, obs[0].0, obs[0].1);
            assert(next == (sent, GenAction::FinishDone));
            assert(generation_run(sent, GenAction::SendPiece(index), n_pieces, obs) == generation_run(
                next.0,
                next.1,
                n_pieces,
                obs.drop_first(),
            ));
        }
    }
}

/// The generation loop streams the pieces that the callback accepts before
/// the stop flag is raised or a piece is refused: it counts as sent exactly
/// the leading run of accepted pieces, and all of them when that run covers
/// the whole reply.
pub proof fn lemma_generation_sends_accepted(n_pieces: usize, obs: Seq<(bool, bool)>)
    requires
        n_pieces <= u32::MAX,
    ensures
        generation_run(
            0,
            if n_pieces > 0 {
                GenAction::SendPiece(0)
            } else {
                GenAction::FinishDone
            },
            n_pieces,
            obs,
        ) == if leading_accepted(obs) < n_pieces {
            leading_accepted(obs)
        } else {
            n_pieces as nat
        },
{
    if n_pieces > 0 {
        lemma_generation_run_from(0, 0, n_pieces, obs);
    }
}

/// The rough number of tokens of a prompt of `prompt_len` bytes: a quarter of
/// its length taken as a 32-bit number.
pub fn prompt_token_estimate(prompt_len: usize) -> (r: u32)
    ensures
        r == (prompt_len as u32) / 4,
{
    (prompt_len as u32) / 4
}

/// The last `/`-separated part of a model path (what the session names the
/// model by).
pub open spec fn last_segment(path: Seq<char>) -> Seq<char>
    decreases path.len(),
{
    if path.len() == 0 {
        path
    } else if path.last() == '/' {
        Seq::<char>::empty()
    } else {
        last_segment(path.drop_last()).push(path.last())
    }
}

/// The last `/`-separated part of `path`.
pub fn model_file_name(path: &str) -> (r: String)
    ensures
        r@ == last_segment(path@),
{
    let v = crate::text::chars_of(path);
    let mut start: usize = 0;
    let mut i: usize = 0;
    while i < v.len()
        invariant
            start <= i <= v.len(),
            last_segment(v@.subrange(0, i as int)) == v@.subrange(start as int, i as int),
        decreases v.len() - i,
    {
        proof {
            let sub = v@.subrange(0, i + 1);
            assert(sub.drop_last() =~= v@.subrange(0, i as int));
            assert(sub.last() == v@[i as int]);
        }
        if v[i] == '/' {
            start = i + 1;
            assert(v@.subrange(start as int, i + 1) =~= Seq::<char>::empty());
        } else {
            assert(v@.subrange(start as int, i + 1) =~= v@.subrange(start as int, i as int).push(
                v@[i as int],
            ));
        }
        i = i + 1;
    }
    assert(v@.subrange(0, v.len() as int) =~= v@);
    let piece = crate::text::copy_range(&v, start, v.len());
    string_from_chars(piece.as_slice())
}

} // verus!
