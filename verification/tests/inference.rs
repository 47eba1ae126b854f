use nexusai::inference::download::{
    content_length, hf_download_url, is_gguf_path, parse_u64, plan_download, response_accepted,
    sha256_hex_of, verify_sha256, DownloadCounter, DownloadPlan,
};
use nexusai::inference::llama_ffi::{
    build_chatml_prompt, byte_pieces, generation_start, generation_step, GenAction, model_file_name, prompt_token_estimate, read_flag,
    ContextParams, KvCacheType, LlamaSession, ModelParams,
};
use nexusai::inference::tq_config::TurboQuantConfig;
use nexusai::inference::{
    catalog_id_to_ollama, ChatStream, OllamaStreamChunk, InferenceEngine, OllamaMessage,
};
use nexusai::json::JsonValue;
use nexusai::text::decimal_string;

#[test]
fn download_url_of_a_repository_file() {
    assert_eq!(
        hf_download_url("Qwen/Qwen3-8B-GGUF", "qwen3-8b-q4_k_m.gguf"),
        "https://huggingface.co/Qwen/Qwen3-8B-GGUF/resolve/main/qwen3-8b-q4_k_m.gguf"
    );
}

#[test]
fn plan_for_a_whole_file_fetches_nothing() {
    assert!(matches!(plan_download(1000, 1000), DownloadPlan::Complete));
}

#[test]
fn plan_for_a_partial_file_resumes_from_its_end() {
    match plan_download(4096, 10000) {
        DownloadPlan::Resume(range) => assert_eq!(range, "bytes=4096-"),
        _ => panic!("expected a resumed download"),
    }
    // a size the server did not give cannot be complete
    match plan_download(0, 0) {
        DownloadPlan::Fresh => {}
        _ => panic!("expected a fresh download"),
    }
    match plan_download(12, 0) {
        DownloadPlan::Resume(range) => assert_eq!(range, "bytes=12-"),
        _ => panic!("expected a resumed download"),
    }
}

#[test]
fn plan_without_a_file_fetches_everything() {
    assert!(matches!(plan_download(0, 5000), DownloadPlan::Fresh));
}

#[test]
fn accepted_download_statuses() {
    assert!(response_accepted(200));
    assert!(response_accepted(206));
    assert!(response_accepted(299));
    assert!(!response_accepted(199));
    assert!(!response_accepted(302));
    assert!(!response_accepted(404));
    assert!(!response_accepted(500));
}

#[test]
fn unsigned_numbers_parse_as_the_standard_library_does() {
    assert_eq!(parse_u64("123"), Some(123));
    assert_eq!(parse_u64("+7"), Some(7));
    assert_eq!(parse_u64("0"), Some(0));
    assert_eq!(parse_u64("007"), Some(7));
    assert_eq!(parse_u64("18446744073709551615"), Some(u64::MAX));
    assert_eq!(parse_u64("18446744073709551616"), None);
    assert_eq!(parse_u64(""), None);
    assert_eq!(parse_u64("+"), None);
    assert_eq!(parse_u64("-1"), None);
    assert_eq!(parse_u64("12a"), None);
    assert_eq!(parse_u64(" 12"), None);
    for s in ["123", "+7", "", "+", "-1", "12a", "99999999999999999999", "٣"] {
        assert_eq!(parse_u64(s), s.parse::<u64>().ok(), "{}", s);
    }
}

#[test]
fn written_numbers_read_back() {
    for n in [0u64, 9, 10, 4096, 123456789, u64::MAX] {
        assert_eq!(parse_u64(&decimal_string(n)), Some(n));
    }
}

#[test]
fn content_length_defaults_to_zero() {
    assert_eq!(content_length(Some("19500000000")), 19_500_000_000);
    assert_eq!(content_length(Some("unknown")), 0);
    assert_eq!(content_length(None), 0);
}

#[test]
fn counter_adds_received_pieces() {
    let mut c = DownloadCounter::new(100, 1000);
    assert_eq!(c.downloaded(), 100);
    assert_eq!(c.remaining(), 900);
    c.record(400);
    c.record(250);
    assert_eq!(c.downloaded(), 750);
    assert_eq!(c.transferred(), 650);
    assert_eq!(c.remaining(), 250);
    assert_eq!(c.total(), 1000);
    c.record(500);
    assert_eq!(c.remaining(), 0);
}

#[test]
fn sha256_of_known_text() {
    let h = sha256_hex_of(b"hello world");
    assert_eq!(h, "b94d27b9934d3e08a52e52d7da7dabfac484efe37a5380ee9088f7ace2efcde9");
    assert_eq!(
        sha256_hex_of(b""),
        "e3b0c44298fc1c149afbf4c8996fb92427ae41e4649b934ca495991b7852b855"
    );
}

#[test]
fn checksum_matches_only_the_exact_digest() {
    let good = "b94d27b9934d3e08a52e52d7da7dabfac484efe37a5380ee9088f7ace2efcde9";
    assert!(verify_sha256(b"hello world", good));
    assert!(!verify_sha256(b"hello world!", good));
    assert!(!verify_sha256(b"hello world", &good.to_uppercase()));
}

#[test]
fn gguf_files_by_extension() {
    assert!(is_gguf_path("/models/qwen3-8b-q4_k_m.gguf"));
    assert!(!is_gguf_path("/models/model.GGUF"));
    assert!(!is_gguf_path("/models/model.gguf.part"));
    assert!(!is_gguf_path("/models/.gguf"));
    assert!(!is_gguf_path("/models/readme"));
}

#[test]
fn catalog_ids_map_to_ollama_names() {
    assert_eq!(catalog_id_to_ollama("llama3.2-3b"), "llama3.2:3b");
    assert_eq!(catalog_id_to_ollama("qwen3.5-35b-a3b-q4km"), "qwen3:30b-a3b");
    assert_eq!(catalog_id_to_ollama("phi4-14b-q4km"), "phi4:14b");
    assert_eq!(catalog_id_to_ollama("mistral:7b"), "mistral:7b");
}

fn message(role: &str, content: &str) -> OllamaMessage {
    OllamaMessage { role: role.into(), content: content.into() }
}

#[test]
fn chat_without_a_model_is_refused() {
    let engine = InferenceEngine::new();
    assert!(!engine.is_loaded());
    assert_eq!(engine.model_id(), None);
    assert_eq!(engine.ollama_url(), "http://localhost:11434");
    match engine.chat_request(&vec![message("user", "hi")]) {
        Err(e) => assert_eq!(e, "No model loaded. Select and load a model first."),
        Ok(_) => panic!("expected an error"),
    }
}

#[test]
fn chat_request_names_the_loaded_model() {
    let mut engine = InferenceEngine::new();
    assert!(engine.load_model("qwen3-8b-q4km", 4).is_ok());
    assert!(engine.is_loaded());
    assert_eq!(engine.model_id(), Some("qwen3-8b-q4km"));
    assert_eq!(engine.tq_config().bits, 4);
    assert_eq!(engine.tq_config().max_context, 49152);
    let req = engine
        .chat_request(&vec![message("system", "be brief"), message("user", "hi")])
        .unwrap();
    assert_eq!(req.url, "http://localhost:11434/api/chat");
    let body = &req.body;
    assert_eq!(body.get("model").and_then(|v| v.as_str()).map(|s| s.as_str()), Some("qwen3:8b"));
    assert!(matches!(body.get("stream"), Some(JsonValue::Bool(true))));
    let msgs = body.get("messages").and_then(|v| v.as_array()).unwrap();
    assert_eq!(msgs.len(), 2);
    assert_eq!(msgs[1].get("role").and_then(|v| v.as_str()).map(|s| s.as_str()), Some("user"));
    assert_eq!(msgs[1].get("content").and_then(|v| v.as_str()).map(|s| s.as_str()), Some("hi"));
}

#[test]
fn unloading_forgets_the_model() {
    let mut engine = InferenceEngine::new();
    engine.load_model("gemma3-27b-q4km", 3).unwrap();
    engine.unload();
    assert!(!engine.is_loaded());
    assert_eq!(engine.model_id(), None);
    assert!(engine.chat_request(&vec![]).is_err());
}

#[test]
fn stop_raises_the_shared_flag_and_a_new_chat_lowers_it() {
    let mut engine = InferenceEngine::new();
    engine.load_model("phi4-14b-q4km", 3).unwrap();
    let flag = engine.stop_flag();
    assert!(!read_flag(&flag));
    engine.stop();
    assert!(read_flag(&flag));
    engine.chat_request(&vec![]).unwrap();
    assert!(!read_flag(&flag));
}

/// Reads a line's text as a chunk the way the reply's lines are read.
fn parse_line(text: &str) -> Option<OllamaStreamChunk> {
    let v: serde_json::Value = serde_json::from_str(text).ok()?;
    let obj = v.as_object()?;
    let message = match obj.get("message") {
        None | Some(serde_json::Value::Null) => None,
        Some(m) => Some(OllamaMessage {
            role: m.get("role")?.as_str()?.to_string(),
            content: m.get("content")?.as_str()?.to_string(),
        }),
    };
    let done = obj.get("done")?.as_bool()?;
    let number = |key: &str| -> Option<Option<u64>> {
        match obj.get(key) {
            None | Some(serde_json::Value::Null) => Some(None),
            Some(x) => x.as_u64().map(Some),
        }
    };
    Some(OllamaStreamChunk { message, done, eval_count: number("eval_count")?, eval_duration: number("eval_duration")? })
}

fn read_piece(s: &mut ChatStream, piece: &[u8]) -> Vec<(String, Option<(u64, u64)>)> {
    let parsed: Vec<Option<OllamaStreamChunk>> = s.feed(piece).iter().map(|t| parse_line(t)).collect();
    s.read_chunks(parsed).into_iter().map(|t| (t.content, t.eval)).collect()
}

fn feed_all(pieces: &[&[u8]]) -> (Vec<(String, Option<(u64, u64)>)>, String) {
    let mut s = ChatStream::new();
    let mut out = Vec::new();
    for p in pieces {
        out.extend(read_piece(&mut s, p));
    }
    (out, s.response())
}

const REPLY: &[u8] = b"{\"message\":{\"role\":\"assistant\",\"content\":\"Hel\"},\"done\":false}\n\
{\"message\":{\"role\":\"assistant\",\"content\":\"lo\"},\"done\":false}\n\
\n\
not json at all\n\
{\"message\":{\"role\":\"assistant\",\"content\":\"\"},\"done\":true,\"eval_count\":20,\"eval_duration\":2000000000}\n";

#[test]
fn reply_text_is_assembled_from_the_stream() {
    let (toks, text) = feed_all(&[REPLY]);
    assert_eq!(text, "Hello");
    assert_eq!(toks, vec![("Hel".to_string(), None), ("lo".to_string(), None)]);
}

#[test]
fn how_the_reply_is_cut_does_not_matter() {
    let whole = feed_all(&[REPLY]);
    for cut in 1..REPLY.len() {
        let (a, b) = REPLY.split_at(cut);
        assert_eq!(feed_all(&[a, b]), whole, "cut at {}", cut);
    }
}

#[test]
fn a_partial_line_waits_for_its_end() {
    let mut s = ChatStream::new();
    let first = read_piece(&mut s, b"{\"message\":{\"role\":\"assistant\",\"content\":\"Hi\"},\"do");
    assert!(first.is_empty());
    let second = read_piece(&mut s, b"ne\":false}\n");
    assert_eq!(second, vec![("Hi".to_string(), None)]);
    assert_eq!(s.response(), "Hi");
}

#[test]
fn counters_come_with_a_piece_of_the_last_chunk() {
    let (toks, _) = feed_all(&[b"{\"message\":{\"role\":\"assistant\",\"content\":\"!\"},\"done\":true,\"eval_count\":42,\"eval_duration\":1000}\n"]);
    assert_eq!(toks, vec![("!".to_string(), Some((42, 1000)))]);
    let (toks, _) = feed_all(&[b"{\"message\":{\"role\":\"assistant\",\"content\":\"!\"},\"done\":true,\"eval_count\":42,\"eval_duration\":0}\n"]);
    assert_eq!(toks, vec![("!".to_string(), None)]);
}

#[test]
fn reading_stops_at_a_done_chunk_and_keeps_the_rest() {
    let mut s = ChatStream::new();
    let toks = read_piece(&mut s, b"{\"message\":{\"role\":\"assistant\",\"content\":\"a\"},\"done\":true}\n{\"message\":{\"role\":\"assistant\",\"content\":\"b\"},\"done\":false}\n");
    assert_eq!(toks.len(), 1);
    assert_eq!(s.response(), "a");
    // the line after the done chunk is read with the next piece
    let more = read_piece(&mut s, b"");
    assert_eq!(more.len(), 1);
    assert_eq!(s.response(), "ab");
}

#[test]
fn lines_are_handed_out_trimmed_and_blank_ones_skipped() {
    let mut s = ChatStream::new();
    let texts = s.feed(b"   \n  {\"done\":true}\r\n\ncaf\xc3\xa9\nrest");
    assert_eq!(texts, vec!["{\"done\":true}".to_string(), "caf\u{e9}".to_string()]);
    // a line that reads as no chunk is skipped, and the text after it waits
    let toks = s.read_chunks(vec![None, None]);
    assert!(toks.is_empty());
    assert_eq!(s.feed(b"\n"), vec!["rest".to_string()]);
}

#[test]
fn lines_past_the_chunks_given_read_as_no_chunk() {
    let mut s = ChatStream::new();
    s.feed(b"one\ntwo\n");
    let msg = |c: &str| OllamaMessage { role: "assistant".to_string(), content: c.to_string() };
    let toks = s.read_chunks(vec![Some(OllamaStreamChunk {
        message: Some(msg("x")),
        done: false,
        eval_count: None,
        eval_duration: None,
    })]);
    assert_eq!(toks.len(), 1);
    assert_eq!(s.response(), "x");
    assert!(s.feed(b"").is_empty());
}

#[test]
fn invalid_utf8_is_replaced_not_dropped() {
    let mut s = ChatStream::new();
    assert_eq!(s.feed(b"a\xffb\n"), vec!["a\u{fffd}b".to_string()]);
}

#[test]
fn chatml_prompt_of_a_conversation() {
    let msgs = vec![("system".to_string(), "Be kind.".to_string()), ("user".to_string(), "Hi".to_string())];
    assert_eq!(
        build_chatml_prompt(&msgs),
        "<|im_start|>system\nBe kind.<|im_end|>\n<|im_start|>user\nHi<|im_end|>\n<|im_start|>assistant\n"
    );
    assert_eq!(build_chatml_prompt(&vec![]), "<|im_start|>assistant\n");
}

#[test]
fn generation_needs_a_loaded_model() {
    let mut session = LlamaSession::new();
    let msgs = vec![("user".to_string(), "Hi".to_string())];
    assert_eq!(session.prepare_generation(&msgs), Err("No model loaded".to_string()));
    let refused = session.load_model("/m/model.bin", &ModelParams::default(), &ContextParams::default());
    assert_eq!(refused, Err("Expected .gguf file, got .bin".to_string()));
    assert!(!session.is_loaded());
    session.load_model("/m/model.gguf", &ModelParams::default(), &ContextParams::default()).unwrap();
    assert!(session.is_loaded());
    assert_eq!(model_file_name(session.model_path()), "model.gguf");
    // the extension comes from the path itself
    let mut other = LlamaSession::new();
    assert_eq!(
        other.load_model("/m/model", &ModelParams::default(), &ContextParams::default()),
        Err("Expected .gguf file, got .".to_string())
    );
    assert_eq!(
        other.load_model("/m/model.GGUF", &ModelParams::default(), &ContextParams::default()),
        Err("Expected .gguf file, got .GGUF".to_string())
    );
    assert!(!other.is_loaded());
    session.stop();
    let flag = session.stop_flag();
    assert!(read_flag(&flag));
    let prompt = session.prepare_generation(&msgs).unwrap();
    assert_eq!(prompt, "<|im_start|>user\nHi<|im_end|>\n<|im_start|>assistant\n");
    assert!(!read_flag(&flag));
}

#[test]
fn pieces_put_back_together_give_the_data() {
    let data: Vec<u8> = (0u8..50).collect();
    let pieces = byte_pieces(&data, 16);
    assert_eq!(pieces.iter().map(|p| p.len()).collect::<Vec<_>>(), vec![16, 16, 16, 2]);
    assert_eq!(pieces.concat(), data);
    assert!(byte_pieces(&[], 16).is_empty());
    assert_eq!(byte_pieces(&data[..16], 16).len(), 1);
}

#[test]
fn prompt_tokens_are_a_quarter_of_the_bytes() {
    assert_eq!(prompt_token_estimate(10), 2);
    assert_eq!(prompt_token_estimate(400), 100);
    assert_eq!(prompt_token_estimate(0), 0);
}

#[test]
fn cache_types_by_bit_width() {
    assert_eq!(KvCacheType::from_tq_bits(3), KvCacheType::Turbo3);
    assert_eq!(KvCacheType::from_tq_bits(4), KvCacheType::Turbo4);
    assert_eq!(KvCacheType::from_tq_bits(8), KvCacheType::Q8_0);
    assert_eq!(KvCacheType::from_tq_bits(16), KvCacheType::F16);
    assert_eq!(KvCacheType::from_tq_bits(5), KvCacheType::Turbo3);
    assert_eq!(KvCacheType::Turbo3.ggml_type(), 30);
}

#[test]
fn turboquant_memory_is_bits_over_sixteen_of_fp16() {
    for bits in [3u8, 4] {
        let config = TurboQuantConfig::new(bits);
        let tq = config.estimate_kv_memory(65536, 64, 8);
        let fp16 = config.estimate_kv_memory_fp16(65536, 64, 8);
        assert_eq!(tq * 16, fp16 * bits as u64);
    }
    let config = TurboQuantConfig::new(3);
    assert_eq!(config.estimate_kv_memory(65536, 64, 8), 3_221_225_472);
    assert_eq!(config.estimate_kv_memory_fp16(65536, 64, 8), 17_179_869_184);
    let other = TurboQuantConfig::new(7);
    assert_eq!(other.bits, 3);
    assert_eq!(other.max_context, 65536);
}

#[test]
fn generation_steps_decide_how_long_to_stream() {
    assert_eq!(generation_start(3), GenAction::SendPiece(0));
    assert_eq!(generation_start(0), GenAction::FinishDone);
    assert_eq!(generation_step(0, 0, 3, false, true), (1, GenAction::SendPiece(1)));
    assert_eq!(generation_step(2, 2, 3, false, true), (3, GenAction::FinishDone));
    assert_eq!(generation_step(1, 1, 3, true, false), (1, GenAction::FinishDone));
    assert_eq!(generation_step(1, 1, 3, false, false), (1, GenAction::FinishDone));
    // driving the loop: every piece accepted, then a refusal at the third
    let run = |refuse_at: Option<usize>, n: usize| {
        let mut sent = 0u32;
        let mut offered = Vec::new();
        let mut action = generation_start(n);
        while let GenAction::SendPiece(i) = action {
            offered.push(i);
            let (s, next) = generation_step(sent, i, n, false, refuse_at != Some(i));
            sent = s;
            action = next;
        }
        (sent, offered)
    };
    assert_eq!(run(None, 4), (4, vec![0, 1, 2, 3]));
    assert_eq!(run(Some(2), 4), (2, vec![0, 1, 2]));
}

fn run_generation(n_pieces: usize, obs: &[(bool, bool)]) -> u32 {
    let mut sent = 0u32;
    let mut action = generation_start(n_pieces);
    let mut k: usize = 0;
    while let GenAction::SendPiece(index) = action {
        if k == obs.len() {
            break;
        }
        let (stop, accepted) = obs[k];
        k += 1;
        let (s, a) = generation_step(sent, index, n_pieces, stop, accepted);
        sent = s;
        action = a;
    }
    sent
}

#[test]
fn generation_sends_the_pieces_accepted_before_a_stop_or_refusal() {
    let all = [(false, true); 6];
    assert_eq!(run_generation(5, &all), 5);
    assert_eq!(run_generation(0, &all), 0);
    assert_eq!(run_generation(5, &[(false, true), (false, true), (false, false), (false, true)]), 2);
    assert_eq!(run_generation(5, &[(false, true), (true, true), (false, true)]), 1);
    assert_eq!(run_generation(2, &[(false, true), (false, true), (true, true)]), 2);
}

#[test]
fn kv_estimate_is_the_fp16_one_scaled_and_grows_with_its_inputs() {
    let mut config = TurboQuantConfig::new(3);
    config.head_dim = 7; // not a multiple of 4: the scaling is rounded down
    for (ctx, layers, heads) in [(5u32, 3u32, 1u32), (1, 1, 1), (1000, 32, 8)] {
        let tq = config.estimate_kv_memory(ctx, layers, heads);
        let fp16 = config.estimate_kv_memory_fp16(ctx, layers, heads);
        assert_eq!(tq, fp16 * 3 / 16);
    }
    let small = config.estimate_kv_memory(100, 4, 2);
    assert!(small <= config.estimate_kv_memory(101, 4, 2));
    assert!(small <= config.estimate_kv_memory(100, 5, 2));
    assert!(small <= config.estimate_kv_memory(100, 4, 3));
    assert!(config.estimate_kv_memory_fp16(100, 4, 2) <= config.estimate_kv_memory_fp16(100, 4, 3));
}
