use nexusai::inference::tq_config::TurboQuantConfig;
use nexusai::json::JsonValue;
use nexusai::rag::chunker::chunk_document;
use nexusai::rag::{DocType, Document};
use nexusai::tools::parser::parse_tool_calls;
use nexusai::tools::{requires_approval, ToolCall};
use nexusai::turboquant::{TqType, TurboQuant};

fn ratio(fraction: (u32, u32)) -> f64 {
    fraction.0 as f64 / fraction.1 as f64
}

#[test]
fn test_compression_ratios() {
    let tq3 = TurboQuantConfig::new(3);
    assert!((ratio(tq3.compression_ratio_fraction()) - 5.33).abs() < 0.1);

    let tq4 = TurboQuantConfig::new(4);
    assert!((ratio(tq4.compression_ratio_fraction()) - 4.0).abs() < 0.01);
}

#[test]
fn test_kv_memory_estimation() {
    // Qwen 3.5 35B: 64 layers, 8 KV heads, head_dim 128
    let tq3 = TurboQuantConfig::new(3);
    let tq_mem = tq3.estimate_kv_memory(65536, 64, 8);
    let fp16_mem = tq3.estimate_kv_memory_fp16(65536, 64, 8);

    // TQ3 should be ~5.3x smaller
    let ratio = fp16_mem as f64 / tq_mem as f64;
    assert!(ratio > 5.0 && ratio < 6.0);
}

#[test]
fn test_chunking_short_doc() {
    let doc = Document {
        id: "test".into(),
        path: "test.txt".into(),
        title: "Test".into(),
        content: "Hello world".into(),
        doc_type: DocType::PlainText,
        size_bytes: 11,
        last_modified: 0,
    };
    let chunks = chunk_document(&doc, 512, 64);
    assert_eq!(chunks.len(), 1);
    assert_eq!(chunks[0].content, "Hello world");
}

#[test]
fn test_chunking_paragraphs() {
    let content = "Paragraph one.\n\nParagraph two.\n\nParagraph three.";
    let doc = Document {
        id: "test".into(),
        path: "test.txt".into(),
        title: "Test".into(),
        content: content.into(),
        doc_type: DocType::PlainText,
        size_bytes: content.len() as u64,
        last_modified: 0,
    };
    let chunks = chunk_document(&doc, 20, 0);
    assert!(chunks.len() >= 2);
}

#[test]
fn test_parse_llama3_format() {
    let text = r#"I'll read that file for you.
<function=read_file>{"path": "/tmp/test.txt"}</function>"#;
    let calls = parse_tool_calls(text);
    assert_eq!(calls.len(), 1);
    assert_eq!(calls[0].name, "read_file");
    assert_eq!(
        calls[0].arguments.get("path").and_then(|v| v.as_str()).map(|s| s.as_str()),
        Some("/tmp/test.txt")
    );
}

#[test]
fn test_parse_chatml_format() {
    let text = r#"<tool_call>
{"name": "calculator", "arguments": {"expression": "2 + 2"}}
</tool_call>"#;
    let calls = parse_tool_calls(text);
    assert_eq!(calls.len(), 1);
    assert_eq!(calls[0].name, "calculator");
}

fn object(members: &[(&str, &str)]) -> JsonValue {
    JsonValue::Object(
        members
            .iter()
            .map(|(k, v)| (k.to_string(), JsonValue::Str(v.to_string())))
            .collect(),
    )
}

#[test]
fn test_approval_check() {
    let safe = ToolCall {
        name: "read_file".into(),
        arguments: object(&[("path", "/tmp/test")]),
    };
    let dangerous = ToolCall {
        name: "shell_exec".into(),
        arguments: object(&[("command", "rm -rf /")]),
    };
    assert!(!requires_approval(&safe));
    assert!(requires_approval(&dangerous));
}

#[test]
fn test_compression_ratio() {
    let tq = TurboQuant::new(128, TqType::Tq3_0);
    let (n, d) = tq.compression_ratio_fraction();
    assert!((n as f64 / d as f64 - 5.333).abs() < 0.01);
}

#[test]
fn test_kv_memory() {
    let tq = TurboQuant::new(128, TqType::Tq3_0);
    // 65536 tokens, 64 layers, 8 KV heads
    let mem = tq.kv_memory_bytes(65536, 64, 8);
    let fp16_mem: usize = 2 * 65536 * 64 * 8 * 128 * 2; // FP16
    let ratio = fp16_mem as f64 / mem as f64;
    assert!(ratio > 5.0);
}
