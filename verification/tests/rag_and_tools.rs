use nexusai::json::{json_pretty, json_quote_string, parse_json, JsonValue};
use nexusai::rag::chunker::{chunk_document, split_by_lines, split_by_structure, split_by_words};
use nexusai::rag::embedder::{Embedder, EmbedderConfig};
use nexusai::rag::index::VectorIndex;
use nexusai::rag::parsers::{
    build_document, content_source, detect_doc_type, is_skipped_dir, is_supported_file,
    lowercase_extension, parse_docx, parse_pdf, ContentSource,
};
use nexusai::rag::pipeline::{RagConfig, RagPipeline};
use nexusai::rag::{Chunk, DocType, Document};
use nexusai::text::{decimal_string, to_lowercase, trim_string};
use nexusai::tools::agent::{AgentConfig, AgentSession, AgentStepResult};
use nexusai::tools::parser::parse_tool_calls;
use nexusai::tools::{
    builtin_tools, format_tool_result, list_directory_result, plan_tool, read_file_result,
    requires_approval, ToolAction, ToolCall, ToolResult,
};

fn doc(content: &str) -> Document {
    Document {
        id: "doc".into(),
        path: "notes/doc.md".into(),
        title: "doc.md".into(),
        content: content.into(),
        doc_type: DocType::Markdown,
        size_bytes: content.len() as u64,
        last_modified: 0,
    }
}

#[test]
fn paragraphs_are_packed_where_they_fit() {
    let text = "Paragraph one.\n\nParagraph two.\n\nParagraph three.";
    assert_eq!(split_by_structure(text, 20), vec!["Paragraph one.", "Paragraph two.", "Paragraph three."]);
    assert_eq!(split_by_structure(text, 40), vec!["Paragraph one.\n\nParagraph two.", "Paragraph three."]);
    assert_eq!(split_by_structure(text, 100), vec![text]);
}

#[test]
fn long_lines_and_words_are_split_further() {
    assert_eq!(split_by_words("alpha beta gamma delta", 11), vec!["alpha beta", "gamma delta"]);
    assert_eq!(split_by_lines("short line\nanother short one\nx", 12), vec!["short line", "another", "short one", "x"]);
    let long_word = "a".repeat(25);
    let text = format!("{} bb", long_word);
    assert_eq!(split_by_structure(&text, 10), vec![long_word.clone(), "bb".to_string()]);
}

#[test]
fn every_chunk_keeps_to_the_size_unless_it_is_one_word() {
    let text = "The quick brown fox jumps over the lazy dog.\n\nPack my box with five dozen liquor jugs.\nSphinx of black quartz, judge my vow!\n\nsupercalifragilisticexpialidocious";
    for max in [5usize, 12, 20, 33, 60, 500] {
        for c in split_by_structure(text, max) {
            assert!(!c.is_empty());
            assert!(c.len() <= max || !c.chars().any(|ch| ch.is_whitespace()), "{:?} at {}", c, max);
        }
    }
}

#[test]
fn chunk_offsets_advance_by_length_less_overlap() {
    let d = doc("Paragraph one.\n\nParagraph two.\n\nParagraph three.");
    let chunks = chunk_document(&d, 20, 4);
    assert_eq!(chunks.len(), 3);
    let spans: Vec<(usize, usize)> = chunks.iter().map(|c| (c.start_offset, c.end_offset)).collect();
    assert_eq!(spans, vec![(0, 14), (10, 24), (20, 36)]);
    assert_eq!(chunks[1].id, "doc-1");
    assert_eq!(chunks[2].chunk_index, 2);
    assert!(chunks.iter().all(|c| c.document_id == "doc" && c.embedding.is_none()));
    assert!(chunk_document(&doc(""), 20, 4).is_empty());
}

fn chunk(id: &str, content: &str) -> Chunk {
    Chunk {
        id: id.into(),
        document_id: format!("{}-doc", id),
        content: content.into(),
        start_offset: 0,
        end_offset: content.len(),
        chunk_index: 0,
        embedding: None,
        tq_embedding: None,
    }
}

#[test]
fn search_ranks_by_matched_terms() {
    let mut index = VectorIndex::new("idx", true, 3);
    index.add_chunk(&chunk("c0", "Rust is fast")).unwrap();
    index.add_chunk(&chunk("c1", "Memory safety in Rust")).unwrap();
    index.add_chunk(&chunk("c2", "Python scripts")).unwrap();
    index.add_chunk(&chunk("c3", "rust")).unwrap();
    assert_eq!(index.len(), 4);
    let hits = index.search_text("RUST memory", 5);
    let got: Vec<(&str, usize)> = hits.iter().map(|h| (h.chunk.id.as_str(), h.matched_terms)).collect();
    assert_eq!(got, vec![("c1", 2), ("c0", 1), ("c3", 1)]);
    assert!(hits.iter().all(|h| h.query_terms == 2));
    assert_eq!(hits[0].document_path, "c1-doc");
    let top = index.search_text("RUST memory", 1);
    assert_eq!(top.len(), 1);
    assert_eq!(top[0].chunk.id, "c1");
    assert!(index.search_text("golang", 5).is_empty());
    for pair in hits.windows(2) {
        assert!(pair[0].matched_terms >= pair[1].matched_terms);
    }
}

#[test]
fn memory_accounting_of_embeddings() {
    let mut index = VectorIndex::new("idx", true, 3);
    let mut c = chunk("c0", "abcd");
    c.embedding = Some(vec![0u32; 768]);
    index.add_chunk(&c).unwrap();
    let mut d = chunk("c1", "xy");
    d.embedding = Some(vec![0u32; 5]);
    d.tq_embedding = Some(vec![0u8; 3]);
    index.add_chunk(&d).unwrap();
    assert_eq!(index.memory_usage_bytes(), 4 + 768 * 4 + 2 + 5 * 4 + 3);
    assert_eq!(index.compression_stats(), (768 * 4 + 5 * 4, 288 + 2));
    let mut plain = VectorIndex::new("idx", false, 3);
    plain.add_chunk(&c).unwrap();
    assert_eq!(plain.compression_stats(), (3072, 3072));
}

#[test]
fn pipeline_ingests_and_searches() {
    let config = RagConfig::default();
    assert_eq!(config.chunk_size, 512);
    assert_eq!(f32::from_bits(config.min_relevance_score_bits), 0.3);
    let mut p = RagPipeline::new(config, "/tmp/index");
    let n = p.ingest_document(doc("Verus proves Rust code.\n\nIt checks contracts."));
    assert_eq!(n, 1);
    assert_eq!(p.document_count(), 1);
    assert_eq!(p.chunk_count(), 1);
    let hits = p.search("contracts", None);
    assert_eq!(hits.len(), 1);
    let context = p.build_context(&hits, &vec!["1.00".to_string()]);
    assert_eq!(
        context,
        "## Relevant Context\n\n### Source 1: doc (score: 1.00)\n```\nVerus proves Rust code.\n\nIt checks contracts.\n```\n\n"
    );
    assert_eq!(p.build_context(&vec![], &vec![]), "");
}

#[test]
fn embedder_needs_a_model_path() {
    let mut e = Embedder::new(EmbedderConfig::default());
    assert_eq!(e.dim(), 768);
    assert_eq!(e.embed_text("x"), Err("Embedding model not loaded".to_string()));
    assert_eq!(e.load(), Err("No embedding model path configured".to_string()));
    let mut e = Embedder::new(EmbedderConfig { model_path: "/m/nomic.gguf".into(), embedding_dim: 4, ..EmbedderConfig::default() });
    assert_eq!(e.load(), Ok(()));
    assert_eq!(e.embed_query("q"), Ok(vec![0u32; 4]));
    let mut chunks = vec![chunk("c0", "a"), chunk("c1", "b")];
    e.embed_chunks(&mut chunks).unwrap();
    assert!(chunks.iter().all(|c| c.embedding == Some(vec![0u32; 4])));
}

#[test]
fn supported_files_and_document_types() {
    assert!(is_supported_file("notes/README.MD"));
    assert!(is_supported_file("src/main.rs"));
    assert!(!is_supported_file("photo.png"));
    assert!(!is_supported_file("Makefile"));
    assert_eq!(lowercase_extension("a/B.TXT"), "txt");
    assert_eq!(detect_doc_type("x.markdown"), DocType::Markdown);
    assert_eq!(detect_doc_type("x.htm"), DocType::Html);
    assert_eq!(detect_doc_type("x.yaml"), DocType::PlainText);
    assert_eq!(detect_doc_type("x.PY"), DocType::Code("py".into()));
    assert_eq!(detect_doc_type("x.pdf"), DocType::Pdf);
    assert!(parse_pdf("x.pdf").is_err());
    assert_eq!(parse_docx("x.docx"), Err("DOCX parsing not yet implemented — install docx-rs crate".to_string()));
    assert!(matches!(content_source("a.pdf"), ContentSource::Unavailable(_)));
    assert!(matches!(content_source("a.txt"), ContentSource::ReadText));
    let d = build_document("dir/notes.md", "id1".into(), "hello".into(), 5, 7);
    assert_eq!(d.title, "notes.md");
    assert_eq!(d.doc_type, DocType::Markdown);
    assert!(is_skipped_dir(".git"));
    assert!(is_skipped_dir("node_modules"));
    assert!(!is_skipped_dir("src"));
}

fn call(name: &str, args: &str) -> ToolCall {
    ToolCall { name: name.into(), arguments: parse_json(args).unwrap() }
}

#[test]
fn tool_results_as_fed_back() {
    let ok = ToolResult { name: "read_file".into(), success: true, output: "line \"1\"\n".into(), error: None };
    assert_eq!(
        format_tool_result(&ok),
        "<tool_response>\n{\n  \"name\": \"read_file\",\n  \"output\": \"line \\\"1\\\"\\n\"\n}\n</tool_response>"
    );
    let failed = ToolResult { name: "web_fetch".into(), success: false, output: String::new(), error: None };
    assert_eq!(format_tool_result(&failed), "<tool_response>\n{\n  \"name\": \"web_fetch\",\n  \"error\": null\n}\n</tool_response>");
}

#[test]
fn planning_tool_calls() {
    match plan_tool(&call("read_file", r#"{"path": "/etc/hosts"}"#)) {
        ToolAction::ReadFile(p) => assert_eq!(p, "/etc/hosts"),
        other => panic!("{:?}", other),
    }
    match plan_tool(&call("list_directory", "{}")) {
        ToolAction::ListDirectory(p) => assert_eq!(p, "."),
        other => panic!("{:?}", other),
    }
    match plan_tool(&call("web_fetch", r#"{"url": "x"}"#)) {
        ToolAction::Finished(r) => {
            assert!(!r.success);
            assert_eq!(r.error, Some("Tool 'web_fetch' not yet implemented".to_string()));
        }
        other => panic!("{:?}", other),
    }
    let r = read_file_result("read_file", Err("denied".into()));
    assert_eq!((r.success, r.error), (false, Some("denied".to_string())));
    let r = list_directory_result("list_directory", Ok(vec![("src".into(), true), ("a.txt".into(), false)]));
    assert_eq!(r.output, "src/\na.txt");
}

#[test]
fn builtin_tool_names() {
    let names: Vec<String> = builtin_tools().into_iter().map(|t| t.name).collect();
    assert_eq!(names, vec!["read_file", "write_file", "list_directory", "web_fetch", "calculator"]);
}

#[test]
fn plain_text_holds_no_tool_calls() {
    assert!(parse_tool_calls("Sure, here is the answer: 42.").is_empty());
    assert!(parse_tool_calls("Line one\nline two without markup").is_empty());
}

#[test]
fn json_line_tool_calls() {
    let calls = parse_tool_calls("Calling now\n{\"tool_calls\": [{\"name\": \"a\", \"arguments\": {}}, {\"bad\": 1}, {\"name\": \"b\", \"arguments\": [1]}]}");
    let names: Vec<&str> = calls.iter().map(|c| c.name.as_str()).collect();
    assert_eq!(names, vec!["a", "b"]);
    let calls = parse_tool_calls("{not json}\n  {\"name\": \"c\", \"arguments\": 1}");
    assert_eq!(calls.len(), 1);
    assert_eq!(calls[0].name, "c");
}

#[test]
fn unclosed_tags_end_the_scan() {
    assert!(parse_tool_calls("<function=read_file>{\"path\": \"x\"}").is_empty());
    let calls = parse_tool_calls("<tool_call>not json</tool_call><tool_call>{\"name\": \"x\", \"arguments\": {}}</tool_call>");
    assert_eq!(calls.len(), 1);
}

#[test]
fn agent_steps_and_approval_gate() {
    let mut s = AgentSession::new(AgentConfig::default());
    match s.process_output("All done.") {
        AgentStepResult::FinalResponse(t) => assert_eq!(t, "All done."),
        other => panic!("{:?}", other),
    }
    match s.process_output("<tool_call>{\"name\": \"read_file\", \"arguments\": {\"path\": \"a\"}}</tool_call>") {
        AgentStepResult::ToolResults(v) => assert!(v.is_empty()),
        other => panic!("{:?}", other),
    }
    match s.process_output("<tool_call>{\"name\": \"read_file\", \"arguments\": {}}</tool_call><tool_call>{\"name\": \"write_file\", \"arguments\": {}}</tool_call>") {
        AgentStepResult::NeedsApproval(p) => {
            assert_eq!(p.len(), 1);
            assert_eq!(p[0].step, 3);
            assert_eq!(p[0].tool_call.name, "write_file");
            assert_eq!(p[0].reason, "This tool modifies files or executes commands");
        }
        other => panic!("{:?}", other),
    }
    assert_eq!(s.step_count(), 3);
    let mut strict = AgentSession::new(AgentConfig { auto_approve_safe: false, ..AgentConfig::default() });
    match strict.process_output("<function=read_file>{\"path\": \"a\"}</function>") {
        AgentStepResult::NeedsApproval(p) => assert_eq!(p.len(), 1),
        other => panic!("{:?}", other),
    }
    assert!(requires_approval(&call("web_fetch", "{}")));
    assert!(!requires_approval(&call("calculator", "{}")));
}

#[test]
fn agent_stops_at_the_step_limit() {
    let mut s = AgentSession::new(AgentConfig { max_steps: 1, ..AgentConfig::default() });
    assert!(matches!(s.process_output("a"), AgentStepResult::FinalResponse(_)));
    match s.process_output("b") {
        AgentStepResult::MaxStepsReached(m) => assert_eq!(m, "Agent reached maximum of 1 steps. Last output:\nb"),
        other => panic!("{:?}", other),
    }
    s.add_message("user", "hi");
    assert_eq!(s.messages(), &vec![("user".to_string(), "hi".to_string())]);
    s.record_tool_result(call("calculator", "{}"), ToolResult { name: "calculator".into(), success: true, output: "4".into(), error: None });
    assert_eq!(s.tool_history().len(), 1);
}

#[test]
fn system_prompt_lists_the_tools() {
    let s = AgentSession::new(AgentConfig::default());
    let p = s.system_prompt();
    assert!(p.starts_with("You are NexusAI, a local AI assistant with access to tools."));
    assert!(p.contains("\n### read_file\nRead the contents of a file at the given path\nParameters: {\n"));
    assert!(p.ends_with("</tool_call>\n"));
}

#[test]
fn json_strings_are_escaped_like_serde_json() {
    assert_eq!(json_quote_string("a\"b\\c\n\u{1}"), "\"a\\\"b\\\\c\\n\\u0001\"");
    let v = parse_json("{\"b\": 1, \"a\": [true, null]}").unwrap();
    assert_eq!(json_pretty(&v), "{\n  \"a\": [\n    true,\n    null\n  ],\n  \"b\": 1\n}");
    assert!(parse_json("{").is_none());
}

#[test]
fn text_helpers() {
    assert_eq!(decimal_string(0), "0");
    assert_eq!(decimal_string(1234567890), "1234567890");
    assert_eq!(to_lowercase("ÀB"), "àb");
    assert_eq!(trim_string("\u{3000} x \n"), "x");
}

#[test]
fn calls_written_in_either_format_are_read_back() {
    let args = "{\"url\": \"https://example.com/a<b\", \"depth\": 2}";
    let text = format!("<function=web_fetch>{}</function>", args);
    let calls = parse_tool_calls(&text);
    assert_eq!(calls.len(), 1);
    assert_eq!(calls[0].name, "web_fetch");
    assert_eq!(
        calls[0].arguments.get("url").and_then(|v| v.as_str()).map(|s| s.as_str()),
        Some("https://example.com/a<b")
    );
    let body = "\n  {\"name\": \"list_directory\", \"arguments\": {\"path\": \"/tmp\"}}\n";
    let calls = parse_tool_calls(&format!("<tool_call>{}</tool_call>", body));
    assert_eq!(calls.len(), 1);
    assert_eq!(calls[0].name, "list_directory");
    assert_eq!(
        calls[0].arguments.get("path").and_then(|v| v.as_str()).map(|s| s.as_str()),
        Some("/tmp")
    );
}

#[test]
fn search_finds_every_matching_chunk() {
    let mut index = VectorIndex::new("idx", false, 4);
    let contents = ["alpha beta", "gamma", "beta gamma delta", "epsilon", "Delta"];
    for (i, c) in contents.iter().enumerate() {
        index.add_chunk(&chunk(&format!("c{}", i), c)).unwrap();
    }
    let hits = index.search_text("beta delta", contents.len());
    let mut ids: Vec<&str> = hits.iter().map(|h| h.chunk.id.as_str()).collect();
    assert_eq!(ids, vec!["c2", "c0", "c4"]);
    ids.sort();
    assert_eq!(ids, vec!["c0", "c2", "c4"]);
}

#[test]
fn too_long_lines_are_split_on_sentences_before_words() {
    assert_eq!(split_by_structure("A. Bbbbb ccc.", 10), vec!["A.", "Bbbbb ccc."]);
    assert_eq!(
        split_by_structure("One two. Three four! Five six? Seven", 12),
        vec!["One two.", "Three four!", "Five six?", "Seven"]
    );
    assert_eq!(split_by_structure("Hi. There. Done.", 12), vec!["Hi. There.", "Done."]);
    // a sentence that is still too long is split by words
    assert_eq!(
        split_by_structure("Short. A rather long sentence here.", 10),
        vec!["Short.", "A rather", "long", "sentence", "here."]
    );
    // a full stop not followed by white space ends no sentence
    assert_eq!(split_by_structure("v1.2 is out now", 10), vec!["v1.2 is", "out now"]);
}

#[test]
fn write_file_requires_path_then_content() {
    let tools = builtin_tools();
    let required = tools[1].parameters.get("required").and_then(|v| v.as_array()).unwrap();
    let names: Vec<&str> = required.iter().map(|v| v.as_str().unwrap().as_str()).collect();
    assert_eq!(names, vec!["path", "content"]);
    let props = tools[1].parameters.get("properties").unwrap();
    assert!(props.get("content").is_some() && props.get("path").is_some());
}

#[test]
fn structure_chunks_are_trimmed() {
    let text = "  Alpha beta.  \n\n  Gamma delta.  ";
    let chunks = split_by_structure(text, 12);
    assert_eq!(chunks, vec!["Alpha beta.", "Gamma delta."]);
    for c in &chunks {
        assert_eq!(c.trim(), c.as_str());
    }
    // a text that fits is its own chunk, untrimmed
    assert_eq!(split_by_structure("  hi ", 100), vec!["  hi "]);
}

#[test]
fn structure_chunks_keep_the_words_in_order() {
    let text = "Alpha beta.\nGamma delta epsilon. Zeta\n\n  Eta theta iota kappa lambda\n\nMu";
    for max in [4usize, 8, 12, 20, 40, 100] {
        let chunks = split_by_structure(text, max);
        let from_chunks: Vec<&str> = chunks.iter().flat_map(|c| c.split_whitespace()).collect();
        let from_text: Vec<&str> = text.split_whitespace().collect();
        assert_eq!(from_chunks, from_text);
    }
}

#[test]
fn plain_ascii_names_and_extensions_are_read_as_such() {
    assert!(is_supported_file("notes.MD"));
    assert!(!is_supported_file("notes"));
    assert!(!is_supported_file(".md"));
    assert!(is_supported_file("Makefile.TXT"));
}
