use std::collections::HashMap;

use nexusai::commands::chat::{
    finish_reply,
    conversation_title, history_to_ollama, prepare_message_content, stop_generation, Message,
};
use nexusai::commands::models::{
    catalog_id_to_ollama_name, file_names, find_model, load_model, model_catalog, model_list, progress_status,
    unload_model,
};
use nexusai::commands::system::{detect_gpu_name, recommended_settings};
use nexusai::inference::download::DownloadStatus;
use nexusai::inference::llama_ffi::read_flag;
use nexusai::inference::{catalog_id_to_ollama, InferenceEngine};
use nexusai::mcp::{McpRegistry, McpServer};
use nexusai::memory::{content_snippet, excerpt_around, format_memory_context};
use nexusai::models::get_catalog;

fn names(v: &[&str]) -> Vec<String> {
    v.iter().map(|s| s.to_string()).collect()
}

#[test]
fn catalog_lists_eight_models_in_order() {
    let cat = model_catalog();
    let ids: Vec<&str> = cat.iter().map(|e| e.id.as_str()).collect();
    assert_eq!(
        ids,
        vec![
            "llama3.2-3b",
            "qwen3-30b-a3b",
            "qwen3.5-35b-a3b-q4km",
            "llama3.3-70b-q4km",
            "gemma3-27b-q4km",
            "phi4-14b-q4km",
            "qwen3-8b-q4km",
            "nomic-embed-text-v1.5"
        ]
    );
    assert_eq!(cat[3].hf_filename, "Llama-3.3-70B-Instruct-Q4_K_M.gguf");
    assert_eq!(cat[7].size_bytes, 274_000_000);
    assert!(!cat[7].tq_compatible);
}

#[test]
fn model_list_marks_files_and_ollama_models() {
    let files = names(&["LLAMA-3.3-70B-INSTRUCT-Q4_K_M.GGUF", "notes.txt"]);
    let installed = names(&["qwen3:8b", "llama3.2:3b"]);
    let list = model_list(&files, &installed);
    assert_eq!(list.len(), 8);
    let downloaded: Vec<bool> = list.iter().map(|m| m.downloaded).collect();
    assert_eq!(downloaded, vec![true, false, false, true, false, false, true, false]);
    assert!(list.iter().all(|m| !m.loaded));
    assert_eq!(list[1].name, "Qwen 3 30B-A3B");
    assert_eq!(list[1].parameters, "30B (3B active MoE)");
}

#[test]
fn models_without_a_file_are_not_found_by_an_empty_name() {
    // the Ollama-only models have no file name; an empty file on disk does not count
    let list = model_list(&names(&[""]), &names(&[]));
    assert!(list.iter().all(|m| !m.downloaded));
}

#[test]
fn ollama_tags_of_catalog_models() {
    assert_eq!(catalog_id_to_ollama_name("gemma3-27b-q4km"), Some("gemma3:27b"));
    assert_eq!(catalog_id_to_ollama_name("nomic-embed-text-v1.5"), None);
    // the engine loads a listed model under the tag it is listed by
    for e in model_catalog() {
        match catalog_id_to_ollama_name(&e.id) {
            Some(tag) => assert_eq!(catalog_id_to_ollama(&e.id), tag),
            None => assert_eq!(catalog_id_to_ollama(&e.id), e.id),
        }
    }
}

#[test]
fn unknown_models_are_refused_by_name() {
    match find_model("mistral-7b") {
        Err(e) => assert_eq!(e, "Unknown model: mistral-7b"),
        Ok(_) => panic!("expected an error"),
    }
    let e = find_model("phi4-14b-q4km").unwrap();
    assert_eq!(e.hf_repo, "bartowski/phi-4-GGUF");
    assert_eq!(e.hf_filename, "phi-4-Q4_K_M.gguf");
}

#[test]
fn download_statuses_as_reported() {
    assert_eq!(progress_status(&DownloadStatus::Complete), "complete");
    assert_eq!(progress_status(&DownloadStatus::Failed("disk full".into())), "error: disk full");
    assert_eq!(progress_status(&DownloadStatus::Downloading), "downloading");
    assert_eq!(progress_status(&DownloadStatus::Pending), "downloading");
    assert_eq!(progress_status(&DownloadStatus::Paused), "downloading");
    assert_eq!(progress_status(&DownloadStatus::Verifying), "downloading");
}

#[test]
fn loading_checks_the_cache_width() {
    let mut engine = InferenceEngine::new();
    assert_eq!(
        load_model(&mut engine, "qwen3-8b-q4km", Some(8)),
        Err("Invalid tq_bits: 8. Must be 3 or 4.".to_string())
    );
    assert!(!engine.is_loaded());
    assert_eq!(load_model(&mut engine, "qwen3-8b-q4km", None), Ok(()));
    assert_eq!(engine.tq_config().bits, 3);
    assert_eq!(load_model(&mut engine, "phi4-14b-q4km", Some(4)), Ok(()));
    assert_eq!(engine.model_id(), Some("phi4-14b-q4km"));
    assert_eq!(engine.tq_config().bits, 4);
    assert_eq!(unload_model(&mut engine), Ok(()));
    assert!(!engine.is_loaded());
}

#[test]
fn stopping_raises_the_flag() {
    let engine = InferenceEngine::new();
    assert_eq!(stop_generation(&engine), Ok(()));
    assert!(read_flag(&engine.stop_flag()));
}

#[test]
fn message_content_is_trimmed_and_must_not_be_empty() {
    assert_eq!(prepare_message_content("  hello there \n"), Ok("hello there".to_string()));
    assert_eq!(prepare_message_content(" \t\n "), Err("Message content is empty.".to_string()));
    assert_eq!(prepare_message_content(""), Err("Message content is empty.".to_string()));
}

#[test]
fn history_keeps_roles_and_contents_in_order() {
    let msgs = vec![
        Message { id: "1".into(), role: "user".into(), content: "hi".into(), timestamp: 1 },
        Message { id: "2".into(), role: "assistant".into(), content: "hello".into(), timestamp: 2 },
    ];
    let h = history_to_ollama(&msgs);
    assert_eq!(h.len(), 2);
    assert_eq!((h[0].role.as_str(), h[0].content.as_str()), ("user", "hi"));
    assert_eq!((h[1].role.as_str(), h[1].content.as_str()), ("assistant", "hello"));
}

#[test]
fn blank_titles_become_new_chat() {
    assert_eq!(conversation_title("   ".into()), "New Chat");
    assert_eq!(conversation_title("".into()), "New Chat");
    assert_eq!(conversation_title(" Plans ".into()), " Plans ");
}

#[test]
fn recommendations_by_memory() {
    assert_eq!(recommended_settings(128), (131072, 3));
    assert_eq!(recommended_settings(64), (131072, 3));
    assert_eq!(recommended_settings(63), (65536, 3));
    assert_eq!(recommended_settings(32), (65536, 3));
    assert_eq!(recommended_settings(16), (32768, 3));
    assert_eq!(recommended_settings(15), (16384, 4));
    assert_eq!(recommended_settings(8), (16384, 4));
}

#[test]
fn gpu_name_on_macos_only() {
    assert_eq!(detect_gpu_name(true), Some("Apple Silicon (Metal)".to_string()));
    assert_eq!(detect_gpu_name(false), None);
}

#[test]
fn curated_catalog_entries() {
    let cat = get_catalog();
    assert_eq!(cat.len(), 4);
    assert_eq!(cat[0].id, "qwen3.5-35b-a3b-q4km");
    assert_eq!(cat[0].tags, vec!["moe", "fast", "coding"]);
    assert_eq!(cat[1].huggingface_repo, "google/gemma-3-27b-GGUF");
    assert_eq!(cat[2].min_ram_gb, 8);
    assert_eq!(cat[2].recommended_context, 32768);
    assert_eq!(cat[3].tq_recommended_bits, 0);
    assert!(!cat[3].tq_compatible);
    assert!(cat.iter().all(|e| e.sha256.is_none()));
}

fn server(id: &str) -> McpServer {
    McpServer {
        id: id.into(),
        name: format!("{} server", id),
        command: "npx".into(),
        args: vec!["-y".into(), id.into()],
        env: HashMap::new(),
        enabled: true,
    }
}

#[test]
fn servers_are_listed_in_registration_order() {
    let mut reg = McpRegistry::new();
    assert!(reg.list_servers().is_empty());
    reg.register_server(server("files"));
    reg.register_server(server("search"));
    let ids: Vec<&str> = reg.list_servers().iter().map(|s| s.id.as_str()).collect();
    assert_eq!(ids, vec!["files", "search"]);
    assert!(reg.discover_tools().is_empty());
}

fn row(key: &str, value: &str, category: &str) -> (String, String, String, String, i64) {
    ("id".into(), key.into(), value.into(), category.into(), 0)
}

#[test]
fn memory_context_shows_facts_then_preferences() {
    let mems = vec![
        row("name", "Ada", "fact"),
        row("style", "brief", "preference"),
        row("misc", "ignored", "general"),
        row("city", "Paris", "fact"),
    ];
    assert_eq!(
        format_memory_context(&mems),
        "## User Memory\n\n### Known Facts\n- name: Ada\n- city: Paris\n\n### User Preferences\n- style: brief\n\n"
    );
    assert_eq!(format_memory_context(&vec![]), "");
    assert_eq!(format_memory_context(&vec![row("k", "v", "general")]), "## User Memory\n\n");
}

#[test]
fn snippet_around_a_match() {
    let content = format!("{}needle{}", "a".repeat(60), "b".repeat(60));
    let s = content_snippet(&content, "NEEDLE").unwrap();
    assert_eq!(s, format!("...{}needle{}...", "a".repeat(50), "b".repeat(50)));
    assert_eq!(content_snippet("short text", "text"), Some("short text".to_string()));
    assert_eq!(content_snippet("short text", "missing"), Some("short text".to_string()));
}

#[test]
fn snippet_without_a_match_is_the_beginning() {
    let content = "x".repeat(150);
    assert_eq!(content_snippet(&content, "zzz"), Some("x".repeat(100)));
}

#[test]
fn snippet_that_would_cut_a_character_is_refused() {
    // 99 ASCII bytes then a two-byte character: byte 100 falls inside it
    let content = format!("{}é{}", "x".repeat(99), "y".repeat(10));
    assert_eq!(content_snippet(&content, "zzz"), None);
    assert_eq!(excerpt_around("abc", 0, None), "abc");
}

#[test]
fn a_reply_is_stored_only_when_streamed_and_not_empty() {
    let (reply, result) = finish_reply(Ok("Hello".to_string()));
    assert_eq!(reply, Some("Hello".to_string()));
    assert!(result.is_ok());
    let (reply, result) = finish_reply(Ok(String::new()));
    assert_eq!(reply, None);
    assert!(result.is_ok());
    let (reply, result) = finish_reply(Err("Ollama is down".to_string()));
    assert_eq!(reply, None);
    assert_eq!(result, Err("Ollama is down".to_string()));
}

#[test]
fn file_names_are_the_last_components_of_the_paths() {
    let paths = vec!["/models/Qwen3-8B-Q4_K_M.gguf".to_string(), "/".to_string(), "rel/a.gguf".to_string()];
    assert_eq!(file_names(&paths), vec!["Qwen3-8B-Q4_K_M.gguf".to_string(), "a.gguf".to_string()]);
    assert!(file_names(&vec![]).is_empty());
}
