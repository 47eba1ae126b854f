# nexusai

The core of a local-first AI assistant runtime, written in Verus: the logic is
proved against its contracts, and the input/output around it is kept apart.

## Layout

- `src/` — the verified library.
  - `text`, `json`: characters, UTF-8 lengths, white space, searching and
    splitting; a JSON value of the library's own, and the calls into
    `serde_json` that parse and print it.
  - `rag`: documents, structure-aware chunking (paragraphs, lines,
    sentences, words), the keyword index and its ranking, the embedder, the
    pipeline.
  - `tools`: tool definitions, the tool-call parser (Llama 3.x, ChatML and
    JSON lines), tool results, and the agent session with its approval gate.
  - `inference`: the engine state, the chat request for Ollama and the
    reading of its streamed reply; llama.cpp session parameters and the
    ChatML prompt; TurboQuant KV-cache settings; model downloads (resume
    plan, byte counts, SHA-256 checks).
  - `turboquant`: bits per element, compression ratio and KV-cache sizes.
  - `models`, `commands`, `mcp`, `memory`: the model catalogs and the model
    list, loading a model, chat messages, system recommendations, the MCP
    server registry, the memory context of the system prompt and search
    excerpts.
- `tests/` — tests run against the compiled library.
- `app/` — ordinary Rust around the library: SQLite, HTTP (Ollama,
  HuggingFace), the file system, floating-point statistics and scores, and
  the commands that the desktop front end calls.
