pub mod text;
pub mod json;
pub mod tools;
pub mod rag;
pub mod inference;
pub mod turboquant;
pub mod models;
pub mod commands;
pub mod mcp;
pub mod memory;
