//! Model Context Protocol servers: external tools that register with the
//! application and that the model can call. Each server exposes its tools by
//! JSON-RPC over stdio or HTTP.
use vstd::prelude::*;

use std::collections::HashMap;

use crate::json::JsonValue;

verus! {

/// How an MCP server is started.
pub struct McpServer {
    pub id: String,
    pub name: String,
    pub command: String,
    pub args: Vec<String>,
    pub env: HashMap<String, String>,
    pub enabled: bool,
}

/// A tool that an MCP server offers.
pub struct McpTool {
    pub server_id: String,
    pub name: String,
    pub description: String,
    pub input_schema: JsonValue,
}

/// The installed MCP servers, in the order they were registered.
pub struct McpRegistry {
    servers: Vec<McpServer>,
}

impl McpRegistry {
    pub closed spec fn spec_servers(&self) -> Seq<McpServer> {
        self.servers@
    }

    /// A registry with no server.
    pub fn new() -> (r: Self)
        ensures
            r.spec_servers() == Seq::<McpServer>::empty(),
    {
        McpRegistry { servers: Vec::new() }
    }

    /// Adds `server` after those already registered.
    pub fn register_server(&mut self, server: McpServer)
        ensures
            final(self).spec_servers() == old(self).spec_servers().push(server),
    {
        self.servers.push(server);
    }

    /// The registered servers, in order.
    pub fn list_servers(&self) -> (r: &[McpServer])
        ensures
            r@ == self.spec_servers(),
    {
        self.servers.as_slice()
    }

    /// The tools of the enabled servers. No server is queried yet, so there
    /// are none.
    pub fn discover_tools(&self) -> (r: Vec<McpTool>)
        ensures
            r@.len() == 0,
    {
        Vec::new()
    }
}

} // verus!
