//! Tool definitions offered to the model, tool calls parsed from its output,
//! and the results fed back to it.
use vstd::prelude::*;

use crate::json::{json_as_str, json_get, json_quote, json_quote_string, JsonValue, JsonView};
use crate::text::{concat_str, push_str_chars, str_eq, string_from_chars};

pub mod agent;
pub mod parser;

verus! {

/// A tool that the model may call.
#[derive(Debug)]
pub struct ToolDefinition {
    pub name: String,
    pub description: String,
    pub parameters: JsonValue,
}

/// The outcome of executing a tool call.
#[derive(Debug, Clone)]
pub struct ToolResult {
    pub name: String,
    pub success: bool,
    pub output: String,
    pub error: Option<String>,
}

/// A tool call parsed from model output.
#[derive(Debug)]
pub struct ToolCall {
    pub name: String,
    pub arguments: JsonValue,
}

impl View for ToolCall {
    type V = (Seq<char>, JsonView);

    open spec fn view(&self) -> (Seq<char>, JsonView) {
        (self.name@, self.arguments@)
    }
}

impl ToolCall {
    /// A copy of this call.
    pub fn duplicate(&self) -> (r: ToolCall)
        ensures
            r@ == self@,
    {
        ToolCall { name: self.name.clone(), arguments: self.arguments.clone() }
    }
}

/// The JSON schema of one string parameter.
pub open spec fn string_param_view(description: Seq<char>) -> JsonView {
    JsonView::Object(
        seq![("description"@, JsonView::Str(description)), ("type"@, JsonView::Str("string"@))],
    )
}

/// The JSON schema of an object whose parameters are the strings `props`
/// (name, description), with the names `required` required, in that order.
/// Members are listed in key order, as `serde_json` keeps them.
pub open spec fn object_schema_view(props: Seq<(Seq<char>, Seq<char>)>, required: Seq<Seq<char>>) -> JsonView {
    JsonView::Object(
        seq![
            ("properties"@, JsonView::Object(props.map_values(|p: (Seq<char>, Seq<char>)| (p.0, string_param_view(p.1))))),
            ("required"@, JsonView::Array(required.map_values(|n: Seq<char>| JsonView::Str(n)))),
            ("type"@, JsonView::Str("object"@)),
        ],
    )
}

fn string_param(description: &str) -> (r: JsonValue)
    ensures
        r@ == string_param_view(description@),
{
    let members = vec![
        (String::from_str("description"), JsonValue::Str(String::from_str(description))),
        (String::from_str("type"), JsonValue::Str(String::from_str("string"))),
    ];
    let r = JsonValue::Object(members);
    proof {
        crate::json::lemma_member_views(members@);
        assert(crate::json::member_views(members@) =~= seq![("description"@, JsonView::Str(description@)), ("type"@, JsonView::Str("string"@))]);
    }
    r
}

/// The schema of an object whose string parameters are `props`, with the
/// names `names` required. `props` is given in key order.
fn object_schema(props: Vec<(&str, &str)>, names: Vec<&str>) -> (r: JsonValue)
    ensures
        r@ == object_schema_view(
            props@.map_values(|p: (&str, &str)| (p.0@, p.1@)),
            names@.map_values(|n: &str| n@),
        ),
{
    let ghost pv = props@.map_values(|p: (&str, &str)| (p.0@, p.1@));
    let ghost nv = names@.map_values(|n: &str| n@);
    let mut properties: Vec<(String, JsonValue)> = Vec::new();
    let mut required: Vec<JsonValue> = Vec::new();
    let mut i: usize = 0;
    while i < props.len()
        invariant
            i <= props.len(),
            pv == props@.map_values(|p: (&str, &str)| (p.0@, p.1@)),
            properties.len() == i,
            forall|k: int|
                0 <= k < i ==> #[trigger] properties@[k].0@ == pv[k].0 && properties@[k].1@
                    == string_param_view(pv[k].1),
        decreases props.len() - i,
    {
        let (name, description) = props[i];
        properties.push((String::from_str(name), string_param(description)));
        i = i + 1;
    }
    let mut j: usize = 0;
    while j < names.len()
        invariant
            j <= names.len(),
            nv == names@.map_values(|n: &str| n@),
            required.len() == j,
            forall|k: int| 0 <= k < j ==> #[trigger] required@[k]@ == JsonView::Str(nv[k]),
        decreases names.len() - j,
    {
        required.push(JsonValue::Str(String::from_str(names[j])));
        j = j + 1;
    }
    let members = vec![
        (String::from_str("properties"), JsonValue::Object(properties)),
        (String::from_str("required"), JsonValue::Array(required)),
        (String::from_str("type"), JsonValue::Str(String::from_str("object"))),
    ];
    proof {
        crate::json::lemma_member_views(properties@);
        crate::json::lemma_json_views(required@);
        crate::json::lemma_member_views(members@);
        assert forall|k: int| 0 <= k < names.len() implies #[trigger] crate::json::json_views(required@)[k] == JsonView::Str(nv[k]) by {
            assert(required@[k]@ == JsonView::Str(nv[k]));
        }
        assert forall|k: int| 0 <= k < props.len() implies #[trigger] crate::json::member_views(properties@)[k] == (pv[k].0, string_param_view(pv[k].1)) by {
            assert(properties@[k].0@ == pv[k].0);
        }
        assert(crate::json::member_views(properties@) =~= pv.map_values(
            |p: (Seq<char>, Seq<char>)| (p.0, string_param_view(p.1)),
        ));
        assert(crate::json::json_views(required@) =~= nv.map_values(|n: Seq<char>| JsonView::Str(n)));
        assert(crate::json::member_views(members@) =~= seq![
            ("properties"@, JsonView::Object(pv.map_values(|p: (Seq<char>, Seq<char>)| (p.0, string_param_view(p.1))))),
            ("required"@, JsonView::Array(nv.map_values(|n: Seq<char>| JsonView::Str(n)))),
            ("type"@, JsonView::Str("object"@)),
        ]);
    }
    JsonValue::Object(members)
}

/// Name, description and parameter schema of a tool definition.
pub open spec fn tool_def_is(
    t: ToolDefinition,
    name: Seq<char>,
    description: Seq<char>,
    props: Seq<(Seq<char>, Seq<char>)>,
    required: Seq<Seq<char>>,
) -> bool {
    &&& t.name@ == name
    &&& t.description@ == description
    &&& t.parameters@ == object_schema_view(props, required)
}

fn tool_def(name: &str, description: &str, props: Vec<(&str, &str)>, required: Vec<&str>) -> (r: ToolDefinition)
    ensures
        tool_def_is(
            r,
            name@,
            description@,
            props@.map_values(|p: (&str, &str)| (p.0@, p.1@)),
            required@.map_values(|n: &str| n@),
        ),
{
    ToolDefinition {
        name: String::from_str(name),
        description: String::from_str(description),
        parameters: object_schema(props, required),
    }
}

/// The tools built into the agent: reading, writing and listing files,
/// fetching a URL and evaluating an expression.
pub fn builtin_tools() -> (r: Vec<ToolDefinition>)
    ensures
        r.len() == 5,
        tool_def_is(
            r[0],
            "read_file"@,
            "Read the contents of a file at the given path"@,
            seq![("path"@, "File path to read"@)],
            seq!["path"@],
        ),
        tool_def_is(
            r[1],
            "write_file"@,
            "Write content to a file at the given path"@,
            seq![("content"@, "Content to write"@), ("path"@, "File path to write"@)],
            seq!["path"@, "content"@],
        ),
        tool_def_is(
            r[2],
            "list_directory"@,
            "List files and directories at the given path"@,
            seq![("path"@, "Directory path"@)],
            seq!["path"@],
        ),
        tool_def_is(
            r[3],
            "web_fetch"@,
            "Fetch the text content of a URL"@,
            seq![("url"@, "URL to fetch"@)],
            seq!["url"@],
        ),
        tool_def_is(
            r[4],
            "calculator"@,
            "Evaluate a mathematical expression"@,
            seq![("expression"@, "Math expression to evaluate"@)],
            seq!["expression"@],
        ),
{
    let p0 = vec![("path", "File path to read")];
    let p1 = vec![("content", "Content to write"), ("path", "File path to write")];
    let p2 = vec![("path", "Directory path")];
    let p3 = vec![("url", "URL to fetch")];
    let p4 = vec![("expression", "Math expression to evaluate")];
    proof {
        assert(p0@.map_values(|p: (&str, &str)| (p.0@, p.1@)) =~= seq![("path"@, "File path to read"@)]);
        assert(p1@.map_values(|p: (&str, &str)| (p.0@, p.1@)) =~= seq![
            ("content"@, "Content to write"@),
            ("path"@, "File path to write"@),
        ]);
        assert(p2@.map_values(|p: (&str, &str)| (p.0@, p.1@)) =~= seq![("path"@, "Directory path"@)]);
        assert(p3@.map_values(|p: (&str, &str)| (p.0@, p.1@)) =~= seq![("url"@, "URL to fetch"@)]);
        assert(p4@.map_values(|p: (&str, &str)| (p.0@, p.1@)) =~= seq![
            ("expression"@, "Math expression to evaluate"@),
        ]);
    }
    let r0 = vec!["path"];
    let r1 = vec!["path", "content"];
    let r2 = vec!["path"];
    let r3 = vec!["url"];
    let r4 = vec!["expression"];
    proof {
        assert(r0@.map_values(|n: &str| n@) =~= seq!["path"@]);
        assert(r1@.map_values(|n: &str| n@) =~= seq!["path"@, "content"@]);
        assert(r2@.map_values(|n: &str| n@) =~= seq!["path"@]);
        assert(r3@.map_values(|n: &str| n@) =~= seq!["url"@]);
        assert(r4@.map_values(|n: &str| n@) =~= seq!["expression"@]);
    }
    let t0 = tool_def("read_file", "Read the contents of a file at the given path", p0, r0);
    let t1 = tool_def("write_file", "Write content to a file at the given path", p1, r1);
    let t2 = tool_def("list_directory", "List files and directories at the given path", p2, r2);
    let t3 = tool_def("web_fetch", "Fetch the text content of a URL", p3, r3);
    let t4 = tool_def("calculator", "Evaluate a mathematical expression", p4, r4);
    let r = vec![t0, t1, t2, t3, t4];
    r
}

/// The tools that run without asking the user: reading a file, listing a
/// directory and the calculator. Every other tool, known or not, asks.
pub open spec fn is_safe_tool(name: Seq<char>) -> bool {
    name == "read_file"@ || name == "list_directory"@ || name == "calculator"@
}

/// The tool names that the library tells apart are distinct.
proof fn lemma_tool_names_distinct()
    ensures
        "write_file"@ != "read_file"@,
        "write_file"@ != "list_directory"@,
        "write_file"@ != "calculator"@,
        "shell_exec"@ != "read_file"@,
        "shell_exec"@ != "list_directory"@,
        "shell_exec"@ != "calculator"@,
        "web_fetch"@ != "read_file"@,
        "web_fetch"@ != "list_directory"@,
        "web_fetch"@ != "calculator"@,
        "read_file"@ != "list_directory"@,
{
    reveal_strlit("write_file");
    reveal_strlit("shell_exec");
    reveal_strlit("web_fetch");
    reveal_strlit("read_file");
    reveal_strlit("list_directory");
    reveal_strlit("calculator");
    assert("write_file"@[0] == 'w' && "write_file"@.len() == 10);
    assert("shell_exec"@[0] == 's');
    assert("web_fetch"@[0] == 'w' && "web_fetch"@.len() == 9);
    assert("read_file"@[0] == 'r');
    assert("list_directory"@[0] == 'l');
    assert("calculator"@[0] == 'c');
}

/// Whether a call must be approved by the user before it runs.
pub fn requires_approval(call: &ToolCall) -> (r: bool)
    ensures
        r == !is_safe_tool(call.name@),
{
    let n = call.name.as_str();
    if str_eq(n, "write_file") || str_eq(n, "shell_exec") || str_eq(n, "web_fetch") {
        proof {
            lemma_tool_names_distinct();
        }
        true
    } else if str_eq(n, "read_file") || str_eq(n, "list_directory") || str_eq(n, "calculator") {
        false
    } else {
        true
    }
}

/// The text fed back to the model for a successful call.
pub open spec fn success_response(name: Seq<char>, output: Seq<char>) -> Seq<char> {
    "<tool_response>\n{\n  \"name\": \""@ + name + "\",\n  \"output\": "@ + json_quote(output)
        + "\n}\n</tool_response>"@
}

/// The text fed back to the model for a failed call; a missing error is `null`.
pub open spec fn failure_response(name: Seq<char>, error: Option<Seq<char>>) -> Seq<char> {
    "<tool_response>\n{\n  \"name\": \""@ + name + "\",\n  \"error\": "@ + match error {
        Some(e) => json_quote(e),
        None => "null"@,
    } + "\n}\n</tool_response>"@
}

/// The error of a result, as characters.
pub open spec fn error_view(e: Option<String>) -> Option<Seq<char>> {
    match e {
        Some(s) => Some(s@),
        None => None,
    }
}

/// Formats a tool result for injection back into the model prompt.
pub fn format_tool_result(result: &ToolResult) -> (r: String)
    ensures
        r@ == if result.success {
            success_response(result.name@, result.output@)
        } else {
            failure_response(result.name@, error_view(result.error))
        },
{
    let mut v: Vec<char> = Vec::new();
    push_str_chars(&mut v, "<tool_response>\n{\n  \"name\": \"");
    push_str_chars(&mut v, result.name.as_str());
    if result.success {
        push_str_chars(&mut v, "\",\n  \"output\": ");
        let q = json_quote_string(result.output.as_str());
        push_str_chars(&mut v, q.as_str());
    } else {
        push_str_chars(&mut v, "\",\n  \"error\": ");
        match &result.error {
            Some(e) => {
                let q = json_quote_string(e.as_str());
                push_str_chars(&mut v, q.as_str());
            },
            None => {
                push_str_chars(&mut v, "null");
            },
        }
    }
    push_str_chars(&mut v, "\n}\n</tool_response>");
    string_from_chars(v.as_slice())
}

/// What executing a call takes: reading a file, listing a directory, or
/// nothing more, the result being known already.
#[derive(Debug)]
pub enum ToolAction {
    ReadFile(String),
    ListDirectory(String),
    Finished(ToolResult),
}

/// The string argument `key` of a call, or `default` when it is missing or
/// not a string.
pub open spec fn string_arg(args: JsonView, key: Seq<char>, default: Seq<char>) -> Seq<char> {
    match json_as_str(json_get(args, key)) {
        Some(s) => s,
        None => default,
    }
}

/// The error reported for a tool that has no implementation.
pub open spec fn not_implemented_error(name: Seq<char>) -> Seq<char> {
    "Tool '"@ + name + "' not yet implemented"@
}

fn string_arg_of(args: &JsonValue, key: &str, default: &str) -> (r: String)
    ensures
        r@ == string_arg(args@, key@, default@),
{
    match args.get(key) {
        Some(v) => match v.as_str() {
            Some(s) => s.clone(),
            None => String::from_str(default),
        },
        None => String::from_str(default),
    }
}

/// Decides what executing `call` takes: `read_file` reads its `path`
/// (empty when missing), `list_directory` lists its `path` (`.` when missing),
/// and any other tool fails at once as not implemented.
pub fn plan_tool(call: &ToolCall) -> (r: ToolAction)
    ensures
        call.name@ == "read_file"@ ==> (r matches ToolAction::ReadFile(p) && p@ == string_arg(
            call.arguments@,
            "path"@,
            ""@,
        )),
        call.name@ == "list_directory"@ ==> (r matches ToolAction::ListDirectory(p) && p@
            == string_arg(call.arguments@, "path"@, "."@)),
        call.name@ != "read_file"@ && call.name@ != "list_directory"@ ==> (r matches ToolAction::Finished(res) && res.name@ == call.name@ && !res.success
            && res.output@ == Seq::<char>::empty() && error_view(res.error) == Some(
            not_implemented_error(call.name@),
        )),
{
    let n = call.name.as_str();
    proof {
        lemma_tool_names_distinct();
    }
    if str_eq(n, "read_file") {
        ToolAction::ReadFile(string_arg_of(&call.arguments, "path", ""))
    } else if str_eq(n, "list_directory") {
        ToolAction::ListDirectory(string_arg_of(&call.arguments, "path", "."))
    } else {
        let msg = concat_str("Tool '", n);
        let msg = concat_str(msg.as_str(), "' not yet implemented");
        ToolAction::Finished(
            ToolResult {
                name: call.name.clone(),
                success: false,
                output: String::new(),
                error: Some(msg),
            },
        )
    }
}

/// The result of a `read_file` call given what reading the file gave.
pub fn read_file_result(name: &str, read: Result<String, String>) -> (r: ToolResult)
    ensures
        r.name@ == name@,
        match read {
            Ok(content) => r.success && r.output@ == content@ && r.error is None,
            Err(e) => !r.success && r.output@ == Seq::<char>::empty() && error_view(r.error)
                == Some(e@),
        },
{
    match read {
        Ok(content) => ToolResult {
            name: String::from_str(name),
            success: true,
            output: content,
            error: None,
        },
        Err(e) => ToolResult {
            name: String::from_str(name),
            success: false,
            output: String::new(),
            error: Some(e),
        },
    }
}

/// One line of a directory listing: the entry's name, with `/` after a directory.
pub open spec fn listing_line(entry: (Seq<char>, bool)) -> Seq<char> {
    if entry.1 {
        entry.0 + "/"@
    } else {
        entry.0
    }
}

/// The lines of a directory listing joined by newlines.
pub open spec fn listing_text(entries: Seq<(Seq<char>, bool)>) -> Seq<char>
    decreases entries.len(),
{
    if entries.len() == 0 {
        seq![]
    } else if entries.len() == 1 {
        listing_line(entries[0])
    } else {
        listing_text(entries.drop_last()) + "\n"@ + listing_line(entries.last())
    }
}

/// The entries of a listing as characters.
pub open spec fn entry_views(entries: Seq<(String, bool)>) -> Seq<(Seq<char>, bool)> {
    entries.map_values(|e: (String, bool)| (e.0@, e.1))
}

/// The result of a `list_directory` call given the directory's entries
/// (name, whether it is a directory) or the error reading it gave.
pub fn list_directory_result(name: &str, listing: Result<Vec<(String, bool)>, String>) -> (r:
    ToolResult)
    ensures
        r.name@ == name@,
        match listing {
            Ok(entries) => r.success && r.output@ == listing_text(entry_views(entries@))
                && r.error is None,
            Err(e) => !r.success && r.output@ == Seq::<char>::empty() && error_view(r.error)
                == Some(e@),
        },
{
    match listing {
        Ok(entries) => {
            let ghost ev = entry_views(entries@);
            let mut v: Vec<char> = Vec::new();
            let mut i: usize = 0;
            while i < entries.len()
                invariant
                    i <= entries.len(),
                    ev == entry_views(entries@),
                    v@ == listing_text(ev.subrange(0, i as int)),
                decreases entries.len() - i,
            {
                if i > 0 {
                    push_str_chars(&mut v, "\n");
                }
                push_str_chars(&mut v, entries[i].0.as_str());
                if entries[i].1 {
                    push_str_chars(&mut v, "/");
                }
                proof {
                    let sub = ev.subrange(0, i + 1);
                    assert(sub.drop_last() =~= ev.subrange(0, i as int));
                    assert(sub.last() == ev[i as int]);
                    if i == 0 {
                        assert(ev.subrange(0, 0) =~= Seq::<(Seq<char>, bool)>::empty());
                    }
                }
                i = i + 1;
            }
            assert(ev.subrange(0, entries.len() as int) =~= ev);
            ToolResult {
                name: String::from_str(name),
                success: true,
                output: string_from_chars(v.as_slice()),
                error: None,
            }
        },
        Err(e) => ToolResult {
            name: String::from_str(name),
            success: false,
            output: String::new(),
            error: Some(e),
        },
    }
}

} // verus!
