//! What a file's name says about it: whether it can be ingested, what kind of
//! document it is, its title; and the document made of a file's content.
use vstd::prelude::*;

use crate::rag::{DocType, Document};
use crate::text::{all_ascii, ascii_lowercase, spec_lowercase, str_eq, to_lowercase};

verus! {

/// What `Path::file_name` returns for `path` (the final component, `None`
/// when there is none or it is `..`).
pub uninterp spec fn spec_file_name(path: Seq<char>) -> Option<Seq<char>>;

/// The characters of an optional string.
pub open spec fn opt_chars(s: Option<String>) -> Option<Seq<char>> {
    match s {
        Some(x) => Some(x@),
        None => None,
    }
}

/// The index of the last `.` in `name`, if any.
pub open spec fn last_dot(name: Seq<char>) -> Option<int>
    decreases name.len(),
{
    if name.len() == 0 {
        None
    } else if name.last() == '.' {
        Some(name.len() - 1)
    } else {
        last_dot(name.drop_last())
    }
}

/// What `last_dot` finds is a `.` within the name.
proof fn lemma_last_dot(name: Seq<char>)
    ensures
        last_dot(name) matches Some(i) ==> 0 <= i < name.len() && name[i] == '.',
    decreases name.len(),
{
    if name.len() > 0 && name.last() != '.' {
        lemma_last_dot(name.drop_last());
    }
}

/// The extension of a file name, as `Path::extension` documents it: none
/// without a `.`, none when the only `.` begins the name, otherwise what
/// follows the last `.`.
pub open spec fn extension_of_name(name: Seq<char>) -> Option<Seq<char>> {
    match last_dot(name) {
        None => None,
        Some(i) => if i == 0 {
            None
        } else {
            Some(name.subrange(i + 1, name.len() as int))
        },
    }
}

/// The extension of `path`: that of its file name.
pub open spec fn path_extension_spec(path: Seq<char>) -> Option<Seq<char>> {
    match spec_file_name(path) {
        None => None,
        Some(name) => extension_of_name(name),
    }
}

/// Whether `path` is a single plain name: not empty, not `.` or `..`, and
/// without a slash, a backslash or a colon (a separator or a drive prefix
/// on some platform).
pub open spec fn simple_name(path: Seq<char>) -> bool {
    &&& path.len() > 0
    &&& path != "."@
    &&& path != ".."@
    &&& forall|i: int| 0 <= i < path.len() ==> path[i] != '/' && path[i] != '\\' && path[i] != ':'
}

/// Calls `Path::file_name` on `path`. Claimed: the result is a function of
/// `path` alone, named `spec_file_name` (a `&str` path has a UTF-8 name, so
/// the conversion to `&str` cannot fail); and, as its documentation's
/// `Path::new("foo.txt")` shows, a path that is a single plain name is its
/// own file name. What it gives for other paths is left to the name.
#[verifier::external_body]
pub(crate) fn file_name(path: &str) -> (r: Option<String>)
    ensures
        opt_chars(r) == spec_file_name(path@),
        simple_name(path@) ==> opt_chars(r) == Some(path@),
{
    std::path::Path::new(path).file_name().and_then(|n| n.to_str()).map(|n| n.to_string())
}

/// Calls `Path::extension` on `path`. Claimed, as its documentation states:
/// the extension of the file name by `extension_of_name`, where a path that
/// is a single plain name is its own file name.
#[verifier::external_body]
pub(crate) fn path_extension(path: &str) -> (r: Option<String>)
    ensures
        opt_chars(r) == path_extension_spec(path@),
        simple_name(path@) ==> opt_chars(r) == extension_of_name(path@),
{
    std::path::Path::new(path).extension().and_then(|e| e.to_str()).map(|e| e.to_string())
}

/// The lowercase extension of `path`, empty when it has none.
pub open spec fn lowercase_extension_spec(path: Seq<char>) -> Seq<char> {
    spec_lowercase(
        match path_extension_spec(path) {
            Some(e) => e,
            None => Seq::<char>::empty(),
        },
    )
}

/// The extension of a plain file name, empty when it has none.
pub open spec fn name_extension_or_empty(name: Seq<char>) -> Seq<char> {
    match extension_of_name(name) {
        Some(e) => e,
        None => Seq::<char>::empty(),
    }
}

/// The lowercase extension of `path`, empty when it has none; for an ASCII
/// path that is a single plain name, its extension lowercased as ASCII.
pub fn lowercase_extension(path: &str) -> (r: String)
    ensures
        r@ == lowercase_extension_spec(path@),
        simple_name(path@) && all_ascii(path@) ==> r@ == ascii_lowercase(name_extension_or_empty(path@)),
{
    match path_extension(path) {
        Some(e) => {
            proof {
                if simple_name(path@) && all_ascii(path@) {
                    let i = last_dot(path@)->0;
                    lemma_last_dot(path@);
                    assert forall|k: int| 0 <= k < e@.len() implies (e@[k] as u32) < 128 by {
                        assert(e@[k] == path@[i + 1 + k]);
                    }
                }
            }
            to_lowercase(e.as_str())
        },
        None => {
            let empty = String::new();
            to_lowercase(empty.as_str())
        },
    }
}

/// Whether `ext` is one of `list`.
pub open spec fn one_of(ext: Seq<char>, list: Seq<&str>) -> bool {
    exists|i: int| 0 <= i < list.len() && ext == list[i]@
}

fn is_one_of(ext: &str, list: &Vec<&str>) -> (b: bool)
    ensures
        b == one_of(ext@, list@),
{
    let mut i: usize = 0;
    while i < list.len()
        invariant
            i <= list.len(),
            forall|k: int| 0 <= k < i ==> ext@ != list@[k]@,
        decreases list.len() - i,
    {
        if str_eq(ext, list[i]) {
            return true;
        }
        i = i + 1;
    }
    false
}

/// The extensions of the files that can be ingested.
pub open spec fn supported_extensions() -> Seq<&'static str> {
    seq![
        "txt", "md", "markdown", "rs", "py", "js", "ts", "tsx", "jsx", "go", "java", "c", "cpp",
        "h", "hpp", "rb", "php", "swift", "kt", "scala", "css", "scss", "html", "xml", "json",
        "yaml", "yml", "toml", "ini", "cfg", "sh", "bash", "zsh", "fish", "sql", "graphql", "pdf",
        "docx", "csv", "tsv", "log",
    ]
}

fn supported_extension_list() -> (r: Vec<&'static str>)
    ensures
        r@ == supported_extensions(),
{
    let r = vec![
        "txt", "md", "markdown", "rs", "py", "js", "ts", "tsx", "jsx", "go", "java", "c", "cpp",
        "h", "hpp", "rb", "php", "swift", "kt", "scala", "css", "scss", "html", "xml", "json",
        "yaml", "yml", "toml", "ini", "cfg", "sh", "bash", "zsh", "fish", "sql", "graphql", "pdf",
        "docx", "csv", "tsv", "log",
    ];
    assert(r@ =~= supported_extensions());
    r
}

/// The files that are ingested are exactly those whose lowercase extension
/// is one of: txt, md, markdown, rs, py, js, ts, tsx, jsx, go,
/// java, c, cpp, h, hpp, rb, php, swift, kt, scala, css, scss, html, xml, json,
/// yaml, yml, toml, ini, cfg, sh, bash, zsh, fish, sql, graphql, pdf, docx, csv, tsv, log.
pub proof fn lemma_supported_extensions(e: Seq<char>)
    ensures
        one_of(e, supported_extensions()) <==> (
        e == "txt"@ || e == "md"@ || e == "markdown"@ || e == "rs"@ || e == "py"@ || e == "js"@ ||
            e == "ts"@ || e == "tsx"@ || e == "jsx"@ || e == "go"@ || e == "java"@ || e == "c"@ ||
            e == "cpp"@ || e == "h"@ || e == "hpp"@ || e == "rb"@ || e == "php"@ ||
            e == "swift"@ || e == "kt"@ || e == "scala"@ || e == "css"@ || e == "scss"@ ||
            e == "html"@ || e == "xml"@ || e == "json"@ || e == "yaml"@ || e == "yml"@ ||
            e == "toml"@ || e == "ini"@ || e == "cfg"@ || e == "sh"@ || e == "bash"@ ||
            e == "zsh"@ || e == "fish"@ || e == "sql"@ || e == "graphql"@ || e == "pdf"@ ||
            e == "docx"@ || e == "csv"@ || e == "tsv"@ || e == "log"@
        ),
{
    let list = supported_extensions();
    assert(list.len() == 41);
    if one_of(e, list) {
        let i = choose|i: int| 0 <= i < list.len() && e == list[i]@;
        if i == 0 {
            assert(list[0] == "txt");
        } else if i == 1 {
            assert(list[1] == "md");
        } else if i == 2 {
            assert(list[2] == "markdown");
        } else if i == 3 {
            assert(list[3] == "rs");
        } else if i == 4 {
            assert(list[4] == "py");
        } else if i == 5 {
            assert(list[5] == "js");
        } else if i == 6 {
            assert(list[6] == "ts");
        } else if i == 7 {
            assert(list[7] == "tsx");
        } else if i == 8 {
            assert(list[8] == "jsx");
        } else if i == 9 {
            assert(list[9] == "go");
        } else if i == 10 {
            assert(list[10] == "java");
        } else if i == 11 {
            assert(list[11] == "c");
        } else if i == 12 {
            assert(list[12] == "cpp");
        } else if i == 13 {
            assert(list[13] == "h");
        } else if i == 14 {
            assert(list[14] == "hpp");
        } else if i == 15 {
            assert(list[15] == "rb");
        } else if i == 16 {
            assert(list[16] == "php");
        } else if i == 17 {
            assert(list[17] == "swift");
        } else if i == 18 {
            assert(list[18] == "kt");
        } else if i == 19 {
            assert(list[19] == "scala");
        } else if i == 20 {
            assert(list[20] == "css");
        } else if i == 21 {
            assert(list[21] == "scss");
        } else if i == 22 {
            assert(list[22] == "html");
        } else if i == 23 {
            assert(list[23] == "xml");
        } else if i == 24 {
            assert(list[24] == "json");
        } else if i == 25 {
            assert(list[25] == "yaml");
        } else if i == 26 {
            assert(list[26] == "yml");
        } else if i == 27 {
            assert(list[27] == "toml");
        } else if i == 28 {
            assert(list[28] == "ini");
        } else if i == 29 {
            assert(list[29] == "cfg");
        } else if i == 30 {
            assert(list[30] == "sh");
        } else if i == 31 {
            assert(list[31] == "bash");
        } else if i == 32 {
            assert(list[32] == "zsh");
        } else if i == 33 {
            assert(list[33] == "fish");
        } else if i == 34 {
            assert(list[34] == "sql");
        } else if i == 35 {
            assert(list[35] == "graphql");
        } else if i == 36 {
            assert(list[36] == "pdf");
        } else if i == 37 {
            assert(list[37] == "docx");
        } else if i == 38 {
            assert(list[38] == "csv");
        } else if i == 39 {
            assert(list[39] == "tsv");
        } else if i == 40 {
            assert(list[40] == "log");
        }
    }
    assert(list[0]@ == "txt"@);
    assert(list[1]@ == "md"@);
    assert(list[2]@ == "markdown"@);
    assert(list[3]@ == "rs"@);
    assert(list[4]@ == "py"@);
    assert(list[5]@ == "js"@);
    assert(list[6]@ == "ts"@);
    assert(list[7]@ == "tsx"@);
    assert(list[8]@ == "jsx"@);
    assert(list[9]@ == "go"@);
    assert(list[10]@ == "java"@);
    assert(list[11]@ == "c"@);
    assert(list[12]@ == "cpp"@);
    assert(list[13]@ == "h"@);
    assert(list[14]@ == "hpp"@);
    assert(list[15]@ == "rb"@);
    assert(list[16]@ == "php"@);
    assert(list[17]@ == "swift"@);
    assert(list[18]@ == "kt"@);
    assert(list[19]@ == "scala"@);
    assert(list[20]@ == "css"@);
    assert(list[21]@ == "scss"@);
    assert(list[22]@ == "html"@);
    assert(list[23]@ == "xml"@);
    assert(list[24]@ == "json"@);
    assert(list[25]@ == "yaml"@);
    assert(list[26]@ == "yml"@);
    assert(list[27]@ == "toml"@);
    assert(list[28]@ == "ini"@);
    assert(list[29]@ == "cfg"@);
    assert(list[30]@ == "sh"@);
    assert(list[31]@ == "bash"@);
    assert(list[32]@ == "zsh"@);
    assert(list[33]@ == "fish"@);
    assert(list[34]@ == "sql"@);
    assert(list[35]@ == "graphql"@);
    assert(list[36]@ == "pdf"@);
    assert(list[37]@ == "docx"@);
    assert(list[38]@ == "csv"@);
    assert(list[39]@ == "tsv"@);
    assert(list[40]@ == "log"@);
}

/// Whether a file can be ingested: its lowercase extension is a text,
/// markup, code, data, PDF or DOCX extension.
pub fn is_supported_file(path: &str) -> (b: bool)
    ensures
        b == one_of(lowercase_extension_spec(path@), supported_extensions()),
        simple_name(path@) && all_ascii(path@) ==> b == one_of(
            ascii_lowercase(name_extension_or_empty(path@)),
            supported_extensions(),
        ),
{
    let ext = lowercase_extension(path);
    let list = supported_extension_list();
    is_one_of(ext.as_str(), &list)
}

/// The extensions of plain-text documents.
pub open spec fn plain_text_extensions() -> Seq<&'static str> {
    seq!["txt", "log", "csv", "tsv", "json", "yaml", "yml", "toml", "xml", "ini", "cfg"]
}

/// The kind of document a file holds, by its lowercase extension `e`:
/// Markdown, PDF, DOCX, HTML, plain text, and otherwise code in the language `e`.
pub open spec fn doc_type_of(e: Seq<char>, d: DocType) -> bool {
    if e == "md"@ || e == "markdown"@ {
        d == DocType::Markdown
    } else if e == "pdf"@ {
        d == DocType::Pdf
    } else if e == "docx"@ {
        d == DocType::Docx
    } else if e == "html"@ || e == "htm"@ {
        d == DocType::Html
    } else if one_of(e, plain_text_extensions()) {
        d == DocType::PlainText
    } else {
        d matches DocType::Code(lang) && lang@ == e
    }
}

/// The kind of document at `path`, by its extension.
pub fn detect_doc_type(path: &str) -> (d: DocType)
    ensures
        doc_type_of(lowercase_extension_spec(path@), d),
{
    let ext = lowercase_extension(path);
    let e = ext.as_str();
    if str_eq(e, "md") || str_eq(e, "markdown") {
        DocType::Markdown
    } else if str_eq(e, "pdf") {
        DocType::Pdf
    } else if str_eq(e, "docx") {
        DocType::Docx
    } else if str_eq(e, "html") || str_eq(e, "htm") {
        DocType::Html
    } else {
        let plain = vec!["txt", "log", "csv", "tsv", "json", "yaml", "yml", "toml", "xml", "ini", "cfg"];
        assert(plain@ =~= plain_text_extensions());
        if is_one_of(e, &plain) {
            DocType::PlainText
        } else {
            DocType::Code(ext.clone())
        }
    }
}

/// PDF text extraction is not available: always the same error.
pub fn parse_pdf(_path: &str) -> (r: Result<String, String>)
    ensures
        r matches Err(e) && e@ == "PDF parsing not yet implemented — install pdf-extract crate"@,
{
    Err(String::from_str("PDF parsing not yet implemented — install pdf-extract crate"))
}

/// DOCX text extraction is not available: always the same error.
pub fn parse_docx(_path: &str) -> (r: Result<String, String>)
    ensures
        r matches Err(e) && e@ == "DOCX parsing not yet implemented — install docx-rs crate"@,
{
    Err(String::from_str("DOCX parsing not yet implemented — install docx-rs crate"))
}

/// How the content of a file is obtained.
#[derive(Debug)]
pub enum ContentSource {
    /// By reading the file as UTF-8 text.
    ReadText,
    /// It cannot be: the error to report.
    Unavailable(String),
}

/// How the content of the file at `path` is obtained: PDF and DOCX files
/// fail with their parsers' errors, everything else is read as text.
pub fn content_source(path: &str) -> (r: ContentSource)
    ensures
        lowercase_extension_spec(path@) == "pdf"@ ==> (r matches ContentSource::Unavailable(e)
            && e@ == "PDF parsing not yet implemented — install pdf-extract crate"@),
        lowercase_extension_spec(path@) == "docx"@ ==> (r matches ContentSource::Unavailable(e)
            && e@ == "DOCX parsing not yet implemented — install docx-rs crate"@),
        lowercase_extension_spec(path@) != "pdf"@ && lowercase_extension_spec(path@) != "docx"@
            ==> r is ReadText,
{
    let ext = lowercase_extension(path);
    proof {
        reveal_strlit("pdf");
        reveal_strlit("docx");
        assert("pdf"@.len() == 3 && "docx"@.len() == 4);
    }
    if str_eq(ext.as_str(), "pdf") {
        match parse_pdf(path) {
            Ok(_) => ContentSource::ReadText,
            Err(e) => ContentSource::Unavailable(e),
        }
    } else if str_eq(ext.as_str(), "docx") {
        match parse_docx(path) {
            Ok(_) => ContentSource::ReadText,
            Err(e) => ContentSource::Unavailable(e),
        }
    } else {
        ContentSource::ReadText
    }
}

/// The title of the document at `path`: its file name, empty when it has none.
pub open spec fn title_of(path: Seq<char>) -> Seq<char> {
    match spec_file_name(path) {
        Some(n) => n,
        None => Seq::<char>::empty(),
    }
}

/// The document for the file at `path` with identifier `id`, content
/// `content`, size and modification time (seconds since the epoch).
pub fn build_document(path: &str, id: String, content: String, size_bytes: u64, last_modified: i64) -> (r: Document)
    ensures
        r.id == id,
        r.path@ == path@,
        r.title@ == title_of(path@),
        r.content == content,
        doc_type_of(lowercase_extension_spec(path@), r.doc_type),
        r.size_bytes == size_bytes,
        r.last_modified == last_modified,
{
    let title = match file_name(path) {
        Some(n) => n,
        None => String::new(),
    };
    Document {
        id,
        path: String::from_str(path),
        title,
        content,
        doc_type: detect_doc_type(path),
        size_bytes,
        last_modified,
    }
}

/// Whether a directory is passed over when walking a tree: hidden ones and
/// `node_modules`, `target` and `dist`.
pub fn is_skipped_dir(name: &str) -> (b: bool)
    ensures
        b == ((name@.len() > 0 && name@[0] == '.') || name@ == "node_modules"@ || name@
            == "target"@ || name@ == "dist"@),
{
    let v = crate::text::chars_of(name);
    (v.len() > 0 && v[0] == '.') || str_eq(name, "node_modules") || str_eq(name, "target")
        || str_eq(name, "dist")
}

} // verus!
