//! Parsing tool calls out of model output. Three formats are recognised, in
//! this order of preference:
//! - Llama 3.x: `<function=NAME>{json arguments}</function>`
//! - Qwen/ChatML: `<tool_call>{"name": ..., "arguments": ...}</tool_call>`
//! - a JSON line: `{"tool_calls": [{"name": ..., "arguments": ...}]}` or
//!   `{"name": ..., "arguments": ...}`
use vstd::prelude::*;

use crate::json::{
    json_as_array, json_as_str, json_clone, json_get, json_views, lemma_json_views, parse_json,
    spec_parse_json, JsonValue, JsonView,
};
use crate::text::{
    chars_of, copy_range, find_chars, find_from, lemma_find_from, lemma_trim_is_subrange, occurs_at, split,
    split_chars, split_from,
    string_from_chars, trim, trim_chars, views,
};
use crate::tools::ToolCall;

verus! {

broadcast use vstd::seq::group_seq_axioms;

/// The views of a sequence of calls.
pub open spec fn call_views(calls: Seq<ToolCall>) -> Seq<(Seq<char>, JsonView)> {
    calls.map_values(|c: ToolCall| c@)
}

/// Llama 3.x calls in `s` from index `pos` on: each `<function=` is followed
/// by a name up to the next `>`, then a body up to the next `</function>`;
/// a body that is JSON gives a call, one that is not is skipped; scanning
/// stops at a tag left open.
pub open spec fn llama3_calls_from(s: Seq<char>, pos: int) -> Seq<(Seq<char>, JsonView)>
    decreases s.len() - pos,
    when 0 <= pos <= s.len()
{
    match find_from(s, "<function="@, pos) {
        None => seq![],
        Some(start) => {
            let a = start + "<function="@.len();
            match find_from(s, seq!['>'], a) {
                None => seq![],
                Some(name_end) => {
                    let b = name_end + 1;
                    match find_from(s, "</function>"@, b) {
                        None => seq![],
                        Some(end) => {
                            proof {
                                lemma_find_from(s, "<function="@, pos);
                                lemma_find_from(s, seq!['>'], a);
                                lemma_find_from(s, "</function>"@, b);
                                reveal_strlit("</function>");
                            }
                            let rest = llama3_calls_from(s, end + "</function>"@.len());
                            match spec_parse_json(s.subrange(b, end)) {
                                Some(args) => seq![(s.subrange(a, name_end), args)] + rest,
                                None => rest,
                            }
                        },
                    }
                },
            }
        },
    }
}

/// The name and arguments of a JSON call object, when it has a string
/// `name` and an `arguments` member.
pub open spec fn call_of_json(v: JsonView) -> Option<(Seq<char>, JsonView)> {
    match (json_as_str(json_get(v, "name"@)), json_get(v, "arguments"@)) {
        (Some(n), Some(a)) => Some((n, a)),
        _ => None,
    }
}

/// ChatML calls in `s` from index `pos` on: the trimmed body between each
/// `<tool_call>` and the next `</tool_call>` gives a call when it is a JSON
/// call object, and is skipped otherwise; scanning stops at a tag left open.
pub open spec fn chatml_calls_from(s: Seq<char>, pos: int) -> Seq<(Seq<char>, JsonView)>
    decreases s.len() - pos,
    when 0 <= pos <= s.len()
{
    match find_from(s, "<tool_call>"@, pos) {
        None => seq![],
        Some(start) => {
            let b = start + "<tool_call>"@.len();
            match find_from(s, "</tool_call>"@, b) {
                None => seq![],
                Some(end) => {
                    proof {
                        lemma_find_from(s, "<tool_call>"@, pos);
                        lemma_find_from(s, "</tool_call>"@, b);
                        reveal_strlit("</tool_call>");
                    }
                    let rest = chatml_calls_from(s, end + "</tool_call>"@.len());
                    match spec_parse_json(trim(s.subrange(b, end))) {
                        Some(v) => match call_of_json(v) {
                            Some(c) => seq![c] + rest,
                            None => rest,
                        },
                        None => rest,
                    }
                },
            }
        },
    }
}

/// The call objects of a `tool_calls` array, in order, those lacking a
/// string `name` or an `arguments` member left out.
pub open spec fn array_calls(items: Seq<JsonView>) -> Seq<(Seq<char>, JsonView)>
    decreases items.len(),
{
    if items.len() == 0 {
        seq![]
    } else {
        let rest = array_calls(items.drop_last());
        match call_of_json(items.last()) {
            Some(c) => rest.push(c),
            None => rest,
        }
    }
}

/// Calls given by the JSON lines of `lines` from line `i` on: the first
/// trimmed line that starts with `{`, parses, and holds either a
/// `tool_calls` array or a call object decides the result; other lines are
/// passed over.
pub open spec fn json_line_calls_from(lines: Seq<Seq<char>>, i: int) -> Seq<(Seq<char>, JsonView)>
    decreases lines.len() - i,
{
    if i < 0 || i >= lines.len() {
        seq![]
    } else {
        let t = trim(lines[i]);
        let next = json_line_calls_from(lines, i + 1);
        if t.len() > 0 && t[0] == '{' {
            match spec_parse_json(t) {
                Some(v) => match json_as_array(json_get(v, "tool_calls"@)) {
                    Some(items) => array_calls(items),
                    None => match call_of_json(v) {
                        Some(c) => seq![c],
                        None => next,
                    },
                },
                None => next,
            }
        } else {
            next
        }
    }
}

/// Calls in the JSON lines of `s` (its pieces between newlines; trimming
/// makes them the lines `str::lines` yields).
pub open spec fn json_calls(s: Seq<char>) -> Seq<(Seq<char>, JsonView)> {
    json_line_calls_from(split(s, "\n"@), 0)
}

/// The tool calls of model output `s`: the Llama 3.x calls if there are
/// any, else the ChatML calls if there are any, else the JSON-line calls.
pub open spec fn tool_calls_of(s: Seq<char>) -> Seq<(Seq<char>, JsonView)> {
    let l = llama3_calls_from(s, 0);
    if l.len() > 0 {
        l
    } else {
        let c = chatml_calls_from(s, 0);
        if c.len() > 0 {
            c
        } else {
            json_calls(s)
        }
    }
}

/// Whether `c` occurs nowhere in `s`.
pub open spec fn lacks_char(s: Seq<char>, c: char) -> bool {
    forall|i: int| 0 <= i < s.len() ==> s[i] != c
}

/// The pieces of a split lack what the text lacks.
proof fn lemma_split_lacks(s: Seq<char>, pat: Seq<char>, from: int, c: char)
    requires
        pat.len() > 0,
        0 <= from <= s.len(),
        lacks_char(s, c),
    ensures
        forall|k: int| 0 <= k < split_from(s, pat, from).len() ==> lacks_char(#[trigger] split_from(s, pat, from)[k], c),
    decreases s.len() - from,
{
    lemma_find_from(s, pat, from);
    match find_from(s, pat, from) {
        None => {
            let p = s.subrange(from, s.len() as int);
            assert forall|m: int| 0 <= m < p.len() implies p[m] != c by {
                assert(p[m] == s[from + m]);
            }
        },
        Some(i) => {
            lemma_split_lacks(s, pat, i + pat.len(), c);
            let p = s.subrange(from, i);
            assert forall|m: int| 0 <= m < p.len() implies p[m] != c by {
                assert(p[m] == s[from + m]);
            }
            let rest = split_from(s, pat, i + pat.len());
            assert forall|k: int| 0 <= k < split_from(s, pat, from).len() implies lacks_char(
                #[trigger] split_from(s, pat, from)[k],
                c,
            ) by {
                if k > 0 {
                    assert(split_from(s, pat, from)[k] == rest[k - 1]);
                }
            }
        },
    }
}

/// Lines without `{` give no JSON call.
proof fn lemma_json_lines_without_brace(lines: Seq<Seq<char>>, i: int)
    requires
        forall|k: int| 0 <= k < lines.len() ==> lacks_char(#[trigger] lines[k], '{'),
    ensures
        json_line_calls_from(lines, i).len() == 0,
    decreases lines.len() - i,
{
    if 0 <= i < lines.len() {
        lemma_json_lines_without_brace(lines, i + 1);
        let l = lines[i];
        assert(lacks_char(l, '{'));
        lemma_trim_is_subrange(l);
        let t = trim(l);
        if t.len() > 0 {
            let (a, b) = choose|a: int, b: int| 0 <= a <= b <= l.len() && trim(l) == l.subrange(a, b);
            assert(t[0] == l[a]);
        }
    }
}

/// Llama 3.x calls need a `<function=` tag.
proof fn lemma_llama3_without_tag(s: Seq<char>)
    requires
        forall|i: int| !occurs_at(s, "<function="@, i),
    ensures
        llama3_calls_from(s, 0).len() == 0,
{
    lemma_find_from(s, "<function="@, 0);
}

/// ChatML calls need a `<tool_call>` tag.
proof fn lemma_chatml_without_tag(s: Seq<char>)
    requires
        forall|i: int| !occurs_at(s, "<tool_call>"@, i),
    ensures
        chatml_calls_from(s, 0).len() == 0,
{
    lemma_find_from(s, "<tool_call>"@, 0);
}

/// Plain model output holds no tool call: text with no `<function=` tag, no
/// `<tool_call>` tag and no `{` gives no call in any of the three formats.
pub proof fn lemma_plain_text_no_calls(s: Seq<char>)
    requires
        forall|i: int| !occurs_at(s, "<function="@, i),
        forall|i: int| !occurs_at(s, "<tool_call>"@, i),
        lacks_char(s, '{'),
    ensures
        tool_calls_of(s).len() == 0,
{
    lemma_llama3_without_tag(s);
    lemma_chatml_without_tag(s);
    reveal_strlit("\n");
    lemma_split_lacks(s, "\n"@, 0, '{');
    lemma_json_lines_without_brace(split(s, "\n"@), 0);
}

/// The first occurrence at or after `from` is found.
proof fn lemma_find_first(s: Seq<char>, pat: Seq<char>, from: int, x: int)
    requires
        from <= x,
        occurs_at(s, pat, x),
        forall|k: int| from <= k < x ==> !occurs_at(s, pat, k),
    ensures
        find_from(s, pat, from) == Some(x),
{
    lemma_find_from(s, pat, from);
    match find_from(s, pat, from) {
        Some(y) => {
            if y > x {
            } else if y < x {
            }
        },
        None => {},
    }
}

/// Searching after a prefix is searching the rest.
proof fn lemma_find_from_shift(p: Seq<char>, t: Seq<char>, pat: Seq<char>, i: int)
    requires
        0 <= i,
    ensures
        find_from(p + t, pat, p.len() + i) == match find_from(t, pat, i) {
            Some(j) => Some(p.len() + j),
            None => None::<int>,
        },
    decreases t.len() + 1 - i,
{
    let s = p + t;
    if i + pat.len() <= t.len() {
        assert(s.subrange(p.len() + i, p.len() + i + pat.len()) =~= t.subrange(i, i + pat.len()));
        if !occurs_at(t, pat, i) {
            lemma_find_from_shift(p, t, pat, i + 1);
        }
    }
}

/// The Llama 3.x calls after a prefix are the calls of the rest.
proof fn lemma_llama3_shift(p: Seq<char>, t: Seq<char>, i: int)
    requires
        0 <= i <= t.len(),
    ensures
        llama3_calls_from(p + t, p.len() + i) == llama3_calls_from(t, i),
    decreases t.len() - i,
{
    let s = p + t;
    let n = p.len() as int;
    reveal_strlit("<function=");
    reveal_strlit("</function>");
    lemma_find_from_shift(p, t, "<function="@, i);
    lemma_find_from(t, "<function="@, i);
    match find_from(t, "<function="@, i) {
        None => {},
        Some(start) => {
            let a = start + 10;
            lemma_find_from_shift(p, t, seq!['>'], a);
            lemma_find_from(t, seq!['>'], a);
            match find_from(t, seq!['>'], a) {
                None => {},
                Some(name_end) => {
                    let b = name_end + 1;
                    lemma_find_from_shift(p, t, "</function>"@, b);
                    lemma_find_from(t, "</function>"@, b);
                    match find_from(t, "</function>"@, b) {
                        None => {},
                        Some(end) => {
                            lemma_llama3_shift(p, t, end + 11);
                            assert(s.subrange(n + b, n + end) =~= t.subrange(b, end));
                            assert(s.subrange(n + a, n + name_end) =~= t.subrange(a, name_end));
                        },
                    }
                },
            }
        },
    }
}

/// Llama 3.x calls written one after another are all read back, in order:
/// a call `<function=NAME>ARGS</function>` (a name without `>`, arguments
/// that are JSON and hold no closing tag) followed by any text `t` gives that
/// call followed by the Llama 3.x calls of `t`; and the tool calls of the
/// whole are those.
pub proof fn lemma_llama3_calls_prepend(name: Seq<char>, args: Seq<char>, t: Seq<char>)
    requires
        lacks_char(name, '>'),
        forall|i: int| !occurs_at(args, "</function>"@, i),
        spec_parse_json(args) is Some,
    ensures
        llama3_calls_from("<function="@ + name + ">"@ + args + "</function>"@ + t, 0) == seq![
            (name, spec_parse_json(args).unwrap()),
        ] + llama3_calls_from(t, 0),
        tool_calls_of("<function="@ + name + ">"@ + args + "</function>"@ + t) == seq![
            (name, spec_parse_json(args).unwrap()),
        ] + llama3_calls_from(t, 0),
{
    reveal_strlit("<function=");
    reveal_strlit(">");
    reveal_strlit("</function>");
    let open = "<function="@;
    let close = "</function>"@;
    let block = open + name + ">"@ + args + close;
    let s = block + t;
    let a = open.len() as int;
    let name_end = a + name.len();
    let b = name_end + 1;
    let end = b + args.len();
    assert(block.len() == end + close.len());
    // the opening tag is at the start
    assert(s.subrange(0, a) =~= open);
    lemma_find_first(s, open, 0, 0);
    // the name runs up to the first `>`
    assert(s.subrange(name_end, name_end + 1) =~= seq!['>']);
    assert forall|k: int| a <= k < name_end implies !occurs_at(s, seq!['>'], k) by {
        assert(s[k] == name[k - a]);
        assert(s.subrange(k, k + 1)[0] == s[k]);
    }
    lemma_find_first(s, seq!['>'], a, name_end);
    // the arguments run up to the closing tag
    assert(s.subrange(end, end + close.len()) =~= close);
    assert(s.subrange(b, end) =~= args);
    assert forall|k: int| b <= k < end implies !occurs_at(s, close, k) by {
        if occurs_at(s, close, k) {
            if k + close.len() <= end {
                assert(args.subrange(k - b, k - b + close.len()) =~= s.subrange(k, k + close.len()));
                assert(occurs_at(args, close, k - b));
            } else {
                let m = end - k;
                assert(s.subrange(k, k + close.len())[m] == s[end]);
                assert(s[end] == '<');
                assert(close[m] != '<');
            }
        }
    }
    lemma_find_first(s, close, b, end);
    // what follows is read on its own
    lemma_llama3_shift(block, t, 0);
    assert(s.subrange(a, name_end) =~= name);
    let l = llama3_calls_from(s, 0);
    assert(l.len() > 0);
}

/// A call written in the Llama 3.x format is read back:
/// `<function=NAME>ARGS</function>`, with a name without `>` and arguments
/// that are JSON and hold no closing tag, gives exactly that call.
pub proof fn lemma_llama3_call_read_back(name: Seq<char>, args: Seq<char>)
    requires
        lacks_char(name, '>'),
        forall|i: int| !occurs_at(args, "</function>"@, i),
        spec_parse_json(args) is Some,
    ensures
        tool_calls_of("<function="@ + name + ">"@ + args + "</function>"@) == seq![
            (name, spec_parse_json(args).unwrap()),
        ],
{
    let block = "<function="@ + name + ">"@ + args + "</function>"@;
    lemma_llama3_calls_prepend(name, args, Seq::<char>::empty());
    assert(block + Seq::<char>::empty() =~= block);
    reveal_strlit("<function=");
    assert(llama3_calls_from(Seq::<char>::empty(), 0) =~= Seq::<(Seq<char>, JsonView)>::empty());
    assert(seq![(name, spec_parse_json(args).unwrap())] + Seq::<(Seq<char>, JsonView)>::empty() =~= seq![
        (name, spec_parse_json(args).unwrap()),
    ]);
}

/// Wrapping text without a `<function=` tag in ChatML tags adds none.
proof fn lemma_chatml_wrap_no_function_tag(body: Seq<char>)
    requires
        forall|i: int| !occurs_at(body, "<function="@, i),
    ensures
        forall|k: int| !occurs_at("<tool_call>"@ + body + "</tool_call>"@, "<function="@, k),
{
    reveal_strlit("<function=");
    reveal_strlit("<tool_call>");
    reveal_strlit("</tool_call>");
    let open = "<tool_call>"@;
    let close = "</tool_call>"@;
    let pat = "<function="@;
    let s = open + body + close;
    let end = (open.len() + body.len()) as int;
    assert forall|k: int| !occurs_at(s, pat, k) by {
        if occurs_at(s, pat, k) {
            let w = s.subrange(k, k + pat.len());
            assert(w[0] == s[k] && w[1] == s[k + 1]);
            if k < open.len() {
                assert(s[k] == open[k]);
                if k == 0 {
                    assert(s[1] == open[1]);
                }
            } else if k < end {
                if k + pat.len() <= end {
                    assert(body.subrange(k - open.len(), k - open.len() + pat.len()) =~= w);
                    assert(occurs_at(body, pat, k - open.len()));
                } else {
                    let m = end - k;
                    assert(w[m] == s[end]);
                    assert(s[end] == close[0]);
                }
            } else {
                assert(s[k] == close[k - end]);
                if k == end {
                    assert(s[k + 1] == close[1]);
                }
            }
        }
    }
}

/// A call written in the ChatML format is read back:
/// `<tool_call>BODY</tool_call>`, whose body (trimmed) is a JSON call object
/// and holds neither a closing tag nor a Llama 3.x tag, gives exactly that
/// call.
pub proof fn lemma_chatml_call_read_back(body: Seq<char>)
    requires
        forall|i: int| !occurs_at(body, "</tool_call>"@, i),
        forall|i: int| !occurs_at(body, "<function="@, i),
        spec_parse_json(trim(body)) matches Some(v) && call_of_json(v) is Some,
    ensures
        tool_calls_of("<tool_call>"@ + body + "</tool_call>"@) == seq![
            call_of_json(spec_parse_json(trim(body)).unwrap()).unwrap(),
        ],
{
    reveal_strlit("<tool_call>");
    reveal_strlit("</tool_call>");
    let open = "<tool_call>"@;
    let close = "</tool_call>"@;
    let s = open + body + close;
    let b = open.len() as int;
    let end = b + body.len();
    lemma_chatml_wrap_no_function_tag(body);
    lemma_llama3_without_tag(s);
    assert(s.subrange(0, b) =~= open);
    lemma_find_first(s, open, 0, 0);
    assert(s.subrange(end, end + close.len()) =~= close);
    assert(s.subrange(b, end) =~= body);
    assert forall|k: int| b <= k < end implies !occurs_at(s, close, k) by {
        if occurs_at(s, close, k) {
            if k + close.len() <= end {
                assert(body.subrange(k - b, k - b + close.len()) =~= s.subrange(k, k + close.len()));
                assert(occurs_at(body, close, k - b));
            } else {
                let m = end - k;
                assert(s.subrange(k, k + close.len())[m] == s[end]);
                assert(s[end] == '<');
                assert(close[m] != '<');
            }
        }
    }
    lemma_find_first(s, close, b, end);
    assert(chatml_calls_from(s, end + close.len()) =~= Seq::<(Seq<char>, JsonView)>::empty());
}

/// A call written as a JSON line is read back: a single line without Llama
/// 3.x or ChatML tags whose trimmed text is a JSON object holding a
/// `tool_calls` array, or a call object, gives the calls of that array, or
/// that call.
pub proof fn lemma_json_line_call_read_back(s: Seq<char>)
    requires
        forall|i: int| !occurs_at(s, "<function="@, i),
        forall|i: int| !occurs_at(s, "<tool_call>"@, i),
        lacks_char(s, '\n'),
        trim(s).len() > 0 && trim(s)[0] == '{',
        spec_parse_json(trim(s)) matches Some(v) && (json_as_array(json_get(v, "tool_calls"@)) is Some
            || call_of_json(v) is Some),
    ensures
        tool_calls_of(s) == match json_as_array(json_get(spec_parse_json(trim(s)).unwrap(), "tool_calls"@)) {
            Some(items) => array_calls(items),
            None => seq![call_of_json(spec_parse_json(trim(s)).unwrap()).unwrap()],
        },
{
    lemma_llama3_without_tag(s);
    lemma_chatml_without_tag(s);
    reveal_strlit("\n");
    assert forall|i: int| !occurs_at(s, "\n"@, i) by {
        if occurs_at(s, "\n"@, i) {
            assert(s.subrange(i, i + 1)[0] == s[i]);
        }
    }
    lemma_find_from(s, "\n"@, 0);
    assert(s.subrange(0, s.len() as int) =~= s);
    assert(split(s, "\n"@) == seq![s]);
    let lines = seq![s];
    assert(lines[0] == s);
    assert(json_line_calls_from(lines, 1) == Seq::<(Seq<char>, JsonView)>::empty());
}

/// Extracts tool calls from model output text.
pub fn parse_tool_calls(text: &str) -> (r: Vec<ToolCall>)
    ensures
        call_views(r@) == tool_calls_of(text@),
{
    let v = chars_of(text);
    let calls = parse_llama3_format(&v);
    if calls.len() > 0 {
        return calls;
    }
    let calls = parse_chatml_format(&v);
    if calls.len() > 0 {
        return calls;
    }
    parse_json_format(&v)
}

fn push_call(out: &mut Vec<ToolCall>, call: ToolCall)
    ensures
        call_views(final(out)@) == call_views(old(out)@).push(call@),
{
    let ghost before = call_views(out@);
    out.push(call);
    assert(call_views(out@) =~= before.push(call@));
}

/// The Llama 3.x calls of `v`.
fn parse_llama3_format(v: &Vec<char>) -> (r: Vec<ToolCall>)
    ensures
        call_views(r@) == llama3_calls_from(v@, 0),
{
    let open_tag = chars_of("<function=");
    let close_tag = chars_of("</function>");
    let gt = vec!['>'];
    proof {
        reveal_strlit("<function=");
        reveal_strlit("</function>");
    }
    let mut calls: Vec<ToolCall> = Vec::new();
    let mut pos: usize = 0;
    loop
        invariant
            pos <= v.len(),
            open_tag@ == "<function="@,
            close_tag@ == "</function>"@,
            gt@ == seq!['>'],
            "<function="@.len() == 10,
            "</function>"@.len() == 11,
            llama3_calls_from(v@, 0) == call_views(calls@) + llama3_calls_from(v@, pos as int),
        decreases v.len() - pos,
    {
        let ghost before = call_views(calls@);
        let start = match find_chars(v, &open_tag, pos) {
            None => {
                assert(before + llama3_calls_from(v@, pos as int) =~= before);
                return calls;
            },
            Some(i) => i,
        };
        proof {
            lemma_find_from(v@, open_tag@, pos as int);
        }
        let a = start + 10;
        let name_end = match find_chars(v, &gt, a) {
            None => {
                assert(before + llama3_calls_from(v@, pos as int) =~= before);
                return calls;
            },
            Some(i) => i,
        };
        proof {
            lemma_find_from(v@, gt@, a as int);
        }
        let b = name_end + 1;
        let end = match find_chars(v, &close_tag, b) {
            None => {
                assert(before + llama3_calls_from(v@, pos as int) =~= before);
                return calls;
            },
            Some(i) => i,
        };
        proof {
            lemma_find_from(v@, close_tag@, b as int);
        }
        let body = string_from_chars(copy_range(v, b, end).as_slice());
        let parsed = parse_json(body.as_str());
        match parsed {
            Some(args) => {
                let name = string_from_chars(copy_range(v, a, name_end).as_slice());
                push_call(&mut calls, ToolCall { name, arguments: args });
                assert(before + llama3_calls_from(v@, pos as int) =~= call_views(calls@)
                    + llama3_calls_from(v@, end + 11));
            },
            None => {
                assert(before + llama3_calls_from(v@, pos as int) =~= call_views(calls@)
                    + llama3_calls_from(v@, end + 11));
            },
        }
        pos = end + 11;
    }
}

/// The call that a parsed JSON call object gives, if any.
fn call_from_json(v: &JsonValue) -> (r: Option<ToolCall>)
    ensures
        match r {
            Some(c) => call_of_json(v@) == Some(c@),
            None => call_of_json(v@) is None,
        },
{
    let name = match v.get("name") {
        Some(n) => match n.as_str() {
            Some(s) => s.clone(),
            None => return None,
        },
        None => return None,
    };
    match v.get("arguments") {
        Some(args) => Some(ToolCall { name, arguments: json_clone(args) }),
        None => None,
    }
}

/// The ChatML calls of `v`.
fn parse_chatml_format(v: &Vec<char>) -> (r: Vec<ToolCall>)
    ensures
        call_views(r@) == chatml_calls_from(v@, 0),
{
    let open_tag = chars_of("<tool_call>");
    let close_tag = chars_of("</tool_call>");
    proof {
        reveal_strlit("<tool_call>");
        reveal_strlit("</tool_call>");
    }
    let mut calls: Vec<ToolCall> = Vec::new();
    let mut pos: usize = 0;
    loop
        invariant
            pos <= v.len(),
            open_tag@ == "<tool_call>"@,
            close_tag@ == "</tool_call>"@,
            "<tool_call>"@.len() == 11,
            "</tool_call>"@.len() == 12,
            chatml_calls_from(v@, 0) == call_views(calls@) + chatml_calls_from(v@, pos as int),
        decreases v.len() - pos,
    {
        let ghost before = call_views(calls@);
        let start = match find_chars(v, &open_tag, pos) {
            None => {
                assert(before + chatml_calls_from(v@, pos as int) =~= before);
                return calls;
            },
            Some(i) => i,
        };
        proof {
            lemma_find_from(v@, open_tag@, pos as int);
        }
        let b = start + 11;
        let end = match find_chars(v, &close_tag, b) {
            None => {
                assert(before + chatml_calls_from(v@, pos as int) =~= before);
                return calls;
            },
            Some(i) => i,
        };
        proof {
            lemma_find_from(v@, close_tag@, b as int);
        }
        let body = trim_chars(&copy_range(v, b, end));
        let body = string_from_chars(body.as_slice());
        let parsed = parse_json(body.as_str());
        match parsed {
            Some(val) => match call_from_json(&val) {
                Some(c) => {
                    push_call(&mut calls, c);
                    assert(before + chatml_calls_from(v@, pos as int) =~= call_views(calls@)
                        + chatml_calls_from(v@, end + 12));
                },
                None => {
                    assert(before + chatml_calls_from(v@, pos as int) =~= call_views(calls@)
                        + chatml_calls_from(v@, end + 12));
                },
            },
            None => {
                assert(before + chatml_calls_from(v@, pos as int) =~= call_views(calls@)
                    + chatml_calls_from(v@, end + 12));
            },
        }
        pos = end + 12;
    }
}

/// The calls of the call objects in `items`.
fn calls_from_array(items: &Vec<JsonValue>) -> (r: Vec<ToolCall>)
    ensures
        call_views(r@) == array_calls(json_views(items@)),
{
    proof {
        lemma_json_views(items@);
    }
    let ghost jv = json_views(items@);
    let mut calls: Vec<ToolCall> = Vec::new();
    let mut i: usize = 0;
    assert(jv.subrange(0, 0) =~= Seq::<JsonView>::empty());
    while i < items.len()
        invariant
            i <= items.len(),
            jv == json_views(items@),
            jv.len() == items.len(),
            forall|k: int| 0 <= k < items.len() ==> #[trigger] jv[k] == items@[k]@,
            call_views(calls@) == array_calls(jv.subrange(0, i as int)),
        decreases items.len() - i,
    {
        let ghost sub = jv.subrange(0, i + 1);
        assert(sub.drop_last() =~= jv.subrange(0, i as int));
        assert(sub.last() == items@[i as int]@);
        match call_from_json(&items[i]) {
            Some(c) => push_call(&mut calls, c),
            None => {},
        }
        i = i + 1;
    }
    assert(jv.subrange(0, items.len() as int) =~= jv);
    calls
}

/// The JSON-line calls of `v`.
fn parse_json_format(v: &Vec<char>) -> (r: Vec<ToolCall>)
    ensures
        call_views(r@) == json_calls(v@),
{
    let nl = chars_of("\n");
    proof {
        reveal_strlit("\n");
    }
    let lines = split_chars(v, &nl);
    let ghost lv = views(lines@);
    let mut i: usize = 0;
    while i < lines.len()
        invariant
            i <= lines.len(),
            lv == views(lines@),
            lv == split(v@, "\n"@),
            json_calls(v@) == json_line_calls_from(lv, i as int),
        decreases lines.len() - i,
    {
        assert(lv[i as int] == lines@[i as int]@);
        let t = trim_chars(&lines[i]);
        if t.len() > 0 && t[0] == '{' {
            let text = string_from_chars(t.as_slice());
            match parse_json(text.as_str()) {
                Some(val) => {
                    match val.get("tool_calls") {
                        Some(tc) => match tc.as_array() {
                            Some(items) => {
                                return calls_from_array(items);
                            },
                            None => {},
                        },
                        None => {},
                    }
                    match call_from_json(&val) {
                        Some(c) => {
                            let mut out: Vec<ToolCall> = Vec::new();
                            push_call(&mut out, c);
                            assert(call_views(out@) =~= seq![c@]);
                            return out;
                        },
                        None => {},
                    }
                },
                None => {},
            }
        }
        i = i + 1;
    }
    let out: Vec<ToolCall> = Vec::new();
    assert(call_views(out@) =~= Seq::<(Seq<char>, JsonView)>::empty());
    out
}

} // verus!
