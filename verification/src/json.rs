//! A JSON value of the library's own, with the lookups the tool-call parser
//! reads, and the calls into `serde_json` that parse and print it.
use vstd::prelude::*;

use crate::text::{digit_char, str_eq};

verus! {

/// A JSON document. Object members keep the order in which `serde_json`
/// hands them over (sorted by key); numbers keep their JSON text.
#[derive(Debug, PartialEq)]
pub enum JsonValue {
    Null,
    Bool(bool),
    Number(String),
    Str(String),
    Array(Vec<JsonValue>),
    Object(Vec<(String, JsonValue)>),
}

/// The mathematical content of a JSON document: strings as characters.
pub enum JsonView {
    Null,
    Bool(bool),
    Number(Seq<char>),
    Str(Seq<char>),
    Array(Seq<JsonView>),
    Object(Seq<(Seq<char>, JsonView)>),
}

/// The content of `v`.
pub open spec fn json_view(v: JsonValue) -> JsonView
    decreases v,
{
    match v {
        JsonValue::Null => JsonView::Null,
        JsonValue::Bool(b) => JsonView::Bool(b),
        JsonValue::Number(n) => JsonView::Number(n@),
        JsonValue::Str(s) => JsonView::Str(s@),
        JsonValue::Array(items) => JsonView::Array(json_views(items@)),
        JsonValue::Object(members) => JsonView::Object(member_views(members@)),
    }
}

/// The contents of the values `s`, in order.
pub open spec fn json_views(s: Seq<JsonValue>) -> Seq<JsonView>
    decreases s,
{
    if s.len() == 0 {
        seq![]
    } else {
        seq![json_view(s[0])] + json_views(s.drop_first())
    }
}

/// The contents of the members `s`, in order.
pub open spec fn member_views(s: Seq<(String, JsonValue)>) -> Seq<(Seq<char>, JsonView)>
    decreases s,
{
    if s.len() == 0 {
        seq![]
    } else {
        seq![(s[0].0@, json_view(s[0].1))] + member_views(s.drop_first())
    }
}

pub proof fn lemma_json_views(s: Seq<JsonValue>)
    ensures
        json_views(s).len() == s.len(),
        forall|k: int| 0 <= k < s.len() ==> #[trigger] json_views(s)[k] == json_view(s[k]),
    decreases s.len(),
{
    if s.len() > 0 {
        lemma_json_views(s.drop_first());
        assert forall|k: int| 0 <= k < s.len() implies #[trigger] json_views(s)[k] == json_view(s[k]) by {
            if k > 0 {
                assert(s.drop_first()[k - 1] == s[k]);
            }
        }
    }
}

pub proof fn lemma_member_views(s: Seq<(String, JsonValue)>)
    ensures
        member_views(s).len() == s.len(),
        forall|k: int|
            0 <= k < s.len() ==> #[trigger] member_views(s)[k] == (s[k].0@, json_view(s[k].1)),
    decreases s.len(),
{
    if s.len() > 0 {
        lemma_member_views(s.drop_first());
        assert forall|k: int| 0 <= k < s.len() implies #[trigger] member_views(s)[k] == (
            s[k].0@,
            json_view(s[k].1),
        ) by {
            if k > 0 {
                assert(s.drop_first()[k - 1] == s[k]);
            }
        }
    }
}

impl View for JsonValue {
    type V = JsonView;

    open spec fn view(&self) -> JsonView {
        json_view(*self)
    }
}

/// The value of the first member of `members` whose key is `key`.
pub open spec fn member_value(members: Seq<(Seq<char>, JsonView)>, key: Seq<char>) -> Option<JsonView>
    decreases members.len(),
{
    if members.len() == 0 {
        None
    } else if members[0].0 == key {
        Some(members[0].1)
    } else {
        member_value(members.drop_first(), key)
    }
}

/// `v[key]` when `v` is an object holding `key` (what `Value::get` returns).
pub open spec fn json_get(v: JsonView, key: Seq<char>) -> Option<JsonView> {
    match v {
        JsonView::Object(members) => member_value(members, key),
        _ => None,
    }
}

/// The characters of `v` when it is a JSON string (what `Value::as_str` returns).
pub open spec fn json_as_str(v: Option<JsonView>) -> Option<Seq<char>> {
    match v {
        Some(JsonView::Str(s)) => Some(s),
        _ => None,
    }
}

/// The elements of `v` when it is a JSON array (what `Value::as_array` returns).
pub open spec fn json_as_array(v: Option<JsonView>) -> Option<Seq<JsonView>> {
    match v {
        Some(JsonView::Array(items)) => Some(items),
        _ => None,
    }
}

impl JsonValue {
    /// The value stored under `key` when `self` is an object.
    pub fn get(&self, key: &str) -> (r: Option<&JsonValue>)
        ensures
            match r {
                Some(x) => json_get(self@, key@) == Some(x@),
                None => json_get(self@, key@) is None,
            },
    {
        match self {
            JsonValue::Object(members) => {
                proof {
                    lemma_member_views(members@);
                }
                let ghost mv = member_views(members@);
                let mut i: usize = 0;
                assert(mv.subrange(0, members.len() as int) =~= mv);
                while i < members.len()
                    invariant
                        *self == JsonValue::Object(*members),
                        mv == member_views(members@),
                        mv.len() == members.len(),
                        forall|k: int|
                            0 <= k < members.len() ==> #[trigger] mv[k] == (
                                members@[k].0@,
                                json_view(members@[k].1),
                            ),
                        i <= members.len(),
                        member_value(mv, key@) == member_value(
                            mv.subrange(i as int, members.len() as int),
                            key@,
                        ),
                    decreases members.len() - i,
                {
                    let ghost rest = mv.subrange(i as int, members.len() as int);
                    assert(rest.drop_first() =~= mv.subrange(i + 1, members.len() as int));
                    assert(rest[0] == mv[i as int]);
                    if str_eq(members[i].0.as_str(), key) {
                        return Some(&members[i].1);
                    }
                    i = i + 1;
                }
                None
            },
            _ => None,
        }
    }

    /// The string held by `self`, when it is a JSON string.
    pub fn as_str(&self) -> (r: Option<&String>)
        ensures
            match r {
                Some(s) => json_as_str(Some(self@)) == Some(s@),
                None => json_as_str(Some(self@)) is None,
            },
    {
        match self {
            JsonValue::Str(s) => Some(s),
            _ => None,
        }
    }

    /// The elements held by `self`, when it is a JSON array.
    pub fn as_array(&self) -> (r: Option<&Vec<JsonValue>>)
        ensures
            match r {
                Some(a) => json_as_array(Some(self@)) == Some(json_views(a@)),
                None => json_as_array(Some(self@)) is None,
            },
    {
        match self {
            JsonValue::Array(a) => Some(a),
            _ => None,
        }
    }

    /// A JSON string holding `s`.
    pub fn string(s: &str) -> (r: JsonValue)
        ensures
            r@ == JsonView::Str(s@),
    {
        JsonValue::Str(String::from_str(s))
    }
}

/// A copy of `v`.
pub fn json_clone(v: &JsonValue) -> (r: JsonValue)
    ensures
        r@ == v@,
    decreases v,
{
    match v {
        JsonValue::Null => JsonValue::Null,
        JsonValue::Bool(b) => JsonValue::Bool(*b),
        JsonValue::Number(n) => JsonValue::Number(n.clone()),
        JsonValue::Str(s) => JsonValue::Str(s.clone()),
        JsonValue::Array(items) => {
            let mut out: Vec<JsonValue> = Vec::new();
            let mut i: usize = 0;
            while i < items.len()
                invariant
                    *v == JsonValue::Array(*items),
                    i <= items.len(),
                    out.len() == i,
                    forall|k: int| 0 <= k < i ==> #[trigger] out@[k]@ == items@[k]@,
                decreases items.len() - i,
            {
                proof {
                    assert(decreases_to!(*v => v->Array_0));
                    assert(decreases_to!(v->Array_0 => items[i as int]));
                }
                let x = json_clone(&items[i]);
                out.push(x);
                i = i + 1;
            }
            proof {
                lemma_json_views(out@);
                lemma_json_views(items@);
                assert forall|k: int| 0 <= k < out.len() implies json_views(out@)[k] == json_views(
                    items@,
                )[k] by {
                    assert(out@[k]@ == items@[k]@);
                }
                assert(json_views(out@) =~= json_views(items@));
            }
            JsonValue::Array(out)
        },
        JsonValue::Object(members) => {
            let mut out: Vec<(String, JsonValue)> = Vec::new();
            let mut i: usize = 0;
            while i < members.len()
                invariant
                    *v == JsonValue::Object(*members),
                    i <= members.len(),
                    out.len() == i,
                    forall|k: int|
                        0 <= k < i ==> #[trigger] out@[k].0@ == members@[k].0@ && out@[k].1@
                            == members@[k].1@,
                decreases members.len() - i,
            {
                proof {
                    assert(decreases_to!(*v => v->Object_0));
                    assert(decreases_to!(v->Object_0 => members[i as int]));
                    assert(decreases_to!(members[i as int] => members[i as int].1));
                }
                let k = members[i].0.clone();
                let x = json_clone(&members[i].1);
                out.push((k, x));
                i = i + 1;
            }
            proof {
                lemma_member_views(out@);
                lemma_member_views(members@);
                assert(member_views(out@) =~= member_views(members@));
            }
            JsonValue::Object(out)
        },
    }
}

impl Clone for JsonValue {
    fn clone(&self) -> (r: Self)
        ensures
            r@ == self@,
    {
        json_clone(self)
    }
}

/// The declaration of `serde_json::Value`, which the conversions below carry.
#[verifier::external_type_specification]
#[verifier::external_body]
pub struct ExSerdeJsonValue(serde_json::Value);

/// What `serde_json::from_str::<serde_json::Value>` makes of `text`, taken
/// by its view (`None` where it reports an error).
pub uninterp spec fn spec_parse_json(text: Seq<char>) -> Option<JsonView>;

/// What `serde_json::to_string_pretty` prints for `v`.
pub uninterp spec fn spec_json_pretty(v: JsonView) -> Seq<char>;

/// Calls `serde_json::from_str::<serde_json::Value>` on `text` and converts
/// the value it returns. Claimed: the result, taken by its view, is a
/// function of `text` alone, named `spec_parse_json`. Nothing is claimed of
/// which texts parse.
#[verifier::external_body]
pub fn parse_json(text: &str) -> (r: Option<JsonValue>)
    ensures
        match r {
            Some(v) => spec_parse_json(text@) == Some(v@),
            None => spec_parse_json(text@) is None,
        },
{
    serde_json::from_str::<serde_json::Value>(text).ok().map(json_from_serde)
}

/// Calls `serde_json::to_string_pretty` on `v` (converted to a
/// `serde_json::Value`). Claimed: the result is a function of the view of
/// `v` alone, named `spec_json_pretty`. Serialising a `Value` cannot fail; an error
/// would give the empty string.
#[verifier::external_body]
pub fn json_pretty(v: &JsonValue) -> (r: String)
    ensures
        r@ == spec_json_pretty(v@),
{
    serde_json::to_string_pretty(&json_to_serde(v)).unwrap_or_default()
}

/// Converts a `serde_json::Value` into the library's value, variant by variant
/// (numbers by their JSON text). Used by `parse_json` only.
#[verifier::external_body]
fn json_from_serde(v: serde_json::Value) -> JsonValue {
    match v {
        serde_json::Value::Null => JsonValue::Null,
        serde_json::Value::Bool(b) => JsonValue::Bool(b),
        serde_json::Value::Number(n) => JsonValue::Number(n.to_string()),
        serde_json::Value::String(s) => JsonValue::Str(s),
        serde_json::Value::Array(a) => JsonValue::Array(a.into_iter().map(json_from_serde).collect()),
        serde_json::Value::Object(m) => JsonValue::Object(
            m.into_iter().map(|(k, x)| (k, json_from_serde(x))).collect(),
        ),
    }
}

/// Converts the library's value back into a `serde_json::Value`, variant by
/// variant (numbers by parsing their JSON text). Used by `json_pretty` only.
#[verifier::external_body]
fn json_to_serde(v: &JsonValue) -> serde_json::Value {
    match v {
        JsonValue::Null => serde_json::Value::Null,
        JsonValue::Bool(b) => serde_json::Value::Bool(*b),
        JsonValue::Number(n) => serde_json::from_str(n).unwrap_or(serde_json::Value::Null),
        JsonValue::Str(s) => serde_json::Value::String(s.clone()),
        JsonValue::Array(a) => serde_json::Value::Array(a.iter().map(json_to_serde).collect()),
        JsonValue::Object(m) => serde_json::Value::Object(
            m.iter().map(|(k, x)| (k.clone(), json_to_serde(x))).collect(),
        ),
    }
}

/// Lower-case hexadecimal digit for `d < 16`.
pub open spec fn hex_digit(d: nat) -> char {
    if d < 10 {
        digit_char(d)
    } else if d == 10 {
        'a'
    } else if d == 11 {
        'b'
    } else if d == 12 {
        'c'
    } else if d == 13 {
        'd'
    } else if d == 14 {
        'e'
    } else {
        'f'
    }
}

/// How a JSON string literal writes one character: quote, backslash and the
/// control characters escaped, everything else as is.
pub open spec fn json_escape_char(c: char) -> Seq<char> {
    if c == '"' {
        seq!['\\', '"']
    } else if c == '\\' {
        seq!['\\', '\\']
    } else if c == '\u{8}' {
        seq!['\\', 'b']
    } else if c == '\t' {
        seq!['\\', 't']
    } else if c == '\n' {
        seq!['\\', 'n']
    } else if c == '\u{c}' {
        seq!['\\', 'f']
    } else if c == '\r' {
        seq!['\\', 'r']
    } else if (c as u32) < 0x20 {
        seq!['\\', 'u', '0', '0', hex_digit((c as u32 / 16) as nat), hex_digit((c as u32 % 16) as nat)]
    } else {
        seq![c]
    }
}

/// The escaped characters of `s`.
pub open spec fn json_escape(s: Seq<char>) -> Seq<char>
    decreases s.len(),
{
    if s.len() == 0 {
        seq![]
    } else {
        json_escape_char(s[0]) + json_escape(s.drop_first())
    }
}

/// The JSON string literal for `s`.
pub open spec fn json_quote(s: Seq<char>) -> Seq<char> {
    seq!['"'] + json_escape(s) + seq!['"']
}

/// Calls `serde_json::to_string` on a string. Claimed, as `serde_json`'s
/// serializer writes it (its `ESCAPE` table and `write_char_escape`): a double
/// quote, each character escaped by `json_escape_char`, a double quote. The
/// call cannot fail for a string; an error would give the empty string.
#[verifier::external_body]
pub fn json_quote_string(s: &str) -> (r: String)
    ensures
        r@ == json_quote(s@),
{
    serde_json::to_string(s).unwrap_or_default()
}

} // verus!
