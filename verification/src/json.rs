//! JSON values as the agent reads and writes them.
//!
//! A value is held as compact JSON text. Looking into it decodes one level at a time:
//! the members of an array or an object are again JSON texts.

use serde_json::Value;
use vstd::prelude::*;

use crate::text;

verus! {

/// One decoded level of a JSON value. The numeric readings of a number are the ones
/// that are exact: `unsigned` where it is a `u64`, `signed` where it is an `i64`.
pub enum JsonNode {
    Null,
    Bool(bool),
    Number { text: String, unsigned: Option<u64>, signed: Option<i64> },
    Str(String),
    Array(Vec<String>),
    Object(Vec<(String, String)>),
}

/// The mathematical content of a [`JsonNode`].
pub enum JsonView {
    Null,
    Bool(bool),
    Number { text: Seq<char>, unsigned: Option<u64>, signed: Option<i64> },
    Str(Seq<char>),
    Array(Seq<Seq<char>>),
    Object(Seq<(Seq<char>, Seq<char>)>),
}

/// The members of an object as pairs of key and value text.
pub open spec fn pairs(v: Seq<(String, String)>) -> Seq<(Seq<char>, Seq<char>)> {
    v.map_values(|p: (String, String)| (p.0@, p.1@))
}

impl View for JsonNode {
    type V = JsonView;

    open spec fn view(&self) -> JsonView {
        match *self {
            JsonNode::Null => JsonView::Null,
            JsonNode::Bool(b) => JsonView::Bool(b),
            JsonNode::Number { text, unsigned, signed } => JsonView::Number {
                text: text@,
                unsigned,
                signed,
            },
            JsonNode::Str(s) => JsonView::Str(s@),
            JsonNode::Array(items) => JsonView::Array(text::views(items@)),
            JsonNode::Object(members) => JsonView::Object(pairs(members@)),
        }
    }
}

/// What `serde_json::from_str` makes of a text: the value it holds, opened one level,
/// or the message of the error.
pub uninterp spec fn json_value(text: Seq<char>) -> Result<JsonView, Seq<char>>;

/// What `serde_json::Deserializer` reads as the first value of a text, printed
/// compactly; nothing where the text does not begin with a value.
pub uninterp spec fn json_first(text: Seq<char>) -> Option<Seq<char>>;

/// What `serde_json::to_string` prints for a string.
pub uninterp spec fn json_quoted(s: Seq<char>) -> Seq<char>;

/// Calls `serde_json::from_str` for a `serde_json::Value` and opens its outermost
/// level; the members below are printed with `Value::to_string`. The result depends on
/// the text alone.
#[verifier::external_body]
pub(crate) fn parse(text: &str) -> (r: Result<JsonNode, String>)
    ensures
        json_value(text@) == (match r {
            Ok(node) => Ok::<JsonView, Seq<char>>(node@),
            Err(e) => Err(e@),
        }),
{
    Ok(match serde_json::from_str::<Value>(text).map_err(|e| e.to_string())? {
        Value::Null => JsonNode::Null,
        Value::Bool(b) => JsonNode::Bool(b),
        Value::Number(n) => JsonNode::Number {
            text: n.to_string(),
            unsigned: n.as_u64(),
            signed: n.as_i64(),
        },
        Value::String(s) => JsonNode::Str(s),
        Value::Array(a) => JsonNode::Array(a.iter().map(|v| v.to_string()).collect()),
        Value::Object(m) => JsonNode::Object(m.iter().map(|(k, v)| (k.clone(), v.to_string())).collect()),
    })
}

/// Calls `serde_json::Deserializer::from_str(..).into_iter::<Value>().next()` and prints
/// the value with `Value::to_string`. What follows the first value is not read. The
/// result depends on the text alone.
#[verifier::external_body]
pub(crate) fn parse_first(text: &str) -> (r: Option<String>)
    ensures
        json_first(text@) == (match r {
            Some(t) => Some(t@),
            None => None::<Seq<char>>,
        }),
{
    match serde_json::Deserializer::from_str(text).into_iter::<Value>().next() {
        Some(Ok(v)) => Some(v.to_string()),
        _ => None,
    }
}

/// Calls `serde_json::to_string` on a string, which cannot fail: the text in double
/// quotes with JSON escapes. Read again, it is the same string.
#[verifier::external_body]
pub(crate) fn quote(s: &str) -> (r: String)
    ensures
        r@ == json_quoted(s@),
        json_value(r@) is Ok && json_value(r@)->Ok_0 == JsonView::Str(s@),
{
    serde_json::to_string(s).unwrap_or_default()
}

impl JsonView {
    /// The text of the member called `key`, the first of that name.
    pub open spec fn member(self, key: Seq<char>) -> Option<Seq<char>> {
        match self {
            JsonView::Object(members) => first_member(members, key),
            _ => None,
        }
    }

    /// The member called `key`, opened.
    pub open spec fn child(self, key: Seq<char>) -> Option<JsonView> {
        match self.member(key) {
            Some(t) => match json_value(t) {
                Ok(v) => Some(v),
                Err(_) => None,
            },
            None => None,
        }
    }

    pub open spec fn as_str(self) -> Option<Seq<char>> {
        match self {
            JsonView::Str(s) => Some(s),
            _ => None,
        }
    }

    pub open spec fn as_bool(self) -> Option<bool> {
        match self {
            JsonView::Bool(b) => Some(b),
            _ => None,
        }
    }

    pub open spec fn as_u64(self) -> Option<u64> {
        match self {
            JsonView::Number { unsigned, .. } => unsigned,
            _ => None,
        }
    }

    pub open spec fn as_i64(self) -> Option<i64> {
        match self {
            JsonView::Number { signed, .. } => signed,
            _ => None,
        }
    }

    /// The string member called `key`.
    pub open spec fn str_member(self, key: Seq<char>) -> Option<Seq<char>> {
        match self.child(key) {
            Some(v) => v.as_str(),
            None => None,
        }
    }

    /// The string member called `key`, or the empty text.
    pub open spec fn str_or_empty(self, key: Seq<char>) -> Seq<char> {
        match self.str_member(key) {
            Some(s) => s,
            None => Seq::empty(),
        }
    }

    /// The unsigned member called `key`.
    pub open spec fn u64_member(self, key: Seq<char>) -> Option<u64> {
        match self.child(key) {
            Some(v) => v.as_u64(),
            None => None,
        }
    }

    /// The boolean member called `key`.
    pub open spec fn bool_member(self, key: Seq<char>) -> Option<bool> {
        match self.child(key) {
            Some(v) => v.as_bool(),
            None => None,
        }
    }

    /// The compact JSON text of the value.
    pub open spec fn rendered(self) -> Seq<char> {
        match self {
            JsonView::Null => "null"@,
            JsonView::Bool(b) => if b {
                "true"@
            } else {
                "false"@
            },
            JsonView::Number { text, .. } => text,
            JsonView::Str(s) => json_quoted(s),
            JsonView::Array(items) => "["@ + text::joined(items, ","@) + "]"@,
            JsonView::Object(members) => "{"@ + text::joined(member_texts(members), ","@) + "}"@,
        }
    }
}

/// The value text of the first pair whose key is `key`.
pub open spec fn first_member(members: Seq<(Seq<char>, Seq<char>)>, key: Seq<char>) -> Option<
    Seq<char>,
>
    decreases members.len(),
{
    if members.len() == 0 {
        None
    } else if members[0].0 == key {
        Some(members[0].1)
    } else {
        first_member(members.skip(1), key)
    }
}

/// Each member as `"key":value`.
pub open spec fn member_texts(members: Seq<(Seq<char>, Seq<char>)>) -> Seq<Seq<char>> {
    members.map_values(|p: (Seq<char>, Seq<char>)| json_quoted(p.0) + ":"@ + p.1)
}

impl JsonNode {
    /// The text of the member called `key`.
    pub fn member(&self, key: &str) -> (r: Option<&String>)
        ensures
            self@.member(key@) == (match r {
                Some(t) => Some(t@),
                None => None::<Seq<char>>,
            }),
    {
        match self {
            JsonNode::Object(members) => {
                let ghost all = pairs(members@);
                let wanted = key.to_owned();
                let mut i: usize = 0;
                assert(all.skip(0) =~= all);
                while i < members.len()
                    invariant
                        i <= members@.len(),
                        all == pairs(members@),
                        wanted@ == key@,
                        self@.member(key@) == first_member(all, key@),
                        first_member(all, key@) == first_member(all.skip(i as int), key@),
                    decreases members@.len() - i,
                {
                    if members[i].0 == wanted {
                        return Some(&members[i].1);
                    }
                    assert(all.skip(i as int).skip(1) =~= all.skip(i + 1));
                    i += 1;
                }
                None
            },
            _ => None,
        }
    }

    /// The member called `key`, opened.
    pub fn child(&self, key: &str) -> (r: Option<JsonNode>)
        ensures
            self@.child(key@) == (match r {
                Some(v) => Some(v@),
                None => None::<JsonView>,
            }),
    {
        match self.member(key) {
            Some(t) => match parse(t.as_str()) {
                Ok(v) => Some(v),
                Err(_) => None,
            },
            None => None,
        }
    }

    /// The string member called `key`.
    pub fn str_member(&self, key: &str) -> (r: Option<String>)
        ensures
            self@.str_member(key@) == (match r {
                Some(v) => Some(v@),
                None => None::<Seq<char>>,
            }),
    {
        match self.child(key) {
            Some(JsonNode::Str(s)) => Some(s),
            _ => None,
        }
    }

    /// The string member called `key`, or the empty text.
    pub fn str_or_empty(&self, key: &str) -> (r: String)
        ensures
            r@ == self@.str_or_empty(key@),
    {
        match self.str_member(key) {
            Some(s) => s,
            None => String::new(),
        }
    }

    /// The unsigned member called `key`.
    pub fn u64_member(&self, key: &str) -> (r: Option<u64>)
        ensures
            r == self@.u64_member(key@),
    {
        match self.child(key) {
            Some(JsonNode::Number { unsigned, .. }) => unsigned,
            _ => None,
        }
    }

    /// The boolean member called `key`.
    pub fn bool_member(&self, key: &str) -> (r: Option<bool>)
        ensures
            r == self@.bool_member(key@),
    {
        match self.child(key) {
            Some(JsonNode::Bool(b)) => Some(b),
            _ => None,
        }
    }

    /// The compact JSON text of the value.
    pub fn render(&self) -> (r: String)
        ensures
            r@ == self@.rendered(),
    {
        match self {
            JsonNode::Null => "null".to_string(),
            JsonNode::Bool(b) => if *b {
                "true".to_string()
            } else {
                "false".to_string()
            },
            JsonNode::Number { text, .. } => text.clone(),
            JsonNode::Str(s) => quote(s.as_str()),
            JsonNode::Array(items) => "[".to_string().concat(text::join(items, ",").as_str()).concat(
                "]",
            ),
            JsonNode::Object(members) => {
                let mut parts: Vec<String> = Vec::new();
                let mut i: usize = 0;
                while i < members.len()
                    invariant
                        i <= members@.len(),
                        text::views(parts@) == member_texts(pairs(members@)).take(i as int),
                    decreases members@.len() - i,
                {
                    let ghost before = text::views(parts@);
                    parts.push(
                        quote(members[i].0.as_str()).concat(":").concat(members[i].1.as_str()),
                    );
                    assert(text::views(parts@) =~= before.push(
                        json_quoted(members@[i as int].0@) + ":"@ + members@[i as int].1@,
                    ));
                    assert(text::views(parts@) =~= member_texts(pairs(members@)).take(i + 1));
                    i += 1;
                }
                assert(member_texts(pairs(members@)).take(members@.len() as int) =~= member_texts(
                    pairs(members@),
                ));
                "{".to_string().concat(text::join(&parts, ",").as_str()).concat("}")
            },
        }
    }
}

/// A JSON value, held as compact text.
pub struct Json {
    pub text: String,
}

impl View for Json {
    type V = Seq<char>;

    open spec fn view(&self) -> Seq<char> {
        self.text@
    }
}

/// The value that a text stands for, printed compactly: `null` where it is not JSON.
pub open spec fn json_or_null(text: Seq<char>) -> Seq<char> {
    match json_value(text) {
        Ok(v) => v.rendered(),
        Err(_) => "null"@,
    }
}

/// The string member `key` of the object that a JSON text holds.
pub open spec fn text_str_member(text: Seq<char>, key: Seq<char>) -> Option<Seq<char>> {
    match json_value(text) {
        Ok(v) => v.str_member(key),
        Err(_) => None,
    }
}

/// The unsigned member `key` of the object that a JSON text holds.
pub open spec fn text_u64_member(text: Seq<char>, key: Seq<char>) -> Option<u64> {
    match json_value(text) {
        Ok(v) => v.u64_member(key),
        Err(_) => None,
    }
}

/// The boolean member `key` of the object that a JSON text holds.
pub open spec fn text_bool_member(text: Seq<char>, key: Seq<char>) -> Option<bool> {
    match json_value(text) {
        Ok(v) => v.bool_member(key),
        Err(_) => None,
    }
}

impl Json {
    /// The value `null`.
    pub fn null() -> (r: Json)
        ensures
            r@ == "null"@,
    {
        Json { text: "null".to_string() }
    }

    /// The value that a text stands for, or `null` where it is not JSON.
    pub fn from_text(text: &str) -> (r: Json)
        ensures
            r@ == json_or_null(text@),
    {
        match parse(text) {
            Ok(node) => Json { text: node.render() },
            Err(_) => Json::null(),
        }
    }

    /// The string member called `key`.
    pub fn str_member(&self, key: &str) -> (r: Option<String>)
        ensures
            text_str_member(self@, key@) == (match r {
                Some(v) => Some(v@),
                None => None::<Seq<char>>,
            }),
    {
        match parse(self.text.as_str()) {
            Ok(node) => node.str_member(key),
            Err(_) => None,
        }
    }

    /// The unsigned member called `key`.
    pub fn u64_member(&self, key: &str) -> (r: Option<u64>)
        ensures
            r == text_u64_member(self@, key@),
    {
        match parse(self.text.as_str()) {
            Ok(node) => node.u64_member(key),
            Err(_) => None,
        }
    }

    /// The boolean member called `key`.
    pub fn bool_member(&self, key: &str) -> (r: Option<bool>)
        ensures
            r == text_bool_member(self@, key@),
    {
        match parse(self.text.as_str()) {
            Ok(node) => node.bool_member(key),
            Err(_) => None,
        }
    }
}

impl Clone for Json {
    fn clone(&self) -> (r: Self)
        ensures
            r@ == self@,
    {
        Json { text: self.text.clone() }
    }
}

} // verus!
