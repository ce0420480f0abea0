//! JSON documents as plain values.

use vstd::prelude::*;
use vstd::string::*;

use crate::text::str_eq;

verus! {

/// What a JSON number holds.
#[verifier::ext_equal]
pub ghost struct NumberView {
    /// The number in JSON notation.
    pub text: Seq<char>,
    /// The number where it is an integer that fits `i64`.
    pub int: Option<i64>,
    /// The number where it is an integer that fits `u64`.
    pub uint: Option<u64>,
    /// Bit pattern of the IEEE-754 double that the parser gives.
    pub double_bits: Option<u64>,
}

/// What a JSON document holds.
#[verifier::ext_equal]
pub ghost enum JsonView {
    Null,
    Bool(bool),
    Number(NumberView),
    Str(Seq<char>),
    Array(Seq<JsonView>),
    Object(Seq<(Seq<char>, JsonView)>),
}

/// A JSON number.
#[derive(Debug)]
pub struct JsonNumber {
    pub text: String,
    pub int: Option<i64>,
    pub uint: Option<u64>,
    pub double_bits: Option<u64>,
}

impl JsonNumber {
    /// What the number holds.
    pub open spec fn content(self) -> NumberView {
        NumberView {
            text: self.text@,
            int: self.int,
            uint: self.uint,
            double_bits: self.double_bits,
        }
    }
}

/// A JSON document. The members of an object stand in a list.
#[derive(Debug)]
pub enum Json {
    Null,
    Bool(bool),
    Number(JsonNumber),
    Str(String),
    Array(Vec<Json>),
    Object(Vec<(String, Json)>),
}

impl Json {
    /// What the document holds.
    pub open spec fn content(self) -> JsonView
        decreases self,
    {
        match self {
            Json::Null => JsonView::Null,
            Json::Bool(b) => JsonView::Bool(b),
            Json::Number(n) => JsonView::Number(n.content()),
            Json::Str(s) => JsonView::Str(s@),
            Json::Array(items) => JsonView::Array(
                Seq::new(
                    items@.len(),
                    |i: int|
                        if 0 <= i < items@.len() {
                            items@[i].content()
                        } else {
                            JsonView::Null
                        },
                ),
            ),
            Json::Object(members) => JsonView::Object(
                Seq::new(
                    members@.len(),
                    |i: int|
                        if 0 <= i < members@.len() {
                            (members@[i].0@, members@[i].1.content())
                        } else {
                            (Seq::empty(), JsonView::Null)
                        },
                ),
            ),
        }
    }
}

/// The value type of serde_json.
#[verifier::external_type_specification]
#[verifier::external_body]
pub struct ExValue(serde_json::Value);

/// What a value of serde_json holds.
pub uninterp spec fn value_content(v: serde_json::Value) -> JsonView;

/// What `serde_json::from_str` makes of a text: the document, or the text of
/// its error.
pub uninterp spec fn json_document(text: Seq<char>) -> Result<JsonView, Seq<char>>;

/// One level of a value of serde_json.
pub enum JsonNode {
    Null,
    Bool(bool),
    Number(JsonNumber),
    Str(String),
    Array(Vec<serde_json::Value>),
    Object(Vec<(String, serde_json::Value)>),
}

impl JsonNode {
    /// What the level and all below it hold.
    pub open spec fn content(self) -> JsonView {
        match self {
            JsonNode::Null => JsonView::Null,
            JsonNode::Bool(b) => JsonView::Bool(b),
            JsonNode::Number(n) => JsonView::Number(n.content()),
            JsonNode::Str(s) => JsonView::Str(s@),
            JsonNode::Array(items) => JsonView::Array(
                Seq::new(items@.len(), |i: int| value_content(items@[i])),
            ),
            JsonNode::Object(members) => JsonView::Object(
                Seq::new(
                    members@.len(),
                    |i: int| (members@[i].0@, value_content(members@[i].1)),
                ),
            ),
        }
    }
}

/// `serde_json::from_str` into a `serde_json::Value`: the document that a text
/// spells, or the message of the error. The same text gives the same outcome.
#[verifier::external_body]
fn parse_value(text: &str) -> (r: Result<serde_json::Value, String>)
    ensures
        match r {
            Ok(v) => json_document(text@) == Ok::<JsonView, Seq<char>>(value_content(v)),
            Err(m) => json_document(text@) == Err::<JsonView, Seq<char>>(m@),
        },
{
    serde_json::from_str::<serde_json::Value>(text).map_err(|e| e.to_string())
}

/// The variant of a `serde_json::Value` with its fields. A number is given by
/// its `Display` text and by `Number::as_i64`, `as_u64` and the bits of
/// `as_f64`; an object by its members in the order of the map.
#[verifier::external_body]
fn value_node(v: serde_json::Value) -> (r: JsonNode)
    ensures
        r.content() == value_content(v),
{
    match v {
        serde_json::Value::Null => JsonNode::Null,
        serde_json::Value::Bool(b) => JsonNode::Bool(b),
        serde_json::Value::Number(n) => JsonNode::Number(JsonNumber {
            text: n.to_string(),
            int: n.as_i64(),
            uint: n.as_u64(),
            double_bits: n.as_f64().map(|x| x.to_bits()),
        }),
        serde_json::Value::String(s) => JsonNode::Str(s),
        serde_json::Value::Array(items) => JsonNode::Array(items),
        serde_json::Value::Object(members) => JsonNode::Object(members.into_iter().collect()),
    }
}

fn json_of_value(v: serde_json::Value) -> (r: Json)
    ensures
        r.content() == value_content(v),
    decreases value_content(v),
{
    let ghost whole = value_content(v);
    match value_node(v) {
        JsonNode::Null => Json::Null,
        JsonNode::Bool(b) => Json::Bool(b),
        JsonNode::Number(n) => Json::Number(n),
        JsonNode::Str(s) => Json::Str(s),
        JsonNode::Array(items) => {
            let ghost values = items@;
            let ghost views = whole->Array_0;
            let mut out: Vec<Json> = Vec::new();
            for item in it: items
                invariant
                    it.seq() == values,
                    whole == JsonView::Array(views),
                    whole == value_content(v),
                    views == Seq::new(values.len(), |i: int| value_content(values[i])),
                    out@.len() == it.index(),
                    forall|k: int| 0 <= k < out@.len() ==> (#[trigger] out@[k]).content() == views[k],
            {
                assert(views[it.index() as int] == value_content(item));
                assert(decreases_to!(whole => whole->Array_0));
                assert(decreases_to!(views => views[it.index() as int]));
                out.push(json_of_value(item));
            }
            let r = Json::Array(out);
            assert(r.content()->Array_0 =~= views);
            r
        },
        JsonNode::Object(members) => {
            let ghost values = members@;
            let ghost views = whole->Object_0;
            let mut out: Vec<(String, Json)> = Vec::new();
            for item in it: members
                invariant
                    it.seq() == values,
                    whole == JsonView::Object(views),
                    whole == value_content(v),
                    views == Seq::new(
                        values.len(),
                        |i: int| (values[i].0@, value_content(values[i].1)),
                    ),
                    out@.len() == it.index(),
                    forall|k: int|
                        0 <= k < out@.len() ==> {
                            let m = #[trigger] out@[k];
                            (m.0@, m.1.content()) == views[k]
                        },
            {
                assert(views[it.index() as int] == (item.0@, value_content(item.1)));
                assert(decreases_to!(whole => whole->Object_0));
                assert(decreases_to!(views => views[it.index() as int]));
                assert(decreases_to!(views[it.index() as int] => views[it.index() as int].1));
                let (name, value) = item;
                out.push((name, json_of_value(value)));
            }
            let r = Json::Object(out);
            assert(r.content()->Object_0 =~= views);
            r
        },
    }
}

/// The document that a JSON text spells, or the message of the syntax error.
pub fn parse_json(text: &str) -> (r: Result<Json, String>)
    ensures
        match r {
            Ok(doc) => json_document(text@) == Ok::<JsonView, Seq<char>>(doc.content()),
            Err(m) => json_document(text@) == Err::<JsonView, Seq<char>>(m@),
        },
{
    match parse_value(text) {
        Ok(v) => Ok(json_of_value(v)),
        Err(m) => Err(m),
    }
}

/// The value of the first member called `key`.
pub open spec fn find_member(members: Seq<(Seq<char>, JsonView)>, key: Seq<char>) -> Option<
    JsonView,
>
    decreases members.len(),
{
    if members.len() == 0 {
        None
    } else if members[0].0 == key {
        Some(members[0].1)
    } else {
        find_member(members.skip(1), key)
    }
}

impl JsonView {
    /// The member called `key` of an object.
    pub open spec fn get(self, key: Seq<char>) -> Option<JsonView> {
        match self {
            JsonView::Object(members) => find_member(members, key),
            _ => None,
        }
    }

    /// The text of a string.
    pub open spec fn as_str(self) -> Option<Seq<char>> {
        match self {
            JsonView::Str(s) => Some(s),
            _ => None,
        }
    }

    /// The integer of a number, where it fits `i64`.
    pub open spec fn as_i64(self) -> Option<i64> {
        match self {
            JsonView::Number(n) => n.int,
            _ => None,
        }
    }

    /// The integer of a number, where it fits `u64`.
    pub open spec fn as_u64(self) -> Option<u64> {
        match self {
            JsonView::Number(n) => n.uint,
            _ => None,
        }
    }

    /// The bit pattern of a number as a double.
    pub open spec fn as_double_bits(self) -> Option<u64> {
        match self {
            JsonView::Number(n) => n.double_bits,
            _ => None,
        }
    }

    /// The truth value of a boolean.
    pub open spec fn as_bool(self) -> Option<bool> {
        match self {
            JsonView::Bool(b) => Some(b),
            _ => None,
        }
    }

    /// The elements of an array.
    pub open spec fn as_array(self) -> Option<Seq<JsonView>> {
        match self {
            JsonView::Array(items) => Some(items),
            _ => None,
        }
    }
}

/// The member called `key` of what may be an object.
pub open spec fn get_in(doc: Option<JsonView>, key: Seq<char>) -> Option<JsonView> {
    match doc {
        Some(d) => d.get(key),
        None => None,
    }
}

/// What an optional document holds.
pub open spec fn opt_content(doc: Option<&Json>) -> Option<JsonView> {
    match doc {
        Some(d) => Some(d.content()),
        None => None,
    }
}

impl Json {
    /// The member called `key` of an object.
    pub fn get<'a>(&'a self, key: &str) -> (r: Option<&'a Json>)
        ensures
            opt_content(r) == self.content().get(key@),
    {
        match self {
            Json::Object(members) => {
                let ghost views = self.content()->Object_0;
                let mut i: usize = 0;
                assert(views.skip(0) =~= views);
                while i < members.len()
                    invariant
                        i <= members@.len(),
                        views.len() == members@.len(),
                        *self == Json::Object(*members),
                        views == self.content()->Object_0,
                        find_member(views.skip(i as int), key@) == find_member(views, key@),
                    decreases members@.len() - i,
                {
                    let ghost rest = views.skip(i as int);
                    assert(rest[0] == (members@[i as int].0@, members@[i as int].1.content()));
                    if str_eq(members[i].0.as_str(), key) {
                        return Some(&members[i].1);
                    }
                    assert(rest.skip(1) =~= views.skip(i + 1));
                    i += 1;
                }
                None
            },
            _ => None,
        }
    }

    /// The text of a string.
    pub fn as_str<'a>(&'a self) -> (r: Option<&'a str>)
        ensures
            match r {
                Some(s) => self.content().as_str() == Some(s@),
                None => self.content().as_str() is None,
            },
    {
        match self {
            Json::Str(s) => Some(s.as_str()),
            _ => None,
        }
    }

    /// The integer of a number, where it fits `i64`.
    pub fn as_i64(&self) -> (r: Option<i64>)
        ensures
            r == self.content().as_i64(),
    {
        match self {
            Json::Number(n) => n.int,
            _ => None,
        }
    }

    /// The integer of a number, where it fits `u64`.
    pub fn as_u64(&self) -> (r: Option<u64>)
        ensures
            r == self.content().as_u64(),
    {
        match self {
            Json::Number(n) => n.uint,
            _ => None,
        }
    }

    /// The bit pattern of a number as a double.
    pub fn as_double_bits(&self) -> (r: Option<u64>)
        ensures
            r == self.content().as_double_bits(),
    {
        match self {
            Json::Number(n) => n.double_bits,
            _ => None,
        }
    }

    /// The truth value of a boolean.
    pub fn as_bool(&self) -> (r: Option<bool>)
        ensures
            r == self.content().as_bool(),
    {
        match self {
            Json::Bool(b) => Some(*b),
            _ => None,
        }
    }

    /// The elements of an array.
    pub fn as_array<'a>(&'a self) -> (r: Option<&'a Vec<Json>>)
        ensures
            match r {
                Some(items) => *self == Json::Array(*items),
                None => !(*self is Array),
            },
    {
        match self {
            Json::Array(items) => Some(items),
            _ => None,
        }
    }

    /// Whether the document is `null`.
    pub fn is_null(&self) -> (r: bool)
        ensures
            r == (self.content() == JsonView::Null),
    {
        match self {
            Json::Null => true,
            _ => false,
        }
    }
}

/// A member that an object has is found by its name, where names differ; a name
/// that no member has is not.
pub proof fn law_member_is_found(members: Seq<(Seq<char>, JsonView)>, key: Seq<char>, i: int)
    ensures
        0 <= i < members.len() && members[i].0 == key && (forall|k: int|
            0 <= k < i ==> (#[trigger] members[k]).0 != key) ==> JsonView::Object(members).get(key)
            == Some(members[i].1),
        (forall|k: int| 0 <= k < members.len() ==> (#[trigger] members[k]).0 != key)
            ==> JsonView::Object(members).get(key) is None,
    decreases members.len(),
{
    if members.len() > 0 {
        let rest = members.skip(1);
        law_member_is_found(rest, key, i - 1);
        assert forall|k: int| 0 <= k < rest.len() implies (#[trigger] rest[k]).0 == members[k
            + 1].0 by {}
        if 0 <= i < members.len() && members[i].0 == key && (forall|k: int|
            0 <= k < i ==> (#[trigger] members[k]).0 != key) {
            if i > 0 {
                assert(members[0].0 != key);
                assert(rest[i - 1] == members[i]);
                assert forall|k: int| 0 <= k < i - 1 implies (#[trigger] rest[k]).0 != key by {
                    assert(members[k + 1].0 != key);
                }
            }
        }
        if forall|k: int| 0 <= k < members.len() ==> (#[trigger] members[k]).0 != key {
            assert(members[0].0 != key);
            assert forall|k: int| 0 <= k < rest.len() implies (#[trigger] rest[k]).0 != key by {
                assert(members[k + 1].0 != key);
            }
        }
    }
}

/// Values are read as what they are, and as nothing else.
pub proof fn law_values_are_read_as_they_are(b: bool, n: NumberView, s: Seq<char>)
    ensures
        JsonView::Bool(b).as_bool() == Some(b),
        JsonView::Number(n).as_i64() == n.int,
        JsonView::Number(n).as_u64() == n.uint,
        JsonView::Number(n).as_double_bits() == n.double_bits,
        JsonView::Str(s).as_str() == Some(s),
        JsonView::Str(s).as_i64() is None,
        JsonView::Str(s).as_bool() is None,
        JsonView::Number(n).as_str() is None,
        JsonView::Number(n).as_bool() is None,
        JsonView::Bool(b).as_i64() is None,
        JsonView::Null.as_i64() is None,
        JsonView::Null.as_bool() is None,
        JsonView::Null.as_str() is None,
        JsonView::Null.as_double_bits() is None,
{
}

} // verus!
