//! JSON values as far as the event rules read them, and parsing text into them.

use vstd::prelude::*;

verus! {

/// A JSON value. Numbers are only known to be numbers: no rule reads one.
#[derive(Debug)]
pub enum Json {
    Null,
    Bool(bool),
    Number,
    Text(String),
    Array(Vec<Json>),
    /// Members in order. Where a name occurs twice, the later member counts.
    Object(Vec<(String, Json)>),
}

/// What a [`Json`] says.
#[verifier::ext_equal]
pub enum JsonView {
    Null,
    Bool(bool),
    Number,
    Text(Seq<char>),
    Array(Seq<JsonView>),
    Object(Seq<(Seq<char>, JsonView)>),
}

/// What a JSON value says, level by level.
pub open spec fn json_view(json: Json) -> JsonView
    decreases json,
{
    match json {
        Json::Null => JsonView::Null,
        Json::Bool(b) => JsonView::Bool(b),
        Json::Number => JsonView::Number,
        Json::Text(s) => JsonView::Text(s@),
        Json::Array(items) => JsonView::Array(
            Seq::new(
                items@.len(),
                |i: int|
                    if 0 <= i < items@.len() {
                        json_view(items@[i])
                    } else {
                        JsonView::Null
                    },
            ),
        ),
        Json::Object(members) => JsonView::Object(
            Seq::new(
                members@.len(),
                |i: int|
                    if 0 <= i < members@.len() {
                        (members@[i].0@, json_view(members@[i].1))
                    } else {
                        (Seq::empty(), JsonView::Null)
                    },
            ),
        ),
    }
}

impl View for Json {
    type V = JsonView;

    open spec fn view(&self) -> JsonView {
        json_view(*self)
    }
}

/// The value of the last member with the given name.
pub open spec fn member(members: Seq<(Seq<char>, JsonView)>, name: Seq<char>) -> Option<JsonView>
    decreases members.len(),
{
    if members.len() == 0 {
        None
    } else if members.last().0 == name {
        Some(members.last().1)
    } else {
        member(members.drop_last(), name)
    }
}

impl JsonView {
    /// The member of that name, if this is an object that has one.
    pub open spec fn get(self, name: Seq<char>) -> Option<JsonView> {
        match self {
            JsonView::Object(members) => member(members, name),
            _ => None,
        }
    }

    /// The text, if this is a string.
    pub open spec fn as_text(self) -> Option<Seq<char>> {
        match self {
            JsonView::Text(s) => Some(s),
            _ => None,
        }
    }

    /// The items, if this is an array.
    pub open spec fn as_array(self) -> Option<Seq<JsonView>> {
        match self {
            JsonView::Array(items) => Some(items),
            _ => None,
        }
    }
}

/// Where a name occurs more than once, the last member counts.
pub proof fn the_last_member_counts(
    members: Seq<(Seq<char>, JsonView)>,
    name: Seq<char>,
    i: int,
)
    requires
        0 <= i < members.len(),
        members[i].0 == name,
        forall|j: int| i < j < members.len() ==> (#[trigger] members[j]).0 != name,
    ensures
        JsonView::Object(members).get(name) == Some(members[i].1),
    decreases members.len(),
{
    if i < members.len() - 1 {
        assert(members[members.len() - 1].0 != name);
        let front = members.drop_last();
        assert(forall|j: int| 0 <= j < front.len() ==> front[j] == members[j]);
        the_last_member_counts(front, name, i);
    }
}

/// A value has no member of a name that does not occur in it.
pub proof fn absent_members_are_not_found(v: JsonView, name: Seq<char>)
    requires
        v matches JsonView::Object(members) ==> forall|j: int|
            0 <= j < members.len() ==> (#[trigger] members[j]).0 != name,
    ensures
        v.get(name) is None,
    decreases v,
{
    if let JsonView::Object(members) = v {
        lemma_absent(members, name);
    }
}

proof fn lemma_absent(members: Seq<(Seq<char>, JsonView)>, name: Seq<char>)
    requires
        forall|j: int| 0 <= j < members.len() ==> (#[trigger] members[j]).0 != name,
    ensures
        member(members, name) is None,
    decreases members.len(),
{
    if members.len() > 0 {
        let front = members.drop_last();
        assert(forall|j: int| 0 <= j < front.len() ==> front[j] == members[j]);
        assert(members[members.len() - 1].0 != name);
        lemma_absent(front, name);
    }
}

/// Only strings have text, and only arrays have items: their own.
pub proof fn only_strings_and_arrays_are_read(v: JsonView)
    ensures
        forall|s: Seq<char>| v.as_text() == Some(s) <==> v == JsonView::Text(s),
        forall|items: Seq<JsonView>| v.as_array() == Some(items) <==> v == JsonView::Array(items),
{
}

/// A value says at every level what it holds: the items of an array and the members of
/// an object are all there, in order.
pub proof fn values_say_what_they_hold(json: Json)
    ensures
        match json {
            Json::Null => json@ is Null,
            Json::Bool(b) => json@ == JsonView::Bool(b),
            Json::Number => json@ is Number,
            Json::Text(s) => json@ == JsonView::Text(s@),
            Json::Array(items) => {
                &&& json@ is Array
                &&& json@->Array_0.len() == items@.len()
                &&& forall|i: int|
                    0 <= i < items@.len() ==> #[trigger] json@->Array_0[i] == items@[i]@
            },
            Json::Object(members) => {
                &&& json@ is Object
                &&& json@->Object_0.len() == members@.len()
                &&& forall|i: int|
                    0 <= i < members@.len() ==> (#[trigger] json@->Object_0[i]).0
                        == members@[i].0@ && json@->Object_0[i].1 == members@[i].1@
            },
        },
{
}

impl Json {
    /// The member of that name, if this is an object that has one.
    pub fn get(&self, name: &str) -> (found: Option<&Json>)
        ensures
            match found {
                Some(value) => self@.get(name@) == Some(value@),
                None => self@.get(name@) is None,
            },
    {
        match self {
            Json::Object(members) => {
                let ghost all = self@->Object_0;
                let mut n: usize = members.len();
                assert(all.take(n as int) =~= all);
                while n > 0
                    invariant
                        n <= members@.len(),
                        all == self@->Object_0,
                        self@ is Object,
                        all.len() == members@.len(),
                        forall|i: int|
                            0 <= i < all.len() ==> #[trigger] all[i] == (
                                members@[i].0@,
                                members@[i].1@,
                            ),
                        member(all, name@) == member(all.take(n as int), name@),
                    decreases n,
                {
                    n = n - 1;
                    let ghost upto = all.take(n + 1);
                    assert(upto.last() == all[n as int]);
                    if crate::text::reads(&members[n].0, name) {
                        return Some(&members[n].1);
                    }
                    assert(upto.drop_last() =~= all.take(n as int));
                }
                assert(all.take(0) =~= Seq::empty());
                None
            },
            _ => None,
        }
    }

    /// The text, if this is a string.
    pub fn as_text(&self) -> (text: Option<&String>)
        ensures
            match text {
                Some(s) => self@.as_text() == Some(s@),
                None => self@.as_text() is None,
            },
    {
        match self {
            Json::Text(s) => Some(s),
            _ => None,
        }
    }

    /// The items, if this is an array.
    pub fn as_array(&self) -> (items: Option<&Vec<Json>>)
        ensures
            match items {
                Some(v) => self@.as_array() is Some && self@.as_array()->0.len() == v@.len()
                    && forall|i: int|
                    0 <= i < v@.len() ==> #[trigger] v@[i]@ == self@.as_array()->0[i],
                None => self@.as_array() is None,
            },
    {
        match self {
            Json::Array(items) => Some(items),
            _ => None,
        }
    }
}

/// A `serde_json::Value`, opaque: `value_json` says what it holds.
#[verifier::external_type_specification]
#[verifier::external_body]
pub struct ExValue(serde_json::Value);

/// A `serde_json::Error`, opaque: only that there was one matters.
#[verifier::external_type_specification]
#[verifier::external_body]
pub struct ExError(serde_json::Error);

/// What `serde_json::from_str` makes of a text: `None` where it is no JSON text
/// that the parser takes.
pub uninterp spec fn json_text(text: Seq<char>) -> Option<JsonView>;

/// What a `serde_json::Value` holds, its numbers left out.
pub uninterp spec fn value_json(value: serde_json::Value) -> JsonView;

/// One level of a `serde_json::Value`, the levels below it still closed.
enum Node<'a> {
    Null,
    Bool(bool),
    Number,
    Text(&'a String),
    Array(&'a Vec<serde_json::Value>),
    Object(Vec<(&'a String, &'a serde_json::Value)>),
}

/// Whether `node` is the first level of `view`.
spec fn opens(node: Node, view: JsonView) -> bool {
    match node {
        Node::Null => view == JsonView::Null,
        Node::Bool(b) => view == JsonView::Bool(b),
        Node::Number => view == JsonView::Number,
        Node::Text(s) => view == JsonView::Text(s@),
        Node::Array(items) => view is Array && view->Array_0 == items@.map_values(
            |v: serde_json::Value| value_json(v),
        ),
        Node::Object(members) => view is Object && view->Object_0 == members@.map_values(
            |m: (&String, &serde_json::Value)| (m.0@, value_json(*m.1)),
        ),
    }
}

/// `serde_json::from_str::<serde_json::Value>`: a value that holds what
/// `json_text` names, or an error where it names nothing.
#[verifier::external_body]
fn parse_value(text: &str) -> (parsed: Result<serde_json::Value, serde_json::Error>)
    ensures
        match parsed {
            Ok(value) => json_text(text@) == Some(value_json(value)),
            Err(_) => json_text(text@) is None,
        },
{
    serde_json::from_str::<serde_json::Value>(text)
}

/// The variants of `serde_json::Value` told apart, with the members of an object
/// taken from its map in the map's order (`serde_json::Map::iter`).
#[verifier::external_body]
fn open_value<'a>(value: &'a serde_json::Value) -> (node: Node<'a>)
    ensures
        opens(node, value_json(*value)),
{
    match value {
        serde_json::Value::Null => Node::Null,
        serde_json::Value::Bool(b) => Node::Bool(*b),
        serde_json::Value::Number(_) => Node::Number,
        serde_json::Value::String(s) => Node::Text(s),
        serde_json::Value::Array(items) => Node::Array(items),
        serde_json::Value::Object(map) => Node::Object(map.iter().collect()),
    }
}

/// The value, level by level.
fn read_value(value: &serde_json::Value) -> (json: Json)
    ensures
        json@ == value_json(*value),
    decreases value_json(*value),
{
    match open_value(value) {
        Node::Null => Json::Null,
        Node::Bool(b) => Json::Bool(b),
        Node::Number => Json::Number,
        Node::Text(s) => Json::Text(s.clone()),
        Node::Array(items) => {
            let ghost all = value_json(*value)->Array_0;
            let mut out: Vec<Json> = Vec::new();
            let mut i: usize = 0;
            while i < items.len()
                invariant
                    i <= items@.len(),
                    out@.len() == i,
                    value_json(*value) == JsonView::Array(all),
                    all.len() == items@.len(),
                    forall|k: int| 0 <= k < all.len() ==> all[k] == value_json(#[trigger] items@[k]),
                    forall|k: int| 0 <= k < i ==> (#[trigger] out@[k])@ == all[k],
                decreases items@.len() - i,
            {
                assert(decreases_to!(value_json(*value) => value_json(*value)->Array_0));
                assert(decreases_to!(all => all[i as int]));
                out.push(read_value(&items[i]));
                i = i + 1;
            }
            let json: Json = Json::Array(out);
            assert(json@->Array_0 =~= all);
            json
        },
        Node::Object(members) => {
            let ghost all = value_json(*value)->Object_0;
            let mut out: Vec<(String, Json)> = Vec::new();
            let mut i: usize = 0;
            while i < members.len()
                invariant
                    i <= members@.len(),
                    out@.len() == i,
                    value_json(*value) == JsonView::Object(all),
                    all.len() == members@.len(),
                    forall|k: int|
                        0 <= k < all.len() ==> #[trigger] all[k] == (
                            members@[k].0@,
                            value_json(*members@[k].1),
                        ),
                    forall|k: int|
                        0 <= k < i ==> all[k] == ((#[trigger] out@[k]).0@, out@[k].1@),
                decreases members@.len() - i,
            {
                assert(decreases_to!(value_json(*value) => value_json(*value)->Object_0));
                assert(decreases_to!(all => all[i as int]));
                assert(decreases_to!(all[i as int] => all[i as int].1));
                out.push((members[i].0.clone(), read_value(members[i].1)));
                i = i + 1;
            }
            let json: Json = Json::Object(out);
            assert(json@->Object_0 =~= all);
            json
        },
    }
}

/// The JSON value that a text writes down, or `None` for malformed text.
pub fn parse_json(text: &str) -> (parsed: Option<Json>)
    ensures
        match parsed {
            Some(json) => json_text(text@) == Some(json@),
            None => json_text(text@) is None,
        },
{
    match parse_value(text) {
        Ok(value) => Some(read_value(&value)),
        Err(_) => None,
    }
}

} // verus!
