//! JSON values: the ones that are read, and the bodies that are written.
//!
//! The text of JSON is read and written by `serde_json`. What the library decides, it decides on
//! the plain values of [`Json`] and [`Body`].

use crate::number::decimal;
use crate::text::same_text;
use vstd::prelude::*;

verus! {

/// A parsed JSON value of `serde_json`.
#[verifier::external_type_specification]
#[verifier::external_body]
pub struct ExValue(serde_json::Value);

/// The error of `serde_json`.
#[verifier::external_type_specification]
#[verifier::external_body]
pub struct ExError(serde_json::Error);

/// The members of a JSON object of `serde_json`.
#[verifier::external_type_specification]
#[verifier::external_body]
#[verifier::reject_recursive_types(K)]
#[verifier::reject_recursive_types(V)]
pub struct ExMap<K, V>(serde_json::Map<K, V>);

/// The model of a JSON value. A number is the text that it is written as.
#[verifier::ext_equal]
pub enum JsonView {
    Null,
    Bool(bool),
    Number(Seq<char>),
    Text(Seq<char>),
    Array(Seq<JsonView>),
    Object(Map<Seq<char>, JsonView>),
}

/// What a parsed value holds: its variant with, for a number, the text that `Number`'s `Display`
/// writes; for an array its items, and for an object its members.
pub uninterp spec fn json_contents(value: serde_json::Value) -> JsonView;

/// What the members of a JSON object hold, by name.
pub uninterp spec fn map_members(
    members: serde_json::Map<String, serde_json::Value>,
) -> Map<Seq<char>, JsonView>;

/// The value that `serde_json::from_slice` reads from some bytes, or the words of the error that it
/// reports.
pub uninterp spec fn json_reading(bytes: Seq<u8>) -> Result<JsonView, Seq<char>>;

/// The JSON document that some bytes hold; `None` where they hold none.
pub open spec fn json_document(bytes: Seq<u8>) -> Option<JsonView> {
    match json_reading(bytes) {
        Ok(value) => Some(value),
        Err(_) => None,
    }
}

/// The bytes that `serde_json::to_vec` writes for a value.
pub uninterp spec fn json_bytes(value: JsonView) -> Seq<u8>;

/// A JSON value. Where an object names a member more than once, the last one counts.
#[derive(Debug, PartialEq)]
pub enum Json {
    Null,
    Bool(bool),
    /// The number as it is written.
    Number(String),
    Text(String),
    Array(Vec<Json>),
    Object(Vec<(String, Json)>),
}

impl Json {
    pub open spec fn view(self) -> JsonView
        decreases self,
    {
        match self {
            Json::Null => JsonView::Null,
            Json::Bool(b) => JsonView::Bool(b),
            Json::Number(text) => JsonView::Number(text@),
            Json::Text(text) => JsonView::Text(text@),
            Json::Array(items) => JsonView::Array(items_view(items@)),
            Json::Object(members) => JsonView::Object(members_view(members@)),
        }
    }
}

/// The models of some values, in order.
pub open spec fn items_view(items: Seq<Json>) -> Seq<JsonView>
    decreases items,
{
    if items.len() == 0 {
        Seq::empty()
    } else {
        items_view(items.drop_last()).push(items.last().view())
    }
}

/// The members of an object, by name.
pub open spec fn members_view(members: Seq<(String, Json)>) -> Map<Seq<char>, JsonView>
    decreases members,
{
    if members.len() == 0 {
        Map::empty()
    } else {
        members_view(members.drop_last()).insert(members.last().0@, members.last().1.view())
    }
}

/// Each item's model stands at the item's place.
pub proof fn items_view_is_itemwise(items: Seq<Json>)
    ensures
        items_view(items).len() == items.len(),
        forall|i: int|
            0 <= i < items.len() ==> #[trigger] items_view(items)[i] == items[i].view(),
    decreases items.len(),
{
    if items.len() > 0 {
        items_view_is_itemwise(items.drop_last());
        assert forall|i: int| 0 <= i < items.len() implies #[trigger] items_view(items)[i]
            == items[i].view() by {
            if i < items.len() - 1 {
                assert(items_view(items)[i] == items_view(items.drop_last())[i]);
            }
        }
    }
}

/// The member of an object; `None` of any other value.
pub open spec fn member(value: JsonView, name: Seq<char>) -> Option<JsonView> {
    match value {
        JsonView::Object(members) => if members.dom().contains(name) {
            Some(members[name])
        } else {
            None
        },
        _ => None,
    }
}

/// The text that a value is; `None` of any other value.
pub open spec fn text_value(value: JsonView) -> Option<Seq<char>> {
    match value {
        JsonView::Text(text) => Some(text),
        _ => None,
    }
}

/// The text that a member is.
pub open spec fn member_text(value: JsonView, name: Seq<char>) -> Option<Seq<char>> {
    match member(value, name) {
        Some(found) => text_value(found),
        None => None,
    }
}

/// The member is there and is `true`.
pub open spec fn member_is_true(value: JsonView, name: Seq<char>) -> bool {
    member(value, name) == Some(JsonView::Bool(true))
}

proof fn lemma_last_member_counts(members: Seq<(String, Json)>, at: int, name: Seq<char>)
    requires
        0 <= at <= members.len(),
        forall|i: int| at <= i < members.len() ==> (#[trigger] members[i]).0@ != name,
    ensures
        members_view(members).dom().contains(name) == members_view(members.take(at)).dom().contains(
            name,
        ),
        members_view(members).dom().contains(name) ==> members_view(members)[name] == members_view(
            members.take(at),
        )[name],
    decreases members.len() - at,
{
    if at == members.len() {
        assert(members.take(at) =~= members);
    } else {
        lemma_last_member_counts(members, at + 1, name);
        assert(members.take(at + 1).drop_last() =~= members.take(at));
        assert(members.take(at + 1).last() == members[at]);
    }
}

/// The position of the member that counts for a name.
fn member_position(members: &Vec<(String, Json)>, name: &str) -> (r: Option<usize>)
    ensures
        r is Some <==> members_view(members@).dom().contains(name@),
        r matches Some(i) ==> i < members@.len() && members@[i as int].1.view() == members_view(
            members@,
        )[name@],
{
    let mut left: usize = members.len();
    while left > 0
        invariant
            left <= members@.len(),
            forall|i: int| left <= i < members@.len() ==> (#[trigger] members@[i]).0@ != name@,
        decreases left,
    {
        if same_text(members[left - 1].0.as_str(), name) {
            proof {
                lemma_last_member_counts(members@, left as int, name@);
                assert(members@.take(left as int).last() == members@[left - 1]);
            }
            return Some(left - 1);
        }
        left -= 1;
    }
    proof {
        lemma_last_member_counts(members@, 0, name@);
        assert(members@.take(0).len() == 0);
    }
    None
}

impl Json {
    /// The member of an object; `None` of any other value.
    pub fn get(&self, name: &str) -> (r: Option<&Json>)
        ensures
            match r {
                Some(found) => member(self.view(), name@) == Some(found.view()),
                None => member(self.view(), name@) is None,
            },
    {
        match self {
            Json::Object(members) => match member_position(members, name) {
                Some(i) => Some(&members[i].1),
                None => None,
            },
            _ => None,
        }
    }

    /// Moves the member of an object out; `None` of any other value.
    pub fn take(self, name: &str) -> (r: Option<Json>)
        ensures
            match r {
                Some(found) => member(self.view(), name@) == Some(found.view()),
                None => member(self.view(), name@) is None,
            },
    {
        match self {
            Json::Object(members) => match member_position(&members, name) {
                Some(i) => {
                    let mut members = members;
                    let (_, found) = members.swap_remove(i);
                    Some(found)
                },
                None => None,
            },
            _ => None,
        }
    }

    /// The text that the value is; `None` of any other value.
    pub fn as_text(&self) -> (r: Option<&String>)
        ensures
            match r {
                Some(text) => text_value(self.view()) == Some(text@),
                None => text_value(self.view()) is None,
            },
    {
        match self {
            Json::Text(text) => Some(text),
            _ => None,
        }
    }

    /// The text that a member is.
    pub fn text_at(&self, name: &str) -> (r: Option<String>)
        ensures
            match r {
                Some(text) => member_text(self.view(), name@) == Some(text@),
                None => member_text(self.view(), name@) is None,
            },
    {
        match self.get(name) {
            Some(found) => match found.as_text() {
                Some(text) => Some(text.clone()),
                None => None,
            },
            None => None,
        }
    }

    /// Whether a member is there and is `true`.
    pub fn is_true_at(&self, name: &str) -> (r: bool)
        ensures
            r == member_is_true(self.view(), name@),
    {
        match self.get(name) {
            Some(Json::Bool(b)) => *b,
            _ => false,
        }
    }
}

/// `serde_json::from_slice` into a `serde_json::Value`: the value or the error that
/// [`json_reading`] names. An error is given as the text that `serde_json::Error` displays; for
/// bytes that are already at hand, it tells what is wrong with them and at which line and column.
#[verifier::external_body]
fn value_from_slice(bytes: &[u8]) -> (r: Result<serde_json::Value, String>)
    ensures
        match r {
            Ok(value) => json_reading(bytes@) == Ok::<JsonView, Seq<char>>(json_contents(value)),
            Err(words) => json_reading(bytes@) == Err::<JsonView, Seq<char>>(words@),
        },
{
    serde_json::from_slice::<serde_json::Value>(bytes).map_err(|e| e.to_string())
}

/// The outermost layer of a `serde_json::Value`, whose parts are still such values.
enum Layer {
    Null,
    Bool(bool),
    Number(String),
    Text(String),
    Array(Vec<serde_json::Value>),
    Object(Vec<(String, serde_json::Value)>),
}

/// What the members of a layer hold, by name.
spec fn layer_members(members: Seq<(String, serde_json::Value)>) -> Map<Seq<char>, JsonView>
    decreases members.len(),
{
    if members.len() == 0 {
        Map::empty()
    } else {
        layer_members(members.drop_last()).insert(
            members.last().0@,
            json_contents(members.last().1),
        )
    }
}

/// What a layer holds.
spec fn layer_contents(layer: Layer) -> JsonView {
    match layer {
        Layer::Null => JsonView::Null,
        Layer::Bool(b) => JsonView::Bool(b),
        Layer::Number(text) => JsonView::Number(text@),
        Layer::Text(text) => JsonView::Text(text@),
        Layer::Array(items) => JsonView::Array(
            items@.map_values(|item: serde_json::Value| json_contents(item)),
        ),
        Layer::Object(members) => JsonView::Object(layer_members(members@)),
    }
}

/// No name occurs twice.
spec fn names_differ(members: Seq<(String, serde_json::Value)>) -> bool {
    forall|i: int, j: int|
        0 <= i < j < members.len() ==> (#[trigger] members[i]).0@ != (#[trigger] members[j]).0@
}

/// The variants of `serde_json::Value`, and what each of them carries. A number is given as the
/// text that `serde_json::Number` displays, and the members of a `serde_json::Map` come out one by
/// one, each name once.
#[verifier::external_body]
fn into_layer(value: serde_json::Value) -> (r: Layer)
    ensures
        json_contents(value) == layer_contents(r),
        r matches Layer::Object(members) ==> names_differ(members@),
{
    match value {
        serde_json::Value::Null => Layer::Null,
        serde_json::Value::Bool(b) => Layer::Bool(b),
        serde_json::Value::Number(number) => Layer::Number(number.to_string()),
        serde_json::Value::String(text) => Layer::Text(text),
        serde_json::Value::Array(items) => Layer::Array(items),
        serde_json::Value::Object(members) => Layer::Object(members.into_iter().collect()),
    }
}

proof fn lemma_layer_members_are_smaller(members: Seq<(String, serde_json::Value)>, i: int)
    requires
        names_differ(members),
        0 <= i < members.len(),
    ensures
        decreases_to!(layer_members(members) => json_contents(members[i].1)),
{
    lemma_layer_members_at(members, i);
    let map = layer_members(members);
    assert(decreases_to!(map => map[members[i].0@]));
}

proof fn lemma_layer_members_at(members: Seq<(String, serde_json::Value)>, i: int)
    requires
        names_differ(members),
        0 <= i < members.len(),
    ensures
        layer_members(members).dom().finite(),
        layer_members(members).dom().contains(members[i].0@),
        layer_members(members)[members[i].0@] == json_contents(members[i].1),
    decreases members.len(),
{
    if i < members.len() - 1 {
        assert(members.drop_last()[i] == members[i]);
        assert(members[i].0@ != members[members.len() - 1].0@);
        lemma_layer_members_at(members.drop_last(), i);
    } else {
        lemma_layer_members_are_finite(members);
    }
}

proof fn lemma_layer_members_are_finite(members: Seq<(String, serde_json::Value)>)
    ensures
        layer_members(members).dom().finite(),
    decreases members.len(),
{
    if members.len() > 0 {
        lemma_layer_members_are_finite(members.drop_last());
    }
}

/// Converts a `serde_json::Value`, layer by layer.
pub(crate) fn from_value(value: serde_json::Value) -> (r: Json)
    ensures
        r.view() == json_contents(value),
    decreases json_contents(value),
{
    let ghost whole = json_contents(value);
    match into_layer(value) {
        Layer::Null => Json::Null,
        Layer::Bool(b) => Json::Bool(b),
        Layer::Number(text) => Json::Number(text),
        Layer::Text(text) => Json::Text(text),
        Layer::Array(items) => {
            let ghost all = items@;
            let ghost contents = all.map_values(|item: serde_json::Value| json_contents(item));
            let mut out: Vec<Json> = Vec::new();
            for item in it: items
                invariant
                    it.seq() == all,
                    whole == json_contents(value),
                    whole == JsonView::Array(contents),
                    contents == all.map_values(|item: serde_json::Value| json_contents(item)),
                    items_view(out@) == contents.take(it.index() as int),
            {
                let ghost done = it.index() as int;
                let ghost before = out@;
                assert(contents[done] == json_contents(item));
                assert(decreases_to!(whole => whole->Array_0));
                assert(decreases_to!(contents => contents[done]));
                out.push(from_value(item));
                assert(out@.drop_last() =~= before);
                assert(contents.take(done + 1) =~= contents.take(done).push(contents[done]));
            }
            assert(contents.take(all.len() as int) =~= contents);
            Json::Array(out)
        },
        Layer::Object(members) => {
            let ghost all = members@;
            let mut out: Vec<(String, Json)> = Vec::new();
            assert(all.take(0) =~= Seq::<(String, serde_json::Value)>::empty());
            for member in it: members
                invariant
                    it.seq() == all,
                    names_differ(all),
                    whole == json_contents(value),
                    whole == JsonView::Object(layer_members(all)),
                    members_view(out@) == layer_members(all.take(it.index() as int)),
            {
                let ghost done = it.index() as int;
                let ghost before = out@;
                proof {
                    lemma_layer_members_are_smaller(all, done);
                    assert(decreases_to!(whole => whole->Object_0));
                    assert(all.take(done + 1).drop_last() =~= all.take(done));
                    assert(all.take(done + 1).last() == member);
                }
                let (name, part) = member;
                out.push((name, from_value(part)));
                assert(out@.drop_last() =~= before);
            }
            assert(all.take(all.len() as int) =~= all);
            Json::Object(out)
        },
    }
}

/// Reads a JSON document. An error tells what is wrong with the bytes.
pub fn parse_json(bytes: &[u8]) -> (r: Result<Json, String>)
    ensures
        match r {
            Ok(value) => json_reading(bytes@) == Ok::<JsonView, Seq<char>>(value.view()),
            Err(words) => json_reading(bytes@) == Err::<JsonView, Seq<char>>(words@),
        },
{
    match value_from_slice(bytes) {
        Ok(value) => Ok(from_value(value)),
        Err(e) => Err(e),
    }
}

/// A JSON body that the library writes. Where an object names a member more than once, the last
/// one counts.
#[derive(Debug, PartialEq)]
pub enum Body {
    Count(u64),
    Text(String),
    List(Vec<Body>),
    Object(Vec<(String, Body)>),
}

impl Body {
    pub open spec fn view(self) -> JsonView
        decreases self,
    {
        match self {
            Body::Count(n) => JsonView::Number(decimal(n as nat)),
            Body::Text(text) => JsonView::Text(text@),
            Body::List(items) => JsonView::Array(body_items_view(items@)),
            Body::Object(members) => JsonView::Object(body_members_view(members@)),
        }
    }
}

/// The models of some bodies, in order.
pub open spec fn body_items_view(items: Seq<Body>) -> Seq<JsonView>
    decreases items,
{
    if items.len() == 0 {
        Seq::empty()
    } else {
        body_items_view(items.drop_last()).push(items.last().view())
    }
}

/// The members of an object, by name.
pub open spec fn body_members_view(members: Seq<(String, Body)>) -> Map<Seq<char>, JsonView>
    decreases members,
{
    if members.len() == 0 {
        Map::empty()
    } else {
        body_members_view(members.drop_last()).insert(members.last().0@, members.last().1.view())
    }
}

/// `serde_json::Value::from` of a `u64`: a number, which is displayed in decimal.
#[verifier::external_body]
fn value_of_count(n: u64) -> (r: serde_json::Value)
    ensures
        json_contents(r) == JsonView::Number(decimal(n as nat)),
{
    serde_json::Value::from(n)
}

/// `serde_json::Value::String` of a text.
#[verifier::external_body]
fn value_of_text(text: String) -> (r: serde_json::Value)
    ensures
        json_contents(r) == JsonView::Text(text@),
{
    serde_json::Value::String(text)
}

/// `serde_json::Value::Array` of some values, in order.
#[verifier::external_body]
fn value_of_list(items: Vec<serde_json::Value>) -> (r: serde_json::Value)
    ensures
        json_contents(r) == JsonView::Array(
            items@.map_values(|item: serde_json::Value| json_contents(item)),
        ),
{
    serde_json::Value::Array(items)
}

/// `serde_json::Map::new`: no members.
#[verifier::external_body]
fn no_members() -> (r: serde_json::Map<String, serde_json::Value>)
    ensures
        map_members(r).dom() == Set::<Seq<char>>::empty(),
{
    serde_json::Map::new()
}

/// `serde_json::Map::insert`: the name has the value, whether or not it had another one before; all
/// other members stay.
#[verifier::external_body]
fn insert_member(
    members: &mut serde_json::Map<String, serde_json::Value>,
    name: String,
    value: serde_json::Value,
)
    ensures
        map_members(*final(members)) == map_members(*old(members)).insert(
            name@,
            json_contents(value),
        ),
{
    members.insert(name, value);
}

/// `serde_json::Value::Object` of some members.
#[verifier::external_body]
fn value_of_members(members: serde_json::Map<String, serde_json::Value>) -> (r: serde_json::Value)
    ensures
        json_contents(r) == JsonView::Object(map_members(members)),
{
    serde_json::Value::Object(members)
}

/// Converts a body to a `serde_json::Value`, layer by layer.
fn to_value(body: &Body) -> (r: serde_json::Value)
    ensures
        json_contents(r) == body.view(),
    decreases body,
{
    match body {
        Body::Count(n) => value_of_count(*n),
        Body::Text(text) => value_of_text(text.clone()),
        Body::List(items) => {
            let mut out: Vec<serde_json::Value> = Vec::new();
            let mut i: usize = 0;
            assert(items@.take(0) =~= Seq::<Body>::empty());
            while i < items.len()
                invariant
                    i <= items@.len(),
                    body == Body::List(*items),
                    out@.map_values(|item: serde_json::Value| json_contents(item))
                        == body_items_view(items@.take(i as int)),
                decreases items@.len() - i,
            {
                proof {
                    assert(decreases_to!(*body => body->List_0));
                    assert(decreases_to!(items@ => items@[i as int]));
                    assert(items@.take(i + 1).drop_last() =~= items@.take(i as int));
                    assert(items@.take(i + 1).last() == items@[i as int]);
                }
                let ghost before = out@;
                let value = to_value(&items[i]);
                out.push(value);
                assert(out@.map_values(|item: serde_json::Value| json_contents(item))
                    =~= before.map_values(|item: serde_json::Value| json_contents(item)).push(
                    json_contents(value),
                ));
                i += 1;
            }
            assert(items@.take(items@.len() as int) =~= items@);
            value_of_list(out)
        },
        Body::Object(members) => {
            let mut out = no_members();
            let mut i: usize = 0;
            assert(members@.take(0) =~= Seq::<(String, Body)>::empty());
            assert(map_members(out) =~= Map::<Seq<char>, JsonView>::empty());
            while i < members.len()
                invariant
                    i <= members@.len(),
                    body == Body::Object(*members),
                    map_members(out) == body_members_view(members@.take(i as int)),
                decreases members@.len() - i,
            {
                proof {
                    assert(decreases_to!(*body => body->Object_0));
                    assert(decreases_to!(members@ => members@[i as int]));
                    assert(decreases_to!(members@[i as int] => members@[i as int].1));
                    assert(members@.take(i + 1).drop_last() =~= members@.take(i as int));
                    assert(members@.take(i + 1).last() == members@[i as int]);
                }
                let value = to_value(&members[i].1);
                insert_member(&mut out, members[i].0.clone(), value);
                i += 1;
            }
            assert(members@.take(members@.len() as int) =~= members@);
            value_of_members(out)
        },
    }
}

/// `serde_json::to_vec` of a `serde_json::Value`: the bytes that [`json_bytes`] names for what the
/// value holds. It reports an error only for a type whose `Serialize` fails or which has map keys
/// that are no strings; a `serde_json::Value` is no such type.
#[verifier::external_body]
fn value_to_vec(value: &serde_json::Value) -> (r: Result<Vec<u8>, String>)
    ensures
        r is Ok,
        r->Ok_0@ == json_bytes(json_contents(*value)),
{
    serde_json::to_vec(value).map_err(|e| e.to_string())
}

/// Writes a body as JSON text.
pub fn write_json(body: &Body) -> (r: Result<Vec<u8>, String>)
    ensures
        r matches Ok(bytes) && bytes@ == json_bytes(body.view()),
{
    let value = to_value(body);
    value_to_vec(&value)
}

proof fn lemma_members_view(members: Seq<(String, Json)>)
    ensures
        forall|name: Seq<char>| #[trigger]
            members_view(members).dom().contains(name) <==> exists|i: int|
                0 <= i < members.len() && (#[trigger] members[i]).0@ == name,
        forall|i: int|
            #![trigger members[i]]
            0 <= i < members.len() && (forall|j: int|
                i < j < members.len() ==> (#[trigger] members[j]).0@ != members[i].0@)
                ==> members_view(members)[members[i].0@] == members[i].1.view(),
    decreases members.len(),
{
    if members.len() > 0 {
        let shorter = members.drop_last();
        let top = members.len() - 1;
        lemma_members_view(shorter);
        assert forall|name: Seq<char>| #[trigger]
            members_view(members).dom().contains(name) == exists|i: int|
                0 <= i < members.len() && (#[trigger] members[i]).0@ == name by {
            if members_view(members).dom().contains(name) {
                if name == members[top].0@ {
                    assert(members[top].0@ == name);
                } else {
                    assert(members_view(shorter).dom().contains(name));
                    let i = choose|i: int|
                        0 <= i < shorter.len() && (#[trigger] shorter[i]).0@ == name;
                    assert(members[i].0@ == name);
                }
            }
            if exists|i: int| 0 <= i < members.len() && (#[trigger] members[i]).0@ == name {
                let i = choose|i: int| 0 <= i < members.len() && (#[trigger] members[i]).0@ == name;
                if i < top {
                    assert(shorter[i].0@ == name);
                    assert(members_view(shorter).dom().contains(name));
                }
            }
        }
        assert forall|i: int|
            #![trigger members[i]]
            0 <= i < members.len() && (forall|j: int|
                i < j < members.len() ==> (#[trigger] members[j]).0@ != members[i].0@) implies members_view(
        members)[members[i].0@] == members[i].1.view() by {
            if i < top {
                assert(members[top].0@ != members[i].0@);
                assert(shorter[i] == members[i]);
                assert forall|j: int| i < j < shorter.len() implies (#[trigger] shorter[j]).0@
                    != shorter[i].0@ by {
                    assert(members[j].0@ != members[i].0@);
                }
            }
        }
    }
}

/// The model of a value is the value: the same variant with the same text, the items of an array one
/// by one, and of an object every name with the last value that it comes with.
pub proof fn a_value_is_modelled_as_it_is(
    b: bool,
    text: String,
    items: Vec<Json>,
    members: Vec<(String, Json)>,
)
    ensures
        Json::Null.view() == JsonView::Null,
        Json::Bool(b).view() == JsonView::Bool(b),
        Json::Number(text).view() == JsonView::Number(text@),
        Json::Text(text).view() == JsonView::Text(text@),
        Json::Array(items).view() matches JsonView::Array(views) && views.len() == items@.len()
            && forall|i: int| 0 <= i < items@.len() ==> #[trigger] views[i] == items@[i].view(),
        Json::Object(members).view() matches JsonView::Object(views) && (forall|name: Seq<char>|
            #[trigger] views.dom().contains(name) <==> exists|i: int|
                0 <= i < members@.len() && (#[trigger] members@[i]).0@ == name) && (forall|i: int|
            #![trigger members@[i]]
            0 <= i < members@.len() && (forall|j: int|
                i < j < members@.len() ==> (#[trigger] members@[j]).0@ != members@[i].0@)
                ==> views[members@[i].0@] == members@[i].1.view()),
{
    items_view_is_itemwise(items@);
    lemma_members_view(members@);
}

proof fn lemma_body_members_view(members: Seq<(String, Body)>)
    ensures
        forall|name: Seq<char>| #[trigger]
            body_members_view(members).dom().contains(name) <==> exists|i: int|
                0 <= i < members.len() && (#[trigger] members[i]).0@ == name,
        forall|i: int|
            #![trigger members[i]]
            0 <= i < members.len() && (forall|j: int|
                i < j < members.len() ==> (#[trigger] members[j]).0@ != members[i].0@)
                ==> body_members_view(members)[members[i].0@] == members[i].1.view(),
    decreases members.len(),
{
    if members.len() > 0 {
        let shorter = members.drop_last();
        let top = members.len() - 1;
        lemma_body_members_view(shorter);
        assert forall|name: Seq<char>| #[trigger]
            body_members_view(members).dom().contains(name) == exists|i: int|
                0 <= i < members.len() && (#[trigger] members[i]).0@ == name by {
            if body_members_view(members).dom().contains(name) {
                if name == members[top].0@ {
                    assert(members[top].0@ == name);
                } else {
                    assert(body_members_view(shorter).dom().contains(name));
                    let i = choose|i: int|
                        0 <= i < shorter.len() && (#[trigger] shorter[i]).0@ == name;
                    assert(members[i].0@ == name);
                }
            }
            if exists|i: int| 0 <= i < members.len() && (#[trigger] members[i]).0@ == name {
                let i = choose|i: int| 0 <= i < members.len() && (#[trigger] members[i]).0@ == name;
                if i < top {
                    assert(shorter[i].0@ == name);
                    assert(body_members_view(shorter).dom().contains(name));
                }
            }
        }
        assert forall|i: int|
            #![trigger members[i]]
            0 <= i < members.len() && (forall|j: int|
                i < j < members.len() ==> (#[trigger] members[j]).0@ != members[i].0@) implies body_members_view(
        members)[members[i].0@] == members[i].1.view() by {
            if i < top {
                assert(members[top].0@ != members[i].0@);
                assert(shorter[i] == members[i]);
                assert forall|j: int| i < j < shorter.len() implies (#[trigger] shorter[j]).0@
                    != shorter[i].0@ by {
                    assert(members[j].0@ != members[i].0@);
                }
            }
        }
    }
}

proof fn lemma_body_items_view(items: Seq<Body>)
    ensures
        body_items_view(items).len() == items.len(),
        forall|i: int|
            0 <= i < items.len() ==> #[trigger] body_items_view(items)[i] == items[i].view(),
    decreases items.len(),
{
    if items.len() > 0 {
        lemma_body_items_view(items.drop_last());
        assert forall|i: int| 0 <= i < items.len() implies #[trigger] body_items_view(items)[i]
            == items[i].view() by {
            if i < items.len() - 1 {
                assert(body_items_view(items)[i] == body_items_view(items.drop_last())[i]);
            }
        }
    }
}

/// The model of a body is the body: a count in decimal, a text itself, the items of a list one by
/// one, and of an object every name with the last value that it comes with.
pub proof fn a_body_is_modelled_as_it_is(
    n: u64,
    text: String,
    items: Vec<Body>,
    members: Vec<(String, Body)>,
)
    ensures
        Body::Count(n).view() == JsonView::Number(decimal(n as nat)),
        Body::Text(text).view() == JsonView::Text(text@),
        Body::List(items).view() matches JsonView::Array(views) && views.len() == items@.len()
            && forall|i: int| 0 <= i < items@.len() ==> #[trigger] views[i] == items@[i].view(),
        Body::Object(members).view() matches JsonView::Object(views) && (forall|name: Seq<char>|
            #[trigger] views.dom().contains(name) <==> exists|i: int|
                0 <= i < members@.len() && (#[trigger] members@[i]).0@ == name) && (forall|i: int|
            #![trigger members@[i]]
            0 <= i < members@.len() && (forall|j: int|
                i < j < members@.len() ==> (#[trigger] members@[j]).0@ != members@[i].0@)
                ==> views[members@[i].0@] == members@[i].1.view()),
{
    lemma_body_items_view(items@);
    lemma_body_members_view(members@);
}

/// Only an object has members; a member is a text, or is true, only where its value is.
pub proof fn members_are_looked_up_in_objects(
    value: JsonView,
    members: Map<Seq<char>, JsonView>,
    name: Seq<char>,
    text: Seq<char>,
)
    ensures
        member(JsonView::Object(members), name) == if members.dom().contains(name) {
            Some(members[name])
        } else {
            None
        },
        !(value is Object) ==> member(value, name) is None,
        text_value(value) == Some(text) <==> value == JsonView::Text(text),
        member_text(value, name) == Some(text) <==> value is Object && value->Object_0.dom().contains(
            name,
        ) && value->Object_0[name] == JsonView::Text(text),
        member_is_true(value, name) <==> value is Object && value->Object_0.dom().contains(name)
            && value->Object_0[name] == JsonView::Bool(true),
{
}

/// Bytes hold a document exactly where they can be read.
pub proof fn a_document_is_what_is_read(bytes: Seq<u8>, value: JsonView)
    ensures
        json_document(bytes) == Some(value) <==> json_reading(bytes) == Ok::<JsonView, Seq<char>>(
            value,
        ),
{
}

} // verus!
