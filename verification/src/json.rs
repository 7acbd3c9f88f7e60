//! JSON values by their shape.

use vstd::prelude::*;
use vstd::string::*;

verus! {

/// A JSON value. Scalars other than texts and `null` are carried as they are.
#[derive(Debug)]
pub enum JsonTree<T> {
    Null,
    Text(String),
    Array(Vec<JsonTree<T>>),
    Object(Vec<(String, JsonTree<T>)>),
    Other(T),
}

/// What a JSON value says. The fields of an object stand in their order.
pub ghost enum JsonShape<T> {
    Null,
    Text(Seq<char>),
    Array(Seq<JsonShape<T>>),
    Object(Seq<(Seq<char>, JsonShape<T>)>),
    Other(T),
}

/// The shape of a value.
pub open spec fn shape<T>(tree: JsonTree<T>) -> JsonShape<T>
    decreases tree,
{
    match tree {
        JsonTree::Null => JsonShape::Null,
        JsonTree::Text(text) => JsonShape::Text(text@),
        JsonTree::Array(items) => JsonShape::Array(
            Seq::new(
                items@.len(),
                |i: int|
                    if 0 <= i < items@.len() {
                        shape(items@[i])
                    } else {
                        JsonShape::Null
                    },
            ),
        ),
        JsonTree::Object(fields) => JsonShape::Object(
            Seq::new(
                fields@.len(),
                |i: int|
                    if 0 <= i < fields@.len() {
                        (fields@[i].0@, shape(fields@[i].1))
                    } else {
                        (Seq::empty(), JsonShape::Null)
                    },
            ),
        ),
        JsonTree::Other(value) => JsonShape::Other(value),
    }
}

/// A JSON value of `serde_json`, opaque to the proofs.
#[verifier::external_type_specification]
#[verifier::external_body]
pub struct ExJsonValue(serde_json::Value);

/// What `serde_json::from_str` reads in a text, if it is JSON. Numbers and truth
/// values are leaves, as `serde_json` spells them.
pub uninterp spec fn json_of(text: Seq<char>) -> Option<JsonShape<String>>;

/// A `serde_json::Value` as a tree, variant by variant. Nothing is claimed of
/// the result: [`parse_json`] says what a parsed text gives.
#[verifier::external_body]
fn json_tree(value: serde_json::Value) -> (tree: JsonTree<String>) {
    match value {
        serde_json::Value::Null => JsonTree::Null,
        serde_json::Value::Bool(flag) => JsonTree::Other(flag.to_string()),
        serde_json::Value::Number(number) => JsonTree::Other(number.to_string()),
        serde_json::Value::String(text) => JsonTree::Text(text),
        serde_json::Value::Array(items) => {
            JsonTree::Array(items.into_iter().map(json_tree).collect())
        },
        serde_json::Value::Object(fields) => {
            JsonTree::Object(fields.into_iter().map(|field| (field.0, json_tree(field.1))).collect())
        },
    }
}

/// `serde_json::from_str` into a `serde_json::Value`: whether the text is JSON,
/// and what it says, depends on the text alone. Nothing is claimed of which
/// texts are JSON.
#[verifier::external_body]
pub(crate) fn parse_json(text: &str) -> (tree: Option<JsonTree<String>>)
    ensures
        tree is Some <==> json_of(text@) is Some,
        tree is Some ==> shape(tree->Some_0) == json_of(text@)->Some_0,
{
    serde_json::from_str::<serde_json::Value>(text).ok().map(json_tree)
}

/// A number or a truth value.
#[derive(Debug, Clone, Copy, PartialEq, Eq, Structural)]
pub enum JsonLeaf {
    Number(u64),
    Flag(bool),
}

/// A value of an application.
pub type Json = JsonTree<JsonLeaf>;

/// What such a value says.
pub type Says = JsonShape<JsonLeaf>;

/// What `serde_json::to_string` writes for a value.
pub uninterp spec fn json_text_of(says: JsonShape<JsonLeaf>) -> Seq<char>;

/// A tree as a `serde_json::Value`, variant by variant. Nothing is claimed of
/// the result: [`write_json`] says what is written of a tree.
#[verifier::external_body]
fn json_value(json: &Json) -> (value: serde_json::Value) {
    match json {
        JsonTree::Null => serde_json::Value::Null,
        JsonTree::Text(text) => serde_json::Value::String(text.clone()),
        JsonTree::Array(items) => serde_json::Value::Array(items.iter().map(json_value).collect()),
        JsonTree::Object(fields) => serde_json::Value::Object(
            fields.iter().map(|field| (field.0.clone(), json_value(&field.1))).collect(),
        ),
        JsonTree::Other(JsonLeaf::Number(number)) => serde_json::Value::from(*number),
        JsonTree::Other(JsonLeaf::Flag(flag)) => serde_json::Value::Bool(*flag),
    }
}

/// `serde_json::to_string` on a `serde_json::Value`: the text depends on what
/// the value says alone. Such a value can always be written; were it refused,
/// the text of an empty object would stand in its place.
#[verifier::external_body]
pub(crate) fn write_json(json: &Json) -> (text: String)
    ensures
        text@ == json_text_of(shape(*json)),
{
    serde_json::to_string(&json_value(json)).unwrap_or_else(|_| "{}".to_string())
}

pub open spec fn says_text(text: Seq<char>) -> Says {
    JsonShape::Text(text)
}

/// A text, or `null` in its place.
pub open spec fn says_optional(text: Option<Seq<char>>) -> Says {
    match text {
        Some(text) => JsonShape::Text(text),
        None => JsonShape::Null,
    }
}

pub open spec fn says_number(n: u64) -> Says {
    JsonShape::Other(JsonLeaf::Number(n))
}

pub open spec fn says_flag(flag: bool) -> Says {
    JsonShape::Other(JsonLeaf::Flag(flag))
}

/// What fields say.
pub open spec fn says_fields(fields: Seq<(String, Json)>) -> Seq<(Seq<char>, Says)> {
    fields.map_values(|field: (String, Json)| (field.0@, shape(field.1)))
}

/// What items say.
pub open spec fn says_items(items: Seq<Json>) -> Seq<Says> {
    items.map_values(|item: Json| shape(item))
}

pub fn json_text(text: &str) -> (json: Json)
    ensures
        shape(json) == says_text(text@),
{
    JsonTree::Text(text.to_owned())
}

pub fn json_optional(text: &Option<String>) -> (json: Json)
    ensures
        shape(json) == says_optional(
            match *text {
                Some(text) => Some(text@),
                None => None,
            },
        ),
{
    match text {
        Some(text) => json_text(text.as_str()),
        None => JsonTree::Null,
    }
}

pub fn json_number(n: u64) -> (json: Json)
    ensures
        shape(json) == says_number(n),
{
    JsonTree::Other(JsonLeaf::Number(n))
}

pub fn json_flag(flag: bool) -> (json: Json)
    ensures
        shape(json) == says_flag(flag),
{
    JsonTree::Other(JsonLeaf::Flag(flag))
}

/// Adds an item at the end.
pub fn add_item(items: &mut Vec<Json>, item: Json)
    ensures
        says_items(final(items)@) == says_items(old(items)@).push(shape(item)),
{
    items.push(item);
    assert(says_items(items@) =~= says_items(old(items)@).push(shape(item)));
}

pub fn json_array(items: Vec<Json>) -> (json: Json)
    ensures
        shape(json) == JsonShape::Array(says_items(items@)),
{
    let json = JsonTree::Array(items);
    assert(shape(json)->Array_0 =~= says_items(items@));
    json
}

/// Fields in the order of their names with one more set: it stands behind those
/// whose names come before its own, and takes the place of one of the same name.
pub open spec fn ordered_with(
    fields: Seq<(Seq<char>, Says)>,
    name: Seq<char>,
    says: Says,
) -> Seq<(Seq<char>, Says)>
    decreases fields.len(),
{
    if fields.len() == 0 {
        seq![(name, says)]
    } else if crate::text::comes_before(fields.first().0, name) {
        seq![fields.first()] + ordered_with(fields.skip(1), name, says)
    } else if fields.first().0 == name {
        fields.update(0, (name, says))
    } else {
        fields.insert(0, (name, says))
    }
}

proof fn lemma_ordered_with(
    fields: Seq<(Seq<char>, Says)>,
    name: Seq<char>,
    says: Says,
    at: int,
)
    requires
        0 <= at <= fields.len(),
        forall|j: int|
            0 <= j < at ==> crate::text::comes_before((#[trigger] fields[j]).0, name),
        at < fields.len() ==> !crate::text::comes_before(fields[at].0, name),
    ensures
        ordered_with(fields, name, says) == (if at < fields.len() && fields[at].0 == name {
            fields.update(at, (name, says))
        } else {
            fields.insert(at, (name, says))
        }),
    decreases at,
{
    if at > 0 {
        let rest = fields.skip(1);
        assert(crate::text::comes_before(fields[0].0, name));
        assert forall|j: int| 0 <= j < at - 1 implies crate::text::comes_before(
            (#[trigger] rest[j]).0,
            name,
        ) by {
            assert(rest[j] == fields[j + 1]);
        }
        if at < fields.len() {
            assert(rest[at - 1] == fields[at]);
        }
        lemma_ordered_with(rest, name, says, at - 1);
        if at < fields.len() && fields[at].0 == name {
            assert(seq![fields.first()] + rest.update(at - 1, (name, says)) =~= fields.update(
                at,
                (name, says),
            ));
        } else {
            assert(seq![fields.first()] + rest.insert(at - 1, (name, says)) =~= fields.insert(
                at,
                (name, says),
            ));
        }
    } else if fields.len() == 0 {
        assert(fields.insert(0, (name, says)) =~= seq![(name, says)]);
    }
}

/// An object under construction.
pub struct JsonObject {
    fields: Vec<(String, Json)>,
}

impl JsonObject {
    /// What the fields so far say.
    pub closed spec fn view(&self) -> Seq<(Seq<char>, Says)> {
        says_fields(self.fields@)
    }

    pub fn new() -> (object: Self)
        ensures
            object@ == Seq::<(Seq<char>, Says)>::empty(),
    {
        let object = JsonObject { fields: Vec::new() };
        assert(object@ =~= Seq::<(Seq<char>, Says)>::empty());
        object
    }

    /// The object with one more field at its end.
    pub fn with(self, name: &str, value: Json) -> (object: Self)
        ensures
            object@ == self@.push((name@, shape(value))),
    {
        let mut fields = self.fields;
        fields.push((name.to_owned(), value));
        let object = JsonObject { fields };
        assert(object@ =~= self@.push((name@, shape(value))));
        object
    }

    /// The object with a field set, where its fields stand in the order of their
    /// names.
    pub fn with_in_order(self, name: &str, value: Json) -> (object: Self)
        ensures
            object@ == ordered_with(self@, name@, shape(value)),
    {
        let mut fields = self.fields;
        let ghost before = says_fields(fields@);
        let ghost entry = (name@, shape(value));
        let mut at: usize = 0;
        while at < fields.len() && crate::text::is_before(fields[at].0.as_str(), name)
            invariant
                at <= fields@.len(),
                before == says_fields(fields@),
                forall|j: int|
                    0 <= j < at ==> crate::text::comes_before((#[trigger] before[j]).0, name@),
            decreases fields@.len() - at,
        {
            assert(before[at as int].0 == fields@[at as int].0@);
            at = at + 1;
        }
        proof {
            if at < fields@.len() {
                assert(before[at as int].0 == fields@[at as int].0@);
            }
            lemma_ordered_with(before, name@, entry.1, at as int);
        }
        if at < fields.len() && crate::text::same_text(fields[at].0.as_str(), name) {
            fields.set(at, (name.to_owned(), value));
            assert(says_fields(fields@) =~= before.update(at as int, entry));
        } else {
            fields.insert(at, (name.to_owned(), value));
            assert(says_fields(fields@) =~= before.insert(at as int, entry));
        }
        JsonObject { fields }
    }

    pub fn finish(self) -> (json: Json)
        ensures
            shape(json) == JsonShape::Object(self@),
    {
        let json = JsonTree::Object(self.fields);
        assert(shape(json)->Object_0 =~= self@);
        json
    }
}

} // verus!
