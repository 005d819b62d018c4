//! What the answers of the entity graph service hold.
//!
//! The service answers in JSON. The text is parsed by `serde_json`; which
//! members an answer must have, and what is taken from them, is decided here.

use crate::api_connector::{bundle_view, next_depth, AdjacencyBundle, BundleView};
use crate::text::{text_entries, text_pairs, texts};
use serde_json::Value;
use vstd::prelude::*;

verus! {

/// `serde_json::Value`, of which nothing is known but what the functions
/// below state.
#[verifier::external_type_specification]
#[verifier::external_body]
pub struct ExJsonValue(serde_json::Value);

/// `serde_json::Error`, which is passed through unread.
#[verifier::external_type_specification]
#[verifier::external_body]
pub struct ExJsonError(serde_json::Error);

/// A JSON value, as a mathematical value. The value of a number is left out.
pub ghost enum JsonView {
    /// `null`.
    Null,
    /// `true` or `false`.
    Bool(bool),
    /// A number.
    Number,
    /// A string.
    Text(Seq<char>),
    /// An array.
    List(Seq<JsonView>),
    /// An object: its members in the order in which the parser hands them
    /// out, each with its key.
    Object(Seq<(Seq<char>, JsonView)>),
}

/// What a parsed JSON value holds.
pub uninterp spec fn json_shape(value: Value) -> JsonView;

/// The JSON value that a text stands for, if it is JSON.
pub uninterp spec fn parsed_json(text: Seq<char>) -> Option<JsonView>;

/// What each member of a list of members holds, with its key.
pub open spec fn member_shapes(members: Seq<(String, Value)>) -> Seq<(Seq<char>, JsonView)> {
    Seq::new(members.len(), |i: int| (members[i].0@, json_shape(members[i].1)))
}

/// What each item of a list of values holds.
pub open spec fn item_shapes(items: Seq<Value>) -> Seq<JsonView> {
    Seq::new(items.len(), |i: int| json_shape(items[i]))
}

/// `serde_json::from_str` to a `Value`: whether a text is JSON, and the value
/// it then stands for, depend on the text alone.
#[verifier::external_body]
fn json_parse(text: &str) -> (parsed: Result<Value, serde_json::Error>)
    ensures
        match parsed {
            Ok(value) => parsed_json(text@) == Some(json_shape(value)),
            Err(_) => parsed_json(text@) is None,
        },
{
    serde_json::from_str(text)
}

/// `Value::as_object`, with the members copied out: the members of an object
/// with their keys, or nothing for a value that is no object.
#[verifier::external_body]
fn json_members(value: &Value) -> (members: Option<Vec<(String, Value)>>)
    ensures
        match members {
            Some(entries) => json_shape(*value) == JsonView::Object(member_shapes(entries@)),
            None => !(json_shape(*value) is Object),
        },
{
    value.as_object().map(|map| map.iter().map(|(key, member)| (key.clone(), member.clone())).collect())
}

/// `Value::as_array`, with the items copied out: the items of an array, or
/// nothing for a value that is no array.
#[verifier::external_body]
fn json_items(value: &Value) -> (items: Option<Vec<Value>>)
    ensures
        match items {
            Some(list) => json_shape(*value) == JsonView::List(item_shapes(list@)),
            None => !(json_shape(*value) is List),
        },
{
    value.as_array().cloned()
}

/// `Value::as_str`, with the text copied out: the text of a string, or
/// nothing for a value that is no string.
#[verifier::external_body]
fn json_text(value: &Value) -> (text: Option<String>)
    ensures
        match text {
            Some(string) => json_shape(*value) == JsonView::Text(string@),
            None => !(json_shape(*value) is Text),
        },
{
    value.as_str().map(|string| string.to_owned())
}

/// The place of the first member with the given key, or the number of
/// members if none has it.
pub open spec fn member_place(members: Seq<(Seq<char>, JsonView)>, key: Seq<char>) -> int
    decreases members.len(),
{
    if members.len() == 0 {
        0
    } else if members[0].0 == key {
        0
    } else {
        1 + member_place(members.drop_first(), key)
    }
}

/// The first member with the given key.
pub open spec fn member(members: Seq<(Seq<char>, JsonView)>, key: Seq<char>) -> Option<JsonView> {
    let place = member_place(members, key);
    if place < members.len() {
        Some(members[place].1)
    } else {
        None
    }
}

/// The texts of a list of strings; nothing if an item is no string.
pub open spec fn text_items(items: Seq<JsonView>) -> Option<Seq<Seq<char>>> {
    if forall|i: int| 0 <= i < items.len() ==> #[trigger] items[i] is Text {
        Some(Seq::new(items.len(), |i: int| items[i]->Text_0))
    } else {
        None
    }
}

/// The members of an object of strings, each with its key; nothing for any
/// other value.
pub open spec fn text_table(json: JsonView) -> Option<Seq<(Seq<char>, Seq<char>)>> {
    match json {
        JsonView::Object(members) => {
            if forall|i: int| 0 <= i < members.len() ==> (#[trigger] members[i]).1 is Text {
                Some(Seq::new(members.len(), |i: int| (members[i].0, members[i].1->Text_0)))
            } else {
                None
            }
        },
        _ => None,
    }
}

/// The texts of an array of strings; nothing for any other value.
pub open spec fn text_list(json: JsonView) -> Option<Seq<Seq<char>>> {
    match json {
        JsonView::List(items) => text_items(items),
        _ => None,
    }
}

/// The members of an object of arrays of strings, each with its key; nothing
/// for any other value.
pub open spec fn list_table(json: JsonView) -> Option<Seq<(Seq<char>, Seq<Seq<char>>)>> {
    match json {
        JsonView::Object(members) => {
            if forall|i: int|
                0 <= i < members.len() ==> text_list((#[trigger] members[i]).1) is Some {
                Some(
                    Seq::new(members.len(), |i: int| (members[i].0, text_list(members[i].1)->0)),
                )
            } else {
                None
            }
        },
        _ => None,
    }
}

/// The member of an object with the given key; nothing for a value that is
/// no object.
pub open spec fn field(json: JsonView, key: Seq<char>) -> Option<JsonView> {
    match json {
        JsonView::Object(members) => member(members, key),
        _ => None,
    }
}

/// The table of strings under the given key of an object.
pub open spec fn text_table_at(json: JsonView, key: Seq<char>) -> Option<
    Seq<(Seq<char>, Seq<char>)>,
> {
    match field(json, key) {
        Some(inner) => text_table(inner),
        None => None,
    }
}

/// The table of lists of strings under the given key of an object.
pub open spec fn list_table_at(json: JsonView, key: Seq<char>) -> Option<
    Seq<(Seq<char>, Seq<Seq<char>>)>,
> {
    match field(json, key) {
        Some(inner) => list_table(inner),
        None => None,
    }
}

/// The bundle that an answer holds: an object whose members
/// `adjacent_entities`, `q_labels`, `q_descriptions`, `p_labels` and
/// `p_descriptions` are objects, the first of arrays of strings, the others of
/// strings. Any other value holds no bundle.
pub open spec fn bundle_of(json: JsonView) -> Option<BundleView> {
    let adjacent_entities = list_table_at(json, "adjacent_entities"@);
    let q_labels = text_table_at(json, "q_labels"@);
    let q_descriptions = text_table_at(json, "q_descriptions"@);
    let p_labels = text_table_at(json, "p_labels"@);
    let p_descriptions = text_table_at(json, "p_descriptions"@);
    if adjacent_entities is Some && q_labels is Some && q_descriptions is Some && p_labels is Some
        && p_descriptions is Some {
        Some(
            BundleView {
                q_labels: q_labels->0,
                q_descriptions: q_descriptions->0,
                p_labels: p_labels->0,
                p_descriptions: p_descriptions->0,
                adjacent_entities: adjacent_entities->0,
            },
        )
    } else {
        None
    }
}

/// The first member with a key stands where a member with that key stands
/// that no such member precedes, and past the end where none has the key.
pub proof fn lemma_member_place(members: Seq<(Seq<char>, JsonView)>, key: Seq<char>, place: int)
    requires
        0 <= place <= members.len(),
        forall|i: int| 0 <= i < place ==> members[i].0 != key,
        place < members.len() ==> members[place].0 == key,
    ensures
        member_place(members, key) == place,
    decreases members.len(),
{
    if members.len() > 0 && place > 0 {
        let rest = members.drop_first();
        lemma_member_place(rest, key, place - 1);
    }
}

/// The place of the first member with the given key.
fn find_member(members: &Vec<(String, Value)>, key: &str) -> (place: Option<usize>)
    ensures
        match place {
            Some(i) => i < members.len() && member(member_shapes(members@), key@) == Some(
                json_shape(members[i as int].1),
            ),
            None => member(member_shapes(members@), key@) is None,
        },
{
    let wanted = key.to_owned();
    let ghost shapes = member_shapes(members@);
    let mut i: usize = 0;
    while i < members.len()
        invariant
            i <= members.len(),
            wanted@ == key@,
            shapes == member_shapes(members@),
            forall|j: int| 0 <= j < i ==> shapes[j].0 != key@,
        decreases members.len() - i,
    {
        if members[i].0 == wanted {
            proof {
                lemma_member_place(shapes, key@, i as int);
            }
            return Some(i);
        }
        i = i + 1;
    }
    proof {
        lemma_member_place(shapes, key@, members.len() as int);
    }
    None
}

/// The texts of an array of strings.
fn read_text_list(value: &Value) -> (list: Option<Vec<String>>)
    ensures
        match list {
            Some(strings) => text_list(json_shape(*value)) == Some(texts(strings@)),
            None => text_list(json_shape(*value)) is None,
        },
{
    let items = match json_items(value) {
        Some(items) => items,
        None => {
            return None;
        },
    };
    let ghost shapes = item_shapes(items@);
    let mut strings: Vec<String> = Vec::new();
    let mut i: usize = 0;
    while i < items.len()
        invariant
            i <= items.len(),
            shapes == item_shapes(items@),
            json_shape(*value) == JsonView::List(shapes),
            strings.len() == i,
            forall|j: int| 0 <= j < i ==> shapes[j] == JsonView::Text(strings[j]@),
        decreases items.len() - i,
    {
        match json_text(&items[i]) {
            Some(string) => {
                strings.push(string);
            },
            None => {
                assert(!(shapes[i as int] is Text));
                return None;
            },
        }
        i = i + 1;
    }
    Some(strings)
}

/// The members of an object of strings.
fn read_text_table(value: &Value) -> (table: Option<Vec<(String, String)>>)
    ensures
        match table {
            Some(pairs) => text_table(json_shape(*value)) == Some(text_pairs(pairs@)),
            None => text_table(json_shape(*value)) is None,
        },
{
    let members = match json_members(value) {
        Some(members) => members,
        None => {
            return None;
        },
    };
    let ghost shapes = member_shapes(members@);
    let mut pairs: Vec<(String, String)> = Vec::new();
    let mut i: usize = 0;
    while i < members.len()
        invariant
            i <= members.len(),
            shapes == member_shapes(members@),
            json_shape(*value) == JsonView::Object(shapes),
            pairs.len() == i,
            forall|j: int|
                0 <= j < i ==> (#[trigger] shapes[j]).1 == JsonView::Text(pairs[j].1@)
                    && shapes[j].0 == pairs[j].0@,
        decreases members.len() - i,
    {
        match json_text(&members[i].1) {
            Some(string) => {
                pairs.push((members[i].0.clone(), string));
            },
            None => {
                assert(!(shapes[i as int].1 is Text));
                return None;
            },
        }
        i = i + 1;
    }
    Some(pairs)
}

/// The members of an object of arrays of strings.
fn read_list_table(value: &Value) -> (table: Option<Vec<(String, Vec<String>)>>)
    ensures
        match table {
            Some(entries) => list_table(json_shape(*value)) == Some(text_entries(entries@)),
            None => list_table(json_shape(*value)) is None,
        },
{
    let members = match json_members(value) {
        Some(members) => members,
        None => {
            return None;
        },
    };
    let ghost shapes = member_shapes(members@);
    let mut entries: Vec<(String, Vec<String>)> = Vec::new();
    let mut i: usize = 0;
    while i < members.len()
        invariant
            i <= members.len(),
            shapes == member_shapes(members@),
            json_shape(*value) == JsonView::Object(shapes),
            entries.len() == i,
            forall|j: int|
                0 <= j < i ==> text_list((#[trigger] shapes[j]).1) == Some(texts(entries[j].1@))
                    && shapes[j].0 == entries[j].0@,
        decreases members.len() - i,
    {
        match read_text_list(&members[i].1) {
            Some(strings) => {
                entries.push((members[i].0.clone(), strings));
            },
            None => {
                assert(text_list(shapes[i as int].1) is None);
                return None;
            },
        }
        i = i + 1;
    }
    Some(entries)
}

/// The table of strings under the given key of an object.
fn read_text_table_at(members: &Vec<(String, Value)>, key: &str) -> (table: Option<
    Vec<(String, String)>,
>)
    ensures
        match table {
            Some(pairs) => text_table_at(JsonView::Object(member_shapes(members@)), key@) == Some(
                text_pairs(pairs@),
            ),
            None => text_table_at(JsonView::Object(member_shapes(members@)), key@) is None,
        },
{
    match find_member(members, key) {
        Some(place) => read_text_table(&members[place].1),
        None => None,
    }
}

/// Why an answer of a remote service is of no use.
#[derive(Clone, Copy, Debug, PartialEq, Eq, Structural)]
pub enum NetworkError {
    /// The service could not be reached.
    Transport,
    /// The answer is not what the service is to send.
    Parse,
}

/// The bundle that the text of an answer holds.
pub open spec fn bundle_in(text: Seq<char>) -> Option<BundleView> {
    match parsed_json(text) {
        Some(json) => bundle_of(json),
        None => None,
    }
}

/// Reads the bundle that an answer of the entity graph service holds.
///
/// Fails with `Parse` exactly where the answer is no JSON or holds no
/// bundle.
pub fn parse_bundle(response: &str) -> (result: Result<AdjacencyBundle, NetworkError>)
    ensures
        match result {
            Ok(bundle) => bundle_in(response@) == Some(bundle_view(bundle)),
            Err(error) => bundle_in(response@) is None && error == NetworkError::Parse,
        },
{
    let json = match json_parse(response) {
        Ok(json) => json,
        Err(_) => {
            return Err(NetworkError::Parse);
        },
    };
    let members = match json_members(&json) {
        Some(members) => members,
        None => {
            return Err(NetworkError::Parse);
        },
    };
    let adjacent_entities = match find_member(&members, "adjacent_entities") {
        Some(place) => read_list_table(&members[place].1),
        None => None,
    };
    let q_labels = read_text_table_at(&members, "q_labels");
    let q_descriptions = read_text_table_at(&members, "q_descriptions");
    let p_labels = read_text_table_at(&members, "p_labels");
    let p_descriptions = read_text_table_at(&members, "p_descriptions");
    match (adjacent_entities, q_labels, q_descriptions, p_labels, p_descriptions) {
        (
            Some(adjacent_entities),
            Some(q_labels),
            Some(q_descriptions),
            Some(p_labels),
            Some(p_descriptions),
        ) => Ok(
            AdjacencyBundle { q_labels, q_descriptions, p_labels, p_descriptions, adjacent_entities },
        ),
        _ => Err(NetworkError::Parse),
    }
}

/// The label and the description that an answer holds: the strings under
/// `label` and `description` of an object. An answer that is no JSON, or that
/// lacks one of the two, holds two empty strings.
pub open spec fn label_description_in(text: Seq<char>) -> (Seq<char>, Seq<char>) {
    match parsed_json(text) {
        Some(json) => match (field(json, "label"@), field(json, "description"@)) {
            (Some(JsonView::Text(label)), Some(JsonView::Text(description))) => (
                label,
                description,
            ),
            _ => (Seq::empty(), Seq::empty()),
        },
        None => (Seq::empty(), Seq::empty()),
    }
}

/// Reads the label and the description of an entity from an answer of the
/// entity graph service. An answer of no use gives two empty strings.
pub fn parse_label_description(response: &str) -> (result: (String, String))
    ensures
        (result.0@, result.1@) == label_description_in(response@),
{
    let json = match json_parse(response) {
        Ok(json) => json,
        Err(_) => {
            return (String::new(), String::new());
        },
    };
    let members = match json_members(&json) {
        Some(members) => members,
        None => {
            return (String::new(), String::new());
        },
    };
    let label = match find_member(&members, "label") {
        Some(place) => json_text(&members[place].1),
        None => None,
    };
    let description = match find_member(&members, "description") {
        Some(place) => json_text(&members[place].1),
        None => None,
    };
    match (label, description) {
        (Some(label), Some(description)) => (label, description),
        _ => (String::new(), String::new()),
    }
}

/// What follows an attempt to fetch a bundle.
pub enum FetchStep {
    /// The bundle was fetched.
    Fetched(AdjacencyBundle),
    /// The fetch is to be tried again at this depth.
    Retry(u8),
    /// Every depth has failed.
    Failed,
}

/// Decides what follows an attempt to fetch a bundle at `depth`. `response`
/// is the text of the answer, or nothing if the service could not be reached.
///
/// An answer that holds a bundle ends the fetch. After any other attempt the
/// fetch is tried again one level less deep, and has failed once depth 1 has
/// been tried.
pub fn fetch_step(depth: u8, response: Option<&str>) -> (step: FetchStep)
    ensures
        match step {
            FetchStep::Fetched(bundle) => response matches Some(text) && bundle_in(text@) == Some(
                bundle_view(bundle),
            ),
            FetchStep::Retry(next) => {
                &&& response matches Some(text) ==> bundle_in(text@) is None
                &&& depth > 1
                &&& next == depth - 1
            },
            FetchStep::Failed => {
                &&& response matches Some(text) ==> bundle_in(text@) is None
                &&& depth <= 1
            },
        },
{
    if let Some(text) = response {
        if let Ok(bundle) = parse_bundle(text) {
            return FetchStep::Fetched(bundle);
        }
    }
    match next_depth(depth) {
        Some(next) => FetchStep::Retry(next),
        None => FetchStep::Failed,
    }
}

} // verus!
