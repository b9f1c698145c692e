//! JSON values, and the passage between them and bytes or text, which `serde_json` makes.
use vstd::prelude::*;

use crate::text::same_text;

verus! {

/// `serde_json`'s own tree of a JSON document.
#[verifier::external_type_specification]
#[verifier::external_body]
pub struct ExValue(serde_json::Value);

/// A JSON number as `serde_json` keeps it.
#[verifier::external_type_specification]
#[verifier::external_body]
pub struct ExNumber(serde_json::Number);

/// What `serde_json` reports of bytes that are no JSON document.
#[verifier::external_type_specification]
#[verifier::external_body]
pub struct ExError(serde_json::Error);

/// `Clone` of `serde_json::Number` copies the number.
pub assume_specification[ <serde_json::Number as Clone>::clone ](
    n: &serde_json::Number,
) -> (copy: serde_json::Number)
    ensures
        copy == *n,
;

/// A JSON value as mathematics: an object is a map from its keys.
pub enum JsonView {
    Null,
    Bool(bool),
    Number(serde_json::Number),
    Text(Seq<char>),
    Array(Seq<JsonView>),
    Object(Map<Seq<char>, JsonView>),
}

/// A JSON value. Of two fields of an object with the same key the later one counts.
#[derive(Debug, PartialEq)]
pub enum Json {
    Null,
    Bool(bool),
    Number(serde_json::Number),
    Text(String),
    Array(Vec<Json>),
    Object(Vec<(String, Json)>),
}

/// One level of a `serde_json` tree, its branches as they are.
pub enum Node {
    Null,
    Bool(bool),
    Number(serde_json::Number),
    Text(String),
    Array(Vec<serde_json::Value>),
    Object(Vec<(String, serde_json::Value)>),
}

/// The map that a row of pairs makes, a later pair replacing an earlier one of its key.
pub open spec fn pairs_map(pairs: Seq<(Seq<char>, JsonView)>) -> Map<Seq<char>, JsonView>
    decreases pairs.len(),
{
    if pairs.len() == 0 {
        Map::empty()
    } else {
        pairs_map(pairs.drop_last()).insert(pairs.last().0, pairs.last().1)
    }
}

impl Json {
    /// The value that this stands for.
    pub open spec fn view(&self) -> JsonView
        decreases self,
    {
        match self {
            Json::Null => JsonView::Null,
            Json::Bool(b) => JsonView::Bool(*b),
            Json::Number(n) => JsonView::Number(*n),
            Json::Text(s) => JsonView::Text(s@),
            Json::Array(items) => JsonView::Array(items_view(items@)),
            Json::Object(fields) => JsonView::Object(pairs_map(fields_view(fields@))),
        }
    }
}

/// The values that a row of items stands for.
pub open spec fn items_view(items: Seq<Json>) -> Seq<JsonView>
    decreases items,
{
    Seq::new(
        items.len(),
        |i: int|
            if 0 <= i < items.len() {
                items[i].view()
            } else {
                JsonView::Null
            },
    )
}

/// The keys and values that a row of fields stands for.
pub open spec fn fields_view(fields: Seq<(String, Json)>) -> Seq<(Seq<char>, JsonView)>
    decreases fields,
{
    Seq::new(
        fields.len(),
        |i: int|
            if 0 <= i < fields.len() {
                (fields[i].0@, fields[i].1.view())
            } else {
                (Seq::empty(), JsonView::Null)
            },
    )
}

/// The value of a document, if there is one.
pub open spec fn document_view(document: Option<Json>) -> Option<JsonView> {
    match document {
        Some(json) => Some(json@),
        None => None,
    }
}

/// What stands under `key`, where the value is an object that has it.
pub open spec fn field(value: JsonView, key: Seq<char>) -> Option<JsonView> {
    match value {
        JsonView::Object(map) => if map.dom().contains(key) {
            Some(map[key])
        } else {
            None
        },
        _ => None,
    }
}

/// The text under `key`, where the value is an object that has text there.
pub open spec fn text_field(value: JsonView, key: Seq<char>) -> Option<Seq<char>> {
    match field(value, key) {
        Some(JsonView::Text(s)) => Some(s),
        _ => None,
    }
}

/// The items under `key`, where the value is an object that has an array there.
pub open spec fn array_field(value: JsonView, key: Seq<char>) -> Option<Seq<JsonView>> {
    match field(value, key) {
        Some(JsonView::Array(items)) => Some(items),
        _ => None,
    }
}

/// The value that a `serde_json` tree holds.
pub uninterp spec fn value_view(value: serde_json::Value) -> JsonView;

/// The value that one level of a tree and its branches hold.
pub open spec fn node_view(node: Node) -> JsonView {
    match node {
        Node::Null => JsonView::Null,
        Node::Bool(b) => JsonView::Bool(b),
        Node::Number(n) => JsonView::Number(n),
        Node::Text(s) => JsonView::Text(s@),
        Node::Array(items) => JsonView::Array(items@.map_values(|v: serde_json::Value| value_view(v))),
        Node::Object(fields) => JsonView::Object(
            pairs_map(fields@.map_values(|f: (String, serde_json::Value)| (f.0@, value_view(f.1)))),
        ),
    }
}

/// Whether no two fields of a level share a key.
pub open spec fn distinct_keys(node: Node) -> bool {
    node matches Node::Object(fields) ==> forall|i: int, j: int|
        0 <= i < j < fields@.len() ==> #[trigger] fields@[i].0@ != #[trigger] fields@[j].0@
}

/// Opens a `serde_json::Value`, whose variants are matched one by one: the level that comes
/// out holds the same value, and as its keys come from a map no two of them are alike.
#[verifier::external_body]
fn open_value(value: serde_json::Value) -> (node: Node)
    ensures
        node_view(node) == value_view(value),
        distinct_keys(node),
{
    match value {
        serde_json::Value::Null => Node::Null,
        serde_json::Value::Bool(b) => Node::Bool(b),
        serde_json::Value::Number(n) => Node::Number(n),
        serde_json::Value::String(s) => Node::Text(s),
        serde_json::Value::Array(items) => Node::Array(items),
        serde_json::Value::Object(fields) => Node::Object(fields.into_iter().collect()),
    }
}

/// Closes one level into a `serde_json::Value`, variant by variant: the tree holds the same
/// value, as collecting pairs with different keys into a `serde_json::Map` keeps them all.
#[verifier::external_body]
fn close_value(node: Node) -> (value: serde_json::Value)
    requires
        distinct_keys(node),
    ensures
        value_view(value) == node_view(node),
{
    match node {
        Node::Null => serde_json::Value::Null,
        Node::Bool(b) => serde_json::Value::Bool(b),
        Node::Number(n) => serde_json::Value::Number(n),
        Node::Text(s) => serde_json::Value::String(s),
        Node::Array(items) => serde_json::Value::Array(items),
        Node::Object(fields) => serde_json::Value::Object(fields.into_iter().collect()),
    }
}

/// The JSON document that `bytes` hold, if they hold one.
pub uninterp spec fn json_document(bytes: Seq<u8>) -> Option<JsonView>;

/// `serde_json::from_slice` reads a whole JSON document into a tree, or reports an error
/// where the bytes are none; which of the two, and which tree, the bytes alone decide.
#[verifier::external_body]
fn read_value(bytes: &[u8]) -> (r: Result<serde_json::Value, serde_json::Error>)
    ensures
        match json_document(bytes@) {
            Some(document) => r matches Ok(value) && value_view(value) == document,
            None => r is Err,
        },
{
    serde_json::from_slice(bytes)
}

/// A JSON value as compact text.
pub uninterp spec fn json_text(value: JsonView) -> Seq<char>;

/// `Display` of `serde_json::Value`: the compact text of the value that the tree holds, with
/// the fields of an object in the order of their keys.
#[verifier::external_body]
fn value_text(value: &serde_json::Value) -> (text: String)
    ensures
        text@ == json_text(value_view(*value)),
{
    value.to_string()
}

/// A whole number as `serde_json` keeps it.
pub uninterp spec fn whole_number(n: u64) -> serde_json::Number;

/// `serde_json::Number::from` a `u64`: the number whose JSON text is `n` in decimal.
#[verifier::external_body]
fn number_from(n: u64) -> (number: serde_json::Number)
    ensures
        number == whole_number(n),
        json_text(JsonView::Number(number)) == crate::number::decimal(n as nat),
{
    serde_json::Number::from(n)
}

/// The keys of a map made of pairs are finitely many.
proof fn lemma_pairs_map_finite(pairs: Seq<(Seq<char>, JsonView)>)
    ensures
        pairs_map(pairs).dom().finite(),
    decreases pairs.len(),
{
    if pairs.len() > 0 {
        lemma_pairs_map_finite(pairs.drop_last());
    }
}

/// What stands in the map under the key of a pair that no later pair replaces.
proof fn lemma_pairs_map_last(pairs: Seq<(Seq<char>, JsonView)>, i: int)
    requires
        0 <= i < pairs.len(),
        forall|j: int| i < j < pairs.len() ==> #[trigger] pairs[j].0 != pairs[i].0,
    ensures
        pairs_map(pairs).dom().contains(pairs[i].0),
        pairs_map(pairs)[pairs[i].0] == pairs[i].1,
    decreases pairs.len(),
{
    if i < pairs.len() - 1 {
        assert(pairs.last().0 != pairs[i].0);
        let fewer = pairs.drop_last();
        assert forall|j: int| i < j < fewer.len() implies #[trigger] fewer[j].0 != fewer[i].0 by {
            assert(pairs[j].0 != pairs[i].0);
        }
        lemma_pairs_map_last(fewer, i);
    }
}

/// The key of every pair is in the map.
proof fn lemma_pairs_map_has(pairs: Seq<(Seq<char>, JsonView)>, i: int)
    requires
        0 <= i < pairs.len(),
    ensures
        pairs_map(pairs).dom().contains(pairs[i].0),
    decreases pairs.len(),
{
    if i < pairs.len() - 1 {
        lemma_pairs_map_has(pairs.drop_last(), i);
    }
}

/// A key that no pair has is not in the map.
proof fn lemma_pairs_map_absent(pairs: Seq<(Seq<char>, JsonView)>, key: Seq<char>)
    requires
        forall|j: int| 0 <= j < pairs.len() ==> #[trigger] pairs[j].0 != key,
    ensures
        !pairs_map(pairs).dom().contains(key),
    decreases pairs.len(),
{
    if pairs.len() > 0 {
        assert(pairs.last().0 != key);
        let fewer = pairs.drop_last();
        assert forall|j: int| 0 <= j < fewer.len() implies #[trigger] fewer[j].0 != key by {
            assert(pairs[j].0 != key);
        }
        lemma_pairs_map_absent(fewer, key);
    }
}

/// The library's value of a `serde_json` tree.
fn from_value(value: serde_json::Value) -> (json: Json)
    ensures
        json@ == value_view(value),
    decreases value_view(value),
{
    let ghost whole = value_view(value);
    match open_value(value) {
        Node::Null => Json::Null,
        Node::Bool(b) => Json::Bool(b),
        Node::Number(n) => Json::Number(n),
        Node::Text(s) => Json::Text(s),
        Node::Array(items) => {
            let ghost branches = items@;
            let ghost views = whole->Array_0;
            let mut out: Vec<Json> = Vec::new();
            for item in it: items
                invariant
                    it.seq() == branches,
                    whole == value_view(value),
                    whole == JsonView::Array(views),
                    views == branches.map_values(|v: serde_json::Value| value_view(v)),
                    out.len() == it.index(),
                    forall|k: int| 0 <= k < out.len() ==> (#[trigger] out@[k])@ == views[k],
            {
                assert(value_view(item) == views[it.index()]);
                assert(decreases_to!(whole => whole->Array_0));
                assert(decreases_to!(views => views[it.index()]));
                out.push(from_value(item));
            }
            assert(items_view(out@) =~= views);
            let json = Json::Array(out);
            json
        },
        Node::Object(fields) => {
            let ghost branches = fields@;
            let ghost pairs = branches.map_values(
                |f: (String, serde_json::Value)| (f.0@, value_view(f.1)),
            );
            let ghost map = whole->Object_0;
            let mut out: Vec<(String, Json)> = Vec::new();
            for field in it: fields
                invariant
                    it.seq() == branches,
                    whole == value_view(value),
                    whole == JsonView::Object(map),
                    map == pairs_map(pairs),
                    pairs == branches.map_values(
                        |f: (String, serde_json::Value)| (f.0@, value_view(f.1)),
                    ),
                    forall|i: int, j: int|
                        0 <= i < j < branches.len() ==> #[trigger] branches[i].0@
                            != #[trigger] branches[j].0@,
                    out.len() == it.index(),
                    forall|k: int|
                        0 <= k < out.len() ==> #[trigger] out@[k].0@ == pairs[k].0 && out@[k].1@
                            == pairs[k].1,
            {
                let ghost i = it.index();
                proof {
                    lemma_pairs_map_finite(pairs);
                    assert forall|j: int| i < j < pairs.len() implies #[trigger] pairs[j].0
                        != pairs[i].0 by {
                        assert(branches[i].0@ != branches[j].0@);
                    }
                    lemma_pairs_map_last(pairs, i);
                    assert(value_view(field.1) == map[pairs[i].0]);
                    assert(decreases_to!(whole => whole->Object_0));
                    assert(decreases_to!(map => map[pairs[i].0]));
                }
                out.push((field.0, from_value(field.1)));
            }
            assert(fields_view(out@) =~= pairs);
            let json = Json::Object(out);
            json
        },
    }
}

/// The keys and values of a row of fields of a tree.
spec fn out_pairs(fields: Seq<(String, serde_json::Value)>) -> Seq<(Seq<char>, JsonView)> {
    fields.map_values(|f: (String, serde_json::Value)| (f.0@, value_view(f.1)))
}

/// Whether a pair from the place `from` on has the key.
spec fn occurs(pairs: Seq<(Seq<char>, JsonView)>, key: Seq<char>, from: int) -> bool {
    exists|j: int| from <= j < pairs.len() && #[trigger] pairs[j].0 == key
}

/// Whether a field behind the place `i` has the key of the field there.
fn occurs_later(fields: &Vec<(String, Json)>, i: usize) -> (later: bool)
    requires
        i < fields.len(),
    ensures
        later == occurs(fields_view(fields@), fields@[i as int].0@, i + 1),
{
    let ghost pairs = fields_view(fields@);
    let mut j: usize = i + 1;
    while j < fields.len()
        invariant
            i < j <= fields.len(),
            pairs == fields_view(fields@),
            forall|k: int| i < k < j ==> #[trigger] pairs[k].0 != fields@[i as int].0@,
        decreases fields.len() - j,
    {
        if same_text(fields[j].0.as_str(), fields[i].0.as_str()) {
            assert(pairs[j as int].0 == fields@[i as int].0@);
            return true;
        }
        assert(pairs[j as int].0 == fields@[j as int].0@);
        j = j + 1;
    }
    false
}

/// The `serde_json` tree of a value.
fn to_value(json: &Json) -> (value: serde_json::Value)
    ensures
        value_view(value) == json@,
    decreases json,
{
    match json {
        Json::Null => close_value(Node::Null),
        Json::Bool(b) => close_value(Node::Bool(*b)),
        Json::Number(n) => close_value(Node::Number(n.clone())),
        Json::Text(s) => close_value(Node::Text(s.clone())),
        Json::Array(items) => {
            let mut out: Vec<serde_json::Value> = Vec::new();
            let mut i: usize = 0;
            while i < items.len()
                invariant
                    *json == Json::Array(*items),
                    i <= items.len(),
                    out.len() == i,
                    forall|k: int| 0 <= k < out.len() ==> value_view(#[trigger] out@[k]) == items@[k]@,
                decreases items.len() - i,
            {
                assert(decreases_to!(json => json->Array_0));
                assert(decreases_to!(items => items[i as int]));
                out.push(to_value(&items[i]));
                i = i + 1;
            }
            let node = Node::Array(out);
            assert(node_view(node)->Array_0 =~= items_view(items@));
            close_value(node)
        },
        Json::Object(fields) => {
            let ghost pairs = fields_view(fields@);
            let mut out: Vec<(String, serde_json::Value)> = Vec::new();
            let mut i: usize = 0;
            assert(out_pairs(out@) =~= Seq::<(Seq<char>, JsonView)>::empty());
            assert(pairs.take(0) =~= Seq::<(Seq<char>, JsonView)>::empty());
            while i < fields.len()
                invariant
                    *json == Json::Object(*fields),
                    pairs == fields_view(fields@),
                    i <= fields.len(),
                    forall|m: int, n: int|
                        0 <= m < n < out@.len() ==> #[trigger] out@[m].0@
                            != #[trigger] out@[n].0@,
                    forall|key: Seq<char>|
                        #[trigger] pairs_map(out_pairs(out@)).dom().contains(key) <==> pairs_map(
                            pairs.take(i as int),
                        ).dom().contains(key) && !occurs(pairs, key, i as int),
                    forall|key: Seq<char>|
                        pairs_map(out_pairs(out@)).dom().contains(key) ==> #[trigger] pairs_map(
                            out_pairs(out@),
                        )[key] == pairs_map(pairs.take(i as int))[key],
                decreases fields.len() - i,
            {
                let ghost before = out@;
                let ghost key = pairs[i as int].0;
                assert(pairs.take(i + 1).drop_last() =~= pairs.take(i as int));
                assert(pairs.take(i + 1).last() == pairs[i as int]);
                assert forall|k: Seq<char>| k != key implies #[trigger] occurs(
                    pairs,
                    k,
                    i as int,
                ) == occurs(pairs, k, i + 1) by {
                    if occurs(pairs, k, i as int) {
                        let j = choose|j: int| i <= j < pairs.len() && #[trigger] pairs[j].0 == k;
                        assert(pairs[j].0 == k && j != i);
                    }
                }
                assert(occurs(pairs, key, i as int));
                if !occurs_later(fields, i) {
                    assert(decreases_to!(json => json->Object_0));
                    assert(decreases_to!(fields => fields[i as int]));
                    assert(decreases_to!(fields[i as int] => fields[i as int].1));
                    let value = to_value(&fields[i].1);
                    out.push((fields[i].0.clone(), value));
                    assert(out_pairs(out@).drop_last() =~= out_pairs(before));
                    assert(out_pairs(out@).last() == pairs[i as int]);
                    assert forall|m: int, n: int|
                        0 <= m < n < out@.len() implies #[trigger] out@[m].0@
                        != #[trigger] out@[n].0@ by {
                        lemma_pairs_map_has(out_pairs(before), m);
                        assert(out_pairs(before)[m].0 == before[m].0@);
                        if n < before.len() {
                            assert(before[m].0@ != before[n].0@);
                        }
                    }
                }
                assert forall|k: Seq<char>|
                    #[trigger] pairs_map(out_pairs(out@)).dom().contains(k) <==> pairs_map(
                        pairs.take(i + 1),
                    ).dom().contains(k) && !occurs(pairs, k, i + 1) by {
                    if k != key {
                        assert(occurs(pairs, k, i as int) == occurs(pairs, k, i + 1));
                        assert(pairs_map(out_pairs(before)).dom().contains(k) == pairs_map(
                            out_pairs(out@),
                        ).dom().contains(k));
                    }
                }
                assert forall|k: Seq<char>|
                    pairs_map(out_pairs(out@)).dom().contains(k) implies #[trigger] pairs_map(
                    out_pairs(out@),
                )[k] == pairs_map(pairs.take(i + 1))[k] by {
                    if k != key {
                        assert(pairs_map(out_pairs(before)).dom().contains(k));
                        assert(pairs_map(out_pairs(before))[k] == pairs_map(
                            pairs.take(i as int),
                        )[k]);
                    }
                }
                i = i + 1;
            }
            proof {
                assert(pairs.take(pairs.len() as int) =~= pairs);
                assert(forall|k: Seq<char>| !occurs(pairs, k, pairs.len() as int));
                assert(pairs_map(out_pairs(out@)) =~= pairs_map(pairs));
            }
            close_value(Node::Object(out))
        },
    }
}

/// Reads a whole JSON document; nothing comes back of bytes that are none.
pub fn parse_json(bytes: &[u8]) -> (r: Option<Json>)
    ensures
        document_view(r) == json_document(bytes@),
{
    match read_value(bytes) {
        Ok(value) => Some(from_value(value)),
        Err(_) => None,
    }
}

impl Json {
    /// A whole number.
    pub fn whole(n: u64) -> (json: Json)
        ensures
            json@ == JsonView::Number(whole_number(n)),
            json_text(json@) == crate::number::decimal(n as nat),
    {
        Json::Number(number_from(n))
    }

    /// This value as compact JSON text.
    pub fn text(&self) -> (text: String)
        ensures
            text@ == json_text(self@),
    {
        value_text(&to_value(self))
    }

    /// Whether this is `null`.
    pub fn is_null(&self) -> (null: bool)
        ensures
            null == (self@ == JsonView::Null),
    {
        match self {
            Json::Null => true,
            _ => false,
        }
    }

    /// What stands under `key`, where this is an object that has it.
    pub fn get(&self, key: &str) -> (r: Option<&Json>)
        ensures
            match r {
                Some(json) => field(self@, key@) == Some(json@),
                None => field(self@, key@) is None,
            },
    {
        match self {
            Json::Object(fields) => {
                let ghost pairs = fields_view(fields@);
                let mut i: usize = fields.len();
                while i > 0
                    invariant
                        i <= fields.len(),
                        pairs == fields_view(fields@),
                        self@ == JsonView::Object(pairs_map(pairs)),
                        forall|j: int| i <= j < pairs.len() ==> #[trigger] pairs[j].0 != key@,
                    decreases i,
                {
                    i = i - 1;
                    if same_text(fields[i].0.as_str(), key) {
                        proof {
                            assert(pairs[i as int].0 == key@);
                            lemma_pairs_map_last(pairs, i as int);
                        }
                        return Some(&fields[i].1);
                    }
                }
                proof {
                    lemma_pairs_map_absent(pairs, key@);
                }
                None
            },
            _ => None,
        }
    }

    /// The text under `key`, where this is an object that has text there.
    pub fn get_text(&self, key: &str) -> (r: Option<&str>)
        ensures
            match r {
                Some(s) => text_field(self@, key@) == Some(s@),
                None => text_field(self@, key@) is None,
            },
    {
        match self.get(key) {
            Some(Json::Text(s)) => Some(s.as_str()),
            _ => None,
        }
    }

    /// The items under `key`, where this is an object that has an array there.
    pub fn get_array(&self, key: &str) -> (r: Option<&Vec<Json>>)
        ensures
            match r {
                Some(items) => array_field(self@, key@) == Some(items_view(items@)),
                None => array_field(self@, key@) is None,
            },
    {
        match self.get(key) {
            Some(Json::Array(items)) => Some(items),
            _ => None,
        }
    }
}

/// What stands under a key is found exactly where the value is an object that has the key; it
/// is text, or an array, where it is one there.
pub proof fn fields_are_found_under_their_keys(value: JsonView, key: Seq<char>)
    ensures
        match value {
            JsonView::Object(map) => {
                &&& map.dom().contains(key) ==> {
                    &&& field(value, key) == Some(map[key])
                    &&& text_field(value, key) == match map[key] {
                        JsonView::Text(s) => Some(s),
                        _ => None,
                    }
                    &&& array_field(value, key) == match map[key] {
                        JsonView::Array(items) => Some(items),
                        _ => None,
                    }
                }
                &&& !map.dom().contains(key) ==> field(value, key) is None && text_field(
                    value,
                    key,
                ) is None && array_field(value, key) is None
            },
            _ => field(value, key) is None && text_field(value, key) is None && array_field(
                value,
                key,
            ) is None,
        },
{
}

/// A value stands for what it holds: text for its characters, an array for its items one by
/// one, an object for its fields, the last one of a key counting.
pub proof fn values_stand_for_what_they_hold(json: Json)
    ensures
        match json {
            Json::Null => json@ == JsonView::Null,
            Json::Bool(b) => json@ == JsonView::Bool(b),
            Json::Number(n) => json@ == JsonView::Number(n),
            Json::Text(s) => json@ == JsonView::Text(s@),
            Json::Array(items) => {
                &&& json@ matches JsonView::Array(views)
                &&& views.len() == items@.len()
                &&& forall|i: int| 0 <= i < items@.len() ==> #[trigger] views[i] == items@[i]@
            },
            Json::Object(fields) => {
                &&& json@ matches JsonView::Object(map)
                &&& forall|key: Seq<char>| #[trigger]
                    map.dom().contains(key) <==> exists|i: int|
                        0 <= i < fields@.len() && #[trigger] fields@[i].0@ == key
                &&& forall|i: int|
                    #![trigger fields@[i].1@]
                    0 <= i < fields@.len() && (forall|j: int|
                        i < j < fields@.len() ==> #[trigger] fields@[j].0@ != fields@[i].0@)
                        ==> map[fields@[i].0@] == fields@[i].1@
            },
        },
{
    if let Json::Object(fields) = json {
        let pairs = fields_view(fields@);
        let map = pairs_map(pairs);
        assert(json@ == JsonView::Object(map));
        assert forall|key: Seq<char>| #[trigger] map.dom().contains(key) <==> exists|i: int|
            0 <= i < fields@.len() && #[trigger] fields@[i].0@ == key by {
            if exists|i: int| 0 <= i < fields@.len() && #[trigger] fields@[i].0@ == key {
                let i = choose|i: int| 0 <= i < fields@.len() && #[trigger] fields@[i].0@ == key;
                lemma_pairs_map_has(pairs, i);
            } else {
                assert forall|j: int| 0 <= j < pairs.len() implies #[trigger] pairs[j].0 != key by {
                    assert(pairs[j].0 == fields@[j].0@);
                }
                lemma_pairs_map_absent(pairs, key);
            }
        }
        assert forall|i: int|
            #![trigger fields@[i].1@]
            0 <= i < fields@.len() && (forall|j: int|
                i < j < fields@.len() ==> #[trigger] fields@[j].0@ != fields@[i].0@) implies map[fields@[i].0@]
            == fields@[i].1@ by {
            assert forall|j: int| i < j < pairs.len() implies #[trigger] pairs[j].0
                != pairs[i].0 by {
                assert(pairs[j].0 == fields@[j].0@);
            }
            lemma_pairs_map_last(pairs, i);
        }
    }
}

/// A document is taken as it is.
pub proof fn documents_are_taken_as_they_are(json: Json)
    ensures
        document_view(Some(json)) == Some(json@),
        document_view(None) is None,
{
}

/// One level of a tree holds what it has: text to the character, of an array all the branches
/// in their order, of an object every field, the last one of a key counting.
pub proof fn a_level_holds_all_its_branches(node: Node)
    ensures
        match node {
            Node::Null => node_view(node) == JsonView::Null,
            Node::Bool(b) => node_view(node) == JsonView::Bool(b),
            Node::Number(n) => node_view(node) == JsonView::Number(n),
            Node::Text(s) => node_view(node) == JsonView::Text(s@),
            Node::Array(items) => {
                &&& node_view(node) matches JsonView::Array(views)
                &&& views.len() == items@.len()
                &&& forall|i: int|
                    0 <= i < items@.len() ==> #[trigger] views[i] == value_view(items@[i])
            },
            Node::Object(fields) => {
                &&& node_view(node) matches JsonView::Object(map)
                &&& forall|key: Seq<char>| #[trigger]
                    map.dom().contains(key) <==> exists|i: int|
                        0 <= i < fields@.len() && #[trigger] fields@[i].0@ == key
                &&& forall|i: int|
                    #![trigger value_view(fields@[i].1)]
                    0 <= i < fields@.len() && (forall|j: int|
                        i < j < fields@.len() ==> #[trigger] fields@[j].0@ != fields@[i].0@)
                        ==> map[fields@[i].0@] == value_view(fields@[i].1)
                &&& distinct_keys(node) <==> forall|i: int, j: int|
                    0 <= i < j < fields@.len() ==> #[trigger] fields@[i].0@
                        != #[trigger] fields@[j].0@
            },
        },
{
    if let Node::Object(fields) = node {
        let pairs = out_pairs(fields@);
        let map = pairs_map(pairs);
        assert(node_view(node) == JsonView::Object(map));
        assert forall|key: Seq<char>| #[trigger] map.dom().contains(key) <==> exists|i: int|
            0 <= i < fields@.len() && #[trigger] fields@[i].0@ == key by {
            if exists|i: int| 0 <= i < fields@.len() && #[trigger] fields@[i].0@ == key {
                let i = choose|i: int| 0 <= i < fields@.len() && #[trigger] fields@[i].0@ == key;
                lemma_pairs_map_has(pairs, i);
            } else {
                assert forall|j: int| 0 <= j < pairs.len() implies #[trigger] pairs[j].0 != key by {
                    assert(pairs[j].0 == fields@[j].0@);
                }
                lemma_pairs_map_absent(pairs, key);
            }
        }
        assert forall|i: int|
            #![trigger value_view(fields@[i].1)]
            0 <= i < fields@.len() && (forall|j: int|
                i < j < fields@.len() ==> #[trigger] fields@[j].0@ != fields@[i].0@) implies map[fields@[i].0@]
            == value_view(fields@[i].1) by {
            assert forall|j: int| i < j < pairs.len() implies #[trigger] pairs[j].0
                != pairs[i].0 by {
                assert(pairs[j].0 == fields@[j].0@);
            }
            lemma_pairs_map_last(pairs, i);
        }
    }
}

} // verus!
