//! JSON documents.

use crate::text::decimal;
use crate::text::same_text;
use serde_json::Value;
use vstd::prelude::*;

verus! {

/// What a JSON document says, with objects as maps.
pub enum Tree {
    Null,
    Bool(bool),
    /// A number: its value where it is a whole number that fits, and its text.
    Number(Option<u64>, Seq<char>),
    Text(Seq<char>),
    Array(Seq<Tree>),
    Object(Map<Seq<char>, Tree>),
}

/// A JSON document as plain values. Of two fields with one name the later one counts.
pub enum Json {
    Null,
    Bool(bool),
    Number(Option<u64>, String),
    Text(String),
    Array(Vec<Json>),
    Object(Vec<(String, Json)>),
}

/// The trees of a sequence of documents, in order.
pub open spec fn trees_of(items: Seq<Json>) -> Seq<Tree>
    decreases items,
{
    Seq::new(items.len(), |i: int| if 0 <= i < items.len() { tree_of(items[i]) } else { Tree::Null })
}

/// The map that a sequence of fields spells out.
pub open spec fn fields_of(fields: Seq<(String, Json)>) -> Map<Seq<char>, Tree>
    decreases fields,
{
    if fields.len() == 0 {
        Map::empty()
    } else {
        fields_of(fields.drop_last()).insert(fields.last().0@, tree_of(fields.last().1))
    }
}

/// The tree of a document.
pub open spec fn tree_of(j: Json) -> Tree
    decreases j,
{
    match j {
        Json::Null => Tree::Null,
        Json::Bool(b) => Tree::Bool(b),
        Json::Number(n, text) => Tree::Number(n, text@),
        Json::Text(s) => Tree::Text(s@),
        Json::Array(items) => Tree::Array(trees_of(items@)),
        Json::Object(fields) => Tree::Object(fields_of(fields@)),
    }
}

impl View for Json {
    type V = Tree;

    open spec fn view(&self) -> Tree {
        tree_of(*self)
    }
}

/// The field `key` of an object; `None` where there is no such field, or no object.
pub open spec fn at(t: Tree, key: Seq<char>) -> Option<Tree> {
    match t {
        Tree::Object(m) => if m.dom().contains(key) {
            Some(m[key])
        } else {
            None
        },
        _ => None,
    }
}

impl Json {
    /// A whole number.
    pub fn count(n: u64) -> (j: Json)
        ensures
            j@ == Tree::Number(Some(n), decimal(n as nat)),
    {
        Json::Number(Some(n), crate::text::decimal_text(n))
    }

    /// The field `key` of an object.
    pub fn get(&self, key: &str) -> (r: Option<&Json>)
        ensures
            match r {
                Some(v) => at(self@, key@) == Some(v@),
                None => at(self@, key@) is None,
            },
    {
        match self {
            Json::Object(fields) => lookup(fields, key),
            _ => None,
        }
    }

    /// A document that says the same.
    pub fn copied(&self) -> (j: Json)
        ensures
            j@ == self@,
        decreases self,
    {
        match self {
            Json::Null => Json::Null,
            Json::Bool(b) => Json::Bool(*b),
            Json::Number(n, text) => Json::Number(*n, text.clone()),
            Json::Text(s) => Json::Text(s.clone()),
            Json::Array(items) => {
                let mut out: Vec<Json> = Vec::new();
                for i in 0..items.len()
                    invariant
                        *self == Json::Array(*items),
                        out@.len() == i,
                        forall|k: int| 0 <= k < i ==> tree_of(#[trigger] out@[k]) == tree_of(items@[k]),
                {
                    assert(decreases_to!(*self => self->Array_0));
                    assert(decreases_to!(*items => items@));
                    assert(decreases_to!(items@ => items@[i as int]));
                    out.push(items[i].copied());
                }
                assert(trees_of(out@) =~= trees_of(items@));
                Json::Array(out)
            },
            Json::Object(fields) => {
                let mut out: Vec<(String, Json)> = Vec::new();
                for i in 0..fields.len()
                    invariant
                        *self == Json::Object(*fields),
                        out@.len() == i,
                        fields_of(out@) == fields_of(fields@.take(i as int)),
                {
                    let ghost before = out@;
                    assert(decreases_to!(*self => self->Object_0));
                    assert(decreases_to!(*fields => fields@));
                    assert(decreases_to!(fields@ => fields@[i as int]));
                    assert(decreases_to!(fields@[i as int] => fields@[i as int].1));
                    out.push((fields[i].0.clone(), fields[i].1.copied()));
                    assert(out@.drop_last() =~= before);
                    assert(fields@.take(i + 1).drop_last() =~= fields@.take(i as int));
                }
                assert(fields@.take(fields@.len() as int) =~= fields@);
                Json::Object(out)
            },
        }
    }
}

/// The value of the last field named `key`.
pub fn lookup<'a>(fields: &'a Vec<(String, Json)>, key: &str) -> (r: Option<&'a Json>)
    ensures
        match r {
            Some(v) => fields_of(fields@).dom().contains(key@) && fields_of(fields@)[key@] == v@,
            None => !fields_of(fields@).dom().contains(key@),
        },
{
    let mut i: usize = fields.len();
    assert(fields@.take(i as int) =~= fields@);
    while i > 0
        invariant
            i <= fields@.len(),
            fields_of(fields@).dom().contains(key@) == fields_of(
                fields@.take(i as int),
            ).dom().contains(key@),
            fields_of(fields@).dom().contains(key@) ==> fields_of(fields@)[key@] == fields_of(
                fields@.take(i as int),
            )[key@],
        decreases i,
    {
        i = i - 1;
        assert(fields@.take(i + 1).drop_last() =~= fields@.take(i as int));
        if same_text(&fields[i].0, key) {
            return Some(&fields[i].1);
        }
    }
    None
}

// ---------------------------------------------------------------------------------------------
// JSON text, through serde_json
// ---------------------------------------------------------------------------------------------

/// A JSON value of serde_json.
#[verifier::external_type_specification]
#[verifier::external_body]
pub struct ExValue(serde_json::Value);

/// serde_json's error.
#[verifier::external_type_specification]
#[verifier::external_body]
pub struct ExError(serde_json::Error);

/// What a value of serde_json holds.
pub uninterp spec fn value_tree(value: serde_json::Value) -> Tree;

/// What `serde_json::from_str` reads in a text; `None` where it reports an error.
pub uninterp spec fn json_document(text: Seq<char>) -> Option<Tree>;

/// The text that a value of serde_json is displayed as.
pub uninterp spec fn json_text(tree: Tree) -> Seq<char>;

/// `serde_json::from_str::<Value>`: the value that the text spells out, or an error where it
/// spells out none. Which texts those are is left to the name `json_document`.
#[verifier::external_body]
fn parse_value(text: &str) -> (r: Result<Value, serde_json::Error>)
    ensures
        match r {
            Ok(value) => json_document(text@) == Some(value_tree(value)),
            Err(_) => json_document(text@) is None,
        },
{
    serde_json::from_str::<Value>(text)
}

/// One layer of a value of serde_json, its parts still to be read.
pub enum Layer<'a> {
    Null,
    Bool(bool),
    Number(Option<u64>, String),
    Text(String),
    Array(&'a Vec<Value>),
    Object(Vec<(String, &'a Value)>),
}

/// The map that a sequence of named trees spells out: of two with one name the later one counts.
pub open spec fn fields_map(fields: Seq<(Seq<char>, Tree)>) -> Map<Seq<char>, Tree>
    decreases fields.len(),
{
    if fields.len() == 0 {
        Map::empty()
    } else {
        fields_map(fields.drop_last()).insert(fields.last().0, fields.last().1)
    }
}

/// The named trees of borrowed fields.
pub open spec fn borrowed_fields(fields: Seq<(String, &Value)>) -> Seq<(Seq<char>, Tree)> {
    Seq::new(fields.len(), |i: int| (fields[i].0@, value_tree(*fields[i].1)))
}

/// The named trees of owned fields.
pub open spec fn owned_fields(fields: Seq<(String, Value)>) -> Seq<(Seq<char>, Tree)> {
    Seq::new(fields.len(), |i: int| (fields[i].0@, value_tree(fields[i].1)))
}

/// The trees of a sequence of values.
pub open spec fn value_trees(items: Seq<Value>) -> Seq<Tree> {
    Seq::new(items.len(), |i: int| value_tree(items[i]))
}

/// The tree of a layer.
pub open spec fn layer_tree(layer: Layer) -> Tree {
    match layer {
        Layer::Null => Tree::Null,
        Layer::Bool(b) => Tree::Bool(b),
        Layer::Number(n, text) => Tree::Number(n, text@),
        Layer::Text(s) => Tree::Text(s@),
        Layer::Array(items) => Tree::Array(value_trees(items@)),
        Layer::Object(fields) => Tree::Object(fields_map(borrowed_fields(fields@))),
    }
}

/// No two fields have one name.
pub open spec fn distinct_fields(fields: Seq<(Seq<char>, Tree)>) -> bool {
    forall|i: int, j: int| 0 <= i < j < fields.len() ==> fields[i].0 != fields[j].0
}

/// The variants of `serde_json::Value`, told apart: a number by `Number::as_u64` and its display,
/// an object by the entries of its map, whose keys are distinct.
#[verifier::external_body]
fn open_value<'a>(value: &'a Value) -> (layer: Layer<'a>)
    ensures
        layer_tree(layer) == value_tree(*value),
        match layer {
            Layer::Object(fields) => distinct_fields(borrowed_fields(fields@)),
            _ => true,
        },
{
    match value {
        Value::Null => Layer::Null,
        Value::Bool(b) => Layer::Bool(*b),
        Value::Number(n) => Layer::Number(n.as_u64(), n.to_string()),
        Value::String(s) => Layer::Text(s.clone()),
        Value::Array(items) => Layer::Array(items),
        Value::Object(map) => Layer::Object(map.iter().map(|(k, v)| (k.clone(), v)).collect()),
    }
}

proof fn lemma_field(fields: Seq<(Seq<char>, Tree)>, i: int)
    requires
        distinct_fields(fields),
        0 <= i < fields.len(),
    ensures
        fields_map(fields).dom().finite(),
        fields_map(fields).dom().contains(fields[i].0),
        fields_map(fields)[fields[i].0] == fields[i].1,
    decreases fields.len(),
{
    if fields.len() > 1 {
        let shorter = fields.drop_last();
        lemma_field(shorter, if i < fields.len() - 1 { i } else { 0 });
    } else {
        assert(fields_map(fields.drop_last()) =~= Map::empty());
    }
}

/// Reads a value of serde_json.
fn read_value(value: &Value) -> (j: Json)
    ensures
        j@ == value_tree(*value),
    decreases value_tree(*value),
{
    match open_value(value) {
        Layer::Null => Json::Null,
        Layer::Bool(b) => Json::Bool(b),
        Layer::Number(n, text) => Json::Number(n, text),
        Layer::Text(s) => Json::Text(s),
        Layer::Array(items) => {
            let mut out: Vec<Json> = Vec::new();
            for i in 0..items.len()
                invariant
                    value_tree(*value) == Tree::Array(value_trees(items@)),
                    out@.len() == i,
                    forall|k: int| 0 <= k < i ==> tree_of(#[trigger] out@[k]) == value_tree(items@[k]),
            {
                let ghost trees = value_trees(items@);
                assert(decreases_to!(value_tree(*value) => value_tree(*value)->Array_0));
                assert(trees[i as int] == value_tree(items@[i as int]));
                assert(decreases_to!(trees => trees[i as int]));
                out.push(read_value(&items[i]));
            }
            assert(trees_of(out@) =~= value_trees(items@));
            Json::Array(out)
        },
        Layer::Object(fields) => {
            let mut out: Vec<(String, Json)> = Vec::new();
            for i in 0..fields.len()
                invariant
                    value_tree(*value) == Tree::Object(fields_map(borrowed_fields(fields@))),
                    distinct_fields(borrowed_fields(fields@)),
                    out@.len() == i,
                    fields_of(out@) == fields_map(borrowed_fields(fields@).take(i as int)),
            {
                let ghost before = out@;
                proof {
                    lemma_field(borrowed_fields(fields@), i as int);
                    let m = fields_map(borrowed_fields(fields@));
                    assert(borrowed_fields(fields@)[i as int].0 == fields@[i as int].0@);
                    assert(decreases_to!(value_tree(*value) => value_tree(*value)->Object_0));
                    assert(decreases_to!(m => m[fields@[i as int].0@]));
                }
                out.push((fields[i].0.clone(), read_value(fields[i].1)));
                assert(out@.drop_last() =~= before);
                assert(borrowed_fields(fields@).take(i + 1).drop_last() =~= borrowed_fields(
                    fields@,
                ).take(i as int));
            }
            assert(borrowed_fields(fields@).take(fields@.len() as int) =~= borrowed_fields(fields@));
            Json::Object(out)
        },
    }
}

/// Reads a JSON text; `None` where it is no JSON.
pub fn parse_json(text: &str) -> (r: Option<Json>)
    ensures
        match r {
            Some(j) => json_document(text@) == Some(j@),
            None => json_document(text@) is None,
        },
{
    match parse_value(text) {
        Ok(value) => Some(read_value(&value)),
        Err(_) => None,
    }
}

/// A value of serde_json to be made, its parts already there.
pub enum Piece {
    Bool(bool),
    Count(u64),
    Text(String),
    Array(Vec<Value>),
    Object(Vec<(String, Value)>),
}

/// The tree of a piece.
pub open spec fn piece_tree(piece: Piece) -> Tree {
    match piece {
        Piece::Bool(b) => Tree::Bool(b),
        Piece::Count(n) => Tree::Number(Some(n), decimal(n as nat)),
        Piece::Text(s) => Tree::Text(s@),
        Piece::Array(items) => Tree::Array(value_trees(items@)),
        Piece::Object(fields) => Tree::Object(fields_map(owned_fields(fields@))),
    }
}

/// The constructors of `serde_json::Value`: a whole number through `From<u64>`, an object by
/// collecting its fields, whose names differ, into a map.
#[verifier::external_body]
pub(crate) fn make_value(piece: Piece) -> (value: Value)
    requires
        match piece {
            Piece::Object(fields) => distinct_fields(owned_fields(fields@)),
            _ => true,
        },
    ensures
        value_tree(value) == piece_tree(piece),
{
    match piece {
        Piece::Bool(b) => Value::Bool(b),
        Piece::Count(n) => Value::from(n),
        Piece::Text(s) => Value::String(s),
        Piece::Array(items) => Value::Array(items),
        Piece::Object(fields) => Value::Object(fields.into_iter().collect()),
    }
}

/// Whether a numeral is that of a negative whole number of 64 bits.
pub open spec fn negative_whole(text: Seq<char>) -> bool {
    exists|k: nat| 0 < k <= 0x8000_0000_0000_0000 && text == seq!['-'] + #[trigger] decimal(k)
}

/// Whether a tree is nested at most `depth` deep and holds no numbers but whole ones.
pub open spec fn plain(t: Tree, depth: nat) -> bool
    decreases depth,
{
    match t {
        Tree::Number(n, text) => n is Some || negative_whole(text),
        Tree::Array(items) => depth > 0 && forall|i: int|
            0 <= i < items.len() ==> plain(#[trigger] items[i], (depth - 1) as nat),
        Tree::Object(m) => depth > 0 && forall|k: Seq<char>|
            m.dom().contains(k) ==> plain(#[trigger] m[k], (depth - 1) as nat),
        _ => true,
    }
}

/// `Value`'s display, through `ToString`: the compact JSON text of the value, left to the name
/// `json_text`. `serde_json::from_str` reads the same value back, where the value is nested at most
/// 127 deep, as far as the parser follows, and holds whole numbers alone, of which a negative one is
/// known by its numeral: a fraction is displayed with a point or an exponent. Of fractions nothing
/// is said.
#[verifier::external_body]
pub(crate) fn print_value(value: &Value) -> (text: String)
    ensures
        text@ == json_text(value_tree(*value)),
        plain(value_tree(*value), 127) ==> json_document(text@) == Some(value_tree(*value)),
{
    value.to_string()
}

} // verus!
