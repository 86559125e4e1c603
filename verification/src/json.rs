//! The boundary to `serde_json`: a document is read from JSON text and
//! written back as pretty-printed JSON text.
//!
//! `serde_json` parses and prints. What it computes is not proved here: the
//! functions marked `external_body` below call it, and their contracts are
//! taken on trust. The conversion between its `Value` and a [`Document`] is
//! verified against those contracts.
//!
//! `serde_json` is built without its feature `preserve_order`, so an object
//! keeps its entries by key and prints them in the order of the keys.

use crate::document::{entry_trees, trees, Document, Tree};
use crate::failure::{Failure, FailureView};
use serde_json::{Error, Number, Value};
use vstd::prelude::*;

verus! {

/// `serde_json::Value`, a parsed JSON value. Verified code takes one apart
/// and builds one through the wrappers of this module only.
#[verifier::external_type_specification]
#[verifier::external_body]
pub struct ExValue(Value);

/// `serde_json::Map`, the map that a `Value::Object` holds.
#[verifier::external_type_specification]
#[verifier::external_body]
#[verifier::reject_recursive_types(K)]
#[verifier::reject_recursive_types(V)]
pub struct ExObject<K, V>(serde_json::Map<K, V>);

/// `serde_json::Error`, the error of parsing and printing.
#[verifier::external_type_specification]
#[verifier::external_body]
pub struct ExError(Error);

/// A JSON value as mathematics. An object is a finite map from keys to
/// values: it has no order and no key twice.
pub enum Json {
    Null,
    Bool(bool),
    Number(Number),
    Text(Seq<char>),
    Array(Seq<Json>),
    Object(Map<Seq<char>, Json>),
}

impl Tree {
    /// The JSON value that the tree stands for. Where an object gives a key
    /// twice, the later entry counts.
    pub open spec fn json(self) -> Json
        decreases self, 0nat,
    {
        match self {
            Tree::Null => Json::Null,
            Tree::Bool(b) => Json::Bool(b),
            Tree::Number(n) => Json::Number(n),
            Tree::Text(s) => Json::Text(s),
            Tree::Array(items) => Json::Array(
                Seq::new(
                    items.len(),
                    |i: int| if 0 <= i < items.len() { items[i].json() } else { Json::Null },
                ),
            ),
            Tree::Object(entries) => Json::Object(Self::entries_json(entries, entries.len())),
        }
    }

    /// The map that comes of inserting the first `n` entries in turn.
    pub open spec fn entries_json(entries: Seq<(Seq<char>, Tree)>, n: nat) -> Map<Seq<char>, Json>
        decreases entries, n,
    {
        if n == 0 || n > entries.len() {
            Map::empty()
        } else {
            Self::entries_json(entries, (n - 1) as nat).insert(
                entries[n - 1].0,
                entries[n - 1].1.json(),
            )
        }
    }
}

/// The JSON value that a `serde_json::Value` holds.
pub uninterp spec fn value_json(v: Value) -> Json;

/// The entries that a `serde_json::Map` holds, each value as JSON.
pub uninterp spec fn object_json(m: serde_json::Map<String, Value>) -> Map<Seq<char>, Json>;

/// What `serde_json::from_str` makes of a text: the value that it parses to,
/// or `None` where it reports an error.
pub uninterp spec fn parsed_json(text: Seq<char>) -> Option<Json>;

/// The text that `serde_json::to_string_pretty` prints for a value. It
/// depends on the value alone, as the entries of an object print in the
/// order of their keys.
pub uninterp spec fn pretty_json(j: Json) -> Seq<char>;

/// One level of a `serde_json::Value`: its variant with the fields as they are.
pub enum Node {
    Null,
    Bool(bool),
    Number(Number),
    Text(String),
    Array(Vec<Value>),
    Object(serde_json::Map<String, Value>),
}

/// The JSON values of a sequence of `Value`s.
pub open spec fn values_json(values: Seq<Value>) -> Seq<Json> {
    Seq::new(values.len(), |i: int| value_json(values[i]))
}

/// The map that comes of inserting the first `n` entries in turn.
pub open spec fn pairs_json(entries: Seq<(String, Value)>, n: nat) -> Map<Seq<char>, Json>
    decreases n,
{
    if n == 0 || n > entries.len() {
        Map::empty()
    } else {
        pairs_json(entries, (n - 1) as nat).insert(
            entries[n - 1].0@,
            value_json(entries[n - 1].1),
        )
    }
}

/// No key occurs twice among the entries.
pub open spec fn distinct_keys(entries: Seq<(String, Value)>) -> bool {
    forall|i: int, j: int|
        0 <= i < j < entries.len() ==> (#[trigger] entries[i]).0@ != (#[trigger] entries[j]).0@
}

impl Node {
    /// The JSON value that the node stands for.
    pub open spec fn json(self) -> Json {
        match self {
            Node::Null => Json::Null,
            Node::Bool(b) => Json::Bool(b),
            Node::Number(n) => Json::Number(n),
            Node::Text(s) => Json::Text(s@),
            Node::Array(items) => Json::Array(values_json(items@)),
            Node::Object(m) => Json::Object(object_json(m)),
        }
    }
}

/// `serde_json::from_str` at `Value`. Whether it returns a value or an
/// error, and which value, depends on the text alone.
#[verifier::external_body]
fn parse_value(text: &str) -> (r: Result<Value, Error>)
    ensures
        match r {
            Ok(v) => parsed_json(text@) == Some(value_json(v)),
            Err(_) => parsed_json(text@) is None,
        },
{
    serde_json::from_str::<Value>(text)
}

/// `serde_json::to_string_pretty` at `Value`. The text depends on the JSON
/// value alone. The call does not fail: a `Value` has strings for keys, and
/// every other error of this serializer comes from its writer, which here
/// is a `Vec`.
#[verifier::external_body]
fn pretty_value(v: &Value) -> (r: Result<String, Error>)
    ensures
        r is Ok,
        r->Ok_0@ == pretty_json(value_json(*v)),
{
    serde_json::to_string_pretty(v)
}

/// Takes a `serde_json::Value` apart by one level: the variant is told and
/// its field moves over. This is what [`value_json`] means.
#[verifier::external_body]
fn value_into_node(v: Value) -> (node: Node)
    ensures
        node.json() == value_json(v),
{
    match v {
        Value::Null => Node::Null,
        Value::Bool(b) => Node::Bool(b),
        Value::Number(n) => Node::Number(n),
        Value::String(s) => Node::Text(s),
        Value::Array(items) => Node::Array(items),
        Value::Object(m) => Node::Object(m),
    }
}

/// Builds a `serde_json::Value` of one level, the reverse of
/// [`value_into_node`]: the variant is chosen and the field moves in.
#[verifier::external_body]
fn node_into_value(node: Node) -> (v: Value)
    ensures
        value_json(v) == node.json(),
{
    match node {
        Node::Null => Value::Null,
        Node::Bool(b) => Value::Bool(b),
        Node::Number(n) => Value::Number(n),
        Node::Text(s) => Value::String(s),
        Node::Array(items) => Value::Array(items),
        Node::Object(m) => Value::Object(m),
    }
}

/// `serde_json::Map::into_iter`, collected into a `Vec`. Each key of the
/// map comes out once, with its value; in which order is left open here.
#[verifier::external_body]
fn object_into_entries(m: serde_json::Map<String, Value>) -> (entries: Vec<(String, Value)>)
    ensures
        distinct_keys(entries@),
        pairs_json(entries@, entries@.len()) == object_json(m),
{
    m.into_iter().collect()
}

/// `serde_json::Map::new`: a map without entries.
#[verifier::external_body]
fn object_new() -> (object: serde_json::Map<String, Value>)
    ensures
        object_json(object) == (Map::<Seq<char>, Json>::empty()),
{
    serde_json::Map::new()
}

/// `serde_json::Map::insert`: the key holds the value afterwards, whether or
/// not it held one before; the other entries stay.
#[verifier::external_body]
fn object_insert(m: &mut serde_json::Map<String, Value>, key: String, value: Value)
    ensures
        object_json(*final(m)) == object_json(*old(m)).insert(key@, value_json(value)),
{
    m.insert(key, value);
}

/// The map of a `serde_json::Map` is finite and holds each listed entry.
proof fn lemma_pairs_json(entries: Seq<(String, Value)>, n: nat)
    requires
        n <= entries.len(),
        distinct_keys(entries),
    ensures
        pairs_json(entries, n).dom().finite(),
        forall|i: int|
            0 <= i < n ==> {
                &&& pairs_json(entries, n).contains_key(#[trigger] entries[i].0@)
                &&& pairs_json(entries, n)[entries[i].0@] == value_json(entries[i].1)
            },
    decreases n,
{
    if n > 0 {
        lemma_pairs_json(entries, (n - 1) as nat);
        assert forall|i: int| 0 <= i < n implies {
            &&& pairs_json(entries, n).contains_key(#[trigger] entries[i].0@)
            &&& pairs_json(entries, n)[entries[i].0@] == value_json(entries[i].1)
        } by {
            if i < n - 1 {
                assert(entries[i].0@ != entries[n - 1].0@);
            }
        }
    }
}

/// Converts a parsed `Value` into a document. The entries of an object
/// come in the order in which the map hands them out.
fn document_from_value(v: Value) -> (doc: Document)
    ensures
        doc@.json() == value_json(v),
        doc@.unique_keys(),
    decreases value_json(v),
{
    let node = value_into_node(v);
    match node {
        Node::Null => Document::Null,
        Node::Bool(b) => Document::Bool(b),
        Node::Number(n) => Document::Number(n),
        Node::Text(s) => Document::Text(s),
        Node::Array(items) => {
            let mut out: Vec<Document> = Vec::new();
            for item in it: items
                invariant
                    it.seq() == items@,
                    value_json(v) == Json::Array(values_json(items@)),
                    out@.len() == it.index(),
                    forall|j: int|
                        0 <= j < out@.len() ==> {
                            &&& (#[trigger] out@[j])@.json() == value_json(items@[j])
                            &&& out@[j]@.unique_keys()
                        },
            {
                proof {
                    assert(item == items@[it.index()]);
                    vstd::seq::axiom_seq_index_decreases(value_json(v)->Array_0, it.index());
                }
                let doc = document_from_value(item);
                out.push(doc);
            }
            proof {
                let doc = Document::Array(out);
                assert(doc@->Array_0 =~= trees(out@));
                assert(doc@.json()->Array_0 =~= values_json(items@));
            }
            Document::Array(out)
        },
        Node::Object(m) => {
            let entries = object_into_entries(m);
            let mut out: Vec<(String, Document)> = Vec::new();
            for entry in it: entries
                invariant
                    it.seq() == entries@,
                    distinct_keys(entries@),
                    value_json(v) == Json::Object(pairs_json(entries@, entries@.len())),
                    out@.len() == it.index(),
                    forall|j: int|
                        0 <= j < out@.len() ==> {
                            &&& (#[trigger] out@[j]).0@ == entries@[j].0@
                            &&& out@[j].1@.json() == value_json(entries@[j].1)
                            &&& out@[j].1@.unique_keys()
                        },
            {
                proof {
                    assert(entry == entries@[it.index()]);
                    lemma_pairs_json(entries@, entries@.len());
                    vstd::map::axiom_map_index_decreases_finite(
                        value_json(v)->Object_0,
                        entry.0@,
                    );
                }
                let (key, value) = entry;
                let doc = document_from_value(value);
                out.push((key, doc));
            }
            proof {
                let doc = Document::Object(out);
                assert(doc@->Object_0 =~= entry_trees(out@));
                lemma_entries_json(out@, entries@, out@.len());
            }
            Document::Object(out)
        },
    }
}

/// Entries that agree key by key and value by value give the same map.
proof fn lemma_entries_json(out: Seq<(String, Document)>, entries: Seq<(String, Value)>, n: nat)
    requires
        n <= out.len() == entries.len(),
        forall|j: int|
            0 <= j < out.len() ==> {
                &&& (#[trigger] out[j]).0@ == entries[j].0@
                &&& out[j].1@.json() == value_json(entries[j].1)
            },
    ensures
        Tree::entries_json(entry_trees(out), n) == pairs_json(entries, n),
    decreases n,
{
    if n > 0 {
        lemma_entries_json(out, entries, (n - 1) as nat);
        assert(out[n - 1].0@ == entries[n - 1].0@);
    }
}

/// An object that gives no key twice loses nothing as a JSON value: the
/// map of its first `n` entries holds these entries and no others.
pub proof fn law_entries_all_count(entries: Seq<(Seq<char>, Tree)>, n: nat)
    requires
        n <= entries.len(),
        forall|i: int, j: int|
            0 <= i < j < entries.len() ==> (#[trigger] entries[i]).0 != (#[trigger] entries[j]).0,
    ensures
        Tree::entries_json(entries, n).dom().finite(),
        forall|i: int|
            0 <= i < n ==> {
                &&& Tree::entries_json(entries, n).contains_key((#[trigger] entries[i]).0)
                &&& Tree::entries_json(entries, n)[entries[i].0] == entries[i].1.json()
            },
        forall|key: Seq<char>| #[trigger]
            Tree::entries_json(entries, n).contains_key(key) ==> exists|i: int|
                0 <= i < n && (#[trigger] entries[i]).0 == key,
    decreases n,
{
    if n > 0 {
        law_entries_all_count(entries, (n - 1) as nat);
        let before = Tree::entries_json(entries, (n - 1) as nat);
        let now = Tree::entries_json(entries, n);
        assert forall|i: int| 0 <= i < n implies {
            &&& now.contains_key((#[trigger] entries[i]).0)
            &&& now[entries[i].0] == entries[i].1.json()
        } by {
            if i < n - 1 {
                assert(entries[i].0 != entries[n - 1].0);
            }
        }
        assert forall|key: Seq<char>| #[trigger] now.contains_key(key) implies exists|i: int|
            0 <= i < n && (#[trigger] entries[i]).0 == key by {
            if key == entries[n - 1].0 {
                assert(0 <= n - 1 < n && entries[n - 1].0 == key);
            } else {
                assert(before.contains_key(key));
                let i = choose|i: int| 0 <= i < n - 1 && (#[trigger] entries[i]).0 == key;
                assert(0 <= i < n && entries[i].0 == key);
            }
        }
    }
}

/// Converts a document into a `Value`. Where an object gives a key twice,
/// the later entry replaces the earlier one.
fn document_into_value(doc: Document) -> (v: Value)
    ensures
        value_json(v) == doc@.json(),
    decreases doc,
{
    match doc {
        Document::Null => node_into_value(Node::Null),
        Document::Bool(b) => node_into_value(Node::Bool(b)),
        Document::Number(n) => node_into_value(Node::Number(n)),
        Document::Text(s) => node_into_value(Node::Text(s)),
        Document::Array(items) => {
            let ghost kids = doc@->Array_0;
            let mut values: Vec<Value> = Vec::new();
            for item in it: items
                invariant
                    doc == Document::Array(items),
                    it.seq() == items@,
                    kids == trees(items@),
                    values@.len() == it.index(),
                    forall|j: int|
                        0 <= j < values@.len() ==> value_json(#[trigger] values@[j])
                            == kids[j].json(),
            {
                proof {
                    assert(item == items@[it.index()]);
                    assert(doc->Array_0 == items);
                }
                let value = document_into_value(item);
                values.push(value);
            }
            proof {
                assert(doc@.json()->Array_0 =~= values_json(values@));
            }
            node_into_value(Node::Array(values))
        },
        Document::Object(entries) => {
            let ghost kids = doc@->Object_0;
            let mut object = object_new();
            for entry in it: entries
                invariant
                    doc == Document::Object(entries),
                    it.seq() == entries@,
                    kids == entry_trees(entries@),
                    object_json(object) == Tree::entries_json(kids, it.index() as nat),
            {
                proof {
                    assert(entry == entries@[it.index()]);
                    assert(doc->Object_0 == entries);
                }
                let (key, value) = entry;
                let value = document_into_value(value);
                object_insert(&mut object, key, value);
            }
            node_into_value(Node::Object(object))
        },
    }
}

impl Document {
    /// Reads a document from JSON text. The text is parsed by `serde_json`;
    /// it fails with [`Failure::Parse`] exactly where that reports an error.
    pub fn parse(text: &str) -> (r: Result<Document, Failure>)
        ensures
            match r {
                Ok(doc) => parsed_json(text@) == Some(doc@.json()) && doc@.unique_keys(),
                Err(failure) => parsed_json(text@) is None && failure@ == FailureView::Parse,
            },
    {
        match parse_value(text) {
            Ok(v) => Ok(document_from_value(v)),
            Err(_) => Err(Failure::Parse),
        }
    }

    /// The document as pretty-printed JSON text, as `serde_json` prints it.
    pub fn into_pretty(self) -> (text: String)
        ensures
            text@ == pretty_json(self@.json()),
    {
        let v = document_into_value(self);
        pretty_value(&v).unwrap()
    }
}

} // verus!
