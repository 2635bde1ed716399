//! TOML documents as plain data.
//!
//! The `toml` crate reads the text; what comes back is taken apart level by level into [`Toml`].
use vstd::prelude::*;

use crate::text;

verus! {

/// A TOML value, as far as a manifest needs it: strings, arrays and tables are told apart, and
/// whatever else TOML has is one thing.
#[derive(Debug)]
pub enum Toml {
    Text(String),
    List(Vec<Toml>),
    Table(Vec<(String, Toml)>),
    Other,
}

/// A TOML value as characters.
pub enum Node {
    Text(Seq<char>),
    List(Seq<Node>),
    Table(Seq<(Seq<char>, Node)>),
    Other,
}

impl Toml {
    /// What the value says.
    pub open spec fn node(self) -> Node
        decreases self,
    {
        match self {
            Toml::Text(s) => Node::Text(s@),
            Toml::List(v) => Node::List(
                Seq::new(
                    v@.len(),
                    |i: int|
                        if 0 <= i < v@.len() {
                            v@[i].node()
                        } else {
                            Node::Other
                        },
                ),
            ),
            Toml::Table(v) => Node::Table(
                Seq::new(
                    v@.len(),
                    |i: int|
                        if 0 <= i < v@.len() {
                            (v@[i].0@, v@[i].1.node())
                        } else {
                            (Seq::empty(), Node::Other)
                        },
                ),
            ),
            Toml::Other => Node::Other,
        }
    }
}

/// `toml::Value`: any value of a TOML document.
#[verifier::external_type_specification]
#[verifier::external_body]
pub struct ExTomlValue(toml::Value);

/// `toml::de::Error`: why a text is not the TOML that was asked for.
#[verifier::external_type_specification]
#[verifier::external_body]
pub struct ExTomlError(toml::de::Error);

/// What a `toml::Value` holds: the characters of a string, the values of an array, the keys and
/// values of a table in the order in which the table is walked.
pub uninterp spec fn toml_node(v: toml::Value) -> Node;

/// One level of a `toml::Value`: the values within are still unread.
#[derive(Debug)]
pub enum Shape {
    Text(String),
    List(Vec<toml::Value>),
    Table(Vec<(String, toml::Value)>),
    Other,
}

impl Shape {
    /// What the value says.
    pub open spec fn node(self) -> Node {
        match self {
            Shape::Text(s) => Node::Text(s@),
            Shape::List(v) => Node::List(v@.map_values(|x: toml::Value| toml_node(x))),
            Shape::Table(v) => Node::Table(
                v@.map_values(|e: (String, toml::Value)| (e.0@, toml_node(e.1))),
            ),
            Shape::Other => Node::Other,
        }
    }
}

/// The variants of `toml::Value`, told apart: a string gives its characters, an array its values,
/// and a table its keys with their values, in the order of `toml::Table::into_iter`. The integers,
/// floats, booleans and dates are not looked into.
#[verifier::external_body]
fn shape_of(v: toml::Value) -> (r: Shape)
    ensures
        r.node() == toml_node(v),
{
    match v {
        toml::Value::String(s) => Shape::Text(s),
        toml::Value::Array(a) => Shape::List(a),
        toml::Value::Table(t) => Shape::Table(t.into_iter().collect()),
        toml::Value::Integer(_) => Shape::Other,
        toml::Value::Float(_) => Shape::Other,
        toml::Value::Boolean(_) => Shape::Other,
        toml::Value::Datetime(_) => Shape::Other,
    }
}

/// What a text says as a TOML document: its top-level keys with their values, in the order of the
/// keys, or `None` if the text is no TOML document. Where all values are tables they are read as
/// such; a date at the top level then counts as a table of the one key by which the `toml` crate
/// marks its dates. Anywhere else the crate takes a table that begins with that key for a date.
pub uninterp spec fn toml_document(text: Seq<char>) -> Option<Seq<(Seq<char>, Node)>>;

/// The keys of a list of keys and values.
pub open spec fn keys(entries: Seq<(Seq<char>, Node)>) -> Seq<Seq<char>> {
    entries.map_values(|e: (Seq<char>, Node)| e.0)
}

/// `toml::from_str` into a `BTreeMap` of the top-level keys, to tables, or to any values if that
/// fails: the map is walked in the order of its keys, and each key is there once. An error is
/// returned exactly when the text says nothing as a TOML document.
#[verifier::external_body]
fn top_level(text: &str) -> (r: Result<Vec<(String, toml::Value)>, toml::de::Error>)
    ensures
        match r {
            Ok(entries) => {
                let doc = entries@.map_values(|e: (String, toml::Value)| (e.0@, toml_node(e.1)));
                &&& toml_document(text@) == Some(doc)
                &&& text::strictly_sorted(keys(doc))
            },
            Err(_) => toml_document(text@) is None,
        },
{
    match toml::from_str::<std::collections::BTreeMap<String, toml::Table>>(text) {
        Ok(m) => Ok(m.into_iter().map(|(key, t)| (key, toml::Value::Table(t))).collect()),
        Err(_) => toml::from_str::<std::collections::BTreeMap<String, toml::Value>>(text).map(
            |m| m.into_iter().collect(),
        ),
    }
}

/// What a list of keys and values says.
pub open spec fn document(entries: Seq<(String, Toml)>) -> Seq<(Seq<char>, Node)> {
    entries.map_values(|e: (String, Toml)| (e.0@, e.1.node()))
}

/// Reads a TOML document: its top-level keys with their values, in the order of the keys, each key
/// once.
pub fn read_document(text: &str) -> (r: Result<Vec<(String, Toml)>, toml::de::Error>)
    ensures
        match r {
            Ok(entries) => {
                &&& toml_document(text@) == Some(document(entries@))
                &&& text::strictly_sorted(keys(document(entries@)))
            },
            Err(_) => toml_document(text@) is None,
        },
{
    match top_level(text) {
        Err(e) => Err(e),
        Ok(entries) => {
            let ghost doc = entries@.map_values(
                |e: (String, toml::Value)| (e.0@, toml_node(e.1)),
            );
            let mut out: Vec<(String, Toml)> = Vec::new();
            for e in it: entries
                invariant
                    it.seq() == entries@,
                    out@.len() == it.index(),
                    forall|i: int|
                        0 <= i < out@.len() ==> (#[trigger] out@[i]).0@ == entries@[i].0@
                            && out@[i].1.node() == toml_node(entries@[i].1),
            {
                let (key, value) = e;
                out.push((key, to_plain(value)));
            }
            assert(document(out@) =~= doc);
            Ok(out)
        },
    }
}

/// Turns a `toml::Value` into plain data.
fn to_plain(v: toml::Value) -> (r: Toml)
    ensures
        r.node() == toml_node(v),
    decreases toml_node(v),
{
    let ghost n = toml_node(v);
    match shape_of(v) {
        Shape::Text(s) => Toml::Text(s),
        Shape::Other => Toml::Other,
        Shape::List(a) => {
            let mut out: Vec<Toml> = Vec::new();
            for x in it: a
                invariant
                    it.seq() == a@,
                    out@.len() == it.index(),
                    n == toml_node(v),
                    n == Node::List(a@.map_values(|x: toml::Value| toml_node(x))),
                    forall|i: int|
                        0 <= i < out@.len() ==> (#[trigger] out@[i]).node() == toml_node(a@[i]),
            {
                assert(n->List_0[it.index() as int] == toml_node(x));
                assert(decreases_to!(n => n->List_0[it.index() as int]));
                out.push(to_plain(x));
            }
            let r = Toml::List(out);
            assert(r.node()->List_0 =~= n->List_0);
            r
        },
        Shape::Table(a) => {
            let mut out: Vec<(String, Toml)> = Vec::new();
            for e in it: a
                invariant
                    it.seq() == a@,
                    out@.len() == it.index(),
                    n == toml_node(v),
                    n == Node::Table(
                        a@.map_values(|e: (String, toml::Value)| (e.0@, toml_node(e.1))),
                    ),
                    forall|i: int|
                        0 <= i < out@.len() ==> (#[trigger] out@[i]).0@ == a@[i].0@
                            && out@[i].1.node() == toml_node(a@[i].1),
            {
                assert(n->Table_0[it.index() as int].1 == toml_node(e.1));
                assert(decreases_to!(n => n->Table_0[it.index() as int].1));
                let (key, value) = e;
                out.push((key, to_plain(value)));
            }
            let r = Toml::Table(out);
            assert(r.node()->Table_0 =~= n->Table_0);
            r
        },
    }
}

} // verus!
