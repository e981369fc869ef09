//! The raw shape of a document, before it is read as a policy, and the parser
//! that produces it from text.

use vstd::prelude::*;

verus! {

/// A document as the parser hands it over: scalars, sequences and mappings.
#[derive(Debug)]
pub enum Yaml {
    Null,
    Bool(bool),
    /// A number; its value is never read.
    Number,
    Text(String),
    Sequence(Vec<Yaml>),
    /// The entries of a mapping, in the order in which they were written.
    Mapping(Vec<(String, Yaml)>),
    /// A value under a custom tag; neither the tag nor the value is read.
    Tagged,
}

/// The mathematical form of a raw document.
pub enum Tree {
    Null,
    Bool(bool),
    Number,
    Text(Seq<char>),
    Sequence(Seq<Tree>),
    Mapping(Seq<(Seq<char>, Tree)>),
    Tagged,
}

/// The mathematical form of one raw value.
pub open spec fn tree_of(y: Yaml) -> Tree
    decreases y,
{
    match y {
        Yaml::Null => Tree::Null,
        Yaml::Bool(b) => Tree::Bool(b),
        Yaml::Number => Tree::Number,
        Yaml::Text(s) => Tree::Text(s@),
        Yaml::Sequence(items) => Tree::Sequence(trees_of(items@)),
        Yaml::Mapping(entries) => Tree::Mapping(tree_entries_of(entries@)),
        Yaml::Tagged => Tree::Tagged,
    }
}

/// The mathematical form of the items of a raw sequence.
pub open spec fn trees_of(items: Seq<Yaml>) -> Seq<Tree>
    decreases items,
{
    Seq::new(
        items.len(),
        |i: int|
            if 0 <= i < items.len() {
                tree_of(items[i])
            } else {
                Tree::Null
            },
    )
}

/// The mathematical form of the entries of a raw mapping.
pub open spec fn tree_entries_of(entries: Seq<(String, Yaml)>) -> Seq<(Seq<char>, Tree)>
    decreases entries,
{
    Seq::new(
        entries.len(),
        |i: int|
            if 0 <= i < entries.len() {
                (entries[i].0@, tree_of(entries[i].1))
            } else {
                (Seq::empty(), Tree::Null)
            },
    )
}

impl View for Yaml {
    type V = Tree;

    open spec fn view(&self) -> Tree {
        tree_of(*self)
    }
}

#[verifier::external_type_specification]
#[verifier::external_body]
pub struct ExYamlError(serde_yml::Error);

#[verifier::external_type_specification]
#[verifier::external_body]
pub struct ExYamlValue(serde_yml::Value);

/// What the YAML parser makes of a text: the document it reads, or nothing where
/// it refuses the text.
pub uninterp spec fn parsed(text: Seq<char>) -> Option<Tree>;

/// What a value of the YAML parser holds.
pub uninterp spec fn value_tree(value: serde_yml::Value) -> Tree;

/// The top of a value of the YAML parser: its kind, and the values that stand
/// directly below it.
pub(crate) enum Layer<'a> {
    Null,
    Bool(bool),
    Number,
    Text(&'a str),
    Sequence(&'a Vec<serde_yml::Value>),
    Mapping(Vec<(&'a String, &'a serde_yml::Value)>),
    Tagged,
}

impl<'a> Layer<'a> {
    /// The mathematical form of the value that the layer was taken from.
    pub(crate) open spec fn tree(self) -> Tree {
        match self {
            Layer::Null => Tree::Null,
            Layer::Bool(b) => Tree::Bool(b),
            Layer::Number => Tree::Number,
            Layer::Text(s) => Tree::Text(s@),
            Layer::Sequence(items) => Tree::Sequence(
                items@.map_values(|item: serde_yml::Value| value_tree(item)),
            ),
            Layer::Mapping(entries) => Tree::Mapping(
                entries@.map_values(
                    |entry: (&String, &serde_yml::Value)| (entry.0@, value_tree(*entry.1)),
                ),
            ),
            Layer::Tagged => Tree::Tagged,
        }
    }
}

/// Parses a text with `noyalib::from_str_with_config`, the function that
/// `serde_yml::from_str` forwards to, read as a `serde_yml::Value`. The parser's
/// settings are its defaults but for one: a mapping with two entries under one
/// key is refused.
///
/// Trusted: whether the parser accepts the text, and what the value that it
/// returns holds, depend on the text alone; [`parsed`] names that outcome.
#[verifier::external_body]
fn parse_value(text: &str) -> (outcome: Result<serde_yml::Value, serde_yml::Error>)
    ensures
        outcome matches Ok(value) ==> parsed(text@) == Some(value_tree(value)),
        outcome is Err ==> parsed(text@) is None,
{
    let strict = noyalib::ParserConfig::new()
        .duplicate_key_policy(noyalib::DuplicateKeyPolicy::Error);
    noyalib::from_str_with_config::<serde_yml::Value>(text, &strict)
}

/// Takes the top of a `serde_yml::Value` apart, variant by variant; the entries of
/// a mapping are those that `serde_yml::Mapping::iter` yields, in its order.
///
/// Trusted: the layer holds what the value holds. A number and a tagged value are
/// handed on without what is in them.
#[verifier::external_body]
fn peel<'a>(value: &'a serde_yml::Value) -> (layer: Layer<'a>)
    ensures
        layer.tree() == value_tree(*value),
{
    match value {
        serde_yml::Value::Null => Layer::Null,
        serde_yml::Value::Bool(b) => Layer::Bool(*b),
        serde_yml::Value::Number(_) => Layer::Number,
        serde_yml::Value::String(s) => Layer::Text(s),
        serde_yml::Value::Sequence(items) => Layer::Sequence(items),
        serde_yml::Value::Mapping(entries) => Layer::Mapping(entries.iter().collect()),
        serde_yml::Value::Tagged(_) => Layer::Tagged,
    }
}

/// Copies a value of the parser into a raw document.
fn lift(value: &serde_yml::Value) -> (raw: Yaml)
    ensures
        raw@ == value_tree(*value),
    decreases value_tree(*value),
{
    let ghost whole = value_tree(*value);
    match peel(value) {
        Layer::Null => Yaml::Null,
        Layer::Bool(b) => Yaml::Bool(b),
        Layer::Number => Yaml::Number,
        Layer::Text(s) => Yaml::Text(s.to_owned()),
        Layer::Sequence(items) => {
            let ghost below = items@.map_values(|item: serde_yml::Value| value_tree(item));
            let mut copies: Vec<Yaml> = Vec::new();
            let mut i: usize = 0;
            while i < items.len()
                invariant
                    i <= items.len(),
                    whole == Tree::Sequence(below),
                    whole == value_tree(*value),
                    below == items@.map_values(|item: serde_yml::Value| value_tree(item)),
                    trees_of(copies@) =~= below.take(i as int),
                decreases items.len() - i,
            {
                proof {
                    assert(decreases_to!(whole => whole->Sequence_0));
                    assert(decreases_to!(below => below[i as int]));
                }
                let copy = lift(&items[i]);
                copies.push(copy);
                assert(below.take(i + 1) =~= below.take(i as int).push(below[i as int]));
                i = i + 1;
            }
            assert(below.take(i as int) =~= below);
            Yaml::Sequence(copies)
        },
        Layer::Mapping(entries) => {
            let ghost below = entries@.map_values(
                |entry: (&String, &serde_yml::Value)| (entry.0@, value_tree(*entry.1)),
            );
            let mut copies: Vec<(String, Yaml)> = Vec::new();
            let mut i: usize = 0;
            while i < entries.len()
                invariant
                    i <= entries.len(),
                    whole == Tree::Mapping(below),
                    whole == value_tree(*value),
                    below == entries@.map_values(
                        |entry: (&String, &serde_yml::Value)| (entry.0@, value_tree(*entry.1)),
                    ),
                    tree_entries_of(copies@) =~= below.take(i as int),
                decreases entries.len() - i,
            {
                proof {
                    assert(decreases_to!(whole => whole->Mapping_0));
                    assert(decreases_to!(below => below[i as int]));
                    assert(decreases_to!(below[i as int] => below[i as int].1));
                }
                let key = entries[i].0.clone();
                let copy = lift(entries[i].1);
                copies.push((key, copy));
                assert(below.take(i + 1) =~= below.take(i as int).push(below[i as int]));
                i = i + 1;
            }
            assert(below.take(i as int) =~= below);
            Yaml::Mapping(copies)
        },
        Layer::Tagged => Yaml::Tagged,
    }
}

/// Parses a text as a raw document.
pub fn parse(text: &str) -> (outcome: Result<Yaml, serde_yml::Error>)
    ensures
        outcome matches Ok(raw) ==> parsed(text@) == Some(raw@),
        outcome is Err ==> parsed(text@) is None,
{
    match parse_value(text) {
        Ok(value) => Ok(lift(&value)),
        Err(error) => Err(error),
    }
}

} // verus!
