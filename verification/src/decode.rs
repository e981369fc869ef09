//! The decoder: reads a raw document as a policy document.
//!
//! A text scalar is a source value, except the word `none`, which is the keyword;
//! a mapping is a group of prefixed values; where a value is expected, a sequence
//! of values may stand. Everything else is refused.

use crate::map::{has_key, insert_entry, keys_ascending};
use crate::model::{nodes_of, CspDirective, DirectiveMap, MaybeVec, Node, CSP};
use crate::text::text_equal;
use crate::yaml::{tree_entries_of, trees_of, Tree, Yaml};
use vstd::prelude::*;

verus! {

/// What is wrong with a document that is no policy document.
#[derive(Debug, Clone, Copy, PartialEq, Eq, Structural)]
pub enum ErrorKind {
    /// The parser refuses the text: it is not well-formed, or a mapping in it has
    /// two entries with the same key.
    Syntax,
    /// The document is not a mapping from directive names to values.
    NotAMapping,
    /// A null, a boolean, a number or a tagged value stands where a directive
    /// value is expected.
    WrongScalar,
    /// A sequence stands inside a sequence of values.
    NestedSequence,
    /// A mapping of a raw document has two entries with the same key.
    DuplicateKey,
}

/// One step on the way from the top of a document down to a value in it.
#[derive(Debug, PartialEq, Eq)]
pub enum Step {
    /// Into the entry of a mapping with this key.
    Key(String),
    /// Into the item of a sequence at this place, counted from zero.
    Index(usize),
}

/// Why a document is no policy document: what is wrong, and where.
#[derive(Debug, PartialEq, Eq)]
pub struct DecodeError {
    pub kind: ErrorKind,
    /// The way from the top of the document to the offending value; for a key
    /// that stands twice, to its second entry.
    pub path: Vec<Step>,
}

/// The mathematical form of a step.
pub enum Place {
    Key(Seq<char>),
    Index(nat),
}

/// The mathematical form of a decode error.
pub struct Fault {
    pub kind: ErrorKind,
    pub path: Seq<Place>,
}

impl View for Step {
    type V = Place;

    open spec fn view(&self) -> Place {
        match self {
            Step::Key(key) => Place::Key(key@),
            Step::Index(index) => Place::Index(*index as nat),
        }
    }
}

impl View for DecodeError {
    type V = Fault;

    open spec fn view(&self) -> Fault {
        Fault { kind: self.kind, path: self.path@.map_values(|step: Step| step@) }
    }
}

impl Fault {
    /// A fault at the top of a document.
    pub open spec fn at_top(kind: ErrorKind) -> Fault {
        Fault { kind, path: Seq::empty() }
    }

    /// The same fault, seen from one step further up.
    pub open spec fn under(self, place: Place) -> Fault {
        Fault { kind: self.kind, path: seq![place] + self.path }
    }
}

impl DecodeError {
    /// An error at the top of a document.
    pub fn at_top(kind: ErrorKind) -> (error: DecodeError)
        ensures
            error@ == Fault::at_top(kind),
    {
        let error = DecodeError { kind, path: Vec::new() };
        assert(error@.path =~= Seq::<Place>::empty());
        error
    }

    /// The same error, seen from one step further up.
    pub fn under(self, step: Step) -> (error: DecodeError)
        ensures
            error@ == self@.under(step@),
    {
        let ghost below = self@.path;
        let mut path = self.path;
        path.insert(0, step);
        let error = DecodeError { kind: self.kind, path };
        assert(error@.path =~= seq![step@] + below);
        error
    }
}

/// The word that selects the keyword `'none'`.
pub open spec fn none_word() -> Seq<char> {
    seq!['n', 'o', 'n', 'e']
}

/// The directive value that a raw value stands for.
pub open spec fn read_node(tree: Tree) -> Result<Node, Fault>
    decreases tree, 0nat,
{
    match tree {
        Tree::Text(text) => if text == none_word() {
            Ok(Node::Keyword)
        } else {
            Ok(Node::Literal(text))
        },
        Tree::Mapping(entries) => match read_entries(entries) {
            Ok(group) => Ok(Node::Group(group)),
            Err(error) => Err(error),
        },
        Tree::Sequence(_) => Err(Fault::at_top(ErrorKind::NestedSequence)),
        Tree::Null | Tree::Bool(_) | Tree::Number | Tree::Tagged => Err(
            Fault::at_top(ErrorKind::WrongScalar),
        ),
    }
}

/// The directive values at one position: those of the items of a sequence, or
/// the single value that stands there.
pub open spec fn read_values(tree: Tree) -> Result<Seq<Node>, Fault>
    decreases tree, 1nat,
{
    match tree {
        Tree::Sequence(items) => read_items(items),
        _ => match read_node(tree) {
            Ok(node) => Ok(seq![node]),
            Err(error) => Err(error),
        },
    }
}

/// The directive values of the items of a sequence, in order, or the first
/// fault, with the place of its item put before its path.
pub open spec fn read_items(items: Seq<Tree>) -> Result<Seq<Node>, Fault>
    decreases items, 0nat,
{
    if items.len() == 0 {
        Ok(Seq::empty())
    } else {
        match read_items(items.drop_last()) {
            Err(error) => Err(error),
            Ok(nodes) => match read_node(items.last()) {
                Err(error) => Err(error.under(Place::Index((items.len() - 1) as nat))),
                Ok(node) => Ok(nodes.push(node)),
            },
        }
    }
}

/// The entries of a mapping, in ascending order of their keys, or the first
/// fault, with the key of its entry put before its path. A key that an earlier
/// entry has is a fault.
pub open spec fn read_entries(entries: Seq<(Seq<char>, Tree)>) -> Result<
    Seq<(Seq<char>, Seq<Node>)>,
    Fault,
>
    decreases entries, 0nat,
{
    if entries.len() == 0 {
        Ok(Seq::empty())
    } else {
        match read_entries(entries.drop_last()) {
            Err(error) => Err(error),
            Ok(done) => if has_key(done, entries.last().0) {
                Err(Fault::at_top(ErrorKind::DuplicateKey).under(Place::Key(entries.last().0)))
            } else {
                match read_values(entries.last().1) {
                    Err(error) => Err(error.under(Place::Key(entries.last().0))),
                    Ok(nodes) => Ok(insert_entry(done, entries.last().0, nodes)),
                }
            },
        }
    }
}

/// The policy document that a raw document stands for.
pub open spec fn read_document(tree: Tree) -> Result<Seq<(Seq<char>, Seq<Node>)>, Fault> {
    match tree {
        Tree::Mapping(entries) => read_entries(entries),
        _ => Err(Fault::at_top(ErrorKind::NotAMapping)),
    }
}

/// An error among the first items of a sequence is the error of the whole.
pub proof fn lemma_read_items_error(items: Seq<Tree>, count: int)
    requires
        0 <= count <= items.len(),
        read_items(items.take(count)) is Err,
    ensures
        read_items(items) == read_items(items.take(count)),
    decreases items.len() - count,
{
    if count == items.len() {
        assert(items.take(count) =~= items);
    } else {
        assert(items.take(count + 1).drop_last() =~= items.take(count));
        lemma_read_items_error(items, count + 1);
    }
}

/// An error among the first entries of a mapping is the error of the whole.
pub proof fn lemma_read_entries_error(entries: Seq<(Seq<char>, Tree)>, count: int)
    requires
        0 <= count <= entries.len(),
        read_entries(entries.take(count)) is Err,
    ensures
        read_entries(entries) == read_entries(entries.take(count)),
    decreases entries.len() - count,
{
    if count == entries.len() {
        assert(entries.take(count) =~= entries);
    } else {
        assert(entries.take(count + 1).drop_last() =~= entries.take(count));
        lemma_read_entries_error(entries, count + 1);
    }
}

/// Tells whether `text` is the word `none`.
fn is_none_word(text: &str) -> (yes: bool)
    ensures
        yes == (text@ == none_word()),
{
    proof {
        reveal_strlit("none");
        assert("none"@ =~= none_word());
    }
    text_equal(text, "none")
}

/// Reads one raw value as a directive value.
pub fn decode_directive(raw: &Yaml) -> (outcome: Result<CspDirective, DecodeError>)
    ensures
        match read_node(raw@) {
            Ok(node) => outcome matches Ok(directive) && directive@ == node,
            Err(fault) => outcome matches Err(error) && error@ == fault,
        },
    decreases raw, 0nat,
{
    match raw {
        Yaml::Text(text) => {
            if is_none_word(text.as_str()) {
                Ok(CspDirective::CSPNone)
            } else {
                Ok(CspDirective::Directive(text.clone()))
            }
        },
        Yaml::Mapping(entries) => match decode_mapping(entries) {
            Ok(group) => Ok(CspDirective::Prefixed(group)),
            Err(error) => Err(error),
        },
        Yaml::Sequence(_) => Err(DecodeError::at_top(ErrorKind::NestedSequence)),
        Yaml::Null => Err(DecodeError::at_top(ErrorKind::WrongScalar)),
        Yaml::Bool(_) => Err(DecodeError::at_top(ErrorKind::WrongScalar)),
        Yaml::Number => Err(DecodeError::at_top(ErrorKind::WrongScalar)),
        Yaml::Tagged => Err(DecodeError::at_top(ErrorKind::WrongScalar)),
    }
}

/// Reads the raw value at one position as one directive value or several.
pub fn decode_values(raw: &Yaml) -> (outcome: Result<MaybeVec<CspDirective>, DecodeError>)
    ensures
        match read_values(raw@) {
            Ok(nodes) => outcome matches Ok(values) && nodes_of(values) == nodes,
            Err(fault) => outcome matches Err(error) && error@ == fault,
        },
    decreases raw, 1nat,
{
    match raw {
        Yaml::Sequence(items) => {
            let ghost trees = trees_of(items@);
            let mut values: Vec<CspDirective> = Vec::new();
            let mut i: usize = 0;
            assert(nodes_of(MaybeVec::Vector(values)) =~= Seq::<Node>::empty());
            while i < items.len()
                invariant
                    i <= items.len(),
                    trees == trees_of(items@),
                    *raw == Yaml::Sequence(*items),
                    read_items(trees.take(i as int)) == Ok::<Seq<Node>, Fault>(
                        nodes_of(MaybeVec::Vector(values)),
                    ),
                decreases items.len() - i,
            {
                assert(trees.take(i + 1).drop_last() =~= trees.take(i as int));
                let ghost before = nodes_of(MaybeVec::Vector(values));
                match decode_directive(&items[i]) {
                    Ok(directive) => {
                        values.push(directive);
                        assert(nodes_of(MaybeVec::Vector(values)) =~= before.push(directive@));
                    },
                    Err(error) => {
                        proof {
                            lemma_read_items_error(trees, i + 1);
                        }
                        return Err(error.under(Step::Index(i)));
                    },
                }
                i = i + 1;
            }
            assert(trees.take(i as int) =~= trees);
            Ok(MaybeVec::Vector(values))
        },
        _ => match decode_directive(raw) {
            Ok(directive) => Ok(MaybeVec::Singleton(directive)),
            Err(error) => Err(error),
        },
    }
}

/// Reads the entries of a raw mapping as a mapping of directive values.
pub fn decode_mapping(entries: &Vec<(String, Yaml)>) -> (outcome: Result<DirectiveMap, DecodeError>)
    ensures
        match read_entries(tree_entries_of(entries@)) {
            Ok(group) => outcome matches Ok(map) && map@ == group,
            Err(fault) => outcome matches Err(error) && error@ == fault,
        },
    decreases entries, 0nat,
{
    let ghost trees = tree_entries_of(entries@);
    let mut map = DirectiveMap::new();
    let mut i: usize = 0;
    while i < entries.len()
        invariant
            i <= entries.len(),
            trees == tree_entries_of(entries@),
            read_entries(trees.take(i as int)) == Ok::<Seq<(Seq<char>, Seq<Node>)>, Fault>(map@),
        decreases entries.len() - i,
    {
        let entry = &entries[i];
        assert(trees.take(i + 1).drop_last() =~= trees.take(i as int));
        if map.contains_key(entry.0.as_str()) {
            proof {
                lemma_read_entries_error(trees, i + 1);
            }
            return Err(
                DecodeError::at_top(ErrorKind::DuplicateKey).under(Step::Key(entry.0.clone())),
            );
        }
        match decode_values(&entry.1) {
            Ok(values) => {
                map.insert(entry.0.clone(), values);
            },
            Err(error) => {
                proof {
                    lemma_read_entries_error(trees, i + 1);
                }
                return Err(error.under(Step::Key(entry.0.clone())));
            },
        }
        i = i + 1;
    }
    assert(trees.take(i as int) =~= trees);
    Ok(map)
}

/// Reads a raw document as a policy document.
pub fn decode(raw: &Yaml) -> (outcome: Result<CSP, DecodeError>)
    ensures
        match read_document(raw@) {
            Ok(document) => outcome matches Ok(csp) && csp@ == document && keys_ascending(csp@),
            Err(fault) => outcome matches Err(error) && error@ == fault,
        },
{
    match raw {
        Yaml::Mapping(entries) => match decode_mapping(entries) {
            Ok(directives) => {
                proof {
                    use_type_invariant(&directives);
                }
                Ok(CSP { directives })
            },
            Err(error) => Err(error),
        },
        _ => Err(DecodeError::at_top(ErrorKind::NotAMapping)),
    }
}

} // verus!
