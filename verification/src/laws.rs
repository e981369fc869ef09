//! What holds of flattening, decoding and rendering, whatever the document.

use crate::decode::{
    lemma_read_entries_error, read_entries, read_values, DecodeError, Fault, Place,
};
use crate::flatten::{flatten, flatten_all, flatten_entries, none_keyword};
use crate::map::{
    keys_ascending, lemma_insert_entry, lemma_insert_entry_commutes, lemma_insert_entry_keys,
};
use crate::model::{nodes_of, CspDirective, MaybeVec, Node};
use crate::policy::compiles_to;
use crate::render::{header, statement, terminator};
use crate::yaml::Tree;
use vstd::prelude::*;

verus! {

/// A source value is flattened to itself behind the prefix, with nothing between
/// the two.
pub proof fn literal_follows_prefix(prefix: Seq<char>, value: Seq<char>)
    ensures
        flatten(prefix, Node::Literal(value)) == seq![prefix + value],
        flatten(Seq::empty(), Node::Literal(value)) == seq![value],
{
}

/// The keyword is flattened to `'none'` under every prefix: the prefix is dropped.
pub proof fn keyword_ignores_prefix(prefix: Seq<char>)
    ensures
        flatten(prefix, Node::Keyword) == seq![none_keyword()],
        flatten(prefix, Node::Keyword) == flatten(Seq::empty(), Node::Keyword),
{
}

/// A group without entries is flattened to nothing, under every prefix.
pub proof fn empty_group_yields_nothing(prefix: Seq<char>)
    ensures
        flatten(prefix, Node::Group(Seq::empty())) == Seq::<Seq<char>>::empty(),
{
}

/// Flattening a sequence of nodes keeps their order: the values of the first
/// nodes come before those of the nodes that follow.
pub proof fn flatten_all_keeps_order(prefix: Seq<char>, first: Seq<Node>, rest: Seq<Node>)
    ensures
        flatten_all(prefix, first + rest) == flatten_all(prefix, first) + flatten_all(
            prefix,
            rest,
        ),
    decreases rest.len(),
{
    if rest.len() == 0 {
        assert(flatten_all(prefix, first) + Seq::<Seq<char>>::empty() =~= flatten_all(
            prefix,
            first,
        ));
    } else {
        assert((first + rest).drop_last() =~= first + rest.drop_last());
        flatten_all_keeps_order(prefix, first, rest.drop_last());
        assert(flatten_all(prefix, first) + (flatten_all(prefix, rest.drop_last()) + flatten(
            prefix,
            rest.last(),
        )) =~= (flatten_all(prefix, first) + flatten_all(prefix, rest.drop_last())) + flatten(
            prefix,
            rest.last(),
        ));
    }
}

/// Flattening the entries of a group keeps their order: the values of the first
/// entries come before those of the entries that follow.
pub proof fn flatten_entries_keeps_order(
    prefix: Seq<char>,
    first: Seq<(Seq<char>, Seq<Node>)>,
    rest: Seq<(Seq<char>, Seq<Node>)>,
)
    ensures
        flatten_entries(prefix, first + rest) == flatten_entries(prefix, first) + flatten_entries(
            prefix,
            rest,
        ),
    decreases rest.len(),
{
    if rest.len() == 0 {
        assert(flatten_entries(prefix, first) + Seq::<Seq<char>>::empty() =~= flatten_entries(
            prefix,
            first,
        ));
    } else {
        assert((first + rest).drop_last() =~= first + rest.drop_last());
        flatten_entries_keeps_order(prefix, first, rest.drop_last());
        let tail = flatten_all(prefix + rest.last().0, rest.last().1);
        assert(flatten_entries(prefix, first) + (flatten_entries(prefix, rest.drop_last()) + tail)
            =~= (flatten_entries(prefix, first) + flatten_entries(prefix, rest.drop_last()))
            + tail);
    }
}

/// The number of keywords and source values in a node.
pub open spec fn leaves(node: Node) -> nat
    decreases node,
{
    match node {
        Node::Keyword => 1,
        Node::Literal(_) => 1,
        Node::Group(entries) => leaves_of_entries(entries),
    }
}

/// The number of keywords and source values in the entries of a group.
pub open spec fn leaves_of_entries(entries: Seq<(Seq<char>, Seq<Node>)>) -> nat
    decreases entries,
{
    if entries.len() == 0 {
        0
    } else {
        leaves_of_entries(entries.drop_last()) + leaves_of_all(entries.last().1)
    }
}

/// The number of keywords and source values in a sequence of nodes.
pub open spec fn leaves_of_all(nodes: Seq<Node>) -> nat
    decreases nodes,
{
    if nodes.len() == 0 {
        0
    } else {
        leaves_of_all(nodes.drop_last()) + leaves(nodes.last())
    }
}

/// Nothing is merged, dropped or added: a node is flattened to as many values as
/// it holds keywords and source values, under every prefix.
pub proof fn flatten_keeps_every_leaf(prefix: Seq<char>, node: Node)
    ensures
        flatten(prefix, node).len() == leaves(node),
    decreases node,
{
    match node {
        Node::Group(entries) => flatten_entries_keeps_every_leaf(prefix, entries),
        _ => {},
    }
}

/// The entries of a group are flattened to as many values as they hold keywords
/// and source values.
pub proof fn flatten_entries_keeps_every_leaf(
    prefix: Seq<char>,
    entries: Seq<(Seq<char>, Seq<Node>)>,
)
    ensures
        flatten_entries(prefix, entries).len() == leaves_of_entries(entries),
    decreases entries,
{
    if entries.len() > 0 {
        flatten_entries_keeps_every_leaf(prefix, entries.drop_last());
        flatten_all_keeps_every_leaf(prefix + entries.last().0, entries.last().1);
    }
}

/// A sequence of nodes is flattened to as many values as it holds keywords and
/// source values.
pub proof fn flatten_all_keeps_every_leaf(prefix: Seq<char>, nodes: Seq<Node>)
    ensures
        flatten_all(prefix, nodes).len() == leaves_of_all(nodes),
    decreases nodes,
{
    if nodes.len() > 0 {
        flatten_all_keeps_every_leaf(prefix, nodes.drop_last());
        flatten_keeps_every_leaf(prefix, nodes.last());
    }
}

/// A single node is flattened as the sequence that holds only that node.
pub proof fn flatten_all_of_one(prefix: Seq<char>, node: Node)
    ensures
        flatten_all(prefix, seq![node]) == flatten(prefix, node),
{
    assert(seq![node].drop_last() =~= Seq::<Node>::empty());
    assert(flatten_all(prefix, Seq::<Node>::empty()) == Seq::<Seq<char>>::empty());
}

/// A group of one entry is flattened as the nodes of that entry, under the prefix
/// followed by the entry's fragment: the outer prefix comes first.
pub proof fn group_of_one_extends_prefix(prefix: Seq<char>, fragment: Seq<char>, nodes: Seq<Node>)
    ensures
        flatten(prefix, Node::Group(seq![(fragment, nodes)])) == flatten_all(
            prefix + fragment,
            nodes,
        ),
{
    let entries = seq![(fragment, nodes)];
    assert(flatten_entries(prefix, Seq::<(Seq<char>, Seq<Node>)>::empty()) == Seq::<
        Seq<char>,
    >::empty());
    assert(Seq::<Seq<char>>::empty() + flatten_all(prefix + fragment, nodes) =~= flatten_all(
        prefix + fragment,
        nodes,
    ));
}

/// A source value inside a group is flattened to the prefix, the fragment and the
/// value, in that order; inside two groups, to the prefix, the outer fragment,
/// the inner fragment and the value.
pub proof fn fragments_join_outside_in(
    prefix: Seq<char>,
    outer: Seq<char>,
    inner: Seq<char>,
    value: Seq<char>,
)
    ensures
        flatten(prefix, Node::Group(seq![(outer, seq![Node::Literal(value)])])) == seq![
            prefix + outer + value,
        ],
        flatten(
            prefix,
            Node::Group(
                seq![(outer, seq![Node::Group(seq![(inner, seq![Node::Literal(value)])])])],
            ),
        ) == seq![prefix + outer + inner + value],
{
    let leaf = Node::Literal(value);
    group_of_one_extends_prefix(prefix, outer, seq![leaf]);
    flatten_all_of_one(prefix + outer, leaf);
    let middle = Node::Group(seq![(inner, seq![leaf])]);
    group_of_one_extends_prefix(prefix, outer, seq![middle]);
    flatten_all_of_one(prefix + outer, middle);
    group_of_one_extends_prefix(prefix + outer, inner, seq![leaf]);
    flatten_all_of_one(prefix + outer + inner, leaf);
}

/// A single value and the list that holds only that value stand for the same
/// sequence of directive values, and so are flattened alike under every prefix:
/// to what the value alone is flattened to.
pub proof fn single_value_is_list_of_one(single: CspDirective, list: Vec<CspDirective>)
    requires
        list@ == seq![single],
    ensures
        nodes_of(MaybeVec::Singleton(single)) == nodes_of(MaybeVec::Vector(list)),
        forall|prefix: Seq<char>| #[trigger]
            flatten_all(prefix, nodes_of(MaybeVec::Vector(list))) == flatten(prefix, single@),
        forall|name: Seq<char>| #[trigger]
            statement(name, nodes_of(MaybeVec::Vector(list))) == statement(
                name,
                nodes_of(MaybeVec::Singleton(single)),
            ),
{
    assert(nodes_of(MaybeVec::Singleton(single)) =~= nodes_of(MaybeVec::Vector(list)));
    assert forall|prefix: Seq<char>| #[trigger]
        flatten_all(prefix, nodes_of(MaybeVec::Vector(list))) == flatten(prefix, single@) by {
        flatten_all_of_one(prefix, single@);
    }
}

/// A raw value that is no sequence is read, where one value or several may stand,
/// as the sequence that holds only that value is read: to the same directive
/// values, or to the same fault, which the sequence reports one step further down.
pub proof fn raw_single_value_is_list_of_one(tree: Tree)
    requires
        !(tree is Sequence),
    ensures
        match read_values(tree) {
            Ok(nodes) => read_values(Tree::Sequence(seq![tree])) == Ok::<Seq<Node>, Fault>(nodes),
            Err(fault) => read_values(Tree::Sequence(seq![tree])) == Err::<Seq<Node>, Fault>(
                fault.under(Place::Index(0)),
            ),
        },
{
    assert(seq![tree].drop_last() =~= Seq::<Tree>::empty());
}

/// The entries that a mapping is read as stand in ascending order of their keys,
/// in whatever order they were written.
pub proof fn decoded_keys_ascend(entries: Seq<(Seq<char>, Tree)>)
    ensures
        read_entries(entries) matches Ok(group) ==> keys_ascending(group),
    decreases entries.len(),
{
    if entries.len() > 0 {
        decoded_keys_ascend(entries.drop_last());
        if let Ok(done) = read_entries(entries.drop_last()) {
            if let Ok(nodes) = read_values(entries.last().1) {
                lemma_insert_entry(done, entries.last().0, nodes);
            }
        }
    }
}

/// What a mapping is read as depends on its first entries only through what
/// they are read as.
pub proof fn read_entries_extends(
    first: Seq<(Seq<char>, Tree)>,
    second: Seq<(Seq<char>, Tree)>,
    rest: Seq<(Seq<char>, Tree)>,
)
    requires
        read_entries(first) == read_entries(second),
    ensures
        read_entries(first + rest) == read_entries(second + rest),
    decreases rest.len(),
{
    if rest.len() > 0 {
        assert((first + rest).drop_last() =~= first + rest.drop_last());
        assert((second + rest).drop_last() =~= second + rest.drop_last());
        read_entries_extends(first, second, rest.drop_last());
    }
}

/// The order in which the entries of a mapping are written does not matter: a
/// mapping that is accepted is read as the same entries when two neighbouring
/// entries change places.
pub proof fn written_order_is_irrelevant(
    before: Seq<(Seq<char>, Tree)>,
    x: (Seq<char>, Tree),
    y: (Seq<char>, Tree),
    after: Seq<(Seq<char>, Tree)>,
)
    requires
        read_entries(before + seq![x, y] + after) is Ok,
    ensures
        read_entries(before + seq![y, x] + after) == read_entries(before + seq![x, y] + after),
{
    let xy = before + seq![x, y];
    let yx = before + seq![y, x];
    assert((xy + after).take(xy.len() as int) =~= xy);
    if read_entries(xy) is Err {
        lemma_read_entries_error(xy + after, xy.len() as int);
    }
    assert(xy.drop_last() =~= before.push(x));
    assert(before.push(x).drop_last() =~= before);
    assert(yx.drop_last() =~= before.push(y));
    assert(before.push(y).drop_last() =~= before);
    assert(read_entries(before.push(x)) is Ok);
    decoded_keys_ascend(before);
    let done = read_entries(before)->Ok_0;
    let x_nodes = read_values(x.1)->Ok_0;
    let y_nodes = read_values(y.1)->Ok_0;
    lemma_insert_entry_keys(done, x.0, x_nodes, y.0);
    lemma_insert_entry_keys(done, y.0, y_nodes, x.0);
    lemma_insert_entry_commutes(done, x.0, x_nodes, y.0, y_nodes);
    assert(read_entries(before.push(y)) is Ok);
    read_entries_extends(xy, yx, after);
}

/// Two runs on the same text agree: whatever two outcomes [`compile`] may give
/// for one text, both are the same header, character for character, or both are
/// the same error.
///
/// [`compile`]: crate::policy::compile
pub proof fn same_text_same_header(
    text: Seq<char>,
    first: Result<String, DecodeError>,
    second: Result<String, DecodeError>,
)
    requires
        compiles_to(text, first),
        compiles_to(text, second),
    ensures
        first is Ok <==> second is Ok,
        first is Ok ==> first->Ok_0@ == second->Ok_0@,
        first is Err ==> first->Err_0@ == second->Err_0@,
{
}

/// No separator is taken away at the end: the header of a document that has an
/// entry ends with a semicolon and a space.
pub proof fn header_ends_with_terminator(document: Seq<(Seq<char>, Seq<Node>)>)
    requires
        document.len() > 0,
    ensures
        header(document).len() >= 2,
        header(document)[header(document).len() - 2] == ';',
        header(document)[header(document).len() - 1] == ' ',
{
}

/// A directive without values is written as its name and the terminator alone.
pub proof fn statement_without_values(name: Seq<char>)
    ensures
        statement(name, Seq::empty()) == name + terminator(),
{
    assert(name + Seq::<char>::empty() =~= name);
}

/// The header of a document is the header of its first entries followed by that
/// of the entries after them: statements come in the order of the entries, and
/// each ends with a semicolon and a space, the last one too.
pub proof fn header_keeps_order(
    first: Seq<(Seq<char>, Seq<Node>)>,
    rest: Seq<(Seq<char>, Seq<Node>)>,
)
    ensures
        header(first + rest) == header(first) + header(rest),
    decreases rest.len(),
{
    if rest.len() > 0 {
        assert((first + rest).drop_last() =~= first + rest.drop_last());
        header_keeps_order(first, rest.drop_last());
        let tail = statement(rest.last().0, rest.last().1);
        assert(header(first) + (header(rest.drop_last()) + tail) =~= (header(first) + header(
            rest.drop_last(),
        )) + tail);
    }
}

} // verus!
