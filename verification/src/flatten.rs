//! The flattening engine: from a directive tree to the list of complete source values.

use crate::model::{lemma_nodes_of, nodes_of, CspDirective, MaybeVec, Node};
use crate::text::join;
use vstd::prelude::*;

verus! {

/// The text of the keyword that stands for "no source at all".
pub open spec fn none_keyword() -> Seq<char> {
    seq!['\'', 'n', 'o', 'n', 'e', '\'']
}

/// The views of a sequence of strings.
pub open spec fn texts(strings: Seq<String>) -> Seq<Seq<char>> {
    strings.map_values(|s: String| s@)
}

/// The source values that `node` stands for under `prefix`, in order.
pub open spec fn flatten(prefix: Seq<char>, node: Node) -> Seq<Seq<char>>
    decreases node,
{
    match node {
        Node::Keyword => seq![none_keyword()],
        Node::Literal(value) => seq![prefix + value],
        Node::Group(entries) => flatten_entries(prefix, entries),
    }
}

/// The source values of a group's entries: entry after entry, each fragment
/// appended to `prefix`.
pub open spec fn flatten_entries(prefix: Seq<char>, entries: Seq<(Seq<char>, Seq<Node>)>) -> Seq<
    Seq<char>,
>
    decreases entries,
{
    if entries.len() == 0 {
        Seq::empty()
    } else {
        flatten_entries(prefix, entries.drop_last()) + flatten_all(
            prefix + entries.last().0,
            entries.last().1,
        )
    }
}

/// The source values of a sequence of nodes under one prefix: node after node.
pub open spec fn flatten_all(prefix: Seq<char>, nodes: Seq<Node>) -> Seq<Seq<char>>
    decreases nodes,
{
    if nodes.len() == 0 {
        Seq::empty()
    } else {
        flatten_all(prefix, nodes.drop_last()) + flatten(prefix, nodes.last())
    }
}

/// The keyword `'none'` as a string.
fn none_text() -> (keyword: String)
    ensures
        keyword@ == none_keyword(),
{
    proof {
        reveal_strlit("'none'");
    }
    "'none'".to_owned()
}

/// Flattens one directive value under `prefix`.
pub fn flatten_csp(prefix: &str, directive: &CspDirective) -> (flattened: Vec<String>)
    ensures
        texts(flattened@) == flatten(prefix@, directive@),
    decreases directive, 0nat,
{
    match directive {
        CspDirective::Directive(value) => {
            let mut res: Vec<String> = Vec::new();
            res.push(join(prefix, value.as_str()));
            res
        },
        CspDirective::Prefixed(directives) => {
            let mut res: Vec<String> = Vec::new();
            let ghost entries = directives@;
            let mut i: usize = 0;
            while i < directives.entries.len()
                invariant
                    i <= directives.entries.len(),
                    entries == directives@,
                    *directive == CspDirective::Prefixed(*directives),
                    texts(res@) == flatten_entries(prefix@, entries.take(i as int)),
                decreases directives.entries.len() - i,
            {
                let entry = &directives.entries[i];
                let inner = join(prefix, entry.0.as_str());
                proof {
                    assert(decreases_to!(*directive => directive->Prefixed_0));
                }
                let mut part = flatten_values(inner.as_str(), &entry.1);
                res.append(&mut part);
                assert(entries.take(i + 1).drop_last() =~= entries.take(i as int));
                i = i + 1;
            }
            assert(entries.take(i as int) =~= entries);
            res
        },
        CspDirective::CSPNone => {
            let mut res: Vec<String> = Vec::new();
            res.push(none_text());
            res
        },
    }
}

/// Flattens the values at one position under `prefix`, one after the other.
pub fn flatten_values(prefix: &str, values: &MaybeVec<CspDirective>) -> (flattened: Vec<String>)
    ensures
        texts(flattened@) == flatten_all(prefix@, nodes_of(*values)),
    decreases values, 1nat,
{
    let mut res: Vec<String> = Vec::new();
    let count: usize = values.len();
    let ghost nodes = nodes_of(*values);
    proof {
        lemma_nodes_of(*values);
    }
    let mut j: usize = 0;
    while j < count
        invariant
            j <= count,
            count == nodes.len(),
            count == values.items().len(),
            nodes == nodes_of(*values),
            texts(res@) == flatten_all(prefix@, nodes.take(j as int)),
        decreases count - j,
    {
        let sub = values.get(j);
        proof {
            lemma_nodes_of(*values);
            values.lemma_item_decreases(j as int);
        }
        let mut part = flatten_csp(prefix, sub);
        res.append(&mut part);
        assert(nodes.take(j + 1).drop_last() =~= nodes.take(j as int));
        j = j + 1;
    }
    assert(nodes.take(count as int) =~= nodes);
    res
}

} // verus!
