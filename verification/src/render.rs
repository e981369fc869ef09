//! The header text of a policy document.

use crate::flatten::{flatten_all, flatten_values, texts};
use crate::model::{nodes_of, CspDirective, MaybeVec, Node, CSP};
use vstd::prelude::*;
use vstd::string::*;

verus! {

/// What ends a directive statement: a semicolon and a space.
pub open spec fn terminator() -> Seq<char> {
    seq![';', ' ']
}

/// The source values of a statement, each with a space before it.
pub open spec fn spaced(values: Seq<Seq<char>>) -> Seq<char>
    decreases values.len(),
{
    if values.len() == 0 {
        Seq::empty()
    } else {
        spaced(values.drop_last()) + seq![' '] + values.last()
    }
}

/// One directive statement: the name, the flattened values of `nodes`, each after
/// a space, and the terminator.
pub open spec fn statement(name: Seq<char>, nodes: Seq<Node>) -> Seq<char> {
    name + spaced(flatten_all(Seq::empty(), nodes)) + terminator()
}

/// The header text of a document: the statements of its entries, in order.
pub open spec fn header(document: Seq<(Seq<char>, Seq<Node>)>) -> Seq<char>
    decreases document.len(),
{
    if document.len() == 0 {
        Seq::empty()
    } else {
        header(document.drop_last()) + statement(document.last().0, document.last().1)
    }
}

/// Appends one directive statement to `out`.
pub fn write_statement(out: &mut String, name: &str, values: &MaybeVec<CspDirective>)
    ensures
        final(out)@ == old(out)@ + statement(name@, nodes_of(*values)),
{
    let ghost start = out@;
    let flattened = flatten_values("", values);
    let ghost all = texts(flattened@);
    proof {
        reveal_strlit("");
        reveal_strlit(" ");
        reveal_strlit("; ");
        assert(""@ =~= Seq::<char>::empty());
    }
    out.append(name);
    let mut k: usize = 0;
    while k < flattened.len()
        invariant
            k <= flattened.len(),
            all == texts(flattened@),
            " "@ == seq![' '],
            out@ == start + name@ + spaced(all.take(k as int)),
        decreases flattened.len() - k,
    {
        out.append(" ");
        out.append(flattened[k].as_str());
        assert(all.take(k + 1).drop_last() =~= all.take(k as int));
        k = k + 1;
    }
    assert(all.take(k as int) =~= all);
    out.append("; ");
}

/// The header text of a policy document.
pub fn render(csp: &CSP) -> (out: String)
    ensures
        out@ == header(csp@),
{
    let mut out = String::new();
    let count: usize = csp.directives.len();
    let ghost document = csp@;
    let mut i: usize = 0;
    while i < count
        invariant
            i <= count,
            count == document.len(),
            document == csp@,
            out@ == header(document.take(i as int)),
        decreases count - i,
    {
        let entry = csp.directives.entry(i);
        write_statement(&mut out, entry.0.as_str(), entry.1);
        assert(document.take(i + 1).drop_last() =~= document.take(i as int));
        i = i + 1;
    }
    assert(document.take(i as int) =~= document);
    out
}

} // verus!
