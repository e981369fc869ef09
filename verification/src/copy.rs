//! Copies of directive trees: `Clone` for the types of the model.

use crate::model::{entries_of, node_of, nodes_of, CspDirective, DirectiveMap, MaybeVec, CSP};
use vstd::prelude::*;

verus! {

/// A copy of one directive value.
pub fn copy_directive(directive: &CspDirective) -> (copy: CspDirective)
    ensures
        copy@ == directive@,
    decreases directive, 0nat,
{
    match directive {
        CspDirective::CSPNone => CspDirective::CSPNone,
        CspDirective::Directive(value) => CspDirective::Directive(value.clone()),
        CspDirective::Prefixed(directives) => CspDirective::Prefixed(copy_map(directives)),
    }
}

/// A copy of the values at one position: a single value stays single, a list
/// stays a list.
pub fn copy_values(values: &MaybeVec<CspDirective>) -> (copy: MaybeVec<CspDirective>)
    ensures
        nodes_of(copy) == nodes_of(*values),
        copy is Singleton <==> values is Singleton,
    decreases values, 0nat,
{
    match values {
        MaybeVec::Singleton(directive) => MaybeVec::Singleton(copy_directive(directive)),
        MaybeVec::Vector(items) => {
            let mut copies: Vec<CspDirective> = Vec::new();
            let mut i: usize = 0;
            while i < items.len()
                invariant
                    i <= items.len(),
                    *values == MaybeVec::Vector(*items),
                    nodes_of(MaybeVec::Vector(copies)) =~= nodes_of(*values).take(i as int),
                decreases items.len() - i,
            {
                let copy = copy_directive(&items[i]);
                copies.push(copy);
                assert(nodes_of(*values).take(i + 1) =~= nodes_of(*values).take(i as int).push(
                    node_of(items[i as int]),
                ));
                i = i + 1;
            }
            MaybeVec::Vector(copies)
        },
    }
}

/// A copy of a mapping.
pub fn copy_map(map: &DirectiveMap) -> (copy: DirectiveMap)
    ensures
        copy@ == map@,
    decreases map, 0nat,
{
    proof {
        use_type_invariant(map);
    }
    let mut copies: Vec<(String, MaybeVec<CspDirective>)> = Vec::new();
    let mut i: usize = 0;
    while i < map.entries.len()
        invariant
            i <= map.entries.len(),
            entries_of(copies@) =~= map@.take(i as int),
        decreases map.entries.len() - i,
    {
        let key = map.entries[i].0.clone();
        let values = copy_values(&map.entries[i].1);
        copies.push((key, values));
        assert(map@.take(i + 1) =~= map@.take(i as int).push(map@[i as int]));
        i = i + 1;
    }
    DirectiveMap { entries: copies }
}

impl Clone for CspDirective {
    fn clone(&self) -> (copy: Self)
        ensures
            copy@ == self@,
    {
        copy_directive(self)
    }
}

impl Clone for DirectiveMap {
    fn clone(&self) -> (copy: Self)
        ensures
            copy@ == self@,
    {
        copy_map(self)
    }
}

impl Clone for CSP {
    fn clone(&self) -> (copy: Self)
        ensures
            copy@ == self@,
    {
        CSP { directives: copy_map(&self.directives) }
    }
}

impl<A: Clone> Clone for MaybeVec<A> {
    fn clone(&self) -> (copy: Self)
        ensures
            copy.items().len() == self.items().len(),
            forall|i: int|
                0 <= i < self.items().len() ==> cloned::<A>(
                    #[trigger] self.items()[i],
                    copy.items()[i],
                ),
            copy is Singleton <==> self is Singleton,
    {
        match self {
            MaybeVec::Vector(items) => MaybeVec::Vector(items.clone()),
            MaybeVec::Singleton(item) => MaybeVec::Singleton(item.clone()),
        }
    }
}

} // verus!
