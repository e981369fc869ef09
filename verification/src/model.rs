//! The directive tree: what a policy document holds once it is decoded.

use vstd::prelude::*;

verus! {

/// One value or several: a position of a document may hold a single item or a
/// list of items. Either way it is read as a sequence.
#[derive(Debug)]
pub enum MaybeVec<A> {
    Vector(Vec<A>),
    Singleton(A),
}

/// A directive value.
#[derive(Debug)]
pub enum CspDirective {
    /// The keyword `'none'`.
    CSPNone,
    /// A source value, appended as it is to the prefix gathered so far.
    Directive(String),
    /// A group: each key is a fragment that is put before every value below it.
    Prefixed(DirectiveMap),
}

/// A mapping from texts to directive values, kept in ascending order of its keys.
#[derive(Debug)]
pub struct DirectiveMap {
    pub(crate) entries: Vec<(String, MaybeVec<CspDirective>)>,
}

/// A policy document: directive names with their values.
#[derive(Debug)]
pub struct CSP {
    pub directives: DirectiveMap,
}

/// The mathematical form of a directive value.
pub enum Node {
    Keyword,
    Literal(Seq<char>),
    Group(Seq<(Seq<char>, Seq<Node>)>),
}

impl<A> MaybeVec<A> {
    /// The items, in order.
    pub open spec fn items(self) -> Seq<A> {
        match self {
            MaybeVec::Vector(v) => v@,
            MaybeVec::Singleton(a) => seq![a],
        }
    }
}

/// The mathematical form of one directive value.
pub open(crate) spec fn node_of(d: CspDirective) -> Node
    decreases d,
{
    match d {
        CspDirective::CSPNone => Node::Keyword,
        CspDirective::Directive(s) => Node::Literal(s@),
        CspDirective::Prefixed(m) => Node::Group(entries_of(m.entries@)),
    }
}

/// The mathematical form of the values at one position.
pub open spec fn nodes_of(m: MaybeVec<CspDirective>) -> Seq<Node>
    decreases m,
{
    match m {
        MaybeVec::Singleton(d) => seq![node_of(d)],
        MaybeVec::Vector(v) => Seq::new(
            v@.len(),
            |j: int|
                if 0 <= j < v@.len() {
                    node_of(v@[j])
                } else {
                    Node::Keyword
                },
        ),
    }
}

/// The mathematical form of the entries of a mapping.
pub open spec fn entries_of(entries: Seq<(String, MaybeVec<CspDirective>)>) -> Seq<
    (Seq<char>, Seq<Node>),
>
    decreases entries,
{
    Seq::new(
        entries.len(),
        |i: int|
            if 0 <= i < entries.len() {
                (entries[i].0@, nodes_of(entries[i].1))
            } else {
                (Seq::empty(), Seq::empty())
            },
    )
}

impl View for CspDirective {
    type V = Node;

    open spec fn view(&self) -> Node {
        node_of(*self)
    }
}

impl DirectiveMap {
    /// The keys stand in strictly ascending order.
    #[verifier::type_invariant]
    pub(crate) open(crate) spec fn ordered(self) -> bool {
        crate::map::keys_ascending(entries_of(self.entries@))
    }
}

impl View for DirectiveMap {
    type V = Seq<(Seq<char>, Seq<Node>)>;

    open(crate) spec fn view(&self) -> Seq<(Seq<char>, Seq<Node>)> {
        entries_of(self.entries@)
    }
}

impl View for CSP {
    type V = Seq<(Seq<char>, Seq<Node>)>;

    open spec fn view(&self) -> Seq<(Seq<char>, Seq<Node>)> {
        self.directives@
    }
}

impl<A> MaybeVec<A> {
    /// The number of items.
    pub fn len(&self) -> (n: usize)
        ensures
            n == self.items().len(),
    {
        match self {
            MaybeVec::Vector(v) => v.len(),
            MaybeVec::Singleton(_) => 1,
        }
    }

    /// The item at `index`.
    pub fn get(&self, index: usize) -> (item: &A)
        requires
            index < self.items().len(),
        ensures
            *item == self.items()[index as int],
    {
        match self {
            MaybeVec::Vector(v) => &v[index],
            MaybeVec::Singleton(a) => a,
        }
    }

    /// The items as a vector, in order.
    pub fn into_vec(self) -> (v: Vec<A>)
        ensures
            v@ == self.items(),
    {
        match self {
            MaybeVec::Vector(v) => v,
            MaybeVec::Singleton(a) => {
                let mut v: Vec<A> = Vec::new();
                v.push(a);
                v
            },
        }
    }

    /// An item of a container is smaller than the container.
    pub proof fn lemma_item_decreases(self, index: int)
        requires
            0 <= index < self.items().len(),
        ensures
            decreases_to!(self => self.items()[index]),
    {
        match self {
            MaybeVec::Vector(v) => {
            },
            MaybeVec::Singleton(a) => {},
        }
    }
}

impl<A> From<MaybeVec<A>> for Vec<A> {
    /// The items as a vector, in order.
    fn from(values: MaybeVec<A>) -> (v: Vec<A>)
        ensures
            v@ == values.items(),
    {
        values.into_vec()
    }
}

/// What the conversion gives is stated by the `ensures` of `from`, over the view
/// of the vector; no vector is named here.
impl<A> vstd::std_specs::convert::FromSpecImpl<MaybeVec<A>> for Vec<A> {
    open spec fn obeys_from_spec() -> bool {
        false
    }

    open spec fn from_spec(values: MaybeVec<A>) -> Vec<A> {
        arbitrary()
    }
}

/// Reading a position as a sequence gives the forms of its items, in order.
pub proof fn lemma_nodes_of(m: MaybeVec<CspDirective>)
    ensures
        nodes_of(m).len() == m.items().len(),
        forall|j: int| 0 <= j < m.items().len() ==> #[trigger] nodes_of(m)[j] == node_of(m.items()[j]),
{
}

} // verus!
