//! Mappings kept in ascending order of their keys: the model of such a mapping as a
//! sequence of entries, and the operations of [`DirectiveMap`].

use crate::model::{entries_of, nodes_of, CspDirective, DirectiveMap, MaybeVec, Node};
use crate::text::{
    lemma_text_lt_connected, lemma_text_lt_irreflexive, lemma_text_lt_transitive, text_equal,
    text_less, text_lt,
};
use vstd::prelude::*;

verus! {

/// Each key comes strictly before every later key.
pub open spec fn keys_ascending<V>(entries: Seq<(Seq<char>, V)>) -> bool {
    forall|i: int, j: int|
        0 <= i < j < entries.len() ==> text_lt(#[trigger] entries[i].0, #[trigger] entries[j].0)
}

/// Some entry has the key `key`.
pub open spec fn has_key<V>(entries: Seq<(Seq<char>, V)>, key: Seq<char>) -> bool {
    exists|i: int| 0 <= i < entries.len() && #[trigger] entries[i].0 == key
}

/// The number of leading entries whose key comes before `key`. In an ascending
/// sequence this is the place where `key` stands or would stand.
pub open spec fn rank<V>(entries: Seq<(Seq<char>, V)>, key: Seq<char>) -> nat
    decreases entries.len(),
{
    if entries.len() == 0 || !text_lt(entries[0].0, key) {
        0
    } else {
        1 + rank(entries.skip(1), key)
    }
}

/// The value under `key` in an ascending sequence of entries.
pub open spec fn lookup<V>(entries: Seq<(Seq<char>, V)>, key: Seq<char>) -> Option<V> {
    let p = rank(entries, key) as int;
    if p < entries.len() && entries[p].0 == key {
        Some(entries[p].1)
    } else {
        None
    }
}

/// An ascending sequence of entries after `value` is put under `key`: the entry
/// with that key is replaced, or a new entry is put in where the order has it.
pub open spec fn insert_entry<V>(entries: Seq<(Seq<char>, V)>, key: Seq<char>, value: V) -> Seq<
    (Seq<char>, V),
> {
    let p = rank(entries, key) as int;
    if p < entries.len() && entries[p].0 == key {
        entries.update(p, (key, value))
    } else {
        entries.insert(p, (key, value))
    }
}

/// The rank of a key is a place in the sequence or its end; every entry before
/// that place has a key that comes before `key`, and the entry at that place, if
/// there is one, has not.
pub proof fn lemma_rank<V>(entries: Seq<(Seq<char>, V)>, key: Seq<char>)
    ensures
        rank(entries, key) <= entries.len(),
        forall|i: int| 0 <= i < rank(entries, key) ==> text_lt(#[trigger] entries[i].0, key),
        rank(entries, key) < entries.len() ==> !text_lt(entries[rank(entries, key) as int].0, key),
    decreases entries.len(),
{
    if entries.len() > 0 && text_lt(entries[0].0, key) {
        let rest = entries.skip(1);
        lemma_rank(rest, key);
        assert forall|i: int| 0 <= i < rank(entries, key) implies text_lt(
            #[trigger] entries[i].0,
            key,
        ) by {
            if i > 0 {
                assert(entries[i] == rest[i - 1]);
            }
        }
    }
}

/// In an ascending sequence a key is found by its rank, and nowhere else.
pub proof fn lemma_lookup_finds<V>(entries: Seq<(Seq<char>, V)>, key: Seq<char>)
    requires
        keys_ascending(entries),
    ensures
        has_key(entries, key) <==> lookup(entries, key) is Some,
        forall|i: int|
            0 <= i < entries.len() && #[trigger] entries[i].0 == key ==> i == rank(entries, key)
                && lookup(entries, key) == Some(entries[i].1),
{
    lemma_rank(entries, key);
    lemma_text_lt_irreflexive(key);
}

/// Putting a value under a key keeps the keys ascending; the key is then found
/// with that value, and every other key with the value it had.
pub proof fn lemma_insert_entry<V>(entries: Seq<(Seq<char>, V)>, key: Seq<char>, value: V)
    requires
        keys_ascending(entries),
    ensures
        keys_ascending(insert_entry(entries, key, value)),
        lookup(insert_entry(entries, key, value), key) == Some(value),
        forall|other: Seq<char>|
            other != key ==> #[trigger] lookup(insert_entry(entries, key, value), other)
                == lookup(entries, other),
        insert_entry(entries, key, value).len() == entries.len() + (if has_key(entries, key) {
            0int
        } else {
            1int
        }),
{
    let after = insert_entry(entries, key, value);
    let p = rank(entries, key) as int;
    lemma_rank(entries, key);
    lemma_lookup_finds(entries, key);
    let replaces = p < entries.len() && entries[p].0 == key;
    if !replaces {
        assert forall|j: int| p <= j < entries.len() implies text_lt(key, #[trigger] entries[j].0) by {
            lemma_text_lt_connected(entries[p].0, key);
            if j > p {
                lemma_text_lt_transitive(key, entries[p].0, entries[j].0);
            }
        }
    }
    assert(keys_ascending(after));
    lemma_lookup_finds(after, key);
    assert(after[p].0 == key && after[p].1 == value);
    assert forall|other: Seq<char>| other != key implies #[trigger] lookup(after, other)
        == lookup(entries, other) by {
        lemma_lookup_finds(after, other);
        lemma_lookup_finds(entries, other);
        if lookup(entries, other) is Some {
            let q = rank(entries, other) as int;
            let moved = if replaces || q < p {
                q
            } else {
                q + 1
            };
            assert(after[moved].0 == other);
        }
    }
}

/// An ascending sequence of entries is determined by what is found under each
/// key: two such sequences in which every key leads to the same value are equal.
pub proof fn lemma_ascending_determined<V>(first: Seq<(Seq<char>, V)>, second: Seq<(Seq<char>, V)>)
    requires
        keys_ascending(first),
        keys_ascending(second),
        forall|key: Seq<char>| lookup(first, key) == lookup(second, key),
    ensures
        first == second,
    decreases first.len(),
{
    if first.len() == 0 {
        if second.len() > 0 {
            lemma_lookup_finds(second, second[0].0);
            lemma_lookup_finds(first, second[0].0);
        }
    } else {
        let top = first.last().0;
        let other = second.last().0;
        lemma_lookup_finds(first, top);
        lemma_lookup_finds(second, top);
        lemma_lookup_finds(first, other);
        lemma_lookup_finds(second, other);
        if top != other {
            lemma_text_lt_transitive(top, other, top);
            lemma_text_lt_irreflexive(top);
        }
        let f = first.drop_last();
        let g = second.drop_last();
        assert forall|key: Seq<char>| lookup(f, key) == lookup(g, key) by {
            lemma_drop_last_lookup(first, key);
            lemma_drop_last_lookup(second, key);
        }
        lemma_ascending_determined(f, g);
        assert(second =~= g.push(second.last()));
    }
}

/// Without its last entry, an ascending sequence leads every key but the last one
/// to the value it led to before, and the last key to nothing.
pub proof fn lemma_drop_last_lookup<V>(entries: Seq<(Seq<char>, V)>, key: Seq<char>)
    requires
        entries.len() > 0,
        keys_ascending(entries),
    ensures
        keys_ascending(entries.drop_last()),
        lookup(entries.drop_last(), key) == if key == entries.last().0 {
            None
        } else {
            lookup(entries, key)
        },
{
    let front = entries.drop_last();
    assert(keys_ascending(front));
    lemma_lookup_finds(front, key);
    lemma_lookup_finds(entries, key);
    lemma_text_lt_irreflexive(key);
    if !has_key(front, key) && has_key(entries, key) {
        let i = choose|i: int| 0 <= i < entries.len() && #[trigger] entries[i].0 == key;
        if i < front.len() {
            assert(front[i].0 == key);
        }
    }
}

/// After a value is put under a key, the sequence has that key and the keys it
/// had before, and no other.
pub proof fn lemma_insert_entry_keys<V>(
    entries: Seq<(Seq<char>, V)>,
    key: Seq<char>,
    value: V,
    other: Seq<char>,
)
    requires
        keys_ascending(entries),
    ensures
        has_key(insert_entry(entries, key, value), other) <==> other == key || has_key(
            entries,
            other,
        ),
{
    lemma_insert_entry(entries, key, value);
    lemma_lookup_finds(insert_entry(entries, key, value), other);
    lemma_lookup_finds(entries, other);
}

/// Values put under two different keys may be put in either order.
pub proof fn lemma_insert_entry_commutes<V>(
    entries: Seq<(Seq<char>, V)>,
    key: Seq<char>,
    value: V,
    other_key: Seq<char>,
    other_value: V,
)
    requires
        keys_ascending(entries),
        key != other_key,
    ensures
        insert_entry(insert_entry(entries, key, value), other_key, other_value) == insert_entry(
            insert_entry(entries, other_key, other_value),
            key,
            value,
        ),
{
    let a = insert_entry(entries, key, value);
    let b = insert_entry(entries, other_key, other_value);
    lemma_insert_entry(entries, key, value);
    lemma_insert_entry(entries, other_key, other_value);
    lemma_insert_entry(a, other_key, other_value);
    lemma_insert_entry(b, key, value);
    let ab = insert_entry(a, other_key, other_value);
    let ba = insert_entry(b, key, value);
    lemma_ascending_determined(ab, ba);
}

/// The rank of `key` among the entries of a vector.
fn rank_in(entries: &Vec<(String, MaybeVec<CspDirective>)>, key: &str) -> (p: usize)
    ensures
        p == rank(entries_of(entries@), key@),
        p <= entries.len(),
{
    let ghost all = entries_of(entries@);
    let n: usize = entries.len();
    let mut p: usize = 0;
    assert(all.skip(0) =~= all);
    while p < n && text_less(entries[p].0.as_str(), key)
        invariant
            n == entries.len(),
            all == entries_of(entries@),
            p <= n,
            rank(all, key@) == p + rank(all.skip(p as int), key@),
        decreases n - p,
    {
        assert(all.skip(p as int).skip(1) =~= all.skip(p + 1));
        p = p + 1;
    }
    p
}

impl DirectiveMap {
    /// An empty mapping.
    pub fn new() -> (map: DirectiveMap)
        ensures
            map@ == Seq::<(Seq<char>, Seq<Node>)>::empty(),
    {
        DirectiveMap { entries: Vec::new() }
    }

    /// The number of entries.
    pub fn len(&self) -> (n: usize)
        ensures
            n == self@.len(),
            keys_ascending(self@),
    {
        proof {
            use_type_invariant(self);
        }
        self.entries.len()
    }

    /// The entry at `index`, counted in ascending order of the keys.
    pub fn entry(&self, index: usize) -> (entry: (&String, &MaybeVec<CspDirective>))
        requires
            index < self@.len(),
        ensures
            (entry.0@, nodes_of(*entry.1)) == self@[index as int],
    {
        let pair = &self.entries[index];
        (&pair.0, &pair.1)
    }

    /// The value under `key`, if the mapping has that key.
    pub fn get(&self, key: &str) -> (found: Option<&MaybeVec<CspDirective>>)
        ensures
            match found {
                Some(value) => lookup(self@, key@) == Some(nodes_of(*value)),
                None => lookup(self@, key@) is None,
            },
            found is Some <==> has_key(self@, key@),
    {
        proof {
            use_type_invariant(self);
            lemma_lookup_finds(self@, key@);
        }
        let p: usize = rank_in(&self.entries, key);
        if p < self.entries.len() && text_equal(self.entries[p].0.as_str(), key) {
            Some(&self.entries[p].1)
        } else {
            None
        }
    }

    /// Tells whether the mapping has the key `key`.
    pub fn contains_key(&self, key: &str) -> (found: bool)
        ensures
            found == has_key(self@, key@),
    {
        self.get(key).is_some()
    }

    /// Puts `value` under `key`, and hands back the value that stood there before.
    pub fn insert(&mut self, key: String, value: MaybeVec<CspDirective>) -> (previous: Option<
        MaybeVec<CspDirective>,
    >)
        ensures
            final(self)@ == insert_entry(old(self)@, key@, nodes_of(value)),
            keys_ascending(final(self)@),
            match previous {
                Some(before) => lookup(old(self)@, key@) == Some(nodes_of(before)),
                None => lookup(old(self)@, key@) is None,
            },
    {
        proof {
            use_type_invariant(&*self);
            lemma_insert_entry(self@, key@, nodes_of(value));
        }
        let ghost before = self@;
        let mut entries: Vec<(String, MaybeVec<CspDirective>)> = Vec::new();
        std::mem::swap(&mut entries, &mut self.entries);
        let p: usize = rank_in(&entries, key.as_str());
        if p < entries.len() && text_equal(entries[p].0.as_str(), key.as_str()) {
            let replaced = entries.remove(p);
            entries.insert(p, (key, value));
            assert(entries_of(entries@) =~= insert_entry(before, key@, nodes_of(value)));
            self.entries = entries;
            Some(replaced.1)
        } else {
            entries.insert(p, (key, value));
            assert(entries_of(entries@) =~= insert_entry(before, key@, nodes_of(value)));
            self.entries = entries;
            None
        }
    }
}

} // verus!
