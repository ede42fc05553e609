//! The table that pairs entities of a source container with entities of a
//! destination container.

use crate::type_key::EntityId;
use std::collections::HashMap;
use vstd::prelude::*;

verus! {

broadcast use vstd::std_specs::hash::group_hash_axioms;

/// The table that pairs the first `n` entries of `sources` with the entries
/// of `destinations` at the same positions. Where a source occurs more than
/// once, its last pairing stands.
pub open spec fn paired(sources: Seq<EntityId>, destinations: Seq<EntityId>, n: nat) -> Map<
    EntityId,
    EntityId,
>
    decreases n,
{
    if n == 0 {
        Map::empty()
    } else {
        paired(sources, destinations, (n - 1) as nat).insert(sources[n - 1], destinations[n - 1])
    }
}

/// The smaller of two lengths.
pub open spec fn shorter(a: nat, b: nat) -> nat {
    if a <= b {
        a
    } else {
        b
    }
}

/// A mapping from entities of a source container to entities of a
/// destination container.
///
/// The caller owns the table. A merge reads it to find the destination of a
/// source entity and adds an entry for each source entity that had none; no
/// entry is ever removed.
pub struct EntityRemapTable {
    map: HashMap<EntityId, EntityId>,
}

impl View for EntityRemapTable {
    type V = Map<EntityId, EntityId>;

    closed spec fn view(&self) -> Map<EntityId, EntityId> {
        self.map@
    }
}

impl EntityRemapTable {
    /// An empty table.
    pub fn new() -> (table: EntityRemapTable)
        ensures
            table@ == Map::<EntityId, EntityId>::empty(),
    {
        EntityRemapTable { map: HashMap::new() }
    }

    /// The number of entries.
    pub fn len(&self) -> (count: usize)
        ensures
            count == self@.len(),
    {
        self.map.len()
    }

    /// Whether `source` has an entry.
    pub fn contains(&self, source: EntityId) -> (present: bool)
        ensures
            present == self@.contains_key(source),
    {
        self.map.contains_key(&source)
    }

    /// The destination entity of `source`, if the table has an entry for it.
    pub fn get(&self, source: EntityId) -> (destination: Option<EntityId>)
        ensures
            destination == (if self@.contains_key(source) {
                Some(self@[source])
            } else {
                None
            }),
    {
        match self.map.get(&source) {
            Some(destination) => Some(*destination),
            None => None,
        }
    }

    /// Sets the destination entity of `source`.
    pub fn insert(&mut self, source: EntityId, destination: EntityId)
        ensures
            final(self)@ == old(self)@.insert(source, destination),
    {
        self.map.insert(source, destination);
    }

    /// The table that maps `sources[i]` to `destinations[i]` for every
    /// position that both lists have.
    pub fn from_pairs(sources: &Vec<EntityId>, destinations: &Vec<EntityId>) -> (table:
        EntityRemapTable)
        ensures
            table@ == paired(
                sources@,
                destinations@,
                shorter(sources@.len(), destinations@.len()),
            ),
    {
        let mut table = EntityRemapTable::new();
        let mut i: usize = 0;
        while i < sources.len() && i < destinations.len()
            invariant
                i <= sources.len(),
                i <= destinations.len(),
                table@ == paired(sources@, destinations@, i as nat),
            decreases sources.len() - i,
        {
            table.insert(sources[i], destinations[i]);
            i += 1;
        }
        table
    }
}

/// Pairing lists position by position gives every paired source an entry,
/// and where no source occurs twice, entry `i` maps `sources[i]` to
/// `destinations[i]`.
pub proof fn lemma_paired(sources: Seq<EntityId>, destinations: Seq<EntityId>, n: nat)
    requires
        n <= sources.len(),
        n <= destinations.len(),
    ensures
        forall|k: EntityId|
            paired(sources, destinations, n).contains_key(k) <==> sources.take(n as int).contains(k),
        sources.no_duplicates() ==> forall|i: int|
            0 <= i < n ==> paired(sources, destinations, n)[#[trigger] sources[i]]
                == destinations[i],
    decreases n,
{
    if n > 0 {
        let m = (n - 1) as nat;
        lemma_paired(sources, destinations, m);
        assert forall|k: EntityId|
            paired(sources, destinations, n).contains_key(k) <==> sources.take(n as int).contains(
                k,
            ) by {
            if sources.take(m as int).contains(k) {
                let p = choose|p: int| 0 <= p < m && sources.take(m as int)[p] == k;
                assert(sources.take(n as int)[p] == k);
            }
            if sources.take(n as int).contains(k) {
                let p = choose|p: int| 0 <= p < n && sources.take(n as int)[p] == k;
                if p < m {
                    assert(sources.take(m as int)[p] == k);
                }
            }
            assert(sources.take(n as int)[n - 1] == sources[n - 1]);
        }
    }
}

} // verus!
