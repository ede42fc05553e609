//! The in-memory entity container.

use crate::type_key::{EntityId, TypeKey};
use std::collections::HashMap;
use vstd::prelude::*;

verus! {

broadcast use vstd::std_specs::hash::group_hash_axioms;

/// What a container holds, as mathematics.
///
/// `entities` lists the entities in the container's own order, `components`
/// gives the bytes of each component by entity and type key, and `next_id` is
/// the identifier that the next allocation hands out.
#[verifier::ext_equal]
pub struct WorldView {
    pub entities: Seq<EntityId>,
    pub components: Map<(EntityId, TypeKey), Seq<u8>>,
    pub next_id: nat,
}

impl WorldView {
    /// No entity is listed twice, every listed entity was allocated, and
    /// every component belongs to a listed entity.
    pub open spec fn wf(self) -> bool {
        &&& self.entities.no_duplicates()
        &&& forall|i: int| 0 <= i < self.entities.len() ==> (#[trigger] self.entities[i]) < self.next_id
        &&& forall|e: EntityId, k: TypeKey| #[trigger]
            self.components.contains_key((e, k)) ==> self.entities.contains(e)
    }

    /// Whether `entity` holds a component of type `key`.
    pub open spec fn has(self, entity: EntityId, key: TypeKey) -> bool {
        self.components.contains_key((entity, key))
    }

    /// The entities among the first `n` that hold a component of type `key`,
    /// in container order.
    pub open spec fn holders_upto(self, key: TypeKey, n: nat) -> Seq<EntityId>
        decreases n,
    {
        if n == 0 {
            Seq::empty()
        } else {
            let earlier = self.holders_upto(key, (n - 1) as nat);
            let entity = self.entities[n - 1];
            if self.has(entity, key) {
                earlier.push(entity)
            } else {
                earlier
            }
        }
    }

    /// All entities that hold a component of type `key`, in container order.
    pub open spec fn holders(self, key: TypeKey) -> Seq<EntityId> {
        self.holders_upto(key, self.entities.len())
    }

    /// The component bytes of type `key`, one per holder, in container order.
    pub open spec fn column(self, key: TypeKey) -> Seq<Seq<u8>> {
        let holders = self.holders(key);
        Seq::new(holders.len(), |i: int| self.components[(holders[i], key)])
    }

    /// Every holder among the first `n` entities is one of those entities and
    /// holds the component, and every such entity is a holder.
    pub proof fn lemma_holders_upto(self, key: TypeKey, n: nat)
        requires
            n <= self.entities.len(),
        ensures
            self.holders_upto(key, n).len() <= n,
            forall|i: int|
                0 <= i < self.holders_upto(key, n).len() ==> {
                    let e = #[trigger] self.holders_upto(key, n)[i];
                    self.has(e, key) && self.entities.take(n as int).contains(e)
                },
            forall|j: int|
                0 <= j < n && self.has(self.entities[j], key) ==> self.holders_upto(
                    key,
                    n,
                ).contains(#[trigger] self.entities[j]),
            self.entities.no_duplicates() ==> self.holders_upto(key, n).no_duplicates(),
        decreases n,
    {
        if n > 0 {
            let m = (n - 1) as nat;
            self.lemma_holders_upto(key, m);
            let earlier = self.holders_upto(key, m);
            let entity = self.entities[n - 1];
            let now = self.holders_upto(key, n);
            assert(self.entities.take(n as int)[n - 1] == entity);
            assert forall|i: int| 0 <= i < now.len() implies {
                let e = #[trigger] now[i];
                self.has(e, key) && self.entities.take(n as int).contains(e)
            } by {
                let e = now[i];
                if i < earlier.len() {
                    assert(e == earlier[i]);
                    let p = choose|p: int|
                        0 <= p < self.entities.take(m as int).len() && self.entities.take(
                            m as int,
                        )[p] == e;
                    assert(self.entities.take(n as int)[p] == e);
                } else {
                    assert(e == entity);
                }
            }
            assert forall|j: int| 0 <= j < n && self.has(self.entities[j], key) implies now.contains(
                #[trigger] self.entities[j],
            ) by {
                if j < n - 1 {
                    let p = choose|p: int| 0 <= p < earlier.len() && earlier[p] == self.entities[j];
                    assert(now[p] == self.entities[j]);
                } else {
                    assert(now[now.len() - 1] == entity);
                }
            }
            if self.entities.no_duplicates() && self.has(entity, key) {
                assert forall|a: int, b: int| 0 <= a < now.len() && 0 <= b < now.len() && a != b implies now[a]
                    != now[b] by {
                    if a == earlier.len() || b == earlier.len() {
                        let other = if a == earlier.len() {
                            b
                        } else {
                            a
                        };
                        let p = choose|p: int|
                            0 <= p < self.entities.take(m as int).len() && self.entities.take(
                                m as int,
                            )[p] == earlier[other];
                        assert(self.entities[p] == earlier[other]);
                    }
                }
            }
        }
    }

    /// The holders of a type are exactly the listed entities that hold it,
    /// each once where no entity is listed twice.
    pub proof fn lemma_holders(self, key: TypeKey)
        ensures
            forall|i: int|
                0 <= i < self.holders(key).len() ==> {
                    let e = #[trigger] self.holders(key)[i];
                    self.has(e, key) && self.entities.contains(e)
                },
            forall|j: int|
                0 <= j < self.entities.len() && self.has(self.entities[j], key)
                    ==> self.holders(key).contains(#[trigger] self.entities[j]),
            self.entities.no_duplicates() ==> self.holders(key).no_duplicates(),
    {
        self.lemma_holders_upto(key, self.entities.len());
        assert(self.entities.take(self.entities.len() as int) =~= self.entities);
    }
}

/// An in-memory entity container.
///
/// A container lists its entities in a fixed order, hands out fresh entity
/// identifiers, and stores for each entity at most one component per type
/// key, as bytes.
pub struct World {
    order: Vec<EntityId>,
    store: HashMap<EntityId, HashMap<u128, Vec<u8>>>,
    next_id: u64,
}

impl View for World {
    type V = WorldView;

    closed spec fn view(&self) -> WorldView {
        WorldView {
            entities: self.order@,
            components: Map::new(
                |p: (EntityId, TypeKey)|
                    self.store@.contains_key(p.0) && self.store@[p.0]@.contains_key(p.1.value),
                |p: (EntityId, TypeKey)| self.store@[p.0]@[p.1.value]@,
            ),
            next_id: self.next_id as nat,
        }
    }
}

/// A copy of a byte buffer.
pub fn copy_bytes(bytes: &Vec<u8>) -> (copy: Vec<u8>)
    ensures
        copy@ == bytes@,
{
    let mut copy: Vec<u8> = Vec::new();
    let mut i: usize = 0;
    while i < bytes.len()
        invariant
            i <= bytes.len(),
            copy@ == bytes@.take(i as int),
        decreases bytes.len() - i,
    {
        copy.push(bytes[i]);
        assert(bytes@.take(i + 1) == bytes@.take(i as int).push(bytes@[i as int]));
        i += 1;
    }
    assert(bytes@.take(bytes.len() as int) == bytes@);
    copy
}

impl World {
    /// The representation is consistent: the store holds exactly the listed
    /// entities, none twice, all below the allocation counter.
    pub closed spec fn wf(&self) -> bool {
        &&& self.order@.no_duplicates()
        &&& forall|e: EntityId| #[trigger] self.store@.contains_key(e) <==> self.order@.contains(e)
        &&& forall|i: int| 0 <= i < self.order@.len() ==> (#[trigger] self.order@[i]) < self.next_id
    }

    /// A consistent container has a consistent view.
    pub proof fn lemma_view_wf(&self)
        requires
            self.wf(),
        ensures
            self@.wf(),
    {
    }

    /// An empty container whose first allocation yields entity 0.
    pub fn new() -> (world: World)
        ensures
            world.wf(),
            world@.entities == Seq::<EntityId>::empty(),
            world@.components == Map::<(EntityId, TypeKey), Seq<u8>>::empty(),
            world@.next_id == 0,
    {
        let world = World { order: Vec::new(), store: HashMap::new(), next_id: 0 };
        assert(world@.components =~= Map::<(EntityId, TypeKey), Seq<u8>>::empty());
        world
    }

    /// The number of entities.
    pub fn entity_count(&self) -> (count: usize)
        ensures
            count == self@.entities.len(),
    {
        self.order.len()
    }

    /// The entity at position `index` of the container's order.
    pub fn entity_at(&self, index: usize) -> (entity: EntityId)
        requires
            index < self@.entities.len(),
        ensures
            entity == self@.entities[index as int],
    {
        self.order[index]
    }

    /// The entities in container order.
    pub fn entities(&self) -> (list: Vec<EntityId>)
        ensures
            list@ == self@.entities,
    {
        let mut list: Vec<EntityId> = Vec::new();
        let mut i: usize = 0;
        while i < self.order.len()
            invariant
                i <= self.order.len(),
                list@ == self.order@.take(i as int),
            decreases self.order.len() - i,
        {
            list.push(self.order[i]);
            assert(self.order@.take(i + 1) == self.order@.take(i as int).push(self.order@[i as int]));
            i += 1;
        }
        assert(self.order@.take(self.order.len() as int) == self.order@);
        list
    }

    /// Whether `entity` is in the container.
    pub fn contains(&self, entity: EntityId) -> (present: bool)
        requires
            self.wf(),
        ensures
            present == self@.entities.contains(entity),
    {
        self.store.contains_key(&entity)
    }

    /// The identifier that the next allocation hands out.
    pub fn next_id(&self) -> (next: u64)
        ensures
            next == self@.next_id,
    {
        self.next_id
    }

    /// Adds a fresh entity without components and returns its identifier, or
    /// returns `None` and changes nothing when the identifiers are used up.
    pub fn allocate(&mut self) -> (entity: Option<EntityId>)
        requires
            old(self).wf(),
        ensures
            final(self).wf(),
            match entity {
                Some(e) => {
                    &&& old(self)@.next_id < u64::MAX
                    &&& e == old(self)@.next_id
                    &&& final(self)@.entities == old(self)@.entities.push(e)
                    &&& final(self)@.components == old(self)@.components
                    &&& final(self)@.next_id == old(self)@.next_id + 1
                },
                None => old(self)@.next_id == u64::MAX && final(self)@ == old(self)@,
            },
    {
        if self.next_id == u64::MAX {
            return None;
        }
        let entity = self.next_id;
        let ghost before = *self;
        assert(!self.order@.contains(entity)) by {
            if self.order@.contains(entity) {
                let i = choose|i: int| 0 <= i < self.order@.len() && self.order@[i] == entity;
                assert(self.order@[i] < self.next_id);
            }
        }
        self.order.push(entity);
        self.store.insert(entity, HashMap::new());
        self.next_id = self.next_id + 1;
        proof {
            assert forall|e: EntityId| #[trigger]
                self.store@.contains_key(e) <==> self.order@.contains(e) by {
                if e == entity {
                    assert(self.order@[self.order@.len() - 1] == entity);
                } else if before.order@.contains(e) {
                    let i = choose|i: int| 0 <= i < before.order@.len() && before.order@[i] == e;
                    assert(self.order@[i] == e);
                } else if self.order@.contains(e) {
                    let i = choose|i: int| 0 <= i < self.order@.len() && self.order@[i] == e;
                    assert(before.order@[i] == e);
                }
            }
            assert(self@.components =~= before@.components);
        }
        Some(entity)
    }

    /// The bytes of the component of type `key` on `entity`, if it has one.
    pub fn get(&self, entity: EntityId, key: TypeKey) -> (data: Option<&Vec<u8>>)
        ensures
            match data {
                Some(bytes) => self@.has(entity, key) && bytes@ == self@.components[(entity, key)],
                None => !self@.has(entity, key),
            },
    {
        match self.store.get(&entity) {
            Some(components) => components.get(&key.value),
            None => None,
        }
    }

    /// Whether `entity` holds a component of type `key`.
    pub fn has_component(&self, entity: EntityId, key: TypeKey) -> (held: bool)
        ensures
            held == self@.has(entity, key),
    {
        self.get(entity, key).is_some()
    }

    /// Stores `data` as the component of type `key` on `entity`, replacing
    /// the bytes that were there. Does nothing and returns `false` when the
    /// entity is not in the container.
    pub fn insert(&mut self, entity: EntityId, key: TypeKey, data: Vec<u8>) -> (stored: bool)
        requires
            old(self).wf(),
        ensures
            final(self).wf(),
            stored == old(self)@.entities.contains(entity),
            final(self)@.entities == old(self)@.entities,
            final(self)@.next_id == old(self)@.next_id,
            stored ==> final(self)@.components == old(self)@.components.insert((entity, key), data@),
            !stored ==> final(self)@.components == old(self)@.components,
    {
        let ghost before = *self;
        match self.store.remove(&entity) {
            Some(mut components) => {
                components.insert(key.value, data);
                self.store.insert(entity, components);
                proof {
                    assert(self.store@.dom() =~= before.store@.dom());
                    assert(self@.components =~= before@.components.insert((entity, key), data@));
                }
                true
            },
            None => {
                proof {
                    assert(self.store@ =~= before.store@);
                    assert(self@.components =~= before@.components);
                }
                false
            },
        }
    }

    /// The components of type `key` as one batch: the entities that hold one,
    /// in container order, and a copy of each one's bytes in the same order.
    pub fn column(&self, key: TypeKey) -> (batch: (Vec<EntityId>, Vec<Vec<u8>>))
        requires
            self.wf(),
        ensures
            batch.0@ == self@.holders(key),
            batch.1.len() == batch.0.len(),
            forall|i: int| 0 <= i < batch.1.len() ==> (#[trigger] batch.1[i])@ == self@.column(key)[i],
    {
        let mut entities: Vec<EntityId> = Vec::new();
        let mut values: Vec<Vec<u8>> = Vec::new();
        let mut i: usize = 0;
        while i < self.order.len()
            invariant
                i <= self.order.len(),
                entities@ == self@.holders_upto(key, i as nat),
                values.len() == entities.len(),
                forall|j: int|
                    0 <= j < values.len() ==> (#[trigger] values[j])@ == self@.components[(
                        entities[j],
                        key,
                    )],
            decreases self.order.len() - i,
        {
            let entity = self.order[i];
            match self.get(entity, key) {
                Some(bytes) => {
                    entities.push(entity);
                    values.push(copy_bytes(bytes));
                },
                None => {},
            }
            i += 1;
        }
        (entities, values)
    }
}

} // verus!
