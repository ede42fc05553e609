//! The clone/merge engine: what a merge writes, as mathematics, and the
//! executable merge that is proved to write exactly that.

use crate::handler_set::{applies, ComponentTransform, TransformHandlerSet, TransformMapping};
use crate::registry::{ComponentRegistration, RegistrationView, Registry};
use crate::remap::EntityRemapTable;
use crate::type_key::{EntityId, TypeKey};
use crate::world::{copy_bytes, World, WorldView};
use vstd::prelude::*;

verus! {

/// A remapping table together with the allocation counter of the
/// destination container.
pub struct Assignment {
    pub table: Map<EntityId, EntityId>,
    pub next_id: nat,
}

/// The table and the counter after each of the first `n` entities of
/// `entities` has its destination: an entity that is a key keeps its
/// destination, and every other entity, in order, gets the next fresh
/// entity of the destination container.
pub open spec fn assigned(
    entities: Seq<EntityId>,
    table: Map<EntityId, EntityId>,
    next_id: nat,
    n: nat,
) -> Assignment
    decreases n,
{
    if n == 0 {
        Assignment { table, next_id }
    } else {
        let earlier = assigned(entities, table, next_id, (n - 1) as nat);
        let entity = entities[n - 1];
        if earlier.table.contains_key(entity) {
            earlier
        } else {
            Assignment {
                table: earlier.table.insert(entity, earlier.next_id as EntityId),
                next_id: earlier.next_id + 1,
            }
        }
    }
}

/// The entities `from`, `from + 1`, ... up to but without `to`.
pub open spec fn fresh_entities(from: nat, to: nat) -> Seq<EntityId> {
    Seq::new((to - from) as nat, |i: int| (from + i) as EntityId)
}

/// Whether the destination container has an identifier left for every
/// entity of `entities` that is no key of `table`.
pub open spec fn ids_suffice(
    entities: Seq<EntityId>,
    table: Map<EntityId, EntityId>,
    next_id: nat,
) -> bool {
    assigned(entities, table, next_id, entities.len()).next_id <= u64::MAX
}

/// The allocation counter never falls, and rises by at most one for each
/// entity.
pub proof fn lemma_assigned_counter(
    entities: Seq<EntityId>,
    table: Map<EntityId, EntityId>,
    next_id: nat,
    m: nat,
    n: nat,
)
    requires
        m <= n,
    ensures
        assigned(entities, table, next_id, m).next_id <= assigned(
            entities,
            table,
            next_id,
            n,
        ).next_id,
        assigned(entities, table, next_id, n).next_id <= assigned(
            entities,
            table,
            next_id,
            m,
        ).next_id + (n - m),
    decreases n,
{
    if m < n {
        lemma_assigned_counter(entities, table, next_id, m, (n - 1) as nat);
    }
}

/// The keys of the table after the first `n` entities have their
/// destinations are the keys of the given table and those entities.
pub proof fn lemma_assigned_keys(
    entities: Seq<EntityId>,
    table: Map<EntityId, EntityId>,
    next_id: nat,
    n: nat,
)
    requires
        n <= entities.len(),
    ensures
        forall|k: EntityId|
            assigned(entities, table, next_id, n).table.contains_key(k) <==> (table.contains_key(k)
                || entities.take(n as int).contains(k)),
    decreases n,
{
    if n > 0 {
        let m = (n - 1) as nat;
        lemma_assigned_keys(entities, table, next_id, m);
        let earlier = assigned(entities, table, next_id, m).table;
        let now = assigned(entities, table, next_id, n).table;
        assert(entities.take(n as int)[n - 1] == entities[n - 1]);
        assert forall|k: EntityId|
            now.contains_key(k) <==> (table.contains_key(k) || entities.take(n as int).contains(
                k,
            )) by {
            assert(earlier.contains_key(k) <==> (table.contains_key(k) || entities.take(
                m as int,
            ).contains(k)));
            assert(now.contains_key(k) <==> (earlier.contains_key(k) || k == entities[n - 1]));
            if entities.take(m as int).contains(k) {
                let p = choose|p: int| 0 <= p < m && entities.take(m as int)[p] == k;
                assert(entities.take(n as int)[p] == k);
            }
            if entities.take(n as int).contains(k) && k != entities[n - 1] {
                let p = choose|p: int| 0 <= p < n && entities.take(n as int)[p] == k;
                assert(entities.take(m as int)[p] == k);
            }
        }
    }
}

/// Whether every entity of `entities` that is a key of `table` is mapped to
/// an entity of `present`.
pub open spec fn targets_present(
    entities: Seq<EntityId>,
    table: Map<EntityId, EntityId>,
    present: Seq<EntityId>,
) -> bool {
    forall|e: EntityId| #[trigger]
        table.contains_key(e) && entities.contains(e) ==> present.contains(table[e])
}

/// Whether every entity of `entities` is a key of `table` and is mapped to
/// an entity of `present`.
pub open spec fn all_assigned(
    entities: Seq<EntityId>,
    table: Map<EntityId, EntityId>,
    present: Seq<EntityId>,
) -> bool {
    forall|e: EntityId| #[trigger]
        entities.contains(e) ==> table.contains_key(e) && present.contains(table[e])
}

/// One component written into the destination container.
pub struct ComponentWrite {
    pub entity: EntityId,
    pub key: TypeKey,
    pub value: Seq<u8>,
}

/// `components` after the writes of `writes` in order; a later write to the
/// same entity and type replaces an earlier one.
pub open spec fn replay(
    components: Map<(EntityId, TypeKey), Seq<u8>>,
    writes: Seq<ComponentWrite>,
) -> Map<(EntityId, TypeKey), Seq<u8>>
    decreases writes.len(),
{
    if writes.len() == 0 {
        components
    } else {
        let write = writes.last();
        replay(components, writes.drop_last()).insert((write.entity, write.key), write.value)
    }
}

/// The type keys of an optional filter.
pub open spec fn filter_view(type_filter: Option<&Vec<TypeKey>>) -> Option<Seq<TypeKey>> {
    match type_filter {
        Some(keys) => Some(keys@),
        None => None,
    }
}

/// Whether a filter lets components of type `key` through. Without a filter
/// every type passes.
pub open spec fn passes(filter: Option<Seq<TypeKey>>, key: TypeKey) -> bool {
    match filter {
        Some(keys) => keys.contains(key),
        None => true,
    }
}

/// Whether a merge runs mapping `j` of `set`: the set uses the mapping, the
/// filter lets its source type through, and both of its types are
/// registered.
pub open spec fn runs<F: ComponentTransform>(
    registry: Map<TypeKey, RegistrationView>,
    set: Seq<TransformMapping<F>>,
    filter: Option<Seq<TypeKey>>,
    j: int,
) -> bool {
    &&& applies(set, j)
    &&& passes(filter, set[j].source)
    &&& registry.contains_key(set[j].source)
    &&& registry.contains_key(set[j].destination)
}

/// The writes of one mapping: for each entity that holds a component of the
/// mapping's source type, in container order, the value that the mapping
/// produces from it, written to the entity's destination.
pub open spec fn mapping_writes<F: ComponentTransform>(
    source: WorldView,
    table: Map<EntityId, EntityId>,
    mapping: TransformMapping<F>,
    initial: Seq<u8>,
) -> Seq<ComponentWrite> {
    let holders = source.holders(mapping.source);
    Seq::new(
        holders.len(),
        |i: int|
            ComponentWrite {
                entity: table[holders[i]],
                key: mapping.destination,
                value: mapping.value(
                    holders[i],
                    source.components[(holders[i], mapping.source)],
                    initial,
                ),
            },
    )
}

/// Whether `mapping` accepts every component of its source type in
/// `source`.
pub open spec fn mapping_accepted<F: ComponentTransform>(
    source: WorldView,
    mapping: TransformMapping<F>,
    initial: Seq<u8>,
) -> bool {
    forall|i: int|
        0 <= i < source.holders(mapping.source).len() ==> mapping.accepts(
            #[trigger] source.holders(mapping.source)[i],
            source.components[(source.holders(mapping.source)[i], mapping.source)],
            initial,
        )
}

/// Whether mapping `j` runs and meets a component that it does not accept.
pub open spec fn fails_at<F: ComponentTransform>(
    source: WorldView,
    registry: Map<TypeKey, RegistrationView>,
    set: Seq<TransformMapping<F>>,
    filter: Option<Seq<TypeKey>>,
    j: int,
) -> bool {
    runs(registry, set, filter, j) && !mapping_accepted(
        source,
        set[j],
        registry[set[j].destination].default_value,
    )
}

/// Whether none of the first `n` mappings fails.
pub open spec fn none_fails<F: ComponentTransform>(
    source: WorldView,
    registry: Map<TypeKey, RegistrationView>,
    set: Seq<TransformMapping<F>>,
    filter: Option<Seq<TypeKey>>,
    n: nat,
) -> bool {
    forall|j: int| 0 <= j < n ==> !#[trigger] fails_at(source, registry, set, filter, j)
}

/// The writes of the first `n` mappings of `set`, mapping after mapping in
/// the order of registration.
pub open spec fn merge_writes<F: ComponentTransform>(
    source: WorldView,
    registry: Map<TypeKey, RegistrationView>,
    set: Seq<TransformMapping<F>>,
    table: Map<EntityId, EntityId>,
    filter: Option<Seq<TypeKey>>,
    n: nat,
) -> Seq<ComponentWrite>
    decreases n,
{
    if n == 0 {
        Seq::empty()
    } else {
        let earlier = merge_writes(source, registry, set, table, filter, (n - 1) as nat);
        if runs(registry, set, filter, n - 1) {
            earlier + mapping_writes(
                source,
                table,
                set[n - 1],
                registry[set[n - 1].destination].default_value,
            )
        } else {
            earlier
        }
    }
}

/// The table after a merge of `source` into `destination`: the given table
/// with an entry for every source entity.
pub open spec fn merged_table(
    source: WorldView,
    destination: WorldView,
    table: Map<EntityId, EntityId>,
) -> Map<EntityId, EntityId> {
    assigned(source.entities, table, destination.next_id, source.entities.len()).table
}

/// The destination container after every source entity has its destination
/// and the first `n` mappings have run: the fresh entities follow the ones
/// that were there, and the components are the old ones with the writes of
/// those mappings replayed over them.
pub open spec fn merged_upto<F: ComponentTransform>(
    source: WorldView,
    destination: WorldView,
    registry: Map<TypeKey, RegistrationView>,
    set: Seq<TransformMapping<F>>,
    table: Map<EntityId, EntityId>,
    filter: Option<Seq<TypeKey>>,
    n: nat,
) -> WorldView {
    let a = assigned(source.entities, table, destination.next_id, source.entities.len());
    WorldView {
        entities: destination.entities + fresh_entities(destination.next_id, a.next_id),
        components: replay(
            destination.components,
            merge_writes(source, registry, set, a.table, filter, n),
        ),
        next_id: a.next_id,
    }
}

/// The destination container after a merge that was not given up.
pub open spec fn merged<F: ComponentTransform>(
    source: WorldView,
    destination: WorldView,
    registry: Map<TypeKey, RegistrationView>,
    set: Seq<TransformMapping<F>>,
    table: Map<EntityId, EntityId>,
    filter: Option<Seq<TypeKey>>,
) -> WorldView {
    merged_upto(source, destination, registry, set, table, filter, set.len())
}

/// Why a merge was given up.
#[derive(Clone, Copy, Debug, PartialEq, Eq, Structural)]
pub enum CloneMergeError {
    /// The transform registered for this pair of types did not accept a
    /// component.
    TransformFailed { source: TypeKey, destination: TypeKey },
}

/// Whether `key` passes an optional filter.
pub fn filter_passes(type_filter: Option<&Vec<TypeKey>>, key: TypeKey) -> (through: bool)
    ensures
        through == passes(filter_view(type_filter), key),
{
    match type_filter {
        None => true,
        Some(keys) => {
            let mut i: usize = 0;
            while i < keys.len()
                invariant
                    i <= keys.len(),
                    type_filter == Some(keys),
                    forall|j: int| 0 <= j < i ==> keys@[j] != key,
                decreases keys.len() - i,
            {
                if keys[i] == key {
                    assert(keys@[i as int] == key);
                    return true;
                }
                i += 1;
            }
            false
        },
    }
}

/// Whether a merge of `source` into `destination` with the table `remap`
/// can be asked for: the table leads every source entity that it names to
/// an entity of the destination, and the destination has an identifier left
/// for every source entity that the table does not name.
pub fn merge_allowed(source: &World, destination: &World, remap: &EntityRemapTable) -> (allowed:
    bool)
    requires
        source.wf(),
        destination.wf(),
    ensures
        allowed == (targets_present(source@.entities, remap@, destination@.entities)
            && ids_suffice(source@.entities, remap@, destination@.next_id)),
{
    let count = source.entity_count();
    let ghost entities = source@.entities;
    let mut unnamed: usize = 0;
    let mut i: usize = 0;
    proof {
        source.lemma_view_wf();
    }
    while i < count
        invariant
            i <= count,
            count == entities.len(),
            entities == source@.entities,
            entities.no_duplicates(),
            destination.wf(),
            unnamed <= i,
            assigned(entities, remap@, destination@.next_id, i as nat).next_id
                == destination@.next_id + unnamed,
            forall|j: int|
                0 <= j < i && remap@.contains_key(#[trigger] entities[j])
                    ==> destination@.entities.contains(remap@[entities[j]]),
        decreases count - i,
    {
        let entity = source.entity_at(i);
        proof {
            lemma_assigned_keys(entities, remap@, destination@.next_id, i as nat);
            if entities.take(i as int).contains(entity) {
                let p = choose|p: int| 0 <= p < i && entities.take(i as int)[p] == entity;
                assert(entities[p] == entities[i as int]);
            }
        }
        match remap.get(entity) {
            Some(target) => {
                if !destination.contains(target) {
                    assert(entities.contains(entities[i as int]));
                    return false;
                }
            },
            None => {
                unnamed += 1;
            },
        }
        i += 1;
    }
    proof {
        assert forall|e: EntityId| #[trigger]
            remap@.contains_key(e) && entities.contains(e) implies destination@.entities.contains(
            remap@[e],
        ) by {
            let p = choose|p: int| 0 <= p < entities.len() && entities[p] == e;
            assert(remap@.contains_key(entities[p]));
        }
    }
    destination.next_id() <= u64::MAX - (unnamed as u64)
}

/// Replaying one more write is replaying the earlier writes and then
/// storing the value.
pub proof fn lemma_replay_push(
    components: Map<(EntityId, TypeKey), Seq<u8>>,
    writes: Seq<ComponentWrite>,
    write: ComponentWrite,
)
    ensures
        replay(components, writes.push(write)) == replay(components, writes).insert(
            (write.entity, write.key),
            write.value,
        ),
{
    assert(writes.push(write).drop_last() =~= writes);
    assert(writes.push(write).last() == write);
}

/// The engine that copies the entities of one container into another.
///
/// It reads the registry for the behaviour tables of the component types
/// and the handler set for the mappings to apply.
pub struct CloneMergeEngine<'a, F> {
    pub handler_set: &'a TransformHandlerSet<F>,
    pub registry: &'a Registry,
}

/// The engine over a handler set and a registry.
pub fn create_spawn_clone_impl<'a, F: ComponentTransform>(
    handler_set: &'a TransformHandlerSet<F>,
    registry: &'a Registry,
) -> (engine: CloneMergeEngine<'a, F>)
    ensures
        engine.handler_set == handler_set,
        engine.registry == registry,
{
    CloneMergeEngine { handler_set, registry }
}

impl<'a, F: ComponentTransform> CloneMergeEngine<'a, F> {
    /// Gives every entity of `source` a destination: the one that `remap`
    /// names, or a fresh entity of `destination`, which is then entered in
    /// `remap`.
    fn assign_entities(source: &World, destination: &mut World, remap: &mut EntityRemapTable)
        requires
            source.wf(),
            old(destination).wf(),
            targets_present(source@.entities, old(remap)@, old(destination)@.entities),
            ids_suffice(source@.entities, old(remap)@, old(destination)@.next_id),
        ensures
            final(destination).wf(),
            final(remap)@ == assigned(
                source@.entities,
                old(remap)@,
                old(destination)@.next_id,
                source@.entities.len(),
            ).table,
            final(destination)@.next_id == assigned(
                source@.entities,
                old(remap)@,
                old(destination)@.next_id,
                source@.entities.len(),
            ).next_id,
            final(destination)@.entities == old(destination)@.entities + fresh_entities(
                old(destination)@.next_id,
                final(destination)@.next_id,
            ),
            final(destination)@.components == old(destination)@.components,
            all_assigned(source@.entities, final(remap)@, final(destination)@.entities),
    {
        let ghost table0 = remap@;
        let ghost next0 = destination@.next_id;
        let ghost entities0 = destination@.entities;
        let count = source.entity_count();
        let mut i: usize = 0;
        assert(fresh_entities(next0, next0) =~= Seq::<EntityId>::empty());
        assert(entities0 + Seq::<EntityId>::empty() =~= entities0);
        while i < count
            invariant
                i <= count,
                count == source@.entities.len(),
                source.wf(),
                destination.wf(),
                ids_suffice(source@.entities, table0, next0),
                remap@ == assigned(source@.entities, table0, next0, i as nat).table,
                destination@.next_id == assigned(source@.entities, table0, next0, i as nat).next_id,
                destination@.entities == entities0 + fresh_entities(next0, destination@.next_id),
                destination@.components == old(destination)@.components,
                targets_present(source@.entities, remap@, destination@.entities),
                forall|j: int| 0 <= j < i ==> remap@.contains_key(#[trigger] source@.entities[j]),
            decreases count - i,
        {
            let entity = source.entity_at(i);
            let ghost listed = destination@.entities;
            let ghost table = remap@;
            proof {
                lemma_assigned_counter(source@.entities, table0, next0, 0, i as nat);
                lemma_assigned_counter(
                    source@.entities,
                    table0,
                    next0,
                    (i + 1) as nat,
                    count as nat,
                );
            }
            if !remap.contains(entity) {
                let fresh = destination.allocate().unwrap();
                remap.insert(entity, fresh);
                proof {
                    assert(destination@.entities =~= entities0 + fresh_entities(
                        next0,
                        destination@.next_id,
                    ));
                    assert(destination@.entities[listed.len() as int] == fresh);
                    assert forall|e: EntityId| #[trigger]
                        remap@.contains_key(e) && source@.entities.contains(
                            e,
                        ) implies destination@.entities.contains(remap@[e]) by {
                        if e != entity {
                            assert(table.contains_key(e));
                            let p = choose|p: int| 0 <= p < listed.len() && listed[p] == table[e];
                            assert(destination@.entities[p] == table[e]);
                        }
                    }
                }
            }
            i += 1;
        }
        proof {
            assert forall|e: EntityId| #[trigger] source@.entities.contains(e) implies remap@.contains_key(
                e,
            ) && destination@.entities.contains(remap@[e]) by {
                let p = choose|p: int| 0 <= p < source@.entities.len() && source@.entities[p] == e;
                assert(remap@.contains_key(source@.entities[p]));
            }
        }
    }

    /// Runs one mapping: rewrites the batch of its source components and
    /// writes each result to the destination of its entity. Returns `false`
    /// and writes nothing where the transform does not accept the batch.
    fn run_mapping(
        mapping: &TransformMapping<F>,
        source_table: &ComponentRegistration,
        destination_table: &ComponentRegistration,
        source: &World,
        destination: &mut World,
        remap: &EntityRemapTable,
    ) -> (done: bool)
        requires
            source.wf(),
            old(destination).wf(),
            all_assigned(source@.entities, remap@, old(destination)@.entities),
        ensures
            final(destination).wf(),
            final(destination)@.entities == old(destination)@.entities,
            final(destination)@.next_id == old(destination)@.next_id,
            done == mapping_accepted(source@, *mapping, destination_table@.default_value),
            done ==> final(destination)@.components == replay(
                old(destination)@.components,
                mapping_writes(source@, remap@, *mapping, destination_table@.default_value),
            ),
            !done ==> final(destination)@.components == old(destination)@.components,
    {
        let ghost initial = destination_table@.default_value;
        let ghost holders = source@.holders(mapping.source);
        let ghost writes = mapping_writes(source@, remap@, *mapping, initial);
        let batch = source.column(mapping.source);
        let entities = batch.0;
        let values = batch.1;
        let outputs = match &mapping.transform {
            None => source_table.clone_range(&values),
            Some(transform) => {
                let mut outputs = destination_table.construct_range(entities.len());
                let ghost defaults = outputs@;
                let done = transform.transform(&entities, &values, &mut outputs);
                proof {
                    if done {
                        assert forall|i: int| 0 <= i < holders.len() implies mapping.accepts(
                            #[trigger] holders[i],
                            source@.components[(holders[i], mapping.source)],
                            initial,
                        ) by {
                            assert(transform.accepts(entities[i], values[i]@, defaults[i]@));
                            assert(values[i]@ == source@.column(mapping.source)[i]);
                        }
                    } else {
                        let i = choose|i: int|
                            0 <= i < entities.len() && !#[trigger] transform.accepts(
                                entities[i],
                                values[i]@,
                                defaults[i]@,
                            );
                        assert(values[i]@ == source@.column(mapping.source)[i]);
                        assert(!mapping.accepts(
                            holders[i],
                            source@.components[(holders[i], mapping.source)],
                            initial,
                        ));
                    }
                }
                if !done {
                    return false;
                }
                outputs
            },
        };
        proof {
            source@.lemma_holders(mapping.source);
            assert forall|i: int| 0 <= i < holders.len() implies (#[trigger] outputs[i])@
                == writes[i].value by {
                assert(values[i]@ == source@.column(mapping.source)[i]);
            }
            assert(writes.take(0) =~= Seq::<ComponentWrite>::empty());
        }
        let mut i: usize = 0;
        while i < entities.len()
            invariant
                i <= entities.len(),
                entities@ == holders,
                outputs.len() == entities.len(),
                writes.len() == holders.len(),
                writes == mapping_writes(source@, remap@, *mapping, initial),
                holders == source@.holders(mapping.source),
                forall|k: int|
                    0 <= k < holders.len() ==> (#[trigger] outputs[k])@ == writes[k].value,
                forall|k: int|
                    0 <= k < holders.len() ==> source@.entities.contains(#[trigger] holders[k]),
                all_assigned(source@.entities, remap@, destination@.entities),
                destination.wf(),
                destination@.entities == old(destination)@.entities,
                destination@.next_id == old(destination)@.next_id,
                destination@.components == replay(
                    old(destination)@.components,
                    writes.take(i as int),
                ),
            decreases entities.len() - i,
        {
            assert(source@.entities.contains(holders[i as int]));
            let target = remap.get(entities[i]).unwrap();
            let stored = destination.insert(target, mapping.destination, copy_bytes(&outputs[i]));
            proof {
                assert(stored);
                lemma_replay_push(
                    old(destination)@.components,
                    writes.take(i as int),
                    writes[i as int],
                );
                assert(writes.take(i + 1) =~= writes.take(i as int).push(writes[i as int]));
            }
            i += 1;
        }
        assert(writes.take(writes.len() as int) =~= writes);
        true
    }

    /// Copies the entities of `source` into `destination`.
    ///
    /// Every source entity gets a destination entity: the one that `remap`
    /// names for it, or a fresh one, which is entered in `remap`. Then the
    /// mappings of the handler set run in the order of their registration.
    /// A mapping that runs rewrites, as one batch, the components of its
    /// source type and writes each result to the destination of its entity,
    /// over the component of the destination type that may be there.
    /// Components of the destination that no mapping writes stay as they
    /// are, and `source` is only read.
    ///
    /// The merge is given up at the first mapping whose transform does not
    /// accept its batch. What earlier mappings wrote stays written.
    pub fn clone_merge_into(
        &self,
        source: &World,
        destination: &mut World,
        remap: &mut EntityRemapTable,
        type_filter: Option<&Vec<TypeKey>>,
    ) -> (result: Result<(), CloneMergeError>)
        requires
            source.wf(),
            old(destination).wf(),
            targets_present(source@.entities, old(remap)@, old(destination)@.entities),
            ids_suffice(source@.entities, old(remap)@, old(destination)@.next_id),
        ensures
            final(destination).wf(),
            final(remap)@ == merged_table(source@, old(destination)@, old(remap)@),
            match result {
                Ok(()) => {
                    &&& none_fails(
                        source@,
                        self.registry@,
                        self.handler_set@,
                        filter_view(type_filter),
                        self.handler_set@.len(),
                    )
                    &&& final(destination)@ == merged(
                        source@,
                        old(destination)@,
                        self.registry@,
                        self.handler_set@,
                        old(remap)@,
                        filter_view(type_filter),
                    )
                },
                Err(error) => exists|j: int|
                    {
                        &&& 0 <= j < self.handler_set@.len()
                        &&& none_fails(
                            source@,
                            self.registry@,
                            self.handler_set@,
                            filter_view(type_filter),
                            j as nat,
                        )
                        &&& #[trigger] fails_at(
                            source@,
                            self.registry@,
                            self.handler_set@,
                            filter_view(type_filter),
                            j,
                        )
                        &&& error == (CloneMergeError::TransformFailed {
                            source: self.handler_set@[j].source,
                            destination: self.handler_set@[j].destination,
                        })
                        &&& final(destination)@ == merged_upto(
                            source@,
                            old(destination)@,
                            self.registry@,
                            self.handler_set@,
                            old(remap)@,
                            filter_view(type_filter),
                            j as nat,
                        )
                    },
            },
    {
        Self::assign_entities(source, destination, remap);
        let ghost filter = filter_view(type_filter);
        let ghost set = self.handler_set@;
        let ghost tables = self.registry@;
        let count = self.handler_set.len();
        let mut j: usize = 0;
        while j < count
            invariant
                j <= count,
                count == set.len(),
                set == self.handler_set@,
                tables == self.registry@,
                filter == filter_view(type_filter),
                source.wf(),
                destination.wf(),
                remap@ == assigned(
                    source@.entities,
                    old(remap)@,
                    old(destination)@.next_id,
                    source@.entities.len(),
                ).table,
                destination@.next_id == assigned(
                    source@.entities,
                    old(remap)@,
                    old(destination)@.next_id,
                    source@.entities.len(),
                ).next_id,
                destination@.entities == old(destination)@.entities + fresh_entities(
                    old(destination)@.next_id,
                    destination@.next_id,
                ),
                all_assigned(source@.entities, remap@, destination@.entities),
                none_fails(source@, tables, set, filter, j as nat),
                destination@.components == replay(
                    old(destination)@.components,
                    merge_writes(source@, tables, set, remap@, filter, j as nat),
                ),
            decreases count - j,
        {
            let mapping = self.handler_set.mapping_at(j);
            let ghost earlier = merge_writes(source@, tables, set, remap@, filter, j as nat);
            let tables_found = if self.handler_set.applies_at(j) && filter_passes(
                type_filter,
                mapping.source,
            ) {
                match self.registry.lookup_by_key(mapping.source) {
                    Some(source_table) => match self.registry.lookup_by_key(mapping.destination) {
                        Some(destination_table) => Some((source_table, destination_table)),
                        None => None,
                    },
                    None => None,
                }
            } else {
                None
            };
            match tables_found {
                Some((source_table, destination_table)) => {
                    assert(runs(tables, set, filter, j as int));
                    let done = Self::run_mapping(
                        mapping,
                        source_table,
                        destination_table,
                        source,
                        destination,
                        &*remap,
                    );
                    if !done {
                        proof {
                            let k = j as int;
                            assert(fails_at(source@, tables, set, filter, k));
                            assert(none_fails(source@, tables, set, filter, k as nat));
                        }
                        return Err(
                            CloneMergeError::TransformFailed {
                                source: mapping.source,
                                destination: mapping.destination,
                            },
                        );
                    }
                    proof {
                        lemma_replay_concat(
                            old(destination)@.components,
                            earlier,
                            mapping_writes(
                                source@,
                                remap@,
                                set[j as int],
                                tables[set[j as int].destination].default_value,
                            ),
                        );
                    }
                },
                None => {
                    assert(!runs(tables, set, filter, j as int));
                },
            }
            assert(!fails_at(source@, tables, set, filter, j as int));
            j += 1;
        }
        Ok(())
    }

    /// Copies the entities of `source` into `destination` and returns the
    /// remapping table of the copy.
    ///
    /// With a table, the source entities that it names are merged into the
    /// destination entities that it gives them; without one, every source
    /// entity is copied to a fresh entity. The rest is as
    /// `clone_merge_into` says. The table is lost with a merge that is
    /// given up.
    pub fn clone_merge(
        &self,
        source: &World,
        destination: &mut World,
        remap: Option<EntityRemapTable>,
        type_filter: Option<&Vec<TypeKey>>,
    ) -> (result: Result<EntityRemapTable, CloneMergeError>)
        requires
            source.wf(),
            old(destination).wf(),
            targets_present(source@.entities, given_table(remap), old(destination)@.entities),
            ids_suffice(source@.entities, given_table(remap), old(destination)@.next_id),
        ensures
            final(destination).wf(),
            match result {
                Ok(table) => {
                    &&& table@ == merged_table(source@, old(destination)@, given_table(remap))
                    &&& none_fails(
                        source@,
                        self.registry@,
                        self.handler_set@,
                        filter_view(type_filter),
                        self.handler_set@.len(),
                    )
                    &&& final(destination)@ == merged(
                        source@,
                        old(destination)@,
                        self.registry@,
                        self.handler_set@,
                        given_table(remap),
                        filter_view(type_filter),
                    )
                },
                Err(error) => exists|j: int|
                    {
                        &&& 0 <= j < self.handler_set@.len()
                        &&& none_fails(
                            source@,
                            self.registry@,
                            self.handler_set@,
                            filter_view(type_filter),
                            j as nat,
                        )
                        &&& #[trigger] fails_at(
                            source@,
                            self.registry@,
                            self.handler_set@,
                            filter_view(type_filter),
                            j,
                        )
                        &&& error == (CloneMergeError::TransformFailed {
                            source: self.handler_set@[j].source,
                            destination: self.handler_set@[j].destination,
                        })
                        &&& final(destination)@ == merged_upto(
                            source@,
                            old(destination)@,
                            self.registry@,
                            self.handler_set@,
                            given_table(remap),
                            filter_view(type_filter),
                            j as nat,
                        )
                    },
            },
    {
        let mut table = match remap {
            Some(table) => table,
            None => EntityRemapTable::new(),
        };
        match self.clone_merge_into(source, destination, &mut table, type_filter) {
            Ok(()) => Ok(table),
            Err(error) => Err(error),
        }
    }
}

/// The entries of an optional remapping table; none where no table is
/// given.
pub open spec fn given_table(remap: Option<EntityRemapTable>) -> Map<EntityId, EntityId> {
    match remap {
        Some(table) => table@,
        None => Map::empty(),
    }
}

/// Replaying two lists of writes one after the other is replaying their
/// concatenation.
pub proof fn lemma_replay_concat(
    components: Map<(EntityId, TypeKey), Seq<u8>>,
    first: Seq<ComponentWrite>,
    second: Seq<ComponentWrite>,
)
    ensures
        replay(components, first + second) == replay(replay(components, first), second),
    decreases second.len(),
{
    if second.len() == 0 {
        assert(first + second =~= first);
    } else {
        lemma_replay_concat(components, first, second.drop_last());
        assert((first + second).drop_last() =~= first + second.drop_last());
        assert((first + second).last() == second.last());
    }
}

} // verus!
