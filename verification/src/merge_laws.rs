//! What holds of every merge: laws about the outcome that the contract of
//! the clone/merge engine describes.

use crate::clone_merge::{
    assigned, fresh_entities, ids_suffice, lemma_assigned_counter, mapping_writes, merge_writes,
    merged, merged_table, replay, runs, targets_present, Assignment, ComponentWrite,
};
use crate::registry::RegistrationView;
use crate::handler_set::{ComponentTransform, FieldCopy, TransformMapping};
use crate::type_key::{EntityId, TypeKey};
use crate::world::WorldView;
use vstd::prelude::*;

verus! {

/// The value that the last write of `writes` to `target` stores, if any
/// write goes there.
pub open spec fn written(writes: Seq<ComponentWrite>, target: (EntityId, TypeKey)) -> Option<
    Seq<u8>,
>
    decreases writes.len(),
{
    if writes.len() == 0 {
        None
    } else if (writes.last().entity, writes.last().key) == target {
        Some(writes.last().value)
    } else {
        written(writes.drop_last(), target)
    }
}

/// After a replay a place holds what was last written to it, or what it
/// held before where nothing was written to it.
pub proof fn lemma_replay_written(
    components: Map<(EntityId, TypeKey), Seq<u8>>,
    writes: Seq<ComponentWrite>,
    target: (EntityId, TypeKey),
)
    ensures
        replay(components, writes).contains_key(target) == (components.contains_key(target)
            || written(writes, target) is Some),
        replay(components, writes).contains_key(target) ==> replay(components, writes)[target]
            == (match written(writes, target) {
            Some(value) => value,
            None => components[target],
        }),
    decreases writes.len(),
{
    if writes.len() > 0 {
        lemma_replay_written(components, writes.drop_last(), target);
    }
}

/// Where no write goes to a place, nothing is written to it.
pub proof fn lemma_written_none(writes: Seq<ComponentWrite>, target: (EntityId, TypeKey))
    requires
        forall|i: int|
            0 <= i < writes.len() ==> ((#[trigger] writes[i]).entity, writes[i].key) != target,
    ensures
        written(writes, target) is None,
    decreases writes.len(),
{
    if writes.len() > 0 {
        assert(writes.last() == writes[writes.len() - 1]);
        lemma_written_none(writes.drop_last(), target);
    }
}

/// Where write `p` goes to a place and no later write does, the place is
/// written with the value of write `p`.
pub proof fn lemma_written_last(
    writes: Seq<ComponentWrite>,
    target: (EntityId, TypeKey),
    p: int,
)
    requires
        0 <= p < writes.len(),
        (writes[p].entity, writes[p].key) == target,
        forall|q: int|
            p < q < writes.len() ==> ((#[trigger] writes[q]).entity, writes[q].key) != target,
    ensures
        written(writes, target) == Some(writes[p].value),
    decreases writes.len(),
{
    if p < writes.len() - 1 {
        assert(writes.last() == writes[writes.len() - 1]);
        assert(writes.drop_last()[p] == writes[p]);
        lemma_written_last(writes.drop_last(), target, p);
    }
}

/// Of two lists of writes in a row, the second decides what is written to
/// a place where it writes there, and the first otherwise.
pub proof fn lemma_written_concat(
    first: Seq<ComponentWrite>,
    second: Seq<ComponentWrite>,
    target: (EntityId, TypeKey),
)
    ensures
        written(first + second, target) == (if written(second, target) is Some {
            written(second, target)
        } else {
            written(first, target)
        }),
    decreases second.len(),
{
    if second.len() == 0 {
        assert(first + second =~= first);
    } else {
        assert((first + second).drop_last() =~= first + second.drop_last());
        assert((first + second).last() == second.last());
        lemma_written_concat(first, second.drop_last(), target);
    }
}

/// Replaying the same writes a second time changes nothing.
pub proof fn lemma_replay_twice(
    components: Map<(EntityId, TypeKey), Seq<u8>>,
    writes: Seq<ComponentWrite>,
)
    ensures
        replay(replay(components, writes), writes) == replay(components, writes),
{
    let once = replay(components, writes);
    let twice = replay(once, writes);
    assert forall|target: (EntityId, TypeKey)| #[trigger]
        twice.contains_key(target) == once.contains_key(target) by {
        lemma_replay_written(components, writes, target);
        lemma_replay_written(once, writes, target);
    }
    assert forall|target: (EntityId, TypeKey)| twice.contains_key(target) implies #[trigger] twice[target]
        == once[target] by {
        lemma_replay_written(components, writes, target);
        lemma_replay_written(once, writes, target);
    }
    assert(twice =~= once);
}

/// Whether distinct entities of `entities` that are keys of `table` have
/// distinct destinations.
pub open spec fn injective_on(entities: Seq<EntityId>, table: Map<EntityId, EntityId>) -> bool {
    forall|a: EntityId, b: EntityId|
        entities.contains(a) && entities.contains(b) && #[trigger] table.contains_key(a)
            && #[trigger] table.contains_key(b) && a != b ==> table[a] != table[b]
}

/// What giving destinations to the first `n` entities does to a table: no
/// entry is removed or changed, each of the `n` entities has an entry
/// afterwards, and the new entries lead to distinct fresh entities.
pub proof fn lemma_assigned(
    entities: Seq<EntityId>,
    table: Map<EntityId, EntityId>,
    next_id: nat,
    n: nat,
)
    requires
        n <= entities.len(),
        assigned(entities, table, next_id, n).next_id <= u64::MAX,
    ensures
        ({
            let a = assigned(entities, table, next_id, n);
            &&& next_id <= a.next_id <= next_id + n
            &&& forall|k: EntityId| #[trigger]
                table.contains_key(k) ==> a.table.contains_key(k) && a.table[k] == table[k]
            &&& forall|i: int| 0 <= i < n ==> a.table.contains_key(#[trigger] entities[i])
            &&& forall|k: EntityId| #[trigger]
                a.table.contains_key(k) && !table.contains_key(k) ==> entities.take(
                    n as int,
                ).contains(k) && next_id <= a.table[k] < a.next_id
            &&& forall|k1: EntityId, k2: EntityId|
                #[trigger] a.table.contains_key(k1) && #[trigger] a.table.contains_key(k2)
                    && !table.contains_key(k1) && !table.contains_key(k2) && k1 != k2
                    ==> a.table[k1] != a.table[k2]
        }),
    decreases n,
{
    if n > 0 {
        let m = (n - 1) as nat;
        lemma_assigned(entities, table, next_id, m);
        let earlier = assigned(entities, table, next_id, m);
        let a = assigned(entities, table, next_id, n);
        let entity = entities[n - 1];
        assert(entities.take(n as int)[n - 1] == entity);
        assert forall|k: EntityId| #[trigger]
            a.table.contains_key(k) && !table.contains_key(k) implies entities.take(
            n as int,
        ).contains(k) && next_id <= a.table[k] < a.next_id by {
            if earlier.table.contains_key(k) {
                let p = choose|p: int| 0 <= p < m && entities.take(m as int)[p] == k;
                assert(entities.take(n as int)[p] == k);
            }
        }
    }
}

/// Entities that all have an entry get no new destinations.
pub proof fn lemma_assigned_when_present(
    entities: Seq<EntityId>,
    table: Map<EntityId, EntityId>,
    next_id: nat,
    n: nat,
)
    requires
        n <= entities.len(),
        forall|i: int| 0 <= i < n ==> table.contains_key(#[trigger] entities[i]),
    ensures
        assigned(entities, table, next_id, n) == (Assignment { table, next_id }),
    decreases n,
{
    if n > 0 {
        lemma_assigned_when_present(entities, table, next_id, (n - 1) as nat);
    }
}

/// Starting from an empty table, the entity at position `i` gets the `i`-th
/// fresh entity.
pub proof fn lemma_assigned_fresh(entities: Seq<EntityId>, next_id: nat, n: nat)
    requires
        n <= entities.len(),
        entities.no_duplicates(),
        next_id + n <= u64::MAX,
    ensures
        ({
            let a = assigned(entities, Map::empty(), next_id, n);
            &&& a.next_id == next_id + n
            &&& forall|k: EntityId| #[trigger]
                a.table.contains_key(k) <==> entities.take(n as int).contains(k)
            &&& forall|i: int| 0 <= i < n ==> a.table[#[trigger] entities[i]] == next_id + i
        }),
    decreases n,
{
    if n > 0 {
        let m = (n - 1) as nat;
        lemma_assigned_fresh(entities, next_id, m);
        let earlier = assigned(entities, Map::empty(), next_id, m);
        let a = assigned(entities, Map::empty(), next_id, n);
        let entity = entities[n - 1];
        assert(!earlier.table.contains_key(entity)) by {
            if earlier.table.contains_key(entity) {
                let p = choose|p: int| 0 <= p < m && entities.take(m as int)[p] == entity;
                assert(entities[p] == entities[n - 1]);
            }
        }
        assert(entities.take(n as int)[n - 1] == entity);
        assert forall|k: EntityId| #[trigger]
            a.table.contains_key(k) <==> entities.take(n as int).contains(k) by {
            if earlier.table.contains_key(k) {
                let p = choose|p: int| 0 <= p < m && entities.take(m as int)[p] == k;
                assert(entities.take(n as int)[p] == k);
            }
            if entities.take(n as int).contains(k) && k != entity {
                let p = choose|p: int| 0 <= p < n && entities.take(n as int)[p] == k;
                assert(entities.take(m as int)[p] == k);
            }
        }
    }
}

/// A table that sends distinct source entities to distinct entities below
/// the allocation counter still does so after the merge has added its
/// entries.
pub proof fn lemma_assigned_injective(
    entities: Seq<EntityId>,
    table: Map<EntityId, EntityId>,
    next_id: nat,
)
    requires
        ids_suffice(entities, table, next_id),
        injective_on(entities, table),
        forall|e: EntityId| #[trigger]
            table.contains_key(e) && entities.contains(e) ==> table[e] < next_id,
    ensures
        injective_on(entities, assigned(entities, table, next_id, entities.len()).table),
{
    lemma_assigned(entities, table, next_id, entities.len());
    let after = assigned(entities, table, next_id, entities.len()).table;
    assert forall|a: EntityId, b: EntityId|
        entities.contains(a) && entities.contains(b) && #[trigger] after.contains_key(a)
            && #[trigger] after.contains_key(b) && a != b implies after[a] != after[b] by {
        if table.contains_key(a) && table.contains_key(b) {
        } else if table.contains_key(a) {
            assert(after[a] == table[a]);
        } else if table.contains_key(b) {
            assert(after[b] == table[b]);
        }
    }
}

/// The mappings that run do not write components of a type that none of
/// them has as its destination type: after the merge the destination holds
/// of that type what it held before.
pub proof fn lemma_type_not_written<F: ComponentTransform>(
    source: WorldView,
    components: Map<(EntityId, TypeKey), Seq<u8>>,
    registry: Map<TypeKey, RegistrationView>,
    set: Seq<TransformMapping<F>>,
    table: Map<EntityId, EntityId>,
    filter: Option<Seq<TypeKey>>,
    n: nat,
    target: (EntityId, TypeKey),
)
    requires
        n <= set.len(),
        forall|i: int|
            0 <= i < n && runs(registry, set, filter, i) ==> (#[trigger] set[i]).destination
                != target.1,
    ensures
        written(merge_writes(source, registry, set, table, filter, n), target) is None,
        replay(
            components,
            merge_writes(source, registry, set, table, filter, n),
        ).contains_key(target) == components.contains_key(target),
        components.contains_key(target) ==> replay(
            components,
            merge_writes(source, registry, set, table, filter, n),
        )[target] == components[target],
    decreases n,
{
    if n > 0 {
        let m = (n - 1) as nat;
        lemma_type_not_written(source, components, registry, set, table, filter, m, target);
        let earlier = merge_writes(source, registry, set, table, filter, m);
        if runs(registry, set, filter, n - 1) {
            let block = mapping_writes(
                source,
                table,
                set[n - 1],
                registry[set[n - 1].destination].default_value,
            );
            assert(set[n - 1].destination != target.1);
            lemma_written_none(block, target);
            lemma_written_concat(earlier, block, target);
        }
    }
    lemma_replay_written(
        components,
        merge_writes(source, registry, set, table, filter, n),
        target,
    );
}

/// What the first `n` mappings write to the destination of `entity` under
/// the destination type of mapping `j`, where `j` is among them and is the
/// only mapping that runs with that destination type.
proof fn lemma_mapping_written<F: ComponentTransform>(
    source: WorldView,
    registry: Map<TypeKey, RegistrationView>,
    set: Seq<TransformMapping<F>>,
    table: Map<EntityId, EntityId>,
    filter: Option<Seq<TypeKey>>,
    j: int,
    entity: EntityId,
    n: nat,
)
    requires
        source.entities.no_duplicates(),
        0 <= j < n <= set.len(),
        runs(registry, set, filter, j),
        forall|i: int|
            0 <= i < set.len() && i != j && runs(registry, set, filter, i) ==> (
            #[trigger] set[i]).destination != set[j].destination,
        source.entities.contains(entity),
        source.has(entity, set[j].source),
        injective_on(source.entities, table),
        forall|e: EntityId| source.entities.contains(e) ==> #[trigger] table.contains_key(e),
    ensures
        written(
            merge_writes(source, registry, set, table, filter, n),
            (table[entity], set[j].destination),
        ) == Some(
            set[j].value(
                entity,
                source.components[(entity, set[j].source)],
                registry[set[j].destination].default_value,
            ),
        ),
    decreases n,
{
    let target = (table[entity], set[j].destination);
    let m = (n - 1) as nat;
    let earlier = merge_writes(source, registry, set, table, filter, m);
    if m == j {
        let block = mapping_writes(
            source,
            table,
            set[j],
            registry[set[j].destination].default_value,
        );
        let holders = source.holders(set[j].source);
        source.lemma_holders(set[j].source);
        let at = choose|at: int| 0 <= at < source.entities.len() && source.entities[at] == entity;
        assert(holders.contains(source.entities[at]));
        let p = choose|p: int| 0 <= p < holders.len() && holders[p] == entity;
        assert forall|q: int| p < q < block.len() implies ((#[trigger] block[q]).entity, block[q].key)
            != target by {
            assert(holders[q] != holders[p]);
            assert(source.entities.contains(holders[q]));
            assert(table.contains_key(holders[q]));
            assert(table.contains_key(holders[p]));
        }
        lemma_written_last(block, target, p);
        lemma_written_concat(earlier, block, target);
    } else {
        lemma_mapping_written(source, registry, set, table, filter, j, entity, m);
        if runs(registry, set, filter, n - 1) {
            let block = mapping_writes(
                source,
                table,
                set[n - 1],
                registry[set[n - 1].destination].default_value,
            );
            assert(set[n - 1].destination != set[j].destination);
            lemma_written_none(block, target);
            lemma_written_concat(earlier, block, target);
        }
    }
}

/// Whether mapping `j` runs and is the only mapping that runs with its
/// destination type.
pub open spec fn writes_alone<F: ComponentTransform>(
    registry: Map<TypeKey, RegistrationView>,
    set: Seq<TransformMapping<F>>,
    filter: Option<Seq<TypeKey>>,
    j: int,
) -> bool {
    &&& 0 <= j < set.len()
    &&& runs(registry, set, filter, j)
    &&& forall|i: int|
        0 <= i < set.len() && i != j && runs(registry, set, filter, i) ==> (
        #[trigger] set[i]).destination != set[j].destination
}

/// Whether a merge of `source` into `destination` with `table` can be
/// asked for: both containers are consistent, the table leads the source
/// entities that it names to entities of the destination, and the
/// destination has an identifier left for every source entity that the
/// table does not name.
pub open spec fn mergeable(
    source: WorldView,
    destination: WorldView,
    table: Map<EntityId, EntityId>,
) -> bool {
    &&& source.wf()
    &&& destination.wf()
    &&& targets_present(source.entities, table, destination.entities)
    &&& ids_suffice(source.entities, table, destination.next_id)
}

/// After a merge every source entity has a destination that is an entity
/// of the destination container, and a table that sent distinct source
/// entities to distinct destinations still does so.
pub proof fn lemma_merged_table(
    source: WorldView,
    destination: WorldView,
    table: Map<EntityId, EntityId>,
)
    requires
        mergeable(source, destination, table),
    ensures
        ({
            let a = assigned(
                source.entities,
                table,
                destination.next_id,
                source.entities.len(),
            );
            let listed = destination.entities + fresh_entities(destination.next_id, a.next_id);
            &&& merged_table(source, destination, table) == a.table
            &&& forall|e: EntityId| #[trigger]
                table.contains_key(e) ==> a.table.contains_key(e) && a.table[e] == table[e]
            &&& forall|e: EntityId|
                source.entities.contains(e) ==> #[trigger] a.table.contains_key(e)
                    && listed.contains(a.table[e])
            &&& injective_on(source.entities, table) ==> injective_on(source.entities, a.table)
        }),
{
    let count = source.entities.len();
    let a = assigned(source.entities, table, destination.next_id, count);
    let fresh = fresh_entities(destination.next_id, a.next_id);
    let listed = destination.entities + fresh;
    lemma_assigned(source.entities, table, destination.next_id, count);
    assert forall|e: EntityId| source.entities.contains(e) implies #[trigger] a.table.contains_key(
        e,
    ) && listed.contains(a.table[e]) by {
        let p = choose|p: int| 0 <= p < count && source.entities[p] == e;
        assert(a.table.contains_key(source.entities[p]));
        if table.contains_key(e) {
            let q = choose|q: int|
                0 <= q < destination.entities.len() && destination.entities[q] == table[e];
            assert(listed[q] == a.table[e]);
        } else {
            let at = a.table[e] - destination.next_id;
            assert(fresh[at] == a.table[e]);
            assert(listed[destination.entities.len() + at] == a.table[e]);
        }
    }
    if injective_on(source.entities, table) {
        assert forall|e: EntityId| #[trigger]
            table.contains_key(e) && source.entities.contains(e) implies table[e]
            < destination.next_id by {
            let q = choose|q: int|
                0 <= q < destination.entities.len() && destination.entities[q] == table[e];
            assert(destination.entities[q] < destination.next_id);
        }
        lemma_assigned_injective(source.entities, table, destination.next_id);
    }
}

/// After a merge the destination of each source entity carries, under the
/// destination type of a mapping that ran, the value that the mapping makes
/// of the entity's own source component: one destination value per source
/// component, each from its own source.
///
/// This holds where no other mapping that runs has the same destination
/// type, and where the table sends distinct source entities to distinct
/// destinations, as a table without entries does.
pub proof fn lemma_mapping_result<F: ComponentTransform>(
    source: WorldView,
    destination: WorldView,
    registry: Map<TypeKey, RegistrationView>,
    set: Seq<TransformMapping<F>>,
    table: Map<EntityId, EntityId>,
    filter: Option<Seq<TypeKey>>,
    j: int,
    entity: EntityId,
)
    requires
        mergeable(source, destination, table),
        injective_on(source.entities, table),
        writes_alone(registry, set, filter, j),
        source.has(entity, set[j].source),
    ensures
        ({
            let after = merged(source, destination, registry, set, table, filter);
            let target = merged_table(source, destination, table)[entity];
            &&& after.entities.contains(target)
            &&& after.has(target, set[j].destination)
            &&& after.components[(target, set[j].destination)] == set[j].value(
                entity,
                source.components[(entity, set[j].source)],
                registry[set[j].destination].default_value,
            )
        }),
{
    let after_table = merged_table(source, destination, table);
    let after = merged(source, destination, registry, set, table, filter);
    lemma_merged_table(source, destination, table);
    assert(source.entities.contains(entity));
    assert(after_table.contains_key(entity));
    assert(after.entities.contains(after_table[entity]));
    lemma_mapping_written(source, registry, set, after_table, filter, j, entity, set.len());
    lemma_replay_written(
        destination.components,
        merge_writes(source, registry, set, after_table, filter, set.len()),
        (after_table[entity], set[j].destination),
    );
}

/// After a merge with a mapping that copies one field, the destination of
/// each source entity carries the field of the entity's own source
/// component in the field's place of the destination value, for every
/// source entity alike.
///
/// This holds under the conditions of `lemma_mapping_result`, where the
/// field lies inside the source component and inside the default value of
/// the destination type.
pub proof fn lemma_field_copy_result(
    source: WorldView,
    destination: WorldView,
    registry: Map<TypeKey, RegistrationView>,
    set: Seq<TransformMapping<FieldCopy>>,
    table: Map<EntityId, EntityId>,
    filter: Option<Seq<TypeKey>>,
    j: int,
    entity: EntityId,
)
    requires
        mergeable(source, destination, table),
        injective_on(source.entities, table),
        writes_alone(registry, set, filter, j),
        source.has(entity, set[j].source),
        set[j].transform is Some,
        set[j].transform->0.fits(
            source.components[(entity, set[j].source)].len(),
            registry[set[j].destination].default_value.len(),
        ),
    ensures
        ({
            let copy = set[j].transform->0;
            let after = merged(source, destination, registry, set, table, filter);
            let target = merged_table(source, destination, table)[entity];
            let value = after.components[(target, set[j].destination)];
            let field = source.components[(entity, set[j].source)].subrange(
                copy.source_offset as int,
                copy.source_offset + copy.len,
            );
            &&& after.has(target, set[j].destination)
            &&& value.len() == registry[set[j].destination].default_value.len()
            &&& value.subrange(copy.destination_offset as int, copy.destination_offset + copy.len)
                == field
        }),
{
    lemma_mapping_result(source, destination, registry, set, table, filter, j, entity);
    set[j].transform->0.lemma_copied(
        source.components[(entity, set[j].source)],
        registry[set[j].destination].default_value,
    );
}

/// After a merge with the identity mapping of a type, the destination of
/// each source entity that holds a component of the type holds the same
/// bytes under the same type.
///
/// This holds where the identity mapping runs, no other mapping that runs
/// writes the type, and the table sends distinct source entities to
/// distinct destinations, as a table without entries does.
pub proof fn lemma_identity_round_trip<F: ComponentTransform>(
    source: WorldView,
    destination: WorldView,
    registry: Map<TypeKey, RegistrationView>,
    set: Seq<TransformMapping<F>>,
    table: Map<EntityId, EntityId>,
    filter: Option<Seq<TypeKey>>,
    j: int,
    entity: EntityId,
)
    requires
        mergeable(source, destination, table),
        injective_on(source.entities, table),
        writes_alone(registry, set, filter, j),
        set[j].is_identity(),
        set[j].source == set[j].destination,
        source.has(entity, set[j].source),
    ensures
        ({
            let after = merged(source, destination, registry, set, table, filter);
            let target = merged_table(source, destination, table)[entity];
            &&& after.entities.contains(target)
            &&& after.has(target, set[j].source)
            &&& after.components[(target, set[j].source)] == source.components[(
                entity,
                set[j].source,
            )]
        }),
{
    lemma_mapping_result(source, destination, registry, set, table, filter, j, entity);
}

/// A second merge of the same source with the table that the first merge
/// left creates no entity, leaves the table as it is and leaves every
/// component as the first merge wrote it.
pub proof fn lemma_second_merge_changes_nothing<F: ComponentTransform>(
    source: WorldView,
    destination: WorldView,
    registry: Map<TypeKey, RegistrationView>,
    set: Seq<TransformMapping<F>>,
    table: Map<EntityId, EntityId>,
    filter: Option<Seq<TypeKey>>,
)
    requires
        mergeable(source, destination, table),
    ensures
        ({
            let first = merged(source, destination, registry, set, table, filter);
            let first_table = merged_table(source, destination, table);
            &&& mergeable(source, first, first_table)
            &&& merged_table(source, first, first_table) == first_table
            &&& merged(source, first, registry, set, first_table, filter) == first
        }),
{
    let count = source.entities.len();
    let first = merged(source, destination, registry, set, table, filter);
    let first_table = merged_table(source, destination, table);
    lemma_merged_table(source, destination, table);
    lemma_assigned(source.entities, table, destination.next_id, count);
    lemma_merged_wf(source, destination, registry, set, table, filter);
    assert forall|i: int| 0 <= i < count implies first_table.contains_key(
        #[trigger] source.entities[i],
    ) by {
        assert(source.entities.contains(source.entities[i]));
    }
    lemma_assigned_when_present(source.entities, first_table, first.next_id, count);
    lemma_replay_twice(
        destination.components,
        merge_writes(source, registry, set, first_table, filter, set.len()),
    );
    let second = merged(source, first, registry, set, first_table, filter);
    assert(fresh_entities(first.next_id, first.next_id) =~= Seq::<EntityId>::empty());
    assert(second.entities =~= first.entities);
    assert(second =~= first);
}

/// The destination container is consistent after a merge.
pub proof fn lemma_merged_wf<F: ComponentTransform>(
    source: WorldView,
    destination: WorldView,
    registry: Map<TypeKey, RegistrationView>,
    set: Seq<TransformMapping<F>>,
    table: Map<EntityId, EntityId>,
    filter: Option<Seq<TypeKey>>,
)
    requires
        mergeable(source, destination, table),
    ensures
        merged(source, destination, registry, set, table, filter).wf(),
{
    let count = source.entities.len();
    let a = assigned(source.entities, table, destination.next_id, count);
    let after = merged(source, destination, registry, set, table, filter);
    let fresh = fresh_entities(destination.next_id, a.next_id);
    let writes = merge_writes(source, registry, set, a.table, filter, set.len());
    lemma_assigned(source.entities, table, destination.next_id, count);
    lemma_merged_table(source, destination, table);
    assert forall|x: int, y: int|
        0 <= x < after.entities.len() && 0 <= y < after.entities.len() && x != y implies after.entities[x]
        != after.entities[y] by {
        let old_count = destination.entities.len();
        if x < old_count && y < old_count {
        } else if x >= old_count && y >= old_count {
        } else {
            let low = if x < y {
                x
            } else {
                y
            };
            assert(destination.entities[low] < destination.next_id);
        }
    }
    assert forall|i: int| 0 <= i < after.entities.len() implies (#[trigger] after.entities[i])
        < after.next_id by {
        if i < destination.entities.len() {
            assert(destination.entities[i] < destination.next_id);
        }
    }
    assert forall|e: EntityId, k: TypeKey| #[trigger]
        after.components.contains_key((e, k)) implies after.entities.contains(e) by {
        lemma_replay_written(destination.components, writes, (e, k));
        if destination.components.contains_key((e, k)) {
            let q = choose|q: int|
                0 <= q < destination.entities.len() && destination.entities[q] == e;
            assert(after.entities[q] == e);
        } else {
            lemma_written_source(source, registry, set, a.table, filter, set.len(), (e, k));
        }
    }
}

/// A place that the first `n` mappings write to belongs to the destination
/// of a source entity.
proof fn lemma_written_source<F: ComponentTransform>(
    source: WorldView,
    registry: Map<TypeKey, RegistrationView>,
    set: Seq<TransformMapping<F>>,
    table: Map<EntityId, EntityId>,
    filter: Option<Seq<TypeKey>>,
    n: nat,
    target: (EntityId, TypeKey),
)
    requires
        n <= set.len(),
        written(merge_writes(source, registry, set, table, filter, n), target) is Some,
    ensures
        exists|e: EntityId| source.entities.contains(e) && #[trigger] table[e] == target.0,
    decreases n,
{
    let m = (n - 1) as nat;
    let earlier = merge_writes(source, registry, set, table, filter, m);
    if n == 0 {
    } else if runs(registry, set, filter, n - 1) {
        let block = mapping_writes(
            source,
            table,
            set[n - 1],
            registry[set[n - 1].destination].default_value,
        );
        lemma_written_concat(earlier, block, target);
        if written(block, target) is Some {
            let holders = source.holders(set[n - 1].source);
            source.lemma_holders(set[n - 1].source);
            if forall|i: int|
                0 <= i < block.len() ==> ((#[trigger] block[i]).entity, block[i].key) != target {
                lemma_written_none(block, target);
            } else {
                let i = choose|i: int|
                    0 <= i < block.len() && ((#[trigger] block[i]).entity, block[i].key)
                        == target;
                assert(source.entities.contains(holders[i]));
                assert(table[holders[i]] == target.0);
            }
        } else {
            lemma_written_source(source, registry, set, table, filter, m, target);
        }
    } else {
        lemma_written_source(source, registry, set, table, filter, m, target);
    }
}

/// Two merges of the same source, each with a table without entries, make
/// as many new entities as the source has, each time, and no entity of the
/// first merge is an entity of the second: the source entity at position
/// `i` gets the `i`-th new entity of each merge.
pub proof fn lemma_fresh_merges_disjoint<F: ComponentTransform>(
    source: WorldView,
    destination: WorldView,
    registry: Map<TypeKey, RegistrationView>,
    set: Seq<TransformMapping<F>>,
    filter: Option<Seq<TypeKey>>,
)
    requires
        source.wf(),
        destination.wf(),
        destination.next_id + 2 * source.entities.len() <= u64::MAX,
    ensures
        ({
            let count = source.entities.len();
            let first = merged(source, destination, registry, set, Map::empty(), filter);
            let first_table = merged_table(source, destination, Map::empty());
            let second = merged(source, first, registry, set, Map::empty(), filter);
            let second_table = merged_table(source, first, Map::empty());
            let made_first = fresh_entities(destination.next_id, first.next_id);
            let made_second = fresh_entities(first.next_id, second.next_id);
            &&& first.entities == destination.entities + made_first
            &&& second.entities == first.entities + made_second
            &&& made_first.len() == count
            &&& made_second.len() == count
            &&& made_first.no_duplicates()
            &&& made_second.no_duplicates()
            &&& forall|i: int, j: int|
                0 <= i < count && 0 <= j < count ==> made_first[i] != made_second[j]
            &&& forall|i: int|
                0 <= i < count ==> first_table[#[trigger] source.entities[i]] == made_first[i]
                    && second_table[source.entities[i]] == made_second[i]
        }),
{
    let count = source.entities.len();
    lemma_assigned_fresh(source.entities, destination.next_id, count);
    let first = merged(source, destination, registry, set, Map::empty(), filter);
    lemma_assigned_fresh(source.entities, first.next_id, count);
}

/// A merge leaves the components of a type as they were where no mapping
/// that runs has the type as its destination type. Where the destination
/// held no component of the type before, it holds none afterwards, whatever
/// the source holds.
pub proof fn lemma_unwritten_type<F: ComponentTransform>(
    source: WorldView,
    destination: WorldView,
    registry: Map<TypeKey, RegistrationView>,
    set: Seq<TransformMapping<F>>,
    table: Map<EntityId, EntityId>,
    filter: Option<Seq<TypeKey>>,
    key: TypeKey,
)
    requires
        forall|i: int|
            0 <= i < set.len() && runs(registry, set, filter, i) ==> (#[trigger] set[i]).destination
                != key,
    ensures
        ({
            let after = merged(source, destination, registry, set, table, filter);
            forall|e: EntityId|
                #![trigger after.has(e, key)]
                #![trigger destination.has(e, key)]
                after.has(e, key) == destination.has(e, key) && (destination.has(e, key)
                    ==> after.components[(e, key)] == destination.components[(e, key)])
        }),
{
    let after = merged(source, destination, registry, set, table, filter);
    let after_table = merged_table(source, destination, table);
    assert forall|e: EntityId|
        #![trigger after.has(e, key)]
        #![trigger destination.has(e, key)]
        after.has(e, key) == destination.has(e, key) && (destination.has(e, key)
            ==> after.components[(e, key)] == destination.components[(e, key)]) by {
        lemma_type_not_written(
            source,
            destination.components,
            registry,
            set,
            after_table,
            filter,
            set.len(),
            (e, key),
        );
    }
}

} // verus!
