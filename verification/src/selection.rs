//! The registry of selectable component types and the selection index that
//! their callbacks build.

use crate::registry::{RegistrationView, Registry};
use crate::type_key::{EntityId, TypeKey};
use crate::world::{copy_bytes, World, WorldView};
use vstd::prelude::*;

verus! {

/// A selection shape, as mathematics.
pub struct ShapeView {
    pub entity: EntityId,
    pub data: Seq<u8>,
}

/// A shape by which an entity can be picked: the entity and the bytes that
/// describe the shape.
pub struct SelectionShape {
    pub entity: EntityId,
    pub data: Vec<u8>,
}

impl View for SelectionShape {
    type V = ShapeView;

    open spec fn view(&self) -> ShapeView {
        ShapeView { entity: self.entity, data: self.data@ }
    }
}

/// The index that selection is answered from: the shapes placed so far, in
/// the order in which they were placed.
pub struct SelectionWorld {
    shapes: Vec<SelectionShape>,
}

impl View for SelectionWorld {
    type V = Seq<ShapeView>;

    closed spec fn view(&self) -> Seq<ShapeView> {
        Seq::new(self.shapes@.len(), |i: int| self.shapes@[i]@)
    }
}

impl SelectionWorld {
    /// An index without shapes.
    pub fn new() -> (world: SelectionWorld)
        ensures
            world@ == Seq::<ShapeView>::empty(),
    {
        let world = SelectionWorld { shapes: Vec::new() };
        assert(world@ =~= Seq::<ShapeView>::empty());
        world
    }

    /// The number of shapes.
    pub fn len(&self) -> (count: usize)
        ensures
            count == self@.len(),
    {
        self.shapes.len()
    }

    /// The shape at position `index`.
    pub fn shape_at(&self, index: usize) -> (shape: &SelectionShape)
        requires
            index < self@.len(),
        ensures
            shape@ == self@[index as int],
    {
        &self.shapes[index]
    }

    /// Places a shape for `entity`.
    pub fn add(&mut self, entity: EntityId, data: Vec<u8>)
        ensures
            final(self)@ == old(self)@.push(ShapeView { entity, data: data@ }),
    {
        self.shapes.push(SelectionShape { entity, data });
        assert(self@ =~= old(self)@.push(ShapeView { entity, data: data@ }));
    }
}

/// What a selectable component type does when the selection index is
/// built: it places shapes for one of its components.
///
/// `context` is what the caller hands to every callback. A callback that
/// skips an entity places no shape.
pub trait EditorSelectable<C>: Sized {
    /// The shapes that the callback places for the component `component` of
    /// `entity`.
    spec fn shapes(&self, context: C, entity: EntityId, component: Seq<u8>) -> Seq<ShapeView>;

    /// Places the shapes of one component into the selection index.
    fn create_editor_selection_world(
        &self,
        collision_world: &mut SelectionWorld,
        context: &C,
        entity: EntityId,
        component: &Vec<u8>,
    )
        ensures
            final(collision_world)@ == old(collision_world)@ + self.shapes(
                *context,
                entity,
                component@,
            ),
    ;
}

/// The callback that places one shape per component: the component's own
/// bytes, for its entity.
#[derive(Clone, Copy, Debug)]
pub struct ComponentShape;

impl<C> EditorSelectable<C> for ComponentShape {
    open spec fn shapes(&self, context: C, entity: EntityId, component: Seq<u8>) -> Seq<
        ShapeView,
    > {
        seq![ShapeView { entity, data: component }]
    }

    fn create_editor_selection_world(
        &self,
        collision_world: &mut SelectionWorld,
        context: &C,
        entity: EntityId,
        component: &Vec<u8>,
    ) {
        collision_world.add(entity, copy_bytes(component));
        let ghost before = old(collision_world)@;
        assert(before.push(ShapeView { entity, data: component@ }) =~= before + seq![
            ShapeView { entity, data: component@ },
        ]);
    }
}

/// One registered selectable type: its key and its callback.
pub struct SelectableEntry<S> {
    pub type_key: TypeKey,
    pub selectable: S,
}

/// One callback invocation: the position of the registered entry and the
/// entity whose component is handed to the entry's callback.
pub struct SelectionVisit {
    pub entry: usize,
    pub entity: EntityId,
}

/// The visits of entry `entry`: one per holder, in the holders' order.
pub open spec fn entry_visits(entry: int, holders: Seq<EntityId>) -> Seq<(int, EntityId)> {
    Seq::new(holders.len(), |p: int| (entry, holders[p]))
}

/// The visits of the first `n` entries: entry after entry in the order of
/// registration, and for each entry the entities that hold a component of
/// its type, in container order.
pub open spec fn visits_upto<S>(entries: Seq<SelectableEntry<S>>, world: WorldView, n: nat) -> Seq<
    (int, EntityId),
>
    decreases n,
{
    if n == 0 {
        Seq::empty()
    } else {
        visits_upto(entries, world, (n - 1) as nat) + entry_visits(
            n - 1,
            world.holders(entries[n - 1].type_key),
        )
    }
}

/// All visits that building the selection index makes.
pub open spec fn visits<S>(entries: Seq<SelectableEntry<S>>, world: WorldView) -> Seq<
    (int, EntityId),
> {
    visits_upto(entries, world, entries.len())
}

/// The shapes that the callbacks place when they are invoked once for each
/// visit of `visits`, in order.
pub open spec fn shapes_of<C, S: EditorSelectable<C>>(
    entries: Seq<SelectableEntry<S>>,
    context: C,
    world: WorldView,
    visits: Seq<(int, EntityId)>,
) -> Seq<ShapeView>
    decreases visits.len(),
{
    if visits.len() == 0 {
        Seq::empty()
    } else {
        let visit = visits.last();
        shapes_of(entries, context, world, visits.drop_last()) + entries[visit.0].selectable.shapes(
            context,
            visit.1,
            world.components[(visit.1, entries[visit.0].type_key)],
        )
    }
}

/// The visits as positions and entities.
pub open spec fn visit_pairs(list: Seq<SelectionVisit>) -> Seq<(int, EntityId)> {
    Seq::new(list.len(), |i: int| (list[i].entry as int, list[i].entity))
}

/// The component types that take part in selection, each with its
/// callback, in the order of their registration.
pub struct EditorSelectableRegistry<S> {
    registered: Vec<SelectableEntry<S>>,
}

impl<S> View for EditorSelectableRegistry<S> {
    type V = Seq<SelectableEntry<S>>;

    closed spec fn view(&self) -> Seq<SelectableEntry<S>> {
        self.registered@
    }
}

impl<S> Default for EditorSelectableRegistry<S> {
    /// A registry without entries.
    fn default() -> (registry: EditorSelectableRegistry<S>)
        ensures
            registry@ == Seq::<SelectableEntry<S>>::empty(),
    {
        EditorSelectableRegistry { registered: Vec::new() }
    }
}

impl<S> EditorSelectableRegistry<S> {
    /// A registry without entries.
    pub fn new() -> (registry: EditorSelectableRegistry<S>)
        ensures
            registry@ == Seq::<SelectableEntry<S>>::empty(),
    {
        EditorSelectableRegistry { registered: Vec::new() }
    }

    /// The number of entries.
    pub fn len(&self) -> (count: usize)
        ensures
            count == self@.len(),
    {
        self.registered.len()
    }

    /// Adds a component type to the registry, so that its components get
    /// the callback when the selection index is built. A type without a
    /// behaviour table in `types` is not added. A type may be added more
    /// than once; each entry has its own visits.
    pub fn register(&mut self, types: &Registry, type_key: TypeKey, selectable: S) -> (added: bool)
        ensures
            added == types@.contains_key(type_key),
            added ==> final(self)@ == old(self)@.push(SelectableEntry { type_key, selectable }),
            !added ==> final(self)@ == old(self)@,
    {
        if types.contains(type_key) {
            self.registered.push(SelectableEntry { type_key, selectable });
            true
        } else {
            false
        }
    }

    /// The callback invocations that building the selection index makes, in
    /// order: one for each registered entry and each entity that holds a
    /// component of the entry's type.
    pub fn selection_visits(&self, world: &World) -> (list: Vec<SelectionVisit>)
        requires
            world.wf(),
        ensures
            visit_pairs(list@) == visits(self@, world@),
    {
        let mut list: Vec<SelectionVisit> = Vec::new();
        let mut i: usize = 0;
        assert(visit_pairs(list@) =~= visits_upto(self@, world@, 0));
        while i < self.registered.len()
            invariant
                i <= self.registered.len(),
                world.wf(),
                visit_pairs(list@) == visits_upto(self@, world@, i as nat),
            decreases self.registered.len() - i,
        {
            let batch = world.column(self.registered[i].type_key);
            let holders = batch.0;
            let ghost before = visit_pairs(list@);
            let ghost block = entry_visits(i as int, holders@);
            let mut p: usize = 0;
            assert(before + block.take(0) =~= before);
            while p < holders.len()
                invariant
                    p <= holders.len(),
                    block == entry_visits(i as int, holders@),
                    visit_pairs(list@) == before + block.take(p as int),
                decreases holders.len() - p,
            {
                let ghost earlier = visit_pairs(list@);
                list.push(SelectionVisit { entry: i, entity: holders[p] });
                proof {
                    assert(visit_pairs(list@) =~= earlier.push((i as int, holders@[p as int])));
                    assert(block.take(p + 1) =~= block.take(p as int).push(block[p as int]));
                    assert(before + block.take(p + 1) =~= (before + block.take(p as int)).push(
                        block[p as int],
                    ));
                }
                p += 1;
            }
            assert(block.take(holders.len() as int) =~= block);
            i += 1;
        }
        list
    }
}

/// The shapes that the callback of `entry` places for the first `n` holders
/// of a component of its type, in container order.
pub open spec fn entry_shapes_upto<C, S: EditorSelectable<C>>(
    entry: SelectableEntry<S>,
    context: C,
    world: WorldView,
    n: nat,
) -> Seq<ShapeView>
    decreases n,
{
    if n == 0 {
        Seq::empty()
    } else {
        let holder = world.holders(entry.type_key)[n - 1];
        entry_shapes_upto(entry, context, world, (n - 1) as nat) + entry.selectable.shapes(
            context,
            holder,
            world.components[(holder, entry.type_key)],
        )
    }
}

/// The shapes that the callback of `entry` places for the components of its
/// type in `world`.
pub open spec fn entry_shapes<C, S: EditorSelectable<C>>(
    entry: SelectableEntry<S>,
    context: C,
    world: WorldView,
) -> Seq<ShapeView> {
    entry_shapes_upto(entry, context, world, world.holders(entry.type_key).len())
}

/// The visits of one more entry place the shapes of that entry after the
/// shapes of the visits before.
pub proof fn lemma_shapes_of_entry<C, S: EditorSelectable<C>>(
    entries: Seq<SelectableEntry<S>>,
    context: C,
    world: WorldView,
    earlier: Seq<(int, EntityId)>,
    entry: int,
    n: nat,
)
    requires
        0 <= entry < entries.len(),
        n <= world.holders(entries[entry].type_key).len(),
    ensures
        shapes_of(
            entries,
            context,
            world,
            earlier + entry_visits(entry, world.holders(entries[entry].type_key)).take(n as int),
        ) == shapes_of(entries, context, world, earlier) + entry_shapes_upto(
            entries[entry],
            context,
            world,
            n,
        ),
    decreases n,
{
    let block = entry_visits(entry, world.holders(entries[entry].type_key));
    if n == 0 {
        assert(earlier + block.take(0) =~= earlier);
        assert(shapes_of(entries, context, world, earlier) + Seq::<ShapeView>::empty()
            =~= shapes_of(entries, context, world, earlier));
    } else {
        let m = (n - 1) as nat;
        lemma_shapes_of_entry(entries, context, world, earlier, entry, m);
        let now = earlier + block.take(n as int);
        assert(now.drop_last() =~= earlier + block.take(m as int));
        assert(now.last() == block[n - 1]);
        let placed = entries[entry].selectable.shapes(
            context,
            block[n - 1].1,
            world.components[(block[n - 1].1, entries[entry].type_key)],
        );
        assert((shapes_of(entries, context, world, earlier) + entry_shapes_upto(
            entries[entry],
            context,
            world,
            m,
        )) + placed =~= shapes_of(entries, context, world, earlier) + (entry_shapes_upto(
            entries[entry],
            context,
            world,
            m,
        ) + placed));
    }
}

impl<S> SelectableEntry<S> {
    /// The entry of the component type `type_key` with its callback.
    pub fn new(type_key: TypeKey, selectable: S) -> (entry: SelectableEntry<S>)
        ensures
            entry == (SelectableEntry { type_key, selectable }),
    {
        SelectableEntry { type_key, selectable }
    }

    /// Invokes the callback once for each entity of `world` that holds a
    /// component of the entry's type, in container order, so that the
    /// callback places its shapes into `collision_world`.
    pub fn create_editor_selection_world<C>(
        &self,
        collision_world: &mut SelectionWorld,
        context: &C,
        world: &World,
    ) where S: EditorSelectable<C>
        requires
            world.wf(),
        ensures
            final(collision_world)@ == old(collision_world)@ + entry_shapes(
                *self,
                *context,
                world@,
            ),
    {
        let batch = world.column(self.type_key);
        let holders = batch.0;
        let values = batch.1;
        let ghost before = collision_world@;
        let mut p: usize = 0;
        assert(before + Seq::<ShapeView>::empty() =~= before);
        while p < holders.len()
            invariant
                p <= holders.len(),
                values.len() == holders.len(),
                holders@ == world@.holders(self.type_key),
                forall|k: int|
                    0 <= k < values.len() ==> (#[trigger] values[k])@ == world@.column(
                        self.type_key,
                    )[k],
                collision_world@ == before + entry_shapes_upto(*self, *context, world@, p as nat),
            decreases holders.len() - p,
        {
            let ghost earlier = entry_shapes_upto(*self, *context, world@, p as nat);
            self.selectable.create_editor_selection_world(
                collision_world,
                context,
                holders[p],
                &values[p],
            );
            proof {
                let placed = self.selectable.shapes(*context, holders@[p as int], values[p as int]@);
                assert(values[p as int]@ == world@.column(self.type_key)[p as int]);
                assert((before + earlier) + placed =~= before + (earlier + placed));
            }
            p += 1;
        }
    }
}

impl<S> EditorSelectableRegistry<S> {
    /// Builds the selection index of `world`.
    ///
    /// Without an opened prefab the index stays empty. With one, the
    /// callback of each registered entry is invoked once for each entity
    /// that holds a component of the entry's type: entry after entry in the
    /// order of registration, the entities of one entry in container order.
    /// The index holds what the callbacks placed, in that order.
    pub fn create_editor_selection_world<C>(
        &self,
        opened_prefab: Option<&C>,
        world: &World,
    ) -> (index: SelectionWorld) where S: EditorSelectable<C>
        requires
            world.wf(),
        ensures
            match opened_prefab {
                Some(context) => index@ == shapes_of(
                    self@,
                    *context,
                    world@,
                    visits(self@, world@),
                ),
                None => index@ == Seq::<ShapeView>::empty(),
            },
    {
        let mut collision_world = SelectionWorld::new();
        if let Some(context) = opened_prefab {
            let mut i: usize = 0;
            while i < self.registered.len()
                invariant
                    i <= self.registered.len(),
                    world.wf(),
                    collision_world@ == shapes_of(
                        self@,
                        *context,
                        world@,
                        visits_upto(self@, world@, i as nat),
                    ),
                decreases self.registered.len() - i,
            {
                self.registered[i].create_editor_selection_world(
                    &mut collision_world,
                    context,
                    world,
                );
                proof {
                    let holders = world@.holders(self@[i as int].type_key);
                    lemma_shapes_of_entry(
                        self@,
                        *context,
                        world@,
                        visits_upto(self@, world@, i as nat),
                        i as int,
                        holders.len(),
                    );
                    assert(entry_visits(i as int, holders).take(holders.len() as int)
                        =~= entry_visits(i as int, holders));
                }
                i += 1;
            }
        }
        collision_world
    }
}

/// The first `n` entries of `list` whose types have a behaviour table in
/// `types`, in order.
pub open spec fn registered_entries<S>(
    types: Map<TypeKey, RegistrationView>,
    list: Seq<SelectableEntry<S>>,
    n: nat,
) -> Seq<SelectableEntry<S>>
    decreases n,
{
    if n == 0 {
        Seq::empty()
    } else {
        let earlier = registered_entries(types, list, (n - 1) as nat);
        if types.contains_key(list[n - 1].type_key) {
            earlier.push(list[n - 1])
        } else {
            earlier
        }
    }
}

/// The selection registry of a list of component types with their
/// callbacks, registered in order. A type without a behaviour table in
/// `types` is left out.
pub fn create_editor_selection_registry<S>(types: &Registry, entries: Vec<SelectableEntry<S>>) -> (registry:
    EditorSelectableRegistry<S>)
    ensures
        registry@ == registered_entries(types@, entries@, entries@.len()),
{
    let mut registry = EditorSelectableRegistry::new();
    let ghost list = entries@;
    for entry in iter: entries
        invariant
            list == iter.seq(),
            registry@ == registered_entries(types@, list, iter.index() as nat),
    {
        registry.register(types, entry.type_key, entry.selectable);
    }
    registry
}

/// Every visit of the first `n` entries is a visit of one of them to a
/// holder of its type, every such pair is visited, and none twice where
/// the container lists no entity twice.
pub proof fn lemma_visits_upto<S>(entries: Seq<SelectableEntry<S>>, world: WorldView, n: nat)
    requires
        n <= entries.len(),
        world.entities.no_duplicates(),
    ensures
        forall|entry: int, entity: EntityId|
            visits_upto(entries, world, n).contains((entry, entity)) <==> (0 <= entry < n
                && world.entities.contains(entity) && world.has(
                entity,
                entries[entry].type_key,
            )),
        visits_upto(entries, world, n).no_duplicates(),
    decreases n,
{
    let all = visits_upto(entries, world, n);
    if n == 0 {
        assert forall|entry: int, entity: EntityId| !all.contains((entry, entity)) by {}
    } else {
        let m = (n - 1) as nat;
        lemma_visits_upto(entries, world, m);
        let earlier = visits_upto(entries, world, m);
        let key = entries[n - 1].type_key;
        let holders = world.holders(key);
        let block = entry_visits(n - 1, holders);
        world.lemma_holders(key);
        assert forall|entry: int, entity: EntityId|
            all.contains((entry, entity)) <==> (0 <= entry < n && world.entities.contains(entity)
                && world.has(entity, entries[entry].type_key)) by {
            if all.contains((entry, entity)) {
                let at = choose|at: int| 0 <= at < all.len() && all[at] == (entry, entity);
                if at < earlier.len() {
                    assert(earlier[at] == (entry, entity));
                    assert(earlier.contains((entry, entity)));
                } else {
                    assert(block[at - earlier.len()] == (entry, entity));
                    assert(holders[at - earlier.len()] == entity);
                }
            }
            if 0 <= entry < n && world.entities.contains(entity) && world.has(
                entity,
                entries[entry].type_key,
            ) {
                if entry < n - 1 {
                    assert(earlier.contains((entry, entity)));
                    let at = choose|at: int|
                        0 <= at < earlier.len() && earlier[at] == (entry, entity);
                    assert(all[at] == (entry, entity));
                } else {
                    let q = choose|q: int|
                        0 <= q < world.entities.len() && world.entities[q] == entity;
                    assert(holders.contains(world.entities[q]));
                    let p = choose|p: int| 0 <= p < holders.len() && holders[p] == entity;
                    assert(all[earlier.len() + p] == (entry, entity));
                }
            }
        }
        assert forall|a: int, b: int| 0 <= a < all.len() && 0 <= b < all.len() && a != b implies all[a]
            != all[b] by {
            if a < earlier.len() && b < earlier.len() {
                assert(earlier[a] != earlier[b]);
            } else if a >= earlier.len() && b >= earlier.len() {
                assert(holders[a - earlier.len()] != holders[b - earlier.len()]);
            } else {
                let low = if a < b {
                    a
                } else {
                    b
                };
                let first = earlier[low];
                assert(earlier.contains((first.0, first.1)));
                assert(first.0 < n - 1);
            }
        }
    }
}

/// Building the selection index visits each pair of a registered entry and
/// an entity that holds a component of the entry's type exactly once, and
/// visits nothing else. An entity that holds components of two registered
/// types is visited once for each.
pub proof fn lemma_visits_complete<S>(entries: Seq<SelectableEntry<S>>, world: WorldView)
    requires
        world.entities.no_duplicates(),
    ensures
        visits(entries, world).no_duplicates(),
        forall|entry: int, entity: EntityId|
            visits(entries, world).contains((entry, entity)) <==> (0 <= entry < entries.len()
                && world.entities.contains(entity) && world.has(
                entity,
                entries[entry].type_key,
            )),
{
    lemma_visits_upto(entries, world, entries.len());
}

} // verus!
