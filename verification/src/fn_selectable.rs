//! A selection callback made of a plain function.

use crate::selection::{EditorSelectable, SelectionShape, SelectionWorld, ShapeView};
use crate::type_key::EntityId;
use crate::world::copy_bytes;
use vstd::prelude::*;

verus! {

/// The shapes of a list, as mathematics.
pub open spec fn shape_views(shapes: Seq<SelectionShape>) -> Seq<ShapeView> {
    Seq::new(shapes.len(), |i: int| shapes[i]@)
}

/// Whether `function` may return `shapes` for a component with the bytes
/// `component` of `entity`.
pub open spec fn may_place<C, G: Fn(&C, EntityId, &Vec<u8>) -> Vec<SelectionShape>>(
    function: G,
    context: C,
    entity: EntityId,
    component: Seq<u8>,
    shapes: Seq<ShapeView>,
) -> bool {
    exists|bytes: Vec<u8>, placed: Vec<SelectionShape>|
        bytes@ == component && shape_views(placed@) == shapes && #[trigger] call_ensures(
            function,
            (&context, entity, &bytes),
            placed,
        )
}

/// Whether `function` can be called on every input and its result depends
/// on the context, the entity and the bytes of the component alone.
pub open spec fn is_placement<C, G: Fn(&C, EntityId, &Vec<u8>) -> Vec<SelectionShape>>(
    function: G,
) -> bool {
    &&& forall|context: C, entity: EntityId, bytes: Vec<u8>| #[trigger]
        call_requires(function, (&context, entity, &bytes))
    &&& forall|
        context: C,
        entity: EntityId,
        component: Seq<u8>,
        first: Seq<ShapeView>,
        second: Seq<ShapeView>,
    |
        #[trigger] may_place(function, context, entity, component, first) && #[trigger] may_place(
            function,
            context,
            entity,
            component,
            second,
        ) ==> first == second
}

/// A selection callback given as a function from one component to the
/// shapes to place for it.
///
/// The function gets the context, the entity and the bytes of the
/// component, and returns the shapes; for an entity to skip it returns
/// none.
pub struct FnSelectable<C, G: Fn(&C, EntityId, &Vec<u8>) -> Vec<SelectionShape>> {
    function: G,
    context: core::marker::PhantomData<C>,
}

impl<C, G: Fn(&C, EntityId, &Vec<u8>) -> Vec<SelectionShape>> FnSelectable<C, G> {
    #[verifier::type_invariant]
    spec fn well_behaved(self) -> bool {
        is_placement::<C, G>(self.function)
    }

    /// The function of the callback.
    pub closed spec fn function(self) -> G {
        self.function
    }

    /// The callback that places what `function` returns.
    pub fn new(function: G) -> (selectable: FnSelectable<C, G>)
        requires
            is_placement::<C, G>(function),
        ensures
            selectable.function() == function,
    {
        FnSelectable { function, context: core::marker::PhantomData }
    }
}

impl<C, G: Fn(&C, EntityId, &Vec<u8>) -> Vec<SelectionShape>> EditorSelectable<C> for FnSelectable<
    C,
    G,
> {
    open spec fn shapes(&self, context: C, entity: EntityId, component: Seq<u8>) -> Seq<ShapeView> {
        choose|shapes: Seq<ShapeView>| #[trigger]
            may_place(self.function(), context, entity, component, shapes)
    }

    fn create_editor_selection_world(
        &self,
        collision_world: &mut SelectionWorld,
        context: &C,
        entity: EntityId,
        component: &Vec<u8>,
    ) {
        proof {
            use_type_invariant(self);
        }
        let placed = (self.function)(context, entity, component);
        proof {
            assert(call_ensures(self.function(), (context, entity, component), placed));
            assert(may_place(
                self.function(),
                *context,
                entity,
                component@,
                shape_views(placed@),
            ));
        }
        let ghost before = collision_world@;
        let mut i: usize = 0;
        assert(before + shape_views(placed@).take(0) =~= before);
        while i < placed.len()
            invariant
                i <= placed.len(),
                collision_world@ == before + shape_views(placed@).take(i as int),
            decreases placed.len() - i,
        {
            collision_world.add(placed[i].entity, copy_bytes(&placed[i].data));
            assert(collision_world@ =~= before + shape_views(placed@).take(i + 1));
            i += 1;
        }
        assert(shape_views(placed@).take(placed.len() as int) =~= shape_views(placed@));
    }
}

} // verus!
