//! A transform made of a plain function.

use crate::handler_set::ComponentTransform;
use crate::type_key::EntityId;
use vstd::prelude::*;

verus! {

/// The bytes of an optional buffer.
pub open spec fn optional_bytes(result: Option<Vec<u8>>) -> Option<Seq<u8>> {
    match result {
        Some(bytes) => Some(bytes@),
        None => None,
    }
}

/// Whether `function` may return `result` for a component with the bytes
/// `source` of `entity` and a default destination value with the bytes
/// `initial`.
pub open spec fn may_return<G: Fn(EntityId, &Vec<u8>, &Vec<u8>) -> Option<Vec<u8>>>(
    function: G,
    entity: EntityId,
    source: Seq<u8>,
    initial: Seq<u8>,
    result: Option<Seq<u8>>,
) -> bool {
    exists|s: Vec<u8>, i: Vec<u8>, r: Option<Vec<u8>>|
        s@ == source && i@ == initial && optional_bytes(r) == result && #[trigger] call_ensures(
            function,
            (entity, &s, &i),
            r,
        )
}

/// Whether `function` can be called on every input and its result depends
/// on the entity and on the bytes of its two buffers alone.
pub open spec fn is_function<G: Fn(EntityId, &Vec<u8>, &Vec<u8>) -> Option<Vec<u8>>>(
    function: G,
) -> bool {
    &&& forall|entity: EntityId, s: Vec<u8>, i: Vec<u8>| #[trigger]
        call_requires(function, (entity, &s, &i))
    &&& forall|
        entity: EntityId,
        source: Seq<u8>,
        initial: Seq<u8>,
        first: Option<Seq<u8>>,
        second: Option<Seq<u8>>,
    |
        #[trigger] may_return(function, entity, source, initial, first) && #[trigger] may_return(
            function,
            entity,
            source,
            initial,
            second,
        ) ==> first == second
}

/// A transform given as a function from one source component to one
/// destination value.
///
/// The function gets the entity, the bytes of the source component and the
/// default value of the destination type, and returns the destination value,
/// or `None` where it does not accept the component.
pub struct FnTransform<G: Fn(EntityId, &Vec<u8>, &Vec<u8>) -> Option<Vec<u8>>> {
    function: G,
}

impl<G: Fn(EntityId, &Vec<u8>, &Vec<u8>) -> Option<Vec<u8>>> FnTransform<G> {
    #[verifier::type_invariant]
    spec fn well_behaved(self) -> bool {
        is_function(self.function)
    }

    /// The function of the transform.
    pub closed spec fn function(self) -> G {
        self.function
    }

    /// The transform that applies `function` to each component of a batch.
    pub fn new(function: G) -> (transform: FnTransform<G>)
        requires
            is_function(function),
        ensures
            transform.function() == function,
    {
        FnTransform { function }
    }
}

impl<G: Fn(EntityId, &Vec<u8>, &Vec<u8>) -> Option<Vec<u8>>> ComponentTransform for FnTransform<G> {
    open spec fn accepts(&self, entity: EntityId, source: Seq<u8>, initial: Seq<u8>) -> bool {
        exists|value: Seq<u8>| #[trigger]
            may_return(self.function(), entity, source, initial, Some(value))
    }

    open spec fn output(&self, entity: EntityId, source: Seq<u8>, initial: Seq<u8>) -> Seq<u8> {
        choose|value: Seq<u8>| #[trigger]
            may_return(self.function(), entity, source, initial, Some(value))
    }

    fn transform(
        &self,
        entities: &Vec<EntityId>,
        source: &Vec<Vec<u8>>,
        destination: &mut Vec<Vec<u8>>,
    ) -> (done: bool) {
        proof {
            use_type_invariant(self);
        }
        let mut i: usize = 0;
        while i < entities.len()
            invariant
                i <= entities.len(),
                is_function(self.function()),
                source.len() == entities.len(),
                destination.len() == entities.len(),
                forall|j: int|
                    0 <= j < i ==> #[trigger] self.accepts(
                        entities[j],
                        source[j]@,
                        old(destination)[j]@,
                    ),
                forall|j: int|
                    0 <= j < i ==> (#[trigger] destination[j])@ == self.output(
                        entities[j],
                        source[j]@,
                        old(destination)[j]@,
                    ),
                forall|j: int| i <= j < entities.len() ==> destination[j] == old(destination)[j],
            decreases entities.len() - i,
        {
            let result = (self.function)(entities[i], &source[i], &destination[i]);
            proof {
                let entity = entities[i as int];
                let s = source[i as int];
                let d = old(destination)[i as int];
                assert(call_ensures(self.function(), (entity, &s, &d), result));
                assert(may_return(self.function(), entity, s@, d@, optional_bytes(result)));
            }
            match result {
                Some(value) => {
                    assert(may_return(
                        self.function(),
                        entities[i as int],
                        source[i as int]@,
                        old(destination)[i as int]@,
                        Some(value@),
                    ));
                    destination.set(i, value);
                },
                None => {
                    assert(!self.accepts(
                        entities[i as int],
                        source[i as int]@,
                        old(destination)[i as int]@,
                    ));
                    return false;
                },
            }
            i += 1;
        }
        true
    }
}

} // verus!
