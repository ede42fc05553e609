//! Transforms between component types and the set of mappings that a merge
//! applies.

use crate::type_key::{EntityId, TypeKey};
use vstd::prelude::*;

verus! {

/// A function that rewrites components of one type into components of
/// another type, a batch at a time.
///
/// The function is described once per component: `accepts` says on which
/// inputs it succeeds and `output` what it writes. `initial` is the
/// destination value before the call, as the destination type constructs it
/// by default.
pub trait ComponentTransform: Sized {
    /// Whether the function succeeds on the component `source` of `entity`.
    spec fn accepts(&self, entity: EntityId, source: Seq<u8>, initial: Seq<u8>) -> bool;

    /// The destination value that the function writes for the component
    /// `source` of `entity`.
    spec fn output(&self, entity: EntityId, source: Seq<u8>, initial: Seq<u8>) -> Seq<u8>;

    /// Rewrites a batch. `source[i]` is the component of `entities[i]` and
    /// `destination[i]` receives its result: exactly one destination value
    /// per entity, in the same order. Returns `false` where some component
    /// of the batch is not accepted; the destination values then mean
    /// nothing.
    fn transform(
        &self,
        entities: &Vec<EntityId>,
        source: &Vec<Vec<u8>>,
        destination: &mut Vec<Vec<u8>>,
    ) -> (done: bool)
        requires
            source.len() == entities.len(),
            old(destination).len() == entities.len(),
        ensures
            final(destination).len() == entities.len(),
            done == (forall|i: int|
                0 <= i < entities.len() ==> #[trigger] self.accepts(
                    entities[i],
                    source[i]@,
                    old(destination)[i]@,
                )),
            done ==> forall|i: int|
                0 <= i < entities.len() ==> (#[trigger] final(destination)[i])@ == self.output(
                    entities[i],
                    source[i]@,
                    old(destination)[i]@,
                ),
    ;
}

/// The transform that copies one field: `len` bytes at `source_offset` of
/// the source component replace the `len` bytes at `destination_offset` of
/// the default destination value.
#[derive(Clone, Copy, Debug)]
pub struct FieldCopy {
    pub source_offset: usize,
    pub destination_offset: usize,
    pub len: usize,
}

impl FieldCopy {
    /// Whether the field lies inside a source of `source_len` bytes and
    /// inside a destination of `destination_len` bytes.
    pub open spec fn fits(self, source_len: nat, destination_len: nat) -> bool {
        &&& self.source_offset + self.len <= source_len
        &&& self.destination_offset + self.len <= destination_len
    }

    /// `initial` with the field replaced by the field of `source`.
    pub open spec fn copied(self, source: Seq<u8>, initial: Seq<u8>) -> Seq<u8> {
        initial.subrange(0, self.destination_offset as int) + source.subrange(
            self.source_offset as int,
            self.source_offset + self.len,
        ) + initial.subrange(self.destination_offset + self.len, initial.len() as int)
    }

    /// Copies the field of `source` into a copy of `initial`, or returns
    /// `None` where the field does not fit.
    pub fn copy_field(&self, source: &Vec<u8>, initial: &Vec<u8>) -> (result: Option<Vec<u8>>)
        ensures
            match result {
                Some(value) => self.fits(source@.len(), initial@.len()) && value@ == self.copied(
                    source@,
                    initial@,
                ),
                None => !self.fits(source@.len(), initial@.len()),
            },
    {
        if self.len > source.len() || self.source_offset > source.len() - self.len {
            return None;
        }
        if self.len > initial.len() || self.destination_offset > initial.len() - self.len {
            return None;
        }
        let mut value: Vec<u8> = Vec::new();
        let mut i: usize = 0;
        while i < initial.len()
            invariant
                i <= initial.len(),
                self.fits(source@.len(), initial@.len()),
                value@.len() == i,
                forall|j: int|
                    0 <= j < i ==> value@[j] == (if self.destination_offset <= j
                        < self.destination_offset + self.len {
                        source@[j - self.destination_offset + self.source_offset]
                    } else {
                        initial@[j]
                    }),
            decreases initial.len() - i,
        {
            if self.destination_offset <= i && i - self.destination_offset < self.len {
                assert(i - self.destination_offset + self.source_offset < source.len());
                value.push(source[i - self.destination_offset + self.source_offset]);
            } else {
                value.push(initial[i]);
            }
            i += 1;
        }
        assert(value@ =~= self.copied(source@, initial@));
        Some(value)
    }
}

impl FieldCopy {
    /// The copy has the size of the default destination value, carries the
    /// field of the source in the field's place, and is the default value
    /// elsewhere.
    pub proof fn lemma_copied(self, source: Seq<u8>, initial: Seq<u8>)
        requires
            self.fits(source.len(), initial.len()),
        ensures
            self.copied(source, initial).len() == initial.len(),
            self.copied(source, initial).subrange(
                self.destination_offset as int,
                self.destination_offset + self.len,
            ) == source.subrange(self.source_offset as int, self.source_offset + self.len),
            forall|i: int|
                0 <= i < initial.len() && !(self.destination_offset <= i < self.destination_offset
                    + self.len) ==> self.copied(source, initial)[i] == initial[i],
    {
        assert(self.copied(source, initial).subrange(
            self.destination_offset as int,
            self.destination_offset + self.len,
        ) =~= source.subrange(self.source_offset as int, self.source_offset + self.len));
    }
}

impl ComponentTransform for FieldCopy {
    open spec fn accepts(&self, entity: EntityId, source: Seq<u8>, initial: Seq<u8>) -> bool {
        self.fits(source.len(), initial.len())
    }

    open spec fn output(&self, entity: EntityId, source: Seq<u8>, initial: Seq<u8>) -> Seq<u8> {
        self.copied(source, initial)
    }

    fn transform(
        &self,
        entities: &Vec<EntityId>,
        source: &Vec<Vec<u8>>,
        destination: &mut Vec<Vec<u8>>,
    ) -> (done: bool) {
        let mut i: usize = 0;
        while i < entities.len()
            invariant
                i <= entities.len(),
                source.len() == entities.len(),
                destination.len() == entities.len(),
                forall|j: int|
                    0 <= j < i ==> #[trigger] self.accepts(
                        entities[j],
                        source[j]@,
                        old(destination)[j]@,
                    ),
                forall|j: int|
                    0 <= j < i ==> (#[trigger] destination[j])@ == self.output(
                        entities[j],
                        source[j]@,
                        old(destination)[j]@,
                    ),
                forall|j: int| i <= j < entities.len() ==> destination[j] == old(destination)[j],
            decreases entities.len() - i,
        {
            match self.copy_field(&source[i], &destination[i]) {
                Some(value) => {
                    destination.set(i, value);
                },
                None => {
                    assert(!self.accepts(
                        entities[i as int],
                        source[i as int]@,
                        old(destination)[i as int]@,
                    ));
                    return false;
                },
            }
            i += 1;
        }
        true
    }
}

/// One entry of a handler set: how components of type `source` become
/// components of type `destination`.
///
/// Without a transform the entry copies the bytes as they are; from a type
/// to itself that is the identity mapping of the type. With a transform it
/// is an explicit mapping.
pub struct TransformMapping<F> {
    pub source: TypeKey,
    pub destination: TypeKey,
    pub transform: Option<F>,
}

impl<F: ComponentTransform> TransformMapping<F> {
    /// Whether the entry copies the bytes as they are.
    pub open spec fn is_identity(self) -> bool {
        self.transform is None
    }

    /// Whether the entry can rewrite the component `source` of `entity`.
    pub open spec fn accepts(self, entity: EntityId, source: Seq<u8>, initial: Seq<u8>) -> bool {
        match self.transform {
            None => true,
            Some(transform) => transform.accepts(entity, source, initial),
        }
    }

    /// The destination value that the entry produces from the component
    /// `source` of `entity`.
    pub open spec fn value(self, entity: EntityId, source: Seq<u8>, initial: Seq<u8>) -> Seq<u8> {
        match self.transform {
            None => source,
            Some(transform) => transform.output(entity, source, initial),
        }
    }
}

/// Whether some entry of `set` maps `source` to `destination`.
pub open spec fn has_pair<F>(
    set: Seq<TransformMapping<F>>,
    source: TypeKey,
    destination: TypeKey,
) -> bool {
    exists|i: int|
        0 <= i < set.len() && (#[trigger] set[i]).source == source && set[i].destination
            == destination
}

/// The position of the entry of `set` that maps `source` to `destination`.
pub open spec fn pair_index<F>(
    set: Seq<TransformMapping<F>>,
    source: TypeKey,
    destination: TypeKey,
) -> int {
    choose|i: int|
        0 <= i < set.len() && (#[trigger] set[i]).source == source && set[i].destination
            == destination
}

/// `set` with `mapping` registered: in the place of the entry for the same
/// pair of types where there is one, and at the end otherwise.
pub open spec fn with_mapping<F>(
    set: Seq<TransformMapping<F>>,
    mapping: TransformMapping<F>,
) -> Seq<TransformMapping<F>> {
    if has_pair(set, mapping.source, mapping.destination) {
        set.update(pair_index(set, mapping.source, mapping.destination), mapping)
    } else {
        set.push(mapping)
    }
}

/// Whether `set` holds an explicit mapping from `source`.
pub open spec fn has_explicit<F: ComponentTransform>(
    set: Seq<TransformMapping<F>>,
    source: TypeKey,
) -> bool {
    exists|i: int|
        0 <= i < set.len() && (#[trigger] set[i]).source == source && !set[i].is_identity()
}

/// Whether a merge uses entry `j` of `set`: every explicit mapping is used,
/// and a mapping that copies the bytes as they are is used where no
/// explicit mapping has the same source type.
pub open spec fn applies<F: ComponentTransform>(set: Seq<TransformMapping<F>>, j: int) -> bool {
    !set[j].is_identity() || !has_explicit(set, set[j].source)
}

/// At most one entry per pair of source and destination type.
pub open spec fn handler_set_wf<F>(set: Seq<TransformMapping<F>>) -> bool {
    forall|i: int, j: int|
        0 <= i < set.len() && 0 <= j < set.len() && (#[trigger] set[i]).source == (
        #[trigger] set[j]).source && set[i].destination == set[j].destination ==> i == j
}

/// The mappings that a merge applies, in the order of their registration.
pub struct TransformHandlerSet<F> {
    mappings: Vec<TransformMapping<F>>,
}

impl<F> View for TransformHandlerSet<F> {
    type V = Seq<TransformMapping<F>>;

    closed spec fn view(&self) -> Seq<TransformMapping<F>> {
        self.mappings@
    }
}

impl<F: ComponentTransform> TransformHandlerSet<F> {
    /// The set obeys `handler_set_wf`.
    pub open spec fn wf(&self) -> bool {
        handler_set_wf(self@)
    }

    /// A set without mappings.
    pub fn new() -> (set: TransformHandlerSet<F>)
        ensures
            set.wf(),
            set@ == Seq::<TransformMapping<F>>::empty(),
    {
        TransformHandlerSet { mappings: Vec::new() }
    }

    /// The number of mappings.
    pub fn len(&self) -> (count: usize)
        ensures
            count == self@.len(),
    {
        self.mappings.len()
    }

    /// The mapping at position `index`.
    pub fn mapping_at(&self, index: usize) -> (mapping: &TransformMapping<F>)
        requires
            index < self@.len(),
        ensures
            *mapping == self@[index as int],
    {
        &self.mappings[index]
    }

    /// The position of the entry that maps `source` to `destination`, if
    /// there is one.
    pub fn find_pair(&self, source: TypeKey, destination: TypeKey) -> (found: Option<usize>)
        ensures
            match found {
                Some(i) => {
                    &&& i < self@.len()
                    &&& self@[i as int].source == source
                    &&& self@[i as int].destination == destination
                },
                None => !has_pair(self@, source, destination),
            },
    {
        let mut i: usize = 0;
        while i < self.mappings.len()
            invariant
                i <= self.mappings.len(),
                forall|j: int|
                    0 <= j < i ==> !((#[trigger] self@[j]).source == source && self@[j].destination
                        == destination),
            decreases self.mappings.len() - i,
        {
            if self.mappings[i].source == source && self.mappings[i].destination == destination {
                return Some(i);
            }
            i += 1;
        }
        None
    }

    /// Registers a mapping, in the place of the one for the same pair of
    /// types where there is one, and at the end otherwise.
    pub fn add(&mut self, mapping: TransformMapping<F>)
        requires
            old(self).wf(),
        ensures
            final(self).wf(),
            final(self)@ == with_mapping(old(self)@, mapping),
    {
        match self.find_pair(mapping.source, mapping.destination) {
            Some(i) => {
                assert(has_pair(self@, mapping.source, mapping.destination));
                assert(pair_index(self@, mapping.source, mapping.destination) == i);
                self.mappings.set(i, mapping);
            },
            None => {
                self.mappings.push(mapping);
            },
        }
    }

    /// Registers the pass-through of the type `key`: a plain copy of the
    /// bytes, used where no explicit mapping exists for the type.
    pub fn add_identity_mapping(&mut self, key: TypeKey)
        requires
            old(self).wf(),
        ensures
            final(self).wf(),
            final(self)@ == with_mapping(
                old(self)@,
                (TransformMapping { source: key, destination: key, transform: None }),
            ),
    {
        self.add(TransformMapping { source: key, destination: key, transform: None });
    }

    /// Registers `transform` as the function that turns components of type
    /// `source` into components of type `destination`.
    pub fn add_cross_type_mapping(&mut self, source: TypeKey, destination: TypeKey, transform: F)
        requires
            old(self).wf(),
        ensures
            final(self).wf(),
            final(self)@ == with_mapping(
                old(self)@,
                (TransformMapping { source, destination, transform: Some(transform) }),
            ),
    {
        self.add(TransformMapping { source, destination, transform: Some(transform) });
    }

    /// Finds the mapping for components of type `source`.
    ///
    /// With a requested destination type the result is the explicit mapping
    /// registered for exactly that pair. Without one it is the identity
    /// mapping of `source`. There is no other fallback: `None` says that
    /// such a component is skipped.
    pub fn lookup(&self, source: TypeKey, requested: Option<TypeKey>) -> (found: Option<usize>)
        requires
            self.wf(),
        ensures
            match found {
                Some(i) => i < self@.len() && self@[i as int].source == source && lookup_matches(
                    self@[i as int],
                    requested,
                ),
                None => forall|i: int|
                    0 <= i < self@.len() && (#[trigger] self@[i]).source == source
                        ==> !lookup_matches(self@[i], requested),
            },
    {
        let destination = match requested {
            Some(destination) => destination,
            None => source,
        };
        match self.find_pair(source, destination) {
            Some(i) => {
                if self.mappings[i].transform.is_none() == requested.is_none() {
                    Some(i)
                } else {
                    None
                }
            },
            None => {
                assert forall|i: int|
                    0 <= i < self@.len() && (#[trigger] self@[i]).source == source
                        implies !lookup_matches(self@[i], requested) by {
                    if lookup_matches(self@[i], requested) {
                        assert(has_pair(self@, source, destination));
                    }
                }
                None
            },
        }
    }

    /// Whether the set holds an explicit mapping from `source`.
    pub fn has_explicit_mapping(&self, source: TypeKey) -> (found: bool)
        ensures
            found == has_explicit(self@, source),
    {
        let mut i: usize = 0;
        while i < self.mappings.len()
            invariant
                i <= self.mappings.len(),
                forall|j: int|
                    0 <= j < i ==> !((#[trigger] self@[j]).source == source
                        && !self@[j].is_identity()),
            decreases self.mappings.len() - i,
        {
            if self.mappings[i].source == source && self.mappings[i].transform.is_some() {
                return true;
            }
            i += 1;
        }
        false
    }

    /// Whether a merge uses the mapping at position `index`.
    pub fn applies_at(&self, index: usize) -> (used: bool)
        requires
            index < self@.len(),
        ensures
            used == applies(self@, index as int),
    {
        self.mappings[index].transform.is_some() || !self.has_explicit_mapping(
            self.mappings[index].source,
        )
    }
}

/// Whether `mapping` is what a lookup with the requested destination type
/// asks for: the explicit mapping to that type, or the identity mapping
/// where no type is requested.
pub open spec fn lookup_matches<F: ComponentTransform>(
    mapping: TransformMapping<F>,
    requested: Option<TypeKey>,
) -> bool {
    match requested {
        Some(destination) => mapping.destination == destination && !mapping.is_identity(),
        None => mapping.destination == mapping.source && mapping.is_identity(),
    }
}

/// The set after the first `n` mappings of `list` were registered in order.
pub open spec fn registered_mappings<F>(list: Seq<TransformMapping<F>>, n: nat) -> Seq<
    TransformMapping<F>,
>
    decreases n,
{
    if n == 0 {
        Seq::empty()
    } else {
        with_mapping(registered_mappings(list, (n - 1) as nat), list[n - 1])
    }
}

/// The handler set of a list of mappings, registered in order. Of two
/// mappings for the same pair of types the later one stands, in the place
/// of the earlier one.
pub fn create_spawn_clone_impl_handler_set<F: ComponentTransform>(
    mappings: Vec<TransformMapping<F>>,
) -> (set: TransformHandlerSet<F>)
    ensures
        set.wf(),
        set@ == registered_mappings(mappings@, mappings@.len()),
{
    let mut set = TransformHandlerSet::new();
    let ghost list = mappings@;
    for mapping in iter: mappings
        invariant
            list == iter.seq(),
            set.wf(),
            set@ == registered_mappings(list, iter.index() as nat),
    {
        set.add(mapping);
    }
    set
}

} // verus!
