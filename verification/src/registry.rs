//! Behaviour tables of component types and the registry that holds them.

use crate::type_key::TypeKey;
use crate::world::copy_bytes;
use std::collections::HashMap;
use vstd::prelude::*;

verus! {

broadcast use vstd::std_specs::hash::group_hash_axioms;

/// Token that identifies a component type inside one process.
pub type RuntimeTypeId = u64;

/// A behaviour table, as mathematics.
pub struct RegistrationView {
    pub type_key: TypeKey,
    pub runtime_type: RuntimeTypeId,
    pub align: nat,
    pub default_value: Seq<u8>,
}

impl RegistrationView {
    /// The size in bytes of one component of the type.
    pub open spec fn size(self) -> nat {
        self.default_value.len()
    }
}

/// The behaviour table of one component type.
///
/// It names the type by its stable key and by its in-process token, gives
/// the size and alignment of one value, and says how a value is constructed
/// by default and how values are cloned. A table does not change after it
/// was made.
pub struct ComponentRegistration {
    type_key: TypeKey,
    runtime_type: RuntimeTypeId,
    align: usize,
    default_value: Vec<u8>,
}

impl View for ComponentRegistration {
    type V = RegistrationView;

    closed spec fn view(&self) -> RegistrationView {
        RegistrationView {
            type_key: self.type_key,
            runtime_type: self.runtime_type,
            align: self.align as nat,
            default_value: self.default_value@,
        }
    }
}

impl Clone for ComponentRegistration {
    fn clone(&self) -> (copy: ComponentRegistration)
        ensures
            copy@ == self@,
    {
        ComponentRegistration {
            type_key: self.type_key,
            runtime_type: self.runtime_type,
            align: self.align,
            default_value: copy_bytes(&self.default_value),
        }
    }
}

/// Whether two byte buffers hold the same bytes.
pub fn bytes_equal(a: &Vec<u8>, b: &Vec<u8>) -> (same: bool)
    ensures
        same == (a@ == b@),
{
    if a.len() != b.len() {
        return false;
    }
    let mut i: usize = 0;
    while i < a.len()
        invariant
            a.len() == b.len(),
            i <= a.len(),
            forall|j: int| 0 <= j < i ==> a@[j] == b@[j],
        decreases a.len() - i,
    {
        if a[i] != b[i] {
            return false;
        }
        i += 1;
    }
    assert(a@ =~= b@);
    true
}

impl ComponentRegistration {
    /// The table of the type named `type_key` and `runtime_type`, whose
    /// values are aligned to `align` bytes and are constructed by default as
    /// `default_value`. The length of `default_value` is the size of one
    /// value.
    pub fn new(
        type_key: TypeKey,
        runtime_type: RuntimeTypeId,
        align: usize,
        default_value: Vec<u8>,
    ) -> (registration: ComponentRegistration)
        ensures
            registration@ == (RegistrationView {
                type_key,
                runtime_type,
                align: align as nat,
                default_value: default_value@,
            }),
    {
        ComponentRegistration { type_key, runtime_type, align, default_value }
    }

    /// The stable key of the type.
    pub fn type_key(&self) -> (key: TypeKey)
        ensures
            key == self@.type_key,
    {
        self.type_key
    }

    /// The in-process token of the type.
    pub fn runtime_type(&self) -> (token: RuntimeTypeId)
        ensures
            token == self@.runtime_type,
    {
        self.runtime_type
    }

    /// The size in bytes of one value.
    pub fn size(&self) -> (size: usize)
        ensures
            size == self@.size(),
    {
        self.default_value.len()
    }

    /// The alignment in bytes of one value.
    pub fn align(&self) -> (align: usize)
        ensures
            align == self@.align,
    {
        self.align
    }

    /// Whether `other` is the same table.
    pub fn same_table(&self, other: &ComponentRegistration) -> (same: bool)
        ensures
            same == (self@ == other@),
    {
        self.type_key == other.type_key && self.runtime_type == other.runtime_type && self.align
            == other.align && bytes_equal(&self.default_value, &other.default_value)
    }

    /// A value of the type as its default constructor makes it.
    pub fn construct_default(&self) -> (value: Vec<u8>)
        ensures
            value@ == self@.default_value,
    {
        copy_bytes(&self.default_value)
    }

    /// `count` default values.
    pub fn construct_range(&self, count: usize) -> (values: Vec<Vec<u8>>)
        ensures
            values.len() == count,
            forall|i: int| 0 <= i < count ==> (#[trigger] values[i])@ == self@.default_value,
    {
        let mut values: Vec<Vec<u8>> = Vec::new();
        let mut i: usize = 0;
        while i < count
            invariant
                i <= count,
                values.len() == i,
                forall|j: int| 0 <= j < i ==> (#[trigger] values[j])@ == self@.default_value,
            decreases count - i,
        {
            values.push(self.construct_default());
            i += 1;
        }
        values
    }

    /// A clone of one value: the same bytes.
    pub fn clone_one(&self, value: &Vec<u8>) -> (copy: Vec<u8>)
        ensures
            copy@ == value@,
    {
        copy_bytes(value)
    }

    /// A clone of each value of a batch, in the same order.
    pub fn clone_range(&self, values: &Vec<Vec<u8>>) -> (copies: Vec<Vec<u8>>)
        ensures
            copies.len() == values.len(),
            forall|i: int| 0 <= i < values.len() ==> (#[trigger] copies[i])@ == values[i]@,
    {
        let mut copies: Vec<Vec<u8>> = Vec::new();
        let mut i: usize = 0;
        while i < values.len()
            invariant
                i <= values.len(),
                copies.len() == i,
                forall|j: int| 0 <= j < i ==> (#[trigger] copies[j])@ == values[j]@,
            decreases values.len() - i,
        {
            copies.push(self.clone_one(&values[i]));
            i += 1;
        }
        copies
    }
}

/// Why a behaviour table was not registered.
#[derive(Clone, Copy, Debug, PartialEq, Eq, Structural)]
pub enum RegistryError {
    /// A different table is already registered under this type key.
    TypeKeyConflict(TypeKey),
    /// The in-process type is already registered under another type key.
    RuntimeTypeConflict(RuntimeTypeId),
}

/// No table stands under a key other than its own, and no in-process type
/// stands under two keys.
pub open spec fn registry_wf(tables: Map<TypeKey, RegistrationView>) -> bool {
    &&& forall|k: TypeKey| tables.contains_key(k) ==> (#[trigger] tables[k]).type_key == k
    &&& forall|a: TypeKey, b: TypeKey|
        tables.contains_key(a) && tables.contains_key(b) && (#[trigger] tables[a]).runtime_type
            == (#[trigger] tables[b]).runtime_type ==> a == b
}

/// Whether some registered table has the in-process token `runtime_type`.
pub open spec fn has_runtime_type(
    tables: Map<TypeKey, RegistrationView>,
    runtime_type: RuntimeTypeId,
) -> bool {
    exists|k: TypeKey| tables.contains_key(k) && (#[trigger] tables[k]).runtime_type == runtime_type
}

/// The reason for which registering `table` into `tables` is refused, or
/// `None` where it is accepted.
///
/// A table whose key is taken by a different table is refused. The table
/// that is registered already is accepted again. A table under a new key is
/// refused where its in-process type is registered under another key.
pub open spec fn register_error(
    tables: Map<TypeKey, RegistrationView>,
    table: RegistrationView,
) -> Option<RegistryError> {
    if tables.contains_key(table.type_key) {
        if tables[table.type_key] == table {
            None
        } else {
            Some(RegistryError::TypeKeyConflict(table.type_key))
        }
    } else if has_runtime_type(tables, table.runtime_type) {
        Some(RegistryError::RuntimeTypeConflict(table.runtime_type))
    } else {
        None
    }
}

/// The tables of the first `n` entries of `list`, each under its own key.
pub open spec fn registered_upto(list: Seq<RegistrationView>, n: nat) -> Map<
    TypeKey,
    RegistrationView,
>
    decreases n,
{
    if n == 0 {
        Map::empty()
    } else {
        registered_upto(list, (n - 1) as nat).insert(list[n - 1].type_key, list[n - 1])
    }
}

/// Whether each of the first `n` entries of `list` is accepted when the
/// entries are registered in order.
pub open spec fn all_accepted(list: Seq<RegistrationView>, n: nat) -> bool {
    forall|i: int| 0 <= i < n ==> (#[trigger] register_error(
        registered_upto(list, i as nat),
        list[i],
    )) is None
}

/// The views of a list of tables.
pub open spec fn table_views(list: Seq<ComponentRegistration>) -> Seq<RegistrationView> {
    Seq::new(list.len(), |i: int| list[i]@)
}

/// The behaviour tables of a map that holds them by the value of their
/// type keys.
pub open spec fn keyed_tables(tables: Map<u128, ComponentRegistration>) -> Map<
    TypeKey,
    RegistrationView,
> {
    Map::new(|k: TypeKey| tables.contains_key(k.value), |k: TypeKey| tables[k.value]@)
}

/// A mapping from type keys, and from in-process type tokens, to behaviour
/// tables.
///
/// The registry is built once and read afterwards.
pub struct Registry {
    by_key: HashMap<u128, ComponentRegistration>,
    by_runtime_type: HashMap<RuntimeTypeId, u128>,
}

impl View for Registry {
    type V = Map<TypeKey, RegistrationView>;

    closed spec fn view(&self) -> Map<TypeKey, RegistrationView> {
        keyed_tables(self.by_key@)
    }
}

impl Registry {
    /// The two indices agree: each table stands under its own key, and the
    /// tokens lead to the keys of the tables that carry them.
    pub closed spec fn wf(&self) -> bool {
        &&& forall|k: u128| #[trigger]
            self.by_key@.contains_key(k) ==> {
                &&& self.by_key@[k]@.type_key.value == k
                &&& self.by_runtime_type@.contains_key(self.by_key@[k]@.runtime_type)
                &&& self.by_runtime_type@[self.by_key@[k]@.runtime_type] == k
            }
        &&& forall|t: RuntimeTypeId| #[trigger]
            self.by_runtime_type@.contains_key(t) ==> {
                &&& self.by_key@.contains_key(self.by_runtime_type@[t])
                &&& self.by_key@[self.by_runtime_type@[t]]@.runtime_type == t
            }
    }

    /// A consistent registry has a consistent view.
    pub proof fn lemma_view_wf(&self)
        requires
            self.wf(),
        ensures
            registry_wf(self@),
    {
        assert forall|a: TypeKey, b: TypeKey|
            self@.contains_key(a) && self@.contains_key(b) && (#[trigger] self@[a]).runtime_type
                == (#[trigger] self@[b]).runtime_type implies a == b by {
            assert(self.by_key@.contains_key(a.value));
            assert(self.by_key@.contains_key(b.value));
        }
        assert forall|k: TypeKey| self@.contains_key(k) implies (#[trigger] self@[k]).type_key
            == k by {
            assert(self.by_key@.contains_key(k.value));
        }
    }

    /// A registry without tables.
    pub fn new() -> (registry: Registry)
        ensures
            registry.wf(),
            registry@ == Map::<TypeKey, RegistrationView>::empty(),
    {
        let registry = Registry { by_key: HashMap::new(), by_runtime_type: HashMap::new() };
        assert(registry@ =~= Map::<TypeKey, RegistrationView>::empty());
        registry
    }

    /// The number of registered tables.
    pub fn len(&self) -> (count: usize)
        ensures
            count == self@.len(),
    {
        proof {
            self.lemma_view_len();
        }
        self.by_key.len()
    }

    proof fn lemma_view_len(&self)
        ensures
            self@.dom().finite(),
            self@.len() == self.by_key@.len(),
    {
        let keys = self.by_key@.dom();
        let wrap = |v: u128| TypeKey { value: v };
        assert(self@.dom() =~= keys.map(wrap)) by {
            assert forall|k: TypeKey| self@.dom().contains(k) implies keys.map(wrap).contains(
                k,
            ) by {
                assert(keys.contains(k.value));
                assert(wrap(k.value) == k);
            }
        }
        vstd::set_lib::lemma_map_size(keys, keys.map(wrap), wrap);
        assert(vstd::relations::injective(wrap));
    }

    /// Whether a table is registered under `key`.
    pub fn contains(&self, key: TypeKey) -> (present: bool)
        ensures
            present == self@.contains_key(key),
    {
        self.by_key.contains_key(&key.value)
    }

    /// The table registered under `key`, if there is one.
    pub fn lookup_by_key(&self, key: TypeKey) -> (found: Option<&ComponentRegistration>)
        ensures
            match found {
                Some(table) => self@.contains_key(key) && table@ == self@[key],
                None => !self@.contains_key(key),
            },
    {
        self.by_key.get(&key.value)
    }

    /// The table of the in-process type `runtime_type`, if it is registered.
    pub fn lookup_by_runtime_type(&self, runtime_type: RuntimeTypeId) -> (found: Option<
        &ComponentRegistration,
    >)
        requires
            self.wf(),
        ensures
            match found {
                Some(table) => {
                    &&& table@.runtime_type == runtime_type
                    &&& self@.contains_key(table@.type_key)
                    &&& self@[table@.type_key] == table@
                },
                None => !has_runtime_type(self@, runtime_type),
            },
    {
        match self.by_runtime_type.get(&runtime_type) {
            Some(key) => {
                let found = self.by_key.get(key);
                assert(self.by_runtime_type@.contains_key(runtime_type));
                assert(self.by_key@.contains_key(*key));
                found
            },
            None => {
                assert(!has_runtime_type(self@, runtime_type)) by {
                    if has_runtime_type(self@, runtime_type) {
                        let k = choose|k: TypeKey|
                            self@.contains_key(k) && (#[trigger] self@[k]).runtime_type
                                == runtime_type;
                        assert(self.by_key@.contains_key(k.value));
                    }
                }
                None
            },
        }
    }

    /// The tables of the registry in a map by the value of their type keys.
    pub fn into_tables(self) -> (tables: HashMap<u128, ComponentRegistration>)
        ensures
            keyed_tables(tables@) == self@,
    {
        self.by_key
    }

    /// Registers a behaviour table and returns its key.
    ///
    /// Registering the table that already stands under its key changes
    /// nothing. A different table under a taken key, or a new key for an
    /// in-process type that is registered already, is refused and leaves the
    /// registry as it was.
    pub fn register(&mut self, registration: ComponentRegistration) -> (result: Result<
        TypeKey,
        RegistryError,
    >)
        requires
            old(self).wf(),
        ensures
            final(self).wf(),
            match result {
                Ok(key) => {
                    &&& register_error(old(self)@, registration@) is None
                    &&& key == registration@.type_key
                    &&& final(self)@ == old(self)@.insert(key, registration@)
                },
                Err(error) => {
                    &&& register_error(old(self)@, registration@) == Some(error)
                    &&& final(self)@ == old(self)@
                },
            },
    {
        let key = registration.type_key;
        let token = registration.runtime_type;
        let ghost before = *self;
        match self.by_key.get(&key.value) {
            Some(present) => {
                assert(self@.contains_key(key));
                if present.same_table(&registration) {
                    assert(self@.insert(key, registration@) =~= self@);
                    Ok(key)
                } else {
                    Err(RegistryError::TypeKeyConflict(key))
                }
            },
            None => {
                assert(!self@.contains_key(key));
                if self.by_runtime_type.contains_key(&token) {
                    proof {
                        let k = TypeKey { value: self.by_runtime_type@[token] };
                        assert(self.by_key@.contains_key(k.value));
                        assert(self@.contains_key(k) && self@[k].runtime_type == token);
                    }
                    Err(RegistryError::RuntimeTypeConflict(token))
                } else {
                    proof {
                        if has_runtime_type(self@, token) {
                            let k = choose|k: TypeKey|
                                self@.contains_key(k) && (#[trigger] self@[k]).runtime_type
                                    == token;
                            assert(self.by_key@.contains_key(k.value));
                        }
                    }
                    self.by_key.insert(key.value, registration);
                    self.by_runtime_type.insert(token, key.value);
                    proof {
                        assert(self@ =~= before@.insert(key, registration@));
                        assert forall|k: u128| #[trigger] self.by_key@.contains_key(k) implies {
                            &&& self.by_key@[k]@.type_key.value == k
                            &&& self.by_runtime_type@.contains_key(self.by_key@[k]@.runtime_type)
                            &&& self.by_runtime_type@[self.by_key@[k]@.runtime_type] == k
                        } by {
                            if k != key.value {
                                assert(before.by_key@.contains_key(k));
                                assert(before.by_runtime_type@.contains_key(
                                    before.by_key@[k]@.runtime_type,
                                ));
                            }
                        }
                        assert forall|t: RuntimeTypeId| #[trigger]
                            self.by_runtime_type@.contains_key(t) implies {
                            &&& self.by_key@.contains_key(self.by_runtime_type@[t])
                            &&& self.by_key@[self.by_runtime_type@[t]]@.runtime_type == t
                        } by {
                            if t != token {
                                assert(before.by_runtime_type@.contains_key(t));
                                assert(before.by_key@.contains_key(before.by_runtime_type@[t]));
                            }
                        }
                    }
                    Ok(key)
                }
            },
        }
    }
}

/// Builds the registry of a list of behaviour tables by registering them in
/// order.
///
/// The result is the registry of all tables where every registration is
/// accepted, and otherwise the reason for which the first refused one was
/// refused.
pub fn create_component_registry(registrations: &Vec<ComponentRegistration>) -> (result: Result<
    Registry,
    RegistryError,
>)
    ensures
        match result {
            Ok(registry) => {
                &&& registry.wf()
                &&& all_accepted(table_views(registrations@), registrations@.len())
                &&& registry@ == registered_upto(table_views(registrations@), registrations@.len())
            },
            Err(error) => exists|j: int|
                0 <= j < registrations@.len() && all_accepted(
                    table_views(registrations@),
                    j as nat,
                ) && #[trigger] register_error(
                    registered_upto(table_views(registrations@), j as nat),
                    table_views(registrations@)[j],
                ) == Some(error),
        },
{
    let mut registry = Registry::new();
    let ghost list = table_views(registrations@);
    let mut i: usize = 0;
    while i < registrations.len()
        invariant
            i <= registrations.len(),
            list == table_views(registrations@),
            registry.wf(),
            all_accepted(list, i as nat),
            registry@ == registered_upto(list, i as nat),
        decreases registrations.len() - i,
    {
        let registration = registrations[i].clone();
        assert(registration@ == list[i as int]);
        match registry.register(registration) {
            Ok(_) => {},
            Err(error) => {
                proof {
                    let j = i as int;
                    assert(all_accepted(list, j as nat));
                    assert(register_error(registered_upto(list, j as nat), list[j]) == Some(error));
                }
                return Err(error);
            },
        }
        i += 1;
    }
    Ok(registry)
}

/// Builds the map from type keys to behaviour tables of a list of tables,
/// as `create_component_registry` builds the registry: the map holds each
/// table under the value of its key where every registration is accepted,
/// and otherwise the result is the reason for which the first refused one
/// was refused.
pub fn create_component_registry_by_uuid(registrations: &Vec<ComponentRegistration>) -> (result:
    Result<HashMap<u128, ComponentRegistration>, RegistryError>)
    ensures
        match result {
            Ok(tables) => {
                &&& all_accepted(table_views(registrations@), registrations@.len())
                &&& keyed_tables(tables@) == registered_upto(
                    table_views(registrations@),
                    registrations@.len(),
                )
            },
            Err(error) => exists|j: int|
                0 <= j < registrations@.len() && all_accepted(
                    table_views(registrations@),
                    j as nat,
                ) && #[trigger] register_error(
                    registered_upto(table_views(registrations@), j as nat),
                    table_views(registrations@)[j],
                ) == Some(error),
        },
{
    match create_component_registry(registrations) {
        Ok(registry) => Ok(registry.into_tables()),
        Err(error) => Err(error),
    }
}

/// Registering a table that was accepted a second time is accepted and
/// changes nothing.
pub proof fn lemma_register_again(tables: Map<TypeKey, RegistrationView>, table: RegistrationView)
    requires
        register_error(tables, table) is None,
    ensures
        register_error(tables.insert(table.type_key, table), table) is None,
        tables.insert(table.type_key, table).insert(table.type_key, table) == tables.insert(
            table.type_key,
            table,
        ),
{
    assert(tables.insert(table.type_key, table).insert(table.type_key, table) =~= tables.insert(
        table.type_key,
        table,
    ));
}

/// A table is refused where a different table was registered under its key.
pub proof fn lemma_register_conflict(
    tables: Map<TypeKey, RegistrationView>,
    first: RegistrationView,
    second: RegistrationView,
)
    requires
        first.type_key == second.type_key,
        first != second,
    ensures
        register_error(tables.insert(first.type_key, first), second) == Some(
            RegistryError::TypeKeyConflict(second.type_key),
        ),
{
}

/// Where every entry of a list is accepted, each entry stands in the
/// registry under its key.
pub proof fn lemma_registered_upto(list: Seq<RegistrationView>, n: nat)
    requires
        n <= list.len(),
        all_accepted(list, n),
    ensures
        forall|k: TypeKey|
            registered_upto(list, n).contains_key(k) <==> exists|i: int|
                0 <= i < n && (#[trigger] list[i]).type_key == k,
        forall|i: int|
            0 <= i < n ==> registered_upto(list, n)[(#[trigger] list[i]).type_key] == list[i],
    decreases n,
{
    if n > 0 {
        let m = (n - 1) as nat;
        assert(all_accepted(list, m)) by {
            assert forall|i: int| 0 <= i < m implies (#[trigger] register_error(
                registered_upto(list, i as nat),
                list[i],
            )) is None by {}
        }
        lemma_registered_upto(list, m);
        let earlier = registered_upto(list, m);
        let last = list[n - 1];
        assert(register_error(registered_upto(list, (n - 1) as nat), list[n - 1]) is None);
        assert forall|k: TypeKey|
            registered_upto(list, n).contains_key(k) <==> exists|i: int|
                0 <= i < n && (#[trigger] list[i]).type_key == k by {
            if earlier.contains_key(k) {
                let i = choose|i: int| 0 <= i < m && (#[trigger] list[i]).type_key == k;
                assert(0 <= i < n && list[i].type_key == k);
            }
            if k == last.type_key {
                assert(list[n - 1].type_key == k);
            }
        }
        assert forall|i: int| 0 <= i < n implies registered_upto(list, n)[(
        #[trigger] list[i]).type_key] == list[i] by {
            if i < m && list[i].type_key == last.type_key {
                assert(earlier.contains_key(last.type_key));
            }
        }
    }
}

/// A list in which two different tables carry the same key is not accepted
/// as a whole.
pub proof fn lemma_conflicting_list(list: Seq<RegistrationView>, i: int, j: int)
    requires
        0 <= i < j < list.len(),
        list[i].type_key == list[j].type_key,
        list[i] != list[j],
    ensures
        !all_accepted(list, list.len()),
{
    if all_accepted(list, list.len()) {
        assert(all_accepted(list, j as nat)) by {
            assert forall|k: int| 0 <= k < j implies (#[trigger] register_error(
                registered_upto(list, k as nat),
                list[k],
            )) is None by {}
        }
        lemma_registered_upto(list, j as nat);
        assert(registered_upto(list, j as nat).contains_key(list[i].type_key));
        assert(register_error(registered_upto(list, j as nat), list[j]) is None);
    }
}

} // verus!
