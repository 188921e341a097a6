//! A type-erased resource map that animation graph nodes read during
//! evaluation: apps insert their own data once per frame (or whenever it
//! changes) and nodes pull it out again by its concrete type.
//!
//! The map is a `Map` from type identities (`std::any::TypeId`) to erased
//! values.  A value inserted as a `T` is stored under `type_identity::<T>()`,
//! the identity `TypeId::of::<T>()` returns; every stored value has the type
//! whose identity it is stored under, so a typed read of `T` gives back
//! exactly the value of type `T` stored under `type_identity::<T>()`.
use std::any::{Any, TypeId};
use std::sync::Arc;
use vstd::prelude::*;

verus! {

/// `std::any::TypeId`, the identity of a type, held opaque.
#[verifier::external_type_specification]
#[verifier::external_body]
pub struct ExTypeId(TypeId);

/// A value of some type, behind `Arc<dyn Any + Send + Sync>`.  The map only
/// stores and hands back such values; what is known of one is the identity of
/// its type (`erased_type`) and, read as a given type, its value
/// (`erased_as`).
#[verifier::external_body]
pub struct ErasedResource {
    inner: Arc<dyn Any + Send + Sync>,
}

/// The identity of the type `T`: fixed by `T` alone, and nothing else is
/// known of it.
pub closed spec fn type_identity<T>() -> TypeId {
    vstd::pervasive::arbitrary::<(T, TypeId)>().1
}

/// The identity of the type of the value behind an erased value.
pub closed spec fn erased_type(e: ErasedResource) -> TypeId {
    (vstd::pervasive::arbitrary::<spec_fn(ErasedResource) -> TypeId>())(e)
}

/// The value behind an erased value, read as a `T` (meaningful where
/// `erased_type(e) == type_identity::<T>()`).
pub closed spec fn erased_as<T>(e: ErasedResource) -> T {
    (vstd::pervasive::arbitrary::<spec_fn(ErasedResource) -> T>())(e)
}

/// One slot of the map: a type identity and the value stored for it.
struct ResourceEntry {
    key: TypeId,
    value: ErasedResource,
}

/// Trusted: `TypeId`'s `==` holds exactly when both identities are the same
/// value, which is what std documents (a `TypeId` is a globally unique
/// identifier of a type, compared by its contents).
#[verifier::external_body]
fn same_type(a: &TypeId, b: &TypeId) -> (r: bool)
    ensures
        r == (*a == *b),
{
    *a == *b
}

/// Trusted: `TypeId::of::<T>()`, the identity of `T`, which depends on `T`
/// alone.
#[verifier::external_body]
fn type_key<T: 'static>() -> (r: TypeId)
    ensures
        r == type_identity::<T>(),
{
    TypeId::of::<T>()
}

/// Trusted: `Arc::new(value)`, coerced to `Arc<dyn Any + Send + Sync>`: the
/// erased value has the type `T` and is `value`.
#[verifier::external_body]
fn erase<T: Any + Send + Sync>(value: T) -> (r: ErasedResource)
    ensures
        erased_type(r) == type_identity::<T>(),
        erased_as::<T>(r) == value,
{
    ErasedResource { inner: Arc::new(value) }
}

/// Trusted: `Any::downcast_ref::<T>` on the erased value: `Some` exactly when
/// the value has the type `T` (its type identity is `TypeId::of::<T>()`), and
/// then a reference to that value.
#[verifier::external_body]
fn downcast<T: Any + Send + Sync>(value: &ErasedResource) -> (r: Option<&T>)
    ensures
        r is Some <==> erased_type(*value) == type_identity::<T>(),
        r matches Some(x) ==> *x == erased_as::<T>(*value),
{
    (*value.inner).downcast_ref::<T>()
}

/// No two entries hold the same type identity.
spec fn keys_distinct(entries: Seq<ResourceEntry>) -> bool {
    forall|i: int, j: int|
        0 <= i < entries.len() && 0 <= j < entries.len() && i != j ==> entries[i].key
            != entries[j].key
}

/// Every entry's value has the type whose identity it is stored under.
spec fn entries_well_typed(entries: Seq<ResourceEntry>) -> bool {
    forall|i: int| 0 <= i < entries.len() ==> erased_type(#[trigger] entries[i].value) == entries[i].key
}

/// Some entry holds the identity `key`.
spec fn holds_key(entries: Seq<ResourceEntry>, key: TypeId) -> bool {
    exists|i: int| 0 <= i < entries.len() && entries[i].key == key
}

/// The index of an entry that holds `key` (meaningful where `holds_key`).
spec fn slot_of(entries: Seq<ResourceEntry>, key: TypeId) -> int {
    choose|i: int| 0 <= i < entries.len() && entries[i].key == key
}

/// The map that a list of entries stands for.
spec fn entries_map(entries: Seq<ResourceEntry>) -> Map<TypeId, ErasedResource> {
    Map::new(|k: TypeId| holds_key(entries, k), |k: TypeId| entries[slot_of(entries, k)].value)
}

/// With distinct keys, the entry found for `key` is the one at `i`.
proof fn lemma_slot_unique(entries: Seq<ResourceEntry>, key: TypeId, i: int)
    requires
        keys_distinct(entries),
        0 <= i < entries.len(),
        entries[i].key == key,
    ensures
        holds_key(entries, key),
        slot_of(entries, key) == i,
        entries_map(entries).contains_key(key),
        entries_map(entries)[key] == entries[i].value,
{
    assert(holds_key(entries, key));
}

/// Writing `(key, value)` at position `p` of a list of entries, where every
/// other position either keeps its entry or held `key` before, stores `value`
/// under `key` and leaves every other identity as it was.
proof fn lemma_write_entry(
    before: Seq<ResourceEntry>,
    after: Seq<ResourceEntry>,
    key: TypeId,
    value: ErasedResource,
    p: int,
)
    requires
        keys_distinct(before),
        keys_distinct(after),
        0 <= p < after.len(),
        after[p].key == key,
        after[p].value == value,
        forall|j: int| 0 <= j < after.len() && j != p ==> j < before.len() && after[j] == before[j],
        forall|j: int| 0 <= j < before.len() && before[j].key != key ==> j < after.len() && after[j] == before[j],
    ensures
        entries_map(after) == entries_map(before).insert(key, value),
{
    lemma_slot_unique(after, key, p);
    assert forall|k: TypeId| #[trigger]
        entries_map(after).contains_key(k) == entries_map(before).insert(key, value).contains_key(k) by {
        if holds_key(before, k) && k != key {
            let j = slot_of(before, k);
            assert(after[j].key == k);
        }
        if holds_key(after, k) && k != key {
            let j = slot_of(after, k);
            assert(j != p);
            assert(before[j].key == k);
        }
    }
    assert forall|k: TypeId| #[trigger]
        entries_map(after).contains_key(k) && k != key implies entries_map(after)[k]
        == entries_map(before)[k] by {
        let j = slot_of(after, k);
        lemma_slot_unique(after, k, j);
        assert(j != p);
        assert(before[j].key == k);
        lemma_slot_unique(before, k, j);
    }
    assert(entries_map(after) =~= entries_map(before).insert(key, value));
}

/// The type-erased resource map.  Its view maps each type identity present
/// to the value stored for it.
pub struct GraphNodeResources {
    entries: Vec<ResourceEntry>,
}

impl View for GraphNodeResources {
    type V = Map<TypeId, ErasedResource>;

    closed spec fn view(&self) -> Map<TypeId, ErasedResource> {
        entries_map(self.entries@)
    }
}

impl GraphNodeResources {
    #[verifier::type_invariant]
    closed spec fn inv(self) -> bool {
        keys_distinct(self.entries@) && entries_well_typed(self.entries@)
    }

    /// An empty map.
    pub fn new() -> (r: Self)
        ensures
            r@ == Map::<TypeId, ErasedResource>::empty(),
    {
        let r = GraphNodeResources { entries: Vec::new() };
        assert(r@ =~= Map::<TypeId, ErasedResource>::empty());
        r
    }

    /// The position of the entry for `key`, if there is one.
    fn find(entries: &Vec<ResourceEntry>, key: &TypeId) -> (r: Option<usize>)
        requires
            keys_distinct(entries@),
        ensures
            r is None <==> !holds_key(entries@, *key),
            r matches Some(i) ==> i < entries@.len() && entries@[i as int].key == *key,
    {
        let mut i: usize = 0;
        while i < entries.len()
            invariant
                i <= entries@.len(),
                forall|j: int| 0 <= j < i ==> entries@[j].key != *key,
            decreases entries.len() - i,
        {
            if same_type(&entries[i].key, key) {
                return Some(i);
            }
            i = i + 1;
        }
        None
    }

    /// Stores `value` under `key`, replacing what was stored there before.
    fn insert_erased(&mut self, key: TypeId, value: ErasedResource)
        requires
            erased_type(value) == key,
        ensures
            final(self)@ == old(self)@.insert(key, value),
    {
        proof {
            use_type_invariant(&*self);
        }
        let mut entries: Vec<ResourceEntry> = Vec::new();
        std::mem::swap(&mut entries, &mut self.entries);
        let ghost before = entries@;
        match Self::find(&entries, &key) {
            Some(i) => {
                entries.set(i, ResourceEntry { key, value });
                proof {
                    let after = entries@;
                    assert(keys_distinct(after));
                    assert(entries_well_typed(after));
                    lemma_write_entry(before, after, key, value, i as int);
                }
            },
            None => {
                entries.push(ResourceEntry { key, value });
                proof {
                    let after = entries@;
                    let n = before.len() as int;
                    assert(keys_distinct(after)) by {
                        assert forall|i: int, j: int|
                            0 <= i < after.len() && 0 <= j < after.len() && i != j implies after[i].key
                            != after[j].key by {
                            if i == n {
                                assert(before[j].key == after[j].key);
                            } else if j == n {
                                assert(before[i].key == after[i].key);
                            }
                        }
                    }
                    assert(entries_well_typed(after));
                    lemma_write_entry(before, after, key, value, n);
                }
            },
        }
        self.entries = entries;
    }

    /// The value stored under `key`, or `None` if nothing is stored there;
    /// a stored value has the type whose identity it is stored under.
    fn get_erased(&self, key: &TypeId) -> (r: Option<&ErasedResource>)
        ensures
            r is Some <==> self@.contains_key(*key),
            r matches Some(v) ==> *v == self@[*key] && erased_type(*v) == *key,
    {
        proof {
            use_type_invariant(self);
        }
        match Self::find(&self.entries, key) {
            Some(i) => {
                proof {
                    lemma_slot_unique(self.entries@, *key, i as int);
                }
                Some(&self.entries[i].value)
            },
            None => None,
        }
    }

    /// Removes what is stored under `key`, if anything.
    fn remove_erased(&mut self, key: &TypeId)
        ensures
            final(self)@ == old(self)@.remove(*key),
    {
        proof {
            use_type_invariant(&*self);
        }
        let mut entries: Vec<ResourceEntry> = Vec::new();
        std::mem::swap(&mut entries, &mut self.entries);
        let ghost before = entries@;
        match Self::find(&entries, key) {
            Some(i) => {
                let _removed = entries.remove(i);
                proof {
                    let after = entries@;
                    assert(after =~= before.remove(i as int));
                    assert(entries_well_typed(after)) by {
                        assert forall|a: int| 0 <= a < after.len() implies erased_type(
                            #[trigger] after[a].value,
                        ) == after[a].key by {
                            let a0 = if a < i { a } else { a + 1 };
                            assert(after[a] == before[a0]);
                        }
                    }
                    assert(keys_distinct(after)) by {
                        assert forall|a: int, b: int|
                            0 <= a < after.len() && 0 <= b < after.len() && a != b implies after[a].key
                            != after[b].key by {
                            let a0 = if a < i { a } else { a + 1 };
                            let b0 = if b < i { b } else { b + 1 };
                            assert(after[a] == before[a0]);
                            assert(after[b] == before[b0]);
                        }
                    }
                    assert forall|k: TypeId| #[trigger]
                        entries_map(after).contains_key(k) == entries_map(before).remove(
                            *key,
                        ).contains_key(k) by {
                        if holds_key(after, k) {
                            let j = slot_of(after, k);
                            let j0 = if j < i { j } else { j + 1 };
                            assert(after[j] == before[j0]);
                            lemma_slot_unique(before, *key, i as int);
                        }
                        if holds_key(before, k) && k != *key {
                            let j = slot_of(before, k);
                            assert(j != i);
                            let j1 = if j < i { j } else { j - 1 };
                            assert(after[j1] == before[j]);
                        }
                    }
                    assert forall|k: TypeId| #[trigger]
                        entries_map(after).contains_key(k) implies entries_map(after)[k]
                        == entries_map(before)[k] by {
                        let j = slot_of(after, k);
                        lemma_slot_unique(after, k, j);
                        let j0 = if j < i { j } else { j + 1 };
                        assert(after[j] == before[j0]);
                        lemma_slot_unique(before, k, j0);
                    }
                    assert(entries_map(after) =~= entries_map(before).remove(*key));
                }
            },
            None => {
                proof {
                    assert(entries_map(before) =~= entries_map(before).remove(*key));
                }
            },
        }
        self.entries = entries;
    }

    /// Whether something is stored under `key`.
    fn contains_erased(&self, key: &TypeId) -> (r: bool)
        ensures
            r == self@.contains_key(*key),
    {
        proof {
            use_type_invariant(self);
        }
        match Self::find(&self.entries, key) {
            Some(i) => {
                proof {
                    lemma_slot_unique(self.entries@, *key, i as int);
                }
                true
            },
            None => false,
        }
    }

    /// Insert (or replace) a value accessible by its concrete type `T`: the
    /// map changes only at the identity of `T`, where it now holds `value`.
    pub fn insert<T: Any + Send + Sync + 'static>(&mut self, value: T)
        ensures
            final(self)@ == old(self)@.insert(
                type_identity::<T>(),
                final(self)@[type_identity::<T>()],
            ),
            erased_as::<T>(final(self)@[type_identity::<T>()]) == value,
    {
        let key = type_key::<T>();
        let erased = erase(value);
        self.insert_erased(key, erased);
    }

    /// Retrieve a shared reference to the value stored under type `T`, or
    /// `None` if nothing has been inserted for that type.
    pub fn get<T: Any + Send + Sync + 'static>(&self) -> (r: Option<&T>)
        ensures
            r is Some <==> self@.contains_key(type_identity::<T>()),
            r matches Some(x) ==> *x == erased_as::<T>(self@[type_identity::<T>()]),
    {
        let key = type_key::<T>();
        match self.get_erased(&key) {
            Some(erased) => downcast::<T>(erased),
            None => None,
        }
    }

    /// Remove the value stored under type `T`, if any: the map loses the
    /// identity of `T` and nothing else.
    pub fn remove<T: Any + Send + Sync + 'static>(&mut self)
        ensures
            final(self)@ == old(self)@.remove(type_identity::<T>()),
    {
        let key = type_key::<T>();
        self.remove_erased(&key);
    }

    /// Returns `true` if a value of type `T` is present.
    pub fn contains<T: Any + Send + Sync + 'static>(&self) -> (r: bool)
        ensures
            r == self@.contains_key(type_identity::<T>()),
    {
        let key = type_key::<T>();
        self.contains_erased(&key)
    }
}

impl Default for GraphNodeResources {
    fn default() -> (r: Self)
        ensures
            r@ == Map::<TypeId, ErasedResource>::empty(),
    {
        GraphNodeResources::new()
    }
}

/// A read gives back what the last write under the same type identity wrote,
/// and a write under one identity leaves every other identity as it was.
pub proof fn lemma_read_after_insert(
    store: GraphNodeResources,
    key: TypeId,
    value: ErasedResource,
    other: TypeId,
)
    ensures
        store@.insert(key, value).contains_key(key),
        store@.insert(key, value)[key] == value,
        other != key ==> (store@.insert(key, value).contains_key(other) == store@.contains_key(
            other,
        )),
        other != key && store@.contains_key(other) ==> store@.insert(key, value)[other]
            == store@[other],
{
}

/// What `insert::<T>(value)` leaves: the identity of `T` is held, a typed
/// read of `T` gives back `value`, and every other identity is held and
/// valued as before.
pub proof fn lemma_typed_insert_then_read<T>(
    before: GraphNodeResources,
    after: GraphNodeResources,
    value: T,
    other: TypeId,
)
    requires
        after@ == before@.insert(type_identity::<T>(), after@[type_identity::<T>()]),
        erased_as::<T>(after@[type_identity::<T>()]) == value,
    ensures
        after@.contains_key(type_identity::<T>()),
        erased_as::<T>(after@[type_identity::<T>()]) == value,
        other != type_identity::<T>() ==> after@.contains_key(other) == before@.contains_key(
            other,
        ),
        other != type_identity::<T>() && before@.contains_key(other) ==> after@[other]
            == before@[other],
{
}

/// Inserting twice under one identity leaves only the second value there,
/// and replacing a present value does not change which identities are held.
pub proof fn lemma_insert_replaces(
    store: GraphNodeResources,
    key: TypeId,
    first: ErasedResource,
    second: ErasedResource,
)
    ensures
        store@.insert(key, first).insert(key, second) == store@.insert(key, second),
        store@.contains_key(key) ==> store@.insert(key, second).dom() == store@.dom(),
{
    assert(store@.insert(key, first).insert(key, second) =~= store@.insert(key, second));
    if store@.contains_key(key) {
        assert(store@.insert(key, second).dom() =~= store@.dom());
    }
}

/// After a removal nothing is held under that identity, every other identity
/// keeps its value, and removing again changes nothing.
pub proof fn lemma_remove(store: GraphNodeResources, key: TypeId, other: TypeId)
    ensures
        !store@.remove(key).contains_key(key),
        other != key ==> store@.remove(key).contains_key(other) == store@.contains_key(other),
        other != key && store@.contains_key(other) ==> store@.remove(key)[other]
            == store@[other],
        store@.remove(key).remove(key) == store@.remove(key),
        !store@.contains_key(key) ==> store@.remove(key) == store@,
{
    assert(store@.remove(key).remove(key) =~= store@.remove(key));
    if !store@.contains_key(key) {
        assert(store@.remove(key) =~= store@);
    }
}

/// Inserting and then removing under an identity that was absent gives back
/// the map as it was.
pub proof fn lemma_remove_undoes_insert(
    store: GraphNodeResources,
    key: TypeId,
    value: ErasedResource,
)
    requires
        !store@.contains_key(key),
    ensures
        store@.insert(key, value).remove(key) == store@,
{
    assert(store@.insert(key, value).remove(key) =~= store@);
}

/// One write to the map at the level of type identities.
pub enum ResourceOp {
    Insert(TypeId, ErasedResource),
    Remove(TypeId),
}

/// The map after one write: what `insert_erased` and `remove_erased` do.
pub open spec fn apply_op(m: Map<TypeId, ErasedResource>, op: ResourceOp) -> Map<
    TypeId,
    ErasedResource,
> {
    match op {
        ResourceOp::Insert(k, v) => m.insert(k, v),
        ResourceOp::Remove(k) => m.remove(k),
    }
}

/// The map after a sequence of writes, in order.
pub open spec fn apply_ops(m: Map<TypeId, ErasedResource>, ops: Seq<ResourceOp>) -> Map<
    TypeId,
    ErasedResource,
>
    decreases ops.len(),
{
    if ops.len() == 0 {
        m
    } else {
        apply_op(apply_ops(m, ops.drop_last()), ops.last())
    }
}

/// The value of the latest insertion under `key` that no later removal under
/// `key` follows, if there is one.
pub open spec fn last_write(ops: Seq<ResourceOp>, key: TypeId) -> Option<ErasedResource>
    decreases ops.len(),
{
    if ops.len() == 0 {
        None
    } else {
        match ops.last() {
            ResourceOp::Insert(k, v) => if k == key {
                Some(v)
            } else {
                last_write(ops.drop_last(), key)
            },
            ResourceOp::Remove(k) => if k == key {
                None
            } else {
                last_write(ops.drop_last(), key)
            },
        }
    }
}

/// A map whose view is the result of some writes and that then takes one more
/// write through `insert_erased` or `remove_erased` has as its view the
/// result of the longer sequence.
pub proof fn lemma_one_more_write(
    before: GraphNodeResources,
    after: GraphNodeResources,
    ops: Seq<ResourceOp>,
    op: ResourceOp,
)
    requires
        before@ == apply_ops(Map::empty(), ops),
        after@ == apply_op(before@, op),
    ensures
        after@ == apply_ops(Map::empty(), ops.push(op)),
{
    assert(ops.push(op).drop_last() =~= ops);
}

/// A map built empty (by `new` or `default`) and then written by a sequence
/// of insertions and removals holds a value under `key` exactly when some
/// insertion under `key` is not followed by a removal under `key`, and then
/// holds the value of the latest such insertion.  `insert::<T>(v)` is the
/// insertion under `type_identity::<T>()` of a value `e` with
/// `erased_as::<T>(e) == v`, `remove::<T>()` the removal under that identity,
/// and `get::<T>()` reads `erased_as::<T>` of what is held there: so a typed
/// read gives the latest typed insertion of `T` not followed by its removal.
pub proof fn lemma_reads_after_writes(ops: Seq<ResourceOp>, key: TypeId)
    ensures
        apply_ops(Map::empty(), ops).contains_key(key) <==> last_write(ops, key) is Some,
        last_write(ops, key) matches Some(v) ==> apply_ops(Map::empty(), ops)[key] == v,
    decreases ops.len(),
{
    if ops.len() > 0 {
        lemma_reads_after_writes(ops.drop_last(), key);
    }
}

} // verus!
