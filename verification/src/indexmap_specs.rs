//! The `indexmap` collections that the statechart keeps, with the contracts
//! of the methods that the library calls.
//!
//! Each map is viewed through a named sequence of `(key, value)` entries in
//! insertion order (see `crate::ordered`); each set through a sequence of
//! keys. The contracts restate what the `indexmap` 2.x documentation and
//! source say of `new`, `insert`, `get`, `get_mut`, `contains_key`,
//! `shift_remove` and `contains`: insertion keeps an existing key in its
//! place and appends a new one; removal shifts the entries that follow.
use indexmap::{IndexMap, IndexSet};
use vstd::prelude::*;

use crate::compile::CompiledFormulaProperty;
use crate::expose::ANodeFieldPath;
use crate::formula::{FormulaPropertyDecl, ManagedRegionInstance};
use crate::graph::{entries_same, instance_copy, ANodeInstance};
use crate::ids::{FormulaPropertyId, ManagedRegionId, SocketId, SurfaceItemId};
use crate::ordered::{entries_insert, entries_remove, has_key, key_pos, set_insert, value_of};
use crate::registry::{FacetDescriptor, ValueTypeDescriptor};
use crate::value::{FacetId, RuntimeValue, StableRef, ValueTypeId};
use crate::statechart::{Region, StateHistory, StateNode};
use crate::solve::ResolvedANode;
use crate::typing::{ResolvedSocket, TypeBinding, TypeConstraint, TypeVar};

verus! {

#[verifier::external_type_specification]
#[verifier::external_body]
#[verifier::reject_recursive_types(K)]
#[verifier::reject_recursive_types(V)]
#[verifier::reject_recursive_types(S)]
pub struct ExIndexMap<K, V, S>(IndexMap<K, V, S>);

#[verifier::external_type_specification]
#[verifier::external_body]
#[verifier::reject_recursive_types(T)]
#[verifier::reject_recursive_types(S)]
pub struct ExIndexSet<T, S>(IndexSet<T, S>);

/// The entries of a map from region identifiers to regions.
pub uninterp spec fn region_entries(m: IndexMap<u64, Region>) -> Seq<(u64, Region)>;

/// The entries of a map from state identifiers to states.
pub uninterp spec fn state_entries(m: IndexMap<u64, StateNode>) -> Seq<(u64, StateNode)>;

/// The entries of a map from state identifiers to recorded histories.
pub uninterp spec fn history_entries(m: IndexMap<u64, StateHistory>) -> Seq<(u64, StateHistory)>;

/// The items of a set of state identifiers, in insertion order.
pub uninterp spec fn scope_items(s: IndexSet<u64>) -> Seq<u64>;

/// Calls `IndexMap::new`: an empty map.
#[verifier::external_body]
pub fn region_map_new() -> (m: IndexMap<u64, Region>)
    ensures
        region_entries(m) == Seq::<(u64, Region)>::empty(),
{
    IndexMap::new()
}

/// Calls `IndexMap::insert`: an existing key keeps its place and takes the
/// new value, whose predecessor is returned; a new key is appended.
#[verifier::external_body]
pub fn region_map_insert(m: &mut IndexMap<u64, Region>, key: u64, value: Region) -> (r: Option<
    Region,
>)
    ensures
        region_entries(*final(m)) == entries_insert(region_entries(*old(m)), key, value),
        r is Some <==> has_key(region_entries(*old(m)), key),
        r matches Some(v) ==> v == value_of(region_entries(*old(m)), key),
{
    m.insert(key, value)
}

/// Calls `IndexMap::get`: the value stored under `key`, if any.
#[verifier::external_body]
pub fn region_map_get<'a>(m: &'a IndexMap<u64, Region>, key: &u64) -> (r: Option<&'a Region>)
    ensures
        r is Some <==> has_key(region_entries(*m), *key),
        r matches Some(v) ==> *v == value_of(region_entries(*m), *key),
{
    m.get(key)
}

/// Calls `IndexMap::contains_key`.
#[verifier::external_body]
pub fn region_map_contains(m: &IndexMap<u64, Region>, key: &u64) -> (r: bool)
    ensures
        r == has_key(region_entries(*m), *key),
{
    m.contains_key(key)
}

/// Calls `IndexMap::get_mut`: a mutable reference to the value stored under
/// `key`; what is written through it replaces that entry's value in place.
#[verifier::external_body]
pub fn region_map_get_mut<'a>(m: &'a mut IndexMap<u64, Region>, key: &u64) -> (r: Option<
    &'a mut Region,
>)
    ensures
        r is Some <==> has_key(region_entries(*old(m)), *key),
        r is None ==> region_entries(*final(m)) == region_entries(*old(m)),
        r matches Some(v) ==> {
            &&& *v == value_of(region_entries(*old(m)), *key)
            &&& region_entries(*final(m)) == region_entries(*old(m)).update(
                key_pos(region_entries(*old(m)), *key),
                (*key, *final(v)),
            )
        },
{
    m.get_mut(key)
}

/// Calls `IndexMap::new`: an empty map.
#[verifier::external_body]
pub fn state_map_new() -> (m: IndexMap<u64, StateNode>)
    ensures
        state_entries(m) == Seq::<(u64, StateNode)>::empty(),
{
    IndexMap::new()
}

/// Calls `IndexMap::insert`: an existing key keeps its place and takes the
/// new value; a new key is appended.
#[verifier::external_body]
pub fn state_map_insert(m: &mut IndexMap<u64, StateNode>, key: u64, value: StateNode) -> (r: Option<
    StateNode,
>)
    ensures
        state_entries(*final(m)) == entries_insert(state_entries(*old(m)), key, value),
        r is Some <==> has_key(state_entries(*old(m)), key),
{
    m.insert(key, value)
}

/// Calls `IndexMap::get`: the value stored under `key`, if any.
#[verifier::external_body]
pub fn state_map_get<'a>(m: &'a IndexMap<u64, StateNode>, key: &u64) -> (r: Option<&'a StateNode>)
    ensures
        r is Some <==> has_key(state_entries(*m), *key),
        r matches Some(v) ==> *v == value_of(state_entries(*m), *key),
{
    m.get(key)
}

/// Calls `IndexMap::contains_key`.
#[verifier::external_body]
pub fn state_map_contains(m: &IndexMap<u64, StateNode>, key: &u64) -> (r: bool)
    ensures
        r == has_key(state_entries(*m), *key),
{
    m.contains_key(key)
}

/// Calls `IndexMap::new`: an empty map.
#[verifier::external_body]
pub fn history_map_new() -> (m: IndexMap<u64, StateHistory>)
    ensures
        history_entries(m) == Seq::<(u64, StateHistory)>::empty(),
{
    IndexMap::new()
}

/// Calls `IndexMap::insert`: an existing key keeps its place and takes the
/// new value; a new key is appended.
#[verifier::external_body]
pub fn history_map_insert(m: &mut IndexMap<u64, StateHistory>, key: u64, value: StateHistory) -> (r:
    Option<StateHistory>)
    ensures
        history_entries(*final(m)) == entries_insert(history_entries(*old(m)), key, value),
        r is Some <==> has_key(history_entries(*old(m)), key),
{
    m.insert(key, value)
}

/// Calls `IndexMap::get`: the value stored under `key`, if any.
#[verifier::external_body]
pub fn history_map_get<'a>(m: &'a IndexMap<u64, StateHistory>, key: &u64) -> (r: Option<
    &'a StateHistory,
>)
    ensures
        r is Some <==> has_key(history_entries(*m), *key),
        r matches Some(v) ==> *v == value_of(history_entries(*m), *key),
{
    m.get(key)
}

/// Calls `IndexSet::new`: an empty set.
#[verifier::external_body]
pub fn scope_set_new() -> (s: IndexSet<u64>)
    ensures
        scope_items(s) == Seq::<u64>::empty(),
{
    IndexSet::new()
}

/// Calls `IndexSet::insert`: a present item stays where it is and `false` is
/// returned; a new item is appended and `true` is returned.
#[verifier::external_body]
pub fn scope_set_insert(s: &mut IndexSet<u64>, value: u64) -> (r: bool)
    ensures
        scope_items(*final(s)) == set_insert(scope_items(*old(s)), value),
        r == !scope_items(*old(s)).contains(value),
{
    s.insert(value)
}

/// Calls `IndexSet::contains`.
#[verifier::external_body]
pub fn scope_set_contains(s: &IndexSet<u64>, value: &u64) -> (r: bool)
    ensures
        r == scope_items(*s).contains(*value),
{
    s.contains(value)
}

/// The bindings of type variables, keyed by variable name.
pub uninterp spec fn binding_entries(m: IndexMap<TypeVar, TypeBinding>) -> Seq<(Seq<char>, TypeBinding)>;

/// Calls `IndexMap::new`: an empty map.
#[verifier::external_body]
pub fn binding_map_new() -> (m: IndexMap<TypeVar, TypeBinding>)
    ensures
        binding_entries(m) == Seq::<(Seq<char>, TypeBinding)>::empty(),
{
    IndexMap::new()
}

/// Calls `IndexMap::insert`: an existing key (two type variables are the
/// same key when their names are equal) keeps its place and takes the new
/// value, whose predecessor is returned; a new key is appended.
#[verifier::external_body]
pub fn binding_map_insert(m: &mut IndexMap<TypeVar, TypeBinding>, key: TypeVar, value: TypeBinding) -> (r:
    Option<TypeBinding>)
    ensures
        binding_entries(*final(m)) == entries_insert(binding_entries(*old(m)), key@, value),
        r is Some <==> has_key(binding_entries(*old(m)), key@),
        r matches Some(v) ==> v == value_of(binding_entries(*old(m)), key@),
{
    m.insert(key, value)
}

/// Calls `IndexMap::get`: the value stored under `key`, if any.
#[verifier::external_body]
pub fn binding_map_get<'a>(m: &'a IndexMap<TypeVar, TypeBinding>, key: &TypeVar) -> (r: Option<
    &'a TypeBinding,
>)
    ensures
        r is Some <==> has_key(binding_entries(*m), key@),
        r matches Some(v) ==> *v == value_of(binding_entries(*m), key@),
{
    m.get(key)
}

/// Calls `IndexMap::len`: the number of entries.
#[verifier::external_body]
pub fn binding_map_len(m: &IndexMap<TypeVar, TypeBinding>) -> (r: usize)
    ensures
        r == binding_entries(*m).len(),
{
    m.len()
}

/// Calls `IndexMap::clone`: a map with the same entries in the same order
/// (a type variable and a binding clone to equal values).
#[verifier::external_body]
pub fn binding_map_clone(m: &IndexMap<TypeVar, TypeBinding>) -> (r: IndexMap<TypeVar, TypeBinding>)
    ensures
        binding_entries(r) == binding_entries(*m),
{
    m.clone()
}

/// Calls `IndexMap::get_index`: the entry at position `index`.
#[verifier::external_body]
pub fn binding_map_get_index<'a>(m: &'a IndexMap<TypeVar, TypeBinding>, index: usize) -> (r: Option<
    (&'a TypeVar, &'a TypeBinding),
>)
    ensures
        r is Some <==> index < binding_entries(*m).len(),
        r matches Some((k, v)) ==> k@ == binding_entries(*m)[index as int].0 && *v == binding_entries(
            *m,
        )[index as int].1,
{
    m.get_index(index)
}

/// The nodes of a graph, keyed by node identifier, in insertion order.
pub uninterp spec fn node_entries(m: IndexMap<u64, ANodeInstance>) -> Seq<(u64, ANodeInstance)>;

/// Calls `IndexMap::new`: an empty map.
#[verifier::external_body]
pub fn node_map_new() -> (m: IndexMap<u64, ANodeInstance>)
    ensures
        node_entries(m) == Seq::<(u64, ANodeInstance)>::empty(),
{
    IndexMap::new()
}

/// Calls `IndexMap::insert`: an existing key keeps its place and takes the
/// new value; a new key is appended.
#[verifier::external_body]
pub fn node_map_insert(m: &mut IndexMap<u64, ANodeInstance>, key: u64, value: ANodeInstance) -> (r: Option<
    ANodeInstance,
>)
    ensures
        node_entries(*final(m)) == entries_insert(node_entries(*old(m)), key, value),
        r is Some <==> has_key(node_entries(*old(m)), key),
        r matches Some(v) ==> v == value_of(node_entries(*old(m)), key),
{
    m.insert(key, value)
}

/// Calls `IndexMap::contains_key`.
#[verifier::external_body]
pub fn node_map_contains(m: &IndexMap<u64, ANodeInstance>, key: &u64) -> (r: bool)
    ensures
        r == has_key(node_entries(*m), *key),
{
    m.contains_key(key)
}

/// Calls `IndexMap::get`: the value stored under `key`, if any.
#[verifier::external_body]
pub fn node_map_get<'a>(m: &'a IndexMap<u64, ANodeInstance>, key: &u64) -> (r: Option<&'a ANodeInstance>)
    ensures
        r is Some <==> has_key(node_entries(*m), *key),
        r matches Some(v) ==> *v == value_of(node_entries(*m), *key),
{
    m.get(key)
}

/// Calls `IndexMap::get_mut`: a mutable reference to the value stored under
/// `key`; what is written through it replaces that entry's value in place.
#[verifier::external_body]
pub fn node_map_get_mut<'a>(m: &'a mut IndexMap<u64, ANodeInstance>, key: &u64) -> (r: Option<&'a mut ANodeInstance>)
    ensures
        r is Some <==> has_key(node_entries(*old(m)), *key),
        r is None ==> node_entries(*final(m)) == node_entries(*old(m)),
        r matches Some(v) ==> {
            &&& *v == value_of(node_entries(*old(m)), *key)
            &&& node_entries(*final(m)) == node_entries(*old(m)).update(
                key_pos(node_entries(*old(m)), *key),
                (*key, *final(v)),
            )
        },
{
    m.get_mut(key)
}

/// Calls `IndexMap::shift_remove`: removes the entry under `key`, shifting
/// the entries after it one place forward, and returns its value.
#[verifier::external_body]
pub fn node_map_shift_remove(m: &mut IndexMap<u64, ANodeInstance>, key: &u64) -> (r: Option<ANodeInstance>)
    ensures
        node_entries(*final(m)) == entries_remove(node_entries(*old(m)), *key),
        r is Some <==> has_key(node_entries(*old(m)), *key),
        r matches Some(v) ==> v == value_of(node_entries(*old(m)), *key),
{
    m.shift_remove(key)
}

/// Calls `IndexMap::len`: the number of entries.
#[verifier::external_body]
pub fn node_map_len(m: &IndexMap<u64, ANodeInstance>) -> (r: usize)
    ensures
        r == node_entries(*m).len(),
{
    m.len()
}

/// Calls `IndexMap::get_index_of`: the position of the entry under `key`.
#[verifier::external_body]
pub fn node_map_get_index_of(m: &IndexMap<u64, ANodeInstance>, key: &u64) -> (r: Option<usize>)
    ensures
        r is Some <==> has_key(node_entries(*m), *key),
        r matches Some(i) ==> i < node_entries(*m).len() && node_entries(*m)[i as int].0 == *key,
{
    m.get_index_of(key)
}

/// Calls `IndexMap::clone`: the same keys in the same order, each node
/// cloned by its own `Clone` (which copies it, see `instance_copy`).
#[verifier::external_body]
pub fn node_map_clone(m: &IndexMap<u64, ANodeInstance>) -> (r: IndexMap<u64, ANodeInstance>)
    ensures
        node_entries(r).len() == node_entries(*m).len(),
        forall|i: int|
            0 <= i < node_entries(*m).len() ==> (#[trigger] node_entries(r)[i]).0 == node_entries(*m)[i].0
                && instance_copy(node_entries(*m)[i].1, node_entries(r)[i].1),
{
    m.clone()
}

/// Calls `IndexMap::get_index`: the entry at position `index`.
#[verifier::external_body]
pub fn node_map_get_index<'a>(m: &'a IndexMap<u64, ANodeInstance>, index: usize) -> (r: Option<
    (&'a u64, &'a ANodeInstance),
>)
    ensures
        r is Some <==> index < node_entries(*m).len(),
        r matches Some((k, v)) ==> *k == node_entries(*m)[index as int].0 && *v == node_entries(
            *m,
        )[index as int].1,
{
    m.get_index(index)
}

/// The fields of a node's configuration, keyed by field name.
pub uninterp spec fn config_entries(m: IndexMap<String, RuntimeValue>) -> Seq<(Seq<char>, RuntimeValue)>;

/// Calls `IndexMap::new`: an empty map.
#[verifier::external_body]
pub fn config_map_new() -> (m: IndexMap<String, RuntimeValue>)
    ensures
        config_entries(m) == Seq::<(Seq<char>, RuntimeValue)>::empty(),
{
    IndexMap::new()
}

/// Calls `IndexMap::insert` with the key `field` as an owned `String`: an
/// existing key keeps its place and takes the new value; a new key is
/// appended.
#[verifier::external_body]
pub fn config_map_insert(m: &mut IndexMap<String, RuntimeValue>, field: &str, value: RuntimeValue) -> (r: Option<
    RuntimeValue,
>)
    ensures
        config_entries(*final(m)) == entries_insert(config_entries(*old(m)), field@, value),
        r is Some <==> has_key(config_entries(*old(m)), field@),
{
    m.insert(field.to_owned(), value)
}

/// Calls `IndexMap::clone`: the same field names in the same order, each
/// value cloned (a runtime value clones to the same value).
#[verifier::external_body]
pub fn config_map_clone(m: &IndexMap<String, RuntimeValue>) -> (r: IndexMap<String, RuntimeValue>)
    ensures
        entries_same(config_entries(r), config_entries(*m)),
{
    m.clone()
}

/// Calls `IndexMap::get` with a `&str` key.
#[verifier::external_body]
pub fn config_map_get<'a>(m: &'a IndexMap<String, RuntimeValue>, field: &str) -> (r: Option<&'a RuntimeValue>)
    ensures
        r is Some <==> has_key(config_entries(*m), field@),
        r matches Some(v) ==> *v == value_of(config_entries(*m), field@),
{
    m.get(field)
}

/// The default values of a node's inputs, keyed by socket name.
pub uninterp spec fn default_entries(m: IndexMap<SocketId, RuntimeValue>) -> Seq<(Seq<char>, RuntimeValue)>;

/// Calls `IndexMap::new`: an empty map.
#[verifier::external_body]
pub fn default_map_new() -> (m: IndexMap<SocketId, RuntimeValue>)
    ensures
        default_entries(m) == Seq::<(Seq<char>, RuntimeValue)>::empty(),
{
    IndexMap::new()
}

/// Calls `IndexMap::insert`: an existing key (two socket identifiers are
/// the same key when their text is equal) keeps its place and takes the new
/// value; a new key is appended.
#[verifier::external_body]
pub fn default_map_insert(m: &mut IndexMap<SocketId, RuntimeValue>, key: SocketId, value: RuntimeValue) -> (r:
    Option<RuntimeValue>)
    ensures
        default_entries(*final(m)) == entries_insert(default_entries(*old(m)), key@, value),
        r is Some <==> has_key(default_entries(*old(m)), key@),
{
    m.insert(key, value)
}

/// Calls `IndexMap::clone`: the same socket names in the same order, each
/// value cloned (a runtime value clones to the same value).
#[verifier::external_body]
pub fn default_map_clone(m: &IndexMap<SocketId, RuntimeValue>) -> (r: IndexMap<SocketId, RuntimeValue>)
    ensures
        entries_same(default_entries(r), default_entries(*m)),
{
    m.clone()
}

/// Calls `IndexMap::get`: the value stored under `key`, if any.
#[verifier::external_body]
pub fn default_map_get<'a>(m: &'a IndexMap<SocketId, RuntimeValue>, key: &SocketId) -> (r: Option<
    &'a RuntimeValue,
>)
    ensures
        r is Some <==> has_key(default_entries(*m), key@),
        r matches Some(v) ==> *v == value_of(default_entries(*m), key@),
{
    m.get(key)
}

/// The descriptors of a value type registry, keyed by type identifier.
pub uninterp spec fn vtype_entries(m: IndexMap<ValueTypeId, ValueTypeDescriptor>) -> Seq<(Seq<char>, ValueTypeDescriptor)>;

/// Calls `IndexMap::new`: an empty map.
#[verifier::external_body]
pub fn vtype_map_new() -> (m: IndexMap<ValueTypeId, ValueTypeDescriptor>)
    ensures
        vtype_entries(m) == Seq::<(Seq<char>, ValueTypeDescriptor)>::empty(),
{
    IndexMap::new()
}

/// Calls `IndexMap::insert`: an existing key (two type identifiers are the
/// same key when their text is equal) keeps its place and takes the new
/// value; a new key is appended.
#[verifier::external_body]
pub fn vtype_map_insert(
    m: &mut IndexMap<ValueTypeId, ValueTypeDescriptor>,
    key: ValueTypeId,
    value: ValueTypeDescriptor,
) -> (r: Option<ValueTypeDescriptor>)
    ensures
        vtype_entries(*final(m)) == entries_insert(vtype_entries(*old(m)), key@, value),
        r is Some <==> has_key(vtype_entries(*old(m)), key@),
{
    m.insert(key, value)
}

/// Calls `IndexMap::contains_key`.
#[verifier::external_body]
pub fn vtype_map_contains(m: &IndexMap<ValueTypeId, ValueTypeDescriptor>, key: &ValueTypeId) -> (r: bool)
    ensures
        r == has_key(vtype_entries(*m), key@),
{
    m.contains_key(key)
}

/// Calls `IndexMap::get`: the value stored under `key`, if any.
#[verifier::external_body]
pub fn vtype_map_get<'a>(m: &'a IndexMap<ValueTypeId, ValueTypeDescriptor>, key: &ValueTypeId) -> (r: Option<
    &'a ValueTypeDescriptor,
>)
    ensures
        r is Some <==> has_key(vtype_entries(*m), key@),
        r matches Some(v) ==> *v == value_of(vtype_entries(*m), key@),
{
    m.get(key)
}

/// Calls `IndexMap::len`: the number of entries.
#[verifier::external_body]
pub fn vtype_map_len(m: &IndexMap<ValueTypeId, ValueTypeDescriptor>) -> (r: usize)
    ensures
        r == vtype_entries(*m).len(),
{
    m.len()
}

/// Calls `IndexMap::get_index`: the entry at position `index`.
#[verifier::external_body]
pub fn vtype_map_get_index<'a>(m: &'a IndexMap<ValueTypeId, ValueTypeDescriptor>, index: usize) -> (r: Option<
    (&'a ValueTypeId, &'a ValueTypeDescriptor),
>)
    ensures
        r is Some <==> index < vtype_entries(*m).len(),
        r matches Some((k, v)) ==> k@ == vtype_entries(*m)[index as int].0 && *v == vtype_entries(
            *m,
        )[index as int].1,
{
    m.get_index(index)
}

/// The descriptors of a facet registry, keyed by facet identifier.
pub uninterp spec fn facet_entries(m: IndexMap<FacetId, FacetDescriptor>) -> Seq<(Seq<char>, FacetDescriptor)>;

/// Calls `IndexMap::new`: an empty map.
#[verifier::external_body]
pub fn facet_map_new() -> (m: IndexMap<FacetId, FacetDescriptor>)
    ensures
        facet_entries(m) == Seq::<(Seq<char>, FacetDescriptor)>::empty(),
{
    IndexMap::new()
}

/// Calls `IndexMap::insert`: an existing key keeps its place and takes the
/// new value; a new key is appended.
#[verifier::external_body]
pub fn facet_map_insert(m: &mut IndexMap<FacetId, FacetDescriptor>, key: FacetId, value: FacetDescriptor) -> (r:
    Option<FacetDescriptor>)
    ensures
        facet_entries(*final(m)) == entries_insert(facet_entries(*old(m)), key@, value),
        r is Some <==> has_key(facet_entries(*old(m)), key@),
{
    m.insert(key, value)
}

/// Calls `IndexMap::contains_key`.
#[verifier::external_body]
pub fn facet_map_contains(m: &IndexMap<FacetId, FacetDescriptor>, key: &FacetId) -> (r: bool)
    ensures
        r == has_key(facet_entries(*m), key@),
{
    m.contains_key(key)
}

/// Calls `IndexMap::get`: the value stored under `key`, if any.
#[verifier::external_body]
pub fn facet_map_get<'a>(m: &'a IndexMap<FacetId, FacetDescriptor>, key: &FacetId) -> (r: Option<
    &'a FacetDescriptor,
>)
    ensures
        r is Some <==> has_key(facet_entries(*m), key@),
        r matches Some(v) ==> *v == value_of(facet_entries(*m), key@),
{
    m.get(key)
}

/// The constraints on the type variables of a signature, keyed by name.
pub uninterp spec fn constraint_entries(m: IndexMap<TypeVar, TypeConstraint>) -> Seq<(Seq<char>, TypeConstraint)>;

/// Calls `IndexMap::new`: an empty map.
#[verifier::external_body]
pub fn constraint_map_new() -> (m: IndexMap<TypeVar, TypeConstraint>)
    ensures
        constraint_entries(m) == Seq::<(Seq<char>, TypeConstraint)>::empty(),
{
    IndexMap::new()
}

/// Calls `IndexMap::insert`: an existing key keeps its place and takes the
/// new value; a new key is appended.
#[verifier::external_body]
pub fn constraint_map_insert(m: &mut IndexMap<TypeVar, TypeConstraint>, key: TypeVar, value: TypeConstraint) -> (r:
    Option<TypeConstraint>)
    ensures
        constraint_entries(*final(m)) == entries_insert(constraint_entries(*old(m)), key@, value),
        r is Some <==> has_key(constraint_entries(*old(m)), key@),
{
    m.insert(key, value)
}

/// Calls `IndexMap::len`: the number of entries.
#[verifier::external_body]
pub fn constraint_map_len(m: &IndexMap<TypeVar, TypeConstraint>) -> (r: usize)
    ensures
        r == constraint_entries(*m).len(),
{
    m.len()
}

/// Calls `IndexMap::get_index`: the entry at position `index`.
#[verifier::external_body]
pub fn constraint_map_get_index<'a>(m: &'a IndexMap<TypeVar, TypeConstraint>, index: usize) -> (r: Option<(&'a TypeVar, &'a TypeConstraint)>)
    ensures
        r is Some <==> index < constraint_entries(*m).len(),
        r matches Some((k, v)) ==> k@ == constraint_entries(*m)[index as int].0 && *v == constraint_entries(*m)[index as int].1,
{
    m.get_index(index)
}

/// Calls `IndexMap::get`: the value stored under `key`, if any.
#[verifier::external_body]
pub fn constraint_map_get<'a>(m: &'a IndexMap<TypeVar, TypeConstraint>, key: &TypeVar) -> (r: Option<
    &'a TypeConstraint,
>)
    ensures
        r is Some <==> has_key(constraint_entries(*m), key@),
        r matches Some(v) ==> *v == value_of(constraint_entries(*m), key@),
{
    m.get(key)
}

/// The properties of a formula, keyed by property identifier.
pub uninterp spec fn property_entries(m: IndexMap<FormulaPropertyId, FormulaPropertyDecl>) -> Seq<(Seq<char>, FormulaPropertyDecl)>;

/// Calls `IndexMap::new`: an empty map.
#[verifier::external_body]
pub fn property_map_new() -> (m: IndexMap<FormulaPropertyId, FormulaPropertyDecl>)
    ensures
        property_entries(m) == Seq::<(Seq<char>, FormulaPropertyDecl)>::empty(),
{
    IndexMap::new()
}

/// Calls `IndexMap::insert`: an existing key keeps its place and takes the
/// new value; a new key is appended.
#[verifier::external_body]
pub fn property_map_insert(m: &mut IndexMap<FormulaPropertyId, FormulaPropertyDecl>, key: FormulaPropertyId, value: FormulaPropertyDecl) -> (r: Option<FormulaPropertyDecl>)
    ensures
        property_entries(*final(m)) == entries_insert(property_entries(*old(m)), key@, value),
        r is Some <==> has_key(property_entries(*old(m)), key@),
{
    m.insert(key, value)
}

/// Calls `IndexMap::get`: the value stored under `key`, if any.
#[verifier::external_body]
pub fn property_map_get<'a>(m: &'a IndexMap<FormulaPropertyId, FormulaPropertyDecl>, key: &FormulaPropertyId) -> (r: Option<&'a FormulaPropertyDecl>)
    ensures
        r is Some <==> has_key(property_entries(*m), key@),
        r matches Some(v) ==> *v == value_of(property_entries(*m), key@),
{
    m.get(key)
}

/// Calls `IndexMap::len`: the number of entries.
#[verifier::external_body]
pub fn property_map_len(m: &IndexMap<FormulaPropertyId, FormulaPropertyDecl>) -> (r: usize)
    ensures
        r == property_entries(*m).len(),
{
    m.len()
}

/// Calls `IndexMap::get_index`: the entry at position `index`.
#[verifier::external_body]
pub fn property_map_get_index<'a>(m: &'a IndexMap<FormulaPropertyId, FormulaPropertyDecl>, index: usize) -> (r: Option<(&'a FormulaPropertyId, &'a FormulaPropertyDecl)>)
    ensures
        r is Some <==> index < property_entries(*m).len(),
        r matches Some((k, v)) ==> k@ == property_entries(*m)[index as int].0 && *v == property_entries(*m)[index as int].1,
{
    m.get_index(index)
}

/// The managed region instances of a formula instance, keyed by region identifier.
pub uninterp spec fn region_instance_entries(m: IndexMap<ManagedRegionId, ManagedRegionInstance>) -> Seq<(Seq<char>, ManagedRegionInstance)>;

/// Calls `IndexMap::new`: an empty map.
#[verifier::external_body]
pub fn region_instance_map_new() -> (m: IndexMap<ManagedRegionId, ManagedRegionInstance>)
    ensures
        region_instance_entries(m) == Seq::<(Seq<char>, ManagedRegionInstance)>::empty(),
{
    IndexMap::new()
}

/// Calls `IndexMap::insert`: an existing key keeps its place and takes the
/// new value; a new key is appended.
#[verifier::external_body]
pub fn region_instance_map_insert(m: &mut IndexMap<ManagedRegionId, ManagedRegionInstance>, key: ManagedRegionId, value: ManagedRegionInstance) -> (r: Option<ManagedRegionInstance>)
    ensures
        region_instance_entries(*final(m)) == entries_insert(region_instance_entries(*old(m)), key@, value),
        r is Some <==> has_key(region_instance_entries(*old(m)), key@),
{
    m.insert(key, value)
}

/// Calls `IndexMap::get`: the value stored under `key`, if any.
#[verifier::external_body]
pub fn region_instance_map_get<'a>(m: &'a IndexMap<ManagedRegionId, ManagedRegionInstance>, key: &ManagedRegionId) -> (r: Option<&'a ManagedRegionInstance>)
    ensures
        r is Some <==> has_key(region_instance_entries(*m), key@),
        r matches Some(v) ==> *v == value_of(region_instance_entries(*m), key@),
{
    m.get(key)
}

/// Calls `IndexMap::len`: the number of entries.
#[verifier::external_body]
pub fn region_instance_map_len(m: &IndexMap<ManagedRegionId, ManagedRegionInstance>) -> (r: usize)
    ensures
        r == region_instance_entries(*m).len(),
{
    m.len()
}

/// Calls `IndexMap::get_index`: the entry at position `index`.
#[verifier::external_body]
pub fn region_instance_map_get_index<'a>(m: &'a IndexMap<ManagedRegionId, ManagedRegionInstance>, index: usize) -> (r: Option<(&'a ManagedRegionId, &'a ManagedRegionInstance)>)
    ensures
        r is Some <==> index < region_instance_entries(*m).len(),
        r matches Some((k, v)) ==> k@ == region_instance_entries(*m)[index as int].0 && *v == region_instance_entries(*m)[index as int].1,
{
    m.get_index(index)
}

/// The node fields bound to each surface item, keyed by item identifier.
pub uninterp spec fn surface_binding_entries(m: IndexMap<SurfaceItemId, Vec<ANodeFieldPath>>) -> Seq<(Seq<char>, Vec<ANodeFieldPath>)>;

/// Calls `IndexMap::new`: an empty map.
#[verifier::external_body]
pub fn surface_binding_map_new() -> (m: IndexMap<SurfaceItemId, Vec<ANodeFieldPath>>)
    ensures
        surface_binding_entries(m) == Seq::<(Seq<char>, Vec<ANodeFieldPath>)>::empty(),
{
    IndexMap::new()
}

/// Calls `IndexMap::insert`: an existing key keeps its place and takes the
/// new value; a new key is appended.
#[verifier::external_body]
pub fn surface_binding_map_insert(m: &mut IndexMap<SurfaceItemId, Vec<ANodeFieldPath>>, key: SurfaceItemId, value: Vec<ANodeFieldPath>) -> (r: Option<Vec<ANodeFieldPath>>)
    ensures
        surface_binding_entries(*final(m)) == entries_insert(surface_binding_entries(*old(m)), key@, value),
        r is Some <==> has_key(surface_binding_entries(*old(m)), key@),
{
    m.insert(key, value)
}

/// Calls `IndexMap::get`: the value stored under `key`, if any.
#[verifier::external_body]
pub fn surface_binding_map_get<'a>(m: &'a IndexMap<SurfaceItemId, Vec<ANodeFieldPath>>, key: &SurfaceItemId) -> (r: Option<&'a Vec<ANodeFieldPath>>)
    ensures
        r is Some <==> has_key(surface_binding_entries(*m), key@),
        r matches Some(v) ==> *v == value_of(surface_binding_entries(*m), key@),
{
    m.get(key)
}

/// The overridden values of surface items, keyed by item identifier.
pub uninterp spec fn override_entries(m: IndexMap<SurfaceItemId, RuntimeValue>) -> Seq<(Seq<char>, RuntimeValue)>;

/// Calls `IndexMap::new`: an empty map.
#[verifier::external_body]
pub fn override_map_new() -> (m: IndexMap<SurfaceItemId, RuntimeValue>)
    ensures
        override_entries(m) == Seq::<(Seq<char>, RuntimeValue)>::empty(),
{
    IndexMap::new()
}

/// Calls `IndexMap::insert`: an existing key keeps its place and takes the
/// new value; a new key is appended.
#[verifier::external_body]
pub fn override_map_insert(m: &mut IndexMap<SurfaceItemId, RuntimeValue>, key: SurfaceItemId, value: RuntimeValue) -> (r: Option<RuntimeValue>)
    ensures
        override_entries(*final(m)) == entries_insert(override_entries(*old(m)), key@, value),
        r is Some <==> has_key(override_entries(*old(m)), key@),
{
    m.insert(key, value)
}

/// Calls `IndexMap::len`: the number of entries.
#[verifier::external_body]
pub fn override_map_len(m: &IndexMap<SurfaceItemId, RuntimeValue>) -> (r: usize)
    ensures
        r == override_entries(*m).len(),
{
    m.len()
}

/// Calls `IndexMap::get_index`: the entry at position `index`.
#[verifier::external_body]
pub fn override_map_get_index<'a>(m: &'a IndexMap<SurfaceItemId, RuntimeValue>, index: usize) -> (r: Option<(&'a SurfaceItemId, &'a RuntimeValue)>)
    ensures
        r is Some <==> index < override_entries(*m).len(),
        r matches Some((k, v)) ==> k@ == override_entries(*m)[index as int].0 && *v == override_entries(*m)[index as int].1,
{
    m.get_index(index)
}

/// The configuration roots of managed nodes, keyed by node identifier.
pub uninterp spec fn config_root_entries(m: IndexMap<u64, StableRef>) -> Seq<(u64, StableRef)>;

/// Calls `IndexMap::new`: an empty map.
#[verifier::external_body]
pub fn config_root_map_new() -> (m: IndexMap<u64, StableRef>)
    ensures
        config_root_entries(m) == Seq::<(u64, StableRef)>::empty(),
{
    IndexMap::new()
}

/// The compiled properties of a formula, keyed by property identifier.
pub uninterp spec fn compiled_property_entries(m: IndexMap<FormulaPropertyId, CompiledFormulaProperty>) -> Seq<(Seq<char>, CompiledFormulaProperty)>;

/// Calls `IndexMap::new`: an empty map.
#[verifier::external_body]
pub fn compiled_property_map_new() -> (m: IndexMap<FormulaPropertyId, CompiledFormulaProperty>)
    ensures
        compiled_property_entries(m) == Seq::<(Seq<char>, CompiledFormulaProperty)>::empty(),
{
    IndexMap::new()
}

/// Calls `IndexMap::insert`: an existing key keeps its place and takes the
/// new value; a new key is appended.
#[verifier::external_body]
pub fn compiled_property_map_insert(m: &mut IndexMap<FormulaPropertyId, CompiledFormulaProperty>, key: FormulaPropertyId, value: CompiledFormulaProperty) -> (r: Option<CompiledFormulaProperty>)
    ensures
        compiled_property_entries(*final(m)) == entries_insert(compiled_property_entries(*old(m)), key@, value),
        r is Some <==> has_key(compiled_property_entries(*old(m)), key@),
{
    m.insert(key, value)
}

/// Calls `IndexMap::get`: the value stored under `key`, if any.
#[verifier::external_body]
pub fn compiled_property_map_get<'a>(m: &'a IndexMap<FormulaPropertyId, CompiledFormulaProperty>, key: &FormulaPropertyId) -> (r: Option<&'a CompiledFormulaProperty>)
    ensures
        r is Some <==> has_key(compiled_property_entries(*m), key@),
        r matches Some(v) ==> *v == value_of(compiled_property_entries(*m), key@),
{
    m.get(key)
}

/// Calls `IndexMap::len`: the number of entries.
#[verifier::external_body]
pub fn compiled_property_map_len(m: &IndexMap<FormulaPropertyId, CompiledFormulaProperty>) -> (r: usize)
    ensures
        r == compiled_property_entries(*m).len(),
{
    m.len()
}

/// Calls `IndexMap::get_index`: the entry at position `index`.
#[verifier::external_body]
pub fn compiled_property_map_get_index<'a>(m: &'a IndexMap<FormulaPropertyId, CompiledFormulaProperty>, index: usize) -> (r: Option<(&'a FormulaPropertyId, &'a CompiledFormulaProperty)>)
    ensures
        r is Some <==> index < compiled_property_entries(*m).len(),
        r matches Some((k, v)) ==> k@ == compiled_property_entries(*m)[index as int].0 && *v == compiled_property_entries(*m)[index as int].1,
{
    m.get_index(index)
}

/// The resolved sockets of a node, keyed by socket identifier.
pub uninterp spec fn resolved_socket_entries(m: IndexMap<SocketId, ResolvedSocket>) -> Seq<(Seq<char>, ResolvedSocket)>;

/// Calls `IndexMap::new`: an empty map.
#[verifier::external_body]
pub fn resolved_socket_map_new() -> (m: IndexMap<SocketId, ResolvedSocket>)
    ensures
        resolved_socket_entries(m) == Seq::<(Seq<char>, ResolvedSocket)>::empty(),
{
    IndexMap::new()
}

/// Calls `IndexMap::insert`: an existing key keeps its place and takes the
/// new value; a new key is appended.
#[verifier::external_body]
pub fn resolved_socket_map_insert(m: &mut IndexMap<SocketId, ResolvedSocket>, key: SocketId, value: ResolvedSocket) -> (r: Option<ResolvedSocket>)
    ensures
        resolved_socket_entries(*final(m)) == entries_insert(resolved_socket_entries(*old(m)), key@, value),
        r is Some <==> has_key(resolved_socket_entries(*old(m)), key@),
{
    m.insert(key, value)
}

/// Calls `IndexMap::get`: the value stored under `key`, if any.
#[verifier::external_body]
pub fn resolved_socket_map_get<'a>(m: &'a IndexMap<SocketId, ResolvedSocket>, key: &SocketId) -> (r: Option<&'a ResolvedSocket>)
    ensures
        r is Some <==> has_key(resolved_socket_entries(*m), key@),
        r matches Some(v) ==> *v == value_of(resolved_socket_entries(*m), key@),
{
    m.get(key)
}

/// Calls `IndexMap::len`: the number of entries.
#[verifier::external_body]
pub fn resolved_socket_map_len(m: &IndexMap<SocketId, ResolvedSocket>) -> (r: usize)
    ensures
        r == resolved_socket_entries(*m).len(),
{
    m.len()
}

/// Calls `IndexMap::get_index`: the entry at position `index`.
#[verifier::external_body]
pub fn resolved_socket_map_get_index<'a>(m: &'a IndexMap<SocketId, ResolvedSocket>, index: usize) -> (r: Option<(&'a SocketId, &'a ResolvedSocket)>)
    ensures
        r is Some <==> index < resolved_socket_entries(*m).len(),
        r matches Some((k, v)) ==> k@ == resolved_socket_entries(*m)[index as int].0 && *v == resolved_socket_entries(*m)[index as int].1,
{
    m.get_index(index)
}

/// The solved nodes of a graph, keyed by node identifier.
pub uninterp spec fn resolved_node_entries(m: IndexMap<u64, ResolvedANode>) -> Seq<(u64, ResolvedANode)>;

/// Calls `IndexMap::new`: an empty map.
#[verifier::external_body]
pub fn resolved_node_map_new() -> (m: IndexMap<u64, ResolvedANode>)
    ensures
        resolved_node_entries(m) == Seq::<(u64, ResolvedANode)>::empty(),
{
    IndexMap::new()
}

/// Calls `IndexMap::insert`: an existing key keeps its place and takes the
/// new value; a new key is appended.
#[verifier::external_body]
pub fn resolved_node_map_insert(m: &mut IndexMap<u64, ResolvedANode>, key: u64, value: ResolvedANode) -> (r: Option<ResolvedANode>)
    ensures
        resolved_node_entries(*final(m)) == entries_insert(resolved_node_entries(*old(m)), key, value),
        r is Some <==> has_key(resolved_node_entries(*old(m)), key),
{
    m.insert(key, value)
}

/// Calls `IndexMap::get`: the value stored under `key`, if any.
#[verifier::external_body]
pub fn resolved_node_map_get<'a>(m: &'a IndexMap<u64, ResolvedANode>, key: &u64) -> (r: Option<&'a ResolvedANode>)
    ensures
        r is Some <==> has_key(resolved_node_entries(*m), *key),
        r matches Some(v) ==> *v == value_of(resolved_node_entries(*m), *key),
{
    m.get(key)
}

/// Calls `IndexMap::len`: the number of entries.
#[verifier::external_body]
pub fn resolved_node_map_len(m: &IndexMap<u64, ResolvedANode>) -> (r: usize)
    ensures
        r == resolved_node_entries(*m).len(),
{
    m.len()
}

/// Calls `IndexMap::get_index`: the entry at position `index`.
#[verifier::external_body]
pub fn resolved_node_map_get_index<'a>(m: &'a IndexMap<u64, ResolvedANode>, index: usize) -> (r: Option<(&'a u64, &'a ResolvedANode)>)
    ensures
        r is Some <==> index < resolved_node_entries(*m).len(),
        r matches Some((k, v)) ==> *k == resolved_node_entries(*m)[index as int].0 && *v == resolved_node_entries(*m)[index as int].1,
{
    m.get_index(index)
}

/// Values given to formula properties, keyed by property identifier.
pub uninterp spec fn property_value_entries(m: IndexMap<FormulaPropertyId, RuntimeValue>) -> Seq<(Seq<char>, RuntimeValue)>;

/// Calls `IndexMap::len`: the number of entries.
#[verifier::external_body]
pub fn property_value_map_len(m: &IndexMap<FormulaPropertyId, RuntimeValue>) -> (r: usize)
    ensures
        r == property_value_entries(*m).len(),
{
    m.len()
}

/// Calls `IndexMap::get_index`: the entry at position `index`.
#[verifier::external_body]
pub fn property_value_map_get_index<'a>(m: &'a IndexMap<FormulaPropertyId, RuntimeValue>, index: usize) -> (r: Option<(&'a FormulaPropertyId, &'a RuntimeValue)>)
    ensures
        r is Some <==> index < property_value_entries(*m).len(),
        r matches Some((k, v)) ==> k@ == property_value_entries(*m)[index as int].0 && *v == property_value_entries(*m)[index as int].1,
{
    m.get_index(index)
}

} // verus!
