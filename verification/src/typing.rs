//! Type variables, their bindings and the constraints on socket types.
use indexmap::IndexMap;
use vstd::prelude::*;

use crate::ids::SocketId;
use crate::indexmap_specs::{
    binding_entries, binding_map_clone, binding_map_get, binding_map_get_index, binding_map_insert,
    binding_map_len, binding_map_new, resolved_socket_entries, resolved_socket_map_new,
};
use crate::ordered::{entries_insert, has_key, value_of};
use crate::registry::{converts, has_facet, ValueTypeDescriptor, ValueTypeRegistry};
use crate::text::{rsplit_once_dot, str_eq};
use crate::value::{component_from_name, FacetId, ValueComponent, ValueTypeId};

verus! {

/// A named type variable of a node signature, such as `TNumeric`.
#[derive(Debug, Eq, Hash)]
pub struct TypeVar(pub String);

impl View for TypeVar {
    type V = Seq<char>;

    open spec fn view(&self) -> Seq<char> {
        self.0@
    }
}

impl TypeVar {
    pub fn new(value: &str) -> (r: Self)
        ensures
            r@ == value@,
    {
        TypeVar(value.to_owned())
    }

    pub fn as_str(&self) -> (r: &str)
        ensures
            r@ == self@,
    {
        self.0.as_str()
    }
}

impl Clone for TypeVar {
    fn clone(&self) -> (r: Self)
        ensures
            r == *self,
    {
        TypeVar(self.0.clone())
    }
}

impl PartialEq for TypeVar {
    fn eq(&self, other: &Self) -> (r: bool) {
        self.0 == other.0
    }
}

impl vstd::std_specs::cmp::PartialEqSpecImpl for TypeVar {
    open spec fn obeys_eq_spec() -> bool {
        true
    }

    open spec fn eq_spec(&self, other: &Self) -> bool {
        self@ == other@
    }
}

/// Where a type binding came from, from weakest to strongest.
#[derive(Clone, Copy, Debug, PartialEq, Eq, PartialOrd, Ord, Structural)]
pub enum TypeBindingSource {
    Default,
    InferredFromConnection,
    ForcedByModel,
    ForcedByUser,
}

/// The strength of a binding source: a stronger source overrides a weaker.
pub open spec fn source_rank(s: TypeBindingSource) -> int {
    match s {
        TypeBindingSource::Default => 0,
        TypeBindingSource::InferredFromConnection => 1,
        TypeBindingSource::ForcedByModel => 2,
        TypeBindingSource::ForcedByUser => 3,
    }
}

impl TypeBindingSource {
    pub fn rank(self) -> (r: u8)
        ensures
            r == source_rank(self),
    {
        match self {
            TypeBindingSource::Default => 0,
            TypeBindingSource::InferredFromConnection => 1,
            TypeBindingSource::ForcedByModel => 2,
            TypeBindingSource::ForcedByUser => 3,
        }
    }
}

/// A type variable's value type and where it came from.
#[derive(Debug, PartialEq, Eq)]
pub struct TypeBinding {
    pub value_type: ValueTypeId,
    pub source: TypeBindingSource,
}

impl Clone for TypeBinding {
    fn clone(&self) -> (r: Self)
        ensures
            r == *self,
    {
        TypeBinding { value_type: self.value_type.clone(), source: self.source }
    }
}

/// Two bindings of one variable from equally strong sources that disagree.
#[derive(Clone, Debug, PartialEq, Eq)]
pub struct TypeBindingConflict {
    pub variable: TypeVar,
    pub existing: TypeBinding,
    pub incoming: TypeBinding,
}

/// The bindings of a node's type variables, in insertion order.
#[derive(Debug, PartialEq)]
pub struct TypeBindings {
    pub values: IndexMap<TypeVar, TypeBinding>,
}

/// The outcome of binding `var` to `value_type` from `source` in `entries`:
/// the new entries and whether they changed, or a conflict (no change).
pub open spec fn bind_spec(
    entries: Seq<(Seq<char>, TypeBinding)>,
    var: Seq<char>,
    value_type: ValueTypeId,
    source: TypeBindingSource,
) -> (Seq<(Seq<char>, TypeBinding)>, Option<bool>) {
    let incoming = TypeBinding { value_type, source };
    if !has_key(entries, var) {
        (entries_insert(entries, var, incoming), Some(true))
    } else {
        let existing = value_of(entries, var);
        if source_rank(source) > source_rank(existing.source) {
            (entries_insert(entries, var, incoming), Some(true))
        } else if existing.value_type@ == value_type@ {
            (entries, Some(false))
        } else if source_rank(source) == source_rank(existing.source) {
            (entries, None)
        } else {
            (entries, Some(false))
        }
    }
}

/// The outcome of binding, in order, the first `k` entries of `other` into
/// `entries`; stops at the first conflict.
pub open spec fn merge_spec(
    entries: Seq<(Seq<char>, TypeBinding)>,
    other: Seq<(Seq<char>, TypeBinding)>,
    k: nat,
) -> (Seq<(Seq<char>, TypeBinding)>, Option<bool>)
    decreases k,
{
    if k == 0 {
        (entries, Some(false))
    } else {
        let (prev, changed) = merge_spec(entries, other, (k - 1) as nat);
        match changed {
            None => (prev, None),
            Some(c) => {
                let (next, r) = bind_spec(prev, other[k - 1].0, other[k - 1].1.value_type, other[k - 1].1.source);
                match r {
                    None => (next, None),
                    Some(c2) => (next, Some(c || c2)),
                }
            },
        }
    }
}

impl TypeBindings {
    /// The bindings, as entries keyed by variable name.
    pub open spec fn entries(&self) -> Seq<(Seq<char>, TypeBinding)> {
        binding_entries(self.values)
    }

    /// No bindings.
    pub fn new() -> (b: Self)
        ensures
            b.entries().len() == 0,
    {
        TypeBindings { values: binding_map_new() }
    }

    /// Sets the binding of `variable`, returning the binding it replaces.
    pub fn insert(&mut self, variable: TypeVar, value_type: ValueTypeId, source: TypeBindingSource) -> (r: Option<
        TypeBinding,
    >)
        ensures
            final(self).entries() == entries_insert(
                old(self).entries(),
                variable@,
                TypeBinding { value_type, source },
            ),
            r is Some <==> has_key(old(self).entries(), variable@),
            r matches Some(b) ==> b == value_of(old(self).entries(), variable@),
    {
        binding_map_insert(&mut self.values, variable, TypeBinding { value_type, source })
    }

    /// Binds `variable` unless a binding from a stronger source exists: a
    /// stronger incoming source replaces the binding, an equally strong one
    /// with another type is a conflict. Returns whether the bindings changed.
    pub fn bind(&mut self, variable: TypeVar, value_type: ValueTypeId, source: TypeBindingSource) -> (r: Result<
        bool,
        TypeBindingConflict,
    >)
        ensures
            (final(self).entries(), match r {
                Ok(changed) => Some(changed),
                Err(_) => None,
            }) == bind_spec(old(self).entries(), variable@, value_type, source),
            r matches Err(conflict) ==> {
                &&& conflict.variable@ == variable@
                &&& conflict.existing == value_of(old(self).entries(), variable@)
                &&& conflict.incoming == (TypeBinding { value_type, source })
            },
    {
        let existing = match binding_map_get(&self.values, &variable) {
            None => {
                binding_map_insert(&mut self.values, variable, TypeBinding { value_type, source });
                return Ok(true);
            },
            Some(existing) => existing.clone(),
        };
        if source.rank() > existing.source.rank() {
            binding_map_insert(&mut self.values, variable, TypeBinding { value_type, source });
            return Ok(true);
        }
        if existing.value_type == value_type {
            return Ok(false);
        }
        if source.rank() == existing.source.rank() {
            return Err(TypeBindingConflict { variable, existing, incoming: TypeBinding { value_type, source } });
        }
        Ok(false)
    }

    /// Binds each binding of `other`, in order; stops at the first conflict.
    /// Returns whether any binding changed.
    pub fn merge_from(&mut self, other: &TypeBindings) -> (r: Result<bool, TypeBindingConflict>)
        ensures
            (final(self).entries(), match r {
                Ok(changed) => Some(changed),
                Err(_) => None,
            }) == merge_spec(old(self).entries(), other.entries(), other.entries().len()),
            r matches Err(conflict) ==> exists|i: int|
                0 <= i < other.entries().len() && (#[trigger] merge_spec(old(self).entries(), other.entries(), i as nat)).1
                    is Some && merge_spec(old(self).entries(), other.entries(), (i + 1) as nat).1 is None
                    && conflict.variable@ == other.entries()[i].0 && conflict.existing == value_of(
                    merge_spec(old(self).entries(), other.entries(), i as nat).0,
                    other.entries()[i].0,
                ) && conflict.incoming == other.entries()[i].1,
    {
        let mut changed = false;
        let count = binding_map_len(&other.values);
        for i in 0..count
            invariant
                count == other.entries().len(),
                merge_spec(old(self).entries(), other.entries(), i as nat) == (self.entries(), Some(changed)),
        {
            let (variable, binding) = binding_map_get_index(&other.values, i).unwrap();
            let ghost before = self.entries();
            let result = self.bind(variable.clone(), binding.value_type.clone(), binding.source);
            match result {
                Ok(c) => {
                    changed = changed || c;
                },
                Err(conflict) => {
                    proof {
                        assert(merge_spec(old(self).entries(), other.entries(), (i + 1) as nat).1 is None);
                        lemma_merge_stops(old(self).entries(), other.entries(), (i + 1) as nat, count as nat);
                        assert(merge_spec(old(self).entries(), other.entries(), i as nat).0 == before);
                        assert(conflict.incoming == other.entries()[i as int].1);
                    }
                    return Err(conflict);
                },
            }
        }
        Ok(changed)
    }

    /// The binding of `variable`, if any.
    pub fn get(&self, variable: &TypeVar) -> (r: Option<&TypeBinding>)
        ensures
            r is Some <==> has_key(self.entries(), variable@),
            r matches Some(b) ==> *b == value_of(self.entries(), variable@),
    {
        binding_map_get(&self.values, variable)
    }

    /// Whether there are no bindings.
    pub fn is_empty(&self) -> (r: bool)
        ensures
            r == (self.entries().len() == 0),
    {
        binding_map_len(&self.values) == 0
    }

    /// The binding at position `index`, with its variable, if any.
    pub fn entry_at(&self, index: usize) -> (r: Option<(&TypeVar, &TypeBinding)>)
        ensures
            r is Some <==> index < self.entries().len(),
            r matches Some((k, v)) ==> k@ == self.entries()[index as int].0 && *v == self.entries()[index as int].1,
    {
        binding_map_get_index(&self.values, index)
    }

    /// A copy with the same bindings in the same order.
    pub fn duplicate(&self) -> (r: Self)
        ensures
            r.entries() == self.entries(),
    {
        TypeBindings { values: binding_map_clone(&self.values) }
    }

    /// The number of bindings.
    pub fn len(&self) -> (r: usize)
        ensures
            r == self.entries().len(),
    {
        binding_map_len(&self.values)
    }
}

/// Once a merge meets a conflict, binding further entries changes nothing.
pub proof fn lemma_merge_stops(
    entries: Seq<(Seq<char>, TypeBinding)>,
    other: Seq<(Seq<char>, TypeBinding)>,
    k: nat,
    n: nat,
)
    requires
        merge_spec(entries, other, k).1 is None,
        k <= n,
    ensures
        merge_spec(entries, other, n) == merge_spec(entries, other, k),
    decreases n - k,
{
    if k < n {
        lemma_merge_stops(entries, other, k, (n - 1) as nat);
    }
}

/// What a socket accepts.
#[derive(Debug, PartialEq, Eq)]
pub enum TypeConstraint {
    /// Any value type.
    Any,
    /// This value type, or one that converts to it automatically.
    Exact(ValueTypeId),
    /// Any registered value type that declares the facet.
    Facet(FacetId),
    /// One of the built-in value types.
    Primitive,
    /// A number, vector or color.
    NumericLike,
    /// The type bound to a type variable of the node.
    Generic(TypeVar),
    /// Any type that one of the constraints accepts.
    OneOf(Vec<TypeConstraint>),
}

/// Whether `t` names one of the built-in value types.
pub open spec fn is_primitive_name(t: Seq<char>) -> bool {
    t == "unit"@ || t == "bool"@ || t == "trigger"@ || t == "int"@ || t == "float"@ || t == "string"@ || t
        == "vec2"@ || t == "vec3"@ || t == "color"@ || t == "duration"@ || t == "value_array"@
}

/// Whether `t` names a number, vector or color type.
pub open spec fn is_numeric_name(t: Seq<char>) -> bool {
    t == "int"@ || t == "float"@ || t == "vec2"@ || t == "vec3"@ || t == "color"@
}

/// Whether constraint `c` accepts value type `t`, given the registry
/// entries `entries`.
pub open spec fn accepts(c: TypeConstraint, t: Seq<char>, entries: Seq<(Seq<char>, ValueTypeDescriptor)>) -> bool
    decreases c, 0nat,
{
    match c {
        TypeConstraint::Any => true,
        TypeConstraint::Exact(expected) => expected@ == t || converts(entries, t, expected@),
        TypeConstraint::Facet(facet) => has_facet(entries, t, facet@),
        TypeConstraint::Primitive => is_primitive_name(t),
        TypeConstraint::NumericLike => is_numeric_name(t),
        TypeConstraint::Generic(_) => true,
        TypeConstraint::OneOf(options) => accepts_any(options@, t, entries, options@.len()),
    }
}

/// Whether one of the first `n` constraints of `options` accepts `t`.
pub open spec fn accepts_any(
    options: Seq<TypeConstraint>,
    t: Seq<char>,
    entries: Seq<(Seq<char>, ValueTypeDescriptor)>,
    n: nat,
) -> bool
    decreases options, n,
{
    if n == 0 || n > options.len() {
        false
    } else {
        accepts_any(options, t, entries, (n - 1) as nat) || accepts(options[n - 1], t, entries)
    }
}

/// Whether `value_type` names one of the built-in value types.
pub fn is_primitive(value_type: &ValueTypeId) -> (r: bool)
    ensures
        r == is_primitive_name(value_type@),
{
    let t = value_type.as_str();
    str_eq(t, "unit") || str_eq(t, "bool") || str_eq(t, "trigger") || str_eq(t, "int") || str_eq(t, "float")
        || str_eq(t, "string") || str_eq(t, "vec2") || str_eq(t, "vec3") || str_eq(t, "color") || str_eq(
        t,
        "duration",
    ) || str_eq(t, "value_array")
}

/// Whether `value_type` names a number, vector or color type.
pub fn is_numeric(value_type: &ValueTypeId) -> (r: bool)
    ensures
        r == is_numeric_name(value_type@),
{
    let t = value_type.as_str();
    str_eq(t, "int") || str_eq(t, "float") || str_eq(t, "vec2") || str_eq(t, "vec3") || str_eq(t, "color")
}

/// Whether `constraint` accepts `value_type` in `registry`.
pub fn constraint_accepts(constraint: &TypeConstraint, value_type: &ValueTypeId, registry: &ValueTypeRegistry) -> (r:
    bool)
    ensures
        r == accepts(*constraint, value_type@, registry.entries()),
    decreases constraint,
{
    match constraint {
        TypeConstraint::Any => true,
        TypeConstraint::Exact(expected) => *expected == *value_type || registry.can_convert_automatically(
            value_type,
            expected,
        ),
        TypeConstraint::Facet(facet) => registry.supports_facet(value_type, facet),
        TypeConstraint::Primitive => is_primitive(value_type),
        TypeConstraint::NumericLike => is_numeric(value_type),
        TypeConstraint::Generic(_) => true,
        TypeConstraint::OneOf(options) => {
            let mut i: usize = 0;
            while i < options.len()
                invariant
                    i <= options@.len(),
                    *constraint == TypeConstraint::OneOf(*options),
                    !accepts_any(options@, value_type@, registry.entries(), i as nat),
                decreases options@.len() - i,
            {
                proof {
                    assert((*constraint)->OneOf_0 == *options);
                    assert(decreases_to!(*constraint => (*constraint)->OneOf_0));
                    assert(decreases_to!(*options => options@));
                    assert(decreases_to!(options@ => options@[i as int]));
                    assert(decreases_to!(*constraint => options@[i as int]));
                }
                if constraint_accepts(&options[i], value_type, registry) {
                    proof {
                        lemma_accepts_any_grows(options@, value_type@, registry.entries(), (i + 1) as nat);
                    }
                    return true;
                }
                i = i + 1;
            }
            false
        },
    }
}

/// Once one of the first `n` options accepts, so does one of the first `m`
/// for every `m` from `n` to the number of options.
pub proof fn lemma_accepts_any_grows(
    options: Seq<TypeConstraint>,
    t: Seq<char>,
    entries: Seq<(Seq<char>, ValueTypeDescriptor)>,
    n: nat,
)
    requires
        accepts_any(options, t, entries, n),
        n <= options.len(),
    ensures
        accepts_any(options, t, entries, options.len()),
    decreases options.len() - n,
{
    if n < options.len() {
        lemma_accepts_any_grows(options, t, entries, n + 1);
    }
}

impl TypeConstraint {
    /// Whether this constraint accepts `value_type` in `registry`.
    pub fn accepts_value_type(&self, value_type: &ValueTypeId, registry: &ValueTypeRegistry) -> (r: bool)
        ensures
            r == accepts(*self, value_type@, registry.entries()),
    {
        constraint_accepts(self, value_type, registry)
    }
}

/// The view of an optional value type.
pub open spec fn opt_type(t: Option<ValueTypeId>) -> Option<Seq<char>> {
    match t {
        Some(v) => Some(v@),
        None => None,
    }
}

/// The type a socket resolves to: the type recorded for the socket if any,
/// else the exact type of the constraint, else the binding of its variable.
pub open spec fn resolve_spec(
    c: TypeConstraint,
    bindings: Seq<(Seq<char>, TypeBinding)>,
    socket_type: Option<Seq<char>>,
) -> Option<Seq<char>> {
    if socket_type is Some {
        socket_type
    } else {
        match c {
            TypeConstraint::Exact(t) => Some(t@),
            TypeConstraint::Generic(v) => if has_key(bindings, v@) {
                Some(value_of(bindings, v@).value_type@)
            } else {
                None
            },
            _ => None,
        }
    }
}

/// The type a socket with `constraint` resolves to under `bindings`, or the
/// type `socket_type` already recorded for it.
pub fn resolve_constraint(
    constraint: &TypeConstraint,
    bindings: &TypeBindings,
    socket_type: Option<&ValueTypeId>,
) -> (r: Option<ValueTypeId>)
    ensures
        opt_type(r) == resolve_spec(*constraint, bindings.entries(), match socket_type {
            Some(t) => Some(t@),
            None => None,
        }),
{
    match socket_type {
        Some(t) => Some(t.clone()),
        None => match constraint {
            TypeConstraint::Exact(t) => Some(t.clone()),
            TypeConstraint::Generic(variable) => match bindings.get(variable) {
                Some(binding) => Some(binding.value_type.clone()),
                None => None,
            },
            _ => None,
        },
    }
}

/// A socket name split at its last `.` when what follows names a component:
/// `value.x` is `(value, X)`; otherwise the whole name and no component.
pub open spec fn split_socket_spec(s: Seq<char>) -> (Seq<char>, Option<ValueComponent>) {
    if exists|i: int| #[trigger] is_last_dot(s, i) {
        let i = choose|i: int| #[trigger] is_last_dot(s, i);
        match component_from_name(s.subrange(i + 1, s.len() as int)) {
            Some(c) => (s.subrange(0, i), Some(c)),
            None => (s, None),
        }
    } else {
        (s, None)
    }
}

/// Whether position `i` of `s` holds its last `.`.
pub open spec fn is_last_dot(s: Seq<char>, i: int) -> bool {
    0 <= i < s.len() && s[i] == '.' && forall|j: int| i < j < s.len() ==> s[j] != '.'
}

/// Splits a socket name into its base and the component it selects.
pub fn split_socket_component(socket: &SocketId) -> (r: (SocketId, Option<ValueComponent>))
    ensures
        (r.0@, r.1) == split_socket_spec(socket@),
{
    match rsplit_once_dot(socket.as_str()) {
        None => (socket.clone(), None),
        Some((base, component)) => {
            let ghost i = base@.len() as int;
            proof {
                let s = socket@;
                assert(s.subrange(0, i) =~= base@);
                assert(s.subrange(i + 1, s.len() as int) =~= component@);
                assert(is_last_dot(s, i)) by {
                    assert(s[i] == '.');
                    assert forall|j: int| i < j < s.len() implies s[j] != '.' by {
                        assert(s[j] == component@[j - i - 1]);
                    }
                }
                let k = choose|k: int| #[trigger] is_last_dot(s, k);
                if k < i {
                    assert(s[i] == '.');
                } else if k > i {
                    assert(s[k] == '.');
                }
            }
            match ValueComponent::parse(component) {
                None => (socket.clone(), None),
                Some(c) => (SocketId::new(base), Some(c)),
            }
        },
    }
}

/// A socket of a node after type solving, with the type it resolved to.
#[derive(Debug, PartialEq, Eq)]
pub struct ResolvedSocket {
    pub id: SocketId,
    pub value_type: Option<ValueTypeId>,
}


/// The sockets of a node after type solving, inputs and outputs each in
/// declaration order.
#[derive(Debug)]
pub struct ResolvedANodeSignature {
    pub inputs: IndexMap<SocketId, ResolvedSocket>,
    pub outputs: IndexMap<SocketId, ResolvedSocket>,
}

impl ResolvedANodeSignature {
    /// The resolved inputs, keyed by socket identifier.
    pub open spec fn input_entries(&self) -> Seq<(Seq<char>, ResolvedSocket)> {
        resolved_socket_entries(self.inputs)
    }

    /// The resolved outputs, keyed by socket identifier.
    pub open spec fn output_entries(&self) -> Seq<(Seq<char>, ResolvedSocket)> {
        resolved_socket_entries(self.outputs)
    }

    /// A signature with no sockets.
    pub fn new() -> (s: Self)
        ensures
            s.input_entries().len() == 0,
            s.output_entries().len() == 0,
    {
        ResolvedANodeSignature { inputs: resolved_socket_map_new(), outputs: resolved_socket_map_new() }
    }
}

} // verus!
