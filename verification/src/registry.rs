//! Registries of value types and facets: what types exist, how they are
//! stored, their default values and which conversions happen automatically.
use indexmap::IndexMap;
use vstd::prelude::*;

use crate::ids::ANodeTypeId;
use crate::indexmap_specs::{
    facet_entries, facet_map_contains, facet_map_get, facet_map_insert, facet_map_new, vtype_entries,
    vtype_map_contains, vtype_map_get, vtype_map_get_index, vtype_map_insert, vtype_map_len, vtype_map_new,
};
use crate::ordered::{has_key, value_of};
use crate::text::concat3;
use crate::value::{
    same_value, ColorValue, DurationValue, FacetId, RuntimeValue, TriggerValue, ValueStorageKind, ValueTypeId,
    F32_ONE_BITS,
};

verus! {

/// How faithfully an automatic conversion keeps a value.
#[derive(Clone, Copy, Debug, PartialEq, Eq, Structural)]
pub enum ConversionKind {
    NonLossy,
    Lossy,
    ScalarBroadcast,
}

/// An automatic conversion to `target`.
#[derive(Debug, PartialEq, Eq)]
pub struct ConversionRule {
    pub target: ValueTypeId,
    pub kind: ConversionKind,
}

impl Clone for ConversionRule {
    fn clone(&self) -> (r: Self)
        ensures
            r == *self,
    {
        ConversionRule { target: self.target.clone(), kind: self.kind }
    }
}

/// Hints for how editors show values of a type.
#[derive(Clone, Debug, Default, PartialEq, Eq)]
pub struct ValueTypeUiDescriptor {
    pub editor: Option<String>,
    pub icon: Option<String>,
    pub color: Option<String>,
}

/// Everything the registry knows of a value type. Its default value is held
/// as a value; a fresh copy is handed out on each request.
#[derive(Debug)]
pub struct ValueTypeDescriptor {
    pub id: ValueTypeId,
    pub label: String,
    pub storage: ValueStorageKind,
    pub facets: Vec<FacetId>,
    pub conversions: Vec<ConversionRule>,
    pub default_value: RuntimeValue,
    pub ui: ValueTypeUiDescriptor,
}

/// The targets and kinds of a list of conversion rules.
pub open spec fn conversions_view(rules: Seq<ConversionRule>) -> Seq<(Seq<char>, ConversionKind)> {
    rules.map_values(|r: ConversionRule| (r.target@, r.kind))
}

impl ValueTypeDescriptor {
    /// A descriptor with no facets, no conversions and no editor hints.
    pub fn new(id: ValueTypeId, label: &str, storage: ValueStorageKind, default_value: RuntimeValue) -> (d: Self)
        ensures
            d.id == id,
            d.label@ == label@,
            d.storage == storage,
            d.facets@.len() == 0,
            d.conversions@.len() == 0,
            d.default_value == default_value,
            d.ui == (ValueTypeUiDescriptor { editor: None, icon: None, color: None }),
    {
        ValueTypeDescriptor {
            id,
            label: label.to_owned(),
            storage,
            facets: Vec::new(),
            conversions: Vec::new(),
            default_value,
            ui: ValueTypeUiDescriptor { editor: None, icon: None, color: None },
        }
    }

    /// The descriptor with `facets` added after its own.
    pub fn with_facets(self, facets: Vec<FacetId>) -> (d: Self)
        ensures
            d.facets@ == self.facets@ + facets@,
            d.id == self.id && d.label == self.label && d.storage == self.storage,
            d.conversions@ == self.conversions@,
            d.default_value == self.default_value && d.ui == self.ui,
    {
        let mut d = self;
        let mut facets = facets;
        d.facets.append(&mut facets);
        d
    }

    /// The descriptor with an automatic conversion to `target` added last.
    pub fn with_conversion(self, target: ValueTypeId, kind: ConversionKind) -> (d: Self)
        ensures
            d.conversions@ == self.conversions@.push(ConversionRule { target, kind }),
            d.id == self.id && d.label == self.label && d.storage == self.storage,
            d.facets@ == self.facets@,
            d.default_value == self.default_value && d.ui == self.ui,
    {
        let mut d = self;
        d.conversions.push(ConversionRule { target, kind });
        d
    }
}

/// A facet that value types may declare.
#[derive(Debug, PartialEq, Eq)]
pub struct FacetDescriptor {
    pub id: FacetId,
    pub label: String,
}

/// Why a registration was refused.
#[derive(Debug, PartialEq, Eq)]
pub enum RegistryError {
    DuplicateValueType(ValueTypeId),
    DuplicateFacet(FacetId),
    DuplicateANode(ANodeTypeId),
}

impl RegistryError {
    /// A sentence that says what went wrong.
    pub fn message(&self) -> (r: String)
        ensures
            match self {
                RegistryError::DuplicateValueType(id) => r@ == "value type `"@ + id@ + "` is already registered"@,
                RegistryError::DuplicateFacet(id) => r@ == "facet `"@ + id.0@ + "` is already registered"@,
                RegistryError::DuplicateANode(id) => r@ == "ANode type `"@ + id@ + "` is already registered"@,
            },
    {
        match self {
            RegistryError::DuplicateValueType(id) => concat3("value type `", id.as_str(), "` is already registered"),
            RegistryError::DuplicateFacet(id) => concat3("facet `", id.0.as_str(), "` is already registered"),
            RegistryError::DuplicateANode(id) => concat3("ANode type `", id.as_str(), "` is already registered"),
        }
    }
}

/// Whether descriptor `d` is the primitive value type at position `i` of
/// [`primitive_type_names`]: its identifier, label, storage, default value
/// and conversions are those of the table, and it has no facets. The
/// default `string` is the empty string.
pub open spec fn is_primitive_descriptor(d: ValueTypeDescriptor, i: int) -> bool {
    let (label, storage, default_value, conversions) = primitive_spec(i);
    &&& d.id@ == primitive_type_names()[i]
    &&& d.label@ == label
    &&& d.storage == storage
    &&& d.facets@.len() == 0
    &&& conversions_view(d.conversions@) == conversions
    &&& if i == 5 {
        d.default_value matches RuntimeValue::String(s) && s@.len() == 0
    } else {
        d.default_value == default_value
    }
}

/// The identifiers of the primitive value types, in registration order.
pub open spec fn primitive_type_names() -> Seq<Seq<char>> {
    seq!["unit"@, "bool"@, "trigger"@, "int"@, "float"@, "string"@, "vec2"@, "vec3"@, "color"@, "duration"@]
}

/// The label, storage, default value (for `string`, see
/// [`is_primitive_descriptor`]) and automatic conversions of the
/// primitive value type at position `i` of [`primitive_type_names`].
pub open spec fn primitive_spec(i: int) -> (Seq<char>, ValueStorageKind, RuntimeValue, Seq<(Seq<char>, ConversionKind)>) {
    if i == 0 {
        ("Unit"@, ValueStorageKind::Unit, RuntimeValue::Unit, seq![("bool"@, ConversionKind::NonLossy), ("int"@, ConversionKind::NonLossy), ("float"@, ConversionKind::NonLossy), ("string"@, ConversionKind::NonLossy), ("vec2"@, ConversionKind::ScalarBroadcast), ("vec3"@, ConversionKind::ScalarBroadcast), ("color"@, ConversionKind::ScalarBroadcast), ("duration"@, ConversionKind::NonLossy)])
    } else if i == 1 {
        ("Boolean"@, ValueStorageKind::InlineBool, RuntimeValue::Bool(false), seq![("unit"@, ConversionKind::Lossy), ("int"@, ConversionKind::NonLossy), ("float"@, ConversionKind::NonLossy), ("string"@, ConversionKind::NonLossy), ("vec2"@, ConversionKind::ScalarBroadcast), ("vec3"@, ConversionKind::ScalarBroadcast), ("color"@, ConversionKind::ScalarBroadcast), ("duration"@, ConversionKind::Lossy)])
    } else if i == 2 {
        ("Trigger"@, ValueStorageKind::Trigger, RuntimeValue::Trigger(TriggerValue { fired: false, edge_id: 0, logical_tick: 0 }), seq![("unit"@, ConversionKind::Lossy), ("bool"@, ConversionKind::NonLossy), ("int"@, ConversionKind::NonLossy), ("float"@, ConversionKind::NonLossy), ("string"@, ConversionKind::NonLossy), ("vec2"@, ConversionKind::ScalarBroadcast), ("vec3"@, ConversionKind::ScalarBroadcast), ("color"@, ConversionKind::ScalarBroadcast), ("duration"@, ConversionKind::Lossy)])
    } else if i == 3 {
        ("Integer"@, ValueStorageKind::InlineI64, RuntimeValue::Int(0), seq![("unit"@, ConversionKind::Lossy), ("bool"@, ConversionKind::Lossy), ("float"@, ConversionKind::NonLossy), ("string"@, ConversionKind::NonLossy), ("vec2"@, ConversionKind::ScalarBroadcast), ("vec3"@, ConversionKind::ScalarBroadcast), ("color"@, ConversionKind::ScalarBroadcast), ("duration"@, ConversionKind::Lossy)])
    } else if i == 4 {
        ("Float"@, ValueStorageKind::InlineF64, RuntimeValue::Float(0), seq![("unit"@, ConversionKind::Lossy), ("bool"@, ConversionKind::Lossy), ("int"@, ConversionKind::Lossy), ("string"@, ConversionKind::NonLossy), ("vec2"@, ConversionKind::ScalarBroadcast), ("vec3"@, ConversionKind::ScalarBroadcast), ("color"@, ConversionKind::ScalarBroadcast), ("duration"@, ConversionKind::Lossy)])
    } else if i == 5 {
        ("String"@, ValueStorageKind::SharedString, RuntimeValue::Unit, seq![("unit"@, ConversionKind::Lossy), ("bool"@, ConversionKind::Lossy), ("int"@, ConversionKind::Lossy), ("float"@, ConversionKind::Lossy), ("vec2"@, ConversionKind::Lossy), ("vec3"@, ConversionKind::Lossy), ("color"@, ConversionKind::Lossy), ("duration"@, ConversionKind::Lossy)])
    } else if i == 6 {
        ("Vector 2"@, ValueStorageKind::InlineVec2, RuntimeValue::Vec2([0u64, 0u64]), seq![("unit"@, ConversionKind::Lossy), ("bool"@, ConversionKind::Lossy), ("int"@, ConversionKind::Lossy), ("float"@, ConversionKind::Lossy), ("string"@, ConversionKind::NonLossy), ("vec3"@, ConversionKind::NonLossy), ("color"@, ConversionKind::NonLossy), ("duration"@, ConversionKind::Lossy)])
    } else if i == 7 {
        ("Vector 3"@, ValueStorageKind::InlineVec3, RuntimeValue::Vec3([0u64, 0u64, 0u64]), seq![("unit"@, ConversionKind::Lossy), ("bool"@, ConversionKind::Lossy), ("int"@, ConversionKind::Lossy), ("float"@, ConversionKind::Lossy), ("string"@, ConversionKind::NonLossy), ("vec2"@, ConversionKind::Lossy), ("color"@, ConversionKind::NonLossy), ("duration"@, ConversionKind::Lossy)])
    } else if i == 8 {
        ("Color"@, ValueStorageKind::InlineColor, RuntimeValue::Color(ColorValue { red: 0, green: 0, blue: 0, alpha: F32_ONE_BITS }), seq![("unit"@, ConversionKind::Lossy), ("bool"@, ConversionKind::Lossy), ("int"@, ConversionKind::Lossy), ("float"@, ConversionKind::Lossy), ("string"@, ConversionKind::NonLossy), ("vec2"@, ConversionKind::Lossy), ("vec3"@, ConversionKind::Lossy), ("duration"@, ConversionKind::Lossy)])
    } else if i == 9 {
        ("Duration"@, ValueStorageKind::Duration, RuntimeValue::Duration(DurationValue { secs: 0, nanos: 0 }), seq![("unit"@, ConversionKind::Lossy), ("bool"@, ConversionKind::Lossy), ("int"@, ConversionKind::Lossy), ("float"@, ConversionKind::NonLossy), ("string"@, ConversionKind::NonLossy), ("vec2"@, ConversionKind::ScalarBroadcast), ("vec3"@, ConversionKind::ScalarBroadcast), ("color"@, ConversionKind::ScalarBroadcast)])
    } else {
        (Seq::empty(), ValueStorageKind::Unit, RuntimeValue::Unit, Seq::empty())
    }
}

/// The descriptors of the primitive value types, in registration order.
fn primitive_descriptors() -> (v: Vec<ValueTypeDescriptor>)
    ensures
        v@.len() == primitive_type_names().len(),
        forall|i: int| 0 <= i < v@.len() ==> is_primitive_descriptor(#[trigger] v@[i], i),
{
    let mut v: Vec<ValueTypeDescriptor> = Vec::new();
    let d0 = ValueTypeDescriptor::new(ValueTypeId::new("unit"), "Unit", ValueStorageKind::Unit, RuntimeValue::Unit)
        .with_conversion(ValueTypeId::new("bool"), ConversionKind::NonLossy)
        .with_conversion(ValueTypeId::new("int"), ConversionKind::NonLossy)
        .with_conversion(ValueTypeId::new("float"), ConversionKind::NonLossy)
        .with_conversion(ValueTypeId::new("string"), ConversionKind::NonLossy)
        .with_conversion(ValueTypeId::new("vec2"), ConversionKind::ScalarBroadcast)
        .with_conversion(ValueTypeId::new("vec3"), ConversionKind::ScalarBroadcast)
        .with_conversion(ValueTypeId::new("color"), ConversionKind::ScalarBroadcast)
        .with_conversion(ValueTypeId::new("duration"), ConversionKind::NonLossy);
    proof {
        assert(conversions_view(d0.conversions@) =~= primitive_spec(0).3);
    }
    v.push(d0);
    let d1 = ValueTypeDescriptor::new(ValueTypeId::new("bool"), "Boolean", ValueStorageKind::InlineBool, RuntimeValue::Bool(false))
        .with_conversion(ValueTypeId::new("unit"), ConversionKind::Lossy)
        .with_conversion(ValueTypeId::new("int"), ConversionKind::NonLossy)
        .with_conversion(ValueTypeId::new("float"), ConversionKind::NonLossy)
        .with_conversion(ValueTypeId::new("string"), ConversionKind::NonLossy)
        .with_conversion(ValueTypeId::new("vec2"), ConversionKind::ScalarBroadcast)
        .with_conversion(ValueTypeId::new("vec3"), ConversionKind::ScalarBroadcast)
        .with_conversion(ValueTypeId::new("color"), ConversionKind::ScalarBroadcast)
        .with_conversion(ValueTypeId::new("duration"), ConversionKind::Lossy);
    proof {
        assert(conversions_view(d1.conversions@) =~= primitive_spec(1).3);
    }
    v.push(d1);
    let d2 = ValueTypeDescriptor::new(ValueTypeId::new("trigger"), "Trigger", ValueStorageKind::Trigger, RuntimeValue::Trigger(TriggerValue { fired: false, edge_id: 0, logical_tick: 0 }))
        .with_conversion(ValueTypeId::new("unit"), ConversionKind::Lossy)
        .with_conversion(ValueTypeId::new("bool"), ConversionKind::NonLossy)
        .with_conversion(ValueTypeId::new("int"), ConversionKind::NonLossy)
        .with_conversion(ValueTypeId::new("float"), ConversionKind::NonLossy)
        .with_conversion(ValueTypeId::new("string"), ConversionKind::NonLossy)
        .with_conversion(ValueTypeId::new("vec2"), ConversionKind::ScalarBroadcast)
        .with_conversion(ValueTypeId::new("vec3"), ConversionKind::ScalarBroadcast)
        .with_conversion(ValueTypeId::new("color"), ConversionKind::ScalarBroadcast)
        .with_conversion(ValueTypeId::new("duration"), ConversionKind::Lossy);
    proof {
        assert(conversions_view(d2.conversions@) =~= primitive_spec(2).3);
    }
    v.push(d2);
    let d3 = ValueTypeDescriptor::new(ValueTypeId::new("int"), "Integer", ValueStorageKind::InlineI64, RuntimeValue::Int(0))
        .with_conversion(ValueTypeId::new("unit"), ConversionKind::Lossy)
        .with_conversion(ValueTypeId::new("bool"), ConversionKind::Lossy)
        .with_conversion(ValueTypeId::new("float"), ConversionKind::NonLossy)
        .with_conversion(ValueTypeId::new("string"), ConversionKind::NonLossy)
        .with_conversion(ValueTypeId::new("vec2"), ConversionKind::ScalarBroadcast)
        .with_conversion(ValueTypeId::new("vec3"), ConversionKind::ScalarBroadcast)
        .with_conversion(ValueTypeId::new("color"), ConversionKind::ScalarBroadcast)
        .with_conversion(ValueTypeId::new("duration"), ConversionKind::Lossy);
    proof {
        assert(conversions_view(d3.conversions@) =~= primitive_spec(3).3);
    }
    v.push(d3);
    let d4 = ValueTypeDescriptor::new(ValueTypeId::new("float"), "Float", ValueStorageKind::InlineF64, RuntimeValue::Float(0))
        .with_conversion(ValueTypeId::new("unit"), ConversionKind::Lossy)
        .with_conversion(ValueTypeId::new("bool"), ConversionKind::Lossy)
        .with_conversion(ValueTypeId::new("int"), ConversionKind::Lossy)
        .with_conversion(ValueTypeId::new("string"), ConversionKind::NonLossy)
        .with_conversion(ValueTypeId::new("vec2"), ConversionKind::ScalarBroadcast)
        .with_conversion(ValueTypeId::new("vec3"), ConversionKind::ScalarBroadcast)
        .with_conversion(ValueTypeId::new("color"), ConversionKind::ScalarBroadcast)
        .with_conversion(ValueTypeId::new("duration"), ConversionKind::Lossy);
    proof {
        assert(conversions_view(d4.conversions@) =~= primitive_spec(4).3);
    }
    v.push(d4);
    let d5 = ValueTypeDescriptor::new(ValueTypeId::new("string"), "String", ValueStorageKind::SharedString, RuntimeValue::String(String::new()))
        .with_conversion(ValueTypeId::new("unit"), ConversionKind::Lossy)
        .with_conversion(ValueTypeId::new("bool"), ConversionKind::Lossy)
        .with_conversion(ValueTypeId::new("int"), ConversionKind::Lossy)
        .with_conversion(ValueTypeId::new("float"), ConversionKind::Lossy)
        .with_conversion(ValueTypeId::new("vec2"), ConversionKind::Lossy)
        .with_conversion(ValueTypeId::new("vec3"), ConversionKind::Lossy)
        .with_conversion(ValueTypeId::new("color"), ConversionKind::Lossy)
        .with_conversion(ValueTypeId::new("duration"), ConversionKind::Lossy);
    proof {
        assert(conversions_view(d5.conversions@) =~= primitive_spec(5).3);
    }
    v.push(d5);
    let d6 = ValueTypeDescriptor::new(ValueTypeId::new("vec2"), "Vector 2", ValueStorageKind::InlineVec2, RuntimeValue::Vec2([0u64, 0u64]))
        .with_conversion(ValueTypeId::new("unit"), ConversionKind::Lossy)
        .with_conversion(ValueTypeId::new("bool"), ConversionKind::Lossy)
        .with_conversion(ValueTypeId::new("int"), ConversionKind::Lossy)
        .with_conversion(ValueTypeId::new("float"), ConversionKind::Lossy)
        .with_conversion(ValueTypeId::new("string"), ConversionKind::NonLossy)
        .with_conversion(ValueTypeId::new("vec3"), ConversionKind::NonLossy)
        .with_conversion(ValueTypeId::new("color"), ConversionKind::NonLossy)
        .with_conversion(ValueTypeId::new("duration"), ConversionKind::Lossy);
    proof {
        assert(conversions_view(d6.conversions@) =~= primitive_spec(6).3);
    }
    v.push(d6);
    let d7 = ValueTypeDescriptor::new(ValueTypeId::new("vec3"), "Vector 3", ValueStorageKind::InlineVec3, RuntimeValue::Vec3([0u64, 0u64, 0u64]))
        .with_conversion(ValueTypeId::new("unit"), ConversionKind::Lossy)
        .with_conversion(ValueTypeId::new("bool"), ConversionKind::Lossy)
        .with_conversion(ValueTypeId::new("int"), ConversionKind::Lossy)
        .with_conversion(ValueTypeId::new("float"), ConversionKind::Lossy)
        .with_conversion(ValueTypeId::new("string"), ConversionKind::NonLossy)
        .with_conversion(ValueTypeId::new("vec2"), ConversionKind::Lossy)
        .with_conversion(ValueTypeId::new("color"), ConversionKind::NonLossy)
        .with_conversion(ValueTypeId::new("duration"), ConversionKind::Lossy);
    proof {
        assert(conversions_view(d7.conversions@) =~= primitive_spec(7).3);
    }
    v.push(d7);
    let d8 = ValueTypeDescriptor::new(ValueTypeId::new("color"), "Color", ValueStorageKind::InlineColor, RuntimeValue::Color(ColorValue { red: 0, green: 0, blue: 0, alpha: F32_ONE_BITS }))
        .with_conversion(ValueTypeId::new("unit"), ConversionKind::Lossy)
        .with_conversion(ValueTypeId::new("bool"), ConversionKind::Lossy)
        .with_conversion(ValueTypeId::new("int"), ConversionKind::Lossy)
        .with_conversion(ValueTypeId::new("float"), ConversionKind::Lossy)
        .with_conversion(ValueTypeId::new("string"), ConversionKind::NonLossy)
        .with_conversion(ValueTypeId::new("vec2"), ConversionKind::Lossy)
        .with_conversion(ValueTypeId::new("vec3"), ConversionKind::Lossy)
        .with_conversion(ValueTypeId::new("duration"), ConversionKind::Lossy);
    proof {
        assert(conversions_view(d8.conversions@) =~= primitive_spec(8).3);
    }
    v.push(d8);
    let d9 = ValueTypeDescriptor::new(ValueTypeId::new("duration"), "Duration", ValueStorageKind::Duration, RuntimeValue::Duration(DurationValue { secs: 0, nanos: 0 }))
        .with_conversion(ValueTypeId::new("unit"), ConversionKind::Lossy)
        .with_conversion(ValueTypeId::new("bool"), ConversionKind::Lossy)
        .with_conversion(ValueTypeId::new("int"), ConversionKind::Lossy)
        .with_conversion(ValueTypeId::new("float"), ConversionKind::NonLossy)
        .with_conversion(ValueTypeId::new("string"), ConversionKind::NonLossy)
        .with_conversion(ValueTypeId::new("vec2"), ConversionKind::ScalarBroadcast)
        .with_conversion(ValueTypeId::new("vec3"), ConversionKind::ScalarBroadcast)
        .with_conversion(ValueTypeId::new("color"), ConversionKind::ScalarBroadcast);
    proof {
        assert(conversions_view(d9.conversions@) =~= primitive_spec(9).3);
    }
    v.push(d9);
    proof {
        assert forall|i: int| 0 <= i < v@.len() implies is_primitive_descriptor(#[trigger] v@[i], i) by {
            if i == 0 {
                assert(v@[0] == d0);
            } else if i == 1 {
                assert(v@[1] == d1);
            } else if i == 2 {
                assert(v@[2] == d2);
            } else if i == 3 {
                assert(v@[3] == d3);
            } else if i == 4 {
                assert(v@[4] == d4);
            } else if i == 5 {
                assert(v@[5] == d5);
            } else if i == 6 {
                assert(v@[6] == d6);
            } else if i == 7 {
                assert(v@[7] == d7);
            } else if i == 8 {
                assert(v@[8] == d8);
            } else if i == 9 {
                assert(v@[9] == d9);
            }
        }
    }
    v
}

/// Whether `entry` is the registry entry of the primitive value type at
/// position `i`: keyed by its identifier, with its descriptor.
pub open spec fn is_primitive_entry(entry: (Seq<char>, ValueTypeDescriptor), i: int) -> bool {
    entry.0 == primitive_type_names()[i] && is_primitive_descriptor(entry.1, i)
}

/// The registry of value types, in registration order.
#[derive(Debug)]
pub struct ValueTypeRegistry {
    descriptors: IndexMap<ValueTypeId, ValueTypeDescriptor>,
}

/// Whether the descriptor of `from` among `entries` declares an automatic
/// conversion to `to`; every type converts to itself.
pub open spec fn converts(entries: Seq<(Seq<char>, ValueTypeDescriptor)>, from: Seq<char>, to: Seq<char>) -> bool {
    from == to || (has_key(entries, from) && exists|i: int|
        0 <= i < value_of(entries, from).conversions@.len() && #[trigger] value_of(entries, from).conversions@[i].target@
            == to)
}

/// Whether the descriptor of `value_type` among `entries` declares `facet`.
pub open spec fn has_facet(entries: Seq<(Seq<char>, ValueTypeDescriptor)>, value_type: Seq<char>, facet: Seq<char>) -> bool {
    has_key(entries, value_type) && exists|i: int|
        0 <= i < value_of(entries, value_type).facets@.len() && #[trigger] value_of(entries, value_type).facets@[i]@
            == facet
}

impl ValueTypeRegistry {
    /// The descriptors, keyed by type identifier, in registration order.
    pub closed spec fn entries(&self) -> Seq<(Seq<char>, ValueTypeDescriptor)> {
        vtype_entries(self.descriptors)
    }

    /// An empty registry.
    pub fn new() -> (r: Self)
        ensures
            r.entries().len() == 0,
    {
        ValueTypeRegistry { descriptors: vtype_map_new() }
    }

    /// The registry of the primitive value types: `unit`, `bool`, `trigger`,
    /// `int`, `float`, `string`, `vec2`, `vec3`, `color` and `duration`.
    pub fn with_primitives() -> (r: Self)
        ensures
            r.entries().len() == primitive_type_names().len(),
            forall|i: int| 0 <= i < r.entries().len() ==> is_primitive_entry(#[trigger] r.entries()[i], i),
    {
        let mut remaining = primitive_descriptors();
        let ghost all = remaining@;
        let mut registry = ValueTypeRegistry::new();
        proof {
            lemma_primitive_names_distinct();
        }
        let mut k: usize = 0;
        while remaining.len() > 0
            invariant
                k + remaining@.len() == primitive_type_names().len(),
                all.len() == primitive_type_names().len(),
                remaining@ == all.subrange(k as int, all.len() as int),
                forall|i: int| 0 <= i < all.len() ==> is_primitive_descriptor(#[trigger] all[i], i),
                forall|i: int, j: int|
                    0 <= i < primitive_type_names().len() && 0 <= j < primitive_type_names().len() && i != j
                        ==> primitive_type_names()[i] != primitive_type_names()[j],
                registry.entries().len() == k,
                forall|i: int| 0 <= i < k ==> is_primitive_entry(#[trigger] registry.entries()[i], i),
            decreases remaining@.len(),
        {
            let d = remaining.remove(0);
            let ghost dg = d;
            proof {
                assert(d == all[k as int]);
                assert(is_primitive_descriptor(all[k as int], k as int));
                assert(d.id@ == primitive_type_names()[k as int]);
                if has_key(registry.entries(), d.id@) {
                    let p = choose|p: int| 0 <= p < registry.entries().len() && registry.entries()[p].0 == d.id@;
                    assert(is_primitive_entry(registry.entries()[p], p));
                }
            }
            let ghost before = registry.entries();
            let result = registry.register(d);
            assert(result is Ok);
            proof {
                assert(registry.entries() == before.push((dg.id@, dg)));
                assert(registry.entries()[k as int] == (dg.id@, dg));
                assert(is_primitive_descriptor(dg, k as int));
                assert forall|i: int| 0 <= i < k + 1 implies is_primitive_entry(#[trigger] registry.entries()[i], i) by {
                    if i < k {
                        assert(registry.entries()[i] == before[i]);
                    } else {
                        assert(registry.entries()[i] == (dg.id@, dg));
                    }
                }
            }
            k = k + 1;
            proof {
                assert(remaining@ =~= all.subrange(k as int, all.len() as int));
            }
        }
        registry
    }

    /// Registers `descriptor`, unless its type identifier is registered.
    pub fn register(&mut self, descriptor: ValueTypeDescriptor) -> (r: Result<(), RegistryError>)
        ensures
            r is Err <==> has_key(old(self).entries(), descriptor.id@),
            r matches Err(e) ==> e == RegistryError::DuplicateValueType(descriptor.id) && final(self).entries()
                == old(self).entries(),
            r is Ok ==> final(self).entries() == old(self).entries().push((descriptor.id@, descriptor)),
    {
        if vtype_map_contains(&self.descriptors, &descriptor.id) {
            return Err(RegistryError::DuplicateValueType(descriptor.id));
        }
        let id = descriptor.id.clone();
        vtype_map_insert(&mut self.descriptors, id, descriptor);
        Ok(())
    }

    /// The descriptor of `id`, if registered.
    pub fn get(&self, id: &ValueTypeId) -> (r: Option<&ValueTypeDescriptor>)
        ensures
            r is Some <==> has_key(self.entries(), id@),
            r matches Some(d) ==> *d == value_of(self.entries(), id@),
    {
        vtype_map_get(&self.descriptors, id)
    }

    /// Whether `id` is registered.
    pub fn contains(&self, id: &ValueTypeId) -> (r: bool)
        ensures
            r == has_key(self.entries(), id@),
    {
        vtype_map_contains(&self.descriptors, id)
    }

    /// The number of registered types.
    pub fn len(&self) -> (r: usize)
        ensures
            r == self.entries().len(),
    {
        vtype_map_len(&self.descriptors)
    }

    /// The descriptor registered at position `index`, if any.
    pub fn descriptor_at(&self, index: usize) -> (r: Option<&ValueTypeDescriptor>)
        ensures
            r is Some <==> index < self.entries().len(),
            r matches Some(d) ==> *d == self.entries()[index as int].1,
    {
        match vtype_map_get_index(&self.descriptors, index) {
            Some((_, d)) => Some(d),
            None => None,
        }
    }

    /// Whether `value_type` is registered and declares `facet`.
    pub fn supports_facet(&self, value_type: &ValueTypeId, facet: &FacetId) -> (r: bool)
        ensures
            r == has_facet(self.entries(), value_type@, facet@),
    {
        match self.get(value_type) {
            None => false,
            Some(descriptor) => {
                let mut i: usize = 0;
                while i < descriptor.facets.len()
                    invariant
                        i <= descriptor.facets@.len(),
                        has_key(self.entries(), value_type@),
                        *descriptor == value_of(self.entries(), value_type@),
                        forall|j: int| 0 <= j < i ==> descriptor.facets@[j]@ != facet@,
                    decreases descriptor.facets@.len() - i,
                {
                    if descriptor.facets[i] == *facet {
                        return true;
                    }
                    i = i + 1;
                }
                false
            },
        }
    }

    /// Whether values of `from` convert to `to` without being asked: always
    /// when the types are equal, else when `from` declares a conversion to
    /// `to`.
    pub fn can_convert_automatically(&self, from: &ValueTypeId, to: &ValueTypeId) -> (r: bool)
        ensures
            r == converts(self.entries(), from@, to@),
    {
        if *from == *to {
            return true;
        }
        match self.get(from) {
            None => false,
            Some(descriptor) => {
                let mut i: usize = 0;
                while i < descriptor.conversions.len()
                    invariant
                        i <= descriptor.conversions@.len(),
                        from@ != to@,
                        has_key(self.entries(), from@),
                        *descriptor == value_of(self.entries(), from@),
                        forall|j: int| 0 <= j < i ==> descriptor.conversions@[j].target@ != to@,
                    decreases descriptor.conversions@.len() - i,
                {
                    if descriptor.conversions[i].target == *to {
                        return true;
                    }
                    i = i + 1;
                }
                false
            },
        }
    }

    /// A fresh copy of the default value of `id`, if registered.
    pub fn default_value(&self, id: &ValueTypeId) -> (r: Option<RuntimeValue>)
        ensures
            r is Some <==> has_key(self.entries(), id@),
            r matches Some(v) ==> same_value(v, value_of(self.entries(), id@).default_value),
    {
        match self.get(id) {
            None => None,
            Some(descriptor) => Some(descriptor.default_value.clone()),
        }
    }
}

/// The registry of facets, in registration order.
#[derive(Debug)]
pub struct FacetRegistry {
    descriptors: IndexMap<FacetId, FacetDescriptor>,
}

impl FacetRegistry {
    /// The descriptors, keyed by facet identifier, in registration order.
    pub closed spec fn entries(&self) -> Seq<(Seq<char>, FacetDescriptor)> {
        facet_entries(self.descriptors)
    }

    /// An empty registry.
    pub fn new() -> (r: Self)
        ensures
            r.entries().len() == 0,
    {
        FacetRegistry { descriptors: facet_map_new() }
    }

    /// Registers `descriptor`, unless its facet identifier is registered.
    pub fn register(&mut self, descriptor: FacetDescriptor) -> (r: Result<(), RegistryError>)
        ensures
            r is Err <==> has_key(old(self).entries(), descriptor.id@),
            r matches Err(e) ==> e == RegistryError::DuplicateFacet(descriptor.id) && final(self).entries()
                == old(self).entries(),
            r is Ok ==> final(self).entries() == old(self).entries().push((descriptor.id@, descriptor)),
    {
        if facet_map_contains(&self.descriptors, &descriptor.id) {
            return Err(RegistryError::DuplicateFacet(descriptor.id));
        }
        let id = descriptor.id.clone();
        facet_map_insert(&mut self.descriptors, id, descriptor);
        Ok(())
    }

    /// The descriptor of `id`, if registered.
    pub fn get(&self, id: &FacetId) -> (r: Option<&FacetDescriptor>)
        ensures
            r is Some <==> has_key(self.entries(), id@),
            r matches Some(d) ==> *d == value_of(self.entries(), id@),
    {
        facet_map_get(&self.descriptors, id)
    }
}

/// The primitive value types have distinct identifiers.
pub proof fn lemma_primitive_names_distinct()
    ensures
        forall|i: int, j: int|
            0 <= i < primitive_type_names().len() && 0 <= j < primitive_type_names().len() && i != j
                ==> primitive_type_names()[i] != primitive_type_names()[j],
{
    reveal_strlit("unit");
    reveal_strlit("bool");
    reveal_strlit("trigger");
    reveal_strlit("int");
    reveal_strlit("float");
    reveal_strlit("string");
    reveal_strlit("vec2");
    reveal_strlit("vec3");
    reveal_strlit("color");
    reveal_strlit("duration");
    let names = primitive_type_names();
    assert forall|i: int, j: int| 0 <= i < names.len() && 0 <= j < names.len() && i != j implies names[i]
        != names[j] by {
        if names[i] == names[j] {
            assert(names[i].len() == names[j].len());
            assert(names[i][0] == names[j][0]);
            assert(names[i][names[i].len() - 1] == names[j][names[j].len() - 1]);
        }
    }
}

} // verus!
