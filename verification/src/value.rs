//! Runtime values, their type identifiers and their components.
//!
//! Floating-point payloads are held as their IEEE-754 bit patterns: a
//! `Float` holds the bits of an `f64`, a color channel the bits of an `f32`.
use vstd::prelude::*;

use crate::text::str_eq;

verus! {

/// Identifier of a value type, such as `float` or an application's own type.
#[derive(Debug, Eq, Hash)]
pub struct ValueTypeId(pub String);

impl View for ValueTypeId {
    type V = Seq<char>;

    open spec fn view(&self) -> Seq<char> {
        self.0@
    }
}

impl ValueTypeId {
    pub fn new(id: &str) -> (r: Self)
        ensures
            r@ == id@,
    {
        ValueTypeId(id.to_owned())
    }

    pub fn as_str(&self) -> (r: &str)
        ensures
            r@ == self@,
    {
        self.0.as_str()
    }
}

impl Clone for ValueTypeId {
    fn clone(&self) -> (r: Self)
        ensures
            r == *self,
    {
        ValueTypeId(self.0.clone())
    }
}

impl PartialEq for ValueTypeId {
    fn eq(&self, other: &Self) -> (r: bool) {
        self.0 == other.0
    }
}

impl vstd::std_specs::cmp::PartialEqSpecImpl for ValueTypeId {
    open spec fn obeys_eq_spec() -> bool {
        true
    }

    open spec fn eq_spec(&self, other: &Self) -> bool {
        self@ == other@
    }
}

/// Identifier of a facet: a capability that value types may declare.
#[derive(Debug, Eq, Hash)]
pub struct FacetId(pub String);

impl View for FacetId {
    type V = Seq<char>;

    open spec fn view(&self) -> Seq<char> {
        self.0@
    }
}

impl FacetId {
    pub fn new(id: &str) -> (r: Self)
        ensures
            r@ == id@,
    {
        FacetId(id.to_owned())
    }
}

impl Clone for FacetId {
    fn clone(&self) -> (r: Self)
        ensures
            r == *self,
    {
        FacetId(self.0.clone())
    }
}

impl PartialEq for FacetId {
    fn eq(&self, other: &Self) -> (r: bool) {
        self.0 == other.0
    }
}

impl vstd::std_specs::cmp::PartialEqSpecImpl for FacetId {
    open spec fn obeys_eq_spec() -> bool {
        true
    }

    open spec fn eq_spec(&self, other: &Self) -> bool {
        self@ == other@
    }
}

/// A color, each channel the bit pattern of an `f32`.
#[derive(Clone, Copy, Debug, PartialEq, Eq, Structural)]
pub struct ColorValue {
    pub red: u32,
    pub green: u32,
    pub blue: u32,
    pub alpha: u32,
}

/// The bit pattern of the `f32` value 1.0.
pub const F32_ONE_BITS: u32 = 0x3f80_0000;

impl ColorValue {
    /// Opaque black.
    pub fn black() -> (c: Self)
        ensures
            c == (ColorValue { red: 0, green: 0, blue: 0, alpha: F32_ONE_BITS }),
    {
        ColorValue { red: 0, green: 0, blue: 0, alpha: F32_ONE_BITS }
    }
}

/// A named component of a vector or color value.
#[derive(Clone, Copy, Debug, PartialEq, Eq, Hash, Structural)]
pub enum ValueComponent {
    X,
    Y,
    Z,
    R,
    G,
    B,
    A,
}

/// The component that a one-letter name denotes.
pub open spec fn component_from_name(name: Seq<char>) -> Option<ValueComponent> {
    if name == "x"@ {
        Some(ValueComponent::X)
    } else if name == "y"@ {
        Some(ValueComponent::Y)
    } else if name == "z"@ {
        Some(ValueComponent::Z)
    } else if name == "r"@ {
        Some(ValueComponent::R)
    } else if name == "g"@ {
        Some(ValueComponent::G)
    } else if name == "b"@ {
        Some(ValueComponent::B)
    } else if name == "a"@ {
        Some(ValueComponent::A)
    } else {
        None
    }
}

impl ValueComponent {
    /// The component named `value` (`x`, `y`, `z`, `r`, `g`, `b` or `a`).
    pub fn parse(value: &str) -> (r: Option<Self>)
        ensures
            r == component_from_name(value@),
    {
        if str_eq(value, "x") {
            Some(ValueComponent::X)
        } else if str_eq(value, "y") {
            Some(ValueComponent::Y)
        } else if str_eq(value, "z") {
            Some(ValueComponent::Z)
        } else if str_eq(value, "r") {
            Some(ValueComponent::R)
        } else if str_eq(value, "g") {
            Some(ValueComponent::G)
        } else if str_eq(value, "b") {
            Some(ValueComponent::B)
        } else if str_eq(value, "a") {
            Some(ValueComponent::A)
        } else {
            None
        }
    }
}

/// A trigger: whether it fired, on which edge and at which tick.
#[derive(Clone, Copy, Debug, PartialEq, Eq, Structural)]
pub struct TriggerValue {
    pub fired: bool,
    pub edge_id: u64,
    pub logical_tick: u64,
}

impl TriggerValue {
    /// A trigger that fired on `edge_id` at `logical_tick`.
    pub fn fired(edge_id: u64, logical_tick: u64) -> (t: Self)
        ensures
            t == (TriggerValue { fired: true, edge_id, logical_tick }),
    {
        TriggerValue { fired: true, edge_id, logical_tick }
    }

    /// A trigger that has not fired.
    pub fn idle() -> (t: Self)
        ensures
            t == (TriggerValue { fired: false, edge_id: 0, logical_tick: 0 }),
    {
        TriggerValue { fired: false, edge_id: 0, logical_tick: 0 }
    }
}

/// A reference to an application object by a stable identifier.
#[derive(Debug, PartialEq, Eq, Hash)]
pub struct StableRef {
    pub value_type: ValueTypeId,
    pub stable_id: String,
}

impl StableRef {
    pub fn new(value_type: ValueTypeId, stable_id: &str) -> (r: Self)
        ensures
            r.value_type == value_type,
            r.stable_id@ == stable_id@,
    {
        StableRef { value_type, stable_id: stable_id.to_owned() }
    }
}

impl Clone for StableRef {
    fn clone(&self) -> (r: Self)
        ensures
            r == *self,
    {
        StableRef { value_type: self.value_type.clone(), stable_id: self.stable_id.clone() }
    }
}

/// A value of an application's own type, carried as opaque bytes.
#[derive(Debug, PartialEq, Eq)]
pub struct ExtensionValue {
    pub value_type: ValueTypeId,
    pub payload: Vec<u8>,
}

impl ExtensionValue {
    pub fn new(value_type: ValueTypeId, payload: Vec<u8>) -> (r: Self)
        ensures
            r.value_type == value_type,
            r.payload@ == payload@,
    {
        ExtensionValue { value_type, payload }
    }
}

impl Clone for ExtensionValue {
    fn clone(&self) -> (r: Self)
        ensures
            r.value_type == self.value_type,
            r.payload@ == self.payload@,
    {
        ExtensionValue { value_type: self.value_type.clone(), payload: self.payload.clone() }
    }
}

/// A length of time in whole seconds and nanoseconds.
#[derive(Clone, Copy, Debug, PartialEq, Eq, Structural)]
pub struct DurationValue {
    pub secs: u64,
    pub nanos: u32,
}

/// A value flowing through a graph at runtime.
#[derive(Debug, PartialEq)]
pub enum RuntimeValue {
    Unit,
    Bool(bool),
    Trigger(TriggerValue),
    Int(i64),
    /// The bit pattern of an `f64`.
    Float(u64),
    String(String),
    /// The bit patterns of two `f64` coordinates.
    Vec2([u64; 2]),
    /// The bit patterns of three `f64` coordinates.
    Vec3([u64; 3]),
    Color(ColorValue),
    Duration(DurationValue),
    Ref(StableRef),
    Extension(ExtensionValue),
}

/// Two runtime values are the same: equal, or extension values of the same
/// type whose payloads hold the same bytes.
pub open spec fn same_value(a: RuntimeValue, b: RuntimeValue) -> bool {
    match (a, b) {
        (RuntimeValue::Extension(x), RuntimeValue::Extension(y)) => x.value_type == y.value_type && x.payload@
            == y.payload@,
        _ => a == b,
    }
}

impl Clone for RuntimeValue {
    fn clone(&self) -> (r: Self)
        ensures
            same_value(r, *self),
    {
        match self {
            RuntimeValue::Unit => RuntimeValue::Unit,
            RuntimeValue::Bool(b) => RuntimeValue::Bool(*b),
            RuntimeValue::Trigger(t) => RuntimeValue::Trigger(*t),
            RuntimeValue::Int(i) => RuntimeValue::Int(*i),
            RuntimeValue::Float(f) => RuntimeValue::Float(*f),
            RuntimeValue::String(s) => RuntimeValue::String(s.clone()),
            RuntimeValue::Vec2(v) => RuntimeValue::Vec2(*v),
            RuntimeValue::Vec3(v) => RuntimeValue::Vec3(*v),
            RuntimeValue::Color(c) => RuntimeValue::Color(*c),
            RuntimeValue::Duration(d) => RuntimeValue::Duration(*d),
            RuntimeValue::Ref(r) => RuntimeValue::Ref(r.clone()),
            RuntimeValue::Extension(e) => RuntimeValue::Extension(e.clone()),
        }
    }
}

/// The type identifier of a runtime value.
pub open spec fn value_type_of(v: RuntimeValue) -> Seq<char> {
    match v {
        RuntimeValue::Unit => "unit"@,
        RuntimeValue::Bool(_) => "bool"@,
        RuntimeValue::Trigger(_) => "trigger"@,
        RuntimeValue::Int(_) => "int"@,
        RuntimeValue::Float(_) => "float"@,
        RuntimeValue::String(_) => "string"@,
        RuntimeValue::Vec2(_) => "vec2"@,
        RuntimeValue::Vec3(_) => "vec3"@,
        RuntimeValue::Color(_) => "color"@,
        RuntimeValue::Duration(_) => "duration"@,
        RuntimeValue::Ref(r) => r.value_type@,
        RuntimeValue::Extension(e) => e.value_type@,
    }
}

impl RuntimeValue {
    /// The identifier of this value's type.
    pub fn value_type(&self) -> (t: ValueTypeId)
        ensures
            t@ == value_type_of(*self),
    {
        match self {
            RuntimeValue::Unit => ValueTypeId::new("unit"),
            RuntimeValue::Bool(_) => ValueTypeId::new("bool"),
            RuntimeValue::Trigger(_) => ValueTypeId::new("trigger"),
            RuntimeValue::Int(_) => ValueTypeId::new("int"),
            RuntimeValue::Float(_) => ValueTypeId::new("float"),
            RuntimeValue::String(_) => ValueTypeId::new("string"),
            RuntimeValue::Vec2(_) => ValueTypeId::new("vec2"),
            RuntimeValue::Vec3(_) => ValueTypeId::new("vec3"),
            RuntimeValue::Color(_) => ValueTypeId::new("color"),
            RuntimeValue::Duration(_) => ValueTypeId::new("duration"),
            RuntimeValue::Ref(value) => value.value_type.clone(),
            RuntimeValue::Extension(value) => value.value_type.clone(),
        }
    }
}

/// The type of component `c` of a value of type `t`: `float` for the
/// coordinates of vectors and the channels of colors.
pub open spec fn component_type_of(t: Seq<char>, c: ValueComponent) -> Option<Seq<char>> {
    let has = if t == "vec2"@ {
        c is X || c is Y
    } else if t == "vec3"@ {
        c is X || c is Y || c is Z
    } else if t == "color"@ {
        c is R || c is G || c is B || c is A
    } else {
        false
    };
    if has {
        Some("float"@)
    } else {
        None
    }
}

/// The type of component `component` of values of type `value_type`.
pub fn component_value_type(value_type: &ValueTypeId, component: ValueComponent) -> (r: Option<
    ValueTypeId,
>)
    ensures
        match component_type_of(value_type@, component) {
            Some(t) => r matches Some(id) && id@ == t,
            None => r is None,
        },
{
    let t = value_type.as_str();
    let has = if str_eq(t, "vec2") {
        match component {
            ValueComponent::X | ValueComponent::Y => true,
            _ => false,
        }
    } else if str_eq(t, "vec3") {
        match component {
            ValueComponent::X | ValueComponent::Y | ValueComponent::Z => true,
            _ => false,
        }
    } else if str_eq(t, "color") {
        match component {
            ValueComponent::R | ValueComponent::G | ValueComponent::B | ValueComponent::A => true,
            _ => false,
        }
    } else {
        false
    };
    if has {
        Some(ValueTypeId::new("float"))
    } else {
        None
    }
}

/// How values of a type are stored.
#[derive(Clone, Copy, Debug, PartialEq, Eq, Structural)]
pub enum ValueStorageKind {
    Unit,
    InlineBool,
    Trigger,
    InlineI64,
    InlineF64,
    SharedString,
    InlineVec2,
    InlineVec3,
    InlineColor,
    Duration,
    StableRef,
    Extension,
}

} // verus!
