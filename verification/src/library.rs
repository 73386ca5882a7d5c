//! The built-in node kinds: their type identifiers, labels, categories,
//! how they execute, and the roles they can play on a formula surface.
use vstd::prelude::*;

use crate::formula::SurfaceItemKind;
use crate::ids::{ANodeTypeId, SocketId};
use crate::node::ExecutionKind;

verus! {

/// How a filter maps the shape of the values flowing through a pipeline.
#[derive(Clone, Copy, Debug, PartialEq, Eq, Structural)]
pub enum PipelineCardinality {
    /// The filter sees the whole value or set of values at once.
    WholeSet,
    /// Each value maps to one value.
    Elementwise,
    /// A set of values collapses to one value.
    Aggregate,
    /// A value becomes a value of another shape.
    Reshape,
    /// One value becomes a set of values.
    Expand,
}

/// How a node is wired into a managed region automatically.
#[derive(Debug, PartialEq, Eq)]
pub enum AutoWirePolicy {
    /// The incoming value enters at `input` and leaves at `output`.
    UnaryTransform { input: SocketId, output: SocketId },
    /// The incoming value enters at `input`, passes when `condition` holds,
    /// and leaves at `output`.
    Gate { input: SocketId, condition: SocketId, output: SocketId },
    /// No automatic wiring beyond the primary sockets.
    NoAutowire,
    /// The node starts a chain at `output`.
    Source { output: SocketId },
    /// The node ends a chain at `input`.
    Sink { input: SocketId },
}

/// A role a node can play on a formula surface, with the sockets and wiring
/// it uses there.
#[derive(Debug, PartialEq, Eq)]
pub struct ANodeRoleCapability {
    pub role: SurfaceItemKind,
    pub primary_input: Option<SocketId>,
    pub primary_output: Option<SocketId>,
    pub autowire: AutoWirePolicy,
    pub cardinality: PipelineCardinality,
}

/// Whether `c` is the filter capability of kind `k`: the primary sockets and
/// cardinality of [`filter_spec`], wired as a gate on `condition` for the
/// condition gate, not wired and with no primary input for math (which
/// combines several inputs), and as a unary transform for every other kind.
pub open spec fn is_filter_capability(c: ANodeRoleCapability, k: PrimitiveNodeKind) -> bool {
    match filter_spec(k) {
        None => false,
        Some((input, output, cardinality)) => {
            &&& c.role == SurfaceItemKind::Filter
            &&& c.primary_output matches Some(s) && s@ == output
            &&& c.cardinality == cardinality
            &&& if k == PrimitiveNodeKind::Math {
                c.primary_input is None && c.autowire == AutoWirePolicy::NoAutowire
            } else {
                c.primary_input matches Some(s) && s@ == input
            }
            &&& if k == PrimitiveNodeKind::Math {
                true
            } else if k == PrimitiveNodeKind::ConditionGate {
                c.autowire matches AutoWirePolicy::Gate { input: i, condition: g, output: o } && i@ == input && g@
                    == "condition"@ && o@ == output
            } else {
                c.autowire matches AutoWirePolicy::UnaryTransform { input: i, output: o } && i@ == input && o@
                    == output
            }
        },
    }
}

/// The kinds of built-in node.
#[derive(Clone, Copy, Debug, PartialEq, Eq, Structural)]
pub enum PrimitiveNodeKind {
    Constant,
    Property,
    Math,
    Function,
    Remap,
    Clamp,
    SmoothFilter,
    OneMinus,
    Inverse,
    Negate,
    Speed,
    Counter,
    Lfo,
    NoiseGenerator,
    Metronome,
    CoordinateSystem,
    AngleConversion,
    GradientSampler,
    ConvertToColor,
    ExtractColor,
    PackVec3,
    Concatenate,
    ConvertToString,
    Split,
    BooleanOperation,
    Compare,
    ConditionGate,
    TriggerOnOff,
    Gate,
    DelayOneTick,
    DebugValue,
    DebugLog,
}

/// The type identifier of a built-in node kind.
pub open spec fn kind_type_name(k: PrimitiveNodeKind) -> Seq<char> {
    match k {
        PrimitiveNodeKind::Constant => "constant"@,
        PrimitiveNodeKind::Property => "property"@,
        PrimitiveNodeKind::Math => "math"@,
        PrimitiveNodeKind::Function => "function"@,
        PrimitiveNodeKind::Remap => "remap"@,
        PrimitiveNodeKind::Clamp => "clamp"@,
        PrimitiveNodeKind::SmoothFilter => "smooth_filter"@,
        PrimitiveNodeKind::OneMinus => "one_minus"@,
        PrimitiveNodeKind::Inverse => "inverse"@,
        PrimitiveNodeKind::Negate => "negate"@,
        PrimitiveNodeKind::Speed => "speed"@,
        PrimitiveNodeKind::Counter => "counter"@,
        PrimitiveNodeKind::Lfo => "lfo"@,
        PrimitiveNodeKind::NoiseGenerator => "noise_generator"@,
        PrimitiveNodeKind::Metronome => "metronome"@,
        PrimitiveNodeKind::CoordinateSystem => "coordinate_system"@,
        PrimitiveNodeKind::AngleConversion => "angle_conversion"@,
        PrimitiveNodeKind::GradientSampler => "gradient_sampler"@,
        PrimitiveNodeKind::ConvertToColor => "convert_to_color"@,
        PrimitiveNodeKind::ExtractColor => "extract_color"@,
        PrimitiveNodeKind::PackVec3 => "pack_vec3"@,
        PrimitiveNodeKind::Concatenate => "concatenate"@,
        PrimitiveNodeKind::ConvertToString => "convert_to_string"@,
        PrimitiveNodeKind::Split => "split"@,
        PrimitiveNodeKind::BooleanOperation => "boolean_operation"@,
        PrimitiveNodeKind::Compare => "compare"@,
        PrimitiveNodeKind::ConditionGate => "condition_gate"@,
        PrimitiveNodeKind::TriggerOnOff => "trigger_on_off"@,
        PrimitiveNodeKind::Gate => "gate"@,
        PrimitiveNodeKind::DelayOneTick => "delay_one_tick"@,
        PrimitiveNodeKind::DebugValue => "debug_value"@,
        PrimitiveNodeKind::DebugLog => "debug_log"@,
    }
}

/// No two built-in node kinds share a type name, so the built-in kinds
/// can all be registered under their names.
#[verifier::spinoff_prover]
#[verifier::rlimit(60)]
pub proof fn lemma_kind_type_names_distinct(a: PrimitiveNodeKind, b: PrimitiveNodeKind)
    requires
        kind_type_name(a) == kind_type_name(b),
    ensures
        a == b,
{
    reveal_strlit("constant");
    reveal_strlit("property");
    reveal_strlit("math");
    reveal_strlit("function");
    reveal_strlit("remap");
    reveal_strlit("clamp");
    reveal_strlit("smooth_filter");
    reveal_strlit("one_minus");
    reveal_strlit("inverse");
    reveal_strlit("negate");
    reveal_strlit("speed");
    reveal_strlit("counter");
    reveal_strlit("lfo");
    reveal_strlit("noise_generator");
    reveal_strlit("metronome");
    reveal_strlit("coordinate_system");
    reveal_strlit("angle_conversion");
    reveal_strlit("gradient_sampler");
    reveal_strlit("convert_to_color");
    reveal_strlit("extract_color");
    reveal_strlit("pack_vec3");
    reveal_strlit("concatenate");
    reveal_strlit("convert_to_string");
    reveal_strlit("split");
    reveal_strlit("boolean_operation");
    reveal_strlit("compare");
    reveal_strlit("condition_gate");
    reveal_strlit("trigger_on_off");
    reveal_strlit("gate");
    reveal_strlit("delay_one_tick");
    reveal_strlit("debug_value");
    reveal_strlit("debug_log");
    let na = kind_type_name(a);
    let nb = kind_type_name(b);
    assert(na.len() == nb.len());
    assert(na[0] == nb[0]);
    assert(na[na.len() - 1] == nb[nb.len() - 1]);
    assert(na[1] == nb[1]);
    assert(na[2] == nb[2]);
}

/// The label of a built-in node kind.
pub open spec fn kind_label(k: PrimitiveNodeKind) -> Seq<char> {
    match k {
        PrimitiveNodeKind::Constant => "Constant"@,
        PrimitiveNodeKind::Property => "Property"@,
        PrimitiveNodeKind::Math => "Math"@,
        PrimitiveNodeKind::Function => "Function"@,
        PrimitiveNodeKind::Remap => "Remap"@,
        PrimitiveNodeKind::Clamp => "Clamp"@,
        PrimitiveNodeKind::SmoothFilter => "Smooth Filter"@,
        PrimitiveNodeKind::OneMinus => "One Minus"@,
        PrimitiveNodeKind::Inverse => "Inverse"@,
        PrimitiveNodeKind::Negate => "Negate"@,
        PrimitiveNodeKind::Speed => "Speed"@,
        PrimitiveNodeKind::Counter => "Counter"@,
        PrimitiveNodeKind::Lfo => "LFO"@,
        PrimitiveNodeKind::NoiseGenerator => "Noise Generator"@,
        PrimitiveNodeKind::Metronome => "Metronome"@,
        PrimitiveNodeKind::CoordinateSystem => "Coordinate System"@,
        PrimitiveNodeKind::AngleConversion => "Degrees/Radians"@,
        PrimitiveNodeKind::GradientSampler => "Gradient Sampler"@,
        PrimitiveNodeKind::ConvertToColor => "Convert To Color"@,
        PrimitiveNodeKind::ExtractColor => "Extract Color"@,
        PrimitiveNodeKind::PackVec3 => "Pack Vec3"@,
        PrimitiveNodeKind::Concatenate => "Concatenate"@,
        PrimitiveNodeKind::ConvertToString => "Convert To String"@,
        PrimitiveNodeKind::Split => "Split"@,
        PrimitiveNodeKind::BooleanOperation => "Boolean Operation"@,
        PrimitiveNodeKind::Compare => "Compare"@,
        PrimitiveNodeKind::ConditionGate => "Condition Gate"@,
        PrimitiveNodeKind::TriggerOnOff => "Trigger On/Off"@,
        PrimitiveNodeKind::Gate => "Gate"@,
        PrimitiveNodeKind::DelayOneTick => "Delay One Tick"@,
        PrimitiveNodeKind::DebugValue => "Debug Value"@,
        PrimitiveNodeKind::DebugLog => "Debug Log"@,
    }
}

/// The palette category of a built-in node kind.
pub open spec fn kind_category(k: PrimitiveNodeKind) -> Seq<char> {
    match k {
        PrimitiveNodeKind::Constant => "Values"@,
        PrimitiveNodeKind::Property => "Values"@,
        PrimitiveNodeKind::Math => "Number"@,
        PrimitiveNodeKind::Function => "Number"@,
        PrimitiveNodeKind::Remap => "Number"@,
        PrimitiveNodeKind::Clamp => "Number"@,
        PrimitiveNodeKind::SmoothFilter => "Number"@,
        PrimitiveNodeKind::OneMinus => "Number"@,
        PrimitiveNodeKind::Inverse => "Number"@,
        PrimitiveNodeKind::Negate => "Number"@,
        PrimitiveNodeKind::Speed => "Number"@,
        PrimitiveNodeKind::Counter => "Number"@,
        PrimitiveNodeKind::Lfo => "Values"@,
        PrimitiveNodeKind::NoiseGenerator => "Values"@,
        PrimitiveNodeKind::Metronome => "Values"@,
        PrimitiveNodeKind::CoordinateSystem => "Geometry"@,
        PrimitiveNodeKind::AngleConversion => "Geometry"@,
        PrimitiveNodeKind::GradientSampler => "Color"@,
        PrimitiveNodeKind::ConvertToColor => "Color"@,
        PrimitiveNodeKind::ExtractColor => "Color"@,
        PrimitiveNodeKind::PackVec3 => "Geometry"@,
        PrimitiveNodeKind::Concatenate => "String"@,
        PrimitiveNodeKind::ConvertToString => "String"@,
        PrimitiveNodeKind::Split => "String"@,
        PrimitiveNodeKind::BooleanOperation => "Logic"@,
        PrimitiveNodeKind::Compare => "Logic"@,
        PrimitiveNodeKind::ConditionGate => "Flow"@,
        PrimitiveNodeKind::TriggerOnOff => "Flow"@,
        PrimitiveNodeKind::Gate => "Flow"@,
        PrimitiveNodeKind::DelayOneTick => "Flow"@,
        PrimitiveNodeKind::DebugValue => "Debug"@,
        PrimitiveNodeKind::DebugLog => "Debug"@,
    }
}

/// Every built-in node kind, in catalog order.
pub open spec fn all_kinds_spec() -> Seq<PrimitiveNodeKind> {
    seq![PrimitiveNodeKind::Constant, PrimitiveNodeKind::Property, PrimitiveNodeKind::Math, PrimitiveNodeKind::Function, PrimitiveNodeKind::Remap, PrimitiveNodeKind::Clamp, PrimitiveNodeKind::SmoothFilter, PrimitiveNodeKind::OneMinus, PrimitiveNodeKind::Inverse, PrimitiveNodeKind::Negate, PrimitiveNodeKind::Speed, PrimitiveNodeKind::Counter, PrimitiveNodeKind::Lfo, PrimitiveNodeKind::NoiseGenerator, PrimitiveNodeKind::Metronome, PrimitiveNodeKind::CoordinateSystem, PrimitiveNodeKind::AngleConversion, PrimitiveNodeKind::GradientSampler, PrimitiveNodeKind::ConvertToColor, PrimitiveNodeKind::ExtractColor, PrimitiveNodeKind::PackVec3, PrimitiveNodeKind::Concatenate, PrimitiveNodeKind::ConvertToString, PrimitiveNodeKind::Split, PrimitiveNodeKind::BooleanOperation, PrimitiveNodeKind::Compare, PrimitiveNodeKind::ConditionGate, PrimitiveNodeKind::TriggerOnOff, PrimitiveNodeKind::Gate, PrimitiveNodeKind::DelayOneTick, PrimitiveNodeKind::DebugValue, PrimitiveNodeKind::DebugLog]
}

/// The primary input, primary output and cardinality of a built-in node
/// kind that can stand in a filter pipeline.
pub open spec fn filter_spec(k: PrimitiveNodeKind) -> Option<(Seq<char>, Seq<char>, PipelineCardinality)> {
    match k {
        PrimitiveNodeKind::Math => Some(("value1"@, "result"@, PipelineCardinality::Aggregate)),
        PrimitiveNodeKind::Function => Some(("value"@, "result"@, PipelineCardinality::Elementwise)),
        PrimitiveNodeKind::Remap => Some(("value"@, "result"@, PipelineCardinality::Elementwise)),
        PrimitiveNodeKind::Clamp => Some(("value"@, "result"@, PipelineCardinality::Elementwise)),
        PrimitiveNodeKind::SmoothFilter => Some(("value"@, "result"@, PipelineCardinality::Elementwise)),
        PrimitiveNodeKind::OneMinus => Some(("value"@, "result"@, PipelineCardinality::Elementwise)),
        PrimitiveNodeKind::Inverse => Some(("value"@, "result"@, PipelineCardinality::Elementwise)),
        PrimitiveNodeKind::Negate => Some(("value"@, "result"@, PipelineCardinality::Elementwise)),
        PrimitiveNodeKind::Speed => Some(("value"@, "result"@, PipelineCardinality::Elementwise)),
        PrimitiveNodeKind::CoordinateSystem => Some(("value"@, "result"@, PipelineCardinality::Elementwise)),
        PrimitiveNodeKind::AngleConversion => Some(("value"@, "result"@, PipelineCardinality::Elementwise)),
        PrimitiveNodeKind::ConvertToColor => Some(("r"@, "color"@, PipelineCardinality::Reshape)),
        PrimitiveNodeKind::ExtractColor => Some(("color"@, "r"@, PipelineCardinality::Reshape)),
        PrimitiveNodeKind::PackVec3 => Some(("x"@, "value"@, PipelineCardinality::Reshape)),
        PrimitiveNodeKind::ConditionGate => Some(("value"@, "value"@, PipelineCardinality::WholeSet)),
        _ => None,
    }
}
impl PrimitiveNodeKind {
    /// Every built-in node kind, in catalog order.
    pub fn all() -> (v: Vec<PrimitiveNodeKind>)
        ensures
            v@ == all_kinds_spec(),
    {
        let v = vec![PrimitiveNodeKind::Constant, PrimitiveNodeKind::Property, PrimitiveNodeKind::Math, PrimitiveNodeKind::Function, PrimitiveNodeKind::Remap, PrimitiveNodeKind::Clamp, PrimitiveNodeKind::SmoothFilter, PrimitiveNodeKind::OneMinus, PrimitiveNodeKind::Inverse, PrimitiveNodeKind::Negate, PrimitiveNodeKind::Speed, PrimitiveNodeKind::Counter, PrimitiveNodeKind::Lfo, PrimitiveNodeKind::NoiseGenerator, PrimitiveNodeKind::Metronome, PrimitiveNodeKind::CoordinateSystem, PrimitiveNodeKind::AngleConversion, PrimitiveNodeKind::GradientSampler, PrimitiveNodeKind::ConvertToColor, PrimitiveNodeKind::ExtractColor, PrimitiveNodeKind::PackVec3, PrimitiveNodeKind::Concatenate, PrimitiveNodeKind::ConvertToString, PrimitiveNodeKind::Split, PrimitiveNodeKind::BooleanOperation, PrimitiveNodeKind::Compare, PrimitiveNodeKind::ConditionGate, PrimitiveNodeKind::TriggerOnOff, PrimitiveNodeKind::Gate, PrimitiveNodeKind::DelayOneTick, PrimitiveNodeKind::DebugValue, PrimitiveNodeKind::DebugLog];
        proof {
            assert(v@ =~= all_kinds_spec());
        }
        v
    }

    /// The type identifier of this kind, such as `math`.
    pub fn node_type_name(self) -> (r: &'static str)
        ensures
            r@ == kind_type_name(self),
    {
        match self {
            PrimitiveNodeKind::Constant => "constant",
            PrimitiveNodeKind::Property => "property",
            PrimitiveNodeKind::Math => "math",
            PrimitiveNodeKind::Function => "function",
            PrimitiveNodeKind::Remap => "remap",
            PrimitiveNodeKind::Clamp => "clamp",
            PrimitiveNodeKind::SmoothFilter => "smooth_filter",
            PrimitiveNodeKind::OneMinus => "one_minus",
            PrimitiveNodeKind::Inverse => "inverse",
            PrimitiveNodeKind::Negate => "negate",
            PrimitiveNodeKind::Speed => "speed",
            PrimitiveNodeKind::Counter => "counter",
            PrimitiveNodeKind::Lfo => "lfo",
            PrimitiveNodeKind::NoiseGenerator => "noise_generator",
            PrimitiveNodeKind::Metronome => "metronome",
            PrimitiveNodeKind::CoordinateSystem => "coordinate_system",
            PrimitiveNodeKind::AngleConversion => "angle_conversion",
            PrimitiveNodeKind::GradientSampler => "gradient_sampler",
            PrimitiveNodeKind::ConvertToColor => "convert_to_color",
            PrimitiveNodeKind::ExtractColor => "extract_color",
            PrimitiveNodeKind::PackVec3 => "pack_vec3",
            PrimitiveNodeKind::Concatenate => "concatenate",
            PrimitiveNodeKind::ConvertToString => "convert_to_string",
            PrimitiveNodeKind::Split => "split",
            PrimitiveNodeKind::BooleanOperation => "boolean_operation",
            PrimitiveNodeKind::Compare => "compare",
            PrimitiveNodeKind::ConditionGate => "condition_gate",
            PrimitiveNodeKind::TriggerOnOff => "trigger_on_off",
            PrimitiveNodeKind::Gate => "gate",
            PrimitiveNodeKind::DelayOneTick => "delay_one_tick",
            PrimitiveNodeKind::DebugValue => "debug_value",
            PrimitiveNodeKind::DebugLog => "debug_log",
        }
    }

    /// The label of this kind.
    pub fn label(self) -> (r: &'static str)
        ensures
            r@ == kind_label(self),
    {
        match self {
            PrimitiveNodeKind::Constant => "Constant",
            PrimitiveNodeKind::Property => "Property",
            PrimitiveNodeKind::Math => "Math",
            PrimitiveNodeKind::Function => "Function",
            PrimitiveNodeKind::Remap => "Remap",
            PrimitiveNodeKind::Clamp => "Clamp",
            PrimitiveNodeKind::SmoothFilter => "Smooth Filter",
            PrimitiveNodeKind::OneMinus => "One Minus",
            PrimitiveNodeKind::Inverse => "Inverse",
            PrimitiveNodeKind::Negate => "Negate",
            PrimitiveNodeKind::Speed => "Speed",
            PrimitiveNodeKind::Counter => "Counter",
            PrimitiveNodeKind::Lfo => "LFO",
            PrimitiveNodeKind::NoiseGenerator => "Noise Generator",
            PrimitiveNodeKind::Metronome => "Metronome",
            PrimitiveNodeKind::CoordinateSystem => "Coordinate System",
            PrimitiveNodeKind::AngleConversion => "Degrees/Radians",
            PrimitiveNodeKind::GradientSampler => "Gradient Sampler",
            PrimitiveNodeKind::ConvertToColor => "Convert To Color",
            PrimitiveNodeKind::ExtractColor => "Extract Color",
            PrimitiveNodeKind::PackVec3 => "Pack Vec3",
            PrimitiveNodeKind::Concatenate => "Concatenate",
            PrimitiveNodeKind::ConvertToString => "Convert To String",
            PrimitiveNodeKind::Split => "Split",
            PrimitiveNodeKind::BooleanOperation => "Boolean Operation",
            PrimitiveNodeKind::Compare => "Compare",
            PrimitiveNodeKind::ConditionGate => "Condition Gate",
            PrimitiveNodeKind::TriggerOnOff => "Trigger On/Off",
            PrimitiveNodeKind::Gate => "Gate",
            PrimitiveNodeKind::DelayOneTick => "Delay One Tick",
            PrimitiveNodeKind::DebugValue => "Debug Value",
            PrimitiveNodeKind::DebugLog => "Debug Log",
        }
    }

    /// The palette category of this kind.
    pub fn category(self) -> (r: &'static str)
        ensures
            r@ == kind_category(self),
    {
        match self {
            PrimitiveNodeKind::Constant => "Values",
            PrimitiveNodeKind::Property => "Values",
            PrimitiveNodeKind::Math => "Number",
            PrimitiveNodeKind::Function => "Number",
            PrimitiveNodeKind::Remap => "Number",
            PrimitiveNodeKind::Clamp => "Number",
            PrimitiveNodeKind::SmoothFilter => "Number",
            PrimitiveNodeKind::OneMinus => "Number",
            PrimitiveNodeKind::Inverse => "Number",
            PrimitiveNodeKind::Negate => "Number",
            PrimitiveNodeKind::Speed => "Number",
            PrimitiveNodeKind::Counter => "Number",
            PrimitiveNodeKind::Lfo => "Values",
            PrimitiveNodeKind::NoiseGenerator => "Values",
            PrimitiveNodeKind::Metronome => "Values",
            PrimitiveNodeKind::CoordinateSystem => "Geometry",
            PrimitiveNodeKind::AngleConversion => "Geometry",
            PrimitiveNodeKind::GradientSampler => "Color",
            PrimitiveNodeKind::ConvertToColor => "Color",
            PrimitiveNodeKind::ExtractColor => "Color",
            PrimitiveNodeKind::PackVec3 => "Geometry",
            PrimitiveNodeKind::Concatenate => "String",
            PrimitiveNodeKind::ConvertToString => "String",
            PrimitiveNodeKind::Split => "String",
            PrimitiveNodeKind::BooleanOperation => "Logic",
            PrimitiveNodeKind::Compare => "Logic",
            PrimitiveNodeKind::ConditionGate => "Flow",
            PrimitiveNodeKind::TriggerOnOff => "Flow",
            PrimitiveNodeKind::Gate => "Flow",
            PrimitiveNodeKind::DelayOneTick => "Flow",
            PrimitiveNodeKind::DebugValue => "Debug",
            PrimitiveNodeKind::DebugLog => "Debug",
        }
    }

}

/// The declaration of a built-in node kind.
#[derive(Debug)]
pub struct PrimitiveNodeDeclaration {
    kind: PrimitiveNodeKind,
}

/// How a built-in node kind executes: the kinds that keep state between
/// ticks are stateful, the debug log emits effects, the others are pure.
pub open spec fn kind_execution(k: PrimitiveNodeKind) -> ExecutionKind {
    match k {
        PrimitiveNodeKind::SmoothFilter | PrimitiveNodeKind::Speed | PrimitiveNodeKind::Counter
        | PrimitiveNodeKind::Lfo | PrimitiveNodeKind::NoiseGenerator | PrimitiveNodeKind::Metronome
        | PrimitiveNodeKind::TriggerOnOff | PrimitiveNodeKind::DelayOneTick => ExecutionKind::Stateful,
        PrimitiveNodeKind::DebugLog => ExecutionKind::EffectEmitter,
        _ => ExecutionKind::Pure,
    }
}

/// Whether a built-in node kind runs only when one of its inputs changed;
/// the kinds that produce values over time run on every tick.
pub open spec fn kind_input_gated(k: PrimitiveNodeKind) -> bool {
    !(k == PrimitiveNodeKind::SmoothFilter || k == PrimitiveNodeKind::Speed || k == PrimitiveNodeKind::Lfo || k
        == PrimitiveNodeKind::NoiseGenerator || k == PrimitiveNodeKind::Metronome || k
        == PrimitiveNodeKind::DelayOneTick)
}

impl PrimitiveNodeDeclaration {
    /// The declaration of `kind`.
    pub fn new(kind: PrimitiveNodeKind) -> (d: Self)
        ensures
            d.kind() == kind,
    {
        PrimitiveNodeDeclaration { kind }
    }

    /// The kind declared.
    pub closed spec fn kind_spec(&self) -> PrimitiveNodeKind {
        self.kind
    }

    /// The kind declared.
    #[verifier::when_used_as_spec(kind_spec)]
    pub fn kind(&self) -> (k: PrimitiveNodeKind)
        ensures
            k == self.kind(),
    {
        self.kind
    }

    /// The node type identifier, such as `math`.
    pub fn type_id(&self) -> (r: ANodeTypeId)
        ensures
            r@ == kind_type_name(self.kind()),
    {
        ANodeTypeId::new(self.kind.node_type_name())
    }

    /// The label shown for nodes of this kind.
    pub fn label(&self) -> (r: &'static str)
        ensures
            r@ == kind_label(self.kind()),
    {
        self.kind.label()
    }

    /// The palette category of this kind.
    pub fn category(&self) -> (r: &'static str)
        ensures
            r@ == kind_category(self.kind()),
    {
        self.kind.category()
    }

    /// How nodes of this kind execute.
    pub fn execution_kind(&self) -> (r: ExecutionKind)
        ensures
            r == kind_execution(self.kind()),
    {
        match self.kind {
            PrimitiveNodeKind::SmoothFilter | PrimitiveNodeKind::Speed | PrimitiveNodeKind::Counter
            | PrimitiveNodeKind::Lfo | PrimitiveNodeKind::NoiseGenerator | PrimitiveNodeKind::Metronome
            | PrimitiveNodeKind::TriggerOnOff | PrimitiveNodeKind::DelayOneTick => ExecutionKind::Stateful,
            PrimitiveNodeKind::DebugLog => ExecutionKind::EffectEmitter,
            _ => ExecutionKind::Pure,
        }
    }

    /// Whether an edge out of this node may close a cycle: only a one-tick
    /// delay breaks a dependency cycle.
    pub fn breaks_dependency_cycle(&self) -> (r: bool)
        ensures
            r == (self.kind() == PrimitiveNodeKind::DelayOneTick),
    {
        self.kind == PrimitiveNodeKind::DelayOneTick
    }

    /// Whether nodes of this kind run only when an input changed, unless
    /// configured otherwise.
    pub fn default_process_on_input_change_only(&self) -> (r: bool)
        ensures
            r == kind_input_gated(self.kind()),
    {
        match self.kind {
            PrimitiveNodeKind::SmoothFilter | PrimitiveNodeKind::Speed | PrimitiveNodeKind::Lfo
            | PrimitiveNodeKind::NoiseGenerator | PrimitiveNodeKind::Metronome
            | PrimitiveNodeKind::DelayOneTick => false,
            _ => true,
        }
    }

    /// Whether nodes of this kind send only outputs that changed, unless
    /// configured otherwise.
    pub fn default_send_on_output_change_only(&self) -> (r: bool)
        ensures
            r,
    {
        true
    }

    /// The roles nodes of this kind can play: the filter role for the kinds
    /// of [`filter_spec`], none for the others.
    pub fn role_capabilities(&self) -> (r: Vec<ANodeRoleCapability>)
        ensures
            r@.len() == if filter_spec(self.kind()) is Some {
                1int
            } else {
                0int
            },
            r@.len() == 1 ==> is_filter_capability(r@[0], self.kind()),
    {
        let mut r: Vec<ANodeRoleCapability> = Vec::new();
        let (input, output, cardinality) = match self.kind {
            PrimitiveNodeKind::Math => ("value1", "result", PipelineCardinality::Aggregate),
            PrimitiveNodeKind::Function => ("value", "result", PipelineCardinality::Elementwise),
            PrimitiveNodeKind::Remap => ("value", "result", PipelineCardinality::Elementwise),
            PrimitiveNodeKind::Clamp => ("value", "result", PipelineCardinality::Elementwise),
            PrimitiveNodeKind::SmoothFilter => ("value", "result", PipelineCardinality::Elementwise),
            PrimitiveNodeKind::OneMinus => ("value", "result", PipelineCardinality::Elementwise),
            PrimitiveNodeKind::Inverse => ("value", "result", PipelineCardinality::Elementwise),
            PrimitiveNodeKind::Negate => ("value", "result", PipelineCardinality::Elementwise),
            PrimitiveNodeKind::Speed => ("value", "result", PipelineCardinality::Elementwise),
            PrimitiveNodeKind::CoordinateSystem => ("value", "result", PipelineCardinality::Elementwise),
            PrimitiveNodeKind::AngleConversion => ("value", "result", PipelineCardinality::Elementwise),
            PrimitiveNodeKind::ConvertToColor => ("r", "color", PipelineCardinality::Reshape),
            PrimitiveNodeKind::ExtractColor => ("color", "r", PipelineCardinality::Reshape),
            PrimitiveNodeKind::PackVec3 => ("x", "value", PipelineCardinality::Reshape),
            PrimitiveNodeKind::ConditionGate => ("value", "value", PipelineCardinality::WholeSet),
            _ => {
                return r;
            },
        };
        let autowire = match self.kind {
            PrimitiveNodeKind::ConditionGate => AutoWirePolicy::Gate {
                input: SocketId::new(input),
                condition: SocketId::new("condition"),
                output: SocketId::new(output),
            },
            PrimitiveNodeKind::Math => AutoWirePolicy::NoAutowire,
            _ => AutoWirePolicy::UnaryTransform { input: SocketId::new(input), output: SocketId::new(output) },
        };
        let primary_input = match self.kind {
            PrimitiveNodeKind::Math => None,
            _ => Some(SocketId::new(input)),
        };
        r.push(
            ANodeRoleCapability {
                role: SurfaceItemKind::Filter,
                primary_input,
                primary_output: Some(SocketId::new(output)),
                autowire,
                cardinality,
            },
        );
        r
    }

    /// Whether nodes of this kind can play `role`.
    pub fn supports_role(&self, role: SurfaceItemKind) -> (r: bool)
        ensures
            r == (role == SurfaceItemKind::Filter && filter_spec(self.kind()) is Some),
    {
        let capabilities = self.role_capabilities();
        let mut i: usize = 0;
        while i < capabilities.len()
            invariant
                i <= capabilities@.len(),
                capabilities@.len() == if filter_spec(self.kind()) is Some {
                    1int
                } else {
                    0int
                },
                capabilities@.len() == 1 ==> is_filter_capability(capabilities@[0], self.kind()),
                forall|j: int| 0 <= j < i ==> capabilities@[j].role != role,
            decreases capabilities@.len() - i,
        {
            if capabilities[i].role == role {
                return true;
            }
            i = i + 1;
        }
        false
    }
}

} // verus!
