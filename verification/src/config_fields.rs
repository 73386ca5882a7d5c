//! The config fields of the built-in node kinds: what each field is called,
//! its default, and how editors show it.
//!
//! Float defaults are written as the bit patterns of `f64` values.
use vstd::prelude::*;

use crate::graph::{ANodeInstance, F64_ONE_BITS};
use crate::library::{PrimitiveNodeDeclaration, PrimitiveNodeKind};
use crate::node::ANodeConfigFieldDecl;
use crate::signatures::{config_string, config_text};
use crate::typing::TypeVar;
use crate::value::{RuntimeValue, ValueTypeId};

verus! {

/// The default value of a config field, over plain values.
pub enum DefaultSpec {
    /// The bit pattern of an `f64`.
    Float(u64),
    Int(i64),
    Bool(bool),
    Text(Seq<char>),
}

/// Whether `v` is the default `d` describes.
pub open spec fn default_is(v: RuntimeValue, d: DefaultSpec) -> bool {
    match d {
        DefaultSpec::Float(b) => v == RuntimeValue::Float(b),
        DefaultSpec::Int(i) => v == RuntimeValue::Int(i),
        DefaultSpec::Bool(b) => v == RuntimeValue::Bool(b),
        DefaultSpec::Text(t) => v matches RuntimeValue::String(s) && s@ == t,
    }
}

/// A config field over plain values.
pub struct FieldSpec {
    pub id: Seq<char>,
    pub label: Seq<char>,
    pub default: DefaultSpec,
    pub description: Option<Seq<char>>,
    pub editor: Option<Seq<char>>,
    pub options: Seq<(Seq<char>, Seq<char>)>,
    pub type_variable: Option<Seq<char>>,
    pub type_options: Seq<Seq<char>>,
}

/// The text of an optional string.
pub open spec fn opt_text(s: Option<String>) -> Option<Seq<char>> {
    match s {
        Some(t) => Some(t@),
        None => None,
    }
}

/// The identifiers and labels of a list of choices.
pub open spec fn options_view(o: Seq<(String, String)>) -> Seq<(Seq<char>, Seq<char>)> {
    o.map_values(|p: (String, String)| (p.0@, p.1@))
}

/// Whether field declaration `d` is the one `f` describes.
pub open spec fn field_is(d: ANodeConfigFieldDecl, f: FieldSpec) -> bool {
    &&& d.id@ == f.id
    &&& d.label@ == f.label
    &&& default_is(d.default_value, f.default)
    &&& opt_text(d.description) == f.description
    &&& opt_text(d.editor) == f.editor
    &&& options_view(d.enum_options@) == f.options
    &&& match d.type_variable {
        Some(v) => f.type_variable == Some(v@),
        None => f.type_variable is None,
    }
    &&& d.type_options@.map_values(|t: ValueTypeId| t@) == f.type_options
}

/// Whether the declarations `r` are, in order, the fields `f`.
pub open spec fn fields_are(r: Seq<ANodeConfigFieldDecl>, f: Seq<FieldSpec>) -> bool {
    &&& r.len() == f.len()
    &&& forall|i: int| 0 <= i < f.len() ==> field_is(#[trigger] r[i], f[i])
}

/// A field with a default and optionally a description and an editor.
pub open spec fn plain_field(
    id: Seq<char>,
    label: Seq<char>,
    default: DefaultSpec,
    description: Option<Seq<char>>,
    editor: Option<Seq<char>>,
) -> FieldSpec {
    FieldSpec {
        id,
        label,
        default,
        description,
        editor,
        options: seq![],
        type_variable: None,
        type_options: seq![],
    }
}

/// A choice among `options`, `default` chosen, shown with the `enum` editor.
pub open spec fn enum_field(id: Seq<char>, label: Seq<char>, default: Seq<char>, options: Seq<(Seq<char>, Seq<char>)>) -> FieldSpec {
    FieldSpec {
        id,
        label,
        default: DefaultSpec::Text(default),
        description: None,
        editor: Some("enum"@),
        options,
        type_variable: None,
        type_options: seq![],
    }
}

/// An optional count of numbered sockets.
pub open spec fn count_field(id: Seq<char>, label: Seq<char>, default: i64) -> FieldSpec {
    FieldSpec {
        id,
        label,
        default: DefaultSpec::Int(default),
        description: Some("Disable to grow automatically as new sockets are connected."@),
        editor: Some("optional_count"@),
        options: seq![],
        type_variable: None,
        type_options: seq![],
    }
}

/// The value types a value-type field offers: the numeric types when
/// `numeric`, else every primitive type.
pub open spec fn value_type_options(numeric: bool) -> Seq<Seq<char>> {
    if numeric {
        seq!["int"@, "float"@, "vec2"@, "vec3"@, "color"@]
    } else {
        seq![
            "unit"@,
            "bool"@,
            "trigger"@,
            "int"@,
            "float"@,
            "string"@,
            "vec2"@,
            "vec3"@,
            "color"@,
            "duration"@,
            "value_array"@,
        ]
    }
}

/// The optional fixed value type of type variable `variable`.
pub open spec fn value_type_field(variable: Seq<char>, numeric: bool) -> FieldSpec {
    FieldSpec {
        id: "value_type"@,
        label: "Value Type"@,
        default: DefaultSpec::Text("float"@),
        description: Some("Optional fixed value type for this node. Disable to infer from inputs."@),
        editor: Some("value_type"@),
        options: seq![],
        type_variable: Some(variable),
        type_options: value_type_options(numeric),
    }
}

/// A choice among `options`, `default` chosen.
fn enum_config(
    id: &str,
    label: &str,
    default: &str,
    options: Vec<(&str, &str)>,
    spec: Ghost<Seq<(Seq<char>, Seq<char>)>>,
) -> (r: ANodeConfigFieldDecl)
    requires
        options@.map_values(|p: (&str, &str)| (p.0@, p.1@)) =~= spec@,
    ensures
        field_is(r, enum_field(id@, label@, default@, spec@)),
{
    let mut owned: Vec<(String, String)> = Vec::new();
    let mut i: usize = 0;
    while i < options.len()
        invariant
            i <= options@.len(),
            owned@.len() == i,
            forall|j: int| 0 <= j < i ==> (#[trigger] owned@[j]).0@ == options@[j].0@ && owned@[j].1@ == options@[j].1@,
        decreases options@.len() - i,
    {
        let (a, b) = options[i];
        owned.push((a.to_owned(), b.to_owned()));
        i = i + 1;
    }
    proof {
        assert(options_view(owned@) =~= options@.map_values(|p: (&str, &str)| (p.0@, p.1@)));
    }
    let r = ANodeConfigFieldDecl::new(id, label, RuntimeValue::String(default.to_owned())).with_editor("enum").with_enum_options(
        owned,
    );
    proof {
        assert(r.type_options@.map_values(|t: ValueTypeId| t@) =~= seq![]);
    }
    r
}

/// A field with a default and optionally a description and an editor.
fn plain_config(
    id: &str,
    label: &str,
    default: RuntimeValue,
    description: Option<&str>,
    editor: Option<&str>,
    spec: Ghost<DefaultSpec>,
) -> (r: ANodeConfigFieldDecl)
    requires
        default_is(default, spec@),
    ensures
        field_is(
            r,
            plain_field(
                id@,
                label@,
                spec@,
                match description {
                    Some(d) => Some(d@),
                    None => None,
                },
                match editor {
                    Some(e) => Some(e@),
                    None => None,
                },
            ),
        ),
{
    let mut r = ANodeConfigFieldDecl::new(id, label, default);
    match description {
        Some(d) => {
            r = r.with_description(d);
        },
        None => {},
    }
    match editor {
        Some(e) => {
            r = r.with_editor(e);
        },
        None => {},
    }
    proof {
        assert(options_view(r.enum_options@) =~= seq![]);
        assert(r.type_options@.map_values(|t: ValueTypeId| t@) =~= seq![]);
    }
    r
}

/// An optional count of numbered sockets.
fn optional_count_config(id: &str, label: &str, default: i64) -> (r: ANodeConfigFieldDecl)
    ensures
        field_is(r, count_field(id@, label@, default)),
{
    let r = ANodeConfigFieldDecl::new(id, label, RuntimeValue::Int(default)).with_description(
        "Disable to grow automatically as new sockets are connected.",
    ).with_editor("optional_count");
    proof {
        assert(options_view(r.enum_options@) =~= seq![]);
        assert(r.type_options@.map_values(|t: ValueTypeId| t@) =~= seq![]);
    }
    r
}

/// The optional fixed value type of `variable`.
fn value_type_config_field(variable: &str, numeric: bool) -> (r: ANodeConfigFieldDecl)
    ensures
        field_is(r, value_type_field(variable@, numeric)),
{
    let options = if numeric {
        vec![
            ValueTypeId::new("int"),
            ValueTypeId::new("float"),
            ValueTypeId::new("vec2"),
            ValueTypeId::new("vec3"),
            ValueTypeId::new("color"),
        ]
    } else {
        vec![
            ValueTypeId::new("unit"),
            ValueTypeId::new("bool"),
            ValueTypeId::new("trigger"),
            ValueTypeId::new("int"),
            ValueTypeId::new("float"),
            ValueTypeId::new("string"),
            ValueTypeId::new("vec2"),
            ValueTypeId::new("vec3"),
            ValueTypeId::new("color"),
            ValueTypeId::new("duration"),
            ValueTypeId::new("value_array"),
        ]
    };
    let r = ANodeConfigFieldDecl::new("value_type", "Value Type", RuntimeValue::String("float".to_owned())).with_description(
        "Optional fixed value type for this node. Disable to infer from inputs.",
    ).with_editor("value_type").with_type_variable(TypeVar::new(variable)).with_type_options(options);
    proof {
        assert(options_view(r.enum_options@) =~= seq![]);
        assert(r.type_options@.map_values(|t: ValueTypeId| t@) =~= value_type_options(numeric));
    }
    r
}

/// The config fields of a built-in node kind, in order.
pub open spec fn config_fields_spec(k: PrimitiveNodeKind) -> Seq<FieldSpec> {
    match k {
        PrimitiveNodeKind::Constant => seq![plain_field("value"@, "Value"@, DefaultSpec::Float(0u64), Some("The constant value emitted by this node."@), Some("runtime_value"@))],
        PrimitiveNodeKind::Property => seq![plain_field("property_id"@, "Property ID"@, DefaultSpec::Text(""@), Some("Stable Formula property identifier."@), None)],
        PrimitiveNodeKind::Math => seq![enum_field("operator"@, "Operator"@, "add"@, seq![("add"@, "Add"@), ("subtract"@, "Subtract"@), ("multiply"@, "Multiply"@), ("divide"@, "Divide"@), ("modulo"@, "Modulo"@)]), count_field("num_inputs"@, "Num Inputs"@, 2), value_type_field("TNumeric"@, true)],
        PrimitiveNodeKind::Function => seq![enum_field("function"@, "Function"@, "sqrt"@, seq![("sqrt"@, "Sqrt"@), ("log"@, "Log"@), ("log10"@, "Log10"@), ("exp"@, "Exp"@), ("abs"@, "Abs"@), ("floor"@, "Floor"@), ("ceil"@, "Ceil"@), ("round"@, "Round"@), ("sin"@, "Sin"@), ("cos"@, "Cos"@), ("tan"@, "Tan"@), ("asin"@, "Asin"@), ("acos"@, "Acos"@), ("atan"@, "Atan"@), ("atan2"@, "Atan2"@)])],
        PrimitiveNodeKind::SmoothFilter => seq![enum_field("method"@, "Method"@, "one_euro"@, seq![("one_euro"@, "One Euro"@), ("sma"@, "SMA"@), ("damping"@, "Damping"@), ("savitzky_golay"@, "Savitzky-Golay"@), ("median"@, "Median"@)])],
        PrimitiveNodeKind::OneMinus => seq![value_type_field("TNumeric"@, true)],
        PrimitiveNodeKind::Inverse => seq![value_type_field("TNumeric"@, true)],
        PrimitiveNodeKind::Negate => seq![value_type_field("TNumeric"@, true)],
        PrimitiveNodeKind::Speed => seq![plain_field("window_seconds"@, "Window"@, DefaultSpec::Float(0x3fb9_9999_9999_999au64), Some("Smoothing window in seconds for the speed estimate."@), None)],
        PrimitiveNodeKind::Lfo => seq![enum_field("shape"@, "Shape"@, "sine"@, seq![("sine"@, "Sine"@), ("triangle"@, "Triangle"@), ("saw"@, "Saw"@), ("square"@, "Square"@), ("pulse"@, "Pulse"@)]), plain_field("frequency"@, "Frequency"@, DefaultSpec::Float(F64_ONE_BITS), None, None), plain_field("update_rate"@, "Update Rate"@, DefaultSpec::Float(0x404e_0000_0000_0000u64), None, None), plain_field("minimum"@, "Minimum"@, DefaultSpec::Float(0u64), None, None), plain_field("maximum"@, "Maximum"@, DefaultSpec::Float(F64_ONE_BITS), None, None)],
        PrimitiveNodeKind::NoiseGenerator => seq![enum_field("algorithm"@, "Algorithm"@, "random"@, seq![("random"@, "Random"@), ("perlin"@, "Perlin"@), ("simplex"@, "Simplex"@), ("brownian"@, "Brownian"@), ("cellular"@, "Cellular"@), ("fractal"@, "Fractal"@)]), plain_field("seed"@, "Seed"@, DefaultSpec::Int(0), None, None), plain_field("scale"@, "Scale"@, DefaultSpec::Float(F64_ONE_BITS), None, None)],
        PrimitiveNodeKind::Metronome => seq![enum_field("mode"@, "Mode"@, "bpm"@, seq![("frequency"@, "Frequency"@), ("bpm"@, "BPM"@), ("time"@, "Time"@)]), plain_field("value"@, "Value"@, DefaultSpec::Float(0x405e_0000_0000_0000u64), None, None), plain_field("on_ratio"@, "On Ratio"@, DefaultSpec::Float(0x3fe0_0000_0000_0000u64), None, None), plain_field("randomness"@, "Randomness"@, DefaultSpec::Float(0u64), None, None)],
        PrimitiveNodeKind::CoordinateSystem => seq![enum_field("mode"@, "Mode"@, "cartesian_to_polar"@, seq![("cartesian_to_polar"@, "Cartesian To Polar"@), ("polar_to_cartesian"@, "Polar To Cartesian"@)])],
        PrimitiveNodeKind::AngleConversion => seq![enum_field("mode"@, "Mode"@, "degrees_to_radians"@, seq![("degrees_to_radians"@, "Degrees To Radians"@), ("radians_to_degrees"@, "Radians To Degrees"@)])],
        PrimitiveNodeKind::GradientSampler => seq![plain_field("gradient"@, "Gradient"@, DefaultSpec::Text("#000000 0, #ffffff 1"@), Some("Comma-separated color stops, for example `#000000 0, #ffffff 1`."@), None)],
        PrimitiveNodeKind::ConvertToColor => seq![enum_field("mode"@, "Mode"@, "rgba"@, seq![("rgba"@, "RGBA"@), ("hsva"@, "HSVA"@), ("hsla"@, "HSLA"@), ("cmyka"@, "CMYK"@)])],
        PrimitiveNodeKind::ExtractColor => seq![enum_field("mode"@, "Mode"@, "rgba"@, seq![("rgba"@, "RGBA"@), ("hsva"@, "HSVA"@), ("hsla"@, "HSLA"@), ("cmyka"@, "CMYK"@)])],
        PrimitiveNodeKind::Concatenate => seq![count_field("num_inputs"@, "Num Inputs"@, 2), plain_field("prefix"@, "Prefix"@, DefaultSpec::Text(""@), None, None), plain_field("suffix"@, "Suffix"@, DefaultSpec::Text(""@), None, None), plain_field("separator"@, "Separator"@, DefaultSpec::Text(""@), None, None)],
        PrimitiveNodeKind::ConvertToString => seq![enum_field("format"@, "Format"@, "decimal"@, seq![("decimal"@, "Decimal"@), ("hexadecimal"@, "Hexadecimal"@), ("time"@, "Time"@), ("compact"@, "Compact"@)])],
        PrimitiveNodeKind::Split => seq![plain_field("separator"@, "Separator"@, DefaultSpec::Text(","@), None, None), plain_field("trim"@, "Trim"@, DefaultSpec::Bool(true), None, None), plain_field("omit_empty"@, "Omit Empty"@, DefaultSpec::Bool(false), None, None)],
        PrimitiveNodeKind::BooleanOperation => seq![enum_field("operator"@, "Operator"@, "and"@, seq![("and"@, "AND"@), ("or"@, "OR"@), ("xor"@, "XOR"@)])],
        PrimitiveNodeKind::Compare => seq![enum_field("comparator"@, "Comparator"@, "equal"@, seq![("equal"@, "Equal"@), ("not_equal"@, "Not Equal"@), ("greater"@, "Greater"@), ("greater_or_equal"@, "Greater Or Equal"@), ("less"@, "Less"@), ("less_or_equal"@, "Less Or Equal"@), ("longer"@, "Longer"@), ("shorter"@, "Shorter"@), ("contains"@, "Contains"@), ("brighter"@, "Brighter"@), ("darker"@, "Darker"@)]), value_type_field("TValue"@, false)],
        PrimitiveNodeKind::TriggerOnOff => seq![plain_field("toggle"@, "Toggle"@, DefaultSpec::Bool(false), Some("Alternate On and Off triggers on rising input edges."@), None)],
        _ => seq![],
    }
}

fn constant_fields() -> (r: Vec<ANodeConfigFieldDecl>)
    ensures
        fields_are(r@, config_fields_spec(PrimitiveNodeKind::Constant)),
{
    let f0 = plain_config("value", "Value", RuntimeValue::Float(0u64), Some("The constant value emitted by this node."), Some("runtime_value"), Ghost(DefaultSpec::Float(0u64)));
    let r = vec![f0];
    r
}

fn property_fields() -> (r: Vec<ANodeConfigFieldDecl>)
    ensures
        fields_are(r@, config_fields_spec(PrimitiveNodeKind::Property)),
{
    let f0 = plain_config("property_id", "Property ID", RuntimeValue::String("".to_owned()), Some("Stable Formula property identifier."), None, Ghost(DefaultSpec::Text(""@)));
    let r = vec![f0];
    r
}

fn math_fields() -> (r: Vec<ANodeConfigFieldDecl>)
    ensures
        fields_are(r@, config_fields_spec(PrimitiveNodeKind::Math)),
{
    let ghost o0 = seq![("add"@, "Add"@), ("subtract"@, "Subtract"@), ("multiply"@, "Multiply"@), ("divide"@, "Divide"@), ("modulo"@, "Modulo"@)];
    let f0 = enum_config("operator", "Operator", "add", vec![("add", "Add"), ("subtract", "Subtract"), ("multiply", "Multiply"), ("divide", "Divide"), ("modulo", "Modulo")], Ghost(o0));
    let f1 = optional_count_config("num_inputs", "Num Inputs", 2);
    let f2 = value_type_config_field("TNumeric", true);
    let r = vec![f0, f1, f2];
    r
}

fn function_fields() -> (r: Vec<ANodeConfigFieldDecl>)
    ensures
        fields_are(r@, config_fields_spec(PrimitiveNodeKind::Function)),
{
    let ghost o0 = seq![("sqrt"@, "Sqrt"@), ("log"@, "Log"@), ("log10"@, "Log10"@), ("exp"@, "Exp"@), ("abs"@, "Abs"@), ("floor"@, "Floor"@), ("ceil"@, "Ceil"@), ("round"@, "Round"@), ("sin"@, "Sin"@), ("cos"@, "Cos"@), ("tan"@, "Tan"@), ("asin"@, "Asin"@), ("acos"@, "Acos"@), ("atan"@, "Atan"@), ("atan2"@, "Atan2"@)];
    let f0 = enum_config("function", "Function", "sqrt", vec![("sqrt", "Sqrt"), ("log", "Log"), ("log10", "Log10"), ("exp", "Exp"), ("abs", "Abs"), ("floor", "Floor"), ("ceil", "Ceil"), ("round", "Round"), ("sin", "Sin"), ("cos", "Cos"), ("tan", "Tan"), ("asin", "Asin"), ("acos", "Acos"), ("atan", "Atan"), ("atan2", "Atan2")], Ghost(o0));
    let r = vec![f0];
    r
}

fn smooth_filter_fields() -> (r: Vec<ANodeConfigFieldDecl>)
    ensures
        fields_are(r@, config_fields_spec(PrimitiveNodeKind::SmoothFilter)),
{
    let ghost o0 = seq![("one_euro"@, "One Euro"@), ("sma"@, "SMA"@), ("damping"@, "Damping"@), ("savitzky_golay"@, "Savitzky-Golay"@), ("median"@, "Median"@)];
    let f0 = enum_config("method", "Method", "one_euro", vec![("one_euro", "One Euro"), ("sma", "SMA"), ("damping", "Damping"), ("savitzky_golay", "Savitzky-Golay"), ("median", "Median")], Ghost(o0));
    let r = vec![f0];
    r
}

fn one_minus_fields() -> (r: Vec<ANodeConfigFieldDecl>)
    ensures
        fields_are(r@, config_fields_spec(PrimitiveNodeKind::OneMinus)),
{
    let f0 = value_type_config_field("TNumeric", true);
    let r = vec![f0];
    r
}

fn inverse_fields() -> (r: Vec<ANodeConfigFieldDecl>)
    ensures
        fields_are(r@, config_fields_spec(PrimitiveNodeKind::Inverse)),
{
    let f0 = value_type_config_field("TNumeric", true);
    let r = vec![f0];
    r
}

fn negate_fields() -> (r: Vec<ANodeConfigFieldDecl>)
    ensures
        fields_are(r@, config_fields_spec(PrimitiveNodeKind::Negate)),
{
    let f0 = value_type_config_field("TNumeric", true);
    let r = vec![f0];
    r
}

fn speed_fields() -> (r: Vec<ANodeConfigFieldDecl>)
    ensures
        fields_are(r@, config_fields_spec(PrimitiveNodeKind::Speed)),
{
    let f0 = plain_config("window_seconds", "Window", RuntimeValue::Float(0x3fb9_9999_9999_999au64), Some("Smoothing window in seconds for the speed estimate."), None, Ghost(DefaultSpec::Float(0x3fb9_9999_9999_999au64)));
    let r = vec![f0];
    r
}

fn lfo_fields() -> (r: Vec<ANodeConfigFieldDecl>)
    ensures
        fields_are(r@, config_fields_spec(PrimitiveNodeKind::Lfo)),
{
    let ghost o0 = seq![("sine"@, "Sine"@), ("triangle"@, "Triangle"@), ("saw"@, "Saw"@), ("square"@, "Square"@), ("pulse"@, "Pulse"@)];
    let f0 = enum_config("shape", "Shape", "sine", vec![("sine", "Sine"), ("triangle", "Triangle"), ("saw", "Saw"), ("square", "Square"), ("pulse", "Pulse")], Ghost(o0));
    let f1 = plain_config("frequency", "Frequency", RuntimeValue::Float(F64_ONE_BITS), None, None, Ghost(DefaultSpec::Float(F64_ONE_BITS)));
    let f2 = plain_config("update_rate", "Update Rate", RuntimeValue::Float(0x404e_0000_0000_0000u64), None, None, Ghost(DefaultSpec::Float(0x404e_0000_0000_0000u64)));
    let f3 = plain_config("minimum", "Minimum", RuntimeValue::Float(0u64), None, None, Ghost(DefaultSpec::Float(0u64)));
    let f4 = plain_config("maximum", "Maximum", RuntimeValue::Float(F64_ONE_BITS), None, None, Ghost(DefaultSpec::Float(F64_ONE_BITS)));
    let r = vec![f0, f1, f2, f3, f4];
    r
}

fn noise_generator_fields() -> (r: Vec<ANodeConfigFieldDecl>)
    ensures
        fields_are(r@, config_fields_spec(PrimitiveNodeKind::NoiseGenerator)),
{
    let ghost o0 = seq![("random"@, "Random"@), ("perlin"@, "Perlin"@), ("simplex"@, "Simplex"@), ("brownian"@, "Brownian"@), ("cellular"@, "Cellular"@), ("fractal"@, "Fractal"@)];
    let f0 = enum_config("algorithm", "Algorithm", "random", vec![("random", "Random"), ("perlin", "Perlin"), ("simplex", "Simplex"), ("brownian", "Brownian"), ("cellular", "Cellular"), ("fractal", "Fractal")], Ghost(o0));
    let f1 = plain_config("seed", "Seed", RuntimeValue::Int(0), None, None, Ghost(DefaultSpec::Int(0)));
    let f2 = plain_config("scale", "Scale", RuntimeValue::Float(F64_ONE_BITS), None, None, Ghost(DefaultSpec::Float(F64_ONE_BITS)));
    let r = vec![f0, f1, f2];
    r
}

fn metronome_fields() -> (r: Vec<ANodeConfigFieldDecl>)
    ensures
        fields_are(r@, config_fields_spec(PrimitiveNodeKind::Metronome)),
{
    let ghost o0 = seq![("frequency"@, "Frequency"@), ("bpm"@, "BPM"@), ("time"@, "Time"@)];
    let f0 = enum_config("mode", "Mode", "bpm", vec![("frequency", "Frequency"), ("bpm", "BPM"), ("time", "Time")], Ghost(o0));
    let f1 = plain_config("value", "Value", RuntimeValue::Float(0x405e_0000_0000_0000u64), None, None, Ghost(DefaultSpec::Float(0x405e_0000_0000_0000u64)));
    let f2 = plain_config("on_ratio", "On Ratio", RuntimeValue::Float(0x3fe0_0000_0000_0000u64), None, None, Ghost(DefaultSpec::Float(0x3fe0_0000_0000_0000u64)));
    let f3 = plain_config("randomness", "Randomness", RuntimeValue::Float(0u64), None, None, Ghost(DefaultSpec::Float(0u64)));
    let r = vec![f0, f1, f2, f3];
    r
}

fn coordinate_system_fields() -> (r: Vec<ANodeConfigFieldDecl>)
    ensures
        fields_are(r@, config_fields_spec(PrimitiveNodeKind::CoordinateSystem)),
{
    let ghost o0 = seq![("cartesian_to_polar"@, "Cartesian To Polar"@), ("polar_to_cartesian"@, "Polar To Cartesian"@)];
    let f0 = enum_config("mode", "Mode", "cartesian_to_polar", vec![("cartesian_to_polar", "Cartesian To Polar"), ("polar_to_cartesian", "Polar To Cartesian")], Ghost(o0));
    let r = vec![f0];
    r
}

fn angle_conversion_fields() -> (r: Vec<ANodeConfigFieldDecl>)
    ensures
        fields_are(r@, config_fields_spec(PrimitiveNodeKind::AngleConversion)),
{
    let ghost o0 = seq![("degrees_to_radians"@, "Degrees To Radians"@), ("radians_to_degrees"@, "Radians To Degrees"@)];
    let f0 = enum_config("mode", "Mode", "degrees_to_radians", vec![("degrees_to_radians", "Degrees To Radians"), ("radians_to_degrees", "Radians To Degrees")], Ghost(o0));
    let r = vec![f0];
    r
}

fn gradient_sampler_fields() -> (r: Vec<ANodeConfigFieldDecl>)
    ensures
        fields_are(r@, config_fields_spec(PrimitiveNodeKind::GradientSampler)),
{
    let f0 = plain_config("gradient", "Gradient", RuntimeValue::String("#000000 0, #ffffff 1".to_owned()), Some("Comma-separated color stops, for example `#000000 0, #ffffff 1`."), None, Ghost(DefaultSpec::Text("#000000 0, #ffffff 1"@)));
    let r = vec![f0];
    r
}

fn convert_to_color_fields() -> (r: Vec<ANodeConfigFieldDecl>)
    ensures
        fields_are(r@, config_fields_spec(PrimitiveNodeKind::ConvertToColor)),
{
    let ghost o0 = seq![("rgba"@, "RGBA"@), ("hsva"@, "HSVA"@), ("hsla"@, "HSLA"@), ("cmyka"@, "CMYK"@)];
    let f0 = enum_config("mode", "Mode", "rgba", vec![("rgba", "RGBA"), ("hsva", "HSVA"), ("hsla", "HSLA"), ("cmyka", "CMYK")], Ghost(o0));
    let r = vec![f0];
    r
}

fn extract_color_fields() -> (r: Vec<ANodeConfigFieldDecl>)
    ensures
        fields_are(r@, config_fields_spec(PrimitiveNodeKind::ExtractColor)),
{
    let ghost o0 = seq![("rgba"@, "RGBA"@), ("hsva"@, "HSVA"@), ("hsla"@, "HSLA"@), ("cmyka"@, "CMYK"@)];
    let f0 = enum_config("mode", "Mode", "rgba", vec![("rgba", "RGBA"), ("hsva", "HSVA"), ("hsla", "HSLA"), ("cmyka", "CMYK")], Ghost(o0));
    let r = vec![f0];
    r
}

fn concatenate_fields() -> (r: Vec<ANodeConfigFieldDecl>)
    ensures
        fields_are(r@, config_fields_spec(PrimitiveNodeKind::Concatenate)),
{
    let f0 = optional_count_config("num_inputs", "Num Inputs", 2);
    let f1 = plain_config("prefix", "Prefix", RuntimeValue::String("".to_owned()), None, None, Ghost(DefaultSpec::Text(""@)));
    let f2 = plain_config("suffix", "Suffix", RuntimeValue::String("".to_owned()), None, None, Ghost(DefaultSpec::Text(""@)));
    let f3 = plain_config("separator", "Separator", RuntimeValue::String("".to_owned()), None, None, Ghost(DefaultSpec::Text(""@)));
    let r = vec![f0, f1, f2, f3];
    r
}

fn convert_to_string_fields() -> (r: Vec<ANodeConfigFieldDecl>)
    ensures
        fields_are(r@, config_fields_spec(PrimitiveNodeKind::ConvertToString)),
{
    let ghost o0 = seq![("decimal"@, "Decimal"@), ("hexadecimal"@, "Hexadecimal"@), ("time"@, "Time"@), ("compact"@, "Compact"@)];
    let f0 = enum_config("format", "Format", "decimal", vec![("decimal", "Decimal"), ("hexadecimal", "Hexadecimal"), ("time", "Time"), ("compact", "Compact")], Ghost(o0));
    let r = vec![f0];
    r
}

fn split_fields() -> (r: Vec<ANodeConfigFieldDecl>)
    ensures
        fields_are(r@, config_fields_spec(PrimitiveNodeKind::Split)),
{
    let f0 = plain_config("separator", "Separator", RuntimeValue::String(",".to_owned()), None, None, Ghost(DefaultSpec::Text(","@)));
    let f1 = plain_config("trim", "Trim", RuntimeValue::Bool(true), None, None, Ghost(DefaultSpec::Bool(true)));
    let f2 = plain_config("omit_empty", "Omit Empty", RuntimeValue::Bool(false), None, None, Ghost(DefaultSpec::Bool(false)));
    let r = vec![f0, f1, f2];
    r
}

fn boolean_operation_fields() -> (r: Vec<ANodeConfigFieldDecl>)
    ensures
        fields_are(r@, config_fields_spec(PrimitiveNodeKind::BooleanOperation)),
{
    let ghost o0 = seq![("and"@, "AND"@), ("or"@, "OR"@), ("xor"@, "XOR"@)];
    let f0 = enum_config("operator", "Operator", "and", vec![("and", "AND"), ("or", "OR"), ("xor", "XOR")], Ghost(o0));
    let r = vec![f0];
    r
}

fn compare_fields() -> (r: Vec<ANodeConfigFieldDecl>)
    ensures
        fields_are(r@, config_fields_spec(PrimitiveNodeKind::Compare)),
{
    let ghost o0 = seq![("equal"@, "Equal"@), ("not_equal"@, "Not Equal"@), ("greater"@, "Greater"@), ("greater_or_equal"@, "Greater Or Equal"@), ("less"@, "Less"@), ("less_or_equal"@, "Less Or Equal"@), ("longer"@, "Longer"@), ("shorter"@, "Shorter"@), ("contains"@, "Contains"@), ("brighter"@, "Brighter"@), ("darker"@, "Darker"@)];
    let f0 = enum_config("comparator", "Comparator", "equal", vec![("equal", "Equal"), ("not_equal", "Not Equal"), ("greater", "Greater"), ("greater_or_equal", "Greater Or Equal"), ("less", "Less"), ("less_or_equal", "Less Or Equal"), ("longer", "Longer"), ("shorter", "Shorter"), ("contains", "Contains"), ("brighter", "Brighter"), ("darker", "Darker")], Ghost(o0));
    let f1 = value_type_config_field("TValue", false);
    let r = vec![f0, f1];
    r
}

fn trigger_on_off_fields() -> (r: Vec<ANodeConfigFieldDecl>)
    ensures
        fields_are(r@, config_fields_spec(PrimitiveNodeKind::TriggerOnOff)),
{
    let f0 = plain_config("toggle", "Toggle", RuntimeValue::Bool(false), Some("Alternate On and Off triggers on rising input edges."), None, Ghost(DefaultSpec::Bool(false)));
    let r = vec![f0];
    r
}

impl PrimitiveNodeDeclaration {
    /// The config fields of this node type, as [`config_fields_spec`] says.
    pub fn config_fields(&self) -> (r: Vec<ANodeConfigFieldDecl>)
        ensures
            fields_are(r@, config_fields_spec(self.kind())),
    {
        match self.kind() {
            PrimitiveNodeKind::Constant => constant_fields(),
            PrimitiveNodeKind::Property => property_fields(),
            PrimitiveNodeKind::Math => math_fields(),
            PrimitiveNodeKind::Function => function_fields(),
            PrimitiveNodeKind::SmoothFilter => smooth_filter_fields(),
            PrimitiveNodeKind::OneMinus => one_minus_fields(),
            PrimitiveNodeKind::Inverse => inverse_fields(),
            PrimitiveNodeKind::Negate => negate_fields(),
            PrimitiveNodeKind::Speed => speed_fields(),
            PrimitiveNodeKind::Lfo => lfo_fields(),
            PrimitiveNodeKind::NoiseGenerator => noise_generator_fields(),
            PrimitiveNodeKind::Metronome => metronome_fields(),
            PrimitiveNodeKind::CoordinateSystem => coordinate_system_fields(),
            PrimitiveNodeKind::AngleConversion => angle_conversion_fields(),
            PrimitiveNodeKind::GradientSampler => gradient_sampler_fields(),
            PrimitiveNodeKind::ConvertToColor => convert_to_color_fields(),
            PrimitiveNodeKind::ExtractColor => extract_color_fields(),
            PrimitiveNodeKind::Concatenate => concatenate_fields(),
            PrimitiveNodeKind::ConvertToString => convert_to_string_fields(),
            PrimitiveNodeKind::Split => split_fields(),
            PrimitiveNodeKind::BooleanOperation => boolean_operation_fields(),
            PrimitiveNodeKind::Compare => compare_fields(),
            PrimitiveNodeKind::TriggerOnOff => trigger_on_off_fields(),
            _ => Vec::new(),
        }
    }
}


/// The fields that follow the smoothing method: a window for the windowed
/// methods, mass and friction for damping, cutoff and beta otherwise.
pub open spec fn smoothing_extra(method: Seq<char>) -> Seq<FieldSpec> {
    if method == "sma"@ || method == "savitzky_golay"@ || method == "median"@ {
        seq![
            plain_field(
                "window"@,
                "Window"@,
                DefaultSpec::Int(5),
                Some("Number of samples retained by the filter."@),
                None,
            ),
        ]
    } else if method == "damping"@ {
        seq![
            plain_field("mass"@, "Mass"@, DefaultSpec::Float(F64_ONE_BITS), None, None),
            plain_field("friction"@, "Friction"@, DefaultSpec::Float(0x4020_0000_0000_0000u64), None, None),
        ]
    } else {
        seq![
            plain_field("min_cutoff"@, "Min Cutoff"@, DefaultSpec::Float(F64_ONE_BITS), None, None),
            plain_field("beta"@, "Beta"@, DefaultSpec::Float(0u64), None, None),
        ]
    }
}

/// The fields that follow the noise algorithm: octaves, persistence and
/// lacunarity for the layered algorithms, jitter for the cellular one.
pub open spec fn noise_extra(algorithm: Seq<char>) -> Seq<FieldSpec> {
    if algorithm == "brownian"@ || algorithm == "fractal"@ {
        seq![
            plain_field("octaves"@, "Octaves"@, DefaultSpec::Int(4), None, None),
            plain_field("persistence"@, "Persistence"@, DefaultSpec::Float(0x3fe0_0000_0000_0000u64), None, None),
            plain_field("lacunarity"@, "Lacunarity"@, DefaultSpec::Float(0x4000_0000_0000_0000u64), None, None),
        ]
    } else if algorithm == "cellular"@ {
        seq![plain_field("jitter"@, "Jitter"@, DefaultSpec::Float(F64_ONE_BITS), None, None)]
    } else {
        seq![]
    }
}

/// The config fields of a node of kind `k` with config `entries`: the
/// fields of the kind, followed, for smoothing, text formatting and noise,
/// by those that the chosen method needs.
pub open spec fn config_fields_for_spec(k: PrimitiveNodeKind, entries: Seq<(Seq<char>, RuntimeValue)>) -> Seq<
    FieldSpec,
> {
    match k {
        PrimitiveNodeKind::SmoothFilter => config_fields_spec(k) + smoothing_extra(
            config_text(entries, "method"@, "one_euro"@),
        ),
        PrimitiveNodeKind::ConvertToString => {
            let format = config_text(entries, "format"@, "decimal"@);
            if format == "decimal"@ || format == "time"@ {
                config_fields_spec(k).push(plain_field("decimals"@, "Decimals"@, DefaultSpec::Int(3), None, None))
            } else {
                config_fields_spec(k)
            }
        },
        PrimitiveNodeKind::NoiseGenerator => config_fields_spec(k) + noise_extra(
            config_text(entries, "algorithm"@, "random"@),
        ),
        _ => config_fields_spec(k),
    }
}

fn append_fields(r: &mut Vec<ANodeConfigFieldDecl>, extra: Vec<ANodeConfigFieldDecl>, a: Ghost<Seq<FieldSpec>>, b: Ghost<Seq<FieldSpec>>)
    requires
        fields_are(old(r)@, a@),
        fields_are(extra@, b@),
    ensures
        fields_are(final(r)@, a@ + b@),
{
    let ghost added = extra@;
    let mut extra = extra;
    r.append(&mut extra);
    proof {
        assert forall|i: int| 0 <= i < (a@ + b@).len() implies field_is(#[trigger] r@[i], (a@ + b@)[i]) by {
            if i >= a@.len() {
                assert(r@[i] == added[i - a@.len()]);
            }
        }
    }
}

impl PrimitiveNodeDeclaration {
    /// The config fields of this node type for `instance`, as
    /// [`config_fields_for_spec`] says.
    pub fn config_fields_for(&self, instance: &ANodeInstance) -> (r: Vec<ANodeConfigFieldDecl>)
        ensures
            fields_are(r@, config_fields_for_spec(self.kind(), instance.config.entries())),
    {
        proof {
            reveal_strlit("sma");
            reveal_strlit("savitzky_golay");
            reveal_strlit("median");
            reveal_strlit("damping");
            reveal_strlit("decimal");
            reveal_strlit("time");
            reveal_strlit("brownian");
            reveal_strlit("fractal");
            reveal_strlit("cellular");
        }
        match self.kind() {
            PrimitiveNodeKind::SmoothFilter => {
                let mut fields = self.config_fields();
                let method = config_string(instance, "method", "one_euro");
                let m = method.as_str();
                let ghost extra_spec = smoothing_extra(m@);
                let extra = if crate::text::str_eq(m, "sma") || crate::text::str_eq(m, "savitzky_golay")
                    || crate::text::str_eq(m, "median") {
                    let f0 = plain_config(
                        "window",
                        "Window",
                        RuntimeValue::Int(5),
                        Some("Number of samples retained by the filter."),
                        None,
                        Ghost(DefaultSpec::Int(5)),
                    );
                    vec![f0]
                } else if crate::text::str_eq(m, "damping") {
                    let f0 = plain_config("mass", "Mass", RuntimeValue::Float(F64_ONE_BITS), None, None, Ghost(DefaultSpec::Float(F64_ONE_BITS)));
                    let f1 = plain_config(
                        "friction",
                        "Friction",
                        RuntimeValue::Float(0x4020_0000_0000_0000u64),
                        None,
                        None,
                        Ghost(DefaultSpec::Float(0x4020_0000_0000_0000u64)),
                    );
                    vec![f0, f1]
                } else {
                    let f0 = plain_config("min_cutoff", "Min Cutoff", RuntimeValue::Float(F64_ONE_BITS), None, None, Ghost(DefaultSpec::Float(F64_ONE_BITS)));
                    let f1 = plain_config("beta", "Beta", RuntimeValue::Float(0u64), None, None, Ghost(DefaultSpec::Float(0u64)));
                    vec![f0, f1]
                };
                append_fields(&mut fields, extra, Ghost(config_fields_spec(PrimitiveNodeKind::SmoothFilter)), Ghost(extra_spec));
                fields
            },
            PrimitiveNodeKind::ConvertToString => {
                let mut fields = self.config_fields();
                let format = config_string(instance, "format", "decimal");
                let f = format.as_str();
                if crate::text::str_eq(f, "decimal") || crate::text::str_eq(f, "time") {
                    let f0 = plain_config("decimals", "Decimals", RuntimeValue::Int(3), None, None, Ghost(DefaultSpec::Int(3)));
                    let ghost before = fields@;
                    fields.push(f0);
                    proof {
                        assert forall|i: int| 0 <= i < fields@.len() implies field_is(
                            #[trigger] fields@[i],
                            config_fields_for_spec(PrimitiveNodeKind::ConvertToString, instance.config.entries())[i],
                        ) by {
                            if i < before.len() {
                                assert(fields@[i] == before[i]);
                            }
                        }
                    }
                }
                fields
            },
            PrimitiveNodeKind::NoiseGenerator => {
                let mut fields = self.config_fields();
                let algorithm = config_string(instance, "algorithm", "random");
                let a = algorithm.as_str();
                let ghost extra_spec = noise_extra(a@);
                let extra = if crate::text::str_eq(a, "brownian") || crate::text::str_eq(a, "fractal") {
                    let f0 = plain_config("octaves", "Octaves", RuntimeValue::Int(4), None, None, Ghost(DefaultSpec::Int(4)));
                    let f1 = plain_config(
                        "persistence",
                        "Persistence",
                        RuntimeValue::Float(0x3fe0_0000_0000_0000u64),
                        None,
                        None,
                        Ghost(DefaultSpec::Float(0x3fe0_0000_0000_0000u64)),
                    );
                    let f2 = plain_config(
                        "lacunarity",
                        "Lacunarity",
                        RuntimeValue::Float(0x4000_0000_0000_0000u64),
                        None,
                        None,
                        Ghost(DefaultSpec::Float(0x4000_0000_0000_0000u64)),
                    );
                    vec![f0, f1, f2]
                } else if crate::text::str_eq(a, "cellular") {
                    let f0 = plain_config("jitter", "Jitter", RuntimeValue::Float(F64_ONE_BITS), None, None, Ghost(DefaultSpec::Float(F64_ONE_BITS)));
                    vec![f0]
                } else {
                    Vec::new()
                };
                append_fields(&mut fields, extra, Ghost(config_fields_spec(PrimitiveNodeKind::NoiseGenerator)), Ghost(extra_spec));
                fields
            },
            _ => self.config_fields(),
        }
    }
}

} // verus!
