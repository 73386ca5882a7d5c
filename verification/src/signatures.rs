//! The sockets of the built-in node kinds, and the config they are read from.
use vstd::prelude::*;

use crate::formula::{FormulaPropertyDecl, FormulaPropertySchema};
use crate::graph::F64_ONE_BITS;
use crate::graph::ANodeInstance;
use crate::ids::FormulaPropertyId;
use crate::library::{PrimitiveNodeDeclaration, PrimitiveNodeKind};
use crate::ordered::{has_key, value_of};
use crate::registry::ValueTypeRegistry;
use crate::text::{decimal_text, with_decimal};
use crate::indexmap_specs::{constraint_entries, constraint_map_insert, constraint_map_new};
use crate::node::{ANodeSignature, InputSocketDecl, OutputSocketDecl};
use crate::typing::{TypeBinding, TypeBindingSource, TypeBindings, TypeConstraint, TypeVar};
use indexmap::IndexMap;
use crate::value::{value_type_of, RuntimeValue, ValueTypeId};

verus! {

/// The uppercase mapping of a character, as std's `char::to_uppercase`
/// yields it (one or more characters).
pub uninterp spec fn uppercase_of(c: char) -> Seq<char>;

/// Calls `char::to_uppercase` from std and collects what it yields: an
/// ASCII lowercase letter gives its uppercase letter, any other ASCII
/// character gives itself. Beyond ASCII the mapping follows Unicode and is
/// left unstated.
#[verifier::external_body]
fn char_uppercase(c: char) -> (r: Vec<char>)
    ensures
        r@ == uppercase_of(c),
        'a' <= c <= 'z' ==> r@ == seq![((c as int) - 32) as char],
        (c as int) < 128 && !('a' <= c <= 'z') ==> r@ == seq![c],
{
    c.to_uppercase().collect()
}

/// Calls `String::from_iter` from std on a list of characters: the string
/// of those characters in order.
#[verifier::external_body]
fn string_from_chars(chars: Vec<char>) -> (r: String)
    ensures
        r@ == chars@,
{
    chars.into_iter().collect()
}

/// The title of the first `n` characters of an identifier, and whether the
/// last of them is inside a word.
pub open spec fn title_prefix(id: Seq<char>, n: nat) -> (Seq<char>, bool)
    decreases n,
{
    if n == 0 || n > id.len() {
        (Seq::empty(), false)
    } else {
        let (out, in_word) = title_prefix(id, (n - 1) as nat);
        let c = id[n - 1];
        if c == '_' {
            (out, false)
        } else if in_word {
            (out.push(c), true)
        } else if out.len() > 0 {
            (out.push(' ') + uppercase_of(c), true)
        } else {
            (out + uppercase_of(c), true)
        }
    }
}

/// The title of an identifier: its words between underscores, each with its
/// first character in uppercase, joined by single spaces; `in_min` gives
/// `In Min`.
pub open spec fn title_spec(id: Seq<char>) -> Seq<char> {
    title_prefix(id, id.len()).0
}

/// The title of an identifier, as [`title_spec`] says.
pub fn title(id: &str) -> (r: String)
    ensures
        r@ == title_spec(id@),
{
    let n = id.unicode_len();
    let mut out: Vec<char> = Vec::new();
    let mut in_word = false;
    let mut i: usize = 0;
    while i < n
        invariant
            i <= n,
            n == id@.len(),
            (out@, in_word) == title_prefix(id@, i as nat),
        decreases n - i,
    {
        let c = id.get_char(i);
        if c == '_' {
            in_word = false;
        } else if in_word {
            out.push(c);
        } else {
            if out.len() > 0 {
                out.push(' ');
            }
            let mut upper = char_uppercase(c);
            let ghost before = out@;
            out.append(&mut upper);
            proof {
                assert(out@ == before + uppercase_of(c));
            }
            in_word = true;
        }
        i = i + 1;
    }
    proof {
        assert(title_prefix(id@, n as nat).0 == out@);
    }
    string_from_chars(out)
}

/// The number of numbered inputs of a node: the configured count, kept
/// between 1 and 64, or `fallback` when none is configured.
pub open spec fn input_count_spec(configured: Option<i64>, fallback: nat) -> nat {
    match configured {
        None => if fallback < 1 {
            1
        } else if fallback > 64 {
            64
        } else {
            fallback
        },
        Some(v) => if v < 1 {
            1
        } else if v > 64 {
            64
        } else {
            v as nat
        },
    }
}

/// The number of numbered inputs, as [`input_count_spec`] says.
/// `configured` is the node's `num_inputs` config field read as an integer
/// (a float truncated toward zero), if that field holds a number.
pub fn input_count(configured: Option<i64>, fallback: usize) -> (r: usize)
    ensures
        r == input_count_spec(configured, fallback as nat),
        1 <= r <= 64,
{
    let value: i64 = match configured {
        Some(v) => v,
        None => if fallback > 64 {
            64
        } else {
            fallback as i64
        },
    };
    if value < 1 {
        1
    } else if value > 64 {
        64
    } else {
        value as usize
    }
}

/// The text of config field `field`, or `fallback` when the field does not
/// hold a string.
pub open spec fn config_text(entries: Seq<(Seq<char>, RuntimeValue)>, field: Seq<char>, fallback: Seq<char>) -> Seq<
    char,
> {
    if has_key(entries, field) {
        match value_of(entries, field) {
            RuntimeValue::String(s) => s@,
            _ => fallback,
        }
    } else {
        fallback
    }
}

/// The text of config field `field` of `instance`, as [`config_text`] says.
pub fn config_string(instance: &ANodeInstance, field: &str, fallback: &str) -> (r: String)
    ensures
        r@ == config_text(instance.config.entries(), field@, fallback@),
{
    match instance.config.get(field) {
        Some(RuntimeValue::String(value)) => value.clone(),
        _ => fallback.to_owned(),
    }
}

/// The color model that color nodes convert from or to.
#[derive(Clone, Copy, Debug, PartialEq, Eq, Structural)]
pub enum ColorMode {
    Rgba,
    Hsva,
    Hsla,
    Cmyk,
}

/// The color model named by the `mode` config field: `hsva`, `hsla`, `cmyka`
/// or `cmyk`, and RGBA for anything else.
pub open spec fn color_mode_spec(entries: Seq<(Seq<char>, RuntimeValue)>) -> ColorMode {
    let mode = config_text(entries, "mode"@, "rgba"@);
    if mode == "hsva"@ {
        ColorMode::Hsva
    } else if mode == "hsla"@ {
        ColorMode::Hsla
    } else if mode == "cmyka"@ || mode == "cmyk"@ {
        ColorMode::Cmyk
    } else {
        ColorMode::Rgba
    }
}

impl ColorMode {
    /// The color model configured on `instance`.
    pub fn from_config(instance: &ANodeInstance) -> (r: ColorMode)
        ensures
            r == color_mode_spec(instance.config.entries()),
    {
        let mode = config_string(instance, "mode", "rgba");
        let mode = mode.as_str();
        proof {
            reveal_strlit("hsva");
            reveal_strlit("hsla");
            reveal_strlit("cmyka");
            reveal_strlit("cmyk");
            reveal_strlit("rgba");
        }
        if crate::text::str_eq(mode, "hsva") {
            ColorMode::Hsva
        } else if crate::text::str_eq(mode, "hsla") {
            ColorMode::Hsla
        } else if crate::text::str_eq(mode, "cmyka") || crate::text::str_eq(mode, "cmyk") {
            ColorMode::Cmyk
        } else {
            ColorMode::Rgba
        }
    }
}


/// A constraint on a socket or a type variable, over plain values.
pub enum ConstraintSpec {
    Any,
    Exact(Seq<char>),
    Primitive,
    NumericLike,
    Generic(Seq<char>),
}

/// Whether constraint `c` is the one `s` describes.
pub open spec fn constraint_is(c: TypeConstraint, s: ConstraintSpec) -> bool {
    match s {
        ConstraintSpec::Any => c is Any,
        ConstraintSpec::Exact(t) => c matches TypeConstraint::Exact(v) && v@ == t,
        ConstraintSpec::Primitive => c is Primitive,
        ConstraintSpec::NumericLike => c is NumericLike,
        ConstraintSpec::Generic(n) => c matches TypeConstraint::Generic(v) && v@ == n,
    }
}

/// An input socket over plain values: identifier, label, constraint and
/// default value.
pub type InputSpec = (Seq<char>, Seq<char>, ConstraintSpec, Option<RuntimeValue>);

/// An output socket over plain values: identifier, label and constraint.
pub type OutputSpec = (Seq<char>, Seq<char>, ConstraintSpec);

/// A type variable over plain values, with the constraint on it if any; it
/// is bound to `float` by default.
pub type GenericSpec = Option<(Seq<char>, Option<ConstraintSpec>)>;

/// Whether input declaration `d` is the one `s` describes.
pub open spec fn input_is(d: InputSocketDecl, s: InputSpec) -> bool {
    &&& d.id@ == s.0
    &&& d.label@ == s.1
    &&& constraint_is(d.constraint, s.2)
    &&& d.default_value == s.3
}

/// Whether output declaration `d` is the one `s` describes.
pub open spec fn output_is(d: OutputSocketDecl, s: OutputSpec) -> bool {
    &&& d.id@ == s.0
    &&& d.label@ == s.1
    &&& constraint_is(d.constraint, s.2)
}

/// Whether the default bindings and constraints of `sig` are those `g`
/// describes.
pub open spec fn generics_are(sig: ANodeSignature, g: GenericSpec) -> bool {
    match g {
        None => sig.default_bindings.entries().len() == 0 && sig.constraints().len() == 0,
        Some((v, c)) => {
            &&& sig.default_bindings.entries().len() == 1
            &&& sig.default_bindings.entries()[0].0 == v
            &&& sig.default_bindings.entries()[0].1.value_type@ == "float"@
            &&& sig.default_bindings.entries()[0].1.source == TypeBindingSource::Default
            &&& match c {
                None => sig.constraints().len() == 0,
                Some(cs) => sig.constraints().len() == 1 && sig.constraints()[0].0 == v && constraint_is(
                    sig.constraints()[0].1,
                    cs,
                ),
            }
        },
    }
}

/// Whether `sig` declares exactly the inputs `ins`, the outputs `outs` and
/// the type variable `g`, in order.
pub open spec fn declares(sig: ANodeSignature, ins: Seq<InputSpec>, outs: Seq<OutputSpec>, g: GenericSpec) -> bool {
    &&& sig.inputs@.len() == ins.len()
    &&& forall|i: int| 0 <= i < ins.len() ==> input_is(#[trigger] sig.inputs@[i], ins[i])
    &&& sig.outputs@.len() == outs.len()
    &&& forall|i: int| 0 <= i < outs.len() ==> output_is(#[trigger] sig.outputs@[i], outs[i])
    &&& generics_are(sig, g)
}

/// The constraint of exactly type `id`.
pub fn exact(id: &str) -> (r: TypeConstraint)
    ensures
        constraint_is(r, ConstraintSpec::Exact(id@)),
{
    TypeConstraint::Exact(ValueTypeId::new(id))
}

/// Default bindings with `variable` bound to `float`, and the constraint on
/// it if any.
fn generic_parts(variable: &str, constraint: Option<TypeConstraint>) -> (r: (
    TypeBindings,
    IndexMap<TypeVar, TypeConstraint>,
))
    ensures
        r.0.entries() == seq![
            (variable@, TypeBinding { value_type: r.0.entries()[0].1.value_type, source: TypeBindingSource::Default }),
        ],
        r.0.entries()[0].1.value_type@ == "float"@,
        constraint matches Some(c) ==> constraint_entries(r.1) == seq![(variable@, c)],
        constraint is None ==> constraint_entries(r.1).len() == 0,
{
    let mut bindings = TypeBindings::new();
    bindings.insert(TypeVar::new(variable), ValueTypeId::new("float"), TypeBindingSource::Default);
    let mut constraints = constraint_map_new();
    match constraint {
        Some(c) => {
            constraint_map_insert(&mut constraints, TypeVar::new(variable), c);
        },
        None => {},
    }
    (bindings, constraints)
}

/// The input `id` of type `float`, labelled with its title.
fn float_input(id: &str) -> (d: InputSocketDecl)
    ensures
        input_is(d, (id@, title_spec(id@), ConstraintSpec::Exact("float"@), None)),
{
    let label = title(id);
    InputSocketDecl::new(id, label.as_str(), exact("float"))
}

/// The output `id` with `constraint`, labelled with its title.
fn titled_output(id: &str, constraint: TypeConstraint) -> (d: OutputSocketDecl)
    ensures
        d.id@ == id@,
        d.label@ == title_spec(id@),
        d.constraint == constraint,
{
    let label = title(id);
    OutputSocketDecl::new(id, label.as_str(), constraint)
}

/// Inputs of type `float` labelled with their titles, and one such output.
pub open spec fn float_sockets(inputs: Seq<&str>, output: &str) -> (Seq<InputSpec>, Seq<OutputSpec>) {
    (
        inputs.map_values(|id: &str| (id@, title_spec(id@), ConstraintSpec::Exact("float"@), None::<RuntimeValue>)),
        seq![(output@, title_spec(output@), ConstraintSpec::Exact("float"@))],
    )
}

/// A signature of `float` inputs and one `float` output.
fn float_signature(inputs: Vec<&str>, output: &str) -> (r: ANodeSignature)
    ensures
        declares(r, float_sockets(inputs@, output).0, float_sockets(inputs@, output).1, None),
{
    let mut sig = ANodeSignature::new();
    let mut i: usize = 0;
    while i < inputs.len()
        invariant
            i <= inputs@.len(),
            sig.inputs@.len() == i,
            forall|j: int| 0 <= j < i ==> input_is(#[trigger] sig.inputs@[j], float_sockets(inputs@, output).0[j]),
            sig.outputs@.len() == 0,
            sig.default_bindings.entries().len() == 0,
            sig.constraints().len() == 0,
        decreases inputs@.len() - i,
    {
        sig.inputs.push(float_input(inputs[i]));
        i = i + 1;
    }
    sig.outputs.push(titled_output(output, exact("float")));
    sig
}

/// Inputs and one output all of type variable `TNumeric`, labelled with
/// their titles.
pub open spec fn generic_numeric_sockets(inputs: Seq<&str>, output: &str) -> (Seq<InputSpec>, Seq<OutputSpec>) {
    (
        inputs.map_values(
            |id: &str| (id@, title_spec(id@), ConstraintSpec::Generic("TNumeric"@), None::<RuntimeValue>),
        ),
        seq![(output@, title_spec(output@), ConstraintSpec::Generic("TNumeric"@))],
    )
}

/// A signature whose sockets share the numeric type variable `TNumeric`,
/// bound to `float` by default.
fn generic_numeric_signature(inputs: Vec<&str>, output: &str) -> (r: ANodeSignature)
    ensures
        declares(
            r,
            generic_numeric_sockets(inputs@, output).0,
            generic_numeric_sockets(inputs@, output).1,
            Some(("TNumeric"@, Some(ConstraintSpec::NumericLike))),
        ),
{
    let mut sig = ANodeSignature::new();
    let mut i: usize = 0;
    while i < inputs.len()
        invariant
            i <= inputs@.len(),
            sig.inputs@.len() == i,
            forall|j: int|
                0 <= j < i ==> input_is(#[trigger] sig.inputs@[j], generic_numeric_sockets(inputs@, output).0[j]),
            sig.outputs@.len() == 0,
        decreases inputs@.len() - i,
    {
        let label = title(inputs[i]);
        sig.inputs.push(InputSocketDecl::new(inputs[i], label.as_str(), TypeConstraint::Generic(TypeVar::new("TNumeric"))));
        i = i + 1;
    }
    sig.outputs.push(titled_output(output, TypeConstraint::Generic(TypeVar::new("TNumeric"))));
    let (bindings, constraints) = generic_parts("TNumeric", Some(TypeConstraint::NumericLike));
    sig.default_bindings = bindings;
    sig.generic_constraints = constraints;
    sig
}

/// The numbered inputs `prefix1`, `prefix2`, ... labelled `label 1`,
/// `label 2`, ..., each with constraint `c`.
pub open spec fn numbered_spec(prefix: Seq<char>, label: Seq<char>, count: nat, c: ConstraintSpec) -> Seq<InputSpec> {
    Seq::new(
        count,
        |i: int| (prefix + decimal_text((i + 1) as nat), label + " "@ + decimal_text((i + 1) as nat), c, None::<RuntimeValue>),
    )
}

/// `count` numbered inputs; of type variable `TNumeric` when `generic`,
/// else of type `string`.
fn numbered_inputs(prefix: &str, label: &str, count: usize, generic: bool) -> (r: Vec<InputSocketDecl>)
    requires
        count <= 64,
    ensures
        r@.len() == count,
        forall|i: int|
            0 <= i < count ==> input_is(
                #[trigger] r@[i],
                numbered_spec(
                    prefix@,
                    label@,
                    count as nat,
                    if generic {
                        ConstraintSpec::Generic("TNumeric"@)
                    } else {
                        ConstraintSpec::Exact("string"@)
                    },
                )[i],
            ),
{
    let ghost c = if generic {
        ConstraintSpec::Generic("TNumeric"@)
    } else {
        ConstraintSpec::Exact("string"@)
    };
    let spaced = crate::text::concat3(label, " ", "");
    proof {
        reveal_strlit("");
        assert(spaced@ =~= label@ + " "@);
    }
    let mut r: Vec<InputSocketDecl> = Vec::new();
    let mut index: usize = 0;
    while index < count
        invariant
            index <= count,
            count <= 64,
            spaced@ == label@ + " "@,
            c == if generic {
                ConstraintSpec::Generic("TNumeric"@)
            } else {
                ConstraintSpec::Exact("string"@)
            },
            r@.len() == index,
            forall|i: int| 0 <= i < index ==> input_is(#[trigger] r@[i], numbered_spec(prefix@, label@, count as nat, c)[i]),
        decreases count - index,
    {
        let number = (index + 1) as u64;
        let id = with_decimal(prefix, number, "");
        let text = with_decimal(spaced.as_str(), number, "");
        proof {
            reveal_strlit("");
            assert(id@ =~= prefix@ + decimal_text(number as nat));
            assert(text@ =~= label@ + " "@ + decimal_text(number as nat));
        }
        let constraint = if generic {
            TypeConstraint::Generic(TypeVar::new("TNumeric"))
        } else {
            exact("string")
        };
        r.push(InputSocketDecl::new(id.as_str(), text.as_str(), constraint));
        proof {
            assert(input_is(r@[index as int], numbered_spec(prefix@, label@, count as nat, c)[index as int]));
        }
        index = index + 1;
    }
    r
}


/// What a node's signature may depend on beyond the node itself: the value
/// types, and the properties of the formula it belongs to.
pub struct SignatureCtx<'a> {
    pub value_types: &'a ValueTypeRegistry,
    pub properties: Option<&'a FormulaPropertySchema>,
}

/// The type a constant node emits: that of its `value` config field, `float`
/// when the field is not set.
pub open spec fn constant_type(entries: Seq<(Seq<char>, RuntimeValue)>) -> Seq<char> {
    if has_key(entries, "value"@) {
        value_type_of(value_of(entries, "value"@))
    } else {
        "float"@
    }
}

/// The property a property node names in its config: the stable identifier
/// of the reference in its `property_id` field, when that is not empty.
pub open spec fn referenced_property(entries: Seq<(Seq<char>, RuntimeValue)>) -> Option<Seq<char>> {
    if has_key(entries, "property_id"@) {
        match value_of(entries, "property_id"@) {
            RuntimeValue::Ref(r) => if r.stable_id@.len() > 0 {
                Some(r.stable_id@)
            } else {
                None
            },
            _ => None,
        }
    } else {
        None
    }
}

/// The type a property node emits: the declared type of the property it
/// names, `unit` when there is none.
pub open spec fn property_type(
    entries: Seq<(Seq<char>, RuntimeValue)>,
    properties: Option<Seq<(Seq<char>, FormulaPropertyDecl)>>,
) -> Seq<char> {
    match (referenced_property(entries), properties) {
        (Some(id), Some(p)) => if has_key(p, id) {
            value_of(p, id).value_type@
        } else {
            "unit"@
        },
        _ => "unit"@,
    }
}

/// The property that a property node names, as [`referenced_property`] says.
fn referenced_property_id(instance: &ANodeInstance) -> (r: Option<FormulaPropertyId>)
    ensures
        r matches Some(id) ==> referenced_property(instance.config.entries()) == Some(id@),
        r is None ==> referenced_property(instance.config.entries()) is None,
{
    match instance.config.get("property_id") {
        Some(RuntimeValue::Ref(value)) => {
            if value.stable_id.as_str().is_empty() {
                None
            } else {
                Some(FormulaPropertyId::new(value.stable_id.as_str()))
            }
        },
        _ => None,
    }
}

/// The channels of a color model: identifier, label, and the bit pattern of
/// the `f64` default of the channel.
pub open spec fn channels(m: ColorMode) -> Seq<(Seq<char>, Seq<char>, u64)> {
    match m {
        ColorMode::Rgba => seq![("r"@, "R"@, 0u64), ("g"@, "G"@, 0u64), ("b"@, "B"@, 0u64), ("a"@, "A"@, F64_ONE_BITS)],
        ColorMode::Hsva => seq![("h"@, "H"@, 0u64), ("s"@, "S"@, 0u64), ("v"@, "V"@, 0u64), ("a"@, "A"@, F64_ONE_BITS)],
        ColorMode::Hsla => seq![("h"@, "H"@, 0u64), ("s"@, "S"@, 0u64), ("l"@, "L"@, 0u64), ("a"@, "A"@, F64_ONE_BITS)],
        ColorMode::Cmyk => seq![("c"@, "C"@, 0u64), ("m"@, "M"@, 0u64), ("y"@, "Y"@, 0u64), ("k"@, "K"@, 0u64)],
    }
}

/// The channels of `m`, in order.
fn channel_list(m: ColorMode) -> (r: Vec<(&'static str, &'static str, u64)>)
    ensures
        r@.len() == 4,
        forall|i: int|
            0 <= i < 4 ==> (#[trigger] r@[i]).0@ == channels(m)[i].0 && r@[i].1@ == channels(m)[i].1 && r@[i].2
                == channels(m)[i].2,
{
    match m {
        ColorMode::Rgba => vec![("r", "R", 0u64), ("g", "G", 0u64), ("b", "B", 0u64), ("a", "A", F64_ONE_BITS)],
        ColorMode::Hsva => vec![("h", "H", 0u64), ("s", "S", 0u64), ("v", "V", 0u64), ("a", "A", F64_ONE_BITS)],
        ColorMode::Hsla => vec![("h", "H", 0u64), ("s", "S", 0u64), ("l", "L", 0u64), ("a", "A", F64_ONE_BITS)],
        ColorMode::Cmyk => vec![("c", "C", 0u64), ("m", "M", 0u64), ("y", "Y", 0u64), ("k", "K", 0u64)],
    }
}

/// A signature with these sockets and no type variables.
fn plain(inputs: Vec<InputSocketDecl>, outputs: Vec<OutputSocketDecl>) -> (r: ANodeSignature)
    ensures
        r.inputs == inputs,
        r.outputs == outputs,
        generics_are(r, None),
{
    let mut sig = ANodeSignature::new();
    sig.inputs = inputs;
    sig.outputs = outputs;
    sig
}

/// A signature with these sockets and type variable `variable`, bound to
/// `float` by default and constrained by `constraint` if given.
fn with_generic(
    inputs: Vec<InputSocketDecl>,
    outputs: Vec<OutputSocketDecl>,
    variable: &str,
    constraint: Option<TypeConstraint>,
    spec: Ghost<Option<ConstraintSpec>>,
) -> (r: ANodeSignature)
    requires
        match spec@ {
            None => constraint is None,
            Some(cs) => constraint matches Some(c) && constraint_is(c, cs),
        },
    ensures
        r.inputs == inputs,
        r.outputs == outputs,
        generics_are(r, Some((variable@, spec@))),
{
    let (bindings, constraints) = generic_parts(variable, constraint);
    ANodeSignature { inputs, outputs, default_bindings: bindings, generic_constraints: constraints }
}


/// An input of type `t` with no default.
pub open spec fn typed_in(id: Seq<char>, label: Seq<char>, t: Seq<char>) -> InputSpec {
    (id, label, ConstraintSpec::Exact(t), None)
}

/// An output of type `t`.
pub open spec fn typed_out(id: Seq<char>, label: Seq<char>, t: Seq<char>) -> OutputSpec {
    (id, label, ConstraintSpec::Exact(t))
}

/// The sockets and type variable of a built-in node of kind `k`, given its
/// config `entries`, the formula's `properties` and its number of numbered
/// inputs `count`.
pub open spec fn signature_spec(
    k: PrimitiveNodeKind,
    entries: Seq<(Seq<char>, RuntimeValue)>,
    properties: Option<Seq<(Seq<char>, FormulaPropertyDecl)>>,
    count: nat,
) -> (Seq<InputSpec>, Seq<OutputSpec>, GenericSpec) {
    let numeric = Some(("TNumeric"@, Some(ConstraintSpec::NumericLike)));
    match k {
        PrimitiveNodeKind::Constant => (seq![], seq![typed_out("value"@, "Value"@, constant_type(entries))], None),
        PrimitiveNodeKind::Property => (
            seq![],
            seq![typed_out("value"@, "Value"@, property_type(entries, properties))],
            None,
        ),
        PrimitiveNodeKind::Math => (
            numbered_spec("value"@, "Value"@, count, ConstraintSpec::Generic("TNumeric"@)),
            seq![("result"@, title_spec("result"@), ConstraintSpec::Generic("TNumeric"@))],
            numeric,
        ),
        PrimitiveNodeKind::Function => if config_text(entries, "function"@, "sqrt"@) == "atan2"@ {
            (
                seq![typed_in("y"@, "Y"@, "float"@), typed_in("x"@, "X"@, "float"@)],
                seq![typed_out("result"@, "Result"@, "float"@)],
                None,
            )
        } else {
            (seq![typed_in("value"@, "Value"@, "float"@)], seq![typed_out("result"@, "Result"@, "float"@)], None)
        },
        PrimitiveNodeKind::Remap => {
            let s = float_sockets(seq!["value", "in_min", "in_max", "out_min", "out_max"], "result");
            (s.0, s.1, None)
        },
        PrimitiveNodeKind::Clamp => {
            let s = float_sockets(seq!["value", "minimum", "maximum"], "result");
            (s.0, s.1, None)
        },
        PrimitiveNodeKind::SmoothFilter | PrimitiveNodeKind::Speed | PrimitiveNodeKind::AngleConversion => {
            let s = float_sockets(seq!["value"], "result");
            (s.0, s.1, None)
        },
        PrimitiveNodeKind::OneMinus | PrimitiveNodeKind::Inverse | PrimitiveNodeKind::Negate => {
            let s = generic_numeric_sockets(seq!["value"], "result");
            (s.0, s.1, numeric)
        },
        PrimitiveNodeKind::Counter => (
            seq![
                typed_in("add"@, "Add"@, "trigger"@),
                ("amount"@, "Amount"@, ConstraintSpec::Exact("float"@), Some(RuntimeValue::Float(F64_ONE_BITS))),
                typed_in("reset"@, "Reset"@, "trigger"@),
            ],
            seq![typed_out("count"@, "Count"@, "float"@)],
            None,
        ),
        PrimitiveNodeKind::Lfo => (seq![], seq![typed_out("value"@, "Value"@, "float"@)], None),
        PrimitiveNodeKind::NoiseGenerator => (
            seq![("position"@, "Position"@, ConstraintSpec::Exact("float"@), Some(RuntimeValue::Float(0)))],
            seq![typed_out("value"@, "Value"@, "float"@)],
            None,
        ),
        PrimitiveNodeKind::Metronome => (
            seq![],
            seq![typed_out("tick"@, "Tick"@, "trigger"@), typed_out("on"@, "On"@, "bool"@)],
            None,
        ),
        PrimitiveNodeKind::CoordinateSystem => (
            seq![typed_in("value"@, "Value"@, "vec2"@)],
            seq![typed_out("result"@, "Result"@, "vec2"@)],
            None,
        ),
        PrimitiveNodeKind::GradientSampler => (
            seq![("position"@, "Position"@, ConstraintSpec::Exact("float"@), Some(RuntimeValue::Float(0)))],
            seq![typed_out("color"@, "Color"@, "color"@)],
            None,
        ),
        PrimitiveNodeKind::ConvertToColor => (
            channels(color_mode_spec(entries)).map_values(
                |c: (Seq<char>, Seq<char>, u64)| (c.0, c.1, ConstraintSpec::Exact("float"@), Some(RuntimeValue::Float(c.2))),
            ),
            seq![typed_out("color"@, "Color"@, "color"@)],
            None,
        ),
        PrimitiveNodeKind::ExtractColor => (
            seq![typed_in("color"@, "Color"@, "color"@)],
            channels(color_mode_spec(entries)).map_values(
                |c: (Seq<char>, Seq<char>, u64)| (c.0, c.1, ConstraintSpec::Exact("float"@)),
            ),
            None,
        ),
        PrimitiveNodeKind::PackVec3 => (
            seq![typed_in("x"@, "X"@, "float"@), typed_in("y"@, "Y"@, "float"@), typed_in("z"@, "Z"@, "float"@)],
            seq![typed_out("value"@, "Value"@, "vec3"@)],
            None,
        ),
        PrimitiveNodeKind::Concatenate => (
            numbered_spec("part"@, "Part"@, count, ConstraintSpec::Exact("string"@)),
            seq![typed_out("result"@, "Result"@, "string"@)],
            None,
        ),
        PrimitiveNodeKind::ConvertToString => (
            seq![("value"@, "Value"@, ConstraintSpec::Any, None)],
            seq![typed_out("result"@, "Result"@, "string"@)],
            None,
        ),
        PrimitiveNodeKind::Split => (
            seq![typed_in("value"@, "Value"@, "string"@)],
            seq![typed_out("values"@, "Values"@, "value_array"@)],
            None,
        ),
        PrimitiveNodeKind::BooleanOperation => (
            seq![typed_in("a"@, "A"@, "bool"@), typed_in("b"@, "B"@, "bool"@)],
            seq![typed_out("result"@, "Result"@, "bool"@)],
            None,
        ),
        PrimitiveNodeKind::Compare => (
            seq![
                ("left"@, "Left"@, ConstraintSpec::Generic("TValue"@), None),
                ("right"@, "Right"@, ConstraintSpec::Generic("TValue"@), None),
            ],
            seq![typed_out("result"@, "Result"@, "bool"@)],
            Some(("TValue"@, Some(ConstraintSpec::Primitive))),
        ),
        PrimitiveNodeKind::ConditionGate => (
            seq![
                ("value"@, "Value"@, ConstraintSpec::Generic("TValue"@), None),
                typed_in("condition"@, "Condition"@, "bool"@),
                ("default_value"@, "Default"@, ConstraintSpec::Generic("TValue"@), None),
            ],
            seq![
                ("value"@, "Value"@, ConstraintSpec::Generic("TValue"@)),
                typed_out("passed"@, "Passed"@, "bool"@),
                typed_out("blocked"@, "Blocked"@, "bool"@),
            ],
            Some(("TValue"@, Some(ConstraintSpec::Any))),
        ),
        PrimitiveNodeKind::TriggerOnOff => (
            seq![typed_in("value"@, "Value"@, "bool"@)],
            seq![typed_out("on"@, "On"@, "trigger"@), typed_out("off"@, "Off"@, "trigger"@)],
            None,
        ),
        PrimitiveNodeKind::Gate => (
            seq![
                typed_in("trigger"@, "Trigger"@, "trigger"@),
                ("open"@, "Open"@, ConstraintSpec::Exact("bool"@), Some(RuntimeValue::Bool(true))),
            ],
            seq![typed_out("trigger"@, "Trigger"@, "trigger"@)],
            None,
        ),
        PrimitiveNodeKind::DelayOneTick | PrimitiveNodeKind::DebugValue => (
            seq![("value"@, "Value"@, ConstraintSpec::Generic("TValue"@), None)],
            seq![("value"@, "Value"@, ConstraintSpec::Generic("TValue"@))],
            Some(("TValue"@, None)),
        ),
        PrimitiveNodeKind::DebugLog => (seq![("value"@, "Value"@, ConstraintSpec::Any, None)], seq![], None),
    }
}

/// Counts triggers on `add` by `amount`; `reset` starts over.
fn counter_signature() -> (r: ANodeSignature)
    ensures
        ({ let s = signature_spec(PrimitiveNodeKind::Counter, Seq::empty(), None, 0); declares(r, s.0, s.1, s.2) }),
{
    let inputs = vec![InputSocketDecl::new("add", "Add", exact("trigger")), InputSocketDecl::new("amount", "Amount", exact("float")).with_default(RuntimeValue::Float(F64_ONE_BITS)), InputSocketDecl::new("reset", "Reset", exact("trigger"))];
    let outputs = vec![OutputSocketDecl::new("count", "Count", exact("float"))];
    plain(inputs, outputs)
}

/// An oscillator: no inputs, one `float` output.
fn lfo_signature() -> (r: ANodeSignature)
    ensures
        ({ let s = signature_spec(PrimitiveNodeKind::Lfo, Seq::empty(), None, 0); declares(r, s.0, s.1, s.2) }),
{
    let inputs = vec![];
    let outputs = vec![OutputSocketDecl::new("value", "Value", exact("float"))];
    plain(inputs, outputs)
}

/// Noise sampled at `position`.
fn noise_signature() -> (r: ANodeSignature)
    ensures
        ({ let s = signature_spec(PrimitiveNodeKind::NoiseGenerator, Seq::empty(), None, 0); declares(r, s.0, s.1, s.2) }),
{
    let inputs = vec![InputSocketDecl::new("position", "Position", exact("float")).with_default(RuntimeValue::Float(0))];
    let outputs = vec![OutputSocketDecl::new("value", "Value", exact("float"))];
    plain(inputs, outputs)
}

/// A metronome: a trigger on each beat and whether the beat is on.
fn metronome_signature() -> (r: ANodeSignature)
    ensures
        ({ let s = signature_spec(PrimitiveNodeKind::Metronome, Seq::empty(), None, 0); declares(r, s.0, s.1, s.2) }),
{
    let inputs = vec![];
    let outputs = vec![OutputSocketDecl::new("tick", "Tick", exact("trigger")), OutputSocketDecl::new("on", "On", exact("bool"))];
    plain(inputs, outputs)
}

/// A conversion between cartesian and polar coordinates.
fn coordinate_signature() -> (r: ANodeSignature)
    ensures
        ({ let s = signature_spec(PrimitiveNodeKind::CoordinateSystem, Seq::empty(), None, 0); declares(r, s.0, s.1, s.2) }),
{
    let inputs = vec![InputSocketDecl::new("value", "Value", exact("vec2"))];
    let outputs = vec![OutputSocketDecl::new("result", "Result", exact("vec2"))];
    plain(inputs, outputs)
}

/// The color of a gradient at `position`.
fn gradient_signature() -> (r: ANodeSignature)
    ensures
        ({ let s = signature_spec(PrimitiveNodeKind::GradientSampler, Seq::empty(), None, 0); declares(r, s.0, s.1, s.2) }),
{
    let inputs = vec![InputSocketDecl::new("position", "Position", exact("float")).with_default(RuntimeValue::Float(0))];
    let outputs = vec![OutputSocketDecl::new("color", "Color", exact("color"))];
    plain(inputs, outputs)
}

/// Three coordinates packed into a `vec3`.
fn pack_vec3_signature() -> (r: ANodeSignature)
    ensures
        ({ let s = signature_spec(PrimitiveNodeKind::PackVec3, Seq::empty(), None, 0); declares(r, s.0, s.1, s.2) }),
{
    let inputs = vec![InputSocketDecl::new("x", "X", exact("float")), InputSocketDecl::new("y", "Y", exact("float")), InputSocketDecl::new("z", "Z", exact("float"))];
    let outputs = vec![OutputSocketDecl::new("value", "Value", exact("vec3"))];
    plain(inputs, outputs)
}

/// Any value as text.
fn convert_to_string_signature() -> (r: ANodeSignature)
    ensures
        ({ let s = signature_spec(PrimitiveNodeKind::ConvertToString, Seq::empty(), None, 0); declares(r, s.0, s.1, s.2) }),
{
    let inputs = vec![InputSocketDecl::new("value", "Value", TypeConstraint::Any)];
    let outputs = vec![OutputSocketDecl::new("result", "Result", exact("string"))];
    plain(inputs, outputs)
}

/// Text split into a list of values.
fn split_signature() -> (r: ANodeSignature)
    ensures
        ({ let s = signature_spec(PrimitiveNodeKind::Split, Seq::empty(), None, 0); declares(r, s.0, s.1, s.2) }),
{
    let inputs = vec![InputSocketDecl::new("value", "Value", exact("string"))];
    let outputs = vec![OutputSocketDecl::new("values", "Values", exact("value_array"))];
    plain(inputs, outputs)
}

/// A logical operation on two booleans.
fn boolean_signature() -> (r: ANodeSignature)
    ensures
        ({ let s = signature_spec(PrimitiveNodeKind::BooleanOperation, Seq::empty(), None, 0); declares(r, s.0, s.1, s.2) }),
{
    let inputs = vec![InputSocketDecl::new("a", "A", exact("bool")), InputSocketDecl::new("b", "B", exact("bool"))];
    let outputs = vec![OutputSocketDecl::new("result", "Result", exact("bool"))];
    plain(inputs, outputs)
}

/// A comparison of two values of one primitive type.
fn compare_signature() -> (r: ANodeSignature)
    ensures
        ({ let s = signature_spec(PrimitiveNodeKind::Compare, Seq::empty(), None, 0); declares(r, s.0, s.1, s.2) }),
{
    let inputs = vec![InputSocketDecl::new("left", "Left", TypeConstraint::Generic(TypeVar::new("TValue"))), InputSocketDecl::new("right", "Right", TypeConstraint::Generic(TypeVar::new("TValue")))];
    let outputs = vec![OutputSocketDecl::new("result", "Result", exact("bool"))];
    with_generic(inputs, outputs, "TValue", Some(TypeConstraint::Primitive), Ghost(Some(ConstraintSpec::Primitive)))
}

/// Passes `value` while `condition` holds, else holds the last passed value or the default.
fn condition_gate_signature() -> (r: ANodeSignature)
    ensures
        ({ let s = signature_spec(PrimitiveNodeKind::ConditionGate, Seq::empty(), None, 0); declares(r, s.0, s.1, s.2) }),
{
    let inputs = vec![InputSocketDecl::new("value", "Value", TypeConstraint::Generic(TypeVar::new("TValue"))), InputSocketDecl::new("condition", "Condition", exact("bool")), InputSocketDecl::new("default_value", "Default", TypeConstraint::Generic(TypeVar::new("TValue")))];
    let outputs = vec![OutputSocketDecl::new("value", "Value", TypeConstraint::Generic(TypeVar::new("TValue"))), OutputSocketDecl::new("passed", "Passed", exact("bool")), OutputSocketDecl::new("blocked", "Blocked", exact("bool"))];
    with_generic(inputs, outputs, "TValue", Some(TypeConstraint::Any), Ghost(Some(ConstraintSpec::Any)))
}

/// Triggers on the rising and falling edges of a boolean.
fn trigger_on_off_signature() -> (r: ANodeSignature)
    ensures
        ({ let s = signature_spec(PrimitiveNodeKind::TriggerOnOff, Seq::empty(), None, 0); declares(r, s.0, s.1, s.2) }),
{
    let inputs = vec![InputSocketDecl::new("value", "Value", exact("bool"))];
    let outputs = vec![OutputSocketDecl::new("on", "On", exact("trigger")), OutputSocketDecl::new("off", "Off", exact("trigger"))];
    plain(inputs, outputs)
}

/// Lets triggers through while `open` holds.
fn gate_signature() -> (r: ANodeSignature)
    ensures
        ({ let s = signature_spec(PrimitiveNodeKind::Gate, Seq::empty(), None, 0); declares(r, s.0, s.1, s.2) }),
{
    let inputs = vec![InputSocketDecl::new("trigger", "Trigger", exact("trigger")), InputSocketDecl::new("open", "Open", exact("bool")).with_default(RuntimeValue::Bool(true))];
    let outputs = vec![OutputSocketDecl::new("trigger", "Trigger", exact("trigger"))];
    plain(inputs, outputs)
}

/// One value in and the same type out.
fn passthrough_signature() -> (r: ANodeSignature)
    ensures
        ({ let s = signature_spec(PrimitiveNodeKind::DelayOneTick, Seq::empty(), None, 0); declares(r, s.0, s.1, s.2) }),
{
    let inputs = vec![InputSocketDecl::new("value", "Value", TypeConstraint::Generic(TypeVar::new("TValue")))];
    let outputs = vec![OutputSocketDecl::new("value", "Value", TypeConstraint::Generic(TypeVar::new("TValue")))];
    with_generic(inputs, outputs, "TValue", None, Ghost(None))
}

/// Any value in, nothing out.
fn debug_log_signature() -> (r: ANodeSignature)
    ensures
        ({ let s = signature_spec(PrimitiveNodeKind::DebugLog, Seq::empty(), None, 0); declares(r, s.0, s.1, s.2) }),
{
    let inputs = vec![InputSocketDecl::new("value", "Value", TypeConstraint::Any)];
    let outputs = vec![];
    plain(inputs, outputs)
}

/// A constant node emits the type of its configured value.
fn constant_signature(instance: &ANodeInstance) -> (r: ANodeSignature)
    ensures
        ({
            let s = signature_spec(PrimitiveNodeKind::Constant, instance.config.entries(), None, 0);
            declares(r, s.0, s.1, s.2)
        }),
{
    let value_type = match instance.config.get("value") {
        Some(value) => value.value_type(),
        None => ValueTypeId::new("float"),
    };
    plain(Vec::new(), vec![OutputSocketDecl::new("value", "Value", TypeConstraint::Exact(value_type))])
}

/// A property node emits the declared type of the property it names.
fn property_signature(ctx: &SignatureCtx<'_>, instance: &ANodeInstance) -> (r: ANodeSignature)
    ensures
        ({
            let props = match ctx.properties {
                Some(p) => Some(p.entries()),
                None => None,
            };
            let s = signature_spec(PrimitiveNodeKind::Property, instance.config.entries(), props, 0);
            declares(r, s.0, s.1, s.2)
        }),
{
    let declared = match referenced_property_id(instance) {
        Some(id) => match ctx.properties {
            Some(schema) => match schema.get(&id) {
                Some(declaration) => Some(declaration.value_type.clone()),
                None => None,
            },
            None => None,
        },
        None => None,
    };
    let value_type = match declared {
        Some(t) => t,
        None => ValueTypeId::new("unit"),
    };
    plain(Vec::new(), vec![OutputSocketDecl::new("value", "Value", TypeConstraint::Exact(value_type))])
}

/// A math node has `count` numbered inputs sharing `TNumeric` with its output.
fn math_signature(count: usize) -> (r: ANodeSignature)
    requires
        count <= 64,
    ensures
        ({
            let s = signature_spec(PrimitiveNodeKind::Math, Seq::empty(), None, count as nat);
            declares(r, s.0, s.1, s.2)
        }),
{
    let inputs = numbered_inputs("value", "Value", count, true);
    let outputs = vec![titled_output("result", TypeConstraint::Generic(TypeVar::new("TNumeric")))];
    with_generic(inputs, outputs, "TNumeric", Some(TypeConstraint::NumericLike), Ghost(Some(ConstraintSpec::NumericLike)))
}

/// A concatenation has `count` numbered text inputs.
fn concatenate_signature(count: usize) -> (r: ANodeSignature)
    requires
        count <= 64,
    ensures
        ({
            let s = signature_spec(PrimitiveNodeKind::Concatenate, Seq::empty(), None, count as nat);
            declares(r, s.0, s.1, s.2)
        }),
{
    let inputs = numbered_inputs("part", "Part", count, false);
    plain(inputs, vec![OutputSocketDecl::new("result", "Result", exact("string"))])
}

/// A function node takes `y` and `x` for `atan2` and one `value` otherwise.
fn function_signature(instance: &ANodeInstance) -> (r: ANodeSignature)
    ensures
        ({
            let s = signature_spec(PrimitiveNodeKind::Function, instance.config.entries(), None, 0);
            declares(r, s.0, s.1, s.2)
        }),
{
    let function = config_string(instance, "function", "sqrt");
    proof {
        reveal_strlit("atan2");
    }
    let inputs = if crate::text::str_eq(function.as_str(), "atan2") {
        vec![InputSocketDecl::new("y", "Y", exact("float")), InputSocketDecl::new("x", "X", exact("float"))]
    } else {
        vec![InputSocketDecl::new("value", "Value", exact("float"))]
    };
    plain(inputs, vec![OutputSocketDecl::new("result", "Result", exact("float"))])
}

/// Converting to a color takes one `float` input per channel of the
/// configured color model.
fn convert_to_color_signature(instance: &ANodeInstance) -> (r: ANodeSignature)
    ensures
        ({
            let s = signature_spec(PrimitiveNodeKind::ConvertToColor, instance.config.entries(), None, 0);
            declares(r, s.0, s.1, s.2)
        }),
{
    let mode = ColorMode::from_config(instance);
    let ghost spec_inputs = signature_spec(PrimitiveNodeKind::ConvertToColor, instance.config.entries(), None, 0).0;
    let list = channel_list(mode);
    let mut inputs: Vec<InputSocketDecl> = Vec::new();
    let mut i: usize = 0;
    while i < 4
        invariant
            i <= 4,
            list@.len() == 4,
            mode == color_mode_spec(instance.config.entries()),
            spec_inputs == signature_spec(PrimitiveNodeKind::ConvertToColor, instance.config.entries(), None, 0).0,
            forall|j: int|
                0 <= j < 4 ==> (#[trigger] list@[j]).0@ == channels(mode)[j].0 && list@[j].1@ == channels(mode)[j].1
                    && list@[j].2 == channels(mode)[j].2,
            inputs@.len() == i,
            forall|j: int| 0 <= j < i ==> input_is(#[trigger] inputs@[j], spec_inputs[j]),
        decreases 4 - i,
    {
        let (id, label, default) = list[i];
        inputs.push(InputSocketDecl::new(id, label, exact("float")).with_default(RuntimeValue::Float(default)));
        i = i + 1;
    }
    plain(inputs, vec![OutputSocketDecl::new("color", "Color", exact("color"))])
}

/// Extracting a color gives one `float` output per channel of the
/// configured color model.
fn extract_color_signature(instance: &ANodeInstance) -> (r: ANodeSignature)
    ensures
        ({
            let s = signature_spec(PrimitiveNodeKind::ExtractColor, instance.config.entries(), None, 0);
            declares(r, s.0, s.1, s.2)
        }),
{
    let mode = ColorMode::from_config(instance);
    let ghost spec_outputs = signature_spec(PrimitiveNodeKind::ExtractColor, instance.config.entries(), None, 0).1;
    let list = channel_list(mode);
    let mut outputs: Vec<OutputSocketDecl> = Vec::new();
    let mut i: usize = 0;
    while i < 4
        invariant
            i <= 4,
            list@.len() == 4,
            mode == color_mode_spec(instance.config.entries()),
            spec_outputs == signature_spec(PrimitiveNodeKind::ExtractColor, instance.config.entries(), None, 0).1,
            forall|j: int|
                0 <= j < 4 ==> (#[trigger] list@[j]).0@ == channels(mode)[j].0 && list@[j].1@ == channels(mode)[j].1
                    && list@[j].2 == channels(mode)[j].2,
            outputs@.len() == i,
            forall|j: int| 0 <= j < i ==> output_is(#[trigger] outputs@[j], spec_outputs[j]),
        decreases 4 - i,
    {
        let (id, label, _) = list[i];
        outputs.push(OutputSocketDecl::new(id, label, exact("float")));
        i = i + 1;
    }
    plain(vec![InputSocketDecl::new("color", "Color", exact("color"))], outputs)
}

impl PrimitiveNodeDeclaration {
    /// The sockets and type variable of this node type for `instance`, as
    /// [`signature_spec`] says. `configured_inputs` is the instance's
    /// `num_inputs` config field read as an integer (a float truncated
    /// toward zero), if that field holds a number; math and concatenation
    /// nodes have that many numbered inputs, 2 when it is not set.
    pub fn signature(&self, ctx: &SignatureCtx<'_>, instance: &ANodeInstance, configured_inputs: Option<i64>) -> (r:
        ANodeSignature)
        ensures
            ({
                let props = match ctx.properties {
                    Some(p) => Some(p.entries()),
                    None => None,
                };
                let s = signature_spec(
                    self.kind(),
                    instance.config.entries(),
                    props,
                    input_count_spec(configured_inputs, 2),
                );
                declares(r, s.0, s.1, s.2)
            }),
    {
        match self.kind() {
            PrimitiveNodeKind::Constant => constant_signature(instance),
            PrimitiveNodeKind::Property => property_signature(ctx, instance),
            PrimitiveNodeKind::Math => math_signature(input_count(configured_inputs, 2)),
            PrimitiveNodeKind::Function => function_signature(instance),
            PrimitiveNodeKind::Remap => float_signature(vec!["value", "in_min", "in_max", "out_min", "out_max"], "result"),
            PrimitiveNodeKind::Clamp => float_signature(vec!["value", "minimum", "maximum"], "result"),
            PrimitiveNodeKind::SmoothFilter | PrimitiveNodeKind::Speed | PrimitiveNodeKind::AngleConversion => {
                float_signature(vec!["value"], "result")
            },
            PrimitiveNodeKind::OneMinus | PrimitiveNodeKind::Inverse | PrimitiveNodeKind::Negate => {
                generic_numeric_signature(vec!["value"], "result")
            },
            PrimitiveNodeKind::Counter => counter_signature(),
            PrimitiveNodeKind::Lfo => lfo_signature(),
            PrimitiveNodeKind::NoiseGenerator => noise_signature(),
            PrimitiveNodeKind::Metronome => metronome_signature(),
            PrimitiveNodeKind::CoordinateSystem => coordinate_signature(),
            PrimitiveNodeKind::GradientSampler => gradient_signature(),
            PrimitiveNodeKind::ConvertToColor => convert_to_color_signature(instance),
            PrimitiveNodeKind::ExtractColor => extract_color_signature(instance),
            PrimitiveNodeKind::PackVec3 => pack_vec3_signature(),
            PrimitiveNodeKind::Concatenate => concatenate_signature(input_count(configured_inputs, 2)),
            PrimitiveNodeKind::ConvertToString => convert_to_string_signature(),
            PrimitiveNodeKind::Split => split_signature(),
            PrimitiveNodeKind::BooleanOperation => boolean_signature(),
            PrimitiveNodeKind::Compare => compare_signature(),
            PrimitiveNodeKind::ConditionGate => condition_gate_signature(),
            PrimitiveNodeKind::TriggerOnOff => trigger_on_off_signature(),
            PrimitiveNodeKind::Gate => gate_signature(),
            PrimitiveNodeKind::DelayOneTick | PrimitiveNodeKind::DebugValue => passthrough_signature(),
            PrimitiveNodeKind::DebugLog => debug_log_signature(),
        }
    }
}

} // verus!
