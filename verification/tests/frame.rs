use golden_alchemist::compile::compile_property_schema;
use golden_alchemist::expose::ParamUiHints;
use golden_alchemist::formula::{FormulaPropertyDecl, FormulaPropertySchema};
use golden_alchemist::frame::{RuntimePropertyFrame, RuntimePropertyFrameError};
use golden_alchemist::ids::{FormulaPropertyId, FormulaPropertySlotId};
use golden_alchemist::registry::ValueTypeRegistry;
use golden_alchemist::value::{RuntimeValue, ValueTypeId};
use indexmap::IndexMap;

fn property(id: &str, value_type: &str, default_value: RuntimeValue) -> FormulaPropertyDecl {
    FormulaPropertyDecl {
        id: FormulaPropertyId::new(id),
        label: id.to_string(),
        description: None,
        value_type: ValueTypeId::new(value_type),
        default_value,
        ui: ParamUiHints::default(),
    }
}

fn schema() -> golden_alchemist::compile::CompiledFormulaPropertySchema {
    let mut schema = FormulaPropertySchema::new();
    schema.insert(property("speed", "float", RuntimeValue::Float(1.5f64.to_bits())));
    schema.insert(property("on", "bool", RuntimeValue::Bool(true)));
    let mut diagnostics = Vec::new();
    let compiled = compile_property_schema(Some(&schema), &ValueTypeRegistry::with_primitives(), &mut diagnostics);
    assert!(diagnostics.is_empty());
    compiled
}

#[test]
fn frame_starts_from_defaults_by_slot() {
    let frame = RuntimePropertyFrame::from_defaults(&schema());

    assert_eq!(frame.slot_count(), 2);
    assert_eq!(frame.get(FormulaPropertySlotId(0)), Some(&RuntimeValue::Float(1.5f64.to_bits())));
    assert_eq!(frame.get(FormulaPropertySlotId(1)), Some(&RuntimeValue::Bool(true)));
    assert_eq!(frame.get(FormulaPropertySlotId(2)), None);
}

#[test]
fn overrides_replace_defaults_in_their_slots() {
    let mut overrides = IndexMap::new();
    overrides.insert(FormulaPropertyId::new("on"), RuntimeValue::Bool(false));

    let frame = RuntimePropertyFrame::with_overrides(&schema(), &overrides).unwrap();

    assert_eq!(frame.get(FormulaPropertySlotId(0)), Some(&RuntimeValue::Float(1.5f64.to_bits())));
    assert_eq!(frame.get(FormulaPropertySlotId(1)), Some(&RuntimeValue::Bool(false)));
}

#[test]
fn override_of_unknown_property_is_rejected() {
    let mut overrides = IndexMap::new();
    overrides.insert(FormulaPropertyId::new("missing"), RuntimeValue::Bool(false));

    let error = RuntimePropertyFrame::with_overrides(&schema(), &overrides).unwrap_err();

    assert_eq!(error, RuntimePropertyFrameError::UnknownProperty(FormulaPropertyId::new("missing")));
    assert_eq!(error.message(), "processor override references unknown property `missing`");
}

#[test]
fn override_of_wrong_type_is_rejected() {
    let mut overrides = IndexMap::new();
    overrides.insert(FormulaPropertyId::new("speed"), RuntimeValue::Bool(false));

    let error = RuntimePropertyFrame::with_overrides(&schema(), &overrides).unwrap_err();

    assert_eq!(
        error,
        RuntimePropertyFrameError::InvalidOverrideType {
            property: FormulaPropertyId::new("speed"),
            expected: ValueTypeId::new("float"),
            actual: ValueTypeId::new("bool"),
        }
    );
    assert_eq!(error.message(), "processor override for property `speed` has type `bool`, expected `float`");
}
