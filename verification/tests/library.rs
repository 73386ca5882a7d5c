use golden_alchemist::formula::SurfaceItemKind;
use golden_alchemist::ids::SocketId;
use golden_alchemist::library::{AutoWirePolicy, PipelineCardinality, PrimitiveNodeDeclaration, PrimitiveNodeKind};
use golden_alchemist::expose::ParamUiHints;
use golden_alchemist::formula::{FormulaPropertyDecl, FormulaPropertySchema};
use golden_alchemist::graph::ANodeInstance;
use golden_alchemist::ids::FormulaPropertyId;
use golden_alchemist::node::ExecutionKind;
use golden_alchemist::registry::ValueTypeRegistry;
use golden_alchemist::signatures::{input_count, title, SignatureCtx};
use golden_alchemist::typing::{TypeConstraint, TypeVar};
use golden_alchemist::value::{RuntimeValue, StableRef, ValueTypeId};

fn declared_type_ids() -> Vec<String> {
    PrimitiveNodeKind::all()
        .into_iter()
        .map(|kind| PrimitiveNodeDeclaration::new(kind).type_id().as_str().to_string())
        .collect()
}

fn filter_type_ids() -> Vec<String> {
    PrimitiveNodeKind::all()
        .into_iter()
        .map(PrimitiveNodeDeclaration::new)
        .filter(|declaration| declaration.supports_role(SurfaceItemKind::Filter))
        .map(|declaration| declaration.type_id().as_str().to_string())
        .collect()
}

#[test]
fn primitive_catalog_contains_every_declaration() {
    let ids = declared_type_ids();
    for id in [
        "constant",
        "property",
        "math",
        "function",
        "remap",
        "clamp",
        "smooth_filter",
        "one_minus",
        "inverse",
        "negate",
        "speed",
        "counter",
        "lfo",
        "noise_generator",
        "metronome",
        "coordinate_system",
        "angle_conversion",
        "gradient_sampler",
        "convert_to_color",
        "extract_color",
        "pack_vec3",
        "concatenate",
        "convert_to_string",
        "split",
        "boolean_operation",
        "compare",
        "condition_gate",
        "trigger_on_off",
        "gate",
        "delay_one_tick",
        "debug_value",
        "debug_log",
    ] {
        assert!(ids.iter().any(|candidate| candidate == id), "{id}");
    }
}

#[test]
fn filter_capable_node_discovery_is_declaration_driven() {
    let filter_ids = filter_type_ids();

    for id in [
        "math",
        "function",
        "remap",
        "clamp",
        "smooth_filter",
        "one_minus",
        "inverse",
        "negate",
        "speed",
        "coordinate_system",
        "angle_conversion",
        "convert_to_color",
        "extract_color",
        "pack_vec3",
        "condition_gate",
    ] {
        assert!(filter_ids.iter().any(|candidate| candidate == id), "{id}");
    }
    assert!(!filter_ids.iter().any(|candidate| candidate == "constant"));
    assert!(!filter_ids.iter().any(|candidate| candidate == "debug_log"));
}

#[test]
fn non_filter_node_has_no_filter_capability() {
    let declaration = PrimitiveNodeDeclaration::new(PrimitiveNodeKind::Constant);

    assert!(!declaration.supports_role(SurfaceItemKind::Filter));
    assert!(declaration.role_capabilities().is_empty());
}

#[test]
fn primary_socket_autowiring_is_declared_for_unary_filters() {
    let declaration = PrimitiveNodeDeclaration::new(PrimitiveNodeKind::Remap);
    let capability = declaration
        .role_capabilities()
        .into_iter()
        .find(|capability| capability.role == SurfaceItemKind::Filter)
        .expect("Remap should be filter-capable");

    assert_eq!(capability.primary_input, Some(SocketId::new("value")));
    assert_eq!(capability.primary_output, Some(SocketId::new("result")));
    assert_eq!(
        capability.autowire,
        AutoWirePolicy::UnaryTransform {
            input: SocketId::new("value"),
            output: SocketId::new("result"),
        }
    );
    assert_eq!(capability.cardinality, PipelineCardinality::Elementwise);
}

#[test]
fn condition_gate_declares_filter_gate_capability() {
    let declaration = PrimitiveNodeDeclaration::new(PrimitiveNodeKind::ConditionGate);
    let capability = declaration
        .role_capabilities()
        .into_iter()
        .find(|capability| capability.role == SurfaceItemKind::Filter)
        .expect("ConditionGate should be filter-capable");

    assert_eq!(capability.primary_input, Some(SocketId::new("value")));
    assert_eq!(capability.primary_output, Some(SocketId::new("value")));
    assert_eq!(
        capability.autowire,
        AutoWirePolicy::Gate {
            input: SocketId::new("value"),
            condition: SocketId::new("condition"),
            output: SocketId::new("value"),
        }
    );
    assert_eq!(capability.cardinality, PipelineCardinality::WholeSet);
}

#[test]
fn stateful_and_effect_nodes_are_explicit() {
    for kind in [
        PrimitiveNodeKind::SmoothFilter,
        PrimitiveNodeKind::Speed,
        PrimitiveNodeKind::Counter,
        PrimitiveNodeKind::Lfo,
        PrimitiveNodeKind::NoiseGenerator,
        PrimitiveNodeKind::Metronome,
        PrimitiveNodeKind::TriggerOnOff,
        PrimitiveNodeKind::DelayOneTick,
    ] {
        assert_eq!(
            PrimitiveNodeDeclaration::new(kind).execution_kind(),
            ExecutionKind::Stateful
        );
    }
    assert_eq!(
        PrimitiveNodeDeclaration::new(PrimitiveNodeKind::DebugLog).execution_kind(),
        ExecutionKind::EffectEmitter
    );
    assert!(PrimitiveNodeDeclaration::new(PrimitiveNodeKind::DelayOneTick).breaks_dependency_cycle());
}

#[test]
fn every_kind_has_a_distinct_type_name() {
    let ids = declared_type_ids();
    assert_eq!(ids.len(), 32);
    for (i, a) in ids.iter().enumerate() {
        for b in ids.iter().skip(i + 1) {
            assert_ne!(a, b);
        }
    }
}

#[test]
fn declaration_reports_kind_label_and_category() {
    let declaration = PrimitiveNodeDeclaration::new(PrimitiveNodeKind::Math);
    assert_eq!(declaration.kind(), PrimitiveNodeKind::Math);
    assert_eq!(declaration.type_id().as_str(), "math");
    assert_eq!(PrimitiveNodeKind::Math.node_type_name(), "math");
    assert!(!declaration.label().is_empty());
    assert!(!declaration.category().is_empty());
    assert_eq!(declaration.execution_kind(), ExecutionKind::Pure);
    assert!(!declaration.breaks_dependency_cycle());
}

#[test]
fn convert_to_color_reshapes_and_pack_vec3_reshapes() {
    for kind in [PrimitiveNodeKind::ConvertToColor, PrimitiveNodeKind::PackVec3] {
        let capabilities = PrimitiveNodeDeclaration::new(kind).role_capabilities();
        assert_eq!(capabilities.len(), 1);
        assert_eq!(capabilities[0].cardinality, PipelineCardinality::Reshape);
    }
}

fn signature(kind: PrimitiveNodeKind) -> golden_alchemist::node::ANodeSignature {
    let declaration = PrimitiveNodeDeclaration::new(kind);
    let instance = ANodeInstance::new(declaration.type_id(), declaration.label());
    let value_types = ValueTypeRegistry::with_primitives();
    declaration.signature(
        &SignatureCtx {
            value_types: &value_types,
            properties: None,
        },
        &instance,
        None,
    )
}

#[test]
fn constant_signature_uses_configured_value_type() {
    let declaration = PrimitiveNodeDeclaration::new(PrimitiveNodeKind::Constant);
    let mut instance = ANodeInstance::new(declaration.type_id(), declaration.label());
    instance.config.set(
        "value",
        RuntimeValue::Vec3([1.0f64.to_bits(), 2.0f64.to_bits(), 3.0f64.to_bits()]),
    );
    let value_types = ValueTypeRegistry::with_primitives();
    let signature = declaration.signature(
        &SignatureCtx {
            value_types: &value_types,
            properties: None,
        },
        &instance,
        None,
    );

    assert_eq!(
        signature.outputs[0].constraint,
        TypeConstraint::Exact(ValueTypeId::new("vec3"))
    );
}

#[test]
fn math_signature_shares_named_generic_and_defaults_to_float() {
    let signature = signature(PrimitiveNodeKind::Math);
    let expected = TypeConstraint::Generic(TypeVar::new("TNumeric"));

    assert_eq!(signature.inputs[0].constraint, expected);
    assert_eq!(signature.inputs[1].constraint, expected);
    assert_eq!(signature.outputs[0].constraint, expected);
    assert_eq!(
        signature
            .default_bindings
            .get(&TypeVar::new("TNumeric"))
            .unwrap()
            .value_type,
        ValueTypeId::new("float")
    );
}

#[test]
fn forceable_math_value_type_options_derive_from_signature_constraint() {
    let value_types = ValueTypeRegistry::with_primitives();
    for kind in [
        PrimitiveNodeKind::Math,
        PrimitiveNodeKind::OneMinus,
        PrimitiveNodeKind::Inverse,
        PrimitiveNodeKind::Negate,
    ] {
        let declaration = PrimitiveNodeDeclaration::new(kind);
        let fields = declaration.config_fields();
        let field = fields
            .iter()
            .find(|field| field.id.as_str() == "value_type")
            .expect("forceable math node should declare Value Type");
        let options = field
            .resolved_type_options(&signature(kind), &value_types)
            .into_iter()
            .map(|value_type| value_type.as_str().to_string())
            .collect::<Vec<_>>();

        assert_eq!(
            options,
            ["int", "float", "vec2", "vec3", "color"]
                .into_iter()
                .map(str::to_owned)
                .collect::<Vec<_>>()
        );
    }
}

#[test]
fn passthrough_delay_infers_type_without_forced_value_type_field() {
    assert!(
        PrimitiveNodeDeclaration::new(PrimitiveNodeKind::DelayOneTick)
            .config_fields()
            .is_empty()
    );
}

#[test]
fn every_signature_declares_its_socket_counts() {
    for (kind, inputs, outputs) in [
        (PrimitiveNodeKind::Math, 2, 1),
        (PrimitiveNodeKind::Function, 1, 1),
        (PrimitiveNodeKind::Remap, 5, 1),
        (PrimitiveNodeKind::Clamp, 3, 1),
        (PrimitiveNodeKind::SmoothFilter, 1, 1),
        (PrimitiveNodeKind::OneMinus, 1, 1),
        (PrimitiveNodeKind::Inverse, 1, 1),
        (PrimitiveNodeKind::Negate, 1, 1),
        (PrimitiveNodeKind::Speed, 1, 1),
        (PrimitiveNodeKind::Counter, 3, 1),
        (PrimitiveNodeKind::Lfo, 0, 1),
        (PrimitiveNodeKind::NoiseGenerator, 1, 1),
        (PrimitiveNodeKind::Metronome, 0, 2),
        (PrimitiveNodeKind::CoordinateSystem, 1, 1),
        (PrimitiveNodeKind::AngleConversion, 1, 1),
        (PrimitiveNodeKind::GradientSampler, 1, 1),
        (PrimitiveNodeKind::ConvertToColor, 4, 1),
        (PrimitiveNodeKind::ExtractColor, 1, 4),
        (PrimitiveNodeKind::PackVec3, 3, 1),
        (PrimitiveNodeKind::Concatenate, 2, 1),
        (PrimitiveNodeKind::ConvertToString, 1, 1),
        (PrimitiveNodeKind::Split, 1, 1),
        (PrimitiveNodeKind::BooleanOperation, 2, 1),
        (PrimitiveNodeKind::Compare, 2, 1),
        (PrimitiveNodeKind::TriggerOnOff, 1, 2),
        (PrimitiveNodeKind::Gate, 2, 1),
        (PrimitiveNodeKind::DelayOneTick, 1, 1),
        (PrimitiveNodeKind::DebugValue, 1, 1),
        (PrimitiveNodeKind::DebugLog, 1, 0),
    ] {
        let signature = signature(kind);
        assert_eq!(signature.inputs.len(), inputs, "{kind:?}");
        assert_eq!(signature.outputs.len(), outputs, "{kind:?}");
    }
}

#[test]
fn metronome_signature_declares_tick_and_on_outputs() {
    let signature = signature(PrimitiveNodeKind::Metronome);

    assert!(signature.inputs.is_empty());
    assert_eq!(signature.outputs[0].id.as_str(), "tick");
    assert_eq!(signature.outputs[0].label, "Tick");
    assert_eq!(signature.outputs[1].id.as_str(), "on");
    assert_eq!(signature.outputs[1].label, "On");
}

#[test]
fn socket_labels_are_titles_of_their_identifiers() {
    let remap = signature(PrimitiveNodeKind::Remap);
    let labels: Vec<&str> = remap.inputs.iter().map(|input| input.label.as_str()).collect();
    assert_eq!(labels, vec!["Value", "In Min", "In Max", "Out Min", "Out Max"]);
    assert_eq!(title("__in__min_"), "In Min");
    assert_eq!(title("value"), "Value");
    assert_eq!(title(""), "");
}

#[test]
fn numbered_inputs_follow_the_configured_count() {
    let declaration = PrimitiveNodeDeclaration::new(PrimitiveNodeKind::Concatenate);
    let instance = ANodeInstance::new(declaration.type_id(), declaration.label());
    let value_types = ValueTypeRegistry::with_primitives();
    let ctx = SignatureCtx { value_types: &value_types, properties: None };
    let three = declaration.signature(&ctx, &instance, Some(3));
    let ids: Vec<&str> = three.inputs.iter().map(|input| input.id.as_str()).collect();
    assert_eq!(ids, vec!["part1", "part2", "part3"]);
    assert_eq!(three.inputs[2].label, "Part 3");
    assert_eq!(declaration.signature(&ctx, &instance, Some(0)).inputs.len(), 1);
    assert_eq!(declaration.signature(&ctx, &instance, Some(500)).inputs.len(), 64);
    assert_eq!(input_count(None, 2), 2);
}

#[test]
fn color_signatures_follow_the_color_mode() {
    let declaration = PrimitiveNodeDeclaration::new(PrimitiveNodeKind::ConvertToColor);
    let mut instance = ANodeInstance::new(declaration.type_id(), declaration.label());
    instance.config.set("mode", RuntimeValue::String("cmyk".to_string()));
    let value_types = ValueTypeRegistry::with_primitives();
    let ctx = SignatureCtx { value_types: &value_types, properties: None };
    let signature = declaration.signature(&ctx, &instance, None);
    let ids: Vec<&str> = signature.inputs.iter().map(|input| input.id.as_str()).collect();
    assert_eq!(ids, vec!["c", "m", "y", "k"]);
    let rgba = declaration.signature(&ctx, &ANodeInstance::new(declaration.type_id(), "Color"), None);
    assert_eq!(rgba.inputs[3].default_value, Some(RuntimeValue::Float(1.0f64.to_bits())));
}

#[test]
fn property_signature_reads_the_declared_type() {
    let declaration = PrimitiveNodeDeclaration::new(PrimitiveNodeKind::Property);
    let mut instance = ANodeInstance::new(declaration.type_id(), declaration.label());
    instance.config.set(
        "property_id",
        RuntimeValue::Ref(StableRef::new(ValueTypeId::new("property"), "amount")),
    );
    let mut schema = FormulaPropertySchema::new();
    schema.insert(FormulaPropertyDecl {
        id: FormulaPropertyId::new("amount"),
        label: "Amount".to_string(),
        description: None,
        value_type: ValueTypeId::new("vec2"),
        default_value: RuntimeValue::Vec2([0, 0]),
        ui: ParamUiHints::default(),
    });
    let value_types = ValueTypeRegistry::with_primitives();
    let with_schema = declaration.signature(
        &SignatureCtx { value_types: &value_types, properties: Some(&schema) },
        &instance,
        None,
    );
    assert_eq!(with_schema.outputs[0].constraint, TypeConstraint::Exact(ValueTypeId::new("vec2")));
    let without = declaration.signature(&SignatureCtx { value_types: &value_types, properties: None }, &instance, None);
    assert_eq!(without.outputs[0].constraint, TypeConstraint::Exact(ValueTypeId::new("unit")));
}

#[test]
fn config_fields_follow_the_chosen_method() {
    let smooth = PrimitiveNodeDeclaration::new(PrimitiveNodeKind::SmoothFilter);
    let mut instance = ANodeInstance::new(smooth.type_id(), smooth.label());
    let ids = |fields: Vec<golden_alchemist::node::ANodeConfigFieldDecl>| {
        fields.into_iter().map(|field| field.id).collect::<Vec<_>>()
    };
    assert_eq!(ids(smooth.config_fields_for(&instance)), vec!["method", "min_cutoff", "beta"]);
    instance.config.set("method", RuntimeValue::String("damping".to_string()));
    assert_eq!(ids(smooth.config_fields_for(&instance)), vec!["method", "mass", "friction"]);
    instance.config.set("method", RuntimeValue::String("median".to_string()));
    assert_eq!(ids(smooth.config_fields_for(&instance)), vec!["method", "window"]);

    let noise = PrimitiveNodeDeclaration::new(PrimitiveNodeKind::NoiseGenerator);
    let mut instance = ANodeInstance::new(noise.type_id(), noise.label());
    assert_eq!(ids(noise.config_fields_for(&instance)), vec!["algorithm", "seed", "scale"]);
    instance.config.set("algorithm", RuntimeValue::String("fractal".to_string()));
    assert_eq!(
        ids(noise.config_fields_for(&instance)),
        vec!["algorithm", "seed", "scale", "octaves", "persistence", "lacunarity"]
    );

    let text = PrimitiveNodeDeclaration::new(PrimitiveNodeKind::ConvertToString);
    let mut instance = ANodeInstance::new(text.type_id(), text.label());
    assert_eq!(ids(text.config_fields_for(&instance)), vec!["format", "decimals"]);
    instance.config.set("format", RuntimeValue::String("hexadecimal".to_string()));
    assert_eq!(ids(text.config_fields_for(&instance)), vec!["format"]);

    let math = PrimitiveNodeDeclaration::new(PrimitiveNodeKind::Math).config_fields();
    assert_eq!(math[0].enum_options.len(), 5);
    assert_eq!(math[1].default_value, RuntimeValue::Int(2));
    assert_eq!(math[1].editor.as_deref(), Some("optional_count"));
}
