use golden_alchemist::compile::{
    compile_property_operation, compile_property_schema, disabled_bypass_input, disabled_outputs,
    property_id_from_config, topological_order, validate_exposed_surface, CompiledFormulaPropertySchema,
};
use golden_alchemist::diagnostics::{has_errors, Diagnostic, DiagnosticOrigin, DiagnosticSeverity};
use golden_alchemist::expose::{ANodeFieldPath, ExposedAction, ExposedOutput, ExposedParam, ParamUiHints, ValueTypeSpec};
use golden_alchemist::formula::{FormulaPropertyDecl, FormulaPropertySchema};
use golden_alchemist::graph::{ANodeInstance, AlchemistGraph, InputSocketRef, OutputSocketRef};
use golden_alchemist::ids::{ANodeTypeId, ExposedDeclId, FormulaPropertyId, FormulaPropertySlotId, SocketId};
use golden_alchemist::registry::ValueTypeRegistry;
use golden_alchemist::typing::{ResolvedANodeSignature, ResolvedSocket};
use golden_alchemist::value::{RuntimeValue, ValueTypeId};

fn node(type_id: &str) -> ANodeInstance {
    ANodeInstance::new(ANodeTypeId::new(type_id), type_id)
}

fn property(id: &str, value_type: &str, default_value: RuntimeValue) -> FormulaPropertyDecl {
    FormulaPropertyDecl {
        id: FormulaPropertyId::new(id),
        label: id.to_string(),
        description: None,
        value_type: ValueTypeId::new(value_type),
        default_value,
        ui: ParamUiHints::default(),
    }
}

fn socket(id: &str, value_type: Option<&str>) -> ResolvedSocket {
    ResolvedSocket { id: SocketId::new(id), value_type: value_type.map(ValueTypeId::new) }
}

fn signature(inputs: &[(&str, Option<&str>)], outputs: &[(&str, Option<&str>)]) -> ResolvedANodeSignature {
    let mut signature = ResolvedANodeSignature::new();
    for (id, value_type) in inputs {
        signature.inputs.insert(SocketId::new(id), socket(id, *value_type));
    }
    for (id, value_type) in outputs {
        signature.outputs.insert(SocketId::new(id), socket(id, *value_type));
    }
    signature
}

#[test]
fn chain_orders_sources_before_targets() {
    let mut graph = AlchemistGraph::new();
    let c = graph.add_node(node("math")).unwrap();
    let b = graph.add_node(node("math")).unwrap();
    let a = graph.add_node(node("constant")).unwrap();
    graph.connect(OutputSocketRef::new(a, "value"), InputSocketRef::new(b, "value1")).unwrap();
    graph.connect(OutputSocketRef::new(b, "result"), InputSocketRef::new(c, "value1")).unwrap();

    let order = topological_order(&graph, &vec![false, false, false]).unwrap();
    let positions: Vec<usize> = order.iter().map(|id| id.index()).collect();
    assert_eq!(positions, vec![2, 1, 0]);
}

#[test]
fn topological_order_reports_cycle_nodes() {
    let mut graph = AlchemistGraph::new();
    let first = graph.add_node(node("math")).unwrap();
    let second = graph.add_node(node("math")).unwrap();
    graph.connect(OutputSocketRef::new(first, "result"), InputSocketRef::new(second, "value1")).unwrap();
    graph.connect(OutputSocketRef::new(second, "result"), InputSocketRef::new(first, "value1")).unwrap();

    let stuck = topological_order(&graph, &vec![false, false]).unwrap_err();
    assert_eq!(stuck, vec![first, second]);
}

#[test]
fn topological_order_skips_delay_edges() {
    let mut graph = AlchemistGraph::new();
    let math = graph.add_node(node("math")).unwrap();
    let delay = graph.add_node(node("delay_one_tick")).unwrap();
    graph.connect(OutputSocketRef::new(math, "result"), InputSocketRef::new(delay, "value")).unwrap();
    graph.connect(OutputSocketRef::new(delay, "value"), InputSocketRef::new(math, "value1")).unwrap();

    let order = topological_order(&graph, &vec![false, true]).unwrap();
    let positions: Vec<usize> = order.iter().map(|id| id.index()).collect();
    assert_eq!(positions, vec![0, 1]);
}

#[test]
fn property_node_reads_its_configured_slot() {
    let mut schema = FormulaPropertySchema::new();
    schema.insert(property("amount", "float", RuntimeValue::Float(0)));
    schema.insert(property("label", "string", RuntimeValue::String(String::new())));
    let registry = ValueTypeRegistry::with_primitives();
    let mut diagnostics = Vec::new();
    let compiled = compile_property_schema(Some(&schema), &registry, &mut diagnostics);
    assert!(diagnostics.is_empty());
    assert_eq!(compiled.len(), 2);
    assert_eq!(compiled.get(&FormulaPropertyId::new("label")).unwrap().slot, FormulaPropertySlotId::new(1));
    assert_eq!(
        compiled.get_slot(FormulaPropertySlotId::new(0)).unwrap().id,
        FormulaPropertyId::new("amount")
    );

    let mut reader = node("property");
    reader.config.set("property_id", RuntimeValue::String("label".to_string()));
    assert_eq!(property_id_from_config(&reader), Some(FormulaPropertyId::new("label")));
    assert_eq!(compile_property_operation(&reader, &compiled).unwrap(), FormulaPropertySlotId::new(1));
}

#[test]
fn property_node_errors_name_the_problem() {
    let compiled = CompiledFormulaPropertySchema::new();
    let unset = node("property");
    assert_eq!(property_id_from_config(&unset), None);
    let error = compile_property_operation(&unset, &compiled).unwrap_err();
    assert_eq!(error.code, "missing_property_id");
    assert_eq!(error.origin, DiagnosticOrigin::Node(unset.id));

    let mut empty = node("property");
    empty.config.set("property_id", RuntimeValue::String(String::new()));
    assert_eq!(property_id_from_config(&empty), None);

    let mut wrong_type = node("property");
    wrong_type.config.set("property_id", RuntimeValue::Int(3));
    assert_eq!(property_id_from_config(&wrong_type), None);

    let mut missing = node("property");
    missing.config.set("property_id", RuntimeValue::String("gain".to_string()));
    let error = compile_property_operation(&missing, &compiled).unwrap_err();
    assert_eq!(error.code, "missing_property_declaration");
    assert_eq!(error.message, "property node references missing property `gain`");
    assert_eq!(error.severity, DiagnosticSeverity::Error);
}

#[test]
fn property_schema_findings_are_reported() {
    let mut schema = FormulaPropertySchema::new();
    schema.insert(property("ok", "float", RuntimeValue::Float(0)));
    schema.insert(property("unknown", "example.nothing", RuntimeValue::Unit));
    schema.insert(property("mistyped", "int", RuntimeValue::Bool(true)));
    let registry = ValueTypeRegistry::with_primitives();
    let mut diagnostics = vec![Diagnostic::error("earlier", "kept".to_string(), DiagnosticOrigin::Runtime)];
    let compiled = compile_property_schema(Some(&schema), &registry, &mut diagnostics);
    let codes: Vec<&str> = diagnostics.iter().map(|d| d.code.as_str()).collect();
    assert_eq!(
        codes,
        vec![
            "earlier",
            "unknown_property_value_type",
            "invalid_property_default_type",
            "invalid_property_default_type"
        ]
    );
    assert_eq!(compiled.len(), 3);
    assert!(has_errors(&diagnostics));

    let mut none = Vec::new();
    let empty = compile_property_schema(None, &registry, &mut none);
    assert!(empty.is_empty());
    assert!(none.is_empty());
}

#[test]
fn disabled_node_bypasses_only_matching_single_socket() {
    let registry = ValueTypeRegistry::with_primitives();
    let matching = signature(&[("value", Some("float"))], &[("result", Some("float"))]);
    assert_eq!(disabled_bypass_input(&matching), Some(0));
    let outputs = disabled_outputs(&matching, &registry);
    assert_eq!(outputs.len(), 1);
    assert_eq!(outputs[0].input_index, Some(0));
    assert_eq!(outputs[0].default_value, RuntimeValue::Float(0));

    let different = signature(&[("value", Some("int"))], &[("result", Some("float"))]);
    assert_eq!(disabled_bypass_input(&different), None);

    let unknown = signature(&[("value", None)], &[("result", None)]);
    assert_eq!(disabled_bypass_input(&unknown), None);
    assert_eq!(disabled_outputs(&unknown, &registry)[0].default_value, RuntimeValue::Unit);

    let effect = signature(&[("value", Some("string"))], &[]);
    assert_eq!(disabled_bypass_input(&effect), None);
    assert!(disabled_outputs(&effect, &registry).is_empty());

    let two = signature(
        &[("value1", Some("bool")), ("value2", Some("bool"))],
        &[("result", Some("bool")), ("flag", Some("example.thing"))],
    );
    let outputs = disabled_outputs(&two, &registry);
    assert_eq!(outputs[0].input_index, None);
    assert_eq!(outputs[0].default_value, RuntimeValue::Bool(false));
    assert_eq!(outputs[1].default_value, RuntimeValue::Unit);
}

#[test]
fn exposed_declarations_must_target_nodes() {
    let mut graph = AlchemistGraph::new();
    let kept = graph.add_node(node("constant")).unwrap();
    let gone = graph.add_node(node("constant")).unwrap();
    graph.remove_node(gone).unwrap();
    graph.exposed.params.push(ExposedParam {
        decl_id: ExposedDeclId::new("gain"),
        label: "Gain".into(),
        description: None,
        target: ANodeFieldPath::new(gone, "value"),
        value_type: ValueTypeSpec::Exact(ValueTypeId::new("float")),
        ui: ParamUiHints::default(),
    });
    graph.exposed.outputs.push(ExposedOutput {
        decl_id: ExposedDeclId::new("level"),
        label: "Level".into(),
        source: ANodeFieldPath::new(kept, "value"),
        value_type: ValueTypeSpec::Exact(ValueTypeId::new("float")),
    });
    graph.exposed.actions.push(ExposedAction {
        decl_id: ExposedDeclId::new("fire"),
        label: "Fire".into(),
        target: ANodeFieldPath::new(gone, "trigger"),
    });

    let mut diagnostics = Vec::new();
    validate_exposed_surface(&graph.exposed, &graph, &mut diagnostics);
    assert_eq!(diagnostics.len(), 2);
    assert_eq!(diagnostics[0].code, "missing_exposed_target");
    assert_eq!(diagnostics[0].message, "exposed declaration `gain` targets a missing node");
    assert_eq!(diagnostics[1].message, "exposed declaration `fire` targets a missing node");
    assert_eq!(diagnostics[1].origin, DiagnosticOrigin::Graph);
}

#[test]
fn has_errors_ignores_warnings() {
    let mut diagnostics = vec![Diagnostic {
        code: "note".to_string(),
        message: "just a note".to_string(),
        severity: DiagnosticSeverity::Warning,
        origin: DiagnosticOrigin::Graph,
    }];
    assert!(!has_errors(&diagnostics));
    diagnostics.push(Diagnostic::error("bad", "bad".to_string(), DiagnosticOrigin::Graph));
    assert!(has_errors(&diagnostics));
}
