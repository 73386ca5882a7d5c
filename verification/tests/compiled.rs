use golden_alchemist::compiled::{compile_graph, CompileDeclaration, CompileResult, PlannedOperation};
use golden_alchemist::compile::InputValueSource;
use golden_alchemist::formula::{FormulaPropertyDecl, FormulaPropertySchema};
use golden_alchemist::frame::AlchemistMemory;
use golden_alchemist::expose::ParamUiHints;
use golden_alchemist::graph::{ANodeInstance, AlchemistGraph, InputSocketRef, OutputSocketRef};
use golden_alchemist::ids::{ANodeTypeId, FormulaPropertyId, FormulaPropertySlotId};
use golden_alchemist::library::{PrimitiveNodeDeclaration, PrimitiveNodeKind};
use golden_alchemist::node::ExecutionKind;
use golden_alchemist::registry::ValueTypeRegistry;
use golden_alchemist::signatures::SignatureCtx;
use golden_alchemist::solve::SolveDeclaration;
use golden_alchemist::value::{RuntimeValue, ValueTypeId};

fn node(type_id: &str) -> ANodeInstance {
    ANodeInstance::new(ANodeTypeId::new(type_id), type_id)
}

fn primitive(type_id: &str) -> Option<PrimitiveNodeDeclaration> {
    PrimitiveNodeKind::all()
        .into_iter()
        .find(|kind| kind.node_type_name() == type_id)
        .map(PrimitiveNodeDeclaration::new)
}

fn declarations(
    graph: &AlchemistGraph,
    value_types: &ValueTypeRegistry,
    properties: Option<&FormulaPropertySchema>,
) -> (Vec<Option<SolveDeclaration>>, Vec<Option<CompileDeclaration>>) {
    let ctx = SignatureCtx { value_types, properties };
    let mut solve = Vec::new();
    let mut compile = Vec::new();
    for instance in graph.nodes.values() {
        match primitive(instance.type_id.as_str()) {
            Some(declaration) => {
                solve.push(Some(SolveDeclaration {
                    execution_kind: declaration.execution_kind(),
                    signature: declaration.signature(&ctx, instance, None),
                }));
                compile.push(Some(CompileDeclaration {
                    signature: declaration.signature(&ctx, instance, None),
                    breaks_dependency_cycle: declaration.breaks_dependency_cycle(),
                    state_slot_count: if declaration.execution_kind() == ExecutionKind::Stateful { 1 } else { 0 },
                    default_process_on_input_change_only: declaration.default_process_on_input_change_only(),
                    default_send_on_output_change_only: declaration.default_send_on_output_change_only(),
                }));
            }
            None => {
                solve.push(None);
                compile.push(None);
            }
        }
    }
    (solve, compile)
}

fn compile_with(graph: &AlchemistGraph, properties: Option<&FormulaPropertySchema>) -> CompileResult {
    let value_types = ValueTypeRegistry::with_primitives();
    let (solve, compile) = declarations(graph, &value_types, properties);
    compile_graph(graph, &value_types, properties, solve, &compile)
}

fn compile(graph: &AlchemistGraph) -> CompileResult {
    compile_with(graph, None)
}

#[test]
fn compiler_builds_dense_schedule_and_memory_layout() {
    let mut graph = AlchemistGraph::new();
    let mut constant = node("constant");
    constant.config.set("value", RuntimeValue::Float(2.0f64.to_bits()));
    let constant = graph.add_node(constant).unwrap();
    let add = graph.add_node(node("math")).unwrap();
    let delay = graph.add_node(node("delay_one_tick")).unwrap();
    graph.connect(OutputSocketRef::new(constant, "value"), InputSocketRef::new(add, "value1")).unwrap();

    let result = compile(&graph);
    let compiled = result.compiled.unwrap();

    assert_eq!(compiled.exec_nodes.len(), 3);
    assert_eq!(compiled.topo_order.len(), 3);
    assert_eq!(compiled.exec_nodes[0].exec_id.index(), 0);
    assert_eq!(compiled.exec_nodes[1].exec_id.index(), 1);
    assert_eq!(compiled.debug_map.exec_to_authored, vec![constant, add, delay]);
    assert_eq!(compiled.state_layout.state_slot_count, 1);
}

#[test]
fn cycle_without_delay_is_reported() {
    let mut graph = AlchemistGraph::new();
    let first = graph.add_node(node("math")).unwrap();
    let second = graph.add_node(node("math")).unwrap();
    graph.connect(OutputSocketRef::new(first, "result"), InputSocketRef::new(second, "value1")).unwrap();
    graph.connect(OutputSocketRef::new(second, "result"), InputSocketRef::new(first, "value1")).unwrap();

    let result = compile(&graph);

    assert!(result.compiled.is_none());
    assert!(result.diagnostics.iter().any(|diagnostic| diagnostic.code == "cycle_without_delay"));
}

#[test]
fn delay_node_allows_feedback() {
    let mut graph = AlchemistGraph::new();
    let add = graph.add_node(node("math")).unwrap();
    let delay = graph.add_node(node("delay_one_tick")).unwrap();
    graph.connect(OutputSocketRef::new(add, "result"), InputSocketRef::new(delay, "value")).unwrap();
    graph.connect(OutputSocketRef::new(delay, "value"), InputSocketRef::new(add, "value1")).unwrap();

    let result = compile(&graph);

    assert!(!result.has_errors(), "{:?}", result.diagnostics);
    assert_eq!(result.compiled.unwrap().topo_order.len(), 2);
}

#[test]
fn cycle_message_counts_the_stuck_nodes() {
    let mut graph = AlchemistGraph::new();
    let first = graph.add_node(node("math")).unwrap();
    let second = graph.add_node(node("math")).unwrap();
    graph.connect(OutputSocketRef::new(first, "result"), InputSocketRef::new(second, "value1")).unwrap();
    graph.connect(OutputSocketRef::new(second, "result"), InputSocketRef::new(first, "value1")).unwrap();

    let result = compile(&graph);

    assert_eq!(result.diagnostics.len(), 1);
    assert_eq!(result.diagnostics[0].message, "graph cycle involves 2 node(s)");
}

#[test]
fn slots_are_numbered_by_node_then_output() {
    let mut graph = AlchemistGraph::new();
    let constant = graph.add_node(node("constant")).unwrap();
    let math = graph.add_node(node("math")).unwrap();
    graph.connect(OutputSocketRef::new(constant, "value"), InputSocketRef::new(math, "value2")).unwrap();

    let compiled = compile(&graph).compiled.unwrap();

    assert_eq!(compiled.exec_nodes[0].outputs[0].index(), 0);
    assert_eq!(compiled.exec_nodes[1].outputs[0].index(), 1);
    assert_eq!(compiled.state_layout.value_slot_count, 2);
    assert_eq!(compiled.exec_nodes[1].output_sockets[0].as_str(), "result");
    match &compiled.exec_nodes[1].inputs[1] {
        InputValueSource::Slot(slot) => assert_eq!(slot.index(), 0),
        other => panic!("unexpected source {other:?}"),
    }
    assert!(matches!(compiled.exec_nodes[1].inputs[0], InputValueSource::Constant(_)));
    assert!(matches!(compiled.exec_nodes[0].operation, PlannedOperation::Declared));
}

#[test]
fn state_ranges_follow_node_order_and_skip_disabled_nodes() {
    let mut graph = AlchemistGraph::new();
    let first = graph.add_node(node("delay_one_tick")).unwrap();
    let mut disabled = node("counter");
    disabled.enabled = false;
    graph.add_node(disabled).unwrap();
    graph.add_node(node("counter")).unwrap();

    let compiled = compile(&graph).compiled.unwrap();

    assert_eq!(compiled.state_layout.ranges, vec![(0, 1), (1, 1), (1, 2)]);
    assert_eq!(compiled.exec_nodes[0].authored_id, first);
    assert_eq!(compiled.exec_nodes[2].state_range, (1, 2));
    assert!(matches!(compiled.exec_nodes[1].operation, PlannedOperation::Disabled { .. }));
    assert!(compiled.analysis.has_stateful_nodes);
    assert_eq!(compiled.analysis.state_slot_count, 2);
}

#[test]
fn change_gating_and_logging_come_from_config() {
    let mut graph = AlchemistGraph::new();
    let mut math = node("math");
    math.config.set("process_on_input_change_only", RuntimeValue::Bool(false));
    math.config.set("log", RuntimeValue::Bool(true));
    graph.add_node(math).unwrap();
    graph.add_node(node("math")).unwrap();

    let compiled = compile(&graph).compiled.unwrap();

    assert!(!compiled.exec_nodes[0].process_on_input_change_only);
    assert!(compiled.exec_nodes[0].log_enabled);
    assert!(compiled.exec_nodes[1].process_on_input_change_only);
    assert!(!compiled.exec_nodes[1].log_enabled);
    assert!(compiled.analysis.has_always_process_nodes);
    assert!(compiled.analysis.has_input_gated_nodes);
    assert!(!compiled.analysis.has_effect_emitters);
}

#[test]
fn property_nodes_read_their_slot_and_report_missing_properties() {
    let mut schema = FormulaPropertySchema::new();
    schema.insert(FormulaPropertyDecl {
        id: FormulaPropertyId::new("speed"),
        label: "speed".to_string(),
        description: None,
        value_type: ValueTypeId::new("float"),
        default_value: RuntimeValue::Float(0),
        ui: ParamUiHints::default(),
    });
    let mut graph = AlchemistGraph::new();
    let mut reader = node("property");
    reader.config.set("property_id", RuntimeValue::String("speed".to_string()));
    graph.add_node(reader).unwrap();

    let compiled = compile_with(&graph, Some(&schema)).compiled.unwrap();
    assert!(matches!(compiled.exec_nodes[0].operation, PlannedOperation::ReadProperty(FormulaPropertySlotId(0))));

    let mut missing = node("property");
    missing.config.set("property_id", RuntimeValue::String("other".to_string()));
    let id = graph.add_node(missing).unwrap();
    let result = compile_with(&graph, Some(&schema));
    assert!(result.compiled.is_none());
    assert_eq!(result.diagnostics.len(), 1);
    assert_eq!(result.diagnostics[0].code, "missing_property_declaration");
    assert_eq!(result.diagnostics[0].message, "property node references missing property `other`");
    assert_eq!(result.diagnostics[0].origin, golden_alchemist::diagnostics::DiagnosticOrigin::Node(id));
}

#[test]
fn unknown_node_type_stops_before_planning() {
    let mut graph = AlchemistGraph::new();
    graph.add_node(node("no_such_node")).unwrap();

    let result = compile(&graph);

    assert!(result.compiled.is_none());
    assert_eq!(result.diagnostics[0].code, "missing_node_declaration");
}

#[test]
fn memory_has_one_unit_per_slot_of_the_layout() {
    let mut graph = AlchemistGraph::new();
    graph.add_node(node("constant")).unwrap();
    graph.add_node(node("counter")).unwrap();

    let compiled = compile(&graph).compiled.unwrap();
    let memory = AlchemistMemory::for_graph(&compiled);

    assert_eq!(memory.value_len(), compiled.state_layout.value_slot_count);
    assert_eq!(memory.state_len(), 1);
    assert!(!memory.is_stateless());
    assert_eq!(memory.value(golden_alchemist::ids::ValueSlotId(0)), Some(&RuntimeValue::Unit));
}
