use golden_alchemist::compiled::{compile_graph, CompileDeclaration, CompileResult};
use golden_alchemist::graph::{AEdge, ANodeInstance, AlchemistGraph, InputSocketRef, OutputSocketRef};
use golden_alchemist::ids::ANodeTypeId;
use golden_alchemist::library::{PrimitiveNodeDeclaration, PrimitiveNodeKind};
use golden_alchemist::node::ExecutionKind;
use golden_alchemist::registry::ValueTypeRegistry;
use golden_alchemist::signatures::SignatureCtx;
use golden_alchemist::solve::SolveDeclaration;
use golden_alchemist::text::{concat3, str_eq};

fn node(type_id: &str) -> ANodeInstance {
    ANodeInstance::new(ANodeTypeId::new(type_id), type_id)
}

fn compile(graph: &AlchemistGraph) -> CompileResult {
    let value_types = ValueTypeRegistry::with_primitives();
    let ctx = SignatureCtx { value_types: &value_types, properties: None };
    let mut solve = Vec::new();
    let mut compile = Vec::new();
    for instance in graph.nodes.values() {
        let declaration = PrimitiveNodeKind::all()
            .into_iter()
            .find(|kind| kind.node_type_name() == instance.type_id.as_str())
            .map(PrimitiveNodeDeclaration::new)
            .unwrap();
        solve.push(Some(SolveDeclaration {
            execution_kind: declaration.execution_kind(),
            signature: declaration.signature(&ctx, instance, None),
        }));
        compile.push(Some(CompileDeclaration {
            signature: declaration.signature(&ctx, instance, None),
            breaks_dependency_cycle: declaration.breaks_dependency_cycle(),
            state_slot_count: if declaration.execution_kind() == ExecutionKind::Stateful { 1 } else { 0 },
            default_process_on_input_change_only: declaration.default_process_on_input_change_only(),
            default_send_on_output_change_only: declaration.default_send_on_output_change_only(),
        }));
    }
    compile_graph(graph, &value_types, None, solve, &compile)
}

#[test]
fn built_in_kinds_have_distinct_type_names() {
    let kinds = PrimitiveNodeKind::all();
    for (i, a) in kinds.iter().enumerate() {
        for b in &kinds[i + 1..] {
            assert_ne!(a.node_type_name(), b.node_type_name());
        }
    }
    assert_eq!(PrimitiveNodeKind::Math.node_type_name(), "math");
    assert_eq!(PrimitiveNodeKind::DelayOneTick.node_type_name(), "delay_one_tick");
    assert_eq!(PrimitiveNodeKind::TriggerOnOff.node_type_name(), "trigger_on_off");
}

#[test]
fn compiled_exactly_when_no_error_was_found() {
    let mut graph = AlchemistGraph::new();
    let first = graph.add_node(node("math")).unwrap();
    let second = graph.add_node(node("math")).unwrap();
    graph.connect(OutputSocketRef::new(first, "result"), InputSocketRef::new(second, "value1")).unwrap();
    let ok = compile(&graph);
    assert!(ok.compiled.is_some());
    assert!(!ok.has_errors());

    graph.connect(OutputSocketRef::new(second, "result"), InputSocketRef::new(first, "value1")).unwrap();
    let cyclic = compile(&graph);
    assert!(cyclic.compiled.is_none());
    assert!(cyclic.has_errors());
}

#[test]
fn edge_to_a_missing_node_is_reported_not_refused() {
    let mut graph = AlchemistGraph::new();
    let constant = graph.add_node(node("constant")).unwrap();
    let missing = constant + 1_000_000;
    graph.edges.push(AEdge {
        from: OutputSocketRef::new(constant, "value"),
        to: InputSocketRef::new(missing, "value1"),
    });

    let result = compile(&graph);

    assert!(result.compiled.is_none());
    assert!(result.has_errors());
    assert!(result.diagnostics.iter().any(|diagnostic| diagnostic.code == "missing_input_socket"));
}

#[test]
fn second_edge_into_one_input_still_compiles() {
    let mut graph = AlchemistGraph::new();
    let first = graph.add_node(node("constant")).unwrap();
    let second = graph.add_node(node("constant")).unwrap();
    let math = graph.add_node(node("math")).unwrap();
    graph.connect(OutputSocketRef::new(first, "value"), InputSocketRef::new(math, "value1")).unwrap();
    graph.edges.push(AEdge {
        from: OutputSocketRef::new(second, "value"),
        to: InputSocketRef::new(math, "value1"),
    });

    let result = compile(&graph);

    assert!(result.compiled.is_some());
    assert!(!result.has_errors());
}

#[test]
fn strings_compare_and_join_by_their_characters() {
    assert!(str_eq("filter", "filter"));
    assert!(!str_eq("filter", "filtre"));
    assert!(!str_eq("filter", "filters"));
    assert!(str_eq("", ""));
    assert_eq!(concat3("a", "bc", "d"), "abcd");
}
