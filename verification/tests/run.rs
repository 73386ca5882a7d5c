use std::cell::RefCell;

use golden_alchemist::compiled::{compile_graph, CompileDeclaration, CompiledAlchemistGraph};
use golden_alchemist::formula::FormulaPropertySchema;
use golden_alchemist::frame::AlchemistMemory;
use golden_alchemist::graph::{ANodeInstance, AlchemistGraph, InputSocketRef, OutputSocketRef};
use golden_alchemist::ids::{ANodeTypeId, ExecNodeId, ValueSlotId};
use golden_alchemist::library::{PrimitiveNodeDeclaration, PrimitiveNodeKind};
use golden_alchemist::node::ExecutionKind;
use golden_alchemist::registry::ValueTypeRegistry;
use golden_alchemist::run::{apply_node_result, memory_fits, run_compiled_graph, NodeRun, RunRecord};
use golden_alchemist::signatures::SignatureCtx;
use golden_alchemist::solve::SolveDeclaration;
use golden_alchemist::value::RuntimeValue;

fn node(type_id: &str) -> ANodeInstance {
    ANodeInstance::new(ANodeTypeId::new(type_id), type_id)
}

fn compiled_graph(graph: &AlchemistGraph) -> CompiledAlchemistGraph {
    let value_types = ValueTypeRegistry::with_primitives();
    let properties: Option<&FormulaPropertySchema> = None;
    let ctx = SignatureCtx { value_types: &value_types, properties };
    let mut solve = Vec::new();
    let mut compile = Vec::new();
    for instance in graph.nodes.values() {
        let declaration = PrimitiveNodeKind::all()
            .into_iter()
            .find(|kind| kind.node_type_name() == instance.type_id.as_str())
            .map(PrimitiveNodeDeclaration::new)
            .unwrap();
        solve.push(Some(SolveDeclaration {
            execution_kind: declaration.execution_kind(),
            signature: declaration.signature(&ctx, instance, None),
        }));
        compile.push(Some(CompileDeclaration {
            signature: declaration.signature(&ctx, instance, None),
            breaks_dependency_cycle: declaration.breaks_dependency_cycle(),
            state_slot_count: if declaration.execution_kind() == ExecutionKind::Stateful { 1 } else { 0 },
            default_process_on_input_change_only: declaration.default_process_on_input_change_only(),
            default_send_on_output_change_only: declaration.default_send_on_output_change_only(),
        }));
    }
    compile_graph(graph, &value_types, properties, solve, &compile).compiled.unwrap()
}

fn constant_and_counter() -> CompiledAlchemistGraph {
    let mut graph = AlchemistGraph::new();
    graph.add_node(node("constant")).unwrap();
    graph.add_node(node("counter")).unwrap();
    compiled_graph(&graph)
}

fn float(value: f64) -> RuntimeValue {
    RuntimeValue::Float(value.to_bits())
}

#[test]
fn fitting_result_is_written_to_the_output_slots_with_samples() {
    let compiled = constant_and_counter();
    let mut memory = AlchemistMemory::for_graph(&compiled);
    let mut record = RunRecord::new();
    let node = &compiled.exec_nodes[0];
    let slot = node.outputs[0];

    let written = apply_node_result(&mut memory, node, node.exec_id, Ok(vec![float(2.5)]), 7, &mut record);

    assert!(written);
    assert_eq!(memory.value(slot), Some(&float(2.5)));
    assert_eq!(record.samples.len(), 1);
    assert_eq!(record.samples[0].exec_node, node.exec_id);
    assert_eq!(record.samples[0].output_slot, slot);
    assert_eq!(record.samples[0].value, float(2.5));
    assert_eq!(record.samples[0].logical_tick, 7);
    assert!(record.diagnostics.is_empty());
}

#[test]
fn wrong_number_of_values_is_reported_and_nothing_is_written() {
    let compiled = constant_and_counter();
    let mut memory = AlchemistMemory::for_graph(&compiled);
    let mut record = RunRecord::new();
    let node = &compiled.exec_nodes[0];

    let written = apply_node_result(&mut memory, node, node.exec_id, Ok(vec![float(1.0), float(2.0)]), 3, &mut record);

    assert!(!written);
    assert_eq!(memory.value(node.outputs[0]), Some(&RuntimeValue::Unit));
    assert!(record.samples.is_empty());
    assert_eq!(record.diagnostics.len(), 1);
    assert_eq!(record.diagnostics[0].exec_node, node.exec_id);
    assert_eq!(record.diagnostics[0].message, "node produced 2 output(s), expected 1");
}

#[test]
fn operation_error_is_reported_with_its_message() {
    let compiled = constant_and_counter();
    let mut memory = AlchemistMemory::for_graph(&compiled);
    let mut record = RunRecord::new();
    let node = &compiled.exec_nodes[1];

    let written = apply_node_result(&mut memory, node, node.exec_id, Err("boom".to_string()), 0, &mut record);

    assert!(!written);
    assert!(record.samples.is_empty());
    assert_eq!(record.diagnostics[0].message, "boom");
    assert_eq!(record.diagnostics[0].exec_node, ExecNodeId::new(1));
}

#[test]
fn memory_fits_the_graph_it_was_laid_out_for() {
    let compiled = constant_and_counter();
    let memory = AlchemistMemory::for_graph(&compiled);
    assert!(memory_fits(&compiled, &memory));

    let empty = compiled_graph(&AlchemistGraph::new());
    let small = AlchemistMemory::for_graph(&empty);
    assert!(!memory_fits(&compiled, &small));
}

#[test]
fn run_visits_nodes_in_order_and_skips_failed_inputs() {
    let mut graph = AlchemistGraph::new();
    let constant = graph.add_node(node("constant")).unwrap();
    let math = graph.add_node(node("math")).unwrap();
    graph.connect(OutputSocketRef::new(constant, "value"), InputSocketRef::new(math, "value1")).unwrap();
    let compiled = compiled_graph(&graph);
    let mut memory = AlchemistMemory::for_graph(&compiled);
    let mut record = RunRecord::new();
    let visited = RefCell::new(Vec::new());
    let logged = RefCell::new(0usize);

    run_compiled_graph(
        &compiled,
        &mut memory,
        4,
        |id: ExecNodeId, _memory: &AlchemistMemory, state: Vec<RuntimeValue>| {
            visited.borrow_mut().push(id);
            if id.index() == 0 {
                NodeRun::Ran { inputs: Vec::new(), result: Ok(vec![float(1.5)]), state }
            } else {
                NodeRun::InputFailed("cannot read input".to_string())
            }
        },
        |_id: ExecNodeId, _inputs: &Vec<RuntimeValue>, _outputs: &Vec<RuntimeValue>| {
            *logged.borrow_mut() += 1;
        },
        &mut record,
    );

    assert_eq!(visited.into_inner(), compiled.topo_order);
    assert_eq!(memory.value(compiled.exec_nodes[0].outputs[0]), Some(&float(1.5)));
    assert_eq!(record.samples.len(), 1);
    assert_eq!(record.samples[0].logical_tick, 4);
    assert_eq!(record.diagnostics.len(), 1);
    assert_eq!(record.diagnostics[0].exec_node, ExecNodeId::new(1));
    assert_eq!(record.diagnostics[0].message, "cannot read input");
    assert_eq!(logged.into_inner(), 0);
}

#[test]
fn run_writes_back_the_state_a_node_leaves() {
    let compiled = constant_and_counter();
    let mut memory = AlchemistMemory::for_graph(&compiled);
    let mut record = RunRecord::new();

    run_compiled_graph(
        &compiled,
        &mut memory,
        0,
        |id: ExecNodeId, _memory: &AlchemistMemory, state: Vec<RuntimeValue>| {
            let state = state.into_iter().map(|_| RuntimeValue::Int(5)).collect();
            NodeRun::Ran { inputs: Vec::new(), result: Err(format!("node {}", id.index())), state }
        },
        |_id: ExecNodeId, _inputs: &Vec<RuntimeValue>, _outputs: &Vec<RuntimeValue>| {},
        &mut record,
    );

    assert_eq!(memory.state_slice(0, 1), vec![RuntimeValue::Int(5)]);
    assert_eq!(record.diagnostics.len(), 2);
    assert_eq!(record.diagnostics[0].message, "node 0");
    assert_eq!(record.diagnostics[1].message, "node 1");
    assert_eq!(memory.value(ValueSlotId(0)), Some(&RuntimeValue::Unit));
}

#[test]
fn written_outputs_of_a_logging_node_are_handed_to_the_log() {
    let mut graph = AlchemistGraph::new();
    let mut source = node("constant");
    source.config.set("log", RuntimeValue::Bool(true));
    graph.add_node(source).unwrap();
    let compiled = compiled_graph(&graph);
    assert!(compiled.exec_nodes[0].log_enabled);
    let mut memory = AlchemistMemory::for_graph(&compiled);
    let mut record = RunRecord::new();
    let logged = RefCell::new(Vec::new());

    run_compiled_graph(
        &compiled,
        &mut memory,
        7,
        |_id: ExecNodeId, _memory: &AlchemistMemory, state: Vec<RuntimeValue>| NodeRun::Ran {
            inputs: vec![RuntimeValue::Int(1)],
            result: Ok(vec![float(4.0)]),
            state,
        },
        |id: ExecNodeId, inputs: &Vec<RuntimeValue>, outputs: &Vec<RuntimeValue>| {
            logged.borrow_mut().push((id, inputs.clone(), outputs.clone()));
        },
        &mut record,
    );

    let logged = logged.into_inner();
    assert_eq!(logged.len(), 1);
    assert_eq!(logged[0], (ExecNodeId::new(0), vec![RuntimeValue::Int(1)], vec![float(4.0)]));
    assert_eq!(record.samples.len(), 1);
    assert_eq!(record.samples[0].logical_tick, 7);
}
