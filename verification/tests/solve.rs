use golden_alchemist::diagnostics::DiagnosticOrigin;
use golden_alchemist::graph::{ANodeInstance, AlchemistGraph, InputSocketRef, OutputSocketRef};
use golden_alchemist::ids::{ANodeId, ANodeTypeId, SocketId};
use golden_alchemist::library::{PrimitiveNodeDeclaration, PrimitiveNodeKind};
use golden_alchemist::node::{ANodeSignature, ExecutionKind, InputSocketDecl, OutputSocketDecl};
use golden_alchemist::registry::{ValueTypeDescriptor, ValueTypeRegistry};
use golden_alchemist::signatures::SignatureCtx;
use golden_alchemist::solve::{socket_error, solve_types, SolveDeclaration, TypeSolveResult};
use golden_alchemist::typing::{TypeBindingSource, TypeConstraint, TypeVar};
use golden_alchemist::value::{
    ColorValue, DurationValue, FacetId, RuntimeValue, StableRef, TriggerValue, ValueStorageKind, ValueTypeId,
};

fn declarations(
    graph: &AlchemistGraph,
    value_types: &ValueTypeRegistry,
    extra: &dyn Fn(&str) -> Option<SolveDeclaration>,
) -> Vec<Option<SolveDeclaration>> {
    graph
        .nodes
        .values()
        .map(|instance| {
            let primitive = PrimitiveNodeKind::all()
                .into_iter()
                .find(|kind| kind.node_type_name() == instance.type_id.as_str());
            match primitive {
                Some(kind) => {
                    let declaration = PrimitiveNodeDeclaration::new(kind);
                    let signature = declaration.signature(
                        &SignatureCtx { value_types, properties: None },
                        instance,
                        None,
                    );
                    Some(SolveDeclaration { execution_kind: declaration.execution_kind(), signature })
                }
                None => extra(instance.type_id.as_str()),
            }
        })
        .collect()
}

fn solve(graph: &AlchemistGraph, value_types: &ValueTypeRegistry) -> TypeSolveResult {
    solve_types(graph, declarations(graph, value_types, &|_| None), value_types)
}

fn constant(value: RuntimeValue) -> ANodeInstance {
    let mut node = ANodeInstance::new(ANodeTypeId::new("constant"), "Constant");
    node.config.set("value", value);
    node
}

fn bits(value: f64) -> u64 {
    value.to_bits()
}

fn runtime_value(value_type: &str) -> RuntimeValue {
    match value_type {
        "unit" => RuntimeValue::Unit,
        "bool" => RuntimeValue::Bool(true),
        "trigger" => RuntimeValue::Trigger(TriggerValue::idle()),
        "int" => RuntimeValue::Int(1),
        "float" => RuntimeValue::Float(bits(1.0)),
        "string" => RuntimeValue::String("1".into()),
        "vec2" => RuntimeValue::Vec2([bits(1.0), bits(2.0)]),
        "vec3" => RuntimeValue::Vec3([bits(1.0), bits(2.0), bits(3.0)]),
        "color" => RuntimeValue::Color(ColorValue {
            red: 1.0f32.to_bits(),
            green: 0.5f32.to_bits(),
            blue: 0.25f32.to_bits(),
            alpha: 1.0f32.to_bits(),
        }),
        "duration" => RuntimeValue::Duration(DurationValue { secs: 1, nanos: 0 }),
        _ => panic!("unsupported test value type `{value_type}`"),
    }
}

fn assert_resolved_socket_types(
    result: &TypeSolveResult,
    node: ANodeId,
    inputs: &[&str],
    outputs: &[&str],
    expected_type: &str,
) {
    let signature = &result.graph.nodes[&node].signature;
    let expected = Some(ValueTypeId::new(expected_type));
    for input in inputs {
        assert_eq!(
            signature.inputs[&SocketId::new(input)].value_type,
            expected,
            "input `{input}` should resolve to `{expected_type}`"
        );
    }
    for output in outputs {
        assert_eq!(
            signature.outputs[&SocketId::new(output)].value_type,
            expected,
            "output `{output}` should resolve to `{expected_type}`"
        );
    }
}

#[test]
fn math_defaults_to_float() {
    let mut graph = AlchemistGraph::new();
    let add = graph
        .add_node(ANodeInstance::new(ANodeTypeId::new("math"), "Math"))
        .unwrap();
    let result = solve(&graph, &ValueTypeRegistry::with_primitives());

    assert!(!result.has_errors());
    assert_eq!(
        result.graph.nodes[&add].signature.outputs[&SocketId::new("result")].value_type,
        Some(ValueTypeId::new("float"))
    );
}

#[test]
fn vec3_connection_reshapes_math_inputs_and_output() {
    let mut graph = AlchemistGraph::new();
    let source = graph.add_node(constant(runtime_value("vec3"))).unwrap();
    let add = graph
        .add_node(ANodeInstance::new(ANodeTypeId::new("math"), "Math"))
        .unwrap();
    graph
        .connect(OutputSocketRef::new(source, "value"), InputSocketRef::new(add, "value1"))
        .unwrap();

    let result = solve(&graph, &ValueTypeRegistry::with_primitives());
    let signature = &result.graph.nodes[&add].signature;

    assert!(!result.has_errors(), "{:?}", result.diagnostics);
    for socket in ["value1", "value2"] {
        assert_eq!(
            signature.inputs[&SocketId::new(socket)].value_type,
            Some(ValueTypeId::new("vec3"))
        );
    }
    assert_eq!(
        signature.outputs[&SocketId::new("result")].value_type,
        Some(ValueTypeId::new("vec3"))
    );
}

#[test]
fn first_generic_input_decides_numeric_node_type() {
    let mut graph = AlchemistGraph::new();
    let vec3_source = graph.add_node(constant(runtime_value("vec3"))).unwrap();
    let float_source = graph.add_node(constant(runtime_value("float"))).unwrap();
    let add = graph
        .add_node(ANodeInstance::new(ANodeTypeId::new("math"), "Math"))
        .unwrap();
    graph
        .connect(OutputSocketRef::new(vec3_source, "value"), InputSocketRef::new(add, "value2"))
        .unwrap();
    graph
        .connect(OutputSocketRef::new(float_source, "value"), InputSocketRef::new(add, "value1"))
        .unwrap();

    let result = solve(&graph, &ValueTypeRegistry::with_primitives());

    assert!(!result.has_errors(), "{:?}", result.diagnostics);
    assert_resolved_socket_types(&result, add, &["value1", "value2"], &["result"], "float");
}

#[test]
fn numeric_node_keeps_supported_type_for_convertible_non_numeric_input() {
    let mut graph = AlchemistGraph::new();
    let source = graph.add_node(constant(RuntimeValue::String("12.5".into()))).unwrap();
    let add = graph
        .add_node(ANodeInstance::new(ANodeTypeId::new("math"), "Math"))
        .unwrap();
    graph
        .connect(OutputSocketRef::new(source, "value"), InputSocketRef::new(add, "value1"))
        .unwrap();

    let result = solve(&graph, &ValueTypeRegistry::with_primitives());

    assert!(!result.has_errors(), "{:?}", result.diagnostics);
    assert_resolved_socket_types(&result, add, &["value1", "value2"], &["result"], "float");
}

#[test]
fn numeric_generic_nodes_infer_each_supported_connected_type() {
    let specs: [(&str, &str, &[&str], &[&str]); 4] = [
        ("math", "value1", &["value1", "value2"], &["result"]),
        ("one_minus", "value", &["value"], &["result"]),
        ("inverse", "value", &["value"], &["result"]),
        ("negate", "value", &["value"], &["result"]),
    ];

    for (type_id, source_input, inputs, outputs) in specs {
        for value_type in ["int", "float", "vec2", "vec3", "color"] {
            let mut graph = AlchemistGraph::new();
            let source = graph.add_node(constant(runtime_value(value_type))).unwrap();
            let target = graph
                .add_node(ANodeInstance::new(ANodeTypeId::new(type_id), type_id))
                .unwrap();
            graph
                .connect(OutputSocketRef::new(source, "value"), InputSocketRef::new(target, source_input))
                .unwrap();

            let result = solve(&graph, &ValueTypeRegistry::with_primitives());

            assert!(!result.has_errors(), "{:?}", result.diagnostics);
            assert_resolved_socket_types(&result, target, inputs, outputs, value_type);
        }
    }
}

#[test]
fn open_generic_nodes_infer_each_connected_primitive_type() {
    let specs: [(&str, &str, &[&str], &[&str]); 2] = [
        ("compare", "left", &["left", "right"], &[]),
        ("delay_one_tick", "value", &["value"], &["value"]),
    ];

    for (type_id, source_input, inputs, outputs) in specs {
        for value_type in [
            "unit", "bool", "trigger", "int", "float", "string", "vec2", "vec3", "color", "duration",
        ] {
            let mut graph = AlchemistGraph::new();
            let source = graph.add_node(constant(runtime_value(value_type))).unwrap();
            let target = graph
                .add_node(ANodeInstance::new(ANodeTypeId::new(type_id), type_id))
                .unwrap();
            graph
                .connect(OutputSocketRef::new(source, "value"), InputSocketRef::new(target, source_input))
                .unwrap();

            let result = solve(&graph, &ValueTypeRegistry::with_primitives());

            assert!(!result.has_errors(), "{:?}", result.diagnostics);
            assert_resolved_socket_types(&result, target, inputs, outputs, value_type);
        }
    }
}

#[test]
fn forced_float_accepts_vec3_connection_with_coercion() {
    let mut graph = AlchemistGraph::new();
    let source = graph.add_node(constant(runtime_value("vec3"))).unwrap();
    let mut add_node = ANodeInstance::new(ANodeTypeId::new("math"), "Math");
    add_node.forced_type_bindings.insert(
        TypeVar::new("TNumeric"),
        ValueTypeId::new("float"),
        TypeBindingSource::ForcedByUser,
    );
    let add = graph.add_node(add_node).unwrap();
    graph
        .connect(OutputSocketRef::new(source, "value"), InputSocketRef::new(add, "value1"))
        .unwrap();

    let result = solve(&graph, &ValueTypeRegistry::with_primitives());

    assert!(!result.has_errors(), "{:?}", result.diagnostics);
    let signature = &result.graph.nodes[&add].signature;
    for socket in ["value1", "value2"] {
        assert_eq!(
            signature.inputs[&SocketId::new(socket)].value_type,
            Some(ValueTypeId::new("float"))
        );
    }
    assert_eq!(
        signature.outputs[&SocketId::new("result")].value_type,
        Some(ValueTypeId::new("float"))
    );
}

fn facet_sink() -> SolveDeclaration {
    let mut signature = ANodeSignature::new();
    signature.inputs.push(InputSocketDecl::new(
        "target",
        "Target",
        TypeConstraint::Facet(FacetId::new("command_target")),
    ));
    signature.outputs.push(OutputSocketDecl::new(
        "accepted",
        "Accepted",
        TypeConstraint::Exact(ValueTypeId::new("bool")),
    ));
    SolveDeclaration { execution_kind: ExecutionKind::Pure, signature }
}

#[test]
fn facet_socket_accepts_registered_app_value() {
    let module_type = ValueTypeId::new("example.module");
    let mut value_types = ValueTypeRegistry::with_primitives();
    value_types
        .register(
            ValueTypeDescriptor::new(
                module_type.clone(),
                "Module",
                ValueStorageKind::StableRef,
                RuntimeValue::Ref(StableRef::new(module_type.clone(), "default")),
            )
            .with_facets(vec![FacetId::new("command_target")]),
        )
        .unwrap();
    let mut graph = AlchemistGraph::new();
    let source = graph
        .add_node(constant(RuntimeValue::Ref(StableRef::new(module_type, "module-1"))))
        .unwrap();
    let sink = graph
        .add_node(ANodeInstance::new(ANodeTypeId::new("test.facet_sink"), "Sink"))
        .unwrap();
    graph
        .connect(OutputSocketRef::new(source, "value"), InputSocketRef::new(sink, "target"))
        .unwrap();

    let result = solve_types(
        &graph,
        declarations(&graph, &value_types, &|id| (id == "test.facet_sink").then(facet_sink)),
        &value_types,
    );

    assert!(!result.has_errors(), "{:?}", result.diagnostics);
    assert_eq!(
        result.graph.nodes[&sink].signature.inputs[&SocketId::new("target")].value_type,
        Some(ValueTypeId::new("example.module"))
    );
}

#[test]
fn solving_reports_each_kind_of_finding() {
    let value_types = ValueTypeRegistry::with_primitives();
    let mut graph = AlchemistGraph::new();
    let unknown = graph
        .add_node(ANodeInstance::new(ANodeTypeId::new("example.unknown"), "Unknown"))
        .unwrap();
    let text = graph.add_node(constant(RuntimeValue::String("x".into()))).unwrap();
    let gate = graph
        .add_node(ANodeInstance::new(ANodeTypeId::new("gate"), "Gate"))
        .unwrap();
    graph
        .connect(OutputSocketRef::new(text, "value"), InputSocketRef::new(gate, "trigger"))
        .unwrap();
    graph
        .connect(OutputSocketRef::new(text, "missing"), InputSocketRef::new(gate, "open"))
        .unwrap();

    let result = solve(&graph, &value_types);
    let findings: Vec<(&str, DiagnosticOrigin)> = result
        .diagnostics
        .iter()
        .map(|d| (d.code.as_str(), d.origin.clone()))
        .collect();
    assert_eq!(
        findings,
        vec![
            ("missing_node_declaration", DiagnosticOrigin::Node(unknown)),
            (
                "type_mismatch",
                DiagnosticOrigin::Socket { node: gate, socket: SocketId::new("trigger") }
            ),
            (
                "missing_output_socket",
                DiagnosticOrigin::Socket { node: text, socket: SocketId::new("missing") }
            ),
        ]
    );
    assert!(!result.graph.nodes.contains_key(&unknown));
    assert_eq!(result.graph.nodes.len(), 2);
    assert_eq!(
        socket_error(text, &SocketId::new("missing"), "missing_output_socket").message,
        "socket `missing` could not be resolved"
    );
}

#[test]
fn conflicting_forced_bindings_are_reported() {
    let value_types = ValueTypeRegistry::with_primitives();
    let mut graph = AlchemistGraph::new();
    let mut node = ANodeInstance::new(ANodeTypeId::new("math"), "Math");
    node.type_bindings.insert(TypeVar::new("TNumeric"), ValueTypeId::new("int"), TypeBindingSource::ForcedByUser);
    node.forced_type_bindings.insert(
        TypeVar::new("TNumeric"),
        ValueTypeId::new("vec2"),
        TypeBindingSource::ForcedByUser,
    );
    let id = graph.add_node(node).unwrap();
    let result = solve(&graph, &value_types);
    assert_eq!(result.diagnostics.len(), 1);
    assert_eq!(result.diagnostics[0].code, "conflicting_type_binding");
    assert_eq!(result.diagnostics[0].origin, DiagnosticOrigin::Node(id));
}
