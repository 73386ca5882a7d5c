use golden_alchemist::formula::{
    ManagedItemInstance, ManagedItemUiState, ManagedRegionDefinition, ManagedRegionInstance, ManagedRegionKind,
    ManagedSocketRef, SurfaceItemKind,
};
use golden_alchemist::graph::{AEdge, ANodeInstance, AlchemistGraph, InputSocketRef, OutputSocketRef};
use golden_alchemist::ids::{ANodeId, ANodeTypeId, ContextAxisId, ManagedItemId, ManagedRegionId, SocketId};
use golden_alchemist::library::{
    ANodeRoleCapability, AutoWirePolicy, PipelineCardinality, PrimitiveNodeDeclaration, PrimitiveNodeKind,
};
use golden_alchemist::node::{ANodeSignature, InputSocketDecl, OutputSocketDecl};
use golden_alchemist::pipeline::{
    check_filter_pipeline_shapes, linear_filter_sockets, lower_filter_pipeline_region, single_shape,
    value_set_shape, ItemDeclaration, PipelineLoweringDiagnosticKind, PipelineShape, PipelineShapeCheckItem,
};
use golden_alchemist::registry::ValueTypeRegistry;
use golden_alchemist::signatures::SignatureCtx;
use golden_alchemist::typing::TypeConstraint;
use golden_alchemist::value::{RuntimeValue, ValueTypeId};

fn declaration_of(kind: PrimitiveNodeKind, instance: &ANodeInstance) -> ItemDeclaration {
    let declaration = PrimitiveNodeDeclaration::new(kind);
    let value_types = ValueTypeRegistry::with_primitives();
    let signature = declaration.signature(
        &SignatureCtx {
            value_types: &value_types,
            properties: None,
        },
        instance,
        None,
    );
    ItemDeclaration { capabilities: declaration.role_capabilities(), signature }
}

fn primitive_instance(kind: PrimitiveNodeKind) -> (ItemDeclaration, ANodeInstance) {
    let declaration = PrimitiveNodeDeclaration::new(kind);
    let instance = ANodeInstance::new(declaration.type_id(), declaration.label());
    (declaration_of(kind, &instance), instance)
}

fn check(initial: PipelineShape, declaration: &ItemDeclaration, instance: &ANodeInstance) -> golden_alchemist::pipeline::PipelineShapeResult {
    let items = vec![PipelineShapeCheckItem {
        node_type: &instance.type_id,
        capabilities: &declaration.capabilities,
        signature: &declaration.signature,
        instance_bindings: &instance.type_bindings,
    }];
    check_filter_pipeline_shapes(initial, &items)
}

/// A declaration that only moves values along one `value` socket, with the
/// given cardinality and output type.
fn shape_only(cardinality: PipelineCardinality, output_type: &str) -> ItemDeclaration {
    let mut signature = ANodeSignature::new();
    signature
        .inputs
        .push(InputSocketDecl::new("value", "Value", TypeConstraint::Any).with_default(RuntimeValue::Float(0)));
    signature.outputs.push(OutputSocketDecl::new(
        "value",
        "Value",
        TypeConstraint::Exact(ValueTypeId::new(output_type)),
    ));
    ItemDeclaration {
        capabilities: vec![ANodeRoleCapability {
            role: SurfaceItemKind::Filter,
            primary_input: Some(SocketId::new("value")),
            primary_output: Some(SocketId::new("value")),
            autowire: AutoWirePolicy::UnaryTransform {
                input: SocketId::new("value"),
                output: SocketId::new("value"),
            },
            cardinality,
        }],
        signature,
    }
}

fn managed_item(kind: PrimitiveNodeKind, id: &str) -> ManagedItemInstance {
    let declaration = PrimitiveNodeDeclaration::new(kind);
    ManagedItemInstance {
        id: ManagedItemId::new(id),
        anode: ANodeInstance::new(declaration.type_id(), declaration.label()),
        enabled: true,
        ui_state: ManagedItemUiState::default(),
    }
}

fn boundary_graph() -> (AlchemistGraph, ANodeId, ANodeId) {
    let mut graph = AlchemistGraph::new();
    let input = graph
        .add_node(ANodeInstance::new(ANodeTypeId::new("boundary_input"), "Boundary Input"))
        .unwrap();
    let output = graph
        .add_node(ANodeInstance::new(ANodeTypeId::new("boundary_output"), "Boundary Output"))
        .unwrap();
    (graph, input, output)
}

fn filter_region(input: ANodeId, output: ANodeId) -> ManagedRegionDefinition {
    ManagedRegionDefinition {
        id: ManagedRegionId::new("filters"),
        kind: ManagedRegionKind::FilterPipeline,
        label: "Filters".into(),
        input_socket: Some(ManagedSocketRef::new(input, "value")),
        output_socket: Some(ManagedSocketRef::new(output, "value")),
        accepted_roles: vec![SurfaceItemKind::Filter],
    }
}

fn filter_region_instance(items: Vec<ManagedItemInstance>) -> ManagedRegionInstance {
    ManagedRegionInstance {
        region_id: ManagedRegionId::new("filters"),
        items,
    }
}

fn declarations(instance: &ManagedRegionInstance) -> Vec<Option<ItemDeclaration>> {
    instance
        .items
        .iter()
        .map(|item| {
            PrimitiveNodeKind::all()
                .into_iter()
                .find(|kind| kind.node_type_name() == item.anode.type_id.as_str())
                .map(|kind| declaration_of(kind, &item.anode))
        })
        .collect()
}

#[test]
fn elementwise_filter_preserves_valueset_shape() {
    let (declaration, instance) = primitive_instance(PrimitiveNodeKind::Remap);

    let result = check(value_set_shape("float", Some(ContextAxisId::new("input_lane"))), &declaration, &instance);

    assert!(result.is_valid());
    assert_eq!(
        result.final_shape,
        PipelineShape::ValueSet {
            item_type: ValueTypeId::new("float"),
            axis: Some(ContextAxisId::new("input_lane")),
        }
    );
    assert_eq!(result.steps[0].cardinality, PipelineCardinality::Elementwise);
}

#[test]
fn aggregate_filter_collapses_valueset_to_single() {
    let (declaration, instance) = primitive_instance(PrimitiveNodeKind::Math);

    let result = check(value_set_shape("float", Some(ContextAxisId::new("input_lane"))), &declaration, &instance);

    assert!(result.is_valid());
    assert_eq!(result.final_shape, single_shape("float"));
    assert_eq!(result.steps[0].cardinality, PipelineCardinality::Aggregate);
}

#[test]
fn reshape_filter_can_pack_valueset_items_to_vec3() {
    let declaration = shape_only(PipelineCardinality::Reshape, "vec3");
    let instance = ANodeInstance::new(ANodeTypeId::new("test_pack_vec3"), "Test Pack Vec3");

    let result = check(value_set_shape("float", None), &declaration, &instance);

    assert!(result.is_valid());
    assert_eq!(result.final_shape, single_shape("vec3"));
    assert_eq!(result.steps[0].cardinality, PipelineCardinality::Reshape);
}

#[test]
fn checker_rejects_nodes_without_filter_capability() {
    let (declaration, instance) = primitive_instance(PrimitiveNodeKind::Constant);

    let result = check(single_shape("float"), &declaration, &instance);

    assert!(!result.is_valid());
    assert_eq!(result.final_shape, single_shape("float"));
    assert_eq!(result.diagnostics.len(), 1);
    assert_eq!(result.diagnostics[0].node_type, ANodeTypeId::new("constant"));
    assert!(result.diagnostics[0].message.contains("not filter-capable"));
}

#[test]
fn condition_gate_preserves_pipeline_shape() {
    let (declaration, instance) = primitive_instance(PrimitiveNodeKind::ConditionGate);
    let initial = value_set_shape("float", Some(ContextAxisId::new("input_lane")));

    let result = check(initial.clone(), &declaration, &instance);

    assert!(result.is_valid());
    assert_eq!(result.final_shape, initial);
    assert_eq!(result.steps[0].cardinality, PipelineCardinality::WholeSet);
}

#[test]
fn expand_filter_broadcasts_single_value_to_valueset() {
    let declaration = shape_only(PipelineCardinality::Expand, "float");
    let instance = ANodeInstance::new(ANodeTypeId::new("test_broadcast"), "Test Broadcast");

    let result = check(single_shape("float"), &declaration, &instance);

    assert!(result.is_valid());
    assert_eq!(
        result.final_shape,
        PipelineShape::ValueSet {
            item_type: ValueTypeId::new("float"),
            axis: None,
        }
    );
    assert_eq!(result.steps[0].cardinality, PipelineCardinality::Expand);
}

#[test]
fn lowering_autowires_enabled_filter_items_into_graph() {
    let (graph, input, output) = boundary_graph();
    let region = filter_region(input, output);
    let instance = filter_region_instance(vec![
        managed_item(PrimitiveNodeKind::Remap, "remap"),
        managed_item(PrimitiveNodeKind::ConditionGate, "gate"),
    ]);
    let remap = instance.items[0].anode.id;
    let gate = instance.items[1].anode.id;

    let result = lower_filter_pipeline_region(
        graph.clone(),
        &region,
        &instance,
        &declarations(&instance),
        single_shape("float"),
    );

    assert!(result.is_valid(), "{:?}", result.diagnostics);
    assert_eq!(result.inserted_nodes, vec![remap, gate]);
    assert_eq!(result.graph.nodes.len(), graph.nodes.len() + 2);
    assert_eq!(
        result.graph.edges,
        vec![
            AEdge {
                from: OutputSocketRef::new(input, "value"),
                to: InputSocketRef::new(remap, "value"),
            },
            AEdge {
                from: OutputSocketRef::new(remap, "result"),
                to: InputSocketRef::new(gate, "value"),
            },
            AEdge {
                from: OutputSocketRef::new(gate, "value"),
                to: InputSocketRef::new(output, "value"),
            },
        ]
    );
}

#[test]
fn lowering_skips_disabled_filter_items() {
    let (graph, input, output) = boundary_graph();
    let region = filter_region(input, output);
    let mut disabled = managed_item(PrimitiveNodeKind::OneMinus, "one_minus");
    disabled.enabled = false;
    let disabled_node = disabled.anode.id;
    let instance = filter_region_instance(vec![managed_item(PrimitiveNodeKind::Remap, "remap"), disabled]);
    let remap = instance.items[0].anode.id;

    let result = lower_filter_pipeline_region(
        graph.clone(),
        &region,
        &instance,
        &declarations(&instance),
        single_shape("float"),
    );

    assert!(result.is_valid(), "{:?}", result.diagnostics);
    assert_eq!(result.inserted_nodes, vec![remap]);
    assert!(!result.graph.nodes.contains_key(&disabled_node));
    assert_eq!(result.graph.edges.len(), 2);
}

#[test]
fn lowering_rejects_non_filter_items_without_mutating_graph() {
    let (graph, input, output) = boundary_graph();
    let region = filter_region(input, output);
    let instance = filter_region_instance(vec![managed_item(PrimitiveNodeKind::Constant, "constant")]);

    let result = lower_filter_pipeline_region(
        graph.clone(),
        &region,
        &instance,
        &declarations(&instance),
        single_shape("float"),
    );

    assert!(!result.is_valid());
    assert_eq!(result.graph, graph);
    assert_eq!(result.shape.diagnostics.len(), 1);
    assert!(result.shape.diagnostics[0].message.contains("not filter-capable"));
}

#[test]
fn lowering_requires_linear_autowire_sockets() {
    let (graph, input, output) = boundary_graph();
    let region = filter_region(input, output);
    let instance = filter_region_instance(vec![managed_item(PrimitiveNodeKind::Math, "math")]);

    let result = lower_filter_pipeline_region(
        graph.clone(),
        &region,
        &instance,
        &declarations(&instance),
        single_shape("float"),
    );

    assert!(!result.is_valid());
    assert_eq!(result.graph, graph);
    assert_eq!(result.diagnostics.len(), 1);
    assert_eq!(
        result.diagnostics[0].kind,
        PipelineLoweringDiagnosticKind::MissingLinearAutowire
    );
    assert!(result.diagnostics[0].message.contains("linear autowire sockets"));
}

#[test]
fn lowering_rejects_valueset_elementwise_until_lane_strategy_exists() {
    let (graph, input, output) = boundary_graph();
    let region = filter_region(input, output);
    let instance = filter_region_instance(vec![managed_item(PrimitiveNodeKind::Remap, "remap")]);

    let result = lower_filter_pipeline_region(
        graph.clone(),
        &region,
        &instance,
        &declarations(&instance),
        value_set_shape("float", Some(ContextAxisId::new("input_lane"))),
    );

    assert!(!result.is_valid());
    assert_eq!(result.graph, graph);
    assert_eq!(result.diagnostics.len(), 1);
    assert_eq!(
        result.diagnostics[0].kind,
        PipelineLoweringDiagnosticKind::UnsupportedValueSetElementwise
    );
    assert!(result.diagnostics[0].message.contains("lane-aware MapEach support"));
}

#[test]
fn lowering_allows_whole_valueset_filters() {
    let (graph, input, output) = boundary_graph();
    let region = filter_region(input, output);
    let instance = filter_region_instance(vec![managed_item(PrimitiveNodeKind::ConditionGate, "gate")]);
    let gate = instance.items[0].anode.id;

    let result = lower_filter_pipeline_region(
        graph.clone(),
        &region,
        &instance,
        &declarations(&instance),
        value_set_shape("float", Some(ContextAxisId::new("input_lane"))),
    );

    assert!(result.is_valid(), "{:?}", result.diagnostics);
    assert_eq!(result.inserted_nodes, vec![gate]);
    assert_eq!(
        result.graph.edges,
        vec![
            AEdge {
                from: OutputSocketRef::new(input, "value"),
                to: InputSocketRef::new(gate, "value"),
            },
            AEdge {
                from: OutputSocketRef::new(gate, "value"),
                to: InputSocketRef::new(output, "value"),
            },
        ]
    );
}

#[test]
fn lowering_reports_undeclared_items_and_wrong_regions() {
    let (graph, input, output) = boundary_graph();
    let mut region = filter_region(input, output);
    region.kind = ManagedRegionKind::InputSet;
    let instance = filter_region_instance(vec![managed_item(PrimitiveNodeKind::Remap, "remap")]);
    let result = lower_filter_pipeline_region(
        graph.clone(),
        &region,
        &instance,
        &vec![None],
        single_shape("float"),
    );
    assert_eq!(result.graph, graph);
    let kinds: Vec<PipelineLoweringDiagnosticKind> = result.diagnostics.iter().map(|d| d.kind).collect();
    assert_eq!(
        kinds,
        vec![PipelineLoweringDiagnosticKind::InvalidRegionKind, PipelineLoweringDiagnosticKind::MissingDeclaration]
    );
}

#[test]
fn linear_sockets_come_from_the_wiring_policy() {
    let gate = PrimitiveNodeDeclaration::new(PrimitiveNodeKind::ConditionGate).role_capabilities();
    assert_eq!(
        linear_filter_sockets(&gate[0]),
        Some((SocketId::new("value"), SocketId::new("value")))
    );
    let math = PrimitiveNodeDeclaration::new(PrimitiveNodeKind::Math).role_capabilities();
    assert_eq!(linear_filter_sockets(&math[0]), None);
}
