use golden_alchemist::formula::{
    FormulaContextContract, FormulaMaterializationError, FormulaPropertySchema, FormulaSurface, ManagedItemInstance,
    ManagedItemUiState, ManagedRegionDefinition, ManagedRegionInstance, ManagedRegionKind, ManagedSocketRef,
    SurfaceItemKind,
};
use golden_alchemist::graph::{ANodeInstance, AlchemistGraph};
use golden_alchemist::ids::{ANodeId, ANodeTypeId, FormulaId, ManagedItemId, ManagedRegionId};
use golden_alchemist::instance::AlchemistFormula;
use golden_alchemist::library::{PrimitiveNodeDeclaration, PrimitiveNodeKind};
use golden_alchemist::pipeline::{single_shape, ItemDeclaration, PipelineShape};
use golden_alchemist::registry::ValueTypeRegistry;
use golden_alchemist::signatures::SignatureCtx;

fn remap_item() -> ManagedItemInstance {
    let declaration = PrimitiveNodeDeclaration::new(PrimitiveNodeKind::Remap);
    ManagedItemInstance {
        id: ManagedItemId::new("remap"),
        anode: ANodeInstance::new(declaration.type_id(), declaration.label()),
        enabled: true,
        ui_state: ManagedItemUiState::default(),
    }
}

fn remap_declaration(instance: &ANodeInstance) -> ItemDeclaration {
    let declaration = PrimitiveNodeDeclaration::new(PrimitiveNodeKind::Remap);
    let value_types = ValueTypeRegistry::with_primitives();
    let signature = declaration.signature(&SignatureCtx { value_types: &value_types, properties: None }, instance, None);
    ItemDeclaration { capabilities: declaration.role_capabilities(), signature }
}

fn filter_formula() -> (AlchemistFormula, ANodeId, ANodeId) {
    let mut graph = AlchemistGraph::new();
    let input = graph.add_node(ANodeInstance::new(ANodeTypeId::new("boundary_input"), "In")).unwrap();
    let output = graph.add_node(ANodeInstance::new(ANodeTypeId::new("boundary_output"), "Out")).unwrap();
    let formula = AlchemistFormula {
        id: FormulaId::new("filters"),
        version: 1,
        label: "Filters".to_string(),
        description: None,
        tags: Vec::new(),
        graph,
        properties: FormulaPropertySchema::new(),
        surface: FormulaSurface {
            sections: Vec::new(),
            managed_regions: vec![ManagedRegionDefinition {
                id: ManagedRegionId::new("filters"),
                kind: ManagedRegionKind::FilterPipeline,
                label: "Filters".into(),
                input_socket: Some(ManagedSocketRef::new(input, "value")),
                output_socket: Some(ManagedSocketRef::new(output, "value")),
                accepted_roles: vec![SurfaceItemKind::Filter],
            }],
        },
        context_contract: FormulaContextContract {
            required_dimensions: Vec::new(),
            optional_dimensions: Vec::new(),
            accepts_additional_dimensions: false,
        },
        migrations: Vec::new(),
    };
    (formula, input, output)
}

#[test]
fn materializing_lowers_filter_regions_into_the_graph() {
    let (formula, input, output) = filter_formula();
    let mut instance = formula.instantiate();
    let item = remap_item();
    let remap = item.anode.id;
    let declarations = vec![Some(remap_declaration(&item.anode))];
    instance.managed_regions.regions.insert(
        ManagedRegionId::new("filters"),
        ManagedRegionInstance { region_id: ManagedRegionId::new("filters"), items: vec![item] },
    );
    let graph = formula
        .materialize_with_filter_pipelines(
            &instance,
            &vec![(ManagedRegionId::new("filters"), declarations)],
            &vec![(ManagedRegionId::new("filters"), single_shape("float"))],
        )
        .unwrap();
    assert_eq!(graph.nodes.len(), 3);
    assert_eq!(graph.edges.len(), 2);
    assert_eq!(graph.edges[0].from.node, input);
    assert_eq!(graph.edges[0].to.node, remap);
    assert_eq!(graph.edges[1].from.node, remap);
    assert_eq!(graph.edges[1].to.node, output);
}

#[test]
fn materializing_without_an_initial_shape_fails() {
    let (formula, _, _) = filter_formula();
    let instance = formula.instantiate();
    let shapes: Vec<(ManagedRegionId, PipelineShape)> = Vec::new();
    let error = formula
        .materialize_with_filter_pipelines(&instance, &vec![(ManagedRegionId::new("filters"), Vec::new())], &shapes)
        .unwrap_err();
    assert_eq!(
        error,
        FormulaMaterializationError::MissingManagedRegionInitialShape { region_id: ManagedRegionId::new("filters") }
    );
    assert_eq!(error.message(), "filter pipeline region `filters` is missing an initial shape");
}
