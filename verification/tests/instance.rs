use golden_alchemist::expose::{ANodeFieldPath, ParamUiHints, ValueTypeSpec};
use golden_alchemist::formula::{
    FormulaContextContract, FormulaMaterializationError, FormulaPropertySchema, FormulaSurface, SurfaceItem,
    SurfaceItemKind, SurfaceSection, SurfaceSource,
};
use golden_alchemist::graph::{ANodeInstance, AlchemistGraph};
use golden_alchemist::ids::{ANodeTypeId, FormulaId, SurfaceItemId, SurfaceSectionId};
use golden_alchemist::instance::{AlchemistFormula, FormulaSurfaceBindings};
use golden_alchemist::value::{RuntimeValue, ValueTypeId};

fn float(value: f64) -> RuntimeValue {
    RuntimeValue::Float(value.to_bits())
}

fn item(id: &str, bindings: Vec<ANodeFieldPath>) -> SurfaceItem {
    SurfaceItem {
        id: SurfaceItemId::new(id),
        label: id.to_string(),
        description: None,
        path: vec!["Controls".to_string()],
        kind: SurfaceItemKind::Parameter,
        value_type: Some(ValueTypeSpec::Exact(ValueTypeId::new("float"))),
        ui: ParamUiHints::default(),
        bindings,
    }
}

fn formula(graph: AlchemistGraph, items: Vec<SurfaceItem>) -> AlchemistFormula {
    AlchemistFormula {
        id: FormulaId::new("test"),
        version: 3,
        label: "Test".to_string(),
        description: None,
        tags: Vec::new(),
        graph,
        properties: FormulaPropertySchema::new(),
        surface: FormulaSurface {
            sections: vec![SurfaceSection {
                id: SurfaceSectionId::new("value"),
                label: "Value".to_string(),
                items,
                source: SurfaceSource::Formula,
            }],
            managed_regions: Vec::new(),
        },
        context_contract: FormulaContextContract {
            required_dimensions: Vec::new(),
            optional_dimensions: Vec::new(),
            accepts_additional_dimensions: false,
        },
        migrations: Vec::new(),
    }
}

#[test]
fn formula_instance_references_shared_definition_and_materializes_overrides() {
    let mut graph = AlchemistGraph::new();
    let mut constant = ANodeInstance::new(ANodeTypeId::new("constant"), "Constant");
    constant.config.set("value", float(1.0));
    let node = graph.add_node(constant).unwrap();
    let mut second = ANodeInstance::new(ANodeTypeId::new("property"), "Amount");
    second.config.set("value", float(1.0));
    let second_node = graph.add_node(second).unwrap();
    let formula = formula(
        graph,
        vec![item("amount", vec![ANodeFieldPath::new(node, "value"), ANodeFieldPath::new(second_node, "value")])],
    );

    let mut instance = formula.instantiate();
    instance.overrides.values.insert(SurfaceItemId::new("amount"), float(2.5));
    let materialized = formula.materialize(&instance).unwrap();

    assert_eq!(instance.formula_ref.id, formula.id);
    assert_eq!(instance.formula_ref.version, 3);
    assert!(instance.surface_bindings.bindings.contains_key(&SurfaceItemId::new("amount")));
    assert_eq!(materialized.nodes[&node].config.get("value"), Some(&float(2.5)));
    assert_eq!(materialized.nodes[&second_node].config.get("value"), Some(&float(2.5)));
    assert_eq!(
        formula.graph.nodes[&node].config.get("value"),
        Some(&float(1.0)),
        "materializing one Processor instance must not mutate the shared Formula"
    );
}

#[test]
fn items_without_bindings_are_not_bound() {
    let surface = FormulaSurface {
        sections: vec![SurfaceSection {
            id: SurfaceSectionId::new("value"),
            label: "Value".to_string(),
            items: vec![item("free", Vec::new()), item("bound", vec![ANodeFieldPath::new(7, "value")])],
            source: SurfaceSource::Formula,
        }],
        managed_regions: Vec::new(),
    };

    let bindings = FormulaSurfaceBindings::from_surface(&surface);

    assert_eq!(bindings.bindings.len(), 1);
    assert_eq!(bindings.bindings[&SurfaceItemId::new("bound")], vec![ANodeFieldPath::new(7, "value")]);
}

#[test]
fn override_of_unbound_item_is_rejected() {
    let graph = AlchemistGraph::new();
    let formula = formula(graph, vec![item("amount", Vec::new())]);
    let mut instance = formula.instantiate();
    instance.overrides.values.insert(SurfaceItemId::new("amount"), float(2.0));

    let error = formula.materialize(&instance).unwrap_err();

    assert_eq!(error, FormulaMaterializationError::MissingSurfaceBinding(SurfaceItemId::new("amount")));
}

#[test]
fn binding_to_missing_node_is_rejected() {
    let graph = AlchemistGraph::new();
    let formula = formula(graph, vec![item("amount", vec![ANodeFieldPath::new(99, "value")])]);
    let mut instance = formula.instantiate();
    instance.overrides.values.insert(SurfaceItemId::new("amount"), float(2.0));

    let error = formula.materialize(&instance).unwrap_err();

    assert_eq!(error, FormulaMaterializationError::MissingTargetNode(99));
}

#[test]
fn instance_of_other_version_is_rejected() {
    let formula = formula(AlchemistGraph::new(), Vec::new());
    let mut instance = formula.instantiate();
    instance.formula_ref.version = 4;

    let error = formula.materialize(&instance).unwrap_err();

    assert_eq!(error, FormulaMaterializationError::FormulaVersionMismatch { expected: 4, actual: 3 });
}

#[test]
fn later_override_wins_on_a_shared_field() {
    let mut graph = AlchemistGraph::new();
    let node = graph.add_node(ANodeInstance::new(ANodeTypeId::new("constant"), "Constant")).unwrap();
    let formula = formula(
        graph,
        vec![
            item("first", vec![ANodeFieldPath::new(node, "value")]),
            item("second", vec![ANodeFieldPath::new(node, "value")]),
        ],
    );
    let mut instance = formula.instantiate();
    instance.overrides.values.insert(SurfaceItemId::new("first"), float(1.0));
    instance.overrides.values.insert(SurfaceItemId::new("second"), float(2.0));

    let materialized = formula.materialize(&instance).unwrap();

    assert_eq!(materialized.nodes[&node].config.get("value"), Some(&float(2.0)));
}
