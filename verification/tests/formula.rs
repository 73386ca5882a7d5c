use golden_alchemist::formula::{
    require_compatible, FormulaMaterializationError, FormulaRef, FormulaSurface, ManagedRegionDefinition,
    ManagedRegionInstance, ManagedRegionInstances, ManagedRegionKind, ManagedRegionValidationError, SurfaceItemKind,
};
use golden_alchemist::ids::{FormulaId, ManagedRegionId};

fn region(
    id: &str,
    kind: ManagedRegionKind,
    label: &str,
    accepted_roles: Vec<SurfaceItemKind>,
) -> ManagedRegionDefinition {
    ManagedRegionDefinition {
        id: ManagedRegionId::new(id),
        kind,
        label: label.into(),
        input_socket: None,
        output_socket: None,
        accepted_roles,
    }
}

#[test]
fn empty_managed_regions_are_instantiated_from_surface() {
    let surface = FormulaSurface {
        sections: Vec::new(),
        managed_regions: vec![
            region(
                "inputs",
                ManagedRegionKind::InputSet,
                "Inputs",
                vec![SurfaceItemKind::Input],
            ),
            region(
                "filters",
                ManagedRegionKind::FilterPipeline,
                "Filters",
                vec![SurfaceItemKind::Filter],
            ),
        ],
    };

    let instances = ManagedRegionInstances::empty_for(&surface);

    assert_eq!(instances.regions.len(), 2);
    assert_eq!(
        instances
            .regions
            .get(&ManagedRegionId::new("inputs"))
            .map(|region| region.items.len()),
        Some(0)
    );
    instances
        .validate_against(&surface)
        .expect("empty regions should be valid");
}

#[test]
fn invalid_managed_region_reference_reports_diagnostic() {
    let surface = FormulaSurface {
        sections: Vec::new(),
        managed_regions: vec![region(
            "inputs",
            ManagedRegionKind::InputSet,
            "Inputs",
            vec![SurfaceItemKind::Input],
        )],
    };
    let mut instances = ManagedRegionInstances::empty_for(&surface);
    instances.regions.insert(
        ManagedRegionId::new("missing"),
        ManagedRegionInstance {
            region_id: ManagedRegionId::new("missing"),
            items: Vec::new(),
        },
    );

    let error = instances
        .validate_against(&surface)
        .expect_err("unknown region should be rejected");

    assert!(error.message().contains("unknown region `missing`"));
    assert_eq!(
        error,
        ManagedRegionValidationError::UnknownRegion { region_id: ManagedRegionId::new("missing") }
    );
}

#[test]
fn formula_reference_must_match_definition() {
    let formula_ref = FormulaRef { id: FormulaId::new("test"), version: 2 };
    assert!(require_compatible(&formula_ref, &FormulaId::new("test"), 2).is_ok());
    let id_error = require_compatible(&formula_ref, &FormulaId::new("other"), 3).unwrap_err();
    assert_eq!(
        id_error,
        FormulaMaterializationError::FormulaIdMismatch { expected: FormulaId::new("test"), actual: FormulaId::new("other") }
    );
    assert_eq!(id_error.message(), "formula instance references `test`, but definition is `other`");
    let version_error = require_compatible(&formula_ref, &FormulaId::new("test"), 3).unwrap_err();
    assert_eq!(
        version_error,
        FormulaMaterializationError::FormulaVersionMismatch { expected: 2, actual: 3 }
    );
    assert_eq!(
        version_error.message(),
        "formula instance references version 2, but definition is version 3"
    );
}

#[test]
fn duplicate_region_definitions_make_one_instance() {
    let surface = FormulaSurface {
        sections: Vec::new(),
        managed_regions: vec![
            region("filters", ManagedRegionKind::FilterPipeline, "Filters", vec![SurfaceItemKind::Filter]),
            region("filters", ManagedRegionKind::FilterPipeline, "Again", vec![SurfaceItemKind::Filter]),
        ],
    };
    let instances = ManagedRegionInstances::empty_for(&surface);
    assert_eq!(instances.regions.len(), 1);
    assert!(instances.validate_against(&surface).is_ok());
}
