use golden_alchemist::registry::{
    ConversionKind, FacetDescriptor, FacetRegistry, RegistryError, ValueTypeDescriptor, ValueTypeRegistry,
};
use golden_alchemist::value::{
    ExtensionValue, FacetId, RuntimeValue, StableRef, TriggerValue, ValueStorageKind, ValueTypeId,
};

#[test]
fn primitive_value_types_are_registered() {
    let registry = ValueTypeRegistry::with_primitives();

    for id in [
        "unit", "bool", "trigger", "int", "float", "string", "vec2", "vec3", "color", "duration",
    ] {
        assert!(registry.contains(&ValueTypeId::new(id)), "{id} is missing");
    }
    assert!(registry.can_convert_automatically(&ValueTypeId::new("int"), &ValueTypeId::new("float")));
    assert!(registry.can_convert_automatically(&ValueTypeId::new("float"), &ValueTypeId::new("int")));
    assert!(registry.can_convert_automatically(&ValueTypeId::new("string"), &ValueTypeId::new("bool")));
}

#[test]
fn custom_extension_value_type_can_be_registered() {
    let custom_id = ValueTypeId::new("example.packet");
    let mut registry = ValueTypeRegistry::with_primitives();

    registry
        .register(ValueTypeDescriptor::new(
            custom_id.clone(),
            "Packet",
            ValueStorageKind::Extension,
            RuntimeValue::Extension(ExtensionValue::new(custom_id.clone(), Vec::new())),
        ))
        .unwrap();

    let descriptor = registry.get(&custom_id).unwrap();
    assert_eq!(descriptor.default_value.value_type(), custom_id);
    assert_eq!(registry.default_value(&custom_id).unwrap().value_type(), custom_id);
}

#[test]
fn facet_compatibility_is_descriptor_driven() {
    let command_target = FacetId::new("command_target");
    let module_id = ValueTypeId::new("example.module");
    let mut registry = ValueTypeRegistry::with_primitives();
    registry
        .register(
            ValueTypeDescriptor::new(
                module_id.clone(),
                "Module",
                ValueStorageKind::StableRef,
                RuntimeValue::Ref(StableRef::new(module_id.clone(), "default")),
            )
            .with_facets(vec![command_target.clone()])
            .with_conversion(ValueTypeId::new("string"), ConversionKind::Lossy),
        )
        .unwrap();

    assert!(registry.supports_facet(&module_id, &command_target));
    assert!(registry.can_convert_automatically(&module_id, &ValueTypeId::new("string")));
}

#[test]
fn trigger_is_distinct_from_boolean() {
    assert_ne!(
        RuntimeValue::Bool(true).value_type(),
        RuntimeValue::Trigger(TriggerValue::fired(7, 42)).value_type()
    );
}

#[test]
fn primitive_registry_allows_runtime_supported_conversions() {
    let value_types = ValueTypeRegistry::with_primitives();
    let sources = [
        "unit", "bool", "trigger", "int", "float", "string", "vec2", "vec3", "color", "duration",
    ];
    let targets = [
        "unit", "bool", "int", "float", "string", "vec2", "vec3", "color", "duration",
    ];

    for source in sources {
        for target in targets {
            if source == "trigger" && target == "trigger" {
                continue;
            }
            assert!(
                value_types.can_convert_automatically(&ValueTypeId::new(source), &ValueTypeId::new(target)),
                "`{source}` should automatically convert to `{target}`"
            );
        }
    }
}

#[test]
fn registering_a_type_twice_is_refused() {
    let mut registry = ValueTypeRegistry::with_primitives();
    let before = registry.len();
    let error = registry
        .register(ValueTypeDescriptor::new(
            ValueTypeId::new("float"),
            "Float again",
            ValueStorageKind::InlineF64,
            RuntimeValue::Unit,
        ))
        .unwrap_err();
    assert_eq!(error, RegistryError::DuplicateValueType(ValueTypeId::new("float")));
    assert_eq!(registry.len(), before);
    assert_eq!(registry.len(), 10);
}

#[test]
fn unknown_types_neither_convert_nor_have_facets() {
    let registry = ValueTypeRegistry::with_primitives();
    let unknown = ValueTypeId::new("example.unknown");
    assert!(!registry.contains(&unknown));
    assert!(registry.get(&unknown).is_none());
    assert!(registry.default_value(&unknown).is_none());
    assert!(!registry.supports_facet(&unknown, &FacetId::new("numeric")));
    assert!(!registry.can_convert_automatically(&unknown, &ValueTypeId::new("float")));
    assert!(registry.can_convert_automatically(&unknown, &unknown));
}

#[test]
fn primitive_defaults_have_their_own_type() {
    let registry = ValueTypeRegistry::with_primitives();
    for index in 0..registry.len() {
        let descriptor = registry.descriptor_at(index).unwrap();
        assert_eq!(descriptor.default_value.value_type(), descriptor.id);
    }
    assert!(registry.descriptor_at(registry.len()).is_none());
    assert_eq!(registry.default_value(&ValueTypeId::new("bool")), Some(RuntimeValue::Bool(false)));
}

#[test]
fn facet_registry_refuses_duplicates() {
    let mut facets = FacetRegistry::new();
    let id = FacetId::new("command_target");
    facets
        .register(FacetDescriptor { id: id.clone(), label: "Command target".to_string() })
        .unwrap();
    assert_eq!(facets.get(&id).unwrap().label, "Command target");
    assert_eq!(
        facets
            .register(FacetDescriptor { id: id.clone(), label: "Again".to_string() })
            .unwrap_err(),
        RegistryError::DuplicateFacet(id)
    );
}

#[test]
fn registry_error_messages_name_the_duplicate() {
    assert_eq!(
        RegistryError::DuplicateValueType(ValueTypeId::new("float")).message(),
        "value type `float` is already registered"
    );
    assert_eq!(
        RegistryError::DuplicateFacet(FacetId::new("numeric")).message(),
        "facet `numeric` is already registered"
    );
    assert_eq!(
        RegistryError::DuplicateANode(golden_alchemist::ids::ANodeTypeId::new("math.add")).message(),
        "ANode type `math.add` is already registered"
    );
}
