use golden_alchemist::expose::{ANodeFieldPath, ExposedParam, ParamUiHints, ValueTypeSpec};
use golden_alchemist::graph::{ANodeInstance, AlchemistGraph, GraphEditError, InputSocketRef, OutputSocketRef};
use golden_alchemist::ids::{ANodeTypeId, ExposedDeclId};
use golden_alchemist::value::ValueTypeId;

fn node(type_id: &str) -> ANodeInstance {
    ANodeInstance::new(ANodeTypeId::new(type_id), type_id)
}

#[test]
fn graph_supports_basic_node_and_edge_edits() {
    let mut graph = AlchemistGraph::new();
    let source = graph.add_node(node("constant")).unwrap();
    let target = graph.add_node(node("debug")).unwrap();
    let from = OutputSocketRef::new(source, "value");
    let to = InputSocketRef::new(target, "value");

    graph.connect(from.clone(), to.clone()).unwrap();
    assert_eq!(graph.edges.len(), 1);
    assert!(graph.connect(from.clone(), to.clone()).is_err());

    graph.disconnect(&from, &to).unwrap();
    assert!(graph.edges.is_empty());

    graph.connect(from, to).unwrap();
    graph.remove_node(source).unwrap();
    assert_eq!(graph.nodes.len(), 1);
    assert!(graph.edges.is_empty());
}

#[test]
fn removing_internal_node_preserves_broken_exposed_contract() {
    let mut graph = AlchemistGraph::new();
    let node = graph.add_node(node("constant")).unwrap();
    graph.exposed.params.push(ExposedParam {
        decl_id: ExposedDeclId::new("gain"),
        label: "Gain".into(),
        description: None,
        target: ANodeFieldPath::new(node, "value"),
        value_type: ValueTypeSpec::Exact(ValueTypeId::new("float")),
        ui: ParamUiHints::default(),
    });

    graph.remove_node(node).unwrap();

    assert_eq!(graph.exposed.params.len(), 1);
    assert_eq!(graph.exposed.params[0].decl_id.as_str(), "gain");
}

#[test]
fn each_input_accepts_only_one_connection() {
    let mut graph = AlchemistGraph::new();
    let first = graph.add_node(node("constant")).unwrap();
    let second = graph.add_node(node("constant")).unwrap();
    let target = graph.add_node(node("add")).unwrap();
    let target_input = InputSocketRef::new(target, "a");

    graph
        .connect(OutputSocketRef::new(first, "value"), target_input.clone())
        .unwrap();

    assert!(
        graph
            .connect(OutputSocketRef::new(second, "value"), target_input)
            .is_err()
    );
}

#[test]
fn edits_report_each_error() {
    let mut graph = AlchemistGraph::new();
    let a = node("constant");
    let a_id = a.id;
    let a_copy = a.clone();
    graph.add_node(a).unwrap();
    assert_eq!(graph.add_node(a_copy).unwrap_err(), GraphEditError::DuplicateNode(a_id));

    let missing = a_id.wrapping_add(1);
    assert_eq!(graph.remove_node(missing).unwrap_err(), GraphEditError::MissingNode(missing));
    assert_eq!(
        graph
            .connect(OutputSocketRef::new(missing, "value"), InputSocketRef::new(a_id, "value"))
            .unwrap_err(),
        GraphEditError::MissingNode(missing)
    );
    assert_eq!(
        graph
            .disconnect(&OutputSocketRef::new(a_id, "value"), &InputSocketRef::new(a_id, "value"))
            .unwrap_err(),
        GraphEditError::MissingEdge
    );
    assert_eq!(graph.require_node(missing).unwrap_err(), GraphEditError::MissingNode(missing));
    assert!(graph.require_node(a_id).is_ok());
}

#[test]
fn connect_then_disconnect_restores_edges() {
    let mut graph = AlchemistGraph::new();
    let a = graph.add_node(node("constant")).unwrap();
    let b = graph.add_node(node("math")).unwrap();
    let c = graph.add_node(node("math")).unwrap();
    graph
        .connect(OutputSocketRef::new(a, "value"), InputSocketRef::new(b, "value1"))
        .unwrap();
    let before = graph.edges.clone();
    let from = OutputSocketRef::new(a, "value");
    let to = InputSocketRef::new(c, "value1");
    graph.connect(from.clone(), to.clone()).unwrap();
    let removed = graph.disconnect(&from, &to).unwrap();
    assert_eq!(removed.from, from);
    assert_eq!(removed.to, to);
    assert_eq!(graph.edges, before);
}

#[test]
fn add_then_remove_node_gives_the_node_back() {
    let mut graph = AlchemistGraph::new();
    let kept = graph.add_node(node("constant")).unwrap();
    let added = graph.add_node(node("math")).unwrap();
    let removed = graph.remove_node(added).unwrap();
    assert_eq!(removed.id, added);
    assert_eq!(removed.type_id.as_str(), "math");
    assert_eq!(graph.nodes.len(), 1);
    assert!(graph.nodes.contains_key(&kept));
}

#[test]
fn removing_a_node_drops_only_its_edges() {
    let mut graph = AlchemistGraph::new();
    let a = graph.add_node(node("constant")).unwrap();
    let b = graph.add_node(node("math")).unwrap();
    let c = graph.add_node(node("math")).unwrap();
    graph
        .connect(OutputSocketRef::new(a, "value"), InputSocketRef::new(b, "value1"))
        .unwrap();
    graph
        .connect(OutputSocketRef::new(a, "value"), InputSocketRef::new(c, "value1"))
        .unwrap();
    graph
        .connect(OutputSocketRef::new(b, "result"), InputSocketRef::new(c, "value2"))
        .unwrap();
    graph.remove_node(b).unwrap();
    assert_eq!(graph.edges.len(), 1);
    assert_eq!(graph.edges[0].to, InputSocketRef::new(c, "value1"));
}

#[test]
fn edit_error_messages_name_the_problem() {
    assert_eq!(GraphEditError::DuplicateNode(7).message(), "node `7` is already present");
    assert_eq!(GraphEditError::MissingNode(12).message(), "node `12` is not present");
    assert_eq!(GraphEditError::MissingEdge.message(), "edge is not present");
    assert_eq!(GraphEditError::DuplicateEdge.message(), "edge is already present");
    assert_eq!(
        GraphEditError::InputAlreadyConnected(InputSocketRef::new(31, "value.x")).message(),
        "input `31.value.x` already has a connection"
    );
}
