//! The authored graph: node instances, the edges between their sockets, and
//! the edits that keep each input fed by at most one edge.
//!
//! Layout positions and sizes are held as the bit patterns of `f64`.
use indexmap::IndexMap;
use vstd::prelude::*;

use crate::expose::ExposedSurface;
use crate::ids::{fresh_id, ANodeId, ANodeTypeId, AlchemistGraphId, SocketId};
use crate::indexmap_specs::{
    config_entries, config_map_clone, config_map_get, config_map_insert, config_map_new, default_entries,
    default_map_clone, default_map_new,
    node_entries, node_map_clone, node_map_contains, node_map_insert, node_map_new, node_map_shift_remove,
};
use crate::ordered::{
    entries_insert, entries_remove, has_key, keys_distinct, lemma_insert, lemma_remove, value_of,
};
use crate::text::{concat3, decimal_text, with_decimal};
use crate::typing::TypeBindings;
use crate::value::{same_value, RuntimeValue};

verus! {

/// The version of the authored graph format that this library writes.
pub const ALCHEMIST_SCHEMA_VERSION: u32 = 1;

/// The bit pattern of the `f64` value 1.0.
pub const F64_ONE_BITS: u64 = 0x3ff0_0000_0000_0000;

/// The configured values of a node's fields, in insertion order.
#[derive(Debug, PartialEq)]
pub struct ANodeConfig {
    pub fields: IndexMap<String, RuntimeValue>,
}

impl ANodeConfig {
    /// The fields, as entries keyed by field name.
    pub open spec fn entries(&self) -> Seq<(Seq<char>, RuntimeValue)> {
        config_entries(self.fields)
    }

    /// No fields.
    pub fn new() -> (c: Self)
        ensures
            c.entries().len() == 0,
    {
        ANodeConfig { fields: config_map_new() }
    }

    /// Sets `field` to `value`.
    pub fn set(&mut self, field: &str, value: RuntimeValue)
        ensures
            final(self).entries() == entries_insert(old(self).entries(), field@, value),
    {
        config_map_insert(&mut self.fields, field, value);
    }

    /// The value of `field`, if set.
    pub fn get(&self, field: &str) -> (r: Option<&RuntimeValue>)
        ensures
            r is Some <==> has_key(self.entries(), field@),
            r matches Some(v) ==> *v == value_of(self.entries(), field@),
    {
        config_map_get(&self.fields, field)
    }
}

/// Whether two lists of named values hold the same names in the same order,
/// with the same values.
pub open spec fn entries_same(a: Seq<(Seq<char>, RuntimeValue)>, b: Seq<(Seq<char>, RuntimeValue)>) -> bool {
    &&& a.len() == b.len()
    &&& forall|i: int| 0 <= i < a.len() ==> a[i].0 == b[i].0 && same_value(#[trigger] a[i].1, b[i].1)
}

impl Clone for ANodeConfig {
    fn clone(&self) -> (r: Self)
        ensures
            entries_same(r.entries(), self.entries()),
    {
        ANodeConfig { fields: config_map_clone(&self.fields) }
    }
}

/// Where a node is drawn; positions and widths are `f64` bit patterns.
#[derive(Debug, PartialEq, Eq)]
pub struct ANodeUiState {
    pub position: [u64; 2],
    pub width: Option<u64>,
    pub collapsed: bool,
}

impl Clone for ANodeUiState {
    fn clone(&self) -> (r: Self)
        ensures
            r == *self,
    {
        ANodeUiState { position: self.position, width: self.width, collapsed: self.collapsed }
    }
}

impl ANodeUiState {
    /// At the origin, of default width, expanded.
    pub fn new() -> (s: Self)
        ensures
            s == (ANodeUiState { position: [0u64, 0u64], width: None, collapsed: false }),
    {
        ANodeUiState { position: [0u64, 0u64], width: None, collapsed: false }
    }
}

/// A node of an authored graph: an instance of a node type, configured.
#[derive(Debug, PartialEq)]
pub struct ANodeInstance {
    pub id: ANodeId,
    pub type_id: ANodeTypeId,
    pub label: String,
    pub config: ANodeConfig,
    pub input_defaults: IndexMap<SocketId, RuntimeValue>,
    pub type_bindings: TypeBindings,
    pub forced_type_bindings: TypeBindings,
    pub ui: ANodeUiState,
    pub enabled: bool,
}

/// Whether node `b` is a copy of node `a`: the same identifier, type,
/// label, drawing and enabled flag, and the same configuration, input
/// defaults and type bindings in the same order.
pub open spec fn instance_copy(a: ANodeInstance, b: ANodeInstance) -> bool {
    &&& b.id == a.id
    &&& b.type_id == a.type_id
    &&& b.label == a.label
    &&& b.ui == a.ui
    &&& b.enabled == a.enabled
    &&& entries_same(b.config.entries(), a.config.entries())
    &&& entries_same(default_entries(b.input_defaults), default_entries(a.input_defaults))
    &&& b.type_bindings.entries() == a.type_bindings.entries()
    &&& b.forced_type_bindings.entries() == a.forced_type_bindings.entries()
}

impl Clone for ANodeInstance {
    fn clone(&self) -> (r: Self)
        ensures
            instance_copy(*self, r),
    {
        ANodeInstance {
            id: self.id,
            type_id: self.type_id.clone(),
            label: self.label.clone(),
            config: self.config.clone(),
            input_defaults: default_map_clone(&self.input_defaults),
            type_bindings: self.type_bindings.duplicate(),
            forced_type_bindings: self.forced_type_bindings.duplicate(),
            ui: self.ui.clone(),
            enabled: self.enabled,
        }
    }
}

impl ANodeInstance {
    /// A new, enabled instance of `type_id` with a fresh identifier and no
    /// configuration, input defaults or type bindings.
    pub fn new(type_id: ANodeTypeId, label: &str) -> (n: Self)
        ensures
            n.type_id == type_id,
            n.label@ == label@,
            n.config.entries().len() == 0,
            default_entries(n.input_defaults).len() == 0,
            n.type_bindings.entries().len() == 0,
            n.forced_type_bindings.entries().len() == 0,
            n.ui == (ANodeUiState { position: [0u64, 0u64], width: None, collapsed: false }),
            n.enabled,
    {
        ANodeInstance {
            id: fresh_id(),
            type_id,
            label: label.to_owned(),
            config: ANodeConfig::new(),
            input_defaults: default_map_new(),
            type_bindings: TypeBindings::new(),
            forced_type_bindings: TypeBindings::new(),
            ui: ANodeUiState::new(),
            enabled: true,
        }
    }
}

/// An output socket of a node.
#[derive(Debug, Eq, Hash)]
pub struct OutputSocketRef {
    pub node: ANodeId,
    pub socket: SocketId,
}

impl View for OutputSocketRef {
    type V = (u64, Seq<char>);

    open spec fn view(&self) -> (u64, Seq<char>) {
        (self.node, self.socket@)
    }
}

impl OutputSocketRef {
    pub fn new(node: ANodeId, socket: &str) -> (r: Self)
        ensures
            r@ == (node, socket@),
    {
        OutputSocketRef { node, socket: SocketId::new(socket) }
    }
}

impl Clone for OutputSocketRef {
    fn clone(&self) -> (r: Self)
        ensures
            r == *self,
    {
        OutputSocketRef { node: self.node, socket: self.socket.clone() }
    }
}

impl PartialEq for OutputSocketRef {
    fn eq(&self, other: &Self) -> (r: bool) {
        self.node == other.node && self.socket == other.socket
    }
}

impl vstd::std_specs::cmp::PartialEqSpecImpl for OutputSocketRef {
    open spec fn obeys_eq_spec() -> bool {
        true
    }

    open spec fn eq_spec(&self, other: &Self) -> bool {
        self@ == other@
    }
}

/// An input socket of a node.
#[derive(Debug, Eq, Hash)]
pub struct InputSocketRef {
    pub node: ANodeId,
    pub socket: SocketId,
}

impl View for InputSocketRef {
    type V = (u64, Seq<char>);

    open spec fn view(&self) -> (u64, Seq<char>) {
        (self.node, self.socket@)
    }
}

impl InputSocketRef {
    pub fn new(node: ANodeId, socket: &str) -> (r: Self)
        ensures
            r@ == (node, socket@),
    {
        InputSocketRef { node, socket: SocketId::new(socket) }
    }
}

impl Clone for InputSocketRef {
    fn clone(&self) -> (r: Self)
        ensures
            r == *self,
    {
        InputSocketRef { node: self.node, socket: self.socket.clone() }
    }
}

impl PartialEq for InputSocketRef {
    fn eq(&self, other: &Self) -> (r: bool) {
        self.node == other.node && self.socket == other.socket
    }
}

impl vstd::std_specs::cmp::PartialEqSpecImpl for InputSocketRef {
    open spec fn obeys_eq_spec() -> bool {
        true
    }

    open spec fn eq_spec(&self, other: &Self) -> bool {
        self@ == other@
    }
}

/// An edge from an output socket to an input socket.
#[derive(Debug, PartialEq, Eq)]
pub struct AEdge {
    pub from: OutputSocketRef,
    pub to: InputSocketRef,
}

impl Clone for AEdge {
    fn clone(&self) -> (r: Self)
        ensures
            r == *self,
    {
        AEdge { from: self.from.clone(), to: self.to.clone() }
    }
}

/// A comment drawn on the canvas; position and size are `f64` bit patterns.
#[derive(Clone, Debug, PartialEq, Eq)]
pub struct GraphComment {
    pub text: String,
    pub position: [u64; 2],
    pub size: [u64; 2],
}

/// A group of nodes drawn as a frame; position and size are `f64` bit patterns.
#[derive(Clone, Debug, PartialEq, Eq)]
pub struct GraphGroup {
    pub label: String,
    pub nodes: Vec<ANodeId>,
    pub position: [u64; 2],
    pub size: [u64; 2],
}

/// The drawing of a graph; the viewport is given by `f64` bit patterns.
#[derive(Clone, Debug, PartialEq, Eq)]
pub struct GraphLayout {
    pub comments: Vec<GraphComment>,
    pub groups: Vec<GraphGroup>,
    pub viewport_origin: [u64; 2],
    pub viewport_zoom: u64,
}

/// Descriptive data of a graph.
#[derive(Clone, Debug, Default, PartialEq, Eq)]
pub struct GraphMetadata {
    pub label: String,
    pub description: Option<String>,
    pub tags: Vec<String>,
}

/// Why an edit of a graph was refused.
#[derive(Clone, Debug, PartialEq, Eq)]
pub enum GraphEditError {
    DuplicateNode(ANodeId),
    MissingNode(ANodeId),
    DuplicateEdge,
    InputAlreadyConnected(InputSocketRef),
    MissingEdge,
}

impl GraphEditError {
    /// A sentence that says what went wrong.
    pub fn message(&self) -> (r: String)
        ensures
            match self {
                GraphEditError::DuplicateNode(node) => r@ == "node `"@ + decimal_text(*node as nat)
                    + "` is already present"@,
                GraphEditError::MissingNode(node) => r@ == "node `"@ + decimal_text(*node as nat) + "` is not present"@,
                GraphEditError::DuplicateEdge => r@ == "edge is already present"@,
                GraphEditError::InputAlreadyConnected(input) => r@ == "input `"@ + decimal_text(input.node as nat)
                    + "."@ + input.socket@ + "` already has a connection"@,
                GraphEditError::MissingEdge => r@ == "edge is not present"@,
            },
    {
        match self {
            GraphEditError::DuplicateNode(node) => with_decimal("node `", *node, "` is already present"),
            GraphEditError::MissingNode(node) => with_decimal("node `", *node, "` is not present"),
            GraphEditError::DuplicateEdge => "edge is already present".to_owned(),
            GraphEditError::InputAlreadyConnected(input) => {
                let head = with_decimal("input `", input.node, ".");
                concat3(head.as_str(), input.socket.as_str(), "` already has a connection")
            },
            GraphEditError::MissingEdge => "edge is not present".to_owned(),
        }
    }
}

/// Whether edge `e` starts or ends at node `n`.
pub open spec fn touches(e: AEdge, n: ANodeId) -> bool {
    e.from.node == n || e.to.node == n
}

/// The edges of `s` that do not touch node `n`, in order.
pub open spec fn edges_without(s: Seq<AEdge>, n: ANodeId) -> Seq<AEdge>
    decreases s.len(),
{
    if s.len() == 0 {
        s
    } else {
        let rest = edges_without(s.drop_last(), n);
        if touches(s.last(), n) {
            rest
        } else {
            rest.push(s.last())
        }
    }
}

/// Whether edge `e` connects `from` to `to`.
pub open spec fn edge_is(e: AEdge, from: (u64, Seq<char>), to: (u64, Seq<char>)) -> bool {
    e.from@ == from && e.to@ == to
}

/// Whether some edge of `s` connects `from` to `to`.
pub open spec fn has_edge(s: Seq<AEdge>, from: (u64, Seq<char>), to: (u64, Seq<char>)) -> bool {
    exists|i: int| 0 <= i < s.len() && edge_is(s[i], from, to)
}

/// Whether some edge of `s` ends at input `to`.
pub open spec fn input_connected(s: Seq<AEdge>, to: (u64, Seq<char>)) -> bool {
    exists|i: int| 0 <= i < s.len() && s[i].to@ == to
}

/// The position of the first edge of `s` that connects `from` to `to`
/// (meaningful when there is one).
pub open spec fn first_edge(s: Seq<AEdge>, from: (u64, Seq<char>), to: (u64, Seq<char>)) -> int {
    choose|i: int|
        0 <= i < s.len() && edge_is(s[i], from, to) && forall|j: int| 0 <= j < i ==> !edge_is(s[j], from, to)
}

/// Whether both ends of edge `e` are nodes among `nodes`.
pub open spec fn edge_in(nodes: Seq<(u64, ANodeInstance)>, e: AEdge) -> bool {
    has_key(nodes, e.from.node) && has_key(nodes, e.to.node)
}

/// No two edges of `s` end at the same input.
pub open spec fn inputs_unique(s: Seq<AEdge>) -> bool {
    forall|i: int, j: int| 0 <= i < s.len() && 0 <= j < s.len() && i != j ==> s[i].to@ != s[j].to@
}

/// An authored graph.
#[derive(Debug, PartialEq)]
pub struct AlchemistGraph {
    pub schema_version: u32,
    pub id: AlchemistGraphId,
    pub nodes: IndexMap<ANodeId, ANodeInstance>,
    pub edges: Vec<AEdge>,
    pub exposed: ExposedSurface,
    pub layout: GraphLayout,
    pub metadata: GraphMetadata,
}

impl Clone for AlchemistGraph {
    /// A copy: the same header and edges, and a copy of each node in order.
    fn clone(&self) -> (r: Self)
        ensures
            r.schema_version == self.schema_version,
            r.id == self.id,
            r.edges@ == self.edges@,
            r.node_seq().len() == self.node_seq().len(),
            forall|i: int|
                0 <= i < self.node_seq().len() ==> (#[trigger] r.node_seq()[i]).0 == self.node_seq()[i].0
                    && instance_copy(self.node_seq()[i].1, r.node_seq()[i].1),
    {
        let mut edges: Vec<AEdge> = Vec::new();
        let mut i: usize = 0;
        while i < self.edges.len()
            invariant
                i <= self.edges@.len(),
                edges@ == self.edges@.take(i as int),
            decreases self.edges@.len() - i,
        {
            edges.push(self.edges[i].clone());
            proof {
                assert(self.edges@.take(i as int + 1) =~= self.edges@.take(i as int).push(self.edges@[i as int]));
            }
            i = i + 1;
        }
        proof {
            assert(self.edges@.take(i as int) =~= self.edges@);
        }
        AlchemistGraph {
            schema_version: self.schema_version,
            id: self.id,
            nodes: node_map_clone(&self.nodes),
            edges,
            exposed: self.exposed.clone(),
            layout: self.layout.clone(),
            metadata: self.metadata.clone(),
        }
    }
}

impl AlchemistGraph {
    /// The nodes, as entries keyed by node identifier.
    pub open spec fn node_seq(&self) -> Seq<(u64, ANodeInstance)> {
        node_entries(self.nodes)
    }

    /// Whether `other` has the same schema version, identifier, exposed
    /// surface, layout and metadata.
    pub open spec fn same_header(&self, other: &Self) -> bool {
        &&& self.schema_version == other.schema_version
        &&& self.id == other.id
        &&& self.exposed == other.exposed
        &&& self.layout == other.layout
        &&& self.metadata == other.metadata
    }

    /// Whether the graph has a node `n`.
    pub open spec fn has_node(&self, n: ANodeId) -> bool {
        has_key(self.node_seq(), n)
    }

    /// The graph is well formed: node identifiers are distinct, every edge
    /// joins two nodes of the graph, and each input has at most one edge.
    pub open spec fn wf(&self) -> bool {
        &&& self.edges_joined()
        &&& inputs_unique(self.edges@)
    }

    /// Whether node identifiers are distinct, as the graph's map of nodes
    /// keeps them.
    #[verifier::opaque]
    pub open spec fn nodes_distinct(&self) -> bool {
        keys_distinct(self.node_seq())
    }

    /// Whether node identifiers are distinct and every edge joins two nodes
    /// of the graph.
    pub open spec fn edges_joined(&self) -> bool {
        &&& keys_distinct(self.node_seq())
        &&& forall|i: int| 0 <= i < self.edges@.len() ==> edge_in(self.node_seq(), #[trigger] self.edges@[i])
    }

    /// An empty graph of the current schema version, with a fresh identifier
    /// and a viewport at zoom 1.
    pub fn new() -> (g: Self)
        ensures
            g.wf(),
            g.schema_version == ALCHEMIST_SCHEMA_VERSION,
            g.node_seq().len() == 0,
            g.edges@.len() == 0,
            g.layout.viewport_zoom == F64_ONE_BITS,
    {
        AlchemistGraph {
            schema_version: ALCHEMIST_SCHEMA_VERSION,
            id: fresh_id(),
            nodes: node_map_new(),
            edges: Vec::new(),
            exposed: ExposedSurface::new(),
            layout: GraphLayout {
                comments: Vec::new(),
                groups: Vec::new(),
                viewport_origin: [0u64, 0u64],
                viewport_zoom: F64_ONE_BITS,
            },
            metadata: GraphMetadata { label: String::new(), description: None, tags: Vec::new() },
        }
    }

    /// Adds `node` under its own identifier, unless a node with that
    /// identifier is present.
    pub fn add_node(&mut self, node: ANodeInstance) -> (r: Result<ANodeId, GraphEditError>)
        requires
            keys_distinct(old(self).node_seq()),
        ensures
            keys_distinct(final(self).node_seq()),
            old(self).wf() ==> final(self).wf(),
            final(self).same_header(&*old(self)),
            final(self).edges@ == old(self).edges@,
            r is Err <==> old(self).has_node(node.id),
            r matches Err(e) ==> e == GraphEditError::DuplicateNode(node.id) && final(self).node_seq()
                == old(self).node_seq(),
            r matches Ok(id) ==> id == node.id && final(self).node_seq() == old(self).node_seq().push(
                (node.id, node),
            ),
    {
        if node_map_contains(&self.nodes, &node.id) {
            return Err(GraphEditError::DuplicateNode(node.id));
        }
        let id = node.id;
        let ghost before = self.node_seq();
        proof {
            assert forall|k: u64| has_key(before, k) implies has_key(entries_insert(before, id, node), k) by {
                lemma_insert(before, id, node, k);
            }
            lemma_insert(before, id, node, id);
        }
        node_map_insert(&mut self.nodes, id, node);
        Ok(id)
    }

    /// Removes node `node` and every edge that starts or ends at it, and
    /// returns the removed node.
    pub fn remove_node(&mut self, node: ANodeId) -> (r: Result<ANodeInstance, GraphEditError>)
        requires
            keys_distinct(old(self).node_seq()),
        ensures
            keys_distinct(final(self).node_seq()),
            old(self).wf() ==> final(self).wf(),
            final(self).same_header(&*old(self)),
            r is Err <==> !old(self).has_node(node),
            r matches Err(e) ==> e == GraphEditError::MissingNode(node) && final(self).node_seq()
                == old(self).node_seq() && final(self).edges@ == old(self).edges@,
            r matches Ok(removed) ==> {
                &&& removed == value_of(old(self).node_seq(), node)
                &&& final(self).node_seq() == entries_remove(old(self).node_seq(), node)
                &&& final(self).edges@ == edges_without(old(self).edges@, node)
            },
    {
        let ghost before = self.node_seq();
        let ghost was_wf = self.wf();
        let removed = match node_map_shift_remove(&mut self.nodes, &node) {
            Some(removed) => removed,
            None => {
                return Err(GraphEditError::MissingNode(node));
            },
        };
        let ghost old_edges = self.edges@;
        let mut kept: Vec<AEdge> = Vec::new();
        let mut i: usize = 0;
        while i < self.edges.len()
            invariant
                i <= self.edges@.len(),
                self.edges@ == old_edges,
                kept@ == edges_without(old_edges.take(i as int), node),
            decreases self.edges@.len() - i,
        {
            let edge = &self.edges[i];
            proof {
                assert(old_edges.take(i + 1).drop_last() == old_edges.take(i as int));
                assert(old_edges.take(i + 1).last() == old_edges[i as int]);
            }
            if edge.from.node != node && edge.to.node != node {
                kept.push(edge.clone());
            }
            i = i + 1;
        }
        proof {
            assert(old_edges.take(old_edges.len() as int) == old_edges);
            lemma_edges_without(old_edges, node);
            assert forall|k: u64| has_key(entries_remove(before, node), k) <==> (k != node && has_key(before, k)) by {
                lemma_remove(before, node, k);
            }
            lemma_remove(before, node, node);
        }
        self.edges = kept;
        proof {
            if was_wf {
                assert forall|a: int| 0 <= a < self.edges@.len() implies edge_in(self.node_seq(), #[trigger] self.edges@[a]) by {
                    let j = choose|j: int| 0 <= j < old_edges.len() && old_edges[j] == self.edges@[a];
                    assert(self.edges@[a] == old_edges[j]);
                }
                assert forall|a: int, b: int|
                    0 <= a < self.edges@.len() && 0 <= b < self.edges@.len() && a != b implies self.edges@[a].to@
                    != self.edges@[b].to@ by {
                    lemma_edges_without_order(old_edges, node, a, b);
                }
            }
        }
        Ok(removed)
    }

    /// Adds an edge from `from` to `to`. Both nodes must be present, the
    /// edge must be new and the input must not be connected yet.
    pub fn connect(&mut self, from: OutputSocketRef, to: InputSocketRef) -> (r: Result<(), GraphEditError>)
        requires
            keys_distinct(old(self).node_seq()),
        ensures
            keys_distinct(final(self).node_seq()),
            old(self).wf() ==> final(self).wf(),
            final(self).same_header(&*old(self)),
            final(self).node_seq() == old(self).node_seq(),
            r is Ok ==> final(self).edges@ == old(self).edges@.push(AEdge { from, to }),
            r is Err ==> final(self).edges@ == old(self).edges@,
            r == if !old(self).has_node(from.node) {
                Err(GraphEditError::MissingNode(from.node))
            } else if !old(self).has_node(to.node) {
                Err(GraphEditError::MissingNode(to.node))
            } else if has_edge(old(self).edges@, from@, to@) {
                Err(GraphEditError::DuplicateEdge)
            } else if input_connected(old(self).edges@, to@) {
                Err(GraphEditError::InputAlreadyConnected(to))
            } else {
                Ok(())
            },
    {
        if !node_map_contains(&self.nodes, &from.node) {
            return Err(GraphEditError::MissingNode(from.node));
        }
        if !node_map_contains(&self.nodes, &to.node) {
            return Err(GraphEditError::MissingNode(to.node));
        }
        let mut i: usize = 0;
        while i < self.edges.len()
            invariant
                i <= self.edges@.len(),
                *self == *old(self),
                keys_distinct(old(self).node_seq()),
                old(self).has_node(from.node),
                old(self).has_node(to.node),
                forall|j: int| 0 <= j < i ==> !edge_is(self.edges@[j], from@, to@),
            decreases self.edges@.len() - i,
        {
            if self.edges[i].from == from && self.edges[i].to == to {
                return Err(GraphEditError::DuplicateEdge);
            }
            i = i + 1;
        }
        let mut i: usize = 0;
        while i < self.edges.len()
            invariant
                i <= self.edges@.len(),
                *self == *old(self),
                keys_distinct(old(self).node_seq()),
                old(self).has_node(from.node),
                old(self).has_node(to.node),
                !has_edge(old(self).edges@, from@, to@),
                forall|j: int| 0 <= j < i ==> self.edges@[j].to@ != to@,
            decreases self.edges@.len() - i,
        {
            if self.edges[i].to == to {
                return Err(GraphEditError::InputAlreadyConnected(to));
            }
            i = i + 1;
        }
        let ghost old_edges = self.edges@;
        let ghost was_wf = self.wf();
        self.edges.push(AEdge { from, to });
        proof {
            if was_wf {
            assert forall|a: int| 0 <= a < self.edges@.len() implies edge_in(self.node_seq(), #[trigger] self.edges@[a]) by {
                if a < old_edges.len() {
                    assert(self.edges@[a] == old_edges[a]);
                }
            }
            assert forall|a: int, b: int|
                0 <= a < self.edges@.len() && 0 <= b < self.edges@.len() && a != b implies self.edges@[a].to@
                != self.edges@[b].to@ by {
                if a < old_edges.len() && b < old_edges.len() {
                    assert(self.edges@[a] == old_edges[a] && self.edges@[b] == old_edges[b]);
                } else if a < old_edges.len() {
                    assert(self.edges@[a] == old_edges[a]);
                } else {
                    assert(self.edges@[b] == old_edges[b]);
                }
            }
            }
        }
        Ok(())
    }

    /// Removes the first edge from `from` to `to` and returns it.
    pub fn disconnect(&mut self, from: &OutputSocketRef, to: &InputSocketRef) -> (r: Result<AEdge, GraphEditError>)
        requires
            keys_distinct(old(self).node_seq()),
        ensures
            keys_distinct(final(self).node_seq()),
            old(self).wf() ==> final(self).wf(),
            final(self).same_header(&*old(self)),
            final(self).node_seq() == old(self).node_seq(),
            r is Err <==> !has_edge(old(self).edges@, from@, to@),
            r matches Err(e) ==> e == GraphEditError::MissingEdge && final(self).edges@ == old(self).edges@,
            r matches Ok(edge) ==> {
                let k = first_edge(old(self).edges@, from@, to@);
                &&& edge == old(self).edges@[k]
                &&& final(self).edges@ == old(self).edges@.remove(k)
            },
    {
        let mut i: usize = 0;
        while i < self.edges.len()
            invariant
                i <= self.edges@.len(),
                *self == *old(self),
                keys_distinct(old(self).node_seq()),
                forall|j: int| 0 <= j < i ==> !edge_is(self.edges@[j], from@, to@),
            decreases self.edges@.len() - i,
        {
            if self.edges[i].from == *from && self.edges[i].to == *to {
                let ghost old_edges = self.edges@;
                let ghost was_wf = self.wf();
                proof {
                    lemma_first_edge(old_edges, from@, to@, i as int);
                }
                let edge = self.edges.remove(i);
                proof {
                    if was_wf {
                    assert forall|a: int| 0 <= a < self.edges@.len() implies edge_in(self.node_seq(), #[trigger] self.edges@[a]) by {
                        if a < i {
                            assert(self.edges@[a] == old_edges[a]);
                        } else {
                            assert(self.edges@[a] == old_edges[a + 1]);
                        }
                    }
                    assert forall|a: int, b: int|
                        0 <= a < self.edges@.len() && 0 <= b < self.edges@.len() && a != b implies self.edges@[a].to@
                        != self.edges@[b].to@ by {
                        let oa = if a < i { a } else { a + 1 };
                        let ob = if b < i { b } else { b + 1 };
                        assert(self.edges@[a] == old_edges[oa] && self.edges@[b] == old_edges[ob]);
                    }
                    }
                }
                return Ok(edge);
            }
            i = i + 1;
        }
        Err(GraphEditError::MissingEdge)
    }

    /// `Ok` when node `node` is present.
    pub fn require_node(&self, node: ANodeId) -> (r: Result<(), GraphEditError>)
        ensures
            r == if self.has_node(node) {
                Ok(())
            } else {
                Err(GraphEditError::MissingNode(node))
            },
    {
        if node_map_contains(&self.nodes, &node) {
            Ok(())
        } else {
            Err(GraphEditError::MissingNode(node))
        }
    }
}

/// The first matching edge is at `i` when `i` matches and none before does.
pub proof fn lemma_first_edge(s: Seq<AEdge>, from: (u64, Seq<char>), to: (u64, Seq<char>), i: int)
    requires
        0 <= i < s.len(),
        edge_is(s[i], from, to),
        forall|j: int| 0 <= j < i ==> !edge_is(s[j], from, to),
    ensures
        has_edge(s, from, to),
        first_edge(s, from, to) == i,
{
    let k = first_edge(s, from, to);
    assert(0 <= k < s.len() && edge_is(s[k], from, to) && forall|j: int| 0 <= j < k ==> !edge_is(s[j], from, to));
    if k < i {
        assert(!edge_is(s[k], from, to));
    }
    if i < k {
        assert(!edge_is(s[i], from, to));
    }
}

/// The edges kept after removing a node's edges are edges of the original
/// sequence that do not touch the node.
pub proof fn lemma_edges_without(s: Seq<AEdge>, n: ANodeId)
    ensures
        edges_without(s, n).len() <= s.len(),
        forall|a: int|
            0 <= a < edges_without(s, n).len() ==> !touches(#[trigger] edges_without(s, n)[a], n) && exists|j: int| #![trigger s[j]]
                0 <= j < s.len() && s[j] == edges_without(s, n)[a],
    decreases s.len(),
{
    if s.len() > 0 {
        lemma_edges_without(s.drop_last(), n);
        let rest = edges_without(s.drop_last(), n);
        assert forall|a: int| #![trigger rest[a]] 0 <= a < rest.len() implies exists|j: int| #![trigger s[j]] 0 <= j < s.len() && s[j] == rest[a] by {
            let j = choose|j: int| 0 <= j < s.drop_last().len() && s.drop_last()[j] == rest[a];
            assert(s[j] == rest[a]);
        }
        if !touches(s.last(), n) {
            let t = rest.push(s.last());
            assert forall|a: int| 0 <= a < t.len() implies !touches(#[trigger] t[a], n) && exists|j: int| #![trigger s[j]]
                0 <= j < s.len() && s[j] == t[a] by {
                if a < rest.len() {
                    assert(t[a] == rest[a]);
                } else {
                    assert(s[s.len() - 1] == t[a]);
                }
            }
        }
    }
}

/// Removing a node's edges keeps the order of the remaining edges, so two
/// kept edges come from two distinct original positions.
pub proof fn lemma_edges_without_order(s: Seq<AEdge>, n: ANodeId, a: int, b: int)
    requires
        inputs_unique(s),
        0 <= a < edges_without(s, n).len(),
        0 <= b < edges_without(s, n).len(),
        a != b,
    ensures
        edges_without(s, n)[a].to@ != edges_without(s, n)[b].to@,
    decreases s.len(),
{
    let rest = edges_without(s.drop_last(), n);
    assert(inputs_unique(s.drop_last())) by {
        assert forall|i: int, j: int|
            0 <= i < s.drop_last().len() && 0 <= j < s.drop_last().len() && i != j implies s.drop_last()[i].to@
            != s.drop_last()[j].to@ by {
            assert(s.drop_last()[i] == s[i] && s.drop_last()[j] == s[j]);
        }
    }
    if touches(s.last(), n) {
        lemma_edges_without_order(s.drop_last(), n, a, b);
    } else {
        let t = rest.push(s.last());
        if a < rest.len() && b < rest.len() {
            assert(t[a] == rest[a] && t[b] == rest[b]);
            lemma_edges_without_order(s.drop_last(), n, a, b);
        } else {
            let other = if a < rest.len() { a } else { b };
            lemma_edges_without(s.drop_last(), n);
            let j = choose|j: int| 0 <= j < s.drop_last().len() && s.drop_last()[j] == rest[other];
            assert(s[j] == rest[other]);
            assert(s[s.len() - 1] == s.last());
            assert(j != s.len() - 1);
        }
    }
}

/// Connecting a new pair of sockets and then disconnecting the same pair
/// leaves the edges as they were.
pub proof fn law_connect_then_disconnect(edges: Seq<AEdge>, from: OutputSocketRef, to: InputSocketRef)
    requires
        !has_edge(edges, from@, to@),
    ensures
        has_edge(edges.push(AEdge { from, to }), from@, to@),
        edges.push(AEdge { from, to }).remove(first_edge(edges.push(AEdge { from, to }), from@, to@)) == edges,
{
    let pushed = edges.push(AEdge { from, to });
    assert forall|j: int| 0 <= j < edges.len() implies !edge_is(pushed[j], from@, to@) by {
        assert(pushed[j] == edges[j]);
    }
    lemma_first_edge(pushed, from@, to@, edges.len() as int);
    assert(pushed.remove(edges.len() as int) =~= edges);
}

/// Adding a node that is not present and then removing it leaves the nodes
/// as they were, and the edges too when none of them touches the node's
/// identifier (as none does when every edge joins two present nodes).
pub proof fn law_add_then_remove_node(
    nodes: Seq<(u64, ANodeInstance)>,
    edges: Seq<AEdge>,
    node: ANodeInstance,
)
    requires
        keys_distinct(nodes),
        !has_key(nodes, node.id),
        forall|i: int| 0 <= i < edges.len() ==> !touches(#[trigger] edges[i], node.id),
    ensures
        entries_remove(nodes.push((node.id, node)), node.id) == nodes,
        edges_without(edges, node.id) == edges,
{
    let pushed = nodes.push((node.id, node));
    assert(pushed[nodes.len() as int].0 == node.id);
    lemma_insert(nodes, node.id, node, node.id);
    assert(entries_insert(nodes, node.id, node) == pushed);
    crate::ordered::lemma_key_pos(pushed, nodes.len() as int);
    assert(pushed.remove(nodes.len() as int) =~= nodes);
    lemma_edges_without_none(edges, node.id);
}

/// Removing the edges of a node that no edge touches keeps every edge.
pub proof fn lemma_edges_without_none(edges: Seq<AEdge>, n: ANodeId)
    requires
        forall|i: int| 0 <= i < edges.len() ==> !touches(#[trigger] edges[i], n),
    ensures
        edges_without(edges, n) == edges,
    decreases edges.len(),
{
    if edges.len() > 0 {
        assert(edges.last() == edges[edges.len() - 1]);
        lemma_edges_without_none(edges.drop_last(), n);
        assert(edges.drop_last().push(edges.last()) =~= edges);
    }
}

/// After a node is removed, no remaining edge touches it.
pub proof fn law_removed_node_has_no_edges(edges: Seq<AEdge>, n: ANodeId)
    ensures
        forall|i: int| 0 <= i < edges_without(edges, n).len() ==> !touches(#[trigger] edges_without(edges, n)[i], n),
{
    lemma_edges_without(edges, n);
}

} // verus!
