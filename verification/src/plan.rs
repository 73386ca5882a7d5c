//! Where each input of a compiled node reads its value from.
use vstd::prelude::*;

use crate::compile::InputValueSource;
use crate::graph::{AEdge, ANodeInstance};
use crate::ids::{ANodeId, SocketId, ValueSlotId};
use crate::indexmap_specs::{default_entries, resolved_node_entries, resolved_socket_entries};
use crate::node::ANodeSignature;
use crate::ordered::{has_key, value_of};
use crate::registry::{ValueTypeDescriptor, ValueTypeRegistry};
use crate::solve::{opt_view, ResolvedGraph};
use crate::typing::split_socket_spec;
use crate::value::{component_type_of, same_value, RuntimeValue, ValueComponent, ValueTypeId};

verus! {

/// The value slot of an output socket of a node.
#[derive(Debug)]
pub struct SlotEntry {
    pub node: ANodeId,
    pub socket: SocketId,
    pub slot: ValueSlotId,
}

/// The slot of output `socket` of `node`: the first entry for it.
pub open spec fn slot_of(slots: Seq<SlotEntry>, node: u64, socket: Seq<char>) -> Option<u32> {
    if exists|i: int| 0 <= i < slots.len() && #[trigger] slot_for(slots[i], node, socket) {
        let i = choose|i: int|
            0 <= i < slots.len() && #[trigger] slot_for(slots[i], node, socket) && forall|j: int|
                0 <= j < i ==> !slot_for(slots[j], node, socket);
        Some(slots[i].slot.0)
    } else {
        None
    }
}

/// Whether `e` is the slot entry of output `socket` of `node`.
pub open spec fn slot_for(e: SlotEntry, node: u64, socket: Seq<char>) -> bool {
    e.node == node && e.socket@ == socket
}

proof fn lemma_first_slot(slots: Seq<SlotEntry>, node: u64, socket: Seq<char>, k: int)
    requires
        0 <= k < slots.len(),
        slot_for(slots[k], node, socket),
    ensures
        exists|i: int|
            0 <= i <= k && #[trigger] slot_for(slots[i], node, socket) && forall|j: int|
                0 <= j < i ==> !slot_for(slots[j], node, socket),
    decreases k,
{
    if exists|j: int| 0 <= j < k && #[trigger] slot_for(slots[j], node, socket) {
        let j = choose|j: int| 0 <= j < k && #[trigger] slot_for(slots[j], node, socket);
        lemma_first_slot(slots, node, socket, j);
    } else {
        assert(forall|j: int| 0 <= j < k ==> !slot_for(slots[j], node, socket));
    }
}

/// The slot of output `socket` of `node`, as [`slot_of`] says.
pub fn find_slot(slots: &Vec<SlotEntry>, node: ANodeId, socket: &str) -> (r: Option<ValueSlotId>)
    ensures
        match r {
            None => slot_of(slots@, node, socket@) is None,
            Some(s) => slot_of(slots@, node, socket@) == Some(s.0),
        },
{
    let mut i: usize = 0;
    while i < slots.len()
        invariant
            i <= slots@.len(),
            forall|j: int| 0 <= j < i ==> !slot_for(slots@[j], node, socket@),
        decreases slots@.len() - i,
    {
        if slots[i].node == node && crate::text::str_eq(slots[i].socket.as_str(), socket) {
            proof {
                assert(slot_for(slots@[i as int], node, socket@));
                lemma_first_slot(slots@, node, socket@, i as int);
                let k = choose|k: int|
                    0 <= k < slots@.len() && #[trigger] slot_for(slots@[k], node, socket@) && forall|j: int|
                        0 <= j < k ==> !slot_for(slots@[j], node, socket@);
                assert(k == i);
            }
            return Some(slots[i].slot);
        }
        i = i + 1;
    }
    None
}

/// Where an input takes its value from, over plain values.
pub enum SourceView {
    Slot(u32),
    Converted(Box<SourceView>, Seq<char>),
    Component(Box<SourceView>, ValueComponent),
    Composite(Seq<char>, Box<SourceView>, Seq<(ValueComponent, SourceView)>),
    /// A copy of the value.
    Constant(RuntimeValue),
    Unset,
}

/// Whether source `s` is the one `v` describes (a constant a copy of its value).
pub open spec fn source_is(s: InputValueSource, v: SourceView) -> bool
    decreases s,
{
    match (s, v) {
        (InputValueSource::Slot(a), SourceView::Slot(b)) => a.0 == b,
        (InputValueSource::Converted { source, target_type }, SourceView::Converted(inner, t)) => target_type@ == t
            && source_is(*source, *inner),
        (InputValueSource::Component { source, component }, SourceView::Component(inner, c)) => component == c
            && source_is(*source, *inner),
        (InputValueSource::Composite { target_type, base, components }, SourceView::Composite(t, b, cs)) => {
            &&& target_type@ == t
            &&& source_is(*base, *b)
            &&& components@.len() == cs.len()
            &&& forall|i: int|
                0 <= i < cs.len() ==> (#[trigger] components@[i]).0 == cs[i].0 && source_is(components@[i].1, cs[i].1)
        },
        (InputValueSource::Constant(a), SourceView::Constant(b)) => same_value(a, b),
        (InputValueSource::Unset, SourceView::Unset) => true,
        _ => false,
    }
}

/// The resolved type of output `socket` of node `node` in the solved nodes,
/// if the node, the socket and its type are known.
pub open spec fn solved_output_type(nodes: Seq<(u64, crate::solve::ResolvedANode)>, node: u64, socket: Seq<char>) -> Option<Seq<char>> {
    if has_key(nodes, node) {
        let outs = value_of(nodes, node).signature.output_entries();
        if has_key(outs, socket) {
            opt_view(value_of(outs, socket).value_type)
        } else {
            None
        }
    } else {
        None
    }
}

/// Whether the solved nodes know output `socket` of node `node`.
pub open spec fn solved_output_known(nodes: Seq<(u64, crate::solve::ResolvedANode)>, node: u64, socket: Seq<char>) -> bool {
    has_key(nodes, node) && has_key(value_of(nodes, node).signature.output_entries(), socket)
}

/// What an input fed by edge `e` reads, for an input of type `target`: the
/// slot of the edge's source output (or a component of it), converted to
/// `target` when the source's type is known and differs. `None` when the
/// source output has no slot or is unknown to the solved graph.
pub open spec fn edge_source_spec(
    e: AEdge,
    target: Option<Seq<char>>,
    nodes: Seq<(u64, crate::solve::ResolvedANode)>,
    slots: Seq<SlotEntry>,
) -> Option<SourceView> {
    let (socket, component) = split_socket_spec(e.from.socket@);
    match slot_of(slots, e.from.node, socket) {
        None => None,
        Some(slot) => if !solved_output_known(nodes, e.from.node, socket) {
            None
        } else {
            let base_type = solved_output_type(nodes, e.from.node, socket);
            let (source, source_type) = match component {
                None => (SourceView::Slot(slot), base_type),
                Some(c) => (
                    SourceView::Component(Box::new(SourceView::Slot(slot)), c),
                    match base_type {
                        Some(t) => component_type_of(t, c),
                        None => None,
                    },
                ),
            };
            match (source_type, target) {
                (Some(s), Some(t)) => if s != t {
                    Some(SourceView::Converted(Box::new(source), t))
                } else {
                    Some(source)
                },
                _ => Some(source),
            }
        },
    }
}

/// What an input fed by `edge` reads, as [`edge_source_spec`] says.
pub fn edge_input_source(
    edge: &AEdge,
    target_type: Option<&ValueTypeId>,
    solved: &ResolvedGraph,
    slots: &Vec<SlotEntry>,
) -> (r: Option<InputValueSource>)
    ensures
        match edge_source_spec(
            *edge,
            match target_type {
                Some(t) => Some(t@),
                None => None,
            },
            solved.node_seq(),
            slots@,
        ) {
            None => r is None,
            Some(v) => r matches Some(s) && source_is(s, v),
        },
{
    let (source_socket, source_component) = crate::typing::split_socket_component(&edge.from.socket);
    let slot = match find_slot(slots, edge.from.node, source_socket.as_str()) {
        None => {
            return None;
        },
        Some(s) => s,
    };
    let node = match crate::indexmap_specs::resolved_node_map_get(&solved.nodes, &edge.from.node) {
        None => {
            return None;
        },
        Some(n) => n,
    };
    let output = match crate::indexmap_specs::resolved_socket_map_get(&node.signature.outputs, &source_socket) {
        None => {
            return None;
        },
        Some(o) => o,
    };
    let mut source = InputValueSource::Slot(slot);
    let mut source_type = match &output.value_type {
        Some(t) => Some(t.clone()),
        None => None,
    };
    let ghost inner = SourceView::Slot(slot.0);
    let ghost mut view = inner;
    assert(source_is(source, view));
    match source_component {
        None => {},
        Some(c) => {
            source = InputValueSource::Component { source: Box::new(source), component: c };
            proof {
                view = SourceView::Component(Box::new(inner), c);
                assert(source_is(source, view));
            }
            source_type = match &source_type {
                Some(t) => crate::value::component_value_type(t, c),
                None => None,
            };
        },
    }
    match (&source_type, target_type) {
        (Some(s), Some(t)) => {
            if !crate::text::str_eq(s.as_str(), t.as_str()) {
                source = InputValueSource::Converted { source: Box::new(source), target_type: t.clone() };
                proof {
                    let before = view;
                    view = SourceView::Converted(Box::new(before), t@);
                    assert(source_is(source, view));
                }
            }
        },
        _ => {},
    }
    proof {
        assert(source_is(source, view));
    }
    Some(source)
}


/// The position of the first edge into input `socket` of `node`.
pub open spec fn first_edge_into(edges: Seq<AEdge>, node: u64, socket: Seq<char>) -> Option<int> {
    if exists|i: int| 0 <= i < edges.len() && #[trigger] edge_into(edges[i], node, socket) {
        Some(
            choose|i: int|
                0 <= i < edges.len() && #[trigger] edge_into(edges[i], node, socket) && forall|j: int|
                    0 <= j < i ==> !edge_into(edges[j], node, socket),
        )
    } else {
        None
    }
}

/// Whether edge `e` ends at input `socket` of `node`.
pub open spec fn edge_into(e: AEdge, node: u64, socket: Seq<char>) -> bool {
    e.to.node == node && e.to.socket@ == socket
}

proof fn lemma_first_edge_into(edges: Seq<AEdge>, node: u64, socket: Seq<char>, k: int)
    requires
        0 <= k < edges.len(),
        edge_into(edges[k], node, socket),
    ensures
        exists|i: int|
            0 <= i <= k && #[trigger] edge_into(edges[i], node, socket) && forall|j: int|
                0 <= j < i ==> !edge_into(edges[j], node, socket),
    decreases k,
{
    if exists|j: int| 0 <= j < k && #[trigger] edge_into(edges[j], node, socket) {
        let j = choose|j: int| 0 <= j < k && #[trigger] edge_into(edges[j], node, socket);
        lemma_first_edge_into(edges, node, socket, j);
    } else {
        assert(forall|j: int| 0 <= j < k ==> !edge_into(edges[j], node, socket));
    }
}

/// The first edge into input `socket` of `node`, as [`first_edge_into`] says.
fn find_edge_into(edges: &Vec<AEdge>, node: ANodeId, socket: &SocketId) -> (r: Option<usize>)
    ensures
        match r {
            None => first_edge_into(edges@, node, socket@) is None,
            Some(i) => i < edges@.len() && first_edge_into(edges@, node, socket@) == Some(i as int),
        },
{
    let mut i: usize = 0;
    while i < edges.len()
        invariant
            i <= edges@.len(),
            forall|j: int| 0 <= j < i ==> !edge_into(edges@[j], node, socket@),
        decreases edges@.len() - i,
    {
        if edges[i].to.node == node && crate::text::str_eq(edges[i].to.socket.as_str(), socket.as_str()) {
            proof {
                assert(edge_into(edges@[i as int], node, socket@));
                lemma_first_edge_into(edges@, node, socket@, i as int);
                let k = choose|k: int|
                    0 <= k < edges@.len() && #[trigger] edge_into(edges@[k], node, socket@) && forall|j: int|
                        0 <= j < k ==> !edge_into(edges@[j], node, socket@);
                assert(k == i);
            }
            return Some(i);
        }
        i = i + 1;
    }
    None
}

/// The position of the first input `socket` declared by `sig`.
pub open spec fn first_declared_input(sig: ANodeSignature, socket: Seq<char>) -> Option<int> {
    if exists|i: int| 0 <= i < sig.inputs@.len() && #[trigger] sig.inputs@[i].id@ == socket {
        Some(
            choose|i: int|
                0 <= i < sig.inputs@.len() && #[trigger] sig.inputs@[i].id@ == socket && forall|j: int|
                    0 <= j < i ==> sig.inputs@[j].id@ != socket,
        )
    } else {
        None
    }
}

proof fn lemma_first_declared_input(sig: ANodeSignature, socket: Seq<char>, k: int)
    requires
        0 <= k < sig.inputs@.len(),
        sig.inputs@[k].id@ == socket,
    ensures
        exists|i: int|
            0 <= i <= k && #[trigger] sig.inputs@[i].id@ == socket && forall|j: int|
                0 <= j < i ==> sig.inputs@[j].id@ != socket,
    decreases k,
{
    if exists|j: int| 0 <= j < k && #[trigger] sig.inputs@[j].id@ == socket {
        let j = choose|j: int| 0 <= j < k && #[trigger] sig.inputs@[j].id@ == socket;
        lemma_first_declared_input(sig, socket, j);
    } else {
        assert(forall|j: int| 0 <= j < k ==> sig.inputs@[j].id@ != socket);
    }
}

/// The default of input `socket` of `instance`: the instance's own default
/// for it, else the default its declaration gives the first input so named.
pub open spec fn input_default_spec(instance: ANodeInstance, sig: Option<ANodeSignature>, socket: Seq<char>) -> Option<RuntimeValue> {
    if has_key(default_entries(instance.input_defaults), socket) {
        Some(value_of(default_entries(instance.input_defaults), socket))
    } else {
        match sig {
            None => None,
            Some(s) => match first_declared_input(s, socket) {
                None => None,
                Some(i) => s.inputs@[i].default_value,
            },
        }
    }
}

/// Whether `r` is a copy of the optional value `v`.
pub open spec fn copy_of(r: Option<RuntimeValue>, v: Option<RuntimeValue>) -> bool {
    match (r, v) {
        (None, None) => true,
        (Some(a), Some(b)) => same_value(a, b),
        _ => false,
    }
}

/// The default of input `socket` of `instance`, as [`input_default_spec`] says.
pub fn input_default(instance: &ANodeInstance, signature: Option<&ANodeSignature>, socket: &SocketId) -> (r: Option<RuntimeValue>)
    ensures
        copy_of(
            r,
            input_default_spec(
                *instance,
                match signature {
                    Some(s) => Some(*s),
                    None => None,
                },
                socket@,
            ),
        ),
{
    match crate::indexmap_specs::default_map_get(&instance.input_defaults, socket) {
        Some(value) => {
            return Some(value.clone());
        },
        None => {},
    }
    let sig = match signature {
        None => {
            return None;
        },
        Some(s) => s,
    };
    let mut i: usize = 0;
    while i < sig.inputs.len()
        invariant
            i <= sig.inputs@.len(),
            signature == Some(sig),
            !has_key(default_entries(instance.input_defaults), socket@),
            forall|j: int| 0 <= j < i ==> sig.inputs@[j].id@ != socket@,
        decreases sig.inputs@.len() - i,
    {
        if crate::text::str_eq(sig.inputs[i].id.as_str(), socket.as_str()) {
            proof {
                lemma_first_declared_input(*sig, socket@, i as int);
                let k = choose|k: int|
                    0 <= k < sig.inputs@.len() && #[trigger] sig.inputs@[k].id@ == socket@ && forall|j: int|
                        0 <= j < k ==> sig.inputs@[j].id@ != socket@;
                assert(k == i);
            }
            return match &sig.inputs[i].default_value {
                Some(v) => Some(v.clone()),
                None => None,
            };
        }
        i = i + 1;
    }
    None
}


/// The sources of the components of input `socket` of `node` fed by the
/// first `k` edges: each edge into a component of the input, in order,
/// read as that component's type when the input's type has the component.
pub open spec fn component_sources(
    edges: Seq<AEdge>,
    node: u64,
    socket: Seq<char>,
    target: Option<Seq<char>>,
    nodes: Seq<(u64, crate::solve::ResolvedANode)>,
    slots: Seq<SlotEntry>,
    k: nat,
) -> Seq<(ValueComponent, SourceView)>
    decreases k,
{
    if k == 0 || k > edges.len() {
        Seq::empty()
    } else {
        let rest = component_sources(edges, node, socket, target, nodes, slots, (k - 1) as nat);
        let e = edges[k - 1];
        let (base, component) = split_socket_spec(e.to.socket@);
        if e.to.node == node && base == socket {
            match (component, target) {
                (Some(c), Some(t)) => match component_type_of(t, c) {
                    Some(ct) => match edge_source_spec(e, Some(ct), nodes, slots) {
                        Some(v) => rest.push((c, v)),
                        None => rest,
                    },
                    None => rest,
                },
                _ => rest,
            }
        } else {
            rest
        }
    }
}

/// The registered default of type `t`, as a constant source.
pub open spec fn registry_default(registry: Seq<(Seq<char>, ValueTypeDescriptor)>, t: Option<Seq<char>>) -> Option<SourceView> {
    match t {
        Some(v) => if has_key(registry, v) {
            Some(SourceView::Constant(value_of(registry, v).default_value))
        } else {
            None
        },
        None => None,
    }
}

/// Where input `socket` of `node` (of resolved type `target`) reads from:
/// the first edge into it, else its default, else the registered default
/// of its type; and when edges feed components of it, a value of its type
/// built from that base with those components replaced.
pub open spec fn input_source_spec(
    edges: Seq<AEdge>,
    nodes: Seq<(u64, crate::solve::ResolvedANode)>,
    slots: Seq<SlotEntry>,
    instance: ANodeInstance,
    sig: Option<ANodeSignature>,
    node: u64,
    socket: Seq<char>,
    target: Option<Seq<char>>,
    registry: Seq<(Seq<char>, ValueTypeDescriptor)>,
) -> SourceView {
    let from_edge = match first_edge_into(edges, node, socket) {
        Some(i) => edge_source_spec(edges[i], target, nodes, slots),
        None => None,
    };
    let base = match from_edge {
        Some(v) => Some(v),
        None => match input_default_spec(instance, sig, socket) {
            Some(d) => Some(SourceView::Constant(d)),
            None => registry_default(registry, target),
        },
    };
    let components = component_sources(edges, node, socket, target, nodes, slots, edges.len());
    if components.len() == 0 || target is None {
        match base {
            Some(v) => v,
            None => SourceView::Unset,
        }
    } else {
        let b = match base {
            Some(v) => v,
            None => match registry_default(registry, target) {
                Some(v) => v,
                None => SourceView::Unset,
            },
        };
        SourceView::Composite(target->0, Box::new(b), components)
    }
}

/// A node's own default for an input is that input's default, before
/// and whatever the node's declaration says.
pub proof fn law_instance_default_wins(instance: ANodeInstance, sig: Option<ANodeSignature>, socket: Seq<char>)
    requires
        has_key(default_entries(instance.input_defaults), socket),
    ensures
        input_default_spec(instance, sig, socket) == Some(value_of(default_entries(instance.input_defaults), socket)),
        input_default_spec(instance, sig, socket) == input_default_spec(instance, None, socket),
{
}

/// Without a default of the node's own, an input's default is the one its
/// declaration gives the first input of that name; with no input of that
/// name, or no declaration, there is none.
pub proof fn law_declared_default_of_first_input(
    instance: ANodeInstance,
    sig: ANodeSignature,
    socket: Seq<char>,
    i: int,
)
    requires
        !has_key(default_entries(instance.input_defaults), socket),
    ensures
        0 <= i < sig.inputs@.len() && sig.inputs@[i].id@ == socket && (forall|j: int|
            0 <= j < i ==> sig.inputs@[j].id@ != socket) ==> input_default_spec(instance, Some(sig), socket)
            == sig.inputs@[i].default_value,
        (forall|j: int| 0 <= j < sig.inputs@.len() ==> sig.inputs@[j].id@ != socket) ==> input_default_spec(
            instance,
            Some(sig),
            socket,
        ) is None,
        input_default_spec(instance, None, socket) is None,
{
    if 0 <= i < sig.inputs@.len() && sig.inputs@[i].id@ == socket && (forall|j: int|
        0 <= j < i ==> sig.inputs@[j].id@ != socket) {
        lemma_first_declared_input(sig, socket, i);
        let k = choose|k: int|
            0 <= k < sig.inputs@.len() && #[trigger] sig.inputs@[k].id@ == socket && forall|j: int|
                0 <= j < k ==> sig.inputs@[j].id@ != socket;
        if k < i {
            assert(sig.inputs@[k].id@ != socket);
        } else if i < k {
            assert(sig.inputs@[i].id@ != socket);
        }
    }
}

/// No edge reaching node `node` feeds a component of any of its inputs.
proof fn lemma_no_component_sources(
    edges: Seq<AEdge>,
    node: u64,
    socket: Seq<char>,
    target: Option<Seq<char>>,
    nodes: Seq<(u64, crate::solve::ResolvedANode)>,
    slots: Seq<SlotEntry>,
    k: nat,
)
    requires
        forall|i: int| 0 <= i < edges.len() ==> (#[trigger] edges[i]).to.node != node,
    ensures
        component_sources(edges, node, socket, target, nodes, slots, k).len() == 0,
    decreases k,
{
    if k > 0 && k <= edges.len() {
        lemma_no_component_sources(edges, node, socket, target, nodes, slots, (k - 1) as nat);
        assert(edges[k - 1].to.node != node);
    }
}

/// An input of a node that no edge reaches, where the node holds its own
/// default for that input, reads exactly that default as a constant,
/// whatever the declaration or the value type registry says.
pub proof fn law_unconnected_input_reads_instance_default(
    edges: Seq<AEdge>,
    nodes: Seq<(u64, crate::solve::ResolvedANode)>,
    slots: Seq<SlotEntry>,
    instance: ANodeInstance,
    sig: Option<ANodeSignature>,
    node: u64,
    socket: Seq<char>,
    target: Option<Seq<char>>,
    registry: Seq<(Seq<char>, ValueTypeDescriptor)>,
)
    requires
        forall|i: int| 0 <= i < edges.len() ==> (#[trigger] edges[i]).to.node != node,
        has_key(default_entries(instance.input_defaults), socket),
    ensures
        input_source_spec(edges, nodes, slots, instance, sig, node, socket, target, registry) == SourceView::Constant(
            value_of(default_entries(instance.input_defaults), socket),
        ),
{
    lemma_no_component_sources(edges, node, socket, target, nodes, slots, edges.len());
    assert(!(exists|i: int| 0 <= i < edges.len() && #[trigger] edge_into(edges[i], node, socket)));
}

/// The registered default of `target` as a constant source.
fn registry_default_source(registry: &ValueTypeRegistry, target: Option<&ValueTypeId>) -> (r: Option<InputValueSource>)
    ensures
        match registry_default(
            registry.entries(),
            match target {
                Some(t) => Some(t@),
                None => None,
            },
        ) {
            None => r is None,
            Some(v) => r matches Some(s) && source_is(s, v),
        },
{
    match target {
        None => None,
        Some(t) => match registry.default_value(t) {
            None => None,
            Some(v) => Some(InputValueSource::Constant(v)),
        },
    }
}

/// The component sources of input `socket` of `node`, as
/// [`component_sources`] says.
fn component_source_list(
    edges: &Vec<AEdge>,
    solved: &ResolvedGraph,
    slots: &Vec<SlotEntry>,
    node: ANodeId,
    socket: &SocketId,
    target_type: Option<&ValueTypeId>,
) -> (r: Vec<(ValueComponent, InputValueSource)>)
    ensures
        ({
            let cs = component_sources(
                edges@,
                node,
                socket@,
                match target_type {
                    Some(t) => Some(t@),
                    None => None,
                },
                solved.node_seq(),
                slots@,
                edges@.len(),
            );
            &&& r@.len() == cs.len()
            &&& forall|i: int| 0 <= i < cs.len() ==> (#[trigger] r@[i]).0 == cs[i].0 && source_is(r@[i].1, cs[i].1)
        }),
{
    let ghost target = match target_type {
        Some(t) => Some(t@),
        None => None,
    };
    let mut r: Vec<(ValueComponent, InputValueSource)> = Vec::new();
    let mut k: usize = 0;
    while k < edges.len()
        invariant
            k <= edges@.len(),
            target == match target_type {
                Some(t) => Some(t@),
                None => None,
            },
            ({
                let cs = component_sources(edges@, node, socket@, target, solved.node_seq(), slots@, k as nat);
                &&& r@.len() == cs.len()
                &&& forall|i: int| 0 <= i < cs.len() ==> (#[trigger] r@[i]).0 == cs[i].0 && source_is(r@[i].1, cs[i].1)
            }),
        decreases edges@.len() - k,
    {
        let e = &edges[k];
        if e.to.node == node {
            let (base, component) = crate::typing::split_socket_component(&e.to.socket);
            if crate::text::str_eq(base.as_str(), socket.as_str()) {
                match (component, target_type) {
                    (Some(c), Some(t)) => {
                        match crate::value::component_value_type(t, c) {
                            Some(ct) => {
                                match edge_input_source(e, Some(&ct), solved, slots) {
                                    Some(source) => {
                                        r.push((c, source));
                                    },
                                    None => {},
                                }
                            },
                            None => {},
                        }
                    },
                    _ => {},
                }
            }
        }
        k = k + 1;
    }
    r
}

/// Where input `socket` of `node` reads from, as [`input_source_spec`] says.
/// `signature` is the declared signature of the node, if its type is
/// declared.
pub fn input_source(
    edges: &Vec<AEdge>,
    solved: &ResolvedGraph,
    slots: &Vec<SlotEntry>,
    instance: &ANodeInstance,
    signature: Option<&ANodeSignature>,
    node: ANodeId,
    socket: &SocketId,
    target_type: Option<&ValueTypeId>,
    registry: &ValueTypeRegistry,
) -> (r: InputValueSource)
    ensures
        source_is(
            r,
            input_source_spec(
                edges@,
                solved.node_seq(),
                slots@,
                *instance,
                match signature {
                    Some(s) => Some(*s),
                    None => None,
                },
                node,
                socket@,
                match target_type {
                    Some(t) => Some(t@),
                    None => None,
                },
                registry.entries(),
            ),
        ),
{
    let ghost target = match target_type {
        Some(t) => Some(t@),
        None => None,
    };
    let ghost sig = match signature {
        Some(s) => Some(*s),
        None => None,
    };
    let ghost spec_from_edge = match first_edge_into(edges@, node, socket@) {
        Some(i) => edge_source_spec(edges@[i], target, solved.node_seq(), slots@),
        None => None,
    };
    let ghost spec_base = match spec_from_edge {
        Some(v) => Some(v),
        None => match input_default_spec(*instance, sig, socket@) {
            Some(d) => Some(SourceView::Constant(d)),
            None => registry_default(registry.entries(), target),
        },
    };
    let from_edge = match find_edge_into(edges, node, socket) {
        Some(i) => edge_input_source(&edges[i], target_type, solved, slots),
        None => None,
    };
    let base = match from_edge {
        Some(s) => Some(s),
        None => match input_default(instance, signature, socket) {
            Some(d) => Some(InputValueSource::Constant(d)),
            None => registry_default_source(registry, target_type),
        },
    };
    assert(match spec_base {
        None => base is None,
        Some(v) => base matches Some(b) && source_is(b, v),
    });
    let components = component_source_list(edges, solved, slots, node, socket, target_type);
    let ghost spec_components = component_sources(edges@, node, socket@, target, solved.node_seq(), slots@, edges@.len());
    if components.len() == 0 {
        return match base {
            Some(s) => s,
            None => InputValueSource::Unset,
        };
    }
    let t = match target_type {
        None => {
            return match base {
                Some(s) => s,
                None => InputValueSource::Unset,
            };
        },
        Some(t) => t,
    };
    let ghost spec_b = match spec_base {
        Some(v) => v,
        None => match registry_default(registry.entries(), target) {
            Some(v) => v,
            None => SourceView::Unset,
        },
    };
    let b = match base {
        Some(s) => s,
        None => match registry_default_source(registry, target_type) {
            Some(s) => s,
            None => InputValueSource::Unset,
        },
    };
    assert(source_is(b, spec_b));
    let r = InputValueSource::Composite { target_type: t.clone(), base: Box::new(b), components };
    assert(source_is(r, SourceView::Composite(t@, Box::new(spec_b), spec_components)));
    r
}

} // verus!
