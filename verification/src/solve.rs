//! Type solving: which value type flows through each socket of a graph.
//!
//! Each node starts from its declared signature and the bindings of its
//! type variables; connections then propagate known types along edges until
//! nothing changes, and every edge and type variable is checked against the
//! outcome.
use indexmap::IndexMap;
use vstd::prelude::*;

use crate::diagnostics::{any_error, Diagnostic, DiagnosticOrigin, DiagnosticSeverity};
use crate::graph::{AEdge, ANodeInstance, AlchemistGraph};
use crate::ids::{ANodeId, SocketId};
use crate::indexmap_specs::{
    node_entries, node_map_get_index, node_map_len, resolved_node_entries, resolved_node_map_get,
    resolved_node_map_get_index, resolved_node_map_insert, resolved_node_map_len, resolved_node_map_new,
};
use crate::node::{ANodeSignature, ExecutionKind};
use crate::ordered::{has_key, value_of};
use crate::registry::{converts, ValueTypeDescriptor, ValueTypeRegistry};
use crate::typing::{
    ResolvedSocket, accepts, merge_spec, resolve_spec, split_socket_spec, ResolvedANodeSignature, TypeBinding, TypeBindings,
    TypeConstraint, TypeVar,
};
use crate::value::{component_type_of, ValueComponent, ValueTypeId};

verus! {

/// What the node registry declares for the type of a node: how it executes
/// and its signature for the node's instance.
#[derive(Debug)]
pub struct SolveDeclaration {
    pub execution_kind: ExecutionKind,
    pub signature: ANodeSignature,
}

/// A node after type solving.
#[derive(Debug)]
pub struct ResolvedANode {
    pub authored_id: ANodeId,
    pub execution_kind: ExecutionKind,
    pub bindings: TypeBindings,
    pub signature: ResolvedANodeSignature,
}

/// The solved nodes of a graph, keyed by node identifier.
#[derive(Debug)]
pub struct ResolvedGraph {
    pub nodes: IndexMap<ANodeId, ResolvedANode>,
}

impl ResolvedGraph {
    /// The solved nodes, as entries keyed by node identifier.
    pub open spec fn node_seq(&self) -> Seq<(u64, ResolvedANode)> {
        resolved_node_entries(self.nodes)
    }
}

/// The outcome of type solving: the solved graph and the findings.
#[derive(Debug)]
pub struct TypeSolveResult {
    pub graph: ResolvedGraph,
    pub diagnostics: Vec<Diagnostic>,
}

impl TypeSolveResult {
    /// Whether some finding is an error.
    pub fn has_errors(&self) -> (r: bool)
        ensures
            r == any_error(self.diagnostics@),
    {
        crate::diagnostics::has_errors(&self.diagnostics)
    }
}

/// A node while its types are being solved: its signature, the bindings of
/// its type variables so far, and for each variable inferred from a
/// connection the priority of the input it came from.
#[derive(Debug)]
pub struct WorkingNode {
    pub id: ANodeId,
    pub execution_kind: ExecutionKind,
    pub signature: ANodeSignature,
    pub bindings: TypeBindings,
    pub priorities: Vec<(TypeVar, usize)>,
}

/// A type recorded for a socket whose constraint does not name one.
#[derive(Debug)]
pub struct SocketTypeEntry {
    pub node: ANodeId,
    pub socket: SocketId,
    pub input: bool,
    pub value_type: ValueTypeId,
}

/// The position of the working node `id`, if any.
#[verifier::opaque]
pub open spec fn node_index(w: Seq<WorkingNode>, id: u64) -> Option<int> {
    if exists|i: int| 0 <= i < w.len() && (#[trigger] w[i]).id == id {
        Some(choose|i: int| 0 <= i < w.len() && (#[trigger] w[i]).id == id && forall|j: int| 0 <= j < i ==> w[j].id != id)
    } else {
        None
    }
}

/// The position of the first input (or output) socket `id` of `sig`.
#[verifier::opaque]
pub open spec fn socket_index(sig: ANodeSignature, id: Seq<char>, input: bool) -> Option<int> {
    let n = if input {
        sig.inputs@.len()
    } else {
        sig.outputs@.len()
    };
    if exists|i: int| 0 <= i < n && #[trigger] socket_id_at(sig, i, input) == id {
        Some(
            choose|i: int|
                0 <= i < n && #[trigger] socket_id_at(sig, i, input) == id && forall|j: int|
                    0 <= j < i ==> socket_id_at(sig, j, input) != id,
        )
    } else {
        None
    }
}

/// The identifier of input (or output) `i` of `sig`.
pub open spec fn socket_id_at(sig: ANodeSignature, i: int, input: bool) -> Seq<char> {
    if input {
        sig.inputs@[i].id@
    } else {
        sig.outputs@[i].id@
    }
}

/// The constraint of input (or output) `i` of `sig`.
pub open spec fn constraint_at(sig: ANodeSignature, i: int, input: bool) -> TypeConstraint {
    if input {
        sig.inputs@[i].constraint
    } else {
        sig.outputs@[i].constraint
    }
}

/// The type recorded for a socket, the first entry for it if several.
#[verifier::opaque]
pub open spec fn recorded_type(st: Seq<SocketTypeEntry>, node: u64, socket: Seq<char>, input: bool) -> Option<Seq<char>> {
    if exists|i: int| 0 <= i < st.len() && #[trigger] entry_for(st[i], node, socket, input) {
        let i = choose|i: int|
            0 <= i < st.len() && #[trigger] entry_for(st[i], node, socket, input) && forall|j: int|
                0 <= j < i ==> !entry_for(st[j], node, socket, input);
        Some(st[i].value_type@)
    } else {
        None
    }
}

/// Whether entry `e` is for the given socket.
pub open spec fn entry_for(e: SocketTypeEntry, node: u64, socket: Seq<char>, input: bool) -> bool {
    e.node == node && e.socket@ == socket && e.input == input
}

/// One end of an edge, as solving sees it: the constraint of the socket it
/// names (none for a component of a socket, which is of the component's
/// type), and the type that end resolves to. `None` when the node, the
/// socket or the component does not exist.
#[verifier::opaque]
pub open spec fn side_spec(w: Seq<WorkingNode>, st: Seq<SocketTypeEntry>, node: u64, socket: Seq<char>, input: bool) -> Option<
    (Option<TypeConstraint>, Option<Seq<char>>),
> {
    match node_index(w, node) {
        None => None,
        Some(ni) => {
            let n = w[ni];
            let (base, component) = split_socket_spec(socket);
            match socket_index(n.signature, base, input) {
                None => None,
                Some(si) => {
                    let c = constraint_at(n.signature, si, input);
                    match component {
                        None => Some((Some(c), resolve_spec(c, n.bindings.entries(), recorded_type(st, node, socket, input)))),
                        Some(k) => match resolve_spec(c, n.bindings.entries(), None) {
                            None => None,
                            Some(t) => match component_type_of(t, k) {
                                None => None,
                                Some(ct) => Some(
                                    (
                                        None,
                                        match recorded_type(st, node, socket, input) {
                                            Some(x) => Some(x),
                                            None => Some(ct),
                                        },
                                    ),
                                ),
                            },
                        },
                    }
                },
            }
        },
    }
}

#[verifier::opaque]
/// Whether a value of type `source` may flow into an input with constraint
/// `c` (`None`: a component, of exactly the type `target`) that resolved to
/// `target`.
pub open spec fn compatible_spec(
    c: Option<TypeConstraint>,
    source: Seq<char>,
    target: Option<Seq<char>>,
    registry: Seq<(Seq<char>, ValueTypeDescriptor)>,
) -> bool {
    let by_target = match target {
        Some(t) => source == t || converts(registry, source, t),
        None => false,
    };
    match c {
        Some(TypeConstraint::Exact(_)) => by_target,
        Some(TypeConstraint::Generic(_)) => by_target,
        Some(other) => accepts(other, source, registry),
        None => by_target,
    }
}

/// What is wrong with edge `e` once types are solved: the code and the
/// socket the finding is about, if anything is wrong.
#[verifier::opaque]
pub open spec fn edge_finding(
    w: Seq<WorkingNode>,
    st: Seq<SocketTypeEntry>,
    registry: Seq<(Seq<char>, ValueTypeDescriptor)>,
    e: AEdge,
) -> Option<(Seq<char>, DiagnosticOrigin)> {
    let from = DiagnosticOrigin::Socket { node: e.from.node, socket: e.from.socket };
    let to = DiagnosticOrigin::Socket { node: e.to.node, socket: e.to.socket };
    match side_spec(w, st, e.from.node, e.from.socket@, false) {
        None => Some(("missing_output_socket"@, from)),
        Some((_, source)) => match side_spec(w, st, e.to.node, e.to.socket@, true) {
            None => Some(("missing_input_socket"@, to)),
            Some((c, target)) => match source {
                None => Some(("unresolved_output_type"@, from)),
                Some(s) => if compatible_spec(c, s, target, registry) {
                    None
                } else {
                    Some(("type_mismatch"@, to))
                },
            },
        },
    }
}

/// The findings about the first `n` edges, in order.
pub open spec fn edge_findings(
    w: Seq<WorkingNode>,
    st: Seq<SocketTypeEntry>,
    registry: Seq<(Seq<char>, ValueTypeDescriptor)>,
    edges: Seq<AEdge>,
    n: nat,
) -> Seq<(Seq<char>, DiagnosticOrigin)>
    decreases n,
{
    if n == 0 || n > edges.len() {
        Seq::empty()
    } else {
        let rest = edge_findings(w, st, registry, edges, (n - 1) as nat);
        match edge_finding(w, st, registry, edges[n - 1]) {
            Some(f) => rest.push(f),
            None => rest,
        }
    }
}

/// The code and origin of each diagnostic.
pub open spec fn findings_of(d: Seq<Diagnostic>) -> Seq<(Seq<char>, DiagnosticOrigin)> {
    d.map_values(|x: Diagnostic| (x.code@, x.origin))
}


proof fn lemma_first_node(w: Seq<WorkingNode>, id: u64, k: int)
    requires
        0 <= k < w.len(),
        w[k].id == id,
    ensures
        exists|i: int| 0 <= i <= k && (#[trigger] w[i]).id == id && forall|j: int| 0 <= j < i ==> w[j].id != id,
    decreases k,
{
    if exists|j: int| 0 <= j < k && (#[trigger] w[j]).id == id {
        let j = choose|j: int| 0 <= j < k && (#[trigger] w[j]).id == id;
        lemma_first_node(w, id, j);
    } else {
        assert(forall|j: int| 0 <= j < k ==> w[j].id != id);
    }
}

/// What [`node_index`] gives.
proof fn lemma_node_index(w: Seq<WorkingNode>, id: u64)
    ensures
        match node_index(w, id) {
            None => forall|i: int| 0 <= i < w.len() ==> (#[trigger] w[i]).id != id,
            Some(i) => 0 <= i < w.len() && w[i].id == id && forall|j: int| 0 <= j < i ==> (#[trigger] w[j]).id != id,
        },
{
    reveal(node_index);
    if exists|i: int| 0 <= i < w.len() && (#[trigger] w[i]).id == id {
        let k = choose|i: int| 0 <= i < w.len() && (#[trigger] w[i]).id == id;
        lemma_first_node(w, id, k);
    }
}

proof fn lemma_first_socket(sig: ANodeSignature, id: Seq<char>, input: bool, k: int)
    requires
        0 <= k,
        socket_id_at(sig, k, input) == id,
    ensures
        exists|i: int|
            0 <= i <= k && #[trigger] socket_id_at(sig, i, input) == id && forall|j: int|
                0 <= j < i ==> socket_id_at(sig, j, input) != id,
    decreases k,
{
    if exists|j: int| 0 <= j < k && #[trigger] socket_id_at(sig, j, input) == id {
        let j = choose|j: int| 0 <= j < k && #[trigger] socket_id_at(sig, j, input) == id;
        lemma_first_socket(sig, id, input, j);
    } else {
        assert(forall|j: int| 0 <= j < k ==> socket_id_at(sig, j, input) != id);
    }
}

/// What [`socket_index`] gives.
proof fn lemma_socket_index(sig: ANodeSignature, id: Seq<char>, input: bool)
    ensures
        match socket_index(sig, id, input) {
            None => forall|i: int|
                0 <= i < (if input {
                    sig.inputs@.len()
                } else {
                    sig.outputs@.len()
                }) ==> #[trigger] socket_id_at(sig, i, input) != id,
            Some(i) => 0 <= i < (if input {
                sig.inputs@.len()
            } else {
                sig.outputs@.len()
            }) && socket_id_at(sig, i, input) == id && forall|j: int|
                0 <= j < i ==> #[trigger] socket_id_at(sig, j, input) != id,
        },
{
    reveal(socket_index);
    let n = if input {
        sig.inputs@.len()
    } else {
        sig.outputs@.len()
    };
    if exists|i: int| 0 <= i < n && #[trigger] socket_id_at(sig, i, input) == id {
        let k = choose|i: int| 0 <= i < n && #[trigger] socket_id_at(sig, i, input) == id;
        lemma_first_socket(sig, id, input, k);
    }
}

proof fn lemma_first_entry(st: Seq<SocketTypeEntry>, node: u64, socket: Seq<char>, input: bool, k: int)
    requires
        0 <= k < st.len(),
        entry_for(st[k], node, socket, input),
    ensures
        exists|i: int|
            0 <= i <= k && #[trigger] entry_for(st[i], node, socket, input) && forall|j: int|
                0 <= j < i ==> !entry_for(st[j], node, socket, input),
    decreases k,
{
    if exists|j: int| 0 <= j < k && #[trigger] entry_for(st[j], node, socket, input) {
        let j = choose|j: int| 0 <= j < k && #[trigger] entry_for(st[j], node, socket, input);
        lemma_first_entry(st, node, socket, input, j);
    } else {
        assert(forall|j: int| 0 <= j < k ==> !entry_for(st[j], node, socket, input));
    }
}

/// What [`recorded_type`] gives.
proof fn lemma_recorded_type(st: Seq<SocketTypeEntry>, node: u64, socket: Seq<char>, input: bool)
    ensures
        recorded_type(st, node, socket, input) is None ==> forall|i: int|
            0 <= i < st.len() ==> !#[trigger] entry_for(st[i], node, socket, input),
        recorded_type(st, node, socket, input) is Some ==> exists|i: int|
            0 <= i < st.len() && #[trigger] entry_for(st[i], node, socket, input) && (forall|j: int|
                0 <= j < i ==> !entry_for(st[j], node, socket, input)) && recorded_type(st, node, socket, input) == Some(
                st[i].value_type@,
            ),
{
    reveal(recorded_type);
    if exists|i: int| 0 <= i < st.len() && #[trigger] entry_for(st[i], node, socket, input) {
        let k = choose|i: int| 0 <= i < st.len() && #[trigger] entry_for(st[i], node, socket, input);
        lemma_first_entry(st, node, socket, input, k);
    }
}

/// The position of the working node `id`, as [`node_index`] says.
fn find_node(w: &Vec<WorkingNode>, id: ANodeId) -> (r: Option<usize>)
    ensures
        match r {
            None => node_index(w@, id) is None,
            Some(i) => node_index(w@, id) == Some(i as int),
        },
{
    proof {
        lemma_node_index(w@, id);
    }
    let mut i: usize = 0;
    while i < w.len()
        invariant
            i <= w@.len(),
            forall|j: int| 0 <= j < i ==> w@[j].id != id,
        decreases w@.len() - i,
    {
        if w[i].id == id {
            proof {
                assert(w@[i as int].id == id);
                lemma_node_index(w@, id);
            }
            return Some(i);
        }
        i = i + 1;
    }
    None
}

/// The position of the first input (or output) socket `id` of `sig`.
fn find_socket(sig: &ANodeSignature, id: &str, input: bool) -> (r: Option<usize>)
    ensures
        match r {
            None => socket_index(*sig, id@, input) is None,
            Some(i) => socket_index(*sig, id@, input) == Some(i as int),
        },
{
    proof {
        lemma_socket_index(*sig, id@, input);
    }
    let n = if input {
        sig.inputs.len()
    } else {
        sig.outputs.len()
    };
    let mut i: usize = 0;
    while i < n
        invariant
            i <= n,
            n == if input {
                sig.inputs@.len()
            } else {
                sig.outputs@.len()
            },
            forall|j: int| 0 <= j < i ==> socket_id_at(*sig, j, input) != id@,
        decreases n - i,
    {
        let sid = if input {
            sig.inputs[i].id.as_str()
        } else {
            sig.outputs[i].id.as_str()
        };
        if crate::text::str_eq(sid, id) {
            proof {
                assert(socket_id_at(*sig, i as int, input) == id@);
                lemma_socket_index(*sig, id@, input);
            }
            return Some(i);
        }
        i = i + 1;
    }
    None
}

/// The position of the first entry of `st` at or after position `i` that
/// is for the given socket.
pub open spec fn entry_pos(st: Seq<SocketTypeEntry>, node: u64, socket: Seq<char>, input: bool, i: int) -> Option<int>
    decreases st.len() - i,
{
    if i < 0 || i >= st.len() {
        None
    } else if entry_for(st[i], node, socket, input) {
        Some(i)
    } else {
        entry_pos(st, node, socket, input, i + 1)
    }
}

/// Whether entries `st1` are `st0` once `value_type` was recorded for the
/// given socket: the first entry for it replaced (`added` false), or an
/// entry appended where there was none (`added` true).
pub open spec fn record_step(
    st0: Seq<SocketTypeEntry>,
    st1: Seq<SocketTypeEntry>,
    node: u64,
    socket: SocketId,
    input: bool,
    value_type: ValueTypeId,
    added: bool,
) -> bool {
    let entry = SocketTypeEntry { node, socket, input, value_type };
    match entry_pos(st0, node, socket@, input, 0) {
        Some(i) => st1 == st0.update(i, entry) && !added,
        None => st1 == st0.push(entry) && added,
    }
}

/// The type recorded for a socket, as [`recorded_type`] says.
fn recorded(st: &Vec<SocketTypeEntry>, node: ANodeId, socket: &str, input: bool) -> (r: Option<usize>)
    ensures
        match r {
            None => recorded_type(st@, node, socket@, input) is None,
            Some(i) => i < st@.len() && recorded_type(st@, node, socket@, input) == Some(st@[i as int].value_type@),
        },
        match r {
            None => entry_pos(st@, node, socket@, input, 0) is None,
            Some(i) => entry_pos(st@, node, socket@, input, 0) == Some(i as int),
        },
{
    proof {
        lemma_recorded_type(st@, node, socket@, input);
    }
    let mut i: usize = 0;
    while i < st.len()
        invariant
            i <= st@.len(),
            forall|j: int| 0 <= j < i ==> !entry_for(st@[j], node, socket@, input),
            entry_pos(st@, node, socket@, input, 0) == entry_pos(st@, node, socket@, input, i as int),
        decreases st@.len() - i,
    {
        let e = &st[i];
        if e.node == node && e.input == input && crate::text::str_eq(e.socket.as_str(), socket) {
            proof {
                assert(entry_for(st@[i as int], node, socket@, input));
                lemma_recorded_type(st@, node, socket@, input);
            }
            return Some(i);
        }
        i = i + 1;
    }
    None
}

/// One end of an edge: the node's position, the socket's position unless
/// the end is a component, and the type the end resolves to.
struct Side {
    node_index: usize,
    socket_index: Option<usize>,
    resolved: Option<ValueTypeId>,
}

/// The optional text of an optional type.
pub open spec fn opt_view(t: Option<ValueTypeId>) -> Option<Seq<char>> {
    match t {
        Some(v) => Some(v@),
        None => None,
    }
}

/// One end of an edge, as [`side_spec`] says.
#[verifier::rlimit(40)]
fn side(w: &Vec<WorkingNode>, st: &Vec<SocketTypeEntry>, node: ANodeId, socket: &SocketId, input: bool) -> (r: Option<Side>)
    ensures
        match side_spec(w@, st@, node, socket@, input) {
            None => r is None,
            Some((c, t)) => r matches Some(s) && {
                &&& node_index(w@, node) == Some(s.node_index as int)
                &&& s.node_index < w@.len()
                &&& opt_view(s.resolved) == t
                &&& match s.socket_index {
                    None => c is None,
                    Some(si) => si < (if input {
                        w@[s.node_index as int].signature.inputs@.len()
                    } else {
                        w@[s.node_index as int].signature.outputs@.len()
                    }) && c == Some(constraint_at(w@[s.node_index as int].signature, si as int, input)),
                }
            },
        },
{
    proof {
        reveal(side_spec);
        lemma_node_index(w@, node);
    }
    let ni = match find_node(w, node) {
        None => {
            return None;
        },
        Some(i) => i,
    };
    let n = &w[ni];
    proof {
        lemma_socket_index(n.signature, split_socket_spec(socket@).0, input);
        lemma_recorded_type(st@, node, socket@, input);
    }
    let (base, component) = crate::typing::split_socket_component(socket);
    let si = match find_socket(&n.signature, base.as_str(), input) {
        None => {
            return None;
        },
        Some(i) => i,
    };
    let c = if input {
        &n.signature.inputs[si].constraint
    } else {
        &n.signature.outputs[si].constraint
    };
    let rec = recorded(st, node, socket.as_str(), input);
    match component {
        None => {
            let resolved = match rec {
                Some(i) => crate::typing::resolve_constraint(c, &n.bindings, Some(&st[i].value_type)),
                None => crate::typing::resolve_constraint(c, &n.bindings, None),
            };
            Some(Side { node_index: ni, socket_index: Some(si), resolved })
        },
        Some(k) => {
            let base_type = match crate::typing::resolve_constraint(c, &n.bindings, None) {
                None => {
                    return None;
                },
                Some(t) => t,
            };
            let ct = match crate::value::component_value_type(&base_type, k) {
                None => {
                    return None;
                },
                Some(t) => t,
            };
            let resolved = match rec {
                Some(i) => Some(st[i].value_type.clone()),
                None => Some(ct),
            };
            Some(Side { node_index: ni, socket_index: None, resolved })
        },
    }
}


/// The error that a socket of an edge could not be resolved.
pub fn socket_error(node: ANodeId, socket: &SocketId, code: &str) -> (d: Diagnostic)
    ensures
        d.code@ == code@,
        d.message@ == "socket `"@ + socket@ + "` could not be resolved"@,
        d.severity == DiagnosticSeverity::Error,
        d.origin == (DiagnosticOrigin::Socket { node, socket: *socket }),
{
    Diagnostic::error(
        code,
        crate::text::concat3("socket `", socket.as_str(), "` could not be resolved"),
        DiagnosticOrigin::Socket { node, socket: socket.clone() },
    )
}

/// Whether diagnostics `after` are `before` with the finding `f`, an
/// error, appended (or `before` unchanged when there is none).
pub open spec fn reports(before: Seq<Diagnostic>, after: Seq<Diagnostic>, f: Option<(Seq<char>, DiagnosticOrigin)>) -> bool {
    match f {
        None => after == before,
        Some((code, origin)) => {
            &&& after.len() == before.len() + 1
            &&& after.drop_last() == before
            &&& after.last().code@ == code
            &&& after.last().origin == origin
            &&& after.last().severity == DiagnosticSeverity::Error
        },
    }
}

fn push_error(diagnostics: &mut Vec<Diagnostic>, d: Diagnostic)
    ensures
        final(diagnostics)@ == old(diagnostics)@.push(d),
        final(diagnostics)@.drop_last() == old(diagnostics)@,
{
    diagnostics.push(d);
    proof {
        assert(diagnostics@.drop_last() =~= old(diagnostics)@);
    }
}

/// Whether a value of type `source` may flow into the input end `inp`.
fn compatible(w: &Vec<WorkingNode>, inp: &Side, source: &ValueTypeId, registry: &ValueTypeRegistry) -> (r: bool)
    requires
        inp.node_index < w@.len(),
        inp.socket_index matches Some(si) ==> si < w@[inp.node_index as int].signature.inputs@.len(),
    ensures
        r == compatible_spec(
            match inp.socket_index {
                None => None,
                Some(si) => Some(constraint_at(w@[inp.node_index as int].signature, si as int, true)),
            },
            source@,
            opt_view(inp.resolved),
            registry.entries(),
        ),
{
    proof {
        reveal(compatible_spec);
    }
    let by_target = match &inp.resolved {
        Some(t) => crate::text::str_eq(source.as_str(), t.as_str()) || registry.can_convert_automatically(source, t),
        None => false,
    };
    match inp.socket_index {
        None => by_target,
        Some(si) => {
            let c = &w[inp.node_index].signature.inputs[si].constraint;
            match c {
                TypeConstraint::Exact(_) => by_target,
                TypeConstraint::Generic(_) => by_target,
                _ => crate::typing::constraint_accepts(c, source, registry),
            }
        },
    }
}

/// What checking an edge found.
enum EdgeCheck {
    Fits,
    MissingOutput,
    MissingInput,
    UnresolvedOutput,
    Mismatch { source: ValueTypeId, target: Option<ValueTypeId> },
}

/// The code of a check's finding, if any.
spec fn check_code(c: EdgeCheck) -> Option<Seq<char>> {
    match c {
        EdgeCheck::Fits => None,
        EdgeCheck::MissingOutput => Some("missing_output_socket"@),
        EdgeCheck::MissingInput => Some("missing_input_socket"@),
        EdgeCheck::UnresolvedOutput => Some("unresolved_output_type"@),
        EdgeCheck::Mismatch { .. } => Some("type_mismatch"@),
    }
}

/// Checks edge `e` against the solved types.
#[verifier::spinoff_prover]
fn check_edge(edge: &AEdge, w: &Vec<WorkingNode>, st: &Vec<SocketTypeEntry>, registry: &ValueTypeRegistry) -> (r: EdgeCheck)
    ensures
        match edge_finding(w@, st@, registry.entries(), *edge) {
            None => check_code(r) is None,
            Some((code, _)) => check_code(r) == Some(code),
        },
{
    proof {
        reveal(edge_finding);
    }
    let out = match side(w, st, edge.from.node, &edge.from.socket, false) {
        None => {
            return EdgeCheck::MissingOutput;
        },
        Some(s) => s,
    };
    let inp = match side(w, st, edge.to.node, &edge.to.socket, true) {
        None => {
            return EdgeCheck::MissingInput;
        },
        Some(s) => s,
    };
    let source = match out.resolved {
        None => {
            return EdgeCheck::UnresolvedOutput;
        },
        Some(t) => t,
    };
    if compatible(w, &inp, &source, registry) {
        EdgeCheck::Fits
    } else {
        EdgeCheck::Mismatch { source, target: inp.resolved }
    }
}

/// The socket that the finding of code `code` about edge `e` concerns: the
/// output end for the output findings, the input end otherwise.
pub open spec fn finding_origin(e: AEdge, code: Seq<char>) -> DiagnosticOrigin {
    if code == "missing_output_socket"@ || code == "unresolved_output_type"@ {
        DiagnosticOrigin::Socket { node: e.from.node, socket: e.from.socket }
    } else {
        DiagnosticOrigin::Socket { node: e.to.node, socket: e.to.socket }
    }
}

proof fn lemma_finding_origin(w: Seq<WorkingNode>, st: Seq<SocketTypeEntry>, registry: Seq<(Seq<char>, ValueTypeDescriptor)>, e: AEdge)
    ensures
        edge_finding(w, st, registry, e) matches Some((code, origin)) ==> origin == finding_origin(e, code),
{
    reveal(edge_finding);
    reveal_strlit("missing_output_socket");
    reveal_strlit("unresolved_output_type");
    reveal_strlit("missing_input_socket");
    reveal_strlit("type_mismatch");
    assert("type_mismatch"@.len() != "missing_output_socket"@.len());
    assert("type_mismatch"@.len() != "unresolved_output_type"@.len());
    assert("missing_input_socket"@.len() != "missing_output_socket"@.len());
    assert("missing_input_socket"@.len() != "unresolved_output_type"@.len());
}

/// Checks edge `e` against the solved types; the finding, if any, is
/// appended to `diagnostics`.
fn validate_edge(
    edge: &AEdge,
    w: &Vec<WorkingNode>,
    st: &Vec<SocketTypeEntry>,
    registry: &ValueTypeRegistry,
    diagnostics: &mut Vec<Diagnostic>,
)
    ensures
        reports(old(diagnostics)@, final(diagnostics)@, edge_finding(w@, st@, registry.entries(), *edge)),
{
    proof {
        lemma_finding_origin(w@, st@, registry.entries(), *edge);
        reveal_strlit("missing_output_socket");
        reveal_strlit("unresolved_output_type");
        reveal_strlit("missing_input_socket");
        reveal_strlit("type_mismatch");
        assert("type_mismatch"@.len() != "missing_output_socket"@.len());
        assert("type_mismatch"@.len() != "unresolved_output_type"@.len());
        assert("missing_input_socket"@.len() != "missing_output_socket"@.len());
        assert("missing_input_socket"@.len() != "unresolved_output_type"@.len());
    }
    match check_edge(edge, w, st, registry) {
        EdgeCheck::Fits => {},
        EdgeCheck::MissingOutput => {
            push_error(diagnostics, socket_error(edge.from.node, &edge.from.socket, "missing_output_socket"));
        },
        EdgeCheck::MissingInput => {
            push_error(diagnostics, socket_error(edge.to.node, &edge.to.socket, "missing_input_socket"));
        },
        EdgeCheck::UnresolvedOutput => {
            push_error(diagnostics, socket_error(edge.from.node, &edge.from.socket, "unresolved_output_type"));
        },
        EdgeCheck::Mismatch { source, target } => {
            let target_text = match &target {
                Some(t) => t.as_str(),
                None => "socket constraint",
            };
            let head = crate::text::concat3("cannot connect `", source.as_str(), "` to `");
            let message = crate::text::concat3(head.as_str(), target_text, "`");
            push_error(
                diagnostics,
                Diagnostic::error(
                    "type_mismatch",
                    message,
                    DiagnosticOrigin::Socket { node: edge.to.node, socket: edge.to.socket.clone() },
                ),
            );
        },
    }
}


/// Whether two lists of working nodes hold the same nodes with the same
/// signatures, in the same order (their bindings may differ).
pub open spec fn same_nodes(a: Seq<WorkingNode>, b: Seq<WorkingNode>) -> bool {
    &&& a.len() == b.len()
    &&& forall|i: int|
        0 <= i < a.len() ==> (#[trigger] b[i]).id == a[i].id && b[i].execution_kind == a[i].execution_kind
            && b[i].signature == a[i].signature
}

/// The position of the first record for `v` in `p` at or after position `i`.
pub open spec fn priority_pos(p: Seq<(TypeVar, usize)>, v: Seq<char>, i: int) -> Option<int>
    decreases p.len() - i,
{
    if i < 0 || i >= p.len() {
        None
    } else if p[i].0@ == v {
        Some(i)
    } else {
        priority_pos(p, v, i + 1)
    }
}

/// The priority of the first record for `v` in `p`, if any.
pub open spec fn recorded_priority(p: Seq<(TypeVar, usize)>, v: Seq<char>) -> Option<usize> {
    match priority_pos(p, v, 0) {
        Some(i) => Some(p[i].1),
        None => None,
    }
}

/// `p` with `priority` recorded for `variable`: the first record for it
/// replaced, or a record appended when there is none.
pub open spec fn priorities_set(p: Seq<(TypeVar, usize)>, variable: TypeVar, priority: usize) -> Seq<(TypeVar, usize)> {
    match priority_pos(p, variable@, 0) {
        Some(i) => p.update(i, (variable, priority)),
        None => p.push((variable, priority)),
    }
}

/// The priority recorded for `variable`, if any.
fn priority_of(priorities: &Vec<(TypeVar, usize)>, variable: &TypeVar) -> (r: Option<usize>)
    ensures
        r == recorded_priority(priorities@, variable@),
{
    let mut i: usize = 0;
    while i < priorities.len()
        invariant
            i <= priorities@.len(),
            priority_pos(priorities@, variable@, 0) == priority_pos(priorities@, variable@, i as int),
        decreases priorities@.len() - i,
    {
        if crate::text::str_eq(priorities[i].0.as_str(), variable.as_str()) {
            return Some(priorities[i].1);
        }
        i = i + 1;
    }
    None
}

/// Records `priority` for `variable`, replacing an earlier record.
fn set_priority(priorities: &mut Vec<(TypeVar, usize)>, variable: TypeVar, priority: usize)
    ensures
        final(priorities)@ == priorities_set(old(priorities)@, variable, priority),
{
    let mut i: usize = 0;
    while i < priorities.len()
        invariant
            i <= priorities@.len(),
            priorities@ == old(priorities)@,
            priority_pos(priorities@, variable@, 0) == priority_pos(priorities@, variable@, i as int),
        decreases priorities@.len() - i,
    {
        if crate::text::str_eq(priorities[i].0.as_str(), variable.as_str()) {
            priorities.set(i, (variable, priority));
            return;
        }
        i = i + 1;
    }
    priorities.push((variable, priority));
}

/// Whether a type `t` inferred for variable `v` from a connection into an
/// input of priority `pr` replaces what bindings `b` and priorities `p`
/// hold: always where `v` is unbound or bound by default; never where a
/// model or a user forced it; where it was inferred before, unless the
/// earlier input has a better priority, or the same priority and type.
pub open spec fn inferred_installs(
    b: Seq<(Seq<char>, TypeBinding)>,
    p: Seq<(TypeVar, usize)>,
    v: Seq<char>,
    t: Seq<char>,
    pr: usize,
) -> bool {
    if !has_key(b, v) {
        true
    } else {
        let e = value_of(b, v);
        let rank = crate::typing::source_rank(e.source);
        if rank > 1 {
            false
        } else if rank == 1 {
            let earlier = match recorded_priority(p, v) {
                Some(q) => q,
                None => usize::MAX,
            };
            !(pr > earlier) && !(pr == earlier && e.value_type@ == t)
        } else {
            true
        }
    }
}

/// Whether installing that inferred type counts as a change: it does
/// unless it repeats an inferred binding of the same type whose recorded
/// priority is no worse.
pub open spec fn inferred_changes(
    b: Seq<(Seq<char>, TypeBinding)>,
    p: Seq<(TypeVar, usize)>,
    v: Seq<char>,
    t: Seq<char>,
    pr: usize,
) -> bool {
    &&& inferred_installs(b, p, v, t, pr)
    &&& (!has_key(b, v) || crate::typing::source_rank(value_of(b, v).source) != 1 || value_of(b, v).value_type@ != t
        || match recorded_priority(p, v) {
        None => true,
        Some(q) => pr < q,
    })
}

/// Whether working node `after` is `before` once `variable` was bound to
/// `value_type` as inferred from a connection of priority `priority`, and
/// `changed` says whether that changed anything.
pub open spec fn inferred_as(
    before: WorkingNode,
    after: WorkingNode,
    variable: TypeVar,
    value_type: ValueTypeId,
    priority: usize,
    changed: bool,
) -> bool {
    let b = before.bindings.entries();
    let p = before.priorities@;
    &&& changed == inferred_changes(b, p, variable@, value_type@, priority)
    &&& if inferred_installs(b, p, variable@, value_type@, priority) {
        &&& after.id == before.id
        &&& after.execution_kind == before.execution_kind
        &&& after.signature == before.signature
        &&& after.bindings.entries() == crate::ordered::entries_insert(
            b,
            variable@,
            TypeBinding { value_type, source: crate::typing::TypeBindingSource::InferredFromConnection },
        )
        &&& after.priorities@ == priorities_set(p, variable, priority)
    } else {
        after == before
    }
}

/// Binds `variable` of `node` to `value_type` as inferred from a connection
/// into an input of priority `priority` (a lower number wins): a binding
/// forced by the model or the user stays; an inferred binding from an input
/// of better priority stays. Returns whether anything changed.
fn bind_inferred_connection_type(node: &mut WorkingNode, variable: TypeVar, value_type: ValueTypeId, priority: usize) -> (r: bool)
    ensures
        final(node).id == old(node).id,
        final(node).execution_kind == old(node).execution_kind,
        final(node).signature == old(node).signature,
        inferred_as(*old(node), *final(node), variable, value_type, priority, r),
{
    let (existing_type, existing_rank) = match node.bindings.get(&variable) {
        None => {
            set_priority(&mut node.priorities, variable.clone(), priority);
            node.bindings.insert(variable, value_type, crate::typing::TypeBindingSource::InferredFromConnection);
            return true;
        },
        Some(existing) => (existing.value_type.clone(), existing.source.rank()),
    };
    let inferred_rank = crate::typing::TypeBindingSource::InferredFromConnection.rank();
    let same_type = crate::text::str_eq(existing_type.as_str(), value_type.as_str());
    if existing_rank > inferred_rank {
        return false;
    }
    let recorded = priority_of(&node.priorities, &variable);
    if existing_rank == inferred_rank {
        let existing_priority = match recorded {
            Some(p) => p,
            None => usize::MAX,
        };
        if priority > existing_priority {
            return false;
        }
        if priority == existing_priority && same_type {
            return false;
        }
    } else if same_type {
        set_priority(&mut node.priorities, variable.clone(), priority);
        node.bindings.insert(variable, value_type, crate::typing::TypeBindingSource::InferredFromConnection);
        return true;
    }
    let changed = !same_type || existing_rank != inferred_rank || match recorded {
        None => true,
        Some(p) => priority < p,
    };
    set_priority(&mut node.priorities, variable.clone(), priority);
    node.bindings.insert(variable, value_type, crate::typing::TypeBindingSource::InferredFromConnection);
    changed
}

/// The position among the inputs of `sig` of the socket that `socket` (or
/// a component of it) names; `usize::MAX` when there is none.
pub open spec fn input_priority_spec(sig: ANodeSignature, socket: Seq<char>) -> usize {
    match socket_index(sig, split_socket_spec(socket).0, true) {
        Some(i) => i as usize,
        None => usize::MAX,
    }
}

/// Whether the constraint that `sig` puts on type variable `v`, if any,
/// accepts type `t`.
pub open spec fn generic_accepts(
    sig: ANodeSignature,
    v: Seq<char>,
    t: Seq<char>,
    entries: Seq<(Seq<char>, ValueTypeDescriptor)>,
) -> bool {
    let cs = crate::indexmap_specs::constraint_entries(sig.generic_constraints);
    has_key(cs, v) ==> accepts(value_of(cs, v), t, entries)
}

/// Whether working nodes `w1` are `w0` after binding `variable` of node
/// `index` to `value_type` from a connection of priority `priority`: where
/// the node's constraint on the variable accepts the type, the node is
/// bound as [`inferred_as`] says; else nothing changes. Other nodes stay.
pub open spec fn binding_step(
    w0: Seq<WorkingNode>,
    w1: Seq<WorkingNode>,
    index: int,
    variable: TypeVar,
    value_type: ValueTypeId,
    priority: usize,
    entries: Seq<(Seq<char>, ValueTypeDescriptor)>,
    changed: bool,
) -> bool {
    &&& w1 == w0.update(index, w1[index])
    &&& if generic_accepts(w0[index].signature, variable@, value_type@, entries) {
        inferred_as(w0[index], w1[index], variable, value_type, priority, changed)
    } else {
        w1 == w0 && !changed
    }
}

/// The position among a node's inputs of the socket that `socket` (or a
/// component of it) names; the worst priority when there is none.
fn input_priority(node: &WorkingNode, socket: &SocketId) -> (r: usize)
    ensures
        r == input_priority_spec(node.signature, socket@),
{
    let (base, _) = crate::typing::split_socket_component(socket);
    match find_socket(&node.signature, base.as_str(), true) {
        Some(i) => i,
        None => usize::MAX,
    }
}

/// Whether the constraint on `variable` of `node`, if any, accepts `value_type`.
fn generic_binding_accepts(node: &WorkingNode, variable: &TypeVar, value_type: &ValueTypeId, registry: &ValueTypeRegistry) -> (r: bool)
    ensures
        r == generic_accepts(node.signature, variable@, value_type@, registry.entries()),
{
    match crate::indexmap_specs::constraint_map_get(&node.signature.generic_constraints, variable) {
        None => true,
        Some(c) => crate::typing::constraint_accepts(c, value_type, registry),
    }
}

/// Binds the type variable of working node `index` to `value_type`, as
/// inferred from a connection, when its constraint accepts that type.
fn infer_binding(
    w: &mut Vec<WorkingNode>,
    index: usize,
    variable: TypeVar,
    value_type: ValueTypeId,
    socket: Option<&SocketId>,
    registry: &ValueTypeRegistry,
) -> (r: bool)
    requires
        index < old(w)@.len(),
    ensures
        same_nodes(old(w)@, final(w)@),
        binding_step(
            old(w)@,
            final(w)@,
            index as int,
            variable,
            value_type,
            match socket {
                Some(s) => input_priority_spec(old(w)@[index as int].signature, s@),
                None => usize::MAX,
            },
            registry.entries(),
            r,
        ),
{
    let mut node = w.remove(index);
    let ghost taken = node;
    let changed = if generic_binding_accepts(&node, &variable, &value_type, registry) {
        let priority = match socket {
            Some(s) => input_priority(&node, s),
            None => usize::MAX,
        };
        bind_inferred_connection_type(&mut node, variable, value_type, priority)
    } else {
        false
    };
    w.insert(index, node);
    proof {
        assert(w@ =~= old(w)@.update(index as int, w@[index as int]));
        assert(taken == old(w)@[index as int]);
        if !generic_accepts(taken.signature, variable@, value_type@, registry.entries()) {
            assert(w@ =~= old(w)@);
        }
        assert forall|i: int| 0 <= i < old(w)@.len() implies (#[trigger] w@[i]).id == old(w)@[i].id
            && w@[i].execution_kind == old(w)@[i].execution_kind && w@[i].signature == old(w)@[i].signature by {
            if i < index {
                assert(w@[i] == old(w)@[i]);
            } else if i > index {
                assert(w@[i] == old(w)@[i]);
            }
        }
    }
    changed
}

/// Records `value_type` for a socket, replacing an earlier record; returns
/// whether the socket had none.
fn record_type(st: &mut Vec<SocketTypeEntry>, node: ANodeId, socket: &SocketId, input: bool, value_type: ValueTypeId) -> (r: bool)
    ensures
        record_step(old(st)@, final(st)@, node, *socket, input, value_type, r),
{
    match recorded(st, node, socket.as_str(), input) {
        Some(i) => {
            st.set(i, SocketTypeEntry { node, socket: socket.clone(), input, value_type });
            false
        },
        None => {
            st.push(SocketTypeEntry { node, socket: socket.clone(), input, value_type });
            true
        },
    }
}

/// The type variable that constraint `c`, if any, is generic over.
pub open spec fn generic_of(c: Option<TypeConstraint>) -> Option<TypeVar> {
    match c {
        Some(TypeConstraint::Generic(v)) => Some(v),
        _ => None,
    }
}

/// The position of working node `id` (0 when there is none).
pub open spec fn index_of(w: Seq<WorkingNode>, id: u64) -> int {
    match node_index(w, id) {
        Some(i) => i,
        None => 0,
    }
}

/// The first step of inferring along an edge into node `ii`: where the
/// output end resolves to type `ot` and the input end's constraint `ic` is
/// generic, that variable is bound as [`binding_step`] says, with the
/// priority of the input `socket`; else nothing changes.
pub open spec fn forward_step(
    w0: Seq<WorkingNode>,
    w1: Seq<WorkingNode>,
    ot: Option<Seq<char>>,
    ic: Option<TypeConstraint>,
    ii: int,
    socket: Seq<char>,
    entries: Seq<(Seq<char>, ValueTypeDescriptor)>,
    changed: bool,
) -> bool {
    match (ot, generic_of(ic)) {
        (Some(t), Some(v)) => exists|vt: ValueTypeId|
            vt@ == t && #[trigger] binding_step(
                w0,
                w1,
                ii,
                v,
                vt,
                input_priority_spec(w0[ii].signature, socket),
                entries,
                changed,
            ),
        _ => w1 == w0 && !changed,
    }
}

/// The second step, back along the edge into node `oi`: where the input
/// end resolves to type `it` and the output end's constraint `oc` is
/// generic, that variable is bound as [`binding_step`] says, with the
/// worst priority; else nothing changes.
pub open spec fn backward_step(
    w0: Seq<WorkingNode>,
    w1: Seq<WorkingNode>,
    it: Option<Seq<char>>,
    oc: Option<TypeConstraint>,
    oi: int,
    entries: Seq<(Seq<char>, ValueTypeDescriptor)>,
    changed: bool,
) -> bool {
    match (it, generic_of(oc)) {
        (Some(t), Some(v)) => exists|vt: ValueTypeId|
            vt@ == t && #[trigger] binding_step(w0, w1, oi, v, vt, usize::MAX, entries, changed),
        _ => w1 == w0 && !changed,
    }
}

/// The third step: where exactly one end resolves to a type and the other
/// end's constraint is not generic, that type is recorded for the other
/// end as [`record_step`] says; else nothing changes.
pub open spec fn recording_step(
    st0: Seq<SocketTypeEntry>,
    st1: Seq<SocketTypeEntry>,
    edge: AEdge,
    oc: Option<TypeConstraint>,
    ot: Option<Seq<char>>,
    ic: Option<TypeConstraint>,
    it: Option<Seq<char>>,
    changed: bool,
) -> bool {
    match (ot, it) {
        (Some(t), None) if generic_of(ic) is None => exists|vt: ValueTypeId|
            vt@ == t && #[trigger] record_step(st0, st1, edge.to.node, edge.to.socket, true, vt, changed),
        (None, Some(t)) if generic_of(oc) is None => exists|vt: ValueTypeId|
            vt@ == t && #[trigger] record_step(st0, st1, edge.from.node, edge.from.socket, false, vt, changed),
        _ => st1 == st0 && !changed,
    }
}

/// Whether one inference along `edge` took working nodes `w0` through `wm`
/// to `w1` and entries `st0` to `st1`, its three steps reporting changes
/// `c1`, `c2` and `c3`. Both ends are read as they stood before the edge.
pub open spec fn edge_steps(
    edge: AEdge,
    entries: Seq<(Seq<char>, ValueTypeDescriptor)>,
    w0: Seq<WorkingNode>,
    st0: Seq<SocketTypeEntry>,
    wm: Seq<WorkingNode>,
    w1: Seq<WorkingNode>,
    st1: Seq<SocketTypeEntry>,
    c1: bool,
    c2: bool,
    c3: bool,
) -> bool {
    match (
        side_spec(w0, st0, edge.from.node, edge.from.socket@, false),
        side_spec(w0, st0, edge.to.node, edge.to.socket@, true),
    ) {
        (Some((oc, ot)), Some((ic, it))) => {
            &&& forward_step(w0, wm, ot, ic, index_of(w0, edge.to.node), edge.to.socket@, entries, c1)
            &&& backward_step(wm, w1, it, oc, index_of(w0, edge.from.node), entries, c2)
            &&& recording_step(st0, st1, edge, oc, ot, ic, it, c3)
        },
        _ => false,
    }
}

/// Whether inferring along `edge` took working nodes `w0` to `w1` and
/// entries `st0` to `st1`, `changed` saying whether anything changed:
/// nothing happens where an end cannot be resolved; else the three steps
/// of [`edge_steps`] run in turn.
pub open spec fn edge_inferred(
    edge: AEdge,
    entries: Seq<(Seq<char>, ValueTypeDescriptor)>,
    w0: Seq<WorkingNode>,
    st0: Seq<SocketTypeEntry>,
    w1: Seq<WorkingNode>,
    st1: Seq<SocketTypeEntry>,
    changed: bool,
) -> bool {
    if side_spec(w0, st0, edge.from.node, edge.from.socket@, false) is None || side_spec(
        w0,
        st0,
        edge.to.node,
        edge.to.socket@,
        true,
    ) is None {
        w1 == w0 && st1 == st0 && !changed
    } else {
        exists|wm: Seq<WorkingNode>, c1: bool, c2: bool, c3: bool|
            #[trigger] edge_steps(edge, entries, w0, st0, wm, w1, st1, c1, c2, c3) && changed == (c1 || c2 || c3)
    }
}

/// Whether some flag of `s` is set.
pub open spec fn any_true(s: Seq<bool>) -> bool
    decreases s.len(),
{
    if s.len() == 0 {
        false
    } else {
        any_true(s.drop_last()) || s.last()
    }
}

/// Whether `ws`/`sts` are the working nodes and entries before and after
/// each of the first `cs.len()` edges of `edges`, each edge inferring as
/// [`edge_inferred`] says and reporting its change in `cs`.
pub open spec fn round_trace(
    edges: Seq<AEdge>,
    registry: Seq<(Seq<char>, ValueTypeDescriptor)>,
    ws: Seq<Seq<WorkingNode>>,
    sts: Seq<Seq<SocketTypeEntry>>,
    cs: Seq<bool>,
) -> bool {
    &&& ws.len() == cs.len() + 1
    &&& sts.len() == cs.len() + 1
    &&& cs.len() <= edges.len()
    &&& forall|k: int|
        #![trigger cs[k]]
        0 <= k < cs.len() ==> edge_inferred(edges[k], registry, ws[k], sts[k], ws[k + 1], sts[k + 1], cs[k])
}

/// Whether one round of inference over all of `edges`, in order, took
/// working nodes `w0` and entries `st0` to `w1` and `st1`; `changed` says
/// whether some edge changed anything.
pub open spec fn round_done(
    edges: Seq<AEdge>,
    registry: Seq<(Seq<char>, ValueTypeDescriptor)>,
    w0: Seq<WorkingNode>,
    st0: Seq<SocketTypeEntry>,
    w1: Seq<WorkingNode>,
    st1: Seq<SocketTypeEntry>,
    changed: bool,
) -> bool {
    exists|ws: Seq<Seq<WorkingNode>>, sts: Seq<Seq<SocketTypeEntry>>, cs: Seq<bool>|
        #[trigger] round_trace(edges, registry, ws, sts, cs) && cs.len() == edges.len() && ws[0] == w0 && sts[0] == st0
            && ws[cs.len() as int] == w1 && sts[cs.len() as int] == st1 && changed == any_true(cs)
}

/// Whether `rw`/`rs` are the working nodes and entries before and after
/// each of `rc.len()` rounds, each round as [`round_done`] says and
/// reporting its change in `rc`.
pub open spec fn rounds_trace(
    edges: Seq<AEdge>,
    registry: Seq<(Seq<char>, ValueTypeDescriptor)>,
    rw: Seq<Seq<WorkingNode>>,
    rs: Seq<Seq<SocketTypeEntry>>,
    rc: Seq<bool>,
) -> bool {
    &&& rw.len() == rc.len() + 1
    &&& rs.len() == rc.len() + 1
    &&& forall|j: int|
        #![trigger rc[j]]
        0 <= j < rc.len() ==> round_done(edges, registry, rw[j], rs[j], rw[j + 1], rs[j + 1], rc[j])
}

/// Whether rounds of inference over all of `edges`, from working nodes `w0`
/// and entries `st0`, end in `w` and `st`: rounds run one after another
/// while each changes something and fewer than `rounds` rounds follow the
/// first, and the end is the outcome of the last round run.
pub open spec fn propagated(
    edges: Seq<AEdge>,
    registry: Seq<(Seq<char>, ValueTypeDescriptor)>,
    w0: Seq<WorkingNode>,
    st0: Seq<SocketTypeEntry>,
    rounds: int,
    w: Seq<WorkingNode>,
    st: Seq<SocketTypeEntry>,
) -> bool {
    exists|rw: Seq<Seq<WorkingNode>>, rs: Seq<Seq<SocketTypeEntry>>, rc: Seq<bool>|
        #[trigger] rounds_trace(edges, registry, rw, rs, rc) && rc.len() >= 1 && rw[0] == w0 && rs[0] == st0
            && rw[rc.len() as int] == w && rs[rc.len() as int] == st && (forall|j: int|
            #![trigger rc[j]]
            0 <= j < rc.len() - 1 ==> rc[j] && j < rounds) && (!rc[rc.len() - 1] || rc.len() - 1 >= rounds)
}

/// Whether working nodes `w` and entries `st` are where inference on
/// `graph` ends: from the starting nodes (with no priorities recorded) and
/// no entries, as [`propagated`] says, with one round more allowed than
/// there are working nodes.
#[verifier::opaque]
pub open spec fn solve_run(
    graph: AlchemistGraph,
    decls: Seq<Option<SolveDeclaration>>,
    registry: Seq<(Seq<char>, ValueTypeDescriptor)>,
    w: Seq<WorkingNode>,
    st: Seq<SocketTypeEntry>,
) -> bool {
    exists|w0: Seq<WorkingNode>|
        #[trigger] nodes_start_as(w0, start_nodes(graph.node_seq(), decls, graph.node_seq().len())) && (forall|i: int|
            0 <= i < w0.len() ==> (#[trigger] w0[i]).priorities@.len() == 0) && propagated(
            graph.edges@,
            registry,
            w0,
            Seq::empty(),
            w0.len() as int,
            w,
            st,
        )
}

/// Propagates the types known at either end of `edge` to the other end:
/// into the type variable of a generic socket, or as the recorded type of
/// a socket that names none. Returns whether anything changed.
fn infer_edge(edge: &AEdge, w: &mut Vec<WorkingNode>, st: &mut Vec<SocketTypeEntry>, registry: &ValueTypeRegistry) -> (r: bool)
    ensures
        same_nodes(old(w)@, final(w)@),
        edge_inferred(*edge, registry.entries(), old(w)@, old(st)@, final(w)@, final(st)@, r),
{
    let ghost w0 = w@;
    let ghost st0 = st@;
    let out = match side(w, st, edge.from.node, &edge.from.socket, false) {
        None => {
            return false;
        },
        Some(s) => s,
    };
    let inp = match side(w, st, edge.to.node, &edge.to.socket, true) {
        None => {
            return false;
        },
        Some(s) => s,
    };
    let ghost (oc, ot) = side_spec(w0, st0, edge.from.node, edge.from.socket@, false).unwrap();
    let ghost (ic, it) = side_spec(w0, st0, edge.to.node, edge.to.socket@, true).unwrap();
    let input_variable = match inp.socket_index {
        Some(si) => match &w[inp.node_index].signature.inputs[si].constraint {
            TypeConstraint::Generic(v) => Some(v.clone()),
            _ => None,
        },
        None => None,
    };
    let output_variable = match out.socket_index {
        Some(si) => match &w[out.node_index].signature.outputs[si].constraint {
            TypeConstraint::Generic(v) => Some(v.clone()),
            _ => None,
        },
        None => None,
    };
    assert(input_variable == generic_of(ic));
    assert(output_variable == generic_of(oc));
    let input_generic = input_variable.is_some();
    let output_generic = output_variable.is_some();
    let c1 = match (&out.resolved, input_variable) {
        (Some(value_type), Some(variable)) => {
            let vt = value_type.clone();
            let c = infer_binding(w, inp.node_index, variable, vt, Some(&edge.to.socket), registry);
            assert(binding_step(
                w0,
                w@,
                inp.node_index as int,
                generic_of(ic).unwrap(),
                vt,
                input_priority_spec(w0[inp.node_index as int].signature, edge.to.socket@),
                registry.entries(),
                c,
            ));
            c
        },
        _ => false,
    };
    let ghost wm = w@;
    assert(forward_step(w0, wm, ot, ic, index_of(w0, edge.to.node), edge.to.socket@, registry.entries(), c1));
    let c2 = match (&inp.resolved, output_variable) {
        (Some(value_type), Some(variable)) => {
            let vt = value_type.clone();
            let c = infer_binding(w, out.node_index, variable, vt, None, registry);
            assert(binding_step(wm, w@, out.node_index as int, generic_of(oc).unwrap(), vt, usize::MAX, registry.entries(), c));
            c
        },
        _ => false,
    };
    assert(backward_step(wm, w@, it, oc, index_of(w0, edge.from.node), registry.entries(), c2));
    let c3 = match (&out.resolved, &inp.resolved) {
        (Some(value_type), None) => {
            if !input_generic {
                let vt = value_type.clone();
                let c = record_type(st, edge.to.node, &edge.to.socket, true, vt);
                assert(record_step(st0, st@, edge.to.node, edge.to.socket, true, vt, c));
                c
            } else {
                false
            }
        },
        (None, Some(value_type)) => {
            if !output_generic {
                let vt = value_type.clone();
                let c = record_type(st, edge.from.node, &edge.from.socket, false, vt);
                assert(record_step(st0, st@, edge.from.node, edge.from.socket, false, vt, c));
                c
            } else {
                false
            }
        },
        _ => false,
    };
    assert(recording_step(st0, st@, *edge, oc, ot, ic, it, c3));
    assert(edge_steps(*edge, registry.entries(), w0, st0, wm, w@, st@, c1, c2, c3));
    c1 || c2 || c3
}


/// The bindings a declared node starts from: the default bindings of its
/// signature, merged with the instance's bindings and then with its forced
/// bindings; and whether each of the two merges met a conflict.
pub open spec fn start_bindings(d: SolveDeclaration, instance: ANodeInstance) -> (Seq<(Seq<char>, TypeBinding)>, bool, bool) {
    let first = merge_spec(
        d.signature.default_bindings.entries(),
        instance.type_bindings.entries(),
        instance.type_bindings.entries().len(),
    );
    let second = merge_spec(first.0, instance.forced_type_bindings.entries(), instance.forced_type_bindings.entries().len());
    (second.0, first.1 is None, second.1 is None)
}

/// The findings about node `id` before any type is propagated: that its
/// type is not declared, or a conflict in each merge of its bindings.
pub open spec fn node_findings(id: u64, d: Option<SolveDeclaration>, instance: ANodeInstance) -> Seq<(Seq<char>, DiagnosticOrigin)> {
    match d {
        None => seq![("missing_node_declaration"@, DiagnosticOrigin::Node(id))],
        Some(decl) => {
            let (_, c1, c2) = start_bindings(decl, instance);
            let conflict = seq![("conflicting_type_binding"@, DiagnosticOrigin::Node(id))];
            (if c1 {
                conflict
            } else {
                seq![]
            }) + (if c2 {
                conflict
            } else {
                seq![]
            })
        },
    }
}

/// The findings about the first `n` nodes before any type is propagated.
pub open spec fn start_findings(nodes: Seq<(u64, ANodeInstance)>, decls: Seq<Option<SolveDeclaration>>, n: nat) -> Seq<
    (Seq<char>, DiagnosticOrigin),
>
    decreases n,
{
    if n == 0 || n > nodes.len() || n > decls.len() {
        Seq::empty()
    } else {
        start_findings(nodes, decls, (n - 1) as nat) + node_findings(nodes[n - 1].0, decls[n - 1], nodes[n - 1].1)
    }
}

/// The working nodes of the first `n` nodes: those whose type is declared,
/// in order, each with its declaration's signature and starting bindings.
pub open spec fn start_nodes(nodes: Seq<(u64, ANodeInstance)>, decls: Seq<Option<SolveDeclaration>>, n: nat) -> Seq<
    (u64, ExecutionKind, ANodeSignature, Seq<(Seq<char>, TypeBinding)>),
>
    decreases n,
{
    if n == 0 || n > nodes.len() || n > decls.len() {
        Seq::empty()
    } else {
        let rest = start_nodes(nodes, decls, (n - 1) as nat);
        match decls[n - 1] {
            None => rest,
            Some(d) => rest.push((nodes[n - 1].0, d.execution_kind, d.signature, start_bindings(d, nodes[n - 1].1).0)),
        }
    }
}

/// Whether working nodes `w` are the starting nodes `s`.
pub open spec fn nodes_start_as(w: Seq<WorkingNode>, s: Seq<(u64, ExecutionKind, ANodeSignature, Seq<(Seq<char>, TypeBinding)>)>) -> bool {
    &&& w.len() == s.len()
    &&& forall|i: int|
        0 <= i < s.len() ==> (#[trigger] w[i]).id == s[i].0 && w[i].execution_kind == s[i].1 && w[i].signature
            == s[i].2 && w[i].bindings.entries() == s[i].3
}

/// Whether working nodes `w` hold the nodes of `s` with possibly other
/// bindings.
pub open spec fn nodes_shaped_as(w: Seq<WorkingNode>, s: Seq<(u64, ExecutionKind, ANodeSignature, Seq<(Seq<char>, TypeBinding)>)>) -> bool {
    &&& w.len() == s.len()
    &&& forall|i: int|
        0 <= i < s.len() ==> (#[trigger] w[i]).id == s[i].0 && w[i].execution_kind == s[i].1 && w[i].signature
            == s[i].2
}

fn merge_bindings(target: &mut TypeBindings, source: &TypeBindings, node: ANodeId, diagnostics: &mut Vec<Diagnostic>)
    ensures
        ({
            let m = merge_spec(old(target).entries(), source.entries(), source.entries().len());
            &&& final(target).entries() == m.0
            &&& findings_of(final(diagnostics)@) == findings_of(old(diagnostics)@) + if m.1 is None {
                seq![("conflicting_type_binding"@, DiagnosticOrigin::Node(node))]
            } else {
                seq![]
            }
            &&& final(diagnostics)@.len() >= old(diagnostics)@.len()
            &&& final(diagnostics)@.take(old(diagnostics)@.len() as int) == old(diagnostics)@
            &&& forall|i: int|
                old(diagnostics)@.len() <= i < final(diagnostics)@.len() ==> (#[trigger] final(diagnostics)@[i]).severity
                    == DiagnosticSeverity::Error
        }),
{
    let ghost before = diagnostics@;
    match target.merge_from(source) {
        Ok(_) => {
            proof {
                assert(diagnostics@.take(before.len() as int) =~= before);
                assert(findings_of(diagnostics@) =~= findings_of(before) + seq![]);
            }
        },
        Err(conflict) => {
            let head = crate::text::concat3("type variable `", conflict.variable.as_str(), "` is bound to both `");
            let middle = crate::text::concat3(head.as_str(), conflict.existing.value_type.as_str(), "` and `");
            let message = crate::text::concat3(middle.as_str(), conflict.incoming.value_type.as_str(), "`");
            diagnostics.push(Diagnostic::error("conflicting_type_binding", message, DiagnosticOrigin::Node(node)));
            proof {
                assert(diagnostics@.take(before.len() as int) =~= before);
                assert(findings_of(diagnostics@) =~= findings_of(before) + seq![
                    ("conflicting_type_binding"@, DiagnosticOrigin::Node(node)),
                ]);
            }
        },
    }
}

/// The working nodes of `graph`: those whose type is declared, each with
/// its starting bindings; the findings about the others and about binding
/// conflicts are appended to `diagnostics`.
fn build_working(graph: &AlchemistGraph, declarations: Vec<Option<SolveDeclaration>>, diagnostics: &mut Vec<Diagnostic>) -> (w:
    Vec<WorkingNode>)
    requires
        declarations@.len() == graph.node_seq().len(),
    ensures
        nodes_start_as(w@, start_nodes(graph.node_seq(), declarations@, graph.node_seq().len())),
        forall|i: int| 0 <= i < w@.len() ==> (#[trigger] w@[i]).priorities@.len() == 0,
        findings_of(final(diagnostics)@) == findings_of(old(diagnostics)@) + start_findings(
            graph.node_seq(),
            declarations@,
            graph.node_seq().len(),
        ),
        final(diagnostics)@.len() >= old(diagnostics)@.len(),
        final(diagnostics)@.take(old(diagnostics)@.len() as int) == old(diagnostics)@,
        forall|i: int|
            old(diagnostics)@.len() <= i < final(diagnostics)@.len() ==> (#[trigger] final(diagnostics)@[i]).severity
                == DiagnosticSeverity::Error,
{
    let ghost all = declarations@;
    let ghost start = diagnostics@;
    let ghost nodes = graph.node_seq();
    let n = node_map_len(&graph.nodes);
    let mut remaining = declarations;
    let mut w: Vec<WorkingNode> = Vec::new();
    let mut i: usize = 0;
    proof {
        assert(remaining@ =~= all.subrange(0, all.len() as int));
        assert(diagnostics@.take(start.len() as int) =~= start);
        assert(findings_of(diagnostics@) =~= findings_of(start) + start_findings(nodes, all, 0));
    }
    while i < n
        invariant
            i <= n,
            n == nodes.len(),
            nodes == graph.node_seq(),
            all.len() == n,
            remaining@ == all.subrange(i as int, n as int),
            nodes_start_as(w@, start_nodes(nodes, all, i as nat)),
            forall|j: int| 0 <= j < w@.len() ==> (#[trigger] w@[j]).priorities@.len() == 0,
            findings_of(diagnostics@) == findings_of(start) + start_findings(nodes, all, i as nat),
            diagnostics@.len() >= start.len(),
            diagnostics@.take(start.len() as int) == start,
            forall|k: int| start.len() <= k < diagnostics@.len() ==> (#[trigger] diagnostics@[k]).severity == DiagnosticSeverity::Error,
        decreases n - i,
    {
        let d = remaining.remove(0);
        proof {
            assert(d == all[i as int]);
        }
        let (id, instance) = node_map_get_index(&graph.nodes, i).unwrap();
        let ghost before = diagnostics@;
        match d {
            None => {
                let message = crate::text::concat3(
                    "ANode declaration `",
                    instance.type_id.as_str(),
                    "` is not registered",
                );
                diagnostics.push(Diagnostic::error("missing_node_declaration", message, DiagnosticOrigin::Node(*id)));
                proof {
                    assert(findings_of(diagnostics@) =~= findings_of(before) + seq![
                        ("missing_node_declaration"@, DiagnosticOrigin::Node(*id)),
                    ]);
                    assert(diagnostics@.take(start.len() as int) =~= start);
                }
            },
            Some(decl) => {
                let mut bindings = decl.signature.default_bindings.duplicate();
                merge_bindings(&mut bindings, &instance.type_bindings, *id, diagnostics);
                let ghost middle = diagnostics@;
                merge_bindings(&mut bindings, &instance.forced_type_bindings, *id, diagnostics);
                proof {
                    assert(diagnostics@.take(start.len() as int) =~= start) by {
                        assert(middle.take(start.len() as int) =~= start);
                        assert(diagnostics@.take(middle.len() as int) == middle);
                        assert(diagnostics@.take(start.len() as int) =~= middle.take(start.len() as int));
                    }
                    assert forall|k: int| start.len() <= k < diagnostics@.len() implies (#[trigger] diagnostics@[k]).severity
                        == DiagnosticSeverity::Error by {
                        if k < middle.len() {
                            assert(diagnostics@[k] == diagnostics@.take(middle.len() as int)[k]);
                            if k < before.len() {
                                assert(middle[k] == middle.take(before.len() as int)[k]);
                            }
                        }
                    }
                    let f = node_findings(*id, Some(decl), *instance);
                    assert(findings_of(diagnostics@) =~= findings_of(before) + f);
                }
                w.push(
                    WorkingNode {
                        id: *id,
                        execution_kind: decl.execution_kind,
                        signature: decl.signature,
                        bindings,
                        priorities: Vec::new(),
                    },
                );
            },
        }
        proof {
            assert(remaining@ =~= all.subrange(i as int + 1, n as int));
            assert(findings_of(diagnostics@) =~= findings_of(start) + start_findings(nodes, all, i as nat + 1));
        }
        i = i + 1;
    }
    w
}

/// The findings about the first `k` type variables of node `n`: a variable
/// with no binding is unresolved; a binding its constraint refuses fails.
pub open spec fn variable_findings(n: WorkingNode, registry: Seq<(Seq<char>, ValueTypeDescriptor)>, k: nat) -> Seq<
    (Seq<char>, DiagnosticOrigin),
>
    decreases k,
{
    let cs = n.signature.constraints();
    if k == 0 || k > cs.len() {
        Seq::empty()
    } else {
        let rest = variable_findings(n, registry, (k - 1) as nat);
        let (v, c) = cs[k - 1];
        if !has_key(n.bindings.entries(), v) {
            rest.push(("unresolved_type_variable"@, DiagnosticOrigin::Node(n.id)))
        } else if !accepts(c, value_of(n.bindings.entries(), v).value_type@, registry) {
            rest.push(("type_constraint_failed"@, DiagnosticOrigin::Node(n.id)))
        } else {
            rest
        }
    }
}

/// The findings about the type variables of the first `k` working nodes.
pub open spec fn generic_findings(w: Seq<WorkingNode>, registry: Seq<(Seq<char>, ValueTypeDescriptor)>, k: nat) -> Seq<
    (Seq<char>, DiagnosticOrigin),
>
    decreases k,
{
    if k == 0 || k > w.len() {
        Seq::empty()
    } else {
        generic_findings(w, registry, (k - 1) as nat) + variable_findings(
            w[k - 1],
            registry,
            w[k - 1].signature.constraints().len(),
        )
    }
}

/// Whether `after` is `before` with errors appended whose codes and origins
/// are `f`.
pub open spec fn appends(before: Seq<Diagnostic>, after: Seq<Diagnostic>, f: Seq<(Seq<char>, DiagnosticOrigin)>) -> bool {
    &&& after.len() == before.len() + f.len()
    &&& after.take(before.len() as int) == before
    &&& findings_of(after.skip(before.len() as int)) == f
    &&& forall|i: int| before.len() <= i < after.len() ==> (#[trigger] after[i]).severity == DiagnosticSeverity::Error
}

proof fn lemma_appends_push(before: Seq<Diagnostic>, mid: Seq<Diagnostic>, f: Seq<(Seq<char>, DiagnosticOrigin)>, d: Diagnostic)
    requires
        appends(before, mid, f),
        d.severity == DiagnosticSeverity::Error,
    ensures
        appends(before, mid.push(d), f.push((d.code@, d.origin))),
{
    let after = mid.push(d);
    assert(after.take(before.len() as int) =~= before) by {
        assert(after.take(before.len() as int) =~= mid.take(before.len() as int));
    }
    assert(after.skip(before.len() as int) =~= mid.skip(before.len() as int).push(d));
    assert(findings_of(after.skip(before.len() as int)) =~= f.push((d.code@, d.origin)));
}

proof fn lemma_appends_trans(
    a: Seq<Diagnostic>,
    b: Seq<Diagnostic>,
    c: Seq<Diagnostic>,
    f: Seq<(Seq<char>, DiagnosticOrigin)>,
    g: Seq<(Seq<char>, DiagnosticOrigin)>,
)
    requires
        appends(a, b, f),
        appends(b, c, g),
    ensures
        appends(a, c, f + g),
{
    assert(c.take(a.len() as int) =~= b.take(a.len() as int)) by {
        assert(c.take(b.len() as int) == b);
        assert forall|i: int| 0 <= i < a.len() implies c.take(a.len() as int)[i] == b.take(a.len() as int)[i] by {
            assert(c[i] == c.take(b.len() as int)[i]);
        }
    }
    assert(c.skip(a.len() as int) =~= b.skip(a.len() as int) + c.skip(b.len() as int)) by {
        assert forall|i: int| 0 <= i < c.len() - a.len() implies c.skip(a.len() as int)[i] == (b.skip(a.len() as int)
            + c.skip(b.len() as int))[i] by {
            if i < b.len() - a.len() {
                assert(c[a.len() + i] == c.take(b.len() as int)[a.len() + i]);
            }
        }
    }
    assert(findings_of(c.skip(a.len() as int)) =~= f + g);
    assert forall|i: int| a.len() <= i < c.len() implies (#[trigger] c[i]).severity == DiagnosticSeverity::Error by {
        if i < b.len() {
            assert(c[i] == c.take(b.len() as int)[i]);
        }
    }
}

/// Checks the type variables of `node` against their constraints; the
/// findings are appended to `diagnostics`.
fn validate_generic_bindings(node: &WorkingNode, registry: &ValueTypeRegistry, diagnostics: &mut Vec<Diagnostic>)
    ensures
        appends(
            old(diagnostics)@,
            final(diagnostics)@,
            variable_findings(*node, registry.entries(), node.signature.constraints().len()),
        ),
{
    let ghost start = diagnostics@;
    let n = crate::indexmap_specs::constraint_map_len(&node.signature.generic_constraints);
    proof {
        assert(diagnostics@.take(start.len() as int) =~= start);
        assert(diagnostics@.skip(start.len() as int) =~= seq![]);
        assert(findings_of(diagnostics@.skip(start.len() as int)) =~= seq![]);
    }
    let mut k: usize = 0;
    while k < n
        invariant
            k <= n,
            n == node.signature.constraints().len(),
            appends(start, diagnostics@, variable_findings(*node, registry.entries(), k as nat)),
        decreases n - k,
    {
        let (variable, constraint) = crate::indexmap_specs::constraint_map_get_index(
            &node.signature.generic_constraints,
            k,
        ).unwrap();
        let ghost mid = diagnostics@;
        match node.bindings.get(variable) {
            None => {
                let d = Diagnostic::error(
                    "unresolved_type_variable",
                    crate::text::concat3("type variable `", variable.as_str(), "` could not be resolved"),
                    DiagnosticOrigin::Node(node.id),
                );
                diagnostics.push(d);
                proof {
                    lemma_appends_push(start, mid, variable_findings(*node, registry.entries(), k as nat), d);
                }
            },
            Some(binding) => {
                if !crate::typing::constraint_accepts(constraint, &binding.value_type, registry) {
                    let head = crate::text::concat3("type `", binding.value_type.as_str(), "` does not satisfy constraint for `");
                    let d = Diagnostic::error(
                        "type_constraint_failed",
                        crate::text::concat3(head.as_str(), variable.as_str(), "`"),
                        DiagnosticOrigin::Node(node.id),
                    );
                    diagnostics.push(d);
                    proof {
                        lemma_appends_push(start, mid, variable_findings(*node, registry.entries(), k as nat), d);
                    }
                }
            },
        }
        k = k + 1;
    }
}

/// The identifier and resolved type of each resolved socket, by key.
pub open spec fn socket_view(e: Seq<(Seq<char>, ResolvedSocket)>) -> Seq<(Seq<char>, (Seq<char>, Option<Seq<char>>))> {
    e.map_values(|x: (Seq<char>, ResolvedSocket)| (x.0, (x.1.id@, opt_view(x.1.value_type))))
}

/// The resolved inputs (or outputs) of working node `n` from its first `k`
/// sockets, keyed by socket identifier: each resolves through the node's
/// bindings, or to the type recorded for it.
pub open spec fn resolved_sockets(n: WorkingNode, st: Seq<SocketTypeEntry>, input: bool, k: nat) -> Seq<
    (Seq<char>, (Seq<char>, Option<Seq<char>>)),
>
    decreases k,
{
    let count = if input {
        n.signature.inputs@.len()
    } else {
        n.signature.outputs@.len()
    };
    if k == 0 || k > count {
        Seq::empty()
    } else {
        let id = socket_id_at(n.signature, k - 1, input);
        let c = constraint_at(n.signature, k - 1, input);
        crate::ordered::entries_insert(
            resolved_sockets(n, st, input, (k - 1) as nat),
            id,
            (id, resolve_spec(c, n.bindings.entries(), recorded_type(st, n.id, id, input))),
        )
    }
}

proof fn lemma_socket_view_insert(s: Seq<(Seq<char>, ResolvedSocket)>, k: Seq<char>, v: ResolvedSocket)
    requires
        crate::ordered::keys_distinct(s),
    ensures
        socket_view(crate::ordered::entries_insert(s, k, v)) =~= crate::ordered::entries_insert(
            socket_view(s),
            k,
            (v.id@, opt_view(v.value_type)),
        ),
{
    let m = socket_view(s);
    if has_key(s, k) {
        let p = crate::ordered::key_pos(s, k);
        assert(m[p].0 == k);
        assert(has_key(m, k));
        let q = crate::ordered::key_pos(m, k);
        assert(s[q].0 == m[q].0);
        crate::ordered::lemma_key_pos(s, q);
    } else {
        if has_key(m, k) {
            let q = crate::ordered::key_pos(m, k);
            assert(s[q].0 == k);
        }
    }
}

/// The resolved inputs (or outputs) of working node `n`.
fn resolve_sockets(n: &WorkingNode, st: &Vec<SocketTypeEntry>, input: bool) -> (r: IndexMap<SocketId, ResolvedSocket>)
    ensures
        socket_view(crate::indexmap_specs::resolved_socket_entries(r)) == resolved_sockets(
            *n,
            st@,
            input,
            if input {
                n.signature.inputs@.len()
            } else {
                n.signature.outputs@.len()
            },
        ),
{
    let count = if input {
        n.signature.inputs.len()
    } else {
        n.signature.outputs.len()
    };
    let mut map = crate::indexmap_specs::resolved_socket_map_new();
    let mut k: usize = 0;
    proof {
        assert(socket_view(crate::indexmap_specs::resolved_socket_entries(map)) =~= Seq::empty());
    }
    while k < count
        invariant
            k <= count,
            count == if input {
                n.signature.inputs@.len()
            } else {
                n.signature.outputs@.len()
            },
            crate::ordered::keys_distinct(crate::indexmap_specs::resolved_socket_entries(map)),
            socket_view(crate::indexmap_specs::resolved_socket_entries(map)) == resolved_sockets(*n, st@, input, k as nat),
        decreases count - k,
    {
        let (id, c) = if input {
            (&n.signature.inputs[k].id, &n.signature.inputs[k].constraint)
        } else {
            (&n.signature.outputs[k].id, &n.signature.outputs[k].constraint)
        };
        let value_type = match recorded(st, n.id, id.as_str(), input) {
            Some(i) => crate::typing::resolve_constraint(c, &n.bindings, Some(&st[i].value_type)),
            None => crate::typing::resolve_constraint(c, &n.bindings, None),
        };
        let socket = ResolvedSocket { id: id.clone(), value_type };
        let ghost before = crate::indexmap_specs::resolved_socket_entries(map);
        crate::indexmap_specs::resolved_socket_map_insert(&mut map, id.clone(), socket);
        proof {
            lemma_socket_view_insert(before, id@, socket);
            crate::ordered::lemma_insert(before, id@, socket, id@);
        }
        k = k + 1;
    }
    map
}

/// Whether resolved node `rn` is working node `wn` after solving with the
/// recorded socket types `st`.
pub open spec fn resolved_as(rn: ResolvedANode, wn: WorkingNode, st: Seq<SocketTypeEntry>) -> bool {
    &&& rn.authored_id == wn.id
    &&& rn.execution_kind == wn.execution_kind
    &&& rn.bindings.entries() == wn.bindings.entries()
    &&& socket_view(rn.signature.input_entries()) == resolved_sockets(wn, st, true, wn.signature.inputs@.len())
    &&& socket_view(rn.signature.output_entries()) == resolved_sockets(wn, st, false, wn.signature.outputs@.len())
}

/// Working node `n` after solving.
fn resolve_node(n: &WorkingNode, st: &Vec<SocketTypeEntry>) -> (r: ResolvedANode)
    ensures
        resolved_as(r, *n, st@),
{
    ResolvedANode {
        authored_id: n.id,
        execution_kind: n.execution_kind,
        bindings: n.bindings.duplicate(),
        signature: ResolvedANodeSignature { inputs: resolve_sockets(n, st, true), outputs: resolve_sockets(n, st, false) },
    }
}

/// The starting nodes come from distinct nodes of the graph.
proof fn lemma_start_nodes_ids(nodes: Seq<(u64, ANodeInstance)>, decls: Seq<Option<SolveDeclaration>>, n: nat)
    requires
        crate::ordered::keys_distinct(nodes),
        n <= nodes.len(),
        n <= decls.len(),
    ensures
        forall|i: int|
            0 <= i < start_nodes(nodes, decls, n).len() ==> exists|p: int|
                0 <= p < n && #[trigger] start_nodes(nodes, decls, n)[i].0 == nodes[p].0,
        forall|i: int, j: int|
            0 <= i < j < start_nodes(nodes, decls, n).len() ==> #[trigger] start_nodes(nodes, decls, n)[i].0
                != #[trigger] start_nodes(nodes, decls, n)[j].0,
    decreases n,
{
    if n > 0 {
        lemma_start_nodes_ids(nodes, decls, (n - 1) as nat);
        let rest = start_nodes(nodes, decls, (n - 1) as nat);
        let all = start_nodes(nodes, decls, n);
        assert forall|i: int| 0 <= i < all.len() implies exists|p: int| 0 <= p < n && #[trigger] all[i].0 == nodes[p].0 by {
            if i < rest.len() {
                assert(all[i] == rest[i]);
                let p = choose|p: int| 0 <= p < n - 1 && #[trigger] rest[i].0 == nodes[p].0;
                assert(all[i].0 == nodes[p].0);
            } else {
                assert(all[i].0 == nodes[n - 1].0);
            }
        }
        assert forall|i: int, j: int| 0 <= i < j < all.len() implies #[trigger] all[i].0 != #[trigger] all[j].0 by {
            if j < rest.len() {
                assert(all[i] == rest[i] && all[j] == rest[j]);
            } else {
                assert(all[i] == rest[i]);
                let p = choose|p: int| 0 <= p < n - 1 && #[trigger] rest[i].0 == nodes[p].0;
                assert(all[j].0 == nodes[n - 1].0);
                assert(nodes[p].0 != nodes[n - 1].0);
            }
        }
    }
}

/// Whether `r` is the outcome of solving `graph` with declarations `decls`
/// (one for each node, in order) in `registry`, where solving ended with
/// working nodes `w` and recorded socket types `st`: one solved node for
/// each declared node, in order; and the findings, all errors, are those
/// about undeclared nodes and binding conflicts, then those about type
/// variables, then those about edges.
pub open spec fn solved_as(
    r: TypeSolveResult,
    graph: AlchemistGraph,
    decls: Seq<Option<SolveDeclaration>>,
    registry: Seq<(Seq<char>, ValueTypeDescriptor)>,
    w: Seq<WorkingNode>,
    st: Seq<SocketTypeEntry>,
) -> bool {
    let nodes = graph.node_seq();
    &&& solve_run(graph, decls, registry, w, st)
    &&& nodes_shaped_as(w, start_nodes(nodes, decls, nodes.len()))
    &&& r.graph.node_seq().len() == w.len()
    &&& forall|i: int|
        0 <= i < w.len() ==> (#[trigger] r.graph.node_seq()[i]).0 == w[i].id && resolved_as(
            r.graph.node_seq()[i].1,
            w[i],
            st,
        )
    &&& findings_of(r.diagnostics@) == start_findings(nodes, decls, nodes.len()) + generic_findings(
        w,
        registry,
        w.len(),
    ) + edge_findings(w, st, registry, graph.edges@, graph.edges@.len())
    &&& forall|i: int| 0 <= i < r.diagnostics@.len() ==> (#[trigger] r.diagnostics@[i]).severity == DiagnosticSeverity::Error
}

/// Without findings about edges, no edge has a finding.
proof fn lemma_no_edge_findings(
    w: Seq<WorkingNode>,
    st: Seq<SocketTypeEntry>,
    registry: Seq<(Seq<char>, ValueTypeDescriptor)>,
    edges: Seq<AEdge>,
    n: nat,
)
    requires
        n <= edges.len(),
        edge_findings(w, st, registry, edges, n).len() == 0,
    ensures
        forall|k: int| 0 <= k < n ==> edge_finding(w, st, registry, #[trigger] edges[k]) is None,
    decreases n,
{
    if n > 0 {
        lemma_no_edge_findings(w, st, registry, edges, (n - 1) as nat);
    }
}

/// A type solve without findings resolved both ends of every edge, so
/// every edge joins two nodes of the graph.
pub proof fn lemma_clean_solve_joins_edges(
    s: TypeSolveResult,
    graph: AlchemistGraph,
    decls: Seq<Option<SolveDeclaration>>,
    registry: Seq<(Seq<char>, ValueTypeDescriptor)>,
    w: Seq<WorkingNode>,
    st: Seq<SocketTypeEntry>,
)
    requires
        solved_as(s, graph, decls, registry, w, st),
        crate::ordered::keys_distinct(graph.node_seq()),
        decls.len() == graph.node_seq().len(),
        s.diagnostics@.len() == 0,
    ensures
        forall|i: int| 0 <= i < graph.edges@.len() ==> crate::graph::edge_in(graph.node_seq(), #[trigger] graph.edges@[i]),
{
    let nodes = graph.node_seq();
    let edges = graph.edges@;
    let start = start_nodes(nodes, decls, nodes.len());
    let f = findings_of(s.diagnostics@);
    assert(f.len() == 0);
    lemma_no_edge_findings(w, st, registry, edges, edges.len());
    lemma_start_nodes_ids(nodes, decls, nodes.len());
    assert forall|i: int| 0 <= i < edges.len() implies crate::graph::edge_in(nodes, #[trigger] edges[i]) by {
        let e = edges[i];
        assert(edge_finding(w, st, registry, e) is None);
        reveal(edge_finding);
        if side_spec(w, st, e.from.node, e.from.socket@, false) is None {
            assert(edge_finding(w, st, registry, e) is Some);
        }
        if side_spec(w, st, e.to.node, e.to.socket@, true) is None {
            assert(edge_finding(w, st, registry, e) is Some);
        }
        reveal(side_spec);
        assert forall|id: u64| (#[trigger] node_index(w, id)) is Some implies has_key(nodes, id) by {
            lemma_node_index(w, id);
            let q = node_index(w, id)->0;
            assert(w[q].id == start[q].0);
            let p = choose|p: int| 0 <= p < nodes.len() && start[q].0 == nodes[p].0;
            assert(nodes[p].0 == id);
        }
        assert(node_index(w, e.from.node) is Some);
        assert(node_index(w, e.to.node) is Some);
    }
}

/// Solves the types of `graph`. `declarations` holds, for each node of the
/// graph in order, what the node registry declares for its type (`None`
/// when it is not registered).
///
/// Each declared node starts from its signature's default bindings, merged
/// with its instance's bindings and then its forced bindings. Then, up to
/// one round more than there are such nodes, and until a round changes
/// nothing, each edge in order propagates the types known at one end: into
/// the type variable of a generic socket at the other end (a binding forced
/// by the model or the user is kept; among inferred bindings the input
/// declared first wins), or as the recorded type of a socket that names no
/// type. Finally every type variable and every edge is checked.
pub fn solve_types(
    graph: &AlchemistGraph,
    declarations: Vec<Option<SolveDeclaration>>,
    value_types: &ValueTypeRegistry,
) -> (r: TypeSolveResult)
    requires
        crate::ordered::keys_distinct(graph.node_seq()),
        declarations@.len() == graph.node_seq().len(),
    ensures
        exists|w: Seq<WorkingNode>, st: Seq<SocketTypeEntry>|
            solved_as(r, *graph, declarations@, value_types.entries(), w, st),
{
    let ghost decls = declarations@;
    let ghost nodes = graph.node_seq();
    let ghost registry = value_types.entries();
    let ghost start = start_nodes(nodes, decls, nodes.len());
    let mut diagnostics: Vec<Diagnostic> = Vec::new();
    let mut w = build_working(graph, declarations, &mut diagnostics);
    proof {
        assert(diagnostics@.take(0) =~= Seq::<Diagnostic>::empty());
        assert(findings_of(Seq::<Diagnostic>::empty()) =~= Seq::empty());
        assert(diagnostics@.skip(0) =~= diagnostics@);
        lemma_start_nodes_ids(nodes, decls, nodes.len());
    }
    let ghost after_start = diagnostics@;
    let mut st: Vec<SocketTypeEntry> = Vec::new();
    let ghost w0 = w@;
    let ghost st0 = st@;
    let ghost edges = graph.edges@;
    let ghost n0 = w@.len() as int;
    let mut rounds_left = w.len();
    let mut settled = false;
    let ghost mut rw: Seq<Seq<WorkingNode>> = seq![w@];
    let ghost mut rs: Seq<Seq<SocketTypeEntry>> = seq![st@];
    let ghost mut rc: Seq<bool> = seq![];
    while !settled
        invariant
            nodes_shaped_as(w@, start),
            edges == graph.edges@,
            registry == value_types.entries(),
            rounds_trace(edges, registry, rw, rs, rc),
            rw[0] == w0,
            rs[0] == st0,
            rw[rc.len() as int] == w@,
            rs[rc.len() as int] == st@,
            forall|j: int| #![trigger rc[j]] 0 <= j < rc.len() - 1 ==> rc[j] && j < n0,
            !settled ==> (forall|j: int| #![trigger rc[j]] 0 <= j < rc.len() ==> rc[j] && j < n0) && rounds_left
                + rc.len() == n0,
            settled ==> rc.len() >= 1 && (!rc[rc.len() - 1] || rc.len() - 1 >= n0),
        decreases rounds_left + if settled {
            0int
        } else {
            1int
        },
    {
        let ghost wr = w@;
        let ghost sr = st@;
        let ghost mut ws: Seq<Seq<WorkingNode>> = seq![w@];
        let ghost mut sts: Seq<Seq<SocketTypeEntry>> = seq![st@];
        let ghost mut cs: Seq<bool> = seq![];
        let mut changed = false;
        let mut e: usize = 0;
        while e < graph.edges.len()
            invariant
                nodes_shaped_as(w@, start),
                e <= graph.edges@.len(),
                edges == graph.edges@,
                registry == value_types.entries(),
                round_trace(edges, registry, ws, sts, cs),
                cs.len() == e,
                ws[0] == wr,
                sts[0] == sr,
                ws[e as int] == w@,
                sts[e as int] == st@,
                changed == any_true(cs),
            decreases graph.edges@.len() - e,
        {
            let ghost wb = w@;
            let ghost sb = st@;
            let c = infer_edge(&graph.edges[e], &mut w, &mut st, value_types);
            proof {
                let ws2 = ws.push(w@);
                let sts2 = sts.push(st@);
                let cs2 = cs.push(c);
                assert(cs2.drop_last() =~= cs);
                assert forall|k: int| #![trigger cs2[k]] 0 <= k < cs2.len() implies edge_inferred(
                    edges[k],
                    registry,
                    ws2[k],
                    sts2[k],
                    ws2[k + 1],
                    sts2[k + 1],
                    cs2[k],
                ) by {
                    if k < cs.len() {
                        assert(cs2[k] == cs[k]);
                    }
                }
                ws = ws2;
                sts = sts2;
                cs = cs2;
            }
            changed = changed || c;
            e = e + 1;
        }
        proof {
            assert(round_done(edges, registry, wr, sr, w@, st@, changed)) by {
                assert(round_trace(edges, registry, ws, sts, cs));
            }
            let rw2 = rw.push(w@);
            let rs2 = rs.push(st@);
            let rc2 = rc.push(changed);
            assert forall|j: int| #![trigger rc2[j]] 0 <= j < rc2.len() implies round_done(
                edges,
                registry,
                rw2[j],
                rs2[j],
                rw2[j + 1],
                rs2[j + 1],
                rc2[j],
            ) by {
                if j < rc.len() {
                    assert(rc2[j] == rc[j]);
                }
            }
            rw = rw2;
            rs = rs2;
            rc = rc2;
        }
        if !changed || rounds_left == 0 {
            settled = true;
        } else {
            rounds_left = rounds_left - 1;
        }
    }
    proof {
        assert(propagated(edges, registry, w0, st0, n0, w@, st@)) by {
            assert(rounds_trace(edges, registry, rw, rs, rc));
        }
    }
    proof {
        assert(solve_run(*graph, decls, registry, w@, st@)) by {
            reveal(solve_run);
            assert(nodes_start_as(w0, start));
        }
    }
    let mut k: usize = 0;
    proof {
        assert(after_start.take(after_start.len() as int) =~= after_start);
        assert(after_start.skip(after_start.len() as int) =~= Seq::empty());
        assert(findings_of(Seq::<Diagnostic>::empty()) =~= generic_findings(w@, registry, 0));
    }
    while k < w.len()
        invariant
            k <= w@.len(),
            registry == value_types.entries(),
            appends(after_start, diagnostics@, generic_findings(w@, registry, k as nat)),
        decreases w@.len() - k,
    {
        let ghost mid = diagnostics@;
        validate_generic_bindings(&w[k], value_types, &mut diagnostics);
        proof {
            lemma_appends_trans(
                after_start,
                mid,
                diagnostics@,
                generic_findings(w@, registry, k as nat),
                variable_findings(w@[k as int], registry, w@[k as int].signature.constraints().len()),
            );
        }
        k = k + 1;
    }
    let ghost after_generic = diagnostics@;
    let mut e: usize = 0;
    proof {
        assert(after_generic.take(after_generic.len() as int) =~= after_generic);
        assert(after_generic.skip(after_generic.len() as int) =~= Seq::empty());
        assert(findings_of(Seq::<Diagnostic>::empty()) =~= edge_findings(w@, st@, registry, graph.edges@, 0));
    }
    while e < graph.edges.len()
        invariant
            e <= graph.edges@.len(),
            registry == value_types.entries(),
            appends(after_generic, diagnostics@, edge_findings(w@, st@, registry, graph.edges@, e as nat)),
        decreases graph.edges@.len() - e,
    {
        let ghost mid = diagnostics@;
        validate_edge(&graph.edges[e], &w, &st, value_types, &mut diagnostics);
        proof {
            let f = edge_finding(w@, st@, registry, graph.edges@[e as int]);
            match f {
                None => {
                    assert(edge_findings(w@, st@, registry, graph.edges@, e as nat + 1) == edge_findings(
                        w@,
                        st@,
                        registry,
                        graph.edges@,
                        e as nat,
                    ));
                },
                Some(x) => {
                    assert(diagnostics@ == mid.push(diagnostics@.last())) by {
                        assert(diagnostics@ =~= diagnostics@.drop_last().push(diagnostics@.last()));
                    }
                    lemma_appends_push(
                        after_generic,
                        mid,
                        edge_findings(w@, st@, registry, graph.edges@, e as nat),
                        diagnostics@.last(),
                    );
                },
            }
        }
        e = e + 1;
    }
    let mut resolved = resolved_node_map_new();
    let mut i: usize = 0;
    while i < w.len()
        invariant
            i <= w@.len(),
            nodes_shaped_as(w@, start),
            forall|a: int, b: int| 0 <= a < b < start.len() ==> #[trigger] start[a].0 != #[trigger] start[b].0,
            resolved_node_entries(resolved).len() == i,
            forall|j: int|
                0 <= j < i ==> (#[trigger] resolved_node_entries(resolved)[j]).0 == w@[j].id && resolved_as(
                    resolved_node_entries(resolved)[j].1,
                    w@[j],
                    st@,
                ),
        decreases w@.len() - i,
    {
        let node = resolve_node(&w[i], &st);
        let ghost before = resolved_node_entries(resolved);
        proof {
            if has_key(before, w@[i as int].id) {
                let q = crate::ordered::key_pos(before, w@[i as int].id);
                assert(start[q].0 == w@[q].id);
            }
        }
        resolved_node_map_insert(&mut resolved, w[i].id, node);
        i = i + 1;
    }
    let r = TypeSolveResult { graph: ResolvedGraph { nodes: resolved }, diagnostics };
    proof {
        let all = start_findings(nodes, decls, nodes.len());
        let gen = generic_findings(w@, registry, w@.len());
        let edges = edge_findings(w@, st@, registry, graph.edges@, graph.edges@.len());
        lemma_appends_trans(after_start, after_generic, r.diagnostics@, gen, edges);
        assert(r.diagnostics@.take(after_start.len() as int) == after_start);
        assert(r.diagnostics@ =~= after_start + r.diagnostics@.skip(after_start.len() as int));
        assert(findings_of(r.diagnostics@) =~= findings_of(after_start) + findings_of(
            r.diagnostics@.skip(after_start.len() as int),
        ));
        assert(findings_of(after_start) == all);
        assert(findings_of(r.diagnostics@) =~= all + gen + edges);
        assert(solved_as(r, *graph, decls, registry, w@, st@));
    }
    r
}

} // verus!
