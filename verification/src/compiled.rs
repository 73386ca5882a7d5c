//! Compiling an authored graph into its execution plan: value slots, state
//! ranges, the run order and how each node gets its inputs.
use vstd::prelude::*;

use crate::compile::{CompiledFormulaPropertySchema, DebugSourceMap, DisabledOutput, InputValueSource, OutputRoute, RuntimeSubscription};
use crate::compile::{
    bypass_spec, compile_properties_spec, compile_property_operation, compiled_view, config_property_id, covers,
    deps_spec, disabled_default_ok, fed_by, disabled_outputs, exposed_targets, is_topological, lemma_distinct_positions,
    missing_target_error, missing_targets, reports_missing, compile_property_schema, topological_order,
    validate_exposed_surface, CompiledFormulaProperty,
};
use crate::formula::FormulaPropertySchema;
use crate::graph::edge_in;
use crate::ordered::{key_pos, keys_distinct, lemma_key_pos};
use crate::text::decimal_text;
use crate::diagnostics::{Diagnostic, DiagnosticOrigin, DiagnosticSeverity};
use crate::ordered::{has_key, value_of};
use crate::plan::{input_source, input_source_spec, source_is};
use crate::registry::ValueTypeRegistry;
use crate::solve::opt_view;
use crate::typing::ResolvedANodeSignature;
use crate::value::RuntimeValue;
use crate::ids::{ANodeId, ExecNodeId, FormulaPropertySlotId, SocketId, ValueSlotId};
use crate::indexmap_specs::{node_map_get_index, node_map_len, resolved_node_map_get_index, resolved_node_map_len, resolved_socket_map_get_index, resolved_socket_map_len};
use crate::node::{ANodeSignature, ExecutionKind};
use crate::plan::SlotEntry;
use crate::graph::{AEdge, ANodeInstance, AlchemistGraph};
use crate::registry::ValueTypeDescriptor;
use crate::solve::{
    findings_of, node_findings, solve_types, start_bindings, resolved_as, resolved_sockets, socket_view, solved_as, start_findings, start_nodes,
    ResolvedANode, ResolvedGraph, SocketTypeEntry, SolveDeclaration, TypeSolveResult, WorkingNode,
};
use crate::typing::ResolvedSocket;
use crate::value::ValueTypeId;

verus! {

/// What the node registry declares for the type of a node, for compiling
/// it: its signature (whose input defaults feed unconnected inputs), whether
/// its outputs break dependency cycles, how many state slots an enabled
/// instance uses, and its change-gating defaults.
#[derive(Debug)]
pub struct CompileDeclaration {
    pub signature: ANodeSignature,
    pub breaks_dependency_cycle: bool,
    pub state_slot_count: usize,
    pub default_process_on_input_change_only: bool,
    pub default_send_on_output_change_only: bool,
}

/// How a compiled node computes its outputs: a disabled node passes values
/// through or gives defaults, a property node reads a property slot, and
/// any other node runs the operation its declaration compiles.
#[derive(Debug)]
pub enum PlannedOperation {
    Disabled { outputs: Vec<DisabledOutput> },
    ReadProperty(FormulaPropertySlotId),
    Declared,
}

/// A node of the execution plan.
#[derive(Debug)]
pub struct CompiledExecNode {
    pub exec_id: ExecNodeId,
    pub authored_id: ANodeId,
    pub execution_kind: ExecutionKind,
    pub operation: PlannedOperation,
    pub inputs: Vec<InputValueSource>,
    pub outputs: Vec<ValueSlotId>,
    pub output_sockets: Vec<SocketId>,
    pub output_types: Vec<Option<ValueTypeId>>,
    /// The state slots of the node, from the first up to the end (excluded).
    pub state_range: (usize, usize),
    pub process_on_input_change_only: bool,
    pub send_on_output_change_only: bool,
    pub log_enabled: bool,
}

/// What a compiled graph needs at run time.
#[derive(Debug)]
pub struct FormulaAnalysis {
    pub has_stateful_nodes: bool,
    pub has_effect_emitters: bool,
    pub has_always_process_nodes: bool,
    pub has_input_gated_nodes: bool,
    pub state_slot_count: usize,
    pub value_slot_count: usize,
}

/// The outcome of a successful compile.
#[derive(Debug)]
pub struct CompiledAlchemistGraph {
    pub exec_nodes: Vec<CompiledExecNode>,
    pub topo_order: Vec<ExecNodeId>,
    pub properties: CompiledFormulaPropertySchema,
    pub analysis: FormulaAnalysis,
    pub state_layout: crate::compile::RuntimeStateLayout,
    pub output_routes: Vec<OutputRoute>,
    pub subscriptions: Vec<RuntimeSubscription>,
    pub debug_map: DebugSourceMap,
}

/// The outcome of compiling: the compiled graph, unless an error was found,
/// and the findings.
#[derive(Debug)]
pub struct CompileResult {
    pub compiled: Option<CompiledAlchemistGraph>,
    pub diagnostics: Vec<Diagnostic>,
}

impl CompileResult {
    /// Whether some finding is an error.
    pub fn has_errors(&self) -> (r: bool)
        ensures
            r == crate::diagnostics::any_error(self.diagnostics@),
    {
        crate::diagnostics::has_errors(&self.diagnostics)
    }
}

/// The (node, output socket) pairs of a solved node, in output order.
pub open spec fn output_keys(id: u64, rn: ResolvedANode) -> Seq<(u64, Seq<char>)> {
    rn.signature.output_entries().map_values(|e: (Seq<char>, ResolvedSocket)| (id, e.0))
}

/// The outputs of the first `n` solved nodes, in order: the output at
/// position `k` of this list has value slot `k`.
pub open spec fn slot_table(nodes: Seq<(u64, ResolvedANode)>, n: nat) -> Seq<(u64, Seq<char>)>
    decreases n,
{
    if n == 0 || n > nodes.len() {
        Seq::empty()
    } else {
        slot_table(nodes, (n - 1) as nat) + output_keys(nodes[n - 1].0, nodes[n - 1].1)
    }
}

/// Whether `slots` gives slot `k` to the `k`-th output of `table`.
pub open spec fn numbered(slots: Seq<SlotEntry>, table: Seq<(u64, Seq<char>)>) -> bool {
    &&& slots.len() == table.len()
    &&& forall|k: int|
        0 <= k < slots.len() ==> (#[trigger] slots[k]).node == table[k].0 && slots[k].socket@ == table[k].1
            && slots[k].slot.0 == k
}

/// The slot table only grows.
pub proof fn lemma_slot_table_grows(nodes: Seq<(u64, ResolvedANode)>, i: nat, n: nat)
    requires
        i <= n <= nodes.len(),
    ensures
        slot_table(nodes, i).len() <= slot_table(nodes, n).len(),
        i < n ==> slot_table(nodes, i + 1).len() <= slot_table(nodes, n).len(),
    decreases n - i,
{
    if i < n {
        lemma_slot_table_grows(nodes, i + 1, n);
    }
}

/// Numbers the outputs of the solved nodes, in node order and then output
/// order, from slot 0.
pub fn value_slots(solved: &ResolvedGraph) -> (r: Vec<SlotEntry>)
    requires
        slot_table(solved.node_seq(), solved.node_seq().len()).len() <= u32::MAX,
    ensures
        numbered(r@, slot_table(solved.node_seq(), solved.node_seq().len())),
{
    let ghost nodes = solved.node_seq();
    let n = resolved_node_map_len(&solved.nodes);
    let mut r: Vec<SlotEntry> = Vec::new();
    let mut next: u32 = 0;
    let mut i: usize = 0;
    while i < n
        invariant
            i <= n,
            n == nodes.len(),
            nodes == solved.node_seq(),
            slot_table(nodes, n as nat).len() <= u32::MAX,
            next == r@.len(),
            numbered(r@, slot_table(nodes, i as nat)),
        decreases n - i,
    {
        let (id, rn) = resolved_node_map_get_index(&solved.nodes, i).unwrap();
        let m = resolved_socket_map_len(&rn.signature.outputs);
        let ghost base = slot_table(nodes, i as nat);
        let ghost keys = output_keys(*id, *rn);
        proof {
            assert(slot_table(nodes, (i + 1) as nat) == base + keys);
            lemma_slot_table_grows(nodes, i as nat, n as nat);
        }
        let mut k: usize = 0;
        while k < m
            invariant
                k <= m,
                m == keys.len(),
                keys == output_keys(*id, *rn),
                base.len() + keys.len() <= u32::MAX,
                next == r@.len(),
                numbered(r@, base + keys.take(k as int)),
            decreases m - k,
        {
            let (socket, _) = resolved_socket_map_get_index(&rn.signature.outputs, k).unwrap();
            let ghost before = r@;
            r.push(SlotEntry { node: *id, socket: socket.clone(), slot: ValueSlotId::new(next) });
            proof {
                assert(base + keys.take(k + 1) =~= (base + keys.take(k as int)).push(keys[k as int]));
                assert(r@ =~= before.push(r@[before.len() as int]));
            }
            next = next + 1;
            k = k + 1;
        }
        proof {
            assert(keys.take(m as int) =~= keys);
        }
        i = i + 1;
    }
    r
}

/// The number of output sockets that the first `n` declarations declare.
pub open spec fn output_budget(decls: Seq<Option<SolveDeclaration>>, n: nat) -> nat
    decreases n,
{
    if n == 0 || n > decls.len() {
        0
    } else {
        output_budget(decls, (n - 1) as nat) + match decls[n - 1] {
            Some(d) => d.signature.outputs@.len(),
            None => 0,
        }
    }
}

/// Whether the solved nodes are the graph's nodes, in order, each declared
/// and with at most as many outputs as its declaration.
pub open spec fn aligned(
    solved: Seq<(u64, ResolvedANode)>,
    nodes: Seq<(u64, ANodeInstance)>,
    decls: Seq<Option<SolveDeclaration>>,
) -> bool {
    &&& solved.len() == nodes.len()
    &&& decls.len() == nodes.len()
    &&& forall|i: int|
        0 <= i < nodes.len() ==> (#[trigger] solved[i]).0 == nodes[i].0 && decls[i] is Some
            && solved[i].1.signature.output_entries().len() <= decls[i]->0.signature.outputs@.len()
}

proof fn lemma_resolved_sockets_len(n: WorkingNode, st: Seq<SocketTypeEntry>, input: bool, k: nat)
    ensures
        resolved_sockets(n, st, input, k).len() <= k,
    decreases k,
{
    if k > 0 {
        lemma_resolved_sockets_len(n, st, input, (k - 1) as nat);
    }
}

proof fn lemma_start_all_declared(nodes: Seq<(u64, ANodeInstance)>, decls: Seq<Option<SolveDeclaration>>, n: nat)
    requires
        n <= nodes.len(),
        n <= decls.len(),
        start_findings(nodes, decls, n).len() == 0,
    ensures
        start_nodes(nodes, decls, n).len() == n,
        forall|i: int| 0 <= i < n ==> (#[trigger] decls[i]) is Some,
        forall|i: int|
            0 <= i < n ==> (#[trigger] start_nodes(nodes, decls, n)[i]).0 == nodes[i].0
                && start_nodes(nodes, decls, n)[i].2 == decls[i]->0.signature,
    decreases n,
{
    if n > 0 {
        let m = (n - 1) as nat;
        assert(start_findings(nodes, decls, n) == start_findings(nodes, decls, m) + node_findings(
            nodes[m as int].0,
            decls[m as int],
            nodes[m as int].1,
        ));
        lemma_start_all_declared(nodes, decls, m);
        assert(decls[m as int] is Some);
        let rest = start_nodes(nodes, decls, m);
        let all = start_nodes(nodes, decls, n);
        assert(all == rest.push((nodes[m as int].0, decls[m as int]->0.execution_kind, decls[m as int]->0.signature, start_bindings(decls[m as int]->0, nodes[m as int].1).0)));
        assert forall|i: int| 0 <= i < n implies (#[trigger] decls[i]) is Some by {
            if i < m {
                assert(decls[i] is Some);
            }
        }
        assert forall|i: int| 0 <= i < n implies (#[trigger] all[i]).0 == nodes[i].0 && all[i].2 == decls[i]->0.signature by {
            if i < m {
                assert(all[i] == rest[i]);
            }
        }
    }
}

/// A solve that found nothing solved every node of the graph, in order.
pub proof fn lemma_aligned(
    s: TypeSolveResult,
    graph: AlchemistGraph,
    decls: Seq<Option<SolveDeclaration>>,
    registry: Seq<(Seq<char>, ValueTypeDescriptor)>,
    w: Seq<WorkingNode>,
    st: Seq<SocketTypeEntry>,
)
    requires
        solved_as(s, graph, decls, registry, w, st),
        decls.len() == graph.node_seq().len(),
        s.diagnostics@.len() == 0,
    ensures
        aligned(s.graph.node_seq(), graph.node_seq(), decls),
{
    let nodes = graph.node_seq();
    let start = start_findings(nodes, decls, nodes.len());
    assert(findings_of(s.diagnostics@).len() == 0);
    assert(start.len() == 0);
    lemma_start_all_declared(nodes, decls, nodes.len());
    let sn = start_nodes(nodes, decls, nodes.len());
    assert forall|i: int| 0 <= i < nodes.len() implies (#[trigger] s.graph.node_seq()[i]).0 == nodes[i].0
        && decls[i] is Some && s.graph.node_seq()[i].1.signature.output_entries().len()
        <= decls[i]->0.signature.outputs@.len() by {
        assert(sn[i].0 == nodes[i].0);
        assert(w[i].id == sn[i].0 && w[i].signature == sn[i].2);
        let rn = s.graph.node_seq()[i].1;
        assert(resolved_as(rn, w[i], st));
        lemma_resolved_sockets_len(w[i], st, false, w[i].signature.outputs@.len());
        assert(socket_view(rn.signature.output_entries()).len() == rn.signature.output_entries().len());
    }
}

/// Aligned solved nodes have at most as many outputs as the declarations.
pub proof fn lemma_slot_budget(
    solved: Seq<(u64, ResolvedANode)>,
    nodes: Seq<(u64, ANodeInstance)>,
    decls: Seq<Option<SolveDeclaration>>,
    n: nat,
)
    requires
        aligned(solved, nodes, decls),
        n <= nodes.len(),
    ensures
        slot_table(solved, n).len() <= output_budget(decls, n),
    decreases n,
{
    if n > 0 {
        lemma_slot_budget(solved, nodes, decls, (n - 1) as nat);
        let x = solved[n - 1];
        assert(output_keys(x.0, x.1).len() == x.1.signature.output_entries().len());
    }
}

/// The value of a boolean configuration field, or `fallback` when the field
/// is not set to a boolean.
pub open spec fn config_flag(entries: Seq<(Seq<char>, RuntimeValue)>, field: Seq<char>, fallback: bool) -> bool {
    if has_key(entries, field) {
        match value_of(entries, field) {
            RuntimeValue::Bool(b) => b,
            _ => fallback,
        }
    } else {
        fallback
    }
}

/// The value of boolean configuration field `field` of `instance`, or
/// `fallback`, as [`config_flag`] says.
pub fn instance_flag(instance: &ANodeInstance, field: &str, fallback: bool) -> (r: bool)
    ensures
        r == config_flag(instance.config.entries(), field@, fallback),
{
    match instance.config.get(field) {
        Some(RuntimeValue::Bool(b)) => *b,
        _ => fallback,
    }
}

/// The state slots an enabled node uses; a disabled node uses none.
pub open spec fn state_size(instance: ANodeInstance, d: CompileDeclaration) -> nat {
    if instance.enabled {
        d.state_slot_count as nat
    } else {
        0
    }
}

/// The error that compiling node `instance` meets, as (code, message): a
/// property node must name a property of the compiled schema `props`.
pub open spec fn op_error(instance: ANodeInstance, props: Seq<(Seq<char>, CompiledFormulaProperty)>) -> Option<
    (Seq<char>, Seq<char>),
> {
    if instance.enabled && instance.type_id@ == "property"@ {
        match config_property_id(instance.config.entries()) {
            None => Some(("missing_property_id"@, "property node is missing a stable property_id"@)),
            Some(id) => if has_key(props, id) {
                None
            } else {
                Some(("missing_property_declaration"@, "property node references missing property `"@ + id + "`"@))
            },
        }
    } else {
        None
    }
}

/// Whether `op` is how node `instance`, solved with signature `sig`,
/// computes: a disabled node passes its bypass input through or gives the
/// default of each output's type; an enabled property node reads the slot of
/// its property; any other node runs its declared operation.
pub open spec fn operation_planned(
    op: PlannedOperation,
    instance: ANodeInstance,
    sig: ResolvedANodeSignature,
    registry: Seq<(Seq<char>, ValueTypeDescriptor)>,
    props: Seq<(Seq<char>, CompiledFormulaProperty)>,
) -> bool {
    if !instance.enabled {
        &&& op matches PlannedOperation::Disabled { outputs }
        &&& outputs@.len() == sig.output_entries().len()
        &&& forall|k: int|
            0 <= k < outputs@.len() ==> (#[trigger] outputs@[k]).input_index == bypass_spec(
                sig.input_entries(),
                sig.output_entries(),
            ) && disabled_default_ok(sig.output_entries()[k].1.value_type, registry, outputs@[k].default_value)
    } else if instance.type_id@ == "property"@ {
        match config_property_id(instance.config.entries()) {
            Some(id) => op == PlannedOperation::ReadProperty(value_of(props, id).slot),
            None => false,
        }
    } else {
        op is Declared
    }
}

/// Whether `x` is the plan of node `i` of the graph (identifier `id`,
/// instance `instance`), solved as `rn` and declared by `d`, whose state
/// starts at `state_start` and whose outputs take the slots from
/// `slot_start` on: each input reads from where [`input_source_spec`] says,
/// the change gating comes from the configuration or the declaration's
/// defaults, and logging is on for an enabled node whose `log` field is
/// `true`.
pub open spec fn planned_as(
    x: CompiledExecNode,
    i: int,
    id: u64,
    instance: ANodeInstance,
    rn: ResolvedANode,
    d: CompileDeclaration,
    state_start: int,
    slot_start: int,
    edges: Seq<AEdge>,
    solved: Seq<(u64, ResolvedANode)>,
    slots: Seq<SlotEntry>,
    registry: Seq<(Seq<char>, ValueTypeDescriptor)>,
    props: Seq<(Seq<char>, CompiledFormulaProperty)>,
) -> bool {
    let ins = rn.signature.input_entries();
    let outs = rn.signature.output_entries();
    &&& x.exec_id.0 == i
    &&& x.authored_id == id
    &&& x.execution_kind == rn.execution_kind
    &&& x.inputs@.len() == ins.len()
    &&& forall|k: int|
        0 <= k < ins.len() ==> source_is(
            #[trigger] x.inputs@[k],
            input_source_spec(
                edges,
                solved,
                slots,
                instance,
                Some(d.signature),
                id,
                ins[k].0,
                opt_view(ins[k].1.value_type),
                registry,
            ),
        )
    &&& x.outputs@.len() == outs.len()
    &&& x.output_sockets@.len() == outs.len()
    &&& x.output_types@.len() == outs.len()
    &&& forall|k: int|
        0 <= k < outs.len() ==> (#[trigger] x.outputs@[k]).0 == slot_start + k && x.output_sockets@[k]@ == outs[k].0
            && x.output_types@[k] == outs[k].1.value_type
    &&& x.state_range.0 == state_start
    &&& x.state_range.1 == state_start + state_size(instance, d)
    &&& x.process_on_input_change_only == config_flag(
        instance.config.entries(),
        "process_on_input_change_only"@,
        d.default_process_on_input_change_only,
    )
    &&& x.send_on_output_change_only == config_flag(
        instance.config.entries(),
        "send_on_output_change_only"@,
        d.default_send_on_output_change_only,
    )
    &&& x.log_enabled == (instance.enabled && has_key(instance.config.entries(), "log"@) && value_of(
        instance.config.entries(),
        "log"@,
    ) == RuntimeValue::Bool(true))
    &&& operation_planned(x.operation, instance, rn.signature, registry, props)
}

/// Plans node `i` of the graph, as [`planned_as`] says, or gives the error
/// [`op_error`] names, about the node.
fn plan_node(
    i: usize,
    id: ANodeId,
    instance: &ANodeInstance,
    rn: &ResolvedANode,
    d: &CompileDeclaration,
    state_start: usize,
    slot_start: usize,
    graph: &AlchemistGraph,
    solved: &ResolvedGraph,
    slots: &Vec<SlotEntry>,
    value_types: &ValueTypeRegistry,
    props: &CompiledFormulaPropertySchema,
) -> (r: Result<CompiledExecNode, Diagnostic>)
    requires
        i <= u32::MAX,
        state_start + state_size(*instance, *d) <= usize::MAX,
        slot_start + rn.signature.output_entries().len() <= u32::MAX,
    ensures
        match op_error(*instance, props.entries()) {
            Some(e) => r matches Err(diag) && diag.code@ == e.0 && diag.message@ == e.1 && diag.severity
                == DiagnosticSeverity::Error && diag.origin == DiagnosticOrigin::Node(instance.id),
            None => r matches Ok(x) && planned_as(
                x,
                i as int,
                id,
                *instance,
                *rn,
                *d,
                state_start as int,
                slot_start as int,
                graph.edges@,
                solved.node_seq(),
                slots@,
                value_types.entries(),
                props.entries(),
            ),
        },
{
    let operation = if !instance.enabled {
        PlannedOperation::Disabled { outputs: disabled_outputs(&rn.signature, value_types) }
    } else if crate::text::str_eq(instance.type_id.as_str(), "property") {
        match compile_property_operation(instance, props) {
            Ok(slot) => PlannedOperation::ReadProperty(slot),
            Err(diag) => {
                return Err(diag);
            },
        }
    } else {
        PlannedOperation::Declared
    };
    let ghost ins = rn.signature.input_entries();
    let ghost outs = rn.signature.output_entries();
    let n_in = resolved_socket_map_len(&rn.signature.inputs);
    let mut inputs: Vec<InputValueSource> = Vec::new();
    let mut k: usize = 0;
    while k < n_in
        invariant
            k <= n_in,
            n_in == ins.len(),
            ins == rn.signature.input_entries(),
            inputs@.len() == k,
            forall|j: int|
                0 <= j < k ==> source_is(
                    #[trigger] inputs@[j],
                    input_source_spec(
                        graph.edges@,
                        solved.node_seq(),
                        slots@,
                        *instance,
                        Some(d.signature),
                        id,
                        ins[j].0,
                        opt_view(ins[j].1.value_type),
                        value_types.entries(),
                    ),
                ),
        decreases n_in - k,
    {
        let (socket, rs) = resolved_socket_map_get_index(&rn.signature.inputs, k).unwrap();
        let source = input_source(
            &graph.edges,
            solved,
            slots,
            instance,
            Some(&d.signature),
            id,
            socket,
            rs.value_type.as_ref(),
            value_types,
        );
        inputs.push(source);
        k = k + 1;
    }
    let n_out = resolved_socket_map_len(&rn.signature.outputs);
    let mut outputs: Vec<ValueSlotId> = Vec::new();
    let mut output_sockets: Vec<SocketId> = Vec::new();
    let mut output_types: Vec<Option<ValueTypeId>> = Vec::new();
    let mut k: usize = 0;
    while k < n_out
        invariant
            k <= n_out,
            n_out == outs.len(),
            outs == rn.signature.output_entries(),
            slot_start + n_out <= u32::MAX,
            outputs@.len() == k,
            output_sockets@.len() == k,
            output_types@.len() == k,
            forall|j: int|
                0 <= j < k ==> (#[trigger] outputs@[j]).0 == slot_start + j && output_sockets@[j]@ == outs[j].0
                    && output_types@[j] == outs[j].1.value_type,
        decreases n_out - k,
    {
        let (socket, rs) = resolved_socket_map_get_index(&rn.signature.outputs, k).unwrap();
        outputs.push(ValueSlotId::new((slot_start + k) as u32));
        output_sockets.push(socket.clone());
        let t = match &rs.value_type {
            Some(v) => Some(v.clone()),
            None => None,
        };
        assert(t == outs[k as int].1.value_type);
        assert(output_sockets@[k as int]@ == outs[k as int].0);
        output_types.push(t);
        k = k + 1;
    }
    let size = if instance.enabled {
        d.state_slot_count
    } else {
        0
    };
    let log_enabled = instance.enabled && match instance.config.get("log") {
        Some(RuntimeValue::Bool(true)) => true,
        _ => false,
    };
    Ok(
        CompiledExecNode {
            exec_id: ExecNodeId::new(i as u32),
            authored_id: id,
            execution_kind: rn.execution_kind,
            operation,
            inputs,
            outputs,
            output_sockets,
            output_types,
            state_range: (state_start, state_start + size),
            process_on_input_change_only: instance_flag(
                instance,
                "process_on_input_change_only",
                d.default_process_on_input_change_only,
            ),
            send_on_output_change_only: instance_flag(
                instance,
                "send_on_output_change_only",
                d.default_send_on_output_change_only,
            ),
            log_enabled,
        },
    )
}

/// The dependencies that edges between nodes of the graph make are pairs
/// of node positions.
pub proof fn lemma_deps_valid(nodes: Seq<(u64, ANodeInstance)>, breaks: Seq<bool>, edges: Seq<AEdge>)
    requires
        breaks.len() == nodes.len(),
        forall|i: int| 0 <= i < edges.len() ==> edge_in(nodes, #[trigger] edges[i]),
    ensures
        forall|d: int|
            0 <= d < deps_spec(nodes, breaks, edges).len() ==> 0 <= (#[trigger] deps_spec(nodes, breaks, edges)[d]).0
                < nodes.len() && 0 <= deps_spec(nodes, breaks, edges)[d].1 < nodes.len(),
    decreases edges.len(),
{
    if edges.len() > 0 {
        let rest = edges.drop_last();
        assert forall|i: int| 0 <= i < rest.len() implies edge_in(nodes, #[trigger] rest[i]) by {
            assert(rest[i] == edges[i]);
        }
        lemma_deps_valid(nodes, breaks, rest);
        let last = edges[edges.len() - 1];
        assert(edge_in(nodes, last));
        assert(edges.last() == last);
        let before = deps_spec(nodes, breaks, rest);
        let all = deps_spec(nodes, breaks, edges);
        let a = key_pos(nodes, last.from.node);
        let b = key_pos(nodes, last.to.node);
        assert(0 <= a < nodes.len() && 0 <= b < nodes.len());
        assert forall|d: int| 0 <= d < all.len() implies 0 <= (#[trigger] all[d]).0 < nodes.len() && 0 <= all[d].1
            < nodes.len() by {
            if d < before.len() {
                assert(all[d] == before[d]);
            }
        }
    }
}

proof fn lemma_no_stuck_at(
    nodes: Seq<(u64, ANodeInstance)>,
    deps: Seq<(int, int)>,
    stuck: Seq<u64>,
    order: Seq<ExecNodeId>,
    j: int,
)
    requires
        keys_distinct(nodes),
        forall|d: int| 0 <= d < deps.len() ==> 0 <= (#[trigger] deps[d]).0 < nodes.len() && 0 <= deps[d].1 < nodes.len(),
        forall|i: int| 0 <= i < stuck.len() ==> fed_by(nodes, deps, stuck, #[trigger] stuck[i]),
        is_topological(order, nodes.len(), deps),
        0 <= j < order.len(),
    ensures
        forall|a: int| 0 <= a < stuck.len() ==> key_pos(nodes, #[trigger] stuck[a]) != order[j].0,
    decreases j,
{
    if exists|a: int| 0 <= a < stuck.len() && key_pos(nodes, #[trigger] stuck[a]) == order[j].0 {
        let a = choose|a: int| 0 <= a < stuck.len() && key_pos(nodes, #[trigger] stuck[a]) == order[j].0;
        assert(fed_by(nodes, deps, stuck, stuck[a]));
        assert(exists|d: int|
            0 <= d < deps.len() && deps[d].1 == key_pos(nodes, stuck[a]) && stuck.contains(nodes[deps[d].0].0)) by {
            reveal(fed_by);
        }
        let d = choose|d: int|
            0 <= d < deps.len() && deps[d].1 == key_pos(nodes, stuck[a]) && stuck.contains(nodes[deps[d].0].0);
        assert(0 <= (deps[d]).0 < nodes.len());
        let (i, j2) = choose|i: int, j2: int|
            0 <= i < j2 < order.len() && order[i].0 == (#[trigger] deps[d]).0 && order[j2].0 == deps[d].1;
        if j2 != j {
            assert(order[j2] != order[j]);
        }
        let p = deps[d].0;
        let y = nodes[p].0;
        let b = choose|b: int| 0 <= b < stuck.len() && stuck[b] == y;
        lemma_key_pos(nodes, p);
        assert(key_pos(nodes, stuck[b]) == order[i].0);
        lemma_no_stuck_at(nodes, deps, stuck, order, i);
    }
}

/// A reported dependency cycle leaves no run order: when each of some
/// nodes depends on another of them, no order runs every node once and
/// each after the nodes it depends on.
pub proof fn lemma_cycle_has_no_order(
    nodes: Seq<(u64, ANodeInstance)>,
    deps: Seq<(int, int)>,
    stuck: Seq<u64>,
    order: Seq<ExecNodeId>,
)
    requires
        keys_distinct(nodes),
        forall|d: int| 0 <= d < deps.len() ==> 0 <= (#[trigger] deps[d]).0 < nodes.len() && 0 <= deps[d].1 < nodes.len(),
        stuck.len() > 0,
        forall|i: int| 0 <= i < stuck.len() ==> has_key(nodes, #[trigger] stuck[i]),
        forall|i: int| 0 <= i < stuck.len() ==> fed_by(nodes, deps, stuck, #[trigger] stuck[i]),
    ensures
        !is_topological(order, nodes.len(), deps),
{
    if is_topological(order, nodes.len(), deps) {
        let n = nodes.len();
        let s = order.map_values(|e: ExecNodeId| e.0 as usize);
        assert forall|i: int, j: int| 0 <= i < j < s.len() implies s[i] != s[j] by {
            assert(order[i] != order[j]);
        }
        assert forall|i: int| 0 <= i < s.len() implies (#[trigger] s[i]) < n by {
            assert(order[i].0 < n);
        }
        lemma_distinct_positions(s, n);
        assert(has_key(nodes, stuck[0]));
        let p0 = key_pos(nodes, stuck[0]);
        assert(covers(s, p0));
        let j0 = choose|j: int| 0 <= j < s.len() && s[j] == p0;
        lemma_no_stuck_at(nodes, deps, stuck, order, j0);
        assert(key_pos(nodes, stuck[0]) == order[j0].0);
    }
}

/// Whether some order runs every node of `0..n` once, each after the nodes
/// it depends on.
pub open spec fn acyclic(n: nat, deps: Seq<(int, int)>) -> bool {
    exists|o: Seq<ExecNodeId>| is_topological(o, n, deps)
}

/// Whether each node's outputs break dependency cycles, by node position.
pub open spec fn breaks_of(decls: Seq<Option<CompileDeclaration>>) -> Seq<bool> {
    decls.map_values(|d: Option<CompileDeclaration>| d matches Some(x) && x.breaks_dependency_cycle)
}

/// The state slots that the first `n` declarations' enabled instances use.
pub open spec fn state_budget(decls: Seq<Option<CompileDeclaration>>, n: nat) -> nat
    decreases n,
{
    if n == 0 || n > decls.len() {
        0
    } else {
        state_budget(decls, (n - 1) as nat) + match decls[n - 1] {
            Some(d) => d.state_slot_count as nat,
            None => 0,
        }
    }
}

/// The first state slot of node `i`: the slots of the nodes before it.
pub open spec fn state_base(nodes: Seq<(u64, ANodeInstance)>, decls: Seq<Option<CompileDeclaration>>, i: nat) -> nat
    decreases i,
{
    if i == 0 || i > nodes.len() || i > decls.len() {
        0
    } else {
        state_base(nodes, decls, (i - 1) as nat) + match decls[i - 1] {
            Some(d) => state_size(nodes[i - 1].1, d),
            None => 0,
        }
    }
}

proof fn lemma_state_base_le(nodes: Seq<(u64, ANodeInstance)>, decls: Seq<Option<CompileDeclaration>>, i: nat)
    ensures
        state_base(nodes, decls, i) <= state_budget(decls, i),
    decreases i,
{
    if i > 0 {
        lemma_state_base_le(nodes, decls, (i - 1) as nat);
    }
}

proof fn lemma_budget_grows(decls: Seq<Option<CompileDeclaration>>, i: nat, n: nat)
    requires
        i <= n <= decls.len(),
    ensures
        state_budget(decls, i) <= state_budget(decls, n),
    decreases n - i,
{
    if i < n {
        lemma_budget_grows(decls, i + 1, n);
    }
}

/// The errors met while planning the first `n` nodes, as (code, message,
/// node), in node order.
pub open spec fn plan_errors(nodes: Seq<(u64, ANodeInstance)>, props: Seq<(Seq<char>, CompiledFormulaProperty)>, n: nat) -> Seq<
    (Seq<char>, Seq<char>, u64),
>
    decreases n,
{
    if n == 0 || n > nodes.len() {
        Seq::empty()
    } else {
        plan_errors(nodes, props, (n - 1) as nat) + match op_error(nodes[n - 1].1, props) {
            Some(e) => seq![(e.0, e.1, nodes[n - 1].1.id)],
            None => Seq::empty(),
        }
    }
}

/// Whether `d` holds exactly the errors `errs`, about their nodes.
pub open spec fn errors_are(d: Seq<Diagnostic>, errs: Seq<(Seq<char>, Seq<char>, u64)>) -> bool {
    &&& d.len() == errs.len()
    &&& forall|k: int|
        0 <= k < d.len() ==> (#[trigger] d[k]).code@ == errs[k].0 && d[k].message@ == errs[k].1 && d[k].severity
            == DiagnosticSeverity::Error && d[k].origin == DiagnosticOrigin::Node(errs[k].2)
}

/// Whether `d` is the report of a dependency cycle.
pub open spec fn cycle_error(d: Diagnostic) -> bool {
    &&& d.code@ == "cycle_without_delay"@
    &&& d.severity == DiagnosticSeverity::Error
    &&& d.origin == DiagnosticOrigin::Graph
    &&& exists|k: nat| k > 0 && d.message@ == "graph cycle involves "@ + decimal_text(k) + " node(s)"@
}

/// Whether the compiled properties `props` are those of `schema`.
pub open spec fn props_compiled(
    props: CompiledFormulaPropertySchema,
    schema: Option<FormulaPropertySchema>,
    registry: Seq<(Seq<char>, ValueTypeDescriptor)>,
) -> bool {
    match schema {
        None => props.entries().len() == 0,
        Some(s) => compiled_view(props.entries()) == compile_properties_spec(s.entries(), registry, s.entries().len()).0,
    }
}

/// The codes of the findings about the property schema.
pub open spec fn prop_codes(schema: Option<FormulaPropertySchema>, registry: Seq<(Seq<char>, ValueTypeDescriptor)>) -> Seq<
    Seq<char>,
> {
    match schema {
        None => Seq::empty(),
        Some(s) => compile_properties_spec(s.entries(), registry, s.entries().len()).1,
    }
}

/// Whether `d` holds the findings of the checks that precede planning, in
/// order: errors of the graph with the property codes `codes`, then the
/// type-solving findings `solve_d`, then one error for each exposed
/// declaration of `missing`.
pub open spec fn checks_reported(
    d: Seq<Diagnostic>,
    codes: Seq<Seq<char>>,
    solve_d: Seq<Diagnostic>,
    missing: Seq<Seq<char>>,
) -> bool {
    let a = codes.len();
    let b = a + solve_d.len();
    &&& d.len() >= b
    &&& crate::compile::codes(d.take(a as int)) == codes
    &&& forall|i: int|
        0 <= i < a ==> (#[trigger] d[i]).severity == DiagnosticSeverity::Error && d[i].origin == DiagnosticOrigin::Graph
    &&& d.subrange(a as int, b as int) == solve_d
    &&& reports_missing(d, b, missing)
}

/// Whether a compiled node is active, not disabled.
pub open spec fn active(x: CompiledExecNode) -> bool {
    !(x.operation is Disabled)
}

/// Whether `a` is the analysis of the compiled nodes `xs` with `state_count`
/// state slots and `value_count` value slots.
pub open spec fn analysis_of(a: FormulaAnalysis, xs: Seq<CompiledExecNode>, state_count: int, value_count: int) -> bool {
    &&& a.has_stateful_nodes == (state_count > 0)
    &&& a.state_slot_count == state_count
    &&& a.value_slot_count == value_count
    &&& a.has_effect_emitters == exists|i: int|
        0 <= i < xs.len() && active(#[trigger] xs[i]) && xs[i].execution_kind == ExecutionKind::EffectEmitter
    &&& a.has_always_process_nodes == exists|i: int|
        0 <= i < xs.len() && active(#[trigger] xs[i]) && !xs[i].process_on_input_change_only
    &&& a.has_input_gated_nodes == exists|i: int|
        0 <= i < xs.len() && active(#[trigger] xs[i]) && xs[i].process_on_input_change_only
}

/// Whether `g` is the compiled graph of `graph`: one planned node for each
/// node, in order, with consecutive state ranges and value slots; a run
/// order that respects every dependency; the compiled properties; and the
/// analysis of the planned nodes.
pub open spec fn compiled_graph_as(
    g: CompiledAlchemistGraph,
    graph: AlchemistGraph,
    decls: Seq<Option<CompileDeclaration>>,
    solved: Seq<(u64, ResolvedANode)>,
    props: CompiledFormulaPropertySchema,
    slots: Seq<SlotEntry>,
    registry: Seq<(Seq<char>, ValueTypeDescriptor)>,
) -> bool {
    let nodes = graph.node_seq();
    let n = nodes.len();
    &&& g.exec_nodes@.len() == n
    &&& forall|i: int|
        0 <= i < n ==> planned_as(
            #[trigger] g.exec_nodes@[i],
            i,
            nodes[i].0,
            nodes[i].1,
            solved[i].1,
            decls[i]->0,
            state_base(nodes, decls, i as nat) as int,
            slot_table(solved, i as nat).len() as int,
            graph.edges@,
            solved,
            slots,
            registry,
            props.entries(),
        )
    &&& is_topological(g.topo_order@, n, deps_spec(nodes, breaks_of(decls), graph.edges@))
    &&& g.properties == props
    &&& g.state_layout.ranges@.len() == n
    &&& forall|i: int|
        0 <= i < n ==> (#[trigger] g.state_layout.ranges@[i]).0 == state_base(nodes, decls, i as nat)
            && g.state_layout.ranges@[i].1 == state_base(nodes, decls, (i + 1) as nat)
    &&& g.state_layout.state_slot_count == state_base(nodes, decls, n)
    &&& g.state_layout.value_slot_count == slot_table(solved, n).len()
    &&& g.output_routes@.len() == 0
    &&& g.subscriptions@.len() == 0
    &&& g.debug_map.exec_to_authored@ == nodes.map_values(|e: (u64, ANodeInstance)| e.0)
    &&& analysis_of(
        g.analysis,
        g.exec_nodes@,
        state_base(nodes, decls, n) as int,
        slot_table(solved, n).len() as int,
    )
}

/// Whether `r` is the outcome of compiling `graph` once its checks found
/// nothing, with declarations `decls`, solved nodes `solved`, compiled
/// properties `props` and value slots `slots`: a dependency cycle stops the
/// compile; then the errors of planning the nodes stop it; otherwise the
/// graph is compiled with no finding.
pub open spec fn planned_outcome(
    r: CompileResult,
    graph: AlchemistGraph,
    registry: Seq<(Seq<char>, ValueTypeDescriptor)>,
    decls: Seq<Option<CompileDeclaration>>,
    solved: Seq<(u64, ResolvedANode)>,
    props: CompiledFormulaPropertySchema,
    slots: Seq<SlotEntry>,
) -> bool {
    let nodes = graph.node_seq();
    let n = nodes.len();
    let deps = deps_spec(nodes, breaks_of(decls), graph.edges@);
    if !acyclic(n, deps) {
        r.compiled is None && r.diagnostics@.len() == 1 && cycle_error(r.diagnostics@[0])
    } else if plan_errors(nodes, props.entries(), n).len() > 0 {
        r.compiled is None && errors_are(r.diagnostics@, plan_errors(nodes, props.entries(), n))
    } else {
        &&& r.diagnostics@.len() == 0
        &&& r.compiled matches Some(g)
        &&& numbered(slots, slot_table(solved, solved.len()))
        &&& compiled_graph_as(g, graph, decls, solved, props, slots, registry)
    }
}

/// Whether `r` is the outcome of compiling `graph` with property schema
/// `schema`, value types `registry` and declarations `decls`, given the
/// type-solving result `solved`, the compiled properties `props` and the
/// value slots `slots`: the checks come first and any finding stops the
/// compile; then the compile goes on as [`planned_outcome`] says.
pub open spec fn compile_outcome(
    r: CompileResult,
    graph: AlchemistGraph,
    schema: Option<FormulaPropertySchema>,
    registry: Seq<(Seq<char>, ValueTypeDescriptor)>,
    decls: Seq<Option<CompileDeclaration>>,
    solved: TypeSolveResult,
    props: CompiledFormulaPropertySchema,
    slots: Seq<SlotEntry>,
) -> bool {
    let nodes = graph.node_seq();
    let codes = prop_codes(schema, registry);
    let missing = missing_targets(exposed_targets(graph.exposed), nodes);
    &&& props_compiled(props, schema, registry)
    &&& if codes.len() + solved.diagnostics@.len() + missing.len() > 0 {
        r.compiled is None && checks_reported(r.diagnostics@, codes, solved.diagnostics@, missing)
    } else {
        planned_outcome(r, graph, registry, decls, solved.graph.node_seq(), props, slots)
    }
}

/// The schema behind an optional reference.
pub open spec fn schema_of(properties: Option<&FormulaPropertySchema>) -> Option<FormulaPropertySchema> {
    match properties {
        Some(s) => Some(*s),
        None => None,
    }
}

/// Whether each node's outputs break dependency cycles, as
/// [`breaks_of`] says.
fn cycle_breaks(declarations: &Vec<Option<CompileDeclaration>>) -> (r: Vec<bool>)
    ensures
        r@ == breaks_of(declarations@),
{
    let mut r: Vec<bool> = Vec::new();
    let mut i: usize = 0;
    while i < declarations.len()
        invariant
            i <= declarations@.len(),
            r@ == breaks_of(declarations@).take(i as int),
        decreases declarations@.len() - i,
    {
        let b = match &declarations[i] {
            Some(d) => d.breaks_dependency_cycle,
            None => false,
        };
        r.push(b);
        proof {
            assert(breaks_of(declarations@).take(i + 1) =~= breaks_of(declarations@).take(i as int).push(b));
        }
        i = i + 1;
    }
    proof {
        assert(breaks_of(declarations@).take(declarations@.len() as int) =~= breaks_of(declarations@));
    }
    r
}

/// The analysis of the compiled nodes `xs`, as [`analysis_of`] says.
fn analyze(xs: &Vec<CompiledExecNode>, state_count: usize, value_count: usize) -> (a: FormulaAnalysis)
    ensures
        analysis_of(a, xs@, state_count as int, value_count as int),
{
    let mut effect = false;
    let mut always = false;
    let mut gated = false;
    let mut k: usize = 0;
    while k < xs.len()
        invariant
            k <= xs@.len(),
            effect == exists|i: int| 0 <= i < k && active(#[trigger] xs@[i]) && xs@[i].execution_kind == ExecutionKind::EffectEmitter,
            always == exists|i: int| 0 <= i < k && active(#[trigger] xs@[i]) && !xs@[i].process_on_input_change_only,
            gated == exists|i: int| 0 <= i < k && active(#[trigger] xs@[i]) && xs@[i].process_on_input_change_only,
        decreases xs@.len() - k,
    {
        let x = &xs[k];
        let is_active = match &x.operation {
            PlannedOperation::Disabled { .. } => false,
            _ => true,
        };
        if is_active {
            if x.process_on_input_change_only {
                gated = true;
            } else {
                always = true;
            }
            match x.execution_kind {
                ExecutionKind::EffectEmitter => {
                    effect = true;
                },
                _ => {},
            }
        }
        k = k + 1;
    }
    FormulaAnalysis {
        has_stateful_nodes: state_count > 0,
        has_effect_emitters: effect,
        has_always_process_nodes: always,
        has_input_gated_nodes: gated,
        state_slot_count: state_count,
        value_slot_count: value_count,
    }
}

/// The identifier of each node of the graph, in order.
fn authored_ids(graph: &AlchemistGraph) -> (r: Vec<ANodeId>)
    ensures
        r@ == graph.node_seq().map_values(|e: (u64, ANodeInstance)| e.0),
{
    let n = node_map_len(&graph.nodes);
    let ghost all = graph.node_seq().map_values(|e: (u64, ANodeInstance)| e.0);
    let mut r: Vec<ANodeId> = Vec::new();
    let mut i: usize = 0;
    while i < n
        invariant
            i <= n,
            n == graph.node_seq().len(),
            all == graph.node_seq().map_values(|e: (u64, ANodeInstance)| e.0),
            r@ == all.take(i as int),
        decreases n - i,
    {
        let (id, _) = node_map_get_index(&graph.nodes, i).unwrap();
        r.push(*id);
        proof {
            assert(all.take(i + 1) =~= all.take(i as int).push(*id));
        }
        i = i + 1;
    }
    proof {
        assert(all.take(n as int) =~= all);
    }
    r
}

/// Whether the first `i` compiled nodes are planned as [`planned_as`] says.
pub open spec fn nodes_planned(
    xs: Seq<CompiledExecNode>,
    i: nat,
    graph: AlchemistGraph,
    decls: Seq<Option<CompileDeclaration>>,
    solved: Seq<(u64, ResolvedANode)>,
    slots: Seq<SlotEntry>,
    registry: Seq<(Seq<char>, ValueTypeDescriptor)>,
    props: Seq<(Seq<char>, CompiledFormulaProperty)>,
) -> bool {
    let nodes = graph.node_seq();
    &&& xs.len() == i
    &&& forall|j: int|
        0 <= j < i ==> planned_as(
            #[trigger] xs[j],
            j,
            nodes[j].0,
            nodes[j].1,
            solved[j].1,
            decls[j]->0,
            state_base(nodes, decls, j as nat) as int,
            slot_table(solved, j as nat).len() as int,
            graph.edges@,
            solved,
            slots,
            registry,
            props,
        )
}

/// Plans every node of the graph, in order: the planned nodes (all of them
/// when no error was met), the state range of each node, the state and
/// value slot counts, and the errors met.
fn plan_nodes(
    graph: &AlchemistGraph,
    solved: &ResolvedGraph,
    slots: &Vec<SlotEntry>,
    declarations: &Vec<Option<CompileDeclaration>>,
    value_types: &ValueTypeRegistry,
    props: &CompiledFormulaPropertySchema,
) -> (r: (Vec<CompiledExecNode>, Vec<(usize, usize)>, usize, usize, Vec<Diagnostic>))
    requires
        solved.node_seq().len() == graph.node_seq().len(),
        declarations@.len() == graph.node_seq().len(),
        forall|i: int|
            0 <= i < graph.node_seq().len() ==> (#[trigger] solved.node_seq()[i]).0 == graph.node_seq()[i].0
                && declarations@[i] is Some,
        graph.node_seq().len() <= u32::MAX,
        slot_table(solved.node_seq(), graph.node_seq().len()).len() <= u32::MAX,
        state_budget(declarations@, graph.node_seq().len()) <= usize::MAX,
    ensures
        ({
            let nodes = graph.node_seq();
            let n = nodes.len();
            let errs = plan_errors(nodes, props.entries(), n);
            &&& errors_are(r.4@, errs)
            &&& r.1@.len() == n
            &&& forall|i: int|
                0 <= i < n ==> (#[trigger] r.1@[i]).0 == state_base(nodes, declarations@, i as nat) && r.1@[i].1
                    == state_base(nodes, declarations@, (i + 1) as nat)
            &&& r.2 == state_base(nodes, declarations@, n)
            &&& r.3 == slot_table(solved.node_seq(), n).len()
            &&& errs.len() == 0 ==> nodes_planned(
                r.0@,
                n,
                *graph,
                declarations@,
                solved.node_seq(),
                slots@,
                value_types.entries(),
                props.entries(),
            )
        }),
{
    let ghost nodes = graph.node_seq();
    let ghost sn = solved.node_seq();
    let ghost decls = declarations@;
    let n = node_map_len(&graph.nodes);
    let mut exec_nodes: Vec<CompiledExecNode> = Vec::new();
    let mut ranges: Vec<(usize, usize)> = Vec::new();
    let mut diagnostics: Vec<Diagnostic> = Vec::new();
    let mut state_count: usize = 0;
    let mut slot_start: usize = 0;
    let mut i: usize = 0;
    while i < n
        invariant
            i <= n,
            n == nodes.len(),
            nodes == graph.node_seq(),
            sn == solved.node_seq(),
            decls == declarations@,
            sn.len() == n,
            decls.len() == n,
            forall|j: int| 0 <= j < n ==> (#[trigger] sn[j]).0 == nodes[j].0 && decls[j] is Some,
            n <= u32::MAX,
            slot_table(sn, n as nat).len() <= u32::MAX,
            state_budget(decls, n as nat) <= usize::MAX,
            state_count == state_base(nodes, decls, i as nat),
            slot_start == slot_table(sn, i as nat).len(),
            ranges@.len() == i,
            forall|j: int|
                0 <= j < i ==> (#[trigger] ranges@[j]).0 == state_base(nodes, decls, j as nat) && ranges@[j].1
                    == state_base(nodes, decls, (j + 1) as nat),
            errors_are(diagnostics@, plan_errors(nodes, props.entries(), i as nat)),
            plan_errors(nodes, props.entries(), i as nat).len() == 0 ==> nodes_planned(
                exec_nodes@,
                i as nat,
                *graph,
                decls,
                sn,
                slots@,
                value_types.entries(),
                props.entries(),
            ),
        decreases n - i,
    {
        let (id, instance) = node_map_get_index(&graph.nodes, i).unwrap();
        let (_, rn) = resolved_node_map_get_index(&solved.nodes, i).unwrap();
        assert(sn[i as int].0 == nodes[i as int].0);
        assert(decls[i as int] is Some);
        let d = declarations[i].as_ref().unwrap();
        proof {
            lemma_state_base_le(nodes, decls, (i + 1) as nat);
            lemma_budget_grows(decls, (i + 1) as nat, n as nat);
            lemma_slot_table_grows(sn, i as nat, n as nat);
            assert(slot_table(sn, (i + 1) as nat) == slot_table(sn, i as nat) + output_keys(sn[i as int].0, sn[i as int].1));
        }
        let size = if instance.enabled {
            d.state_slot_count
        } else {
            0
        };
        let start = state_count;
        state_count = state_count + size;
        ranges.push((start, state_count));
        let ghost before_errs = plan_errors(nodes, props.entries(), i as nat);
        let ghost before_diags = diagnostics@;
        let ghost before_nodes = exec_nodes@;
        proof {
            assert(plan_errors(nodes, props.entries(), (i + 1) as nat) == before_errs + match op_error(nodes[i as int].1, props.entries()) {
                Some(e) => seq![(e.0, e.1, nodes[i as int].1.id)],
                None => Seq::empty(),
            });
        }
        match plan_node(i, *id, instance, rn, d, start, slot_start, graph, solved, slots, value_types, props) {
            Ok(x) => {
                exec_nodes.push(x);
                proof {
                    assert(exec_nodes@ == before_nodes.push(x));
                }
            },
            Err(diag) => {
                diagnostics.push(diag);
                proof {
                    assert(diagnostics@ == before_diags.push(diag));
                }
            },
        }
        slot_start = slot_start + resolved_socket_map_len(&rn.signature.outputs);
        i = i + 1;
    }
    (exec_nodes, ranges, state_count, slot_start, diagnostics)
}

/// Nodes that each depend on another of them leave no run order.
proof fn lemma_stuck_cyclic(graph: AlchemistGraph, breaks: Seq<bool>, stuck: Seq<u64>)
    requires
        graph.edges_joined(),
        breaks.len() == graph.node_seq().len(),
        ({
            let nodes = graph.node_seq();
            let deps = deps_spec(nodes, breaks, graph.edges@);
            &&& stuck.len() > 0
            &&& forall|i: int| 0 <= i < stuck.len() ==> has_key(nodes, #[trigger] stuck[i])
            &&& forall|i: int| 0 <= i < stuck.len() ==> fed_by(nodes, deps, stuck, #[trigger] stuck[i])
        }),
    ensures
        !acyclic(graph.node_seq().len(), deps_spec(graph.node_seq(), breaks, graph.edges@)),
{
    let nodes = graph.node_seq();
    let deps = deps_spec(nodes, breaks, graph.edges@);
    lemma_deps_valid(nodes, breaks, graph.edges@);
    assert forall|o: Seq<ExecNodeId>| !is_topological(o, nodes.len(), deps) by {
        lemma_cycle_has_no_order(nodes, deps, stuck, o);
    }
}

/// The checks that come before planning: compiles the property schema,
/// solves the types and checks the exposed surface. Returns the compiled
/// properties, the solved nodes, the findings in that order (all errors),
/// and the type-solving result.
#[verifier::spinoff_prover]
fn check_graph(
    graph: &AlchemistGraph,
    value_types: &ValueTypeRegistry,
    properties: Option<&FormulaPropertySchema>,
    solve_declarations: Vec<Option<SolveDeclaration>>,
) -> (r: (CompiledFormulaPropertySchema, ResolvedGraph, Vec<Diagnostic>, Ghost<TypeSolveResult>))
    requires
        graph.nodes_distinct(),
        solve_declarations@.len() == graph.node_seq().len(),
        properties matches Some(s) ==> s.entries().len() <= u32::MAX,
    ensures
        exists|w: Seq<WorkingNode>, st: Seq<SocketTypeEntry>|
            solved_as(r.3@, *graph, solve_declarations@, value_types.entries(), w, st),
        r.1 == r.3@.graph,
        props_compiled(r.0, schema_of(properties), value_types.entries()),
        checks_reported(
            r.2@,
            prop_codes(schema_of(properties), value_types.entries()),
            r.3@.diagnostics@,
            missing_targets(exposed_targets(graph.exposed), graph.node_seq()),
        ),
        r.2@.len() == prop_codes(schema_of(properties), value_types.entries()).len() + r.3@.diagnostics@.len()
            + missing_targets(exposed_targets(graph.exposed), graph.node_seq()).len(),
        forall|i: int| 0 <= i < r.2@.len() ==> (#[trigger] r.2@[i]).severity == DiagnosticSeverity::Error,
{
    let ghost nodes = graph.node_seq();
    let ghost registry = value_types.entries();
    let ghost schema = schema_of(properties);
    let ghost codes = prop_codes(schema, registry);
    let ghost missing = missing_targets(exposed_targets(graph.exposed), nodes);
    let mut diagnostics: Vec<Diagnostic> = Vec::new();
    let props = compile_property_schema(properties, value_types, &mut diagnostics);
    let ghost d0 = diagnostics@;
    proof {
        assert(d0.skip(0) =~= d0);
        assert(crate::compile::codes(d0).len() == d0.len());
        assert(crate::compile::codes(d0) == codes);
    }
    proof {
        reveal(AlchemistGraph::nodes_distinct);
    }
    let solved = solve_types(graph, solve_declarations, value_types);
    let ghost s = solved;
    let TypeSolveResult { graph: resolved, diagnostics: mut found } = solved;
    diagnostics.append(&mut found);
    let ghost d1 = diagnostics@;
    validate_exposed_surface(&graph.exposed, graph, &mut diagnostics);
    let ghost d2 = diagnostics@;
    proof {
        assert(d1 == d0 + s.diagnostics@);
        assert(d2.take(d1.len() as int) == d1);
        assert(d2.take(d0.len() as int) =~= d0) by {
            assert forall|k: int| 0 <= k < d0.len() implies d2.take(d0.len() as int)[k] == d0[k] by {
                assert(d2[k] == d2.take(d1.len() as int)[k]);
            }
        }
        assert(d2.subrange(d0.len() as int, d1.len() as int) =~= s.diagnostics@) by {
            assert forall|k: int| 0 <= k < s.diagnostics@.len() implies d2.subrange(d0.len() as int, d1.len() as int)[k]
                == s.diagnostics@[k] by {
                assert(d2[d0.len() + k] == d2.take(d1.len() as int)[d0.len() + k]);
            }
        }
        assert forall|i: int| 0 <= i < d2.len() implies (#[trigger] d2[i]).severity == DiagnosticSeverity::Error by {
            if i < d0.len() {
                assert(d2[i] == d2.take(d1.len() as int)[i]);
            } else if i < d1.len() {
                assert(d2[i] == d2.take(d1.len() as int)[i]);
                assert(d1[i] == s.diagnostics@[i - d0.len()]);
            } else {
                assert(missing_target_error(d2[d1.len() + (i - d1.len())], missing[i - d1.len()]));
            }
        }
        assert forall|i: int| 0 <= i < d0.len() implies (#[trigger] d2[i]).severity == DiagnosticSeverity::Error
            && d2[i].origin == DiagnosticOrigin::Graph by {
            assert(d2[i] == d2.take(d0.len() as int)[i]);
        }
        assert(codes.len() == d0.len());
        assert(checks_reported(d2, codes, s.diagnostics@, missing));
    }
    let ghost (w, st) = choose|w: Seq<WorkingNode>, st: Seq<SocketTypeEntry>|
        solved_as(s, *graph, solve_declarations@, registry, w, st);
    let r = (props, resolved, diagnostics, Ghost(s));
    proof {
        assert(solved_as(r.3@, *graph, solve_declarations@, registry, w, st));
    }
    r
}

/// Compiles `graph` once its checks found nothing: numbers the value
/// slots, orders the nodes and plans each of them, as [`planned_outcome`]
/// says.
#[verifier::spinoff_prover]
fn compile_checked(
    graph: &AlchemistGraph,
    value_types: &ValueTypeRegistry,
    resolved: &ResolvedGraph,
    props: CompiledFormulaPropertySchema,
    declarations: &Vec<Option<CompileDeclaration>>,
) -> (r: CompileResult)
    requires
        graph.edges_joined(),
        graph.node_seq().len() <= u32::MAX,
        resolved.node_seq().len() == graph.node_seq().len(),
        declarations@.len() == graph.node_seq().len(),
        forall|i: int|
            0 <= i < graph.node_seq().len() ==> (#[trigger] resolved.node_seq()[i]).0 == graph.node_seq()[i].0
                && declarations@[i] is Some,
        slot_table(resolved.node_seq(), graph.node_seq().len()).len() <= u32::MAX,
        state_budget(declarations@, graph.node_seq().len()) <= usize::MAX,
    ensures
        exists|slots: Seq<SlotEntry>|
            planned_outcome(r, *graph, value_types.entries(), declarations@, resolved.node_seq(), props, slots),
{
    let ghost nodes = graph.node_seq();
    let ghost n = nodes.len();
    let slots = value_slots(resolved);
    let breaks = cycle_breaks(declarations);
    let order = match topological_order(graph, &breaks) {
        Ok(order) => order,
        Err(stuck) => {
            proof {
                lemma_stuck_cyclic(*graph, breaks@, stuck@);
            }
            let message = crate::text::with_decimal("graph cycle involves ", stuck.len() as u64, " node(s)");
            let mut diagnostics: Vec<Diagnostic> = Vec::new();
            diagnostics.push(Diagnostic::error("cycle_without_delay", message, DiagnosticOrigin::Graph));
            let r = CompileResult { compiled: None, diagnostics };
            proof {
                assert(cycle_error(r.diagnostics@[0]));
                assert(planned_outcome(r, *graph, value_types.entries(), declarations@, resolved.node_seq(), props, slots@));
            }
            return r;
        },
    };
    proof {
        assert(acyclic(n, deps_spec(nodes, breaks@, graph.edges@)));
    }
    let (exec_nodes, ranges, state_count, value_count, plan_diagnostics) = plan_nodes(
        graph,
        resolved,
        &slots,
        declarations,
        value_types,
        &props,
    );
    if crate::diagnostics::has_errors(&plan_diagnostics) {
        let r = CompileResult { compiled: None, diagnostics: plan_diagnostics };
        proof {
            assert(plan_errors(nodes, props.entries(), n).len() > 0);
            assert(planned_outcome(r, *graph, value_types.entries(), declarations@, resolved.node_seq(), props, slots@));
        }
        return r;
    }
    proof {
        if plan_diagnostics@.len() > 0 {
            assert(plan_diagnostics@[0].severity == DiagnosticSeverity::Error);
        }
    }
    let analysis = analyze(&exec_nodes, state_count, value_count);
    let exec_to_authored = authored_ids(graph);
    let ghost p = props;
    let g = CompiledAlchemistGraph {
        exec_nodes,
        topo_order: order,
        properties: props,
        analysis,
        state_layout: crate::compile::RuntimeStateLayout { ranges, state_slot_count: state_count, value_slot_count: value_count },
        output_routes: Vec::new(),
        subscriptions: Vec::new(),
        debug_map: DebugSourceMap { exec_to_authored },
    };
    let r = CompileResult { compiled: Some(g), diagnostics: plan_diagnostics };
    proof {
        assert(compiled_graph_as(g, *graph, declarations@, resolved.node_seq(), p, slots@, value_types.entries()));
        assert(planned_outcome(r, *graph, value_types.entries(), declarations@, resolved.node_seq(), p, slots@));
    }
    r
}

/// Compiles `graph` into its execution plan, with value types
/// `value_types` and formula properties `properties`.
/// `solve_declarations` and `declarations` hold, for each node in order,
/// what the node registry declares for its type (`None` for both when it is
/// not registered).
///
/// The property schema, the types (see [`solve_types`]) and the exposed
/// surface are checked first, and any finding stops the compile. Then the
/// nodes are ordered (see [`topological_order`]); a dependency cycle is an
/// error. Then each node is planned in order; an error there stops the
/// compile too. The compiled graph numbers the value slots of the solved
/// outputs in node order, gives each node its state slots in turn, and
/// keeps the authored order of the nodes.
#[verifier::spinoff_prover]
pub fn compile_graph(
    graph: &AlchemistGraph,
    value_types: &ValueTypeRegistry,
    properties: Option<&FormulaPropertySchema>,
    solve_declarations: Vec<Option<SolveDeclaration>>,
    declarations: &Vec<Option<CompileDeclaration>>,
) -> (r: CompileResult)
    requires
        graph.nodes_distinct(),
        graph.node_seq().len() <= u32::MAX,
        solve_declarations@.len() == graph.node_seq().len(),
        declarations@.len() == graph.node_seq().len(),
        forall|i: int|
            0 <= i < declarations@.len() ==> ((#[trigger] declarations@[i]) is Some <==> solve_declarations@[i] is Some),
        properties matches Some(s) ==> s.entries().len() <= u32::MAX,
        output_budget(solve_declarations@, graph.node_seq().len()) <= u32::MAX,
        state_budget(declarations@, graph.node_seq().len()) <= usize::MAX,
    ensures
        exists|
            s: TypeSolveResult,
            w: Seq<WorkingNode>,
            st: Seq<SocketTypeEntry>,
            props: CompiledFormulaPropertySchema,
            slots: Seq<SlotEntry>,
        |
            {
                &&& solved_as(s, *graph, solve_declarations@, value_types.entries(), w, st)
                &&& compile_outcome(
                    r,
                    *graph,
                    schema_of(properties),
                    value_types.entries(),
                    declarations@,
                    s,
                    props,
                    slots,
                )
                &&& r.compiled is Some ==> numbered(slots, slot_table(s.graph.node_seq(), s.graph.node_seq().len()))
            },
        r.compiled is Some <==> !crate::diagnostics::any_error(r.diagnostics@),
{
    let ghost nodes = graph.node_seq();
    let ghost n = nodes.len();
    let ghost registry = value_types.entries();
    let ghost sdecls = solve_declarations@;
    let ghost decls = declarations@;
    let ghost schema = schema_of(properties);
    let ghost codes = prop_codes(schema, registry);
    let ghost missing = missing_targets(exposed_targets(graph.exposed), nodes);
    let (props, resolved, mut diagnostics, Ghost(s)) = check_graph(graph, value_types, properties, solve_declarations);
    let ghost (w, st) = choose|w: Seq<WorkingNode>, st: Seq<SocketTypeEntry>| solved_as(s, *graph, sdecls, registry, w, st);
    let ghost d2 = diagnostics@;
    if crate::diagnostics::has_errors(&diagnostics) {
        proof {
            assert(codes.len() + s.diagnostics@.len() + missing.len() > 0);
            assert(compile_outcome(
                CompileResult { compiled: None, diagnostics },
                *graph,
                schema,
                registry,
                decls,
                s,
                props,
                Seq::empty(),
            ));
        }
        return CompileResult { compiled: None, diagnostics };
    }
    proof {
        if d2.len() > 0 {
            assert(d2[0].severity == DiagnosticSeverity::Error);
        }
        assert(s.diagnostics@.len() == 0);
        lemma_aligned(s, *graph, sdecls, registry, w, st);
        lemma_slot_budget(resolved.node_seq(), nodes, sdecls, n);
        assert(aligned(resolved.node_seq(), nodes, sdecls));
        assert forall|i: int| 0 <= i < n implies (#[trigger] resolved.node_seq()[i]).0 == nodes[i].0 by {
            assert(aligned(resolved.node_seq(), nodes, sdecls));
        }
        assert forall|i: int| 0 <= i < n implies (#[trigger] declarations@[i]) is Some by {
            assert(aligned(resolved.node_seq(), nodes, sdecls));
            assert(resolved.node_seq()[i].0 == nodes[i].0);
            assert(sdecls[i] is Some);
        }
    }
    assert(forall|i: int|
        0 <= i < graph.node_seq().len() ==> (#[trigger] resolved.node_seq()[i]).0 == graph.node_seq()[i].0
            && declarations@[i] is Some);
    assert(graph.edges_joined()) by {
        reveal(AlchemistGraph::nodes_distinct);
        crate::solve::lemma_clean_solve_joins_edges(s, *graph, sdecls, registry, w, st);
    }
    let r = compile_checked(graph, value_types, &resolved, props, declarations);
    proof {
        let slots = choose|slots: Seq<SlotEntry>|
            planned_outcome(r, *graph, registry, decls, resolved.node_seq(), props, slots);
        assert(compile_outcome(r, *graph, schema, registry, decls, s, props, slots));
        if r.compiled is None {
            assert(r.diagnostics@[0].severity == DiagnosticSeverity::Error);
        }
    }
    r
}

} // verus!
