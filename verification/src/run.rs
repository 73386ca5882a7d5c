//! One run of a compiled graph. In run order, each node reads its inputs,
//! its operation runs, and its outputs go to their value slots. Reading
//! inputs and running an operation is the caller's part; what is written,
//! recorded and reported for each node is decided here.
use vstd::prelude::*;

use crate::compiled::{CompiledAlchemistGraph, CompiledExecNode};
use crate::frame::{values_same, AlchemistMemory};
use crate::ids::{ExecNodeId, ValueSlotId};
use crate::text::{decimal_text, with_decimal};
use crate::value::{same_value, RuntimeValue};

verus! {

/// A value written to an output slot during a run.
#[derive(Debug)]
pub struct RunSample {
    pub exec_node: ExecNodeId,
    pub output_slot: ValueSlotId,
    pub value: RuntimeValue,
    pub logical_tick: u64,
}

/// A problem met by one node during a run.
#[derive(Debug)]
pub struct RunDiagnostic {
    pub exec_node: ExecNodeId,
    pub message: String,
}

/// The samples and the diagnostics of a run, in the order they arose.
#[derive(Debug)]
pub struct RunRecord {
    pub samples: Vec<RunSample>,
    pub diagnostics: Vec<RunDiagnostic>,
}

impl RunRecord {
    /// A record with no sample and no diagnostic.
    pub fn new() -> (r: Self)
        ensures
            r.samples@.len() == 0,
            r.diagnostics@.len() == 0,
    {
        RunRecord { samples: Vec::new(), diagnostics: Vec::new() }
    }
}

/// What running one node gave.
#[derive(Debug)]
pub enum NodeRun {
    /// An input could not be read, for the reason given.
    InputFailed(String),
    /// The operation ran on `inputs`, gave `result` and left the node's
    /// state as `state`.
    Ran { inputs: Vec<RuntimeValue>, result: Result<Vec<RuntimeValue>, String>, state: Vec<RuntimeValue> },
}

/// The values after writing `vs[j]` into slot `slots[j]` for each of the
/// first `n` positions `j`, in order.
pub open spec fn written_values(
    values: Seq<RuntimeValue>,
    slots: Seq<ValueSlotId>,
    vs: Seq<RuntimeValue>,
    n: nat,
) -> Seq<RuntimeValue>
    decreases n,
{
    if n == 0 || n > slots.len() {
        values
    } else {
        written_values(values, slots, vs, (n - 1) as nat).update(slots[n - 1].0 as int, vs[n - 1])
    }
}

/// No slot occurs twice.
pub open spec fn slots_distinct(slots: Seq<ValueSlotId>) -> bool {
    forall|i: int, j: int| 0 <= i < j < slots.len() ==> #[trigger] slots[i] != #[trigger] slots[j]
}

/// Whether `after` is `before` followed by one sample per slot of `slots`:
/// node `id`, the slot, a copy of `vs` at that position, and `tick`.
pub open spec fn samples_appended(
    before: Seq<RunSample>,
    after: Seq<RunSample>,
    id: ExecNodeId,
    slots: Seq<ValueSlotId>,
    vs: Seq<RuntimeValue>,
    tick: u64,
) -> bool {
    &&& after.len() == before.len() + slots.len()
    &&& forall|i: int| 0 <= i < before.len() ==> after[i] == before[i]
    &&& forall|j: int|
        #![trigger slots[j]]
        0 <= j < slots.len() ==> sample_is(after[before.len() + j], id, slots[j], vs[j], tick)
}

/// Whether `s` records a copy of `v` written to `slot` by node `id` at `tick`.
pub open spec fn sample_is(s: RunSample, id: ExecNodeId, slot: ValueSlotId, v: RuntimeValue, tick: u64) -> bool {
    &&& s.exec_node == id
    &&& s.output_slot == slot
    &&& same_value(s.value, v)
    &&& s.logical_tick == tick
}

/// The message for a node that gave `produced` values where it has
/// `expected` outputs.
pub open spec fn count_message(produced: nat, expected: nat) -> Seq<char> {
    "node produced "@ + decimal_text(produced) + " output(s), expected "@ + decimal_text(expected)
}

/// The message reported for a result that is not written.
pub open spec fn failure_message(result: Result<Vec<RuntimeValue>, String>, expected: nat) -> Seq<char> {
    match result {
        Ok(vs) => count_message(vs@.len(), expected),
        Err(e) => e@,
    }
}

/// Whether the result of node `node` (execution id `id`) is written: it is
/// a list with one value per output.
pub open spec fn result_fits(node: CompiledExecNode, result: Result<Vec<RuntimeValue>, String>) -> bool {
    result matches Ok(vs) && vs@.len() == node.outputs@.len()
}

/// Whether handling `result` takes values `v0`, states `s0` and record
/// `r0` to `v1`, `s1` and `r1`: a fitting result is written to the output
/// slots in order, with a sample for each; any other result adds one
/// diagnostic for the node and changes nothing else.
pub open spec fn result_applied(
    v0: Seq<RuntimeValue>,
    s0: Seq<RuntimeValue>,
    r0: RunRecord,
    node: CompiledExecNode,
    id: ExecNodeId,
    result: Result<Vec<RuntimeValue>, String>,
    tick: u64,
    v1: Seq<RuntimeValue>,
    s1: Seq<RuntimeValue>,
    r1: RunRecord,
) -> bool {
    &&& s1 == s0
    &&& if result_fits(node, result) {
        let vs = result->Ok_0@;
        &&& values_same(v1, written_values(v0, node.outputs@, vs, vs.len()))
        &&& r1.diagnostics@ == r0.diagnostics@
        &&& samples_appended(r0.samples@, r1.samples@, id, node.outputs@, vs, tick)
    } else {
        &&& v1 == v0
        &&& r1.samples@ == r0.samples@
        &&& r1.diagnostics@.len() == r0.diagnostics@.len() + 1
        &&& r1.diagnostics@.drop_last() == r0.diagnostics@
        &&& r1.diagnostics@.last().exec_node == id
        &&& r1.diagnostics@.last().message@ == failure_message(result, node.outputs@.len())
    }
}

/// Writing into distinct slots in range leaves slot `slots[j]` holding
/// `vs[j]` and every other slot as it was.
pub proof fn lemma_written_values(values: Seq<RuntimeValue>, slots: Seq<ValueSlotId>, vs: Seq<RuntimeValue>, n: nat)
    requires
        n <= slots.len(),
        n <= vs.len(),
        forall|j: int| 0 <= j < slots.len() ==> (#[trigger] slots[j]).0 < values.len(),
    ensures
        written_values(values, slots, vs, n).len() == values.len(),
        forall|i: int|
            0 <= i < values.len() && (forall|j: int| 0 <= j < n ==> (#[trigger] slots[j]).0 != i) ==> written_values(
                values,
                slots,
                vs,
                n,
            )[i] == values[i],
        slots_distinct(slots) ==> forall|j: int|
            0 <= j < n ==> written_values(values, slots, vs, n)[(#[trigger] slots[j]).0 as int] == vs[j],
    decreases n,
{
    if n > 0 {
        lemma_written_values(values, slots, vs, (n - 1) as nat);
        let prev = written_values(values, slots, vs, (n - 1) as nat);
        assert(slots[n - 1].0 < values.len());
        assert forall|i: int|
            0 <= i < values.len() && (forall|j: int| 0 <= j < n ==> (#[trigger] slots[j]).0 != i) implies written_values(
            values,
            slots,
            vs,
            n,
        )[i] == values[i] by {
            assert(slots[n - 1].0 != i);
            assert forall|j: int| 0 <= j < n - 1 implies (#[trigger] slots[j]).0 != i by {
                assert(slots[j].0 != i);
            }
        }
        if slots_distinct(slots) {
            assert forall|j: int| 0 <= j < n implies written_values(values, slots, vs, n)[(#[trigger] slots[j]).0 as int]
                == vs[j] by {
                if j < n - 1 {
                    assert(slots[j] != slots[n - 1]);
                    assert(slots[j].0 != slots[n - 1].0);
                }
            }
        }
    }
}

/// Copies of `values`, in order.
fn copy_values(values: &Vec<RuntimeValue>) -> (r: Vec<RuntimeValue>)
    ensures
        values_same(r@, values@),
{
    let mut r: Vec<RuntimeValue> = Vec::new();
    let mut i: usize = 0;
    while i < values.len()
        invariant
            i <= values@.len(),
            values_same(r@, values@.take(i as int)),
        decreases values@.len() - i,
    {
        r.push(values[i].clone());
        i = i + 1;
    }
    proof {
        assert(values@.take(values@.len() as int) =~= values@);
    }
    r
}

/// Handles what node `node` (execution id `exec_id`) gave at tick `tick`.
/// When it is a list with one value per output, each value is written to
/// its output slot, in order, with a sample in `record`; the result is
/// `true`. Otherwise `record` gets one diagnostic for the node, with the
/// error's message or one on the count of values, memory is unchanged and
/// the result is `false`.
pub fn apply_node_result(
    memory: &mut AlchemistMemory,
    node: &CompiledExecNode,
    exec_id: ExecNodeId,
    result: Result<Vec<RuntimeValue>, String>,
    tick: u64,
    record: &mut RunRecord,
) -> (written: bool)
    requires
        forall|j: int| 0 <= j < node.outputs@.len() ==> (#[trigger] node.outputs@[j]).0 < old(memory).values().len(),
    ensures
        written == result_fits(*node, result),
        final(memory).values().len() == old(memory).values().len(),
        result_applied(
            old(memory).values(),
            old(memory).states(),
            *old(record),
            *node,
            exec_id,
            result,
            tick,
            final(memory).values(),
            final(memory).states(),
            *final(record),
        ),
        written && slots_distinct(node.outputs@) ==> forall|j: int|
            0 <= j < node.outputs@.len() ==> same_value(
                #[trigger] final(memory).values()[node.outputs@[j].0 as int],
                result->Ok_0@[j],
            ),
        forall|i: int|
            0 <= i < old(memory).values().len() && (forall|j: int|
                0 <= j < node.outputs@.len() ==> (#[trigger] node.outputs@[j]).0 != i) ==> final(memory).values()[i]
                == old(memory).values()[i],
{
    let ghost v0 = memory.values();
    match result {
        Ok(values) => {
            if values.len() == node.outputs.len() {
                let ghost vs = values@;
                let mut j: usize = 0;
                while j < values.len()
                    invariant
                        j <= vs.len(),
                        vs == values@,
                        vs.len() == node.outputs@.len(),
                        forall|q: int| 0 <= q < node.outputs@.len() ==> (#[trigger] node.outputs@[q]).0 < v0.len(),
                        memory.values().len() == v0.len(),
                        values_same(memory.values(), written_values(v0, node.outputs@, vs, j as nat)),
                        forall|i: int|
                            0 <= i < v0.len() && (forall|q: int| 0 <= q < j ==> (#[trigger] node.outputs@[q]).0 != i)
                                ==> memory.values()[i] == v0[i],
                        memory.states() == old(memory).states(),
                        record.diagnostics@ == old(record).diagnostics@,
                        samples_appended(old(record).samples@, record.samples@, exec_id, node.outputs@.take(j as int), vs, tick),
                    decreases vs.len() - j,
                {
                    let slot = node.outputs[j];
                    proof {
                        lemma_written_values(v0, node.outputs@, vs, j as nat);
                    }
                    memory.set_value(slot, values[j].clone());
                    proof {
                        let w = written_values(v0, node.outputs@, vs, (j + 1) as nat);
                        assert(w == written_values(v0, node.outputs@, vs, j as nat).update(slot.0 as int, vs[j as int]));
                        assert(values_same(memory.values(), w));
                    }
                    let ghost samples_before = record.samples@;
                    record.samples.push(
                        RunSample { exec_node: exec_id, output_slot: slot, value: values[j].clone(), logical_tick: tick },
                    );
                    proof {
                        let t = node.outputs@.take(j + 1);
                        assert(record.samples@.len() == samples_before.len() + 1);
                        assert forall|i: int| 0 <= i < old(record).samples@.len() implies record.samples@[i] == old(
                            record,
                        ).samples@[i] by {
                            assert(record.samples@[i] == samples_before[i]);
                        }
                        assert forall|q: int| #![trigger t[q]] 0 <= q < t.len() implies sample_is(
                            record.samples@[old(record).samples@.len() + q],
                            exec_id,
                            t[q],
                            vs[q],
                            tick,
                        ) by {
                            if q == j {
                                assert(record.samples@[old(record).samples@.len() + q] == record.samples@.last());
                            } else {
                                let t0 = node.outputs@.take(j as int);
                                assert(t0[q] == t[q]);
                                assert(record.samples@[old(record).samples@.len() + q] == samples_before[old(
                                    record,
                                ).samples@.len() + q]);
                                assert(sample_is(samples_before[old(record).samples@.len() + q], exec_id, t0[q], vs[q], tick));
                            }
                        }
                    }
                    proof {
                        let t = node.outputs@.take(j + 1);
                        assert(record.samples@.len() == old(record).samples@.len() + t.len());
                        assert(samples_appended(old(record).samples@, record.samples@, exec_id, t, vs, tick));
                    }
                    j = j + 1;
                }
                proof {
                    assert(node.outputs@.take(vs.len() as int) =~= node.outputs@);
                    lemma_written_values(v0, node.outputs@, vs, vs.len());
                }
                true
            } else {
                let a = with_decimal("node produced ", values.len() as u64, " output(s), expected ");
                let message = with_decimal(a.as_str(), node.outputs.len() as u64, "");
                proof {
                    reveal_strlit("");
                    assert(message@ =~= count_message(values@.len(), node.outputs@.len()));
                }
                record.diagnostics.push(RunDiagnostic { exec_node: exec_id, message });
                proof {
                    assert(record.diagnostics@.drop_last() =~= old(record).diagnostics@);
                }
                false
            }
        },
        Err(message) => {
            record.diagnostics.push(RunDiagnostic { exec_node: exec_id, message });
            proof {
                assert(record.diagnostics@.drop_last() =~= old(record).diagnostics@);
            }
            false
        },
    }
}


/// The states after node `node` leaves `state` over its state slots
/// `range`: a list with one value per slot replaces them; a list of another
/// length leaves the states as they were.
pub open spec fn restored_states(states: Seq<RuntimeValue>, range: (usize, usize), state: Seq<RuntimeValue>) -> Seq<
    RuntimeValue,
> {
    if state.len() == range.1 - range.0 {
        states.subrange(0, range.0 as int) + state + states.subrange(range.1 as int, states.len() as int)
    } else {
        states
    }
}

/// Whether running node `node` (execution id `id`) with outcome `run` at
/// tick `tick` takes memory `m0` and record `r0` to `m1` and `r1`: a failed
/// input adds one diagnostic with its message and changes nothing else; a
/// run writes the state it left back, then its result is handled as
/// [`result_applied`] says.
pub open spec fn node_ran(
    m0: AlchemistMemory,
    r0: RunRecord,
    node: CompiledExecNode,
    id: ExecNodeId,
    run: NodeRun,
    tick: u64,
    m1: AlchemistMemory,
    r1: RunRecord,
) -> bool {
    match run {
        NodeRun::InputFailed(message) => {
            &&& m1.values() == m0.values()
            &&& m1.states() == m0.states()
            &&& r1.samples@ == r0.samples@
            &&& r1.diagnostics@ == r0.diagnostics@.push(RunDiagnostic { exec_node: id, message })
        },
        NodeRun::Ran { inputs, result, state } => result_applied(
            m0.values(),
            restored_states(m0.states(), node.state_range, state@),
            r0,
            node,
            id,
            result,
            tick,
            m1.values(),
            m1.states(),
            r1,
        ),
    }
}

/// Whether a node's output slots and state slots lie within `nv` value
/// slots and `ns` state slots.
pub open spec fn node_fits(node: CompiledExecNode, nv: nat, ns: nat) -> bool {
    &&& forall|j: int| 0 <= j < node.outputs@.len() ==> (#[trigger] node.outputs@[j]).0 < nv
    &&& node.state_range.0 <= node.state_range.1 <= ns
}

/// Whether every entry of the run order of `compiled` is one of its nodes
/// and the memory has every slot its nodes write.
pub open spec fn run_fits(compiled: CompiledAlchemistGraph, memory: AlchemistMemory) -> bool {
    &&& forall|k: int|
        0 <= k < compiled.topo_order@.len() ==> (#[trigger] compiled.topo_order@[k]).0 < compiled.exec_nodes@.len()
    &&& forall|i: int|
        0 <= i < compiled.exec_nodes@.len() ==> node_fits(
            #[trigger] compiled.exec_nodes@[i],
            memory.values().len(),
            memory.states().len(),
        )
}

/// Whether, as the node at position `k` of the run order of `compiled`,
/// the node is given memory `m0` and state copy `g`, `eval` may give `run`
/// for them, and the step takes `m0` and `r0` to `m1` and `r1` as
/// [`node_ran`] says.
pub open spec fn trace_step<F: Fn(ExecNodeId, &AlchemistMemory, Vec<RuntimeValue>) -> NodeRun>(
    compiled: CompiledAlchemistGraph,
    eval: F,
    tick: u64,
    k: int,
    m0: AlchemistMemory,
    r0: RunRecord,
    g: Vec<RuntimeValue>,
    run: NodeRun,
    m1: AlchemistMemory,
    r1: RunRecord,
) -> bool {
    let id = compiled.topo_order@[k];
    let node = compiled.exec_nodes@[id.0 as int];
    &&& values_same(g@, m0.states().subrange(node.state_range.0 as int, node.state_range.1 as int))
    &&& eval_gave(eval, id, m0, g, run)
    &&& node_ran(m0, r0, node, id, run, tick, m1, r1)
}

/// Whether `eval` may give `run` for node `id`, memory `memory` and state
/// copy `state`.
pub open spec fn eval_gave<F: Fn(ExecNodeId, &AlchemistMemory, Vec<RuntimeValue>) -> NodeRun>(
    eval: F,
    id: ExecNodeId,
    memory: AlchemistMemory,
    state: Vec<RuntimeValue>,
    run: NodeRun,
) -> bool {
    call_ensures(eval, (id, &memory, state), run)
}

/// Whether `mems` and `recs` are the memory and the record before each of
/// the first `runs.len()` nodes of the run order of `compiled` and after
/// the last: node `k` is given the memory and a copy of its state slots
/// (`given[k]`), `runs[k]` is an outcome that `eval` may give for them,
/// and the step is as [`node_ran`] says.
pub open spec fn run_trace<F: Fn(ExecNodeId, &AlchemistMemory, Vec<RuntimeValue>) -> NodeRun>(
    compiled: CompiledAlchemistGraph,
    eval: F,
    tick: u64,
    mems: Seq<AlchemistMemory>,
    recs: Seq<RunRecord>,
    runs: Seq<NodeRun>,
    given: Seq<Vec<RuntimeValue>>,
) -> bool {
    &&& mems.len() == runs.len() + 1
    &&& recs.len() == runs.len() + 1
    &&& given.len() == runs.len()
    &&& runs.len() <= compiled.topo_order@.len()
    &&& forall|k: int|
        #![trigger runs[k]]
        0 <= k < runs.len() ==> trace_step(compiled, eval, tick, k, mems[k], recs[k], given[k], runs[k], mems[k + 1], recs[k + 1])
}

/// Whether the memory has the slots that the nodes of `compiled` read and
/// write (see [`run_fits`]).
pub fn memory_fits(compiled: &CompiledAlchemistGraph, memory: &AlchemistMemory) -> (r: bool)
    ensures
        r == run_fits(*compiled, *memory),
{
    let n = compiled.exec_nodes.len();
    let mut k: usize = 0;
    while k < compiled.topo_order.len()
        invariant
            k <= compiled.topo_order@.len(),
            n == compiled.exec_nodes@.len(),
            forall|q: int| 0 <= q < k ==> (#[trigger] compiled.topo_order@[q]).0 < n,
        decreases compiled.topo_order@.len() - k,
    {
        if compiled.topo_order[k].0 as usize >= n {
            return false;
        }
        k = k + 1;
    }
    let nv = memory.value_len();
    let ns = memory.state_len();
    let mut i: usize = 0;
    while i < n
        invariant
            i <= n,
            n == compiled.exec_nodes@.len(),
            nv == memory.values().len(),
            ns == memory.states().len(),
            forall|q: int| 0 <= q < compiled.topo_order@.len() ==> (#[trigger] compiled.topo_order@[q]).0 < n,
            forall|q: int| 0 <= q < i ==> node_fits(#[trigger] compiled.exec_nodes@[q], nv as nat, ns as nat),
        decreases n - i,
    {
        let node = &compiled.exec_nodes[i];
        if !(node.state_range.0 <= node.state_range.1 && node.state_range.1 <= ns) {
            proof {
                assert(!node_fits(compiled.exec_nodes@[i as int], nv as nat, ns as nat));
            }
            return false;
        }
        let mut j: usize = 0;
        while j < node.outputs.len()
            invariant
                i < n,
                n == compiled.exec_nodes@.len(),
                *node == compiled.exec_nodes@[i as int],
                nv == memory.values().len(),
                ns == memory.states().len(),
                node.state_range.0 <= node.state_range.1 <= ns,
                forall|q: int| 0 <= q < compiled.topo_order@.len() ==> (#[trigger] compiled.topo_order@[q]).0 < n,
                forall|q: int| 0 <= q < i ==> node_fits(#[trigger] compiled.exec_nodes@[q], nv as nat, ns as nat),
                j <= node.outputs@.len(),
                forall|q: int| 0 <= q < j ==> (#[trigger] node.outputs@[q]).0 < nv,
            decreases node.outputs@.len() - j,
        {
            if node.outputs[j].0 as usize >= nv {
                proof {
                    assert(!node_fits(compiled.exec_nodes@[i as int], nv as nat, ns as nat));
                }
                return false;
            }
            j = j + 1;
        }
        i = i + 1;
    }
    true
}

/// Runs every node of `compiled` once, in its run order, at tick `tick`.
/// For each node, `eval` is given the node's execution id, the memory and
/// a copy of the node's state slots, and reads the inputs and runs the
/// operation. A failed input gives a diagnostic and the node is skipped.
/// Otherwise the state the node left is written back, and its result is
/// handled as [`apply_node_result`] does; when the outputs are written and
/// the node logs, `log` is given the node's execution id, its inputs and
/// its outputs.
pub fn run_compiled_graph<F, G>(
    compiled: &CompiledAlchemistGraph,
    memory: &mut AlchemistMemory,
    tick: u64,
    eval: F,
    log: G,
    record: &mut RunRecord,
) where
    F: Fn(ExecNodeId, &AlchemistMemory, Vec<RuntimeValue>) -> NodeRun,
    G: Fn(ExecNodeId, &Vec<RuntimeValue>, &Vec<RuntimeValue>),

    requires
        run_fits(*compiled, *old(memory)),
        forall|id: ExecNodeId, m: &AlchemistMemory, st: Vec<RuntimeValue>| call_requires(eval, (id, m, st)),
        forall|id: ExecNodeId, a: &Vec<RuntimeValue>, b: &Vec<RuntimeValue>| call_requires(log, (id, a, b)),
    ensures
        exists|mems: Seq<AlchemistMemory>, recs: Seq<RunRecord>, runs: Seq<NodeRun>, given: Seq<Vec<RuntimeValue>>|
            {
                &&& #[trigger] run_trace(*compiled, eval, tick, mems, recs, runs, given)
                &&& runs.len() == compiled.topo_order@.len()
                &&& mems[0] == *old(memory)
                &&& recs[0] == *old(record)
                &&& mems.last() == *final(memory)
                &&& recs.last() == *final(record)
            },
        final(memory).values().len() == old(memory).values().len(),
        final(memory).states().len() == old(memory).states().len(),
{
    let ghost mut mems: Seq<AlchemistMemory> = seq![*memory];
    let ghost mut recs: Seq<RunRecord> = seq![*record];
    let ghost mut runs: Seq<NodeRun> = Seq::empty();
    let ghost mut given: Seq<Vec<RuntimeValue>> = Seq::empty();
    let ghost nv = memory.values().len();
    let ghost ns = memory.states().len();
    let mut k: usize = 0;
    while k < compiled.topo_order.len()
        invariant
            k <= compiled.topo_order@.len(),
            run_fits(*compiled, *old(memory)),
            nv == old(memory).values().len(),
            ns == old(memory).states().len(),
            memory.values().len() == nv,
            memory.states().len() == ns,
            forall|id: ExecNodeId, m: &AlchemistMemory, st: Vec<RuntimeValue>| call_requires(eval, (id, m, st)),
            forall|id: ExecNodeId, a: &Vec<RuntimeValue>, b: &Vec<RuntimeValue>| call_requires(log, (id, a, b)),
            run_trace(*compiled, eval, tick, mems, recs, runs, given),
            runs.len() == k,
            mems[0] == *old(memory),
            recs[0] == *old(record),
            mems.last() == *memory,
            recs.last() == *record,
        decreases compiled.topo_order@.len() - k,
    {
        let id = compiled.topo_order[k];
        assert(id.0 < compiled.exec_nodes@.len());
        let node = &compiled.exec_nodes[id.0 as usize];
        assert(node_fits(*node, nv, ns));
        let start = node.state_range.0;
        let end = node.state_range.1;
        let ghost m0 = *memory;
        let ghost r0 = *record;
        let copy = memory.state_slice(start, end);
        let ghost g = copy;
        let run = eval(id, &*memory, copy);
        let ghost outcome = run;
        match run {
            NodeRun::InputFailed(message) => {
                record.diagnostics.push(RunDiagnostic { exec_node: id, message });
            },
            NodeRun::Ran { inputs, result, state } => {
                if state.len() == end - start {
                    memory.set_states(start, state);
                }
                proof {
                    assert(memory.states() =~= restored_states(m0.states(), node.state_range, state@));
                }
                let logged = if node.log_enabled {
                    match &result {
                        Ok(values) => Some(copy_values(values)),
                        Err(_) => None,
                    }
                } else {
                    None
                };
                let written = apply_node_result(memory, node, id, result, tick, record);
                if written {
                    match logged {
                        Some(outputs) => log(id, &inputs, &outputs),
                        None => {},
                    }
                }
            },
        }
        proof {
            assert(given.len() == runs.len());
            assert(values_same(g@, m0.states().subrange(start as int, end as int)));
            assert(eval_gave(eval, id, m0, g, outcome));
            let mems2 = mems.push(*memory);
            let recs2 = recs.push(*record);
            let runs2 = runs.push(outcome);
            let given2 = given.push(g);
            assert(node_ran(m0, r0, *node, id, outcome, tick, *memory, *record));
            assert(trace_step(*compiled, eval, tick, k as int, m0, r0, g, outcome, *memory, *record));
            assert forall|q: int| #![trigger runs2[q]] 0 <= q < runs2.len() implies trace_step(
                *compiled,
                eval,
                tick,
                q,
                mems2[q],
                recs2[q],
                given2[q],
                runs2[q],
                mems2[q + 1],
                recs2[q + 1],
            ) by {
                if q == runs.len() {
                    assert(mems2[q] == m0 && recs2[q] == r0 && given2[q] == g && runs2[q] == outcome);
                    assert(mems2[q + 1] == *memory && recs2[q + 1] == *record);
                } else {
                    assert(runs2[q] == runs[q]);
                    assert(mems2[q] == mems[q] && mems2[q + 1] == mems[q + 1]);
                    assert(recs2[q] == recs[q] && recs2[q + 1] == recs[q + 1]);
                    assert(given2[q] == given[q]);
                }
            }
            mems = mems2;
            recs = recs2;
            runs = runs2;
            given = given2;
        }
        k = k + 1;
    }
}

} // verus!
