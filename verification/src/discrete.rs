//! The operations of a run that need no floating point: constants,
//! property reads, boolean logic, rising edges, gates, one-tick delays,
//! debug logging, and the outputs of disabled nodes.
use vstd::prelude::*;

use crate::compile::DisabledOutput;
use crate::frame::RuntimePropertyFrame;
use crate::ids::{ExecNodeId, FormulaPropertySlotId};
use crate::text::{decimal_text, with_decimal};
use crate::value::{same_value, RuntimeValue, TriggerValue};

verus! {

/// An operation of a compiled node that needs no floating point.
#[derive(Debug)]
pub enum DiscreteOperation {
    /// Gives a fixed value.
    Constant(RuntimeValue),
    /// Gives the value of a property slot.
    ReadProperty(FormulaPropertySlotId),
    BoolAnd,
    BoolOr,
    BoolNot,
    /// Fires when its boolean input rises; remembers the input in its state.
    Edge,
    /// Passes a trigger through while its boolean input is open.
    Gate,
    /// Gives its input; keeps it in its state.
    DelayOneTick,
    /// Gives nothing and asks for its input to be logged.
    DebugLog,
}

/// Two lists of values hold the same values, position by position.
pub open spec fn same_values(a: Seq<RuntimeValue>, b: Seq<RuntimeValue>) -> bool {
    &&& a.len() == b.len()
    &&& forall|i: int| 0 <= i < a.len() ==> same_value(#[trigger] a[i], b[i])
}

/// The message for a node given the wrong number of inputs.
pub open spec fn expects_inputs_text(n: nat) -> Seq<char> {
    "node expects "@ + decimal_text(n) + " input(s)"@
}

/// The `n` boolean inputs: refused when there are not exactly `n` inputs,
/// or when one of them is not a boolean.
pub open spec fn bools_spec(inputs: Seq<RuntimeValue>, n: nat) -> Result<Seq<bool>, Seq<char>> {
    if inputs.len() != n {
        Err(expects_inputs_text(n))
    } else if exists|i: int| 0 <= i < n && !(#[trigger] inputs[i] is Bool) {
        Err("node expects boolean inputs"@)
    } else {
        Ok(Seq::new(n, |i: int| inputs[i]->Bool_0))
    }
}

/// The outcome of running `op` on `inputs` with state `state`, the
/// properties `props`, as node `exec` at tick `tick`: the outputs and the
/// value to log, or the reason for refusing; and the new state.
pub open spec fn discrete_operation_spec(
    op: DiscreteOperation,
    inputs: Seq<RuntimeValue>,
    state: Seq<RuntimeValue>,
    props: Seq<RuntimeValue>,
    exec: ExecNodeId,
    tick: u64,
) -> (Result<(Seq<RuntimeValue>, Option<RuntimeValue>), Seq<char>>, Seq<RuntimeValue>) {
    match op {
        DiscreteOperation::Constant(v) => (Ok((seq![v], None)), state),
        DiscreteOperation::ReadProperty(slot) => if slot.0 < props.len() {
            (Ok((seq![props[slot.0 as int]], None)), state)
        } else {
            (Err("property slot "@ + decimal_text(slot.0 as nat) + " is unavailable"@), state)
        },
        DiscreteOperation::BoolAnd => match bools_spec(inputs, 2) {
            Err(m) => (Err(m), state),
            Ok(b) => (Ok((seq![RuntimeValue::Bool(b[0] && b[1])], None)), state),
        },
        DiscreteOperation::BoolOr => match bools_spec(inputs, 2) {
            Err(m) => (Err(m), state),
            Ok(b) => (Ok((seq![RuntimeValue::Bool(b[0] || b[1])], None)), state),
        },
        DiscreteOperation::BoolNot => match bools_spec(inputs, 1) {
            Err(m) => (Err(m), state),
            Ok(b) => (Ok((seq![RuntimeValue::Bool(!b[0])], None)), state),
        },
        DiscreteOperation::Edge => match bools_spec(inputs, 1) {
            Err(m) => (Err(m), state),
            Ok(b) => {
                let previous = state.len() > 0 && state[0] == RuntimeValue::Bool(true);
                let next = if state.len() > 0 {
                    state.update(0, RuntimeValue::Bool(b[0]))
                } else {
                    state
                };
                (
                    Ok(
                        (
                            seq![
                                RuntimeValue::Trigger(
                                    TriggerValue { fired: b[0] && !previous, edge_id: exec.0 as u64, logical_tick: tick },
                                ),
                            ],
                            None,
                        ),
                    ),
                    next,
                )
            },
        },
        DiscreteOperation::Gate => if inputs.len() != 2 {
            (Err(expects_inputs_text(2)), state)
        } else {
            match inputs[0] {
                RuntimeValue::Trigger(t) => match inputs[1] {
                    RuntimeValue::Bool(open) => (
                        Ok(
                            (
                                seq![
                                    RuntimeValue::Trigger(
                                        TriggerValue {
                                            fired: t.fired && open,
                                            edge_id: t.edge_id,
                                            logical_tick: t.logical_tick,
                                        },
                                    ),
                                ],
                                None,
                            ),
                        ),
                        state,
                    ),
                    _ => (Err("Gate expects a boolean open input"@), state),
                },
                _ => (Err("Gate expects a trigger input"@), state),
            }
        },
        DiscreteOperation::DelayOneTick => if inputs.len() != 1 {
            (Err(expects_inputs_text(1)), state)
        } else {
            (
                Ok((seq![inputs[0]], None)),
                if state.len() > 0 {
                    state.update(0, inputs[0])
                } else {
                    state
                },
            )
        },
        DiscreteOperation::DebugLog => if inputs.len() != 1 {
            (Err(expects_inputs_text(1)), state)
        } else {
            (Ok((Seq::empty(), Some(inputs[0]))), state)
        },
    }
}

/// A gate passes its trigger on, with the trigger's edge and tick; the
/// trigger it gives has fired when both the incoming trigger has fired and
/// the open flag holds; in every other case it has not fired.
/// The node's state stays as it was.
pub proof fn law_gate_passes_fired_trigger(
    t: TriggerValue,
    open: bool,
    state: Seq<RuntimeValue>,
    props: Seq<RuntimeValue>,
    exec: ExecNodeId,
    tick: u64,
)
    ensures
        ({
            let (out, next) = discrete_operation_spec(
                DiscreteOperation::Gate,
                seq![RuntimeValue::Trigger(t), RuntimeValue::Bool(open)],
                state,
                props,
                exec,
                tick,
            );
            &&& next == state
            &&& out is Ok
            &&& out->Ok_0.1 is None
            &&& out->Ok_0.0.len() == 1
            &&& out->Ok_0.0[0] is Trigger
            &&& {
                let g = out->Ok_0.0[0]->Trigger_0;
                &&& g.fired == (t.fired && open)
                &&& !t.fired ==> !g.fired
                &&& !open ==> !g.fired
                &&& g.edge_id == t.edge_id
                &&& g.logical_tick == t.logical_tick
            }
        }),
{
    let inputs = seq![RuntimeValue::Trigger(t), RuntimeValue::Bool(open)];
    assert(inputs.len() == 2);
    assert(inputs[0] == RuntimeValue::Trigger(t));
    assert(inputs[1] == RuntimeValue::Bool(open));
}

/// Boolean operations on two booleans `a`, `b` (one for `BoolNot`) give
/// one boolean, the conjunction, disjunction or negation, and keep the
/// state.
pub proof fn law_boolean_operations(
    a: bool,
    b: bool,
    state: Seq<RuntimeValue>,
    props: Seq<RuntimeValue>,
    exec: ExecNodeId,
    tick: u64,
)
    ensures
        discrete_operation_spec(
            DiscreteOperation::BoolAnd,
            seq![RuntimeValue::Bool(a), RuntimeValue::Bool(b)],
            state,
            props,
            exec,
            tick,
        ) == (Ok::<(Seq<RuntimeValue>, Option<RuntimeValue>), Seq<char>>((seq![RuntimeValue::Bool(a && b)], None)), state),
        discrete_operation_spec(
            DiscreteOperation::BoolOr,
            seq![RuntimeValue::Bool(a), RuntimeValue::Bool(b)],
            state,
            props,
            exec,
            tick,
        ) == (Ok::<(Seq<RuntimeValue>, Option<RuntimeValue>), Seq<char>>((seq![RuntimeValue::Bool(a || b)], None)), state),
        discrete_operation_spec(DiscreteOperation::BoolNot, seq![RuntimeValue::Bool(a)], state, props, exec, tick) == (
            Ok::<(Seq<RuntimeValue>, Option<RuntimeValue>), Seq<char>>((seq![RuntimeValue::Bool(!a)], None)),
            state,
        ),
{
    let two = seq![RuntimeValue::Bool(a), RuntimeValue::Bool(b)];
    assert(bools_spec(two, 2) == Ok::<Seq<bool>, Seq<char>>(seq![a, b])) by {
        assert(two[0] is Bool && two[1] is Bool);
        assert(Seq::new(2, |i: int| two[i]->Bool_0) =~= seq![a, b]);
    }
    let one = seq![RuntimeValue::Bool(a)];
    assert(bools_spec(one, 1) == Ok::<Seq<bool>, Seq<char>>(seq![a])) by {
        assert(one[0] is Bool);
        assert(Seq::new(1, |i: int| one[i]->Bool_0) =~= seq![a]);
    }
}

/// An edge detector with input `v` and a remembered previous input fires
/// exactly when `v` is true and the previous input was not, with its own
/// execution id as the edge and the current tick; it then remembers `v`.
pub proof fn law_edge_fires_on_rise(
    v: bool,
    previous: bool,
    rest: Seq<RuntimeValue>,
    props: Seq<RuntimeValue>,
    exec: ExecNodeId,
    tick: u64,
)
    ensures
        ({
            let state = seq![RuntimeValue::Bool(previous)] + rest;
            let (out, next) = discrete_operation_spec(
                DiscreteOperation::Edge,
                seq![RuntimeValue::Bool(v)],
                state,
                props,
                exec,
                tick,
            );
            &&& next == seq![RuntimeValue::Bool(v)] + rest
            &&& out == Ok::<(Seq<RuntimeValue>, Option<RuntimeValue>), Seq<char>>(
                (
                    seq![
                        RuntimeValue::Trigger(
                            TriggerValue { fired: v && !previous, edge_id: exec.0 as u64, logical_tick: tick },
                        ),
                    ],
                    None,
                ),
            )
        }),
{
    let one = seq![RuntimeValue::Bool(v)];
    assert(bools_spec(one, 1) == Ok::<Seq<bool>, Seq<char>>(seq![v])) by {
        assert(one[0] is Bool);
        assert(Seq::new(1, |i: int| one[i]->Bool_0) =~= seq![v]);
    }
    let state = seq![RuntimeValue::Bool(previous)] + rest;
    assert(state[0] == RuntimeValue::Bool(previous));
    assert(state.update(0, RuntimeValue::Bool(v)) =~= seq![RuntimeValue::Bool(v)] + rest);
}

/// A one-tick delay gives its input now and remembers it in its first
/// state slot.
pub proof fn law_delay_gives_and_keeps_input(
    x: RuntimeValue,
    held: RuntimeValue,
    rest: Seq<RuntimeValue>,
    props: Seq<RuntimeValue>,
    exec: ExecNodeId,
    tick: u64,
)
    ensures
        discrete_operation_spec(DiscreteOperation::DelayOneTick, seq![x], seq![held] + rest, props, exec, tick) == (
            Ok::<(Seq<RuntimeValue>, Option<RuntimeValue>), Seq<char>>((seq![x], None)),
            seq![x] + rest,
        ),
{
    assert((seq![held] + rest).update(0, x) =~= seq![x] + rest);
    assert(seq![x][0] == x);
}

/// Whether an outcome `r` and new state `state` are `expected`, values
/// compared as [`same_value`] does.
pub open spec fn outcome_is(
    r: Result<(Vec<RuntimeValue>, Option<RuntimeValue>), String>,
    state: Seq<RuntimeValue>,
    expected: (Result<(Seq<RuntimeValue>, Option<RuntimeValue>), Seq<char>>, Seq<RuntimeValue>),
) -> bool {
    &&& same_values(state, expected.1)
    &&& match (r, expected.0) {
        (Ok((v, l)), Ok((ev, el))) => same_values(v@, ev) && match (l, el) {
            (None, None) => true,
            (Some(x), Some(y)) => same_value(x, y),
            _ => false,
        },
        (Err(m), Err(em)) => m@ == em,
        _ => false,
    }
}

/// The message for a node given the wrong number of inputs.
fn expects_inputs(n: u64) -> (r: String)
    ensures
        r@ == expects_inputs_text(n as nat),
{
    with_decimal("node expects ", n, " input(s)")
}

/// The `n` boolean inputs, as [`bools_spec`] says.
fn bool_inputs(inputs: &Vec<RuntimeValue>, n: usize) -> (r: Result<Vec<bool>, String>)
    requires
        n <= 2,
    ensures
        match (r, bools_spec(inputs@, n as nat)) {
            (Ok(b), Ok(eb)) => b@ == eb,
            (Err(m), Err(em)) => m@ == em,
            _ => false,
        },
{
    if inputs.len() != n {
        return Err(expects_inputs(n as u64));
    }
    let mut out: Vec<bool> = Vec::new();
    let mut i: usize = 0;
    while i < n
        invariant
            i <= n,
            inputs@.len() == n,
            out@.len() == i,
            forall|j: int| 0 <= j < i ==> (#[trigger] inputs@[j]) is Bool && out@[j] == inputs@[j]->Bool_0,
        decreases n - i,
    {
        match &inputs[i] {
            RuntimeValue::Bool(b) => out.push(*b),
            _ => {
                proof {
                    assert(!(inputs@[i as int] is Bool));
                }
                return Err("node expects boolean inputs".to_owned());
            },
        }
        i = i + 1;
    }
    proof {
        assert(out@ =~= Seq::new(n as nat, |j: int| inputs@[j]->Bool_0));
    }
    Ok(out)
}

/// Runs `op` on `inputs` and `state`, with the properties `properties`, as
/// node `exec` at tick `logical_tick`: the outputs and, for a debug log,
/// the value to log; or why the inputs are refused. Updates `state` as the
/// operation keeps it.
pub fn evaluate_discrete_operation(
    op: &DiscreteOperation,
    inputs: &Vec<RuntimeValue>,
    state: &mut Vec<RuntimeValue>,
    properties: &RuntimePropertyFrame,
    exec: ExecNodeId,
    logical_tick: u64,
) -> (r: Result<(Vec<RuntimeValue>, Option<RuntimeValue>), String>)
    ensures
        outcome_is(
            r,
            final(state)@,
            discrete_operation_spec(*op, inputs@, old(state)@, properties.values(), exec, logical_tick),
        ),
{
    proof {
        assert(same_values(state@, state@));
    }
    match op {
        DiscreteOperation::Constant(v) => {
            let c = v.clone();
            let out = vec![c];
            proof {
                assert(same_values(out@, seq![*v]));
            }
            Ok((out, None))
        },
        DiscreteOperation::ReadProperty(slot) => match properties.get(*slot) {
            Some(v) => {
                let c = v.clone();
                let out = vec![c];
                proof {
                    assert(same_values(out@, seq![properties.values()[slot.0 as int]]));
                }
                Ok((out, None))
            },
            None => Err(with_decimal("property slot ", slot.0 as u64, " is unavailable")),
        },
        DiscreteOperation::BoolAnd => match bool_inputs(inputs, 2) {
            Err(m) => Err(m),
            Ok(b) => {
                let out = vec![RuntimeValue::Bool(b[0] && b[1])];
                proof {
                    assert(same_values(out@, seq![RuntimeValue::Bool(b@[0] && b@[1])]));
                }
                Ok((out, None))
            },
        },
        DiscreteOperation::BoolOr => match bool_inputs(inputs, 2) {
            Err(m) => Err(m),
            Ok(b) => {
                let out = vec![RuntimeValue::Bool(b[0] || b[1])];
                proof {
                    assert(same_values(out@, seq![RuntimeValue::Bool(b@[0] || b@[1])]));
                }
                Ok((out, None))
            },
        },
        DiscreteOperation::BoolNot => match bool_inputs(inputs, 1) {
            Err(m) => Err(m),
            Ok(b) => {
                let out = vec![RuntimeValue::Bool(!b[0])];
                proof {
                    assert(same_values(out@, seq![RuntimeValue::Bool(!b@[0])]));
                }
                Ok((out, None))
            },
        },
        DiscreteOperation::Edge => match bool_inputs(inputs, 1) {
            Err(m) => Err(m),
            Ok(b) => {
                let value = b[0];
                let previous = state.len() > 0 && match &state[0] {
                    RuntimeValue::Bool(x) => *x,
                    _ => false,
                };
                if state.len() > 0 {
                    state.set(0, RuntimeValue::Bool(value));
                }
                let fired = value && !previous;
                let out = vec![RuntimeValue::Trigger(TriggerValue { fired, edge_id: exec.0 as u64, logical_tick })];
                proof {
                    let t = RuntimeValue::Trigger(TriggerValue { fired, edge_id: exec.0 as u64, logical_tick });
                    assert(same_values(out@, seq![t]));
                    assert(same_values(state@, state@));
                }
                Ok((out, None))
            },
        },
        DiscreteOperation::Gate => {
            if inputs.len() != 2 {
                return Err(expects_inputs(2));
            }
            match &inputs[0] {
                RuntimeValue::Trigger(t) => match &inputs[1] {
                    RuntimeValue::Bool(open) => {
                        let g = TriggerValue { fired: t.fired && *open, edge_id: t.edge_id, logical_tick: t.logical_tick };
                        let out = vec![RuntimeValue::Trigger(g)];
                        proof {
                            assert(same_values(out@, seq![RuntimeValue::Trigger(g)]));
                        }
                        Ok((out, None))
                    },
                    _ => Err("Gate expects a boolean open input".to_owned()),
                },
                _ => Err("Gate expects a trigger input".to_owned()),
            }
        },
        DiscreteOperation::DelayOneTick => {
            if inputs.len() != 1 {
                return Err(expects_inputs(1));
            }
            let ghost old_state = state@;
            if state.len() > 0 {
                let kept = inputs[0].clone();
                state.set(0, kept);
                proof {
                    assert forall|i: int| 0 <= i < state@.len() implies same_value(
                        #[trigger] state@[i],
                        old_state.update(0, inputs@[0])[i],
                    ) by {
                        if i != 0 {
                            assert(state@[i] == old_state[i]);
                        }
                    }
                }
            }
            let out = vec![inputs[0].clone()];
            proof {
                assert(same_values(out@, seq![inputs@[0]]));
            }
            Ok((out, None))
        },
        DiscreteOperation::DebugLog => {
            if inputs.len() != 1 {
                return Err(expects_inputs(1));
            }
            let logged = inputs[0].clone();
            let out: Vec<RuntimeValue> = Vec::new();
            proof {
                assert(same_values(out@, Seq::empty()));
            }
            Ok((out, Some(logged)))
        },
    }
}

/// The outputs of a disabled node: each output passes its input through
/// where it names one that exists, else gives its default value.
pub open spec fn disabled_spec(outputs: Seq<DisabledOutput>, inputs: Seq<RuntimeValue>) -> Seq<RuntimeValue> {
    Seq::new(
        outputs.len(),
        |i: int|
            match outputs[i].input_index {
                Some(j) if j < inputs.len() => inputs[j as int],
                _ => outputs[i].default_value,
            },
    )
}

/// The outputs of a disabled node, as [`disabled_spec`] says.
pub fn disabled_values(outputs: &Vec<DisabledOutput>, inputs: &Vec<RuntimeValue>) -> (r: Vec<RuntimeValue>)
    ensures
        same_values(r@, disabled_spec(outputs@, inputs@)),
{
    let mut r: Vec<RuntimeValue> = Vec::new();
    let mut i: usize = 0;
    while i < outputs.len()
        invariant
            i <= outputs@.len(),
            r@.len() == i,
            forall|k: int| 0 <= k < i ==> same_value(#[trigger] r@[k], disabled_spec(outputs@, inputs@)[k]),
        decreases outputs@.len() - i,
    {
        let output = &outputs[i];
        let v = match output.input_index {
            Some(j) => if j < inputs.len() {
                inputs[j].clone()
            } else {
                output.default_value.clone()
            },
            None => output.default_value.clone(),
        };
        r.push(v);
        i = i + 1;
    }
    r
}

} // verus!
