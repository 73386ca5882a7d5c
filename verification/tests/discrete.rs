use golden_alchemist::compile::{CompiledFormulaPropertySchema, DisabledOutput};
use golden_alchemist::discrete::{disabled_values, evaluate_discrete_operation, DiscreteOperation};
use golden_alchemist::frame::RuntimePropertyFrame;
use golden_alchemist::ids::{ExecNodeId, FormulaPropertySlotId};
use golden_alchemist::value::{RuntimeValue, TriggerValue};

fn no_properties() -> RuntimePropertyFrame {
    RuntimePropertyFrame::from_defaults(&CompiledFormulaPropertySchema::new())
}

fn run(
    op: DiscreteOperation,
    inputs: Vec<RuntimeValue>,
    state: &mut Vec<RuntimeValue>,
) -> Result<(Vec<RuntimeValue>, Option<RuntimeValue>), String> {
    evaluate_discrete_operation(&op, &inputs, state, &no_properties(), ExecNodeId::new(4), 9)
}

#[test]
fn boolean_operations_combine_their_inputs() {
    let mut state = Vec::new();
    let and = run(DiscreteOperation::BoolAnd, vec![RuntimeValue::Bool(true), RuntimeValue::Bool(false)], &mut state);
    assert_eq!(and.unwrap().0, vec![RuntimeValue::Bool(false)]);
    let or = run(DiscreteOperation::BoolOr, vec![RuntimeValue::Bool(true), RuntimeValue::Bool(false)], &mut state);
    assert_eq!(or.unwrap().0, vec![RuntimeValue::Bool(true)]);
    let not = run(DiscreteOperation::BoolNot, vec![RuntimeValue::Bool(true)], &mut state);
    assert_eq!(not.unwrap().0, vec![RuntimeValue::Bool(false)]);
}

#[test]
fn boolean_operations_refuse_wrong_inputs() {
    let mut state = Vec::new();
    let count = run(DiscreteOperation::BoolAnd, vec![RuntimeValue::Bool(true)], &mut state);
    assert_eq!(count.unwrap_err(), "node expects 2 input(s)");
    let kind = run(DiscreteOperation::BoolNot, vec![RuntimeValue::Int(1)], &mut state);
    assert_eq!(kind.unwrap_err(), "node expects boolean inputs");
}

#[test]
fn edge_fires_only_when_its_input_rises() {
    let mut state = vec![RuntimeValue::Unit];
    let first = run(DiscreteOperation::Edge, vec![RuntimeValue::Bool(true)], &mut state).unwrap().0;
    assert_eq!(
        first,
        vec![RuntimeValue::Trigger(TriggerValue { fired: true, edge_id: 4, logical_tick: 9 })]
    );
    assert_eq!(state, vec![RuntimeValue::Bool(true)]);
    let second = run(DiscreteOperation::Edge, vec![RuntimeValue::Bool(true)], &mut state).unwrap().0;
    assert_eq!(
        second,
        vec![RuntimeValue::Trigger(TriggerValue { fired: false, edge_id: 4, logical_tick: 9 })]
    );
}

#[test]
fn gate_passes_a_trigger_while_open() {
    let mut state = Vec::new();
    let trigger = RuntimeValue::Trigger(TriggerValue { fired: true, edge_id: 1, logical_tick: 2 });
    let open = run(DiscreteOperation::Gate, vec![trigger.clone(), RuntimeValue::Bool(true)], &mut state);
    assert_eq!(open.unwrap().0, vec![trigger.clone()]);
    let closed = run(DiscreteOperation::Gate, vec![trigger.clone(), RuntimeValue::Bool(false)], &mut state);
    assert_eq!(
        closed.unwrap().0,
        vec![RuntimeValue::Trigger(TriggerValue { fired: false, edge_id: 1, logical_tick: 2 })]
    );
    let wrong = run(DiscreteOperation::Gate, vec![RuntimeValue::Bool(true), RuntimeValue::Bool(true)], &mut state);
    assert_eq!(wrong.unwrap_err(), "Gate expects a trigger input");
}

#[test]
fn delay_keeps_its_input_and_debug_log_asks_for_it() {
    let mut state = vec![RuntimeValue::Unit];
    let delayed = run(DiscreteOperation::DelayOneTick, vec![RuntimeValue::Int(7)], &mut state).unwrap().0;
    assert_eq!(delayed, vec![RuntimeValue::Int(7)]);
    assert_eq!(state, vec![RuntimeValue::Int(7)]);
    let logged = run(DiscreteOperation::DebugLog, vec![RuntimeValue::Int(3)], &mut state).unwrap();
    assert_eq!(logged.0, Vec::<RuntimeValue>::new());
    assert_eq!(logged.1, Some(RuntimeValue::Int(3)));
}

#[test]
fn constants_and_missing_property_slots() {
    let mut state = Vec::new();
    let constant = run(DiscreteOperation::Constant(RuntimeValue::Int(5)), Vec::new(), &mut state).unwrap().0;
    assert_eq!(constant, vec![RuntimeValue::Int(5)]);
    let missing = run(DiscreteOperation::ReadProperty(FormulaPropertySlotId(2)), Vec::new(), &mut state);
    assert_eq!(missing.unwrap_err(), "property slot 2 is unavailable");
}

#[test]
fn disabled_nodes_pass_inputs_through_or_give_defaults() {
    let outputs = vec![
        DisabledOutput { input_index: Some(0), default_value: RuntimeValue::Int(0) },
        DisabledOutput { input_index: Some(5), default_value: RuntimeValue::Int(1) },
        DisabledOutput { input_index: None, default_value: RuntimeValue::Bool(true) },
    ];
    let values = disabled_values(&outputs, &vec![RuntimeValue::Int(9)]);
    assert_eq!(values, vec![RuntimeValue::Int(9), RuntimeValue::Int(1), RuntimeValue::Bool(true)]);
}
