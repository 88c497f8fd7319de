use snarkvm_core::execution::{
    Execution, ExecutionError, FinalizeInputs, FinalizeScope, Function, Input, Instruction, Locator,
    Output, Process, Transition,
};
use snarkvm_core::field::Field;

fn f(x: u64) -> Field {
    Field::from_u64(x)
}

fn main_locator() -> Locator {
    Locator { program_id: f(1), function_name: f(2) }
}

fn callee_locator() -> Locator {
    Locator { program_id: f(1), function_name: f(3) }
}

fn process(main_calls: usize) -> Process {
    let mut instructions = vec![Instruction::Other];
    for _ in 0..main_calls {
        instructions.push(Instruction::CallFunction);
    }
    instructions.push(Instruction::CallClosure);
    Process {
        functions: vec![
            Function {
                locator: main_locator(),
                number_of_calls: main_calls + 1,
                num_inputs: 1,
                num_outputs: 1,
                instructions,
                finalize: None,
            },
            Function {
                locator: callee_locator(),
                number_of_calls: 1,
                num_inputs: 1,
                num_outputs: 1,
                instructions: vec![Instruction::Other],
                finalize: Some(FinalizeScope { num_operands: 2, num_inputs: 2 }),
            },
        ],
        max_inputs: 16,
    }
}

fn input(elements: Vec<Field>) -> Input {
    Input { is_valid: true, verifier_inputs: elements }
}

fn output(id: Field, elements: Vec<Field>) -> Output {
    Output { is_valid: true, id, verifier_inputs: elements }
}

fn callee(base: u64) -> Transition {
    Transition {
        locator: callee_locator(),
        id: f(base),
        root: Some(f(base)),
        inputs: vec![input(vec![f(base + 1)])],
        outputs: vec![output(f(base + 2), vec![f(base + 3)])],
        tpk_x: f(base + 4),
        tpk_y: f(base + 5),
        tcm: f(base + 6),
        finalize: Some(FinalizeInputs { count: 2, checksum: f(base + 7) }),
    }
}

fn main_transition() -> Transition {
    Transition {
        locator: main_locator(),
        id: f(200),
        root: Some(f(200)),
        inputs: vec![input(vec![f(21), f(22)])],
        outputs: vec![output(f(23), vec![f(24)])],
        tpk_x: f(25),
        tpk_y: f(26),
        tcm: f(27),
        finalize: None,
    }
}

fn values(v: &[u64]) -> Vec<Field> {
    v.iter().map(|x| f(*x)).collect()
}

#[test]
fn verifier_inputs_in_fixed_order() {
    let execution = Execution { transitions: vec![callee(100), main_transition()] };
    let groups = process(1).verify_execution(&execution).unwrap();
    assert_eq!(groups.len(), 2);
    assert_eq!(groups[0].locator, main_locator());
    assert_eq!(groups[0].instances, vec![values(&[1, 25, 26, 27, 21, 22, 101, 102, 24])]);
    assert_eq!(groups[1].locator, callee_locator());
    assert_eq!(groups[1].instances, vec![values(&[1, 104, 105, 106, 101, 103, 107])]);
}

#[test]
fn verifier_inputs_grouped_by_function() {
    let execution = Execution { transitions: vec![callee(100), callee(300), main_transition()] };
    let groups = process(2).verify_execution(&execution).unwrap();
    assert_eq!(groups.len(), 2);
    assert_eq!(
        groups[0].instances,
        vec![values(&[1, 25, 26, 27, 21, 22, 101, 102, 301, 302, 24])]
    );
    assert_eq!(groups[1].locator, callee_locator());
    assert_eq!(
        groups[1].instances,
        vec![values(&[1, 304, 305, 306, 301, 303, 307]), values(&[1, 104, 105, 106, 101, 103, 107])]
    );
}

#[test]
fn transition_inputs_of_one_transition() {
    let ts = vec![callee(100), main_transition()];
    assert_eq!(process(1).transition_inputs(&ts, 0), Ok(values(&[1, 104, 105, 106, 101, 103, 107])));
}

#[test]
fn empty_execution_is_rejected() {
    let execution = Execution { transitions: vec![] };
    assert_eq!(process(1).verify_execution(&execution).unwrap_err(), ExecutionError::Empty);
}

#[test]
fn execution_of_unknown_function_is_rejected() {
    let mut t = main_transition();
    t.locator = Locator { program_id: f(9), function_name: f(2) };
    let execution = Execution { transitions: vec![callee(100), t] };
    assert_eq!(process(1).verify_execution(&execution).unwrap_err(), ExecutionError::UnknownFunction);
}

#[test]
fn execution_with_wrong_number_of_transitions_is_rejected() {
    let execution = Execution { transitions: vec![main_transition()] };
    assert_eq!(
        process(1).verify_execution(&execution).unwrap_err(),
        ExecutionError::WrongNumberOfTransitions
    );
}

#[test]
fn transition_checks_are_enforced() {
    let p = process(1);
    let mut t = main_transition();
    t.root = Some(f(999));
    let e = Execution { transitions: vec![callee(100), t] };
    assert_eq!(p.verify_execution(&e).unwrap_err(), ExecutionError::IncorrectTransitionId);

    let mut t = main_transition();
    t.root = None;
    let e = Execution { transitions: vec![callee(100), t] };
    assert_eq!(p.verify_execution(&e).unwrap_err(), ExecutionError::IncorrectTransitionId);

    let mut c = callee(100);
    c.inputs[0].is_valid = false;
    let e = Execution { transitions: vec![c, main_transition()] };
    assert_eq!(p.verify_execution(&e).unwrap_err(), ExecutionError::InvalidInput);

    let mut t = main_transition();
    t.outputs[0].is_valid = false;
    let e = Execution { transitions: vec![callee(100), t] };
    assert_eq!(p.verify_execution(&e).unwrap_err(), ExecutionError::InvalidOutput);

    let mut c = callee(100);
    c.finalize = None;
    let e = Execution { transitions: vec![c, main_transition()] };
    assert_eq!(p.verify_execution(&e).unwrap_err(), ExecutionError::MissingFinalize);

    let mut c = callee(100);
    c.finalize = Some(FinalizeInputs { count: 3, checksum: f(0) });
    let e = Execution { transitions: vec![c, main_transition()] };
    assert_eq!(p.verify_execution(&e).unwrap_err(), ExecutionError::FinalizeOperandMismatch);

    let mut small = process(1);
    small.max_inputs = 1;
    let mut t = main_transition();
    t.outputs.push(output(f(0), vec![f(0)]));
    t.outputs.push(output(f(0), vec![f(0)]));
    let e = Execution { transitions: vec![callee(100), t] };
    assert_eq!(small.verify_execution(&e).unwrap_err(), ExecutionError::TooManyOutputs);
}

#[test]
fn appended_zero_output_is_rejected() {
    let mut t = main_transition();
    t.outputs.push(output(Field::zero(), vec![Field::zero()]));
    let e = Execution { transitions: vec![callee(100), t] };
    assert_eq!(process(1).verify_execution(&e).unwrap_err(), ExecutionError::OutputCountMismatch);

    let mut t = main_transition();
    t.inputs.push(input(vec![Field::zero()]));
    let e = Execution { transitions: vec![callee(100), t] };
    assert_eq!(process(1).verify_execution(&e).unwrap_err(), ExecutionError::InputCountMismatch);
}
