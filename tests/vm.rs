use snarkvm_core::execution::{
    Execution, ExecutionError, Function, Input, Instruction, Locator, Output, Process, Transition,
};
use snarkvm_core::field::Field;
use snarkvm_core::vm::{
    verification_batches, Deployment, ExecutionSummary, Fee, ItemIds, ItemKind, Ledger,
    NetworkParams, Transaction, TransactionKind, TxError, VM,
};

fn f(x: u64) -> Field {
    Field::from_u64(x)
}

const STATE_ROOT: u64 = 500;
const PAYER: u64 = 600;

fn empty_items() -> ItemIds {
    ItemIds {
        transition_ids: vec![],
        input_ids: vec![],
        serial_numbers: vec![],
        tags: vec![],
        output_ids: vec![],
        commitments: vec![],
        nonces: vec![],
        transition_public_keys: vec![],
        transition_commitments: vec![],
    }
}

fn items(seed: u64) -> ItemIds {
    ItemIds {
        transition_ids: vec![f(seed + 1)],
        input_ids: vec![f(seed + 2), f(seed + 3)],
        serial_numbers: vec![f(seed + 4)],
        tags: vec![f(seed + 5)],
        output_ids: vec![f(seed + 6)],
        commitments: vec![f(seed + 7)],
        nonces: vec![f(seed + 8)],
        transition_public_keys: vec![f(seed + 9)],
        transition_commitments: vec![f(seed + 10)],
    }
}

fn transfer_process() -> Process {
    Process {
        functions: vec![Function {
            locator: Locator { program_id: f(2), function_name: f(9) },
            number_of_calls: 1,
            num_inputs: 1,
            num_outputs: 1,
            instructions: vec![Instruction::Other],
            finalize: None,
        }],
        max_inputs: 16,
    }
}

fn transfer_transition(outputs: Vec<Output>) -> Transition {
    Transition {
        locator: Locator { program_id: f(2), function_name: f(9) },
        id: f(90),
        root: Some(f(90)),
        inputs: vec![Input { is_valid: true, verifier_inputs: vec![f(91)] }],
        outputs,
        tpk_x: f(92),
        tpk_y: f(93),
        tcm: f(94),
        finalize: None,
    }
}

fn transfer_output() -> Output {
    Output { is_valid: true, id: f(95), verifier_inputs: vec![f(96)] }
}

fn sample_vm() -> VM {
    VM {
        params: NetworkParams {
            max_transaction_size: 128_000,
            max_fee: 1_000_000_000_000_000,
            edition: 1,
        },
        ledger: Ledger {
            transaction_ids: vec![f(1)],
            items: items(10_000),
            program_ids: vec![f(2)],
            rejected_ids: vec![f(3)],
            state_roots: vec![f(STATE_ROOT)],
            balances: vec![(f(PAYER), 5), (f(PAYER), 1_000_000)],
        },
        process_programs: vec![f(2)],
        process: transfer_process(),
        partially_verified: vec![],
    }
}

fn private_fee(bound_id: Field) -> Fee {
    Fee {
        base_amount: 1_000,
        priority_amount: 10,
        is_public: false,
        payer: None,
        global_state_root: f(STATE_ROOT),
        bound_id,
        proof_verifies: true,
    }
}

fn public_fee(bound_id: Field) -> Fee {
    Fee { is_public: true, payer: Some(f(PAYER)), ..private_fee(bound_id) }
}

fn execution_summary(id: u64) -> ExecutionSummary {
    ExecutionSummary {
        num_transitions: 1,
        contains_split: false,
        execution_id: Some(f(id)),
        cost: Some(1_000),
        global_state_root: f(STATE_ROOT),
        has_restricted_transitions: false,
        execution: Execution { transitions: vec![transfer_transition(vec![transfer_output()])] },
        proof_verifies: true,
    }
}

fn deployment(id: u64, program: u64) -> Deployment {
    Deployment {
        edition: 1,
        program_id: f(program),
        deployment_id: Some(f(id)),
        cost: Some(1_000),
        owner_signature_valid: true,
        verifies: true,
    }
}

fn execution_transaction(tx_id: u64, fee: Option<Fee>) -> Transaction {
    Transaction {
        id: f(tx_id),
        root: Some(f(tx_id)),
        size: Some(2_000),
        items: items(tx_id * 100),
        kind: TransactionKind::Execute(execution_summary(tx_id + 1), fee),
    }
}

fn sample_execution_transaction_with_private_fee() -> Transaction {
    execution_transaction(700, Some(private_fee(f(701))))
}

fn sample_execution_transaction_with_public_fee() -> Transaction {
    execution_transaction(710, Some(public_fee(f(711))))
}

fn sample_execution_transaction_without_fee() -> Transaction {
    let mut tx = execution_transaction(720, None);
    if let TransactionKind::Execute(ref mut e, _) = tx.kind {
        e.contains_split = true;
    }
    tx
}

fn sample_deployment_transaction() -> Transaction {
    Transaction {
        id: f(730),
        root: Some(f(730)),
        size: Some(50_000),
        items: items(73_000),
        kind: TransactionKind::Deploy(deployment(731, 40), private_fee(f(731))),
    }
}

#[test]
fn test_verify() {
    let mut vm = sample_vm();
    vm.check_transaction(&sample_deployment_transaction(), None).unwrap();
    vm.check_transaction(&sample_execution_transaction_with_private_fee(), None).unwrap();
    vm.check_transaction(&sample_execution_transaction_with_public_fee(), None).unwrap();
}

#[test]
fn test_verify_deployment() {
    let vm = sample_vm();
    let d = deployment(731, 40);
    vm.check_deployment_internal(&d).unwrap();
}

#[test]
fn test_verify_execution() {
    let vm = sample_vm();
    for transaction in
        [sample_execution_transaction_with_private_fee(), sample_execution_transaction_with_public_fee()]
    {
        match transaction.kind {
            TransactionKind::Execute(execution, _) => {
                assert!(execution.proof_verifies);
                vm.check_execution_internal(&execution, false).unwrap();
            }
            _ => panic!("Expected an execution transaction"),
        }
    }
}

#[test]
fn test_verify_fee() {
    let vm = sample_vm();
    for transaction in
        [sample_execution_transaction_with_private_fee(), sample_execution_transaction_with_public_fee()]
    {
        match transaction.kind {
            TransactionKind::Execute(execution, Some(fee)) => {
                let execution_id = execution.execution_id.unwrap();
                assert!(fee.proof_verifies);
                vm.check_fee_internal(&fee, execution_id).unwrap();
            }
            _ => panic!("Expected an execution with a fee"),
        }
    }
}

#[test]
fn test_check_transaction_execution() {
    let mut vm = sample_vm();
    vm.check_transaction(&sample_execution_transaction_with_private_fee(), None).unwrap();
    vm.check_transaction(&sample_execution_transaction_with_public_fee(), None).unwrap();
    vm.check_transaction(&sample_execution_transaction_without_fee(), None).unwrap();
}

#[test]
fn test_verify_deploy_and_execute() {
    let mut vm = sample_vm();
    let deployment_transaction = sample_deployment_transaction();
    vm.check_transaction(&deployment_transaction, None).unwrap();
    // The block that holds the deployment is added.
    vm.ledger.transaction_ids.push(deployment_transaction.id);
    vm.ledger.program_ids.push(f(40));
    vm.process_programs.push(f(40));
    assert_eq!(vm.check_transaction(&deployment_transaction, None), Err(TxError::TransactionExists));
    let transaction = execution_transaction(740, Some(private_fee(f(741))));
    vm.check_transaction(&transaction, None).unwrap();
}

#[test]
fn test_check_mutated_execution() {
    let mut vm = sample_vm();
    let valid_transaction = sample_execution_transaction_with_public_fee();
    vm.check_transaction(&valid_transaction, None).unwrap();

    // The same transition with an extra zero output.
    let execution = match &valid_transaction.kind {
        TransactionKind::Execute(e, _) => e.execution.clone(),
        _ => panic!("Expected an execution transaction"),
    };
    let transitions: Vec<_> = execution.transitions.iter().collect();
    assert_eq!(transitions.len(), 1);
    let mut mutated_transition = transitions[0].clone();
    let added_output = Output { is_valid: true, id: Field::zero(), verifier_inputs: vec![Field::zero()] };
    mutated_transition.outputs.push(added_output);
    let mutated_execution = Execution { transitions: vec![mutated_transition] };
    assert_eq!(
        vm.process.verify_execution(&mutated_execution).unwrap_err(),
        ExecutionError::OutputCountMismatch
    );

    // The proof still verifies for the padded inputs; the shape check rejects it.
    let mut mutated_transaction = execution_transaction(750, Some(public_fee(f(751))));
    if let TransactionKind::Execute(ref mut e, _) = mutated_transaction.kind {
        e.execution = mutated_execution;
        e.proof_verifies = true;
    }
    assert!(vm.check_transaction(&mutated_transaction, None).is_err());
    assert_eq!(
        vm.check_transaction(&mutated_transaction, None),
        Err(TxError::InvalidExecution(ExecutionError::OutputCountMismatch))
    );
}

#[test]
fn cache_skips_verification_once_passed() {
    let mut vm = sample_vm();
    let tx = sample_execution_transaction_with_private_fee();
    vm.check_transaction(&tx, None).unwrap();
    assert_eq!(vm.partially_verified, vec![tx.id]);
    vm.check_transaction(&tx, None).unwrap();
    assert_eq!(vm.partially_verified, vec![tx.id]);
    // A verdict that changed is not looked at again.
    let mut again = tx.clone();
    if let TransactionKind::Execute(ref mut e, _) = again.kind {
        e.proof_verifies = false;
    }
    vm.check_transaction(&again, None).unwrap();
    // A fee transaction is never remembered.
    let fee_tx = Transaction {
        id: f(760),
        root: Some(f(760)),
        size: Some(500),
        items: empty_items(),
        kind: TransactionKind::Fee(private_fee(f(3))),
    };
    vm.check_transaction(&fee_tx, Some(f(3))).unwrap();
    assert_eq!(vm.partially_verified, vec![tx.id]);
}

#[test]
fn transaction_form_errors() {
    let vm = &mut sample_vm();
    let mut tx = sample_execution_transaction_with_private_fee();
    tx.size = Some(128_001);
    assert_eq!(vm.check_transaction(&tx, None), Err(TxError::NotWellFormed));
    tx.size = None;
    assert_eq!(vm.check_transaction(&tx, None), Err(TxError::NotWellFormed));

    let mut tx = sample_execution_transaction_with_private_fee();
    tx.id = f(1);
    assert_eq!(vm.check_transaction(&tx, None), Err(TxError::TransactionExists));

    let mut tx = sample_execution_transaction_with_private_fee();
    tx.root = None;
    assert_eq!(vm.check_transaction(&tx, None), Err(TxError::RootUnavailable));
    tx.root = Some(f(1234));
    assert_eq!(vm.check_transaction(&tx, None), Err(TxError::IncorrectTransactionId));
}

#[test]
fn duplicate_and_existing_items() {
    let vm = &mut sample_vm();
    let mut tx = sample_execution_transaction_with_private_fee();
    tx.items.tags = vec![f(1), f(2), f(1)];
    assert_eq!(vm.check_transaction(&tx, None), Err(TxError::DuplicateItem(ItemKind::Tag)));

    let mut tx = sample_execution_transaction_with_private_fee();
    tx.items.serial_numbers.push(f(10_004));
    assert_eq!(vm.check_transaction(&tx, None), Err(TxError::ItemExists(ItemKind::SerialNumber)));

    let mut tx = sample_execution_transaction_with_private_fee();
    tx.items.transition_commitments = vec![f(10_010)];
    tx.items.input_ids = vec![f(5), f(5)];
    assert_eq!(vm.check_transaction(&tx, None), Err(TxError::DuplicateItem(ItemKind::InputId)));
}

#[test]
fn fee_errors() {
    let vm = sample_vm();
    let exec = sample_execution_transaction_with_private_fee();
    assert_eq!(vm.check_fee(&exec, Some(f(3))), Err(TxError::UnexpectedRejectedId));

    let mut fee = private_fee(f(701));
    fee.base_amount = 999;
    let tx = execution_transaction(700, Some(fee));
    assert_eq!(vm.check_fee(&tx, None), Err(TxError::InsufficientBaseFee));

    let tx = execution_transaction(700, None);
    assert_eq!(vm.check_fee(&tx, None), Err(TxError::MissingFee));

    let mut split = sample_execution_transaction_without_fee();
    split.kind = match split.kind {
        TransactionKind::Execute(e, _) => TransactionKind::Execute(e, Some(private_fee(f(721)))),
        k => k,
    };
    assert_eq!(vm.check_fee(&split, None), Err(TxError::NonZeroBaseFee));

    let fee_tx = Transaction {
        id: f(760),
        root: Some(f(760)),
        size: Some(500),
        items: empty_items(),
        kind: TransactionKind::Fee(private_fee(f(3))),
    };
    assert_eq!(vm.check_fee(&fee_tx, None), Err(TxError::MissingRejectedId));
    assert_eq!(vm.check_fee(&fee_tx, Some(f(4))), Err(TxError::FeeVerificationFailed));
    assert_eq!(vm.check_fee(&fee_tx, Some(f(3))), Ok(()));
}

#[test]
fn fee_internal_errors() {
    let vm = sample_vm();
    let mut fee = private_fee(f(1));
    fee.base_amount = u64::MAX;
    assert_eq!(vm.check_fee_internal(&fee, f(1)), Err(TxError::FeeOverflow));
    fee.base_amount = 1_000_000_000_000_000;
    assert_eq!(vm.check_fee_internal(&fee, f(1)), Err(TxError::FeeTooLarge));

    let mut fee = public_fee(f(1));
    fee.payer = None;
    assert_eq!(vm.check_fee_internal(&fee, f(1)), Err(TxError::MissingPayer));
    fee.payer = Some(f(601));
    assert_eq!(vm.check_fee_internal(&fee, f(1)), Err(TxError::MissingBalance));
    fee.payer = Some(f(PAYER));
    fee.base_amount = 999_990;
    assert_eq!(vm.check_fee_internal(&fee, f(1)), Ok(()));
    fee.base_amount = 999_991;
    assert_eq!(vm.check_fee_internal(&fee, f(1)), Err(TxError::InsufficientBalance));

    let mut fee = private_fee(f(1));
    fee.proof_verifies = false;
    assert_eq!(vm.check_fee_internal(&fee, f(1)), Err(TxError::FeeVerificationFailed));
    let mut fee = private_fee(f(1));
    fee.global_state_root = f(501);
    assert_eq!(vm.check_fee_internal(&fee, f(1)), Err(TxError::FeeStateRootUnknown));
}

#[test]
fn deployment_errors() {
    let mut vm = sample_vm();
    let mut tx = sample_deployment_transaction();
    tx.kind = TransactionKind::Deploy(Deployment { edition: 2, ..deployment(731, 40) }, private_fee(f(731)));
    assert_eq!(vm.check_transaction(&tx, None), Err(TxError::WrongEdition));
    tx.kind = TransactionKind::Deploy(deployment(731, 2), private_fee(f(731)));
    assert_eq!(vm.check_transaction(&tx, None), Err(TxError::ProgramDeployed));
    tx.kind = TransactionKind::Deploy(
        Deployment { owner_signature_valid: false, ..deployment(731, 40) },
        private_fee(f(731)),
    );
    assert_eq!(vm.check_transaction(&tx, None), Err(TxError::InvalidOwnerSignature));
    tx.kind = TransactionKind::Deploy(Deployment { verifies: false, ..deployment(731, 40) }, private_fee(f(731)));
    assert_eq!(vm.check_transaction(&tx, None), Err(TxError::DeploymentVerificationFailed));
    tx.kind = TransactionKind::Deploy(Deployment { deployment_id: None, ..deployment(731, 40) }, private_fee(f(731)));
    assert_eq!(vm.check_transaction(&tx, None), Err(TxError::DeploymentIdUnavailable));
    vm.ledger.program_ids.clear();
    tx.kind = TransactionKind::Deploy(deployment(731, 2), private_fee(f(731)));
    assert_eq!(vm.check_transaction(&tx, None), Err(TxError::ProgramExists));
}

#[test]
fn execution_errors() {
    let mut vm = sample_vm();
    let mut tx = execution_transaction(700, Some(private_fee(f(3))));
    tx.kind = match tx.kind {
        TransactionKind::Execute(e, fee) => {
            TransactionKind::Execute(ExecutionSummary { execution_id: Some(f(3)), ..e }, fee)
        }
        k => k,
    };
    assert_eq!(vm.check_transaction(&tx, None), Err(TxError::PreviouslyRejected));

    let mut e = execution_summary(701);
    e.has_restricted_transitions = true;
    assert_eq!(vm.check_execution_internal(&e, false), Err(TxError::RestrictedTransition));
    let mut e = execution_summary(701);
    e.proof_verifies = false;
    assert_eq!(vm.check_execution_internal(&e, false), Err(TxError::ExecutionVerificationFailed));
    assert_eq!(vm.check_execution_internal(&e, true), Ok(()));
    let mut e = execution_summary(701);
    e.execution.transitions.clear();
    assert_eq!(
        vm.check_execution_internal(&e, false),
        Err(TxError::InvalidExecution(ExecutionError::Empty))
    );
    assert_eq!(vm.check_execution_internal(&e, true), Ok(()));
    let mut e = execution_summary(701);
    e.global_state_root = f(1);
    assert_eq!(vm.check_execution_internal(&e, false), Err(TxError::ExecutionStateRootUnknown));
}

#[test]
fn batches_put_deployments_first() {
    let mut txs = Vec::new();
    for i in 0..7u64 {
        txs.push((execution_transaction(2_000 + 20 * i, Some(private_fee(f(2_001 + 20 * i)))), None));
        let mut d = sample_deployment_transaction();
        d.id = f(3_000 + i);
        txs.push((d, None));
    }
    let batches = verification_batches(&txs);
    assert_eq!(
        batches,
        vec![vec![1, 3, 5, 7, 9], vec![11, 13], vec![0, 2, 4, 6, 8, 10, 12]]
    );
    assert!(verification_batches(&Vec::new()).is_empty());

    let mut many = Vec::new();
    for i in 0..2_003u64 {
        let mut t = sample_execution_transaction_with_private_fee();
        t.id = f(10_000_000 + i);
        many.push((t, None));
    }
    for _ in 0..10 {
        many.push((sample_deployment_transaction(), None));
    }
    let batches = verification_batches(&many);
    let sizes: Vec<usize> = batches.iter().map(|b| b.len()).collect();
    assert_eq!(sizes, vec![5, 5, 1000, 1000, 3]);
    assert_eq!(batches[0], (2_003..2_008).collect::<Vec<usize>>());
}

#[test]
fn check_transactions_stops_at_first_rejection() {
    let mut vm = sample_vm();
    let mut bad_execution = sample_execution_transaction_with_private_fee();
    bad_execution.size = None;
    let mut bad_deployment = sample_deployment_transaction();
    bad_deployment.kind =
        TransactionKind::Deploy(Deployment { edition: 9, ..deployment(731, 40) }, private_fee(f(731)));
    let txs = vec![(bad_execution, None), (bad_deployment, None)];
    assert_eq!(vm.check_transactions(&txs), Err(TxError::WrongEdition));

    let txs = vec![
        (sample_execution_transaction_with_private_fee(), None),
        (sample_deployment_transaction(), None),
        (sample_execution_transaction_with_public_fee(), None),
    ];
    assert_eq!(vm.check_transactions(&txs), Ok(()));
    assert_eq!(vm.partially_verified, vec![f(730), f(700), f(710)]);
}
