//! The checks that a transaction passes before it may enter a block: its
//! form, the uniqueness of everything it creates or spends, its fee, and the
//! verdicts on its deployment or execution. What the proof system and the
//! hashing decide is carried by the transaction as plain values.
use crate::execution::{verify_execution_spec, Execution, ExecutionError, Process};
use crate::field::{contains_field, Field};
use vstd::prelude::*;

verus! {

/// The network's limits.
#[derive(Clone, Copy, Debug, PartialEq, Eq, Structural)]
pub struct NetworkParams {
    /// The largest serialized transaction, in bytes.
    pub max_transaction_size: usize,
    /// The largest fee, in microcredits.
    pub max_fee: u64,
    /// The edition that deployments must carry.
    pub edition: u16,
}

/// A fee, with the verdict on its proof.
#[derive(Clone, Copy, Debug, PartialEq, Eq, Structural)]
pub struct Fee {
    pub base_amount: u64,
    pub priority_amount: u64,
    /// Whether the fee is paid from a public balance.
    pub is_public: bool,
    /// The paying address, for a public fee.
    pub payer: Option<Field>,
    pub global_state_root: Field,
    /// The deployment, execution or rejected ID that the fee's proof is bound to.
    pub bound_id: Field,
    /// Whether the fee's proof verifies for `bound_id`.
    pub proof_verifies: bool,
}

/// A deployment, with what was computed of it.
#[derive(Clone, Copy, Debug, PartialEq, Eq, Structural)]
pub struct Deployment {
    pub edition: u16,
    pub program_id: Field,
    /// The deployment ID, `None` when its Merkle root cannot be computed.
    pub deployment_id: Option<Field>,
    /// The minimum cost of the deployment, `None` when it cannot be computed.
    pub cost: Option<u64>,
    /// Whether the owner's signature verifies for the deployment ID.
    pub owner_signature_valid: bool,
    /// Whether the deployment itself verifies (its keys and certificates).
    pub verifies: bool,
}

/// An execution, with what was computed of it.
#[derive(Clone, Debug)]
pub struct ExecutionSummary {
    pub num_transitions: usize,
    /// Whether the transaction holds a split of a record.
    pub contains_split: bool,
    /// The execution ID, `None` when its Merkle root cannot be computed.
    pub execution_id: Option<Field>,
    /// The minimum cost of the execution, `None` when it cannot be computed.
    pub cost: Option<u64>,
    pub global_state_root: Field,
    /// Whether a transition is restricted at the current block height.
    pub has_restricted_transitions: bool,
    /// The transitions, whose public inputs the process builds and checks.
    pub execution: Execution,
    /// Whether the execution's proof verifies for those public inputs.
    pub proof_verifies: bool,
}

/// What a transaction does.
#[derive(Clone, Debug)]
pub enum TransactionKind {
    Deploy(Deployment, Fee),
    Execute(ExecutionSummary, Option<Fee>),
    /// The fee of a rejected deployment or execution.
    Fee(Fee),
}

/// The kinds of items that a transaction creates or spends.
#[derive(Clone, Copy, Debug, PartialEq, Eq, Structural)]
pub enum ItemKind {
    TransitionId,
    InputId,
    SerialNumber,
    Tag,
    OutputId,
    Commitment,
    Nonce,
    TransitionPublicKey,
    TransitionCommitment,
}

/// The items of each kind, of a transaction or of the ledger.
#[derive(Clone, Debug)]
pub struct ItemIds {
    pub transition_ids: Vec<Field>,
    pub input_ids: Vec<Field>,
    pub serial_numbers: Vec<Field>,
    pub tags: Vec<Field>,
    pub output_ids: Vec<Field>,
    pub commitments: Vec<Field>,
    pub nonces: Vec<Field>,
    pub transition_public_keys: Vec<Field>,
    pub transition_commitments: Vec<Field>,
}

/// A transaction, with what was computed of it.
#[derive(Clone, Debug)]
pub struct Transaction {
    pub id: Field,
    /// The Merkle root of the transaction, `None` when it cannot be computed.
    pub root: Option<Field>,
    /// The serialized size in bytes, `None` when it cannot be serialized.
    pub size: Option<usize>,
    pub items: ItemIds,
    pub kind: TransactionKind,
}

/// What the ledger holds, as far as the checks look at it.
#[derive(Clone, Debug)]
pub struct Ledger {
    pub transaction_ids: Vec<Field>,
    pub items: ItemIds,
    /// The programs whose deployments are stored.
    pub program_ids: Vec<Field>,
    /// The IDs of deployments and executions that were rejected.
    pub rejected_ids: Vec<Field>,
    pub state_roots: Vec<Field>,
    /// Public balances, as (address, amount) entries; a later entry for an
    /// address overrides an earlier one.
    pub balances: Vec<(Field, u64)>,
}

/// The state that transaction checks read, and the set of transactions whose
/// expensive checks have passed once.
#[derive(Clone, Debug)]
pub struct VM {
    pub params: NetworkParams,
    pub ledger: Ledger,
    /// The programs loaded in the process.
    pub process_programs: Vec<Field>,
    /// The deployed functions that executions are checked against.
    pub process: Process,
    /// The IDs of transactions that passed verification before.
    pub partially_verified: Vec<Field>,
}

/// Why a transaction was rejected.
#[derive(Clone, Copy, Debug, PartialEq, Eq, Structural)]
pub enum TxError {
    NotWellFormed,
    TransactionExists,
    RootUnavailable,
    IncorrectTransactionId,
    DuplicateItem(ItemKind),
    ItemExists(ItemKind),
    /// A deployment or execution carries a rejected ID.
    UnexpectedRejectedId,
    /// A fee transaction carries no rejected ID.
    MissingRejectedId,
    DeploymentIdUnavailable,
    ExecutionIdUnavailable,
    CostUnavailable,
    InsufficientBaseFee,
    NonZeroBaseFee,
    MissingFee,
    FeeOverflow,
    FeeTooLarge,
    MissingPayer,
    MissingBalance,
    InsufficientBalance,
    FeeVerificationFailed,
    FeeStateRootUnknown,
    InvalidOwnerSignature,
    WrongEdition,
    ProgramDeployed,
    ProgramExists,
    DeploymentVerificationFailed,
    PreviouslyRejected,
    RestrictedTransition,
    /// The transitions were rejected before the proof was looked at.
    InvalidExecution(ExecutionError),
    ExecutionVerificationFailed,
    ExecutionStateRootUnknown,
}

/// The first error, if any, else `b`.
pub open spec fn then_check(a: Result<(), TxError>, b: Result<(), TxError>) -> Result<(), TxError> {
    if a is Err {
        a
    } else {
        b
    }
}

pub open spec fn has_duplicates(s: Seq<Field>) -> bool {
    exists|i: int, j: int| 0 <= i < j < s.len() && s[i] == s[j]
}

/// The items of one kind are distinct and none is in the ledger yet.
pub open spec fn unique_spec(items: Seq<Field>, known: Seq<Field>, kind: ItemKind) -> Result<(), TxError> {
    if has_duplicates(items) {
        Err(TxError::DuplicateItem(kind))
    } else if exists|i: int| 0 <= i < items.len() && known.contains(#[trigger] items[i]) {
        Err(TxError::ItemExists(kind))
    } else {
        Ok(())
    }
}

/// The uniqueness checks of every kind of item, in order.
pub open spec fn items_spec(t: ItemIds, l: ItemIds) -> Result<(), TxError> {
    then_check(
        unique_spec(t.transition_ids@, l.transition_ids@, ItemKind::TransitionId),
        then_check(
            unique_spec(t.input_ids@, l.input_ids@, ItemKind::InputId),
            then_check(
                unique_spec(t.serial_numbers@, l.serial_numbers@, ItemKind::SerialNumber),
                then_check(
                    unique_spec(t.tags@, l.tags@, ItemKind::Tag),
                    then_check(
                        unique_spec(t.output_ids@, l.output_ids@, ItemKind::OutputId),
                        then_check(
                            unique_spec(t.commitments@, l.commitments@, ItemKind::Commitment),
                            then_check(
                                unique_spec(t.nonces@, l.nonces@, ItemKind::Nonce),
                                then_check(
                                    unique_spec(
                                        t.transition_public_keys@,
                                        l.transition_public_keys@,
                                        ItemKind::TransitionPublicKey,
                                    ),
                                    unique_spec(
                                        t.transition_commitments@,
                                        l.transition_commitments@,
                                        ItemKind::TransitionCommitment,
                                    ),
                                ),
                            ),
                        ),
                    ),
                ),
            ),
        ),
    )
}

/// The balance of `payer`: its latest entry.
pub open spec fn balance_of(bs: Seq<(Field, u64)>, payer: Field) -> Option<u64>
    decreases bs.len(),
{
    if bs.len() == 0 {
        None
    } else if bs.last().0 == payer {
        Some(bs.last().1)
    } else {
        balance_of(bs.drop_last(), payer)
    }
}

/// The checks of a fee that is bound to `id`.
pub open spec fn fee_internal_spec(vm: VM, fee: Fee, id: Field) -> Result<(), TxError> {
    let amount = fee.base_amount + fee.priority_amount;
    if amount > u64::MAX {
        Err(TxError::FeeOverflow)
    } else if amount > vm.params.max_fee {
        Err(TxError::FeeTooLarge)
    } else if fee.is_public && fee.payer is None {
        Err(TxError::MissingPayer)
    } else if fee.is_public && balance_of(vm.ledger.balances@, fee.payer->0) is None {
        Err(TxError::MissingBalance)
    } else if fee.is_public && balance_of(vm.ledger.balances@, fee.payer->0)->0 < amount {
        Err(TxError::InsufficientBalance)
    } else if !(fee.proof_verifies && fee.bound_id == id) {
        Err(TxError::FeeVerificationFailed)
    } else if !vm.ledger.state_roots@.contains(fee.global_state_root) {
        Err(TxError::FeeStateRootUnknown)
    } else {
        Ok(())
    }
}

/// Whether an execution must pay a base fee: all but a lone split do.
pub open spec fn is_fee_required(e: ExecutionSummary) -> bool {
    !(e.num_transitions == 1 && e.contains_split)
}

/// The fee checks of a transaction.
pub open spec fn fee_spec(vm: VM, kind: TransactionKind, rejected_id: Option<Field>) -> Result<
    (),
    TxError,
> {
    match kind {
        TransactionKind::Deploy(d, fee) => {
            if rejected_id is Some {
                Err(TxError::UnexpectedRejectedId)
            } else if d.deployment_id is None {
                Err(TxError::DeploymentIdUnavailable)
            } else if d.cost is None {
                Err(TxError::CostUnavailable)
            } else if fee.base_amount < d.cost->0 {
                Err(TxError::InsufficientBaseFee)
            } else {
                fee_internal_spec(vm, fee, d.deployment_id->0)
            }
        },
        TransactionKind::Execute(e, fee) => {
            if rejected_id is Some {
                Err(TxError::UnexpectedRejectedId)
            } else if e.execution_id is None {
                Err(TxError::ExecutionIdUnavailable)
            } else {
                match fee {
                    Some(fee) => {
                        if is_fee_required(e) && e.cost is None {
                            Err(TxError::CostUnavailable)
                        } else if is_fee_required(e) && fee.base_amount < e.cost->0 {
                            Err(TxError::InsufficientBaseFee)
                        } else if !is_fee_required(e) && fee.base_amount != 0 {
                            Err(TxError::NonZeroBaseFee)
                        } else {
                            fee_internal_spec(vm, fee, e.execution_id->0)
                        }
                    },
                    None => if is_fee_required(e) {
                        Err(TxError::MissingFee)
                    } else {
                        Ok(())
                    },
                }
            }
        },
        TransactionKind::Fee(fee) => match rejected_id {
            Some(r) => fee_internal_spec(vm, fee, r),
            None => Err(TxError::MissingRejectedId),
        },
    }
}

/// The checks of a deployment itself.
pub open spec fn deployment_internal_spec(d: Deployment) -> Result<(), TxError> {
    if d.verifies {
        Ok(())
    } else {
        Err(TxError::DeploymentVerificationFailed)
    }
}

/// The checks of an execution itself: no restricted transition, transitions
/// that the process accepts, a proof that verifies for their public inputs,
/// and a known state root. Verification is skipped when it passed before.
pub open spec fn execution_internal_spec(vm: VM, e: ExecutionSummary, is_partially_verified: bool) -> Result<
    (),
    TxError,
> {
    if e.has_restricted_transitions {
        Err(TxError::RestrictedTransition)
    } else if !is_partially_verified && verify_execution_spec(vm.process, e.execution.transitions@) is Err {
        Err(TxError::InvalidExecution(verify_execution_spec(vm.process, e.execution.transitions@)->Err_0))
    } else if !is_partially_verified && !e.proof_verifies {
        Err(TxError::ExecutionVerificationFailed)
    } else if !vm.ledger.state_roots@.contains(e.global_state_root) {
        Err(TxError::ExecutionStateRootUnknown)
    } else {
        Ok(())
    }
}

/// The checks of a deployment or an execution, after the fee.
pub open spec fn kind_spec(vm: VM, kind: TransactionKind, cache: Seq<Field>, id: Field) -> Result<
    (),
    TxError,
> {
    let partially = cache.contains(id);
    match kind {
        TransactionKind::Deploy(d, _) => {
            if d.deployment_id is None {
                Err(TxError::DeploymentIdUnavailable)
            } else if !d.owner_signature_valid {
                Err(TxError::InvalidOwnerSignature)
            } else if d.edition != vm.params.edition {
                Err(TxError::WrongEdition)
            } else if vm.ledger.program_ids@.contains(d.program_id) {
                Err(TxError::ProgramDeployed)
            } else if vm.process_programs@.contains(d.program_id) {
                Err(TxError::ProgramExists)
            } else if !partially {
                deployment_internal_spec(d)
            } else {
                Ok(())
            }
        },
        TransactionKind::Execute(e, _) => {
            if e.execution_id is None {
                Err(TxError::ExecutionIdUnavailable)
            } else if vm.ledger.rejected_ids@.contains(e.execution_id->0) {
                Err(TxError::PreviouslyRejected)
            } else {
                execution_internal_spec(vm, e, partially)
            }
        },
        TransactionKind::Fee(_) => Ok(()),
    }
}

/// The checks of a transaction, in order; `cache` holds the IDs of the
/// transactions that passed before.
#[verifier::opaque]
pub open spec fn check_transaction_spec(
    vm: VM,
    cache: Seq<Field>,
    tx: Transaction,
    rejected_id: Option<Field>,
) -> Result<(), TxError> {
    if tx.size is None || tx.size->0 > vm.params.max_transaction_size {
        Err(TxError::NotWellFormed)
    } else if vm.ledger.transaction_ids@.contains(tx.id) {
        Err(TxError::TransactionExists)
    } else if tx.root is None {
        Err(TxError::RootUnavailable)
    } else if tx.root->0 != tx.id {
        Err(TxError::IncorrectTransactionId)
    } else {
        then_check(
            items_spec(tx.items, vm.ledger.items),
            then_check(fee_spec(vm, tx.kind, rejected_id), kind_spec(vm, tx.kind, cache, tx.id)),
        )
    }
}

/// The cache after a check: a deployment or execution that passed for the
/// first time is remembered.
pub open spec fn cache_after(
    vm: VM,
    cache: Seq<Field>,
    tx: Transaction,
    rejected_id: Option<Field>,
) -> Seq<Field> {
    if check_transaction_spec(vm, cache, tx, rejected_id) is Ok && !(tx.kind is Fee)
        && !cache.contains(tx.id) {
        cache.push(tx.id)
    } else {
        cache
    }
}

/// The items of one kind are distinct and none is in the ledger yet.
pub fn ensure_is_unique(items: &Vec<Field>, known: &Vec<Field>, kind: ItemKind) -> (r: Result<
    (),
    TxError,
>)
    ensures
        r == unique_spec(items@, known@, kind),
{
    let mut i: usize = 0;
    while i < items.len()
        invariant
            0 <= i <= items@.len(),
            forall|a: int, b: int| 0 <= a < b < items@.len() && a < i ==> items@[a] != items@[b],
        decreases items@.len() - i,
    {
        let mut j: usize = i + 1;
        while j < items.len()
            invariant
                i < j <= items@.len(),
                i < items@.len(),
                forall|a: int, b: int| 0 <= a < b < items@.len() && a < i ==> items@[a] != items@[b],
                forall|b: int| i < b < j ==> items@[i as int] != items@[b],
            decreases items@.len() - j,
        {
            if items[i] == items[j] {
                return Err(TxError::DuplicateItem(kind));
            }
            j = j + 1;
        }
        i = i + 1;
    }
    let mut i: usize = 0;
    while i < items.len()
        invariant
            0 <= i <= items@.len(),
            !has_duplicates(items@),
            forall|a: int| 0 <= a < i ==> !known@.contains(#[trigger] items@[a]),
        decreases items@.len() - i,
    {
        if contains_field(known, items[i]) {
            return Err(TxError::ItemExists(kind));
        }
        i = i + 1;
    }
    Ok(())
}

/// The uniqueness checks of every kind of item, in order.
pub fn check_items(t: &ItemIds, l: &ItemIds) -> (r: Result<(), TxError>)
    ensures
        r == items_spec(*t, *l),
{
    ensure_is_unique(&t.transition_ids, &l.transition_ids, ItemKind::TransitionId)?;
    ensure_is_unique(&t.input_ids, &l.input_ids, ItemKind::InputId)?;
    ensure_is_unique(&t.serial_numbers, &l.serial_numbers, ItemKind::SerialNumber)?;
    ensure_is_unique(&t.tags, &l.tags, ItemKind::Tag)?;
    ensure_is_unique(&t.output_ids, &l.output_ids, ItemKind::OutputId)?;
    ensure_is_unique(&t.commitments, &l.commitments, ItemKind::Commitment)?;
    ensure_is_unique(&t.nonces, &l.nonces, ItemKind::Nonce)?;
    ensure_is_unique(
        &t.transition_public_keys,
        &l.transition_public_keys,
        ItemKind::TransitionPublicKey,
    )?;
    ensure_is_unique(
        &t.transition_commitments,
        &l.transition_commitments,
        ItemKind::TransitionCommitment,
    )
}

/// The latest balance of `payer`.
pub fn find_balance(bs: &Vec<(Field, u64)>, payer: Field) -> (r: Option<u64>)
    ensures
        r == balance_of(bs@, payer),
{
    let mut i: usize = bs.len();
    assert(bs@.subrange(0, i as int) =~= bs@);
    while i > 0
        invariant
            0 <= i <= bs@.len(),
            balance_of(bs@.subrange(0, i as int), payer) == balance_of(bs@, payer),
        decreases i,
    {
        assert(bs@.subrange(0, i as int).drop_last() =~= bs@.subrange(0, i - 1));
        if bs[i - 1].0 == payer {
            return Some(bs[i - 1].1);
        }
        i = i - 1;
    }
    None
}

impl VM {
    /// Checks a fee that is bound to `id`: its amount, its proof, the payer's
    /// public balance, and its state root.
    pub fn check_fee_internal(&self, fee: &Fee, id: Field) -> (r: Result<(), TxError>)
        ensures
            r == fee_internal_spec(*self, *fee, id),
    {
        let amount = match fee.base_amount.checked_add(fee.priority_amount) {
            Some(a) => a,
            None => {
                return Err(TxError::FeeOverflow);
            },
        };
        if amount > self.params.max_fee {
            return Err(TxError::FeeTooLarge);
        }
        let verification = fee.proof_verifies && fee.bound_id == id;
        if fee.is_public {
            let payer = match fee.payer {
                Some(p) => p,
                None => {
                    return Err(TxError::MissingPayer);
                },
            };
            let balance = match find_balance(&self.ledger.balances, payer) {
                Some(b) => b,
                None => {
                    return Err(TxError::MissingBalance);
                },
            };
            if balance < amount {
                return Err(TxError::InsufficientBalance);
            }
        }
        if !verification {
            return Err(TxError::FeeVerificationFailed);
        }
        if !contains_field(&self.ledger.state_roots, fee.global_state_root) {
            return Err(TxError::FeeStateRootUnknown);
        }
        Ok(())
    }

    /// Checks the fee of a transaction: it covers the cost, it is bound to
    /// the right ID, and a rejected ID is present exactly for a fee
    /// transaction.
    pub fn check_fee(&self, transaction: &Transaction, rejected_id: Option<Field>) -> (r: Result<
        (),
        TxError,
    >)
        ensures
            r == fee_spec(*self, transaction.kind, rejected_id),
    {
        match &transaction.kind {
            TransactionKind::Deploy(d, fee) => {
                if rejected_id.is_some() {
                    return Err(TxError::UnexpectedRejectedId);
                }
                let deployment_id = match d.deployment_id {
                    Some(i) => i,
                    None => {
                        return Err(TxError::DeploymentIdUnavailable);
                    },
                };
                let cost = match d.cost {
                    Some(c) => c,
                    None => {
                        return Err(TxError::CostUnavailable);
                    },
                };
                if fee.base_amount < cost {
                    return Err(TxError::InsufficientBaseFee);
                }
                self.check_fee_internal(fee, deployment_id)
            },
            TransactionKind::Execute(e, fee) => {
                if rejected_id.is_some() {
                    return Err(TxError::UnexpectedRejectedId);
                }
                let execution_id = match e.execution_id {
                    Some(i) => i,
                    None => {
                        return Err(TxError::ExecutionIdUnavailable);
                    },
                };
                let is_fee_required = !(e.num_transitions == 1 && e.contains_split);
                match fee {
                    Some(fee) => {
                        if is_fee_required {
                            let cost = match e.cost {
                                Some(c) => c,
                                None => {
                                    return Err(TxError::CostUnavailable);
                                },
                            };
                            if fee.base_amount < cost {
                                return Err(TxError::InsufficientBaseFee);
                            }
                        } else if fee.base_amount != 0 {
                            return Err(TxError::NonZeroBaseFee);
                        }
                        self.check_fee_internal(fee, execution_id)
                    },
                    None => {
                        if is_fee_required {
                            Err(TxError::MissingFee)
                        } else {
                            Ok(())
                        }
                    },
                }
            },
            TransactionKind::Fee(fee) => match rejected_id {
                Some(r) => self.check_fee_internal(fee, r),
                None => Err(TxError::MissingRejectedId),
            },
        }
    }

    /// Checks a deployment itself.
    pub fn check_deployment_internal(&self, deployment: &Deployment) -> (r: Result<(), TxError>)
        ensures
            r == deployment_internal_spec(*deployment),
    {
        if deployment.verifies {
            Ok(())
        } else {
            Err(TxError::DeploymentVerificationFailed)
        }
    }

    /// Checks an execution itself: no restricted transition, its transitions
    /// and the public inputs they give, its proof (unless it passed before),
    /// and its state root.
    pub fn check_execution_internal(&self, execution: &ExecutionSummary, is_partially_verified: bool) -> (r:
        Result<(), TxError>)
        ensures
            r == execution_internal_spec(*self, *execution, is_partially_verified),
    {
        if execution.has_restricted_transitions {
            return Err(TxError::RestrictedTransition);
        }
        if !is_partially_verified {
            match self.process.verify_execution(&execution.execution) {
                Ok(_) => {},
                Err(e) => {
                    return Err(TxError::InvalidExecution(e));
                },
            }
            if !execution.proof_verifies {
                return Err(TxError::ExecutionVerificationFailed);
            }
        }
        if !contains_field(&self.ledger.state_roots, execution.global_state_root) {
            return Err(TxError::ExecutionStateRootUnknown);
        }
        Ok(())
    }

    /// Checks a transaction: its form and ID, that nothing it creates or
    /// spends exists yet, its fee, then its deployment or execution. A
    /// deployment or execution that passes for the first time is remembered,
    /// and its expensive verification is skipped from then on.
    pub fn check_transaction(&mut self, transaction: &Transaction, rejected_id: Option<Field>) -> (r:
        Result<(), TxError>)
        ensures
            r == check_transaction_spec(
                *old(self),
                old(self).partially_verified@,
                *transaction,
                rejected_id,
            ),
            final(self).partially_verified@ == cache_after(
                *old(self),
                old(self).partially_verified@,
                *transaction,
                rejected_id,
            ),
            final(self).params == old(self).params,
            final(self).ledger == old(self).ledger,
            final(self).process_programs == old(self).process_programs,
            final(self).process == old(self).process,
    {
        let r = self.check_transaction_pure(transaction, rejected_id);
        if r.is_ok() && !matches!(transaction.kind, TransactionKind::Fee(_)) && !contains_field(
            &self.partially_verified,
            transaction.id,
        ) {
            self.partially_verified.push(transaction.id);
        }
        r
    }

    fn check_transaction_pure(&self, transaction: &Transaction, rejected_id: Option<Field>) -> (r:
        Result<(), TxError>)
        ensures
            r == check_transaction_spec(*self, self.partially_verified@, *transaction, rejected_id),
    {
        reveal(check_transaction_spec);
        match transaction.size {
            Some(size) => {
                if size > self.params.max_transaction_size {
                    return Err(TxError::NotWellFormed);
                }
            },
            None => {
                return Err(TxError::NotWellFormed);
            },
        }
        if contains_field(&self.ledger.transaction_ids, transaction.id) {
            return Err(TxError::TransactionExists);
        }
        match transaction.root {
            Some(root) => {
                if root != transaction.id {
                    return Err(TxError::IncorrectTransactionId);
                }
            },
            None => {
                return Err(TxError::RootUnavailable);
            },
        }
        check_items(&transaction.items, &self.ledger.items)?;
        self.check_fee(transaction, rejected_id)?;
        let is_partially_verified = contains_field(&self.partially_verified, transaction.id);
        match &transaction.kind {
            TransactionKind::Deploy(d, _) => {
                if d.deployment_id.is_none() {
                    return Err(TxError::DeploymentIdUnavailable);
                }
                if !d.owner_signature_valid {
                    return Err(TxError::InvalidOwnerSignature);
                }
                if d.edition != self.params.edition {
                    return Err(TxError::WrongEdition);
                }
                if contains_field(&self.ledger.program_ids, d.program_id) {
                    return Err(TxError::ProgramDeployed);
                }
                if contains_field(&self.process_programs, d.program_id) {
                    return Err(TxError::ProgramExists);
                }
                if !is_partially_verified {
                    self.check_deployment_internal(d)?;
                }
                Ok(())
            },
            TransactionKind::Execute(e, _) => {
                let execution_id = match e.execution_id {
                    Some(i) => i,
                    None => {
                        return Err(TxError::ExecutionIdUnavailable);
                    },
                };
                if contains_field(&self.ledger.rejected_ids, execution_id) {
                    return Err(TxError::PreviouslyRejected);
                }
                self.check_execution_internal(e, is_partially_verified)
            },
            TransactionKind::Fee(_) => Ok(()),
        }
    }
}

/// The most deployments verified side by side.
pub const MAX_PARALLEL_DEPLOY_VERIFICATIONS: usize = 5;

/// The most executions verified side by side.
pub const MAX_PARALLEL_EXECUTE_VERIFICATIONS: usize = 1000;

/// The positions among the first `n` transactions of those that are (when
/// `deploys`) or are not deployments, in order.
pub open spec fn positions(txs: Seq<(Transaction, Option<Field>)>, n: nat, deploys: bool) -> Seq<usize>
    decreases n,
{
    if n == 0 {
        seq![]
    } else {
        let s = positions(txs, (n - 1) as nat, deploys);
        if (txs[n - 1].0.kind is Deploy) == deploys {
            s.push((n - 1) as usize)
        } else {
            s
        }
    }
}

/// The order in which transactions are checked: deployments first, then the
/// others, each in their given order.
pub open spec fn verification_order(txs: Seq<(Transaction, Option<Field>)>) -> Seq<usize> {
    positions(txs, txs.len(), true) + positions(txs, txs.len(), false)
}

pub open spec fn flatten(b: Seq<Seq<usize>>) -> Seq<usize>
    decreases b.len(),
{
    if b.len() == 0 {
        seq![]
    } else {
        flatten(b.drop_last()) + b.last()
    }
}

pub open spec fn batches_view(b: Seq<Vec<usize>>) -> Seq<Seq<usize>> {
    b.map_values(|v: Vec<usize>| v@)
}

/// A batch is non-empty and holds either only deployments, at most
/// `MAX_PARALLEL_DEPLOY_VERIFICATIONS` of them, or none, at most
/// `MAX_PARALLEL_EXECUTE_VERIFICATIONS` of them.
pub open spec fn batch_ok(txs: Seq<(Transaction, Option<Field>)>, batch: Seq<usize>) -> bool {
    &&& batch.len() > 0
    &&& (forall|m: int| 0 <= m < batch.len() ==> batch[m] < txs.len())
    &&& ((forall|m: int|
        0 <= m < batch.len() ==> (#[trigger] txs[batch[m] as int]).0.kind is Deploy) && batch.len()
        <= MAX_PARALLEL_DEPLOY_VERIFICATIONS || (forall|m: int|
        0 <= m < batch.len() ==> !((#[trigger] txs[batch[m] as int]).0.kind is Deploy))
        && batch.len() <= MAX_PARALLEL_EXECUTE_VERIFICATIONS)
}

/// The batch holds deployments (its first position is one).
pub open spec fn is_deploy_batch(txs: Seq<(Transaction, Option<Field>)>, batch: Seq<usize>) -> bool {
    batch.len() > 0 && batch[0] < txs.len() && txs[batch[0] as int].0.kind is Deploy
}

pub open spec fn batches_well_sized(txs: Seq<(Transaction, Option<Field>)>, b: Seq<Seq<usize>>) -> bool {
    forall|k: int| 0 <= k < b.len() ==> batch_ok(txs, #[trigger] b[k])
}

/// The checks of the transactions at `order`, one after the other, stopping
/// at the first rejection: the cache after them, and the outcome.
pub open spec fn run_checks(
    vm: VM,
    cache: Seq<Field>,
    txs: Seq<(Transaction, Option<Field>)>,
    order: Seq<usize>,
) -> (Seq<Field>, Result<(), TxError>)
    decreases order.len(),
{
    if order.len() == 0 {
        (cache, Ok(()))
    } else {
        let prev = run_checks(vm, cache, txs, order.drop_last());
        if prev.1 is Err {
            prev
        } else {
            let t = txs[order.last() as int];
            (cache_after(vm, prev.0, t.0, t.1), check_transaction_spec(vm, prev.0, t.0, t.1))
        }
    }
}

/// The positions of the transactions that are (or are not) deployments.
fn collect_positions(txs: &Vec<(Transaction, Option<Field>)>, deploys: bool) -> (r: Vec<usize>)
    ensures
        r@ == positions(txs@, txs@.len(), deploys),
        forall|m: int| 0 <= m < r@.len() ==> r@[m] < txs@.len() && ((#[trigger] txs@[r@[m] as int]).0.kind is Deploy) == deploys,
{
    let mut r: Vec<usize> = Vec::new();
    let mut i: usize = 0;
    while i < txs.len()
        invariant
            0 <= i <= txs@.len(),
            r@ == positions(txs@, i as nat, deploys),
            forall|m: int| 0 <= m < r@.len() ==> r@[m] < i && ((#[trigger] txs@[r@[m] as int]).0.kind is Deploy) == deploys,
        decreases txs@.len() - i,
    {
        if matches!(txs[i].0.kind, TransactionKind::Deploy(_, _)) == deploys {
            r.push(i);
        }
        i = i + 1;
    }
    r
}

/// The number of batches of at most `cap` that `n` items fill.
pub open spec fn batch_count(n: nat, cap: nat) -> nat {
    ((n + cap - 1) / cap as int) as nat
}

proof fn lemma_batch_count(full: nat, rem: nat, cap: nat, n: nat)
    requires
        0 <= rem < cap,
        full * cap + rem == n,
    ensures
        batch_count(n, cap) == full + if rem > 0 {
            1nat
        } else {
            0nat
        },
{
    if rem > 0 {
        assert(n + cap - 1 == (full + 1) * cap + (rem - 1)) by (nonlinear_arith)
            requires
                full * cap + rem == n,
        ;
        vstd::arithmetic::div_mod::lemma_fundamental_div_mod_converse(
            (n + cap - 1) as int,
            cap as int,
            (full + 1) as int,
            (rem - 1) as int,
        );
    } else {
        assert(n + cap - 1 == full * cap + (cap - 1));
        vstd::arithmetic::div_mod::lemma_fundamental_div_mod_converse(
            (n + cap - 1) as int,
            cap as int,
            full as int,
            (cap - 1) as int,
        );
    }
}

/// Cuts `items` into consecutive batches of at most `cap` and appends them.
fn push_chunks(out: &mut Vec<Vec<usize>>, items: &Vec<usize>, cap: usize)
    requires
        cap > 0,
    ensures
        flatten(batches_view(final(out)@)) == flatten(batches_view(old(out)@)) + items@,
        final(out)@.len() == old(out)@.len() + batch_count(items@.len(), cap as nat),
        forall|k: int|
            old(out)@.len() <= k < final(out)@.len() - 1 ==> (#[trigger] final(out)@[k])@.len() == cap,
        forall|k: int| 0 <= k < old(out)@.len() ==> #[trigger] final(out)@[k] == old(out)@[k],
        forall|k: int|
            old(out)@.len() <= k < final(out)@.len() ==> 0 < (#[trigger] final(out)@[k])@.len() <= cap
                && (forall|m: int| 0 <= m < final(out)@[k]@.len() ==> items@.contains(final(out)@[k]@[m])),
{
    let ghost start = out@;
    let mut cur: Vec<usize> = Vec::new();
    let mut i: usize = 0;
    while i < items.len()
        invariant
            0 <= i <= items@.len(),
            cap > 0,
            cur@.len() < cap,
            out@.len() >= start.len(),
            (out@.len() - start.len()) * cap + cur@.len() == i,
            forall|k: int| start.len() <= k < out@.len() ==> (#[trigger] out@[k])@.len() == cap,
            forall|k: int| 0 <= k < start.len() ==> #[trigger] out@[k] == start[k],
            flatten(batches_view(out@)) + cur@ == flatten(batches_view(start)) + items@.subrange(0, i as int),
            forall|k: int|
                start.len() <= k < out@.len() ==> 0 < (#[trigger] out@[k])@.len() <= cap && (forall|m: int|
                    0 <= m < out@[k]@.len() ==> items@.contains(out@[k]@[m])),
            forall|m: int| 0 <= m < cur@.len() ==> items@.contains(cur@[m]),
        decreases items@.len() - i,
    {
        let ghost old_cur = cur@;
        cur.push(items[i]);
        assert(items@.contains(items@[i as int]));
        assert(items@.subrange(0, i + 1) =~= items@.subrange(0, i as int).push(items@[i as int]));
        assert(flatten(batches_view(out@)) + cur@ =~= (flatten(batches_view(out@)) + old_cur).push(
            items@[i as int],
        ));
        i = i + 1;
        if cur.len() == cap {
            let ghost before = out@;
            let ghost c = cur@;
            assert((before.len() - start.len() + 1) * cap == (before.len() - start.len()) * cap
                + cap) by (nonlinear_arith);
            out.push(cur);
            assert(batches_view(out@).drop_last() =~= batches_view(before));
            assert(batches_view(out@).last() == c);
            cur = Vec::new();
            assert(flatten(batches_view(out@)) + cur@ =~= flatten(batches_view(start)) + items@.subrange(0, i as int));
        }
    }
    let ghost full = out@.len() - start.len();
    let ghost rem = cur@.len();
    proof {
        lemma_batch_count(full as nat, rem as nat, cap as nat, items@.len());
    }
    if cur.len() > 0 {
        let ghost before = out@;
        let ghost c = cur@;
        out.push(cur);
        assert(batches_view(out@).drop_last() =~= batches_view(before));
        assert(batches_view(out@).last() == c);
    }
    assert(items@.subrange(0, items@.len() as int) =~= items@);
}

/// Splits the transactions into the batches that may be verified side by
/// side: deployments first, in batches of `MAX_PARALLEL_DEPLOY_VERIFICATIONS`,
/// then the others, in batches of `MAX_PARALLEL_EXECUTE_VERIFICATIONS`.
pub fn verification_batches(txs: &Vec<(Transaction, Option<Field>)>) -> (r: Vec<Vec<usize>>)
    ensures
        flatten(batches_view(r@)) == verification_order(txs@),
        batches_well_sized(txs@, batches_view(r@)),
        ({
            let nd = batch_count(positions(txs@, txs@.len(), true).len(), MAX_PARALLEL_DEPLOY_VERIFICATIONS as nat);
            let ne = batch_count(positions(txs@, txs@.len(), false).len(), MAX_PARALLEL_EXECUTE_VERIFICATIONS as nat);
            &&& r@.len() == nd + ne
            &&& forall|k: int| 0 <= k < nd ==> is_deploy_batch(txs@, #[trigger] r@[k]@)
            &&& forall|k: int| nd <= k < nd + ne ==> !is_deploy_batch(txs@, #[trigger] r@[k]@)
            &&& forall|k: int| 0 <= k < nd - 1 ==> (#[trigger] r@[k])@.len() == MAX_PARALLEL_DEPLOY_VERIFICATIONS
            &&& forall|k: int| nd <= k < nd + ne - 1 ==> (#[trigger] r@[k])@.len() == MAX_PARALLEL_EXECUTE_VERIFICATIONS
        }),
{
    let deploys = collect_positions(txs, true);
    let others = collect_positions(txs, false);
    let mut r: Vec<Vec<usize>> = Vec::new();
    assert(flatten(batches_view(r@)) =~= seq![]);
    push_chunks(&mut r, &deploys, MAX_PARALLEL_DEPLOY_VERIFICATIONS);
    let ghost mid = r@.len();
    let ghost r1 = r@;
    push_chunks(&mut r, &others, MAX_PARALLEL_EXECUTE_VERIFICATIONS);
    assert(flatten(batches_view(r@)) =~= verification_order(txs@));
    assert forall|k: int| 0 <= k < batches_view(r@).len() implies batch_ok(txs@, #[trigger] batches_view(r@)[k]) by {
        let batch = batches_view(r@)[k];
        assert(batch == r@[k]@);
        if k < mid {
            assert(r@[k] == r1[k]);
            assert(0 < batch.len() <= MAX_PARALLEL_DEPLOY_VERIFICATIONS);
            assert forall|m: int| 0 <= m < batch.len() implies #[trigger] batch[m] < txs@.len() && (
            txs@[batch[m] as int]).0.kind is Deploy by {
                assert(deploys@.contains(batch[m]));
                let j = choose|j: int| 0 <= j < deploys@.len() && deploys@[j] == batch[m];
                assert(txs@[deploys@[j] as int].0.kind is Deploy);
            }

        } else {
            assert(0 < batch.len() <= MAX_PARALLEL_EXECUTE_VERIFICATIONS);
            assert forall|m: int| 0 <= m < batch.len() implies #[trigger] batch[m] < txs@.len() && !((
            txs@[batch[m] as int]).0.kind is Deploy) by {
                assert(others@.contains(batch[m]));
                let j = choose|j: int| 0 <= j < others@.len() && others@[j] == batch[m];
                assert(!(txs@[others@[j] as int].0.kind is Deploy));
            }

        }
    }
    r
}

/// The checks of a transaction read the ledger, the process and the limits,
/// never the remembered transactions of the state they are given.
proof fn lemma_checks_ignore_cache(a: VM, b: VM, cache: Seq<Field>, tx: Transaction, rejected_id: Option<Field>)
    requires
        a.params == b.params,
        a.ledger == b.ledger,
        a.process_programs == b.process_programs,
        a.process == b.process,
    ensures
        check_transaction_spec(a, cache, tx, rejected_id) == check_transaction_spec(b, cache, tx, rejected_id),
        cache_after(a, cache, tx, rejected_id) == cache_after(b, cache, tx, rejected_id),
{
    reveal(check_transaction_spec);
    assert(fee_spec(a, tx.kind, rejected_id) == fee_spec(b, tx.kind, rejected_id));
    assert(kind_spec(a, tx.kind, cache, tx.id) == kind_spec(b, tx.kind, cache, tx.id));
}

impl VM {
    /// Checks a list of transactions, deployments first, then the others,
    /// in the batches of `verification_batches`; it stops at the first
    /// rejection and returns it.
    pub fn check_transactions(&mut self, transactions: &Vec<(Transaction, Option<Field>)>) -> (r: Result<
        (),
        TxError,
    >)
        ensures
            r == run_checks(
                *old(self),
                old(self).partially_verified@,
                transactions@,
                verification_order(transactions@),
            ).1,
            final(self).partially_verified@ == run_checks(
                *old(self),
                old(self).partially_verified@,
                transactions@,
                verification_order(transactions@),
            ).0,
            final(self).params == old(self).params,
            final(self).ledger == old(self).ledger,
            final(self).process_programs == old(self).process_programs,
            final(self).process == old(self).process,
    {
        let ghost vm0 = *self;
        let batches = verification_batches(transactions);
        let ghost bv = batches_view(batches@);
        let mut b: usize = 0;
        while b < batches.len()
            invariant
                0 <= b <= batches@.len(),
                vm0 == *old(self),
                bv == batches_view(batches@),
                flatten(bv) == verification_order(transactions@),
                batches_well_sized(transactions@, bv),
                self.params == vm0.params,
                self.ledger == vm0.ledger,
                self.process_programs == vm0.process_programs,
                self.process == vm0.process,
                run_checks(vm0, vm0.partially_verified@, transactions@, flatten(bv.subrange(0, b as int)))
                    == (self.partially_verified@, Ok::<(), TxError>(())),
            decreases batches@.len() - b,
        {
            let batch = &batches[b];
            let ghost done = flatten(bv.subrange(0, b as int));
            assert(bv[b as int] == batch@);
            let mut i: usize = 0;
            while i < batch.len()
                invariant
                    0 <= i <= batch@.len(),
                    vm0 == *old(self),
                    b < batches@.len(),
                    done == flatten(bv.subrange(0, b as int)),
                    flatten(bv) == verification_order(transactions@),
                    bv == batches_view(batches@),
                    bv[b as int] == batch@,
                    batches_well_sized(transactions@, bv),
                    self.params == vm0.params,
                    self.ledger == vm0.ledger,
                    self.process_programs == vm0.process_programs,
                    self.process == vm0.process,
                self.process == vm0.process,
                    run_checks(vm0, vm0.partially_verified@, transactions@, done + batch@.subrange(0, i as int))
                        == (self.partially_verified@, Ok::<(), TxError>(())),
                decreases batch@.len() - i,
            {
                let ghost before = self.partially_verified@;
                let ghost here = done + batch@.subrange(0, i + 1);
                assert(here.drop_last() =~= done + batch@.subrange(0, i as int));
                assert(batch@[i as int] < transactions@.len());
                let t = &transactions[batch[i]];
                let ghost pre = *self;
                proof {
                    lemma_checks_ignore_cache(vm0, *self, before, t.0, t.1);
                }
                let outcome = self.check_transaction(&t.0, t.1);
                assert(outcome == check_transaction_spec(pre, before, t.0, t.1));
                assert(check_transaction_spec(vm0, before, t.0, t.1) == check_transaction_spec(pre, before, t.0, t.1));
                match outcome {
                    Ok(()) => {
                        proof {
                            assert(here.last() == batch@[i as int]);
                            assert(transactions@[here.last() as int] == *t);
                            assert(run_checks(vm0, vm0.partially_verified@, transactions@, here) == (
                                cache_after(vm0, before, t.0, t.1),
                                check_transaction_spec(vm0, before, t.0, t.1),
                            ));
                            assert(outcome is Ok);
                            assert(outcome->Ok_0 == ());
                            assert(outcome == Ok::<(), TxError>(()));
                            assert(check_transaction_spec(vm0, before, t.0, t.1) == Ok::<(), TxError>(()));
                            assert(self.partially_verified@ == cache_after(vm0, before, t.0, t.1));
                            assert(run_checks(vm0, vm0.partially_verified@, transactions@, here) == (
                                self.partially_verified@,
                                Ok::<(), TxError>(()),
                            ));
                        }
                    },
                    Err(e) => {
                        proof {
                            lemma_flatten_prefix(bv, b as int);
                            assert(bv.subrange(0, b + 1).drop_last() =~= bv.subrange(0, b as int));
                            let whole = flatten(bv);
                            let upto = flatten(bv.subrange(0, b + 1));
                            assert(bv.subrange(0, b + 1).last() == bv[b as int]);
                            assert(upto == done + batch@);
                            assert(whole.subrange(0, here.len() as int) =~= here) by {
                                assert(upto.subrange(0, here.len() as int) =~= here);
                            }
                            assert(here.last() == batch@[i as int]);
                            assert(run_checks(vm0, vm0.partially_verified@, transactions@, here).1 is Err);
                            lemma_run_stops(vm0, vm0.partially_verified@, transactions@, here, verification_order(transactions@));
                        }
                        return Err(e);
                    },
                }
                i = i + 1;
            }
            assert(bv.subrange(0, b + 1).drop_last() =~= bv.subrange(0, b as int));
            assert(batch@.subrange(0, batch@.len() as int) =~= batch@);
            b = b + 1;
        }
        assert(bv.subrange(0, bv.len() as int) =~= bv);
        Ok(())
    }
}

/// The batches up to `b` are laid out at the start of the whole.
proof fn lemma_flatten_prefix(bv: Seq<Seq<usize>>, b: int)
    requires
        0 <= b < bv.len(),
    ensures
        flatten(bv.subrange(0, b + 1)).len() <= flatten(bv).len(),
        flatten(bv).subrange(0, flatten(bv.subrange(0, b + 1)).len() as int) == flatten(
            bv.subrange(0, b + 1),
        ),
    decreases bv.len(),
{
    if b + 1 == bv.len() {
        assert(bv.subrange(0, b + 1) =~= bv);
        assert(flatten(bv).subrange(0, flatten(bv).len() as int) =~= flatten(bv));
    } else {
        let d = bv.drop_last();
        lemma_flatten_prefix(d, b);
        assert(d.subrange(0, b + 1) =~= bv.subrange(0, b + 1));
        assert(flatten(bv) == flatten(d) + bv.last());
        let n = flatten(bv.subrange(0, b + 1)).len() as int;
        assert(flatten(bv).subrange(0, n) =~= flatten(d).subrange(0, n));
    }
}

/// Once a check in the order fails, the run over any longer order ends with
/// that failure.
proof fn lemma_run_stops(
    vm: VM,
    cache: Seq<Field>,
    txs: Seq<(Transaction, Option<Field>)>,
    prefix: Seq<usize>,
    order: Seq<usize>,
)
    requires
        prefix.len() <= order.len(),
        order.subrange(0, prefix.len() as int) == prefix,
        run_checks(vm, cache, txs, prefix).1 is Err,
    ensures
        run_checks(vm, cache, txs, order) == run_checks(vm, cache, txs, prefix),
    decreases order.len(),
{
    if order.len() > prefix.len() {
        assert(order.drop_last().subrange(0, prefix.len() as int) =~= prefix);
        lemma_run_stops(vm, cache, txs, prefix, order.drop_last());
    } else {
        assert(order =~= prefix);
    }
}

} // verus!
