//! The public inputs of an execution's transitions, built in the fixed order
//! that the circuits expect, checked against the shape of each function, and
//! grouped by function for one batch verification.
use crate::field::{extend_fields, Field};
use vstd::prelude::*;

verus! {

/// A function of a program: the program's ID and the function's name.
#[derive(Clone, Copy, Debug, PartialEq, Eq, Structural)]
pub struct Locator {
    pub program_id: Field,
    pub function_name: Field,
}

/// An input of a transition, as the transition carries it.
#[derive(Clone, Debug)]
pub struct Input {
    /// Whether the input's own check passes at its position (its ID against
    /// the function ID and the transition commitment).
    pub is_valid: bool,
    /// The elements that the input contributes to the verifier.
    pub verifier_inputs: Vec<Field>,
}

/// An output of a transition, as the transition carries it.
#[derive(Clone, Debug)]
pub struct Output {
    /// Whether the output's own check passes at its position.
    pub is_valid: bool,
    /// The output's ID.
    pub id: Field,
    /// The elements that the output contributes to the verifier.
    pub verifier_inputs: Vec<Field>,
}

/// The inputs that a transition hands to its function's finalize scope.
#[derive(Clone, Copy, Debug, PartialEq, Eq, Structural)]
pub struct FinalizeInputs {
    /// How many values are handed over.
    pub count: usize,
    /// The checksum of their bits.
    pub checksum: Field,
}

/// One call of a function, with what it consumed and produced.
#[derive(Clone, Debug)]
pub struct Transition {
    pub locator: Locator,
    /// The transition ID that the transition claims.
    pub id: Field,
    /// The Merkle root of the transition's contents, `None` when it cannot be
    /// computed.
    pub root: Option<Field>,
    pub inputs: Vec<Input>,
    pub outputs: Vec<Output>,
    /// The coordinates of the transition public key.
    pub tpk_x: Field,
    pub tpk_y: Field,
    /// The transition commitment.
    pub tcm: Field,
    pub finalize: Option<FinalizeInputs>,
}

/// The instructions of a function, as far as the verifier looks at them.
#[derive(Clone, Copy, Debug, PartialEq, Eq, Structural)]
pub enum Instruction {
    /// A call of another function: it produces a transition of its own.
    CallFunction,
    /// A call of a closure: it runs inside the caller's transition.
    CallClosure,
    /// Anything else.
    Other,
}

/// The finalize scope of a function.
#[derive(Clone, Copy, Debug, PartialEq, Eq, Structural)]
pub struct FinalizeScope {
    /// The operands of the finalize command.
    pub num_operands: usize,
    /// The inputs of the finalize logic.
    pub num_inputs: usize,
}

/// A deployed function, as the verifier needs it.
#[derive(Clone, Debug)]
pub struct Function {
    pub locator: Locator,
    /// The transitions that one call of the function produces, its own included.
    pub number_of_calls: usize,
    /// The declared number of inputs.
    pub num_inputs: usize,
    /// The declared number of outputs.
    pub num_outputs: usize,
    pub instructions: Vec<Instruction>,
    pub finalize: Option<FinalizeScope>,
}

/// The deployed functions, and the network's limit on inputs and outputs.
#[derive(Clone, Debug)]
pub struct Process {
    pub functions: Vec<Function>,
    pub max_inputs: usize,
}

/// The transitions of an execution; the last one is the main call.
#[derive(Clone, Debug)]
pub struct Execution {
    pub transitions: Vec<Transition>,
}

/// Why an execution was rejected before its proof is checked.
#[derive(Clone, Copy, Debug, PartialEq, Eq, Structural)]
pub enum ExecutionError {
    /// There are no transitions.
    Empty,
    /// A transition names a function that is not deployed.
    UnknownFunction,
    /// The number of transitions is not what the main function produces.
    WrongNumberOfTransitions,
    /// A transition ID is not the root of its contents.
    IncorrectTransitionId,
    TooManyInputs,
    TooManyOutputs,
    InvalidInput,
    InvalidOutput,
    /// A transition's inputs are not as many as its function declares.
    InputCountMismatch,
    /// A transition's outputs are not as many as its function declares.
    OutputCountMismatch,
    /// The function has a finalize scope and the transition hands it nothing.
    MissingFinalize,
    TooManyFinalizeInputs,
    /// The finalize inputs do not match the finalize command's operands.
    FinalizeOperandMismatch,
    /// The finalize inputs do not match the finalize logic's inputs.
    FinalizeInputMismatch,
}

/// The public inputs of every transition of one function.
#[derive(Clone, Debug)]
pub struct VerifierGroup {
    pub locator: Locator,
    pub instances: Vec<Vec<Field>>,
}

impl View for VerifierGroup {
    type V = (Locator, Seq<Seq<Field>>);

    open spec fn view(&self) -> (Locator, Seq<Seq<Field>>) {
        (self.locator, self.instances@.map_values(|v: Vec<Field>| v@))
    }
}

pub open spec fn groups_view(g: Seq<VerifierGroup>) -> Seq<(Locator, Seq<Seq<Field>>)> {
    g.map_values(|x: VerifierGroup| x@)
}

/// The verifier elements of a list of inputs, one after the other.
pub open spec fn input_fields(s: Seq<Input>) -> Seq<Field>
    decreases s.len(),
{
    if s.len() == 0 {
        seq![]
    } else {
        input_fields(s.drop_last()) + s.last().verifier_inputs@
    }
}

/// The verifier elements of a list of outputs, one after the other.
pub open spec fn output_fields(s: Seq<Output>) -> Seq<Field>
    decreases s.len(),
{
    if s.len() == 0 {
        seq![]
    } else {
        output_fields(s.drop_last()) + s.last().verifier_inputs@
    }
}

/// The IDs of a list of outputs.
pub open spec fn output_ids(s: Seq<Output>) -> Seq<Field>
    decreases s.len(),
{
    if s.len() == 0 {
        seq![]
    } else {
        output_ids(s.drop_last()).push(s.last().id)
    }
}

/// What the caller sees of the calls it made: for each callee transition, its
/// input elements, then its output IDs.
pub open spec fn call_fields(ts: Seq<Transition>) -> Seq<Field>
    decreases ts.len(),
{
    if ts.len() == 0 {
        seq![]
    } else {
        call_fields(ts.drop_last()) + input_fields(ts.last().inputs@) + output_ids(
            ts.last().outputs@,
        )
    }
}

/// The number of calls of other functions among the instructions.
pub open spec fn count_function_calls(s: Seq<Instruction>) -> nat
    decreases s.len(),
{
    if s.len() == 0 {
        0
    } else {
        count_function_calls(s.drop_last()) + if s.last() is CallFunction {
            1nat
        } else {
            0nat
        }
    }
}

/// The first function deployed under `loc`.
pub open spec fn function_index(fs: Seq<Function>, loc: Locator) -> Option<int> {
    if exists|j: int| 0 <= j < fs.len() && #[trigger] fs[j].locator == loc {
        Some(
            choose|j: int|
                0 <= j < fs.len() && #[trigger] fs[j].locator == loc && forall|k: int|
                    0 <= k < j ==> #[trigger] fs[k].locator != loc,
        )
    } else {
        None
    }
}

/// The public inputs of a transition, in the order its circuit expects: the
/// unit element, the transition public key's two coordinates, the transition
/// commitment, the inputs' elements, what the calls it made contribute, the
/// outputs' elements and, where the function finalizes, the checksum of the
/// finalize inputs.
pub open spec fn public_inputs(
    t: Transition,
    callees: Seq<Transition>,
    finalize: Option<Field>,
) -> Seq<Field> {
    let head = seq![Field::spec_from_u64(1), t.tpk_x, t.tpk_y, t.tcm] + input_fields(t.inputs@)
        + call_fields(callees) + output_fields(t.outputs@);
    match finalize {
        Some(c) => head.push(c),
        None => head,
    }
}

/// The checks of a transition on its own and against the shape of its
/// function: the index of that function, or why the transition is rejected.
pub open spec fn precheck_spec(p: Process, t: Transition) -> Result<int, ExecutionError> {
    if t.root != Some(t.id) {
        Err(ExecutionError::IncorrectTransitionId)
    } else if t.inputs@.len() > p.max_inputs {
        Err(ExecutionError::TooManyInputs)
    } else if t.outputs@.len() > p.max_inputs {
        Err(ExecutionError::TooManyOutputs)
    } else if exists|i: int| 0 <= i < t.inputs@.len() && !(#[trigger] t.inputs@[i]).is_valid {
        Err(ExecutionError::InvalidInput)
    } else if exists|i: int| 0 <= i < t.outputs@.len() && !(#[trigger] t.outputs@[i]).is_valid {
        Err(ExecutionError::InvalidOutput)
    } else {
        match function_index(p.functions@, t.locator) {
            None => Err(ExecutionError::UnknownFunction),
            Some(j) => if t.inputs@.len() != p.functions@[j].num_inputs {
                Err(ExecutionError::InputCountMismatch)
            } else if t.outputs@.len() != p.functions@[j].num_outputs {
                Err(ExecutionError::OutputCountMismatch)
            } else {
                Ok(j)
            },
        }
    }
}

/// The public inputs of the transition at `idx`, or why it is rejected. The
/// calls it made are the transitions just before it, as many as its function
/// has calls of other functions.
#[verifier::opaque]
pub open spec fn transition_inputs_spec(p: Process, ts: Seq<Transition>, idx: int) -> Result<
    Seq<Field>,
    ExecutionError,
> {
    let t = ts[idx];
    match precheck_spec(p, t) {
        Err(e) => Err(e),
        Ok(j) => {
            let f = p.functions@[j];
            let k = count_function_calls(f.instructions@) as int;
            let lo = if k <= idx {
                idx - k
            } else {
                0
            };
            let callees = ts.subrange(lo, idx);
            match f.finalize {
                None => Ok(public_inputs(t, callees, None)),
                Some(scope) => match t.finalize {
                    None => Err(ExecutionError::MissingFinalize),
                    Some(fin) => if fin.count > p.max_inputs {
                        Err(ExecutionError::TooManyFinalizeInputs)
                    } else if fin.count != scope.num_operands {
                        Err(ExecutionError::FinalizeOperandMismatch)
                    } else if fin.count != scope.num_inputs {
                        Err(ExecutionError::FinalizeInputMismatch)
                    } else {
                        Ok(public_inputs(t, callees, Some(fin.checksum)))
                    },
                },
            }
        },
    }
}

/// The instances of the last `k` transitions, taken from the last one back,
/// or the first rejection met on the way.
pub open spec fn instances_spec(p: Process, ts: Seq<Transition>, k: nat) -> Result<
    Seq<(Locator, Seq<Field>)>,
    ExecutionError,
>
    decreases k,
{
    if k == 0 {
        Ok(seq![])
    } else {
        match instances_spec(p, ts, (k - 1) as nat) {
            Err(e) => Err(e),
            Ok(s) => match transition_inputs_spec(p, ts, ts.len() - k) {
                Err(e) => Err(e),
                Ok(v) => Ok(s.push((ts[ts.len() - k].locator, v))),
            },
        }
    }
}

/// The group of `loc` among `g`.
pub open spec fn group_index(g: Seq<(Locator, Seq<Seq<Field>>)>, loc: Locator) -> Option<int> {
    if exists|j: int| 0 <= j < g.len() && (#[trigger] g[j]).0 == loc {
        Some(
            choose|j: int|
                0 <= j < g.len() && (#[trigger] g[j]).0 == loc && forall|k: int|
                    0 <= k < j ==> (#[trigger] g[k]).0 != loc,
        )
    } else {
        None
    }
}

/// The instances grouped by function: one group per function, in the order
/// in which the functions first occur, each holding its instances in order.
pub open spec fn group_spec(s: Seq<(Locator, Seq<Field>)>) -> Seq<(Locator, Seq<Seq<Field>>)>
    decreases s.len(),
{
    if s.len() == 0 {
        seq![]
    } else {
        group_step(group_spec(s.drop_last()), s.last().0, s.last().1)
    }
}

/// Adds one instance of `loc` to the groups `g`.
pub open spec fn group_step(g: Seq<(Locator, Seq<Seq<Field>>)>, loc: Locator, v: Seq<Field>) -> Seq<
    (Locator, Seq<Seq<Field>>),
> {
    match group_index(g, loc) {
        Some(j) => g.update(j, (loc, g[j].1.push(v))),
        None => g.push((loc, seq![v])),
    }
}

/// The grouped public inputs of an execution, or why it is rejected.
pub open spec fn verify_execution_spec(p: Process, ts: Seq<Transition>) -> Result<
    Seq<(Locator, Seq<Seq<Field>>)>,
    ExecutionError,
> {
    if ts.len() == 0 {
        Err(ExecutionError::Empty)
    } else {
        match function_index(p.functions@, ts.last().locator) {
            None => Err(ExecutionError::UnknownFunction),
            Some(j) => if p.functions@[j].number_of_calls != ts.len() {
                Err(ExecutionError::WrongNumberOfTransitions)
            } else {
                match instances_spec(p, ts, ts.len()) {
                    Err(e) => Err(e),
                    Ok(s) => Ok(group_spec(s)),
                }
            },
        }
    }
}

/// The number of calls of other functions among `instrs`.
pub fn num_function_calls(instrs: &Vec<Instruction>) -> (r: usize)
    ensures
        r == count_function_calls(instrs@),
{
    let mut n: usize = 0;
    let mut i: usize = 0;
    while i < instrs.len()
        invariant
            0 <= i <= instrs@.len(),
            n == count_function_calls(instrs@.subrange(0, i as int)),
            n <= i,
        decreases instrs@.len() - i,
    {
        assert(instrs@.subrange(0, i + 1).drop_last() =~= instrs@.subrange(0, i as int));
        if matches!(instrs[i], Instruction::CallFunction) {
            n = n + 1;
        }
        i = i + 1;
    }
    assert(instrs@.subrange(0, instrs@.len() as int) =~= instrs@);
    n
}

fn push_input_fields(out: &mut Vec<Field>, inputs: &Vec<Input>)
    ensures
        final(out)@ == old(out)@ + input_fields(inputs@),
{
    let ghost start = out@;
    let mut i: usize = 0;
    while i < inputs.len()
        invariant
            0 <= i <= inputs@.len(),
            out@ == start + input_fields(inputs@.subrange(0, i as int)),
        decreases inputs@.len() - i,
    {
        assert(inputs@.subrange(0, i + 1).drop_last() =~= inputs@.subrange(0, i as int));
        extend_fields(out, &inputs[i].verifier_inputs);
        i = i + 1;
        assert(out@ =~= start + input_fields(inputs@.subrange(0, i as int)));
    }
    assert(inputs@.subrange(0, inputs@.len() as int) =~= inputs@);
}

fn push_output_fields(out: &mut Vec<Field>, outputs: &Vec<Output>)
    ensures
        final(out)@ == old(out)@ + output_fields(outputs@),
{
    let ghost start = out@;
    let mut i: usize = 0;
    while i < outputs.len()
        invariant
            0 <= i <= outputs@.len(),
            out@ == start + output_fields(outputs@.subrange(0, i as int)),
        decreases outputs@.len() - i,
    {
        assert(outputs@.subrange(0, i + 1).drop_last() =~= outputs@.subrange(0, i as int));
        extend_fields(out, &outputs[i].verifier_inputs);
        i = i + 1;
        assert(out@ =~= start + output_fields(outputs@.subrange(0, i as int)));
    }
    assert(outputs@.subrange(0, outputs@.len() as int) =~= outputs@);
}

fn push_output_ids(out: &mut Vec<Field>, outputs: &Vec<Output>)
    ensures
        final(out)@ == old(out)@ + output_ids(outputs@),
{
    let ghost start = out@;
    let mut i: usize = 0;
    while i < outputs.len()
        invariant
            0 <= i <= outputs@.len(),
            out@ == start + output_ids(outputs@.subrange(0, i as int)),
        decreases outputs@.len() - i,
    {
        assert(outputs@.subrange(0, i + 1).drop_last() =~= outputs@.subrange(0, i as int));
        out.push(outputs[i].id);
        i = i + 1;
        assert(out@ =~= start + output_ids(outputs@.subrange(0, i as int)));
    }
    assert(outputs@.subrange(0, outputs@.len() as int) =~= outputs@);
}

/// Adds the public inputs of one instance of `loc` to its group, opening
/// the group if it is the first instance.
fn add_instance(groups: &mut Vec<VerifierGroup>, loc: Locator, inputs: Vec<Field>)
    ensures
        groups_view(final(groups)@) == group_step(groups_view(old(groups)@), loc, inputs@),
{
    let ghost g0 = groups_view(groups@);
    let mut i: usize = 0;
    while i < groups.len()
        invariant
            0 <= i <= groups@.len(),
            groups@ == old(groups)@,
            g0 == groups_view(groups@),
            forall|k: int| 0 <= k < i ==> (#[trigger] g0[k]).0 != loc,
        decreases groups@.len() - i,
    {
        if groups[i].locator == loc {
            assert(g0[i as int].0 == loc);
            let ghost j = group_index(g0, loc)->0;
            assert(0 <= j < g0.len() && g0[j].0 == loc);
            assert(j == i) by {
                if j < i {
                    assert(g0[j].0 != loc);
                }
            }
            let ghost before = groups@;
            let ghost v = inputs@;
            let mut g = groups.remove(i);
            let ghost old_instances = g.instances@;
            assert(g == before[i as int]);
            g.instances.push(inputs);
            assert(g@.1 =~= g0[i as int].1.push(v)) by {
                assert(old_instances.map_values(|x: Vec<Field>| x@) == g0[i as int].1);
            }
            assert(g@ == (loc, g0[i as int].1.push(v)));
            groups.insert(i, g);
            assert(groups@ =~= before.update(i as int, g));
            assert(groups_view(groups@) =~= g0.update(i as int, g@));
            assert(group_step(g0, loc, v) == g0.update(i as int, (loc, g0[i as int].1.push(v))));
            return;
        }
        i = i + 1;
    }
    let ghost v = inputs@;
    let mut instances: Vec<Vec<Field>> = Vec::new();
    instances.push(inputs);
    groups.push(VerifierGroup { locator: loc, instances });
    assert(instances@.map_values(|x: Vec<Field>| x@) =~= seq![v]);
    assert(groups_view(groups@) =~= group_step(g0, loc, v));
}

impl Process {
    /// The index of the first function deployed under `loc`.
    pub fn find_function(&self, loc: Locator) -> (r: Option<usize>)
        ensures
            r is None <==> function_index(self.functions@, loc) is None,
            r matches Some(i) ==> function_index(self.functions@, loc) == Some(i as int) && i
                < self.functions@.len() && self.functions@[i as int].locator == loc,
    {
        let mut i: usize = 0;
        while i < self.functions.len()
            invariant
                0 <= i <= self.functions@.len(),
                forall|k: int| 0 <= k < i ==> #[trigger] self.functions@[k].locator != loc,
            decreases self.functions@.len() - i,
        {
            if self.functions[i].locator == loc {
                let ghost fs = self.functions@;
                assert(fs[i as int].locator == loc);
                let ghost j = function_index(fs, loc)->0;
                assert(0 <= j < fs.len() && fs[j].locator == loc);
                assert(j == i) by {
                    if j < i {
                        assert(fs[j].locator != loc);
                    }
                }
                return Some(i);
            }
            i = i + 1;
        }
        None
    }

    /// The checks of a transition on its own and against its function's
    /// shape; on success, the index of the function.
    pub fn precheck(&self, t: &Transition) -> (r: Result<usize, ExecutionError>)
        ensures
            r is Err ==> precheck_spec(*self, *t) == Err::<int, ExecutionError>(r->Err_0),
            r matches Ok(j) ==> precheck_spec(*self, *t) == Ok::<int, ExecutionError>(j as int) && j
                < self.functions@.len(),
    {
        match t.root {
            Some(root) => {
                if root != t.id {
                    return Err(ExecutionError::IncorrectTransitionId);
                }
            },
            None => {
                return Err(ExecutionError::IncorrectTransitionId);
            },
        }
        if t.inputs.len() > self.max_inputs {
            return Err(ExecutionError::TooManyInputs);
        }
        if t.outputs.len() > self.max_inputs {
            return Err(ExecutionError::TooManyOutputs);
        }
        let mut i: usize = 0;
        while i < t.inputs.len()
            invariant
                0 <= i <= t.inputs@.len(),
                t.root == Some(t.id),
                t.inputs@.len() <= self.max_inputs,
                t.outputs@.len() <= self.max_inputs,
                forall|k: int| 0 <= k < i ==> (#[trigger] t.inputs@[k]).is_valid,
            decreases t.inputs@.len() - i,
        {
            if !t.inputs[i].is_valid {
                assert(!(t.inputs@[i as int]).is_valid);
                return Err(ExecutionError::InvalidInput);
            }
            i = i + 1;
        }
        let mut i: usize = 0;
        while i < t.outputs.len()
            invariant
                0 <= i <= t.outputs@.len(),
                t.root == Some(t.id),
                t.inputs@.len() <= self.max_inputs,
                t.outputs@.len() <= self.max_inputs,
                forall|k: int| 0 <= k < t.inputs@.len() ==> (#[trigger] t.inputs@[k]).is_valid,
                forall|k: int| 0 <= k < i ==> (#[trigger] t.outputs@[k]).is_valid,
            decreases t.outputs@.len() - i,
        {
            if !t.outputs[i].is_valid {
                assert(!(t.outputs@[i as int]).is_valid);
                return Err(ExecutionError::InvalidOutput);
            }
            i = i + 1;
        }
        let j = match self.find_function(t.locator) {
            Some(j) => j,
            None => {
                return Err(ExecutionError::UnknownFunction);
            },
        };
        if t.inputs.len() != self.functions[j].num_inputs {
            return Err(ExecutionError::InputCountMismatch);
        }
        if t.outputs.len() != self.functions[j].num_outputs {
            return Err(ExecutionError::OutputCountMismatch);
        }
        Ok(j)
    }

    /// The public inputs of the transition at `idx`, in the order its
    /// circuit expects, or why it is rejected.
    pub fn transition_inputs(&self, ts: &Vec<Transition>, idx: usize) -> (r: Result<
        Vec<Field>,
        ExecutionError,
    >)
        requires
            idx < ts@.len(),
        ensures
            match transition_inputs_spec(*self, ts@, idx as int) {
                Ok(v) => r is Ok && r->Ok_0@ == v,
                Err(e) => r == Err::<Vec<Field>, ExecutionError>(e),
            },
    {
        reveal(transition_inputs_spec);
        let t = &ts[idx];
        let j = match self.precheck(t) {
            Ok(j) => j,
            Err(e) => {
                return Err(e);
            },
        };
        let f = &self.functions[j];
        let k = num_function_calls(&f.instructions);
        let lo = if k <= idx {
            idx - k
        } else {
            0
        };
        let mut inputs: Vec<Field> = vec![Field::one(), t.tpk_x, t.tpk_y, t.tcm];
        push_input_fields(&mut inputs, &t.inputs);
        let ghost before_calls = inputs@;
        let mut m: usize = lo;
        while m < idx
            invariant
                lo <= m <= idx,
                idx < ts@.len(),
                inputs@ == before_calls + call_fields(ts@.subrange(lo as int, m as int)),
            decreases idx - m,
        {
            assert(ts@.subrange(lo as int, m + 1).drop_last() =~= ts@.subrange(lo as int, m as int));
            push_input_fields(&mut inputs, &ts[m].inputs);
            push_output_ids(&mut inputs, &ts[m].outputs);
            m = m + 1;
            assert(inputs@ =~= before_calls + call_fields(ts@.subrange(lo as int, m as int)));
        }
        push_output_fields(&mut inputs, &t.outputs);
        assert(inputs@ =~= public_inputs(*t, ts@.subrange(lo as int, idx as int), None));
        match f.finalize {
            None => Ok(inputs),
            Some(scope) => match t.finalize {
                None => Err(ExecutionError::MissingFinalize),
                Some(fin) => {
                    if fin.count > self.max_inputs {
                        return Err(ExecutionError::TooManyFinalizeInputs);
                    }
                    if fin.count != scope.num_operands {
                        return Err(ExecutionError::FinalizeOperandMismatch);
                    }
                    if fin.count != scope.num_inputs {
                        return Err(ExecutionError::FinalizeInputMismatch);
                    }
                    inputs.push(fin.checksum);
                    Ok(inputs)
                },
            },
        }
    }
}

impl Process {
    /// Checks an execution's transitions, from the main call back to the
    /// first, and returns their public inputs grouped by function (groups in
    /// order of first occurrence, instances in the order checked), ready for
    /// one batch verification of the execution's proof.
    pub fn verify_execution(&self, execution: &Execution) -> (r: Result<
        Vec<VerifierGroup>,
        ExecutionError,
    >)
        ensures
            match verify_execution_spec(*self, execution.transitions@) {
                Ok(g) => r is Ok && groups_view(r->Ok_0@) == g,
                Err(e) => r == Err::<Vec<VerifierGroup>, ExecutionError>(e),
            },
    {
        let ts = &execution.transitions;
        let n = ts.len();
        if n == 0 {
            return Err(ExecutionError::Empty);
        }
        let main = match self.find_function(ts[n - 1].locator) {
            Some(j) => j,
            None => {
                return Err(ExecutionError::UnknownFunction);
            },
        };
        if self.functions[main].number_of_calls != n {
            return Err(ExecutionError::WrongNumberOfTransitions);
        }
        let mut groups: Vec<VerifierGroup> = Vec::new();
        let mut k: usize = 0;
        while k < n
            invariant
                n == ts@.len(),
                n > 0,
                *ts == execution.transitions,
                function_index(self.functions@, ts@.last().locator) == Some(main as int),
                self.functions@[main as int].number_of_calls == n,
                0 <= k <= n,
                instances_spec(*self, ts@, k as nat) is Ok,
                groups_view(groups@) == group_spec(instances_spec(*self, ts@, k as nat)->Ok_0),
            decreases n - k,
        {
            let idx = n - 1 - k;
            let inputs = match self.transition_inputs(ts, idx) {
                Ok(v) => v,
                Err(e) => {
                    proof {
                        lemma_instances_stop(*self, ts@, (k + 1) as nat, n as nat, e);
                    }
                    return Err(e);
                },
            };
            let ghost prev = instances_spec(*self, ts@, k as nat)->Ok_0;
            add_instance(&mut groups, ts[idx].locator, inputs);
            k = k + 1;
            proof {
                let cur = instances_spec(*self, ts@, k as nat)->Ok_0;
                assert(cur.drop_last() =~= prev);
            }
        }
        Ok(groups)
    }
}

/// Once a transition is rejected, the whole run stops with its error.
proof fn lemma_instances_stop(p: Process, ts: Seq<Transition>, k0: nat, k: nat, e: ExecutionError)
    requires
        0 < k0 <= k,
        instances_spec(p, ts, (k0 - 1) as nat) is Ok,
        transition_inputs_spec(p, ts, ts.len() - k0) == Err::<Seq<Field>, ExecutionError>(e),
    ensures
        instances_spec(p, ts, k) == Err::<Seq<(Locator, Seq<Field>)>, ExecutionError>(e),
    decreases k,
{
    if k > k0 {
        lemma_instances_stop(p, ts, k0, (k - 1) as nat, e);
    }
}

} // verus!
