//! The decisions of local differential and backend-comparison campaigns: which runner
//! identities are acceptable, how a numeric policy is mutated, and which executable a
//! mutated kernel runs as. Running kernels on caller buffers and comparing floating-point
//! results happen outside this crate's verified core.
use vstd::prelude::*;

use crate::differentiate::{
    differentiation, readable_count, readable_list, DifferentiationError, DifferentiationFailure, ProductModel,
    RequestModel,
};
use crate::executable::{canonical_order, Executable, KernelSchedule};
use crate::digest::{append_decimal, decimal};
use crate::ir::{
    AccessMode, AxisId, DerivativeMode, DerivativeOperand, DerivativeProduct, DerivativeRequest, NumericPolicy, OperandId, OperandModel,
    ReductionOrder, ScalarType, StructuredKernel, StructuredModule,
};
use crate::validate::{is_blank, is_white_space, kernel_violation, ValidatedKernel, ValidatedModule, ValidationError, Violation};

verus! {

/// The identity of the reference interpreter.
pub const REFERENCE_IMPLEMENTATION: &'static str = "malleus-interpreter/reference-v1";

#[derive(Clone, Copy, Debug, PartialEq, Eq, Structural)]
pub enum LocalCheckKind {
    PrimalInterpreterVsExecutable,
    JvpInterpreterVsExecutable,
    JvpCenteredDifference,
    VjpInterpreterVsExecutable,
    JvpVjpAdjointIdentity,
    ParameterJvpInterpreterVsExecutable,
    ParameterJvpCenteredDifference,
    NumericPolicyMutation,
}

#[derive(Clone, Copy, Debug, PartialEq, Eq, Structural)]
pub enum NumericPolicyMutation {
    DemoteF64ToF32,
    PromoteF32ToF64,
    ToggleReductionOrder,
}

#[derive(Clone, Debug, PartialEq, Eq)]
pub enum CampaignError {
    InvalidModule(ValidationError),
    InvalidCase(String),
    Differentiation(DifferentiationError),
    Execution { runner: String, message: String },
    MutationNotApplicable,
}

/// The mathematical content of a [`CampaignError`].
pub enum CampaignFailure {
    InvalidModule(Violation),
    InvalidCase(Seq<char>),
    Differentiation(DifferentiationFailure),
    Execution { runner: Seq<char>, message: Seq<char> },
    MutationNotApplicable,
}

impl View for CampaignError {
    type V = CampaignFailure;

    open spec fn view(&self) -> CampaignFailure {
        match self {
            CampaignError::InvalidModule(e) => CampaignFailure::InvalidModule(e@),
            CampaignError::InvalidCase(m) => CampaignFailure::InvalidCase(m@),
            CampaignError::Differentiation(e) => CampaignFailure::Differentiation(e@),
            CampaignError::Execution { runner, message } => CampaignFailure::Execution {
                runner: runner@,
                message: message@,
            },
            CampaignError::MutationNotApplicable => CampaignFailure::MutationNotApplicable,
        }
    }
}

/// A refused campaign case, with its reason.
pub fn invalid_case(message: &str) -> (e: CampaignError)
    ensures
        e@ == CampaignFailure::InvalidCase(message@),
{
    CampaignError::InvalidCase(message.to_owned())
}

// ---------------------------------------------------------------------------------------------
// Runner identities
// ---------------------------------------------------------------------------------------------
/// The position of the last `/` among the first `n` characters.
pub open spec fn last_slash(s: Seq<char>, n: int) -> Option<int>
    decreases n,
{
    if n <= 0 {
        None
    } else if s[n - 1] == '/' {
        Some(n - 1)
    } else {
        last_slash(s, n - 1)
    }
}

/// No white space at either end.
pub open spec fn is_trimmed(s: Seq<char>) -> bool {
    s.len() == 0 || (!is_white_space(s[0]) && !is_white_space(s.last()))
}

/// `implementation/version`, split at the last `/`, with both parts not blank and no white
/// space around the whole.
pub open spec fn versioned_identity(s: Seq<char>) -> bool {
    match last_slash(s, s.len() as int) {
        Some(p) => !is_blank(s.take(p)) && !is_blank(s.skip(p + 1)) && is_trimmed(s),
        None => false,
    }
}

/// What checking a runner identity owes.
pub open spec fn identity_outcome(s: Seq<char>) -> Result<(), CampaignFailure> {
    if !versioned_identity(s) {
        Err(
            CampaignFailure::InvalidCase(
                "runner identity must name a versioned implementation as implementation/version"@,
            ),
        )
    } else if s == REFERENCE_IMPLEMENTATION@ {
        Err(CampaignFailure::InvalidCase("the reference interpreter cannot be its own executable candidate"@))
    } else {
        Ok(())
    }
}

fn find_last_slash(s: &str) -> (r: Option<usize>)
    ensures
        match r {
            Some(p) => last_slash(s@, s@.len() as int) == Some(p as int) && p < s@.len(),
            None => last_slash(s@, s@.len() as int) is None,
        },
{
    let n = s.unicode_len();
    let mut i: usize = n;
    while i > 0
        invariant
            i <= n,
            n == s@.len(),
            last_slash(s@, n as int) == last_slash(s@, i as int),
        decreases i,
    {
        if s.get_char(i - 1) == '/' {
            return Some(i - 1);
        }
        i = i - 1;
    }
    None
}

/// Check that a runner identity names a versioned implementation other than the reference
/// interpreter.
pub fn validate_runner_identity(identity: &str) -> (r: Result<(), CampaignError>)
    ensures
        match r {
            Ok(_) => identity_outcome(identity@) is Ok,
            Err(e) => identity_outcome(identity@) == Err::<(), CampaignFailure>(e@),
        },
{
    let n = identity.unicode_len();
    let versioned = match find_last_slash(identity) {
        Some(p) => {
            let implementation = identity.substring_char(0, p);
            let version = identity.substring_char(p + 1, n);
            let trimmed = n == 0 || (!crate::validate::white_space(identity.get_char(0))
                && !crate::validate::white_space(identity.get_char(n - 1)));
            proof {
                assert(implementation@ =~= identity@.take(p as int));
                assert(version@ =~= identity@.skip(p + 1));
            }
            !crate::validate::blank(implementation) && !crate::validate::blank(version) && trimmed
        },
        None => false,
    };
    if !versioned {
        return Err(invalid_case("runner identity must name a versioned implementation as implementation/version"));
    }
    if crate::validate::str_equal(identity, REFERENCE_IMPLEMENTATION) {
        return Err(invalid_case("the reference interpreter cannot be its own executable candidate"));
    }
    Ok(())
}

// ---------------------------------------------------------------------------------------------
// Numeric-policy mutations
// ---------------------------------------------------------------------------------------------
/// The policy a mutation produces, or `None` where it does not apply.
pub open spec fn mutated_policy(policy: NumericPolicy, mutation: NumericPolicyMutation) -> Option<NumericPolicy> {
    match mutation {
        NumericPolicyMutation::DemoteF64ToF32 => if policy.scalar_type == ScalarType::F64 {
            Some(NumericPolicy { scalar_type: ScalarType::F32, ..policy })
        } else {
            None
        },
        NumericPolicyMutation::PromoteF32ToF64 => if policy.scalar_type == ScalarType::F32 {
            Some(NumericPolicy { scalar_type: ScalarType::F64, ..policy })
        } else {
            None
        },
        NumericPolicyMutation::ToggleReductionOrder => Some(
            NumericPolicy {
                reduction_order: if policy.reduction_order == ReductionOrder::Canonical {
                    ReductionOrder::ScheduleDefined
                } else {
                    ReductionOrder::Canonical
                },
                ..policy
            },
        ),
    }
}

/// Apply a numeric-policy mutation; a demotion or promotion that does not apply leaves the
/// policy unchanged and is refused.
pub fn mutate_policy(policy: &mut NumericPolicy, mutation: NumericPolicyMutation) -> (r: Result<(), CampaignError>)
    ensures
        match mutated_policy(*old(policy), mutation) {
            Some(p) => r is Ok && *final(policy) == p,
            None => r == Err::<(), CampaignError>(CampaignError::MutationNotApplicable) && *final(policy) == *old(policy),
        },
{
    match mutation {
        NumericPolicyMutation::DemoteF64ToF32 => {
            if let ScalarType::F64 = policy.scalar_type {
                policy.scalar_type = ScalarType::F32;
                Ok(())
            } else {
                Err(CampaignError::MutationNotApplicable)
            }
        },
        NumericPolicyMutation::PromoteF32ToF64 => {
            if let ScalarType::F32 = policy.scalar_type {
                policy.scalar_type = ScalarType::F64;
                Ok(())
            } else {
                Err(CampaignError::MutationNotApplicable)
            }
        },
        NumericPolicyMutation::ToggleReductionOrder => {
            policy.reduction_order = match policy.reduction_order {
                ReductionOrder::Canonical => ReductionOrder::ScheduleDefined,
                ReductionOrder::ScheduleDefined => ReductionOrder::Canonical,
            };
            Ok(())
        },
    }
}

/// Every applied mutation can be undone: toggling the reduction order twice, or demoting and
/// then promoting (or the reverse), gives the policy back; each mutation changes the policy it
/// applies to.
pub proof fn lemma_mutations_undo(policy: NumericPolicy, mutation: NumericPolicyMutation)
    requires
        mutated_policy(policy, mutation) is Some,
    ensures
        mutated_policy(policy, mutation)->Some_0 != policy,
        mutated_policy(
            mutated_policy(policy, mutation)->Some_0,
            match mutation {
                NumericPolicyMutation::DemoteF64ToF32 => NumericPolicyMutation::PromoteF32ToF64,
                NumericPolicyMutation::PromoteF32ToF64 => NumericPolicyMutation::DemoteF64ToF32,
                NumericPolicyMutation::ToggleReductionOrder => NumericPolicyMutation::ToggleReductionOrder,
            },
        ) == Some(policy),
{
}

/// The axes `rank - 1, ..., 1, 0`.
pub open spec fn reversed_order(rank: nat) -> Seq<AxisId> {
    Seq::new(rank, |i: int| AxisId((rank - 1 - i) as usize))
}

/// Whether some operand reduces.
pub open spec fn has_reduction(k: crate::ir::KernelModel) -> bool {
    exists|i: int| 0 <= i < k.operands.len() && (#[trigger] k.operands[i]).access is Reduce
}

/// What building the executable of a mutated kernel owes: the kernel is validated; it runs
/// with the canonical schedule unless an alternate reduction schedule is asked for and the
/// kernel's reduction order is schedule-defined, in which case it runs with the loop order
/// reversed, which needs two axes and a reducing operand.
pub open spec fn mutation_outcome(k: crate::ir::KernelModel, alternate: bool) -> Result<Seq<AxisId>, CampaignFailure> {
    match kernel_violation(k) {
        Some(v) => Err(CampaignFailure::InvalidModule(v)),
        None => if !alternate || k.policy.reduction_order != ReductionOrder::ScheduleDefined {
            Ok(canonical_order(k.extents.len()))
        } else if k.extents.len() < 2 || !has_reduction(k) {
            Err(CampaignFailure::MutationNotApplicable)
        } else {
            Ok(reversed_order(k.extents.len()))
        },
    }
}

/// The executable a mutated kernel runs as.
pub fn mutation_executable(kernel: StructuredKernel, use_alternate_reduction_schedule: bool) -> (r: Result<
    Executable,
    CampaignError,
>)
    ensures
        match r {
            Ok(e) => mutation_outcome(kernel@, use_alternate_reduction_schedule) == Ok::<Seq<AxisId>, CampaignFailure>(
                e.schedule_spec().loop_order,
            ) && e.kernel_spec()@ == kernel@ && e.schedule_spec().tiles.len() == 0
                && e.schedule_spec().vectorization is None && e.schedule_spec().parallel.len() == 0,
            Err(err) => mutation_outcome(kernel@, use_alternate_reduction_schedule) == Err::<Seq<AxisId>, CampaignFailure>(
                err@,
            ),
        },
{
    let ghost k = kernel@;
    let schedule_defined = match kernel.numeric_policy.reduction_order {
        ReductionOrder::ScheduleDefined => true,
        ReductionOrder::Canonical => false,
    };
    let validated = match crate::validate::validate(kernel) {
        Ok(v) => v,
        Err(e) => {
            return Err(CampaignError::InvalidModule(e));
        },
    };
    if !use_alternate_reduction_schedule || !schedule_defined {
        return Ok(Executable::reference(validated));
    }
    let definition = validated.as_kernel();
    let rank = definition.iteration_domain.extents.len();
    let mut reduces = false;
    let mut i: usize = 0;
    while i < definition.operands.len()
        invariant
            i <= definition.operands@.len(),
            definition@ == k,
            reduces == exists|j: int| 0 <= j < i && (#[trigger] k.operands[j]).access is Reduce,
        decreases definition.operands@.len() - i,
    {
        proof {
            assert(k.operands[i as int] == definition.operands@[i as int]@);
        }
        if let AccessMode::Reduce(_) = definition.operands[i].access {
            reduces = true;
        }
        i = i + 1;
    }
    if rank < 2 || !reduces {
        return Err(CampaignError::MutationNotApplicable);
    }
    let mut schedule = KernelSchedule::canonical(&validated);
    let mut order: Vec<AxisId> = Vec::new();
    let mut j: usize = 0;
    while j < rank
        invariant
            j <= rank,
            order@ == reversed_order(rank as nat).take(j as int),
        decreases rank - j,
    {
        order.push(AxisId(rank - 1 - j));
        j = j + 1;
        assert(order@ =~= reversed_order(rank as nat).take(j as int));
    }
    assert(reversed_order(rank as nat).take(rank as int) =~= reversed_order(rank as nat));
    schedule.loop_order = order;
    proof {
        crate::validate::lemma_valid_iterator_rank(k);
        let indices = crate::executable::axis_indices(schedule@.loop_order);
        assert forall|a: int, b: int| 0 <= a < b < indices.len() implies indices[a] != indices[b] by {
            assert(indices[a] == rank - 1 - a);
            assert(indices[b] == rank - 1 - b);
        }
        assert(crate::validate::is_permutation(indices, k.iterators.len()));
    }
    match Executable::new(validated, schedule) {
        Ok(e) => Ok(e),
        Err(_) => Err(invalid_case("alternate reduction schedule is invalid")),
    }
}


// ---------------------------------------------------------------------------------------------
// Campaign cases
// ---------------------------------------------------------------------------------------------
/// One direction or seed vector of a case, as far as checking it goes: the operand it belongs
/// to, its length, and whether every value is finite.
#[derive(Clone, Copy, Debug, PartialEq, Eq, Structural)]
pub struct VectorShape {
    pub operand: OperandId,
    pub length: usize,
    pub finite: bool,
}

/// A campaign case as far as checking it goes: the kernel it names, whether its step and
/// tolerance are usable, the length and finiteness of each primal buffer, and its vectors.
#[derive(Clone, Debug, PartialEq, Eq)]
pub struct CaseShape {
    pub kernel: String,
    pub step_valid: bool,
    pub tolerance_valid: bool,
    pub primal_lengths: Vec<usize>,
    pub primal_finite: Vec<bool>,
    pub state_directions: Vec<VectorShape>,
    pub parameter_directions: Vec<VectorShape>,
    pub dependent_seeds: Vec<VectorShape>,
}

/// The operands of the first `n` vectors, or the first refusal among them.
pub open spec fn vectors_outcome(ops: Seq<OperandModel>, vectors: Seq<VectorShape>, readable: bool, kind: Seq<char>, n: int) -> Result<
    Set<OperandId>,
    CampaignFailure,
>
    decreases n,
{
    if n <= 0 {
        Ok(Set::empty())
    } else {
        match vectors_outcome(ops, vectors, readable, kind, n - 1) {
            Err(e) => Err(e),
            Ok(seen) => {
                let v = vectors[n - 1];
                if v.operand.0 >= ops.len() {
                    Err(CampaignFailure::InvalidCase(kind + " references an invalid operand"@))
                } else {
                    let o = ops[v.operand.0 as int];
                    let permitted = if readable {
                        o.access.readable()
                    } else {
                        o.access.writable()
                    };
                    if o.region.offset + o.region.length > usize::MAX {
                        Err(CampaignFailure::InvalidCase("vector buffer length overflow"@))
                    } else if !permitted || seen.contains(v.operand) || v.length < o.region.offset + o.region.length
                        || !v.finite {
                        Err(CampaignFailure::InvalidCase(kind + " is invalid or duplicated"@))
                    } else {
                        Ok(seen.insert(v.operand))
                    }
                }
            },
        }
    }
}

proof fn lemma_vectors_error_stable(
    ops: Seq<OperandModel>,
    vectors: Seq<VectorShape>,
    readable: bool,
    kind: Seq<char>,
    i: int,
    n: int,
)
    requires
        0 <= i <= n,
        vectors_outcome(ops, vectors, readable, kind, i) is Err,
    ensures
        vectors_outcome(ops, vectors, readable, kind, n) == vectors_outcome(ops, vectors, readable, kind, i),
    decreases n - i,
{
    if i < n {
        lemma_vectors_error_stable(ops, vectors, readable, kind, i, n - 1);
    }
}

fn contains_operand(list: &Vec<OperandId>, x: OperandId) -> (r: bool)
    ensures
        r == list@.contains(x),
{
    let mut i: usize = 0;
    while i < list.len()
        invariant
            i <= list@.len(),
            forall|j: int| 0 <= j < i ==> list@[j] != x,
        decreases list@.len() - i,
    {
        if list[i] == x {
            assert(list@[i as int] == x);
            return true;
        }
        i = i + 1;
    }
    false
}

/// Check a case's vectors of one kind against the kernel: each names an existing operand of
/// the right access, once, with a buffer that holds its region and finite values.
fn check_vectors(kernel: &StructuredKernel, vectors: &Vec<VectorShape>, readable: bool, kind: &str) -> (r: Result<
    Vec<OperandId>,
    CampaignError,
>)
    ensures
        match r {
            Ok(seen) => vectors_outcome(kernel@.operands, vectors@, readable, kind@, vectors@.len() as int) == Ok::<
                Set<OperandId>,
                CampaignFailure,
            >(seen@.to_set()) && seen@.len() == vectors@.len(),
            Err(e) => vectors_outcome(kernel@.operands, vectors@, readable, kind@, vectors@.len() as int) == Err::<
                Set<OperandId>,
                CampaignFailure,
            >(e@),
        },
{
    let ghost ops = kernel@.operands;
    let mut seen: Vec<OperandId> = Vec::new();
    assert(seen@.to_set() =~= Set::<OperandId>::empty());
    let mut i: usize = 0;
    while i < vectors.len()
        invariant
            i <= vectors@.len(),
            ops == kernel@.operands,
            vectors_outcome(ops, vectors@, readable, kind@, i as int) == Ok::<Set<OperandId>, CampaignFailure>(seen@.to_set()),
            seen@.len() == i,
        decreases vectors@.len() - i,
    {
        let v = vectors[i];
        if v.operand.0 >= kernel.operands.len() {
            let mut message = kind.to_owned();
            message.append(" references an invalid operand");
            proof {
                lemma_vectors_error_stable(ops, vectors@, readable, kind@, (i + 1) as int, vectors@.len() as int);
            }
            return Err(CampaignError::InvalidCase(message));
        }
        let operand = &kernel.operands[v.operand.0];
        proof {
            assert(ops[v.operand.0 as int] == operand@);
        }
        let permitted = if readable {
            operand.access.can_read()
        } else {
            operand.access.can_write()
        };
        let required = match operand.region.offset.checked_add(operand.region.length) {
            Some(r) => r,
            None => {
                proof {
                    lemma_vectors_error_stable(ops, vectors@, readable, kind@, (i + 1) as int, vectors@.len() as int);
                }
                return Err(invalid_case("vector buffer length overflow"));
            },
        };
        if !permitted || contains_operand(&seen, v.operand) || v.length < required || !v.finite {
            let mut message = kind.to_owned();
            message.append(" is invalid or duplicated");
            proof {
                lemma_vectors_error_stable(ops, vectors@, readable, kind@, (i + 1) as int, vectors@.len() as int);
            }
            return Err(CampaignError::InvalidCase(message));
        }
        let ghost before = seen@;
        seen.push(v.operand);
        proof {
            assert(seen@.to_set() =~= before.to_set().insert(v.operand)) by {
                assert forall|x: OperandId| seen@.to_set().contains(x) <==> before.to_set().insert(v.operand).contains(x) by {
                    if seen@.contains(x) && x != v.operand {
                        let j = choose|j: int| 0 <= j < seen@.len() && seen@[j] == x;
                        assert(before[j] == x);
                    }
                    if before.contains(x) {
                        let j = choose|j: int| 0 <= j < before.len() && before[j] == x;
                        assert(seen@[j] == x);
                    }
                    if x == v.operand {
                        assert(seen@[before.len() as int] == x);
                    }
                }
            }
        }
        i = i + 1;
    }
    Ok(seen)
}

/// The writable operands of a kernel.
pub open spec fn writable_operands(ops: Seq<OperandModel>) -> Set<OperandId> {
    Set::new(|x: OperandId| x.0 < ops.len() && ops[x.0 as int].access.writable())
}

/// The first refused primal buffer among the first `n` operands.
pub open spec fn primal_buffers_refusal(ops: Seq<OperandModel>, lengths: Seq<usize>, finite: Seq<bool>, n: int) -> Option<
    CampaignFailure,
>
    decreases n,
{
    if n <= 0 {
        None
    } else {
        match primal_buffers_refusal(ops, lengths, finite, n - 1) {
            Some(e) => Some(e),
            None => {
                let o = ops[n - 1];
                if o.region.offset + o.region.length > usize::MAX {
                    Some(CampaignFailure::InvalidCase("operand buffer length overflow"@))
                } else if lengths[n - 1] < o.region.offset + o.region.length || !finite[n - 1] {
                    Some(
                        CampaignFailure::InvalidCase(
                            "primal operand "@ + decimal((n - 1) as nat) + " has an invalid buffer"@,
                        ),
                    )
                } else {
                    None
                }
            },
        }
    }
}

/// What checking a case against its kernel owes.
pub open spec fn case_outcome(ops: Seq<OperandModel>, name: Seq<char>, case: CaseShapeModel) -> Result<(), CampaignFailure> {
    if case.kernel != name || !case.step_valid || !case.tolerance_valid || case.primal_lengths.len() != ops.len() {
        Err(
            CampaignFailure::InvalidCase(
                "kernel, positive finite step, tolerance, and one primal buffer per operand are required"@,
            ),
        )
    } else {
        match primal_buffers_refusal(ops, case.primal_lengths, case.primal_finite, ops.len() as int) {
            Some(e) => Err(e),
            None => match vectors_outcome(ops, case.states, true, "state direction"@, case.states.len() as int) {
                Err(e) => Err(e),
                Ok(states) => match vectors_outcome(
                    ops,
                    case.parameters,
                    true,
                    "parameter direction"@,
                    case.parameters.len() as int,
                ) {
                    Err(e) => Err(e),
                    Ok(parameters) => if states.is_empty() && parameters.is_empty() {
                        Err(CampaignFailure::InvalidCase("at least one state or parameter direction is required"@))
                    } else if !states.disjoint(parameters) {
                        Err(CampaignFailure::InvalidCase("state and parameter direction operands must be disjoint"@))
                    } else {
                        match vectors_outcome(ops, case.seeds, false, "dependent seed"@, case.seeds.len() as int) {
                            Err(e) => Err(e),
                            Ok(seeds) => if seeds != writable_operands(ops) {
                                Err(
                                    CampaignFailure::InvalidCase(
                                        "dependent seeds must cover every writable operand exactly once"@,
                                    ),
                                )
                            } else {
                                Ok(())
                            },
                        }
                    },
                },
            },
        }
    }
}

pub struct CaseShapeModel {
    pub kernel: Seq<char>,
    pub step_valid: bool,
    pub tolerance_valid: bool,
    pub primal_lengths: Seq<usize>,
    pub primal_finite: Seq<bool>,
    pub states: Seq<VectorShape>,
    pub parameters: Seq<VectorShape>,
    pub seeds: Seq<VectorShape>,
}

impl View for CaseShape {
    type V = CaseShapeModel;

    open spec fn view(&self) -> CaseShapeModel {
        CaseShapeModel {
            kernel: self.kernel@,
            step_valid: self.step_valid,
            tolerance_valid: self.tolerance_valid,
            primal_lengths: self.primal_lengths@,
            primal_finite: self.primal_finite@,
            states: self.state_directions@,
            parameters: self.parameter_directions@,
            seeds: self.dependent_seeds@,
        }
    }
}

proof fn lemma_primal_refusal_stable(ops: Seq<OperandModel>, lengths: Seq<usize>, finite: Seq<bool>, i: int, n: int)
    requires
        0 <= i <= n,
        primal_buffers_refusal(ops, lengths, finite, i) is Some,
    ensures
        primal_buffers_refusal(ops, lengths, finite, n) == primal_buffers_refusal(ops, lengths, finite, i),
    decreases n - i,
{
    if i < n {
        lemma_primal_refusal_stable(ops, lengths, finite, i, n - 1);
    }
}

/// Check a campaign case against its kernel: the kernel name, a usable step and tolerance,
/// one sufficient, finite primal buffer per operand, valid state and parameter directions
/// (some, and on disjoint operands), and one valid seed per writable operand.
#[verifier::loop_isolation(false)]
pub fn validate_case(kernel: &StructuredKernel, case: &CaseShape) -> (r: Result<(), CampaignError>)
    requires
        case.primal_finite@.len() == case.primal_lengths@.len(),
    ensures
        match r {
            Ok(_) => case_outcome(kernel@.operands, kernel.name@, case@) is Ok,
            Err(e) => case_outcome(kernel@.operands, kernel.name@, case@) == Err::<(), CampaignFailure>(e@),
        },
{
    let ghost ops = kernel@.operands;
    if case.kernel != kernel.name || !case.step_valid || !case.tolerance_valid
        || case.primal_lengths.len() != kernel.operands.len() {
        return Err(invalid_case("kernel, positive finite step, tolerance, and one primal buffer per operand are required"));
    }
    let mut i: usize = 0;
    while i < kernel.operands.len()
        invariant
            i <= kernel.operands@.len(),
            primal_buffers_refusal(ops, case.primal_lengths@, case.primal_finite@, i as int) is None,
        decreases kernel.operands@.len() - i,
    {
        let region = kernel.operands[i].region;
        proof {
            assert(ops[i as int] == kernel.operands@[i as int]@);
        }
        let required = match region.offset.checked_add(region.length) {
            Some(r) => r,
            None => {
                proof {
                    lemma_primal_refusal_stable(ops, case.primal_lengths@, case.primal_finite@, (i + 1) as int, ops.len() as int);
                }
                return Err(invalid_case("operand buffer length overflow"));
            },
        };
        if case.primal_lengths[i] < required || !case.primal_finite[i] {
            let mut message = String::new();
            message.append("primal operand ");
            append_decimal(&mut message, i);
            message.append(" has an invalid buffer");
            proof {
                lemma_primal_refusal_stable(ops, case.primal_lengths@, case.primal_finite@, (i + 1) as int, ops.len() as int);
            }
            return Err(CampaignError::InvalidCase(message));
        }
        i = i + 1;
    }
    let states = match check_vectors(kernel, &case.state_directions, true, "state direction") {
        Ok(s) => s,
        Err(e) => {
            return Err(e);
        },
    };
    let parameters = match check_vectors(kernel, &case.parameter_directions, true, "parameter direction") {
        Ok(s) => s,
        Err(e) => {
            return Err(e);
        },
    };
    if states.len() == 0 && parameters.len() == 0 {
        proof {
            assert(states@.to_set().is_empty());
            assert(parameters@.to_set().is_empty());
        }
        return Err(invalid_case("at least one state or parameter direction is required"));
    }
    proof {
        if states@.len() > 0 {
            assert(states@.to_set().contains(states@[0]));
        }
        if parameters@.len() > 0 {
            assert(parameters@.to_set().contains(parameters@[0]));
        }
    }
    let mut k: usize = 0;
    while k < parameters.len()
        invariant
            k <= parameters@.len(),
            forall|j: int| 0 <= j < k ==> !states@.contains(#[trigger] parameters@[j]),
        decreases parameters@.len() - k,
    {
        if contains_operand(&states, parameters[k]) {
            proof {
                assert(states@.to_set().contains(parameters@[k as int]));
                assert(parameters@.to_set().contains(parameters@[k as int]));
            }
            return Err(invalid_case("state and parameter direction operands must be disjoint"));
        }
        k = k + 1;
    }
    proof {
        assert forall|x: OperandId| states@.to_set().contains(x) implies !parameters@.to_set().contains(x) by {
            if parameters@.to_set().contains(x) {
                let j = choose|j: int| 0 <= j < parameters@.len() && parameters@[j] == x;
                assert(!states@.contains(parameters@[j]));
            }
        }
    }
    let seeds = match check_vectors(kernel, &case.dependent_seeds, false, "dependent seed") {
        Ok(s) => s,
        Err(e) => {
            return Err(e);
        },
    };
    let mut o: usize = 0;
    while o < kernel.operands.len()
        invariant
            o <= kernel.operands@.len(),
            forall|j: int|
                0 <= j < o && (#[trigger] ops[j]).access.writable() ==> seeds@.contains(OperandId(j as usize)),
        decreases kernel.operands@.len() - o,
    {
        proof {
            assert(ops[o as int] == kernel.operands@[o as int]@);
        }
        if kernel.operands[o].access.can_write() && !contains_operand(&seeds, OperandId(o)) {
            proof {
                assert(writable_operands(ops).contains(OperandId(o)));
                assert(!seeds@.to_set().contains(OperandId(o)));
            }
            return Err(invalid_case("dependent seeds must cover every writable operand exactly once"));
        }
        o = o + 1;
    }
    proof {
        lemma_seeds_writable(ops, case.dependent_seeds@, case.dependent_seeds@.len() as int);
        assert(seeds@.to_set() =~= writable_operands(ops)) by {
            assert forall|x: OperandId| writable_operands(ops).contains(x) implies seeds@.to_set().contains(x) by {
                assert(seeds@.contains(OperandId(x.0 as usize)));
            }
        }
    }
    Ok(())
}

proof fn lemma_seeds_writable(ops: Seq<OperandModel>, vectors: Seq<VectorShape>, n: int)
    requires
        0 <= n <= vectors.len(),
        vectors_outcome(ops, vectors, false, "dependent seed"@, n) is Ok,
    ensures
        vectors_outcome(ops, vectors, false, "dependent seed"@, n)->Ok_0.subset_of(writable_operands(ops)),
    decreases n,
{
    if n > 0 {
        lemma_seeds_writable(ops, vectors, n - 1);
    }
}

// ---------------------------------------------------------------------------------------------
// Case coverage and returned buffers
// ---------------------------------------------------------------------------------------------
pub open spec fn name_views(v: Seq<String>) -> Seq<Seq<char>> {
    v.map_values(|s: String| s@)
}

/// The first case among the first `n` whose kernel name is blank or repeats an earlier one.
pub open spec fn case_names_refused(names: Seq<Seq<char>>, n: int) -> bool
    decreases n,
{
    if n <= 0 {
        false
    } else {
        case_names_refused(names, n - 1) || is_blank(names[n - 1]) || names.take(n - 1).contains(names[n - 1])
    }
}

/// What matching campaign cases to module kernels owes: case names nonempty and unique, and
/// the same names as the module's kernels; then, for each kernel, the index of its case.
pub open spec fn cases_outcome(kernels: Seq<Seq<char>>, cases: Seq<Seq<char>>) -> Result<(), CampaignFailure> {
    if case_names_refused(cases, cases.len() as int) {
        Err(CampaignFailure::InvalidCase("case kernel names must be nonempty and unique"@))
    } else if kernels.to_set() != cases.to_set() {
        Err(CampaignFailure::InvalidCase("campaign cases must cover every module kernel exactly once"@))
    } else {
        Ok(())
    }
}

fn find_name(names: &Vec<String>, n: usize, name: &String) -> (r: Option<usize>)
    requires
        n <= names@.len(),
    ensures
        match r {
            Some(j) => j < n && names@[j as int]@ == name@,
            None => !name_views(names@).take(n as int).contains(name@),
        },
{
    let mut j: usize = 0;
    while j < n
        invariant
            j <= n,
            n <= names@.len(),
            forall|a: int| 0 <= a < j ==> names@[a]@ != name@,
        decreases n - j,
    {
        if names[j] == *name {
            return Some(j);
        }
        j = j + 1;
    }
    proof {
        assert forall|a: int| 0 <= a < n implies name_views(names@).take(n as int)[a] != name@ by {
            assert(name_views(names@).take(n as int)[a] == names@[a]@);
        }
    }
    None
}

/// Match campaign cases to the module's kernels by name: for each kernel, in module order, the
/// index of the case that names it.
pub fn complete_cases(kernel_names: &Vec<String>, case_names: &Vec<String>) -> (r: Result<Vec<usize>, CampaignError>)
    ensures
        match r {
            Ok(v) => cases_outcome(name_views(kernel_names@), name_views(case_names@)) is Ok && v@.len()
                == kernel_names@.len() && forall|k: int|
                0 <= k < v@.len() ==> #[trigger] v@[k] < case_names@.len() && case_names@[v@[k] as int]@
                    == kernel_names@[k]@,
            Err(e) => cases_outcome(name_views(kernel_names@), name_views(case_names@)) == Err::<(), CampaignFailure>(e@),
        },
{
    let ghost cases = name_views(case_names@);
    let ghost kernels = name_views(kernel_names@);
    let mut i: usize = 0;
    while i < case_names.len()
        invariant
            i <= case_names@.len(),
            cases == name_views(case_names@),
            !case_names_refused(cases, i as int),
        decreases case_names@.len() - i,
    {
        let name = &case_names[i];
        let blank_name = crate::validate::blank(name.as_str());
        let repeated = find_name(case_names, i, name).is_some();
        proof {
            assert(cases[i as int] == name@);
            if repeated {
                let j = choose|j: int| 0 <= j < i && case_names@[j]@ == name@;
                assert(cases.take(i as int)[j] == name@);
            } else {
                assert(!name_views(case_names@).take(i as int).contains(name@));
            }
        }
        if blank_name || repeated {
            proof {
                lemma_names_refused_stable(cases, (i + 1) as int, cases.len() as int);
            }
            return Err(invalid_case("case kernel names must be nonempty and unique"));
        }
        i = i + 1;
    }
    let mut found: Vec<usize> = Vec::new();
    let mut k: usize = 0;
    while k < kernel_names.len()
        invariant
            k <= kernel_names@.len(),
            found@.len() == k,
            kernels == name_views(kernel_names@),
            cases == name_views(case_names@),
            !case_names_refused(cases, cases.len() as int),
            forall|a: int|
                0 <= a < k ==> #[trigger] found@[a] < case_names@.len() && case_names@[found@[a] as int]@
                    == kernel_names@[a]@,
        decreases kernel_names@.len() - k,
    {
        match find_name(case_names, case_names.len(), &kernel_names[k]) {
            Some(j) => {
                found.push(j);
            },
            None => {
                proof {
                    assert(cases.take(cases.len() as int) =~= cases);
                    assert(kernels.to_set().contains(kernels[k as int]));
                    assert(!cases.to_set().contains(kernels[k as int]));
                }
                return Err(invalid_case("campaign cases must cover every module kernel exactly once"));
            },
        }
        k = k + 1;
    }
    let mut i: usize = 0;
    while i < case_names.len()
        invariant
            i <= case_names@.len(),
            kernels == name_views(kernel_names@),
            cases == name_views(case_names@),
            !case_names_refused(cases, cases.len() as int),
            forall|a: int| 0 <= a < i ==> kernels.contains(#[trigger] cases[a]),
        decreases case_names@.len() - i,
    {
        if find_name(kernel_names, kernel_names.len(), &case_names[i]).is_none() {
            proof {
                assert(kernels.take(kernels.len() as int) =~= kernels);
                assert(cases.to_set().contains(cases[i as int]));
                assert(!kernels.to_set().contains(cases[i as int]));
            }
            return Err(invalid_case("campaign cases must cover every module kernel exactly once"));
        }
        proof {
            assert(cases[i as int] == case_names@[i as int]@);
            let j = choose|j: int| 0 <= j < kernel_names@.len() && kernel_names@[j]@ == case_names@[i as int]@;
            assert(kernels[j] == cases[i as int]);
        }
        i = i + 1;
    }
    proof {
        assert(kernels.to_set() =~= cases.to_set()) by {
            assert forall|x: Seq<char>| kernels.to_set().contains(x) <==> cases.to_set().contains(x) by {
                if kernels.contains(x) {
                    let k = choose|k: int| 0 <= k < kernels.len() && kernels[k] == x;
                    assert(case_names@[found@[k] as int]@ == x);
                    assert(cases[found@[k] as int] == x);
                }
            }
        }
    }
    Ok(found)
}

proof fn lemma_names_refused_stable(names: Seq<Seq<char>>, i: int, n: int)
    requires
        0 <= i <= n,
        case_names_refused(names, i),
    ensures
        case_names_refused(names, n),
    decreases n - i,
{
    if i < n {
        lemma_names_refused_stable(names, i, n - 1);
    }
}

/// What a runner's returned buffers owe: one per operand, each still holding its region.
pub open spec fn returned_outcome(ops: Seq<OperandModel>, lengths: Seq<usize>) -> Result<(), Seq<char>> {
    if lengths.len() != ops.len() {
        Err("runner changed the operand-buffer count"@)
    } else {
        match returned_refusal(ops, lengths, ops.len() as int) {
            Some(m) => Err(m),
            None => Ok(()),
        }
    }
}

pub open spec fn returned_refusal(ops: Seq<OperandModel>, lengths: Seq<usize>, n: int) -> Option<Seq<char>>
    decreases n,
{
    if n <= 0 {
        None
    } else {
        match returned_refusal(ops, lengths, n - 1) {
            Some(m) => Some(m),
            None => {
                let o = ops[n - 1];
                if o.region.offset + o.region.length > usize::MAX {
                    Some("runner operand "@ + decimal((n - 1) as nat) + " length overflow"@)
                } else if lengths[n - 1] < o.region.offset + o.region.length {
                    Some("runner shortened operand buffer "@ + decimal((n - 1) as nat))
                } else {
                    None
                }
            },
        }
    }
}

proof fn lemma_returned_refusal_stable(ops: Seq<OperandModel>, lengths: Seq<usize>, i: int, n: int)
    requires
        0 <= i <= n,
        returned_refusal(ops, lengths, i) is Some,
    ensures
        returned_refusal(ops, lengths, n) == returned_refusal(ops, lengths, i),
    decreases n - i,
{
    if i < n {
        lemma_returned_refusal_stable(ops, lengths, i, n - 1);
    }
}

/// Check the buffers a runner handed back, given their lengths.
pub fn validate_returned_buffers(kernel: &StructuredKernel, lengths: &Vec<usize>) -> (r: Result<(), String>)
    ensures
        match r {
            Ok(_) => returned_outcome(kernel@.operands, lengths@) is Ok,
            Err(m) => returned_outcome(kernel@.operands, lengths@) == Err::<(), Seq<char>>(m@),
        },
{
    let ghost ops = kernel@.operands;
    if lengths.len() != kernel.operands.len() {
        return Err("runner changed the operand-buffer count".to_owned());
    }
    let mut i: usize = 0;
    while i < kernel.operands.len()
        invariant
            i <= kernel.operands@.len(),
            ops == kernel@.operands,
            lengths@.len() == ops.len(),
            returned_refusal(ops, lengths@, i as int) is None,
        decreases kernel.operands@.len() - i,
    {
        let region = kernel.operands[i].region;
        proof {
            assert(ops[i as int] == kernel.operands@[i as int]@);
        }
        let required = match region.offset.checked_add(region.length) {
            Some(r) => r,
            None => {
                let mut message = String::new();
                message.append("runner operand ");
                append_decimal(&mut message, i);
                message.append(" length overflow");
                proof {
                    lemma_returned_refusal_stable(ops, lengths@, (i + 1) as int, ops.len() as int);
                }
                return Err(message);
            },
        };
        if lengths[i] < required {
            let mut message = String::new();
            message.append("runner shortened operand buffer ");
            append_decimal(&mut message, i);
            proof {
                lemma_returned_refusal_stable(ops, lengths@, (i + 1) as int, ops.len() as int);
            }
            return Err(message);
        }
        i = i + 1;
    }
    Ok(())
}

// ---------------------------------------------------------------------------------------------
// Derivative buffers
// ---------------------------------------------------------------------------------------------
/// How one buffer of a derivative kernel starts out before a campaign runs it.
#[derive(Clone, Copy, Debug, PartialEq, Eq, Structural)]
pub enum BufferFill {
    /// Zeros.
    Zero,
    /// The case's primal buffer of this primal operand.
    Primal(usize),
    /// The independent vector at this position.
    Independent(usize),
    /// The dependent seed at this position.
    Dependent(usize),
}

/// The first position among the first `n` ids that holds `x`.
pub open spec fn first_position(ids: Seq<OperandId>, x: OperandId, n: int) -> Option<int>
    decreases n,
{
    if n <= 0 {
        None
    } else {
        match first_position(ids, x, n - 1) {
            Some(j) => Some(j),
            None => if ids[n - 1] == x {
                Some(n - 1)
            } else {
                None
            },
        }
    }
}

/// The readable primal operands fill the leading derivative buffers in order; the rest start
/// as zeros.
pub open spec fn primal_fills(ops: Seq<OperandModel>, count: nat) -> Seq<BufferFill> {
    let readable = readable_list(ops, ops.len() as int);
    Seq::new(
        count,
        |i: int|
            if i < readable.len() {
                BufferFill::Primal(readable[i] as usize)
            } else {
                BufferFill::Zero
            },
    )
}

/// The fills after the first `n` pairs of a table each take the vector of their primal
/// operand, or the first pair without one refuses.
pub open spec fn pair_fills(
    fills: Seq<BufferFill>,
    pairs: Seq<DerivativeOperand>,
    ids: Seq<OperandId>,
    independent: bool,
    n: int,
) -> Result<Seq<BufferFill>, CampaignFailure>
    decreases n,
{
    if n <= 0 {
        Ok(fills)
    } else {
        match pair_fills(fills, pairs, ids, independent, n - 1) {
            Err(e) => Err(e),
            Ok(f) => match first_position(ids, pairs[n - 1].primal, ids.len() as int) {
                None => Err(
                    CampaignFailure::InvalidCase(
                        if independent {
                            "missing derivative independent vector"@
                        } else {
                            "missing VJP dependent seed"@
                        },
                    ),
                ),
                Some(j) => Ok(
                    f.update(
                        pairs[n - 1].derivative.0 as int,
                        if independent {
                            BufferFill::Independent(j as usize)
                        } else {
                            BufferFill::Dependent(j as usize)
                        },
                    ),
                ),
            },
        }
    }
}

/// The starting buffers of a derivative kernel: the primal fills, then for a JVP the
/// directions of its independent operands, for a VJP the seeds of its dependent operands.
pub open spec fn buffer_plan(
    ops: Seq<OperandModel>,
    p: ProductModel,
    independent: Seq<OperandId>,
    dependent: Seq<OperandId>,
) -> Result<Seq<BufferFill>, CampaignFailure> {
    let base = primal_fills(ops, p.kernel.operands.len());
    let seeded = if p.mode is Jvp {
        pair_fills(base, p.independent_operands, independent, true, p.independent_operands.len() as int)
    } else {
        Ok(base)
    };
    match seeded {
        Err(e) => Err(e),
        Ok(f) => if p.mode is Vjp {
            pair_fills(f, p.dependent_operands, dependent, false, p.dependent_operands.len() as int)
        } else {
            Ok(f)
        },
    }
}

/// Every pair that is reached (all pairs up to it have a vector) names a buffer that exists.
#[verifier::opaque]
pub open spec fn pairs_reach_buffers(pairs: Seq<DerivativeOperand>, ids: Seq<OperandId>, count: nat) -> bool {
    forall|i: int|
        0 <= i < pairs.len() && (forall|m: int| 0 <= m <= i ==> #[trigger] first_position(ids, pairs[m].primal, ids.len() as int) is Some)
            ==> (#[trigger] pairs[i]).derivative.0 < count
}

fn find_position(ids: &Vec<OperandId>, x: OperandId) -> (r: Option<usize>)
    ensures
        match first_position(ids@, x, ids@.len() as int) {
            Some(j) => r == Some(j as usize),
            None => r is None,
        },
{
    let mut i: usize = 0;
    while i < ids.len()
        invariant
            i <= ids@.len(),
            first_position(ids@, x, i as int) is None,
        decreases ids@.len() - i,
    {
        if ids[i] == x {
            proof {
                lemma_first_position_stable(ids@, x, (i + 1) as int, ids@.len() as int);
            }
            return Some(i);
        }
        i = i + 1;
    }
    None
}

proof fn lemma_first_position_stable(ids: Seq<OperandId>, x: OperandId, i: int, n: int)
    requires
        0 <= i <= n,
        first_position(ids, x, i) is Some,
    ensures
        first_position(ids, x, n) == first_position(ids, x, i),
    decreases n - i,
{
    if i < n {
        lemma_first_position_stable(ids, x, i, n - 1);
    }
}

proof fn lemma_pair_fills_error_stable(
    fills: Seq<BufferFill>,
    pairs: Seq<DerivativeOperand>,
    ids: Seq<OperandId>,
    independent: bool,
    i: int,
    n: int,
)
    requires
        0 <= i <= n,
        pair_fills(fills, pairs, ids, independent, i) is Err,
    ensures
        pair_fills(fills, pairs, ids, independent, n) == pair_fills(fills, pairs, ids, independent, i),
    decreases n - i,
{
    if i < n {
        lemma_pair_fills_error_stable(fills, pairs, ids, independent, i, n - 1);
    }
}

proof fn lemma_pair_fills_len(fills: Seq<BufferFill>, pairs: Seq<DerivativeOperand>, ids: Seq<OperandId>, independent: bool, n: int)
    requires
        n <= pairs.len(),
        pairs_reach_buffers(pairs, ids, fills.len()),
        pair_fills(fills, pairs, ids, independent, n) is Ok,
    ensures
        pair_fills(fills, pairs, ids, independent, n)->Ok_0.len() == fills.len(),
        forall|m: int| 0 <= m < n && m < pairs.len() ==> #[trigger] first_position(ids, pairs[m].primal, ids.len() as int) is Some,
    decreases n,
{
    if n > 0 {
        lemma_pair_fills_len(fills, pairs, ids, independent, n - 1);
        assert(first_position(ids, pairs[n - 1].primal, ids.len() as int) is Some);
        lemma_pair_reaches(fills, pairs, ids, independent, n - 1);
    }
}

proof fn lemma_pair_reaches(fills: Seq<BufferFill>, pairs: Seq<DerivativeOperand>, ids: Seq<OperandId>, independent: bool, i: int)
    requires
        0 <= i < pairs.len(),
        pairs_reach_buffers(pairs, ids, fills.len()),
        forall|m: int| 0 <= m < i ==> #[trigger] first_position(ids, pairs[m].primal, ids.len() as int) is Some,
        first_position(ids, pairs[i].primal, ids.len() as int) is Some,
    ensures
        pairs[i].derivative.0 < fills.len(),
{
    reveal(pairs_reach_buffers);
    assert(forall|m: int| 0 <= m <= i ==> #[trigger] first_position(ids, pairs[m].primal, ids.len() as int) is Some);
}

/// Fill the buffers named by a pair table from the vectors of its primal operands.
fn fill_pairs(initial: Vec<BufferFill>, pairs: &Vec<DerivativeOperand>, ids: &Vec<OperandId>, independent: bool) -> (r: Result<
    Vec<BufferFill>,
    CampaignError,
>)
    requires
        pairs_reach_buffers(pairs@, ids@, initial@.len()),
    ensures
        match r {
            Ok(f) => pair_fills(initial@, pairs@, ids@, independent, pairs@.len() as int) == Ok::<
                Seq<BufferFill>,
                CampaignFailure,
            >(f@),
            Err(e) => pair_fills(initial@, pairs@, ids@, independent, pairs@.len() as int) == Err::<
                Seq<BufferFill>,
                CampaignFailure,
            >(e@),
        },
{
    let ghost start = initial@;
    let mut fills = initial;
    let mut i: usize = 0;
    while i < pairs.len()
        invariant
            i <= pairs@.len(),
            start == initial@,
            fills@.len() == start.len(),
            pairs_reach_buffers(pairs@, ids@, start.len()),
            pair_fills(start, pairs@, ids@, independent, i as int) == Ok::<Seq<BufferFill>, CampaignFailure>(fills@),
        decreases pairs@.len() - i,
    {
        let pair = pairs[i];
        match find_position(ids, pair.primal) {
            None => {
                let e = if independent {
                    invalid_case("missing derivative independent vector")
                } else {
                    invalid_case("missing VJP dependent seed")
                };
                proof {
                    assert(pairs@[i as int] == pair);
                    assert(pair_fills(start, pairs@, ids@, independent, (i + 1) as int) == Err::<Seq<BufferFill>, CampaignFailure>(e@));
                    lemma_pair_fills_error_stable(start, pairs@, ids@, independent, (i + 1) as int, pairs@.len() as int);
                }
                return Err(e);
            },
            Some(j) => {
                proof {
                    lemma_pair_fills_len(start, pairs@, ids@, independent, i as int);
                    assert(pairs@[i as int] == pair);
                    lemma_pair_reaches(start, pairs@, ids@, independent, i as int);
                }
                let fill = if independent {
                    BufferFill::Independent(j)
                } else {
                    BufferFill::Dependent(j)
                };
                fills.set(pair.derivative.0, fill);
            },
        }
        i = i + 1;
    }
    Ok(fills)
}

/// How each buffer of a derivative kernel starts out in a campaign: readable primal values in
/// the leading buffers, JVP directions or VJP seeds in the buffers the product's tables name,
/// zeros elsewhere. `independent` and `dependent` list the operands of the case's vectors, in
/// order; a vector is looked up by the first entry naming its operand.
pub fn derivative_buffer_plan(
    primal: &StructuredKernel,
    product: &DerivativeProduct,
    independent: &Vec<OperandId>,
    dependent: &Vec<OperandId>,
) -> (r: Result<Vec<BufferFill>, CampaignError>)
    requires
        readable_count(primal@.operands, primal@.operands.len() as int) <= product@.kernel.operands.len(),
        product.mode is Jvp ==> pairs_reach_buffers(
            product.independent_operands@,
            independent@,
            product@.kernel.operands.len(),
        ),
        product.mode is Vjp ==> pairs_reach_buffers(product.dependent_operands@, dependent@, product@.kernel.operands.len()),
    ensures
        match r {
            Ok(f) => buffer_plan(primal@.operands, product@, independent@, dependent@) == Ok::<
                Seq<BufferFill>,
                CampaignFailure,
            >(f@),
            Err(e) => buffer_plan(primal@.operands, product@, independent@, dependent@) == Err::<
                Seq<BufferFill>,
                CampaignFailure,
            >(e@),
        },
{
    let ghost ops = primal@.operands;
    let count = product.kernel.operands.len();
    proof {
        crate::differentiate::lemma_readable_list_len(ops, ops.len() as int);
        assert(product@.kernel.operands.len() == count);
    }
    let mut readable: Vec<usize> = Vec::new();
    let mut i: usize = 0;
    while i < primal.operands.len()
        invariant
            i <= ops.len(),
            ops == primal@.operands,
            readable@.len() == readable_list(ops, i as int).len(),
            forall|j: int| 0 <= j < readable@.len() ==> readable@[j] as int == #[trigger] readable_list(ops, i as int)[j],
        decreases ops.len() - i,
    {
        proof {
            assert(ops[i as int] == primal.operands@[i as int]@);
        }
        if primal.operands[i].access.can_read() {
            readable.push(i);
        }
        i = i + 1;
    }
    let mut fills: Vec<BufferFill> = Vec::new();
    let mut d: usize = 0;
    while d < count
        invariant
            d <= count,
            count == product@.kernel.operands.len(),
            readable@.len() == readable_list(ops, ops.len() as int).len(),
            forall|j: int| 0 <= j < readable@.len() ==> readable@[j] as int == #[trigger] readable_list(ops, ops.len() as int)[j],
            fills@.len() == d,
            forall|j: int| 0 <= j < d ==> #[trigger] fills@[j] == primal_fills(ops, count as nat)[j],
        decreases count - d,
    {
        let fill = if d < readable.len() {
            BufferFill::Primal(readable[d])
        } else {
            BufferFill::Zero
        };
        fills.push(fill);
        d = d + 1;
    }
    assert(fills@ =~= primal_fills(ops, count as nat));
    let fills = if let DerivativeMode::Jvp = product.mode {
        match fill_pairs(fills, &product.independent_operands, independent, true) {
            Ok(f) => f,
            Err(e) => {
                return Err(e);
            },
        }
    } else {
        fills
    };
    proof {
        if product.mode is Jvp {
            lemma_pair_fills_len(
                primal_fills(ops, count as nat),
                product.independent_operands@,
                independent@,
                true,
                product.independent_operands@.len() as int,
            );
        }
    }
    if let DerivativeMode::Vjp = product.mode {
        fill_pairs(fills, &product.dependent_operands, dependent, false)
    } else {
        Ok(fills)
    }
}

/// A product that `differentiate` returns can always be planned: its readable primal
/// operands fit among its buffers, and every pair of its tables names one of its buffers,
/// whatever vectors a case supplies.
pub proof fn lemma_product_plannable(k: crate::ir::KernelModel, req: RequestModel, independent: Seq<OperandId>, dependent: Seq<OperandId>)
    requires
        differentiation(k, req) is Ok,
    ensures
        ({
            let p = differentiation(k, req)->Ok_0;
            &&& readable_count(k.operands, k.operands.len() as int) <= p.kernel.operands.len()
            &&& pairs_reach_buffers(p.independent_operands, independent, p.kernel.operands.len())
            &&& pairs_reach_buffers(p.dependent_operands, dependent, p.kernel.operands.len())
        }),
{
    let p = differentiation(k, req)->Ok_0;
    crate::differentiate::lemma_product_tables(k, req);
    crate::differentiate::lemma_readable_list_len(k.operands, k.operands.len() as int);
    assert(p.primal_operands.len() == readable_count(k.operands, k.operands.len() as int));
    reveal(pairs_reach_buffers);
}

proof fn lemma_case_names_distinct(names: Seq<Seq<char>>, n: int)
    requires
        0 <= n <= names.len(),
        !case_names_refused(names, n),
    ensures
        forall|i: int, j: int| 0 <= i < j < n ==> names[i] != names[j],
    decreases n,
{
    if n > 0 {
        lemma_case_names_distinct(names, n - 1);
        assert forall|i: int| 0 <= i < n - 1 implies #[trigger] names[i] != names[n - 1] by {
            assert(names.take(n - 1)[i] == names[i]);
        }
    }
}

/// Whether some kernel chose case `j`.
pub open spec fn is_chosen(chosen: Seq<usize>, j: int) -> bool {
    exists|k: int| 0 <= k < chosen.len() && #[trigger] chosen[k] == j
}

/// Campaign cases cover the kernels of a module with distinct kernel names exactly once:
/// when the cases are accepted, the case chosen for each kernel names it, no case is chosen
/// twice, and every case is chosen for some kernel.
pub proof fn lemma_cases_cover_kernels_once(kernels: Seq<Seq<char>>, cases: Seq<Seq<char>>, chosen: Seq<usize>)
    requires
        forall|i: int, j: int| 0 <= i < j < kernels.len() ==> kernels[i] != kernels[j],
        cases_outcome(kernels, cases) is Ok,
        chosen.len() == kernels.len(),
        forall|k: int| 0 <= k < chosen.len() ==> #[trigger] chosen[k] < cases.len() && cases[chosen[k] as int] == kernels[k],
    ensures
        forall|k: int, l: int| 0 <= k < l < chosen.len() ==> chosen[k] != chosen[l],
        forall|j: int| 0 <= j < cases.len() ==> #[trigger] is_chosen(chosen, j),
{
    lemma_case_names_distinct(cases, cases.len() as int);
    assert forall|k: int, l: int| 0 <= k < l < chosen.len() implies chosen[k] != chosen[l] by {
        assert(cases[chosen[k] as int] == kernels[k]);
        assert(cases[chosen[l] as int] == kernels[l]);
    }
    assert forall|j: int| 0 <= j < cases.len() implies #[trigger] is_chosen(chosen, j) by {
        assert(cases.to_set().contains(cases[j]));
        assert(kernels.to_set().contains(cases[j]));
        let k = choose|k: int| 0 <= k < kernels.len() && kernels[k] == cases[j];
        assert(cases[chosen[k] as int] == cases[j]);
        if chosen[k] != j {
            if chosen[k] < j {
                assert(cases[chosen[k] as int] != cases[j]);
            } else {
                assert(cases[j] != cases[chosen[k] as int]);
            }
        }
    }
}

// ---------------------------------------------------------------------------------------------
// The campaign as a whole
// ---------------------------------------------------------------------------------------------
/// The kernel names of a module, in order.
pub open spec fn kernel_names(kernels: Seq<StructuredKernel>) -> Seq<Seq<char>> {
    kernels.map_values(|k: StructuredKernel| k.name@)
}

/// What a campaign owes before any kernel runs: a valid module with at least one kernel, a
/// versioned runner identity other than the reference interpreter, and one case per kernel.
pub open spec fn campaign_outcome(
    name: Seq<char>,
    kernels: Seq<StructuredKernel>,
    identity: Seq<char>,
    cases: Seq<Seq<char>>,
) -> Result<(), CampaignFailure> {
    match crate::validate::module_violation(name, crate::validate::kernel_models(kernels)) {
        Some(v) => Err(CampaignFailure::InvalidModule(v)),
        None => if kernels.len() == 0 {
            Err(CampaignFailure::InvalidCase("campaign module must contain at least one kernel"@))
        } else {
            match identity_outcome(identity) {
                Err(e) => Err(e),
                Ok(_) => cases_outcome(kernel_names(kernels), cases),
            }
        },
    }
}

/// Check a campaign before any kernel runs: validate the module, refuse an empty one, check
/// the runner's identity, and match the cases (by kernel name) to the module's kernels. On
/// success, the validated module and, for each kernel in module order, the index of its case.
pub fn plan_campaign(module: StructuredModule, identity: &str, case_names: &Vec<String>) -> (r: Result<
    (ValidatedModule, Vec<usize>),
    CampaignError,
>)
    ensures
        match r {
            Ok((validated, chosen)) => campaign_outcome(module.name@, module.kernels@, identity@, name_views(case_names@))
                is Ok && validated.module_name() == module.name@ && validated.module_kernels() == module.kernels@
                && chosen@.len() == module.kernels@.len() && forall|k: int|
                0 <= k < chosen@.len() ==> #[trigger] chosen@[k] < case_names@.len() && case_names@[chosen@[k] as int]@
                    == module.kernels@[k].name@,
            Err(e) => campaign_outcome(module.name@, module.kernels@, identity@, name_views(case_names@)) == Err::<
                (),
                CampaignFailure,
            >(e@),
        },
{
    let ghost name = module.name@;
    let ghost kernels = module.kernels@;
    let validated = match crate::validate::validate_module(module) {
        Ok(v) => v,
        Err(e) => {
            return Err(CampaignError::InvalidModule(e));
        },
    };
    let stages = validated.kernels();
    if stages.len() == 0 {
        proof {
            assert(stages@.map_values(|v: ValidatedKernel| v.inner()).len() == 0);
        }
        return Err(invalid_case("campaign module must contain at least one kernel"));
    }
    match validate_runner_identity(identity) {
        Ok(_) => {},
        Err(e) => {
            return Err(e);
        },
    }
    let mut names: Vec<String> = Vec::new();
    let mut i: usize = 0;
    while i < stages.len()
        invariant
            i <= stages@.len(),
            stages@.map_values(|v: ValidatedKernel| v.inner()) == kernels,
            names@.len() == i,
            forall|j: int| 0 <= j < i ==> #[trigger] names@[j]@ == kernels[j].name@,
        decreases stages@.len() - i,
    {
        assert(stages@[i as int].inner() == kernels[i as int]);
        names.push(stages[i].as_kernel().name.clone());
        i = i + 1;
    }
    proof {
        assert(name_views(names@) =~= kernel_names(kernels));
    }
    match complete_cases(&names, case_names) {
        Ok(chosen) => Ok((validated, chosen)),
        Err(e) => Err(e),
    }
}

/// The first of the first `n` kernels with the given name.
pub open spec fn first_named(kernels: Seq<StructuredKernel>, name: Seq<char>, n: int) -> Option<int>
    decreases n,
{
    if n <= 0 {
        None
    } else {
        match first_named(kernels, name, n - 1) {
            Some(i) => Some(i),
            None => if kernels[n - 1].name@ == name {
                Some(n - 1)
            } else {
                None
            },
        }
    }
}

/// What a numeric-policy mutation check owes before it runs: a valid module, a kernel that the
/// case names (the first with that name), a valid case for it, an applicable mutation, and the
/// executables of the kernel before and after the mutation. On success, the kernel's index and
/// the mutated policy.
pub open spec fn mutation_plan_outcome(
    name: Seq<char>,
    kernels: Seq<StructuredKernel>,
    case: CaseShapeModel,
    mutation: NumericPolicyMutation,
) -> Result<(int, NumericPolicy), CampaignFailure> {
    match crate::validate::module_violation(name, crate::validate::kernel_models(kernels)) {
        Some(v) => Err(CampaignFailure::InvalidModule(v)),
        None => match first_named(kernels, case.kernel, kernels.len() as int) {
            None => Err(CampaignFailure::InvalidCase("mutation case references an unknown kernel"@)),
            Some(i) => {
                let k = kernels[i]@;
                match case_outcome(k.operands, k.name, case) {
                    Err(e) => Err(e),
                    Ok(_) => match mutated_policy(k.policy, mutation) {
                        None => Err(CampaignFailure::MutationNotApplicable),
                        Some(p) => {
                            let toggle = mutation is ToggleReductionOrder;
                            match mutation_outcome(k, toggle) {
                                Err(e) => Err(e),
                                Ok(_) => match mutation_outcome(crate::ir::KernelModel { policy: p, ..k }, toggle) {
                                    Err(e) => Err(e),
                                    Ok(_) => Ok((i, p)),
                                },
                            }
                        },
                    },
                }
            },
        },
    }
}

/// Prepare a numeric-policy mutation check: validate the module, find the kernel the case
/// names, check the case, mutate the kernel's policy, and build the executables the kernel runs
/// as before and after the mutation (with the alternate reduction schedule for a reduction-order
/// toggle).
pub fn plan_mutation(module: StructuredModule, case: &CaseShape, mutation: NumericPolicyMutation) -> (r: Result<
    (Executable, Executable),
    CampaignError,
>)
    requires
        case.primal_finite@.len() == case.primal_lengths@.len(),
    ensures
        match r {
            Ok((baseline, mutated)) => {
                let outcome = mutation_plan_outcome(module.name@, module.kernels@, case@, mutation);
                let toggle = mutation is ToggleReductionOrder;
                &&& outcome is Ok
                &&& baseline.kernel_spec()@ == module.kernels@[outcome->Ok_0.0]@
                &&& mutation_outcome(baseline.kernel_spec()@, toggle) == Ok::<Seq<AxisId>, CampaignFailure>(
                    baseline.schedule_spec().loop_order,
                )
                &&& mutated.kernel_spec()@ == crate::ir::KernelModel { policy: outcome->Ok_0.1, ..module.kernels@[outcome->Ok_0.0]@ }
                &&& mutation_outcome(mutated.kernel_spec()@, toggle) == Ok::<Seq<AxisId>, CampaignFailure>(
                    mutated.schedule_spec().loop_order,
                )
            },
            Err(e) => mutation_plan_outcome(module.name@, module.kernels@, case@, mutation) == Err::<
                (int, NumericPolicy),
                CampaignFailure,
            >(e@),
        },
{
    let ghost kernels = module.kernels@;
    let validated = match crate::validate::validate_module(module) {
        Ok(v) => v,
        Err(e) => {
            return Err(CampaignError::InvalidModule(e));
        },
    };
    let stages = validated.kernels();
    let mut i: usize = 0;
    while i < stages.len() && stages[i].as_kernel().name != case.kernel
        invariant
            i <= stages@.len(),
            stages@.map_values(|v: ValidatedKernel| v.inner()) == kernels,
            first_named(kernels, case.kernel@, i as int) is None,
        decreases stages@.len() - i,
    {
        assert(stages@[i as int].inner() == kernels[i as int]);
        i = i + 1;
    }
    if i == stages.len() {
        return Err(invalid_case("mutation case references an unknown kernel"));
    }
    let kernel = stages[i].as_kernel();
    proof {
        assert(stages@[i as int].inner() == kernels[i as int]);
        assert(first_named(kernels, case.kernel@, (i + 1) as int) == Some(i as int));
        lemma_first_named_stable(kernels, case.kernel@, (i + 1) as int, kernels.len() as int);
    }
    match validate_case(kernel, case) {
        Ok(_) => {},
        Err(e) => {
            return Err(e);
        },
    }
    let mut mutated = kernel.copy();
    match mutate_policy(&mut mutated.numeric_policy, mutation) {
        Ok(_) => {},
        Err(e) => {
            return Err(e);
        },
    }
    let toggle = match mutation {
        NumericPolicyMutation::ToggleReductionOrder => true,
        _ => false,
    };
    let baseline = match mutation_executable(kernel.copy(), toggle) {
        Ok(e) => e,
        Err(e) => {
            return Err(e);
        },
    };
    proof {
        assert(mutated@ == (crate::ir::KernelModel { policy: mutated.numeric_policy, ..kernels[i as int]@ }));
    }
    let mutated = match mutation_executable(mutated, toggle) {
        Ok(e) => e,
        Err(e) => {
            return Err(e);
        },
    };
    Ok((baseline, mutated))
}

proof fn lemma_first_named_stable(kernels: Seq<StructuredKernel>, name: Seq<char>, i: int, n: int)
    requires
        0 <= i <= n,
        first_named(kernels, name, i) is Some,
    ensures
        first_named(kernels, name, n) == first_named(kernels, name, i),
    decreases n - i,
{
    if i < n {
        lemma_first_named_stable(kernels, name, i, n - 1);
    }
}

// ---------------------------------------------------------------------------------------------
// The derivative requests of a case
// ---------------------------------------------------------------------------------------------
/// The operands of a list of vectors, in order.
pub open spec fn vector_operands(vectors: Seq<VectorShape>) -> Seq<OperandId> {
    vectors.map_values(|v: VectorShape| v.operand)
}

fn operands_of(vectors: &Vec<VectorShape>, out: &mut Vec<OperandId>)
    ensures
        final(out)@ == old(out)@ + vector_operands(vectors@),
{
    let ghost start = out@;
    let mut i: usize = 0;
    while i < vectors.len()
        invariant
            i <= vectors@.len(),
            out@ == start + vector_operands(vectors@).take(i as int),
        decreases vectors@.len() - i,
    {
        out.push(vectors[i].operand);
        i = i + 1;
        assert(out@ =~= start + vector_operands(vectors@).take(i as int));
    }
    assert(vector_operands(vectors@).take(vectors@.len() as int) =~= vector_operands(vectors@));
}

/// The derivative requests a campaign case is checked with: a JVP and a VJP over the state and
/// parameter directions together (state operands first) towards every seeded dependent, and,
/// where the case has parameter directions, a JVP over the parameter directions alone.
pub fn case_requests(case: &CaseShape) -> (r: (DerivativeRequest, DerivativeRequest, Option<DerivativeRequest>))
    ensures
        r.0@ == (RequestModel {
            mode: DerivativeMode::Jvp,
            independent: vector_operands(case@.states) + vector_operands(case@.parameters),
            dependent: vector_operands(case@.seeds),
        }),
        r.1@ == (RequestModel {
            mode: DerivativeMode::Vjp,
            independent: vector_operands(case@.states) + vector_operands(case@.parameters),
            dependent: vector_operands(case@.seeds),
        }),
        match r.2 {
            Some(q) => case@.parameters.len() > 0 && q@ == (RequestModel {
                mode: DerivativeMode::Jvp,
                independent: vector_operands(case@.parameters),
                dependent: vector_operands(case@.seeds),
            }),
            None => case@.parameters.len() == 0,
        },
{
    let mut directions: Vec<OperandId> = Vec::new();
    operands_of(&case.state_directions, &mut directions);
    operands_of(&case.parameter_directions, &mut directions);
    let mut seeds: Vec<OperandId> = Vec::new();
    operands_of(&case.dependent_seeds, &mut seeds);
    let mut reverse_directions: Vec<OperandId> = Vec::new();
    operands_of(&case.state_directions, &mut reverse_directions);
    operands_of(&case.parameter_directions, &mut reverse_directions);
    let mut reverse_seeds: Vec<OperandId> = Vec::new();
    operands_of(&case.dependent_seeds, &mut reverse_seeds);
    let parameter = if case.parameter_directions.len() > 0 {
        let mut parameters: Vec<OperandId> = Vec::new();
        operands_of(&case.parameter_directions, &mut parameters);
        let mut parameter_seeds: Vec<OperandId> = Vec::new();
        operands_of(&case.dependent_seeds, &mut parameter_seeds);
        Some(
            DerivativeRequest {
                mode: DerivativeMode::Jvp,
                independent_operands: parameters,
                dependent_operands: parameter_seeds,
            },
        )
    } else {
        None
    };
    proof {
        assert(Seq::<OperandId>::empty() + vector_operands(case@.states) + vector_operands(case@.parameters)
            =~= vector_operands(case@.states) + vector_operands(case@.parameters));
        assert(Seq::<OperandId>::empty() + vector_operands(case@.seeds) =~= vector_operands(case@.seeds));
        assert(Seq::<OperandId>::empty() + vector_operands(case@.parameters) =~= vector_operands(case@.parameters));
    }
    (
        DerivativeRequest {
            mode: DerivativeMode::Jvp,
            independent_operands: directions,
            dependent_operands: seeds,
        },
        DerivativeRequest {
            mode: DerivativeMode::Vjp,
            independent_operands: reverse_directions,
            dependent_operands: reverse_seeds,
        },
        parameter,
    )
}

} // verus!
