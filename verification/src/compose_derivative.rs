//! Derivatives of kernel compositions: compositions of per-stage derivative kernels.
//!
//! Stages that neither receive a direction (JVP) nor feed a seeded dependent get no derivative
//! stage; primal producer stages are reproduced verbatim wherever a derivative stage needs the
//! primal value of a shared input. Requested operands that are structurally disconnected from
//! every operand on the other side of the request are refused rather than silently zero.
use vstd::prelude::*;

use crate::compose::{
    validate_composition,
    composition_violation, contains_member, find_membership, group_outcome, in_groups, lemma_membership,
    lemma_valid_group, member_def, member_exists, membership, plan_matches, plans_match, validated_models, kernel_models, group_models, SharedBuffer,
    CompositionError, CompositionFailure, CompositionModel, KernelComposition, SharedBufferPlan, StageOperand,
};
use crate::validate::ValidatedKernel;
use crate::differentiate::{DifferentiationError, DifferentiationFailure, ProductModel, RequestModel};
use crate::ir::{DerivativeMode, DerivativeOperand, DerivativeProduct, DerivativeRequest, OperandId, StructuredKernel};

verus! {

/// Differentiation request over the exposed (unshared) operands of a composition.
#[derive(Clone, Debug, PartialEq, Eq)]
pub struct CompositionDerivativeRequest {
    pub mode: DerivativeMode,
    pub independent_operands: Vec<StageOperand>,
    pub dependent_operands: Vec<StageOperand>,
}

pub struct CompositionRequestModel {
    pub mode: DerivativeMode,
    pub independent: Seq<StageOperand>,
    pub dependent: Seq<StageOperand>,
}

impl View for CompositionDerivativeRequest {
    type V = CompositionRequestModel;

    open spec fn view(&self) -> CompositionRequestModel {
        CompositionRequestModel {
            mode: self.mode,
            independent: self.independent_operands@,
            dependent: self.dependent_operands@,
        }
    }
}

/// A requested primal operand paired with its derivative operand in the derivative composition.
#[derive(Clone, Copy, Debug, PartialEq, Eq, Structural)]
pub struct CompositionDerivativeOperand {
    pub primal: StageOperand,
    pub derivative: StageOperand,
}

/// Where a primal stage reappears, verbatim, inside a derivative composition.
#[derive(Clone, Copy, Debug, PartialEq, Eq, Structural)]
pub struct CompositionPrimalStage {
    pub primal_stage: usize,
    pub stage: usize,
}

/// Where a stage's derivative kernel sits inside a derivative composition, with the table that
/// maps the stage's readable primal operands to that kernel's operands.
#[derive(Clone, Debug, PartialEq, Eq)]
pub struct CompositionDerivativeStage {
    pub primal_stage: usize,
    pub stage: usize,
    pub primal_operands: Vec<DerivativeOperand>,
}

/// A derivative composition plus its explicit primal/derivative bindings.
///
/// For a JVP, `independent_operands` are direction inputs and `dependent_operands` are tangent
/// outputs. For a VJP, dependent entries are cotangent seeds and independent entries are
/// cotangent outputs. The primal value of every readable operand of a derivative stage is bound
/// through `derivative_stages[..].primal_operands`, except for operands aliased to a shared
/// buffer, which the composition feeds from the reproduced primal producer stages.
#[derive(Clone, Debug, PartialEq, Eq)]
pub struct CompositionDerivativeProduct {
    pub mode: DerivativeMode,
    pub composition: KernelComposition,
    pub primal_stages: Vec<CompositionPrimalStage>,
    pub derivative_stages: Vec<CompositionDerivativeStage>,
    pub independent_operands: Vec<CompositionDerivativeOperand>,
    pub dependent_operands: Vec<CompositionDerivativeOperand>,
}

#[derive(Clone, Debug, PartialEq, Eq)]
pub enum CompositionDifferentiationError {
    InvalidPrimal(CompositionError),
    InvalidDerivative(CompositionError),
    UnsupportedMode(DerivativeMode),
    EmptyDependentSet,
    DuplicateIndependent(StageOperand),
    DuplicateDependent(StageOperand),
    InvalidIndependent(StageOperand),
    InvalidDependent(StageOperand),
    IndependentNotReadable(StageOperand),
    DependentNotWritten(StageOperand),
    SharedIndependent(StageOperand),
    SharedDependent(StageOperand),
    /// No requested dependent depends on this independent through the composition.
    IndependentUnreachable(StageOperand),
    /// This dependent depends on no requested independent through the composition.
    DependentUnreachable(StageOperand),
    Stage { stage: usize, error: DifferentiationError },
}

/// The mathematical content of a [`CompositionDifferentiationError`].
pub enum CompositionDifferentiationFailure {
    InvalidPrimal(CompositionFailure),
    InvalidDerivative(CompositionFailure),
    UnsupportedMode(DerivativeMode),
    EmptyDependentSet,
    DuplicateIndependent(StageOperand),
    DuplicateDependent(StageOperand),
    InvalidIndependent(StageOperand),
    InvalidDependent(StageOperand),
    IndependentNotReadable(StageOperand),
    DependentNotWritten(StageOperand),
    SharedIndependent(StageOperand),
    SharedDependent(StageOperand),
    IndependentUnreachable(StageOperand),
    DependentUnreachable(StageOperand),
    Stage { stage: usize, error: DifferentiationFailure },
}

impl View for CompositionDifferentiationError {
    type V = CompositionDifferentiationFailure;

    open spec fn view(&self) -> CompositionDifferentiationFailure {
        match self {
            CompositionDifferentiationError::InvalidPrimal(e) => CompositionDifferentiationFailure::InvalidPrimal(e@),
            CompositionDifferentiationError::InvalidDerivative(e) => CompositionDifferentiationFailure::InvalidDerivative(e@),
            CompositionDifferentiationError::UnsupportedMode(m) => CompositionDifferentiationFailure::UnsupportedMode(*m),
            CompositionDifferentiationError::EmptyDependentSet => CompositionDifferentiationFailure::EmptyDependentSet,
            CompositionDifferentiationError::DuplicateIndependent(t) => CompositionDifferentiationFailure::DuplicateIndependent(*t),
            CompositionDifferentiationError::DuplicateDependent(t) => CompositionDifferentiationFailure::DuplicateDependent(*t),
            CompositionDifferentiationError::InvalidIndependent(t) => CompositionDifferentiationFailure::InvalidIndependent(*t),
            CompositionDifferentiationError::InvalidDependent(t) => CompositionDifferentiationFailure::InvalidDependent(*t),
            CompositionDifferentiationError::IndependentNotReadable(t) =>
                CompositionDifferentiationFailure::IndependentNotReadable(*t),
            CompositionDifferentiationError::DependentNotWritten(t) => CompositionDifferentiationFailure::DependentNotWritten(*t),
            CompositionDifferentiationError::SharedIndependent(t) => CompositionDifferentiationFailure::SharedIndependent(*t),
            CompositionDifferentiationError::SharedDependent(t) => CompositionDifferentiationFailure::SharedDependent(*t),
            CompositionDifferentiationError::IndependentUnreachable(t) =>
                CompositionDifferentiationFailure::IndependentUnreachable(*t),
            CompositionDifferentiationError::DependentUnreachable(t) =>
                CompositionDifferentiationFailure::DependentUnreachable(*t),
            CompositionDifferentiationError::Stage { stage, error } => CompositionDifferentiationFailure::Stage {
                stage: *stage,
                error: error@,
            },
        }
    }
}

// ---------------------------------------------------------------------------------------------
// Requested operands
// ---------------------------------------------------------------------------------------------
/// Whether a stage operand belongs to some shared buffer.
pub open spec fn is_shared(c: CompositionModel, t: StageOperand) -> bool {
    in_groups(c.groups, c.groups.len() as int, t)
}

/// The first refused independent among the first `n`.
pub open spec fn independents_refusal(c: CompositionModel, ts: Seq<StageOperand>, n: int) -> Option<
    CompositionDifferentiationFailure,
>
    decreases n,
{
    if n <= 0 {
        None
    } else {
        match independents_refusal(c, ts, n - 1) {
            Some(f) => Some(f),
            None => {
                let t = ts[n - 1];
                if ts.take(n - 1).contains(t) {
                    Some(CompositionDifferentiationFailure::DuplicateIndependent(t))
                } else if !member_exists(c.stages, t) {
                    Some(CompositionDifferentiationFailure::InvalidIndependent(t))
                } else if !member_def(c.stages, t).access.readable() {
                    Some(CompositionDifferentiationFailure::IndependentNotReadable(t))
                } else if is_shared(c, t) {
                    Some(CompositionDifferentiationFailure::SharedIndependent(t))
                } else {
                    None
                }
            },
        }
    }
}

/// The first refused dependent among the first `n`.
pub open spec fn dependents_refusal(c: CompositionModel, ts: Seq<StageOperand>, n: int) -> Option<
    CompositionDifferentiationFailure,
>
    decreases n,
{
    if n <= 0 {
        None
    } else {
        match dependents_refusal(c, ts, n - 1) {
            Some(f) => Some(f),
            None => {
                let t = ts[n - 1];
                if ts.take(n - 1).contains(t) {
                    Some(CompositionDifferentiationFailure::DuplicateDependent(t))
                } else if !member_exists(c.stages, t) {
                    Some(CompositionDifferentiationFailure::InvalidDependent(t))
                } else if !member_def(c.stages, t).access.writable() {
                    Some(CompositionDifferentiationFailure::DependentNotWritten(t))
                } else if is_shared(c, t) {
                    Some(CompositionDifferentiationFailure::SharedDependent(t))
                } else {
                    None
                }
            },
        }
    }
}

/// The operands, in request order, of the first `n` targets that lie in stage `s`.
pub open spec fn requested_ops(ts: Seq<StageOperand>, s: int, n: int) -> Seq<OperandId>
    decreases n,
{
    if n <= 0 {
        Seq::empty()
    } else if ts[n - 1].stage == s {
        requested_ops(ts, s, n - 1).push(ts[n - 1].operand)
    } else {
        requested_ops(ts, s, n - 1)
    }
}

// ---------------------------------------------------------------------------------------------
// Reachability
// ---------------------------------------------------------------------------------------------
pub open spec fn writers_of(c: CompositionModel, b: int) -> Seq<StageOperand> {
    group_outcome(c.stages, c.groups, b)->Ok_0.writers
}

pub open spec fn readers_of(c: CompositionModel, b: int) -> Seq<StageOperand> {
    group_outcome(c.stages, c.groups, b)->Ok_0.readers
}

/// Some writer of buffer `b` lies in a flagged stage.
pub open spec fn buffer_fed(c: CompositionModel, flags: Seq<bool>, b: int) -> bool {
    exists|w: int| 0 <= w < writers_of(c, b).len() && flags[(#[trigger] writers_of(c, b)[w]).stage as int]
}

/// Some reader of buffer `b` lies in a flagged stage.
pub open spec fn buffer_used(c: CompositionModel, flags: Seq<bool>, b: int) -> bool {
    exists|r: int| 0 <= r < readers_of(c, b).len() && flags[(#[trigger] readers_of(c, b)[r]).stage as int]
}

/// Stage `s` reads a shared buffer that a flagged stage writes.
pub open spec fn reads_flagged(c: CompositionModel, flags: Seq<bool>, s: int) -> bool {
    exists|b: int, r: int|
        0 <= b < c.groups.len() && 0 <= r < readers_of(c, b).len() && (#[trigger] readers_of(c, b)[r]).stage == s
            && buffer_fed(c, flags, b)
}

/// Stage `s` writes a shared buffer that a flagged stage reads.
pub open spec fn writes_flagged(c: CompositionModel, flags: Seq<bool>, s: int) -> bool {
    exists|b: int, w: int|
        0 <= b < c.groups.len() && 0 <= w < writers_of(c, b).len() && (#[trigger] writers_of(c, b)[w]).stage == s
            && buffer_used(c, flags, b)
}

/// Stages `0..n` marked when a requested independent lies in them or they read a buffer a
/// marked stage writes; stages from `n` on still unmarked.
pub open spec fn active_flags(c: CompositionModel, req: CompositionRequestModel, n: int) -> Seq<bool>
    decreases n,
{
    if n <= 0 {
        Seq::new(c.stages.len(), |i: int| false)
    } else {
        let prev = active_flags(c, req, n - 1);
        prev.update(
            n - 1,
            requested_ops(req.independent, n - 1, req.independent.len() as int).len() > 0 || reads_flagged(c, prev, n - 1),
        )
    }
}

/// The last `m` stages marked when a requested dependent lies in them or they write a buffer
/// a marked stage reads; earlier stages still unmarked.
pub open spec fn needed_flags(c: CompositionModel, req: CompositionRequestModel, m: int) -> Seq<bool>
    decreases m,
{
    if m <= 0 {
        Seq::new(c.stages.len(), |i: int| false)
    } else {
        let prev = needed_flags(c, req, m - 1);
        let s = c.stages.len() - m;
        prev.update(
            s,
            requested_ops(req.dependent, s, req.dependent.len() as int).len() > 0 || writes_flagged(c, prev, s),
        )
    }
}

/// The stages that get a derivative stage: reached from a requested independent and reaching
/// a requested dependent.
pub open spec fn derived_flags(c: CompositionModel, req: CompositionRequestModel) -> Seq<bool> {
    let active = active_flags(c, req, c.stages.len() as int);
    let needed = needed_flags(c, req, c.stages.len() as int);
    Seq::new(c.stages.len(), |s: int| active[s] && needed[s])
}

/// Stage `s` writes a buffer read by a derived stage or by a flagged stage.
pub open spec fn feeds_derivative(c: CompositionModel, derived: Seq<bool>, flags: Seq<bool>, s: int) -> bool {
    exists|b: int, w: int|
        0 <= b < c.groups.len() && 0 <= w < writers_of(c, b).len() && (#[trigger] writers_of(c, b)[w]).stage == s
            && (buffer_used(c, derived, b) || buffer_used(c, flags, b))
}

/// The last `m` stages marked when their primal values are reproduced: they write a buffer that
/// a derived or a reproduced stage reads.
pub open spec fn included_flags(c: CompositionModel, derived: Seq<bool>, m: int) -> Seq<bool>
    decreases m,
{
    if m <= 0 {
        Seq::new(c.stages.len(), |i: int| false)
    } else {
        let prev = included_flags(c, derived, m - 1);
        let s = c.stages.len() - m;
        prev.update(s, feeds_derivative(c, derived, prev, s))
    }
}

/// The first of the first `n` targets whose stage is not derived.
pub open spec fn first_underived(ts: Seq<StageOperand>, derived: Seq<bool>, n: int) -> Option<StageOperand>
    decreases n,
{
    if n <= 0 {
        None
    } else {
        match first_underived(ts, derived, n - 1) {
            Some(t) => Some(t),
            None => if !derived[ts[n - 1].stage as int] {
                Some(ts[n - 1])
            } else {
                None
            },
        }
    }
}


// ---------------------------------------------------------------------------------------------
// Per-stage requests
// ---------------------------------------------------------------------------------------------
/// The first index from `i` on whose operand id exceeds that of `x`, or the length.
pub open spec fn first_greater_id(s: Seq<OperandId>, x: OperandId, i: int) -> int
    decreases s.len() - i,
{
    if i >= s.len() {
        s.len() as int
    } else if s[i].0 > x.0 {
        i
    } else {
        first_greater_id(s, x, i + 1)
    }
}

/// The first `n` ids of `list` in increasing order: each is inserted before the first larger
/// one already placed.
pub open spec fn sort_ids(list: Seq<OperandId>, n: int) -> Seq<OperandId>
    decreases n,
{
    if n <= 0 {
        Seq::empty()
    } else {
        let sorted = sort_ids(list, n - 1);
        sorted.insert(first_greater_id(sorted, list[n - 1], 0), list[n - 1])
    }
}

pub open spec fn sorted_ids(list: Seq<OperandId>) -> Seq<OperandId> {
    sort_ids(list, list.len() as int)
}

/// Append the operand of every one of the first `k` readers of buffer `b` that lies in stage
/// `s`, when a flagged stage writes `b` and the operand is not yet listed.
pub open spec fn add_readers(c: CompositionModel, flags: Seq<bool>, s: int, list: Seq<OperandId>, b: int, k: int) -> Seq<
    OperandId,
>
    decreases k,
{
    if k <= 0 {
        list
    } else {
        let l = add_readers(c, flags, s, list, b, k - 1);
        let r = readers_of(c, b)[k - 1];
        if r.stage == s && buffer_fed(c, flags, b) && !l.contains(r.operand) {
            l.push(r.operand)
        } else {
            l
        }
    }
}

pub open spec fn add_all_readers(c: CompositionModel, flags: Seq<bool>, s: int, list: Seq<OperandId>, n: int) -> Seq<
    OperandId,
>
    decreases n,
{
    if n <= 0 {
        list
    } else {
        let l = add_all_readers(c, flags, s, list, n - 1);
        add_readers(c, flags, s, l, n - 1, readers_of(c, n - 1).len() as int)
    }
}

/// Append the operand of every one of the first `k` writers of buffer `b` that lies in stage
/// `s`, when a flagged stage reads `b` and the operand is not yet listed.
pub open spec fn add_writers(c: CompositionModel, flags: Seq<bool>, s: int, list: Seq<OperandId>, b: int, k: int) -> Seq<
    OperandId,
>
    decreases k,
{
    if k <= 0 {
        list
    } else {
        let l = add_writers(c, flags, s, list, b, k - 1);
        let w = writers_of(c, b)[k - 1];
        if w.stage == s && buffer_used(c, flags, b) && !l.contains(w.operand) {
            l.push(w.operand)
        } else {
            l
        }
    }
}

pub open spec fn add_all_writers(c: CompositionModel, flags: Seq<bool>, s: int, list: Seq<OperandId>, n: int) -> Seq<
    OperandId,
>
    decreases n,
{
    if n <= 0 {
        list
    } else {
        let l = add_all_writers(c, flags, s, list, n - 1);
        add_writers(c, flags, s, l, n - 1, writers_of(c, n - 1).len() as int)
    }
}

/// The request a derived stage is differentiated with: its requested operands plus the shared
/// inputs written by derived stages (independents) and the shared outputs read by derived
/// stages (dependents), each list in increasing operand order.
pub open spec fn stage_request(c: CompositionModel, req: CompositionRequestModel, derived: Seq<bool>, s: int) -> RequestModel {
    RequestModel {
        mode: req.mode,
        independent: sorted_ids(
            add_all_readers(c, derived, s, requested_ops(req.independent, s, req.independent.len() as int), c.groups.len() as int),
        ),
        dependent: sorted_ids(
            add_all_writers(c, derived, s, requested_ops(req.dependent, s, req.dependent.len() as int), c.groups.len() as int),
        ),
    }
}

#[verifier::opaque]
pub open spec fn stage_outcome(c: CompositionModel, req: CompositionRequestModel, derived: Seq<bool>, s: int) -> Result<
    ProductModel,
    DifferentiationFailure,
> {
    crate::differentiate::differentiation(c.stages[s], stage_request(c, req, derived, s))
}

pub open spec fn stage_product(c: CompositionModel, req: CompositionRequestModel, derived: Seq<bool>, s: int) -> ProductModel {
    stage_outcome(c, req, derived, s)->Ok_0
}

/// The first derived stage among `0..n`, in increasing order, whose differentiation fails.
pub open spec fn stage_failure_up(c: CompositionModel, req: CompositionRequestModel, derived: Seq<bool>, n: int) -> Option<
    (usize, DifferentiationFailure),
>
    decreases n,
{
    if n <= 0 {
        None
    } else {
        match stage_failure_up(c, req, derived, n - 1) {
            Some(f) => Some(f),
            None => if derived[n - 1] && stage_outcome(c, req, derived, n - 1) is Err {
                Some(((n - 1) as usize, stage_outcome(c, req, derived, n - 1)->Err_0))
            } else {
                None
            },
        }
    }
}

/// The first derived stage among the last `m`, in decreasing order, whose differentiation fails.
pub open spec fn stage_failure_down(c: CompositionModel, req: CompositionRequestModel, derived: Seq<bool>, m: int) -> Option<
    (usize, DifferentiationFailure),
>
    decreases m,
{
    if m <= 0 {
        None
    } else {
        match stage_failure_down(c, req, derived, m - 1) {
            Some(f) => Some(f),
            None => {
                let s = c.stages.len() - m;
                if derived[s] && stage_outcome(c, req, derived, s) is Err {
                    Some((s as usize, stage_outcome(c, req, derived, s)->Err_0))
                } else {
                    None
                }
            },
        }
    }
}

// ---------------------------------------------------------------------------------------------
// Assembly
// ---------------------------------------------------------------------------------------------
/// How many of the first `n` flags are set.
pub open spec fn count_true(flags: Seq<bool>, n: int) -> nat
    decreases n,
{
    if n <= 0 {
        0
    } else {
        count_true(flags, n - 1) + if flags[n - 1] {
            1nat
        } else {
            0nat
        }
    }
}

/// Where the reproduced primal stage `s` sits: after the reproduced stages before it.
pub open spec fn primal_position(included: Seq<bool>, s: int) -> int {
    count_true(included, s) as int
}

/// Where the derivative stage of `s` sits: after every reproduced stage and the derivative
/// stages before it in derivative order (increasing for a JVP, decreasing for a VJP).
pub open spec fn derivative_position(mode: DerivativeMode, included: Seq<bool>, derived: Seq<bool>, s: int) -> int {
    let n = derived.len() as int;
    count_true(included, included.len() as int) + if mode is Jvp {
        count_true(derived, s) as int
    } else {
        count_true(derived, n) - count_true(derived, s + 1)
    }
}

pub struct DerivativeStageModel {
    pub primal_stage: usize,
    pub stage: usize,
    pub primal_operands: Seq<DerivativeOperand>,
}

impl View for CompositionDerivativeStage {
    type V = DerivativeStageModel;

    open spec fn view(&self) -> DerivativeStageModel {
        DerivativeStageModel { primal_stage: self.primal_stage, stage: self.stage, primal_operands: self.primal_operands@ }
    }
}

pub struct CompositionProductModel {
    pub mode: DerivativeMode,
    pub composition: CompositionModel,
    pub primal_stages: Seq<CompositionPrimalStage>,
    pub derivative_stages: Seq<DerivativeStageModel>,
    pub independent_operands: Seq<CompositionDerivativeOperand>,
    pub dependent_operands: Seq<CompositionDerivativeOperand>,
}

impl View for CompositionDerivativeProduct {
    type V = CompositionProductModel;

    open spec fn view(&self) -> CompositionProductModel {
        CompositionProductModel {
            mode: self.mode,
            composition: self.composition@,
            primal_stages: self.primal_stages@,
            derivative_stages: self.derivative_stages@.map_values(|d: CompositionDerivativeStage| d@),
            independent_operands: self.independent_operands@,
            dependent_operands: self.dependent_operands@,
        }
    }
}

/// The reproduced primal stages among `0..n`, in increasing order, with their positions.
pub open spec fn primal_table(included: Seq<bool>, n: int) -> Seq<CompositionPrimalStage>
    decreases n,
{
    if n <= 0 {
        Seq::empty()
    } else if included[n - 1] {
        primal_table(included, n - 1).push(
            CompositionPrimalStage { primal_stage: (n - 1) as usize, stage: primal_position(included, n - 1) as usize },
        )
    } else {
        primal_table(included, n - 1)
    }
}

/// The derivative stages in derivative order: `order` lists the stages in that order.
pub open spec fn derivative_table(
    c: CompositionModel,
    req: CompositionRequestModel,
    derived: Seq<bool>,
    included: Seq<bool>,
    order: Seq<int>,
    n: int,
) -> Seq<DerivativeStageModel>
    decreases n,
{
    if n <= 0 {
        Seq::empty()
    } else {
        let prev = derivative_table(c, req, derived, included, order, n - 1);
        let s = order[n - 1];
        if derived[s] {
            prev.push(
                DerivativeStageModel {
                    primal_stage: s as usize,
                    stage: derivative_position(req.mode, included, derived, s) as usize,
                    primal_operands: stage_product(c, req, derived, s).primal_operands,
                },
            )
        } else {
            prev
        }
    }
}

/// The stages in derivative order: increasing for a JVP, decreasing for a VJP.
pub open spec fn derivative_order(mode: DerivativeMode, count: nat) -> Seq<int> {
    if mode is Jvp {
        Seq::new(count, |i: int| i)
    } else {
        Seq::new(count, |i: int| count - 1 - i)
    }
}

/// The kernels of the reproduced primal stages among `0..n`, in increasing order.
pub open spec fn primal_kernels(c: CompositionModel, included: Seq<bool>, n: int) -> Seq<crate::ir::KernelModel>
    decreases n,
{
    if n <= 0 {
        Seq::empty()
    } else if included[n - 1] {
        primal_kernels(c, included, n - 1).push(c.stages[n - 1])
    } else {
        primal_kernels(c, included, n - 1)
    }
}

/// The derivative kernels of the first `n` stages of `order` that are derived.
pub open spec fn derivative_kernels(
    c: CompositionModel,
    req: CompositionRequestModel,
    derived: Seq<bool>,
    order: Seq<int>,
    n: int,
) -> Seq<crate::ir::KernelModel>
    decreases n,
{
    if n <= 0 {
        Seq::empty()
    } else if derived[order[n - 1]] {
        derivative_kernels(c, req, derived, order, n - 1).push(stage_product(c, req, derived, order[n - 1]).kernel)
    } else {
        derivative_kernels(c, req, derived, order, n - 1)
    }
}

/// The derivative operand of the first of the first `n` pairs whose primal operand is `primal`.
pub open spec fn find_pair(pairs: Seq<DerivativeOperand>, primal: OperandId, n: int) -> Option<OperandId>
    decreases n,
{
    if n <= 0 {
        None
    } else {
        match find_pair(pairs, primal, n - 1) {
            Some(d) => Some(d),
            None => if pairs[n - 1].primal == primal {
                Some(pairs[n - 1].derivative)
            } else {
                None
            },
        }
    }
}

pub open spec fn pair_of(pairs: Seq<DerivativeOperand>, primal: OperandId) -> Option<OperandId> {
    find_pair(pairs, primal, pairs.len() as int)
}

/// The context the assembly of a derivative composition reads.
pub struct Assembly {
    pub c: CompositionModel,
    pub req: CompositionRequestModel,
    pub derived: Seq<bool>,
    pub included: Seq<bool>,
}

pub open spec fn dpos(a: Assembly, s: int) -> usize {
    derivative_position(a.req.mode, a.included, a.derived, s) as usize
}

pub open spec fn product_of(a: Assembly, s: int) -> ProductModel {
    stage_product(a.c, a.req, a.derived, s)
}

/// The primal-value members of buffer `b` among its first `k` members: every member in a
/// reproduced stage, at that stage's position.
pub open spec fn reproduced_members(a: Assembly, b: int, k: int) -> Seq<StageOperand>
    decreases k,
{
    if k <= 0 {
        Seq::empty()
    } else {
        let m = a.c.groups[b][k - 1];
        let prev = reproduced_members(a, b, k - 1);
        if a.included[m.stage as int] {
            prev.push(StageOperand { stage: primal_position(a.included, m.stage as int) as usize, operand: m.operand })
        } else {
            prev
        }
    }
}

/// The primal-value operands of the derivative stages among the first `k` readers of `b`.
pub open spec fn primal_readers(a: Assembly, b: int, k: int) -> Seq<StageOperand>
    decreases k,
{
    if k <= 0 {
        Seq::empty()
    } else {
        let r = readers_of(a.c, b)[k - 1];
        let prev = primal_readers(a, b, k - 1);
        if a.derived[r.stage as int] {
            prev.push(
                StageOperand {
                    stage: dpos(a, r.stage as int),
                    operand: pair_of(product_of(a, r.stage as int).primal_operands, r.operand)->Some_0,
                },
            )
        } else {
            prev
        }
    }
}

pub open spec fn primal_group(a: Assembly, b: int) -> Seq<StageOperand> {
    reproduced_members(a, b, a.c.groups[b].len() as int) + primal_readers(a, b, readers_of(a.c, b).len() as int)
}

/// The tangent (JVP) or seed (VJP) operands of the derivative stages among the first `k`
/// writers of `b`.
pub open spec fn derivative_writers(a: Assembly, b: int, k: int) -> Seq<StageOperand>
    decreases k,
{
    if k <= 0 {
        Seq::empty()
    } else {
        let w = writers_of(a.c, b)[k - 1];
        let prev = derivative_writers(a, b, k - 1);
        if a.derived[w.stage as int] && pair_of(product_of(a, w.stage as int).dependent_operands, w.operand) is Some {
            prev.push(
                StageOperand {
                    stage: dpos(a, w.stage as int),
                    operand: pair_of(product_of(a, w.stage as int).dependent_operands, w.operand)->Some_0,
                },
            )
        } else {
            prev
        }
    }
}

/// The direction (JVP) or cotangent (VJP) operands of the derivative stages among the first
/// `k` readers of `b`.
pub open spec fn derivative_readers(a: Assembly, b: int, k: int) -> Seq<StageOperand>
    decreases k,
{
    if k <= 0 {
        Seq::empty()
    } else {
        let r = readers_of(a.c, b)[k - 1];
        let prev = derivative_readers(a, b, k - 1);
        if a.derived[r.stage as int] && pair_of(product_of(a, r.stage as int).independent_operands, r.operand) is Some {
            prev.push(
                StageOperand {
                    stage: dpos(a, r.stage as int),
                    operand: pair_of(product_of(a, r.stage as int).independent_operands, r.operand)->Some_0,
                },
            )
        } else {
            prev
        }
    }
}

/// Whether stage operand `x` orders before `y`: by stage, then by operand.
pub open spec fn member_before(x: StageOperand, y: StageOperand) -> bool {
    x.stage < y.stage || (x.stage == y.stage && x.operand.0 < y.operand.0)
}

pub open spec fn first_greater_member(s: Seq<StageOperand>, x: StageOperand, i: int) -> int
    decreases s.len() - i,
{
    if i >= s.len() {
        s.len() as int
    } else if member_before(x, s[i]) {
        i
    } else {
        first_greater_member(s, x, i + 1)
    }
}

/// The first `n` members of `list` in increasing order.
pub open spec fn sort_members(list: Seq<StageOperand>, n: int) -> Seq<StageOperand>
    decreases n,
{
    if n <= 0 {
        Seq::empty()
    } else {
        let sorted = sort_members(list, n - 1);
        sorted.insert(first_greater_member(sorted, list[n - 1], 0), list[n - 1])
    }
}

/// The derivative sharing of buffer `b`, when both its writer and its reader side have one.
pub open spec fn derivative_group(a: Assembly, b: int) -> Option<Seq<StageOperand>> {
    let writers = derivative_writers(a, b, writers_of(a.c, b).len() as int);
    let readers = derivative_readers(a, b, readers_of(a.c, b).len() as int);
    if writers.len() > 0 && readers.len() > 0 {
        Some(sort_members(writers + readers, (writers + readers).len() as int))
    } else {
        None
    }
}

/// The sharing table of the derivative composition over the first `n` primal buffers.
pub open spec fn derivative_groups(a: Assembly, n: int) -> Seq<Seq<StageOperand>>
    decreases n,
{
    if n <= 0 {
        Seq::empty()
    } else {
        let prev = derivative_groups(a, n - 1);
        let primal = primal_group(a, n - 1);
        let with_primal = if primal.len() > 0 {
            prev.push(primal)
        } else {
            prev
        };
        match derivative_group(a, n - 1) {
            Some(d) => with_primal.push(d),
            None => with_primal,
        }
    }
}

/// The derivative operand of a requested independent (`table` picks the product's table).
pub open spec fn exposed_independent(a: Assembly, t: StageOperand) -> CompositionDerivativeOperand {
    CompositionDerivativeOperand {
        primal: t,
        derivative: StageOperand {
            stage: dpos(a, t.stage as int),
            operand: pair_of(product_of(a, t.stage as int).independent_operands, t.operand)->Some_0,
        },
    }
}

pub open spec fn exposed_dependent(a: Assembly, t: StageOperand) -> CompositionDerivativeOperand {
    CompositionDerivativeOperand {
        primal: t,
        derivative: StageOperand {
            stage: dpos(a, t.stage as int),
            operand: pair_of(product_of(a, t.stage as int).dependent_operands, t.operand)->Some_0,
        },
    }
}

/// The assembled derivative composition and its tables.
pub open spec fn assembled(a: Assembly) -> CompositionProductModel {
    let count = a.c.stages.len();
    let order = derivative_order(a.req.mode, count);
    CompositionProductModel {
        mode: a.req.mode,
        composition: CompositionModel {
            name: a.c.name + if a.req.mode is Jvp {
                "::jvp"@
            } else {
                "::vjp"@
            },
            stages: primal_kernels(a.c, a.included, count as int) + derivative_kernels(a.c, a.req, a.derived, order, count as int),
            groups: derivative_groups(a, a.c.groups.len() as int),
        },
        primal_stages: primal_table(a.included, count as int),
        derivative_stages: derivative_table(a.c, a.req, a.derived, a.included, order, count as int),
        independent_operands: a.req.independent.map_values(|t: StageOperand| exposed_independent(a, t)),
        dependent_operands: a.req.dependent.map_values(|t: StageOperand| exposed_dependent(a, t)),
    }
}

/// What [`differentiate_composition`] owes on a composition and a request.
pub open spec fn composition_differentiation(c: CompositionModel, req: CompositionRequestModel) -> Result<
    CompositionProductModel,
    CompositionDifferentiationFailure,
> {
    match composition_violation(c) {
        Some(f) => Err(CompositionDifferentiationFailure::InvalidPrimal(f)),
        None => if !(req.mode is Jvp || req.mode is Vjp) {
            Err(CompositionDifferentiationFailure::UnsupportedMode(req.mode))
        } else if req.dependent.len() == 0 {
            Err(CompositionDifferentiationFailure::EmptyDependentSet)
        } else {
            match independents_refusal(c, req.independent, req.independent.len() as int) {
                Some(f) => Err(f),
                None => match dependents_refusal(c, req.dependent, req.dependent.len() as int) {
                    Some(f) => Err(f),
                    None => {
                        let derived = derived_flags(c, req);
                        match first_underived(req.independent, derived, req.independent.len() as int) {
                            Some(t) => Err(CompositionDifferentiationFailure::IndependentUnreachable(t)),
                            None => match first_underived(req.dependent, derived, req.dependent.len() as int) {
                                Some(t) => Err(CompositionDifferentiationFailure::DependentUnreachable(t)),
                                None => {
                                    let failure = if req.mode is Jvp {
                                        stage_failure_up(c, req, derived, c.stages.len() as int)
                                    } else {
                                        stage_failure_down(c, req, derived, c.stages.len() as int)
                                    };
                                    match failure {
                                        Some((s, f)) => Err(CompositionDifferentiationFailure::Stage { stage: s, error: f }),
                                        None => {
                                            let included = included_flags(c, derived, c.stages.len() as int);
                                            let out = assembled(Assembly { c, req, derived, included });
                                            match composition_violation(out.composition) {
                                                Some(f) => Err(CompositionDifferentiationFailure::InvalidDerivative(f)),
                                                None => Ok(out),
                                            }
                                        },
                                    }
                                },
                            },
                        }
                    },
                },
            }
        },
    }
}


// ---------------------------------------------------------------------------------------------
// Checking the request
// ---------------------------------------------------------------------------------------------
/// A valid composition and the plans its validation produced.
pub open spec fn valid_plans(c: CompositionModel, plans: Seq<SharedBufferPlan>) -> bool {
    &&& composition_violation(c) is None
    &&& plans_match(c, plans)
    &&& plans.len() <= usize::MAX
}

proof fn lemma_independents_stable(c: CompositionModel, ts: Seq<StageOperand>, i: int, n: int)
    requires
        0 <= i <= n,
        independents_refusal(c, ts, i) is Some,
    ensures
        independents_refusal(c, ts, n) == independents_refusal(c, ts, i),
    decreases n - i,
{
    if i < n {
        lemma_independents_stable(c, ts, i, n - 1);
    }
}

proof fn lemma_dependents_stable(c: CompositionModel, ts: Seq<StageOperand>, i: int, n: int)
    requires
        0 <= i <= n,
        dependents_refusal(c, ts, i) is Some,
    ensures
        dependents_refusal(c, ts, n) == dependents_refusal(c, ts, i),
    decreases n - i,
{
    if i < n {
        lemma_dependents_stable(c, ts, i, n - 1);
    }
}

#[verifier::loop_isolation(false)]
fn check_independents(
    Ghost(c): Ghost<CompositionModel>,
    stages: &[ValidatedKernel],
    plans: &Vec<SharedBufferPlan>,
    ts: &Vec<StageOperand>,
) -> (r: Result<(), CompositionDifferentiationError>)
    requires
        valid_plans(c, plans@),
        validated_models(stages@) == c.stages,
    ensures
        match r {
            Ok(_) => independents_refusal(c, ts@, ts@.len() as int) is None,
            Err(e) => independents_refusal(c, ts@, ts@.len() as int) == Some(e@),
        },
{
    let mut i: usize = 0;
    while i < ts.len()
        invariant
            i <= ts@.len(),
            independents_refusal(c, ts@, i as int) is None,
        decreases ts@.len() - i,
    {
        let t = ts[i];
        let failure = if contains_member(ts, i, t) {
            Some(CompositionDifferentiationError::DuplicateIndependent(t))
        } else if t.stage >= stages.len() || t.operand.0 >= stages[t.stage].as_kernel().operands.len() {
            proof {
                if t.stage < stages@.len() {
                    assert(c.stages[t.stage as int] == stages@[t.stage as int].inner()@);
                }
            }
            Some(CompositionDifferentiationError::InvalidIndependent(t))
        } else {
            proof {
                assert(c.stages[t.stage as int] == stages@[t.stage as int].inner()@);
            }
            if !stages[t.stage].as_kernel().operands[t.operand.0].access.can_read() {
                Some(CompositionDifferentiationError::IndependentNotReadable(t))
            } else {
                let shared = find_membership(plans, t);
                proof {
                    lemma_membership(c, plans@, t, plans@.len() as int);
                }
                if shared.is_some() {
                    Some(CompositionDifferentiationError::SharedIndependent(t))
                } else {
                    None
                }
            }
        };
        assert(independents_refusal(c, ts@, (i + 1) as int) == match failure {
            Some(e) => Some(e@),
            None => None::<CompositionDifferentiationFailure>,
        });
        if let Some(e) = failure {
            proof {
                lemma_independents_stable(c, ts@, (i + 1) as int, ts@.len() as int);
            }
            return Err(e);
        }
        i = i + 1;
    }
    Ok(())
}

#[verifier::loop_isolation(false)]
fn check_dependents(
    Ghost(c): Ghost<CompositionModel>,
    stages: &[ValidatedKernel],
    plans: &Vec<SharedBufferPlan>,
    ts: &Vec<StageOperand>,
) -> (r: Result<(), CompositionDifferentiationError>)
    requires
        valid_plans(c, plans@),
        validated_models(stages@) == c.stages,
    ensures
        match r {
            Ok(_) => dependents_refusal(c, ts@, ts@.len() as int) is None,
            Err(e) => dependents_refusal(c, ts@, ts@.len() as int) == Some(e@),
        },
{
    let mut i: usize = 0;
    while i < ts.len()
        invariant
            i <= ts@.len(),
            dependents_refusal(c, ts@, i as int) is None,
        decreases ts@.len() - i,
    {
        let t = ts[i];
        let failure = if contains_member(ts, i, t) {
            Some(CompositionDifferentiationError::DuplicateDependent(t))
        } else if t.stage >= stages.len() || t.operand.0 >= stages[t.stage].as_kernel().operands.len() {
            proof {
                if t.stage < stages@.len() {
                    assert(c.stages[t.stage as int] == stages@[t.stage as int].inner()@);
                }
            }
            Some(CompositionDifferentiationError::InvalidDependent(t))
        } else {
            proof {
                assert(c.stages[t.stage as int] == stages@[t.stage as int].inner()@);
            }
            if !stages[t.stage].as_kernel().operands[t.operand.0].access.can_write() {
                Some(CompositionDifferentiationError::DependentNotWritten(t))
            } else {
                let shared = find_membership(plans, t);
                proof {
                    lemma_membership(c, plans@, t, plans@.len() as int);
                }
                if shared.is_some() {
                    Some(CompositionDifferentiationError::SharedDependent(t))
                } else {
                    None
                }
            }
        };
        assert(dependents_refusal(c, ts@, (i + 1) as int) == match failure {
            Some(e) => Some(e@),
            None => None::<CompositionDifferentiationFailure>,
        });
        if let Some(e) = failure {
            proof {
                lemma_dependents_stable(c, ts@, (i + 1) as int, ts@.len() as int);
            }
            return Err(e);
        }
        i = i + 1;
    }
    Ok(())
}

/// The operands, in request order, of the targets that lie in stage `s`.
fn requested_in_stage(ts: &Vec<StageOperand>, s: usize) -> (r: Vec<OperandId>)
    ensures
        r@ == requested_ops(ts@, s as int, ts@.len() as int),
{
    let mut out: Vec<OperandId> = Vec::new();
    let mut i: usize = 0;
    while i < ts.len()
        invariant
            i <= ts@.len(),
            out@ == requested_ops(ts@, s as int, i as int),
        decreases ts@.len() - i,
    {
        if ts[i].stage == s {
            out.push(ts[i].operand);
        }
        i = i + 1;
    }
    out
}

// ---------------------------------------------------------------------------------------------
// Computing reachability
// ---------------------------------------------------------------------------------------------
fn fed(Ghost(c): Ghost<CompositionModel>, plans: &Vec<SharedBufferPlan>, flags: &Vec<bool>, b: usize) -> (r: bool)
    requires
        valid_plans(c, plans@),
        b < plans@.len(),
        flags@.len() == c.stages.len(),
    ensures
        r == buffer_fed(c, flags@, b as int),
{
    proof {
        assert(plan_matches(c, b as int, plans@[b as int]));
        lemma_valid_group(c, b as int);
    }
    let writers = &plans[b].writers;
    let mut w: usize = 0;
    while w < writers.len()
        invariant
            w <= writers@.len(),
            writers@ == writers_of(c, b as int),
            flags@.len() == c.stages.len(),
            forall|a: int| 0 <= a < writers@.len() ==> member_exists(c.stages, #[trigger] writers@[a]),
            forall|a: int| 0 <= a < w ==> !flags@[(#[trigger] writers@[a]).stage as int],
        decreases writers@.len() - w,
    {
        assert(member_exists(c.stages, writers@[w as int]));
        if flags[writers[w].stage] {
            return true;
        }
        w = w + 1;
    }
    false
}

fn used(Ghost(c): Ghost<CompositionModel>, plans: &Vec<SharedBufferPlan>, flags: &Vec<bool>, b: usize) -> (r: bool)
    requires
        valid_plans(c, plans@),
        b < plans@.len(),
        flags@.len() == c.stages.len(),
    ensures
        r == buffer_used(c, flags@, b as int),
{
    proof {
        assert(plan_matches(c, b as int, plans@[b as int]));
        lemma_valid_group(c, b as int);
    }
    let readers = &plans[b].readers;
    let mut k: usize = 0;
    while k < readers.len()
        invariant
            k <= readers@.len(),
            readers@ == readers_of(c, b as int),
            flags@.len() == c.stages.len(),
            forall|a: int| 0 <= a < readers@.len() ==> member_exists(c.stages, #[trigger] readers@[a]),
            forall|a: int| 0 <= a < k ==> !flags@[(#[trigger] readers@[a]).stage as int],
        decreases readers@.len() - k,
    {
        assert(member_exists(c.stages, readers@[k as int]));
        if flags[readers[k].stage] {
            return true;
        }
        k = k + 1;
    }
    false
}

#[verifier::loop_isolation(false)]
fn reads_from_flagged(Ghost(c): Ghost<CompositionModel>, plans: &Vec<SharedBufferPlan>, flags: &Vec<bool>, s: usize) -> (r:
    bool)
    requires
        valid_plans(c, plans@),
        flags@.len() == c.stages.len(),
    ensures
        r == reads_flagged(c, flags@, s as int),
{
    let mut b: usize = 0;
    while b < plans.len()
        invariant
            b <= plans@.len(),
            valid_plans(c, plans@),
            flags@.len() == c.stages.len(),
            forall|g: int, r: int|
                0 <= g < b && 0 <= r < readers_of(c, g).len() ==> !((#[trigger] readers_of(c, g)[r]).stage == s
                    && buffer_fed(c, flags@, g)),
        decreases plans@.len() - b,
    {
        proof {
            assert(plan_matches(c, b as int, plans@[b as int]));
        }
        let is_fed = fed(Ghost(c), plans, flags, b);
        let readers = &plans[b].readers;
        let mut k: usize = 0;
        while k < readers.len()
            invariant
                k <= readers@.len(),
                readers@ == readers_of(c, b as int),
                is_fed == buffer_fed(c, flags@, b as int),
                forall|r: int| 0 <= r < k ==> !((#[trigger] readers@[r]).stage == s && is_fed),
            decreases readers@.len() - k,
        {
            if readers[k].stage == s && is_fed {
                return true;
            }
            k = k + 1;
        }
        b = b + 1;
    }
    false
}

#[verifier::loop_isolation(false)]
fn writes_to_flagged(Ghost(c): Ghost<CompositionModel>, plans: &Vec<SharedBufferPlan>, flags: &Vec<bool>, s: usize) -> (r:
    bool)
    requires
        valid_plans(c, plans@),
        flags@.len() == c.stages.len(),
    ensures
        r == writes_flagged(c, flags@, s as int),
{
    let mut b: usize = 0;
    while b < plans.len()
        invariant
            b <= plans@.len(),
            valid_plans(c, plans@),
            flags@.len() == c.stages.len(),
            forall|g: int, w: int|
                0 <= g < b && 0 <= w < writers_of(c, g).len() ==> !((#[trigger] writers_of(c, g)[w]).stage == s
                    && buffer_used(c, flags@, g)),
        decreases plans@.len() - b,
    {
        proof {
            assert(plan_matches(c, b as int, plans@[b as int]));
        }
        let is_used = used(Ghost(c), plans, flags, b);
        let writers = &plans[b].writers;
        let mut k: usize = 0;
        while k < writers.len()
            invariant
                k <= writers@.len(),
                writers@ == writers_of(c, b as int),
                is_used == buffer_used(c, flags@, b as int),
                forall|w: int| 0 <= w < k ==> !((#[trigger] writers@[w]).stage == s && is_used),
            decreases writers@.len() - k,
        {
            if writers[k].stage == s && is_used {
                return true;
            }
            k = k + 1;
        }
        b = b + 1;
    }
    false
}

#[verifier::loop_isolation(false)]
fn feeds(
    Ghost(c): Ghost<CompositionModel>,
    plans: &Vec<SharedBufferPlan>,
    derived: &Vec<bool>,
    flags: &Vec<bool>,
    s: usize,
) -> (r: bool)
    requires
        valid_plans(c, plans@),
        flags@.len() == c.stages.len(),
        derived@.len() == c.stages.len(),
    ensures
        r == feeds_derivative(c, derived@, flags@, s as int),
{
    let mut b: usize = 0;
    while b < plans.len()
        invariant
            b <= plans@.len(),
            valid_plans(c, plans@),
            flags@.len() == c.stages.len(),
            derived@.len() == c.stages.len(),
            forall|g: int, w: int|
                0 <= g < b && 0 <= w < writers_of(c, g).len() ==> !((#[trigger] writers_of(c, g)[w]).stage == s && (
                buffer_used(c, derived@, g) || buffer_used(c, flags@, g))),
        decreases plans@.len() - b,
    {
        proof {
            assert(plan_matches(c, b as int, plans@[b as int]));
        }
        let read_by = used(Ghost(c), plans, derived, b) || used(Ghost(c), plans, flags, b);
        let writers = &plans[b].writers;
        let mut k: usize = 0;
        while k < writers.len()
            invariant
                k <= writers@.len(),
                writers@ == writers_of(c, b as int),
                read_by == (buffer_used(c, derived@, b as int) || buffer_used(c, flags@, b as int)),
                forall|w: int| 0 <= w < k ==> !((#[trigger] writers@[w]).stage == s && read_by),
            decreases writers@.len() - k,
        {
            if writers[k].stage == s && read_by {
                return true;
            }
            k = k + 1;
        }
        b = b + 1;
    }
    false
}

fn active_stages(
    Ghost(c): Ghost<CompositionModel>,
    Ghost(req): Ghost<CompositionRequestModel>,
    plans: &Vec<SharedBufferPlan>,
    independent: &Vec<StageOperand>,
    count: usize,
) -> (r: Vec<bool>)
    requires
        valid_plans(c, plans@),
        count == c.stages.len(),
        independent@ == req.independent,
    ensures
        r@ == active_flags(c, req, count as int),
        r@.len() == count,
{
    let mut flags: Vec<bool> = Vec::new();
    let mut i: usize = 0;
    while i < count
        invariant
            i <= count,
            flags@ == Seq::new(i as nat, |a: int| false),
        decreases count - i,
    {
        flags.push(false);
        i = i + 1;
        assert(flags@ =~= Seq::new(i as nat, |a: int| false));
    }
    assert(flags@ =~= active_flags(c, req, 0));
    let mut s: usize = 0;
    while s < count
        invariant
            s <= count,
            count == c.stages.len(),
            valid_plans(c, plans@),
            independent@ == req.independent,
            flags@ == active_flags(c, req, s as int),
            flags@.len() == count,
        decreases count - s,
    {
        let value = requested_in_stage(independent, s).len() > 0 || reads_from_flagged(Ghost(c), plans, &flags, s);
        flags.set(s, value);
        s = s + 1;
    }
    flags
}

fn needed_stages(
    Ghost(c): Ghost<CompositionModel>,
    Ghost(req): Ghost<CompositionRequestModel>,
    plans: &Vec<SharedBufferPlan>,
    dependent: &Vec<StageOperand>,
    count: usize,
) -> (r: Vec<bool>)
    requires
        valid_plans(c, plans@),
        count == c.stages.len(),
        dependent@ == req.dependent,
    ensures
        r@ == needed_flags(c, req, count as int),
        r@.len() == count,
{
    let mut flags: Vec<bool> = Vec::new();
    let mut i: usize = 0;
    while i < count
        invariant
            i <= count,
            flags@ == Seq::new(i as nat, |a: int| false),
        decreases count - i,
    {
        flags.push(false);
        i = i + 1;
        assert(flags@ =~= Seq::new(i as nat, |a: int| false));
    }
    assert(flags@ =~= needed_flags(c, req, 0));
    let mut m: usize = 0;
    while m < count
        invariant
            m <= count,
            count == c.stages.len(),
            valid_plans(c, plans@),
            dependent@ == req.dependent,
            flags@ == needed_flags(c, req, m as int),
            flags@.len() == count,
        decreases count - m,
    {
        let s = count - 1 - m;
        let value = requested_in_stage(dependent, s).len() > 0 || writes_to_flagged(Ghost(c), plans, &flags, s);
        flags.set(s, value);
        m = m + 1;
    }
    flags
}

fn included_stages(Ghost(c): Ghost<CompositionModel>, plans: &Vec<SharedBufferPlan>, derived: &Vec<bool>, count: usize) -> (r:
    Vec<bool>)
    requires
        valid_plans(c, plans@),
        count == c.stages.len(),
        derived@.len() == count,
    ensures
        r@ == included_flags(c, derived@, count as int),
        r@.len() == count,
{
    let mut flags: Vec<bool> = Vec::new();
    let mut i: usize = 0;
    while i < count
        invariant
            i <= count,
            flags@ == Seq::new(i as nat, |a: int| false),
        decreases count - i,
    {
        flags.push(false);
        i = i + 1;
        assert(flags@ =~= Seq::new(i as nat, |a: int| false));
    }
    assert(flags@ =~= included_flags(c, derived@, 0));
    let mut m: usize = 0;
    while m < count
        invariant
            m <= count,
            count == c.stages.len(),
            valid_plans(c, plans@),
            derived@.len() == count,
            flags@ == included_flags(c, derived@, m as int),
            flags@.len() == count,
        decreases count - m,
    {
        let s = count - 1 - m;
        let value = feeds(Ghost(c), plans, derived, &flags, s);
        flags.set(s, value);
        m = m + 1;
    }
    flags
}

fn find_underived(ts: &Vec<StageOperand>, derived: &Vec<bool>) -> (r: Option<StageOperand>)
    requires
        forall|i: int| 0 <= i < ts@.len() ==> (#[trigger] ts@[i]).stage < derived@.len(),
    ensures
        r == first_underived(ts@, derived@, ts@.len() as int),
{
    let mut i: usize = 0;
    while i < ts.len()
        invariant
            i <= ts@.len(),
            forall|a: int| 0 <= a < ts@.len() ==> (#[trigger] ts@[a]).stage < derived@.len(),
            first_underived(ts@, derived@, i as int) is None,
        decreases ts@.len() - i,
    {
        if !derived[ts[i].stage] {
            proof {
                lemma_underived_stable(ts@, derived@, (i + 1) as int, ts@.len() as int);
            }
            return Some(ts[i]);
        }
        i = i + 1;
    }
    None
}

proof fn lemma_underived_stable(ts: Seq<StageOperand>, derived: Seq<bool>, i: int, n: int)
    requires
        0 <= i <= n,
        first_underived(ts, derived, i) is Some,
    ensures
        first_underived(ts, derived, n) == first_underived(ts, derived, i),
    decreases n - i,
{
    if i < n {
        lemma_underived_stable(ts, derived, i, n - 1);
    }
}


// ---------------------------------------------------------------------------------------------
// Building the stage requests
// ---------------------------------------------------------------------------------------------
fn sort_operand_ids(list: &Vec<OperandId>) -> (r: Vec<OperandId>)
    ensures
        r@ == sorted_ids(list@),
{
    let mut sorted: Vec<OperandId> = Vec::new();
    let mut n: usize = 0;
    while n < list.len()
        invariant
            n <= list@.len(),
            sorted@ == sort_ids(list@, n as int),
        decreases list@.len() - n,
    {
        let x = list[n];
        let mut p: usize = 0;
        while p < sorted.len() && sorted[p].0 <= x.0
            invariant
                p <= sorted@.len(),
                first_greater_id(sorted@, x, 0) == first_greater_id(sorted@, x, p as int),
            decreases sorted@.len() - p,
        {
            p = p + 1;
        }
        sorted.insert(p, x);
        n = n + 1;
    }
    sorted
}

fn contains_id(list: &Vec<OperandId>, x: OperandId) -> (r: bool)
    ensures
        r == list@.contains(x),
{
    let mut i: usize = 0;
    while i < list.len()
        invariant
            i <= list@.len(),
            forall|a: int| 0 <= a < i ==> list@[a] != x,
        decreases list@.len() - i,
    {
        if list[i] == x {
            assert(list@[i as int] == x);
            return true;
        }
        i = i + 1;
    }
    false
}

#[verifier::loop_isolation(false)]
fn stage_independents(
    Ghost(c): Ghost<CompositionModel>,
    plans: &Vec<SharedBufferPlan>,
    derived: &Vec<bool>,
    s: usize,
    requested: Vec<OperandId>,
) -> (r: Vec<OperandId>)
    requires
        valid_plans(c, plans@),
        derived@.len() == c.stages.len(),
    ensures
        r@ == add_all_readers(c, derived@, s as int, requested@, plans@.len() as int),
{
    let ghost start = requested@;
    let mut list = requested;
    let mut b: usize = 0;
    while b < plans.len()
        invariant
            b <= plans@.len(),
            list@ == add_all_readers(c, derived@, s as int, start, b as int),
        decreases plans@.len() - b,
    {
        proof {
            assert(plan_matches(c, b as int, plans@[b as int]));
        }
        let is_fed = fed(Ghost(c), plans, derived, b);
        let readers = &plans[b].readers;
        let ghost before = list@;
        let mut k: usize = 0;
        while k < readers.len()
            invariant
                k <= readers@.len(),
                readers@ == readers_of(c, b as int),
                is_fed == buffer_fed(c, derived@, b as int),
                list@ == add_readers(c, derived@, s as int, before, b as int, k as int),
            decreases readers@.len() - k,
        {
            let r = readers[k];
            if r.stage == s && is_fed && !contains_id(&list, r.operand) {
                list.push(r.operand);
            }
            k = k + 1;
        }
        b = b + 1;
    }
    list
}

#[verifier::loop_isolation(false)]
fn stage_dependents(
    Ghost(c): Ghost<CompositionModel>,
    plans: &Vec<SharedBufferPlan>,
    derived: &Vec<bool>,
    s: usize,
    requested: Vec<OperandId>,
) -> (r: Vec<OperandId>)
    requires
        valid_plans(c, plans@),
        derived@.len() == c.stages.len(),
    ensures
        r@ == add_all_writers(c, derived@, s as int, requested@, plans@.len() as int),
{
    let ghost start = requested@;
    let mut list = requested;
    let mut b: usize = 0;
    while b < plans.len()
        invariant
            b <= plans@.len(),
            list@ == add_all_writers(c, derived@, s as int, start, b as int),
        decreases plans@.len() - b,
    {
        proof {
            assert(plan_matches(c, b as int, plans@[b as int]));
        }
        let is_used = used(Ghost(c), plans, derived, b);
        let writers = &plans[b].writers;
        let ghost before = list@;
        let mut k: usize = 0;
        while k < writers.len()
            invariant
                k <= writers@.len(),
                writers@ == writers_of(c, b as int),
                is_used == buffer_used(c, derived@, b as int),
                list@ == add_writers(c, derived@, s as int, before, b as int, k as int),
            decreases writers@.len() - k,
        {
            let w = writers[k];
            if w.stage == s && is_used && !contains_id(&list, w.operand) {
                list.push(w.operand);
            }
            k = k + 1;
        }
        b = b + 1;
    }
    list
}

/// The request derived stage `s` is differentiated with.
fn build_stage_request(
    Ghost(c): Ghost<CompositionModel>,
    Ghost(req): Ghost<CompositionRequestModel>,
    plans: &Vec<SharedBufferPlan>,
    request: &CompositionDerivativeRequest,
    derived: &Vec<bool>,
    s: usize,
) -> (r: DerivativeRequest)
    requires
        valid_plans(c, plans@),
        derived@.len() == c.stages.len(),
        request@ == req,
    ensures
        r@ == stage_request(c, req, derived@, s as int),
{
    let independent = stage_independents(Ghost(c), plans, derived, s, requested_in_stage(&request.independent_operands, s));
    let dependent = stage_dependents(Ghost(c), plans, derived, s, requested_in_stage(&request.dependent_operands, s));
    proof {
        assert(plans@.len() == c.groups.len());
    }
    DerivativeRequest {
        mode: request.mode,
        independent_operands: sort_operand_ids(&independent),
        dependent_operands: sort_operand_ids(&dependent),
    }
}

/// The derivative products of the derived stages, by stage.
pub open spec fn products_match(
    c: CompositionModel,
    req: CompositionRequestModel,
    derived: Seq<bool>,
    products: Seq<Option<DerivativeProduct>>,
) -> bool {
    &&& products.len() == c.stages.len()
    &&& forall|s: int|
        0 <= s < c.stages.len() ==> if derived[s] {
            &&& (#[trigger] products[s]) is Some
            &&& stage_outcome(c, req, derived, s) == Ok::<ProductModel, DifferentiationFailure>(products[s]->Some_0@)
        } else {
            products[s] is None
        }
}

proof fn lemma_failure_up_stable(c: CompositionModel, req: CompositionRequestModel, derived: Seq<bool>, i: int, n: int)
    requires
        0 <= i <= n,
        stage_failure_up(c, req, derived, i) is Some,
    ensures
        stage_failure_up(c, req, derived, n) == stage_failure_up(c, req, derived, i),
    decreases n - i,
{
    if i < n {
        lemma_failure_up_stable(c, req, derived, i, n - 1);
    }
}

proof fn lemma_failure_down_stable(c: CompositionModel, req: CompositionRequestModel, derived: Seq<bool>, i: int, n: int)
    requires
        0 <= i <= n,
        stage_failure_down(c, req, derived, i) is Some,
    ensures
        stage_failure_down(c, req, derived, n) == stage_failure_down(c, req, derived, i),
    decreases n - i,
{
    if i < n {
        lemma_failure_down_stable(c, req, derived, i, n - 1);
    }
}

/// The stage failure that differentiation in derivative order meets first.
pub open spec fn stage_failure(c: CompositionModel, req: CompositionRequestModel, derived: Seq<bool>) -> Option<
    (usize, DifferentiationFailure),
> {
    if req.mode is Jvp {
        stage_failure_up(c, req, derived, c.stages.len() as int)
    } else {
        stage_failure_down(c, req, derived, c.stages.len() as int)
    }
}

/// Differentiate every derived stage, in derivative order.
#[verifier::loop_isolation(false)]
#[verifier::rlimit(60)]
#[verifier::spinoff_prover]
fn stage_products(
    Ghost(c): Ghost<CompositionModel>,
    Ghost(req): Ghost<CompositionRequestModel>,
    stages: &[ValidatedKernel],
    plans: &Vec<SharedBufferPlan>,
    request: &CompositionDerivativeRequest,
    derived: &Vec<bool>,
) -> (r: Result<Vec<Option<DerivativeProduct>>, CompositionDifferentiationError>)
    requires
        valid_plans(c, plans@),
        validated_models(stages@) == c.stages,
        derived@.len() == c.stages.len(),
        request@ == req,
        req.mode is Jvp || req.mode is Vjp,
    ensures
        match r {
            Ok(products) => stage_failure(c, req, derived@) is None && products_match(c, req, derived@, products@),
            Err(e) => match stage_failure(c, req, derived@) {
                Some((s, f)) => e@ == CompositionDifferentiationFailure::Stage { stage: s, error: f },
                None => false,
            },
        },
{
    let count = stages.len();
    let mut products: Vec<Option<DerivativeProduct>> = Vec::new();
    let mut i: usize = 0;
    while i < count
        invariant
            i <= count,
            products@.len() == i,
            forall|a: int| 0 <= a < i ==> (#[trigger] products@[a]) is None,
        decreases count - i,
    {
        products.push(None);
        i = i + 1;
    }
    let mut m: usize = 0;
    while m < count
        invariant
            m <= count,
            count == c.stages.len(),
            products@.len() == count,
            req.mode is Jvp ==> stage_failure_up(c, req, derived@, m as int) is None,
            req.mode is Vjp ==> stage_failure_down(c, req, derived@, m as int) is None,
            forall|s: int|
                0 <= s < count ==> if (req.mode is Jvp && s < m) || (req.mode is Vjp && s >= count - m) {
                    if derived@[s] {
                        &&& (#[trigger] products@[s]) is Some
                        &&& stage_outcome(c, req, derived@, s) == Ok::<ProductModel, DifferentiationFailure>(
                            products@[s]->Some_0@,
                        )
                    } else {
                        products@[s] is None
                    }
                } else {
                    products@[s] is None
                },
        decreases count - m,
    {
        let s = if let DerivativeMode::Jvp = request.mode {
            m
        } else {
            count - 1 - m
        };
        if derived[s] {
            let stage_request = build_stage_request(Ghost(c), Ghost(req), plans, request, derived, s);
            proof {
                assert(c.stages[s as int] == stages@[s as int].inner()@);
            }
            proof {
                reveal(stage_outcome);
            }
            match crate::differentiate::differentiate(stages[s].as_kernel(), &stage_request) {
                Ok(product) => {
                    products.set(s, Some(product));
                },
                Err(e) => {
                    proof {
                        if req.mode is Jvp {
                            lemma_failure_up_stable(c, req, derived@, (m + 1) as int, count as int);
                        } else {
                            lemma_failure_down_stable(c, req, derived@, (m + 1) as int, count as int);
                        }
                    }
                    return Err(CompositionDifferentiationError::Stage { stage: s, error: e });
                },
            }
        }
        m = m + 1;
    }
    Ok(products)
}


// ---------------------------------------------------------------------------------------------
// Assembling the derivative composition
// ---------------------------------------------------------------------------------------------
proof fn lemma_count_true_bounds(flags: Seq<bool>, k: int, n: int)
    requires
        0 <= k <= n <= flags.len(),
    ensures
        count_true(flags, k) <= count_true(flags, n),
        count_true(flags, n) - count_true(flags, k) <= n - k,
        count_true(flags, n) <= n,
    decreases n - k,
{
    if k < n {
        lemma_count_true_bounds(flags, k, n - 1);
    } else {
        lemma_count_true_upper(flags, n);
    }
}

proof fn lemma_count_true_upper(flags: Seq<bool>, n: int)
    requires
        0 <= n <= flags.len(),
    ensures
        count_true(flags, n) <= n,
    decreases n,
{
    if n > 0 {
        lemma_count_true_upper(flags, n - 1);
    }
}

fn copy_pairs(pairs: &Vec<DerivativeOperand>) -> (r: Vec<DerivativeOperand>)
    ensures
        r@ == pairs@,
{
    let mut out: Vec<DerivativeOperand> = Vec::new();
    let mut i: usize = 0;
    while i < pairs.len()
        invariant
            i <= pairs@.len(),
            out@ == pairs@.take(i as int),
        decreases pairs@.len() - i,
    {
        out.push(pairs[i]);
        i = i + 1;
        assert(out@ =~= pairs@.take(i as int));
    }
    assert(pairs@.take(pairs@.len() as int) =~= pairs@);
    out
}

pub struct StageLayout {
    pub kernels: Vec<StructuredKernel>,
    pub primal_stages: Vec<CompositionPrimalStage>,
    pub derivative_stages: Vec<CompositionDerivativeStage>,
    pub primal_positions: Vec<usize>,
    pub derivative_positions: Vec<usize>,
}

fn zeros(count: usize) -> (r: Vec<usize>)
    ensures
        r@.len() == count,
{
    let mut v: Vec<usize> = Vec::new();
    let mut i: usize = 0;
    while i < count
        invariant
            i <= count,
            v@.len() == i,
        decreases count - i,
    {
        v.push(0);
        i = i + 1;
    }
    v
}

/// The reproduced primal stages, in increasing order, and their positions.
fn primal_part(Ghost(a): Ghost<Assembly>, stages: &[ValidatedKernel], included: &Vec<bool>) -> (r: (
    Vec<StructuredKernel>,
    Vec<CompositionPrimalStage>,
    Vec<usize>,
))
    requires
        a.c.stages == validated_models(stages@),
        a.included == included@,
        included@.len() == a.c.stages.len(),
    ensures
        kernel_models(r.0@) == primal_kernels(a.c, a.included, a.c.stages.len() as int),
        r.1@ == primal_table(a.included, a.c.stages.len() as int),
        r.2@.len() == a.c.stages.len(),
        forall|s: int| 0 <= s < a.c.stages.len() && a.included[s] ==> #[trigger] r.2@[s] == primal_position(a.included, s),
{
    let count = stages.len();
    let mut kernels: Vec<StructuredKernel> = Vec::new();
    let mut table: Vec<CompositionPrimalStage> = Vec::new();
    let mut positions = zeros(count);
    let mut p: usize = 0;
    let mut s: usize = 0;
    while s < count
        invariant
            s <= count,
            count == a.c.stages.len(),
            a.c.stages == validated_models(stages@),
            a.included == included@,
            included@.len() == count,
            p == count_true(included@, s as int),
            p <= s,
            kernel_models(kernels@) == primal_kernels(a.c, a.included, s as int),
            table@ == primal_table(a.included, s as int),
            positions@.len() == count,
            forall|t: int| 0 <= t < s && a.included[t] ==> #[trigger] positions@[t] == primal_position(a.included, t),
        decreases count - s,
    {
        if included[s] {
            proof {
                assert(a.c.stages[s as int] == stages@[s as int].inner()@);
            }
            kernels.push(stages[s].as_kernel().copy());
            table.push(CompositionPrimalStage { primal_stage: s, stage: p });
            positions.set(s, p);
            p = p + 1;
        }
        s = s + 1;
        assert(kernel_models(kernels@) =~= primal_kernels(a.c, a.included, s as int));
    }
    (kernels, table, positions)
}

/// Append the derivative stages, in derivative order, after the reproduced ones.
#[verifier::rlimit(40)]
fn derivative_part(
    Ghost(a): Ghost<Assembly>,
    mode: DerivativeMode,
    products: &Vec<Option<DerivativeProduct>>,
    derived: &Vec<bool>,
    total: usize,
    kernels: &mut Vec<StructuredKernel>,
) -> (r: (Vec<CompositionDerivativeStage>, Vec<usize>))
    requires
        mode == a.req.mode,
        a.req.mode is Jvp || a.req.mode is Vjp,
        a.derived == derived@,
        derived@.len() == a.c.stages.len(),
        a.included.len() == a.c.stages.len(),
        total == count_true(a.included, a.c.stages.len() as int),
        total <= a.c.stages.len() <= isize::MAX,
        products_match(a.c, a.req, a.derived, products@),
    ensures
        kernel_models(final(kernels)@) == kernel_models(old(kernels)@) + derivative_kernels(
            a.c,
            a.req,
            a.derived,
            derivative_order(a.req.mode, a.c.stages.len()),
            a.c.stages.len() as int,
        ),
        r.0@.map_values(|d: CompositionDerivativeStage| d@) == derivative_table(
            a.c,
            a.req,
            a.derived,
            a.included,
            derivative_order(a.req.mode, a.c.stages.len()),
            a.c.stages.len() as int,
        ),
        r.1@.len() == a.c.stages.len(),
        forall|s: int| 0 <= s < a.c.stages.len() && a.derived[s] ==> #[trigger] r.1@[s] == dpos(a, s),
{
    let count = derived.len();
    let ghost order = derivative_order(a.req.mode, count as nat);
    let ghost start = kernel_models(kernels@);
    let mut positions = zeros(count);
    let mut table: Vec<CompositionDerivativeStage> = Vec::new();
    proof {
        lemma_count_true_upper(derived@, count as int);
    }
    let mut q: usize = 0;
    let mut i: usize = 0;
    while i < count
        invariant
            i <= count,
            count == a.c.stages.len(),
            mode == a.req.mode,
            a.req.mode is Jvp || a.req.mode is Vjp,
            a.derived == derived@,
            derived@.len() == count,
            a.included.len() == count,
            total == count_true(a.included, count as int),
            total <= count <= isize::MAX,
            products_match(a.c, a.req, a.derived, products@),
            order == derivative_order(a.req.mode, count as nat),
            a.req.mode is Jvp ==> q == count_true(derived@, i as int),
            a.req.mode is Vjp ==> q == count_true(derived@, count as int) - count_true(derived@, count - i),
            q <= i,
            kernel_models(kernels@) == start + derivative_kernels(a.c, a.req, a.derived, order, i as int),
            table@.map_values(|d: CompositionDerivativeStage| d@) == derivative_table(
                a.c,
                a.req,
                a.derived,
                a.included,
                order,
                i as int,
            ),
            positions@.len() == count,
            forall|j: int| 0 <= j < i && a.derived[order[j]] ==> #[trigger] positions@[order[j]] == dpos(a, order[j]),
        decreases count - i,
    {
        let s = if let DerivativeMode::Jvp = mode {
            i
        } else {
            count - 1 - i
        };
        assert(s == order[i as int]);
        proof {
            lemma_count_true_bounds(derived@, (count - i - 1) as int, count as int);
            lemma_count_true_bounds(derived@, i as int, count as int);
        }
        if derived[s] {
            if let Some(product) = &products[s] {
                let position = total + q;
                assert(position == dpos(a, s as int));
                let ghost before = kernels@;
                kernels.push(product.kernel.copy());
                proof {
                    assert(kernel_models(kernels@) =~= kernel_models(before).push(product.kernel@));
                    assert(stage_product(a.c, a.req, a.derived, s as int).kernel == product.kernel@);
                    assert(derivative_kernels(a.c, a.req, a.derived, order, (i + 1) as int)
                        == derivative_kernels(a.c, a.req, a.derived, order, i as int).push(product.kernel@));
                }
                table.push(
                    CompositionDerivativeStage { primal_stage: s, stage: position, primal_operands: copy_pairs(&product.primal_operands) },
                );
                positions.set(s, position);
                q = q + 1;
            }
        }
        i = i + 1;
        assert(kernel_models(kernels@) =~= start + derivative_kernels(a.c, a.req, a.derived, order, i as int));
        assert(table@.map_values(|d: CompositionDerivativeStage| d@) =~= derivative_table(
            a.c,
            a.req,
            a.derived,
            a.included,
            order,
            i as int,
        ));
    }
    proof {
        assert forall|t: int| 0 <= t < count && a.derived[t] implies #[trigger] positions@[t] == dpos(a, t) by {
            let j = if a.req.mode is Jvp { t } else { count - 1 - t };
            assert(order[j] == t);
        }
    }
    (table, positions)
}


proof fn lemma_find_pair_some(pairs: Seq<DerivativeOperand>, x: OperandId, j: int, n: int)
    requires
        0 <= j < n <= pairs.len(),
        pairs[j].primal == x,
    ensures
        find_pair(pairs, x, n) is Some,
    decreases n,
{
    if j < n - 1 {
        lemma_find_pair_some(pairs, x, j, n - 1);
    }
}

fn find_pair_exec(pairs: &Vec<DerivativeOperand>, x: OperandId) -> (r: Option<OperandId>)
    ensures
        r == pair_of(pairs@, x),
{
    let mut j: usize = 0;
    while j < pairs.len()
        invariant
            j <= pairs@.len(),
            find_pair(pairs@, x, j as int) is None,
        decreases pairs@.len() - j,
    {
        if pairs[j].primal == x {
            proof {
                lemma_find_pair_stable(pairs@, x, (j + 1) as int, pairs@.len() as int);
            }
            return Some(pairs[j].derivative);
        }
        j = j + 1;
    }
    None
}

proof fn lemma_find_pair_stable(pairs: Seq<DerivativeOperand>, x: OperandId, i: int, n: int)
    requires
        0 <= i <= n,
        find_pair(pairs, x, i) is Some,
    ensures
        find_pair(pairs, x, n) == find_pair(pairs, x, i),
    decreases n - i,
{
    if i < n {
        lemma_find_pair_stable(pairs, x, i, n - 1);
    }
}

fn sort_stage_members(list: &Vec<StageOperand>) -> (r: Vec<StageOperand>)
    ensures
        r@ == sort_members(list@, list@.len() as int),
{
    let mut sorted: Vec<StageOperand> = Vec::new();
    let mut n: usize = 0;
    while n < list.len()
        invariant
            n <= list@.len(),
            sorted@ == sort_members(list@, n as int),
        decreases list@.len() - n,
    {
        let x = list[n];
        let mut p: usize = 0;
        while p < sorted.len() && !(x.stage < sorted[p].stage || (x.stage == sorted[p].stage && x.operand.0 < sorted[p].operand.0))
            invariant
                p <= sorted@.len(),
                first_greater_member(sorted@, x, 0) == first_greater_member(sorted@, x, p as int),
            decreases sorted@.len() - p,
        {
            p = p + 1;
        }
        sorted.insert(p, x);
        n = n + 1;
    }
    sorted
}

/// A reader of a shared buffer in a derived stage has a primal-value operand in that stage's
/// derivative kernel.
proof fn lemma_reader_primal(a: Assembly, b: int, r: int)
    requires
        composition_violation(a.c) is None,
        0 <= b < a.c.groups.len(),
        0 <= r < readers_of(a.c, b).len(),
        a.derived[readers_of(a.c, b)[r].stage as int],
        stage_outcome(a.c, a.req, a.derived, readers_of(a.c, b)[r].stage as int) is Ok,
    ensures
        pair_of(product_of(a, readers_of(a.c, b)[r].stage as int).primal_operands, readers_of(a.c, b)[r].operand) is Some,
{
    let reader = readers_of(a.c, b)[r];
    let s = reader.stage as int;
    lemma_valid_group(a.c, b);
    assert(member_exists(a.c.stages, reader));
    reveal(stage_outcome);
    crate::differentiate::lemma_product_pairs(a.c.stages[s], stage_request(a.c, a.req, a.derived, s));
    let p = product_of(a, s);
    let i = reader.operand.0 as int;
    assert(a.c.stages[s].operands[i].access.readable());
    let j = choose|j: int| 0 <= j < p.primal_operands.len() && (#[trigger] p.primal_operands[j]).primal == OperandId(i as usize);
    lemma_find_pair_some(p.primal_operands, reader.operand, j, p.primal_operands.len() as int);
}

/// The context an assembly step runs in.
pub open spec fn assembly_ready(
    a: Assembly,
    plans: Seq<SharedBufferPlan>,
    products: Seq<Option<DerivativeProduct>>,
    ppos: Seq<usize>,
    dposs: Seq<usize>,
) -> bool {
    &&& valid_plans(a.c, plans)
    &&& a.derived.len() == a.c.stages.len()
    &&& a.included.len() == a.c.stages.len()
    &&& products_match(a.c, a.req, a.derived, products)
    &&& ppos.len() == a.c.stages.len()
    &&& dposs.len() == a.c.stages.len()
    &&& forall|s: int| 0 <= s < a.c.stages.len() && a.included[s] ==> #[trigger] ppos[s] == primal_position(a.included, s)
    &&& forall|s: int| 0 <= s < a.c.stages.len() && a.derived[s] ==> #[trigger] dposs[s] == dpos(a, s)
}

/// The primal-value group of buffer `b`.
#[verifier::loop_isolation(false)]
fn assemble_primal_group(
    Ghost(a): Ghost<Assembly>,
    plans: &Vec<SharedBufferPlan>,
    products: &Vec<Option<DerivativeProduct>>,
    included: &Vec<bool>,
    derived: &Vec<bool>,
    ppos: &Vec<usize>,
    dposs: &Vec<usize>,
    b: usize,
) -> (r: Vec<StageOperand>)
    requires
        assembly_ready(a, plans@, products@, ppos@, dposs@),
        a.included == included@,
        a.derived == derived@,
        b < plans@.len(),
    ensures
        r@ == primal_group(a, b as int),
{
    proof {
        assert(plan_matches(a.c, b as int, plans@[b as int]));
        lemma_valid_group(a.c, b as int);
    }
    let members = &plans[b].members;
    let mut group: Vec<StageOperand> = Vec::new();
    let mut k: usize = 0;
    while k < members.len()
        invariant
            k <= members@.len(),
            members@ == a.c.groups[b as int],
            group@ == reproduced_members(a, b as int, k as int),
        decreases members@.len() - k,
    {
        let m = members[k];
        assert(member_exists(a.c.stages, a.c.groups[b as int][k as int]));
        if included[m.stage] {
            group.push(StageOperand { stage: ppos[m.stage], operand: m.operand });
        }
        k = k + 1;
    }
    let ghost first = group@;
    let readers = &plans[b].readers;
    let mut k: usize = 0;
    while k < readers.len()
        invariant
            k <= readers@.len(),
            readers@ == readers_of(a.c, b as int),
            group@ == first + primal_readers(a, b as int, k as int),
        decreases readers@.len() - k,
    {
        let r = readers[k];
        assert(member_exists(a.c.stages, readers@[k as int]));
        if derived[r.stage] {
            if let Some(product) = &products[r.stage] {
                proof {
                    lemma_reader_primal(a, b as int, k as int);
                }
                if let Some(d) = find_pair_exec(&product.primal_operands, r.operand) {
                    group.push(StageOperand { stage: dposs[r.stage], operand: d });
                }
            }
        }
        k = k + 1;
        assert(group@ =~= first + primal_readers(a, b as int, k as int));
    }
    group
}

fn derivative_writer_side(
    Ghost(a): Ghost<Assembly>,
    plans: &Vec<SharedBufferPlan>,
    products: &Vec<Option<DerivativeProduct>>,
    derived: &Vec<bool>,
    dposs: &Vec<usize>,
    b: usize,
) -> (r: Vec<StageOperand>)
    requires
        valid_plans(a.c, plans@),
        a.derived.len() == a.c.stages.len(),
        products_match(a.c, a.req, a.derived, products@),
        dposs@.len() == a.c.stages.len(),
        forall|s: int| 0 <= s < a.c.stages.len() && a.derived[s] ==> #[trigger] dposs@[s] == dpos(a, s),
        a.derived == derived@,
        b < plans@.len(),
    ensures
        r@ == derivative_writers(a, b as int, writers_of(a.c, b as int).len() as int),
{
    proof {
        assert(plan_matches(a.c, b as int, plans@[b as int]));
        lemma_valid_group(a.c, b as int);
    }
    let writers = &plans[b].writers;
    let mut side: Vec<StageOperand> = Vec::new();
    let mut k: usize = 0;
    while k < writers.len()
        invariant
            k <= writers@.len(),
            writers@ == writers_of(a.c, b as int),
            a.derived.len() == a.c.stages.len(),
            products_match(a.c, a.req, a.derived, products@),
            dposs@.len() == a.c.stages.len(),
            forall|s: int| 0 <= s < a.c.stages.len() && a.derived[s] ==> #[trigger] dposs@[s] == dpos(a, s),
            a.derived == derived@,
            forall|w: int| 0 <= w < writers@.len() ==> member_exists(a.c.stages, #[trigger] writers@[w]),
            side@ == derivative_writers(a, b as int, k as int),
        decreases writers@.len() - k,
    {
        let w = writers[k];
        assert(member_exists(a.c.stages, writers@[k as int]));
        if derived[w.stage] {
            if let Some(product) = &products[w.stage] {
                if let Some(d) = find_pair_exec(&product.dependent_operands, w.operand) {
                    side.push(StageOperand { stage: dposs[w.stage], operand: d });
                }
            }
        }
        k = k + 1;
    }
    side
}

fn derivative_reader_side(
    Ghost(a): Ghost<Assembly>,
    plans: &Vec<SharedBufferPlan>,
    products: &Vec<Option<DerivativeProduct>>,
    derived: &Vec<bool>,
    dposs: &Vec<usize>,
    b: usize,
) -> (r: Vec<StageOperand>)
    requires
        valid_plans(a.c, plans@),
        a.derived.len() == a.c.stages.len(),
        products_match(a.c, a.req, a.derived, products@),
        dposs@.len() == a.c.stages.len(),
        forall|s: int| 0 <= s < a.c.stages.len() && a.derived[s] ==> #[trigger] dposs@[s] == dpos(a, s),
        a.derived == derived@,
        b < plans@.len(),
    ensures
        r@ == derivative_readers(a, b as int, readers_of(a.c, b as int).len() as int),
{
    proof {
        assert(plan_matches(a.c, b as int, plans@[b as int]));
        lemma_valid_group(a.c, b as int);
    }
    let readers = &plans[b].readers;
    let mut side: Vec<StageOperand> = Vec::new();
    let mut k: usize = 0;
    while k < readers.len()
        invariant
            k <= readers@.len(),
            readers@ == readers_of(a.c, b as int),
            a.derived.len() == a.c.stages.len(),
            products_match(a.c, a.req, a.derived, products@),
            dposs@.len() == a.c.stages.len(),
            forall|s: int| 0 <= s < a.c.stages.len() && a.derived[s] ==> #[trigger] dposs@[s] == dpos(a, s),
            a.derived == derived@,
            forall|r: int| 0 <= r < readers@.len() ==> member_exists(a.c.stages, #[trigger] readers@[r]),
            side@ == derivative_readers(a, b as int, k as int),
        decreases readers@.len() - k,
    {
        let r = readers[k];
        assert(member_exists(a.c.stages, readers@[k as int]));
        if derived[r.stage] {
            if let Some(product) = &products[r.stage] {
                if let Some(d) = find_pair_exec(&product.independent_operands, r.operand) {
                    side.push(StageOperand { stage: dposs[r.stage], operand: d });
                }
            }
        }
        k = k + 1;
    }
    side
}

/// The derivative group of buffer `b`, when both its sides have derivative operands.
fn assemble_derivative_group(
    Ghost(a): Ghost<Assembly>,
    plans: &Vec<SharedBufferPlan>,
    products: &Vec<Option<DerivativeProduct>>,
    derived: &Vec<bool>,
    dposs: &Vec<usize>,
    b: usize,
) -> (r: Option<Vec<StageOperand>>)
    requires
        valid_plans(a.c, plans@),
        a.derived.len() == a.c.stages.len(),
        products_match(a.c, a.req, a.derived, products@),
        dposs@.len() == a.c.stages.len(),
        forall|s: int| 0 <= s < a.c.stages.len() && a.derived[s] ==> #[trigger] dposs@[s] == dpos(a, s),
        a.derived == derived@,
        b < plans@.len(),
    ensures
        match r {
            Some(v) => derivative_group(a, b as int) == Some(v@),
            None => derivative_group(a, b as int) is None,
        },
{
    let writer_side = derivative_writer_side(Ghost(a), plans, products, derived, dposs, b);
    let reader_side = derivative_reader_side(Ghost(a), plans, products, derived, dposs, b);
    if writer_side.len() > 0 && reader_side.len() > 0 {
        let mut all = writer_side;
        let ghost w = all@;
        let mut k: usize = 0;
        while k < reader_side.len()
            invariant
                k <= reader_side@.len(),
                all@ == w + reader_side@.take(k as int),
            decreases reader_side@.len() - k,
        {
            all.push(reader_side[k]);
            k = k + 1;
            assert(all@ =~= w + reader_side@.take(k as int));
        }
        assert(reader_side@.take(reader_side@.len() as int) =~= reader_side@);
        Some(sort_stage_members(&all))
    } else {
        None
    }
}

/// The sharing table of the derivative composition.
fn assemble_groups(
    Ghost(a): Ghost<Assembly>,
    plans: &Vec<SharedBufferPlan>,
    products: &Vec<Option<DerivativeProduct>>,
    included: &Vec<bool>,
    derived: &Vec<bool>,
    ppos: &Vec<usize>,
    dposs: &Vec<usize>,
) -> (r: Vec<SharedBuffer>)
    requires
        assembly_ready(a, plans@, products@, ppos@, dposs@),
        a.included == included@,
        a.derived == derived@,
    ensures
        group_models(r@) == derivative_groups(a, a.c.groups.len() as int),
{
    let mut groups: Vec<SharedBuffer> = Vec::new();
    let mut b: usize = 0;
    while b < plans.len()
        invariant
            b <= plans@.len(),
            plans@.len() == a.c.groups.len(),
            assembly_ready(a, plans@, products@, ppos@, dposs@),
            a.included == included@,
            a.derived == derived@,
            group_models(groups@) == derivative_groups(a, b as int),
        decreases plans@.len() - b,
    {
        let primal = assemble_primal_group(Ghost(a), plans, products, included, derived, ppos, dposs, b);
        if primal.len() > 0 {
            groups.push(SharedBuffer { members: primal });
        }
        match assemble_derivative_group(Ghost(a), plans, products, derived, dposs, b) {
            Some(d) => {
                groups.push(SharedBuffer { members: d });
            },
            None => {},
        }
        b = b + 1;
        assert(group_models(groups@) =~= derivative_groups(a, b as int));
    }
    groups
}


// ---------------------------------------------------------------------------------------------
// Exposed operands
// ---------------------------------------------------------------------------------------------
proof fn lemma_requested_contains(ts: Seq<StageOperand>, s: int, n: int, i: int)
    requires
        0 <= i < n <= ts.len(),
        ts[i].stage == s,
    ensures
        requested_ops(ts, s, n).contains(ts[i].operand),
    decreases n,
{
    if i < n - 1 {
        lemma_requested_contains(ts, s, n - 1, i);
        if ts[n - 1].stage == s {
            let l = requested_ops(ts, s, n - 1);
            let j = choose|j: int| 0 <= j < l.len() && l[j] == ts[i].operand;
            assert(l.push(ts[n - 1].operand)[j] == ts[i].operand);
        }
    } else {
        let l = requested_ops(ts, s, n - 1);
        assert(l.push(ts[i].operand)[l.len() as int] == ts[i].operand);
    }
}

proof fn lemma_push_keeps<A>(l: Seq<A>, x: A, y: A)
    requires
        l.contains(x),
    ensures
        l.push(y).contains(x),
{
    let j = choose|j: int| 0 <= j < l.len() && l[j] == x;
    assert(l.push(y)[j] == x);
}

proof fn lemma_add_readers_keeps(c: CompositionModel, flags: Seq<bool>, s: int, list: Seq<OperandId>, b: int, k: int, x: OperandId)
    requires
        list.contains(x),
    ensures
        add_readers(c, flags, s, list, b, k).contains(x),
    decreases k,
{
    if k > 0 {
        lemma_add_readers_keeps(c, flags, s, list, b, k - 1, x);
        let l = add_readers(c, flags, s, list, b, k - 1);
        lemma_push_keeps(l, x, readers_of(c, b)[k - 1].operand);
    }
}

proof fn lemma_add_all_readers_keeps(c: CompositionModel, flags: Seq<bool>, s: int, list: Seq<OperandId>, n: int, x: OperandId)
    requires
        list.contains(x),
    ensures
        add_all_readers(c, flags, s, list, n).contains(x),
    decreases n,
{
    if n > 0 {
        lemma_add_all_readers_keeps(c, flags, s, list, n - 1, x);
        lemma_add_readers_keeps(c, flags, s, add_all_readers(c, flags, s, list, n - 1), n - 1, readers_of(c, n - 1).len() as int, x);
    }
}

proof fn lemma_add_writers_keeps(c: CompositionModel, flags: Seq<bool>, s: int, list: Seq<OperandId>, b: int, k: int, x: OperandId)
    requires
        list.contains(x),
    ensures
        add_writers(c, flags, s, list, b, k).contains(x),
    decreases k,
{
    if k > 0 {
        lemma_add_writers_keeps(c, flags, s, list, b, k - 1, x);
        let l = add_writers(c, flags, s, list, b, k - 1);
        lemma_push_keeps(l, x, writers_of(c, b)[k - 1].operand);
    }
}

proof fn lemma_add_all_writers_keeps(c: CompositionModel, flags: Seq<bool>, s: int, list: Seq<OperandId>, n: int, x: OperandId)
    requires
        list.contains(x),
    ensures
        add_all_writers(c, flags, s, list, n).contains(x),
    decreases n,
{
    if n > 0 {
        lemma_add_all_writers_keeps(c, flags, s, list, n - 1, x);
        lemma_add_writers_keeps(c, flags, s, add_all_writers(c, flags, s, list, n - 1), n - 1, writers_of(c, n - 1).len() as int, x);
    }
}

proof fn lemma_first_greater_range(s: Seq<OperandId>, x: OperandId, i: int)
    requires
        0 <= i <= s.len(),
    ensures
        i <= first_greater_id(s, x, i) <= s.len(),
    decreases s.len() - i,
{
    if i < s.len() {
        lemma_first_greater_range(s, x, i + 1);
    }
}

/// Sorting keeps every element.
proof fn lemma_sort_ids_keeps(list: Seq<OperandId>, n: int, x: OperandId)
    requires
        0 <= n <= list.len(),
        list.take(n).contains(x),
    ensures
        sort_ids(list, n).contains(x),
    decreases n,
{
    let sorted = sort_ids(list, n - 1);
    let p = first_greater_id(sorted, list[n - 1], 0);
    lemma_first_greater_range(sorted, list[n - 1], 0);
    if list[n - 1] == x {
        assert(sorted.insert(p, list[n - 1])[p] == x);
    } else {
        let j = choose|j: int| 0 <= j < n && list.take(n)[j] == x;
        assert(list.take(n - 1)[j] == x);
        lemma_sort_ids_keeps(list, n - 1, x);
        let q = choose|q: int| 0 <= q < sorted.len() && sorted[q] == x;
        if q < p {
            assert(sorted.insert(p, list[n - 1])[q] == x);
        } else {
            assert(sorted.insert(p, list[n - 1])[q + 1] == x);
        }
    }
}

/// A requested independent in a derived stage has a derivative operand in that stage's kernel.
proof fn lemma_exposed_independent(a: Assembly, i: int)
    requires
        0 <= i < a.req.independent.len(),
        member_exists(a.c.stages, a.req.independent[i]),
        stage_outcome(a.c, a.req, a.derived, a.req.independent[i].stage as int) is Ok,
    ensures
        pair_of(product_of(a, a.req.independent[i].stage as int).independent_operands, a.req.independent[i].operand) is Some,
{
    let t = a.req.independent[i];
    let s = t.stage as int;
    let r = stage_request(a.c, a.req, a.derived, s);
    lemma_requested_contains(a.req.independent, s, a.req.independent.len() as int, i);
    let base = requested_ops(a.req.independent, s, a.req.independent.len() as int);
    lemma_add_all_readers_keeps(a.c, a.derived, s, base, a.c.groups.len() as int, t.operand);
    let full = add_all_readers(a.c, a.derived, s, base, a.c.groups.len() as int);
    assert(full.take(full.len() as int) =~= full);
    lemma_sort_ids_keeps(full, full.len() as int, t.operand);
    reveal(stage_outcome);
    crate::differentiate::lemma_product_pairs(a.c.stages[s], r);
    let p = product_of(a, s);
    let j = choose|j: int| 0 <= j < r.independent.len() && r.independent[j] == t.operand;
    assert(p.independent_operands[j].primal == t.operand);
    lemma_find_pair_some(p.independent_operands, t.operand, j, p.independent_operands.len() as int);
}

/// A requested dependent in a derived stage has a derivative operand in that stage's kernel.
proof fn lemma_exposed_dependent(a: Assembly, i: int)
    requires
        0 <= i < a.req.dependent.len(),
        member_exists(a.c.stages, a.req.dependent[i]),
        stage_outcome(a.c, a.req, a.derived, a.req.dependent[i].stage as int) is Ok,
    ensures
        pair_of(product_of(a, a.req.dependent[i].stage as int).dependent_operands, a.req.dependent[i].operand) is Some,
{
    let t = a.req.dependent[i];
    let s = t.stage as int;
    let r = stage_request(a.c, a.req, a.derived, s);
    lemma_requested_contains(a.req.dependent, s, a.req.dependent.len() as int, i);
    let base = requested_ops(a.req.dependent, s, a.req.dependent.len() as int);
    lemma_add_all_writers_keeps(a.c, a.derived, s, base, a.c.groups.len() as int, t.operand);
    let full = add_all_writers(a.c, a.derived, s, base, a.c.groups.len() as int);
    assert(full.take(full.len() as int) =~= full);
    lemma_sort_ids_keeps(full, full.len() as int, t.operand);
    reveal(stage_outcome);
    crate::differentiate::lemma_product_pairs(a.c.stages[s], r);
    let p = product_of(a, s);
    let j = choose|j: int| 0 <= j < r.dependent.len() && r.dependent[j] == t.operand;
    assert(p.dependent_operands[j].primal == t.operand);
    lemma_find_pair_some(p.dependent_operands, t.operand, j, p.dependent_operands.len() as int);
}

/// The derivative operands of the requested independents, in request order.
fn expose_independents(
    Ghost(a): Ghost<Assembly>,
    products: &Vec<Option<DerivativeProduct>>,
    dposs: &Vec<usize>,
    ts: &Vec<StageOperand>,
) -> (r: Vec<CompositionDerivativeOperand>)
    requires
        ts@ == a.req.independent,
        a.derived.len() == a.c.stages.len(),
        products_match(a.c, a.req, a.derived, products@),
        dposs@.len() == a.c.stages.len(),
        forall|s: int| 0 <= s < a.c.stages.len() && a.derived[s] ==> #[trigger] dposs@[s] == dpos(a, s),
        forall|i: int| 0 <= i < ts@.len() ==> member_exists(a.c.stages, #[trigger] ts@[i]),
        first_underived(ts@, a.derived, ts@.len() as int) is None,
    ensures
        r@ == ts@.map_values(|t: StageOperand| exposed_independent(a, t)),
{
    let mut out: Vec<CompositionDerivativeOperand> = Vec::new();
    proof {
        lemma_underived_none(ts@, a.derived, ts@.len() as int);
    }
    let mut i: usize = 0;
    while i < ts.len()
        invariant
            i <= ts@.len(),
            ts@ == a.req.independent,
            a.derived.len() == a.c.stages.len(),
            products_match(a.c, a.req, a.derived, products@),
            dposs@.len() == a.c.stages.len(),
            forall|s: int| 0 <= s < a.c.stages.len() && a.derived[s] ==> #[trigger] dposs@[s] == dpos(a, s),
            forall|j: int| 0 <= j < ts@.len() ==> member_exists(a.c.stages, #[trigger] ts@[j]),
            forall|j: int| 0 <= j < ts@.len() ==> a.derived[(#[trigger] ts@[j]).stage as int],
            out@ == ts@.take(i as int).map_values(|t: StageOperand| exposed_independent(a, t)),
        decreases ts@.len() - i,
    {
        let t = ts[i];
        assert(member_exists(a.c.stages, ts@[i as int]));
        assert(a.derived[t.stage as int]);
        if let Some(product) = &products[t.stage] {
            proof {
                lemma_exposed_independent(a, i as int);
            }
            if let Some(d) = find_pair_exec(&product.independent_operands, t.operand) {
                out.push(CompositionDerivativeOperand { primal: t, derivative: StageOperand { stage: dposs[t.stage], operand: d } });
            }
        }
        i = i + 1;
        assert(out@ =~= ts@.take(i as int).map_values(|t: StageOperand| exposed_independent(a, t)));
    }
    assert(ts@.take(ts@.len() as int) =~= ts@);
    out
}

/// The derivative operands of the requested dependents, in request order.
fn expose_dependents(
    Ghost(a): Ghost<Assembly>,
    products: &Vec<Option<DerivativeProduct>>,
    dposs: &Vec<usize>,
    ts: &Vec<StageOperand>,
) -> (r: Vec<CompositionDerivativeOperand>)
    requires
        ts@ == a.req.dependent,
        a.derived.len() == a.c.stages.len(),
        products_match(a.c, a.req, a.derived, products@),
        dposs@.len() == a.c.stages.len(),
        forall|s: int| 0 <= s < a.c.stages.len() && a.derived[s] ==> #[trigger] dposs@[s] == dpos(a, s),
        forall|i: int| 0 <= i < ts@.len() ==> member_exists(a.c.stages, #[trigger] ts@[i]),
        first_underived(ts@, a.derived, ts@.len() as int) is None,
    ensures
        r@ == ts@.map_values(|t: StageOperand| exposed_dependent(a, t)),
{
    let mut out: Vec<CompositionDerivativeOperand> = Vec::new();
    proof {
        lemma_underived_none(ts@, a.derived, ts@.len() as int);
    }
    let mut i: usize = 0;
    while i < ts.len()
        invariant
            i <= ts@.len(),
            ts@ == a.req.dependent,
            a.derived.len() == a.c.stages.len(),
            products_match(a.c, a.req, a.derived, products@),
            dposs@.len() == a.c.stages.len(),
            forall|s: int| 0 <= s < a.c.stages.len() && a.derived[s] ==> #[trigger] dposs@[s] == dpos(a, s),
            forall|j: int| 0 <= j < ts@.len() ==> member_exists(a.c.stages, #[trigger] ts@[j]),
            forall|j: int| 0 <= j < ts@.len() ==> a.derived[(#[trigger] ts@[j]).stage as int],
            out@ == ts@.take(i as int).map_values(|t: StageOperand| exposed_dependent(a, t)),
        decreases ts@.len() - i,
    {
        let t = ts[i];
        assert(member_exists(a.c.stages, ts@[i as int]));
        assert(a.derived[t.stage as int]);
        if let Some(product) = &products[t.stage] {
            proof {
                lemma_exposed_dependent(a, i as int);
            }
            if let Some(d) = find_pair_exec(&product.dependent_operands, t.operand) {
                out.push(CompositionDerivativeOperand { primal: t, derivative: StageOperand { stage: dposs[t.stage], operand: d } });
            }
        }
        i = i + 1;
        assert(out@ =~= ts@.take(i as int).map_values(|t: StageOperand| exposed_dependent(a, t)));
    }
    assert(ts@.take(ts@.len() as int) =~= ts@);
    out
}

proof fn lemma_underived_none(ts: Seq<StageOperand>, derived: Seq<bool>, n: int)
    requires
        0 <= n <= ts.len(),
        first_underived(ts, derived, n) is None,
    ensures
        forall|j: int| 0 <= j < n ==> derived[(#[trigger] ts[j]).stage as int],
    decreases n,
{
    if n > 0 {
        lemma_underived_none(ts, derived, n - 1);
    }
}

proof fn lemma_independents_valid(c: CompositionModel, ts: Seq<StageOperand>, n: int)
    requires
        0 <= n <= ts.len(),
        independents_refusal(c, ts, n) is None,
    ensures
        forall|j: int| 0 <= j < n ==> member_exists(c.stages, #[trigger] ts[j]),
    decreases n,
{
    if n > 0 {
        lemma_independents_valid(c, ts, n - 1);
    }
}

proof fn lemma_dependents_valid(c: CompositionModel, ts: Seq<StageOperand>, n: int)
    requires
        0 <= n <= ts.len(),
        dependents_refusal(c, ts, n) is None,
    ensures
        forall|j: int| 0 <= j < n ==> member_exists(c.stages, #[trigger] ts[j]),
    decreases n,
{
    if n > 0 {
        lemma_dependents_valid(c, ts, n - 1);
    }
}

proof fn lemma_primal_table_len(included: Seq<bool>, n: int)
    requires
        0 <= n,
    ensures
        primal_table(included, n).len() == count_true(included, n),
    decreases n,
{
    if n > 0 {
        lemma_primal_table_len(included, n - 1);
    }
}


fn both(a: &Vec<bool>, b: &Vec<bool>) -> (r: Vec<bool>)
    requires
        a@.len() == b@.len(),
    ensures
        r@ == Seq::new(a@.len(), |s: int| a@[s] && b@[s]),
{
    let mut out: Vec<bool> = Vec::new();
    let mut i: usize = 0;
    while i < a.len()
        invariant
            i <= a@.len(),
            a@.len() == b@.len(),
            out@ == Seq::new(i as nat, |s: int| a@[s] && b@[s]),
        decreases a@.len() - i,
    {
        out.push(a[i] && b[i]);
        i = i + 1;
        assert(out@ =~= Seq::new(i as nat, |s: int| a@[s] && b@[s]));
    }
    out
}

/// Differentiate a composition into a composition of per-stage derivative kernels.
///
/// The composition and the request are checked first. A stage gets a derivative stage when a
/// requested independent reaches it and it reaches a requested dependent through the shared
/// buffers; requested operands outside every such path are refused. Derived stages are
/// differentiated in derivative order, primal producer stages are reproduced verbatim ahead of
/// them wherever a derivative stage needs a shared primal value, and the derivative composition
/// is validated before it is returned.
#[verifier::rlimit(40)]
pub fn differentiate_composition(composition: &KernelComposition, request: &CompositionDerivativeRequest) -> (r: Result<
    CompositionDerivativeProduct,
    CompositionDifferentiationError,
>)
    requires
        composition.stages@.len() <= isize::MAX,
    ensures
        match r {
            Ok(p) => composition_differentiation(composition@, request@) == Ok::<
                CompositionProductModel,
                CompositionDifferentiationFailure,
            >(p@),
            Err(e) => composition_differentiation(composition@, request@) == Err::<
                CompositionProductModel,
                CompositionDifferentiationFailure,
            >(e@),
        },
{
    let ghost c = composition@;
    let ghost req = request@;
    let validated = match validate_composition(composition.copy()) {
        Ok(v) => v,
        Err(e) => {
            return Err(CompositionDifferentiationError::InvalidPrimal(e));
        },
    };
    match request.mode {
        DerivativeMode::Jvp => {},
        DerivativeMode::Vjp => {},
        _ => {
            return Err(CompositionDifferentiationError::UnsupportedMode(request.mode));
        },
    }
    if request.dependent_operands.len() == 0 {
        return Err(CompositionDifferentiationError::EmptyDependentSet);
    }
    let stages = validated.stages();
    let plans = validated.plans_ref();
    let plan_count = plans.len();
    assert(validated.model() == c);
    assert(valid_plans(c, plans@));
    match check_independents(Ghost(c), stages, plans, &request.independent_operands) {
        Ok(_) => {},
        Err(e) => {
            return Err(e);
        },
    }
    match check_dependents(Ghost(c), stages, plans, &request.dependent_operands) {
        Ok(_) => {},
        Err(e) => {
            return Err(e);
        },
    }
    let count = stages.len();
    let active = active_stages(Ghost(c), Ghost(req), plans, &request.independent_operands, count);
    let needed = needed_stages(Ghost(c), Ghost(req), plans, &request.dependent_operands, count);
    let derived = both(&active, &needed);
    assert(derived@ =~= derived_flags(c, req));
    proof {
        lemma_independents_valid(c, req.independent, req.independent.len() as int);
        lemma_dependents_valid(c, req.dependent, req.dependent.len() as int);
    }
    match find_underived(&request.independent_operands, &derived) {
        Some(t) => {
            return Err(CompositionDifferentiationError::IndependentUnreachable(t));
        },
        None => {},
    }
    match find_underived(&request.dependent_operands, &derived) {
        Some(t) => {
            return Err(CompositionDifferentiationError::DependentUnreachable(t));
        },
        None => {},
    }
    let products = match stage_products(Ghost(c), Ghost(req), stages, plans, request, &derived) {
        Ok(p) => p,
        Err(e) => {
            return Err(e);
        },
    };
    let included = included_stages(Ghost(c), plans, &derived, count);
    let ghost a = Assembly { c, req, derived: derived@, included: included@ };
    let (mut kernels, primal_stages, ppos) = primal_part(Ghost(a), stages, &included);
    proof {
        lemma_primal_table_len(included@, count as int);
        lemma_count_true_upper(included@, count as int);
    }
    let total = primal_stages.len();
    let ghost primal_kernel_models = kernel_models(kernels@);
    let (derivative_stages, dposs) = derivative_part(Ghost(a), request.mode, &products, &derived, total, &mut kernels);
    let groups = assemble_groups(Ghost(a), plans, &products, &included, &derived, &ppos, &dposs);
    let independent_operands = expose_independents(Ghost(a), &products, &dposs, &request.independent_operands);
    let dependent_operands = expose_dependents(Ghost(a), &products, &dposs, &request.dependent_operands);
    let mut name = composition.name.clone();
    if let DerivativeMode::Jvp = request.mode {
        name.append("::jvp");
    } else {
        name.append("::vjp");
    }
    let derivative = KernelComposition { name, stages: kernels, shared_buffers: groups };
    let ghost out = assembled(a);
    assert(derivative@.stages =~= out.composition.stages);
    assert(derivative@.groups =~= out.composition.groups);
    assert(derivative@.name =~= out.composition.name);
    match validate_composition(derivative.copy()) {
        Ok(_) => {},
        Err(e) => {
            return Err(CompositionDifferentiationError::InvalidDerivative(e));
        },
    }
    let product = CompositionDerivativeProduct {
        mode: request.mode,
        composition: derivative,
        primal_stages,
        derivative_stages,
        independent_operands,
        dependent_operands,
    };
    assert(product@.derivative_stages =~= out.derivative_stages);
    assert(product@.independent_operands =~= out.independent_operands);
    assert(product@.dependent_operands =~= out.dependent_operands);
    Ok(product)
}


// ---------------------------------------------------------------------------------------------
// Laws
// ---------------------------------------------------------------------------------------------
proof fn lemma_primal_table(c: CompositionModel, included: Seq<bool>, n: int)
    requires
        0 <= n <= included.len(),
        included.len() == c.stages.len(),
        included.len() <= usize::MAX,
    ensures
        primal_kernels(c, included, n).len() == primal_table(included, n).len(),
        primal_table(included, n).len() == count_true(included, n),
        forall|q: int|
            0 <= q < primal_table(included, n).len() ==> {
                let e = #[trigger] primal_table(included, n)[q];
                &&& e.stage == q
                &&& e.primal_stage < n
                &&& primal_kernels(c, included, n)[q] == c.stages[e.primal_stage as int]
            },
    decreases n,
{
    if n > 0 {
        lemma_primal_table(c, included, n - 1);
        lemma_count_true_upper(included, n - 1);
    }
}

/// Differentiating a composition never rewrites a primal stage: every stage that the
/// derivative composition reproduces is, verbatim, the primal stage its table names, and the
/// reproduced stages come first.
pub proof fn lemma_primal_stages_verbatim(c: CompositionModel, req: CompositionRequestModel, q: int)
    requires
        c.stages.len() <= usize::MAX,
        composition_differentiation(c, req) is Ok,
        0 <= q < composition_differentiation(c, req)->Ok_0.primal_stages.len(),
    ensures
        ({
            let p = composition_differentiation(c, req)->Ok_0;
            let e = p.primal_stages[q];
            &&& e.stage == q
            &&& e.primal_stage < c.stages.len()
            &&& p.composition.stages[e.stage as int] == c.stages[e.primal_stage as int]
        }),
{
    let derived = derived_flags(c, req);
    let included = included_flags(c, derived, c.stages.len() as int);
    lemma_included_len(c, derived, c.stages.len() as int);
    lemma_primal_table(c, included, c.stages.len() as int);
}

proof fn lemma_included_len(c: CompositionModel, derived: Seq<bool>, m: int)
    requires
        0 <= m <= c.stages.len(),
    ensures
        included_flags(c, derived, m).len() == c.stages.len(),
    decreases m,
{
    if m > 0 {
        lemma_included_len(c, derived, m - 1);
    }
}

proof fn lemma_failure_up_none(c: CompositionModel, req: CompositionRequestModel, derived: Seq<bool>, n: int, s: int)
    requires
        0 <= s < n,
        stage_failure_up(c, req, derived, n) is None,
        derived[s],
    ensures
        stage_outcome(c, req, derived, s) is Ok,
    decreases n,
{
    if s < n - 1 {
        lemma_failure_up_none(c, req, derived, n - 1, s);
    }
}

proof fn lemma_failure_down_none(c: CompositionModel, req: CompositionRequestModel, derived: Seq<bool>, m: int, s: int)
    requires
        0 <= m <= c.stages.len(),
        c.stages.len() - m <= s < c.stages.len(),
        stage_failure_down(c, req, derived, m) is None,
        derived[s],
    ensures
        stage_outcome(c, req, derived, s) is Ok,
    decreases m,
{
    if s > c.stages.len() - m {
        lemma_failure_down_none(c, req, derived, m - 1, s);
    }
}

proof fn lemma_count_true_step(flags: Seq<bool>, n: int)
    requires
        0 < n,
    ensures
        count_true(flags, n) == count_true(flags, n - 1) + if flags[n - 1] {
            1nat
        } else {
            0nat
        },
{
}

/// The first `m` entries of the derivative table line up with the first `m` derivative
/// kernels: entry `q` names a derived stage, sits at `q` after the reproduced stages, and
/// carries that stage's product.
proof fn lemma_derivative_table(
    c: CompositionModel,
    req: CompositionRequestModel,
    derived: Seq<bool>,
    included: Seq<bool>,
    m: int,
)
    requires
        0 <= m <= c.stages.len(),
        derived.len() == c.stages.len(),
        included.len() == c.stages.len(),
        count_true(included, included.len() as int) + c.stages.len() <= usize::MAX,
        req.mode is Jvp || req.mode is Vjp,
    ensures
        ({
            let count = c.stages.len();
            let order = derivative_order(req.mode, count);
            let t = derivative_table(c, req, derived, included, order, m);
            let ks = derivative_kernels(c, req, derived, order, m);
            &&& t.len() == ks.len()
            &&& t.len() == if req.mode is Jvp {
                count_true(derived, m) as int
            } else {
                count_true(derived, count as int) - count_true(derived, count - m)
            }
            &&& forall|q: int|
                0 <= q < t.len() ==> {
                    let e = #[trigger] t[q];
                    &&& e.primal_stage < count
                    &&& derived[e.primal_stage as int]
                    &&& (req.mode is Jvp ==> e.primal_stage < m)
                    &&& (req.mode is Vjp ==> count - m <= e.primal_stage)
                    &&& e.stage == count_true(included, included.len() as int) + q
                    &&& ks[q] == stage_product(c, req, derived, e.primal_stage as int).kernel
                    &&& e.primal_operands == stage_product(c, req, derived, e.primal_stage as int).primal_operands
                }
        }),
    decreases m,
{
    let count = c.stages.len();
    let order = derivative_order(req.mode, count);
    if m > 0 {
        lemma_derivative_table(c, req, derived, included, m - 1);
        let s = order[m - 1];
        let prev = derivative_table(c, req, derived, included, order, m - 1);
        let prev_ks = derivative_kernels(c, req, derived, order, m - 1);
        let t = derivative_table(c, req, derived, included, order, m);
        let ks = derivative_kernels(c, req, derived, order, m);
        if req.mode is Jvp {
            assert(s == m - 1);
            lemma_count_true_step(derived, m);
            lemma_count_true_upper(derived, m - 1);
        } else {
            assert(s == count - m);
            lemma_count_true_step(derived, count - m + 1);
            lemma_count_true_bounds(derived, count - m + 1, count as int);
        }
        if derived[s] {
            assert(t == prev.push(
                DerivativeStageModel {
                    primal_stage: s as usize,
                    stage: derivative_position(req.mode, included, derived, s) as usize,
                    primal_operands: stage_product(c, req, derived, s).primal_operands,
                },
            ));
            assert(ks == prev_ks.push(stage_product(c, req, derived, s).kernel));
            assert(derivative_position(req.mode, included, derived, s) == count_true(included, included.len() as int) + prev.len());
            assert forall|q: int| 0 <= q < t.len() implies {
                let e = #[trigger] t[q];
                &&& e.primal_stage < count
                &&& derived[e.primal_stage as int]
                &&& (req.mode is Jvp ==> e.primal_stage < m)
                &&& (req.mode is Vjp ==> count - m <= e.primal_stage)
                &&& e.stage == count_true(included, included.len() as int) + q
                &&& ks[q] == stage_product(c, req, derived, e.primal_stage as int).kernel
                &&& e.primal_operands == stage_product(c, req, derived, e.primal_stage as int).primal_operands
            } by {
                if q < prev.len() {
                    assert(t[q] == prev[q]);
                    assert(ks[q] == prev_ks[q]);
                }
            }
        } else {
            assert(t == prev);
            assert(ks == prev_ks);
        }
    }
}

proof fn lemma_primal_kernels_len(c: CompositionModel, included: Seq<bool>, n: int)
    requires
        0 <= n,
    ensures
        primal_kernels(c, included, n).len() == count_true(included, n),
    decreases n,
{
    if n > 0 {
        lemma_primal_kernels_len(c, included, n - 1);
    }
}

proof fn lemma_stage_outcome(c: CompositionModel, req: CompositionRequestModel, derived: Seq<bool>, s: int)
    ensures
        stage_outcome(c, req, derived, s) == crate::differentiate::differentiation(c.stages[s], stage_request(c, req, derived, s)),
{
    reveal(stage_outcome);
}

/// What a successful composition differentiation is made of.
proof fn lemma_differentiation_assembled(c: CompositionModel, req: CompositionRequestModel)
    requires
        composition_differentiation(c, req) is Ok,
    ensures
        ({
            let derived = derived_flags(c, req);
            let included = included_flags(c, derived, c.stages.len() as int);
            &&& composition_differentiation(c, req)->Ok_0 == assembled(Assembly { c, req, derived, included })
            &&& req.mode is Jvp || req.mode is Vjp
            &&& req.mode is Jvp ==> stage_failure_up(c, req, derived, c.stages.len() as int) is None
            &&& req.mode is Vjp ==> stage_failure_down(c, req, derived, c.stages.len() as int) is None
        }),
{
}

/// A derivative composition is made of per-stage derivative products: every derivative stage
/// is what `differentiate` returns for its primal stage under that stage's request (in the
/// composition's mode), and carries that product's primal-operand table.
pub proof fn lemma_derivative_stages_are_stage_products(c: CompositionModel, req: CompositionRequestModel, q: int)
    requires
        c.stages.len() <= isize::MAX,
        composition_differentiation(c, req) is Ok,
        0 <= q < composition_differentiation(c, req)->Ok_0.derivative_stages.len(),
    ensures
        ({
            let p = composition_differentiation(c, req)->Ok_0;
            let e = p.derivative_stages[q];
            let r = stage_request(c, req, derived_flags(c, req), e.primal_stage as int);
            &&& e.primal_stage < c.stages.len()
            &&& r.mode == req.mode
            &&& crate::differentiate::differentiation(c.stages[e.primal_stage as int], r) is Ok
            &&& e.stage < p.composition.stages.len()
            &&& p.composition.stages[e.stage as int] == crate::differentiate::differentiation(
                c.stages[e.primal_stage as int],
                r,
            )->Ok_0.kernel
            &&& e.primal_operands == crate::differentiate::differentiation(c.stages[e.primal_stage as int], r)->Ok_0.primal_operands
        }),
{
    let count = c.stages.len();
    let derived = derived_flags(c, req);
    let included = included_flags(c, derived, count as int);
    let order = derivative_order(req.mode, count);
    lemma_differentiation_assembled(c, req);
    let p = assembled(Assembly { c, req, derived, included });
    lemma_included_len(c, derived, count as int);
    lemma_count_true_upper(included, count as int);
    lemma_derivative_table(c, req, derived, included, count as int);
    lemma_primal_kernels_len(c, included, count as int);
    let t = derivative_table(c, req, derived, included, order, count as int);
    let e = t[q];
    let s = e.primal_stage as int;
    assert(p.derivative_stages[q] == e);
    if req.mode is Jvp {
        lemma_failure_up_none(c, req, derived, count as int, s);
    } else {
        lemma_failure_down_none(c, req, derived, count as int, s);
    }
    lemma_stage_outcome(c, req, derived, s);
    let pk = primal_kernels(c, included, count as int);
    let dk = derivative_kernels(c, req, derived, order, count as int);
    assert(p.composition.stages == pk + dk);
    assert(p.composition.stages[e.stage as int] == dk[q]);
}

} // verus!
