//! Structured forward- and reverse-mode differentiation.
//!
//! The transformation is schedule-independent. Reduction stores remain reductions, and
//! reverse-mode cotangents always use additive reductions, so aliasing stays explicit to
//! validation and later schedulers.
use vstd::prelude::*;

use crate::derivative_rules::{chain_rule, expand, rename, simplify, binary};
use crate::ir::{
    AccessMode, BinaryOp, DerivativeMode, DerivativeOperand, DerivativeProduct, DerivativeRequest,
    IndexingMap, IndexingMapModel, KernelModel, KernelOperand, OperandId, OperandModel,
    ReductionOp, ScalarExpr, Statement, StructuredKernel, operand_models, map_models,
};
use crate::validate::{ValidationError, Violation};

verus! {

#[derive(Clone, Debug, PartialEq, Eq)]
pub enum DifferentiationError {
    InvalidPrimal(ValidationError),
    InvalidDerivative(ValidationError),
    UnsupportedMode(DerivativeMode),
    EmptyDependentSet,
    DuplicateIndependent(usize),
    DuplicateDependent(usize),
    InvalidIndependent(usize),
    InvalidDependent(usize),
    IndependentNotReadable(usize),
    DependentNotWritten(usize),
    MissingIndexingMap(usize),
    UnsupportedReadWriteOperand(usize),
}

/// The mathematical content of a [`DifferentiationError`].
pub enum DifferentiationFailure {
    InvalidPrimal(Violation),
    InvalidDerivative(Violation),
    UnsupportedMode(DerivativeMode),
    EmptyDependentSet,
    DuplicateIndependent(usize),
    DuplicateDependent(usize),
    InvalidIndependent(usize),
    InvalidDependent(usize),
    IndependentNotReadable(usize),
    DependentNotWritten(usize),
    MissingIndexingMap(usize),
    UnsupportedReadWriteOperand(usize),
}

impl View for DifferentiationError {
    type V = DifferentiationFailure;

    open spec fn view(&self) -> DifferentiationFailure {
        match self {
            DifferentiationError::InvalidPrimal(e) => DifferentiationFailure::InvalidPrimal(e@),
            DifferentiationError::InvalidDerivative(e) => DifferentiationFailure::InvalidDerivative(
                e@,
            ),
            DifferentiationError::UnsupportedMode(m) => DifferentiationFailure::UnsupportedMode(*m),
            DifferentiationError::EmptyDependentSet => DifferentiationFailure::EmptyDependentSet,
            DifferentiationError::DuplicateIndependent(i) =>
                DifferentiationFailure::DuplicateIndependent(*i),
            DifferentiationError::DuplicateDependent(i) => DifferentiationFailure::DuplicateDependent(
                *i,
            ),
            DifferentiationError::InvalidIndependent(i) => DifferentiationFailure::InvalidIndependent(
                *i,
            ),
            DifferentiationError::InvalidDependent(i) => DifferentiationFailure::InvalidDependent(*i),
            DifferentiationError::IndependentNotReadable(i) =>
                DifferentiationFailure::IndependentNotReadable(*i),
            DifferentiationError::DependentNotWritten(i) =>
                DifferentiationFailure::DependentNotWritten(*i),
            DifferentiationError::MissingIndexingMap(i) => DifferentiationFailure::MissingIndexingMap(
                *i,
            ),
            DifferentiationError::UnsupportedReadWriteOperand(i) =>
                DifferentiationFailure::UnsupportedReadWriteOperand(*i),
        }
    }
}

/// The mathematical content of a [`DerivativeRequest`].
pub struct RequestModel {
    pub mode: DerivativeMode,
    pub independent: Seq<OperandId>,
    pub dependent: Seq<OperandId>,
}

impl View for DerivativeRequest {
    type V = RequestModel;

    open spec fn view(&self) -> RequestModel {
        RequestModel {
            mode: self.mode,
            independent: self.independent_operands@,
            dependent: self.dependent_operands@,
        }
    }
}

/// The mathematical content of a [`DerivativeProduct`].
pub struct ProductModel {
    pub mode: DerivativeMode,
    pub kernel: KernelModel,
    pub primal_operands: Seq<DerivativeOperand>,
    pub independent_operands: Seq<DerivativeOperand>,
    pub dependent_operands: Seq<DerivativeOperand>,
}

impl View for DerivativeProduct {
    type V = ProductModel;

    open spec fn view(&self) -> ProductModel {
        ProductModel {
            mode: self.mode,
            kernel: self.kernel@,
            primal_operands: self.primal_operands@,
            independent_operands: self.independent_operands@,
            dependent_operands: self.dependent_operands@,
        }
    }
}

// ---------------------------------------------------------------------------------------------
// Requests
// ---------------------------------------------------------------------------------------------
/// The first violation among the first `n` requested independent operands.
pub open spec fn independents_violation(ops: Seq<OperandModel>, ids: Seq<OperandId>, n: int) -> Option<
    DifferentiationFailure,
>
    decreases n,
{
    if n <= 0 {
        None
    } else {
        match independents_violation(ops, ids, n - 1) {
            Some(f) => Some(f),
            None => {
                let id = ids[n - 1];
                if exists|j: int| 0 <= j < n - 1 && #[trigger] ids[j] == id {
                    Some(DifferentiationFailure::DuplicateIndependent(id.0))
                } else if id.0 >= ops.len() {
                    Some(DifferentiationFailure::InvalidIndependent(id.0))
                } else if !ops[id.0 as int].access.readable() {
                    Some(DifferentiationFailure::IndependentNotReadable(id.0))
                } else {
                    None
                }
            },
        }
    }
}

/// The first violation among the first `n` requested dependent operands.
pub open spec fn dependents_violation(ops: Seq<OperandModel>, ids: Seq<OperandId>, n: int) -> Option<
    DifferentiationFailure,
>
    decreases n,
{
    if n <= 0 {
        None
    } else {
        match dependents_violation(ops, ids, n - 1) {
            Some(f) => Some(f),
            None => {
                let id = ids[n - 1];
                if exists|j: int| 0 <= j < n - 1 && #[trigger] ids[j] == id {
                    Some(DifferentiationFailure::DuplicateDependent(id.0))
                } else if id.0 >= ops.len() {
                    Some(DifferentiationFailure::InvalidDependent(id.0))
                } else if !ops[id.0 as int].access.writable() {
                    Some(DifferentiationFailure::DependentNotWritten(id.0))
                } else {
                    None
                }
            },
        }
    }
}

/// The first violation of a request against the operands of its primal kernel.
pub open spec fn request_violation(ops: Seq<OperandModel>, req: RequestModel) -> Option<
    DifferentiationFailure,
> {
    if req.dependent.len() == 0 {
        Some(DifferentiationFailure::EmptyDependentSet)
    } else {
        match independents_violation(ops, req.independent, req.independent.len() as int) {
            Some(f) => Some(f),
            None => dependents_violation(ops, req.dependent, req.dependent.len() as int),
        }
    }
}

proof fn lemma_independents_stable(ops: Seq<OperandModel>, ids: Seq<OperandId>, i: int, n: int)
    requires
        0 <= i <= n,
        independents_violation(ops, ids, i) is Some,
    ensures
        independents_violation(ops, ids, n) == independents_violation(ops, ids, i),
    decreases n - i,
{
    if i < n {
        lemma_independents_stable(ops, ids, i, n - 1);
    }
}

proof fn lemma_dependents_stable(ops: Seq<OperandModel>, ids: Seq<OperandId>, i: int, n: int)
    requires
        0 <= i <= n,
        dependents_violation(ops, ids, i) is Some,
    ensures
        dependents_violation(ops, ids, n) == dependents_violation(ops, ids, i),
    decreases n - i,
{
    if i < n {
        lemma_dependents_stable(ops, ids, i, n - 1);
    }
}

/// A request that passed has distinct, in-range independents and dependents.
pub proof fn lemma_request_valid(ops: Seq<OperandModel>, req: RequestModel)
    requires
        request_violation(ops, req) is None,
    ensures
        forall|i: int| 0 <= i < req.independent.len() ==> (#[trigger] req.independent[i]).0 < ops.len()
            && ops[req.independent[i].0 as int].access.readable(),
        forall|i: int, j: int| 0 <= j < i < req.independent.len() ==> req.independent[j] != req.independent[i],
        forall|i: int| 0 <= i < req.dependent.len() ==> (#[trigger] req.dependent[i]).0 < ops.len()
            && ops[req.dependent[i].0 as int].access.writable(),
        forall|i: int, j: int| 0 <= j < i < req.dependent.len() ==> req.dependent[j] != req.dependent[i],
{
    lemma_independents_valid(ops, req.independent, req.independent.len() as int);
    lemma_dependents_valid(ops, req.dependent, req.dependent.len() as int);
}

proof fn lemma_independents_valid(ops: Seq<OperandModel>, ids: Seq<OperandId>, n: int)
    requires
        0 <= n <= ids.len(),
        independents_violation(ops, ids, n) is None,
    ensures
        forall|i: int| 0 <= i < n ==> (#[trigger] ids[i]).0 < ops.len() && ops[ids[i].0 as int].access.readable(),
        forall|i: int, j: int| 0 <= j < i < n ==> ids[j] != ids[i],
    decreases n,
{
    if n > 0 {
        lemma_independents_valid(ops, ids, n - 1);
    }
}

proof fn lemma_dependents_valid(ops: Seq<OperandModel>, ids: Seq<OperandId>, n: int)
    requires
        0 <= n <= ids.len(),
        dependents_violation(ops, ids, n) is None,
    ensures
        forall|i: int| 0 <= i < n ==> (#[trigger] ids[i]).0 < ops.len() && ops[ids[i].0 as int].access.writable(),
        forall|i: int, j: int| 0 <= j < i < n ==> ids[j] != ids[i],
    decreases n,
{
    if n > 0 {
        lemma_dependents_valid(ops, ids, n - 1);
    }
}

#[verifier::loop_isolation(false)]
fn check_request(ops: &Vec<KernelOperand>, request: &DerivativeRequest) -> (r: Result<(), DifferentiationError>)
    ensures
        match r {
            Ok(_) => request_violation(operand_models(ops@), request@) is None,
            Err(e) => request_violation(operand_models(ops@), request@) == Some(e@),
        },
{
    let ghost models = operand_models(ops@);
    if request.dependent_operands.len() == 0 {
        return Err(DifferentiationError::EmptyDependentSet);
    }
    let ids = &request.independent_operands;
    let mut i: usize = 0;
    while i < ids.len()
        invariant
            i <= ids@.len(),
            models == operand_models(ops@),
            independents_violation(models, ids@, i as int) is None,
        decreases ids@.len() - i,
    {
        let id = ids[i];
        let mut j: usize = 0;
        while j < i
            invariant
                j <= i < ids@.len(),
                id == ids@[i as int],
                forall|l: int| 0 <= l < j ==> ids@[l] != id,
            decreases i - j,
        {
            if ids[j].0 == id.0 {
                assert(ids@[j as int] == id);
                proof {
                    lemma_independents_stable(models, ids@, i + 1, ids@.len() as int);
                }
                return Err(DifferentiationError::DuplicateIndependent(id.0));
            }
            j = j + 1;
        }
        if id.0 >= ops.len() {
            proof {
                lemma_independents_stable(models, ids@, i + 1, ids@.len() as int);
            }
            return Err(DifferentiationError::InvalidIndependent(id.0));
        }
        assert(models[id.0 as int] == ops@[id.0 as int]@);
        if !ops[id.0].access.can_read() {
            proof {
                lemma_independents_stable(models, ids@, i + 1, ids@.len() as int);
            }
            return Err(DifferentiationError::IndependentNotReadable(id.0));
        }
        i = i + 1;
    }
    let ids = &request.dependent_operands;
    let mut i: usize = 0;
    while i < ids.len()
        invariant
            i <= ids@.len(),
            models == operand_models(ops@),
            dependents_violation(models, ids@, i as int) is None,
        decreases ids@.len() - i,
    {
        let id = ids[i];
        let mut j: usize = 0;
        while j < i
            invariant
                j <= i < ids@.len(),
                id == ids@[i as int],
                forall|l: int| 0 <= l < j ==> ids@[l] != id,
            decreases i - j,
        {
            if ids[j].0 == id.0 {
                assert(ids@[j as int] == id);
                proof {
                    lemma_dependents_stable(models, ids@, i + 1, ids@.len() as int);
                }
                return Err(DifferentiationError::DuplicateDependent(id.0));
            }
            j = j + 1;
        }
        if id.0 >= ops.len() {
            proof {
                lemma_dependents_stable(models, ids@, i + 1, ids@.len() as int);
            }
            return Err(DifferentiationError::InvalidDependent(id.0));
        }
        assert(models[id.0 as int] == ops@[id.0 as int]@);
        if !ops[id.0].access.can_write() {
            proof {
                lemma_dependents_stable(models, ids@, i + 1, ids@.len() as int);
            }
            return Err(DifferentiationError::DependentNotWritten(id.0));
        }
        i = i + 1;
    }
    Ok(())
}


// ---------------------------------------------------------------------------------------------
// The derivative kernel
// ---------------------------------------------------------------------------------------------
/// The number of readable operands among the first `n`.
pub open spec fn readable_count(ops: Seq<OperandModel>, n: int) -> nat
    decreases n,
{
    if n <= 0 {
        0
    } else {
        readable_count(ops, n - 1) + if ops[n - 1].access.readable() {
            1nat
        } else {
            0nat
        }
    }
}

/// The readable operands among the first `n`, in order.
pub open spec fn readable_list(ops: Seq<OperandModel>, n: int) -> Seq<int>
    decreases n,
{
    if n <= 0 {
        Seq::empty()
    } else if ops[n - 1].access.readable() {
        readable_list(ops, n - 1).push(n - 1)
    } else {
        readable_list(ops, n - 1)
    }
}

/// Where each primal operand's value sits in a derivative kernel: readable operands keep
/// their relative order at the front.
pub open spec fn new_ids(ops: Seq<OperandModel>) -> Seq<OperandId> {
    Seq::new(ops.len(), |i: int| OperandId(readable_count(ops, i) as usize))
}

/// The first read-write operand among the first `n`.
pub open spec fn first_read_write(ops: Seq<OperandModel>, n: int) -> Option<int>
    decreases n,
{
    if n <= 0 {
        None
    } else {
        match first_read_write(ops, n - 1) {
            Some(i) => Some(i),
            None => if ops[n - 1].access is ReadWrite {
                Some(n - 1)
            } else {
                None
            },
        }
    }
}

/// The first map among the first `n` whose operand is `op`.
pub open spec fn find_map(maps: Seq<IndexingMapModel>, op: OperandId, n: int) -> Option<int>
    decreases n,
{
    if n <= 0 {
        None
    } else {
        match find_map(maps, op, n - 1) {
            Some(i) => Some(i),
            None => if maps[n - 1].operand == op {
                Some(n - 1)
            } else {
                None
            },
        }
    }
}

/// The map of operand `op`, moved onto operand `id`.
pub open spec fn moved_map(maps: Seq<IndexingMapModel>, op: OperandId, id: OperandId) -> IndexingMapModel {
    let m = maps[find_map(maps, op, maps.len() as int).unwrap()];
    IndexingMapModel { operand: id, results: m.results }
}

pub open spec fn as_input(o: OperandModel) -> OperandModel {
    OperandModel { access: AccessMode::Read, ..o }
}

pub open spec fn derived_operand(o: OperandModel, prefix: Seq<char>, access: AccessMode) -> OperandModel {
    OperandModel { name: prefix + o.name, access, ..o }
}

/// The first position among the first `n` of `s` that holds `x`.
pub open spec fn first_position(s: Seq<OperandId>, x: OperandId, n: int) -> Option<int>
    decreases n,
{
    if n <= 0 {
        None
    } else {
        match first_position(s, x, n - 1) {
            Some(i) => Some(i),
            None => if s[n - 1] == x {
                Some(n - 1)
            } else {
                None
            },
        }
    }
}

pub open spec fn position(s: Seq<OperandId>, x: OperandId) -> Option<int> {
    first_position(s, x, s.len() as int)
}

/// The let definitions with locals expanded, and every store with its value expanded, over the
/// first `n` statements.
pub open spec fn expansion(statements: Seq<Statement>, n: int) -> (Seq<ScalarExpr>, Seq<
    (OperandId, ScalarExpr),
>)
    decreases n,
{
    if n <= 0 {
        (Seq::empty(), Seq::empty())
    } else {
        let (locals, stores) = expansion(statements, n - 1);
        match statements[n - 1] {
            Statement::Let { value, .. } => (locals.push(expand(value, locals)), stores),
            Statement::Store { operand, value } => (locals, stores.push((operand, expand(value, locals)))),
        }
    }
}

pub open spec fn expanded_stores(k: KernelModel) -> Seq<(OperandId, ScalarExpr)> {
    expansion(k.statements, k.statements.len() as int).1
}

/// The readable primal operands, as inputs, in order.
pub open spec fn primal_operands_part(k: KernelModel) -> Seq<OperandModel> {
    readable_list(k.operands, k.operands.len() as int).map_values(|i: int| as_input(k.operands[i]))
}

pub open spec fn primal_maps_part(k: KernelModel) -> Seq<IndexingMapModel> {
    readable_list(k.operands, k.operands.len() as int).map(
        |j: int, i: int| moved_map(k.maps, OperandId(i as usize), OperandId(j as usize)),
    )
}

pub open spec fn primal_pairs(k: KernelModel) -> Seq<DerivativeOperand> {
    readable_list(k.operands, k.operands.len() as int).map(
        |j: int, i: int| DerivativeOperand { primal: OperandId(i as usize), derivative: OperandId(j as usize) },
    )
}

/// Derived operands for `ids`, numbered from `base`.
pub open spec fn derived_operands(k: KernelModel, ids: Seq<OperandId>, prefix: Seq<char>, access: Option<AccessMode>) -> Seq<OperandModel> {
    ids.map_values(
        |id: OperandId| derived_operand(k.operands[id.0 as int], prefix, match access {
            Some(a) => a,
            None => k.operands[id.0 as int].access,
        }),
    )
}

pub open spec fn derived_maps(k: KernelModel, ids: Seq<OperandId>, base: int) -> Seq<IndexingMapModel> {
    ids.map(|j: int, id: OperandId| moved_map(k.maps, id, OperandId((base + j) as usize)))
}

pub open spec fn derived_pairs(ids: Seq<OperandId>, base: int) -> Seq<DerivativeOperand> {
    ids.map(|j: int, id: OperandId| DerivativeOperand { primal: id, derivative: OperandId((base + j) as usize) })
}

/// For a JVP: the direction operand of each renamed primal operand, over `n` independents.
pub open spec fn tangent_table(ids: Seq<OperandId>, independent: Seq<OperandId>, size: nat, base: int, n: int) -> Seq<Option<OperandId>>
    decreases n,
{
    if n <= 0 {
        Seq::new(size, |i: int| None)
    } else {
        tangent_table(ids, independent, size, base, n - 1).update(
            ids[independent[n - 1].0 as int].0 as int,
            Some(OperandId((base + n - 1) as usize)),
        )
    }
}

/// For a JVP: one tangent store per primal store into a requested dependent, over `n` stores.
pub open spec fn jvp_statements(k: KernelModel, req: RequestModel, n: int) -> Seq<Statement>
    decreases n,
{
    if n <= 0 {
        Seq::empty()
    } else {
        let previous = jvp_statements(k, req, n - 1);
        let (dependent, value) = expanded_stores(k)[n - 1];
        let r = readable_count(k.operands, k.operands.len() as int) as int;
        let tangents = tangent_table(new_ids(k.operands), req.independent, k.operands.len(), r, req.independent.len() as int);
        match position(req.dependent, dependent) {
            Some(p) => previous.push(
                Statement::Store {
                    operand: OperandId((r + req.independent.len() + p) as usize),
                    value: simplify(chain_rule(rename(value, new_ids(k.operands)), tangents, None)),
                },
            ),
            None => previous,
        }
    }
}

/// For a VJP: for every primal store into a seeded dependent, one cotangent store per
/// independent, over `n` stores.
pub open spec fn vjp_statements(k: KernelModel, req: RequestModel, n: int) -> Seq<Statement>
    decreases n,
{
    if n <= 0 {
        Seq::empty()
    } else {
        let previous = vjp_statements(k, req, n - 1);
        let (dependent, value) = expanded_stores(k)[n - 1];
        let r = readable_count(k.operands, k.operands.len() as int) as int;
        let ids = new_ids(k.operands);
        match position(req.dependent, dependent) {
            Some(p) => previous + req.independent.map(
                |j: int, independent: OperandId| Statement::Store {
                    operand: OperandId((r + req.dependent.len() + j) as usize),
                    value: simplify(
                        binary(
                            BinaryOp::Mul,
                            ScalarExpr::Load(OperandId((r + p) as usize)),
                            chain_rule(rename(value, ids), Seq::empty(), Some(ids[independent.0 as int])),
                        ),
                    ),
                },
            ),
            None => previous,
        }
    }
}

pub open spec fn jvp_product(k: KernelModel, req: RequestModel) -> ProductModel {
    let r = readable_count(k.operands, k.operands.len() as int) as int;
    let i = req.independent.len();
    ProductModel {
        mode: DerivativeMode::Jvp,
        kernel: KernelModel {
            name: k.name + "::jvp"@,
            extents: k.extents,
            iterators: k.iterators,
            operands: primal_operands_part(k) + derived_operands(k, req.independent, "d_"@, Some(AccessMode::Read))
                + derived_operands(k, req.dependent, "d_"@, None),
            maps: primal_maps_part(k) + derived_maps(k, req.independent, r) + derived_maps(k, req.dependent, r + i),
            statements: jvp_statements(k, req, expanded_stores(k).len() as int),
            policy: k.policy,
        },
        primal_operands: primal_pairs(k),
        independent_operands: derived_pairs(req.independent, r),
        dependent_operands: derived_pairs(req.dependent, r + i),
    }
}

pub open spec fn vjp_product(k: KernelModel, req: RequestModel) -> ProductModel {
    let r = readable_count(k.operands, k.operands.len() as int) as int;
    let d = req.dependent.len();
    ProductModel {
        mode: DerivativeMode::Vjp,
        kernel: KernelModel {
            name: k.name + "::vjp"@,
            extents: k.extents,
            iterators: k.iterators,
            operands: primal_operands_part(k) + derived_operands(k, req.dependent, "bar_"@, Some(AccessMode::Read))
                + derived_operands(k, req.independent, "bar_"@, Some(AccessMode::Reduce(ReductionOp::Add))),
            maps: primal_maps_part(k) + derived_maps(k, req.dependent, r) + derived_maps(k, req.independent, r + d),
            statements: vjp_statements(k, req, expanded_stores(k).len() as int),
            policy: k.policy,
        },
        primal_operands: primal_pairs(k),
        independent_operands: derived_pairs(req.independent, r + d),
        dependent_operands: derived_pairs(req.dependent, r),
    }
}

/// What [`differentiate`] owes on a primal kernel and a request.
pub open spec fn differentiation(k: KernelModel, req: RequestModel) -> Result<ProductModel, DifferentiationFailure> {
    match crate::validate::kernel_violation(k) {
        Some(v) => Err(DifferentiationFailure::InvalidPrimal(v)),
        None => match request_violation(k.operands, req) {
            Some(f) => Err(f),
            None => if req.mode is Jacobian {
                Err(DifferentiationFailure::UnsupportedMode(DerivativeMode::Jacobian))
            } else {
                match first_read_write(k.operands, k.operands.len() as int) {
                    Some(i) => Err(DifferentiationFailure::UnsupportedReadWriteOperand(i as usize)),
                    None => {
                        let product = if req.mode is Jvp { jvp_product(k, req) } else { vjp_product(k, req) };
                        match crate::validate::kernel_violation(product.kernel) {
                            Some(v) => Err(DifferentiationFailure::InvalidDerivative(v)),
                            None => Ok(product),
                        }
                    },
                }
            },
        },
    }
}


// ---------------------------------------------------------------------------------------------
// Facts about the derivative kernel's pieces
// ---------------------------------------------------------------------------------------------
pub(crate) proof fn lemma_readable_list_len(ops: Seq<OperandModel>, n: int)
    requires
        0 <= n <= ops.len(),
    ensures
        readable_list(ops, n).len() == readable_count(ops, n),
        readable_count(ops, n) <= n,
        forall|j: int| 0 <= j < readable_list(ops, n).len() ==> 0 <= #[trigger] readable_list(ops, n)[j] < n,
    decreases n,
{
    if n > 0 {
        lemma_readable_list_len(ops, n - 1);
    }
}

proof fn lemma_readable_count_monotone(ops: Seq<OperandModel>, i: int, n: int)
    requires
        0 <= i <= n <= ops.len(),
    ensures
        readable_count(ops, i) <= readable_count(ops, n),
        i < n && ops[i].access.readable() ==> readable_count(ops, i) < readable_count(ops, n),
    decreases n - i,
{
    if i < n {
        lemma_readable_count_monotone(ops, i, n - 1);
        if i == n - 1 {
        }
    }
}

proof fn lemma_position_stable(s: Seq<OperandId>, x: OperandId, i: int, n: int)
    requires
        0 <= i <= n,
        first_position(s, x, i) is Some,
    ensures
        first_position(s, x, n) == first_position(s, x, i),
    decreases n - i,
{
    if i < n {
        lemma_position_stable(s, x, i, n - 1);
    }
}

proof fn lemma_find_map_stable(maps: Seq<IndexingMapModel>, op: OperandId, i: int, n: int)
    requires
        0 <= i <= n,
        find_map(maps, op, i) is Some,
    ensures
        find_map(maps, op, n) == find_map(maps, op, i),
    decreases n - i,
{
    if i < n {
        lemma_find_map_stable(maps, op, i, n - 1);
    }
}

proof fn lemma_find_map_sound(maps: Seq<IndexingMapModel>, op: OperandId, n: int)
    requires
        0 <= n <= maps.len(),
    ensures
        find_map(maps, op, n) matches Some(x) ==> 0 <= x < n && maps[x].operand == op,
    decreases n,
{
    if n > 0 {
        lemma_find_map_sound(maps, op, n - 1);
    }
}

proof fn lemma_find_map_found(maps: Seq<IndexingMapModel>, op: OperandId, i: int, n: int)
    requires
        0 <= i < n <= maps.len(),
        maps[i].operand == op,
    ensures
        find_map(maps, op, n) is Some,
        0 <= find_map(maps, op, n).unwrap() < n,
        maps[find_map(maps, op, n).unwrap()].operand == op,
    decreases n,
{
    lemma_find_map_sound(maps, op, n);
    if i < n - 1 {
        lemma_find_map_found(maps, op, i, n - 1);
    }
}

proof fn lemma_first_read_write_stable(ops: Seq<OperandModel>, i: int, n: int)
    requires
        0 <= i <= n,
        first_read_write(ops, i) is Some,
    ensures
        first_read_write(ops, n) == first_read_write(ops, i),
    decreases n - i,
{
    if i < n {
        lemma_first_read_write_stable(ops, i, n - 1);
    }
}

/// In a valid kernel every operand has a map.
proof fn lemma_valid_maps(k: KernelModel, n: int)
    requires
        0 <= n <= k.operands.len(),
        crate::validate::missing_map(k, n) is None,
    ensures
        forall|op: int| 0 <= op < n ==> #[trigger] crate::validate::has_map(k, op),
    decreases n,
{
    if n > 0 {
        lemma_valid_maps(k, n - 1);
    }
}

proof fn lemma_map_exists(k: KernelModel, op: int)
    requires
        crate::validate::kernel_valid(k),
        0 <= op < k.operands.len(),
        op <= usize::MAX,
    ensures
        find_map(k.maps, OperandId(op as usize), k.maps.len() as int) is Some,
        0 <= find_map(k.maps, OperandId(op as usize), k.maps.len() as int).unwrap() < k.maps.len(),
{
    lemma_valid_maps(k, k.operands.len() as int);
    assert(crate::validate::has_map(k, op));
    let i = choose|i: int| 0 <= i < k.maps.len() && (#[trigger] k.maps[i]).operand.0 == op;
    lemma_find_map_found(k.maps, OperandId(op as usize), i, k.maps.len() as int);
}

proof fn lemma_expand_loads(e: ScalarExpr, locals: Seq<ScalarExpr>, n: nat)
    requires
        crate::derivative_rules::loads_below(e, n),
        crate::derivative_rules::locals_below(e, locals.len()),
        forall|l: int| 0 <= l < locals.len() ==> crate::derivative_rules::loads_below(#[trigger] locals[l], n),
    ensures
        crate::derivative_rules::loads_below(expand(e, locals), n),
    decreases e,
{
    match e {
        ScalarExpr::Unary { arg, .. } => lemma_expand_loads(*arg, locals, n),
        ScalarExpr::Binary { lhs, rhs, .. } => {
            lemma_expand_loads(*lhs, locals, n);
            lemma_expand_loads(*rhs, locals, n);
        },
        ScalarExpr::Select { condition, if_true, if_false } => {
            lemma_expand_predicate_loads(*condition, locals, n);
            lemma_expand_loads(*if_true, locals, n);
            lemma_expand_loads(*if_false, locals, n);
        },
        _ => {},
    }
}

proof fn lemma_expand_predicate_loads(p: crate::ir::Predicate, locals: Seq<ScalarExpr>, n: nat)
    requires
        crate::derivative_rules::predicate_loads_below(p, n),
        crate::derivative_rules::predicate_locals_below(p, locals.len()),
        forall|l: int| 0 <= l < locals.len() ==> crate::derivative_rules::loads_below(#[trigger] locals[l], n),
    ensures
        crate::derivative_rules::predicate_loads_below(crate::derivative_rules::expand_predicate(p, locals), n),
    decreases p,
{
    match p {
        crate::ir::Predicate::Compare { lhs, rhs, .. } => {
            lemma_expand_loads(*lhs, locals, n);
            lemma_expand_loads(*rhs, locals, n);
        },
        crate::ir::Predicate::Not(value) => lemma_expand_predicate_loads(*value, locals, n),
        crate::ir::Predicate::And(lhs, rhs) | crate::ir::Predicate::Or(lhs, rhs) => {
            lemma_expand_predicate_loads(*lhs, locals, n);
            lemma_expand_predicate_loads(*rhs, locals, n);
        },
        _ => {},
    }
}

proof fn lemma_rename_loads(e: ScalarExpr, ids: Seq<OperandId>, n: nat)
    requires
        crate::derivative_rules::loads_below(e, ids.len()),
        forall|i: int| 0 <= i < ids.len() ==> (#[trigger] ids[i]).0 < n,
    ensures
        crate::derivative_rules::loads_below(rename(e, ids), n),
    decreases e,
{
    match e {
        ScalarExpr::Unary { arg, .. } => lemma_rename_loads(*arg, ids, n),
        ScalarExpr::Binary { lhs, rhs, .. } => {
            lemma_rename_loads(*lhs, ids, n);
            lemma_rename_loads(*rhs, ids, n);
        },
        ScalarExpr::Select { condition, if_true, if_false } => {
            lemma_rename_predicate_loads(*condition, ids, n);
            lemma_rename_loads(*if_true, ids, n);
            lemma_rename_loads(*if_false, ids, n);
        },
        _ => {},
    }
}

proof fn lemma_rename_predicate_loads(p: crate::ir::Predicate, ids: Seq<OperandId>, n: nat)
    requires
        crate::derivative_rules::predicate_loads_below(p, ids.len()),
        forall|i: int| 0 <= i < ids.len() ==> (#[trigger] ids[i]).0 < n,
    ensures
        crate::derivative_rules::predicate_loads_below(crate::derivative_rules::rename_predicate(p, ids), n),
    decreases p,
{
    match p {
        crate::ir::Predicate::Compare { lhs, rhs, .. } => {
            lemma_rename_loads(*lhs, ids, n);
            lemma_rename_loads(*rhs, ids, n);
        },
        crate::ir::Predicate::Not(value) => lemma_rename_predicate_loads(*value, ids, n),
        crate::ir::Predicate::And(lhs, rhs) | crate::ir::Predicate::Or(lhs, rhs) => {
            lemma_rename_predicate_loads(*lhs, ids, n);
            lemma_rename_predicate_loads(*rhs, ids, n);
        },
        _ => {},
    }
}


// ---------------------------------------------------------------------------------------------
// Building the derivative kernel
// ---------------------------------------------------------------------------------------------

/// The map of `old`, moved onto `new`.
fn remap_map(maps: &Vec<IndexingMap>, old: OperandId, new: OperandId) -> (r: IndexingMap)
    requires
        find_map(map_models(maps@), old, maps@.len() as int) is Some,
    ensures
        r@ == moved_map(map_models(maps@), old, new),
{
    let ghost models = map_models(maps@);
    let mut i: usize = 0;
    while i < maps.len()
        invariant
            i <= maps@.len(),
            models == map_models(maps@),
            find_map(models, old, maps@.len() as int) is Some,
            find_map(models, old, i as int) is None,
        decreases maps@.len() - i,
    {
        assert(models[i as int] == maps@[i as int]@);
        if maps[i].operand.0 == old.0 {
            assert(find_map(models, old, (i + 1) as int) == Some(i as int));
            proof {
                lemma_find_map_stable(models, old, (i + 1) as int, maps@.len() as int);
            }
            let mut map = maps[i].copy();
            map.operand = new;
            return map;
        }
        i = i + 1;
    }
    proof {
        assert(false);
    }
    maps[0].copy()
}

/// A derived operand named `prefix` + the primal name, with the primal's shape, region and
/// layout.
fn derive_operand(o: &KernelOperand, prefix: &str, access: AccessMode) -> (r: KernelOperand)
    ensures
        r@ == derived_operand(o@, prefix@, access),
{
    let mut name = prefix.to_owned();
    name.append(o.name.as_str());
    let mut r = o.copy();
    r.name = name;
    r.access = access;
    r
}

struct PrimalPart {
    operands: Vec<KernelOperand>,
    maps: Vec<IndexingMap>,
    ids: Vec<OperandId>,
    pairs: Vec<DerivativeOperand>,
    count: usize,
}

/// The readable primal operands, as inputs, with their maps, the renaming table, and the
/// primal/derivative table; a read-write operand is refused.
#[verifier::loop_isolation(false)]
fn readable_primal_operands(primal: &StructuredKernel) -> (r: Result<PrimalPart, DifferentiationError>)
    requires
        crate::validate::kernel_valid(primal@),
    ensures
        match r {
            Ok(part) => first_read_write(primal@.operands, primal@.operands.len() as int) is None
                && operand_models(part.operands@) == primal_operands_part(primal@)
                && map_models(part.maps@) == primal_maps_part(primal@)
                && part.ids@ == new_ids(primal@.operands)
                && part.pairs@ == primal_pairs(primal@)
                && part.count == readable_count(primal@.operands, primal@.operands.len() as int),
            Err(e) => match first_read_write(primal@.operands, primal@.operands.len() as int) {
                Some(i) => e@ == DifferentiationFailure::UnsupportedReadWriteOperand(i as usize),
                None => false,
            },
        },
{
    let ghost k = primal@;
    let ghost ops = k.operands;
    let n = primal.operands.len();
    let mut operands: Vec<KernelOperand> = Vec::new();
    let mut maps: Vec<IndexingMap> = Vec::new();
    let mut ids: Vec<OperandId> = Vec::new();
    let mut pairs: Vec<DerivativeOperand> = Vec::new();
    let mut count: usize = 0;
    let mut i: usize = 0;
    while i < n
        invariant
            i <= n,
            n == ops.len(),
            count == readable_count(ops, i as int),
            count <= i,
            first_read_write(ops, i as int) is None,
            operand_models(operands@) == readable_list(ops, i as int).map_values(|j: int| as_input(k.operands[j])),
            map_models(maps@) == readable_list(ops, i as int).map(
                |j: int, x: int| moved_map(k.maps, OperandId(x as usize), OperandId(j as usize)),
            ),
            ids@ == new_ids(ops).take(i as int),
            pairs@ == readable_list(ops, i as int).map(
                |j: int, x: int| DerivativeOperand { primal: OperandId(x as usize), derivative: OperandId(j as usize) },
            ),
        decreases n - i,
    {
        proof {
            lemma_readable_list_len(ops, i as int);
        }
        let definition = &primal.operands[i];
        assert(ops[i as int] == definition@);
        ids.push(OperandId(count));
        assert(ids@ =~= new_ids(ops).take(i + 1));
        if definition.access.can_read() {
            if let AccessMode::ReadWrite = definition.access {
                assert(first_read_write(ops, i + 1) == Some(i as int));
                proof {
                    lemma_first_read_write_stable(ops, i + 1, n as int);
                }
                return Err(DifferentiationError::UnsupportedReadWriteOperand(i));
            }
            let mut input = definition.copy();
            input.access = AccessMode::Read;
            let ghost previous_operands = operands@;
            let ghost previous_maps = maps@;
            operands.push(input);
            assert(operand_models(operands@) =~= operand_models(previous_operands).push(input@));
            proof {
                lemma_map_exists(k, i as int);
            }
            let moved = remap_map(&primal.indexing_maps, OperandId(i), OperandId(count));
            maps.push(moved);
            assert(map_models(maps@) =~= map_models(previous_maps).push(moved@));
            pairs.push(DerivativeOperand { primal: OperandId(i), derivative: OperandId(count) });
            assert(readable_list(ops, i + 1) == readable_list(ops, i as int).push(i as int));
            assert(readable_list(ops, i as int).len() == count);
            assert(operand_models(operands@) =~= readable_list(ops, i + 1).map_values(|j: int| as_input(k.operands[j])));
            assert(map_models(maps@) =~= readable_list(ops, i + 1).map(
                |j: int, x: int| moved_map(k.maps, OperandId(x as usize), OperandId(j as usize)),
            ));
            assert(pairs@ =~= readable_list(ops, i + 1).map(
                |j: int, x: int| DerivativeOperand { primal: OperandId(x as usize), derivative: OperandId(j as usize) },
            ));
            count = count + 1;
        } else {
            assert(readable_list(ops, i + 1) == readable_list(ops, i as int));
        }
        i = i + 1;
    }
    assert(new_ids(ops).take(n as int) =~= new_ids(ops));
    Ok(PrimalPart { operands, maps, ids, pairs, count })
}


proof fn lemma_expansion_locals(stmts: Seq<Statement>, n: int)
    requires
        0 <= n <= stmts.len(),
    ensures
        expansion(stmts, n).0.len() == crate::validate::let_count(stmts, n),
    decreases n,
{
    if n > 0 {
        lemma_expansion_locals(stmts, n - 1);
    }
}

/// Every store of the primal body with its locals expanded, in order.
#[verifier::loop_isolation(false)]
fn expand_stores(primal: &StructuredKernel) -> (r: Vec<(OperandId, ScalarExpr)>)
    requires
        crate::validate::kernel_valid(primal@),
    ensures
        r@ == expanded_stores(primal@),
        forall|i: int| 0 <= i < r@.len() ==> crate::derivative_rules::loads_below(
            (#[trigger] r@[i]).1,
            primal@.operands.len(),
        ),
{
    let ghost k = primal@;
    let ghost n_ops = k.operands.len();
    proof {
        crate::validate::lemma_statements_valid(k, k.statements.len() as int);
    }
    let mut locals: Vec<ScalarExpr> = Vec::new();
    let mut stores: Vec<(OperandId, ScalarExpr)> = Vec::new();
    let mut i: usize = 0;
    while i < primal.body.statements.len()
        invariant
            i <= k.statements.len(),
            (locals@, stores@) == expansion(k.statements, i as int),
            locals@.len() == crate::validate::let_count(k.statements, i as int),
            forall|l: int| 0 <= l < locals@.len() ==> crate::derivative_rules::loads_below(#[trigger] locals@[l], n_ops),
            forall|l: int| 0 <= l < stores@.len() ==> crate::derivative_rules::loads_below((#[trigger] stores@[l]).1, n_ops),
        decreases k.statements.len() - i,
    {
        let ghost count = crate::validate::let_count(k.statements, i as int);
        assert(crate::validate::statement_violation(k, i as int) is None);
        match &primal.body.statements[i] {
            Statement::Let { value, .. } => {
                proof {
                    crate::validate::lemma_expr_in_scope(*value, k, count);
                    crate::derivative_rules::lemma_scope_parts(*value, n_ops, count);
                    lemma_expand_loads(*value, locals@, n_ops);
                }
                let expanded = crate::derivative_rules::expand_locals(value, &locals);
                locals.push(expanded);
            },
            Statement::Store { operand, value } => {
                proof {
                    crate::validate::lemma_expr_in_scope(*value, k, count);
                    crate::derivative_rules::lemma_scope_parts(*value, n_ops, count);
                    lemma_expand_loads(*value, locals@, n_ops);
                }
                let expanded = crate::derivative_rules::expand_locals(value, &locals);
                stores.push((*operand, expanded));
            },
        }
        i = i + 1;
    }
    stores
}


proof fn lemma_position_sound(s: Seq<OperandId>, x: OperandId, n: int)
    requires
        0 <= n <= s.len(),
    ensures
        first_position(s, x, n) matches Some(p) ==> 0 <= p < n && s[p] == x,
    decreases n,
{
    if n > 0 {
        lemma_position_sound(s, x, n - 1);
    }
}

fn find_position(s: &Vec<OperandId>, x: OperandId) -> (r: Option<usize>)
    ensures
        match r {
            Some(p) => position(s@, x) == Some(p as int) && p < s@.len() && s@[p as int] == x,
            None => position(s@, x) is None,
        },
{
    let mut i: usize = 0;
    while i < s.len()
        invariant
            i <= s@.len(),
            first_position(s@, x, i as int) is None,
        decreases s@.len() - i,
    {
        if s[i].0 == x.0 {
            assert(s@[i as int] == x);
            proof {
                lemma_position_stable(s@, x, (i + 1) as int, s@.len() as int);
                lemma_position_sound(s@, x, s@.len() as int);
            }
            return Some(i);
        }
        i = i + 1;
    }
    None
}

/// Append the derived operands, maps and table entries for `ids`.
#[verifier::loop_isolation(false)]
fn push_derived(
    primal: &StructuredKernel,
    ids: &Vec<OperandId>,
    prefix: &str,
    access: Option<AccessMode>,
    operands: &mut Vec<KernelOperand>,
    maps: &mut Vec<IndexingMap>,
    pairs: &mut Vec<DerivativeOperand>,
)
    requires
        crate::validate::kernel_valid(primal@),
        forall|i: int| 0 <= i < ids@.len() ==> (#[trigger] ids@[i]).0 < primal@.operands.len(),
        old(operands)@.len() == old(maps)@.len(),
    ensures
        operand_models(final(operands)@) == operand_models(old(operands)@) + derived_operands(
            primal@,
            ids@,
            prefix@,
            access,
        ),
        map_models(final(maps)@) == map_models(old(maps)@) + derived_maps(primal@, ids@, old(operands)@.len() as int),
        final(pairs)@ == derived_pairs(ids@, old(operands)@.len() as int),
        final(operands)@.len() == final(maps)@.len(),
        final(operands)@.len() == old(operands)@.len() + ids@.len(),
{
    let ghost k = primal@;
    let ghost base = operands@.len();
    let ghost ops0 = operand_models(operands@);
    let ghost maps0 = map_models(maps@);
    pairs.clear();
    let mut j: usize = 0;
    while j < ids.len()
        invariant
            j <= ids@.len(),
            operands@.len() == base + j,
            maps@.len() == base + j,
            operand_models(operands@) == ops0 + derived_operands(k, ids@.take(j as int), prefix@, access),
            map_models(maps@) == maps0 + derived_maps(k, ids@.take(j as int), base as int),
            pairs@ == derived_pairs(ids@.take(j as int), base as int),
        decreases ids@.len() - j,
    {
        let id = ids[j];
        let definition = &primal.operands[id.0];
        assert(k.operands[id.0 as int] == definition@);
        let chosen = match access {
            Some(a) => a,
            None => definition.access,
        };
        let new_id = OperandId(operands.len());
        let ghost previous_operands = operands@;
        let ghost previous_maps = maps@;
        let derived = derive_operand(definition, prefix, chosen);
        operands.push(derived);
        assert(operand_models(operands@) =~= operand_models(previous_operands).push(derived@));
        proof {
            lemma_map_exists(k, id.0 as int);
        }
        let moved = remap_map(&primal.indexing_maps, id, new_id);
        maps.push(moved);
        assert(map_models(maps@) =~= map_models(previous_maps).push(moved@));
        pairs.push(DerivativeOperand { primal: id, derivative: new_id });
        assert(ids@.take(j + 1) == ids@.take(j as int).push(id));
        assert(operand_models(operands@) =~= ops0 + derived_operands(k, ids@.take(j + 1), prefix@, access));
        assert(map_models(maps@) =~= maps0 + derived_maps(k, ids@.take(j + 1), base as int));
        assert(pairs@ =~= derived_pairs(ids@.take(j + 1), base as int));
        j = j + 1;
    }
    assert(ids@.take(ids@.len() as int) =~= ids@);
}

proof fn lemma_new_ids_bounded(ops: Seq<OperandModel>)
    ensures
        forall|i: int| 0 <= i < new_ids(ops).len() ==> (#[trigger] new_ids(ops)[i]).0 < ops.len(),
{
    assert forall|i: int| 0 <= i < new_ids(ops).len() implies (#[trigger] new_ids(ops)[i]).0 < ops.len() by {
        lemma_readable_list_len(ops, i);
    }
}


#[verifier::loop_isolation(false)]
fn jvp(primal: &StructuredKernel, request: &DerivativeRequest, part: PrimalPart) -> (r: DerivativeProduct)
    requires
        crate::validate::kernel_valid(primal@),
        request_violation(primal@.operands, request@) is None,
        operand_models(part.operands@) == primal_operands_part(primal@),
        map_models(part.maps@) == primal_maps_part(primal@),
        part.ids@ == new_ids(primal@.operands),
        part.pairs@ == primal_pairs(primal@),
        part.count == readable_count(primal@.operands, primal@.operands.len() as int),
    ensures
        r@ == jvp_product(primal@, request@),
{
    let ghost k = primal@;
    let ghost req = request@;
    proof {
        lemma_request_valid(k.operands, req);
        lemma_readable_list_len(k.operands, k.operands.len() as int);
        lemma_new_ids_bounded(k.operands);
    }
    let PrimalPart { mut operands, mut maps, ids, pairs: primal_pairs_table, count } = part;
    assert(operands@.len() == count);
    let mut independent_pairs: Vec<DerivativeOperand> = Vec::new();
    push_derived(primal, &request.independent_operands, "d_", Some(AccessMode::Read), &mut operands, &mut maps, &mut independent_pairs);
    let mut dependent_pairs: Vec<DerivativeOperand> = Vec::new();
    push_derived(primal, &request.dependent_operands, "d_", None, &mut operands, &mut maps, &mut dependent_pairs);
    let total = operands.len();
    assert(total == count + request@.independent.len() + request@.dependent.len());
    let n = primal.operands.len();
    let mut tangents: Vec<Option<OperandId>> = Vec::new();
    let mut i: usize = 0;
    while i < n
        invariant
            i <= n,
            tangents@ == Seq::new(i as nat, |x: int| None::<OperandId>),
        decreases n - i,
    {
        tangents.push(None);
        i = i + 1;
        assert(tangents@ =~= Seq::new(i as nat, |x: int| None::<OperandId>));
    }
    let independent = &request.independent_operands;
    let mut j: usize = 0;
    while j < independent.len()
        invariant
            j <= independent@.len(),
            tangents@ == tangent_table(ids@, independent@, n as nat, count as int, j as int),
            tangents@.len() == n,
        decreases independent@.len() - j,
    {
        let slot = ids[independent[j].0].0;
        tangents.set(slot, Some(OperandId(count + j)));
        j = j + 1;
    }
    let stores = expand_stores(primal);
    let base = count + independent.len();
    let mut statements: Vec<Statement> = Vec::new();
    let mut s: usize = 0;
    while s < stores.len()
        invariant
            s <= stores@.len(),
            stores@ == expanded_stores(k),
            statements@ == jvp_statements(k, req, s as int),
            tangents@ == tangent_table(ids@, independent@, n as nat, count as int, independent@.len() as int),
            tangents@.len() == n,
        decreases stores@.len() - s,
    {
        let (dependent, value) = (&stores[s].0, &stores[s].1);
        match find_position(&request.dependent_operands, *dependent) {
            Some(p) => {
                proof {
                    lemma_rename_loads(*value, ids@, n as nat);
                }
                let renamed = crate::derivative_rules::remap_expr(value, &ids);
                let derived = crate::derivative_rules::derivative(&renamed, &tangents, None);
                let simplified = crate::derivative_rules::simplify_expr(derived);
                statements.push(Statement::Store { operand: OperandId(base + p), value: simplified });
            },
            None => {},
        }
        s = s + 1;
    }
    let mut name = primal.name.clone();
    name.append("::jvp");
    let kernel = StructuredKernel {
        name,
        iteration_domain: crate::ir::IterationDomain { extents: crate::ir::copy_indices(&primal.iteration_domain.extents) },
        iterators: crate::ir::copy_kinds(&primal.iterators),
        operands,
        indexing_maps: maps,
        body: crate::ir::KernelRegion { statements },
        numeric_policy: primal.numeric_policy,
    };
    let product = DerivativeProduct {
        mode: DerivativeMode::Jvp,
        kernel,
        primal_operands: primal_pairs_table,
        independent_operands: independent_pairs,
        dependent_operands: dependent_pairs,
    };
    assert(product@.kernel.operands =~= jvp_product(k, req).kernel.operands);
    assert(product@.kernel.maps =~= jvp_product(k, req).kernel.maps);
    product
}


pub open spec fn cotangent_stores(
    independent: Seq<OperandId>,
    ids: Seq<OperandId>,
    value: ScalarExpr,
    seed: int,
    base: int,
) -> Seq<Statement> {
    independent.map(
        |j: int, x: OperandId| Statement::Store {
            operand: OperandId((base + j) as usize),
            value: simplify(
                binary(
                    BinaryOp::Mul,
                    ScalarExpr::Load(OperandId(seed as usize)),
                    chain_rule(rename(value, ids), Seq::empty(), Some(ids[x.0 as int])),
                ),
            ),
        },
    )
}

#[verifier::loop_isolation(false)]
fn vjp(primal: &StructuredKernel, request: &DerivativeRequest, part: PrimalPart) -> (r: DerivativeProduct)
    requires
        crate::validate::kernel_valid(primal@),
        request_violation(primal@.operands, request@) is None,
        operand_models(part.operands@) == primal_operands_part(primal@),
        map_models(part.maps@) == primal_maps_part(primal@),
        part.ids@ == new_ids(primal@.operands),
        part.pairs@ == primal_pairs(primal@),
        part.count == readable_count(primal@.operands, primal@.operands.len() as int),
    ensures
        r@ == vjp_product(primal@, request@),
{
    let ghost k = primal@;
    let ghost req = request@;
    proof {
        lemma_request_valid(k.operands, req);
        lemma_readable_list_len(k.operands, k.operands.len() as int);
        lemma_new_ids_bounded(k.operands);
    }
    let PrimalPart { mut operands, mut maps, ids, pairs: primal_pairs_table, count } = part;
    assert(operands@.len() == count);
    let mut dependent_pairs: Vec<DerivativeOperand> = Vec::new();
    push_derived(primal, &request.dependent_operands, "bar_", Some(AccessMode::Read), &mut operands, &mut maps, &mut dependent_pairs);
    let mut independent_pairs: Vec<DerivativeOperand> = Vec::new();
    push_derived(primal, &request.independent_operands, "bar_", Some(AccessMode::Reduce(ReductionOp::Add)), &mut operands, &mut maps, &mut independent_pairs);
    let total = operands.len();
    assert(total == count + request@.independent.len() + request@.dependent.len());
    let n = primal.operands.len();
    let no_tangents: Vec<Option<OperandId>> = Vec::new();
    let independent = &request.independent_operands;
    let stores = expand_stores(primal);
    let base = count + request.dependent_operands.len();
    let mut statements: Vec<Statement> = Vec::new();
    let mut s: usize = 0;
    while s < stores.len()
        invariant
            s <= stores@.len(),
            stores@ == expanded_stores(k),
            statements@ == vjp_statements(k, req, s as int),
        decreases stores@.len() - s,
    {
        let (dependent, value) = (&stores[s].0, &stores[s].1);
        match find_position(&request.dependent_operands, *dependent) {
            Some(p) => {
                let ghost previous = statements@;
                proof {
                    lemma_rename_loads(*value, ids@, n as nat);
                }
                let renamed = crate::derivative_rules::remap_expr(value, &ids);
                let mut j: usize = 0;
                while j < independent.len()
                    invariant
                        j <= independent@.len(),
                        statements@ == previous + cotangent_stores(independent@.take(j as int), ids@, *value, count + p, base as int),
                    decreases independent@.len() - j,
                {
                    let target = ids[independent[j].0];
                    let partial = crate::derivative_rules::derivative(&renamed, &no_tangents, Some(target));
                    let product = crate::derivative_rules::simplify_expr(
                        ScalarExpr::binary(BinaryOp::Mul, ScalarExpr::Load(OperandId(count + p)), partial),
                    );
                    statements.push(Statement::Store { operand: OperandId(base + j), value: product });
                    assert(independent@.take(j + 1) == independent@.take(j as int).push(independent@[j as int]));
                    assert(statements@ =~= previous + cotangent_stores(independent@.take(j + 1), ids@, *value, count + p, base as int));
                    j = j + 1;
                }
                assert(independent@.take(independent@.len() as int) =~= independent@);
                assert(no_tangents@ =~= Seq::<Option<OperandId>>::empty());
            },
            None => {},
        }
        s = s + 1;
    }
    let mut name = primal.name.clone();
    name.append("::vjp");
    let kernel = StructuredKernel {
        name,
        iteration_domain: crate::ir::IterationDomain { extents: crate::ir::copy_indices(&primal.iteration_domain.extents) },
        iterators: crate::ir::copy_kinds(&primal.iterators),
        operands,
        indexing_maps: maps,
        body: crate::ir::KernelRegion { statements },
        numeric_policy: primal.numeric_policy,
    };
    let product = DerivativeProduct {
        mode: DerivativeMode::Vjp,
        kernel,
        primal_operands: primal_pairs_table,
        independent_operands: independent_pairs,
        dependent_operands: dependent_pairs,
    };
    assert(product@.kernel.operands =~= vjp_product(k, req).kernel.operands);
    assert(product@.kernel.maps =~= vjp_product(k, req).kernel.maps);
    product
}

/// Differentiate a structurally valid primal kernel into another structured kernel.
///
/// The primal and the request are validated first; a Jacobian request and a read-write
/// primal operand are refused; the derivative kernel is validated before it is returned.
pub fn differentiate(primal: &StructuredKernel, request: &DerivativeRequest) -> (r: Result<
    DerivativeProduct,
    DifferentiationError,
>)
    ensures
        match r {
            Ok(product) => differentiation(primal@, request@) == Ok::<ProductModel, DifferentiationFailure>(product@),
            Err(e) => differentiation(primal@, request@) == Err::<ProductModel, DifferentiationFailure>(e@),
        },
{
    match crate::validate::check_kernel(primal) {
        Ok(_) => {},
        Err(e) => {
            return Err(DifferentiationError::InvalidPrimal(e));
        },
    }
    match check_request(&primal.operands, request) {
        Ok(_) => {},
        Err(e) => {
            return Err(e);
        },
    }
    if let DerivativeMode::Jacobian = request.mode {
        return Err(DifferentiationError::UnsupportedMode(DerivativeMode::Jacobian));
    }
    let part = match readable_primal_operands(primal) {
        Ok(part) => part,
        Err(e) => {
            return Err(e);
        },
    };
    let product = match request.mode {
        DerivativeMode::Jvp => jvp(primal, request, part),
        _ => vjp(primal, request, part),
    };
    match crate::validate::check_kernel(&product.kernel) {
        Ok(_) => Ok(product),
        Err(e) => Err(DifferentiationError::InvalidDerivative(e)),
    }
}

/// The operand tables of a derivative product tile its operands: the readable primal operands
/// come first, then the direction (JVP) or seed (VJP) operands, then the tangent (JVP) or
/// cotangent (VJP) operands, each table numbering its derivative operands consecutively and
/// naming primal operands that exist.
pub proof fn lemma_product_tables(k: KernelModel, req: RequestModel)
    requires
        differentiation(k, req) is Ok,
    ensures
        ({
            let p = differentiation(k, req)->Ok_0;
            let np = p.primal_operands.len();
            let ni = p.independent_operands.len();
            let nd = p.dependent_operands.len();
            let (bi, bd) = if p.mode is Jvp { (np, np + ni) } else { (np + nd, np) };
            &&& np + ni + nd == p.kernel.operands.len()
            &&& p.mode is Jvp || p.mode is Vjp
            &&& forall|j: int| 0 <= j < np ==> (#[trigger] p.primal_operands[j]).derivative.0 == j
                && p.primal_operands[j].primal.0 < k.operands.len()
            &&& forall|j: int| 0 <= j < ni ==> (#[trigger] p.independent_operands[j]).derivative.0 == bi + j
                && p.independent_operands[j].primal.0 < k.operands.len()
            &&& forall|j: int| 0 <= j < nd ==> (#[trigger] p.dependent_operands[j]).derivative.0 == bd + j
                && p.dependent_operands[j].primal.0 < k.operands.len()
        }),
{
    lemma_request_valid(k.operands, req);
    lemma_readable_list_len(k.operands, k.operands.len() as int);
}


proof fn lemma_readable_list_complete(ops: Seq<OperandModel>, n: int, i: int)
    requires
        0 <= i < n <= ops.len(),
        ops[i].access.readable(),
    ensures
        exists|j: int| 0 <= j < readable_list(ops, n).len() && #[trigger] readable_list(ops, n)[j] == i,
    decreases n,
{
    lemma_readable_list_len(ops, n);
    if i < n - 1 {
        lemma_readable_list_complete(ops, n - 1, i);
        let j = choose|j: int| 0 <= j < readable_list(ops, n - 1).len() && #[trigger] readable_list(ops, n - 1)[j] == i;
        if ops[n - 1].access.readable() {
            assert(readable_list(ops, n)[j] == i);
        }
    } else {
        assert(readable_list(ops, n)[readable_list(ops, n - 1).len() as int] == i);
        lemma_readable_list_len(ops, n - 1);
    }
}

/// The operand tables of a derivative product name what was asked: the primal table pairs
/// every readable primal operand, the independent and dependent tables pair the requested
/// operands in request order.
pub proof fn lemma_product_pairs(k: KernelModel, req: RequestModel)
    requires
        differentiation(k, req) is Ok,
    ensures
        ({
            let p = differentiation(k, req)->Ok_0;
            &&& forall|i: int|
                0 <= i < k.operands.len() && k.operands[i].access.readable() ==> exists|j: int|
                    0 <= j < p.primal_operands.len() && (#[trigger] p.primal_operands[j]).primal == OperandId(i as usize)
            &&& p.independent_operands.len() == req.independent.len()
            &&& forall|j: int| 0 <= j < req.independent.len() ==> (#[trigger] p.independent_operands[j]).primal == req.independent[j]
            &&& p.dependent_operands.len() == req.dependent.len()
            &&& forall|j: int| 0 <= j < req.dependent.len() ==> (#[trigger] p.dependent_operands[j]).primal == req.dependent[j]
        }),
{
    let p = differentiation(k, req)->Ok_0;
    lemma_readable_list_len(k.operands, k.operands.len() as int);
    assert forall|i: int| 0 <= i < k.operands.len() && k.operands[i].access.readable() implies exists|j: int|
        0 <= j < p.primal_operands.len() && (#[trigger] p.primal_operands[j]).primal == OperandId(i as usize) by {
        lemma_readable_list_complete(k.operands, k.operands.len() as int, i);
        let j = choose|j: int|
            0 <= j < readable_list(k.operands, k.operands.len() as int).len() && #[trigger] readable_list(
                k.operands,
                k.operands.len() as int,
            )[j] == i;
        assert(p.primal_operands[j].primal == OperandId(i as usize));
    }
}

} // verus!
