//! Facet-pair (two-sided trace) kernels.
//!
//! A facet-pair kernel is an ordinary point kernel evaluated at one quadrature point of an
//! interior or interface facet, whose operands carry a side role: trace data owned by the
//! `Minus` cell, trace data owned by the `Plus` cell, or data native to the facet itself. The
//! only orientation convention fixed here is that facet-native `Odd` data (the unit normal
//! above all) is oriented from the minus cell towards the plus cell, so relabelling the two
//! cells negates it.
//!
//! Because the minus/plus labelling is arbitrary, a well-formed facet-pair kernel is covariant
//! under swapping the sides: feeding it the plus data in the minus slots (and vice versa) with
//! odd facet data negated must reproduce the side outputs swapped and the facet outputs
//! multiplied by their declared parity. The swap itself is planned here; executing it is the
//! job of an interpreter.
use vstd::prelude::*;

use crate::differentiate::{differentiate, differentiation, DifferentiationError, DifferentiationFailure, ProductModel};
use crate::interpreter::ExecutionError;
use crate::ir::{
    AccessMode, DerivativeOperand, DerivativeProduct, DerivativeRequest, KernelModel, OperandId,
    OperandModel, ReductionOp, StructuredKernel, operand_models,
};
use crate::validate::{kernel_valid, kernel_violation, ValidatedKernel, ValidationError, Violation};

verus! {

/// Schema of the payload behind the facet-pair digest.
pub const FACET_PAIR_KERNEL_SCHEMA: &'static str = "malleus-facet-pair-kernel/1";

/// The orientation convention every `Odd` facet operand follows.
pub const FACET_NORMAL_CONVENTION: &'static str = "minus_to_plus";

/// The adjacent cell that owns a trace operand.
#[derive(Clone, Copy, Debug, PartialEq, Eq, PartialOrd, Ord, Hash, Structural)]
pub enum FacetSide {
    Minus,
    Plus,
}

impl FacetSide {
    pub open spec fn other(self) -> FacetSide {
        match self {
            FacetSide::Minus => FacetSide::Plus,
            FacetSide::Plus => FacetSide::Minus,
        }
    }

    pub fn opposite(self) -> (side: Self)
        ensures
            side == self.other(),
    {
        match self {
            FacetSide::Minus => FacetSide::Plus,
            FacetSide::Plus => FacetSide::Minus,
        }
    }
}

/// How facet-native data transforms when the two sides are relabelled.
#[derive(Clone, Copy, Debug, PartialEq, Eq, PartialOrd, Ord, Hash, Structural)]
pub enum SwapParity {
    Even,
    Odd,
}

/// The side role of one operand of a facet-pair kernel.
#[derive(Clone, Copy, Debug, PartialEq, Eq, Structural)]
pub enum FacetOperandRole {
    /// Data owned by one adjacent cell. `partner` names the same datum owned by the opposite
    /// cell when the kernel carries both.
    Cell { side: FacetSide, partner: Option<OperandId> },
    /// Data native to the facet: coordinates, measure and even-parity outputs are `Even`; the
    /// unit normal oriented from minus to plus and every quantity that flips with it are `Odd`.
    Facet { parity: SwapParity },
}

/// A point kernel with a side role for every operand.
#[derive(Clone, Debug, PartialEq, Eq)]
pub struct FacetPairKernel {
    pub kernel: StructuredKernel,
    pub roles: Vec<FacetOperandRole>,
}

#[derive(Clone, Debug, PartialEq, Eq)]
pub enum FacetPairError {
    Kernel(ValidationError),
    RoleCount { expected: usize, actual: usize },
    MissingSide(FacetSide),
    InvalidPartner { operand: usize, partner: usize },
    SelfPartner(usize),
    PartnerSide { operand: usize, partner: usize },
    PartnerAsymmetric { operand: usize, partner: usize },
    PartnerShape { operand: usize, partner: usize },
    PartnerAccess { operand: usize, partner: usize },
    /// An odd facet output reduced with anything but addition has no swap image.
    OddReduction(usize),
}

/// The mathematical content of a [`FacetPairError`].
pub enum FacetFailure {
    Kernel(Violation),
    RoleCount { expected: usize, actual: usize },
    MissingSide(FacetSide),
    InvalidPartner { operand: usize, partner: usize },
    SelfPartner(usize),
    PartnerSide { operand: usize, partner: usize },
    PartnerAsymmetric { operand: usize, partner: usize },
    PartnerShape { operand: usize, partner: usize },
    PartnerAccess { operand: usize, partner: usize },
    OddReduction(usize),
}

impl View for FacetPairError {
    type V = FacetFailure;

    open spec fn view(&self) -> FacetFailure {
        match self {
            FacetPairError::Kernel(e) => FacetFailure::Kernel(e@),
            FacetPairError::RoleCount { expected, actual } => FacetFailure::RoleCount {
                expected: *expected,
                actual: *actual,
            },
            FacetPairError::MissingSide(side) => FacetFailure::MissingSide(*side),
            FacetPairError::InvalidPartner { operand, partner } => FacetFailure::InvalidPartner {
                operand: *operand,
                partner: *partner,
            },
            FacetPairError::SelfPartner(i) => FacetFailure::SelfPartner(*i),
            FacetPairError::PartnerSide { operand, partner } => FacetFailure::PartnerSide {
                operand: *operand,
                partner: *partner,
            },
            FacetPairError::PartnerAsymmetric { operand, partner } =>
                FacetFailure::PartnerAsymmetric { operand: *operand, partner: *partner },
            FacetPairError::PartnerShape { operand, partner } => FacetFailure::PartnerShape {
                operand: *operand,
                partner: *partner,
            },
            FacetPairError::PartnerAccess { operand, partner } => FacetFailure::PartnerAccess {
                operand: *operand,
                partner: *partner,
            },
            FacetPairError::OddReduction(i) => FacetFailure::OddReduction(*i),
        }
    }
}

// ---------------------------------------------------------------------------------------------
// Role validation
// ---------------------------------------------------------------------------------------------
/// Whether a role is cell data owned by `side`.
pub open spec fn owned_by(role: FacetOperandRole, side: FacetSide) -> bool {
    match role {
        FacetOperandRole::Cell { side: own, .. } => own == side,
        FacetOperandRole::Facet { .. } => false,
    }
}

pub open spec fn has_side(roles: Seq<FacetOperandRole>, side: FacetSide) -> bool {
    exists|i: int| 0 <= i < roles.len() && owned_by(#[trigger] roles[i], side)
}

/// Two operands hold the same kind of buffer: shape, layout and region agree.
pub open spec fn same_buffer(a: OperandModel, b: OperandModel) -> bool {
    a.shape == b.shape && a.layout == b.layout && a.region == b.region
}

/// The violation of the role of operand `index`, if any.
pub open spec fn role_violation(ops: Seq<OperandModel>, roles: Seq<FacetOperandRole>, index: int) -> Option<FacetFailure> {
    match roles[index] {
        FacetOperandRole::Cell { side, partner: Some(partner) } => {
            let p = partner.0;
            let i = index as usize;
            if p == i {
                Some(FacetFailure::SelfPartner(i))
            } else if p >= roles.len() {
                Some(FacetFailure::InvalidPartner { operand: i, partner: p })
            } else {
                match roles[p as int] {
                    FacetOperandRole::Cell { side: partner_side, partner: back } => {
                        if partner_side != side.other() {
                            Some(FacetFailure::PartnerSide { operand: i, partner: p })
                        } else if back != Some(OperandId(i)) {
                            Some(FacetFailure::PartnerAsymmetric { operand: i, partner: p })
                        } else if !same_buffer(ops[index], ops[p as int]) {
                            Some(FacetFailure::PartnerShape { operand: i, partner: p })
                        } else if ops[index].access != ops[p as int].access {
                            Some(FacetFailure::PartnerAccess { operand: i, partner: p })
                        } else {
                            None
                        }
                    },
                    FacetOperandRole::Facet { .. } => Some(
                        FacetFailure::PartnerSide { operand: i, partner: p },
                    ),
                }
            }
        },
        FacetOperandRole::Cell { partner: None, .. } => None,
        FacetOperandRole::Facet { parity: SwapParity::Odd } => match ops[index].access {
            AccessMode::Reduce(op) => if op is Add {
                None
            } else {
                Some(FacetFailure::OddReduction(index as usize))
            },
            _ => None,
        },
        FacetOperandRole::Facet { parity: SwapParity::Even } => None,
    }
}

pub open spec fn roles_violation_upto(ops: Seq<OperandModel>, roles: Seq<FacetOperandRole>, n: int) -> Option<FacetFailure>
    decreases n,
{
    if n <= 0 {
        None
    } else {
        match roles_violation_upto(ops, roles, n - 1) {
            Some(f) => Some(f),
            None => role_violation(ops, roles, n - 1),
        }
    }
}

/// The first violation of a role table against the operands of its kernel.
pub open spec fn roles_violation(ops: Seq<OperandModel>, roles: Seq<FacetOperandRole>) -> Option<FacetFailure> {
    if roles.len() != ops.len() {
        Some(FacetFailure::RoleCount { expected: ops.len() as usize, actual: roles.len() as usize })
    } else if !has_side(roles, FacetSide::Minus) {
        Some(FacetFailure::MissingSide(FacetSide::Minus))
    } else if !has_side(roles, FacetSide::Plus) {
        Some(FacetFailure::MissingSide(FacetSide::Plus))
    } else {
        roles_violation_upto(ops, roles, roles.len() as int)
    }
}

proof fn lemma_roles_violation_stable(ops: Seq<OperandModel>, roles: Seq<FacetOperandRole>, i: int, n: int)
    requires
        0 <= i <= n,
        roles_violation_upto(ops, roles, i) is Some,
    ensures
        roles_violation_upto(ops, roles, n) == roles_violation_upto(ops, roles, i),
    decreases n - i,
{
    if i < n {
        lemma_roles_violation_stable(ops, roles, i, n - 1);
    }
}

proof fn lemma_roles_valid_upto(ops: Seq<OperandModel>, roles: Seq<FacetOperandRole>, n: int)
    requires
        0 <= n <= roles.len(),
        roles_violation_upto(ops, roles, n) is None,
    ensures
        forall|i: int| 0 <= i < n ==> role_violation(ops, roles, i) is None,
    decreases n,
{
    if n > 0 {
        lemma_roles_valid_upto(ops, roles, n - 1);
    }
}

/// Side pairing is an involution: in a valid role table the partner of an operand's partner
/// is the operand itself, on the opposite side, over a buffer of the same kind and access.
pub proof fn lemma_partner_involution(ops: Seq<OperandModel>, roles: Seq<FacetOperandRole>, i: int)
    requires
        roles_violation(ops, roles) is None,
        0 <= i < roles.len(),
        roles[i] matches FacetOperandRole::Cell { partner: Some(_), .. },
    ensures
        ({
            let (side, p) = match roles[i] {
                FacetOperandRole::Cell { side, partner } => (side, partner.unwrap().0 as int),
                _ => (FacetSide::Minus, 0),
            };
            &&& 0 <= p < roles.len()
            &&& p != i
            &&& roles[p] == FacetOperandRole::Cell { side: side.other(), partner: Some(OperandId(i as usize)) }
            &&& same_buffer(ops[i], ops[p])
            &&& ops[i].access == ops[p].access
        }),
{
    lemma_roles_valid_upto(ops, roles, roles.len() as int);
    assert(role_violation(ops, roles, i) is None);
}

fn check_role(ops: &Vec<crate::ir::KernelOperand>, roles: &Vec<FacetOperandRole>, index: usize) -> (r: Result<(), FacetPairError>)
    requires
        index < roles@.len(),
        roles@.len() == ops@.len(),
    ensures
        match r {
            Ok(_) => role_violation(operand_models(ops@), roles@, index as int) is None,
            Err(e) => role_violation(operand_models(ops@), roles@, index as int) == Some(e@),
        },
{
    let ghost models = operand_models(ops@);
    match roles[index] {
        FacetOperandRole::Cell { side, partner: Some(partner) } => {
            let p = partner.0;
            if p == index {
                return Err(FacetPairError::SelfPartner(index));
            }
            if p >= roles.len() {
                return Err(FacetPairError::InvalidPartner { operand: index, partner: p });
            }
            match roles[p] {
                FacetOperandRole::Cell { side: partner_side, partner: back } => {
                    if partner_side != side.opposite() {
                        return Err(FacetPairError::PartnerSide { operand: index, partner: p });
                    }
                    let symmetric = match back {
                        Some(b) => b.0 == index,
                        None => false,
                    };
                    if !symmetric {
                        return Err(FacetPairError::PartnerAsymmetric { operand: index, partner: p });
                    }
                },
                FacetOperandRole::Facet { .. } => {
                    return Err(FacetPairError::PartnerSide { operand: index, partner: p });
                },
            }
            let own = &ops[index];
            let other = &ops[p];
            assert(models[index as int] == own@);
            assert(models[p as int] == other@);
            let same_shape = crate::validate::indices_equal(&own.shape, &other.shape);
            let same_layout = crate::validate::indices_equal(&own.layout.minor_to_major, &other.layout.minor_to_major);
            if !same_shape || !same_layout || own.region != other.region {
                return Err(FacetPairError::PartnerShape { operand: index, partner: p });
            }
            if own.access != other.access {
                return Err(FacetPairError::PartnerAccess { operand: index, partner: p });
            }
            Ok(())
        },
        FacetOperandRole::Cell { partner: None, .. } => Ok(()),
        FacetOperandRole::Facet { parity: SwapParity::Odd } => {
            assert(models[index as int] == ops@[index as int]@);
            match ops[index].access {
                AccessMode::Reduce(ReductionOp::Add) => Ok(()),
                AccessMode::Reduce(_) => Err(FacetPairError::OddReduction(index)),
                _ => Ok(()),
            }
        },
        FacetOperandRole::Facet { parity: SwapParity::Even } => Ok(()),
    }
}

fn side_present(roles: &Vec<FacetOperandRole>, side: FacetSide) -> (r: bool)
    ensures
        r == has_side(roles@, side),
{
    let mut i: usize = 0;
    while i < roles.len()
        invariant
            i <= roles@.len(),
            forall|j: int| 0 <= j < i ==> !owned_by(#[trigger] roles@[j], side),
        decreases roles@.len() - i,
    {
        if let FacetOperandRole::Cell { side: own, .. } = roles[i] {
            if own == side {
                return true;
            }
        }
        i = i + 1;
    }
    false
}

/// Check a role table against the operands of its kernel.
pub fn validate_roles(kernel: &StructuredKernel, roles: &Vec<FacetOperandRole>) -> (r: Result<(), FacetPairError>)
    ensures
        match r {
            Ok(_) => roles_violation(kernel@.operands, roles@) is None,
            Err(e) => roles_violation(kernel@.operands, roles@) == Some(e@),
        },
{
    if roles.len() != kernel.operands.len() {
        return Err(FacetPairError::RoleCount { expected: kernel.operands.len(), actual: roles.len() });
    }
    if !side_present(roles, FacetSide::Minus) {
        return Err(FacetPairError::MissingSide(FacetSide::Minus));
    }
    if !side_present(roles, FacetSide::Plus) {
        return Err(FacetPairError::MissingSide(FacetSide::Plus));
    }
    let mut i: usize = 0;
    while i < roles.len()
        invariant
            i <= roles@.len(),
            roles@.len() == kernel.operands@.len(),
            roles_violation_upto(kernel@.operands, roles@, i as int) is None,
            has_side(roles@, FacetSide::Minus),
            has_side(roles@, FacetSide::Plus),
        decreases roles@.len() - i,
    {
        match check_role(&kernel.operands, roles, i) {
            Ok(_) => {},
            Err(e) => {
                proof {
                    assert(roles_violation_upto(kernel@.operands, roles@, (i + 1) as int) == Some(e@));
                    lemma_roles_violation_stable(kernel@.operands, roles@, (i + 1) as int, roles@.len() as int);
                }
                return Err(e);
            },
        }
        i = i + 1;
    }
    Ok(())
}


// ---------------------------------------------------------------------------------------------
// Validated facet-pair kernels
// ---------------------------------------------------------------------------------------------
/// What validating a facet-pair kernel finds first: a kernel violation, else a role violation.
pub open spec fn facet_pair_violation(k: KernelModel, roles: Seq<FacetOperandRole>) -> Option<FacetFailure> {
    match kernel_violation(k) {
        Some(v) => Some(FacetFailure::Kernel(v)),
        None => roles_violation(k.operands, roles),
    }
}

fn copy_roles(roles: &Vec<FacetOperandRole>) -> (r: Vec<FacetOperandRole>)
    ensures
        r@ == roles@,
{
    let mut out: Vec<FacetOperandRole> = Vec::new();
    let mut i: usize = 0;
    while i < roles.len()
        invariant
            i <= roles@.len(),
            out@ == roles@.take(i as int),
        decreases roles@.len() - i,
    {
        out.push(roles[i]);
        i = i + 1;
        assert(out@ =~= roles@.take(i as int));
    }
    assert(roles@.take(roles@.len() as int) =~= roles@);
    out
}

/// A facet-pair kernel whose inner kernel and roles passed [`validate_facet_pair`].
#[derive(Debug, PartialEq, Eq)]
pub struct ValidatedFacetPairKernel {
    kernel: ValidatedKernel,
    roles: Vec<FacetOperandRole>,
}

impl ValidatedFacetPairKernel {
    #[verifier::type_invariant]
    spec fn well_formed(self) -> bool {
        roles_violation(self.kernel.inner()@.operands, self.roles@) is None
    }

    pub closed spec fn kernel_spec(self) -> StructuredKernel {
        self.kernel.inner()
    }

    pub closed spec fn roles_spec(self) -> Seq<FacetOperandRole> {
        self.roles@
    }

    pub fn kernel(&self) -> (k: &ValidatedKernel)
        ensures
            k.inner() == self.kernel_spec(),
    {
        &self.kernel
    }

    pub fn roles(&self) -> (roles: &[FacetOperandRole])
        ensures
            roles@ == self.roles_spec(),
            roles_violation(self.kernel_spec()@.operands, roles@) is None,
    {
        proof {
            use_type_invariant(self);
        }
        self.roles.as_slice()
    }

    pub fn into_parts(self) -> (parts: (ValidatedKernel, Vec<FacetOperandRole>))
        ensures
            parts.0.inner() == self.kernel_spec(),
            parts.1@ == self.roles_spec(),
            roles_violation(parts.0.inner()@.operands, parts.1@) is None,
    {
        proof {
            use_type_invariant(&self);
        }
        (self.kernel, self.roles)
    }

    /// A copy with the same kernel and roles.
    pub fn copy(&self) -> (v: Self)
        ensures
            v.kernel_spec()@ == self.kernel_spec()@,
            v.roles_spec() == self.roles_spec(),
    {
        proof {
            use_type_invariant(self);
        }
        ValidatedFacetPairKernel { kernel: self.kernel.copy(), roles: copy_roles(&self.roles) }
    }
}

impl Clone for ValidatedFacetPairKernel {
    fn clone(&self) -> (v: Self)
        ensures
            v.kernel_spec()@ == self.kernel_spec()@,
            v.roles_spec() == self.roles_spec(),
    {
        self.copy()
    }
}

/// Validate the inner kernel, then the roles against it.
pub fn validate_facet_pair(kernel: FacetPairKernel) -> (r: Result<ValidatedFacetPairKernel, FacetPairError>)
    ensures
        match r {
            Ok(v) => facet_pair_violation(kernel.kernel@, kernel.roles@) is None && v.kernel_spec() == kernel.kernel
                && v.roles_spec() == kernel.roles@,
            Err(e) => facet_pair_violation(kernel.kernel@, kernel.roles@) == Some(e@),
        },
{
    let FacetPairKernel { kernel: inner, roles } = kernel;
    let validated = match crate::validate::validate(inner) {
        Ok(v) => v,
        Err(e) => {
            return Err(FacetPairError::Kernel(e));
        },
    };
    match validate_roles(validated.as_kernel(), &roles) {
        Ok(_) => {},
        Err(e) => {
            return Err(e);
        },
    }
    Ok(ValidatedFacetPairKernel { kernel: validated, roles })
}

// ---------------------------------------------------------------------------------------------
// Derivatives
// ---------------------------------------------------------------------------------------------
/// A derivative kernel of a facet-pair kernel with a side role for every operand.
///
/// Derivative operands inherit the role of their primal operand; a partner survives only when
/// the partner's derivative operand exists in the same product (both sides requested).
#[derive(Clone, Debug, PartialEq, Eq)]
pub struct FacetPairDerivativeProduct {
    pub product: DerivativeProduct,
    pub roles: Vec<FacetOperandRole>,
}

impl FacetPairDerivativeProduct {
    pub fn into_facet_pair(self) -> (k: FacetPairKernel)
        ensures
            k.kernel == self.product.kernel,
            k.roles == self.roles,
    {
        FacetPairKernel { kernel: self.product.kernel, roles: self.roles }
    }
}

#[derive(Clone, Debug, PartialEq, Eq)]
pub enum FacetPairDifferentiationError {
    InvalidPrimal(FacetPairError),
    Differentiation(DifferentiationError),
    InvalidDerivative(FacetPairError),
}

/// The mathematical content of a [`FacetPairDifferentiationError`].
pub enum FacetDifferentiationFailure {
    InvalidPrimal(FacetFailure),
    Differentiation(DifferentiationFailure),
    InvalidDerivative(FacetFailure),
}

impl View for FacetPairDifferentiationError {
    type V = FacetDifferentiationFailure;

    open spec fn view(&self) -> FacetDifferentiationFailure {
        match self {
            FacetPairDifferentiationError::InvalidPrimal(e) => FacetDifferentiationFailure::InvalidPrimal(e@),
            FacetPairDifferentiationError::Differentiation(e) => FacetDifferentiationFailure::Differentiation(e@),
            FacetPairDifferentiationError::InvalidDerivative(e) => FacetDifferentiationFailure::InvalidDerivative(e@),
        }
    }
}

/// The derivative operand of the last pair among the first `n` of `table` whose primal
/// operand is `primal`.
pub open spec fn table_lookup(table: Seq<DerivativeOperand>, primal: OperandId, n: int) -> Option<OperandId>
    decreases n,
{
    if n <= 0 {
        None
    } else if table[n - 1].primal == primal {
        Some(table[n - 1].derivative)
    } else {
        table_lookup(table, primal, n - 1)
    }
}

/// The role a derivative operand inherits: the same side or parity, with the partner renamed
/// through the same table, and dropped where the partner has no operand there.
pub open spec fn inherited(role: FacetOperandRole, table: Seq<DerivativeOperand>) -> FacetOperandRole {
    match role {
        FacetOperandRole::Cell { side, partner } => FacetOperandRole::Cell {
            side,
            partner: match partner {
                Some(p) => table_lookup(table, p, table.len() as int),
                None => None,
            },
        },
        FacetOperandRole::Facet { parity } => FacetOperandRole::Facet { parity },
    }
}

/// The slots after the first `n` pairs of `table` gave their derivative operands a role.
pub open spec fn assign_table(
    slots: Seq<Option<FacetOperandRole>>,
    roles: Seq<FacetOperandRole>,
    table: Seq<DerivativeOperand>,
    n: int,
) -> Seq<Option<FacetOperandRole>>
    decreases n,
{
    if n <= 0 {
        slots
    } else {
        assign_table(slots, roles, table, n - 1).update(
            table[n - 1].derivative.0 as int,
            Some(inherited(roles[table[n - 1].primal.0 as int], table)),
        )
    }
}

/// The role slot of every operand of a derivative product, filled table by table.
pub open spec fn role_slots(roles: Seq<FacetOperandRole>, p: ProductModel) -> Seq<Option<FacetOperandRole>> {
    let empty = Seq::new(p.kernel.operands.len(), |i: int| None::<FacetOperandRole>);
    let a = assign_table(empty, roles, p.primal_operands, p.primal_operands.len() as int);
    let b = assign_table(a, roles, p.independent_operands, p.independent_operands.len() as int);
    assign_table(b, roles, p.dependent_operands, p.dependent_operands.len() as int)
}

/// The roles of a derivative product's operands.
pub open spec fn derivative_roles(roles: Seq<FacetOperandRole>, p: ProductModel) -> Seq<FacetOperandRole> {
    role_slots(roles, p).map_values(|slot: Option<FacetOperandRole>| slot.unwrap())
}

/// What differentiating a facet-pair kernel owes: the primal roles are checked, the kernel is
/// differentiated, and the derivative operands' inherited roles are checked in turn.
pub open spec fn facet_differentiation(k: KernelModel, roles: Seq<FacetOperandRole>, req: crate::differentiate::RequestModel) -> Result<
    (ProductModel, Seq<FacetOperandRole>),
    FacetDifferentiationFailure,
> {
    match roles_violation(k.operands, roles) {
        Some(f) => Err(FacetDifferentiationFailure::InvalidPrimal(f)),
        None => match differentiation(k, req) {
            Err(f) => Err(FacetDifferentiationFailure::Differentiation(f)),
            Ok(p) => {
                let derived = derivative_roles(roles, p);
                match roles_violation(p.kernel.operands, derived) {
                    Some(f) => Err(FacetDifferentiationFailure::InvalidDerivative(f)),
                    None => Ok((p, derived)),
                }
            },
        },
    }
}

fn table_lookup_exec(table: &Vec<DerivativeOperand>, primal: OperandId) -> (r: Option<OperandId>)
    ensures
        r == table_lookup(table@, primal, table@.len() as int),
{
    let mut found: Option<OperandId> = None;
    let mut j: usize = 0;
    while j < table.len()
        invariant
            j <= table@.len(),
            found == table_lookup(table@, primal, j as int),
        decreases table@.len() - j,
    {
        if table[j].primal == primal {
            found = Some(table[j].derivative);
        }
        j = j + 1;
    }
    found
}

fn inherit_role(role: FacetOperandRole, table: &Vec<DerivativeOperand>) -> (r: FacetOperandRole)
    ensures
        r == inherited(role, table@),
{
    match role {
        FacetOperandRole::Cell { side, partner } => FacetOperandRole::Cell {
            side,
            partner: match partner {
                Some(p) => table_lookup_exec(table, p),
                None => None,
            },
        },
        FacetOperandRole::Facet { parity } => FacetOperandRole::Facet { parity },
    }
}

fn assign_roles(slots: &mut Vec<Option<FacetOperandRole>>, roles: &Vec<FacetOperandRole>, table: &Vec<DerivativeOperand>)
    requires
        forall|j: int|
            0 <= j < table@.len() ==> (#[trigger] table@[j]).derivative.0 < old(slots)@.len() && table@[j].primal.0
                < roles@.len(),
    ensures
        final(slots)@ == assign_table(old(slots)@, roles@, table@, table@.len() as int),
        final(slots)@.len() == old(slots)@.len(),
        forall|i: int| 0 <= i < old(slots)@.len() && old(slots)@[i] is Some ==> final(slots)@[i] is Some,
        forall|j: int| 0 <= j < table@.len() ==> final(slots)@[(#[trigger] table@[j]).derivative.0 as int] is Some,
{
    let ghost start = slots@;
    let mut j: usize = 0;
    while j < table.len()
        invariant
            j <= table@.len(),
            slots@.len() == start.len(),
            forall|a: int|
                0 <= a < table@.len() ==> (#[trigger] table@[a]).derivative.0 < start.len() && table@[a].primal.0
                    < roles@.len(),
            slots@ == assign_table(start, roles@, table@, j as int),
            forall|i: int| 0 <= i < start.len() && start[i] is Some ==> slots@[i] is Some,
            forall|a: int| 0 <= a < j ==> slots@[(#[trigger] table@[a]).derivative.0 as int] is Some,
        decreases table@.len() - j,
    {
        let pair = table[j];
        let role = inherit_role(roles[pair.primal.0], table);
        slots.set(pair.derivative.0, Some(role));
        j = j + 1;
    }
}

/// Differentiate a facet-pair kernel: the derivative kernel of [`differentiate`], with every
/// derivative operand inheriting the role of its primal operand.
pub fn differentiate_facet_pair(kernel: &FacetPairKernel, request: &DerivativeRequest) -> (r: Result<
    FacetPairDerivativeProduct,
    FacetPairDifferentiationError,
>)
    ensures
        match r {
            Ok(p) => facet_differentiation(kernel.kernel@, kernel.roles@, request@) == Ok::<
                (ProductModel, Seq<FacetOperandRole>),
                FacetDifferentiationFailure,
            >((p.product@, p.roles@)),
            Err(e) => facet_differentiation(kernel.kernel@, kernel.roles@, request@) == Err::<
                (ProductModel, Seq<FacetOperandRole>),
                FacetDifferentiationFailure,
            >(e@),
        },
{
    match validate_roles(&kernel.kernel, &kernel.roles) {
        Ok(_) => {},
        Err(e) => {
            return Err(FacetPairDifferentiationError::InvalidPrimal(e));
        },
    }
    let product = match differentiate(&kernel.kernel, request) {
        Ok(p) => p,
        Err(e) => {
            return Err(FacetPairDifferentiationError::Differentiation(e));
        },
    };
    let ghost p = product@;
    proof {
        crate::differentiate::lemma_product_tables(kernel.kernel@, request@);
        assert(kernel.roles@.len() == kernel.kernel@.operands.len());
    }
    let n = product.kernel.operands.len();
    let mut slots: Vec<Option<FacetOperandRole>> = Vec::new();
    let mut i: usize = 0;
    while i < n
        invariant
            i <= n,
            slots@ == Seq::new(i as nat, |a: int| None::<FacetOperandRole>),
        decreases n - i,
    {
        slots.push(None);
        i = i + 1;
        assert(slots@ =~= Seq::new(i as nat, |a: int| None::<FacetOperandRole>));
    }
    assert(p.kernel.operands.len() == n);
    assign_roles(&mut slots, &kernel.roles, &product.primal_operands);
    assign_roles(&mut slots, &kernel.roles, &product.independent_operands);
    assign_roles(&mut slots, &kernel.roles, &product.dependent_operands);
    proof {
        assert(slots@ == role_slots(kernel.roles@, p));
        let np = p.primal_operands.len();
        let ni = p.independent_operands.len();
        let nd = p.dependent_operands.len();
        assert forall|a: int| 0 <= a < n implies slots@[a] is Some by {
            if a < np {
                assert(p.primal_operands[a].derivative.0 == a);
            } else if p.mode is Jvp {
                if a < np + ni {
                    assert(p.independent_operands[a - np].derivative.0 == a);
                } else {
                    assert(p.dependent_operands[a - np - ni].derivative.0 == a);
                }
            } else {
                if a < np + nd {
                    assert(p.dependent_operands[a - np].derivative.0 == a);
                } else {
                    assert(p.independent_operands[a - np - nd].derivative.0 == a);
                }
            }
        }
    }
    let mut roles: Vec<FacetOperandRole> = Vec::new();
    let mut i: usize = 0;
    while i < n
        invariant
            i <= n,
            slots@.len() == n,
            forall|a: int| 0 <= a < n ==> (#[trigger] slots@[a]) is Some,
            roles@ == slots@.take(i as int).map_values(|slot: Option<FacetOperandRole>| slot.unwrap()),
        decreases n - i,
    {
        if let Some(role) = slots[i] {
            roles.push(role);
        }
        i = i + 1;
        assert(roles@ =~= slots@.take(i as int).map_values(|slot: Option<FacetOperandRole>| slot.unwrap()));
    }
    assert(slots@.take(n as int) =~= slots@);
    match validate_roles(&product.kernel, &roles) {
        Ok(_) => {},
        Err(e) => {
            return Err(FacetPairDifferentiationError::InvalidDerivative(e));
        },
    }
    Ok(FacetPairDerivativeProduct { product, roles })
}

// ---------------------------------------------------------------------------------------------
// Swapping the sides
// ---------------------------------------------------------------------------------------------
/// Where the side-swapped run takes an operand's buffer from, and whether it negates it:
/// paired cell data takes its partner's buffer, odd facet data its own negated, the rest its
/// own unchanged.
pub open spec fn swap_source(roles: Seq<FacetOperandRole>, i: int) -> (usize, bool) {
    match roles[i] {
        FacetOperandRole::Cell { partner: Some(p), .. } => (p.0, false),
        FacetOperandRole::Cell { partner: None, .. } => (i as usize, false),
        FacetOperandRole::Facet { parity: SwapParity::Even } => (i as usize, false),
        FacetOperandRole::Facet { parity: SwapParity::Odd } => (i as usize, true),
    }
}

/// The buffer exchange of a side swap, one `(source, negate)` entry per operand.
pub fn swap_plan(roles: &[FacetOperandRole]) -> (plan: Vec<(usize, bool)>)
    ensures
        plan@.len() == roles@.len(),
        forall|i: int| 0 <= i < roles@.len() ==> #[trigger] plan@[i] == swap_source(roles@, i),
{
    let mut plan: Vec<(usize, bool)> = Vec::new();
    let mut i: usize = 0;
    while i < roles.len()
        invariant
            i <= roles@.len(),
            plan@.len() == i,
            forall|a: int| 0 <= a < i ==> #[trigger] plan@[a] == swap_source(roles@, a),
        decreases roles@.len() - i,
    {
        let entry = match roles[i] {
            FacetOperandRole::Cell { partner: Some(p), .. } => (p.0, false),
            FacetOperandRole::Cell { partner: None, .. } => (i, false),
            FacetOperandRole::Facet { parity: SwapParity::Even } => (i, false),
            FacetOperandRole::Facet { parity: SwapParity::Odd } => (i, true),
        };
        plan.push(entry);
        i = i + 1;
    }
    plan
}

/// Swapping the sides twice changes nothing: in a valid role table every operand's swap source
/// lies in range, and the source of its source is the operand itself, negated an even number
/// of times.
pub proof fn lemma_swap_involution(ops: Seq<OperandModel>, roles: Seq<FacetOperandRole>, i: int)
    requires
        roles_violation(ops, roles) is None,
        roles.len() <= usize::MAX,
        0 <= i < roles.len(),
    ensures
        swap_source(roles, i).0 < roles.len(),
        swap_source(roles, swap_source(roles, i).0 as int).0 == i,
        swap_source(roles, swap_source(roles, i).0 as int).1 == swap_source(roles, i).1,
{
    if roles[i] matches FacetOperandRole::Cell { partner: Some(_), .. } {
        lemma_partner_involution(ops, roles, i);
    }
}

#[derive(Clone, Debug, PartialEq, Eq)]
pub enum FacetSwapError {
    /// Every cell operand needs a partner before the sides can be exchanged.
    UnpairedOperand(usize),
    BufferCount { expected: usize, actual: usize },
    BufferLength(usize),
    NonFinite(usize),
    InvalidTolerance,
    Execution(ExecutionError),
}

/// The first refusal among the buffers of operands `0..n`: a buffer shorter than its
/// operand's region, one holding a non-finite value, or cell data without a partner.
pub open spec fn swap_buffers_violation(
    ops: Seq<OperandModel>,
    roles: Seq<FacetOperandRole>,
    lengths: Seq<usize>,
    finite: Seq<bool>,
    n: int,
) -> Option<FacetSwapError>
    decreases n,
{
    if n <= 0 {
        None
    } else {
        match swap_buffers_violation(ops, roles, lengths, finite, n - 1) {
            Some(e) => Some(e),
            None => {
                let i = n - 1;
                if lengths[i] < ops[i].region.offset + ops[i].region.length {
                    Some(FacetSwapError::BufferLength(i as usize))
                } else if !finite[i] {
                    Some(FacetSwapError::NonFinite(i as usize))
                } else if roles[i] matches FacetOperandRole::Cell { partner: None, .. } {
                    Some(FacetSwapError::UnpairedOperand(i as usize))
                } else {
                    None
                }
            },
        }
    }
}

/// What the buffers of a swap check owe: one buffer per operand, then the first refusal.
pub open spec fn swap_buffers_outcome(
    ops: Seq<OperandModel>,
    roles: Seq<FacetOperandRole>,
    lengths: Seq<usize>,
    finite: Seq<bool>,
) -> Option<FacetSwapError> {
    if lengths.len() != ops.len() {
        Some(FacetSwapError::BufferCount { expected: ops.len() as usize, actual: lengths.len() as usize })
    } else {
        swap_buffers_violation(ops, roles, lengths, finite, ops.len() as int)
    }
}

proof fn lemma_swap_buffers_stable(
    ops: Seq<OperandModel>,
    roles: Seq<FacetOperandRole>,
    lengths: Seq<usize>,
    finite: Seq<bool>,
    i: int,
    n: int,
)
    requires
        0 <= i <= n,
        swap_buffers_violation(ops, roles, lengths, finite, i) is Some,
    ensures
        swap_buffers_violation(ops, roles, lengths, finite, n) == swap_buffers_violation(ops, roles, lengths, finite, i),
    decreases n - i,
{
    if i < n {
        lemma_swap_buffers_stable(ops, roles, lengths, finite, i, n - 1);
    }
}

/// Check the buffers handed to a swap-covariance check: `lengths[i]` is the length of the
/// buffer of operand `i`, `finite[i]` whether all its values are finite.
pub fn check_swap_buffers(kernel: &ValidatedFacetPairKernel, lengths: &Vec<usize>, finite: &Vec<bool>) -> (r: Result<
    (),
    FacetSwapError,
>)
    requires
        finite@.len() == lengths@.len(),
    ensures
        match r {
            Ok(_) => swap_buffers_outcome(kernel.kernel_spec()@.operands, kernel.roles_spec(), lengths@, finite@) is None,
            Err(e) => swap_buffers_outcome(kernel.kernel_spec()@.operands, kernel.roles_spec(), lengths@, finite@) == Some(e),
        },
{
    let definition = kernel.kernel().as_kernel();
    let roles = kernel.roles();
    let ghost ops = kernel.kernel_spec()@.operands;
    let n = definition.operands.len();
    if lengths.len() != n {
        return Err(FacetSwapError::BufferCount { expected: n, actual: lengths.len() });
    }
    proof {
        assert(roles@.len() == ops.len());
    }
    let mut i: usize = 0;
    while i < n
        invariant
            i <= n,
            n == ops.len(),
            ops == definition@.operands,
            lengths@.len() == n,
            finite@.len() == n,
            roles@.len() == n,
            roles@ == kernel.roles_spec(),
            ops == kernel.kernel_spec()@.operands,
            kernel_valid(definition@),
            swap_buffers_violation(ops, roles@, lengths@, finite@, i as int) is None,
        decreases n - i,
    {
        let region = definition.operands[i].region;
        proof {
            assert(ops[i as int] == definition.operands@[i as int]@);
            crate::validate::lemma_valid_operand_region(definition@, i as int);
        }
        let failure = if lengths[i] < region.offset + region.length {
            Some(FacetSwapError::BufferLength(i))
        } else if !finite[i] {
            Some(FacetSwapError::NonFinite(i))
        } else if let FacetOperandRole::Cell { partner: None, .. } = roles[i] {
            Some(FacetSwapError::UnpairedOperand(i))
        } else {
            None
        };
        assert(swap_buffers_violation(ops, roles@, lengths@, finite@, (i + 1) as int) == failure);
        if let Some(e) = failure {
            proof {
                lemma_swap_buffers_stable(ops, roles@, lengths@, finite@, (i + 1) as int, n as int);
            }
            return Err(e);
        }
        i = i + 1;
    }
    Ok(())
}

proof fn lemma_assign_table(
    slots: Seq<Option<FacetOperandRole>>,
    roles: Seq<FacetOperandRole>,
    table: Seq<DerivativeOperand>,
    base: int,
    n: int,
)
    requires
        0 <= base,
        0 <= n <= table.len(),
        base + table.len() <= slots.len(),
        forall|j: int| 0 <= j < table.len() ==> (#[trigger] table[j]).derivative.0 == base + j,
    ensures
        assign_table(slots, roles, table, n).len() == slots.len(),
        forall|i: int|
            0 <= i < slots.len() && !(base <= i < base + n) ==> #[trigger] assign_table(slots, roles, table, n)[i]
                == slots[i],
        forall|j: int|
            0 <= j < n ==> assign_table(slots, roles, table, n)[base + j] == Some(
                inherited(roles[(#[trigger] table[j]).primal.0 as int], table),
            ),
    decreases n,
{
    if n > 0 {
        lemma_assign_table(slots, roles, table, base, n - 1);
        assert(table[n - 1].derivative.0 == base + n - 1);
        let prev = assign_table(slots, roles, table, n - 1);
        let next = assign_table(slots, roles, table, n);
        assert forall|j: int| 0 <= j < n implies next[base + j] == Some(
            inherited(roles[(#[trigger] table[j]).primal.0 as int], table),
        ) by {
            if j < n - 1 {
                assert(next[base + j] == prev[base + j]);
            }
        }
    }
}

/// Differentiating a facet-pair kernel carries roles over: the derivative operand of every
/// pair of the product's tables inherits its primal operand's role, with the same side or
/// parity and the partner renamed through the same table (dropped where the partner has no
/// operand in that table).
pub proof fn lemma_derivative_roles_inherited(k: KernelModel, roles: Seq<FacetOperandRole>, req: crate::differentiate::RequestModel)
    requires
        facet_differentiation(k, roles, req) is Ok,
    ensures
        ({
            let (p, derived) = facet_differentiation(k, roles, req)->Ok_0;
            &&& derived.len() == p.kernel.operands.len()
            &&& forall|j: int|
                0 <= j < p.primal_operands.len() ==> derived[(#[trigger] p.primal_operands[j]).derivative.0 as int]
                    == inherited(roles[p.primal_operands[j].primal.0 as int], p.primal_operands)
            &&& forall|j: int|
                0 <= j < p.independent_operands.len() ==> derived[(#[trigger] p.independent_operands[j]).derivative.0 as int]
                    == inherited(roles[p.independent_operands[j].primal.0 as int], p.independent_operands)
            &&& forall|j: int|
                0 <= j < p.dependent_operands.len() ==> derived[(#[trigger] p.dependent_operands[j]).derivative.0 as int]
                    == inherited(roles[p.dependent_operands[j].primal.0 as int], p.dependent_operands)
        }),
{
    let p = differentiation(k, req)->Ok_0;
    crate::differentiate::lemma_product_tables(k, req);
    let np = p.primal_operands.len() as int;
    let ni = p.independent_operands.len() as int;
    let nd = p.dependent_operands.len() as int;
    let (bi, bd) = if p.mode is Jvp { (np, np + ni) } else { (np + nd, np) };
    let empty = Seq::new(p.kernel.operands.len(), |i: int| None::<FacetOperandRole>);
    lemma_assign_table(empty, roles, p.primal_operands, 0, np);
    let a = assign_table(empty, roles, p.primal_operands, np);
    lemma_assign_table(a, roles, p.independent_operands, bi, ni);
    let b = assign_table(a, roles, p.independent_operands, ni);
    lemma_assign_table(b, roles, p.dependent_operands, bd, nd);
    let c = assign_table(b, roles, p.dependent_operands, nd);
    assert(c == role_slots(roles, p));
    let derived = derivative_roles(roles, p);
    assert forall|j: int| 0 <= j < np implies derived[(#[trigger] p.primal_operands[j]).derivative.0 as int]
        == inherited(roles[p.primal_operands[j].primal.0 as int], p.primal_operands) by {
        assert(a[j] == Some(inherited(roles[p.primal_operands[j].primal.0 as int], p.primal_operands)));
        assert(b[j] == a[j]);
        assert(c[j] == b[j]);
    }
    assert forall|j: int| 0 <= j < ni implies derived[(#[trigger] p.independent_operands[j]).derivative.0 as int]
        == inherited(roles[p.independent_operands[j].primal.0 as int], p.independent_operands) by {
        assert(b[bi + j] == Some(inherited(roles[p.independent_operands[j].primal.0 as int], p.independent_operands)));
        assert(c[bi + j] == b[bi + j]);
    }
    assert forall|j: int| 0 <= j < nd implies derived[(#[trigger] p.dependent_operands[j]).derivative.0 as int]
        == inherited(roles[p.dependent_operands[j].primal.0 as int], p.dependent_operands) by {
        assert(c[bd + j] == Some(inherited(roles[p.dependent_operands[j].primal.0 as int], p.dependent_operands)));
    }
}

} // verus!
