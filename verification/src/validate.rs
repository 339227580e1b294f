//! Structural validation for schedule-independent kernels.
//!
//! Validation checks, in this order: the kernel name, the iterator rank, every operand (name,
//! uniqueness, element count, layout permutation, buffer region), every indexing map (operand,
//! uniqueness, rank, axes, affine bounds over the whole iteration box, injectivity of plain
//! writes), map coverage, and finally the ordered body (local definition order, loads, stores,
//! finite constants). The first violation is reported.
use vstd::prelude::*;

use crate::ir::{
    AccessMode, IndexExpr, IndexingMap, KernelOperand, IndexExprModel, IndexTerm, IndexingMapModel, KernelModel,
    OperandModel, Predicate, ScalarExpr, Statement, StructuredKernel, StructuredModule,
    element_count, count_fits, checked_element_count, operand_models,
};
use crate::interpreter::{element_indices, index_value};

verus! {

#[derive(Clone, Debug, PartialEq, Eq)]
pub enum ValidationError {
    EmptyName,
    IteratorRank { expected: usize, actual: usize },
    DuplicateOperandName(String),
    InvalidOperand(usize),
    MissingIndexingMap(usize),
    DuplicateIndexingMap(usize),
    IndexRank { operand: usize, expected: usize, actual: usize },
    InvalidAxis(usize),
    DuplicateIndexAxis { operand: usize, axis: usize },
    IndexOutOfBounds { operand: usize, dimension: usize },
    AliasingWrite(usize),
    InvalidLayout(usize),
    InvalidRegion(usize),
    InvalidLocal { expected: usize, actual: usize },
    InvalidLoad(usize),
    InvalidStore(usize),
    NonFiniteConstant,
    DuplicateKernelName(String),
}

/// The mathematical content of a [`ValidationError`].
pub enum Violation {
    EmptyName,
    IteratorRank { expected: usize, actual: usize },
    DuplicateOperandName(Seq<char>),
    InvalidOperand(usize),
    MissingIndexingMap(usize),
    DuplicateIndexingMap(usize),
    IndexRank { operand: usize, expected: usize, actual: usize },
    InvalidAxis(usize),
    DuplicateIndexAxis { operand: usize, axis: usize },
    IndexOutOfBounds { operand: usize, dimension: usize },
    AliasingWrite(usize),
    InvalidLayout(usize),
    InvalidRegion(usize),
    InvalidLocal { expected: usize, actual: usize },
    InvalidLoad(usize),
    InvalidStore(usize),
    NonFiniteConstant,
    DuplicateKernelName(Seq<char>),
}

impl View for ValidationError {
    type V = Violation;

    open spec fn view(&self) -> Violation {
        match self {
            ValidationError::EmptyName => Violation::EmptyName,
            ValidationError::IteratorRank { expected, actual } => Violation::IteratorRank {
                expected: *expected,
                actual: *actual,
            },
            ValidationError::DuplicateOperandName(name) => Violation::DuplicateOperandName(name@),
            ValidationError::InvalidOperand(i) => Violation::InvalidOperand(*i),
            ValidationError::MissingIndexingMap(i) => Violation::MissingIndexingMap(*i),
            ValidationError::DuplicateIndexingMap(i) => Violation::DuplicateIndexingMap(*i),
            ValidationError::IndexRank { operand, expected, actual } => Violation::IndexRank {
                operand: *operand,
                expected: *expected,
                actual: *actual,
            },
            ValidationError::InvalidAxis(i) => Violation::InvalidAxis(*i),
            ValidationError::DuplicateIndexAxis { operand, axis } => Violation::DuplicateIndexAxis {
                operand: *operand,
                axis: *axis,
            },
            ValidationError::IndexOutOfBounds { operand, dimension } =>
                Violation::IndexOutOfBounds { operand: *operand, dimension: *dimension },
            ValidationError::AliasingWrite(i) => Violation::AliasingWrite(*i),
            ValidationError::InvalidLayout(i) => Violation::InvalidLayout(*i),
            ValidationError::InvalidRegion(i) => Violation::InvalidRegion(*i),
            ValidationError::InvalidLocal { expected, actual } => Violation::InvalidLocal {
                expected: *expected,
                actual: *actual,
            },
            ValidationError::InvalidLoad(i) => Violation::InvalidLoad(*i),
            ValidationError::InvalidStore(i) => Violation::InvalidStore(*i),
            ValidationError::NonFiniteConstant => Violation::NonFiniteConstant,
            ValidationError::DuplicateKernelName(name) => Violation::DuplicateKernelName(name@),
        }
    }
}

// ---------------------------------------------------------------------------------------------
// Names
// ---------------------------------------------------------------------------------------------
/// Unicode `White_Space`, the characters that `str::trim` removes.
pub open spec fn is_white_space(c: char) -> bool {
    let v = c as u32;
    ||| 0x09 <= v <= 0x0d
    ||| v == 0x20
    ||| v == 0x85
    ||| v == 0xa0
    ||| v == 0x1680
    ||| 0x2000 <= v <= 0x200a
    ||| v == 0x2028
    ||| v == 0x2029
    ||| v == 0x202f
    ||| v == 0x205f
    ||| v == 0x3000
}

/// A name that is empty once surrounding white space is trimmed.
pub open spec fn is_blank(s: Seq<char>) -> bool {
    forall|i: int| 0 <= i < s.len() ==> is_white_space(#[trigger] s[i])
}

pub fn white_space(c: char) -> (r: bool)
    ensures
        r == is_white_space(c),
{
    let v = c as u32;
    (0x09 <= v && v <= 0x0d) || v == 0x20 || v == 0x85 || v == 0xa0 || v == 0x1680 || (0x2000
        <= v && v <= 0x200a) || v == 0x2028 || v == 0x2029 || v == 0x202f || v == 0x205f || v
        == 0x3000
}

/// Whether `s.trim().is_empty()`.
pub fn blank(s: &str) -> (r: bool)
    ensures
        r == is_blank(s@),
{
    let mut all = true;
    for c in it: s.chars()
        invariant
            it.seq() == s@,
            all == (forall|i: int| 0 <= i < it.index() ==> is_white_space(#[trigger] s@[i])),
    {
        if !white_space(c) {
            all = false;
        }
    }
    all
}

// ---------------------------------------------------------------------------------------------
// Operands
// ---------------------------------------------------------------------------------------------
/// `order` lists every dimension below `rank` exactly once.
pub open spec fn is_permutation(order: Seq<usize>, rank: nat) -> bool {
    &&& order.len() == rank
    &&& forall|i: int| 0 <= i < order.len() ==> #[trigger] order[i] < rank
    &&& forall|i: int, j: int| 0 <= i < j < order.len() ==> order[i] != order[j]
}

/// The region holds exactly one slot per element and ends inside `usize`.
pub open spec fn region_valid(o: OperandModel) -> bool {
    &&& o.region.length == element_count(o.shape)
    &&& o.region.offset + o.region.length <= usize::MAX
}


/// The first violation of operand `i`, given the operands before it passed.
pub open spec fn operand_violation(ops: Seq<OperandModel>, i: int) -> Option<Violation> {
    let o = ops[i];
    if is_blank(o.name) {
        Some(Violation::EmptyName)
    } else if exists|j: int| 0 <= j < i && (#[trigger] ops[j]).name == o.name {
        Some(Violation::DuplicateOperandName(o.name))
    } else if !count_fits(o.shape) {
        Some(Violation::InvalidOperand(0))
    } else if !is_permutation(o.layout, o.shape.len()) {
        Some(Violation::InvalidLayout(i as usize))
    } else if !region_valid(o) {
        Some(Violation::InvalidRegion(i as usize))
    } else {
        None
    }
}

/// The first violation among operands `0..n`.
pub open spec fn operands_violation(ops: Seq<OperandModel>, n: int) -> Option<Violation>
    decreases n,
{
    if n <= 0 {
        None
    } else {
        match operands_violation(ops, n - 1) {
            Some(v) => Some(v),
            None => operand_violation(ops, n - 1),
        }
    }
}

// ---------------------------------------------------------------------------------------------
// Indexing maps
// ---------------------------------------------------------------------------------------------
/// The last coordinate an axis reaches; an empty axis is taken as fixed at zero.
pub open spec fn axis_span(extents: Seq<usize>, axis: usize) -> int {
    if extents[axis as int] == 0 {
        0
    } else {
        extents[axis as int] - 1
    }
}

pub open spec fn term_value_at_span(t: IndexTerm, extents: Seq<usize>) -> int {
    t.coefficient * axis_span(extents, t.axis.0)
}

pub open spec fn term_low(t: IndexTerm, extents: Seq<usize>) -> int {
    let v = term_value_at_span(t, extents);
    if v < 0 {
        v
    } else {
        0
    }
}

pub open spec fn term_high(t: IndexTerm, extents: Seq<usize>) -> int {
    let v = term_value_at_span(t, extents);
    if v > 0 {
        v
    } else {
        0
    }
}

pub open spec fn low_sum(terms: Seq<IndexTerm>, extents: Seq<usize>) -> int
    decreases terms.len(),
{
    if terms.len() == 0 {
        0
    } else {
        low_sum(terms.drop_last(), extents) + term_low(terms.last(), extents)
    }
}

pub open spec fn high_sum(terms: Seq<IndexTerm>, extents: Seq<usize>) -> int
    decreases terms.len(),
{
    if terms.len() == 0 {
        0
    } else {
        high_sum(terms.drop_last(), extents) + term_high(terms.last(), extents)
    }
}

/// The least value the affine index takes over the iteration box.
pub open spec fn index_low(e: IndexExprModel, extents: Seq<usize>) -> int {
    e.constant + low_sum(e.terms, extents)
}

/// The greatest value the affine index takes over the iteration box.
pub open spec fn index_high(e: IndexExprModel, extents: Seq<usize>) -> int {
    e.constant + high_sum(e.terms, extents)
}

pub open spec fn index_in_bounds(e: IndexExprModel, extents: Seq<usize>, extent: usize) -> bool {
    0 <= index_low(e, extents) && index_high(e, extents) < extent
}

/// The first violation among the terms `0..n` of one index expression.
pub open spec fn terms_violation(e: IndexExprModel, operand: usize, rank: nat, n: int) -> Option<
    Violation,
>
    decreases n,
{
    if n <= 0 {
        None
    } else {
        match terms_violation(e, operand, rank, n - 1) {
            Some(v) => Some(v),
            None => {
                let t = e.terms[n - 1];
                if t.axis.0 >= rank {
                    Some(Violation::InvalidAxis(t.axis.0))
                } else if exists|s: int| 0 <= s < n - 1 && (#[trigger] e.terms[s]).axis == t.axis {
                    Some(Violation::DuplicateIndexAxis { operand, axis: t.axis.0 })
                } else {
                    None
                }
            },
        }
    }
}

/// The first violation of one result dimension of an operand's map.
pub open spec fn dimension_violation(
    e: IndexExprModel,
    operand: usize,
    dimension: int,
    extents: Seq<usize>,
    extent: usize,
) -> Option<Violation> {
    match terms_violation(e, operand, extents.len(), e.terms.len() as int) {
        Some(v) => Some(v),
        None => if !index_in_bounds(e, extents, extent) {
            Some(Violation::IndexOutOfBounds { operand, dimension: dimension as usize })
        } else {
            None
        },
    }
}

/// The first violation among result dimensions `0..n` of a map whose rank is right.
pub open spec fn dimensions_violation(
    m: IndexingMapModel,
    shape: Seq<usize>,
    extents: Seq<usize>,
    n: int,
) -> Option<Violation>
    decreases n,
{
    if n <= 0 {
        None
    } else {
        match dimensions_violation(m, shape, extents, n - 1) {
            Some(v) => Some(v),
            None => dimension_violation(
                m.results[n - 1],
                m.operand.0,
                n - 1,
                extents,
                shape[n - 1],
            ),
        }
    }
}

/// Axis `axis` is the only iterating axis of result expression `e`, with a nonzero coefficient.
pub open spec fn private_axis(e: IndexExprModel, axis: int, extents: Seq<usize>) -> bool {
    &&& exists|t: int|
        0 <= t < e.terms.len() && (#[trigger] e.terms[t]).axis.0 == axis && e.terms[t].coefficient
            != 0
    &&& forall|t: int|
        0 <= t < e.terms.len() && (#[trigger] e.terms[t]).axis.0 != axis && e.terms[t].coefficient
            != 0 ==> extents[e.terms[t].axis.0 as int] <= 1
}

/// Every axis that takes more than one value owns a result dimension, so distinct iteration
/// points address distinct elements.
pub open spec fn simple_injective(m: IndexingMapModel, extents: Seq<usize>) -> bool {
    forall|axis: int|
        0 <= axis < extents.len() && #[trigger] extents[axis] > 1 ==> exists|d: int|
            0 <= d < m.results.len() && private_axis(#[trigger] m.results[d], axis, extents)
}

/// A plain (non-reducing) write: every iteration point overwrites its element.
pub open spec fn plain_write(access: AccessMode) -> bool {
    access is Write || access is ReadWrite
}

/// The first violation of map `i`, given the maps before it passed.
pub open spec fn map_violation(k: KernelModel, i: int) -> Option<Violation> {
    let m = k.maps[i];
    let op = m.operand.0;
    if op >= k.operands.len() {
        Some(Violation::InvalidOperand(op))
    } else if exists|j: int| 0 <= j < i && (#[trigger] k.maps[j]).operand == m.operand {
        Some(Violation::DuplicateIndexingMap(op))
    } else if m.results.len() != k.operands[op as int].shape.len() {
        Some(
            Violation::IndexRank {
                operand: op,
                expected: k.operands[op as int].shape.len() as usize,
                actual: m.results.len() as usize,
            },
        )
    } else {
        match dimensions_violation(m, k.operands[op as int].shape, k.extents, m.results.len() as int) {
            Some(v) => Some(v),
            None => if plain_write(k.operands[op as int].access) && !simple_injective(m, k.extents) {
                Some(Violation::AliasingWrite(op))
            } else {
                None
            },
        }
    }
}

pub open spec fn maps_violation(k: KernelModel, n: int) -> Option<Violation>
    decreases n,
{
    if n <= 0 {
        None
    } else {
        match maps_violation(k, n - 1) {
            Some(v) => Some(v),
            None => map_violation(k, n - 1),
        }
    }
}

pub open spec fn has_map(k: KernelModel, op: int) -> bool {
    exists|i: int| 0 <= i < k.maps.len() && (#[trigger] k.maps[i]).operand.0 == op
}

/// The first operand among `0..n` without an indexing map.
pub open spec fn missing_map(k: KernelModel, n: int) -> Option<Violation>
    decreases n,
{
    if n <= 0 {
        None
    } else {
        match missing_map(k, n - 1) {
            Some(v) => Some(v),
            None => if !has_map(k, n - 1) {
                Some(Violation::MissingIndexingMap((n - 1) as usize))
            } else {
                None
            },
        }
    }
}

// ---------------------------------------------------------------------------------------------
// Body
// ---------------------------------------------------------------------------------------------
/// The bit pattern of a finite double: its exponent field is not all ones.
pub open spec fn finite_bits(bits: u64) -> bool {
    (bits >> 52u64) & 0x7ffu64 != 0x7ffu64
}

pub open spec fn expr_violation(e: ScalarExpr, k: KernelModel, locals: nat) -> Option<Violation>
    decreases e,
{
    match e {
        ScalarExpr::Constant(bits) => if !finite_bits(bits) {
            Some(Violation::NonFiniteConstant)
        } else {
            None
        },
        ScalarExpr::Index(axis) => if axis.0 >= k.extents.len() {
            Some(Violation::InvalidAxis(axis.0))
        } else {
            None
        },
        ScalarExpr::Load(op) => if op.0 >= k.operands.len() || !k.operands[op.0 as int].access.readable() {
            Some(Violation::InvalidLoad(op.0))
        } else {
            None
        },
        ScalarExpr::Local(local) => if local.0 >= locals {
            Some(Violation::InvalidLocal { expected: locals as usize, actual: local.0 })
        } else {
            None
        },
        ScalarExpr::Unary { arg, .. } => expr_violation(*arg, k, locals),
        ScalarExpr::Binary { lhs, rhs, .. } => match expr_violation(*lhs, k, locals) {
            Some(v) => Some(v),
            None => expr_violation(*rhs, k, locals),
        },
        ScalarExpr::Select { condition, if_true, if_false } => match predicate_violation(
            *condition,
            k,
            locals,
        ) {
            Some(v) => Some(v),
            None => match expr_violation(*if_true, k, locals) {
                Some(v) => Some(v),
                None => expr_violation(*if_false, k, locals),
            },
        },
    }
}

pub open spec fn predicate_violation(p: Predicate, k: KernelModel, locals: nat) -> Option<Violation>
    decreases p,
{
    match p {
        Predicate::Constant(_) => None,
        Predicate::Compare { lhs, rhs, .. } => match expr_violation(*lhs, k, locals) {
            Some(v) => Some(v),
            None => expr_violation(*rhs, k, locals),
        },
        Predicate::Not(value) => predicate_violation(*value, k, locals),
        Predicate::And(lhs, rhs) => match predicate_violation(*lhs, k, locals) {
            Some(v) => Some(v),
            None => predicate_violation(*rhs, k, locals),
        },
        Predicate::Or(lhs, rhs) => match predicate_violation(*lhs, k, locals) {
            Some(v) => Some(v),
            None => predicate_violation(*rhs, k, locals),
        },
    }
}

/// The number of `Let` statements among the first `n`.
pub open spec fn let_count(statements: Seq<Statement>, n: int) -> nat
    decreases n,
{
    if n <= 0 {
        0
    } else {
        let_count(statements, n - 1) + if statements[n - 1] is Let {
            1nat
        } else {
            0nat
        }
    }
}

pub open spec fn statement_violation(k: KernelModel, i: int) -> Option<Violation> {
    let locals = let_count(k.statements, i);
    match k.statements[i] {
        Statement::Let { local, value } => if local.0 != locals {
            Some(Violation::InvalidLocal { expected: locals as usize, actual: local.0 })
        } else {
            expr_violation(value, k, locals)
        },
        Statement::Store { operand, value } => if operand.0 >= k.operands.len() {
            Some(Violation::InvalidOperand(operand.0))
        } else if !k.operands[operand.0 as int].access.writable() {
            Some(Violation::InvalidStore(operand.0))
        } else {
            expr_violation(value, k, locals)
        },
    }
}

pub open spec fn statements_violation(k: KernelModel, n: int) -> Option<Violation>
    decreases n,
{
    if n <= 0 {
        None
    } else {
        match statements_violation(k, n - 1) {
            Some(v) => Some(v),
            None => statement_violation(k, n - 1),
        }
    }
}


/// Every load names an operand below `operands` and every local is below `locals`.
pub open spec fn expr_in_scope(e: ScalarExpr, operands: nat, locals: nat) -> bool
    decreases e,
{
    match e {
        ScalarExpr::Constant(_) | ScalarExpr::Index(_) => true,
        ScalarExpr::Load(id) => id.0 < operands,
        ScalarExpr::Local(id) => id.0 < locals,
        ScalarExpr::Unary { arg, .. } => expr_in_scope(*arg, operands, locals),
        ScalarExpr::Binary { lhs, rhs, .. } => expr_in_scope(*lhs, operands, locals)
            && expr_in_scope(*rhs, operands, locals),
        ScalarExpr::Select { condition, if_true, if_false } => predicate_in_scope(
            *condition,
            operands,
            locals,
        ) && expr_in_scope(*if_true, operands, locals) && expr_in_scope(*if_false, operands, locals),
    }
}

pub open spec fn predicate_in_scope(p: Predicate, operands: nat, locals: nat) -> bool
    decreases p,
{
    match p {
        Predicate::Constant(_) => true,
        Predicate::Compare { lhs, rhs, .. } => expr_in_scope(*lhs, operands, locals)
            && expr_in_scope(*rhs, operands, locals),
        Predicate::Not(value) => predicate_in_scope(*value, operands, locals),
        Predicate::And(lhs, rhs) | Predicate::Or(lhs, rhs) => predicate_in_scope(
            *lhs,
            operands,
            locals,
        ) && predicate_in_scope(*rhs, operands, locals),
    }
}

/// An expression without a violation is in scope.
pub(crate) proof fn lemma_expr_in_scope(e: ScalarExpr, k: KernelModel, locals: nat)
    requires
        expr_violation(e, k, locals) is None,
    ensures
        expr_in_scope(e, k.operands.len(), locals),
    decreases e,
{
    match e {
        ScalarExpr::Unary { arg, .. } => lemma_expr_in_scope(*arg, k, locals),
        ScalarExpr::Binary { lhs, rhs, .. } => {
            lemma_expr_in_scope(*lhs, k, locals);
            lemma_expr_in_scope(*rhs, k, locals);
        },
        ScalarExpr::Select { condition, if_true, if_false } => {
            lemma_predicate_in_scope(*condition, k, locals);
            lemma_expr_in_scope(*if_true, k, locals);
            lemma_expr_in_scope(*if_false, k, locals);
        },
        _ => {},
    }
}

/// A predicate without a violation is in scope.
pub(crate) proof fn lemma_predicate_in_scope(p: Predicate, k: KernelModel, locals: nat)
    requires
        predicate_violation(p, k, locals) is None,
    ensures
        predicate_in_scope(p, k.operands.len(), locals),
    decreases p,
{
    match p {
        Predicate::Compare { lhs, rhs, .. } => {
            lemma_expr_in_scope(*lhs, k, locals);
            lemma_expr_in_scope(*rhs, k, locals);
        },
        Predicate::Not(value) => lemma_predicate_in_scope(*value, k, locals),
        Predicate::And(lhs, rhs) | Predicate::Or(lhs, rhs) => {
            lemma_predicate_in_scope(*lhs, k, locals);
            lemma_predicate_in_scope(*rhs, k, locals);
        },
        _ => {},
    }
}

/// Every statement of a valid kernel passes on its own.
pub proof fn lemma_statements_valid(k: KernelModel, n: int)
    requires
        0 <= n <= k.statements.len(),
        statements_violation(k, n) is None,
    ensures
        forall|i: int| 0 <= i < n ==> statement_violation(k, i) is None,
    decreases n,
{
    if n > 0 {
        lemma_statements_valid(k, n - 1);
    }
}

// ---------------------------------------------------------------------------------------------
// Whole kernels and modules
// ---------------------------------------------------------------------------------------------
/// The first violation of a kernel, in the order validation checks them.
pub open spec fn kernel_violation(k: KernelModel) -> Option<Violation> {
    if is_blank(k.name) {
        Some(Violation::EmptyName)
    } else if k.iterators.len() != k.extents.len() {
        Some(
            Violation::IteratorRank {
                expected: k.extents.len() as usize,
                actual: k.iterators.len() as usize,
            },
        )
    } else {
        match operands_violation(k.operands, k.operands.len() as int) {
            Some(v) => Some(v),
            None => match maps_violation(k, k.maps.len() as int) {
                Some(v) => Some(v),
                None => match missing_map(k, k.operands.len() as int) {
                    Some(v) => Some(v),
                    None => statements_violation(k, k.statements.len() as int),
                },
            },
        }
    }
}

/// A kernel that passes validation.
pub open spec fn kernel_valid(k: KernelModel) -> bool {
    kernel_violation(k) is None
}

/// A kernel that passed [`validate`].
#[derive(Debug, PartialEq, Eq)]
pub struct ValidatedKernel(StructuredKernel);

impl ValidatedKernel {
    #[verifier::type_invariant]
    spec fn well_formed(self) -> bool {
        kernel_valid(self.0@)
    }

    /// The validated kernel.
    pub closed spec fn inner(self) -> StructuredKernel {
        self.0
    }

    pub fn as_kernel(&self) -> (k: &StructuredKernel)
        ensures
            *k == self.inner(),
            kernel_valid(k@),
    {
        proof {
            use_type_invariant(self);
        }
        &self.0
    }

    /// A copy of the validated kernel.
    pub fn copy(&self) -> (v: Self)
        ensures
            v.inner()@ == self.inner()@,
    {
        proof {
            use_type_invariant(self);
        }
        ValidatedKernel(self.0.copy())
    }

    pub fn into_inner(self) -> (k: StructuredKernel)
        ensures
            k == self.inner(),
            kernel_valid(k@),
    {
        proof {
            use_type_invariant(&self);
        }
        self.0
    }
}



// ---------------------------------------------------------------------------------------------
// A first violation stays the first as more items are considered.
// ---------------------------------------------------------------------------------------------
proof fn lemma_operands_violation_stable(ops: Seq<OperandModel>, i: int, n: int)
    requires
        0 <= i <= n,
        operands_violation(ops, i) is Some,
    ensures
        operands_violation(ops, n) == operands_violation(ops, i),
    decreases n - i,
{
    if i < n {
        lemma_operands_violation_stable(ops, i, n - 1);
    }
}

proof fn lemma_terms_violation_stable(e: IndexExprModel, operand: usize, rank: nat, i: int, n: int)
    requires
        0 <= i <= n,
        terms_violation(e, operand, rank, i) is Some,
    ensures
        terms_violation(e, operand, rank, n) == terms_violation(e, operand, rank, i),
    decreases n - i,
{
    if i < n {
        lemma_terms_violation_stable(e, operand, rank, i, n - 1);
    }
}

proof fn lemma_dimensions_violation_stable(
    m: IndexingMapModel,
    shape: Seq<usize>,
    extents: Seq<usize>,
    i: int,
    n: int,
)
    requires
        0 <= i <= n,
        dimensions_violation(m, shape, extents, i) is Some,
    ensures
        dimensions_violation(m, shape, extents, n) == dimensions_violation(m, shape, extents, i),
    decreases n - i,
{
    if i < n {
        lemma_dimensions_violation_stable(m, shape, extents, i, n - 1);
    }
}

proof fn lemma_maps_violation_stable(k: KernelModel, i: int, n: int)
    requires
        0 <= i <= n,
        maps_violation(k, i) is Some,
    ensures
        maps_violation(k, n) == maps_violation(k, i),
    decreases n - i,
{
    if i < n {
        lemma_maps_violation_stable(k, i, n - 1);
    }
}

proof fn lemma_missing_map_stable(k: KernelModel, i: int, n: int)
    requires
        0 <= i <= n,
        missing_map(k, i) is Some,
    ensures
        missing_map(k, n) == missing_map(k, i),
    decreases n - i,
{
    if i < n {
        lemma_missing_map_stable(k, i, n - 1);
    }
}

proof fn lemma_statements_violation_stable(k: KernelModel, i: int, n: int)
    requires
        0 <= i <= n,
        statements_violation(k, i) is Some,
    ensures
        statements_violation(k, n) == statements_violation(k, i),
    decreases n - i,
{
    if i < n {
        lemma_statements_violation_stable(k, i, n - 1);
    }
}

proof fn lemma_terms_valid(e: IndexExprModel, operand: usize, rank: nat, n: int)
    requires
        0 <= n <= e.terms.len(),
        terms_violation(e, operand, rank, n) is None,
    ensures
        forall|t: int| 0 <= t < n ==> (#[trigger] e.terms[t]).axis.0 < rank,
        forall|t: int, s: int| 0 <= s < t < n ==> e.terms[s].axis != e.terms[t].axis,
    decreases n,
{
    if n > 0 {
        lemma_terms_valid(e, operand, rank, n - 1);
    }
}

proof fn lemma_dimensions_valid(m: IndexingMapModel, shape: Seq<usize>, extents: Seq<usize>, n: int)
    requires
        0 <= n <= m.results.len(),
        n <= shape.len(),
        dimensions_violation(m, shape, extents, n) is None,
    ensures
        forall|d: int| 0 <= d < n ==> dimension_violation(
            #[trigger] m.results[d],
            m.operand.0,
            d,
            extents,
            shape[d],
        ) is None,
    decreases n,
{
    if n > 0 {
        lemma_dimensions_valid(m, shape, extents, n - 1);
    }
}

// ---------------------------------------------------------------------------------------------
// Checking
// ---------------------------------------------------------------------------------------------
pub(crate) fn permutation_check(order: &Vec<usize>, rank: usize) -> (r: bool)
    ensures
        r == is_permutation(order@, rank as nat),
{
    if order.len() != rank {
        return false;
    }
    let mut seen: Vec<bool> = Vec::new();
    let mut i: usize = 0;
    while i < rank
        invariant
            i <= rank,
            seen@.len() == i,
            forall|j: int| 0 <= j < i ==> !(#[trigger] seen@[j]),
        decreases rank - i,
    {
        seen.push(false);
        i = i + 1;
    }
    let mut i: usize = 0;
    while i < rank
        invariant
            i <= rank,
            order@.len() == rank,
            seen@.len() == rank,
            forall|j: int| 0 <= j < i ==> #[trigger] order@[j] < rank,
            forall|j: int, l: int| 0 <= j < l < i ==> order@[j] != order@[l],
            forall|x: int|
                0 <= x < rank ==> (#[trigger] seen@[x] <==> exists|j: int|
                    0 <= j < i && order@[j] == x),
        decreases rank - i,
    {
        let x = order[i];
        if x >= rank {
            return false;
        }
        if seen[x] {
            return false;
        }
        seen.set(x, true);
        i = i + 1;
    }
    true
}

fn check_operand(ops: &Vec<KernelOperand>, i: usize) -> (r: Result<(), ValidationError>)
    requires
        i < ops@.len(),
    ensures
        match r {
            Ok(_) => operand_violation(operand_models(ops@), i as int) is None,
            Err(e) => operand_violation(operand_models(ops@), i as int) == Some(e@),
        },
{
    let ghost models = operand_models(ops@);
    let operand = &ops[i];
    assert(models[i as int] == operand@);
    if blank(operand.name.as_str()) {
        return Err(ValidationError::EmptyName);
    }
    let mut j: usize = 0;
    while j < i
        invariant
            j <= i < ops@.len(),
            models == operand_models(ops@),
            models[i as int] == operand@,
            *operand == ops@[i as int],
            !is_blank(operand.name@),
            forall|l: int| 0 <= l < j ==> (#[trigger] models[l]).name != models[i as int].name,
        decreases i - j,
    {
        assert(models[j as int] == ops@[j as int]@);
        if ops[j].name == operand.name {
            assert(models[j as int].name == models[i as int].name);
            return Err(ValidationError::DuplicateOperandName(operand.name.clone()));
        }
        j = j + 1;
    }
    if checked_element_count(&operand.shape).is_none() {
        return Err(ValidationError::InvalidOperand(0));
    }
    let count = checked_element_count(&operand.shape).unwrap();
    if !permutation_check(&operand.layout.minor_to_major, operand.shape.len()) {
        return Err(ValidationError::InvalidLayout(i));
    }
    if operand.region.length != count || operand.region.offset.checked_add(
        operand.region.length,
    ).is_none() {
        return Err(ValidationError::InvalidRegion(i));
    }
    Ok(())
}

fn check_operands(ops: &Vec<KernelOperand>) -> (r: Result<(), ValidationError>)
    ensures
        match r {
            Ok(_) => operands_violation(operand_models(ops@), ops@.len() as int) is None,
            Err(e) => operands_violation(operand_models(ops@), ops@.len() as int) == Some(e@),
        },
{
    let ghost models = operand_models(ops@);
    let mut i: usize = 0;
    while i < ops.len()
        invariant
            i <= ops@.len(),
            models == operand_models(ops@),
            operands_violation(models, i as int) is None,
        decreases ops@.len() - i,
    {
        match check_operand(ops, i) {
            Ok(_) => {},
            Err(e) => {
                proof {
                    lemma_operands_violation_stable(models, (i + 1) as int, ops@.len() as int);
                }
                return Err(e);
            },
        }
        i = i + 1;
    }
    Ok(())
}



proof fn lemma_low_sum_below_prefix(terms: Seq<IndexTerm>, extents: Seq<usize>, n: int)
    requires
        0 <= n <= terms.len(),
    ensures
        low_sum(terms, extents) <= low_sum(terms.take(n), extents),
    decreases terms.len() - n,
{
    if n == terms.len() {
        assert(terms.take(n) =~= terms);
    } else {
        lemma_low_sum_below_prefix(terms, extents, n + 1);
        assert(terms.take(n + 1).drop_last() =~= terms.take(n));
    }
}

proof fn lemma_high_sum_above_prefix(terms: Seq<IndexTerm>, extents: Seq<usize>, n: int)
    requires
        0 <= n <= terms.len(),
    ensures
        high_sum(terms, extents) >= high_sum(terms.take(n), extents),
    decreases terms.len() - n,
{
    if n == terms.len() {
        assert(terms.take(n) =~= terms);
    } else {
        lemma_high_sum_above_prefix(terms, extents, n + 1);
        assert(terms.take(n + 1).drop_last() =~= terms.take(n));
    }
}

/// The value of one term at the far end of its axis, exactly, in 128 bits.
fn term_span_value(t: IndexTerm, extents: &Vec<usize>) -> (v: i128)
    requires
        t.axis.0 < extents@.len(),
    ensures
        v == term_value_at_span(t, extents@),
{
    let extent = extents[t.axis.0];
    let span: i128 = if extent == 0 {
        0
    } else {
        (extent - 1) as i128
    };
    let coefficient: i128 = t.coefficient as i128;
    assert(-0x8000_0000_0000_0000 <= coefficient <= 0x7fff_ffff_ffff_ffff);
    assert(0 <= span <= 0xffff_ffff_ffff_ffff);
    assert(-0x8000_0000_0000_0000 * 0xffff_ffff_ffff_ffff <= coefficient * span
        <= 0x7fff_ffff_ffff_ffff * 0xffff_ffff_ffff_ffff) by (nonlinear_arith)
        requires
            -0x8000_0000_0000_0000 <= coefficient <= 0x7fff_ffff_ffff_ffff,
            0 <= span <= 0xffff_ffff_ffff_ffff,
    ;
    coefficient * span
}

/// Whether the affine index stays inside `0..extent` over the whole iteration box.
fn check_bounds(e: &IndexExpr, extents: &Vec<usize>, extent: usize) -> (r: bool)
    requires
        forall|t: int| 0 <= t < e.terms@.len() ==> (#[trigger] e.terms@[t]).axis.0 < extents@.len(),
    ensures
        r == index_in_bounds(e@, extents@, extent),
{
    let ghost terms = e.terms@;
    let mut low: i128 = e.constant as i128;
    let mut high: i128 = e.constant as i128;
    let mut i: usize = 0;
    assert(terms.take(0) =~= Seq::<IndexTerm>::empty());
    while i < e.terms.len()
        invariant
            i <= terms.len(),
            terms == e.terms@,
            forall|t: int| 0 <= t < terms.len() ==> (#[trigger] terms[t]).axis.0 < extents@.len(),
            low == e.constant + low_sum(terms.take(i as int), extents@),
            high == e.constant + high_sum(terms.take(i as int), extents@),
        decreases terms.len() - i,
    {
        let t = e.terms[i];
        let v = term_span_value(t, extents);
        assert(terms.take(i + 1).drop_last() =~= terms.take(i as int));
        assert(terms.take(i + 1).last() == t);
        if v < 0 {
            match low.checked_add(v) {
                Some(next) => {
                    low = next;
                },
                None => {
                    proof {
                        lemma_low_sum_below_prefix(terms, extents@, i + 1);
                    }
                    return false;
                },
            }
        } else if v > 0 {
            match high.checked_add(v) {
                Some(next) => {
                    high = next;
                },
                None => {
                    proof {
                        lemma_high_sum_above_prefix(terms, extents@, i + 1);
                    }
                    return false;
                },
            }
        }
        i = i + 1;
    }
    assert(terms.take(terms.len() as int) =~= terms);
    0 <= low && high < extent as i128
}

/// The axis and duplicate checks of one index expression.
fn validate_index(e: &IndexExpr, operand: usize, rank: usize) -> (r: Result<(), ValidationError>)
    ensures
        match r {
            Ok(_) => terms_violation(e@, operand, rank as nat, e.terms@.len() as int) is None,
            Err(err) => terms_violation(e@, operand, rank as nat, e.terms@.len() as int) == Some(
                err@,
            ),
        },
{
    let mut i: usize = 0;
    while i < e.terms.len()
        invariant
            i <= e.terms@.len(),
            terms_violation(e@, operand, rank as nat, i as int) is None,
        decreases e.terms@.len() - i,
    {
        let axis = e.terms[i].axis;
        if axis.0 >= rank {
            proof {
                lemma_terms_violation_stable(e@, operand, rank as nat, i + 1, e.terms@.len() as int);
            }
            return Err(ValidationError::InvalidAxis(axis.0));
        }
        let mut s: usize = 0;
        while s < i
            invariant
                s <= i < e.terms@.len(),
                axis == e.terms@[i as int].axis,
                axis.0 < rank,
                terms_violation(e@, operand, rank as nat, i as int) is None,
                forall|l: int| 0 <= l < s ==> (#[trigger] e@.terms[l]).axis != axis,
            decreases i - s,
        {
            if e.terms[s].axis.0 == axis.0 {
                assert(e@.terms[s as int].axis == axis);
                proof {
                    lemma_terms_violation_stable(
                        e@,
                        operand,
                        rank as nat,
                        i + 1,
                        e.terms@.len() as int,
                    );
                }
                return Err(ValidationError::DuplicateIndexAxis { operand, axis: axis.0 });
            }
            s = s + 1;
        }
        i = i + 1;
    }
    Ok(())
}


fn check_private_axis(e: &IndexExpr, axis: usize, extents: &Vec<usize>) -> (r: bool)
    requires
        forall|t: int| 0 <= t < e.terms@.len() ==> (#[trigger] e.terms@[t]).axis.0 < extents@.len(),
    ensures
        r == private_axis(e@, axis as int, extents@),
{
    let mut owns = false;
    let mut i: usize = 0;
    while i < e.terms.len()
        invariant
            i <= e.terms@.len(),
            forall|t: int| 0 <= t < e.terms@.len() ==> (#[trigger] e.terms@[t]).axis.0 < extents@.len(),
            owns == exists|t: int|
                0 <= t < i && (#[trigger] e@.terms[t]).axis.0 == axis && e@.terms[t].coefficient
                    != 0,
            forall|t: int|
                0 <= t < i && (#[trigger] e@.terms[t]).axis.0 != axis && e@.terms[t].coefficient
                    != 0 ==> extents@[e@.terms[t].axis.0 as int] <= 1,
        decreases e.terms@.len() - i,
    {
        let t = e.terms[i];
        assert(e@.terms[i as int] == t);
        if t.coefficient != 0 {
            if t.axis.0 == axis {
                owns = true;
            } else if extents[t.axis.0] > 1 {
                return false;
            }
        }
        i = i + 1;
    }
    owns
}

/// Whether distinct iteration points of the kernel address distinct elements through `m`.
fn check_injective(m: &IndexingMap, extents: &Vec<usize>) -> (r: bool)
    requires
        forall|d: int, t: int|
            0 <= d < m.results@.len() && 0 <= t < m.results@[d].terms@.len()
                ==> (#[trigger] m.results@[d].terms@[t]).axis.0 < extents@.len(),
    ensures
        r == simple_injective(m@, extents@),
{
    let mut axis: usize = 0;
    while axis < extents.len()
        invariant
            axis <= extents@.len(),
            forall|d: int, t: int|
                0 <= d < m.results@.len() && 0 <= t < m.results@[d].terms@.len()
                    ==> (#[trigger] m.results@[d].terms@[t]).axis.0 < extents@.len(),
            forall|a: int|
                0 <= a < axis && #[trigger] extents@[a] > 1 ==> exists|d: int|
                    0 <= d < m@.results.len() && private_axis(#[trigger] m@.results[d], a, extents@),
        decreases extents@.len() - axis,
    {
        if extents[axis] > 1 {
            let mut found = false;
            let mut d: usize = 0;
            while d < m.results.len()
                invariant
                    d <= m.results@.len(),
                    axis < extents@.len(),
                    forall|d: int, t: int|
                        0 <= d < m.results@.len() && 0 <= t < m.results@[d].terms@.len()
                            ==> (#[trigger] m.results@[d].terms@[t]).axis.0 < extents@.len(),
                    found == exists|dd: int|
                        0 <= dd < d && private_axis(#[trigger] m@.results[dd], axis as int, extents@),
                decreases m.results@.len() - d,
            {
                assert(m@.results[d as int] == m.results@[d as int]@);
                if check_private_axis(&m.results[d], axis, extents) {
                    found = true;
                }
                d = d + 1;
            }
            if !found {
                assert(!simple_injective(m@, extents@)) by {
                    assert(extents@[axis as int] > 1);
                }
                return false;
            }
        }
        axis = axis + 1;
    }
    true
}

fn check_map(k: &StructuredKernel, i: usize) -> (r: Result<(), ValidationError>)
    requires
        i < k.indexing_maps@.len(),
    ensures
        match r {
            Ok(_) => map_violation(k@, i as int) is None,
            Err(e) => map_violation(k@, i as int) == Some(e@),
        },
{
    let ghost km = k@;
    let m = &k.indexing_maps[i];
    assert(km.maps[i as int] == m@);
    let op = m.operand.0;
    if op >= k.operands.len() {
        return Err(ValidationError::InvalidOperand(op));
    }
    let mut j: usize = 0;
    while j < i
        invariant
            j <= i < k.indexing_maps@.len(),
            km == k@,
            *m == k.indexing_maps@[i as int],
            km.maps[i as int] == m@,
            op == m.operand.0,
            op < k.operands@.len(),
            forall|l: int| 0 <= l < j ==> (#[trigger] km.maps[l]).operand != m.operand,
        decreases i - j,
    {
        assert(km.maps[j as int] == k.indexing_maps@[j as int]@);
        if k.indexing_maps[j].operand.0 == op {
            assert(km.maps[j as int].operand == m.operand);
            return Err(ValidationError::DuplicateIndexingMap(op));
        }
        j = j + 1;
    }
    let definition = &k.operands[op];
    assert(km.operands[op as int] == definition@);
    if m.results.len() != definition.shape.len() {
        return Err(
            ValidationError::IndexRank {
                operand: op,
                expected: definition.shape.len(),
                actual: m.results.len(),
            },
        );
    }
    let rank = k.iteration_domain.extents.len();
    let mut d: usize = 0;
    while d < m.results.len()
        invariant
            d <= m.results@.len(),
            m.results@.len() == definition.shape@.len(),
            km == k@,
            i < k.indexing_maps@.len(),
            *m == k.indexing_maps@[i as int],
            km.maps[i as int] == m@,
            op == m.operand.0,
            op < k.operands@.len(),
            forall|l: int| 0 <= l < i ==> (#[trigger] km.maps[l]).operand != m.operand,
            *definition == k.operands@[op as int],
            km.operands[op as int] == definition@,
            rank == km.extents.len(),
            dimensions_violation(m@, definition.shape@, km.extents, d as int) is None,
        decreases m.results@.len() - d,
    {
        let e = &m.results[d];
        assert(m@.results[d as int] == e@);
        match validate_index(e, op, rank) {
            Ok(_) => {},
            Err(err) => {
                proof {
                    lemma_dimensions_violation_stable(
                        m@,
                        definition.shape@,
                        km.extents,
                        d + 1,
                        m.results@.len() as int,
                    );
                }
                return Err(err);
            },
        }
        proof {
            lemma_terms_valid(e@, op, rank as nat, e.terms@.len() as int);
        }
        if !check_bounds(e, &k.iteration_domain.extents, definition.shape[d]) {
            proof {
                lemma_dimensions_violation_stable(
                    m@,
                    definition.shape@,
                    km.extents,
                    d + 1,
                    m.results@.len() as int,
                );
            }
            return Err(ValidationError::IndexOutOfBounds { operand: op, dimension: d });
        }
        d = d + 1;
    }
    proof {
        lemma_dimensions_valid(m@, definition.shape@, km.extents, m.results@.len() as int);
        assert forall|dd: int, t: int|
            0 <= dd < m.results@.len() && 0 <= t < m.results@[dd].terms@.len()
                implies (#[trigger] m.results@[dd].terms@[t]).axis.0 < km.extents.len() by {
            assert(m@.results[dd] == m.results@[dd]@);
            assert(dimension_violation(m@.results[dd], op, dd, km.extents, definition.shape@[dd]) is None);
            lemma_terms_valid(m@.results[dd], op, km.extents.len(), m@.results[dd].terms.len() as int);
        }
    }
    let access = definition.access;
    let plain = match access {
        AccessMode::Write | AccessMode::ReadWrite => true,
        _ => false,
    };
    if plain && !check_injective(m, &k.iteration_domain.extents) {
        return Err(ValidationError::AliasingWrite(op));
    }
    Ok(())
}

fn check_maps(k: &StructuredKernel) -> (r: Result<(), ValidationError>)
    ensures
        match r {
            Ok(_) => maps_violation(k@, k.indexing_maps@.len() as int) is None,
            Err(e) => maps_violation(k@, k.indexing_maps@.len() as int) == Some(e@),
        },
{
    let mut i: usize = 0;
    while i < k.indexing_maps.len()
        invariant
            i <= k.indexing_maps@.len(),
            maps_violation(k@, i as int) is None,
        decreases k.indexing_maps@.len() - i,
    {
        match check_map(k, i) {
            Ok(_) => {},
            Err(e) => {
                proof {
                    lemma_maps_violation_stable(k@, i + 1, k.indexing_maps@.len() as int);
                }
                return Err(e);
            },
        }
        i = i + 1;
    }
    Ok(())
}

fn check_coverage(k: &StructuredKernel) -> (r: Result<(), ValidationError>)
    ensures
        match r {
            Ok(_) => missing_map(k@, k.operands@.len() as int) is None,
            Err(e) => missing_map(k@, k.operands@.len() as int) == Some(e@),
        },
{
    let ghost km = k@;
    let mut op: usize = 0;
    while op < k.operands.len()
        invariant
            op <= k.operands@.len(),
            km == k@,
            missing_map(km, op as int) is None,
        decreases k.operands@.len() - op,
    {
        let mut found = false;
        let mut i: usize = 0;
        while i < k.indexing_maps.len()
            invariant
                i <= k.indexing_maps@.len(),
                km == k@,
                found == exists|j: int| 0 <= j < i && (#[trigger] km.maps[j]).operand.0 == op,
            decreases k.indexing_maps@.len() - i,
        {
            assert(km.maps[i as int] == k.indexing_maps@[i as int]@);
            if k.indexing_maps[i].operand.0 == op {
                found = true;
            }
            i = i + 1;
        }
        if !found {
            proof {
                lemma_missing_map_stable(km, op + 1, k.operands@.len() as int);
            }
            return Err(ValidationError::MissingIndexingMap(op));
        }
        op = op + 1;
    }
    Ok(())
}


fn check_expr(e: &ScalarExpr, k: &StructuredKernel, locals: usize) -> (r: Result<(), ValidationError>)
    ensures
        match r {
            Ok(_) => expr_violation(*e, k@, locals as nat) is None,
            Err(err) => expr_violation(*e, k@, locals as nat) == Some(err@),
        },
    decreases e,
{
    match e {
        ScalarExpr::Constant(bits) => {
            if (*bits >> 52u64) & 0x7ffu64 == 0x7ffu64 {
                Err(ValidationError::NonFiniteConstant)
            } else {
                Ok(())
            }
        },
        ScalarExpr::Index(axis) => {
            if axis.0 >= k.iteration_domain.extents.len() {
                Err(ValidationError::InvalidAxis(axis.0))
            } else {
                Ok(())
            }
        },
        ScalarExpr::Load(operand) => {
            if operand.0 >= k.operands.len() {
                return Err(ValidationError::InvalidLoad(operand.0));
            }
            assert(k@.operands[operand.0 as int] == k.operands@[operand.0 as int]@);
            if !k.operands[operand.0].access.can_read() {
                Err(ValidationError::InvalidLoad(operand.0))
            } else {
                Ok(())
            }
        },
        ScalarExpr::Local(local) => {
            if local.0 >= locals {
                Err(ValidationError::InvalidLocal { expected: locals, actual: local.0 })
            } else {
                Ok(())
            }
        },
        ScalarExpr::Unary { arg, .. } => check_expr(arg, k, locals),
        ScalarExpr::Binary { lhs, rhs, .. } => {
            match check_expr(lhs, k, locals) {
                Ok(_) => check_expr(rhs, k, locals),
                Err(err) => Err(err),
            }
        },
        ScalarExpr::Select { condition, if_true, if_false } => {
            match check_predicate(condition, k, locals) {
                Ok(_) => match check_expr(if_true, k, locals) {
                    Ok(_) => check_expr(if_false, k, locals),
                    Err(err) => Err(err),
                },
                Err(err) => Err(err),
            }
        },
    }
}

fn check_predicate(p: &Predicate, k: &StructuredKernel, locals: usize) -> (r: Result<
    (),
    ValidationError,
>)
    ensures
        match r {
            Ok(_) => predicate_violation(*p, k@, locals as nat) is None,
            Err(err) => predicate_violation(*p, k@, locals as nat) == Some(err@),
        },
    decreases p,
{
    match p {
        Predicate::Constant(_) => Ok(()),
        Predicate::Compare { lhs, rhs, .. } => match check_expr(lhs, k, locals) {
            Ok(_) => check_expr(rhs, k, locals),
            Err(err) => Err(err),
        },
        Predicate::Not(value) => check_predicate(value, k, locals),
        Predicate::And(lhs, rhs) | Predicate::Or(lhs, rhs) => match check_predicate(
            lhs,
            k,
            locals,
        ) {
            Ok(_) => check_predicate(rhs, k, locals),
            Err(err) => Err(err),
        },
    }
}

fn check_body(k: &StructuredKernel) -> (r: Result<(), ValidationError>)
    ensures
        match r {
            Ok(_) => statements_violation(k@, k.body.statements@.len() as int) is None,
            Err(e) => statements_violation(k@, k.body.statements@.len() as int) == Some(e@),
        },
{
    let ghost km = k@;
    let mut locals: usize = 0;
    let mut i: usize = 0;
    while i < k.body.statements.len()
        invariant
            i <= k.body.statements@.len(),
            km == k@,
            locals == let_count(km.statements, i as int),
            locals <= i,
            statements_violation(km, i as int) is None,
        decreases k.body.statements@.len() - i,
    {
        let result = match &k.body.statements[i] {
            Statement::Let { local, value } => {
                if local.0 != locals {
                    Err(ValidationError::InvalidLocal { expected: locals, actual: local.0 })
                } else {
                    check_expr(value, k, locals)
                }
            },
            Statement::Store { operand, value } => {
                if operand.0 >= k.operands.len() {
                    Err(ValidationError::InvalidOperand(operand.0))
                } else {
                    assert(km.operands[operand.0 as int] == k.operands@[operand.0 as int]@);
                    if !k.operands[operand.0].access.can_write() {
                        Err(ValidationError::InvalidStore(operand.0))
                    } else {
                        check_expr(value, k, locals)
                    }
                }
            },
        };
        match result {
            Ok(_) => {},
            Err(e) => {
                proof {
                    lemma_statements_violation_stable(km, i + 1, k.body.statements@.len() as int);
                }
                return Err(e);
            },
        }
        if let Statement::Let { .. } = &k.body.statements[i] {
            locals = locals + 1;
        }
        i = i + 1;
    }
    Ok(())
}

/// Validate a kernel in place: `Ok` exactly when it has no violation, else the first one.
pub(crate) fn check_kernel(k: &StructuredKernel) -> (r: Result<(), ValidationError>)
    ensures
        match r {
            Ok(_) => kernel_valid(k@),
            Err(e) => kernel_violation(k@) == Some(e@),
        },
{
    if blank(k.name.as_str()) {
        return Err(ValidationError::EmptyName);
    }
    if k.iterators.len() != k.iteration_domain.extents.len() {
        return Err(
            ValidationError::IteratorRank {
                expected: k.iteration_domain.extents.len(),
                actual: k.iterators.len(),
            },
        );
    }
    assert(k@.operands == operand_models(k.operands@));
    match check_operands(&k.operands) {
        Ok(_) => {},
        Err(e) => {
            return Err(e);
        },
    }
    match check_maps(k) {
        Ok(_) => {},
        Err(e) => {
            return Err(e);
        },
    }
    match check_coverage(k) {
        Ok(_) => {},
        Err(e) => {
            return Err(e);
        },
    }
    check_body(k)
}

/// Validate a kernel: `Ok` exactly when it has no violation, else the first violation.
pub fn validate(kernel: StructuredKernel) -> (r: Result<ValidatedKernel, ValidationError>)
    ensures
        match r {
            Ok(v) => v.inner() == kernel && kernel_valid(kernel@),
            Err(e) => kernel_violation(kernel@) == Some(e@),
        },
{
    match check_kernel(&kernel) {
        Ok(_) => Ok(ValidatedKernel(kernel)),
        Err(e) => Err(e),
    }
}


/// The first violation among kernels `0..n` of a module, given the module name is not blank.
pub open spec fn module_kernels_violation(kernels: Seq<KernelModel>, n: int) -> Option<Violation>
    decreases n,
{
    if n <= 0 {
        None
    } else {
        match module_kernels_violation(kernels, n - 1) {
            Some(v) => Some(v),
            None => if exists|j: int|
                0 <= j < n - 1 && (#[trigger] kernels[j]).name == kernels[n - 1].name {
                Some(Violation::DuplicateKernelName(kernels[n - 1].name))
            } else {
                kernel_violation(kernels[n - 1])
            },
        }
    }
}

pub open spec fn kernel_models(kernels: Seq<StructuredKernel>) -> Seq<KernelModel> {
    kernels.map_values(|k: StructuredKernel| k@)
}

/// The first violation of a module: a blank name, a repeated kernel name, or a kernel violation.
pub open spec fn module_violation(name: Seq<char>, kernels: Seq<KernelModel>) -> Option<Violation> {
    if is_blank(name) {
        Some(Violation::EmptyName)
    } else {
        module_kernels_violation(kernels, kernels.len() as int)
    }
}

proof fn lemma_module_kernels_violation_stable(kernels: Seq<KernelModel>, i: int, n: int)
    requires
        0 <= i <= n,
        module_kernels_violation(kernels, i) is Some,
    ensures
        module_kernels_violation(kernels, n) == module_kernels_violation(kernels, i),
    decreases n - i,
{
    if i < n {
        lemma_module_kernels_violation_stable(kernels, i, n - 1);
    }
}

proof fn lemma_module_kernels_valid(kernels: Seq<KernelModel>, n: int)
    requires
        0 <= n <= kernels.len(),
        module_kernels_violation(kernels, n) is None,
    ensures
        forall|i: int| 0 <= i < n ==> kernel_valid(#[trigger] kernels[i]),
        forall|i: int, j: int| 0 <= j < i < n ==> kernels[j].name != kernels[i].name,
    decreases n,
{
    if n > 0 {
        lemma_module_kernels_valid(kernels, n - 1);
    }
}

/// A module whose name and kernels passed [`validate_module`].
#[derive(Debug, PartialEq, Eq)]
pub struct ValidatedModule {
    name: String,
    kernels: Vec<ValidatedKernel>,
}

impl ValidatedModule {
    #[verifier::type_invariant]
    spec fn well_formed(self) -> bool {
        &&& !is_blank(self.name@)
        &&& forall|i: int, j: int|
            0 <= j < i < self.kernels@.len() ==> self.kernels@[j].inner()@.name
                != self.kernels@[i].inner()@.name
    }

    pub closed spec fn module_name(self) -> Seq<char> {
        self.name@
    }

    /// The validated kernels in module order.
    pub closed spec fn module_kernels(self) -> Seq<StructuredKernel> {
        self.kernels@.map_values(|v: ValidatedKernel| v.inner())
    }

    pub fn name(&self) -> (name: &str)
        ensures
            name@ == self.module_name(),
    {
        self.name.as_str()
    }

    pub fn kernels(&self) -> (kernels: &[ValidatedKernel])
        ensures
            kernels@.map_values(|v: ValidatedKernel| v.inner()) == self.module_kernels(),
    {
        self.kernels.as_slice()
    }

    pub fn into_parts(self) -> (parts: (String, Vec<ValidatedKernel>))
        ensures
            parts.0@ == self.module_name(),
            parts.1@.map_values(|v: ValidatedKernel| v.inner()) == self.module_kernels(),
    {
        (self.name, self.kernels)
    }
}

/// Validate a module: its name, the uniqueness of its kernel names, and every kernel.
pub fn validate_module(module: StructuredModule) -> (r: Result<ValidatedModule, ValidationError>)
    ensures
        match r {
            Ok(v) => module_violation(module.name@, kernel_models(module.kernels@)) is None
                && v.module_name() == module.name@ && v.module_kernels() == module.kernels@,
            Err(e) => module_violation(module.name@, kernel_models(module.kernels@)) == Some(e@),
        },
{
    if blank(module.name.as_str()) {
        return Err(ValidationError::EmptyName);
    }
    let ghost models = kernel_models(module.kernels@);
    let mut i: usize = 0;
    while i < module.kernels.len()
        invariant
            i <= module.kernels@.len(),
            models == kernel_models(module.kernels@),
            !is_blank(module.name@),
            module_kernels_violation(models, i as int) is None,
        decreases module.kernels@.len() - i,
    {
        let mut j: usize = 0;
        while j < i
            invariant
                j <= i < module.kernels@.len(),
                models == kernel_models(module.kernels@),
                !is_blank(module.name@),
                module_kernels_violation(models, i as int) is None,
                forall|l: int| 0 <= l < j ==> (#[trigger] models[l]).name != models[i as int].name,
            decreases i - j,
        {
            if module.kernels[j].name == module.kernels[i].name {
                assert(models[j as int].name == models[i as int].name);
                proof {
                    lemma_module_kernels_violation_stable(
                        models,
                        i + 1,
                        module.kernels@.len() as int,
                    );
                }
                return Err(ValidationError::DuplicateKernelName(module.kernels[i].name.clone()));
            }
            j = j + 1;
        }
        match check_kernel(&module.kernels[i]) {
            Ok(_) => {},
            Err(e) => {
                proof {
                    lemma_module_kernels_violation_stable(
                        models,
                        i + 1,
                        module.kernels@.len() as int,
                    );
                }
                return Err(e);
            },
        }
        i = i + 1;
    }
    proof {
        lemma_module_kernels_valid(models, models.len() as int);
    }
    let ghost given = module.kernels@;
    assert forall|l: int| 0 <= l < given.len() implies kernel_valid(#[trigger] given[l]@) by {
        assert(models[l] == given[l]@);
    }
    let mut source = module.kernels;
    let mut kernels: Vec<ValidatedKernel> = Vec::new();
    while source.len() > 0
        invariant
            kernels@.len() + source@.len() == given.len(),
            source@ == given.skip(kernels@.len() as int),
            forall|l: int| 0 <= l < kernels@.len() ==> (#[trigger] kernels@[l]).inner() == given[l],
            forall|l: int| 0 <= l < given.len() ==> kernel_valid(#[trigger] given[l]@),
        decreases source@.len(),
    {
        let ghost before = kernels@.len();
        let kernel = source.remove(0);
        assert(kernel == given[before as int]);
        assert(kernel_models(given)[before as int] == given[before as int]@);
        kernels.push(ValidatedKernel(kernel));
        assert(source@ =~= given.skip(kernels@.len() as int));
    }
    assert forall|a: int, b: int|
        0 <= b < a < kernels@.len() implies kernels@[b].inner()@.name
            != kernels@[a].inner()@.name by {
        assert(models[a] == given[a]@);
        assert(models[b] == given[b]@);
    }
    let validated = ValidatedModule { name: module.name, kernels };
    assert(validated.module_kernels() =~= given);
    Ok(validated)
}


/// A valid kernel has one iterator kind per domain axis.
proof fn lemma_operands_valid(ops: Seq<OperandModel>, n: int)
    requires
        0 <= n <= ops.len(),
        operands_violation(ops, n) is None,
    ensures
        forall|i: int| 0 <= i < n ==> operand_violation(ops, i) is None,
    decreases n,
{
    if n > 0 {
        lemma_operands_valid(ops, n - 1);
    }
}

/// Every operand of a valid kernel has a dense layout over its shape and a region of one slot
/// per element that ends inside `usize`.
pub proof fn lemma_valid_operand_region(k: KernelModel, i: int)
    requires
        kernel_valid(k),
        0 <= i < k.operands.len(),
    ensures
        region_valid(k.operands[i]),
        is_permutation(k.operands[i].layout, k.operands[i].shape.len()),
        count_fits(k.operands[i].shape),
{
    lemma_operands_valid(k.operands, k.operands.len() as int);
    assert(operand_violation(k.operands, i) is None);
}

/// In a valid kernel every map names an existing operand, has one result per dimension of
/// it, and indexes only axes of the domain.
pub(crate) proof fn lemma_valid_map(k: KernelModel, i: int)
    requires
        kernel_valid(k),
        0 <= i < k.maps.len(),
    ensures
        k.maps[i].operand.0 < k.operands.len(),
        k.maps[i].results.len() == k.operands[k.maps[i].operand.0 as int].shape.len(),
        forall|d: int, t: int|
            0 <= d < k.maps[i].results.len() && 0 <= t < k.maps[i].results[d].terms.len()
                ==> (#[trigger] k.maps[i].results[d].terms[t]).axis.0 < k.extents.len(),
{
    if maps_violation(k, i + 1) is Some {
        lemma_maps_violation_stable(k, i + 1, k.maps.len() as int);
    }
    let m = k.maps[i];
    let shape = k.operands[m.operand.0 as int].shape;
    lemma_dimensions_valid(m, shape, k.extents, m.results.len() as int);
    assert forall|d: int, t: int|
        0 <= d < m.results.len() && 0 <= t < m.results[d].terms.len() implies (#[trigger] m.results[d].terms[t]).axis.0
            < k.extents.len() by {
        assert(dimension_violation(m.results[d], m.operand.0, d, k.extents, shape[d]) is None);
        lemma_terms_valid(m.results[d], m.operand.0, k.extents.len(), m.results[d].terms.len() as int);
    }
}

/// In a valid kernel every operand has an indexing map.
pub(crate) proof fn lemma_valid_has_map(k: KernelModel, op: int)
    requires
        kernel_valid(k),
        0 <= op < k.operands.len(),
    ensures
        has_map(k, op),
{
    if missing_map(k, op + 1) is Some {
        lemma_missing_map_stable(k, op + 1, k.operands.len() as int);
    }
}

/// A valid kernel declares one iterator kind per axis of its domain.
pub proof fn lemma_valid_iterator_rank(k: KernelModel)
    requires
        kernel_valid(k),
    ensures
        k.iterators.len() == k.extents.len(),
{
}

/// Whether two index lists are equal.
pub fn indices_equal(a: &Vec<usize>, b: &Vec<usize>) -> (r: bool)
    ensures
        r == (a@ == b@),
{
    if a.len() != b.len() {
        return false;
    }
    let mut i: usize = 0;
    while i < a.len()
        invariant
            i <= a@.len(),
            a@.len() == b@.len(),
            forall|j: int| 0 <= j < i ==> a@[j] == b@[j],
        decreases a@.len() - i,
    {
        if a[i] != b[i] {
            return false;
        }
        i = i + 1;
    }
    assert(a@ =~= b@);
    true
}

/// Whether two strings hold the same characters.
pub fn str_equal(a: &str, b: &str) -> (r: bool)
    ensures
        r == (a@ == b@),
{
    let x = a.to_owned();
    let y = b.to_owned();
    x == y
}

impl Clone for ValidatedKernel {
    fn clone(&self) -> (v: Self)
        ensures
            v.inner()@ == self.inner()@,
    {
        self.copy()
    }
}

// ---------------------------------------------------------------------------------------------
// What a valid map promises of plain writes
// ---------------------------------------------------------------------------------------------
/// A point of the iteration domain: one coordinate per axis, each below its extent.
pub open spec fn in_domain(extents: Seq<usize>, coords: Seq<usize>) -> bool {
    &&& coords.len() == extents.len()
    &&& forall|a: int| 0 <= a < extents.len() ==> #[trigger] coords[a] < extents[a]
}

/// The sum of the coefficients of the first `n` terms on axis `axis`.
pub open spec fn axis_coefficient(terms: Seq<IndexTerm>, axis: int, n: int) -> int
    decreases n,
{
    if n <= 0 {
        0
    } else {
        axis_coefficient(terms, axis, n - 1) + if terms[n - 1].axis.0 == axis {
            terms[n - 1].coefficient as int
        } else {
            0
        }
    }
}

proof fn lemma_index_value_prefix(e: IndexExprModel, coords: Seq<usize>, i: int, n: int)
    requires
        0 <= i <= n,
        index_value(e, coords, n) is Some,
    ensures
        index_value(e, coords, i) is Some,
    decreases n - i,
{
    if i < n {
        lemma_index_value_prefix(e, coords, i, n - 1);
    }
}

/// At two points that agree on every axis that a nonzero term of `e` reads, except perhaps
/// `axis`, the index values differ by the coefficient of `axis` times the coordinate change.
proof fn lemma_index_value_difference(e: IndexExprModel, p1: Seq<usize>, p2: Seq<usize>, axis: int, n: int)
    requires
        0 <= n <= e.terms.len(),
        index_value(e, p1, n) is Some,
        index_value(e, p2, n) is Some,
        forall|t: int|
            0 <= t < e.terms.len() && (#[trigger] e.terms[t]).axis.0 != axis && e.terms[t].coefficient != 0
                ==> p1[e.terms[t].axis.0 as int] == p2[e.terms[t].axis.0 as int],
    ensures
        index_value(e, p1, n)->Some_0 - index_value(e, p2, n)->Some_0 == axis_coefficient(e.terms, axis, n) * (
        (p1[axis] as isize) - (p2[axis] as isize)),
    decreases n,
{
    if n > 0 {
        lemma_index_value_difference(e, p1, p2, axis, n - 1);
        let t = e.terms[n - 1];
        let c = t.coefficient as int;
        let x1 = (p1[axis] as isize) as int;
        let x2 = (p2[axis] as isize) as int;
        let s = axis_coefficient(e.terms, axis, n - 1);
        let y1 = (p1[t.axis.0 as int] as isize) as int;
        let y2 = (p2[t.axis.0 as int] as isize) as int;
        if t.axis.0 == axis {
            assert(c * y1 - c * y2 + s * (x1 - x2) == (s + c) * (x1 - x2)) by (nonlinear_arith)
                requires y1 == x1, y2 == x2;
        } else if c == 0 {
            assert(c * y1 == 0 && c * y2 == 0) by (nonlinear_arith) requires c == 0;
        } else {
            assert(y1 == y2);
        }
    }
}

/// With distinct axes, the coefficient of an axis is that of its one term.
proof fn lemma_axis_coefficient_single(terms: Seq<IndexTerm>, axis: int, t0: int, n: int)
    requires
        0 <= t0 < terms.len(),
        0 <= n <= terms.len(),
        terms[t0].axis.0 == axis,
        forall|t: int, s: int| 0 <= s < t < terms.len() ==> terms[s].axis != terms[t].axis,
    ensures
        axis_coefficient(terms, axis, n) == if t0 < n { terms[t0].coefficient as int } else { 0 },
    decreases n,
{
    if n > 0 {
        lemma_axis_coefficient_single(terms, axis, t0, n - 1);
        if n - 1 != t0 {
            assert(terms[n - 1].axis != terms[t0].axis);
        }
    }
}

proof fn lemma_element_indices_values(indices: Seq<IndexExprModel>, shape: Seq<usize>, coords: Seq<usize>, n: int)
    requires
        0 <= n,
        element_indices(indices, shape, coords, n) is Some,
    ensures
        element_indices(indices, shape, coords, n)->Some_0.len() == n,
        forall|d: int|
            0 <= d < n ==> #[trigger] index_value(indices[d], coords, indices[d].terms.len() as int) is Some
                && element_indices(indices, shape, coords, n)->Some_0[d] as int == index_value(
                indices[d],
                coords,
                indices[d].terms.len() as int,
            )->Some_0,
    decreases n,
{
    if n > 0 {
        lemma_element_indices_values(indices, shape, coords, n - 1);
    }
}

/// Plain writes never collide: in a valid kernel, the map of an operand that is written
/// without reduction (`Write` or `ReadWrite`) sends two distinct points of the iteration
/// domain to distinct elements, so no iteration point overwrites another's result.
pub proof fn lemma_plain_writes_are_injective(k: KernelModel, i: int, p1: Seq<usize>, p2: Seq<usize>)
    requires
        kernel_valid(k),
        0 <= i < k.maps.len(),
        k.operands[k.maps[i].operand.0 as int].access is Write || k.operands[k.maps[i].operand.0 as int].access is ReadWrite,
        in_domain(k.extents, p1),
        in_domain(k.extents, p2),
        p1 != p2,
        element_indices(k.maps[i].results, k.operands[k.maps[i].operand.0 as int].shape, p1, k.maps[i].results.len() as int) is Some,
        element_indices(k.maps[i].results, k.operands[k.maps[i].operand.0 as int].shape, p2, k.maps[i].results.len() as int) is Some,
    ensures
        element_indices(k.maps[i].results, k.operands[k.maps[i].operand.0 as int].shape, p1, k.maps[i].results.len() as int)
            != element_indices(k.maps[i].results, k.operands[k.maps[i].operand.0 as int].shape, p2, k.maps[i].results.len() as int),
{
    let m = k.maps[i];
    let shape = k.operands[m.operand.0 as int].shape;
    if maps_violation(k, i + 1) is Some {
        lemma_maps_violation_stable(k, i + 1, k.maps.len() as int);
    }
    assert(map_violation(k, i) is None);
    lemma_valid_map(k, i);
    assert(simple_injective(m, k.extents));
    lemma_dimensions_valid(m, shape, k.extents, m.results.len() as int);
    // Two distinct points differ on some axis, which therefore takes more than one value.
    let axis = choose|a: int| 0 <= a < p1.len() && p1[a] != p2[a];
    if !(exists|a: int| 0 <= a < p1.len() && p1[a] != p2[a]) {
        assert(p1 =~= p2);
    }
    assert(p1[axis] < k.extents[axis] && p2[axis] < k.extents[axis]);
    assert(k.extents[axis] > 1);
    let d = choose|d: int| 0 <= d < m.results.len() && private_axis(#[trigger] m.results[d], axis, k.extents);
    let e = m.results[d];
    assert(dimension_violation(e, m.operand.0, d, k.extents, shape[d]) is None);
    lemma_terms_valid(e, m.operand.0, k.extents.len(), e.terms.len() as int);
    let t0 = choose|t: int| 0 <= t < e.terms.len() && (#[trigger] e.terms[t]).axis.0 == axis && e.terms[t].coefficient != 0;
    lemma_element_indices_values(m.results, shape, p1, m.results.len() as int);
    lemma_element_indices_values(m.results, shape, p2, m.results.len() as int);
    let n = e.terms.len() as int;
    assert(index_value(e, p1, n) is Some);
    assert(index_value(e, p2, n) is Some);
    assert forall|t: int|
        0 <= t < e.terms.len() && (#[trigger] e.terms[t]).axis.0 != axis && e.terms[t].coefficient != 0
            implies p1[e.terms[t].axis.0 as int] == p2[e.terms[t].axis.0 as int] by {
        let b = e.terms[t].axis.0 as int;
        assert(k.extents[b] <= 1);
        assert(p1[b] < k.extents[b] && p2[b] < k.extents[b]);
    }
    lemma_index_value_difference(e, p1, p2, axis, n);
    lemma_axis_coefficient_single(e.terms, axis, t0, n);
    let c = e.terms[t0].coefficient as int;
    let u1 = p1[axis];
    let u2 = p2[axis];
    assert(u1 as isize != u2 as isize) by (bit_vector)
        requires u1 != u2;
    let x = (u1 as isize) - (u2 as isize);
    assert(c * x != 0) by (nonlinear_arith) requires c != 0, x != 0;
    let r1 = element_indices(m.results, shape, p1, m.results.len() as int)->Some_0;
    let r2 = element_indices(m.results, shape, p2, m.results.len() as int)->Some_0;
    assert(r1[d] != r2[d]);
}

/// The exact value of the first `n` terms of an affine index at a point.
pub open spec fn term_sum(terms: Seq<IndexTerm>, coords: Seq<usize>) -> int
    decreases terms.len(),
{
    if terms.len() == 0 {
        0
    } else {
        term_sum(terms.drop_last(), coords) + terms.last().coefficient * coords[terms.last().axis.0 as int]
    }
}

/// The exact value of an affine index at a point.
pub open spec fn affine_value(e: IndexExprModel, coords: Seq<usize>) -> int {
    e.constant + term_sum(e.terms, coords)
}

proof fn lemma_term_sum_between(terms: Seq<IndexTerm>, extents: Seq<usize>, coords: Seq<usize>)
    requires
        in_domain(extents, coords),
        forall|t: int| 0 <= t < terms.len() ==> (#[trigger] terms[t]).axis.0 < extents.len(),
    ensures
        low_sum(terms, extents) <= term_sum(terms, coords) <= high_sum(terms, extents),
    decreases terms.len(),
{
    if terms.len() > 0 {
        let rest = terms.drop_last();
        assert forall|t: int| 0 <= t < rest.len() implies (#[trigger] rest[t]).axis.0 < extents.len() by {
            assert(rest[t] == terms[t]);
        }
        lemma_term_sum_between(rest, extents, coords);
        let t = terms.last();
        let a = t.axis.0 as int;
        assert(terms[terms.len() - 1] == t);
        let x = coords[a] as int;
        let span = axis_span(extents, t.axis.0);
        assert(0 <= x <= span);
        let c = t.coefficient as int;
        assert(term_value_at_span(t, extents) == c * span);
        assert(term_low(t, extents) <= c * x <= term_high(t, extents)) by {
            if c >= 0 {
                assert(0 <= c * x <= c * span) by (nonlinear_arith) requires c >= 0, 0 <= x <= span;
            } else {
                assert(c * span <= c * x <= 0) by (nonlinear_arith) requires c < 0, 0 <= x <= span;
            }
        }
    }
}

/// Validation bounds every index: in a valid kernel, at every point of the iteration domain,
/// each result of every indexing map, computed exactly, lies inside its operand's dimension.
pub proof fn lemma_valid_indices_in_bounds(k: KernelModel, i: int, d: int, p: Seq<usize>)
    requires
        kernel_valid(k),
        0 <= i < k.maps.len(),
        0 <= d < k.maps[i].results.len(),
        in_domain(k.extents, p),
    ensures
        0 <= affine_value(k.maps[i].results[d], p) < k.operands[k.maps[i].operand.0 as int].shape[d],
{
    let m = k.maps[i];
    let shape = k.operands[m.operand.0 as int].shape;
    lemma_valid_map(k, i);
    if maps_violation(k, i + 1) is Some {
        lemma_maps_violation_stable(k, i + 1, k.maps.len() as int);
    }
    assert(map_violation(k, i) is None);
    lemma_dimensions_valid(m, shape, k.extents, m.results.len() as int);
    let e = m.results[d];
    assert(dimension_violation(e, m.operand.0, d, k.extents, shape[d]) is None);
    lemma_terms_valid(e, m.operand.0, k.extents.len(), e.terms.len() as int);
    lemma_term_sum_between(e.terms, k.extents, p);
}

} // verus!
