//! Symbolic rules of structured differentiation: local expansion, operand renaming, the chain
//! rule for every scalar operation, and the algebraic clean-up applied to derivative values.
use vstd::prelude::*;

use crate::ir::{AxisId, BinaryOp, CompareOp, OperandId, Predicate, ScalarExpr, UnaryOp};

verus! {

/// The bits of `0.0`.
pub const ZERO_BITS: u64 = 0u64;

/// The bits of `1.0`.
pub const ONE_BITS: u64 = 0x3ff0_0000_0000_0000u64;

/// The bits of `2.0`.
pub const TWO_BITS: u64 = 0x4000_0000_0000_0000u64;

/// The bits of `-0.0`.
pub const NEGATIVE_ZERO_BITS: u64 = 0x8000_0000_0000_0000u64;

/// A constant equal to zero as a double: `0.0` or `-0.0`.
pub open spec fn is_zero(e: ScalarExpr) -> bool {
    e matches ScalarExpr::Constant(bits) && (bits == ZERO_BITS || bits == NEGATIVE_ZERO_BITS)
}

/// The constant `1.0`.
pub open spec fn is_one(e: ScalarExpr) -> bool {
    e matches ScalarExpr::Constant(bits) && bits == ONE_BITS
}

pub open spec fn zero() -> ScalarExpr {
    ScalarExpr::Constant(ZERO_BITS)
}

pub open spec fn unary(op: UnaryOp, arg: ScalarExpr) -> ScalarExpr {
    ScalarExpr::Unary { op, arg: Box::new(arg) }
}

pub open spec fn binary(op: BinaryOp, lhs: ScalarExpr, rhs: ScalarExpr) -> ScalarExpr {
    ScalarExpr::Binary { op, lhs: Box::new(lhs), rhs: Box::new(rhs) }
}


/// Every local of the expression is below `n`.
pub open spec fn locals_below(e: ScalarExpr, n: nat) -> bool
    decreases e,
{
    match e {
        ScalarExpr::Local(id) => id.0 < n,
        ScalarExpr::Unary { arg, .. } => locals_below(*arg, n),
        ScalarExpr::Binary { lhs, rhs, .. } => locals_below(*lhs, n) && locals_below(*rhs, n),
        ScalarExpr::Select { condition, if_true, if_false } => predicate_locals_below(*condition, n)
            && locals_below(*if_true, n) && locals_below(*if_false, n),
        _ => true,
    }
}

pub open spec fn predicate_locals_below(p: Predicate, n: nat) -> bool
    decreases p,
{
    match p {
        Predicate::Constant(_) => true,
        Predicate::Compare { lhs, rhs, .. } => locals_below(*lhs, n) && locals_below(*rhs, n),
        Predicate::Not(value) => predicate_locals_below(*value, n),
        Predicate::And(lhs, rhs) | Predicate::Or(lhs, rhs) => predicate_locals_below(*lhs, n)
            && predicate_locals_below(*rhs, n),
    }
}

/// Every load of the expression names an operand below `n`.
pub open spec fn loads_below(e: ScalarExpr, n: nat) -> bool
    decreases e,
{
    match e {
        ScalarExpr::Load(id) => id.0 < n,
        ScalarExpr::Unary { arg, .. } => loads_below(*arg, n),
        ScalarExpr::Binary { lhs, rhs, .. } => loads_below(*lhs, n) && loads_below(*rhs, n),
        ScalarExpr::Select { condition, if_true, if_false } => predicate_loads_below(*condition, n)
            && loads_below(*if_true, n) && loads_below(*if_false, n),
        _ => true,
    }
}

pub open spec fn predicate_loads_below(p: Predicate, n: nat) -> bool
    decreases p,
{
    match p {
        Predicate::Constant(_) => true,
        Predicate::Compare { lhs, rhs, .. } => loads_below(*lhs, n) && loads_below(*rhs, n),
        Predicate::Not(value) => predicate_loads_below(*value, n),
        Predicate::And(lhs, rhs) | Predicate::Or(lhs, rhs) => predicate_loads_below(*lhs, n)
            && predicate_loads_below(*rhs, n),
    }
}

/// An expression in scope loads only existing operands and reads only defined locals.
pub(crate) proof fn lemma_scope_parts(e: ScalarExpr, operands: nat, locals: nat)
    requires
        crate::validate::expr_in_scope(e, operands, locals),
    ensures
        loads_below(e, operands),
        locals_below(e, locals),
    decreases e,
{
    match e {
        ScalarExpr::Unary { arg, .. } => lemma_scope_parts(*arg, operands, locals),
        ScalarExpr::Binary { lhs, rhs, .. } => {
            lemma_scope_parts(*lhs, operands, locals);
            lemma_scope_parts(*rhs, operands, locals);
        },
        ScalarExpr::Select { condition, if_true, if_false } => {
            lemma_predicate_scope_parts(*condition, operands, locals);
            lemma_scope_parts(*if_true, operands, locals);
            lemma_scope_parts(*if_false, operands, locals);
        },
        _ => {},
    }
}

/// A predicate in scope loads only existing operands and reads only defined locals.
pub(crate) proof fn lemma_predicate_scope_parts(p: Predicate, operands: nat, locals: nat)
    requires
        crate::validate::predicate_in_scope(p, operands, locals),
    ensures
        predicate_loads_below(p, operands),
        predicate_locals_below(p, locals),
    decreases p,
{
    match p {
        Predicate::Compare { lhs, rhs, .. } => {
            lemma_scope_parts(*lhs, operands, locals);
            lemma_scope_parts(*rhs, operands, locals);
        },
        Predicate::Not(value) => lemma_predicate_scope_parts(*value, operands, locals),
        Predicate::And(lhs, rhs) | Predicate::Or(lhs, rhs) => {
            lemma_predicate_scope_parts(*lhs, operands, locals);
            lemma_predicate_scope_parts(*rhs, operands, locals);
        },
        _ => {},
    }
}

// ---------------------------------------------------------------------------------------------
// Local expansion
// ---------------------------------------------------------------------------------------------
/// Substitute every local by its (already expanded) definition.
pub open spec fn expand(e: ScalarExpr, locals: Seq<ScalarExpr>) -> ScalarExpr
    decreases e,
{
    match e {
        ScalarExpr::Local(local) => locals[local.0 as int],
        ScalarExpr::Unary { op, arg } => unary(op, expand(*arg, locals)),
        ScalarExpr::Binary { op, lhs, rhs } => binary(op, expand(*lhs, locals), expand(*rhs, locals)),
        ScalarExpr::Select { condition, if_true, if_false } => ScalarExpr::Select {
            condition: Box::new(expand_predicate(*condition, locals)),
            if_true: Box::new(expand(*if_true, locals)),
            if_false: Box::new(expand(*if_false, locals)),
        },
        other => other,
    }
}

pub open spec fn expand_predicate(p: Predicate, locals: Seq<ScalarExpr>) -> Predicate
    decreases p,
{
    match p {
        Predicate::Constant(value) => Predicate::Constant(value),
        Predicate::Compare { op, lhs, rhs } => Predicate::Compare {
            op,
            lhs: Box::new(expand(*lhs, locals)),
            rhs: Box::new(expand(*rhs, locals)),
        },
        Predicate::Not(value) => Predicate::Not(Box::new(expand_predicate(*value, locals))),
        Predicate::And(lhs, rhs) => Predicate::And(
            Box::new(expand_predicate(*lhs, locals)),
            Box::new(expand_predicate(*rhs, locals)),
        ),
        Predicate::Or(lhs, rhs) => Predicate::Or(
            Box::new(expand_predicate(*lhs, locals)),
            Box::new(expand_predicate(*rhs, locals)),
        ),
    }
}

pub fn expand_locals(e: &ScalarExpr, locals: &Vec<ScalarExpr>) -> (r: ScalarExpr)
    requires
        locals_below(*e, locals@.len()),
    ensures
        r == expand(*e, locals@),
    decreases e,
{
    match e {
        ScalarExpr::Local(local) => locals[local.0].copy(),
        ScalarExpr::Unary { op, arg } => ScalarExpr::unary(*op, expand_locals(arg, locals)),
        ScalarExpr::Binary { op, lhs, rhs } => ScalarExpr::binary(
            *op,
            expand_locals(lhs, locals),
            expand_locals(rhs, locals),
        ),
        ScalarExpr::Select { condition, if_true, if_false } => ScalarExpr::Select {
            condition: Box::new(expand_locals_predicate(condition, locals)),
            if_true: Box::new(expand_locals(if_true, locals)),
            if_false: Box::new(expand_locals(if_false, locals)),
        },
        other => other.copy(),
    }
}

pub fn expand_locals_predicate(p: &Predicate, locals: &Vec<ScalarExpr>) -> (r: Predicate)
    requires
        predicate_locals_below(*p, locals@.len()),
    ensures
        r == expand_predicate(*p, locals@),
    decreases p,
{
    match p {
        Predicate::Constant(value) => Predicate::Constant(*value),
        Predicate::Compare { op, lhs, rhs } => Predicate::Compare {
            op: *op,
            lhs: Box::new(expand_locals(lhs, locals)),
            rhs: Box::new(expand_locals(rhs, locals)),
        },
        Predicate::Not(value) => Predicate::Not(Box::new(expand_locals_predicate(value, locals))),
        Predicate::And(lhs, rhs) => Predicate::And(
            Box::new(expand_locals_predicate(lhs, locals)),
            Box::new(expand_locals_predicate(rhs, locals)),
        ),
        Predicate::Or(lhs, rhs) => Predicate::Or(
            Box::new(expand_locals_predicate(lhs, locals)),
            Box::new(expand_locals_predicate(rhs, locals)),
        ),
    }
}

// ---------------------------------------------------------------------------------------------
// Operand renaming
// ---------------------------------------------------------------------------------------------
/// Rename every load through `ids`, indexed by the old operand number.
pub open spec fn rename(e: ScalarExpr, ids: Seq<OperandId>) -> ScalarExpr
    decreases e,
{
    match e {
        ScalarExpr::Load(op) => ScalarExpr::Load(ids[op.0 as int]),
        ScalarExpr::Unary { op, arg } => unary(op, rename(*arg, ids)),
        ScalarExpr::Binary { op, lhs, rhs } => binary(op, rename(*lhs, ids), rename(*rhs, ids)),
        ScalarExpr::Select { condition, if_true, if_false } => ScalarExpr::Select {
            condition: Box::new(rename_predicate(*condition, ids)),
            if_true: Box::new(rename(*if_true, ids)),
            if_false: Box::new(rename(*if_false, ids)),
        },
        other => other,
    }
}

pub open spec fn rename_predicate(p: Predicate, ids: Seq<OperandId>) -> Predicate
    decreases p,
{
    match p {
        Predicate::Constant(value) => Predicate::Constant(value),
        Predicate::Compare { op, lhs, rhs } => Predicate::Compare {
            op,
            lhs: Box::new(rename(*lhs, ids)),
            rhs: Box::new(rename(*rhs, ids)),
        },
        Predicate::Not(value) => Predicate::Not(Box::new(rename_predicate(*value, ids))),
        Predicate::And(lhs, rhs) => Predicate::And(
            Box::new(rename_predicate(*lhs, ids)),
            Box::new(rename_predicate(*rhs, ids)),
        ),
        Predicate::Or(lhs, rhs) => Predicate::Or(
            Box::new(rename_predicate(*lhs, ids)),
            Box::new(rename_predicate(*rhs, ids)),
        ),
    }
}

pub fn remap_expr(e: &ScalarExpr, ids: &Vec<OperandId>) -> (r: ScalarExpr)
    requires
        loads_below(*e, ids@.len()),
    ensures
        r == rename(*e, ids@),
    decreases e,
{
    match e {
        ScalarExpr::Load(op) => ScalarExpr::Load(ids[op.0]),
        ScalarExpr::Unary { op, arg } => ScalarExpr::unary(*op, remap_expr(arg, ids)),
        ScalarExpr::Binary { op, lhs, rhs } => ScalarExpr::binary(
            *op,
            remap_expr(lhs, ids),
            remap_expr(rhs, ids),
        ),
        ScalarExpr::Select { condition, if_true, if_false } => ScalarExpr::Select {
            condition: Box::new(remap_predicate(condition, ids)),
            if_true: Box::new(remap_expr(if_true, ids)),
            if_false: Box::new(remap_expr(if_false, ids)),
        },
        other => other.copy(),
    }
}

pub fn remap_predicate(p: &Predicate, ids: &Vec<OperandId>) -> (r: Predicate)
    requires
        predicate_loads_below(*p, ids@.len()),
    ensures
        r == rename_predicate(*p, ids@),
    decreases p,
{
    match p {
        Predicate::Constant(value) => Predicate::Constant(*value),
        Predicate::Compare { op, lhs, rhs } => Predicate::Compare {
            op: *op,
            lhs: Box::new(remap_expr(lhs, ids)),
            rhs: Box::new(remap_expr(rhs, ids)),
        },
        Predicate::Not(value) => Predicate::Not(Box::new(remap_predicate(value, ids))),
        Predicate::And(lhs, rhs) => Predicate::And(
            Box::new(remap_predicate(lhs, ids)),
            Box::new(remap_predicate(rhs, ids)),
        ),
        Predicate::Or(lhs, rhs) => Predicate::Or(
            Box::new(remap_predicate(lhs, ids)),
            Box::new(remap_predicate(rhs, ids)),
        ),
    }
}

// ---------------------------------------------------------------------------------------------
// Chain rule
// ---------------------------------------------------------------------------------------------
/// How a load is differentiated.
///
/// With `partial` set to `Some(x)`, a load of `x` has derivative `1.0` and every other load
/// `0.0` (a partial derivative). Otherwise a load of `op` has derivative `Load(t)` where
/// `tangents[op] == Some(t)`, and `0.0` where it is `None` (a directional derivative).
pub open spec fn load_derivative(op: OperandId, tangents: Seq<Option<OperandId>>, partial: Option<
    OperandId,
>) -> ScalarExpr {
    match partial {
        Some(x) => ScalarExpr::Constant(if op == x { ONE_BITS } else { ZERO_BITS }),
        None => match tangents[op.0 as int] {
            Some(t) => ScalarExpr::Load(t),
            None => zero(),
        },
    }
}

/// The derivative of an expression whose locals are expanded.
pub open spec fn chain_rule(e: ScalarExpr, tangents: Seq<Option<OperandId>>, partial: Option<
    OperandId,
>) -> ScalarExpr
    decreases e,
{
    match e {
        ScalarExpr::Constant(_) | ScalarExpr::Index(_) | ScalarExpr::Local(_) => zero(),
        ScalarExpr::Load(op) => load_derivative(op, tangents, partial),
        ScalarExpr::Unary { op, arg } => {
            let a = *arg;
            let da = chain_rule(a, tangents, partial);
            match op {
                UnaryOp::Neg => unary(UnaryOp::Neg, da),
                UnaryOp::Abs => ScalarExpr::Select {
                    condition: Box::new(
                        Predicate::Compare {
                            op: CompareOp::GreaterEqual,
                            lhs: Box::new(a),
                            rhs: Box::new(zero()),
                        },
                    ),
                    if_true: Box::new(da),
                    if_false: Box::new(unary(UnaryOp::Neg, da)),
                },
                UnaryOp::Sqrt => binary(
                    BinaryOp::Div,
                    da,
                    binary(BinaryOp::Mul, ScalarExpr::Constant(TWO_BITS), unary(UnaryOp::Sqrt, a)),
                ),
                UnaryOp::Exp => binary(BinaryOp::Mul, unary(UnaryOp::Exp, a), da),
                UnaryOp::Ln => binary(BinaryOp::Div, da, a),
                UnaryOp::Sin => binary(BinaryOp::Mul, unary(UnaryOp::Cos, a), da),
                UnaryOp::Cos => unary(
                    UnaryOp::Neg,
                    binary(BinaryOp::Mul, unary(UnaryOp::Sin, a), da),
                ),
                UnaryOp::Tan => binary(
                    BinaryOp::Div,
                    da,
                    binary(BinaryOp::Pow, unary(UnaryOp::Cos, a), ScalarExpr::Constant(TWO_BITS)),
                ),
                UnaryOp::Floor | UnaryOp::Ceil => zero(),
            }
        },
        ScalarExpr::Binary { op, lhs, rhs } => {
            let l = *lhs;
            let r = *rhs;
            let dl = simplify(chain_rule(l, tangents, partial));
            let dr = simplify(chain_rule(r, tangents, partial));
            match op {
                BinaryOp::Add => binary(BinaryOp::Add, dl, dr),
                BinaryOp::Sub => binary(BinaryOp::Sub, dl, dr),
                BinaryOp::Mul => binary(
                    BinaryOp::Add,
                    binary(BinaryOp::Mul, dl, r),
                    binary(BinaryOp::Mul, l, dr),
                ),
                BinaryOp::Div => binary(
                    BinaryOp::Div,
                    binary(BinaryOp::Sub, binary(BinaryOp::Mul, dl, r), binary(BinaryOp::Mul, l, dr)),
                    binary(BinaryOp::Mul, r, r),
                ),
                BinaryOp::Pow => binary(
                    BinaryOp::Add,
                    binary(
                        BinaryOp::Mul,
                        binary(
                            BinaryOp::Mul,
                            r,
                            binary(
                                BinaryOp::Pow,
                                l,
                                binary(BinaryOp::Sub, r, ScalarExpr::Constant(ONE_BITS)),
                            ),
                        ),
                        dl,
                    ),
                    binary(
                        BinaryOp::Mul,
                        binary(BinaryOp::Mul, binary(BinaryOp::Pow, l, r), unary(UnaryOp::Ln, l)),
                        dr,
                    ),
                ),
                BinaryOp::Min | BinaryOp::Max => ScalarExpr::Select {
                    condition: Box::new(
                        Predicate::Compare {
                            op: if op is Min {
                                CompareOp::LessEqual
                            } else {
                                CompareOp::GreaterEqual
                            },
                            lhs: Box::new(l),
                            rhs: Box::new(r),
                        },
                    ),
                    if_true: Box::new(dl),
                    if_false: Box::new(dr),
                },
                BinaryOp::Atan2 => binary(
                    BinaryOp::Div,
                    binary(BinaryOp::Sub, binary(BinaryOp::Mul, r, dl), binary(BinaryOp::Mul, l, dr)),
                    binary(BinaryOp::Add, binary(BinaryOp::Mul, l, l), binary(BinaryOp::Mul, r, r)),
                ),
            }
        },
        ScalarExpr::Select { condition, if_true, if_false } => ScalarExpr::Select {
            condition,
            if_true: Box::new(chain_rule(*if_true, tangents, partial)),
            if_false: Box::new(chain_rule(*if_false, tangents, partial)),
        },
    }
}

/// The algebraic clean-up of derivative values: drop additions of zero, multiplications by
/// zero and one, divisions of zero and by one, and negations of zero.
pub open spec fn simplify(e: ScalarExpr) -> ScalarExpr
    decreases e,
{
    match e {
        ScalarExpr::Unary { op, arg } => {
            let a = simplify(*arg);
            if op is Neg && is_zero(a) {
                zero()
            } else {
                unary(op, a)
            }
        },
        ScalarExpr::Binary { op, lhs, rhs } => {
            let l = simplify(*lhs);
            let r = simplify(*rhs);
            if (op is Add || op is Sub) && is_zero(r) {
                l
            } else if op is Add && is_zero(l) {
                r
            } else if op is Mul && (is_zero(l) || is_zero(r)) {
                zero()
            } else if op is Mul && is_one(l) {
                r
            } else if op is Mul && is_one(r) {
                l
            } else if op is Div && is_zero(l) {
                zero()
            } else if op is Div && is_one(r) {
                l
            } else {
                binary(op, l, r)
            }
        },
        ScalarExpr::Select { condition, if_true, if_false } => ScalarExpr::Select {
            condition,
            if_true: Box::new(simplify(*if_true)),
            if_false: Box::new(simplify(*if_false)),
        },
        other => other,
    }
}

fn zero_constant() -> (r: ScalarExpr)
    ensures
        r == zero(),
{
    ScalarExpr::Constant(ZERO_BITS)
}

fn zero_test(e: &ScalarExpr) -> (r: bool)
    ensures
        r == is_zero(*e),
{
    match e {
        ScalarExpr::Constant(bits) => *bits == ZERO_BITS || *bits == NEGATIVE_ZERO_BITS,
        _ => false,
    }
}

fn one_test(e: &ScalarExpr) -> (r: bool)
    ensures
        r == is_one(*e),
{
    match e {
        ScalarExpr::Constant(bits) => *bits == ONE_BITS,
        _ => false,
    }
}

pub fn simplify_expr(e: ScalarExpr) -> (r: ScalarExpr)
    ensures
        r == simplify(e),
    decreases e,
{
    match e {
        ScalarExpr::Unary { op, arg } => {
            let a = simplify_expr(*arg);
            if matches!(op, UnaryOp::Neg) && zero_test(&a) {
                zero_constant()
            } else {
                ScalarExpr::unary(op, a)
            }
        },
        ScalarExpr::Binary { op, lhs, rhs } => {
            let l = simplify_expr(*lhs);
            let r = simplify_expr(*rhs);
            let is_add = matches!(op, BinaryOp::Add);
            let is_sub = matches!(op, BinaryOp::Sub);
            let is_mul = matches!(op, BinaryOp::Mul);
            let is_div = matches!(op, BinaryOp::Div);
            if (is_add || is_sub) && zero_test(&r) {
                l
            } else if is_add && zero_test(&l) {
                r
            } else if is_mul && (zero_test(&l) || zero_test(&r)) {
                zero_constant()
            } else if is_mul && one_test(&l) {
                r
            } else if is_mul && one_test(&r) {
                l
            } else if is_div && zero_test(&l) {
                zero_constant()
            } else if is_div && one_test(&r) {
                l
            } else {
                ScalarExpr::binary(op, l, r)
            }
        },
        ScalarExpr::Select { condition, if_true, if_false } => ScalarExpr::Select {
            condition,
            if_true: Box::new(simplify_expr(*if_true)),
            if_false: Box::new(simplify_expr(*if_false)),
        },
        other => other,
    }
}

fn load_rule(op: OperandId, tangents: &Vec<Option<OperandId>>, partial: Option<OperandId>) -> (r:
    ScalarExpr)
    requires
        partial is None ==> op.0 < tangents@.len(),
    ensures
        r == load_derivative(op, tangents@, partial),
{
    match partial {
        Some(x) => ScalarExpr::Constant(if op.0 == x.0 { ONE_BITS } else { ZERO_BITS }),
        None => match tangents[op.0] {
            Some(t) => ScalarExpr::Load(t),
            None => zero_constant(),
        },
    }
}

/// Apply the chain rule to an expression whose locals are expanded.
pub fn derivative(e: &ScalarExpr, tangents: &Vec<Option<OperandId>>, partial: Option<OperandId>) -> (r:
    ScalarExpr)
    requires
        partial is None ==> loads_below(*e, tangents@.len()),
    ensures
        r == chain_rule(*e, tangents@, partial),
    decreases e,
{
    match e {
        ScalarExpr::Constant(_) | ScalarExpr::Index(_) | ScalarExpr::Local(_) => zero_constant(),
        ScalarExpr::Load(op) => load_rule(*op, tangents, partial),
        ScalarExpr::Unary { op, arg } => {
            let da = derivative(arg, tangents, partial);
            match op {
                UnaryOp::Neg => ScalarExpr::unary(UnaryOp::Neg, da),
                UnaryOp::Abs => {
                    let negated = ScalarExpr::unary(UnaryOp::Neg, da.copy());
                    ScalarExpr::Select {
                        condition: Box::new(
                            Predicate::Compare {
                                op: CompareOp::GreaterEqual,
                                lhs: Box::new((**arg).copy()),
                                rhs: Box::new(zero_constant()),
                            },
                        ),
                        if_true: Box::new(da),
                        if_false: Box::new(negated),
                    }
                },
                UnaryOp::Sqrt => ScalarExpr::binary(
                    BinaryOp::Div,
                    da,
                    ScalarExpr::binary(
                        BinaryOp::Mul,
                        ScalarExpr::Constant(TWO_BITS),
                        ScalarExpr::unary(UnaryOp::Sqrt, (**arg).copy()),
                    ),
                ),
                UnaryOp::Exp => ScalarExpr::binary(
                    BinaryOp::Mul,
                    ScalarExpr::unary(UnaryOp::Exp, (**arg).copy()),
                    da,
                ),
                UnaryOp::Ln => ScalarExpr::binary(BinaryOp::Div, da, (**arg).copy()),
                UnaryOp::Sin => ScalarExpr::binary(
                    BinaryOp::Mul,
                    ScalarExpr::unary(UnaryOp::Cos, (**arg).copy()),
                    da,
                ),
                UnaryOp::Cos => ScalarExpr::unary(
                    UnaryOp::Neg,
                    ScalarExpr::binary(
                        BinaryOp::Mul,
                        ScalarExpr::unary(UnaryOp::Sin, (**arg).copy()),
                        da,
                    ),
                ),
                UnaryOp::Tan => ScalarExpr::binary(
                    BinaryOp::Div,
                    da,
                    ScalarExpr::binary(
                        BinaryOp::Pow,
                        ScalarExpr::unary(UnaryOp::Cos, (**arg).copy()),
                        ScalarExpr::Constant(TWO_BITS),
                    ),
                ),
                UnaryOp::Floor | UnaryOp::Ceil => zero_constant(),
            }
        },
        ScalarExpr::Binary { op, lhs, rhs } => {
            let dl = simplify_expr(derivative(lhs, tangents, partial));
            let dr = simplify_expr(derivative(rhs, tangents, partial));
            let l = || -> (c: ScalarExpr)
                ensures
                    c == **lhs,
                { (**lhs).copy() };
            let r = || -> (c: ScalarExpr)
                ensures
                    c == **rhs,
                { (**rhs).copy() };
            match op {
                BinaryOp::Add => ScalarExpr::binary(BinaryOp::Add, dl, dr),
                BinaryOp::Sub => ScalarExpr::binary(BinaryOp::Sub, dl, dr),
                BinaryOp::Mul => ScalarExpr::binary(
                    BinaryOp::Add,
                    ScalarExpr::binary(BinaryOp::Mul, dl, r()),
                    ScalarExpr::binary(BinaryOp::Mul, l(), dr),
                ),
                BinaryOp::Div => ScalarExpr::binary(
                    BinaryOp::Div,
                    ScalarExpr::binary(
                        BinaryOp::Sub,
                        ScalarExpr::binary(BinaryOp::Mul, dl, r()),
                        ScalarExpr::binary(BinaryOp::Mul, l(), dr),
                    ),
                    ScalarExpr::binary(BinaryOp::Mul, r(), r()),
                ),
                BinaryOp::Pow => {
                    let left = ScalarExpr::binary(
                        BinaryOp::Mul,
                        ScalarExpr::binary(
                            BinaryOp::Mul,
                            r(),
                            ScalarExpr::binary(
                                BinaryOp::Pow,
                                l(),
                                ScalarExpr::binary(
                                    BinaryOp::Sub,
                                    r(),
                                    ScalarExpr::Constant(ONE_BITS),
                                ),
                            ),
                        ),
                        dl,
                    );
                    let right = ScalarExpr::binary(
                        BinaryOp::Mul,
                        ScalarExpr::binary(
                            BinaryOp::Mul,
                            ScalarExpr::binary(BinaryOp::Pow, l(), r()),
                            ScalarExpr::unary(UnaryOp::Ln, l()),
                        ),
                        dr,
                    );
                    ScalarExpr::binary(BinaryOp::Add, left, right)
                },
                BinaryOp::Min | BinaryOp::Max => ScalarExpr::Select {
                    condition: Box::new(
                        Predicate::Compare {
                            op: if matches!(op, BinaryOp::Min) {
                                CompareOp::LessEqual
                            } else {
                                CompareOp::GreaterEqual
                            },
                            lhs: Box::new(l()),
                            rhs: Box::new(r()),
                        },
                    ),
                    if_true: Box::new(dl),
                    if_false: Box::new(dr),
                },
                BinaryOp::Atan2 => ScalarExpr::binary(
                    BinaryOp::Div,
                    ScalarExpr::binary(
                        BinaryOp::Sub,
                        ScalarExpr::binary(BinaryOp::Mul, r(), dl),
                        ScalarExpr::binary(BinaryOp::Mul, l(), dr),
                    ),
                    ScalarExpr::binary(
                        BinaryOp::Add,
                        ScalarExpr::binary(BinaryOp::Mul, l(), l()),
                        ScalarExpr::binary(BinaryOp::Mul, r(), r()),
                    ),
                ),
            }
        },
        ScalarExpr::Select { condition, if_true, if_false } => ScalarExpr::Select {
            condition: Box::new((**condition).copy()),
            if_true: Box::new(derivative(if_true, tangents, partial)),
            if_false: Box::new(derivative(if_false, tangents, partial)),
        },
    }
}

// ---------------------------------------------------------------------------------------------
// What the chain rule computes
// ---------------------------------------------------------------------------------------------
/// An expression of the polynomial fragment: constants, coordinates and loads combined by
/// negation, addition, subtraction and multiplication.
pub open spec fn polynomial(e: ScalarExpr) -> bool
    decreases e,
{
    match e {
        ScalarExpr::Constant(_) | ScalarExpr::Index(_) | ScalarExpr::Load(_) => true,
        ScalarExpr::Unary { op, arg } => op is Neg && polynomial(*arg),
        ScalarExpr::Binary { op, lhs, rhs } => (op is Add || op is Sub || op is Mul) && polynomial(*lhs)
            && polynomial(*rhs),
        _ => false,
    }
}

/// The value of a polynomial expression over the integers, with constants, coordinates and
/// operand values given by `constant`, `coordinate` and `operand`.
pub open spec fn ring_value(
    e: ScalarExpr,
    operand: spec_fn(OperandId) -> int,
    constant: spec_fn(u64) -> int,
    coordinate: spec_fn(AxisId) -> int,
) -> int
    decreases e,
{
    match e {
        ScalarExpr::Constant(bits) => constant(bits),
        ScalarExpr::Index(axis) => coordinate(axis),
        ScalarExpr::Load(id) => operand(id),
        ScalarExpr::Unary { op, arg } => if op is Neg {
            -ring_value(*arg, operand, constant, coordinate)
        } else {
            0
        },
        ScalarExpr::Binary { op, lhs, rhs } => {
            let l = ring_value(*lhs, operand, constant, coordinate);
            let r = ring_value(*rhs, operand, constant, coordinate);
            match op {
                BinaryOp::Add => l + r,
                BinaryOp::Sub => l - r,
                BinaryOp::Mul => l * r,
                _ => 0,
            }
        },
        _ => 0,
    }
}

/// Constants read as numbers: `0.0` and `-0.0` are zero and `1.0` is one.
pub open spec fn numeric_constants(constant: spec_fn(u64) -> int) -> bool {
    &&& constant(ZERO_BITS) == 0
    &&& constant(NEGATIVE_ZERO_BITS) == 0
    &&& constant(ONE_BITS) == 1
}

proof fn lemma_simplify_keeps_value(
    e: ScalarExpr,
    operand: spec_fn(OperandId) -> int,
    constant: spec_fn(u64) -> int,
    coordinate: spec_fn(AxisId) -> int,
)
    requires
        polynomial(e),
        numeric_constants(constant),
    ensures
        polynomial(simplify(e)),
        ring_value(simplify(e), operand, constant, coordinate) == ring_value(e, operand, constant, coordinate),
    decreases e,
{
    match e {
        ScalarExpr::Unary { arg, .. } => {
            lemma_simplify_keeps_value(*arg, operand, constant, coordinate);
        },
        ScalarExpr::Binary { op, lhs, rhs } => {
            lemma_simplify_keeps_value(*lhs, operand, constant, coordinate);
            lemma_simplify_keeps_value(*rhs, operand, constant, coordinate);
            let l = simplify(*lhs);
            let r = simplify(*rhs);
            let lv = ring_value(l, operand, constant, coordinate);
            let rv = ring_value(r, operand, constant, coordinate);
            if is_zero(l) {
                assert(lv == 0);
                assert(lv * rv == 0) by (nonlinear_arith) requires lv == 0;
            }
            if is_zero(r) {
                assert(rv == 0);
                assert(lv * rv == 0) by (nonlinear_arith) requires rv == 0;
            }
            if is_one(l) {
                assert(lv * rv == rv) by (nonlinear_arith) requires lv == 1;
            }
            if is_one(r) {
                assert(lv * rv == lv) by (nonlinear_arith) requires rv == 1;
            }
        },
        _ => {},
    }
}

proof fn lemma_simplify_polynomial(e: ScalarExpr)
    requires
        polynomial(e),
    ensures
        polynomial(simplify(e)),
    decreases e,
{
    match e {
        ScalarExpr::Unary { arg, .. } => lemma_simplify_polynomial(*arg),
        ScalarExpr::Binary { lhs, rhs, .. } => {
            lemma_simplify_polynomial(*lhs);
            lemma_simplify_polynomial(*rhs);
        },
        _ => {},
    }
}

proof fn lemma_chain_rule_polynomial(e: ScalarExpr, tangents: Seq<Option<OperandId>>, partial: Option<OperandId>)
    requires
        polynomial(e),
    ensures
        polynomial(chain_rule(e, tangents, partial)),
    decreases e,
{
    match e {
        ScalarExpr::Unary { arg, .. } => {
            lemma_chain_rule_polynomial(*arg, tangents, partial);
            assert(chain_rule(e, tangents, partial) == unary(UnaryOp::Neg, chain_rule(*arg, tangents, partial)));
            assert(polynomial(unary(UnaryOp::Neg, chain_rule(*arg, tangents, partial))));
        },
        ScalarExpr::Binary { lhs, rhs, .. } => {
            lemma_chain_rule_polynomial(*lhs, tangents, partial);
            lemma_chain_rule_polynomial(*rhs, tangents, partial);
            lemma_simplify_polynomial(chain_rule(*lhs, tangents, partial));
            lemma_simplify_polynomial(chain_rule(*rhs, tangents, partial));
            let dl = simplify(chain_rule(*lhs, tangents, partial));
            let dr = simplify(chain_rule(*rhs, tangents, partial));
            assert(polynomial(binary(BinaryOp::Mul, dl, *rhs)));
            assert(polynomial(binary(BinaryOp::Mul, *lhs, dr)));
        },
        _ => {},
    }
}

/// The product of two first-order expansions is a first-order expansion (the product rule);
/// the cofactor of `t * t` is returned.
proof fn lemma_product_expansion(g: int, k: int, dg: int, dk: int, qa: int, qb: int, t: int) -> (q: int)
    ensures
        (g + t * dg + t * t * qa) * (k + t * dk + t * t * qb) == g * k + t * (dg * k + g * dk) + t * t * q,
{
    let x = dg + t * qa;
    let y = dk + t * qb;
    assert(g + t * dg + t * t * qa == g + t * x) by (nonlinear_arith) requires x == dg + t * qa;
    assert(k + t * dk + t * t * qb == k + t * y) by (nonlinear_arith) requires y == dk + t * qb;
    let tx = t * x;
    let ty = t * y;
    vstd::arithmetic::mul::lemma_mul_is_distributive_add_other_way(k + ty, g, tx);
    vstd::arithmetic::mul::lemma_mul_is_distributive_add(g, k, ty);
    vstd::arithmetic::mul::lemma_mul_is_distributive_add(tx, k, ty);
    assert(g * ty == t * (g * y)) by (nonlinear_arith) requires ty == t * y;
    assert(tx * k == t * (x * k)) by (nonlinear_arith) requires tx == t * x;
    assert(tx * ty == t * t * (x * y)) by (nonlinear_arith) requires tx == t * x, ty == t * y;
    assert(t * (x * k) + t * (g * y) == t * (x * k + g * y)) by (nonlinear_arith);
    assert((g + tx) * (k + ty) == g * k + t * (x * k + g * y) + t * t * (x * y));
    assert(x * k + g * y == dg * k + g * dk + t * (qa * k + g * qb)) by (nonlinear_arith)
        requires x == dg + t * qa, y == dk + t * qb;
    let q = qa * k + g * qb + x * y;
    assert(t * (dg * k + g * dk + t * (qa * k + g * qb)) + t * t * (x * y) == t * (dg * k + g * dk) + t * t * q)
        by (nonlinear_arith) requires q == qa * k + g * qb + x * y;
    q
}

/// The chain rule computes the derivative. Move every operand from `operand` by `t` times the
/// direction `direction`: a polynomial expression then changes by `t` times the value of its
/// derivative expression, up to a multiple of `t * t`, whose cofactor `q` is returned.
///
/// The direction is what the derivative reads: with `partial` set to `Some(x)`, the unit
/// direction along `x`; otherwise each tangent operand `tangents[op]` holds the direction of
/// `op`, and an operand without a tangent does not move. In particular the derivative of a
/// sum, difference or negation is the sum, difference or negation of the derivatives, and
/// that of a product follows the product rule.
pub proof fn lemma_chain_rule_is_derivative(
    e: ScalarExpr,
    tangents: Seq<Option<OperandId>>,
    partial: Option<OperandId>,
    operand: spec_fn(OperandId) -> int,
    direction: spec_fn(OperandId) -> int,
    moved: spec_fn(OperandId) -> int,
    t: int,
    constant: spec_fn(u64) -> int,
    coordinate: spec_fn(AxisId) -> int,
) -> (q: int)
    requires
        polynomial(e),
        numeric_constants(constant),
        partial is None ==> loads_below(e, tangents.len()),
        forall|id: OperandId| #[trigger] moved(id) == operand(id) + t * direction(id),
        partial matches Some(x) ==> forall|id: OperandId| #[trigger] direction(id) == if id == x {
            1int
        } else {
            0int
        },
        partial is None ==> forall|id: OperandId|
            id.0 < tangents.len() ==> match tangents[id.0 as int] {
                Some(d) => operand(d) == #[trigger] direction(id),
                None => direction(id) == 0,
            },
    ensures
        ring_value(e, moved, constant, coordinate) == ring_value(e, operand, constant, coordinate) + t
            * ring_value(chain_rule(e, tangents, partial), operand, constant, coordinate) + t * t * q,
    decreases e,
{
    let d = ring_value(chain_rule(e, tangents, partial), operand, constant, coordinate);
    match e {
        ScalarExpr::Constant(_) | ScalarExpr::Index(_) => {
            assert(d == 0);
            assert(t * d == 0) by (nonlinear_arith) requires d == 0;
            assert(t * t * 0 == 0) by (nonlinear_arith);
            0
        },
        ScalarExpr::Load(id) => {
            match partial {
                Some(x) => {
                    assert(direction(id) == if id == x { 1int } else { 0int });
                },
                None => {
                    assert(id.0 < tangents.len());
                    assert(direction(id) == direction(id));  // instantiates the tangent requirement at `id`
                },
            }
            assert(d == direction(id));
            assert(t * t * 0 == 0) by (nonlinear_arith);
            0
        },
        ScalarExpr::Unary { arg, .. } => {
            let qa = lemma_chain_rule_is_derivative(
                *arg,
                tangents,
                partial,
                operand,
                direction,
                moved,
                t,
                constant,
                coordinate,
            );
            let da = ring_value(chain_rule(*arg, tangents, partial), operand, constant, coordinate);
            assert(d == -da);
            assert(t * (-da) == -(t * da)) by (nonlinear_arith);
            assert(t * t * (-qa) == -(t * t * qa)) by (nonlinear_arith);
            -qa
        },
        ScalarExpr::Binary { op, lhs, rhs } => {
            let qa = lemma_chain_rule_is_derivative(
                *lhs,
                tangents,
                partial,
                operand,
                direction,
                moved,
                t,
                constant,
                coordinate,
            );
            let qb = lemma_chain_rule_is_derivative(
                *rhs,
                tangents,
                partial,
                operand,
                direction,
                moved,
                t,
                constant,
                coordinate,
            );
            lemma_chain_rule_polynomial(*lhs, tangents, partial);
            lemma_chain_rule_polynomial(*rhs, tangents, partial);
            lemma_simplify_keeps_value(chain_rule(*lhs, tangents, partial), operand, constant, coordinate);
            lemma_simplify_keeps_value(chain_rule(*rhs, tangents, partial), operand, constant, coordinate);
            let g = ring_value(*lhs, operand, constant, coordinate);
            let k = ring_value(*rhs, operand, constant, coordinate);
            let gm = ring_value(*lhs, moved, constant, coordinate);
            let km = ring_value(*rhs, moved, constant, coordinate);
            let dg = ring_value(chain_rule(*lhs, tangents, partial), operand, constant, coordinate);
            let dk = ring_value(chain_rule(*rhs, tangents, partial), operand, constant, coordinate);
            match op {
                BinaryOp::Add => {
                    assert(d == dg + dk);
                    assert(t * (dg + dk) + t * t * (qa + qb) == t * dg + t * t * qa + t * dk + t * t * qb)
                        by (nonlinear_arith);
                    qa + qb
                },
                BinaryOp::Sub => {
                    assert(d == dg - dk);
                    assert(t * (dg - dk) + t * t * (qa - qb) == t * dg + t * t * qa - (t * dk + t * t * qb))
                        by (nonlinear_arith);
                    qa - qb
                },
                _ => {
                    assert(op is Mul);
                    // The product rule: the derivative is dl * r + l * dr.
                    let left = binary(BinaryOp::Mul, simplify(chain_rule(*lhs, tangents, partial)), *rhs);
                    let right = binary(BinaryOp::Mul, *lhs, simplify(chain_rule(*rhs, tangents, partial)));
                    assert(chain_rule(e, tangents, partial) == binary(BinaryOp::Add, left, right));
                    assert(ring_value(left, operand, constant, coordinate) == dg * k);
                    assert(ring_value(right, operand, constant, coordinate) == g * dk);
                    assert(d == ring_value(binary(BinaryOp::Add, left, right), operand, constant, coordinate));
                    assert(d == dg * k + g * dk);
                    lemma_product_expansion(g, k, dg, dk, qa, qb, t)
                },
            }
        },
        _ => 0,
    }
}

} // verus!
