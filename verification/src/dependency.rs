//! Conservative input dependence of validated primal outputs.
use vstd::prelude::*;

use crate::interpreter::element_slot;
use crate::ir::{
    AccessMode, BinaryOp, CompareOp, KernelModel, OperandId, Predicate, ReductionOp, ScalarExpr, Statement,
    StructuredKernel, UnaryOp,
};
use crate::validate::{
    check_kernel, expr_in_scope, kernel_valid, kernel_violation, lemma_expr_in_scope, lemma_statements_valid,
    let_count, predicate_in_scope, statement_violation, ValidationError, Violation,
};

verus! {

/// Whether an expression may carry a value from a flagged operand or local.
pub open spec fn expr_reads(e: ScalarExpr, operands: Seq<bool>, locals: Seq<bool>) -> bool
    decreases e,
{
    match e {
        ScalarExpr::Constant(_) | ScalarExpr::Index(_) => false,
        ScalarExpr::Load(id) => operands[id.0 as int],
        ScalarExpr::Local(id) => locals[id.0 as int],
        ScalarExpr::Unary { arg, .. } => expr_reads(*arg, operands, locals),
        ScalarExpr::Binary { lhs, rhs, .. } => expr_reads(*lhs, operands, locals) || expr_reads(
            *rhs,
            operands,
            locals,
        ),
        ScalarExpr::Select { condition, if_true, if_false } => predicate_reads(
            *condition,
            operands,
            locals,
        ) || expr_reads(*if_true, operands, locals) || expr_reads(*if_false, operands, locals),
    }
}

pub open spec fn predicate_reads(p: Predicate, operands: Seq<bool>, locals: Seq<bool>) -> bool
    decreases p,
{
    match p {
        Predicate::Constant(_) => false,
        Predicate::Compare { lhs, rhs, .. } => expr_reads(*lhs, operands, locals) || expr_reads(
            *rhs,
            operands,
            locals,
        ),
        Predicate::Not(value) => predicate_reads(*value, operands, locals),
        Predicate::And(lhs, rhs) | Predicate::Or(lhs, rhs) => predicate_reads(
            *lhs,
            operands,
            locals,
        ) || predicate_reads(*rhs, operands, locals),
    }
}

/// Which operands and locals may carry the input's value after the first `n` statements.
///
/// A `Let` flags its local when its value reads a flagged item. A plain store replaces the
/// operand's flag, since it overwrites the element; a reducing store accumulates into it.
pub open spec fn dependence_after(k: KernelModel, input: int, n: int) -> (Seq<bool>, Seq<bool>)
    decreases n,
{
    if n <= 0 {
        (Seq::new(k.operands.len(), |i: int| i == input), Seq::empty())
    } else {
        let (values, locals) = dependence_after(k, input, n - 1);
        match k.statements[n - 1] {
            Statement::Let { value, .. } => (values, locals.push(expr_reads(value, values, locals))),
            Statement::Store { operand, value } => {
                let depends = expr_reads(value, values, locals);
                let op = operand.0 as int;
                if k.operands[op].access is Reduce {
                    (values.update(op, values[op] || depends), locals)
                } else {
                    (values.update(op, depends), locals)
                }
            },
        }
    }
}

/// Whether some writable operand carries the input's value at the end of the body.
pub open spec fn output_depends(k: KernelModel, input: int) -> bool {
    let values = dependence_after(k, input, k.statements.len() as int).0;
    exists|op: int| 0 <= op < k.operands.len() && k.operands[op].access.writable() && #[trigger] values[op]
}

/// The answer [`primal_output_reads_input`] owes on a kernel.
pub open spec fn output_reads_input(k: KernelModel, input: usize) -> Result<bool, Violation> {
    match kernel_violation(k) {
        Some(v) => Err(v),
        None => if input >= k.operands.len() {
            Err(Violation::InvalidOperand(input))
        } else if !k.operands[input as int].access.readable() {
            Err(Violation::InvalidLoad(input))
        } else if k.operands[input as int].access is ReadWrite {
            Ok(true)
        } else {
            Ok(output_depends(k, input as int))
        },
    }
}

fn reads(e: &ScalarExpr, operands: &Vec<bool>, locals: &Vec<bool>) -> (r: bool)
    requires
        expr_in_scope(*e, operands@.len(), locals@.len()),
    ensures
        r == expr_reads(*e, operands@, locals@),
    decreases e,
{
    match e {
        ScalarExpr::Constant(_) | ScalarExpr::Index(_) => false,
        ScalarExpr::Load(id) => operands[id.0],
        ScalarExpr::Local(id) => locals[id.0],
        ScalarExpr::Unary { arg, .. } => reads(arg, operands, locals),
        ScalarExpr::Binary { lhs, rhs, .. } => reads(lhs, operands, locals) || reads(
            rhs,
            operands,
            locals,
        ),
        ScalarExpr::Select { condition, if_true, if_false } => predicate_reads_exec(
            condition,
            operands,
            locals,
        ) || reads(if_true, operands, locals) || reads(if_false, operands, locals),
    }
}

fn predicate_reads_exec(p: &Predicate, operands: &Vec<bool>, locals: &Vec<bool>) -> (r: bool)
    requires
        predicate_in_scope(*p, operands@.len(), locals@.len()),
    ensures
        r == predicate_reads(*p, operands@, locals@),
    decreases p,
{
    match p {
        Predicate::Constant(_) => false,
        Predicate::Compare { lhs, rhs, .. } => reads(lhs, operands, locals) || reads(
            rhs,
            operands,
            locals,
        ),
        Predicate::Not(value) => predicate_reads_exec(value, operands, locals),
        Predicate::And(lhs, rhs) | Predicate::Or(lhs, rhs) => predicate_reads_exec(
            lhs,
            operands,
            locals,
        ) || predicate_reads_exec(rhs, operands, locals),
    }
}


/// Whether any final writable operand may depend on the requested readable operand.
///
/// This is a structural proof of non-use, not a derivative or algebraic simplifier. Ordered
/// local definitions and overwritten stores are followed; dead locals do not contribute. Both
/// select branches and their predicates contribute even when a predicate is constant. A queried
/// read-write input always conservatively reads itself, because stores may leave elements
/// untouched or execute zero times. Every writable operand is an output. Operand elements are
/// not distinguished. The full kernel is validated before it is inspected.
pub fn primal_output_reads_input(kernel: &StructuredKernel, input: OperandId) -> (r: Result<
    bool,
    ValidationError,
>)
    ensures
        match r {
            Ok(b) => output_reads_input(kernel@, input.0) == Ok::<bool, Violation>(b),
            Err(e) => output_reads_input(kernel@, input.0) == Err::<bool, Violation>(e@),
        },
{
    match check_kernel(kernel) {
        Ok(_) => {},
        Err(e) => {
            return Err(e);
        },
    }
    let ghost k = kernel@;
    let n = kernel.operands.len();
    if input.0 >= n {
        return Err(ValidationError::InvalidOperand(input.0));
    }
    assert(k.operands[input.0 as int] == kernel.operands@[input.0 as int]@);
    let access = kernel.operands[input.0].access;
    if !access.can_read() {
        return Err(ValidationError::InvalidLoad(input.0));
    }
    if let AccessMode::ReadWrite = access {
        return Ok(true);
    }
    let mut values: Vec<bool> = Vec::new();
    let mut i: usize = 0;
    while i < n
        invariant
            i <= n,
            n == k.operands.len(),
            values@ == Seq::new(i as nat, |j: int| j == input.0),
        decreases n - i,
    {
        values.push(i == input.0);
        i = i + 1;
        assert(values@ =~= Seq::new(i as nat, |j: int| j == input.0));
    }
    let mut locals: Vec<bool> = Vec::new();
    proof {
        lemma_statements_valid(k, k.statements.len() as int);
    }
    let mut i: usize = 0;
    while i < kernel.body.statements.len()
        invariant
            i <= k.statements.len(),
            k == kernel@,
            kernel_valid(k),
            forall|j: int| 0 <= j < k.statements.len() ==> statement_violation(k, j) is None,
            (values@, locals@) == dependence_after(k, input.0 as int, i as int),
            values@.len() == k.operands.len(),
            locals@.len() == let_count(k.statements, i as int),
        decreases k.statements.len() - i,
    {
        let ghost count = let_count(k.statements, i as int);
        assert(statement_violation(k, i as int) is None);
        match &kernel.body.statements[i] {
            Statement::Let { value, .. } => {
                proof {
                    lemma_expr_in_scope(*value, k, count);
                }
                let depends = reads(value, &values, &locals);
                locals.push(depends);
            },
            Statement::Store { operand, value } => {
                proof {
                    lemma_expr_in_scope(*value, k, count);
                }
                let depends = reads(value, &values, &locals);
                let op = operand.0;
                assert(k.operands[op as int] == kernel.operands@[op as int]@);
                match kernel.operands[op].access {
                    AccessMode::Reduce(_) => {
                        let previous = values[op];
                        values.set(op, previous || depends);
                    },
                    _ => {
                        values.set(op, depends);
                    },
                }
            },
        }
        i = i + 1;
    }
    assert(i == k.statements.len());
    let mut found = false;
    let mut op: usize = 0;
    while op < n
        invariant
            op <= n,
            n == k.operands.len(),
            k == kernel@,
            values@.len() == n,
            values@ == dependence_after(k, input.0 as int, k.statements.len() as int).0,
            found == exists|j: int|
                0 <= j < op && k.operands[j].access.writable() && #[trigger] values@[j],
        decreases n - op,
    {
        assert(k.operands[op as int] == kernel.operands@[op as int]@);
        if kernel.operands[op].access.can_write() && values[op] {
            found = true;
        }
        op = op + 1;
    }
    Ok(found)
}

/// Whether the expression contains a load of operand `op` anywhere, condition or branch.
pub open spec fn mentions_load(e: ScalarExpr, op: int) -> bool
    decreases e,
{
    match e {
        ScalarExpr::Load(id) => id.0 == op,
        ScalarExpr::Unary { arg, .. } => mentions_load(*arg, op),
        ScalarExpr::Binary { lhs, rhs, .. } => mentions_load(*lhs, op) || mentions_load(*rhs, op),
        ScalarExpr::Select { condition, if_true, if_false } => predicate_mentions_load(*condition, op)
            || mentions_load(*if_true, op) || mentions_load(*if_false, op),
        _ => false,
    }
}

pub open spec fn predicate_mentions_load(p: Predicate, op: int) -> bool
    decreases p,
{
    match p {
        Predicate::Compare { lhs, rhs, .. } => mentions_load(*lhs, op) || mentions_load(*rhs, op),
        Predicate::Not(inner) => predicate_mentions_load(*inner, op),
        Predicate::And(lhs, rhs) | Predicate::Or(lhs, rhs) => predicate_mentions_load(*lhs, op)
            || predicate_mentions_load(*rhs, op),
        _ => false,
    }
}

/// The value a statement computes.
pub open spec fn statement_value(s: Statement) -> ScalarExpr {
    match s {
        Statement::Let { value, .. } => value,
        Statement::Store { value, .. } => value,
    }
}

/// With only `input` flagged among the operands and no local flagged, an expression carries
/// the input exactly when it loads it.
proof fn lemma_reads_only_input(e: ScalarExpr, operands: Seq<bool>, locals: Seq<bool>, input: int)
    requires
        expr_in_scope(e, operands.len(), locals.len()),
        forall|o: int| 0 <= o < operands.len() ==> #[trigger] operands[o] == (o == input),
        forall|j: int| 0 <= j < locals.len() ==> !#[trigger] locals[j],
    ensures
        expr_reads(e, operands, locals) == mentions_load(e, input),
    decreases e,
{
    match e {
        ScalarExpr::Unary { arg, .. } => lemma_reads_only_input(*arg, operands, locals, input),
        ScalarExpr::Binary { lhs, rhs, .. } => {
            lemma_reads_only_input(*lhs, operands, locals, input);
            lemma_reads_only_input(*rhs, operands, locals, input);
        },
        ScalarExpr::Select { condition, if_true, if_false } => {
            lemma_predicate_reads_only_input(*condition, operands, locals, input);
            lemma_reads_only_input(*if_true, operands, locals, input);
            lemma_reads_only_input(*if_false, operands, locals, input);
        },
        _ => {},
    }
}

proof fn lemma_predicate_reads_only_input(p: Predicate, operands: Seq<bool>, locals: Seq<bool>, input: int)
    requires
        predicate_in_scope(p, operands.len(), locals.len()),
        forall|o: int| 0 <= o < operands.len() ==> #[trigger] operands[o] == (o == input),
        forall|j: int| 0 <= j < locals.len() ==> !#[trigger] locals[j],
    ensures
        predicate_reads(p, operands, locals) == predicate_mentions_load(p, input),
    decreases p,
{
    match p {
        Predicate::Compare { lhs, rhs, .. } => {
            lemma_reads_only_input(*lhs, operands, locals, input);
            lemma_reads_only_input(*rhs, operands, locals, input);
        },
        Predicate::Not(inner) => lemma_predicate_reads_only_input(*inner, operands, locals, input),
        Predicate::And(lhs, rhs) | Predicate::Or(lhs, rhs) => {
            lemma_predicate_reads_only_input(*lhs, operands, locals, input);
            lemma_predicate_reads_only_input(*rhs, operands, locals, input);
        },
        _ => {},
    }
}

/// A flagged operand that an expression loads makes the expression carry the input.
proof fn lemma_load_carries(e: ScalarExpr, operands: Seq<bool>, locals: Seq<bool>, input: int)
    requires
        expr_in_scope(e, operands.len(), locals.len()),
        0 <= input < operands.len(),
        operands[input],
        mentions_load(e, input),
    ensures
        expr_reads(e, operands, locals),
    decreases e,
{
    match e {
        ScalarExpr::Unary { arg, .. } => lemma_load_carries(*arg, operands, locals, input),
        ScalarExpr::Binary { lhs, rhs, .. } => {
            if mentions_load(*lhs, input) {
                lemma_load_carries(*lhs, operands, locals, input);
            } else {
                lemma_load_carries(*rhs, operands, locals, input);
            }
        },
        ScalarExpr::Select { condition, if_true, if_false } => {
            if predicate_mentions_load(*condition, input) {
                lemma_predicate_load_carries(*condition, operands, locals, input);
            } else if mentions_load(*if_true, input) {
                lemma_load_carries(*if_true, operands, locals, input);
            } else {
                lemma_load_carries(*if_false, operands, locals, input);
            }
        },
        _ => {},
    }
}

proof fn lemma_predicate_load_carries(p: Predicate, operands: Seq<bool>, locals: Seq<bool>, input: int)
    requires
        predicate_in_scope(p, operands.len(), locals.len()),
        0 <= input < operands.len(),
        operands[input],
        predicate_mentions_load(p, input),
    ensures
        predicate_reads(p, operands, locals),
    decreases p,
{
    match p {
        Predicate::Compare { lhs, rhs, .. } => {
            if mentions_load(*lhs, input) {
                lemma_load_carries(*lhs, operands, locals, input);
            } else {
                lemma_load_carries(*rhs, operands, locals, input);
            }
        },
        Predicate::Not(inner) => lemma_predicate_load_carries(*inner, operands, locals, input),
        Predicate::And(lhs, rhs) | Predicate::Or(lhs, rhs) => {
            if predicate_mentions_load(*lhs, input) {
                lemma_predicate_load_carries(*lhs, operands, locals, input);
            } else {
                lemma_predicate_load_carries(*rhs, operands, locals, input);
            }
        },
        _ => {},
    }
}

/// Before any statement that loads the input, only the input carries it.
proof fn lemma_unloaded_prefix(k: KernelModel, input: int, n: int)
    requires
        kernel_valid(k),
        0 <= input < k.operands.len(),
        k.operands[input].access is Read,
        0 <= n <= k.statements.len(),
        forall|i: int| 0 <= i < n ==> !mentions_load(statement_value(#[trigger] k.statements[i]), input),
    ensures
        dependence_after(k, input, n).0.len() == k.operands.len(),
        dependence_after(k, input, n).1.len() == let_count(k.statements, n),
        forall|o: int| 0 <= o < k.operands.len() ==> #[trigger] dependence_after(k, input, n).0[o] == (o == input),
        forall|j: int| 0 <= j < let_count(k.statements, n) ==> !#[trigger] dependence_after(k, input, n).1[j],
    decreases n,
{
    if n > 0 {
        lemma_unloaded_prefix(k, input, n - 1);
        lemma_statements_valid(k, k.statements.len() as int);
        assert(statement_violation(k, n - 1) is None);
        let (operands, locals) = dependence_after(k, input, n - 1);
        let value = statement_value(k.statements[n - 1]);
        assert(!mentions_load(value, input));
        lemma_expr_in_scope(value, k, let_count(k.statements, n - 1));
        lemma_reads_only_input(value, operands, locals, input);
    }
}

/// The flag of a read-only input stays set, and the flags keep their lengths.
proof fn lemma_input_stays_flagged(k: KernelModel, input: int, n: int)
    requires
        kernel_valid(k),
        0 <= input < k.operands.len(),
        k.operands[input].access is Read,
        0 <= n <= k.statements.len(),
    ensures
        dependence_after(k, input, n).0.len() == k.operands.len(),
        dependence_after(k, input, n).1.len() == let_count(k.statements, n),
        dependence_after(k, input, n).0[input],
    decreases n,
{
    if n > 0 {
        lemma_input_stays_flagged(k, input, n - 1);
        lemma_statements_valid(k, k.statements.len() as int);
        assert(statement_violation(k, n - 1) is None);
    }
}

/// An input that no statement loads reaches no output: for a valid kernel and a read-only
/// input that appears in no statement's value (directly or through a local), the answer is
/// `false`; locals defined from other operands carry nothing of it.
pub proof fn lemma_unloaded_input_reaches_no_output(k: KernelModel, input: usize)
    requires
        kernel_valid(k),
        input < k.operands.len(),
        k.operands[input as int].access is Read,
        forall|i: int| 0 <= i < k.statements.len() ==> !mentions_load(statement_value(#[trigger] k.statements[i]), input as int),
    ensures
        output_reads_input(k, input) == Ok::<bool, Violation>(false),
{
    lemma_unloaded_prefix(k, input as int, k.statements.len() as int);
    let values = dependence_after(k, input as int, k.statements.len() as int).0;
    assert forall|op: int| 0 <= op < k.operands.len() && k.operands[op].access.writable() implies !#[trigger] values[op] by {}
}

/// A read-only input that the last statement loads and stores into a writable operand reaches
/// that output: the answer is `true`.
pub proof fn lemma_stored_input_reaches_output(k: KernelModel, input: usize)
    requires
        kernel_valid(k),
        input < k.operands.len(),
        k.operands[input as int].access is Read,
        k.statements.len() > 0,
        k.statements.last() is Store,
        mentions_load(statement_value(k.statements.last()), input as int),
    ensures
        output_reads_input(k, input) == Ok::<bool, Violation>(true),
{
    let n = k.statements.len() as int;
    lemma_input_stays_flagged(k, input as int, n - 1);
    lemma_statements_valid(k, n);
    assert(statement_violation(k, n - 1) is None);
    let (operands, locals) = dependence_after(k, input as int, n - 1);
    let value = statement_value(k.statements[n - 1]);
    lemma_expr_in_scope(value, k, let_count(k.statements, n - 1));
    lemma_load_carries(value, operands, locals, input as int);
    let op = k.statements[n - 1]->Store_operand.0 as int;
    assert(dependence_after(k, input as int, n).0[op]);
}

/// A reducing operand, once it carries the input, carries it to the end.
proof fn lemma_reduction_keeps_flag(k: KernelModel, input: int, op: int, i: int, n: int)
    requires
        kernel_valid(k),
        0 <= input < k.operands.len(),
        k.operands[input].access is Read,
        0 <= op < k.operands.len(),
        k.operands[op].access is Reduce,
        0 <= i <= n <= k.statements.len(),
        dependence_after(k, input, i).0[op],
    ensures
        dependence_after(k, input, n).0[op],
    decreases n - i,
{
    if i < n {
        lemma_reduction_keeps_flag(k, input, op, i, n - 1);
        lemma_input_stays_flagged(k, input, n - 1);
        lemma_statements_valid(k, k.statements.len() as int);
        assert(statement_violation(k, n - 1) is None);
        let (values, locals) = dependence_after(k, input, n - 1);
        match k.statements[n - 1] {
            Statement::Let { value, .. } => {
                assert(dependence_after(k, input, n).0 == values);
            },
            Statement::Store { operand, value } => {
                let depends = expr_reads(value, values, locals);
                assert(values[op]);
                if operand.0 as int == op {
                    assert(dependence_after(k, input, n).0 == values.update(op, values[op] || depends));
                } else if k.operands[operand.0 as int].access is Reduce {
                    assert(dependence_after(k, input, n).0 == values.update(
                        operand.0 as int,
                        values[operand.0 as int] || depends,
                    ));
                } else {
                    assert(dependence_after(k, input, n).0 == values.update(operand.0 as int, depends));
                }
                assert(dependence_after(k, input, n).0[op]);
            },
        }
    }
}

/// A reduction never forgets: a read-only input that some statement loads and accumulates
/// into a reducing operand reaches that output, whatever follows, so the answer is `true`.
pub proof fn lemma_reduced_input_reaches_output(k: KernelModel, input: usize, i: int)
    requires
        kernel_valid(k),
        input < k.operands.len(),
        k.operands[input as int].access is Read,
        0 <= i < k.statements.len(),
        k.statements[i] is Store,
        k.operands[k.statements[i]->Store_operand.0 as int].access is Reduce,
        mentions_load(statement_value(k.statements[i]), input as int),
    ensures
        output_reads_input(k, input) == Ok::<bool, Violation>(true),
{
    let n = k.statements.len() as int;
    lemma_input_stays_flagged(k, input as int, i);
    lemma_statements_valid(k, n);
    assert(statement_violation(k, i) is None);
    let (operands, locals) = dependence_after(k, input as int, i);
    let value = statement_value(k.statements[i]);
    lemma_expr_in_scope(value, k, let_count(k.statements, i));
    lemma_load_carries(value, operands, locals, input as int);
    let op = k.statements[i]->Store_operand.0 as int;
    assert(dependence_after(k, input as int, i + 1).0[op]);
    lemma_reduction_keeps_flag(k, input as int, op, i + 1, n);
    assert(k.operands[op].access.writable());
    assert(dependence_after(k, input as int, n).0[op]);
}

// ---------------------------------------------------------------------------------------------
// What a `false` answer means for execution
// ---------------------------------------------------------------------------------------------
/// The arithmetic of a scalar type, left abstract: whatever the operations compute, a kernel's
/// execution is a function of its buffers, the point and these operations.
#[verifier::reject_recursive_types(V)]
pub struct ScalarSemantics<V> {
    /// The value of a constant's bit pattern.
    pub constant: spec_fn(u64) -> V,
    /// The value of an iteration coordinate.
    pub coordinate: spec_fn(usize) -> V,
    /// The rounding applied to a value loaded from a buffer.
    pub load: spec_fn(V) -> V,
    pub unary: spec_fn(UnaryOp, V) -> V,
    pub binary: spec_fn(BinaryOp, V, V) -> V,
    pub compare: spec_fn(CompareOp, V, V) -> bool,
    /// How a reducing store combines the current element with the stored value.
    pub reduce: spec_fn(ReductionOp, V, V) -> V,
}

/// The element of `operand` at the point `pt`, or `None` where its slot does not exist or
/// lies outside the caller's buffer.
pub open spec fn loaded<V>(k: KernelModel, bufs: Seq<Seq<V>>, operand: OperandId, pt: Seq<usize>) -> Option<V> {
    match element_slot(k, operand, pt) {
        Some(slot) => if operand.0 < bufs.len() && slot < bufs[operand.0 as int].len() {
            Some(bufs[operand.0 as int][slot as int])
        } else {
            None
        },
        None => None,
    }
}

/// The value of an expression at the point `pt`; `None` where a load fails.
pub open spec fn value_of<V>(
    s: ScalarSemantics<V>,
    k: KernelModel,
    bufs: Seq<Seq<V>>,
    pt: Seq<usize>,
    locals: Seq<V>,
    e: ScalarExpr,
) -> Option<V>
    decreases e,
{
    match e {
        ScalarExpr::Constant(bits) => Some((s.constant)(bits)),
        ScalarExpr::Index(axis) => Some((s.coordinate)(pt[axis.0 as int])),
        ScalarExpr::Load(operand) => match loaded(k, bufs, operand, pt) {
            Some(v) => Some((s.load)(v)),
            None => None,
        },
        ScalarExpr::Local(local) => Some(locals[local.0 as int]),
        ScalarExpr::Unary { op, arg } => match value_of(s, k, bufs, pt, locals, *arg) {
            Some(v) => Some((s.unary)(op, v)),
            None => None,
        },
        ScalarExpr::Binary { op, lhs, rhs } => match (
            value_of(s, k, bufs, pt, locals, *lhs),
            value_of(s, k, bufs, pt, locals, *rhs),
        ) {
            (Some(x), Some(y)) => Some((s.binary)(op, x, y)),
            _ => None,
        },
        ScalarExpr::Select { condition, if_true, if_false } => match truth_of(
            s,
            k,
            bufs,
            pt,
            locals,
            *condition,
        ) {
            Some(true) => value_of(s, k, bufs, pt, locals, *if_true),
            Some(false) => value_of(s, k, bufs, pt, locals, *if_false),
            None => None,
        },
    }
}

/// The truth of a predicate at the point `pt`; `And` and `Or` look at their right side only
/// where the left side does not decide.
pub open spec fn truth_of<V>(
    s: ScalarSemantics<V>,
    k: KernelModel,
    bufs: Seq<Seq<V>>,
    pt: Seq<usize>,
    locals: Seq<V>,
    p: Predicate,
) -> Option<bool>
    decreases p,
{
    match p {
        Predicate::Constant(b) => Some(b),
        Predicate::Compare { op, lhs, rhs } => match (
            value_of(s, k, bufs, pt, locals, *lhs),
            value_of(s, k, bufs, pt, locals, *rhs),
        ) {
            (Some(x), Some(y)) => Some((s.compare)(op, x, y)),
            _ => None,
        },
        Predicate::Not(inner) => match truth_of(s, k, bufs, pt, locals, *inner) {
            Some(b) => Some(!b),
            None => None,
        },
        Predicate::And(lhs, rhs) => match truth_of(s, k, bufs, pt, locals, *lhs) {
            Some(false) => Some(false),
            Some(true) => truth_of(s, k, bufs, pt, locals, *rhs),
            None => None,
        },
        Predicate::Or(lhs, rhs) => match truth_of(s, k, bufs, pt, locals, *lhs) {
            Some(true) => Some(true),
            Some(false) => truth_of(s, k, bufs, pt, locals, *rhs),
            None => None,
        },
    }
}

/// The buffers and locals after the first `n` statements at the point `pt`; `None` once a
/// statement fails.
pub open spec fn run_statements<V>(
    s: ScalarSemantics<V>,
    k: KernelModel,
    bufs: Seq<Seq<V>>,
    pt: Seq<usize>,
    n: int,
) -> Option<(Seq<Seq<V>>, Seq<V>)>
    decreases n,
{
    if n <= 0 {
        Some((bufs, Seq::empty()))
    } else {
        match run_statements(s, k, bufs, pt, n - 1) {
            None => None,
            Some((b, locals)) => match k.statements[n - 1] {
                Statement::Let { value, .. } => match value_of(s, k, b, pt, locals, value) {
                    Some(v) => Some((b, locals.push(v))),
                    None => None,
                },
                Statement::Store { operand, value } => match value_of(s, k, b, pt, locals, value) {
                    Some(v) => match element_slot(k, operand, pt) {
                        Some(slot) => if slot < b[operand.0 as int].len() {
                            let op = operand.0 as int;
                            let stored = match k.operands[op].access {
                                AccessMode::Reduce(r) => (s.reduce)(r, b[op][slot as int], v),
                                _ => v,
                            };
                            Some((b.update(op, b[op].update(slot as int, stored)), locals))
                        } else {
                            None
                        },
                        None => None,
                    },
                    None => None,
                },
            },
        }
    }
}

/// The buffers after the body has run at each of `points` in turn; `None` once a point fails.
pub open spec fn run_points<V>(
    s: ScalarSemantics<V>,
    k: KernelModel,
    bufs: Seq<Seq<V>>,
    points: Seq<Seq<usize>>,
) -> Option<Seq<Seq<V>>>
    decreases points.len(),
{
    if points.len() == 0 {
        Some(bufs)
    } else {
        match run_points(s, k, bufs, points.drop_last()) {
            None => None,
            Some(b) => match run_statements(s, k, b, points.last(), k.statements.len() as int) {
                Some((after, _)) => Some(after),
                None => None,
            },
        }
    }
}

/// Buffers that agree on every operand that is not flagged, and locals that agree on every
/// local that is not flagged.
pub open spec fn agree_unflagged<V>(
    a: Seq<Seq<V>>,
    b: Seq<Seq<V>>,
    la: Seq<V>,
    lb: Seq<V>,
    operands: Seq<bool>,
    locals: Seq<bool>,
) -> bool {
    &&& a.len() == b.len() == operands.len()
    &&& la.len() == lb.len() == locals.len()
    &&& forall|o: int| 0 <= o < operands.len() && !operands[o] ==> #[trigger] a[o] == b[o]
    &&& forall|j: int| 0 <= j < locals.len() && !locals[j] ==> #[trigger] la[j] == lb[j]
}

proof fn lemma_value_agrees<V>(
    s: ScalarSemantics<V>,
    k: KernelModel,
    a: Seq<Seq<V>>,
    b: Seq<Seq<V>>,
    pt: Seq<usize>,
    la: Seq<V>,
    lb: Seq<V>,
    operands: Seq<bool>,
    locals: Seq<bool>,
    e: ScalarExpr,
)
    requires
        agree_unflagged(a, b, la, lb, operands, locals),
        expr_in_scope(e, operands.len(), locals.len()),
        !expr_reads(e, operands, locals),
    ensures
        value_of(s, k, a, pt, la, e) == value_of(s, k, b, pt, lb, e),
    decreases e,
{
    match e {
        ScalarExpr::Load(operand) => {
            assert(a[operand.0 as int] == b[operand.0 as int]);
        },
        ScalarExpr::Local(local) => {
            assert(la[local.0 as int] == lb[local.0 as int]);
        },
        ScalarExpr::Unary { arg, .. } => {
            lemma_value_agrees(s, k, a, b, pt, la, lb, operands, locals, *arg);
        },
        ScalarExpr::Binary { lhs, rhs, .. } => {
            lemma_value_agrees(s, k, a, b, pt, la, lb, operands, locals, *lhs);
            lemma_value_agrees(s, k, a, b, pt, la, lb, operands, locals, *rhs);
        },
        ScalarExpr::Select { condition, if_true, if_false } => {
            lemma_truth_agrees(s, k, a, b, pt, la, lb, operands, locals, *condition);
            lemma_value_agrees(s, k, a, b, pt, la, lb, operands, locals, *if_true);
            lemma_value_agrees(s, k, a, b, pt, la, lb, operands, locals, *if_false);
        },
        _ => {},
    }
}

proof fn lemma_truth_agrees<V>(
    s: ScalarSemantics<V>,
    k: KernelModel,
    a: Seq<Seq<V>>,
    b: Seq<Seq<V>>,
    pt: Seq<usize>,
    la: Seq<V>,
    lb: Seq<V>,
    operands: Seq<bool>,
    locals: Seq<bool>,
    p: Predicate,
)
    requires
        agree_unflagged(a, b, la, lb, operands, locals),
        predicate_in_scope(p, operands.len(), locals.len()),
        !predicate_reads(p, operands, locals),
    ensures
        truth_of(s, k, a, pt, la, p) == truth_of(s, k, b, pt, lb, p),
    decreases p,
{
    match p {
        Predicate::Compare { lhs, rhs, .. } => {
            lemma_value_agrees(s, k, a, b, pt, la, lb, operands, locals, *lhs);
            lemma_value_agrees(s, k, a, b, pt, la, lb, operands, locals, *rhs);
        },
        Predicate::Not(inner) => {
            lemma_truth_agrees(s, k, a, b, pt, la, lb, operands, locals, *inner);
        },
        Predicate::And(lhs, rhs) | Predicate::Or(lhs, rhs) => {
            lemma_truth_agrees(s, k, a, b, pt, la, lb, operands, locals, *lhs);
            lemma_truth_agrees(s, k, a, b, pt, la, lb, operands, locals, *rhs);
        },
        _ => {},
    }
}

/// Two element sequences of one length that agree everywhere but, perhaps, at `slot`.
pub open spec fn agree_except_slot<V>(x: Seq<V>, y: Seq<V>, slot: Option<usize>) -> bool {
    &&& x.len() == y.len()
    &&& forall|i: int| #![trigger x[i]] 0 <= i < x.len() && (slot is None || i != slot->Some_0) ==> x[i] == y[i]
}

/// What holds after the first `n` statements at one point, of two runs whose buffers differed
/// at most in the input: unflagged operands and locals agree, a flagged output differs at most
/// in its element at this point, and operands that are not written keep their buffers.
spec fn statements_agree<V>(
    k: KernelModel,
    input: int,
    pt: Seq<usize>,
    a: Seq<Seq<V>>,
    b: Seq<Seq<V>>,
    after_a: (Seq<Seq<V>>, Seq<V>),
    after_b: (Seq<Seq<V>>, Seq<V>),
    n: int,
) -> bool {
    let (operands, locals) = dependence_after(k, input, n);
    &&& agree_unflagged(after_a.0, after_b.0, after_a.1, after_b.1, operands, locals)
    &&& operands.len() == k.operands.len()
    &&& locals.len() == let_count(k.statements, n)
    &&& operands[input]
    &&& forall|o: int| 0 <= o < k.operands.len() && !k.operands[o].access.writable() ==> #[trigger] after_a.0[o] == a[o]
        && after_b.0[o] == b[o]
    &&& forall|o: int|
        0 <= o < k.operands.len() && o != input && operands[o] ==> agree_except_slot(
            #[trigger] after_a.0[o],
            after_b.0[o],
            element_slot(k, OperandId(o as usize), pt),
        )
}

proof fn lemma_statements_agree<V>(
    s: ScalarSemantics<V>,
    k: KernelModel,
    input: int,
    a: Seq<Seq<V>>,
    b: Seq<Seq<V>>,
    pt: Seq<usize>,
    n: int,
)
    requires
        kernel_valid(k),
        0 <= input < k.operands.len(),
        k.operands[input].access is Read,
        0 <= n <= k.statements.len(),
        a.len() == k.operands.len(),
        b.len() == k.operands.len(),
        forall|o: int| 0 <= o < k.operands.len() && o != input ==> #[trigger] a[o] == b[o],
        run_statements(s, k, a, pt, n) is Some,
        run_statements(s, k, b, pt, n) is Some,
    ensures
        statements_agree(
            k,
            input,
            pt,
            a,
            b,
            run_statements(s, k, a, pt, n)->Some_0,
            run_statements(s, k, b, pt, n)->Some_0,
            n,
        ),
    decreases n,
{
    if n == 0 {
        let operands = dependence_after(k, input, 0).0;
        assert forall|o: int| 0 <= o < k.operands.len() && !operands[o] implies #[trigger] a[o] == b[o] by {}
    } else {
        lemma_statements_agree(s, k, input, a, b, pt, n - 1);
        lemma_statements_valid(k, k.statements.len() as int);
        assert(statement_violation(k, n - 1) is None);
        let (xa, la) = run_statements(s, k, a, pt, n - 1)->Some_0;
        let (xb, lb) = run_statements(s, k, b, pt, n - 1)->Some_0;
        let (operands, locals) = dependence_after(k, input, n - 1);
        let count = let_count(k.statements, n - 1);
        match k.statements[n - 1] {
            Statement::Let { value, .. } => {
                lemma_expr_in_scope(value, k, count);
                if !expr_reads(value, operands, locals) {
                    lemma_value_agrees(s, k, xa, xb, pt, la, lb, operands, locals, value);
                }
                let (new_operands, new_locals) = dependence_after(k, input, n);
                let va = value_of(s, k, xa, pt, la, value)->Some_0;
                let vb = value_of(s, k, xb, pt, lb, value)->Some_0;
                assert(new_locals == locals.push(expr_reads(value, operands, locals)));
                assert forall|j: int| 0 <= j < new_locals.len() && !new_locals[j] implies #[trigger] la.push(va)[j]
                    == lb.push(vb)[j] by {
                    if j < locals.len() {
                        assert(la[j] == lb[j]);
                    }
                }
            },
            Statement::Store { operand, value } => {
                let op = operand.0 as int;
                lemma_expr_in_scope(value, k, count);
                let depends = expr_reads(value, operands, locals);
                if !depends {
                    lemma_value_agrees(s, k, xa, xb, pt, la, lb, operands, locals, value);
                }
                let slot = element_slot(k, operand, pt)->Some_0;
                let va = value_of(s, k, xa, pt, la, value)->Some_0;
                let vb = value_of(s, k, xb, pt, lb, value)->Some_0;
                let sa = match k.operands[op].access {
                    AccessMode::Reduce(r) => (s.reduce)(r, xa[op][slot as int], va),
                    _ => va,
                };
                let sb = match k.operands[op].access {
                    AccessMode::Reduce(r) => (s.reduce)(r, xb[op][slot as int], vb),
                    _ => vb,
                };
                let ya = xa.update(op, xa[op].update(slot as int, sa));
                let yb = xb.update(op, xb[op].update(slot as int, sb));
                assert(run_statements(s, k, a, pt, n)->Some_0 == (ya, la));
                assert(run_statements(s, k, b, pt, n)->Some_0 == (yb, lb));
                let new_operands = dependence_after(k, input, n).0;
                assert(op != input);
                assert(operand == OperandId(op as usize));
                if !new_operands[op] {
                    assert(!depends);
                    if operands[op] {
                        assert(agree_except_slot(xa[op], xb[op], element_slot(k, operand, pt)));
                        assert forall|i: int| 0 <= i < ya[op].len() implies ya[op][i] == yb[op][i] by {
                            if i != slot {
                                assert(xa[op][i] == xb[op][i]);
                            }
                        }
                    } else {
                        assert(xa[op] == xb[op]);
                    }
                    assert(ya[op] =~= yb[op]);
                } else {
                    if operands[op] {
                        assert(agree_except_slot(xa[op], xb[op], element_slot(k, operand, pt)));
                    } else {
                        assert(xa[op] == xb[op]);
                    }
                    assert forall|i: int| #![trigger ya[op][i]] 0 <= i < ya[op].len() && i != slot implies ya[op][i] == yb[op][i] by {
                        assert(xa[op][i] == xb[op][i]);
                    }
                    assert(agree_except_slot(ya[op], yb[op], element_slot(k, operand, pt)));
                }
            },
        }
    }
}

proof fn lemma_points_agree<V>(
    s: ScalarSemantics<V>,
    k: KernelModel,
    input: int,
    a: Seq<Seq<V>>,
    b: Seq<Seq<V>>,
    points: Seq<Seq<usize>>,
)
    requires
        kernel_valid(k),
        0 <= input < k.operands.len(),
        k.operands[input].access is Read,
        !output_depends(k, input),
        a.len() == k.operands.len(),
        b.len() == k.operands.len(),
        forall|o: int| 0 <= o < k.operands.len() && o != input ==> #[trigger] a[o] == b[o],
        run_points(s, k, a, points) is Some,
        run_points(s, k, b, points) is Some,
    ensures
        run_points(s, k, a, points)->Some_0.len() == k.operands.len(),
        run_points(s, k, b, points)->Some_0.len() == k.operands.len(),
        forall|o: int|
            0 <= o < k.operands.len() && o != input ==> #[trigger] run_points(s, k, a, points)->Some_0[o]
                == run_points(s, k, b, points)->Some_0[o],
        run_points(s, k, a, points)->Some_0[input] == a[input],
        run_points(s, k, b, points)->Some_0[input] == b[input],
    decreases points.len(),
{
    if points.len() > 0 {
        let before = points.drop_last();
        lemma_points_agree(s, k, input, a, b, before);
        let xa = run_points(s, k, a, before)->Some_0;
        let xb = run_points(s, k, b, before)->Some_0;
        let n = k.statements.len() as int;
        lemma_statements_agree(s, k, input, xa, xb, points.last(), n);
        let ya = run_statements(s, k, xa, points.last(), n)->Some_0.0;
        let yb = run_statements(s, k, xb, points.last(), n)->Some_0.0;
        let operands = dependence_after(k, input, n).0;
        assert forall|o: int| 0 <= o < k.operands.len() && o != input implies #[trigger] ya[o] == yb[o] by {
            if k.operands[o].access.writable() {
                assert(!operands[o]);
            } else {
                assert(ya[o] == xa[o] && yb[o] == xb[o]);
            }
        }
        assert(ya[input] == xa[input]);
    }
}

/// A kernel whose outputs do not read an input leaves them untouched by it: where
/// [`primal_output_reads_input`] answers `false`, two runs of the kernel over the same points,
/// from caller buffers that differ at most in the input's buffer and that both complete, end
/// with equal buffers for every other operand, whatever the scalar arithmetic computes. Each
/// run leaves the input's own buffer as it found it.
pub proof fn lemma_unread_input_cannot_reach_outputs<V>(
    s: ScalarSemantics<V>,
    k: KernelModel,
    input: usize,
    a: Seq<Seq<V>>,
    b: Seq<Seq<V>>,
    points: Seq<Seq<usize>>,
)
    requires
        output_reads_input(k, input) == Ok::<bool, Violation>(false),
        a.len() == k.operands.len(),
        b.len() == k.operands.len(),
        forall|o: int| 0 <= o < k.operands.len() && o != input ==> #[trigger] a[o] == b[o],
        run_points(s, k, a, points) is Some,
        run_points(s, k, b, points) is Some,
    ensures
        forall|o: int|
            0 <= o < k.operands.len() && o != input ==> #[trigger] run_points(s, k, a, points)->Some_0[o]
                == run_points(s, k, b, points)->Some_0[o],
        run_points(s, k, a, points)->Some_0[input as int] == a[input as int],
        run_points(s, k, b, points)->Some_0[input as int] == b[input as int],
{
    lemma_points_agree(s, k, input as int, a, b, points);
}

} // verus!
