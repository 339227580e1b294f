//! The integer side of deterministic sequential reference execution: which caller buffers may
//! be bound, in which order the iteration points are visited, and where in a buffer an
//! indexed element lives. Evaluating the scalar body at each point is floating-point work
//! that runs outside this crate's verified core.
use vstd::prelude::*;

use crate::executable::{Executable, KernelSchedule};
use crate::ir::{
    AxisId, IndexExpr, IndexExprModel, IndexTerm, OperandId, OperandModel, ReductionOrder,
    StructuredKernel, element_count,
};
use crate::validate::{is_permutation, ValidatedKernel};

verus! {

/// The deterministic sequential reference backend. Its scalar evaluation runs outside the
/// verified core; what it checks and plans before it evaluates is below.
#[derive(Clone, Copy, Debug, PartialEq, Eq, Structural)]
pub struct Interpreter;

impl Default for Interpreter {
    fn default() -> (i: Self)
        ensures
            i == Interpreter,
    {
        Interpreter
    }
}

#[derive(Clone, Copy, Debug, PartialEq, Eq, Structural)]
pub enum ExecutionError {
    MissingBinding(usize),
    DuplicateBinding(usize),
    InvalidBinding(usize),
    InvalidIndex(usize),
}

// ---------------------------------------------------------------------------------------------
// Buffer bindings
// ---------------------------------------------------------------------------------------------
/// The operands bound by the first `n` bindings, or the first refusal among them. A binding
/// is an operand id and the length of the caller buffer bound to it.
pub open spec fn bindings_scan(ops: Seq<OperandModel>, bindings: Seq<(OperandId, usize)>, n: int) -> Result<
    Set<int>,
    ExecutionError,
>
    decreases n,
{
    if n <= 0 {
        Ok(Set::empty())
    } else {
        match bindings_scan(ops, bindings, n - 1) {
            Err(e) => Err(e),
            Ok(seen) => {
                let id = bindings[n - 1].0.0;
                let len = bindings[n - 1].1;
                if id >= ops.len() {
                    Err(ExecutionError::InvalidBinding(id))
                } else if seen.contains(id as int) {
                    Err(ExecutionError::DuplicateBinding(id))
                } else if ops[id as int].region.offset + ops[id as int].region.length > usize::MAX {
                    Err(ExecutionError::InvalidBinding(id))
                } else if len < ops[id as int].region.offset + ops[id as int].region.length {
                    Err(ExecutionError::InvalidBinding(id))
                } else {
                    Ok(seen.insert(id as int))
                }
            },
        }
    }
}

/// The lowest operand below `n` that `seen` lacks.
pub open spec fn first_unbound(seen: Set<int>, n: int) -> Option<int>
    decreases n,
{
    if n <= 0 {
        None
    } else {
        match first_unbound(seen, n - 1) {
            Some(i) => Some(i),
            None => if seen.contains(n - 1) {
                None
            } else {
                Some(n - 1)
            },
        }
    }
}

/// What binding a kernel's operands to caller buffers owes: the first refused binding in
/// binding order, else the lowest unbound operand, else success.
pub open spec fn bindings_outcome(ops: Seq<OperandModel>, bindings: Seq<(OperandId, usize)>) -> Result<
    (),
    ExecutionError,
> {
    match bindings_scan(ops, bindings, bindings.len() as int) {
        Err(e) => Err(e),
        Ok(seen) => match first_unbound(seen, ops.len() as int) {
            Some(i) => Err(ExecutionError::MissingBinding(i as usize)),
            None => Ok(()),
        },
    }
}

proof fn lemma_first_unbound_stable(seen: Set<int>, i: int, n: int)
    requires
        0 <= i <= n,
        first_unbound(seen, i) is Some,
    ensures
        first_unbound(seen, n) == first_unbound(seen, i),
    decreases n - i,
{
    if i < n {
        lemma_first_unbound_stable(seen, i, n - 1);
    }
}

/// Check the buffers bound to a kernel's operands: every binding names an existing operand
/// once, with a buffer that holds the operand's region, and every operand is bound.
pub fn check_bindings(kernel: &StructuredKernel, bindings: &Vec<(OperandId, usize)>) -> (r: Result<
    (),
    ExecutionError,
>)
    ensures
        r == bindings_outcome(kernel@.operands, bindings@),
{
    let ghost ops = kernel@.operands;
    let n = kernel.operands.len();
    let mut seen: Vec<bool> = Vec::new();
    let mut k: usize = 0;
    while k < n
        invariant
            k <= n,
            n == ops.len(),
            seen@.len() == k,
            forall|j: int| 0 <= j < k ==> !seen@[j],
        decreases n - k,
    {
        seen.push(false);
        k = k + 1;
    }
    assert(bindings_scan(ops, bindings@, 0) == Ok::<Set<int>, ExecutionError>(Set::empty()));
    let mut b: usize = 0;
    while b < bindings.len()
        invariant
            b <= bindings@.len(),
            n == ops.len(),
            ops == kernel@.operands,
            seen@.len() == n,
            bindings_scan(ops, bindings@, b as int) is Ok,
            forall|j: int|
                0 <= j < n ==> (seen@[j] <==> bindings_scan(ops, bindings@, b as int)->Ok_0.contains(j)),
            forall|x: int| bindings_scan(ops, bindings@, b as int)->Ok_0.contains(x) ==> 0 <= x < n,
        decreases bindings@.len() - b,
    {
        let (operand, len) = bindings[b];
        let id = operand.0;
        if id >= n {
            proof {
                lemma_scan_error_stable(ops, bindings@, (b + 1) as int, bindings@.len() as int);
            }
            return Err(ExecutionError::InvalidBinding(id));
        }
        if seen[id] {
            proof {
                lemma_scan_error_stable(ops, bindings@, (b + 1) as int, bindings@.len() as int);
            }
            return Err(ExecutionError::DuplicateBinding(id));
        }
        let region = kernel.operands[id].region;
        proof {
            assert(ops[id as int] == kernel.operands@[id as int]@);
        }
        let expected = match region.offset.checked_add(region.length) {
            Some(e) => e,
            None => {
                proof {
                    lemma_scan_error_stable(ops, bindings@, (b + 1) as int, bindings@.len() as int);
                }
                return Err(ExecutionError::InvalidBinding(id));
            },
        };
        if len < expected {
            proof {
                lemma_scan_error_stable(ops, bindings@, (b + 1) as int, bindings@.len() as int);
            }
            return Err(ExecutionError::InvalidBinding(id));
        }
        seen.set(id, true);
        b = b + 1;
    }
    let ghost all = bindings_scan(ops, bindings@, bindings@.len() as int)->Ok_0;
    let mut i: usize = 0;
    while i < n
        invariant
            i <= n,
            n == ops.len(),
            seen@.len() == n,
            forall|j: int| 0 <= j < n ==> (seen@[j] <==> all.contains(j)),
            first_unbound(all, i as int) is None,
            ops == kernel@.operands,
            bindings_scan(ops, bindings@, bindings@.len() as int) == Ok::<Set<int>, ExecutionError>(all),
        decreases n - i,
    {
        if !seen[i] {
            proof {
                lemma_first_unbound_stable(all, (i + 1) as int, n as int);
            }
            return Err(ExecutionError::MissingBinding(i));
        }
        i = i + 1;
    }
    Ok(())
}

proof fn lemma_scan_error_stable(ops: Seq<OperandModel>, bindings: Seq<(OperandId, usize)>, i: int, n: int)
    requires
        0 <= i <= n,
        bindings_scan(ops, bindings, i) is Err,
    ensures
        bindings_scan(ops, bindings, n) == bindings_scan(ops, bindings, i),
    decreases n - i,
{
    if i < n {
        lemma_scan_error_stable(ops, bindings, i, n - 1);
    }
}

// ---------------------------------------------------------------------------------------------
// Element addressing
// ---------------------------------------------------------------------------------------------
pub open spec fn fits_isize(v: int) -> bool {
    isize::MIN <= v <= isize::MAX
}

/// The value of an affine index expression over its first `n` terms at a point, every product
/// and sum checked against `isize`; `None` at the first overflow.
pub open spec fn index_value(e: IndexExprModel, coords: Seq<usize>, n: int) -> Option<int>
    decreases n,
{
    if n <= 0 {
        Some(e.constant as int)
    } else {
        match index_value(e, coords, n - 1) {
            None => None,
            Some(v) => {
                let t = e.terms[n - 1];
                let product = t.coefficient * (coords[t.axis.0 as int] as isize);
                if !fits_isize(product) || !fits_isize(v + product) {
                    None
                } else {
                    Some(v + product)
                }
            },
        }
    }
}

/// The element indices of the first `n` dimensions, or `None` where one overflows, is
/// negative, or reaches its extent.
pub open spec fn element_indices(indices: Seq<IndexExprModel>, shape: Seq<usize>, coords: Seq<usize>, n: int) -> Option<
    Seq<usize>,
>
    decreases n,
{
    if n <= 0 {
        Some(Seq::empty())
    } else {
        match element_indices(indices, shape, coords, n - 1) {
            None => None,
            Some(values) => match index_value(indices[n - 1], coords, indices[n - 1].terms.len() as int) {
                None => None,
                Some(v) => if v < 0 || v >= shape[n - 1] {
                    None
                } else {
                    Some(values.push(v as usize))
                },
            },
        }
    }
}

/// The linear position of an element under a dense layout, with the running stride: the
/// first `n` dimensions of `order`, from unit stride outwards, every step checked against
/// `usize`.
pub open spec fn linear_position(values: Seq<usize>, shape: Seq<usize>, order: Seq<usize>, n: int) -> Option<
    (int, int),
>
    decreases n,
{
    if n <= 0 {
        Some((0, 1))
    } else {
        match linear_position(values, shape, order, n - 1) {
            None => None,
            Some((position, stride)) => {
                let d = order[n - 1] as int;
                let step = values[d] * stride;
                if step > usize::MAX || position + step > usize::MAX || stride * shape[d] > usize::MAX {
                    None
                } else {
                    Some((position + step, stride * shape[d]))
                }
            },
        }
    }
}

pub open spec fn index_models(indices: Seq<IndexExpr>) -> Seq<IndexExprModel> {
    indices.map_values(|e: IndexExpr| e@)
}

pub open spec fn min_len(a: int, b: int) -> int {
    if a < b {
        a
    } else {
        b
    }
}

/// The position, inside an operand's region, of the element that `indices` select at a point:
/// `None` where an index overflows or leaves its dimension, or the position leaves `usize`.
pub open spec fn element_offset(indices: Seq<IndexExprModel>, shape: Seq<usize>, order: Seq<usize>, coords: Seq<usize>) -> Option<
    usize,
> {
    match element_indices(indices, shape, coords, min_len(indices.len() as int, shape.len() as int)) {
        None => None,
        Some(values) => match linear_position(values, shape, order, order.len() as int) {
            None => None,
            Some(p) => Some(p.0 as usize),
        },
    }
}

fn eval_index(e: &IndexExpr, coordinates: &Vec<usize>) -> (r: Option<isize>)
    requires
        forall|j: int| 0 <= j < e@.terms.len() ==> (#[trigger] e@.terms[j]).axis.0 < coordinates@.len(),
    ensures
        match r {
            Some(v) => index_value(e@, coordinates@, e@.terms.len() as int) == Some(v as int),
            None => index_value(e@, coordinates@, e@.terms.len() as int) is None,
        },
{
    let mut value: isize = e.constant;
    let mut j: usize = 0;
    while j < e.terms.len()
        invariant
            j <= e@.terms.len(),
            forall|k: int| 0 <= k < e@.terms.len() ==> (#[trigger] e@.terms[k]).axis.0 < coordinates@.len(),
            index_value(e@, coordinates@, j as int) == Some(value as int),
        decreases e@.terms.len() - j,
    {
        let term = e.terms[j];
        let coordinate = coordinates[term.axis.0] as isize;
        let product = match term.coefficient.checked_mul(coordinate) {
            Some(p) => p,
            None => {
                proof {
                    lemma_index_value_none_stable(e@, coordinates@, (j + 1) as int, e@.terms.len() as int);
                }
                return None;
            },
        };
        value = match value.checked_add(product) {
            Some(v) => v,
            None => {
                proof {
                    lemma_index_value_none_stable(e@, coordinates@, (j + 1) as int, e@.terms.len() as int);
                }
                return None;
            },
        };
        j = j + 1;
    }
    Some(value)
}

proof fn lemma_index_value_none_stable(e: IndexExprModel, coords: Seq<usize>, i: int, n: int)
    requires
        0 <= i <= n,
        index_value(e, coords, i) is None,
    ensures
        index_value(e, coords, n) is None,
    decreases n - i,
{
    if i < n {
        lemma_index_value_none_stable(e, coords, i, n - 1);
    }
}

proof fn lemma_element_indices_none_stable(
    indices: Seq<IndexExprModel>,
    shape: Seq<usize>,
    coords: Seq<usize>,
    i: int,
    n: int,
)
    requires
        0 <= i <= n,
        element_indices(indices, shape, coords, i) is None,
    ensures
        element_indices(indices, shape, coords, n) is None,
    decreases n - i,
{
    if i < n {
        lemma_element_indices_none_stable(indices, shape, coords, i, n - 1);
    }
}

proof fn lemma_linear_position_none_stable(values: Seq<usize>, shape: Seq<usize>, order: Seq<usize>, i: int, n: int)
    requires
        0 <= i <= n,
        linear_position(values, shape, order, i) is None,
    ensures
        linear_position(values, shape, order, n) is None,
    decreases n - i,
{
    if i < n {
        lemma_linear_position_none_stable(values, shape, order, i, n - 1);
    }
}

/// The offset, inside an operand's region, of the element that `indices` select at the point
/// `coordinates`, under the dense layout `minor_to_major`; `None` where an index overflows or
/// leaves its dimension, or the offset leaves `usize`.
pub fn offset(indices: &Vec<IndexExpr>, shape: &Vec<usize>, minor_to_major: &Vec<usize>, coordinates: &Vec<usize>) -> (r:
    Option<usize>)
    requires
        forall|i: int, j: int|
            0 <= i < min_len(indices@.len() as int, shape@.len() as int) && 0 <= j < indices@[i]@.terms.len()
                ==> (#[trigger] indices@[i]@.terms[j]).axis.0 < coordinates@.len(),
        forall|k: int|
            0 <= k < minor_to_major@.len() ==> (#[trigger] minor_to_major@[k]) < min_len(
                indices@.len() as int,
                shape@.len() as int,
            ),
    ensures
        r == element_offset(index_models(indices@), shape@, minor_to_major@, coordinates@),
{
    let ghost models = index_models(indices@);
    let m = if indices.len() < shape.len() {
        indices.len()
    } else {
        shape.len()
    };
    let mut values: Vec<usize> = Vec::new();
    let mut i: usize = 0;
    while i < m
        invariant
            i <= m,
            m == min_len(indices@.len() as int, shape@.len() as int),
            models == index_models(indices@),
            forall|a: int, j: int|
                0 <= a < m && 0 <= j < indices@[a]@.terms.len() ==> (#[trigger] indices@[a]@.terms[j]).axis.0
                    < coordinates@.len(),
            element_indices(models, shape@, coordinates@, i as int) == Some(values@),
            values@.len() == i,
        decreases m - i,
    {
        let expr = &indices[i];
        assert(models[i as int] == expr@);
        let index = match eval_index(expr, coordinates) {
            Some(v) => v,
            None => {
                proof {
                    lemma_element_indices_none_stable(models, shape@, coordinates@, (i + 1) as int, m as int);
                }
                return None;
            },
        };
        if index < 0 || index as usize >= shape[i] {
            proof {
                lemma_element_indices_none_stable(models, shape@, coordinates@, (i + 1) as int, m as int);
            }
            return None;
        }
        values.push(index as usize);
        i = i + 1;
    }
    let mut position: usize = 0;
    let mut stride: usize = 1;
    let mut k: usize = 0;
    while k < minor_to_major.len()
        invariant
            k <= minor_to_major@.len(),
            values@.len() == m,
            m <= shape@.len(),
            forall|a: int| 0 <= a < minor_to_major@.len() ==> (#[trigger] minor_to_major@[a]) < m,
            linear_position(values@, shape@, minor_to_major@, k as int) == Some((position as int, stride as int)),
            element_indices(index_models(indices@), shape@, coordinates@, min_len(indices@.len() as int, shape@.len() as int))
                == Some(values@),
        decreases minor_to_major@.len() - k,
    {
        let d = minor_to_major[k];
        let step = match values[d].checked_mul(stride) {
            Some(s) => s,
            None => {
                proof {
                    lemma_linear_position_none_stable(values@, shape@, minor_to_major@, (k + 1) as int, minor_to_major@.len() as int);
                }
                return None;
            },
        };
        let next = match position.checked_add(step) {
            Some(p) => p,
            None => {
                proof {
                    lemma_linear_position_none_stable(values@, shape@, minor_to_major@, (k + 1) as int, minor_to_major@.len() as int);
                }
                return None;
            },
        };
        let wider = match stride.checked_mul(shape[d]) {
            Some(s) => s,
            None => {
                proof {
                    lemma_linear_position_none_stable(values@, shape@, minor_to_major@, (k + 1) as int, minor_to_major@.len() as int);
                }
                return None;
            },
        };
        position = next;
        stride = wider;
        k = k + 1;
    }
    Some(position)
}

// ---------------------------------------------------------------------------------------------
// Addressing stays inside the region
// ---------------------------------------------------------------------------------------------
/// The product of a sequence of factors.
pub open spec fn product(s: Seq<int>) -> int
    decreases s.len(),
{
    if s.len() == 0 {
        1
    } else {
        product(s.drop_last()) * s.last()
    }
}

/// The extents of a shape listed in layout order.
pub open spec fn layout_factors(shape: Seq<usize>, order: Seq<usize>) -> Seq<int> {
    order.map_values(|d: usize| shape[d as int] as int)
}

proof fn lemma_linear_position_bound(values: Seq<usize>, shape: Seq<usize>, order: Seq<usize>, n: int)
    requires
        0 <= n <= order.len(),
        forall|k: int|
            0 <= k < order.len() ==> (#[trigger] order[k]) < values.len() && order[k] < shape.len()
                && values[order[k] as int] < shape[order[k] as int],
        linear_position(values, shape, order, n) is Some,
    ensures
        0 <= linear_position(values, shape, order, n)->Some_0.0,
        linear_position(values, shape, order, n)->Some_0.0 < linear_position(values, shape, order, n)->Some_0.1,
        linear_position(values, shape, order, n)->Some_0.1 == product(layout_factors(shape, order).take(n)),
    decreases n,
{
    if n == 0 {
        assert(layout_factors(shape, order).take(0) =~= Seq::<int>::empty());
    } else {
        lemma_linear_position_bound(values, shape, order, n - 1);
        let (p, s) = linear_position(values, shape, order, n - 1)->Some_0;
        let d = order[n - 1] as int;
        let v = values[d] as int;
        let e = shape[d] as int;
        assert(0 <= p < s);
        assert(0 <= v < e);
        assert(p + v * s < s * e) by (nonlinear_arith)
            requires
                0 <= p < s,
                0 <= v < e,
        ;
        assert(layout_factors(shape, order).take(n).drop_last() =~= layout_factors(shape, order).take(n - 1));
    }
}

proof fn lemma_product_remove(s: Seq<int>, p: int)
    requires
        0 <= p < s.len(),
    ensures
        product(s) == product(s.remove(p)) * s[p],
    decreases s.len(),
{
    if p == s.len() - 1 {
        assert(s.remove(p) =~= s.drop_last());
    } else {
        lemma_product_remove(s.drop_last(), p);
        assert(s.remove(p).drop_last() =~= s.drop_last().remove(p));
        assert(s.remove(p).last() == s.last());
        let a = product(s.drop_last().remove(p));
        let b = s[p];
        let c = s.last();
        assert((a * b) * c == (a * c) * b) by (nonlinear_arith);
    }
}

proof fn lemma_element_count_product(shape: Seq<usize>)
    ensures
        element_count(shape) == product(shape.map_values(|x: usize| x as int)),
    decreases shape.len(),
{
    if shape.len() > 0 {
        lemma_element_count_product(shape.drop_last());
        assert(shape.map_values(|x: usize| x as int).drop_last() =~= shape.drop_last().map_values(|x: usize| x as int));
    }
}

proof fn lemma_permutation_has_last(order: Seq<usize>, r: nat) -> (p: int)
    requires
        is_permutation(order, r),
        r > 0,
    ensures
        0 <= p < order.len(),
        order[p] == r - 1,
{
    let s = order.map_values(|d: usize| d as int);
    if forall|q: int| 0 <= q < order.len() ==> order[q] != r - 1 {
        assert(s.no_duplicates()) by {
            assert forall|i: int, j: int| 0 <= i < s.len() && 0 <= j < s.len() && i != j implies s[i] != s[j] by {
                if i < j {
                    assert(order[i] != order[j]);
                } else {
                    assert(order[j] != order[i]);
                }
            }
        }
        s.unique_seq_to_set();
        vstd::set_lib::lemma_int_range(0, r - 1);
        assert(s.to_set().subset_of(vstd::set_lib::set_int_range(0, r - 1))) by {
            assert forall|x: int| s.to_set().contains(x) implies vstd::set_lib::set_int_range(0, r - 1).contains(x) by {
                let q = choose|q: int| 0 <= q < s.len() && s[q] == x;
                assert(order[q] < r);
                assert(order[q] != r - 1);
            }
        }
        vstd::set_lib::lemma_len_subset(s.to_set(), vstd::set_lib::set_int_range(0, r - 1));
        assert(false);
    }
    choose|q: int| 0 <= q < order.len() && order[q] == r - 1
}

proof fn lemma_layout_product(shape: Seq<usize>, order: Seq<usize>)
    requires
        is_permutation(order, shape.len()),
    ensures
        product(layout_factors(shape, order)) == element_count(shape),
    decreases shape.len(),
{
    let r = shape.len();
    if r == 0 {
        assert(layout_factors(shape, order) =~= Seq::<int>::empty());
    } else {
        let p = lemma_permutation_has_last(order, r);
        let rest = order.remove(p);
        let smaller = shape.drop_last();
        assert(is_permutation(rest, smaller.len())) by {
            assert forall|i: int| 0 <= i < rest.len() implies #[trigger] rest[i] < smaller.len() by {
                let j = if i < p { i } else { i + 1 };
                assert(rest[i] == order[j]);
                assert(order[j] != order[p]);
            }
            assert forall|i: int, j: int| 0 <= i < j < rest.len() implies rest[i] != rest[j] by {
                let a = if i < p { i } else { i + 1 };
                let b = if j < p { j } else { j + 1 };
                assert(rest[i] == order[a] && rest[j] == order[b]);
                assert(order[a] != order[b]);
            }
        }
        lemma_layout_product(smaller, rest);
        lemma_product_remove(layout_factors(shape, order), p);
        assert(layout_factors(shape, order).remove(p) =~= layout_factors(smaller, rest)) by {
            assert forall|i: int| 0 <= i < rest.len() implies layout_factors(shape, order).remove(p)[i]
                == layout_factors(smaller, rest)[i] by {
                assert(rest[i] < smaller.len());
            }
        }
    }
}

proof fn lemma_element_indices_shape(indices: Seq<IndexExprModel>, shape: Seq<usize>, coords: Seq<usize>, n: int)
    requires
        0 <= n <= shape.len(),
        element_indices(indices, shape, coords, n) is Some,
    ensures
        element_indices(indices, shape, coords, n)->Some_0.len() == n,
        forall|d: int|
            0 <= d < n ==> #[trigger] element_indices(indices, shape, coords, n)->Some_0[d] < shape[d],
    decreases n,
{
    if n > 0 {
        lemma_element_indices_shape(indices, shape, coords, n - 1);
    }
}

/// Addressing never leaves an operand's region: whenever the offset of an element exists
/// for a dense layout that lists every dimension once and one index per dimension, it lies
/// below the operand's element count.
pub proof fn lemma_offset_within_region(
    indices: Seq<IndexExprModel>,
    shape: Seq<usize>,
    order: Seq<usize>,
    coords: Seq<usize>,
)
    requires
        is_permutation(order, shape.len()),
        indices.len() == shape.len(),
        element_offset(indices, shape, order, coords) is Some,
    ensures
        element_offset(indices, shape, order, coords)->Some_0 < element_count(shape),
{
    let values = element_indices(indices, shape, coords, shape.len() as int)->Some_0;
    lemma_element_indices_shape(indices, shape, coords, shape.len() as int);
    lemma_linear_position_bound(values, shape, order, order.len() as int);
    assert(layout_factors(shape, order).take(order.len() as int) =~= layout_factors(shape, order));
    lemma_layout_product(shape, order);
}

// ---------------------------------------------------------------------------------------------
// Visiting order
// ---------------------------------------------------------------------------------------------
/// The buffer slot of the element of `operand` at the point `coords`: the operand's region
/// offset plus the element offset that its (first) indexing map selects; `None` where an index
/// leaves the operand's shape or the arithmetic leaves `usize`.
pub open spec fn element_slot(k: crate::ir::KernelModel, operand: OperandId, coords: Seq<usize>) -> Option<usize> {
    let m = k.maps[crate::differentiate::find_map(k.maps, operand, k.maps.len() as int)->Some_0];
    let o = k.operands[operand.0 as int];
    match element_offset(m.results, o.shape, o.layout, coords) {
        Some(off) => if o.region.offset + off <= usize::MAX {
            Some((o.region.offset + off) as usize)
        } else {
            None
        },
        None => None,
    }
}

proof fn lemma_find_map_some(maps: Seq<crate::ir::IndexingMapModel>, op: OperandId, i: int, n: int)
    requires
        0 <= i < n <= maps.len(),
        maps[i].operand == op,
    ensures
        crate::differentiate::find_map(maps, op, n) is Some,
    decreases n,
{
    if i < n - 1 {
        lemma_find_map_some(maps, op, i, n - 1);
    }
}

proof fn lemma_find_map_stable(maps: Seq<crate::ir::IndexingMapModel>, op: OperandId, i: int, n: int)
    requires
        0 <= i <= n,
        crate::differentiate::find_map(maps, op, i) is Some,
    ensures
        crate::differentiate::find_map(maps, op, n) == crate::differentiate::find_map(maps, op, i),
    decreases n - i,
{
    if i < n {
        lemma_find_map_stable(maps, op, i, n - 1);
    }
}

/// Where in its caller buffer the element of `operand` at the point `coordinates` lives, for
/// a validated kernel.
pub fn element_index(kernel: &ValidatedKernel, operand: OperandId, coordinates: &Vec<usize>) -> (r: Option<usize>)
    requires
        operand.0 < kernel.inner()@.operands.len(),
        coordinates@.len() == kernel.inner()@.extents.len(),
    ensures
        r == element_slot(kernel.inner()@, operand, coordinates@),
{
    let k = kernel.as_kernel();
    let ghost km = k@;
    proof {
        crate::validate::lemma_valid_has_map(km, operand.0 as int);
        let i = choose|i: int| 0 <= i < km.maps.len() && (#[trigger] km.maps[i]).operand.0 == operand.0;
        lemma_find_map_some(km.maps, operand, i, km.maps.len() as int);
    }
    let mut j: usize = 0;
    while j < k.indexing_maps.len() && k.indexing_maps[j].operand != operand
        invariant
            j <= km.maps.len(),
            km == k@,
            crate::differentiate::find_map(km.maps, operand, j as int) is None,
            crate::differentiate::find_map(km.maps, operand, km.maps.len() as int) is Some,
        decreases km.maps.len() - j,
    {
        proof {
            assert(km.maps[j as int] == k.indexing_maps@[j as int]@);
        }
        j = j + 1;
    }
    proof {
        if j == km.maps.len() {
            assert(false);
        }
        assert(km.maps[j as int] == k.indexing_maps@[j as int]@);
        assert(crate::differentiate::find_map(km.maps, operand, (j + 1) as int) == Some(j as int));
        lemma_find_map_stable(km.maps, operand, (j + 1) as int, km.maps.len() as int);
    }
    let map = &k.indexing_maps[j];
    let definition = &k.operands[operand.0];
    proof {
        crate::validate::lemma_valid_map(km, j as int);
        crate::validate::lemma_valid_operand_region(km, operand.0 as int);
        assert(km.operands[operand.0 as int] == definition@);
        assert(map@.results == index_models(map.results@));
        assert forall|i: int, t: int|
            0 <= i < min_len(map.results@.len() as int, definition.shape@.len() as int) && 0 <= t
                < map.results@[i]@.terms.len() implies (#[trigger] map.results@[i]@.terms[t]).axis.0 < coordinates@.len() by {
            assert(map@.results[i] == map.results@[i]@);
            assert(km.maps[j as int].results[i].terms[t] == map.results@[i]@.terms[t]);
        }
    }
    match offset(&map.results, &definition.shape, &definition.layout.minor_to_major, coordinates) {
        Some(element) => definition.region.offset.checked_add(element),
        None => None,
    }
}

/// The order in which the axes are nested, outermost first: axis order for a canonical
/// reduction order, else the schedule's loop order.
pub open spec fn visit_axes(k: crate::ir::KernelModel, schedule: Seq<AxisId>) -> Seq<AxisId> {
    if k.policy.reduction_order == ReductionOrder::Canonical {
        Seq::new(k.extents.len(), |i: int| AxisId(i as usize))
    } else {
        schedule
    }
}

/// The loop nest an executable runs: outermost axis first.
pub fn loop_nest(executable: &Executable) -> (order: Vec<AxisId>)
    ensures
        order@ == visit_axes(executable.kernel_spec()@, executable.schedule_spec().loop_order),
{
    let kernel = executable.kernel().as_kernel();
    if let ReductionOrder::Canonical = kernel.numeric_policy.reduction_order {
        let rank = kernel.iteration_domain.extents.len();
        let mut order: Vec<AxisId> = Vec::new();
        let mut i: usize = 0;
        while i < rank
            invariant
                i <= rank,
                order@.len() == i,
                forall|j: int| 0 <= j < i ==> order@[j] == AxisId(j as usize),
            decreases rank - i,
        {
            order.push(AxisId(i));
            i = i + 1;
        }
        assert(order@ =~= visit_axes(executable.kernel_spec()@, executable.schedule_spec().loop_order));
        order
    } else {
        let schedule = &executable.schedule().loop_order;
        let mut order: Vec<AxisId> = Vec::new();
        let mut i: usize = 0;
        while i < schedule.len()
            invariant
                i <= schedule@.len(),
                order@ == schedule@.take(i as int),
            decreases schedule@.len() - i,
        {
            order.push(schedule[i]);
            i = i + 1;
            assert(order@ =~= schedule@.take(i as int));
        }
        assert(schedule@.take(schedule@.len() as int) =~= schedule@);
        order
    }
}

/// The point that follows `coords` when the axes of `order` are nested outermost first: the
/// innermost axis that can still advance steps by one and every axis inside it restarts at
/// zero. `None` after the last point.
pub open spec fn next_point(extents: Seq<usize>, order: Seq<AxisId>, coords: Seq<usize>, depth: int) -> Option<
    Seq<usize>,
>
    decreases depth,
{
    if depth <= 0 {
        None
    } else {
        let axis = order[depth - 1].0 as int;
        if coords[axis] + 1 < extents[axis] {
            Some(coords.update(axis, (coords[axis] + 1) as usize))
        } else {
            match next_point(extents, order, coords, depth - 1) {
                Some(next) => Some(next.update(axis, 0usize)),
                None => None,
            }
        }
    }
}

/// Whether the loop nest has any point at all: every axis it runs over is nonempty.
pub open spec fn nest_nonempty(extents: Seq<usize>, order: Seq<AxisId>) -> bool {
    forall|d: int| 0 <= d < order.len() ==> extents[#[trigger] order[d].0 as int] > 0
}

/// Whether the loop nest visits any point: every axis of `order` has a nonzero extent.
pub fn has_points(extents: &Vec<usize>, order: &Vec<AxisId>) -> (r: bool)
    requires
        forall|d: int| 0 <= d < order@.len() ==> (#[trigger] order@[d]).0 < extents@.len(),
    ensures
        r == nest_nonempty(extents@, order@),
{
    let mut d: usize = 0;
    while d < order.len()
        invariant
            d <= order@.len(),
            forall|e: int| 0 <= e < order@.len() ==> (#[trigger] order@[e]).0 < extents@.len(),
            forall|e: int| 0 <= e < d ==> extents@[#[trigger] order@[e].0 as int] > 0,
        decreases order@.len() - d,
    {
        if extents[order[d].0] == 0 {
            return false;
        }
        d = d + 1;
    }
    true
}

/// Step `coords` to the point of the loop nest over `order[..depth]` that follows it; `false`
/// once that nest is exhausted. Starting from all zeros, the points come in the order of
/// nested loops over `order`, outermost first.
pub fn advance(extents: &Vec<usize>, order: &Vec<AxisId>, coords: &mut Vec<usize>, depth: usize) -> (more: bool)
    requires
        depth <= order@.len(),
        old(coords)@.len() == extents@.len(),
        forall|d: int| 0 <= d < order@.len() ==> (#[trigger] order@[d]).0 < extents@.len(),
    ensures
        final(coords)@.len() == extents@.len(),
        more == (next_point(extents@, order@, old(coords)@, depth as int) is Some),
        more ==> final(coords)@ == next_point(extents@, order@, old(coords)@, depth as int)->Some_0,
    decreases depth,
{
    if depth == 0 {
        return false;
    }
    let axis = order[depth - 1].0;
    assert(axis < extents@.len());
    if extents[axis] > 0 && coords[axis] < extents[axis] - 1 {
        let value = coords[axis] + 1;
        coords.set(axis, value);
        return true;
    }
    let more = advance(extents, order, coords, depth - 1);
    if more {
        coords.set(axis, 0);
    }
    more
}

// ---------------------------------------------------------------------------------------------
// Enumeration of the loop nest
// ---------------------------------------------------------------------------------------------
/// Where `coords` stands among the points of the nest over `order[..n]`, counting from zero in
/// nested-loop order (the outermost axis most significant).
pub open spec fn nest_position(extents: Seq<usize>, order: Seq<AxisId>, coords: Seq<usize>, n: int) -> int
    decreases n,
{
    if n <= 0 {
        0
    } else {
        let a = order[n - 1].0 as int;
        nest_position(extents, order, coords, n - 1) * extents[a] + coords[a]
    }
}

/// How many points the nest over `order[..n]` has.
pub open spec fn nest_size(extents: Seq<usize>, order: Seq<AxisId>, n: int) -> int
    decreases n,
{
    if n <= 0 {
        1
    } else {
        nest_size(extents, order, n - 1) * extents[order[n - 1].0 as int]
    }
}

/// Whether `coords` is a point of the nest over `order[..n]`.
pub open spec fn in_nest(extents: Seq<usize>, order: Seq<AxisId>, coords: Seq<usize>, n: int) -> bool {
    forall|d: int| 0 <= d < n ==> coords[#[trigger] order[d].0 as int] < extents[order[d].0 as int]
}

/// Whether `a` and `b` agree on every axis of `order[..n]`.
pub open spec fn agree_on(order: Seq<AxisId>, a: Seq<usize>, b: Seq<usize>, n: int) -> bool {
    forall|d: int| 0 <= d < n ==> a[#[trigger] order[d].0 as int] == b[order[d].0 as int]
}

/// The axes of `order` are distinct axes of the domain.
pub open spec fn distinct_axes(extents: Seq<usize>, order: Seq<AxisId>) -> bool {
    &&& forall|d: int| 0 <= d < order.len() ==> (#[trigger] order[d]).0 < extents.len()
    &&& forall|d: int, e: int| 0 <= d < e < order.len() ==> order[d] != order[e]
}

proof fn lemma_position_agrees(extents: Seq<usize>, order: Seq<AxisId>, a: Seq<usize>, b: Seq<usize>, n: int)
    requires
        0 <= n <= order.len(),
        agree_on(order, a, b, n),
    ensures
        nest_position(extents, order, a, n) == nest_position(extents, order, b, n),
    decreases n,
{
    if n > 0 {
        lemma_position_agrees(extents, order, a, b, n - 1);
        assert(a[order[n - 1].0 as int] == b[order[n - 1].0 as int]);
    }
}

proof fn lemma_position_bounds(extents: Seq<usize>, order: Seq<AxisId>, c: Seq<usize>, n: int)
    requires
        0 <= n <= order.len(),
        in_nest(extents, order, c, n),
    ensures
        0 <= nest_position(extents, order, c, n) < nest_size(extents, order, n),
    decreases n,
{
    if n > 0 {
        lemma_position_bounds(extents, order, c, n - 1);
        let v = nest_position(extents, order, c, n - 1);
        let t = nest_size(extents, order, n - 1);
        let a = order[n - 1].0 as int;
        let e = extents[a] as int;
        let x = c[a] as int;
        assert(x < e);
        assert(0 <= v * e + x < t * e) by (nonlinear_arith)
            requires
                0 <= v < t,
                0 <= x < e,
        ;
    }
}

/// The step from one point of the nest over `order[..n]` to the next: a point with a
/// following position steps to it, changing no axis outside the nest; the last point has no
/// successor.
proof fn lemma_next_point_step(extents: Seq<usize>, order: Seq<AxisId>, c: Seq<usize>, n: int)
    requires
        0 <= n <= order.len(),
        distinct_axes(extents, order),
        c.len() == extents.len(),
        in_nest(extents, order, c, n),
    ensures
        match next_point(extents, order, c, n) {
            Some(next) => {
                &&& next.len() == c.len()
                &&& in_nest(extents, order, next, n)
                &&& nest_position(extents, order, next, n) == nest_position(extents, order, c, n) + 1
                &&& forall|i: int| 0 <= i < c.len() && (forall|d: int| 0 <= d < n ==> #[trigger] order[d].0 != i) ==> next[i] == c[i]
            },
            None => nest_position(extents, order, c, n) + 1 == nest_size(extents, order, n),
        },
    decreases n,
{
    if n > 0 {
        let a = order[n - 1].0 as int;
        let e = extents[a] as int;
        let x = c[a] as int;
        assert(x < e);
        lemma_position_bounds(extents, order, c, n - 1);
        let v = nest_position(extents, order, c, n - 1);
        let t = nest_size(extents, order, n - 1);
        if c[a] + 1 < extents[a] {
            let next = c.update(a, (c[a] + 1) as usize);
            assert(agree_on(order, next, c, n - 1)) by {
                assert forall|d: int| 0 <= d < n - 1 implies next[#[trigger] order[d].0 as int] == c[order[d].0 as int] by {
                    assert(order[d] != order[n - 1]);
                }
            }
            lemma_position_agrees(extents, order, next, c, n - 1);
            assert(in_nest(extents, order, next, n)) by {
                assert forall|d: int| 0 <= d < n implies next[#[trigger] order[d].0 as int] < extents[order[d].0 as int] by {
                    if d < n - 1 {
                        assert(order[d] != order[n - 1]);
                    }
                }
            }
        } else {
            lemma_next_point_step(extents, order, c, n - 1);
            match next_point(extents, order, c, n - 1) {
                Some(inner) => {
                    let next = inner.update(a, 0usize);
                    assert(agree_on(order, next, inner, n - 1)) by {
                        assert forall|d: int| 0 <= d < n - 1 implies next[#[trigger] order[d].0 as int] == inner[order[d].0 as int] by {
                            assert(order[d] != order[n - 1]);
                        }
                    }
                    lemma_position_agrees(extents, order, next, inner, n - 1);
                    assert(inner[a] == c[a]) by {
                        assert forall|d: int| 0 <= d < n - 1 implies #[trigger] order[d].0 != a by {
                            assert(order[d] != order[n - 1]);
                        }
                    }
                    assert((v + 1) * e + 0 == v * e + x + 1) by (nonlinear_arith)
                        requires
                            x + 1 == e,
                    ;
                    assert(in_nest(extents, order, next, n)) by {
                        assert forall|d: int| 0 <= d < n implies next[#[trigger] order[d].0 as int] < extents[order[d].0 as int] by {
                            if d < n - 1 {
                                assert(order[d] != order[n - 1]);
                            }
                        }
                    }
                },
                None => {
                    assert((v + 1) * e == v * e + x + 1) by (nonlinear_arith)
                        requires
                            x + 1 == e,
                    ;
                },
            }
        }
    }
}

proof fn lemma_position_injective(extents: Seq<usize>, order: Seq<AxisId>, a: Seq<usize>, b: Seq<usize>, n: int)
    requires
        0 <= n <= order.len(),
        in_nest(extents, order, a, n),
        in_nest(extents, order, b, n),
        nest_position(extents, order, a, n) == nest_position(extents, order, b, n),
    ensures
        agree_on(order, a, b, n),
    decreases n,
{
    if n > 0 {
        let ax = order[n - 1].0 as int;
        let e = extents[ax] as int;
        let va = nest_position(extents, order, a, n - 1);
        let vb = nest_position(extents, order, b, n - 1);
        let xa = a[ax] as int;
        let xb = b[ax] as int;
        assert(xa < e && xb < e);
        lemma_position_bounds(extents, order, a, n - 1);
        lemma_position_bounds(extents, order, b, n - 1);
        assert(va == vb && xa == xb) by (nonlinear_arith)
            requires
                va * e + xa == vb * e + xb,
                0 <= xa < e,
                0 <= xb < e,
                0 <= va,
                0 <= vb,
        ;
        lemma_position_injective(extents, order, a, b, n - 1);
    }
}

/// The loop nest visits every point exactly once, in nested-loop order: the origin is its
/// first point (when it has any), each point of the nest steps to the point whose position is
/// one higher without touching axes outside the nest, the last point has no successor, and
/// no two points share a position.
pub proof fn lemma_loop_nest_enumerates(extents: Seq<usize>, order: Seq<AxisId>, c: Seq<usize>, other: Seq<usize>)
    requires
        distinct_axes(extents, order),
        c.len() == extents.len(),
        in_nest(extents, order, c, order.len() as int),
    ensures
        nest_nonempty(extents, order) ==> in_nest(extents, order, Seq::new(extents.len(), |i: int| 0usize), order.len() as int)
            && nest_position(extents, order, Seq::new(extents.len(), |i: int| 0usize), order.len() as int) == 0,
        0 <= nest_position(extents, order, c, order.len() as int) < nest_size(extents, order, order.len() as int),
        match next_point(extents, order, c, order.len() as int) {
            Some(next) => {
                &&& next.len() == c.len()
                &&& in_nest(extents, order, next, order.len() as int)
                &&& nest_position(extents, order, next, order.len() as int) == nest_position(extents, order, c, order.len() as int) + 1
                &&& forall|i: int| 0 <= i < c.len() && (forall|d: int| 0 <= d < order.len() ==> #[trigger] order[d].0 != i) ==> next[i] == c[i]
            },
            None => nest_position(extents, order, c, order.len() as int) + 1 == nest_size(extents, order, order.len() as int),
        },
        in_nest(extents, order, other, order.len() as int) && nest_position(extents, order, other, order.len() as int)
            == nest_position(extents, order, c, order.len() as int) ==> agree_on(order, other, c, order.len() as int),
{
    let n = order.len() as int;
    let zeros = Seq::new(extents.len(), |i: int| 0usize);
    if nest_nonempty(extents, order) {
        assert(in_nest(extents, order, zeros, n)) by {
            assert forall|d: int| 0 <= d < n implies zeros[#[trigger] order[d].0 as int] < extents[order[d].0 as int] by {
                assert(extents[order[d].0 as int] > 0);
            }
        }
        lemma_zero_position(extents, order, zeros, n);
    }
    lemma_position_bounds(extents, order, c, n);
    lemma_next_point_step(extents, order, c, n);
    if in_nest(extents, order, other, n) && nest_position(extents, order, other, n) == nest_position(extents, order, c, n) {
        lemma_position_injective(extents, order, other, c, n);
    }
}

proof fn lemma_zero_position(extents: Seq<usize>, order: Seq<AxisId>, zeros: Seq<usize>, n: int)
    requires
        0 <= n <= order.len(),
        distinct_axes(extents, order),
        zeros == Seq::new(extents.len(), |i: int| 0usize),
    ensures
        nest_position(extents, order, zeros, n) == 0,
    decreases n,
{
    if n > 0 {
        lemma_zero_position(extents, order, zeros, n - 1);
        assert(zeros[order[n - 1].0 as int] == 0);
    }
}

} // verus!
