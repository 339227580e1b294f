//! Schedule-independent local-kernel intermediate representation.
//!
//! Every collection in the IR is an ordered `Vec`, and every scalar constant is held as the
//! IEEE-754 bit pattern of a double (`f64::to_bits`), so the IR is plain data that validation,
//! differentiation and digests can reason about exactly.
use vstd::prelude::*;

verus! {

/// An iteration-axis identifier local to one kernel.
#[derive(Clone, Copy, Debug, PartialEq, Eq, PartialOrd, Ord, Hash, Structural)]
pub struct AxisId(pub usize);

impl AxisId {
    pub fn new(index: usize) -> (id: Self)
        ensures
            id.0 == index,
    {
        AxisId(index)
    }

    pub fn index(self) -> (index: usize)
        ensures
            index == self.0,
    {
        self.0
    }
}

/// An operand identifier local to one kernel.
#[derive(Clone, Copy, Debug, PartialEq, Eq, PartialOrd, Ord, Hash, Structural)]
pub struct OperandId(pub usize);

impl OperandId {
    pub fn new(index: usize) -> (id: Self)
        ensures
            id.0 == index,
    {
        OperandId(index)
    }

    pub fn index(self) -> (index: usize)
        ensures
            index == self.0,
    {
        self.0
    }
}

/// An SSA-like local identifier inside a kernel region.
#[derive(Clone, Copy, Debug, PartialEq, Eq, PartialOrd, Ord, Hash, Structural)]
pub struct LocalId(pub usize);

impl LocalId {
    pub fn new(index: usize) -> (id: Self)
        ensures
            id.0 == index,
    {
        LocalId(index)
    }

    pub fn index(self) -> (index: usize)
        ensures
            index == self.0,
    {
        self.0
    }
}

/// Fixed extents for one local invocation domain.
///
/// An empty domain is a scalar point kernel and executes once.
#[derive(Clone, Debug, PartialEq, Eq)]
pub struct IterationDomain {
    pub extents: Vec<usize>,
}

impl IterationDomain {
    pub fn new(extents: Vec<usize>) -> (domain: Self)
        ensures
            domain.extents@ == extents@,
    {
        IterationDomain { extents }
    }

    pub fn rank(&self) -> (rank: usize)
        ensures
            rank == self.extents@.len(),
    {
        self.extents.len()
    }
}

impl Default for IterationDomain {
    fn default() -> (domain: Self)
        ensures
            domain.extents@.len() == 0,
    {
        IterationDomain { extents: Vec::new() }
    }
}

/// Mathematical role of an iteration axis before target scheduling.
#[derive(Clone, Copy, Debug, PartialEq, Eq, Structural)]
pub enum IteratorKind {
    Serial,
    Parallel,
    Reduction,
}

/// The reduction applied by a reducing store.
#[derive(Clone, Copy, Debug, PartialEq, Eq, Structural)]
pub enum ReductionOp {
    Add,
    Multiply,
    Min,
    Max,
}

/// Observable memory effect of an operand.
#[derive(Clone, Copy, Debug, PartialEq, Eq, Structural)]
pub enum AccessMode {
    Read,
    Write,
    ReadWrite,
    Reduce(ReductionOp),
}

impl AccessMode {
    pub open spec fn readable(self) -> bool {
        self is Read || self is ReadWrite
    }

    pub open spec fn writable(self) -> bool {
        !(self is Read)
    }

    pub fn can_read(self) -> (r: bool)
        ensures
            r == self.readable(),
    {
        match self {
            AccessMode::Read | AccessMode::ReadWrite => true,
            _ => false,
        }
    }

    pub fn can_write(self) -> (r: bool)
        ensures
            r == self.writable(),
    {
        match self {
            AccessMode::Read => false,
            _ => true,
        }
    }
}

/// The contiguous window of a caller buffer that holds one operand's elements.
#[derive(Clone, Copy, Debug, PartialEq, Eq, Structural)]
pub struct BufferRegion {
    pub offset: usize,
    pub length: usize,
}

impl BufferRegion {
    pub fn new(offset: usize, length: usize) -> (region: Self)
        ensures
            region.offset == offset,
            region.length == length,
    {
        BufferRegion { offset, length }
    }
}

/// A dense layout: `minor_to_major[0]` is the dimension with unit stride.
#[derive(Clone, Debug, PartialEq, Eq)]
pub struct DenseLayout {
    pub minor_to_major: Vec<usize>,
}

/// The row-major dimension order `[rank - 1, ..., 1, 0]`.
pub open spec fn row_major_order(rank: nat) -> Seq<usize> {
    Seq::new(rank, |i: int| (rank - 1 - i) as usize)
}

impl DenseLayout {
    /// The row-major layout of a tensor of the given rank.
    pub fn row_major(rank: usize) -> (layout: Self)
        ensures
            layout.minor_to_major@ == row_major_order(rank as nat),
    {
        let mut order: Vec<usize> = Vec::new();
        let mut i: usize = 0;
        while i < rank
            invariant
                i <= rank,
                order@.len() == i,
                forall|j: int| 0 <= j < i ==> order@[j] == rank - 1 - j,
            decreases rank - i,
        {
            order.push(rank - 1 - i);
            i = i + 1;
        }
        assert(order@ =~= row_major_order(rank as nat));
        DenseLayout { minor_to_major: order }
    }
}

/// The number of elements of a dense tensor: the product of its extents.
pub open spec fn element_count(shape: Seq<usize>) -> int
    decreases shape.len(),
{
    if shape.len() == 0 {
        1
    } else {
        element_count(shape.drop_last()) * shape.last()
    }
}

/// An element count is never negative.
pub(crate) proof fn lemma_element_count_nonnegative(shape: Seq<usize>)
    ensures
        element_count(shape) >= 0,
    decreases shape.len(),
{
    if shape.len() > 0 {
        lemma_element_count_nonnegative(shape.drop_last());
        vstd::arithmetic::mul::lemma_mul_nonnegative(
            element_count(shape.drop_last()),
            shape.last() as int,
        );
    }
}

/// Whether the running product of the extents stays within `usize` at every prefix.
pub open spec fn count_fits(shape: Seq<usize>) -> bool {
    forall|k: int| 0 <= k <= shape.len() ==> element_count(#[trigger] shape.take(k)) <= usize::MAX
}

/// The element count of a shape, or `None` where the running product leaves `usize`.
pub fn checked_element_count(shape: &Vec<usize>) -> (count: Option<usize>)
    ensures
        match count {
            Some(n) => count_fits(shape@) && n == element_count(shape@),
            None => !count_fits(shape@),
        },
{
    let mut product: usize = 1;
    let mut i: usize = 0;
    assert(shape@.take(0) =~= Seq::<usize>::empty());
    while i < shape.len()
        invariant
            i <= shape@.len(),
            product == element_count(shape@.take(i as int)),
            forall|k: int| 0 <= k <= i ==> element_count(#[trigger] shape@.take(k)) <= usize::MAX,
        decreases shape@.len() - i,
    {
        assert(shape@.take(i + 1).drop_last() =~= shape@.take(i as int));
        let extent = shape[i];
        match product.checked_mul(extent) {
            Some(next) => {
                product = next;
            },
            None => {
                assert(element_count(shape@.take(i + 1)) > usize::MAX);
                return None;
            },
        }
        i = i + 1;
    }
    assert(shape@.take(shape@.len() as int) =~= shape@);
    Some(product)
}

/// An element-for-element copy of a vector of indices.
pub fn copy_indices(v: &Vec<usize>) -> (r: Vec<usize>)
    ensures
        r@ == v@,
{
    let mut r: Vec<usize> = Vec::new();
    let mut i: usize = 0;
    while i < v.len()
        invariant
            i <= v@.len(),
            r@ == v@.take(i as int),
        decreases v@.len() - i,
    {
        r.push(v[i]);
        i = i + 1;
        assert(r@ =~= v@.take(i as int));
    }
    assert(v@.take(v@.len() as int) =~= v@);
    r
}

/// An element-for-element copy of iterator kinds.
pub fn copy_kinds(v: &Vec<IteratorKind>) -> (r: Vec<IteratorKind>)
    ensures
        r@ == v@,
{
    let mut r: Vec<IteratorKind> = Vec::new();
    let mut i: usize = 0;
    while i < v.len()
        invariant
            i <= v@.len(),
            r@ == v@.take(i as int),
        decreases v@.len() - i,
    {
        r.push(v[i]);
        i = i + 1;
        assert(r@ =~= v@.take(i as int));
    }
    assert(v@.take(v@.len() as int) =~= v@);
    r
}

/// One externally bound scalar or dense tensor.
#[derive(Clone, Debug, PartialEq, Eq)]
pub struct KernelOperand {
    pub name: String,
    pub shape: Vec<usize>,
    pub region: BufferRegion,
    pub layout: DenseLayout,
    pub access: AccessMode,
}

/// The mathematical content of a [`KernelOperand`].
pub struct OperandModel {
    pub name: Seq<char>,
    pub shape: Seq<usize>,
    pub region: BufferRegion,
    pub layout: Seq<usize>,
    pub access: AccessMode,
}

impl View for KernelOperand {
    type V = OperandModel;

    open spec fn view(&self) -> OperandModel {
        OperandModel {
            name: self.name@,
            shape: self.shape@,
            region: self.region,
            layout: self.layout.minor_to_major@,
            access: self.access,
        }
    }
}

/// The region a fresh operand occupies: from offset zero, one slot per element, saturating where
/// the element count does not fit in `usize`.
pub open spec fn default_region(shape: Seq<usize>) -> BufferRegion {
    BufferRegion {
        offset: 0,
        length: if count_fits(shape) {
            element_count(shape) as usize
        } else {
            usize::MAX
        },
    }
}

impl KernelOperand {
    pub fn copy(&self) -> (operand: Self)
        ensures
            operand@ == self@,
    {
        KernelOperand {
            name: self.name.clone(),
            shape: copy_indices(&self.shape),
            region: self.region,
            layout: DenseLayout { minor_to_major: copy_indices(&self.layout.minor_to_major) },
            access: self.access,
        }
    }

    /// A rank-zero operand with one element at offset zero.
    pub fn scalar(name: &str, access: AccessMode) -> (operand: Self)
        ensures
            operand@.name == name@,
            operand@.shape.len() == 0,
            operand@.region == (BufferRegion { offset: 0, length: 1 }),
            operand@.layout.len() == 0,
            operand@.access == access,
    {
        let layout = DenseLayout::row_major(0);
        assert(layout.minor_to_major@ =~= Seq::<usize>::empty());
        KernelOperand {
            name: name.to_owned(),
            shape: Vec::new(),
            region: BufferRegion { offset: 0, length: 1 },
            layout,
            access,
        }
    }

    /// A dense row-major tensor occupying its buffer from offset zero.
    pub fn tensor(name: &str, shape: Vec<usize>, access: AccessMode) -> (operand: Self)
        ensures
            operand@.name == name@,
            operand@.shape == shape@,
            operand@.region == default_region(shape@),
            operand@.layout == row_major_order(shape@.len()),
            operand@.access == access,
    {
        let length = match checked_element_count(&shape) {
            Some(n) => n,
            None => usize::MAX,
        };
        let layout = DenseLayout::row_major(shape.len());
        KernelOperand {
            name: name.to_owned(),
            shape,
            region: BufferRegion { offset: 0, length },
            layout,
            access,
        }
    }
}

/// One term in an affine operand index.
#[derive(Clone, Copy, Debug, PartialEq, Eq, Structural)]
pub struct IndexTerm {
    pub axis: AxisId,
    pub coefficient: isize,
}

/// An affine index expression `constant + sum(coefficient * axis)`.
#[derive(Clone, Debug, PartialEq, Eq)]
pub struct IndexExpr {
    pub constant: isize,
    pub terms: Vec<IndexTerm>,
}

/// The mathematical content of an [`IndexExpr`].
pub struct IndexExprModel {
    pub constant: isize,
    pub terms: Seq<IndexTerm>,
}

impl View for IndexExpr {
    type V = IndexExprModel;

    open spec fn view(&self) -> IndexExprModel {
        IndexExprModel { constant: self.constant, terms: self.terms@ }
    }
}

impl IndexExpr {
    pub fn copy(&self) -> (expr: Self)
        ensures
            expr@ == self@,
    {
        let mut terms: Vec<IndexTerm> = Vec::new();
        let mut i: usize = 0;
        while i < self.terms.len()
            invariant
                i <= self.terms@.len(),
                terms@ == self.terms@.take(i as int),
            decreases self.terms@.len() - i,
        {
            terms.push(self.terms[i]);
            i = i + 1;
            assert(terms@ =~= self.terms@.take(i as int));
        }
        assert(self.terms@.take(self.terms@.len() as int) =~= self.terms@);
        IndexExpr { constant: self.constant, terms }
    }

    /// The index equal to one axis coordinate.
    pub fn axis(axis: AxisId) -> (expr: Self)
        ensures
            expr@.constant == 0,
            expr@.terms == seq![IndexTerm { axis, coefficient: 1 }],
    {
        let mut terms = Vec::new();
        terms.push(IndexTerm { axis, coefficient: 1 });
        IndexExpr { constant: 0, terms }
    }

    /// A fixed index.
    pub fn constant(constant: isize) -> (expr: Self)
        ensures
            expr@.constant == constant,
            expr@.terms.len() == 0,
    {
        IndexExpr { constant, terms: Vec::new() }
    }

    /// An axis coordinate shifted by a fixed offset.
    pub fn offset(axis: AxisId, offset: isize) -> (expr: Self)
        ensures
            expr@.constant == offset,
            expr@.terms == seq![IndexTerm { axis, coefficient: 1 }],
    {
        let mut terms = Vec::new();
        terms.push(IndexTerm { axis, coefficient: 1 });
        IndexExpr { constant: offset, terms }
    }
}

/// Maps the current iteration coordinates to one operand element.
#[derive(Clone, Debug, PartialEq, Eq)]
pub struct IndexingMap {
    pub operand: OperandId,
    pub results: Vec<IndexExpr>,
}

/// The mathematical content of an [`IndexingMap`].
pub struct IndexingMapModel {
    pub operand: OperandId,
    pub results: Seq<IndexExprModel>,
}

impl View for IndexingMap {
    type V = IndexingMapModel;

    open spec fn view(&self) -> IndexingMapModel {
        IndexingMapModel {
            operand: self.operand,
            results: self.results@.map_values(|e: IndexExpr| e@),
        }
    }
}

impl IndexingMap {
    pub fn copy(&self) -> (map: Self)
        ensures
            map@ == self@,
    {
        let mut results: Vec<IndexExpr> = Vec::new();
        let mut i: usize = 0;
        while i < self.results.len()
            invariant
                i <= self.results@.len(),
                results@.len() == i,
                forall|j: int| 0 <= j < i ==> (#[trigger] results@[j])@ == self.results@[j]@,
            decreases self.results@.len() - i,
        {
            results.push(self.results[i].copy());
            i = i + 1;
        }
        let map = IndexingMap { operand: self.operand, results };
        assert(map@.results =~= self@.results);
        map
    }

    /// The map of a rank-zero operand.
    pub fn scalar(operand: OperandId) -> (map: Self)
        ensures
            map@.operand == operand,
            map@.results.len() == 0,
    {
        IndexingMap { operand, results: Vec::new() }
    }

    pub fn new(operand: OperandId, results: Vec<IndexExpr>) -> (map: Self)
        ensures
            map@.operand == operand,
            map@.results == results@.map_values(|e: IndexExpr| e@),
    {
        IndexingMap { operand, results }
    }
}

#[derive(Clone, Copy, Debug, PartialEq, Eq, Structural)]
pub enum ScalarType {
    F32,
    F64,
}

#[derive(Clone, Copy, Debug, PartialEq, Eq, Structural)]
pub enum FmaPolicy {
    Forbidden,
    Allowed,
}

#[derive(Clone, Copy, Debug, PartialEq, Eq, Structural)]
pub enum Reassociation {
    Forbidden,
    Allowed,
}

#[derive(Clone, Copy, Debug, PartialEq, Eq, Structural)]
pub enum ReductionOrder {
    Canonical,
    ScheduleDefined,
}

/// Finite-precision choices that are part of executable identity.
#[derive(Clone, Copy, Debug, PartialEq, Eq, Structural)]
pub struct NumericPolicy {
    pub scalar_type: ScalarType,
    pub fma: FmaPolicy,
    pub reassociation: Reassociation,
    pub reduction_order: ReductionOrder,
}

impl Default for NumericPolicy {
    fn default() -> (policy: Self)
        ensures
            policy == (NumericPolicy {
                scalar_type: ScalarType::F64,
                fma: FmaPolicy::Forbidden,
                reassociation: Reassociation::Forbidden,
                reduction_order: ReductionOrder::Canonical,
            }),
    {
        NumericPolicy {
            scalar_type: ScalarType::F64,
            fma: FmaPolicy::Forbidden,
            reassociation: Reassociation::Forbidden,
            reduction_order: ReductionOrder::Canonical,
        }
    }
}

#[derive(Clone, Copy, Debug, PartialEq, Eq, Structural)]
pub enum UnaryOp {
    Neg,
    Abs,
    Sqrt,
    Exp,
    Ln,
    Sin,
    Cos,
    Tan,
    Floor,
    Ceil,
}

#[derive(Clone, Copy, Debug, PartialEq, Eq, Structural)]
pub enum BinaryOp {
    Add,
    Sub,
    Mul,
    Div,
    Pow,
    Min,
    Max,
    Atan2,
}

#[derive(Clone, Copy, Debug, PartialEq, Eq, Structural)]
pub enum CompareOp {
    Eq,
    NotEq,
    Less,
    LessEqual,
    Greater,
    GreaterEqual,
}

/// A scalar expression evaluated at the current iteration point.
///
/// `Constant` holds the bit pattern of an IEEE-754 double.
#[derive(Debug, PartialEq, Eq)]
pub enum ScalarExpr {
    Constant(u64),
    Index(AxisId),
    Load(OperandId),
    Local(LocalId),
    Unary { op: UnaryOp, arg: Box<ScalarExpr> },
    Binary { op: BinaryOp, lhs: Box<ScalarExpr>, rhs: Box<ScalarExpr> },
    Select { condition: Box<Predicate>, if_true: Box<ScalarExpr>, if_false: Box<ScalarExpr> },
}

impl ScalarExpr {
    pub fn unary(op: UnaryOp, arg: ScalarExpr) -> (expr: Self)
        ensures
            expr == (ScalarExpr::Unary { op, arg: Box::new(arg) }),
    {
        ScalarExpr::Unary { op, arg: Box::new(arg) }
    }

    pub fn binary(op: BinaryOp, lhs: ScalarExpr, rhs: ScalarExpr) -> (expr: Self)
        ensures
            expr == (ScalarExpr::Binary { op, lhs: Box::new(lhs), rhs: Box::new(rhs) }),
    {
        ScalarExpr::Binary { op, lhs: Box::new(lhs), rhs: Box::new(rhs) }
    }

    /// An exact copy of the expression tree.
    pub fn copy(&self) -> (expr: Self)
        ensures
            expr == *self,
        decreases self,
    {
        match self {
            ScalarExpr::Constant(bits) => ScalarExpr::Constant(*bits),
            ScalarExpr::Index(axis) => ScalarExpr::Index(*axis),
            ScalarExpr::Load(operand) => ScalarExpr::Load(*operand),
            ScalarExpr::Local(local) => ScalarExpr::Local(*local),
            ScalarExpr::Unary { op, arg } => ScalarExpr::Unary {
                op: *op,
                arg: Box::new((**arg).copy()),
            },
            ScalarExpr::Binary { op, lhs, rhs } => ScalarExpr::Binary {
                op: *op,
                lhs: Box::new((**lhs).copy()),
                rhs: Box::new((**rhs).copy()),
            },
            ScalarExpr::Select { condition, if_true, if_false } => ScalarExpr::Select {
                condition: Box::new((**condition).copy()),
                if_true: Box::new((**if_true).copy()),
                if_false: Box::new((**if_false).copy()),
            },
        }
    }
}

impl Clone for ScalarExpr {
    fn clone(&self) -> (expr: Self)
        ensures
            expr == *self,
    {
        self.copy()
    }
}

#[derive(Debug, PartialEq, Eq)]
pub enum Predicate {
    Constant(bool),
    Compare { op: CompareOp, lhs: Box<ScalarExpr>, rhs: Box<ScalarExpr> },
    Not(Box<Predicate>),
    And(Box<Predicate>, Box<Predicate>),
    Or(Box<Predicate>, Box<Predicate>),
}

impl Predicate {
    /// An exact copy of the predicate tree.
    pub fn copy(&self) -> (predicate: Self)
        ensures
            predicate == *self,
        decreases self,
    {
        match self {
            Predicate::Constant(value) => Predicate::Constant(*value),
            Predicate::Compare { op, lhs, rhs } => Predicate::Compare {
                op: *op,
                lhs: Box::new((**lhs).copy()),
                rhs: Box::new((**rhs).copy()),
            },
            Predicate::Not(value) => Predicate::Not(Box::new((**value).copy())),
            Predicate::And(lhs, rhs) => Predicate::And(
                Box::new((**lhs).copy()),
                Box::new((**rhs).copy()),
            ),
            Predicate::Or(lhs, rhs) => Predicate::Or(
                Box::new((**lhs).copy()),
                Box::new((**rhs).copy()),
            ),
        }
    }
}

impl Clone for Predicate {
    fn clone(&self) -> (predicate: Self)
        ensures
            predicate == *self,
    {
        self.copy()
    }
}

/// A region is ordered: locals are defined once and may only be used by later statements.
#[derive(Debug, PartialEq, Eq)]
pub enum Statement {
    Let { local: LocalId, value: ScalarExpr },
    Store { operand: OperandId, value: ScalarExpr },
}

impl Statement {
    pub fn copy(&self) -> (statement: Self)
        ensures
            statement == *self,
    {
        match self {
            Statement::Let { local, value } => Statement::Let { local: *local, value: value.copy() },
            Statement::Store { operand, value } => Statement::Store {
                operand: *operand,
                value: value.copy(),
            },
        }
    }
}

impl Clone for Statement {
    fn clone(&self) -> (statement: Self)
        ensures
            statement == *self,
    {
        self.copy()
    }
}

#[derive(Clone, Debug, PartialEq, Eq)]
pub struct KernelRegion {
    pub statements: Vec<Statement>,
}

/// Schedule-independent local numerical program.
#[derive(Clone, Debug, PartialEq, Eq)]
pub struct StructuredKernel {
    pub name: String,
    pub iteration_domain: IterationDomain,
    pub iterators: Vec<IteratorKind>,
    pub operands: Vec<KernelOperand>,
    pub indexing_maps: Vec<IndexingMap>,
    pub body: KernelRegion,
    pub numeric_policy: NumericPolicy,
}

pub open spec fn operand_models(ops: Seq<KernelOperand>) -> Seq<OperandModel> {
    ops.map_values(|o: KernelOperand| o@)
}

pub open spec fn map_models(maps: Seq<IndexingMap>) -> Seq<IndexingMapModel> {
    maps.map_values(|m: IndexingMap| m@)
}

/// The mathematical content of a [`StructuredKernel`].
pub struct KernelModel {
    pub name: Seq<char>,
    pub extents: Seq<usize>,
    pub iterators: Seq<IteratorKind>,
    pub operands: Seq<OperandModel>,
    pub maps: Seq<IndexingMapModel>,
    pub statements: Seq<Statement>,
    pub policy: NumericPolicy,
}

impl View for StructuredKernel {
    type V = KernelModel;

    open spec fn view(&self) -> KernelModel {
        KernelModel {
            name: self.name@,
            extents: self.iteration_domain.extents@,
            iterators: self.iterators@,
            operands: operand_models(self.operands@),
            maps: map_models(self.indexing_maps@),
            statements: self.body.statements@,
            policy: self.numeric_policy,
        }
    }
}

impl StructuredKernel {
    /// A copy with the same mathematical content.
    pub fn copy(&self) -> (kernel: Self)
        ensures
            kernel@ == self@,
    {
        let mut operands: Vec<KernelOperand> = Vec::new();
        let mut i: usize = 0;
        while i < self.operands.len()
            invariant
                i <= self.operands@.len(),
                operands@.len() == i,
                forall|j: int| 0 <= j < i ==> (#[trigger] operands@[j])@ == self.operands@[j]@,
            decreases self.operands@.len() - i,
        {
            operands.push(self.operands[i].copy());
            i = i + 1;
        }
        let mut maps: Vec<IndexingMap> = Vec::new();
        let mut i: usize = 0;
        while i < self.indexing_maps.len()
            invariant
                i <= self.indexing_maps@.len(),
                maps@.len() == i,
                forall|j: int| 0 <= j < i ==> (#[trigger] maps@[j])@ == self.indexing_maps@[j]@,
            decreases self.indexing_maps@.len() - i,
        {
            maps.push(self.indexing_maps[i].copy());
            i = i + 1;
        }
        let mut statements: Vec<Statement> = Vec::new();
        let mut i: usize = 0;
        while i < self.body.statements.len()
            invariant
                i <= self.body.statements@.len(),
                statements@ == self.body.statements@.take(i as int),
            decreases self.body.statements@.len() - i,
        {
            statements.push(self.body.statements[i].copy());
            i = i + 1;
            assert(statements@ =~= self.body.statements@.take(i as int));
        }
        assert(self.body.statements@.take(self.body.statements@.len() as int)
            =~= self.body.statements@);
        let mut iterators: Vec<IteratorKind> = Vec::new();
        let mut i: usize = 0;
        while i < self.iterators.len()
            invariant
                i <= self.iterators@.len(),
                iterators@ == self.iterators@.take(i as int),
            decreases self.iterators@.len() - i,
        {
            iterators.push(self.iterators[i]);
            i = i + 1;
            assert(iterators@ =~= self.iterators@.take(i as int));
        }
        assert(self.iterators@.take(self.iterators@.len() as int) =~= self.iterators@);
        let kernel = StructuredKernel {
            name: self.name.clone(),
            iteration_domain: IterationDomain { extents: copy_indices(&self.iteration_domain.extents) },
            iterators,
            operands,
            indexing_maps: maps,
            body: KernelRegion { statements },
            numeric_policy: self.numeric_policy,
        };
        assert(kernel@.operands =~= self@.operands);
        assert(kernel@.maps =~= self@.maps);
        kernel
    }
}

/// A backend-independent collection of local kernels.
#[derive(Clone, Debug, PartialEq, Eq)]
pub struct StructuredModule {
    pub name: String,
    pub kernels: Vec<StructuredKernel>,
}

/// The derivative program a backend is asked to produce.
#[derive(Clone, Copy, Debug, PartialEq, Eq, Structural)]
pub enum DerivativeMode {
    Jvp,
    Vjp,
    Jacobian,
}

/// Backend-neutral differentiation request. Backends may reject modes they do not implement;
/// the reference interpreter executes primal kernels only.
#[derive(Clone, Debug, PartialEq, Eq)]
pub struct DerivativeRequest {
    pub mode: DerivativeMode,
    pub independent_operands: Vec<OperandId>,
    pub dependent_operands: Vec<OperandId>,
}

/// A primal operand paired with its operand in a derivative kernel.
#[derive(Clone, Copy, Debug, PartialEq, Eq, Structural)]
pub struct DerivativeOperand {
    pub primal: OperandId,
    pub derivative: OperandId,
}

/// A derivative kernel with explicit primal/derivative operand tables.
///
/// `primal_operands` pairs every readable primal operand with the operand that carries its
/// primal value in the derivative kernel. For a JVP, `independent_operands` are direction
/// inputs and `dependent_operands` tangent outputs; for a VJP, dependent entries are cotangent
/// seeds and independent entries cotangent outputs.
#[derive(Clone, Debug, PartialEq, Eq)]
pub struct DerivativeProduct {
    pub mode: DerivativeMode,
    pub kernel: StructuredKernel,
    pub primal_operands: Vec<DerivativeOperand>,
    pub independent_operands: Vec<DerivativeOperand>,
    pub dependent_operands: Vec<DerivativeOperand>,
}

} // verus!
