//! Backend-neutral scheduling and executable containers.
use vstd::prelude::*;

use crate::ir::{AxisId, IteratorKind, StructuredKernel};
use crate::validate::{is_permutation, kernel_valid, ValidatedKernel, ValidatedModule};

verus! {

#[derive(Clone, Copy, Debug, PartialEq, Eq, Structural)]
pub struct TileDecision {
    pub axis: AxisId,
    pub size: usize,
}

#[derive(Clone, Copy, Debug, PartialEq, Eq, Structural)]
pub struct VectorizationPlan {
    pub axis: AxisId,
    pub width: usize,
}

#[derive(Clone, Copy, Debug, PartialEq, Eq, Structural)]
pub struct ParallelMapping {
    pub axis: AxisId,
}

#[derive(Clone, Debug, PartialEq, Eq)]
pub struct KernelSchedule {
    pub loop_order: Vec<AxisId>,
    pub tiles: Vec<TileDecision>,
    pub vectorization: Option<VectorizationPlan>,
    pub parallel: Vec<ParallelMapping>,
}

/// The mathematical content of a [`KernelSchedule`].
pub struct ScheduleModel {
    pub loop_order: Seq<AxisId>,
    pub tiles: Seq<TileDecision>,
    pub vectorization: Option<VectorizationPlan>,
    pub parallel: Seq<ParallelMapping>,
}

impl View for KernelSchedule {
    type V = ScheduleModel;

    open spec fn view(&self) -> ScheduleModel {
        ScheduleModel {
            loop_order: self.loop_order@,
            tiles: self.tiles@,
            vectorization: self.vectorization,
            parallel: self.parallel@,
        }
    }
}

/// The axes `0, 1, ..., rank - 1` in order.
pub open spec fn canonical_order(rank: nat) -> Seq<AxisId> {
    Seq::new(rank, |i: int| AxisId(i as usize))
}

impl KernelSchedule {
    /// The canonical schedule: axes in declaration order, no tiling, vectorization, or
    /// parallel mapping.
    pub fn canonical(kernel: &ValidatedKernel) -> (schedule: Self)
        ensures
            schedule@.loop_order == canonical_order(kernel.inner()@.extents.len()),
            schedule@.tiles.len() == 0,
            schedule@.vectorization is None,
            schedule@.parallel.len() == 0,
    {
        let rank = kernel.as_kernel().iteration_domain.extents.len();
        let mut order: Vec<AxisId> = Vec::new();
        let mut i: usize = 0;
        while i < rank
            invariant
                i <= rank,
                order@ == canonical_order(i as nat),
            decreases rank - i,
        {
            order.push(AxisId(i));
            i = i + 1;
            assert(order@ =~= canonical_order(i as nat));
        }
        KernelSchedule {
            loop_order: order,
            tiles: Vec::new(),
            vectorization: None,
            parallel: Vec::new(),
        }
    }
}

/// The canonical schedule fits every kernel: axes in declaration order, with no tiling,
/// vectorization or parallel mapping, is never refused, whatever the kernel's iterators.
pub proof fn lemma_canonical_schedule_fits(iterators: Seq<IteratorKind>)
    requires
        iterators.len() <= usize::MAX,
    ensures
        schedule_violation(
            iterators,
            ScheduleModel {
                loop_order: canonical_order(iterators.len()),
                tiles: Seq::empty(),
                vectorization: None,
                parallel: Seq::empty(),
            },
        ) is None,
{
    let order = axis_indices(canonical_order(iterators.len()));
    assert forall|i: int| 0 <= i < order.len() implies #[trigger] order[i] == i by {
        assert(order[i] == canonical_order(iterators.len())[i].0);
    }
}

#[derive(Clone, Copy, Debug, PartialEq, Eq, Structural)]
pub enum ExecutableError {
    InvalidLoopOrder,
    InvalidAxis(usize),
    InvalidTileSize,
    InvalidVectorWidth,
    NonParallelAxis(usize),
}

pub open spec fn axis_indices(axes: Seq<AxisId>) -> Seq<usize> {
    axes.map_values(|a: AxisId| a.0)
}

pub open spec fn tiles_violation(tiles: Seq<TileDecision>, rank: nat, n: int) -> Option<
    ExecutableError,
>
    decreases n,
{
    if n <= 0 {
        None
    } else {
        match tiles_violation(tiles, rank, n - 1) {
            Some(e) => Some(e),
            None => {
                let t = tiles[n - 1];
                if t.axis.0 >= rank {
                    Some(ExecutableError::InvalidAxis(t.axis.0))
                } else if t.size == 0 || exists|j: int|
                    0 <= j < n - 1 && (#[trigger] tiles[j]).axis == t.axis {
                    Some(ExecutableError::InvalidTileSize)
                } else {
                    None
                }
            },
        }
    }
}

pub open spec fn parallel_violation(
    parallel: Seq<ParallelMapping>,
    iterators: Seq<IteratorKind>,
    n: int,
) -> Option<ExecutableError>
    decreases n,
{
    if n <= 0 {
        None
    } else {
        match parallel_violation(parallel, iterators, n - 1) {
            Some(e) => Some(e),
            None => {
                let axis = parallel[n - 1].axis.0;
                if axis >= iterators.len() {
                    Some(ExecutableError::InvalidAxis(axis))
                } else if !(iterators[axis as int] is Parallel) || exists|j: int|
                    0 <= j < n - 1 && (#[trigger] parallel[j]).axis.0 == axis {
                    Some(ExecutableError::NonParallelAxis(axis))
                } else {
                    None
                }
            },
        }
    }
}

proof fn lemma_parallel_accepted(parallel: Seq<ParallelMapping>, iterators: Seq<IteratorKind>, n: int)
    requires
        0 <= n <= parallel.len(),
        parallel_violation(parallel, iterators, n) is None,
    ensures
        forall|j: int|
            0 <= j < n ==> (#[trigger] parallel[j]).axis.0 < iterators.len() && iterators[parallel[j].axis.0 as int] is Parallel,
        forall|i: int, j: int| 0 <= i < j < n ==> (#[trigger] parallel[i]).axis != (#[trigger] parallel[j]).axis,
    decreases n,
{
    if n > 0 {
        lemma_parallel_accepted(parallel, iterators, n - 1);
        assert forall|i: int, j: int| 0 <= i < j < n implies (#[trigger] parallel[i]).axis != (#[trigger] parallel[j]).axis by {
            if j == n - 1 && parallel[i].axis == parallel[j].axis {
                assert(parallel[i].axis.0 == parallel[n - 1].axis.0);
            }
        }
    }
}

/// What a schedule that fits promises the hardware: every axis it maps to parallel hardware
/// is a parallel iterator of the kernel (never a serial or reduction axis), no axis is mapped
/// twice, and a vectorized axis exists and has a positive width.
pub proof fn lemma_accepted_schedule(iterators: Seq<IteratorKind>, s: ScheduleModel)
    requires
        schedule_violation(iterators, s) is None,
    ensures
        forall|j: int|
            0 <= j < s.parallel.len() ==> (#[trigger] s.parallel[j]).axis.0 < iterators.len()
                && iterators[s.parallel[j].axis.0 as int] == IteratorKind::Parallel,
        forall|i: int, j: int|
            0 <= i < j < s.parallel.len() ==> (#[trigger] s.parallel[i]).axis != (#[trigger] s.parallel[j]).axis,
        s.vectorization matches Some(v) ==> v.axis.0 < iterators.len() && v.width > 0,
{
    lemma_parallel_accepted(s.parallel, iterators, s.parallel.len() as int);
}

/// The first way a schedule fails to fit a valid kernel with these iterators.
pub open spec fn schedule_violation(iterators: Seq<IteratorKind>, s: ScheduleModel) -> Option<
    ExecutableError,
> {
    let rank = iterators.len();
    if !is_permutation(axis_indices(s.loop_order), rank) {
        Some(ExecutableError::InvalidLoopOrder)
    } else {
        match tiles_violation(s.tiles, rank, s.tiles.len() as int) {
            Some(e) => Some(e),
            None => match s.vectorization {
                Some(v) if v.axis.0 >= rank => Some(ExecutableError::InvalidAxis(v.axis.0)),
                Some(v) if v.width == 0 => Some(ExecutableError::InvalidVectorWidth),
                _ => parallel_violation(s.parallel, iterators, s.parallel.len() as int),
            },
        }
    }
}

/// A validated kernel paired with a schedule that fits it.
#[derive(Debug, PartialEq, Eq)]
pub struct Executable {
    kernel: ValidatedKernel,
    schedule: KernelSchedule,
}

impl Executable {
    #[verifier::type_invariant]
    spec fn fits(self) -> bool {
        schedule_violation(self.kernel.inner()@.iterators, self.schedule@) is None
    }

    pub closed spec fn kernel_spec(self) -> StructuredKernel {
        self.kernel.inner()
    }

    pub closed spec fn schedule_spec(self) -> ScheduleModel {
        self.schedule@
    }

    /// Pair a kernel with a schedule: `Ok` exactly when the schedule fits the kernel.
    #[verifier::loop_isolation(false)]
    pub fn new(kernel: ValidatedKernel, schedule: KernelSchedule) -> (r: Result<Self, ExecutableError>)
        ensures
            match r {
                Ok(e) => schedule_violation(kernel.inner()@.iterators, schedule@) is None
                    && e.kernel_spec() == kernel.inner() && e.schedule_spec() == schedule@
                    && forall|j: int|
                    0 <= j < schedule@.parallel.len() ==> kernel.inner()@.iterators[(
                    #[trigger] schedule@.parallel[j]).axis.0 as int] == IteratorKind::Parallel,
                Err(err) => schedule_violation(kernel.inner()@.iterators, schedule@) == Some(err),
            },
    {
        let k = kernel.as_kernel();
        proof {
            crate::validate::lemma_valid_iterator_rank(k@);
        }
        let iterators = &k.iterators;
        let rank = iterators.len();
        let mut order: Vec<usize> = Vec::new();
        let mut i: usize = 0;
        while i < schedule.loop_order.len()
            invariant
                i <= schedule.loop_order@.len(),
                order@ == axis_indices(schedule.loop_order@).take(i as int),
            decreases schedule.loop_order@.len() - i,
        {
            order.push(schedule.loop_order[i].0);
            i = i + 1;
            assert(order@ =~= axis_indices(schedule.loop_order@).take(i as int));
        }
        assert(order@ =~= axis_indices(schedule.loop_order@));
        if !check_order(&order, rank) {
            return Err(ExecutableError::InvalidLoopOrder);
        }
        let mut i: usize = 0;
        while i < schedule.tiles.len()
            invariant
                i <= schedule.tiles@.len(),
                tiles_violation(schedule.tiles@, rank as nat, i as int) is None,
            decreases schedule.tiles@.len() - i,
        {
            let tile = schedule.tiles[i];
            if tile.axis.0 >= rank {
                proof {
                    lemma_tiles_violation_stable(schedule.tiles@, rank as nat, i + 1, schedule.tiles@.len() as int);
                }
                return Err(ExecutableError::InvalidAxis(tile.axis.0));
            }
            let mut repeated = tile.size == 0;
            let mut j: usize = 0;
            while j < i
                invariant
                    j <= i < schedule.tiles@.len(),
                    tile == schedule.tiles@[i as int],
                    repeated == (tile.size == 0 || exists|l: int|
                        0 <= l < j && (#[trigger] schedule.tiles@[l]).axis == tile.axis),
                decreases i - j,
            {
                if schedule.tiles[j].axis.0 == tile.axis.0 {
                    assert(schedule.tiles@[j as int].axis == tile.axis);
                    repeated = true;
                }
                j = j + 1;
            }
            if repeated {
                proof {
                    lemma_tiles_violation_stable(schedule.tiles@, rank as nat, i + 1, schedule.tiles@.len() as int);
                }
                return Err(ExecutableError::InvalidTileSize);
            }
            i = i + 1;
        }
        if let Some(vector) = schedule.vectorization {
            if vector.axis.0 >= rank {
                return Err(ExecutableError::InvalidAxis(vector.axis.0));
            }
            if vector.width == 0 {
                return Err(ExecutableError::InvalidVectorWidth);
            }
        }
        let mut i: usize = 0;
        while i < schedule.parallel.len()
            invariant
                i <= schedule.parallel@.len(),
                rank == iterators@.len(),
                parallel_violation(schedule.parallel@, iterators@, i as int) is None,
            decreases schedule.parallel@.len() - i,
        {
            let axis = schedule.parallel[i].axis.0;
            if axis >= rank {
                proof {
                    lemma_parallel_violation_stable(schedule.parallel@, iterators@, i + 1, schedule.parallel@.len() as int);
                }
                return Err(ExecutableError::InvalidAxis(axis));
            }
            let mut repeated = match iterators[axis] {
                IteratorKind::Parallel => false,
                _ => true,
            };
            let mut j: usize = 0;
            while j < i
                invariant
                    j <= i < schedule.parallel@.len(),
                    axis == schedule.parallel@[i as int].axis.0,
                    axis < iterators@.len(),
                    repeated == (!(iterators@[axis as int] is Parallel) || exists|l: int|
                        0 <= l < j && (#[trigger] schedule.parallel@[l]).axis.0 == axis),
                decreases i - j,
            {
                if schedule.parallel[j].axis.0 == axis {
                    repeated = true;
                }
                j = j + 1;
            }
            if repeated {
                proof {
                    lemma_parallel_violation_stable(schedule.parallel@, iterators@, i + 1, schedule.parallel@.len() as int);
                }
                return Err(ExecutableError::NonParallelAxis(axis));
            }
            i = i + 1;
        }
        proof {
            lemma_accepted_schedule(kernel.inner()@.iterators, schedule@);
        }
        Ok(Executable { kernel, schedule })
    }

    /// The kernel with its canonical reference schedule.
    pub fn reference(kernel: ValidatedKernel) -> (e: Self)
        ensures
            e.kernel_spec() == kernel.inner(),
            e.schedule_spec().loop_order == canonical_order(kernel.inner()@.extents.len()),
            e.schedule_spec().tiles.len() == 0,
            e.schedule_spec().vectorization is None,
            e.schedule_spec().parallel.len() == 0,
    {
        let schedule = KernelSchedule::canonical(&kernel);
        let exec_rank = kernel.as_kernel().iteration_domain.extents.len();
        proof {
            crate::validate::lemma_valid_iterator_rank(kernel.inner()@);
            let order = axis_indices(schedule@.loop_order);
            let rank = kernel.inner()@.extents.len();
            assert(rank == exec_rank);
            assert forall|i: int| 0 <= i < order.len() implies #[trigger] order[i] == i by {
                assert(schedule@.loop_order[i] == canonical_order(rank)[i]);
                assert(order[i] == schedule@.loop_order[i].0);
            }
            assert(is_permutation(order, rank));
        }
        Executable { kernel, schedule }
    }

    pub fn kernel(&self) -> (k: &ValidatedKernel)
        ensures
            k.inner() == self.kernel_spec(),
    {
        &self.kernel
    }

    pub fn schedule(&self) -> (s: &KernelSchedule)
        ensures
            s@ == self.schedule_spec(),
    {
        &self.schedule
    }
}

fn check_order(order: &Vec<usize>, rank: usize) -> (r: bool)
    ensures
        r == is_permutation(order@, rank as nat),
{
    crate::validate::permutation_check(order, rank)
}

proof fn lemma_tiles_violation_stable(tiles: Seq<TileDecision>, rank: nat, i: int, n: int)
    requires
        0 <= i <= n,
        tiles_violation(tiles, rank, i) is Some,
    ensures
        tiles_violation(tiles, rank, n) == tiles_violation(tiles, rank, i),
    decreases n - i,
{
    if i < n {
        lemma_tiles_violation_stable(tiles, rank, i, n - 1);
    }
}

proof fn lemma_parallel_violation_stable(
    parallel: Seq<ParallelMapping>,
    iterators: Seq<IteratorKind>,
    i: int,
    n: int,
)
    requires
        0 <= i <= n,
        parallel_violation(parallel, iterators, i) is Some,
    ensures
        parallel_violation(parallel, iterators, n) == parallel_violation(parallel, iterators, i),
    decreases n - i,
{
    if i < n {
        lemma_parallel_violation_stable(parallel, iterators, i, n - 1);
    }
}

/// Reference executables for every kernel of a validated module.
#[derive(Debug, PartialEq, Eq)]
pub struct ExecutableModule {
    name: String,
    kernels: Vec<Executable>,
}

impl ExecutableModule {
    pub closed spec fn module_name(self) -> Seq<char> {
        self.name@
    }

    pub closed spec fn module_kernels(self) -> Seq<StructuredKernel> {
        self.kernels@.map_values(|e: Executable| e.kernel_spec())
    }

    /// Every executable uses the canonical reference schedule.
    pub closed spec fn all_reference(self) -> bool {
        forall|i: int|
            0 <= i < self.kernels@.len() ==> (#[trigger] self.kernels@[i]).schedule_spec().loop_order
                == canonical_order(self.kernels@[i].kernel_spec()@.extents.len())
    }

    /// One reference executable per kernel, in module order.
    pub fn reference(module: ValidatedModule) -> (e: Self)
        ensures
            e.module_name() == module.module_name(),
            e.module_kernels() == module.module_kernels(),
            e.all_reference(),
    {
        let ghost expected = module.module_kernels();
        let (name, kernels) = module.into_parts();
        let ghost given = kernels@;
        let mut source = kernels;
        let mut out: Vec<Executable> = Vec::new();
        while source.len() > 0
            invariant
                out@.len() + source@.len() == given.len(),
                source@ == given.skip(out@.len() as int),
                given.map_values(|v: ValidatedKernel| v.inner()) == expected,
                forall|l: int| 0 <= l < out@.len() ==> (#[trigger] out@[l]).kernel_spec() == given[l].inner(),
                forall|l: int|
                    0 <= l < out@.len() ==> (#[trigger] out@[l]).schedule_spec().loop_order
                        == canonical_order(out@[l].kernel_spec()@.extents.len()),
            decreases source@.len(),
        {
            let kernel = source.remove(0);
            out.push(Executable::reference(kernel));
            assert(source@ =~= given.skip(out@.len() as int));
        }
        let e = ExecutableModule { name, kernels: out };
        assert(e.module_kernels() =~= expected);
        e
    }

    pub fn name(&self) -> (name: &str)
        ensures
            name@ == self.module_name(),
    {
        self.name.as_str()
    }

    pub fn kernels(&self) -> (kernels: &[Executable])
        ensures
            kernels@.map_values(|e: Executable| e.kernel_spec()) == self.module_kernels(),
    {
        self.kernels.as_slice()
    }

    /// The first executable whose kernel has the given name.
    pub fn kernel(&self, name: &str) -> (found: Option<&Executable>)
        ensures
            match found {
                Some(e) => exists|i: int|
                    0 <= i < self.module_kernels().len() && self.module_kernels()[i]@.name == name@
                        && e.kernel_spec() == self.module_kernels()[i] && forall|j: int|
                        0 <= j < i ==> self.module_kernels()[j]@.name != name@,
                None => forall|i: int|
                    0 <= i < self.module_kernels().len() ==> self.module_kernels()[i]@.name != name@,
            },
    {
        let mut i: usize = 0;
        while i < self.kernels.len()
            invariant
                i <= self.kernels@.len(),
                forall|j: int| 0 <= j < i ==> self.module_kernels()[j]@.name != name@,
            decreases self.kernels@.len() - i,
        {
            let candidate = &self.kernels[i];
            assert(self.module_kernels()[i as int] == candidate.kernel_spec());
            if crate::validate::str_equal(candidate.kernel().as_kernel().name.as_str(), name) {
                return Some(candidate);
            }
            i = i + 1;
        }
        None
    }
}

} // verus!
