//! Kernel compositions: execution-time binding of one kernel's output buffer to another
//! kernel's input operand, without rewriting either kernel.
//!
//! A [`KernelComposition`] is an ordered list of stages (ordinary [`StructuredKernel`]s, held
//! verbatim) plus [`SharedBuffer`] groups. Every member of a group aliases one buffer at
//! execution time: the stage that writes the buffer runs before the stages that read it, so a
//! producer kernel's output becomes a consumer kernel's input with no expression rewriting.
//!
//! Derivatives of a composition are compositions of per-stage derivative kernels: the JVP shares
//! the producer's tangent output with the consumer's direction input, and the VJP shares the
//! consumer's cotangent output with the producer's seed input. Nothing is fused.
use vstd::prelude::*;

use crate::executable::Executable;
use crate::interpreter::ExecutionError;
use crate::ir::{AccessMode, KernelModel, OperandId, OperandModel, ReductionOp, StructuredKernel};
use crate::validate::{
    is_blank, kernel_valid, kernel_violation, ValidatedKernel, ValidationError, Violation,
};

verus! {

/// Schema of the payload behind the composition digest.
pub const KERNEL_COMPOSITION_SCHEMA: &'static str = "malleus-kernel-composition/1";

/// One operand of one stage in a composition.
#[derive(Clone, Copy, Debug, PartialEq, Eq, PartialOrd, Ord, Hash, Structural)]
pub struct StageOperand {
    pub stage: usize,
    pub operand: OperandId,
}

impl StageOperand {
    pub fn new(stage: usize, operand: OperandId) -> (s: Self)
        ensures
            s.stage == stage,
            s.operand == operand,
    {
        StageOperand { stage, operand }
    }
}

/// One buffer aliased by several stage operands.
///
/// Members must agree on shape, layout, and buffer region. A group has either exactly one
/// `Write` member or one or more `Reduce` members sharing one reduction, plus at least one
/// `Read` member; every writing stage precedes every reading stage.
#[derive(Clone, Debug, PartialEq, Eq)]
pub struct SharedBuffer {
    pub members: Vec<StageOperand>,
}

impl SharedBuffer {
    pub fn new(members: Vec<StageOperand>) -> (b: Self)
        ensures
            b.members == members,
    {
        SharedBuffer { members }
    }

    /// The common two-member case: `producer`'s output feeds `consumer`'s input.
    pub fn bind(producer: StageOperand, consumer: StageOperand) -> (b: Self)
        ensures
            b.members@ == seq![producer, consumer],
    {
        let mut members: Vec<StageOperand> = Vec::new();
        members.push(producer);
        members.push(consumer);
        SharedBuffer { members }
    }
}

/// Schedule-independent composition of verbatim kernels over shared buffers.
#[derive(Clone, Debug, PartialEq, Eq)]
pub struct KernelComposition {
    pub name: String,
    pub stages: Vec<StructuredKernel>,
    pub shared_buffers: Vec<SharedBuffer>,
}

/// The mathematical content of a [`KernelComposition`].
pub struct CompositionModel {
    pub name: Seq<char>,
    pub stages: Seq<KernelModel>,
    pub groups: Seq<Seq<StageOperand>>,
}

pub open spec fn kernel_models(stages: Seq<StructuredKernel>) -> Seq<KernelModel> {
    stages.map_values(|k: StructuredKernel| k@)
}

pub open spec fn group_models(groups: Seq<SharedBuffer>) -> Seq<Seq<StageOperand>> {
    groups.map_values(|g: SharedBuffer| g.members@)
}

impl View for KernelComposition {
    type V = CompositionModel;

    open spec fn view(&self) -> CompositionModel {
        CompositionModel {
            name: self.name@,
            stages: kernel_models(self.stages@),
            groups: group_models(self.shared_buffers@),
        }
    }
}

#[derive(Clone, Debug, PartialEq, Eq)]
pub enum CompositionError {
    EmptyName,
    NoStages,
    InvalidStage { stage: usize, error: ValidationError },
    DuplicateStageName(String),
    TooFewMembers(usize),
    InvalidMember { buffer: usize, member: StageOperand },
    DuplicateMember { buffer: usize, member: StageOperand },
    MemberShape { buffer: usize, member: StageOperand },
    UnsupportedReadWrite { buffer: usize, member: StageOperand },
    NoWriter(usize),
    NoReader(usize),
    ConflictingWriters(usize),
    MultipleWritersInStage { buffer: usize, stage: usize },
    WriterAfterReader { buffer: usize, writer: StageOperand, reader: StageOperand },
}

/// The mathematical content of a [`CompositionError`].
pub enum CompositionFailure {
    EmptyName,
    NoStages,
    InvalidStage { stage: usize, error: Violation },
    DuplicateStageName(Seq<char>),
    TooFewMembers(usize),
    InvalidMember { buffer: usize, member: StageOperand },
    DuplicateMember { buffer: usize, member: StageOperand },
    MemberShape { buffer: usize, member: StageOperand },
    UnsupportedReadWrite { buffer: usize, member: StageOperand },
    NoWriter(usize),
    NoReader(usize),
    ConflictingWriters(usize),
    MultipleWritersInStage { buffer: usize, stage: usize },
    WriterAfterReader { buffer: usize, writer: StageOperand, reader: StageOperand },
}

impl View for CompositionError {
    type V = CompositionFailure;

    open spec fn view(&self) -> CompositionFailure {
        match self {
            CompositionError::EmptyName => CompositionFailure::EmptyName,
            CompositionError::NoStages => CompositionFailure::NoStages,
            CompositionError::InvalidStage { stage, error } => CompositionFailure::InvalidStage {
                stage: *stage,
                error: error@,
            },
            CompositionError::DuplicateStageName(name) => CompositionFailure::DuplicateStageName(name@),
            CompositionError::TooFewMembers(b) => CompositionFailure::TooFewMembers(*b),
            CompositionError::InvalidMember { buffer, member } => CompositionFailure::InvalidMember {
                buffer: *buffer,
                member: *member,
            },
            CompositionError::DuplicateMember { buffer, member } => CompositionFailure::DuplicateMember {
                buffer: *buffer,
                member: *member,
            },
            CompositionError::MemberShape { buffer, member } => CompositionFailure::MemberShape {
                buffer: *buffer,
                member: *member,
            },
            CompositionError::UnsupportedReadWrite { buffer, member } =>
                CompositionFailure::UnsupportedReadWrite { buffer: *buffer, member: *member },
            CompositionError::NoWriter(b) => CompositionFailure::NoWriter(*b),
            CompositionError::NoReader(b) => CompositionFailure::NoReader(*b),
            CompositionError::ConflictingWriters(b) => CompositionFailure::ConflictingWriters(*b),
            CompositionError::MultipleWritersInStage { buffer, stage } =>
                CompositionFailure::MultipleWritersInStage { buffer: *buffer, stage: *stage },
            CompositionError::WriterAfterReader { buffer, writer, reader } =>
                CompositionFailure::WriterAfterReader { buffer: *buffer, writer: *writer, reader: *reader },
        }
    }
}

// ---------------------------------------------------------------------------------------------
// Validation, as a specification
// ---------------------------------------------------------------------------------------------
/// The first stage among `0..n` whose name repeats an earlier one or whose kernel is invalid.
pub open spec fn stages_violation(stages: Seq<KernelModel>, n: int) -> Option<CompositionFailure>
    decreases n,
{
    if n <= 0 {
        None
    } else {
        match stages_violation(stages, n - 1) {
            Some(f) => Some(f),
            None => {
                let i = n - 1;
                if exists|j: int| 0 <= j < i && (#[trigger] stages[j]).name == stages[i].name {
                    Some(CompositionFailure::DuplicateStageName(stages[i].name))
                } else {
                    match kernel_violation(stages[i]) {
                        Some(v) => Some(CompositionFailure::InvalidStage { stage: i as usize, error: v }),
                        None => None,
                    }
                }
            },
        }
    }
}

/// Whether a stage operand names an operand of an existing stage.
pub open spec fn member_exists(stages: Seq<KernelModel>, m: StageOperand) -> bool {
    m.stage < stages.len() && m.operand.0 < stages[m.stage as int].operands.len()
}

/// The operand a stage operand names.
pub open spec fn member_def(stages: Seq<KernelModel>, m: StageOperand) -> OperandModel {
    stages[m.stage as int].operands[m.operand.0 as int]
}

/// Two operands alias one buffer only if shape, layout and region agree.
pub open spec fn same_buffer(a: OperandModel, b: OperandModel) -> bool {
    a.shape == b.shape && a.layout == b.layout && a.region == b.region
}

/// Whether `m` is a member of one of the first `n` groups.
pub open spec fn in_groups(groups: Seq<Seq<StageOperand>>, n: int, m: StageOperand) -> bool {
    exists|g: int| 0 <= g < n && (#[trigger] groups[g]).contains(m)
}

/// The writers and readers found so far in one group, and the common reduction of its
/// reducing writers.
pub struct GroupScan {
    pub writers: Seq<StageOperand>,
    pub readers: Seq<StageOperand>,
    pub reduction: Option<ReductionOp>,
}

/// Scan the first `n` members of group `buffer`.
pub open spec fn group_scan(
    stages: Seq<KernelModel>,
    groups: Seq<Seq<StageOperand>>,
    buffer: int,
    n: int,
) -> Result<GroupScan, CompositionFailure>
    decreases n,
{
    if n <= 0 {
        Ok(GroupScan { writers: Seq::empty(), readers: Seq::empty(), reduction: None })
    } else {
        match group_scan(stages, groups, buffer, n - 1) {
            Err(f) => Err(f),
            Ok(st) => {
                let members = groups[buffer];
                let m = members[n - 1];
                let b = buffer as usize;
                if !member_exists(stages, m) {
                    Err(CompositionFailure::InvalidMember { buffer: b, member: m })
                } else if in_groups(groups, buffer, m) || members.take(n - 1).contains(m) {
                    Err(CompositionFailure::DuplicateMember { buffer: b, member: m })
                } else if n - 1 > 0 && !same_buffer(member_def(stages, members[0]), member_def(stages, m)) {
                    Err(CompositionFailure::MemberShape { buffer: b, member: m })
                } else {
                    match member_def(stages, m).access {
                        AccessMode::Read => Ok(GroupScan { readers: st.readers.push(m), ..st }),
                        AccessMode::ReadWrite => Err(CompositionFailure::UnsupportedReadWrite { buffer: b, member: m }),
                        AccessMode::Write => if st.writers.len() > 0 {
                            Err(CompositionFailure::ConflictingWriters(b))
                        } else {
                            Ok(GroupScan { writers: st.writers.push(m), ..st })
                        },
                        AccessMode::Reduce(op) => if (exists|w: int|
                            0 <= w < st.writers.len() && member_def(stages, #[trigger] st.writers[w]).access is Write)
                            || (st.reduction is Some && st.reduction != Some(op)) {
                            Err(CompositionFailure::ConflictingWriters(b))
                        } else if exists|w: int| 0 <= w < st.writers.len() && (#[trigger] st.writers[w]).stage == m.stage {
                            Err(CompositionFailure::MultipleWritersInStage { buffer: b, stage: m.stage })
                        } else {
                            Ok(GroupScan { writers: st.writers.push(m), reduction: Some(op), ..st })
                        },
                    }
                }
            },
        }
    }
}

/// The first reader among the first `n` that does not run after `writer`.
pub open spec fn early_reader(readers: Seq<StageOperand>, writer: StageOperand, n: int) -> Option<StageOperand>
    decreases n,
{
    if n <= 0 {
        None
    } else {
        match early_reader(readers, writer, n - 1) {
            Some(r) => Some(r),
            None => if readers[n - 1].stage <= writer.stage {
                Some(readers[n - 1])
            } else {
                None
            },
        }
    }
}

/// The first writer among the first `n` with a reader that does not run after it.
pub open spec fn order_violation(writers: Seq<StageOperand>, readers: Seq<StageOperand>, n: int) -> Option<
    (StageOperand, StageOperand),
>
    decreases n,
{
    if n <= 0 {
        None
    } else {
        match order_violation(writers, readers, n - 1) {
            Some(p) => Some(p),
            None => match early_reader(readers, writers[n - 1], readers.len() as int) {
                Some(r) => Some((writers[n - 1], r)),
                None => None,
            },
        }
    }
}

/// What validating group `buffer` finds: its writers and readers, or its first violation.
pub open spec fn group_outcome(stages: Seq<KernelModel>, groups: Seq<Seq<StageOperand>>, buffer: int) -> Result<
    GroupScan,
    CompositionFailure,
> {
    let members = groups[buffer];
    let b = buffer as usize;
    if members.len() < 2 {
        Err(CompositionFailure::TooFewMembers(b))
    } else {
        match group_scan(stages, groups, buffer, members.len() as int) {
            Err(f) => Err(f),
            Ok(st) => if st.writers.len() == 0 {
                Err(CompositionFailure::NoWriter(b))
            } else if st.readers.len() == 0 {
                Err(CompositionFailure::NoReader(b))
            } else {
                match order_violation(st.writers, st.readers, st.writers.len() as int) {
                    Some((w, r)) => Err(CompositionFailure::WriterAfterReader { buffer: b, writer: w, reader: r }),
                    None => Ok(st),
                }
            },
        }
    }
}

/// The first violation among the first `n` groups.
pub open spec fn groups_violation(stages: Seq<KernelModel>, groups: Seq<Seq<StageOperand>>, n: int) -> Option<
    CompositionFailure,
>
    decreases n,
{
    if n <= 0 {
        None
    } else {
        match groups_violation(stages, groups, n - 1) {
            Some(f) => Some(f),
            None => match group_outcome(stages, groups, n - 1) {
                Err(f) => Some(f),
                Ok(_) => None,
            },
        }
    }
}

/// The first violation of a composition: a blank name, no stages, a bad stage, a bad group.
pub open spec fn composition_violation(c: CompositionModel) -> Option<CompositionFailure> {
    if is_blank(c.name) {
        Some(CompositionFailure::EmptyName)
    } else if c.stages.len() == 0 {
        Some(CompositionFailure::NoStages)
    } else {
        match stages_violation(c.stages, c.stages.len() as int) {
            Some(f) => Some(f),
            None => groups_violation(c.stages, c.groups, c.groups.len() as int),
        }
    }
}


// ---------------------------------------------------------------------------------------------
// Validation
// ---------------------------------------------------------------------------------------------
/// The execution plan of one shared buffer.
#[derive(Clone, Debug, PartialEq, Eq)]
pub struct SharedBufferPlan {
    pub members: Vec<StageOperand>,
    pub writers: Vec<StageOperand>,
    pub readers: Vec<StageOperand>,
    /// Elements every member's binding must provide: `region.offset + region.length`.
    pub length: usize,
}

/// Whether `plan` is what validating group `buffer` of `c` produces.
pub open spec fn plan_matches(c: CompositionModel, buffer: int, plan: SharedBufferPlan) -> bool {
    &&& group_outcome(c.stages, c.groups, buffer) is Ok
    &&& plan.members@ == c.groups[buffer]
    &&& plan.writers@ == group_outcome(c.stages, c.groups, buffer)->Ok_0.writers
    &&& plan.readers@ == group_outcome(c.stages, c.groups, buffer)->Ok_0.readers
    &&& plan.length == member_def(c.stages, c.groups[buffer][0]).region.offset + member_def(
        c.stages,
        c.groups[buffer][0],
    ).region.length
}

pub open spec fn plans_match(c: CompositionModel, plans: Seq<SharedBufferPlan>) -> bool {
    &&& plans.len() == c.groups.len()
    &&& forall|b: int| 0 <= b < plans.len() ==> plan_matches(c, b, #[trigger] plans[b])
}

pub open spec fn validated_models(stages: Seq<ValidatedKernel>) -> Seq<KernelModel> {
    stages.map_values(|v: ValidatedKernel| v.inner()@)
}

pub open spec fn plan_groups(plans: Seq<SharedBufferPlan>) -> Seq<Seq<StageOperand>> {
    plans.map_values(|p: SharedBufferPlan| p.members@)
}

/// The shared buffer whose members include `m`, searching the first `n` plans.
pub open spec fn membership(plans: Seq<SharedBufferPlan>, m: StageOperand, n: int) -> Option<usize>
    decreases n,
{
    if n <= 0 {
        None
    } else {
        match membership(plans, m, n - 1) {
            Some(b) => Some(b),
            None => if plans[n - 1].members@.contains(m) {
                Some((n - 1) as usize)
            } else {
                None
            },
        }
    }
}

/// A composition whose stages and sharing table passed [`validate_composition`].
#[derive(Debug, PartialEq, Eq)]
pub struct ValidatedComposition {
    name: String,
    stages: Vec<ValidatedKernel>,
    shared: Vec<SharedBufferPlan>,
}

impl ValidatedComposition {
    #[verifier::type_invariant]
    spec fn well_formed(self) -> bool {
        &&& composition_violation(self.model()) is None
        &&& plans_match(self.model(), self.shared@)
    }

    /// The composition that was validated.
    pub closed spec fn model(self) -> CompositionModel {
        CompositionModel {
            name: self.name@,
            stages: validated_models(self.stages@),
            groups: plan_groups(self.shared@),
        }
    }

    pub closed spec fn plans(self) -> Seq<SharedBufferPlan> {
        self.shared@
    }

    pub closed spec fn stage_kernels(self) -> Seq<ValidatedKernel> {
        self.stages@
    }

    pub fn name(&self) -> (name: &str)
        ensures
            name@ == self.model().name,
    {
        self.name.as_str()
    }

    pub fn stages(&self) -> (stages: &[ValidatedKernel])
        ensures
            stages@ == self.stage_kernels(),
            validated_models(stages@) == self.model().stages,
    {
        self.stages.as_slice()
    }

    /// The shared buffer this operand aliases, if any.
    pub fn shared_buffer_of(&self, operand: StageOperand) -> (b: Option<usize>)
        ensures
            b == membership(self.plans(), operand, self.plans().len() as int),
    {
        find_membership(&self.shared, operand)
    }

    /// Members of one shared buffer in declaration order.
    pub fn shared_members(&self, buffer: usize) -> (members: Option<&[StageOperand]>)
        ensures
            match members {
                Some(m) => buffer < self.model().groups.len() && m@ == self.model().groups[buffer as int],
                None => buffer >= self.model().groups.len(),
            },
    {
        if buffer < self.shared.len() {
            Some(self.shared[buffer].members.as_slice())
        } else {
            None
        }
    }

    /// The elements a caller-supplied binding for shared buffer `buffer` must provide.
    pub fn shared_length(&self, buffer: usize) -> (length: Option<usize>)
        ensures
            match length {
                Some(l) => buffer < self.plans().len() && l == self.plans()[buffer as int].length,
                None => buffer >= self.plans().len(),
            },
    {
        if buffer < self.shared.len() {
            Some(self.shared[buffer].length)
        } else {
            None
        }
    }

    /// The composition as it was validated.
    pub fn into_composition(self) -> (c: KernelComposition)
        ensures
            c@ == self.model(),
    {
        let ValidatedComposition { name, stages, shared } = self;
        let mut kernels: Vec<StructuredKernel> = Vec::new();
        let mut i: usize = 0;
        while i < stages.len()
            invariant
                i <= stages@.len(),
                kernels@.len() == i,
                forall|j: int| 0 <= j < i ==> (#[trigger] kernels@[j])@ == stages@[j].inner()@,
            decreases stages@.len() - i,
        {
            kernels.push(stages[i].as_kernel().copy());
            i = i + 1;
        }
        let mut groups: Vec<SharedBuffer> = Vec::new();
        let mut b: usize = 0;
        while b < shared.len()
            invariant
                b <= shared@.len(),
                groups@.len() == b,
                forall|j: int| 0 <= j < b ==> (#[trigger] groups@[j]).members@ == shared@[j].members@,
            decreases shared@.len() - b,
        {
            groups.push(SharedBuffer { members: copy_members(&shared[b].members) });
            b = b + 1;
        }
        let c = KernelComposition { name, stages: kernels, shared_buffers: groups };
        assert(c@.stages =~= validated_models(stages@));
        assert(c@.groups =~= plan_groups(shared@));
        c
    }
}

pub fn copy_members(members: &Vec<StageOperand>) -> (r: Vec<StageOperand>)
    ensures
        r@ == members@,
{
    let mut out: Vec<StageOperand> = Vec::new();
    let mut i: usize = 0;
    while i < members.len()
        invariant
            i <= members@.len(),
            out@ == members@.take(i as int),
        decreases members@.len() - i,
    {
        out.push(members[i]);
        i = i + 1;
        assert(out@ =~= members@.take(i as int));
    }
    assert(members@.take(members@.len() as int) =~= members@);
    out
}

pub(crate) fn find_membership(plans: &Vec<SharedBufferPlan>, m: StageOperand) -> (b: Option<usize>)
    ensures
        b == membership(plans@, m, plans@.len() as int),
{
    let mut g: usize = 0;
    while g < plans.len()
        invariant
            g <= plans@.len(),
            membership(plans@, m, g as int) is None,
        decreases plans@.len() - g,
    {
        if contains_member(&plans[g].members, plans[g].members.len(), m) {
            proof {
                assert(plans@[g as int].members@.take(plans@[g as int].members@.len() as int) =~= plans@[g as int].members@);
                lemma_membership_stable(plans@, m, (g + 1) as int, plans@.len() as int);
            }
            return Some(g);
        }
        proof {
            assert(plans@[g as int].members@.take(plans@[g as int].members@.len() as int) =~= plans@[g as int].members@);
        }
        g = g + 1;
    }
    None
}

proof fn lemma_membership_stable(plans: Seq<SharedBufferPlan>, m: StageOperand, i: int, n: int)
    requires
        0 <= i <= n,
        membership(plans, m, i) is Some,
    ensures
        membership(plans, m, n) == membership(plans, m, i),
    decreases n - i,
{
    if i < n {
        lemma_membership_stable(plans, m, i, n - 1);
    }
}

/// Whether the first `n` members hold `m`.
pub(crate) fn contains_member(members: &Vec<StageOperand>, n: usize, m: StageOperand) -> (r: bool)
    requires
        n <= members@.len(),
    ensures
        r == members@.take(n as int).contains(m),
{
    let mut k: usize = 0;
    while k < n
        invariant
            k <= n,
            n <= members@.len(),
            !members@.take(k as int).contains(m),
        decreases n - k,
    {
        if members[k] == m {
            assert(members@.take(n as int)[k as int] == m);
            return true;
        }
        k = k + 1;
        assert(members@.take(k as int) =~= members@.take((k - 1) as int).push(members@[k - 1]));
    }
    false
}

fn in_earlier_groups(groups: &Vec<SharedBuffer>, n: usize, m: StageOperand) -> (r: bool)
    requires
        n <= groups@.len(),
    ensures
        r == in_groups(group_models(groups@), n as int, m),
{
    let ghost models = group_models(groups@);
    let mut g: usize = 0;
    while g < n
        invariant
            g <= n,
            n <= groups@.len(),
            models == group_models(groups@),
            forall|a: int| 0 <= a < g ==> !(#[trigger] models[a]).contains(m),
        decreases n - g,
    {
        let found = contains_member(&groups[g].members, groups[g].members.len(), m);
        proof {
            assert(groups@[g as int].members@.take(groups@[g as int].members@.len() as int) =~= models[g as int]);
        }
        if found {
            return true;
        }
        g = g + 1;
    }
    false
}

#[verifier::loop_isolation(false)]
fn check_stages(stages: &Vec<StructuredKernel>) -> (r: Result<Vec<ValidatedKernel>, CompositionError>)
    ensures
        match r {
            Ok(v) => stages_violation(kernel_models(stages@), stages@.len() as int) is None && validated_models(v@)
                == kernel_models(stages@),
            Err(e) => stages_violation(kernel_models(stages@), stages@.len() as int) == Some(e@),
        },
{
    let ghost models = kernel_models(stages@);
    let mut out: Vec<ValidatedKernel> = Vec::new();
    let mut i: usize = 0;
    while i < stages.len()
        invariant
            i <= stages@.len(),
            models == kernel_models(stages@),
            stages_violation(models, i as int) is None,
            validated_models(out@) == models.take(i as int),
        decreases stages@.len() - i,
    {
        let mut j: usize = 0;
        while j < i
            invariant
                j <= i,
                i < stages@.len(),
                models == kernel_models(stages@),
                forall|a: int| 0 <= a < j ==> (#[trigger] models[a]).name != models[i as int].name,
            decreases i - j,
        {
            if stages[j].name == stages[i].name {
                let name = stages[i].name.clone();
                proof {
                    assert(models[j as int].name == models[i as int].name);
                    assert(name@ == models[i as int].name);
                    assert(stages_violation(models, (i + 1) as int) == Some(
                        CompositionFailure::DuplicateStageName(models[i as int].name),
                    ));
                    lemma_stages_violation_stable(models, (i + 1) as int, stages@.len() as int);
                }
                return Err(CompositionError::DuplicateStageName(name));
            }
            j = j + 1;
        }
        let kernel = stages[i].copy();
        match crate::validate::validate(kernel) {
            Ok(v) => {
                proof {
                    assert(v.inner()@ == models[i as int]);
                }
                out.push(v);
                proof {
                    assert(out@.last().inner()@ == models[i as int]);
                }
            },
            Err(e) => {
                proof {
                    lemma_stages_violation_stable(models, (i + 1) as int, stages@.len() as int);
                }
                return Err(CompositionError::InvalidStage { stage: i, error: e });
            },
        }
        i = i + 1;
        assert forall|a: int| 0 <= a < i implies validated_models(out@)[a] == models.take(i as int)[a] by {
            if a < i - 1 {
                assert(validated_models(out@)[a] == out@[a].inner()@);
                assert(out@[a] == out@.drop_last()[a]);
            }
        }
        assert(validated_models(out@) =~= models.take(i as int));
    }
    assert(models.take(stages@.len() as int) =~= models);
    Ok(out)
}

proof fn lemma_stages_violation_stable(stages: Seq<KernelModel>, i: int, n: int)
    requires
        0 <= i <= n,
        stages_violation(stages, i) is Some,
    ensures
        stages_violation(stages, n) == stages_violation(stages, i),
    decreases n - i,
{
    if i < n {
        lemma_stages_violation_stable(stages, i, n - 1);
    }
}


fn find_early_reader(readers: &Vec<StageOperand>, writer: StageOperand) -> (r: Option<StageOperand>)
    ensures
        r == early_reader(readers@, writer, readers@.len() as int),
{
    let mut k: usize = 0;
    while k < readers.len()
        invariant
            k <= readers@.len(),
            early_reader(readers@, writer, k as int) is None,
        decreases readers@.len() - k,
    {
        if readers[k].stage <= writer.stage {
            proof {
                lemma_early_reader_stable(readers@, writer, (k + 1) as int, readers@.len() as int);
            }
            return Some(readers[k]);
        }
        k = k + 1;
    }
    None
}

proof fn lemma_early_reader_stable(readers: Seq<StageOperand>, writer: StageOperand, i: int, n: int)
    requires
        0 <= i <= n,
        early_reader(readers, writer, i) is Some,
    ensures
        early_reader(readers, writer, n) == early_reader(readers, writer, i),
    decreases n - i,
{
    if i < n {
        lemma_early_reader_stable(readers, writer, i, n - 1);
    }
}

proof fn lemma_order_violation_stable(writers: Seq<StageOperand>, readers: Seq<StageOperand>, i: int, n: int)
    requires
        0 <= i <= n,
        order_violation(writers, readers, i) is Some,
    ensures
        order_violation(writers, readers, n) == order_violation(writers, readers, i),
    decreases n - i,
{
    if i < n {
        lemma_order_violation_stable(writers, readers, i, n - 1);
    }
}

proof fn lemma_group_scan_error_stable(
    stages: Seq<KernelModel>,
    groups: Seq<Seq<StageOperand>>,
    buffer: int,
    i: int,
    n: int,
)
    requires
        0 <= i <= n,
        group_scan(stages, groups, buffer, i) is Err,
    ensures
        group_scan(stages, groups, buffer, n) == group_scan(stages, groups, buffer, i),
    decreases n - i,
{
    if i < n {
        lemma_group_scan_error_stable(stages, groups, buffer, i, n - 1);
    }
}

/// Validate group `buffer` of a composition whose stages passed.
#[verifier::loop_isolation(false)]
#[verifier::rlimit(40)]
fn check_group(stages: &Vec<ValidatedKernel>, groups: &Vec<SharedBuffer>, buffer: usize) -> (r: Result<
    SharedBufferPlan,
    CompositionError,
>)
    requires
        buffer < groups@.len(),
    ensures
        match r {
            Ok(plan) => plan_matches(
                CompositionModel { name: Seq::empty(), stages: validated_models(stages@), groups: group_models(groups@) },
                buffer as int,
                plan,
            ),
            Err(e) => group_outcome(validated_models(stages@), group_models(groups@), buffer as int) == Err::<
                GroupScan,
                CompositionFailure,
            >(e@),
        },
{
    let ghost sm = validated_models(stages@);
    let ghost gm = group_models(groups@);
    let members = &groups[buffer].members;
    assert(gm[buffer as int] == members@);
    if members.len() < 2 {
        return Err(CompositionError::TooFewMembers(buffer));
    }
    let mut writers: Vec<StageOperand> = Vec::new();
    let mut readers: Vec<StageOperand> = Vec::new();
    let mut reduction: Option<ReductionOp> = None;
    let mut k: usize = 0;
    while k < members.len()
        invariant
            k <= members@.len(),
            members@ == gm[buffer as int],
            group_scan(sm, gm, buffer as int, k as int) == Ok::<GroupScan, CompositionFailure>(
                GroupScan { writers: writers@, readers: readers@, reduction },
            ),
            k > 0 ==> member_exists(sm, members@[0]),
            forall|w: int| 0 <= w < writers@.len() ==> member_exists(sm, #[trigger] writers@[w]),
        decreases members@.len() - k,
    {
        let m = members[k];
        if m.stage >= stages.len() || m.operand.0 >= stages[m.stage].as_kernel().operands.len() {
            proof {
                if m.stage < stages@.len() {
                    assert(sm[m.stage as int] == stages@[m.stage as int].inner()@);
                }
                lemma_group_scan_error_stable(sm, gm, buffer as int, (k + 1) as int, members@.len() as int);
            }
            return Err(CompositionError::InvalidMember { buffer, member: m });
        }
        proof {
            assert(sm[m.stage as int] == stages@[m.stage as int].inner()@);
        }
        if in_earlier_groups(groups, buffer, m) || contains_member(members, k, m) {
            proof {
                lemma_group_scan_error_stable(sm, gm, buffer as int, (k + 1) as int, members@.len() as int);
            }
            return Err(CompositionError::DuplicateMember { buffer, member: m });
        }
        let def = &stages[m.stage].as_kernel().operands[m.operand.0];
        assert(member_def(sm, m) == def@);
        if k > 0 {
            let first = members[0];
            let fdef = &stages[first.stage].as_kernel().operands[first.operand.0];
            proof {
                assert(sm[first.stage as int] == stages@[first.stage as int].inner()@);
                assert(member_def(sm, first) == fdef@);
            }
            let same = crate::validate::indices_equal(&fdef.shape, &def.shape) && crate::validate::indices_equal(
                &fdef.layout.minor_to_major,
                &def.layout.minor_to_major,
            ) && fdef.region == def.region;
            if !same {
                proof {
                    lemma_group_scan_error_stable(sm, gm, buffer as int, (k + 1) as int, members@.len() as int);
                }
                return Err(CompositionError::MemberShape { buffer, member: m });
            }
        }
        match def.access {
            AccessMode::Read => {
                readers.push(m);
            },
            AccessMode::ReadWrite => {
                proof {
                    lemma_group_scan_error_stable(sm, gm, buffer as int, (k + 1) as int, members@.len() as int);
                }
                return Err(CompositionError::UnsupportedReadWrite { buffer, member: m });
            },
            AccessMode::Write => {
                if writers.len() > 0 {
                    proof {
                        lemma_group_scan_error_stable(sm, gm, buffer as int, (k + 1) as int, members@.len() as int);
                    }
                    return Err(CompositionError::ConflictingWriters(buffer));
                }
                writers.push(m);
            },
            AccessMode::Reduce(op) => {
                let mut conflict = false;
                let mut w: usize = 0;
                while w < writers.len()
                    invariant
                        w <= writers@.len(),
                        forall|a: int| 0 <= a < writers@.len() ==> member_exists(sm, #[trigger] writers@[a]),
                        sm == validated_models(stages@),
                        conflict == exists|a: int|
                            0 <= a < w && member_def(sm, #[trigger] writers@[a]).access is Write,
                    decreases writers@.len() - w,
                {
                    let writer = writers[w];
                    proof {
                        assert(member_exists(sm, writer));
                        assert(sm[writer.stage as int] == stages@[writer.stage as int].inner()@);
                    }
                    if let AccessMode::Write = stages[writer.stage].as_kernel().operands[writer.operand.0].access {
                        conflict = true;
                    }
                    w = w + 1;
                }
                if let Some(previous) = reduction {
                    if previous != op {
                        conflict = true;
                    }
                }
                if conflict {
                    proof {
                        lemma_group_scan_error_stable(sm, gm, buffer as int, (k + 1) as int, members@.len() as int);
                    }
                    return Err(CompositionError::ConflictingWriters(buffer));
                }
                let mut w: usize = 0;
                while w < writers.len()
                    invariant
                        w <= writers@.len(),
                        forall|a: int| 0 <= a < w ==> (#[trigger] writers@[a]).stage != m.stage,
                    decreases writers@.len() - w,
                {
                    if writers[w].stage == m.stage {
                        proof {
                            lemma_group_scan_error_stable(sm, gm, buffer as int, (k + 1) as int, members@.len() as int);
                        }
                        return Err(CompositionError::MultipleWritersInStage { buffer, stage: m.stage });
                    }
                    w = w + 1;
                }
                reduction = Some(op);
                writers.push(m);
            },
        }
        k = k + 1;
    }
    if writers.len() == 0 {
        return Err(CompositionError::NoWriter(buffer));
    }
    if readers.len() == 0 {
        return Err(CompositionError::NoReader(buffer));
    }
    let mut w: usize = 0;
    while w < writers.len()
        invariant
            w <= writers@.len(),
            order_violation(writers@, readers@, w as int) is None,
        decreases writers@.len() - w,
    {
        match find_early_reader(&readers, writers[w]) {
            Some(reader) => {
                proof {
                    lemma_order_violation_stable(writers@, readers@, (w + 1) as int, writers@.len() as int);
                }
                return Err(CompositionError::WriterAfterReader { buffer, writer: writers[w], reader });
            },
            None => {},
        }
        w = w + 1;
    }
    let first = members[0];
    let region = stages[first.stage].as_kernel().operands[first.operand.0].region;
    proof {
        assert(sm[first.stage as int] == stages@[first.stage as int].inner()@);
        crate::validate::lemma_valid_operand_region(sm[first.stage as int], first.operand.0 as int);
    }
    Ok(SharedBufferPlan { members: copy_members(members), writers, readers, length: region.offset + region.length })
}

proof fn lemma_groups_violation_stable(stages: Seq<KernelModel>, groups: Seq<Seq<StageOperand>>, i: int, n: int)
    requires
        0 <= i <= n,
        groups_violation(stages, groups, i) is Some,
    ensures
        groups_violation(stages, groups, n) == groups_violation(stages, groups, i),
    decreases n - i,
{
    if i < n {
        lemma_groups_violation_stable(stages, groups, i, n - 1);
    }
}

/// Validate a composition: `Ok` exactly when it has no violation, else its first violation.
pub fn validate_composition(composition: KernelComposition) -> (r: Result<ValidatedComposition, CompositionError>)
    ensures
        match r {
            Ok(v) => composition_violation(composition@) is None && v.model() == composition@,
            Err(e) => composition_violation(composition@) == Some(e@),
        },
{
    if crate::validate::blank(composition.name.as_str()) {
        return Err(CompositionError::EmptyName);
    }
    if composition.stages.len() == 0 {
        return Err(CompositionError::NoStages);
    }
    let stages = match check_stages(&composition.stages) {
        Ok(s) => s,
        Err(e) => {
            return Err(e);
        },
    };
    let ghost c = composition@;
    let mut plans: Vec<SharedBufferPlan> = Vec::new();
    let mut b: usize = 0;
    while b < composition.shared_buffers.len()
        invariant
            b <= composition.shared_buffers@.len(),
            c == composition@,
            validated_models(stages@) == c.stages,
            group_models(composition.shared_buffers@) == c.groups,
            groups_violation(c.stages, c.groups, b as int) is None,
            !is_blank(c.name),
            c.stages.len() > 0,
            stages_violation(c.stages, c.stages.len() as int) is None,
            plans@.len() == b,
            forall|a: int| 0 <= a < b ==> plan_matches(c, a, #[trigger] plans@[a]),
        decreases composition.shared_buffers@.len() - b,
    {
        match check_group(&stages, &composition.shared_buffers, b) {
            Ok(plan) => {
                plans.push(plan);
            },
            Err(e) => {
                proof {
                    lemma_groups_violation_stable(c.stages, c.groups, (b + 1) as int, c.groups.len() as int);
                }
                return Err(e);
            },
        }
        b = b + 1;
    }
    let KernelComposition { name, stages: _, shared_buffers: _ } = composition;
    proof {
        let model = CompositionModel { name: name@, stages: validated_models(stages@), groups: plan_groups(plans@) };
        assert(plan_groups(plans@) =~= c.groups) by {
            assert forall|a: int| 0 <= a < plans@.len() implies plan_groups(plans@)[a] == c.groups[a] by {
                assert(plan_matches(c, a, plans@[a]));
            }
        }
        assert(model.name == c.name);
        assert(model.stages == c.stages);
        assert(model.groups == c.groups);
        assert(composition_violation(model) is None);
        assert(plans_match(model, plans@));
    }
    let v = ValidatedComposition { name, stages, shared: plans };
    assert(v.model() == c);
    Ok(v)
}


// ---------------------------------------------------------------------------------------------
// Executable compositions
// ---------------------------------------------------------------------------------------------
pub open spec fn executable_models(stages: Seq<Executable>) -> Seq<KernelModel> {
    stages.map_values(|e: Executable| e.kernel_spec()@)
}

/// A validated composition paired with one reference executable per stage.
#[derive(Debug, PartialEq, Eq)]
pub struct ExecutableComposition {
    name: String,
    stages: Vec<Executable>,
    shared: Vec<SharedBufferPlan>,
}

impl ExecutableComposition {
    #[verifier::type_invariant]
    spec fn well_formed(self) -> bool {
        &&& composition_violation(self.model()) is None
        &&& plans_match(self.model(), self.shared@)
    }

    /// The composition the stages execute.
    pub closed spec fn model(self) -> CompositionModel {
        CompositionModel {
            name: self.name@,
            stages: executable_models(self.stages@),
            groups: plan_groups(self.shared@),
        }
    }

    pub closed spec fn plans(self) -> Seq<SharedBufferPlan> {
        self.shared@
    }

    pub closed spec fn executables(self) -> Seq<Executable> {
        self.stages@
    }

    /// Canonical reference schedules for every stage.
    pub fn reference(composition: ValidatedComposition) -> (e: Self)
        ensures
            e.model() == composition.model(),
            e.plans() == composition.plans(),
            forall|i: int|
                0 <= i < e.executables().len() ==> (#[trigger] e.executables()[i]).schedule_spec().loop_order
                    == crate::executable::canonical_order(e.executables()[i].kernel_spec()@.extents.len()),
    {
        proof {
            use_type_invariant(&composition);
        }
        let ghost model = composition.model();
        let ValidatedComposition { name, stages, shared } = composition;
        let mut executables: Vec<Executable> = Vec::new();
        let mut i: usize = 0;
        while i < stages.len()
            invariant
                i <= stages@.len(),
                executables@.len() == i,
                forall|j: int| 0 <= j < i ==> (#[trigger] executables@[j]).kernel_spec()@ == stages@[j].inner()@,
                forall|j: int|
                    0 <= j < i ==> (#[trigger] executables@[j]).schedule_spec().loop_order
                        == crate::executable::canonical_order(executables@[j].kernel_spec()@.extents.len()),
            decreases stages@.len() - i,
        {
            executables.push(Executable::reference(stages[i].copy()));
            i = i + 1;
        }
        assert(executable_models(executables@) =~= validated_models(stages@));
        let e = ExecutableComposition { name, stages: executables, shared };
        assert(e.model() == model);
        e
    }

    pub fn name(&self) -> (name: &str)
        ensures
            name@ == self.model().name,
    {
        self.name.as_str()
    }

    pub fn stages(&self) -> (stages: &[Executable])
        ensures
            stages@ == self.executables(),
            executable_models(stages@) == self.model().stages,
    {
        self.stages.as_slice()
    }

    pub fn shared_buffer_of(&self, operand: StageOperand) -> (b: Option<usize>)
        ensures
            b == membership(self.plans(), operand, self.plans().len() as int),
    {
        find_membership(&self.shared, operand)
    }

    pub fn shared_length(&self, buffer: usize) -> (length: Option<usize>)
        ensures
            match length {
                Some(l) => buffer < self.plans().len() && l == self.plans()[buffer as int].length,
                None => buffer >= self.plans().len(),
            },
    {
        if buffer < self.shared.len() {
            Some(self.shared[buffer].length)
        } else {
            None
        }
    }
}

/// What one caller-supplied buffer binds: an unshared stage operand, or a whole shared buffer.
#[derive(Clone, Copy, Debug, PartialEq, Eq, PartialOrd, Ord, Hash, Structural)]
pub enum CompositionTarget {
    Operand(StageOperand),
    Shared(usize),
}

#[derive(Clone, Copy, Debug, PartialEq, Eq, Structural)]
pub enum CompositionExecutionError {
    MissingBinding(StageOperand),
    DuplicateBinding(CompositionTarget),
    InvalidBinding(CompositionTarget),
    SharedOperandBound(StageOperand),
    Stage { stage: usize, error: ExecutionError },
}

/// Where a stage operand's buffer comes from while a composition runs: the caller's binding
/// with this index, or the zero-initialized scratch buffer of this shared buffer.
#[derive(Clone, Copy, Debug, PartialEq, Eq, Structural)]
pub enum BufferSource {
    Caller(usize),
    Scratch(usize),
}

/// Whether one of the first `n` bindings binds `target`.
pub open spec fn bound_before(bindings: Seq<(CompositionTarget, usize)>, target: CompositionTarget, n: int) -> bool {
    exists|j: int| 0 <= j < n && (#[trigger] bindings[j]).0 == target
}

/// Why binding `i` (a target and the length of the caller buffer) is refused, if it is.
pub open spec fn binding_refusal(
    c: CompositionModel,
    plans: Seq<SharedBufferPlan>,
    bindings: Seq<(CompositionTarget, usize)>,
    i: int,
) -> Option<CompositionExecutionError> {
    let target = bindings[i].0;
    let len = bindings[i].1;
    match target {
        CompositionTarget::Operand(op) => if membership(plans, op, plans.len() as int) is Some {
            Some(CompositionExecutionError::SharedOperandBound(op))
        } else if !member_exists(c.stages, op) {
            Some(CompositionExecutionError::InvalidBinding(target))
        } else if len < member_def(c.stages, op).region.offset + member_def(c.stages, op).region.length {
            Some(CompositionExecutionError::InvalidBinding(target))
        } else if bound_before(bindings, target, i) {
            Some(CompositionExecutionError::DuplicateBinding(target))
        } else {
            None
        },
        CompositionTarget::Shared(b) => if b >= plans.len() {
            Some(CompositionExecutionError::InvalidBinding(target))
        } else if len < plans[b as int].length {
            Some(CompositionExecutionError::InvalidBinding(target))
        } else if bound_before(bindings, target, i) {
            Some(CompositionExecutionError::DuplicateBinding(target))
        } else {
            None
        },
    }
}

/// The first refused binding among the first `n`.
pub open spec fn bindings_refusal(
    c: CompositionModel,
    plans: Seq<SharedBufferPlan>,
    bindings: Seq<(CompositionTarget, usize)>,
    n: int,
) -> Option<CompositionExecutionError>
    decreases n,
{
    if n <= 0 {
        None
    } else {
        match bindings_refusal(c, plans, bindings, n - 1) {
            Some(e) => Some(e),
            None => binding_refusal(c, plans, bindings, n - 1),
        }
    }
}

/// The first of the first `n` bindings that binds `target`.
pub open spec fn first_binding(bindings: Seq<(CompositionTarget, usize)>, target: CompositionTarget, n: int) -> Option<usize>
    decreases n,
{
    if n <= 0 {
        None
    } else {
        match first_binding(bindings, target, n - 1) {
            Some(j) => Some(j),
            None => if bindings[n - 1].0 == target {
                Some((n - 1) as usize)
            } else {
                None
            },
        }
    }
}

/// Where one stage operand's buffer comes from: a shared member reads the caller's binding of
/// its shared buffer or else that buffer's scratch; any other operand needs its own binding.
pub open spec fn source_of(
    plans: Seq<SharedBufferPlan>,
    bindings: Seq<(CompositionTarget, usize)>,
    op: StageOperand,
) -> Result<BufferSource, CompositionExecutionError> {
    match membership(plans, op, plans.len() as int) {
        Some(b) => match first_binding(bindings, CompositionTarget::Shared(b), bindings.len() as int) {
            Some(j) => Ok(BufferSource::Caller(j)),
            None => Ok(BufferSource::Scratch(b)),
        },
        None => match first_binding(bindings, CompositionTarget::Operand(op), bindings.len() as int) {
            Some(j) => Ok(BufferSource::Caller(j)),
            None => Err(CompositionExecutionError::MissingBinding(op)),
        },
    }
}

/// The sources of the first `n` operands of stage `s`, or the first missing binding.
pub open spec fn stage_sources(
    c: CompositionModel,
    plans: Seq<SharedBufferPlan>,
    bindings: Seq<(CompositionTarget, usize)>,
    s: int,
    n: int,
) -> Result<Seq<BufferSource>, CompositionExecutionError>
    decreases n,
{
    if n <= 0 {
        Ok(Seq::empty())
    } else {
        match stage_sources(c, plans, bindings, s, n - 1) {
            Err(e) => Err(e),
            Ok(sources) => match source_of(plans, bindings, StageOperand { stage: s as usize, operand: OperandId((n - 1) as usize) }) {
                Err(e) => Err(e),
                Ok(src) => Ok(sources.push(src)),
            },
        }
    }
}

/// The sources of every operand of the first `n` stages, or the first missing binding.
pub open spec fn all_sources(
    c: CompositionModel,
    plans: Seq<SharedBufferPlan>,
    bindings: Seq<(CompositionTarget, usize)>,
    n: int,
) -> Result<Seq<Seq<BufferSource>>, CompositionExecutionError>
    decreases n,
{
    if n <= 0 {
        Ok(Seq::empty())
    } else {
        match all_sources(c, plans, bindings, n - 1) {
            Err(e) => Err(e),
            Ok(sources) => match stage_sources(c, plans, bindings, n - 1, c.stages[n - 1].operands.len() as int) {
                Err(e) => Err(e),
                Ok(stage) => Ok(sources.push(stage)),
            },
        }
    }
}

/// What planning a composition run owes: the first refused binding, else the source of every
/// stage operand, stage by stage, or the first operand left unbound.
pub open spec fn binding_plan(
    c: CompositionModel,
    plans: Seq<SharedBufferPlan>,
    bindings: Seq<(CompositionTarget, usize)>,
) -> Result<Seq<Seq<BufferSource>>, CompositionExecutionError> {
    match bindings_refusal(c, plans, bindings, bindings.len() as int) {
        Some(e) => Err(e),
        None => all_sources(c, plans, bindings, c.stages.len() as int),
    }
}

proof fn lemma_bindings_refusal_stable(
    c: CompositionModel,
    plans: Seq<SharedBufferPlan>,
    bindings: Seq<(CompositionTarget, usize)>,
    i: int,
    n: int,
)
    requires
        0 <= i <= n,
        bindings_refusal(c, plans, bindings, i) is Some,
    ensures
        bindings_refusal(c, plans, bindings, n) == bindings_refusal(c, plans, bindings, i),
    decreases n - i,
{
    if i < n {
        lemma_bindings_refusal_stable(c, plans, bindings, i, n - 1);
    }
}

proof fn lemma_first_binding_stable(bindings: Seq<(CompositionTarget, usize)>, target: CompositionTarget, i: int, n: int)
    requires
        0 <= i <= n,
        first_binding(bindings, target, i) is Some,
    ensures
        first_binding(bindings, target, n) == first_binding(bindings, target, i),
    decreases n - i,
{
    if i < n {
        lemma_first_binding_stable(bindings, target, i, n - 1);
    }
}

proof fn lemma_stage_sources_error_stable(
    c: CompositionModel,
    plans: Seq<SharedBufferPlan>,
    bindings: Seq<(CompositionTarget, usize)>,
    s: int,
    i: int,
    n: int,
)
    requires
        0 <= i <= n,
        stage_sources(c, plans, bindings, s, i) is Err,
    ensures
        stage_sources(c, plans, bindings, s, n) == stage_sources(c, plans, bindings, s, i),
    decreases n - i,
{
    if i < n {
        lemma_stage_sources_error_stable(c, plans, bindings, s, i, n - 1);
    }
}

proof fn lemma_all_sources_error_stable(
    c: CompositionModel,
    plans: Seq<SharedBufferPlan>,
    bindings: Seq<(CompositionTarget, usize)>,
    i: int,
    n: int,
)
    requires
        0 <= i <= n,
        all_sources(c, plans, bindings, i) is Err,
    ensures
        all_sources(c, plans, bindings, n) == all_sources(c, plans, bindings, i),
    decreases n - i,
{
    if i < n {
        lemma_all_sources_error_stable(c, plans, bindings, i, n - 1);
    }
}

fn find_binding(bindings: &Vec<(CompositionTarget, usize)>, target: CompositionTarget, n: usize) -> (r: Option<usize>)
    requires
        n <= bindings@.len(),
    ensures
        r == first_binding(bindings@, target, n as int),
        r is None <==> !bound_before(bindings@, target, n as int),
{
    let mut j: usize = 0;
    while j < n
        invariant
            j <= n,
            n <= bindings@.len(),
            first_binding(bindings@, target, j as int) is None,
            !bound_before(bindings@, target, j as int),
        decreases n - j,
    {
        if bindings[j].0 == target {
            proof {
                assert(bindings@[j as int].0 == target);
                lemma_first_binding_stable(bindings@, target, (j + 1) as int, n as int);
            }
            return Some(j);
        }
        j = j + 1;
    }
    None
}

/// Check every binding in order against a composition.
fn check_composition_bindings(executable: &ExecutableComposition, bindings: &Vec<(CompositionTarget, usize)>) -> (r:
    Result<(), CompositionExecutionError>)
    ensures
        match r {
            Ok(_) => bindings_refusal(executable.model(), executable.plans(), bindings@, bindings@.len() as int) is None,
            Err(e) => bindings_refusal(executable.model(), executable.plans(), bindings@, bindings@.len() as int) == Some(e),
        },
{
    proof {
        use_type_invariant(executable);
    }
    let ghost c = executable.model();
    let ghost plans = executable.plans();
    let stages = executable.stages();
    let n = bindings.len();
    let mut i: usize = 0;
    while i < n
        invariant
            i <= n,
            n == bindings@.len(),
            c == executable.model(),
            plans == executable.plans(),
            executable_models(stages@) == c.stages,
            composition_violation(c) is None,
            bindings_refusal(c, plans, bindings@, i as int) is None,
        decreases n - i,
    {
        let (target, len) = bindings[i];
        let refusal = match target {
            CompositionTarget::Operand(op) => {
                if executable.shared_buffer_of(op).is_some() {
                    Some(CompositionExecutionError::SharedOperandBound(op))
                } else if op.stage >= stages.len() || op.operand.0 >= stages[op.stage].kernel().as_kernel().operands.len() {
                    proof {
                        if op.stage < stages@.len() {
                            assert(c.stages[op.stage as int] == stages@[op.stage as int].kernel_spec()@);
                        }
                    }
                    Some(CompositionExecutionError::InvalidBinding(target))
                } else {
                    let region = stages[op.stage].kernel().as_kernel().operands[op.operand.0].region;
                    proof {
                        assert(c.stages[op.stage as int] == stages@[op.stage as int].kernel_spec()@);
                        assert(region == member_def(c.stages, op).region);
                        lemma_valid_stage(c, op.stage as int);
                        crate::validate::lemma_valid_operand_region(c.stages[op.stage as int], op.operand.0 as int);
                    }
                    if len < region.offset + region.length {
                        Some(CompositionExecutionError::InvalidBinding(target))
                    } else if find_binding(bindings, target, i).is_some() {
                        Some(CompositionExecutionError::DuplicateBinding(target))
                    } else {
                        None
                    }
                }
            },
            CompositionTarget::Shared(b) => {
                match executable.shared_length(b) {
                    None => Some(CompositionExecutionError::InvalidBinding(target)),
                    Some(length) => if len < length {
                        Some(CompositionExecutionError::InvalidBinding(target))
                    } else if find_binding(bindings, target, i).is_some() {
                        Some(CompositionExecutionError::DuplicateBinding(target))
                    } else {
                        None
                    },
                }
            },
        };
        assert(binding_refusal(c, plans, bindings@, i as int) == refusal);
        if let Some(e) = refusal {
            proof {
                lemma_bindings_refusal_stable(c, plans, bindings@, (i + 1) as int, n as int);
            }
            return Err(e);
        }
        i = i + 1;
    }
    Ok(())
}

proof fn lemma_stages_valid(stages: Seq<KernelModel>, n: int)
    requires
        0 <= n <= stages.len(),
        stages_violation(stages, n) is None,
    ensures
        forall|i: int| 0 <= i < n ==> kernel_valid(#[trigger] stages[i]),
    decreases n,
{
    if n > 0 {
        lemma_stages_valid(stages, n - 1);
        if exists|j: int| 0 <= j < n - 1 && (#[trigger] stages[j]).name == stages[n - 1].name {
        } else {
        }
    }
}

/// Every stage of a valid composition is a valid kernel.
pub proof fn lemma_valid_stage(c: CompositionModel, s: int)
    requires
        composition_violation(c) is None,
        0 <= s < c.stages.len(),
    ensures
        kernel_valid(c.stages[s]),
{
    lemma_stages_valid(c.stages, c.stages.len() as int);
}

/// The buffer source of every operand of every stage, given the bindings passed.
fn collect_sources(executable: &ExecutableComposition, bindings: &Vec<(CompositionTarget, usize)>) -> (r: Result<
    Vec<Vec<BufferSource>>,
    CompositionExecutionError,
>)
    ensures
        match r {
            Ok(sources) => all_sources(executable.model(), executable.plans(), bindings@, executable.model().stages.len() as int)
                == Ok::<Seq<Seq<BufferSource>>, CompositionExecutionError>(sources@.map_values(|v: Vec<BufferSource>| v@)),
            Err(e) => all_sources(executable.model(), executable.plans(), bindings@, executable.model().stages.len() as int)
                == Err::<Seq<Seq<BufferSource>>, CompositionExecutionError>(e),
        },
{
    let ghost c = executable.model();
    let ghost plans = executable.plans();
    let stages = executable.stages();
    let n = bindings.len();
    let mut sources: Vec<Vec<BufferSource>> = Vec::new();
    assert(sources@.map_values(|v: Vec<BufferSource>| v@) =~= Seq::<Seq<BufferSource>>::empty());
    let mut s: usize = 0;
    while s < stages.len()
        invariant
            s <= stages@.len(),
            n == bindings@.len(),
            c == executable.model(),
            plans == executable.plans(),
            executable_models(stages@) == c.stages,
            all_sources(c, plans, bindings@, s as int) == Ok::<Seq<Seq<BufferSource>>, CompositionExecutionError>(
                sources@.map_values(|v: Vec<BufferSource>| v@),
            ),
        decreases stages@.len() - s,
    {
        let count = stages[s].kernel().as_kernel().operands.len();
        proof {
            assert(c.stages[s as int] == stages@[s as int].kernel_spec()@);
        }
        let mut row: Vec<BufferSource> = Vec::new();
        let mut o: usize = 0;
        while o < count
            invariant
                o <= count,
                s < stages@.len(),
                n == bindings@.len(),
                c == executable.model(),
                plans == executable.plans(),
                executable_models(stages@) == c.stages,
                count == c.stages[s as int].operands.len(),
                all_sources(c, plans, bindings@, s as int) == Ok::<Seq<Seq<BufferSource>>, CompositionExecutionError>(
                    sources@.map_values(|v: Vec<BufferSource>| v@),
                ),
                stage_sources(c, plans, bindings@, s as int, o as int) == Ok::<Seq<BufferSource>, CompositionExecutionError>(
                    row@,
                ),
            decreases count - o,
        {
            let op = StageOperand { stage: s, operand: OperandId(o) };
            let source = match executable.shared_buffer_of(op) {
                Some(b) => match find_binding(bindings, CompositionTarget::Shared(b), n) {
                    Some(j) => BufferSource::Caller(j),
                    None => BufferSource::Scratch(b),
                },
                None => match find_binding(bindings, CompositionTarget::Operand(op), n) {
                    Some(j) => BufferSource::Caller(j),
                    None => {
                        proof {
                            lemma_stage_sources_error_stable(c, plans, bindings@, s as int, (o + 1) as int, count as int);
                            assert(all_sources(c, plans, bindings@, (s + 1) as int) is Err);
                            lemma_all_sources_error_stable(c, plans, bindings@, (s + 1) as int, stages@.len() as int);
                        }
                        return Err(CompositionExecutionError::MissingBinding(op));
                    },
                },
            };
            row.push(source);
            o = o + 1;
        }
        sources.push(row);
        s = s + 1;
        assert(sources@.map_values(|v: Vec<BufferSource>| v@) =~= all_sources(c, plans, bindings@, s as int)->Ok_0);
    }
    Ok(sources)
}

/// Plan a composition run against caller buffers, given as each binding's target and buffer
/// length: every binding is checked in order, then every stage operand, stage by stage, is
/// given the buffer it reads and writes.
///
/// The caller binds every stage operand that is not a member of a shared buffer, exactly once.
/// A shared buffer may be bound as a whole to observe or seed it; an unbound shared buffer is a
/// zero-initialized scratch buffer. Binding a shared member operand directly is refused.
pub fn plan_bindings(executable: &ExecutableComposition, bindings: &Vec<(CompositionTarget, usize)>) -> (r: Result<
    Vec<Vec<BufferSource>>,
    CompositionExecutionError,
>)
    ensures
        match r {
            Ok(sources) => binding_plan(executable.model(), executable.plans(), bindings@) == Ok::<
                Seq<Seq<BufferSource>>,
                CompositionExecutionError,
            >(sources@.map_values(|v: Vec<BufferSource>| v@)),
            Err(e) => binding_plan(executable.model(), executable.plans(), bindings@) == Err::<
                Seq<Seq<BufferSource>>,
                CompositionExecutionError,
            >(e),
        },
{
    match check_composition_bindings(executable, bindings) {
        Ok(_) => {},
        Err(e) => {
            return Err(e);
        },
    }
    collect_sources(executable, bindings)
}


// ---------------------------------------------------------------------------------------------
// Facts about valid compositions
// ---------------------------------------------------------------------------------------------
proof fn lemma_group_scan_facts(stages: Seq<KernelModel>, groups: Seq<Seq<StageOperand>>, buffer: int, n: int)
    requires
        0 <= buffer < groups.len(),
        0 <= n <= groups[buffer].len(),
        group_scan(stages, groups, buffer, n) is Ok,
    ensures
        forall|k: int| 0 <= k < n ==> member_exists(stages, #[trigger] groups[buffer][k]),
        ({
            let st = group_scan(stages, groups, buffer, n)->Ok_0;
            &&& forall|w: int|
                0 <= w < st.writers.len() ==> member_exists(stages, #[trigger] st.writers[w])
                    && groups[buffer].contains(st.writers[w]) && member_def(stages, st.writers[w]).access.writable()
                    && !(member_def(stages, st.writers[w]).access is ReadWrite)
            &&& forall|r: int|
                0 <= r < st.readers.len() ==> member_exists(stages, #[trigger] st.readers[r])
                    && groups[buffer].contains(st.readers[r]) && member_def(stages, st.readers[r]).access is Read
        }),
    decreases n,
{
    if n > 0 {
        lemma_group_scan_facts(stages, groups, buffer, n - 1);
        let m = groups[buffer][n - 1];
        assert(groups[buffer][n - 1] == m);
    }
}

proof fn lemma_early_reader_none(readers: Seq<StageOperand>, writer: StageOperand, n: int)
    requires
        0 <= n <= readers.len(),
        early_reader(readers, writer, n) is None,
    ensures
        forall|r: int| 0 <= r < n ==> (#[trigger] readers[r]).stage > writer.stage,
    decreases n,
{
    if n > 0 {
        lemma_early_reader_none(readers, writer, n - 1);
    }
}

proof fn lemma_order_violation_none(writers: Seq<StageOperand>, readers: Seq<StageOperand>, n: int)
    requires
        0 <= n <= writers.len(),
        order_violation(writers, readers, n) is None,
    ensures
        forall|w: int, r: int|
            0 <= w < n && 0 <= r < readers.len() ==> (#[trigger] readers[r]).stage > (#[trigger] writers[w]).stage,
    decreases n,
{
    if n > 0 {
        lemma_order_violation_none(writers, readers, n - 1);
        lemma_early_reader_none(readers, writers[n - 1], readers.len() as int);
    }
}

proof fn lemma_groups_valid(stages: Seq<KernelModel>, groups: Seq<Seq<StageOperand>>, n: int)
    requires
        0 <= n <= groups.len(),
        groups_violation(stages, groups, n) is None,
    ensures
        forall|b: int| 0 <= b < n ==> (#[trigger] group_outcome(stages, groups, b)) is Ok,
    decreases n,
{
    if n > 0 {
        lemma_groups_valid(stages, groups, n - 1);
    }
}

/// In a valid composition every shared buffer has writers and readers that are members of it
/// and name existing operands: writers write without reading, readers only read, and every
/// writer's stage runs before every reader's.
pub proof fn lemma_valid_group(c: CompositionModel, b: int)
    requires
        composition_violation(c) is None,
        0 <= b < c.groups.len(),
    ensures
        group_outcome(c.stages, c.groups, b) is Ok,
        forall|k: int| 0 <= k < c.groups[b].len() ==> member_exists(c.stages, #[trigger] c.groups[b][k]),
        ({
            let st = group_outcome(c.stages, c.groups, b)->Ok_0;
            &&& st.writers.len() > 0
            &&& st.readers.len() > 0
            &&& forall|w: int|
                0 <= w < st.writers.len() ==> member_exists(c.stages, #[trigger] st.writers[w])
                    && c.groups[b].contains(st.writers[w]) && member_def(c.stages, st.writers[w]).access.writable()
                    && !(member_def(c.stages, st.writers[w]).access is ReadWrite)
            &&& forall|r: int|
                0 <= r < st.readers.len() ==> member_exists(c.stages, #[trigger] st.readers[r])
                    && c.groups[b].contains(st.readers[r]) && member_def(c.stages, st.readers[r]).access is Read
            &&& forall|w: int, r: int|
                0 <= w < st.writers.len() && 0 <= r < st.readers.len() ==> (#[trigger] st.readers[r]).stage
                    > (#[trigger] st.writers[w]).stage
        }),
{
    lemma_groups_valid(c.stages, c.groups, c.groups.len() as int);
    assert(group_outcome(c.stages, c.groups, b) is Ok);
    lemma_group_scan_facts(c.stages, c.groups, b, c.groups[b].len() as int);
    let st = group_outcome(c.stages, c.groups, b)->Ok_0;
    lemma_order_violation_none(st.writers, st.readers, st.writers.len() as int);
}

/// In a valid composition, the plans find a member exactly when some group holds it.
pub proof fn lemma_membership(c: CompositionModel, plans: Seq<SharedBufferPlan>, m: StageOperand, n: int)
    requires
        plans_match(c, plans),
        0 <= n <= plans.len(),
        plans.len() <= usize::MAX,
    ensures
        membership(plans, m, n) is Some <==> in_groups(c.groups, n, m),
        membership(plans, m, n) is Some ==> membership(plans, m, n)->Some_0 < n && c.groups[membership(plans, m, n)->Some_0 as int].contains(m),
    decreases n,
{
    if n > 0 {
        lemma_membership(c, plans, m, n - 1);
        assert(plan_matches(c, n - 1, plans[n - 1]));
        if in_groups(c.groups, n, m) && !in_groups(c.groups, n - 1, m) {
            let g = choose|g: int| 0 <= g < n && (#[trigger] c.groups[g]).contains(m);
            assert(g == n - 1);
        }
    }
}

impl ValidatedComposition {
    /// The execution plans of the shared buffers, with what validation established of them.
    pub(crate) fn plans_ref(&self) -> (plans: &Vec<SharedBufferPlan>)
        ensures
            plans@ == self.plans(),
            composition_violation(self.model()) is None,
            plans_match(self.model(), plans@),
    {
        proof {
            use_type_invariant(self);
        }
        &self.shared
    }
}

impl KernelComposition {
    /// A copy with the same mathematical content.
    pub fn copy(&self) -> (c: Self)
        ensures
            c@ == self@,
    {
        let mut stages: Vec<StructuredKernel> = Vec::new();
        let mut i: usize = 0;
        while i < self.stages.len()
            invariant
                i <= self.stages@.len(),
                stages@.len() == i,
                forall|j: int| 0 <= j < i ==> (#[trigger] stages@[j])@ == self.stages@[j]@,
            decreases self.stages@.len() - i,
        {
            stages.push(self.stages[i].copy());
            i = i + 1;
        }
        let mut groups: Vec<SharedBuffer> = Vec::new();
        let mut b: usize = 0;
        while b < self.shared_buffers.len()
            invariant
                b <= self.shared_buffers@.len(),
                groups@.len() == b,
                forall|j: int| 0 <= j < b ==> (#[trigger] groups@[j]).members@ == self.shared_buffers@[j].members@,
            decreases self.shared_buffers@.len() - b,
        {
            groups.push(SharedBuffer { members: copy_members(&self.shared_buffers[b].members) });
            b = b + 1;
        }
        let c = KernelComposition { name: self.name.clone(), stages, shared_buffers: groups };
        assert(c@.stages =~= self@.stages);
        assert(c@.groups =~= self@.groups);
        c
    }
}

proof fn lemma_stage_sources_at(
    c: CompositionModel,
    plans: Seq<SharedBufferPlan>,
    bindings: Seq<(CompositionTarget, usize)>,
    s: int,
    n: int,
)
    requires
        0 <= s <= usize::MAX,
        0 <= n <= usize::MAX + 1,
        stage_sources(c, plans, bindings, s, n) is Ok,
    ensures
        stage_sources(c, plans, bindings, s, n)->Ok_0.len() == n,
        forall|o: int|
            0 <= o < n ==> source_of(plans, bindings, StageOperand { stage: s as usize, operand: OperandId(o as usize) }) == Ok::<
                BufferSource,
                CompositionExecutionError,
            >(#[trigger] stage_sources(c, plans, bindings, s, n)->Ok_0[o]),
    decreases n,
{
    if n > 0 {
        lemma_stage_sources_at(c, plans, bindings, s, n - 1);
    }
}

proof fn lemma_all_sources_at(
    c: CompositionModel,
    plans: Seq<SharedBufferPlan>,
    bindings: Seq<(CompositionTarget, usize)>,
    n: int,
)
    requires
        0 <= n <= c.stages.len(),
        all_sources(c, plans, bindings, n) is Ok,
    ensures
        all_sources(c, plans, bindings, n)->Ok_0.len() == n,
        forall|t: int|
            0 <= t < n ==> stage_sources(c, plans, bindings, t, c.stages[t].operands.len() as int) == Ok::<
                Seq<BufferSource>,
                CompositionExecutionError,
            >(#[trigger] all_sources(c, plans, bindings, n)->Ok_0[t]),
    decreases n,
{
    if n > 0 {
        lemma_all_sources_at(c, plans, bindings, n - 1);
    }
}

/// A run plan routes every stage operand to the source its membership decides: an operand of a
/// shared buffer reads the caller's binding of that buffer (else its scratch), any other operand
/// its own binding; so all members of one shared buffer alias one buffer.
pub proof fn lemma_plan_sources(
    c: CompositionModel,
    plans: Seq<SharedBufferPlan>,
    bindings: Seq<(CompositionTarget, usize)>,
    x: StageOperand,
    y: StageOperand,
)
    requires
        c.stages.len() <= usize::MAX,
        forall|t: int| 0 <= t < c.stages.len() ==> (#[trigger] c.stages[t]).operands.len() <= usize::MAX,
        binding_plan(c, plans, bindings) is Ok,
        x.stage < c.stages.len(),
        x.operand.0 < c.stages[x.stage as int].operands.len(),
        y.stage < c.stages.len(),
        y.operand.0 < c.stages[y.stage as int].operands.len(),
    ensures
        ({
            let p = binding_plan(c, plans, bindings)->Ok_0;
            &&& p.len() == c.stages.len()
            &&& p[x.stage as int].len() == c.stages[x.stage as int].operands.len()
            &&& source_of(plans, bindings, x) == Ok::<BufferSource, CompositionExecutionError>(
                p[x.stage as int][x.operand.0 as int],
            )
            &&& (membership(plans, x, plans.len() as int) is Some && membership(plans, x, plans.len() as int) == membership(
                plans,
                y,
                plans.len() as int,
            )) ==> p[x.stage as int][x.operand.0 as int] == p[y.stage as int][y.operand.0 as int]
        }),
{
    let n = c.stages.len() as int;
    lemma_all_sources_at(c, plans, bindings, n);
    let p = all_sources(c, plans, bindings, n)->Ok_0;
    let sx = x.stage as int;
    let sy = y.stage as int;
    assert(stage_sources(c, plans, bindings, sx, c.stages[sx].operands.len() as int) == Ok::<
        Seq<BufferSource>,
        CompositionExecutionError,
    >(p[sx]));
    assert(stage_sources(c, plans, bindings, sy, c.stages[sy].operands.len() as int) == Ok::<
        Seq<BufferSource>,
        CompositionExecutionError,
    >(p[sy]));
    lemma_stage_sources_at(c, plans, bindings, sx, c.stages[sx].operands.len() as int);
    lemma_stage_sources_at(c, plans, bindings, sy, c.stages[sy].operands.len() as int);
    assert(x == StageOperand { stage: sx as usize, operand: OperandId(x.operand.0 as int as usize) });
    assert(y == StageOperand { stage: sy as usize, operand: OperandId(y.operand.0 as int as usize) });
    assert(source_of(plans, bindings, x) == Ok::<BufferSource, CompositionExecutionError>(p[sx][x.operand.0 as int]));
    assert(source_of(plans, bindings, y) == Ok::<BufferSource, CompositionExecutionError>(p[sy][y.operand.0 as int]));
}

} // verus!
