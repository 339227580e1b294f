//! The messages of the library's errors: for each error type, the sentence that says what
//! failed, followed by the error as its derived `Debug` writes it. Campaign errors carry their
//! own wording around the messages of the errors they wrap.
use vstd::prelude::*;

use crate::campaign::CampaignError;
use crate::compose::{CompositionError, CompositionExecutionError, CompositionTarget, StageOperand};
use crate::compose_derivative::CompositionDifferentiationError;
use crate::differentiate::DifferentiationError;
use crate::digest::{append_decimal, decimal};
use crate::executable::ExecutableError;
use crate::facet::{FacetPairDifferentiationError, FacetPairError, FacetSide, FacetSwapError};
use crate::interpreter::ExecutionError;
use crate::ir::DerivativeMode;
use crate::validate::ValidationError;

verus! {

/// The `Debug` text of a string: quoted, with the characters that `Debug` escapes escaped.
pub uninterp spec fn debug_text(s: Seq<char>) -> Seq<char>;

/// Calls `<str as Debug>::fmt` (through `format!("{:?}")`): the string in double quotes, with
/// quotes, backslashes, control and non-printable characters escaped. The contract names the
/// result; the escaping itself is not restated.
#[verifier::external_body]
fn debug_string(s: &str) -> (r: String)
    ensures
        r@ == debug_text(s@),
{
    format!("{:?}", s)
}

/// The `Debug` text of a stage operand.
pub open spec fn stage_operand_text(s: StageOperand) -> Seq<char> {
    "StageOperand { stage: "@ + decimal(s.stage as nat) + ", operand: OperandId("@ + decimal(s.operand.0 as nat)
        + ") }"@
}

fn append_stage_operand(out: &mut String, s: StageOperand)
    ensures
        final(out)@ == old(out)@ + stage_operand_text(s),
{
    let ghost start = out@;
    out.append("StageOperand { stage: ");
    append_decimal(out, s.stage);
    out.append(", operand: OperandId(");
    append_decimal(out, s.operand.0);
    out.append(") }");
    assert(out@ =~= start + stage_operand_text(s));
}

/// The `Debug` text of a composition binding target.
pub open spec fn target_text(t: CompositionTarget) -> Seq<char> {
    match t {
        CompositionTarget::Operand(s) => "Operand("@ + stage_operand_text(s) + ")"@,
        CompositionTarget::Shared(b) => "Shared("@ + decimal(b as nat) + ")"@,
    }
}

fn append_target(out: &mut String, t: CompositionTarget)
    ensures
        final(out)@ == old(out)@ + target_text(t),
{
    let ghost start = out@;
    match t {
        CompositionTarget::Operand(s) => {
            out.append("Operand(");
            append_stage_operand(out, s);
            out.append(")");
        },
        CompositionTarget::Shared(b) => {
            out.append("Shared(");
            append_decimal(out, b);
            out.append(")");
        },
    }
    assert(out@ =~= start + target_text(t));
}

/// The `Debug` text of a derivative mode.
pub open spec fn mode_text(m: DerivativeMode) -> Seq<char> {
    match m {
        DerivativeMode::Jvp => "Jvp"@,
        DerivativeMode::Vjp => "Vjp"@,
        DerivativeMode::Jacobian => "Jacobian"@,
    }
}

fn append_mode(out: &mut String, m: DerivativeMode)
    ensures
        final(out)@ == old(out)@ + mode_text(m),
{
    match m {
        DerivativeMode::Jvp => out.append("Jvp"),
        DerivativeMode::Vjp => out.append("Vjp"),
        DerivativeMode::Jacobian => out.append("Jacobian"),
    }
}

/// The `Debug` text of a facet side.
pub open spec fn side_text(s: FacetSide) -> Seq<char> {
    match s {
        FacetSide::Minus => "Minus"@,
        FacetSide::Plus => "Plus"@,
    }
}

fn append_side(out: &mut String, s: FacetSide)
    ensures
        final(out)@ == old(out)@ + side_text(s),
{
    match s {
        FacetSide::Minus => out.append("Minus"),
        FacetSide::Plus => out.append("Plus"),
    }
}

/// The text of a [`ValidationError`], as its derived `Debug` writes it.
pub open spec fn validation_error_text(e: ValidationError) -> Seq<char>

{
    match e {
        ValidationError::EmptyName => "EmptyName"@,
        ValidationError::IteratorRank { expected, actual } => "IteratorRank { expected: "@ + decimal(expected as nat) + ", actual: "@ + decimal(actual as nat) + " }"@,
        ValidationError::DuplicateOperandName(a) => "DuplicateOperandName("@ + debug_text(a@) + ")"@,
        ValidationError::InvalidOperand(a) => "InvalidOperand("@ + decimal(a as nat) + ")"@,
        ValidationError::MissingIndexingMap(a) => "MissingIndexingMap("@ + decimal(a as nat) + ")"@,
        ValidationError::DuplicateIndexingMap(a) => "DuplicateIndexingMap("@ + decimal(a as nat) + ")"@,
        ValidationError::IndexRank { operand, expected, actual } => "IndexRank { operand: "@ + decimal(operand as nat) + ", expected: "@ + decimal(expected as nat) + ", actual: "@ + decimal(actual as nat) + " }"@,
        ValidationError::InvalidAxis(a) => "InvalidAxis("@ + decimal(a as nat) + ")"@,
        ValidationError::DuplicateIndexAxis { operand, axis } => "DuplicateIndexAxis { operand: "@ + decimal(operand as nat) + ", axis: "@ + decimal(axis as nat) + " }"@,
        ValidationError::IndexOutOfBounds { operand, dimension } => "IndexOutOfBounds { operand: "@ + decimal(operand as nat) + ", dimension: "@ + decimal(dimension as nat) + " }"@,
        ValidationError::AliasingWrite(a) => "AliasingWrite("@ + decimal(a as nat) + ")"@,
        ValidationError::InvalidLayout(a) => "InvalidLayout("@ + decimal(a as nat) + ")"@,
        ValidationError::InvalidRegion(a) => "InvalidRegion("@ + decimal(a as nat) + ")"@,
        ValidationError::InvalidLocal { expected, actual } => "InvalidLocal { expected: "@ + decimal(expected as nat) + ", actual: "@ + decimal(actual as nat) + " }"@,
        ValidationError::InvalidLoad(a) => "InvalidLoad("@ + decimal(a as nat) + ")"@,
        ValidationError::InvalidStore(a) => "InvalidStore("@ + decimal(a as nat) + ")"@,
        ValidationError::NonFiniteConstant => "NonFiniteConstant"@,
        ValidationError::DuplicateKernelName(a) => "DuplicateKernelName("@ + debug_text(a@) + ")"@,
    }
}

fn append_validation_error_text(out: &mut String, e: &ValidationError)
    ensures
        final(out)@ == old(out)@ + validation_error_text(*e),
{
    let ghost start = out@;
    match e {
        ValidationError::EmptyName => {
            out.append("EmptyName");
            assert(out@ =~= start + validation_error_text(*e));
        },
        ValidationError::IteratorRank { expected, actual } => {
            out.append("IteratorRank { expected: ");
            append_decimal(out, *expected);
            out.append(", actual: ");
            append_decimal(out, *actual);
            out.append(" }");
            assert(out@ =~= start + validation_error_text(*e));
        },
        ValidationError::DuplicateOperandName(a) => {
            out.append("DuplicateOperandName(");
            let text = debug_string(a.as_str());
            out.append(text.as_str());
            out.append(")");
            assert(out@ =~= start + validation_error_text(*e));
        },
        ValidationError::InvalidOperand(a) => {
            out.append("InvalidOperand(");
            append_decimal(out, *a);
            out.append(")");
            assert(out@ =~= start + validation_error_text(*e));
        },
        ValidationError::MissingIndexingMap(a) => {
            out.append("MissingIndexingMap(");
            append_decimal(out, *a);
            out.append(")");
            assert(out@ =~= start + validation_error_text(*e));
        },
        ValidationError::DuplicateIndexingMap(a) => {
            out.append("DuplicateIndexingMap(");
            append_decimal(out, *a);
            out.append(")");
            assert(out@ =~= start + validation_error_text(*e));
        },
        ValidationError::IndexRank { operand, expected, actual } => {
            out.append("IndexRank { operand: ");
            append_decimal(out, *operand);
            out.append(", expected: ");
            append_decimal(out, *expected);
            out.append(", actual: ");
            append_decimal(out, *actual);
            out.append(" }");
            assert(out@ =~= start + validation_error_text(*e));
        },
        ValidationError::InvalidAxis(a) => {
            out.append("InvalidAxis(");
            append_decimal(out, *a);
            out.append(")");
            assert(out@ =~= start + validation_error_text(*e));
        },
        ValidationError::DuplicateIndexAxis { operand, axis } => {
            out.append("DuplicateIndexAxis { operand: ");
            append_decimal(out, *operand);
            out.append(", axis: ");
            append_decimal(out, *axis);
            out.append(" }");
            assert(out@ =~= start + validation_error_text(*e));
        },
        ValidationError::IndexOutOfBounds { operand, dimension } => {
            out.append("IndexOutOfBounds { operand: ");
            append_decimal(out, *operand);
            out.append(", dimension: ");
            append_decimal(out, *dimension);
            out.append(" }");
            assert(out@ =~= start + validation_error_text(*e));
        },
        ValidationError::AliasingWrite(a) => {
            out.append("AliasingWrite(");
            append_decimal(out, *a);
            out.append(")");
            assert(out@ =~= start + validation_error_text(*e));
        },
        ValidationError::InvalidLayout(a) => {
            out.append("InvalidLayout(");
            append_decimal(out, *a);
            out.append(")");
            assert(out@ =~= start + validation_error_text(*e));
        },
        ValidationError::InvalidRegion(a) => {
            out.append("InvalidRegion(");
            append_decimal(out, *a);
            out.append(")");
            assert(out@ =~= start + validation_error_text(*e));
        },
        ValidationError::InvalidLocal { expected, actual } => {
            out.append("InvalidLocal { expected: ");
            append_decimal(out, *expected);
            out.append(", actual: ");
            append_decimal(out, *actual);
            out.append(" }");
            assert(out@ =~= start + validation_error_text(*e));
        },
        ValidationError::InvalidLoad(a) => {
            out.append("InvalidLoad(");
            append_decimal(out, *a);
            out.append(")");
            assert(out@ =~= start + validation_error_text(*e));
        },
        ValidationError::InvalidStore(a) => {
            out.append("InvalidStore(");
            append_decimal(out, *a);
            out.append(")");
            assert(out@ =~= start + validation_error_text(*e));
        },
        ValidationError::NonFiniteConstant => {
            out.append("NonFiniteConstant");
            assert(out@ =~= start + validation_error_text(*e));
        },
        ValidationError::DuplicateKernelName(a) => {
            out.append("DuplicateKernelName(");
            let text = debug_string(a.as_str());
            out.append(text.as_str());
            out.append(")");
            assert(out@ =~= start + validation_error_text(*e));
        },
    }
}

/// The message of a [`ValidationError`].
pub open spec fn validation_error_message(e: ValidationError) -> Seq<char> {
    "invalid structured kernel: "@ + validation_error_text(e)
}

impl ValidationError {
    /// What went wrong, as text: "invalid structured kernel: " followed by the error as its derived `Debug`
    /// writes it.
    pub fn message(&self) -> (m: String)
        ensures
            m@ == validation_error_message(*self),
    {
        let mut m = String::new();
        m.append("invalid structured kernel: ");
        append_validation_error_text(&mut m, self);
        m
    }
}

/// The text of a [`ExecutionError`], as its derived `Debug` writes it.
pub open spec fn execution_error_text(e: ExecutionError) -> Seq<char>

{
    match e {
        ExecutionError::MissingBinding(a) => "MissingBinding("@ + decimal(a as nat) + ")"@,
        ExecutionError::DuplicateBinding(a) => "DuplicateBinding("@ + decimal(a as nat) + ")"@,
        ExecutionError::InvalidBinding(a) => "InvalidBinding("@ + decimal(a as nat) + ")"@,
        ExecutionError::InvalidIndex(a) => "InvalidIndex("@ + decimal(a as nat) + ")"@,
    }
}

fn append_execution_error_text(out: &mut String, e: &ExecutionError)
    ensures
        final(out)@ == old(out)@ + execution_error_text(*e),
{
    let ghost start = out@;
    match e {
        ExecutionError::MissingBinding(a) => {
            out.append("MissingBinding(");
            append_decimal(out, *a);
            out.append(")");
            assert(out@ =~= start + execution_error_text(*e));
        },
        ExecutionError::DuplicateBinding(a) => {
            out.append("DuplicateBinding(");
            append_decimal(out, *a);
            out.append(")");
            assert(out@ =~= start + execution_error_text(*e));
        },
        ExecutionError::InvalidBinding(a) => {
            out.append("InvalidBinding(");
            append_decimal(out, *a);
            out.append(")");
            assert(out@ =~= start + execution_error_text(*e));
        },
        ExecutionError::InvalidIndex(a) => {
            out.append("InvalidIndex(");
            append_decimal(out, *a);
            out.append(")");
            assert(out@ =~= start + execution_error_text(*e));
        },
    }
}

/// The message of a [`ExecutionError`].
pub open spec fn execution_error_message(e: ExecutionError) -> Seq<char> {
    "kernel execution failed: "@ + execution_error_text(e)
}

impl ExecutionError {
    /// What went wrong, as text: "kernel execution failed: " followed by the error as its derived `Debug`
    /// writes it.
    pub fn message(&self) -> (m: String)
        ensures
            m@ == execution_error_message(*self),
    {
        let mut m = String::new();
        m.append("kernel execution failed: ");
        append_execution_error_text(&mut m, self);
        m
    }
}

/// The text of a [`ExecutableError`], as its derived `Debug` writes it.
pub open spec fn executable_error_text(e: ExecutableError) -> Seq<char>

{
    match e {
        ExecutableError::InvalidLoopOrder => "InvalidLoopOrder"@,
        ExecutableError::InvalidAxis(a) => "InvalidAxis("@ + decimal(a as nat) + ")"@,
        ExecutableError::InvalidTileSize => "InvalidTileSize"@,
        ExecutableError::InvalidVectorWidth => "InvalidVectorWidth"@,
        ExecutableError::NonParallelAxis(a) => "NonParallelAxis("@ + decimal(a as nat) + ")"@,
    }
}

fn append_executable_error_text(out: &mut String, e: &ExecutableError)
    ensures
        final(out)@ == old(out)@ + executable_error_text(*e),
{
    let ghost start = out@;
    match e {
        ExecutableError::InvalidLoopOrder => {
            out.append("InvalidLoopOrder");
            assert(out@ =~= start + executable_error_text(*e));
        },
        ExecutableError::InvalidAxis(a) => {
            out.append("InvalidAxis(");
            append_decimal(out, *a);
            out.append(")");
            assert(out@ =~= start + executable_error_text(*e));
        },
        ExecutableError::InvalidTileSize => {
            out.append("InvalidTileSize");
            assert(out@ =~= start + executable_error_text(*e));
        },
        ExecutableError::InvalidVectorWidth => {
            out.append("InvalidVectorWidth");
            assert(out@ =~= start + executable_error_text(*e));
        },
        ExecutableError::NonParallelAxis(a) => {
            out.append("NonParallelAxis(");
            append_decimal(out, *a);
            out.append(")");
            assert(out@ =~= start + executable_error_text(*e));
        },
    }
}

/// The message of a [`ExecutableError`].
pub open spec fn executable_error_message(e: ExecutableError) -> Seq<char> {
    "invalid kernel schedule: "@ + executable_error_text(e)
}

impl ExecutableError {
    /// What went wrong, as text: "invalid kernel schedule: " followed by the error as its derived `Debug`
    /// writes it.
    pub fn message(&self) -> (m: String)
        ensures
            m@ == executable_error_message(*self),
    {
        let mut m = String::new();
        m.append("invalid kernel schedule: ");
        append_executable_error_text(&mut m, self);
        m
    }
}

/// The text of a [`DifferentiationError`], as its derived `Debug` writes it.
pub open spec fn differentiation_error_text(e: DifferentiationError) -> Seq<char>

{
    match e {
        DifferentiationError::InvalidPrimal(a) => "InvalidPrimal("@ + validation_error_text(a) + ")"@,
        DifferentiationError::InvalidDerivative(a) => "InvalidDerivative("@ + validation_error_text(a) + ")"@,
        DifferentiationError::UnsupportedMode(a) => "UnsupportedMode("@ + mode_text(a) + ")"@,
        DifferentiationError::EmptyDependentSet => "EmptyDependentSet"@,
        DifferentiationError::DuplicateIndependent(a) => "DuplicateIndependent("@ + decimal(a as nat) + ")"@,
        DifferentiationError::DuplicateDependent(a) => "DuplicateDependent("@ + decimal(a as nat) + ")"@,
        DifferentiationError::InvalidIndependent(a) => "InvalidIndependent("@ + decimal(a as nat) + ")"@,
        DifferentiationError::InvalidDependent(a) => "InvalidDependent("@ + decimal(a as nat) + ")"@,
        DifferentiationError::IndependentNotReadable(a) => "IndependentNotReadable("@ + decimal(a as nat) + ")"@,
        DifferentiationError::DependentNotWritten(a) => "DependentNotWritten("@ + decimal(a as nat) + ")"@,
        DifferentiationError::MissingIndexingMap(a) => "MissingIndexingMap("@ + decimal(a as nat) + ")"@,
        DifferentiationError::UnsupportedReadWriteOperand(a) => "UnsupportedReadWriteOperand("@ + decimal(a as nat) + ")"@,
    }
}

fn append_differentiation_error_text(out: &mut String, e: &DifferentiationError)
    ensures
        final(out)@ == old(out)@ + differentiation_error_text(*e),
{
    let ghost start = out@;
    match e {
        DifferentiationError::InvalidPrimal(a) => {
            out.append("InvalidPrimal(");
            append_validation_error_text(out, a);
            out.append(")");
            assert(out@ =~= start + differentiation_error_text(*e));
        },
        DifferentiationError::InvalidDerivative(a) => {
            out.append("InvalidDerivative(");
            append_validation_error_text(out, a);
            out.append(")");
            assert(out@ =~= start + differentiation_error_text(*e));
        },
        DifferentiationError::UnsupportedMode(a) => {
            out.append("UnsupportedMode(");
            append_mode(out, *a);
            out.append(")");
            assert(out@ =~= start + differentiation_error_text(*e));
        },
        DifferentiationError::EmptyDependentSet => {
            out.append("EmptyDependentSet");
            assert(out@ =~= start + differentiation_error_text(*e));
        },
        DifferentiationError::DuplicateIndependent(a) => {
            out.append("DuplicateIndependent(");
            append_decimal(out, *a);
            out.append(")");
            assert(out@ =~= start + differentiation_error_text(*e));
        },
        DifferentiationError::DuplicateDependent(a) => {
            out.append("DuplicateDependent(");
            append_decimal(out, *a);
            out.append(")");
            assert(out@ =~= start + differentiation_error_text(*e));
        },
        DifferentiationError::InvalidIndependent(a) => {
            out.append("InvalidIndependent(");
            append_decimal(out, *a);
            out.append(")");
            assert(out@ =~= start + differentiation_error_text(*e));
        },
        DifferentiationError::InvalidDependent(a) => {
            out.append("InvalidDependent(");
            append_decimal(out, *a);
            out.append(")");
            assert(out@ =~= start + differentiation_error_text(*e));
        },
        DifferentiationError::IndependentNotReadable(a) => {
            out.append("IndependentNotReadable(");
            append_decimal(out, *a);
            out.append(")");
            assert(out@ =~= start + differentiation_error_text(*e));
        },
        DifferentiationError::DependentNotWritten(a) => {
            out.append("DependentNotWritten(");
            append_decimal(out, *a);
            out.append(")");
            assert(out@ =~= start + differentiation_error_text(*e));
        },
        DifferentiationError::MissingIndexingMap(a) => {
            out.append("MissingIndexingMap(");
            append_decimal(out, *a);
            out.append(")");
            assert(out@ =~= start + differentiation_error_text(*e));
        },
        DifferentiationError::UnsupportedReadWriteOperand(a) => {
            out.append("UnsupportedReadWriteOperand(");
            append_decimal(out, *a);
            out.append(")");
            assert(out@ =~= start + differentiation_error_text(*e));
        },
    }
}

/// The message of a [`DifferentiationError`].
pub open spec fn differentiation_error_message(e: DifferentiationError) -> Seq<char> {
    "structured differentiation failed: "@ + differentiation_error_text(e)
}

impl DifferentiationError {
    /// What went wrong, as text: "structured differentiation failed: " followed by the error as its derived `Debug`
    /// writes it.
    pub fn message(&self) -> (m: String)
        ensures
            m@ == differentiation_error_message(*self),
    {
        let mut m = String::new();
        m.append("structured differentiation failed: ");
        append_differentiation_error_text(&mut m, self);
        m
    }
}

/// The text of a [`CompositionError`], as its derived `Debug` writes it.
pub open spec fn composition_error_text(e: CompositionError) -> Seq<char>

{
    match e {
        CompositionError::EmptyName => "EmptyName"@,
        CompositionError::NoStages => "NoStages"@,
        CompositionError::InvalidStage { stage, error } => "InvalidStage { stage: "@ + decimal(stage as nat) + ", error: "@ + validation_error_text(error) + " }"@,
        CompositionError::DuplicateStageName(a) => "DuplicateStageName("@ + debug_text(a@) + ")"@,
        CompositionError::TooFewMembers(a) => "TooFewMembers("@ + decimal(a as nat) + ")"@,
        CompositionError::InvalidMember { buffer, member } => "InvalidMember { buffer: "@ + decimal(buffer as nat) + ", member: "@ + stage_operand_text(member) + " }"@,
        CompositionError::DuplicateMember { buffer, member } => "DuplicateMember { buffer: "@ + decimal(buffer as nat) + ", member: "@ + stage_operand_text(member) + " }"@,
        CompositionError::MemberShape { buffer, member } => "MemberShape { buffer: "@ + decimal(buffer as nat) + ", member: "@ + stage_operand_text(member) + " }"@,
        CompositionError::UnsupportedReadWrite { buffer, member } => "UnsupportedReadWrite { buffer: "@ + decimal(buffer as nat) + ", member: "@ + stage_operand_text(member) + " }"@,
        CompositionError::NoWriter(a) => "NoWriter("@ + decimal(a as nat) + ")"@,
        CompositionError::NoReader(a) => "NoReader("@ + decimal(a as nat) + ")"@,
        CompositionError::ConflictingWriters(a) => "ConflictingWriters("@ + decimal(a as nat) + ")"@,
        CompositionError::MultipleWritersInStage { buffer, stage } => "MultipleWritersInStage { buffer: "@ + decimal(buffer as nat) + ", stage: "@ + decimal(stage as nat) + " }"@,
        CompositionError::WriterAfterReader { buffer, writer, reader } => "WriterAfterReader { buffer: "@ + decimal(buffer as nat) + ", writer: "@ + stage_operand_text(writer) + ", reader: "@ + stage_operand_text(reader) + " }"@,
    }
}

fn append_composition_error_text(out: &mut String, e: &CompositionError)
    ensures
        final(out)@ == old(out)@ + composition_error_text(*e),
{
    let ghost start = out@;
    match e {
        CompositionError::EmptyName => {
            out.append("EmptyName");
            assert(out@ =~= start + composition_error_text(*e));
        },
        CompositionError::NoStages => {
            out.append("NoStages");
            assert(out@ =~= start + composition_error_text(*e));
        },
        CompositionError::InvalidStage { stage, error } => {
            out.append("InvalidStage { stage: ");
            append_decimal(out, *stage);
            out.append(", error: ");
            append_validation_error_text(out, error);
            out.append(" }");
            assert(out@ =~= start + composition_error_text(*e));
        },
        CompositionError::DuplicateStageName(a) => {
            out.append("DuplicateStageName(");
            let text = debug_string(a.as_str());
            out.append(text.as_str());
            out.append(")");
            assert(out@ =~= start + composition_error_text(*e));
        },
        CompositionError::TooFewMembers(a) => {
            out.append("TooFewMembers(");
            append_decimal(out, *a);
            out.append(")");
            assert(out@ =~= start + composition_error_text(*e));
        },
        CompositionError::InvalidMember { buffer, member } => {
            out.append("InvalidMember { buffer: ");
            append_decimal(out, *buffer);
            out.append(", member: ");
            append_stage_operand(out, *member);
            out.append(" }");
            assert(out@ =~= start + composition_error_text(*e));
        },
        CompositionError::DuplicateMember { buffer, member } => {
            out.append("DuplicateMember { buffer: ");
            append_decimal(out, *buffer);
            out.append(", member: ");
            append_stage_operand(out, *member);
            out.append(" }");
            assert(out@ =~= start + composition_error_text(*e));
        },
        CompositionError::MemberShape { buffer, member } => {
            out.append("MemberShape { buffer: ");
            append_decimal(out, *buffer);
            out.append(", member: ");
            append_stage_operand(out, *member);
            out.append(" }");
            assert(out@ =~= start + composition_error_text(*e));
        },
        CompositionError::UnsupportedReadWrite { buffer, member } => {
            out.append("UnsupportedReadWrite { buffer: ");
            append_decimal(out, *buffer);
            out.append(", member: ");
            append_stage_operand(out, *member);
            out.append(" }");
            assert(out@ =~= start + composition_error_text(*e));
        },
        CompositionError::NoWriter(a) => {
            out.append("NoWriter(");
            append_decimal(out, *a);
            out.append(")");
            assert(out@ =~= start + composition_error_text(*e));
        },
        CompositionError::NoReader(a) => {
            out.append("NoReader(");
            append_decimal(out, *a);
            out.append(")");
            assert(out@ =~= start + composition_error_text(*e));
        },
        CompositionError::ConflictingWriters(a) => {
            out.append("ConflictingWriters(");
            append_decimal(out, *a);
            out.append(")");
            assert(out@ =~= start + composition_error_text(*e));
        },
        CompositionError::MultipleWritersInStage { buffer, stage } => {
            out.append("MultipleWritersInStage { buffer: ");
            append_decimal(out, *buffer);
            out.append(", stage: ");
            append_decimal(out, *stage);
            out.append(" }");
            assert(out@ =~= start + composition_error_text(*e));
        },
        CompositionError::WriterAfterReader { buffer, writer, reader } => {
            out.append("WriterAfterReader { buffer: ");
            append_decimal(out, *buffer);
            out.append(", writer: ");
            append_stage_operand(out, *writer);
            out.append(", reader: ");
            append_stage_operand(out, *reader);
            out.append(" }");
            assert(out@ =~= start + composition_error_text(*e));
        },
    }
}

/// The message of a [`CompositionError`].
pub open spec fn composition_error_message(e: CompositionError) -> Seq<char> {
    "invalid kernel composition: "@ + composition_error_text(e)
}

impl CompositionError {
    /// What went wrong, as text: "invalid kernel composition: " followed by the error as its derived `Debug`
    /// writes it.
    pub fn message(&self) -> (m: String)
        ensures
            m@ == composition_error_message(*self),
    {
        let mut m = String::new();
        m.append("invalid kernel composition: ");
        append_composition_error_text(&mut m, self);
        m
    }
}

/// The text of a [`CompositionExecutionError`], as its derived `Debug` writes it.
pub open spec fn composition_execution_error_text(e: CompositionExecutionError) -> Seq<char>

{
    match e {
        CompositionExecutionError::MissingBinding(a) => "MissingBinding("@ + stage_operand_text(a) + ")"@,
        CompositionExecutionError::DuplicateBinding(a) => "DuplicateBinding("@ + target_text(a) + ")"@,
        CompositionExecutionError::InvalidBinding(a) => "InvalidBinding("@ + target_text(a) + ")"@,
        CompositionExecutionError::SharedOperandBound(a) => "SharedOperandBound("@ + stage_operand_text(a) + ")"@,
        CompositionExecutionError::Stage { stage, error } => "Stage { stage: "@ + decimal(stage as nat) + ", error: "@ + execution_error_text(error) + " }"@,
    }
}

fn append_composition_execution_error_text(out: &mut String, e: &CompositionExecutionError)
    ensures
        final(out)@ == old(out)@ + composition_execution_error_text(*e),
{
    let ghost start = out@;
    match e {
        CompositionExecutionError::MissingBinding(a) => {
            out.append("MissingBinding(");
            append_stage_operand(out, *a);
            out.append(")");
            assert(out@ =~= start + composition_execution_error_text(*e));
        },
        CompositionExecutionError::DuplicateBinding(a) => {
            out.append("DuplicateBinding(");
            append_target(out, *a);
            out.append(")");
            assert(out@ =~= start + composition_execution_error_text(*e));
        },
        CompositionExecutionError::InvalidBinding(a) => {
            out.append("InvalidBinding(");
            append_target(out, *a);
            out.append(")");
            assert(out@ =~= start + composition_execution_error_text(*e));
        },
        CompositionExecutionError::SharedOperandBound(a) => {
            out.append("SharedOperandBound(");
            append_stage_operand(out, *a);
            out.append(")");
            assert(out@ =~= start + composition_execution_error_text(*e));
        },
        CompositionExecutionError::Stage { stage, error } => {
            out.append("Stage { stage: ");
            append_decimal(out, *stage);
            out.append(", error: ");
            append_execution_error_text(out, error);
            out.append(" }");
            assert(out@ =~= start + composition_execution_error_text(*e));
        },
    }
}

/// The message of a [`CompositionExecutionError`].
pub open spec fn composition_execution_error_message(e: CompositionExecutionError) -> Seq<char> {
    "kernel composition execution failed: "@ + composition_execution_error_text(e)
}

impl CompositionExecutionError {
    /// What went wrong, as text: "kernel composition execution failed: " followed by the error as its derived `Debug`
    /// writes it.
    pub fn message(&self) -> (m: String)
        ensures
            m@ == composition_execution_error_message(*self),
    {
        let mut m = String::new();
        m.append("kernel composition execution failed: ");
        append_composition_execution_error_text(&mut m, self);
        m
    }
}

/// The text of a [`CompositionDifferentiationError`], as its derived `Debug` writes it.
pub open spec fn composition_differentiation_error_text(e: CompositionDifferentiationError) -> Seq<char>

{
    match e {
        CompositionDifferentiationError::InvalidPrimal(a) => "InvalidPrimal("@ + composition_error_text(a) + ")"@,
        CompositionDifferentiationError::InvalidDerivative(a) => "InvalidDerivative("@ + composition_error_text(a) + ")"@,
        CompositionDifferentiationError::UnsupportedMode(a) => "UnsupportedMode("@ + mode_text(a) + ")"@,
        CompositionDifferentiationError::EmptyDependentSet => "EmptyDependentSet"@,
        CompositionDifferentiationError::DuplicateIndependent(a) => "DuplicateIndependent("@ + stage_operand_text(a) + ")"@,
        CompositionDifferentiationError::DuplicateDependent(a) => "DuplicateDependent("@ + stage_operand_text(a) + ")"@,
        CompositionDifferentiationError::InvalidIndependent(a) => "InvalidIndependent("@ + stage_operand_text(a) + ")"@,
        CompositionDifferentiationError::InvalidDependent(a) => "InvalidDependent("@ + stage_operand_text(a) + ")"@,
        CompositionDifferentiationError::IndependentNotReadable(a) => "IndependentNotReadable("@ + stage_operand_text(a) + ")"@,
        CompositionDifferentiationError::DependentNotWritten(a) => "DependentNotWritten("@ + stage_operand_text(a) + ")"@,
        CompositionDifferentiationError::SharedIndependent(a) => "SharedIndependent("@ + stage_operand_text(a) + ")"@,
        CompositionDifferentiationError::SharedDependent(a) => "SharedDependent("@ + stage_operand_text(a) + ")"@,
        CompositionDifferentiationError::IndependentUnreachable(a) => "IndependentUnreachable("@ + stage_operand_text(a) + ")"@,
        CompositionDifferentiationError::DependentUnreachable(a) => "DependentUnreachable("@ + stage_operand_text(a) + ")"@,
        CompositionDifferentiationError::Stage { stage, error } => "Stage { stage: "@ + decimal(stage as nat) + ", error: "@ + differentiation_error_text(error) + " }"@,
    }
}

fn append_composition_differentiation_error_text(out: &mut String, e: &CompositionDifferentiationError)
    ensures
        final(out)@ == old(out)@ + composition_differentiation_error_text(*e),
{
    let ghost start = out@;
    match e {
        CompositionDifferentiationError::InvalidPrimal(a) => {
            out.append("InvalidPrimal(");
            append_composition_error_text(out, a);
            out.append(")");
            assert(out@ =~= start + composition_differentiation_error_text(*e));
        },
        CompositionDifferentiationError::InvalidDerivative(a) => {
            out.append("InvalidDerivative(");
            append_composition_error_text(out, a);
            out.append(")");
            assert(out@ =~= start + composition_differentiation_error_text(*e));
        },
        CompositionDifferentiationError::UnsupportedMode(a) => {
            out.append("UnsupportedMode(");
            append_mode(out, *a);
            out.append(")");
            assert(out@ =~= start + composition_differentiation_error_text(*e));
        },
        CompositionDifferentiationError::EmptyDependentSet => {
            out.append("EmptyDependentSet");
            assert(out@ =~= start + composition_differentiation_error_text(*e));
        },
        CompositionDifferentiationError::DuplicateIndependent(a) => {
            out.append("DuplicateIndependent(");
            append_stage_operand(out, *a);
            out.append(")");
            assert(out@ =~= start + composition_differentiation_error_text(*e));
        },
        CompositionDifferentiationError::DuplicateDependent(a) => {
            out.append("DuplicateDependent(");
            append_stage_operand(out, *a);
            out.append(")");
            assert(out@ =~= start + composition_differentiation_error_text(*e));
        },
        CompositionDifferentiationError::InvalidIndependent(a) => {
            out.append("InvalidIndependent(");
            append_stage_operand(out, *a);
            out.append(")");
            assert(out@ =~= start + composition_differentiation_error_text(*e));
        },
        CompositionDifferentiationError::InvalidDependent(a) => {
            out.append("InvalidDependent(");
            append_stage_operand(out, *a);
            out.append(")");
            assert(out@ =~= start + composition_differentiation_error_text(*e));
        },
        CompositionDifferentiationError::IndependentNotReadable(a) => {
            out.append("IndependentNotReadable(");
            append_stage_operand(out, *a);
            out.append(")");
            assert(out@ =~= start + composition_differentiation_error_text(*e));
        },
        CompositionDifferentiationError::DependentNotWritten(a) => {
            out.append("DependentNotWritten(");
            append_stage_operand(out, *a);
            out.append(")");
            assert(out@ =~= start + composition_differentiation_error_text(*e));
        },
        CompositionDifferentiationError::SharedIndependent(a) => {
            out.append("SharedIndependent(");
            append_stage_operand(out, *a);
            out.append(")");
            assert(out@ =~= start + composition_differentiation_error_text(*e));
        },
        CompositionDifferentiationError::SharedDependent(a) => {
            out.append("SharedDependent(");
            append_stage_operand(out, *a);
            out.append(")");
            assert(out@ =~= start + composition_differentiation_error_text(*e));
        },
        CompositionDifferentiationError::IndependentUnreachable(a) => {
            out.append("IndependentUnreachable(");
            append_stage_operand(out, *a);
            out.append(")");
            assert(out@ =~= start + composition_differentiation_error_text(*e));
        },
        CompositionDifferentiationError::DependentUnreachable(a) => {
            out.append("DependentUnreachable(");
            append_stage_operand(out, *a);
            out.append(")");
            assert(out@ =~= start + composition_differentiation_error_text(*e));
        },
        CompositionDifferentiationError::Stage { stage, error } => {
            out.append("Stage { stage: ");
            append_decimal(out, *stage);
            out.append(", error: ");
            append_differentiation_error_text(out, error);
            out.append(" }");
            assert(out@ =~= start + composition_differentiation_error_text(*e));
        },
    }
}

/// The message of a [`CompositionDifferentiationError`].
pub open spec fn composition_differentiation_error_message(e: CompositionDifferentiationError) -> Seq<char> {
    "kernel composition differentiation failed: "@ + composition_differentiation_error_text(e)
}

impl CompositionDifferentiationError {
    /// What went wrong, as text: "kernel composition differentiation failed: " followed by the error as its derived `Debug`
    /// writes it.
    pub fn message(&self) -> (m: String)
        ensures
            m@ == composition_differentiation_error_message(*self),
    {
        let mut m = String::new();
        m.append("kernel composition differentiation failed: ");
        append_composition_differentiation_error_text(&mut m, self);
        m
    }
}

/// The text of a [`FacetPairError`], as its derived `Debug` writes it.
pub open spec fn facet_pair_error_text(e: FacetPairError) -> Seq<char>

{
    match e {
        FacetPairError::Kernel(a) => "Kernel("@ + validation_error_text(a) + ")"@,
        FacetPairError::RoleCount { expected, actual } => "RoleCount { expected: "@ + decimal(expected as nat) + ", actual: "@ + decimal(actual as nat) + " }"@,
        FacetPairError::MissingSide(a) => "MissingSide("@ + side_text(a) + ")"@,
        FacetPairError::InvalidPartner { operand, partner } => "InvalidPartner { operand: "@ + decimal(operand as nat) + ", partner: "@ + decimal(partner as nat) + " }"@,
        FacetPairError::SelfPartner(a) => "SelfPartner("@ + decimal(a as nat) + ")"@,
        FacetPairError::PartnerSide { operand, partner } => "PartnerSide { operand: "@ + decimal(operand as nat) + ", partner: "@ + decimal(partner as nat) + " }"@,
        FacetPairError::PartnerAsymmetric { operand, partner } => "PartnerAsymmetric { operand: "@ + decimal(operand as nat) + ", partner: "@ + decimal(partner as nat) + " }"@,
        FacetPairError::PartnerShape { operand, partner } => "PartnerShape { operand: "@ + decimal(operand as nat) + ", partner: "@ + decimal(partner as nat) + " }"@,
        FacetPairError::PartnerAccess { operand, partner } => "PartnerAccess { operand: "@ + decimal(operand as nat) + ", partner: "@ + decimal(partner as nat) + " }"@,
        FacetPairError::OddReduction(a) => "OddReduction("@ + decimal(a as nat) + ")"@,
    }
}

fn append_facet_pair_error_text(out: &mut String, e: &FacetPairError)
    ensures
        final(out)@ == old(out)@ + facet_pair_error_text(*e),
{
    let ghost start = out@;
    match e {
        FacetPairError::Kernel(a) => {
            out.append("Kernel(");
            append_validation_error_text(out, a);
            out.append(")");
            assert(out@ =~= start + facet_pair_error_text(*e));
        },
        FacetPairError::RoleCount { expected, actual } => {
            out.append("RoleCount { expected: ");
            append_decimal(out, *expected);
            out.append(", actual: ");
            append_decimal(out, *actual);
            out.append(" }");
            assert(out@ =~= start + facet_pair_error_text(*e));
        },
        FacetPairError::MissingSide(a) => {
            out.append("MissingSide(");
            append_side(out, *a);
            out.append(")");
            assert(out@ =~= start + facet_pair_error_text(*e));
        },
        FacetPairError::InvalidPartner { operand, partner } => {
            out.append("InvalidPartner { operand: ");
            append_decimal(out, *operand);
            out.append(", partner: ");
            append_decimal(out, *partner);
            out.append(" }");
            assert(out@ =~= start + facet_pair_error_text(*e));
        },
        FacetPairError::SelfPartner(a) => {
            out.append("SelfPartner(");
            append_decimal(out, *a);
            out.append(")");
            assert(out@ =~= start + facet_pair_error_text(*e));
        },
        FacetPairError::PartnerSide { operand, partner } => {
            out.append("PartnerSide { operand: ");
            append_decimal(out, *operand);
            out.append(", partner: ");
            append_decimal(out, *partner);
            out.append(" }");
            assert(out@ =~= start + facet_pair_error_text(*e));
        },
        FacetPairError::PartnerAsymmetric { operand, partner } => {
            out.append("PartnerAsymmetric { operand: ");
            append_decimal(out, *operand);
            out.append(", partner: ");
            append_decimal(out, *partner);
            out.append(" }");
            assert(out@ =~= start + facet_pair_error_text(*e));
        },
        FacetPairError::PartnerShape { operand, partner } => {
            out.append("PartnerShape { operand: ");
            append_decimal(out, *operand);
            out.append(", partner: ");
            append_decimal(out, *partner);
            out.append(" }");
            assert(out@ =~= start + facet_pair_error_text(*e));
        },
        FacetPairError::PartnerAccess { operand, partner } => {
            out.append("PartnerAccess { operand: ");
            append_decimal(out, *operand);
            out.append(", partner: ");
            append_decimal(out, *partner);
            out.append(" }");
            assert(out@ =~= start + facet_pair_error_text(*e));
        },
        FacetPairError::OddReduction(a) => {
            out.append("OddReduction(");
            append_decimal(out, *a);
            out.append(")");
            assert(out@ =~= start + facet_pair_error_text(*e));
        },
    }
}

/// The message of a [`FacetPairError`].
pub open spec fn facet_pair_error_message(e: FacetPairError) -> Seq<char> {
    "invalid facet-pair kernel: "@ + facet_pair_error_text(e)
}

impl FacetPairError {
    /// What went wrong, as text: "invalid facet-pair kernel: " followed by the error as its derived `Debug`
    /// writes it.
    pub fn message(&self) -> (m: String)
        ensures
            m@ == facet_pair_error_message(*self),
    {
        let mut m = String::new();
        m.append("invalid facet-pair kernel: ");
        append_facet_pair_error_text(&mut m, self);
        m
    }
}

/// The text of a [`FacetPairDifferentiationError`], as its derived `Debug` writes it.
pub open spec fn facet_pair_differentiation_error_text(e: FacetPairDifferentiationError) -> Seq<char>

{
    match e {
        FacetPairDifferentiationError::InvalidPrimal(a) => "InvalidPrimal("@ + facet_pair_error_text(a) + ")"@,
        FacetPairDifferentiationError::Differentiation(a) => "Differentiation("@ + differentiation_error_text(a) + ")"@,
        FacetPairDifferentiationError::InvalidDerivative(a) => "InvalidDerivative("@ + facet_pair_error_text(a) + ")"@,
    }
}

fn append_facet_pair_differentiation_error_text(out: &mut String, e: &FacetPairDifferentiationError)
    ensures
        final(out)@ == old(out)@ + facet_pair_differentiation_error_text(*e),
{
    let ghost start = out@;
    match e {
        FacetPairDifferentiationError::InvalidPrimal(a) => {
            out.append("InvalidPrimal(");
            append_facet_pair_error_text(out, a);
            out.append(")");
            assert(out@ =~= start + facet_pair_differentiation_error_text(*e));
        },
        FacetPairDifferentiationError::Differentiation(a) => {
            out.append("Differentiation(");
            append_differentiation_error_text(out, a);
            out.append(")");
            assert(out@ =~= start + facet_pair_differentiation_error_text(*e));
        },
        FacetPairDifferentiationError::InvalidDerivative(a) => {
            out.append("InvalidDerivative(");
            append_facet_pair_error_text(out, a);
            out.append(")");
            assert(out@ =~= start + facet_pair_differentiation_error_text(*e));
        },
    }
}

/// The message of a [`FacetPairDifferentiationError`].
pub open spec fn facet_pair_differentiation_error_message(e: FacetPairDifferentiationError) -> Seq<char> {
    "facet-pair differentiation failed: "@ + facet_pair_differentiation_error_text(e)
}

impl FacetPairDifferentiationError {
    /// What went wrong, as text: "facet-pair differentiation failed: " followed by the error as its derived `Debug`
    /// writes it.
    pub fn message(&self) -> (m: String)
        ensures
            m@ == facet_pair_differentiation_error_message(*self),
    {
        let mut m = String::new();
        m.append("facet-pair differentiation failed: ");
        append_facet_pair_differentiation_error_text(&mut m, self);
        m
    }
}

/// The text of a [`FacetSwapError`], as its derived `Debug` writes it.
pub open spec fn facet_swap_error_text(e: FacetSwapError) -> Seq<char>

{
    match e {
        FacetSwapError::UnpairedOperand(a) => "UnpairedOperand("@ + decimal(a as nat) + ")"@,
        FacetSwapError::BufferCount { expected, actual } => "BufferCount { expected: "@ + decimal(expected as nat) + ", actual: "@ + decimal(actual as nat) + " }"@,
        FacetSwapError::BufferLength(a) => "BufferLength("@ + decimal(a as nat) + ")"@,
        FacetSwapError::NonFinite(a) => "NonFinite("@ + decimal(a as nat) + ")"@,
        FacetSwapError::InvalidTolerance => "InvalidTolerance"@,
        FacetSwapError::Execution(a) => "Execution("@ + execution_error_text(a) + ")"@,
    }
}

fn append_facet_swap_error_text(out: &mut String, e: &FacetSwapError)
    ensures
        final(out)@ == old(out)@ + facet_swap_error_text(*e),
{
    let ghost start = out@;
    match e {
        FacetSwapError::UnpairedOperand(a) => {
            out.append("UnpairedOperand(");
            append_decimal(out, *a);
            out.append(")");
            assert(out@ =~= start + facet_swap_error_text(*e));
        },
        FacetSwapError::BufferCount { expected, actual } => {
            out.append("BufferCount { expected: ");
            append_decimal(out, *expected);
            out.append(", actual: ");
            append_decimal(out, *actual);
            out.append(" }");
            assert(out@ =~= start + facet_swap_error_text(*e));
        },
        FacetSwapError::BufferLength(a) => {
            out.append("BufferLength(");
            append_decimal(out, *a);
            out.append(")");
            assert(out@ =~= start + facet_swap_error_text(*e));
        },
        FacetSwapError::NonFinite(a) => {
            out.append("NonFinite(");
            append_decimal(out, *a);
            out.append(")");
            assert(out@ =~= start + facet_swap_error_text(*e));
        },
        FacetSwapError::InvalidTolerance => {
            out.append("InvalidTolerance");
            assert(out@ =~= start + facet_swap_error_text(*e));
        },
        FacetSwapError::Execution(a) => {
            out.append("Execution(");
            append_execution_error_text(out, a);
            out.append(")");
            assert(out@ =~= start + facet_swap_error_text(*e));
        },
    }
}

/// The message of a [`FacetSwapError`].
pub open spec fn facet_swap_error_message(e: FacetSwapError) -> Seq<char> {
    "facet swap check failed: "@ + facet_swap_error_text(e)
}

impl FacetSwapError {
    /// What went wrong, as text: "facet swap check failed: " followed by the error as its derived `Debug`
    /// writes it.
    pub fn message(&self) -> (m: String)
        ensures
            m@ == facet_swap_error_message(*self),
    {
        let mut m = String::new();
        m.append("facet swap check failed: ");
        append_facet_swap_error_text(&mut m, self);
        m
    }
}
/// The message of a [`CampaignError`]: the wrapped module or differentiation error's own
/// message, the refused case's reason, or the runner and what it reported.
pub open spec fn campaign_error_message(e: CampaignError) -> Seq<char> {
    match e {
        CampaignError::InvalidModule(v) => "invalid campaign module: "@ + validation_error_message(v),
        CampaignError::InvalidCase(m) => "invalid local campaign case: "@ + m@,
        CampaignError::Differentiation(d) => "local differential campaign failed: "@ + differentiation_error_message(d),
        CampaignError::Execution { runner, message } => "local executable runner "@ + runner@ + " failed: "@
            + message@,
        CampaignError::MutationNotApplicable => "numeric-policy mutation is not applicable"@,
    }
}

impl CampaignError {
    /// What went wrong, as text.
    pub fn message(&self) -> (m: String)
        ensures
            m@ == campaign_error_message(*self),
    {
        let mut m = String::new();
        match self {
            CampaignError::InvalidModule(v) => {
                m.append("invalid campaign module: ");
                let inner = v.message();
                m.append(inner.as_str());
            },
            CampaignError::InvalidCase(reason) => {
                m.append("invalid local campaign case: ");
                m.append(reason.as_str());
            },
            CampaignError::Differentiation(d) => {
                m.append("local differential campaign failed: ");
                let inner = d.message();
                m.append(inner.as_str());
            },
            CampaignError::Execution { runner, message } => {
                m.append("local executable runner ");
                m.append(runner.as_str());
                m.append(" failed: ");
                m.append(message.as_str());
            },
            CampaignError::MutationNotApplicable => {
                m.append("numeric-policy mutation is not applicable");
            },
        }
        m
    }
}

} // verus!
