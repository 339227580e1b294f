//! Structured compilation contracts for finite-precision local kernels.
//!
//! Malleus begins at a local iteration domain and ends at a scheduled executable. It
//! deliberately has no model language, mesh, global assembly, or solver-policy surface.
//! Frontends lower their typed local mathematics into a `StructuredKernel`; backends consume
//! the validated, schedule-bearing `Executable`.
//!
//! Two structured objects sit beside single kernels without changing them: a
//! `KernelComposition` binds one kernel's output buffer to another kernel's input operand at
//! execution time, and a `FacetPairKernel` gives a point kernel evaluated on an interior or
//! interface facet a side role for every operand. Both carry deterministic digests built from
//! the verbatim kernel digests.
pub mod ir;
pub mod validate;
pub mod dependency;
pub mod executable;
pub mod derivative_rules;
pub mod differentiate;
pub mod interpreter;
pub mod facet;
pub mod compose;
pub mod compose_derivative;
pub mod digest;
pub mod campaign;
pub mod scientific;
pub mod messages;
pub mod form_audit;

pub use campaign::{
    case_requests, complete_cases, derivative_buffer_plan, invalid_case, mutate_policy, mutation_executable, plan_campaign,
    plan_mutation, validate_case, validate_returned_buffers, validate_runner_identity, BufferFill, CampaignError,
    CaseShape, LocalCheckKind, NumericPolicyMutation, VectorShape, REFERENCE_IMPLEMENTATION,
};
pub use compose::{
    plan_bindings, validate_composition, BufferSource, CompositionError, CompositionExecutionError,
    CompositionTarget, ExecutableComposition, KernelComposition, SharedBuffer, SharedBufferPlan, StageOperand,
    ValidatedComposition, KERNEL_COMPOSITION_SCHEMA,
};
pub use compose_derivative::{
    differentiate_composition, CompositionDerivativeOperand, CompositionDerivativeProduct,
    CompositionDerivativeRequest, CompositionDerivativeStage, CompositionDifferentiationError,
    CompositionPrimalStage,
};
pub use dependency::primal_output_reads_input;
pub use differentiate::{differentiate, DifferentiationError};
pub use digest::{
    composition_digest, facet_pair_digest, kernel_digest, module_digest, Digest, KERNEL_DIGEST_SCHEMA,
    MODULE_DIGEST_SCHEMA,
};
pub use executable::{
    Executable, ExecutableError, ExecutableModule, KernelSchedule, ParallelMapping, TileDecision,
    VectorizationPlan,
};
pub use facet::{
    check_swap_buffers, differentiate_facet_pair, swap_plan, validate_facet_pair, FacetOperandRole,
    FacetPairDerivativeProduct, FacetPairDifferentiationError, FacetPairError, FacetPairKernel, FacetSide,
    FacetSwapError, SwapParity, ValidatedFacetPairKernel, FACET_NORMAL_CONVENTION, FACET_PAIR_KERNEL_SCHEMA,
};
pub use interpreter::{
    advance, check_bindings, element_index, has_points, loop_nest, offset, ExecutionError, Interpreter,
};
pub use ir::{
    AccessMode, AxisId, BinaryOp, BufferRegion, CompareOp, DenseLayout, DerivativeMode,
    DerivativeOperand, DerivativeProduct, DerivativeRequest, FmaPolicy, IndexExpr, IndexTerm,
    IndexingMap, IterationDomain, IteratorKind, KernelOperand, KernelRegion, LocalId,
    NumericPolicy, OperandId, Predicate, Reassociation, ReductionOp, ReductionOrder, ScalarExpr,
    ScalarType, Statement, StructuredKernel, StructuredModule, UnaryOp,
};
pub use scientific::{
    shared_evaluations, ConstitutiveKernelContract, ElementKernelContract, GuardPolicy, KernelBlockId,
    LocalBinding, LocalInputKind,
};
pub use validate::{validate, validate_module, ValidatedKernel, ValidatedModule, ValidationError};
pub use form_audit::{
    IntegralKernelAuditV2, LocalKernelRequirementV2, StructuredKernelGenerationV2, VariationalAuditError,
    MALLEUS_FORM_AUDIT_V2_SCHEMA,
};
