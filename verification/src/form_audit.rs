//! The audit boundary for variational-form artifacts: the local capabilities a form's
//! integrals require of later kernel generation, and the error an invalid artifact is refused
//! with. Reading and verifying artifacts belongs to the form's own tooling.
use vstd::prelude::*;

verus! {

/// Schema of a variational-form audit.
pub const MALLEUS_FORM_AUDIT_V2_SCHEMA: &'static str = "malleus-variational-form-audit/2";

/// A local capability that kernels generated from a variational form must provide.
#[derive(Clone, Copy, Debug, PartialEq, Eq, PartialOrd, Ord, Hash, Structural)]
pub enum LocalKernelRequirementV2 {
    ScalarArithmetic,
    ArgumentLoad,
    CoefficientLoad,
    ConstantLoad,
    ScientificScalarCall,
    Gradient,
    TimeDerivative,
    Dot,
    SesquilinearInner,
    TypedContraction,
    Conjugation,
    Transpose,
    HermitianTranspose,
    TraceRestriction,
    FacetOrInterfaceAccess,
    ComplexArithmetic,
    TensorAxes,
}

/// Whether structured kernels were generated for an audited form: so far generation is
/// deferred, with the first stage that would produce them and the reason.
#[derive(Clone, Debug, PartialEq, Eq)]
pub enum StructuredKernelGenerationV2 {
    Deferred { first_stage: String, reason: String },
}

/// The audit of one integral of a form: its label, its measure, and the capabilities its
/// integrand requires.
#[derive(Clone, Debug, PartialEq, Eq)]
pub struct IntegralKernelAuditV2 {
    pub label: String,
    pub measure: String,
    pub requirements: Vec<LocalKernelRequirementV2>,
}

/// Why a variational-form artifact was refused.
#[derive(Clone, Debug, PartialEq, Eq)]
pub enum VariationalAuditError {
    InvalidArtifact { resolvent_code: String, detail: String },
}

impl VariationalAuditError {
    /// The stable diagnostic code of the refusal.
    pub fn code(&self) -> (code: &'static str)
        ensures
            code@ == "MAL-FORM-001"@,
    {
        match self {
            VariationalAuditError::InvalidArtifact { .. } => "MAL-FORM-001",
        }
    }

    /// What went wrong, as text: the code, the artifact's own diagnostic code, and the detail.
    pub fn message(&self) -> (m: String)
        ensures
            m@ == match *self {
                VariationalAuditError::InvalidArtifact { resolvent_code, detail } => "[MAL-FORM-001] invalid Resolvent V2 artifact ("@
                    + resolvent_code@ + "): "@ + detail@,
            },
    {
        match self {
            VariationalAuditError::InvalidArtifact { resolvent_code, detail } => {
                let mut m = String::new();
                m.append("[MAL-FORM-001] invalid Resolvent V2 artifact (");
                m.append(resolvent_code.as_str());
                m.append("): ");
                m.append(detail.as_str());
                m
            },
        }
    }
}

} // verus!
