use malleus::{
    CampaignError, CompositionDifferentiationError, CompositionError, CompositionExecutionError, CompositionTarget,
    DerivativeMode, DifferentiationError, ExecutableError, ExecutionError, FacetPairDifferentiationError,
    FacetPairError, FacetSide, FacetSwapError, OperandId, StageOperand, ValidationError, VariationalAuditError,
    MALLEUS_FORM_AUDIT_V2_SCHEMA,
};

#[test]
fn error_messages_name_what_failed_and_show_the_error() {
    let quoted = ValidationError::DuplicateOperandName("a\"b\\c".into());
    assert_eq!(quoted.message(), format!("invalid structured kernel: {quoted:?}"));
    assert_eq!(quoted.message(), "invalid structured kernel: DuplicateOperandName(\"a\\\"b\\\\c\")");
    let rank = ValidationError::IndexRank { operand: 1, expected: 2, actual: 30 };
    assert_eq!(rank.message(), "invalid structured kernel: IndexRank { operand: 1, expected: 2, actual: 30 }");
    assert_eq!(ExecutionError::MissingBinding(4).message(), "kernel execution failed: MissingBinding(4)");
    assert_eq!(ExecutableError::InvalidTileSize.message(), "invalid kernel schedule: InvalidTileSize");
    let differentiation = DifferentiationError::InvalidPrimal(ValidationError::EmptyName);
    assert_eq!(differentiation.message(), "structured differentiation failed: InvalidPrimal(EmptyName)");
    assert_eq!(
        DifferentiationError::UnsupportedMode(DerivativeMode::Jacobian).message(),
        format!("structured differentiation failed: {:?}", DifferentiationError::UnsupportedMode(DerivativeMode::Jacobian))
    );
    let member = StageOperand::new(1, OperandId::new(2));
    let composition = CompositionError::WriterAfterReader { buffer: 0, writer: member, reader: StageOperand::new(0, OperandId::new(7)) };
    assert_eq!(composition.message(), format!("invalid kernel composition: {composition:?}"));
    let stage = CompositionError::InvalidStage { stage: 3, error: ValidationError::DuplicateKernelName("k é".into()) };
    assert_eq!(stage.message(), format!("invalid kernel composition: {stage:?}"));
    for error in [
        CompositionExecutionError::DuplicateBinding(CompositionTarget::Operand(member)),
        CompositionExecutionError::InvalidBinding(CompositionTarget::Shared(5)),
        CompositionExecutionError::Stage { stage: 2, error: ExecutionError::InvalidIndex(9) },
    ] {
        assert_eq!(error.message(), format!("kernel composition execution failed: {error:?}"));
    }
    let composed = CompositionDifferentiationError::Stage { stage: 1, error: differentiation.clone() };
    assert_eq!(composed.message(), format!("kernel composition differentiation failed: {composed:?}"));
    let facet = FacetPairError::MissingSide(FacetSide::Plus);
    assert_eq!(facet.message(), "invalid facet-pair kernel: MissingSide(Plus)");
    let facet_derivative = FacetPairDifferentiationError::InvalidDerivative(FacetPairError::PartnerShape { operand: 1, partner: 2 });
    assert_eq!(facet_derivative.message(), format!("facet-pair differentiation failed: {facet_derivative:?}"));
    let swap = FacetSwapError::Execution(ExecutionError::DuplicateBinding(0));
    assert_eq!(swap.message(), "facet swap check failed: Execution(DuplicateBinding(0))");
}

#[test]
fn campaign_messages_wrap_the_messages_of_what_they_carry() {
    assert_eq!(
        CampaignError::InvalidModule(ValidationError::EmptyName).message(),
        "invalid campaign module: invalid structured kernel: EmptyName"
    );
    assert_eq!(CampaignError::InvalidCase("no seeds".into()).message(), "invalid local campaign case: no seeds");
    assert_eq!(
        CampaignError::Differentiation(DifferentiationError::EmptyDependentSet).message(),
        "local differential campaign failed: structured differentiation failed: EmptyDependentSet"
    );
    assert_eq!(
        CampaignError::Execution { runner: "cpu/1".into(), message: "refused".into() }.message(),
        "local executable runner cpu/1 failed: refused"
    );
    assert_eq!(CampaignError::MutationNotApplicable.message(), "numeric-policy mutation is not applicable");
}

#[test]
fn refused_form_artifacts_carry_a_stable_code() {
    let error = VariationalAuditError::InvalidArtifact { resolvent_code: "FORM-ARTIFACT-001".into(), detail: "tampered".into() };
    assert_eq!(error.code(), "MAL-FORM-001");
    assert_eq!(error.message(), "[MAL-FORM-001] invalid Resolvent V2 artifact (FORM-ARTIFACT-001): tampered");
    assert_eq!(MALLEUS_FORM_AUDIT_V2_SCHEMA, "malleus-variational-form-audit/2");
}
