use malleus::{
    case_requests, complete_cases, derivative_buffer_plan, plan_campaign, plan_mutation, StructuredModule, ValidationError, differentiate, invalid_case, BufferFill, DerivativeMode,
    DerivativeRequest, mutate_policy, mutation_executable, validate_case, validate_returned_buffers,
    validate_runner_identity, AccessMode, AxisId, CampaignError, CaseShape, VectorShape,
    IndexExpr, IndexingMap, IterationDomain, IteratorKind, KernelOperand, KernelRegion, NumericPolicy,
    NumericPolicyMutation, OperandId, ReductionOp, ReductionOrder, ScalarExpr, ScalarType, Statement,
    StructuredKernel, REFERENCE_IMPLEMENTATION,
};

fn sum_kernel(rank: usize) -> StructuredKernel {
    let extents = vec![2; rank];
    let axes: Vec<IndexExpr> = (0..rank).map(|axis| IndexExpr::axis(AxisId::new(axis))).collect();
    StructuredKernel {
        name: "sum".into(),
        iteration_domain: IterationDomain::new(extents.clone()),
        iterators: vec![IteratorKind::Reduction; rank],
        operands: vec![
            KernelOperand::tensor("input", extents, AccessMode::Read),
            KernelOperand::scalar("sum", AccessMode::Reduce(ReductionOp::Add)),
        ],
        indexing_maps: vec![IndexingMap::new(OperandId::new(0), axes), IndexingMap::scalar(OperandId::new(1))],
        body: KernelRegion {
            statements: vec![Statement::Store { operand: OperandId::new(1), value: ScalarExpr::Load(OperandId::new(0)) }],
        },
        numeric_policy: NumericPolicy::default(),
    }
}

#[test]
fn runner_identities_must_be_versioned_and_not_the_reference() {
    assert_eq!(validate_runner_identity("cuda-backend/2.1"), Ok(()));
    assert_eq!(validate_runner_identity("a/b/c"), Ok(()));
    let unversioned = invalid_case("runner identity must name a versioned implementation as implementation/version");
    for identity in ["anonymous-backend", "/v1", "backend/", "backend/ ", " backend/v1", "backend/v1\n", ""] {
        assert_eq!(validate_runner_identity(identity), Err(unversioned.clone()), "{identity:?}");
    }
    assert_eq!(
        validate_runner_identity(REFERENCE_IMPLEMENTATION),
        Err(invalid_case("the reference interpreter cannot be its own executable candidate"))
    );
}

#[test]
fn policy_mutations_apply_only_where_they_change_something() {
    let mut policy = NumericPolicy::default();
    assert_eq!(policy.scalar_type, ScalarType::F64);
    assert_eq!(mutate_policy(&mut policy, NumericPolicyMutation::PromoteF32ToF64), Err(CampaignError::MutationNotApplicable));
    assert_eq!(policy, NumericPolicy::default());
    assert_eq!(mutate_policy(&mut policy, NumericPolicyMutation::DemoteF64ToF32), Ok(()));
    assert_eq!(policy.scalar_type, ScalarType::F32);
    assert_eq!(mutate_policy(&mut policy, NumericPolicyMutation::DemoteF64ToF32), Err(CampaignError::MutationNotApplicable));
    assert_eq!(mutate_policy(&mut policy, NumericPolicyMutation::PromoteF32ToF64), Ok(()));
    assert_eq!(policy.scalar_type, ScalarType::F64);
    let order = policy.reduction_order;
    assert_eq!(mutate_policy(&mut policy, NumericPolicyMutation::ToggleReductionOrder), Ok(()));
    assert_ne!(policy.reduction_order, order);
    assert_eq!(mutate_policy(&mut policy, NumericPolicyMutation::ToggleReductionOrder), Ok(()));
    assert_eq!(policy.reduction_order, order);
}

#[test]
fn mutated_kernels_run_with_a_reversed_schedule_only_when_schedule_defined() {
    let canonical = mutation_executable(sum_kernel(2), true).unwrap();
    assert_eq!(canonical.schedule().loop_order, vec![AxisId::new(0), AxisId::new(1)]);
    let mut scheduled = sum_kernel(2);
    scheduled.numeric_policy.reduction_order = ReductionOrder::ScheduleDefined;
    let reversed = mutation_executable(scheduled.clone(), true).unwrap();
    assert_eq!(reversed.schedule().loop_order, vec![AxisId::new(1), AxisId::new(0)]);
    let plain = mutation_executable(scheduled, false).unwrap();
    assert_eq!(plain.schedule().loop_order, vec![AxisId::new(0), AxisId::new(1)]);
    let mut flat = sum_kernel(1);
    flat.numeric_policy.reduction_order = ReductionOrder::ScheduleDefined;
    assert_eq!(mutation_executable(flat, true).unwrap_err(), CampaignError::MutationNotApplicable);
    let mut invalid = sum_kernel(2);
    invalid.name = String::new();
    assert!(matches!(mutation_executable(invalid, true), Err(CampaignError::InvalidModule(_))));
}

fn vector(operand: usize, length: usize) -> VectorShape {
    VectorShape { operand: OperandId::new(operand), length, finite: true }
}

fn good_case() -> CaseShape {
    CaseShape {
        kernel: "sum".into(),
        step_valid: true,
        tolerance_valid: true,
        primal_lengths: vec![4, 1],
        primal_finite: vec![true, true],
        state_directions: vec![vector(0, 4)],
        parameter_directions: vec![],
        dependent_seeds: vec![vector(1, 1)],
    }
}

#[test]
fn campaign_cases_are_checked_against_their_kernel() {
    let kernel = sum_kernel(2);
    assert_eq!(validate_case(&kernel, &good_case()), Ok(()));
    let header = invalid_case("kernel, positive finite step, tolerance, and one primal buffer per operand are required");
    let mut case = good_case();
    case.kernel = "other".into();
    assert_eq!(validate_case(&kernel, &case), Err(header.clone()));
    let mut case = good_case();
    case.step_valid = false;
    assert_eq!(validate_case(&kernel, &case), Err(header.clone()));
    let mut case = good_case();
    case.primal_lengths = vec![4];
    case.primal_finite = vec![true];
    assert_eq!(validate_case(&kernel, &case), Err(header));
    let mut case = good_case();
    case.primal_lengths = vec![4, 0];
    assert_eq!(validate_case(&kernel, &case), Err(invalid_case("primal operand 1 has an invalid buffer")));
    let mut case = good_case();
    case.primal_finite = vec![false, true];
    assert_eq!(validate_case(&kernel, &case), Err(invalid_case("primal operand 0 has an invalid buffer")));
    let mut case = good_case();
    case.state_directions = vec![vector(7, 4)];
    assert_eq!(validate_case(&kernel, &case), Err(invalid_case("state direction references an invalid operand")));
    let mut case = good_case();
    case.state_directions = vec![vector(1, 1)];
    assert_eq!(validate_case(&kernel, &case), Err(invalid_case("state direction is invalid or duplicated")));
    let mut case = good_case();
    case.state_directions = vec![vector(0, 4), vector(0, 4)];
    assert_eq!(validate_case(&kernel, &case), Err(invalid_case("state direction is invalid or duplicated")));
    let mut case = good_case();
    case.state_directions = vec![vector(0, 3)];
    assert_eq!(validate_case(&kernel, &case), Err(invalid_case("state direction is invalid or duplicated")));
    let mut case = good_case();
    case.state_directions = vec![];
    assert_eq!(validate_case(&kernel, &case), Err(invalid_case("at least one state or parameter direction is required")));
    let mut case = good_case();
    case.state_directions = vec![];
    case.parameter_directions = vec![vector(0, 4)];
    assert_eq!(validate_case(&kernel, &case), Ok(()));
    let mut case = good_case();
    case.parameter_directions = vec![vector(0, 4)];
    assert_eq!(validate_case(&kernel, &case), Err(invalid_case("state and parameter direction operands must be disjoint")));
    let mut case = good_case();
    case.dependent_seeds = vec![];
    assert_eq!(
        validate_case(&kernel, &case),
        Err(invalid_case("dependent seeds must cover every writable operand exactly once"))
    );
    let mut case = good_case();
    case.dependent_seeds = vec![vector(0, 4)];
    assert_eq!(validate_case(&kernel, &case), Err(invalid_case("dependent seed is invalid or duplicated")));
}

#[test]
fn every_kernel_gets_exactly_one_case() {
    let names = |list: &[&str]| list.iter().map(|name| name.to_string()).collect::<Vec<_>>();
    assert_eq!(complete_cases(&names(&["a", "b"]), &names(&["b", "a"])), Ok(vec![1, 0]));
    assert_eq!(complete_cases(&names(&[]), &names(&[])), Ok(vec![]));
    let unique = invalid_case("case kernel names must be nonempty and unique");
    assert_eq!(complete_cases(&names(&["a"]), &names(&["a", "a"])), Err(unique.clone()));
    assert_eq!(complete_cases(&names(&["a"]), &names(&[" "])), Err(unique));
    let cover = invalid_case("campaign cases must cover every module kernel exactly once");
    assert_eq!(complete_cases(&names(&["a", "b"]), &names(&["a"])), Err(cover.clone()));
    assert_eq!(complete_cases(&names(&["a"]), &names(&["a", "c"])), Err(cover));
}

#[test]
fn runners_must_hand_back_every_buffer_whole() {
    let kernel = sum_kernel(2);
    assert_eq!(validate_returned_buffers(&kernel, &vec![4, 1]), Ok(()));
    assert_eq!(validate_returned_buffers(&kernel, &vec![9, 3]), Ok(()));
    assert_eq!(validate_returned_buffers(&kernel, &vec![4]), Err("runner changed the operand-buffer count".to_string()));
    assert_eq!(validate_returned_buffers(&kernel, &vec![4, 0]), Err("runner shortened operand buffer 1".to_string()));
    assert_eq!(validate_returned_buffers(&kernel, &vec![3, 1]), Err("runner shortened operand buffer 0".to_string()));
}

#[test]
fn derivative_buffers_start_from_primal_values_and_case_vectors() {
    let kernel = sum_kernel(2);
    let request = |mode| DerivativeRequest {
        mode,
        independent_operands: vec![OperandId::new(0)],
        dependent_operands: vec![OperandId::new(1)],
    };
    let jvp = differentiate(&kernel, &request(DerivativeMode::Jvp)).unwrap();
    assert_eq!(
        derivative_buffer_plan(&kernel, &jvp, &vec![OperandId::new(0)], &vec![OperandId::new(1)]),
        Ok(vec![BufferFill::Primal(0), BufferFill::Independent(0), BufferFill::Zero])
    );
    assert_eq!(
        derivative_buffer_plan(&kernel, &jvp, &vec![OperandId::new(1), OperandId::new(0), OperandId::new(0)], &vec![]),
        Ok(vec![BufferFill::Primal(0), BufferFill::Independent(1), BufferFill::Zero])
    );
    assert_eq!(
        derivative_buffer_plan(&kernel, &jvp, &vec![], &vec![OperandId::new(1)]),
        Err(invalid_case("missing derivative independent vector"))
    );
    let vjp = differentiate(&kernel, &request(DerivativeMode::Vjp)).unwrap();
    assert_eq!(
        derivative_buffer_plan(&kernel, &vjp, &vec![], &vec![OperandId::new(1)]),
        Ok(vec![BufferFill::Primal(0), BufferFill::Dependent(0), BufferFill::Zero])
    );
    assert_eq!(
        derivative_buffer_plan(&kernel, &vjp, &vec![OperandId::new(0)], &vec![]),
        Err(invalid_case("missing VJP dependent seed"))
    );
}

#[test]
fn campaigns_need_a_valid_nonempty_module_a_candidate_runner_and_one_case_per_kernel() {
    let module = |kernels: Vec<StructuredKernel>| StructuredModule { name: "fixture".into(), kernels };
    let names = |list: &[&str]| list.iter().map(|name| name.to_string()).collect::<Vec<_>>();
    let mut second = sum_kernel(1);
    second.name = "second".into();
    let (validated, chosen) =
        plan_campaign(module(vec![sum_kernel(2), second.clone()]), "cpu/1", &names(&["second", "sum"])).unwrap();
    assert_eq!(validated.name(), "fixture");
    assert_eq!(validated.kernels().len(), 2);
    assert_eq!(chosen, vec![1, 0]);
    let mut unnamed = module(vec![sum_kernel(2)]);
    unnamed.name = " ".into();
    assert_eq!(
        plan_campaign(unnamed, "cpu/1", &names(&["sum"])).unwrap_err(),
        CampaignError::InvalidModule(ValidationError::EmptyName)
    );
    assert_eq!(
        plan_campaign(module(vec![]), "cpu/1", &names(&[])).unwrap_err(),
        invalid_case("campaign module must contain at least one kernel")
    );
    assert_eq!(
        plan_campaign(module(vec![sum_kernel(2)]), REFERENCE_IMPLEMENTATION, &names(&["sum"])).unwrap_err(),
        invalid_case("the reference interpreter cannot be its own executable candidate")
    );
    assert_eq!(
        plan_campaign(module(vec![sum_kernel(2), second]), "cpu/1", &names(&["sum"])).unwrap_err(),
        invalid_case("campaign cases must cover every module kernel exactly once")
    );
}

#[test]
fn mutation_checks_run_the_named_kernel_before_and_after_its_mutation() {
    let module = |kernel: StructuredKernel| StructuredModule { name: "fixture".into(), kernels: vec![kernel] };
    let (baseline, mutated) =
        plan_mutation(module(sum_kernel(2)), &good_case(), NumericPolicyMutation::ToggleReductionOrder).unwrap();
    assert_eq!(baseline.kernel().as_kernel(), &sum_kernel(2));
    assert_eq!(baseline.schedule().loop_order, vec![AxisId::new(0), AxisId::new(1)]);
    assert_eq!(mutated.kernel().as_kernel().numeric_policy.reduction_order, ReductionOrder::ScheduleDefined);
    assert_eq!(mutated.schedule().loop_order, vec![AxisId::new(1), AxisId::new(0)]);
    let (baseline, mutated) =
        plan_mutation(module(sum_kernel(2)), &good_case(), NumericPolicyMutation::DemoteF64ToF32).unwrap();
    assert_eq!(baseline.kernel().as_kernel().numeric_policy.scalar_type, ScalarType::F64);
    assert_eq!(mutated.kernel().as_kernel().numeric_policy.scalar_type, ScalarType::F32);
    assert_eq!(mutated.schedule().loop_order, vec![AxisId::new(0), AxisId::new(1)]);
    assert_eq!(
        plan_mutation(module(sum_kernel(2)), &good_case(), NumericPolicyMutation::PromoteF32ToF64).unwrap_err(),
        CampaignError::MutationNotApplicable
    );
    let mut other = good_case();
    other.kernel = "other".into();
    assert_eq!(
        plan_mutation(module(sum_kernel(2)), &other, NumericPolicyMutation::DemoteF64ToF32).unwrap_err(),
        invalid_case("mutation case references an unknown kernel")
    );
    let mut flat_case = good_case();
    flat_case.primal_lengths = vec![2, 1];
    flat_case.state_directions = vec![vector(0, 2)];
    assert_eq!(
        plan_mutation(module(sum_kernel(1)), &flat_case, NumericPolicyMutation::ToggleReductionOrder).unwrap_err(),
        CampaignError::MutationNotApplicable
    );
    let mut invalid_case_shape = good_case();
    invalid_case_shape.step_valid = false;
    assert!(matches!(
        plan_mutation(module(sum_kernel(2)), &invalid_case_shape, NumericPolicyMutation::DemoteF64ToF32),
        Err(CampaignError::InvalidCase(_))
    ));
}

#[test]
fn cases_are_checked_with_joint_and_parameter_only_requests() {
    let mut case = good_case();
    case.state_directions = vec![vector(0, 4)];
    case.parameter_directions = vec![vector(2, 1)];
    case.dependent_seeds = vec![vector(1, 1)];
    let (jvp, vjp, parameter) = case_requests(&case);
    assert_eq!(jvp.mode, DerivativeMode::Jvp);
    assert_eq!(jvp.independent_operands, vec![OperandId::new(0), OperandId::new(2)]);
    assert_eq!(jvp.dependent_operands, vec![OperandId::new(1)]);
    assert_eq!(vjp.mode, DerivativeMode::Vjp);
    assert_eq!(vjp.independent_operands, jvp.independent_operands);
    assert_eq!(vjp.dependent_operands, jvp.dependent_operands);
    let parameter = parameter.unwrap();
    assert_eq!(parameter.mode, DerivativeMode::Jvp);
    assert_eq!(parameter.independent_operands, vec![OperandId::new(2)]);
    assert_eq!(parameter.dependent_operands, vec![OperandId::new(1)]);
    case.parameter_directions = vec![];
    assert!(case_requests(&case).2.is_none());
}
