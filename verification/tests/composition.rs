//! Kernel-level bind chains: a producer kernel's output buffer feeds a consumer kernel's input
//! operand at execution time, with derivatives composed from per-stage products.

use malleus::{
    composition_digest, differentiate, differentiate_composition, kernel_digest, DerivativeRequest, plan_bindings, validate_composition, AccessMode,
    AxisId, BinaryOp, BufferSource, CompositionDerivativeRequest, CompositionDifferentiationError, CompositionError,
    CompositionExecutionError, CompositionTarget, DerivativeMode, ExecutableComposition, IndexExpr, IndexingMap,
    IterationDomain, IteratorKind, KernelComposition, KernelOperand, KernelRegion, NumericPolicy, OperandId,
    ReductionOp, ScalarExpr, SharedBuffer, StageOperand, Statement, StructuredKernel,
};

const DIM: usize = 2;
const TESTS: usize = 3;

fn op(index: usize) -> OperandId {
    OperandId::new(index)
}

fn load(index: usize) -> ScalarExpr {
    ScalarExpr::Load(op(index))
}

fn mul(lhs: ScalarExpr, rhs: ScalarExpr) -> ScalarExpr {
    ScalarExpr::binary(BinaryOp::Mul, lhs, rhs)
}

fn add(lhs: ScalarExpr, rhs: ScalarExpr) -> ScalarExpr {
    ScalarExpr::binary(BinaryOp::Add, lhs, rhs)
}

/// `sigma * dot(g, g)` reduced over the gradient axis: the shape of a `joule_heat` output
/// kernel of a producer model. Operands: 0 `sigma` (scalar), 1 `g` [DIM], 2 `q` (reduce add).
fn producer_kernel() -> StructuredKernel {
    let axis = AxisId::new(0);
    StructuredKernel {
        name: "producer::joule".into(),
        iteration_domain: IterationDomain::new(vec![DIM]),
        iterators: vec![IteratorKind::Reduction],
        operands: vec![
            KernelOperand::scalar("sigma", AccessMode::Read),
            KernelOperand::tensor("g", vec![DIM], AccessMode::Read),
            KernelOperand::scalar("q", AccessMode::Reduce(ReductionOp::Add)),
        ],
        indexing_maps: vec![
            IndexingMap::scalar(op(0)),
            IndexingMap::new(op(1), vec![IndexExpr::axis(axis)]),
            IndexingMap::scalar(op(2)),
        ],
        body: KernelRegion {
            statements: vec![Statement::Store {
                operand: op(2),
                value: mul(load(0), mul(load(1), load(1))),
            }],
        },
        numeric_policy: NumericPolicy::default(),
    }
}

/// `r[i] = (rho * u + q) * v[i]` over test index `i`: a consumer residual kernel whose bound
/// input `q` is an opaque external scalar. Operands: 0 `rho`, 1 `u`, 2 `q`, 3 `v` [TESTS],
/// 4 `r` [TESTS] (write).
fn consumer_kernel() -> StructuredKernel {
    let axis = AxisId::new(0);
    StructuredKernel {
        name: "consumer::energy".into(),
        iteration_domain: IterationDomain::new(vec![TESTS]),
        iterators: vec![IteratorKind::Parallel],
        operands: vec![
            KernelOperand::scalar("rho", AccessMode::Read),
            KernelOperand::scalar("u", AccessMode::Read),
            KernelOperand::scalar("q", AccessMode::Read),
            KernelOperand::tensor("v", vec![TESTS], AccessMode::Read),
            KernelOperand::tensor("r", vec![TESTS], AccessMode::Write),
        ],
        indexing_maps: vec![
            IndexingMap::scalar(op(0)),
            IndexingMap::scalar(op(1)),
            IndexingMap::scalar(op(2)),
            IndexingMap::new(op(3), vec![IndexExpr::axis(axis)]),
            IndexingMap::new(op(4), vec![IndexExpr::axis(axis)]),
        ],
        body: KernelRegion {
            statements: vec![Statement::Store {
                operand: op(4),
                value: mul(add(mul(load(0), load(1)), load(2)), load(3)),
            }],
        },
        numeric_policy: NumericPolicy::default(),
    }
}

fn composition() -> KernelComposition {
    KernelComposition {
        name: "bound-energy".into(),
        stages: vec![producer_kernel(), consumer_kernel()],
        shared_buffers: vec![SharedBuffer::bind(
            StageOperand::new(0, op(2)),
            StageOperand::new(1, op(2)),
        )],
    }
}

#[test]
fn composition_refusals_are_typed() {
    let mut reversed = composition();
    reversed.stages.reverse();
    reversed.shared_buffers = vec![SharedBuffer::bind(
        StageOperand::new(1, op(2)),
        StageOperand::new(0, op(2)),
    )];
    assert_eq!(
        validate_composition(reversed).unwrap_err(),
        CompositionError::WriterAfterReader {
            buffer: 0,
            writer: StageOperand::new(1, op(2)),
            reader: StageOperand::new(0, op(2)),
        }
    );
    let mut mismatched = composition();
    mismatched.shared_buffers = vec![SharedBuffer::bind(
        StageOperand::new(0, op(2)),
        StageOperand::new(1, op(3)),
    )];
    assert_eq!(
        validate_composition(mismatched).unwrap_err(),
        CompositionError::MemberShape {
            buffer: 0,
            member: StageOperand::new(1, op(3)),
        }
    );
    let mut readers_only = composition();
    readers_only.shared_buffers = vec![SharedBuffer::bind(
        StageOperand::new(0, op(0)),
        StageOperand::new(1, op(0)),
    )];
    assert_eq!(
        validate_composition(readers_only).unwrap_err(),
        CompositionError::NoWriter(0)
    );
    assert_eq!(
        differentiate_composition(
            &composition(),
            &CompositionDerivativeRequest {
                mode: DerivativeMode::Jvp,
                independent_operands: vec![StageOperand::new(1, op(2))],
                dependent_operands: vec![StageOperand::new(1, op(4))],
            },
        )
        .unwrap_err(),
        CompositionDifferentiationError::SharedIndependent(StageOperand::new(1, op(2)))
    );
    assert_eq!(
        differentiate_composition(
            &composition(),
            &CompositionDerivativeRequest {
                mode: DerivativeMode::Jvp,
                independent_operands: vec![StageOperand::new(1, op(0))],
                dependent_operands: vec![StageOperand::new(0, op(2))],
            },
        )
        .unwrap_err(),
        CompositionDifferentiationError::SharedDependent(StageOperand::new(0, op(2)))
    );
    // The consumer's own inputs do not reach a producer-only dependent.
    let mut with_probe = composition();
    with_probe.stages[0].operands.push(KernelOperand::scalar(
        "probe",
        AccessMode::Reduce(ReductionOp::Add),
    ));
    with_probe.stages[0]
        .indexing_maps
        .push(IndexingMap::scalar(op(3)));
    with_probe.stages[0].body.statements.push(Statement::Store {
        operand: op(3),
        value: load(0),
    });
    assert_eq!(
        differentiate_composition(
            &with_probe,
            &CompositionDerivativeRequest {
                mode: DerivativeMode::Jvp,
                independent_operands: vec![StageOperand::new(1, op(0))],
                dependent_operands: vec![StageOperand::new(0, op(3))],
            },
        )
        .unwrap_err(),
        CompositionDifferentiationError::IndependentUnreachable(StageOperand::new(1, op(0)))
    );
}

fn jvp_request() -> CompositionDerivativeRequest {
    CompositionDerivativeRequest {
        mode: DerivativeMode::Jvp,
        independent_operands: vec![StageOperand::new(0, op(1)), StageOperand::new(1, op(1))],
        dependent_operands: vec![StageOperand::new(1, op(4))],
    }
}

#[test]
fn validated_compositions_keep_their_stages_and_sharing() {
    let validated = validate_composition(composition()).unwrap();
    assert_eq!(validated.name(), "bound-energy");
    assert_eq!(validated.stages().len(), 2);
    assert_eq!(validated.stages()[0].as_kernel(), &producer_kernel());
    assert_eq!(validated.shared_buffer_of(StageOperand::new(1, op(2))), Some(0));
    assert_eq!(validated.shared_buffer_of(StageOperand::new(1, op(1))), None);
    assert_eq!(
        validated.shared_members(0),
        Some(&[StageOperand::new(0, op(2)), StageOperand::new(1, op(2))][..])
    );
    assert_eq!(validated.shared_members(1), None);
    assert_eq!(validated.shared_length(0), Some(1));
    assert_eq!(validated.into_composition(), composition());
}

#[test]
fn composition_validation_refuses_names_stages_and_members() {
    let mut unnamed = composition();
    unnamed.name = " \t".into();
    assert_eq!(validate_composition(unnamed).unwrap_err(), CompositionError::EmptyName);
    let mut empty = composition();
    empty.stages.clear();
    assert_eq!(validate_composition(empty).unwrap_err(), CompositionError::NoStages);
    let mut twins = composition();
    twins.stages[1].name = "producer::joule".into();
    assert_eq!(
        validate_composition(twins).unwrap_err(),
        CompositionError::DuplicateStageName("producer::joule".into())
    );
    let mut lonely = composition();
    lonely.shared_buffers = vec![SharedBuffer::new(vec![StageOperand::new(0, op(2))])];
    assert_eq!(validate_composition(lonely).unwrap_err(), CompositionError::TooFewMembers(0));
    let mut missing = composition();
    missing.shared_buffers = vec![SharedBuffer::bind(StageOperand::new(0, op(2)), StageOperand::new(7, op(2)))];
    assert_eq!(
        validate_composition(missing).unwrap_err(),
        CompositionError::InvalidMember { buffer: 0, member: StageOperand::new(7, op(2)) }
    );
    let mut repeated = composition();
    repeated.shared_buffers.push(SharedBuffer::bind(StageOperand::new(0, op(2)), StageOperand::new(1, op(0))));
    assert_eq!(
        validate_composition(repeated).unwrap_err(),
        CompositionError::DuplicateMember { buffer: 1, member: StageOperand::new(0, op(2)) }
    );
}

#[test]
fn binding_plans_route_shared_members_to_scratch_or_the_caller() {
    let executable = ExecutableComposition::reference(validate_composition(composition()).unwrap());
    let operand = |stage: usize, index: usize, len: usize| {
        (CompositionTarget::Operand(StageOperand::new(stage, op(index))), len)
    };
    let exposed = vec![
        operand(0, 0, 1),
        operand(0, 1, DIM),
        operand(1, 0, 1),
        operand(1, 1, 1),
        operand(1, 3, TESTS),
        operand(1, 4, TESTS),
    ];
    let plan = plan_bindings(&executable, &exposed).unwrap();
    assert_eq!(plan[0], vec![BufferSource::Caller(0), BufferSource::Caller(1), BufferSource::Scratch(0)]);
    assert_eq!(
        plan[1],
        vec![
            BufferSource::Caller(2),
            BufferSource::Caller(3),
            BufferSource::Scratch(0),
            BufferSource::Caller(4),
            BufferSource::Caller(5)
        ]
    );
    let mut observed = exposed.clone();
    observed.push((CompositionTarget::Shared(0), 1));
    let plan = plan_bindings(&executable, &observed).unwrap();
    assert_eq!(plan[0][2], BufferSource::Caller(6));
    assert_eq!(plan[1][2], BufferSource::Caller(6));

    let mut direct = exposed.clone();
    direct.insert(2, operand(0, 2, 1));
    assert_eq!(
        plan_bindings(&executable, &direct).unwrap_err(),
        CompositionExecutionError::SharedOperandBound(StageOperand::new(0, op(2)))
    );
    assert_eq!(
        plan_bindings(&executable, &vec![operand(0, 0, 1)]).unwrap_err(),
        CompositionExecutionError::MissingBinding(StageOperand::new(0, op(1)))
    );
    let mut twice = exposed.clone();
    twice.push(operand(1, 1, 1));
    assert_eq!(
        plan_bindings(&executable, &twice).unwrap_err(),
        CompositionExecutionError::DuplicateBinding(CompositionTarget::Operand(StageOperand::new(1, op(1))))
    );
    let mut short = exposed.clone();
    short[1] = operand(0, 1, 1);
    assert_eq!(
        plan_bindings(&executable, &short).unwrap_err(),
        CompositionExecutionError::InvalidBinding(CompositionTarget::Operand(StageOperand::new(0, op(1))))
    );
    let mut unknown = exposed.clone();
    unknown.push((CompositionTarget::Shared(3), 1));
    assert_eq!(
        plan_bindings(&executable, &unknown).unwrap_err(),
        CompositionExecutionError::InvalidBinding(CompositionTarget::Shared(3))
    );
}

#[test]
fn jvp_composition_reproduces_the_producer_verbatim_and_shares_its_tangent() {
    let product = differentiate_composition(&composition(), &jvp_request()).unwrap();
    assert_eq!(product.mode, DerivativeMode::Jvp);
    assert_eq!(product.composition.name, "bound-energy::jvp");
    assert_eq!(product.primal_stages.len(), 1);
    let reproduced = product.primal_stages[0];
    assert_eq!((reproduced.primal_stage, reproduced.stage), (0, 0));
    assert_eq!(product.composition.stages[reproduced.stage], producer_kernel());
    assert_eq!(product.derivative_stages.len(), 2);
    assert_eq!((product.derivative_stages[0].primal_stage, product.derivative_stages[0].stage), (0, 1));
    assert_eq!((product.derivative_stages[1].primal_stage, product.derivative_stages[1].stage), (1, 2));
    assert_eq!(product.composition.stages.len(), 3);
    assert_eq!(product.composition.stages[1].name, "producer::joule::jvp");
    assert_eq!(product.composition.stages[2].name, "consumer::energy::jvp");
    assert_eq!(product.independent_operands.len(), 2);
    assert_eq!(product.independent_operands[0].primal, StageOperand::new(0, op(1)));
    assert_eq!(product.independent_operands[0].derivative.stage, 1);
    assert_eq!(product.dependent_operands[0].primal, StageOperand::new(1, op(4)));
    assert_eq!(product.dependent_operands[0].derivative.stage, 2);
    validate_composition(product.composition.clone()).unwrap();
}

#[test]
fn vjp_composition_runs_derivative_stages_in_reverse() {
    let product = differentiate_composition(
        &composition(),
        &CompositionDerivativeRequest {
            mode: DerivativeMode::Vjp,
            independent_operands: vec![StageOperand::new(0, op(0))],
            dependent_operands: vec![StageOperand::new(1, op(4))],
        },
    )
    .unwrap();
    assert_eq!(product.composition.name, "bound-energy::vjp");
    let order: Vec<(usize, usize)> =
        product.derivative_stages.iter().map(|stage| (stage.primal_stage, stage.stage)).collect();
    assert_eq!(order, vec![(1, 1), (0, 2)]);
    assert_eq!(product.primal_stages.len(), 1);
    assert_eq!(product.composition.stages[0], producer_kernel());
}

#[test]
fn composition_differentiation_refuses_modes_and_requests() {
    let mut request = jvp_request();
    request.mode = DerivativeMode::Jacobian;
    assert_eq!(
        differentiate_composition(&composition(), &request).unwrap_err(),
        CompositionDifferentiationError::UnsupportedMode(DerivativeMode::Jacobian)
    );
    let mut request = jvp_request();
    request.dependent_operands.clear();
    assert_eq!(
        differentiate_composition(&composition(), &request).unwrap_err(),
        CompositionDifferentiationError::EmptyDependentSet
    );
    let mut request = jvp_request();
    request.independent_operands.push(StageOperand::new(0, op(1)));
    assert_eq!(
        differentiate_composition(&composition(), &request).unwrap_err(),
        CompositionDifferentiationError::DuplicateIndependent(StageOperand::new(0, op(1)))
    );
    let mut request = jvp_request();
    request.independent_operands = vec![StageOperand::new(1, op(4))];
    assert_eq!(
        differentiate_composition(&composition(), &request).unwrap_err(),
        CompositionDifferentiationError::IndependentNotReadable(StageOperand::new(1, op(4)))
    );
    let mut request = jvp_request();
    request.dependent_operands = vec![StageOperand::new(1, op(0))];
    assert_eq!(
        differentiate_composition(&composition(), &request).unwrap_err(),
        CompositionDifferentiationError::DependentNotWritten(StageOperand::new(1, op(0)))
    );
    let mut request = jvp_request();
    request.dependent_operands = vec![StageOperand::new(9, op(0))];
    assert_eq!(
        differentiate_composition(&composition(), &request).unwrap_err(),
        CompositionDifferentiationError::InvalidDependent(StageOperand::new(9, op(0)))
    );
    let mut invalid = composition();
    invalid.name = String::new();
    assert_eq!(
        differentiate_composition(&invalid, &jvp_request()).unwrap_err(),
        CompositionDifferentiationError::InvalidPrimal(CompositionError::EmptyName)
    );
}

#[test]
fn composition_digest_covers_name_and_sharing_and_keeps_stage_digests() {
    let stage_texts = vec!["{\"name\":\"producer\"}".to_string(), "{\"name\":\"consumer\"}".to_string()];
    let composed = composition();
    let digest = composition_digest(&composed, &stage_texts);
    assert_eq!(digest, composition_digest(&composed.clone(), &stage_texts));
    let mut renamed = composed.clone();
    renamed.name = "other".into();
    assert_ne!(composition_digest(&renamed, &stage_texts), digest);
    let mut rebound = composed.clone();
    rebound.shared_buffers[0].members.reverse();
    assert_ne!(composition_digest(&rebound, &stage_texts), digest);
    assert_eq!(digest.algorithm, "blake3");
    assert_eq!(digest.hex.len(), 64);
    let producer = kernel_digest(&stage_texts[0]);
    let consumer = kernel_digest(&stage_texts[1]);
    let expected = format!(
        "{{\"schema\":\"malleus-kernel-composition/1\",\"name\":\"bound-energy\",\"stages\":[{{\"algorithm\":\"blake3\",\"hex\":\"{}\"}},{{\"algorithm\":\"blake3\",\"hex\":\"{}\"}}],\"shared_buffers\":[{{\"members\":[{{\"stage\":0,\"operand\":2}},{{\"stage\":1,\"operand\":2}}]}}]}}",
        producer.hex, consumer.hex
    );
    assert_eq!(digest, malleus::Digest::blake3(expected.as_bytes()));
}

#[test]
fn derivative_stages_are_the_per_stage_products() {
    let product = differentiate_composition(&composition(), &jvp_request()).unwrap();
    let producer = differentiate(
        &producer_kernel(),
        &DerivativeRequest { mode: DerivativeMode::Jvp, independent_operands: vec![op(1)], dependent_operands: vec![op(2)] },
    )
    .unwrap();
    let consumer = differentiate(
        &consumer_kernel(),
        &DerivativeRequest {
            mode: DerivativeMode::Jvp,
            independent_operands: vec![op(1), op(2)],
            dependent_operands: vec![op(4)],
        },
    )
    .unwrap();
    assert_eq!(product.composition.stages[product.derivative_stages[0].stage], producer.kernel);
    assert_eq!(product.derivative_stages[0].primal_operands, producer.primal_operands);
    assert_eq!(product.composition.stages[product.derivative_stages[1].stage], consumer.kernel);
    assert_eq!(product.derivative_stages[1].primal_operands, consumer.primal_operands);
}
