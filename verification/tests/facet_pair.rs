//! Facet-pair (two-sided trace) kernels on an interior-penalty jump/average fixture that also
//! carries a side-owned outward flux datum per cell and the facet balance row between them.

use malleus::{
    check_swap_buffers, differentiate_facet_pair, swap_plan, validate_facet_pair, AccessMode, AxisId, BinaryOp,
    CompareOp, DerivativeMode, DerivativeOperand, DerivativeRequest, FacetOperandRole, FacetPairDifferentiationError, FacetPairError,
    FacetPairKernel, FacetSide, FacetSwapError, IndexExpr, IndexingMap, IterationDomain, IteratorKind,
    KernelOperand, KernelRegion, NumericPolicy, OperandId, Predicate, ReductionOp, ScalarExpr, Statement,
    StructuredKernel, SwapParity,
};

const DIM: usize = 2;
const ETA: f64 = 4.0;

const U_MINUS: usize = 0;
const U_PLUS: usize = 1;
const GRAD_MINUS: usize = 2;
const GRAD_PLUS: usize = 3;
const V_MINUS: usize = 4;
const V_PLUS: usize = 5;
const NORMAL: usize = 6;
const H: usize = 7;
const K: usize = 8;
const G_MINUS: usize = 9;
const G_PLUS: usize = 10;
const JUMP: usize = 11;
const AVERAGE: usize = 12;
const FLUX_AVERAGE: usize = 13;
const R_MINUS: usize = 14;
const R_PLUS: usize = 15;
const BALANCE: usize = 16;
const FLUX_ROW_MINUS: usize = 17;
const FLUX_ROW_PLUS: usize = 18;

fn op(index: usize) -> OperandId {
    OperandId::new(index)
}

fn load(index: usize) -> ScalarExpr {
    ScalarExpr::Load(op(index))
}

fn c(value: f64) -> ScalarExpr {
    ScalarExpr::Constant(value.to_bits())
}

fn mul(lhs: ScalarExpr, rhs: ScalarExpr) -> ScalarExpr {
    ScalarExpr::binary(BinaryOp::Mul, lhs, rhs)
}

fn add(lhs: ScalarExpr, rhs: ScalarExpr) -> ScalarExpr {
    ScalarExpr::binary(BinaryOp::Add, lhs, rhs)
}

fn sub(lhs: ScalarExpr, rhs: ScalarExpr) -> ScalarExpr {
    ScalarExpr::binary(BinaryOp::Sub, lhs, rhs)
}

fn div(lhs: ScalarExpr, rhs: ScalarExpr) -> ScalarExpr {
    ScalarExpr::binary(BinaryOp::Div, lhs, rhs)
}

fn neg(value: ScalarExpr) -> ScalarExpr {
    ScalarExpr::unary(malleus::UnaryOp::Neg, value)
}

/// Contribute a component-independent term once inside the reduction over components.
fn once(value: ScalarExpr) -> ScalarExpr {
    ScalarExpr::Select {
        condition: Box::new(Predicate::Compare {
            op: CompareOp::Eq,
            lhs: Box::new(ScalarExpr::Index(AxisId::new(0))),
            rhs: Box::new(c(0.0)),
        }),
        if_true: Box::new(value),
        if_false: Box::new(c(0.0)),
    }
}

fn cell(side: FacetSide, partner: usize) -> FacetOperandRole {
    FacetOperandRole::Cell {
        side,
        partner: Some(op(partner)),
    }
}

fn facet(parity: SwapParity) -> FacetOperandRole {
    FacetOperandRole::Facet { parity }
}

fn fixture() -> FacetPairKernel {
    let axis = AxisId::new(0);
    let vector = |index: usize| IndexingMap::new(op(index), vec![IndexExpr::axis(axis)]);
    let scalar = |index: usize| IndexingMap::scalar(op(index));
    let jump = sub(load(U_MINUS), load(U_PLUS));
    let average = mul(c(0.5), add(load(U_MINUS), load(U_PLUS)));
    let flux_average_component = mul(
        mul(c(0.5), add(load(GRAD_MINUS), load(GRAD_PLUS))),
        load(NORMAL),
    );
    let penalty = mul(div(c(ETA), load(H)), jump.clone());
    let kernel = StructuredKernel {
        name: "interior-penalty".into(),
        iteration_domain: IterationDomain::new(vec![DIM]),
        iterators: vec![IteratorKind::Reduction],
        operands: vec![
            KernelOperand::scalar("u_minus", AccessMode::Read),
            KernelOperand::scalar("u_plus", AccessMode::Read),
            KernelOperand::tensor("grad_minus", vec![DIM], AccessMode::Read),
            KernelOperand::tensor("grad_plus", vec![DIM], AccessMode::Read),
            KernelOperand::scalar("v_minus", AccessMode::Read),
            KernelOperand::scalar("v_plus", AccessMode::Read),
            KernelOperand::tensor("normal", vec![DIM], AccessMode::Read),
            KernelOperand::scalar("h", AccessMode::Read),
            KernelOperand::scalar("k", AccessMode::Read),
            KernelOperand::scalar("g_minus", AccessMode::Read),
            KernelOperand::scalar("g_plus", AccessMode::Read),
            KernelOperand::scalar("jump", AccessMode::Reduce(ReductionOp::Add)),
            KernelOperand::scalar("average", AccessMode::Reduce(ReductionOp::Add)),
            KernelOperand::scalar("flux_average", AccessMode::Reduce(ReductionOp::Add)),
            KernelOperand::scalar("r_minus", AccessMode::Reduce(ReductionOp::Add)),
            KernelOperand::scalar("r_plus", AccessMode::Reduce(ReductionOp::Add)),
            KernelOperand::scalar("balance", AccessMode::Reduce(ReductionOp::Add)),
            KernelOperand::scalar("flux_row_minus", AccessMode::Reduce(ReductionOp::Add)),
            KernelOperand::scalar("flux_row_plus", AccessMode::Reduce(ReductionOp::Add)),
        ],
        indexing_maps: vec![
            scalar(U_MINUS),
            scalar(U_PLUS),
            vector(GRAD_MINUS),
            vector(GRAD_PLUS),
            scalar(V_MINUS),
            scalar(V_PLUS),
            vector(NORMAL),
            scalar(H),
            scalar(K),
            scalar(G_MINUS),
            scalar(G_PLUS),
            scalar(JUMP),
            scalar(AVERAGE),
            scalar(FLUX_AVERAGE),
            scalar(R_MINUS),
            scalar(R_PLUS),
            scalar(BALANCE),
            scalar(FLUX_ROW_MINUS),
            scalar(FLUX_ROW_PLUS),
        ],
        body: KernelRegion {
            statements: vec![
                Statement::Store {
                    operand: op(JUMP),
                    value: once(jump.clone()),
                },
                Statement::Store {
                    operand: op(AVERAGE),
                    value: once(average),
                },
                Statement::Store {
                    operand: op(FLUX_AVERAGE),
                    value: flux_average_component.clone(),
                },
                // -{k grad u}.n [v] + (eta/h) [u] [v], split into the two side-owned rows.
                Statement::Store {
                    operand: op(R_MINUS),
                    value: add(
                        neg(mul(
                            mul(load(K), flux_average_component.clone()),
                            load(V_MINUS),
                        )),
                        once(mul(penalty.clone(), load(V_MINUS))),
                    ),
                },
                Statement::Store {
                    operand: op(R_PLUS),
                    value: sub(
                        mul(mul(load(K), flux_average_component), load(V_PLUS)),
                        once(mul(penalty, load(V_PLUS))),
                    ),
                },
                // Outward-from-owner flux data: balance sums with unit coefficients.
                Statement::Store {
                    operand: op(BALANCE),
                    value: once(add(load(G_MINUS), load(G_PLUS))),
                },
                // Each owner's flux datum against its own outward normal flux.
                Statement::Store {
                    operand: op(FLUX_ROW_MINUS),
                    value: sub(
                        once(load(G_MINUS)),
                        mul(mul(load(K), load(GRAD_MINUS)), load(NORMAL)),
                    ),
                },
                Statement::Store {
                    operand: op(FLUX_ROW_PLUS),
                    value: add(
                        once(load(G_PLUS)),
                        mul(mul(load(K), load(GRAD_PLUS)), load(NORMAL)),
                    ),
                },
            ],
        },
        numeric_policy: NumericPolicy::default(),
    };
    let roles = vec![
        cell(FacetSide::Minus, U_PLUS),
        cell(FacetSide::Plus, U_MINUS),
        cell(FacetSide::Minus, GRAD_PLUS),
        cell(FacetSide::Plus, GRAD_MINUS),
        cell(FacetSide::Minus, V_PLUS),
        cell(FacetSide::Plus, V_MINUS),
        facet(SwapParity::Odd),
        facet(SwapParity::Even),
        facet(SwapParity::Even),
        cell(FacetSide::Minus, G_PLUS),
        cell(FacetSide::Plus, G_MINUS),
        facet(SwapParity::Odd),
        facet(SwapParity::Even),
        facet(SwapParity::Odd),
        cell(FacetSide::Minus, R_PLUS),
        cell(FacetSide::Plus, R_MINUS),
        facet(SwapParity::Even),
        cell(FacetSide::Minus, FLUX_ROW_PLUS),
        cell(FacetSide::Plus, FLUX_ROW_MINUS),
    ];
    FacetPairKernel { kernel, roles }
}

const INDEPENDENT: [usize; 6] = [U_MINUS, U_PLUS, GRAD_MINUS, GRAD_PLUS, G_MINUS, G_PLUS];
const DEPENDENT: [usize; 5] = [R_MINUS, R_PLUS, BALANCE, FLUX_ROW_MINUS, FLUX_ROW_PLUS];

fn request(mode: DerivativeMode) -> DerivativeRequest {
    DerivativeRequest {
        mode,
        independent_operands: INDEPENDENT.iter().map(|index| op(*index)).collect(),
        dependent_operands: DEPENDENT.iter().map(|index| op(*index)).collect(),
    }
}

#[test]
fn role_validation_refuses_inconsistent_pairings() {
    let mut short = fixture();
    short.roles.pop();
    assert_eq!(
        validate_facet_pair(short).unwrap_err(),
        FacetPairError::RoleCount {
            expected: 19,
            actual: 18,
        }
    );
    let mut same_side = fixture();
    same_side.roles[U_PLUS] = cell(FacetSide::Minus, U_MINUS);
    assert_eq!(
        validate_facet_pair(same_side).unwrap_err(),
        FacetPairError::PartnerSide {
            operand: U_MINUS,
            partner: U_PLUS,
        }
    );
    let mut asymmetric = fixture();
    asymmetric.roles[U_PLUS] = cell(FacetSide::Plus, V_MINUS);
    assert_eq!(
        validate_facet_pair(asymmetric).unwrap_err(),
        FacetPairError::PartnerAsymmetric {
            operand: U_MINUS,
            partner: U_PLUS,
        }
    );
    let mut shape = fixture();
    shape.roles[U_MINUS] = cell(FacetSide::Minus, GRAD_PLUS);
    shape.roles[GRAD_PLUS] = cell(FacetSide::Plus, U_MINUS);
    shape.roles[U_PLUS] = FacetOperandRole::Cell {
        side: FacetSide::Plus,
        partner: None,
    };
    shape.roles[GRAD_MINUS] = FacetOperandRole::Cell {
        side: FacetSide::Minus,
        partner: None,
    };
    assert_eq!(
        validate_facet_pair(shape).unwrap_err(),
        FacetPairError::PartnerShape {
            operand: U_MINUS,
            partner: GRAD_PLUS,
        }
    );
    let mut one_sided = fixture();
    for role in &mut one_sided.roles {
        if let FacetOperandRole::Cell { side, partner } = role {
            *side = FacetSide::Minus;
            *partner = None;
        }
    }
    assert_eq!(
        validate_facet_pair(one_sided).unwrap_err(),
        FacetPairError::MissingSide(FacetSide::Plus)
    );
}

#[test]
fn one_sided_derivative_request_drops_the_partner_and_refuses_the_swap_check() {
    let product = differentiate_facet_pair(
        &fixture(),
        &DerivativeRequest {
            mode: DerivativeMode::Jvp,
            independent_operands: vec![op(U_MINUS)],
            dependent_operands: vec![op(R_MINUS), op(R_PLUS)],
        },
    )
    .unwrap();
    let d_u_minus = product.product.independent_operands[0].derivative;
    assert_eq!(
        product.roles[d_u_minus.index()],
        FacetOperandRole::Cell {
            side: FacetSide::Minus,
            partner: None,
        }
    );
    let validated = validate_facet_pair(product.into_facet_pair()).unwrap();
    let mut values = vec![vec![0.0f64]; validated.kernel().as_kernel().operands.len()];
    for (index, operand) in validated.kernel().as_kernel().operands.iter().enumerate() {
        values[index] = vec![0.0; operand.region.length];
    }
    let lengths: Vec<usize> = values.iter().map(|buffer| buffer.len()).collect();
    let finite: Vec<bool> = values.iter().map(|buffer| buffer.iter().all(|value| value.is_finite())).collect();
    assert_eq!(
        check_swap_buffers(&validated, &lengths, &finite).unwrap_err(),
        FacetSwapError::UnpairedOperand(d_u_minus.index())
    );
}

#[test]
fn opposite_sides_swap() {
    assert_eq!(FacetSide::Minus.opposite(), FacetSide::Plus);
    assert_eq!(FacetSide::Plus.opposite(), FacetSide::Minus);
    assert_eq!(FacetSide::Minus.opposite().opposite(), FacetSide::Minus);
}

#[test]
fn swapping_the_sides_twice_restores_every_buffer() {
    let validated = validate_facet_pair(fixture()).unwrap();
    let plan = swap_plan(validated.roles());
    assert_eq!(plan.len(), 19);
    assert_eq!(plan[U_MINUS], (U_PLUS, false));
    assert_eq!(plan[NORMAL], (NORMAL, true));
    assert_eq!(plan[H], (H, false));
    for (index, (source, negate)) in plan.iter().enumerate() {
        let (back, negate_back) = plan[*source];
        assert_eq!(back, index);
        assert_eq!(negate_back, *negate);
    }
}

fn inherited(role: FacetOperandRole, pairs: &[DerivativeOperand]) -> FacetOperandRole {
    match role {
        FacetOperandRole::Cell { side, partner } => FacetOperandRole::Cell {
            side,
            partner: partner.and_then(|p| pairs.iter().rev().find(|pair| pair.primal == p).map(|pair| pair.derivative)),
        },
        facet => facet,
    }
}

#[test]
fn both_sided_derivatives_keep_partners_and_validate() {
    for mode in [DerivativeMode::Jvp, DerivativeMode::Vjp] {
        let product = differentiate_facet_pair(&fixture(), &request(mode)).unwrap();
        assert_eq!(product.roles.len(), product.product.kernel.operands.len());
        for pair in product.product.primal_operands.iter() {
            assert_eq!(
                product.roles[pair.derivative.index()],
                inherited(fixture().roles[pair.primal.index()], &product.product.primal_operands)
            );
        }
        let d_u_minus = product.product.independent_operands[0].derivative;
        let d_u_plus = product.product.independent_operands[1].derivative;
        assert_eq!(
            product.roles[d_u_minus.index()],
            FacetOperandRole::Cell { side: FacetSide::Minus, partner: Some(d_u_plus) }
        );
        validate_facet_pair(product.into_facet_pair()).unwrap();
    }
}

#[test]
fn derivative_refusals_are_typed() {
    let mut bad = fixture();
    bad.roles.pop();
    assert_eq!(
        differentiate_facet_pair(&bad, &request(DerivativeMode::Jvp)).unwrap_err(),
        FacetPairDifferentiationError::InvalidPrimal(FacetPairError::RoleCount { expected: 19, actual: 18 })
    );
    assert!(matches!(
        differentiate_facet_pair(&fixture(), &request(DerivativeMode::Jacobian)).unwrap_err(),
        FacetPairDifferentiationError::Differentiation(_)
    ));
}

#[test]
fn swap_buffer_refusals_come_in_operand_order() {
    let validated = validate_facet_pair(fixture()).unwrap();
    let mut lengths: Vec<usize> = validated.kernel().as_kernel().operands.iter().map(|o| o.region.length).collect();
    let mut finite = vec![true; lengths.len()];
    assert_eq!(check_swap_buffers(&validated, &lengths, &finite), Ok(()));
    finite[NORMAL] = false;
    assert_eq!(check_swap_buffers(&validated, &lengths, &finite), Err(FacetSwapError::NonFinite(NORMAL)));
    lengths[GRAD_MINUS] = 1;
    assert_eq!(check_swap_buffers(&validated, &lengths, &finite), Err(FacetSwapError::BufferLength(GRAD_MINUS)));
    lengths.pop();
    finite.pop();
    assert_eq!(
        check_swap_buffers(&validated, &lengths, &finite),
        Err(FacetSwapError::BufferCount { expected: 19, actual: 18 })
    );
}
