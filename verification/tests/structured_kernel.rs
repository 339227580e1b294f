use malleus::{
    advance, check_bindings, element_index, has_points, loop_nest, offset, AccessMode, AxisId, BinaryOp, BufferRegion, Executable,
    ExecutionError, IndexExpr, IndexTerm, IndexingMap, IterationDomain, IteratorKind, KernelOperand, KernelRegion,
    KernelSchedule, LocalId, NumericPolicy, OperandId, ReductionOrder, ScalarExpr, Statement, StructuredKernel,
    ValidationError, validate,
};

fn scale_kernel() -> StructuredKernel {
    let axis = AxisId::new(0);
    let input = OperandId::new(0);
    let output = OperandId::new(1);
    StructuredKernel {
        name: "scale".into(),
        iteration_domain: IterationDomain::new(vec![3]),
        iterators: vec![IteratorKind::Parallel],
        operands: vec![
            KernelOperand::tensor("input", vec![3], AccessMode::Read),
            KernelOperand::tensor("output", vec![3], AccessMode::Write),
        ],
        indexing_maps: vec![
            IndexingMap::new(input, vec![IndexExpr::axis(axis)]),
            IndexingMap::new(output, vec![IndexExpr::axis(axis)]),
        ],
        body: KernelRegion {
            statements: vec![
                Statement::Let {
                    local: LocalId::new(0),
                    value: ScalarExpr::binary(
                        BinaryOp::Mul,
                        ScalarExpr::Load(input),
                        ScalarExpr::Constant(2.0f64.to_bits()),
                    ),
                },
                Statement::Store {
                    operand: output,
                    value: ScalarExpr::Local(LocalId::new(0)),
                },
            ],
        },
        numeric_policy: NumericPolicy::default(),
    }
}

#[test]
fn rejects_use_before_definition() {
    let mut kernel = scale_kernel();
    kernel.body.statements[0] = Statement::Let {
        local: LocalId::new(1),
        value: ScalarExpr::Constant(1.0f64.to_bits()),
    };
    assert_eq!(
        validate(kernel).unwrap_err(),
        ValidationError::InvalidLocal {
            expected: 0,
            actual: 1
        }
    );
}

#[test]
fn validation_refuses_out_of_bounds_indexes_and_aliasing_writes() {
    let mut bounds = scale_kernel();
    bounds.indexing_maps[0].results[0] = IndexExpr::offset(AxisId::new(0), 1);
    assert_eq!(
        validate(bounds).unwrap_err(),
        ValidationError::IndexOutOfBounds {
            operand: 0,
            dimension: 0,
        }
    );

    let mut aliases = scale_kernel();
    aliases.indexing_maps[1].results[0] = IndexExpr::constant(0);
    assert_eq!(
        validate(aliases).unwrap_err(),
        ValidationError::AliasingWrite(1)
    );

    let mut layout = scale_kernel();
    layout.operands[0].layout.minor_to_major = vec![0, 0];
    assert_eq!(
        validate(layout).unwrap_err(),
        ValidationError::InvalidLayout(0)
    );

    let mut region = scale_kernel();
    region.operands[0].region = malleus::BufferRegion::new(1, 2);
    assert_eq!(
        validate(region).unwrap_err(),
        ValidationError::InvalidRegion(0)
    );
}

#[test]
fn bindings_are_checked_in_order_then_for_completeness() {
    let kernel = scale_kernel();
    assert_eq!(check_bindings(&kernel, &vec![(OperandId::new(0), 3), (OperandId::new(1), 3)]), Ok(()));
    assert_eq!(
        check_bindings(&kernel, &vec![(OperandId::new(2), 3)]),
        Err(ExecutionError::InvalidBinding(2))
    );
    assert_eq!(
        check_bindings(&kernel, &vec![(OperandId::new(0), 3), (OperandId::new(0), 3)]),
        Err(ExecutionError::DuplicateBinding(0))
    );
    assert_eq!(
        check_bindings(&kernel, &vec![(OperandId::new(1), 2)]),
        Err(ExecutionError::InvalidBinding(1))
    );
    assert_eq!(
        check_bindings(&kernel, &vec![(OperandId::new(1), 3)]),
        Err(ExecutionError::MissingBinding(0))
    );
    let mut shifted = scale_kernel();
    shifted.operands[0].region = BufferRegion::new(1, 3);
    assert_eq!(
        check_bindings(&shifted, &vec![(OperandId::new(0), 3), (OperandId::new(1), 3)]),
        Err(ExecutionError::InvalidBinding(0))
    );
}

#[test]
fn element_offsets_follow_the_dense_layout() {
    let shape = vec![2, 3];
    let row_major = vec![1, 0];
    let column_major = vec![0, 1];
    let indices = vec![IndexExpr::axis(AxisId::new(0)), IndexExpr::axis(AxisId::new(1))];
    assert_eq!(offset(&indices, &shape, &row_major, &vec![1, 2]), Some(5));
    assert_eq!(offset(&indices, &shape, &column_major, &vec![1, 2]), Some(5));
    assert_eq!(offset(&indices, &shape, &row_major, &vec![1, 0]), Some(3));
    assert_eq!(offset(&indices, &shape, &column_major, &vec![1, 0]), Some(1));
    let past_end = vec![IndexExpr::offset(AxisId::new(0), 1), IndexExpr::axis(AxisId::new(1))];
    assert_eq!(offset(&past_end, &shape, &row_major, &vec![1, 0]), None);
    let negative = vec![
        IndexExpr { constant: 0, terms: vec![IndexTerm { axis: AxisId::new(0), coefficient: -1 }] },
        IndexExpr::axis(AxisId::new(1)),
    ];
    assert_eq!(offset(&negative, &shape, &row_major, &vec![1, 0]), None);
    let overflowing = vec![
        IndexExpr { constant: isize::MAX, terms: vec![IndexTerm { axis: AxisId::new(0), coefficient: 1 }] },
        IndexExpr::axis(AxisId::new(1)),
    ];
    assert_eq!(offset(&overflowing, &shape, &row_major, &vec![1, 0]), None);
}

#[test]
fn the_loop_nest_visits_every_point_in_nested_order() {
    let extents = vec![2, 3];
    let order = vec![AxisId::new(0), AxisId::new(1)];
    assert!(has_points(&extents, &order));
    let mut coords = vec![0, 0];
    let mut visited = vec![coords.clone()];
    while advance(&extents, &order, &mut coords, order.len()) {
        visited.push(coords.clone());
    }
    assert_eq!(visited, vec![vec![0, 0], vec![0, 1], vec![0, 2], vec![1, 0], vec![1, 1], vec![1, 2]]);

    let reversed = vec![AxisId::new(1), AxisId::new(0)];
    let mut coords = vec![0, 0];
    let mut visited = vec![coords.clone()];
    while advance(&extents, &reversed, &mut coords, reversed.len()) {
        visited.push(coords.clone());
    }
    assert_eq!(visited, vec![vec![0, 0], vec![1, 0], vec![0, 1], vec![1, 1], vec![0, 2], vec![1, 2]]);

    assert!(!has_points(&vec![2, 0], &order));
    let mut scalar: Vec<usize> = vec![];
    assert!(!advance(&vec![], &vec![], &mut scalar, 0));
}

fn grid_kernel(reduction_order: ReductionOrder) -> StructuredKernel {
    let rows = AxisId::new(0);
    let columns = AxisId::new(1);
    let mut kernel = scale_kernel();
    kernel.name = "grid".into();
    kernel.iteration_domain = IterationDomain::new(vec![3, 2]);
    kernel.iterators = vec![IteratorKind::Parallel, IteratorKind::Parallel];
    kernel.operands = vec![
        KernelOperand::tensor("input", vec![3, 2], AccessMode::Read),
        KernelOperand::tensor("output", vec![3, 2], AccessMode::Write),
    ];
    kernel.indexing_maps = vec![
        IndexingMap::new(OperandId::new(0), vec![IndexExpr::axis(rows), IndexExpr::axis(columns)]),
        IndexingMap::new(OperandId::new(1), vec![IndexExpr::axis(rows), IndexExpr::axis(columns)]),
    ];
    kernel.numeric_policy.reduction_order = reduction_order;
    kernel
}

#[test]
fn canonical_reduction_order_ignores_the_schedule() {
    for (order, expected) in [
        (ReductionOrder::Canonical, vec![AxisId::new(0), AxisId::new(1)]),
        (ReductionOrder::ScheduleDefined, vec![AxisId::new(1), AxisId::new(0)]),
    ] {
        let validated = validate(grid_kernel(order)).unwrap();
        let mut schedule = KernelSchedule::canonical(&validated);
        schedule.loop_order = vec![AxisId::new(1), AxisId::new(0)];
        let executable = Executable::new(validated, schedule).unwrap();
        assert_eq!(loop_nest(&executable), expected);
    }
}

#[test]
fn the_canonical_schedule_is_always_accepted() {
    for kernel in [scale_kernel(), grid_kernel(ReductionOrder::Canonical)] {
        let validated = validate(kernel).unwrap();
        let schedule = KernelSchedule::canonical(&validated);
        let rank = validated.as_kernel().iteration_domain.rank();
        assert_eq!(schedule.loop_order, (0..rank).map(AxisId::new).collect::<Vec<_>>());
        let executable = Executable::new(validated.copy(), schedule.clone()).unwrap();
        assert_eq!(executable.schedule(), &schedule);
        assert_eq!(Executable::reference(validated).schedule(), &schedule);
    }
}

#[test]
fn elements_live_at_the_region_offset_plus_the_layout_offset() {
    let mut kernel = scale_kernel();
    kernel.operands[0].region = BufferRegion::new(5, 3);
    let validated = validate(kernel).unwrap();
    assert_eq!(element_index(&validated, OperandId::new(0), &vec![0]), Some(5));
    assert_eq!(element_index(&validated, OperandId::new(0), &vec![2]), Some(7));
    assert_eq!(element_index(&validated, OperandId::new(1), &vec![2]), Some(2));
    assert_eq!(element_index(&validated, OperandId::new(0), &vec![3]), None);
    let grid = validate(grid_kernel(ReductionOrder::Canonical)).unwrap();
    assert_eq!(element_index(&grid, OperandId::new(0), &vec![2, 1]), Some(5));
    assert_eq!(element_index(&grid, OperandId::new(1), &vec![1, 0]), Some(2));
}
