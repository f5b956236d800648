use plonk_engine::assign::{Assignment, Binding, Region};
use plonk_engine::chips::{FunctionChip, FunctionCircuit, IteChip, MyCircuit};
use plonk_engine::circuit::{Cell, Column, ColumnKind, ConstraintSystem, Error, Expression};
use plonk_engine::field::FieldValue;
use plonk_engine::mock::{verify, Failure};

fn fv(n: u64) -> FieldValue {
    FieldValue::from_u64(n)
}

fn same(a: &FieldValue, b: &FieldValue) -> bool {
    a.equals(b)
}

/// One conditional select laid out by hand at row 0, with a chosen output.
fn select_grid(cond: u64, thenval: FieldValue, elseval: FieldValue, output: FieldValue, selector_on: bool) -> Vec<Failure> {
    let mut cs = ConstraintSystem::new();
    let cfg = FunctionChip::configure(&mut cs);
    let mut a = Assignment::new(4, vec![]);
    let mut region = a.open_region();
    if selector_on {
        a.enable_selector(&cs, &mut region, cfg.selector, 0).unwrap();
    }
    a.assign_advice(&cs, &mut region, cfg.cond, 0, Some(fv(cond))).unwrap();
    a.assign_advice(&cs, &mut region, cfg.thenval, 0, Some(thenval)).unwrap();
    a.assign_advice(&cs, &mut region, cfg.elseval, 0, Some(elseval)).unwrap();
    a.assign_advice(&cs, &mut region, cfg.output, 0, Some(output)).unwrap();
    a.close_region(region);
    verify(&cs, &a, &vec![])
}

#[test]
fn field_add_sub_mul() {
    assert!(same(&fv(2).add(&fv(3)), &fv(5)));
    assert!(same(&fv(6).mul(&fv(7)), &fv(42)));
    assert!(same(&fv(9).sub(&fv(4)), &fv(5)));
    assert!(FieldValue::zero().is_zero());
    assert!(!FieldValue::one().is_zero());
    assert!(same(&FieldValue::one(), &fv(1)));
    assert_eq!(fv(258).repr[0], 2);
    assert_eq!(fv(258).repr[1], 1);
}

#[test]
fn field_wraps_at_modulus() {
    // 0 - 1 is the modulus minus one.
    let m1 = FieldValue::zero().sub(&FieldValue::one());
    assert_eq!(m1.repr[0], 0);
    assert_eq!(m1.repr[3], 0);
    assert_eq!(m1.repr[4], 0xed);
    assert_eq!(m1.repr[31], 0x40);
    assert!(m1.repr_is_canonical());
    assert!(m1.add(&FieldValue::one()).is_zero());
    assert!(same(&m1.mul(&m1), &FieldValue::one()));
    let mut bad = FieldValue::zero();
    bad.repr[31] = 0xff;
    assert!(!bad.repr_is_canonical());
}

#[test]
fn grid_has_two_to_the_k_rows() {
    assert_eq!(Assignment::new(4, vec![]).num_rows, 16);
    assert_eq!(Assignment::new(0, vec![]).num_rows, 1);
}

#[test]
fn select_boolean_satisfied() {
    for cond in [0u64, 1] {
        let (t, e) = (fv(2), fv(3));
        let out = if cond == 1 { t } else { e };
        assert!(select_grid(cond, t, e, out, true).is_empty());
    }
}

#[test]
fn select_wrong_output_one_violation() {
    let f = select_grid(1, fv(2), fv(3), fv(3), true);
    assert_eq!(f, vec![Failure::GateViolation { gate: 0, row: 0, constraint: 0 }]);
    let f = select_grid(0, fv(2), fv(3), fv(2), true);
    assert_eq!(f, vec![Failure::GateViolation { gate: 0, row: 0, constraint: 0 }]);
}

#[test]
fn select_non_boolean_cond_linear_output() {
    let (c, t, e) = (fv(2), fv(10), fv(4));
    let out = c.mul(&t).add(&FieldValue::one().sub(&c).mul(&e));
    // 2 * 10 - 1 * 4 = 16
    assert!(same(&out, &fv(16)));
    assert!(select_grid(2, t, e, out, true).is_empty());
    assert_eq!(select_grid(2, t, e, e, true).len(), 1);
}

#[test]
fn selector_off_no_constraint() {
    assert!(select_grid(1, fv(2), fv(3), fv(99), false).is_empty());
}

#[test]
fn function_chip_assign_and_verify() {
    let mut cs = ConstraintSystem::new();
    let cfg = FunctionChip::configure(&mut cs);
    assert_eq!(cs.gates.len(), 1);
    assert_eq!(cs.gates[0].selector, cfg.selector.index);
    let chip = FunctionChip::construct(cfg);
    let mut a = Assignment::new(4, vec![]);
    let out = chip.assign(&cs, &mut a, fv(1), fv(2), fv(3)).unwrap();
    assert_eq!(out, Cell { column: cfg.output, row: 0 });
    assert!(same(&a.value_of(out).unwrap(), &fv(2)));
    assert_eq!(a.next_row, 1);
    assert!(verify(&cs, &a, &vec![]).is_empty());
    let out2 = chip.assign(&cs, &mut a, fv(0), fv(2), fv(3)).unwrap();
    assert_eq!(out2.row, 1);
    assert!(same(&a.value_of(out2).unwrap(), &fv(3)));
    assert!(verify(&cs, &a, &vec![]).is_empty());
}

#[test]
fn function_circuit_output_column_not_open_to_equality() {
    let mut cs = ConstraintSystem::new();
    let cfg = FunctionCircuit::configure(&mut cs);
    let circuit = FunctionCircuit { cond: fv(1), thenval: fv(2), elseval: fv(3) };
    let mut a = Assignment::new(4, vec![]);
    assert_eq!(circuit.synthesize(cfg, &cs, &mut a), Err(Error::EqualityNotEnabled(cfg.instance)));
    let blank = circuit.without_witnesses();
    assert!(blank.cond.is_zero() && blank.thenval.is_zero() && blank.elseval.is_zero());
}

#[test]
fn instance_copy_round_trip() {
    let mut cs = ConstraintSystem::new();
    let cfg = MyCircuit::configure(&mut cs);
    let inputs = vec![vec![fv(3), fv(2), fv(3)]];
    let mut a = Assignment::new(4, inputs.clone());
    MyCircuit.synthesize(cfg, &cs, &mut a).unwrap();
    let c = Cell { column: cfg.cond, row: 0 };
    let t = Cell { column: cfg.thenval, row: 0 };
    let e = Cell { column: cfg.elseval, row: 0 };
    let o = Cell { column: cfg.outval, row: 0 };
    assert!(same(&a.value_of(c).unwrap(), &inputs[0][0]));
    assert!(same(&a.value_of(t).unwrap(), &inputs[0][1]));
    assert!(same(&a.value_of(e).unwrap(), &inputs[0][2]));
    assert!(same(&a.value_of(o).unwrap(), &inputs[0][2]));
    assert!(same(&a.value_of(Cell { column: cfg.oneval, row: 0 }).unwrap(), &FieldValue::one()));
    assert_eq!(a.bindings.len(), 4);
    assert!(verify(&cs, &a, &inputs).is_empty());
    let changed = vec![vec![fv(3), fv(5), fv(3)]];
    assert_eq!(verify(&cs, &a, &changed), vec![Failure::InstanceMismatch { cell: t, row: 1 }]);
}

#[test]
fn ite_output_is_elseval() {
    let mut cs = ConstraintSystem::new();
    let cfg = IteChip::configure(&mut cs);
    assert!(cs.gates.is_empty());
    let chip = IteChip::construct(cfg);
    let inputs = vec![vec![fv(1), fv(2), fv(3)]];
    let mut a = Assignment::new(4, inputs.clone());
    let o = chip.assign(&cs, &mut a).unwrap();
    assert!(same(&a.value_of(o).unwrap(), &fv(3)));
    chip.expose_public(&cs, &mut a, o, 0).unwrap();
    assert_eq!(verify(&cs, &a, &inputs), vec![Failure::InstanceMismatch { cell: o, row: 0 }]);
}

#[test]
fn missing_public_input_leaves_cell_unassigned() {
    let mut cs = ConstraintSystem::new();
    let cfg = IteChip::configure(&mut cs);
    let chip = IteChip::construct(cfg);
    let inputs = vec![vec![fv(1), fv(2)]];
    let mut a = Assignment::new(4, inputs.clone());
    let o = chip.assign(&cs, &mut a).unwrap();
    assert!(a.value_of(o).is_none());
    let e = Cell { column: cfg.elseval, row: 0 };
    assert_eq!(
        verify(&cs, &a, &inputs),
        vec![
            Failure::InstanceMismatch { cell: e, row: 2 },
            Failure::UnassignedCell { cell: e },
            Failure::InputLengthMismatch { instance: 0, expected: 3, found: 2 },
        ]
    );
}

#[test]
fn unassigned_cell_in_equality_class() {
    let mut cs = ConstraintSystem::new();
    let x = cs.advice_column();
    let y = cs.advice_column();
    cs.enable_equality(x).unwrap();
    cs.enable_equality(y).unwrap();
    let mut a = Assignment::new(2, vec![]);
    let mut region = a.open_region();
    let cx = a.assign_advice(&cs, &mut region, x, 0, Some(fv(0))).unwrap();
    let cy = a.assign_advice(&cs, &mut region, y, 0, None).unwrap();
    a.constrain_equal(&cs, cx, cy).unwrap();
    assert_eq!(verify(&cs, &a, &vec![]), vec![Failure::UnassignedCell { cell: cy }]);
}

#[test]
fn equality_violation_reported() {
    let mut cs = ConstraintSystem::new();
    let x = cs.advice_column();
    cs.enable_equality(x).unwrap();
    let mut a = Assignment::new(2, vec![]);
    let mut region = a.open_region();
    let c0 = a.assign_advice(&cs, &mut region, x, 0, Some(fv(4))).unwrap();
    let c1 = a.assign_advice(&cs, &mut region, x, 1, Some(fv(4))).unwrap();
    let c2 = a.assign_advice(&cs, &mut region, x, 2, Some(fv(5))).unwrap();
    a.constrain_equal(&cs, c0, c1).unwrap();
    assert!(verify(&cs, &a, &vec![]).is_empty());
    a.constrain_equal(&cs, c1, c2).unwrap();
    assert_eq!(verify(&cs, &a, &vec![]), vec![Failure::EqualityViolation { left: c1, right: c2 }]);
}

/// A gate `s * x[rotation]` enabled at `row` of a 4-row grid.
fn rotation_grid(rotation: i32, row: usize) -> Vec<Failure> {
    let mut cs = ConstraintSystem::new();
    let s = cs.selector();
    let x = cs.advice_column();
    let poly = Expression::Mul(Box::new(cs.query_selector(s)), Box::new(cs.query_advice(x, rotation)));
    cs.create_gate(String::from("shifted"), s, vec![poly]).unwrap();
    let mut a = Assignment::new(2, vec![]);
    let mut region = a.open_region();
    for r in 0..4 {
        a.assign_advice(&cs, &mut region, x, r, Some(FieldValue::zero())).unwrap();
    }
    a.enable_selector(&cs, &mut region, s, row).unwrap();
    verify(&cs, &a, &vec![])
}

#[test]
fn rotation_never_wraps() {
    assert_eq!(rotation_grid(-1, 0), vec![Failure::OutOfGrid { gate: 0, row: 0, constraint: 0 }]);
    assert_eq!(rotation_grid(1, 3), vec![Failure::OutOfGrid { gate: 0, row: 3, constraint: 0 }]);
    assert!(rotation_grid(-1, 1).is_empty());
    assert!(rotation_grid(1, 2).is_empty());
}

#[test]
fn unassigned_cell_read_by_gate() {
    let mut cs = ConstraintSystem::new();
    let s = cs.selector();
    let x = cs.advice_column();
    let poly = Expression::Mul(Box::new(cs.query_selector(s)), Box::new(cs.query_advice(x, 0)));
    cs.create_gate(String::from("zero"), s, vec![poly]).unwrap();
    let mut a = Assignment::new(1, vec![]);
    let mut region = a.open_region();
    a.enable_selector(&cs, &mut region, s, 1).unwrap();
    assert_eq!(verify(&cs, &a, &vec![]), vec![Failure::UnassignedCell { cell: Cell { column: x, row: 1 } }]);
}

#[test]
fn duplicate_assignment_refused() {
    let mut cs = ConstraintSystem::new();
    let x = cs.advice_column();
    let mut a = Assignment::new(2, vec![]);
    let mut region = a.open_region();
    let c = a.assign_advice(&cs, &mut region, x, 1, Some(fv(1))).unwrap();
    assert_eq!(a.assign_advice(&cs, &mut region, x, 1, Some(fv(2))), Err(Error::DuplicateAssignment(c)));
    assert!(same(&a.value_of(c).unwrap(), &fv(1)));
}

#[test]
fn column_kind_and_allocation_checked() {
    let mut cs = ConstraintSystem::new();
    let x = cs.advice_column();
    let f = cs.fixed_column();
    let mut a = Assignment::new(2, vec![]);
    let mut region = a.open_region();
    assert_eq!(a.assign_fixed(&cs, &mut region, x, 0, fv(1)), Err(Error::WrongColumnKind(x)));
    assert!(a.assign_fixed(&cs, &mut region, f, 0, fv(1)).is_ok());
    let ghost_col = Column { kind: ColumnKind::Advice, index: 7 };
    assert_eq!(a.assign_advice(&cs, &mut region, ghost_col, 0, None), Err(Error::ColumnNotAllocated(ghost_col)));
    assert_eq!(cs.enable_constant(x), Err(Error::WrongColumnKind(x)));
    let s = cs.selector();
    assert_eq!(cs.enable_equality(s), Err(Error::WrongColumnKind(s)));
}

#[test]
fn row_budget_enforced() {
    let mut cs = ConstraintSystem::new();
    let x = cs.advice_column();
    let mut a = Assignment::new(2, vec![]);
    let mut region = Region { start: 2, rows: 0 };
    assert!(a.assign_advice(&cs, &mut region, x, 1, Some(fv(1))).is_ok());
    assert_eq!(a.assign_advice(&cs, &mut region, x, 2, Some(fv(1))), Err(Error::RowOutOfBounds(2)));
    assert_eq!(region.rows, 2);
    a.close_region(region);
    assert_eq!(a.next_row, 4);
}

#[test]
fn equality_scope_enforced() {
    let mut cs = ConstraintSystem::new();
    let x = cs.advice_column();
    let inst = cs.instance_column();
    let mut a = Assignment::new(2, vec![vec![fv(1)]]);
    let mut region = a.open_region();
    assert_eq!(
        a.assign_advice_from_instance(&cs, &mut region, inst, 0, x, 0),
        Err(Error::EqualityNotEnabled(inst))
    );
    cs.enable_equality(inst).unwrap();
    assert_eq!(
        a.assign_advice_from_instance(&cs, &mut region, inst, 0, x, 0),
        Err(Error::EqualityNotEnabled(x))
    );
    let c = Cell { column: x, row: 0 };
    assert_eq!(a.constrain_equal(&cs, c, c), Err(Error::EqualityNotEnabled(x)));
    cs.enable_equality(x).unwrap();
    let cell = a.assign_advice_from_instance(&cs, &mut region, inst, 0, x, 0).unwrap();
    assert_eq!(a.bindings, vec![Binding { cell, instance: inst.index, row: 0 }]);
    assert!(verify(&cs, &a, &vec![vec![fv(1)]]).is_empty());
}

#[test]
fn malformed_gate_refused() {
    let mut cs = ConstraintSystem::new();
    let s = cs.selector();
    let bogus = Column { kind: ColumnKind::Fixed, index: 0 };
    let poly = cs.query_fixed(bogus, 0);
    assert_eq!(cs.create_gate(String::from("bad"), s, vec![poly]), Err(Error::MalformedGate(0)));
    let not_sel = cs.advice_column();
    assert_eq!(cs.create_gate(String::from("bad"), not_sel, vec![]), Err(Error::MalformedGate(0)));
    let inst = cs.instance_column();
    let ok = cs.query_instance(inst, 0);
    assert!(cs.create_gate(String::from("ok"), s, vec![ok]).is_ok());
    assert_eq!(cs.gates.len(), 1);
}

#[test]
fn unassigned_bound_cell_reported() {
    let mut cs = ConstraintSystem::new();
    let cfg = IteChip::configure(&mut cs);
    let chip = IteChip::construct(cfg);
    let inputs = vec![vec![fv(0)]];
    let mut a = Assignment::new(4, inputs.clone());
    let mut region = a.open_region();
    let o = a.assign_advice(&cs, &mut region, cfg.outval, 0, None).unwrap();
    a.close_region(region);
    chip.expose_public(&cs, &mut a, o, 0).unwrap();
    assert_eq!(
        verify(&cs, &a, &inputs),
        vec![Failure::InstanceMismatch { cell: o, row: 0 }, Failure::UnassignedCell { cell: o }]
    );
}

#[test]
fn public_input_length_checked() {
    let mut cs = ConstraintSystem::new();
    let cfg = MyCircuit::configure(&mut cs);
    let mut a = Assignment::new(4, vec![vec![fv(3), fv(2), fv(3), fv(7)]]);
    MyCircuit.synthesize(cfg, &cs, &mut a).unwrap();
    assert_eq!(
        verify(&cs, &a, &vec![vec![fv(3), fv(2), fv(3), fv(7)]]),
        vec![Failure::InputLengthMismatch { instance: 0, expected: 3, found: 4 }]
    );
    assert_eq!(
        verify(&cs, &a, &vec![]),
        vec![
            Failure::InstanceMismatch { cell: Cell { column: cfg.cond, row: 0 }, row: 0 },
            Failure::InstanceMismatch { cell: Cell { column: cfg.thenval, row: 0 }, row: 1 },
            Failure::InstanceMismatch { cell: Cell { column: cfg.elseval, row: 0 }, row: 2 },
            Failure::InstanceMismatch { cell: Cell { column: cfg.outval, row: 0 }, row: 0 },
            Failure::InputLengthMismatch { instance: 0, expected: 3, found: 0 },
        ]
    );
}

#[test]
fn ite_assign_equality_scope_error() {
    let mut cs = ConstraintSystem::new();
    let oneval = cs.fixed_column();
    let cond = cs.advice_column();
    let thenval = cs.advice_column();
    let elseval = cs.advice_column();
    let outval = cs.advice_column();
    let selector = cs.selector();
    let instance = cs.instance_column();
    let cfg = plonk_engine::chips::IteConfig { oneval, cond, thenval, elseval, outval, selector, instance };
    let chip = IteChip::construct(cfg);
    let mut a = Assignment::new(4, vec![vec![fv(1), fv(2), fv(3)]]);
    assert_eq!(chip.assign(&cs, &mut a), Err(Error::EqualityNotEnabled(instance)));
    cs.enable_equality(instance).unwrap();
    cs.enable_equality(cond).unwrap();
    assert_eq!(chip.assign(&cs, &mut a), Err(Error::EqualityNotEnabled(thenval)));
    assert!(a.cells.is_empty() && a.enabled.is_empty() && a.bindings.is_empty());
    assert_eq!(a.next_row, 0);
}

#[test]
fn function_assign_error_leaves_grid_unchanged() {
    let mut cs = ConstraintSystem::new();
    let cfg = FunctionChip::configure(&mut cs);
    let chip = FunctionChip::construct(cfg);
    let mut a = Assignment::new(4, vec![]);
    let mut region = a.open_region();
    let t = a.assign_advice(&cs, &mut region, cfg.thenval, 0, Some(fv(9))).unwrap();
    assert_eq!(chip.assign(&cs, &mut a, fv(1), fv(2), fv(3)), Err(Error::DuplicateAssignment(t)));
    assert_eq!(a.cells.len(), 1);
    assert!(a.enabled.is_empty());
    let mut full = Assignment::new(0, vec![]);
    full.next_row = 1;
    assert_eq!(chip.assign(&cs, &mut full, fv(1), fv(2), fv(3)), Err(Error::RowOutOfBounds(0)));
}

#[test]
fn function_circuit_runs_are_reproducible() {
    let circuit = FunctionCircuit { cond: fv(1), thenval: fv(2), elseval: fv(3) };
    let run = || {
        let mut cs = ConstraintSystem::new();
        let cfg = FunctionCircuit::configure(&mut cs);
        let mut a = Assignment::new(4, vec![]);
        let r = circuit.synthesize(cfg, &cs, &mut a);
        (r, a.cells.len(), a.enabled.len(), a.bindings.len(), verify(&cs, &a, &vec![]))
    };
    let first = run();
    assert_eq!(first.0, Err(Error::EqualityNotEnabled(plonk_engine::circuit::Column { kind: ColumnKind::Instance, index: 0 })));
    assert_eq!((first.1, first.2, first.3), (4, 1, 0));
    assert!(first.4.is_empty());
    assert_eq!(first, run());
}

#[test]
fn select_several_rows_one_wrong() {
    let mut cs = ConstraintSystem::new();
    let cfg = FunctionChip::configure(&mut cs);
    let chip = FunctionChip::construct(cfg);
    let mut a = Assignment::new(4, vec![]);
    chip.assign(&cs, &mut a, fv(1), fv(2), fv(3)).unwrap();
    chip.assign(&cs, &mut a, fv(0), fv(2), fv(3)).unwrap();
    let mut region = a.open_region();
    a.enable_selector(&cs, &mut region, cfg.selector, 0).unwrap();
    for (col, v) in [(cfg.cond, 1), (cfg.thenval, 5), (cfg.elseval, 6), (cfg.output, 6)] {
        a.assign_advice(&cs, &mut region, col, 0, Some(fv(v))).unwrap();
    }
    a.close_region(region);
    chip.assign(&cs, &mut a, fv(1), fv(7), fv(8)).unwrap();
    assert_eq!(verify(&cs, &a, &vec![]), vec![Failure::GateViolation { gate: 0, row: 2, constraint: 0 }]);
}
