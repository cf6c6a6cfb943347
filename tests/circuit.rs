use plonkish::assignment::{AssignError, Assignment, Cell, Slot};
use plonkish::checker::{verify, wrap_row, Failure};
use plonkish::field::{add, from_u64, mul, neg, MODULUS};
use plonkish::system::{Column, ColumnKind, ConfigError, ConstraintSystem, Expr};
use plonkish::tutorial::{TutorialChip, TutorialCircuit, TutorialConfig};

fn example(x: u64, y: u64, constant: u64, k: u32) -> (ConstraintSystem, TutorialConfig, Assignment) {
    let mut cs = ConstraintSystem::new();
    let config = TutorialCircuit::configure(&mut cs);
    let circuit = TutorialCircuit { x: Some(x), y: Some(y), constant };
    let mut a = Assignment::new(&cs, k);
    circuit.synthesize(config, &cs, &mut a).unwrap();
    (cs, config, a)
}

#[test]
fn valid_witness_passes() {
    let (cs, _, a) = example(5, 9, 7, 4);
    assert_eq!(a.rows, 16);
    assert_eq!(verify(&cs, &a, &vec![vec![7, 2032]]), Ok(()));
}

#[test]
fn incremented_constant_input_fails() {
    let (cs, config, a) = example(5, 9, 7, 4);
    let errs = verify(&cs, &a, &vec![vec![8, 2032]]).unwrap_err();
    assert_eq!(errs, vec![Failure::PublicInputMismatch { binding: 0, column: config.pi.index, row: 0 }]);
}

#[test]
fn incremented_result_input_fails() {
    let (cs, config, a) = example(5, 9, 7, 4);
    let errs = verify(&cs, &a, &vec![vec![7, 2033]]).unwrap_err();
    assert_eq!(errs, vec![Failure::PublicInputMismatch { binding: 1, column: config.pi.index, row: 1 }]);
}

#[test]
fn missing_public_input_fails() {
    let (cs, _, a) = example(5, 9, 7, 4);
    let errs = verify(&cs, &a, &vec![vec![7]]).unwrap_err();
    assert!(matches!(errs[0], Failure::PublicInputMismatch { binding: 1, row: 1, .. }));
    assert_eq!(errs.len(), 1);
}

#[test]
fn public_input_shape_is_checked() {
    let (cs, _, a) = example(5, 9, 7, 4);
    let mismatches = vec![
        Failure::PublicInputShape,
        Failure::PublicInputMismatch { binding: 0, column: 0, row: 0 },
        Failure::PublicInputMismatch { binding: 1, column: 0, row: 1 },
    ];
    assert_eq!(verify(&cs, &a, &vec![]), Err(mismatches.clone()));
    assert_eq!(verify(&cs, &a, &vec![vec![0; 17]]), Err(mismatches));
    let mut long = vec![7, 2032];
    long.resize(17, 0);
    assert_eq!(verify(&cs, &a, &vec![long]), Err(vec![Failure::PublicInputShape]));
    assert_eq!(
        verify(&cs, &a, &vec![vec![7, 2032], vec![]]),
        Err(vec![Failure::PublicInputShape])
    );
}

#[test]
fn shape_failure_does_not_hide_others() {
    let (cs, p, q) = two_advice();
    let mut a = Assignment::new(&cs, 1);
    a.begin_region();
    let c0 = a.assign_advice(p, 0, Some(1)).unwrap();
    let c1 = a.assign_advice(q, 0, Some(2)).unwrap();
    a.constrain_equal(&cs, c0, c1).unwrap();
    assert_eq!(
        verify(&cs, &a, &vec![vec![3]]),
        Err(vec![Failure::PublicInputShape, Failure::UnequalCells { copy: 0, a: c0, b: c1 }])
    );
}

#[test]
fn gate_names_are_fixed() {
    let mut cs = ConstraintSystem::new();
    TutorialCircuit::configure(&mut cs);
    assert_eq!(cs.gates[0].name, "mimi plonk");
    assert_eq!(cs.gates[1].name, "public input");
}

#[test]
fn run_without_witness_fails() {
    let circuit = TutorialCircuit { x: Some(5), y: None, constant: 7 };
    let errs = circuit.run(4, &vec![vec![7, 2032]]).unwrap().unwrap_err();
    assert!(errs.contains(&Failure::UnassignedCell { copy: 1, cell: Cell { column: Column { kind: ColumnKind::Advice, index: 0 }, row: 1 } }));
}

#[test]
fn failed_synthesis_leaves_table_unchanged() {
    let mut cs = ConstraintSystem::new();
    let config = TutorialCircuit::configure(&mut cs);
    let chip = TutorialChip::new(config);
    let mut a = Assignment::new(&cs, 2);
    chip.raw_multiply(&mut a, Some((2, 3, 6))).unwrap();
    let circuit = TutorialCircuit { x: Some(5), y: Some(9), constant: 7 };
    assert_eq!(circuit.synthesize(config, &cs, &mut a), Err(AssignError::RowOutOfRange));
    assert_eq!(a.next_row, 1);
    assert_eq!(a.region_start, 0);
    assert_eq!(a.copies.len(), 0);
    assert_eq!(a.advice[config.l.index][1], Slot::Empty);
}

#[test]
fn configure_is_deterministic() {
    let mut cs1 = ConstraintSystem::new();
    let c1 = TutorialCircuit::configure(&mut cs1);
    let mut cs2 = ConstraintSystem::new();
    let c2 = TutorialCircuit::configure(&mut cs2);
    assert_eq!(c1, c2);
    assert_eq!((cs1.num_advice, cs1.num_fixed, cs1.num_instance), (3, 6, 1));
    assert_eq!((cs2.num_advice, cs2.num_fixed, cs2.num_instance), (3, 6, 1));
    assert_eq!(cs1.gates.len(), 2);
    assert_eq!(cs2.gates.len(), 2);
    assert_eq!(cs1.equality, cs2.equality);
}

#[test]
fn table_too_small_for_synthesis() {
    let mut cs = ConstraintSystem::new();
    let config = TutorialCircuit::configure(&mut cs);
    let circuit = TutorialCircuit { x: Some(5), y: Some(9), constant: 7 };
    let mut a = Assignment::new(&cs, 1);
    assert_eq!(circuit.synthesize(config, &cs, &mut a), Err(AssignError::RowOutOfRange));
}

#[test]
fn witness_free_pass_leaves_cells_unknown() {
    let mut cs = ConstraintSystem::new();
    let config = TutorialCircuit::configure(&mut cs);
    let circuit = TutorialCircuit { x: Some(5), y: Some(9), constant: 7 }.without_witnesses();
    assert_eq!(circuit.constant, 0);
    let mut a = Assignment::new(&cs, 4);
    assert_eq!(circuit.synthesize(config, &cs, &mut a), Ok(()));
    assert_eq!(a.advice[config.l.index][0], Slot::Unknown);
    let errs = verify(&cs, &a, &vec![vec![7, 2032]]).unwrap_err();
    assert!(errs.contains(&Failure::UnassignedCell { copy: 0, cell: Cell { column: config.l, row: 0 } }));
}

#[test]
fn synthesis_writes_the_expected_rows() {
    let (_, config, a) = example(5, 9, 7, 4);
    let l = &a.advice[config.l.index];
    let r = &a.advice[config.r.index];
    let o = &a.advice[config.o.index];
    assert_eq!((l[0], r[0], o[0]), (Slot::Known(5), Slot::Known(5), Slot::Known(25)));
    assert_eq!((l[1], r[1], o[1]), (Slot::Known(9), Slot::Known(9), Slot::Known(81)));
    assert_eq!((l[2], r[2], o[2]), (Slot::Known(25), Slot::Known(81), Slot::Known(2025)));
    assert_eq!((l[3], r[3], o[3]), (Slot::Known(2025), Slot::Known(7), Slot::Known(2032)));
    assert_eq!(a.fixed[config.sm.index][0], Slot::Known(1));
    assert_eq!(a.fixed[config.sl.index][3], Slot::Known(1));
    assert_eq!(a.fixed[config.sm.index][3], Slot::Empty);
    assert_eq!(a.next_row, 4);
}

#[test]
fn wrong_witness_breaks_a_gate() {
    let mut cs = ConstraintSystem::new();
    let config = TutorialCircuit::configure(&mut cs);
    let chip = TutorialChip::new(config);
    let mut a = Assignment::new(&cs, 3);
    chip.raw_multiply(&mut a, Some((3, 4, 12))).unwrap();
    chip.raw_add(&mut a, Some((3, 4, 8))).unwrap();
    let errs = verify(&cs, &a, &vec![vec![]]).unwrap_err();
    assert_eq!(errs, vec![Failure::GateUnsatisfied { gate: 0, row: 1 }]);
}

#[test]
fn field_arithmetic_wraps_at_modulus() {
    assert_eq!(add(MODULUS - 1, 2), 1);
    assert_eq!(mul(MODULUS - 1, MODULUS - 1), 1);
    assert_eq!(mul(5, 9), 45);
    assert_eq!(neg(0), 0);
    assert_eq!(neg(1), MODULUS - 1);
    assert_eq!(from_u64(MODULUS + 3), 3);
}

#[test]
fn rotations_wrap_around_the_table() {
    assert_eq!(wrap_row(0, -1, 16), 15);
    assert_eq!(wrap_row(15, 1, 16), 0);
    assert_eq!(wrap_row(3, -35, 16), 0);
    assert_eq!(wrap_row(3, 34, 16), 5);
    assert_eq!(wrap_row(7, 0, 16), 7);
}

fn two_advice() -> (ConstraintSystem, Column, Column) {
    let mut cs = ConstraintSystem::new();
    let p = cs.advice_column().unwrap();
    let q = cs.advice_column().unwrap();
    cs.enable_equality(p).unwrap();
    cs.enable_equality(q).unwrap();
    (cs, p, q)
}

fn unequal_pairs(errs: &[Failure]) -> Vec<(Cell, Cell)> {
    let mut v = Vec::new();
    for f in errs {
        if let Failure::UnequalCells { a, b, .. } = f {
            v.push((*a, *b));
        }
    }
    v
}

#[test]
fn equality_independent_of_order() {
    let (cs, p, q) = two_advice();
    for forward in [true, false] {
        let mut a = Assignment::new(&cs, 2);
        a.begin_region();
        let c0 = a.assign_advice(p, 0, Some(4)).unwrap();
        let c1 = a.assign_advice(q, 0, Some(4)).unwrap();
        let c2 = a.assign_advice(p, 1, Some(6)).unwrap();
        let c3 = a.assign_advice(q, 1, Some(7)).unwrap();
        if forward {
            a.constrain_equal(&cs, c0, c1).unwrap();
            a.constrain_equal(&cs, c2, c3).unwrap();
        } else {
            a.constrain_equal(&cs, c2, c3).unwrap();
            a.constrain_equal(&cs, c0, c1).unwrap();
        }
        let errs = verify(&cs, &a, &vec![]).unwrap_err();
        assert_eq!(unequal_pairs(&errs), vec![(c2, c3)]);
    }
}

#[test]
fn equal_cells_pass() {
    let (cs, p, q) = two_advice();
    let mut a = Assignment::new(&cs, 1);
    a.begin_region();
    let c0 = a.assign_advice(p, 0, Some(4)).unwrap();
    let c1 = a.assign_advice(q, 0, Some(MODULUS + 4)).unwrap();
    a.constrain_equal(&cs, c1, c0).unwrap();
    assert_eq!(verify(&cs, &a, &vec![]), Ok(()));
}

#[test]
fn row_isolation() {
    let mut cs = ConstraintSystem::new();
    let p = cs.advice_column().unwrap();
    let q = cs.advice_column().unwrap();
    cs.create_gate(String::from("p = q"), vec![Expr::query(p, 0).sub(Expr::query(q, 0))]);
    let mut a = Assignment::new(&cs, 2);
    a.begin_region();
    a.assign_advice(p, 0, Some(3)).unwrap();
    a.assign_advice(q, 0, Some(3)).unwrap();
    a.assign_advice(p, 1, Some(3)).unwrap();
    a.assign_advice(q, 1, Some(5)).unwrap();
    assert_eq!(verify(&cs, &a, &vec![]), Err(vec![Failure::GateUnsatisfied { gate: 0, row: 1 }]));
}

#[test]
fn next_row_query() {
    let mut cs = ConstraintSystem::new();
    let p = cs.advice_column().unwrap();
    cs.create_gate(String::from("step"), vec![Expr::query(p, 1).sub(Expr::query(p, 0)).sub(Expr::constant(1))]);
    let mut a = Assignment::new(&cs, 2);
    a.begin_region();
    for (i, v) in [5u64, 6, 7, 4].iter().enumerate() {
        a.assign_advice(p, i, Some(*v)).unwrap();
    }
    assert_eq!(verify(&cs, &a, &vec![]), Err(vec![Failure::GateUnsatisfied { gate: 0, row: 2 }]));
}

#[test]
fn rewrite_fails_even_with_same_value() {
    let (cs, p, _) = two_advice();
    let mut a = Assignment::new(&cs, 2);
    a.begin_region();
    a.assign_advice(p, 0, Some(9)).unwrap();
    assert_eq!(a.assign_advice(p, 0, Some(9)), Err(AssignError::AlreadyAssigned));
    assert_eq!(a.advice[p.index][0], Slot::Known(9));
}

#[test]
fn regions_are_sequential() {
    let (cs, p, q) = two_advice();
    let mut a = Assignment::new(&cs, 2);
    a.begin_region();
    a.assign_advice(p, 1, Some(1)).unwrap();
    a.begin_region();
    let c = a.assign_advice(q, 0, Some(2)).unwrap();
    assert_eq!(c.row, 2);
    assert_eq!(a.assign_advice(p, 2, Some(2)), Err(AssignError::RowOutOfRange));
}

#[test]
fn assignment_errors() {
    let mut cs = ConstraintSystem::new();
    let p = cs.advice_column().unwrap();
    let f = cs.fixed_column().unwrap();
    let i = cs.instance_column().unwrap();
    let mut a = Assignment::new(&cs, 2);
    a.begin_region();
    assert_eq!(a.assign_advice(i, 0, Some(1)), Err(AssignError::ColumnKindMismatch));
    assert_eq!(a.assign_advice(f, 0, Some(1)), Err(AssignError::ColumnKindMismatch));
    assert_eq!(a.assign_fixed(p, 0, 1), Err(AssignError::ColumnKindMismatch));
    let ghost_col = Column { kind: ColumnKind::Advice, index: 5 };
    assert_eq!(a.assign_advice(ghost_col, 0, Some(1)), Err(AssignError::UnknownColumn));
    assert_eq!(a.assign_advice(p, 4, Some(1)), Err(AssignError::RowOutOfRange));
    let c = a.assign_advice(p, 0, Some(1)).unwrap();
    assert_eq!(a.constrain_equal(&cs, c, c), Err(AssignError::NotEqualityEnabled));
    assert_eq!(a.constrain_instance(&cs, c, p, 0), Err(AssignError::ColumnKindMismatch));
    assert_eq!(a.constrain_instance(&cs, c, Column { kind: ColumnKind::Instance, index: 3 }, 0), Err(AssignError::UnknownColumn));
    assert_eq!(a.constrain_instance(&cs, c, i, 0), Ok(()));
}

#[test]
fn configuration_errors() {
    let mut cs = ConstraintSystem::new();
    let stray = Column { kind: ColumnKind::Fixed, index: 0 };
    assert_eq!(cs.enable_equality(stray), Err(ConfigError::UnknownColumn));
    let f = cs.fixed_column().unwrap();
    assert_eq!(f, stray);
    assert_eq!(cs.enable_equality(f), Ok(()));
}

#[test]
fn run_accepts_matching_inputs() {
    let circuit = TutorialCircuit { x: Some(5), y: Some(9), constant: 7 };
    assert_eq!(circuit.run(4, &vec![vec![7, 2032]]), Ok(Ok(())));
    assert_eq!(circuit.run(2, &vec![vec![7, 2032, 0, 0]]), Ok(Ok(())));
}

#[test]
fn run_rejects_each_incremented_input() {
    let circuit = TutorialCircuit { x: Some(5), y: Some(9), constant: 7 };
    for i in 0..2 {
        let mut inputs = vec![7, 2032];
        inputs[i] = add(from_u64(inputs[i]), 1);
        let errs = circuit.run(4, &vec![inputs]).unwrap().unwrap_err();
        assert!(errs.iter().all(|f| matches!(f, Failure::PublicInputMismatch { .. } | Failure::GateUnsatisfied { .. })));
        assert!(!errs.is_empty());
    }
}

#[test]
fn run_needs_four_rows() {
    let circuit = TutorialCircuit { x: Some(5), y: Some(9), constant: 7 };
    assert_eq!(circuit.run(1, &vec![vec![7, 2032]]), Err(AssignError::RowOutOfRange));
}

#[test]
fn run_reduces_inputs_modulo_the_field() {
    let circuit = TutorialCircuit { x: Some(MODULUS + 5), y: Some(9), constant: 7 };
    assert_eq!(circuit.run(4, &vec![vec![MODULUS + 7, 2032]]), Ok(Ok(())));
}

#[test]
fn equality_with_an_instance_cell() {
    let mut cs = ConstraintSystem::new();
    let p = cs.advice_column().unwrap();
    let i = cs.instance_column().unwrap();
    cs.enable_equality(p).unwrap();
    cs.enable_equality(i).unwrap();
    let mut a = Assignment::new(&cs, 1);
    a.begin_region();
    let c = a.assign_advice(p, 0, Some(11)).unwrap();
    let public = Cell { column: i, row: 1 };
    a.constrain_equal(&cs, c, public).unwrap();
    a.constrain_instance(&cs, c, i, 1).unwrap();
    assert_eq!(verify(&cs, &a, &vec![vec![0, 11]]), Ok(()));
    assert_eq!(
        verify(&cs, &a, &vec![vec![0, 12]]),
        Err(vec![
            Failure::PublicInputMismatch { binding: 0, column: 0, row: 1 },
            Failure::UnequalCells { copy: 0, a: c, b: public },
        ])
    );
    assert_eq!(
        verify(&cs, &a, &vec![vec![0]]),
        Err(vec![
            Failure::PublicInputMismatch { binding: 0, column: 0, row: 1 },
            Failure::UnassignedCell { copy: 0, cell: public },
        ])
    );
}
