use plonkish::assembly::{Assembly, TableEntry};
use plonkish::checker::Violation;
use plonkish::circuit::{Column, ColumnKind, ConstraintSystem, Expression};
use plonkish::error::Error;
use plonkish::field::{fe_add, fe_eq, fe_from_u64, fe_is_zero, fe_mul, fe_neg, Fe};
use plonkish::permutation::CellAddr;
use plonkish::tutorial::{TutorialChip, TutorialConfig};

fn fe(n: u64) -> Fe {
    fe_from_u64(n)
}

/// One advice column with equality, one region of three cells.
fn three_cells(values: [u64; 3]) -> (Assembly, [CellAddr; 3]) {
    let mut cs = ConstraintSystem::new();
    let col = cs.allocate_column(ColumnKind::Advice).unwrap();
    cs.enable_equality(col).unwrap();
    let mut grid = Assembly::new(cs, 3, vec![]).unwrap();
    grid.begin_region().unwrap();
    let a = grid.assign_advice(col, 0, Some(fe(values[0]))).unwrap();
    let b = grid.assign_advice(col, 1, Some(fe(values[1]))).unwrap();
    let c = grid.assign_advice(col, 2, Some(fe(values[2]))).unwrap();
    grid.end_region().unwrap();
    (grid, [a, b, c])
}

#[test]
fn copy_constraints_are_transitive() {
    let (mut grid, [a, b, c]) = three_cells([6, 6, 6]);
    grid.constrain_equal(a, b).unwrap();
    grid.constrain_equal(b, c).unwrap();
    assert_eq!(grid.classes.len(), 1);
    assert_eq!(grid.classes[0], vec![a, b, c]);
    assert_eq!(grid.check().len(), 0);

    let (mut grid, [a, b, c]) = three_cells([6, 6, 7]);
    grid.constrain_equal(a, b).unwrap();
    grid.constrain_equal(b, c).unwrap();
    let violations = grid.check();
    assert_eq!(violations.len(), 1);
    match violations[0] {
        Violation::PermutationViolation { class, cell_a, value_a, cell_b, value_b } => {
            assert_eq!(class, 0);
            assert_eq!(cell_a, a);
            assert_eq!(cell_b, c);
            assert!(fe_eq(value_a, fe(6)));
            assert!(fe_eq(value_b, fe(7)));
        }
        _ => panic!("expected a copy violation"),
    }
}

#[test]
fn merging_two_classes_keeps_one() {
    let (mut grid, [a, b, c]) = three_cells([1, 1, 1]);
    grid.constrain_equal(a, b).unwrap();
    grid.constrain_equal(c, c).unwrap();
    assert_eq!(grid.classes.len(), 2);
    grid.constrain_equal(b, c).unwrap();
    assert_eq!(grid.classes[0], vec![a, b, c]);
    assert_eq!(grid.classes[1].len(), 0);
    assert_eq!(grid.check().len(), 0);
}

fn multiply_violations(l: u64, r: u64, o: u64) -> Vec<Violation> {
    let mut cs = ConstraintSystem::new();
    let config = TutorialConfig::configure(&mut cs).unwrap();
    let mut grid = Assembly::new(cs, 4, vec![vec![]]).unwrap();
    let chip = TutorialChip::new(config);
    chip.raw_multiply(&mut grid, Some((fe(l), fe(r), fe(o)))).unwrap();
    grid.check()
}

#[test]
fn multiply_add_gate_scenario() {
    assert_eq!(multiply_violations(5, 5, 25).len(), 0);
    let violations = multiply_violations(5, 5, 26);
    assert_eq!(violations.len(), 1);
    match violations[0] {
        Violation::GateViolation { gate, row, poly, value } => {
            assert_eq!((gate, row, poly), (0, 0, 0));
            // 25 - 26 in the field
            assert!(fe_eq(fe_add(value, fe(1)), fe(0)));
        }
        _ => panic!("expected a gate violation"),
    }
}

#[test]
fn addition_row_satisfies_the_gate() {
    let mut cs = ConstraintSystem::new();
    let config = TutorialConfig::configure(&mut cs).unwrap();
    let mut grid = Assembly::new(cs, 4, vec![vec![]]).unwrap();
    let chip = TutorialChip::new(config);
    chip.raw_add(&mut grid, Some((fe(2025), fe(7), fe(2032)))).unwrap();
    assert_eq!(grid.check().len(), 0);
    chip.raw_add(&mut grid, Some((fe(1), fe(1), fe(3)))).unwrap();
    assert_eq!(grid.check().len(), 1);
}

#[test]
fn copy_to_unassigned_cell_is_missing() {
    let mut cs = ConstraintSystem::new();
    let col = cs.allocate_column(ColumnKind::Advice).unwrap();
    cs.enable_equality(col).unwrap();
    let mut grid = Assembly::new(cs, 3, vec![]).unwrap();
    grid.begin_region().unwrap();
    let a = grid.assign_advice(col, 0, Some(fe(3))).unwrap();
    let b = grid.declare_cell(col, 1).unwrap();
    grid.constrain_equal(a, b).unwrap();
    grid.end_region().unwrap();
    let violations = grid.check();
    assert_eq!(violations.len(), 1);
    match violations[0] {
        Violation::MissingAssignment { cell } => assert_eq!(cell, b),
        _ => panic!("expected a missing assignment"),
    }
}

#[test]
fn unknown_value_is_missing_when_constrained() {
    let mut cs = ConstraintSystem::new();
    let col = cs.allocate_column(ColumnKind::Advice).unwrap();
    cs.enable_equality(col).unwrap();
    let mut grid = Assembly::new(cs, 3, vec![]).unwrap();
    grid.begin_region().unwrap();
    let a = grid.assign_advice(col, 0, None).unwrap();
    let b = grid.assign_advice(col, 1, Some(fe(1))).unwrap();
    grid.constrain_equal(a, b).unwrap();
    grid.end_region().unwrap();
    let violations = grid.check();
    assert_eq!(violations.len(), 1);
    assert!(matches!(violations[0], Violation::MissingAssignment { cell } if cell == a));
}

#[test]
fn shape_changes_after_freezing_fail() {
    let mut cs = ConstraintSystem::new();
    let col = cs.allocate_column(ColumnKind::Advice).unwrap();
    cs.freeze();
    assert_eq!(cs.allocate_column(ColumnKind::Fixed).unwrap_err(), Error::ShapeFrozen);
    assert_eq!(cs.allocate_selector().unwrap_err(), Error::ShapeFrozen);
    assert_eq!(cs.enable_equality(col).unwrap_err(), Error::ShapeFrozen);
    assert_eq!(
        cs.create_gate(String::from("g"), vec![Expression::query(col, 0)]).unwrap_err(),
        Error::ShapeFrozen
    );
}

#[test]
fn unknown_handles_are_refused() {
    let mut cs = ConstraintSystem::new();
    let stray = Column { kind: ColumnKind::Advice, index: 3 };
    assert_eq!(cs.enable_equality(stray).unwrap_err(), Error::UnknownHandle);
    assert_eq!(
        cs.create_gate(String::from("g"), vec![Expression::query(stray, 0)]).unwrap_err(),
        Error::UnknownHandle
    );
    let table = cs.allocate_column(ColumnKind::Table).unwrap();
    assert_eq!(cs.enable_equality(table).unwrap_err(), Error::UnknownHandle);
    let advice = cs.allocate_column(ColumnKind::Advice).unwrap();
    assert_eq!(
        cs.add_lookup(String::from("l"), Expression::query(advice, 0), advice).unwrap_err(),
        Error::TableShapeMismatch
    );
    assert_eq!(cs.gates.len(), 0);
    assert_eq!(cs.lookups.len(), 0);
}

#[test]
fn assembly_construction_errors() {
    let cs = ConstraintSystem::new();
    assert_eq!(Assembly::new(cs, 64, vec![]).unwrap_err(), Error::Capacity);
    let mut cs = ConstraintSystem::new();
    cs.allocate_column(ColumnKind::Instance).unwrap();
    assert_eq!(Assembly::new(cs, 2, vec![]).unwrap_err(), Error::InvalidParameter);
    let mut cs = ConstraintSystem::new();
    cs.allocate_column(ColumnKind::Instance).unwrap();
    let too_long: Vec<Fe> = (0..5).map(fe).collect();
    assert_eq!(Assembly::new(cs, 2, vec![too_long]).unwrap_err(), Error::RowOutOfRange);
}

#[test]
fn region_and_cell_errors() {
    let mut cs = ConstraintSystem::new();
    let col = cs.allocate_column(ColumnKind::Advice).unwrap();
    let other = cs.allocate_column(ColumnKind::Advice).unwrap();
    cs.enable_equality(col).unwrap();
    let mut grid = Assembly::new(cs, 2, vec![]).unwrap();
    assert_eq!(grid.assign_advice(col, 0, Some(fe(1))).unwrap_err(), Error::NoOpenRegion);
    assert_eq!(grid.end_region().unwrap_err(), Error::NoOpenRegion);
    grid.begin_region().unwrap();
    assert_eq!(grid.begin_region().unwrap_err(), Error::RegionAlreadyOpen);
    let a = grid.assign_advice(col, 0, Some(fe(1))).unwrap();
    assert_eq!(grid.assign_advice(col, 0, Some(fe(2))).unwrap_err(), Error::CellCollision);
    assert_eq!(grid.assign_advice(col, 4, Some(fe(2))).unwrap_err(), Error::RowOutOfRange);
    let fixed = Column { kind: ColumnKind::Fixed, index: 0 };
    assert_eq!(grid.assign_fixed(fixed, 0, fe(2)).unwrap_err(), Error::UnknownHandle);
    let b = grid.assign_advice(other, 0, Some(fe(1))).unwrap();
    assert_eq!(grid.constrain_equal(a, b).unwrap_err(), Error::NotEqualityEnabled);
    grid.end_region().unwrap();
    assert_eq!(grid.next_row, 1);
    grid.begin_region().unwrap();
    let c = grid.assign_advice(col, 0, Some(fe(5))).unwrap();
    assert_eq!(c.row, 1);
    grid.end_region().unwrap();
}

#[test]
fn table_loading_errors() {
    let mut cs = ConstraintSystem::new();
    let table = cs.allocate_column(ColumnKind::Table).unwrap();
    let second = cs.allocate_column(ColumnKind::Table).unwrap();
    let mut grid = Assembly::new(cs, 2, vec![]).unwrap();
    let gap = vec![
        TableEntry { column: table.index, row: 0, value: fe(0) },
        TableEntry { column: table.index, row: 2, value: fe(2) },
    ];
    assert_eq!(grid.load_table(gap).unwrap_err(), Error::TableGap);
    let one_column = vec![TableEntry { column: table.index, row: 0, value: fe(0) }];
    assert_eq!(grid.load_table(one_column).unwrap_err(), Error::TableShapeMismatch);
    let unknown = vec![TableEntry { column: 7, row: 0, value: fe(0) }];
    assert_eq!(grid.load_table(unknown).unwrap_err(), Error::TableShapeMismatch);
    let full = vec![
        TableEntry { column: table.index, row: 0, value: fe(0) },
        TableEntry { column: second.index, row: 0, value: fe(9) },
        TableEntry { column: table.index, row: 1, value: fe(1) },
    ];
    grid.load_table(full).unwrap();
    assert!(grid.tables_loaded);
    assert_eq!(grid.table.len(), 3);
    let again = vec![TableEntry { column: table.index, row: 0, value: fe(0) }];
    assert_eq!(grid.load_table(again).unwrap_err(), Error::TableAlreadyLoaded);
}

#[test]
fn rotation_outside_the_grid_is_reported() {
    let mut cs = ConstraintSystem::new();
    let col = cs.allocate_column(ColumnKind::Advice).unwrap();
    let s = cs.allocate_selector().unwrap();
    let poly = Expression::selector(s).product(Expression::query(col, 1));
    cs.create_gate(String::from("next"), vec![poly]).unwrap();
    let mut grid = Assembly::new(cs, 1, vec![]).unwrap();
    grid.begin_region().unwrap();
    grid.enable_selector(s, 1).unwrap();
    grid.end_region().unwrap();
    let violations = grid.check();
    assert_eq!(violations.len(), 1);
    assert!(matches!(violations[0], Violation::OutOfRangeRotation { gate: 0, row: 1, poly: 0 }));
}

#[test]
fn lookup_reading_outside_the_grid_is_reported() {
    let mut cs = ConstraintSystem::new();
    let col = cs.allocate_column(ColumnKind::Advice).unwrap();
    let table = cs.allocate_column(ColumnKind::Table).unwrap();
    cs.add_lookup(String::from("prev"), Expression::query(col, -1), table).unwrap();
    let mut grid = Assembly::new(cs, 1, vec![]).unwrap();
    grid.load_table(vec![TableEntry { column: 0, row: 0, value: fe(0) }]).unwrap();
    let violations = grid.check();
    assert_eq!(violations.len(), 1);
    assert!(matches!(violations[0], Violation::LookupOutOfRange { lookup: 0, row: 0 }));
}

#[test]
fn gate_without_selector_applies_everywhere() {
    let mut cs = ConstraintSystem::new();
    let col = cs.allocate_column(ColumnKind::Fixed).unwrap();
    let poly = Expression::query(col, 0).difference(Expression::constant(fe(4)));
    cs.create_gate(String::from("four"), vec![poly]).unwrap();
    let mut grid = Assembly::new(cs, 1, vec![]).unwrap();
    grid.begin_region().unwrap();
    grid.assign_fixed(col, 0, fe(4)).unwrap();
    grid.end_region().unwrap();
    let violations = grid.check();
    assert_eq!(violations.len(), 1);
    assert!(matches!(violations[0], Violation::GateViolation { gate: 0, row: 1, poly: 0, .. }));
}

#[test]
fn field_arithmetic() {
    assert!(fe_eq(fe_add(fe(2), fe(3)), fe(5)));
    assert!(fe_eq(fe_mul(fe(6), fe(7)), fe(42)));
    assert!(fe_eq(fe_add(fe(10), fe_neg(fe(4))), fe(6)));
    assert!(fe_eq(fe_add(fe_add(fe(3), fe_neg(fe(5))), fe(2)), fe(0)));
    assert!(fe_eq(fe_add(fe_neg(fe(9)), fe(9)), fe(0)));
    assert!(!fe_eq(fe_neg(fe(9)), fe(9)));
    assert!(fe_is_zero(fe(0)));
    assert!(!fe_is_zero(fe(1)));
    assert!(!fe_eq(fe(1), fe(2)));
    let big = fe_mul(fe(u64::MAX), fe(u64::MAX));
    assert!(fe_is_zero(fe_add(big, fe_neg(fe_mul(fe(u64::MAX), fe(u64::MAX))))));
    assert!(!fe_eq(big, fe(0)));
}
