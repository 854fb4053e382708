use plonkish::assembly::Assembly;
use plonkish::checker::Violation;
use plonkish::circuit::{ColumnKind, ConstraintSystem};
use plonkish::field::{fe_from_u64, Fe};
use plonkish::fibonacci_column;
use plonkish::fibonacci_rows;
use plonkish::lookup_range;
use plonkish::simple_range;
use plonkish::tutorial::{TutorialChip, TutorialConfig};

fn fe(n: u64) -> Fe {
    fe_from_u64(n)
}

fn tutorial_violations(constant: u64, x: u64, y: u64, public: Vec<u64>) -> Vec<Violation> {
    let mut cs = ConstraintSystem::new();
    let config = TutorialConfig::configure(&mut cs).unwrap();
    let mut grid = Assembly::new(cs, 4, vec![public.into_iter().map(fe).collect()]).unwrap();
    let chip = TutorialChip::new(config);
    chip.synthesize(&mut grid, Some(fe(x)), Some(fe(y)), fe(constant)).unwrap();
    grid.check()
}

#[test]
fn e1_tutorial_practice_test() {
    let violations = tutorial_violations(7, 5, 9, vec![7, 25 * 81 + 7]);
    assert_eq!(violations.len(), 0);
}

#[test]
fn tutorial_wrong_public_input_is_caught() {
    let violations = tutorial_violations(7, 5, 9, vec![8, 25 * 81 + 7]);
    assert!(violations.iter().any(|v| matches!(v, Violation::PermutationViolation { .. })));
}

fn fibonacci_rows_violations(public: Vec<u64>) -> Vec<Violation> {
    let mut cs = ConstraintSystem::new();
    let config = fibonacci_rows::FibonacciChip::configure(&mut cs).unwrap();
    let mut grid = Assembly::new(cs, 4, vec![public.into_iter().map(fe).collect()]).unwrap();
    let chip = fibonacci_rows::FibonacciChip::construct(config);
    chip.synthesize(&mut grid).unwrap();
    grid.check()
}

#[test]
fn e3_fibonacci_ex1() {
    assert_eq!(fibonacci_rows_violations(vec![1, 1, 55]).len(), 0);
}

#[test]
fn fibonacci_rows_other_output_is_a_copy_violation() {
    let violations = fibonacci_rows_violations(vec![1, 1, 56]);
    assert_eq!(violations.len(), 1);
    assert!(matches!(violations[0], Violation::PermutationViolation { .. }));
}

fn fibonacci_column_violations(public: Vec<u64>) -> Vec<Violation> {
    let mut cs = ConstraintSystem::new();
    let advice = cs.allocate_column(ColumnKind::Advice).unwrap();
    let instance = cs.allocate_column(ColumnKind::Instance).unwrap();
    let config = fibonacci_column::FibonacciChip::configure(&mut cs, advice, instance).unwrap();
    let mut grid = Assembly::new(cs, 4, vec![public.into_iter().map(fe).collect()]).unwrap();
    let chip = fibonacci_column::FibonacciChip::constract(config);
    chip.synthesize(&mut grid).unwrap();
    grid.check()
}

#[test]
fn e3_fibonacci_ex2() {
    assert_eq!(fibonacci_column_violations(vec![1, 1, 55]).len(), 0);
}

#[test]
fn fibonacci_column_other_output_is_a_copy_violation() {
    for wrong in [0u64, 34, 54, 89] {
        let violations = fibonacci_column_violations(vec![1, 1, wrong]);
        assert_eq!(violations.len(), 1);
        assert!(matches!(violations[0], Violation::PermutationViolation { .. }));
    }
}

fn simple_range_violations(range: usize, value: u64) -> Vec<Violation> {
    let mut cs = ConstraintSystem::new();
    let column = cs.allocate_column(ColumnKind::Advice).unwrap();
    let config = simple_range::RangeCheckConfig::configure(&mut cs, column, range).unwrap();
    let mut grid = Assembly::new(cs, 4, vec![]).unwrap();
    config.assign(&mut grid, Some(fe(value))).unwrap();
    grid.check()
}

#[test]
fn e4_simple_rangecheck() {
    assert_eq!(simple_range_violations(8, 4).len(), 0);
}

#[test]
fn range_gate_accepts_exactly_the_range() {
    for range in 1usize..=16 {
        for value in 0u64..20 {
            let violations = simple_range_violations(range, value);
            if (value as usize) < range {
                assert_eq!(violations.len(), 0, "range {} value {}", range, value);
            } else {
                assert_eq!(violations.len(), 1, "range {} value {}", range, value);
                assert!(matches!(violations[0], Violation::GateViolation { .. }));
            }
        }
    }
}

fn lookup_range_violations(simple: u64, looked_up: u64) -> Vec<Violation> {
    let mut cs = ConstraintSystem::new();
    let column = cs.allocate_column(ColumnKind::Advice).unwrap();
    let config = lookup_range::RangeCheckConfig::configure(&mut cs, column, 8, 8).unwrap();
    let mut grid = Assembly::new(cs, 4, vec![]).unwrap();
    config.table.load(&mut grid).unwrap();
    config.assign_simple(&mut grid, Some(fe(simple))).unwrap();
    config.assign_lookup(&mut grid, Some(fe(looked_up))).unwrap();
    grid.check()
}

#[test]
fn e5_lookup_rangecheck() {
    assert_eq!(lookup_range_violations(4, 5).len(), 0);
}

#[test]
fn lookup_membership_follows_the_table() {
    for value in 0u64..8 {
        assert_eq!(lookup_range_violations(0, value).len(), 0);
    }
    for value in 8u64..12 {
        let violations = lookup_range_violations(0, value);
        assert_eq!(violations.len(), 1);
        match violations[0] {
            Violation::LookupViolation { lookup, row, value: v } => {
                assert_eq!(lookup, 0);
                assert_eq!(row, 1);
                assert!(plonkish::field::fe_eq(v, fe(value)));
            }
            _ => panic!("expected a lookup violation"),
        }
    }
}

#[test]
fn lookup_configuration_rejects_empty_ranges() {
    let mut cs = ConstraintSystem::new();
    let column = cs.allocate_column(ColumnKind::Advice).unwrap();
    assert_eq!(
        lookup_range::RangeCheckConfig::configure(&mut cs, column, 0, 8).unwrap_err(),
        plonkish::error::Error::InvalidParameter
    );
    assert_eq!(
        lookup_range::RangeCheckConfig::configure(&mut cs, column, 8, 0).unwrap_err(),
        plonkish::error::Error::InvalidParameter
    );
    assert_eq!(
        simple_range::RangeCheckConfig::configure(&mut cs, column, 0).unwrap_err(),
        plonkish::error::Error::InvalidParameter
    );
}
