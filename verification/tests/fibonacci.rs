use fib_circuit::checker::check;
use fib_circuit::checker::Violation;
use fib_circuit::field::Fp;
use fib_circuit::system::ConstraintSystem;
use fib_circuit::table::CellId;
use fib_circuit::table::CircuitTable;

fn fp(n: u64) -> Fp {
    Fp::from_u64(n)
}

fn fib_u64(mut a: u64, mut b: u64, n: usize) -> u64 {
    for _ in 0..n {
        let c = a + b;
        a = b;
        b = c;
    }
    a
}

fn strategy_a(
    public: &Vec<Fp>,
    steps: usize,
) -> (ConstraintSystem, fib_circuit::example1::FiboConfig, CircuitTable) {
    let mut cs = ConstraintSystem::new();
    let cfg = fib_circuit::example1::FiboChip::configure(&mut cs);
    let chip = fib_circuit::example1::FiboChip::construct(cfg);
    let mut table = CircuitTable::new(&cs, 16, public);
    chip.synthesize(&mut table, steps).unwrap();
    (cs, cfg, table)
}

fn strategy_b(
    public: &Vec<Fp>,
    nrows: usize,
) -> (ConstraintSystem, fib_circuit::example2::FiboConfig, CircuitTable) {
    let mut cs = ConstraintSystem::new();
    let advice = cs.advice_column();
    let cfg = fib_circuit::example2::FiboChip::configure(&mut cs, advice);
    let chip = fib_circuit::example2::FiboChip::construct(cfg);
    let mut table = CircuitTable::new(&cs, 16, public);
    chip.synthesize(&mut table, nrows).unwrap();
    (cs, cfg, table)
}

#[test]
fn fibonacci_example1() {
    let public = vec![fp(1), fp(1), fp(55)];
    let mut cs = ConstraintSystem::new();
    let cfg = fib_circuit::example1::FiboChip::configure(&mut cs);
    let chip = fib_circuit::example1::FiboChip::construct(cfg);
    let mut table = CircuitTable::new(&cs, 16, &public);
    let out = chip.synthesize(&mut table, 7).unwrap();
    assert_eq!(out.value.v, 55);
    let violations = check(&cs, &table, &public);
    assert!(violations.is_empty());
}

#[test]
fn fibonacci_example2() {
    let public = vec![fp(1), fp(1), fp(55)];
    let mut cs = ConstraintSystem::new();
    let advice = cs.advice_column();
    let cfg = fib_circuit::example2::FiboChip::configure(&mut cs, advice);
    let chip = fib_circuit::example2::FiboChip::construct(cfg);
    let mut table = CircuitTable::new(&cs, 16, &public);
    let out = chip.synthesize(&mut table, 10).unwrap();
    assert_eq!(out.value.v, 55);
    assert_eq!(out.row, 9);
    let violations = check(&cs, &table, &public);
    assert!(violations.is_empty());
}

#[test]
fn mutated_public_input_is_a_mismatch() {
    let public = vec![fp(1), fp(1), fp(55)];
    let (cs, _cfg, table) = strategy_a(&public, 7);
    let mutated = vec![fp(1), fp(1), fp(56)];
    let violations = check(&cs, &table, &mutated);
    assert_eq!(violations, vec![Violation::PublicInputMismatch { row: 2 }]);
}

#[test]
fn selector_gating_example1() {
    let public = vec![fp(1), fp(1), fp(55)];
    let (cs, cfg, mut table) = strategy_a(&public, 7);
    // Corrupt the C cell of row 3: its gate is now violated there.
    table.advice[cfg.col_c][3] = Some(fp(999));
    let violations = check(&cs, &table, &public);
    assert!(violations.contains(&Violation::GateViolation { gate: 0, row: 3 }));
    // Disabling the selector at that row removes that row's gate check.
    table.selectors[cfg.selector][3] = false;
    let violations = check(&cs, &table, &public);
    assert!(!violations.contains(&Violation::GateViolation { gate: 0, row: 3 }));
}

#[test]
fn selector_gating_example2() {
    let public = vec![fp(1), fp(1), fp(55)];
    let (cs, cfg, mut table) = strategy_b(&public, 10);
    assert!(table.selectors[cfg.selector][2]);
    table.selectors[cfg.selector][2] = false;
    let violations = check(&cs, &table, &public);
    assert!(!violations.contains(&Violation::GateViolation { gate: 0, row: 2 }));
}

#[test]
fn broken_copy_is_exactly_one_violation() {
    let mut cs = ConstraintSystem::new();
    let cfg = fib_circuit::example1::FiboChip::configure(&mut cs);
    let chip = fib_circuit::example1::FiboChip::construct(cfg);
    let public = vec![fp(0), fp(1), fp(3)];
    let mut table = CircuitTable::new(&cs, 8, &public);
    chip.assign_first_row(&mut table, 0).unwrap();
    // Row 1, built by hand: column A gets 2 where row 0's B holds 1,
    // while the copy constraint between the two cells is still
    // recorded; everything downstream is consistent with the 2.
    table.enable_selector(cfg.selector, 1);
    table.assign_advice(cfg.col_a, 1, fp(2)).unwrap();
    table.copies.push((
        CellId::Advice { col: cfg.col_b, row: 0 },
        CellId::Advice { col: cfg.col_a, row: 1 },
    ));
    table.copy_advice(cfg.col_c, 0, cfg.col_b, 1).unwrap();
    let c1 = table.assign_advice(cfg.col_c, 1, fp(3)).unwrap();
    chip.expose_public(&mut table, &c1, 2).unwrap();
    let violations = check(&cs, &table, &public);
    assert_eq!(
        violations,
        vec![Violation::CopyConstraintViolation {
            a: CellId::Advice { col: cfg.col_b, row: 0 },
            b: CellId::Advice { col: cfg.col_a, row: 1 },
        }]
    );
}

#[test]
fn checker_is_idempotent() {
    let public = vec![fp(1), fp(1), fp(55)];
    let (cs, _cfg, table) = strategy_a(&public, 7);
    let first = check(&cs, &table, &public);
    let second = check(&cs, &table, &public);
    assert_eq!(first, second);
    let mutated = vec![fp(1), fp(1), fp(56)];
    let first = check(&cs, &table, &mutated);
    let second = check(&cs, &table, &mutated);
    assert_eq!(first, second);
}

#[test]
fn strategy_b_never_enables_last_two_rows() {
    for nrows in [4usize, 5, 7, 10] {
        let out = fib_u64(0, 1, nrows - 1);
        let public = vec![fp(0), fp(1), fp(out)];
        let (cs, cfg, table) = strategy_b(&public, nrows);
        assert!(!table.selectors[cfg.selector][nrows - 1]);
        assert!(!table.selectors[cfg.selector][nrows - 2]);
        for r in 0..nrows - 2 {
            assert!(table.selectors[cfg.selector][r]);
        }
        let violations = check(&cs, &table, &public);
        assert!(violations.is_empty());
    }
}

#[test]
fn seeds_zero_one_give_the_ninth_term() {
    // From seeds 0 and 1, seven recurrence rows end at term 9 of the
    // zero-indexed sequence, which is 34; a 10-row single column ends
    // at the same term.
    let public = vec![fp(0), fp(1), fp(34)];
    let (cs, _cfg, table) = strategy_a(&public, 7);
    assert!(check(&cs, &table, &public).is_empty());
    let (cs, cfg, table) = strategy_b(&public, 10);
    assert_eq!(table.advice[cfg.advice][9], Some(fp(34)));
    assert!(check(&cs, &table, &public).is_empty());
}

#[test]
fn build_and_check_accepts_only_the_true_output() {
    let public = vec![fp(1), fp(1), fp(55)];
    assert!(fib_circuit::example1::build_and_check(&public, 7).is_empty());
    assert!(fib_circuit::example2::build_and_check(&public, 10).is_empty());
    let wrong = vec![fp(1), fp(1), fp(56)];
    assert!(!fib_circuit::example1::build_and_check(&wrong, 7).is_empty());
    let wrong = vec![fp(1), fp(1), fp(54)];
    assert!(!fib_circuit::example2::build_and_check(&wrong, 10).is_empty());
}
