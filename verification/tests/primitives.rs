use fib_circuit::checker::check;
use fib_circuit::checker::Violation;
use fib_circuit::field::Fp;
use fib_circuit::field::MODULUS;
use fib_circuit::system::ConstraintSystem;
use fib_circuit::table::CellId;
use fib_circuit::table::CircuitError;
use fib_circuit::table::CircuitTable;

fn fp(n: u64) -> Fp {
    Fp::from_u64(n)
}

fn small_table() -> (ConstraintSystem, fib_circuit::example1::FiboConfig, CircuitTable) {
    let mut cs = ConstraintSystem::new();
    let cfg = fib_circuit::example1::FiboChip::configure(&mut cs);
    let public = vec![fp(0), fp(1), fp(55)];
    let table = CircuitTable::new(&cs, 8, &public);
    (cs, cfg, table)
}

#[test]
fn field_addition_reduces() {
    assert_eq!(fp(3).add(fp(4)).v, 7);
    assert_eq!(fp(MODULUS - 1).add(fp(5)).v, 4);
    assert_eq!(fp(MODULUS - 1).add(fp(1)).v, 0);
}

#[test]
fn field_subtraction_reduces() {
    assert_eq!(fp(7).sub(fp(3)).v, 4);
    assert_eq!(fp(0).sub(fp(1)).v, MODULUS - 1);
    assert!(Fp::zero().is_zero());
    assert!(!fp(2).is_zero());
}

#[test]
fn field_embedding_reduces() {
    assert_eq!(Fp::from_u64(MODULUS).v, 0);
    assert_eq!(Fp::from_u64(MODULUS + 9).v, 9);
}

#[test]
fn double_assignment_is_an_error() {
    let (_cs, cfg, mut table) = small_table();
    table.assign_advice(cfg.col_a, 0, fp(5)).unwrap();
    let err = table.assign_advice(cfg.col_a, 0, fp(6)).unwrap_err();
    assert_eq!(
        err,
        CircuitError::AlreadyAssigned { cell: CellId::Advice { col: cfg.col_a, row: 0 } }
    );
}

#[test]
fn copying_an_unassigned_cell_is_an_error() {
    let (_cs, cfg, mut table) = small_table();
    let err = table.copy_advice(cfg.col_a, 0, cfg.col_b, 1).unwrap_err();
    assert_eq!(
        err,
        CircuitError::NotAssigned { cell: CellId::Advice { col: cfg.col_a, row: 0 } }
    );
}

#[test]
fn binding_past_the_public_inputs_is_an_error() {
    let (_cs, cfg, mut table) = small_table();
    let cell = table.assign_advice(cfg.col_a, 0, fp(5)).unwrap();
    let err = table.constrain_instance(cell.col, cell.row, 5).unwrap_err();
    assert_eq!(err, CircuitError::UnboundPublicInput { row: 5 });
    let err = table.assign_advice_from_instance(7, cfg.col_b, 0).unwrap_err();
    assert_eq!(err, CircuitError::UnboundPublicInput { row: 7 });
}

#[test]
fn exposing_an_unassigned_cell_is_an_error() {
    let (_cs, cfg, mut table) = small_table();
    let err = table.constrain_instance(cfg.col_c, 3, 2).unwrap_err();
    assert_eq!(
        err,
        CircuitError::NotAssigned { cell: CellId::Advice { col: cfg.col_c, row: 3 } }
    );
}

#[test]
fn enabled_gate_over_unassigned_cells_is_a_violation() {
    let (cs, cfg, mut table) = small_table();
    table.enable_selector(cfg.selector, 0);
    let public = vec![fp(0), fp(1), fp(55)];
    let violations = check(&cs, &table, &public);
    assert_eq!(violations, vec![Violation::GateViolation { gate: 0, row: 0 }]);
}

#[test]
fn instance_binding_copies_the_public_value() {
    let (cs, cfg, mut table) = small_table();
    let cell = table.assign_advice_from_instance(1, cfg.col_a, 4).unwrap();
    assert_eq!(cell.value.v, 1);
    let public = vec![fp(0), fp(1), fp(55)];
    let violations = check(&cs, &table, &public);
    assert!(violations.is_empty());
}
