//! The constraint checker: the verification oracle of the circuit.
//!
//! Given a fully assigned table, the declared gates, the enabled
//! selectors, the copy constraints and a public-input vector, the
//! checker collects every violation rather than stopping at the first:
//! a gate whose polynomial does not evaluate to the additive identity
//! at an enabled row, a copy constraint whose two cells do not hold the
//! same value, and an instance cell that differs from the public input
//! supplied at check time.

use vstd::prelude::*;

use crate::field::Fp;
use crate::field::MODULUS;
use crate::system::AddGate;
use crate::system::ConstraintSystem;
use crate::table::CellId;
use crate::table::CircuitTable;

verus! {

/// One failed constraint, naming what failed and where.
#[derive(Clone, Copy, Debug, PartialEq, Eq, Structural)]
pub enum Violation {
    /// A gate's polynomial did not evaluate to zero at an enabled row.
    GateViolation { gate: usize, row: usize },
    /// The two cells of a copy constraint do not hold equal values.
    CopyConstraintViolation { a: CellId, b: CellId },
    /// An instance cell differs from the public input supplied at
    /// check time.
    PublicInputMismatch { row: usize },
}

/// A single gate holds at anchor row `r`: either its selector is off
/// there, or all three operand cells exist, are assigned, and the
/// polynomial `a + b - c` evaluates to zero in the field.
pub open spec fn gate_holds(t: CircuitTable, gate: AddGate, r: int) -> bool {
    t.sel(gate.selector as int, r) ==> {
        &&& r + gate.a_rot < t.nrows
        &&& r + gate.b_rot < t.nrows
        &&& r + gate.c_rot < t.nrows
        &&& t.adv(gate.a_col as int, r + gate.a_rot) is Some
        &&& t.adv(gate.b_col as int, r + gate.b_rot) is Some
        &&& t.adv(gate.c_col as int, r + gate.c_rot) is Some
        &&& (t.adv(gate.a_col as int, r + gate.a_rot).unwrap().v + t.adv(
            gate.b_col as int,
            r + gate.b_rot,
        ).unwrap().v - t.adv(gate.c_col as int, r + gate.c_rot).unwrap().v) % (MODULUS as int) == 0
    }
}

/// Gate `g` of the system holds at row `r`.
pub open spec fn gate_ok(cs: ConstraintSystem, t: CircuitTable, g: int, r: int) -> bool {
    gate_holds(t, cs.gates@[g], r)
}

/// Both cells of a pair are assigned and hold the same value.
pub open spec fn pair_ok(t: CircuitTable, x: CellId, y: CellId) -> bool {
    &&& t.cell_value(x) is Some
    &&& t.cell_value(y) is Some
    &&& t.cell_value(x) == t.cell_value(y)
}

/// Copy constraint `i` of the table is satisfied.
pub open spec fn copy_ok(t: CircuitTable, i: int) -> bool {
    pair_ok(t, t.copies@[i].0, t.copies@[i].1)
}

/// Instance cell `r` agrees with the public-input vector supplied at
/// check time.
pub open spec fn instance_ok(t: CircuitTable, p: Seq<Fp>, r: int) -> bool {
    r < p.len() && p[r] == t.instance@[r]
}

/// The violations of gate `g` over anchor rows `0 .. nr`, in row order.
pub open spec fn gate_row_viols(cs: ConstraintSystem, t: CircuitTable, g: int, nr: int) -> Seq<
    Violation,
>
    decreases nr,
{
    if nr <= 0 {
        Seq::empty()
    } else {
        gate_row_viols(cs, t, g, nr - 1) + if gate_ok(cs, t, g, nr - 1) {
            Seq::empty()
        } else {
            seq![Violation::GateViolation { gate: g as usize, row: (nr - 1) as usize }]
        }
    }
}

/// The violations of gates `0 .. g`, in gate order.
pub open spec fn gates_viols(cs: ConstraintSystem, t: CircuitTable, g: int) -> Seq<Violation>
    decreases g,
{
    if g <= 0 {
        Seq::empty()
    } else {
        gates_viols(cs, t, g - 1) + gate_row_viols(cs, t, g - 1, t.nrows as int)
    }
}

/// The violations of copy constraints `0 .. n`, in declaration order.
pub open spec fn copy_viols(t: CircuitTable, n: int) -> Seq<Violation>
    decreases n,
{
    if n <= 0 {
        Seq::empty()
    } else {
        copy_viols(t, n - 1) + if copy_ok(t, n - 1) {
            Seq::empty()
        } else {
            seq![
                Violation::CopyConstraintViolation {
                    a: t.copies@[n - 1].0,
                    b: t.copies@[n - 1].1,
                },
            ]
        }
    }
}

/// The public-input mismatches over instance rows `0 .. n`.
pub open spec fn instance_viols(t: CircuitTable, p: Seq<Fp>, n: int) -> Seq<Violation>
    decreases n,
{
    if n <= 0 {
        Seq::empty()
    } else {
        instance_viols(t, p, n - 1) + if instance_ok(t, p, n - 1) {
            Seq::empty()
        } else {
            seq![Violation::PublicInputMismatch { row: (n - 1) as usize }]
        }
    }
}

/// Every violation of the circuit: all gates at all rows, then all
/// copy constraints, then all instance cells.
pub open spec fn spec_violations(cs: ConstraintSystem, t: CircuitTable, p: Seq<Fp>) -> Seq<
    Violation,
> {
    gates_viols(cs, t, cs.gates@.len() as int) + copy_viols(t, t.copies@.len() as int)
        + instance_viols(t, p, t.instance@.len() as int)
}

/// Overall satisfaction: every gate holds at every row, every copy
/// constraint's cells agree, and every instance cell matches the
/// public inputs.
pub open spec fn satisfied(cs: ConstraintSystem, t: CircuitTable, p: Seq<Fp>) -> bool {
    &&& forall|g: int, r: int|
        0 <= g < cs.gates@.len() && 0 <= r < t.nrows ==> #[trigger] gate_ok(cs, t, g, r)
    &&& forall|i: int| 0 <= i < t.copies@.len() ==> #[trigger] copy_ok(t, i)
    &&& forall|r: int| 0 <= r < t.instance@.len() ==> #[trigger] instance_ok(t, p, r)
}

/// In the field, `a + b - c` reduces to zero exactly when `c` is the
/// canonical sum of `a` and `b`.
proof fn lemma_add_gate_eval(a: int, b: int, c: int)
    requires
        0 <= a < MODULUS,
        0 <= b < MODULUS,
        0 <= c < MODULUS,
    ensures
        ((a + b - c) % (MODULUS as int) == 0) <==> ((a + b) % (MODULUS as int) == c),
{
    let m = MODULUS as int;
    vstd::arithmetic::div_mod::lemma_fundamental_div_mod(a + b, m);
    vstd::arithmetic::div_mod::lemma_mod_bound(a + b, m);
    let q = (a + b) / m;
    let s = (a + b) % m;
    vstd::arithmetic::div_mod::lemma_mod_multiples_vanish(q, s - c, m);
    if s == c {
        assert(a + b - c == q * m);
        vstd::arithmetic::div_mod::lemma_mod_multiples_basic(q, m);
    } else if s > c {
        vstd::arithmetic::div_mod::lemma_small_mod((s - c) as nat, m as nat);
    } else {
        vstd::arithmetic::div_mod::lemma_mod_add_multiples_vanish(s - c, m);
        vstd::arithmetic::div_mod::lemma_small_mod((s - c + m) as nat, m as nat);
    }
}

/// Evaluates one gate at one anchor row.
fn eval_gate(t: &CircuitTable, gate: AddGate, r: usize) -> (ok: bool)
    requires
        t.wf(),
        gate.wf_for(t.advice@.len() as int, t.selectors@.len() as int),
        r < t.nrows,
    ensures
        ok == gate_holds(*t, gate, r as int),
{
    if !t.selectors[gate.selector][r] {
        return true;
    }
    if !(gate.a_rot < t.nrows - r && gate.b_rot < t.nrows - r && gate.c_rot < t.nrows - r) {
        return false;
    }
    let a = t.advice[gate.a_col][r + gate.a_rot];
    let b = t.advice[gate.b_col][r + gate.b_rot];
    let c = t.advice[gate.c_col][r + gate.c_rot];
    match (a, b, c) {
        (Some(av), Some(bv), Some(cv)) => {
            proof {
                assert(t.adv(gate.a_col as int, r + gate.a_rot) == Some(av));
                assert(t.adv(gate.b_col as int, r + gate.b_rot) == Some(bv));
                assert(t.adv(gate.c_col as int, r + gate.c_rot) == Some(cv));
            }
            let s = av.add(bv);
            proof {
                lemma_add_gate_eval(av.v as int, bv.v as int, cv.v as int);
            }
            s.v == cv.v
        },
        _ => false,
    }
}

/// Tests one copy-constraint pair.
fn eval_pair(t: &CircuitTable, x: CellId, y: CellId) -> (ok: bool)
    requires
        t.wf(),
        t.cell_in_bounds(x),
        t.cell_in_bounds(y),
    ensures
        ok == pair_ok(*t, x, y),
{
    let xv = t.cell(x);
    let yv = t.cell(y);
    match (xv, yv) {
        (Some(a), Some(b)) => a.v == b.v,
        _ => false,
    }
}

/// Runs every check and returns the full list of violations, in a
/// fixed order: gate violations (by gate, then by row), copy-constraint
/// violations (in declaration order), public-input mismatches (by row).
/// The result is empty exactly when the circuit is satisfied.
pub fn check(cs: &ConstraintSystem, t: &CircuitTable, public_inputs: &Vec<Fp>) -> (r: Vec<
    Violation,
>)
    requires
        cs.wf(),
        t.wf(),
        t.matches(*cs),
    ensures
        r@ == spec_violations(*cs, *t, public_inputs@),
        r@.len() == 0 <==> satisfied(*cs, *t, public_inputs@),
{
    let mut out: Vec<Violation> = Vec::new();
    let mut g: usize = 0;
    while g < cs.gates.len()
        invariant
            cs.wf(),
            t.wf(),
            t.matches(*cs),
            g <= cs.gates@.len(),
            out@ == gates_viols(*cs, *t, g as int),
        decreases cs.gates@.len() - g,
    {
        let gate = cs.gates[g];
        let mut row: usize = 0;
        while row < t.nrows
            invariant
                cs.wf(),
                t.wf(),
                t.matches(*cs),
                g < cs.gates@.len(),
                gate == cs.gates@[g as int],
                row <= t.nrows,
                out@ == gates_viols(*cs, *t, g as int) + gate_row_viols(
                    *cs,
                    *t,
                    g as int,
                    row as int,
                ),
            decreases t.nrows - row,
        {
            if !eval_gate(t, gate, row) {
                out.push(Violation::GateViolation { gate: g, row });
            }
            row = row + 1;
            proof {
                assert(out@ =~= gates_viols(*cs, *t, g as int) + gate_row_viols(
                    *cs,
                    *t,
                    g as int,
                    row as int,
                ));
            }
        }
        g = g + 1;
        proof {
            assert(out@ =~= gates_viols(*cs, *t, g as int));
        }
    }
    let mut i: usize = 0;
    while i < t.copies.len()
        invariant
            cs.wf(),
            t.wf(),
            t.matches(*cs),
            i <= t.copies@.len(),
            out@ == gates_viols(*cs, *t, cs.gates@.len() as int) + copy_viols(*t, i as int),
        decreases t.copies@.len() - i,
    {
        let (x, y) = t.copies[i];
        if !eval_pair(t, x, y) {
            out.push(Violation::CopyConstraintViolation { a: x, b: y });
        }
        i = i + 1;
        proof {
            assert(out@ =~= gates_viols(*cs, *t, cs.gates@.len() as int) + copy_viols(
                *t,
                i as int,
            ));
        }
    }
    let mut r: usize = 0;
    while r < t.instance.len()
        invariant
            cs.wf(),
            t.wf(),
            t.matches(*cs),
            r <= t.instance@.len(),
            out@ == gates_viols(*cs, *t, cs.gates@.len() as int) + copy_viols(
                *t,
                t.copies@.len() as int,
            ) + instance_viols(*t, public_inputs@, r as int),
        decreases t.instance@.len() - r,
    {
        let ok = r < public_inputs.len() && public_inputs[r].v == t.instance[r].v;
        if !ok {
            out.push(Violation::PublicInputMismatch { row: r });
        }
        r = r + 1;
        proof {
            assert(out@ =~= gates_viols(*cs, *t, cs.gates@.len() as int) + copy_viols(
                *t,
                t.copies@.len() as int,
            ) + instance_viols(*t, public_inputs@, r as int));
        }
    }
    proof {
        lemma_satisfied_iff_empty(*cs, *t, public_inputs@);
    }
    out
}

/// A gate's violation list over `0 .. nr` is empty exactly when the
/// gate holds at every one of those rows.
proof fn lemma_gate_row_viols_len(cs: ConstraintSystem, t: CircuitTable, g: int, nr: int)
    ensures
        gate_row_viols(cs, t, g, nr).len() == 0 <==> (forall|r: int|
            0 <= r < nr ==> #[trigger] gate_ok(cs, t, g, r)),
    decreases nr,
{
    if nr > 0 {
        lemma_gate_row_viols_len(cs, t, g, nr - 1);
    }
}

/// The combined violation list over gates `0 .. g` is empty exactly when
/// every one of those gates holds at every row.
proof fn lemma_gates_viols_len(cs: ConstraintSystem, t: CircuitTable, g: int)
    ensures
        gates_viols(cs, t, g).len() == 0 <==> (forall|g2: int, r: int|
            0 <= g2 < g && 0 <= r < t.nrows ==> #[trigger] gate_ok(cs, t, g2, r)),
    decreases g,
{
    if g > 0 {
        lemma_gates_viols_len(cs, t, g - 1);
        lemma_gate_row_viols_len(cs, t, g - 1, t.nrows as int);
    }
}

/// The copy violation list over `0 .. n` is empty exactly when every
/// one of those copy constraints is satisfied.
proof fn lemma_copy_viols_len(t: CircuitTable, n: int)
    ensures
        copy_viols(t, n).len() == 0 <==> (forall|i: int| 0 <= i < n ==> #[trigger] copy_ok(t, i)),
    decreases n,
{
    if n > 0 {
        lemma_copy_viols_len(t, n - 1);
    }
}

/// The mismatch list over `0 .. n` is empty exactly when every one of
/// those instance cells matches the public inputs.
proof fn lemma_instance_viols_len(t: CircuitTable, p: Seq<Fp>, n: int)
    ensures
        instance_viols(t, p, n).len() == 0 <==> (forall|r: int|
            0 <= r < n ==> #[trigger] instance_ok(t, p, r)),
    decreases n,
{
    if n > 0 {
        lemma_instance_viols_len(t, p, n - 1);
    }
}

/// The checker reports no violation at all exactly when the circuit is
/// satisfied: every gate at every row, every copy constraint, and
/// every instance cell.
pub proof fn lemma_satisfied_iff_empty(cs: ConstraintSystem, t: CircuitTable, p: Seq<Fp>)
    ensures
        satisfied(cs, t, p) <==> spec_violations(cs, t, p).len() == 0,
{
    lemma_gates_viols_len(cs, t, cs.gates@.len() as int);
    lemma_copy_viols_len(t, t.copies@.len() as int);
    lemma_instance_viols_len(t, p, t.instance@.len() as int);
}

/// A gate's violation list only ever names that gate, at a row below
/// the bound at which it does not hold.
proof fn lemma_gate_row_viols_contains(
    cs: ConstraintSystem,
    t: CircuitTable,
    g: int,
    nr: int,
    gg: usize,
    rr: usize,
)
    requires
        0 <= g <= usize::MAX,
        nr <= usize::MAX,
    ensures
        gate_row_viols(cs, t, g, nr).contains(Violation::GateViolation { gate: gg, row: rr })
            ==> (gg == g && rr < nr && !gate_ok(cs, t, g, rr as int)),
    decreases nr,
{
    let val = Violation::GateViolation { gate: gg, row: rr };
    if nr > 0 {
        lemma_gate_row_viols_contains(cs, t, g, nr - 1, gg, rr);
        let s = gate_row_viols(cs, t, g, nr);
        let prev = gate_row_viols(cs, t, g, nr - 1);
        if s.contains(val) {
            let k = choose|k: int| 0 <= k < s.len() && s[k] == val;
            if k < prev.len() {
                assert(prev[k] == val);
                assert(prev.contains(val));
            } else {
                assert(!gate_ok(cs, t, g, nr - 1));
                assert(s[k] == Violation::GateViolation {
                    gate: g as usize,
                    row: (nr - 1) as usize,
                });
            }
        }
    }
}

/// The full gate violation list only names gates below the bound, at
/// rows where they do not hold.
proof fn lemma_gates_viols_contains(
    cs: ConstraintSystem,
    t: CircuitTable,
    g: int,
    gg: usize,
    rr: usize,
)
    requires
        g <= usize::MAX,
    ensures
        gates_viols(cs, t, g).contains(Violation::GateViolation { gate: gg, row: rr }) ==> ((
        gg as int) < g && rr < t.nrows && !gate_ok(cs, t, gg as int, rr as int)),
    decreases g,
{
    let val = Violation::GateViolation { gate: gg, row: rr };
    if g > 0 {
        lemma_gates_viols_contains(cs, t, g - 1, gg, rr);
        lemma_gate_row_viols_contains(cs, t, g - 1, t.nrows as int, gg, rr);
        let s = gates_viols(cs, t, g);
        let prev = gates_viols(cs, t, g - 1);
        let tail = gate_row_viols(cs, t, g - 1, t.nrows as int);
        if s.contains(val) {
            let k = choose|k: int| 0 <= k < s.len() && s[k] == val;
            if k < prev.len() {
                assert(prev[k] == val);
                assert(prev.contains(val));
            } else {
                assert(tail[k - prev.len()] == val);
                assert(tail.contains(val));
            }
        }
    }
}

/// Copy-constraint checking only ever reports copy-constraint
/// violations.
proof fn lemma_copy_viols_contains(t: CircuitTable, n: int, v: Violation)
    ensures
        copy_viols(t, n).contains(v) ==> v is CopyConstraintViolation,
    decreases n,
{
    if n > 0 {
        lemma_copy_viols_contains(t, n - 1, v);
        let s = copy_viols(t, n);
        let prev = copy_viols(t, n - 1);
        if s.contains(v) {
            let k = choose|k: int| 0 <= k < s.len() && s[k] == v;
            if k < prev.len() {
                assert(prev[k] == v);
                assert(prev.contains(v));
            }
        }
    }
}

/// Public-input checking only ever reports mismatches.
proof fn lemma_instance_viols_contains(t: CircuitTable, p: Seq<Fp>, n: int, v: Violation)
    ensures
        instance_viols(t, p, n).contains(v) ==> v is PublicInputMismatch,
    decreases n,
{
    if n > 0 {
        lemma_instance_viols_contains(t, p, n - 1, v);
        let s = instance_viols(t, p, n);
        let prev = instance_viols(t, p, n - 1);
        if s.contains(v) {
            let k = choose|k: int| 0 <= k < s.len() && s[k] == v;
            if k < prev.len() {
                assert(prev[k] == v);
                assert(prev.contains(v));
            }
        }
    }
}

/// Selector gating: at a row where a gate's selector is disabled, that
/// gate is never reported, whatever the assignments.  Disabling a
/// selector removes the row from that gate's checked set.
pub proof fn lemma_selector_gating(
    cs: ConstraintSystem,
    t: CircuitTable,
    p: Seq<Fp>,
    g: usize,
    r: usize,
)
    requires
        (g as int) < cs.gates@.len(),
        r < t.nrows,
        !t.sel(cs.gates@[g as int].selector as int, r as int),
    ensures
        !spec_violations(cs, t, p).contains(Violation::GateViolation { gate: g, row: r }),
{
    let val = Violation::GateViolation { gate: g, row: r };
    assert(gate_ok(cs, t, g as int, r as int));
    vstd::std_specs::vec::axiom_spec_len(&cs.gates);
    lemma_gates_viols_contains(cs, t, cs.gates@.len() as int, g, r);
    lemma_copy_viols_contains(t, t.copies@.len() as int, val);
    lemma_instance_viols_contains(t, p, t.instance@.len() as int, val);
    let a = gates_viols(cs, t, cs.gates@.len() as int);
    let b = copy_viols(t, t.copies@.len() as int);
    let c = instance_viols(t, p, t.instance@.len() as int);
    let s = spec_violations(cs, t, p);
    if s.contains(val) {
        let k = choose|k: int| 0 <= k < s.len() && s[k] == val;
        if k < a.len() {
            assert(a[k] == val);
            assert(a.contains(val));
        } else if k < a.len() + b.len() {
            assert(b[k - a.len()] == val);
            assert(b.contains(val));
        } else {
            assert(c[k - a.len() - b.len()] == val);
            assert(c.contains(val));
        }
    }
}

/// The checker is a pure function of the system, the table and the
/// public inputs: two checks of the same circuit state yield the same
/// violation list.
pub proof fn lemma_check_deterministic(
    cs: ConstraintSystem,
    t: CircuitTable,
    p: Seq<Fp>,
    r1: Seq<Violation>,
    r2: Seq<Violation>,
)
    requires
        r1 == spec_violations(cs, t, p),
        r2 == spec_violations(cs, t, p),
    ensures
        r1 == r2,
{
}

} // verus!
