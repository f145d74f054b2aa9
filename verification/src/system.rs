//! The constraint system: the declared shape of a circuit.
//!
//! A constraint system records, once and for all, which columns exist,
//! which of the advice columns may take part in copy (equality)
//! constraints, how many selectors were declared, and the set of gates.
//! No cell values exist at this stage; the system is consumed by the
//! table constructor and by the constraint checker.

use vstd::prelude::*;

verus! {

/// A gate of the form `selector * (a + b - c) == 0`.
///
/// Each of the three operands names an advice column and a relative row
/// offset (a rotation): at an anchor row `r` where the selector is
/// enabled, it constrains the values at rows `r + a_rot`,
/// `r + b_rot` and `r + c_rot` of the respective columns.  Both layouts
/// of this crate use this shape: the three-column layout with all
/// rotations zero, and the single-column layout with rotations 0, 1, 2.
#[derive(Clone, Copy, Debug, PartialEq, Eq, Structural)]
pub struct AddGate {
    pub selector: usize,
    pub a_col: usize,
    pub a_rot: usize,
    pub b_col: usize,
    pub b_rot: usize,
    pub c_col: usize,
    pub c_rot: usize,
}

impl AddGate {
    /// A gate only names columns and selectors that were declared.
    pub open spec fn wf_for(self, n_advice: int, n_selectors: int) -> bool {
        &&& self.a_col < n_advice
        &&& self.b_col < n_advice
        &&& self.c_col < n_advice
        &&& self.selector < n_selectors
    }
}

/// The builder for a circuit's shape: columns, selectors and gates.
///
/// There is always exactly one instance column, which is always
/// equality-enabled; advice columns are equality-enabled only when
/// `enable_equality` marks them.
pub struct ConstraintSystem {
    pub n_advice: usize,
    pub n_selectors: usize,
    pub equality: Vec<bool>,
    pub gates: Vec<AddGate>,
}

impl ConstraintSystem {
    /// Every declared gate speaks only of declared columns and
    /// selectors, and the equality flags cover the advice columns.
    pub open spec fn wf(self) -> bool {
        &&& self.equality@.len() == self.n_advice
        &&& forall|g: int|
            0 <= g < self.gates@.len() ==> (#[trigger] self.gates@[g]).wf_for(
                self.n_advice as int,
                self.n_selectors as int,
            )
    }

    /// A fresh system with no columns, selectors or gates.
    pub fn new() -> (r: ConstraintSystem)
        ensures
            r.wf(),
            r.n_advice == 0,
            r.n_selectors == 0,
            r.equality@ == Seq::<bool>::empty(),
            r.gates@ == Seq::<AddGate>::empty(),
    {
        ConstraintSystem { n_advice: 0, n_selectors: 0, equality: Vec::new(), gates: Vec::new() }
    }

    /// Declares a fresh advice column, not yet equality-enabled, and
    /// returns its index.
    pub fn advice_column(&mut self) -> (c: usize)
        requires
            old(self).wf(),
            old(self).n_advice < usize::MAX,
        ensures
            final(self).wf(),
            c == old(self).n_advice,
            final(self).n_advice == old(self).n_advice + 1,
            final(self).n_selectors == old(self).n_selectors,
            final(self).equality@ == old(self).equality@.push(false),
            final(self).gates@ == old(self).gates@,
    {
        let c = self.n_advice;
        self.n_advice = self.n_advice + 1;
        self.equality.push(false);
        c
    }

    /// Declares a fresh selector and returns its index.
    pub fn selector(&mut self) -> (s: usize)
        requires
            old(self).wf(),
            old(self).n_selectors < usize::MAX,
        ensures
            final(self).wf(),
            s == old(self).n_selectors,
            final(self).n_selectors == old(self).n_selectors + 1,
            final(self).n_advice == old(self).n_advice,
            final(self).equality@ == old(self).equality@,
            final(self).gates@ == old(self).gates@,
    {
        let s = self.n_selectors;
        self.n_selectors = self.n_selectors + 1;
        s
    }

    /// Marks an advice column as a permitted endpoint of copy
    /// constraints.
    pub fn enable_equality(&mut self, col: usize)
        requires
            old(self).wf(),
            col < old(self).n_advice,
        ensures
            final(self).wf(),
            final(self).n_advice == old(self).n_advice,
            final(self).n_selectors == old(self).n_selectors,
            final(self).equality@ == old(self).equality@.update(col as int, true),
            final(self).gates@ == old(self).gates@,
    {
        self.equality[col] = true;
    }

    /// Declares a gate over already-declared columns and selectors.
    pub fn create_gate(&mut self, gate: AddGate)
        requires
            old(self).wf(),
            gate.wf_for(old(self).n_advice as int, old(self).n_selectors as int),
        ensures
            final(self).wf(),
            final(self).n_advice == old(self).n_advice,
            final(self).n_selectors == old(self).n_selectors,
            final(self).equality@ == old(self).equality@,
            final(self).gates@ == old(self).gates@.push(gate),
    {
        self.gates.push(gate);
    }
}

} // verus!
