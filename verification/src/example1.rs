//! The three-column layout: a sliding window over columns A, B and C.
//!
//! Row 0 takes the two seeds from the instance column into columns A
//! and B and computes C as their field sum.  Every later row copies the
//! previous row's B into its A and the previous row's C into its B
//! (each copy recording a copy constraint), computes its own C, and
//! enables the add gate `selector * (A + B - C) == 0` at the row.  The
//! final C cell is bound to public-input row 2.

use vstd::prelude::*;

use crate::checker::copy_ok;
use crate::checker::gate_ok;
use crate::checker::instance_ok;
use crate::checker::lemma_satisfied_iff_empty;
use crate::checker::pair_ok;
use crate::checker::satisfied;
use crate::checker::spec_violations;
use crate::fib::fib;
use crate::fib::lemma_fib_wf;
use crate::fib::lemma_sum_reduces_to_zero;
use crate::field::fp_of;
use crate::field::Fp;
use crate::field::MODULUS;
use crate::system::AddGate;
use crate::system::ConstraintSystem;
use crate::table::AssignedCell;
use crate::table::CellId;
use crate::table::CircuitError;
use crate::table::CircuitTable;

verus! {

/// The columns, selector and gate indices of the three-column layout.
#[derive(Clone, Copy, Debug, PartialEq, Eq, Structural)]
pub struct FiboConfig {
    pub col_a: usize,
    pub col_b: usize,
    pub col_c: usize,
    pub selector: usize,
}

impl FiboConfig {
    /// The configuration names three distinct, equality-enabled advice
    /// columns and a declared selector.
    pub open spec fn wf_shape(self, n_advice: int, n_selectors: int, equality: Seq<bool>) -> bool {
        &&& (self.col_a as int) < n_advice
        &&& (self.col_b as int) < n_advice
        &&& (self.col_c as int) < n_advice
        &&& self.col_a != self.col_b
        &&& self.col_a != self.col_c
        &&& self.col_b != self.col_c
        &&& (self.selector as int) < n_selectors
        &&& equality.len() == n_advice
        &&& equality[self.col_a as int]
        &&& equality[self.col_b as int]
        &&& equality[self.col_c as int]
    }

    /// Well-formedness with respect to a table.
    pub open spec fn wf_for(self, t: CircuitTable) -> bool {
        self.wf_shape(t.advice@.len() as int, t.selectors@.len() as int, t.equality@)
    }

    /// Well-formedness with respect to the constraint system.
    pub open spec fn wf_for_system(self, cs: ConstraintSystem) -> bool {
        self.wf_shape(cs.n_advice as int, cs.n_selectors as int, cs.equality@)
    }

    /// The one gate of this layout: `selector * (A + B - C) == 0`,
    /// evaluated at the anchor row itself.
    pub open spec fn gate(self) -> AddGate {
        AddGate {
            selector: self.selector,
            a_col: self.col_a,
            a_rot: 0,
            b_col: self.col_b,
            b_rot: 0,
            c_col: self.col_c,
            c_rot: 0,
        }
    }
}

/// The cell contents of the three-column layout with seeds `a` and `b`
/// after `steps` recurrence rows beyond the first: at row `r`, column A
/// carries term `r`, column B term `r + 1` and column C term `r + 2`.
pub open spec fn layout_value(
    cfg: FiboConfig,
    a: int,
    b: int,
    steps: int,
    c: int,
    r: int,
) -> Option<Fp> {
    if 0 <= r <= steps {
        if c == cfg.col_a {
            Some(fp_of(fib(a, b, r as nat)))
        } else if c == cfg.col_b {
            Some(fp_of(fib(a, b, (r + 1) as nat)))
        } else if c == cfg.col_c {
            Some(fp_of(fib(a, b, (r + 2) as nat)))
        } else {
            None
        }
    } else {
        None
    }
}

/// The copy constraints the layout records through row `k`: the two
/// seed bindings at row 0, then per later row the binding of the
/// previous row's B to its A and of the previous row's C to its B.
pub open spec fn layout_copies(cfg: FiboConfig, k: int) -> Seq<(CellId, CellId)>
    decreases k,
{
    if k <= 0 {
        seq![
            (CellId::Instance { row: 0 }, CellId::Advice { col: cfg.col_a, row: 0 }),
            (CellId::Instance { row: 1 }, CellId::Advice { col: cfg.col_b, row: 0 }),
        ]
    } else {
        layout_copies(cfg, k - 1) + seq![
            (
                CellId::Advice { col: cfg.col_b, row: (k - 1) as usize },
                CellId::Advice { col: cfg.col_a, row: k as usize },
            ),
            (
                CellId::Advice { col: cfg.col_c, row: (k - 1) as usize },
                CellId::Advice { col: cfg.col_b, row: k as usize },
            ),
        ]
    }
}

/// The chip that drives the three-column layout.
#[derive(Clone, Copy, Debug, PartialEq, Eq, Structural)]
pub struct FiboChip {
    pub config: FiboConfig,
}

impl FiboChip {
    /// Wraps an already-declared configuration.
    pub fn construct(config: FiboConfig) -> (r: FiboChip)
        ensures
            r.config == config,
    {
        FiboChip { config }
    }

    /// Declares the layout's shape: three fresh equality-enabled
    /// advice columns, one selector, and the add gate over the three
    /// columns at the anchor row.
    pub fn configure(meta: &mut ConstraintSystem) -> (cfg: FiboConfig)
        requires
            old(meta).wf(),
            old(meta).n_advice + 3 <= usize::MAX,
            old(meta).n_selectors < usize::MAX,
        ensures
            final(meta).wf(),
            cfg.wf_for_system(*final(meta)),
            cfg.col_a == old(meta).n_advice,
            cfg.col_b == old(meta).n_advice + 1,
            cfg.col_c == old(meta).n_advice + 2,
            cfg.selector == old(meta).n_selectors,
            final(meta).n_advice == old(meta).n_advice + 3,
            final(meta).n_selectors == old(meta).n_selectors + 1,
            final(meta).equality@ == old(meta).equality@.push(true).push(true).push(true),
            final(meta).gates@ == old(meta).gates@.push(cfg.gate()),
    {
        let col_a = meta.advice_column();
        let col_b = meta.advice_column();
        let col_c = meta.advice_column();
        let selector = meta.selector();
        meta.enable_equality(col_a);
        meta.enable_equality(col_b);
        meta.enable_equality(col_c);
        let cfg = FiboConfig { col_a, col_b, col_c, selector };
        meta.create_gate(
            AddGate {
                selector,
                a_col: col_a,
                a_rot: 0,
                b_col: col_b,
                b_rot: 0,
                c_col: col_c,
                c_rot: 0,
            },
        );
        proof {
            assert(meta.equality@ =~= old(meta).equality@.push(true).push(true).push(true));
        }
        cfg
    }

    /// Fills the first row at the given anchor: enables the selector,
    /// binds columns A and B to public inputs 0 and 1, and assigns C
    /// as their field sum.
    pub fn assign_first_row(&self, table: &mut CircuitTable, row: usize) -> (r: Result<
        (AssignedCell, AssignedCell, AssignedCell),
        CircuitError,
    >)
        requires
            old(table).wf(),
            self.config.wf_for(*old(table)),
            row < old(table).nrows,
        ensures
            final(table).wf(),
            old(table).same_shape(*final(table)),
            forall|j: int, r2: int|
                #![trigger final(table).sel(j, r2)]
                #![trigger old(table).sel(j, r2)]
                0 <= j < old(table).selectors@.len() && 0 <= r2 < old(table).nrows ==> final(table).sel(j, r2) == (old(table).sel(j, r2) || (j == self.config.selector && r2
                    == row)),
            r is Ok <==> (old(table).instance@.len() >= 2 && old(table).adv(
                self.config.col_a as int,
                row as int,
            ) is None && old(table).adv(self.config.col_b as int, row as int) is None && old(table).adv(self.config.col_c as int, row as int) is None),
            match r {
                Ok(cells) => {
                    &&& cells.0 == (AssignedCell {
                        col: self.config.col_a,
                        row,
                        value: old(table).instance@[0],
                    })
                    &&& cells.1 == (AssignedCell {
                        col: self.config.col_b,
                        row,
                        value: old(table).instance@[1],
                    })
                    &&& cells.2.col == self.config.col_c
                    &&& cells.2.row == row
                    &&& cells.2.value.wf()
                    &&& cells.2.value.v == (old(table).instance@[0].v + old(table).instance@[1].v) % (MODULUS as int)
                    &&& cells.0.lives_in(*final(table))
                    &&& cells.1.lives_in(*final(table))
                    &&& cells.2.lives_in(*final(table))
                    &&& forall|c: int, r2: int|
                        #![trigger final(table).adv(c, r2)]
                        #![trigger old(table).adv(c, r2)]
                        0 <= c < old(table).advice@.len() && 0 <= r2 < old(table).nrows ==> final(table).adv(c, r2) == if c == self.config.col_a && r2
                            == row {
                            Some(old(table).instance@[0])
                        } else if c == self.config.col_b && r2 == row {
                            Some(old(table).instance@[1])
                        } else if c == self.config.col_c && r2 == row {
                            Some(cells.2.value)
                        } else {
                            old(table).adv(c, r2)
                        }
                    &&& final(table).copies@ == old(table).copies@ + seq![
                        (
                            CellId::Instance { row: 0 },
                            CellId::Advice { col: self.config.col_a, row },
                        ),
                        (
                            CellId::Instance { row: 1 },
                            CellId::Advice { col: self.config.col_b, row },
                        ),
                    ]
                },
                Err(e) => {
                    &&& old(table).copies@.is_prefix_of(final(table).copies@)
                    &&& forall|c: int, r2: int|
                        #![trigger final(table).adv(c, r2)]
                        #![trigger old(table).adv(c, r2)]
                        0 <= c < old(table).advice@.len() && 0 <= r2 < old(table).nrows && !(r2
                            == row && (c == self.config.col_a || c == self.config.col_b || c
                            == self.config.col_c)) ==> final(table).adv(c, r2) == old(table).adv(
                            c,
                            r2,
                        )
                    &&& if old(table).instance@.len() == 0 {
                        e == (CircuitError::UnboundPublicInput { row: 0 })
                    } else if old(table).adv(self.config.col_a as int, row as int) is Some {
                        e == (CircuitError::AlreadyAssigned {
                            cell: CellId::Advice { col: self.config.col_a, row },
                        })
                    } else if old(table).instance@.len() == 1 {
                        e == (CircuitError::UnboundPublicInput { row: 1 })
                    } else if old(table).adv(self.config.col_b as int, row as int) is Some {
                        e == (CircuitError::AlreadyAssigned {
                            cell: CellId::Advice { col: self.config.col_b, row },
                        })
                    } else {
                        e == (CircuitError::AlreadyAssigned {
                            cell: CellId::Advice { col: self.config.col_c, row },
                        })
                    }
                },
            },
    {
        table.enable_selector(self.config.selector, row);
        let a_cell = match table.assign_advice_from_instance(0, self.config.col_a, row) {
            Ok(c) => c,
            Err(e) => {
                return Err(e);
            },
        };
        proof {
            assert forall|j: int, r2: int|
                0 <= j < old(table).selectors@.len() && 0 <= r2 < old(table).nrows implies #[trigger] table.sel(
                j,
                r2,
            ) == (old(table).sel(j, r2) || (j == self.config.selector && r2 == row)) by {}
        }
        let b_cell = match table.assign_advice_from_instance(1, self.config.col_b, row) {
            Ok(c) => c,
            Err(e) => {
                return Err(e);
            },
        };
        proof {
            assert forall|j: int, r2: int|
                0 <= j < old(table).selectors@.len() && 0 <= r2 < old(table).nrows implies #[trigger] table.sel(
                j,
                r2,
            ) == (old(table).sel(j, r2) || (j == self.config.selector && r2 == row)) by {}
        }
        let value = a_cell.value.add(b_cell.value);
        let c_cell = match table.assign_advice(self.config.col_c, row, value) {
            Ok(c) => c,
            Err(e) => {
                return Err(e);
            },
        };
        proof {
            assert(table.copies@ =~= old(table).copies@ + seq![
                (CellId::Instance { row: 0 }, CellId::Advice { col: self.config.col_a, row }),
                (CellId::Instance { row: 1 }, CellId::Advice { col: self.config.col_b, row }),
            ]);
        }
        Ok((a_cell, b_cell, c_cell))
    }

    /// Fills one recurrence row at the given anchor: enables the
    /// selector, copies the previous row's B cell into A and the
    /// previous row's C cell into B (each copy recorded as a copy
    /// constraint), and assigns C as the field sum of the two.
    pub fn assign_row(
        &self,
        table: &mut CircuitTable,
        row: usize,
        prev_b: &AssignedCell,
        prev_c: &AssignedCell,
    ) -> (r: Result<AssignedCell, CircuitError>)
        requires
            old(table).wf(),
            self.config.wf_for(*old(table)),
            row < old(table).nrows,
            prev_b.lives_in(*old(table)),
            prev_c.lives_in(*old(table)),
            old(table).equality@[prev_b.col as int],
            old(table).equality@[prev_c.col as int],
        ensures
            final(table).wf(),
            old(table).same_shape(*final(table)),
            forall|j: int, r2: int|
                #![trigger final(table).sel(j, r2)]
                #![trigger old(table).sel(j, r2)]
                0 <= j < old(table).selectors@.len() && 0 <= r2 < old(table).nrows ==> final(table).sel(j, r2) == (old(table).sel(j, r2) || (j == self.config.selector && r2
                    == row)),
            r is Ok <==> (old(table).adv(self.config.col_a as int, row as int) is None && old(table).adv(self.config.col_b as int, row as int) is None && old(table).adv(
                self.config.col_c as int,
                row as int,
            ) is None),
            match r {
                Ok(cell) => {
                    &&& cell.col == self.config.col_c
                    &&& cell.row == row
                    &&& cell.value.wf()
                    &&& cell.value.v == (prev_b.value.v + prev_c.value.v) % (MODULUS as int)
                    &&& cell.lives_in(*final(table))
                    &&& forall|c: int, r2: int|
                        #![trigger final(table).adv(c, r2)]
                        #![trigger old(table).adv(c, r2)]
                        0 <= c < old(table).advice@.len() && 0 <= r2 < old(table).nrows ==> final(table).adv(c, r2) == if c == self.config.col_a && r2
                            == row {
                            Some(prev_b.value)
                        } else if c == self.config.col_b && r2 == row {
                            Some(prev_c.value)
                        } else if c == self.config.col_c && r2 == row {
                            Some(cell.value)
                        } else {
                            old(table).adv(c, r2)
                        }
                    &&& final(table).copies@ == old(table).copies@ + seq![
                        (
                            CellId::Advice { col: prev_b.col, row: prev_b.row },
                            CellId::Advice { col: self.config.col_a, row },
                        ),
                        (
                            CellId::Advice { col: prev_c.col, row: prev_c.row },
                            CellId::Advice { col: self.config.col_b, row },
                        ),
                    ]
                },
                Err(e) => {
                    &&& old(table).copies@.is_prefix_of(final(table).copies@)
                    &&& forall|c: int, r2: int|
                        #![trigger final(table).adv(c, r2)]
                        #![trigger old(table).adv(c, r2)]
                        0 <= c < old(table).advice@.len() && 0 <= r2 < old(table).nrows && !(r2
                            == row && (c == self.config.col_a || c == self.config.col_b || c
                            == self.config.col_c)) ==> final(table).adv(c, r2) == old(table).adv(
                            c,
                            r2,
                        )
                    &&& if old(table).adv(self.config.col_a as int, row as int) is Some {
                        e == (CircuitError::AlreadyAssigned {
                            cell: CellId::Advice { col: self.config.col_a, row },
                        })
                    } else if old(table).adv(self.config.col_b as int, row as int) is Some {
                        e == (CircuitError::AlreadyAssigned {
                            cell: CellId::Advice { col: self.config.col_b, row },
                        })
                    } else {
                        e == (CircuitError::AlreadyAssigned {
                            cell: CellId::Advice { col: self.config.col_c, row },
                        })
                    }
                },
            },
    {
        table.enable_selector(self.config.selector, row);
        let a_cell = match table.copy_advice(prev_b.col, prev_b.row, self.config.col_a, row) {
            Ok(c) => c,
            Err(e) => {
                return Err(e);
            },
        };
        proof {
            assert forall|j: int, r2: int|
                0 <= j < old(table).selectors@.len() && 0 <= r2 < old(table).nrows implies #[trigger] table.sel(
                j,
                r2,
            ) == (old(table).sel(j, r2) || (j == self.config.selector && r2 == row)) by {}
        }
        let b_cell = match table.copy_advice(prev_c.col, prev_c.row, self.config.col_b, row) {
            Ok(c) => c,
            Err(e) => {
                return Err(e);
            },
        };
        proof {
            assert forall|j: int, r2: int|
                0 <= j < old(table).selectors@.len() && 0 <= r2 < old(table).nrows implies #[trigger] table.sel(
                j,
                r2,
            ) == (old(table).sel(j, r2) || (j == self.config.selector && r2 == row)) by {}
        }
        let value = a_cell.value.add(b_cell.value);
        let c_cell = match table.assign_advice(self.config.col_c, row, value) {
            Ok(c) => c,
            Err(e) => {
                return Err(e);
            },
        };
        proof {
            assert(table.copies@ =~= old(table).copies@ + seq![
                (
                    CellId::Advice { col: prev_b.col, row: prev_b.row },
                    CellId::Advice { col: self.config.col_a, row },
                ),
                (
                    CellId::Advice { col: prev_c.col, row: prev_c.row },
                    CellId::Advice { col: self.config.col_b, row },
                ),
            ]);
        }
        Ok(c_cell)
    }

    /// Binds an assigned cell to the given public-input row.
    pub fn expose_public(&self, table: &mut CircuitTable, cell: &AssignedCell, row: usize) -> (r:
        Result<(), CircuitError>)
        requires
            old(table).wf(),
            (cell.col as int) < old(table).advice@.len(),
            cell.row < old(table).nrows,
            old(table).equality@[cell.col as int],
        ensures
            final(table).wf(),
            old(table).same_shape(*final(table)),
            final(table).selectors@ == old(table).selectors@,
            final(table).advice@ == old(table).advice@,
            r is Ok <==> ((row as int) < old(table).instance@.len() && old(table).adv(
                cell.col as int,
                cell.row as int,
            ) is Some),
            match r {
                Ok(u) => final(table).copies@ == old(table).copies@.push(
                    (
                        CellId::Advice { col: cell.col, row: cell.row },
                        CellId::Instance { row },
                    ),
                ),
                Err(e) => {
                    &&& *final(table) == *old(table)
                    &&& if (row as int) >= old(table).instance@.len() {
                        e == (CircuitError::UnboundPublicInput { row })
                    } else {
                        e == (CircuitError::NotAssigned {
                            cell: CellId::Advice { col: cell.col, row: cell.row },
                        })
                    }
                },
            },
    {
        table.constrain_instance(cell.col, cell.row, row)
    }

    /// Lays out the whole circuit: the first row at row 0, one
    /// recurrence row per step at rows 1 through `steps`, and the
    /// final C cell bound to public-input row 2.
    pub fn synthesize(&self, table: &mut CircuitTable, steps: usize) -> (r: Result<
        AssignedCell,
        CircuitError,
    >)
        requires
            old(table).wf(),
            old(table).fresh(),
            self.config.wf_for(*old(table)),
            steps < old(table).nrows,
            old(table).instance@.len() >= 3,
        ensures
            final(table).wf(),
            old(table).same_shape(*final(table)),
            match r {
                Ok(out) => {
                    &&& out == (AssignedCell {
                        col: self.config.col_c,
                        row: steps,
                        value: fp_of(
                            fib(
                                old(table).instance@[0].v as int,
                                old(table).instance@[1].v as int,
                                (steps + 2) as nat,
                            ),
                        ),
                    })
                    &&& out.lives_in(*final(table))
                    &&& forall|c: int, r2: int|
                        #![trigger final(table).adv(c, r2)]
                        0 <= c < old(table).advice@.len() && 0 <= r2 < old(table).nrows ==> final(table).adv(c, r2) == layout_value(
                            self.config,
                            old(table).instance@[0].v as int,
                            old(table).instance@[1].v as int,
                            steps as int,
                            c,
                            r2,
                        )
                    &&& forall|j: int, r2: int|
                        #![trigger final(table).sel(j, r2)]
                        0 <= j < old(table).selectors@.len() && 0 <= r2 < old(table).nrows ==> final(table).sel(j, r2) == (j == self.config.selector && r2 <= steps)
                    &&& final(table).copies@ == layout_copies(self.config, steps as int).push(
                        (
                            CellId::Advice { col: self.config.col_c, row: steps },
                            CellId::Instance { row: 2 },
                        ),
                    )
                },
                Err(_) => false,
            },
    {
        proof {
            assert(old(table).instance@[0].wf());
            assert(old(table).instance@[1].wf());
        }
        let ghost i0: int = old(table).instance@[0].v as int;
        let ghost i1: int = old(table).instance@[1].v as int;
        let first = self.assign_first_row(table, 0);
        let cells = match first {
            Ok(cells) => cells,
            Err(e) => {
                proof {
                    assert(false);
                }
                return Err(e);
            },
        };
        let mut prev_b = cells.1;
        let mut prev_c = cells.2;
        proof {
            lemma_fib_wf(i0, i1, 2);
            assert(fib(i0, i1, 0) == i0);
            assert(fib(i0, i1, 1) == i1);
            assert(fib(i0, i1, 2) == (i0 + i1) % (MODULUS as int));
            assert(prev_b.value == fp_of(fib(i0, i1, 1)));
            assert(prev_c.value == fp_of(fib(i0, i1, 2)));
            assert(table.copies@ =~= layout_copies(self.config, 0));
            assert forall|c: int, r2: int|
                0 <= c < old(table).advice@.len() && 0 <= r2 < old(table).nrows implies #[trigger] table.adv(
                c,
                r2,
            ) == layout_value(self.config, i0, i1, 0, c, r2) by {
                assert(old(table).adv(c, r2) is None);
            }
            assert forall|j: int, r2: int|
                0 <= j < old(table).selectors@.len() && 0 <= r2 < old(table).nrows implies #[trigger] table.sel(
                j,
                r2,
            ) == (j == self.config.selector && r2 <= 0) by {
                assert(!old(table).sel(j, r2));
            }
        }
        let mut k: usize = 1;
        while k <= steps
            invariant
                table.wf(),
                old(table).same_shape(*table),
                self.config.wf_for(*old(table)),
                self.config.wf_for(*table),
                old(table).fresh(),
                old(table).instance@.len() >= 3,
                steps < old(table).nrows,
                1 <= k <= steps + 1,
                i0 == old(table).instance@[0].v as int,
                i1 == old(table).instance@[1].v as int,
                0 <= i0 < MODULUS,
                0 <= i1 < MODULUS,
                forall|c: int, r2: int|
                    #![trigger table.adv(c, r2)]
                    0 <= c < old(table).advice@.len() && 0 <= r2 < old(table).nrows ==> table.adv(
                        c,
                        r2,
                    ) == layout_value(self.config, i0, i1, k - 1, c, r2),
                forall|j: int, r2: int|
                    #![trigger table.sel(j, r2)]
                    0 <= j < old(table).selectors@.len() && 0 <= r2 < old(table).nrows ==> table.sel(
                        j,
                        r2,
                    ) == (j == self.config.selector && r2 <= k - 1),
                table.copies@ == layout_copies(self.config, k - 1),
                prev_b == (AssignedCell {
                    col: self.config.col_b,
                    row: (k - 1) as usize,
                    value: fp_of(fib(i0, i1, k as nat)),
                }),
                prev_c == (AssignedCell {
                    col: self.config.col_c,
                    row: (k - 1) as usize,
                    value: fp_of(fib(i0, i1, (k + 1) as nat)),
                }),
            decreases steps + 1 - k,
        {
            proof {
                lemma_fib_wf(i0, i1, k as nat);
                lemma_fib_wf(i0, i1, (k + 1) as nat);
                lemma_fib_wf(i0, i1, (k + 2) as nat);
                assert(table.adv(self.config.col_b as int, (k - 1) as int) == layout_value(
                    self.config,
                    i0,
                    i1,
                    k - 1,
                    self.config.col_b as int,
                    (k - 1) as int,
                ));
                assert(table.adv(self.config.col_c as int, (k - 1) as int) == layout_value(
                    self.config,
                    i0,
                    i1,
                    k - 1,
                    self.config.col_c as int,
                    (k - 1) as int,
                ));
                assert(table.adv(self.config.col_a as int, k as int) is None);
                assert(table.adv(self.config.col_b as int, k as int) is None);
                assert(table.adv(self.config.col_c as int, k as int) is None);
            }
            let res = self.assign_row(table, k, &prev_b, &prev_c);
            let c_cell = match res {
                Ok(c) => c,
                Err(e) => {
                    proof {
                        assert(false);
                    }
                    return Err(e);
                },
            };
            proof {
                assert(fib(i0, i1, (k + 2) as nat) == (fib(i0, i1, k as nat) + fib(
                    i0,
                    i1,
                    (k + 1) as nat,
                )) % (MODULUS as int));
                assert(c_cell.value == fp_of(fib(i0, i1, (k + 2) as nat)));
                assert(table.copies@ =~= layout_copies(self.config, k as int));
                assert forall|c: int, r2: int|
                    0 <= c < old(table).advice@.len() && 0 <= r2 < old(table).nrows implies #[trigger] table.adv(
                    c,
                    r2,
                ) == layout_value(self.config, i0, i1, k as int, c, r2) by {}
                assert forall|j: int, r2: int|
                    0 <= j < old(table).selectors@.len() && 0 <= r2 < old(table).nrows implies #[trigger] table.sel(
                    j,
                    r2,
                ) == (j == self.config.selector && r2 <= k as int) by {}
            }
            prev_b = AssignedCell { col: self.config.col_b, row: k, value: prev_c.value };
            prev_c = c_cell;
            k = k + 1;
        }
        let ghost before = *table;
        let res2 = self.expose_public(table, &prev_c, 2);
        match res2 {
            Ok(u) => u,
            Err(e) => {
                proof {
                    assert(false);
                }
                return Err(e);
            },
        };
        proof {
            assert(table.copies@ =~= layout_copies(self.config, steps as int).push(
                (
                    CellId::Advice { col: self.config.col_c, row: steps },
                    CellId::Instance { row: 2 },
                ),
            ));
            assert forall|c: int, r2: int|
                0 <= c < old(table).advice@.len() && 0 <= r2 < old(table).nrows implies #[trigger] table.adv(
                c,
                r2,
            ) == layout_value(self.config, i0, i1, steps as int, c, r2) by {
                assert(table.adv(c, r2) == before.adv(c, r2));
            }
            assert forall|j: int, r2: int|
                0 <= j < old(table).selectors@.len() && 0 <= r2 < old(table).nrows implies #[trigger] table.sel(
                j,
                r2,
            ) == (j == self.config.selector && r2 <= steps) by {
                assert(table.sel(j, r2) == before.sel(j, r2));
            }
        }
        Ok(prev_c)
    }
}

/// Builds the three-column circuit from scratch for the given public
/// inputs and hands the table to the checker.  The checker reports no
/// violation exactly when the third public input is the term the
/// recurrence reaches after `steps` rows beyond the first — for every
/// choice of seeds.
pub fn build_and_check(public: &Vec<Fp>, steps: usize) -> (r: Vec<crate::checker::Violation>)
    requires
        public@.len() >= 3,
        forall|i: int| 0 <= i < public@.len() ==> (#[trigger] public@[i]).wf(),
        steps < usize::MAX,
    ensures
        r@.len() == 0 <==> public@[2].v == fib(
            public@[0].v as int,
            public@[1].v as int,
            (steps + 2) as nat,
        ),
{
    let ghost i0: int = public@[0].v as int;
    let ghost i1: int = public@[1].v as int;
    let mut cs = ConstraintSystem::new();
    let cfg = FiboChip::configure(&mut cs);
    let chip = FiboChip::construct(cfg);
    let mut table = CircuitTable::new(&cs, steps + 1, public);
    match chip.synthesize(&mut table, steps) {
        Ok(_) => {
            let vs = crate::checker::check(&cs, &table, public);
            proof {
                assert(cs.gates@ =~= seq![cfg.gate()]);
                if public@[2].v == fib(i0, i1, (steps + 2) as nat) {
                    lemma_layout_satisfied(cs, cfg, table, steps as int);
                } else {
                    let n = table.copies@.len();
                    assert(table.copies@[n - 1] == (
                        CellId::Advice { col: cfg.col_c, row: steps },
                        CellId::Instance { row: 2 },
                    ));
                    lemma_fib_wf(i0, i1, (steps + 2) as nat);
                    assert(table.cell_value(CellId::Advice { col: cfg.col_c, row: steps })
                        == Some(fp_of(fib(i0, i1, (steps + 2) as nat))));
                    assert(table.cell_value(CellId::Instance { row: 2 }) == Some(public@[2]));
                    assert(!copy_ok(table, n - 1));
                    assert(!satisfied(cs, table, public@));
                }
            }
            vs
        },
        Err(_) => {
            proof {
                assert(false);
            }
            Vec::new()
        },
    }
}

/// Every copy constraint the layout records binds two cells that hold
/// the same value.
proof fn lemma_layout_copies_ok(
    cfg: FiboConfig,
    t: CircuitTable,
    i0: int,
    i1: int,
    steps: int,
    k: int,
)
    requires
        t.wf(),
        cfg.wf_for(t),
        0 <= k <= steps < t.nrows,
        t.instance@.len() >= 2,
        i0 == t.instance@[0].v as int,
        i1 == t.instance@[1].v as int,
        forall|c: int, r: int|
            #![trigger t.adv(c, r)]
            0 <= c < t.advice@.len() && 0 <= r < t.nrows ==> t.adv(c, r) == layout_value(
                cfg,
                i0,
                i1,
                steps,
                c,
                r,
            ),
    ensures
        layout_copies(cfg, k).len() == 2 * k + 2,
        forall|i: int|
            0 <= i < layout_copies(cfg, k).len() ==> pair_ok(
                t,
                (#[trigger] layout_copies(cfg, k)[i]).0,
                layout_copies(cfg, k)[i].1,
            ),
    decreases k,
{
    assert(t.instance@[0].wf());
    assert(t.instance@[1].wf());
    if k <= 0 {
        assert(t.adv(cfg.col_a as int, 0) == layout_value(cfg, i0, i1, steps, cfg.col_a as int, 0));
        assert(t.adv(cfg.col_b as int, 0) == layout_value(cfg, i0, i1, steps, cfg.col_b as int, 0));
        assert(t.instance@[0] == fp_of(fib(i0, i1, 0)));
        assert(t.instance@[1] == fp_of(fib(i0, i1, 1)));
        assert(pair_ok(
            t,
            CellId::Instance { row: 0 },
            CellId::Advice { col: cfg.col_a, row: 0 },
        ));
        assert(pair_ok(
            t,
            CellId::Instance { row: 1 },
            CellId::Advice { col: cfg.col_b, row: 0 },
        ));
    } else {
        lemma_layout_copies_ok(cfg, t, i0, i1, steps, k - 1);
        assert(t.adv(cfg.col_b as int, k - 1) == layout_value(
            cfg,
            i0,
            i1,
            steps,
            cfg.col_b as int,
            k - 1,
        ));
        assert(t.adv(cfg.col_c as int, k - 1) == layout_value(
            cfg,
            i0,
            i1,
            steps,
            cfg.col_c as int,
            k - 1,
        ));
        assert(t.adv(cfg.col_a as int, k) == layout_value(cfg, i0, i1, steps, cfg.col_a as int, k));
        assert(t.adv(cfg.col_b as int, k) == layout_value(cfg, i0, i1, steps, cfg.col_b as int, k));
        assert(((k - 1) + 1) as nat == k as nat);
        assert(pair_ok(
            t,
            CellId::Advice { col: cfg.col_b, row: (k - 1) as usize },
            CellId::Advice { col: cfg.col_a, row: k as usize },
        ));
        assert(pair_ok(
            t,
            CellId::Advice { col: cfg.col_c, row: (k - 1) as usize },
            CellId::Advice { col: cfg.col_b, row: k as usize },
        ));
        assert forall|i: int|
            0 <= i < layout_copies(cfg, k).len() implies pair_ok(
            t,
            (#[trigger] layout_copies(cfg, k)[i]).0,
            layout_copies(cfg, k)[i].1,
        ) by {
            let prev = layout_copies(cfg, k - 1);
            if i < prev.len() {
                assert(layout_copies(cfg, k)[i] == prev[i]);
            }
        }
    }
}

/// Satisfaction of the three-column layout: a table in the state the
/// layout produces, checked against the very public inputs it was
/// built from, passes every gate, copy and instance check — provided
/// the third public input is the term the circuit computes.
pub proof fn lemma_layout_satisfied(
    cs: ConstraintSystem,
    cfg: FiboConfig,
    t: CircuitTable,
    steps: int,
)
    requires
        t.wf(),
        t.matches(cs),
        cfg.wf_for(t),
        cs.gates@ == seq![cfg.gate()],
        0 <= steps < t.nrows,
        t.instance@.len() >= 3,
        forall|c: int, r: int|
            #![trigger t.adv(c, r)]
            0 <= c < t.advice@.len() && 0 <= r < t.nrows ==> t.adv(c, r) == layout_value(
                cfg,
                t.instance@[0].v as int,
                t.instance@[1].v as int,
                steps,
                c,
                r,
            ),
        forall|j: int, r: int|
            #![trigger t.sel(j, r)]
            0 <= j < t.selectors@.len() && 0 <= r < t.nrows ==> t.sel(j, r) == (j == cfg.selector
                && r <= steps),
        t.copies@ == layout_copies(cfg, steps).push(
            (CellId::Advice { col: cfg.col_c, row: steps as usize }, CellId::Instance { row: 2 }),
        ),
        t.instance@[2].v == fib(
            t.instance@[0].v as int,
            t.instance@[1].v as int,
            (steps + 2) as nat,
        ),
    ensures
        satisfied(cs, t, t.instance@),
        spec_violations(cs, t, t.instance@).len() == 0,
{
    let i0 = t.instance@[0].v as int;
    let i1 = t.instance@[1].v as int;
    assert(t.instance@[0].wf());
    assert(t.instance@[1].wf());
    assert forall|g: int, r: int|
        0 <= g < cs.gates@.len() && 0 <= r < t.nrows implies #[trigger] gate_ok(cs, t, g, r) by {
        assert(cs.gates@[g] == cfg.gate());
        if t.sel(cfg.selector as int, r) {
            assert(r <= steps);
            lemma_fib_wf(i0, i1, r as nat);
            lemma_fib_wf(i0, i1, (r + 1) as nat);
            lemma_fib_wf(i0, i1, (r + 2) as nat);
            assert(t.adv(cfg.col_a as int, r) == Some(fp_of(fib(i0, i1, r as nat))));
            assert(t.adv(cfg.col_b as int, r) == Some(fp_of(fib(i0, i1, (r + 1) as nat))));
            assert(t.adv(cfg.col_c as int, r) == Some(fp_of(fib(i0, i1, (r + 2) as nat))));
            let x = fib(i0, i1, r as nat);
            let y = fib(i0, i1, (r + 1) as nat);
            assert(fib(i0, i1, (r + 2) as nat) == (x + y) % (MODULUS as int));
            lemma_sum_reduces_to_zero(x, y);
        }
    }
    lemma_layout_copies_ok(cfg, t, i0, i1, steps, steps);
    assert forall|i: int| 0 <= i < t.copies@.len() implies #[trigger] copy_ok(t, i) by {
        let base = layout_copies(cfg, steps);
        if i < base.len() {
            assert(t.copies@[i] == base[i]);
            assert(pair_ok(t, base[i].0, base[i].1));
        } else {
            assert(t.copies@[i] == (
                CellId::Advice { col: cfg.col_c, row: steps as usize },
                CellId::Instance { row: 2 },
            ));
            lemma_fib_wf(i0, i1, (steps + 2) as nat);
            assert(t.adv(cfg.col_c as int, steps) == Some(fp_of(fib(i0, i1, (steps + 2) as nat))));
            assert(fp_of(fib(i0, i1, (steps + 2) as nat)) == t.instance@[2]);
        }
    }
    assert forall|r: int|
        0 <= r < t.instance@.len() implies #[trigger] instance_ok(t, t.instance@, r) by {}
    lemma_satisfied_iff_empty(cs, t, t.instance@);
}

} // verus!
