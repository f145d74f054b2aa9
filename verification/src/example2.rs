//! The single-column windowed layout.
//!
//! One advice column holds the whole sequence, one term per row: rows
//! 0 and 1 take the seeds from the instance column, and every later
//! row holds the sum of the two rows above it.  The windowed add gate
//! `selector * (col[row] + col[row + 1] - col[row + 2]) == 0` is
//! enabled at every row except the last two, since at those anchors it
//! would read past the end of the table.  The last row's cell is bound
//! to public-input row 2.

use vstd::prelude::*;

use crate::checker::copy_ok;
use crate::checker::gate_ok;
use crate::checker::instance_ok;
use crate::checker::lemma_satisfied_iff_empty;
use crate::checker::pair_ok;
use crate::checker::satisfied;
use crate::checker::spec_violations;
use crate::fib::fib;
use crate::fib::lemma_fib_wf;
use crate::fib::lemma_sum_reduces_to_zero;
use crate::field::fp_of;
use crate::field::Fp;
use crate::field::MODULUS;
use crate::system::AddGate;
use crate::system::ConstraintSystem;
use crate::table::AssignedCell;
use crate::table::CellId;
use crate::table::CircuitError;
use crate::table::CircuitTable;

verus! {

/// The column and selector indices of the single-column layout.
#[derive(Clone, Copy, Debug, PartialEq, Eq, Structural)]
pub struct FiboConfig {
    pub advice: usize,
    pub selector: usize,
}

impl FiboConfig {
    /// The configuration names a declared, equality-enabled advice
    /// column and a declared selector.
    pub open spec fn wf_shape(self, n_advice: int, n_selectors: int, equality: Seq<bool>) -> bool {
        &&& (self.advice as int) < n_advice
        &&& (self.selector as int) < n_selectors
        &&& equality.len() == n_advice
        &&& equality[self.advice as int]
    }

    /// Well-formedness with respect to a table.
    pub open spec fn wf_for(self, t: CircuitTable) -> bool {
        self.wf_shape(t.advice@.len() as int, t.selectors@.len() as int, t.equality@)
    }

    /// Well-formedness with respect to the constraint system.
    pub open spec fn wf_for_system(self, cs: ConstraintSystem) -> bool {
        self.wf_shape(cs.n_advice as int, cs.n_selectors as int, cs.equality@)
    }

    /// The windowed gate: `selector * (col[row] + col[row + 1] -
    /// col[row + 2]) == 0`.
    pub open spec fn gate(self) -> AddGate {
        AddGate {
            selector: self.selector,
            a_col: self.advice,
            a_rot: 0,
            b_col: self.advice,
            b_rot: 1,
            c_col: self.advice,
            c_rot: 2,
        }
    }
}

/// The cell contents of the single-column layout over `nrows` rows
/// from seeds `a` and `b`: row `r` of the advice column holds term `r`
/// of the sequence; every other cell is unassigned.
pub open spec fn window_value(
    cfg: FiboConfig,
    a: int,
    b: int,
    nrows: int,
    c: int,
    r: int,
) -> Option<Fp> {
    if c == cfg.advice && 0 <= r < nrows {
        Some(fp_of(fib(a, b, r as nat)))
    } else {
        None
    }
}

/// The two copy constraints of the layout: the seed bindings of rows 0
/// and 1 to public inputs 0 and 1.
pub open spec fn window_copies(cfg: FiboConfig) -> Seq<(CellId, CellId)> {
    seq![
        (CellId::Instance { row: 0 }, CellId::Advice { col: cfg.advice, row: 0 }),
        (CellId::Instance { row: 1 }, CellId::Advice { col: cfg.advice, row: 1 }),
    ]
}

/// The chip that drives the single-column layout.
#[derive(Clone, Copy, Debug, PartialEq, Eq, Structural)]
pub struct FiboChip {
    pub config: FiboConfig,
}

impl FiboChip {
    /// Wraps an already-declared configuration.
    pub fn construct(config: FiboConfig) -> (r: FiboChip)
        ensures
            r.config == config,
    {
        FiboChip { config }
    }

    /// Declares the layout's shape over an advice column the caller
    /// already declared: a fresh selector, equality on the column, and
    /// the windowed add gate.
    pub fn configure(meta: &mut ConstraintSystem, advice: usize) -> (cfg: FiboConfig)
        requires
            old(meta).wf(),
            advice < old(meta).n_advice,
            old(meta).n_selectors < usize::MAX,
        ensures
            final(meta).wf(),
            cfg.wf_for_system(*final(meta)),
            cfg == (FiboConfig { advice, selector: old(meta).n_selectors }),
            final(meta).n_advice == old(meta).n_advice,
            final(meta).n_selectors == old(meta).n_selectors + 1,
            final(meta).equality@ == old(meta).equality@.update(advice as int, true),
            final(meta).gates@ == old(meta).gates@.push(cfg.gate()),
    {
        let selector = meta.selector();
        meta.enable_equality(advice);
        let cfg = FiboConfig { advice, selector };
        meta.create_gate(
            AddGate {
                selector,
                a_col: advice,
                a_rot: 0,
                b_col: advice,
                b_rot: 1,
                c_col: advice,
                c_rot: 2,
            },
        );
        cfg
    }

    /// Lays out the whole table in one region: seeds at rows 0 and 1
    /// from public inputs 0 and 1, each later row the sum of the two
    /// rows above it, and the selector enabled at every row but the
    /// last two.  Returns the last row's cell.
    pub fn assign(&self, table: &mut CircuitTable, nrows: usize) -> (r: Result<
        AssignedCell,
        CircuitError,
    >)
        requires
            old(table).wf(),
            old(table).fresh(),
            self.config.wf_for(*old(table)),
            4 <= nrows <= old(table).nrows,
            old(table).instance@.len() >= 2,
        ensures
            final(table).wf(),
            old(table).same_shape(*final(table)),
            match r {
                Ok(out) => {
                    &&& out == (AssignedCell {
                        col: self.config.advice,
                        row: (nrows - 1) as usize,
                        value: fp_of(
                            fib(
                                old(table).instance@[0].v as int,
                                old(table).instance@[1].v as int,
                                (nrows - 1) as nat,
                            ),
                        ),
                    })
                    &&& out.lives_in(*final(table))
                    &&& forall|c: int, r2: int|
                        #![trigger final(table).adv(c, r2)]
                        0 <= c < old(table).advice@.len() && 0 <= r2 < old(table).nrows ==> final(table).adv(c, r2) == window_value(
                            self.config,
                            old(table).instance@[0].v as int,
                            old(table).instance@[1].v as int,
                            nrows as int,
                            c,
                            r2,
                        )
                    &&& forall|j: int, r2: int|
                        #![trigger final(table).sel(j, r2)]
                        0 <= j < old(table).selectors@.len() && 0 <= r2 < old(table).nrows ==> final(table).sel(j, r2) == (j == self.config.selector && r2 < nrows - 2)
                    &&& forall|r2: int|
                        nrows - 2 <= r2 < old(table).nrows ==> !final(table).sel(
                            self.config.selector as int,
                            r2,
                        )
                    &&& final(table).copies@ == window_copies(self.config)
                },
                Err(_) => false,
            },
    {
        proof {
            assert(old(table).instance@[0].wf());
            assert(old(table).instance@[1].wf());
        }
        let ghost i0: int = old(table).instance@[0].v as int;
        let ghost i1: int = old(table).instance@[1].v as int;
        table.enable_selector(self.config.selector, 0);
        let ghost s1 = *table;
        table.enable_selector(self.config.selector, 1);
        proof {
            assert forall|j: int, r2: int|
                0 <= j < old(table).selectors@.len() && 0 <= r2 < old(table).nrows implies #[trigger] table.sel(
                j,
                r2,
            ) == (j == self.config.selector && (r2 == 0 || r2 == 1)) by {
                assert(!old(table).sel(j, r2));
                assert(s1.sel(j, r2) == (old(table).sel(j, r2) || (j == self.config.selector && r2
                    == 0)));
            }
            assert(table.adv(self.config.advice as int, 0) == old(table).adv(
                self.config.advice as int,
                0,
            ));
            assert(table.adv(self.config.advice as int, 1) == old(table).adv(
                self.config.advice as int,
                1,
            ));
        }
        let ghost s2 = *table;
        let a0 = match table.assign_advice_from_instance(0, self.config.advice, 0) {
            Ok(c) => c,
            Err(e) => {
                proof {
                    assert(false);
                }
                return Err(e);
            },
        };
        let ghost s3 = *table;
        let mut a_cell = a0;
        proof {
            assert(s3.adv(self.config.advice as int, 1) == s2.adv(self.config.advice as int, 1));
        }
        let b0 = match table.assign_advice_from_instance(1, self.config.advice, 1) {
            Ok(c) => c,
            Err(e) => {
                proof {
                    assert(false);
                }
                return Err(e);
            },
        };
        let mut b_cell = b0;
        proof {
            assert(a_cell.value == fp_of(fib(i0, i1, 0)));
            assert(b_cell.value == fp_of(fib(i0, i1, 1)));
            assert(table.copies@ =~= window_copies(self.config));
            assert forall|c: int, r2: int|
                0 <= c < old(table).advice@.len() && 0 <= r2 < old(table).nrows implies #[trigger] table.adv(
                c,
                r2,
            ) == (if c == self.config.advice && 0 <= r2 < 2 {
                Some(fp_of(fib(i0, i1, r2 as nat)))
            } else {
                None
            }) by {
                assert(s3.adv(c, r2) == (if c == self.config.advice && r2 == 0 {
                    Some(old(table).instance@[0])
                } else {
                    s2.adv(c, r2)
                }));
                assert(s2.adv(c, r2) == old(table).adv(c, r2));
                assert(old(table).adv(c, r2) is None);
            }
            assert forall|j: int, r2: int|
                0 <= j < old(table).selectors@.len() && 0 <= r2 < old(table).nrows implies #[trigger] table.sel(
                j,
                r2,
            ) == (j == self.config.selector && (r2 == 0 || r2 == 1)) by {
                assert(table.sel(j, r2) == s2.sel(j, r2));
            }
        }
        let mut row: usize = 2;
        while row < nrows
            invariant
                table.wf(),
                old(table).same_shape(*table),
                self.config.wf_for(*old(table)),
                self.config.wf_for(*table),
                old(table).fresh(),
                old(table).instance@.len() >= 2,
                4 <= nrows <= old(table).nrows,
                2 <= row <= nrows,
                i0 == old(table).instance@[0].v as int,
                i1 == old(table).instance@[1].v as int,
                0 <= i0 < MODULUS,
                0 <= i1 < MODULUS,
                forall|c: int, r2: int|
                    #![trigger table.adv(c, r2)]
                    0 <= c < old(table).advice@.len() && 0 <= r2 < old(table).nrows ==> table.adv(
                        c,
                        r2,
                    ) == (if c == self.config.advice && 0 <= r2 < row {
                        Some(fp_of(fib(i0, i1, r2 as nat)))
                    } else {
                        None
                    }),
                forall|j: int, r2: int|
                    #![trigger table.sel(j, r2)]
                    0 <= j < old(table).selectors@.len() && 0 <= r2 < old(table).nrows ==> table.sel(
                        j,
                        r2,
                    ) == (j == self.config.selector && r2 < row && r2 < nrows - 2),
                table.copies@ == window_copies(self.config),
                a_cell == (AssignedCell {
                    col: self.config.advice,
                    row: (row - 2) as usize,
                    value: fp_of(fib(i0, i1, (row - 2) as nat)),
                }),
                b_cell == (AssignedCell {
                    col: self.config.advice,
                    row: (row - 1) as usize,
                    value: fp_of(fib(i0, i1, (row - 1) as nat)),
                }),
            decreases nrows - row,
        {
            let ghost lh = *table;
            if row < nrows - 2 {
                table.enable_selector(self.config.selector, row);
            }
            proof {
                assert forall|c: int, r2: int|
                    0 <= c < old(table).advice@.len() && 0 <= r2 < old(table).nrows implies #[trigger] table.adv(
                    c,
                    r2,
                ) == (if c == self.config.advice && 0 <= r2 < row {
                    Some(fp_of(fib(i0, i1, r2 as nat)))
                } else {
                    None
                }) by {
                    assert(table.adv(c, r2) == lh.adv(c, r2));
                }
                assert forall|j: int, r2: int|
                    0 <= j < old(table).selectors@.len() && 0 <= r2 < old(table).nrows implies #[trigger] table.sel(
                    j,
                    r2,
                ) == (j == self.config.selector && (r2 < row || r2 == row) && r2 < nrows - 2) by {
                    if !(row < nrows - 2) {
                        assert(table.sel(j, r2) == lh.sel(j, r2));
                    }
                }
                lemma_fib_wf(i0, i1, (row - 2) as nat);
                lemma_fib_wf(i0, i1, (row - 1) as nat);
                lemma_fib_wf(i0, i1, row as nat);
                assert(fib(i0, i1, row as nat) == (fib(i0, i1, (row - 2) as nat) + fib(
                    i0,
                    i1,
                    (row - 1) as nat,
                )) % (MODULUS as int));
                assert(table.adv(self.config.advice as int, row as int) is None);
            }
            let value = a_cell.value.add(b_cell.value);
            let ghost m = *table;
            let c_cell = match table.assign_advice(self.config.advice, row, value) {
                Ok(c) => c,
                Err(e) => {
                    proof {
                        assert(false);
                    }
                    return Err(e);
                },
            };
            proof {
                assert(c_cell.value == fp_of(fib(i0, i1, row as nat)));
                assert forall|c: int, r2: int|
                    0 <= c < old(table).advice@.len() && 0 <= r2 < old(table).nrows implies #[trigger] table.adv(
                    c,
                    r2,
                ) == (if c == self.config.advice && 0 <= r2 < row + 1 {
                    Some(fp_of(fib(i0, i1, r2 as nat)))
                } else {
                    None
                }) by {}
                assert forall|j: int, r2: int|
                    0 <= j < old(table).selectors@.len() && 0 <= r2 < old(table).nrows implies #[trigger] table.sel(
                    j,
                    r2,
                ) == (j == self.config.selector && r2 < row + 1 && r2 < nrows - 2) by {
                    assert(table.sel(j, r2) == m.sel(j, r2));
                }
            }
            a_cell = b_cell;
            b_cell = c_cell;
            row = row + 1;
        }
        Ok(b_cell)
    }

    /// Binds an assigned cell to the given public-input row.
    pub fn expose_public(&self, table: &mut CircuitTable, cell: &AssignedCell, row: usize) -> (r:
        Result<(), CircuitError>)
        requires
            old(table).wf(),
            (cell.col as int) < old(table).advice@.len(),
            cell.row < old(table).nrows,
            old(table).equality@[cell.col as int],
        ensures
            final(table).wf(),
            old(table).same_shape(*final(table)),
            final(table).selectors@ == old(table).selectors@,
            final(table).advice@ == old(table).advice@,
            r is Ok <==> ((row as int) < old(table).instance@.len() && old(table).adv(
                cell.col as int,
                cell.row as int,
            ) is Some),
            match r {
                Ok(u) => final(table).copies@ == old(table).copies@.push(
                    (
                        CellId::Advice { col: cell.col, row: cell.row },
                        CellId::Instance { row },
                    ),
                ),
                Err(e) => {
                    &&& *final(table) == *old(table)
                    &&& if (row as int) >= old(table).instance@.len() {
                        e == (CircuitError::UnboundPublicInput { row })
                    } else {
                        e == (CircuitError::NotAssigned {
                            cell: CellId::Advice { col: cell.col, row: cell.row },
                        })
                    }
                },
            },
    {
        table.constrain_instance(cell.col, cell.row, row)
    }

    /// Lays out the whole circuit: the table over `nrows` rows and the
    /// final cell bound to public-input row 2.
    pub fn synthesize(&self, table: &mut CircuitTable, nrows: usize) -> (r: Result<
        AssignedCell,
        CircuitError,
    >)
        requires
            old(table).wf(),
            old(table).fresh(),
            self.config.wf_for(*old(table)),
            4 <= nrows <= old(table).nrows,
            old(table).instance@.len() >= 3,
        ensures
            final(table).wf(),
            old(table).same_shape(*final(table)),
            match r {
                Ok(out) => {
                    &&& out == (AssignedCell {
                        col: self.config.advice,
                        row: (nrows - 1) as usize,
                        value: fp_of(
                            fib(
                                old(table).instance@[0].v as int,
                                old(table).instance@[1].v as int,
                                (nrows - 1) as nat,
                            ),
                        ),
                    })
                    &&& out.lives_in(*final(table))
                    &&& forall|c: int, r2: int|
                        #![trigger final(table).adv(c, r2)]
                        0 <= c < old(table).advice@.len() && 0 <= r2 < old(table).nrows ==> final(table).adv(c, r2) == window_value(
                            self.config,
                            old(table).instance@[0].v as int,
                            old(table).instance@[1].v as int,
                            nrows as int,
                            c,
                            r2,
                        )
                    &&& forall|j: int, r2: int|
                        #![trigger final(table).sel(j, r2)]
                        0 <= j < old(table).selectors@.len() && 0 <= r2 < old(table).nrows ==> final(table).sel(j, r2) == (j == self.config.selector && r2 < nrows - 2)
                    &&& final(table).copies@ == window_copies(self.config).push(
                        (
                            CellId::Advice { col: self.config.advice, row: (nrows - 1) as usize },
                            CellId::Instance { row: 2 },
                        ),
                    )
                },
                Err(_) => false,
            },
    {
        let ghost i0: int = old(table).instance@[0].v as int;
        let ghost i1: int = old(table).instance@[1].v as int;
        let out = match self.assign(table, nrows) {
            Ok(c) => c,
            Err(e) => {
                proof {
                    assert(false);
                }
                return Err(e);
            },
        };
        proof {
            assert(table.adv(self.config.advice as int, (nrows - 1) as int) is Some);
        }
        let ghost before = *table;
        let res = self.expose_public(table, &out, 2);
        match res {
            Ok(u) => u,
            Err(e) => {
                proof {
                    assert(false);
                }
                return Err(e);
            },
        };
        proof {
            assert forall|c: int, r2: int|
                0 <= c < old(table).advice@.len() && 0 <= r2 < old(table).nrows implies #[trigger] table.adv(
                c,
                r2,
            ) == window_value(self.config, i0, i1, nrows as int, c, r2) by {
                assert(table.adv(c, r2) == before.adv(c, r2));
            }
            assert forall|j: int, r2: int|
                0 <= j < old(table).selectors@.len() && 0 <= r2 < old(table).nrows implies #[trigger] table.sel(
                j,
                r2,
            ) == (j == self.config.selector && r2 < nrows - 2) by {
                assert(table.sel(j, r2) == before.sel(j, r2));
            }
        }
        Ok(out)
    }
}

/// Builds the single-column circuit from scratch for the given public
/// inputs and hands the table to the checker.  The checker reports no
/// violation exactly when the third public input is the last row's
/// term of the recurrence — for every choice of seeds.
pub fn build_and_check(public: &Vec<Fp>, nrows: usize) -> (r: Vec<crate::checker::Violation>)
    requires
        public@.len() >= 3,
        forall|i: int| 0 <= i < public@.len() ==> (#[trigger] public@[i]).wf(),
        nrows >= 4,
    ensures
        r@.len() == 0 <==> public@[2].v == fib(
            public@[0].v as int,
            public@[1].v as int,
            (nrows - 1) as nat,
        ),
{
    let ghost i0: int = public@[0].v as int;
    let ghost i1: int = public@[1].v as int;
    let mut cs = ConstraintSystem::new();
    let advice = cs.advice_column();
    let cfg = FiboChip::configure(&mut cs, advice);
    let chip = FiboChip::construct(cfg);
    let mut table = CircuitTable::new(&cs, nrows, public);
    match chip.synthesize(&mut table, nrows) {
        Ok(_) => {
            let vs = crate::checker::check(&cs, &table, public);
            proof {
                assert(cs.gates@ =~= seq![cfg.gate()]);
                if public@[2].v == fib(i0, i1, (nrows - 1) as nat) {
                    lemma_window_satisfied(cs, cfg, table, nrows as int);
                } else {
                    let n = table.copies@.len();
                    assert(table.copies@[n - 1] == (
                        CellId::Advice { col: cfg.advice, row: (nrows - 1) as usize },
                        CellId::Instance { row: 2 },
                    ));
                    lemma_fib_wf(i0, i1, (nrows - 1) as nat);
                    assert(table.cell_value(
                        CellId::Advice { col: cfg.advice, row: (nrows - 1) as usize },
                    ) == Some(fp_of(fib(i0, i1, (nrows - 1) as nat))));
                    assert(table.cell_value(CellId::Instance { row: 2 }) == Some(public@[2]));
                    assert(!copy_ok(table, n - 1));
                    assert(!satisfied(cs, table, public@));
                }
            }
            vs
        },
        Err(_) => {
            proof {
                assert(false);
            }
            Vec::new()
        },
    }
}

/// Satisfaction of the single-column layout: a table in the state the
/// layout produces, checked against the very public inputs it was
/// built from, passes every gate, copy and instance check — provided
/// the third public input is the last row's term.
pub proof fn lemma_window_satisfied(
    cs: ConstraintSystem,
    cfg: FiboConfig,
    t: CircuitTable,
    nrows: int,
)
    requires
        t.wf(),
        t.matches(cs),
        cfg.wf_for(t),
        cs.gates@ == seq![cfg.gate()],
        4 <= nrows <= t.nrows,
        t.instance@.len() >= 3,
        forall|c: int, r: int|
            #![trigger t.adv(c, r)]
            0 <= c < t.advice@.len() && 0 <= r < t.nrows ==> t.adv(c, r) == window_value(
                cfg,
                t.instance@[0].v as int,
                t.instance@[1].v as int,
                nrows,
                c,
                r,
            ),
        forall|j: int, r: int|
            #![trigger t.sel(j, r)]
            0 <= j < t.selectors@.len() && 0 <= r < t.nrows ==> t.sel(j, r) == (j == cfg.selector
                && r < nrows - 2),
        t.copies@ == window_copies(cfg).push(
            (
                CellId::Advice { col: cfg.advice, row: (nrows - 1) as usize },
                CellId::Instance { row: 2 },
            ),
        ),
        t.instance@[2].v == fib(
            t.instance@[0].v as int,
            t.instance@[1].v as int,
            (nrows - 1) as nat,
        ),
    ensures
        satisfied(cs, t, t.instance@),
        spec_violations(cs, t, t.instance@).len() == 0,
{
    let i0 = t.instance@[0].v as int;
    let i1 = t.instance@[1].v as int;
    assert(t.instance@[0].wf());
    assert(t.instance@[1].wf());
    assert forall|g: int, r: int|
        0 <= g < cs.gates@.len() && 0 <= r < t.nrows implies #[trigger] gate_ok(cs, t, g, r) by {
        assert(cs.gates@[g] == cfg.gate());
        if t.sel(cfg.selector as int, r) {
            assert(r < nrows - 2);
            lemma_fib_wf(i0, i1, r as nat);
            lemma_fib_wf(i0, i1, (r + 1) as nat);
            lemma_fib_wf(i0, i1, (r + 2) as nat);
            assert(t.adv(cfg.advice as int, r) == Some(fp_of(fib(i0, i1, r as nat))));
            assert(t.adv(cfg.advice as int, r + 1) == Some(fp_of(fib(i0, i1, (r + 1) as nat))));
            assert(t.adv(cfg.advice as int, r + 2) == Some(fp_of(fib(i0, i1, (r + 2) as nat))));
            let x = fib(i0, i1, r as nat);
            let y = fib(i0, i1, (r + 1) as nat);
            assert(fib(i0, i1, (r + 2) as nat) == (x + y) % (MODULUS as int));
            lemma_sum_reduces_to_zero(x, y);
        }
    }
    assert forall|i: int| 0 <= i < t.copies@.len() implies #[trigger] copy_ok(t, i) by {
        assert(t.adv(cfg.advice as int, 0) == Some(fp_of(fib(i0, i1, 0))));
        assert(t.adv(cfg.advice as int, 1) == Some(fp_of(fib(i0, i1, 1))));
        assert(t.instance@[0] == fp_of(fib(i0, i1, 0)));
        assert(t.instance@[1] == fp_of(fib(i0, i1, 1)));
        if i == 2 {
            lemma_fib_wf(i0, i1, (nrows - 1) as nat);
            assert(t.adv(cfg.advice as int, nrows - 1) == Some(
                fp_of(fib(i0, i1, (nrows - 1) as nat)),
            ));
            assert(fp_of(fib(i0, i1, (nrows - 1) as nat)) == t.instance@[2]);
        }
    }
    assert forall|r: int|
        0 <= r < t.instance@.len() implies #[trigger] instance_ok(t, t.instance@, r) by {}
    lemma_satisfied_iff_empty(cs, t, t.instance@);
}

} // verus!
