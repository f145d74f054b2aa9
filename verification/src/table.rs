//! The circuit table: cells, selectors and copy constraints.
//!
//! The table owns every cell of the circuit.  Advice cells start out
//! unassigned and may be assigned exactly once; the single instance
//! column is populated at construction time from the public inputs that
//! witness generation works against.  Assignment happens through a
//! small set of primitives that mirror a region's operations: enabling
//! a selector at a row, assigning a plain advice value, assigning an
//! advice cell from an instance cell (which records a copy constraint),
//! copying one advice cell into another (likewise), and binding an
//! assigned cell to a public-input row.

use vstd::prelude::*;

use crate::field::Fp;
use crate::system::ConstraintSystem;

verus! {

/// The identity of a cell: an advice cell at a column and row, or a
/// cell of the instance column at a public-input row.
#[derive(Clone, Copy, Debug, PartialEq, Eq, Structural)]
pub enum CellId {
    Advice { col: usize, row: usize },
    Instance { row: usize },
}

/// A handle to an assigned advice cell: its position and the value it
/// holds.
#[derive(Clone, Copy, Debug, PartialEq, Eq, Structural)]
pub struct AssignedCell {
    pub col: usize,
    pub row: usize,
    pub value: Fp,
}

/// An error raised while building the table.  Any of these aborts the
/// construction of the circuit: a partially built table is unusable.
#[derive(Clone, Copy, Debug, PartialEq, Eq, Structural)]
pub enum CircuitError {
    /// A cell was assigned a second time.
    AlreadyAssigned { cell: CellId },
    /// A cell was copied or exposed before being assigned.
    NotAssigned { cell: CellId },
    /// A public-input binding named a row outside the instance column.
    UnboundPublicInput { row: usize },
}

/// The table of all cells, the selector assignments and the copy
/// constraints accumulated during assignment.
pub struct CircuitTable {
    pub nrows: usize,
    pub advice: Vec<Vec<Option<Fp>>>,
    pub instance: Vec<Fp>,
    pub equality: Vec<bool>,
    pub selectors: Vec<Vec<bool>>,
    pub copies: Vec<(CellId, CellId)>,
}

impl AssignedCell {
    /// The handle accurately describes an assigned cell of the table.
    pub open spec fn lives_in(self, t: CircuitTable) -> bool {
        &&& (self.col as int) < t.advice@.len()
        &&& self.row < t.nrows
        &&& t.adv(self.col as int, self.row as int) == Some(self.value)
    }
}

impl CircuitTable {
    /// The advice cell at column `c`, row `r`.
    pub open spec fn adv(self, c: int, r: int) -> Option<Fp> {
        self.advice@[c]@[r]
    }

    /// Whether selector `s` is enabled at row `r`.
    pub open spec fn sel(self, s: int, r: int) -> bool {
        self.selectors@[s]@[r]
    }

    /// Whether a cell identity refers into the table.
    pub open spec fn cell_in_bounds(self, c: CellId) -> bool {
        match c {
            CellId::Advice { col, row } => (col as int) < self.advice@.len() && row < self.nrows,
            CellId::Instance { row } => (row as int) < self.instance@.len(),
        }
    }

    /// The value a cell holds: instance cells always hold their public
    /// input, advice cells hold a value once assigned.
    pub open spec fn cell_value(self, c: CellId) -> Option<Fp> {
        match c {
            CellId::Advice { col, row } => self.adv(col as int, row as int),
            CellId::Instance { row } => Some(self.instance@[row as int]),
        }
    }

    /// Structural well-formedness: every column has `nrows` cells,
    /// every held value is a canonical field element, and every copy
    /// constraint refers into the table.
    pub open spec fn wf(self) -> bool {
        &&& self.advice@.len() == self.equality@.len()
        &&& forall|c: int|
            0 <= c < self.advice@.len() ==> (#[trigger] self.advice@[c])@.len() == self.nrows
        &&& forall|s: int|
            0 <= s < self.selectors@.len() ==> (#[trigger] self.selectors@[s])@.len() == self.nrows
        &&& forall|c: int, r: int|
            0 <= c < self.advice@.len() && 0 <= r < self.nrows ==> match #[trigger] self.adv(
                c,
                r,
            ) {
                Option::Some(v) => v.wf(),
                Option::None => true,
            }
        &&& forall|r: int| 0 <= r < self.instance@.len() ==> (#[trigger] self.instance@[r]).wf()
        &&& forall|i: int|
            0 <= i < self.copies@.len() ==> self.cell_in_bounds((#[trigger] self.copies@[i]).0)
                && self.cell_in_bounds(self.copies@[i].1)
    }

    /// The table has the shape the constraint system declared.
    pub open spec fn matches(self, cs: ConstraintSystem) -> bool {
        &&& self.advice@.len() == cs.n_advice
        &&& self.selectors@.len() == cs.n_selectors
        &&& self.equality@ == cs.equality@
    }

    /// No advice cell assigned, no selector enabled, no copy
    /// constraint recorded.
    pub open spec fn fresh(self) -> bool {
        &&& forall|c: int, r: int|
            0 <= c < self.advice@.len() && 0 <= r < self.nrows ==> #[trigger] self.adv(c, r) is None
        &&& forall|s: int, r: int|
            0 <= s < self.selectors@.len() && 0 <= r < self.nrows ==> !(#[trigger] self.sel(s, r))
        &&& self.copies@.len() == 0
    }

    /// The parts of the table that assignment never changes: its shape,
    /// its equality flags and its instance column.
    pub open spec fn same_shape(self, other: CircuitTable) -> bool {
        &&& other.nrows == self.nrows
        &&& other.advice@.len() == self.advice@.len()
        &&& other.selectors@.len() == self.selectors@.len()
        &&& other.equality@ == self.equality@
        &&& other.instance@ == self.instance@
    }

    /// Builds the empty table for a declared system: `nrows` rows per
    /// column, the instance column holding the given public inputs.
    pub fn new(cs: &ConstraintSystem, nrows: usize, instance: &Vec<Fp>) -> (t: CircuitTable)
        requires
            cs.wf(),
            forall|i: int| 0 <= i < instance@.len() ==> (#[trigger] instance@[i]).wf(),
        ensures
            t.wf(),
            t.matches(*cs),
            t.fresh(),
            t.nrows == nrows,
            t.instance@ == instance@,
    {
        let mut advice: Vec<Vec<Option<Fp>>> = Vec::new();
        let mut c: usize = 0;
        while c < cs.n_advice
            invariant
                c <= cs.n_advice,
                advice@.len() == c,
                forall|i: int| 0 <= i < c ==> (#[trigger] advice@[i])@.len() == nrows,
                forall|i: int, r: int|
                    0 <= i < c && 0 <= r < nrows ==> #[trigger] advice@[i]@[r] is None,
            decreases cs.n_advice - c,
        {
            advice.push(none_column(nrows));
            c = c + 1;
        }
        let mut selectors: Vec<Vec<bool>> = Vec::new();
        let mut s: usize = 0;
        while s < cs.n_selectors
            invariant
                s <= cs.n_selectors,
                selectors@.len() == s,
                forall|i: int| 0 <= i < s ==> (#[trigger] selectors@[i])@.len() == nrows,
                forall|i: int, r: int|
                    0 <= i < s && 0 <= r < nrows ==> !(#[trigger] selectors@[i]@[r]),
            decreases cs.n_selectors - s,
        {
            selectors.push(false_column(nrows));
            s = s + 1;
        }
        let equality = copy_flags(&cs.equality);
        let inst = copy_values(instance);
        CircuitTable { nrows, advice, instance: inst, equality, selectors, copies: Vec::new() }
    }

    /// Enables a selector at a row; other selector cells are untouched.
    pub fn enable_selector(&mut self, s: usize, row: usize)
        requires
            old(self).wf(),
            (s as int) < old(self).selectors@.len(),
            row < old(self).nrows,
        ensures
            final(self).wf(),
            old(self).same_shape(*final(self)),
            final(self).advice@ == old(self).advice@,
            final(self).copies@ == old(self).copies@,
            forall|j: int, r: int|
                #![trigger final(self).sel(j, r)]
                #![trigger old(self).sel(j, r)]
                0 <= j < old(self).selectors@.len() && 0 <= r < old(self).nrows ==> final(self).sel(j, r) == (old(self).sel(j, r) || (j == s && r == row)),
    {
        self.selectors[s][row] = true;
        proof {
            assert forall|j: int| 0 <= j < self.selectors@.len() implies (
            #[trigger] self.selectors@[j])@.len() == self.nrows by {
                if j != s {
                    assert(self.selectors@[j] == old(self).selectors@[j]);
                }
            }
            assert forall|c: int, r: int|
                0 <= c < self.advice@.len() && 0 <= r < self.nrows implies match #[trigger] self.adv(
                c,
                r,
            ) {
                Option::Some(v) => v.wf(),
                Option::None => true,
            } by {
                assert(self.adv(c, r) == old(self).adv(c, r));
            }
            assert forall|i: int|
                0 <= i < self.copies@.len() implies self.cell_in_bounds(
                (#[trigger] self.copies@[i]).0,
            ) && self.cell_in_bounds(self.copies@[i].1) by {
                assert(old(self).cell_in_bounds(old(self).copies@[i].0));
                assert(old(self).cell_in_bounds(old(self).copies@[i].1));
            }
        }
    }

    /// Assigns a plain advice value to an unassigned cell.  No copy
    /// constraint is recorded.
    pub fn assign_advice(&mut self, col: usize, row: usize, value: Fp) -> (r: Result<
        AssignedCell,
        CircuitError,
    >)
        requires
            old(self).wf(),
            (col as int) < old(self).advice@.len(),
            row < old(self).nrows,
            value.wf(),
        ensures
            final(self).wf(),
            old(self).same_shape(*final(self)),
            final(self).selectors@ == old(self).selectors@,
            final(self).copies@ == old(self).copies@,
            r is Ok <==> old(self).adv(col as int, row as int) is None,
            match r {
                Ok(cell) => {
                    &&& cell == (AssignedCell { col, row, value })
                    &&& cell.lives_in(*final(self))
                    &&& forall|c: int, r2: int|
                        #![trigger final(self).adv(c, r2)]
                        #![trigger old(self).adv(c, r2)]
                        0 <= c < old(self).advice@.len() && 0 <= r2 < old(self).nrows ==> final(self).adv(c, r2) == if c == col && r2 == row {
                            Some(value)
                        } else {
                            old(self).adv(c, r2)
                        }
                },
                Err(e) => {
                    &&& e == (CircuitError::AlreadyAssigned { cell: CellId::Advice { col, row } })
                    &&& *final(self) == *old(self)
                },
            },
    {
        if self.advice[col][row].is_some() {
            return Err(CircuitError::AlreadyAssigned { cell: CellId::Advice { col, row } });
        }
        self.advice[col][row] = Some(value);
        proof {
            lemma_wf_after_cell_write(*old(self), *self, col as int, row as int, value);
        }
        Ok(AssignedCell { col, row, value })
    }

    /// Assigns an advice cell from a cell of the instance column and
    /// records the copy constraint that binds the two.
    pub fn assign_advice_from_instance(&mut self, instance_row: usize, col: usize, row: usize) -> (r:
        Result<AssignedCell, CircuitError>)
        requires
            old(self).wf(),
            (col as int) < old(self).advice@.len(),
            row < old(self).nrows,
            old(self).equality@[col as int],
        ensures
            final(self).wf(),
            old(self).same_shape(*final(self)),
            final(self).selectors@ == old(self).selectors@,
            r is Ok <==> ((instance_row as int) < old(self).instance@.len() && old(self).adv(
                col as int,
                row as int,
            ) is None),
            match r {
                Ok(cell) => {
                    &&& cell == (AssignedCell {
                        col,
                        row,
                        value: old(self).instance@[instance_row as int],
                    })
                    &&& cell.lives_in(*final(self))
                    &&& forall|c: int, r2: int|
                        #![trigger final(self).adv(c, r2)]
                        #![trigger old(self).adv(c, r2)]
                        0 <= c < old(self).advice@.len() && 0 <= r2 < old(self).nrows ==> final(self).adv(c, r2) == if c == col && r2 == row {
                            Some(old(self).instance@[instance_row as int])
                        } else {
                            old(self).adv(c, r2)
                        }
                    &&& final(self).copies@ == old(self).copies@.push(
                        (CellId::Instance { row: instance_row }, CellId::Advice { col, row }),
                    )
                },
                Err(e) => {
                    &&& *final(self) == *old(self)
                    &&& if (instance_row as int) >= old(self).instance@.len() {
                        e == (CircuitError::UnboundPublicInput { row: instance_row })
                    } else {
                        e == (CircuitError::AlreadyAssigned { cell: CellId::Advice { col, row } })
                    }
                },
            },
    {
        if instance_row >= self.instance.len() {
            return Err(CircuitError::UnboundPublicInput { row: instance_row });
        }
        let value = self.instance[instance_row];
        if self.advice[col][row].is_some() {
            return Err(CircuitError::AlreadyAssigned { cell: CellId::Advice { col, row } });
        }
        self.advice[col][row] = Some(value);
        self.copies.push((CellId::Instance { row: instance_row }, CellId::Advice { col, row }));
        proof {
            assert(old(self).instance@[instance_row as int].wf());
            lemma_wf_after_cell_write(*old(self), *self, col as int, row as int, value);
        }
        Ok(AssignedCell { col, row, value })
    }

    /// Copies an assigned advice cell into an unassigned one and
    /// records the copy constraint between the two.  Both columns must
    /// be equality-enabled.
    pub fn copy_advice(&mut self, src_col: usize, src_row: usize, dst_col: usize, dst_row: usize) -> (r:
        Result<AssignedCell, CircuitError>)
        requires
            old(self).wf(),
            (src_col as int) < old(self).advice@.len(),
            src_row < old(self).nrows,
            (dst_col as int) < old(self).advice@.len(),
            dst_row < old(self).nrows,
            old(self).equality@[src_col as int],
            old(self).equality@[dst_col as int],
        ensures
            final(self).wf(),
            old(self).same_shape(*final(self)),
            final(self).selectors@ == old(self).selectors@,
            r is Ok <==> (old(self).adv(src_col as int, src_row as int) is Some && old(self).adv(
                dst_col as int,
                dst_row as int,
            ) is None),
            match r {
                Ok(cell) => {
                    &&& cell == (AssignedCell {
                        col: dst_col,
                        row: dst_row,
                        value: old(self).adv(src_col as int, src_row as int).unwrap(),
                    })
                    &&& cell.lives_in(*final(self))
                    &&& forall|c: int, r2: int|
                        #![trigger final(self).adv(c, r2)]
                        #![trigger old(self).adv(c, r2)]
                        0 <= c < old(self).advice@.len() && 0 <= r2 < old(self).nrows ==> final(self).adv(c, r2) == if c == dst_col && r2 == dst_row {
                            old(self).adv(src_col as int, src_row as int)
                        } else {
                            old(self).adv(c, r2)
                        }
                    &&& final(self).copies@ == old(self).copies@.push(
                        (
                            CellId::Advice { col: src_col, row: src_row },
                            CellId::Advice { col: dst_col, row: dst_row },
                        ),
                    )
                },
                Err(e) => {
                    &&& *final(self) == *old(self)
                    &&& if old(self).adv(src_col as int, src_row as int) is None {
                        e == (CircuitError::NotAssigned {
                            cell: CellId::Advice { col: src_col, row: src_row },
                        })
                    } else {
                        e == (CircuitError::AlreadyAssigned {
                            cell: CellId::Advice { col: dst_col, row: dst_row },
                        })
                    }
                },
            },
    {
        let src = self.advice[src_col][src_row];
        match src {
            Option::None => Err(
                CircuitError::NotAssigned { cell: CellId::Advice { col: src_col, row: src_row } },
            ),
            Option::Some(value) => {
                if self.advice[dst_col][dst_row].is_some() {
                    return Err(
                        CircuitError::AlreadyAssigned {
                            cell: CellId::Advice { col: dst_col, row: dst_row },
                        },
                    );
                }
                self.advice[dst_col][dst_row] = Some(value);
                self.copies.push(
                    (
                        CellId::Advice { col: src_col, row: src_row },
                        CellId::Advice { col: dst_col, row: dst_row },
                    ),
                );
                proof {
                    assert(match old(self).adv(src_col as int, src_row as int) {
                        Option::Some(v) => v.wf(),
                        Option::None => true,
                    });
                    lemma_wf_after_cell_write(
                        *old(self),
                        *self,
                        dst_col as int,
                        dst_row as int,
                        value,
                    );
                }
                Ok(AssignedCell { col: dst_col, row: dst_row, value })
            },
        }
    }

    /// Binds an already-assigned advice cell to a row of the instance
    /// column by recording the copy constraint between the two.
    pub fn constrain_instance(&mut self, col: usize, row: usize, instance_row: usize) -> (r: Result<
        (),
        CircuitError,
    >)
        requires
            old(self).wf(),
            (col as int) < old(self).advice@.len(),
            row < old(self).nrows,
            old(self).equality@[col as int],
        ensures
            final(self).wf(),
            old(self).same_shape(*final(self)),
            final(self).selectors@ == old(self).selectors@,
            final(self).advice@ == old(self).advice@,
            r is Ok <==> ((instance_row as int) < old(self).instance@.len() && old(self).adv(
                col as int,
                row as int,
            ) is Some),
            match r {
                Ok(u) => final(self).copies@ == old(self).copies@.push(
                    (CellId::Advice { col, row }, CellId::Instance { row: instance_row }),
                ),
                Err(e) => {
                    &&& *final(self) == *old(self)
                    &&& if (instance_row as int) >= old(self).instance@.len() {
                        e == (CircuitError::UnboundPublicInput { row: instance_row })
                    } else {
                        e == (CircuitError::NotAssigned { cell: CellId::Advice { col, row } })
                    }
                },
            },
    {
        if instance_row >= self.instance.len() {
            return Err(CircuitError::UnboundPublicInput { row: instance_row });
        }
        if self.advice[col][row].is_none() {
            return Err(CircuitError::NotAssigned { cell: CellId::Advice { col, row } });
        }
        self.copies.push((CellId::Advice { col, row }, CellId::Instance { row: instance_row }));
        proof {
            assert forall|c: int, r: int|
                0 <= c < self.advice@.len() && 0 <= r < self.nrows implies match #[trigger] self.adv(
                c,
                r,
            ) {
                Option::Some(v) => v.wf(),
                Option::None => true,
            } by {
                assert(self.adv(c, r) == old(self).adv(c, r));
                assert(match old(self).adv(c, r) {
                    Option::Some(v) => v.wf(),
                    Option::None => true,
                });
            }
            assert forall|i: int|
                0 <= i < self.copies@.len() implies self.cell_in_bounds(
                (#[trigger] self.copies@[i]).0,
            ) && self.cell_in_bounds(self.copies@[i].1) by {
                if i < old(self).copies@.len() {
                    assert(old(self).cell_in_bounds(old(self).copies@[i].0));
                    assert(old(self).cell_in_bounds(old(self).copies@[i].1));
                }
            }
        }
        Ok(())
    }

    /// Reads the value a cell holds, if any.
    pub fn cell(&self, c: CellId) -> (r: Option<Fp>)
        requires
            self.wf(),
            self.cell_in_bounds(c),
        ensures
            r == self.cell_value(c),
    {
        match c {
            CellId::Advice { col, row } => self.advice[col][row],
            CellId::Instance { row } => Some(self.instance[row]),
        }
    }
}

/// Writing one well-formed value into one advice cell preserves the
/// table's well-formedness, provided every recorded copy constraint
/// still refers into the table.
proof fn lemma_wf_after_cell_write(pre: CircuitTable, post: CircuitTable, col: int, row: int, value: Fp)
    requires
        pre.wf(),
        0 <= col < pre.advice@.len(),
        0 <= row < pre.nrows,
        value.wf(),
        post.nrows == pre.nrows,
        post.equality@ == pre.equality@,
        post.instance@ == pre.instance@,
        post.selectors@ == pre.selectors@,
        post.advice@.len() == pre.advice@.len(),
        forall|j: int|
            0 <= j < pre.advice@.len() && j != col ==> #[trigger] post.advice@[j]
                == pre.advice@[j],
        post.advice@[col]@ == pre.advice@[col]@.update(row, Some(value)),
        forall|i: int|
            0 <= i < post.copies@.len() ==> pre.cell_in_bounds((#[trigger] post.copies@[i]).0)
                && pre.cell_in_bounds(post.copies@[i].1),
    ensures
        post.wf(),
{
    assert forall|c: int| 0 <= c < post.advice@.len() implies (#[trigger] post.advice@[c])@.len()
        == post.nrows by {
        if c != col {
            assert(post.advice@[c] == pre.advice@[c]);
        }
    }
    assert forall|s: int| 0 <= s < post.selectors@.len() implies (
    #[trigger] post.selectors@[s])@.len() == post.nrows by {
        assert(pre.selectors@[s]@.len() == pre.nrows);
    }
    assert forall|c: int, r: int|
        0 <= c < post.advice@.len() && 0 <= r < post.nrows implies match #[trigger] post.adv(
        c,
        r,
    ) {
        Option::Some(v) => v.wf(),
        Option::None => true,
    } by {
        if !(c == col && r == row) {
            assert(post.adv(c, r) == pre.adv(c, r));
            assert(match pre.adv(c, r) {
                Option::Some(v) => v.wf(),
                Option::None => true,
            });
        }
    }
    assert forall|r: int| 0 <= r < post.instance@.len() implies (
    #[trigger] post.instance@[r]).wf() by {
        assert(pre.instance@[r].wf());
    }
    assert forall|i: int|
        0 <= i < post.copies@.len() implies post.cell_in_bounds((#[trigger] post.copies@[i]).0)
        && post.cell_in_bounds(post.copies@[i].1) by {
        assert(pre.cell_in_bounds(post.copies@[i].0));
        assert(pre.cell_in_bounds(post.copies@[i].1));
    }
}

/// A column of `nrows` unassigned cells.
fn none_column(nrows: usize) -> (v: Vec<Option<Fp>>)
    ensures
        v@.len() == nrows,
        forall|r: int| 0 <= r < nrows ==> #[trigger] v@[r] is None,
{
    let mut v: Vec<Option<Fp>> = Vec::new();
    let mut r: usize = 0;
    while r < nrows
        invariant
            r <= nrows,
            v@.len() == r,
            forall|i: int| 0 <= i < r ==> #[trigger] v@[i] is None,
        decreases nrows - r,
    {
        v.push(None);
        r = r + 1;
    }
    v
}

/// A column of `nrows` disabled selector cells.
fn false_column(nrows: usize) -> (v: Vec<bool>)
    ensures
        v@.len() == nrows,
        forall|r: int| 0 <= r < nrows ==> !(#[trigger] v@[r]),
{
    let mut v: Vec<bool> = Vec::new();
    let mut r: usize = 0;
    while r < nrows
        invariant
            r <= nrows,
            v@.len() == r,
            forall|i: int| 0 <= i < r ==> !(#[trigger] v@[i]),
        decreases nrows - r,
    {
        v.push(false);
        r = r + 1;
    }
    v
}

/// A copy of a vector of flags.
fn copy_flags(src: &Vec<bool>) -> (v: Vec<bool>)
    ensures
        v@ == src@,
{
    let mut v: Vec<bool> = Vec::new();
    let mut i: usize = 0;
    while i < src.len()
        invariant
            i <= src@.len(),
            v@ == src@.subrange(0, i as int),
        decreases src@.len() - i,
    {
        v.push(src[i]);
        i = i + 1;
    }
    proof {
        assert(v@ =~= src@);
    }
    v
}

/// A copy of a vector of field elements.
fn copy_values(src: &Vec<Fp>) -> (v: Vec<Fp>)
    ensures
        v@ == src@,
{
    let mut v: Vec<Fp> = Vec::new();
    let mut i: usize = 0;
    while i < src.len()
        invariant
            i <= src@.len(),
            v@ == src@.subrange(0, i as int),
        decreases src@.len() - i,
    {
        v.push(src[i]);
        i = i + 1;
    }
    proof {
        assert(v@ =~= src@);
    }
    v
}

} // verus!
