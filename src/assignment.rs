//! The assignment table filled during one synthesis pass: write-once advice
//! and fixed cells laid out region by region, equality constraints between
//! cells, and bindings of cells to public inputs.
use vstd::prelude::*;
use vstd::arithmetic::power2::{pow2, lemma2_to64, lemma_pow2_unfold, lemma_pow2_strictly_increases};
use crate::field::{reduce, from_u64};
use crate::system::{Column, ColumnKind, ConstraintSystem, equality_enabled};

verus! {

/// One slot of the table: absolute coordinates of a column and a row.
#[derive(Clone, Copy, PartialEq, Eq, Structural, Debug)]
pub struct Cell {
    pub column: Column,
    pub row: usize,
}

/// What an advice or fixed cell holds: nothing yet, a value that is unknown in
/// this pass (a pass without a witness), or a known field element.
#[derive(Clone, Copy, PartialEq, Eq, Structural, Debug)]
pub enum Slot {
    Empty,
    Unknown,
    Known(u64),
}

#[derive(Clone, Copy, PartialEq, Eq, Structural, Debug)]
pub enum AssignError {
    /// The column does not exist in the table.
    UnknownColumn,
    /// The column's kind does not fit the operation (an instance or fixed
    /// column written through the advice path, for instance).
    ColumnKindMismatch,
    /// The row lies past the end of the table.
    RowOutOfRange,
    /// The cell has already been written in this pass.
    AlreadyAssigned,
    /// A cell of an equality constraint lies in a column without equality.
    NotEqualityEnabled,
}

/// The table of one synthesis pass over `rows` rows.
#[derive(Debug)]
pub struct Assignment {
    pub rows: usize,
    pub advice: Vec<Vec<Slot>>,
    pub fixed: Vec<Vec<Slot>>,
    /// Pairs of cells that must hold equal values.
    pub copies: Vec<(Cell, Cell)>,
    /// Cells tied to an entry (instance column, row) of the public inputs.
    pub bindings: Vec<(Cell, Column, usize)>,
    /// The first row of the region being assigned.
    pub region_start: usize,
    /// The first row that no region has used yet.
    pub next_row: usize,
}

pub open spec fn empty_grid(g: Seq<Vec<Slot>>, rows: nat) -> bool {
    &&& grid_wf(g, rows)
    &&& forall|i: int, j: int| 0 <= i < g.len() && 0 <= j < rows ==> #[trigger] g[i]@[j] == Slot::Empty
}

pub open spec fn grid_wf(g: Seq<Vec<Slot>>, rows: nat) -> bool {
    forall|i: int| 0 <= i < g.len() ==> (#[trigger] g[i])@.len() == rows
}

/// The value a slot contributes, or none.
pub open spec fn slot_value(s: Slot) -> Option<int> {
    match s {
        Slot::Known(v) => Some(reduce(v as int)),
        _ => None,
    }
}

pub open spec fn slot_of(value: Option<u64>) -> Slot {
    match value {
        Some(v) => Slot::Known(reduce(v as int) as u64),
        None => Slot::Unknown,
    }
}

impl Assignment {
    pub open spec fn wf(&self) -> bool {
        &&& 0 < self.rows
        &&& self.rows <= 0x4000_0000
        &&& grid_wf(self.advice@, self.rows as nat)
        &&& grid_wf(self.fixed@, self.rows as nat)
        &&& self.region_start <= self.next_row <= self.rows
        &&& forall|c: Column, row: int| self.next_row <= row ==> #[trigger] self.slot(c, row) == Slot::Empty
    }

    /// The column's index lies within the table's columns of its kind.
    pub open spec fn in_table(&self, c: Column) -> bool {
        match c.kind {
            ColumnKind::Advice => c.index < self.advice@.len(),
            ColumnKind::Fixed => c.index < self.fixed@.len(),
            ColumnKind::Instance => false,
        }
    }

    /// What an advice or fixed cell holds; `Empty` for any other cell.
    pub open spec fn slot(&self, c: Column, row: int) -> Slot {
        if self.in_table(c) && 0 <= row < self.rows {
            match c.kind {
                ColumnKind::Advice => self.advice@[c.index as int]@[row],
                ColumnKind::Fixed => self.fixed@[c.index as int]@[row],
                ColumnKind::Instance => Slot::Empty,
            }
        } else {
            Slot::Empty
        }
    }

    /// What writing `offset` rows into the current region of `column`, of
    /// `kind`, gives back.
    pub open spec fn assign_result(&self, kind: ColumnKind, column: Column, offset: usize) -> Result<
        Cell,
        AssignError,
    > {
        if column.kind != kind {
            Err(AssignError::ColumnKindMismatch)
        } else if !self.in_table(column) {
            Err(AssignError::UnknownColumn)
        } else if self.region_start + offset >= self.rows {
            Err(AssignError::RowOutOfRange)
        } else if self.slot(column, self.region_start + offset) != Slot::Empty {
            Err(AssignError::AlreadyAssigned)
        } else {
            Ok(Cell { column, row: (self.region_start + offset) as usize })
        }
    }

    /// A fresh table of `2^k` rows for the columns of `cs`, every cell empty.
    pub fn new(cs: &ConstraintSystem, k: u32) -> (r: Assignment)
        requires
            k <= 30,
        ensures
            r.wf(),
            r.rows == pow2(k as nat),
            r.advice@.len() == cs.num_advice,
            r.fixed@.len() == cs.num_fixed,
            empty_grid(r.advice@, r.rows as nat),
            empty_grid(r.fixed@, r.rows as nat),
            r.copies@.len() == 0,
            r.bindings@.len() == 0,
            r.region_start == 0,
            r.next_row == 0,
    {
        let mut rows: usize = 1;
        let mut i: u32 = 0;
        proof {
            lemma2_to64();
        }
        while i < k
            invariant
                i <= k <= 30,
                rows == pow2(i as nat),
                pow2(30) == 0x4000_0000,
            decreases k - i,
        {
            proof {
                lemma_pow2_unfold((i + 1) as nat);
                if i + 1 < 30 {
                    lemma_pow2_strictly_increases((i + 1) as nat, 30);
                }
            }
            rows = rows * 2;
            i = i + 1;
        }
        proof {
            if k < 30 {
                lemma_pow2_strictly_increases(k as nat, 30);
            }
        }
        let advice = empty_grid_of(cs.num_advice, rows);
        let fixed = empty_grid_of(cs.num_fixed, rows);
        Assignment {
            rows,
            advice,
            fixed,
            copies: Vec::new(),
            bindings: Vec::new(),
            region_start: 0,
            next_row: 0,
        }
    }

    /// Opens a region at the first row that no earlier region used.
    pub fn begin_region(&mut self)
        requires
            old(self).wf(),
        ensures
            final(self).wf(),
            final(self).region_start == old(self).next_row,
            final(self).next_row == old(self).next_row,
            final(self).rows == old(self).rows,
            final(self).advice == old(self).advice,
            final(self).fixed == old(self).fixed,
            final(self).copies == old(self).copies,
            final(self).bindings == old(self).bindings,
    {
        let ghost prev = *self;
        self.region_start = self.next_row;
        assert forall|c: Column, row: int| #[trigger] self.slot(c, row) == prev.slot(c, row) by {}
    }

    fn assign(&mut self, kind: ColumnKind, column: Column, offset: usize, value: Option<u64>) -> (r:
        Result<Cell, AssignError>)
        requires
            old(self).wf(),
            kind != ColumnKind::Instance,
        ensures
            final(self).wf(),
            r == old(self).assign_result(kind, column, offset),
            r is Err ==> *final(self) == *old(self),
            r is Ok ==> {
                let cell = r->Ok_0;
                &&& forall|c: Column, row: int|
                    #[trigger] final(self).slot(c, row) == if c == cell.column && row == cell.row {
                        slot_of(value)
                    } else {
                        old(self).slot(c, row)
                    }
                &&& final(self).advice@.len() == old(self).advice@.len()
                &&& final(self).fixed@.len() == old(self).fixed@.len()
                &&& final(self).rows == old(self).rows
                &&& final(self).copies == old(self).copies
                &&& final(self).bindings == old(self).bindings
                &&& final(self).region_start == old(self).region_start
                &&& final(self).next_row == if cell.row + 1 > old(self).next_row {
                    cell.row + 1
                } else {
                    old(self).next_row as int
                }
            },
    {
        if column.kind != kind {
            return Err(AssignError::ColumnKindMismatch);
        }
        let width = match kind {
            ColumnKind::Advice => self.advice.len(),
            _ => self.fixed.len(),
        };
        if column.index >= width {
            return Err(AssignError::UnknownColumn);
        }
        if offset >= self.rows - self.region_start {
            return Err(AssignError::RowOutOfRange);
        }
        let row = self.region_start + offset;
        let current = match kind {
            ColumnKind::Advice => self.advice[column.index][row],
            _ => self.fixed[column.index][row],
        };
        if current != Slot::Empty {
            return Err(AssignError::AlreadyAssigned);
        }
        let s = match value {
            Some(v) => Slot::Known(from_u64(v)),
            None => Slot::Unknown,
        };
        let ghost prev = *self;
        match kind {
            ColumnKind::Advice => {
                let mut col = self.advice[column.index].clone();
                col.set(row, s);
                self.advice.set(column.index, col);
            },
            _ => {
                let mut col = self.fixed[column.index].clone();
                col.set(row, s);
                self.fixed.set(column.index, col);
            },
        }
        if row + 1 > self.next_row {
            self.next_row = row + 1;
        }
        let cell = Cell { column, row };
        assert forall|c: Column, rr: int|
            #[trigger] self.slot(c, rr) == if c == cell.column && rr == cell.row {
                slot_of(value)
            } else {
                prev.slot(c, rr)
            } by {}
        Ok(cell)
    }

    /// Writes `value` (or an unknown value) to the advice cell `offset` rows
    /// into the current region. A cell is written at most once per pass.
    pub fn assign_advice(&mut self, column: Column, offset: usize, value: Option<u64>) -> (r: Result<
        Cell,
        AssignError,
    >)
        requires
            old(self).wf(),
        ensures
            final(self).wf(),
            r == old(self).assign_result(ColumnKind::Advice, column, offset),
            r is Err ==> *final(self) == *old(self),
            r is Ok ==> {
                let cell = r->Ok_0;
                &&& forall|c: Column, row: int|
                    #[trigger] final(self).slot(c, row) == if c == cell.column && row == cell.row {
                        slot_of(value)
                    } else {
                        old(self).slot(c, row)
                    }
                &&& final(self).advice@.len() == old(self).advice@.len()
                &&& final(self).fixed@.len() == old(self).fixed@.len()
                &&& final(self).rows == old(self).rows
                &&& final(self).copies == old(self).copies
                &&& final(self).bindings == old(self).bindings
                &&& final(self).region_start == old(self).region_start
                &&& final(self).next_row == if cell.row + 1 > old(self).next_row {
                    cell.row + 1
                } else {
                    old(self).next_row as int
                }
            },
    {
        self.assign(ColumnKind::Advice, column, offset, value)
    }

    /// Writes `value` to the fixed cell `offset` rows into the current region.
    /// A cell is written at most once per pass.
    pub fn assign_fixed(&mut self, column: Column, offset: usize, value: u64) -> (r: Result<
        Cell,
        AssignError,
    >)
        requires
            old(self).wf(),
        ensures
            final(self).wf(),
            r == old(self).assign_result(ColumnKind::Fixed, column, offset),
            r is Err ==> *final(self) == *old(self),
            r is Ok ==> {
                let cell = r->Ok_0;
                &&& forall|c: Column, row: int|
                    #[trigger] final(self).slot(c, row) == if c == cell.column && row == cell.row {
                        slot_of(Some(value))
                    } else {
                        old(self).slot(c, row)
                    }
                &&& final(self).advice@.len() == old(self).advice@.len()
                &&& final(self).fixed@.len() == old(self).fixed@.len()
                &&& final(self).rows == old(self).rows
                &&& final(self).copies == old(self).copies
                &&& final(self).bindings == old(self).bindings
                &&& final(self).region_start == old(self).region_start
                &&& final(self).next_row == if cell.row + 1 > old(self).next_row {
                    cell.row + 1
                } else {
                    old(self).next_row as int
                }
            },
    {
        self.assign(ColumnKind::Fixed, column, offset, Some(value))
    }

    /// Requires the cells `a` and `b` to hold equal values.
    pub fn constrain_equal(&mut self, cs: &ConstraintSystem, a: Cell, b: Cell) -> (r: Result<
        (),
        AssignError,
    >)
        requires
            old(self).wf(),
        ensures
            final(self).wf(),
            r is Ok <==> equality_enabled(cs, a.column) && equality_enabled(cs, b.column),
            r is Err ==> r == Err::<(), AssignError>(AssignError::NotEqualityEnabled),
            r is Err ==> *final(self) == *old(self),
            r is Ok ==> final(self).copies@ == old(self).copies@.push((a, b)),
            final(self).rows == old(self).rows,
            final(self).advice == old(self).advice,
            final(self).fixed == old(self).fixed,
            final(self).bindings == old(self).bindings,
            final(self).region_start == old(self).region_start,
            final(self).next_row == old(self).next_row,
    {
        if !is_equality_enabled(cs, a.column) || !is_equality_enabled(cs, b.column) {
            return Err(AssignError::NotEqualityEnabled);
        }
        let ghost prev = *self;
        self.copies.push((a, b));
        assert forall|c: Column, row: int| #[trigger] self.slot(c, row) == prev.slot(c, row) by {}
        Ok(())
    }

    /// Ties `cell` to the public input at `row` of the instance column `instance`.
    pub fn constrain_instance(
        &mut self,
        cs: &ConstraintSystem,
        cell: Cell,
        instance: Column,
        row: usize,
    ) -> (r: Result<(), AssignError>)
        requires
            old(self).wf(),
        ensures
            final(self).wf(),
            r == (if instance.kind != ColumnKind::Instance {
                Err(AssignError::ColumnKindMismatch)
            } else if instance.index >= cs.num_instance {
                Err(AssignError::UnknownColumn)
            } else {
                Ok::<(), AssignError>(())
            }),
            r is Err ==> *final(self) == *old(self),
            r is Ok ==> final(self).bindings@ == old(self).bindings@.push((cell, instance, row)),
            final(self).rows == old(self).rows,
            final(self).advice == old(self).advice,
            final(self).fixed == old(self).fixed,
            final(self).copies == old(self).copies,
            final(self).region_start == old(self).region_start,
            final(self).next_row == old(self).next_row,
    {
        if instance.kind != ColumnKind::Instance {
            return Err(AssignError::ColumnKindMismatch);
        }
        if instance.index >= cs.num_instance {
            return Err(AssignError::UnknownColumn);
        }
        let ghost prev = *self;
        self.bindings.push((cell, instance, row));
        assert forall|c: Column, row: int| #[trigger] self.slot(c, row) == prev.slot(c, row) by {}
        Ok(())
    }
}

/// Whether `c` takes part in equality constraints of `cs`.
pub fn is_equality_enabled(cs: &ConstraintSystem, c: Column) -> (r: bool)
    ensures
        r == equality_enabled(cs, c),
{
    let mut i: usize = 0;
    while i < cs.equality.len()
        invariant
            i <= cs.equality@.len(),
            forall|j: int| 0 <= j < i ==> cs.equality@[j] != c,
        decreases cs.equality@.len() - i,
    {
        if cs.equality[i] == c {
            return true;
        }
        i = i + 1;
    }
    false
}

fn empty_grid_of(cols: usize, rows: usize) -> (r: Vec<Vec<Slot>>)
    ensures
        r@.len() == cols,
        empty_grid(r@, rows as nat),
        grid_wf(r@, rows as nat),
{
    let mut g: Vec<Vec<Slot>> = Vec::new();
    let mut i: usize = 0;
    while i < cols
        invariant
            i <= cols,
            g@.len() == i,
            empty_grid(g@, rows as nat),
        decreases cols - i,
    {
        let mut col: Vec<Slot> = Vec::new();
        let mut j: usize = 0;
        while j < rows
            invariant
                j <= rows,
                col@.len() == j,
                forall|t: int| 0 <= t < j ==> col@[t] == Slot::Empty,
            decreases rows - j,
        {
            col.push(Slot::Empty);
            j = j + 1;
        }
        g.push(col);
        i = i + 1;
    }
    g
}

} // verus!
