use crate::circuit::{Cell, Column, ColumnKind, ConstraintSystem, Error};
use crate::field::FieldValue;
use vstd::prelude::*;

verus! {

/// A requirement that `cell` hold the public input at `row` of instance
/// column `instance`.
#[derive(Clone, Copy, Debug, PartialEq, Eq, Structural)]
pub struct Binding {
    pub cell: Cell,
    pub instance: usize,
    pub row: usize,
}

/// A group of rows placed on the grid from `start`; `rows` is how many of
/// them have been used so far.
#[derive(Clone, Copy, Debug, PartialEq, Eq, Structural)]
pub struct Region {
    pub start: usize,
    pub rows: usize,
}

/// `2^k`.
pub open spec fn grid_rows(k: nat) -> nat
    decreases k,
{
    if k == 0 {
        1
    } else {
        2 * grid_rows((k - 1) as nat)
    }
}

/// The value of the first entry for `c`.
pub open spec fn lookup(s: Seq<(Cell, FieldValue)>, c: Cell) -> Option<FieldValue>
    decreases s.len(),
{
    if s.len() == 0 {
        None
    } else if s[0].0 == c {
        Some(s[0].1)
    } else {
        lookup(s.drop_first(), c)
    }
}

pub proof fn lemma_lookup_push(s: Seq<(Cell, FieldValue)>, c: Cell, v: FieldValue, d: Cell)
    requires
        lookup(s, c) is None,
    ensures
        lookup(s.push((c, v)), d) == (if d == c {
            Some(v)
        } else {
            lookup(s, d)
        }),
    decreases s.len(),
{
    if s.len() > 0 {
        assert(s.push((c, v)).drop_first() =~= s.drop_first().push((c, v)));
        lemma_lookup_push(s.drop_first(), c, v, d);
    } else {
        assert(s.push((c, v)).drop_first() =~= s);
    }
}

pub proof fn lemma_lookup_wf(s: Seq<(Cell, FieldValue)>, c: Cell)
    requires
        forall|i: int| 0 <= i < s.len() ==> (#[trigger] s[i]).1.wf(),
    ensures
        lookup(s, c) matches Some(v) ==> v.wf(),
    decreases s.len(),
{
    if s.len() > 0 {
        assert forall|i: int| 0 <= i < s.drop_first().len() implies (
        #[trigger] s.drop_first()[i]).1.wf() by {
            assert(s.drop_first()[i] == s[i + 1]);
        }
        lemma_lookup_wf(s.drop_first(), c);
    }
}

/// The cells list after storing `value` at `cell`: an absent value stores
/// nothing.
pub open spec fn stored(
    cells: Seq<(Cell, FieldValue)>,
    cell: Cell,
    value: Option<FieldValue>,
) -> Seq<(Cell, FieldValue)> {
    match value {
        Some(v) => cells.push((cell, v)),
        None => cells,
    }
}

/// Storing into a cell that holds nothing changes the value of that cell
/// alone.
pub proof fn lemma_stored_lookup(s: Seq<(Cell, FieldValue)>, c: Cell, v: Option<FieldValue>)
    requires
        lookup(s, c) is None,
    ensures
        forall|d: Cell| #[trigger] lookup(stored(s, c, v), d) == (if d == c {
            v
        } else {
            lookup(s, d)
        }),
{
    assert forall|d: Cell| #[trigger] lookup(stored(s, c, v), d) == (if d == c {
        v
    } else {
        lookup(s, d)
    }) by {
        if let Some(x) = v {
            lemma_lookup_push(s, c, x, d);
        }
    }
}

/// The region after using its local row `row`.
pub open spec fn region_used(region: Region, row: usize) -> Region {
    Region { start: region.start, rows: if row + 1 > region.rows { (row + 1) as usize } else { region.rows } }
}

/// The grid filled during one synthesis: cell values, enabled selectors,
/// equality constraints and instance bindings.
#[derive(Debug)]
pub struct Assignment {
    pub num_rows: usize,
    /// The first row not yet taken by a closed region.
    pub next_row: usize,
    pub cells: Vec<(Cell, FieldValue)>,
    /// Pairs of selector index and absolute row.
    pub enabled: Vec<(usize, usize)>,
    pub copies: Vec<(Cell, Cell)>,
    pub bindings: Vec<Binding>,
    /// The public inputs, one vector per instance column.
    pub instance: Vec<Vec<FieldValue>>,
}

/// Every public input is a canonical field element.
pub open spec fn inputs_wf(pi: Seq<Vec<FieldValue>>) -> bool {
    forall|i: int, j: int| 0 <= i < pi.len() && 0 <= j < pi[i]@.len() ==> (#[trigger] pi[i]@[j]).wf()
}

/// The public input at `row` of instance column `col`, if there is one.
pub open spec fn input_at(pi: Seq<Vec<FieldValue>>, col: usize, row: usize) -> Option<FieldValue> {
    if col < pi.len() && row < pi[col as int]@.len() {
        Some(pi[col as int]@[row as int])
    } else {
        None
    }
}

impl Assignment {
    pub open spec fn wf(&self) -> bool {
        &&& forall|i: int| 0 <= i < self.cells@.len() ==> (#[trigger] self.cells@[i]).1.wf()
        &&& inputs_wf(self.instance@)
    }

    /// The value stored at an advice or fixed cell.
    pub open spec fn value(&self, c: Cell) -> Option<FieldValue> {
        lookup(self.cells@, c)
    }

    pub open spec fn is_enabled(&self, selector: usize, row: int) -> bool {
        0 <= row <= usize::MAX && exists|i: int|
            0 <= i < self.enabled@.len() && self.enabled@[i] == (selector, row as usize)
    }

    /// Whether local row `row` of `region` lies on the grid.
    pub open spec fn fits(&self, region: Region, row: usize) -> bool {
        region.start < self.num_rows && row < self.num_rows - region.start
    }

    /// What storing into `column` at local row `row` gives: the cell, or
    /// the first check that fails.
    pub open spec fn assign_result(
        &self,
        cs: &ConstraintSystem,
        region: Region,
        column: Column,
        kind: ColumnKind,
        row: usize,
    ) -> Result<Cell, Error> {
        let cell = Cell { column, row: (region.start + row) as usize };
        if !cs.allocated(column) {
            Err(Error::ColumnNotAllocated(column))
        } else if column.kind != kind {
            Err(Error::WrongColumnKind(column))
        } else if !self.fits(region, row) {
            Err(Error::RowOutOfBounds(row))
        } else if self.value(cell) is Some {
            Err(Error::DuplicateAssignment(cell))
        } else {
            Ok(cell)
        }
    }

    /// An empty grid of `2^k` rows, with the public inputs that synthesis
    /// copies from.
    pub fn new(k: u32, instance: Vec<Vec<FieldValue>>) -> (r: Assignment)
        requires
            grid_rows(k as nat) <= usize::MAX,
            inputs_wf(instance@),
        ensures
            r.num_rows == grid_rows(k as nat),
            r.next_row == 0,
            r.cells@ == Seq::<(Cell, FieldValue)>::empty(),
            r.enabled@ == Seq::<(usize, usize)>::empty(),
            r.copies@ == Seq::<(Cell, Cell)>::empty(),
            r.bindings@ == Seq::<Binding>::empty(),
            r.instance@ == instance@,
            r.wf(),
    {
        let mut n: usize = 1;
        let mut i: u32 = 0;
        while i < k
            invariant
                i <= k,
                n == grid_rows(i as nat),
                grid_rows(k as nat) <= usize::MAX,
            decreases k - i,
        {
            proof {
                lemma_grid_rows_monotone((i + 1) as nat, k as nat);
            }
            n = n * 2;
            i = i + 1;
        }
        Assignment {
            num_rows: n,
            next_row: 0,
            cells: Vec::new(),
            enabled: Vec::new(),
            copies: Vec::new(),
            bindings: Vec::new(),
            instance,
        }
    }

    /// Opens a region at the first free row.
    pub fn open_region(&self) -> (r: Region)
        ensures
            r == (Region { start: self.next_row, rows: 0 }),
    {
        Region { start: self.next_row, rows: 0 }
    }

    /// Closes a region: later regions start after the rows it used.
    pub fn close_region(&mut self, region: Region)
        ensures
            *final(self) == (Assignment {
                next_row: if region.start <= old(self).num_rows && region.rows <= old(self).num_rows
                    - region.start {
                    (region.start + region.rows) as usize
                } else {
                    old(self).num_rows
                },
                ..*old(self)
            }),
    {
        if region.start <= self.num_rows && region.rows <= self.num_rows - region.start {
            self.next_row = region.start + region.rows;
        } else {
            self.next_row = self.num_rows;
        }
    }

    /// The value stored at an advice or fixed cell.
    pub fn value_of(&self, c: Cell) -> (r: Option<FieldValue>)
        ensures
            r == self.value(c),
    {
        let mut i: usize = 0;
        assert(self.cells@.skip(0) =~= self.cells@);
        while i < self.cells.len()
            invariant
                i <= self.cells@.len(),
                lookup(self.cells@, c) == lookup(self.cells@.skip(i as int), c),
            decreases self.cells@.len() - i,
        {
            assert(self.cells@.skip(i as int).drop_first() =~= self.cells@.skip(i + 1));
            if self.cells[i].0 == c {
                return Some(self.cells[i].1);
            }
            i = i + 1;
        }
        None
    }

    fn assign_cell(
        &mut self,
        cs: &ConstraintSystem,
        region: &mut Region,
        column: Column,
        kind: ColumnKind,
        row: usize,
        value: Option<FieldValue>,
    ) -> (r: Result<Cell, Error>)
        requires
            old(self).wf(),
            value matches Some(v) ==> v.wf(),
        ensures
            r == old(self).assign_result(cs, *old(region), column, kind, row),
            r is Err ==> *final(self) == *old(self) && *final(region) == *old(region),
            r matches Ok(cell) ==> *final(self) == (Assignment {
                cells: final(self).cells,
                ..*old(self)
            }) && final(self).cells@ == stored(old(self).cells@, cell, value) && *final(region)
                == region_used(*old(region), row),
            final(self).wf(),
    {
        if !cs.column_allocated(column) {
            return Err(Error::ColumnNotAllocated(column));
        }
        if column.kind != kind {
            return Err(Error::WrongColumnKind(column));
        }
        if !(region.start < self.num_rows && row < self.num_rows - region.start) {
            return Err(Error::RowOutOfBounds(row));
        }
        let cell = Cell { column, row: region.start + row };
        if self.value_of(cell).is_some() {
            return Err(Error::DuplicateAssignment(cell));
        }
        match value {
            Some(v) => {
                self.cells.push((cell, v));
            },
            None => {},
        }
        if row + 1 > region.rows {
            region.rows = row + 1;
        }
        Ok(cell)
    }

    /// Stores `value` (or nothing, where it is absent) in advice column
    /// `column` at local row `row` of `region`.
    pub fn assign_advice(
        &mut self,
        cs: &ConstraintSystem,
        region: &mut Region,
        column: Column,
        row: usize,
        value: Option<FieldValue>,
    ) -> (r: Result<Cell, Error>)
        requires
            old(self).wf(),
            value matches Some(v) ==> v.wf(),
        ensures
            r == old(self).assign_result(cs, *old(region), column, ColumnKind::Advice, row),
            r is Err ==> *final(self) == *old(self) && *final(region) == *old(region),
            r matches Ok(cell) ==> *final(self) == (Assignment {
                cells: final(self).cells,
                ..*old(self)
            }) && final(self).cells@ == stored(old(self).cells@, cell, value) && *final(region)
                == region_used(*old(region), row),
            final(self).wf(),
    {
        self.assign_cell(cs, region, column, ColumnKind::Advice, row, value)
    }

    /// Stores `value` in fixed column `column` at local row `row` of `region`.
    pub fn assign_fixed(
        &mut self,
        cs: &ConstraintSystem,
        region: &mut Region,
        column: Column,
        row: usize,
        value: FieldValue,
    ) -> (r: Result<Cell, Error>)
        requires
            old(self).wf(),
            value.wf(),
        ensures
            r == old(self).assign_result(cs, *old(region), column, ColumnKind::Fixed, row),
            r is Err ==> *final(self) == *old(self) && *final(region) == *old(region),
            r matches Ok(cell) ==> *final(self) == (Assignment {
                cells: final(self).cells,
                ..*old(self)
            }) && final(self).cells@ == old(self).cells@.push((cell, value)) && *final(region)
                == region_used(*old(region), row),
            final(self).wf(),
    {
        self.assign_cell(cs, region, column, ColumnKind::Fixed, row, Some(value))
    }

    /// Turns `selector` on at local row `row` of `region`.
    pub fn enable_selector(
        &mut self,
        cs: &ConstraintSystem,
        region: &mut Region,
        selector: Column,
        row: usize,
    ) -> (r: Result<(), Error>)
        ensures
            !cs.allocated(selector) ==> r == Err::<(), Error>(Error::ColumnNotAllocated(selector)),
            cs.allocated(selector) && selector.kind != ColumnKind::Selector ==> r == Err::<(), Error>(
                Error::WrongColumnKind(selector),
            ),
            cs.allocated(selector) && selector.kind == ColumnKind::Selector && !old(self).fits(
                *old(region),
                row,
            ) ==> r == Err::<(), Error>(Error::RowOutOfBounds(row)),
            cs.allocated(selector) && selector.kind == ColumnKind::Selector && old(self).fits(
                *old(region),
                row,
            ) ==> r is Ok,
            r is Err ==> *final(self) == *old(self) && *final(region) == *old(region),
            r is Ok ==> *final(self) == (Assignment {
                enabled: final(self).enabled,
                ..*old(self)
            }) && final(self).enabled@ == old(self).enabled@.push(
                (selector.index, (old(region).start + row) as usize),
            ) && *final(region) == region_used(*old(region), row),
    {
        if !cs.column_allocated(selector) {
            return Err(Error::ColumnNotAllocated(selector));
        }
        if selector.kind != ColumnKind::Selector {
            return Err(Error::WrongColumnKind(selector));
        }
        if !(region.start < self.num_rows && row < self.num_rows - region.start) {
            return Err(Error::RowOutOfBounds(row));
        }
        self.enabled.push((selector.index, region.start + row));
        if row + 1 > region.rows {
            region.rows = row + 1;
        }
        Ok(())
    }

    /// The public input at `row` of instance column `col`, if there is one.
    pub fn input(&self, col: usize, row: usize) -> (r: Option<FieldValue>)
        ensures
            r == input_at(self.instance@, col, row),
    {
        if col < self.instance.len() && row < self.instance[col].len() {
            Some(self.instance[col][row])
        } else {
            None
        }
    }

    /// Copies the public input at `instance_row` of `instance` into advice
    /// column `advice` at local row `row` of `region`, and binds the two.
    /// Where there is no such public input the advice cell stays absent.
    pub fn assign_advice_from_instance(
        &mut self,
        cs: &ConstraintSystem,
        region: &mut Region,
        instance: Column,
        instance_row: usize,
        advice: Column,
        row: usize,
    ) -> (r: Result<Cell, Error>)
        requires
            old(self).wf(),
        ensures
            r == (if !cs.allocated(instance) {
                Err(Error::ColumnNotAllocated(instance))
            } else if instance.kind != ColumnKind::Instance {
                Err(Error::WrongColumnKind(instance))
            } else if !cs.equality_enabled(instance) {
                Err(Error::EqualityNotEnabled(instance))
            } else if !cs.equality_enabled(advice) {
                Err(Error::EqualityNotEnabled(advice))
            } else {
                old(self).assign_result(cs, *old(region), advice, ColumnKind::Advice, row)
            }),
            r is Err ==> *final(self) == *old(self) && *final(region) == *old(region),
            r matches Ok(cell) ==> *final(self) == (Assignment {
                cells: final(self).cells,
                bindings: final(self).bindings,
                ..*old(self)
            }) && final(self).cells@ == stored(
                old(self).cells@,
                cell,
                input_at(old(self).instance@, instance.index, instance_row),
            ) && final(self).bindings@ == old(self).bindings@.push(
                Binding { cell, instance: instance.index, row: instance_row },
            ) && *final(region) == region_used(*old(region), row) && final(self).value(cell)
                == input_at(old(self).instance@, instance.index, instance_row),
            final(self).wf(),
    {
        if !cs.column_allocated(instance) {
            return Err(Error::ColumnNotAllocated(instance));
        }
        if instance.kind != ColumnKind::Instance {
            return Err(Error::WrongColumnKind(instance));
        }
        if !cs.is_equality_enabled(instance) {
            return Err(Error::EqualityNotEnabled(instance));
        }
        if !cs.is_equality_enabled(advice) {
            return Err(Error::EqualityNotEnabled(advice));
        }
        let v = self.input(instance.index, instance_row);
        let ghost before = self.cells@;
        let cell = self.assign_cell(cs, region, advice, ColumnKind::Advice, row, v)?;
        proof {
            lemma_stored_lookup(before, cell, v);
        }
        self.bindings.push(Binding { cell, instance: instance.index, row: instance_row });
        Ok(cell)
    }

    /// Binds an assigned cell to the public input at `row` of `instance`.
    pub fn constrain_instance(
        &mut self,
        cs: &ConstraintSystem,
        cell: Cell,
        instance: Column,
        row: usize,
    ) -> (r: Result<(), Error>)
        ensures
            r == (if !cs.allocated(instance) {
                Err(Error::ColumnNotAllocated(instance))
            } else if instance.kind != ColumnKind::Instance {
                Err(Error::WrongColumnKind(instance))
            } else if !cs.equality_enabled(instance) {
                Err(Error::EqualityNotEnabled(instance))
            } else if !cs.equality_enabled(cell.column) {
                Err(Error::EqualityNotEnabled(cell.column))
            } else {
                Ok(())
            }),
            r is Err ==> *final(self) == *old(self),
            r is Ok ==> *final(self) == (Assignment {
                bindings: final(self).bindings,
                ..*old(self)
            }) && final(self).bindings@ == old(self).bindings@.push(
                Binding { cell, instance: instance.index, row },
            ),
    {
        if !cs.column_allocated(instance) {
            return Err(Error::ColumnNotAllocated(instance));
        }
        if instance.kind != ColumnKind::Instance {
            return Err(Error::WrongColumnKind(instance));
        }
        if !cs.is_equality_enabled(instance) {
            return Err(Error::EqualityNotEnabled(instance));
        }
        if !cs.is_equality_enabled(cell.column) {
            return Err(Error::EqualityNotEnabled(cell.column));
        }
        self.bindings.push(Binding { cell, instance: instance.index, row });
        Ok(())
    }

    /// Requires two cells to hold the same value.
    pub fn constrain_equal(&mut self, cs: &ConstraintSystem, a: Cell, b: Cell) -> (r: Result<(), Error>)
        ensures
            r == (if !cs.equality_enabled(a.column) {
                Err(Error::EqualityNotEnabled(a.column))
            } else if !cs.equality_enabled(b.column) {
                Err(Error::EqualityNotEnabled(b.column))
            } else {
                Ok(())
            }),
            r is Err ==> *final(self) == *old(self),
            r is Ok ==> *final(self) == (Assignment { copies: final(self).copies, ..*old(self) })
                && final(self).copies@ == old(self).copies@.push((a, b)),
    {
        if !cs.is_equality_enabled(a.column) {
            return Err(Error::EqualityNotEnabled(a.column));
        }
        if !cs.is_equality_enabled(b.column) {
            return Err(Error::EqualityNotEnabled(b.column));
        }
        self.copies.push((a, b));
        Ok(())
    }
}

pub proof fn lemma_grid_rows_monotone(i: nat, k: nat)
    requires
        i <= k,
    ensures
        grid_rows(i) <= grid_rows(k),
    decreases k - i,
{
    if i < k {
        lemma_grid_rows_monotone(i, (k - 1) as nat);
    }
}

} // verus!
