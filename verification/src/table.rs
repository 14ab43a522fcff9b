//! The grid of assigned cells, and the regions that fill it.

use crate::field::{add_mod, mul_mod, neg_mod, Fe};
use vstd::prelude::*;

verus! {

/// A witness that may not be known yet.
#[derive(Clone, Copy, Debug, PartialEq, Eq)]
pub enum Value {
    Unknown,
    Known(Fe),
}

impl Value {
    /// The scalar is canonical, where there is one.
    pub open spec fn wf(&self) -> bool {
        match *self {
            Value::Unknown => true,
            Value::Known(v) => v.wf(),
        }
    }

    /// A known value.
    pub fn known(v: Fe) -> (r: Value)
        ensures
            r == Value::Known(v),
    {
        Value::Known(v)
    }

    /// The value that is not known.
    pub fn unknown() -> (r: Value)
        ensures
            r == Value::Unknown,
    {
        Value::Unknown
    }

    /// The sum of two values: known where both are.
    pub fn add(&self, other: &Value) -> (r: Value)
        requires
            self.wf(),
            other.wf(),
        ensures
            r.wf(),
            match (*self, *other) {
                (Value::Known(a), Value::Known(b)) => r matches Value::Known(c) && c@ == add_mod(a@, b@),
                _ => r == Value::Unknown,
            },
    {
        match (self, other) {
            (Value::Known(a), Value::Known(b)) => Value::Known(a.add(b)),
            _ => Value::Unknown,
        }
    }

    /// The negation of a value: known where the value is.
    pub fn neg(&self) -> (r: Value)
        requires
            self.wf(),
        ensures
            r.wf(),
            match *self {
                Value::Known(a) => r matches Value::Known(c) && c@ == neg_mod(a@),
                Value::Unknown => r == Value::Unknown,
            },
    {
        match self {
            Value::Known(a) => Value::Known(a.neg()),
            Value::Unknown => Value::Unknown,
        }
    }

    /// The product of two values: known where both are.
    pub fn mul(&self, other: &Value) -> (r: Value)
        requires
            self.wf(),
            other.wf(),
        ensures
            r.wf(),
            match (*self, *other) {
                (Value::Known(a), Value::Known(b)) => r matches Value::Known(c) && c@ == mul_mod(a@, b@),
                _ => r == Value::Unknown,
            },
    {
        match (self, other) {
            (Value::Known(a), Value::Known(b)) => Value::Known(a.mul(b)),
            _ => Value::Unknown,
        }
    }
}

/// Why a region could not write a cell.
#[derive(Clone, Copy, Debug, PartialEq, Eq)]
pub enum AssignError {
    /// The offset lies beyond the last row of the table.
    NotEnoughRows,
}

/// The concrete grid: a value for each advice cell, a bit for each selector
/// and row, and for each the region that wrote it.
#[derive(Debug)]
pub struct AssignmentTable {
    pub num_rows: usize,
    /// `advice[column][row]`
    pub advice: Vec<Vec<Value>>,
    /// `selectors[selector][row]`
    pub selectors: Vec<Vec<bool>>,
    /// For each advice cell, the index of the region that last wrote it.
    pub advice_origin: Vec<Vec<Option<usize>>>,
    /// For each selector and row, the index of the region that enabled it.
    pub selector_origin: Vec<Vec<Option<usize>>>,
    /// The names of the regions, in the order in which they were opened.
    pub regions: Vec<String>,
}

/// A named scope of assignments into one table.
#[derive(Debug)]
pub struct Region {
    pub index: usize,
}

/// A grid of `rows` copies of `fill` in each of `columns` columns.
fn grid<T: Copy>(columns: usize, rows: usize, fill: T) -> (g: Vec<Vec<T>>)
    ensures
        g@.len() == columns,
        forall|c: int| 0 <= c < columns ==> #[trigger] g@[c]@ == Seq::new(rows as nat, |r: int| fill),
{
    let mut g: Vec<Vec<T>> = Vec::new();
    let mut c: usize = 0;
    while c < columns
        invariant
            c <= columns,
            g@.len() == c,
            forall|j: int| 0 <= j < c ==> #[trigger] g@[j]@ == Seq::new(rows as nat, |r: int| fill),
        decreases columns - c,
    {
        let mut column: Vec<T> = Vec::new();
        let mut r: usize = 0;
        while r < rows
            invariant
                r <= rows,
                column@ == Seq::new(r as nat, |i: int| fill),
            decreases rows - r,
        {
            column.push(fill);
            r += 1;
            assert(column@ =~= Seq::new(r as nat, |i: int| fill));
        }
        g.push(column);
        c += 1;
    }
    g
}

/// Writes `v` at `grid[c][r]` and leaves every other cell as it was.
fn put<T: Copy>(grid: &mut Vec<Vec<T>>, c: usize, r: usize, v: T)
    requires
        c < old(grid)@.len(),
        r < old(grid)@[c as int]@.len(),
    ensures
        final(grid)@.len() == old(grid)@.len(),
        final(grid)@[c as int]@ == old(grid)@[c as int]@.update(r as int, v),
        forall|j: int| 0 <= j < old(grid)@.len() && j != c ==> final(grid)@[j] == old(grid)@[j],
{
    grid[c][r] = v;
}

impl AssignmentTable {
    /// Every column has `num_rows` cells, each side table has the shape of
    /// the grid it annotates, origins name opened regions, and the known
    /// values are canonical.
    pub open spec fn wf(&self) -> bool {
        &&& self.advice_origin@.len() == self.advice@.len()
        &&& self.selector_origin@.len() == self.selectors@.len()
        &&& forall|c: int|
            0 <= c < self.advice@.len() ==> {
                &&& (#[trigger] self.advice@[c])@.len() == self.num_rows
                &&& self.advice_origin@[c]@.len() == self.num_rows
            }
        &&& forall|s: int|
            0 <= s < self.selectors@.len() ==> {
                &&& (#[trigger] self.selectors@[s])@.len() == self.num_rows
                &&& self.selector_origin@[s]@.len() == self.num_rows
            }
        &&& forall|c: int, r: int|
            0 <= c < self.advice@.len() && 0 <= r < self.num_rows ==> (
            #[trigger] self.advice@[c]@[r]).wf()
        &&& forall|c: int, r: int|
            0 <= c < self.advice@.len() && 0 <= r < self.num_rows ==> self.origin_ok(
                #[trigger] self.advice_origin@[c]@[r],
            )
        &&& forall|s: int, r: int|
            0 <= s < self.selectors@.len() && 0 <= r < self.num_rows ==> self.origin_ok(
                #[trigger] self.selector_origin@[s]@[r],
            )
    }

    /// An origin, where there is one, is the index of an opened region.
    pub open spec fn origin_ok(&self, origin: Option<usize>) -> bool {
        match origin {
            Some(i) => i < self.regions@.len(),
            None => true,
        }
    }

    /// The number of advice columns.
    pub open spec fn num_columns(&self) -> nat {
        self.advice@.len()
    }

    /// The number of selectors.
    pub open spec fn num_selectors(&self) -> nat {
        self.selectors@.len()
    }

    /// The content of the advice cell at `(column, row)`.
    pub open spec fn cell(&self, column: int, row: int) -> Value {
        self.advice@[column]@[row]
    }

    /// Whether `selector` is enabled at `row`.
    pub open spec fn enabled(&self, selector: int, row: int) -> bool {
        self.selectors@[selector]@[row]
    }

    /// The name of the region that enabled `selector` at `row`; empty where
    /// none did.
    pub open spec fn selector_region(&self, selector: int, row: int) -> Seq<char> {
        match self.selector_origin@[selector]@[row] {
            Some(i) => self.regions@[i as int]@,
            None => Seq::empty(),
        }
    }

    /// The name of the region that last wrote the advice cell at
    /// `(column, row)`; empty where none did.
    pub open spec fn cell_region(&self, column: int, row: int) -> Seq<char> {
        match self.advice_origin@[column]@[row] {
            Some(i) => self.regions@[i as int]@,
            None => Seq::empty(),
        }
    }

    /// Nothing is assigned, nothing enabled, no region opened, no origin
    /// recorded.
    pub open spec fn is_blank(&self) -> bool {
        &&& self.regions@.len() == 0
        &&& forall|c: int, r: int|
            0 <= c < self.advice@.len() && 0 <= r < self.num_rows ==> #[trigger] self.advice@[c]@[r]
                == Value::Unknown
        &&& forall|s: int, r: int|
            0 <= s < self.selectors@.len() && 0 <= r < self.num_rows
                ==> !#[trigger] self.selectors@[s]@[r]
        &&& forall|c: int, r: int|
            0 <= c < self.advice_origin@.len() && 0 <= r < self.num_rows
                ==> #[trigger] self.advice_origin@[c]@[r] == None::<usize>
        &&& forall|s: int, r: int|
            0 <= s < self.selector_origin@.len() && 0 <= r < self.num_rows
                ==> #[trigger] self.selector_origin@[s]@[r] == None::<usize>
    }

    /// A blank table of `rows` rows for `columns` advice columns and
    /// `selectors` selectors.
    pub fn new(rows: usize, columns: usize, selectors: usize) -> (t: AssignmentTable)
        ensures
            t.wf(),
            t.is_blank(),
            t.num_rows == rows,
            t.num_columns() == columns,
            t.num_selectors() == selectors,
    {
        AssignmentTable {
            num_rows: rows,
            advice: grid(columns, rows, Value::Unknown),
            selectors: grid(selectors, rows, false),
            advice_origin: grid(columns, rows, None),
            selector_origin: grid(selectors, rows, None),
            regions: Vec::new(),
        }
    }

    /// Opens a region named `name`: the next in the list of regions.
    pub fn open_region(&mut self, name: String) -> (region: Region)
        requires
            old(self).wf(),
        ensures
            final(self).wf(),
            region.index == old(self).regions@.len(),
            final(self).regions@ == old(self).regions@.push(name),
            final(self).num_rows == old(self).num_rows,
            final(self).advice == old(self).advice,
            final(self).selectors == old(self).selectors,
            final(self).advice_origin == old(self).advice_origin,
            final(self).selector_origin == old(self).selector_origin,
    {
        let index = self.regions.len();
        self.regions.push(name);
        Region { index }
    }
}

impl Region {
    /// Enables `selector` at row `offset` and records this region as the
    /// origin of that bit. Fails, and changes nothing, where the table has
    /// no such row.
    pub fn enable_selector(&self, table: &mut AssignmentTable, selector: usize, offset: usize) -> (r:
        Result<(), AssignError>)
        requires
            old(table).wf(),
            self.index < old(table).regions@.len(),
            selector < old(table).num_selectors(),
        ensures
            final(table).wf(),
            offset >= old(table).num_rows ==> r == Err::<(), AssignError>(AssignError::NotEnoughRows)
                && *final(table) == *old(table),
            offset < old(table).num_rows ==> {
                &&& r == Ok::<(), AssignError>(())
                &&& final(table).num_rows == old(table).num_rows
                &&& final(table).advice == old(table).advice
                &&& final(table).advice_origin == old(table).advice_origin
                &&& final(table).regions == old(table).regions
                &&& final(table).selectors@.len() == old(table).selectors@.len()
                &&& final(table).selector_origin@.len() == old(table).selector_origin@.len()
                &&& final(table).selectors@[selector as int]@ == old(table).selectors@[selector as int]@.update(
                    offset as int,
                    true,
                )
                &&& final(table).selector_origin@[selector as int]@ == old(
                    table,
                ).selector_origin@[selector as int]@.update(offset as int, Some(self.index))
                &&& forall|s: int|
                    0 <= s < old(table).selectors@.len() && s != selector ==> {
                        &&& final(table).selectors@[s] == old(table).selectors@[s]
                        &&& final(table).selector_origin@[s] == old(table).selector_origin@[s]
                    }
            },
    {
        if offset >= table.num_rows {
            return Err(AssignError::NotEnoughRows);
        }
        put(&mut table.selectors, selector, offset, true);
        put(&mut table.selector_origin, selector, offset, Some(self.index));
        Ok(())
    }

    /// Writes `value` into the advice cell at `(column, offset)`, over
    /// whatever stood there, and records this region as its origin. Fails,
    /// and changes nothing, where the table has no such row.
    pub fn assign_advice(&self, table: &mut AssignmentTable, column: usize, offset: usize, value: Value) -> (r:
        Result<(), AssignError>)
        requires
            old(table).wf(),
            self.index < old(table).regions@.len(),
            column < old(table).num_columns(),
            value.wf(),
        ensures
            final(table).wf(),
            offset >= old(table).num_rows ==> r == Err::<(), AssignError>(AssignError::NotEnoughRows)
                && *final(table) == *old(table),
            offset < old(table).num_rows ==> {
                &&& r == Ok::<(), AssignError>(())
                &&& final(table).num_rows == old(table).num_rows
                &&& final(table).selectors == old(table).selectors
                &&& final(table).selector_origin == old(table).selector_origin
                &&& final(table).regions == old(table).regions
                &&& final(table).advice@.len() == old(table).advice@.len()
                &&& final(table).advice_origin@.len() == old(table).advice_origin@.len()
                &&& final(table).advice@[column as int]@ == old(table).advice@[column as int]@.update(
                    offset as int,
                    value,
                )
                &&& final(table).advice_origin@[column as int]@ == old(
                    table,
                ).advice_origin@[column as int]@.update(offset as int, Some(self.index))
                &&& forall|c: int|
                    0 <= c < old(table).advice@.len() && c != column ==> {
                        &&& final(table).advice@[c] == old(table).advice@[c]
                        &&& final(table).advice_origin@[c] == old(table).advice_origin@[c]
                    }
            },
    {
        if offset >= table.num_rows {
            return Err(AssignError::NotEnoughRows);
        }
        put(&mut table.advice, column, offset, value);
        put(&mut table.advice_origin, column, offset, Some(self.index));
        Ok(())
    }
}

} // verus!
