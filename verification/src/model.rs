//! Table model shared by the join engine, the sheet reader and export.

use vstd::prelude::*;

verus! {

/// One cell. A number is held as the canonical decimal text the library shows and
/// keys it by: integral values without a fractional part, others in their shortest
/// round-trip form.
#[derive(Debug, PartialEq)]
pub enum CellValue {
    Number(String),
    Text(String),
    Empty,
}

impl CellValue {
    /// Text shown for the cell (empty for an empty cell).
    pub open spec fn display_view(self) -> Seq<char> {
        match self {
            CellValue::Number(t) => t@,
            CellValue::Text(s) => s@,
            CellValue::Empty => Seq::empty(),
        }
    }

    /// Display text of the cell.
    pub fn display(&self) -> (r: String)
        ensures
            r@ == self.display_view(),
    {
        match self {
            CellValue::Number(t) => t.clone(),
            CellValue::Text(s) => s.clone(),
            CellValue::Empty => String::new(),
        }
    }

    /// An independent copy of the cell, equal to it.
    pub fn duplicate(&self) -> (r: CellValue)
        ensures
            r == *self,
    {
        match self {
            CellValue::Number(t) => CellValue::Number(t.clone()),
            CellValue::Text(s) => CellValue::Text(s.clone()),
            CellValue::Empty => CellValue::Empty,
        }
    }
}

impl Clone for CellValue {
    fn clone(&self) -> (r: Self)
        ensures
            r == *self,
    {
        self.duplicate()
    }
}

/// A table read from a sheet: column names and rows of cells.
#[derive(Debug, Clone)]
pub struct Table {
    /// Column names; every pushed row has this many cells.
    pub headers: Vec<String>,
    /// Rows of cells.
    pub rows: Vec<Vec<CellValue>>,
}

/// The cell at (`row`, `col`) of a table given by its rows, or `None` when out of range.
pub open spec fn table_cell(rows: Seq<Vec<CellValue>>, row: int, col: int) -> Option<CellValue> {
    if 0 <= row < rows.len() && 0 <= col < rows[row]@.len() {
        Some(rows[row]@[col])
    } else {
        None
    }
}

/// A row brought to `width` cells: cut when longer, padded with empty cells when shorter.
pub open spec fn aligned_row(row: Seq<CellValue>, width: nat) -> Seq<CellValue> {
    if row.len() >= width {
        row.take(width as int)
    } else {
        row + Seq::new((width - row.len()) as nat, |i: int| CellValue::Empty)
    }
}

impl Table {
    /// An empty table with the given column names.
    pub fn new(headers: Vec<String>) -> (t: Self)
        ensures
            t.headers == headers,
            t.rows@.len() == 0,
    {
        Table { headers, rows: Vec::new() }
    }

    pub fn col_count(&self) -> (n: usize)
        ensures
            n == self.headers@.len(),
    {
        self.headers.len()
    }

    pub fn row_count(&self) -> (n: usize)
        ensures
            n == self.rows@.len(),
    {
        self.rows.len()
    }

    /// The cell at (`row`, `col`), or `None` when either index is out of range.
    pub fn cell(&self, row: usize, col: usize) -> (r: Option<&CellValue>)
        ensures
            r matches Some(c) ==> table_cell(self.rows@, row as int, col as int) == Some(*c),
            r is None <==> table_cell(self.rows@, row as int, col as int) is None,
    {
        if row < self.rows.len() {
            let cells = &self.rows[row];
            if col < cells.len() {
                return Some(&cells[col]);
            }
        }
        None
    }

    /// Whether the table has no rows or no columns.
    pub fn is_empty(&self) -> (r: bool)
        ensures
            r == (self.rows@.len() == 0 || self.headers@.len() == 0),
    {
        self.rows.len() == 0 || self.headers.len() == 0
    }

    /// Append a row, brought to the column count: padded with empty cells or cut.
    pub fn push_row(&mut self, row: Vec<CellValue>)
        ensures
            final(self).headers == old(self).headers,
            final(self).rows@.len() == old(self).rows@.len() + 1,
            final(self).rows@.take(old(self).rows@.len() as int) == old(self).rows@,
            final(self).rows@.last()@ == aligned_row(row@, old(self).headers@.len()),
    {
        let w = self.headers.len();
        let mut row = row;
        let ghost original = row@;
        if row.len() < w {
            while row.len() < w
                invariant
                    original.len() <= row@.len() <= w,
                    row@ == aligned_row(original, w as nat).take(row@.len() as int),
                decreases w - row@.len(),
            {
                row.push(CellValue::Empty);
                assert(row@ == aligned_row(original, w as nat).take(row@.len() as int));
            }
            assert(row@ == aligned_row(original, w as nat));
        } else if row.len() > w {
            row.truncate(w);
        }
        assert(row@ == aligned_row(original, w as nat));
        self.rows.push(row);
        assert(self.rows@.take(old(self).rows@.len() as int) == old(self).rows@);
    }
}

impl Default for Table {
    fn default() -> (t: Self)
        ensures
            t.headers@.len() == 0,
            t.rows@.len() == 0,
    {
        Table { headers: Vec::new(), rows: Vec::new() }
    }
}

} // verus!
