//! What an export decides: column widths from a sample of the rows, and when to
//! report progress. Writing the workbook itself is left to the caller.

use vstd::prelude::*;

use crate::join::{joined_cell_spec, JoinedTable};
use crate::model::{table_cell, CellValue, Table};

verus! {

/// Export phase: rows are written one by one, then the workbook is packed and saved.
#[derive(Debug, Clone, Copy, PartialEq, Eq, Structural)]
pub enum ExportPhase {
    Writing,
    Saving,
}

/// Export progress as reported to the caller.
#[derive(Debug, Clone, Copy, PartialEq, Eq, Structural)]
pub struct ExportProgress {
    pub phase: ExportPhase,
    pub completed_rows: usize,
    pub total_rows: usize,
}

/// Rows sampled when estimating column widths.
pub const COLUMN_WIDTH_SAMPLE_ROWS: usize = 4096;

/// Widest column an estimate gives.
pub const MAX_COLUMN_WIDTH: usize = 40;

/// Narrowest column written.
pub const MIN_COLUMN_WIDTH: usize = 8;

/// Rows written between two progress reports.
pub const PROGRESS_INTERVAL: usize = 1024;

/// Width of one character: 1 for ASCII, 2 for anything else.
pub open spec fn char_width(c: char) -> nat {
    if (c as u32) < 128 {
        1
    } else {
        2
    }
}

/// Display width of a text: the sum of its characters' widths.
pub open spec fn text_width(s: Seq<char>) -> nat
    decreases s.len(),
{
    if s.len() == 0 {
        0
    } else {
        text_width(s.drop_last()) + char_width(s.last())
    }
}

/// `n`, or [`MAX_COLUMN_WIDTH`] when larger.
pub open spec fn capped(n: nat) -> nat {
    if n < MAX_COLUMN_WIDTH {
        n
    } else {
        MAX_COLUMN_WIDTH as nat
    }
}

/// `n`, or `usize::MAX` when larger.
pub open spec fn saturated(n: nat) -> usize {
    if n <= usize::MAX {
        n as usize
    } else {
        usize::MAX
    }
}

/// Rough Excel width of a text: ASCII characters count 1, others 2 (saturating).
pub fn display_width(text: &str) -> (w: usize)
    ensures
        w == saturated(text_width(text@)),
{
    let mut w: usize = 0;
    for c in it: text.chars()
        invariant
            it.seq() == text@,
            w == saturated(text_width(it.seq().take(it.index() as int))),
    {
        let ghost before = it.seq().take(it.index() as int);
        proof {
            assert(it.seq().take(it.index() as int + 1).drop_last() == before);
        }
        let cw: usize = if (c as u32) < 128 {
            1
        } else {
            2
        };
        w = w.saturating_add(cw);
    }
    assert(text@.take(text@.len() as int) == text@);
    w
}

/// Display width of a cell: that of the text it shows (0 for an empty cell).
pub fn cell_display_width(cell: &CellValue) -> (w: usize)
    ensures
        w == saturated(text_width(cell.display_view())),
{
    match cell {
        CellValue::Number(text) => display_width(text.as_str()),
        CellValue::Text(text) => display_width(text.as_str()),
        CellValue::Empty => 0,
    }
}

/// Width written for a column whose estimate is `estimate`: kept between
/// [`MIN_COLUMN_WIDTH`] and [`MAX_COLUMN_WIDTH`].
pub fn column_width(estimate: usize) -> (w: usize)
    ensures
        w == (if estimate < MIN_COLUMN_WIDTH {
            MIN_COLUMN_WIDTH
        } else if estimate > MAX_COLUMN_WIDTH {
            MAX_COLUMN_WIDTH
        } else {
            estimate
        }),
{
    if estimate < MIN_COLUMN_WIDTH {
        MIN_COLUMN_WIDTH
    } else if estimate > MAX_COLUMN_WIDTH {
        MAX_COLUMN_WIDTH
    } else {
        estimate
    }
}

impl ExportProgress {
    /// Progress while writing: `completed_rows` of `total_rows` written.
    pub fn writing(completed_rows: usize, total_rows: usize) -> (p: Self)
        ensures
            p == (ExportProgress { phase: ExportPhase::Writing, completed_rows, total_rows }),
    {
        ExportProgress { phase: ExportPhase::Writing, completed_rows, total_rows }
    }

    /// Progress once every row is written and the workbook is being saved.
    pub fn saving(total_rows: usize) -> (p: Self)
        ensures
            p == (ExportProgress {
                phase: ExportPhase::Saving,
                completed_rows: total_rows,
                total_rows,
            }),
    {
        ExportProgress { phase: ExportPhase::Saving, completed_rows: total_rows, total_rows }
    }
}

/// Whether the report after row `completed_rows` of `total_rows` is due: every
/// [`PROGRESS_INTERVAL`] rows and after the last row.
pub open spec fn report_due(completed_rows: nat, total_rows: nat) -> bool {
    completed_rows % (PROGRESS_INTERVAL as nat) == 0 || completed_rows == total_rows
}

/// The report to give once `completed_rows` rows are written, if one is due.
pub fn progress_after_row(completed_rows: usize, total_rows: usize) -> (r: Option<ExportProgress>)
    ensures
        r == (if report_due(completed_rows as nat, total_rows as nat) {
            Some(ExportProgress { phase: ExportPhase::Writing, completed_rows, total_rows })
        } else {
            None
        }),
{
    if completed_rows % PROGRESS_INTERVAL == 0 || completed_rows == total_rows {
        Some(ExportProgress::writing(completed_rows, total_rows))
    } else {
        None
    }
}

/// What an export reads: column names, a row count and cells by position.
pub trait ExportSource {
    spec fn header_names(&self) -> Seq<String>;

    spec fn row_total(&self) -> nat;

    /// The cell at (`row`, `column`); `None` outside the source.
    spec fn cell_at(&self, row: int, column: int) -> Option<CellValue>;

    fn headers(&self) -> (h: &[String])
        ensures
            h@ == self.header_names(),
    ;

    fn row_count(&self) -> (n: usize)
        ensures
            n == self.row_total(),
    ;

    fn cell(&self, row: usize, column: usize) -> (c: Option<CellValue>)
        ensures
            c == self.cell_at(row as int, column as int),
    ;
}

impl ExportSource for Table {
    open spec fn header_names(&self) -> Seq<String> {
        self.headers@
    }

    open spec fn row_total(&self) -> nat {
        self.rows@.len()
    }

    open spec fn cell_at(&self, row: int, column: int) -> Option<CellValue> {
        table_cell(self.rows@, row, column)
    }

    fn headers(&self) -> (h: &[String]) {
        self.headers.as_slice()
    }

    fn row_count(&self) -> (n: usize) {
        self.rows.len()
    }

    fn cell(&self, row: usize, column: usize) -> (c: Option<CellValue>) {
        match Table::cell(self, row, column) {
            Some(x) => Some(x.duplicate()),
            None => None,
        }
    }
}

/// A join result read through its source tables, without building the output table.
pub struct JoinedExport<'a> {
    pub table: &'a JoinedTable,
    pub left: &'a Table,
    pub right: &'a Table,
}

impl<'a> ExportSource for JoinedExport<'a> {
    open spec fn header_names(&self) -> Seq<String> {
        self.table.headers@
    }

    open spec fn row_total(&self) -> nat {
        self.table.rows@.len()
    }

    open spec fn cell_at(&self, row: int, column: int) -> Option<CellValue> {
        joined_cell_spec(*self.table, self.left.rows@, self.right.rows@, row, column)
    }

    fn headers(&self) -> (h: &[String]) {
        self.table.headers.as_slice()
    }

    fn row_count(&self) -> (n: usize) {
        self.table.rows.len()
    }

    fn cell(&self, row: usize, column: usize) -> (c: Option<CellValue>) {
        self.table.cell(self.left, self.right, row, column)
    }
}

/// Capped width of a cell the source may lack (0 when it does).
pub open spec fn cell_width(c: Option<CellValue>) -> nat {
    match c {
        Some(x) => capped(text_width(x.display_view())),
        None => 0,
    }
}

/// Estimated width of `column` after sampling the first `n` rows: the widest of the
/// column name and those rows' cells, each capped at [`MAX_COLUMN_WIDTH`].
pub open spec fn sampled_width<S: ExportSource>(source: S, column: int, n: int) -> nat
    decreases n,
{
    if n <= 0 {
        capped(text_width(source.header_names()[column]@))
    } else {
        let before = sampled_width(source, column, n - 1);
        let w = cell_width(source.cell_at(n - 1, column));
        if before < w {
            w
        } else {
            before
        }
    }
}

/// The number of rows sampled for widths.
pub open spec fn sample_rows(total: nat) -> int {
    if total < COLUMN_WIDTH_SAMPLE_ROWS {
        total as int
    } else {
        COLUMN_WIDTH_SAMPLE_ROWS as int
    }
}

proof fn lemma_sampled_width_bounded<S: ExportSource>(source: S, column: int, n: int)
    ensures
        sampled_width(source, column, n) <= MAX_COLUMN_WIDTH,
    decreases n,
{
    if n > 0 {
        lemma_sampled_width_bounded(source, column, n - 1);
    }
}

proof fn lemma_sampled_width_stays_full<S: ExportSource>(source: S, column: int, k: int, n: int)
    requires
        k <= n,
        sampled_width(source, column, k) == MAX_COLUMN_WIDTH,
    ensures
        sampled_width(source, column, n) == MAX_COLUMN_WIDTH,
    decreases n - k,
{
    if k < n {
        lemma_sampled_width_stays_full(source, column, k, n - 1);
        lemma_sampled_width_bounded(source, column, n);
    }
}

/// Column widths for an export: each column's widest text among its name and the
/// first [`COLUMN_WIDTH_SAMPLE_ROWS`] rows, capped at [`MAX_COLUMN_WIDTH`]. Sampling
/// stops early once every column has reached the cap.
pub fn estimate_column_widths<S: ExportSource>(source: &S) -> (widths: Vec<usize>)
    ensures
        widths@.len() == source.header_names().len(),
        forall|c: int| 0 <= c < widths@.len() ==> #[trigger] widths@[c] <= MAX_COLUMN_WIDTH,
        forall|c: int|
            0 <= c < widths@.len() ==> #[trigger] widths@[c] == sampled_width(
                *source,
                c,
                sample_rows(source.row_total()),
            ),
{
    let headers = source.headers();
    let ncols = headers.len();
    let mut widths: Vec<usize> = Vec::new();
    let mut c: usize = 0;
    while c < ncols
        invariant
            c <= ncols,
            ncols == source.header_names().len(),
            headers@ == source.header_names(),
            widths@.len() == c,
            forall|k: int| 0 <= k < c ==> #[trigger] widths@[k] == sampled_width(*source, k, 0),
        decreases ncols - c,
    {
        let w = display_width(headers[c].as_str());
        let w = if w < MAX_COLUMN_WIDTH {
            w
        } else {
            MAX_COLUMN_WIDTH
        };
        widths.push(w);
        c = c + 1;
    }
    let total = source.row_count();
    let limit = if total < COLUMN_WIDTH_SAMPLE_ROWS {
        total
    } else {
        COLUMN_WIDTH_SAMPLE_ROWS
    };
    let mut row: usize = 0;
    let mut full = false;
    while row < limit && !full
        invariant
            row <= limit,
            limit == sample_rows(source.row_total()),
            widths@.len() == ncols,
            ncols == source.header_names().len(),
            forall|k: int| 0 <= k < ncols ==> #[trigger] widths@[k] == sampled_width(*source, k, row as int),
            full ==> forall|k: int| 0 <= k < ncols ==> #[trigger] widths@[k] == MAX_COLUMN_WIDTH,
        decreases limit - row,
    {
        let mut column: usize = 0;
        while column < ncols
            invariant
                column <= ncols,
                row < limit,
                widths@.len() == ncols,
                forall|k: int| 0 <= k < column ==> #[trigger] widths@[k] == sampled_width(*source, k, row + 1),
                forall|k: int| column <= k < ncols ==> #[trigger] widths@[k] == sampled_width(*source, k, row as int),
            decreases ncols - column,
        {
            let cell = source.cell(row, column);
            if let Some(x) = cell {
                let w = cell_display_width(&x);
                let w = if w < MAX_COLUMN_WIDTH {
                    w
                } else {
                    MAX_COLUMN_WIDTH
                };
                if widths[column] < w {
                    widths.set(column, w);
                }
            }
            column = column + 1;
        }
        row = row + 1;
        let mut all = true;
        let mut k: usize = 0;
        while k < ncols
            invariant
                k <= ncols,
                widths@.len() == ncols,
                forall|j: int| 0 <= j < ncols ==> #[trigger] widths@[j] == sampled_width(*source, j, row as int),
                all ==> forall|j: int| 0 <= j < k ==> #[trigger] widths@[j] == MAX_COLUMN_WIDTH,
            decreases ncols - k,
        {
            proof {
                lemma_sampled_width_bounded(*source, k as int, row as int);
            }
            if widths[k] < MAX_COLUMN_WIDTH {
                all = false;
            }
            k = k + 1;
        }
        full = all;
    }
    proof {
        assert forall|k: int| 0 <= k < ncols implies #[trigger] widths@[k] == sampled_width(
            *source,
            k,
            limit as int,
        ) by {
            if row < limit {
                assert(full);
                assert(widths@[k] == MAX_COLUMN_WIDTH);
                assert(widths@[k] == sampled_width(*source, k, row as int));
                lemma_sampled_width_stays_full(*source, k, row as int, limit as int);
            }
        }
        assert forall|k: int| 0 <= k < ncols implies #[trigger] widths@[k] <= MAX_COLUMN_WIDTH by {
            lemma_sampled_width_bounded(*source, k, limit as int);
        }
    }
    widths
}

} // verus!
