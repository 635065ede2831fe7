//! Join engine: VLOOKUP (left join) and inner join of two tables.
//!
//! Each side chooses its output columns. Keys may span several columns; their
//! normalization is configurable (see [`KeyMode`]). Output rows refer to the source
//! rows instead of copying cells.

use std::time::{Duration, Instant};
use vstd::prelude::*;

pub use crate::index::RowMatches;
pub use crate::keys::KeyMode;

use crate::index::{all_hits, is_max_dup, keys_of, selected_hits, JoinIndex, distinct_upto};
use crate::keys::write_key;
use crate::model::{table_cell, CellValue, Table};

verus! {

/// Join type.
#[derive(Debug, Clone, Copy, PartialEq, Eq, Structural)]
pub enum JoinType {
    /// VLOOKUP: every left row is kept; unmatched ones get empty right cells.
    Left,
    /// Only rows that match on both sides.
    Inner,
}

impl JoinType {
    pub fn label(&self) -> (r: &'static str)
        ensures
            r@ == (match self {
                JoinType::Left => "左连接（VLOOKUP）"@,
                JoinType::Inner => "内连接（交集）"@,
            }),
    {
        match self {
            JoinType::Left => "左连接（VLOOKUP）",
            JoinType::Inner => "内连接（交集）",
        }
    }

    pub fn all() -> (r: [JoinType; 2])
        ensures
            r@ == seq![JoinType::Left, JoinType::Inner],
    {
        [JoinType::Left, JoinType::Inner]
    }

    /// What the join type keeps of each side.
    pub fn hint(&self) -> (r: &'static str)
        ensures
            r@ == (match self {
                JoinType::Left => "保留 A 的全部行"@,
                JoinType::Inner => "仅保留 A、B 都能匹配到的行"@,
            }),
    {
        match self {
            JoinType::Left => "保留 A 的全部行",
            JoinType::Inner => "仅保留 A、B 都能匹配到的行",
        }
    }
}

/// Join parameters.
#[derive(Debug, Clone)]
pub struct JoinSpec {
    pub join_type: JoinType,
    /// Key columns of the left table (several = composite key).
    pub left_keys: Vec<usize>,
    /// Key columns of the right table.
    pub right_keys: Vec<usize>,
    /// Output columns of the left table. `None` outputs every left column (the same as
    /// listing them all); `Some` of an empty list outputs none. Columns past the left
    /// table's width are dropped.
    pub left_pick: Option<Vec<usize>>,
    /// Output columns of the right table.
    pub right_pick: Vec<usize>,
    pub key_mode: KeyMode,
    /// Join a left row with every right row of its key (true) or only the first (false).
    pub expand_dup: bool,
}

/// The columns of `cols` below `n`, in order.
pub open spec fn valid_columns(cols: Seq<usize>, n: nat) -> Seq<usize>
    decreases cols.len(),
{
    if cols.len() == 0 {
        Seq::empty()
    } else {
        let p = valid_columns(cols.drop_last(), n);
        if cols.last() < n {
            p.push(cols.last())
        } else {
            p
        }
    }
}

/// The left output columns: all `n` columns for `None`, else the listed ones below `n`.
pub open spec fn resolve_left_pick_spec(left_pick: Option<Seq<usize>>, n: nat) -> Seq<usize> {
    match left_pick {
        None => Seq::new(n, |i: int| i as usize),
        Some(cols) => valid_columns(cols, n),
    }
}

pub open spec fn opt_view(o: Option<&[usize]>) -> Option<Seq<usize>> {
    match o {
        Some(s) => Some(s@),
        None => None,
    }
}

pub open spec fn opt_vec_view(o: Option<Vec<usize>>) -> Option<Seq<usize>> {
    match o {
        Some(v) => Some(v@),
        None => None,
    }
}

pub proof fn lemma_valid_columns(cols: Seq<usize>, n: nat)
    ensures
        valid_columns(cols, n).len() <= cols.len(),
        forall|i: int| 0 <= i < valid_columns(cols, n).len() ==> #[trigger] valid_columns(cols, n)[i] < n,
        valid_columns(cols, n).len() > 0 <==> any_below_spec(cols, n),
        forall|c: usize| valid_columns(cols, n).contains(c) <==> (cols.contains(c) && c < n),
    decreases cols.len(),
{
    if cols.len() > 0 {
        let d = cols.drop_last();
        lemma_valid_columns(d, n);
        let p = valid_columns(d, n);
        let v = valid_columns(cols, n);
        if cols.last() < n {
            assert(v == p.push(cols.last()));
        } else {
            assert(v == p);
        }
        assert forall|i: int| 0 <= i < v.len() implies #[trigger] v[i] < n by {
            if i < p.len() {
                assert(v[i] == p[i]);
            }
        }
        if exists|i: int| 0 <= i < cols.len() && #[trigger] cols[i] < n {
            let i = choose|i: int| 0 <= i < cols.len() && #[trigger] cols[i] < n;
            if i < d.len() {
                assert(d[i] == cols[i]);
            }
        }
        if v.len() > 0 && p.len() > 0 {
            let i = choose|i: int| 0 <= i < d.len() && #[trigger] d[i] < n;
            assert(cols[i] == d[i]);
        }
        if v.len() > 0 && p.len() == 0 {
            assert(cols[cols.len() - 1] < n);
        }
        assert forall|c: usize| v.contains(c) <==> (cols.contains(c) && c < n) by {
            if v.contains(c) {
                let j = choose|j: int| 0 <= j < v.len() && v[j] == c;
                if j < p.len() {
                    assert(p[j] == c);
                    assert(p.contains(c));
                    assert(d.contains(c));
                    let k = choose|k: int| 0 <= k < d.len() && d[k] == c;
                    assert(cols[k] == c);
                } else {
                    assert(cols[cols.len() - 1] == c);
                }
            }
            if cols.contains(c) && c < n {
                let k = choose|k: int| 0 <= k < cols.len() && cols[k] == c;
                if k < d.len() {
                    assert(d[k] == c);
                    assert(d.contains(c));
                    let j = choose|j: int| 0 <= j < p.len() && p[j] == c;
                    assert(v[j] == c);
                } else {
                    assert(v[v.len() - 1] == c);
                }
            }
        }
    }
}

/// The columns of `cols` below `n`, in their given order.
pub fn filter_columns(cols: &[usize], n: usize) -> (r: Vec<usize>)
    ensures
        r@ == valid_columns(cols@, n as nat),
{
    let mut r: Vec<usize> = Vec::new();
    let mut i: usize = 0;
    while i < cols.len()
        invariant
            i <= cols@.len(),
            r@ == valid_columns(cols@.take(i as int), n as nat),
        decreases cols@.len() - i,
    {
        let c = cols[i];
        proof {
            let t = cols@.take(i as int + 1);
            assert(t.drop_last() == cols@.take(i as int));
            assert(t.last() == c);
        }
        if c < n {
            r.push(c);
        }
        i = i + 1;
    }
    assert(cols@.take(cols@.len() as int) == cols@);
    r
}

/// Resolve the left output columns: columns past `left_col_count` are dropped and the
/// given order is kept; `None` expands to every left column.
pub fn resolve_left_pick(left_pick: Option<&[usize]>, left_col_count: usize) -> (r: Vec<usize>)
    ensures
        r@ == resolve_left_pick_spec(opt_view(left_pick), left_col_count as nat),
{
    match left_pick {
        None => {
            let mut r: Vec<usize> = Vec::new();
            let mut i: usize = 0;
            while i < left_col_count
                invariant
                    i <= left_col_count,
                    r@ == Seq::new(i as nat, |j: int| j as usize),
                decreases left_col_count - i,
            {
                r.push(i);
                assert(r@ == Seq::new(i as nat + 1, |j: int| j as usize));
                i = i + 1;
            }
            r
        },
        Some(columns) => filter_columns(columns, left_col_count),
    }
}

/// Some column of `cols` is below `n`.
pub open spec fn any_below_spec(cols: Seq<usize>, n: nat) -> bool {
    exists|i: int| 0 <= i < cols.len() && #[trigger] cols[i] < n
}

/// Whether some column of `cols` is below `n`.
pub fn any_below(cols: &[usize], n: usize) -> (r: bool)
    ensures
        r == any_below_spec(cols@, n as nat),
{
    let mut i: usize = 0;
    while i < cols.len()
        invariant
            i <= cols@.len(),
            forall|j: int| 0 <= j < i ==> !(#[trigger] cols@[j] < n),
        decreases cols@.len() - i,
    {
        if cols[i] < n {
            return true;
        }
        i = i + 1;
    }
    false
}

/// Whether `c` occurs in `cols`.
pub fn contains_column(cols: &[usize], c: usize) -> (r: bool)
    ensures
        r == cols@.contains(c),
{
    let mut i: usize = 0;
    while i < cols.len()
        invariant
            i <= cols@.len(),
            forall|j: int| 0 <= j < i ==> #[trigger] cols@[j] != c,
        decreases cols@.len() - i,
    {
        if cols[i] == c {
            return true;
        }
        i = i + 1;
    }
    false
}

/// The join result has at least one output column.
pub open spec fn has_output_columns_spec(
    left_pick: Option<Seq<usize>>,
    right_pick: Seq<usize>,
    left_col_count: nat,
    right_col_count: nat,
) -> bool {
    let left_selected = match left_pick {
        None => left_col_count > 0,
        Some(cols) => any_below_spec(cols, left_col_count),
    };
    left_selected || any_below_spec(right_pick, right_col_count)
}

/// Whether the result has at least one output column. Columns past a table's width do
/// not count.
pub fn has_output_columns(
    left_pick: Option<&[usize]>,
    right_pick: &[usize],
    left_col_count: usize,
    right_col_count: usize,
) -> (r: bool)
    ensures
        r == has_output_columns_spec(opt_view(left_pick), right_pick@, left_col_count as nat, right_col_count as nat),
{
    let left_selected = match left_pick {
        None => left_col_count > 0,
        Some(columns) => {
            assert(opt_view(left_pick) == Some(columns@));
            any_below(columns, left_col_count)
        },
    };
    let right_selected = any_below(right_pick, right_col_count);
    left_selected || right_selected
}

/// The output keeps at least one key column: a left key column among the resolved left
/// output columns, or a right key column (inside the right table) among the right
/// output columns.
pub open spec fn has_key_output_spec(
    left_keys: Seq<usize>,
    right_keys: Seq<usize>,
    left_pick: Option<Seq<usize>>,
    right_pick: Seq<usize>,
    left_col_count: nat,
    right_col_count: nat,
) -> bool {
    let left_out = resolve_left_pick_spec(left_pick, left_col_count);
    (exists|i: int| 0 <= i < left_keys.len() && left_out.contains(#[trigger] left_keys[i])) || (exists|
        i: int,
    |
        0 <= i < right_keys.len() && #[trigger] right_keys[i] < right_col_count && right_pick.contains(
            right_keys[i],
        ))
}

/// Whether the output keeps at least one key column (see [`has_key_output_spec`]).
pub fn has_key_output(
    left_keys: &[usize],
    right_keys: &[usize],
    left_pick: Option<&[usize]>,
    right_pick: &[usize],
    left_col_count: usize,
    right_col_count: usize,
) -> (r: bool)
    ensures
        r == has_key_output_spec(
            left_keys@,
            right_keys@,
            opt_view(left_pick),
            right_pick@,
            left_col_count as nat,
            right_col_count as nat,
        ),
{
    let left_out = resolve_left_pick(left_pick, left_col_count);
    let mut i: usize = 0;
    while i < left_keys.len()
        invariant
            i <= left_keys@.len(),
            left_out@ == resolve_left_pick_spec(opt_view(left_pick), left_col_count as nat),
            forall|j: int| 0 <= j < i ==> !left_out@.contains(#[trigger] left_keys@[j]),
        decreases left_keys@.len() - i,
    {
        if contains_column(left_out.as_slice(), left_keys[i]) {
            return true;
        }
        i = i + 1;
    }
    let mut j: usize = 0;
    while j < right_keys.len()
        invariant
            j <= right_keys@.len(),
            forall|m: int| 0 <= m < left_keys@.len() ==> !left_out@.contains(#[trigger] left_keys@[m]),
            forall|m: int|
                0 <= m < j ==> !(#[trigger] right_keys@[m] < right_col_count && right_pick@.contains(
                    right_keys@[m],
                )),
        decreases right_keys@.len() - j,
    {
        let k = right_keys[j];
        if k < right_col_count && contains_column(right_pick, k) {
            return true;
        }
        j = j + 1;
    }
    false
}

/// A `None` left pick and the list of every left column resolve to the same columns.
pub proof fn law_default_pick_lists_every_column(n: nat)
    ensures
        resolve_left_pick_spec(None, n) == resolve_left_pick_spec(
            Some(Seq::new(n, |i: int| i as usize)),
            n,
        ),
{
    let all = Seq::new(n, |i: int| i as usize);
    lemma_valid_columns_all(all, n);
}

proof fn lemma_valid_columns_all(cols: Seq<usize>, n: nat)
    requires
        forall|i: int| 0 <= i < cols.len() ==> #[trigger] cols[i] < n,
    ensures
        valid_columns(cols, n) == cols,
    decreases cols.len(),
{
    if cols.len() > 0 {
        let d = cols.drop_last();
        assert forall|i: int| 0 <= i < d.len() implies #[trigger] d[i] < n by {
            assert(d[i] == cols[i]);
        }
        lemma_valid_columns_all(d, n);
        assert(d.push(cols.last()) == cols);
    }
}

/// The result has an output column exactly when the resolved left columns are not
/// empty or some right output column lies inside the right table.
pub proof fn law_has_output_columns_matches_resolved(
    left_pick: Option<Seq<usize>>,
    right_pick: Seq<usize>,
    left_col_count: nat,
    right_col_count: nat,
)
    ensures
        has_output_columns_spec(left_pick, right_pick, left_col_count, right_col_count) == (
        resolve_left_pick_spec(left_pick, left_col_count).len() > 0 || valid_columns(
            right_pick,
            right_col_count,
        ).len() > 0),
{
    lemma_valid_columns(right_pick, right_col_count);
    match left_pick {
        None => {},
        Some(cols) => {
            lemma_valid_columns(cols, left_col_count);
        },
    }
}

impl JoinSpec {
    /// The effective left output columns for a left table of `left_col_count` columns.
    pub fn resolved_left_pick(&self, left_col_count: usize) -> (r: Vec<usize>)
        ensures
            r@ == resolve_left_pick_spec(opt_vec_view(self.left_pick), left_col_count as nat),
    {
        match &self.left_pick {
            Some(v) => resolve_left_pick(Some(v.as_slice()), left_col_count),
            None => resolve_left_pick(None, left_col_count),
        }
    }

    /// Whether the result has at least one output column.
    pub fn has_output_columns(&self, left_col_count: usize, right_col_count: usize) -> (r: bool)
        ensures
            r == has_output_columns_spec(
                opt_vec_view(self.left_pick),
                self.right_pick@,
                left_col_count as nat,
                right_col_count as nat,
            ),
    {
        match &self.left_pick {
            Some(v) => has_output_columns(
                Some(v.as_slice()),
                self.right_pick.as_slice(),
                left_col_count,
                right_col_count,
            ),
            None => has_output_columns(None, self.right_pick.as_slice(), left_col_count, right_col_count),
        }
    }

    /// Whether the output keeps at least one key column.
    pub fn has_key_output(&self, left_col_count: usize, right_col_count: usize) -> (r: bool)
        ensures
            r == has_key_output_spec(
                self.left_keys@,
                self.right_keys@,
                opt_vec_view(self.left_pick),
                self.right_pick@,
                left_col_count as nat,
                right_col_count as nat,
            ),
    {
        match &self.left_pick {
            Some(v) => has_key_output(
                self.left_keys.as_slice(),
                self.right_keys.as_slice(),
                Some(v.as_slice()),
                self.right_pick.as_slice(),
                left_col_count,
                right_col_count,
            ),
            None => has_key_output(
                self.left_keys.as_slice(),
                self.right_keys.as_slice(),
                None,
                self.right_pick.as_slice(),
                left_col_count,
                right_col_count,
            ),
        }
    }
}

/// `right_row` of an unmatched left-join row.
pub const UNMATCHED_RIGHT_ROW: u32 = 4294967295u32;

/// One output row: the left source row and the right source row it is joined with
/// ([`UNMATCHED_RIGHT_ROW`] for a left row without match).
#[derive(Debug, Clone, Copy, PartialEq, Eq, Structural)]
pub struct JoinedRow {
    pub left_row: u32,
    pub right_row: u32,
}

/// Join result as references to the source rows.
#[derive(Debug, Clone)]
pub struct JoinedTable {
    /// Output column names: the chosen left columns, then the chosen right columns.
    pub headers: Vec<String>,
    /// Source rows of every output row.
    pub rows: Vec<JoinedRow>,
    /// Source column of each left output column.
    pub left_pick: Vec<usize>,
    /// Source column of each right output column.
    pub right_pick: Vec<usize>,
}

/// A source cell, empty when the row or the column is missing.
pub open spec fn source_cell(rows: Seq<Vec<CellValue>>, r: int, c: int) -> CellValue {
    match table_cell(rows, r, c) {
        Some(x) => x,
        None => CellValue::Empty,
    }
}

/// The cell at (`row`, `column`) of the joined view over `left` and `right`.
pub open spec fn joined_cell_spec(
    t: JoinedTable,
    left: Seq<Vec<CellValue>>,
    right: Seq<Vec<CellValue>>,
    row: int,
    column: int,
) -> Option<CellValue> {
    let lp = t.left_pick@;
    let rp = t.right_pick@;
    if !(0 <= row < t.rows@.len()) || column < 0 {
        None
    } else if column < lp.len() {
        Some(source_cell(left, t.rows@[row].left_row as int, lp[column] as int))
    } else if column - lp.len() < rp.len() {
        if t.rows@[row].right_row == UNMATCHED_RIGHT_ROW {
            Some(CellValue::Empty)
        } else {
            Some(source_cell(right, t.rows@[row].right_row as int, rp[column - lp.len()] as int))
        }
    } else {
        None
    }
}

fn source_cell_of(rows: &Vec<Vec<CellValue>>, r: usize, c: usize) -> (x: CellValue)
    ensures
        x == source_cell(rows@, r as int, c as int),
{
    if r < rows.len() {
        let cells = &rows[r];
        if c < cells.len() {
            return cells[c].duplicate();
        }
    }
    CellValue::Empty
}

/// Copy of a list of strings.
pub fn clone_strings(v: &Vec<String>) -> (r: Vec<String>)
    ensures
        r@ == v@,
{
    let mut r: Vec<String> = Vec::new();
    let mut i: usize = 0;
    while i < v.len()
        invariant
            i <= v@.len(),
            r@ == v@.take(i as int),
        decreases v@.len() - i,
    {
        r.push(v[i].clone());
        assert(v@.take(i as int + 1) == v@.take(i as int).push(v@[i as int]));
        i = i + 1;
    }
    assert(v@.take(v@.len() as int) == v@);
    r
}

impl JoinedTable {
    pub fn col_count(&self) -> (n: usize)
        ensures
            n == self.headers@.len(),
    {
        self.headers.len()
    }

    pub fn row_count(&self) -> (n: usize)
        ensures
            n == self.rows@.len(),
    {
        self.rows.len()
    }

    /// Whether output row `row` is matched: false for a left row without match (and
    /// for a row past the end).
    pub fn row_hit(&self, row: usize) -> (r: bool)
        ensures
            r == (row < self.rows@.len() && self.rows@[row as int].right_row != UNMATCHED_RIGHT_ROW),
    {
        row < self.rows.len() && self.rows[row].right_row != UNMATCHED_RIGHT_ROW
    }

    /// The cell at (`row`, `column`) read from the source tables. The right cells of an
    /// unmatched row are empty; `None` past the last row or column.
    pub fn cell(&self, left: &Table, right: &Table, row: usize, column: usize) -> (r: Option<CellValue>)
        ensures
            r == joined_cell_spec(*self, left.rows@, right.rows@, row as int, column as int),
    {
        if row >= self.rows.len() {
            return None;
        }
        let joined_row = self.rows[row];
        if column < self.left_pick.len() {
            let left_column = self.left_pick[column];
            return Some(source_cell_of(&left.rows, joined_row.left_row as usize, left_column));
        }
        let offset = column - self.left_pick.len();
        if offset >= self.right_pick.len() {
            return None;
        }
        let right_column = self.right_pick[offset];
        if joined_row.right_row == UNMATCHED_RIGHT_ROW {
            return Some(CellValue::Empty);
        }
        Some(source_cell_of(&right.rows, joined_row.right_row as usize, right_column))
    }

    /// An independent table holding every cell of the view.
    pub fn materialize(&self, left: &Table, right: &Table) -> (t: Table)
        ensures
            t.headers@ == self.headers@,
            t.rows@.len() == self.rows@.len(),
            forall|i: int| 0 <= i < t.rows@.len() ==> (#[trigger] t.rows@[i])@.len() == self.headers@.len(),
            forall|i: int, j: int|
                #![trigger t.rows@[i]@[j]]
                0 <= i < t.rows@.len() && 0 <= j < self.headers@.len() ==> t.rows@[i]@[j]
                    == match joined_cell_spec(*self, left.rows@, right.rows@, i, j) {
                    Some(c) => c,
                    None => CellValue::Empty,
                },
    {
        let mut table = Table::new(clone_strings(&self.headers));
        let width = self.headers.len();
        let mut row: usize = 0;
        while row < self.rows.len()
            invariant
                row <= self.rows@.len(),
                width == self.headers@.len(),
                table.headers@ == self.headers@,
                table.rows@.len() == row,
                forall|i: int| 0 <= i < row ==> (#[trigger] table.rows@[i])@.len() == width,
                forall|i: int, j: int|
                    #![trigger table.rows@[i]@[j]]
                    0 <= i < row && 0 <= j < width ==> table.rows@[i]@[j] == match joined_cell_spec(
                        *self,
                        left.rows@,
                        right.rows@,
                        i,
                        j,
                    ) {
                        Some(c) => c,
                        None => CellValue::Empty,
                    },
            decreases self.rows@.len() - row,
        {
            let mut cells: Vec<CellValue> = Vec::new();
            let mut column: usize = 0;
            while column < width
                invariant
                    column <= width,
                    row < self.rows@.len(),
                    cells@.len() == column,
                    forall|j: int|
                        0 <= j < column ==> cells@[j] == match joined_cell_spec(
                            *self,
                            left.rows@,
                            right.rows@,
                            row as int,
                            j,
                        ) {
                            Some(c) => c,
                            None => CellValue::Empty,
                        },
                decreases width - column,
            {
                let c = match self.cell(left, right, row, column) {
                    Some(c) => c,
                    None => CellValue::Empty,
                };
                cells.push(c);
                column = column + 1;
            }
            table.rows.push(cells);
            row = row + 1;
        }
        table
    }
}

impl Default for JoinedTable {
    fn default() -> (t: Self)
        ensures
            t.headers@.len() == 0,
            t.rows@.len() == 0,
            t.left_pick@.len() == 0,
            t.right_pick@.len() == 0,
    {
        JoinedTable { headers: Vec::new(), rows: Vec::new(), left_pick: Vec::new(), right_pick: Vec::new() }
    }
}


// ---------------------------------------------------------------------------
// What a join outputs
// ---------------------------------------------------------------------------

/// The left row with key `lkey` finds right rows.
pub open spec fn is_matched(lkey: Option<Seq<char>>, rkeys: Seq<Option<Seq<char>>>) -> bool {
    lkey is Some && all_hits(rkeys, lkey->0).len() > 0
}

/// The output rows of left row `l`: one per selected matching right row; one
/// unmatched row for a left join without match; none for an inner join without match.
pub open spec fn contribution(
    lkey: Option<Seq<char>>,
    rkeys: Seq<Option<Seq<char>>>,
    l: int,
    join_type: JoinType,
    expand_dup: bool,
) -> Seq<JoinedRow> {
    if is_matched(lkey, rkeys) {
        selected_hits(all_hits(rkeys, lkey->0), expand_dup).map_values(
            |r: usize| JoinedRow { left_row: l as u32, right_row: r as u32 },
        )
    } else if join_type == JoinType::Left {
        seq![JoinedRow { left_row: l as u32, right_row: UNMATCHED_RIGHT_ROW }]
    } else {
        Seq::empty()
    }
}

/// The output rows of the first `n` left rows, in left-row order.
pub open spec fn join_rows_upto(
    lkeys: Seq<Option<Seq<char>>>,
    rkeys: Seq<Option<Seq<char>>>,
    join_type: JoinType,
    expand_dup: bool,
    n: int,
) -> Seq<JoinedRow>
    decreases n,
{
    if n <= 0 {
        Seq::empty()
    } else {
        join_rows_upto(lkeys, rkeys, join_type, expand_dup, n - 1) + contribution(
            lkeys[n - 1],
            rkeys,
            n - 1,
            join_type,
            expand_dup,
        )
    }
}

/// Keys of the left rows under `spec`.
pub open spec fn left_keys_of(left: Table, spec: JoinSpec) -> Seq<Option<Seq<char>>> {
    keys_of(left.rows@, spec.left_keys@, spec.key_mode)
}

/// Keys of the right rows under `spec`.
pub open spec fn right_keys_of(right: Table, spec: JoinSpec) -> Seq<Option<Seq<char>>> {
    keys_of(right.rows@, spec.right_keys@, spec.key_mode)
}

/// Every output row of joining `left` with `right` under `spec`.
pub open spec fn join_output(left: Table, right: Table, spec: JoinSpec) -> Seq<JoinedRow> {
    join_rows_upto(
        left_keys_of(left, spec),
        right_keys_of(right, spec),
        spec.join_type,
        spec.expand_dup,
        left.rows@.len() as int,
    )
}

/// The number of matched rows among the first `n` left rows.
pub open spec fn matched_upto(lkeys: Seq<Option<Seq<char>>>, rkeys: Seq<Option<Seq<char>>>, n: int) -> nat
    decreases n,
{
    if n <= 0 {
        0
    } else {
        matched_upto(lkeys, rkeys, n - 1) + if is_matched(lkeys[n - 1], rkeys) {
            1nat
        } else {
            0nat
        }
    }
}

/// The number of output rows that are matched.
pub open spec fn hit_count(rows: Seq<JoinedRow>) -> nat
    decreases rows.len(),
{
    if rows.len() == 0 {
        0
    } else {
        hit_count(rows.drop_last()) + if rows.last().right_row != UNMATCHED_RIGHT_ROW {
            1nat
        } else {
            0nat
        }
    }
}

/// Right row `r` appears in the output.
pub open spec fn uses(rows: Seq<JoinedRow>, r: int) -> bool {
    exists|i: int| 0 <= i < rows.len() && (#[trigger] rows[i]).right_row as int == r
}

/// The number of right rows among the first `n` that appear in the output.
pub open spec fn used_count(rows: Seq<JoinedRow>, n: int) -> nat
    decreases n,
{
    if n <= 0 {
        0
    } else {
        used_count(rows, n - 1) + if uses(rows, n - 1) {
            1nat
        } else {
            0nat
        }
    }
}

/// A row count saturated at `usize::MAX`.
pub open spec fn saturate(n: nat) -> usize {
    if n > usize::MAX {
        usize::MAX
    } else {
        n as usize
    }
}

/// `total + additional`, saturated at `usize::MAX`.
pub fn add_output_rows(total: usize, additional: usize) -> (r: usize)
    ensures
        r == saturate(total as nat + additional as nat),
{
    total.saturating_add(additional)
}

/// `a * b`, saturated at `usize::MAX`.
pub fn saturating_product(a: usize, b: usize) -> (r: usize)
    ensures
        r == saturate(a as nat * b as nat),
{
    match a.checked_mul(b) {
        Some(p) => p,
        None => usize::MAX,
    }
}

/// Output row count estimate and duplicate-key diagnostics.
#[derive(Debug, Clone, Copy, PartialEq, Eq, Structural)]
pub struct JoinEstimate {
    /// The number of output rows of the matching join, saturated at `usize::MAX`.
    pub output_rows: usize,
    /// The greatest number of right rows sharing one key.
    pub max_dup: usize,
    /// The number of distinct right keys.
    pub distinct_keys: usize,
}

/// The estimate of joining `left` with `right` under `spec`.
pub open spec fn is_estimate_of(e: JoinEstimate, left: Table, right: Table, spec: JoinSpec) -> bool {
    let rk = right_keys_of(right, spec);
    &&& e.output_rows == saturate(join_output(left, right, spec).len())
    &&& is_max_dup(rk, e.max_dup as nat)
    &&& e.distinct_keys == distinct_upto(rk, rk.len() as int)
}

/// Stage timings of a join, for diagnostics and benchmarks.
#[derive(Debug, Clone, Copy, PartialEq, Eq)]
pub struct JoinTimings {
    pub index: Duration,
    pub preflight: Duration,
    pub probe: Duration,
    pub materialize: Duration,
    pub total: Duration,
    /// The estimate, when the join made one before producing rows.
    pub estimate: Option<JoinEstimate>,
}

/// A join refused for producing more rows than allowed.
#[derive(Debug, Clone, Copy, PartialEq, Eq)]
pub struct JoinLimitExceeded {
    pub estimate: JoinEstimate,
    pub timings: JoinTimings,
}

/// Join result.
#[derive(Debug, Clone)]
pub struct JoinResult {
    /// Output view: chosen left columns, then chosen right columns.
    pub table: JoinedTable,
    pub left_total: usize,
    pub left_matched: usize,
    pub right_total: usize,
    /// The number of right rows that appear in the output.
    pub right_matched_rows: usize,
    pub out_rows: usize,
    /// The number of matched output rows (more than `left_matched` when duplicates expand).
    pub matched_rows: usize,
}

/// The output column names for `cols` of `headers`.
pub open spec fn picked_headers(headers: Seq<String>, cols: Seq<usize>) -> Seq<String> {
    cols.map_values(|c: usize| headers[c as int])
}

/// `r` is the result of joining `left` with `right` under `spec`.
pub open spec fn is_join_result(r: JoinResult, left: Table, right: Table, spec: JoinSpec) -> bool {
    let lk = left_keys_of(left, spec);
    let rk = right_keys_of(right, spec);
    let out = join_output(left, right, spec);
    &&& r.table.rows@ == out
    &&& r.table.left_pick@ == resolve_left_pick_spec(opt_vec_view(spec.left_pick), left.headers@.len())
    &&& r.table.right_pick@ == valid_columns(spec.right_pick@, right.headers@.len())
    &&& r.table.headers@ == picked_headers(left.headers@, r.table.left_pick@) + picked_headers(
        right.headers@,
        r.table.right_pick@,
    )
    &&& r.left_total == left.rows@.len()
    &&& r.right_total == right.rows@.len()
    &&& r.left_matched == matched_upto(lk, rk, lk.len() as int)
    &&& r.matched_rows == hit_count(out)
    &&& r.right_matched_rows == used_count(out, right.rows@.len() as int)
    &&& r.out_rows == out.len()
}

proof fn lemma_hit_count_bound(rows: Seq<JoinedRow>)
    ensures
        hit_count(rows) <= rows.len(),
    decreases rows.len(),
{
    if rows.len() > 0 {
        lemma_hit_count_bound(rows.drop_last());
    }
}

proof fn lemma_matched_bound(lkeys: Seq<Option<Seq<char>>>, rkeys: Seq<Option<Seq<char>>>, n: int)
    requires
        n >= 0,
    ensures
        matched_upto(lkeys, rkeys, n) <= n,
    decreases n,
{
    if n > 0 {
        lemma_matched_bound(lkeys, rkeys, n - 1);
    }
}

proof fn lemma_contribution_len(
    lkey: Option<Seq<char>>,
    rkeys: Seq<Option<Seq<char>>>,
    l: int,
    join_type: JoinType,
    expand_dup: bool,
    m: nat,
)
    requires
        is_max_dup(rkeys, m),
    ensures
        contribution(lkey, rkeys, l, join_type, expand_dup).len() <= if m > 1 {
            m
        } else {
            1
        },
{
    if is_matched(lkey, rkeys) {
        let h = all_hits(rkeys, lkey->0);
        assert(h.len() <= m);
    }
}

/// The output of `n` left rows has at most `n * max(1, max_dup)` rows.
proof fn lemma_output_bound(
    lkeys: Seq<Option<Seq<char>>>,
    rkeys: Seq<Option<Seq<char>>>,
    join_type: JoinType,
    expand_dup: bool,
    n: int,
    m: nat,
)
    requires
        n >= 0,
        is_max_dup(rkeys, m),
    ensures
        join_rows_upto(lkeys, rkeys, join_type, expand_dup, n).len() <= n * (if m > 1 {
            m
        } else {
            1
        }),
    decreases n,
{
    if n > 0 {
        lemma_output_bound(lkeys, rkeys, join_type, expand_dup, n - 1, m);
        lemma_contribution_len(lkeys[n - 1], rkeys, n - 1, join_type, expand_dup, m);
        let c: int = if m > 1 {
            m as int
        } else {
            1
        };
        assert((n - 1) * c + c == n * c) by (nonlinear_arith);
    }
}

// ---------------------------------------------------------------------------
// Time measurement
// ---------------------------------------------------------------------------

#[verifier::external_type_specification]
#[verifier::external_body]
pub struct ExInstant(Instant);

/// `Instant::now()`; nothing is stated of the time it reads.
#[verifier::external_body]
fn now() -> Instant {
    Instant::now()
}

/// `Instant::elapsed`; nothing is stated of the time it measures.
#[verifier::external_body]
fn elapsed(start: &Instant) -> Duration {
    start.elapsed()
}

/// `Duration::saturating_add`; no view of durations is kept, so nothing is stated.
#[verifier::external_body]
fn add_duration(a: Duration, b: Duration) -> Duration {
    a.saturating_add(b)
}

/// `Duration::ZERO`; no view of durations is kept, so nothing is stated.
#[verifier::external_body]
fn zero_duration() -> Duration {
    Duration::ZERO
}

impl Default for JoinTimings {
    fn default() -> (t: Self)
        ensures
            t.estimate is None,
    {
        JoinTimings {
            index: zero_duration(),
            preflight: zero_duration(),
            probe: zero_duration(),
            materialize: zero_duration(),
            total: zero_duration(),
            estimate: None,
        }
    }
}

// ---------------------------------------------------------------------------
// Estimate and join
// ---------------------------------------------------------------------------

/// Counts the output rows the join of `left` with the indexed right table produces.
fn estimate_with_index(
    index: &JoinIndex,
    left: &Table,
    lk: &[usize],
    join_type: JoinType,
    key: &mut String,
) -> (e: JoinEstimate)
    requires
        index.wf(),
    ensures
        e.output_rows == saturate(
            join_rows_upto(
                keys_of(left.rows@, lk@, index.mode_spec()),
                index.right_keys(),
                join_type,
                index.expand_spec(),
                left.rows@.len() as int,
            ).len(),
        ),
        e.max_dup == index.max_dup_spec(),
        e.distinct_keys == index.distinct_spec(),
{
    let mode = index.mode();
    let expand_dup = index.expand_dup();
    let ghost lkeys = keys_of(left.rows@, lk@, mode);
    let ghost rkeys = index.right_keys();
    let mut output_rows: usize = 0;
    let mut i: usize = 0;
    while i < left.rows.len()
        invariant
            index.wf(),
            mode == index.mode_spec(),
            expand_dup == index.expand_spec(),
            rkeys == index.right_keys(),
            lkeys == keys_of(left.rows@, lk@, mode),
            i <= left.rows@.len(),
            output_rows == saturate(join_rows_upto(lkeys, rkeys, join_type, expand_dup, i as int).len()),
        decreases left.rows@.len() - i,
    {
        let valid = write_key(left.rows[i].as_slice(), lk, mode, key);
        let matches = if valid {
            index.lookup(key.as_str())
        } else {
            None
        };
        assert(lkeys[i as int] == crate::keys::row_key_spec(left.rows@[i as int]@, lk@, mode));
        let ghost c = contribution(lkeys[i as int], rkeys, i as int, join_type, expand_dup);
        match matches {
            Some(m) => {
                let ghost h = all_hits(rkeys, key@);
                proof {
                    m.lemma_records(h, expand_dup);
                }
                let n = m.selected_count(expand_dup);
                assert(c.len() == n);
                output_rows = add_output_rows(output_rows, n);
            },
            None => {
                if join_type == JoinType::Left {
                    output_rows = add_output_rows(output_rows, 1);
                }
            },
        }
        i = i + 1;
    }
    JoinEstimate { output_rows, max_dup: index.max_dup(), distinct_keys: index.distinct_keys() }
}

/// Estimates the output row count of the join and the right table's duplicate keys.
/// The count matches the join's output: a left join counts each unmatched left row
/// once, an inner join does not; without expansion a matched left row counts once.
/// It saturates at `usize::MAX`.
pub fn estimate_join_rows(
    left: &Table,
    right: &Table,
    lk: &[usize],
    rk: &[usize],
    mode: KeyMode,
    join_type: JoinType,
    expand_dup: bool,
) -> (e: JoinEstimate)
    ensures
        e.output_rows == saturate(
            join_rows_upto(
                keys_of(left.rows@, lk@, mode),
                keys_of(right.rows@, rk@, mode),
                join_type,
                expand_dup,
                left.rows@.len() as int,
            ).len(),
        ),
        is_max_dup(keys_of(right.rows@, rk@, mode), e.max_dup as nat),
        e.distinct_keys == distinct_upto(
            keys_of(right.rows@, rk@, mode),
            right.rows@.len() as int,
        ),
{
    let index = JoinIndex::build(right, rk, mode, expand_dup);
    let mut key = String::new();
    estimate_with_index(&index, left, lk, join_type, &mut key)
}


/// A table's keys have one greatest duplicate count.
pub proof fn lemma_max_dup_unique(keys: Seq<Option<Seq<char>>>, m1: nat, m2: nat)
    requires
        is_max_dup(keys, m1),
        is_max_dup(keys, m2),
    ensures
        m1 == m2,
{
    if m1 < m2 {
        let k = choose|k: Seq<char>| (#[trigger] all_hits(keys, k)).len() == m2;
        assert(all_hits(keys, k).len() <= m1);
    }
    if m2 < m1 {
        let k = choose|k: Seq<char>| (#[trigger] all_hits(keys, k)).len() == m1;
        assert(all_hits(keys, k).len() <= m2);
    }
}

/// The estimate is made (and the row limit checked against it) only when the upper
/// bound `left rows * max(1, max_dup)` exceeds the limit.
pub open spec fn needs_estimate(left_rows: nat, max_dup: nat, limit: Option<usize>) -> bool {
    match limit {
        Some(l) => saturate(left_rows * (if max_dup > 1 {
            max_dup
        } else {
            1
        })) > l,
        None => false,
    }
}

fn push_headers(out: &mut Vec<String>, headers: &Vec<String>, cols: &Vec<usize>)
    requires
        forall|i: int| 0 <= i < cols@.len() ==> #[trigger] cols@[i] < headers@.len(),
    ensures
        final(out)@ == old(out)@ + picked_headers(headers@, cols@),
{
    let mut i: usize = 0;
    while i < cols.len()
        invariant
            i <= cols@.len(),
            forall|j: int| 0 <= j < cols@.len() ==> #[trigger] cols@[j] < headers@.len(),
            out@ == old(out)@ + picked_headers(headers@, cols@.take(i as int)),
        decreases cols@.len() - i,
    {
        let h = headers[cols[i]].clone();
        out.push(h);
        assert(picked_headers(headers@, cols@.take(i as int + 1)) == picked_headers(
            headers@,
            cols@.take(i as int),
        ).push(headers@[cols@[i as int] as int]));
        i = i + 1;
    }
    assert(cols@.take(cols@.len() as int) == cols@);
}

proof fn lemma_resolve_bounds(left_pick: Option<Seq<usize>>, n: nat)
    ensures
        forall|i: int|
            0 <= i < resolve_left_pick_spec(left_pick, n).len() ==> #[trigger] resolve_left_pick_spec(
                left_pick,
                n,
            )[i] < n,
{
    match left_pick {
        None => {},
        Some(cols) => lemma_valid_columns(cols, n),
    }
}

proof fn lemma_push_row(rows: Seq<JoinedRow>, x: JoinedRow, n: int)
    ensures
        hit_count(rows.push(x)) == hit_count(rows) + if x.right_row != UNMATCHED_RIGHT_ROW {
            1nat
        } else {
            0nat
        },
        forall|r: int| #[trigger] uses(rows.push(x), r) == (uses(rows, r) || x.right_row as int == r),
{
    assert(rows.push(x).drop_last() == rows);
    assert forall|r: int| #[trigger] uses(rows.push(x), r) == (uses(rows, r) || x.right_row as int == r) by {
        let p = rows.push(x);
        if uses(rows, r) {
            let i = choose|i: int| 0 <= i < rows.len() && (#[trigger] rows[i]).right_row as int == r;
            assert(p[i] == rows[i]);
        }
        if x.right_row as int == r {
            assert(p[rows.len() as int] == x);
        }
        if uses(p, r) {
            let i = choose|i: int| 0 <= i < p.len() && (#[trigger] p[i]).right_row as int == r;
            if i < rows.len() {
                assert(p[i] == rows[i]);
            }
        }
    }
}

/// The join; `max_output_rows` bounds the output row count, `collect_timings` records
/// stage timings.
fn run_join(
    left: &Table,
    right: &Table,
    spec: &JoinSpec,
    max_output_rows: Option<usize>,
    collect_timings: bool,
) -> (r: Result<(JoinResult, JoinTimings), JoinLimitExceeded>)
    requires
        left.rows@.len() <= u32::MAX,
        right.rows@.len() <= u32::MAX,
    ensures
        match r {
            Ok((res, timings)) => {
                &&& is_join_result(res, *left, *right, *spec)
                &&& (max_output_rows matches Some(l) ==> join_output(*left, *right, *spec).len() <= l)
                &&& (timings.estimate matches Some(e) ==> is_estimate_of(e, *left, *right, *spec))
                &&& (forall|m: nat|
                    is_max_dup(right_keys_of(*right, *spec), m) ==> (timings.estimate is Some <==> needs_estimate(
                        left.rows@.len(),
                        m,
                        max_output_rows,
                    )))
            },
            Err(e) => {
                &&& max_output_rows matches Some(l)
                &&& join_output(*left, *right, *spec).len() > l
                &&& is_estimate_of(e.estimate, *left, *right, *spec)
                &&& e.timings.estimate == Some(e.estimate)
            },
        },
{
    let ghost lkeys = left_keys_of(*left, *spec);
    let ghost rkeys = right_keys_of(*right, *spec);
    let ghost out_spec = join_output(*left, *right, *spec);
    let started = now();
    let index_started = now();
    let index = JoinIndex::build(right, spec.right_keys.as_slice(), spec.key_mode, spec.expand_dup);
    let mut timings = JoinTimings::default();
    timings.index = elapsed(&index_started);
    let mut left_key = String::new();

    let ghost m = index.max_dup_spec();
    let max_dup = index.max_dup();
    let bound_factor = if max_dup > 1 {
        max_dup
    } else {
        1
    };
    let bound = saturating_product(left.rows.len(), bound_factor);
    proof {
        lemma_output_bound(lkeys, rkeys, spec.join_type, spec.expand_dup, lkeys.len() as int, m);
    }
    let estimate_needed = match max_output_rows {
        Some(limit) => bound > limit,
        None => false,
    };
    let mut estimated_output: Option<usize> = None;
    if estimate_needed {
        let limit = max_output_rows.unwrap();
        let preflight_started = now();
        let estimate = estimate_with_index(&index, left, spec.left_keys.as_slice(), spec.join_type, &mut left_key);
        timings.preflight = elapsed(&preflight_started);
        timings.estimate = Some(estimate);
        if estimate.output_rows > limit {
            timings.total = elapsed(&started);
            return Err(JoinLimitExceeded { estimate, timings });
        }
        estimated_output = Some(estimate.output_rows);
    }

    let rp_valid = filter_columns(spec.right_pick.as_slice(), right.col_count());
    let lp_valid = spec.resolved_left_pick(left.col_count());
    proof {
        lemma_valid_columns(spec.right_pick@, right.headers@.len());
        lemma_resolve_bounds(opt_vec_view(spec.left_pick), left.headers@.len());
    }
    let mut headers: Vec<String> = Vec::new();
    push_headers(&mut headers, &left.headers, &lp_valid);
    push_headers(&mut headers, &right.headers, &rp_valid);
    proof {
        assert(Seq::<String>::empty() + picked_headers(left.headers@, lp_valid@) == picked_headers(
            left.headers@,
            lp_valid@,
        ));
    }

    let mut joined_rows: Vec<JoinedRow> = Vec::new();
    let reserve_rows = match estimated_output {
        Some(rows) => Some(rows),
        None => {
            let one_row_per_left = spec.join_type == JoinType::Left && (!spec.expand_dup
                || max_output_rows.is_some());
            if one_row_per_left {
                Some(left.rows.len())
            } else {
                None
            }
        },
    };
    if let Some(rows) = reserve_rows {
        if rows < usize::MAX {
            joined_rows.reserve(rows);
        }
    }

    let mut left_matched: usize = 0;
    let mut matched_rows: usize = 0;
    let mut right_used: Vec<bool> = Vec::new();
    let mut k: usize = 0;
    while k < right.rows.len()
        invariant
            k <= right.rows@.len(),
            right_used@ == Seq::new(k as nat, |i: int| false),
        decreases right.rows@.len() - k,
    {
        right_used.push(false);
        k = k + 1;
    }
    let measure = collect_timings;
    let mut probe_time = zero_duration();
    let mut materialize_time = zero_duration();
    let mode = spec.key_mode;
    let expand_dup = spec.expand_dup;
    let join_type = spec.join_type;

    let mut li: usize = 0;
    while li < left.rows.len()
        invariant
            index.wf(),
            index.mode_spec() == mode,
            index.expand_spec() == expand_dup,
            index.right_keys() == rkeys,
            mode == spec.key_mode,
            expand_dup == spec.expand_dup,
            join_type == spec.join_type,
            lkeys == keys_of(left.rows@, spec.left_keys@, mode),
            rkeys == keys_of(right.rows@, spec.right_keys@, mode),
            left.rows@.len() <= u32::MAX,
            right.rows@.len() <= u32::MAX,
            li <= left.rows@.len(),
            joined_rows@ == join_rows_upto(lkeys, rkeys, join_type, expand_dup, li as int),
            left_matched == matched_upto(lkeys, rkeys, li as int),
            matched_rows == hit_count(joined_rows@),
            right_used@.len() == right.rows@.len(),
            forall|r: int| 0 <= r < right.rows@.len() ==> #[trigger] right_used@[r] == uses(joined_rows@, r),
        decreases left.rows@.len() - li,
    {
        let probe_started = if measure {
            Some(now())
        } else {
            None
        };
        let valid = write_key(left.rows[li].as_slice(), spec.left_keys.as_slice(), mode, &mut left_key);
        let hit = if valid {
            index.lookup(left_key.as_str())
        } else {
            None
        };
        if let Some(start) = probe_started {
            probe_time = add_duration(probe_time, elapsed(&start));
        }
        assert(lkeys[li as int] == crate::keys::row_key_spec(left.rows@[li as int]@, spec.left_keys@, mode));
        let ghost base = joined_rows@;
        let ghost c = contribution(lkeys[li as int], rkeys, li as int, join_type, expand_dup);
        proof {
            lemma_matched_bound(lkeys, rkeys, li as int);
        }
        match hit {
            Some(matches) => {
                let ghost h = all_hits(rkeys, left_key@);
                let ghost sel = selected_hits(h, expand_dup);
                proof {
                    matches.lemma_records(h, expand_dup);
                    crate::index::lemma_hits_bounds(rkeys, left_key@, rkeys.len() as int);
                }
                left_matched = left_matched + 1;
                let n = matches.selected_count(expand_dup);
                let mut j: usize = 0;
                while j < n
                    invariant
                        n == sel.len(),
                        sel == matches.selected_spec(expand_dup),
                        sel == selected_hits(h, expand_dup),
                        h == all_hits(rkeys, left_key@),
                        expand_dup ==> sel == h,
                        !expand_dup ==> sel == h.take(1) && h.len() >= 1,
                        matches.records(h, expand_dup),
                        forall|i: int| 0 <= i < h.len() ==> (#[trigger] h[i]) < rkeys.len(),
                        rkeys.len() == right.rows@.len(),
                        right.rows@.len() <= u32::MAX,
                        left.rows@.len() <= u32::MAX,
                        li < left.rows@.len(),
                        j <= n,
                        joined_rows@ == base + sel.take(j as int).map_values(
                            |r: usize| JoinedRow { left_row: li as u32, right_row: r as u32 },
                        ),
                        matched_rows == hit_count(joined_rows@),
                        right_used@.len() == right.rows@.len(),
                        forall|r: int|
                            0 <= r < right.rows@.len() ==> #[trigger] right_used@[r] == uses(joined_rows@, r),
                    decreases n - j,
                {
                    let right_index = matches.selected_row(expand_dup, j);
                    assert(sel[j as int] == h[j as int]) by {
                        if !expand_dup {
                            assert(sel[j as int] == h.take(1)[j as int]);
                        }
                    }
                    assert(right_index < right.rows@.len());
                    let ghost before = joined_rows@;
                    right_used.set(right_index, true);
                    let reference_started = if measure {
                        Some(now())
                    } else {
                        None
                    };
                    let row = JoinedRow { left_row: li as u32, right_row: right_index as u32 };
                    joined_rows.push(row);
                    let _cur_len = joined_rows.len();
                    proof {
                        lemma_push_row(before, row, 0);
                        lemma_hit_count_bound(before);
                        assert(sel.take(j as int + 1) == sel.take(j as int).push(right_index));
                        assert(sel.take(j as int + 1).map_values(
                            |r: usize| JoinedRow { left_row: li as u32, right_row: r as u32 },
                        ) == sel.take(j as int).map_values(
                            |r: usize| JoinedRow { left_row: li as u32, right_row: r as u32 },
                        ).push(row));
                        assert forall|r: int| 0 <= r < right.rows@.len() implies #[trigger] right_used@[r]
                            == uses(joined_rows@, r) by {
                            if r == right_index as int {
                                assert(row.right_row as int == r);
                            }
                        }
                    }
                    matched_rows = matched_rows + 1;
                    if let Some(start) = reference_started {
                        materialize_time = add_duration(materialize_time, elapsed(&start));
                    }
                    j = j + 1;
                }
                proof {
                    assert(sel.take(n as int) == sel);
                }
            },
            None => {
                if join_type == JoinType::Left {
                    let reference_started = if measure {
                        Some(now())
                    } else {
                        None
                    };
                    let row = JoinedRow { left_row: li as u32, right_row: UNMATCHED_RIGHT_ROW };
                    joined_rows.push(row);
                    proof {
                        lemma_push_row(base, row, 0);
                        assert forall|r: int| 0 <= r < right.rows@.len() implies #[trigger] right_used@[r]
                            == uses(joined_rows@, r) by {}
                    }
                    if let Some(start) = reference_started {
                        materialize_time = add_duration(materialize_time, elapsed(&start));
                    }
                } else {
                    assert(c =~= Seq::<JoinedRow>::empty());
                }
            },
        }
        assert(joined_rows@ == join_rows_upto(lkeys, rkeys, join_type, expand_dup, li as int + 1));
        li = li + 1;
    }

    timings.probe = probe_time;
    timings.materialize = materialize_time;
    timings.total = elapsed(&started);

    let mut right_matched_rows: usize = 0;
    let mut r: usize = 0;
    while r < right_used.len()
        invariant
            r <= right_used@.len(),
            right_used@.len() == right.rows@.len(),
            forall|q: int| 0 <= q < right.rows@.len() ==> #[trigger] right_used@[q] == uses(joined_rows@, q),
            right_matched_rows == used_count(joined_rows@, r as int),
            right_matched_rows <= r,
        decreases right_used@.len() - r,
    {
        if right_used[r] {
            right_matched_rows = right_matched_rows + 1;
        }
        r = r + 1;
    }
    let out_rows = joined_rows.len();
    proof {
        assert forall|m2: nat| is_max_dup(rkeys, m2) implies (timings.estimate is Some <==> needs_estimate(
            left.rows@.len(),
            m2,
            max_output_rows,
        )) by {
            lemma_max_dup_unique(rkeys, m, m2);
        }
        if let Some(l) = max_output_rows {
            assert(out_rows as nat == out_spec.len());
        }
    }
    let left_total = left.rows.len();
    let right_total = right.rows.len();
    let result = JoinResult {
        table: JoinedTable { headers, rows: joined_rows, left_pick: lp_valid, right_pick: rp_valid },
        left_total,
        left_matched,
        right_total,
        right_matched_rows,
        out_rows,
        matched_rows,
    };
    Ok((result, timings))
}

/// Join with an output row limit: refused (with the estimate) when the output would
/// exceed `max_output_rows`.
pub fn join_with_limit(left: &Table, right: &Table, spec: &JoinSpec, max_output_rows: Option<usize>) -> (r:
    Result<JoinResult, JoinLimitExceeded>)
    requires
        left.rows@.len() <= u32::MAX,
        right.rows@.len() <= u32::MAX,
    ensures
        match r {
            Ok(res) => {
                &&& is_join_result(res, *left, *right, *spec)
                &&& (max_output_rows matches Some(l) ==> join_output(*left, *right, *spec).len() <= l)
            },
            Err(e) => {
                &&& max_output_rows matches Some(l)
                &&& join_output(*left, *right, *spec).len() > l
                &&& is_estimate_of(e.estimate, *left, *right, *spec)
            },
        },
{
    match run_join(left, right, spec, max_output_rows, false) {
        Ok((result, _)) => Ok(result),
        Err(e) => Err(e),
    }
}

/// Join that also records stage timings; no output limit.
pub fn join_with_metrics(left: &Table, right: &Table, spec: &JoinSpec) -> (r: (JoinResult, JoinTimings))
    requires
        left.rows@.len() <= u32::MAX,
        right.rows@.len() <= u32::MAX,
    ensures
        is_join_result(r.0, *left, *right, *spec),
        r.1.estimate is None,
{
    run_join(left, right, spec, None, true).expect("no output limit is set")
}

/// Join with an output row limit that also records stage timings.
pub fn join_with_limit_metrics(
    left: &Table,
    right: &Table,
    spec: &JoinSpec,
    max_output_rows: Option<usize>,
) -> (r: Result<(JoinResult, JoinTimings), JoinLimitExceeded>)
    requires
        left.rows@.len() <= u32::MAX,
        right.rows@.len() <= u32::MAX,
    ensures
        match r {
            Ok((res, timings)) => {
                &&& is_join_result(res, *left, *right, *spec)
                &&& (max_output_rows matches Some(l) ==> join_output(*left, *right, *spec).len() <= l)
                &&& (timings.estimate matches Some(e) ==> is_estimate_of(e, *left, *right, *spec))
                &&& (forall|m: nat|
                    is_max_dup(right_keys_of(*right, *spec), m) ==> (timings.estimate is Some <==> needs_estimate(
                        left.rows@.len(),
                        m,
                        max_output_rows,
                    )))
            },
            Err(e) => {
                &&& max_output_rows matches Some(l)
                &&& join_output(*left, *right, *spec).len() > l
                &&& is_estimate_of(e.estimate, *left, *right, *spec)
                &&& e.timings.estimate == Some(e.estimate)
            },
        },
{
    run_join(left, right, spec, max_output_rows, true)
}

/// Join without an output limit.
pub fn join(left: &Table, right: &Table, spec: &JoinSpec) -> (r: JoinResult)
    requires
        left.rows@.len() <= u32::MAX,
        right.rows@.len() <= u32::MAX,
    ensures
        is_join_result(r, *left, *right, *spec),
{
    run_join(left, right, spec, None, false).expect("no output limit is set").0
}

} // verus!
