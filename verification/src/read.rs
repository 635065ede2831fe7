//! From a sheet's used area to a table: which row names the columns, the column
//! names themselves, and the data rows below them.

use vstd::prelude::*;

use crate::model::{CellValue, Table};
use crate::text::{decimal_spec, is_blank, push_char, push_decimal, trim_spec};

verus! {

broadcast use vstd::std_specs::vec::axiom_spec_into_iter;

/// How many rows at the top of the used area the preview lists.
pub const PREVIEW_ROWS: usize = 8;

/// Options for reading a sheet.
#[derive(Clone, Copy, Debug, PartialEq, Eq, Structural)]
pub struct ReadOptions {
    /// Row of the used area (0-based) that names the columns; `None` picks the first
    /// row with a non-empty cell. A row past the end, or one with no non-empty cell,
    /// falls back to that automatic choice.
    pub header_row: Option<usize>,
    /// Whether to hand back the texts of the rows at the top of the used area.
    pub preview: bool,
}

impl Default for ReadOptions {
    fn default() -> (o: Self)
        ensures
            o.header_row is None,
            !o.preview,
    {
        ReadOptions { header_row: None, preview: false }
    }
}

/// One cell of the used area as the reader hands it over.
#[derive(Debug)]
pub struct RawCell {
    /// The value the table keeps for the cell.
    pub value: CellValue,
    /// The text the cell shows (integral numbers without a fractional part).
    pub text: String,
    /// Whether the sheet holds anything in the cell; an error cell counts, though
    /// its value is empty.
    pub non_empty: bool,
}

/// The used area of a sheet: its rows, its width, and the sheet row it starts at.
#[derive(Debug)]
pub struct SheetRange {
    pub rows: Vec<Vec<RawCell>>,
    pub width: usize,
    /// 0-based sheet row of the first row of the area, `None` for an empty area.
    pub start_row: Option<u32>,
}

/// A sheet read into a table, with what a caller needs to pick another header row.
#[derive(Debug, Clone)]
pub struct SheetTable {
    /// Name of the sheet.
    pub name: String,
    /// The table built with the chosen header row.
    pub table: Table,
    /// Texts of the first [`PREVIEW_ROWS`] rows of the used area, header row included.
    pub preview: Vec<Vec<String>>,
    /// The row the automatic choice finds; `None` when every row is empty.
    pub auto_header_row: Option<usize>,
    /// The row that named the columns.
    pub used_header_row: Option<usize>,
    /// 1-based sheet row number of the first row of the used area.
    pub first_row_number: usize,
}

impl Default for SheetTable {
    fn default() -> (s: Self)
        ensures
            s.name@.len() == 0,
            s.table.headers@.len() == 0,
            s.table.rows@.len() == 0,
            s.preview@.len() == 0,
            s.auto_header_row is None,
            s.used_header_row is None,
            s.first_row_number == 0,
    {
        SheetTable {
            name: String::new(),
            table: Table::default(),
            preview: Vec::new(),
            auto_header_row: None,
            used_header_row: None,
            first_row_number: 0,
        }
    }
}

/// Whether a row holds a non-empty cell.
pub open spec fn row_non_empty(row: Seq<RawCell>) -> bool {
    exists|j: int| 0 <= j < row.len() && #[trigger] row[j].non_empty
}

/// The first row at or after `k` that holds a non-empty cell.
pub open spec fn first_non_empty(rows: Seq<Vec<RawCell>>, k: int) -> Option<int>
    decreases rows.len() - k,
{
    if k < 0 || k >= rows.len() {
        None
    } else if row_non_empty(rows[k]@) {
        Some(k)
    } else {
        first_non_empty(rows, k + 1)
    }
}

/// The header row: the wanted one when it exists and is not empty, else the first
/// non-empty row.
pub open spec fn chosen_header(rows: Seq<Vec<RawCell>>, wanted: Option<usize>) -> Option<int> {
    if wanted is Some && wanted.unwrap() < rows.len() && row_non_empty(
        rows[wanted.unwrap() as int]@,
    ) {
        Some(wanted.unwrap() as int)
    } else {
        first_non_empty(rows, 0)
    }
}

/// Text of column `i` in row `h`, empty past the end of the row.
pub open spec fn header_text(rows: Seq<Vec<RawCell>>, h: int, i: int) -> Seq<char> {
    if i < rows[h]@.len() {
        rows[h]@[i].text@
    } else {
        Seq::empty()
    }
}

/// A blank name becomes `列` followed by the 1-based column number.
pub open spec fn filled_name(raw: Seq<char>, i: int) -> Seq<char> {
    if trim_spec(raw).len() == 0 {
        seq!['列'] + decimal_spec((i + 1) as nat)
    } else {
        raw
    }
}

/// How many of the first `n` names equal `x`.
pub open spec fn count_equal(names: Seq<Seq<char>>, x: Seq<char>, n: int) -> nat
    decreases n,
{
    if n <= 0 {
        0
    } else {
        count_equal(names, x, n - 1) + (if names[n - 1] == x {
            1nat
        } else {
            0nat
        })
    }
}

/// Name `i` made distinct: a name seen `c > 0` times before it gets `_` and `c + 1`.
pub open spec fn deduped_name(names: Seq<Seq<char>>, i: int) -> Seq<char> {
    let c = count_equal(names, names[i], i);
    if c > 0 {
        names[i] + seq!['_'] + decimal_spec(c + 1)
    } else {
        names[i]
    }
}

/// Column names from their raw texts: blanks filled, repeats numbered.
pub open spec fn named_columns(raw: Seq<Seq<char>>) -> Seq<Seq<char>> {
    let filled = Seq::new(raw.len(), |i: int| filled_name(raw[i], i));
    Seq::new(raw.len(), |i: int| deduped_name(filled, i))
}

/// The column names read from row `h`, `width` of them.
pub open spec fn column_names(rows: Seq<Vec<RawCell>>, h: int, width: nat) -> Seq<Seq<char>> {
    named_columns(Seq::new(width, |i: int| header_text(rows, h, i)))
}

/// The values of a row's cells.
pub open spec fn row_values(row: Seq<RawCell>) -> Seq<CellValue> {
    row.map_values(|c: RawCell| c.value)
}

/// The data rows among the rows after `h` and before `n`: those holding a non-empty cell.
pub open spec fn kept_rows(rows: Seq<Vec<RawCell>>, h: int, n: int) -> Seq<Seq<CellValue>>
    decreases n - h,
{
    if n <= h + 1 {
        Seq::empty()
    } else if row_non_empty(rows[n - 1]@) {
        kept_rows(rows, h, n - 1).push(row_values(rows[n - 1]@))
    } else {
        kept_rows(rows, h, n - 1)
    }
}

/// The texts of the first [`PREVIEW_ROWS`] rows.
pub open spec fn preview_rows(rows: Seq<Vec<RawCell>>) -> Seq<Seq<Seq<char>>> {
    let n = if rows.len() < PREVIEW_ROWS {
        rows.len()
    } else {
        PREVIEW_ROWS as nat
    };
    Seq::new(n, |r: int| row_texts(rows[r]@))
}

/// The texts of a row's cells.
pub open spec fn row_texts(row: Seq<RawCell>) -> Seq<Seq<char>> {
    row.map_values(|c: RawCell| c.text@)
}

/// A grid of strings as sequences of texts.
pub open spec fn texts_view(v: Seq<Vec<String>>) -> Seq<Seq<Seq<char>>> {
    v.map_values(|r: Vec<String>| names_view(r@))
}

/// Strings as texts.
pub open spec fn names_view(v: Seq<String>) -> Seq<Seq<char>> {
    v.map_values(|s: String| s@)
}

/// Rows of cells as sequences.
pub open spec fn cells_view(v: Seq<Vec<CellValue>>) -> Seq<Seq<CellValue>> {
    v.map_values(|r: Vec<CellValue>| r@)
}

/// An optional row number as an integer.
pub open spec fn row_opt(o: Option<usize>) -> Option<int> {
    match o {
        Some(k) => Some(k as int),
        None => None,
    }
}

/// 1-based sheet row number of the area's first row (1 when the area has none).
pub open spec fn first_row_number_spec(start_row: Option<u32>) -> int {
    match start_row {
        Some(r) => r + 1,
        None => 1,
    }
}

proof fn lemma_first_non_empty(rows: Seq<Vec<RawCell>>, k: int)
    requires
        0 <= k,
    ensures
        first_non_empty(rows, k) matches Some(j) ==> k <= j < rows.len() && row_non_empty(rows[j]@),
    decreases rows.len() - k,
{
    if k < rows.len() && !row_non_empty(rows[k]@) {
        lemma_first_non_empty(rows, k + 1);
    }
}

fn row_has_value(row: &Vec<RawCell>) -> (r: bool)
    ensures
        r == row_non_empty(row@),
{
    let mut j: usize = 0;
    while j < row.len()
        invariant
            j <= row@.len(),
            forall|k: int| 0 <= k < j ==> !(#[trigger] row@[k]).non_empty,
        decreases row@.len() - j,
    {
        if row[j].non_empty {
            return true;
        }
        j = j + 1;
    }
    false
}

fn first_non_empty_row(rows: &Vec<Vec<RawCell>>) -> (r: Option<usize>)
    ensures
        row_opt(r) == first_non_empty(rows@, 0),
{
    let mut k: usize = 0;
    while k < rows.len()
        invariant
            k <= rows@.len(),
            first_non_empty(rows@, 0) == first_non_empty(rows@, k as int),
        decreases rows@.len() - k,
    {
        if row_has_value(&rows[k]) {
            return Some(k);
        }
        k = k + 1;
    }
    None
}

fn preview_of(rows: &Vec<Vec<RawCell>>) -> (p: Vec<Vec<String>>)
    ensures
        texts_view(p@) == preview_rows(rows@),
        p@.len() <= PREVIEW_ROWS,
{
    let n = if rows.len() < PREVIEW_ROWS {
        rows.len()
    } else {
        PREVIEW_ROWS
    };
    let ghost want = preview_rows(rows@);
    let mut p: Vec<Vec<String>> = Vec::new();
    let mut r: usize = 0;
    while r < n
        invariant
            n <= rows@.len(),
            n == want.len(),
            want == preview_rows(rows@),
            r <= n,
            texts_view(p@) == want.take(r as int),
            p@.len() == r,
        decreases n - r,
    {
        let row = &rows[r];
        let mut texts: Vec<String> = Vec::new();
        let mut c: usize = 0;
        while c < row.len()
            invariant
                c <= row@.len(),
                row@ == rows@[r as int]@,
                names_view(texts@) == row_texts(row@).take(c as int),
            decreases row@.len() - c,
        {
            let ghost old_texts = texts@;
            texts.push(row[c].text.clone());
            proof {
                lemma_names_push(old_texts, row@[c as int].text);
                lemma_take_push(row_texts(row@), c as int);
            }
            c = c + 1;
        }
        assert(row_texts(row@).take(row@.len() as int) == row_texts(row@));
        let ghost old_p = p@;
        p.push(texts);
        proof {
            lemma_texts_push(old_p, texts);
            lemma_take_push(want, r as int);
        }
        r = r + 1;
    }
    p
}

/// Column names from their raw texts: a blank name (only whitespace) becomes `列n`,
/// n the 1-based column number, and a name that came before gets `_` and its running
/// count (`id`, `id` gives `id`, `id_2`).
pub fn name_columns(raw: Vec<String>) -> (names: Vec<String>)
    ensures
        names_view(names@) == named_columns(names_view(raw@)),
{
    let width = raw.len();
    let ghost rv = names_view(raw@);
    let ghost filled_spec = Seq::new(width as nat, |i: int| filled_name(rv[i], i));
    let mut filled: Vec<String> = Vec::new();
    let mut i: usize = 0;
    while i < width
        invariant
            i <= width,
            width == raw@.len(),
            rv == names_view(raw@),
            filled_spec == Seq::new(width as nat, |i: int| filled_name(rv[i], i)),
            names_view(filled@) == filled_spec.take(i as int),
        decreases width - i,
    {
        let name = if is_blank(raw[i].as_str()) {
            let mut n = String::new();
            push_char(&mut n, '列');
            push_decimal(&mut n, i + 1);
            n
        } else {
            raw[i].clone()
        };
        let ghost old_filled = filled@;
        filled.push(name);
        proof {
            lemma_names_push(old_filled, name);
            lemma_take_push(filled_spec, i as int);
        }
        i = i + 1;
    }
    assert(filled_spec.take(width as int) == filled_spec);
    let ghost want = named_columns(rv);
    let mut names: Vec<String> = Vec::new();
    let mut i: usize = 0;
    while i < width
        invariant
            i <= width,
            filled@.len() == width,
            names_view(filled@) == filled_spec,
            filled_spec.len() == width,
            want == Seq::new(width as nat, |k: int| deduped_name(filled_spec, k)),
            names_view(names@) == want.take(i as int),
        decreases width - i,
    {
        let mut count: usize = 0;
        let mut j: usize = 0;
        while j < i
            invariant
                j <= i < width,
                filled@.len() == width,
                names_view(filled@) == filled_spec,
                count == count_equal(filled_spec, filled_spec[i as int], j as int),
                count <= j,
            decreases i - j,
        {
            assert(filled@[j as int]@ == filled_spec[j as int]);
            assert(filled@[i as int]@ == filled_spec[i as int]);
            if filled[j] == filled[i] {
                count = count + 1;
            }
            j = j + 1;
        }
        let name = if count > 0 {
            let mut n = filled[i].clone();
            push_char(&mut n, '_');
            push_decimal(&mut n, count + 1);
            assert(n@ == filled_spec[i as int] + seq!['_'] + decimal_spec((count + 1) as nat));
            n
        } else {
            filled[i].clone()
        };
        assert(filled@[i as int]@ == filled_spec[i as int]);
        assert(name@ == want[i as int]);
        let ghost old_names = names@;
        names.push(name);
        proof {
            lemma_names_push(old_names, name);
            lemma_take_push(want, i as int);
        }
        i = i + 1;
    }
    assert(want.take(width as int) == want);
    names
}

/// The column names read from row `h` of the area, `width` of them (see
/// [`name_columns`]); a column past the end of the row has a blank name.
pub fn column_names_of(rows: &Vec<Vec<RawCell>>, h: usize, width: usize) -> (names: Vec<String>)
    requires
        h < rows@.len(),
    ensures
        names_view(names@) == column_names(rows@, h as int, width as nat),
{
    let hrow = &rows[h];
    let ghost want = Seq::new(width as nat, |i: int| header_text(rows@, h as int, i));
    let mut raw: Vec<String> = Vec::new();
    let mut i: usize = 0;
    while i < width
        invariant
            i <= width,
            h < rows@.len(),
            hrow@ == rows@[h as int]@,
            want == Seq::new(width as nat, |i: int| header_text(rows@, h as int, i)),
            names_view(raw@) == want.take(i as int),
        decreases width - i,
    {
        let text = if i < hrow.len() {
            hrow[i].text.clone()
        } else {
            String::new()
        };
        let ghost old_raw = raw@;
        raw.push(text);
        proof {
            lemma_names_push(old_raw, text);
            lemma_take_push(want, i as int);
        }
        i = i + 1;
    }
    assert(want.take(width as int) == want);
    name_columns(raw)
}

/// The sheet read from its used area with the given options.
///
/// An area with no rows or no columns gives the empty sheet. Otherwise the preview
/// holds the first rows' texts when asked for, the header row is the wanted one when
/// it lies inside the area and holds a non-empty cell, else the first such row; with
/// no such row the table stays empty. The columns are named from the header row
/// ([`column_names_of`]) and the data rows are the later rows that hold a non-empty
/// cell, kept in order with their values.
pub fn table_from_range(range: SheetRange, opts: ReadOptions) -> (s: SheetTable)
    requires
        range.start_row matches Some(r) ==> r + 1 <= usize::MAX,
    ensures
        s.name@.len() == 0,
        s.preview@.len() <= PREVIEW_ROWS,
        (range.width == 0 || range.rows@.len() == 0) ==> {
            &&& s.table.headers@.len() == 0
            &&& s.table.rows@.len() == 0
            &&& s.preview@.len() == 0
            &&& s.auto_header_row is None
            &&& s.used_header_row is None
            &&& s.first_row_number == 0
        },
        (range.width != 0 && range.rows@.len() != 0) ==> {
            &&& texts_view(s.preview@) == (if opts.preview {
                preview_rows(range.rows@)
            } else {
                Seq::empty()
            })
            &&& row_opt(s.auto_header_row) == first_non_empty(range.rows@, 0)
            &&& row_opt(s.used_header_row) == chosen_header(range.rows@, opts.header_row)
            &&& s.first_row_number == first_row_number_spec(range.start_row)
            &&& match chosen_header(range.rows@, opts.header_row) {
                Some(h) => {
                    &&& names_view(s.table.headers@) == column_names(
                        range.rows@,
                        h,
                        range.width as nat,
                    )
                    &&& cells_view(s.table.rows@) == kept_rows(
                        range.rows@,
                        h,
                        range.rows@.len() as int,
                    )
                },
                None => s.table.headers@.len() == 0 && s.table.rows@.len() == 0,
            }
        },
{
    let width = range.width;
    let height = range.rows.len();
    if width == 0 || height == 0 {
        return SheetTable::default();
    }
    let first_row_number = match range.start_row {
        Some(r) => r as usize + 1,
        None => 1,
    };
    let preview = if opts.preview {
        preview_of(&range.rows)
    } else {
        Vec::new()
    };
    let auto = first_non_empty_row(&range.rows);
    proof {
        lemma_first_non_empty(range.rows@, 0);
    }
    let header = match opts.header_row {
        Some(k) => {
            if k < height && row_has_value(&range.rows[k]) {
                Some(k)
            } else {
                auto
            }
        },
        None => auto,
    };
    let h = match header {
        Some(h) => h,
        None => {
            return SheetTable {
                name: String::new(),
                table: Table::default(),
                preview,
                auto_header_row: None,
                used_header_row: None,
                first_row_number,
            };
        },
    };
    let headers = column_names_of(&range.rows, h, width);
    let ghost rows = range.rows@;
    let mut data: Vec<Vec<CellValue>> = Vec::new();
    let mut ri: usize = 0;
    for row in it: range.rows.into_iter()
        invariant
            it.seq() == rows,
            ri == it.index(),
            ri <= rows.len(),
            rows.len() <= usize::MAX,
            h < rows.len(),
            cells_view(data@) == kept_rows(rows, h as int, ri as int),
    {
        assert(ri < rows.len());
        let keep = ri > h && row_has_value(&row);
        assert(row@ == rows[ri as int]@);
        if keep {
            let ghost cells = row@;
            let mut values: Vec<CellValue> = Vec::new();
            for cell in it2: row.into_iter()
                invariant
                    it2.seq() == cells,
                    values@ == row_values(cells).take(it2.index() as int),
            {
                values.push(cell.value);
                assert(values@ == row_values(cells).take(it2.index() as int + 1));
            }
            assert(row_values(cells).take(cells.len() as int) == row_values(cells));
            data.push(values);
            assert(cells_view(data@) == cells_view(data@.drop_last()).push(values@));
        }
        ri = ri + 1;
    }
    SheetTable {
        name: String::new(),
        table: Table { headers, rows: data },
        preview,
        auto_header_row: auto,
        used_header_row: Some(h),
        first_row_number,
    }
}

pub(crate) proof fn lemma_take_push<A>(s: Seq<A>, i: int)
    requires
        0 <= i < s.len(),
    ensures
        s.take(i + 1) == s.take(i).push(s[i]),
{
    assert(s.take(i + 1) =~= s.take(i).push(s[i]));
}

pub(crate) proof fn lemma_names_push(v: Seq<String>, x: String)
    ensures
        names_view(v.push(x)) == names_view(v).push(x@),
{
    assert(names_view(v.push(x)) =~= names_view(v).push(x@));
}

proof fn lemma_texts_push(v: Seq<Vec<String>>, x: Vec<String>)
    ensures
        texts_view(v.push(x)) == texts_view(v).push(names_view(x@)),
{
    assert(texts_view(v.push(x)) =~= texts_view(v).push(names_view(x@)));
}

} // verus!
