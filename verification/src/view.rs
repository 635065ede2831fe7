//! Decisions behind the workbench screens: the steps and sides shown, which result
//! rows a filter keeps, the header-row choices offered, the checks made before a join
//! runs, and what an oversized join is blamed on.

use vstd::prelude::*;

use crate::join::{
    has_output_columns_spec, filter_columns, opt_vec_view, valid_columns, JoinEstimate, JoinSpec, JoinType,
    JoinedRow, JoinedTable, KeyMode, UNMATCHED_RIGHT_ROW,
};
use crate::read::{lemma_names_push, lemma_take_push, name_columns, named_columns, names_view};
use crate::text::{chars_of, decimal_spec, push_chars, push_decimal, trim_bounds, trim_spec};
use vstd::string::StringExecFns;

verus! {

/// A data source: A is the main table, B the one looked up.
#[derive(Debug, Clone, Copy, PartialEq, Eq, Structural)]
pub enum Side {
    Left,
    Right,
}

impl Side {
    /// 0 for A, 1 for B.
    pub fn index(self) -> (i: usize)
        ensures
            i == (match self {
                Side::Left => 0usize,
                Side::Right => 1usize,
            }),
    {
        match self {
            Side::Left => 0,
            Side::Right => 1,
        }
    }

    /// The letter the side is shown by.
    pub fn letter(self) -> (s: &'static str)
        ensures
            s@ == (match self {
                Side::Left => "A"@,
                Side::Right => "B"@,
            }),
    {
        match self {
            Side::Left => "A",
            Side::Right => "B",
        }
    }
}

/// The three steps of the workbench.
#[derive(Debug, Clone, Copy, PartialEq, Eq, Structural)]
pub enum WorkflowStep {
    Sources,
    Configure,
    Result,
}

impl WorkflowStep {
    /// 1-based position of the step.
    pub fn number(self) -> (n: usize)
        ensures
            n == (match self {
                WorkflowStep::Sources => 1usize,
                WorkflowStep::Configure => 2usize,
                WorkflowStep::Result => 3usize,
            }),
    {
        match self {
            WorkflowStep::Sources => 1,
            WorkflowStep::Configure => 2,
            WorkflowStep::Result => 3,
        }
    }

    /// The small label above the step's title.
    pub fn eyebrow(self) -> (s: &'static str)
        ensures
            s@ == (match self {
                WorkflowStep::Sources => "第一步 · 数据源"@,
                WorkflowStep::Configure => "第二步 · 连接配置"@,
                WorkflowStep::Result => "第三步 · 结果预览"@,
            }),
    {
        match self {
            WorkflowStep::Sources => "第一步 · 数据源",
            WorkflowStep::Configure => "第二步 · 连接配置",
            WorkflowStep::Result => "第三步 · 结果预览",
        }
    }

    /// The step's title.
    pub fn title(self) -> (s: &'static str)
        ensures
            s@ == (match self {
                WorkflowStep::Sources => "先把要连接的两张表放在一起"@,
                WorkflowStep::Configure => "选择两张表如何对齐"@,
                WorkflowStep::Result => "检查结果，确认后导出"@,
            }),
    {
        match self {
            WorkflowStep::Sources => "先把要连接的两张表放在一起",
            WorkflowStep::Configure => "选择两张表如何对齐",
            WorkflowStep::Result => "检查结果，确认后导出",
        }
    }

    /// What the step asks of the user.
    pub fn description(self) -> (s: &'static str)
        ensures
            s@ == (match self {
                WorkflowStep::Sources => "文件只在本机读取，确认工作表后进入连接配置。"@,
                WorkflowStep::Configure => "选中匹配列，再确定需要带出的字段。"@,
                WorkflowStep::Result => "先看命中情况，再保存为新的工作簿。"@,
            }),
    {
        match self {
            WorkflowStep::Sources => "文件只在本机读取，确认工作表后进入连接配置。",
            WorkflowStep::Configure => "选中匹配列，再确定需要带出的字段。",
            WorkflowStep::Result => "先看命中情况，再保存为新的工作簿。",
        }
    }
}

/// Which result rows to show.
#[derive(Debug, Clone, Copy, PartialEq, Eq, Structural)]
pub enum RowFilter {
    /// Rows whose left row found a match.
    Matched,
    /// Rows whose left row found none.
    Unmatched,
}

/// The result rows left by a filter: every row, or the listed ones in ascending order.
#[derive(Debug, Clone)]
pub enum FilteredRows {
    All,
    List(Vec<usize>),
}

impl FilteredRows {
    /// The result rows shown, out of `total`.
    pub open spec fn visible(self, total: nat) -> Seq<usize> {
        match self {
            FilteredRows::All => Seq::new(total, |i: int| i as usize),
            FilteredRows::List(v) => v@,
        }
    }

    /// The number of rows shown, out of `total`.
    pub fn len(&self, total: usize) -> (n: usize)
        ensures
            n == self.visible(total as nat).len(),
    {
        match self {
            FilteredRows::All => total,
            FilteredRows::List(rows) => rows.len(),
        }
    }

    /// The result row shown at `position`.
    pub fn index(&self, position: usize) -> (r: usize)
        requires
            self matches FilteredRows::List(v) ==> position < v@.len(),
        ensures
            r == (match self {
                FilteredRows::All => position,
                FilteredRows::List(v) => v@[position as int],
            }),
    {
        match self {
            FilteredRows::All => position,
            FilteredRows::List(rows) => rows[position],
        }
    }
}

/// Whether an output row found a match.
pub open spec fn row_is_hit(r: JoinedRow) -> bool {
    r.right_row != UNMATCHED_RIGHT_ROW
}

/// The positions below `n` of the rows whose match state is `hit`, ascending.
pub open spec fn rows_with_hit(rows: Seq<JoinedRow>, hit: bool, n: int) -> Seq<usize>
    decreases n,
{
    if n <= 0 {
        Seq::empty()
    } else if row_is_hit(rows[n - 1]) == hit {
        rows_with_hit(rows, hit, n - 1).push((n - 1) as usize)
    } else {
        rows_with_hit(rows, hit, n - 1)
    }
}

/// Whether a filter keeps matched rows.
pub open spec fn wants_hit(filter: RowFilter) -> bool {
    filter == RowFilter::Matched
}

proof fn lemma_rows_with_hit_len(rows: Seq<JoinedRow>, hit: bool, n: int)
    requires
        0 <= n <= usize::MAX + 1,
    ensures
        rows_with_hit(rows, hit, n).len() <= n,
        rows_with_hit(rows, hit, n).len() == n ==> rows_with_hit(rows, hit, n) == Seq::new(
            n as nat,
            |i: int| i as usize,
        ),
    decreases n,
{
    if n > 0 {
        lemma_rows_with_hit_len(rows, hit, n - 1);
        let p = rows_with_hit(rows, hit, n - 1);
        if rows_with_hit(rows, hit, n).len() == n {
            assert(row_is_hit(rows[n - 1]) == hit);
            assert(rows_with_hit(rows, hit, n) =~= Seq::new(n as nat, |i: int| i as usize));
        }
    }
}

/// The rows a filter shows. `matched_rows` and `unmatched_rows` are the result's
/// counts: when the filter's count is 0 nothing is listed, when it is the whole
/// result every row is shown, else the rows are picked one by one.
pub fn filter_rows(
    table: &JoinedTable,
    filter: RowFilter,
    matched_rows: usize,
    unmatched_rows: usize,
) -> (r: FilteredRows)
    ensures
        ({
            let want = wants_hit(filter);
            let selected = if want {
                matched_rows
            } else {
                unmatched_rows
            };
            let all = table.rows@;
            &&& selected == 0 ==> (r matches FilteredRows::List(v) && v@.len() == 0)
            &&& (selected != 0 && selected == all.len()) ==> r is All
            &&& (selected != 0 && selected != all.len()) ==> (r matches FilteredRows::List(v) && v@
                == rows_with_hit(all, want, all.len() as int))
            &&& selected == rows_with_hit(all, want, all.len() as int).len() ==> r.visible(
                all.len(),
            ) == rows_with_hit(all, want, all.len() as int)
        }),
{
    let want = match filter {
        RowFilter::Matched => true,
        RowFilter::Unmatched => false,
    };
    let selected = if want {
        matched_rows
    } else {
        unmatched_rows
    };
    let ghost all = table.rows@;
    let total = table.row_count();
    proof {
        lemma_rows_with_hit_len(all, want, all.len() as int);
    }
    if selected == 0 {
        return FilteredRows::List(Vec::new());
    }
    if selected == total {
        return FilteredRows::All;
    }
    let mut rows: Vec<usize> = Vec::new();
    let mut index: usize = 0;
    while index < total
        invariant
            index <= total,
            total == all.len(),
            all == table.rows@,
            rows@ == rows_with_hit(all, want, index as int),
        decreases total - index,
    {
        if table.row_hit(index) == want {
            rows.push(index);
        }
        index = index + 1;
    }
    FilteredRows::List(rows)
}

/// The raw header texts of a preview row, `width` of them (blank past its end).
pub open spec fn preview_header_texts(row: Seq<String>, width: nat) -> Seq<Seq<char>> {
    Seq::new(
        width,
        |i: int|
            if i < row.len() {
                row[i]@
            } else {
                Seq::empty()
            },
    )
}

/// Column names taken from a preview row, as the reader names them.
pub fn headers_from_preview(row: &[String], width: usize) -> (names: Vec<String>)
    ensures
        names_view(names@) == named_columns(preview_header_texts(row@, width as nat)),
{
    let ghost want = preview_header_texts(row@, width as nat);
    let mut raw: Vec<String> = Vec::new();
    let mut i: usize = 0;
    while i < width
        invariant
            i <= width,
            want == preview_header_texts(row@, width as nat),
            names_view(raw@) == want.take(i as int),
        decreases width - i,
    {
        let text = if i < row.len() {
            row[i].clone()
        } else {
            String::new()
        };
        let ghost old_raw = raw@;
        raw.push(text);
        proof {
            lemma_names_push(old_raw, text);
            lemma_take_push(want, i as int);
        }
        i = i + 1;
    }
    assert(want.take(width as int) == want);
    name_columns(raw)
}

/// The trimmed cells of a preview row that are not blank.
pub open spec fn kept_cells(cells: Seq<Seq<char>>) -> Seq<Seq<char>>
    decreases cells.len(),
{
    if cells.len() == 0 {
        Seq::empty()
    } else {
        let p = kept_cells(cells.drop_last());
        let t = trim_spec(cells.last());
        if t.len() == 0 {
            p
        } else {
            p.push(t)
        }
    }
}

/// Parts joined with `sep` between them.
pub open spec fn joined(parts: Seq<Seq<char>>, sep: Seq<char>) -> Seq<char>
    decreases parts.len(),
{
    if parts.len() == 0 {
        Seq::empty()
    } else if parts.len() == 1 {
        parts[0]
    } else {
        joined(parts.drop_last(), sep) + sep + parts.last()
    }
}

/// The summary of a preview row: its non-blank cells, trimmed and joined by ` | `,
/// cut to 24 characters; `（空行）` for a row with none.
pub open spec fn row_summary(cells: Seq<Seq<char>>) -> Seq<char> {
    let j = joined(kept_cells(cells), " | "@);
    if j.len() == 0 {
        "（空行）"@
    } else if j.len() <= 24 {
        j
    } else {
        j.take(24)
    }
}

/// The label of the automatic header-row choice.
pub open spec fn auto_label(first_row: nat, auto_row: Option<usize>) -> Seq<char> {
    match auto_row {
        Some(r) => "自动（第 "@ + decimal_spec(first_row + r as nat) + " 行）"@,
        None => "自动"@,
    }
}

/// The label of preview row `index`.
pub open spec fn row_label(first_row: nat, index: nat, cells: Seq<Seq<char>>) -> Seq<char> {
    "第 "@ + decimal_spec(first_row + index) + " 行："@ + row_summary(cells)
}

/// The label of a chosen row outside the preview.
pub open spec fn plain_row_label(first_row: nat, row: nat) -> Seq<char> {
    "第 "@ + decimal_spec(first_row + row) + " 行"@
}

fn push_trimmed(out: &mut String, cell: &String) -> (added: bool)
    ensures
        final(out)@ == old(out)@ + trim_spec(cell@),
        added == (trim_spec(cell@).len() > 0),
{
    let v = chars_of(cell.as_str());
    let (lo, hi) = trim_bounds(&v, 0, v.len());
    assert(v@.subrange(0, v@.len() as int) == v@);
    push_chars(out, &v, lo, hi);
    lo < hi
}

fn summary_of(cells: &Vec<String>) -> (s: String)
    ensures
        s@ == row_summary(names_view(cells@)),
{
    let ghost cv = names_view(cells@);
    let mut joined_text = String::new();
    let mut any = false;
    let mut i: usize = 0;
    while i < cells.len()
        invariant
            i <= cells@.len(),
            cv == names_view(cells@),
            joined_text@ == joined(kept_cells(cv.take(i as int)), " | "@),
            any == (kept_cells(cv.take(i as int)).len() > 0),
        decreases cells@.len() - i,
    {
        let ghost before = kept_cells(cv.take(i as int));
        proof {
            assert(cv.take(i as int + 1).drop_last() == cv.take(i as int));
            assert(cv.take(i as int + 1).last() == cells@[i as int]@);
        }
        let mut part = String::new();
        let added = push_trimmed(&mut part, &cells[i]);
        if added {
            if any {
                joined_text.append(" | ");
            }
            joined_text.append(part.as_str());
            any = true;
            proof {
                let now = kept_cells(cv.take(i as int + 1));
                assert(now == before.push(part@));
                assert(now.drop_last() == before);
            }
        }
        i = i + 1;
    }
    assert(cv.take(cells@.len() as int) == cv);
    let v = chars_of(joined_text.as_str());
    if v.len() == 0 {
        String::from_str("（空行）")
    } else if v.len() <= 24 {
        joined_text
    } else {
        let mut s = String::new();
        push_chars(&mut s, &v, 0, 24);
        assert(v@.subrange(0, 24) == v@.take(24));
        s
    }
}

/// The header-row choices offered for a sheet: the automatic choice first, then each
/// preview row with its 1-based sheet row number and a summary of its cells, and the
/// current row last when it lies outside the preview.
pub fn header_row_options(
    preview: &[Vec<String>],
    first_row: usize,
    auto_row: Option<usize>,
    current: Option<usize>,
) -> (out: Vec<(Option<usize>, String)>)
    requires
        first_row + preview@.len() <= usize::MAX,
        auto_row matches Some(r) ==> first_row + r <= usize::MAX,
        current matches Some(r) ==> first_row + r <= usize::MAX,
    ensures
        out@.len() == 1 + preview@.len() + (if current matches Some(r) && r >= preview@.len() {
            1int
        } else {
            0int
        }),
        out@[0].0 is None,
        out@[0].1@ == auto_label(first_row as nat, auto_row),
        forall|i: int|
            0 <= i < preview@.len() ==> (#[trigger] out@[1 + i]).0 == Some(i as usize) && out@[1
                + i].1@ == row_label(first_row as nat, i as nat, names_view(preview@[i]@)),
        current matches Some(r) ==> (r >= preview@.len() ==> out@.last().0 == Some(r)
            && out@.last().1@ == plain_row_label(first_row as nat, r as nat)),
{
    let mut out: Vec<(Option<usize>, String)> = Vec::new();
    let auto = match auto_row {
        Some(r) => {
            let mut s = String::from_str("自动（第 ");
            push_decimal(&mut s, first_row + r);
            s.append(" 行）");
            s
        },
        None => String::from_str("自动"),
    };
    out.push((None, auto));
    let mut index: usize = 0;
    while index < preview.len()
        invariant
            index <= preview@.len(),
            first_row + preview@.len() <= usize::MAX,
            out@.len() == 1 + index,
            out@[0].0 is None,
            out@[0].1@ == auto_label(first_row as nat, auto_row),
            forall|i: int|
                0 <= i < index ==> (#[trigger] out@[1 + i]).0 == Some(i as usize) && out@[1
                    + i].1@ == row_label(first_row as nat, i as nat, names_view(preview@[i]@)),
        decreases preview@.len() - index,
    {
        let mut label = String::from_str("第 ");
        push_decimal(&mut label, first_row + index);
        label.append(" 行：");
        let summary = summary_of(&preview[index]);
        label.append(summary.as_str());
        out.push((Some(index), label));
        index = index + 1;
    }
    if let Some(r) = current {
        if r >= preview.len() {
            let mut label = String::from_str("第 ");
            push_decimal(&mut label, first_row + r);
            label.append(" 行");
            out.push((Some(r), label));
        }
    }
    out
}

/// What an oversized expanded join is blamed on.
#[derive(Debug, Clone, Copy, PartialEq, Eq, Structural)]
pub enum LimitCause {
    /// The right key column is nearly constant: at least ten rows per distinct key.
    NonUniqueKeys,
    /// One right key repeats more than a thousand times.
    HeavyDuplicateKey,
    /// Neither: the two key columns differ in grain, so most left rows match many.
    KeyGranularity,
}

/// The cause named for an estimate over a right table of `right_rows` rows.
pub open spec fn limit_cause_spec(estimate: JoinEstimate, right_rows: nat) -> LimitCause {
    if estimate.distinct_keys > 0 && right_rows >= 10 && right_rows / (estimate.distinct_keys as nat)
        >= 10 {
        LimitCause::NonUniqueKeys
    } else if estimate.max_dup > 1000 {
        LimitCause::HeavyDuplicateKey
    } else {
        LimitCause::KeyGranularity
    }
}

/// The likely cause of a join refused for its size, judged from the right table's
/// key statistics.
pub fn limit_cause(estimate: &JoinEstimate, right_rows: usize) -> (c: LimitCause)
    ensures
        c == limit_cause_spec(*estimate, right_rows as nat),
{
    if estimate.distinct_keys > 0 && right_rows >= 10 && right_rows / estimate.distinct_keys >= 10 {
        LimitCause::NonUniqueKeys
    } else if estimate.max_dup > 1000 {
        LimitCause::HeavyDuplicateKey
    } else {
        LimitCause::KeyGranularity
    }
}

/// The most output rows an expanded join may produce.
pub const MAX_EXPAND_ROWS: usize = 5000000;

/// The choices made on the configuration screen.
#[derive(Debug, Clone)]
pub struct JoinSelection {
    pub join_type: JoinType,
    /// Key column of A; `None` until chosen.
    pub left_key_col: Option<usize>,
    /// Key column of B; `None` until chosen.
    pub right_key_col: Option<usize>,
    /// Output columns of A; `None` outputs them all.
    pub left_pick_cols: Option<Vec<usize>>,
    /// Output columns of B.
    pub right_pick_cols: Vec<usize>,
    pub key_mode: KeyMode,
    pub expand_dup: bool,
}

/// Why a join cannot start.
#[derive(Debug, Clone, Copy, PartialEq, Eq, Structural)]
pub enum JoinSetupError {
    SourcesNotLoaded,
    NoColumns,
    KeysNotChosen,
    NoOutputColumns,
}

impl JoinSetupError {
    /// The message shown for the error.
    pub fn message(self) -> (s: &'static str)
        ensures
            s@ == (match self {
                JoinSetupError::SourcesNotLoaded => "请先加载两个数据源"@,
                JoinSetupError::NoColumns => "当前工作表无列数据"@,
                JoinSetupError::KeysNotChosen => "请先在连接配置中选择 A/B 匹配列"@,
                JoinSetupError::NoOutputColumns => "请至少选择一个 A 或 B 输出列"@,
            }),
    {
        match self {
            JoinSetupError::SourcesNotLoaded => "请先加载两个数据源",
            JoinSetupError::NoColumns => "当前工作表无列数据",
            JoinSetupError::KeysNotChosen => "请先在连接配置中选择 A/B 匹配列",
            JoinSetupError::NoOutputColumns => "请至少选择一个 A 或 B 输出列",
        }
    }
}

/// A join ready to run: its parameters and the output limit to run it under.
#[derive(Debug, Clone)]
pub struct JoinPlan {
    pub spec: JoinSpec,
    pub max_output_rows: Option<usize>,
}

/// `k`, or the last column when `k` lies past it (`n > 0`).
pub open spec fn clamp_column(k: usize, n: usize) -> usize {
    if k < n {
        k
    } else {
        (n - 1) as usize
    }
}

/// Whether `plan` is the join the selection asks for on tables of `lc` and `rc`
/// columns: the key columns clamped into the tables, the B output columns past B's
/// width dropped, and the A output columns handed on as chosen.
pub open spec fn plans_selection(plan: JoinPlan, sel: JoinSelection, lc: usize, rc: usize) -> bool {
    &&& plan.spec.join_type == sel.join_type
    &&& plan.spec.left_keys@ == seq![clamp_column(sel.left_key_col.unwrap(), lc)]
    &&& plan.spec.right_keys@ == seq![clamp_column(sel.right_key_col.unwrap(), rc)]
    &&& opt_vec_view(plan.spec.left_pick) == opt_vec_view(sel.left_pick_cols)
    &&& plan.spec.right_pick@ == valid_columns(sel.right_pick_cols@, rc as nat)
    &&& plan.spec.key_mode == sel.key_mode
    &&& plan.spec.expand_dup == sel.expand_dup
    &&& plan.max_output_rows == (if sel.expand_dup {
        Some(MAX_EXPAND_ROWS)
    } else {
        None
    })
}

fn copy_columns(v: &Vec<usize>) -> (r: Vec<usize>)
    ensures
        r@ == v@,
{
    let mut r: Vec<usize> = Vec::new();
    let mut i: usize = 0;
    while i < v.len()
        invariant
            i <= v@.len(),
            r@ == v@.take(i as int),
        decreases v@.len() - i,
    {
        r.push(v[i]);
        assert(v@.take(i as int + 1) == v@.take(i as int).push(v@[i as int]));
        i = i + 1;
    }
    assert(v@.take(v@.len() as int) == v@);
    r
}

/// The join the configuration screen asks for, given the column counts of the chosen
/// sheets (`None` for a side not loaded), or why it cannot run: a side not loaded, a
/// sheet without columns, a key column not chosen, or no output column at all.
pub fn prepare_join(left_cols: Option<usize>, right_cols: Option<usize>, sel: &JoinSelection) -> (r:
    Result<JoinPlan, JoinSetupError>)
    ensures
        (left_cols is None || right_cols is None) ==> r == Err::<JoinPlan, JoinSetupError>(
            JoinSetupError::SourcesNotLoaded,
        ),
        r matches Ok(plan) ==> plan.spec.join_type == sel.join_type && plan.spec.key_mode
            == sel.key_mode && plan.spec.expand_dup == sel.expand_dup,
        r matches Ok(plan) ==> {
            let lc = left_cols.unwrap();
            let rc = right_cols.unwrap();
            let lk = sel.left_key_col.unwrap();
            let rk = sel.right_key_col.unwrap();
            &&& plan.spec.left_keys@.len() == 1
            &&& plan.spec.left_keys@[0] == (if lk < lc { lk } else { (lc - 1) as usize })
            &&& plan.spec.right_keys@.len() == 1
            &&& plan.spec.right_keys@[0] == (if rk < rc { rk } else { (rc - 1) as usize })
            &&& opt_vec_view(plan.spec.left_pick) == opt_vec_view(sel.left_pick_cols)
            &&& forall|c: usize| plan.spec.right_pick@.contains(c) <==> (sel.right_pick_cols@.contains(c) && c < rc)
            &&& (plan.max_output_rows is Some <==> sel.expand_dup)
            &&& (plan.max_output_rows matches Some(m) ==> m == MAX_EXPAND_ROWS)
        },
        (left_cols is Some && right_cols is Some) ==> {
            let lc = left_cols.unwrap();
            let rc = right_cols.unwrap();
            if lc == 0 || rc == 0 {
                r == Err::<JoinPlan, JoinSetupError>(JoinSetupError::NoColumns)
            } else if sel.left_key_col is None || sel.right_key_col is None {
                r == Err::<JoinPlan, JoinSetupError>(JoinSetupError::KeysNotChosen)
            } else if !has_output_columns_spec(
                opt_vec_view(sel.left_pick_cols),
                valid_columns(sel.right_pick_cols@, rc as nat),
                lc as nat,
                rc as nat,
            ) {
                r == Err::<JoinPlan, JoinSetupError>(JoinSetupError::NoOutputColumns)
            } else {
                r matches Ok(plan) && plans_selection(plan, *sel, lc, rc)
            }
        },
{
    let (lc, rc) = match (left_cols, right_cols) {
        (Some(lc), Some(rc)) => (lc, rc),
        _ => {
            return Err(JoinSetupError::SourcesNotLoaded);
        },
    };
    if lc == 0 || rc == 0 {
        return Err(JoinSetupError::NoColumns);
    }
    let (lk, rk) = match (sel.left_key_col, sel.right_key_col) {
        (Some(lk), Some(rk)) => (lk, rk),
        _ => {
            return Err(JoinSetupError::KeysNotChosen);
        },
    };
    let lk = if lk < lc {
        lk
    } else {
        lc - 1
    };
    let rk = if rk < rc {
        rk
    } else {
        rc - 1
    };
    let rp = filter_columns(sel.right_pick_cols.as_slice(), rc);
    let spec = JoinSpec {
        join_type: sel.join_type,
        left_keys: vec![lk],
        right_keys: vec![rk],
        left_pick: match &sel.left_pick_cols {
            Some(v) => Some(copy_columns(v)),
            None => None,
        },
        right_pick: rp,
        key_mode: sel.key_mode,
        expand_dup: sel.expand_dup,
    };
    if !spec.has_output_columns(lc, rc) {
        return Err(JoinSetupError::NoOutputColumns);
    }
    let max_output_rows = if sel.expand_dup {
        Some(MAX_EXPAND_ROWS)
    } else {
        None
    };
    let plan = JoinPlan { spec, max_output_rows };
    assert(plan.spec.left_keys@ == seq![clamp_column(sel.left_key_col.unwrap(), lc)]);
    assert(plan.spec.right_keys@ == seq![clamp_column(sel.right_key_col.unwrap(), rc)]);
    assert(opt_vec_view(plan.spec.left_pick) == opt_vec_view(sel.left_pick_cols));
    assert(plans_selection(plan, *sel, lc, rc));
    proof {
        crate::join::lemma_valid_columns(sel.right_pick_cols@, rc as nat);
    }
    Ok(plan)
}

/// Header-row choices brought to `n` sheets: cut, or padded with automatic choices.
pub open spec fn aligned_choices(v: Seq<Option<usize>>, n: nat) -> Seq<Option<usize>> {
    if v.len() >= n {
        v.take(n as int)
    } else {
        v + Seq::new((n - v.len()) as nat, |i: int| None::<usize>)
    }
}

/// Header-row choices brought to `n` sheets (see [`aligned_choices`]).
pub fn align_header_rows(v: &[Option<usize>], n: usize) -> (r: Vec<Option<usize>>)
    ensures
        r@ == aligned_choices(v@, n as nat),
{
    let mut r: Vec<Option<usize>> = Vec::new();
    let mut i: usize = 0;
    while i < n
        invariant
            i <= n,
            r@ == aligned_choices(v@, n as nat).take(i as int),
        decreases n - i,
    {
        let c = if i < v.len() {
            v[i]
        } else {
            None
        };
        r.push(c);
        assert(r@ =~= aligned_choices(v@, n as nat).take(i as int + 1));
        i = i + 1;
    }
    assert(aligned_choices(v@, n as nat).take(n as int) =~= aligned_choices(v@, n as nat));
    r
}

/// Whether reloading a source changes what its columns mean: another workbook, or
/// other header-row choices once both are brought to the new sheet count.
pub fn columns_changed(
    same_workbook: bool,
    previous: &[Option<usize>],
    requested: &[Option<usize>],
    sheet_count: usize,
) -> (r: bool)
    ensures
        r == (!same_workbook || aligned_choices(previous@, sheet_count as nat) != aligned_choices(
            requested@,
            sheet_count as nat,
        )),
{
    if !same_workbook {
        return true;
    }
    let a = align_header_rows(previous, sheet_count);
    let b = align_header_rows(requested, sheet_count);
    let mut i: usize = 0;
    while i < sheet_count
        invariant
            i <= sheet_count,
            a@.len() == sheet_count,
            b@.len() == sheet_count,
            a@ == aligned_choices(previous@, sheet_count as nat),
            b@ == aligned_choices(requested@, sheet_count as nat),
            same_workbook,
            forall|k: int| 0 <= k < i ==> a@[k] == b@[k],
        decreases sheet_count - i,
    {
        let same = match (a[i], b[i]) {
            (None, None) => true,
            (Some(x), Some(y)) => x == y,
            _ => false,
        };
        if !same {
            assert(a@[i as int] != b@[i as int]);
            return true;
        }
        i = i + 1;
    }
    assert(a@ =~= b@);
    false
}

/// The sheet shown after a workbook is loaded: the one shown before when the same
/// workbook was reloaded and it still exists, else the first sheet with data, else
/// the first sheet.
pub fn sheet_to_show(same_workbook: bool, previous: usize, sheet_is_empty: &[bool]) -> (r: usize)
    ensures
        (same_workbook && previous < sheet_is_empty@.len()) ==> r == previous,
        !(same_workbook && previous < sheet_is_empty@.len()) ==> {
            &&& (exists|j: int| 0 <= j < sheet_is_empty@.len() && !#[trigger] sheet_is_empty@[j]) ==> {
                &&& r < sheet_is_empty@.len()
                &&& !sheet_is_empty@[r as int]
                &&& forall|j: int| 0 <= j < r ==> #[trigger] sheet_is_empty@[j]
            }
            &&& (forall|j: int| 0 <= j < sheet_is_empty@.len() ==> #[trigger] sheet_is_empty@[j]) ==> r == 0
        },
{
    if same_workbook && previous < sheet_is_empty.len() {
        return previous;
    }
    let mut i: usize = 0;
    while i < sheet_is_empty.len()
        invariant
            i <= sheet_is_empty@.len(),
            !(same_workbook && previous < sheet_is_empty@.len()),
            forall|j: int| 0 <= j < i ==> #[trigger] sheet_is_empty@[j],
        decreases sheet_is_empty@.len() - i,
    {
        if !sheet_is_empty[i] {
            return i;
        }
        i = i + 1;
    }
    0
}

/// Whether the workbench may move to `step`: the sources step always; configuring
/// once both sources are ready; the result step while a join runs or once a result
/// without error is there.
pub fn can_enter_step(step: WorkflowStep, sources_ready: bool, join_active: bool, result_ready: bool) -> (r:
    bool)
    ensures
        r == (match step {
            WorkflowStep::Sources => true,
            WorkflowStep::Configure => sources_ready,
            WorkflowStep::Result => join_active || result_ready,
        }),
{
    match step {
        WorkflowStep::Sources => true,
        WorkflowStep::Configure => sources_ready,
        WorkflowStep::Result => join_active || result_ready,
    }
}

} // verus!
