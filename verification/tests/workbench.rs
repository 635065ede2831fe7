use excelookup::join::{join, JoinEstimate, JoinSpec, JoinType, KeyMode};
use excelookup::model::{CellValue, Table};
use excelookup::view::{
    align_header_rows, can_enter_step, columns_changed, sheet_to_show, filter_rows, header_row_options, headers_from_preview, limit_cause, prepare_join,
    FilteredRows, JoinSelection, JoinSetupError, LimitCause, RowFilter, Side, WorkflowStep,
    MAX_EXPAND_ROWS,
};

fn tbl(headers: &[&str], rows: &[&[&str]]) -> Table {
    let mut t = Table::new(headers.iter().map(|s| s.to_string()).collect());
    for r in rows {
        t.push_row(r.iter().map(|s| CellValue::Text(s.to_string())).collect());
    }
    t
}

fn strings(v: &[&str]) -> Vec<String> {
    v.iter().map(|s| s.to_string()).collect()
}

#[test]
fn sides_and_steps_are_named() {
    assert_eq!(Side::Left.index(), 0);
    assert_eq!(Side::Right.index(), 1);
    assert_eq!(Side::Left.letter(), "A");
    assert_eq!(Side::Right.letter(), "B");
    assert_eq!(WorkflowStep::Sources.number(), 1);
    assert_eq!(WorkflowStep::Configure.number(), 2);
    assert_eq!(WorkflowStep::Result.number(), 3);
    assert_eq!(WorkflowStep::Configure.eyebrow(), "第二步 · 连接配置");
    assert_eq!(WorkflowStep::Result.title(), "检查结果，确认后导出");
    assert_eq!(WorkflowStep::Sources.description(), "文件只在本机读取，确认工作表后进入连接配置。");
}

fn sample_result() -> (Table, Table, excelookup::join::JoinResult) {
    let a = tbl(&["id"], &[&["1"], &["2"], &["3"]]);
    let b = tbl(&["id", "v"], &[&["1", "x"], &["3", "y"]]);
    let spec = JoinSpec {
        join_type: JoinType::Left,
        left_keys: vec![0],
        right_keys: vec![0],
        left_pick: None,
        right_pick: vec![1],
        key_mode: KeyMode::exact(),
        expand_dup: true,
    };
    let r = join(&a, &b, &spec);
    (a, b, r)
}

#[test]
fn filter_rows_lists_matching_rows_in_order() {
    let (_a, _b, r) = sample_result();
    let matched = filter_rows(&r.table, RowFilter::Matched, r.matched_rows, r.out_rows - r.matched_rows);
    match &matched {
        FilteredRows::List(rows) => assert_eq!(rows, &vec![0, 2]),
        FilteredRows::All => panic!("two of three rows match"),
    }
    assert_eq!(matched.len(3), 2);
    assert_eq!(matched.index(1), 2);
    let unmatched =
        filter_rows(&r.table, RowFilter::Unmatched, r.matched_rows, r.out_rows - r.matched_rows);
    assert_eq!(unmatched.len(3), 1);
    assert_eq!(unmatched.index(0), 1);
}

#[test]
fn filter_rows_takes_shortcuts_for_none_and_all() {
    let (_a, _b, r) = sample_result();
    let none = filter_rows(&r.table, RowFilter::Matched, 0, 3);
    assert!(matches!(&none, FilteredRows::List(rows) if rows.is_empty()));
    let all = filter_rows(&r.table, RowFilter::Unmatched, 0, 3);
    assert!(matches!(all, FilteredRows::All));
    assert_eq!(all.len(3), 3);
    assert_eq!(all.index(2), 2);
}

#[test]
fn headers_from_preview_pads_fills_and_numbers() {
    let row = strings(&["id", "", "id"]);
    assert_eq!(headers_from_preview(&row, 4), vec!["id", "列2", "id_2", "列4"]);
    assert_eq!(headers_from_preview(&row, 1), vec!["id"]);
}

#[test]
fn header_row_options_list_auto_preview_rows_and_current() {
    let preview = vec![
        strings(&["2024 年销售统计", "", ""]),
        strings(&[" id ", "名称", "金额"]),
        strings(&["", "  ", ""]),
    ];
    let options = header_row_options(&preview, 1, Some(0), Some(5));
    assert_eq!(options.len(), 5);
    assert_eq!(options[0], (None, "自动（第 1 行）".to_string()));
    assert_eq!(options[1], (Some(0), "第 1 行：2024 年销售统计".to_string()));
    assert_eq!(options[2], (Some(1), "第 2 行：id | 名称 | 金额".to_string()));
    assert_eq!(options[3], (Some(2), "第 3 行：（空行）".to_string()));
    assert_eq!(options[4], (Some(5), "第 6 行".to_string()));

    let long = vec![strings(&["abcdefghij", "klmnopqrst", "uvwxyz"])];
    let options = header_row_options(&long, 10, None, Some(0));
    assert_eq!(options.len(), 2);
    assert_eq!(options[0].1, "自动");
    // Joined text "abcdefghij | klmnopqrst | uvwxyz" cut to 24 characters.
    assert_eq!(options[1].1, "第 10 行：abcdefghij | klmnopqrst ");
}

#[test]
fn limit_cause_blames_the_key_statistics() {
    let e = |distinct_keys, max_dup| JoinEstimate { output_rows: 10_000_000, max_dup, distinct_keys };
    assert_eq!(limit_cause(&e(10, 100), 100), LimitCause::NonUniqueKeys);
    assert_eq!(limit_cause(&e(50, 5000), 100), LimitCause::HeavyDuplicateKey);
    assert_eq!(limit_cause(&e(50, 10), 100), LimitCause::KeyGranularity);
    assert_eq!(limit_cause(&e(0, 10), 100), LimitCause::KeyGranularity);
}

fn selection() -> JoinSelection {
    JoinSelection {
        join_type: JoinType::Left,
        left_key_col: Some(0),
        right_key_col: Some(9),
        left_pick_cols: None,
        right_pick_cols: vec![1, 7],
        key_mode: KeyMode::default(),
        expand_dup: true,
    }
}

#[test]
fn prepare_join_builds_the_spec_from_the_selection() {
    let plan = prepare_join(Some(2), Some(3), &selection()).unwrap();
    assert_eq!(plan.spec.left_keys, vec![0]);
    assert_eq!(plan.spec.right_keys, vec![2]);
    assert_eq!(plan.spec.right_pick, vec![1]);
    assert_eq!(plan.spec.left_pick, None);
    assert_eq!(plan.max_output_rows, Some(MAX_EXPAND_ROWS));
    let mut first_only = selection();
    first_only.expand_dup = false;
    assert_eq!(prepare_join(Some(2), Some(3), &first_only).unwrap().max_output_rows, None);
}

#[test]
fn prepare_join_reports_each_missing_piece() {
    assert_eq!(prepare_join(None, Some(3), &selection()).unwrap_err(), JoinSetupError::SourcesNotLoaded);
    assert_eq!(prepare_join(Some(0), Some(3), &selection()).unwrap_err(), JoinSetupError::NoColumns);
    let mut no_key = selection();
    no_key.left_key_col = None;
    assert_eq!(prepare_join(Some(2), Some(3), &no_key).unwrap_err(), JoinSetupError::KeysNotChosen);
    let mut no_output = selection();
    no_output.left_pick_cols = Some(vec![5]);
    no_output.right_pick_cols = vec![9];
    let err = prepare_join(Some(2), Some(3), &no_output).unwrap_err();
    assert_eq!(err, JoinSetupError::NoOutputColumns);
    assert_eq!(err.message(), "请至少选择一个 A 或 B 输出列");
    assert_eq!(JoinSetupError::SourcesNotLoaded.message(), "请先加载两个数据源");
}

#[test]
fn header_row_choices_are_aligned_to_the_sheet_count() {
    assert_eq!(align_header_rows(&[Some(1)], 3), vec![Some(1), None, None]);
    assert_eq!(align_header_rows(&[Some(1), Some(2), None], 1), vec![Some(1)]);
    assert!(align_header_rows(&[], 0).is_empty());
}

#[test]
fn columns_change_with_the_workbook_or_the_header_rows() {
    assert!(columns_changed(false, &[], &[], 2));
    assert!(!columns_changed(true, &[Some(1)], &[Some(1), None], 2));
    assert!(columns_changed(true, &[Some(1)], &[Some(2)], 2));
    // Choices past the sheet count do not matter.
    assert!(!columns_changed(true, &[None, Some(4)], &[None], 1));
}

#[test]
fn sheet_to_show_keeps_the_sheet_or_takes_the_first_with_data() {
    assert_eq!(sheet_to_show(true, 1, &[false, false]), 1);
    assert_eq!(sheet_to_show(true, 5, &[true, false]), 1);
    assert_eq!(sheet_to_show(false, 0, &[true, true, false]), 2);
    assert_eq!(sheet_to_show(false, 1, &[true, true]), 0);
}

#[test]
fn steps_open_as_their_inputs_are_ready() {
    assert!(can_enter_step(WorkflowStep::Sources, false, false, false));
    assert!(!can_enter_step(WorkflowStep::Configure, false, true, true));
    assert!(can_enter_step(WorkflowStep::Configure, true, false, false));
    assert!(!can_enter_step(WorkflowStep::Result, true, false, false));
    assert!(can_enter_step(WorkflowStep::Result, false, true, false));
    assert!(can_enter_step(WorkflowStep::Result, false, false, true));
}
