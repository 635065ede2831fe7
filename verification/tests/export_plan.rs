use excelookup::export::{
    cell_display_width, column_width, display_width, estimate_column_widths, progress_after_row,
    ExportPhase, ExportProgress, ExportSource, JoinedExport,
};
use excelookup::join::{join, JoinSpec, JoinType, KeyMode};
use excelookup::model::{CellValue, Table};

fn text(s: &str) -> CellValue {
    CellValue::Text(s.to_string())
}

#[test]
fn display_width_counts_non_ascii_as_two() {
    assert_eq!(display_width("A中"), 3);
}

#[test]
fn width_estimate_is_sampled_and_capped() {
    let mut table = Table::new(vec!["标题".into(), "值".into()]);
    table.push_row(vec![text("短"), text("x")]);
    table.push_row(vec![text("这是一个很长的文本"), text("y")]);

    let widths = estimate_column_widths(&table);
    assert_eq!(widths[0], 18);
    assert_eq!(widths[1], 2);
}

#[test]
fn width_estimate_caps_at_forty_and_counts_numbers_by_their_text() {
    let mut table = Table::new(vec!["n".into(), "long".into()]);
    table.push_row(vec![CellValue::Number("12345".into()), text(&"x".repeat(100))]);
    let widths = estimate_column_widths(&table);
    assert_eq!(widths, vec![5, 40]);
    assert_eq!(cell_display_width(&CellValue::Number("3.5".into())), 3);
    assert_eq!(cell_display_width(&CellValue::Empty), 0);
}

#[test]
fn width_estimate_reads_only_the_first_sampled_rows() {
    let mut table = Table::new(vec!["c".into()]);
    for _ in 0..4096 {
        table.push_row(vec![text("ab")]);
    }
    table.push_row(vec![text("a much longer text past the sample")]);
    assert_eq!(estimate_column_widths(&table), vec![2]);
}

#[test]
fn width_estimate_over_a_joined_view() {
    let mut left = Table::new(vec!["id".into()]);
    left.push_row(vec![text("1")]);
    let mut right = Table::new(vec!["id".into(), "部门".into()]);
    right.push_row(vec![text("1"), text("工程部门")]);
    let spec = JoinSpec {
        join_type: JoinType::Left,
        left_keys: vec![0],
        right_keys: vec![0],
        left_pick: None,
        right_pick: vec![1],
        key_mode: KeyMode::exact(),
        expand_dup: true,
    };
    let result = join(&left, &right, &spec);
    let view = JoinedExport { table: &result.table, left: &left, right: &right };
    assert_eq!(view.row_count(), 1);
    assert_eq!(view.headers().len(), 2);
    assert_eq!(view.cell(0, 1), Some(text("工程部门")));
    assert_eq!(estimate_column_widths(&view), vec![2, 8]);
}

#[test]
fn column_width_is_kept_between_eight_and_forty() {
    assert_eq!(column_width(0), 8);
    assert_eq!(column_width(8), 8);
    assert_eq!(column_width(18), 18);
    assert_eq!(column_width(40), 40);
    assert_eq!(column_width(41), 40);
}

#[test]
fn progress_is_reported_every_interval_and_after_the_last_row() {
    assert_eq!(
        progress_after_row(1024, 5000),
        Some(ExportProgress { phase: ExportPhase::Writing, completed_rows: 1024, total_rows: 5000 })
    );
    assert_eq!(progress_after_row(1000, 5000), None);
    assert_eq!(
        progress_after_row(2, 2),
        Some(ExportProgress { phase: ExportPhase::Writing, completed_rows: 2, total_rows: 2 })
    );
    assert_eq!(ExportProgress::writing(0, 2).phase, ExportPhase::Writing);
    let saving = ExportProgress::saving(2);
    assert_eq!(saving.phase, ExportPhase::Saving);
    assert_eq!(saving.completed_rows, 2);
}
