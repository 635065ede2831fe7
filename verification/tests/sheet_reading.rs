use excelookup::model::CellValue;
use excelookup::read::{
    name_columns, table_from_range, RawCell, ReadOptions, SheetRange, SheetTable, PREVIEW_ROWS,
};

fn s(v: &str) -> RawCell {
    RawCell { value: CellValue::Text(v.to_string()), text: v.to_string(), non_empty: true }
}

/// A number cell, given by the text it shows.
fn num(t: &str) -> RawCell {
    RawCell { value: CellValue::Number(t.to_string()), text: t.to_string(), non_empty: true }
}

fn empty() -> RawCell {
    RawCell { value: CellValue::Empty, text: String::new(), non_empty: false }
}

/// An nrows x ncols area starting at the sheet's first row, filled in at the given cells.
fn make_range(nrows: usize, ncols: usize, cells: Vec<((usize, usize), RawCell)>) -> SheetRange {
    let mut rows: Vec<Vec<RawCell>> =
        (0..nrows).map(|_| (0..ncols).map(|_| empty()).collect()).collect();
    for ((row, col), cell) in cells {
        rows[row][col] = cell;
    }
    let start_row = if nrows > 0 && ncols > 0 { Some(0) } else { None };
    SheetRange { rows, width: ncols, start_row }
}

fn auto(nrows: usize, ncols: usize, cells: Vec<((usize, usize), RawCell)>) -> SheetTable {
    table_from_range(make_range(nrows, ncols, cells), ReadOptions::default())
}

fn with_header(
    nrows: usize,
    ncols: usize,
    cells: Vec<((usize, usize), RawCell)>,
    row: usize,
) -> SheetTable {
    table_from_range(
        make_range(nrows, ncols, cells),
        ReadOptions { header_row: Some(row), preview: true },
    )
}

#[test]
fn table_from_range_basic() {
    let cells = vec![
        ((0, 0), empty()),
        ((0, 1), empty()),
        ((1, 0), s("id")),
        ((1, 1), s("name")),
        ((2, 0), s("1")),
        ((2, 1), s("alice")),
        ((3, 0), empty()),
        ((3, 1), empty()),
        ((4, 0), num("2")),
        ((4, 1), s("bob")),
    ];
    let t = auto(5, 2, cells);
    assert_eq!(t.table.headers, vec!["id", "name"]);
    assert_eq!(t.table.row_count(), 2);
    assert_eq!(t.table.cell(0, 0), Some(&CellValue::Text("1".into())));
    assert_eq!(t.table.cell(0, 1), Some(&CellValue::Text("alice".into())));
    assert_eq!(t.table.cell(1, 0), Some(&CellValue::Number("2".into())));
    assert_eq!(t.table.cell(1, 1), Some(&CellValue::Text("bob".into())));
    assert_eq!(t.auto_header_row, Some(1));
    assert_eq!(t.first_row_number, 1);
}

#[test]
fn table_from_range_dup_empty_header() {
    let cells = vec![
        ((0, 0), s("id")),
        ((0, 1), empty()),
        ((0, 2), s("id")),
        ((1, 0), s("a")),
        ((1, 1), s("b")),
        ((1, 2), s("c")),
    ];
    let t = auto(2, 3, cells);
    assert_eq!(t.table.headers, vec!["id", "列2", "id_2"]);
    assert_eq!(t.table.row_count(), 1);
}

#[test]
fn table_from_range_all_empty() {
    let r = SheetRange { rows: Vec::new(), width: 0, start_row: None };
    let t = table_from_range(r, ReadOptions::default());
    assert!(t.table.is_empty());
    assert_eq!(t.auto_header_row, None);
}

fn merged_title_cells() -> Vec<((usize, usize), RawCell)> {
    vec![
        ((0, 0), s("2024 年销售统计")),
        ((1, 0), s("id")),
        ((1, 1), s("名称")),
        ((1, 2), s("金额")),
        ((2, 0), num("1001")),
        ((2, 1), s("苹果")),
        ((2, 2), num("12.5")),
        ((3, 0), num("1002")),
        ((3, 1), s("香蕉")),
        ((3, 2), num("7")),
    ]
}

#[test]
fn auto_header_takes_title_row() {
    let t = auto(4, 3, merged_title_cells());
    assert_eq!(t.auto_header_row, Some(0));
    assert_eq!(t.table.headers[0], "2024 年销售统计");
    assert_eq!(t.table.headers[1], "列2");
    assert_eq!(t.table.row_count(), 3);
}

#[test]
fn header_row_skips_merged_title_row() {
    let t = with_header(4, 3, merged_title_cells(), 1);
    assert_eq!(t.table.headers, vec!["id", "名称", "金额"]);
    assert_eq!(t.table.row_count(), 2);
    assert_eq!(t.table.cell(0, 0), Some(&CellValue::Number("1001".into())));
    assert_eq!(t.table.cell(1, 1), Some(&CellValue::Text("香蕉".into())));
    assert_eq!(t.preview[0][0], "2024 年销售统计");
    assert_eq!(t.preview[1], vec!["id", "名称", "金额"]);
    assert_eq!(t.preview[2][0], "1001");
}

#[test]
fn header_row_out_of_range_falls_back_to_auto() {
    let cells = vec![((0, 0), s("id")), ((0, 1), s("v")), ((1, 0), s("1")), ((1, 1), s("x"))];
    let t = with_header(2, 2, cells, 9);
    assert_eq!(t.table.headers, vec!["id", "v"]);
    assert_eq!(t.table.row_count(), 1);
}

#[test]
fn header_row_blank_row_falls_back_to_auto() {
    let cells = vec![((0, 0), s("id")), ((0, 1), s("v")), ((2, 0), s("1")), ((2, 1), s("x"))];
    let t = with_header(3, 2, cells, 1);
    assert_eq!(t.table.headers, vec!["id", "v"]);
    assert_eq!(t.table.row_count(), 1);
}

#[test]
fn header_row_two_level_header() {
    let cells = || {
        vec![
            ((0, 0), s("2024")),
            ((0, 1), s("2024")),
            ((1, 0), s("id")),
            ((1, 1), s("name")),
            ((2, 0), s("1")),
            ((2, 1), s("a")),
            ((3, 0), s("2")),
            ((3, 1), s("b")),
        ]
    };
    assert_eq!(auto(4, 2, cells()).table.headers, vec!["2024", "2024_2"]);
    assert_eq!(with_header(4, 2, cells(), 1).table.headers, vec!["id", "name"]);
}

#[test]
fn preview_capped_at_preview_rows() {
    let cells = (0..PREVIEW_ROWS + 4).map(|i| ((i, 0), s(&format!("r{i}")))).collect();
    let t = with_header(PREVIEW_ROWS + 4, 1, cells, 1);
    assert_eq!(t.preview.len(), PREVIEW_ROWS);
    assert_eq!(t.preview[0][0], "r0");
}

#[test]
fn error_cell_counts_as_non_empty_but_reads_as_empty() {
    // An error cell shows its error text and makes its row count, but holds no value.
    let error = RawCell { value: CellValue::Empty, text: "#DIV/0!".into(), non_empty: true };
    let cells = vec![((0, 0), s("id")), ((1, 0), error)];
    let t = auto(2, 1, cells);
    assert_eq!(t.table.row_count(), 1);
    assert_eq!(t.table.cell(0, 0), Some(&CellValue::Empty));
}

#[test]
fn only_empty_rows_give_no_header_and_no_table() {
    let t = table_from_range(
        make_range(3, 2, Vec::new()),
        ReadOptions { header_row: Some(1), preview: true },
    );
    assert_eq!(t.auto_header_row, None);
    assert_eq!(t.used_header_row, None);
    assert_eq!(t.table.col_count(), 0);
    assert_eq!(t.table.row_count(), 0);
    assert_eq!(t.preview.len(), 3);
    assert_eq!(t.first_row_number, 1);
}

#[test]
fn first_row_number_follows_the_area_start() {
    let mut r = make_range(2, 1, vec![((0, 0), s("h")), ((1, 0), s("v"))]);
    r.start_row = Some(4);
    let t = table_from_range(r, ReadOptions::default());
    assert_eq!(t.first_row_number, 5);
    assert_eq!(t.used_header_row, Some(0));
    assert!(t.preview.is_empty());
}

#[test]
fn name_columns_fills_blanks_and_numbers_repeats() {
    let raw = vec!["a".to_string(), "  ".to_string(), "a".to_string(), "a".to_string(), "".to_string()];
    assert_eq!(name_columns(raw), vec!["a", "列2", "a_2", "a_3", "列5"]);
    // A renamed column does not count as an earlier occurrence of its new name.
    let raw = vec!["a".to_string(), "a".to_string(), "a_2".to_string()];
    assert_eq!(name_columns(raw), vec!["a", "a_2", "a_2"]);
}
