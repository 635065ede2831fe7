use excelookup::model::{CellValue, Table};

fn text(s: &str) -> CellValue {
    CellValue::Text(s.to_string())
}

#[test]
fn push_row_aligns() {
    let mut t = Table::new(vec!["a".into(), "b".into(), "c".into()]);
    t.push_row(vec![text("x"), text("y")]); // one short: padded with Empty
    t.push_row(vec![text("1"), text("2"), text("3"), text("4")]); // one long: cut
    assert_eq!(t.row_count(), 2);
    assert_eq!(t.cell(0, 2), Some(&CellValue::Empty));
    assert_eq!(t.cell(1, 2), Some(&CellValue::Text("3".into())));
}

#[test]
fn display_number() {
    assert_eq!(CellValue::Number("42".into()).display(), "42");
    assert_eq!(CellValue::Number("3.14".into()).display(), "3.14");
    assert_eq!(CellValue::Text("hi".into()).display(), "hi");
    assert_eq!(CellValue::Empty.display(), "");
}

#[test]
fn cell_out_of_range_is_none_and_is_empty_checks_both_sides() {
    let mut t = Table::new(vec!["a".into()]);
    assert!(t.is_empty());
    assert_eq!(t.cell(0, 0), None);
    t.push_row(vec![text("v")]);
    assert!(!t.is_empty());
    assert_eq!(t.cell(0, 1), None);
    assert_eq!(t.cell(1, 0), None);
    assert_eq!(t.col_count(), 1);
    let no_columns = Table::new(Vec::new());
    assert!(no_columns.is_empty());
}

#[test]
fn duplicate_and_clone_keep_the_cell() {
    let c = CellValue::Number("7".into());
    assert_eq!(c.duplicate(), c);
    assert_eq!(c.clone(), c);
    assert_eq!(text("x").duplicate(), text("x"));
    assert_eq!(CellValue::Empty.duplicate(), CellValue::Empty);
}
