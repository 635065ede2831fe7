use std::borrow::Cow;

use excelookup::join::{
    add_output_rows, estimate_join_rows, has_key_output, join, join_with_limit,
    join_with_limit_metrics, resolve_left_pick, JoinResult, JoinSpec, JoinType, JoinedRow,
    JoinedTable, KeyMode, UNMATCHED_RIGHT_ROW,
};
use excelookup::keys::{fold_brackets, strip_case_suffix, write_key};
use excelookup::model::{CellValue, Table};

fn tbl(headers: &[&str], rows: &[&[&str]]) -> Table {
    let mut t = Table::new(headers.iter().map(|s| s.to_string()).collect());
    for r in rows {
        t.push_row(r.iter().map(|s| CellValue::Text(s.to_string())).collect());
    }
    t
}

fn spec(jt: JoinType, lk: usize, rk: usize, pick: usize, mode: KeyMode) -> JoinSpec {
    JoinSpec {
        join_type: jt,
        left_keys: vec![lk],
        right_keys: vec![rk],
        left_pick: None,
        right_pick: vec![pick],
        key_mode: mode,
        expand_dup: true,
    }
}

/// The cell of the joined view, read through the source tables.
fn joined_cell(
    table: &JoinedTable,
    left: &Table,
    right: &Table,
    row: usize,
    column: usize,
) -> Option<CellValue> {
    table.cell(left, right, row, column)
}

/// The match flag of every output row.
fn hits(result: &JoinResult) -> Vec<bool> {
    (0..result.table.row_count())
        .map(|row| result.table.row_hit(row))
        .collect()
}

#[test]
fn selected_left_columns_preserve_order_values_and_row_matches() {
    let left = tbl(
        &["姓名", "案号", "金额", "备注"],
        &[
            &["甲", "台88（2025）执388号之十二", "100", "保留"],
            &["乙", "台88（2025）执388号之二", "200", "保留"],
            &["丙", "未命中", "300", "保留"],
        ],
    );
    let right = tbl(&["案号", "部门"], &[&["台88（2025）执388号", "执行部门"]]);
    let mut join_spec = spec(
        JoinType::Left,
        1,
        0,
        1,
        KeyMode {
            case_suffix: true,
            ..KeyMode::exact()
        },
    );
    // 非连续列且改变输出顺序;匹配键本身不输出。
    join_spec.left_pick = Some(vec![2, 0, 99]);
    let result = join(&left, &right, &join_spec);
    assert_eq!(result.table.headers, ["金额", "姓名", "部门"]);
    assert_eq!(result.table.left_pick, [2, 0]);
    assert_eq!(result.left_matched, 2);
    assert_eq!(hits(&result), [true, true, false]);
    let expected = tbl(
        &["金额", "姓名", "部门"],
        &[
            &["100", "甲", "执行部门"],
            &["200", "乙", "执行部门"],
            &["300", "丙", ""],
        ],
    );
    let mut expected_rows = expected.rows;
    expected_rows[2][2] = CellValue::Empty;
    assert_eq!(result.table.materialize(&left, &right).rows, expected_rows);
    for (row, cells) in expected_rows.iter().enumerate() {
        for (column, expected) in cells.iter().enumerate() {
            assert_eq!(
                result.table.cell(&left, &right, row, column),
                Some(expected.clone())
            );
        }
    }
    assert_eq!(result.table.cell(&left, &right, 0, 3), None);
}

#[test]
fn no_left_output_columns_still_match_and_expand_duplicates() {
    let left = tbl(&["id"], &[&["1"], &["2"]]);
    let right = tbl(&["id", "部门"], &[&["1", "甲"], &["1", "乙"]]);
    let mut join_spec = spec(JoinType::Left, 0, 0, 1, KeyMode::exact());
    join_spec.left_pick = Some(vec![]);
    let result = join(&left, &right, &join_spec);
    assert_eq!(result.table.headers, ["部门"]);
    assert!(result.table.left_pick.is_empty());
    assert_eq!(result.table.row_count(), 3);
    assert_eq!(hits(&result), [true, true, false]);
    assert_eq!(
        result.table.materialize(&left, &right).rows,
        vec![
            vec![CellValue::Text("甲".into())],
            vec![CellValue::Text("乙".into())],
            vec![CellValue::Empty],
        ]
    );
}

#[test]
fn out_of_range_left_columns_are_dropped_not_kept_as_empty() {
    // 全部越界 = 左表一列都不输出;这里顺带钉住越界项不会变成一列空列。
    let left = tbl(&["id", "姓名"], &[&["1", "甲"], &["2", "乙"]]);
    let right = tbl(&["id", "部门"], &[&["1", "工程部"], &["2", "产品部"]]);
    let mut join_spec = spec(JoinType::Left, 0, 0, 1, KeyMode::exact());
    join_spec.left_pick = Some(vec![99, 100]);
    let result = join(&left, &right, &join_spec);
    assert_eq!(result.table.headers, ["部门"]);
    assert!(result.table.left_pick.is_empty());
    assert_eq!(result.table.col_count(), 1);
    assert_eq!(result.table.row_count(), 2);
    assert_eq!(result.left_matched, 2);
    assert_eq!(
        result.table.materialize(&left, &right).rows,
        vec![
            vec![CellValue::Text("工程部".into())],
            vec![CellValue::Text("产品部".into())],
        ]
    );
    // 输出只剩 B 列:A 侧任何列号都读不到值
    assert_eq!(result.table.cell(&left, &right, 0, 1), None);
    // A 侧全越界,但 B 侧还有输出列 → 整体仍有输出
    assert!(join_spec.has_output_columns(left.col_count(), right.col_count()));
    let mut no_right = join_spec.clone();
    no_right.right_pick.clear();
    assert!(!no_right.has_output_columns(left.col_count(), right.col_count()));
    assert!(no_right.resolved_left_pick(left.col_count()).is_empty());
}

#[test]
fn has_output_columns_matches_resolved_left_pick() {
    let spec_with = |left_pick: Option<Vec<usize>>, right_pick: Vec<usize>| {
        let mut join_spec = spec(JoinType::Left, 0, 0, 0, KeyMode::exact());
        join_spec.left_pick = left_pick;
        join_spec.right_pick = right_pick;
        join_spec
    };
    // None = 默认全输出:A 有列就算有输出
    assert!(spec_with(None, vec![]).has_output_columns(2, 2));
    assert!(!spec_with(None, vec![]).has_output_columns(0, 0));
    // Some 全越界 + B 无可输出列 = 没有任何输出(UI 与 worker 必须同时判否)
    assert!(!spec_with(Some(vec![7]), vec![]).has_output_columns(2, 2));
    assert!(!spec_with(Some(vec![7]), vec![9]).has_output_columns(2, 3));
    // 任一侧还有有效列就算有输出
    assert!(spec_with(Some(vec![]), vec![1]).has_output_columns(2, 3));
    assert!(spec_with(Some(vec![1]), vec![]).has_output_columns(2, 3));
    // 与真正参与 Join 的解析结果一致
    for (left_pick, left_cols) in [
        (None, 3),
        (Some(vec![]), 3),
        (Some(vec![2, 0, 99]), 3),
        (Some(vec![99]), 3),
    ] {
        let join_spec = spec_with(left_pick, vec![]);
        assert_eq!(
            join_spec.has_output_columns(left_cols, 0),
            !resolve_left_pick(join_spec.left_pick.as_deref(), left_cols).is_empty()
        );
    }
}

#[test]
fn has_key_output_requires_a_key_column_in_output() {
    // 键列 lk=0 / rk=0;left_pick 与 right_pick 逐用例覆盖。
    let spec_with = |left_pick: Option<Vec<usize>>, right_pick: Vec<usize>| {
        let mut join_spec = spec(JoinType::Left, 0, 0, 0, KeyMode::exact());
        join_spec.left_pick = left_pick;
        join_spec.right_pick = right_pick;
        join_spec
    };
    // A 默认全选(None)含键列 → 有匹配列输出
    assert!(spec_with(None, vec![1]).has_key_output(2, 2));
    // A 显式空选 + B 只输出非键列 → 没有任何匹配列输出
    assert!(!spec_with(Some(vec![]), vec![1]).has_key_output(2, 2));
    // B 键列补进 right_pick → 满足
    assert!(spec_with(Some(vec![]), vec![0, 1]).has_key_output(2, 2));
    // A、B 输出列都不含各自键列 → 不满足
    assert!(!spec_with(Some(vec![1]), vec![1]).has_key_output(2, 2));
    // A 显式选了键列即满足,B 侧可以为空
    assert!(spec_with(Some(vec![0]), vec![]).has_key_output(2, 2));
    // 键列下标越界(A 表只有 0 列)→ 视为未输出
    assert!(!spec_with(Some(vec![0]), vec![]).has_key_output(0, 2));
    // B 键列越界同理
    assert!(!spec_with(Some(vec![]), vec![0]).has_key_output(2, 0));
    // 方法与自由函数判定一致
    let join_spec = spec_with(Some(vec![]), vec![1]);
    assert_eq!(
        join_spec.has_key_output(2, 2),
        has_key_output(&[0], &[0], Some(&[]), &[1], 2, 2)
    );
    let join_spec = spec_with(Some(vec![0]), vec![]);
    assert_eq!(
        join_spec.has_key_output(2, 2),
        has_key_output(&[0], &[0], Some(&[0]), &[], 2, 2)
    );
}

#[test]
fn joined_row_stays_compact() {
    // 结果行数可达 500 万,行引用按 8B/行 存放;退回 Option<usize> 会变成 24B/行。
    assert_eq!(std::mem::size_of::<JoinedRow>(), 8);
}

#[test]
fn left_join_vlookup() {
    let a = tbl(
        &["id", "name"],
        &[&["1", "alice"], &["2", "bob"], &["3", "carol"]],
    );
    let b = tbl(&["id", "dept"], &[&["1", "eng"], &["3", "ops"]]);
    let r = join(&a, &b, &spec(JoinType::Left, 0, 0, 1, KeyMode::exact()));
    assert_eq!(r.table.headers, vec!["id", "name", "dept"]);
    assert_eq!(r.table.row_count(), 3);
    assert_eq!(
        r.table.rows,
        vec![
            JoinedRow {
                left_row: 0,
                right_row: 0,
            },
            JoinedRow {
                left_row: 1,
                right_row: UNMATCHED_RIGHT_ROW,
            },
            JoinedRow {
                left_row: 2,
                right_row: 1,
            },
        ]
    );
    assert_eq!(joined_cell(&r.table, &a, &b, 0, 2), Some(CellValue::Text("eng".into())));
    assert_eq!(joined_cell(&r.table, &a, &b, 1, 2), Some(CellValue::Empty)); // bob 未匹配
    assert_eq!(joined_cell(&r.table, &a, &b, 2, 2), Some(CellValue::Text("ops".into())));
    assert_eq!(r.left_matched, 2);
}

#[test]
fn inner_join_drops_unmatched() {
    let a = tbl(&["id"], &[&["1"], &["2"], &["3"]]);
    let b = tbl(&["id", "v"], &[&["2", "x"], &["3", "y"]]);
    let r = join(&a, &b, &spec(JoinType::Inner, 0, 0, 1, KeyMode::exact()));
    assert_eq!(r.table.row_count(), 2);
    assert_eq!(joined_cell(&r.table, &a, &b, 0, 1), Some(CellValue::Text("x".into())));
    assert_eq!(joined_cell(&r.table, &a, &b, 1, 1), Some(CellValue::Text("y".into())));
    // inner:未命中行被丢弃,输出全为命中行
    assert_eq!(hits(&r), vec![true, true]);
}

#[test]
fn row_hit_marks_left_unmatched() {
    // 左连接:匹配上的行 hit=true;未匹配 A 行(补空)hit=false
    let a = tbl(&["id"], &[&["1"], &["2"], &["3"]]);
    let b = tbl(&["id", "v"], &[&["1", "x"], &["3", "y"]]);
    let r = join(&a, &b, &spec(JoinType::Left, 0, 0, 1, KeyMode::exact()));
    assert_eq!(r.table.row_count(), 3);
    assert_eq!(hits(&r), vec![true, false, true]);
}

#[test]
fn duplicate_right_key_fanout() {
    // 右表同 key 两行 → left 行复制成两行(vlookup 对重复键取第一条,这里取全部)
    let a = tbl(&["id"], &[&["1"]]);
    let b = tbl(&["id", "v"], &[&["1", "a"], &["1", "b"]]);
    let r = join(&a, &b, &spec(JoinType::Left, 0, 0, 1, KeyMode::exact()));
    assert_eq!(r.table.row_count(), 2);
    assert_eq!(joined_cell(&r.table, &a, &b, 0, 1), Some(CellValue::Text("a".into())));
    assert_eq!(joined_cell(&r.table, &a, &b, 1, 1), Some(CellValue::Text("b".into())));
    // 展开的两行都算命中
    assert_eq!(hits(&r), vec![true, true]);
    assert_eq!(r.left_matched, 1);
    assert_eq!(r.right_matched_rows, 2);
}

#[test]
fn no_expand_dup_takes_first_only() {
    // expand_dup=false:同 key 只取 B 第一条(经典 VLOOKUP),不展开
    let a = tbl(&["id"], &[&["1"]]);
    let b = tbl(&["id", "v"], &[&["1", "a"], &["1", "b"]]);
    let mut sp = spec(JoinType::Left, 0, 0, 1, KeyMode::exact());
    sp.expand_dup = false;
    let r = join(&a, &b, &sp);
    assert_eq!(r.table.row_count(), 1);
    assert_eq!(joined_cell(&r.table, &a, &b, 0, 1), Some(CellValue::Text("a".into())));
    assert_eq!(hits(&r), vec![true]);
    assert_eq!(r.right_matched_rows, 1); // 只算实际用到的一条 B
}

#[test]
fn estimate_join_rows_counts_dup() {
    // 3 个 A 键,每个在 B 命中 2 条 → 预估 6;B 最大单键重复 2,去重后 3
    let a = tbl(&["id"], &[&["1"], &["2"], &["3"]]);
    let b = tbl(
        &["id", "v"],
        &[
            &["1", "a"],
            &["1", "b"],
            &["2", "c"],
            &["2", "d"],
            &["3", "e"],
            &["3", "f"],
        ],
    );
    let estimate = estimate_join_rows(&a, &b, &[0], &[0], KeyMode::exact(), JoinType::Left, true);
    assert_eq!(estimate.output_rows, 6);
    assert_eq!(estimate.max_dup, 2);
    assert_eq!(estimate.distinct_keys, 3);
}

#[test]
fn estimate_matches_left_and_inner_output_contract() {
    // A=[1,9],B=[1,1]:Left 展开输出 2 个命中展开行 + 1 个未命中保留行;
    // Inner 只输出 2 个命中行。关闭展开时每个命中键只占 1 行。
    let a = tbl(&["id"], &[&["1"], &["9"]]);
    let b = tbl(&["id", "v"], &[&["1", "a"], &["1", "b"]]);

    let left_expand =
        estimate_join_rows(&a, &b, &[0], &[0], KeyMode::exact(), JoinType::Left, true);
    assert_eq!(left_expand.output_rows, 3);

    let inner_expand =
        estimate_join_rows(&a, &b, &[0], &[0], KeyMode::exact(), JoinType::Inner, true);
    assert_eq!(inner_expand.output_rows, 2);

    let left_first =
        estimate_join_rows(&a, &b, &[0], &[0], KeyMode::exact(), JoinType::Left, false);
    assert_eq!(left_first.output_rows, 2);
    assert_eq!(left_first.max_dup, 2);
    assert_eq!(left_first.distinct_keys, 1);

    let inner_first =
        estimate_join_rows(&a, &b, &[0], &[0], KeyMode::exact(), JoinType::Inner, false);
    assert_eq!(inner_first.output_rows, 1);
}

#[test]
fn estimate_counts_unmatched_left_rows() {
    let a = tbl(&["id"], &[&["9"]]);
    let b = tbl(&["id", "v"], &[&["1", "a"]]);
    let left = estimate_join_rows(&a, &b, &[0], &[0], KeyMode::exact(), JoinType::Left, true);
    assert_eq!(left.output_rows, 1);

    let inner = estimate_join_rows(&a, &b, &[0], &[0], KeyMode::exact(), JoinType::Inner, true);
    assert_eq!(inner.output_rows, 0);
}

#[test]
fn estimate_saturates_and_limit_is_strict() {
    assert_eq!(add_output_rows(usize::MAX - 1, 2), usize::MAX);

    let a = tbl(&["id"], &[&["1"], &["9"]]);
    let b = tbl(&["id", "v"], &[&["1", "a"], &["1", "b"]]);
    let mut sp = spec(JoinType::Left, 0, 0, 1, KeyMode::exact());
    // 预估正好等于上限时允许；超过上限才拒绝。
    assert!(join_with_limit(&a, &b, &sp, Some(3)).is_ok());
    assert!(join_with_limit(&a, &b, &sp, Some(2)).is_err());
    sp.expand_dup = false;
    assert!(join_with_limit(&a, &b, &sp, Some(2)).is_ok());
}

#[test]
fn upper_bound_within_limit_skips_estimate_with_same_output() {
    // A 两行、B 三行同键:上界 = 2 × 3 = 6,Left 展开实际输出 3 + 1 = 4 行。
    let a = tbl(&["id"], &[&["1"], &["9"]]);
    let b = tbl(&["id", "v"], &[&["1", "a"], &["1", "b"], &["1", "c"]]);
    let sp = spec(JoinType::Left, 0, 0, 1, KeyMode::exact());

    // 上限 6 ≥ 上界 → 判定不可能超限,跳过 A 侧预估扫描直接连接。
    let (skipped, skipped_timings) = join_with_limit_metrics(&a, &b, &sp, Some(6)).unwrap();
    assert!(
        skipped_timings.estimate.is_none(),
        "上界不超过上限时不应再做整张 A 表的预估扫描"
    );
    assert_eq!(skipped.out_rows, 4);
    assert_eq!(skipped.matched_rows, 3);
    assert_eq!(skipped.left_matched, 1);

    // 上限 5 < 上界 → 仍走预估路径,输出必须逐行一致。
    let (estimated, estimated_timings) = join_with_limit_metrics(&a, &b, &sp, Some(5)).unwrap();
    assert_eq!(estimated_timings.estimate.map(|e| e.output_rows), Some(4));
    assert_eq!(estimated.table.rows, skipped.table.rows);
    assert_eq!(estimated.matched_rows, skipped.matched_rows);
}

#[test]
fn estimate_unmatched_is_not_counted_for_inner() {
    // 保留一个单独的 Inner 回归断言，避免以后只针对 Left 修复时丢掉口径。
    let a2 = tbl(&["id"], &[&["9"]]);
    let b2 = tbl(&["id", "v"], &[&["1", "a"]]);
    let estimate =
        estimate_join_rows(&a2, &b2, &[0], &[0], KeyMode::exact(), JoinType::Inner, true);
    assert_eq!(estimate.output_rows, 0);
}

#[test]
fn estimate_equals_materialized_output_for_both_join_types() {
    let a = tbl(&["id"], &[&["1"], &["9"], &["1"]]);
    let b = tbl(&["id", "v"], &[&["1", "a"], &["1", "b"]]);
    for join_type in JoinType::all() {
        for expand_dup in [false, true] {
            let estimate =
                estimate_join_rows(&a, &b, &[0], &[0], KeyMode::exact(), join_type, expand_dup);
            let mut join_spec = spec(join_type, 0, 0, 1, KeyMode::exact());
            join_spec.expand_dup = expand_dup;
            let result = join_with_limit(&a, &b, &join_spec, Some(usize::MAX)).unwrap();
            assert_eq!(estimate.output_rows, result.out_rows);
        }
    }
}

#[test]
fn composite_key() {
    let a = tbl(&["k1", "k2", "v"], &[&["a", "1", "l1"]]);
    let b = tbl(&["k1", "k2", "w"], &[&["a", "1", "r1"], &["a", "2", "r2"]]);
    let r = join(
        &a,
        &b,
        &JoinSpec {
            join_type: JoinType::Left,
            left_keys: vec![0, 1],
            right_keys: vec![0, 1],
            left_pick: None,
            right_pick: vec![2],
            key_mode: KeyMode::exact(),
            expand_dup: true,
        },
    );
    assert_eq!(r.table.row_count(), 1);
    assert_eq!(r.table.headers, vec!["k1", "k2", "v", "w"]);
    assert_eq!(joined_cell(&r.table, &a, &b, 0, 3), Some(CellValue::Text("r1".into())));
}

#[test]
fn normalize_key_matches_number_text() {
    let a = tbl(&["id"], &[&["123"]]); // 文本 123
    let mut tb = Table::new(vec!["id".into(), "v".into()]);
    tb.push_row(vec![
        CellValue::Number("123".to_string()),
        CellValue::Text("num".into()),
    ]);
    let r = join(&a, &tb, &spec(JoinType::Left, 0, 0, 1, KeyMode::normalize()));
    assert_eq!(r.table.row_count(), 1);
    assert_eq!(joined_cell(&r.table, &a, &tb, 0, 1), Some(CellValue::Text("num".into())));

    // Exact 下数字 123 ≠ 文本 "123"
    let r2 = join(&a, &tb, &spec(JoinType::Left, 0, 0, 1, KeyMode::exact()));
    assert_eq!(joined_cell(&r2.table, &a, &tb, 0, 1), Some(CellValue::Empty));
}

#[test]
fn normalize_does_not_make_leading_zero_number_equal() {
    let a = tbl(&["id"], &[&["001"]]);
    let mut b = Table::new(vec!["id".into(), "v".into()]);
    b.push_row(vec![
        CellValue::Number("1".to_string()),
        CellValue::Text("number".into()),
    ]);
    let result = join(&a, &b, &spec(JoinType::Left, 0, 0, 1, KeyMode::normalize()));
    assert_eq!(joined_cell(&result.table, &a, &b, 0, 1), Some(CellValue::Empty));
}

#[test]
fn empty_key_not_matched() {
    // 左表空键行 → left 保留但右侧空
    let a = tbl(&["id"], &[&[""], &["1"]]);
    let b = tbl(&["id", "v"], &[&["1", "x"]]);
    let r = join(&a, &b, &spec(JoinType::Left, 0, 0, 1, KeyMode::exact()));
    assert_eq!(r.table.row_count(), 2);
    assert_eq!(joined_cell(&r.table, &a, &b, 0, 1), Some(CellValue::Empty));
    assert_eq!(joined_cell(&r.table, &a, &b, 1, 1), Some(CellValue::Text("x".into())));
}

#[test]
fn multiple_pick_columns() {
    let a = tbl(&["id"], &[&["1"]]);
    let b = tbl(&["id", "x", "y"], &[&["1", "10", "20"]]);
    let r = join(
        &a,
        &b,
        &JoinSpec {
            join_type: JoinType::Left,
            left_keys: vec![0],
            right_keys: vec![0],
            left_pick: None,
            right_pick: vec![1, 2],
            key_mode: KeyMode::exact(),
            expand_dup: true,
        },
    );
    assert_eq!(r.table.headers, vec!["id", "x", "y"]);
    assert_eq!(r.table.row_count(), 1);
    assert_eq!(joined_cell(&r.table, &a, &b, 0, 2), Some(CellValue::Text("20".into())));
}

#[test]
fn case_suffix_supported_forms_and_boundaries() {
    let base = "台88（2025）执388号";
    for suffix in [
        "之一",
        "之十二",
        "之二十三",
        "之一百零二",
        "之两千〇一",
        "之一万",
        "（之十二）",
        "(之十二)",
    ] {
        let original = format!("{base}{suffix}");
        assert_eq!(strip_case_suffix(&original), base, "{original}");
    }
    for suffix in [
        "",
        "之",
        "之12",
        "之壹",
        "之十二附注",
        "（之十二)",
        "(之十二）",
        "（之十二",
        "之十二）",
        "之一（之二）",
    ] {
        let original = format!("{base}{suffix}");
        assert_eq!(strip_case_suffix(&original), original, "{original}");
    }
    assert_eq!(strip_case_suffix("普通文本之十二"), "普通文本之十二");
}

#[test]
fn case_suffix_join_preserves_left_rows_and_original_values() {
    let a = tbl(
        &["文书号"],
        &[
            &["台88（2025）民初232号之一"],
            &["台88（2025）民初232号之十二"],
        ],
    );
    let b = tbl(
        &["案号", "承办部门"],
        &[&["台88（2025）民初232号", "某部门"]],
    );
    let mode = KeyMode {
        case_suffix: true,
        ..KeyMode::exact()
    };
    for expand_dup in [false, true] {
        let mut sp = spec(JoinType::Left, 0, 0, 1, mode);
        sp.expand_dup = expand_dup;
        let result = join_with_limit(&a, &b, &sp, Some(2)).unwrap();
        assert_eq!(hits(&result), vec![true, true]);
        for row in 0..2 {
            assert_eq!(
                joined_cell(&result.table, &a, &b, row, 0),
                Some(a.rows[row][0].clone())
            );
            assert_eq!(
                joined_cell(&result.table, &a, &b, row, 1),
                Some(b.rows[0][1].clone())
            );
        }
    }
    let disabled = join(&a, &b, &spec(JoinType::Left, 0, 0, 1, KeyMode::default()));
    assert_eq!(hits(&disabled), vec![false, false]);
}

#[test]
fn case_suffix_cleans_both_sides_and_respects_limits() {
    let a = tbl(&["案号"], &[&[" 台88（2025）执388号之十二 "]]);
    let b = tbl(
        &["案号", "承办部门"],
        &[
            &["台88(2025)执388号(之二十三)", "甲"],
            &["台88(2025)执388号", "乙"],
        ],
    );
    let mode = KeyMode {
        case_suffix: true,
        ..KeyMode::default()
    };
    let mut sp = spec(JoinType::Left, 0, 0, 1, mode);
    assert_eq!(
        estimate_join_rows(&a, &b, &[0], &[0], mode, JoinType::Left, true).output_rows,
        2
    );
    assert!(join_with_limit(&a, &b, &sp, Some(1)).is_err());
    assert_eq!(
        hits(&join_with_limit(&a, &b, &sp, Some(2)).unwrap()),
        vec![true, true]
    );
    sp.expand_dup = false;
    assert_eq!(
        hits(&join_with_limit(&a, &b, &sp, Some(1)).unwrap()),
        vec![true]
    );
    sp.key_mode.number_text = false;
    assert_eq!(hits(&join(&a, &b, &sp)), vec![false]);
}

#[test]
fn bracket_fold_matches_chinese_english() {
    // 开启括号归一化:中文（）与英文 () 互认
    let a = tbl(&["name"], &[&["苹果（红）"]]);
    let b = tbl(&["name", "v"], &[&["苹果(红)", "x"]]);
    let m = KeyMode {
        number_text: false,
        brackets: true,
        case_suffix: false,
    };
    let r = join(&a, &b, &spec(JoinType::Left, 0, 0, 1, m));
    assert_eq!(r.table.row_count(), 1);
    assert_eq!(joined_cell(&r.table, &a, &b, 0, 1), Some(CellValue::Text("x".into())));

    // 关闭括号归一化则不匹配
    let m2 = KeyMode {
        number_text: false,
        brackets: false,
        case_suffix: false,
    };
    let r2 = join(&a, &b, &spec(JoinType::Left, 0, 0, 1, m2));
    assert_eq!(r2.table.row_count(), 1);
    assert_eq!(joined_cell(&r2.table, &a, &b, 0, 1), Some(CellValue::Empty));
}

#[test]
fn bracket_fold_covers_all_pairs() {
    // 【】→[]、｛｝→{} 等成对折叠
    let a = tbl(&["k"], &[&["型号【A】｛B｝〔C〕"]]);
    let b = tbl(&["k", "v"], &[&["型号[A]{B}(C)", "hit"]]);
    let m = KeyMode {
        number_text: false,
        brackets: true,
        case_suffix: false,
    };
    let r = join(&a, &b, &spec(JoinType::Left, 0, 0, 1, m));
    assert_eq!(r.table.row_count(), 1);
    assert_eq!(joined_cell(&r.table, &a, &b, 0, 1), Some(CellValue::Text("hit".into())));
}

#[test]
fn bracket_fold_independent_of_number_text() {
    // 括号归一化与数字/文本互认是独立开关:开括号时数字仍精确
    let a = tbl(&["id"], &[&["1（a）"]]);
    let b = tbl(&["id", "v"], &[&["1(a)", "x"]]);
    let m = KeyMode {
        number_text: false,
        brackets: true,
        case_suffix: false,
    };
    let r = join(&a, &b, &spec(JoinType::Left, 0, 0, 1, m));
    assert_eq!(joined_cell(&r.table, &a, &b, 0, 1), Some(CellValue::Text("x".into())));
}

#[test]
fn trim_and_empty_cell_semantics_remain_distinct() {
    let mut a = Table::new(vec!["id".into()]);
    a.push_row(vec![CellValue::Empty]);
    a.push_row(vec![CellValue::Text(String::new())]);
    a.push_row(vec![CellValue::Text("   ".into())]);
    let mut b = Table::new(vec!["id".into(), "v".into()]);
    b.push_row(vec![
        CellValue::Text(String::new()),
        CellValue::Text("text".into()),
    ]);

    let exact = join(&a, &b, &spec(JoinType::Left, 0, 0, 1, KeyMode::exact()));
    assert_eq!(hits(&exact), vec![false, true, false]);

    let normalized = join(&a, &b, &spec(JoinType::Left, 0, 0, 1, KeyMode::normalize()));
    // Text("") 与纯空白在 trim 后相同，但仍不与 Empty 相同。
    assert_eq!(hits(&normalized), vec![false, true, true]);
}

#[test]
fn reused_key_buffer_clears_after_partial_write_and_empty_key() {
    let row = vec![CellValue::Text("first".into())];
    let mut key = String::from("stale-key");

    // 第一列已经写入后，第二列越界；失败路径不能留下部分 key。
    assert!(!write_key(&row, &[0, 1], KeyMode::exact(), &mut key));
    assert!(key.is_empty());

    // 单列 Empty 和全 Empty 复合键也必须清空上一次内容。
    assert!(!write_key(
        &[CellValue::Empty],
        &[0],
        KeyMode::exact(),
        &mut key
    ));
    assert!(key.is_empty());
    assert!(!write_key(
        &[CellValue::Empty, CellValue::Empty],
        &[0, 1],
        KeyMode::exact(),
        &mut key
    ));
    assert!(key.is_empty());
}

#[test]
fn reused_key_buffer_handles_long_short_and_bracketed_keys() {
    let mode = KeyMode {
        number_text: true,
        brackets: true,
        case_suffix: false,
    };
    let mut key = String::new();
    let long = vec![CellValue::Text("  很长的键值（A）以及尾部  ".into())];
    assert!(write_key(&long, &[0], mode, &mut key));
    assert_eq!(key, "V:很长的键值(A)以及尾部");

    let short = vec![CellValue::Text("x".into())];
    assert!(write_key(&short, &[0], mode, &mut key));
    assert_eq!(key, "V:x");
}

#[test]
fn bracket_fold_borrows_when_no_replacement_is_needed() {
    assert!(matches!(fold_brackets("plain"), Cow::Borrowed("plain")));
    assert_eq!(fold_brackets("型号（A）").as_ref(), "型号(A)");
}

#[test]
fn composite_separator_collision_is_unchanged_and_documented() {
    // 历史复合键用 U+0001 分隔且不转义：
    // ["x", "\u{1}S:d"] 与 ["x\u{1}S:", "d"] 会编码成同一 key。
    let a = tbl(&["k1", "k2"], &[&["x", "\u{1}S:d"]]);
    let b = tbl(&["k1", "k2", "v"], &[&["x\u{1}S:", "d", "hit"]]);
    let result = join(
        &a,
        &b,
        &JoinSpec {
            join_type: JoinType::Left,
            left_keys: vec![0, 1],
            right_keys: vec![0, 1],
            left_pick: None,
            right_pick: vec![2],
            key_mode: KeyMode::exact(),
            expand_dup: true,
        },
    );
    assert_eq!(
        joined_cell(&result.table, &a, &b, 0, 2),
        Some(CellValue::Text("hit".into()))
    );
}
