use std::borrow::Cow;

use excelookup::join::{
    add_output_rows, estimate_join_rows, join, join_with_limit, JoinResult, JoinSpec, JoinType,
    KeyMode,
};
use excelookup::keys::fold_brackets;
use excelookup::model::{CellValue, Table};

fn tbl(headers: &[&str], rows: &[&[&str]]) -> Table {
    let mut t = Table::new(headers.iter().map(|s| s.to_string()).collect());
    for r in rows {
        t.push_row(r.iter().map(|s| CellValue::Text(s.to_string())).collect());
    }
    t
}

fn spec(jt: JoinType, lk: usize, rk: usize, pick: usize, mode: KeyMode) -> JoinSpec {
    JoinSpec {
        join_type: jt,
        left_keys: vec![lk],
        right_keys: vec![rk],
        left_pick: None,
        right_pick: vec![pick],
        key_mode: mode,
        expand_dup: true,
    }
}

/// The match flag of every output row.
fn hits(result: &JoinResult) -> Vec<bool> {
    (0..result.table.row_count())
        .map(|row| result.table.row_hit(row))
        .collect()
}

#[test]
fn join_left_join_vlookup() {
    let a = tbl(
        &["id", "name"],
        &[&["1", "alice"], &["2", "bob"], &["3", "carol"]],
    );
    let b = tbl(&["id", "dept"], &[&["1", "eng"], &["3", "ops"]]);
    let r = join(&a, &b, &spec(JoinType::Left, 0, 0, 1, KeyMode::exact()));
    assert_eq!(r.table.headers, vec!["id", "name", "dept"]);
    assert_eq!(r.table.row_count(), 3);
    assert_eq!(r.table.materialize(&a, &b).cell(0, 2), Some(&CellValue::Text("eng".into())));
    assert_eq!(r.table.materialize(&a, &b).cell(1, 2), Some(&CellValue::Empty)); // bob 未匹配
    assert_eq!(r.table.materialize(&a, &b).cell(2, 2), Some(&CellValue::Text("ops".into())));
    assert_eq!(r.left_matched, 2);
}

#[test]
fn join_inner_join_drops_unmatched() {
    let a = tbl(&["id"], &[&["1"], &["2"], &["3"]]);
    let b = tbl(&["id", "v"], &[&["2", "x"], &["3", "y"]]);
    let r = join(&a, &b, &spec(JoinType::Inner, 0, 0, 1, KeyMode::exact()));
    assert_eq!(r.table.row_count(), 2);
    assert_eq!(r.table.materialize(&a, &b).cell(0, 1), Some(&CellValue::Text("x".into())));
    assert_eq!(r.table.materialize(&a, &b).cell(1, 1), Some(&CellValue::Text("y".into())));
    // inner:未命中行被丢弃,输出全为命中行
    assert_eq!(hits(&r), vec![true, true]);
}

#[test]
fn join_row_hit_marks_left_unmatched() {
    // 左连接:匹配上的行 hit=true;未匹配 A 行(补空)hit=false
    let a = tbl(&["id"], &[&["1"], &["2"], &["3"]]);
    let b = tbl(&["id", "v"], &[&["1", "x"], &["3", "y"]]);
    let r = join(&a, &b, &spec(JoinType::Left, 0, 0, 1, KeyMode::exact()));
    assert_eq!(r.table.row_count(), 3);
    assert_eq!(hits(&r), vec![true, false, true]);
}

#[test]
fn join_duplicate_right_key_fanout() {
    // 右表同 key 两行 → left 行复制成两行(vlookup 对重复键取第一条,这里取全部)
    let a = tbl(&["id"], &[&["1"]]);
    let b = tbl(&["id", "v"], &[&["1", "a"], &["1", "b"]]);
    let r = join(&a, &b, &spec(JoinType::Left, 0, 0, 1, KeyMode::exact()));
    assert_eq!(r.table.row_count(), 2);
    assert_eq!(r.table.materialize(&a, &b).cell(0, 1), Some(&CellValue::Text("a".into())));
    assert_eq!(r.table.materialize(&a, &b).cell(1, 1), Some(&CellValue::Text("b".into())));
    // 展开的两行都算命中
    assert_eq!(hits(&r), vec![true, true]);
    assert_eq!(r.left_matched, 1);
    assert_eq!(r.right_matched_rows, 2);
}

#[test]
fn join_no_expand_dup_takes_first_only() {
    // expand_dup=false:同 key 只取 B 第一条(经典 VLOOKUP),不展开
    let a = tbl(&["id"], &[&["1"]]);
    let b = tbl(&["id", "v"], &[&["1", "a"], &["1", "b"]]);
    let mut sp = spec(JoinType::Left, 0, 0, 1, KeyMode::exact());
    sp.expand_dup = false;
    let r = join(&a, &b, &sp);
    assert_eq!(r.table.row_count(), 1);
    assert_eq!(r.table.materialize(&a, &b).cell(0, 1), Some(&CellValue::Text("a".into())));
    assert_eq!(hits(&r), vec![true]);
    assert_eq!(r.right_matched_rows, 1); // 只算实际用到的一条 B
}

#[test]
fn join_estimate_join_rows_counts_dup() {
    // 3 个 A 键,每个在 B 命中 2 条 → 预估 6;B 最大单键重复 2,去重后 3
    let a = tbl(&["id"], &[&["1"], &["2"], &["3"]]);
    let b = tbl(
        &["id", "v"],
        &[
            &["1", "a"],
            &["1", "b"],
            &["2", "c"],
            &["2", "d"],
            &["3", "e"],
            &["3", "f"],
        ],
    );
    let estimate = estimate_join_rows(&a, &b, &[0], &[0], KeyMode::exact(), JoinType::Left, true);
    assert_eq!(estimate.output_rows, 6);
    assert_eq!(estimate.max_dup, 2);
    assert_eq!(estimate.distinct_keys, 3);
}

#[test]
fn join_estimate_matches_left_and_inner_output_contract() {
    // A=[1,9],B=[1,1]:Left 展开输出 2 个命中展开行 + 1 个未命中保留行;
    // Inner 只输出 2 个命中行。关闭展开时每个命中键只占 1 行。
    let a = tbl(&["id"], &[&["1"], &["9"]]);
    let b = tbl(&["id", "v"], &[&["1", "a"], &["1", "b"]]);

    let left_expand =
        estimate_join_rows(&a, &b, &[0], &[0], KeyMode::exact(), JoinType::Left, true);
    assert_eq!(left_expand.output_rows, 3);

    let inner_expand =
        estimate_join_rows(&a, &b, &[0], &[0], KeyMode::exact(), JoinType::Inner, true);
    assert_eq!(inner_expand.output_rows, 2);

    let left_first =
        estimate_join_rows(&a, &b, &[0], &[0], KeyMode::exact(), JoinType::Left, false);
    assert_eq!(left_first.output_rows, 2);
    assert_eq!(left_first.max_dup, 2);
    assert_eq!(left_first.distinct_keys, 1);

    let inner_first =
        estimate_join_rows(&a, &b, &[0], &[0], KeyMode::exact(), JoinType::Inner, false);
    assert_eq!(inner_first.output_rows, 1);
}

#[test]
fn join_estimate_counts_unmatched_left_rows() {
    let a = tbl(&["id"], &[&["9"]]);
    let b = tbl(&["id", "v"], &[&["1", "a"]]);
    let left = estimate_join_rows(&a, &b, &[0], &[0], KeyMode::exact(), JoinType::Left, true);
    assert_eq!(left.output_rows, 1);

    let inner = estimate_join_rows(&a, &b, &[0], &[0], KeyMode::exact(), JoinType::Inner, true);
    assert_eq!(inner.output_rows, 0);
}

#[test]
fn join_estimate_saturates_and_limit_is_strict() {
    assert_eq!(add_output_rows(usize::MAX - 1, 2), usize::MAX);

    let a = tbl(&["id"], &[&["1"], &["9"]]);
    let b = tbl(&["id", "v"], &[&["1", "a"], &["1", "b"]]);
    let mut sp = spec(JoinType::Left, 0, 0, 1, KeyMode::exact());
    // 预估正好等于上限时允许；超过上限才拒绝。
    assert!(join_with_limit(&a, &b, &sp, Some(3)).is_ok());
    assert!(join_with_limit(&a, &b, &sp, Some(2)).is_err());
    sp.expand_dup = false;
    assert!(join_with_limit(&a, &b, &sp, Some(2)).is_ok());
}

#[test]
fn join_estimate_unmatched_is_not_counted_for_inner() {
    // 保留一个单独的 Inner 回归断言，避免以后只针对 Left 修复时丢掉口径。
    let a2 = tbl(&["id"], &[&["9"]]);
    let b2 = tbl(&["id", "v"], &[&["1", "a"]]);
    let estimate =
        estimate_join_rows(&a2, &b2, &[0], &[0], KeyMode::exact(), JoinType::Inner, true);
    assert_eq!(estimate.output_rows, 0);
}

#[test]
fn join_estimate_equals_materialized_output_for_both_join_types() {
    let a = tbl(&["id"], &[&["1"], &["9"], &["1"]]);
    let b = tbl(&["id", "v"], &[&["1", "a"], &["1", "b"]]);
    for join_type in JoinType::all() {
        for expand_dup in [false, true] {
            let estimate =
                estimate_join_rows(&a, &b, &[0], &[0], KeyMode::exact(), join_type, expand_dup);
            let mut join_spec = spec(join_type, 0, 0, 1, KeyMode::exact());
            join_spec.expand_dup = expand_dup;
            let result = join_with_limit(&a, &b, &join_spec, Some(usize::MAX)).unwrap();
            assert_eq!(estimate.output_rows, result.out_rows);
        }
    }
}

#[test]
fn join_composite_key() {
    let a = tbl(&["k1", "k2", "v"], &[&["a", "1", "l1"]]);
    let b = tbl(&["k1", "k2", "w"], &[&["a", "1", "r1"], &["a", "2", "r2"]]);
    let r = join(
        &a,
        &b,
        &JoinSpec {
            join_type: JoinType::Left,
            left_keys: vec![0, 1],
            right_keys: vec![0, 1],
            left_pick: None,
            right_pick: vec![2],
            key_mode: KeyMode::exact(),
            expand_dup: true,
        },
    );
    assert_eq!(r.table.row_count(), 1);
    assert_eq!(r.table.headers, vec!["k1", "k2", "v", "w"]);
    assert_eq!(r.table.materialize(&a, &b).cell(0, 3), Some(&CellValue::Text("r1".into())));
}

#[test]
fn join_normalize_key_matches_number_text() {
    let a = tbl(&["id"], &[&["123"]]); // 文本 123
    let mut tb = Table::new(vec!["id".into(), "v".into()]);
    tb.push_row(vec![
        CellValue::Number("123".to_string()),
        CellValue::Text("num".into()),
    ]);
    let r = join(&a, &tb, &spec(JoinType::Left, 0, 0, 1, KeyMode::normalize()));
    assert_eq!(r.table.row_count(), 1);
    assert_eq!(r.table.materialize(&a, &tb).cell(0, 1), Some(&CellValue::Text("num".into())));

    // Exact 下数字 123 ≠ 文本 "123"
    let r2 = join(&a, &tb, &spec(JoinType::Left, 0, 0, 1, KeyMode::exact()));
    assert_eq!(r2.table.materialize(&a, &tb).cell(0, 1), Some(&CellValue::Empty));
}

#[test]
fn join_normalize_does_not_make_leading_zero_number_equal() {
    let a = tbl(&["id"], &[&["001"]]);
    let mut b = Table::new(vec!["id".into(), "v".into()]);
    b.push_row(vec![
        CellValue::Number("1".to_string()),
        CellValue::Text("number".into()),
    ]);
    let result = join(&a, &b, &spec(JoinType::Left, 0, 0, 1, KeyMode::normalize()));
    assert_eq!(result.table.materialize(&a, &b).cell(0, 1), Some(&CellValue::Empty));
}

#[test]
fn join_empty_key_not_matched() {
    // 左表空键行 → left 保留但右侧空
    let a = tbl(&["id"], &[&[""], &["1"]]);
    let b = tbl(&["id", "v"], &[&["1", "x"]]);
    let r = join(&a, &b, &spec(JoinType::Left, 0, 0, 1, KeyMode::exact()));
    assert_eq!(r.table.row_count(), 2);
    assert_eq!(r.table.materialize(&a, &b).cell(0, 1), Some(&CellValue::Empty));
    assert_eq!(r.table.materialize(&a, &b).cell(1, 1), Some(&CellValue::Text("x".into())));
}

#[test]
fn join_multiple_pick_columns() {
    let a = tbl(&["id"], &[&["1"]]);
    let b = tbl(&["id", "x", "y"], &[&["1", "10", "20"]]);
    let r = join(
        &a,
        &b,
        &JoinSpec {
            join_type: JoinType::Left,
            left_keys: vec![0],
            right_keys: vec![0],
            left_pick: None,
            right_pick: vec![1, 2],
            key_mode: KeyMode::exact(),
            expand_dup: true,
        },
    );
    assert_eq!(r.table.headers, vec!["id", "x", "y"]);
    assert_eq!(r.table.row_count(), 1);
    assert_eq!(r.table.materialize(&a, &b).cell(0, 2), Some(&CellValue::Text("20".into())));
}

#[test]
fn join_bracket_fold_matches_chinese_english() {
    // 开启括号归一化:中文（）与英文 () 互认
    let a = tbl(&["name"], &[&["苹果（红）"]]);
    let b = tbl(&["name", "v"], &[&["苹果(红)", "x"]]);
    let m = KeyMode {
        number_text: false,
        brackets: true,
        case_suffix: false,
    };
    let r = join(&a, &b, &spec(JoinType::Left, 0, 0, 1, m));
    assert_eq!(r.table.row_count(), 1);
    assert_eq!(r.table.materialize(&a, &b).cell(0, 1), Some(&CellValue::Text("x".into())));

    // 关闭括号归一化则不匹配
    let m2 = KeyMode {
        number_text: false,
        brackets: false,
        case_suffix: false,
    };
    let r2 = join(&a, &b, &spec(JoinType::Left, 0, 0, 1, m2));
    assert_eq!(r2.table.row_count(), 1);
    assert_eq!(r2.table.materialize(&a, &b).cell(0, 1), Some(&CellValue::Empty));
}

#[test]
fn join_bracket_fold_covers_all_pairs() {
    // 【】→[]、｛｝→{} 等成对折叠
    let a = tbl(&["k"], &[&["型号【A】｛B｝〔C〕"]]);
    let b = tbl(&["k", "v"], &[&["型号[A]{B}(C)", "hit"]]);
    let m = KeyMode {
        number_text: false,
        brackets: true,
        case_suffix: false,
    };
    let r = join(&a, &b, &spec(JoinType::Left, 0, 0, 1, m));
    assert_eq!(r.table.row_count(), 1);
    assert_eq!(r.table.materialize(&a, &b).cell(0, 1), Some(&CellValue::Text("hit".into())));
}

#[test]
fn join_bracket_fold_independent_of_number_text() {
    // 括号归一化与数字/文本互认是独立开关:开括号时数字仍精确
    let a = tbl(&["id"], &[&["1（a）"]]);
    let b = tbl(&["id", "v"], &[&["1(a)", "x"]]);
    let m = KeyMode {
        number_text: false,
        brackets: true,
        case_suffix: false,
    };
    let r = join(&a, &b, &spec(JoinType::Left, 0, 0, 1, m));
    assert_eq!(r.table.materialize(&a, &b).cell(0, 1), Some(&CellValue::Text("x".into())));
}

#[test]
fn join_trim_and_empty_cell_semantics_remain_distinct() {
    let mut a = Table::new(vec!["id".into()]);
    a.push_row(vec![CellValue::Empty]);
    a.push_row(vec![CellValue::Text(String::new())]);
    a.push_row(vec![CellValue::Text("   ".into())]);
    let mut b = Table::new(vec!["id".into(), "v".into()]);
    b.push_row(vec![
        CellValue::Text(String::new()),
        CellValue::Text("text".into()),
    ]);

    let exact = join(&a, &b, &spec(JoinType::Left, 0, 0, 1, KeyMode::exact()));
    assert_eq!(hits(&exact), vec![false, true, false]);

    let normalized = join(&a, &b, &spec(JoinType::Left, 0, 0, 1, KeyMode::normalize()));
    // Text("") 与纯空白在 trim 后相同，但仍不与 Empty 相同。
    assert_eq!(hits(&normalized), vec![false, true, true]);
}

#[test]
fn join_bracket_fold_borrows_when_no_replacement_is_needed() {
    assert!(matches!(fold_brackets("plain"), Cow::Borrowed("plain")));
    assert_eq!(fold_brackets("型号（A）").as_ref(), "型号(A)");
}

#[test]
fn join_composite_separator_collision_is_unchanged_and_documented() {
    // 历史复合键用 U+0001 分隔且不转义：
    // ["x", "\u{1}S:d"] 与 ["x\u{1}S:", "d"] 会编码成同一 key。
    let a = tbl(&["k1", "k2"], &[&["x", "\u{1}S:d"]]);
    let b = tbl(&["k1", "k2", "v"], &[&["x\u{1}S:", "d", "hit"]]);
    let result = join(
        &a,
        &b,
        &JoinSpec {
            join_type: JoinType::Left,
            left_keys: vec![0, 1],
            right_keys: vec![0, 1],
            left_pick: None,
            right_pick: vec![2],
            key_mode: KeyMode::exact(),
            expand_dup: true,
        },
    );
    assert_eq!(
        result.table.materialize(&a, &b).cell(0, 2),
        Some(&CellValue::Text("hit".into()))
    );
}
