//! Laws of the join: what every output row means, which rows are kept, and how the
//! estimate relates to the output.

use vstd::prelude::*;

use crate::index::{all_hits, lemma_hits_bounds, selected_hits};
use crate::join::{
    contribution, hit_count, is_matched, join_output, join_rows_upto, left_keys_of, right_keys_of,
    JoinSpec, JoinType, JoinedRow, UNMATCHED_RIGHT_ROW,
};
use crate::keys::{
    fold_bracket_spec, fold_spec, key_part_spec, strip_case_suffix_spec, KeyMode,
};
use crate::join::{matched_upto, saturate, is_join_result, JoinResult};
use crate::model::{CellValue, Table};
use crate::export::{report_due, PROGRESS_INTERVAL};
use crate::read::named_columns;
use crate::startup::{ascii_lower, explanation, lower_char};
use crate::text::{is_white_space_spec, trim_end_spec, trim_spec, trim_start_spec};
use crate::view::{clamp_column, plans_selection, rows_with_hit, JoinPlan, JoinSelection};
use crate::join::{has_output_columns_spec, opt_vec_view, valid_columns};

verus! {

/// Output row `row` comes from left row `l`.
pub open spec fn from_left_row(
    row: JoinedRow,
    l: int,
    lkeys: Seq<Option<Seq<char>>>,
    rkeys: Seq<Option<Seq<char>>>,
    join_type: JoinType,
    expand_dup: bool,
) -> bool {
    &&& row.left_row as int == l
    &&& if is_matched(lkeys[l], rkeys) {
        selected_hits(all_hits(rkeys, lkeys[l]->0), expand_dup).contains(row.right_row as usize)
            && row.right_row != UNMATCHED_RIGHT_ROW
    } else {
        join_type == JoinType::Left && row.right_row == UNMATCHED_RIGHT_ROW
    }
}

proof fn lemma_prefix(
    lkeys: Seq<Option<Seq<char>>>,
    rkeys: Seq<Option<Seq<char>>>,
    join_type: JoinType,
    expand_dup: bool,
    m: int,
    n: int,
)
    requires
        0 <= m <= n,
    ensures
        join_rows_upto(lkeys, rkeys, join_type, expand_dup, m).len() <= join_rows_upto(
            lkeys,
            rkeys,
            join_type,
            expand_dup,
            n,
        ).len(),
        join_rows_upto(lkeys, rkeys, join_type, expand_dup, m) == join_rows_upto(
            lkeys,
            rkeys,
            join_type,
            expand_dup,
            n,
        ).take(join_rows_upto(lkeys, rkeys, join_type, expand_dup, m).len() as int),
    decreases n - m,
{
    if m < n {
        lemma_prefix(lkeys, rkeys, join_type, expand_dup, m, n - 1);
        let a = join_rows_upto(lkeys, rkeys, join_type, expand_dup, n - 1);
        let b = join_rows_upto(lkeys, rkeys, join_type, expand_dup, n);
        let p = join_rows_upto(lkeys, rkeys, join_type, expand_dup, m);
        assert(b.take(a.len() as int) == a);
        assert(b.take(p.len() as int) == a.take(p.len() as int));
    } else {
        let b = join_rows_upto(lkeys, rkeys, join_type, expand_dup, n);
        assert(b.take(b.len() as int) == b);
    }
}

/// Every output row of the first `n` left rows comes from one of them.
proof fn lemma_member(
    lkeys: Seq<Option<Seq<char>>>,
    rkeys: Seq<Option<Seq<char>>>,
    join_type: JoinType,
    expand_dup: bool,
    n: int,
    i: int,
)
    requires
        0 <= n <= lkeys.len() <= u32::MAX,
        rkeys.len() <= u32::MAX,
        0 <= i < join_rows_upto(lkeys, rkeys, join_type, expand_dup, n).len(),
    ensures
        0 <= join_rows_upto(lkeys, rkeys, join_type, expand_dup, n)[i].left_row < n,
        from_left_row(
            join_rows_upto(lkeys, rkeys, join_type, expand_dup, n)[i],
            join_rows_upto(lkeys, rkeys, join_type, expand_dup, n)[i].left_row as int,
            lkeys,
            rkeys,
            join_type,
            expand_dup,
        ),
    decreases n,
{
    let prev = join_rows_upto(lkeys, rkeys, join_type, expand_dup, n - 1);
    let out = join_rows_upto(lkeys, rkeys, join_type, expand_dup, n);
    if i < prev.len() {
        lemma_member(lkeys, rkeys, join_type, expand_dup, n - 1, i);
        assert(out[i] == prev[i]);
    } else {
        let l = n - 1;
        let c = contribution(lkeys[l], rkeys, l, join_type, expand_dup);
        assert(out[i] == c[i - prev.len()]);
        if is_matched(lkeys[l], rkeys) {
            let h = all_hits(rkeys, lkeys[l]->0);
            let sel = selected_hits(h, expand_dup);
            lemma_hits_bounds(rkeys, lkeys[l]->0, rkeys.len() as int);
            let j = i - prev.len();
            assert(sel[j] == h[j]) by {
                if !expand_dup {
                    assert(sel[j] == h.take(1)[j]);
                }
            }
            assert(h[j] < rkeys.len());
            assert(c[j].right_row == sel[j] as u32);
            assert(sel.contains(c[j].right_row as usize));
        }
    }
}

/// Every matched output row joins a left row with a right row of the same key, and every
/// output row refers to an existing left row (and, when matched, right row).
pub proof fn law_output_rows_match_keys(left: Table, right: Table, spec: JoinSpec, i: int)
    requires
        left.rows@.len() <= u32::MAX,
        right.rows@.len() <= u32::MAX,
        0 <= i < join_output(left, right, spec).len(),
    ensures
        ({
            let row = join_output(left, right, spec)[i];
            let lk = left_keys_of(left, spec);
            let rk = right_keys_of(right, spec);
            &&& row.left_row < left.rows@.len()
            &&& row.right_row != UNMATCHED_RIGHT_ROW ==> {
                &&& row.right_row < right.rows@.len()
                &&& lk[row.left_row as int] is Some
                &&& rk[row.right_row as int] == lk[row.left_row as int]
            }
            &&& row.right_row == UNMATCHED_RIGHT_ROW ==> spec.join_type == JoinType::Left
                && !is_matched(lk[row.left_row as int], rk)
        }),
{
    let lk = left_keys_of(left, spec);
    let rk = right_keys_of(right, spec);
    lemma_member(lk, rk, spec.join_type, spec.expand_dup, lk.len() as int, i);
    let row = join_output(left, right, spec)[i];
    let l = row.left_row as int;
    if is_matched(lk[l], rk) {
        let h = all_hits(rk, lk[l]->0);
        lemma_hits_bounds(rk, lk[l]->0, rk.len() as int);
        let sel = selected_hits(h, spec.expand_dup);
        let j = choose|j: int| 0 <= j < sel.len() && sel[j] == row.right_row as usize;
        assert(sel[j] == h[j]) by {
            if !spec.expand_dup {
                assert(sel[j] == h.take(1)[j]);
            }
        }
    }
}

/// An inner join outputs only matched rows.
pub proof fn law_inner_join_rows_are_matched(left: Table, right: Table, spec: JoinSpec)
    requires
        left.rows@.len() <= u32::MAX,
        right.rows@.len() <= u32::MAX,
        spec.join_type == JoinType::Inner,
    ensures
        forall|i: int|
            0 <= i < join_output(left, right, spec).len() ==> (#[trigger] join_output(left, right, spec)[i]).right_row
                != UNMATCHED_RIGHT_ROW,
        hit_count(join_output(left, right, spec)) == join_output(left, right, spec).len(),
{
    let out = join_output(left, right, spec);
    assert forall|i: int| 0 <= i < out.len() implies (#[trigger] out[i]).right_row != UNMATCHED_RIGHT_ROW by {
        law_output_rows_match_keys(left, right, spec, i);
    }
    lemma_all_hit(out);
}

proof fn lemma_all_hit(rows: Seq<JoinedRow>)
    requires
        forall|i: int| 0 <= i < rows.len() ==> (#[trigger] rows[i]).right_row != UNMATCHED_RIGHT_ROW,
    ensures
        hit_count(rows) == rows.len(),
    decreases rows.len(),
{
    if rows.len() > 0 {
        let d = rows.drop_last();
        assert forall|i: int| 0 <= i < d.len() implies (#[trigger] d[i]).right_row != UNMATCHED_RIGHT_ROW by {
            assert(d[i] == rows[i]);
        }
        lemma_all_hit(d);
        assert(rows.last() == rows[rows.len() - 1]);
    }
}

/// The output follows the left table's row order.
pub proof fn law_output_in_left_row_order(left: Table, right: Table, spec: JoinSpec, i: int, j: int)
    requires
        left.rows@.len() <= u32::MAX,
        right.rows@.len() <= u32::MAX,
        0 <= i < j < join_output(left, right, spec).len(),
    ensures
        join_output(left, right, spec)[i].left_row <= join_output(left, right, spec)[j].left_row,
{
    let lk = left_keys_of(left, spec);
    let rk = right_keys_of(right, spec);
    lemma_order(lk, rk, spec.join_type, spec.expand_dup, lk.len() as int, i, j);
}

proof fn lemma_order(
    lkeys: Seq<Option<Seq<char>>>,
    rkeys: Seq<Option<Seq<char>>>,
    join_type: JoinType,
    expand_dup: bool,
    n: int,
    i: int,
    j: int,
)
    requires
        0 <= n <= lkeys.len() <= u32::MAX,
        rkeys.len() <= u32::MAX,
        0 <= i < j < join_rows_upto(lkeys, rkeys, join_type, expand_dup, n).len(),
    ensures
        join_rows_upto(lkeys, rkeys, join_type, expand_dup, n)[i].left_row <= join_rows_upto(
            lkeys,
            rkeys,
            join_type,
            expand_dup,
            n,
        )[j].left_row,
    decreases n,
{
    let prev = join_rows_upto(lkeys, rkeys, join_type, expand_dup, n - 1);
    let out = join_rows_upto(lkeys, rkeys, join_type, expand_dup, n);
    if j < prev.len() {
        lemma_order(lkeys, rkeys, join_type, expand_dup, n - 1, i, j);
        assert(out[i] == prev[i]);
        assert(out[j] == prev[j]);
    } else {
        lemma_member(lkeys, rkeys, join_type, expand_dup, n, j);
        lemma_member(lkeys, rkeys, join_type, expand_dup, n, i);
        if i < prev.len() {
            lemma_member(lkeys, rkeys, join_type, expand_dup, n - 1, i);
            assert(out[i] == prev[i]);
        }
        let c = contribution(lkeys[n - 1], rkeys, n - 1, join_type, expand_dup);
        assert(out[j] == c[j - prev.len()]);
        if is_matched(lkeys[n - 1], rkeys) {
            assert(c[j - prev.len()].left_row == (n - 1) as u32);
        }
    }
}

/// A left join keeps every left row: each appears in the output.
pub proof fn law_left_join_keeps_every_left_row(left: Table, right: Table, spec: JoinSpec, l: int)
    requires
        left.rows@.len() <= u32::MAX,
        right.rows@.len() <= u32::MAX,
        spec.join_type == JoinType::Left,
        0 <= l < left.rows@.len(),
    ensures
        exists|i: int|
            0 <= i < join_output(left, right, spec).len() && (#[trigger] join_output(left, right, spec)[i]).left_row
                == l,
{
    let lk = left_keys_of(left, spec);
    let rk = right_keys_of(right, spec);
    let n = lk.len() as int;
    lemma_prefix(lk, rk, spec.join_type, spec.expand_dup, l + 1, n);
    let upto = join_rows_upto(lk, rk, spec.join_type, spec.expand_dup, l + 1);
    let prev = join_rows_upto(lk, rk, spec.join_type, spec.expand_dup, l);
    let c = contribution(lk[l], rk, l, spec.join_type, spec.expand_dup);
    let out = join_output(left, right, spec);
    if is_matched(lk[l], rk) {
        let h = all_hits(rk, lk[l]->0);
        let sel = selected_hits(h, spec.expand_dup);
        assert(sel.len() >= 1) by {
            if !spec.expand_dup {
                assert(sel.len() == 1);
            }
        }
    }
    assert(c.len() >= 1);
    assert(upto[prev.len() as int] == c[0]);
    assert(out[prev.len() as int] == upto[prev.len() as int]);
}

/// With duplicate expansion, every pair of a left row and a right row with the same key
/// appears in the output.
pub proof fn law_expanded_join_has_every_matching_pair(
    left: Table,
    right: Table,
    spec: JoinSpec,
    l: int,
    r: int,
)
    requires
        left.rows@.len() <= u32::MAX,
        right.rows@.len() <= u32::MAX,
        spec.expand_dup,
        0 <= l < left.rows@.len(),
        0 <= r < right.rows@.len(),
        left_keys_of(left, spec)[l] is Some,
        right_keys_of(right, spec)[r] == left_keys_of(left, spec)[l],
    ensures
        join_output(left, right, spec).contains(JoinedRow { left_row: l as u32, right_row: r as u32 }),
{
    let lk = left_keys_of(left, spec);
    let rk = right_keys_of(right, spec);
    let k = lk[l]->0;
    let n = lk.len() as int;
    lemma_hit_in(rk, k, rk.len() as int, r);
    let h = all_hits(rk, k);
    let p = choose|p: int| 0 <= p < h.len() && h[p] == r as usize;
    lemma_prefix(lk, rk, spec.join_type, spec.expand_dup, l + 1, n);
    let upto = join_rows_upto(lk, rk, spec.join_type, spec.expand_dup, l + 1);
    let prev = join_rows_upto(lk, rk, spec.join_type, spec.expand_dup, l);
    let c = contribution(lk[l], rk, l, spec.join_type, spec.expand_dup);
    let out = join_output(left, right, spec);
    assert(c[p] == JoinedRow { left_row: l as u32, right_row: r as u32 });
    assert(upto[prev.len() + p] == c[p]);
    assert(out[prev.len() + p] == upto[prev.len() + p]);
}

proof fn lemma_hit_in(keys: Seq<Option<Seq<char>>>, k: Seq<char>, n: int, r: int)
    requires
        0 <= r < n <= keys.len() <= usize::MAX,
        keys[r] == Some(k),
    ensures
        exists|p: int| 0 <= p < crate::index::hits(keys, k, n).len() && crate::index::hits(keys, k, n)[p] == r as usize,
    decreases n,
{
    let h = crate::index::hits(keys, k, n);
    let prev = crate::index::hits(keys, k, n - 1);
    if r == n - 1 {
        assert(h[prev.len() as int] == r as usize);
    } else {
        lemma_hit_in(keys, k, n - 1, r);
        let p = choose|p: int| 0 <= p < prev.len() && prev[p] == r as usize;
        if keys[n - 1] == Some(k) {
            assert(h[p] == prev[p]);
        } else {
            assert(h == prev);
        }
    }
}

/// Without duplicate expansion a matched left row is joined with the first right row of
/// its key only, so no left row appears twice.
pub proof fn law_first_match_only(left: Table, right: Table, spec: JoinSpec, i: int, j: int)
    requires
        left.rows@.len() <= u32::MAX,
        right.rows@.len() <= u32::MAX,
        !spec.expand_dup,
        0 <= i < j < join_output(left, right, spec).len(),
    ensures
        join_output(left, right, spec)[i].left_row != join_output(left, right, spec)[j].left_row,
        ({
            let row = join_output(left, right, spec)[i];
            let lk = left_keys_of(left, spec);
            let rk = right_keys_of(right, spec);
            row.right_row != UNMATCHED_RIGHT_ROW ==> row.right_row as usize == all_hits(
                rk,
                lk[row.left_row as int]->0,
            )[0]
        }),
{
    let lk = left_keys_of(left, spec);
    let rk = right_keys_of(right, spec);
    lemma_first_only(lk, rk, spec.join_type, lk.len() as int, i, j);
    lemma_member(lk, rk, spec.join_type, false, lk.len() as int, i);
    let row = join_output(left, right, spec)[i];
    if row.right_row != UNMATCHED_RIGHT_ROW {
        let h = all_hits(rk, lk[row.left_row as int]->0);
        let sel = selected_hits(h, false);
        assert(sel.len() == 1);
        assert(sel[0] == h[0]);
    }
}

proof fn lemma_first_only(
    lkeys: Seq<Option<Seq<char>>>,
    rkeys: Seq<Option<Seq<char>>>,
    join_type: JoinType,
    n: int,
    i: int,
    j: int,
)
    requires
        0 <= n <= lkeys.len() <= u32::MAX,
        rkeys.len() <= u32::MAX,
        0 <= i < j < join_rows_upto(lkeys, rkeys, join_type, false, n).len(),
    ensures
        join_rows_upto(lkeys, rkeys, join_type, false, n)[i].left_row != join_rows_upto(
            lkeys,
            rkeys,
            join_type,
            false,
            n,
        )[j].left_row,
    decreases n,
{
    let prev = join_rows_upto(lkeys, rkeys, join_type, false, n - 1);
    let out = join_rows_upto(lkeys, rkeys, join_type, false, n);
    let c = contribution(lkeys[n - 1], rkeys, n - 1, join_type, false);
    assert(c.len() <= 1) by {
        if is_matched(lkeys[n - 1], rkeys) {
            let h = all_hits(rkeys, lkeys[n - 1]->0);
            assert(selected_hits(h, false).len() == 1);
        }
    }
    if j < prev.len() {
        lemma_first_only(lkeys, rkeys, join_type, n - 1, i, j);
        assert(out[i] == prev[i]);
        assert(out[j] == prev[j]);
    } else {
        lemma_member(lkeys, rkeys, join_type, false, n, j);
        assert(i < prev.len());
        lemma_member(lkeys, rkeys, join_type, false, n - 1, i);
        assert(out[i] == prev[i]);
    }
}

/// A left join without duplicate expansion outputs exactly one row per left row.
pub proof fn law_left_join_first_only_keeps_row_count(left: Table, right: Table, spec: JoinSpec)
    requires
        spec.join_type == JoinType::Left,
        !spec.expand_dup,
    ensures
        join_output(left, right, spec).len() == left.rows@.len(),
{
    let lk = left_keys_of(left, spec);
    let rk = right_keys_of(right, spec);
    lemma_one_per_row(lk, rk, lk.len() as int);
}

proof fn lemma_one_per_row(lkeys: Seq<Option<Seq<char>>>, rkeys: Seq<Option<Seq<char>>>, n: int)
    requires
        0 <= n,
    ensures
        join_rows_upto(lkeys, rkeys, JoinType::Left, false, n).len() == n,
    decreases n,
{
    if n > 0 {
        lemma_one_per_row(lkeys, rkeys, n - 1);
        if is_matched(lkeys[n - 1], rkeys) {
            let h = all_hits(rkeys, lkeys[n - 1]->0);
            assert(selected_hits(h, false).len() == 1);
        }
    }
}


proof fn lemma_hit_count_concat(a: Seq<JoinedRow>, b: Seq<JoinedRow>)
    ensures
        hit_count(a + b) == hit_count(a) + hit_count(b),
    decreases b.len(),
{
    if b.len() == 0 {
        assert(a + b == a);
    } else {
        lemma_hit_count_concat(a, b.drop_last());
        assert((a + b).drop_last() == a + b.drop_last());
        assert((a + b).last() == b.last());
    }
}

proof fn lemma_left_unmatched(lkeys: Seq<Option<Seq<char>>>, rkeys: Seq<Option<Seq<char>>>, expand_dup: bool, n: int)
    requires
        0 <= n <= lkeys.len() <= u32::MAX,
        rkeys.len() <= u32::MAX,
    ensures
        join_rows_upto(lkeys, rkeys, JoinType::Left, expand_dup, n).len() == hit_count(
            join_rows_upto(lkeys, rkeys, JoinType::Left, expand_dup, n),
        ) + (n - matched_upto(lkeys, rkeys, n)),
    decreases n,
{
    if n > 0 {
        lemma_left_unmatched(lkeys, rkeys, expand_dup, n - 1);
        let prev = join_rows_upto(lkeys, rkeys, JoinType::Left, expand_dup, n - 1);
        let c = contribution(lkeys[n - 1], rkeys, n - 1, JoinType::Left, expand_dup);
        lemma_hit_count_concat(prev, c);
        if is_matched(lkeys[n - 1], rkeys) {
            let h = all_hits(rkeys, lkeys[n - 1]->0);
            lemma_hits_bounds(rkeys, lkeys[n - 1]->0, rkeys.len() as int);
            let sel = selected_hits(h, expand_dup);
            assert forall|i: int| 0 <= i < c.len() implies (#[trigger] c[i]).right_row != UNMATCHED_RIGHT_ROW by {
                assert(sel[i] == h[i]) by {
                    if !expand_dup {
                        assert(sel[i] == h.take(1)[i]);
                    }
                }
            }
            lemma_all_hit(c);
        } else {
            assert(c.drop_last().len() == 0);
            assert(hit_count(c.drop_last()) == 0);
        }
    }
}

/// In a left join the unmatched output rows are exactly the left rows without match:
/// `out_rows - matched_rows == left_total - left_matched`.
pub proof fn law_left_join_unmatched_rows(left: Table, right: Table, spec: JoinSpec, r: JoinResult)
    requires
        left.rows@.len() <= u32::MAX,
        right.rows@.len() <= u32::MAX,
        spec.join_type == JoinType::Left,
        is_join_result(r, left, right, spec),
    ensures
        r.out_rows - r.matched_rows == r.left_total - r.left_matched,
{
    let lk = left_keys_of(left, spec);
    let rk = right_keys_of(right, spec);
    lemma_left_unmatched(lk, rk, spec.expand_dup, lk.len() as int);
}

/// The estimate of a join counts exactly the join's output rows.
pub proof fn law_estimate_equals_output_rows(left: Table, right: Table, spec: JoinSpec, output_rows: usize, r: JoinResult)
    requires
        output_rows == saturate(join_output(left, right, spec).len()),
        is_join_result(r, left, right, spec),
    ensures
        output_rows == r.out_rows,
{
}

/// An empty cell has no key part; a text or number cell always has one, even when it
/// is blank text.
pub proof fn law_only_empty_cells_lack_a_key(c: CellValue, mode: KeyMode)
    ensures
        key_part_spec(c, mode) is None <==> c is Empty,
{
}

/// Without number/text matching a number never matches a text.
pub proof fn law_exact_numbers_differ_from_text(t: String, s: String, mode: KeyMode)
    requires
        !mode.number_text,
    ensures
        key_part_spec(CellValue::Number(t), mode) != key_part_spec(CellValue::Text(s), mode),
{
    let a = key_part_spec(CellValue::Number(t), mode)->0;
    let b = key_part_spec(CellValue::Text(s), mode)->0;
    assert(a[0] == 'N');
    assert(b[0] == 'S');
}

/// With number/text matching a number and a text whose normalized body is the number's
/// text have the same key part.
pub proof fn law_number_matches_its_text(t: String, s: String, mode: KeyMode)
    requires
        mode.number_text,
        crate::keys::text_body_spec(s@, mode) == t@,
    ensures
        key_part_spec(CellValue::Number(t), mode) == key_part_spec(CellValue::Text(s), mode),
{
}

/// Folding brackets twice is folding them once.
pub proof fn law_fold_idempotent(s: Seq<char>)
    ensures
        fold_spec(fold_spec(s)) == fold_spec(s),
{
    assert forall|i: int| 0 <= i < s.len() implies fold_spec(fold_spec(s))[i] == fold_spec(s)[i] by {
        let c = s[i];
        assert(fold_bracket_spec(crate::keys::fold_char_spec(c)) is None);
    }
    assert(fold_spec(fold_spec(s)) =~= fold_spec(s));
}

/// Dropping the case-number suffix keeps the text or cuts it to a prefix ending in "号";
/// dropping it again changes nothing.
pub proof fn law_case_suffix_strip_is_prefix_and_idempotent(t: Seq<char>)
    ensures
        strip_case_suffix_spec(t) == t || (strip_case_suffix_spec(t).len() < t.len() && t.take(
            strip_case_suffix_spec(t).len() as int,
        ) == strip_case_suffix_spec(t) && strip_case_suffix_spec(t).last() == '号'),
        strip_case_suffix_spec(strip_case_suffix_spec(t)) == strip_case_suffix_spec(t),
{
    let r = strip_case_suffix_spec(t);
    let closed = t.len() > 0 && (t.last() == '）' || t.last() == ')');
    let body = if closed {
        t.drop_last()
    } else {
        t
    };
    lemma_strip_digits_prefix(body);
    let prefix = crate::keys::strip_digits_spec(body);
    if r != t {
        let base0 = prefix.drop_last();
        assert(body.take(prefix.len() as int) == prefix);
        if closed {
            assert(r == base0.drop_last());
            assert(t.take(r.len() as int) == r);
        } else {
            assert(r == base0);
            assert(t.take(r.len() as int) == r);
        }
    }
    // a text ending in "号" is its own base
    if r.len() > 0 && r.last() == '号' {
        assert(crate::keys::strip_digits_spec(r) == r);
    }
}

proof fn lemma_strip_digits_prefix(s: Seq<char>)
    ensures
        crate::keys::strip_digits_spec(s).len() <= s.len(),
        s.take(crate::keys::strip_digits_spec(s).len() as int) == crate::keys::strip_digits_spec(s),
    decreases s.len(),
{
    if s.len() > 0 && crate::keys::is_cn_digit_spec(s.last()) {
        lemma_strip_digits_prefix(s.drop_last());
        let p = crate::keys::strip_digits_spec(s.drop_last());
        assert(s.take(p.len() as int) == s.drop_last().take(p.len() as int));
    } else {
        assert(s.take(s.len() as int) == s);
    }
}

/// With number/text matching on, texts that differ only in leading or trailing
/// whitespace have the same key part.
pub proof fn law_normalized_keys_ignore_surrounding_whitespace(s: String, t: String, mode: KeyMode)
    requires
        mode.number_text,
        trim_spec(s@) == trim_spec(t@),
    ensures
        key_part_spec(CellValue::Text(s), mode) == key_part_spec(CellValue::Text(t), mode),
{
}

proof fn lemma_trim_start_keeps(s: Seq<char>, j: int) -> (k: int)
    requires
        0 <= j < s.len(),
        !is_white_space_spec(s[j]),
    ensures
        0 <= k <= j,
        trim_start_spec(s) == s.subrange(k, s.len() as int),
    decreases s.len(),
{
    if is_white_space_spec(s[0]) {
        let t = s.drop_first();
        assert(t[j - 1] == s[j]);
        let k1 = lemma_trim_start_keeps(t, j - 1);
        assert(t.subrange(k1, t.len() as int) == s.subrange(k1 + 1, s.len() as int));
        k1 + 1
    } else {
        assert(s.subrange(0, s.len() as int) == s);
        0
    }
}

proof fn lemma_trim_end_keeps(s: Seq<char>, j: int)
    requires
        0 <= j < s.len(),
        !is_white_space_spec(s[j]),
    ensures
        trim_end_spec(s).len() > j,
    decreases s.len(),
{
    if j < s.len() - 1 && is_white_space_spec(s.last()) {
        let t = s.drop_last();
        assert(t[j] == s[j]);
        lemma_trim_end_keeps(t, j);
    }
}

/// A text with a non-whitespace character does not trim to nothing.
proof fn lemma_trim_not_blank(s: Seq<char>, j: int)
    requires
        0 <= j < s.len(),
        !is_white_space_spec(s[j]),
    ensures
        trim_spec(s).len() > 0,
{
    let k = lemma_trim_start_keeps(s, j);
    let u = s.subrange(k, s.len() as int);
    assert(u[j - k] == s[j]);
    lemma_trim_end_keeps(u, j - k);
}

proof fn lemma_all_white_trims_to_nothing(s: Seq<char>)
    requires
        forall|j: int| 0 <= j < s.len() ==> is_white_space_spec(#[trigger] s[j]),
    ensures
        trim_spec(s).len() == 0,
    decreases s.len(),
{
    if s.len() > 0 {
        let t = s.drop_first();
        assert forall|j: int| 0 <= j < t.len() implies is_white_space_spec(#[trigger] t[j]) by {
            assert(t[j] == s[j + 1]);
        }
        lemma_all_white_trims_to_nothing(t);
        assert(is_white_space_spec(s[0]));
        assert(trim_start_spec(s) == trim_start_spec(t));
    }
}

/// A name whose trim is not empty holds a non-whitespace character.
proof fn lemma_not_blank_has_visible_char(s: Seq<char>) -> (j: int)
    requires
        trim_spec(s).len() > 0,
    ensures
        0 <= j < s.len(),
        !is_white_space_spec(s[j]),
{
    if forall|j: int| 0 <= j < s.len() ==> is_white_space_spec(#[trigger] s[j]) {
        lemma_all_white_trims_to_nothing(s);
        assert(false);
        0
    } else {
        choose|j: int| 0 <= j < s.len() && !is_white_space_spec(#[trigger] s[j])
    }
}

/// No column name comes out blank: a blank name is replaced by `列n`, and a numbered
/// repeat keeps the visible characters of the name it repeats.
pub proof fn law_column_names_are_never_blank(raw: Seq<Seq<char>>, i: int)
    requires
        0 <= i < raw.len(),
    ensures
        trim_spec(named_columns(raw)[i]).len() > 0,
{
    let filled = Seq::new(raw.len(), |k: int| crate::read::filled_name(raw[k], k));
    let f = filled[i];
    let j = if trim_spec(raw[i]).len() == 0 {
        assert(f[0] == '列');
        assert(!is_white_space_spec('列'));
        0
    } else {
        lemma_not_blank_has_visible_char(raw[i])
    };
    assert(!is_white_space_spec(f[j]));
    let name = named_columns(raw)[i];
    assert(name == crate::read::deduped_name(filled, i));
    assert(name[j] == f[j]);
    lemma_trim_not_blank(name, j);
}

/// While rows are written, a progress report falls due at least every
/// [`PROGRESS_INTERVAL`] rows, and always after the last row.
pub proof fn law_progress_reported_every_interval(total: nat, k: nat)
    requires
        k < total,
    ensures
        exists|j: nat| k < j && j <= k + PROGRESS_INTERVAL && j <= total && #[trigger] report_due(j, total),
        report_due(total, total),
{
    let m = PROGRESS_INTERVAL as nat;
    let next: nat = ((k / m) + 1) * m;
    assert(k < next <= k + m && next % m == 0) by (nonlinear_arith)
        requires
            m == 1024,
            next == ((k / m) + 1) * m,
    {
    }
    if next <= total {
        assert(report_due(next, total));
    } else {
        assert(report_due(total, total));
    }
}

/// Lowering ASCII capitals twice is lowering them once.
proof fn lemma_lower_idempotent(s: Seq<char>)
    ensures
        ascii_lower(ascii_lower(s)) == ascii_lower(s),
{
    assert forall|i: int| 0 <= i < s.len() implies #[trigger] lower_char(lower_char(s[i])) == lower_char(s[i]) by {
        let c = s[i];
        if 'A' <= c && c <= 'Z' {
            assert((((c as u32) + 32) as char) as u32 == (c as u32) + 32);
        }
    }
    assert(ascii_lower(ascii_lower(s)) =~= ascii_lower(s));
}

/// The likely cause of a start-up failure does not depend on the case of ASCII
/// letters in the error.
pub proof fn law_explanation_ignores_ascii_case(error: Seq<char>)
    ensures
        explanation(ascii_lower(error)) == explanation(error),
{
    lemma_lower_idempotent(error);
}

/// The matched rows and the unmatched rows of a result together are all its rows.
pub proof fn law_row_filters_partition_rows(rows: Seq<JoinedRow>, n: int)
    requires
        0 <= n,
    ensures
        rows_with_hit(rows, true, n).len() + rows_with_hit(rows, false, n).len() == n,
    decreases n,
{
    if n > 0 {
        law_row_filters_partition_rows(rows, n - 1);
    }
}

/// A join prepared from the configuration screen has its key columns inside both
/// tables and at least one output column, so running it cannot fail for want of one.
pub proof fn law_prepared_join_is_runnable(lc: usize, rc: usize, sel: JoinSelection, plan: JoinPlan)
    requires
        lc > 0,
        rc > 0,
        sel.left_key_col is Some,
        sel.right_key_col is Some,
        has_output_columns_spec(
            opt_vec_view(sel.left_pick_cols),
            valid_columns(sel.right_pick_cols@, rc as nat),
            lc as nat,
            rc as nat,
        ),
        plans_selection(plan, sel, lc, rc),
    ensures
        plan.spec.left_keys@.len() == 1 && plan.spec.left_keys@[0] < lc,
        plan.spec.right_keys@.len() == 1 && plan.spec.right_keys@[0] < rc,
        has_output_columns_spec(
            opt_vec_view(plan.spec.left_pick),
            plan.spec.right_pick@,
            lc as nat,
            rc as nat,
        ),
{
    assert(plan.spec.left_keys@[0] == clamp_column(sel.left_key_col.unwrap(), lc));
    assert(plan.spec.right_keys@[0] == clamp_column(sel.right_key_col.unwrap(), rc));
}

/// Two results of the same join agree on every output row and every count, whatever
/// output limit they ran under and whether an estimate was made first.
pub proof fn law_join_result_is_determined_by_its_inputs(
    left: Table,
    right: Table,
    spec: JoinSpec,
    a: JoinResult,
    b: JoinResult,
)
    requires
        is_join_result(a, left, right, spec),
        is_join_result(b, left, right, spec),
    ensures
        a.table.rows@ == b.table.rows@,
        a.table.headers@ == b.table.headers@,
        a.table.left_pick@ == b.table.left_pick@,
        a.table.right_pick@ == b.table.right_pick@,
        a.out_rows == b.out_rows,
        a.matched_rows == b.matched_rows,
        a.left_matched == b.left_matched,
        a.right_matched_rows == b.right_matched_rows,
{
}

/// The Chinese numerals a case-number branch suffix may be written with.
pub open spec fn is_case_numeral(c: char) -> bool {
    c == '零' || c == '〇' || c == '一' || c == '二' || c == '三' || c == '四' || c == '五'
        || c == '六' || c == '七' || c == '八' || c == '九' || c == '十' || c == '百' || c == '千'
        || c == '万' || c == '两'
}

/// A branch suffix written with Chinese numerals after a text ending in "号" is
/// dropped in all three forms: `b之n`, `b（之n）` and `b(之n)` all give `b`.
pub proof fn law_case_suffix_numerals_are_dropped(b: Seq<char>, n: Seq<char>)
    requires
        b.len() > 0,
        b.last() == '号',
        n.len() > 0,
        forall|i: int| 0 <= i < n.len() ==> is_case_numeral(#[trigger] n[i]),
    ensures
        strip_case_suffix_spec(b + seq!['之'] + n) == b,
        strip_case_suffix_spec(b + seq!['（', '之'] + n + seq!['）']) == b,
        strip_case_suffix_spec(b + seq!['(', '之'] + n + seq![')']) == b,
{
    let t = b + seq!['之'] + n;
    let j: int = b.len() as int + 1;
    assert forall|i: int| j <= i < t.len() implies crate::keys::is_cn_digit_spec(#[trigger] t[i]) by {
        assert(t[i] == n[i - j]);
        assert(is_case_numeral(n[i - j]));
    }
    assert(t[j - 1] == '之');
    crate::keys::lemma_strip_digits(t, j);
    assert(t.last() == n.last());
    assert(is_case_numeral(n[n.len() - 1]));
    assert(t.subrange(0, j) == b.push('之'));
    assert(b.push('之').drop_last() == b);

    let open_forms = seq![('（', '）'), ('(', ')')];
    assert forall|k: int| 0 <= k < 2 implies strip_case_suffix_spec(
        b + seq![(#[trigger] open_forms[k]).0, '之'] + n + seq![open_forms[k].1],
    ) == b by {
        let o = open_forms[k].0;
        let c = open_forms[k].1;
        let u = b + seq![o, '之'] + n + seq![c];
        let body = b + seq![o, '之'] + n;
        assert(u.last() == c);
        assert(u.drop_last() == body);
        let j2: int = b.len() as int + 2;
        assert forall|i: int| j2 <= i < body.len() implies crate::keys::is_cn_digit_spec(
            #[trigger] body[i],
        ) by {
            assert(body[i] == n[i - j2]);
            assert(is_case_numeral(n[i - j2]));
        }
        assert(body[j2 - 1] == '之');
        crate::keys::lemma_strip_digits(body, j2);
        let prefix = body.subrange(0, j2);
        assert(prefix == b.push(o).push('之'));
        assert(prefix.drop_last() == b.push(o));
        assert(b.push(o).drop_last() == b);
    }
    assert(open_forms[0] == ('（', '）'));
    assert(open_forms[1] == ('(', ')'));
}

/// Only those numerals make a suffix: after `b之`, any other character keeps the
/// text as it is.
pub proof fn law_other_characters_do_not_make_a_suffix(b: Seq<char>, c: char)
    requires
        !is_case_numeral(c),
    ensures
        strip_case_suffix_spec(b + seq!['之', c]) == b + seq!['之', c],
{
    let t = b + seq!['之', c];
    assert(t.last() == c);
    assert(!crate::keys::is_cn_digit_spec(c));
    if c == '）' || c == ')' {
        let body = t.drop_last();
        assert(body.last() == '之');
        assert(!crate::keys::is_cn_digit_spec('之'));
        crate::keys::lemma_strip_digits(body, body.len() as int);
        assert(body.subrange(0, body.len() as int) == body);
    } else {
        crate::keys::lemma_strip_digits(t, t.len() as int);
        assert(t.subrange(0, t.len() as int) == t);
    }
}

/// Unicode `White_Space`: the characters `char::is_whitespace` accepts.
pub open spec fn is_unicode_white_space(c: char) -> bool {
    let u = c as u32;
    u == 0x9 || u == 0xa || u == 0xb || u == 0xc || u == 0xd || u == 0x20 || u == 0x85 || u == 0xa0
        || u == 0x1680 || u == 0x2000 || u == 0x2001 || u == 0x2002 || u == 0x2003 || u == 0x2004
        || u == 0x2005 || u == 0x2006 || u == 0x2007 || u == 0x2008 || u == 0x2009 || u == 0x200a
        || u == 0x2028 || u == 0x2029 || u == 0x202f || u == 0x205f || u == 0x3000
}

/// Trimming removes exactly the Unicode whitespace: a single character trims to
/// nothing if and only if it is whitespace.
pub proof fn law_trim_removes_exactly_white_space(c: char)
    ensures
        trim_spec(seq![c]).len() == 0 <==> is_unicode_white_space(c),
{
    let s = seq![c];
    assert(s.drop_first().len() == 0);
    assert(s.last() == c);
    if is_white_space_spec(c) {
        assert(trim_start_spec(s) == trim_start_spec(s.drop_first()));
    } else {
        assert(trim_start_spec(s) == s);
    }
}

proof fn lemma_trim_start_push(s: Seq<char>, c: char)
    ensures
        trim_start_spec(s.push(c)) == (if trim_start_spec(s).len() == 0 && is_white_space_spec(c) {
            Seq::<char>::empty()
        } else {
            trim_start_spec(s).push(c)
        }),
    decreases s.len(),
{
    let t = s.push(c);
    if s.len() == 0 {
        assert(t == seq![c]);
        assert(t.drop_first().len() == 0);
        assert(trim_start_spec(t.drop_first()) == Seq::<char>::empty());
    } else if is_white_space_spec(s[0]) {
        assert(t[0] == s[0]);
        assert(t.drop_first() == s.drop_first().push(c));
        lemma_trim_start_push(s.drop_first(), c);
    } else {
        assert(t[0] == s[0]);
    }
}

/// With number/text matching on, whitespace before or after a text does not change
/// its key part: `c + s`, `s + c` and `s` match for every Unicode whitespace `c`.
pub proof fn law_keys_ignore_a_white_space_either_side(
    s: String,
    before: String,
    after: String,
    c: char,
    mode: KeyMode,
)
    requires
        mode.number_text,
        is_unicode_white_space(c),
        before@ == seq![c] + s@,
        after@ == s@.push(c),
    ensures
        key_part_spec(CellValue::Text(before), mode) == key_part_spec(CellValue::Text(s), mode),
        key_part_spec(CellValue::Text(after), mode) == key_part_spec(CellValue::Text(s), mode),
{
    assert(is_white_space_spec(c));
    let b = before@;
    assert(b[0] == c);
    assert(b.drop_first() == s@);
    assert(trim_start_spec(b) == trim_start_spec(s@));
    lemma_trim_start_push(s@, c);
    let ts = trim_start_spec(s@);
    if !(ts.len() == 0) {
        assert(ts.push(c).last() == c);
        assert(ts.push(c).drop_last() == ts);
    }
    assert(trim_spec(after@) == trim_spec(s@));
}

/// The key part a key cell contributes: its part, or nothing for an empty cell.
pub open spec fn cell_part(row: Seq<CellValue>, col: usize, mode: KeyMode) -> Seq<char> {
    match key_part_spec(row[col as int], mode) {
        Some(p) => p,
        None => Seq::empty(),
    }
}

/// The total length of the key parts of the columns `cols`.
pub open spec fn parts_len(row: Seq<CellValue>, cols: Seq<usize>, mode: KeyMode) -> nat
    decreases cols.len(),
{
    if cols.len() == 0 {
        0
    } else {
        parts_len(row, cols.drop_last(), mode) + cell_part(row, cols.last(), mode).len()
    }
}

/// How many times `c` occurs in `s`.
pub open spec fn occurrences(s: Seq<char>, c: char) -> nat
    decreases s.len(),
{
    if s.len() == 0 {
        0
    } else {
        occurrences(s.drop_last(), c) + (if s.last() == c {
            1nat
        } else {
            0nat
        })
    }
}

/// How many separators the key parts of the columns `cols` hold themselves.
pub open spec fn separators_in_parts(row: Seq<CellValue>, cols: Seq<usize>, mode: KeyMode) -> nat
    decreases cols.len(),
{
    if cols.len() == 0 {
        0
    } else {
        separators_in_parts(row, cols.drop_last(), mode) + occurrences(
            cell_part(row, cols.last(), mode),
            '\u{1}',
        )
    }
}

proof fn lemma_occurrences_concat(a: Seq<char>, b: Seq<char>, c: char)
    ensures
        occurrences(a + b, c) == occurrences(a, c) + occurrences(b, c),
    decreases b.len(),
{
    if b.len() == 0 {
        assert(a + b == a);
    } else {
        lemma_occurrences_concat(a, b.drop_last(), c);
        assert((a + b).drop_last() == a + b.drop_last());
        assert((a + b).last() == b.last());
    }
}

/// A composite key over `n` columns holds one U+0001 separator at each of the `n - 1`
/// column boundaries, whether or not a cell is empty: its length is the parts'
/// lengths plus `n - 1`, and it holds `n - 1` separators besides those inside parts.
pub proof fn law_composite_key_has_a_separator_per_boundary(
    row: Seq<CellValue>,
    cols: Seq<usize>,
    mode: KeyMode,
)
    requires
        cols.len() > 0,
    ensures
        crate::keys::composite_key_spec(row, cols, mode).len() == parts_len(row, cols, mode)
            + cols.len() - 1,
        occurrences(crate::keys::composite_key_spec(row, cols, mode), '\u{1}') == separators_in_parts(
            row,
            cols,
            mode,
        ) + cols.len() - 1,
    decreases cols.len(),
{
    let d = cols.drop_last();
    let k = crate::keys::composite_key_spec(row, cols, mode);
    let q = cell_part(row, cols.last(), mode);
    if cols.len() == 1 {
        assert(d.len() == 0);
        assert(cols.last() == cols[0]);
        assert(k == q);
        assert(separators_in_parts(row, d, mode) == 0);
        assert(parts_len(row, d, mode) == 0);
    } else {
        law_composite_key_has_a_separator_per_boundary(row, d, mode);
        let p = crate::keys::composite_key_spec(row, d, mode);
        let ps = p.push('\u{1}');
        assert(k == ps + q);
        lemma_occurrences_concat(ps, q, '\u{1}');
        assert(ps.drop_last() == p);
        assert(ps.last() == '\u{1}');
        assert(occurrences(ps, '\u{1}') == occurrences(p, '\u{1}') + 1);
    }
}

/// Splitting at the last separator: when `b` and `d` hold no separator,
/// `a + sep + b == c + sep + d` gives `a == c` and `b == d`.
proof fn lemma_split_at_last_separator(a: Seq<char>, b: Seq<char>, c: Seq<char>, d: Seq<char>)
    requires
        forall|i: int| 0 <= i < b.len() ==> #[trigger] b[i] != '\u{1}',
        forall|i: int| 0 <= i < d.len() ==> #[trigger] d[i] != '\u{1}',
        a.push('\u{1}') + b == c.push('\u{1}') + d,
    ensures
        a == c,
        b == d,
{
    let k = a.push('\u{1}') + b;
    let l = c.push('\u{1}') + d;
    assert(k.len() == a.len() + 1 + b.len());
    assert(l.len() == c.len() + 1 + d.len());
    assert(k.len() == l.len());
    if b.len() < d.len() {
        let i = a.len() as int;
        assert(k[i] == a.push('\u{1}')[i]);
        assert(k[i] == '\u{1}');
        let m = i - (c.len() + 1);
        assert(0 <= m < d.len());
        assert(l[i] == d[m]);
        assert(false);
    } else if d.len() < b.len() {
        let i = c.len() as int;
        assert(l[i] == c.push('\u{1}')[i]);
        assert(l[i] == '\u{1}');
        let m = i - (a.len() + 1);
        assert(0 <= m < b.len());
        assert(k[i] == b[m]);
        assert(false);
    }
    assert(a.len() == c.len());
    assert forall|i: int| 0 <= i < a.len() implies a[i] == c[i] by {
        assert(k[i] == a[i]);
        assert(l[i] == c[i]);
    }
    assert forall|i: int| 0 <= i < b.len() implies b[i] == d[i] by {
        assert(k[a.len() + 1 + i] == b[i]);
        assert(l[c.len() + 1 + i] == d[i]);
    }
    assert(a =~= c);
    assert(b =~= d);
}

/// Two rows whose key cells hold no separator have the same composite key only when
/// every key column contributes the same part; in particular, rows whose key cells
/// differ in which one is empty never share a key.
pub proof fn law_composite_key_keeps_column_boundaries(
    row1: Seq<CellValue>,
    row2: Seq<CellValue>,
    cols: Seq<usize>,
    mode: KeyMode,
)
    requires
        cols.len() > 0,
        forall|j: int, i: int|
            0 <= j < cols.len() && 0 <= i < cell_part(row1, cols[j], mode).len() ==> #[trigger] cell_part(
                row1,
                cols[j],
                mode,
            )[i] != '\u{1}',
        forall|j: int, i: int|
            0 <= j < cols.len() && 0 <= i < cell_part(row2, cols[j], mode).len() ==> #[trigger] cell_part(
                row2,
                cols[j],
                mode,
            )[i] != '\u{1}',
        crate::keys::composite_key_spec(row1, cols, mode) == crate::keys::composite_key_spec(
            row2,
            cols,
            mode,
        ),
    ensures
        forall|j: int|
            0 <= j < cols.len() ==> #[trigger] cell_part(row1, cols[j], mode) == cell_part(
                row2,
                cols[j],
                mode,
            ),
        forall|j: int|
            0 <= j < cols.len() ==> ((#[trigger] row1[cols[j] as int]) is Empty <==> row2[cols[j] as int] is Empty),
    decreases cols.len(),
{
    let d = cols.drop_last();
    let last = cols.len() - 1;
    if cols.len() == 1 {
        assert(cols.last() == cols[0]);
    } else {
        let p1 = crate::keys::composite_key_spec(row1, d, mode);
        let p2 = crate::keys::composite_key_spec(row2, d, mode);
        let q1 = cell_part(row1, cols.last(), mode);
        let q2 = cell_part(row2, cols.last(), mode);
        assert(cols.last() == cols[last]);
        assert forall|i: int| 0 <= i < q1.len() implies #[trigger] q1[i] != '\u{1}' by {
            assert(cell_part(row1, cols[last], mode)[i] != '\u{1}');
        }
        assert forall|i: int| 0 <= i < q2.len() implies #[trigger] q2[i] != '\u{1}' by {
            assert(cell_part(row2, cols[last], mode)[i] != '\u{1}');
        }
        lemma_split_at_last_separator(p1, q1, p2, q2);
        assert forall|j: int, i: int|
            0 <= j < d.len() && 0 <= i < cell_part(row1, d[j], mode).len() implies #[trigger] cell_part(
            row1,
            d[j],
            mode,
        )[i] != '\u{1}' by {
            assert(d[j] == cols[j]);
        }
        assert forall|j: int, i: int|
            0 <= j < d.len() && 0 <= i < cell_part(row2, d[j], mode).len() implies #[trigger] cell_part(
            row2,
            d[j],
            mode,
        )[i] != '\u{1}' by {
            assert(d[j] == cols[j]);
        }
        law_composite_key_keeps_column_boundaries(row1, row2, d, mode);
        assert forall|j: int| 0 <= j < cols.len() implies #[trigger] cell_part(row1, cols[j], mode)
            == cell_part(row2, cols[j], mode) by {
            if j < last {
                assert(d[j] == cols[j]);
            }
        }
    }
    assert forall|j: int|
        0 <= j < cols.len() implies ((#[trigger] row1[cols[j] as int]) is Empty <==> row2[cols[j] as int] is Empty) by {
        assert(cell_part(row1, cols[j], mode) == cell_part(row2, cols[j], mode));
        let c1 = row1[cols[j] as int];
        let c2 = row2[cols[j] as int];
        if !(c1 is Empty) {
            assert(key_part_spec(c1, mode)->0.len() >= 2);
        }
        if !(c2 is Empty) {
            assert(key_part_spec(c2, mode)->0.len() >= 2);
        }
    }
}

/// The value of a text of decimal digits read as a base-10 numeral.
pub open spec fn numeral_value(s: Seq<char>) -> int
    decreases s.len(),
{
    if s.len() == 0 {
        0
    } else {
        numeral_value(s.drop_last()) * 10 + ((s.last() as u32) as int - ('0' as u32) as int)
    }
}

proof fn lemma_digit_value(d: nat)
    requires
        d < 10,
    ensures
        (crate::text::digit_spec(d) as u32) as int - ('0' as u32) as int == d,
        '0' <= crate::text::digit_spec(d) <= '9',
{
    assert(('0' as u32) == 48);
    if d == 0 {
    } else if d == 1 {
        assert(('1' as u32) == 49);
    } else if d == 2 {
        assert(('2' as u32) == 50);
    } else if d == 3 {
        assert(('3' as u32) == 51);
    } else if d == 4 {
        assert(('4' as u32) == 52);
    } else if d == 5 {
        assert(('5' as u32) == 53);
    } else if d == 6 {
        assert(('6' as u32) == 54);
    } else if d == 7 {
        assert(('7' as u32) == 55);
    } else if d == 8 {
        assert(('8' as u32) == 56);
    } else {
        assert(('9' as u32) == 57);
    }
}

/// The decimal text of a number is its value: it holds only the digits 0-9, reads
/// back as the number, and starts with 0 only for 0 itself.
pub proof fn law_decimal_text_reads_back(n: nat)
    ensures
        forall|i: int|
            0 <= i < crate::text::decimal_spec(n).len() ==> '0' <= #[trigger] crate::text::decimal_spec(
                n,
            )[i] <= '9',
        numeral_value(crate::text::decimal_spec(n)) == n,
        crate::text::decimal_spec(n).len() > 0,
        crate::text::decimal_spec(n)[0] == '0' ==> n == 0,
    decreases n,
{
    let s = crate::text::decimal_spec(n);
    if n < 10 {
        assert(s == seq![crate::text::digit_spec(n)]);
        assert(s.drop_last().len() == 0);
        lemma_digit_value(n);
        assert(s.last() == crate::text::digit_spec(n));
        assert(numeral_value(s) == numeral_value(s.drop_last()) * 10 + ((s.last() as u32) as int
            - ('0' as u32) as int));
    } else {
        law_decimal_text_reads_back(n / 10);
        let p = crate::text::decimal_spec(n / 10);
        let d = crate::text::digit_spec(n % 10);
        assert(s == p.push(d));
        assert(s.drop_last() == p);
        assert(n == (n / 10) * 10 + n % 10);
        lemma_digit_value(n % 10);
        assert(s.last() == d);
        assert(numeral_value(s) == numeral_value(p) * 10 + ((d as u32) as int - ('0' as u32) as int));
        assert(s[0] == p[0]);
        assert forall|i: int| 0 <= i < s.len() implies '0' <= #[trigger] s[i] <= '9' by {
            if i < p.len() {
                assert(s[i] == p[i]);
            }
        }
    }
}

/// A prepared join carries the user's choices unchanged: its join type, key mode and
/// duplicate setting are the selection's, and the output limit applies exactly when
/// duplicates expand.
pub proof fn law_prepared_join_keeps_the_choices(
    lc: usize,
    rc: usize,
    sel: JoinSelection,
    plan: JoinPlan,
)
    requires
        plans_selection(plan, sel, lc, rc),
    ensures
        plan.spec.join_type == sel.join_type,
        plan.spec.key_mode == sel.key_mode,
        plan.spec.expand_dup == sel.expand_dup,
        plan.max_output_rows is Some <==> sel.expand_dup,
{
}

} // verus!
