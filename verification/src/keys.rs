//! Join keys: the normalized text a row is matched by.
//!
//! A key part carries a type prefix (`V:` when numbers and text match each other,
//! otherwise `N:` for numbers and `S:` for text); the parts of a composite key are
//! joined by U+0001 without escaping.

use std::borrow::Cow;
use vstd::prelude::*;
use vstd::string::StrSliceExecFns;

use crate::model::CellValue;
use crate::text::{chars_of, clear_string, push_char, push_chars, trim_bounds, trim_spec};

verus! {

broadcast use vstd::string::group_string_axioms;

/// Key normalization switches; any combination is allowed.
#[derive(Debug, Clone, Copy, PartialEq, Eq, Structural)]
pub struct KeyMode {
    /// Numbers and text match each other (1 and "1"), and text is trimmed.
    pub number_text: bool,
    /// Chinese brackets （）【】｛｝〔〕 match their ASCII counterparts.
    pub brackets: bool,
    /// A trailing branch suffix after "号" (之一, （之十二）) is ignored.
    pub case_suffix: bool,
}

impl KeyMode {
    /// Everything off: the number 1 and the text "1" differ, brackets are kept.
    pub fn exact() -> (m: Self)
        ensures
            m == (KeyMode { number_text: false, brackets: false, case_suffix: false }),
    {
        KeyMode { number_text: false, brackets: false, case_suffix: false }
    }

    /// Numbers and text match, text trimmed; no bracket folding.
    pub fn normalize() -> (m: Self)
        ensures
            m == (KeyMode { number_text: true, brackets: false, case_suffix: false }),
    {
        KeyMode { number_text: true, brackets: false, case_suffix: false }
    }
}

impl Default for KeyMode {
    /// Numbers/text matching and bracket folding on; the case-number suffix off.
    fn default() -> (m: Self)
        ensures
            m == (KeyMode { number_text: true, brackets: true, case_suffix: false }),
    {
        KeyMode { number_text: true, brackets: true, case_suffix: false }
    }
}

/// The ASCII bracket a Chinese bracket folds to.
pub open spec fn fold_bracket_spec(c: char) -> Option<char> {
    if c == '（' {
        Some('(')
    } else if c == '）' {
        Some(')')
    } else if c == '【' {
        Some('[')
    } else if c == '】' {
        Some(']')
    } else if c == '｛' {
        Some('{')
    } else if c == '｝' {
        Some('}')
    } else if c == '〔' {
        Some('(')
    } else if c == '〕' {
        Some(')')
    } else {
        None
    }
}

pub open spec fn fold_char_spec(c: char) -> char {
    match fold_bracket_spec(c) {
        Some(f) => f,
        None => c,
    }
}

/// `s` with every Chinese bracket folded.
pub open spec fn fold_spec(s: Seq<char>) -> Seq<char> {
    s.map_values(|c: char| fold_char_spec(c))
}

pub fn fold_bracket(c: char) -> (r: Option<char>)
    ensures
        r == fold_bracket_spec(c),
{
    if c == '（' {
        Some('(')
    } else if c == '）' {
        Some(')')
    } else if c == '【' {
        Some('[')
    } else if c == '】' {
        Some(']')
    } else if c == '｛' {
        Some('{')
    } else if c == '｝' {
        Some('}')
    } else if c == '〔' {
        Some('(')
    } else if c == '〕' {
        Some(')')
    } else {
        None
    }
}

pub fn is_foldable_bracket(c: char) -> (r: bool)
    ensures
        r == fold_bracket_spec(c) is Some,
{
    fold_bracket(c).is_some()
}

/// Appends `s[lo..hi]` to `out` with its brackets folded.
pub fn push_folded(out: &mut String, s: &Vec<char>, lo: usize, hi: usize)
    requires
        lo <= hi <= s@.len(),
    ensures
        final(out)@ == old(out)@ + fold_spec(s@.subrange(lo as int, hi as int)),
{
    let mut i = lo;
    while i < hi
        invariant
            lo <= i <= hi <= s@.len(),
            out@ == old(out)@ + fold_spec(s@.subrange(lo as int, i as int)),
        decreases hi - i,
    {
        let c = s[i];
        let f = match fold_bracket(c) {
            Some(f) => f,
            None => c,
        };
        push_char(out, f);
        assert(fold_spec(s@.subrange(lo as int, i as int + 1)) == fold_spec(
            s@.subrange(lo as int, i as int),
        ).push(fold_char_spec(c)));
        i = i + 1;
    }
}

/// Appends `text` to `out` with its brackets folded.
pub fn append_folded_text(out: &mut String, text: &str)
    ensures
        final(out)@ == old(out)@ + fold_spec(text@),
{
    let cs = chars_of(text);
    push_folded(out, &cs, 0, cs.len());
    assert(cs@.subrange(0, cs@.len() as int) == text@);
}

/// `s` with its brackets folded; borrowed when `s` holds no foldable bracket.
pub fn fold_brackets(s: &str) -> (r: Cow<'_, str>)
    ensures
        r@ == fold_spec(s@),
        (r is Borrowed) <==> (forall|i: int| 0 <= i < s@.len() ==> fold_bracket_spec(#[trigger] s@[i]) is None),
{
    let cs = chars_of(s);
    let mut i: usize = 0;
    while i < cs.len()
        invariant
            cs@ == s@,
            i <= cs@.len(),
            forall|j: int| 0 <= j < i ==> fold_bracket_spec(#[trigger] s@[j]) is None,
        decreases cs@.len() - i,
    {
        if is_foldable_bracket(cs[i]) {
            let mut out = String::new();
            push_folded(&mut out, &cs, 0, cs.len());
            assert(cs@.subrange(0, cs@.len() as int) == s@);
            return Cow::Owned(out);
        }
        i = i + 1;
    }
    assert(fold_spec(s@) == s@);
    Cow::Borrowed(s)
}

/// The Chinese numerals a case-number branch suffix is written with.
pub open spec fn is_cn_digit_spec(c: char) -> bool {
    c == '零' || c == '〇' || c == '一' || c == '二' || c == '三' || c == '四' || c == '五' || c
        == '六' || c == '七' || c == '八' || c == '九' || c == '十' || c == '百' || c == '千' || c
        == '万' || c == '两'
}

pub fn is_cn_digit(c: char) -> (r: bool)
    ensures
        r == is_cn_digit_spec(c),
{
    c == '零' || c == '〇' || c == '一' || c == '二' || c == '三' || c == '四' || c == '五' || c
        == '六' || c == '七' || c == '八' || c == '九' || c == '十' || c == '百' || c == '千' || c
        == '万' || c == '两'
}

/// `s` without its trailing Chinese numerals.
pub open spec fn strip_digits_spec(s: Seq<char>) -> Seq<char>
    decreases s.len(),
{
    if s.len() > 0 && is_cn_digit_spec(s.last()) {
        strip_digits_spec(s.drop_last())
    } else {
        s
    }
}

/// The base case number when `t` ends in a branch suffix written with Chinese numerals
/// right after "号": `…号之N` or `…号（之N）` / `…号(之N)` with matching brackets;
/// otherwise `t` itself.
pub open spec fn strip_case_suffix_spec(t: Seq<char>) -> Seq<char> {
    let closed = t.len() > 0 && (t.last() == '）' || t.last() == ')');
    let body = if closed {
        t.drop_last()
    } else {
        t
    };
    let prefix = strip_digits_spec(body);
    if prefix.len() == body.len() || !(prefix.len() > 0 && prefix.last() == '之') {
        t
    } else {
        let base0 = prefix.drop_last();
        let base = if closed {
            base0.drop_last()
        } else {
            base0
        };
        let opening_ok = !closed || (base0.len() > 0 && base0.last() == (if t.last() == '）' {
            '（'
        } else {
            '('
        }));
        if opening_ok && base.len() > 0 && base.last() == '号' {
            base
        } else {
            t
        }
    }
}

pub(crate) proof fn lemma_strip_digits(s: Seq<char>, j: int)
    requires
        0 <= j <= s.len(),
        forall|i: int| j <= i < s.len() ==> is_cn_digit_spec(#[trigger] s[i]),
        j == 0 || !is_cn_digit_spec(s[j - 1]),
    ensures
        strip_digits_spec(s) == s.subrange(0, j),
    decreases s.len() - j,
{
    if j == s.len() {
        assert(s.subrange(0, s.len() as int) == s);
    } else {
        let t = s.drop_last();
        assert forall|i: int| j <= i < t.len() implies is_cn_digit_spec(#[trigger] t[i]) by {
            assert(t[i] == s[i]);
        }
        if j > 0 {
            assert(t[j - 1] == s[j - 1]);
        }
        lemma_strip_digits(t, j);
        assert(t.subrange(0, j) == s.subrange(0, j));
    }
}

/// End of the base case number inside `s[lo..hi]`: `s[lo..r]` is the text without
/// its branch suffix.
pub fn case_suffix_end(s: &Vec<char>, lo: usize, hi: usize) -> (r: usize)
    requires
        lo <= hi <= s@.len(),
    ensures
        lo <= r <= hi,
        s@.subrange(lo as int, r as int) == strip_case_suffix_spec(s@.subrange(lo as int, hi as int)),
{
    let ghost t = s@.subrange(lo as int, hi as int);
    let closed = hi > lo && (s[hi - 1] == '）' || s[hi - 1] == ')');
    let body_end = if closed {
        hi - 1
    } else {
        hi
    };
    let ghost body = s@.subrange(lo as int, body_end as int);
    proof {
        if closed {
            assert(t.last() == s@[hi - 1]);
            assert(body == t.drop_last());
        } else {
            assert(hi > lo ==> t.last() == s@[hi - 1]);
            assert(body == t);
        }
    }
    let mut p = body_end;
    while p > lo && is_cn_digit(s[p - 1])
        invariant
            lo <= p <= body_end <= hi <= s@.len(),
            forall|i: int| p <= i < body_end ==> is_cn_digit_spec(#[trigger] s@[i]),
        decreases p,
    {
        p = p - 1;
    }
    proof {
        assert forall|i: int| p - lo <= i < body.len() implies is_cn_digit_spec(#[trigger] body[i]) by {
            assert(body[i] == s@[lo + i]);
        }
        if p > lo {
            assert(body[p - lo - 1] == s@[p - 1]);
        }
        lemma_strip_digits(body, p - lo);
        assert(body.subrange(0, p - lo) == s@.subrange(lo as int, p as int));
    }
    let ghost prefix = s@.subrange(lo as int, p as int);
    if p == body_end {
        assert(s@.subrange(lo as int, hi as int) == t);
        return hi;
    }
    if !(p > lo && s[p - 1] == '之') {
        proof {
            if p > lo {
                assert(prefix.last() == s@[p - 1]);
            }
        }
        assert(s@.subrange(lo as int, hi as int) == t);
        return hi;
    }
    assert(prefix.last() == s@[p - 1]);
    let base0_end = p - 1;
    let ghost base0 = s@.subrange(lo as int, base0_end as int);
    assert(base0 == prefix.drop_last());
    let mut base_end = base0_end;
    if closed {
        let opening = if s[hi - 1] == '）' {
            '（'
        } else {
            '('
        };
        if !(base0_end > lo && s[base0_end - 1] == opening) {
            proof {
                if base0_end > lo {
                    assert(base0.last() == s@[base0_end - 1]);
                }
            }
            assert(s@.subrange(lo as int, hi as int) == t);
            return hi;
        }
        assert(base0.last() == s@[base0_end - 1]);
        base_end = base0_end - 1;
        assert(s@.subrange(lo as int, base_end as int) == base0.drop_last());
    }
    let ghost base = s@.subrange(lo as int, base_end as int);
    if base_end > lo && s[base_end - 1] == '号' {
        assert(base.last() == s@[base_end - 1]);
        base_end
    } else {
        proof {
            if base_end > lo {
                assert(base.last() == s@[base_end - 1]);
            }
        }
        assert(s@.subrange(lo as int, hi as int) == t);
        hi
    }
}

/// The base case number of `text`, borrowed from it (see [`strip_case_suffix_spec`]).
pub fn strip_case_suffix(text: &str) -> (r: &str)
    ensures
        r@ == strip_case_suffix_spec(text@),
{
    let cs = chars_of(text);
    let end = case_suffix_end(&cs, 0, cs.len());
    assert(cs@.subrange(0, cs@.len() as int) == text@);
    text.substring_char(0, end)
}

/// Normalized body of a text cell: trimmed when numbers and text match, then the
/// case-number suffix dropped, then brackets folded, each step only when enabled.
pub open spec fn text_body_spec(s: Seq<char>, mode: KeyMode) -> Seq<char> {
    let b1 = if mode.number_text {
        trim_spec(s)
    } else {
        s
    };
    let b2 = if mode.case_suffix {
        strip_case_suffix_spec(b1)
    } else {
        b1
    };
    if mode.brackets {
        fold_spec(b2)
    } else {
        b2
    }
}

pub open spec fn number_prefix(mode: KeyMode) -> Seq<char> {
    if mode.number_text {
        seq!['V', ':']
    } else {
        seq!['N', ':']
    }
}

pub open spec fn text_prefix(mode: KeyMode) -> Seq<char> {
    if mode.number_text {
        seq!['V', ':']
    } else {
        seq!['S', ':']
    }
}

/// The key part of one cell: none for an empty cell, else its type prefix and text.
pub open spec fn key_part_spec(c: CellValue, mode: KeyMode) -> Option<Seq<char>> {
    match c {
        CellValue::Empty => None,
        CellValue::Number(t) => Some(number_prefix(mode) + t@),
        CellValue::Text(s) => Some(text_prefix(mode) + text_body_spec(s@, mode)),
    }
}

fn push_prefix(out: &mut String, a: char, b: char)
    ensures
        final(out)@ == old(out)@ + seq![a, b],
{
    push_char(out, a);
    push_char(out, b);
    assert(old(out)@.push(a).push(b) == old(out)@ + seq![a, b]);
}

/// Appends the key part of `value` to `out`; returns whether the cell had one.
pub fn append_key_part(out: &mut String, value: &CellValue, mode: KeyMode) -> (r: bool)
    ensures
        r == key_part_spec(*value, mode) is Some,
        final(out)@ == old(out)@ + (match key_part_spec(*value, mode) {
            Some(p) => p,
            None => Seq::empty(),
        }),
{
    match value {
        CellValue::Empty => {
            assert(old(out)@ + Seq::<char>::empty() == old(out)@);
            false
        },
        CellValue::Number(t) => {
            if mode.number_text {
                push_prefix(out, 'V', ':');
            } else {
                push_prefix(out, 'N', ':');
            }
            let tc = chars_of(t.as_str());
            push_chars(out, &tc, 0, tc.len());
            assert(tc@.subrange(0, tc@.len() as int) == t@);
            true
        },
        CellValue::Text(s) => {
            let cs = chars_of(s.as_str());
            let n = cs.len();
            let (mut lo, mut hi) = (0usize, n);
            assert(cs@.subrange(0, n as int) == s@);
            if mode.number_text {
                let b = trim_bounds(&cs, 0, n);
                lo = b.0;
                hi = b.1;
            }
            if mode.case_suffix {
                hi = case_suffix_end(&cs, lo, hi);
            }
            if mode.number_text {
                push_prefix(out, 'V', ':');
            } else {
                push_prefix(out, 'S', ':');
            }
            if mode.brackets {
                push_folded(out, &cs, lo, hi);
            } else {
                push_chars(out, &cs, lo, hi);
            }
            assert(old(out)@ + text_prefix(mode) + text_body_spec(s@, mode) == old(out)@ + (
            text_prefix(mode) + text_body_spec(s@, mode)));
            true
        },
    }
}

/// The key part of `row[col]`, or the empty sequence when the cell has none.
pub open spec fn part_or_empty(row: Seq<CellValue>, col: usize, mode: KeyMode) -> Seq<char> {
    match key_part_spec(row[col as int], mode) {
        Some(p) => p,
        None => Seq::empty(),
    }
}

/// The key parts of the columns `cols` of `row`, joined by U+0001.
pub open spec fn composite_key_spec(row: Seq<CellValue>, cols: Seq<usize>, mode: KeyMode) -> Seq<char>
    decreases cols.len(),
{
    if cols.len() == 0 {
        Seq::empty()
    } else if cols.len() == 1 {
        part_or_empty(row, cols[0], mode)
    } else {
        composite_key_spec(row, cols.drop_last(), mode).push('\u{1}') + part_or_empty(
            row,
            cols.last(),
            mode,
        )
    }
}

/// The key of a row: present when there is at least one key column, every key
/// column exists in the row, and at least one key cell is not empty.
pub open spec fn row_key_spec(row: Seq<CellValue>, cols: Seq<usize>, mode: KeyMode) -> Option<
    Seq<char>,
> {
    if cols.len() > 0 && (forall|i: int| 0 <= i < cols.len() ==> (#[trigger] cols[i]) < row.len())
        && (exists|i: int|
        0 <= i < cols.len() && (#[trigger] key_part_spec(row[cols[i] as int], mode)) is Some) {
        Some(composite_key_spec(row, cols, mode))
    } else {
        None
    }
}

/// Writes the key of `row` into the reused buffer `key`; returns whether the row has
/// one. The buffer is left empty when it has none.
pub fn write_key(row: &[CellValue], cols: &[usize], mode: KeyMode, key: &mut String) -> (valid: bool)
    ensures
        valid == row_key_spec(row@, cols@, mode) is Some,
        final(key)@ == (match row_key_spec(row@, cols@, mode) {
            Some(k) => k,
            None => Seq::empty(),
        }),
{
    clear_string(key);
    let mut any_non_empty = false;
    let mut all_present = true;
    let mut i: usize = 0;
    while i < cols.len() && all_present
        invariant
            i <= cols@.len(),
            all_present ==> forall|j: int| 0 <= j < i ==> (#[trigger] cols@[j]) < row@.len(),
            !all_present ==> i < cols@.len() && cols@[i as int] >= row@.len(),
            any_non_empty == exists|j: int|
                0 <= j < i && (#[trigger] key_part_spec(row@[cols@[j] as int], mode)) is Some,
            key@ == composite_key_spec(row@, cols@.take(i as int), mode),
        decreases cols@.len() - i + (if all_present { 1int } else { 0int }),
    {
        let col = cols[i];
        if col >= row.len() {
            all_present = false;
        } else {
            if i != 0 {
                push_char(key, '\u{1}');
            }
            let part = append_key_part(key, &row[col], mode);
            proof {
                let t1 = cols@.take(i as int + 1);
                if i == 0 {
                    assert(t1.len() == 1 && t1[0] == col);
                } else {
                    assert(t1.drop_last() == cols@.take(i as int));
                    assert(t1.last() == col);
                }
            }
            any_non_empty = any_non_empty || part;
            i = i + 1;
        }
    }
    let valid = all_present && any_non_empty && cols.len() > 0;
    proof {
        if all_present {
            assert(cols@.take(cols@.len() as int) == cols@);
        } else {
            let j = i as int;
            assert(cols@[j] >= row@.len());
        }
    }
    if !valid {
        clear_string(key);
    }
    valid
}

/// The key of `row` as a new string, or `None` when the row has no key.
pub fn make_key(row: &[CellValue], cols: &[usize], mode: KeyMode) -> (r: Option<String>)
    ensures
        r matches Some(k) ==> row_key_spec(row@, cols@, mode) == Some(k@),
        r is None <==> row_key_spec(row@, cols@, mode) is None,
{
    let mut key = String::new();
    if write_key(row, cols, mode, &mut key) {
        Some(key)
    } else {
        None
    }
}

} // verus!
