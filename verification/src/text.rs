//! Character-level text helpers: whitespace trimming, strings built char by char.

use vstd::prelude::*;

verus! {

broadcast use vstd::string::group_string_axioms;

/// Appends one character to a string: `String::push`, which appends the char at the end.
#[verifier::external_body]
pub(crate) fn push_char(s: &mut String, c: char)
    ensures
        final(s)@ == old(s)@.push(c),
{
    s.push(c);
}

/// Empties a string in place, keeping its buffer: `String::clear`.
#[verifier::external_body]
pub(crate) fn clear_string(s: &mut String)
    ensures
        final(s)@ == Seq::<char>::empty(),
{
    s.clear();
}

/// The characters of a string, in order.
pub fn chars_of(s: &str) -> (v: Vec<char>)
    ensures
        v@ == s@,
{
    let mut v: Vec<char> = Vec::new();
    for c in it: s.chars()
        invariant
            it.seq() == s@,
            v@ == it.seq().take(it.index() as int),
    {
        assert(it.seq().take(it.index() as int + 1) == v@.push(c));
        v.push(c);
    }
    assert(s@.take(s@.len() as int) == s@);
    v
}

/// Appends `s[lo..hi]` to `out`.
pub fn push_chars(out: &mut String, s: &Vec<char>, lo: usize, hi: usize)
    requires
        lo <= hi <= s@.len(),
    ensures
        final(out)@ == old(out)@ + s@.subrange(lo as int, hi as int),
{
    let mut i = lo;
    while i < hi
        invariant
            lo <= i <= hi <= s@.len(),
            out@ == old(out)@ + s@.subrange(lo as int, i as int),
        decreases hi - i,
    {
        push_char(out, s[i]);
        assert(s@.subrange(lo as int, i as int + 1) == s@.subrange(lo as int, i as int).push(s@[i as int]));
        i = i + 1;
    }
}

/// A string holding exactly the given characters.
pub fn string_of(s: &Vec<char>) -> (r: String)
    ensures
        r@ == s@,
{
    let mut r = String::new();
    push_chars(&mut r, s, 0, s.len());
    assert(s@.subrange(0, s@.len() as int) == s@);
    r
}

/// Unicode `White_Space`, the set of characters `str::trim` removes.
pub open spec fn is_white_space_spec(c: char) -> bool {
    let u = c as u32;
    (0x9 <= u && u <= 0xd) || u == 0x20 || u == 0x85 || u == 0xa0 || u == 0x1680 || (0x2000 <= u
        && u <= 0x200a) || u == 0x2028 || u == 0x2029 || u == 0x202f || u == 0x205f || u == 0x3000
}

pub fn is_white_space(c: char) -> (r: bool)
    ensures
        r == is_white_space_spec(c),
{
    let u = c as u32;
    (0x9 <= u && u <= 0xd) || u == 0x20 || u == 0x85 || u == 0xa0 || u == 0x1680 || (0x2000 <= u
        && u <= 0x200a) || u == 0x2028 || u == 0x2029 || u == 0x202f || u == 0x205f || u == 0x3000
}

/// `s` without its leading whitespace.
pub open spec fn trim_start_spec(s: Seq<char>) -> Seq<char>
    decreases s.len(),
{
    if s.len() > 0 && is_white_space_spec(s[0]) {
        trim_start_spec(s.drop_first())
    } else {
        s
    }
}

/// `s` without its trailing whitespace.
pub open spec fn trim_end_spec(s: Seq<char>) -> Seq<char>
    decreases s.len(),
{
    if s.len() > 0 && is_white_space_spec(s.last()) {
        trim_end_spec(s.drop_last())
    } else {
        s
    }
}

/// `s` without leading and trailing whitespace, as `str::trim` gives it.
pub open spec fn trim_spec(s: Seq<char>) -> Seq<char> {
    trim_end_spec(trim_start_spec(s))
}

proof fn lemma_trim_start(s: Seq<char>, k: int)
    requires
        0 <= k <= s.len(),
        forall|i: int| 0 <= i < k ==> is_white_space_spec(#[trigger] s[i]),
        k == s.len() || !is_white_space_spec(s[k]),
    ensures
        trim_start_spec(s) == s.subrange(k, s.len() as int),
    decreases k,
{
    if k == 0 {
        assert(s.subrange(0, s.len() as int) == s);
    } else {
        let t = s.drop_first();
        assert forall|i: int| 0 <= i < k - 1 implies is_white_space_spec(#[trigger] t[i]) by {
            assert(t[i] == s[i + 1]);
        }
        if k < s.len() {
            assert(t[k - 1] == s[k]);
        }
        lemma_trim_start(t, k - 1);
        assert(t.subrange(k - 1, t.len() as int) == s.subrange(k, s.len() as int));
    }
}

proof fn lemma_trim_end(s: Seq<char>, j: int)
    requires
        0 <= j <= s.len(),
        forall|i: int| j <= i < s.len() ==> is_white_space_spec(#[trigger] s[i]),
        j == 0 || !is_white_space_spec(s[j - 1]),
    ensures
        trim_end_spec(s) == s.subrange(0, j),
    decreases s.len() - j,
{
    if j == s.len() {
        assert(s.subrange(0, s.len() as int) == s);
    } else {
        let t = s.drop_last();
        assert forall|i: int| j <= i < t.len() implies is_white_space_spec(#[trigger] t[i]) by {
            assert(t[i] == s[i]);
        }
        if j > 0 {
            assert(t[j - 1] == s[j - 1]);
        }
        lemma_trim_end(t, j);
        assert(t.subrange(0, j) == s.subrange(0, j));
    }
}

/// Bounds `(lo, hi)` of the trimmed part of `s[lo0..hi0]`.
pub fn trim_bounds(s: &Vec<char>, lo0: usize, hi0: usize) -> (r: (usize, usize))
    requires
        lo0 <= hi0 <= s@.len(),
    ensures
        lo0 <= r.0 <= r.1 <= hi0,
        s@.subrange(r.0 as int, r.1 as int) == trim_spec(s@.subrange(lo0 as int, hi0 as int)),
{
    let ghost t = s@.subrange(lo0 as int, hi0 as int);
    let mut lo = lo0;
    while lo < hi0 && is_white_space(s[lo])
        invariant
            lo0 <= lo <= hi0 <= s@.len(),
            t == s@.subrange(lo0 as int, hi0 as int),
            forall|i: int| lo0 <= i < lo ==> is_white_space_spec(#[trigger] s@[i]),
        decreases hi0 - lo,
    {
        lo = lo + 1;
    }
    proof {
        assert forall|i: int| 0 <= i < lo - lo0 implies is_white_space_spec(#[trigger] t[i]) by {
            assert(t[i] == s@[lo0 + i]);
        }
        if lo < hi0 {
            assert(t[lo - lo0] == s@[lo as int]);
        }
        lemma_trim_start(t, lo - lo0);
        assert(t.subrange(lo - lo0, t.len() as int) == s@.subrange(lo as int, hi0 as int));
    }
    let mut hi = hi0;
    while hi > lo && is_white_space(s[hi - 1])
        invariant
            lo0 <= lo <= hi <= hi0 <= s@.len(),
            forall|i: int| hi <= i < hi0 ==> is_white_space_spec(#[trigger] s@[i]),
        decreases hi,
    {
        hi = hi - 1;
    }
    proof {
        let u = s@.subrange(lo as int, hi0 as int);
        assert forall|i: int| hi - lo <= i < u.len() implies is_white_space_spec(#[trigger] u[i]) by {
            assert(u[i] == s@[lo + i]);
        }
        if hi > lo {
            assert(u[hi - lo - 1] == s@[hi - 1]);
        }
        lemma_trim_end(u, hi - lo);
        assert(u.subrange(0, hi - lo) == s@.subrange(lo as int, hi as int));
    }
    (lo, hi)
}

/// The decimal digit `d` (below ten) as a character.
pub open spec fn digit_spec(d: nat) -> char {
    if d == 0 {
        '0'
    } else if d == 1 {
        '1'
    } else if d == 2 {
        '2'
    } else if d == 3 {
        '3'
    } else if d == 4 {
        '4'
    } else if d == 5 {
        '5'
    } else if d == 6 {
        '6'
    } else if d == 7 {
        '7'
    } else if d == 8 {
        '8'
    } else {
        '9'
    }
}

/// `n` written in decimal without leading zeros, as `{}` formats an unsigned integer.
pub open spec fn decimal_spec(n: nat) -> Seq<char>
    decreases n,
{
    if n < 10 {
        seq![digit_spec(n)]
    } else {
        decimal_spec(n / 10).push(digit_spec(n % 10))
    }
}

fn digit_char(d: usize) -> (c: char)
    requires
        d < 10,
    ensures
        c == digit_spec(d as nat),
{
    if d == 0 {
        '0'
    } else if d == 1 {
        '1'
    } else if d == 2 {
        '2'
    } else if d == 3 {
        '3'
    } else if d == 4 {
        '4'
    } else if d == 5 {
        '5'
    } else if d == 6 {
        '6'
    } else if d == 7 {
        '7'
    } else if d == 8 {
        '8'
    } else {
        '9'
    }
}

/// Appends `n` in decimal.
pub fn push_decimal(out: &mut String, n: usize)
    ensures
        final(out)@ == old(out)@ + decimal_spec(n as nat),
    decreases n,
{
    if n >= 10 {
        push_decimal(out, n / 10);
    }
    push_char(out, digit_char(n % 10));
}

/// Whether `s` holds nothing but whitespace, that is `s.trim()` is empty.
pub fn is_blank(s: &str) -> (r: bool)
    ensures
        r == (trim_spec(s@).len() == 0),
{
    let v = chars_of(s);
    let (lo, hi) = trim_bounds(&v, 0, v.len());
    proof {
        assert(v@.subrange(0, v@.len() as int) == v@);
    }
    lo == hi
}

} // verus!
