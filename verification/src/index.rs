//! The right-table index: every key of the right table and the rows that carry it.

use std::collections::HashMap;
use vstd::prelude::*;

use crate::keys::{make_key, row_key_spec, KeyMode};
use crate::model::{CellValue, Table};

verus! {

/// The map from each distinct right key to its slot: a `HashMap` hashed with
/// foldhash's fast `RandomState`.
pub type KeyTable = HashMap<String, usize, foldhash::fast::RandomState>;

/// foldhash's fast hasher state, seeded per process.
#[verifier::external_type_specification]
#[verifier::external_body]
pub struct ExFoldRandomState(foldhash::fast::RandomState);

/// What a key table holds: each key (by its characters) and its slot.
pub uninterp spec fn key_slots(t: HashMap<String, usize, foldhash::fast::RandomState>) -> Map<
    Seq<char>,
    usize,
>;

/// The map with no key.
pub open spec fn no_slots() -> Map<Seq<char>, usize> {
    Map::empty()
}

/// `HashMap::default()` (with a freshly seeded foldhash state): a map with no key.
#[verifier::external_body]
fn empty_key_table() -> (table: KeyTable)
    ensures
        key_slots(table) == no_slots(),
{
    HashMap::default()
}

/// `HashMap::get`: the slot stored under `key`, if any.
#[verifier::external_body]
fn slot_of(table: &KeyTable, key: &str) -> (r: Option<usize>)
    ensures
        r == (if key_slots(*table).contains_key(key@) {
            Some(key_slots(*table)[key@])
        } else {
            None
        }),
{
    table.get(key).copied()
}

/// `HashMap::insert`: stores `slot` under `key`, replacing any earlier slot.
#[verifier::external_body]
fn insert_slot(table: &mut KeyTable, key: String, slot: usize)
    ensures
        key_slots(*final(table)) == key_slots(*old(table)).insert(key@, slot),
{
    table.insert(key, slot);
}

/// The key of every row of a table (by row), for key columns `cols`.
pub open spec fn keys_of(rows: Seq<Vec<CellValue>>, cols: Seq<usize>, mode: KeyMode) -> Seq<
    Option<Seq<char>>,
> {
    Seq::new(rows.len(), |i: int| row_key_spec(rows[i]@, cols, mode))
}

/// The rows among the first `n` whose key is `k`, in increasing order.
pub open spec fn hits(keys: Seq<Option<Seq<char>>>, k: Seq<char>, n: int) -> Seq<usize>
    decreases n,
{
    if n <= 0 {
        Seq::empty()
    } else {
        let p = hits(keys, k, n - 1);
        if keys[n - 1] == Some(k) {
            p.push((n - 1) as usize)
        } else {
            p
        }
    }
}

/// The rows whose key is `k`.
pub open spec fn all_hits(keys: Seq<Option<Seq<char>>>, k: Seq<char>) -> Seq<usize> {
    hits(keys, k, keys.len() as int)
}

/// The matching rows a left row is joined with: all of them, or only the first.
pub open spec fn selected_hits(h: Seq<usize>, expand_dup: bool) -> Seq<usize> {
    if expand_dup {
        h
    } else {
        h.take(1)
    }
}

/// The number of distinct keys among the first `n` keys.
pub open spec fn distinct_upto(keys: Seq<Option<Seq<char>>>, n: int) -> nat
    decreases n,
{
    if n <= 0 {
        0
    } else {
        distinct_upto(keys, n - 1) + (match keys[n - 1] {
            Some(k) => if hits(keys, k, n - 1).len() == 0 {
                1nat
            } else {
                0nat
            },
            None => 0nat,
        })
    }
}

/// The greatest number of rows sharing one key (0 when no row has a key).
pub open spec fn is_max_dup(keys: Seq<Option<Seq<char>>>, m: nat) -> bool {
    &&& forall|k: Seq<char>| (#[trigger] all_hits(keys, k)).len() <= m
    &&& m == 0 || exists|k: Seq<char>| (#[trigger] all_hits(keys, k)).len() == m
}

pub proof fn lemma_hits_bounds(keys: Seq<Option<Seq<char>>>, k: Seq<char>, n: int)
    requires
        0 <= n <= keys.len() <= usize::MAX,
    ensures
        hits(keys, k, n).len() <= n,
        forall|i: int| 0 <= i < hits(keys, k, n).len() ==> (#[trigger] hits(keys, k, n)[i]) < n,
        forall|i: int|
            0 <= i < hits(keys, k, n).len() ==> keys[#[trigger] hits(keys, k, n)[i] as int] == Some(k),
        forall|i: int, j: int|
            0 <= i < j < hits(keys, k, n).len() ==> #[trigger] hits(keys, k, n)[i] < #[trigger] hits(
                keys,
                k,
                n,
            )[j],
    decreases n,
{
    if n > 0 {
        lemma_hits_bounds(keys, k, n - 1);
        let p = hits(keys, k, n - 1);
        let h = hits(keys, k, n);
        if keys[n - 1] == Some(k) {
            assert(h == p.push((n - 1) as usize));
            assert forall|i: int| 0 <= i < h.len() implies keys[#[trigger] h[i] as int] == Some(k) by {
                if i < p.len() {
                    assert(h[i] == p[i]);
                }
            }
            assert forall|i: int, j: int| 0 <= i < j < h.len() implies #[trigger] h[i] < #[trigger] h[j] by {
                assert(h[i] == p[i]);
                if j < p.len() {
                    assert(h[j] == p[j]);
                }
            }
        } else {
            assert(h == p);
        }
    }
}

/// A row set stored for one key of the right table.
#[derive(Debug)]
pub enum RowMatches {
    /// A single stored row; `count` counts every row with the key.
    One { row: usize, count: usize },
    /// Every row with the key (kept only when duplicates are expanded).
    Many(Vec<usize>),
}

impl RowMatches {
    /// The number of right rows with this key.
    pub open spec fn total_spec(self) -> nat {
        match self {
            RowMatches::One { count, .. } => count as nat,
            RowMatches::Many(rows) => rows@.len(),
        }
    }

    /// The rows a matching left row is joined with.
    pub open spec fn selected_spec(self, expand_dup: bool) -> Seq<usize> {
        match self {
            RowMatches::One { row, .. } => seq![row],
            RowMatches::Many(rows) => if expand_dup {
                rows@
            } else {
                rows@.take(1)
            },
        }
    }

    /// `self` records exactly the key's rows `h`, as stored under the expansion setting.
    pub open spec fn records(self, h: Seq<usize>, expand_dup: bool) -> bool {
        match self {
            RowMatches::One { row, count } => h.len() >= 1 && h[0] == row && count == h.len() && (
            expand_dup ==> h.len() == 1),
            RowMatches::Many(rows) => expand_dup && rows@ == h && h.len() >= 2,
        }
    }

    pub proof fn lemma_records(self, h: Seq<usize>, expand_dup: bool)
        requires
            self.records(h, expand_dup),
        ensures
            self.selected_spec(expand_dup) == selected_hits(h, expand_dup),
            self.total_spec() == h.len(),
            self.selected_spec(expand_dup).len() >= 1,
    {
        match self {
            RowMatches::One { row, count } => {
                if expand_dup {
                    assert(h == seq![row]);
                } else {
                    assert(h.take(1) == seq![row]);
                }
            },
            RowMatches::Many(rows) => {},
        }
    }

    pub fn total_count(&self) -> (n: usize)
        ensures
            n == self.total_spec(),
    {
        match self {
            RowMatches::One { count, .. } => *count,
            RowMatches::Many(rows) => rows.len(),
        }
    }

    /// How many rows a matching left row is joined with.
    pub fn selected_count(&self, expand_dup: bool) -> (n: usize)
        requires
            exists|h: Seq<usize>| self.records(h, expand_dup),
        ensures
            n == self.selected_spec(expand_dup).len(),
    {
        let ghost h = choose|h: Seq<usize>| self.records(h, expand_dup);
        if expand_dup {
            self.total_count()
        } else {
            proof {
                match self {
                    RowMatches::Many(rows) => {},
                    _ => {},
                }
            }
            1
        }
    }

    /// The `i`-th row a matching left row is joined with.
    pub fn selected_row(&self, expand_dup: bool, i: usize) -> (r: usize)
        requires
            exists|h: Seq<usize>| self.records(h, expand_dup),
            i < self.selected_spec(expand_dup).len(),
        ensures
            r == self.selected_spec(expand_dup)[i as int],
    {
        match self {
            RowMatches::One { row, .. } => *row,
            RowMatches::Many(rows) => rows[i],
        }
    }
}

/// Index of the right table: built once, used for the estimate and the join.
pub struct JoinIndex {
    slots: KeyTable,
    entries: Vec<RowMatches>,
    max_dup: usize,
    expand_dup: bool,
    mode: KeyMode,
    slot_keys: Ghost<Seq<Seq<char>>>,
    rkeys: Ghost<Seq<Option<Seq<char>>>>,
}

impl JoinIndex {
    /// The index holds the first `n` keys of `rkeys`.
    pub closed spec fn holds(self, n: int) -> bool {
        let keys = self.rkeys@;
        let m = key_slots(self.slots);
        &&& 0 <= n <= keys.len()
        &&& self.slot_keys@.len() == self.entries@.len()
        &&& forall|s: int|
            0 <= s < self.entries@.len() ==> {
                &&& m.contains_key(#[trigger] self.slot_keys@[s])
                &&& m[self.slot_keys@[s]] == s
                &&& self.entries@[s].records(hits(keys, self.slot_keys@[s], n), self.expand_dup)
            }
        &&& forall|k: Seq<char>|
            #[trigger] m.contains_key(k) ==> m[k] < self.entries@.len() && self.slot_keys@[m[k] as int]
                == k
        &&& forall|k: Seq<char>| #[trigger] m.contains_key(k) <==> hits(keys, k, n).len() > 0
        &&& forall|k: Seq<char>| (#[trigger] hits(keys, k, n)).len() <= self.max_dup
        &&& self.max_dup == 0 || exists|k: Seq<char>| (#[trigger] hits(keys, k, n)).len()
            == self.max_dup
        &&& self.entries@.len() == distinct_upto(keys, n)
    }

    /// The index is complete for its right table.
    pub closed spec fn wf(self) -> bool {
        self.holds(self.rkeys@.len() as int)
    }

    /// Keys of the indexed right rows.
    pub closed spec fn right_keys(self) -> Seq<Option<Seq<char>>> {
        self.rkeys@
    }

    pub closed spec fn expand_spec(self) -> bool {
        self.expand_dup
    }

    pub closed spec fn mode_spec(self) -> KeyMode {
        self.mode
    }

    pub closed spec fn max_dup_spec(self) -> nat {
        self.max_dup as nat
    }

    pub closed spec fn distinct_spec(self) -> nat {
        self.entries@.len()
    }

    /// Index the rows of `right` by their key over the columns `rk`.
    pub fn build(right: &Table, rk: &[usize], mode: KeyMode, expand_dup: bool) -> (r: Self)
        ensures
            r.wf(),
            r.right_keys() == keys_of(right.rows@, rk@, mode),
            r.expand_spec() == expand_dup,
            r.mode_spec() == mode,
            is_max_dup(r.right_keys(), r.max_dup_spec()),
            r.distinct_spec() == distinct_upto(r.right_keys(), r.right_keys().len() as int),
    {
        let ghost keys = keys_of(right.rows@, rk@, mode);
        let mut index = JoinIndex {
            slots: empty_key_table(),
            entries: Vec::new(),
            max_dup: 0,
            expand_dup,
            mode,
            slot_keys: Ghost(Seq::empty()),
            rkeys: Ghost(keys),
        };
        let n = right.rows.len();
        let mut i: usize = 0;
        while i < n
            invariant
                n == right.rows@.len(),
                keys == keys_of(right.rows@, rk@, mode),
                index.rkeys@ == keys,
                index.expand_dup == expand_dup,
                index.mode == mode,
                i <= n,
                index.holds(i as int),
            decreases n - i,
        {
            let key_opt = make_key(right.rows[i].as_slice(), rk, mode);
            assert(keys[i as int] == row_key_spec(right.rows@[i as int]@, rk@, mode));
            proof {
                assert forall|k: Seq<char>| #[trigger]
                    hits(keys, k, i as int + 1) == (if keys[i as int] == Some(k) {
                        hits(keys, k, i as int).push(i)
                    } else {
                        hits(keys, k, i as int)
                    }) by {}
            }
            match key_opt {
                None => {
                    proof {
                        assert forall|k: Seq<char>| #[trigger]
                            hits(keys, k, i as int + 1) == hits(keys, k, i as int) by {}
                        if index.max_dup != 0 {
                            let kw = choose|kw: Seq<char>| (#[trigger] hits(keys, kw, i as int)).len()
                                == index.max_dup;
                            assert(hits(keys, kw, i as int + 1).len() == index.max_dup);
                        }
                    }
                },
                Some(key) => {
                    let ghost k = key@;
                    let ghost old_index = index;
                    match slot_of(&index.slots, key.as_str()) {
                        None => {
                            let slot = index.entries.len();
                            index.entries.push(RowMatches::One { row: i, count: 1 });
                            insert_slot(&mut index.slots, key, slot);
                            proof {
                                index.slot_keys@ = index.slot_keys@.push(k);
                                assert(hits(keys, k, i as int).len() == 0);
                                assert(hits(keys, k, i as int + 1) == seq![i]);
                            }
                            if index.max_dup < 1 {
                                index.max_dup = 1;
                            }
                            proof {
                                let m = key_slots(index.slots);
                                assert forall|s: int| 0 <= s < index.entries@.len() implies {
                                    &&& m.contains_key(#[trigger] index.slot_keys@[s])
                                    &&& m[index.slot_keys@[s]] == s
                                    &&& index.entries@[s].records(
                                        hits(keys, index.slot_keys@[s], i as int + 1),
                                        expand_dup,
                                    )
                                } by {
                                    if s < slot {
                                        assert(old_index.slot_keys@[s] != k);
                                    }
                                }
                                assert forall|k2: Seq<char>| #[trigger] m.contains_key(k2) implies m[k2]
                                    < index.entries@.len() && index.slot_keys@[m[k2] as int] == k2 by {
                                    if k2 != k {
                                        assert(key_slots(old_index.slots).contains_key(k2));
                                    }
                                }
                                assert forall|k2: Seq<char>| #[trigger] m.contains_key(k2) <==> hits(
                                    keys,
                                    k2,
                                    i as int + 1,
                                ).len() > 0 by {
                                    if k2 != k {
                                        assert(m.contains_key(k2) == key_slots(
                                            old_index.slots,
                                        ).contains_key(k2));
                                    }
                                }
                                assert(hits(keys, k, i as int + 1).len() == 1);
                                assert forall|k2: Seq<char>| (#[trigger] hits(keys, k2, i as int + 1)).len()
                                    <= index.max_dup by {
                                    if k2 != k {
                                        assert(hits(keys, k2, i as int + 1) == hits(keys, k2, i as int));
                                    }
                                }
                                if old_index.max_dup == 0 {
                                    assert(hits(keys, k, i as int + 1).len() == index.max_dup);
                                } else {
                                    let kw = choose|kw: Seq<char>| (#[trigger] hits(keys, kw, i as int)).len()
                                        == old_index.max_dup;
                                    assert(kw != k);
                                    assert(hits(keys, kw, i as int + 1).len() == index.max_dup);
                                }
                            }
                        },
                        Some(slot) => {
                            proof {
                                assert(index.slot_keys@[slot as int] == k);
                                lemma_hits_bounds(keys, k, i as int);
                            }
                            let mut e = RowMatches::One { row: 0, count: 0 };
                            std::mem::swap(&mut index.entries[slot], &mut e);
                            let ghost h = hits(keys, k, i as int);
                            let updated = if expand_dup {
                                match e {
                                    RowMatches::One { row, .. } => {
                                        let mut rows: Vec<usize> = Vec::new();
                                        rows.push(row);
                                        rows.push(i);
                                        assert(rows@ == h.push(i));
                                        RowMatches::Many(rows)
                                    },
                                    RowMatches::Many(rows) => {
                                        let mut rows = rows;
                                        rows.push(i);
                                        RowMatches::Many(rows)
                                    },
                                }
                            } else {
                                match e {
                                    RowMatches::One { row, count } => {
                                        assert(count < i + 1);
                                        RowMatches::One { row, count: count.saturating_add(1) }
                                    },
                                    RowMatches::Many(rows) => RowMatches::Many(rows),
                                }
                            };
                            assert(updated.records(h.push(i), expand_dup));
                            index.entries.set(slot, updated);
                            let total = index.entries[slot].total_count();
                            proof {
                                index.entries[slot as int].lemma_records(h.push(i), expand_dup);
                            }
                            if index.max_dup < total {
                                index.max_dup = total;
                            }
                            proof {
                                let m = key_slots(index.slots);
                                assert(m == key_slots(old_index.slots));
                                assert forall|s: int| 0 <= s < index.entries@.len() implies {
                                    &&& m.contains_key(#[trigger] index.slot_keys@[s])
                                    &&& m[index.slot_keys@[s]] == s
                                    &&& index.entries@[s].records(
                                        hits(keys, index.slot_keys@[s], i as int + 1),
                                        expand_dup,
                                    )
                                } by {
                                    if s != slot {
                                        assert(index.slot_keys@[s] != k);
                                        assert(index.entries@[s] == old_index.entries@[s]);
                                    }
                                }
                                assert forall|k2: Seq<char>| #[trigger] m.contains_key(k2) <==> hits(
                                    keys,
                                    k2,
                                    i as int + 1,
                                ).len() > 0 by {
                                    if k2 != k {
                                        assert(hits(keys, k2, i as int + 1) == hits(keys, k2, i as int));
                                    }
                                }
                                assert forall|k2: Seq<char>| (#[trigger] hits(keys, k2, i as int + 1)).len()
                                    <= index.max_dup by {
                                    if k2 != k {
                                        assert(hits(keys, k2, i as int + 1) == hits(keys, k2, i as int));
                                    }
                                }
                                if index.max_dup == total {
                                    assert(hits(keys, k, i as int + 1).len() == index.max_dup);
                                } else {
                                    let kw = choose|kw: Seq<char>| (#[trigger] hits(keys, kw, i as int)).len()
                                        == old_index.max_dup;
                                    if kw == k {
                                        assert(false);
                                    }
                                    assert(hits(keys, kw, i as int + 1).len() == index.max_dup);
                                }
                            }
                        },
                    }
                },
            }
            assert(index.holds(i as int + 1));
            i = i + 1;
        }
        proof {
            assert forall|k: Seq<char>| (#[trigger] all_hits(keys, k)).len() <= index.max_dup by {
                assert(hits(keys, k, n as int).len() <= index.max_dup);
            }
            if index.max_dup != 0 {
                let kw = choose|kw: Seq<char>| (#[trigger] hits(keys, kw, n as int)).len()
                    == index.max_dup;
                assert(all_hits(keys, kw).len() == index.max_dup);
            }
        }
        index
    }

    /// The rows stored under `key`, if any right row carries it.
    pub fn lookup(&self, key: &str) -> (r: Option<&RowMatches>)
        requires
            self.wf(),
        ensures
            r is Some <==> all_hits(self.right_keys(), key@).len() > 0,
            r matches Some(e) ==> e.records(all_hits(self.right_keys(), key@), self.expand_spec()),
    {
        match slot_of(&self.slots, key) {
            Some(slot) => {
                assert(self.slot_keys@[slot as int] == key@);
                Some(&self.entries[slot])
            },
            None => None,
        }
    }

    pub fn max_dup(&self) -> (n: usize)
        ensures
            n == self.max_dup_spec(),
    {
        self.max_dup
    }

    pub fn distinct_keys(&self) -> (n: usize)
        ensures
            n == self.distinct_spec(),
    {
        self.entries.len()
    }

    pub fn expand_dup(&self) -> (b: bool)
        ensures
            b == self.expand_spec(),
    {
        self.expand_dup
    }

    pub fn mode(&self) -> (m: KeyMode)
        ensures
            m == self.mode_spec(),
    {
        self.mode
    }
}

} // verus!
