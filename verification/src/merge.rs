//! The merge engine's data model and laws: the same k-way discipline
//! that the row stream drives lazily over the worker channels, run here
//! to completion over materialized per-shard rows, where its ordering,
//! permutation and aggregation guarantees are stated and proved.

use crate::error::Error;
use crate::sql_daemon::{SqlRow, SqlValue};
use vstd::multiset::{group_multiset_axioms, Multiset};
use vstd::prelude::*;
use vstd::seq_lib::group_to_multiset_ensures;
use vstd::string::StringExecFns;

verus! {

broadcast use group_to_multiset_ensures, group_multiset_axioms;

// ---------------------------------------------------------------------------
// Keys.
// ---------------------------------------------------------------------------

/// The ordering key of a row: the integer in the order column, if that
/// column is in range and holds an integer.
pub open spec fn row_key(row: SqlRow, col: int) -> Option<i64> {
    if 0 <= col < row@.len() && row@[col] is Integer {
        Some(row@[col]->Integer_0)
    } else {
        None
    }
}

/// The key value used by ordering statements; a row without a key takes a
/// fixed value and is only spoken of under [`rows_keyed`].
pub open spec fn key_val(row: SqlRow, col: int) -> i64 {
    match row_key(row, col) {
        Some(k) => k,
        None => 0,
    }
}

/// The merge order: ascending keys under a min-heap, descending under a
/// max-heap.
pub open spec fn le_key(asc: bool, a: i64, b: i64) -> bool {
    if asc {
        a <= b
    } else {
        a >= b
    }
}

/// Every row of the sequence has an integer key in the order column.
pub open spec fn rows_keyed(rows: Seq<SqlRow>, col: int) -> bool {
    forall|i: int| 0 <= i < rows.len() ==> row_key(#[trigger] rows[i], col) is Some
}

/// The rows are sorted by their keys in the given direction.
pub open spec fn rows_sorted(rows: Seq<SqlRow>, col: int, asc: bool) -> bool {
    forall|i: int, j: int|
        0 <= i <= j < rows.len() ==> le_key(
            asc,
            key_val(#[trigger] rows[i], col),
            key_val(#[trigger] rows[j], col),
        )
}

/// Every row of every shard has an integer key in the order column.
pub open spec fn all_shards_keyed(shards: Seq<Vec<SqlRow>>, col: int) -> bool {
    forall|i: int| 0 <= i < shards.len() ==> rows_keyed(#[trigger] shards[i]@, col)
}

/// Every shard's rows are sorted by their keys.
pub open spec fn all_shards_sorted(shards: Seq<Vec<SqlRow>>, col: int, asc: bool) -> bool {
    forall|i: int| 0 <= i < shards.len() ==> rows_sorted(#[trigger] shards[i]@, col, asc)
}

/// Reads the ordering key of one row.
pub fn key_of(row: &SqlRow, column_index: u8) -> (r: Option<i64>)
    ensures
        r == row_key(*row, column_index as int),
{
    if (column_index as usize) < row.len() {
        match &row[column_index as usize] {
            SqlValue::Integer(n) => Some(*n),
            _ => None,
        }
    } else {
        None
    }
}

// ---------------------------------------------------------------------------
// Multisets of shard rows.
// ---------------------------------------------------------------------------

/// The multiset of all rows of the shards from position `j` on.
pub open spec fn rows_mset_from(shards: Seq<Vec<SqlRow>>, j: int) -> Multiset<SqlRow>
    decreases shards.len() - j,
{
    if j < 0 || j >= shards.len() {
        Multiset::empty()
    } else {
        shards[j]@.to_multiset().add(rows_mset_from(shards, j + 1))
    }
}

/// The multiset of all rows of the shards.
pub open spec fn rows_mset(shards: Seq<Vec<SqlRow>>) -> Multiset<SqlRow> {
    rows_mset_from(shards, 0)
}

/// Two shard lists equal from `j` on carry the same rows from `j` on.
proof fn lemma_rows_mset_agree(s: Seq<Vec<SqlRow>>, s2: Seq<Vec<SqlRow>>, j: int)
    requires
        s.len() == s2.len(),
        forall|m: int| j <= m < s.len() ==> s2[m] == s[m],
    ensures
        rows_mset_from(s2, j) =~= rows_mset_from(s, j),
    decreases s.len() - j,
{
    if 0 <= j && j < s.len() {
        lemma_rows_mset_agree(s, s2, j + 1);
    }
}

/// Every row of every shard at or after `j` is in the multiset.
proof fn lemma_rows_mset_contains(s: Seq<Vec<SqlRow>>, j: int, i: int, m: int)
    requires
        0 <= j <= i < s.len(),
        0 <= m < s[i]@.len(),
    ensures
        rows_mset_from(s, j).count(s[i]@[m]) >= 1,
    decreases i - j,
{
    if j == i {
        assert(s[i]@.contains(s[i]@[m]));
        assert(s[i]@.to_multiset().count(s[i]@[m]) > 0);
    } else {
        lemma_rows_mset_contains(s, j + 1, i, m);
    }
}

/// Taking the first row of shard `k` takes exactly one occurrence of that
/// row out of the multiset.
proof fn lemma_rows_mset_remove_front(s: Seq<Vec<SqlRow>>, s2: Seq<Vec<SqlRow>>, k: int, j: int)
    requires
        s.len() == s2.len(),
        0 <= j <= k < s.len(),
        s[k]@.len() > 0,
        s2[k]@ =~= s[k]@.remove(0),
        forall|m: int| 0 <= m < s.len() && m != k ==> s2[m] == s[m],
    ensures
        rows_mset_from(s2, j) =~= rows_mset_from(s, j).remove(s[k]@[0]),
    decreases k - j,
{
    let x = s[k]@[0];
    if j == k {
        assert(s2[k]@.to_multiset() =~= s[k]@.to_multiset().remove(x));
        lemma_rows_mset_agree(s, s2, k + 1);
        assert(s[k]@.contains(x));
        assert(s[k]@.to_multiset().count(x) > 0);
        assert(rows_mset_from(s2, k) =~= rows_mset_from(s, k).remove(x));
    } else {
        lemma_rows_mset_remove_front(s, s2, k, j + 1);
        lemma_rows_mset_contains(s, j + 1, k, 0);
        assert(rows_mset_from(s, j + 1).count(x) >= 1);
        assert(rows_mset_from(s2, j) =~= rows_mset_from(s, j).remove(x));
    }
}

/// Shards that are all empty from `j` on carry no rows from `j` on.
proof fn lemma_rows_mset_all_empty(s: Seq<Vec<SqlRow>>, j: int)
    requires
        forall|m: int| j <= m < s.len() ==> (#[trigger] s[m]@).len() == 0,
    ensures
        rows_mset_from(s, j) =~= Multiset::empty(),
    decreases s.len() - j,
{
    if 0 <= j && j < s.len() {
        lemma_rows_mset_all_empty(s, j + 1);
        assert(s[j]@ =~= Seq::<SqlRow>::empty());
        assert(Seq::<SqlRow>::empty().to_multiset() =~= Multiset::<SqlRow>::empty());
    }
}

// ---------------------------------------------------------------------------
// Suffixes.
// ---------------------------------------------------------------------------

/// `a` is what is left of `b` after some rows were taken off the front.
pub open spec fn is_suffix_of(a: Seq<SqlRow>, b: Seq<SqlRow>) -> bool {
    exists|d: int| 0 <= d <= b.len() && a =~= b.skip(d)
}

proof fn lemma_suffix_refl(b: Seq<SqlRow>)
    ensures
        is_suffix_of(b, b),
{
    assert(b =~= b.skip(0));
}

proof fn lemma_suffix_step(a: Seq<SqlRow>, b: Seq<SqlRow>)
    requires
        is_suffix_of(a, b),
        a.len() > 0,
    ensures
        is_suffix_of(a.remove(0), b),
{
    let d = choose|d: int| 0 <= d <= b.len() && a =~= b.skip(d);
    assert(a.remove(0) =~= b.skip(d + 1));
}

/// A suffix of a sorted shard is sorted, a suffix of a keyed shard is
/// keyed, and the head of a suffix is a row of the shard.
proof fn lemma_suffix_props(a: Seq<SqlRow>, b: Seq<SqlRow>, col: int, asc: bool)
    requires
        is_suffix_of(a, b),
    ensures
        rows_sorted(b, col, asc) ==> rows_sorted(a, col, asc),
        rows_keyed(b, col) ==> rows_keyed(a, col),
        a.len() > 0 ==> exists|j: int| 0 <= j < b.len() && b[j] == a[0],
{
    let d = choose|d: int| 0 <= d <= b.len() && a =~= b.skip(d);
    if a.len() > 0 {
        assert(b[d] == a[0]);
    }
}

// ---------------------------------------------------------------------------
// The extremum buffer: one pending row per shard, keyed by the order
// column. It stands where a binary heap would: the merge only ever asks
// for the extremal entry.
// ---------------------------------------------------------------------------

/// One pending entry of the merge: the shard it came from, its ordering
/// key, and the row itself. The shard is kept so that the merge can
/// refill from exactly that stream after the entry is taken.
pub struct HeapData {
    pub shard: u32,
    pub key: i64,
    pub row: SqlRow,
}

/// The multiset of rows held by a sequence of entries.
pub open spec fn heap_mset(entries: Seq<HeapData>) -> Multiset<SqlRow>
    decreases entries.len(),
{
    if entries.len() == 0 {
        Multiset::empty()
    } else {
        heap_mset(entries.drop_last()).insert(entries.last().row)
    }
}

/// Every row held by an entry is in the entry multiset.
proof fn lemma_heap_mset_contains(s: Seq<HeapData>, k: int)
    requires
        0 <= k < s.len(),
    ensures
        heap_mset(s).count(s[k].row) >= 1,
    decreases s.len(),
{
    if k == s.len() - 1 {
    } else {
        lemma_heap_mset_contains(s.drop_last(), k);
        assert(s.drop_last()[k] == s[k]);
    }
}

/// Taking one entry out takes exactly one occurrence of its row out.
proof fn lemma_heap_mset_remove(s: Seq<HeapData>, k: int)
    requires
        0 <= k < s.len(),
    ensures
        heap_mset(s.remove(k)) =~= heap_mset(s).remove(s[k].row),
    decreases s.len(),
{
    if k == s.len() - 1 {
        assert(s.remove(k) =~= s.drop_last());
    } else {
        lemma_heap_mset_remove(s.drop_last(), k);
        assert(s.remove(k).drop_last() =~= s.drop_last().remove(k));
        assert(s.remove(k).last() == s.last());
        lemma_heap_mset_contains(s.drop_last(), k);
        assert(s.drop_last()[k] == s[k]);
        assert(heap_mset(s.remove(k))
            =~= heap_mset(s.drop_last()).remove(s[k].row).insert(s.last().row));
        assert(heap_mset(s).remove(s[k].row)
            =~= heap_mset(s.drop_last()).insert(s.last().row).remove(s[k].row));
    }
}

/// The pending entries of the merge, with extraction of the extremal key.
pub struct HeapBuf {
    entries: Vec<HeapData>,
}

impl View for HeapBuf {
    type V = Seq<HeapData>;

    closed spec fn view(&self) -> Seq<HeapData> {
        self.entries@
    }
}

impl HeapBuf {
    /// An empty buffer.
    pub fn new() -> (h: HeapBuf)
        ensures
            h@ =~= Seq::<HeapData>::empty(),
    {
        HeapBuf { entries: Vec::new() }
    }

    /// The number of pending entries.
    pub fn len(&self) -> (n: usize)
        ensures
            n == self@.len(),
    {
        self.entries.len()
    }

    /// Adds one entry.
    pub fn push(&mut self, e: HeapData)
        ensures
            final(self)@ =~= old(self)@.push(e),
            heap_mset(final(self)@) =~= heap_mset(old(self)@).insert(e.row),
    {
        self.entries.push(e);
        proof {
            assert(self.entries@.drop_last() =~= old(self)@);
        }
    }

    /// Takes out an entry with the extremal key: the least under
    /// ascending order, the greatest under descending order. Among equal
    /// keys the earliest entry is taken.
    pub fn pop_best(&mut self, asc: bool) -> (r: Option<HeapData>)
        ensures
            old(self)@.len() == 0 ==> r is None && final(self)@ =~= old(self)@,
            old(self)@.len() > 0 ==> (r matches Some(e) && {
                &&& exists|k: int|
                    0 <= k < old(self)@.len() && e == old(self)@[k] && final(self)@ =~= old(
                        self,
                    )@.remove(k)
                &&& heap_mset(final(self)@) =~= heap_mset(old(self)@).remove(e.row)
                &&& forall|m: int|
                    0 <= m < old(self)@.len() ==> le_key(asc, e.key, old(self)@[m].key)
            }),
    {
        if self.entries.len() == 0 {
            return None;
        }
        let mut best: usize = 0;
        let mut i: usize = 1;
        while i < self.entries.len()
            invariant
                best < i <= self.entries@.len(),
                forall|m: int| 0 <= m < i ==> le_key(asc, self.entries@[best as int].key, self.entries@[m].key),
            decreases self.entries@.len() - i,
        {
            let better = if asc {
                self.entries[i].key < self.entries[best].key
            } else {
                self.entries[i].key > self.entries[best].key
            };
            if better {
                best = i;
            }
            i = i + 1;
        }
        proof {
            lemma_heap_mset_remove(self.entries@, best as int);
        }
        let e = self.entries.remove(best);
        Some(e)
    }
}


// ---------------------------------------------------------------------------
// The ordered merge.
// ---------------------------------------------------------------------------

/// One heap entry's key is below every remaining row of its own shard.
pub open spec fn entry_le_rest(
    e: HeapData,
    rest: Seq<Vec<SqlRow>>,
    col: int,
    asc: bool,
) -> bool {
    forall|m: int|
        0 <= m < rest[e.shard as int]@.len() ==> le_key(
            asc,
            e.key,
            key_val(#[trigger] rest[e.shard as int]@[m], col),
        )
}

/// The k-way ordered merge over the per-shard row lists, pulled to
/// completion: one entry per non-empty shard is seeded, then the extremal
/// entry is taken and its shard refilled, over and over. The output holds
/// exactly the rows of the shards; when every shard is sorted under the
/// order column, the output is sorted. The merge succeeds exactly when
/// every row carries an integer key in the order column, and fails with
/// `UnorderableColumn` otherwise.
#[verifier::loop_isolation(false)]
#[verifier::rlimit(100)]
pub fn ordered_merge(shards: Vec<Vec<SqlRow>>, column_index: u8, asc: bool) -> (r: Result<
    Vec<SqlRow>,
    Error,
>)
    requires
        shards@.len() <= u32::MAX,
    ensures
        r matches Ok(out) ==> {
            &&& out@.to_multiset() =~= rows_mset(shards@)
            &&& all_shards_keyed(shards@, column_index as int)
            &&& rows_keyed(out@, column_index as int)
            &&& all_shards_sorted(shards@, column_index as int, asc) ==> rows_sorted(
                out@,
                column_index as int,
                asc,
            )
        },
        r matches Err(e) ==> e is UnorderableColumn && !all_shards_keyed(
            shards@,
            column_index as int,
        ),
{
    let ghost orig: Seq<Vec<SqlRow>> = shards@;
    let ghost col: int = column_index as int;
    let ghost sorted_in: bool = all_shards_sorted(orig, col, asc);
    let n = shards.len();
    let mut rest = shards;
    let mut heap = HeapBuf::new();
    proof {
        assert forall|k: int| 0 <= k < n implies is_suffix_of(
            #[trigger] rest@[k]@,
            orig[k]@,
        ) by {
            lemma_suffix_refl(orig[k]@);
        }
    }
    let mut i: usize = 0;
    while i < n
        invariant
            n == orig.len() == rest@.len(),
            i <= n,
            col == column_index as int,
            sorted_in == all_shards_sorted(orig, col, asc),
            forall|k: int| i <= k < n ==> rest@[k] == orig[k],
            forall|k: int| 0 <= k < n ==> is_suffix_of(#[trigger] rest@[k]@, orig[k]@),
            heap_mset(heap@).add(rows_mset_from(rest@, 0)) =~= rows_mset_from(orig, 0),
            forall|k: int| 0 <= k < heap@.len() ==> (#[trigger] heap@[k]).shard < i,
            forall|k1: int, k2: int|
                0 <= k1 < k2 < heap@.len() ==> heap@[k1].shard != heap@[k2].shard,
            forall|k: int|
                0 <= k < heap@.len() ==> row_key((#[trigger] heap@[k]).row, col) == Some(
                    heap@[k].key,
                ),
            forall|s2: int|
                0 <= s2 < i && rest@[s2]@.len() > 0 ==> exists|k: int|
                    0 <= k < heap@.len() && (#[trigger] heap@[k]).shard as int == s2,
            sorted_in ==> forall|k: int|
                0 <= k < heap@.len() ==> entry_le_rest(#[trigger] heap@[k], rest@, col, asc),
        decreases n - i,
    {
        let ghost rest0 = rest@;
        let ghost heap0 = heap@;
        if rest[i].len() > 0 {
            let row = rest[i].remove(0);
            proof {
                assert(row == rest0[i as int]@[0]);
                assert(rest@[i as int]@ =~= rest0[i as int]@.remove(0));
                lemma_rows_mset_remove_front(rest0, rest@, i as int, 0);
                lemma_suffix_step(rest0[i as int]@, orig[i as int]@);
                lemma_rows_mset_contains(rest0, 0, i as int, 0);
            }
            match key_of(&row, column_index) {
                Some(k) => {
                    heap.push(HeapData { shard: i as u32, key: k, row });
                    proof {
                        assert(heap_mset(heap@).add(rows_mset_from(rest@, 0)) =~= heap_mset(
                            heap0,
                        ).add(rows_mset_from(rest0, 0)));
                        assert(heap@[heap@.len() - 1].shard as int == i as int);
                        assert forall|k1: int, k2: int|
                            0 <= k1 < k2 < heap@.len() implies heap@[k1].shard
                            != heap@[k2].shard by {
                            if k2 == heap@.len() - 1 {
                                assert(heap@[k1] == heap0[k1]);
                            } else {
                                assert(heap@[k1] == heap0[k1] && heap@[k2] == heap0[k2]);
                            }
                        }
                        assert forall|s2: int|
                            0 <= s2 < i + 1 && rest@[s2]@.len() > 0 implies exists|k2: int|
                            0 <= k2 < heap@.len() && (#[trigger] heap@[k2]).shard as int
                            == s2 by {
                            if s2 == i as int {
                                assert(heap@[heap@.len() - 1].shard as int == s2);
                            } else {
                                let k1 = choose|k2: int|
                                    0 <= k2 < heap0.len() && (#[trigger] heap0[k2]).shard as int
                                        == s2;
                                assert(heap@[k1].shard as int == s2);
                            }
                        }
                        if sorted_in {
                            assert(rest0[i as int] == orig[i as int]);
                            assert(rows_sorted(orig[i as int]@, col, asc));
                            assert forall|k2: int|
                                0 <= k2 < heap@.len() implies entry_le_rest(
                                #[trigger] heap@[k2],
                                rest@,
                                col,
                                asc,
                            ) by {
                                let e2 = heap@[k2];
                                if k2 < heap0.len() {
                                    assert(e2 == heap0[k2]);
                                    assert(e2.shard as int != i as int);
                                    assert(rest@[e2.shard as int] == rest0[e2.shard as int]);
                                    assert(entry_le_rest(e2, rest0, col, asc));
                                } else {
                                    assert(e2.shard as int == i as int);
                                    assert forall|m: int|
                                        0 <= m < rest@[i as int]@.len() implies le_key(
                                        asc,
                                        e2.key,
                                        key_val(#[trigger] rest@[i as int]@[m], col),
                                    ) by {
                                        assert(rest@[i as int]@[m] == orig[i as int]@[m + 1]);
                                        assert(le_key(
                                            asc,
                                            key_val(orig[i as int]@[0], col),
                                            key_val(orig[i as int]@[m + 1], col),
                                        ));
                                    }
                                }
                            }
                        }
                    }
                },
                None => {
                    proof {
                        assert(rest0[i as int] == orig[i as int]);
                        assert(row_key(orig[i as int]@[0], col) is None);
                        assert(!rows_keyed(orig[i as int]@, col));
                        assert(!all_shards_keyed(orig, col));
                    }
                    return Err(Error::UnorderableColumn);
                },
            }
        }
        i = i + 1;
    }
    let mut out: Vec<SqlRow> = Vec::new();
    while heap.len() > 0
        invariant
            n == orig.len() == rest@.len(),
            col == column_index as int,
            sorted_in == all_shards_sorted(orig, col, asc),
            forall|k: int| 0 <= k < n ==> is_suffix_of(#[trigger] rest@[k]@, orig[k]@),
            out@.to_multiset().add(heap_mset(heap@)).add(rows_mset_from(rest@, 0))
                =~= rows_mset_from(orig, 0),
            forall|k: int| 0 <= k < heap@.len() ==> (#[trigger] heap@[k]).shard < n,
            forall|k1: int, k2: int|
                0 <= k1 < k2 < heap@.len() ==> heap@[k1].shard != heap@[k2].shard,
            forall|k: int|
                0 <= k < heap@.len() ==> row_key((#[trigger] heap@[k]).row, col) == Some(
                    heap@[k].key,
                ),
            rows_keyed(out@, col),
            forall|s2: int|
                0 <= s2 < n && rest@[s2]@.len() > 0 ==> exists|k: int|
                    0 <= k < heap@.len() && (#[trigger] heap@[k]).shard as int == s2,
            sorted_in ==> rows_sorted(out@, col, asc),
            sorted_in ==> forall|k: int, j: int|
                0 <= k < heap@.len() && 0 <= j < out@.len() ==> le_key(
                    asc,
                    key_val(#[trigger] out@[j], col),
                    (#[trigger] heap@[k]).key,
                ),
            sorted_in ==> forall|k: int|
                0 <= k < heap@.len() ==> entry_le_rest(#[trigger] heap@[k], rest@, col, asc),
        decreases heap@.len() + rows_mset_from(rest@, 0).len(),
    {
        let ghost heap0 = heap@;
        let ghost rest0 = rest@;
        let ghost out0 = out@;
        let e = match heap.pop_best(asc) {
            Some(e) => e,
            None => {
                proof {
                    assert(false);
                }
                return Err(Error::UnorderableColumn);
            },
        };
        proof {
            let k0 = choose|k: int|
                0 <= k < heap0.len() && e == heap0[k] && heap@ =~= heap0.remove(k);
            assert(e == heap0[k0]);
            assert((e.shard as int) < n);
            assert(row_key(e.row, col) == Some(e.key));
            lemma_heap_mset_contains(heap0, k0);
            assert forall|k: int| 0 <= k < heap@.len() implies (#[trigger] heap@[k]).shard
                != e.shard by {
                if k < k0 {
                    assert(heap@[k] == heap0[k]);
                } else {
                    assert(heap@[k] == heap0[k + 1]);
                }
            }
            assert forall|s2: int|
                0 <= s2 < n && s2 != e.shard as int && rest@[s2]@.len() > 0 implies exists|k: int|
                0 <= k < heap@.len() && (#[trigger] heap@[k]).shard as int == s2 by {
                let k1 = choose|k: int|
                    0 <= k < heap0.len() && (#[trigger] heap0[k]).shard as int == s2;
                let w = if k1 < k0 {
                    k1
                } else {
                    k1 - 1
                };
                assert(heap@[w] == heap0[k1]);
            }
        }
        let ghost heap1 = heap@;
        let s = e.shard as usize;
        if rest[s].len() > 0 {
            let row2 = rest[s].remove(0);
            proof {
                assert(row2 == rest0[s as int]@[0]);
                assert(rest@[s as int]@ =~= rest0[s as int]@.remove(0));
                lemma_rows_mset_remove_front(rest0, rest@, s as int, 0);
                lemma_rows_mset_contains(rest0, 0, s as int, 0);
                lemma_suffix_step(rest0[s as int]@, orig[s as int]@);
                lemma_suffix_props(rest0[s as int]@, orig[s as int]@, col, asc);
            }
            match key_of(&row2, column_index) {
                Some(k2) => {
                    proof {
                        if sorted_in {
                            assert(le_key(asc, e.key, k2));
                        }
                    }
                    heap.push(HeapData { shard: e.shard, key: k2, row: row2 });
                    proof {
                        assert(heap@ =~= heap1.push(HeapData { shard: e.shard, key: k2, row: row2 }));
                        if sorted_in {
                            assert(rows_sorted(rest0[s as int]@, col, asc));
                            assert forall|k: int|
                                0 <= k < heap@.len() implies entry_le_rest(
                                #[trigger] heap@[k],
                                rest@,
                                col,
                                asc,
                            ) by {
                                let e2 = heap@[k];
                                if k < heap1.len() {
                                    assert(e2 == heap1[k]);
                                    assert(e2.shard != e.shard);
                                    assert(rest@[e2.shard as int] == rest0[e2.shard as int]);
                                    assert(entry_le_rest(e2, rest0, col, asc));
                                } else {
                                    assert(e2.key == k2 && e2.shard == e.shard);
                                    assert forall|m: int|
                                        0 <= m < rest@[s as int]@.len() implies le_key(
                                        asc,
                                        e2.key,
                                        key_val(#[trigger] rest@[s as int]@[m], col),
                                    ) by {
                                        assert(rest@[s as int]@[m] == rest0[s as int]@[m + 1]);
                                        assert(le_key(
                                            asc,
                                            key_val(rest0[s as int]@[0], col),
                                            key_val(rest0[s as int]@[m + 1], col),
                                        ));
                                        assert(key_val(rest0[s as int]@[0], col) == k2);
                                    }
                                }
                            }
                        }
                    }
                },
                None => {
                    proof {
                        assert(row_key(row2, col) is None);
                        let j = choose|j: int|
                            0 <= j < orig[s as int]@.len() && orig[s as int]@[j] == row2;
                        assert(!rows_keyed(orig[s as int]@, col));
                        assert(!all_shards_keyed(orig, col));
                    }
                    return Err(Error::UnorderableColumn);
                },
            }
        }
        out.push(e.row);
        proof {
            assert(out@ =~= out0.push(e.row));
            assert(out@.to_multiset() =~= out0.to_multiset().insert(e.row));
            assert(out@.to_multiset().add(heap_mset(heap@)).add(rows_mset_from(rest@, 0))
                =~= rows_mset_from(orig, 0));
            assert forall|s2: int|
                0 <= s2 < n && rest@[s2]@.len() > 0 implies exists|k: int|
                0 <= k < heap@.len() && (#[trigger] heap@[k]).shard as int == s2 by {
                if s2 == e.shard as int {
                    assert(rest0[s2]@.len() > 0);
                    assert(heap@[heap@.len() - 1].shard as int == s2);
                } else {
                    let k1 = choose|k: int|
                        0 <= k < heap1.len() && (#[trigger] heap1[k]).shard as int == s2;
                    assert(heap@[k1] == heap1[k1]);
                }
            }
            if sorted_in {
                assert forall|j1: int, j2: int|
                    0 <= j1 <= j2 < out@.len() implies le_key(
                    asc,
                    key_val(#[trigger] out@[j1], col),
                    key_val(#[trigger] out@[j2], col),
                ) by {
                    if j2 == out@.len() - 1 {
                        assert(out@[j2] == e.row);
                        assert(key_val(e.row, col) == e.key);
                        if j1 < j2 {
                            assert(le_key(asc, key_val(out0[j1], col), e.key));
                        }
                    } else {
                        assert(out@[j1] == out0[j1] && out@[j2] == out0[j2]);
                    }
                }
                assert forall|k: int, j: int|
                    0 <= k < heap@.len() && 0 <= j < out@.len() implies le_key(
                    asc,
                    key_val(#[trigger] out@[j], col),
                    (#[trigger] heap@[k]).key,
                ) by {
                    let e2 = heap@[k];
                    assert(le_key(asc, e.key, e2.key));
                    if j < out0.len() {
                        assert(le_key(asc, key_val(out0[j], col), e.key));
                    } else {
                        assert(out@[j] == e.row);
                    }
                }
            }
        }
    }
    proof {
        assert forall|s2: int| 0 <= s2 < n implies (#[trigger] rest@[s2]@).len() == 0 by {
            if rest@[s2]@.len() > 0 {
                let k = choose|k: int|
                    0 <= k < heap@.len() && (#[trigger] heap@[k]).shard as int == s2;
                assert(false);
            }
        }
        lemma_rows_mset_all_empty(rest@, 0);
        assert(heap_mset(heap@) =~= Multiset::empty());
        assert(out@.to_multiset() =~= rows_mset_from(orig, 0));
        assert forall|i2: int| 0 <= i2 < orig.len() implies rows_keyed(
            #[trigger] orig[i2]@,
            col,
        ) by {
            assert forall|m: int| 0 <= m < orig[i2]@.len() implies row_key(
                #[trigger] orig[i2]@[m],
                col,
            ) is Some by {
                lemma_rows_mset_contains(orig, 0, i2, m);
                let row = orig[i2]@[m];
                assert(out@.to_multiset().count(row) >= 1);
                assert(out@.contains(row));
                let j = choose|j: int| 0 <= j < out@.len() && out@[j] == row;
                assert(row_key(out@[j], col) is Some);
            }
        }
    }
    Ok(out)
}


// ---------------------------------------------------------------------------
// The unordered merge.
// ---------------------------------------------------------------------------

/// The rows of the shards from position `j` on, concatenated in shard
/// order.
pub open spec fn rows_concat_from(shards: Seq<Vec<SqlRow>>, j: int) -> Seq<SqlRow>
    decreases shards.len() - j,
{
    if j < 0 || j >= shards.len() {
        Seq::empty()
    } else {
        shards[j]@ + rows_concat_from(shards, j + 1)
    }
}

/// The unordered merge: every shard's rows, one shard after the other in
/// ascending shard order.
#[verifier::loop_isolation(false)]
#[verifier::rlimit(100)]
pub fn unordered_merge(shards: Vec<Vec<SqlRow>>) -> (out: Vec<SqlRow>)
    ensures
        out@ =~= rows_concat_from(shards@, 0),
{
    let ghost orig: Seq<Vec<SqlRow>> = shards@;
    let n = shards.len();
    let mut rest = shards;
    let mut out: Vec<SqlRow> = Vec::new();
    let mut i: usize = 0;
    while i < n
        invariant
            n == orig.len() == rest@.len(),
            i <= n,
            forall|k: int| i <= k < n ==> rest@[k] == orig[k],
            out@ + rows_concat_from(orig, i as int) =~= rows_concat_from(orig, 0),
        decreases n - i,
    {
        proof {
            lemma_suffix_refl(orig[i as int]@);
        }
        while rest[i].len() > 0
            invariant
                i < n == rest@.len() == orig.len(),
                forall|k: int| i < k < n ==> rest@[k] == orig[k],
                is_suffix_of(rest@[i as int]@, orig[i as int]@),
                out@ + rest@[i as int]@ + rows_concat_from(orig, i as int + 1)
                    =~= rows_concat_from(orig, 0),
            decreases rest@[i as int]@.len(),
        {
            let ghost resti0 = rest@[i as int]@;
            let row = rest[i].remove(0);
            proof {
                lemma_suffix_step(resti0, orig[i as int]@);
            }
            out.push(row);
        }
        i = i + 1;
    }
    out
}

// ---------------------------------------------------------------------------
// Count aggregation.
// ---------------------------------------------------------------------------

/// The sum of the first-column integers of the first `i` rows.
pub open spec fn sum_first_keys(rows: Seq<SqlRow>, i: int) -> int
    decreases i,
{
    if i <= 0 {
        0
    } else {
        sum_first_keys(rows, i - 1) + key_val(rows[i - 1], 0)
    }
}

/// Every prefix sum of the first-column integers fits an `i64`.
pub open spec fn counts_summable(rows: Seq<SqlRow>) -> bool {
    forall|i: int| 0 <= i <= rows.len() ==> i64::MIN <= #[trigger] sum_first_keys(rows, i)
        <= i64::MAX
}

/// The `COUNT(*)` aggregation over the drained per-shard count rows: the
/// total is the sum of every row's first-column integer; a total of zero
/// yields no row at all, any other total yields the single row
/// `[Integer(total)]`. A first column that is not an integer, or a sum
/// that leaves the signed 64-bit range, fails as an engine-level error.
#[verifier::loop_isolation(false)]
pub fn aggregate_count(rows: &Vec<SqlRow>) -> (r: Result<Option<SqlRow>, Error>)
    ensures
        match r {
            Ok(opt) => rows_keyed(rows@, 0) && counts_summable(rows@) && {
                let total = sum_first_keys(rows@, rows@.len() as int);
                if total == 0 {
                    opt is None
                } else {
                    opt matches Some(row) && row@ =~= seq![SqlValue::Integer(total as i64)]
                }
            },
            Err(e) => e is EngineError && !(rows_keyed(rows@, 0) && counts_summable(rows@)),
        },
{
    let n = rows.len();
    let mut acc: i64 = 0;
    let mut i: usize = 0;
    while i < n
        invariant
            i <= n == rows@.len(),
            acc == sum_first_keys(rows@, i as int),
            forall|j: int| 0 <= j < i ==> row_key(#[trigger] rows@[j], 0) is Some,
            forall|j: int| 0 <= j <= i ==> i64::MIN <= #[trigger] sum_first_keys(rows@, j)
                <= i64::MAX,
        decreases n - i,
    {
        let k = match key_of(&rows[i], 0) {
            Some(k) => k,
            None => {
                proof {
                    assert(!rows_keyed(rows@, 0));
                }
                return Err(
                    Error::EngineError(String::from_str("count column is not an integer")),
                );
            },
        };
        let wide: i128 = acc as i128 + k as i128;
        proof {
            assert(wide == sum_first_keys(rows@, i as int + 1));
        }
        if wide > i64::MAX as i128 || wide < i64::MIN as i128 {
            proof {
                assert(!counts_summable(rows@));
            }
            return Err(Error::EngineError(String::from_str("count total leaves the i64 range")));
        }
        acc = wide as i64;
        i = i + 1;
    }
    if acc == 0 {
        Ok(None)
    } else {
        let mut row: SqlRow = Vec::new();
        row.push(SqlValue::Integer(acc));
        Ok(Some(row))
    }
}

// ---------------------------------------------------------------------------
// Limit and offset.
// ---------------------------------------------------------------------------

/// The window `[offset, offset + limit)` of a merged row sequence,
/// clamped to its length: exactly what a global `LIMIT limit OFFSET
/// offset` leaves of the merged stream.
pub open spec fn spec_limit_window(rows: Seq<SqlRow>, limit: u32, offset: u32) -> Seq<SqlRow> {
    let lo = if offset <= rows.len() {
        offset as int
    } else {
        rows.len() as int
    };
    let hi = if offset + limit <= rows.len() {
        offset as int + limit as int
    } else {
        rows.len() as int
    };
    rows.subrange(lo, hi)
}

/// Applies the global limit and offset to the merged stream: the result
/// is exactly the window `merged[offset .. offset + limit]`, clamped to
/// the stream's length.
#[verifier::loop_isolation(false)]
pub fn apply_limit_offset(rows: Vec<SqlRow>, limit: u32, offset: u32) -> (out: Vec<SqlRow>)
    ensures
        out@ =~= spec_limit_window(rows@, limit, offset),
{
    let ghost orig: Seq<SqlRow> = rows@;
    let mut v = rows;
    let hi64: u64 = offset as u64 + limit as u64;
    let hi: usize = if hi64 > v.len() as u64 {
        v.len()
    } else {
        hi64 as usize
    };
    v.truncate(hi);
    let mut skipped: u32 = 0;
    while skipped < offset && v.len() > 0
        invariant
            hi <= orig.len(),
            skipped <= offset,
            skipped as int <= hi as int ==> v@ =~= orig.subrange(skipped as int, hi as int),
            skipped as int > hi as int ==> v@ =~= Seq::<SqlRow>::empty(),
        decreases offset - skipped,
    {
        v.remove(0);
        skipped = skipped + 1;
    }
    proof {
        assert(v@ =~= spec_limit_window(orig, limit, offset));
    }
    v
}



/// The window law: applying the global limit and offset to any merged
/// sequence takes exactly the slice `[offset, offset + limit)` of it,
/// clamped to its length. Together with the merge's own guarantees this
/// says that limiting the ordered merge yields the merge's own window.
pub proof fn lemma_limit_window_is_subrange(rows: Seq<SqlRow>, limit: u32, offset: u32)
    requires
        offset + limit <= rows.len(),
    ensures
        spec_limit_window(rows, limit, offset) =~= rows.subrange(
            offset as int,
            offset as int + limit as int,
        ),
{
}


} // verus!
