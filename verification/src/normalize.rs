//! Ordering statistics by time: a stable sort on the time key followed by
//! removing all but the first of each run of entries with the same time.
//!
//! The result is stated directly: the entries come out in strictly
//! increasing time, every time of the input is there, and each entry is the
//! first one of the input that has its time.

use vstd::prelude::*;

verus! {

/// An entry that carries a time key.
pub trait TimedEntry: Copy {
    /// The entry's time.
    spec fn spec_time(&self) -> u64;

    /// The entry's time.
    fn time(&self) -> (t: u64)
        ensures
            t == self.spec_time(),
    ;
}

/// The times strictly increase along `r`.
pub open spec fn strictly_increasing_times<T: TimedEntry>(r: Seq<T>) -> bool {
    forall|i: int, j: int|
        0 <= i < j < r.len() ==> #[trigger] r[i].spec_time() < #[trigger] r[j].spec_time()
}

/// `raw[i]` is the first entry of `raw` that has its time.
pub open spec fn first_with_its_time<T: TimedEntry>(raw: Seq<T>, i: int) -> bool {
    forall|k: int| 0 <= k < i ==> #[trigger] raw[k].spec_time() != raw[i].spec_time()
}

/// Some entry of `r` has time `t`.
pub open spec fn has_time<T: TimedEntry>(r: Seq<T>, t: u64) -> bool {
    exists|j: int| 0 <= j < r.len() && #[trigger] r[j].spec_time() == t
}

/// `r` is what sorting the first `n` entries of `raw` by time, stably, and
/// keeping the first of each group of equal times gives.
pub open spec fn normalizes_prefix<T: TimedEntry>(raw: Seq<T>, n: int, r: Seq<T>) -> bool {
    &&& 0 <= n <= raw.len()
    &&& strictly_increasing_times(r)
    &&& forall|i: int| 0 <= i < n ==> has_time(r, #[trigger] raw[i].spec_time())
    &&& forall|j: int| 0 <= j < r.len() ==> first_occurrence_within(raw, n, #[trigger] r[j])
}

/// `x` is, among the first `n` entries of `raw`, the first one with its time.
pub open spec fn first_occurrence_within<T: TimedEntry>(raw: Seq<T>, n: int, x: T) -> bool {
    exists|i: int| 0 <= i < n && #[trigger] raw[i] == x && first_with_its_time(raw, i)
}

/// `r` is `raw` sorted stably by time with all but the first entry of each
/// time removed.
pub open spec fn is_time_normalization<T: TimedEntry>(raw: Seq<T>, r: Seq<T>) -> bool {
    normalizes_prefix(raw, raw.len() as int, r)
}

/// Sorts `raw` by time, keeping of the entries that share a time only the one
/// that comes first in `raw`.
pub fn normalize_by_time<T: TimedEntry>(raw: &Vec<T>) -> (r: Vec<T>)
    ensures
        is_time_normalization(raw@, r@),
{
    let mut r: Vec<T> = Vec::new();
    let mut i: usize = 0;
    while i < raw.len()
        invariant
            i <= raw.len(),
            normalizes_prefix(raw@, i as int, r@),
        decreases raw.len() - i,
    {
        let e = raw[i];
        let t = e.time();
        let mut k = r.len();
        while k > 0 && r[k - 1].time() > t
            invariant
                k <= r.len(),
                t == raw@[i as int].spec_time(),
                forall|m: int| k <= m < r.len() ==> #[trigger] r@[m].spec_time() > t,
            decreases k,
        {
            k = k - 1;
        }
        let ghost old_r = r@;
        if k > 0 && r[k - 1].time() == t {
            assert(r@[k - 1].spec_time() == raw@[i as int].spec_time());
        } else {
            proof {
                // `t` is new: everything before position k is earlier, the rest later.
                assert forall|m: int| 0 <= m < k implies #[trigger] old_r[m].spec_time() < t by {
                    if k > 0 {
                        assert(old_r[k - 1].spec_time() < t);
                        if m < k - 1 {
                            assert(old_r[m].spec_time() < old_r[k - 1].spec_time());
                        }
                    }
                }
                assert(!has_time(old_r, t)) by {
                    if has_time(old_r, t) {
                        let j = choose|j: int| 0 <= j < old_r.len() && #[trigger] old_r[j].spec_time() == t;
                        if j < k {
                            assert(old_r[j].spec_time() < t);
                        } else {
                            assert(old_r[j].spec_time() > t);
                        }
                    }
                }
                assert(first_with_its_time(raw@, i as int)) by {
                    assert forall|m: int| 0 <= m < i implies #[trigger] raw@[m].spec_time() != raw@[i as int].spec_time() by {
                        assert(has_time(old_r, raw@[m].spec_time()));
                    }
                }
            }
            r.insert(k, e);
            proof {
                assert forall|a: int, b: int| 0 <= a < b < r@.len() implies #[trigger] r@[a].spec_time() < #[trigger] r@[b].spec_time() by {
                    if b < k {
                        assert(old_r[a].spec_time() < old_r[b].spec_time());
                    } else if b == k {
                        assert(old_r[a].spec_time() < t);
                    } else if a < k {
                        assert(old_r[a].spec_time() < t);
                        assert(old_r[b - 1].spec_time() > t);
                    } else if a == k {
                        assert(old_r[b - 1].spec_time() > t);
                    } else {
                        assert(old_r[a - 1].spec_time() < old_r[b - 1].spec_time());
                    }
                }
                assert forall|m: int| 0 <= m < i + 1 implies has_time(r@, #[trigger] raw@[m].spec_time()) by {
                    if m == i {
                        assert(r@[k as int].spec_time() == t);
                    } else {
                        assert(has_time(old_r, raw@[m].spec_time()));
                        let j = choose|j: int| 0 <= j < old_r.len() && #[trigger] old_r[j].spec_time() == raw@[m].spec_time();
                        if j < k {
                            assert(r@[j].spec_time() == raw@[m].spec_time());
                        } else {
                            assert(r@[j + 1].spec_time() == raw@[m].spec_time());
                        }
                    }
                }
                assert forall|j: int| 0 <= j < r@.len() implies first_occurrence_within(raw@, i + 1, #[trigger] r@[j]) by {
                    if j == k {
                        assert(raw@[i as int] == r@[j]);
                    } else if j < k {
                        assert(r@[j] == old_r[j]);
                        assert(first_occurrence_within(raw@, i as int, old_r[j]));
                        let m = choose|m: int| 0 <= m < i && #[trigger] raw@[m] == old_r[j] && first_with_its_time(raw@, m);
                        assert(raw@[m] == r@[j]);
                    } else {
                        assert(r@[j] == old_r[j - 1]);
                        assert(first_occurrence_within(raw@, i as int, old_r[j - 1]));
                        let m = choose|m: int| 0 <= m < i && #[trigger] raw@[m] == old_r[j - 1] && first_with_its_time(raw@, m);
                        assert(raw@[m] == r@[j]);
                    }
                }
            }
        }
        proof {
            assert forall|j: int| 0 <= j < r@.len() implies first_occurrence_within(raw@, i + 1, #[trigger] r@[j]) by {
                if r@ == old_r {
                    assert(first_occurrence_within(raw@, i as int, old_r[j]));
                    let m = choose|m: int| 0 <= m < i && #[trigger] raw@[m] == old_r[j] && first_with_its_time(raw@, m);
                    assert(raw@[m] == r@[j]);
                }
            }
            assert forall|m: int| 0 <= m < i + 1 implies has_time(r@, #[trigger] raw@[m].spec_time()) by {
                if r@ == old_r && m == i {
                    assert(r@[k - 1].spec_time() == raw@[m].spec_time());
                }
            }
        }
        i = i + 1;
    }
    r
}

/// `x` is an entry of `b`.
pub open spec fn contains_entry<T: TimedEntry>(b: Seq<T>, x: T) -> bool {
    exists|k: int| 0 <= k < b.len() && #[trigger] b[k] == x
}

/// Every entry of `a` is an entry of `b`.
pub open spec fn entries_within<T: TimedEntry>(a: Seq<T>, b: Seq<T>) -> bool {
    forall|j: int| 0 <= j < a.len() ==> contains_entry(b, #[trigger] a[j])
}

proof fn lemma_last_entries_agree<T: TimedEntry>(a: Seq<T>, b: Seq<T>)
    requires
        a.len() > 0,
        b.len() > 0,
        strictly_increasing_times(a),
        strictly_increasing_times(b),
        entries_within(a, b),
        entries_within(b, a),
    ensures
        a.last() == b.last(),
{
    let la = a.len() - 1;
    let lb = b.len() - 1;
    assert(contains_entry(b, a[la]));
    let kb = choose|k: int| 0 <= k < b.len() && #[trigger] b[k] == a[la];
    assert(contains_entry(a, b[lb]));
    let ka = choose|k: int| 0 <= k < a.len() && #[trigger] a[k] == b[lb];
    if kb < lb {
        assert(b[kb].spec_time() < b[lb].spec_time());
        if ka < la {
            assert(a[ka].spec_time() < a[la].spec_time());
        }
        assert(false);
    }
}

proof fn lemma_within_drop_last<T: TimedEntry>(a: Seq<T>, b: Seq<T>)
    requires
        a.len() > 0,
        b.len() > 0,
        strictly_increasing_times(a),
        strictly_increasing_times(b),
        entries_within(a, b),
        a.last() == b.last(),
    ensures
        entries_within(a.drop_last(), b.drop_last()),
{
    let la = a.len() - 1;
    let lb = b.len() - 1;
    let a2 = a.drop_last();
    let b2 = b.drop_last();
    assert forall|j: int| 0 <= j < a2.len() implies contains_entry(b2, #[trigger] a2[j]) by {
        assert(contains_entry(b, a[j]));
        let k = choose|k: int| 0 <= k < b.len() && #[trigger] b[k] == a[j];
        if k == lb {
            assert(a[j].spec_time() < a[la].spec_time());
            assert(false);
        }
        assert(b2[k] == a2[j]);
    }
}

proof fn lemma_increasing_same_entries_equal<T: TimedEntry>(a: Seq<T>, b: Seq<T>)
    requires
        strictly_increasing_times(a),
        strictly_increasing_times(b),
        entries_within(a, b),
        entries_within(b, a),
    ensures
        a == b,
    decreases a.len(),
{
    if a.len() == 0 || b.len() == 0 {
        if a.len() > 0 {
            assert(contains_entry(b, a[0]));
        }
        if b.len() > 0 {
            assert(contains_entry(a, b[0]));
        }
        assert(a =~= b);
    } else {
        lemma_last_entries_agree(a, b);
        lemma_within_drop_last(a, b);
        lemma_within_drop_last(b, a);
        lemma_increasing_same_entries_equal(a.drop_last(), b.drop_last());
        assert(a =~= a.drop_last().push(a.last()));
        assert(b =~= b.drop_last().push(b.last()));
    }
}

proof fn lemma_normalization_within<T: TimedEntry>(raw: Seq<T>, r1: Seq<T>, r2: Seq<T>)
    requires
        is_time_normalization(raw, r1),
        is_time_normalization(raw, r2),
    ensures
        entries_within(r1, r2),
{
    assert forall|j: int| 0 <= j < r1.len() implies contains_entry(r2, #[trigger] r1[j]) by {
        assert(first_occurrence_within(raw, raw.len() as int, r1[j]));
        let i1 = choose|i: int| 0 <= i < raw.len() && #[trigger] raw[i] == r1[j] && first_with_its_time(raw, i);
        assert(has_time(r2, raw[i1].spec_time()));
        let k = choose|k: int| 0 <= k < r2.len() && #[trigger] r2[k].spec_time() == raw[i1].spec_time();
        assert(first_occurrence_within(raw, raw.len() as int, r2[k]));
        let i2 = choose|i: int| 0 <= i < raw.len() && #[trigger] raw[i] == r2[k] && first_with_its_time(raw, i);
        if i1 < i2 {
            assert(raw[i1].spec_time() != raw[i2].spec_time());
        } else if i2 < i1 {
            assert(raw[i2].spec_time() != raw[i1].spec_time());
        }
        assert(r2[k] == r1[j]);
    }
}

/// Ordering by time is well defined: a sequence of entries has one
/// normalization only, so any two that meet the description agree.
pub proof fn lemma_time_normalization_unique<T: TimedEntry>(raw: Seq<T>, r1: Seq<T>, r2: Seq<T>)
    requires
        is_time_normalization(raw, r1),
        is_time_normalization(raw, r2),
    ensures
        r1 == r2,
{
    lemma_normalization_within(raw, r1, r2);
    lemma_normalization_within(raw, r2, r1);
    lemma_increasing_same_entries_equal(r1, r2);
}

/// Entries already in strictly increasing time are left as they are.
pub proof fn lemma_time_normalization_fixes_ordered<T: TimedEntry>(r: Seq<T>)
    requires
        strictly_increasing_times(r),
    ensures
        is_time_normalization(r, r),
{
    assert forall|i: int| 0 <= i < r.len() implies has_time(r, #[trigger] r[i].spec_time()) by {
        assert(r[i].spec_time() == r[i].spec_time());
    }
    assert forall|j: int| 0 <= j < r.len() implies first_occurrence_within(r, r.len() as int, #[trigger] r[j]) by {
        assert forall|k: int| 0 <= k < j implies #[trigger] r[k].spec_time() != r[j].spec_time() by {
            assert(r[k].spec_time() < r[j].spec_time());
        }
        assert(first_with_its_time(r, j));
    }
}

/// Ordering by time is idempotent: the normalization of a normalization is
/// the normalization itself.
pub proof fn lemma_time_normalization_idempotent<T: TimedEntry>(raw: Seq<T>, r: Seq<T>, rr: Seq<T>)
    requires
        is_time_normalization(raw, r),
        is_time_normalization(r, rr),
    ensures
        rr == r,
{
    lemma_time_normalization_fixes_ordered(r);
    lemma_time_normalization_unique(r, rr, r);
}

} // verus!
