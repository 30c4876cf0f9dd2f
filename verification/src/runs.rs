//! A set of numbers written as runs: each run is the first and the last of a stretch of
//! numbers that follow one another without a gap.

use crate::be64::{lemma_bytes_round_trip, lemma_u64_round_trip, push_u64, read_u64, u64_bytes, u64_of_bytes};
use crate::idset::increasing;
use vstd::prelude::*;

verus! {

/// `len` numbers that follow one another, from `first`.
pub open spec fn stretch(first: int, len: nat) -> Seq<u64> {
    Seq::new(len, |i: int| (first + i) as u64)
}

/// The numbers from `first` to `last`, both included.
pub open spec fn span(run: (u64, u64)) -> Seq<u64> {
    stretch(run.0 as int, (run.1 - run.0 + 1) as nat)
}

/// The numbers that a list of runs holds, run after run.
pub open spec fn ids_of(runs: Seq<(u64, u64)>) -> Seq<u64>
    decreases runs.len(),
{
    if runs.len() == 0 {
        Seq::empty()
    } else {
        ids_of(runs.drop_last()) + span(runs.last())
    }
}

/// No run is empty, each run ends below `limit`, and each run begins above the end of the
/// runs before it.
pub open spec fn valid_runs(runs: Seq<(u64, u64)>, limit: u64) -> bool {
    &&& forall|i: int| 0 <= i < runs.len() ==> (#[trigger] runs[i]).0 <= runs[i].1 < limit
    &&& forall|i: int, j: int|
        0 <= i < j < runs.len() ==> (#[trigger] runs[i]).1 < (#[trigger] runs[j]).0
}

/// The runs are as long as they can be: between two of them a number is missing.
pub open spec fn longest_runs(runs: Seq<(u64, u64)>) -> bool {
    &&& forall|i: int| 0 <= i < runs.len() ==> (#[trigger] runs[i]).0 <= runs[i].1
    &&& forall|i: int, j: int|
        0 <= i < j < runs.len() ==> (#[trigger] runs[i]).1 + 1 < (#[trigger] runs[j]).0
}

/// The bytes of a list of runs: sixteen for each, its first number and then its last.
pub open spec fn runs_bytes(runs: Seq<(u64, u64)>) -> Seq<u8>
    decreases runs.len(),
{
    if runs.len() == 0 {
        Seq::empty()
    } else {
        runs_bytes(runs.drop_last()) + u64_bytes(runs.last().0) + u64_bytes(runs.last().1)
    }
}

/// The runs that the first `n` groups of sixteen bytes stand for.
pub open spec fn runs_upto(b: Seq<u8>, n: int) -> Seq<(u64, u64)>
    decreases n,
{
    if n <= 0 {
        Seq::empty()
    } else {
        runs_upto(b, n - 1).push(
            (
                u64_of_bytes(b.subrange(16 * (n - 1), 16 * (n - 1) + 8)),
                u64_of_bytes(b.subrange(16 * (n - 1) + 8, 16 * n)),
            ),
        )
    }
}

/// The runs that a whole number of groups of sixteen bytes stand for.
pub open spec fn runs_of_bytes(b: Seq<u8>) -> Seq<(u64, u64)> {
    runs_upto(b, b.len() as int / 16)
}

/// The numbers of valid runs increase, stay below the limit, and hold the last number of
/// each run.
pub proof fn lemma_ids_of_valid_runs(runs: Seq<(u64, u64)>, limit: u64)
    requires
        valid_runs(runs, limit),
    ensures
        increasing(ids_of(runs)),
        forall|i: int| 0 <= i < ids_of(runs).len() ==> #[trigger] ids_of(runs)[i] < limit,
        runs.len() > 0 ==> ids_of(runs).len() > 0 && ids_of(runs).last() == runs.last().1,
        forall|i: int, k: int|
            0 <= i < ids_of(runs).len() && 0 <= k < runs.len() && k == runs.len() - 1
                ==> #[trigger] ids_of(runs)[i] <= (#[trigger] runs[k]).1,
    decreases runs.len(),
{
    if runs.len() > 0 {
        let shorter = runs.drop_last();
        let run = runs.last();
        assert(valid_runs(shorter, limit)) by {
            assert forall|i: int| 0 <= i < shorter.len() implies (#[trigger] shorter[i]).0
                <= shorter[i].1 < limit by {
                assert(shorter[i] == runs[i]);
            }
            assert forall|i: int, j: int| 0 <= i < j < shorter.len() implies (
            #[trigger] shorter[i]).1 < (#[trigger] shorter[j]).0 by {
                assert(shorter[i] == runs[i] && shorter[j] == runs[j]);
            }
        }
        lemma_ids_of_valid_runs(shorter, limit);
        let a = ids_of(shorter);
        let b = span(run);
        let all = ids_of(runs);
        assert(all == a + b);
        assert(runs[runs.len() - 1] == run);
        if shorter.len() > 0 {
            assert(shorter[shorter.len() - 1] == runs[runs.len() - 2]);
            assert(runs[runs.len() - 2].1 < runs[runs.len() - 1].0);
        }
        assert forall|i: int, j: int| 0 <= i < j < all.len() implies all[i] < all[j] by {
            if j < a.len() {
            } else if i >= a.len() {
            } else {
                assert(all[i] == a[i]);
                assert(a[i] <= shorter[shorter.len() - 1].1);
            }
        }
    }
}

/// The runs, as long as they can be, that hold the numbers `ids`.
pub open spec fn runs_for(ids: Seq<u64>) -> Seq<(u64, u64)> {
    choose|runs: Seq<(u64, u64)>| longest_runs(runs) && ids_of(runs) == ids
}

/// What a list of longest runs holds: at least one number for each run, the last number of
/// the last run at the end, and no number above it.
pub proof fn lemma_ids_of_longest_runs(runs: Seq<(u64, u64)>)
    requires
        longest_runs(runs),
    ensures
        ids_of(runs).len() >= runs.len(),
        runs.len() > 0 ==> ids_of(runs).last() == runs.last().1,
        forall|i: int|
            0 <= i < ids_of(runs).len() && runs.len() > 0 ==> #[trigger] ids_of(runs)[i]
                <= runs.last().1,
    decreases runs.len(),
{
    if runs.len() > 0 {
        let shorter = runs.drop_last();
        assert(longest_runs(shorter)) by {
            assert forall|i: int| 0 <= i < shorter.len() implies (#[trigger] shorter[i]).0
                <= shorter[i].1 by {
                assert(shorter[i] == runs[i]);
            }
            assert forall|i: int, j: int| 0 <= i < j < shorter.len() implies (
            #[trigger] shorter[i]).1 + 1 < (#[trigger] shorter[j]).0 by {
                assert(shorter[i] == runs[i] && shorter[j] == runs[j]);
            }
        }
        lemma_ids_of_longest_runs(shorter);
        let a = ids_of(shorter);
        let all = ids_of(runs);
        assert(runs[runs.len() - 1] == runs.last());
        if shorter.len() > 0 {
            assert(shorter[shorter.len() - 1] == runs[runs.len() - 2]);
            assert(runs[runs.len() - 2].1 + 1 < runs[runs.len() - 1].0);
        }
        assert forall|i: int| 0 <= i < all.len() implies #[trigger] all[i] <= runs.last().1 by {
            if i < a.len() {
                assert(all[i] == a[i]);
            }
        }
    }
}

/// A set of numbers can be written as longest runs in one way only.
pub proof fn lemma_longest_runs_unique(first: Seq<(u64, u64)>, second: Seq<(u64, u64)>)
    requires
        longest_runs(first),
        longest_runs(second),
        ids_of(first) == ids_of(second),
    ensures
        first == second,
    decreases first.len(),
{
    lemma_ids_of_longest_runs(first);
    lemma_ids_of_longest_runs(second);
    if first.len() == 0 || second.len() == 0 {
        assert(ids_of(first).len() == 0);
        assert(first =~= second);
    } else {
        let ids = ids_of(first);
        let a = first.drop_last();
        let b = second.drop_last();
        let x = first.last();
        let y = second.last();
        assert(first[first.len() - 1] == x && second[second.len() - 1] == y);
        assert(x.1 == y.1);
        assert(longest_runs(a)) by {
            assert forall|i: int| 0 <= i < a.len() implies (#[trigger] a[i]).0 <= a[i].1 by {
                assert(a[i] == first[i]);
            }
            assert forall|i: int, j: int| 0 <= i < j < a.len() implies (#[trigger] a[i]).1 + 1 < (
            #[trigger] a[j]).0 by {
                assert(a[i] == first[i] && a[j] == first[j]);
            }
        }
        assert(longest_runs(b)) by {
            assert forall|i: int| 0 <= i < b.len() implies (#[trigger] b[i]).0 <= b[i].1 by {
                assert(b[i] == second[i]);
            }
            assert forall|i: int, j: int| 0 <= i < j < b.len() implies (#[trigger] b[i]).1 + 1 < (
            #[trigger] b[j]).0 by {
                assert(b[i] == second[i] && b[j] == second[j]);
            }
        }
        lemma_ids_of_longest_runs(a);
        lemma_ids_of_longest_runs(b);
        let ia = ids_of(a);
        let ib = ids_of(b);
        assert(ids == ia + span(x));
        assert(ids == ib + span(y));
        if x.0 < y.0 {
            lemma_gap_is_missing(b, y, ia, x);
        } else if y.0 < x.0 {
            lemma_gap_is_missing(a, x, ib, y);
        }
        assert(span(x) == span(y));
        assert(ia =~= ids.subrange(0, ia.len() as int));
        assert(ib =~= ids.subrange(0, ib.len() as int));
        lemma_longest_runs_unique(a, b);
        assert(first =~= a.push(x));
        assert(second =~= b.push(y));
    }
}

/// Where two ways of writing a set of numbers end at the same number, the last run of the
/// one that is in longest runs begins no later than the last run of the other.
pub proof fn lemma_gap_is_missing(
    before: Seq<(u64, u64)>,
    run: (u64, u64),
    other_before: Seq<u64>,
    other: (u64, u64),
)
    requires
        longest_runs(before.push(run)),
        run.0 <= run.1,
        other.0 <= other.1,
        other.1 == run.1,
        ids_of(before) + span(run) == other_before + span(other),
    ensures
        run.0 <= other.0,
{
    if run.0 <= other.0 {
        return ;
    }
    let runs = before.push(run);
    assert(runs.drop_last() =~= before);
    assert(longest_runs(before)) by {
        assert forall|i: int| 0 <= i < before.len() implies (#[trigger] before[i]).0
            <= before[i].1 by {
            assert(before[i] == runs[i]);
        }
        assert forall|i: int, j: int| 0 <= i < j < before.len() implies (
        #[trigger] before[i]).1 + 1 < (#[trigger] before[j]).0 by {
            assert(before[i] == runs[i] && before[j] == runs[j]);
        }
    }
    lemma_ids_of_longest_runs(before);
    let ids = ids_of(before) + span(run);
    let missing = (run.0 - 1) as u64;
    assert(ids.len() == ids_of(before).len() + span(run).len());
    assert(ids.len() == other_before.len() + span(other).len());
    assert(span(run).len() == run.1 - run.0 + 1);
    assert(span(other).len() == other.1 - other.0 + 1);
    // The number before the run is held by the other way of writing the set.
    let at = other_before.len() + (missing - other.0);
    assert(0 <= missing - other.0 < span(other).len());
    assert((other_before + span(other))[at] == span(other)[missing - other.0]);
    assert(ids[at] == missing);
    // It is not held by this one.
    if at < ids_of(before).len() {
        assert(ids[at] == ids_of(before)[at]);
        assert(before.len() > 0);
        assert(runs[before.len() - 1] == before.last());
        assert(runs[before.len() as int] == run);
        assert(before.last().1 + 1 < run.0);
    } else {
        assert(ids[at] == span(run)[at - ids_of(before).len()]);
    }
}

/// Writes a set of numbers as runs that are as long as they can be.
pub fn compress(ids: &[u64]) -> (runs: Vec<(u64, u64)>)
    requires
        increasing(ids@),
    ensures
        longest_runs(runs@),
        ids_of(runs@) == ids@,
        runs@ == runs_for(ids@),
        forall|limit: u64|
            (forall|i: int| 0 <= i < ids@.len() ==> #[trigger] ids@[i] < limit) ==> valid_runs(
                runs@,
                limit,
            ),
{
    let mut runs: Vec<(u64, u64)> = Vec::new();
    let n = ids.len();
    if n == 0 {
        assert(ids_of(runs@) =~= ids@);
        proof {
            lemma_longest_runs_unique(runs@, runs_for(ids@));
        }
        return runs;
    }
    let mut first = ids[0];
    let mut last = ids[0];
    let mut i: usize = 1;
    assert(ids_of(runs@) + span((first, last)) =~= ids@.subrange(0, 1));
    while i < n
        invariant
            1 <= i <= n,
            n == ids@.len(),
            increasing(ids@),
            first <= last,
            last == ids@[i - 1],
            longest_runs(runs@),
            forall|k: int| 0 <= k < runs@.len() ==> (#[trigger] runs@[k]).1 + 1 < first,
            forall|k: int|
                0 <= k < runs@.len() ==> exists|j: int|
                    0 <= j < i && ids@[j] == (#[trigger] runs@[k]).1,
            exists|j: int| 0 <= j < i && ids@[j] == last,
            ids_of(runs@) + span((first, last)) == ids@.subrange(0, i as int),
        decreases n - i,
    {
        let x = ids[i];
        assert(ids@[i - 1] < ids@[i as int]);
        if x == last + 1 {
            assert(span((first, last)).push(x) =~= span((first, x)));
            assert(ids@.subrange(0, i as int).push(x) =~= ids@.subrange(0, i + 1));
            assert((ids_of(runs@) + span((first, last))).push(x) =~= ids_of(runs@) + span(
                (first, x),
            ));
            last = x;
        } else {
            let ghost before = runs@;
            runs.push((first, last));
            proof {
                assert(runs@.drop_last() =~= before);
                assert(span((x, x)) =~= seq![x]);
                assert(ids@.subrange(0, i as int).push(x) =~= ids@.subrange(0, i + 1));
                assert(ids_of(runs@) + span((x, x)) =~= ids@.subrange(0, i + 1));
                assert forall|k: int| 0 <= k < runs@.len() implies exists|j: int|
                    0 <= j < i + 1 && ids@[j] == (#[trigger] runs@[k]).1 by {
                    if k < before.len() {
                        assert(runs@[k] == before[k]);
                        let j = choose|j: int| 0 <= j < i && ids@[j] == before[k].1;
                        assert(0 <= j < i + 1 && ids@[j] == runs@[k].1);
                    } else {
                        let j = choose|j: int| 0 <= j < i && ids@[j] == last;
                        assert(0 <= j < i + 1 && ids@[j] == runs@[k].1);
                    }
                }
            }
            first = x;
            last = x;
        }
        assert(ids@[i as int] == last);
        i = i + 1;
    }
    let ghost before = runs@;
    runs.push((first, last));
    proof {
        assert(runs@.drop_last() =~= before);
        assert(ids@.subrange(0, n as int) =~= ids@);
        assert forall|limit: u64|
            (forall|i: int| 0 <= i < ids@.len() ==> #[trigger] ids@[i] < limit) implies valid_runs(
            runs@,
            limit,
        ) by {
            assert forall|k: int| 0 <= k < runs@.len() implies (#[trigger] runs@[k]).0
                <= runs@[k].1 < limit by {
                if k < before.len() {
                    assert(runs@[k] == before[k]);
                    let j = choose|j: int| 0 <= j < n && ids@[j] == before[k].1;
                    assert(ids@[j] < limit);
                } else {
                    let j = choose|j: int| 0 <= j < n && ids@[j] == last;
                    assert(ids@[j] < limit);
                }
            }
        }
        assert(longest_runs(runs@));
        assert(ids_of(runs@) == ids@);
        lemma_longest_runs_unique(runs@, runs_for(ids@));
    }
    runs
}

/// Writes out the numbers that a list of runs holds, if the runs are valid below `limit`.
pub fn expand(runs: &Vec<(u64, u64)>, limit: u64) -> (r: Option<Vec<u64>>)
    ensures
        match r {
            Some(ids) => valid_runs(runs@, limit) && ids@ == ids_of(runs@) && increasing(ids@)
                && forall|i: int| 0 <= i < ids@.len() ==> #[trigger] ids@[i] < limit,
            None => !valid_runs(runs@, limit),
        },
{
    let mut ids: Vec<u64> = Vec::new();
    let mut k: usize = 0;
    assert(runs@.subrange(0, 0) =~= Seq::<(u64, u64)>::empty());
    while k < runs.len()
        invariant
            k <= runs.len(),
            valid_runs(runs@.subrange(0, k as int), limit),
            ids@ == ids_of(runs@.subrange(0, k as int)),
        decreases runs.len() - k,
    {
        let (first, last) = runs[k];
        let ghost done = runs@.subrange(0, k as int);
        let ghost next = runs@.subrange(0, k + 1);
        if first > last || last >= limit {
            assert(!(runs@[k as int].0 <= runs@[k as int].1 < limit));
            return None;
        }
        if k > 0 {
            let (_, before) = runs[k - 1];
            if before >= first {
                assert(!(runs@[k - 1].1 < runs@[k as int].0));
                return None;
            }
        }
        proof {
            assert(next.drop_last() =~= done);
            assert(next.last() == runs@[k as int]);
            assert forall|i: int, j: int| 0 <= i < j < next.len() implies (#[trigger] next[i]).1 < (
            #[trigger] next[j]).0 by {
                if j < k {
                    assert(next[i] == done[i] && next[j] == done[j]);
                } else if i == k - 1 {
                } else {
                    assert(next[i] == done[i] && done[k - 1] == next[k - 1]);
                    assert(done[i].1 < done[k - 1].0);
                    assert(done[k - 1].0 <= done[k - 1].1);
                }
            }
            assert forall|i: int| 0 <= i < next.len() implies (#[trigger] next[i]).0 <= next[i].1
                < limit by {
                if i < k {
                    assert(next[i] == done[i]);
                }
            }
        }
        let ghost base = ids@;
        let mut x = first;
        while x < last
            invariant
                first <= x <= last,
                ids@ == base + stretch(first as int, (x - first) as nat),
            decreases last - x,
        {
            ids.push(x);
            assert(ids@ =~= base + stretch(first as int, (x + 1 - first) as nat));
            x = x + 1;
        }
        ids.push(last);
        assert(ids@ =~= base + span((first, last)));
        k = k + 1;
    }
    proof {
        assert(runs@.subrange(0, runs@.len() as int) =~= runs@);
        lemma_ids_of_valid_runs(runs@, limit);
    }
    Some(ids)
}

/// Tells whether the runs are valid below `limit`.
pub fn check_runs(runs: &Vec<(u64, u64)>, limit: u64) -> (b: bool)
    ensures
        b == valid_runs(runs@, limit),
{
    let mut k: usize = 0;
    while k < runs.len()
        invariant
            k <= runs.len(),
            forall|i: int| 0 <= i < k ==> (#[trigger] runs@[i]).0 <= runs@[i].1 < limit,
            forall|i: int, j: int|
                0 <= i < j < k ==> (#[trigger] runs@[i]).1 < (#[trigger] runs@[j]).0,
        decreases runs.len() - k,
    {
        let (first, last) = runs[k];
        if first > last || last >= limit {
            assert(!(runs@[k as int].0 <= runs@[k as int].1 < limit));
            return false;
        }
        if k > 0 {
            let (_, before) = runs[k - 1];
            if before >= first {
                assert(!(runs@[k - 1].1 < runs@[k as int].0));
                return false;
            }
        }
        proof {
            assert forall|i: int, j: int| 0 <= i < j < k + 1 implies (#[trigger] runs@[i]).1 < (
            #[trigger] runs@[j]).0 by {
                if j == k && i < k - 1 {
                    assert(runs@[i].1 < runs@[k - 1].0);
                    assert(runs@[k - 1].0 <= runs@[k - 1].1);
                }
            }
        }
        k = k + 1;
    }
    true
}

/// Writes a list of runs, sixteen bytes for each.
pub fn write_runs(runs: &Vec<(u64, u64)>) -> (out: Vec<u8>)
    ensures
        out@ == runs_bytes(runs@),
{
    let mut out: Vec<u8> = Vec::new();
    let mut i: usize = 0;
    assert(runs@.subrange(0, 0) =~= Seq::<(u64, u64)>::empty());
    while i < runs.len()
        invariant
            i <= runs.len(),
            out@ == runs_bytes(runs@.subrange(0, i as int)),
        decreases runs.len() - i,
    {
        assert(runs@.subrange(0, i + 1).drop_last() =~= runs@.subrange(0, i as int));
        let (first, last) = runs[i];
        push_u64(&mut out, first);
        push_u64(&mut out, last);
        i = i + 1;
    }
    assert(runs@.subrange(0, runs@.len() as int) =~= runs@);
    out
}

/// Reads a list of runs from bytes that come in groups of sixteen. Bytes that do not are
/// refused.
pub fn read_runs(bytes: &[u8]) -> (r: Option<Vec<(u64, u64)>>)
    ensures
        match r {
            Some(runs) => bytes@.len() % 16 == 0 && runs@ == runs_of_bytes(bytes@) && runs_bytes(
                runs@,
            ) == bytes@,
            None => bytes@.len() % 16 != 0,
        },
{
    if bytes.len() % 16 != 0 {
        return None;
    }
    let n = bytes.len() / 16;
    let mut runs: Vec<(u64, u64)> = Vec::new();
    let mut i: usize = 0;
    while i < n
        invariant
            i <= n,
            n * 16 == bytes@.len(),
            n * 16 <= usize::MAX,
            runs@ == runs_upto(bytes@, i as int),
            runs_bytes(runs@) == bytes@.subrange(0, 16 * i),
        decreases n - i,
    {
        let first = read_u64(bytes, 16 * i);
        let last = read_u64(bytes, 16 * i + 8);
        proof {
            let f = bytes@.subrange(16 * i, 16 * i + 8);
            let l = bytes@.subrange(16 * i + 8, 16 * i + 16);
            lemma_bytes_round_trip(f);
            lemma_bytes_round_trip(l);
            assert(runs@.push((first, last)).drop_last() =~= runs@);
            assert(bytes@.subrange(0, 16 * i) + f + l =~= bytes@.subrange(0, 16 * (i + 1)));
        }
        runs.push((first, last));
        i = i + 1;
    }
    assert(bytes@.subrange(0, 16 * n) =~= bytes@);
    Some(runs)
}

/// Reading the first `n` runs looks at the first `n` groups of bytes only.
pub proof fn lemma_runs_upto_prefix(b: Seq<u8>, c: Seq<u8>, n: int)
    requires
        0 <= n,
        16 * n <= b.len(),
        16 * n <= c.len(),
        b.subrange(0, 16 * n) == c.subrange(0, 16 * n),
    ensures
        runs_upto(b, n) == runs_upto(c, n),
    decreases n,
{
    if n > 0 {
        let m = n - 1;
        assert(b.subrange(0, 16 * m) =~= b.subrange(0, 16 * n).subrange(0, 16 * m));
        assert(c.subrange(0, 16 * m) =~= c.subrange(0, 16 * n).subrange(0, 16 * m));
        lemma_runs_upto_prefix(b, c, m);
        assert(b.subrange(16 * m, 16 * m + 8) =~= b.subrange(0, 16 * n).subrange(
            16 * m,
            16 * m + 8,
        ));
        assert(c.subrange(16 * m, 16 * m + 8) =~= c.subrange(0, 16 * n).subrange(
            16 * m,
            16 * m + 8,
        ));
        assert(b.subrange(16 * m + 8, 16 * n) =~= b.subrange(0, 16 * n).subrange(
            16 * m + 8,
            16 * n,
        ));
        assert(c.subrange(16 * m + 8, 16 * n) =~= c.subrange(0, 16 * n).subrange(
            16 * m + 8,
            16 * n,
        ));
    }
}

/// A list of runs comes back unchanged from its bytes.
pub proof fn lemma_runs_round_trip(runs: Seq<(u64, u64)>)
    ensures
        runs_bytes(runs).len() == 16 * runs.len(),
        runs_of_bytes(runs_bytes(runs)) == runs,
    decreases runs.len(),
{
    if runs.len() > 0 {
        let n = runs.len() as int;
        let shorter = runs.drop_last();
        lemma_runs_round_trip(shorter);
        lemma_u64_round_trip(runs.last().0);
        lemma_u64_round_trip(runs.last().1);
        let b = runs_bytes(runs);
        let c = runs_bytes(shorter);
        assert(b.subrange(0, 16 * (n - 1)) =~= c.subrange(0, 16 * (n - 1)));
        lemma_runs_upto_prefix(b, c, n - 1);
        assert(b.subrange(16 * (n - 1), 16 * (n - 1) + 8) =~= u64_bytes(runs.last().0));
        assert(b.subrange(16 * (n - 1) + 8, 16 * n) =~= u64_bytes(runs.last().1));
        assert(runs_upto(b, n) =~= runs);
    } else {
        assert(runs_of_bytes(runs_bytes(runs)) =~= runs);
    }
}

/// A set of numbers below a limit comes back unchanged from the bytes of its runs.
pub proof fn lemma_compression_round_trip(ids: Seq<u64>, runs: Seq<(u64, u64)>, limit: u64)
    requires
        valid_runs(runs, limit),
        ids_of(runs) == ids,
    ensures
        valid_runs(runs_of_bytes(runs_bytes(runs)), limit),
        ids_of(runs_of_bytes(runs_bytes(runs))) == ids,
{
    lemma_runs_round_trip(runs);
}

} // verus!
