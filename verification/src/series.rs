//! Grouping of query rows that arrive sorted by a key (device id for chart
//! series, metric for the overview grid) into one run per key.

use vstd::prelude::*;
use crate::text::views_of;

verus! {

/// A maximal block of consecutive rows, `start..end`, sharing `key`.
#[derive(Debug, Clone)]
pub struct Run {
    pub key: String,
    pub start: usize,
    pub end: usize,
}

/// The runs of a key sequence as `(key, start, end)`: each new key that
/// differs from the previous row's key opens a new run.
pub open spec fn runs_of(keys: Seq<Seq<char>>) -> Seq<(Seq<char>, int, int)>
    decreases keys.len(),
{
    if keys.len() == 0 {
        Seq::empty()
    } else {
        let prev = runs_of(keys.drop_last());
        let n = keys.len() as int;
        if prev.len() > 0 && prev.last().0 == keys.last() {
            prev.update(prev.len() - 1, (prev.last().0, prev.last().1, n))
        } else {
            prev.push((keys.last(), n - 1, n))
        }
    }
}

/// The mathematical form of a list of runs.
pub open spec fn runs_view(runs: Seq<Run>) -> Seq<(Seq<char>, int, int)> {
    runs.map_values(|r: Run| (r.key@, r.start as int, r.end as int))
}

/// Splits rows, given by their keys in order, into runs of equal
/// consecutive keys.
pub fn group_runs(keys: &[String]) -> (r: Vec<Run>)
    ensures
        runs_view(r@) == runs_of(views_of(keys@)),
{
    let mut out: Vec<Run> = Vec::new();
    let mut i: usize = 0;
    while i < keys.len()
        invariant
            i <= keys.len(),
            runs_view(out@) == runs_of(views_of(keys@.subrange(0, i as int))),
            forall|j: int| 0 <= j < out.len() ==> #[trigger] out@[j].end <= i,
        decreases keys.len() - i,
    {
        let ghost pre = views_of(keys@.subrange(0, i as int));
        let ghost post = views_of(keys@.subrange(0, i + 1));
        assert(post.drop_last() =~= pre);
        assert(post.last() == keys@[i as int]@);
        let n = out.len();
        let same = n > 0 && out[n - 1].key == keys[i];
        if same {
            let last = out.pop().unwrap();
            out.push(Run { key: last.key, start: last.start, end: i + 1 });
            assert(runs_view(out@) =~= runs_of(post));
        } else {
            out.push(Run { key: keys[i].clone(), start: i, end: i + 1 });
            assert(runs_view(out@) =~= runs_of(post));
        }
        i = i + 1;
    }
    assert(keys@.subrange(0, keys@.len() as int) =~= keys@);
    out
}

/// What grouping promises: the runs cover the rows in order without gaps
/// or overlaps, every row of a run has the run's key, and neighbouring runs
/// have different keys.
pub open spec fn is_run_partition(keys: Seq<Seq<char>>, runs: Seq<(Seq<char>, int, int)>) -> bool {
    &&& (keys.len() == 0 <==> runs.len() == 0)
    &&& runs.len() > 0 ==> runs[0].1 == 0 && runs.last().2 == keys.len()
    &&& forall|j: int| 0 <= j < runs.len() ==> 0 <= #[trigger] runs[j].1 < runs[j].2 <= keys.len()
    &&& forall|j: int| 0 <= j < runs.len() - 1 ==> #[trigger] runs[j].2 == runs[j + 1].1
    &&& forall|j: int, k: int|
        0 <= j < runs.len() && runs[j].1 <= k < runs[j].2 ==> #[trigger] keys[k] == #[trigger] runs[j].0
    &&& forall|j: int| 0 <= j < runs.len() - 1 ==> #[trigger] runs[j].0 != runs[j + 1].0
}

/// Grouping splits rows into one run per maximal block of equal keys.
pub proof fn lemma_runs_partition(keys: Seq<Seq<char>>)
    ensures
        is_run_partition(keys, runs_of(keys)),
    decreases keys.len(),
{
    if keys.len() > 0 {
        let ks = keys.drop_last();
        lemma_runs_partition(ks);
        let prev = runs_of(ks);
        let runs = runs_of(keys);
        let n = keys.len() as int;
        assert forall|j: int, k: int|
            0 <= j < runs.len() && runs[j].1 <= k < runs[j].2 implies #[trigger] keys[k]
            == #[trigger] runs[j].0 by {
            assert(0 <= runs[j].1);
            if k < n - 1 {
                assert(keys[k] == ks[k]);
                if j < prev.len() {
                    assert(prev[j].1 == runs[j].1);
                    assert(prev[j].0 == runs[j].0);
                    if k < prev[j].2 {
                        assert(ks[k] == prev[j].0);
                    } else {
                        assert(j == prev.len() - 1);
                        assert(prev[j].2 <= n - 1);
                    }
                } else {
                    assert(runs[j].1 == n - 1);
                }
            } else {
                assert(k == n - 1);
                if j < runs.len() - 1 {
                    assert(j < prev.len());
                    assert(runs[j] == prev[j]);
                    assert(prev[j].2 <= prev.last().2);
                }
            }
        }
    }
}

} // verus!
