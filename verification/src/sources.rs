//! The collector's sources: the pooled exclusion words, a source's
//! configuration, and which collection tasks a resync stops and starts.
use vstd::prelude::*;

use crate::noise::count_words;
use crate::text::string_views;

verus! {

/// The exclusion words of every row, row by row, where a row has any.
pub open spec fn keywords_of(rows: Seq<Option<Vec<String>>>) -> Seq<Seq<char>>
    decreases rows.len(),
{
    if rows.len() == 0 {
        Seq::empty()
    } else {
        keywords_of(rows.drop_last()) + match rows.last() {
            Some(k) => string_views(k@),
            None => Seq::empty(),
        }
    }
}

/// All exclusion words of all rows, in one list.
pub fn flatten_keywords(rows: &Vec<Option<Vec<String>>>) -> (r: Vec<String>)
    ensures
        string_views(r@) == keywords_of(rows@),
{
    let mut out: Vec<String> = Vec::new();
    let mut i: usize = 0;
    assert(rows@.take(0) =~= Seq::<Option<Vec<String>>>::empty());
    assert(string_views(out@) =~= Seq::<Seq<char>>::empty());
    while i < rows.len()
        invariant
            i <= rows.len(),
            string_views(out@) == keywords_of(rows@.take(i as int)),
        decreases rows.len() - i,
    {
        assert(rows@.take(i + 1).drop_last() =~= rows@.take(i as int));
        assert(rows@.take(i + 1).last() == rows@[i as int]);
        match &rows[i] {
            Some(kws) => {
                let ghost before = string_views(out@);
                let mut j: usize = 0;
                assert(before =~= before + string_views(kws@).take(0));
                while j < kws.len()
                    invariant
                        j <= kws.len(),
                        string_views(out@) == before + string_views(kws@).take(j as int),
                    decreases kws.len() - j,
                {
                    let ghost prev = string_views(out@);
                    out.push(kws[j].clone());
                    assert(string_views(out@) =~= prev.push(kws@[j as int]@));
                    assert(string_views(kws@).take(j + 1) =~= string_views(kws@).take(j as int).push(
                        kws@[j as int]@,
                    ));
                    j = j + 1;
                }
                assert(string_views(kws@).take(kws.len() as int) =~= string_views(kws@));
            },
            None => {
                assert(keywords_of(rows@.take(i + 1)) =~= keywords_of(rows@.take(i as int)));
            },
        }
        i = i + 1;
    }
    assert(rows@.take(rows.len() as int) =~= rows@);
    out
}

/// The exclusion words of the enabled sources, pooled: each word once, and
/// exactly the words that some row lists.
pub fn merge_exclude_words(rows: &Vec<Option<Vec<String>>>) -> (r: Vec<String>)
    ensures
        string_views(r@).no_duplicates(),
        forall|w: Seq<char>| string_views(r@).contains(w) <==> keywords_of(rows@).contains(w),
{
    let all = flatten_keywords(rows);
    let (words, _counts) = count_words(&all);
    proof {
        assert forall|w: Seq<char>| string_views(words@).contains(w) implies keywords_of(
            rows@,
        ).contains(w) by {
            let k = choose|k: int| 0 <= k < words.len() && string_views(words@)[k] == w;
            assert(string_views(all@).contains(words@[k]@));
        }
    }
    words
}

/// The refresh interval in seconds that a source row asks for: 300 where the
/// row has none, and the stored `i32` reinterpreted as `u64` otherwise (a
/// negative value wraps, as `as u64` does).
pub open spec fn spec_refresh_secs(stored: Option<i32>) -> u64 {
    match stored {
        Some(v) => v as u64,
        None => 300u64,
    }
}

/// An enabled source as a collection task reads it.
#[derive(Clone, Debug)]
pub struct SourceConfig {
    pub id: i32,
    pub name: String,
    pub url: String,
    pub refresh_interval_sec: u64,
}

impl SourceConfig {
    /// The configuration of a source row.
    pub fn from_row(id: i32, name: String, url: String, refresh: Option<i32>) -> (r: SourceConfig)
        ensures
            r.id == id,
            r.name == name,
            r.url == url,
            r.refresh_interval_sec == spec_refresh_secs(refresh),
    {
        let secs: u64 = match refresh {
            Some(v) => v as u64,
            None => 300,
        };
        SourceConfig { id, name, url, refresh_interval_sec: secs }
    }
}

/// Which running collection tasks a resync stops and which sources it starts.
#[derive(Clone, Debug)]
pub struct SyncPlan {
    /// The ids of running tasks to abort.
    pub stop: Vec<i32>,
    /// The positions, in the new source list, of the sources to start.
    pub start: Vec<usize>,
}

/// Source `i` of the new list gets a task: its id has none running and no
/// earlier source of the list has the same id.
pub open spec fn starts_source(running: Seq<i32>, new_ids: Seq<i32>, i: int) -> bool {
    &&& 0 <= i < new_ids.len()
    &&& !running.contains(new_ids[i])
    &&& forall|j: int| 0 <= j < i ==> new_ids[j] != #[trigger] new_ids[i]
}

/// Holds of the ids that the new source list lacks.
pub open spec fn not_listed(new_ids: Seq<i32>) -> spec_fn(i32) -> bool {
    |id: i32| !new_ids.contains(id)
}

/// `stop` are the running ids that the new list lacks, in running order, and
/// `start` the positions of the sources that get a task, in list order.
pub open spec fn is_sync_plan(
    running: Seq<i32>,
    new_ids: Seq<i32>,
    stop: Seq<i32>,
    start: Seq<usize>,
) -> bool {
    &&& stop == running.filter(not_listed(new_ids))
    &&& forall|a: int, b: int| 0 <= a < b < start.len() ==> start[a] < start[b]
    &&& forall|a: int| 0 <= a < start.len() ==> starts_source(running, new_ids, #[trigger] start[a] as int)
    &&& forall|i: int| starts_source(running, new_ids, i) ==> #[trigger] start.contains(i as usize)
}

/// Whether `x` occurs in `v`.
pub fn contains_id(v: &Vec<i32>, x: i32) -> (r: bool)
    ensures
        r == v@.contains(x),
{
    let mut i: usize = 0;
    while i < v.len()
        invariant
            i <= v.len(),
            forall|j: int| 0 <= j < i ==> v@[j] != x,
        decreases v.len() - i,
    {
        if v[i] == x {
            return true;
        }
        i = i + 1;
    }
    false
}

/// The tasks to stop and the sources to start so that, after a resync, the
/// running tasks are exactly those of the new source list.
pub fn plan_sync(running: &Vec<i32>, new_ids: &Vec<i32>) -> (r: SyncPlan)
    ensures
        is_sync_plan(running@, new_ids@, r.stop@, r.start@),
{
    let ghost pred = not_listed(new_ids@);
    let mut stop: Vec<i32> = Vec::new();
    let mut i: usize = 0;
    assert(running@.take(0) =~= Seq::<i32>::empty());
    while i < running.len()
        invariant
            i <= running.len(),
            pred == not_listed(new_ids@),
            stop@ == running@.take(i as int).filter(pred),
        decreases running.len() - i,
    {
        let id = running[i];
        proof {
            assert(running@.take(i + 1) =~= running@.take(i as int).push(id));
            running@.take(i as int).lemma_filter_push(id, pred);
        }
        if !contains_id(new_ids, id) {
            stop.push(id);
        }
        i = i + 1;
    }
    assert(running@.take(running.len() as int) =~= running@);
    let mut start: Vec<usize> = Vec::new();
    let mut k: usize = 0;
    while k < new_ids.len()
        invariant
            k <= new_ids.len(),
            forall|a: int, b: int| 0 <= a < b < start.len() ==> start@[a] < start@[b],
            forall|a: int| 0 <= a < start.len() ==> #[trigger] start@[a] < k,
            forall|a: int|
                0 <= a < start.len() ==> starts_source(running@, new_ids@, #[trigger] start@[a] as int),
            forall|j: int|
                0 <= j < k && starts_source(running@, new_ids@, j) ==> #[trigger] start@.contains(
                    j as usize,
                ),
        decreases new_ids.len() - k,
    {
        let id = new_ids[k];
        let mut seen = false;
        let mut j: usize = 0;
        while j < k
            invariant
                j <= k,
                k < new_ids.len(),
                id == new_ids@[k as int],
                !seen ==> forall|m: int| 0 <= m < j ==> new_ids@[m] != id,
                seen ==> exists|m: int| 0 <= m < k && new_ids@[m] == id,
            decreases k - j,
        {
            if new_ids[j] == id {
                seen = true;
            }
            j = j + 1;
        }
        let is_running = contains_id(running, id);
        let ghost old_start = start@;
        if !seen && !is_running {
            start.push(k);
            proof {
                assert(starts_source(running@, new_ids@, k as int));
                assert forall|a: int| 0 <= a < start.len() implies starts_source(
                    running@,
                    new_ids@,
                    #[trigger] start@[a] as int,
                ) by {
                    if a < old_start.len() {
                        assert(start@[a] == old_start[a]);
                    }
                }
            }
        }
        proof {
            assert forall|m: int|
                0 <= m < k + 1 && starts_source(running@, new_ids@, m) implies #[trigger] start@.contains(
                m as usize,
            ) by {
                if m < k {
                    assert(old_start.contains(m as usize));
                    let p = choose|p: int| 0 <= p < old_start.len() && old_start[p] == m as usize;
                    assert(start@[p] == m as usize);
                } else {
                    assert(!seen && !is_running);
                    assert(start@[start.len() - 1] == m as usize);
                }
            }
            assert forall|a: int| 0 <= a < start.len() implies #[trigger] start@[a] < k + 1 by {}
        }
        k = k + 1;
    }
    SyncPlan { stop, start }
}

/// The ids of the started sources, in start order.
pub open spec fn started_ids(new_ids: Seq<i32>, start: Seq<usize>) -> Seq<i32> {
    Seq::new(start.len(), |a: int| new_ids[start[a] as int])
}

/// The ids with a running task after a resync: those that kept running and
/// those that were started.
pub open spec fn ids_after_sync(
    running: Seq<i32>,
    new_ids: Seq<i32>,
    stop: Seq<i32>,
    start: Seq<usize>,
) -> Set<i32> {
    running.to_set().difference(stop.to_set()).union(started_ids(new_ids, start).to_set())
}

/// After a resync, exactly the sources of the new list have a running task;
/// no task is started for a source that kept its task, and no source gets two.
pub proof fn lemma_sync_reaches_sources(
    running: Seq<i32>,
    new_ids: Seq<i32>,
    stop: Seq<i32>,
    start: Seq<usize>,
)
    requires
        new_ids.len() <= usize::MAX,
        is_sync_plan(running, new_ids, stop, start),
    ensures
        ids_after_sync(running, new_ids, stop, start) == new_ids.to_set(),
        forall|a: int|
            0 <= a < start.len() ==> !running.to_set().difference(stop.to_set()).contains(
                new_ids[#[trigger] start[a] as int],
            ),
        forall|a: int, b: int|
            0 <= a < b < start.len() ==> new_ids[#[trigger] start[a] as int] != new_ids[
                #[trigger] start[b] as int
            ],
{
    let pred = not_listed(new_ids);
    let started = started_ids(new_ids, start);
    assert forall|x: i32| stop.contains(x) <==> running.contains(x) && !new_ids.contains(x) by {
        if stop.contains(x) {
            let p = choose|p: int| 0 <= p < stop.len() && stop[p] == x;
            running.lemma_filter_pred(pred, p);
            running.lemma_filter_contains_rev(pred, x);
        }
        if running.contains(x) && !new_ids.contains(x) {
            let i = choose|i: int| 0 <= i < running.len() && running[i] == x;
            running.lemma_filter_contains(pred, i);
        }
    }
    assert forall|x: i32| ids_after_sync(running, new_ids, stop, start).contains(x)
        <==> new_ids.to_set().contains(x) by {
        if new_ids.contains(x) {
            if !running.contains(x) {
                let i0 = choose|i: int| 0 <= i < new_ids.len() && new_ids[i] == x;
                let first = first_index_of(new_ids, x, i0);
                assert(starts_source(running, new_ids, first));
                assert(start.contains(first as usize));
                let p = choose|p: int| 0 <= p < start.len() && start[p] == first as usize;
                assert(started[p] == x);
            }
        }
        if started.contains(x) {
            let p = choose|p: int| 0 <= p < started.len() && started[p] == x;
            assert(starts_source(running, new_ids, start[p] as int));
        }
    }
    assert(ids_after_sync(running, new_ids, stop, start) =~= new_ids.to_set());
    assert forall|a: int, b: int| 0 <= a < b < start.len() implies new_ids[
        #[trigger] start[a] as int
    ] != new_ids[#[trigger] start[b] as int] by {
        assert(starts_source(running, new_ids, start[b] as int));
        assert(start[a] < start[b]);
    }
}

/// The first position at or before `i` that holds the same id as position `i`.
proof fn first_index_of(s: Seq<i32>, x: i32, i: int) -> (f: int)
    requires
        0 <= i < s.len(),
        s[i] == x,
    ensures
        0 <= f <= i,
        s[f] == x,
        forall|j: int| 0 <= j < f ==> s[j] != x,
    decreases i,
{
    if exists|j: int| 0 <= j < i && s[j] == x {
        let j = choose|j: int| 0 <= j < i && s[j] == x;
        first_index_of(s, x, j)
    } else {
        i
    }
}

} // verus!
