//! Laws of the table of jobs: what is found after jobs were entered, stopped and forgotten.

use vstd::prelude::*;

use crate::jobs::{
    kept, remembered, run_step, stop_message, with_prefix, JobEntries, JobStatus, JobTable, RunAction,
};
use crate::text_map::TextMap;

verus! {

proof fn lemma_prefix_filter(entries: JobEntries, prefix: Seq<char>)
    ensures
        with_prefix(entries, prefix) == entries.filter(
            |e: (Seq<char>, JobStatus)| prefix.is_prefix_of(e.0),
        ),
    decreases entries.len(),
{
    reveal(Seq::filter);
    if entries.len() > 0 {
        let last = entries.last().0;
        lemma_prefix_filter(entries.drop_last(), prefix);
        assert(crate::text::begins_with(last, prefix) <==> prefix.is_prefix_of(last)) by {
            if prefix.len() <= last.len() {
                assert(last.take(prefix.len() as int) =~= last.subrange(0, prefix.len() as int));
            }
        }
    }
}

proof fn lemma_remembered_filter(entries: JobEntries)
    ensures
        remembered(entries) == entries.filter(
            |e: (Seq<char>, JobStatus)|
                e.1 == JobStatus::Starting || e.1 == JobStatus::InProgress || e.1 is Error,
        ),
    decreases entries.len(),
{
    reveal(Seq::filter);
    if entries.len() > 0 {
        lemma_remembered_filter(entries.drop_last());
    }
}

/// What a user is told who stops a job.
pub open spec fn told(before: JobStatus) -> Seq<char> {
    match before {
        JobStatus::Starting => "Job stopped"@,
        JobStatus::InProgress => "Job stopped"@,
        JobStatus::Stopped => "Job already stopped"@,
        JobStatus::Completed => "Job already completed"@,
        JobStatus::Failed => "Job failed"@,
        JobStatus::Error(_) => "Invalid job status"@,
    }
}

/// What a user is told of a job, and of one that is not there.
pub proof fn lemma_told(status: Option<JobStatus>, r: &'static str)
    requires
        call_ensures(stop_message, (status,), r),
    ensures
        status matches Some(s) ==> r@ == told(s),
        status is None ==> r@ == "Job Not Found"@,
{
}

/// Stopping jobs by the beginning of their names: exactly those whose names begin so are stopped
/// afterwards, the others are as they were, and of each that was stopped the user is told what it
/// did before.
pub proof fn lemma_stopped(table: &mut JobTable, prefix: &str, r: TextMap<String>)
    requires
        old(table).wf(),
        call_ensures(JobTable::stop, (table, prefix), r),
    ensures
        ({
            let before = old(table).entries();
            let after = final(table).entries();
            let hit = before.filter(|e: (Seq<char>, JobStatus)| prefix@.is_prefix_of(e.0));
            &&& after.len() == before.len()
            &&& forall|i: int|
                0 <= i < before.len() && prefix@.is_prefix_of(before[i].0) ==> #[trigger] after[i]
                    == (before[i].0, JobStatus::Stopped)
            &&& forall|i: int|
                0 <= i < before.len() && !prefix@.is_prefix_of(before[i].0) ==> #[trigger] after[i]
                    == before[i]
            &&& r.entries().len() == hit.len()
            &&& forall|k: int|
                0 <= k < hit.len() ==> (#[trigger] r.entries()[k]).0 == hit[k].0
                    && r.entries()[k].1@ == told(hit[k].1)
        }),
{
    let before = old(table).entries();
    lemma_prefix_filter(before, prefix@);
    assert forall|i: int| 0 <= i < before.len() implies (crate::text::begins_with(
        (#[trigger] before[i]).0,
        prefix@,
    ) <==> prefix@.is_prefix_of(before[i].0)) by {
        let id = before[i].0;
        if prefix@.len() <= id.len() {
            assert(id.take(prefix@.len() as int) =~= id.subrange(0, prefix@.len() as int));
        }
    }
}

/// The same of stopping jobs for another node, which is told their status.
pub proof fn lemma_stopped_by_id(
    table: &mut JobTable,
    prefix: &str,
    r: Vec<(String, Option<JobStatus>)>,
)
    requires
        old(table).wf(),
        call_ensures(JobTable::stop_request_by_job_id, (table, prefix), r),
    ensures
        ({
            let before = old(table).entries();
            let after = final(table).entries();
            let hit = before.filter(|e: (Seq<char>, JobStatus)| prefix@.is_prefix_of(e.0));
            &&& after.len() == before.len()
            &&& forall|i: int|
                0 <= i < before.len() && prefix@.is_prefix_of(before[i].0) ==> #[trigger] after[i]
                    == (before[i].0, JobStatus::Stopped)
            &&& forall|i: int|
                0 <= i < before.len() && !prefix@.is_prefix_of(before[i].0) ==> #[trigger] after[i]
                    == before[i]
            &&& r@.len() == hit.len()
            &&& forall|k: int|
                0 <= k < hit.len() ==> (#[trigger] r@[k]).0@ == hit[k].0 && r@[k].1 == Some(
                    hit[k].1,
                )
        }),
{
    let before = old(table).entries();
    lemma_prefix_filter(before, prefix@);
    assert forall|i: int| 0 <= i < before.len() implies (crate::text::begins_with(
        (#[trigger] before[i]).0,
        prefix@,
    ) <==> prefix@.is_prefix_of(before[i].0)) by {
        let id = before[i].0;
        if prefix@.len() <= id.len() {
            assert(id.take(prefix@.len() as int) =~= id.subrange(0, prefix@.len() as int));
        }
    }
}

/// Asked by name, the table gives exactly the jobs whose names begin with it, in order.
pub proof fn lemma_status_by_name(
    table: JobTable,
    name: &str,
    offset: usize,
    limit: usize,
    r: TextMap<JobStatus>,
    s: TextMap<JobStatus>,
)
    requires
        table.wf(),
        call_ensures(JobTable::get_job_status, (&table, Some(name), offset, limit), r),
        call_ensures(JobTable::get_status_by_job_id, (&table, name), s),
    ensures
        r.entries() == table.entries().filter(
            |e: (Seq<char>, JobStatus)| name@.is_prefix_of(e.0),
        ),
        s.entries() == r.entries(),
{
    lemma_prefix_filter(table.entries(), name@);
}

/// Without a name the table gives pages: no more than asked for, and one page after another is one
/// larger page; the page that starts with the first job and is large enough holds all jobs.
pub proof fn lemma_pages(
    table: JobTable,
    offset: usize,
    a: usize,
    b: usize,
    x: TextMap<JobStatus>,
    y: TextMap<JobStatus>,
    both: TextMap<JobStatus>,
    all: TextMap<JobStatus>,
)
    requires
        table.wf(),
        offset + a <= usize::MAX,
        a + b <= usize::MAX,
        call_ensures(JobTable::get_job_status, (&table, None, offset, a), x),
        call_ensures(JobTable::get_job_status, (&table, None, (offset + a) as usize, b), y),
        call_ensures(JobTable::get_job_status, (&table, None, offset, (a + b) as usize), both),
        call_ensures(JobTable::get_status_all, (&table,), all),
    ensures
        x.entries().len() <= a,
        both.entries() == x.entries() + y.entries(),
        all.entries() == table.entries(),
        offset == 0 && a >= all.entries().len() ==> x.entries() == all.entries(),
        offset <= all.entries().len() && x.entries().len() < a ==> offset + x.entries().len()
            == all.entries().len(),
        offset < all.entries().len() && a > 0 ==> x.entries().len() > 0 && x.entries()[0]
            == all.entries()[offset as int],
{
    assert(both.entries() =~= x.entries() + y.entries());
    if offset == 0 && a >= all.entries().len() {
        assert(x.entries() =~= all.entries());
    }
}

/// A job that was entered is found with its status, and all others as they were.
pub proof fn lemma_entered(
    table: &mut JobTable,
    id: String,
    status: JobStatus,
    name: &str,
    before: Option<JobStatus>,
    after: Option<JobStatus>,
)
    requires
        old(table).wf(),
        call_ensures(JobTable::get, (&*old(table), name), before),
        call_ensures(JobTable::insert, (table, id, status), ()),
        call_ensures(JobTable::get, (&*final(table), name), after),
    ensures
        final(table).wf(),
        name@ == id@ ==> after == Some(status),
        name@ != id@ ==> after == before,
{
}

/// Only a job that is neither over nor went wrong gets another status; and no other job does.
pub proof fn lemma_status_set(
    table: &mut JobTable,
    id: &str,
    status: JobStatus,
    name: &str,
    before: Option<JobStatus>,
    after: Option<JobStatus>,
)
    requires
        old(table).wf(),
        call_ensures(JobTable::get, (&*old(table), name), before),
        call_ensures(JobTable::set_job_status, (table, id, status), ()),
        call_ensures(JobTable::get, (&*final(table), name), after),
    ensures
        name@ != id@ ==> after == before,
        name@ == id@ && (before == Some(JobStatus::Starting) || before == Some(
            JobStatus::InProgress,
        )) ==> after == Some(status),
        name@ == id@ && before != Some(JobStatus::Starting) && before != Some(
            JobStatus::InProgress,
        ) ==> after == before,
{
}

/// A job is to stop where it was stopped or went wrong.
pub proof fn lemma_to_stop(table: JobTable, id: &str, status: Option<JobStatus>, r: bool)
    requires
        table.wf(),
        call_ensures(JobTable::get, (&table, id), status),
        call_ensures(JobTable::should_stop, (&table, id), r),
    ensures
        r <==> (status matches Some(s) && (s is Stopped || s is Error)),
{
}

proof fn lemma_kept_filter(
    entries: JobEntries,
    gone: Seq<bool>,
    picks: spec_fn(JobStatus) -> bool,
)
    requires
        gone.len() >= entries.len(),
        forall|i: int| 0 <= i < entries.len() ==> #[trigger] gone[i] == picks(entries[i].1),
    ensures
        kept(entries, gone) == entries.filter(|e: (Seq<char>, JobStatus)| !picks(e.1)),
    decreases entries.len(),
{
    reveal(Seq::filter);
    if entries.len() > 0 {
        let front = entries.drop_last();
        assert forall|i: int| 0 <= i < front.len() implies #[trigger] gone[i] == picks(
            front[i].1,
        ) by {
            assert(front[i] == entries[i]);
        }
        lemma_kept_filter(front, gone, picks);
        assert(gone[entries.len() - 1] == picks(entries.last().1));
    }
}

/// The jobs whose status a predicate picks are forgotten, and the others stay, in order.
pub proof fn lemma_cleaned<P: Fn(&JobStatus) -> bool>(
    table: &mut JobTable,
    predicate: P,
    picks: spec_fn(JobStatus) -> bool,
)
    requires
        old(table).wf(),
        forall|s: JobStatus, b: bool| #[trigger]
            call_ensures(predicate, (&s,), b) ==> b == picks(s),
        call_ensures(JobTable::cleanup_job::<P>, (table, predicate), ()),
    ensures
        final(table).entries() == old(table).entries().filter(
            |e: (Seq<char>, JobStatus)| !picks(e.1),
        ),
{
    let before = old(table).entries();
    let gone = choose|gone: Seq<bool>|
        {
            &&& gone.len() == before.len()
            &&& forall|i: int|
                0 <= i < gone.len() ==> call_ensures(
                    predicate,
                    (&before[i].1,),
                    #[trigger] gone[i],
                )
            &&& final(table).entries() == #[trigger] kept(before, gone)
        };
    lemma_kept_filter(before, gone, picks);
}

/// Forgetting: jobs that start, are in progress or went wrong stay, in order, and no others.
pub proof fn lemma_forgotten(table: &mut JobTable)
    requires
        old(table).wf(),
        call_ensures(JobTable::forget_finished, (table,), ()),
    ensures
        final(table).entries() == old(table).entries().filter(
            |e: (Seq<char>, JobStatus)|
                e.1 == JobStatus::Starting || e.1 == JobStatus::InProgress || e.1 is Error,
        ),
{
    lemma_remembered_filter(old(table).entries());
}

/// A fresh table holds no job.
pub proof fn lemma_no_jobs(table: JobTable, id: &str, r: Option<JobStatus>, all: TextMap<JobStatus>)
    requires
        call_ensures(JobTable::new, (), table),
        call_ensures(JobTable::get, (&table, id), r),
        call_ensures(JobTable::get_status_all, (&table,), all),
    ensures
        r is None,
        all.entries().len() == 0,
{
}

/// A run starts, is in progress once it was prepared, and is completed then; one that could not be
/// prepared has failed, and nothing is sent.
pub proof fn lemma_run(
    prepared: Result<(), String>,
    any: Result<(), String>,
    a: (JobStatus, RunAction),
    b: (JobStatus, RunAction),
    c: (JobStatus, RunAction),
)
    requires
        call_ensures(run_step, (None, any), a),
        call_ensures(run_step, (Some(a.0), prepared), b),
        call_ensures(run_step, (Some(b.0), any), c),
    ensures
        a == (JobStatus::Starting, RunAction::Prepare),
        prepared is Ok ==> b == (JobStatus::InProgress, RunAction::Send) && c == (
            JobStatus::Completed,
            RunAction::Leave,
        ),
        prepared is Err ==> b == (JobStatus::Failed, RunAction::Leave) && c == (
            JobStatus::Failed,
            RunAction::Leave,
        ),
{
}

/// What is put under a key of a map is found there, in place of what was there before; everything
/// else stays. What is taken out is what was found, and is not found any more.
pub proof fn lemma_text_map<T>(
    map: &mut TextMap<T>,
    key: String,
    value: T,
    less: &mut TextMap<T>,
    name: &str,
    gone: Option<T>,
    other: Seq<char>,
)
    requires
        old(map).wf(),
        call_ensures(TextMap::insert, (map, key, value), ()),
        old(less).wf(),
        call_ensures(TextMap::remove, (less, name), gone),
    ensures
        final(map).wf(),
        final(map).at(key@) == Some(value),
        other != key@ ==> final(map).at(other) == old(map).at(other),
        final(less).wf(),
        gone == old(less).at(name@),
        final(less).at(name@) is None,
        other != name@ ==> final(less).at(other) == old(less).at(other),
{
    crate::json::lemma_set_entry(old(map).entries(), key@, value);
    let before = old(less).entries();
    let after = final(less).entries();
    let i = crate::json::key_index(before, name@);
    crate::json::lemma_key_index(before, name@);
    crate::json::lemma_key_index(after, name@);
    crate::json::lemma_key_index(before, other);
    crate::json::lemma_key_index(after, other);
    if i >= 0 {
        let j = crate::json::key_index(after, name@);
        if j >= 0 {
            let k = if j < i {
                j
            } else {
                j + 1
            };
            assert(before[k] == after[j]);
            assert(before[k].0 == before[i].0);
        }
        if other != name@ {
            let x = crate::json::key_index(before, other);
            let y = crate::json::key_index(after, other);
            if x >= 0 {
                let z = if x < i {
                    x
                } else {
                    x - 1
                };
                assert(after[z] == before[x]);
                crate::json::lemma_unique_index(after, z);
            } else if y >= 0 {
                let z = if y < i {
                    y
                } else {
                    y + 1
                };
                assert(before[z] == after[y]);
            }
        }
    }
}

} // verus!
