//! The jobs of a node: what their status is, who stops them, and when they are forgotten.

use vstd::prelude::*;

use crate::json::{key_index, lemma_key_index, lemma_unique_index, lookup, unique_keys};
use crate::text::{begins_with, chars_of, same_text, starts_with};
use crate::text_map::{pairs_view, TextMap};

verus! {

/// What went wrong with a job.
#[derive(Clone, Copy, Debug, PartialEq, Eq, Structural)]
pub enum ErrorCode {
    InactiveCluster,
    NoSecondary,
    SqliteOpenFailed,
    PreparationFailed,
    SecondaryClusterNode,
    RequestFileNotFound,
    BodyGenerationFailure,
    UriParamGenerationFailure,
    LuaParseFailure,
    Others,
}

/// What becomes of a job.
#[derive(Clone, Copy, Debug, PartialEq, Eq, Structural)]
pub enum JobStatus {
    Starting,
    InProgress,
    Stopped,
    Completed,
    Failed,
    Error(ErrorCode),
}

/// What a node that leads a run does next.
#[derive(Clone, Copy, Debug, PartialEq, Eq, Structural)]
pub enum RunAction {
    /// Prepare the run.
    Prepare,
    /// Send what is planned, second by second.
    Send,
    /// Nothing more.
    Leave,
}

/// The next status of a run, and what to do then. `status` is the one that the run had last, none
/// before it begins; `prepared` is what came of preparing it. A run that was prepared is in progress
/// until what is planned is sent, and completed then; one that could not be prepared has failed.
pub fn run_step(status: Option<JobStatus>, prepared: Result<(), String>) -> (r: (
    JobStatus,
    RunAction,
))
    ensures
        match status {
            None => r == (JobStatus::Starting, RunAction::Prepare),
            Some(JobStatus::Starting) => r == (if prepared is Ok {
                (JobStatus::InProgress, RunAction::Send)
            } else {
                (JobStatus::Failed, RunAction::Leave)
            }),
            Some(JobStatus::InProgress) => r == (JobStatus::Completed, RunAction::Leave),
            Some(other) => r == (other, RunAction::Leave),
        },
{
    match status {
        None => (JobStatus::Starting, RunAction::Prepare),
        Some(JobStatus::Starting) => match prepared {
            Ok(_) => (JobStatus::InProgress, RunAction::Send),
            Err(_) => (JobStatus::Failed, RunAction::Leave),
        },
        Some(JobStatus::InProgress) => (JobStatus::Completed, RunAction::Leave),
        Some(other) => (other, RunAction::Leave),
    }
}

/// A job that will not run any more.
pub open spec fn is_finished(status: JobStatus) -> bool {
    status == JobStatus::Stopped || status == JobStatus::Failed || status == JobStatus::Completed
        || status is Error
}

/// A job that can be forgotten. Errors are kept.
pub open spec fn is_forgettable(status: JobStatus) -> bool {
    status == JobStatus::Failed || status == JobStatus::Stopped || status == JobStatus::Completed
}

/// What a user is told who stops a job of a status.
pub open spec fn stop_text(status: JobStatus) -> Seq<char> {
    match status {
        JobStatus::Starting => "Job stopped"@,
        JobStatus::InProgress => "Job stopped"@,
        JobStatus::Stopped => "Job already stopped"@,
        JobStatus::Completed => "Job already completed"@,
        JobStatus::Failed => "Job failed"@,
        JobStatus::Error(_) => "Invalid job status"@,
    }
}

/// What a user is told who stops a job: of its status before, or that there is none.
pub fn stop_message(status: Option<JobStatus>) -> (r: &'static str)
    ensures
        r@ == (match status {
            Some(s) => stop_text(s),
            None => "Job Not Found"@,
        }),
{
    match status {
        Some(JobStatus::Starting) => "Job stopped",
        Some(JobStatus::InProgress) => "Job stopped",
        Some(JobStatus::Stopped) => "Job already stopped",
        Some(JobStatus::Completed) => "Job already completed",
        Some(JobStatus::Failed) => "Job failed",
        Some(JobStatus::Error(_)) => "Invalid job status",
        None => "Job Not Found",
    }
}

// ---------------------------------------------------------------------------------------------
// The order of names
// ---------------------------------------------------------------------------------------------

/// Whether `a` comes before `b`, character by character.
pub open spec fn text_less(a: Seq<char>, b: Seq<char>) -> bool
    decreases a.len(),
{
    if b.len() == 0 {
        false
    } else if a.len() == 0 {
        true
    } else if a[0] == b[0] {
        text_less(a.skip(1), b.skip(1))
    } else {
        a[0] < b[0]
    }
}

pub proof fn lemma_text_less_irreflexive(a: Seq<char>)
    ensures
        !text_less(a, a),
    decreases a.len(),
{
    if a.len() > 0 {
        lemma_text_less_irreflexive(a.skip(1));
    }
}

pub proof fn lemma_text_less_transitive(a: Seq<char>, b: Seq<char>, c: Seq<char>)
    requires
        text_less(a, b),
        text_less(b, c),
    ensures
        text_less(a, c),
    decreases a.len(),
{
    if a.len() > 0 && b.len() > 0 && c.len() > 0 && a[0] == b[0] && b[0] == c[0] {
        lemma_text_less_transitive(a.skip(1), b.skip(1), c.skip(1));
    }
}

pub proof fn lemma_text_less_total(a: Seq<char>, b: Seq<char>)
    ensures
        a == b || text_less(a, b) || text_less(b, a),
    decreases a.len(),
{
    if a.len() == 0 {
        if b.len() == 0 {
            assert(a =~= b);
        }
    } else if b.len() > 0 && a[0] == b[0] {
        lemma_text_less_total(a.skip(1), b.skip(1));
        if a.skip(1) == b.skip(1) {
            assert(a =~= seq![a[0]] + a.skip(1));
            assert(b =~= seq![b[0]] + b.skip(1));
        }
    }
}

/// Whether `a` comes before `b`.
fn comes_before(a: &str, b: &str) -> (r: bool)
    ensures
        r == text_less(a@, b@),
{
    let x = chars_of(a);
    let y = chars_of(b);
    let mut i: usize = 0;
    assert(x@.skip(0) =~= x@);
    assert(y@.skip(0) =~= y@);
    while i < x.len() && i < y.len() && x[i] == y[i]
        invariant
            i <= x@.len(),
            i <= y@.len(),
            text_less(x@, y@) == text_less(x@.skip(i as int), y@.skip(i as int)),
        decreases x@.len() - i,
    {
        assert(x@.skip(i as int).skip(1) =~= x@.skip(i + 1));
        assert(y@.skip(i as int).skip(1) =~= y@.skip(i + 1));
        i += 1;
    }
    if i >= y.len() {
        false
    } else if i >= x.len() {
        true
    } else {
        x[i] < y[i]
    }
}

// ---------------------------------------------------------------------------------------------
// The table
// ---------------------------------------------------------------------------------------------

pub type JobEntries = Seq<(Seq<char>, JobStatus)>;

/// The names are in strict order.
pub open spec fn by_name(entries: JobEntries) -> bool {
    forall|i: int, j: int|
        0 <= i < j < entries.len() ==> text_less((#[trigger] entries[i]).0, (#[trigger] entries[j]).0)
}

/// All jobs by name.
#[derive(Debug)]
pub struct JobTable {
    items: Vec<(String, JobStatus)>,
}

/// The entries whose name begins with `prefix`, in order.
pub open spec fn with_prefix(entries: JobEntries, prefix: Seq<char>) -> JobEntries
    decreases entries.len(),
{
    if entries.len() == 0 {
        Seq::empty()
    } else {
        let rest = with_prefix(entries.drop_last(), prefix);
        if begins_with(entries.last().0, prefix) {
            rest.push(entries.last())
        } else {
            rest
        }
    }
}

/// The entries that are not forgotten, in order.
pub open spec fn remembered(entries: JobEntries) -> JobEntries
    decreases entries.len(),
{
    if entries.len() == 0 {
        Seq::empty()
    } else {
        let rest = remembered(entries.drop_last());
        if is_forgettable(entries.last().1) {
            rest
        } else {
            rest.push(entries.last())
        }
    }
}

/// The entries without those that are to go, in order.
pub open spec fn kept(entries: JobEntries, gone: Seq<bool>) -> JobEntries
    decreases entries.len(),
{
    if entries.len() == 0 {
        Seq::empty()
    } else {
        let rest = kept(entries.drop_last(), gone);
        if gone[entries.len() - 1] {
            rest
        } else {
            rest.push(entries.last())
        }
    }
}

/// The entries after all whose name begins with `prefix` were stopped.
pub open spec fn after_stop(entries: JobEntries, prefix: Seq<char>) -> JobEntries {
    Seq::new(
        entries.len(),
        |i: int|
            if begins_with(entries[i].0, prefix) {
                (entries[i].0, JobStatus::Stopped)
            } else {
                entries[i]
            },
    )
}

/// A page of the entries: `limit` of them from number `offset` on.
pub open spec fn page(entries: JobEntries, offset: int, limit: int) -> JobEntries {
    let from = if offset < entries.len() {
        offset
    } else {
        entries.len() as int
    };
    let to = if offset + limit < entries.len() {
        offset + limit
    } else {
        entries.len() as int
    };
    entries.subrange(from, if to < from {
        from
    } else {
        to
    })
}

proof fn lemma_by_name_unique(entries: JobEntries)
    requires
        by_name(entries),
    ensures
        unique_keys(entries),
{
    assert forall|i: int, j: int| 0 <= i < j < entries.len() implies (#[trigger] entries[i]).0 != (
    #[trigger] entries[j]).0 by {
        lemma_text_less_irreflexive(entries[i].0);
    }
}

impl JobTable {
    /// The jobs, in order.
    pub closed spec fn entries(&self) -> JobEntries {
        pairs_view(self.items@)
    }

    /// The names are in strict order.
    pub open spec fn wf(&self) -> bool {
        by_name(self.entries())
    }

    /// The status of a job.
    pub open spec fn at(&self, id: Seq<char>) -> Option<JobStatus> {
        lookup(self.entries(), id)
    }

    pub fn new() -> (r: JobTable)
        ensures
            r.wf(),
            r.entries().len() == 0,
    {
        JobTable { items: Vec::new() }
    }

    /// The number of entries whose name comes before `id`.
    fn rank(&self, id: &str) -> (r: usize)
        requires
            self.wf(),
        ensures
            r <= self.entries().len(),
            forall|i: int| 0 <= i < r ==> text_less((#[trigger] self.entries()[i]).0, id@),
            forall|i: int|
                r <= i < self.entries().len() ==> !text_less((#[trigger] self.entries()[i]).0, id@),
    {
        let ghost view = self.entries();
        let mut i: usize = 0;
        while i < self.items.len() && comes_before(self.items[i].0.as_str(), id)
            invariant
                i <= self.items@.len(),
                view == self.entries(),
                self.entries() == pairs_view(self.items@),
                forall|j: int| 0 <= j < i ==> text_less((#[trigger] view[j]).0, id@),
            decreases self.items@.len() - i,
        {
            assert(view[i as int].0 == self.items@[i as int].0@);
            i += 1;
        }
        proof {
            if i < view.len() {
                assert(view[i as int].0 == self.items@[i as int].0@);
                assert forall|j: int| i <= j < view.len() implies !text_less(
                    (#[trigger] view[j]).0,
                    id@,
                ) by {
                    if j > i && text_less(view[j].0, id@) {
                        assert(text_less(view[i as int].0, view[j].0));
                        lemma_text_less_transitive(view[i as int].0, view[j].0, id@);
                    }
                }
            }
        }
        i
    }

    /// Puts a status under a name, in place of an earlier one.
    pub fn insert(&mut self, id: String, status: JobStatus)
        requires
            old(self).wf(),
        ensures
            final(self).wf(),
            final(self).at(id@) == Some(status),
            forall|other: Seq<char>|
                other != id@ ==> #[trigger] final(self).at(other) == old(self).at(other),
    {
        let ghost before = self.entries();
        let ghost name = id@;
        let at: usize = self.rank(id.as_str());
        if at < self.items.len() && same_text(self.items[at].0.as_str(), id.as_str()) {
            assert(before[at as int].0 == id@);
            self.items.set(at, (id, status));
            let ghost after = self.entries();
            proof {
                assert(after =~= before.update(at as int, (name, status)));
                assert(by_name(after)) by {
                    assert forall|i: int, j: int| 0 <= i < j < after.len() implies text_less(
                        (#[trigger] after[i]).0,
                        (#[trigger] after[j]).0,
                    ) by {
                        assert(after[i].0 == before[i].0 && after[j].0 == before[j].0);
                    }
                }
                lemma_by_name_unique(before);
                lemma_by_name_unique(after);
                lemma_unique_index(after, at as int);
                assert forall|other: Seq<char>| other != name implies #[trigger] lookup(
                    after,
                    other,
                ) == lookup(before, other) by {
                    lemma_key_index(before, other);
                    lemma_key_index(after, other);
                    let i = key_index(before, other);
                    let j = key_index(after, other);
                    if i >= 0 {
                        assert(after[i] == before[i]);
                        lemma_unique_index(after, i);
                    } else if j >= 0 {
                        assert(before[j].0 == other);
                    }
                }
            }
        } else {
            self.items.insert(at, (id, status));
            let ghost after = self.entries();
            proof {
                assert(after =~= before.insert(at as int, (name, status)));
                if at < before.len() {
                    assert(before[at as int].0 == old(self).items@[at as int].0@);
                    assert(before[at as int].0 != name);
                }
                assert(by_name(after)) by {
                    assert forall|i: int, j: int| 0 <= i < j < after.len() implies text_less(
                        (#[trigger] after[i]).0,
                        (#[trigger] after[j]).0,
                    ) by {
                        lemma_insert_order(before, at as int, name, status, i, j);
                    }
                }
                lemma_by_name_unique(before);
                lemma_by_name_unique(after);
                lemma_unique_index(after, at as int);
                assert forall|other: Seq<char>| other != name implies #[trigger] lookup(
                    after,
                    other,
                ) == lookup(before, other) by {
                    lemma_key_index(before, other);
                    lemma_key_index(after, other);
                    let i = key_index(before, other);
                    let j = key_index(after, other);
                    if i >= 0 {
                        let k = if i < at {
                            i
                        } else {
                            i + 1
                        };
                        assert(after[k] == before[i]);
                        lemma_unique_index(after, k);
                    } else if j >= 0 {
                        let k = if j < at {
                            j
                        } else {
                            j - 1
                        };
                        assert(j != at);
                        assert(after[j] == before[k]);
                        assert(before[k].0 == other);
                    }
                }
            }
        }
    }

    /// The status of a job.
    pub fn get(&self, id: &str) -> (r: Option<JobStatus>)
        requires
            self.wf(),
        ensures
            r == self.at(id@),
    {
        let ghost view = self.entries();
        let at: usize = self.rank(id);
        proof {
            lemma_by_name_unique(view);
            lemma_key_index(view, id@);
        }
        if at < self.items.len() && same_text(self.items[at].0.as_str(), id) {
            proof {
                assert(view[at as int].0 == id@);
                lemma_unique_index(view, at as int);
            }
            Some(self.items[at].1)
        } else {
            proof {
                let i = key_index(view, id@);
                if i >= 0 {
                    lemma_text_less_irreflexive(id@);
                    assert(!(i < at));
                    if i > at {
                        assert(text_less(view[at as int].0, view[i].0));
                        assert(!text_less(view[at as int].0, id@));
                    }
                    assert(view[at as int].0 == self.items@[at as int].0@);
                }
            }
            None
        }
    }

    /// Whether a running job should stop: it was stopped, or it failed for a known reason.
    pub fn should_stop(&self, job_id: &str) -> (r: bool)
        requires
            self.wf(),
        ensures
            r == (self.at(job_id@) == Some(JobStatus::Stopped) || (self.at(job_id@) is Some
                && self.at(job_id@)->0 is Error)),
    {
        match self.get(job_id) {
            Some(JobStatus::Stopped) => true,
            Some(JobStatus::Error(_)) => true,
            _ => false,
        }
    }

    /// Sets the status of a job that is not finished; nothing else changes, and nothing at all
    /// where the job is finished or unknown.
    pub fn set_job_status(&mut self, job_id: &str, new_status: JobStatus)
        requires
            old(self).wf(),
        ensures
            final(self).wf(),
            old(self).at(job_id@) matches Some(s) && !is_finished(s) ==> final(self).at(job_id@)
                == Some(new_status),
            !(old(self).at(job_id@) matches Some(s) && !is_finished(s)) ==> final(self).entries()
                == old(self).entries(),
            forall|other: Seq<char>|
                other != job_id@ ==> #[trigger] final(self).at(other) == old(self).at(other),
    {
        match self.get(job_id) {
            Some(status) => {
                let finished = match status {
                    JobStatus::Stopped => true,
                    JobStatus::Failed => true,
                    JobStatus::Completed => true,
                    JobStatus::Error(_) => true,
                    _ => false,
                };
                if !finished {
                    self.insert(job_id.to_owned(), new_status);
                }
            },
            None => {},
        }
    }

    /// Stops every job whose name begins with `job_id`, and returns what their status was.
    pub fn stop_request_by_job_id(&mut self, job_id: &str) -> (r: Vec<(String, Option<JobStatus>)>)
        requires
            old(self).wf(),
        ensures
            final(self).wf(),
            final(self).entries() == after_stop(old(self).entries(), job_id@),
            r@.len() == with_prefix(old(self).entries(), job_id@).len(),
            forall|i: int|
                0 <= i < r@.len() ==> (#[trigger] r@[i]).0@ == with_prefix(
                    old(self).entries(),
                    job_id@,
                )[i].0 && r@[i].1 == Some(with_prefix(old(self).entries(), job_id@)[i].1),
    {
        let ghost before = self.entries();
        let mut r: Vec<(String, Option<JobStatus>)> = Vec::new();
        let mut i: usize = 0;
        assert(before.take(0) =~= Seq::empty());
        while i < self.items.len()
            invariant
                i <= self.items@.len() == before.len(),
                before == pairs_view(old(self).items@),
                forall|j: int|
                    i <= j < before.len() ==> pairs_view(self.items@)[j] == #[trigger] before[j],
                forall|j: int|
                    0 <= j < i ==> pairs_view(self.items@)[j] == #[trigger] after_stop(
                        before,
                        job_id@,
                    )[j],
                r@.len() == with_prefix(before.take(i as int), job_id@).len(),
                forall|j: int|
                    0 <= j < r@.len() ==> (#[trigger] r@[j]).0@ == with_prefix(
                        before.take(i as int),
                        job_id@,
                    )[j].0 && r@[j].1 == Some(with_prefix(before.take(i as int), job_id@)[j].1),
            decreases self.items@.len() - i,
        {
            proof {
                assert(before.take(i + 1).drop_last() =~= before.take(i as int));
                assert(before.take(i + 1).last() == before[i as int]);
                assert(pairs_view(self.items@)[i as int] == before[i as int]);
            }
            let ghost items = self.items@;
            if starts_with(self.items[i].0.as_str(), job_id) {
                let id = self.items[i].0.clone();
                let status = self.items[i].1;
                r.push((id, Some(status)));
                let key = self.items[i].0.clone();
                self.items.set(i, (key, JobStatus::Stopped));
            }
            proof {
                assert forall|j: int| i + 1 <= j < before.len() implies pairs_view(self.items@)[j]
                    == #[trigger] before[j] by {
                    assert(pairs_view(items)[j] == before[j]);
                }
                assert forall|j: int| 0 <= j < i + 1 implies pairs_view(self.items@)[j]
                    == #[trigger] after_stop(before, job_id@)[j] by {
                    if j < i {
                        assert(pairs_view(items)[j] == after_stop(before, job_id@)[j]);
                    }
                }
            }
            i += 1;
        }
        proof {
            assert(before.take(i as int) =~= before);
            assert(self.entries() =~= after_stop(before, job_id@));
            let after = self.entries();
            assert forall|a: int, b: int| 0 <= a < b < after.len() implies text_less(
                (#[trigger] after[a]).0,
                (#[trigger] after[b]).0,
            ) by {
                assert(after[a].0 == before[a].0 && after[b].0 == before[b].0);
            }
        }
        r
    }

    /// A copy of the entries from one number to another.
    fn copied(&self, from: usize, to: usize) -> (r: Vec<(String, JobStatus)>)
        requires
            from <= to <= self.entries().len(),
        ensures
            pairs_view(r@) == self.entries().subrange(from as int, to as int),
    {
        let ghost view = self.entries().subrange(from as int, to as int);
        let mut r: Vec<(String, JobStatus)> = Vec::new();
        let mut i: usize = from;
        while i < to
            invariant
                from <= i <= to <= self.items@.len(),
                view == pairs_view(self.items@).subrange(from as int, to as int),
                pairs_view(r@) == view.take(i - from),
            decreases to - i,
        {
            let id = self.items[i].0.clone();
            let status = self.items[i].1;
            let ghost before = pairs_view(r@);
            r.push((id, status));
            i += 1;
            assert(pairs_view(r@) =~= before.push((id@, status)));
            assert(pairs_view(r@) =~= view.take(i - from));
        }
        assert(pairs_view(r@) =~= view);
        r
    }

    /// The jobs whose name begins with `job_id`.
    pub fn get_status_by_job_id(&self, job_id: &str) -> (r: TextMap<JobStatus>)
        requires
            self.wf(),
        ensures
            r.wf(),
            r.entries() == with_prefix(self.entries(), job_id@),
    {
        let ghost view = self.entries();
        let mut items: Vec<(String, JobStatus)> = Vec::new();
        let mut i: usize = 0;
        proof {
            assert(view.take(0) =~= Seq::empty());
            assert(pairs_view(items@) =~= Seq::empty());
        }
        while i < self.items.len()
            invariant
                i <= self.items@.len(),
                view == pairs_view(self.items@),
                pairs_view(items@) == with_prefix(view.take(i as int), job_id@),
            decreases self.items@.len() - i,
        {
            proof {
                assert(view.take(i + 1).drop_last() =~= view.take(i as int));
                assert(view.take(i + 1).last() == view[i as int]);
            }
            if starts_with(self.items[i].0.as_str(), job_id) {
                let id = self.items[i].0.clone();
                let status = self.items[i].1;
                let ghost before = pairs_view(items@);
                items.push((id, status));
                assert(pairs_view(items@) =~= before.push((id@, status)));
            }
            i += 1;
        }
        proof {
            assert(view.take(i as int) =~= view);
            lemma_prefix_order(view, job_id@);
            lemma_by_name_unique(with_prefix(view, job_id@));
        }
        TextMap::from_unique(items)
    }

    /// All jobs.
    pub fn get_status_all(&self) -> (r: TextMap<JobStatus>)
        requires
            self.wf(),
        ensures
            r.wf(),
            r.entries() == self.entries(),
    {
        proof {
            lemma_by_name_unique(self.entries());
            assert(self.entries().subrange(0, self.entries().len() as int) =~= self.entries());
        }
        TextMap::from_unique(self.copied(0, self.items.len()))
    }

    /// The status of jobs. A name has higher priority and yields the jobs whose name begins with
    /// it; otherwise it is `limit` jobs, starting at `offset`.
    pub fn get_job_status(&self, job_id: Option<&str>, offset: usize, limit: usize) -> (r: TextMap<
        JobStatus,
    >)
        requires
            self.wf(),
        ensures
            r.wf(),
            r.entries() == (match job_id {
                Some(id) => with_prefix(self.entries(), id@),
                None => page(self.entries(), offset as int, limit as int),
            }),
    {
        match job_id {
            Some(id) => self.get_status_by_job_id(id),
            None => {
                let len: usize = self.items.len();
                let from: usize = if offset < len {
                    offset
                } else {
                    len
                };
                let to: usize = if limit < len - from {
                    from + limit
                } else {
                    len
                };
                proof {
                    let view = self.entries();
                    let part = view.subrange(from as int, to as int);
                    lemma_by_name_unique(view);
                    assert forall|i: int, j: int| 0 <= i < j < part.len() implies (
                    #[trigger] part[i]).0 != (#[trigger] part[j]).0 by {
                        assert(part[i] == view[i + from]);
                        assert(part[j] == view[j + from]);
                    }
                    assert(page(view, offset as int, limit as int) =~= part);
                }
                TextMap::from_unique(self.copied(from, to))
            },
        }
    }

    /// Forgets the jobs whose status a predicate picks.
    pub fn cleanup_job<P: Fn(&JobStatus) -> bool>(&mut self, predicate: P)
        requires
            old(self).wf(),
            forall|status: JobStatus| #[trigger] call_requires(predicate, (&status,)),
        ensures
            final(self).wf(),
            exists|gone: Seq<bool>|
                {
                    &&& gone.len() == old(self).entries().len()
                    &&& forall|i: int|
                        0 <= i < gone.len() ==> call_ensures(
                            predicate,
                            (&old(self).entries()[i].1,),
                            #[trigger] gone[i],
                        )
                    &&& final(self).entries() == #[trigger] kept(old(self).entries(), gone)
                },
    {
        let ghost before = self.entries();
        let ghost mut gone: Seq<bool> = Seq::empty();
        let mut left: Vec<(String, JobStatus)> = Vec::new();
        let mut i: usize = 0;
        proof {
            assert(before.take(0) =~= Seq::empty());
            assert(pairs_view(left@) =~= Seq::empty());
        }
        while i < self.items.len()
            invariant
                i <= self.items@.len(),
                before == pairs_view(self.items@),
                forall|status: JobStatus| #[trigger] call_requires(predicate, (&status,)),
                gone.len() == i,
                forall|j: int|
                    0 <= j < i ==> call_ensures(predicate, (&before[j].1,), #[trigger] gone[j]),
                pairs_view(left@) == kept(before.take(i as int), gone),
            decreases self.items@.len() - i,
        {
            let status = self.items[i].1;
            let goes = predicate(&status);
            proof {
                assert(before.take(i + 1).drop_last() =~= before.take(i as int));
                assert(before.take(i + 1).last() == before[i as int]);
                lemma_kept_more(before.take(i as int), gone, goes);
                gone = gone.push(goes);
            }
            if !goes {
                let id = self.items[i].0.clone();
                let ghost so_far = pairs_view(left@);
                left.push((id, status));
                assert(pairs_view(left@) =~= so_far.push((id@, status)));
            }
            i += 1;
        }
        proof {
            assert(before.take(i as int) =~= before);
            lemma_kept_order(before, gone);
        }
        self.items = left;
        assert(self.entries() == kept(before, gone));
    }

    /// Forgets the jobs that are over. Those with an error are kept.
    pub fn forget_finished(&mut self)
        requires
            old(self).wf(),
        ensures
            final(self).wf(),
            final(self).entries() == remembered(old(self).entries()),
    {
        let ghost before = self.entries();
        let over = |status: &JobStatus| -> (r: bool)
            ensures
                r == is_forgettable(*status),
            {
                match status {
                    JobStatus::Failed => true,
                    JobStatus::Stopped => true,
                    JobStatus::Completed => true,
                    _ => false,
                }
            };
        self.cleanup_job(over);
        proof {
            let gone = choose|gone: Seq<bool>|
                {
                    &&& gone.len() == before.len()
                    &&& forall|i: int|
                        0 <= i < gone.len() ==> call_ensures(
                            over,
                            (&before[i].1,),
                            #[trigger] gone[i],
                        )
                    &&& self.entries() == #[trigger] kept(before, gone)
                };
            lemma_kept_remembered(before, gone);
        }
    }

    /// Stops every job whose name begins with `job_id`, and tells of each what it did.
    pub fn stop(&mut self, job_id: &str) -> (r: TextMap<String>)
        requires
            old(self).wf(),
        ensures
            final(self).wf(),
            final(self).entries() == after_stop(old(self).entries(), job_id@),
            r.wf(),
            r.entries().len() == with_prefix(old(self).entries(), job_id@).len(),
            forall|i: int|
                0 <= i < r.entries().len() ==> (#[trigger] r.entries()[i]).0 == with_prefix(
                    old(self).entries(),
                    job_id@,
                )[i].0 && r.entries()[i].1@ == stop_text(
                    with_prefix(old(self).entries(), job_id@)[i].1,
                ),
    {
        let ghost matched = with_prefix(self.entries(), job_id@);
        proof {
            lemma_prefix_order(self.entries(), job_id@);
            lemma_by_name_unique(matched);
        }
        let result = self.stop_request_by_job_id(job_id);
        let mut items: Vec<(String, String)> = Vec::new();
        let mut i: usize = 0;
        while i < result.len()
            invariant
                i <= result@.len() == matched.len(),
                items@.len() == i,
                forall|j: int|
                    0 <= j < result@.len() ==> (#[trigger] result@[j]).0@ == matched[j].0
                        && result@[j].1 == Some(matched[j].1),
                forall|j: int|
                    0 <= j < i ==> (#[trigger] items@[j]).0@ == matched[j].0 && items@[j].1@
                        == stop_text(matched[j].1),
            decreases result@.len() - i,
        {
            let id = result[i].0.clone();
            let message = stop_message(result[i].1);
            items.push((id, message.to_owned()));
            i += 1;
        }
        assert forall|a: int, b: int| 0 <= a < b < items@.len() implies (#[trigger] pairs_view(
            items@,
        )[a]).0 != (#[trigger] pairs_view(items@)[b]).0 by {
            assert(items@[a].0@ == matched[a].0);
            assert(items@[b].0@ == matched[b].0);
        }
        TextMap::from_unique(items)
    }
}

proof fn lemma_insert_order(
    before: JobEntries,
    at: int,
    name: Seq<char>,
    status: JobStatus,
    i: int,
    j: int,
)
    requires
        by_name(before),
        0 <= at <= before.len(),
        forall|k: int| 0 <= k < at ==> text_less((#[trigger] before[k]).0, name),
        forall|k: int| at <= k < before.len() ==> !text_less((#[trigger] before[k]).0, name),
        at < before.len() ==> before[at].0 != name,
        0 <= i < j < before.len() + 1,
    ensures
        text_less(
            before.insert(at, (name, status))[i].0,
            before.insert(at, (name, status))[j].0,
        ),
{
    if i < at {
        if j > at {
            assert(text_less(before[i].0, before[j - 1].0));
        } else if j < at {
            assert(text_less(before[i].0, before[j].0));
        } else {
            assert(text_less(before[i].0, name));
        }
    } else if i == at {
        lemma_text_less_total(before[at].0, name);
        assert(!text_less(before[at].0, name));
        if j - 1 > at {
            assert(text_less(before[at].0, before[j - 1].0));
            lemma_text_less_transitive(name, before[at].0, before[j - 1].0);
        }
    } else {
        assert(text_less(before[i - 1].0, before[j - 1].0));
    }
}

/// The entries with a prefix are in order, and among all entries.
proof fn lemma_prefix_order(entries: JobEntries, prefix: Seq<char>)
    requires
        by_name(entries),
    ensures
        by_name(with_prefix(entries, prefix)),
        forall|i: int|
            0 <= i < with_prefix(entries, prefix).len() ==> entries.contains(
                #[trigger] with_prefix(entries, prefix)[i],
            ),
    decreases entries.len(),
{
    if entries.len() > 0 {
        let rest = entries.drop_last();
        assert(by_name(rest)) by {
            assert forall|i: int, j: int| 0 <= i < j < rest.len() implies text_less(
                (#[trigger] rest[i]).0,
                (#[trigger] rest[j]).0,
            ) by {
                assert(rest[i] == entries[i] && rest[j] == entries[j]);
            }
        }
        lemma_prefix_order(rest, prefix);
        let some = with_prefix(rest, prefix);
        let all = with_prefix(entries, prefix);
        assert forall|i: int| 0 <= i < all.len() implies entries.contains(#[trigger] all[i]) by {
            if i < some.len() {
                assert(all[i] == some[i]);
                let k = choose|k: int| 0 <= k < rest.len() && rest[k] == some[i];
                assert(entries[k] == all[i]);
            } else {
                assert(entries[entries.len() - 1] == all[i]);
            }
        }
        assert forall|i: int, j: int| 0 <= i < j < all.len() implies text_less(
            (#[trigger] all[i]).0,
            (#[trigger] all[j]).0,
        ) by {
            assert(all[i] == some[i]);
            if j < some.len() {
                assert(all[j] == some[j]);
            } else {
                let k = choose|k: int| 0 <= k < rest.len() && rest[k] == some[i];
                assert(text_less(entries[k].0, entries[entries.len() - 1].0));
            }
        }
    }
}

/// The entries that are kept are in order, and among all entries.
proof fn lemma_kept_order(entries: JobEntries, gone: Seq<bool>)
    requires
        by_name(entries),
    ensures
        by_name(kept(entries, gone)),
        forall|i: int|
            0 <= i < kept(entries, gone).len() ==> entries.contains(
                #[trigger] kept(entries, gone)[i],
            ),
    decreases entries.len(),
{
    if entries.len() > 0 {
        let rest = entries.drop_last();
        assert(by_name(rest)) by {
            assert forall|i: int, j: int| 0 <= i < j < rest.len() implies text_less(
                (#[trigger] rest[i]).0,
                (#[trigger] rest[j]).0,
            ) by {
                assert(rest[i] == entries[i] && rest[j] == entries[j]);
            }
        }
        lemma_kept_order(rest, gone);
        let some = kept(rest, gone);
        let all = kept(entries, gone);
        assert forall|i: int| 0 <= i < all.len() implies entries.contains(#[trigger] all[i]) by {
            if i < some.len() {
                assert(all[i] == some[i]);
                let k = choose|k: int| 0 <= k < rest.len() && rest[k] == some[i];
                assert(entries[k] == all[i]);
            } else {
                assert(entries[entries.len() - 1] == all[i]);
            }
        }
        assert forall|i: int, j: int| 0 <= i < j < all.len() implies text_less(
            (#[trigger] all[i]).0,
            (#[trigger] all[j]).0,
        ) by {
            assert(all[i] == some[i]);
            if j < some.len() {
                assert(all[j] == some[j]);
            } else {
                let k = choose|k: int| 0 <= k < rest.len() && rest[k] == some[i];
                assert(text_less(entries[k].0, entries[entries.len() - 1].0));
            }
        }
    }
}

/// Whether a later entry goes makes no difference to the earlier ones.
proof fn lemma_kept_more(entries: JobEntries, gone: Seq<bool>, goes: bool)
    requires
        entries.len() <= gone.len(),
    ensures
        kept(entries, gone.push(goes)) == kept(entries, gone),
    decreases entries.len(),
{
    if entries.len() > 0 {
        lemma_kept_more(entries.drop_last(), gone, goes);
    }
}

/// Where just the jobs that are over go, the entries that are not forgotten are kept.
proof fn lemma_kept_remembered(entries: JobEntries, gone: Seq<bool>)
    requires
        entries.len() <= gone.len(),
        forall|i: int| 0 <= i < entries.len() ==> #[trigger] gone[i] == is_forgettable(entries[i].1),
    ensures
        kept(entries, gone) == remembered(entries),
    decreases entries.len(),
{
    if entries.len() > 0 {
        let rest = entries.drop_last();
        assert forall|i: int| 0 <= i < rest.len() implies #[trigger] gone[i] == is_forgettable(
            rest[i].1,
        ) by {
            assert(rest[i] == entries[i]);
        }
        lemma_kept_remembered(rest, gone);
    }
}

/// After a stop, the jobs whose name begins with the prefix are stopped and the others are as
/// they were.
pub proof fn lemma_stop(entries: JobEntries, prefix: Seq<char>, id: Seq<char>)
    requires
        by_name(entries),
    ensures
        lookup(after_stop(entries, prefix), id) == (match lookup(entries, id) {
            Some(status) => if begins_with(id, prefix) {
                Some(JobStatus::Stopped)
            } else {
                Some(status)
            },
            None => None,
        }),
{
    let after = after_stop(entries, prefix);
    lemma_by_name_unique(entries);
    assert(unique_keys(after)) by {
        assert forall|i: int, j: int| 0 <= i < j < after.len() implies (#[trigger] after[i]).0 != (
        #[trigger] after[j]).0 by {
            assert(entries[i].0 != entries[j].0);
        }
    }
    lemma_key_index(entries, id);
    lemma_key_index(after, id);
    let i = key_index(entries, id);
    let j = key_index(after, id);
    if i >= 0 {
        assert(after[i].0 == id);
        lemma_unique_index(after, i);
    } else if j >= 0 {
        assert(entries[j].0 == id);
    }
}

/// After a cleanup, the jobs that are over are gone and the others are as they were.
pub proof fn lemma_cleanup(entries: JobEntries, id: Seq<char>)
    requires
        by_name(entries),
    ensures
        lookup(remembered(entries), id) == (match lookup(entries, id) {
            Some(status) => if is_forgettable(status) {
                None
            } else {
                Some(status)
            },
            None => None,
        }),
    decreases entries.len(),
{
    if entries.len() > 0 {
        let rest = entries.drop_last();
        assert(by_name(rest)) by {
            assert forall|i: int, j: int| 0 <= i < j < rest.len() implies text_less(
                (#[trigger] rest[i]).0,
                (#[trigger] rest[j]).0,
            ) by {
                assert(rest[i] == entries[i] && rest[j] == entries[j]);
            }
        }
        lemma_cleanup(rest, id);
        let kept = remembered(rest);
        lemma_key_index(rest, id);
        lemma_key_index(kept, id);
        if !is_forgettable(entries.last().1) {
            assert(remembered(entries).drop_last() =~= kept);
        } else if entries.last().0 == id {
            lemma_by_name_unique(entries);
            let i = key_index(rest, id);
            if i >= 0 {
                assert(entries[i].0 != entries[entries.len() - 1].0);
            }
        }
    }
}

} // verus!
