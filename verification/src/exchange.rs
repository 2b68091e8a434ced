//! One request and its response, step by step.

use vstd::prelude::*;

use crate::json::{Json, JsonView};
use crate::lua::LuaAssertionResult;
use crate::metrics::{
    counted, lemma_update, measures, Change, Metric, Metrics, Update, UpdateView,
};
use crate::response_assert::{
    all_checkable, assert_response, assertions_view, can_assert_response, error_id, errors_view, response_faults,
    AssertionError, AssertionErrorView, ResponseAssertion, UriParts, UriView,
};
use crate::serde_bridge::{json_of, parse_json};
use crate::text::decimal_text;

verus! {

/// How far a request is.
#[derive(Clone, Copy, Debug, PartialEq, Eq, Structural)]
pub enum HttpRequestState {
    Init,
    InProgress,
    ResponseReceived,
}

/// What to wait for.
#[derive(Clone, Copy, Debug, PartialEq, Eq, Structural)]
pub enum Await {
    /// The head of the response.
    Response,
    /// The body of the response.
    Body,
    /// Nothing: the connection can be handed back.
    Nothing,
}

/// What is done when a request is looked at.
#[derive(Clone, Copy, Debug, PartialEq, Eq, Structural)]
pub struct Look {
    /// The request counts as sent now, and the timer starts.
    pub begins: bool,
    pub wait: Await,
}

/// A request on its way.
#[derive(Clone, Copy, Debug, PartialEq, Eq, Structural)]
pub struct Exchange {
    pub state: HttpRequestState,
    /// The body is being read.
    pub reading_body: bool,
}

impl Exchange {
    /// A body is read only after the head of the response came.
    pub open spec fn wf(&self) -> bool {
        self.reading_body ==> self.state == HttpRequestState::ResponseReceived
    }

    pub fn new() -> (r: Exchange)
        ensures
            r.wf(),
            r.state == HttpRequestState::Init,
            !r.reading_body,
    {
        Exchange { state: HttpRequestState::Init, reading_body: false }
    }

    /// What looking at the request shows.
    pub open spec fn shown(&self) -> Look {
        Look {
            begins: self.state == HttpRequestState::Init,
            wait: if self.reading_body {
                Await::Body
            } else if self.state == HttpRequestState::ResponseReceived {
                Await::Nothing
            } else {
                Await::Response
            },
        }
    }

    /// The request once it was looked at: it has begun.
    pub open spec fn begun(&self) -> Exchange {
        Exchange {
            state: if self.state == HttpRequestState::Init {
                HttpRequestState::InProgress
            } else {
                self.state
            },
            reading_body: self.reading_body,
        }
    }

    /// The request once the head of its response is there, or it failed.
    pub open spec fn answered(&self, received: bool) -> Exchange {
        Exchange {
            state: HttpRequestState::ResponseReceived,
            reading_body: self.reading_body || received,
        }
    }

    /// Looks at the request: it begins where it has not, and what to wait for is known.
    pub fn look(&mut self) -> (r: Look)
        requires
            old(self).wf(),
        ensures
            final(self).wf(),
            r == old(self).shown(),
            *final(self) == old(self).begun(),
    {
        let begins = match self.state {
            HttpRequestState::Init => true,
            _ => false,
        };
        if begins {
            self.state = HttpRequestState::InProgress;
        }
        let wait = if self.reading_body {
            Await::Body
        } else {
            match self.state {
                HttpRequestState::ResponseReceived => Await::Nothing,
                _ => Await::Response,
            }
        };
        Look { begins, wait }
    }

    /// The head of the response is there, or sending failed: whether the body is read next. If
    /// not, the connection can be handed back.
    pub fn on_response(&mut self, received: bool) -> (read_body: bool)
        requires
            old(self).wf(),
        ensures
            final(self).wf(),
            read_body == received,
            *final(self) == old(self).answered(received),
    {
        self.state = HttpRequestState::ResponseReceived;
        if received {
            self.reading_body = true;
        }
        received
    }
}

/// What the body of a response amounts to.
#[derive(Debug)]
pub enum BodyVerdict {
    /// Nothing was checked: there is no check, or there is no body.
    NotChecked,
    /// The body is no JSON.
    Unreadable(String),
    /// Every check passed.
    Passed,
    /// The checks that failed: their id, and the label of the failure.
    Failed(Vec<(u32, String)>),
}

/// The label of a failure.
pub open spec fn error_label(e: AssertionErrorView) -> Seq<char> {
    match e {
        AssertionErrorView::InvalidExpectation(_, _) => "InvalidExpectation"@,
        AssertionErrorView::FailedAssert(_, _) => "FailedAssert"@,
        AssertionErrorView::InvalidActual(_, _) => "InvalidActual"@,
    }
}

/// The ids and labels of failures.
pub fn failure_labels(errors: &Vec<AssertionError>) -> (r: Vec<(u32, String)>)
    ensures
        r@.len() == errors@.len(),
        forall|i: int|
            0 <= i < r@.len() ==> (#[trigger] r@[i]).0 == error_id(errors@[i]@) && r@[i].1@
                == error_label(errors@[i]@),
{
    let mut r: Vec<(u32, String)> = Vec::new();
    let mut i: usize = 0;
    while i < errors.len()
        invariant
            i <= errors@.len(),
            r@.len() == i,
            forall|j: int|
                0 <= j < i ==> (#[trigger] r@[j]).0 == error_id(errors@[j]@) && r@[j].1@
                    == error_label(errors@[j]@),
        decreases errors@.len() - i,
    {
        r.push((errors[i].get_id(), errors[i].label().to_owned()));
        i += 1;
    }
    r
}

/// What the body of a response amounts to. `parsed` is none where it could not be read, an error
/// text where it is no JSON.
pub open spec fn body_judged(
    assertions: ResponseAssertion,
    request_url: UriView,
    parsed: Option<Result<JsonView, Seq<char>>>,
    r: BodyVerdict,
) -> bool {
    match parsed {
        None => r is NotChecked,
        Some(parsed) => if assertions.assertions@.len() == 0 {
            r is NotChecked
        } else {
            match parsed {
                Err(text) => r matches BodyVerdict::Unreadable(t) && t@ == text,
                Ok(response) => {
                    let faults = response_faults(
                        assertions_view(assertions.assertions@),
                        request_url,
                        None,
                        response,
                    );
                    match r {
                        BodyVerdict::Passed => faults.len() == 0,
                        BodyVerdict::Failed(list) => {
                            &&& faults.len() > 0
                            &&& list@.len() == faults.len()
                            &&& forall|i: int|
                                0 <= i < list@.len() ==> (#[trigger] list@[i]).0 == error_id(
                                    faults[i],
                                ) && list@[i].1@ == error_label(faults[i])
                        },
                        _ => false,
                    }
                },
            }
        },
    }
}

pub open spec fn parsed_view(body: Option<Result<Json, String>>) -> Option<
    Result<JsonView, Seq<char>>,
> {
    match body {
        None => None,
        Some(Ok(value)) => Some(Ok(value@)),
        Some(Err(text)) => Some(Err(text@)),
    }
}

/// The checks of a body can be made: there is nothing to check, or each check can be made.
pub open spec fn body_checkable(
    assertions: ResponseAssertion,
    request_url: UriView,
    parsed: Option<Result<JsonView, Seq<char>>>,
) -> bool {
    parsed matches Some(Ok(_)) ==> all_checkable(assertions.assertions@, request_url, None)
}

/// What the bytes of a body denote, where they could be read.
pub open spec fn bytes_view(body: Option<&[u8]>) -> Option<Result<JsonView, Seq<char>>> {
    match body {
        Some(bytes) => Some(json_of(bytes@)),
        None => None,
    }
}

/// Checks the body of a response. `body` is none where it could not be read, an error text where
/// it is no JSON.
pub fn check_body(
    assertions: &ResponseAssertion,
    request_url: &UriParts,
    body: Option<Result<Json, String>>,
) -> (r: BodyVerdict)
    requires
        body_checkable(*assertions, request_url@, parsed_view(body)),
    ensures
        body_judged(*assertions, request_url@, parsed_view(body), r),
{
    match body {
        None => BodyVerdict::NotChecked,
        Some(parsed) => {
            if assertions.is_empty() {
                return BodyVerdict::NotChecked;
            }
            match parsed {
                Err(text) => BodyVerdict::Unreadable(text),
                Ok(response) => match assert_response(assertions, request_url, None, &response) {
                    Ok(_) => BodyVerdict::Passed,
                    Err(errors) => {
                        let labels = failure_labels(&errors);
                        proof {
                            let faults = errors_view(errors@);
                            assert forall|i: int| 0 <= i < labels@.len() implies (
                            #[trigger] labels@[i]).0 == error_id(faults[i]) && labels@[i].1@
                                == error_label(faults[i]) by {
                                assert(faults[i] == errors@[i]@);
                            }
                        }
                        BodyVerdict::Failed(labels)
                    },
                },
            }
        },
    }
}

/// Checks the body of a response. `body` is none where it could not be read.
pub fn check_response(
    assertions: &ResponseAssertion,
    request_url: &UriParts,
    body: Option<&[u8]>,
) -> (r: BodyVerdict)
    requires
        body_checkable(*assertions, request_url@, bytes_view(body)),
    ensures
        body_judged(*assertions, request_url@, bytes_view(body), r),
{
    match body {
        Some(bytes) => if assertions.is_empty() {
            BodyVerdict::NotChecked
        } else {
            check_body(assertions, request_url, Some(parse_json(bytes)))
        },
        None => BodyVerdict::NotChecked,
    }
}

/// Checks the body of a response, where its checks can be made.
pub fn try_check_response(
    assertions: &ResponseAssertion,
    request_url: &UriParts,
    body: Option<&[u8]>,
) -> (r: Option<BodyVerdict>)
    ensures
        r is Some == body_checkable(*assertions, request_url@, bytes_view(body)),
        r matches Some(outcome) ==> body_judged(
            *assertions,
            request_url@,
            bytes_view(body),
            outcome,
        ),
{
    let read = match body {
        Some(bytes) => parse_json(bytes).is_ok(),
        None => false,
    };
    if read && !can_assert_response(assertions, request_url, None) {
        None
    } else {
        Some(check_response(assertions, request_url, body))
    }
}

/// The head of a response, or why there is none.
#[derive(Debug)]
pub enum Head {
    /// The status of the response, and the milliseconds that passed since the request began.
    Received { status: String, elapsed: u64 },
    /// Why the request failed.
    Failed(String),
}

/// What is measured when a request is looked at: it counts once, when it begins.
pub open spec fn begin_measures(look: Look) -> Seq<UpdateView> {
    if look.begins {
        seq![counted(Metric::UpstreamRequestCount, Seq::empty())]
    } else {
        Seq::empty()
    }
}

/// What is measured when a request is looked at.
pub fn begin_updates(look: Look) -> (r: Vec<Update>)
    ensures
        measures(r@) == begin_measures(look),
{
    let mut r: Vec<Update> = Vec::new();
    if look.begins {
        let u = Metrics::upstream_request_count(1);
        proof {
            lemma_update(
                u,
                Metric::UpstreamRequestCount,
                Seq::empty(),
                Change::IncrementBy(1),
            );
        }
        r.push(u);
    }
    assert(measures(r@) =~= begin_measures(look));
    r
}

/// What is measured when the head of a response is there: the time that it took and its status; of
/// a request that failed, the reason in place of the status.
pub open spec fn head_measures(head: Head) -> Seq<UpdateView> {
    match head {
        Head::Received { status, elapsed } => seq![
            UpdateView {
                metric: Metric::UpstreamResponseTime,
                labels: seq![status@],
                change: Change::Observe(elapsed),
            },
            counted(Metric::UpstreamRequestStatusCount, seq![status@]),
        ],
        Head::Failed(reason) => seq![counted(Metric::UpstreamRequestStatusCount, seq![reason@])],
    }
}

/// What is measured when the head of a response is there.
pub fn head_updates(head: &Head) -> (r: Vec<Update>)
    ensures
        measures(r@) == head_measures(*head),
{
    let mut r: Vec<Update> = Vec::new();
    match head {
        Head::Received { status, elapsed } => {
            let time = Metrics::upstream_response_time(status.as_str(), *elapsed);
            let count = Metrics::upstream_request_status_count(1, status.as_str());
            proof {
                lemma_update(
                    time,
                    Metric::UpstreamResponseTime,
                    seq![status@],
                    Change::Observe(*elapsed),
                );
                lemma_update(
                    count,
                    Metric::UpstreamRequestStatusCount,
                    seq![status@],
                    Change::IncrementBy(1),
                );
            }
            r.push(time);
            r.push(count);
        },
        Head::Failed(reason) => {
            let count = Metrics::upstream_request_status_count(1, reason.as_str());
            proof {
                lemma_update(
                    count,
                    Metric::UpstreamRequestStatusCount,
                    seq![reason@],
                    Change::IncrementBy(1),
                );
            }
            r.push(count);
        },
    }
    assert(measures(r@) =~= head_measures(*head));
    r
}

/// What is measured of the checks of a body: a body that is no JSON counts once, with the reason;
/// and each check that failed counts, with its label.
pub open spec fn body_measures(outcome: BodyVerdict) -> Seq<UpdateView> {
    match outcome {
        BodyVerdict::Unreadable(reason) => seq![
            counted(Metric::AssertionFailure, seq!["parse_err"@, reason@]),
        ],
        BodyVerdict::Failed(list) => Seq::new(
            list@.len(),
            |i: int|
                counted(
                    Metric::AssertionFailure,
                    seq![decimal_text(list@[i].0 as nat), list@[i].1@],
                ),
        ),
        _ => Seq::empty(),
    }
}

/// What is measured of the checks of a body.
pub fn body_updates(outcome: &BodyVerdict) -> (r: Vec<Update>)
    ensures
        measures(r@) == body_measures(*outcome),
{
    let mut r: Vec<Update> = Vec::new();
    match outcome {
        BodyVerdict::Unreadable(reason) => {
            let u = Metrics::assertion_parse_failure(reason.as_str());
            proof {
                lemma_update(
                    u,
                    Metric::AssertionFailure,
                    seq!["parse_err"@, reason@],
                    Change::IncrementBy(1),
                );
            }
            r.push(u);
        },
        BodyVerdict::Failed(list) => {
            let mut i: usize = 0;
            while i < list.len()
                invariant
                    i <= list@.len(),
                    r@.len() == i,
                    *outcome == BodyVerdict::Failed(*list),
                    forall|j: int|
                        0 <= j < i ==> (#[trigger] r@[j])@ == body_measures(*outcome)[j],
                decreases list@.len() - i,
            {
                let u = Metrics::assertion_failure(list[i].0, list[i].1.as_str());
                proof {
                    lemma_update(
                        u,
                        Metric::AssertionFailure,
                        seq![decimal_text(list@[i as int].0 as nat), list@[i as int].1@],
                        Change::IncrementBy(1),
                    );
                }
                r.push(u);
                i += 1;
            }
        },
        _ => {},
    }
    assert(measures(r@) =~= body_measures(*outcome));
    r
}

/// What is measured of the checks that a Lua function made: each that failed counts, with its reason.
pub open spec fn lua_measures(list: Seq<LuaAssertionResult>) -> Seq<UpdateView>
    decreases list.len(),
{
    if list.len() == 0 {
        Seq::empty()
    } else {
        let before = lua_measures(list.drop_last());
        match list.last().assertion_result {
            Ok(_) => before,
            Err(reason) => before.push(
                counted(
                    Metric::AssertionFailure,
                    seq![decimal_text(list.last().assertion_id as u32 as nat), reason@],
                ),
            ),
        }
    }
}

/// What is measured of the checks that a Lua function made.
pub fn lua_updates(list: &Vec<LuaAssertionResult>) -> (r: Vec<Update>)
    ensures
        measures(r@) == lua_measures(list@),
{
    let mut r: Vec<Update> = Vec::new();
    let mut i: usize = 0;
    assert(list@.take(0) =~= Seq::empty());
    assert(measures(r@) =~= Seq::empty());
    while i < list.len()
        invariant
            i <= list@.len(),
            measures(r@) == lua_measures(list@.take(i as int)),
        decreases list@.len() - i,
    {
        let ghost before = r@;
        proof {
            assert(list@.take(i + 1).drop_last() =~= list@.take(i as int));
            assert(list@.take(i + 1).last() == list@[i as int]);
        }
        let id: u32 = lua_id(list[i].assertion_id);
        if let Err(reason) = &list[i].assertion_result {
            let u = Metrics::assertion_failure(id, reason.as_str());
            proof {
                lemma_update(
                    u,
                    Metric::AssertionFailure,
                    seq![decimal_text(id as nat), reason@],
                    Change::IncrementBy(1),
                );
            }
            r.push(u);
            assert(measures(r@) =~= measures(before).push(u@));
        }
        i += 1;
    }
    assert(list@.take(i as int) =~= list@);
    r
}

/// The id of a check, as the metrics have it.
#[verifier::truncate]
fn lua_id(id: i32) -> (r: u32)
    ensures
        r == id as u32,
{
    id as u32
}

/// What has come when a request is looked at.
pub enum Arrival {
    Nothing,
    /// The head of the response, or why there is none.
    Head(Head),
    /// The body of the response, and what it amounts to.
    Body(BodyVerdict),
}

/// A request after it was looked at, and what it waits for may have come.
pub open spec fn step_from(e: Exchange, arrival: Arrival) -> Exchange {
    match (e.shown().wait, arrival) {
        (Await::Response, Arrival::Head(head)) => e.begun().answered(head is Received),
        _ => e.begun(),
    }
}

/// What is measured when a request is looked at, and what it waits for may have come.
pub open spec fn step_measures(e: Exchange, arrival: Arrival) -> Seq<UpdateView> {
    begin_measures(e.shown()) + (match (e.shown().wait, arrival) {
        (Await::Response, Arrival::Head(head)) => head_measures(head),
        (Await::Body, Arrival::Body(outcome)) => body_measures(outcome),
        _ => Seq::empty(),
    })
}

/// The connection can be handed back: the request failed, or the body of its response came.
pub open spec fn step_ends(e: Exchange, arrival: Arrival) -> bool {
    match (e.shown().wait, arrival) {
        (Await::Response, Arrival::Head(head)) => head is Failed,
        (Await::Body, Arrival::Body(_)) => true,
        (Await::Nothing, _) => true,
        _ => false,
    }
}

/// All that is measured where a request is looked at until the connection can be handed back.
pub open spec fn all_measures(e: Exchange, arrivals: Seq<Arrival>) -> Seq<UpdateView>
    decreases arrivals.len(),
{
    if arrivals.len() == 0 {
        Seq::empty()
    } else if step_ends(e, arrivals[0]) {
        step_measures(e, arrivals[0])
    } else {
        step_measures(e, arrivals[0]) + all_measures(
            step_from(e, arrivals[0]),
            arrivals.skip(1),
        )
    }
}

/// What has come is enough for the connection to be handed back.
pub open spec fn completes(e: Exchange, arrivals: Seq<Arrival>) -> bool
    decreases arrivals.len(),
{
    arrivals.len() > 0 && (step_ends(e, arrivals[0]) || completes(
        step_from(e, arrivals[0]),
        arrivals.skip(1),
    ))
}

/// The first head of a response.
pub open spec fn first_head(arrivals: Seq<Arrival>) -> Option<Head>
    decreases arrivals.len(),
{
    if arrivals.len() == 0 {
        None
    } else {
        match arrivals[0] {
            Arrival::Head(head) => Some(head),
            _ => first_head(arrivals.skip(1)),
        }
    }
}

/// What a request counts under: the status of its response, or why it failed.
pub open spec fn status_of(head: Head) -> Seq<char> {
    match head {
        Head::Received { status, .. } => status@,
        Head::Failed(reason) => reason@,
    }
}

/// The changes of a metric.
pub open spec fn changes_of(list: Seq<UpdateView>, metric: Metric) -> Seq<UpdateView>
    decreases list.len(),
{
    if list.len() == 0 {
        Seq::empty()
    } else {
        let before = changes_of(list.drop_last(), metric);
        if list.last().metric == metric {
            before.push(list.last())
        } else {
            before
        }
    }
}

proof fn lemma_changes_joined(a: Seq<UpdateView>, b: Seq<UpdateView>, metric: Metric)
    ensures
        changes_of(a + b, metric) == changes_of(a, metric) + changes_of(b, metric),
    decreases b.len(),
{
    if b.len() == 0 {
        assert(a + b =~= a);
        assert(changes_of(a, metric) + changes_of(b, metric) =~= changes_of(a, metric));
    } else {
        assert((a + b).drop_last() =~= a + b.drop_last());
        lemma_changes_joined(a, b.drop_last(), metric);
        assert(changes_of(a + b, metric) =~= changes_of(a, metric) + changes_of(b, metric));
    }
}

proof fn lemma_no_changes(list: Seq<UpdateView>, metric: Metric)
    requires
        forall|i: int| 0 <= i < list.len() ==> (#[trigger] list[i]).metric != metric,
    ensures
        changes_of(list, metric) == Seq::<UpdateView>::empty(),
    decreases list.len(),
{
    if list.len() > 0 {
        assert(list.last() == list[list.len() - 1]);
        lemma_no_changes(list.drop_last(), metric);
    }
}

/// The first head of a response counts the request under its status, and nothing else does.
proof fn lemma_changes_of_head(head: Head)
    ensures
        changes_of(head_measures(head), Metric::UpstreamRequestCount) == Seq::<UpdateView>::empty(),
        changes_of(head_measures(head), Metric::UpstreamRequestStatusCount) == seq![
            counted(Metric::UpstreamRequestStatusCount, seq![status_of(head)]),
        ],
{
    let list = head_measures(head);
    lemma_no_changes(list, Metric::UpstreamRequestCount);
    lemma_no_changes(list.drop_last(), Metric::UpstreamRequestStatusCount);
    assert(changes_of(list, Metric::UpstreamRequestStatusCount) =~= seq![
        counted(Metric::UpstreamRequestStatusCount, seq![status_of(head)]),
    ]);
}

/// Once the head of the response is there, the request is not counted any more.
proof fn lemma_counted_before(e: Exchange, arrivals: Seq<Arrival>)
    requires
        e.state == HttpRequestState::ResponseReceived,
    ensures
        changes_of(all_measures(e, arrivals), Metric::UpstreamRequestCount) == Seq::<
            UpdateView,
        >::empty(),
        changes_of(all_measures(e, arrivals), Metric::UpstreamRequestStatusCount) == Seq::<
            UpdateView,
        >::empty(),
    decreases arrivals.len(),
{
    if arrivals.len() > 0 {
        let now = step_measures(e, arrivals[0]);
        lemma_no_changes(now, Metric::UpstreamRequestCount);
        lemma_no_changes(now, Metric::UpstreamRequestStatusCount);
        if !step_ends(e, arrivals[0]) {
            let next = step_from(e, arrivals[0]);
            let later = all_measures(next, arrivals.skip(1));
            lemma_counted_before(next, arrivals.skip(1));
            lemma_changes_joined(now, later, Metric::UpstreamRequestCount);
            lemma_changes_joined(now, later, Metric::UpstreamRequestStatusCount);
        }
    }
}

/// A request that waits for its response is counted under the status of that response.
proof fn lemma_counted_from(e: Exchange, arrivals: Seq<Arrival>)
    requires
        e.state != HttpRequestState::ResponseReceived,
        !e.reading_body,
        completes(e, arrivals),
    ensures
        first_head(arrivals) is Some,
        changes_of(all_measures(e, arrivals), Metric::UpstreamRequestCount) == begin_measures(
            e.shown(),
        ),
        changes_of(all_measures(e, arrivals), Metric::UpstreamRequestStatusCount) == seq![
            counted(
                Metric::UpstreamRequestStatusCount,
                seq![status_of(first_head(arrivals)->0)],
            ),
        ],
    decreases arrivals.len(),
{
    let begin = begin_measures(e.shown());
    let now = step_measures(e, arrivals[0]);
    let next = step_from(e, arrivals[0]);
    let rest = arrivals.skip(1);
    let sent = Metric::UpstreamRequestCount;
    let status = Metric::UpstreamRequestStatusCount;
    lemma_no_changes(begin, status);
    if begin.len() > 0 {
        lemma_no_changes(begin.drop_last(), sent);
    }
    assert(changes_of(begin, sent) =~= begin);
    match arrivals[0] {
        Arrival::Head(head) => {
            assert(now == begin + head_measures(head));
            lemma_changes_of_head(head);
            lemma_changes_joined(begin, head_measures(head), sent);
            lemma_changes_joined(begin, head_measures(head), status);
            if !step_ends(e, arrivals[0]) {
                lemma_counted_before(next, rest);
                lemma_changes_joined(now, all_measures(next, rest), sent);
                lemma_changes_joined(now, all_measures(next, rest), status);
            }
            assert(changes_of(all_measures(e, arrivals), sent) =~= begin);
            assert(changes_of(all_measures(e, arrivals), status) =~= seq![
                counted(status, seq![status_of(head)]),
            ]);
        },
        _ => {
            assert(now =~= begin);
            assert(!step_ends(e, arrivals[0]));
            lemma_counted_from(next, rest);
            lemma_changes_joined(now, all_measures(next, rest), sent);
            lemma_changes_joined(now, all_measures(next, rest), status);
            assert(begin_measures(next.shown()) =~= Seq::empty());
            assert(changes_of(all_measures(e, arrivals), sent) =~= begin);
            assert(changes_of(all_measures(e, arrivals), status) =~= seq![
                counted(status, seq![status_of(first_head(arrivals)->0)]),
            ]);
        },
    }
}

/// From its beginning until its connection is handed back, a request is counted exactly once, and
/// exactly once under a status: that of its response, or why it failed.
pub proof fn lemma_counted_once(arrivals: Seq<Arrival>)
    requires
        completes(
            (Exchange { state: HttpRequestState::Init, reading_body: false }),
            arrivals,
        ),
    ensures
        ({
            let start = Exchange { state: HttpRequestState::Init, reading_body: false };
            let list = all_measures(start, arrivals);
            &&& first_head(arrivals) is Some
            &&& changes_of(list, Metric::UpstreamRequestCount) == seq![
                counted(Metric::UpstreamRequestCount, Seq::empty()),
            ]
            &&& changes_of(list, Metric::UpstreamRequestStatusCount) == seq![
                counted(
                    Metric::UpstreamRequestStatusCount,
                    seq![status_of(first_head(arrivals)->0)],
                ),
            ]
        }),
{
    let start = Exchange { state: HttpRequestState::Init, reading_body: false };
    lemma_counted_from(start, arrivals);
}

/// A request that fails is done with at once: its connection is handed back.
pub proof fn lemma_failure_ends(e: Exchange, reason: String)
    requires
        e.wf(),
        e.state != HttpRequestState::ResponseReceived,
    ensures
        step_ends(e, Arrival::Head(Head::Failed(reason))),
{
}

} // verus!
