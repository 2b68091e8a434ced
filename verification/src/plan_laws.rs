//! Laws of plans: what a test sends and holds in each of its seconds, from the first to the last.

use vstd::prelude::*;

use crate::generator::{ConcurrentConnectionRateSpec, RateSpecEnum, RequestGenerator};
use crate::http_api::Target;
use crate::rate_spec::{
    lemma_accepted_steps, lemma_sorted_steps, lemma_steps_walk, step_of, steps_wf, ArraySpec,
    ConstantRate, Linear, Step, Steps, StepsShadowType,
};
use crate::response_assert::ResponseAssertion;

verus! {

/// The same rate in every second.
pub open spec fn constantly(s: ConstantRate, r: u32) -> bool {
    r == s.count_per_sec
}

/// The numbers of a list, one after the other and over and over; zero where there are none.
pub open spec fn from_list(s: ArraySpec, second: int, r: u32) -> bool {
    &&& s.count_per_sec@.len() == 0 ==> r == 0
    &&& s.count_per_sec@.len() > 0 ==> r == s.count_per_sec@[second % (
    s.count_per_sec@.len() as int)]
}

/// What the schedule starts with, and what it has grown by; but no more than the cap.
pub open spec fn growing(s: Linear, increase: u32, r: u32) -> bool {
    &&& r <= s.max
    &&& r <= s.b + increase
    &&& r == s.max || r == s.b + increase
}

/// The rate of the step that the second lies in; behind the last step its rate.
pub open spec fn by_steps(steps: Seq<Step>, second: int, r: u32) -> bool {
    &&& forall|j: int|
        0 <= j < steps.len() && (#[trigger] steps[j]).start <= second <= steps[j].end ==> r
            == steps[j].rate
    &&& second > steps.last().end ==> r == steps.last().rate
}

/// A schedule of steps is one that was accepted, and has not begun.
pub open spec fn fresh_steps(s: Steps) -> bool {
    steps_wf(s.steps@) && s.current_step == 0
}

/// The requests of a second are as a schedule plans them.
pub open spec fn requests_planned(s: RateSpecEnum, second: int, increase: u32, r: u32) -> bool {
    match s {
        RateSpecEnum::ConstantRate(s) => constantly(s, r),
        RateSpecEnum::ArraySpec(s) => from_list(s, second, r),
        RateSpecEnum::Linear(s) => growing(s, increase, r),
        RateSpecEnum::Steps(s) => by_steps(s.steps@, second, r),
    }
}

/// The connections of a second are as a schedule plans them. An elastic pool has no number; nor
/// has one for which there is no schedule.
pub open spec fn connections_planned(
    s: Option<ConcurrentConnectionRateSpec>,
    second: int,
    increase: u32,
    r: u32,
) -> bool {
    match s {
        None => r == 0,
        Some(ConcurrentConnectionRateSpec::ConstantRate(s)) => constantly(s, r),
        Some(ConcurrentConnectionRateSpec::ArraySpec(s)) => from_list(s, second, r),
        Some(ConcurrentConnectionRateSpec::Linear(s)) => growing(s, increase, r),
        Some(ConcurrentConnectionRateSpec::Steps(s)) => by_steps(s.steps@, second, r),
        Some(ConcurrentConnectionRateSpec::Elastic(_)) => r == 0,
        Some(ConcurrentConnectionRateSpec::Bounded(s)) => r == s.max,
    }
}

/// Steps that were asked for `second` seconds.
spec fn steps_at(now: Steps, first: Steps, second: int) -> bool {
    &&& now.steps@ == first.steps@
    &&& now.current_step as int == step_of(
        first.steps@,
        if second == 0 {
            0
        } else {
            second - 1
        },
    )
}

spec fn requests_at(now: RateSpecEnum, first: RateSpecEnum, second: int) -> bool {
    match (now, first) {
        (RateSpecEnum::Steps(a), RateSpecEnum::Steps(b)) => steps_at(a, b, second),
        _ => now == first && !(first is Steps),
    }
}

spec fn connections_at(
    now: ConcurrentConnectionRateSpec,
    first: Option<ConcurrentConnectionRateSpec>,
    second: int,
) -> bool {
    match (now, first) {
        (_, None) => now is Elastic,
        (
            ConcurrentConnectionRateSpec::Steps(a),
            Some(ConcurrentConnectionRateSpec::Steps(b)),
        ) => steps_at(a, b, second),
        (_, Some(first)) => now == first && !(first is Steps),
    }
}

proof fn lemma_first_step(steps: Seq<Step>)
    requires
        steps_wf(steps),
    ensures
        step_of(steps, 0) == 0,
{
    lemma_prefix(steps, steps.len() as int);
    assert(steps.take(steps.len() as int) =~= steps);
}

proof fn lemma_prefix(steps: Seq<Step>, n: int)
    requires
        steps_wf(steps),
        1 <= n <= steps.len(),
    ensures
        step_of(steps.take(n), 0) == 0,
    decreases n,
{
    if n > 1 {
        lemma_prefix(steps, n - 1);
        assert(steps.take(n).drop_last() =~= steps.take(n - 1));
        assert(steps.take(n).last() == steps[n - 1]);
        assert(steps[n - 2].end + 1 == steps[n - 1].start);
    }
}

proof fn lemma_in_order(steps: Seq<Step>, i: int, j: int)
    requires
        steps_wf(steps),
        0 <= i < j < steps.len(),
    ensures
        steps[i].end < steps[j].start,
    decreases j - i,
{
    assert(steps[j - 1].end + 1 == steps[j].start);
    if i < j - 1 {
        lemma_in_order(steps, i, j - 1);
    }
}

proof fn lemma_step_holds(steps: Seq<Step>, n: int, second: int)
    requires
        steps_wf(steps),
        1 <= n <= steps.len(),
        second >= 0,
    ensures
        0 <= step_of(steps.take(n), second) < n,
        steps[step_of(steps.take(n), second)].start <= second,
        step_of(steps.take(n), second) + 1 < n ==> second < steps[step_of(steps.take(n), second)
            + 1].start,
    decreases n,
{
    if n > 1 {
        assert(steps.take(n).drop_last() =~= steps.take(n - 1));
        assert(steps.take(n).last() == steps[n - 1]);
        lemma_step_holds(steps, n - 1, second);
    }
}

/// The step that a second is looked up in gives it the rate of the step that it lies in.
proof fn lemma_step_rate(steps: Seq<Step>, second: int)
    requires
        steps_wf(steps),
        second >= 0,
    ensures
        0 <= step_of(steps, second) < steps.len(),
        by_steps(steps, second, steps[step_of(steps, second)].rate),
{
    let n = steps.len() as int;
    assert(steps.take(n) =~= steps);
    lemma_step_holds(steps, n, second);
    let i = step_of(steps, second);
    assert forall|j: int|
        0 <= j < steps.len() && (#[trigger] steps[j]).start <= second
            <= steps[j].end implies steps[i].rate == steps[j].rate by {
        if i < j {
            lemma_in_order(steps, i, j);
            if i + 1 < j {
                lemma_in_order(steps, i + 1, j);
            }
        }
        if j < i {
            lemma_in_order(steps, j, i);
        }
    }
    if second > steps.last().end && i < n - 1 {
        lemma_in_order(steps, i, n - 1);
        if i + 1 < n - 1 {
            lemma_in_order(steps, i + 1, n - 1);
        }
    }
}

/// A test as it goes on: the first call asks the plan as it was made, and each of the others what
/// the call before left of it.
#[verifier::rlimit(40)]
proof fn lemma_plan_to(
    duration: u32,
    shared: bool,
    requests: RateSpecEnum,
    target: Target,
    connections: Option<ConcurrentConnectionRateSpec>,
    checks: Option<ResponseAssertion>,
    made: RequestGenerator,
    calls: Seq<&mut RequestGenerator>,
    growth: Seq<(u32, u32)>,
    given: Seq<Option<(u32, u32)>>,
    n: int,
    k: int,
)
    requires
        0 <= k < n,
        calls.len() == n,
        growth.len() == n,
        given.len() == n,
        requests matches RateSpecEnum::Steps(s) ==> fresh_steps(s),
        connections matches Some(ConcurrentConnectionRateSpec::Steps(s)) ==> fresh_steps(s),
        call_ensures(
            RequestGenerator::new,
            (duration, shared, requests, target, connections, checks),
            made,
        ),
        n > 0 ==> *calls[0] == made,
        forall|i: int|
            #![trigger calls[i]]
            0 < i < n ==> *calls[i] == *final(calls[i - 1]),
        forall|i: int|
            #![trigger calls[i]]
            0 <= i < n ==> call_ensures(
                RequestGenerator::poll_next,
                (calls[i], growth[i].0, growth[i].1),
                given[i],
            ),
    ensures
        (*calls[k]).seconds() == duration,
        (*calls[k]).count() == (if k <= duration {
            k
        } else {
            duration as int
        }),
        requests_at((*calls[k]).qps(), requests, (*calls[k]).count() as int),
        connections_at((*calls[k]).connections(), connections, (*calls[k]).count() as int),
    decreases k,
{
    if k == 0 {
        if let RateSpecEnum::Steps(s) = requests {
            lemma_first_step(s.steps@);
        }
        if let Some(ConcurrentConnectionRateSpec::Steps(s)) = connections {
            lemma_first_step(s.steps@);
        }
    } else {
        let i = k - 1;
        lemma_plan_to(
            duration,
            shared,
            requests,
            target,
            connections,
            checks,
            made,
            calls,
            growth,
            given,
            n,
            i,
        );
        let before = *calls[i];
        if i < duration {
            assert(before.remaining() > 0);
            if let RateSpecEnum::Steps(s) = before.qps() {
                lemma_steps_walk(s, before.count());
            }
            if let ConcurrentConnectionRateSpec::Steps(s) = before.connections() {
                lemma_steps_walk(s, before.count());
            }
        } else {
            assert(before.remaining() == 0);
        }
    }
}

/// Over a whole test: it gives rates for each of its seconds and for no other, in every second the
/// requests that its schedule of requests plans for it, and the connections that its schedule of
/// connections plans. (`growth` is what linear schedules have grown by, second by second.)
pub proof fn lemma_plan(
    duration: u32,
    shared: bool,
    requests: RateSpecEnum,
    target: Target,
    connections: Option<ConcurrentConnectionRateSpec>,
    checks: Option<ResponseAssertion>,
    made: RequestGenerator,
    calls: Seq<&mut RequestGenerator>,
    growth: Seq<(u32, u32)>,
    given: Seq<Option<(u32, u32)>>,
    n: int,
)
    requires
        0 <= n,
        calls.len() == n,
        growth.len() == n,
        given.len() == n,
        requests matches RateSpecEnum::Steps(s) ==> fresh_steps(s),
        connections matches Some(ConcurrentConnectionRateSpec::Steps(s)) ==> fresh_steps(s),
        call_ensures(
            RequestGenerator::new,
            (duration, shared, requests, target, connections, checks),
            made,
        ),
        n > 0 ==> *calls[0] == made,
        forall|i: int|
            #![trigger calls[i]]
            0 < i < n ==> *calls[i] == *final(calls[i - 1]),
        forall|i: int|
            #![trigger calls[i]]
            0 <= i < n ==> call_ensures(
                RequestGenerator::poll_next,
                (calls[i], growth[i].0, growth[i].1),
                given[i],
            ),
    ensures
        forall|i: int| 0 <= i < n ==> (#[trigger] given[i] is Some <==> i < duration),
        forall|i: int|
            0 <= i < n && i < duration ==> requests_planned(
                requests,
                i,
                growth[i].0,
                ((#[trigger] given[i])->0).0,
            ),
        forall|i: int|
            0 <= i < n && i < duration ==> connections_planned(
                connections,
                i,
                growth[i].1,
                ((#[trigger] given[i])->0).1,
            ),
{
    assert forall|i: int| 0 <= i < n implies {
        &&& #[trigger] given[i] is Some <==> i < duration
        &&& i < duration ==> requests_planned(requests, i, growth[i].0, (given[i]->0).0)
        &&& i < duration ==> connections_planned(connections, i, growth[i].1, (given[i]->0).1)
    } by {
        lemma_plan_to(
            duration,
            shared,
            requests,
            target,
            connections,
            checks,
            made,
            calls,
            growth,
            given,
            n,
            i,
        );
        let before = *calls[i];
        if i < duration {
            assert(before.remaining() > 0);
            if let RateSpecEnum::Steps(s) = before.qps() {
                lemma_steps_walk(s, before.count());
                lemma_step_rate(s.steps@, i);
            }
            if let ConcurrentConnectionRateSpec::Steps(s) = before.connections() {
                lemma_steps_walk(s, before.count());
                lemma_step_rate(s.steps@, i);
            }
        } else {
            assert(before.remaining() == 0);
        }
    }
}

/// Asking for the requests of a second: no more are asked of a provider than it has, than are sent
/// in that second, and than ten; and as many as that allows. When they are there, the second is
/// over: what is sent is what was planned for it, and the connections are those that are planned
/// for the second that follows.
pub proof fn lemma_batch(
    plan: &mut RequestGenerator,
    available: usize,
    growth: u32,
    asked: Option<usize>,
    filled: &mut RequestGenerator,
    connection_growth: u32,
    r: (u32, u32),
)
    requires
        old(plan).remaining() > 0,
        old(plan).count() < u32::MAX,
        call_ensures(RequestGenerator::begin_batch, (plan, available, growth), asked),
        *old(filled) == *final(plan),
        call_ensures(RequestGenerator::complete_batch, (filled, connection_growth), r),
        !(old(plan).qps() is Steps),
        !(old(plan).connections() is Steps),
    ensures
        asked is Some,
        ({
            let n = asked->0;
            &&& n <= available && n <= r.0 && n <= 10
            &&& n == available || n == r.0 || n == 10
        }),
        requests_planned(old(plan).qps(), old(plan).count() as int, growth, r.0),
        connections_planned(
            Some(old(plan).connections()),
            old(plan).count() + 1,
            connection_growth,
            r.1,
        ),
        final(filled).count() == old(plan).count() + 1,
        final(filled).remaining() == old(plan).remaining() - 1,
{
}

/// A second for which requests are fetched has as many requests as the same second has otherwise,
/// whatever the schedule; a test that is over has none either way.
pub proof fn lemma_batch_as_polled(
    polled: &mut RequestGenerator,
    growth: u32,
    connection_growth: u32,
    given: Option<(u32, u32)>,
    plan: &mut RequestGenerator,
    available: usize,
    asked: Option<usize>,
    filled: &mut RequestGenerator,
    r: (u32, u32),
)
    requires
        *old(plan) == *old(polled),
        call_ensures(RequestGenerator::poll_next, (polled, growth, connection_growth), given),
        call_ensures(RequestGenerator::begin_batch, (plan, available, growth), asked),
        asked is Some ==> *old(filled) == *final(plan) && call_ensures(
            RequestGenerator::complete_batch,
            (filled, connection_growth),
            r,
        ),
    ensures
        asked is Some <==> given is Some,
        given matches Some((requests, _)) ==> {
            &&& r.0 == requests
            &&& final(filled).count() == final(polled).count()
            &&& final(filled).remaining() == final(polled).remaining()
            &&& final(filled).qps() == final(polled).qps()
        },
{
}

/// What is read of a plan is what it was made with, however often it was asked.
pub proof fn lemma_plan_is_kept(
    duration: u32,
    shared: bool,
    requests: RateSpecEnum,
    target: Target,
    connections: Option<ConcurrentConnectionRateSpec>,
    checks: Option<ResponseAssertion>,
    made: RequestGenerator,
    plan: &mut RequestGenerator,
    growth: (u32, u32),
    given: Option<(u32, u32)>,
)
    requires
        call_ensures(
            RequestGenerator::new,
            (duration, shared, requests, target, connections, checks),
            made,
        ),
        *old(plan) == made,
        call_ensures(RequestGenerator::poll_next, (plan, growth.0, growth.1), given),
    ensures
        made.is_shared() == shared && final(plan).is_shared() == shared,
        made.test_target() == target && final(plan).test_target() == target,
        made.checks() == checks && final(plan).checks() == checks,
        made.scale() == 1 && final(plan).scale() == 1,
        made.seconds() == duration && final(plan).seconds() == duration,
{
    made.lemma_kept(final(plan));
}

/// Steps that are accepted are those that were given, each of which ends after it starts: more than
/// one, the first from second zero on, and each from the second on that follows the one before, so
/// that every second up to the last lies in exactly one of them.
pub proof fn lemma_steps_accepted(given: StepsShadowType, s: Steps)
    requires
        forall|i: int|
            0 <= i < given.steps@.len() ==> (#[trigger] given.steps@[i]).start
                < given.steps@[i].end,
        call_ensures(Steps::try_from, (given,), Ok(s)),
    ensures
        fresh_steps(s),
        s.steps@.to_multiset() == given.steps@.to_multiset(),
        s.steps@.len() > 1,
        s.steps@[0].start == 0,
        forall|i: int|
            #![trigger s.steps@[i]]
            0 <= i < s.steps@.len() - 1 ==> s.steps@[i].end + 1 == s.steps@[i + 1].start,
{
    lemma_accepted_steps(given.steps@);
    lemma_sorted_steps(given.steps@);
    assert forall|i: int|
        #![trigger s.steps@[i]]
        0 <= i < s.steps@.len() - 1 implies s.steps@[i].end + 1 == s.steps@[i + 1].start by {}
}

} // verus!
