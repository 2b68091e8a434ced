//! Laws of rates: what a schedule gives for a second, and which steps make one.

use vstd::prelude::*;

use crate::generator::{ConcurrentConnectionRateSpec, RateSpecEnum};
use crate::plan_laws::{connections_planned, requests_planned};
use crate::pool::{get_expiry, resize_conn_container, PooledConnection};
use crate::rate_spec::{
    by_start, gap_after, lemma_sorted_steps, sorted_steps, ArraySpec, Bounded, Elastic, Linear, Step,
    StepShadowType, Steps, StepsShadowType,
};

verus! {

/// A schedule gives for every second what it plans for that second, and but for steps it is the
/// same schedule afterwards.
pub proof fn lemma_rates_given(
    requests: &mut RateSpecEnum,
    connections: &mut ConcurrentConnectionRateSpec,
    nth: u32,
    increase: u32,
    sent: u32,
    held: u32,
)
    requires
        !(*old(requests) is Steps),
        !(*old(connections) is Steps),
        call_ensures(RateSpecEnum::next, (requests, nth, increase), sent),
        call_ensures(ConcurrentConnectionRateSpec::next, (connections, nth, increase), held),
    ensures
        requests_planned(*old(requests), nth as int, increase, sent),
        connections_planned(Some(*old(connections)), nth as int, increase, held),
        *final(requests) == *old(requests),
        *final(connections) == *old(connections),
{
}

/// A linear schedule begins with what it starts with, grows by what it is told, and stops at its
/// cap.
pub proof fn lemma_linear(spec: Linear, increase: u32, more: u32, r: u32, later: u32)
    requires
        increase <= more,
        call_ensures(Linear::rate, (&spec, increase), r),
        call_ensures(Linear::rate, (&spec, more), later),
    ensures
        r <= later <= spec.max,
        increase == 0 && spec.b <= spec.max ==> r == spec.b,
        later < spec.max ==> later - r == more - increase,
{
}

/// What schedules are where nothing is said of them.
pub proof fn lemma_schedule_defaults(
    counts: Vec<u32>,
    list: ArraySpec,
    bounded: Bounded,
    elastic: Elastic,
)
    requires
        call_ensures(ArraySpec::new, (counts,), list),
        call_ensures(Bounded::default, (), bounded),
        call_ensures(Elastic::default, (), elastic),
    ensures
        list.count_per_sec@ == counts@,
        bounded.max == 500,
        elastic.max == 65535,
{
}

/// A step is one exactly where it ends after it starts.
pub proof fn lemma_step_accepted(value: StepShadowType, r: Result<Step, String>)
    requires
        call_ensures(Step::try_from, (value,), r),
    ensures
        r is Ok <==> value.start < value.end,
        r matches Ok(s) ==> s.start == value.start && s.end == value.end && s.rate == value.rate,
{
}

/// Steps one after the other from second zero on, without gaps.
pub open spec fn seamless(steps: Seq<Step>) -> bool {
    &&& steps.len() > 1
    &&& steps[0].start == 0
    &&& forall|i: int| 0 <= i < steps.len() ==> (#[trigger] steps[i]).start < steps[i].end
    &&& forall|i: int, j: int|
        #![trigger steps[i], steps[j]]
        0 <= i && j == i + 1 && j < steps.len() ==> steps[i].end + 1 == steps[j].start
}

proof fn lemma_strict(steps: Seq<Step>, i: int, j: int)
    requires
        seamless(steps),
        0 <= i < j < steps.len(),
    ensures
        steps[i].start < steps[j].start,
    decreases j - i,
{
    assert(steps[j - 1].start < steps[j - 1].end);
    assert(steps[j - 1].end + 1 == steps[j].start);
    if i < j - 1 {
        lemma_strict(steps, i, j - 1);
    }
}

/// Steps in order are in no other order.
proof fn lemma_one_order(a: Seq<Step>, b: Seq<Step>)
    requires
        by_start(a),
        forall|i: int, j: int| 0 <= i < j < b.len() ==> #[trigger] b[i].start < #[trigger] b[j].start,
        a.to_multiset() == b.to_multiset(),
    ensures
        a == b,
    decreases b.len(),
{
    broadcast use vstd::seq_lib::group_to_multiset_ensures;

    assert(a.len() == a.to_multiset().len());
    assert(b.len() == b.to_multiset().len());
    if b.len() == 0 {
        assert(a =~= b);
    } else {
        let x = a.last();
        let y = b.last();
        assert(b.contains(y)) by {
            assert(b[b.len() - 1] == y);
        }
        assert(a.contains(x)) by {
            assert(a[a.len() - 1] == x);
        }
        assert(b.to_multiset().count(y) > 0);
        assert(a.contains(y));
        assert(b.to_multiset().count(x) > 0);
        assert(b.contains(x));
        let k = choose|k: int| 0 <= k < a.len() && a[k] == y;
        let m = choose|m: int| 0 <= m < b.len() && b[m] == x;
        assert(y.start <= x.start) by {
            if k < a.len() - 1 {
                assert(a[k].start <= a[a.len() - 1].start);
            }
        }
        if m < b.len() - 1 {
            assert(b[m].start < b[b.len() - 1].start);
        }
        assert(x == y);
        let p = a.drop_last();
        let q = b.drop_last();
        assert(p.push(x) =~= a);
        assert(q.push(y) =~= b);
        assert(p.push(x).to_multiset() =~= p.to_multiset().insert(x));
        assert(q.push(y).to_multiset() =~= q.to_multiset().insert(y));
        assert forall|v: Step| p.to_multiset().count(v) == q.to_multiset().count(v) by {
            assert(p.push(x).to_multiset().count(v) == q.push(y).to_multiset().count(v));
        }
        assert(p.to_multiset() =~= q.to_multiset());
        assert forall|i: int, j: int| 0 <= i < j < p.len() implies (#[trigger] p[i]).start <= (
        #[trigger] p[j]).start by {
            assert(a[i].start <= a[j].start);
        }
        assert forall|i: int, j: int| 0 <= i < j < q.len() implies #[trigger] q[i].start
            < #[trigger] q[j].start by {
            assert(b[i].start < b[j].start);
        }
        lemma_one_order(p, q);
        assert(a =~= b);
    }
}

proof fn lemma_no_gap(steps: Seq<Step>, i: int)
    requires
        seamless(steps),
        0 <= i,
    ensures
        gap_after(steps, i) is None,
    decreases steps.len() - i,
{
    if i + 1 < steps.len() {
        assert(steps[i].end + 1 == steps[i + 1].start);
        lemma_no_gap(steps, i + 1);
    }
}

/// Steps that follow each other without gaps from second zero on are accepted, in whatever order
/// they are given, and put in order.
pub proof fn lemma_steps_put_in_order(
    given: StepsShadowType,
    steps: Seq<Step>,
    checkable: bool,
    r: Result<Steps, String>,
)
    requires
        seamless(steps),
        given.steps@.to_multiset() == steps.to_multiset(),
        call_ensures(StepsShadowType::is_checkable, (&given,), checkable),
        call_ensures(Steps::try_from, (given,), r),
    ensures
        checkable,
        r is Ok,
        r->Ok_0.steps@ == steps,
        r->Ok_0.current_step == 0,
{
    broadcast use vstd::seq_lib::group_to_multiset_ensures;

    assert(given.steps@.len() == steps.len()) by {
        assert(given.steps@.len() == given.steps@.to_multiset().len());
        assert(steps.len() == steps.to_multiset().len());
    }
    lemma_sorted_steps(given.steps@);
    assert forall|i: int, j: int| 0 <= i < j < steps.len() implies #[trigger] steps[i].start
        < #[trigger] steps[j].start by {
        lemma_strict(steps, i, j);
    }
    lemma_one_order(sorted_steps(given.steps@), steps);
    lemma_no_gap(steps, 0);
    assert forall|i: int| 0 <= i < steps.len() - 1 implies (#[trigger] steps[i]).end < u32::MAX by {
        assert(steps[i].end + 1 == steps[i + 1].start);
    }
}

/// One step alone, or none, makes no schedule.
pub proof fn lemma_too_few_steps(given: StepsShadowType, r: Result<Steps, String>)
    requires
        given.steps@.len() < 2,
        call_ensures(Steps::try_from, (given,), r),
    ensures
        r is Err,
        given.steps@.len() == 0 ==> r->Err_0@ == "No steps found."@,
        given.steps@.len() == 1 ==> r->Err_0@
            == "Need more than one step. Use ConstantQPS for single step."@,
{
}

/// Steps in order that leave a gap, or that do not begin at second zero, make no schedule: the first
/// gap is told, by where a step ends and where the next one starts.
pub proof fn lemma_gap_told(
    given: StepsShadowType,
    i: int,
    end: String,
    wanted: String,
    start: String,
    r: Result<Steps, String>,
)
    requires
        given.steps@.len() > 1,
        by_start(given.steps@),
        given.steps@[0].start == 0,
        0 <= i < given.steps@.len() - 1,
        forall|j: int, k: int|
            #![trigger given.steps@[j], given.steps@[k]]
            0 <= j < i && k == j + 1 ==> given.steps@[j].end + 1 == given.steps@[k].start,
        given.steps@[i].end + 1 != given.steps@[i + 1].start,
        call_ensures(crate::text::decimal, (given.steps@[i].end as u64,), end),
        call_ensures(crate::text::decimal, ((given.steps@[i].end + 1) as u64,), wanted),
        call_ensures(crate::text::decimal, (given.steps@[i + 1].start as u64,), start),
        call_ensures(Steps::try_from, (given,), r),
    ensures
        r is Err,
        r->Err_0@ == "Steps are not continuous. An step ends at "@ + end@
            + " but next step should start at "@ + wanted@ + ", but starts at "@ + start@,
{
    lemma_already_sorted(given.steps@);
    lemma_gap_found(given.steps@, 0, i);
}

proof fn lemma_already_sorted(steps: Seq<Step>)
    requires
        by_start(steps),
    ensures
        sorted_steps(steps) == steps,
    decreases steps.len(),
{
    if steps.len() > 0 {
        let front = steps.drop_last();
        assert forall|i: int, j: int| 0 <= i < j < front.len() implies (#[trigger] front[i]).start
            <= (#[trigger] front[j]).start by {
            assert(steps[i].start <= steps[j].start);
        }
        lemma_already_sorted(front);
        if front.len() > 0 {
            assert(steps[front.len() - 1].start <= steps[steps.len() - 1].start);
        }
        assert(front.insert(front.len() as int, steps.last()) =~= steps);
    } else {
        assert(steps =~= Seq::empty());
    }
}

proof fn lemma_gap_found(steps: Seq<Step>, from: int, i: int)
    requires
        0 <= from <= i < steps.len() - 1,
        forall|j: int, k: int|
            #![trigger steps[j], steps[k]]
            0 <= j < i && k == j + 1 ==> steps[j].end + 1 == steps[k].start,
        steps[i].end + 1 != steps[i + 1].start,
    ensures
        gap_after(steps, from) == gap_after(steps, i),
    decreases i - from,
{
    if from < i {
        assert(steps[from].end + 1 == steps[from + 1].start);
        lemma_gap_found(steps, from + 1, i);
    }
}

/// Steps that begin later than at second zero make no schedule.
pub proof fn lemma_late_start(given: StepsShadowType, first: String, r: Result<Steps, String>)
    requires
        given.steps@.len() > 1,
        by_start(given.steps@),
        given.steps@[0].start > 0,
        call_ensures(crate::text::decimal, (given.steps@[0].start as u64,), first),
        call_ensures(Steps::try_from, (given,), r),
    ensures
        r is Err,
        r->Err_0@ == "Steps should start from 0, but starts from "@ + first@ + " instead."@,
{
    lemma_already_sorted(given.steps@);
}

/// A step that does not end after it starts is refused, and both seconds are told.
pub proof fn lemma_step_refused(
    value: StepShadowType,
    start: String,
    end: String,
    r: Result<Step, String>,
)
    requires
        value.start >= value.end,
        call_ensures(crate::text::decimal, (value.start as u64,), start),
        call_ensures(crate::text::decimal, (value.end as u64,), end),
        call_ensures(Step::try_from, (value,), r),
    ensures
        r is Err,
        r->Err_0@ == "start("@ + start@ + ") can not be greater than or equal to end("@ + end@
            + ")"@,
{
}

/// A connection expires after its time, and never before now.
pub proof fn lemma_expiry(now: u64, ttl: u32, r: u64)
    requires
        call_ensures(get_expiry, (now, ttl), r),
    ensures
        now <= r,
        now + ttl <= 0xffff_ffff_ffff_ffff ==> r - now == ttl,
        now + ttl > 0xffff_ffff_ffff_ffff ==> r == 0xffff_ffff_ffff_ffff,
{
}

/// Connections are removed from the end, as many as asked for where there are as many, and those
/// that stay are as they were.
pub proof fn lemma_removed(container: &mut Vec<PooledConnection>, n: usize, r: usize)
    requires
        call_ensures(resize_conn_container, (container, n), r),
    ensures
        r <= n && r <= old(container)@.len(),
        r == n || r == old(container)@.len(),
        final(container)@.len() == old(container)@.len() - r,
        final(container)@.is_prefix_of(old(container)@),
{
    assert(final(container)@ =~= old(container)@.subrange(0, final(container)@.len() as int));
}

} // verus!
