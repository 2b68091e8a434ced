//! Laws of the second of a test: what is sent in it, and what is carried on.

use vstd::prelude::*;

use crate::cycle::{
    bundle_size, fill_req_if_less_than_connections, fixed_bundle_size, has_time, sends_any,
    time_remaining, CycleStart, CycleState, Progress, RequestCycle, RequestRing, Supply,
};
use crate::http_req::{req_same, HttpReq};

verus! {

/// A bundle is no larger than the requests, than the connections where there is a number of them,
/// and than what is configured or a hundredth of the requests and one; and it is as large as one of
/// these. So there is something in it where there are requests.
pub proof fn lemma_bundle(requests: u32, connections: u32, configured: u32, r: u32)
    requires
        call_ensures(bundle_size, (requests, connections, configured), r),
    ensures
        r <= requests,
        connections > 0 ==> r <= connections,
        r <= configured || r <= requests / 100 + 1,
        r == requests || (connections > 0 && r == connections) || (r >= configured && r >= requests
            / 100 + 1),
        requests > 0 ==> r > 0,
{
}

/// A bundle of requests that came with the rate is of ten; where there is a number of connections,
/// it is no larger than the requests and the connections, and else as large as that.
pub proof fn lemma_fixed_bundle(count: u32, connections: u32, r: u32)
    requires
        call_ensures(fixed_bundle_size, (count, connections), r),
    ensures
        r <= 10,
        connections == 0 ==> r == 10,
        connections > 0 ==> r <= count && r <= connections && (r == 10 || r == count || r
            == connections),
{
}

/// The numbers of requests that were sent, together.
pub open spec fn total(list: Seq<usize>, n: int) -> int
    decreases n,
{
    if n <= 0 {
        0
    } else {
        total(list, n - 1) + list[n - 1]
    }
}

/// From the start of a cycle to its end: what was sent and what is left are the requests of the
/// cycle; each time no more connections are asked for than are sent together, and than there are
/// requests left, and as many as that; and the cycle is done when everything was sent in time, and
/// given up when the time is over.
pub proof fn lemma_cycle(
    requests: u32,
    bundle: u32,
    start: RequestCycle,
    calls: Seq<&mut RequestCycle>,
    asked: Seq<Option<u32>>,
    sent: Seq<usize>,
    times: Seq<i128>,
    done: Seq<Progress>,
    n: int,
    k: int,
)
    requires
        0 <= k < n,
        calls.len() == n && asked.len() == n && sent.len() == n && times.len() == n && done.len()
            == n,
        call_ensures(RequestCycle::start, (requests, bundle), Some(start)),
        *calls[0] == start,
        forall|i: int|
            #![trigger calls[i]]
            0 < i < n ==> *calls[i] == *final(calls[i - 1]),
        forall|i: int|
            #![trigger calls[i]]
            0 <= i < n ==> call_ensures(RequestCycle::request, (&*calls[i], 0i128), asked[i]),
        forall|i: int| 0 <= i < n ==> #[trigger] asked[i] is Some && sent[i] <= asked[i]->0,
        forall|i: int|
            #![trigger calls[i]]
            0 <= i < n ==> call_ensures(
                RequestCycle::sent,
                (calls[i], sent[i], times[i]),
                done[i],
            ),
    ensures
        0 < requests,
        total(sent, k + 1) <= requests,
        final(calls[k]).left() + total(sent, k + 1) == requests,
        asked[k]->0 <= bundle,
        asked[k]->0 + total(sent, k) <= requests,
        asked[k]->0 == bundle || asked[k]->0 + total(sent, k) == requests,
        done[k] is GiveUp <==> times[k] < 0,
        done[k] is Done <==> times[k] >= 0 && total(sent, k + 1) == requests,
        final(calls[k]).together() == bundle,
    decreases k,
{
    if k > 0 {
        lemma_cycle(requests, bundle, start, calls, asked, sent, times, done, n, k - 1);
        assert(*calls[k] == *final(calls[k - 1]));
    } else {
        assert(total(sent, 0) == 0);
    }
    assert(call_ensures(RequestCycle::request, (&*calls[k], 0i128), asked[k]));
    assert(call_ensures(RequestCycle::sent, (calls[k], sent[k], times[k]), done[k]));
}

/// There is a cycle exactly where there are requests, and connections are asked for exactly as long
/// as there is time.
pub proof fn lemma_cycle_begins(
    requests: u32,
    bundle: u32,
    cycle: Option<RequestCycle>,
    going: RequestCycle,
    time: i128,
    asked: Option<u32>,
    left: u32,
    together: u32,
)
    requires
        call_ensures(RequestCycle::start, (requests, bundle), cycle),
        call_ensures(RequestCycle::request, (&going, time), asked),
        call_ensures(RequestCycle::remaining, (&going,), left),
        call_ensures(RequestCycle::bundle, (&going,), together),
    ensures
        cycle is Some <==> requests > 0,
        asked is Some <==> time >= 0,
        asked matches Some(n) ==> n <= left && n <= together && (n == left || n == together),
{
}

/// With no connection, a cycle asks again; with some, it sends over those; with all that it asked
/// for, it sends as it meant to.
pub proof fn lemma_supply(cycle: RequestCycle, requested: u32, available: usize, r: Supply)
    requires
        call_ensures(RequestCycle::supply, (&cycle, requested, available), r),
    ensures
        r is Full <==> available >= requested,
        r is Retry <==> available == 0 && requested > 0,
        r is Partial <==> 0 < available < requested,
{
}

/// What has passed of a cycle and what is left of it is a second, and there is time as long as a
/// millisecond is left.
pub proof fn lemma_time(elapsed: u64, left: i128, some: bool)
    requires
        call_ensures(time_remaining, (elapsed,), left),
        call_ensures(has_time, (left,), some),
    ensures
        left + elapsed == 1000,
        some <==> elapsed < 1000,
{
}

/// Requests that came with a rate are sent where there are some, and some are to be sent.
pub proof fn lemma_sends(count: u32, requests: usize, r: bool)
    requires
        call_ensures(sends_any, (count, requests), r),
    ensures
        r <==> count != 0 && requests != 0,
{
}

/// Filling up: the requests stay, and behind them they follow again from the first on, over and
/// over, until there are as many more as connections lack one.
pub proof fn lemma_filled(
    connections: usize,
    requests: usize,
    list: &mut Vec<HttpReq>,
)
    requires
        0 < requests <= connections,
        requests <= old(list)@.len(),
        old(list)@.len() + connections - requests <= usize::MAX,
        call_ensures(fill_req_if_less_than_connections, (connections, requests, list), ()),
    ensures
        final(list)@.len() + requests == old(list)@.len() + connections,
        forall|i: int| 0 <= i < old(list)@.len() ==> #[trigger] final(list)@[i] == old(list)@[i],
        ({
            let n = old(list)@.len() as int;
            &&& forall|k: int|
                #![trigger final(list)@[n + k]]
                0 <= k < connections - requests && k < requests ==> req_same(
                    final(list)@[n + k],
                    old(list)@[k],
                )
            &&& forall|k: int|
                #![trigger final(list)@[n + k]]
                requests <= k < connections - requests ==> req_same(
                    final(list)@[n + k],
                    final(list)@[n + k - requests],
                )
        }),
{
    let n = old(list)@.len() as int;
    let m = requests as int;
    let after = final(list)@;
    assert forall|i: int| 0 <= i < n implies #[trigger] after[i] == old(list)@[i] by {
        assert(after.take(n)[i] == after[i]);
    }
    assert forall|k: int| #![trigger after[n + k]] 0 <= k < connections - requests && k
        < requests implies req_same(after[n + k], old(list)@[k]) by {
        vstd::arithmetic::div_mod::lemma_small_mod(k as nat, m as nat);
    }
    assert forall|k: int| #![trigger after[n + k]] requests <= k < connections
        - requests implies req_same(after[n + k], after[n + k - requests]) by {
        let j = k - m;
        assert(req_same(after[n + k], old(list)@[k % m]));
        assert(req_same(after[n + j], old(list)@[j % m]));
        vstd::arithmetic::div_mod::lemma_mod_add_multiples_vanish(j, m);
        assert(k % m == j % m);
    }
}

/// Going round a list of requests: from a fresh place on they come in order, and after as many as
/// there are they come again.
pub proof fn lemma_ring(
    fresh: RequestRing,
    ring: &mut RequestRing,
    requests: Vec<HttpReq>,
    n: usize,
    r: Vec<HttpReq>,
)
    requires
        requests@.len() > 0,
        call_ensures(RequestRing::new, (), fresh),
        *old(ring) == fresh,
        call_ensures(RequestRing::next_n, (ring, &requests, n), r),
    ensures
        r@.len() == n,
        forall|i: int|
            0 <= i < n && i < requests@.len() ==> req_same(#[trigger] r@[i], requests@[i]),
        forall|i: int|
            #![trigger r@[i]]
            requests@.len() <= i < n ==> req_same(r@[i], r@[i - requests@.len()]),
{
    let m = requests@.len() as int;
    assert forall|i: int| 0 <= i < n && i < m implies req_same(#[trigger] r@[i], requests@[i]) by {
        vstd::arithmetic::div_mod::lemma_small_mod(i as nat, m as nat);
    }
    assert forall|i: int| #![trigger r@[i]] m <= i < n implies req_same(r@[i], r@[i - m]) by {
        assert(req_same(r@[i], requests@[i % m]));
        assert(req_same(r@[i - m], requests@[(i - m) % m]));
        vstd::arithmetic::div_mod::lemma_mod_add_multiples_vanish(i - m, m);
    }
}

/// Taking some requests and then some more is taking them together.
pub proof fn lemma_ring_goes_on(
    first: &mut RequestRing,
    second: &mut RequestRing,
    whole: &mut RequestRing,
    requests: Vec<HttpReq>,
    a: usize,
    b: usize,
    x: Vec<HttpReq>,
    y: Vec<HttpReq>,
    r: Vec<HttpReq>,
)
    requires
        old(first).at < requests@.len(),
        a + b <= usize::MAX,
        *old(whole) == *old(first),
        *old(second) == *final(first),
        call_ensures(RequestRing::next_n, (first, &requests, a), x),
        call_ensures(RequestRing::next_n, (second, &requests, b), y),
        call_ensures(RequestRing::next_n, (whole, &requests, (a + b) as usize), r),
    ensures
        r@.len() == x@.len() + y@.len(),
        forall|i: int| 0 <= i < a ==> req_same(#[trigger] r@[i], x@[i]),
        forall|i: int| 0 <= i < b ==> req_same(r@[a + i], #[trigger] y@[i]),
        final(whole).at == final(second).at,
{
    let m = requests@.len() as int;
    let at = old(first).at as int;
    assert forall|i: int| 0 <= i < b implies req_same(r@[a + i], #[trigger] y@[i]) by {
        assert(req_same(r@[a + i], requests@[(at + (a + i)) % m]));
        assert(req_same(y@[i], requests@[((at + a) % m + i) % m]));
        vstd::arithmetic::div_mod::lemma_add_mod_noop(at + a, i, m);
        vstd::arithmetic::div_mod::lemma_add_mod_noop((at + a) % m, i, m);
        vstd::arithmetic::div_mod::lemma_mod_twice(at + a, m);
    }
    vstd::arithmetic::div_mod::lemma_add_mod_noop(at + a, b as int, m);
    vstd::arithmetic::div_mod::lemma_add_mod_noop((at + a) % m, b as int, m);
    vstd::arithmetic::div_mod::lemma_mod_twice(at + a, m);
    assert forall|i: int| 0 <= i < a implies req_same(#[trigger] r@[i], x@[i]) by {
        assert(req_same(x@[i], requests@[(at + i) % m]));
    }
}

/// A cycle that took longer than a second takes the time from the one that follows, and one that
/// did not takes none; and the pool is resized exactly where the number of connections is another
/// than in the cycle before.
pub proof fn lemma_next_cycle(
    before: &mut CycleState,
    ended: &mut CycleState,
    after: &mut CycleState,
    elapsed: u64,
    a: u32,
    b: u32,
    x: CycleStart,
    y: CycleStart,
)
    requires
        old(before).time_offset <= u64::MAX,
        call_ensures(CycleState::begin, (before, a), x),
        *old(ended) == *final(before),
        call_ensures(CycleState::end, (ended, elapsed), ()),
        *old(after) == *final(ended),
        call_ensures(CycleState::begin, (after, b), y),
    ensures
        a == b ==> y.resize is None,
        a != b ==> y.resize == Some(b),
        elapsed <= 1000 ==> y.head_start == 0,
        elapsed > 1000 ==> y.head_start + 1000 == elapsed,
{
}

/// The first cycle of a session starts on time, with a pool that has no size yet.
pub proof fn lemma_first_cycle(
    fresh: CycleState,
    state: &mut CycleState,
    connections: u32,
    r: CycleStart,
)
    requires
        call_ensures(CycleState::new, (), fresh),
        *old(state) == fresh,
        call_ensures(CycleState::begin, (state, connections), r),
    ensures
        r.head_start == 0,
        connections == 0 ==> r.resize is None,
        connections > 0 ==> r.resize == Some(connections),
{
}

} // verus!
