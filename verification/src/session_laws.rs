//! Laws of the conversation between the node that plans a test and the nodes that run it.

use vstd::prelude::*;

use crate::session::{
    check_for_metadata_msg, delivery_result, introduction, pool_returned, pool_source,
    unknown_nodes, IntroStep, MessageFromPrimary, Metadata, PoolDisposal, PoolNotice, PoolSource,
    PrimaryLoop, PrimaryTick, Reception, RequestWait, RequestWaitStep, Session, SessionStep,
    StandaloneLoop,
};

verus! {

/// The planning node first says who it is, then sends the test, and gives up where the first could
/// not be sent, for the same reason.
pub proof fn lemma_introduced(sent: Option<Result<(), String>>, r: IntroStep)
    requires
        call_ensures(introduction, (sent,), r),
    ensures
        r is SendMetadata <==> sent is None,
        r is SendRequest <==> sent is Some && sent->0 is Ok,
        r matches IntroStep::GiveUp(e) ==> sent is Some && sent->0 == Err::<(), String>(e),
{
}

/// A node learns who planned the test from the message that says so, and from no other.
pub proof fn lemma_metadata<R>(received: Reception<R>, r: Result<Metadata, String>)
    requires
        call_ensures(check_for_metadata_msg::<R>, (received,), r),
    ensures
        r matches Ok(m) ==> received == Reception::<R>::Message(MessageFromPrimary::Metadata(m)),
        received matches Reception::Message(m) ==> m is Metadata ==> r is Ok,
        received matches Reception::Failed(text) ==> r == Err::<Metadata, String>(text),
        received matches Reception::TimedOut(text) ==> r == Err::<Metadata, String>(text),
        received is Closed ==> r->Err_0@ == "No message received"@,
        received matches Reception::Message(m) ==> !(m is Metadata) ==> r->Err_0@
            == "Expected MessageFromPrimary::Metadata, but didn't receive"@,
{
}

/// A test is received where it comes first, or after one reset. A second reset ends the wait, as
/// does anything else.
pub proof fn lemma_request_wait<R>(
    made: RequestWait,
    first: &mut RequestWait,
    one: Reception<R>,
    step: RequestWaitStep<R>,
    second: &mut RequestWait,
    two: Reception<R>,
    last: RequestWaitStep<R>,
)
    requires
        call_ensures(RequestWait::new, (), made),
        *old(first) == made,
        call_ensures(RequestWait::check_for_request_msg::<R>, (first, one), step),
        *old(second) == *final(first),
        call_ensures(RequestWait::check_for_request_msg::<R>, (second, two), last),
    ensures
        step is Again <==> one == Reception::<R>::Message(MessageFromPrimary::Reset),
        !(last is Again),
        step matches RequestWaitStep::Received(q) ==> one == Reception::Message(
            MessageFromPrimary::Request(q),
        ),
        last matches RequestWaitStep::Received(q) ==> two == Reception::Message(
            MessageFromPrimary::Request(q),
        ),
        one matches Reception::Message(m) ==> m is Request ==> step is Received,
        two matches Reception::Message(m) ==> m is Request ==> last is Received,
        two matches Reception::Message(m) ==> m is Reset ==> last is Failed && last->Failed_0@
            == "No message received"@,
        one is Closed ==> step is Failed && step->Failed_0@ == "No message received"@,
        one matches Reception::Failed(text) ==> step == RequestWaitStep::<R>::Failed(text),
        one matches Reception::TimedOut(text) ==> step == RequestWaitStep::<R>::Failed(text),
        one matches Reception::Message(m) ==> !(m is Request || m is Reset)
            ==> step is Failed && step->Failed_0@
            == "Expected MessageFromPrimary::Request|Reset, but didn't receive"@,
{
}

/// The primary node says that a test ends.
pub open spec fn says_end<R>(received: Reception<R>) -> bool {
    received matches Reception::Message(m) && (m is Stop || m is Finished)
}

/// Over a whole conversation: a node runs what it is told, prepares what it is sent and leaves
/// when the connection ends or the primary node says so. Connections are kept exactly where a
/// reception failed, and discarded exactly where none did and the primary node ended the test. A
/// reset lasts until the next test.
pub proof fn lemma_session<R>(
    made: Session,
    received: Seq<Reception<R>>,
    calls: Seq<&mut Session>,
    steps: Seq<SessionStep<R>>,
    disposal: PoolDisposal,
    k: nat,
)
    requires
        call_ensures(Session::new, (), made),
        received.len() == calls.len() == steps.len(),
        k < calls.len(),
        *calls[0] == made,
        forall|i: int, j: int|
            #![trigger calls[i], calls[j]]
            0 <= i && j == i + 1 && j < calls.len() ==> *calls[j] == *final(calls[i]),
        forall|i: int|
            #![trigger calls[i]]
            0 <= i < calls.len() ==> call_ensures(
                Session::on_reception::<R>,
                (calls[i], received[i]),
                steps[i],
            ),
        call_ensures(Session::disposal, (&*final(calls[k as int]),), disposal),
    ensures
        ({
            let now = received[k as int];
            let after = *final(calls[k as int]);
            let failed = exists|i: int| 0 <= i <= k && #[trigger] received[i] is Failed;
            let ended = exists|i: int| 0 <= i <= k && says_end(#[trigger] received[i]);
            &&& disposal == PoolDisposal::Keep <==> failed
            &&& disposal == PoolDisposal::Discard <==> ended && !failed
            &&& steps[k as int] is Leave <==> now is Failed || now is Closed || says_end(now)
            &&& steps[k as int] matches SessionStep::Run(rate) ==> now == Reception::<R>::Message(
                MessageFromPrimary::Rates(rate),
            )
            &&& steps[k as int] matches SessionStep::Prepare(q) ==> now == Reception::Message(
                MessageFromPrimary::Request(q),
            )
            &&& now matches Reception::Message(m) ==> m is Rates ==> steps[k as int] is Run
            &&& now matches Reception::Message(m) ==> m is Request ==> steps[k as int] is Prepare
            &&& now matches Reception::Message(m) ==> m is Request ==> !after.reset
            &&& now matches Reception::Message(m) ==> m is Reset ==> after.reset
            &&& !(now matches Reception::Message(m) && (m is Request || m is Reset)) ==> after.reset
                == calls[k as int].reset
        }),
{
    lemma_session_flags(made, received, calls, steps, k);
}

#[verifier::rlimit(40)]
proof fn lemma_session_flags<R>(
    made: Session,
    received: Seq<Reception<R>>,
    calls: Seq<&mut Session>,
    steps: Seq<SessionStep<R>>,
    k: nat,
)
    requires
        call_ensures(Session::new, (), made),
        received.len() == calls.len() == steps.len(),
        k < calls.len(),
        *calls[0] == made,
        forall|i: int, j: int|
            #![trigger calls[i], calls[j]]
            0 <= i && j == i + 1 && j < calls.len() ==> *calls[j] == *final(calls[i]),
        forall|i: int|
            #![trigger calls[i]]
            0 <= i < calls.len() ==> call_ensures(
                Session::on_reception::<R>,
                (calls[i], received[i]),
                steps[i],
            ),
    ensures
        call_ensures(
            Session::on_reception::<R>,
            (calls[k as int], received[k as int]),
            steps[k as int],
        ),
        final(calls[k as int]).error_exit <==> exists|i: int|
            0 <= i <= k && #[trigger] received[i] is Failed,
        final(calls[k as int]).stop || final(calls[k as int]).finish <==> exists|i: int|
            0 <= i <= k && says_end(#[trigger] received[i]),
    decreases k,
{
    let n = k as int;
    assert(call_ensures(Session::on_reception::<R>, (calls[n], received[n]), steps[n]));
    let failed = exists|i: int| 0 <= i <= n && #[trigger] received[i] is Failed;
    let ended = exists|i: int| 0 <= i <= n && says_end(#[trigger] received[i]);
    if k > 0 {
        lemma_session_flags(made, received, calls, steps, (k - 1) as nat);
        assert(*calls[n] == *final(calls[n - 1]));
        let failed_before = exists|i: int| 0 <= i <= n - 1 && #[trigger] received[i] is Failed;
        let ended_before = exists|i: int| 0 <= i <= n - 1 && says_end(#[trigger] received[i]);
        assert(failed <==> failed_before || received[n] is Failed);
        assert(ended <==> ended_before || says_end(received[n]));
    } else {
        assert(failed <==> received[0] is Failed);
        assert(ended <==> says_end(received[0]));
    }
}

/// A pool that comes back later is waited for, and it has come back only where it was returned.
pub proof fn lemma_pool_source(later: bool, source: PoolSource, notice: PoolNotice, back: bool)
    requires
        call_ensures(pool_source, (later,), source),
        call_ensures(pool_returned, (notice,), back),
    ensures
        source == PoolSource::AwaitReturn <==> later,
        back <==> notice == PoolNotice::Returned,
{
}

/// The planning node asks whether to stop at the first tick, five and ten ticks later, and then
/// again from the start; it looks for new nodes at the last of them.
pub proof fn lemma_primary_ticks(
    made: PrimaryLoop,
    calls: Seq<&mut PrimaryLoop>,
    ticks: Seq<PrimaryTick>,
    k: nat,
)
    requires
        call_ensures(PrimaryLoop::new, (), made),
        calls.len() == ticks.len(),
        k < calls.len(),
        *calls[0] == made,
        forall|i: int, j: int|
            #![trigger calls[i], calls[j]]
            0 <= i && j == i + 1 && j < calls.len() ==> *calls[j] == *final(calls[i]),
        forall|i: int|
            #![trigger calls[i]]
            0 <= i < calls.len() ==> call_ensures(PrimaryLoop::tick, (calls[i],), ticks[i]),
    ensures
        calls[k as int].counter <= 10,
        ticks[k as int].check_stop <==> k % 11 == 0 || k % 11 == 5 || k % 11 == 10,
        ticks[k as int].refresh <==> k % 11 == 10,
{
    lemma_primary_counter(made, calls, ticks, k);
}

#[verifier::rlimit(40)]
proof fn lemma_primary_counter(
    made: PrimaryLoop,
    calls: Seq<&mut PrimaryLoop>,
    ticks: Seq<PrimaryTick>,
    k: nat,
)
    requires
        call_ensures(PrimaryLoop::new, (), made),
        calls.len() == ticks.len(),
        k < calls.len(),
        *calls[0] == made,
        forall|i: int, j: int|
            #![trigger calls[i], calls[j]]
            0 <= i && j == i + 1 && j < calls.len() ==> *calls[j] == *final(calls[i]),
        forall|i: int|
            #![trigger calls[i]]
            0 <= i < calls.len() ==> call_ensures(PrimaryLoop::tick, (calls[i],), ticks[i]),
    ensures
        calls[k as int].counter == k % 11,
        call_ensures(PrimaryLoop::tick, (calls[k as int],), ticks[k as int]),
    decreases k,
{
    assert(call_ensures(PrimaryLoop::tick, (calls[k as int],), ticks[k as int]));
    if k > 0 {
        lemma_primary_counter(made, calls, ticks, (k - 1) as nat);
        assert(*calls[k as int] == *final(calls[k - 1]));
    }
}

/// A node that works alone asks whether to stop at every fifth tick.
pub proof fn lemma_standalone_ticks(
    made: StandaloneLoop,
    calls: Seq<&mut StandaloneLoop>,
    ticks: Seq<bool>,
    k: nat,
)
    requires
        call_ensures(StandaloneLoop::new, (), made),
        calls.len() == ticks.len(),
        k < calls.len(),
        *calls[0] == made,
        forall|i: int, j: int|
            #![trigger calls[i], calls[j]]
            0 <= i && j == i + 1 && j < calls.len() ==> *calls[j] == *final(calls[i]),
        forall|i: int|
            #![trigger calls[i]]
            0 <= i < calls.len() ==> call_ensures(StandaloneLoop::tick, (calls[i],), ticks[i]),
    ensures
        calls[k as int].counter < 5,
        ticks[k as int] <==> (k + 1) % 5 == 0,
{
    lemma_standalone_counter(made, calls, ticks, k);
}

#[verifier::rlimit(40)]
proof fn lemma_standalone_counter(
    made: StandaloneLoop,
    calls: Seq<&mut StandaloneLoop>,
    ticks: Seq<bool>,
    k: nat,
)
    requires
        call_ensures(StandaloneLoop::new, (), made),
        calls.len() == ticks.len(),
        k < calls.len(),
        *calls[0] == made,
        forall|i: int, j: int|
            #![trigger calls[i], calls[j]]
            0 <= i && j == i + 1 && j < calls.len() ==> *calls[j] == *final(calls[i]),
        forall|i: int|
            #![trigger calls[i]]
            0 <= i < calls.len() ==> call_ensures(StandaloneLoop::tick, (calls[i],), ticks[i]),
    ensures
        calls[k as int].counter == k % 5,
        call_ensures(StandaloneLoop::tick, (calls[k as int],), ticks[k as int]),
    decreases k,
{
    assert(call_ensures(StandaloneLoop::tick, (calls[k as int],), ticks[k as int]));
    if k > 0 {
        lemma_standalone_counter(made, calls, ticks, (k - 1) as nat);
        assert(*calls[k as int] == *final(calls[k - 1]));
    }
}

/// A delivery fails exactly where a node could not be reached, and all such nodes are named.
pub proof fn lemma_delivery(failed: Vec<String>, r: Result<(), Vec<String>>)
    requires
        call_ensures(delivery_result, (failed,), r),
    ensures
        r is Ok <==> failed@ =~= Seq::empty(),
        r matches Err(list) ==> list@ == failed@,
{
}

/// A node is new exactly where no known node has its name. New nodes are listed once, in order.
pub proof fn lemma_new_nodes(known: Vec<String>, nodes: Vec<String>, i: usize, r: Vec<usize>)
    requires
        call_ensures(unknown_nodes, (&known, &nodes), r),
        i < nodes@.len(),
    ensures
        r@.contains(i) <==> forall|j: int|
            0 <= j < known@.len() ==> (#[trigger] known@[j])@ != nodes@[i as int]@,
        forall|k: int, l: int| 0 <= k < l < r@.len() ==> r@[k] < r@[l],
        forall|k: int| 0 <= k < r@.len() ==> r@[k] < nodes@.len(),
{
    let at = i as int;
    assert(at as usize == i);
    if r@.contains(i) {
        let k = choose|k: int| 0 <= k < r@.len() && r@[k] == i;
        assert(!crate::session::name_known(known@, nodes@[r@[k] as int]@));
    } else {
        assert(crate::session::name_known(known@, nodes@[at]@));
    }
}

} // verus!
