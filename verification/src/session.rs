//! The conversation between the node that plans a test and the nodes that run it.

use vstd::prelude::*;

use crate::distribution::{calculate_rates_per_secondary, share};
use crate::text::same_text;

verus! {

/// The rates of one second.
#[derive(Clone, Copy, Debug, PartialEq, Eq, Structural)]
pub struct RateMessage {
    pub qps: u32,
    pub connections: u32,
}

/// Who plans the test.
#[derive(Debug)]
pub struct Metadata {
    pub primary_host: String,
}

/// What the planning node sends. `R` is the description of a test.
#[derive(Debug)]
pub enum MessageFromPrimary<R> {
    Metadata(Metadata),
    Request(R),
    Rates(RateMessage),
    Stop,
    Finished,
    Reset,
}

/// What comes of waiting for a message.
#[derive(Debug)]
pub enum Reception<R> {
    Message(MessageFromPrimary<R>),
    /// The other side closed the connection.
    Closed,
    /// The connection failed.
    Failed(String),
    /// Nothing came in time.
    TimedOut(String),
}

/// How a node is told of a test.
#[derive(Debug)]
pub enum IntroStep {
    /// Say who plans the test.
    SendMetadata,
    /// Send the test.
    SendRequest,
    /// The node cannot be reached: nothing more is sent.
    GiveUp(String),
}

/// What comes next where a node is told of a test: first who plans it, then the test, but for a
/// node that did not get the first. `sent` is what came of sending the first, once it was sent.
pub fn introduction(sent: Option<Result<(), String>>) -> (r: IntroStep)
    ensures
        match sent {
            None => r is SendMetadata,
            Some(Ok(_)) => r is SendRequest,
            Some(Err(e)) => r == IntroStep::GiveUp(e),
        },
{
    match sent {
        None => IntroStep::SendMetadata,
        Some(Ok(_)) => IntroStep::SendRequest,
        Some(Err(e)) => IntroStep::GiveUp(e),
    }
}

/// The first message must say who plans the test.
pub fn check_for_metadata_msg<R>(received: Reception<R>) -> (r: Result<Metadata, String>)
    ensures
        match received {
            Reception::Message(MessageFromPrimary::Metadata(m)) => r == Ok::<Metadata, String>(m),
            Reception::Message(_) => r matches Err(e) && e@
                == "Expected MessageFromPrimary::Metadata, but didn't receive"@,
            Reception::Closed => r matches Err(e) && e@ == "No message received"@,
            Reception::Failed(text) => r == Err::<Metadata, String>(text),
            Reception::TimedOut(text) => r == Err::<Metadata, String>(text),
        },
{
    match received {
        Reception::Message(MessageFromPrimary::Metadata(m)) => Ok(m),
        Reception::Message(_) => Err(
            "Expected MessageFromPrimary::Metadata, but didn't receive".to_owned(),
        ),
        Reception::Closed => Err("No message received".to_owned()),
        Reception::Failed(text) => Err(text),
        Reception::TimedOut(text) => Err(text),
    }
}

/// Waiting for the description of a test. It can come after a reset, so there are two tries.
#[derive(Clone, Copy, Debug, PartialEq, Eq, Structural)]
pub struct RequestWait {
    pub tries: u8,
}

/// How waiting for the description goes on.
#[derive(Debug)]
pub enum RequestWaitStep<R> {
    Received(R),
    Again,
    Failed(String),
}

impl RequestWait {
    pub fn new() -> (r: RequestWait)
        ensures
            r.tries == 2,
    {
        RequestWait { tries: 2 }
    }

    /// Takes what came of waiting.
    pub fn check_for_request_msg<R>(&mut self, received: Reception<R>) -> (r: RequestWaitStep<R>)
        requires
            old(self).tries > 0,
        ensures
            final(self).tries == old(self).tries - 1,
            match received {
                Reception::Message(MessageFromPrimary::Request(request)) => r
                    == RequestWaitStep::Received(request),
                Reception::Message(MessageFromPrimary::Reset) => if old(self).tries > 1 {
                    r is Again
                } else {
                    r matches RequestWaitStep::Failed(e) && e@ == "No message received"@
                },
                Reception::Message(_) => r matches RequestWaitStep::Failed(e) && e@
                    == "Expected MessageFromPrimary::Request|Reset, but didn't receive"@,
                Reception::Closed => r matches RequestWaitStep::Failed(e) && e@
                    == "No message received"@,
                Reception::Failed(text) => r == RequestWaitStep::<R>::Failed(text),
                Reception::TimedOut(text) => r == RequestWaitStep::<R>::Failed(text),
            },
    {
        self.tries = self.tries - 1;
        match received {
            Reception::Message(MessageFromPrimary::Request(request)) => RequestWaitStep::Received(
                request,
            ),
            Reception::Message(MessageFromPrimary::Reset) => {
                if self.tries > 0 {
                    RequestWaitStep::Again
                } else {
                    RequestWaitStep::Failed("No message received".to_owned())
                }
            },
            Reception::Message(_) => RequestWaitStep::Failed(
                "Expected MessageFromPrimary::Request|Reset, but didn't receive".to_owned(),
            ),
            Reception::Closed => RequestWaitStep::Failed("No message received".to_owned()),
            Reception::Failed(text) => RequestWaitStep::Failed(text),
            Reception::TimedOut(text) => RequestWaitStep::Failed(text),
        }
    }
}

/// What the running node does next.
#[derive(Debug)]
pub enum SessionStep<R> {
    /// Wait for the next message.
    Wait,
    /// Run one second with these rates.
    Run(RateMessage),
    /// Go on with another description of the test.
    Prepare(R),
    /// Leave the conversation.
    Leave,
}

/// What becomes of the connections when a conversation is over.
#[derive(Clone, Copy, Debug, PartialEq, Eq, Structural)]
pub enum PoolDisposal {
    /// They are kept: the planning node may come back.
    Keep,
    /// They are closed, and the job's metrics are removed.
    Discard,
    /// Nothing is recorded of them.
    Forget,
}

/// The conversation of a running node, from the description of the test on.
#[derive(Clone, Copy, Debug, PartialEq, Eq, Structural)]
pub struct Session {
    pub stop: bool,
    pub finish: bool,
    pub error_exit: bool,
    pub reset: bool,
}

impl Session {
    pub fn new() -> (r: Session)
        ensures
            r == (Session { stop: false, finish: false, error_exit: false, reset: false }),
    {
        Session { stop: false, finish: false, error_exit: false, reset: false }
    }

    /// Takes what came of waiting for a message.
    pub fn on_reception<R>(&mut self, received: Reception<R>) -> (r: SessionStep<R>)
        ensures
            match received {
                Reception::TimedOut(_) => r is Wait && *final(self) == *old(self),
                Reception::Failed(_) => r is Leave && *final(self) == (Session {
                    error_exit: true,
                    ..*old(self)
                }),
                Reception::Closed => r is Leave && *final(self) == *old(self),
                Reception::Message(MessageFromPrimary::Metadata(_)) => r is Wait && *final(self)
                    == *old(self),
                Reception::Message(MessageFromPrimary::Rates(rate)) => r == SessionStep::<R>::Run(
                    rate,
                ) && *final(self) == *old(self),
                Reception::Message(MessageFromPrimary::Stop) => r is Leave && *final(self) == (
                Session { stop: true, ..*old(self) }),
                Reception::Message(MessageFromPrimary::Finished) => r is Leave && *final(self) == (
                Session { stop: true, finish: true, ..*old(self) }),
                Reception::Message(MessageFromPrimary::Reset) => r is Wait && *final(self) == (
                Session { reset: true, ..*old(self) }),
                Reception::Message(MessageFromPrimary::Request(request)) => r
                    == SessionStep::Prepare(request) && *final(self) == (Session {
                    reset: false,
                    ..*old(self)
                }),
            },
    {
        match received {
            Reception::TimedOut(_) => SessionStep::Wait,
            Reception::Failed(_) => {
                self.error_exit = true;
                SessionStep::Leave
            },
            Reception::Closed => SessionStep::Leave,
            Reception::Message(MessageFromPrimary::Metadata(_)) => SessionStep::Wait,
            Reception::Message(MessageFromPrimary::Rates(rate)) => SessionStep::Run(rate),
            Reception::Message(MessageFromPrimary::Stop) => {
                self.stop = true;
                SessionStep::Leave
            },
            Reception::Message(MessageFromPrimary::Finished) => {
                self.finish = true;
                self.stop = true;
                SessionStep::Leave
            },
            Reception::Message(MessageFromPrimary::Reset) => {
                self.reset = true;
                SessionStep::Wait
            },
            Reception::Message(MessageFromPrimary::Request(request)) => {
                self.reset = false;
                SessionStep::Prepare(request)
            },
        }
    }

    /// What becomes of the connections, once the conversation is over.
    pub fn disposal(&self) -> (r: PoolDisposal)
        ensures
            r == (if self.error_exit {
                PoolDisposal::Keep
            } else if self.stop || self.finish {
                PoolDisposal::Discard
            } else {
                PoolDisposal::Forget
            }),
    {
        if self.error_exit {
            PoolDisposal::Keep
        } else if self.stop || self.finish {
            PoolDisposal::Discard
        } else {
            PoolDisposal::Forget
        }
    }
}

/// No conversation that is still going on has been stopped, finished or broken.
pub open spec fn going_on(s: Session) -> bool {
    !s.stop && !s.finish && !s.error_exit
}

/// The conversation after a reception.
pub open spec fn session_after<R>(s: Session, received: Reception<R>) -> Session {
    match received {
        Reception::Failed(_) => Session { error_exit: true, ..s },
        Reception::Message(MessageFromPrimary::Stop) => Session { stop: true, ..s },
        Reception::Message(MessageFromPrimary::Finished) => Session {
            stop: true,
            finish: true,
            ..s
        },
        Reception::Message(MessageFromPrimary::Reset) => Session { reset: true, ..s },
        Reception::Message(MessageFromPrimary::Request(_)) => Session { reset: false, ..s },
        _ => s,
    }
}

/// Whether a reception ends the conversation.
pub open spec fn session_ends<R>(received: Reception<R>) -> bool {
    match received {
        Reception::Failed(_) => true,
        Reception::Closed => true,
        Reception::Message(MessageFromPrimary::Stop) => true,
        Reception::Message(MessageFromPrimary::Finished) => true,
        _ => false,
    }
}

/// A conversation goes on until it is closed, stopped, finished or broken; and what becomes of
/// the connections depends on which of these it was: kept after a failure, closed after a stop or
/// an end, forgotten otherwise.
pub proof fn lemma_session_end<R>(s: Session, received: Reception<R>)
    requires
        going_on(s),
    ensures
        !session_ends(received) ==> going_on(session_after(s, received)),
        session_after(s, received).error_exit <==> received is Failed,
        session_after(s, received).stop <==> (received matches Reception::Message(m) && (m is Stop
            || m is Finished)),
{
}

/// Where a running node takes its connections from.
#[derive(Clone, Copy, Debug, PartialEq, Eq, Structural)]
pub enum PoolSource {
    /// An earlier conversation of the job has a pool: wait until it is handed back.
    AwaitReturn,
    /// There is none: a new pool.
    New,
}

/// How waiting for a pool ended.
#[derive(Clone, Copy, Debug, PartialEq, Eq, Structural)]
pub enum PoolNotice {
    Returned,
    SenderGone,
    TimedOut,
}

/// Which pool a job starts with.
pub fn pool_source(returned_later: bool) -> (r: PoolSource)
    ensures
        r == (if returned_later {
            PoolSource::AwaitReturn
        } else {
            PoolSource::New
        }),
{
    if returned_later {
        PoolSource::AwaitReturn
    } else {
        PoolSource::New
    }
}

/// Whether the pool that was waited for can be taken. If not, nothing is sent for the job, and
/// the next conversation waits for it again.
pub fn pool_returned(notice: PoolNotice) -> (r: bool)
    ensures
        r == (notice == PoolNotice::Returned),
{
    match notice {
        PoolNotice::Returned => true,
        _ => false,
    }
}

// ---------------------------------------------------------------------------------------------
// The planning node
// ---------------------------------------------------------------------------------------------

/// What the planning node does in a second, besides sending rates.
#[derive(Clone, Copy, Debug, PartialEq, Eq, Structural)]
pub struct PrimaryTick {
    /// Look whether the job was stopped.
    pub check_stop: bool,
    /// Look for nodes that joined.
    pub refresh: bool,
}

/// The seconds of a planning node.
#[derive(Clone, Copy, Debug, PartialEq, Eq, Structural)]
pub struct PrimaryLoop {
    pub counter: u8,
}

impl PrimaryLoop {
    pub fn new() -> (r: PrimaryLoop)
        ensures
            r.counter == 0,
    {
        PrimaryLoop { counter: 0 }
    }

    /// Begins a second.
    pub fn tick(&mut self) -> (r: PrimaryTick)
        requires
            old(self).counter <= 10,
        ensures
            r.check_stop == (old(self).counter % 5 == 0),
            r.refresh == (old(self).counter == 10),
            final(self).counter == (if old(self).counter == 10 {
                0
            } else {
                old(self).counter + 1
            }),
            final(self).counter <= 10,
    {
        let check_stop = self.counter % 5 == 0;
        let refresh = self.counter == 10;
        if refresh {
            self.counter = 0;
        } else {
            self.counter = self.counter + 1;
        }
        PrimaryTick { check_stop, refresh }
    }
}

/// The counter of a planning node after `n` seconds.
pub open spec fn counter_after(n: nat) -> int
    decreases n,
{
    if n == 0 {
        0
    } else {
        let before = counter_after((n - 1) as nat);
        if before == 10 {
            0
        } else {
            before + 1
        }
    }
}

/// Nodes that joined are looked for every eleventh second, and a stop at least every fifth.
pub proof fn lemma_primary_rhythm(n: nat)
    ensures
        counter_after(n) == n % 11,
        counter_after(n) == 10 <==> n % 11 == 10,
        counter_after(n) % 5 == 0 <==> (n % 11 == 0 || n % 11 == 5 || n % 11 == 10),
    decreases n,
{
    if n > 0 {
        lemma_primary_rhythm((n - 1) as nat);
    }
}

/// The seconds of a node that plans and runs a test by itself.
#[derive(Clone, Copy, Debug, PartialEq, Eq, Structural)]
pub struct StandaloneLoop {
    pub counter: u8,
}

impl StandaloneLoop {
    pub fn new() -> (r: StandaloneLoop)
        ensures
            r.counter == 0,
    {
        StandaloneLoop { counter: 0 }
    }

    /// Begins a second: whether to look if the job was stopped, every fifth second.
    pub fn tick(&mut self) -> (check_stop: bool)
        requires
            old(self).counter < 5,
        ensures
            check_stop == (old(self).counter == 4),
            final(self).counter == (old(self).counter + 1) % 5,
            final(self).counter < 5,
    {
        self.counter = self.counter + 1;
        let check_stop = self.counter % 5 == 0;
        if check_stop {
            self.counter = 0;
        }
        check_stop
    }
}

/// The rates of a second for each of `n` nodes.
pub fn rate_messages(qps: u32, connection_count: u32, n: usize) -> (r: Vec<RateMessage>)
    requires
        0 < n <= u32::MAX,
    ensures
        r@.len() == n,
        forall|i: int|
            0 <= i < n ==> (#[trigger] r@[i]).qps == share(qps as int, n as int, i)
                && r@[i].connections == share(connection_count as int, n as int, i),
{
    let (to_send, to_hold) = calculate_rates_per_secondary(qps, connection_count, n);
    let mut r: Vec<RateMessage> = Vec::new();
    let mut i: usize = 0;
    while i < n
        invariant
            i <= n,
            to_send@.len() == n,
            to_hold@.len() == n,
            r@.len() == i,
            forall|j: int| 0 <= j < n ==> #[trigger] to_send@[j] == share(qps as int, n as int, j),
            forall|j: int|
                0 <= j < n ==> #[trigger] to_hold@[j] == share(
                    connection_count as int,
                    n as int,
                    j,
                ),
            forall|j: int|
                0 <= j < i ==> (#[trigger] r@[j]).qps == share(qps as int, n as int, j)
                    && r@[j].connections == share(connection_count as int, n as int, j),
        decreases n - i,
    {
        r.push(RateMessage { qps: to_send[i], connections: to_hold[i] });
        i += 1;
    }
    r
}

/// Whether all messages were delivered, or the instances that are to be dropped.
pub fn delivery_result(failed: Vec<String>) -> (r: Result<(), Vec<String>>)
    ensures
        match r {
            Ok(_) => failed@.len() == 0,
            Err(list) => failed@.len() > 0 && list@ == failed@,
        },
{
    if failed.len() == 0 {
        Ok(())
    } else {
        Err(failed)
    }
}

/// The name is among the names.
pub open spec fn name_known(known: Seq<String>, name: Seq<char>) -> bool {
    exists|i: int| 0 <= i < known.len() && (#[trigger] known[i])@ == name
}

/// The numbers of the nodes that are not connected yet, in order.
pub fn unknown_nodes(known: &Vec<String>, nodes: &Vec<String>) -> (r: Vec<usize>)
    ensures
        forall|k: int|
            0 <= k < r@.len() ==> (#[trigger] r@[k]) < nodes@.len() && !name_known(
                known@,
                nodes@[r@[k] as int]@,
            ),
        forall|k: int, l: int| 0 <= k < l < r@.len() ==> #[trigger] r@[k] < #[trigger] r@[l],
        forall|i: int|
            0 <= i < nodes@.len() && !name_known(known@, (#[trigger] nodes@[i])@) ==> r@.contains(
                i as usize,
            ),
        forall|i: usize|
            i < nodes@.len() && !name_known(known@, nodes@[i as int]@) ==> #[trigger] r@.contains(
                i,
            ),
{
    let mut r: Vec<usize> = Vec::new();
    let mut i: usize = 0;
    while i < nodes.len()
        invariant
            i <= nodes@.len(),
            forall|k: int|
                0 <= k < r@.len() ==> (#[trigger] r@[k]) < i && !name_known(
                    known@,
                    nodes@[r@[k] as int]@,
                ),
            forall|k: int, l: int| 0 <= k < l < r@.len() ==> #[trigger] r@[k] < #[trigger] r@[l],
            forall|j: int|
                0 <= j < i && !name_known(known@, (#[trigger] nodes@[j])@) ==> r@.contains(
                    j as usize,
                ),
        decreases nodes@.len() - i,
    {
        let mut found = false;
        let mut m: usize = 0;
        while m < known.len()
            invariant
                i < nodes@.len(),
                m <= known@.len(),
                found ==> name_known(known@, nodes@[i as int]@),
                !found ==> forall|p: int|
                    0 <= p < m ==> (#[trigger] known@[p])@ != nodes@[i as int]@,
            decreases known@.len() - m,
        {
            if same_text(known[m].as_str(), nodes[i].as_str()) {
                assert(known@[m as int]@ == nodes@[i as int]@);
                found = true;
            }
            m += 1;
        }
        let ghost before = r@;
        if !found {
            r.push(i);
            assert(r@[before.len() as int] == i);
        }
        proof {
            assert forall|j: int|
                0 <= j < i + 1 && !name_known(known@, (#[trigger] nodes@[j])@) implies r@.contains(
                j as usize,
            ) by {
                if j < i {
                    assert(before.contains(j as usize));
                    let p = choose|p: int| 0 <= p < before.len() && before[p] == j as usize;
                    assert(r@[p] == j as usize);
                }
            }
        }
        i += 1;
    }
    proof {
        assert forall|j: usize|
            j < nodes@.len() && !name_known(known@, nodes@[j as int]@) implies #[trigger] r@.contains(
            j,
        ) by {
            let at = j as int;
            assert(nodes@[at]@ == nodes@[j as int]@);
            assert(r@.contains(at as usize));
        }
    }
    r
}

} // verus!
