//! One second of a test: how its requests are spread, and when to give up.

use vstd::prelude::*;

use crate::http_req::{req_same, HttpReq};

verus! {

/// The length of a cycle.
pub const CYCLE_LENGTH_IN_MILLIS: i128 = 1_000;

/// The size of a bundle where nothing else is configured.
pub const DEFAULT_REQUEST_BUNDLE_SIZE: u16 = 50;

/// The size of a bundle where requests come with the rate.
pub const REQUEST_BUNDLE_SIZE: u32 = 10;

/// The wait before connections are asked for again, in milliseconds.
pub const RETRY_MILLIS: u64 = 10;

pub open spec fn lesser_of(a: u32, b: u32) -> u32 {
    if a <= b {
        a
    } else {
        b
    }
}

/// How many requests are sent together: a hundredth of all, but no fewer than configured, no more
/// than there are, and no more than the pool holds where it is not elastic.
pub open spec fn bundle_of(number_of_req: u32, connection_count: u32, configured: u32) -> u32 {
    let hundredth = (number_of_req / 100 + 1) as u32;
    let wanted = if hundredth >= configured {
        hundredth
    } else {
        configured
    };
    if connection_count == 0 {
        lesser_of(number_of_req, wanted)
    } else {
        lesser_of(number_of_req, lesser_of(connection_count, wanted))
    }
}

fn smaller(a: u32, b: u32) -> (r: u32)
    ensures
        r == lesser_of(a, b),
{
    if a <= b {
        a
    } else {
        b
    }
}

/// The size of a bundle for requests that are generated as they are sent.
pub fn bundle_size(number_of_req: u32, connection_count: u32, configured: u32) -> (r: u32)
    ensures
        r == bundle_of(number_of_req, connection_count, configured),
{
    let hundredth: u32 = number_of_req / 100 + 1;
    let wanted: u32 = if hundredth >= configured {
        hundredth
    } else {
        configured
    };
    if connection_count == 0 {
        smaller(number_of_req, wanted)
    } else {
        smaller(number_of_req, smaller(connection_count, wanted))
    }
}

/// The size of a bundle for requests that came with the rate.
pub fn fixed_bundle_size(count: u32, connection_count: u32) -> (r: u32)
    ensures
        r == (if connection_count == 0 {
            REQUEST_BUNDLE_SIZE
        } else {
            lesser_of(count, lesser_of(connection_count, REQUEST_BUNDLE_SIZE))
        }),
{
    if connection_count == 0 {
        REQUEST_BUNDLE_SIZE
    } else {
        smaller(count, smaller(connection_count, REQUEST_BUNDLE_SIZE))
    }
}

/// The time that is left of a cycle after `elapsed` milliseconds.
pub fn time_remaining(elapsed: u64) -> (r: i128)
    ensures
        r == CYCLE_LENGTH_IN_MILLIS - elapsed,
{
    CYCLE_LENGTH_IN_MILLIS - elapsed as i128
}

/// Whether there is time to spread requests over.
pub fn has_time(remaining: i128) -> (r: bool)
    ensures
        r == (remaining >= 1),
{
    remaining >= 1
}

/// What to do after connections were asked for.
#[derive(Clone, Copy, Debug, PartialEq, Eq, Structural)]
pub enum Supply {
    /// None is there: wait a little, spread the rest anew, and ask again.
    Retry,
    /// Fewer are there than asked for: spread the rest anew, and send as many as there are.
    Partial,
    /// All are there: send.
    Full,
}

/// What to do after requests were sent.
#[derive(Clone, Copy, Debug, PartialEq, Eq, Structural)]
pub enum Progress {
    /// The time is over: give up on the rest.
    GiveUp,
    /// All requests were sent.
    Done,
    /// Sleep, and go on.
    Pause,
}

/// The requests of one cycle.
#[derive(Debug)]
pub struct RequestCycle {
    bundle: u32,
    remaining: u32,
}

impl RequestCycle {
    /// How many requests are still to be sent.
    pub closed spec fn left(&self) -> int {
        self.remaining as int
    }

    /// How many requests are sent together.
    pub closed spec fn together(&self) -> int {
        self.bundle as int
    }

    /// A cycle of `number_of_req` requests; none where there are no requests.
    pub fn start(number_of_req: u32, bundle: u32) -> (r: Option<RequestCycle>)
        ensures
            match r {
                Some(c) => number_of_req > 0 && c.left() == number_of_req && c.together()
                    == bundle,
                None => number_of_req == 0,
            },
    {
        if number_of_req == 0 {
            None
        } else {
            Some(RequestCycle { bundle, remaining: number_of_req })
        }
    }

    /// How many connections to ask for, with `remaining_time` left; none where the time is over.
    pub fn request(&self, remaining_time: i128) -> (r: Option<u32>)
        ensures
            match r {
                Some(n) => remaining_time >= 0 && n == (if self.together() <= self.left() {
                    self.together()
                } else {
                    self.left()
                }),
                None => remaining_time < 0,
            },
    {
        if remaining_time < 0 {
            None
        } else {
            Some(smaller(self.bundle, self.remaining))
        }
    }

    /// What to do with the connections that are there.
    pub fn supply(&self, requested: u32, available: usize) -> (r: Supply)
        ensures
            r == (if available >= requested {
                Supply::Full
            } else if available < 1 {
                Supply::Retry
            } else {
                Supply::Partial
            }),
    {
        if available < requested as usize {
            if available < 1 {
                Supply::Retry
            } else {
                Supply::Partial
            }
        } else {
            Supply::Full
        }
    }

    /// Takes note that a request was sent over each of the connections.
    pub fn sent(&mut self, available: usize, remaining_time: i128) -> (r: Progress)
        requires
            available <= old(self).left(),
        ensures
            final(self).left() == old(self).left() - available,
            final(self).together() == old(self).together(),
            r == (if remaining_time < 0 {
                Progress::GiveUp
            } else if final(self).left() == 0 {
                Progress::Done
            } else {
                Progress::Pause
            }),
    {
        self.remaining = self.remaining - available as u32;
        if remaining_time < 0 {
            Progress::GiveUp
        } else if self.remaining == 0 {
            Progress::Done
        } else {
            Progress::Pause
        }
    }

    /// How many requests are still to be sent.
    pub fn remaining(&self) -> (r: u32)
        ensures
            r == self.left(),
    {
        self.remaining
    }

    /// How many requests are sent together.
    pub fn bundle(&self) -> (r: u32)
        ensures
            r == self.together(),
    {
        self.bundle
    }
}

/// Rounds in which connections were there: how many requests were sent in all.
pub open spec fn sent_in_all(rounds: Seq<int>) -> int
    decreases rounds.len(),
{
    if rounds.len() == 0 {
        0
    } else {
        sent_in_all(rounds.drop_last()) + rounds.last()
    }
}

/// What is left of `start` requests after some rounds, each of which sends no more than was asked
/// for.
pub open spec fn left_after(start: int, bundle: int, rounds: Seq<int>) -> Option<int>
    decreases rounds.len(),
{
    if rounds.len() == 0 {
        Some(start)
    } else {
        match left_after(start, bundle, rounds.drop_last()) {
            Some(left) => {
                let asked = if bundle <= left {
                    bundle
                } else {
                    left
                };
                if 0 <= rounds.last() <= asked {
                    Some(left - rounds.last())
                } else {
                    None
                }
            },
            None => None,
        }
    }
}

/// However connections come in, a cycle never sends more than its requests, and what it sent and
/// what is left add up to them.
pub proof fn lemma_cycle_sends_at_most(start: int, bundle: int, rounds: Seq<int>)
    requires
        start >= 0,
        bundle >= 0,
        left_after(start, bundle, rounds) is Some,
    ensures
        0 <= left_after(start, bundle, rounds)->0 <= start,
        sent_in_all(rounds) + left_after(start, bundle, rounds)->0 == start,
    decreases rounds.len(),
{
    if rounds.len() > 0 {
        lemma_cycle_sends_at_most(start, bundle, rounds.drop_last());
    }
}

/// Repeats requests, from the first on, until there is one for every connection.
pub fn fill_req_if_less_than_connections(
    available_connection: usize,
    available_req: usize,
    requests_to_send: &mut Vec<HttpReq>,
)
    requires
        available_req <= available_connection,
        available_req <= old(requests_to_send)@.len(),
        available_req > 0 || available_connection == 0,
        old(requests_to_send)@.len() + available_connection - available_req <= usize::MAX,
    ensures
        final(requests_to_send)@.len() == old(requests_to_send)@.len() + (available_connection
            - available_req),
        final(requests_to_send)@.take(old(requests_to_send)@.len() as int)
            == old(requests_to_send)@,
        forall|k: int|
            0 <= k < available_connection - available_req ==> req_same(
                #[trigger] final(requests_to_send)@[old(requests_to_send)@.len() + k],
                old(requests_to_send)@[k % (available_req as int)],
            ),
{
    let ghost start = requests_to_send@;
    let n: usize = requests_to_send.len();
    let mut need_to_insert: usize = available_connection - available_req;
    let mut i: usize = 0;
    let ghost mut k: int = 0;
    assert(start.take(n as int) =~= start);
    while need_to_insert > 0
        invariant
            start == old(requests_to_send)@,
            n == start.len(),
            need_to_insert + k == available_connection - available_req,
            0 <= k,
            available_req <= n,
            available_req > 0 || need_to_insert == 0,
            i < available_req || need_to_insert == 0 || i == 0,
            k > 0 || i == 0,
            available_req > 0 ==> i == k % (available_req as int),
            requests_to_send@.len() == n + k,
            requests_to_send@.take(n as int) == start,
            n + need_to_insert + k <= usize::MAX,
            forall|j: int|
                0 <= j < k ==> req_same(
                    #[trigger] requests_to_send@[n + j],
                    start[j % (available_req as int)],
                ),
        decreases need_to_insert,
    {
        let ghost before = requests_to_send@;
        assert(requests_to_send@[i as int] == requests_to_send@.take(n as int)[i as int]);
        let copy = requests_to_send[i].clone();
        requests_to_send.push(copy);
        proof {
            assert(requests_to_send@.take(n as int) =~= start);
            assert forall|j: int| 0 <= j < k + 1 implies req_same(
                #[trigger] requests_to_send@[n + j],
                start[j % (available_req as int)],
            ) by {
                if j < k {
                    assert(requests_to_send@[n + j] == before[n + j]);
                }
            }
            vstd::arithmetic::div_mod::lemma_mod_bound(k, available_req as int);
            lemma_next_index(k, available_req as int);
            k = k + 1;
        }
        i = if i + 1 < available_req {
            i + 1
        } else {
            0
        };
        need_to_insert -= 1;
    }
}

proof fn lemma_next_index(k: int, n: int)
    requires
        n > 0,
        k >= 0,
    ensures
        (k + 1) % n == (if k % n + 1 < n {
            k % n + 1
        } else {
            0
        }),
{
    vstd::arithmetic::div_mod::lemma_fundamental_div_mod(k, n);
    vstd::arithmetic::div_mod::lemma_mod_bound(k, n);
    let q = k / n;
    let r = k % n;
    assert(n * q == q * n) by (nonlinear_arith);
    if r + 1 < n {
        vstd::arithmetic::div_mod::lemma_fundamental_div_mod_converse(k + 1, n, q, r + 1);
    } else {
        assert((q + 1) * n == q * n + n) by (nonlinear_arith);
        vstd::arithmetic::div_mod::lemma_fundamental_div_mod_converse(k + 1, n, q + 1, 0);
    }
}

/// Whether a cycle of requests that came with the rate sends any.
pub fn sends_any(count: u32, requests: usize) -> (r: bool)
    ensures
        r == (count > 0 && requests > 0),
{
    count > 0 && requests > 0
}

/// The place in a list of requests that is gone through over and over.
#[derive(Clone, Copy, Debug, PartialEq, Eq, Structural)]
pub struct RequestRing {
    pub at: usize,
}

impl RequestRing {
    pub fn new() -> (r: RequestRing)
        ensures
            r.at == 0,
    {
        RequestRing { at: 0 }
    }

    /// The next `n` requests: after the last comes the first again.
    pub fn next_n(&mut self, requests: &Vec<HttpReq>, n: usize) -> (r: Vec<HttpReq>)
        requires
            old(self).at < requests@.len(),
        ensures
            r@.len() == n,
            forall|i: int|
                0 <= i < n ==> req_same(
                    #[trigger] r@[i],
                    requests@[(old(self).at + i) % (requests@.len() as int)],
                ),
            final(self).at == (old(self).at + n) % (requests@.len() as int),
            final(self).at < requests@.len(),
    {
        let mut r: Vec<HttpReq> = Vec::new();
        let ghost len = requests@.len() as int;
        let ghost start = self.at as int;
        proof {
            vstd::arithmetic::div_mod::lemma_small_mod(self.at as nat, requests@.len());
        }
        while r.len() < n
            invariant
                r@.len() <= n,
                len == requests@.len(),
                start == old(self).at,
                self.at < len,
                self.at == (start + r@.len()) % len,
                forall|i: int|
                    0 <= i < r@.len() ==> req_same(
                        #[trigger] r@[i],
                        requests@[(start + i) % len],
                    ),
            decreases n - r@.len(),
        {
            let copy = requests[self.at].clone();
            proof {
                lemma_next_index(start + r@.len(), len);
            }
            r.push(copy);
            self.at = if self.at < requests.len() - 1 {
                self.at + 1
            } else {
                0
            };
        }
        r
    }
}

// ---------------------------------------------------------------------------------------------
// From cycle to cycle
// ---------------------------------------------------------------------------------------------

/// What is carried from one cycle to the next.
#[derive(Clone, Copy, Debug, PartialEq, Eq, Structural)]
pub struct CycleState {
    /// The number of connections that was set last.
    pub prev_connection_count: u32,
    /// By how many milliseconds the last cycle took longer than it should.
    pub time_offset: i128,
}

/// How a cycle begins.
#[derive(Clone, Copy, Debug, PartialEq, Eq, Structural)]
pub struct CycleStart {
    /// The size to give the pool, where it changes.
    pub resize: Option<u32>,
    /// By how many milliseconds the cycle counts as begun earlier: it has less time where the
    /// last one took too long.
    pub head_start: u64,
}

impl CycleState {
    pub fn new() -> (r: CycleState)
        ensures
            r.prev_connection_count == 0,
            r.time_offset == 0,
    {
        CycleState { prev_connection_count: 0, time_offset: 0 }
    }

    /// Begins a cycle with a number of connections.
    pub fn begin(&mut self, connection_count: u32) -> (r: CycleStart)
        requires
            old(self).time_offset <= u64::MAX,
        ensures
            r.resize == (if old(self).prev_connection_count != connection_count {
                Some(connection_count)
            } else {
                None
            }),
            r.head_start == (if old(self).time_offset > 0 {
                old(self).time_offset as int
            } else {
                0
            }),
            final(self).prev_connection_count == connection_count,
            final(self).time_offset == old(self).time_offset,
    {
        let resize = if self.prev_connection_count != connection_count {
            Some(connection_count)
        } else {
            None
        };
        let head_start: u64 = if self.time_offset > 0 {
            self.time_offset as u64
        } else {
            0
        };
        self.prev_connection_count = connection_count;
        CycleStart { resize, head_start }
    }

    /// Ends a cycle that took `elapsed` milliseconds.
    pub fn end(&mut self, elapsed: u64)
        ensures
            final(self).time_offset == elapsed - CYCLE_LENGTH_IN_MILLIS,
            final(self).prev_connection_count == old(self).prev_connection_count,
            final(self).time_offset <= u64::MAX,
    {
        self.time_offset = elapsed as i128 - CYCLE_LENGTH_IN_MILLIS;
    }
}

} // verus!
