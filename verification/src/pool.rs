//! The bookkeeping of a connection pool.
//!
//! Sockets belong to the program; the pool knows each connection by a number. Connections that
//! come back, and those that were opened meanwhile, are handed in when connections are asked for.

use std::collections::VecDeque;
use vstd::prelude::*;

use crate::http_api::ConnectionKeepAlive;

verus! {

/// A connection of the pool.
#[derive(Clone, Copy, Debug, PartialEq, Eq, Structural)]
pub struct PooledConnection {
    /// The number by which the program finds the socket.
    pub id: u64,
    /// Not to be used again.
    pub should_drop: bool,
    /// Milliseconds since the epoch.
    pub expire_at: u64,
    /// How many more requests it may carry.
    pub remaining_reuse: i32,
}

/// When a connection that is opened now expires.
pub fn get_expiry(now: u64, ttl: u32) -> (r: u64)
    ensures
        r == (if now + ttl <= u64::MAX {
            now + ttl
        } else {
            u64::MAX as int
        }),
{
    match now.checked_add(ttl as u64) {
        Some(t) => t,
        None => u64::MAX,
    }
}

impl PooledConnection {
    /// A connection that was opened now.
    pub fn open(id: u64, now: u64, keep_alive: ConnectionKeepAlive) -> (r: PooledConnection)
        ensures
            r.id == id,
            !r.should_drop,
            r.expire_at == (if now + keep_alive.ttl <= u64::MAX {
                now + keep_alive.ttl
            } else {
                u64::MAX as int
            }),
            r.remaining_reuse == (if keep_alive.max_request_per_connection <= i32::MAX {
                keep_alive.max_request_per_connection as int
            } else {
                i32::MAX as int
            }),
    {
        let remaining_reuse: i32 = if keep_alive.max_request_per_connection <= i32::MAX as u32 {
            keep_alive.max_request_per_connection as i32
        } else {
            i32::MAX
        };
        PooledConnection {
            id,
            should_drop: false,
            expire_at: get_expiry(now, keep_alive.ttl),
            remaining_reuse,
        }
    }

    /// The connection after it carried a request: it is dropped where it is expired or used up.
    pub fn used(&self, now: u64) -> (r: PooledConnection)
        requires
            self.remaining_reuse > i32::MIN,
        ensures
            r.id == self.id,
            r.expire_at == self.expire_at,
            r.remaining_reuse == self.remaining_reuse - 1,
            r.should_drop == (self.should_drop || self.expire_at < now || self.remaining_reuse
                <= 1),
    {
        PooledConnection {
            id: self.id,
            should_drop: self.should_drop || self.expire_at < now || self.remaining_reuse <= 1,
            expire_at: self.expire_at,
            remaining_reuse: self.remaining_reuse - 1,
        }
    }
}

/// Removes `to_be_removed` connections from the end of a container, or all where there are fewer,
/// and says how many.
pub fn resize_conn_container(
    container: &mut Vec<PooledConnection>,
    to_be_removed: usize,
) -> (r: usize)
    ensures
        old(container)@.len() < to_be_removed ==> r == old(container)@.len()
            && final(container)@.len() == 0,
        old(container)@.len() >= to_be_removed ==> r == to_be_removed && final(container)@
            == old(container)@.take(old(container)@.len() - to_be_removed),
{
    let len: usize = container.len();
    if len < to_be_removed {
        container.clear();
        len
    } else {
        container.truncate(len - to_be_removed);
        assert(container@ =~= old(container)@.take(len - to_be_removed));
        to_be_removed
    }
}

/// Changes the number of connections that are not in use: removes from those that came back, then
/// from the new ones; or says how many to open.
pub fn resize_connection_pool(
    recycled: &mut Vec<PooledConnection>,
    fresh: &mut Vec<PooledConnection>,
    diff: i64,
) -> (open: u64)
    requires
        diff > i64::MIN,
        -diff <= usize::MAX,
    ensures
        open == (if diff > 0 {
            diff as int
        } else {
            0
        }),
        diff >= 0 ==> final(recycled)@ == old(recycled)@ && final(fresh)@ == old(fresh)@,
        diff < 0 ==> {
            let n = -diff;
            let r = old(recycled)@.len() as int;
            let f = old(fresh)@.len() as int;
            &&& final(recycled)@ == old(recycled)@.take(if r < n {
                0
            } else {
                r - n
            })
            &&& final(fresh)@ == old(fresh)@.take(if r >= n {
                f
            } else if f < n - r {
                0
            } else {
                f - (n - r)
            })
        },
{
    if diff < 0 {
        let n: usize = (-diff) as usize;
        let removed: usize = resize_conn_container(recycled, n);
        if removed < n {
            resize_conn_container(fresh, n - removed);
        }
        assert(recycled@ =~= old(recycled)@.take(if old(recycled)@.len() < n {
            0
        } else {
            old(recycled)@.len() - n
        }));
        assert(fresh@ =~= old(fresh)@.take(if old(recycled)@.len() >= n {
            old(fresh)@.len() as int
        } else if old(fresh)@.len() < n - old(recycled)@.len() {
            0
        } else {
            old(fresh)@.len() - (n - old(recycled)@.len())
        }));
        0
    } else {
        diff as u64
    }
}

/// A pool of connections.
#[derive(Debug)]
pub struct QueuePool {
    max_connection: i64,
    connections: VecDeque<PooledConnection>,
    busy_connections: usize,
    /// An elastic pool opens connections when they are needed. A pool is elastic until its size
    /// is set to something else than it is.
    elastic: bool,
}

/// What the pool does when connections are asked for.
#[derive(Debug)]
pub struct PoolGrant {
    /// Connections to use, once they turn out ready.
    pub candidates: Vec<PooledConnection>,
    /// Connections to close: used up, or expired.
    pub dropped: Vec<PooledConnection>,
    /// Connections to close: more than the size of the pool.
    pub surplus: Vec<PooledConnection>,
    /// How many connections an elastic pool opens.
    pub open: u64,
}

/// Those of the connections that are still of use, in order.
pub open spec fn usable(s: Seq<PooledConnection>) -> Seq<PooledConnection>
    decreases s.len(),
{
    if s.len() == 0 {
        Seq::empty()
    } else if s.last().should_drop {
        usable(s.drop_last())
    } else {
        usable(s.drop_last()).push(s.last())
    }
}

/// Those of the connections that are to be closed, in order.
pub open spec fn useless(s: Seq<PooledConnection>) -> Seq<PooledConnection>
    decreases s.len(),
{
    if s.len() == 0 {
        Seq::empty()
    } else if s.last().should_drop {
        useless(s.drop_last()).push(s.last())
    } else {
        useless(s.drop_last())
    }
}

proof fn lemma_usable_useless(s: Seq<PooledConnection>)
    ensures
        usable(s).len() + useless(s).len() == s.len(),
        forall|i: int| 0 <= i < usable(s).len() ==> !(#[trigger] usable(s)[i]).should_drop,
    decreases s.len(),
{
    if s.len() > 0 {
        lemma_usable_useless(s.drop_last());
    }
}

impl QueuePool {
    /// The size of the pool.
    pub closed spec fn size(&self) -> int {
        self.max_connection as int
    }

    /// The connections that wait for a request, oldest first.
    pub closed spec fn idle(&self) -> Seq<PooledConnection> {
        self.connections@
    }

    /// How many connections carry a request.
    pub closed spec fn busy(&self) -> int {
        self.busy_connections as int
    }

    pub closed spec fn is_elastic(&self) -> bool {
        self.elastic
    }

    /// Sizes are not negative, an elastic pool has size zero, and all connections can be counted.
    pub open spec fn wf(&self) -> bool {
        &&& 0 <= self.size()
        &&& self.is_elastic() ==> self.size() == 0
        &&& self.idle().len() + self.busy() <= isize::MAX
    }

    pub fn new() -> (r: QueuePool)
        ensures
            r.wf(),
            r.is_elastic(),
            r.size() == 0,
            r.busy() == 0,
            r.idle().len() == 0,
    {
        QueuePool {
            max_connection: 0,
            connections: VecDeque::new(),
            busy_connections: 0,
            elastic: true,
        }
    }

    /// Sets the size of the pool, `fresh` connections having been opened meanwhile. Idle
    /// connections beyond the size are returned to be closed, oldest first; with them comes by
    /// how many the connections elsewhere are to change.
    pub fn set_connection_count(&mut self, connection_count: usize, fresh: usize) -> (r: (
        Vec<PooledConnection>,
        i64,
    ))
        requires
            old(self).wf(),
            connection_count <= isize::MAX,
            old(self).idle().len() + old(self).busy() + fresh <= isize::MAX,
        ensures
            final(self).wf(),
            final(self).size() == connection_count,
            final(self).busy() == old(self).busy(),
            final(self).is_elastic() == (old(self).is_elastic() && connection_count
                == old(self).size()),
            ({
                let idle = old(self).idle();
                let surplus = if idle.len() > connection_count {
                    idle.len() - connection_count
                } else {
                    0
                };
                let active = fresh + old(self).busy() + idle.len() - surplus;
                &&& r.0@ == idle.take(surplus)
                &&& final(self).idle() == idle.skip(surplus)
                &&& r.1 == (if connection_count <= old(self).size() {
                    connection_count - old(self).size()
                } else if connection_count > active {
                    connection_count - active
                } else {
                    0
                })
            }),
    {
        if self.elastic && connection_count as i64 != self.max_connection {
            self.elastic = false;
        }
        let ghost idle = self.connections@;
        let mut surplus: Vec<PooledConnection> = Vec::new();
        assert(idle.take(0) =~= Seq::empty());
        assert(idle.skip(0) =~= idle);
        while self.connections.len() > connection_count
            invariant
                surplus@.len() <= idle.len(),
                surplus@ == idle.take(surplus@.len() as int),
                self.connections@ == idle.skip(surplus@.len() as int),
                surplus@.len() == 0 || idle.len() - surplus@.len() >= connection_count,
                self.max_connection == old(self).max_connection,
                self.busy_connections == old(self).busy_connections,
                self.elastic == (old(self).elastic && connection_count
                    == old(self).max_connection),
            decreases self.connections@.len(),
        {
            let ghost k = surplus@.len() as int;
            if let Some(c) = self.connections.pop_front() {
                surplus.push(c);
                assert(c == idle[k]);
                assert(surplus@ =~= idle.take(k + 1));
                assert(self.connections@ =~= idle.skip(k + 1));
            }
        }
        let target: i64 = connection_count as i64;
        let mut diff: i64 = target - self.max_connection;
        if diff > 0 {
            let active: i64 = (fresh + self.busy_connections + self.connections.len()) as i64;
            diff = if target > active {
                target - active
            } else {
                0
            };
        }
        self.max_connection = target;
        (surplus, diff)
    }

    /// Takes connections in.
    fn claim_connections(&mut self, container: Vec<PooledConnection>)
        ensures
            final(self).connections@ == old(self).connections@ + container@,
            final(self).max_connection == old(self).max_connection,
            final(self).busy_connections == old(self).busy_connections,
            final(self).elastic == old(self).elastic,
    {
        let ghost start = self.connections@;
        let mut i: usize = 0;
        assert(start + container@.take(0) =~= start);
        while i < container.len()
            invariant
                i <= container@.len(),
                self.connections@ == start + container@.take(i as int),
                self.max_connection == old(self).max_connection,
                self.busy_connections == old(self).busy_connections,
                self.elastic == old(self).elastic,
            decreases container@.len() - i,
        {
            self.connections.push_back(container[i]);
            i += 1;
            assert(self.connections@ =~= start + container@.take(i as int));
        }
        assert(container@.take(i as int) =~= container@);
    }

    /// What is idle once connections came in, and the pool was cut to its size.
    pub open spec fn kept(
        &self,
        recycled: Seq<PooledConnection>,
        fresh: Seq<PooledConnection>,
    ) -> Seq<PooledConnection> {
        let all = self.idle() + recycled + fresh;
        let excess = all.len() + self.busy() - recycled.len() - self.size();
        if self.is_elastic() || excess <= 0 {
            all
        } else if excess >= all.len() {
            all.take(0)
        } else {
            all.take(all.len() - excess)
        }
    }

    /// Asks for connections. `recycled` connections came back and `fresh` ones were opened since.
    pub fn get_connections(
        &mut self,
        connection_request: u32,
        recycled: Vec<PooledConnection>,
        fresh: Vec<PooledConnection>,
    ) -> (r: PoolGrant)
        requires
            old(self).wf(),
            recycled@.len() <= old(self).busy(),
            old(self).idle().len() + old(self).busy() + fresh@.len() <= isize::MAX,
        ensures
            final(self).wf(),
            final(self).size() == old(self).size(),
            final(self).is_elastic() == old(self).is_elastic(),
            final(self).busy() == old(self).busy() - recycled@.len(),
            ({
                let all = old(self).idle() + recycled@ + fresh@;
                let kept = old(self).kept(recycled@, fresh@);
                let n = if connection_request < kept.len() {
                    connection_request as int
                } else {
                    kept.len() as int
                };
                &&& r.surplus@ == all.skip(kept.len() as int)
                &&& r.candidates@ == usable(kept.take(n))
                &&& r.dropped@ == useless(kept.take(n))
                &&& final(self).idle() == kept.skip(n)
                &&& r.open == (if old(self).is_elastic() && connection_request > all.len() {
                    connection_request - all.len()
                } else {
                    0
                })
            }),
    {
        let ghost all = self.idle() + recycled@ + fresh@;
        let ghost kept = self.kept(recycled@, fresh@);
        let returned: usize = recycled.len();
        self.claim_connections(recycled);
        self.claim_connections(fresh);
        self.busy_connections = self.busy_connections - returned;
        assert(self.connections@ =~= all);
        let mut open: u64 = 0;
        let mut surplus: Vec<PooledConnection> = Vec::new();
        let available: usize = self.connections.len();
        if self.elastic {
            if available < connection_request as usize {
                open = connection_request as u64 - available as u64;
            }
            assert(all.skip(kept.len() as int) =~= surplus@);
        } else {
            let active: i64 = (available + self.busy_connections) as i64;
            let excess: i64 = active - self.max_connection;
            if excess > 0 {
                let keep: usize = if excess >= available as i64 {
                    0
                } else {
                    available - excess as usize
                };
                let mut i: usize = keep;
                assert(all.subrange(keep as int, keep as int) =~= Seq::empty());
                while i < available
                    invariant
                        keep <= i <= available == all.len(),
                        self.connections@ == all,
                        surplus@ == all.subrange(keep as int, i as int),
                    decreases available - i,
                {
                    surplus.push(self.connections[i]);
                    i += 1;
                    assert(surplus@ =~= all.subrange(keep as int, i as int));
                }
                assert(all.subrange(keep as int, available as int) =~= all.skip(keep as int));
                self.connections.truncate(keep);
                assert(self.connections@ =~= all.take(keep as int));
            } else {
                assert(all.skip(kept.len() as int) =~= surplus@);
            }
        }
        assert(self.connections@ =~= kept);
        let mut candidates: Vec<PooledConnection> = Vec::new();
        let mut dropped: Vec<PooledConnection> = Vec::new();
        let mut k: u32 = 0;
        proof {
            assert(kept.take(0) =~= Seq::empty());
            assert(kept.skip(0) =~= kept);
        }
        while k < connection_request
            invariant
                k <= connection_request,
                k <= kept.len(),
                self.connections@ == kept.skip(k as int),
                candidates@ == usable(kept.take(k as int)),
                dropped@ == useless(kept.take(k as int)),
                self.max_connection == old(self).max_connection,
                self.elastic == old(self).elastic,
                self.busy_connections == old(self).busy_connections - returned,
            ensures
                k <= kept.len(),
                k == connection_request || (k < connection_request && k == kept.len()),
            decreases connection_request - k,
        {
            match self.connections.pop_front() {
                Some(c) => {
                    proof {
                        assert(c == kept[k as int]);
                        assert(kept.take(k + 1).drop_last() =~= kept.take(k as int));
                        assert(kept.take(k + 1).last() == c);
                        assert(self.connections@ =~= kept.skip(k + 1));
                    }
                    if c.should_drop {
                        dropped.push(c);
                    } else {
                        candidates.push(c);
                    }
                },
                None => {
                    break;
                },
            }
            k += 1;
        }
        PoolGrant { candidates, dropped, surplus, open }
    }

    /// Takes note of how the candidates turned out: `ready` are in use, and as many as were
    /// broken, dropped or failed to open before are to be opened anew.
    pub fn complete_grant(&mut self, ready: usize, broken: u64, dropped: u64, failed: u64) -> (
        open: u64)
        requires
            old(self).wf(),
            old(self).idle().len() + old(self).busy() + ready <= isize::MAX,
            broken + dropped + failed <= u64::MAX,
        ensures
            final(self).wf(),
            final(self).size() == old(self).size(),
            final(self).is_elastic() == old(self).is_elastic(),
            final(self).idle() == old(self).idle(),
            final(self).busy() == old(self).busy() + ready,
            open == broken + dropped + failed,
    {
        self.busy_connections = self.busy_connections + ready;
        broken + dropped + failed
    }

    /// How many connections wait for a request.
    pub fn idle_count(&self) -> (r: usize)
        ensures
            r == self.idle().len(),
    {
        self.connections.len()
    }

    /// How many connections carry a request.
    pub fn busy_count(&self) -> (r: usize)
        ensures
            r == self.busy(),
    {
        self.busy_connections
    }
}

/// A pool that is not elastic never holds more connections than its size, once connections were
/// asked for and as long as those in use are not more already; and no connection is given out
/// that should be dropped.
pub proof fn lemma_pool_size(
    pool: QueuePool,
    recycled: Seq<PooledConnection>,
    fresh: Seq<PooledConnection>,
)
    requires
        pool.wf(),
        recycled.len() <= pool.busy(),
        !pool.is_elastic(),
    ensures
        ({
            let kept = pool.kept(recycled, fresh);
            let busy = pool.busy() - recycled.len();
            &&& busy <= pool.size() ==> kept.len() + busy <= pool.size()
            &&& busy > pool.size() ==> kept.len() == 0
        }),
        forall|n: int, i: int|
            0 <= n <= pool.kept(recycled, fresh).len() && 0 <= i < usable(
                pool.kept(recycled, fresh).take(n),
            ).len() ==> !(#[trigger] usable(pool.kept(recycled, fresh).take(n))[i]).should_drop,
{
    let kept = pool.kept(recycled, fresh);
    assert forall|n: int, i: int|
        0 <= n <= kept.len() && 0 <= i < usable(kept.take(n)).len() implies !(
    #[trigger] usable(kept.take(n))[i]).should_drop by {
        lemma_usable_useless(kept.take(n));
    }
}

/// Every connection that was idle, came back or was opened is afterwards given out, closed or
/// idle: none is lost.
pub proof fn lemma_no_connection_lost(
    pool: QueuePool,
    recycled: Seq<PooledConnection>,
    fresh: Seq<PooledConnection>,
    n: int,
)
    requires
        0 <= n <= pool.kept(recycled, fresh).len(),
    ensures
        ({
            let all = pool.idle() + recycled + fresh;
            let kept = pool.kept(recycled, fresh);
            usable(kept.take(n)).len() + useless(kept.take(n)).len() + kept.skip(n).len()
                + all.skip(kept.len() as int).len() == all.len()
        }),
{
    let kept = pool.kept(recycled, fresh);
    lemma_usable_useless(kept.take(n));
}

/// The bounds of a managed pool: a fixed minimum, and a maximum that can be changed.
#[derive(Debug)]
pub struct ConcurrentConnectionCountManager {
    min_number_of_connection: u32,
    number_of_connection: u32,
}

impl ConcurrentConnectionCountManager {
    pub closed spec fn lower(&self) -> u32 {
        self.min_number_of_connection
    }

    pub closed spec fn upper(&self) -> u32 {
        self.number_of_connection
    }

    pub fn new(conn_count: u32) -> (r: ConcurrentConnectionCountManager)
        ensures
            r.lower() == conn_count,
            r.upper() == conn_count,
    {
        ConcurrentConnectionCountManager {
            min_number_of_connection: conn_count,
            number_of_connection: conn_count,
        }
    }

    pub fn min_idle(&self) -> (r: u32)
        ensures
            r == self.lower(),
    {
        self.min_number_of_connection
    }

    pub fn max_size(&self) -> (r: u32)
        ensures
            r == self.upper(),
    {
        self.number_of_connection
    }

    pub fn update(&mut self, conn_count: u32)
        ensures
            final(self).upper() == conn_count,
            final(self).lower() == old(self).lower(),
    {
        self.number_of_connection = conn_count;
    }
}

impl Default for ConcurrentConnectionCountManager {
    /// At least one connection.
    fn default() -> (r: ConcurrentConnectionCountManager)
        ensures
            r.lower() == 1,
            r.upper() == 1,
    {
        ConcurrentConnectionCountManager { min_number_of_connection: 1, number_of_connection: 1 }
    }
}

} // verus!
