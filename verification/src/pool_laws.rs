//! Laws of connection pools: what is handed out, kept and closed, whatever was asked for.

use vstd::prelude::*;

use crate::http_api::ConnectionKeepAlive;
use crate::pool::{
    resize_connection_pool, usable, useless, ConcurrentConnectionCountManager, PoolGrant,
    PooledConnection, QueuePool,
};

verus! {

proof fn lemma_filters(s: Seq<PooledConnection>)
    ensures
        usable(s) == s.filter(|c: PooledConnection| !c.should_drop),
        useless(s) == s.filter(|c: PooledConnection| c.should_drop),
        usable(s).len() + useless(s).len() == s.len(),
    decreases s.len(),
{
    reveal(Seq::filter);
    if s.len() > 0 {
        lemma_filters(s.drop_last());
    }
}

/// When connections are asked for, those that wait, came back and were opened are used oldest
/// first. A pool that is not elastic closes the newest where it has to, and only there: where all
/// of them and those in use are no more than its size, none; otherwise so many that those that are
/// left and those in use make up its size, or none is left where those in use do so alone. An
/// elastic pool closes none, and opens what is missing. Of what is handed out, connections that
/// should be dropped are closed.
pub proof fn lemma_grant(
    pool: &mut QueuePool,
    request: u32,
    recycled: Vec<PooledConnection>,
    fresh: Vec<PooledConnection>,
    r: PoolGrant,
)
    requires
        old(pool).wf(),
        recycled@.len() <= old(pool).busy(),
        old(pool).idle().len() + old(pool).busy() + fresh@.len() <= isize::MAX,
        call_ensures(QueuePool::get_connections, (pool, request, recycled, fresh), r),
    ensures
        final(pool).busy() == old(pool).busy() - recycled@.len(),
        final(pool).size() == old(pool).size(),
        final(pool).is_elastic() == old(pool).is_elastic(),
        ({
            let all = old(pool).idle() + recycled@ + fresh@;
            let handed = r.candidates@.len() + r.dropped@.len();
            let kept = handed + final(pool).idle().len();
            let busy = final(pool).busy();
            let size = final(pool).size();
            &&& kept + r.surplus@.len() == all.len()
            &&& handed <= request && (handed == request || handed == kept)
            &&& r.candidates@ == all.take(handed as int).filter(
                |c: PooledConnection| !c.should_drop,
            )
            &&& r.dropped@ == all.take(handed as int).filter(|c: PooledConnection| c.should_drop)
            &&& final(pool).idle() == all.subrange(handed as int, kept as int)
            &&& r.surplus@ == all.subrange(kept as int, all.len() as int)
            &&& old(pool).is_elastic() ==> {
                &&& r.surplus@.len() == 0
                &&& request <= all.len() ==> r.open == 0
                &&& request > all.len() ==> r.open + all.len() == request
            }
            &&& !old(pool).is_elastic() ==> {
                &&& r.open == 0
                &&& all.len() + busy <= size ==> r.surplus@.len() == 0
                &&& all.len() + busy > size && busy <= size ==> kept + busy == size
                &&& busy >= size ==> kept == 0
            }
        }),
{
    let all = old(pool).idle() + recycled@ + fresh@;
    let kept = old(pool).kept(recycled@, fresh@);
    let n = if request < kept.len() {
        request as int
    } else {
        kept.len() as int
    };
    lemma_filters(kept.take(n));
    assert(kept.take(n) =~= all.take(n));
    assert(kept.skip(n) =~= all.subrange(n, kept.len() as int));
    assert(all.skip(kept.len() as int) =~= all.subrange(kept.len() as int, all.len() as int));
}

/// Setting the size of a pool: connections that wait are closed oldest first, so many as there are
/// above the size and no more; those in use are left alone. Where the pool grows, so many are
/// opened that it is full, and none where it is; where it does not, what is elsewhere shrinks by
/// as much as the pool does. A pool whose size was changed is not elastic.
pub proof fn lemma_resized(
    pool: &mut QueuePool,
    count: usize,
    fresh: usize,
    r: (Vec<PooledConnection>, i64),
)
    requires
        old(pool).wf(),
        count <= isize::MAX,
        old(pool).idle().len() + old(pool).busy() + fresh <= isize::MAX,
        call_ensures(QueuePool::set_connection_count, (pool, count, fresh), r),
    ensures
        final(pool).size() == count,
        final(pool).busy() == old(pool).busy(),
        old(pool).idle() == r.0@ + final(pool).idle(),
        final(pool).idle().len() <= count,
        r.0@.len() > 0 ==> final(pool).idle().len() == count,
        count != old(pool).size() ==> !final(pool).is_elastic(),
        count == old(pool).size() ==> final(pool).is_elastic() == old(pool).is_elastic(),
        ({
            let active = final(pool).idle().len() + final(pool).busy() + fresh;
            &&& count > old(pool).size() && active <= count ==> active + r.1 == count
            &&& count > old(pool).size() && active > count ==> r.1 == 0
            &&& count <= old(pool).size() ==> old(pool).size() + r.1 == count
        }),
{
    assert(old(pool).idle() =~= r.0@ + final(pool).idle());
}

/// A pool of a given size: as long as those in use are not more already, it holds no more
/// connections than that once connections were asked for, and closes none where it holds no more.
pub proof fn lemma_size_is_kept(
    pool: &mut QueuePool,
    size: usize,
    opened: usize,
    set: (Vec<PooledConnection>, i64),
    asked: &mut QueuePool,
    request: u32,
    recycled: Vec<PooledConnection>,
    fresh: Vec<PooledConnection>,
    r: PoolGrant,
)
    requires
        old(pool).wf(),
        0 < size <= isize::MAX,
        old(pool).idle().len() + old(pool).busy() + opened <= isize::MAX,
        call_ensures(QueuePool::set_connection_count, (pool, size, opened), set),
        *old(asked) == *final(pool),
        recycled@.len() <= old(asked).busy(),
        old(asked).idle().len() + old(asked).busy() + fresh@.len() <= isize::MAX,
        call_ensures(QueuePool::get_connections, (asked, request, recycled, fresh), r),
    ensures
        ({
            let held = r.candidates@.len() + r.dropped@.len() + final(asked).idle().len();
            let busy = old(pool).busy() - recycled@.len();
            &&& r.open == 0
            &&& busy <= size ==> held + busy <= size
            &&& r.surplus@.len() > 0 && busy <= size ==> held + busy == size
            &&& r.surplus@.len() > 0 && busy > size ==> held == 0
            &&& held + busy < size ==> r.surplus@.len() == 0
        }),
{
    lemma_resized(pool, size, opened, set);
    lemma_grant(asked, request, recycled, fresh, r);
}

/// A fresh pool is elastic: it opens what is asked for, and closes nothing.
pub proof fn lemma_fresh_pool(
    pool: QueuePool,
    asked: &mut QueuePool,
    request: u32,
    fresh: Vec<PooledConnection>,
    recycled: Vec<PooledConnection>,
    r: PoolGrant,
)
    requires
        call_ensures(QueuePool::new, (), pool),
        *old(asked) == pool,
        recycled@.len() == 0,
        fresh@.len() <= isize::MAX,
        call_ensures(QueuePool::get_connections, (asked, request, recycled, fresh), r),
    ensures
        r.surplus@.len() == 0,
        request > fresh@.len() ==> r.open + fresh@.len() == request,
        request <= fresh@.len() ==> r.open == 0,
{
    lemma_grant(asked, request, recycled, fresh, r);
}

/// From asking for connections to using them none comes out of nothing, and none gets lost: those
/// that wait or are in use afterwards are those that did so before and those that were opened, but
/// for those that were closed and those that did not turn out ready; and what did not is opened
/// anew.
pub proof fn lemma_grant_completed(
    pool: &mut QueuePool,
    request: u32,
    recycled: Vec<PooledConnection>,
    fresh: Vec<PooledConnection>,
    r: PoolGrant,
    after: &mut QueuePool,
    ready: usize,
    broken: u64,
    failed: u64,
    open: u64,
)
    requires
        old(pool).wf(),
        recycled@.len() <= old(pool).busy(),
        old(pool).idle().len() + old(pool).busy() + fresh@.len() <= isize::MAX,
        call_ensures(QueuePool::get_connections, (pool, request, recycled, fresh), r),
        *old(after) == *final(pool),
        ready + broken == r.candidates@.len(),
        broken + r.dropped@.len() + failed <= u64::MAX,
        call_ensures(
            QueuePool::complete_grant,
            (after, ready, broken, r.dropped@.len() as u64, failed),
            open,
        ),
    ensures
        final(after).idle().len() + final(after).busy() + r.surplus@.len() + r.dropped@.len()
            + broken == old(pool).idle().len() + old(pool).busy() + fresh@.len(),
        open == broken + r.dropped@.len() + failed,
        final(after).size() == old(pool).size(),
        final(after).is_elastic() == old(pool).is_elastic(),
        final(after).idle() == final(pool).idle(),
{
    lemma_grant(pool, request, recycled, fresh, r);
}

/// The counts that can be read are those of the connections that wait, and that are in use.
pub proof fn lemma_counts(pool: QueuePool, idle: usize, busy: usize)
    requires
        call_ensures(QueuePool::idle_count, (&pool,), idle),
        call_ensures(QueuePool::busy_count, (&pool,), busy),
    ensures
        idle == pool.idle().len(),
        busy == pool.busy(),
{
}

/// A connection carries as many requests as it may, and no more: opened at `now` and used again and
/// again, it is to be dropped once it carried that many, or once it carried one when it had
/// expired; and not before.
pub proof fn lemma_lifetime(
    id: u64,
    now: u64,
    keep_alive: ConnectionKeepAlive,
    states: Seq<PooledConnection>,
    times: Seq<u64>,
    n: int,
)
    requires
        0 <= n,
        n < i32::MAX,
        states.len() == n + 1,
        times.len() == n,
        call_ensures(PooledConnection::open, (id, now, keep_alive), states[0]),
        forall|i: int|
            #![trigger states[i]]
            0 <= i < n ==> call_ensures(
                PooledConnection::used,
                (&states[i], times[i]),
                states[i + 1],
            ),
    ensures
        states[n].id == id,
        states[n].should_drop <==> (n > 0 && n >= keep_alive.max_request_per_connection) || exists|
            i: int,
        |
            0 <= i < n && #[trigger] times[i] > now + keep_alive.ttl,
{
    lemma_lifetime_to(id, now, keep_alive, states, times, n, n);
}

proof fn lemma_lifetime_to(
    id: u64,
    now: u64,
    keep_alive: ConnectionKeepAlive,
    states: Seq<PooledConnection>,
    times: Seq<u64>,
    n: int,
    k: int,
)
    requires
        0 <= k <= n,
        n < i32::MAX,
        states.len() == n + 1,
        times.len() == n,
        call_ensures(PooledConnection::open, (id, now, keep_alive), states[0]),
        forall|i: int|
            #![trigger states[i]]
            0 <= i < n ==> call_ensures(
                PooledConnection::used,
                (&states[i], times[i]),
                states[i + 1],
            ),
    ensures
        states[k].id == id,
        states[k].expire_at == states[0].expire_at,
        states[k].remaining_reuse == states[0].remaining_reuse - k,
        states[k].should_drop <==> (k > 0 && k >= keep_alive.max_request_per_connection) || exists|
            i: int,
        |
            0 <= i < k && #[trigger] times[i] > now + keep_alive.ttl,
    decreases k,
{
    if k > 0 {
        lemma_lifetime_to(id, now, keep_alive, states, times, n, k - 1);
        let before = states[k - 1];
        assert(call_ensures(PooledConnection::used, (&states[k - 1], times[k - 1]), states[k]));
        let late = |j: int|
            exists|i: int| 0 <= i < j && #[trigger] times[i] > now + keep_alive.ttl;
        assert(late(k) <==> late(k - 1) || times[k - 1] > now + keep_alive.ttl) by {
            if late(k - 1) {
                let i = choose|i: int|
                    0 <= i < k - 1 && #[trigger] times[i] > now + keep_alive.ttl;
                assert(0 <= i < k && times[i] > now + keep_alive.ttl);
            }
            if times[k - 1] > now + keep_alive.ttl {
                assert(0 <= k - 1 < k);
            }
        }
    }
}

/// Resizing what is not in use: where it shrinks, so many are taken away as it shrinks by, or all,
/// those that came back first and the newest first; where it grows, so many are opened.
pub proof fn lemma_containers_resized(
    recycled: &mut Vec<PooledConnection>,
    fresh: &mut Vec<PooledConnection>,
    diff: i64,
    open: u64,
)
    requires
        diff > i64::MIN,
        -diff <= usize::MAX,
        call_ensures(resize_connection_pool, (recycled, fresh, diff), open),
    ensures
        ({
            let before = old(recycled)@.len() + old(fresh)@.len();
            let after = final(recycled)@.len() + final(fresh)@.len();
            &&& final(recycled)@ == old(recycled)@.take(final(recycled)@.len() as int)
            &&& final(fresh)@ == old(fresh)@.take(final(fresh)@.len() as int)
            &&& diff >= 0 ==> open == diff && after == before
            &&& diff < 0 ==> open == 0
            &&& diff < 0 && before >= -diff ==> after == before + diff
            &&& diff < 0 && before < -diff ==> after == 0
            &&& final(fresh)@.len() < old(fresh)@.len() ==> final(recycled)@.len() == 0
        }),
{
    assert(final(recycled)@ =~= old(recycled)@.take(final(recycled)@.len() as int));
    assert(final(fresh)@ =~= old(fresh)@.take(final(fresh)@.len() as int));
}

/// A manager starts with one number as both bounds, and an update changes the upper one.
pub proof fn lemma_manager(
    first: u32,
    second: u32,
    made: ConcurrentConnectionCountManager,
    manager: &mut ConcurrentConnectionCountManager,
    low: u32,
    high: u32,
)
    requires
        call_ensures(ConcurrentConnectionCountManager::new, (first,), made),
        *old(manager) == made,
        call_ensures(ConcurrentConnectionCountManager::update, (manager, second), ()),
        call_ensures(ConcurrentConnectionCountManager::min_idle, (&*final(manager),), low),
        call_ensures(ConcurrentConnectionCountManager::max_size, (&*final(manager),), high),
    ensures
        low == first,
        high == second,
{
}

/// A fresh manager holds one connection.
pub proof fn lemma_manager_default(m: ConcurrentConnectionCountManager, least: u32, most: u32)
    requires
        call_ensures(ConcurrentConnectionCountManager::default, (), m),
        call_ensures(ConcurrentConnectionCountManager::min_idle, (&m,), least),
        call_ensures(ConcurrentConnectionCountManager::max_size, (&m,), most),
    ensures
        least == 1 && most == 1,
{
}

} // verus!
