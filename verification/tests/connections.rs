//! Pools of connections, and the cycles in which they are used.

use overload::cycle::{
    bundle_size, fixed_bundle_size, has_time, sends_any, time_remaining, CycleState, Progress,
    RequestCycle, RequestRing, Supply,
};
use overload::http_api::ConnectionKeepAlive;
use overload::http_req::HttpReq;
use overload::metrics::{Change, Metric, Update};
use overload::pool::{
    get_expiry, resize_conn_container, resize_connection_pool, ConcurrentConnectionCountManager,
    PooledConnection, QueuePool,
};
use overload::pool_metrics::{on_attempt, on_granted, on_opened, on_returned, on_surplus};
use overload::text_map::TextMap;

fn connection(id: u64) -> PooledConnection {
    PooledConnection::open(id, 0, ConnectionKeepAlive::default())
}

fn ids(list: &[PooledConnection]) -> Vec<u64> {
    list.iter().map(|c| c.id).collect()
}

#[test]
fn connections_wear_out() {
    let keep = ConnectionKeepAlive { ttl: 10, max_request_per_connection: 2 };
    let c = PooledConnection::open(1, 100, keep);
    assert_eq!(c.expire_at, 110);
    assert!(!c.used(105).should_drop);
    assert!(c.used(105).used(105).should_drop);
    assert!(c.used(111).should_drop);
    assert_eq!(get_expiry(u64::MAX - 1, 5), u64::MAX);
    assert_eq!(connection(1).remaining_reuse, i32::MAX);
}

#[test]
fn a_pool_that_grows_as_needed() {
    let mut pool = QueuePool::new();
    let grant = pool.get_connections(3, vec![], vec![]);
    assert_eq!(grant.open, 3);
    assert!(grant.candidates.is_empty());
    let fresh = vec![connection(1), connection(2), connection(3)];
    let grant = pool.get_connections(2, vec![], fresh);
    assert_eq!(ids(&grant.candidates), vec![1, 2]);
    assert_eq!(pool.complete_grant(2, 0, 0, 0), 0);
    assert_eq!((pool.idle_count(), pool.busy_count()), (1, 2));
    let grant = pool.get_connections(3, vec![connection(1)], vec![]);
    assert_eq!(ids(&grant.candidates), vec![3, 1]);
    assert_eq!(grant.open, 1);
}

#[test]
fn a_pool_of_a_given_size() {
    let mut pool = QueuePool::new();
    let (surplus, diff) = pool.set_connection_count(2, 0);
    assert!(surplus.is_empty());
    assert_eq!(diff, 2);
    let fresh = vec![connection(1), connection(2), connection(3)];
    let grant = pool.get_connections(5, vec![], fresh);
    assert_eq!(ids(&grant.candidates), vec![1, 2]);
    assert_eq!(ids(&grant.surplus), vec![3]);
    assert_eq!(grant.open, 0);
    pool.complete_grant(2, 0, 0, 0);
    let (_, diff) = pool.set_connection_count(1, 0);
    assert_eq!(diff, -1);
}

#[test]
fn worn_out_connections_are_dropped() {
    let mut pool = QueuePool::new();
    let mut worn = connection(1);
    worn.should_drop = true;
    let grant = pool.get_connections(2, vec![], vec![worn, connection(2)]);
    assert_eq!(ids(&grant.dropped), vec![1]);
    assert_eq!(ids(&grant.candidates), vec![2]);
    assert_eq!(pool.complete_grant(1, 2, 1, 3), 6);
}

#[test]
fn containers_shrink_from_their_end() {
    let mut container = vec![connection(1), connection(2), connection(3)];
    assert_eq!(resize_conn_container(&mut container, 2), 2);
    assert_eq!(ids(&container), vec![1]);
    assert_eq!(resize_conn_container(&mut container, 2), 1);
    assert!(container.is_empty());

    let mut recycled = vec![connection(1)];
    let mut fresh = vec![connection(2), connection(3)];
    assert_eq!(resize_connection_pool(&mut recycled, &mut fresh, -2), 0);
    assert!(recycled.is_empty());
    assert_eq!(ids(&fresh), vec![2]);
    assert_eq!(resize_connection_pool(&mut recycled, &mut fresh, 4), 4);
}

#[test]
fn limits_of_a_pool() {
    let mut manager = ConcurrentConnectionCountManager::new(3);
    assert_eq!((manager.min_idle(), manager.max_size()), (3, 3));
    manager.update(10);
    assert_eq!((manager.min_idle(), manager.max_size()), (3, 10));
}

#[test]
fn requests_of_a_cycle() {
    assert!(RequestCycle::start(0, 5).is_none());
    let mut cycle = RequestCycle::start(7, 5).unwrap();
    assert_eq!(cycle.request(100), Some(5));
    assert_eq!(cycle.request(-1), None);
    assert_eq!(cycle.supply(5, 0), Supply::Retry);
    assert_eq!(cycle.supply(5, 3), Supply::Partial);
    assert_eq!(cycle.supply(5, 5), Supply::Full);
    assert_eq!(cycle.sent(5, 100), Progress::Pause);
    assert_eq!(cycle.request(100), Some(2));
    assert_eq!(cycle.sent(2, 100), Progress::Done);
    assert_eq!(cycle.remaining(), 0);
    assert_eq!(cycle.bundle(), 5);
    let mut late = RequestCycle::start(7, 5).unwrap();
    assert_eq!(late.sent(5, -1), Progress::GiveUp);
}

#[test]
fn time_in_a_cycle() {
    assert_eq!(time_remaining(300), 700);
    assert_eq!(time_remaining(1300), -300);
    assert!(has_time(1));
    assert!(!has_time(0));
    let mut state = CycleState::new();
    let start = state.begin(4);
    assert_eq!((start.resize, start.head_start), (Some(4), 0));
    state.end(1200);
    let start = state.begin(4);
    assert_eq!((start.resize, start.head_start), (None, 200));
    state.end(900);
    assert_eq!(state.begin(5).head_start, 0);
}

#[test]
fn bundles_of_requests() {
    assert_eq!(fixed_bundle_size(100, 0), 10);
    assert_eq!(bundle_size(100, 10, 50), 10);
    assert_eq!(bundle_size(10000, 0, 50), 101);
    assert_eq!(bundle_size(3, 0, 50), 3);
}

fn shown(updates: &[Update]) -> Vec<(Metric, Change)> {
    updates.iter().map(|u| (u.metric, u.change)).collect()
}

#[test]
fn measures_of_a_pool() {
    assert!(on_surplus(0).is_empty());
    assert_eq!(
        shown(&on_surplus(3)),
        vec![
            (Metric::ConnectionDropped, Change::IncrementBy(3)),
            (Metric::ConnectionIdle, Change::Add(-3)),
        ]
    );
    assert_eq!(
        shown(&on_granted(5, 2, 1)),
        vec![
            (Metric::ConnectionBroken, Change::IncrementBy(2)),
            (Metric::ConnectionDropped, Change::IncrementBy(3)),
            (Metric::ConnectionBusy, Change::Add(5)),
            (Metric::ConnectionIdle, Change::Add(-5)),
        ]
    );
    assert_eq!(
        shown(&on_returned()),
        vec![
            (Metric::ConnectionBusy, Change::Add(-1)),
            (Metric::ConnectionIdle, Change::Add(1)),
        ]
    );
    assert_eq!(
        shown(&[on_attempt(4)]),
        vec![(Metric::ConnectionAttempt, Change::IncrementBy(4))]
    );
    let (failed, updates) = on_opened(10, 7);
    assert_eq!(failed, 3);
    assert_eq!(
        shown(&updates),
        vec![
            (Metric::ConnectionSuccess, Change::IncrementBy(7)),
            (Metric::ConnectionIdle, Change::Add(7)),
        ]
    );
}

#[test]
fn a_connection_that_came_back_is_free_again() {
    let mut updates = on_opened(1, 1).1;
    updates.extend(on_granted(1, 0, 0));
    updates.extend(on_returned());
    let moved = |gauge: Metric| -> i64 {
        updates
            .iter()
            .map(|u| match u.change {
                Change::Add(n) if u.metric == gauge => n,
                _ => 0,
            })
            .sum()
    };
    assert_eq!(moved(Metric::ConnectionBusy), 0);
    assert_eq!(moved(Metric::ConnectionIdle), 1);
}

#[test]
fn requests_go_round() {
    assert!(!sends_any(0, 3));
    assert!(!sends_any(3, 0));
    assert!(sends_any(1, 1));
    let list: Vec<HttpReq> = ["a", "b", "c"]
        .iter()
        .map(|id| HttpReq {
            id: id.to_string(),
            method: "GET".to_string(),
            url: "/".to_string(),
            body: None,
            headers: TextMap::new(),
        })
        .collect();
    let ids = |list: &[HttpReq]| list.iter().map(|r| r.id.clone()).collect::<Vec<_>>().concat();
    let mut ring = RequestRing::new();
    assert_eq!(ids(&ring.next_n(&list, 2)), "ab");
    assert_eq!(ids(&ring.next_n(&list, 5)), "cabca");
    assert_eq!(ids(&ring.next_n(&list, 0)), "");
    assert_eq!(ids(&ring.next_n(&list, 1)), "b");
}
