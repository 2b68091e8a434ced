//! What is measured of a connection pool, as its connections come and go.

use vstd::prelude::*;

use crate::metrics::{Change, Metric, Metrics, Update};

verus! {

/// The changes are these, in this order, and none has a label.
pub open spec fn changes(us: Seq<Update>, expected: Seq<(Metric, Change)>) -> bool {
    &&& us.len() == expected.len()
    &&& forall|i: int|
        0 <= i < us.len() ==> {
            &&& (#[trigger] us[i]).metric == expected[i].0
            &&& us[i].change == expected[i].1
            &&& us[i].labels@.len() == 0
        }
}

/// By how much the changes move a gauge.
pub open spec fn moved(list: Seq<(Metric, Change)>, gauge: Metric) -> int
    decreases list.len(),
{
    if list.len() == 0 {
        0
    } else {
        moved(list.drop_last(), gauge) + match list.last().1 {
            Change::Add(n) => if list.last().0 == gauge {
                n as int
            } else {
                0
            },
            _ => 0,
        }
    }
}

/// Surplus connections are closed.
pub open spec fn surplus_changes(surplus: i64) -> Seq<(Metric, Change)> {
    if surplus == 0 {
        Seq::empty()
    } else {
        seq![
            (Metric::ConnectionDropped, Change::IncrementBy(surplus as u64)),
            (Metric::ConnectionIdle, Change::Add((-surplus) as i64)),
        ]
    }
}

/// Connections are given out, after some turned out broken and some were dropped.
pub open spec fn granted_changes(ready: i64, broken: u64, dropped: u64) -> Seq<(Metric, Change)> {
    seq![
        (Metric::ConnectionBroken, Change::IncrementBy(broken)),
        (Metric::ConnectionDropped, Change::IncrementBy((broken + dropped) as u64)),
        (Metric::ConnectionBusy, Change::Add(ready)),
        (Metric::ConnectionIdle, Change::Add((-ready) as i64)),
    ]
}

/// One connection comes back.
pub open spec fn returned_changes() -> Seq<(Metric, Change)> {
    seq![(Metric::ConnectionBusy, Change::Add((-1) as i64)), (Metric::ConnectionIdle, Change::Add(1))]
}

/// Connections were opened.
pub open spec fn opened_changes(opened: i64) -> Seq<(Metric, Change)> {
    seq![
        (Metric::ConnectionSuccess, Change::IncrementBy(opened as u64)),
        (Metric::ConnectionIdle, Change::Add(opened)),
    ]
}

/// What changes when surplus connections are closed.
pub fn on_surplus(surplus: usize) -> (r: Vec<Update>)
    requires
        surplus <= i64::MAX,
    ensures
        changes(r@, surplus_changes(surplus as i64)),
{
    let mut r: Vec<Update> = Vec::new();
    if surplus > 0 {
        r.push(Metrics::pool_connection_dropped(surplus as u64));
        r.push(Metrics::pool_connection_idle(-(surplus as i64)));
    }
    r
}

/// What changes when connections are given out.
pub fn on_granted(ready: usize, broken: u64, dropped: u64) -> (r: Vec<Update>)
    requires
        ready <= i64::MAX,
        broken + dropped <= u64::MAX,
    ensures
        changes(r@, granted_changes(ready as i64, broken, dropped)),
{
    let mut r: Vec<Update> = Vec::new();
    r.push(Metrics::pool_connection_broken(broken));
    r.push(Metrics::pool_connection_dropped(broken + dropped));
    r.push(Metrics::pool_connection_busy(ready as i64));
    r.push(Metrics::pool_connection_idle(-(ready as i64)));
    r
}

/// What changes when a connection comes back.
pub fn on_returned() -> (r: Vec<Update>)
    ensures
        changes(r@, returned_changes()),
{
    let mut r: Vec<Update> = Vec::new();
    r.push(Metrics::pool_connection_busy(-1));
    r.push(Metrics::pool_connection_idle(1));
    r
}

/// What changes when connections are about to be opened.
pub fn on_attempt(count: u64) -> (r: Update)
    ensures
        changes(seq![r], seq![(Metric::ConnectionAttempt, Change::IncrementBy(count))]),
{
    Metrics::pool_connection_attempt(count)
}

/// How many of `count` connections failed to open, and what changes for those that did not.
pub fn on_opened(count: usize, opened: usize) -> (r: (usize, Vec<Update>))
    requires
        opened <= count <= i64::MAX,
    ensures
        r.0 == count - opened,
        changes(r.1@, opened_changes(opened as i64)),
{
    let mut updates: Vec<Update> = Vec::new();
    updates.push(Metrics::pool_connection_success(opened as u64));
    updates.push(Metrics::pool_connection_idle(opened as i64));
    (count - opened, updates)
}

proof fn lemma_moved_pair(a: (Metric, Change), b: (Metric, Change), gauge: Metric)
    ensures
        moved(seq![a, b], gauge) == moved(seq![a], gauge) + moved(seq![b], gauge),
        moved(seq![a], gauge) == (match a.1 {
            Change::Add(n) => if a.0 == gauge {
                n as int
            } else {
                0
            },
            _ => 0,
        }),
{
    reveal_with_fuel(moved, 3);
    assert(seq![a, b].drop_last() =~= seq![a]);
    assert(seq![a].drop_last() =~= Seq::empty());
    assert(seq![b].drop_last() =~= Seq::empty());
}

proof fn lemma_moved_concat(a: Seq<(Metric, Change)>, b: Seq<(Metric, Change)>, gauge: Metric)
    ensures
        moved(a + b, gauge) == moved(a, gauge) + moved(b, gauge),
    decreases b.len(),
{
    if b.len() == 0 {
        assert(a + b =~= a);
    } else {
        assert((a + b).drop_last() =~= a + b.drop_last());
        lemma_moved_concat(a, b.drop_last(), gauge);
    }
}

/// A connection that is opened, given out and returned is counted as one free connection and as
/// no busy one; and whatever is given out moves from the free connections to the busy ones.
pub proof fn lemma_gauges(ready: i64, broken: u64, dropped: u64)
    requires
        0 <= ready,
        broken + dropped <= u64::MAX,
    ensures
        ({
            let grant = granted_changes(ready, broken, dropped);
            moved(grant, Metric::ConnectionBusy) == ready && moved(grant, Metric::ConnectionIdle)
                == -ready
        }),
        ({
            let all = opened_changes(1) + granted_changes(1, broken, dropped) + returned_changes();
            moved(all, Metric::ConnectionBusy) == 0 && moved(all, Metric::ConnectionIdle) == 1
        }),
{
    lemma_granted(ready, broken, dropped);
    lemma_granted(1, broken, dropped);
    let opened = opened_changes(1);
    let grant = granted_changes(1, broken, dropped);
    let back = returned_changes();
    let busy = Metric::ConnectionBusy;
    let idle = Metric::ConnectionIdle;
    lemma_moved_concat(opened + grant, back, busy);
    lemma_moved_concat(opened, grant, busy);
    lemma_moved_concat(opened + grant, back, idle);
    lemma_moved_concat(opened, grant, idle);
    lemma_moved_pair(opened[0], opened[1], busy);
    lemma_moved_pair(opened[1], opened[0], busy);
    lemma_moved_pair(opened[0], opened[1], idle);
    lemma_moved_pair(opened[1], opened[0], idle);
    lemma_moved_pair(back[0], back[1], busy);
    lemma_moved_pair(back[1], back[0], busy);
    lemma_moved_pair(back[0], back[1], idle);
    lemma_moved_pair(back[1], back[0], idle);
}

proof fn lemma_granted(ready: i64, broken: u64, dropped: u64)
    requires
        0 <= ready,
    ensures
        moved(granted_changes(ready, broken, dropped), Metric::ConnectionBusy) == ready,
        moved(granted_changes(ready, broken, dropped), Metric::ConnectionIdle) == -ready,
{
    let all = granted_changes(ready, broken, dropped);
    let counted = seq![all[0], all[1]];
    let gauged = seq![all[2], all[3]];
    assert(all =~= counted + gauged);
    lemma_moved_concat(counted, gauged, Metric::ConnectionBusy);
    lemma_moved_concat(counted, gauged, Metric::ConnectionIdle);
    lemma_moved_pair(all[0], all[1], Metric::ConnectionBusy);
    lemma_moved_pair(all[1], all[0], Metric::ConnectionBusy);
    lemma_moved_pair(all[2], all[3], Metric::ConnectionBusy);
    lemma_moved_pair(all[3], all[2], Metric::ConnectionBusy);
    lemma_moved_pair(all[0], all[1], Metric::ConnectionIdle);
    lemma_moved_pair(all[1], all[0], Metric::ConnectionIdle);
    lemma_moved_pair(all[2], all[3], Metric::ConnectionIdle);
    lemma_moved_pair(all[3], all[2], Metric::ConnectionIdle);
}

} // verus!
