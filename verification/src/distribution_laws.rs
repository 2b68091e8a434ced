//! Laws of how work is divided: nothing is added, nothing is lost, and no node gets more than one
//! unit more than another.

use std::collections::VecDeque;
use vstd::arithmetic::div_mod::{lemma_fundamental_div_mod, lemma_mod_bound};
use vstd::prelude::*;

use crate::distribution::{
    boundary, calculate_rates_per_secondary, calculate_req_per_secondary, firsts, lemma_boundaries,
    lemma_boundary_step, lemma_firsts, lemma_ranges_cover, offered, range_of, share, split_ranges,
    Second,
};
use crate::executor::{ClusterExecution, Dispatch};
use crate::http_req::{req_same, HttpReq};
use crate::jobs::JobTable;
use crate::request_specs::RequestSpecEnum;
use crate::session::{rate_messages, RateMessage};
use crate::split_request::{process_request, SplitPlan};

verus! {

/// The sum of numbers.
pub open spec fn sum(list: Seq<int>) -> int
    decreases list.len(),
{
    if list.len() == 0 {
        0
    } else {
        sum(list.drop_last()) + list.last()
    }
}

/// The numbers add up to the total, none is negative, and no two differ by more than one.
pub open spec fn even(list: Seq<int>, total: int) -> bool {
    &&& sum(list) == total
    &&& forall|i: int| 0 <= i < list.len() ==> #[trigger] list[i] >= 0
    &&& forall|i: int, j: int|
        0 <= i < list.len() && 0 <= j < list.len() ==> #[trigger] list[i] - #[trigger] list[j] <= 1
}

/// None of the numbers is smaller than one that follows it.
pub open spec fn falling(list: Seq<int>) -> bool {
    forall|i: int, j: int| 0 <= i <= j < list.len() ==> #[trigger] list[i] >= #[trigger] list[j]
}

/// None of the numbers is greater than one that follows it.
pub open spec fn rising(list: Seq<int>) -> bool {
    forall|i: int, j: int| 0 <= i <= j < list.len() ==> #[trigger] list[i] <= #[trigger] list[j]
}

/// A list of numbers.
pub open spec fn numbers(list: Seq<u32>) -> Seq<int> {
    Seq::new(list.len(), |i: int| list[i] as int)
}

/// What the rows hold in column `p`.
pub open spec fn column(rows: Seq<Vec<u32>>, p: int) -> Seq<int> {
    Seq::new(rows.len(), |i: int| rows[i]@[p] as int)
}

/// What the rows hold in all, in the first `width` columns.
pub open spec fn table_sum(rows: Seq<Vec<u32>>, width: int) -> int
    decreases width,
{
    if width <= 0 {
        0
    } else {
        table_sum(rows, width - 1) + sum(column(rows, width - 1))
    }
}

/// The numbers of `list` one by one, and zero behind its end.
pub open spec fn at_or_zero(list: Seq<int>, p: int) -> int {
    if 0 <= p < list.len() {
        list[p]
    } else {
        0
    }
}

pub open spec fn requests_of(seconds: Seq<Second>) -> Seq<int> {
    Seq::new(seconds.len(), |p: int| seconds[p].0 as int)
}

pub open spec fn connections_of(seconds: Seq<Second>) -> Seq<int> {
    Seq::new(seconds.len(), |p: int| seconds[p].2 as int)
}

spec fn all_shares(total: int, n: int) -> Seq<int> {
    Seq::new(n as nat, |i: int| share(total, n, i))
}

proof fn lemma_sum_shares(total: int, n: int, k: int)
    requires
        total >= 0,
        n > 0,
        0 <= k <= n,
    ensures
        sum(all_shares(total, n).take(k)) == boundary(total, n, k),
    decreases k,
{
    let list = all_shares(total, n);
    lemma_boundaries(total, n, 0);
    if k > 0 {
        lemma_sum_shares(total, n, k - 1);
        lemma_boundary_step(total, n, k - 1);
        assert(list.take(k).drop_last() =~= list.take(k - 1));
        assert(list.take(k).last() == list[k - 1]);
    }
}

proof fn lemma_shares_even(total: int, n: int)
    requires
        total >= 0,
        n > 0,
    ensures
        even(all_shares(total, n), total),
        falling(all_shares(total, n)),
{
    let list = all_shares(total, n);
    lemma_sum_shares(total, n, n);
    lemma_boundaries(total, n, n);
    lemma_boundaries(total, n, 0);
    assert(list.take(n) =~= list);
}

proof fn lemma_sum_zero(list: Seq<int>)
    requires
        forall|i: int| 0 <= i < list.len() ==> #[trigger] list[i] == 0,
    ensures
        sum(list) == 0,
    decreases list.len(),
{
    if list.len() > 0 {
        lemma_sum_zero(list.drop_last());
    }
}

proof fn lemma_sum_reverse(list: Seq<int>, back: Seq<int>)
    requires
        back.len() == list.len(),
        forall|i: int| 0 <= i < list.len() ==> #[trigger] back[i] == list[list.len() - 1 - i],
    ensures
        sum(back) == sum(list),
    decreases list.len(),
{
    if list.len() > 0 {
        let rest = list.skip(1);
        lemma_sum_reverse(rest, back.drop_last());
        lemma_sum_first(list);
        assert(back.last() == list[0]);
    }
}

proof fn lemma_sum_first(list: Seq<int>)
    requires
        list.len() > 0,
    ensures
        sum(list) == list[0] + sum(list.skip(1)),
    decreases list.len(),
{
    if list.len() == 1 {
        assert(list.drop_last() =~= Seq::empty());
        assert(list.skip(1) =~= Seq::empty());
    } else {
        lemma_sum_first(list.drop_last());
        assert(list.drop_last().skip(1) =~= list.skip(1).drop_last());
        assert(list.skip(1).last() == list.last());
    }
}

/// In every second the secondaries together send what the test asks for, and hold as many
/// connections; no one sends more than one request more than another, and the first ones send more.
pub proof fn lemma_rates_are_divided(
    qps: u32,
    connections: u32,
    n: usize,
    r: (Vec<u32>, Vec<u32>),
)
    requires
        0 < n <= u32::MAX,
        call_ensures(calculate_rates_per_secondary, (qps, connections, n), r),
    ensures
        r.0@.len() == n,
        r.1@.len() == n,
        even(numbers(r.0@), qps as int),
        even(numbers(r.1@), connections as int),
        falling(numbers(r.0@)),
        falling(numbers(r.1@)),
{
    lemma_shares_even(qps as int, n as int);
    lemma_shares_even(connections as int, n as int);
    assert(numbers(r.0@) =~= all_shares(qps as int, n as int));
    assert(numbers(r.1@) =~= all_shares(connections as int, n as int));
}

/// What the messages to the nodes say of requests, and of connections.
pub open spec fn told(list: Seq<RateMessage>) -> (Seq<int>, Seq<int>) {
    (
        Seq::new(list.len(), |i: int| list[i].qps as int),
        Seq::new(list.len(), |i: int| list[i].connections as int),
    )
}

/// The messages of a second tell the nodes together to send what the test asks for, and to hold as
/// many connections.
pub proof fn lemma_messages_are_divided(
    qps: u32,
    connections: u32,
    n: usize,
    r: Vec<RateMessage>,
)
    requires
        0 < n <= u32::MAX,
        call_ensures(rate_messages, (qps, connections, n), r),
    ensures
        r@.len() == n,
        even(told(r@).0, qps as int),
        even(told(r@).1, connections as int),
        falling(told(r@).0),
        falling(told(r@).1),
{
    lemma_shares_even(qps as int, n as int);
    lemma_shares_even(connections as int, n as int);
    assert(told(r@).0 =~= all_shares(qps as int, n as int));
    assert(told(r@).1 =~= all_shares(connections as int, n as int));
}

proof fn lemma_table_sum(rows: Seq<Vec<u32>>, rates: Seq<int>, width: int)
    requires
        rates.len() <= width,
        forall|p: int|
            0 <= p < width ==> #[trigger] sum(column(rows, p)) == at_or_zero(rates, p),
    ensures
        table_sum(rows, width) == sum(rates),
    decreases width,
{
    if width > rates.len() {
        assert(sum(column(rows, width - 1)) == 0);
        lemma_table_sum(rows, rates, width - 1);
    } else if width > 0 {
        let rest = rates.drop_last();
        assert forall|p: int| 0 <= p < width - 1 implies #[trigger] sum(column(rows, p))
            == at_or_zero(rest, p) by {
            assert(sum(column(rows, p)) == at_or_zero(rates, p));
        }
        lemma_table_sum(rows, rest, width - 1);
        assert(sum(column(rows, width - 1)) == rates.last());
    }
}

proof fn lemma_column(rows: Seq<Vec<u32>>, rates: Seq<int>, p: int)
    requires
        rows.len() > 0,
        0 <= p,
        0 <= p < rates.len() ==> rates[p] >= 0,
        forall|i: int|
            0 <= i < rows.len() ==> #[trigger] rows[i]@[p] == (if p < rates.len() {
                share(rates[p], rows.len() as int, i)
            } else {
                0
            }),
    ensures
        even(column(rows, p), at_or_zero(rates, p)),
        falling(column(rows, p)),
{
    let n = rows.len() as int;
    if p < rates.len() {
        lemma_shares_even(rates[p], n);
        assert(column(rows, p) =~= all_shares(rates[p], n));
    } else {
        lemma_sum_zero(column(rows, p));
    }
}

/// Second by second, what all nodes send of a bundle adds up to the rate of that second, and to
/// nothing behind the last second that there is; so it adds up to the sum of the rates in all. The
/// same holds of the connections.
pub proof fn lemma_bundle_is_divided(
    seconds: Vec<Second>,
    bundle_size: usize,
    n: usize,
    r: (Vec<Vec<u32>>, Vec<HttpReq>, Vec<Vec<u32>>),
)
    requires
        0 < n <= u32::MAX,
        seconds@.len() <= bundle_size,
        call_ensures(calculate_req_per_secondary, (&seconds, bundle_size, n), r),
    ensures
        r.0@.len() == n,
        r.2@.len() == n,
        forall|i: int| 0 <= i < n ==> (#[trigger] r.0@[i])@.len() == bundle_size,
        forall|i: int| 0 <= i < n ==> (#[trigger] r.2@[i])@.len() == bundle_size,
        forall|p: int|
            0 <= p < bundle_size ==> even(
                #[trigger] column(r.0@, p),
                at_or_zero(requests_of(seconds@), p),
            ) && falling(column(r.0@, p)),
        forall|p: int|
            0 <= p < bundle_size ==> even(
                #[trigger] column(r.2@, p),
                at_or_zero(connections_of(seconds@), p),
            ) && falling(column(r.2@, p)),
        table_sum(r.0@, bundle_size as int) == sum(requests_of(seconds@)),
        table_sum(r.2@, bundle_size as int) == sum(connections_of(seconds@)),
{
    let sent = requests_of(seconds@);
    let held = connections_of(seconds@);
    assert forall|p: int| 0 <= p < bundle_size implies even(
        #[trigger] column(r.0@, p),
        at_or_zero(sent, p),
    ) && falling(column(r.0@, p)) by {
        assert forall|i: int| 0 <= i < n implies #[trigger] r.0@[i]@[p] == (if p < sent.len() {
            share(sent[p], n as int, i)
        } else {
            0
        }) by {}
        lemma_column(r.0@, sent, p);
    }
    assert forall|p: int| 0 <= p < bundle_size implies even(
        #[trigger] column(r.2@, p),
        at_or_zero(held, p),
    ) && falling(column(r.2@, p)) by {
        assert forall|i: int| 0 <= i < n implies #[trigger] r.2@[i]@[p] == (if p < held.len() {
            share(held[p], n as int, i)
        } else {
            0
        }) by {}
        lemma_column(r.2@, held, p);
    }
    lemma_table_sum(r.0@, sent, bundle_size as int);
    lemma_table_sum(r.2@, held, bundle_size as int);
}

/// Request `q` is one of those that the seconds offer.
pub open spec fn is_offered(seconds: Seq<Second>, q: HttpReq) -> bool {
    exists|p: int, k: int|
        0 <= p < seconds.len() && 0 <= k < seconds[p].1@.len() && req_same(
            q,
            #[trigger] seconds[p].1@[k],
        )
}

proof fn lemma_firsts_member(list: Seq<HttpReq>, m: int)
    requires
        0 <= m < firsts(list).len(),
    ensures
        exists|a: int| 0 <= a < list.len() && #[trigger] list[a] == firsts(list)[m],
    decreases list.len(),
{
    let rest = list.drop_last();
    if m < firsts(rest).len() {
        lemma_firsts_member(rest, m);
        let a = choose|a: int| 0 <= a < rest.len() && #[trigger] rest[a] == firsts(rest)[m];
        assert(list[a] == firsts(list)[m]);
    } else {
        assert(list[list.len() - 1] == firsts(list)[m]);
    }
}

proof fn lemma_offered_member(seconds: Seq<Second>, a: int)
    requires
        0 <= a < offered(seconds).len(),
    ensures
        exists|p: int, k: int|
            0 <= p < seconds.len() && 0 <= k < seconds[p].1@.len() && #[trigger] seconds[p].1@[k]
                == offered(seconds)[a],
    decreases seconds.len(),
{
    let rest = seconds.drop_last();
    let before = offered(rest);
    if a < before.len() {
        lemma_offered_member(rest, a);
        let (p, k) = choose|p: int, k: int|
            0 <= p < rest.len() && 0 <= k < rest[p].1@.len() && #[trigger] rest[p].1@[k]
                == before[a];
        assert(seconds[p].1@[k] == offered(seconds)[a]);
    } else {
        let p = seconds.len() - 1;
        assert(seconds[p].1@[a - before.len()] == offered(seconds)[a]);
    }
}

proof fn lemma_offered_all(seconds: Seq<Second>, p: int, k: int)
    requires
        0 <= p < seconds.len(),
        0 <= k < seconds[p].1@.len(),
    ensures
        exists|a: int| 0 <= a < offered(seconds).len() && #[trigger] offered(seconds)[a]
            == seconds[p].1@[k],
    decreases seconds.len(),
{
    let rest = seconds.drop_last();
    let before = offered(rest);
    if p < rest.len() {
        lemma_offered_all(rest, p, k);
        let a = choose|a: int| 0 <= a < before.len() && #[trigger] before[a] == rest[p].1@[k];
        assert(offered(seconds)[a] == seconds[p].1@[k]);
    } else {
        assert(offered(seconds)[before.len() + k] == seconds[p].1@[k]);
    }
}

/// The nodes are given every request that the seconds of a bundle offer, by its id, each id once,
/// and nothing else.
pub proof fn lemma_bundle_offers_all(
    seconds: Vec<Second>,
    bundle_size: usize,
    n: usize,
    r: (Vec<Vec<u32>>, Vec<HttpReq>, Vec<Vec<u32>>),
)
    requires
        0 < n <= u32::MAX,
        seconds@.len() <= bundle_size,
        call_ensures(calculate_req_per_secondary, (&seconds, bundle_size, n), r),
    ensures
        forall|m: int| 0 <= m < r.1@.len() ==> is_offered(seconds@, #[trigger] r.1@[m]),
        forall|m: int, l: int|
            0 <= m < l < r.1@.len() ==> (#[trigger] r.1@[m]).id@ != (#[trigger] r.1@[l]).id@,
        forall|p: int, k: int|
            0 <= p < seconds@.len() && 0 <= k < seconds@[p].1@.len() ==> exists|m: int|
                0 <= m < r.1@.len() && (#[trigger] r.1@[m]).id@ == (
                #[trigger] seconds@[p].1@[k]).id@,
{
    let all = offered(seconds@);
    let kept = firsts(all);
    lemma_firsts(all);
    assert forall|m: int| 0 <= m < r.1@.len() implies is_offered(seconds@, #[trigger] r.1@[m]) by {
        lemma_firsts_member(all, m);
        let a = choose|a: int| 0 <= a < all.len() && #[trigger] all[a] == kept[m];
        lemma_offered_member(seconds@, a);
        let (p, k) = choose|p: int, k: int|
            0 <= p < seconds@.len() && 0 <= k < seconds@[p].1@.len() && #[trigger] seconds@[p].1@[k]
                == all[a];
        assert(req_same(r.1@[m], seconds@[p].1@[k]));
    }
    assert forall|p: int, k: int|
        0 <= p < seconds@.len() && 0 <= k < seconds@[p].1@.len() implies exists|m: int|
        0 <= m < r.1@.len() && (#[trigger] r.1@[m]).id@ == (#[trigger] seconds@[p].1@[k]).id@ by {
        let id = seconds@[p].1@[k].id@;
        lemma_offered_all(seconds@, p, k);
        let a = choose|a: int|
            0 <= a < all.len() && #[trigger] all[a] == seconds@[p].1@[k];
        assert(all[a].id@ == id);
        assert(crate::distribution::id_among(all, id));
        assert(crate::distribution::id_among(kept, id));
        let m = choose|m: int| 0 <= m < kept.len() && (#[trigger] kept[m]).id@ == id;
        assert(r.1@[m].id@ == id);
    }
}

/// Where there is a row for every node, the ranges of rows follow each other from the first row to
/// the last, and no two differ by more than one row.
pub proof fn lemma_rows_are_divided(size: usize, n: usize, r: VecDeque<(usize, usize)>)
    requires
        0 < n <= size,
        call_ensures(split_ranges, (size, n), r),
    ensures
        r@.len() == n,
        r@[0].0 == 1,
        r@[n - 1].1 == size,
        forall|i: int| 0 <= i < n ==> (#[trigger] r@[i]).0 <= r@[i].1,
        forall|i: int|
            #![trigger r@[i]]
            0 <= i < n - 1 ==> r@[i + 1].0 == r@[i].1 + 1,
        forall|i: int, j: int|
            0 <= i <= j < n ==> {
                let a = (#[trigger] r@[i]).1 - r@[i].0;
                let b = (#[trigger] r@[j]).1 - r@[j].0;
                b <= a <= b + 1
            },
{
    let s = size as int;
    let m = n as int;
    lemma_ranges_cover(s, m, 0);
    assert(r@[0].0 == range_of(s, m, 0).0);
    assert(r@[m - 1].1 == range_of(s, m, m - 1).1);
    assert forall|i: int| 0 <= i < n implies (#[trigger] r@[i]).0 <= r@[i].1 by {
        lemma_ranges_cover(s, m, i);
    }
    assert forall|i: int| #![trigger r@[i]] 0 <= i < n - 1 implies r@[i + 1].0 == r@[i].1 + 1 by {
        lemma_ranges_cover(s, m, i);
        assert(r@[i + 1].0 == range_of(s, m, i + 1).0);
    }
    assert forall|i: int, j: int| 0 <= i <= j < n implies ({
        let a = (#[trigger] r@[i]).1 - r@[i].0;
        let b = (#[trigger] r@[j]).1 - r@[j].0;
        b <= a <= b + 1
    }) by {
        lemma_range_length(s, m, i);
        lemma_range_length(s, m, j);
    }
}

proof fn lemma_range_length(size: int, n: int, i: int)
    requires
        0 < n <= size,
        0 <= i < n,
    ensures
        range_of(size, n, i).1 - range_of(size, n, i).0 == share(size, n, i) - 1,
{
    lemma_ranges_cover(size, n, i);
    lemma_boundary_step(size, n, i);
    lemma_boundaries(size, n, i);
    lemma_boundaries(size, n, i + 1);
    lemma_fundamental_div_mod(size, n);
    lemma_mod_bound(size, n);
    assert(size / n >= 1) by {
        if size / n == 0 {
            assert(n * 0 == 0) by (nonlinear_arith);
        }
    }
}

/// Where there is a row for every node, each node reads its own part of a request file, the parts
/// follow each other from the first row to the last, and each starts to read where its part begins.
pub proof fn lemma_file_is_divided(
    req: RequestSpecEnum,
    rows: usize,
    nodes: Vec<String>,
    r: SplitPlan,
)
    requires
        req is SplitRequestFile,
        0 < nodes@.len() <= rows,
        call_ensures(process_request, (&req, Some(rows), &nodes), r),
    ensures
        r.sends@.len() == nodes@.len(),
        r.sends@[0].range_start_inclusive == 1,
        r.sends@.last().range_end_inclusive == rows,
        forall|i: int|
            0 <= i < r.sends@.len() ==> {
                let part = #[trigger] r.sends@[i];
                &&& part.file_name@ == req->SplitRequestFile_0.file_name@
                &&& part.range_start_inclusive <= part.range_end_inclusive
                &&& part.next_read_cursor == part.range_start_inclusive
                &&& part.size == rows
                &&& !part.open
            },
        forall|i: int|
            #![trigger r.sends@[i]]
            0 <= i < r.sends@.len() - 1 ==> r.sends@[i + 1].range_start_inclusive
                == r.sends@[i].range_end_inclusive + 1,
        r.reported@.len() == nodes@.len(),
        forall|i: int| 0 <= i < nodes@.len() ==> (#[trigger] r.reported@[i])@ == nodes@[i]@,
{
    let s = rows as int;
    let m = nodes@.len() as int;
    let file = req->SplitRequestFile_0;
    lemma_ranges_cover(s, m, 0);
    assert(crate::split_request::is_part(r.sends@[0], file, s, m, 0));
    assert(crate::split_request::is_part(r.sends@[m - 1], file, s, m, m - 1));
    assert forall|i: int| 0 <= i < r.sends@.len() implies ({
        let part = #[trigger] r.sends@[i];
        &&& part.file_name@ == file.file_name@
        &&& part.range_start_inclusive <= part.range_end_inclusive
        &&& part.next_read_cursor == part.range_start_inclusive
        &&& part.size == rows
        &&& !part.open
    }) by {
        lemma_ranges_cover(s, m, i);
        assert(crate::split_request::is_part(r.sends@[i], file, s, m, i));
    }
    assert forall|i: int|
        #![trigger r.sends@[i]]
        0 <= i < r.sends@.len() - 1 implies r.sends@[i + 1].range_start_inclusive
        == r.sends@[i].range_end_inclusive + 1 by {
        lemma_ranges_cover(s, m, i);
        assert(crate::split_request::is_part(r.sends@[i], file, s, m, i));
        assert(crate::split_request::is_part(r.sends@[i + 1], file, s, m, i + 1));
    }
}

/// What the nodes are to send in second `p`, and to hold.
pub open spec fn sent_in(shares: Seq<(Vec<u32>, Vec<u32>)>, p: int) -> Seq<int> {
    Seq::new(shares.len(), |i: int| shares[i].0@[p] as int)
}

pub open spec fn held_in(shares: Seq<(Vec<u32>, Vec<u32>)>, p: int) -> Seq<int> {
    Seq::new(shares.len(), |i: int| shares[i].1@[p] as int)
}

proof fn lemma_reversed(list: Seq<int>, rates: Seq<int>, p: int)
    requires
        list.len() > 0,
        0 <= p,
        p < rates.len() ==> rates[p] >= 0,
        forall|i: int|
            0 <= i < list.len() ==> #[trigger] list[i] == (if p < rates.len() {
                share(rates[p], list.len() as int, list.len() - 1 - i)
            } else {
                0
            }),
    ensures
        even(list, at_or_zero(rates, p)),
{
    let n = list.len() as int;
    if p < rates.len() {
        lemma_shares_even(rates[p], n);
        lemma_sum_reverse(all_shares(rates[p], n), list);
        let all = all_shares(rates[p], n);
        assert forall|i: int, j: int| 0 <= i < n && 0 <= j < n implies #[trigger] list[i]
            - #[trigger] list[j] <= 1 by {
            assert(list[i] == all[n - 1 - i]);
            assert(list[j] == all[n - 1 - j]);
        }
        assert forall|i: int| 0 <= i < n implies #[trigger] list[i] >= 0 by {
            assert(list[i] == all[n - 1 - i]);
        }
    } else {
        lemma_sum_zero(list);
    }
}

/// A bundle that is sent is sent whole: second by second the nodes together are to send what the
/// seconds of the bundle ask for, and nothing behind the last of them, and the same of connections.
/// What cannot be divided evenly falls to the nodes that come last. It is the last one exactly where
/// it is not full.
pub proof fn lemma_dispatch_is_divided(
    run: ClusterExecution,
    secondaries: Option<usize>,
    jobs: &mut JobTable,
    r: Dispatch,
)
    requires
        run.wf(),
        secondaries matches Some(n) ==> n <= u32::MAX,
        call_ensures(ClusterExecution::dispatch, (&run, secondaries, jobs), r),
    ensures
        r is End <==> run.items().len() == 0,
        r matches Dispatch::Send { shares, requests, last } ==> {
            &&& secondaries == Some(shares@.len() as usize)
            &&& shares@.len() > 0
            &&& last <==> run.items().len() < run.capacity()
            &&& forall|p: int|
                0 <= p < run.capacity() ==> even(
                    #[trigger] sent_in(shares@, p),
                    at_or_zero(requests_of(run.items()), p),
                ) && rising(sent_in(shares@, p))
            &&& forall|p: int|
                0 <= p < run.capacity() ==> even(
                    #[trigger] held_in(shares@, p),
                    at_or_zero(connections_of(run.items()), p),
                ) && rising(held_in(shares@, p))
        },
{
    if let Dispatch::Send { shares, requests, last } = r {
        let sent = requests_of(run.items());
        let held = connections_of(run.items());
        let n = shares@.len() as int;
        assert forall|p: int| 0 <= p < run.capacity() implies even(
            #[trigger] sent_in(shares@, p),
            at_or_zero(sent, p),
        ) && rising(sent_in(shares@, p)) by {
            let list = sent_in(shares@, p);
            assert forall|i: int| 0 <= i < list.len() implies #[trigger] list[i] == (if p
                < sent.len() {
                share(sent[p], n, n - 1 - i)
            } else {
                0
            }) by {
                assert(crate::executor::node_gets(
                    shares@[i],
                    run.items(),
                    run.capacity(),
                    n,
                    i,
                ));
            }
            lemma_reversed(list, sent, p);
        }
        assert forall|p: int| 0 <= p < run.capacity() implies even(
            #[trigger] held_in(shares@, p),
            at_or_zero(held, p),
        ) && rising(held_in(shares@, p)) by {
            let list = held_in(shares@, p);
            assert forall|i: int| 0 <= i < list.len() implies #[trigger] list[i] == (if p
                < held.len() {
                share(held[p], n, n - 1 - i)
            } else {
                0
            }) by {
                assert(crate::executor::node_gets(
                    shares@[i],
                    run.items(),
                    run.capacity(),
                    n,
                    i,
                ));
            }
            lemma_reversed(list, held, p);
        }
    }
}

} // verus!
