//! How work is divided over the nodes of a cluster.

use std::collections::VecDeque;
use vstd::arithmetic::div_mod::{lemma_fundamental_div_mod, lemma_mod_bound};
use vstd::arithmetic::mul::{lemma_mul_is_commutative, lemma_mul_is_distributive_add_other_way};
use vstd::prelude::*;

use crate::http_req::{ids_distinct, req_same, HttpReq};
use crate::text::same_text;

verus! {

pub open spec fn lesser(a: int, b: int) -> int {
    if a <= b {
        a
    } else {
        b
    }
}

/// How many of `total` units come before part `i` of `n`: even parts, the first ones larger by
/// one where `total` does not divide.
pub open spec fn boundary(total: int, n: int, i: int) -> int {
    i * (total / n) + lesser(i, total % n)
}

/// The share of part `i` of `n`.
pub open spec fn share(total: int, n: int, i: int) -> int {
    total / n + if i < total % n {
        1int
    } else {
        0
    }
}

/// A boundary is the boundary before it and the share between them.
pub proof fn lemma_boundary_step(total: int, n: int, i: int)
    requires
        total >= 0,
        n > 0,
        0 <= i,
    ensures
        boundary(total, n, i + 1) == boundary(total, n, i) + share(total, n, i),
{
    lemma_mul_is_distributive_add_other_way(total / n, i, 1);
    lemma_mod_bound(total, n);
}

/// The parts start at zero, end at the total, and never go beyond it.
pub proof fn lemma_boundaries(total: int, n: int, i: int)
    requires
        total >= 0,
        n > 0,
        0 <= i <= n,
    ensures
        boundary(total, n, 0) == 0,
        boundary(total, n, n) == total,
        0 <= boundary(total, n, i) <= total,
        total / n >= 0,
    decreases n - i,
{
    lemma_fundamental_div_mod(total, n);
    lemma_mod_bound(total, n);
    vstd::arithmetic::div_mod::lemma_div_pos_is_pos(total, n);
    lemma_mul_is_commutative(n, total / n);
    assert(0 * (total / n) == 0) by (nonlinear_arith);
    assert(i * (total / n) >= 0) by (nonlinear_arith)
        requires
            i >= 0,
            total / n >= 0,
    ;
    if i < n {
        lemma_boundaries(total, n, i + 1);
        lemma_boundary_step(total, n, i);
    }
}

/// The sum of the first `i` shares.
pub open spec fn shares_sum(total: int, n: int, i: int) -> int
    decreases i,
{
    if i <= 0 {
        0
    } else {
        shares_sum(total, n, i - 1) + share(total, n, i - 1)
    }
}

/// The shares add up to the total, and no two differ by more than one.
pub proof fn lemma_shares(total: int, n: int, i: int, j: int)
    requires
        total >= 0,
        n > 0,
        0 <= i < n,
        0 <= j < n,
    ensures
        shares_sum(total, n, n) == total,
        share(total, n, i) - share(total, n, j) <= 1,
        0 <= share(total, n, i) <= total,
{
    lemma_boundaries(total, n, 0);
    lemma_boundaries(total, n, i);
    lemma_boundaries(total, n, i + 1);
    lemma_boundary_step(total, n, i);
    lemma_shares_sum(total, n, n);
}

proof fn lemma_shares_sum(total: int, n: int, i: int)
    requires
        total >= 0,
        n > 0,
        0 <= i <= n,
    ensures
        shares_sum(total, n, i) == boundary(total, n, i),
    decreases i,
{
    lemma_boundaries(total, n, 0);
    if i > 0 {
        lemma_shares_sum(total, n, i - 1);
        lemma_boundary_step(total, n, i - 1);
    }
}

/// The range of rows of part `i`: both ends are included, rows count from one.
pub open spec fn range_of(size: int, n: int, i: int) -> (int, int) {
    (lesser(boundary(size, n, i) + 1, size), boundary(size, n, i + 1))
}

fn smaller(a: usize, b: usize) -> (r: usize)
    ensures
        r == lesser(a as int, b as int),
{
    if a <= b {
        a
    } else {
        b
    }
}

/// Splits `size` rows into `split_size` ranges.
pub fn split_ranges(size: usize, split_size: usize) -> (splits: VecDeque<(usize, usize)>)
    requires
        split_size > 0,
    ensures
        splits@.len() == split_size,
        forall|i: int|
            0 <= i < split_size ==> (#[trigger] splits@[i]).0 == range_of(
                size as int,
                split_size as int,
                i,
            ).0 && splits@[i].1 == range_of(size as int, split_size as int, i).1,
{
    let block_size: usize = size / split_size;
    let remainder: usize = size % split_size;
    let mut splits: VecDeque<(usize, usize)> = VecDeque::new();
    let mut last_end: usize = 0;
    let mut i: usize = 0;
    proof {
        lemma_boundaries(size as int, split_size as int, 0);
    }
    while i < split_size
        invariant
            split_size > 0,
            block_size == size / split_size,
            remainder == size % split_size,
            i <= split_size,
            last_end == boundary(size as int, split_size as int, i as int),
            splits@.len() == i,
            forall|j: int|
                0 <= j < i ==> (#[trigger] splits@[j]).0 == range_of(
                    size as int,
                    split_size as int,
                    j,
                ).0 && splits@[j].1 == range_of(size as int, split_size as int, j).1,
        decreases split_size - i,
    {
        proof {
            lemma_boundary_step(size as int, split_size as int, i as int);
            lemma_boundaries(size as int, split_size as int, i as int);
            lemma_boundaries(size as int, split_size as int, i + 1);
            if last_end == usize::MAX {
                lemma_no_empty_at_limit(size as int, split_size as int, i as int);
            }
        }
        let block: usize = if i < remainder {
            block_size + 1
        } else {
            block_size
        };
        let new_end: usize = smaller(size, last_end + block);
        splits.push_back((smaller(last_end + 1, size), new_end));
        last_end = new_end;
        i += 1;
    }
    splits
}

/// Where fewer units than parts exist, the total is below the number of parts.
proof fn lemma_no_empty_at_limit(total: int, n: int, i: int)
    requires
        total >= 0,
        n > 0,
        0 <= i < n,
        boundary(total, n, i) == total,
    ensures
        total < n,
{
    lemma_boundaries(total, n, i + 1);
    lemma_boundary_step(total, n, i);
    lemma_fundamental_div_mod(total, n);
    lemma_mod_bound(total, n);
    assert(total / n == 0);
    assert(n * 0 == 0) by (nonlinear_arith);
}

/// The ranges cover the rows in order: each starts right after the one before, the first at row
/// one, the last ends with the last row. (There must be a row for every range.)
pub proof fn lemma_ranges_cover(size: int, n: int, i: int)
    requires
        n > 0,
        size >= n,
        0 <= i < n,
    ensures
        range_of(size, n, 0).0 == 1,
        range_of(size, n, n - 1).1 == size,
        range_of(size, n, i).0 <= range_of(size, n, i).1,
        i + 1 < n ==> range_of(size, n, i + 1).0 == range_of(size, n, i).1 + 1,
{
    lemma_boundaries(size, n, i);
    lemma_boundaries(size, n, i + 1);
    lemma_boundary_step(size, n, i);
    lemma_fundamental_div_mod(size, n);
    lemma_mod_bound(size, n);
    assert(size / n >= 1) by {
        if size / n == 0 {
            assert(n * 0 == 0) by (nonlinear_arith);
        }
    }
    if i + 1 < n {
        lemma_boundaries(size, n, i + 2);
        lemma_boundary_step(size, n, i + 1);
    }
}

/// The shares of a rate for each of `n_secondary` nodes.
fn shares(total: u32, n_secondary: usize) -> (r: Vec<u32>)
    requires
        0 < n_secondary <= u32::MAX,
    ensures
        r@.len() == n_secondary,
        forall|i: int|
            0 <= i < n_secondary ==> #[trigger] r@[i] == share(
                total as int,
                n_secondary as int,
                i,
            ),
{
    let per_node: u32 = total / n_secondary as u32;
    let remainder: usize = total as usize % n_secondary;
    let mut r: Vec<u32> = Vec::new();
    let mut i: usize = 0;
    while i < n_secondary
        invariant
            0 < n_secondary <= u32::MAX,
            i <= n_secondary,
            per_node == total as int / n_secondary as int,
            remainder == total as int % n_secondary as int,
            r@.len() == i,
            forall|j: int|
                0 <= j < i ==> #[trigger] r@[j] == share(total as int, n_secondary as int, j),
        decreases n_secondary - i,
    {
        proof {
            lemma_shares(total as int, n_secondary as int, i as int, i as int);
        }
        let n: u32 = if i < remainder {
            per_node + 1
        } else {
            per_node
        };
        r.push(n);
        i += 1;
    }
    r
}

/// Divides the requests and the connections of one second over the secondaries.
pub fn calculate_rates_per_secondary(
    qps: u32,
    connection_count: u32,
    n_secondary: usize,
) -> (r: (Vec<u32>, Vec<u32>))
    requires
        0 < n_secondary <= u32::MAX,
    ensures
        r.0@.len() == n_secondary,
        r.1@.len() == n_secondary,
        forall|i: int|
            0 <= i < n_secondary ==> #[trigger] r.0@[i] == share(
                qps as int,
                n_secondary as int,
                i,
            ),
        forall|i: int|
            0 <= i < n_secondary ==> #[trigger] r.1@[i] == share(
                connection_count as int,
                n_secondary as int,
                i,
            ),
{
    (shares(qps, n_secondary), shares(connection_count, n_secondary))
}

/// One second of a bundle: requests per second, requests to pick from, connections.
pub type Second = (u32, Vec<HttpReq>, u32);

/// What node `i` sends in second `p` of a bundle; nothing after the last second that there is.
pub open spec fn bundle_share(rates: Seq<u32>, n: int, i: int, p: int) -> int {
    if 0 <= p < rates.len() {
        share(rates[p] as int, n, i)
    } else {
        0
    }
}

/// The shares of node `i`, second by second.
fn node_shares(rates: &Vec<u32>, bundle_size: usize, n_secondary: usize, i: usize) -> (r: Vec<u32>)
    requires
        i < n_secondary <= u32::MAX,
        rates@.len() <= bundle_size,
    ensures
        r@.len() == bundle_size,
        forall|p: int|
            0 <= p < bundle_size ==> #[trigger] r@[p] == bundle_share(
                rates@,
                n_secondary as int,
                i as int,
                p,
            ),
{
    let mut r: Vec<u32> = Vec::new();
    let mut p: usize = 0;
    while p < bundle_size
        invariant
            i < n_secondary <= u32::MAX,
            p <= bundle_size,
            r@.len() == p,
            forall|q: int|
                0 <= q < p ==> #[trigger] r@[q] == bundle_share(
                    rates@,
                    n_secondary as int,
                    i as int,
                    q,
                ),
        decreases bundle_size - p,
    {
        let n: u32 = if p < rates.len() {
            let total: u32 = rates[p];
            let per_node: u32 = total / n_secondary as u32;
            proof {
                lemma_shares(total as int, n_secondary as int, i as int, i as int);
            }
            if i < (total % n_secondary as u32) as usize {
                per_node + 1
            } else {
                per_node
            }
        } else {
            0
        };
        r.push(n);
        p += 1;
    }
    r
}

/// The shares of all nodes, second by second.
fn all_node_shares(rates: &Vec<u32>, bundle_size: usize, n_secondary: usize) -> (r: Vec<Vec<u32>>)
    requires
        0 < n_secondary <= u32::MAX,
        rates@.len() <= bundle_size,
    ensures
        r@.len() == n_secondary,
        forall|i: int| 0 <= i < n_secondary ==> (#[trigger] r@[i])@.len() == bundle_size,
        forall|i: int, p: int|
            0 <= i < n_secondary && 0 <= p < bundle_size ==> #[trigger] r@[i]@[p] == bundle_share(
                rates@,
                n_secondary as int,
                i,
                p,
            ),
{
    let mut r: Vec<Vec<u32>> = Vec::new();
    let mut i: usize = 0;
    while i < n_secondary
        invariant
            0 < n_secondary <= u32::MAX,
            rates@.len() <= bundle_size,
            i <= n_secondary,
            r@.len() == i,
            forall|j: int| 0 <= j < i ==> (#[trigger] r@[j])@.len() == bundle_size,
            forall|j: int, p: int|
                0 <= j < i && 0 <= p < bundle_size ==> #[trigger] r@[j]@[p] == bundle_share(
                    rates@,
                    n_secondary as int,
                    j,
                    p,
                ),
        decreases n_secondary - i,
    {
        let row = node_shares(rates, bundle_size, n_secondary, i);
        r.push(row);
        i += 1;
    }
    r
}

pub open spec fn bundle_qps(requests: Seq<Second>) -> Seq<u32> {
    Seq::new(requests.len(), |p: int| requests[p].0)
}

pub open spec fn bundle_connections(requests: Seq<Second>) -> Seq<u32> {
    Seq::new(requests.len(), |p: int| requests[p].2)
}

pub open spec fn id_among(list: Seq<HttpReq>, id: Seq<char>) -> bool {
    exists|k: int| 0 <= k < list.len() && (#[trigger] list[k]).id@ == id
}

/// The requests of all seconds of a bundle, one after the other.
pub open spec fn offered(requests: Seq<Second>) -> Seq<HttpReq>
    decreases requests.len(),
{
    if requests.len() == 0 {
        Seq::empty()
    } else {
        offered(requests.drop_last()) + requests.last().1@
    }
}

/// Of requests with the same id the first, in order.
pub open spec fn firsts(list: Seq<HttpReq>) -> Seq<HttpReq>
    decreases list.len(),
{
    if list.len() == 0 {
        Seq::empty()
    } else {
        let rest = firsts(list.drop_last());
        if id_among(rest, list.last().id@) {
            rest
        } else {
            rest.push(list.last())
        }
    }
}

/// The requests are the same, one by one.
pub open spec fn copies(a: Seq<HttpReq>, b: Seq<HttpReq>) -> bool {
    &&& a.len() == b.len()
    &&& forall|i: int| 0 <= i < a.len() ==> req_same(#[trigger] a[i], b[i])
}

/// Every id is kept, and once.
pub proof fn lemma_firsts(list: Seq<HttpReq>)
    ensures
        ids_distinct(firsts(list)),
        forall|id: Seq<char>| #[trigger] id_among(firsts(list), id) <==> id_among(list, id),
    decreases list.len(),
{
    if list.len() > 0 {
        let before = list.drop_last();
        let rest = firsts(before);
        let all = firsts(list);
        lemma_firsts(before);
        assert forall|a: int, b: int| 0 <= a < b < all.len() implies (#[trigger] all[a]).id@ != (
        #[trigger] all[b]).id@ by {
            assert(all[a] == rest[a]);
            if b < rest.len() {
                assert(all[b] == rest[b]);
            }
        }
        assert forall|id: Seq<char>| #[trigger] id_among(all, id) <==> id_among(list, id) by {
            let last = list.last().id@;
            assert(id_among(list, id) <==> id_among(before, id) || id == last) by {
                if id_among(list, id) {
                    let m = choose|m: int| 0 <= m < list.len() && (#[trigger] list[m]).id@ == id;
                    if m < before.len() {
                        assert(before[m].id@ == id);
                    }
                }
                if id_among(before, id) {
                    let m = choose|m: int| 0 <= m < before.len() && (#[trigger] before[m]).id@ == id;
                    assert(list[m].id@ == id);
                }
                assert(list[list.len() - 1].id@ == last);
            }
            assert(id_among(rest, id) <==> id_among(before, id));
            if !id_among(rest, last) {
                assert(all == rest.push(list.last()));
                assert(all[rest.len() as int].id@ == last);
                if id_among(rest, id) {
                    let m = choose|m: int| 0 <= m < rest.len() && (#[trigger] rest[m]).id@ == id;
                    assert(all[m].id@ == id);
                }
                if id_among(all, id) {
                    let m = choose|m: int| 0 <= m < all.len() && (#[trigger] all[m]).id@ == id;
                    if m < rest.len() {
                        assert(rest[m].id@ == id);
                    }
                }
            }
        }
    }
}

/// Whether a request with this id is there.
fn has_id(set: &Vec<HttpReq>, id: &str) -> (r: bool)
    ensures
        r == id_among(set@, id@),
{
    let mut j: usize = 0;
    while j < set.len()
        invariant
            j <= set@.len(),
            forall|m: int| 0 <= m < j ==> (#[trigger] set@[m]).id@ != id@,
        decreases set@.len() - j,
    {
        if same_text(set[j].id.as_str(), id) {
            assert(set@[j as int].id@ == id@);
            return true;
        }
        j += 1;
    }
    false
}

/// Adds the requests that are not there yet; `seen` are those that were offered before.
fn add_missing(set: &mut Vec<HttpReq>, requests: &Vec<HttpReq>, Ghost(seen): Ghost<Seq<HttpReq>>)
    requires
        copies(old(set)@, firsts(seen)),
    ensures
        copies(final(set)@, firsts(seen + requests@)),
{
    let mut k: usize = 0;
    assert(seen + requests@.take(0) =~= seen);
    while k < requests.len()
        invariant
            k <= requests@.len(),
            copies(set@, firsts(seen + requests@.take(k as int))),
        decreases requests@.len() - k,
    {
        let ghost before = set@;
        let ghost done = seen + requests@.take(k as int);
        let ghost next = seen + requests@.take(k + 1);
        let found = has_id(set, requests[k].id.as_str());
        proof {
            let id = requests@[k as int].id@;
            let kept = firsts(done);
            assert(next.drop_last() =~= done);
            assert(next.last() == requests@[k as int]);
            assert(id_among(before, id) <==> id_among(kept, id)) by {
                if id_among(before, id) {
                    let m = choose|m: int| 0 <= m < before.len() && (#[trigger] before[m]).id@ == id;
                    assert(kept[m].id@ == id);
                }
                if id_among(kept, id) {
                    let m = choose|m: int| 0 <= m < kept.len() && (#[trigger] kept[m]).id@ == id;
                    assert(before[m].id@ == id);
                }
            }
        }
        if !found {
            let copy = requests[k].clone();
            set.push(copy);
        }
        proof {
            assert forall|i: int| 0 <= i < set@.len() implies req_same(
                #[trigger] set@[i],
                firsts(next)[i],
            ) by {
                if i < before.len() {
                    assert(set@[i] == before[i]);
                }
            }
        }
        k += 1;
    }
    assert(requests@.take(k as int) =~= requests@);
}

/// Divides a bundle of seconds over the secondaries: for each of them the requests to send and
/// the connections to hold, second by second, and for all of them the requests to pick from,
/// of each id the first.
pub fn calculate_req_per_secondary(
    requests: &Vec<Second>,
    bundle_size: usize,
    n_secondary: usize,
) -> (r: (Vec<Vec<u32>>, Vec<HttpReq>, Vec<Vec<u32>>))
    requires
        0 < n_secondary <= u32::MAX,
        requests@.len() <= bundle_size,
    ensures
        r.0@.len() == n_secondary,
        r.2@.len() == n_secondary,
        forall|i: int| 0 <= i < n_secondary ==> (#[trigger] r.0@[i])@.len() == bundle_size,
        forall|i: int| 0 <= i < n_secondary ==> (#[trigger] r.2@[i])@.len() == bundle_size,
        forall|i: int, p: int|
            0 <= i < n_secondary && 0 <= p < bundle_size ==> #[trigger] r.0@[i]@[p]
                == bundle_share(bundle_qps(requests@), n_secondary as int, i, p),
        forall|i: int, p: int|
            0 <= i < n_secondary && 0 <= p < bundle_size ==> #[trigger] r.2@[i]@[p]
                == bundle_share(bundle_connections(requests@), n_secondary as int, i, p),
        copies(r.1@, firsts(offered(requests@))),
{
    let mut qps: Vec<u32> = Vec::new();
    let mut connections: Vec<u32> = Vec::new();
    let mut set: Vec<HttpReq> = Vec::new();
    let mut p: usize = 0;
    while p < requests.len()
        invariant
            p <= requests@.len(),
            qps@.len() == p,
            connections@.len() == p,
            forall|q: int| 0 <= q < p ==> #[trigger] qps@[q] == requests@[q].0,
            forall|q: int| 0 <= q < p ==> #[trigger] connections@[q] == requests@[q].2,
            copies(set@, firsts(offered(requests@.take(p as int)))),
        decreases requests@.len() - p,
    {
        qps.push(requests[p].0);
        connections.push(requests[p].2);
        let ghost seen = offered(requests@.take(p as int));
        add_missing(&mut set, &requests[p].1, Ghost(seen));
        proof {
            assert(requests@.take(p + 1).drop_last() =~= requests@.take(p as int));
            assert(requests@.take(p + 1).last() == requests@[p as int]);
        }
        p += 1;
    }
    proof {
        assert(requests@.take(p as int) =~= requests@);
        assert(qps@ =~= bundle_qps(requests@));
        assert(connections@ =~= bundle_connections(requests@));
    }
    let to_send = all_node_shares(&qps, bundle_size, n_secondary);
    let to_hold = all_node_shares(&connections, bundle_size, n_secondary);
    (to_send, set, to_hold)
}

} // verus!
