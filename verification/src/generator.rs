//! The plan of a test, second by second.

use vstd::prelude::*;

use crate::http_api::Target;
use crate::rate_spec::{ArraySpec, Bounded, ConstantRate, Elastic, Linear, RateScheme, Steps};
use crate::response_assert::ResponseAssertion;

verus! {

/// At most this many requests are asked of a provider for one second.
pub const MAX_REQ_RET_SIZE: usize = 10;

/// The schedule of requests.
#[derive(Clone, Debug)]
pub enum RateSpecEnum {
    ConstantRate(ConstantRate),
    Linear(Linear),
    ArraySpec(ArraySpec),
    Steps(Steps),
}

/// The schedule of connections.
#[derive(Clone, Debug)]
pub enum ConcurrentConnectionRateSpec {
    ConstantRate(ConstantRate),
    Linear(Linear),
    ArraySpec(ArraySpec),
    Steps(Steps),
    Elastic(Elastic),
    Bounded(Bounded),
}

/// The rate of a linear schedule after an increase.
pub open spec fn linear_rate(spec: Linear, increase: u32) -> u32 {
    if increase + spec.b <= spec.max {
        (increase + spec.b) as u32
    } else {
        spec.max
    }
}

impl RateSpecEnum {
    /// The rate of a second. `increase` is what a linear schedule has grown by since the start.
    pub open spec fn rate_at(&self, nth: u32, increase: u32) -> u32 {
        match self {
            RateSpecEnum::ConstantRate(s) => s.rate_at(nth),
            RateSpecEnum::Linear(s) => linear_rate(*s, increase),
            RateSpecEnum::ArraySpec(s) => s.rate_at(nth),
            RateSpecEnum::Steps(s) => s.rate_at(nth),
        }
    }

    /// The schedule after it was asked for a second.
    pub open spec fn advanced(&self, nth: u32) -> RateSpecEnum {
        match self {
            RateSpecEnum::ConstantRate(s) => RateSpecEnum::ConstantRate(s.advanced(nth)),
            RateSpecEnum::Linear(s) => *self,
            RateSpecEnum::ArraySpec(s) => RateSpecEnum::ArraySpec(s.advanced(nth)),
            RateSpecEnum::Steps(s) => RateSpecEnum::Steps(s.advanced(nth)),
        }
    }

    pub fn next(&mut self, nth: u32, increase: u32) -> (r: u32)
        ensures
            r == old(self).rate_at(nth, increase),
            *final(self) == old(self).advanced(nth),
    {
        match self {
            RateSpecEnum::ConstantRate(s) => s.next(nth, None),
            RateSpecEnum::Linear(s) => s.rate(increase),
            RateSpecEnum::ArraySpec(s) => s.next(nth, None),
            RateSpecEnum::Steps(s) => s.next(nth, None),
        }
    }
}

impl ConcurrentConnectionRateSpec {
    /// The rate of a second. `increase` is what a linear schedule has grown by since the start.
    pub open spec fn rate_at(&self, nth: u32, increase: u32) -> u32 {
        match self {
            ConcurrentConnectionRateSpec::ConstantRate(s) => s.rate_at(nth),
            ConcurrentConnectionRateSpec::Linear(s) => linear_rate(*s, increase),
            ConcurrentConnectionRateSpec::ArraySpec(s) => s.rate_at(nth),
            ConcurrentConnectionRateSpec::Steps(s) => s.rate_at(nth),
            ConcurrentConnectionRateSpec::Elastic(s) => s.rate_at(nth),
            ConcurrentConnectionRateSpec::Bounded(s) => s.rate_at(nth),
        }
    }

    /// The schedule after it was asked for a second.
    pub open spec fn advanced(&self, nth: u32) -> ConcurrentConnectionRateSpec {
        match self {
            ConcurrentConnectionRateSpec::ArraySpec(s) => ConcurrentConnectionRateSpec::ArraySpec(
                s.advanced(nth),
            ),
            ConcurrentConnectionRateSpec::Steps(s) => ConcurrentConnectionRateSpec::Steps(
                s.advanced(nth),
            ),
            _ => *self,
        }
    }

    pub fn next(&mut self, nth: u32, increase: u32) -> (r: u32)
        ensures
            r == old(self).rate_at(nth, increase),
            *final(self) == old(self).advanced(nth),
    {
        match self {
            ConcurrentConnectionRateSpec::ConstantRate(s) => s.next(nth, None),
            ConcurrentConnectionRateSpec::Linear(s) => s.rate(increase),
            ConcurrentConnectionRateSpec::ArraySpec(s) => s.next(nth, None),
            ConcurrentConnectionRateSpec::Steps(s) => s.next(nth, None),
            ConcurrentConnectionRateSpec::Elastic(s) => s.next(nth, None),
            ConcurrentConnectionRateSpec::Bounded(s) => s.next(nth, None),
        }
    }
}

pub fn default_concurrent_connection() -> (r: ConcurrentConnectionRateSpec)
    ensures
        r matches ConcurrentConnectionRateSpec::Elastic(e) && e.max == 65535,
{
    ConcurrentConnectionRateSpec::Elastic(Elastic::default())
}

/// Based on the rates, says for each second of a test how many requests to send and how many
/// connections to hold.
#[derive(Debug)]
pub struct RequestGenerator {
    /// For how many seconds the test runs.
    duration: u32,
    /// How often per second rates are given; once.
    time_scale: u8,
    /// How many times rates are given in all.
    total: u32,
    /// How many times they were given so far.
    current_count: u32,
    /// The requests of the second that is being filled.
    current_qps: u32,
    shared_provider: bool,
    target: Target,
    qps_scheme: RateSpecEnum,
    concurrent_connection: ConcurrentConnectionRateSpec,
    response_assertion: Option<ResponseAssertion>,
}

impl RequestGenerator {
    /// The number of the second that comes next.
    pub closed spec fn count(&self) -> u32 {
        self.current_count
    }

    /// How many seconds the test has.
    pub closed spec fn seconds(&self) -> u32 {
        self.total
    }

    /// The schedule of requests.
    pub closed spec fn qps(&self) -> RateSpecEnum {
        self.qps_scheme
    }

    /// The schedule of connections.
    pub closed spec fn connections(&self) -> ConcurrentConnectionRateSpec {
        self.concurrent_connection
    }

    /// The requests of the second that is being filled.
    pub closed spec fn pending_qps(&self) -> u32 {
        self.current_qps
    }

    /// Seconds that were not given yet.
    pub open spec fn remaining(&self) -> int {
        if self.count() >= self.seconds() {
            0
        } else {
            self.seconds() - self.count()
        }
    }

    /// What does not change: the provider, the target, the checks.
    pub closed spec fn same_test(&self, other: &RequestGenerator) -> bool {
        &&& self.duration == other.duration
        &&& self.time_scale == other.time_scale
        &&& self.total == other.total
        &&& self.shared_provider == other.shared_provider
        &&& self.target == other.target
        &&& self.response_assertion == other.response_assertion
    }

    /// The parts that do not change are those that can be read.
    pub proof fn lemma_kept(&self, other: &RequestGenerator)
        requires
            other.same_test(self),
        ensures
            other.is_shared() == self.is_shared(),
            other.scale() == self.scale(),
            other.test_target() == self.test_target(),
            other.checks() == self.checks(),
    {
    }

    pub closed spec fn is_shared(&self) -> bool {
        self.shared_provider
    }

    pub closed spec fn scale(&self) -> u8 {
        self.time_scale
    }

    pub closed spec fn test_target(&self) -> Target {
        self.target
    }

    pub closed spec fn checks(&self) -> Option<ResponseAssertion> {
        self.response_assertion
    }

    /// A plan of `duration` seconds. Where no schedule of connections is given the pool grows as
    /// needed.
    pub fn new(
        duration: u32,
        shared_provider: bool,
        qps_scheme: RateSpecEnum,
        target: Target,
        concurrent_connection: Option<ConcurrentConnectionRateSpec>,
        response_assertion: Option<ResponseAssertion>,
    ) -> (r: RequestGenerator)
        ensures
            r.count() == 0,
            r.seconds() == duration,
            r.remaining() == duration,
            r.scale() == 1,
            r.is_shared() == shared_provider,
            r.qps() == qps_scheme,
            r.test_target() == target,
            r.checks() == response_assertion,
            match concurrent_connection {
                Some(c) => r.connections() == c,
                None => r.connections() matches ConcurrentConnectionRateSpec::Elastic(e) && e.max
                    == 65535,
            },
    {
        let concurrent_connection = match concurrent_connection {
            Some(c) => c,
            None => default_concurrent_connection(),
        };
        RequestGenerator {
            duration,
            time_scale: 1,
            total: duration,
            current_count: 0,
            current_qps: 0,
            shared_provider,
            target,
            qps_scheme,
            concurrent_connection,
            response_assertion,
        }
    }

    pub fn time_scale(&self) -> (r: u8)
        ensures
            r == self.scale(),
    {
        self.time_scale
    }

    pub fn shared_provider(&self) -> (r: bool)
        ensures
            r == self.is_shared(),
    {
        self.shared_provider
    }

    pub fn target(&self) -> (r: &Target)
        ensures
            *r == self.test_target(),
    {
        &self.target
    }

    pub fn response_assertion(&self) -> (r: Option<&ResponseAssertion>)
        ensures
            match r {
                Some(checks) => self.checks() == Some(*checks),
                None => self.checks() is None,
            },
    {
        self.response_assertion.as_ref()
    }

    /// How many items there are at least and at most.
    pub fn size_hint(&self) -> (r: (usize, Option<usize>))
        ensures
            r.0 == 0,
            r.1 == Some(self.seconds() as usize),
    {
        (0, Some(self.total as usize))
    }

    /// The number of the next second; none where the test is over. The increase of linear
    /// schedules for that second is needed to go on.
    pub fn next_second(&self) -> (r: Option<u32>)
        ensures
            match r {
                Some(n) => n == self.count() && self.remaining() > 0,
                None => self.remaining() == 0,
            },
    {
        if self.current_count >= self.total {
            None
        } else {
            Some(self.current_count)
        }
    }

    /// The rates of the next second: requests and connections; none where the test is over.
    pub fn poll_next(&mut self, qps_increase: u32, connection_increase: u32) -> (r: Option<
        (u32, u32),
    >)
        ensures
            final(self).same_test(old(self)),
            final(self).seconds() == old(self).seconds(),
            final(self).pending_qps() == old(self).pending_qps(),
            old(self).remaining() == 0 ==> r is None && *final(self) == *old(self),
            old(self).remaining() > 0 ==> {
                &&& r == Some(
                    (
                        old(self).qps().rate_at(old(self).count(), qps_increase),
                        old(self).connections().rate_at(old(self).count(), connection_increase),
                    ),
                )
                &&& final(self).remaining() == old(self).remaining() - 1
                &&& final(self).count() == old(self).count() + 1
                &&& final(self).qps() == old(self).qps().advanced(old(self).count())
                &&& final(self).connections() == old(self).connections().advanced(
                    old(self).count(),
                )
            },
    {
        if self.current_count >= self.total {
            return None;
        }
        let current_count: u32 = self.current_count;
        let qps: u32 = self.qps_scheme.next(current_count, qps_increase);
        let conn: u32 = self.concurrent_connection.next(current_count, connection_increase);
        self.current_count = current_count + 1;
        Some((qps, conn))
    }

    /// Begins a second for which requests are fetched: how many to ask of a provider that has
    /// `available`; none where the test is over. (None need be asked for where it is zero.)
    pub fn begin_batch(&mut self, available: usize, qps_increase: u32) -> (r: Option<usize>)
        ensures
            final(self).same_test(old(self)),
            final(self).seconds() == old(self).seconds(),
            final(self).count() == old(self).count(),
            final(self).connections() == old(self).connections(),
            old(self).remaining() == 0 ==> r is None && *final(self) == *old(self),
            old(self).remaining() > 0 ==> {
                let qps = old(self).qps().rate_at(old(self).count(), qps_increase);
                &&& r == Some(batch_size(qps, available))
                &&& final(self).pending_qps() == qps
                &&& final(self).qps() == old(self).qps().advanced(old(self).count())
            },
    {
        if self.current_count >= self.total {
            return None;
        }
        let qps: u32 = self.qps_scheme.next(self.current_count, qps_increase);
        self.current_qps = qps;
        let mut size: usize = if available < MAX_REQ_RET_SIZE {
            available
        } else {
            MAX_REQ_RET_SIZE
        };
        if (qps as usize) < size {
            size = qps as usize;
        }
        Some(size)
    }

    /// Ends that second, when its requests are there: the rates of requests and connections.
    pub fn complete_batch(&mut self, connection_increase: u32) -> (r: (u32, u32))
        requires
            old(self).remaining() > 0,
        ensures
            final(self).same_test(old(self)),
            final(self).seconds() == old(self).seconds(),
            final(self).qps() == old(self).qps(),
            r.0 == old(self).pending_qps(),
            r.1 == old(self).connections().rate_at(
                (old(self).count() + 1) as u32,
                connection_increase,
            ),
            final(self).pending_qps() == 0,
            final(self).count() == old(self).count() + 1,
            final(self).remaining() == old(self).remaining() - 1,
            final(self).connections() == old(self).connections().advanced(
                (old(self).count() + 1) as u32,
            ),
    {
        let qps: u32 = self.current_qps;
        self.current_qps = 0;
        self.current_count = self.current_count + 1;
        let conn: u32 = self.concurrent_connection.next(self.current_count, connection_increase);
        (qps, conn)
    }
}

/// How many requests to ask of a provider.
pub open spec fn batch_size(qps: u32, available: usize) -> usize {
    let most = if available < MAX_REQ_RET_SIZE {
        available
    } else {
        MAX_REQ_RET_SIZE
    };
    if qps < most {
        qps as usize
    } else {
        most
    }
}

/// The schedule after it was asked for the first `n` seconds.
pub open spec fn schedule_after(scheme: RateSpecEnum, n: nat) -> RateSpecEnum
    decreases n,
{
    if n == 0 {
        scheme
    } else {
        schedule_after(scheme, (n - 1) as nat).advanced((n - 1) as u32)
    }
}

/// The rates of the seconds of a test, one after the other. `increases` are those of a linear
/// schedule, second by second.
pub open spec fn rates(scheme: RateSpecEnum, increases: Seq<u32>) -> Seq<u32> {
    Seq::new(
        increases.len(),
        |i: int| schedule_after(scheme, i as nat).rate_at(i as u32, increases[i]),
    )
}

/// How many requests that are.
pub open spec fn requests_in_all(list: Seq<u32>) -> int
    decreases list.len(),
{
    if list.len() == 0 {
        0
    } else {
        requests_in_all(list.drop_last()) + list.last()
    }
}

/// Only steps change as they are asked.
proof fn lemma_schedule_stays(scheme: RateSpecEnum, n: nat)
    requires
        !(scheme is Steps),
    ensures
        schedule_after(scheme, n) == scheme,
    decreases n,
{
    if n > 0 {
        lemma_schedule_stays(scheme, (n - 1) as nat);
    }
}

/// A test with a constant rate sends that many requests in every second, so the rate times the
/// duration in all.
pub proof fn lemma_constant_rate(scheme: ConstantRate, increases: Seq<u32>)
    ensures
        ({
            let list = rates(RateSpecEnum::ConstantRate(scheme), increases);
            &&& forall|i: int|
                0 <= i < increases.len() ==> #[trigger] list[i] == scheme.count_per_sec
            &&& requests_in_all(list) == scheme.count_per_sec * increases.len()
        }),
    decreases increases.len(),
{
    let all = RateSpecEnum::ConstantRate(scheme);
    let list = rates(all, increases);
    assert forall|i: int| 0 <= i < increases.len() implies #[trigger] list[i]
        == scheme.count_per_sec by {
        lemma_schedule_stays(all, i as nat);
    }
    if increases.len() > 0 {
        let before = increases.drop_last();
        lemma_constant_rate(scheme, before);
        assert(list.drop_last() =~= rates(all, before)) by {
            assert forall|i: int| 0 <= i < before.len() implies list.drop_last()[i] == rates(
                all,
                before,
            )[i] by {
                assert(before[i] == increases[i]);
            }
        }
        let c = scheme.count_per_sec as int;
        let n = before.len() as int;
        assert(c * n + c == c * (n + 1)) by (nonlinear_arith);
        assert(list.last() == list[n]);
    } else {
        assert(scheme.count_per_sec * 0 == 0) by (nonlinear_arith);
    }
}

/// A test with a list of rates goes through the list over and over.
pub proof fn lemma_array_rate(scheme: ArraySpec, increases: Seq<u32>, i: int)
    requires
        0 <= i < increases.len() <= u32::MAX,
    ensures
        rates(RateSpecEnum::ArraySpec(scheme), increases)[i] == (if scheme.count_per_sec@.len()
            == 0 {
            0
        } else {
            scheme.count_per_sec@[i % (scheme.count_per_sec@.len() as int)]
        }),
{
    lemma_schedule_stays(RateSpecEnum::ArraySpec(scheme), i as nat);
}

/// A linear rate does not fall where its increase does not, and never goes beyond its limit.
pub proof fn lemma_linear_rate(scheme: Linear, increases: Seq<u32>, i: int, j: int)
    requires
        0 <= i <= j < increases.len(),
        increases[i] <= increases[j],
    ensures
        ({
            let list = rates(RateSpecEnum::Linear(scheme), increases);
            list[i] <= list[j] <= scheme.max
        }),
{
    lemma_schedule_stays(RateSpecEnum::Linear(scheme), i as nat);
    lemma_schedule_stays(RateSpecEnum::Linear(scheme), j as nat);
}

/// How far a test of `seconds` seconds is after it was asked `asked` times: each time it goes one
/// second on, as long as there is one.
pub open spec fn second_after(seconds: int, asked: nat) -> int
    decreases asked,
{
    if asked == 0 {
        0
    } else {
        let before = second_after(seconds, (asked - 1) as nat);
        if before < seconds {
            before + 1
        } else {
            before
        }
    }
}

/// A test gives a rate for each of its seconds, and is over then: so many times it can be asked,
/// and no more.
pub proof fn lemma_duration(seconds: int, asked: nat)
    requires
        seconds >= 0,
    ensures
        second_after(seconds, asked) == (if asked <= seconds {
            asked as int
        } else {
            seconds
        }),
    decreases asked,
{
    if asked > 0 {
        lemma_duration(seconds, (asked - 1) as nat);
    }
}

} // verus!
