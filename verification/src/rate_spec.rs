//! Rate schedules: how many requests to send, and how many connections to hold, in each second.

use vstd::prelude::*;
use vstd::string::StringExecFns;

use crate::text::{decimal, decimal_text};

verus! {

/// A schedule. `nth` is the number of the second, from zero.
pub trait RateScheme: Sized {
    /// The rate of a second.
    spec fn rate_at(&self, nth: u32) -> u32;

    /// The schedule after it was asked for a second.
    spec fn advanced(&self, nth: u32) -> Self;

    fn next(&mut self, nth: u32, last_qps: Option<u32>) -> (r: u32)
        ensures
            r == old(self).rate_at(nth),
            *final(self) == old(self).advanced(nth),
    ;
}

/// The same rate in every second.
#[derive(Clone, Copy, Debug, PartialEq, Eq, Structural)]
pub struct ConstantRate {
    pub count_per_sec: u32,
}

impl RateScheme for ConstantRate {
    open spec fn rate_at(&self, nth: u32) -> u32 {
        self.count_per_sec
    }

    open spec fn advanced(&self, nth: u32) -> Self {
        *self
    }

    fn next(&mut self, _nth: u32, _last_qps: Option<u32>) -> (r: u32) {
        self.count_per_sec
    }
}

/// The rates of a list, over and over.
#[derive(Clone, Debug)]
pub struct ArraySpec {
    pub count_per_sec: Vec<u32>,
}

impl ArraySpec {
    pub fn new(count_per_sec: Vec<u32>) -> (r: ArraySpec)
        ensures
            r.count_per_sec@ == count_per_sec@,
    {
        ArraySpec { count_per_sec }
    }
}

impl RateScheme for ArraySpec {
    open spec fn rate_at(&self, nth: u32) -> u32 {
        if self.count_per_sec@.len() == 0 {
            0
        } else {
            self.count_per_sec@[(nth as int) % (self.count_per_sec@.len() as int)]
        }
    }

    open spec fn advanced(&self, nth: u32) -> Self {
        *self
    }

    fn next(&mut self, nth: u32, _last_qps: Option<u32>) -> (r: u32) {
        let len: usize = self.count_per_sec.len();
        if len != 0 {
            let idx: usize = nth as usize % len;
            self.count_per_sec[idx]
        } else {
            0
        }
    }
}

/// Used only for concurrent connections: a pool of the given maximum size.
#[derive(Clone, Copy, Debug, PartialEq, Eq, Structural)]
pub struct Bounded {
    pub max: u32,
}

impl Default for Bounded {
    fn default() -> (r: Bounded)
        ensures
            r.max == 500,
    {
        Bounded { max: 500 }
    }
}

impl RateScheme for Bounded {
    open spec fn rate_at(&self, nth: u32) -> u32 {
        self.max
    }

    open spec fn advanced(&self, nth: u32) -> Self {
        *self
    }

    fn next(&mut self, _nth: u32, _last_value: Option<u32>) -> (r: u32) {
        self.max
    }
}

/// Used only for concurrent connections: a pool that grows as needed. Its rate is zero.
#[derive(Clone, Copy, Debug, PartialEq, Eq, Structural)]
pub struct Elastic {
    pub max: u32,
}

impl Default for Elastic {
    fn default() -> (r: Elastic)
        ensures
            r.max == 65535,
    {
        Elastic { max: 65535 }
    }
}

impl RateScheme for Elastic {
    open spec fn rate_at(&self, nth: u32) -> u32 {
        0
    }

    open spec fn advanced(&self, nth: u32) -> Self {
        *self
    }

    fn next(&mut self, _nth: u32, _last_value: Option<u32>) -> (r: u32) {
        0
    }
}

/// A linear increase `y = ceil(ax + b)` up to a cap. The slope is a fraction, so the increase
/// since the start, `ceil(ax)`, is handed in.
#[derive(Clone, Copy, Debug, PartialEq, Eq, Structural)]
pub struct Linear {
    pub b: u32,
    pub max: u32,
}

impl Linear {
    /// The rate after an increase. It is capped however large the increase is.
    pub fn rate(&self, increase: u32) -> (r: u32)
        ensures
            r == (if increase + self.b <= self.max {
                increase + self.b
            } else {
                self.max as int
            }),
    {
        let y: u64 = increase as u64 + self.b as u64;
        if y <= self.max as u64 {
            y as u32
        } else {
            self.max
        }
    }
}

/// A rate from one second to another, both included.
#[derive(Clone, Copy, Debug, PartialEq, Eq, Structural)]
pub struct Step {
    pub start: u32,
    pub end: u32,
    pub rate: u32,
}

/// Rates that change stepwise.
#[derive(Clone, Debug)]
pub struct Steps {
    pub current_step: usize,
    pub steps: Vec<Step>,
}

/// A step as it is given, not checked yet.
#[derive(Clone, Copy, Debug, PartialEq, Eq, Structural)]
pub struct StepShadowType {
    pub start: u32,
    pub end: u32,
    pub rate: u32,
}

/// Steps as they are given, not checked yet.
#[derive(Clone, Debug)]
pub struct StepsShadowType {
    pub steps: Vec<Step>,
}

/// Why a step is refused.
pub open spec fn step_fault(start: u32, end: u32) -> Option<Seq<char>> {
    if start >= end {
        Some(
            "start("@ + decimal_text(start as nat)
                + ") can not be greater than or equal to end("@ + decimal_text(end as nat) + ")"@,
        )
    } else {
        None
    }
}

impl Step {
    /// Checks a step: it must end after it starts.
    pub fn try_from(value: StepShadowType) -> (r: Result<Step, String>)
        ensures
            match r {
                Ok(s) => step_fault(value.start, value.end) is None && s.start == value.start
                    && s.end == value.end && s.rate == value.rate,
                Err(e) => step_fault(value.start, value.end) == Some(e@),
            },
    {
        if value.start >= value.end {
            let mut e = "start(".to_owned();
            e.append(decimal(value.start as u64).as_str());
            e.append(") can not be greater than or equal to end(");
            e.append(decimal(value.end as u64).as_str());
            e.append(")");
            return Err(e);
        }
        Ok(Step { start: value.start, end: value.end, rate: value.rate })
    }
}

/// Where a step belongs among steps sorted by start: after those that start no later.
pub open spec fn insert_position(sorted: Seq<Step>, start: u32) -> int
    decreases sorted.len(),
{
    if sorted.len() == 0 {
        0
    } else if sorted.last().start <= start {
        sorted.len() as int
    } else {
        insert_position(sorted.drop_last(), start)
    }
}

/// The steps by start; those that start together stay in order.
pub open spec fn sorted_steps(steps: Seq<Step>) -> Seq<Step>
    decreases steps.len(),
{
    if steps.len() == 0 {
        Seq::empty()
    } else {
        let rest = sorted_steps(steps.drop_last());
        rest.insert(insert_position(rest, steps.last().start), steps.last())
    }
}

pub open spec fn by_start(steps: Seq<Step>) -> bool {
    forall|i: int, j: int|
        0 <= i < j < steps.len() ==> (#[trigger] steps[i]).start <= (#[trigger] steps[j]).start
}

proof fn lemma_insert_position(sorted: Seq<Step>, start: u32)
    requires
        by_start(sorted),
    ensures
        0 <= insert_position(sorted, start) <= sorted.len(),
        forall|i: int|
            0 <= i < insert_position(sorted, start) ==> (#[trigger] sorted[i]).start <= start,
        forall|i: int|
            insert_position(sorted, start) <= i < sorted.len() ==> (#[trigger] sorted[i]).start
                > start,
    decreases sorted.len(),
{
    if sorted.len() > 0 && sorted.last().start > start {
        let rest = sorted.drop_last();
        assert(by_start(rest)) by {
            assert forall|i: int, j: int| 0 <= i < j < rest.len() implies (#[trigger] rest[i]).start
                <= (#[trigger] rest[j]).start by {
                assert(rest[i] == sorted[i] && rest[j] == sorted[j]);
            }
        }
        lemma_insert_position(rest, start);
        assert forall|i: int|
            insert_position(sorted, start) <= i < sorted.len() implies (#[trigger] sorted[i]).start
            > start by {
            if i < rest.len() {
                assert(rest[i] == sorted[i]);
            }
        }
        assert forall|i: int| 0 <= i < insert_position(sorted, start) implies (
        #[trigger] sorted[i]).start <= start by {
            assert(rest[i] == sorted[i]);
        }
    } else if sorted.len() > 0 {
        assert forall|i: int| 0 <= i < sorted.len() implies (#[trigger] sorted[i]).start
            <= start by {
            if i < sorted.len() - 1 {
                assert(sorted[i].start <= sorted[sorted.len() - 1].start);
            }
        }
    }
}

/// The sorted steps are the same steps, by start.
pub proof fn lemma_sorted_steps(steps: Seq<Step>)
    ensures
        by_start(sorted_steps(steps)),
        sorted_steps(steps).to_multiset() == steps.to_multiset(),
        sorted_steps(steps).len() == steps.len(),
    decreases steps.len(),
{
    if steps.len() > 0 {
        let rest = sorted_steps(steps.drop_last());
        let x = steps.last();
        lemma_sorted_steps(steps.drop_last());
        lemma_insert_position(rest, x.start);
        let p = insert_position(rest, x.start);
        let all = rest.insert(p, x);
        assert forall|i: int, j: int| 0 <= i < j < all.len() implies (#[trigger] all[i]).start <= (
        #[trigger] all[j]).start by {
            if i < p {
                assert(all[i] == rest[i]);
                if j < p {
                    assert(all[j] == rest[j]);
                } else if j > p {
                    assert(all[j] == rest[j - 1]);
                }
            } else if i == p {
                assert(all[j] == rest[j - 1]);
            } else {
                assert(all[i] == rest[i - 1]);
                assert(all[j] == rest[j - 1]);
            }
        }
        vstd::seq_lib::to_multiset_insert(rest, p, x);
        assert(steps =~= steps.drop_last().push(x));
        vstd::seq_lib::to_multiset_build(steps.drop_last(), x);
    } else {
        assert(sorted_steps(steps) =~= steps);
    }
}

/// The steps up to number `i` follow each other without gap or overlap.
pub open spec fn continuous_to(steps: Seq<Step>, i: int) -> bool {
    forall|j: int, k: int|
        0 <= j < i && k == j + 1 ==> (#[trigger] steps[j]).end + 1 == (#[trigger] steps[k]).start
}

/// Why sorted steps are refused from step `i` on, those before being continuous.
pub open spec fn gap_after(steps: Seq<Step>, i: int) -> Option<Seq<char>>
    decreases steps.len() - i,
{
    if i < 0 || i + 1 >= steps.len() {
        None
    } else if steps[i].end + 1 != steps[i + 1].start {
        Some(
            "Steps are not continuous. An step ends at "@ + decimal_text(steps[i].end as nat)
                + " but next step should start at "@ + decimal_text((steps[i].end + 1) as nat)
                + ", but starts at "@ + decimal_text(steps[i + 1].start as nat),
        )
    } else {
        gap_after(steps, i + 1)
    }
}

/// Why steps are refused.
pub open spec fn steps_fault(steps: Seq<Step>) -> Option<Seq<char>> {
    if steps.len() == 0 {
        Some("No steps found."@)
    } else if steps.len() == 1 {
        Some("Need more than one step. Use ConstantQPS for single step."@)
    } else if sorted_steps(steps)[0].start != 0 {
        Some(
            "Steps should start from 0, but starts from "@ + decimal_text(
                sorted_steps(steps)[0].start as nat,
            ) + " instead."@,
        )
    } else {
        gap_after(sorted_steps(steps), 0)
    }
}

/// No step but the last of those that are looked at ends with the greatest second.
pub open spec fn steps_checkable(steps: Seq<Step>) -> bool {
    let sorted = sorted_steps(steps);
    steps.len() > 1 && sorted[0].start == 0 ==> forall|i: int|
        0 <= i < sorted.len() - 1 && #[trigger] continuous_to(sorted, i) ==> sorted[i].end
            < u32::MAX
}

/// Sorts steps by start, keeping those that start together in order.
fn sort_steps(steps: &Vec<Step>) -> (r: Vec<Step>)
    ensures
        r@ == sorted_steps(steps@),
{
    let mut sorted: Vec<Step> = Vec::new();
    let mut i: usize = 0;
    assert(steps@.take(0) =~= Seq::empty());
    while i < steps.len()
        invariant
            i <= steps@.len(),
            sorted@ == sorted_steps(steps@.take(i as int)),
        decreases steps@.len() - i,
    {
        let step = steps[i];
        let ghost whole = sorted@;
        proof {
            assert(steps@.take(i + 1).drop_last() =~= steps@.take(i as int));
            assert(steps@.take(i + 1).last() == step);
            lemma_sorted_steps(steps@.take(i as int));
            assert(whole.take(whole.len() as int) =~= whole);
        }
        let mut p: usize = sorted.len();
        while p > 0 && sorted[p - 1].start > step.start
            invariant
                p <= sorted@.len(),
                sorted@ == whole,
                insert_position(whole, step.start) == insert_position(
                    whole.take(p as int),
                    step.start,
                ),
            decreases p,
        {
            assert(whole.take(p as int).drop_last() =~= whole.take(p - 1));
            assert(whole.take(p as int).last() == whole[p - 1]);
            p -= 1;
        }
        assert(insert_position(whole.take(p as int), step.start) == p) by {
            if p > 0 {
                assert(whole.take(p as int).last() == whole[p - 1]);
            }
        }
        sorted.insert(p, step);
        i += 1;
    }
    assert(steps@.take(i as int) =~= steps@);
    sorted
}

impl StepsShadowType {
    /// Whether the steps can be checked without exceeding the greatest second.
    pub fn is_checkable(&self) -> (r: bool)
        ensures
            r == steps_checkable(self.steps@),
    {
        if self.steps.len() < 2 {
            return true;
        }
        let sorted = sort_steps(&self.steps);
        proof {
            lemma_sorted_steps(self.steps@);
        }
        if sorted[0].start != 0 {
            return true;
        }
        let last: usize = sorted.len() - 1;
        let mut i: usize = 0;
        while i < last
            invariant
                last == sorted@.len() - 1,
                sorted@ == sorted_steps(self.steps@),
                self.steps@.len() > 1,
                sorted@.len() == self.steps@.len(),
                sorted@[0].start == 0,
                i < sorted@.len(),
                continuous_to(sorted@, i as int),
                forall|j: int| 0 <= j < i ==> (#[trigger] sorted@[j]).end < u32::MAX,
            decreases sorted@.len() - i,
        {
            if sorted[i].end == u32::MAX {
                assert(continuous_to(sorted@, i as int));
                return false;
            }
            if sorted[i].end + 1 != sorted[i + 1].start {
                assert forall|k: int|
                    0 <= k < sorted@.len() - 1 && #[trigger] continuous_to(
                        sorted@,
                        k,
                    ) implies sorted@[k].end < u32::MAX by {
                    if k > i {
                        assert(sorted@[i as int].end + 1 == sorted@[i as int + 1].start);
                    }
                }
                return true;
            }
            i += 1;
        }
        true
    }
}

impl Steps {
    /// Checks steps: there must be more than one, the first must start at zero, and each must
    /// start right after the one before.
    pub fn try_from(value: StepsShadowType) -> (r: Result<Steps, String>)
        requires
            steps_checkable(value.steps@),
        ensures
            match r {
                Ok(s) => steps_fault(value.steps@) is None && s.current_step == 0 && s.steps@
                    == sorted_steps(value.steps@),
                Err(e) => steps_fault(value.steps@) == Some(e@),
            },
    {
        if value.steps.len() == 0 {
            return Err("No steps found.".to_owned());
        }
        if value.steps.len() == 1 {
            return Err("Need more than one step. Use ConstantQPS for single step.".to_owned());
        }
        let sorted = sort_steps(&value.steps);
        proof {
            lemma_sorted_steps(value.steps@);
        }
        if sorted[0].start != 0 {
            let mut e = "Steps should start from 0, but starts from ".to_owned();
            e.append(decimal(sorted[0].start as u64).as_str());
            e.append(" instead.");
            return Err(e);
        }
        let last: usize = sorted.len() - 1;
        let mut i: usize = 0;
        while i < last
            invariant
                last == sorted@.len() - 1,
                sorted@ == sorted_steps(value.steps@),
                value.steps@.len() > 1,
                sorted@.len() == value.steps@.len(),
                steps_checkable(value.steps@),
                sorted@[0].start == 0,
                i < sorted@.len(),
                continuous_to(sorted@, i as int),
                gap_after(sorted@, 0) == gap_after(sorted@, i as int),
            decreases sorted@.len() - i,
        {
            let prev: u32 = sorted[i].end;
            let current: u32 = sorted[i + 1].start;
            assert(continuous_to(sorted@, i as int));
            if prev + 1 != current {
                let mut e = "Steps are not continuous. An step ends at ".to_owned();
                e.append(decimal(prev as u64).as_str());
                e.append(" but next step should start at ");
                e.append(decimal((prev + 1) as u64).as_str());
                e.append(", but starts at ");
                e.append(decimal(current as u64).as_str());
                return Err(e);
            }
            i += 1;
        }
        Ok(Steps { current_step: 0, steps: sorted })
    }

    /// The step that `nth` is looked up in: the current one where it holds `nth`, else the next
    /// where there is one.
    pub open spec fn step_for(&self, nth: u32) -> usize {
        let cur = self.current_step;
        if cur < self.steps@.len() && !(self.steps@[cur as int].start <= nth
            <= self.steps@[cur as int].end) && cur + 1 < self.steps@.len() {
            (cur + 1) as usize
        } else {
            cur
        }
    }
}

impl RateScheme for Steps {
    open spec fn rate_at(&self, nth: u32) -> u32 {
        let cur = self.current_step as int;
        let steps = self.steps@;
        if cur >= steps.len() {
            0
        } else if steps[cur].start <= nth <= steps[cur].end {
            steps[cur].rate
        } else if cur + 1 < steps.len() {
            steps[cur + 1].rate
        } else {
            steps.last().rate
        }
    }

    open spec fn advanced(&self, nth: u32) -> Self {
        Steps { current_step: self.step_for(nth), steps: self.steps }
    }

    fn next(&mut self, nth: u32, _last_qps: Option<u32>) -> (r: u32) {
        let len: usize = self.steps.len();
        if self.current_step >= len {
            return 0;
        }
        let step = self.steps[self.current_step];
        if step.start <= nth && step.end >= nth {
            return step.rate;
        }
        if self.current_step + 1 < len {
            self.current_step = self.current_step + 1;
            self.steps[self.current_step].rate
        } else {
            self.steps[len - 1].rate
        }
    }
}

/// Steps that were accepted: continuous from zero, each ending after it starts.
pub open spec fn steps_wf(steps: Seq<Step>) -> bool {
    &&& steps.len() > 1
    &&& steps[0].start == 0
    &&& continuous_to(steps, steps.len() - 1)
    &&& forall|i: int| 0 <= i < steps.len() ==> (#[trigger] steps[i]).start < steps[i].end
}

proof fn lemma_no_gap(steps: Seq<Step>, i: int)
    requires
        0 <= i < steps.len(),
        gap_after(steps, i) is None,
        continuous_to(steps, i),
    ensures
        continuous_to(steps, steps.len() - 1),
    decreases steps.len() - i,
{
    if i + 1 < steps.len() {
        lemma_no_gap(steps, i + 1);
    }
}

/// Steps that each end after they start, and that are accepted, are continuous from zero.
pub proof fn lemma_accepted_steps(steps: Seq<Step>)
    requires
        steps_fault(steps) is None,
        forall|i: int| 0 <= i < steps.len() ==> (#[trigger] steps[i]).start < steps[i].end,
    ensures
        steps_wf(sorted_steps(steps)),
{
    let sorted = sorted_steps(steps);
    lemma_sorted_steps(steps);
    lemma_no_gap(sorted, 0);
    steps.to_multiset_ensures();
    sorted.to_multiset_ensures();
    assert forall|i: int| 0 <= i < sorted.len() implies (#[trigger] sorted[i]).start
        < sorted[i].end by {
        assert(sorted.contains(sorted[i]));
        assert(sorted.to_multiset().count(sorted[i]) > 0);
        assert(steps.contains(sorted[i]));
    }
}

/// The step that holds a second; the last one for all seconds after it.
pub open spec fn step_of(steps: Seq<Step>, nth: int) -> int
    decreases steps.len(),
{
    if steps.len() <= 1 {
        0
    } else if nth >= steps.last().start {
        steps.len() - 1
    } else {
        step_of(steps.drop_last(), nth)
    }
}

proof fn lemma_starts_grow(steps: Seq<Step>, i: int, j: int)
    requires
        steps_wf(steps),
        0 <= i < j < steps.len(),
    ensures
        steps[i].end < steps[j].start,
    decreases j - i,
{
    assert(steps[j - 1].end + 1 == steps[j].start);
    if i < j - 1 {
        lemma_starts_grow(steps, i, j - 1);
    }
}

proof fn lemma_step_of(steps: Seq<Step>, nth: int, i: int)
    requires
        0 <= i < steps.len(),
        steps[i].start <= nth || i == 0,
        i + 1 < steps.len() ==> nth < steps[i + 1].start,
        by_start(steps),
    ensures
        step_of(steps, nth) == i,
    decreases steps.len(),
{
    if steps.len() > 1 {
        let rest = steps.drop_last();
        if i < steps.len() - 1 {
            if i + 1 < steps.len() - 1 {
                assert(steps[i + 1].start <= steps[steps.len() - 1].start);
            }
            assert(by_start(rest)) by {
                assert forall|a: int, b: int| 0 <= a < b < rest.len() implies (
                #[trigger] rest[a]).start <= (#[trigger] rest[b]).start by {
                    assert(rest[a] == steps[a] && rest[b] == steps[b]);
                }
            }
            assert(rest[i] == steps[i]);
            if i + 1 < rest.len() {
                assert(rest[i + 1] == steps[i + 1]);
            }
            lemma_step_of(rest, nth, i);
        } else if i == 0 {
        }
    }
}

/// Accepted steps that are asked for second after second, from zero, give each second the rate of
/// the step that holds it, and the last step's rate after the last step.
pub proof fn lemma_steps_walk(scheme: Steps, nth: u32)
    requires
        steps_wf(scheme.steps@),
        scheme.current_step as int == step_of(
            scheme.steps@,
            if nth == 0 {
                0
            } else {
                nth - 1
            },
        ),
    ensures
        scheme.rate_at(nth) == scheme.steps@[step_of(scheme.steps@, nth as int)].rate,
        scheme.advanced(nth).steps@ == scheme.steps@,
        scheme.advanced(nth).current_step as int == step_of(scheme.steps@, nth as int),
{
    let steps = scheme.steps@;
    let n = steps.len() as int;
    assert(by_start(steps)) by {
        assert forall|i: int, j: int| 0 <= i < j < steps.len() implies (#[trigger] steps[i]).start
            <= (#[trigger] steps[j]).start by {
            lemma_starts_grow(steps, i, j);
        }
    }
    let before = if nth == 0 {
        0
    } else {
        nth - 1
    };
    let cur = scheme.current_step as int;
    lemma_step_exists(steps, before);
    if steps[cur].start <= nth <= steps[cur].end {
        if cur + 1 < n {
            assert(steps[cur].end + 1 == steps[cur + 1].start);
        }
        lemma_step_of(steps, nth as int, cur);
    } else if cur + 1 < n {
        assert(steps[cur].end + 1 == steps[cur + 1].start);
        assert(steps[cur + 1].start == nth);
        assert(scheme.steps.len() == n);
        if cur + 2 < n {
            assert(steps[cur + 1].end + 1 == steps[cur + 2].start);
        }
        lemma_step_of(steps, nth as int, cur + 1);
    } else {
        lemma_step_of(steps, nth as int, cur);
    }
}

/// The step that holds a second.
proof fn lemma_step_exists(steps: Seq<Step>, nth: int)
    requires
        nth >= 0,
        steps.len() > 0,
        steps[0].start == 0,
        by_start(steps),
    ensures
        0 <= step_of(steps, nth) < steps.len(),
        steps[step_of(steps, nth)].start <= nth,
        step_of(steps, nth) + 1 < steps.len() ==> nth < steps[step_of(steps, nth) + 1].start,
    decreases steps.len(),
{
    if steps.len() > 1 && nth < steps.last().start {
        let rest = steps.drop_last();
        assert(by_start(rest)) by {
            assert forall|a: int, b: int| 0 <= a < b < rest.len() implies (
            #[trigger] rest[a]).start <= (#[trigger] rest[b]).start by {
                assert(rest[a] == steps[a] && rest[b] == steps[b]);
            }
        }
        lemma_step_exists(rest, nth);
        let i = step_of(rest, nth);
        assert(rest[i] == steps[i]);
        if i + 1 < rest.len() {
            assert(rest[i + 1] == steps[i + 1]);
        }
    }
}

} // verus!
