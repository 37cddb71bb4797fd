//! Progress throttle: coalesces per-item completions into a bounded number of
//! progress events.

use vstd::prelude::*;

verus! {

/// Milliseconds after which an advance emits even if few items completed.
pub const MIN_INTERVAL_MS: u128 = 80;

/// `std::time::Instant`: a reading of the monotonic clock, carried as an
/// opaque value.
#[verifier::external_type_specification]
#[verifier::external_body]
pub struct ExInstant(std::time::Instant);

/// `std::time::Instant::now`: a reading of the monotonic clock. Nothing is
/// claimed of the reading.
#[verifier::external_body]
fn clock_now() -> (now: std::time::Instant) {
    std::time::Instant::now()
}

/// `std::time::Instant::elapsed`: the time that has passed since `origin` was
/// read. Nothing is claimed of the amount.
#[verifier::external_body]
fn clock_elapsed(origin: &std::time::Instant) -> (elapsed: std::time::Duration) {
    origin.elapsed()
}

/// `std::time::Duration::as_millis`: the whole milliseconds in `span`. Nothing
/// is claimed of the number.
#[verifier::external_body]
fn whole_millis(span: &std::time::Duration) -> (ms: u128) {
    span.as_millis()
}

/// The number of completions between two count-driven emissions: one percent
/// of the total, and never zero.
pub open spec fn step_for(total: nat) -> nat {
    if total / 100 >= 1 {
        total / 100
    } else {
        1
    }
}

/// Mathematical state of a throttle. Times are milliseconds since creation.
pub struct Throttle {
    pub total: nat,
    pub done: nat,
    pub last_emitted: nat,
    pub last_emit_at: nat,
}

impl Throttle {
    pub open spec fn initial(total: nat) -> Throttle {
        Throttle { total, done: 0, last_emitted: 0, last_emit_at: 0 }
    }

    /// The advance that is about to happen completes the run.
    pub open spec fn finishing(self) -> bool {
        self.done + 1 >= self.total
    }

    /// Enough items completed since the last emission.
    pub open spec fn advanced_enough(self) -> bool {
        self.done + 1 - self.last_emitted >= step_for(self.total)
    }

    /// Enough time passed since the last emission.
    pub open spec fn waited_enough(self, now: nat) -> bool {
        now - self.last_emit_at >= MIN_INTERVAL_MS
    }

    /// Whether an advance at time `now` emits.
    pub open spec fn emits(self, now: nat) -> bool {
        self.finishing() || self.advanced_enough() || self.waited_enough(now)
    }

    /// The state after an advance at time `now`. The final emission leaves
    /// the emission time alone.
    pub open spec fn advance(self, now: nat) -> Throttle {
        if self.finishing() {
            Throttle { done: self.done + 1, last_emitted: self.done + 1, ..self }
        } else if self.emits(now) {
            Throttle { done: self.done + 1, last_emitted: self.done + 1, last_emit_at: now, ..self }
        } else {
            Throttle { done: self.done + 1, ..self }
        }
    }
}

/// The state after the advances at `times`, taken in order from `start`.
pub open spec fn after_all(start: Throttle, times: Seq<nat>) -> Throttle
    decreases times.len(),
{
    if times.len() == 0 {
        start
    } else {
        after_all(start, times.drop_last()).advance(times.last())
    }
}

/// How many of the advances at `times`, taken in order from `start`, emit.
pub open spec fn emissions(start: Throttle, times: Seq<nat>) -> nat
    decreases times.len(),
{
    if times.len() == 0 {
        0
    } else {
        let before = after_all(start, times.drop_last());
        emissions(start, times.drop_last()) + if before.emits(times.last()) {
            1nat
        } else {
            0nat
        }
    }
}

/// `a / b` rounded up.
pub open spec fn ceil_div(a: nat, b: nat) -> nat {
    ((a + b - 1) / b as int) as nat
}

/// Clock readings never go back.
pub open spec fn nondecreasing(times: Seq<nat>) -> bool {
    forall|i: int, j: int| 0 <= i <= j < times.len() ==> times[i] <= times[j]
}

/// The last reading of `times`, or zero when there is none.
pub open spec fn last_reading(times: Seq<nat>) -> nat {
    if times.len() == 0 {
        0
    } else {
        times.last()
    }
}

spec fn emissions_by_count(start: Throttle, times: Seq<nat>) -> nat
    decreases times.len(),
{
    if times.len() == 0 {
        0
    } else {
        let before = after_all(start, times.drop_last());
        emissions_by_count(start, times.drop_last()) + if before.advanced_enough() {
            1nat
        } else {
            0nat
        }
    }
}

spec fn emissions_by_time(start: Throttle, times: Seq<nat>) -> nat
    decreases times.len(),
{
    if times.len() == 0 {
        0
    } else {
        let before = after_all(start, times.drop_last());
        emissions_by_time(start, times.drop_last()) + if !before.advanced_enough()
            && before.waited_enough(times.last()) {
            1nat
        } else {
            0nat
        }
    }
}

proof fn lemma_quotient_bound(a: nat, b: nat, c: nat)
    requires
        a * b <= c,
        b > 0,
    ensures
        a <= c / b,
        a <= ceil_div(c, b),
{
    assert(a <= c / b) by (nonlinear_arith)
        requires
            a * b <= c,
            b > 0,
    ;
    assert(c / b <= (c + b - 1) / (b as int)) by (nonlinear_arith)
        requires
            b > 0,
    ;
}

proof fn lemma_before_the_end(total: nat, times: Seq<nat>)
    requires
        times.len() < total,
        nondecreasing(times),
    ensures
        ({
            let start = Throttle::initial(total);
            let now = after_all(start, times);
            &&& now.total == total
            &&& now.done == times.len()
            &&& now.last_emitted <= now.done
            &&& now.last_emit_at <= last_reading(times)
            &&& emissions(start, times) == emissions_by_count(start, times) + emissions_by_time(
                start,
                times,
            )
            &&& emissions_by_count(start, times) * step_for(total) <= now.last_emitted
            &&& emissions_by_time(start, times) * MIN_INTERVAL_MS <= now.last_emit_at
        }),
    decreases times.len(),
{
    if times.len() > 0 {
        let start = Throttle::initial(total);
        let earlier = times.drop_last();
        assert(nondecreasing(earlier));
        lemma_before_the_end(total, earlier);
        let before = after_all(start, earlier);
        let by_count = emissions_by_count(start, earlier);
        let by_time = emissions_by_time(start, earlier);
        let step = step_for(total);
        assert(last_reading(earlier) <= times.last()) by {
            if earlier.len() > 0 {
                assert(earlier.last() == times[times.len() - 2]);
            }
        }
        assert(!before.finishing());
        if before.advanced_enough() {
            assert((by_count + 1) * step <= before.done + 1) by (nonlinear_arith)
                requires
                    by_count * step <= before.last_emitted,
                    before.done + 1 - before.last_emitted >= step,
            ;
        } else if before.waited_enough(times.last()) {
            assert((by_time + 1) * MIN_INTERVAL_MS <= times.last()) by (nonlinear_arith)
                requires
                    by_time * MIN_INTERVAL_MS <= before.last_emit_at,
                    times.last() - before.last_emit_at >= MIN_INTERVAL_MS,
            ;
        }
    }
}

/// Bound on the number of progress events of a run. When a throttle for
/// `total` items sees exactly `total` advances at clock readings that never
/// go back, the k-th advance reports `k` items done, the advances that emit
/// number at most `ceil(total / step) + ceil(elapsed / 80 ms) + 1`, and the
/// one advance that reports `total` emits.
pub proof fn lemma_emission_bound(total: nat, times: Seq<nat>)
    requires
        times.len() == total,
        nondecreasing(times),
    ensures
        emissions(Throttle::initial(total), times) <= ceil_div(total, step_for(total)) + ceil_div(
            last_reading(times),
            MIN_INTERVAL_MS as nat,
        ) + 1,
        forall|k: int|
            0 <= k <= total ==> (#[trigger] after_all(
                Throttle::initial(total),
                times.take(k),
            )).done == k,
        total > 0 ==> after_all(Throttle::initial(total), times.drop_last()).emits(times.last()),
{
    let start = Throttle::initial(total);
    assert forall|k: int| 0 <= k <= total implies (#[trigger] after_all(
        start,
        times.take(k),
    )).done == k by {
        lemma_done_counts(total, times.take(k));
    }
    if total > 0 {
        let earlier = times.drop_last();
        assert(nondecreasing(earlier));
        lemma_before_the_end(total, earlier);
        let before = after_all(start, earlier);
        assert(before.finishing());
        assert(last_reading(earlier) <= times.last()) by {
            if earlier.len() > 0 {
                assert(earlier.last() == times[times.len() - 2]);
            }
        }
        lemma_quotient_bound(emissions_by_count(start, earlier), step_for(total), total);
        lemma_quotient_bound(
            emissions_by_time(start, earlier),
            MIN_INTERVAL_MS as nat,
            last_reading(times),
        );
    }
}

proof fn lemma_done_counts(total: nat, times: Seq<nat>)
    ensures
        after_all(Throttle::initial(total), times).done == times.len(),
    decreases times.len(),
{
    if times.len() > 0 {
        lemma_done_counts(total, times.drop_last());
    }
}

/// Throttles high-frequency progress updates from scan workers.
pub struct ThrottledProgress {
    total: u32,
    done: u32,
    last_emitted: u32,
    last_emit_at: u128,
    step: u32,
    started: std::time::Instant,
}

impl View for ThrottledProgress {
    type V = Throttle;

    closed spec fn view(&self) -> Throttle {
        Throttle {
            total: self.total as nat,
            done: self.done as nat,
            last_emitted: self.last_emitted as nat,
            last_emit_at: self.last_emit_at as nat,
        }
    }
}

impl ThrottledProgress {
    #[verifier::type_invariant]
    spec fn inv(self) -> bool {
        &&& self.step as nat == step_for(self.total as nat)
        &&& self.last_emitted <= self.done
    }

    /// A throttle for `total` items, with nothing completed and the clock
    /// started now.
    pub fn new(total: u32) -> (progress: ThrottledProgress)
        ensures
            progress@ == Throttle::initial(total as nat),
    {
        let hundredth: u32 = total / 100;
        let step: u32 = if hundredth >= 1 { hundredth } else { 1 };
        ThrottledProgress {
            total,
            done: 0,
            last_emitted: 0,
            last_emit_at: 0,
            step,
            started: clock_now(),
        }
    }

    /// Total number of items.
    pub fn total(&self) -> (total: u32)
        ensures
            total == self@.total,
    {
        self.total
    }

    /// Number of completed items.
    pub fn done(&self) -> (done: u32)
        ensures
            done == self@.done,
    {
        self.done
    }

    /// Marks one item as finished at `now` milliseconds since creation and
    /// says whether a progress event is due.
    pub fn advance_at(&mut self, now: u128) -> (result: (u32, bool))
        requires
            old(self)@.done < u32::MAX,
        ensures
            final(self)@ == old(self)@.advance(now as nat),
            result.0 == old(self)@.done + 1,
            result.1 == old(self)@.emits(now as nat),
    {
        proof {
            use_type_invariant(&*self);
        }
        let done: u32 = self.done + 1;
        self.done = done;
        if done >= self.total {
            self.last_emitted = done;
            return (done, true);
        }
        let advanced_enough = done - self.last_emitted >= self.step;
        let elapsed: u128 = if now >= self.last_emit_at { now - self.last_emit_at } else { 0 };
        let time_ok = elapsed >= MIN_INTERVAL_MS;
        let should_emit = advanced_enough || time_ok;
        if should_emit {
            self.last_emitted = done;
            self.last_emit_at = now;
        }
        (done, should_emit)
    }

    /// Marks one item as finished now. The clock decides only whether the
    /// time-driven emission is due: the outcome is that of `advance_at` for
    /// some reading of the clock.
    pub fn on_advance(&mut self) -> (result: (u32, bool))
        requires
            old(self)@.done < u32::MAX,
        ensures
            exists|now: nat|
                final(self)@ == old(self)@.advance(now) && result.1 == #[trigger] old(self)@.emits(now),
            result.0 == old(self)@.done + 1,
    {
        let elapsed = clock_elapsed(&self.started);
        let now: u128 = whole_millis(&elapsed);
        self.advance_at(now)
    }
}

} // verus!
