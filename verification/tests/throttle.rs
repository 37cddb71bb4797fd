use netpulse_core::progress::{ThrottledProgress, MIN_INTERVAL_MS};

#[test]
fn step_is_one_percent_and_never_zero() {
    // 1000 items: an emission every 10 items when no time passes.
    let mut progress = ThrottledProgress::new(1000);
    let mut emitted_at = Vec::new();
    for _ in 0..30 {
        let (done, emit) = progress.advance_at(0);
        if emit {
            emitted_at.push(done);
        }
    }
    assert_eq!(emitted_at, vec![10, 20, 30]);

    // 50 items: one percent rounds down to zero, so the step is one.
    let mut small = ThrottledProgress::new(50);
    assert_eq!(small.advance_at(0), (1, true));
    assert_eq!(small.advance_at(0), (2, true));
}

#[test]
fn emits_after_the_minimum_interval() {
    assert_eq!(MIN_INTERVAL_MS, 80);
    let mut progress = ThrottledProgress::new(10_000);
    assert_eq!(progress.advance_at(79), (1, false));
    assert_eq!(progress.advance_at(80), (2, true));
    // The clock of the last emission is 80 now.
    assert_eq!(progress.advance_at(159), (3, false));
    assert_eq!(progress.advance_at(160), (4, true));
}

#[test]
fn clock_that_goes_back_counts_as_no_time() {
    let mut progress = ThrottledProgress::new(10_000);
    assert_eq!(progress.advance_at(100), (1, true));
    assert_eq!(progress.advance_at(20), (2, false));
}

#[test]
fn final_advance_always_emits() {
    let mut progress = ThrottledProgress::new(3);
    assert_eq!(progress.total(), 3);
    // Step is one here, so use a large total for the quiet part.
    let mut big = ThrottledProgress::new(500);
    for expected in 1..500u32 {
        let (done, _) = big.advance_at(0);
        assert_eq!(done, expected);
    }
    assert_eq!(big.advance_at(0), (500, true));
    assert_eq!(big.done(), 500);
    progress.advance_at(0);
    progress.advance_at(0);
    assert_eq!(progress.advance_at(0), (3, true));
}

#[test]
fn advances_beyond_the_total_keep_emitting() {
    let mut progress = ThrottledProgress::new(1);
    assert_eq!(progress.advance_at(0), (1, true));
    assert_eq!(progress.advance_at(0), (2, true));
}

#[test]
fn zero_total_emits_on_every_advance() {
    let mut progress = ThrottledProgress::new(0);
    assert_eq!(progress.advance_at(0), (1, true));
}

#[test]
fn emissions_stay_within_the_bound() {
    // 2500 items, one every 3 ms: step 25, elapsed 7497 ms.
    let total: u32 = 2500;
    let mut progress = ThrottledProgress::new(total);
    let mut emissions: u64 = 0;
    let mut at_total: u64 = 0;
    let mut last = 0u128;
    for k in 0..total {
        last = 3 * (k as u128 + 1);
        let (done, emit) = progress.advance_at(last);
        assert_eq!(done, k + 1);
        if emit {
            emissions += 1;
            if done == total {
                at_total += 1;
            }
        }
    }
    let step = 25u64;
    let bound = (total as u64 + step - 1) / step + ((last as u64) + 79) / 80 + 1;
    assert!(emissions <= bound, "{} > {}", emissions, bound);
    assert_eq!(at_total, 1);
}

#[test]
fn on_advance_reads_the_clock() {
    let mut progress = ThrottledProgress::new(2);
    let (done, _) = progress.on_advance();
    assert_eq!(done, 1);
    assert_eq!(progress.on_advance(), (2, true));
}
