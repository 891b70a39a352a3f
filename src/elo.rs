//! The Elo-style update of the recommended difficulty, in integers.
//!
//! With `d = problem_rating - estimate`, the expected score is
//! `E(d) = 1 / (1 + 10^(d/400))`, and a resolution moves the estimate by
//! `round(24 * (actual - E(d)))`, rounding halves away from zero.
//! Since `1 - E(d) == E(-d)`, a solve gains `round(24 * E(-d))` and a failure
//! loses `round(24 * E(d))`; both lie in `0..=24`.
//!
//! For `1 <= n <= 24`, `round(24 * E(d)) >= n` iff `24 * E(d) >= n - 1/2` iff
//! `10^(d/400) <= (49 - 2n) / (2n - 1)` iff `10^d * (2n - 1)^400 <= (49 - 2n)^400`.
//! That holds exactly for the offsets `d` up to a threshold, so
//! `round(24 * E(d))` is the number of thresholds that `d` does not exceed.
use vstd::prelude::*;

verus! {

/// For `1 <= n <= 24`: the largest integer `d` with
/// `10^d * (2n - 1)^400 <= (49 - 2n)^400`, that is the largest offset at which
/// `round(24 * E(d)) >= n`. The upper half mirrors the lower one, because
/// `E(-d) == 1 - E(d)` and no threshold is met with equality.
pub open spec fn threshold_of(n: int) -> int {
    if n > 12 {
        -lower_threshold(25 - n) - 1
    } else {
        lower_threshold(n)
    }
}

/// The thresholds for `1 <= n <= 12`.
pub open spec fn lower_threshold(n: int) -> int {
    if n == 1 {
        668
    } else if n == 2 {
        470
    } else if n == 3 {
        373
    } else if n == 4 {
        307
    } else if n == 5 {
        254
    } else if n == 6 {
        210
    } else if n == 7 {
        172
    } else if n == 8 {
        136
    } else if n == 9 {
        104
    } else if n == 10 {
        73
    } else if n == 11 {
        43
    } else {
        14
    }
}

/// The number of `k` in `n..=24` whose threshold `d` does not exceed.
pub open spec fn points_from(n: int, d: int) -> int
    decreases 25 - n,
{
    if n < 1 || n > 24 {
        0
    } else {
        (if d <= threshold_of(n) { 1int } else { 0int }) + points_from(n + 1, d)
    }
}

/// `round(24 * E(d))`: the points at stake against a problem rated `d` above
/// the estimate.
pub open spec fn expected_points(d: int) -> int {
    points_from(1, d)
}

/// How a resolution against a problem rated `rating` moves the estimate.
pub open spec fn elo_delta(estimate: int, rating: int, solved: bool) -> int {
    if solved {
        expected_points(estimate - rating)
    } else {
        -expected_points(rating - estimate)
    }
}

fn threshold(n: i64) -> (t: i64)
    requires
        1 <= n <= 24,
    ensures
        t == threshold_of(n as int),
{
    let m = if n > 12 { 25 - n } else { n };
    let base: i64 = match m {
        1 => 668,
        2 => 470,
        3 => 373,
        4 => 307,
        5 => 254,
        6 => 210,
        7 => 172,
        8 => 136,
        9 => 104,
        10 => 73,
        11 => 43,
        _ => 14,
    };
    if n > 12 {
        -base - 1
    } else {
        base
    }
}

/// `round(24 * E(d))` for an offset `d = rating - estimate`.
pub fn expected_points_at(d: i128) -> (r: i64)
    ensures
        r == expected_points(d as int),
{
    let mut n: i64 = 24;
    let mut acc: i64 = 0;
    while n >= 1
        invariant
            0 <= n <= 24,
            acc == points_from(n + 1, d as int),
            0 <= acc <= 24 - n,
        decreases n,
    {
        let t = threshold(n);
        if d <= t as i128 {
            acc = acc + 1;
        }
        n = n - 1;
    }
    acc
}

/// The change of the estimate after solving (or failing) a problem rated
/// `rating` while the estimate is `estimate`.
pub fn elo_change(estimate: i64, rating: i64, solved: bool) -> (r: i64)
    ensures
        r == elo_delta(estimate as int, rating as int, solved),
        -24 <= r <= 24,
{
    proof {
        lemma_points_range(estimate - rating);
        lemma_points_range(rating - estimate);
    }
    if solved {
        expected_points_at(estimate as i128 - rating as i128)
    } else {
        -expected_points_at(rating as i128 - estimate as i128)
    }
}

proof fn lemma_points_from_range(n: int, d: int)
    requires
        1 <= n <= 25,
    ensures
        0 <= points_from(n, d) <= 25 - n,
    decreases 25 - n,
{
    if n <= 24 {
        lemma_points_from_range(n + 1, d);
    }
}

/// The points at stake lie in `0..=24`.
pub proof fn lemma_points_range(d: int)
    ensures
        0 <= expected_points(d) <= 24,
{
    lemma_points_from_range(1, d);
}

proof fn lemma_points_from_monotone(n: int, d1: int, d2: int)
    requires
        1 <= n <= 25,
        d1 <= d2,
    ensures
        points_from(n, d1) >= points_from(n, d2),
    decreases 25 - n,
{
    if n <= 24 {
        lemma_points_from_monotone(n + 1, d1, d2);
    }
}

/// The harder the problem relative to the estimate, the fewer points a
/// failure costs and the more a solve earns.
pub proof fn lemma_points_monotone(d1: int, d2: int)
    requires
        d1 <= d2,
    ensures
        expected_points(d1) >= expected_points(d2),
{
    lemma_points_from_monotone(1, d1, d2);
}

/// Solving never lowers the estimate and failing never raises it. Solving a
/// problem rated at least the estimate earns at least half the stake, while
/// solving one rated 669 or more below the estimate earns nothing.
pub proof fn lemma_update_direction(estimate: int, rating: int)
    ensures
        elo_delta(estimate, rating, true) >= 0,
        elo_delta(estimate, rating, false) <= 0,
        rating >= estimate ==> elo_delta(estimate, rating, true) >= 12,
        estimate - rating >= 669 ==> elo_delta(estimate, rating, true) == 0,
{
    lemma_points_range(estimate - rating);
    lemma_points_range(rating - estimate);
    reveal_with_fuel(points_from, 25);
    assert(expected_points(0) == 12);
    assert(expected_points(669) == 0);
    if rating >= estimate {
        lemma_points_monotone(estimate - rating, 0);
    }
    if estimate - rating >= 669 {
        lemma_points_monotone(669, estimate - rating);
    }
}

/// Against a higher-rated problem the update is never smaller, whether the
/// problem is solved or not: the expected score falls as the rating rises.
pub proof fn lemma_delta_monotone_in_rating(estimate: int, rating1: int, rating2: int, solved: bool)
    requires
        rating1 <= rating2,
    ensures
        elo_delta(estimate, rating1, solved) <= elo_delta(estimate, rating2, solved),
{
    if solved {
        lemma_points_monotone(estimate - rating2, estimate - rating1);
    } else {
        lemma_points_monotone(rating1 - estimate, rating2 - estimate);
    }
}

} // verus!
