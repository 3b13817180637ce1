//! The confidence scorer's fixed points and ordering.

use league_helper::calc_win_rate;
use league_helper::WIN_RATE_SCALE;

#[test]
fn zero_games_scores_zero() {
    assert_eq!(calc_win_rate(0, 0), 0);
    assert_eq!(calc_win_rate(5, 0), 0);
    assert_eq!(calc_win_rate(0, 10), 0);
}

#[test]
fn wilson_bound_for_sixty_of_hundred() {
    // The Wilson lower bound for 60/100 at z = 4.265 is about 0.391802.
    assert_eq!(calc_win_rate(60, 100), 391_802);
}

#[test]
fn known_values() {
    assert_eq!(calc_win_rate(10, 10), 354_732);
    assert_eq!(calc_win_rate(1, 1), 52_109);
    assert_eq!(calc_win_rate(500, 1000), 433_169);
    assert_eq!(calc_win_rate(100, 100), 846_093);
}

#[test]
fn always_within_scale() {
    let samples = [
        (0u32, 0u32),
        (0, 1),
        (1, 1),
        (3, 7),
        (60, 100),
        (999, 1000),
        (1000, 1000),
        (123_456, 654_321),
        (u32::MAX, u32::MAX),
    ];
    for (w, n) in samples {
        let s = calc_win_rate(w, n);
        assert!(s <= WIN_RATE_SCALE);
    }
}

#[test]
fn non_decreasing_in_wins() {
    for n in [1u32, 2, 5, 10, 100, 1000] {
        let mut prev = calc_win_rate(0, n);
        for w in 1..=n.min(1000) {
            let cur = calc_win_rate(w, n);
            assert!(cur >= prev, "score dropped at {}/{}", w, n);
            prev = cur;
        }
    }
}

#[test]
fn wins_beyond_games_clamp() {
    assert_eq!(calc_win_rate(150, 100), calc_win_rate(100, 100));
}
