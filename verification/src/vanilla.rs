//! The plain scoring rule: a hundred right answers, whatever the time used.
//!
//! Handing in after `elapsed` of `length` minutes scores
//! `100 * elapsed * (length - elapsed)`. Writing `elapsed` as
//! `length / 2 + delta`, the score is `100 * (length^2 / 4 - delta^2)`, so a
//! threshold is reached exactly while `delta^2` stays under
//! `length^2 / 4 - threshold / 100`. To stay within the integers even for an
//! odd duration, everything is carried out on the doubled offset `2 * delta`,
//! which has the parity of `length`, and on four times the right-hand side.

use vstd::prelude::*;
use vstd::set_lib::{lemma_int_range, set_int_range};
use crate::sqrt::{floor_sqrt, is_floor_sqrt, lemma_floor_sqrt_exists, lemma_square_monotone};
use crate::ValuesForAlice;

verus! {

/// The score for handing in after `elapsed` of `length` minutes.
pub open spec fn vanilla_score(length: int, elapsed: int) -> int {
    100 * elapsed * (length - elapsed)
}

/// The best score of a test of `length` minutes: the duration is split as
/// evenly as possible between the time used and the time left.
pub open spec fn vanilla_max_score(length: int) -> int {
    100 * ((length + 1) / 2) * (length / 2)
}

/// Four times the right-hand side of the threshold inequality. The quotient
/// `4 * threshold / 100` is rounded down, so a threshold counts as the
/// nearest multiple of 25 at or below it.
pub open spec fn quadruple_right_side(length: int, threshold: int) -> int {
    length * length - (4 * threshold) / 100
}

/// `d` is the largest doubled offset under `bound`: it is a natural number of
/// the parity of `length`, its square does not exceed `bound`, and the square
/// of the next number of that parity does.
pub open spec fn is_max_double_delta(length: int, bound: int, d: int) -> bool {
    &&& 0 <= d
    &&& d % 2 == length % 2
    &&& d * d <= bound
    &&& bound < (d + 2) * (d + 2)
}

/// The largest doubled offset under `bound`. It exists when `bound` is at
/// least the smallest offset of the parity of `length` (0 or 1).
pub open spec fn max_double_delta(length: int, bound: int) -> int {
    choose|d: int| is_max_double_delta(length, bound, d)
}

/// The size of the window of a test of `length` minutes for `threshold`.
///
/// A threshold of zero or less is met at any time, and the window is the
/// whole duration. Otherwise the window is empty when not even the smallest
/// offset fits under the bound, and else holds one hand-in time for each
/// offset of the right parity between `-d` and `d`, where `d` is the largest
/// doubled offset: `d + 1` of them.
pub open spec fn vanilla_window(length: int, threshold: int) -> int {
    let bound = quadruple_right_side(length, threshold);
    if threshold <= 0 {
        length
    } else if bound < length % 2 {
        0
    } else {
        max_double_delta(length, bound) + 1
    }
}

/// The minutes from the first to the last of a test of `length` minutes whose
/// score reaches `threshold`.
pub open spec fn vanilla_qualifying_times(length: int, threshold: int) -> Set<int> {
    Set::new(|x: int| 1 <= x <= length && vanilla_score(length, x) >= threshold)
}

/// What `task_2_vanilla` answers for a duration and a threshold.
pub open spec fn is_vanilla_answer(length: int, threshold: int, answer: ValuesForAlice) -> bool {
    &&& answer.max_score == vanilla_max_score(length)
    &&& answer.window_size == vanilla_window(length, threshold)
}

/// A bound has at most one largest doubled offset, and `max_double_delta`
/// names it.
pub proof fn lemma_max_double_delta_unique(length: int, bound: int, d: int)
    requires
        is_max_double_delta(length, bound, d),
    ensures
        max_double_delta(length, bound) == d,
{
    let c = max_double_delta(length, bound);
    assert(is_max_double_delta(length, bound, c));
    if c < d {
        lemma_square_monotone(c + 2, d);
    }
    if d < c {
        lemma_square_monotone(d + 2, c);
    }
}

/// Rounding a square root down to the parity of `length` gives the largest
/// doubled offset.
pub proof fn lemma_max_double_delta_from_root(length: int, bound: int, root: int)
    requires
        0 <= length,
        length % 2 <= bound,
        is_floor_sqrt(bound, root),
    ensures
        is_max_double_delta(
            length,
            bound,
            if root % 2 == length % 2 {
                root
            } else {
                root - 1
            },
        ),
{
    if root % 2 == length % 2 {
        lemma_square_monotone(root + 1, root + 2);
    } else {
        if root == 0 {
            assert((root + 1) * (root + 1) == 1) by (nonlinear_arith)
                requires
                    root == 0,
            ;
        }
        lemma_square_monotone(root - 1, root);
    }
}

/// Whenever the bound admits an offset at all, `max_double_delta` is the
/// largest one.
pub proof fn lemma_max_double_delta_exists(length: int, bound: int)
    requires
        0 <= length,
        length % 2 <= bound,
    ensures
        is_max_double_delta(length, bound, max_double_delta(length, bound)),
{
    let root = lemma_floor_sqrt_exists(bound as nat);
    lemma_max_double_delta_from_root(length, bound, root);
}

/// The window is never larger than the duration plus one, and not larger than
/// the duration unless the threshold lies between 1 and 24.
pub proof fn lemma_vanilla_window_bounds(length: int, threshold: int)
    requires
        0 <= length,
    ensures
        0 <= vanilla_window(length, threshold) <= length + 1,
        threshold <= 0 || threshold >= 25 ==> vanilla_window(length, threshold) <= length,
{
    let bound = quadruple_right_side(length, threshold);
    if threshold > 0 && bound >= length % 2 {
        lemma_max_double_delta_exists(length, bound);
        let d = max_double_delta(length, bound);
        if d > length {
            lemma_square_monotone(length + 1, d);
            assert((length + 1) * (length + 1) > length * length) by (nonlinear_arith)
                requires
                    0 <= length,
            ;
        }
        if threshold >= 25 && d == length {
            assert(d * d == length * length);
        }
    }
}

/// The size of the window of a test of `max_test_length` minutes for
/// `threshold`, in closed form.
///
/// The window exceeds the duration in one case only: a threshold between 1
/// and 24 is rounded down to zero, and then both ends of the test count
/// besides every minute between them.
pub fn _task_2_vanilla(max_test_length: u16, threshold: i32) -> (window_size: u32)
    ensures
        window_size == vanilla_window(max_test_length as int, threshold as int),
        threshold <= 0 ==> window_size == max_test_length,
        0 < threshold < 25 ==> window_size == max_test_length + 1,
        25 <= threshold ==> window_size <= max_test_length,
{
    proof {
        lemma_vanilla_window_bounds(max_test_length as int, threshold as int);
        if 0 < threshold < 25 {
            lemma_vanilla_window_small_threshold(max_test_length as int, 0, threshold as int);
        }
    }
    if threshold <= 0 {
        return max_test_length as u32;
    }
    let length_is_even: bool = max_test_length % 2 == 0;
    let length: u64 = max_test_length as u64;
    proof {
        lemma_square_monotone(length as int, u16::MAX as int);
    }
    let squared_length: u64 = length * length;
    let quadruple_threshold: u64 = 4 * (threshold as u64) / 100;
    if squared_length < quadruple_threshold {
        return 0;
    }
    let quadruple_right_side: u64 = squared_length - quadruple_threshold;
    if !length_is_even && quadruple_right_side < 1 {
        return 0;
    }
    let mut max_double_delta: u16 = floor_sqrt(quadruple_right_side as u32);
    proof {
        lemma_max_double_delta_from_root(
            max_test_length as int,
            quadruple_right_side as int,
            max_double_delta as int,
        );
    }
    if length_is_even {
        max_double_delta -= max_double_delta % 2;
    } else {
        if max_double_delta % 2 == 0 {
            max_double_delta -= 1;
        }
    }
    proof {
        lemma_max_double_delta_unique(
            max_test_length as int,
            quadruple_right_side as int,
            max_double_delta as int,
        );
    }
    max_double_delta as u32 + 1
}

/// The best score and the window of a test of `max_test_length` minutes for
/// `threshold`.
pub fn task_2_vanilla(max_test_length: u16, threshold: i32) -> (answer: ValuesForAlice)
    ensures
        is_vanilla_answer(max_test_length as int, threshold as int, answer),
        threshold <= 0 ==> answer.window_size == max_test_length,
        0 < threshold < 25 ==> answer.window_size == max_test_length + 1,
        25 <= threshold ==> answer.window_size <= max_test_length,
{
    let remainder: u64 = (max_test_length % 2) as u64;
    let half: u64 = (max_test_length / 2) as u64;
    assert(100 * (half + remainder) * half <= 100 * 0x8000 * 0x8000) by (nonlinear_arith)
        requires
            half + remainder <= 0x8000,
            half <= 0x8000,
    ;
    ValuesForAlice {
        max_score: 100 * (half + remainder) * half,
        window_size: _task_2_vanilla(max_test_length, threshold),
    }
}

/// No hand-in time scores more than `vanilla_max_score`, and handing in at
/// half time (rounded down) scores exactly that.
pub proof fn lemma_vanilla_max_score_is_best(length: int, elapsed: int)
    requires
        0 <= length,
    ensures
        vanilla_score(length, elapsed) <= vanilla_max_score(length),
        vanilla_score(length, length / 2) == vanilla_max_score(length),
{
    let down = length / 2;
    let up = (length + 1) / 2;
    assert(100 * down * (length - down) == 100 * up * down) by (nonlinear_arith)
        requires
            length - down == up,
    ;
    assert(100 * elapsed * (length - elapsed) <= 100 * up * down) by (nonlinear_arith)
        requires
            up + down == length,
            down <= up <= down + 1,
    {
        assert((elapsed - down) * (elapsed - up) >= 0);
    }
}

/// A threshold of zero or less is met at any time: the window is the whole
/// duration.
pub proof fn lemma_vanilla_window_without_threshold(length: int, threshold: int)
    requires
        threshold <= 0,
    ensures
        vanilla_window(length, threshold) == length,
{
}

/// The answer is a function of the duration and the threshold: two answers
/// to the same question are equal.
pub proof fn lemma_vanilla_answer_unique(
    length: int,
    threshold: int,
    first: ValuesForAlice,
    second: ValuesForAlice,
)
    requires
        is_vanilla_answer(length, threshold, first),
        is_vanilla_answer(length, threshold, second),
    ensures
        first == second,
{
}

/// For a positive threshold with a window that is not empty, let `d` be the
/// doubled offset behind it, the window size less one. Then `d` cannot grow:
/// the next offset of the same parity misses the threshold.
pub proof fn lemma_double_delta_cannot_grow(length: int, threshold: int)
    requires
        0 <= length,
        0 < threshold,
        0 < vanilla_window(length, threshold),
    ensures
        ({
            let d = vanilla_window(length, threshold) - 1;
            100 * (length + d + 2) * (length - d - 2) < 4 * threshold
        }),
{
    let bound = quadruple_right_side(length, threshold);
    lemma_max_double_delta_exists(length, bound);
    let d = vanilla_window(length, threshold) - 1;
    let quotient = (4 * threshold) / 100;
    assert(100 * (length + d + 2) * (length - d - 2) <= 100 * quotient - 100)
        by (nonlinear_arith)
        requires
            length * length - quotient < (d + 2) * (d + 2),
    ;
}

/// Under the same conditions `d` itself meets the threshold, provided the
/// rounding of `4 * threshold / 100` lost nothing (the threshold is a
/// multiple of 25) or did no harm (the square of `d` lies strictly under the
/// bound).
pub proof fn lemma_double_delta_meets_threshold(length: int, threshold: int)
    requires
        0 <= length,
        0 < threshold,
        0 < vanilla_window(length, threshold),
        ({
            let d = vanilla_window(length, threshold) - 1;
            threshold % 25 == 0 || d * d < quadruple_right_side(length, threshold)
        }),
    ensures
        ({
            let d = vanilla_window(length, threshold) - 1;
            100 * (length + d) * (length - d) >= 4 * threshold
        }),
{
    let bound = quadruple_right_side(length, threshold);
    lemma_max_double_delta_exists(length, bound);
    let d = vanilla_window(length, threshold) - 1;
    let quotient = (4 * threshold) / 100;
    if threshold % 25 == 0 {
        assert(100 * (length + d) * (length - d) >= 100 * quotient) by (nonlinear_arith)
            requires
                d * d <= length * length - quotient,
        ;
    } else {
        assert(100 * (length + d) * (length - d) >= 100 * quotient + 100) by (nonlinear_arith)
            requires
                d * d < length * length - quotient,
        ;
    }
}

/// Where neither of those two conditions holds, `d` misses the threshold:
/// the rounding has let one offset too many into the window.
pub proof fn lemma_double_delta_misses_threshold(length: int, threshold: int)
    requires
        0 <= length,
        0 < threshold,
        0 < vanilla_window(length, threshold),
        ({
            let d = vanilla_window(length, threshold) - 1;
            threshold % 25 != 0 && d * d == quadruple_right_side(length, threshold)
        }),
    ensures
        ({
            let d = vanilla_window(length, threshold) - 1;
            100 * (length + d) * (length - d) < 4 * threshold
        }),
{
    let d = vanilla_window(length, threshold) - 1;
    let quotient = (4 * threshold) / 100;
    assert(100 * (length + d) * (length - d) == 100 * quotient) by (nonlinear_arith)
        requires
            d * d == length * length - quotient,
    ;
}

/// A higher threshold never has a larger window, unless the lower one is
/// zero or less and the higher one between 1 and 24.
pub proof fn lemma_vanilla_window_monotone(length: int, lower: int, higher: int)
    requires
        0 <= length,
        lower < higher,
        0 < lower || 25 <= higher,
    ensures
        vanilla_window(length, higher) <= vanilla_window(length, lower),
{
    lemma_vanilla_window_bounds(length, lower);
    lemma_vanilla_window_bounds(length, higher);
    let lower_bound = quadruple_right_side(length, lower);
    let higher_bound = quadruple_right_side(length, higher);
    if 0 < lower && length % 2 <= higher_bound {
        lemma_max_double_delta_exists(length, lower_bound);
        lemma_max_double_delta_exists(length, higher_bound);
        let lower_delta = max_double_delta(length, lower_bound);
        let higher_delta = max_double_delta(length, higher_bound);
        if lower_delta < higher_delta {
            lemma_square_monotone(lower_delta + 2, higher_delta);
        }
    }
}

/// In the case that `lemma_vanilla_window_monotone` leaves out, the window
/// grows by one past the whole duration.
pub proof fn lemma_vanilla_window_small_threshold(length: int, lower: int, higher: int)
    requires
        0 <= length,
        lower <= 0,
        0 < higher < 25,
    ensures
        vanilla_window(length, lower) == length,
        vanilla_window(length, higher) == length + 1,
{
    assert(is_max_double_delta(length, length * length, length)) by (nonlinear_arith)
        requires
            0 <= length,
    ;
    lemma_max_double_delta_unique(length, length * length, length);
    assert(length % 2 <= length * length) by (nonlinear_arith)
        requires
            0 <= length,
    ;
}

/// For a positive multiple of 25 as the threshold, a hand-in time reaches it
/// exactly if the square of its doubled offset from half time stays under the
/// bound.
pub proof fn lemma_vanilla_time_qualifies(length: int, threshold: int, x: int)
    requires
        0 < threshold,
        threshold % 25 == 0,
    ensures
        vanilla_score(length, x) >= threshold <==> (2 * x - length) * (2 * x - length)
            <= quadruple_right_side(length, threshold),
{
    let quotient = (4 * threshold) / 100;
    let offset = 2 * x - length;
    assert(4 * (100 * x * (length - x)) == 100 * (length * length - offset * offset))
        by (nonlinear_arith)
        requires
            offset == 2 * x - length,
    ;
}

/// For a threshold of zero or less, or a multiple of 25, the window is the
/// number of minutes whose score reaches the threshold.
pub proof fn lemma_vanilla_window_counts(length: int, threshold: int)
    requires
        0 <= length,
        threshold <= 0 || threshold % 25 == 0,
    ensures
        vanilla_qualifying_times(length, threshold).finite(),
        vanilla_window(length, threshold) == vanilla_qualifying_times(length, threshold).len(),
{
    let times = vanilla_qualifying_times(length, threshold);
    let bound = quadruple_right_side(length, threshold);
    if threshold <= 0 {
        assert forall|x: int| 1 <= x <= length implies vanilla_score(length, x) >= threshold by {
            assert(100 * x * (length - x) >= 0) by (nonlinear_arith)
                requires
                    0 <= x <= length,
            ;
        }
        assert(times =~= set_int_range(1, length + 1));
        lemma_int_range(1, length + 1);
    } else if bound < length % 2 {
        assert forall|x: int| !times.contains(x) by {
            lemma_vanilla_time_qualifies(length, threshold, x);
            let offset = 2 * x - length;
            assert(offset * offset >= length % 2) by (nonlinear_arith)
                requires
                    offset % 2 == length % 2,
            ;
        }
        assert(times =~= Set::empty());
    } else {
        lemma_max_double_delta_exists(length, bound);
        let d = max_double_delta(length, bound);
        if d >= length {
            lemma_square_monotone(length, d);
        }
        let first = (length - d) / 2;
        let last = (length + d) / 2;
        assert forall|x: int| times.contains(x) <==> first <= x <= last by {
            lemma_vanilla_time_qualifies(length, threshold, x);
            let offset = 2 * x - length;
            if offset > d {
                lemma_square_monotone(d + 2, offset);
            } else if -offset > d {
                lemma_square_monotone(d + 2, -offset);
                assert((-offset) * (-offset) == offset * offset) by (nonlinear_arith);
            } else if offset >= 0 {
                lemma_square_monotone(offset, d);
            } else {
                lemma_square_monotone(-offset, d);
                assert((-offset) * (-offset) == offset * offset) by (nonlinear_arith);
            }
        }
        assert(times =~= set_int_range(first, last + 1));
        lemma_int_range(first, last + 1);
    }
}

} // verus!
