//! The extended scoring rule: the right answers grow with the time used.
//!
//! Of `question_num` questions, a candidate who hands in after `x` of
//! `max_test_length` minutes has answered the share `x / max_test_length`,
//! rounded down to whole questions, and scores that number times `x` times
//! the minutes left. The best score and the window are found by looking at
//! every minute from the first to the last.
//!
//! The window is a plain count of the minutes that reach the threshold.
//! Nothing here shows that those minutes are consecutive.

use vstd::prelude::*;
use vstd::set_lib::{lemma_int_range, lemma_len_subset, set_int_range};
use crate::ValuesForAlice;

verus! {

/// The score for handing in after `elapsed` of `length` minutes when the
/// test has `questions` questions.
pub open spec fn bonus_score(length: int, questions: int, elapsed: int) -> int {
    (elapsed * questions / length) * elapsed * (length - elapsed)
}

/// One question put to `task_2_bonus`: a test of `max_test_length` minutes
/// and `question_num` questions, and the score to be reached.
#[derive(Clone, Copy, Debug, PartialEq, Eq, Structural)]
pub struct Variables {
    pub max_test_length: u16,
    pub threshold: i32,
    pub question_num: u16,
}

impl Variables {
    /// The score for handing in after `x` minutes.
    pub open spec fn score(&self, x: int) -> int {
        bonus_score(self.max_test_length as int, self.question_num as int, x)
    }

    /// The threshold that scores are held against: a negative one counts as
    /// zero.
    pub open spec fn clamped_threshold(&self) -> int {
        if self.threshold < 0 {
            0
        } else {
            self.threshold as int
        }
    }

    /// The minutes from the first to `last` whose score reaches the threshold.
    pub open spec fn qualifying_times(&self, last: int) -> Set<int> {
        Set::new(|x: int| 1 <= x <= last && self.score(x) >= self.clamped_threshold())
    }

    /// `best` is the highest score over the minutes from the first to `last`,
    /// or zero if there is no such minute.
    pub open spec fn is_best_score(&self, last: int, best: int) -> bool {
        &&& forall|x: int| 1 <= x <= last ==> #[trigger] self.score(x) <= best
        &&& if last >= 1 {
            exists|x: int| 1 <= x <= last && #[trigger] self.score(x) == best
        } else {
            best == 0
        }
    }

    /// What `task_2_bonus` answers to this question.
    pub open spec fn is_answer(&self, answer: ValuesForAlice) -> bool {
        &&& self.is_best_score(self.max_test_length as int, answer.max_score as int)
        &&& answer.window_size == self.qualifying_times(self.max_test_length as int).len()
    }

    /// The score for handing in after `x` minutes.
    pub fn get_score(&self, x: u16) -> (score: u64)
        requires
            self.max_test_length > 0,
            x <= self.max_test_length,
        ensures
            score == self.score(x as int),
    {
        let length: u64 = self.max_test_length as u64;
        let elapsed: u64 = x as u64;
        let questions: u64 = self.question_num as u64;
        assert(elapsed * questions <= 0xffff * 0xffff) by (nonlinear_arith)
            requires
                elapsed <= 0xffff,
                questions <= 0xffff,
        ;
        let right_answers: u64 = elapsed * questions / length;
        assert(right_answers * elapsed <= 0xffff_ffff * 0xffff) by (nonlinear_arith)
            requires
                right_answers <= 0xffff_ffff,
                elapsed <= 0xffff,
        ;
        assert(right_answers * elapsed * (length - elapsed) <= 0xffff_ffff * 0xffff * 0xffff)
            by (nonlinear_arith)
            requires
                right_answers * elapsed <= 0xffff_ffff * 0xffff,
                0 <= length - elapsed <= 0xffff,
        ;
        right_answers * elapsed * (length - elapsed)
    }
}

/// The best score and the window of a test under the extended rule, by a
/// scan over every minute.
pub fn task_2_bonus(vars: Variables) -> (answer: ValuesForAlice)
    ensures
        vars.is_answer(answer),
        answer.window_size <= vars.max_test_length,
{
    let threshold: i64 = if vars.threshold < 0 {
        0
    } else {
        vars.threshold as i64
    };
    let mut max_score: u64 = 0;
    let mut window_size: u32 = 0;
    let mut i: u16 = 0;
    assert(vars.qualifying_times(0) =~= Set::empty());
    while i < vars.max_test_length
        invariant
            i <= vars.max_test_length,
            threshold == vars.clamped_threshold(),
            forall|x: int| 1 <= x <= i ==> #[trigger] vars.score(x) <= max_score,
            max_score == 0 || exists|x: int| 1 <= x <= i && #[trigger] vars.score(x) == max_score,
            vars.qualifying_times(i as int).finite(),
            window_size == vars.qualifying_times(i as int).len(),
            window_size <= i,
        decreases vars.max_test_length - i,
    {
        i += 1;
        let score: u64 = vars.get_score(i);
        if score >= threshold as u64 {
            assert(vars.qualifying_times(i as int) =~= vars.qualifying_times(i - 1).insert(
                i as int,
            ));
            window_size += 1;
        } else {
            assert(vars.qualifying_times(i as int) =~= vars.qualifying_times(i - 1));
        }
        if score > max_score {
            max_score = score;
        }
    }
    proof {
        if max_score == 0 && vars.max_test_length >= 1 {
            lemma_last_minute_scores_nothing(vars);
        }
    }
    ValuesForAlice { max_score, window_size }
}

/// Handing in at the last minute leaves no time and scores nothing.
pub proof fn lemma_last_minute_scores_nothing(vars: Variables)
    ensures
        vars.score(vars.max_test_length as int) == 0,
{
    let length = vars.max_test_length as int;
    let right_answers = length * vars.question_num / length;
    assert(right_answers * length * (length - length) == 0) by (nonlinear_arith);
}

/// The answer is a function of the question: two answers to the same
/// question are equal.
pub proof fn lemma_bonus_answer_unique(
    vars: Variables,
    first: ValuesForAlice,
    second: ValuesForAlice,
)
    requires
        vars.is_answer(first),
        vars.is_answer(second),
    ensures
        first == second,
{
}

/// The minutes that reach the threshold are finitely many, at most as many
/// as the test has.
pub proof fn lemma_qualifying_times_bounded(vars: Variables, last: int)
    requires
        0 <= last,
    ensures
        vars.qualifying_times(last).finite(),
        vars.qualifying_times(last).len() <= last,
{
    lemma_int_range(1, last + 1);
    lemma_len_subset(vars.qualifying_times(last), set_int_range(1, last + 1));
}

/// A higher threshold never has a larger window.
pub proof fn lemma_bonus_window_monotone(lower: Variables, higher: Variables)
    requires
        lower.max_test_length == higher.max_test_length,
        lower.question_num == higher.question_num,
        lower.threshold <= higher.threshold,
    ensures
        higher.qualifying_times(higher.max_test_length as int).len() <= lower.qualifying_times(
            lower.max_test_length as int,
        ).len(),
{
    let length = lower.max_test_length as int;
    lemma_qualifying_times_bounded(lower, length);
    assert forall|x: int| higher.qualifying_times(length).contains(x) implies lower.qualifying_times(
        length,
    ).contains(x) by {
        assert(higher.score(x) == lower.score(x));
    }
    lemma_len_subset(higher.qualifying_times(length), lower.qualifying_times(length));
}

/// A threshold of zero or less is met at every minute: the window is the
/// whole duration.
pub proof fn lemma_bonus_window_without_threshold(vars: Variables)
    requires
        vars.threshold <= 0,
    ensures
        vars.qualifying_times(vars.max_test_length as int).len() == vars.max_test_length,
{
    let length = vars.max_test_length as int;
    let questions = vars.question_num as int;
    assert forall|x: int| 1 <= x <= length implies vars.score(x) >= 0 by {
        let right_answers = x * questions / length;
        assert(right_answers * x * (length - x) >= 0) by (nonlinear_arith)
            requires
                right_answers == x * questions / length,
                1 <= x <= length,
                0 <= questions,
        ;
    }
    assert(vars.qualifying_times(length) =~= set_int_range(1, length + 1));
    lemma_int_range(1, length + 1);
}

} // verus!
