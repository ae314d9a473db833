//! Scores and submission windows for a timed test.
//!
//! A test lasts a whole number of minutes. Handing it in after some of them
//! earns a score that depends on the minutes used and the minutes left. For a
//! given duration and a score threshold the library answers two questions:
//! what is the best score that can be reached, and how many hand-in times
//! reach at least the threshold (the size of the window).
//!
//! Two scoring rules are covered. Under the plain rule (`vanilla`) a fixed
//! hundred answers are right and the window follows from a quadratic
//! inequality in closed form. Under the extended rule (`bonus`) the number of
//! right answers grows with the time used, and the answer comes from a scan
//! over every minute.
//!
//! Durations and question counts are 16-bit, thresholds are 32-bit and
//! signed. Scores are held in 64 bits and window sizes in 32, which is wide
//! enough for every duration, threshold and question count: no function here
//! can overflow, and none leaves an input out on that account.

use vstd::prelude::*;

pub mod bonus;
pub mod sqrt;
pub mod vanilla;

pub use bonus::{task_2_bonus, Variables};

pub use vanilla::{_task_2_vanilla, task_2_vanilla};

verus! {

/// The answer for one test: the best score that can be reached, and the
/// number of hand-in times whose score reaches the threshold.
#[derive(Clone, Copy, Debug, PartialEq, Eq, Structural)]
pub struct ValuesForAlice {
    pub max_score: u64,
    pub window_size: u32,
}

} // verus!
