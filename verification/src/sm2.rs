//! SM-2 spaced repetition: the integer part of the schedule.
//!
//! Quality: 0-5
//!   0 — complete blackout
//!   1 — incorrect, remembered upon seeing answer
//!   2 — incorrect, but easy to recall after seeing answer
//!   3 — correct with serious difficulty
//!   4 — correct with some hesitation
//!   5 — perfect response
//!
//! A review below quality 3 restarts the word; a passed review counts one
//! more repetition, and the next interval is 1 day after the first pass,
//! 6 days after the second, and from then on the previous interval scaled by
//! the word's ease factor. The ease factor and that scaling are floating
//! point, and are computed by the caller from the plan given here.

use vstd::prelude::*;

verus! {

/// How long until the next review.
#[derive(Clone, Copy, Debug, PartialEq, Eq, Structural)]
pub enum NextInterval {
    /// A fixed number of days.
    Days(i64),
    /// The previous interval times the ease factor, rounded.
    ScaledByEase,
}

/// The schedule after a review, apart from the ease factor.
#[derive(Clone, Copy, Debug, PartialEq, Eq, Structural)]
pub struct RepetitionPlan {
    /// The number of successful repetitions in a row.
    pub repetitions: i64,
    /// The next interval.
    pub interval: NextInterval,
}

/// Whether a review of this quality counts as remembered.
pub open spec fn passed(quality: u8) -> bool {
    quality >= 3
}

/// The plan after a review of `quality` of a word that had `repetitions`
/// successful repetitions in a row.
pub open spec fn plan_for(quality: u8, repetitions: i64) -> RepetitionPlan {
    if !passed(quality) {
        RepetitionPlan { repetitions: 0, interval: NextInterval::Days(1) }
    } else {
        let reps = repetitions + 1;
        RepetitionPlan {
            repetitions: reps as i64,
            interval: if reps == 1 {
                NextInterval::Days(1)
            } else if reps == 2 {
                NextInterval::Days(6)
            } else {
                NextInterval::ScaledByEase
            },
        }
    }
}

/// The repetitions and next interval after a review of `quality` (qualities
/// above 5 count as 5).
pub fn plan_repetition(quality: u8, repetitions: i64) -> (plan: RepetitionPlan)
    requires
        passed(quality) ==> repetitions < i64::MAX,
    ensures
        plan == plan_for(quality, repetitions),
{
    let q = if quality < 5 {
        quality
    } else {
        5
    };
    if q < 3 {
        RepetitionPlan { repetitions: 0, interval: NextInterval::Days(1) }
    } else {
        let reps = repetitions + 1;
        let interval = if reps == 1 {
            NextInterval::Days(1)
        } else if reps == 2 {
            NextInterval::Days(6)
        } else {
            NextInterval::ScaledByEase
        };
        RepetitionPlan { repetitions: reps, interval }
    }
}

/// A failed review starts the word over: no repetitions, next review in a day.
pub proof fn lemma_failed_review_resets(quality: u8, repetitions: i64)
    requires
        quality < 3,
    ensures
        plan_for(quality, repetitions).repetitions == 0,
        plan_for(quality, repetitions).interval == NextInterval::Days(1),
{
}

/// A passed review counts one more repetition; the first two passes are
/// followed by 1 and 6 days, the later ones by the scaled interval.
pub proof fn lemma_passed_review_advances(quality: u8, repetitions: i64)
    requires
        quality >= 3,
        repetitions < i64::MAX,
    ensures
        plan_for(quality, repetitions).repetitions == repetitions + 1,
        repetitions == 0 ==> plan_for(quality, repetitions).interval == NextInterval::Days(1),
        repetitions == 1 ==> plan_for(quality, repetitions).interval == NextInterval::Days(6),
        repetitions >= 2 ==> plan_for(quality, repetitions).interval == NextInterval::ScaledByEase,
{
}

/// Qualities above the 0-5 scale count as 5.
pub proof fn lemma_quality_above_five_counts_as_five(quality: u8, repetitions: i64)
    requires
        quality > 5,
    ensures
        plan_for(quality, repetitions) == plan_for(5, repetitions),
{
}

} // verus!
