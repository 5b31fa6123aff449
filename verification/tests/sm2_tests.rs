use word_trainer::sm2::{plan_repetition, NextInterval, RepetitionPlan};

#[test]
fn failed_review_restarts_the_word() {
    assert_eq!(
        plan_repetition(2, 5),
        RepetitionPlan { repetitions: 0, interval: NextInterval::Days(1) }
    );
    assert_eq!(
        plan_repetition(0, 10),
        RepetitionPlan { repetitions: 0, interval: NextInterval::Days(1) }
    );
}

#[test]
fn first_success_is_due_in_a_day() {
    assert_eq!(
        plan_repetition(4, 0),
        RepetitionPlan { repetitions: 1, interval: NextInterval::Days(1) }
    );
}

#[test]
fn second_success_is_due_in_six_days() {
    assert_eq!(
        plan_repetition(4, 1),
        RepetitionPlan { repetitions: 2, interval: NextInterval::Days(6) }
    );
}

#[test]
fn later_successes_scale_by_ease() {
    assert_eq!(
        plan_repetition(4, 2),
        RepetitionPlan { repetitions: 3, interval: NextInterval::ScaledByEase }
    );
    assert_eq!(
        plan_repetition(5, 3),
        RepetitionPlan { repetitions: 4, interval: NextInterval::ScaledByEase }
    );
}

#[test]
fn qualities_above_five_count_as_passes() {
    assert_eq!(plan_repetition(9, 0).repetitions, 1);
    assert_eq!(plan_repetition(3, 0).repetitions, 1);
}
