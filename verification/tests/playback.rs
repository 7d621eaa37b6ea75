use spark_gap::animator::{AnimationClip, AnimationRepeat, PlayingAnimation, WeightedAnimation};
use spark_gap::transform::{FULL_WEIGHT, ONE};

/// Ten ticks in a second, as a rate per microsecond.
const TEN_PER_SECOND: i64 = 10_000;
const HALF_SECOND: i64 = 500_000;

fn playing(repeat: AnimationRepeat) -> PlayingAnimation {
    PlayingAnimation {
        animation_clip: AnimationClip::new(0, 10 * ONE, repeat),
        current_tick: -1,
        ticks_per_second: TEN_PER_SECOND,
        repeat_completions: 0,
    }
}

#[test]
fn forever_resets_to_the_start_when_the_end_is_passed() {
    let mut p = playing(AnimationRepeat::Forever);
    let mut seen = Vec::new();
    for _ in 0..6 {
        p.update(HALF_SECOND);
        seen.push(p.current_tick);
    }
    assert_eq!(seen, vec![5 * ONE, 10 * ONE, 0, 5 * ONE, 10 * ONE, 0]);
    // Each reset was counted as a completion.
    assert_eq!(p.repeat_completions, 2);
}

#[test]
fn forever_resets_even_where_the_clip_ends_at_the_last_tick() {
    let mut p = PlayingAnimation {
        animation_clip: AnimationClip::new(7, i64::MAX, AnimationRepeat::Forever),
        current_tick: i64::MAX - 1,
        ticks_per_second: 2,
        repeat_completions: u32::MAX - 1,
    };
    p.update(1);
    assert_eq!(p.current_tick, 7);
    assert_eq!(p.repeat_completions, u32::MAX);
    p.update(i64::MAX);
    assert_eq!(p.current_tick, 7);
    // The counter holds no more.
    assert_eq!(p.repeat_completions, u32::MAX);
}

#[test]
fn forever_reset_loses_the_overshoot() {
    let mut p = playing(AnimationRepeat::Forever);
    p.update(HALF_SECOND);
    p.update(2_700_000);
    assert_eq!(p.current_tick, 0);
}

#[test]
fn once_freezes_at_the_end() {
    let mut p = playing(AnimationRepeat::Once);
    for _ in 0..2 {
        p.update(HALF_SECOND);
    }
    assert_eq!(p.current_tick, 10 * ONE);
    assert_eq!(p.repeat_completions, 0);
    for _ in 0..3 {
        p.update(HALF_SECOND);
        assert_eq!(p.current_tick, 10 * ONE);
    }
    assert_eq!(p.repeat_completions, 3);
}

#[test]
fn count_runs_on_past_the_end() {
    let mut p = playing(AnimationRepeat::Count(2));
    for _ in 0..3 {
        p.update(HALF_SECOND);
    }
    assert_eq!(p.current_tick, 15 * ONE);
    // The update that passed the end was counted; the count is not enforced.
    assert_eq!(p.repeat_completions, 1);
    p.update(HALF_SECOND);
    assert_eq!(p.current_tick, 20 * ONE);
    assert_eq!(p.repeat_completions, 2);
}

#[test]
fn unstarted_playhead_snaps_to_the_start_of_its_clip() {
    let mut p = PlayingAnimation {
        animation_clip: AnimationClip::new(3 * ONE, 8 * ONE, AnimationRepeat::Once),
        current_tick: -1,
        ticks_per_second: TEN_PER_SECOND,
        repeat_completions: 0,
    };
    p.update(100_000);
    assert_eq!(p.current_tick, 4 * ONE);
    p.update(0);
    assert_eq!(p.current_tick, 4 * ONE);
}

#[test]
fn playhead_saturates_instead_of_overflowing() {
    let mut p = PlayingAnimation {
        animation_clip: AnimationClip::new(0, i64::MAX, AnimationRepeat::Count(1)),
        current_tick: i64::MAX - 5,
        ticks_per_second: i64::MAX,
        repeat_completions: 0,
    };
    p.update(i64::MAX);
    assert_eq!(p.current_tick, i64::MAX);
}

#[test]
fn clip_and_weighted_entry_keep_what_they_are_given() {
    let clip = AnimationClip::new(1, 2, AnimationRepeat::Count(3));
    assert_eq!(clip.start_tick, 1);
    assert_eq!(clip.end_tick, 2);
    assert_eq!(clip.repeat, AnimationRepeat::Count(3));
    let w = WeightedAnimation::new(1, 2, 3, 4, 5);
    assert_eq!((w.weight, w.start_tick, w.end_tick, w.offset, w.optional_start), (1, 2, 3, 4, 5));
}

#[test]
fn looping_entry_wraps_round_its_clip() {
    // 3.5 seconds at ten ticks a second are 35 ticks; a clip of 10 ticks leaves 5.
    let w = WeightedAnimation::new(FULL_WEIGHT, 20 * ONE, 30 * ONE, 0, 0);
    assert_eq!(w.target(TEN_PER_SECOND, 3_500_000), Some(25 * ONE));
    let shifted = WeightedAnimation::new(FULL_WEIGHT, 20 * ONE, 30 * ONE, 2 * ONE, 0);
    assert_eq!(shifted.target(TEN_PER_SECOND, 3_500_000), Some(27 * ONE));
}

#[test]
fn started_entry_plays_once_and_holds_its_end() {
    let w = WeightedAnimation::new(FULL_WEIGHT, 20 * ONE, 30 * ONE, 0, 1_000_000);
    assert_eq!(w.target(TEN_PER_SECOND, 1_400_000), Some(24 * ONE));
    assert_eq!(w.target(TEN_PER_SECOND, 2_000_000), Some(30 * ONE));
    assert_eq!(w.target(TEN_PER_SECOND, 9_000_000), Some(30 * ONE));
}

#[test]
fn tick_outside_the_clip_has_no_target() {
    // A negative phase shift takes a looping entry before its clip.
    let before = WeightedAnimation::new(FULL_WEIGHT, 20 * ONE, 30 * ONE, -3 * ONE, 0);
    assert_eq!(before.target(TEN_PER_SECOND, 0), None);
    // Within a hundredth of a tick of the clip the tick is still taken.
    let near = WeightedAnimation::new(FULL_WEIGHT, 20 * ONE, 30 * ONE, -(ONE / 100), 0);
    assert_eq!(near.target(TEN_PER_SECOND, 0), Some(20 * ONE - ONE / 100));
    let far = WeightedAnimation::new(FULL_WEIGHT, 20 * ONE, 30 * ONE, -(ONE / 100) - 1, 0);
    assert_eq!(far.target(TEN_PER_SECOND, 0), None);
    // An entry that starts in the future stands before its clip.
    let future = WeightedAnimation::new(FULL_WEIGHT, 20 * ONE, 30 * ONE, 0, 5_000_000);
    assert_eq!(future.target(TEN_PER_SECOND, 1_000_000), None);
    // A looping clip without length cannot be wrapped round.
    let empty = WeightedAnimation::new(FULL_WEIGHT, 20 * ONE, 20 * ONE, 0, 0);
    assert_eq!(empty.target(TEN_PER_SECOND, 1_000_000), None);
}

#[test]
fn extreme_times_do_not_overflow() {
    let w = WeightedAnimation::new(FULL_WEIGHT, i64::MIN, i64::MAX, i64::MAX, 0);
    assert!(w.target(i64::MAX, i64::MAX).is_some());
    let held = WeightedAnimation::new(FULL_WEIGHT, 0, 10, 0, i64::MAX);
    assert_eq!(held.target(i64::MAX, i64::MIN), None);
    let held = WeightedAnimation::new(FULL_WEIGHT, 0, 10, i64::MIN, 1);
    assert_eq!(held.target(i64::MIN, i64::MAX), None);
}
