use sword_swing::swing_animation::{
    Pose, SwingAnimation, SwingPhase, SwingProfile, SwingType, POSE_LIMIT,
};
use sword_swing::Vec2;

fn points() -> [Vec2; 4] {
    [
        Vec2::new(0, 0),
        Vec2::new(0, -200_000),
        Vec2::new(200_000, -200_000),
        Vec2::new(200_000, 0),
    ]
}

fn profile(startup: u64, swing: u64, recovery: u64) -> SwingProfile {
    SwingProfile::new(
        startup,
        swing,
        recovery,
        Vec2::new(-20_000, 60_000),
        -628_319,
        points(),
        6_597_345,
    )
    .unwrap()
}

fn zero_pose() -> Pose {
    Pose { position: Vec2::new(0, 0), rotation: 0 }
}

fn started(p: SwingProfile) -> SwingAnimation {
    let mut a = SwingAnimation::new(p);
    assert!(a.start_swing(p));
    a
}

#[test]
fn profile_rejects_zero_durations() {
    let o = Vec2::new(0, 0);
    assert!(SwingProfile::new(0, 1, 1, o, 0, points(), 0).is_none());
    assert!(SwingProfile::new(1, 0, 1, o, 0, points(), 0).is_none());
    assert!(SwingProfile::new(1, 1, 0, o, 0, points(), 0).is_none());
    assert!(SwingProfile::new(1, 1, 1, o, 0, points(), 0).is_some());
}

#[test]
fn profile_rejects_values_beyond_limit() {
    let o = Vec2::new(0, 0);
    let far = Vec2::new(POSE_LIMIT + 1, 0);
    assert!(SwingProfile::new(1, 1, 1, far, 0, points(), 0).is_none());
    assert!(SwingProfile::new(1, 1, 1, o, -POSE_LIMIT - 1, points(), 0).is_none());
    assert!(SwingProfile::new(1, 1, 1, o, 0, points(), POSE_LIMIT + 1).is_none());
    let mut cp = points();
    cp[2] = Vec2::new(0, -POSE_LIMIT - 1);
    assert!(SwingProfile::new(1, 1, 1, o, 0, cp, 0).is_none());
    cp[2] = Vec2::new(0, -POSE_LIMIT);
    assert!(SwingProfile::new(1, 1, 1, o, 0, cp, 0).is_some());
}

#[test]
fn vertical_profile() {
    let p = SwingType::Vertical.profile();
    assert!(p.is_valid());
    assert_eq!(p.startup_duration, 100_000);
    assert_eq!(p.swing_duration, 400_000);
    assert_eq!(p.recovery_duration, 200_000);
    assert_eq!(p.start_offset, Vec2::new(-20_000, 60_000));
    assert_eq!(p.swing_control_points, points());
}

#[test]
fn new_controller_is_idle() {
    let a = SwingAnimation::new(profile(1, 1, 1));
    assert_eq!(a.phase, SwingPhase::Idle);
    assert_eq!(a.phase_elapsed, 0);
    assert_eq!(a.pose, zero_pose());
    assert!(!a.is_swinging());
}

#[test]
fn idle_tick_changes_nothing() {
    let mut a = SwingAnimation::new(profile(1, 1, 1));
    assert_eq!(a.tick(1_000), zero_pose());
    assert_eq!(a.phase, SwingPhase::Idle);
    assert_eq!(a.phase_elapsed, 0);
}

#[test]
fn phase_schedule_in_fixed_steps() {
    let mut a = started(profile(100_000, 400_000, 200_000));
    assert_eq!(a.phase, SwingPhase::Startup);
    let mut phases = Vec::new();
    for _ in 0..16 {
        a.tick(50_000);
        phases.push(a.phase);
    }
    let mut expected = vec![SwingPhase::Startup];
    expected.extend([SwingPhase::Swing; 8]);
    expected.extend([SwingPhase::Recovery; 4]);
    expected.extend([SwingPhase::Idle; 3]);
    assert_eq!(phases, expected);
    assert_eq!(a.pose, zero_pose());
}

#[test]
fn zero_steps_are_idempotent() {
    let mut a = started(profile(100_000, 400_000, 200_000));
    a.tick(30_000);
    let before = a.pose;
    for _ in 0..5 {
        assert_eq!(a.tick(0), before);
    }
    assert_eq!(a.phase, SwingPhase::Startup);
    assert_eq!(a.phase_elapsed, 30_000);
}

#[test]
fn startup_pose_midway_and_at_end() {
    let mut a = started(SwingType::Vertical.profile());
    let mid = a.tick(50_000);
    assert_eq!(mid, Pose { position: Vec2::new(-10_000, 30_000), rotation: -314_160 });
    let end = a.tick(50_000);
    assert_eq!(end, Pose { position: Vec2::new(-20_000, 60_000), rotation: -628_319 });
    assert_eq!(a.phase, SwingPhase::Swing);
    assert_eq!(a.phase_elapsed, 0);
}

#[test]
fn swing_pose_midway_and_end_pose() {
    let mut a = started(SwingType::Vertical.profile());
    a.tick(100_000);
    let mid = a.tick(200_000);
    assert_eq!(mid, Pose { position: Vec2::new(80_000, -90_000), rotation: 2_670_353 });
    let end = a.tick(200_000);
    let expected = Pose { position: Vec2::new(180_000, 60_000), rotation: 5_969_026 };
    assert_eq!(end, expected);
    assert_eq!(a.swing_end_pose, expected);
    assert_eq!(a.phase, SwingPhase::Recovery);
}

#[test]
fn recovery_returns_to_rest() {
    let mut a = started(SwingType::Vertical.profile());
    a.tick(100_000);
    a.tick(400_000);
    let mid = a.tick(100_000);
    assert_eq!(mid, Pose { position: Vec2::new(90_000, 30_000), rotation: 2_984_513 });
    let end = a.tick(100_000);
    assert_eq!(end, zero_pose());
    assert_eq!(a.phase, SwingPhase::Idle);
    assert_eq!(a.phase_elapsed, 0);
}

#[test]
fn large_step_advances_one_phase() {
    let mut a = started(profile(100_000, 400_000, 200_000));
    a.tick(10_000_000);
    assert_eq!(a.phase, SwingPhase::Swing);
    a.tick(u64::MAX);
    assert_eq!(a.phase, SwingPhase::Recovery);
    a.tick(u64::MAX);
    assert_eq!(a.phase, SwingPhase::Idle);
    assert_eq!(a.pose, zero_pose());
}

#[test]
fn full_length_ends_at_rest() {
    let mut a = started(profile(100_000, 400_000, 200_000));
    for dt in [100_000u64, 250_000, 150_000, 200_000] {
        a.tick(dt);
    }
    assert_eq!(a.phase, SwingPhase::Idle);
    assert_eq!(a.pose, zero_pose());
}

#[test]
fn step_size_without_overshoot_gives_same_phase() {
    let p = profile(100_000, 400_000, 200_000);
    let mut coarse = started(p);
    coarse.tick(100_000);
    coarse.tick(300_000);
    let mut fine = started(p);
    for _ in 0..40 {
        fine.tick(10_000);
    }
    assert_eq!(coarse.phase, SwingPhase::Swing);
    assert_eq!(fine.phase, coarse.phase);
    assert_eq!(fine.phase_elapsed, coarse.phase_elapsed);
}

#[test]
fn one_large_step_differs_from_many_small_ones() {
    let p = profile(100_000, 400_000, 200_000);
    let mut coarse = started(p);
    coarse.tick(700_000);
    let mut fine = started(p);
    for _ in 0..14 {
        fine.tick(50_000);
    }
    assert_eq!(coarse.phase, SwingPhase::Swing);
    assert_eq!(fine.phase, SwingPhase::Idle);
}

#[test]
fn retrigger_during_swing_is_ignored() {
    let p = profile(100_000, 400_000, 200_000);
    let mut a = started(p);
    a.tick(100_000);
    a.tick(120_000);
    let before = a;
    assert!(!a.start_swing(profile(5, 5, 5)));
    assert_eq!(a.phase, before.phase);
    assert_eq!(a.phase_elapsed, before.phase_elapsed);
    assert_eq!(a.pose, before.pose);
    assert_eq!(a.profile.swing_duration, 400_000);
}

#[test]
fn trigger_after_rest_starts_again() {
    let mut a = started(profile(1, 1, 1));
    a.tick(1);
    a.tick(1);
    a.tick(1);
    assert_eq!(a.phase, SwingPhase::Idle);
    assert!(a.start_swing(profile(2, 2, 2)));
    assert_eq!(a.phase, SwingPhase::Startup);
    assert_eq!(a.profile.startup_duration, 2);
}
