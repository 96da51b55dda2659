use sword_swing::swing_animation::{SwingAnimation, SwingPhase, SwingProfile, SwingType};
use sword_swing::sword::{step, Sword, SwordNode};
use sword_swing::Vec2;

fn quick_profile() -> SwingProfile {
    let cp = [Vec2::new(0, 0), Vec2::new(0, 0), Vec2::new(0, 0), Vec2::new(0, 0)];
    SwingProfile::new(100_000, 400_000, 200_000, Vec2::new(0, 0), 0, cp, 0).unwrap()
}

#[test]
fn sword_default_offset() {
    assert_eq!(Sword::default().offset, Vec2::new(20_000, -10_000));
}

#[test]
fn node_default() {
    let n = SwordNode::default();
    assert_eq!(n.anchor_position, Vec2::new(0, 0));
    assert_eq!(n.locked_position, None);
    assert_eq!(n.offset, Vec2::new(0, 0));
}

#[test]
fn idle_node_follows_target_with_offset() {
    let mut n = SwordNode::default();
    n.offset = Vec2::new(5, -5);
    n.reconcile(false, Some(Vec2::new(100, 100)));
    assert_eq!(n.anchor_position, Vec2::new(95, 105));
    assert_eq!(n.locked_position, None);
}

#[test]
fn missing_target_holds_anchor() {
    let mut n = SwordNode::default();
    n.reconcile(false, Some(Vec2::new(40, 30)));
    n.reconcile(false, None);
    assert_eq!(n.anchor_position, Vec2::new(40, 30));
}

#[test]
fn lock_without_target_keeps_anchor() {
    let mut n = SwordNode::default();
    n.offset = Vec2::new(7, 3);
    n.reconcile(false, Some(Vec2::new(10, 10)));
    n.reconcile(true, None);
    assert_eq!(n.locked_position, Some(Vec2::new(10, 10)));
    assert_eq!(n.anchor_position, Vec2::new(3, 7));
}

#[test]
fn locked_node_ignores_target() {
    let mut n = SwordNode::default();
    n.reconcile(true, Some(Vec2::new(100, 0)));
    for t in [Vec2::new(150, 20), Vec2::new(-3, 9), Vec2::new(200, 50)] {
        n.reconcile(true, Some(t));
        assert_eq!(n.anchor_position, Vec2::new(100, 0));
    }
    n.reconcile(true, None);
    assert_eq!(n.anchor_position, Vec2::new(100, 0));
}

#[test]
fn release_folds_movement_into_offset() {
    let mut n = SwordNode::default();
    n.reconcile(true, Some(Vec2::new(100, 0)));
    n.reconcile(true, Some(Vec2::new(160, 30)));
    n.reconcile(false, Some(Vec2::new(200, 50)));
    assert_eq!(n.locked_position, None);
    assert_eq!(n.offset, Vec2::new(100, 50));
    assert_eq!(n.anchor_position, Vec2::new(100, 0));
    n.reconcile(false, Some(Vec2::new(210, 40)));
    assert_eq!(n.anchor_position, Vec2::new(110, -10));
}

#[test]
fn release_on_frozen_point_lands_on_target() {
    let mut n = SwordNode::default();
    n.offset = Vec2::new(10, 10);
    n.reconcile(false, Some(Vec2::new(50, 50)));
    n.reconcile(true, Some(Vec2::new(50, 50)));
    n.reconcile(true, Some(Vec2::new(-500, 70)));
    n.reconcile(false, Some(Vec2::new(40, 40)));
    assert_eq!(n.anchor_position, Vec2::new(40, 40));
    assert_eq!(n.offset, Vec2::new(0, 0));
}

#[test]
fn swing_with_moving_target() {
    let p = quick_profile();
    let mut anim = SwingAnimation::new(p);
    let mut node = SwordNode::default();
    step(&mut anim, &mut node, 0, Some(Vec2::new(100_000, 0)), None);
    assert_eq!(node.anchor_position, Vec2::new(100_000, 0));

    step(&mut anim, &mut node, 0, Some(Vec2::new(100_000, 0)), Some(p));
    assert_eq!(anim.phase, SwingPhase::Startup);
    assert_eq!(node.locked_position, Some(Vec2::new(100_000, 0)));

    let mut target = Vec2::new(100_000, 0);
    for _ in 0..13 {
        target = Vec2::new(target.x + 7_000, target.y + 3_500);
        step(&mut anim, &mut node, 50_000, Some(target), None);
        assert!(anim.is_swinging());
        assert_eq!(node.anchor_position, Vec2::new(100_000, 0));
    }
    let end = Vec2::new(200_000, 50_000);
    step(&mut anim, &mut node, 50_000, Some(end), None);
    assert_eq!(anim.phase, SwingPhase::Idle);
    assert_eq!(node.locked_position, None);
    assert_eq!(node.anchor_position, Vec2::new(100_000, 0));
    assert_eq!(node.offset, Vec2::new(100_000, 50_000));

    step(&mut anim, &mut node, 50_000, Some(Vec2::new(230_000, 40_000)), None);
    assert_eq!(node.anchor_position, Vec2::new(130_000, -10_000));
}

#[test]
fn retrigger_through_step_is_ignored() {
    let p = quick_profile();
    let mut anim = SwingAnimation::new(p);
    let mut node = SwordNode::default();
    step(&mut anim, &mut node, 0, Some(Vec2::new(0, 0)), Some(p));
    step(&mut anim, &mut node, 120_000, Some(Vec2::new(0, 0)), None);
    assert_eq!(anim.phase, SwingPhase::Swing);
    let elapsed = anim.phase_elapsed;
    step(&mut anim, &mut node, 0, Some(Vec2::new(9, 9)), Some(p));
    assert_eq!(anim.phase, SwingPhase::Swing);
    assert_eq!(anim.phase_elapsed, elapsed);
}

#[test]
fn world_pose_adds_anchor() {
    let p = SwingType::Vertical.profile();
    let mut anim = SwingAnimation::new(p);
    let mut node = SwordNode::default();
    step(&mut anim, &mut node, 0, Some(Vec2::new(1_000, 2_000)), Some(p));
    let r = step(&mut anim, &mut node, 100_000, Some(Vec2::new(5, 5)), None);
    assert_eq!(r.position, Vec2::new(1_000 - 20_000, 2_000 + 60_000));
    assert_eq!(r.rotation, -628_319);
}

#[test]
fn reconcile_restores_node_invariant() {
    let mut n = SwordNode {
        anchor_position: Vec2::new(1, 1),
        locked_position: Some(Vec2::new(50, 60)),
        offset: Vec2::new(5, 10),
    };
    n.reconcile(true, None);
    assert_eq!(n.anchor_position, Vec2::new(45, 50));
    n.reconcile(true, None);
    assert_eq!(n.anchor_position, Vec2::new(45, 50));
}
