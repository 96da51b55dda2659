//! The sword's anchor node: it follows a target (the pointer) with an offset, stands
//! still while a swing plays out, and afterwards resumes following from where it
//! stood, folding what the target moved during the swing into its offset.
use crate::curve::Vec2;
use crate::swing_animation::{Pose, SwingAnimation, SwingPhase, SwingProfile};
use vstd::prelude::*;

verus! {

/// The sword itself: where its sprite sits relative to its node.
#[derive(Clone, Copy, Debug, PartialEq, Eq, Structural)]
pub struct Sword {
    pub offset: Vec2,
}

impl Default for Sword {
    fn default() -> (r: Sword)
        ensures
            r == (Sword { offset: Vec2 { x: 20_000, y: -10_000i64 } }),
    {
        Sword { offset: Vec2 { x: 20_000, y: -10_000 } }
    }
}

/// The node that carries the sword: its position, the target it locked while a
/// swing is in progress, and the offset it keeps from the target otherwise.
#[derive(Clone, Copy, Debug, PartialEq, Eq)]
pub struct SwordNode {
    pub anchor_position: Vec2,
    pub locked_position: Option<Vec2>,
    pub offset: Vec2,
}

impl Default for SwordNode {
    fn default() -> (r: SwordNode)
        ensures
            r == (SwordNode {
                anchor_position: Vec2 { x: 0, y: 0 },
                locked_position: None,
                offset: Vec2 { x: 0, y: 0 },
            }),
    {
        SwordNode {
            anchor_position: Vec2 { x: 0, y: 0 },
            locked_position: None,
            offset: Vec2 { x: 0, y: 0 },
        }
    }
}

impl SwordNode {
    /// The node's invariant: while locked it stands at the lock minus its offset.
    pub open spec fn wf(self) -> bool {
        match self.locked_position {
            Some(l) => self.anchor_position == l.minus(self.offset),
            None => true,
        }
    }

    /// The node after one reconciliation with the swing state and the target.
    ///
    /// When a swing begins the node locks the target; if no target is available it
    /// locks the point it already follows, so it stays where it is. While locked
    /// it stands at the lock minus its offset. When the swing ends, the offset
    /// becomes the target minus the node's position, so the node does not jump, and
    /// the lock is released. Unlocked, the node follows the target minus the offset,
    /// and holds still while no target is available.
    pub open spec fn reconciled(self, swinging: bool, target: Option<Vec2>) -> SwordNode {
        let locked = if swinging {
            match self.locked_position {
                Some(l) => Some(l),
                None => match target {
                    Some(t) => Some(t),
                    None => Some(self.anchor_position.plus(self.offset)),
                },
            }
        } else {
            None
        };
        let offset = if !swinging && self.locked_position is Some {
            match target {
                Some(t) => t.minus(self.anchor_position),
                None => self.offset,
            }
        } else {
            self.offset
        };
        let anchor = match locked {
            Some(l) => l.minus(offset),
            None => match target {
                Some(t) => t.minus(offset),
                None => self.anchor_position,
            },
        };
        SwordNode { anchor_position: anchor, locked_position: locked, offset }
    }

    /// The node after reconciling with a swing in progress at each of `targets`, in
    /// order.
    pub open spec fn held(self, targets: Seq<Option<Vec2>>) -> SwordNode
        decreases targets.len(),
    {
        if targets.len() == 0 {
            self
        } else {
            self.held(targets.drop_last()).reconciled(true, targets.last())
        }
    }

    /// Brings the node up to date with the swing state and the target of this step.
    pub fn reconcile(&mut self, swinging: bool, target: Option<Vec2>)
        ensures
            *final(self) == old(self).reconciled(swinging, target),
            final(self).locked_position is Some <==> swinging,
            final(self).wf(),
            old(self).wf() && target is None ==> final(self).anchor_position
                == old(self).anchor_position,
    {
        proof {
            crate::curve::lemma_plus_minus(self.anchor_position, self.offset);
        }
        if swinging {
            if self.locked_position.is_none() {
                let lock = match target {
                    Some(t) => t,
                    None => self.anchor_position.wrapping_add(self.offset),
                };
                self.locked_position = Some(lock);
            }
        } else {
            if self.locked_position.is_some() {
                if let Some(t) = target {
                    self.offset = t.wrapping_sub(self.anchor_position);
                }
            }
            self.locked_position = None;
        }
        match self.locked_position {
            Some(l) => {
                self.anchor_position = l.wrapping_sub(self.offset);
            },
            None => {
                if let Some(t) = target {
                    self.anchor_position = t.wrapping_sub(self.offset);
                }
            },
        }
    }
}

/// While a swing is in progress the node keeps its lock and offset and stands at
/// the lock minus the offset, whatever the target does.
pub proof fn lemma_held_stays(node: SwordNode, targets: Seq<Option<Vec2>>)
    requires
        node.locked_position is Some,
        node.anchor_position == node.locked_position->0.minus(node.offset),
    ensures
        node.held(targets) == node,
    decreases targets.len(),
{
    if targets.len() > 0 {
        lemma_held_stays(node, targets.drop_last());
    }
}

/// A swing that begins while no target is available leaves the node where it stood.
pub proof fn lemma_lock_without_target_holds(node: SwordNode)
    requires
        node.locked_position is None,
    ensures
        node.reconciled(true, None).anchor_position == node.anchor_position,
        node.reconciled(true, None).offset == node.offset,
{
    crate::curve::lemma_plus_minus(node.anchor_position, node.offset);
}

/// A swing that begins with the target at `p0` and ends with it at `p1`, whatever
/// path the target took in between: the node stands still at `p0` minus its former
/// offset for the whole swing, is still there on the step the swing ends, and from
/// then on follows the target with the offset `p1` minus that position, so a target
/// that stays at `p1` keeps it exactly there.
pub proof fn lemma_swing_keeps_anchor(
    node: SwordNode,
    p0: Vec2,
    during: Seq<Option<Vec2>>,
    p1: Vec2,
)
    requires
        node.locked_position is None,
    ensures
        ({
            let frozen = p0.minus(node.offset);
            let locked = node.reconciled(true, Some(p0));
            let mid = locked.held(during);
            let after = mid.reconciled(false, Some(p1));
            &&& locked.anchor_position == frozen
            &&& mid.anchor_position == frozen
            &&& after.anchor_position == frozen
            &&& after.locked_position is None
            &&& after.offset == p1.minus(frozen)
            &&& after.reconciled(false, Some(p1)) == after
        }),
{
    let frozen = p0.minus(node.offset);
    let locked = node.reconciled(true, Some(p0));
    lemma_held_stays(locked, during);
    crate::curve::lemma_minus_minus(p1, frozen);
}

/// The node is back on the target `p1` after a swing exactly when `p1` is where the
/// node stood during the swing: the lock `p0` minus the offset in effect before it.
pub proof fn lemma_swing_ends_on_target(
    node: SwordNode,
    p0: Vec2,
    during: Seq<Option<Vec2>>,
    p1: Vec2,
)
    requires
        node.locked_position is None,
    ensures
        (node.reconciled(true, Some(p0)).held(during).reconciled(false, Some(p1)).anchor_position
            == p1) <==> p1 == p0.minus(node.offset),
{
    lemma_swing_keeps_anchor(node, p0, during, p1);
}

/// The node and the swing controller agree: the node is locked exactly while a swing
/// is in progress.
pub open spec fn paired(anim: SwingAnimation, node: SwordNode) -> bool {
    (node.locked_position is Some) == (anim.phase != SwingPhase::Idle)
}

/// The controller after a request to begin a swing with `trigger`, if there is one.
pub open spec fn triggered(anim: SwingAnimation, trigger: Option<SwingProfile>) -> SwingAnimation {
    match trigger {
        Some(profile) => if anim.phase == SwingPhase::Idle {
            SwingAnimation { phase: SwingPhase::Startup, phase_elapsed: 0, profile, ..anim }
        } else {
            anim
        },
        None => anim,
    }
}

/// The sword's pose in the world: its pose relative to the node, moved to the node.
pub open spec fn world_pose(anim: SwingAnimation, node: SwordNode) -> Pose {
    Pose {
        position: node.anchor_position.plus(anim.pose.position),
        rotation: anim.pose.rotation,
    }
}

/// One frame: a request to begin a swing, if any, is handed to the controller; the
/// controller advances by `dt`; the node is reconciled with the target; and the
/// sword's pose in the world is returned.
pub fn step(
    anim: &mut SwingAnimation,
    node: &mut SwordNode,
    dt: u64,
    target: Option<Vec2>,
    trigger: Option<SwingProfile>,
) -> (r: Pose)
    requires
        old(anim).wf(),
        match trigger {
            Some(p) => p.valid(),
            None => true,
        },
    ensures
        final(anim).wf(),
        *final(anim) == triggered(*old(anim), trigger).ticked(dt),
        *final(node) == old(node).reconciled(final(anim).phase != SwingPhase::Idle, target),
        paired(*final(anim), *final(node)),
        final(node).wf(),
        r == world_pose(*final(anim), *final(node)),
{
    if let Some(profile) = trigger {
        anim.start_swing(profile);
    }
    let local = anim.tick(dt);
    let swinging = anim.is_swinging();
    node.reconcile(swinging, target);
    Pose { position: node.anchor_position.wrapping_add(local.position), rotation: local.rotation }
}

} // verus!
