//! The swing state machine: a swing runs through Startup, Swing and Recovery, each
//! for a fixed duration, and produces a pose relative to the swing's anchor on
//! every time step.
//!
//! Durations and time steps are in microseconds, positions in thousandths of a world
//! unit and rotations in microradians.
use crate::curve::{
    cubic_bezier, cubic_bezier_spec, lemma_cubic_bezier_range, lemma_cubic_in_range_on_curve, lemma_lerp_range,
    lemma_smooth_step_range, lerp, lerp_spec, smooth_step, smooth_step_spec, Vec2, UNIT,
};
use vstd::prelude::*;

verus! {

/// Largest magnitude of a coordinate or rotation in a profile. It leaves room for a
/// profile's offsets to be added together without leaving the range of `i64`.
pub const POSE_LIMIT: i64 = 1_152_921_504_606_846_976;

/// Position and rotation of the animated object relative to its anchor.
#[derive(Clone, Copy, Debug, PartialEq, Eq, Structural)]
pub struct Pose {
    pub position: Vec2,
    pub rotation: i64,
}

/// The shape and timing of one kind of swing.
#[derive(Clone, Copy, Debug)]
pub struct SwingProfile {
    pub startup_duration: u64,
    pub swing_duration: u64,
    pub recovery_duration: u64,
    /// Pose reached at the end of Startup, relative to the anchor.
    pub start_offset: Vec2,
    pub start_rotation: i64,
    /// Cubic Bézier control points of the Swing phase, relative to `start_offset`.
    pub swing_control_points: [Vec2; 4],
    /// Rotation added to `start_rotation` over the Swing phase.
    pub swing_rotation_delta: i64,
}

/// The kinds of swing the library knows.
#[derive(Clone, Copy, Debug, PartialEq, Eq, Structural)]
pub enum SwingType {
    Vertical,
}

/// The phase a swing is in.
#[derive(Clone, Copy, Debug, PartialEq, Eq, Structural)]
pub enum SwingPhase {
    Idle,
    Startup,
    Swing,
    Recovery,
}

/// The swing controller of one animated object.
#[derive(Clone, Copy, Debug)]
pub struct SwingAnimation {
    pub phase: SwingPhase,
    /// Time spent in the current phase.
    pub phase_elapsed: u64,
    pub profile: SwingProfile,
    /// The pose in which the Swing phase ended; Recovery starts from it.
    pub swing_end_pose: Pose,
    /// The pose produced by the latest time step.
    pub pose: Pose,
}

pub open spec fn within_limit(v: int) -> bool {
    -POSE_LIMIT <= v <= POSE_LIMIT
}

pub open spec fn vec_within_limit(v: Vec2) -> bool {
    within_limit(v.x as int) && within_limit(v.y as int)
}

pub open spec fn zero_pose() -> Pose {
    Pose { position: Vec2 { x: 0, y: 0 }, rotation: 0 }
}

impl SwingPhase {
    /// The phase that follows this one; Idle follows Recovery.
    pub open spec fn next(self) -> SwingPhase {
        match self {
            SwingPhase::Idle => SwingPhase::Startup,
            SwingPhase::Startup => SwingPhase::Swing,
            SwingPhase::Swing => SwingPhase::Recovery,
            SwingPhase::Recovery => SwingPhase::Idle,
        }
    }
}

impl SwingProfile {
    /// Every duration is positive and every coordinate and rotation is within
    /// `POSE_LIMIT`.
    pub open spec fn valid(self) -> bool {
        &&& self.startup_duration > 0
        &&& self.swing_duration > 0
        &&& self.recovery_duration > 0
        &&& vec_within_limit(self.start_offset)
        &&& within_limit(self.start_rotation as int)
        &&& forall|i: int| 0 <= i < 4 ==> vec_within_limit(#[trigger] self.swing_control_points@[i])
        &&& within_limit(self.swing_rotation_delta as int)
    }

    /// The duration of a phase; Idle has none.
    pub open spec fn duration_of(self, phase: SwingPhase) -> nat {
        match phase {
            SwingPhase::Idle => 0,
            SwingPhase::Startup => self.startup_duration as nat,
            SwingPhase::Swing => self.swing_duration as nat,
            SwingPhase::Recovery => self.recovery_duration as nat,
        }
    }

    /// The length of a whole swing.
    pub open spec fn total_duration(self) -> nat {
        (self.startup_duration + self.swing_duration + self.recovery_duration) as nat
    }

    /// The pose of `phase` at eased progress `u`, given the pose in which Swing ended.
    pub open spec fn pose_at(self, phase: SwingPhase, end: Pose, u: int) -> Pose {
        let cp = self.swing_control_points@;
        match phase {
            SwingPhase::Idle => zero_pose(),
            SwingPhase::Startup => Pose {
                position: Vec2 {
                    x: lerp_spec(0, self.start_offset.x as int, u) as i64,
                    y: lerp_spec(0, self.start_offset.y as int, u) as i64,
                },
                rotation: lerp_spec(0, self.start_rotation as int, u) as i64,
            },
            SwingPhase::Swing => Pose {
                position: Vec2 {
                    x: (self.start_offset.x + cubic_bezier_spec(
                        cp[0].x as int,
                        cp[1].x as int,
                        cp[2].x as int,
                        cp[3].x as int,
                        u,
                    )) as i64,
                    y: (self.start_offset.y + cubic_bezier_spec(
                        cp[0].y as int,
                        cp[1].y as int,
                        cp[2].y as int,
                        cp[3].y as int,
                        u,
                    )) as i64,
                },
                rotation: (self.start_rotation + lerp_spec(0, self.swing_rotation_delta as int, u))
                    as i64,
            },
            SwingPhase::Recovery => Pose {
                position: Vec2 {
                    x: lerp_spec(end.position.x as int, 0, u) as i64,
                    y: lerp_spec(end.position.y as int, 0, u) as i64,
                },
                rotation: lerp_spec(end.rotation as int, 0, u) as i64,
            },
        }
    }

    /// The pose in which the Swing phase ends: the curve evaluated at its end.
    pub open spec fn swing_end(self) -> Pose {
        self.pose_at(SwingPhase::Swing, zero_pose(), UNIT as int)
    }

    /// Checks the invariant of a profile: positive durations and coordinates and
    /// rotations within `POSE_LIMIT`.
    pub fn is_valid(&self) -> (r: bool)
        ensures
            r == self.valid(),
    {
        let cp = &self.swing_control_points;
        let mut points_ok = true;
        let mut i: usize = 0;
        while i < 4
            invariant
                0 <= i <= 4,
                cp@ == self.swing_control_points@,
                points_ok == (forall|j: int| 0 <= j < i ==> vec_within_limit(#[trigger] cp@[j])),
            decreases 4 - i,
        {
            let p = cp[i];
            if !(within(p.x) && within(p.y)) {
                points_ok = false;
            }
            i = i + 1;
        }
        self.startup_duration > 0 && self.swing_duration > 0 && self.recovery_duration > 0
            && within(self.start_offset.x) && within(self.start_offset.y) && within(
            self.start_rotation,
        ) && points_ok && within(self.swing_rotation_delta)
    }

    /// A profile built from its parts, or `None` where a duration is zero or a
    /// coordinate or rotation exceeds `POSE_LIMIT`.
    pub fn new(
        startup_duration: u64,
        swing_duration: u64,
        recovery_duration: u64,
        start_offset: Vec2,
        start_rotation: i64,
        swing_control_points: [Vec2; 4],
        swing_rotation_delta: i64,
    ) -> (r: Option<SwingProfile>)
        ensures
            ({
                let p = SwingProfile {
                    startup_duration,
                    swing_duration,
                    recovery_duration,
                    start_offset,
                    start_rotation,
                    swing_control_points,
                    swing_rotation_delta,
                };
                &&& p.valid() ==> r == Some(p)
                &&& !p.valid() ==> r is None
            }),
    {
        let p = SwingProfile {
            startup_duration,
            swing_duration,
            recovery_duration,
            start_offset,
            start_rotation,
            swing_control_points,
            swing_rotation_delta,
        };
        if p.is_valid() {
            Some(p)
        } else {
            None
        }
    }

    /// The duration of `phase`.
    fn duration(&self, phase: SwingPhase) -> (r: u64)
        ensures
            r == self.duration_of(phase),
    {
        match phase {
            SwingPhase::Idle => 0,
            SwingPhase::Startup => self.startup_duration,
            SwingPhase::Swing => self.swing_duration,
            SwingPhase::Recovery => self.recovery_duration,
        }
    }

    /// The pose of `phase` at eased progress `u`.
    fn evaluate(&self, phase: SwingPhase, end: Pose, u: i64) -> (r: Pose)
        requires
            self.valid(),
            0 <= u <= UNIT,
        ensures
            r == self.pose_at(phase, end, u as int),
    {
        proof {
            let (ui, so) = (u as int, self.start_offset);
            lemma_lerp_range(0, so.x as int, ui);
            lemma_lerp_range(0, so.y as int, ui);
            lemma_lerp_range(0, self.start_rotation as int, ui);
            lemma_lerp_range(0, self.swing_rotation_delta as int, ui);
            lemma_lerp_range(end.position.x as int, 0, ui);
            lemma_lerp_range(end.position.y as int, 0, ui);
            lemma_lerp_range(end.rotation as int, 0, ui);
        }
        match phase {
            SwingPhase::Idle => Pose { position: Vec2 { x: 0, y: 0 }, rotation: 0 },
            SwingPhase::Startup => Pose {
                position: Vec2 { x: 0, y: 0 }.lerp(self.start_offset, u),
                rotation: lerp(0, self.start_rotation, u),
            },
            SwingPhase::Swing => {
                let cp = &self.swing_control_points;
                proof {
                    let s = cp@;
                    lemma_cubic_in_range_on_curve(s[0].x, s[1].x, s[2].x, s[3].x, u as int);
                    lemma_cubic_in_range_on_curve(s[0].y, s[1].y, s[2].y, s[3].y, u as int);
                }
                let b = cubic_bezier(cp[0], cp[1], cp[2], cp[3], u);
                proof {
                    let s = cp@;
                    assert(vec_within_limit(s[0]) && vec_within_limit(s[1]));
                    assert(vec_within_limit(s[2]) && vec_within_limit(s[3]));
                    lemma_cubic_bezier_range(
                        s[0].x as int,
                        s[1].x as int,
                        s[2].x as int,
                        s[3].x as int,
                        u as int,
                    );
                    lemma_cubic_bezier_range(
                        s[0].y as int,
                        s[1].y as int,
                        s[2].y as int,
                        s[3].y as int,
                        u as int,
                    );
                }
                let turn = lerp(0, self.swing_rotation_delta, u);
                Pose {
                    position: Vec2 { x: self.start_offset.x + b.x, y: self.start_offset.y + b.y },
                    rotation: self.start_rotation + turn,
                }
            },
            SwingPhase::Recovery => Pose {
                position: end.position.lerp(Vec2 { x: 0, y: 0 }, u),
                rotation: lerp(end.rotation, 0, u),
            },
        }
    }
}

fn within(v: i64) -> (r: bool)
    ensures
        r == within_limit(v as int),
{
    -POSE_LIMIT <= v && v <= POSE_LIMIT
}

impl SwingType {
    /// The profile of a swing kind, in the units of this module. The vertical swing
    /// winds up back and up, tilted back by a fifth of a half turn, then sweeps a
    /// U-shaped arc while turning a little more than a full turn.
    pub open spec fn profile_spec(self) -> SwingProfile {
        match self {
            SwingType::Vertical => SwingProfile {
                startup_duration: 100_000,
                swing_duration: 400_000,
                recovery_duration: 200_000,
                start_offset: Vec2 { x: -20_000i64, y: 60_000 },
                start_rotation: -628_319i64,
                swing_control_points: [
                    Vec2 { x: 0, y: 0 },
                    Vec2 { x: 0, y: -200_000i64 },
                    Vec2 { x: 200_000, y: -200_000i64 },
                    Vec2 { x: 200_000, y: 0 },
                ],
                swing_rotation_delta: 6_597_345,
            },
        }
    }

    /// The profile of this kind of swing.
    pub fn profile(self) -> (r: SwingProfile)
        ensures
            r == self.profile_spec(),
            r.valid(),
    {
        match self {
            SwingType::Vertical => {
                let r = SwingProfile {
                    startup_duration: 100_000,
                    swing_duration: 400_000,
                    recovery_duration: 200_000,
                    start_offset: Vec2 { x: -20_000, y: 60_000 },
                    start_rotation: -628_319,
                    swing_control_points: [
                        Vec2 { x: 0, y: 0 },
                        Vec2 { x: 0, y: -200_000 },
                        Vec2 { x: 200_000, y: -200_000 },
                        Vec2 { x: 200_000, y: 0 },
                    ],
                    swing_rotation_delta: 6_597_345,
                };
                assert(forall|i: int|
                    0 <= i < 4 ==> vec_within_limit(#[trigger] r.swing_control_points@[i]));
                r
            },
        }
    }
}

impl SwingPhase {
    fn successor(self) -> (r: SwingPhase)
        ensures
            r == self.next(),
    {
        match self {
            SwingPhase::Idle => SwingPhase::Startup,
            SwingPhase::Startup => SwingPhase::Swing,
            SwingPhase::Swing => SwingPhase::Recovery,
            SwingPhase::Recovery => SwingPhase::Idle,
        }
    }
}

/// The sum of a sequence of time steps.
pub open spec fn total_time(dts: Seq<u64>) -> int
    decreases dts.len(),
{
    if dts.len() == 0 {
        0
    } else {
        total_time(dts.drop_last()) + dts.last()
    }
}

/// Interpolating all the way to the end lands exactly on the end value.
proof fn lemma_lerp_at_end(a: int, b: int)
    ensures
        lerp_spec(a, b, UNIT as int) == b,
{
    vstd::arithmetic::div_mod::lemma_div_multiples_vanish(b - a, UNIT as int);
    assert((b - a) * UNIT == UNIT * (b - a)) by (nonlinear_arith);
}

impl SwingAnimation {
    /// The controller's invariant: a valid profile; at rest with a zero pose while
    /// Idle; inside the current phase's duration otherwise; and, during Recovery,
    /// the pose in which the profile's Swing ends recorded as `swing_end_pose`.
    pub open spec fn wf(self) -> bool {
        &&& self.profile.valid()
        &&& self.phase == SwingPhase::Idle ==> self.phase_elapsed == 0 && self.pose == zero_pose()
        &&& self.phase != SwingPhase::Idle ==> self.phase_elapsed < self.profile.duration_of(
            self.phase,
        )
        &&& self.phase == SwingPhase::Recovery ==> self.swing_end_pose == self.profile.swing_end()
    }

    /// The state after a time step of `dt`. Within a phase the elapsed time grows by
    /// `dt` and the pose follows the phase's curve at the eased progress. A step that
    /// reaches the end of the phase evaluates the curve at its end, moves to the next
    /// phase and starts it from zero; what is left of the step is not carried over.
    pub open spec fn ticked(self, dt: u64) -> SwingAnimation {
        if self.phase == SwingPhase::Idle {
            self
        } else {
            let d = self.profile.duration_of(self.phase);
            let e = self.phase_elapsed + dt;
            if e >= d {
                let pose = self.profile.pose_at(self.phase, self.swing_end_pose, UNIT as int);
                SwingAnimation {
                    phase: self.phase.next(),
                    phase_elapsed: 0,
                    swing_end_pose: if self.phase == SwingPhase::Swing {
                        pose
                    } else {
                        self.swing_end_pose
                    },
                    pose,
                    ..self
                }
            } else {
                SwingAnimation {
                    phase_elapsed: e as u64,
                    pose: self.profile.pose_at(
                        self.phase,
                        self.swing_end_pose,
                        smooth_step_spec(e * UNIT / (d as int)),
                    ),
                    ..self
                }
            }
        }
    }

    /// The state after a sequence of time steps, taken in order.
    pub open spec fn run(self, dts: Seq<u64>) -> SwingAnimation
        decreases dts.len(),
    {
        if dts.len() == 0 {
            self
        } else {
            self.run(dts.drop_last()).ticked(dts.last())
        }
    }

    /// The part of a step of `dt` that goes past the end of the current phase and is
    /// dropped at the transition.
    pub open spec fn overshoot(self, dt: u64) -> int {
        let d = self.profile.duration_of(self.phase);
        if self.phase != SwingPhase::Idle && self.phase_elapsed + dt >= d {
            self.phase_elapsed + dt - d
        } else {
            0
        }
    }

    /// The time dropped at transitions over a sequence of steps.
    pub open spec fn run_overshoot(self, dts: Seq<u64>) -> int
        decreases dts.len(),
    {
        if dts.len() == 0 {
            0
        } else {
            self.run_overshoot(dts.drop_last()) + self.run(dts.drop_last()).overshoot(dts.last())
        }
    }

    /// The time still needed to bring the swing back to Idle.
    pub open spec fn remaining(self) -> int {
        let p = self.profile;
        match self.phase {
            SwingPhase::Idle => 0,
            SwingPhase::Startup => p.startup_duration - self.phase_elapsed + p.swing_duration
                + p.recovery_duration,
            SwingPhase::Swing => p.swing_duration - self.phase_elapsed + p.recovery_duration,
            SwingPhase::Recovery => p.recovery_duration - self.phase_elapsed,
        }
    }

    /// A controller at rest with `profile` selected.
    pub fn new(profile: SwingProfile) -> (r: SwingAnimation)
        requires
            profile.valid(),
        ensures
            r.wf(),
            r == (SwingAnimation {
                phase: SwingPhase::Idle,
                phase_elapsed: 0,
                profile,
                swing_end_pose: zero_pose(),
                pose: zero_pose(),
            }),
    {
        SwingAnimation {
            phase: SwingPhase::Idle,
            phase_elapsed: 0,
            profile,
            swing_end_pose: Pose { position: Vec2 { x: 0, y: 0 }, rotation: 0 },
            pose: Pose { position: Vec2 { x: 0, y: 0 }, rotation: 0 },
        }
    }

    /// Whether a swing is in progress.
    pub fn is_swinging(&self) -> (r: bool)
        ensures
            r == (self.phase != SwingPhase::Idle),
    {
        self.phase != SwingPhase::Idle
    }

    /// Begins a swing with `profile`. Only a controller at rest starts one: during a
    /// swing the request is ignored and nothing changes. Returns whether it started.
    pub fn start_swing(&mut self, profile: SwingProfile) -> (started: bool)
        requires
            old(self).wf(),
            profile.valid(),
        ensures
            final(self).wf(),
            started == (old(self).phase == SwingPhase::Idle),
            started ==> *final(self) == (SwingAnimation {
                phase: SwingPhase::Startup,
                phase_elapsed: 0,
                profile,
                ..*old(self)
            }),
            !started ==> *final(self) == *old(self),
    {
        if self.phase == SwingPhase::Idle {
            self.phase = SwingPhase::Startup;
            self.phase_elapsed = 0;
            self.profile = profile;
            true
        } else {
            false
        }
    }

    /// Advances the swing by a time step of `dt` and returns the new pose.
    pub fn tick(&mut self, dt: u64) -> (r: Pose)
        requires
            old(self).wf(),
        ensures
            final(self).wf(),
            *final(self) == old(self).ticked(dt),
            r == final(self).pose,
            final(self).phase == old(self).phase || final(self).phase == old(self).phase.next(),
    {
        proof {
            lemma_ticked_wf(*self, dt);
        }
        if self.phase == SwingPhase::Idle {
            return self.pose;
        }
        let d = self.profile.duration(self.phase);
        let e = self.phase_elapsed;
        let done = dt >= d - e;
        let t: i64 = if done {
            UNIT
        } else {
            let n: u128 = ((e + dt) as u128) * (UNIT as u128);
            proof {
                assert(n <= (UNIT as int) * d) by (nonlinear_arith)
                    requires
                        n == (e + dt) * UNIT,
                        e + dt < d,
                ;
                assert(d * UNIT == UNIT * d) by (nonlinear_arith);
                vstd::arithmetic::div_mod::lemma_div_pos_is_pos(n as int, d as int);
                vstd::arithmetic::div_mod::lemma_div_is_ordered(n as int, UNIT * d, d as int);
                vstd::arithmetic::div_mod::lemma_div_multiples_vanish(UNIT as int, d as int);
            }
            (n / (d as u128)) as i64
        };
        proof {
            lemma_smooth_step_range(t as int);
        }
        let u = smooth_step(t);
        proof {
            assert(smooth_step_spec(UNIT as int) == UNIT);
        }
        let pose = self.profile.evaluate(self.phase, self.swing_end_pose, u);
        if done {
            if self.phase == SwingPhase::Swing {
                self.swing_end_pose = pose;
            }
            self.phase = self.phase.successor();
            self.phase_elapsed = 0;
        } else {
            self.phase_elapsed = e + dt;
        }
        self.pose = pose;
        pose
    }
}

/// A time step keeps the controller's invariant and its profile.
pub proof fn lemma_ticked_wf(s: SwingAnimation, dt: u64)
    requires
        s.wf(),
    ensures
        s.ticked(dt).wf(),
        s.ticked(dt).profile == s.profile,
{
    lemma_lerp_at_end(s.swing_end_pose.position.x as int, 0);
    lemma_lerp_at_end(s.swing_end_pose.position.y as int, 0);
    lemma_lerp_at_end(s.swing_end_pose.rotation as int, 0);
}

/// A step of zero time changes neither the phase nor the time into it, and a second
/// one changes nothing at all.
pub proof fn lemma_zero_step_idempotent(s: SwingAnimation)
    requires
        s.wf(),
    ensures
        s.ticked(0).phase == s.phase,
        s.ticked(0).phase_elapsed == s.phase_elapsed,
        s.ticked(0).ticked(0) == s.ticked(0),
{
}

/// A run keeps the controller's invariant and its profile.
pub proof fn lemma_run_wf(s: SwingAnimation, dts: Seq<u64>)
    requires
        s.wf(),
    ensures
        s.run(dts).wf(),
        s.run(dts).profile == s.profile,
    decreases dts.len(),
{
    if dts.len() > 0 {
        lemma_run_wf(s, dts.drop_last());
        lemma_ticked_wf(s.run(dts.drop_last()), dts.last());
    }
}

/// A controller at rest stays at rest, whatever time passes.
pub proof fn lemma_idle_run(s: SwingAnimation, dts: Seq<u64>)
    requires
        s.phase == SwingPhase::Idle,
    ensures
        s.run(dts) == s,
        s.run_overshoot(dts) == 0,
    decreases dts.len(),
{
    if dts.len() > 0 {
        lemma_idle_run(s, dts.drop_last());
    }
}

/// Over a run that starts mid-swing, the time credited to the swing (the steps
/// minus what was dropped at transitions) is what it took off the time remaining,
/// and at least all of it once the swing is over.
proof fn lemma_run_accounting(s: SwingAnimation, dts: Seq<u64>)
    requires
        s.wf(),
        s.phase != SwingPhase::Idle,
    ensures
        s.run(dts).phase != SwingPhase::Idle ==> total_time(dts) - s.run_overshoot(dts)
            == s.remaining() - s.run(dts).remaining(),
        s.run(dts).phase == SwingPhase::Idle ==> total_time(dts) - s.run_overshoot(dts)
            >= s.remaining(),
    decreases dts.len(),
{
    if dts.len() > 0 {
        let prev = dts.drop_last();
        lemma_run_accounting(s, prev);
        lemma_run_wf(s, prev);
    }
}

/// A wf controller that is not at rest still has time to go.
proof fn lemma_remaining_positive(s: SwingAnimation)
    requires
        s.wf(),
    ensures
        (s.phase == SwingPhase::Idle) == (s.remaining() == 0),
        s.remaining() >= 0,
{
}

/// A swing that starts from the beginning ends at rest, with a zero pose, exactly
/// when its time steps add up to at least the length of the whole swing plus what
/// its phase transitions dropped. In particular a run whose steps all end on or
/// before the end of their phase is over once the steps add up to the length of
/// the swing.
pub proof fn lemma_swing_completes(s: SwingAnimation, dts: Seq<u64>)
    requires
        s.wf(),
        s.phase == SwingPhase::Startup,
        s.phase_elapsed == 0,
    ensures
        (s.run(dts).phase == SwingPhase::Idle) <==> total_time(dts) >= s.profile.total_duration()
            + s.run_overshoot(dts),
        s.run(dts).phase == SwingPhase::Idle ==> s.run(dts).pose == zero_pose(),
{
    lemma_run_accounting(s, dts);
    lemma_run_wf(s, dts);
    lemma_remaining_positive(s.run(dts));
}

/// However a swing's time is cut into steps, two runs from the same state that
/// credit the swing the same time (their steps minus what their transitions
/// dropped) end in the same phase, the same time into it. Where no step runs past
/// the end of its phase nothing is dropped, so one large step and many small ones
/// with the same sum end in the same phase.
pub proof fn lemma_same_credit_same_phase(s: SwingAnimation, a: Seq<u64>, b: Seq<u64>)
    requires
        s.wf(),
        total_time(a) - s.run_overshoot(a) == total_time(b) - s.run_overshoot(b),
    ensures
        s.run(a).phase == s.run(b).phase,
        s.run(a).phase_elapsed == s.run(b).phase_elapsed,
{
    if s.phase == SwingPhase::Idle {
        lemma_idle_run(s, a);
        lemma_idle_run(s, b);
    } else {
        lemma_run_accounting(s, a);
        lemma_run_accounting(s, b);
        lemma_run_wf(s, a);
        lemma_run_wf(s, b);
        lemma_remaining_positive(s.run(a));
        lemma_remaining_positive(s.run(b));
    }
}

} // verus!
