//! A phased weapon-swing animation: fixed-point curve evaluation, a swing state
//! machine driven by explicit time steps, and a node that keeps the swing's anchor
//! steady while a swing plays out and then resumes following its target.
pub mod curve;
pub mod swing_animation;
pub mod sword;

pub use curve::{Vec2, UNIT};
pub use swing_animation::{Pose, SwingAnimation, SwingPhase, SwingProfile, SwingType};
pub use sword::{step, Sword, SwordNode};
