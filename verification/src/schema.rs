//! The deskling description as it is read from `deskling.toml`.
//!
//! Floating-point quantities are carried through the library untouched; they
//! are held by their IEEE-754 bit patterns (`f64::to_bits`), and only the
//! application reads them as numbers.
use vstd::prelude::*;

use crate::ordered_map::str_lt;

verus! {

/// A whole deskling description.  The animations are listed in strictly
/// ascending order of their names, as a `BTreeMap` walks them (see
/// [`DesklingConfig::names_ascending`]).
#[derive(Debug)]
pub struct DesklingConfig {
    pub deskling: DesklingMeta,
    pub physics: PhysicsConfig,
    pub drag: DragConfig,
    pub animations: Vec<(String, AnimationDef)>,
}

impl DesklingConfig {
    /// Every animation name sorts after the one before it: the names are in
    /// ascending order and none occurs twice.
    pub open spec fn names_ascending(&self) -> bool {
        forall|i: int, j: int|
            0 <= i < j < self.animations@.len() ==> str_lt(
                #[trigger] self.animations@[i].0@,
                #[trigger] self.animations@[j].0@,
            )
    }
}

/// Display name and window size (in logical pixels) of a deskling.
#[derive(Debug, Clone)]
pub struct DesklingMeta {
    pub name: String,
    pub size: u32,
}

/// Falling and bouncing constants; each field is an `f64` bit pattern.
#[derive(Debug, Clone, Copy, PartialEq, Eq, Structural)]
pub struct PhysicsConfig {
    pub gravity: u64,
    pub bounce_damping: u64,
    pub air_drag: u64,
    pub min_velocity: u64,
    pub max_throw_velocity: u64,
}

/// Drag smoothing constants; each field is an `f64` bit pattern.
#[derive(Debug, Clone, Copy, PartialEq, Eq, Structural)]
pub struct DragConfig {
    pub smoothing_alpha: u64,
    pub direction_hysteresis: u64,
}

/// One named animation: its frames, whether it loops, how fast the deskling
/// walks while it plays (an `f64` bit pattern) and the events it answers.
#[derive(Debug, Clone)]
pub struct AnimationDef {
    pub frames: Vec<FrameDef>,
    pub loops: bool,
    pub speed: u64,
    pub events: Vec<EventDef>,
}

/// A sprite file and how long it shows (an `f64` bit pattern, in seconds).
#[derive(Debug, Clone)]
pub struct FrameDef {
    pub sprite: String,
    pub duration: u64,
}

/// An event subscription: exactly one of `on` (edge) and `while_` (level)
/// names a mode; `chance` and `duration` (a range of two `f64` bit
/// patterns) belong to edge events only.
#[derive(Debug, Clone)]
pub struct EventDef {
    pub on: Option<String>,
    pub while_: Option<String>,
    pub condition: Option<String>,
    pub chance: Option<u32>,
    pub duration: Option<[u64; 2]>,
}

} // verus!
