//! The discrete side of a running deskling: which way it faces, how its
//! animation steps from frame to frame, how its mode changes, and what is
//! reported to its window.
use vstd::prelude::*;

use crate::compiled::{mode_name, AnimationId, CompiledConfig, Mode};

verus! {

/// Which way the deskling looks.
#[derive(Debug, Clone, Copy, PartialEq, Eq, Structural)]
pub enum Facing {
    Left,
    Right,
}

/// Whether an animation keeps playing after a step.
#[derive(Debug, Clone, Copy, PartialEq, Eq, Structural)]
pub enum AnimationTick {
    Playing,
    Finished,
}

/// The frame that follows `frame` once it has shown for its time, in an
/// animation of `len` frames: the next one, or after the last the first
/// again when the animation loops; a non-looping animation stays on its
/// last frame and finishes.
pub open spec fn frame_after(frame: nat, len: nat, loops: bool) -> (nat, AnimationTick) {
    if frame + 1 < len {
        ((frame + 1) as nat, AnimationTick::Playing)
    } else if loops {
        (0, AnimationTick::Playing)
    } else {
        ((len - 1) as nat, AnimationTick::Finished)
    }
}

/// Steps from `frame` to the frame after it.
pub fn next_frame(frame: usize, len: usize, loops: bool) -> (r: (usize, AnimationTick))
    requires
        frame < len,
    ensures
        (r.0 as nat, r.1) == frame_after(frame as nat, len as nat, loops),
{
    let next = frame + 1;
    if next < len {
        (next, AnimationTick::Playing)
    } else if loops {
        (0, AnimationTick::Playing)
    } else {
        (len - 1, AnimationTick::Finished)
    }
}

/// Stepping never leaves the animation's frames.
pub proof fn lemma_frame_after_in_range(frame: nat, len: nat, loops: bool)
    requires
        frame < len,
    ensures
        frame_after(frame, len, loops).0 < len,
        frame_after(frame, len, loops).1 == AnimationTick::Finished ==> !loops
            && frame_after(frame, len, loops).0 == len - 1,
{
}

/// The sprite shown by frame `frame` of animation `id`.
pub fn frame_sprite(cfg: &CompiledConfig, id: AnimationId, frame: usize) -> (s: &str)
    requires
        id.0 < cfg.animations.len(),
        frame < cfg.animations[id.0 as int].frames.len(),
    ensures
        s@ == cfg.animations[id.0 as int].frames[frame as int].sprite@,
{
    cfg.animations[id.0].frames[frame].sprite.as_str()
}

/// The mode of a deskling, and whether it bounced since it began to fall.
#[derive(Debug, Clone, Copy, PartialEq, Eq, Structural)]
pub struct Phase {
    pub mode: Mode,
    pub has_bounced: bool,
}

impl Phase {
    /// A deskling starts out falling.
    pub fn new() -> (p: Phase)
        ensures
            p == (Phase { mode: Mode::Falling, has_bounced: false }),
    {
        Phase { mode: Mode::Falling, has_bounced: false }
    }

    /// Let go of: falls afresh.
    pub fn enter_falling(self) -> (p: Phase)
        ensures
            p == (Phase { mode: Mode::Falling, has_bounced: false }),
    {
        Phase { mode: Mode::Falling, has_bounced: false }
    }

    /// Picked up by the cursor.
    pub fn enter_dragging(self) -> (p: Phase)
        ensures
            p == (Phase { mode: Mode::Dragging, has_bounced: self.has_bounced }),
    {
        Phase { mode: Mode::Dragging, has_bounced: self.has_bounced }
    }

    /// Came to rest.
    pub fn enter_idle(self) -> (p: Phase)
        ensures
            p == (Phase { mode: Mode::Idle, has_bounced: false }),
    {
        Phase { mode: Mode::Idle, has_bounced: false }
    }

    /// After a step in the air: the first bounce on the floor turns a fall
    /// into `bounced`; landing at rest makes the deskling idle.
    pub fn after_airborne(self, bounced: bool, landed: bool) -> (p: Phase)
        ensures
            p == airborne_next(self, bounced, landed),
    {
        let p = if bounced && !self.has_bounced {
            Phase { mode: Mode::Bounced, has_bounced: true }
        } else {
            self
        };
        if landed {
            p.enter_idle()
        } else {
            p
        }
    }
}

pub open spec fn airborne_next(p: Phase, bounced: bool, landed: bool) -> Phase {
    let q = if bounced && !p.has_bounced {
        Phase { mode: Mode::Bounced, has_bounced: true }
    } else {
        p
    };
    if landed {
        Phase { mode: Mode::Idle, has_bounced: false }
    } else {
        q
    }
}

/// Once bounced, further bounces change nothing until the deskling rests
/// or is picked up; a falling deskling is `bounced` exactly when it has
/// bounced.
pub proof fn lemma_bounce_once(p: Phase, bounced: bool, landed: bool)
    requires
        p.mode == Mode::Falling || p.mode == Mode::Bounced,
        (p.mode == Mode::Bounced) == p.has_bounced,
    ensures
        !landed ==> airborne_next(p, bounced, landed).mode == Mode::Falling || airborne_next(
            p,
            bounced,
            landed,
        ).mode == Mode::Bounced,
        !landed ==> (airborne_next(p, bounced, landed).mode == Mode::Bounced) == airborne_next(
            p,
            bounced,
            landed,
        ).has_bounced,
        p.has_bounced && !landed ==> airborne_next(p, bounced, landed) == p,
{
}

/// A step in the air changes the phase only through a bounce or a landing:
/// without either the phase stays as it was; landing always leaves the
/// deskling idle and unbounced; the first bounce of a fall that does not
/// land makes it `bounced`.
pub proof fn lemma_airborne_step(p: Phase, bounced: bool, landed: bool)
    ensures
        !bounced && !landed ==> airborne_next(p, bounced, landed) == p,
        landed ==> airborne_next(p, bounced, landed) == (Phase { mode: Mode::Idle, has_bounced: false }),
        bounced && !landed && !p.has_bounced ==> airborne_next(p, bounced, landed) == (Phase {
            mode: Mode::Bounced,
            has_bounced: true,
        }),
        !landed ==> airborne_next(p, bounced, landed).has_bounced == (p.has_bounced || bounced),
{
}

/// What a window is told about its deskling at every tick.
#[derive(Debug, Clone)]
pub struct DesklingStateEvent<'a> {
    pub sprite: &'a str,
    pub flip: bool,
    pub mode: &'a str,
}

impl<'a> DesklingStateEvent<'a> {
    /// The report for a deskling showing `sprite` in `mode`: the sprite is
    /// mirrored when the deskling faces right.
    pub fn describe(sprite: &'a str, facing: Facing, mode: Mode) -> (e: DesklingStateEvent<'a>)
        ensures
            e.sprite@ == sprite@,
            e.flip == (facing == Facing::Right),
            e.mode@ == mode_name(mode),
    {
        DesklingStateEvent {
            sprite,
            flip: match facing {
                Facing::Right => true,
                Facing::Left => false,
            },
            mode: mode.as_str(),
        }
    }
}

/// What a deskling's window learns of it on request.
#[derive(Debug, Clone)]
pub struct DesklingInfo {
    pub name: String,
    pub size: u32,
    pub sprites_dir: String,
    pub version: u64,
}

impl DesklingInfo {
    /// The information about a deskling running `cfg` (configuration
    /// `version`), whose sprites lie in `sprites_dir`.
    pub fn describe(cfg: &CompiledConfig, sprites_dir: String, version: u64) -> (i: DesklingInfo)
        ensures
            i.name@ == cfg.deskling.name@,
            i.size == cfg.deskling.size,
            i.sprites_dir@ == sprites_dir@,
            i.version == version,
    {
        DesklingInfo { name: cfg.deskling.name.clone(), size: cfg.deskling.size, sprites_dir, version }
    }
}

} // verus!
