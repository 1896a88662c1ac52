//! The deskling description after compilation: modes resolved, conditions
//! parsed, animations numbered.
use vstd::prelude::*;

use crate::condition::{literals_valid, Cond, CondView};
use crate::schema::{FrameDef, PhysicsConfig};
use crate::text::str_eq;

verus! {

broadcast use vstd::string::group_string_axioms;

/// The position of an animation in [`CompiledConfig::animations`].
#[derive(Debug, Clone, Copy, PartialEq, Eq, Hash, Structural)]
pub struct AnimationId(pub usize);

/// What a deskling is doing.
#[derive(Debug, Clone, Copy, PartialEq, Eq, Hash, Structural)]
pub enum Mode {
    Idle,
    Falling,
    Bounced,
    Dragging,
}

/// The name of each mode in configuration files.
pub open spec fn mode_name(m: Mode) -> Seq<char> {
    match m {
        Mode::Idle => "idle"@,
        Mode::Falling => "falling"@,
        Mode::Bounced => "bounced"@,
        Mode::Dragging => "dragging"@,
    }
}

/// The mode a name denotes, if any.
pub open spec fn mode_from_name(s: Seq<char>) -> Option<Mode> {
    if s == "idle"@ {
        Some(Mode::Idle)
    } else if s == "falling"@ {
        Some(Mode::Falling)
    } else if s == "bounced"@ {
        Some(Mode::Bounced)
    } else if s == "dragging"@ {
        Some(Mode::Dragging)
    } else {
        None
    }
}

impl Mode {
    pub fn as_str(self) -> (s: &'static str)
        ensures
            s@ == mode_name(self),
    {
        match self {
            Mode::Idle => "idle",
            Mode::Falling => "falling",
            Mode::Bounced => "bounced",
            Mode::Dragging => "dragging",
        }
    }

    pub fn from_str(s: &str) -> (m: Option<Mode>)
        ensures
            m == mode_from_name(s@),
    {
        if str_eq(s, "idle") {
            Some(Mode::Idle)
        } else if str_eq(s, "falling") {
            Some(Mode::Falling)
        } else if str_eq(s, "bounced") {
            Some(Mode::Bounced)
        } else if str_eq(s, "dragging") {
            Some(Mode::Dragging)
        } else {
            None
        }
    }
}

/// Reading a mode's name gives the mode back.
pub proof fn lemma_mode_name_roundtrip(m: Mode)
    ensures
        mode_from_name(mode_name(m)) == Some(m),
{
    reveal_strlit("idle");
    reveal_strlit("falling");
    reveal_strlit("bounced");
    reveal_strlit("dragging");
    assert("idle"@.len() != "falling"@.len());
    assert("idle"@.len() != "bounced"@.len());
    assert("idle"@.len() != "dragging"@.len());
    assert("falling"@[0] != "bounced"@[0]);
    assert("falling"@.len() != "dragging"@.len());
    assert("bounced"@.len() != "dragging"@.len());
}

/// How an event fires: on entering its mode (`Edge`, with a weight and an
/// optional duration range of two `f64` bit patterns) or for as long as the
/// deskling stays in it (`Level`).
#[derive(Debug, Clone, Copy)]
pub enum EventKind {
    Edge { chance: u32, duration: Option<[u64; 2]> },
    Level,
}

#[derive(Debug, Clone)]
pub struct CompiledEvent {
    pub mode: Mode,
    pub cond: Cond,
    pub kind: EventKind,
}

/// The value of a compiled event.
pub struct CompiledEventView {
    pub mode: Mode,
    pub cond: CondView,
    pub kind: EventKind,
}

impl View for CompiledEvent {
    type V = CompiledEventView;

    open spec fn view(&self) -> CompiledEventView {
        CompiledEventView { mode: self.mode, cond: self.cond@, kind: self.kind }
    }
}

/// An animation ready to play; `speed` is an `f64` bit pattern.
#[derive(Debug, Clone)]
pub struct CompiledAnimation {
    pub id: AnimationId,
    pub name: String,
    pub frames: Vec<FrameDef>,
    pub loops: bool,
    pub speed: u64,
    pub events: Vec<CompiledEvent>,
}

/// Drag constants; each field is an `f64` bit pattern.
#[derive(Debug, Clone, Copy, PartialEq, Eq, Structural)]
pub struct CompiledDrag {
    pub smoothing_alpha: u64,
    pub direction_hysteresis: u64,
}

#[derive(Debug, Clone)]
pub struct CompiledDesklingMeta {
    pub name: String,
    pub size: u32,
}

#[derive(Debug, Clone)]
pub struct CompiledConfig {
    pub deskling: CompiledDesklingMeta,
    pub physics: PhysicsConfig,
    pub drag: CompiledDrag,
    pub animations: Vec<CompiledAnimation>,
}

/// The events of each animation, by value.
pub open spec fn event_views(anims: Seq<CompiledAnimation>) -> Seq<Seq<CompiledEventView>> {
    anims.map_values(|a: CompiledAnimation| a.events@.map_values(|e: CompiledEvent| e@))
}

/// Every event's condition holds only valid literals.
pub open spec fn events_valid(events: Seq<Seq<CompiledEventView>>) -> bool {
    forall|a: int, e: int|
        0 <= a < events.len() && 0 <= e < events[a].len() ==> literals_valid(
            #[trigger] events[a][e].cond,
        )
}

impl CompiledConfig {
    /// Animations sit at the position their id names, and every condition
    /// holds only valid literals.
    pub open spec fn wf(&self) -> bool {
        &&& forall|i: int| 0 <= i < self.animations@.len() ==> #[trigger] self.animations@[i].id
            == AnimationId(i as usize)
        &&& events_valid(event_views(self.animations@))
    }
}

} // verus!
