use desklings::compile::compile;
use desklings::compiled::{AnimationId, Mode};
use desklings::deskling::{
    frame_sprite, next_frame, AnimationTick, DesklingInfo, DesklingStateEvent, Facing, Phase,
};
use desklings::error::format_chain;
use desklings::schema::{
    AnimationDef, DesklingConfig, DesklingMeta, DragConfig, EventDef, FrameDef, PhysicsConfig,
};

#[test]
fn frames_advance_and_wrap() {
    assert_eq!(next_frame(0, 3, true), (1, AnimationTick::Playing));
    assert_eq!(next_frame(2, 3, true), (0, AnimationTick::Playing));
    assert_eq!(next_frame(1, 3, false), (2, AnimationTick::Playing));
    assert_eq!(next_frame(2, 3, false), (2, AnimationTick::Finished));
    assert_eq!(next_frame(0, 1, false), (0, AnimationTick::Finished));
    assert_eq!(next_frame(0, 1, true), (0, AnimationTick::Playing));
}

#[test]
fn phases_follow_the_deskling() {
    let p = Phase::new();
    assert_eq!(p, Phase { mode: Mode::Falling, has_bounced: false });
    let p = p.after_airborne(true, false);
    assert_eq!(p, Phase { mode: Mode::Bounced, has_bounced: true });
    // A second bounce changes nothing.
    assert_eq!(p.after_airborne(true, false), p);
    let rest = p.after_airborne(false, true);
    assert_eq!(rest, Phase { mode: Mode::Idle, has_bounced: false });
    let held = rest.enter_dragging();
    assert_eq!(held.mode, Mode::Dragging);
    assert_eq!(held.enter_falling(), Phase { mode: Mode::Falling, has_bounced: false });
    assert_eq!(held.enter_idle(), Phase { mode: Mode::Idle, has_bounced: false });
    // Bouncing and landing in the same step lands.
    assert_eq!(Phase::new().after_airborne(true, true), Phase { mode: Mode::Idle, has_bounced: false });
}

#[test]
fn state_event_mirrors_right_facing() {
    let e = DesklingStateEvent::describe("walk.png", Facing::Right, Mode::Idle);
    assert_eq!((e.sprite, e.flip, e.mode), ("walk.png", true, "idle"));
    let e = DesklingStateEvent::describe("fall.png", Facing::Left, Mode::Bounced);
    assert_eq!((e.sprite, e.flip, e.mode), ("fall.png", false, "bounced"));
}

fn cfg() -> desklings::compiled::CompiledConfig {
    let frames = vec![
        FrameDef { sprite: "a.png".to_string(), duration: 0.1f64.to_bits() },
        FrameDef { sprite: "b.png".to_string(), duration: 0.1f64.to_bits() },
    ];
    let ev = |on: Option<&str>, w: Option<&str>| EventDef {
        on: on.map(str::to_string),
        while_: w.map(str::to_string),
        condition: None,
        chance: None,
        duration: None,
    };
    compile(DesklingConfig {
        deskling: DesklingMeta { name: "Pip".to_string(), size: 80 },
        physics: PhysicsConfig { gravity: 0, bounce_damping: 0, air_drag: 0, min_velocity: 0, max_throw_velocity: 0 },
        drag: DragConfig { smoothing_alpha: 0, direction_hysteresis: 0 },
        animations: vec![(
            "all".to_string(),
            AnimationDef {
                frames,
                loops: true,
                speed: 0,
                events: vec![
                    ev(Some("idle"), None),
                    ev(None, Some("falling")),
                    ev(None, Some("bounced")),
                    ev(None, Some("dragging")),
                ],
            },
        )],
    })
    .expect("compiles")
}

#[test]
fn sprites_and_info() {
    let c = cfg();
    assert_eq!(frame_sprite(&c, AnimationId(0), 1), "b.png");
    let info = DesklingInfo::describe(&c, "/d/pip/sprites".to_string(), 3);
    assert_eq!(info.name, "Pip");
    assert_eq!(info.size, 80);
    assert_eq!(info.sprites_dir, "/d/pip/sprites");
    assert_eq!(info.version, 3);
}

#[test]
fn error_chains_list_every_cause() {
    assert_eq!(format_chain(&vec!["top".to_string()]), "top");
    assert_eq!(
        format_chain(&vec!["top".to_string(), "middle".to_string(), "root".to_string()]),
        "top\n  caused by: middle\n  caused by: root"
    );
    assert_eq!(format_chain(&vec![]), "");
}
