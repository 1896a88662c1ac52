use desklings::compile::{compile, compile_event};
use desklings::compiled::{AnimationId, EventKind, Mode};
use desklings::condition::Cond;
use desklings::error::CompileError;
use desklings::schema::{
    AnimationDef, DesklingConfig, DesklingMeta, DragConfig, EventDef, FrameDef, PhysicsConfig,
};

fn on(mode: &str) -> EventDef {
    EventDef { on: Some(mode.to_string()), while_: None, condition: None, chance: None, duration: None }
}

fn while_(mode: &str, condition: Option<&str>) -> EventDef {
    EventDef {
        on: None,
        while_: Some(mode.to_string()),
        condition: condition.map(str::to_string),
        chance: None,
        duration: None,
    }
}

fn anim(name: &str, events: Vec<EventDef>) -> (String, AnimationDef) {
    (
        name.to_string(),
        AnimationDef {
            frames: vec![FrameDef { sprite: format!("{name}.png"), duration: 0.1f64.to_bits() }],
            loops: true,
            speed: 0f64.to_bits(),
            events,
        },
    )
}

fn config(animations: Vec<(String, AnimationDef)>) -> DesklingConfig {
    DesklingConfig {
        deskling: DesklingMeta { name: "Pip".to_string(), size: 128 },
        physics: PhysicsConfig {
            gravity: 2000f64.to_bits(),
            bounce_damping: 0.4f64.to_bits(),
            air_drag: 0.99f64.to_bits(),
            min_velocity: 30f64.to_bits(),
            max_throw_velocity: 3000f64.to_bits(),
        },
        drag: DragConfig {
            smoothing_alpha: 0.3f64.to_bits(),
            direction_hysteresis: 40f64.to_bits(),
        },
        animations,
    }
}

fn complete() -> Vec<(String, AnimationDef)> {
    vec![
        anim("fall", vec![while_("falling", None), while_("bounced", None)]),
        anim("held", vec![while_("dragging", Some("speed < 200")), while_("dragging", Some("speed >= 200"))]),
        anim("idle", vec![on("idle")]),
    ]
}

#[test]
fn compiles_a_complete_description() {
    let cfg = compile(config(complete())).expect("compiles");
    assert_eq!(cfg.deskling.name, "Pip");
    assert_eq!(cfg.deskling.size, 128);
    assert_eq!(cfg.animations.len(), 3);
    for (i, a) in cfg.animations.iter().enumerate() {
        assert_eq!(a.id, AnimationId(i));
    }
    assert_eq!(cfg.animations[0].name, "fall");
    assert_eq!(cfg.animations[0].events[0].mode, Mode::Falling);
    assert!(matches!(cfg.animations[0].events[0].kind, EventKind::Level));
    assert!(matches!(cfg.animations[0].events[0].cond, Cond::Always));
    assert!(matches!(cfg.animations[2].events[0].kind, EventKind::Edge { chance: 1, duration: None }));
    assert_eq!(cfg.physics.gravity, 2000f64.to_bits());
    assert_eq!(cfg.drag.smoothing_alpha, 0.3f64.to_bits());
}

#[test]
fn rejects_unknown_mode() {
    let mut anims = complete();
    anims.push(anim("odd", vec![on("sleeping")]));
    match compile(config(anims)) {
        Err(CompileError::UnknownMode { anim, mode }) => {
            assert_eq!(anim, "odd");
            assert_eq!(mode, "sleeping");
        }
        other => panic!("unexpected {other:?}"),
    }
}

#[test]
fn rejects_event_with_both_or_neither_verb() {
    let both = EventDef {
        on: Some("idle".to_string()),
        while_: Some("idle".to_string()),
        condition: None,
        chance: None,
        duration: None,
    };
    assert!(matches!(compile_event("a", both), Err(CompileError::EventVerbInvalid { .. })));
    let neither = EventDef { on: None, while_: None, condition: None, chance: None, duration: None };
    assert!(matches!(compile_event("a", neither), Err(CompileError::EventVerbInvalid { .. })));
}

#[test]
fn rejects_edge_fields_on_level_events() {
    let mut e = while_("falling", None);
    e.chance = Some(3);
    match compile_event("a", e) {
        Err(CompileError::EventFieldWrongVerb { field, .. }) => assert_eq!(field, "chance"),
        other => panic!("unexpected {other:?}"),
    }
    let mut e = while_("falling", None);
    e.duration = Some([1f64.to_bits(), 2f64.to_bits()]);
    match compile_event("a", e) {
        Err(CompileError::EventFieldWrongVerb { field, .. }) => assert_eq!(field, "duration"),
        other => panic!("unexpected {other:?}"),
    }
}

#[test]
fn edge_event_keeps_chance_and_duration() {
    let mut e = on("idle");
    e.chance = Some(5);
    e.duration = Some([1f64.to_bits(), 2f64.to_bits()]);
    let c = compile_event("a", e).expect("compiles");
    match c.kind {
        EventKind::Edge { chance, duration } => {
            assert_eq!(chance, 5);
            assert_eq!(duration, Some([1f64.to_bits(), 2f64.to_bits()]));
        }
        EventKind::Level => panic!("expected an edge event"),
    }
}

#[test]
fn rejects_bad_condition() {
    let e = while_("falling", Some("speed <"));
    match compile_event("fall", e) {
        Err(CompileError::BadCondition { anim, msg }) => {
            assert_eq!(anim, "fall");
            assert_eq!(msg, "expected number");
        }
        other => panic!("unexpected {other:?}"),
    }
}

#[test]
fn rejects_missing_idle_edge() {
    let anims = vec![
        anim("fall", vec![while_("falling", None), while_("bounced", None)]),
        anim("held", vec![while_("dragging", None)]),
    ];
    assert!(matches!(compile(config(anims)), Err(CompileError::NoIdleEvent)));
}

#[test]
fn rejects_uncovered_modes() {
    let anims = vec![anim("fall", vec![while_("falling", None)]), anim("idle", vec![on("idle")])];
    match compile(config(anims)) {
        Err(CompileError::ModeUncovered { mode }) => assert_eq!(mode, "bounced"),
        other => panic!("unexpected {other:?}"),
    }
    // A dragging event that misses the fast probe speed.
    let anims = vec![
        anim("fall", vec![while_("falling", None), while_("bounced", None)]),
        anim("held", vec![while_("dragging", Some("speed < 1000"))]),
        anim("idle", vec![on("idle")]),
    ];
    match compile(config(anims)) {
        Err(CompileError::ModeUncovered { mode }) => assert_eq!(mode, "dragging"),
        other => panic!("unexpected {other:?}"),
    }
}

#[test]
fn first_failing_animation_wins() {
    let anims = vec![
        anim("a", vec![on("nowhere")]),
        anim("b", vec![while_("falling", Some("speed <"))]),
    ];
    match compile(config(anims)) {
        Err(CompileError::UnknownMode { anim, .. }) => assert_eq!(anim, "a"),
        other => panic!("unexpected {other:?}"),
    }
}

#[test]
fn compile_error_messages() {
    let m = CompileError::UnknownMode { anim: "odd".to_string(), mode: "sleeping".to_string() }.message();
    assert_eq!(m, "animation \"odd\": unknown mode \"sleeping\" (expected idle/falling/bounced/dragging)");
    let m = CompileError::EventVerbInvalid { anim: "a".to_string() }.message();
    assert_eq!(m, "animation \"a\": event must set exactly one of `on` or `while` (got neither or both)");
    let m = CompileError::EventFieldWrongVerb { anim: "a".to_string(), field: "chance" }.message();
    assert_eq!(m, "animation \"a\": `chance` is only valid on `on` events");
    let m = CompileError::BadCondition { anim: "a".to_string(), msg: "expected number".to_string() }.message();
    assert_eq!(m, "animation \"a\": condition parse error: expected number");
    assert_eq!(
        CompileError::NoIdleEvent.message(),
        "no animation subscribes to `on = \"idle\"`; the deskling needs at least one idle animation"
    );
    assert_eq!(
        CompileError::ModeUncovered { mode: "falling" }.message(),
        "no animation has a matching `while = \"falling\"` event at speed 0; the deskling cannot resolve an animation for this mode"
    );
}

#[test]
fn coverage_reads_literals_as_f64() {
    // 399.99999999999999999 is read as 400.0, so the event covers speed 400.
    let anims = vec![
        anim("fall", vec![while_("falling", None), while_("bounced", None)]),
        anim("held", vec![
            while_("dragging", Some("speed <= 399.99999999999999999")),
            while_("dragging", Some("speed > 400")),
        ]),
        anim("idle", vec![on("idle")]),
    ];
    assert!(compile(config(anims)).is_ok());
    // 0.0000000000000001 is within f64::EPSILON of 0.
    let anims = vec![
        anim("fall", vec![while_("falling", None), while_("bounced", None)]),
        anim("held", vec![
            while_("dragging", Some("speed == 0.0000000000000001")),
            while_("dragging", Some("speed >= 400")),
        ]),
        anim("idle", vec![on("idle")]),
    ];
    assert!(compile(config(anims)).is_ok());
    // 400.0000000000001 is a different f64 from 400.0: speed 400 is not covered.
    let anims = vec![
        anim("fall", vec![while_("falling", None), while_("bounced", None)]),
        anim("held", vec![
            while_("dragging", Some("speed < 1")),
            while_("dragging", Some("speed >= 400.0000000000001")),
        ]),
        anim("idle", vec![on("idle")]),
    ];
    match compile(config(anims)) {
        Err(CompileError::ModeUncovered { mode }) => assert_eq!(mode, "dragging"),
        other => panic!("unexpected {other:?}"),
    }
}
