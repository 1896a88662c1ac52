use desklings::compile::compile;
use desklings::compiled::{AnimationId, CompiledConfig, Mode};
use desklings::schema::{
    AnimationDef, DesklingConfig, DesklingMeta, DragConfig, EventDef, FrameDef, PhysicsConfig,
};
use desklings::selection::{choose_weighted, collect_idle_candidates, pick_idle, pick_while, total_chance, IdleCandidate};

fn ev(on: Option<&str>, while_: Option<&str>, condition: Option<&str>, chance: Option<u32>) -> EventDef {
    EventDef {
        on: on.map(str::to_string),
        while_: while_.map(str::to_string),
        condition: condition.map(str::to_string),
        chance,
        duration: None,
    }
}

fn anim(name: &str, events: Vec<EventDef>) -> (String, AnimationDef) {
    (
        name.to_string(),
        AnimationDef {
            frames: vec![FrameDef { sprite: format!("{name}.png"), duration: 0.2f64.to_bits() }],
            loops: true,
            speed: 0f64.to_bits(),
            events,
        },
    )
}

fn cfg() -> CompiledConfig {
    compile(DesklingConfig {
        deskling: DesklingMeta { name: "Pip".to_string(), size: 96 },
        physics: PhysicsConfig {
            gravity: 0,
            bounce_damping: 0,
            air_drag: 0,
            min_velocity: 0,
            max_throw_velocity: 0,
        },
        drag: DragConfig { smoothing_alpha: 0, direction_hysteresis: 0 },
        animations: vec![
            anim("fall", vec![ev(None, Some("falling"), None, None), ev(None, Some("bounced"), None, None)]),
            anim("fast", vec![ev(None, Some("dragging"), Some("speed >= 200"), None)]),
            anim("sit", vec![ev(Some("idle"), None, None, Some(3))]),
            anim("slow", vec![ev(None, Some("dragging"), Some("speed < 200"), None)]),
            anim("walk", vec![ev(Some("idle"), None, Some("speed < 5"), Some(1))]),
        ],
    })
    .expect("compiles")
}

/// One truth value per event: whether its condition holds.
fn table(c: &CompiledConfig, f: impl Fn(usize, usize) -> bool) -> Vec<Vec<bool>> {
    c.animations
        .iter()
        .enumerate()
        .map(|(a, anim)| (0..anim.events.len()).map(|e| f(a, e)).collect())
        .collect()
}

#[test]
fn pick_while_takes_the_first_matching_level_event() {
    let c = cfg();
    let all = table(&c, |_, _| true);
    assert_eq!(pick_while(&c, Mode::Falling, &all), Some(AnimationId(0)));
    assert_eq!(pick_while(&c, Mode::Dragging, &all), Some(AnimationId(1)));
    let slow = table(&c, |a, _| a != 1);
    assert_eq!(pick_while(&c, Mode::Dragging, &slow), Some(AnimationId(3)));
    let none = table(&c, |_, _| false);
    assert_eq!(pick_while(&c, Mode::Dragging, &none), None);
    // Idle has edge events only.
    assert_eq!(pick_while(&c, Mode::Idle, &all), None);
}

#[test]
fn idle_candidates_follow_conditions() {
    let c = cfg();
    let all = table(&c, |_, _| true);
    let cands = collect_idle_candidates(&c, &all);
    let ids: Vec<AnimationId> = cands.iter().map(|x| x.id).collect();
    assert_eq!(ids, vec![AnimationId(2), AnimationId(4)]);
    assert_eq!(total_chance(&cands), 4);
    let no_walk = table(&c, |a, _| a != 4);
    let cands = collect_idle_candidates(&c, &no_walk);
    assert_eq!(cands.len(), 1);
    assert_eq!(total_chance(&cands), 3);
}

#[test]
fn weighted_choice_walks_the_cumulative_weights() {
    let c = vec![
        IdleCandidate { id: AnimationId(1), chance: 3, duration: None },
        IdleCandidate { id: AnimationId(2), chance: 0, duration: None },
        IdleCandidate { id: AnimationId(5), chance: 2, duration: Some([1, 2]) },
    ];
    assert_eq!(choose_weighted(&c, 0).0, AnimationId(1));
    assert_eq!(choose_weighted(&c, 2).0, AnimationId(1));
    assert_eq!(choose_weighted(&c, 3), (AnimationId(5), Some([1, 2])));
    assert_eq!(choose_weighted(&c, 4).0, AnimationId(5));
    // Past the total the first candidate stands.
    assert_eq!(choose_weighted(&c, 9).0, AnimationId(1));
}

#[test]
fn total_chance_saturates() {
    let c = vec![
        IdleCandidate { id: AnimationId(0), chance: u32::MAX, duration: None },
        IdleCandidate { id: AnimationId(1), chance: 5, duration: None },
    ];
    assert_eq!(total_chance(&c), u32::MAX);
}

#[test]
fn pick_idle_draws_among_candidates() {
    let c = cfg();
    let all = table(&c, |_, _| true);
    let mut rng = fastrand::Rng::with_seed(7);
    for _ in 0..50 {
        let (id, duration) = pick_idle(&c, &all, &mut rng);
        assert!(id == AnimationId(2) || id == AnimationId(4));
        assert_eq!(duration, None);
    }
    let none = table(&c, |_, _| false);
    assert_eq!(pick_idle(&c, &none, &mut rng), (AnimationId(0), None));
}

#[test]
fn pick_idle_reaches_every_weighted_candidate() {
    let c = cfg();
    let all = table(&c, |_, _| true);
    let mut rng = fastrand::Rng::with_seed(11);
    let mut seen = [0u32; 5];
    for _ in 0..400 {
        let (id, _) = pick_idle(&c, &all, &mut rng);
        seen[id.0] += 1;
    }
    assert_eq!(seen[0] + seen[1] + seen[3], 0);
    assert!(seen[2] > seen[4] && seen[4] > 0, "{seen:?}");
}
