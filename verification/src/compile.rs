//! Compilation of a deskling description: every event gets its mode, its
//! kind and its parsed condition, and the result must give the deskling an
//! idle animation and an animation for every airborne or dragged speed.
use vstd::prelude::*;

use crate::compiled::{
    event_views, events_valid, mode_from_name, AnimationId, CompiledAnimation, CompiledConfig,
    CompiledDesklingMeta, CompiledDrag, CompiledEvent, CompiledEventView, EventKind, Mode,
};
use crate::condition::{
    failure_message, holds_whole, literals_valid, parse, spec_parse, Cond, CondView,
};
use crate::error::{CompileError, CompileErrorView};
use crate::schema::{AnimationDef, DesklingConfig, EventDef};

verus! {

broadcast use vstd::string::group_string_axioms;

/// The speeds at which every airborne and dragged mode must have a level
/// event whose condition holds.
pub open spec fn probe_speeds() -> Seq<nat> {
    seq![0, 400, 1000000]
}

/// The verb of an event: the mode name it refers to and its kind.
pub open spec fn spec_event_verb(anim: Seq<char>, raw: EventDef) -> Result<
    (Seq<char>, EventKind),
    CompileErrorView,
> {
    match (raw.on, raw.while_) {
        (Some(on), None) => Ok(
            (
                on@,
                EventKind::Edge {
                    chance: match raw.chance {
                        Some(c) => c,
                        None => 1,
                    },
                    duration: raw.duration,
                },
            ),
        ),
        (None, Some(w)) => if raw.chance is Some {
            Err(CompileErrorView::EventFieldWrongVerb { anim, field: "chance"@ })
        } else if raw.duration is Some {
            Err(CompileErrorView::EventFieldWrongVerb { anim, field: "duration"@ })
        } else {
            Ok((w@, EventKind::Level))
        },
        _ => Err(CompileErrorView::EventVerbInvalid { anim }),
    }
}

/// The compiled form of one event of animation `anim`, or why it is rejected.
pub open spec fn spec_compile_event(anim: Seq<char>, raw: EventDef) -> Result<
    CompiledEventView,
    CompileErrorView,
> {
    match spec_event_verb(anim, raw) {
        Err(e) => Err(e),
        Ok((name, kind)) => match mode_from_name(name) {
            None => Err(CompileErrorView::UnknownMode { anim, mode: name }),
            Some(mode) => match raw.condition {
                None => Ok(CompiledEventView { mode, cond: CondView::Always, kind }),
                Some(src) => match spec_parse(src@) {
                    Err(f) => Err(CompileErrorView::BadCondition { anim, msg: failure_message(f) }),
                    Ok(c) => Ok(CompiledEventView { mode, cond: c, kind }),
                },
            },
        },
    }
}

/// The first rejected event among `events[k..]`, if any.
pub open spec fn first_event_error(anim: Seq<char>, events: Seq<EventDef>, k: int) -> Option<
    CompileErrorView,
>
    decreases events.len() - k,
{
    if k < 0 || k >= events.len() {
        None
    } else {
        match spec_compile_event(anim, events[k]) {
            Err(e) => Some(e),
            Ok(_) => first_event_error(anim, events, k + 1),
        }
    }
}

/// The first rejected event of the animations `anims[k..]`, in order.
pub open spec fn first_animation_error(anims: Seq<(String, AnimationDef)>, k: int) -> Option<
    CompileErrorView,
>
    decreases anims.len() - k,
{
    if k < 0 || k >= anims.len() {
        None
    } else {
        match first_event_error(anims[k].0@, anims[k].1.events@, 0) {
            Some(e) => Some(e),
            None => first_animation_error(anims, k + 1),
        }
    }
}

/// The compiled events of one animation, assuming none is rejected.
pub open spec fn expected_events(anim: Seq<char>, events: Seq<EventDef>) -> Seq<
    CompiledEventView,
> {
    Seq::new(events.len(), |e: int| spec_compile_event(anim, events[e])->Ok_0)
}

/// The compiled events of every animation, assuming none is rejected.
pub open spec fn expected_event_views(anims: Seq<(String, AnimationDef)>) -> Seq<
    Seq<CompiledEventView>,
> {
    Seq::new(anims.len(), |a: int| expected_events(anims[a].0@, anims[a].1.events@))
}

/// Some animation answers entering `Idle` with an edge event.
pub open spec fn has_idle_edge(ev: Seq<Seq<CompiledEventView>>) -> bool {
    exists|a: int, e: int|
        0 <= a < ev.len() && 0 <= e < ev[a].len() && (#[trigger] ev[a][e]).mode == Mode::Idle
            && ev[a][e].kind is Edge
}

/// Some animation has a level event for `mode` whose condition holds at speed `w`.
pub open spec fn covers_at(ev: Seq<Seq<CompiledEventView>>, mode: Mode, w: nat) -> bool {
    exists|a: int, e: int|
        0 <= a < ev.len() && 0 <= e < ev[a].len() && (#[trigger] ev[a][e]).mode == mode
            && ev[a][e].kind is Level && holds_whole(ev[a][e].cond, w)
}

/// `mode` is covered at every probe speed.
pub open spec fn mode_covered(ev: Seq<Seq<CompiledEventView>>, mode: Mode) -> bool {
    forall|i: int| 0 <= i < probe_speeds().len() ==> covers_at(ev, mode, #[trigger] probe_speeds()[i])
}

/// The coverage rule: an idle edge event exists, and falling, bounced and
/// dragging are each covered; the first unmet requirement is reported.
pub open spec fn spec_coverage(ev: Seq<Seq<CompiledEventView>>) -> Result<(), CompileErrorView> {
    if !has_idle_edge(ev) {
        Err(CompileErrorView::NoIdleEvent)
    } else if !mode_covered(ev, Mode::Falling) {
        Err(CompileErrorView::ModeUncovered { mode: "falling"@ })
    } else if !mode_covered(ev, Mode::Bounced) {
        Err(CompileErrorView::ModeUncovered { mode: "bounced"@ })
    } else if !mode_covered(ev, Mode::Dragging) {
        Err(CompileErrorView::ModeUncovered { mode: "dragging"@ })
    } else {
        Ok(())
    }
}

/// The airborne and dragged modes, each of which must be covered.
pub open spec fn must_cover(m: Mode) -> bool {
    m == Mode::Falling || m == Mode::Bounced || m == Mode::Dragging
}

/// An accepted description has an idle edge event, and for falling,
/// bounced and dragging, at each of the speeds 0, 400 and 1000000, some
/// animation has a level event of that mode whose condition holds there.
pub proof fn lemma_accepted_is_covered(ev: Seq<Seq<CompiledEventView>>)
    requires
        spec_coverage(ev) is Ok,
    ensures
        has_idle_edge(ev),
        forall|m: Mode, w: nat|
            must_cover(m) && (w == 0 || w == 400 || w == 1000000) ==> #[trigger] covers_at(ev, m, w),
{
    assert forall|m: Mode, w: nat|
        must_cover(m) && (w == 0 || w == 400 || w == 1000000) implies #[trigger] covers_at(
        ev,
        m,
        w,
    ) by {
        assert(mode_covered(ev, m));
        if w == 0 {
            assert(probe_speeds()[0] == w);
        } else if w == 400 {
            assert(probe_speeds()[1] == w);
        } else {
            assert(probe_speeds()[2] == w);
        }
    }
}

/// A description with an idle edge event but no level event for falling at
/// all is rejected as leaving falling uncovered.
pub proof fn lemma_no_falling_event_rejected(ev: Seq<Seq<CompiledEventView>>)
    requires
        has_idle_edge(ev),
        forall|a: int, e: int|
            0 <= a < ev.len() && 0 <= e < ev[a].len() ==> !((#[trigger] ev[a][e]).mode
                == Mode::Falling && ev[a][e].kind is Level),
    ensures
        spec_coverage(ev) == Err::<(), CompileErrorView>(
            CompileErrorView::ModeUncovered { mode: "falling"@ },
        ),
{
    assert(!covers_at(ev, Mode::Falling, probe_speeds()[0]));
}

/// `out` is animation number `id` compiled from `name` and `def`.
pub open spec fn animation_compiled_from(
    id: int,
    name: String,
    def: AnimationDef,
    out: CompiledAnimation,
) -> bool {
    &&& out.id == AnimationId(id as usize)
    &&& out.name@ == name@
    &&& out.frames@ == def.frames@
    &&& out.loops == def.loops
    &&& out.speed == def.speed
    &&& out.events@.map_values(|e: CompiledEvent| e@) == expected_events(name@, def.events@)
}

/// `cfg` is `raw` compiled.
pub open spec fn config_compiled_from(raw: DesklingConfig, cfg: CompiledConfig) -> bool {
    &&& cfg.deskling.name@ == raw.deskling.name@
    &&& cfg.deskling.size == raw.deskling.size
    &&& cfg.physics == raw.physics
    &&& cfg.drag.smoothing_alpha == raw.drag.smoothing_alpha
    &&& cfg.drag.direction_hysteresis == raw.drag.direction_hysteresis
    &&& cfg.animations@.len() == raw.animations@.len()
    &&& forall|i: int|
        0 <= i < cfg.animations@.len() ==> animation_compiled_from(
            i,
            raw.animations@[i].0,
            raw.animations@[i].1,
            #[trigger] cfg.animations@[i],
        )
    &&& cfg.wf()
}

/// Compiles one event of the animation named `anim_name`.
pub fn compile_event(anim_name: &str, raw: EventDef) -> (r: Result<CompiledEvent, CompileError>)
    ensures
        match spec_compile_event(anim_name@, raw) {
            Ok(v) => r matches Ok(x) && x@ == v && literals_valid(v.cond),
            Err(e) => r matches Err(x) && x@ == e,
        },
{
    let (mode_name, kind) = match (&raw.on, &raw.while_) {
        (Some(on), None) => {
            let chance = match raw.chance {
                Some(c) => c,
                None => 1,
            };
            (on.clone(), EventKind::Edge { chance, duration: raw.duration })
        },
        (None, Some(w)) => {
            if raw.chance.is_some() {
                return Err(
                    CompileError::EventFieldWrongVerb { anim: anim_name.to_owned(), field: "chance" },
                );
            }
            if raw.duration.is_some() {
                return Err(
                    CompileError::EventFieldWrongVerb {
                        anim: anim_name.to_owned(),
                        field: "duration",
                    },
                );
            }
            (w.clone(), EventKind::Level)
        },
        _ => {
            return Err(CompileError::EventVerbInvalid { anim: anim_name.to_owned() });
        },
    };
    let mode = match Mode::from_str(mode_name.as_str()) {
        Some(m) => m,
        None => {
            return Err(CompileError::UnknownMode { anim: anim_name.to_owned(), mode: mode_name });
        },
    };
    let cond = match &raw.condition {
        Some(src) => match parse(src.as_str()) {
            Ok(c) => c,
            Err(e) => {
                return Err(CompileError::BadCondition { anim: anim_name.to_owned(), msg: e.msg });
            },
        },
        None => Cond::Always,
    };
    Ok(CompiledEvent { mode, cond, kind })
}

/// Compiles animation number `id`: its events in order, stopping at the
/// first one that is rejected.
pub fn compile_animation(id: AnimationId, name: String, def: AnimationDef) -> (r: Result<
    CompiledAnimation,
    CompileError,
>)
    ensures
        match first_event_error(name@, def.events@, 0) {
            Some(e) => r matches Err(x) && x@ == e,
            None => r matches Ok(out) && animation_compiled_from(id.0 as int, name, def, out)
                && events_valid(seq![out.events@.map_values(|e: CompiledEvent| e@)]),
        },
{
    let ghost evs = def.events@;
    let total = def.events.len();
    let mut rest = def.events;
    let mut events: Vec<CompiledEvent> = Vec::new();
    let mut k: usize = 0;
    while rest.len() > 0
        invariant
            k + rest@.len() == evs.len(),
            evs.len() == total,
            evs == def.events@,
            rest@ == evs.subrange(k as int, evs.len() as int),
            first_event_error(name@, evs, 0) == first_event_error(name@, evs, k as int),
            events@.len() == k,
            forall|j: int|
                0 <= j < k ==> spec_compile_event(name@, evs[j]) == Ok::<
                    CompiledEventView,
                    CompileErrorView,
                >((#[trigger] events@[j])@),
            forall|j: int| 0 <= j < k ==> literals_valid((#[trigger] events@[j]).cond@),
        decreases rest.len(),
    {
        let raw = rest.remove(0);
        assert(raw == evs[k as int]);
        match compile_event(name.as_str(), raw) {
            Ok(ev) => {
                events.push(ev);
            },
            Err(e) => {
                assert(first_event_error(name@, evs, k as int) == Some(e@));
                return Err(e);
            },
        }
        assert(rest@ =~= evs.subrange(k + 1, evs.len() as int));
        k += 1;
    }
    assert(events@.map_values(|e: CompiledEvent| e@) =~= expected_events(name@, evs));
    let out = CompiledAnimation {
        id,
        name,
        frames: def.frames,
        loops: def.loops,
        speed: def.speed,
        events,
    };
    proof {
        let ev = seq![out.events@.map_values(|e: CompiledEvent| e@)];
        assert forall|a: int, e: int| 0 <= a < ev.len() && 0 <= e < ev[a].len() implies literals_valid(
            #[trigger] ev[a][e].cond,
        ) by {
            assert(ev[a][e] == out.events@[e]@);
        }
    }
    Ok(out)
}

/// Some animation answers entering `Idle` with an edge event.
fn find_idle_edge(anims: &Vec<CompiledAnimation>) -> (b: bool)
    ensures
        b == has_idle_edge(event_views(anims@)),
{
    let ghost ev = event_views(anims@);
    let mut a: usize = 0;
    while a < anims.len()
        invariant
            ev == event_views(anims@),
            a <= anims.len(),
            forall|a2: int, e: int|
                0 <= a2 < a && 0 <= e < ev[a2].len() ==> !((#[trigger] ev[a2][e]).mode == Mode::Idle
                    && ev[a2][e].kind is Edge),
        decreases anims.len() - a,
    {
        let events = &anims[a].events;
        let mut e: usize = 0;
        while e < events.len()
            invariant
                ev == event_views(anims@),
                a < anims.len(),
                *events == anims@[a as int].events,
                e <= events.len(),
                ev[a as int].len() == events.len(),
                forall|e2: int|
                    0 <= e2 < e ==> !((#[trigger] ev[a as int][e2]).mode == Mode::Idle
                        && ev[a as int][e2].kind is Edge),
            decreases events.len() - e,
        {
            assert(ev[a as int][e as int] == events@[e as int]@);
            let is_edge = match events[e].kind {
                EventKind::Edge { .. } => true,
                EventKind::Level => false,
            };
            if events[e].mode == Mode::Idle && is_edge {
                return true;
            }
            e += 1;
        }
        a += 1;
    }
    false
}

/// Some animation has a level event for `mode` whose condition holds at speed `w`.
fn find_cover(anims: &Vec<CompiledAnimation>, mode: Mode, w: u32) -> (b: bool)
    requires
        events_valid(event_views(anims@)),
    ensures
        b == covers_at(event_views(anims@), mode, w as nat),
{
    let ghost ev = event_views(anims@);
    let mut a: usize = 0;
    while a < anims.len()
        invariant
            ev == event_views(anims@),
            events_valid(ev),
            a <= anims.len(),
            forall|a2: int, e: int|
                0 <= a2 < a && 0 <= e < ev[a2].len() ==> !((#[trigger] ev[a2][e]).mode == mode
                    && ev[a2][e].kind is Level && holds_whole(ev[a2][e].cond, w as nat)),
        decreases anims.len() - a,
    {
        let events = &anims[a].events;
        let mut e: usize = 0;
        while e < events.len()
            invariant
                ev == event_views(anims@),
                events_valid(ev),
                a < anims.len(),
                *events == anims@[a as int].events,
                e <= events.len(),
                ev[a as int].len() == events.len(),
                forall|e2: int|
                    0 <= e2 < e ==> !((#[trigger] ev[a as int][e2]).mode == mode
                        && ev[a as int][e2].kind is Level && holds_whole(
                        ev[a as int][e2].cond,
                        w as nat,
                    )),
            decreases events.len() - e,
        {
            assert(ev[a as int][e as int] == events@[e as int]@);
            assert(literals_valid(ev[a as int][e as int].cond));
            let x = &events[e];
            let is_level = match x.kind {
                EventKind::Edge { .. } => false,
                EventKind::Level => true,
            };
            if x.mode == mode && is_level && x.cond.eval_whole(w) {
                return true;
            }
            e += 1;
        }
        a += 1;
    }
    false
}

/// `mode` is covered at every probe speed.
fn mode_is_covered(anims: &Vec<CompiledAnimation>, mode: Mode) -> (b: bool)
    requires
        events_valid(event_views(anims@)),
    ensures
        b == mode_covered(event_views(anims@), mode),
{
    let r = find_cover(anims, mode, 0) && find_cover(anims, mode, 400) && find_cover(
        anims,
        mode,
        1_000_000,
    );
    proof {
        let ev = event_views(anims@);
        assert(probe_speeds()[0] == 0 && probe_speeds()[1] == 400 && probe_speeds()[2] == 1000000);
        if !r {
            assert(!covers_at(ev, mode, probe_speeds()[0]) || !covers_at(ev, mode, probe_speeds()[1])
                || !covers_at(ev, mode, probe_speeds()[2]));
        }
    }
    r
}

/// Checks the coverage rule of [`spec_coverage`].
pub fn validate_coverage(cfg: &CompiledConfig) -> (r: Result<(), CompileError>)
    requires
        cfg.wf(),
    ensures
        match spec_coverage(event_views(cfg.animations@)) {
            Ok(()) => r is Ok,
            Err(e) => r matches Err(x) && x@ == e,
        },
{
    if !find_idle_edge(&cfg.animations) {
        return Err(CompileError::NoIdleEvent);
    }
    if !mode_is_covered(&cfg.animations, Mode::Falling) {
        return Err(CompileError::ModeUncovered { mode: Mode::Falling.as_str() });
    }
    if !mode_is_covered(&cfg.animations, Mode::Bounced) {
        return Err(CompileError::ModeUncovered { mode: Mode::Bounced.as_str() });
    }
    if !mode_is_covered(&cfg.animations, Mode::Dragging) {
        return Err(CompileError::ModeUncovered { mode: Mode::Dragging.as_str() });
    }
    Ok(())
}

/// Compiles a deskling description: the animations in order, numbered from
/// zero, the first rejected event stopping everything; then the coverage
/// rule.
pub fn compile(raw: DesklingConfig) -> (r: Result<CompiledConfig, CompileError>)
    requires
        raw.names_ascending(),
    ensures
        match first_animation_error(raw.animations@, 0) {
            Some(e) => r matches Err(x) && x@ == e,
            None => match spec_coverage(expected_event_views(raw.animations@)) {
                Err(e) => r matches Err(x) && x@ == e,
                Ok(()) => r matches Ok(cfg) && config_compiled_from(raw, cfg),
            },
        },
        r is Ok ==> has_idle_edge(expected_event_views(raw.animations@)),
        r is Ok ==> forall|m: Mode, w: nat|
            must_cover(m) && (w == 0 || w == 400 || w == 1000000) ==> #[trigger] covers_at(
                expected_event_views(raw.animations@),
                m,
                w,
            ),
{
    let ghost anims_in = raw.animations@;
    let total = raw.animations.len();
    let mut rest = raw.animations;
    let mut animations: Vec<CompiledAnimation> = Vec::new();
    let mut i: usize = 0;
    while rest.len() > 0
        invariant
            i + rest@.len() == anims_in.len(),
            anims_in.len() == total,
            anims_in == raw.animations@,
            rest@ == anims_in.subrange(i as int, anims_in.len() as int),
            first_animation_error(anims_in, 0) == first_animation_error(anims_in, i as int),
            animations@.len() == i,
            forall|j: int|
                0 <= j < i ==> animation_compiled_from(
                    j,
                    anims_in[j].0,
                    anims_in[j].1,
                    #[trigger] animations@[j],
                ),
            forall|j: int, e: int|
                0 <= j < i && 0 <= e < animations@[j].events@.len() ==> literals_valid(
                    (#[trigger] animations@[j].events@[e]).cond@,
                ),
        decreases rest.len(),
    {
        let (name, def) = rest.remove(0);
        assert(name == anims_in[i as int].0 && def == anims_in[i as int].1);
        let compiled = compile_animation(AnimationId(i), name, def);
        match compiled {
            Ok(a) => {
                proof {
                    assert forall|e: int| 0 <= e < a.events@.len() implies literals_valid(
                        (#[trigger] a.events@[e]).cond@,
                    ) by {
                        let ev = seq![a.events@.map_values(|x: CompiledEvent| x@)];
                        assert(ev[0][e] == a.events@[e]@);
                        assert(literals_valid(ev[0][e].cond));
                    }
                }
                animations.push(a);
            },
            Err(e) => {
                assert(first_animation_error(anims_in, i as int) == Some(e@));
                return Err(e);
            },
        }
        assert(rest@ =~= anims_in.subrange(i + 1, anims_in.len() as int));
        i += 1;
    }
    let cfg = CompiledConfig {
        deskling: CompiledDesklingMeta { name: raw.deskling.name, size: raw.deskling.size },
        physics: raw.physics,
        drag: CompiledDrag {
            smoothing_alpha: raw.drag.smoothing_alpha,
            direction_hysteresis: raw.drag.direction_hysteresis,
        },
        animations,
    };
    proof {
        let ev = event_views(cfg.animations@);
        assert forall|a: int| 0 <= a < ev.len() implies #[trigger] ev[a]
            == expected_event_views(anims_in)[a] by {
            assert(animation_compiled_from(a, anims_in[a].0, anims_in[a].1, cfg.animations@[a]));
        }
        assert(ev =~= expected_event_views(anims_in));
        assert forall|a: int, e: int| 0 <= a < ev.len() && 0 <= e < ev[a].len() implies literals_valid(
            #[trigger] ev[a][e].cond,
        ) by {
            assert(ev[a][e] == cfg.animations@[a].events@[e]@);
        }
        assert forall|k: int| 0 <= k < cfg.animations@.len() implies #[trigger] cfg.animations@[k].id
            == AnimationId(k as usize) by {
            assert(animation_compiled_from(k, anims_in[k].0, anims_in[k].1, cfg.animations@[k]));
        }
    }
    validate_coverage(&cfg)?;
    proof {
        lemma_accepted_is_covered(expected_event_views(anims_in));
    }
    Ok(cfg)
}

} // verus!
