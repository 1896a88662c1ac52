//! Which animation plays: the first matching level event while airborne or
//! dragged, and a weighted random choice among the idle edge events.
//!
//! Conditions are evaluated by the caller (the speed is a floating-point
//! quantity); `holds[a][e]` says whether event `e` of animation `a` has its
//! condition met.
use vstd::prelude::*;

use crate::compiled::{AnimationId, CompiledAnimation, CompiledConfig, CompiledEvent, EventKind, Mode};

verus! {

#[verifier::external_type_specification]
#[verifier::external_body]
pub struct ExRng(fastrand::Rng);

/// A number below `bound`, drawn with `fastrand::Rng::u32(..bound)`.
/// Nothing is claimed of which number beyond the range.
#[verifier::external_body]
fn roll_below(rng: &mut fastrand::Rng, bound: u32) -> (r: u32)
    requires
        bound > 0,
    ensures
        r < bound,
{
    rng.u32(..bound)
}

/// `holds` has one entry per event of every animation.
pub open spec fn table_fits(anims: Seq<CompiledAnimation>, holds: Seq<Vec<bool>>) -> bool {
    &&& holds.len() == anims.len()
    &&& forall|a: int| 0 <= a < anims.len() ==> #[trigger] holds[a]@.len() == anims[a].events@.len()
}

/// Event `e` of animation `a` is a level event for `mode` whose condition holds.
pub open spec fn level_match(
    anims: Seq<CompiledAnimation>,
    holds: Seq<Vec<bool>>,
    mode: Mode,
    a: int,
    e: int,
) -> bool {
    &&& 0 <= a < anims.len()
    &&& 0 <= e < anims[a].events@.len()
    &&& anims[a].events@[e].mode == mode
    &&& anims[a].events@[e].kind is Level
    &&& holds[a]@[e]
}

/// The first animation (in order, then by event order) with a level event
/// for `mode` whose condition holds.
pub fn pick_while(cfg: &CompiledConfig, mode: Mode, holds: &Vec<Vec<bool>>) -> (r: Option<
    AnimationId,
>)
    requires
        table_fits(cfg.animations@, holds@),
    ensures
        match r {
            Some(id) => exists|a: int, e: int|
                #![trigger level_match(cfg.animations@, holds@, mode, a, e)]
                level_match(cfg.animations@, holds@, mode, a, e) && cfg.animations@[a].id == id
                    && forall|a2: int, e2: int|
                    #![trigger level_match(cfg.animations@, holds@, mode, a2, e2)]
                    level_match(cfg.animations@, holds@, mode, a2, e2) ==> (a < a2 || (a == a2
                        && e <= e2)),
            None => forall|a: int, e: int|
                !#[trigger] level_match(cfg.animations@, holds@, mode, a, e),
        },
{
    let anims = &cfg.animations;
    let mut a: usize = 0;
    while a < anims.len()
        invariant
            *anims == cfg.animations,
            table_fits(anims@, holds@),
            a <= anims.len(),
            forall|a2: int, e2: int|
                #![trigger level_match(anims@, holds@, mode, a2, e2)]
                a2 < a ==> !level_match(anims@, holds@, mode, a2, e2),
        decreases anims.len() - a,
    {
        let events = &anims[a].events;
        let row = &holds[a];
        assert(row@.len() == events@.len());
        let mut e: usize = 0;
        while e < events.len()
            invariant
                *anims == cfg.animations,
                table_fits(anims@, holds@),
                a < anims.len(),
                *events == anims@[a as int].events,
                *row == holds@[a as int],
                row@.len() == events@.len(),
                e <= events.len(),
                forall|a2: int, e2: int|
                    #![trigger level_match(anims@, holds@, mode, a2, e2)]
                    a2 < a ==> !level_match(anims@, holds@, mode, a2, e2),
                forall|e2: int|
                    #![trigger level_match(anims@, holds@, mode, a as int, e2)]
                    e2 < e ==> !level_match(anims@, holds@, mode, a as int, e2),
            decreases events.len() - e,
        {
            let ev = &events[e];
            let is_level = match ev.kind {
                EventKind::Level => true,
                EventKind::Edge { .. } => false,
            };
            if ev.mode == mode && is_level && row[e] {
                let id = anims[a].id;
                proof {
                    assert(level_match(anims@, holds@, mode, a as int, e as int));
                    assert forall|a2: int, e2: int|
                        #![trigger level_match(anims@, holds@, mode, a2, e2)]
                        level_match(anims@, holds@, mode, a2, e2) implies (a < a2 || (a == a2 && e
                            <= e2)) by {
                        if a2 < a {
                        } else if a2 == a && e2 < e {
                        }
                    }
                }
                return Some(id);
            }
            e += 1;
        }
        proof {
            assert forall|a2: int, e2: int|
                #![trigger level_match(anims@, holds@, mode, a2, e2)]
                a2 < a + 1 implies !level_match(anims@, holds@, mode, a2, e2) by {
                if a2 == a {
                    if 0 <= e2 < events@.len() {
                    }
                }
            }
        }
        a += 1;
    }
    None
}

/// An idle animation that may be chosen, with its weight and optional
/// duration range (two `f64` bit patterns).
#[derive(Debug, Clone, Copy)]
pub struct IdleCandidate {
    pub id: AnimationId,
    pub chance: u32,
    pub duration: Option<[u64; 2]>,
}

/// The candidates among the first `n` events of one animation: idle edge
/// events whose condition holds, in order.
pub open spec fn animation_candidates(
    id: AnimationId,
    events: Seq<CompiledEvent>,
    holds: Seq<bool>,
    n: int,
) -> Seq<IdleCandidate>
    decreases n,
{
    if n <= 0 || n > events.len() {
        Seq::empty()
    } else {
        let prev = animation_candidates(id, events, holds, n - 1);
        let ev = events[n - 1];
        match ev.kind {
            EventKind::Edge { chance, duration } => if ev.mode == Mode::Idle && holds[n - 1] {
                prev.push(IdleCandidate { id, chance, duration })
            } else {
                prev
            },
            EventKind::Level => prev,
        }
    }
}

/// The candidates of the first `n` animations, in order.
pub open spec fn idle_candidates_of(anims: Seq<CompiledAnimation>, holds: Seq<Vec<bool>>, n: int) -> Seq<
    IdleCandidate,
>
    decreases n,
{
    if n <= 0 || n > anims.len() {
        Seq::empty()
    } else {
        idle_candidates_of(anims, holds, n - 1) + animation_candidates(
            anims[n - 1].id,
            anims[n - 1].events@,
            holds[n - 1]@,
            anims[n - 1].events@.len() as int,
        )
    }
}

/// All idle candidates of a configuration.
pub open spec fn idle_candidates(anims: Seq<CompiledAnimation>, holds: Seq<Vec<bool>>) -> Seq<
    IdleCandidate,
> {
    idle_candidates_of(anims, holds, anims.len() as int)
}

/// The sum of the first `n` weights.
pub open spec fn weight_sum(c: Seq<IdleCandidate>, n: int) -> int
    decreases n,
{
    if n <= 0 || n > c.len() {
        0
    } else {
        weight_sum(c, n - 1) + c[n - 1].chance
    }
}

/// The sum of all weights, saturating at `u32::MAX`.
pub open spec fn total_weight(c: Seq<IdleCandidate>) -> u32 {
    if weight_sum(c, c.len() as int) > u32::MAX {
        u32::MAX
    } else {
        weight_sum(c, c.len() as int) as u32
    }
}

/// The candidate whose slice of the weights `[sum before, sum through)`
/// contains `roll`, searching from `i`; the first candidate if none does.
pub open spec fn chosen_index(c: Seq<IdleCandidate>, roll: u32, i: int) -> int
    decreases c.len() - i,
{
    if i < 0 || i >= c.len() {
        0
    } else if roll < weight_sum(c, i + 1) {
        i
    } else {
        chosen_index(c, roll, i + 1)
    }
}

proof fn lemma_weight_sum_monotone(c: Seq<IdleCandidate>, n: int)
    requires
        0 <= n <= c.len(),
    ensures
        forall|m: int| 0 <= m <= n ==> weight_sum(c, m) <= weight_sum(c, n),
        weight_sum(c, n) >= 0,
    decreases n,
{
    if n > 0 {
        lemma_weight_sum_monotone(c, n - 1);
    }
}

proof fn lemma_chosen_from(c: Seq<IdleCandidate>, roll: u32, i: int)
    requires
        0 <= i <= c.len(),
        weight_sum(c, i) <= roll,
        roll < weight_sum(c, c.len() as int),
    ensures
        i <= chosen_index(c, roll, i) < c.len(),
        weight_sum(c, chosen_index(c, roll, i)) <= roll < weight_sum(c, chosen_index(c, roll, i) + 1),
    decreases c.len() - i,
{
    if i < c.len() && roll >= weight_sum(c, i + 1) {
        lemma_chosen_from(c, roll, i + 1);
    }
}

/// A roll below the total weight lands in the slice of exactly one
/// candidate, and that candidate has a positive chance: an animation with
/// chance `0` is never picked.
pub proof fn lemma_chosen_has_weight(c: Seq<IdleCandidate>, roll: u32)
    requires
        roll < total_weight(c),
    ensures
        0 <= chosen_index(c, roll, 0) < c.len(),
        c[chosen_index(c, roll, 0)].chance > 0,
        weight_sum(c, chosen_index(c, roll, 0)) <= roll < weight_sum(c, chosen_index(c, roll, 0) + 1),
{
    lemma_weight_sum_monotone(c, c.len() as int);
    lemma_chosen_from(c, roll, 0);
}

/// Animation `a` has an idle edge event whose condition holds, with the
/// candidate's chance and duration.
pub open spec fn candidate_from_event(
    anims: Seq<CompiledAnimation>,
    holds: Seq<Vec<bool>>,
    c: IdleCandidate,
    a: int,
    e: int,
) -> bool {
    &&& 0 <= a < anims.len()
    &&& 0 <= e < anims[a].events@.len()
    &&& anims[a].id == c.id
    &&& anims[a].events@[e].mode == Mode::Idle
    &&& anims[a].events@[e].kind == (EventKind::Edge { chance: c.chance, duration: c.duration })
    &&& e < holds[a]@.len() && holds[a]@[e]
}

proof fn lemma_animation_candidate_source(
    anims: Seq<CompiledAnimation>,
    holds: Seq<Vec<bool>>,
    a: int,
    n: int,
    k: int,
)
    requires
        0 <= a < anims.len(),
        a < holds.len(),
        holds[a]@.len() == anims[a].events@.len(),
        0 <= k < animation_candidates(anims[a].id, anims[a].events@, holds[a]@, n).len(),
    ensures
        exists|e: int|
            #[trigger] candidate_from_event(
                anims,
                holds,
                animation_candidates(anims[a].id, anims[a].events@, holds[a]@, n)[k],
                a,
                e,
            ),
    decreases n,
{
    let c = animation_candidates(anims[a].id, anims[a].events@, holds[a]@, n);
    let prev = animation_candidates(anims[a].id, anims[a].events@, holds[a]@, n - 1);
    if k < prev.len() {
        lemma_animation_candidate_source(anims, holds, a, n - 1, k);
        assert(c[k] == prev[k]);
    } else {
        let ev = anims[a].events@[n - 1];
        assert(0 < n <= anims[a].events@.len());
        match ev.kind {
            EventKind::Edge { chance, duration } => {
                assert(ev.mode == Mode::Idle && holds[a]@[n - 1]);
                assert(c == prev.push(IdleCandidate { id: anims[a].id, chance, duration }));
                assert(c[k] == IdleCandidate { id: anims[a].id, chance, duration });
                assert(candidate_from_event(anims, holds, c[k], a, n - 1));
            },
            EventKind::Level => {
                assert(c == prev);
            },
        }
    }
}

proof fn lemma_candidates_of_source(anims: Seq<CompiledAnimation>, holds: Seq<Vec<bool>>, n: int, k: int)
    requires
        table_fits(anims, holds),
        0 <= k < idle_candidates_of(anims, holds, n).len(),
    ensures
        exists|a: int, e: int|
            #[trigger] candidate_from_event(anims, holds, idle_candidates_of(anims, holds, n)[k], a, e),
    decreases n,
{
    let all = idle_candidates_of(anims, holds, n);
    let prev = idle_candidates_of(anims, holds, n - 1);
    if k < prev.len() {
        lemma_candidates_of_source(anims, holds, n - 1, k);
        assert(all[k] == prev[k]);
    } else {
        let tail = animation_candidates(
            anims[n - 1].id,
            anims[n - 1].events@,
            holds[n - 1]@,
            anims[n - 1].events@.len() as int,
        );
        assert(0 < n <= anims.len());
        assert(all[k] == tail[k - prev.len()]);
        assert(holds[n - 1]@.len() == anims[n - 1].events@.len());
        lemma_animation_candidate_source(
            anims,
            holds,
            n - 1,
            anims[n - 1].events@.len() as int,
            k - prev.len(),
        );
    }
}

/// Every idle candidate comes from an idle edge event of its animation
/// whose condition holds, and carries that event's chance and duration.
pub proof fn lemma_candidates_come_from_events(
    anims: Seq<CompiledAnimation>,
    holds: Seq<Vec<bool>>,
    k: int,
)
    requires
        table_fits(anims, holds),
        0 <= k < idle_candidates(anims, holds).len(),
    ensures
        exists|a: int, e: int|
            #[trigger] candidate_from_event(anims, holds, idle_candidates(anims, holds)[k], a, e),
{
    lemma_candidates_of_source(anims, holds, anims.len() as int, k);
}

/// The idle candidates, in order.
pub fn collect_idle_candidates(cfg: &CompiledConfig, holds: &Vec<Vec<bool>>) -> (c: Vec<
    IdleCandidate,
>)
    requires
        table_fits(cfg.animations@, holds@),
    ensures
        c@ == idle_candidates(cfg.animations@, holds@),
{
    let anims = &cfg.animations;
    let mut out: Vec<IdleCandidate> = Vec::new();
    let mut a: usize = 0;
    while a < anims.len()
        invariant
            *anims == cfg.animations,
            table_fits(anims@, holds@),
            a <= anims.len(),
            out@ == idle_candidates_of(anims@, holds@, a as int),
        decreases anims.len() - a,
    {
        let anim = &anims[a];
        let row = &holds[a];
        let ghost base = out@;
        let mut e: usize = 0;
        while e < anim.events.len()
            invariant
                *anims == cfg.animations,
                table_fits(anims@, holds@),
                a < anims.len(),
                *anim == anims@[a as int],
                *row == holds@[a as int],
                row@.len() == anim.events@.len(),
                e <= anim.events.len(),
                out@ == base + animation_candidates(anim.id, anim.events@, row@, e as int),
            decreases anim.events.len() - e,
        {
            let ev = &anim.events[e];
            match ev.kind {
                EventKind::Edge { chance, duration } => {
                    if ev.mode == Mode::Idle && row[e] {
                        out.push(IdleCandidate { id: anim.id, chance, duration });
                    }
                },
                EventKind::Level => {},
            }
            assert(out@ =~= base + animation_candidates(anim.id, anim.events@, row@, e + 1));
            e += 1;
        }
        a += 1;
    }
    out
}

/// The saturating sum of the weights.
pub fn total_chance(c: &Vec<IdleCandidate>) -> (t: u32)
    ensures
        t == total_weight(c@),
{
    let mut t: u32 = 0;
    let mut i: usize = 0;
    while i < c.len()
        invariant
            i <= c.len(),
            t == (if weight_sum(c@, i as int) > u32::MAX {
                u32::MAX as int
            } else {
                weight_sum(c@, i as int)
            }),
        decreases c.len() - i,
    {
        proof {
            lemma_weight_sum_monotone(c@, i as int);
        }
        t = t.saturating_add(c[i].chance);
        i += 1;
    }
    t
}

/// The candidate that `roll` selects, and its duration range: the walk
/// subtracts each weight from the roll until the roll falls below one.
pub fn choose_weighted(c: &Vec<IdleCandidate>, roll: u32) -> (r: (AnimationId, Option<[u64; 2]>))
    requires
        c.len() > 0,
    ensures
        r.0 == c@[chosen_index(c@, roll, 0)].id,
        r.1 == c@[chosen_index(c@, roll, 0)].duration,
{
    let mut rest = roll;
    let mut i: usize = 0;
    while i < c.len()
        invariant
            i <= c.len(),
            c.len() > 0,
            0 <= weight_sum(c@, i as int) <= roll,
            rest == roll - weight_sum(c@, i as int),
            chosen_index(c@, roll, 0) == chosen_index(c@, roll, i as int),
        decreases c.len() - i,
    {
        if rest < c[i].chance {
            return (c[i].id, c[i].duration);
        }
        rest = rest - c[i].chance;
        i += 1;
    }
    (c[0].id, c[0].duration)
}

/// Picks the idle animation to play next: among the idle candidates, a
/// random one weighted by chance; animation 0 with no duration when there is
/// no candidate or every weight is zero.
pub fn pick_idle(cfg: &CompiledConfig, holds: &Vec<Vec<bool>>, rng: &mut fastrand::Rng) -> (r: (
    AnimationId,
    Option<[u64; 2]>,
))
    requires
        table_fits(cfg.animations@, holds@),
    ensures
        ({
            let c = idle_candidates(cfg.animations@, holds@);
            if c.len() == 0 || total_weight(c) == 0 {
                r == (AnimationId(0), None::<[u64; 2]>)
            } else {
                exists|roll: u32|
                    roll < total_weight(c) && r.0 == c[chosen_index(c, roll, 0)].id && r.1
                        == c[chosen_index(c, roll, 0)].duration
            }
        }),
{
    let candidates = collect_idle_candidates(cfg, holds);
    let total = total_chance(&candidates);
    if candidates.len() == 0 || total == 0 {
        return (AnimationId(0), None);
    }
    let roll = roll_below(rng, total);
    choose_weighted(&candidates, roll)
}

} // verus!
