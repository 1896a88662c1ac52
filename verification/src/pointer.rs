//! What one tick of a deskling does with the mouse: whether the cursor is
//! over it, whether a drag starts, follows the cursor or ends in a throw.
use vstd::prelude::*;

use crate::arbiter::{claims, raised, ArbiterView, CursorArbiter};

verus! {

/// What the global mouse hook has counted so far.
#[derive(Debug, Default, Clone, Copy, PartialEq, Eq, Structural)]
pub struct MouseButtonState {
    /// How many times the left button was released.
    pub release_count: u64,
}

impl MouseButtonState {
    /// Whether the left button was released since the count was
    /// `last_release_count`.
    pub fn released_since(&self, last_release_count: u64) -> (b: bool)
        ensures
            b == (self.release_count != last_release_count),
    {
        self.release_count != last_release_count
    }
}

/// What the tick knows of the mouse and of the deskling.
#[derive(Debug, Clone, Copy)]
pub struct PointerInput {
    /// The cursor position could be read.
    pub cursor_present: bool,
    /// The deskling is being dragged.
    pub dragging: bool,
    /// The cursor is over an opaque pixel of the deskling's sprite.
    pub over_sprite: bool,
    /// The left button is down now.
    pub left_down: bool,
    /// The left button was down at the previous tick.
    pub was_pressed: bool,
    /// The left button was released since the previous tick.
    pub released: bool,
    /// The cursor counted as over the deskling at the previous tick.
    pub was_over: bool,
}

/// What the tick is to do.
#[derive(Debug, Clone, Copy, PartialEq, Eq, Structural)]
pub struct PointerActions {
    /// Whether the cursor counts as over the deskling (published to the
    /// arbiter; a dragged deskling always has it).
    pub hit: bool,
    /// Start dragging: remember the grab point and enter `dragging`.
    pub begin_drag: bool,
    /// Move the deskling with the cursor.
    pub follow_drag: bool,
    /// Let go: throw the deskling and enter `falling`.
    pub end_drag: bool,
    /// Bring the window to the front.
    pub raise: bool,
    /// Whether the window lets clicks through changed.
    pub pass_through_changed: bool,
}

/// The cursor counts as over the deskling.
pub open spec fn sprite_hit(i: PointerInput) -> bool {
    i.cursor_present && (i.dragging || i.over_sprite)
}

/// The arbiter after this tick's hit is published.
pub open spec fn published(a: ArbiterView, id: Seq<char>, i: PointerInput) -> ArbiterView {
    ArbiterView { hits: a.hits.insert(id, sprite_hit(i)), z_order: a.z_order }
}

/// A fresh press on the deskling, which owns the cursor, starts a drag.
pub open spec fn starts_drag(a: ArbiterView, id: Seq<char>, i: PointerInput) -> bool {
    i.cursor_present && i.left_down && !i.was_pressed && sprite_hit(i) && claims(
        published(a, id, i),
        id,
    )
}

pub open spec fn pointer_actions(a: ArbiterView, id: Seq<char>, i: PointerInput) -> PointerActions {
    let begin = starts_drag(a, id, i);
    let dragging = i.dragging || begin;
    PointerActions {
        hit: sprite_hit(i),
        begin_drag: begin,
        follow_drag: i.cursor_present && i.left_down && dragging,
        end_drag: i.cursor_present && i.released && dragging,
        raise: begin,
        pass_through_changed: sprite_hit(i) != i.was_over,
    }
}

/// The arbiter after the tick: the hit published, and the deskling raised
/// to the top where a drag starts.
pub open spec fn arbiter_after(a: ArbiterView, id: Seq<char>, i: PointerInput) -> ArbiterView {
    let p = published(a, id, i);
    if starts_drag(a, id, i) {
        ArbiterView { hits: p.hits, z_order: raised(p.z_order, id) }
    } else {
        p
    }
}

/// Runs the mouse part of one tick of `instance_id` against the shared
/// arbiter.
pub fn pointer_step(arbiter: &mut CursorArbiter, instance_id: &str, input: PointerInput) -> (a:
    PointerActions)
    ensures
        a == pointer_actions(old(arbiter)@, instance_id@, input),
        final(arbiter)@ == arbiter_after(old(arbiter)@, instance_id@, input),
{
    let hit = input.cursor_present && (input.dragging || input.over_sprite);
    arbiter.publish_hit(instance_id, hit);
    let begin = input.cursor_present && input.left_down && !input.was_pressed && hit
        && arbiter.should_claim(instance_id);
    if begin {
        arbiter.push_top(instance_id);
    }
    let dragging = input.dragging || begin;
    PointerActions {
        hit,
        begin_drag: begin,
        follow_drag: input.cursor_present && input.left_down && dragging,
        end_drag: input.cursor_present && input.released && dragging,
        raise: begin,
        pass_through_changed: hit != input.was_over,
    }
}

/// A drag starts only on a fresh press while the cursor is over the
/// deskling and the deskling owns it.
pub proof fn lemma_drag_needs_fresh_press_on_owner(a: ArbiterView, id: Seq<char>, i: PointerInput)
    requires
        pointer_actions(a, id, i).begin_drag,
    ensures
        i.left_down,
        !i.was_pressed,
        sprite_hit(i),
        claims(published(a, id, i), id),
        arbiter_after(a, id, i).z_order.last() == id,
{
}

/// Without a readable cursor nothing starts, moves or ends, and the cursor
/// counts as away.
pub proof fn lemma_no_cursor_no_action(a: ArbiterView, id: Seq<char>, i: PointerInput)
    requires
        !i.cursor_present,
    ensures
        !pointer_actions(a, id, i).hit,
        !pointer_actions(a, id, i).begin_drag,
        !pointer_actions(a, id, i).follow_drag,
        !pointer_actions(a, id, i).end_drag,
{
}

/// The deskling follows the cursor, or is thrown, only while it is being
/// dragged or when a drag starts in this very tick; following needs the
/// button held, and a throw needs a release.
pub proof fn lemma_follow_needs_drag(a: ArbiterView, id: Seq<char>, i: PointerInput)
    ensures
        pointer_actions(a, id, i).follow_drag ==> i.left_down && i.cursor_present && (i.dragging
            || pointer_actions(a, id, i).begin_drag),
        pointer_actions(a, id, i).end_drag ==> i.released && i.cursor_present && (i.dragging
            || pointer_actions(a, id, i).begin_drag),
        !i.dragging && !pointer_actions(a, id, i).begin_drag ==> !pointer_actions(
            a,
            id,
            i,
        ).follow_drag && !pointer_actions(a, id, i).end_drag,
{
}

/// A dragged deskling keeps the cursor as long as the cursor can be read.
pub proof fn lemma_dragging_keeps_hit(a: ArbiterView, id: Seq<char>, i: PointerInput)
    requires
        i.cursor_present,
        i.dragging,
    ensures
        pointer_actions(a, id, i).hit,
{
}

} // verus!
