use desklings::arbiter::CursorArbiter;
use desklings::pointer::{pointer_step, PointerActions, PointerInput};

#[test]
fn topmost_hit_claims() {
    let mut a = CursorArbiter::new();
    a.push_top("a#1");
    a.push_top("b#1");
    a.publish_hit("a#1", true);
    a.publish_hit("b#1", true);
    assert!(a.should_claim("b#1"));
    assert!(!a.should_claim("a#1"));
    a.publish_hit("b#1", false);
    assert!(a.should_claim("a#1"));
    a.push_top("a#1");
    a.publish_hit("b#1", true);
    assert!(a.should_claim("a#1"));
    assert!(!a.should_claim("b#1"));
}

#[test]
fn nobody_claims_without_hits() {
    let mut a = CursorArbiter::new();
    assert!(!a.should_claim("a#1"));
    a.push_top("a#1");
    a.publish_hit("a#1", false);
    assert!(!a.should_claim("a#1"));
    // A hit from an instance outside the stacking order does not count.
    a.publish_hit("ghost", true);
    assert!(!a.should_claim("ghost"));
}

#[test]
fn removed_instances_never_claim() {
    let mut a = CursorArbiter::new();
    a.push_top("a#1");
    a.push_top("b#1");
    a.publish_hit("b#1", true);
    a.publish_hit("a#1", true);
    a.remove("b#1");
    assert!(!a.should_claim("b#1"));
    assert!(a.should_claim("a#1"));
}

fn input() -> PointerInput {
    PointerInput {
        cursor_present: true,
        dragging: false,
        over_sprite: true,
        left_down: true,
        was_pressed: false,
        released: false,
        was_over: false,
    }
}

#[test]
fn fresh_press_on_owned_sprite_starts_a_drag() {
    let mut a = CursorArbiter::new();
    a.push_top("b#1");
    a.push_top("a#1");
    a.publish_hit("b#1", true);
    let act = pointer_step(&mut a, "b#1", input());
    // b is below a, but a reports no hit: b owns the cursor.
    assert_eq!(
        act,
        PointerActions {
            hit: true,
            begin_drag: true,
            follow_drag: true,
            end_drag: false,
            raise: true,
            pass_through_changed: true,
        }
    );
    // b is now on top.
    a.publish_hit("a#1", true);
    assert!(a.should_claim("b#1"));
}

#[test]
fn held_press_or_covered_sprite_does_not_start() {
    let mut a = CursorArbiter::new();
    a.push_top("a#1");
    let held = PointerInput { was_pressed: true, ..input() };
    assert!(!pointer_step(&mut a, "a#1", held).begin_drag);

    a.push_top("b#1");
    a.publish_hit("b#1", true);
    let act = pointer_step(&mut a, "a#1", input());
    assert!(act.hit);
    assert!(!act.begin_drag);
    assert!(!act.raise);
}

#[test]
fn dragging_follows_and_release_throws() {
    let mut a = CursorArbiter::new();
    a.push_top("a#1");
    let follow = PointerInput { dragging: true, over_sprite: false, was_pressed: true, was_over: true, ..input() };
    let act = pointer_step(&mut a, "a#1", follow);
    assert!(act.hit && act.follow_drag && !act.begin_drag && !act.end_drag && !act.pass_through_changed);
    let release = PointerInput { left_down: false, released: true, ..follow };
    let act = pointer_step(&mut a, "a#1", release);
    assert!(act.end_drag && !act.follow_drag);
}

#[test]
fn no_cursor_means_no_hit() {
    let mut a = CursorArbiter::new();
    a.push_top("a#1");
    let gone = PointerInput { cursor_present: false, dragging: true, released: true, was_over: true, ..input() };
    let act = pointer_step(&mut a, "a#1", gone);
    assert_eq!(
        act,
        PointerActions {
            hit: false,
            begin_drag: false,
            follow_drag: false,
            end_drag: false,
            raise: false,
            pass_through_changed: true,
        }
    );
    assert!(!a.should_claim("a#1"));
}
