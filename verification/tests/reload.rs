use desklings::reload::{slug_for_path, DesklingReloadedEvent, ReloadQueue, RELOAD_DEBOUNCE_MS};

fn parts(v: &[&str]) -> Vec<String> {
    v.iter().map(|s| s.to_string()).collect()
}

#[test]
fn slug_is_the_first_component_below_the_folder() {
    let dir = parts(&["/", "home", "me", "desklings"]);
    assert_eq!(
        slug_for_path(&dir, &parts(&["/", "home", "me", "desklings", "pip", "sprites", "a.png"])),
        Some("pip".to_string())
    );
    assert_eq!(slug_for_path(&dir, &parts(&["/", "home", "me", "desklings", "cat"])), Some("cat".to_string()));
    assert_eq!(slug_for_path(&dir, &parts(&["/", "home", "me", "desklings"])), None);
    assert_eq!(slug_for_path(&dir, &parts(&["/", "home", "you", "desklings", "pip"])), None);
    assert_eq!(slug_for_path(&dir, &parts(&["/", "tmp"])), None);
}

#[test]
fn first_batch_is_due_at_once() {
    let mut q = ReloadQueue::new();
    q.note("pip".to_string());
    q.note("cat".to_string());
    q.note("pip".to_string());
    assert_eq!(q.take_due(1_000), vec!["pip", "cat"]);
    assert!(q.take_due(1_000 + RELOAD_DEBOUNCE_MS).is_empty());
}

#[test]
fn changes_inside_the_debounce_wait() {
    let mut q = ReloadQueue::new();
    q.note("pip".to_string());
    assert_eq!(q.take_due(5_000), vec!["pip"]);
    q.note("cat".to_string());
    assert!(q.take_due(5_100).is_empty());
    assert!(q.take_due(5_249).is_empty());
    q.note("cat".to_string());
    q.note("pip".to_string());
    assert_eq!(q.take_due(5_250), vec!["cat", "pip"]);
    // A clock reading before the last reload never counts as elapsed.
    q.note("dog".to_string());
    assert!(q.take_due(4_000).is_empty());
    assert_eq!(q.take_due(9_000), vec!["dog"]);
}

#[test]
fn reload_event_carries_the_slug() {
    let e = DesklingReloadedEvent { slug: "pip".to_string() };
    assert_eq!(e.clone().slug, "pip");
}
