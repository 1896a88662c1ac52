use desklings::instances::{
    instance_ids_for_slug, instance_index, make_instance_id, plan_quantity, slug_from_instance_id,
    window_label_for, QuantityPlan, WINDOW_LABEL_PREFIX,
};

#[test]
fn instance_ids_join_slug_and_number() {
    assert_eq!(make_instance_id("pip", 1), "pip#1");
    assert_eq!(make_instance_id("pip", 42), "pip#42");
    assert_eq!(make_instance_id("", 0), "#0");
    assert_eq!(make_instance_id("a#b", 4294967295), "a#b#4294967295");
}

#[test]
fn slug_is_everything_before_the_first_hash() {
    assert_eq!(slug_from_instance_id("pip#3"), "pip");
    assert_eq!(slug_from_instance_id("pip"), "pip");
    assert_eq!(slug_from_instance_id("a#b#3"), "a");
    assert_eq!(slug_from_instance_id("#3"), "");
}

#[test]
fn instance_number_is_after_the_last_hash() {
    assert_eq!(instance_index("pip#3"), Some(3));
    assert_eq!(instance_index("a#b#12"), Some(12));
    assert_eq!(instance_index("pip"), None);
    assert_eq!(instance_index("pip#"), None);
    assert_eq!(instance_index("pip#x"), None);
    assert_eq!(instance_index("pip#+7"), Some(7));
    assert_eq!(instance_index("pip#4294967296"), None);
}

#[test]
fn window_labels_are_sanitized() {
    assert_eq!(WINDOW_LABEL_PREFIX, "deskling-");
    assert_eq!(window_label_for("pip#1"), "deskling-pip_1");
    assert_eq!(window_label_for("my-cat_2#10"), "deskling-my-cat_2_10");
    assert_eq!(window_label_for("é ü"), "deskling-___");
}

fn rt(slug: &str, id: &str) -> (String, String) {
    (slug.to_string(), id.to_string())
}

#[test]
fn ids_for_slug_are_sorted_by_number_stably() {
    let runtimes = vec![
        rt("pip", "pip#10"),
        rt("cat", "cat#1"),
        rt("pip", "pip#2"),
        rt("pip", "pip#odd"),
        rt("pip", "pip#1"),
        rt("pip", "pip"),
    ];
    assert_eq!(
        instance_ids_for_slug(&runtimes, "pip"),
        vec!["pip#odd", "pip", "pip#1", "pip#2", "pip#10"]
    );
    assert_eq!(instance_ids_for_slug(&runtimes, "cat"), vec!["cat#1"]);
    assert!(instance_ids_for_slug(&runtimes, "dog").is_empty());
}

fn ids(v: &[&str]) -> Vec<String> {
    v.iter().map(|s| s.to_string()).collect()
}

#[test]
fn plan_stops_all_for_zero() {
    assert!(matches!(plan_quantity(&ids(&["pip#1"]), 0), QuantityPlan::StopAll));
    assert!(matches!(plan_quantity(&ids(&[]), 0), QuantityPlan::StopAll));
}

#[test]
fn plan_keeps_matching_count() {
    assert!(matches!(plan_quantity(&ids(&["pip#1", "pip#2"]), 2), QuantityPlan::Keep));
}

#[test]
fn plan_fills_the_smallest_free_numbers() {
    match plan_quantity(&ids(&["pip#2", "pip#5"]), 5) {
        QuantityPlan::Start(v) => assert_eq!(v, vec![1, 3, 4]),
        other => panic!("unexpected {other:?}"),
    }
    match plan_quantity(&ids(&[]), 3) {
        QuantityPlan::Start(v) => assert_eq!(v, vec![1, 2, 3]),
        other => panic!("unexpected {other:?}"),
    }
}

#[test]
fn plan_stops_the_highest_numbers_first() {
    match plan_quantity(&ids(&["pip#1", "pip#2", "pip#3", "pip#7"]), 2) {
        QuantityPlan::Stop(v) => assert_eq!(v, vec!["pip#7", "pip#3"]),
        other => panic!("unexpected {other:?}"),
    }
}
