use desklings::ordered_map::OrderedMap;
use desklings::startup::startup_instances;

#[test]
fn settings_decide_the_instances() {
    let mut m: OrderedMap<u32> = OrderedMap::new();
    m.insert("pip".to_string(), 2);
    m.insert("cat".to_string(), 1);
    assert_eq!(startup_instances(&m, Some("zebra".to_string())), vec!["cat#1", "pip#1", "pip#2"]);
}

#[test]
fn empty_settings_start_the_first_installed() {
    let m: OrderedMap<u32> = OrderedMap::new();
    assert_eq!(startup_instances(&m, Some("pip".to_string())), vec!["pip#1"]);
    assert!(startup_instances(&m, None).is_empty());
}
