use desklings::ordered_map::{str_less, OrderedMap};
use desklings::settings::{active_from_list, active_from_table, AppSettings, SettingsStore, Theme};

fn keys(m: &OrderedMap<u32>) -> Vec<(String, u32)> {
    m.entries().iter().map(|(k, v)| (k.clone(), *v)).collect()
}

#[test]
fn ordered_map_keeps_keys_sorted() {
    let mut m: OrderedMap<u32> = OrderedMap::new();
    assert!(m.is_empty());
    m.insert("pip".to_string(), 2);
    m.insert("cat".to_string(), 1);
    m.insert("zebra".to_string(), 3);
    m.insert("cat".to_string(), 4);
    assert_eq!(m.len(), 3);
    assert_eq!(
        keys(&m),
        vec![("cat".to_string(), 4), ("pip".to_string(), 2), ("zebra".to_string(), 3)]
    );
    assert_eq!(m.get("pip"), Some(&2));
    assert_eq!(m.get("dog"), None);
    m.remove("pip");
    m.remove("dog");
    assert_eq!(keys(&m), vec![("cat".to_string(), 4), ("zebra".to_string(), 3)]);
}

#[test]
fn string_order_is_by_code_point() {
    assert!(str_less("B", "a"));
    assert!(str_less("ab", "abc"));
    assert!(!str_less("abc", "abc"));
    assert!(str_less("z", "é"));
}

#[test]
fn table_form_drops_zero_quantities() {
    let m = active_from_table(vec![
        ("pip".to_string(), 2),
        ("cat".to_string(), 0),
        ("dog".to_string(), 1),
    ]);
    assert_eq!(keys(&m), vec![("dog".to_string(), 1), ("pip".to_string(), 2)]);
}

#[test]
fn list_form_gives_one_instance_each() {
    let m = active_from_list(vec!["pip".to_string(), "cat".to_string(), "pip".to_string()]);
    assert_eq!(keys(&m), vec![("cat".to_string(), 1), ("pip".to_string(), 1)]);
}

#[test]
fn default_settings() {
    let s = AppSettings::default();
    assert!(s.active_desklings.is_empty());
    assert_eq!(s.active_deskling, "");
    assert_eq!(s.locale, None);
    assert_eq!(s.theme, Theme::System);
    assert_eq!(Theme::default(), Theme::System);
}

#[test]
fn migration_moves_the_single_deskling() {
    let mut s = AppSettings::default();
    s.active_deskling = "pip".to_string();
    s.migrate();
    assert_eq!(s.active_deskling, "");
    assert_eq!(keys(&s.active_desklings), vec![("pip".to_string(), 1)]);

    // An existing entry keeps its quantity.
    let mut s = AppSettings::default();
    s.active_desklings.insert("pip".to_string(), 3);
    s.active_deskling = "pip".to_string();
    s.migrate();
    assert_eq!(keys(&s.active_desklings), vec![("pip".to_string(), 3)]);

    // Migrating twice changes nothing more.
    s.migrate();
    assert_eq!(keys(&s.active_desklings), vec![("pip".to_string(), 3)]);
}

#[test]
fn quantity_edits() {
    let mut s = AppSettings::default();
    s.set_deskling_quantity("pip", 2);
    s.set_deskling_quantity("cat", 1);
    assert_eq!(keys(&s.active_desklings), vec![("cat".to_string(), 1), ("pip".to_string(), 2)]);
    s.set_deskling_quantity("pip", 0);
    assert_eq!(keys(&s.active_desklings), vec![("cat".to_string(), 1)]);
    s.disable_deskling("cat");
    assert!(s.active_desklings.is_empty());
    s.set_locale(Some("de".to_string()));
    assert_eq!(s.locale.as_deref(), Some("de"));
    s.set_theme(Theme::Dark);
    assert_eq!(s.theme, Theme::Dark);
}

#[test]
fn snapshot_copies_everything() {
    let mut s = AppSettings::default();
    s.set_deskling_quantity("pip", 2);
    s.set_locale(Some("fr".to_string()));
    s.set_theme(Theme::Light);
    let c = s.snapshot();
    assert_eq!(keys(&c.active_desklings), vec![("pip".to_string(), 2)]);
    assert_eq!(c.locale.as_deref(), Some("fr"));
    assert_eq!(c.theme, Theme::Light);
}

#[test]
fn store_applies_edits() {
    let mut store = SettingsStore::new("/tmp/settings.toml".to_string(), AppSettings::default());
    assert_eq!(store.path(), "/tmp/settings.toml");
    store.set_deskling_quantity("pip", 3);
    store.set_theme(Theme::Dark);
    store.set_locale(None);
    let snap = store.snapshot();
    assert_eq!(keys(&snap.active_desklings), vec![("pip".to_string(), 3)]);
    assert_eq!(snap.theme, Theme::Dark);
    store.disable_deskling("pip");
    assert!(store.snapshot().active_desklings.is_empty());
}
