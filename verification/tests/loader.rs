use desklings::loader::{first_installed_slug, preview_sprite, sort_summaries, DesklingSummary};

fn summary(slug: &str, name: &str) -> DesklingSummary {
    DesklingSummary { slug: slug.to_string(), name: name.to_string(), size: 64, preview: None }
}

#[test]
fn summaries_sort_by_name_regardless_of_case() {
    let found = vec![summary("z", "zebra"), summary("b", "Bee"), summary("a", "ant"), summary("c", "CAT")];
    let slugs: Vec<String> = sort_summaries(found).into_iter().map(|s| s.slug).collect();
    assert_eq!(slugs, vec!["a", "b", "c", "z"]);
}

#[test]
fn equal_names_keep_the_order_found() {
    let found = vec![summary("x", "Pip"), summary("y", "pip"), summary("w", "PIP"), summary("a", "Ant")];
    let slugs: Vec<String> = sort_summaries(found).into_iter().map(|s| s.slug).collect();
    assert_eq!(slugs, vec!["a", "x", "y", "w"]);
}

#[test]
fn non_ascii_names_lowercase_too() {
    let found = vec![summary("o", "Ölfisch"), summary("a", "älg"), summary("z", "zed")];
    let slugs: Vec<String> = sort_summaries(found).into_iter().map(|s| s.slug).collect();
    // 'z' < 'ä' < 'ö' in code point order.
    assert_eq!(slugs, vec!["z", "a", "o"]);
}

#[test]
fn first_installed_is_the_first_listed() {
    assert_eq!(first_installed_slug(vec![]), None);
    let found = vec![summary("zz", "Zed"), summary("aa", "alpha")];
    assert_eq!(first_installed_slug(found), Some("aa".to_string()));
}

fn names(v: &[&str]) -> Vec<String> {
    v.iter().map(|s| s.to_string()).collect()
}

#[test]
fn preview_prefers_idle() {
    assert_eq!(preview_sprite(&names(&["walk.png", "Idle.PNG", "a.png"])), Some("Idle.PNG".to_string()));
    assert_eq!(preview_sprite(&names(&["idle.png", "IDLE.png"])), Some("IDLE.png".to_string()));
}

#[test]
fn preview_falls_back_to_the_first_png() {
    assert_eq!(preview_sprite(&names(&["walk.png", "fall.Png", "notes.txt"])), Some("fall.Png".to_string()));
    assert_eq!(preview_sprite(&names(&["idle.gif", "b.png"])), Some("b.png".to_string()));
}

#[test]
fn preview_ignores_names_without_png_extension() {
    assert_eq!(preview_sprite(&names(&[".png", "png", "idle", "idle.png.bak", ".."])), None);
    assert_eq!(preview_sprite(&names(&[])), None);
    assert_eq!(preview_sprite(&names(&[".idle.png"])), Some(".idle.png".to_string()));
    assert_eq!(preview_sprite(&names(&["x.y.png"])), Some("x.y.png".to_string()));
}
