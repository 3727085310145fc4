use pictura::config::Config;
use pictura::gallery::Picture;
use pictura::render::{is_dark, name_le, render_input, title_case};
use pictura::root::{decides, get_pictura_root_dir, is_marker, Probe, RootError};

fn record(name: &str, category: Option<&str>, ext: &str, id: u32) -> Picture {
    Picture {
        name: name.to_string(),
        extension: ext.to_string(),
        category: category.map(|c| c.to_string()),
        width: 1,
        height: 1,
        color: "000000".to_string(),
        id,
        compressed: None,
        medium: None,
        original: None,
    }
}

#[test]
fn render_input_sorts_and_collects() {
    let pics = vec![
        record("zebra", Some("animals"), "jpg", 1),
        record("apple", None, "png", 2),
        record("mango", Some("fruit"), "jpg", 3),
        record("banana", Some("fruit"), "jpeg", 4),
    ];
    let r = render_input(pics);
    let names: Vec<&str> = r.pictures.iter().map(|p| p.name.as_str()).collect();
    assert_eq!(names, vec!["apple", "banana", "mango", "zebra"]);
    let mut cats = r.categories.clone();
    cats.sort();
    assert_eq!(cats, vec!["animals".to_string(), "fruit".to_string()]);
    let mut exts = r.extensions.clone();
    exts.sort();
    assert_eq!(exts, vec!["jpeg".to_string(), "jpg".to_string(), "png".to_string()]);
}

#[test]
fn render_input_of_nothing() {
    let r = render_input(vec![]);
    assert!(r.pictures.is_empty() && r.categories.is_empty() && r.extensions.is_empty());
}

#[test]
fn name_order_is_string_order() {
    let cases = ["", "a", "B", "ab", "b", "é", "z", "aa"];
    for x in cases {
        for y in cases {
            assert_eq!(name_le(&x.to_string(), &y.to_string()), x <= y, "{} {}", x, y);
        }
    }
}

#[test]
fn dark_and_light_colors() {
    assert!(is_dark("000000"));
    assert!(is_dark("#000000"));
    assert!(!is_dark("ffffff"));
    assert!(!is_dark("#FFFFFF"));
    assert!(is_dark("ff0000"));
    assert!(is_dark("00ff00"));
    assert!(!is_dark("ffff00"));
    assert!(is_dark("0000ff"));
    assert!(is_dark("bababa"));
    assert!(!is_dark("bbbbbb"));
}

#[test]
fn title_case_splits_and_capitalizes() {
    assert_eq!(title_case("hello-world_foo bar"), "Hello World Foo Bar");
    assert_eq!(title_case("nature"), "Nature");
    assert_eq!(title_case(""), "");
    assert_eq!(title_case("a--b"), "A  B");
}

#[test]
fn root_is_first_marked_ancestor() {
    let cands = vec!["/a/b/c".to_string(), "/a/b".to_string(), "/a".to_string()];
    let probes = vec![Probe::NoMarker, Probe::Marker];
    assert_eq!(get_pictura_root_dir(&cands, &probes), Ok("/a/b".to_string()));
}

#[test]
fn unreadable_ancestor_is_skipped() {
    let cands = vec!["/a/b".to_string(), "/a".to_string()];
    let probes = vec![Probe::Unreadable, Probe::Marker];
    assert_eq!(get_pictura_root_dir(&cands, &probes), Ok("/a".to_string()));
}

#[test]
fn denied_ancestor_stops_search() {
    let cands = vec!["/a/b".to_string(), "/a".to_string()];
    let probes = vec![Probe::Denied, Probe::Marker];
    assert_eq!(get_pictura_root_dir(&cands, &probes), Err(RootError::PermissionDenied));
}

#[test]
fn no_marked_ancestor_is_not_found() {
    let cands = vec!["/a/b".to_string(), "/a".to_string()];
    let probes = vec![Probe::NoMarker, Probe::Unreadable];
    assert_eq!(get_pictura_root_dir(&cands, &probes), Err(RootError::NotFound));
    assert_eq!(get_pictura_root_dir(&vec![], &vec![]), Err(RootError::NotFound));
}

#[test]
fn marker_and_decisive_probes() {
    assert!(is_marker(".pictura"));
    assert!(!is_marker("pictura"));
    assert!(decides(Probe::Marker) && decides(Probe::Denied));
    assert!(!decides(Probe::NoMarker) && !decides(Probe::Unreadable));
}

#[test]
fn default_config_names_user() {
    let c = Config::default_for(Some("alice"));
    assert_eq!(c.title, "Alice's Wallpapers");
    assert!(!c.dark_theme_support && !c.animations && c.remote.is_none());
    assert_eq!(Config::default_for(None).title, "Anon's Wallpapers");
    assert_eq!(Config::default_for(Some("")).title, "'s Wallpapers");
}
