use nowplaying_skin::layout::{load_layout, LayoutDocument};
use nowplaying_skin::skin::{
    default_skin_root, initial_skin_index, is_toml_path_text, layout_index_from_set, resolve_skin,
    sort_skins, SkinInfo, SkinManager,
};
use nowplaying_skin::layout::decimal_text;
use nowplaying_skin::theme::{builtin_theme_document, DocumentInput};

fn info(id: &str, name: &str) -> SkinInfo {
    SkinInfo { id: id.to_string(), display_name: name.to_string(), path: format!("skins/{id}") }
}

fn manager() -> SkinManager {
    let skins = vec![info("a", "Alpha"), info("b", "Beta")];
    let (theme, layout) = resolve_skin(builtin_theme_document(), DocumentInput::Missing, DocumentInput::Missing, &"a".to_string(), &vec![]);
    SkinManager::new(default_skin_root(), skins, 0, theme, layout)
}

#[test]
fn root_and_numbers() {
    assert_eq!(default_skin_root(), "skins");
    assert_eq!(decimal_text(0), "0");
    assert_eq!(decimal_text(1207), "1207");
}

#[test]
fn manager_reports_current_state() {
    let m = manager();
    assert_eq!(m.current_skin_display_name(), "Alpha");
    assert_eq!(m.current_skin_id().map(|s| s.as_str()), Some("a"));
    assert_eq!(m.current_layout_id(), "art_left");
    assert_eq!(m.current_layout_display_name(), "Artwork Left");
    assert_eq!(m.current_layout_variant().id, "art_left");
    assert_eq!(m.layout_options().len(), 3);
    assert_eq!(m.warnings().len(), 2);
}

#[test]
fn set_layout_switches_only_to_known_ids() {
    let mut m = manager();
    assert!(m.set_layout(&"art_top".to_string()));
    assert_eq!(m.current_layout_id(), "art_top");
    assert!(!m.set_layout(&"nope".to_string()));
    assert_eq!(m.current_layout_id(), "art_top");
}

#[test]
fn switching_skin_keeps_layout_choice() {
    let mut m = manager();
    m.set_layout(&"art_right".to_string());
    let i = m.find_skin(&"Beta".to_string()).unwrap();
    assert_eq!(i, 1);
    let (theme, layout) = resolve_skin(builtin_theme_document(), DocumentInput::Missing, DocumentInput::Missing, &"b".to_string(), &vec![]);
    m.apply_skin(i, theme, layout);
    assert_eq!(m.current_skin_id().map(|s| s.as_str()), Some("b"));
    assert_eq!(m.current_layout_id(), "art_right");
    assert!(m.find_skin(&"Gamma".to_string()).is_none());
}

#[test]
fn layout_index_prefers_then_defaults() {
    let set = load_layout(DocumentInput::Parsed(LayoutDocument::default()), &"s".to_string()).layout;
    assert_eq!(layout_index_from_set(&set, Some(&"art_top".to_string())), 2);
    assert_eq!(layout_index_from_set(&set, Some(&"zzz".to_string())), 0);
    assert_eq!(layout_index_from_set(&set, None), 0);
}

#[test]
fn initial_skin_by_id_or_name() {
    let skins = vec![info("a", "Alpha"), info("b", "Beta")];
    assert_eq!(initial_skin_index(&skins, Some(&"Beta".to_string())), 1);
    assert_eq!(initial_skin_index(&skins, Some(&"b".to_string())), 1);
    assert_eq!(initial_skin_index(&skins, Some(&"x".to_string())), 0);
    assert_eq!(initial_skin_index(&skins, None), 0);
}

#[test]
fn hot_reload_only_for_toml_changes() {
    let mut m = manager();
    let changed = vec!["skins/a/assets/x.png".to_string(), "skins/a/Theme.TOML".to_string()];
    assert_eq!(m.reload_target(&changed), None);
    m.enable_hot_reload();
    assert!(m.hot_reload_enabled());
    assert_eq!(m.reload_target(&changed), Some(0));
    assert_eq!(m.reload_target(&vec!["skins/a/assets/x.png".to_string()]), None);
    m.disable_hot_reload();
    assert_eq!(m.reload_target(&changed), None);
    assert!(is_toml_path_text(&"layout.toml".to_string()));
    assert!(!is_toml_path_text(&"dir/.toml".to_string()));
    assert!(!is_toml_path_text(&"x.toml/readme".to_string()));
}

#[test]
fn skins_are_ordered_by_display_name() {
    let sorted = sort_skins(vec![info("b", "Beta"), info("x", "alpha"), info("a", "Alpha"), info("c", "Beta")]);
    let names: Vec<(&str, &str)> =
        sorted.iter().map(|s| (s.id.as_str(), s.display_name.as_str())).collect();
    assert_eq!(names[0], ("a", "Alpha"));
    assert_eq!(names[1].1, "Beta");
    assert_eq!(names[2].1, "Beta");
    assert_eq!(names[3], ("x", "alpha"));
    assert!(sort_skins(vec![]).is_empty());
}
