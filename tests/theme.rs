use nowplaying_skin::color::Rgba;
use nowplaying_skin::document::{
    merge_documents, AreaConfig, BackgroundFieldConfig, BackgroundTableConfig, GradientDirection,
    OverlayImageEntry, ThemeDocument,
};
use nowplaying_skin::theme::{
    builtin_theme_document, load_theme, resolve_document, AreaBackground, DocumentInput,
    SliderThumb,
};
use nowplaying_skin::tokens::Entry;

fn rgba(r: u8, g: u8, b: u8, a: u8) -> Rgba {
    Rgba { r, g, b, a }
}

fn entry(k: &str, v: &str) -> Entry {
    Entry { key: k.to_string(), value: v.to_string() }
}

fn some(s: &str) -> Option<String> {
    Some(s.to_string())
}

#[test]
fn builtin_theme_resolves_concretely() {
    let doc = builtin_theme_document();
    let mut w = Vec::new();
    let t = resolve_document(&doc, &"skin".to_string(), &vec![], &mut w);
    assert!(w.is_empty(), "{:?}", w);
    assert_eq!(t.name, "builtin-windows");
    assert_eq!(t.display_name, "Windows 11");
    assert_eq!(t.engine_version, "1");
    let c = &t.components;
    assert_eq!(c.root.background, AreaBackground::Solid(rgba(0x15, 0x16, 0x1b, 255)));
    assert_eq!(c.root.background_color(), rgba(0x15, 0x16, 0x1b, 255));
    assert_eq!(c.root.border_radius, 18000);
    assert!(!c.root.show_border);
    assert_eq!(c.button.border_color, rgba(76, 141, 255, 115));
    assert_eq!(c.button.border_radius, 26000);
    assert_eq!(c.button_icon.size_scale, 1000);
    assert_eq!(c.text_title.size, 20000);
    assert_eq!(c.text_body.color, rgba(0x9e, 0xa7, 0xb8, 255));
    match &c.slider.thumb {
        SliderThumb::Circle { color, radius } => {
            assert_eq!(*color, rgba(0x4c, 0x8d, 0xff, 255));
            assert_eq!(*radius, 10000);
        }
        other => panic!("unexpected thumb {:?}", other),
    }
    assert!(t.use_gradient);
    assert_eq!(t.vars.len(), 2);
}

#[test]
fn resolving_twice_gives_identical_theme() {
    let doc = builtin_theme_document();
    let mut w1 = Vec::new();
    let mut w2 = Vec::new();
    let a = resolve_document(&doc, &"s".to_string(), &vec![], &mut w1);
    let b = resolve_document(&doc, &"s".to_string(), &vec![], &mut w2);
    assert_eq!(format!("{:?}", a), format!("{:?}", b));
    assert_eq!(w1, w2);
}

#[test]
fn var_cycle_warns() {
    let mut doc = ThemeDocument::default();
    doc.vars = vec![entry("a", "{vars.b}"), entry("b", "{vars.a}")];
    let mut w = Vec::new();
    let t = resolve_document(&doc, &"s".to_string(), &vec![], &mut w);
    assert!(t.vars.is_empty());
    assert!(w.iter().any(|m| m.contains("could not be parsed as number")));
}

#[test]
fn gradient_with_equal_ends_collapses() {
    let mut doc = ThemeDocument::default();
    doc.colors = vec![entry("x", "#112233")];
    let mut table = BackgroundTableConfig::default();
    table.kind = some("gradient");
    table.start = some("#112233");
    table.end = some("{colors.x}");
    doc.components.root.background = Some(BackgroundFieldConfig::Table(table));
    let mut w = Vec::new();
    let t = resolve_document(&doc, &"s".to_string(), &vec![], &mut w);
    assert_eq!(t.components.root.background, AreaBackground::Solid(rgba(17, 34, 51, 255)));
}

#[test]
fn gradient_with_different_ends_stays() {
    let mut doc = ThemeDocument::default();
    let mut table = BackgroundTableConfig::default();
    table.start = some("#000000");
    table.end = some("#FFFFFF");
    table.direction = GradientDirection::Horizontal;
    doc.components.panel.background = Some(BackgroundFieldConfig::Table(table));
    let mut w = Vec::new();
    let t = resolve_document(&doc, &"s".to_string(), &vec![], &mut w);
    match t.components.panel.background {
        AreaBackground::Gradient(g) => {
            assert_eq!(g.start, rgba(0, 0, 0, 255));
            assert_eq!(g.end, rgba(255, 255, 255, 255));
            assert_eq!(g.direction, GradientDirection::Horizontal);
        }
        other => panic!("unexpected {:?}", other),
    }
}

#[test]
fn area_defaults_and_border_derivation() {
    let mut doc = ThemeDocument::default();
    doc.components.root = AreaConfig {
        background: Some(BackgroundFieldConfig::Simple("nonsense".to_string())),
        foreground: None,
        border_color: some("#FF0000"),
        border_radius: some("x"),
        border_width: some("2"),
        show_border: None,
    };
    let mut w = Vec::new();
    let t = resolve_document(&doc, &"s".to_string(), &vec![], &mut w);
    let root = t.components.root;
    assert_eq!(root.background, AreaBackground::Solid(rgba(0, 0, 0, 0)));
    assert_eq!(root.foreground, rgba(255, 255, 255, 255));
    assert_eq!(root.border_radius, 8000);
    assert_eq!(root.border_width, 2000);
    assert!(root.show_border);
    assert_eq!(t.components.panel.background, AreaBackground::Solid(rgba(32, 32, 32, 255)));
    assert!(w.len() >= 2);
}

#[test]
fn overlay_wins_where_present() {
    let mut base = builtin_theme_document();
    let mut overlay = ThemeDocument::default();
    overlay.meta.engine = None;
    overlay.colors = vec![entry("accent", "#000001"), entry("extra", "#000002")];
    overlay.components.root.foreground = some("#ABCDEF");
    merge_documents(&mut base, overlay);
    assert_eq!(base.meta.name.as_deref(), Some("builtin-windows"));
    assert_eq!(base.colors.len(), 11);
    assert_eq!(base.colors[2].value, "#000001");
    assert_eq!(base.colors[10].key, "extra");
    assert_eq!(base.components.root.foreground.as_deref(), Some("#ABCDEF"));
    assert_eq!(base.components.root.background.is_some(), true);
    let mut w = Vec::new();
    let t = resolve_document(&base, &"s".to_string(), &vec![], &mut w);
    assert_eq!(t.components.button.background, rgba(0, 0, 1, 255));
    assert_eq!(t.components.root.foreground, rgba(0xAB, 0xCD, 0xEF, 255));
}

#[test]
fn version_mismatch_discards_overlay() {
    let mut user = ThemeDocument::default();
    user.meta.engine = some("2");
    user.meta.name = some("mine");
    let r = load_theme(builtin_theme_document(), DocumentInput::Parsed(user), &"dir".to_string(), &vec![]);
    assert_eq!(r.theme.name, "builtin-windows");
    assert!(r.warnings.iter().any(|m| m.contains("does not match")));
}

#[test]
fn missing_version_still_merges() {
    let mut user = ThemeDocument::default();
    user.meta.engine = None;
    user.meta.name = some("mine");
    user.meta.display_name = None;
    let r = load_theme(builtin_theme_document(), DocumentInput::Parsed(user), &"dir".to_string(), &vec![]);
    assert_eq!(r.theme.name, "mine");
    assert!(r.warnings.iter().any(|m| m.contains("meta.engine missing")));
}

#[test]
fn missing_or_broken_theme_uses_builtin() {
    let r = load_theme(builtin_theme_document(), DocumentInput::Missing, &"dir".to_string(), &vec![]);
    assert_eq!(r.theme.display_name, "Windows 11");
    assert_eq!(r.warnings.len(), 1);
    let r2 = load_theme(
        builtin_theme_document(),
        DocumentInput::Invalid("garbage".to_string()),
        &"dir".to_string(),
        &vec![],
    );
    assert_eq!(r2.theme.display_name, "Windows 11");
    assert!(r2.warnings[0].contains("garbage"));
}

#[test]
fn slider_image_needs_existing_asset() {
    let mut doc = builtin_theme_document();
    doc.components.slider.thumb_shape = some("Image");
    doc.components.slider.thumb_image = some("knob.png");
    doc.components.slider.thumb_size = some("30");
    let mut w = Vec::new();
    let t = resolve_document(&doc, &"s".to_string(), &vec!["knob.png".to_string()], &mut w);
    match &t.components.slider.thumb {
        SliderThumb::Image { path, size, .. } => {
            assert_eq!(path, "knob.png");
            assert_eq!(*size, 30000);
        }
        other => panic!("unexpected {:?}", other),
    }
    let mut w2 = Vec::new();
    let t2 = resolve_document(&doc, &"s".to_string(), &vec![], &mut w2);
    match &t2.components.slider.thumb {
        SliderThumb::Circle { radius, .. } => assert_eq!(*radius, 10000),
        other => panic!("unexpected {:?}", other),
    }
    assert!(w2.iter().any(|m| m.contains("knob.png")));
}

#[test]
fn thumbnail_overlays_keep_order_and_skip_missing() {
    let mut doc = builtin_theme_document();
    doc.components.thumbnail.overlay_images = Some(vec![
        OverlayImageEntry::Path(" a.png ".to_string()),
        OverlayImageEntry::Path("missing.png".to_string()),
        OverlayImageEntry::Detailed {
            path: "b.png".to_string(),
            offset_x: some("3"),
            offset_y: some("bad"),
        },
    ]);
    doc.components.thumbnail.border_image = some("frame.png");
    doc.components.thumbnail.stroke_width = some("-4");
    let assets = vec!["a.png".to_string(), "b.png".to_string(), "frame.png".to_string()];
    let mut w = Vec::new();
    let t = resolve_document(&doc, &"s".to_string(), &assets, &mut w);
    let th = &t.components.thumbnail;
    assert_eq!(th.stroke_width, 0);
    let paths: Vec<&str> = th.overlays.iter().map(|o| o.path.as_str()).collect();
    assert_eq!(paths, vec!["a.png", "b.png", "frame.png"]);
    assert_eq!(th.overlays[1].offset_x, 3000);
    assert_eq!(th.overlays[1].offset_y, 0);
    assert!(w.iter().any(|m| m.contains("missing.png")));
}

#[test]
fn unnamed_thumb_image_and_bad_colors_warn() {
    let mut doc = builtin_theme_document();
    doc.components.slider.thumb_shape = some("image");
    doc.colors.push(entry("broken", "nope"));
    let mut bg = BackgroundTableConfig::default();
    bg.kind = some(" Plaid ");
    doc.components.panel.background = Some(BackgroundFieldConfig::Table(bg));
    let mut w = Vec::new();
    let t = resolve_document(&doc, &"s".to_string(), &vec![], &mut w);
    assert!(w.iter().any(|m| m == "Slider thumb image requested but no image provided"));
    assert!(w.iter().any(|m| m == "broken: not a color; using fallback #FFFFFF"));
    assert!(w.iter().any(|m| m == "Unknown background type 'Plaid'"));
    assert!(t.colors.iter().any(|c| c.name == "broken" && c.color == rgba(255, 255, 255, 255)));
}
