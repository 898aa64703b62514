use nowplaying_skin::layout::{
    resolve_container, load_layout, parse_align, parse_component, resolve_document, ComponentConfig, ContainerConfig,
    LayoutAlign, LayoutComponent, LayoutDocument, LayoutNode, LayoutNodeConfig,
    LayoutVariantConfig, SpacerConfig,
};
use nowplaying_skin::theme::DocumentInput;

fn component(id: &str) -> LayoutNodeConfig {
    LayoutNodeConfig::Component(ComponentConfig { id: Some(id.to_string()), visible: None, params: None })
}

fn hidden(id: &str) -> LayoutNodeConfig {
    LayoutNodeConfig::Component(ComponentConfig {
        id: Some(id.to_string()),
        visible: Some(false),
        params: None,
    })
}

fn row(children: Vec<LayoutNodeConfig>) -> LayoutNodeConfig {
    let mut c = ContainerConfig::default();
    c.children = children;
    LayoutNodeConfig::Row(c)
}

fn variant(id: &str, name: Option<&str>, structure: LayoutNodeConfig) -> LayoutVariantConfig {
    LayoutVariantConfig {
        id: Some(id.to_string()),
        display_name: name.map(|s| s.to_string()),
        structure: Some(structure),
    }
}

fn doc(default: Option<&str>, variants: Vec<LayoutVariantConfig>) -> LayoutDocument {
    let mut d = LayoutDocument::default();
    d.layout.default = default.map(|s| s.to_string());
    d.layout.variants = variants;
    d
}

#[test]
fn duplicate_variant_id_keeps_first() {
    let d = doc(
        None,
        vec![
            variant("main", Some("First"), row(vec![component("title")])),
            variant("main", Some("Second"), row(vec![component("timeline")])),
        ],
    );
    let mut w = Vec::new();
    let set = resolve_document(&d, &mut w);
    assert_eq!(set.variants.len(), 1);
    assert_eq!(set.variants[0].id, "main");
    assert_eq!(set.variants[0].display_name, "First");
    assert!(w.iter().any(|m| m == "Duplicate layout variant id 'main'; skipping"));
}

#[test]
fn container_without_visible_children_is_dropped() {
    let d = doc(
        None,
        vec![
            variant("empty", None, row(vec![hidden("title")])),
            variant("ok", None, row(vec![component("title")])),
        ],
    );
    let mut w = Vec::new();
    let set = resolve_document(&d, &mut w);
    assert_eq!(set.variants.len(), 1);
    assert_eq!(set.variants[0].id, "ok");
    assert!(w.iter().any(|m| m == "variant 'empty' has no visible children"));
}

#[test]
fn unknown_default_falls_back_to_first() {
    let d = doc(
        Some("nonexistent"),
        vec![variant("a", None, component("title")), variant("b", None, component("title"))],
    );
    let mut w = Vec::new();
    let set = resolve_document(&d, &mut w);
    assert_eq!(set.default_variant, "a");
    let d2 = doc(
        Some(" b "),
        vec![variant("a", None, component("title")), variant("b", None, component("title"))],
    );
    let set2 = resolve_document(&d2, &mut w);
    assert_eq!(set2.default_variant, "b");
}

#[test]
fn no_usable_variant_uses_builtin() {
    let d = doc(None, vec![variant("x", None, component("no_such_slot"))]);
    let mut w = Vec::new();
    let set = resolve_document(&d, &mut w);
    let ids: Vec<&str> = set.variants.iter().map(|v| v.id.as_str()).collect();
    assert_eq!(ids, vec!["art_left", "art_right", "art_top"]);
    assert_eq!(set.default_variant, "art_left");
    assert!(w.iter().any(|m| m.contains("no_such_slot")));
}

#[test]
fn layout_inputs_are_total() {
    for input in [
        DocumentInput::Missing,
        DocumentInput::Invalid("binary garbage".to_string()),
        DocumentInput::Parsed(LayoutDocument::default()),
    ] {
        let r = load_layout(input, &"skin".to_string());
        assert!(r.layout.variants.len() >= 1);
        assert!(!r.warnings.is_empty() || r.layout.variants.len() == 3);
    }
    let mut mismatched = doc(None, vec![variant("mine", None, component("title"))]);
    mismatched.meta.engine = Some("7".to_string());
    let r = load_layout(DocumentInput::Parsed(mismatched), &"skin".to_string());
    assert_eq!(r.layout.variants[0].id, "art_left");
    assert!(r.warnings.iter().any(|m| m.contains("does not match")));
}

#[test]
fn unversioned_layout_is_used_with_warning() {
    let mut d = doc(None, vec![variant("mine", None, component("title"))]);
    d.meta.engine = None;
    let r = load_layout(DocumentInput::Parsed(d), &"skin".to_string());
    assert_eq!(r.layout.variants.len(), 1);
    assert_eq!(r.layout.variants[0].id, "mine");
    assert_eq!(r.layout.variants[0].display_name, "mine");
    assert_eq!(r.warnings.len(), 1);
}

#[test]
fn blank_id_gets_positional_name() {
    let d = doc(
        None,
        vec![
            LayoutVariantConfig { id: None, display_name: None, structure: None },
            LayoutVariantConfig { id: Some("  ".to_string()), display_name: None, structure: Some(component("title")) },
        ],
    );
    let mut w = Vec::new();
    let set = resolve_document(&d, &mut w);
    assert_eq!(set.variants[0].id, "variant_1");
    assert!(w.iter().any(|m| m.contains("missing structure")));
}

#[test]
fn node_fields_and_spacers() {
    let mut c = ContainerConfig::default();
    c.align = Some(" Bottom ".to_string());
    c.spacing = Some(-3);
    c.children = vec![
        LayoutNodeConfig::Spacer(SpacerConfig { size: Some(-5) }),
        LayoutNodeConfig::Spacer(SpacerConfig::default()),
        component("ARTWORK"),
    ];
    let d = doc(None, vec![variant("v", None, LayoutNodeConfig::Column(c))]);
    let mut w = Vec::new();
    let set = resolve_document(&d, &mut w);
    match &set.variants[0].root {
        LayoutNode::Column(n) => {
            assert_eq!(n.align, LayoutAlign::End);
            assert_eq!(n.spacing, 0);
            assert!(!n.fill);
            assert_eq!(n.children.len(), 2);
            match &n.children[0] {
                LayoutNode::Spacer(s) => assert_eq!(s.size, 8000),
                other => panic!("unexpected {:?}", other),
            }
            match &n.children[1] {
                LayoutNode::Component(k) => assert_eq!(k.component, LayoutComponent::Thumbnail),
                other => panic!("unexpected {:?}", other),
            }
        }
        other => panic!("unexpected {:?}", other),
    }
}

#[test]
fn alias_tables() {
    assert_eq!(parse_align("MIDDLE"), Some(LayoutAlign::Center));
    assert_eq!(parse_align("left"), Some(LayoutAlign::Start));
    assert_eq!(parse_align("diagonal"), None);
    assert_eq!(parse_component(" Button.Play "), Some(LayoutComponent::PlaybackButtonPlayPause));
    assert_eq!(parse_component("controls"), Some(LayoutComponent::PlaybackControlsGroup));
    assert_eq!(parse_component("error"), Some(LayoutComponent::NowPlayingError));
    assert_eq!(parse_component("stop"), Some(LayoutComponent::PlaybackButtonStop));
    assert_eq!(parse_component("nothing"), None);
}

#[test]
fn emptied_row_adds_exactly_one_warning() {
    let mut c = ContainerConfig::default();
    c.children = vec![hidden("title")];
    let mut w = vec!["before".to_string()];
    let r = resolve_container(&c, &mut w, &"variant 'v'".to_string());
    assert!(r.is_none());
    assert_eq!(w, vec!["before".to_string(), "variant 'v' has no visible children".to_string()]);
}

#[test]
fn empty_variant_list_gives_builtin_set() {
    let d = doc(Some("art_top"), vec![]);
    let mut w = Vec::new();
    let set = resolve_document(&d, &mut w);
    let ids: Vec<&str> = set.variants.iter().map(|v| v.id.as_str()).collect();
    assert_eq!(ids, vec!["art_left", "art_right", "art_top"]);
    assert_eq!(set.default_variant, "art_left");
    assert!(w.is_empty());
}

#[test]
fn missing_layout_file_is_reported_by_skin() {
    let r = load_layout(DocumentInput::Missing, &"aurora".to_string());
    assert_eq!(r.warnings[0], "Skin folder aurora missing layout.toml; falling back to defaults");
    let ids: Vec<&str> = r.layout.variants.iter().map(|v| v.id.as_str()).collect();
    assert_eq!(ids, vec!["art_left", "art_right", "art_top"]);
    let again = load_layout(DocumentInput::Missing, &"aurora".to_string());
    assert_eq!(format!("{:?}", r.layout), format!("{:?}", again.layout));
}
