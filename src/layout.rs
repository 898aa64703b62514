//! Layout resolution: a layout document becomes a set of named variants, each
//! a pruned tree of containers, components and spacers.

use vstd::prelude::*;
use vstd::string::*;
use crate::text::{is_word, is_ws, matches_word, push_char, trim_end, trim_start, trim_str, trimmed, trimmed_chars};
use crate::theme::DocumentInput;
use crate::tokens::{
    Entry, copy_entries, extends, has_message, lemma_has_message_kept, table_of, texts,
};

verus! {

broadcast use {vstd::seq_lib::group_seq_properties, vstd::std_specs::vec::group_vec_axioms};

#[derive(Clone, Copy, Debug, PartialEq, Eq, Structural)]
pub enum LayoutAlign {
    Start,
    Center,
    End,
}

/// The closed set of renderable slots.
#[derive(Clone, Copy, Debug, PartialEq, Eq, Hash, Structural)]
pub enum LayoutComponent {
    Thumbnail,
    Title,
    MetadataGroup,
    MetadataArtist,
    MetadataAlbum,
    MetadataState,
    PlaybackControlsGroup,
    PlaybackButtonPrevious,
    PlaybackButtonPlayPause,
    PlaybackButtonNext,
    PlaybackButtonStop,
    Timeline,
    SkinWarnings,
    SkinError,
    NowPlayingError,
    ThumbnailError,
}

/// A slot with free-form parameters for the renderer.
#[derive(Clone, Debug)]
pub struct ComponentNode {
    pub component: LayoutComponent,
    pub visible: bool,
    pub params: Vec<Entry>,
}

/// Empty space; `size` is in thousandths.
#[derive(Clone, Copy, Debug, PartialEq, Eq, Structural)]
pub struct SpacerNode {
    pub size: i64,
}

/// A row or column; `spacing` is in thousandths.
#[derive(Debug)]
pub struct ContainerNode {
    pub spacing: i64,
    pub align: LayoutAlign,
    pub fill: bool,
    pub children: Vec<LayoutNode>,
}

#[derive(Debug)]
pub enum LayoutNode {
    Row(ContainerNode),
    Column(ContainerNode),
    Component(ComponentNode),
    Spacer(SpacerNode),
}

#[derive(Debug)]
pub struct ContainerConfig {
    pub align: Option<String>,
    /// In thousandths.
    pub spacing: Option<i64>,
    pub fill: Option<bool>,
    pub visible: Option<bool>,
    pub children: Vec<LayoutNodeConfig>,
}

#[derive(Clone, Debug)]
pub struct ComponentConfig {
    pub id: Option<String>,
    pub visible: Option<bool>,
    pub params: Option<Vec<Entry>>,
}

#[derive(Clone, Copy, Debug)]
pub struct SpacerConfig {
    /// In thousandths.
    pub size: Option<i64>,
}

#[derive(Debug)]
pub enum LayoutNodeConfig {
    Row(ContainerConfig),
    Column(ContainerConfig),
    Component(ComponentConfig),
    Spacer(SpacerConfig),
}

pub const DEFAULT_SPACING: i64 = 8000;

pub const DEFAULT_SPACER_SIZE: i64 = 8000;

/// Alignment synonyms, matched on the trimmed text in any ASCII case.
pub open spec fn align_spec(v: Seq<char>) -> Option<LayoutAlign> {
    let t = trimmed(v);
    if matches_word(t, "start"@) || matches_word(t, "top"@) || matches_word(t, "left"@) {
        Some(LayoutAlign::Start)
    } else if matches_word(t, "center"@) || matches_word(t, "middle"@) {
        Some(LayoutAlign::Center)
    } else if matches_word(t, "end"@) || matches_word(t, "bottom"@) || matches_word(t, "right"@) {
        Some(LayoutAlign::End)
    } else {
        None
    }
}

pub fn parse_align(value: &str) -> (r: Option<LayoutAlign>)
    ensures
        r == align_spec(value@),
{
    let t = trimmed_chars(value);
    if is_word(&t, "start") || is_word(&t, "top") || is_word(&t, "left") {
        Some(LayoutAlign::Start)
    } else if is_word(&t, "center") || is_word(&t, "middle") {
        Some(LayoutAlign::Center)
    } else if is_word(&t, "end") || is_word(&t, "bottom") || is_word(&t, "right") {
        Some(LayoutAlign::End)
    } else {
        None
    }
}

/// The alias table of component ids, matched on the trimmed text in any
/// ASCII case.
pub open spec fn component_spec(v: Seq<char>) -> Option<LayoutComponent> {
    let t = trimmed(v);
    if matches_word(t, "thumbnail"@) || matches_word(t, "artwork"@) {
        Some(LayoutComponent::Thumbnail)
    } else if matches_word(t, "title"@) {
        Some(LayoutComponent::Title)
    } else if matches_word(t, "metadata"@) || matches_word(t, "metadata_group"@) || matches_word(
        t,
        "details"@,
    ) {
        Some(LayoutComponent::MetadataGroup)
    } else if matches_word(t, "metadata.artist"@) || matches_word(t, "artist"@) {
        Some(LayoutComponent::MetadataArtist)
    } else if matches_word(t, "metadata.album"@) || matches_word(t, "album"@) {
        Some(LayoutComponent::MetadataAlbum)
    } else if matches_word(t, "metadata.state"@) || matches_word(t, "state"@) || matches_word(
        t,
        "playstate"@,
    ) {
        Some(LayoutComponent::MetadataState)
    } else if matches_word(t, "playback_controls"@) || matches_word(t, "controls"@) {
        Some(LayoutComponent::PlaybackControlsGroup)
    } else if matches_word(t, "button.previous"@) || matches_word(t, "previous"@) {
        Some(LayoutComponent::PlaybackButtonPrevious)
    } else if matches_word(t, "button.play"@) || matches_word(t, "playpause"@) || matches_word(
        t,
        "button.playpause"@,
    ) || matches_word(t, "button.pause"@) {
        Some(LayoutComponent::PlaybackButtonPlayPause)
    } else if matches_word(t, "button.next"@) || matches_word(t, "next"@) {
        Some(LayoutComponent::PlaybackButtonNext)
    } else if matches_word(t, "button.stop"@) || matches_word(t, "stop"@) {
        Some(LayoutComponent::PlaybackButtonStop)
    } else if matches_word(t, "timeline"@) || matches_word(t, "progress"@) {
        Some(LayoutComponent::Timeline)
    } else if matches_word(t, "skin_warnings"@) || matches_word(t, "warnings"@) {
        Some(LayoutComponent::SkinWarnings)
    } else if matches_word(t, "skin_error"@) {
        Some(LayoutComponent::SkinError)
    } else if matches_word(t, "error"@) || matches_word(t, "now_playing_error"@) {
        Some(LayoutComponent::NowPlayingError)
    } else if matches_word(t, "thumbnail_error"@) {
        Some(LayoutComponent::ThumbnailError)
    } else {
        None
    }
}

pub fn parse_component(value: &str) -> (r: Option<LayoutComponent>)
    ensures
        r == component_spec(value@),
{
    let t = trimmed_chars(value);
    if is_word(&t, "thumbnail") || is_word(&t, "artwork") {
        Some(LayoutComponent::Thumbnail)
    } else if is_word(&t, "title") {
        Some(LayoutComponent::Title)
    } else if is_word(&t, "metadata") || is_word(&t, "metadata_group") || is_word(&t, "details") {
        Some(LayoutComponent::MetadataGroup)
    } else if is_word(&t, "metadata.artist") || is_word(&t, "artist") {
        Some(LayoutComponent::MetadataArtist)
    } else if is_word(&t, "metadata.album") || is_word(&t, "album") {
        Some(LayoutComponent::MetadataAlbum)
    } else if is_word(&t, "metadata.state") || is_word(&t, "state") || is_word(&t, "playstate") {
        Some(LayoutComponent::MetadataState)
    } else if is_word(&t, "playback_controls") || is_word(&t, "controls") {
        Some(LayoutComponent::PlaybackControlsGroup)
    } else if is_word(&t, "button.previous") || is_word(&t, "previous") {
        Some(LayoutComponent::PlaybackButtonPrevious)
    } else if is_word(&t, "button.play") || is_word(&t, "playpause") || is_word(
        &t,
        "button.playpause",
    ) || is_word(&t, "button.pause") {
        Some(LayoutComponent::PlaybackButtonPlayPause)
    } else if is_word(&t, "button.next") || is_word(&t, "next") {
        Some(LayoutComponent::PlaybackButtonNext)
    } else if is_word(&t, "button.stop") || is_word(&t, "stop") {
        Some(LayoutComponent::PlaybackButtonStop)
    } else if is_word(&t, "timeline") || is_word(&t, "progress") {
        Some(LayoutComponent::Timeline)
    } else if is_word(&t, "skin_warnings") || is_word(&t, "warnings") {
        Some(LayoutComponent::SkinWarnings)
    } else if is_word(&t, "skin_error") {
        Some(LayoutComponent::SkinError)
    } else if is_word(&t, "error") || is_word(&t, "now_playing_error") {
        Some(LayoutComponent::NowPlayingError)
    } else if is_word(&t, "thumbnail_error") {
        Some(LayoutComponent::ThumbnailError)
    } else {
        None
    }
}

pub open spec fn clamp_nonneg(v: i64) -> i64 {
    if v < 0 {
        0
    } else {
        v
    }
}

/// How a component config resolves: dropped when marked not visible, when
/// it has no id, or when its id is no known slot.
pub open spec fn component_ok(c: ComponentConfig, r: Option<ComponentNode>) -> bool {
    if c.visible == Some(false) || c.id is None || component_spec(c.id.unwrap()@) is None {
        r is None
    } else {
        r matches Some(n) && n.component == component_spec(c.id.unwrap()@).unwrap() && n.visible
            && table_of(n.params@) == match c.params {
            Some(p) => table_of(p@),
            None => Seq::empty(),
        }
    }
}

/// How a spacer config resolves: its size (default `DEFAULT_SPACER_SIZE`)
/// clamped to zero, dropped when that is zero.
pub open spec fn spacer_size(c: SpacerConfig) -> i64 {
    clamp_nonneg(
        match c.size {
            Some(s) => s,
            None => DEFAULT_SPACER_SIZE,
        },
    )
}

/// The fields of a container that do not depend on its children.
pub open spec fn container_fields_ok(c: ContainerConfig, n: ContainerNode) -> bool {
    &&& n.spacing == clamp_nonneg(
        match c.spacing {
            Some(s) => s,
            None => DEFAULT_SPACING,
        },
    )
    &&& n.align == match c.align {
        Some(a) => match align_spec(a@) {
            Some(x) => x,
            None => LayoutAlign::Start,
        },
        None => LayoutAlign::Start,
    }
    &&& n.fill == match c.fill {
        Some(f) => f,
        None => false,
    }
}

/// How a node config resolves. A container marked not visible, or none of
/// whose children survive, is dropped; the survivors keep their order.
pub open spec fn node_ok(cfg: LayoutNodeConfig, r: Option<LayoutNode>) -> bool
    decreases cfg, 1nat,
{
    match cfg {
        LayoutNodeConfig::Row(c) => match r {
            None => c.visible == Some(false) || children_ok(c, c.children@.len() as int, Seq::empty()),
            Some(LayoutNode::Row(n)) => c.visible != Some(false) && n.children@.len() > 0
                && container_fields_ok(c, n) && children_ok(c, c.children@.len() as int, n.children@),
            Some(_) => false,
        },
        LayoutNodeConfig::Column(c) => match r {
            None => c.visible == Some(false) || children_ok(c, c.children@.len() as int, Seq::empty()),
            Some(LayoutNode::Column(n)) => c.visible != Some(false) && n.children@.len() > 0
                && container_fields_ok(c, n) && children_ok(c, c.children@.len() as int, n.children@),
            Some(_) => false,
        },
        LayoutNodeConfig::Component(c) => match r {
            None => component_ok(c, None),
            Some(LayoutNode::Component(n)) => component_ok(c, Some(n)),
            Some(_) => false,
        },
        LayoutNodeConfig::Spacer(c) => match r {
            None => spacer_size(c) == 0,
            Some(LayoutNode::Spacer(n)) => spacer_size(c) > 0 && n.size == spacer_size(c),
            Some(_) => false,
        },
    }
}

/// The first `k` children of `c` resolve to `ns`: each child that survives
/// contributes its node, in order.
pub open spec fn children_ok(c: ContainerConfig, k: int, ns: Seq<LayoutNode>) -> bool
    decreases c, 0nat, k,
{
    if k <= 0 || k > c.children@.len() {
        k == 0 && ns.len() == 0
    } else {
        let child = c.children@[k - 1];
        (node_ok(child, None) && children_ok(c, k - 1, ns)) || (ns.len() > 0 && node_ok(
            child,
            Some(ns.last()),
        ) && children_ok(c, k - 1, ns.drop_last()))
    }
}

pub open spec fn digit_char(d: int) -> char {
    if d == 0 {
        '0'
    } else if d == 1 {
        '1'
    } else if d == 2 {
        '2'
    } else if d == 3 {
        '3'
    } else if d == 4 {
        '4'
    } else if d == 5 {
        '5'
    } else if d == 6 {
        '6'
    } else if d == 7 {
        '7'
    } else if d == 8 {
        '8'
    } else {
        '9'
    }
}

/// The decimal digits of `n`.
pub open spec fn decimal_spec(n: nat) -> Seq<char>
    decreases n,
{
    if n < 10 {
        seq![digit_char(n as int)]
    } else {
        decimal_spec(n / 10).push(digit_char((n % 10) as int))
    }
}

fn digit(d: usize) -> (c: char)
    requires
        d < 10,
    ensures
        c == digit_char(d as int),
{
    if d == 0 {
        '0'
    } else if d == 1 {
        '1'
    } else if d == 2 {
        '2'
    } else if d == 3 {
        '3'
    } else if d == 4 {
        '4'
    } else if d == 5 {
        '5'
    } else if d == 6 {
        '6'
    } else if d == 7 {
        '7'
    } else if d == 8 {
        '8'
    } else {
        '9'
    }
}

/// The decimal text of `n`.
pub fn decimal_text(n: usize) -> (r: String)
    ensures
        r@ == decimal_spec(n as nat),
    decreases n,
{
    if n < 10 {
        let mut s = String::new();
        push_char(&mut s, digit(n));
        assert(s@ =~= seq![digit_char(n as int)]);
        s
    } else {
        let mut s = decimal_text(n / 10);
        push_char(&mut s, digit(n % 10));
        s
    }
}

fn concat(a: &String, b: &str) -> (r: String)
    ensures
        r@ == a@ + b@,
{
    let mut s = a.clone();
    s.append(b);
    s
}

/// The warning a component config gives: none when it is marked invisible or
/// resolves; otherwise one naming the breadcrumb path, and the id when the id
/// is unknown.
pub open spec fn component_warnings(c: ComponentConfig, context: Seq<char>) -> Seq<Seq<char>> {
    if c.visible == Some(false) {
        Seq::empty()
    } else if c.id is None {
        seq![context + " component missing id"@]
    } else if component_spec(c.id.unwrap()@) is None {
        seq![
            "Unknown component '"@ + c.id.unwrap()@ + "' in "@ + context + "; skipping"@,
        ]
    } else {
        Seq::empty()
    }
}

/// The breadcrumb of child `i` of the node at `context`.
pub open spec fn child_context_text(context: Seq<char>, i: int) -> Seq<char> {
    context + " > child #"@ + decimal_spec(i as nat)
}

/// The warnings resolving a node adds: those of its children in order, each
/// under its own breadcrumb, then one for a container that keeps no child;
/// none for a hidden container or a spacer.
pub open spec fn node_warnings(cfg: LayoutNodeConfig, context: Seq<char>) -> Seq<Seq<char>>
    decreases cfg, 1nat,
{
    match cfg {
        LayoutNodeConfig::Row(c) => container_warnings(c, context),
        LayoutNodeConfig::Column(c) => container_warnings(c, context),
        LayoutNodeConfig::Component(c) => component_warnings(c, context),
        LayoutNodeConfig::Spacer(_) => Seq::empty(),
    }
}

pub open spec fn container_warnings(c: ContainerConfig, context: Seq<char>) -> Seq<Seq<char>>
    decreases c, 0nat, c.children@.len() + 1,
{
    if c.visible == Some(false) {
        Seq::empty()
    } else {
        children_warnings(c, c.children@.len() as int, context) + if children_ok(
            c,
            c.children@.len() as int,
            Seq::empty(),
        ) {
            seq![empty_container_message(context)]
        } else {
            Seq::empty()
        }
    }
}

/// The warnings of the first `k` children of `c`.
pub open spec fn children_warnings(c: ContainerConfig, k: int, context: Seq<char>) -> Seq<Seq<char>>
    decreases c, 0nat, k,
{
    if k <= 0 || k > c.children@.len() {
        Seq::empty()
    } else {
        children_warnings(c, k - 1, context) + node_warnings(
            c.children@[k - 1],
            child_context_text(context, k - 1),
        )
    }
}

/// The warning for a container that keeps no child.
pub open spec fn empty_container_message(context: Seq<char>) -> Seq<char> {
    context + " has no visible children"@
}

/// Resolves a component config (see `component_ok`); each drop but an
/// explicit `visible = false` adds a warning naming `context`.
pub fn resolve_component(cfg: &ComponentConfig, warnings: &mut Vec<String>, context: &String) -> (r:
    Option<ComponentNode>)
    ensures
        component_ok(*cfg, r),
        extends(final(warnings)@, old(warnings)@),
        texts(final(warnings)@) == texts(old(warnings)@) + component_warnings(*cfg, context@),
{
    if cfg.visible == Some(false) {
        assert(texts(warnings@) =~= texts(old(warnings)@) + Seq::<Seq<char>>::empty());
        return None;
    }
    let id = match &cfg.id {
        Some(id) => id,
        None => {
            let msg = concat(context, " component missing id");
            let ghost before = warnings@;
            warnings.push(msg);
            assert(texts(warnings@) =~= texts(before) + seq![msg@]);
            return None;
        },
    };
    match parse_component(id.as_str()) {
        Some(component) => {
            let params = match &cfg.params {
                Some(p) => copy_entries(p),
                None => Vec::new(),
            };
            assert(cfg.params is None ==> table_of(params@) =~= Seq::empty());
            assert(texts(warnings@) =~= texts(old(warnings)@) + Seq::<Seq<char>>::empty());
            Some(ComponentNode { component, visible: true, params })
        },
        None => {
            let mut msg = String::from_str("Unknown component '");
            msg.append(id.as_str());
            msg.append("' in ");
            msg.append(context.as_str());
            msg.append("; skipping");
            let ghost before = warnings@;
            warnings.push(msg);
            assert(texts(warnings@) =~= texts(before) + seq![msg@]);
            None
        },
    }
}

/// Resolves a container config's own fields and children. One that is not
/// marked invisible but keeps no child is dropped with a warning naming
/// `context`.
pub fn resolve_container(cfg: &ContainerConfig, warnings: &mut Vec<String>, context: &String) -> (r:
    Option<ContainerNode>)
    ensures
        r is None ==> cfg.visible == Some(false) || children_ok(*cfg, cfg.children@.len() as int, Seq::empty()),
        r matches Some(n) ==> cfg.visible != Some(false) && n.children@.len() > 0
            && container_fields_ok(*cfg, n) && children_ok(*cfg, cfg.children@.len() as int, n.children@),
        r is None && cfg.visible != Some(false) ==> final(warnings)@.len() > old(warnings)@.len()
            && final(warnings)@.last()@ == empty_container_message(context@),
        cfg.visible == Some(false) ==> final(warnings)@ == old(warnings)@,
        extends(final(warnings)@, old(warnings)@),
        texts(final(warnings)@) == texts(old(warnings)@) + container_warnings(*cfg, context@),
    decreases *cfg, 0nat,
{
    if cfg.visible == Some(false) {
        assert(texts(warnings@) =~= texts(old(warnings)@) + Seq::<Seq<char>>::empty());
        return None;
    }
    let align = match &cfg.align {
        Some(a) => match parse_align(a.as_str()) {
            Some(x) => x,
            None => LayoutAlign::Start,
        },
        None => LayoutAlign::Start,
    };
    let raw_spacing = match cfg.spacing {
        Some(s) => s,
        None => DEFAULT_SPACING,
    };
    let spacing = if raw_spacing < 0 { 0 } else { raw_spacing };
    let fill = match cfg.fill {
        Some(f) => f,
        None => false,
    };
    let mut children: Vec<LayoutNode> = Vec::new();
    let mut i: usize = 0;
    while i < cfg.children.len()
        invariant
            i <= cfg.children@.len(),
            children_ok(*cfg, i as int, children@),
            extends(warnings@, old(warnings)@),
            texts(warnings@) == texts(old(warnings)@) + children_warnings(*cfg, i as int, context@),
        decreases cfg.children@.len() - i,
    {
        let ghost wb = warnings@;
        let mut child_context = concat(context, " > child #");
        child_context.append(decimal_text(i).as_str());
        assert(decreases_to!(*cfg => cfg.children));
        assert(decreases_to!(*cfg => cfg.children@[i as int]));
        let r = resolve_node(&cfg.children[i], warnings, &child_context);
        assert(child_context@ == child_context_text(context@, i as int));
        assert(texts(warnings@) =~= texts(old(warnings)@) + children_warnings(*cfg, i + 1, context@));
        match r {
            Some(n) => {
                let ghost before = children@;
                children.push(n);
                assert(children@.drop_last() =~= before);
            },
            None => {},
        }
        i += 1;
    }
    let ghost n = cfg.children@.len() as int;
    if children.len() == 0 {
        assert(children@ =~= Seq::<LayoutNode>::empty());
        let msg = concat(context, " has no visible children");
        let ghost wb = warnings@;
        warnings.push(msg);
        assert(texts(warnings@) =~= texts(wb) + seq![msg@]);
        assert(texts(warnings@) =~= texts(old(warnings)@) + container_warnings(*cfg, context@));
        return None;
    }
    proof {
        if children_ok(*cfg, n, Seq::empty()) {
            lemma_children_ok_functional(*cfg, n, children@, Seq::empty());
        }
        assert(texts(warnings@) =~= texts(old(warnings)@) + container_warnings(*cfg, context@));
    }
    Some(ContainerNode { spacing, align, fill, children })
}

/// Resolves a node config (see `node_ok`).
pub fn resolve_node(cfg: &LayoutNodeConfig, warnings: &mut Vec<String>, context: &String) -> (r:
    Option<LayoutNode>)
    ensures
        node_ok(*cfg, r),
        extends(final(warnings)@, old(warnings)@),
        r is None && (cfg matches LayoutNodeConfig::Row(c) && c.visible != Some(false))
            ==> final(warnings)@.len() > old(warnings)@.len(),
        r is None && (cfg matches LayoutNodeConfig::Column(c) && c.visible != Some(false))
            ==> final(warnings)@.len() > old(warnings)@.len(),
        cfg matches LayoutNodeConfig::Spacer(_) ==> final(warnings)@ == old(warnings)@,
        texts(final(warnings)@) == texts(old(warnings)@) + node_warnings(*cfg, context@),
        cfg matches LayoutNodeConfig::Component(c) ==> texts(final(warnings)@) == texts(old(warnings)@)
            + component_warnings(*c, context@),
        (cfg matches LayoutNodeConfig::Row(c) && c.visible == Some(false)) ==> final(warnings)@
            == old(warnings)@,
        (cfg matches LayoutNodeConfig::Column(c) && c.visible == Some(false)) ==> final(warnings)@
            == old(warnings)@,
    decreases *cfg, 1nat,
{
    match cfg {
        LayoutNodeConfig::Row(c) => match resolve_container(c, warnings, context) {
            Some(n) => Some(LayoutNode::Row(n)),
            None => None,
        },
        LayoutNodeConfig::Column(c) => match resolve_container(c, warnings, context) {
            Some(n) => Some(LayoutNode::Column(n)),
            None => None,
        },
        LayoutNodeConfig::Component(c) => match resolve_component(c, warnings, context) {
            Some(n) => Some(LayoutNode::Component(n)),
            None => None,
        },
        LayoutNodeConfig::Spacer(c) => {
            let raw = match c.size {
                Some(s) => s,
                None => DEFAULT_SPACER_SIZE,
            };
            if raw <= 0 {
                None
            } else {
                Some(LayoutNode::Spacer(SpacerNode { size: raw }))
            }
        },
    }
}

/// The engine version a layout document must declare to be used.
pub const LAYOUT_ENGINE_VERSION: &'static str = "1";

#[derive(Debug)]
pub struct LayoutVariantConfig {
    pub id: Option<String>,
    pub display_name: Option<String>,
    pub structure: Option<LayoutNodeConfig>,
}

#[derive(Debug)]
pub struct LayoutVariants {
    pub default: Option<String>,
    pub variants: Vec<LayoutVariantConfig>,
}

#[derive(Clone, Debug)]
pub struct LayoutMeta {
    pub engine: Option<String>,
}

/// A layout document as read from disk.
#[derive(Debug)]
pub struct LayoutDocument {
    pub meta: LayoutMeta,
    pub layout: LayoutVariants,
}

/// One selectable arrangement.
#[derive(Debug)]
pub struct LayoutVariant {
    pub id: String,
    pub display_name: String,
    pub root: LayoutNode,
}

/// The resolved variants of a skin and the one shown first.
#[derive(Debug)]
pub struct LayoutSet {
    pub default_variant: String,
    pub variants: Vec<LayoutVariant>,
}

/// No two variants share an id.
pub open spec fn ids_unique(vs: Seq<LayoutVariant>) -> bool {
    forall|i: int, j: int| 0 <= i < vs.len() && 0 <= j < vs.len() && i != j ==> vs[i].id@ != vs[j].id@
}

pub open spec fn id_taken(vs: Seq<LayoutVariant>, id: Seq<char>) -> bool {
    exists|k: int| 0 <= k < vs.len() && (#[trigger] vs[k]).id@ == id
}

impl LayoutSet {
    /// Never empty, ids unique, and the default is one of the ids.
    pub open spec fn wf(&self) -> bool {
        &&& self.variants@.len() >= 1
        &&& ids_unique(self.variants@)
        &&& id_taken(self.variants@, self.default_variant@)
    }

    pub fn variants(&self) -> (r: &Vec<LayoutVariant>)
        ensures
            r@ == self.variants@,
    {
        &self.variants
    }
}

/// A non-blank trimmed text, else `d`.
pub open spec fn nonblank_or(o: Option<String>, d: Seq<char>) -> Seq<char> {
    match o {
        Some(s) => if trimmed(s@).len() > 0 {
            trimmed(s@)
        } else {
            d
        },
        None => d,
    }
}

/// A variant's id: its trimmed `id`, or `variant_<position>` when blank.
pub open spec fn variant_id(v: LayoutVariantConfig, idx: nat) -> Seq<char> {
    nonblank_or(v.id, "variant_"@ + decimal_spec(idx))
}

/// A variant's display name: its trimmed `display_name`, or its id.
pub open spec fn variant_display(v: LayoutVariantConfig, idx: nat) -> Seq<char> {
    nonblank_or(v.display_name, variant_id(v, idx))
}

/// The first `k` variant configs resolve to `out`: a variant is skipped when
/// it has no structure, when an earlier kept variant has its id, or when its
/// structure resolves to nothing.
pub open spec fn variants_ok(vs: Seq<LayoutVariantConfig>, k: int, out: Seq<LayoutVariant>) -> bool
    decreases k,
{
    if k <= 0 || k > vs.len() {
        k == 0 && out.len() == 0
    } else {
        let v = vs[k - 1];
        let idx = (k - 1) as nat;
        let skipped = v.structure is None || id_taken(out, variant_id(v, idx)) || node_ok(
            v.structure.unwrap(),
            None,
        );
        (skipped && variants_ok(vs, k - 1, out)) || (out.len() > 0 && v.structure is Some
            && !id_taken(out.drop_last(), variant_id(v, idx)) && out.last().id@ == variant_id(v, idx)
            && out.last().display_name@ == variant_display(v, idx) && node_ok(
            v.structure.unwrap(),
            Some(out.last().root),
        ) && variants_ok(vs, k - 1, out.drop_last()))
    }
}

/// The default variant: the trimmed declared default when a variant has that
/// id, else the first variant's id.
pub open spec fn default_spec(default: Option<String>, vs: Seq<LayoutVariant>) -> Seq<char> {
    match default {
        Some(d) => if id_taken(vs, trimmed(d@)) {
            trimmed(d@)
        } else {
            vs[0].id@
        },
        None => vs[0].id@,
    }
}

fn trimmed_nonblank(o: &Option<String>) -> (r: Option<String>)
    ensures
        r is Some == (o is Some && trimmed(o.unwrap()@).len() > 0),
        r is Some ==> r.unwrap()@ == trimmed(o.unwrap()@),
{
    match o {
        Some(s) => {
            let t = String::from_str(trim_str(s.as_str()));
            if t.as_str().unicode_len() > 0 {
                Some(t)
            } else {
                None
            }
        },
        None => None,
    }
}

pub fn find_variant(vs: &Vec<LayoutVariant>, id: &String) -> (r: Option<usize>)
    ensures
        r is Some == id_taken(vs@, id@),
        r matches Some(i) ==> i < vs@.len() && vs@[i as int].id@ == id@ && forall|k: int|
            0 <= k < i ==> (#[trigger] vs@[k]).id@ != id@,
{
    let mut i: usize = 0;
    while i < vs.len()
        invariant
            i <= vs@.len(),
            forall|k: int| 0 <= k < i ==> (#[trigger] vs@[k]).id@ != id@,
        decreases vs@.len() - i,
    {
        if vs[i].id == *id {
            return Some(i);
        }
        i += 1;
    }
    None
}

/// Resolves each variant config in order (see `variants_ok`).
pub fn resolve_variants(variants: &Vec<LayoutVariantConfig>, warnings: &mut Vec<String>) -> (r: Vec<
    LayoutVariant,
>)
    ensures
        variants_ok(variants@, variants@.len() as int, r@),
        ids_unique(r@),
        extends(final(warnings)@, old(warnings)@),
        forall|j: int|
            0 <= j < variants@.len() && #[trigger] repeats_kept_id(variants@, j) ==> has_message(
                final(warnings)@,
                old(warnings)@.len() as int,
                duplicate_message(variant_id(variants@[j], j as nat)),
            ),
{
    let mut out: Vec<LayoutVariant> = Vec::new();
    let mut idx: usize = 0;
    while idx < variants.len()
        invariant
            idx <= variants@.len(),
            variants_ok(variants@, idx as int, out@),
            ids_unique(out@),
            extends(warnings@, old(warnings)@),
            forall|i: int|
                0 <= i < idx && #[trigger] survives(variants@[i]) ==> id_taken(
                    out@,
                    variant_id(variants@[i], i as nat),
                ),
            forall|j: int|
                0 <= j < idx && #[trigger] repeats_kept_id(variants@, j) ==> has_message(
                    warnings@,
                    old(warnings)@.len() as int,
                    duplicate_message(variant_id(variants@[j], j as nat)),
                ),
        decreases variants@.len() - idx,
    {
        let ghost w0 = warnings@;
        let ghost out0 = out@;
        let v = &variants[idx];
        let structure = match &v.structure {
            Some(s) => s,
            None => {
                let mut msg = String::from_str("Layout variant ");
                msg.append(decimal_text(idx).as_str());
                msg.append(" is missing structure; skipping");
                warnings.push(msg);
                proof {
                    lemma_duplicates_kept(variants@, idx as int, w0, warnings@, old(warnings)@.len() as int);
                }
                idx += 1;
                continue;
            },
        };
        let id = match trimmed_nonblank(&v.id) {
            Some(t) => t,
            None => concat(&String::from_str("variant_"), decimal_text(idx).as_str()),
        };
        let display_name = match trimmed_nonblank(&v.display_name) {
            Some(t) => t,
            None => id.clone(),
        };
        assert(id@ == variant_id(*v, idx as nat));
        assert(display_name@ == variant_display(*v, idx as nat));
        if find_variant(&out, &id).is_some() {
            let mut msg = String::from_str("Duplicate layout variant id '");
            msg.append(id.as_str());
            msg.append("'; skipping");
            warnings.push(msg);
            proof {
                lemma_duplicates_kept(variants@, idx as int, w0, warnings@, old(warnings)@.len() as int);
                assert(warnings@[warnings@.len() - 1]@ == duplicate_message(id@));
                assert(has_message(warnings@, old(warnings)@.len() as int, duplicate_message(id@)));
            }
            idx += 1;
            continue;
        }
        proof {
            if repeats_kept_id(variants@, idx as int) {
                let i = choose|i: int|
                    0 <= i < idx && survives(variants@[i]) && variant_id(variants@[i], i as nat)
                        == variant_id(variants@[idx as int], idx as nat);
                assert(id_taken(out@, variant_id(variants@[i], i as nat)));
            }
        }
        let mut context = String::from_str("variant '");
        context.append(id.as_str());
        context.append("'");
        match resolve_node(structure, warnings, &context) {
            Some(root) => {
                proof {
                    if node_ok(*structure, None) {
                        lemma_node_ok_functional(*structure, Some(root), None);
                    }
                }
                let ghost before = out@;
                out.push(LayoutVariant { id, display_name, root });
                assert(out@.drop_last() =~= before);
                assert forall|i: int, j: int|
                    0 <= i < out@.len() && 0 <= j < out@.len() && i != j implies out@[i].id@
                    != out@[j].id@ by {
                    if i < before.len() && j < before.len() {
                        assert(out@[i] == before[i] && out@[j] == before[j]);
                    } else if i < before.len() {
                        assert(out@[i] == before[i]);
                    } else {
                        assert(out@[j] == before[j]);
                    }
                }
                proof {
                    assert forall|i: int|
                        0 <= i < idx + 1 && #[trigger] survives(variants@[i]) implies id_taken(
                            out@,
                            variant_id(variants@[i], i as nat),
                        ) by {
                        if i < idx {
                            let k = choose|k: int|
                                0 <= k < before.len() && (#[trigger] before[k]).id@ == variant_id(
                                    variants@[i],
                                    i as nat,
                                );
                            assert(out@[k] == before[k]);
                        } else {
                            assert(out@[out@.len() - 1].id@ == id@);
                        }
                    }
                    lemma_duplicates_kept(variants@, idx as int, w0, warnings@, old(warnings)@.len() as int);
                }
            },
            None => {
                let mut msg = String::from_str("Layout variant '");
                msg.append(id.as_str());
                msg.append("' resolved to no visible content; skipping");
                warnings.push(msg);
                proof {
                    lemma_duplicates_kept(variants@, idx as int, w0, warnings@, old(warnings)@.len() as int);
                }
            },
        }
        idx += 1;
    }
    out
}

/// A variant with a structure that resolves to something.
pub open spec fn survives(v: LayoutVariantConfig) -> bool {
    v.structure is Some && !node_ok(v.structure.unwrap(), None)
}

/// Variant `j` has a structure and the id of an earlier variant that
/// survives, so it is skipped as a duplicate.
pub open spec fn repeats_kept_id(vs: Seq<LayoutVariantConfig>, j: int) -> bool {
    vs[j].structure is Some && exists|i: int|
        0 <= i < j && survives(vs[i]) && variant_id(vs[i], i as nat) == variant_id(vs[j], j as nat)
}

/// The warning for a skipped duplicate variant.
pub open spec fn duplicate_message(id: Seq<char>) -> Seq<char> {
    "Duplicate layout variant id '"@ + id + "'; skipping"@
}

proof fn lemma_duplicates_kept(
    vs: Seq<LayoutVariantConfig>,
    idx: int,
    w0: Seq<String>,
    w1: Seq<String>,
    from: int,
)
    requires
        0 <= from <= w0.len(),
        extends(w1, w0),
        forall|j: int|
            0 <= j < idx && #[trigger] repeats_kept_id(vs, j) ==> has_message(
                w0,
                from,
                duplicate_message(variant_id(vs[j], j as nat)),
            ),
    ensures
        forall|j: int|
            0 <= j < idx && #[trigger] repeats_kept_id(vs, j) ==> has_message(
                w1,
                from,
                duplicate_message(variant_id(vs[j], j as nat)),
            ),
{
    assert forall|j: int| 0 <= j < idx && #[trigger] repeats_kept_id(vs, j) implies has_message(
        w1,
        from,
        duplicate_message(variant_id(vs[j], j as nat)),
    ) by {
        lemma_has_message_kept(w0, w1, from, duplicate_message(variant_id(vs[j], j as nat)));
    }
}

/// Picks the default variant (see `default_spec`).
pub fn pick_default(default: &Option<String>, variants: &Vec<LayoutVariant>) -> (r: String)
    requires
        variants@.len() >= 1,
    ensures
        r@ == default_spec(*default, variants@),
        id_taken(variants@, r@),
{
    assert(variants@[0].id@ == variants@[0].id@);
    match default {
        Some(d) => {
            let t = String::from_str(trim_str(d.as_str()));
            match find_variant(variants, &t) {
                Some(i) => variants[i].id.clone(),
                None => variants[0].id.clone(),
            }
        },
        None => variants[0].id.clone(),
    }
}

proof fn lemma_no_survivors(c: ContainerConfig, k: int)
    requires
        0 <= k <= c.children@.len(),
        forall|i: int| 0 <= i < c.children@.len() ==> node_ok(#[trigger] c.children@[i], None),
    ensures
        children_ok(c, k, Seq::empty()),
    decreases k,
{
    if k > 0 {
        lemma_no_survivors(c, k - 1);
    }
}

/// A row or column none of whose children survives resolution is itself
/// dropped (and, unless marked invisible, reported: see `resolve_node`).
pub proof fn container_without_surviving_children_is_dropped(c: ContainerConfig)
    requires
        forall|i: int| 0 <= i < c.children@.len() ==> node_ok(#[trigger] c.children@[i], None),
    ensures
        node_ok(LayoutNodeConfig::Row(c), None),
        node_ok(LayoutNodeConfig::Column(c), None),
{
    lemma_no_survivors(c, c.children@.len() as int);
}

/// Two resolved nodes are the same tree: same kinds, fields, parameter
/// texts and children, in order.
pub open spec fn same_node(a: LayoutNode, b: LayoutNode) -> bool
    decreases a,
{
    match a {
        LayoutNode::Row(x) => match b {
            LayoutNode::Row(y) => x.spacing == y.spacing && x.align == y.align && x.fill == y.fill
                && same_nodes(x.children@, y.children@),
            _ => false,
        },
        LayoutNode::Column(x) => match b {
            LayoutNode::Column(y) => x.spacing == y.spacing && x.align == y.align && x.fill
                == y.fill && same_nodes(x.children@, y.children@),
            _ => false,
        },
        LayoutNode::Component(x) => match b {
            LayoutNode::Component(y) => x.component == y.component && x.visible == y.visible
                && table_of(x.params@) == table_of(y.params@),
            _ => false,
        },
        LayoutNode::Spacer(x) => match b {
            LayoutNode::Spacer(y) => x == y,
            _ => false,
        },
    }
}

pub open spec fn same_nodes(a: Seq<LayoutNode>, b: Seq<LayoutNode>) -> bool
    decreases a,
{
    if a.len() == 0 {
        b.len() == 0
    } else {
        b.len() > 0 && same_node(a.last(), b.last()) && same_nodes(a.drop_last(), b.drop_last())
    }
}

pub open spec fn same_result(a: Option<LayoutNode>, b: Option<LayoutNode>) -> bool {
    match a {
        None => b is None,
        Some(x) => b matches Some(y) && same_node(x, y),
    }
}

proof fn lemma_node_ok_functional(cfg: LayoutNodeConfig, r1: Option<LayoutNode>, r2: Option<LayoutNode>)
    requires
        node_ok(cfg, r1),
        node_ok(cfg, r2),
    ensures
        same_result(r1, r2),
    decreases cfg, 1nat,
{
    match cfg {
        LayoutNodeConfig::Row(c) => {
            let n = c.children@.len() as int;
            match (r1, r2) {
                (Some(LayoutNode::Row(x)), Some(LayoutNode::Row(y))) => {
                    lemma_children_ok_functional(c, n, x.children@, y.children@);
                },
                (Some(LayoutNode::Row(x)), None) => {
                    if c.visible != Some(false) {
                        lemma_children_ok_functional(c, n, x.children@, Seq::empty());
                    }
                },
                (None, Some(LayoutNode::Row(y))) => {
                    if c.visible != Some(false) {
                        lemma_children_ok_functional(c, n, Seq::empty(), y.children@);
                    }
                },
                _ => {},
            }
        },
        LayoutNodeConfig::Column(c) => {
            let n = c.children@.len() as int;
            match (r1, r2) {
                (Some(LayoutNode::Column(x)), Some(LayoutNode::Column(y))) => {
                    lemma_children_ok_functional(c, n, x.children@, y.children@);
                },
                (Some(LayoutNode::Column(x)), None) => {
                    if c.visible != Some(false) {
                        lemma_children_ok_functional(c, n, x.children@, Seq::empty());
                    }
                },
                (None, Some(LayoutNode::Column(y))) => {
                    if c.visible != Some(false) {
                        lemma_children_ok_functional(c, n, Seq::empty(), y.children@);
                    }
                },
                _ => {},
            }
        },
        _ => {},
    }
}

proof fn lemma_children_ok_functional(
    c: ContainerConfig,
    k: int,
    ns1: Seq<LayoutNode>,
    ns2: Seq<LayoutNode>,
)
    requires
        children_ok(c, k, ns1),
        children_ok(c, k, ns2),
    ensures
        same_nodes(ns1, ns2),
    decreases c, 0nat, k,
{
    if 0 < k <= c.children@.len() {
        let child = c.children@[k - 1];
        assert(decreases_to!(c => c.children));
        assert(decreases_to!(c => child));
        let a1 = node_ok(child, None) && children_ok(c, k - 1, ns1);
        let a2 = node_ok(child, None) && children_ok(c, k - 1, ns2);
        if a1 && a2 {
            lemma_children_ok_functional(c, k - 1, ns1, ns2);
        } else if !a1 && !a2 {
            lemma_node_ok_functional(child, Some(ns1.last()), Some(ns2.last()));
            lemma_children_ok_functional(c, k - 1, ns1.drop_last(), ns2.drop_last());
        } else if a1 {
            lemma_node_ok_functional(child, None, Some(ns2.last()));
        } else {
            lemma_node_ok_functional(child, Some(ns1.last()), None);
        }
    }
}

/// A layout node config as plain values: what resolution reads of it.
pub enum NodeConfigView {
    Row(ContainerConfigView),
    Column(ContainerConfigView),
    Component(ComponentConfigView),
    Spacer(Option<i64>),
}

pub struct ContainerConfigView {
    pub align: Option<Seq<char>>,
    pub spacing: Option<i64>,
    pub fill: Option<bool>,
    pub visible: Option<bool>,
    pub children: Seq<NodeConfigView>,
}

pub struct ComponentConfigView {
    pub id: Option<Seq<char>>,
    pub visible: Option<bool>,
    pub params: Option<Seq<(Seq<char>, Seq<char>)>>,
}

pub open spec fn opt_text(o: Option<String>) -> Option<Seq<char>> {
    match o {
        Some(s) => Some(s@),
        None => None,
    }
}

pub open spec fn config_view(c: LayoutNodeConfig) -> NodeConfigView
    decreases c, 1nat,
{
    match c {
        LayoutNodeConfig::Row(x) => NodeConfigView::Row(container_view(x)),
        LayoutNodeConfig::Column(x) => NodeConfigView::Column(container_view(x)),
        LayoutNodeConfig::Component(k) => NodeConfigView::Component(
            ComponentConfigView {
                id: opt_text(k.id),
                visible: k.visible,
                params: match k.params {
                    Some(p) => Some(table_of(p@)),
                    None => None,
                },
            },
        ),
        LayoutNodeConfig::Spacer(sp) => NodeConfigView::Spacer(sp.size),
    }
}

pub open spec fn container_view(x: ContainerConfig) -> ContainerConfigView
    decreases x, 0nat,
{
    ContainerConfigView {
        align: opt_text(x.align),
        spacing: x.spacing,
        fill: x.fill,
        visible: x.visible,
        children: Seq::new(
            x.children@.len(),
            |i: int|
                if 0 <= i < x.children@.len() {
                    config_view(x.children@[i])
                } else {
                    NodeConfigView::Spacer(None)
                },
        ),
    }
}

proof fn lemma_node_ok_congruent(
    a: LayoutNodeConfig,
    b: LayoutNodeConfig,
    r1: Option<LayoutNode>,
    r2: Option<LayoutNode>,
)
    requires
        node_ok(a, r1),
        node_ok(b, r2),
        config_view(a) == config_view(b),
    ensures
        same_result(r1, r2),
    decreases a, 1nat,
{
    match a {
        LayoutNodeConfig::Row(c) => {
            let d = match b {
                LayoutNodeConfig::Row(d) => d,
                _ => arbitrary(),
            };
            assert(container_view(c) == container_view(d));
            assert(opt_text(c.align) == opt_text(d.align));
            let n = c.children@.len() as int;
            assert(d.children@.len() == n) by {
                assert(container_view(c).children.len() == container_view(d).children.len());
            }
            match (r1, r2) {
                (Some(LayoutNode::Row(x)), Some(LayoutNode::Row(y))) => {
                    lemma_children_ok_congruent(c, d, n, x.children@, y.children@);
                },
                (Some(LayoutNode::Row(x)), None) => {
                    if d.visible != Some(false) {
                        lemma_children_ok_congruent(c, d, n, x.children@, Seq::empty());
                    }
                },
                (None, Some(LayoutNode::Row(y))) => {
                    if c.visible != Some(false) {
                        lemma_children_ok_congruent(c, d, n, Seq::empty(), y.children@);
                    }
                },
                _ => {},
            }
        },
        LayoutNodeConfig::Column(c) => {
            let d = match b {
                LayoutNodeConfig::Column(d) => d,
                _ => arbitrary(),
            };
            assert(container_view(c) == container_view(d));
            assert(opt_text(c.align) == opt_text(d.align));
            let n = c.children@.len() as int;
            assert(d.children@.len() == n) by {
                assert(container_view(c).children.len() == container_view(d).children.len());
            }
            match (r1, r2) {
                (Some(LayoutNode::Column(x)), Some(LayoutNode::Column(y))) => {
                    lemma_children_ok_congruent(c, d, n, x.children@, y.children@);
                },
                (Some(LayoutNode::Column(x)), None) => {
                    if d.visible != Some(false) {
                        lemma_children_ok_congruent(c, d, n, x.children@, Seq::empty());
                    }
                },
                (None, Some(LayoutNode::Column(y))) => {
                    if c.visible != Some(false) {
                        lemma_children_ok_congruent(c, d, n, Seq::empty(), y.children@);
                    }
                },
                _ => {},
            }
        },
        LayoutNodeConfig::Component(k1) => {
            let k2 = match b {
                LayoutNodeConfig::Component(k2) => k2,
                _ => arbitrary(),
            };
            assert(opt_text(k1.id) == opt_text(k2.id));
            assert(k1.id is Some ==> k1.id.unwrap()@ == k2.id.unwrap()@);
        },
        LayoutNodeConfig::Spacer(_) => {},
    }
}

proof fn lemma_children_ok_congruent(
    c: ContainerConfig,
    d: ContainerConfig,
    k: int,
    ns1: Seq<LayoutNode>,
    ns2: Seq<LayoutNode>,
)
    requires
        children_ok(c, k, ns1),
        children_ok(d, k, ns2),
        container_view(c) == container_view(d),
    ensures
        same_nodes(ns1, ns2),
    decreases c, 0nat, k,
{
    let cv = container_view(c);
    let dv = container_view(d);
    assert(cv.children.len() == c.children@.len());
    assert(dv.children.len() == d.children@.len());
    assert(c.children@.len() == d.children@.len());
    if 0 < k <= c.children@.len() {
        let child = c.children@[k - 1];
        let other = d.children@[k - 1];
        assert(config_view(child) == config_view(other)) by {
            assert(container_view(c).children[k - 1] == config_view(child));
            assert(container_view(d).children[k - 1] == config_view(other));
        }
        assert(decreases_to!(c => c.children));
        assert(decreases_to!(c => child));
        let a1 = node_ok(child, None) && children_ok(c, k - 1, ns1);
        let a2 = node_ok(other, None) && children_ok(d, k - 1, ns2);
        if a1 && a2 {
            lemma_children_ok_congruent(c, d, k - 1, ns1, ns2);
        } else if !a1 && !a2 {
            lemma_node_ok_congruent(child, other, Some(ns1.last()), Some(ns2.last()));
            lemma_children_ok_congruent(c, d, k - 1, ns1.drop_last(), ns2.drop_last());
        } else if a1 {
            lemma_node_ok_congruent(child, other, None, Some(ns2.last()));
        } else {
            lemma_node_ok_congruent(child, other, Some(ns1.last()), None);
        }
    }
}

/// A variant config as plain values.
pub open spec fn variant_view(v: LayoutVariantConfig) -> (
    Option<Seq<char>>,
    Option<Seq<char>>,
    Option<NodeConfigView>,
) {
    (
        opt_text(v.id),
        opt_text(v.display_name),
        match v.structure {
            Some(s) => Some(config_view(s)),
            None => None,
        },
    )
}

proof fn lemma_variants_ok_congruent(
    vs1: Seq<LayoutVariantConfig>,
    vs2: Seq<LayoutVariantConfig>,
    k: int,
    o1: Seq<LayoutVariant>,
    o2: Seq<LayoutVariant>,
)
    requires
        0 <= k <= vs1.len(),
        k <= vs2.len(),
        forall|i: int| 0 <= i < k ==> #[trigger] variant_view(vs1[i]) == variant_view(vs2[i]),
        variants_ok(vs1, k, o1),
        variants_ok(vs2, k, o2),
    ensures
        same_variants(o1, o2),
    decreases k,
{
    if k > 0 {
        let v1 = vs1[k - 1];
        let v2 = vs2[k - 1];
        let idx = (k - 1) as nat;
        assert(variant_view(v1) == variant_view(v2));
        assert(opt_text(v1.id) == opt_text(v2.id));
        assert(opt_text(v1.display_name) == opt_text(v2.display_name));
        assert(v1.id is Some ==> v1.id.unwrap()@ == v2.id.unwrap()@);
        assert(v1.display_name is Some ==> v1.display_name.unwrap()@ == v2.display_name.unwrap()@);
        let id = variant_id(v1, idx);
        assert(variant_id(v2, idx) == id);
        assert(variant_display(v2, idx) == variant_display(v1, idx));
        assert(v1.structure is Some == v2.structure is Some);
        assert(v1.structure is Some ==> config_view(v1.structure.unwrap()) == config_view(
            v2.structure.unwrap(),
        ));
        let skip1 = (v1.structure is None || id_taken(o1, id) || node_ok(v1.structure.unwrap(), None))
            && variants_ok(vs1, k - 1, o1);
        let skip2 = (v2.structure is None || id_taken(o2, id) || node_ok(v2.structure.unwrap(), None))
            && variants_ok(vs2, k - 1, o2);
        if skip1 && skip2 {
            lemma_variants_ok_congruent(vs1, vs2, k - 1, o1, o2);
        } else if !skip1 && !skip2 {
            lemma_variants_ok_congruent(vs1, vs2, k - 1, o1.drop_last(), o2.drop_last());
            lemma_node_ok_congruent(
                v1.structure.unwrap(),
                v2.structure.unwrap(),
                Some(o1.last().root),
                Some(o2.last().root),
            );
            assert forall|i: int| 0 <= i < o1.len() implies (#[trigger] o1[i]).id@ == o2[i].id@
                && o1[i].display_name@ == o2[i].display_name@ && same_node(o1[i].root, o2[i].root) by {
                if i < o1.len() - 1 {
                    assert(o1[i] == o1.drop_last()[i] && o2[i] == o2.drop_last()[i]);
                }
            }
        } else if skip1 {
            lemma_variants_ok_congruent(vs1, vs2, k - 1, o1, o2.drop_last());
            lemma_same_variants_ids(o1, o2.drop_last(), id);
            if v1.structure is Some && node_ok(v1.structure.unwrap(), None) {
                lemma_node_ok_congruent(v1.structure.unwrap(), v2.structure.unwrap(), None, Some(o2.last().root));
            }
        } else {
            lemma_variants_ok_congruent(vs1, vs2, k - 1, o1.drop_last(), o2);
            lemma_same_variants_ids(o1.drop_last(), o2, id);
            if v2.structure is Some && node_ok(v2.structure.unwrap(), None) {
                lemma_node_ok_congruent(v1.structure.unwrap(), v2.structure.unwrap(), Some(o1.last().root), None);
            }
        }
    }
}

/// Two variant lists with the same ids, names and trees, in order.
pub open spec fn same_variants(a: Seq<LayoutVariant>, b: Seq<LayoutVariant>) -> bool {
    &&& a.len() == b.len()
    &&& forall|i: int|
        0 <= i < a.len() ==> (#[trigger] a[i]).id@ == b[i].id@ && a[i].display_name@
            == b[i].display_name@ && same_node(a[i].root, b[i].root)
}

proof fn lemma_same_variants_ids(a: Seq<LayoutVariant>, b: Seq<LayoutVariant>, id: Seq<char>)
    requires
        same_variants(a, b),
    ensures
        id_taken(a, id) == id_taken(b, id),
{
    if id_taken(a, id) {
        let k = choose|k: int| 0 <= k < a.len() && (#[trigger] a[k]).id@ == id;
        assert(b[k].id@ == id);
    }
    if id_taken(b, id) {
        let k = choose|k: int| 0 <= k < b.len() && (#[trigger] b[k]).id@ == id;
        assert(a[k].id@ == b[k].id@);
    }
}

proof fn lemma_variants_ok_functional(
    vs: Seq<LayoutVariantConfig>,
    k: int,
    o1: Seq<LayoutVariant>,
    o2: Seq<LayoutVariant>,
)
    requires
        variants_ok(vs, k, o1),
        variants_ok(vs, k, o2),
    ensures
        same_variants(o1, o2),
    decreases k,
{
    if 0 < k <= vs.len() {
        let v = vs[k - 1];
        let idx = (k - 1) as nat;
        let id = variant_id(v, idx);
        let skip1 = (v.structure is None || id_taken(o1, id) || node_ok(v.structure.unwrap(), None))
            && variants_ok(vs, k - 1, o1);
        let skip2 = (v.structure is None || id_taken(o2, id) || node_ok(v.structure.unwrap(), None))
            && variants_ok(vs, k - 1, o2);
        if skip1 && skip2 {
            lemma_variants_ok_functional(vs, k - 1, o1, o2);
        } else if !skip1 && !skip2 {
            lemma_variants_ok_functional(vs, k - 1, o1.drop_last(), o2.drop_last());
            lemma_node_ok_functional(v.structure.unwrap(), Some(o1.last().root), Some(o2.last().root));
            assert forall|i: int| 0 <= i < o1.len() implies (#[trigger] o1[i]).id@ == o2[i].id@
                && o1[i].display_name@ == o2[i].display_name@ && same_node(o1[i].root, o2[i].root) by {
                if i < o1.len() - 1 {
                    assert(o1[i] == o1.drop_last()[i] && o2[i] == o2.drop_last()[i]);
                }
            }
        } else if skip1 {
            lemma_variants_ok_functional(vs, k - 1, o1, o2.drop_last());
            lemma_same_variants_ids(o1, o2.drop_last(), id);
            if v.structure is Some && node_ok(v.structure.unwrap(), None) {
                lemma_node_ok_functional(v.structure.unwrap(), None, Some(o2.last().root));
            }
        } else {
            lemma_variants_ok_functional(vs, k - 1, o1.drop_last(), o2);
            lemma_same_variants_ids(o1.drop_last(), o2, id);
            if v.structure is Some && node_ok(v.structure.unwrap(), None) {
                lemma_node_ok_functional(v.structure.unwrap(), Some(o1.last().root), None);
            }
        }
    }
}

/// Resolving the same layout document twice gives the same set: the same
/// variants (ids, display names and trees) in the same order, and the same
/// default. (A document none of whose variants survives is replaced by the
/// built-in layout, whose own resolution the same holds of.)
pub proof fn layout_resolution_is_deterministic(doc: LayoutDocument, a: LayoutSet, b: LayoutSet)
    requires
        resolves_to(doc, a),
        resolves_to(doc, b),
        !variants_ok(doc.layout.variants@, doc.layout.variants@.len() as int, Seq::empty()),
    ensures
        same_variants(a.variants@, b.variants@),
        a.default_variant@ == b.default_variant@,
{
    let cfgs = doc.layout.variants@;
    lemma_variants_ok_functional(cfgs, cfgs.len() as int, a.variants@, b.variants@);
    match doc.layout.default {
        Some(d) => {
            lemma_same_variants_ids(a.variants@, b.variants@, trimmed(d@));
            assert(a.variants@.len() > 0 ==> a.variants@[0].id@ == b.variants@[0].id@);
        },
        None => {
            assert(a.variants@.len() > 0 ==> a.variants@[0].id@ == b.variants@[0].id@);
        },
    }
}

/// `set` is what `doc` resolves to when at least one of its variants
/// survives: those variants, in order, with the declared default when it
/// names one of them.
pub open spec fn resolves_to(doc: LayoutDocument, set: LayoutSet) -> bool {
    let cfgs = doc.layout.variants@;
    !variants_ok(cfgs, cfgs.len() as int, Seq::empty()) ==> variants_ok(
        cfgs,
        cfgs.len() as int,
        set.variants@,
    ) && set.default_variant@ == default_spec(doc.layout.default, set.variants@)
}

/// `set` is what `doc` resolves to, or, when none of its variants survives,
/// what the built-in layout resolves to.
pub open spec fn resolves_or_falls_back(doc: LayoutDocument, set: LayoutSet) -> bool {
    &&& resolves_to(doc, set)
    &&& keeps_nothing(doc) ==> is_builtin_set(set) && resolves_builtin(set)
}

pub open spec fn keeps_nothing(doc: LayoutDocument) -> bool {
    variants_ok(doc.layout.variants@, doc.layout.variants@.len() as int, Seq::empty())
}

/// Resolves a layout document into a set of variants. When none of its
/// variants survives, the built-in layout is resolved instead, so the result
/// is never empty.
pub fn resolve_document(doc: &LayoutDocument, warnings: &mut Vec<String>) -> (r: LayoutSet)
    ensures
        r.wf(),
        resolves_or_falls_back(*doc, r),
        extends(final(warnings)@, old(warnings)@),
        forall|j: int|
            0 <= j < doc.layout.variants@.len() && #[trigger] repeats_kept_id(doc.layout.variants@, j)
                ==> has_message(
                final(warnings)@,
                old(warnings)@.len() as int,
                duplicate_message(variant_id(doc.layout.variants@[j], j as nat)),
            ),
{
    let variants = resolve_variants(&doc.layout.variants, warnings);
    let ghost w1 = warnings@;
    if variants.len() > 0 {
        proof {
            if keeps_nothing(*doc) {
                lemma_variants_ok_functional(
                    doc.layout.variants@,
                    doc.layout.variants@.len() as int,
                    variants@,
                    Seq::empty(),
                );
            }
        }
        let default_variant = pick_default(&doc.layout.default, &variants);
        return LayoutSet { default_variant, variants };
    }
    assert(variants@ =~= Seq::<LayoutVariant>::empty());
    let builtin = builtin_layout_document();
    let fallback = resolve_variants(&builtin.layout.variants, warnings);
    proof {
        builtin_layout_keeps_a_variant(builtin);
        lemma_duplicates_kept(
            doc.layout.variants@,
            doc.layout.variants@.len() as int,
            w1,
            warnings@,
            old(warnings)@.len() as int,
        );
    }
    assert(fallback@.len() > 0);
    let default_variant = pick_default(&builtin.layout.default, &fallback);
    let r = LayoutSet { default_variant, variants: fallback };
    assert(builtin_layout_exact(builtin) && builtin_layout_shape(builtin) && resolves_to(builtin, r));
    proof {
        builtin_layout_resolves_to_builtin_set(builtin, r);
    }
    r
}

/// A resolved layout and what was noticed on the way.
#[derive(Debug)]
pub struct LoadedLayout {
    pub layout: LayoutSet,
    pub warnings: Vec<String>,
}

pub open spec fn layout_engine_accepted(doc: LayoutDocument) -> bool {
    doc.meta.engine is None || doc.meta.engine.unwrap()@ == LAYOUT_ENGINE_VERSION@
}

/// The skin's own layout document, when it is used.
pub open spec fn accepted_layout(input: DocumentInput<LayoutDocument>) -> Option<LayoutDocument> {
    match input {
        DocumentInput::Parsed(d) => if layout_engine_accepted(d) {
            Some(d)
        } else {
            None
        },
        _ => None,
    }
}

pub open spec fn declares_accepted_layout_version(input: DocumentInput<LayoutDocument>) -> bool {
    match input {
        DocumentInput::Parsed(d) => d.meta.engine is Some && layout_engine_accepted(d),
        _ => false,
    }
}

/// The engine version a layout document declares when it is not the
/// supported one.
pub open spec fn rejected_layout_version(input: DocumentInput<LayoutDocument>) -> Option<Seq<char>> {
    match input {
        DocumentInput::Parsed(d) => if d.meta.engine is Some && !layout_engine_accepted(d) {
            Some(d.meta.engine.unwrap()@)
        } else {
            None
        },
        _ => None,
    }
}

/// A layout document that declares no engine version.
pub open spec fn unversioned_layout(input: DocumentInput<LayoutDocument>) -> bool {
    match input {
        DocumentInput::Parsed(d) => d.meta.engine is None,
        _ => false,
    }
}

pub open spec fn layout_version_message(e: Seq<char>) -> Seq<char> {
    "Layout engine version "@ + e + " does not match "@ + LAYOUT_ENGINE_VERSION@ + "; using defaults"@
}

/// Resolves a skin's layout: its own document when there is one whose
/// engine version is accepted (a missing version counts as the supported one,
/// with a warning), else the built-in layout with a warning.
pub fn load_layout(input: DocumentInput<LayoutDocument>, skin_id: &String) -> (r: LoadedLayout)
    ensures
        r.layout.wf(),
        accepted_layout(input) is Some ==> resolves_or_falls_back(accepted_layout(input).unwrap(), r.layout),
        accepted_layout(input) is None ==> is_builtin_set(r.layout) && resolves_builtin(r.layout),
        !declares_accepted_layout_version(input) ==> r.warnings@.len() >= 1,
        unversioned_layout(input) ==> r.warnings@[0]@ == "layout.meta.engine missing; assuming version 1"@,
        input is Missing ==> r.warnings@[0]@ == "Skin folder "@ + skin_id@
            + " missing layout.toml; falling back to defaults"@,
        rejected_layout_version(input) is Some ==> r.warnings@[0]@ == layout_version_message(
            rejected_layout_version(input).unwrap(),
        ),
{
    let mut warnings: Vec<String> = Vec::new();
    let ghost inp = input;
    let document = match input {
        DocumentInput::Parsed(doc) => match &doc.meta.engine {
            Some(e) => if *e == String::from_str(LAYOUT_ENGINE_VERSION) {
                doc
            } else {
                let mut msg = String::from_str("Layout engine version ");
                msg.append(e.as_str());
                msg.append(" does not match ");
                msg.append(LAYOUT_ENGINE_VERSION);
                msg.append("; using defaults");
                warnings.push(msg);
                builtin_layout_document()
            },
            None => {
                warnings.push(String::from_str("layout.meta.engine missing; assuming version 1"));
                doc
            },
        },
        DocumentInput::Invalid(err) => {
            let mut msg = String::from_str("Failed to parse layout: ");
            msg.append(err.as_str());
            warnings.push(msg);
            builtin_layout_document()
        },
        DocumentInput::Missing => {
            let mut msg = String::from_str("Skin folder ");
            msg.append(skin_id.as_str());
            msg.append(" missing layout.toml; falling back to defaults");
            warnings.push(msg);
            builtin_layout_document()
        },
    };
    assert(accepted_layout(inp) is Some ==> document == accepted_layout(inp).unwrap());
    assert(accepted_layout(inp) is None ==> builtin_layout_shape(document) && builtin_layout_exact(document));
    let ghost w0 = warnings@;
    let layout = resolve_document(&document, &mut warnings);
    proof {
        if accepted_layout(inp) is None {
            builtin_layout_keeps_a_variant(document);
            builtin_layout_resolves_to_builtin_set(document, layout);
        }
        if w0.len() > 0 {
            assert(warnings@[0] == w0[0]);
        }
    }
    LoadedLayout { layout, warnings }
}

fn component(id: &str) -> (r: LayoutNodeConfig)
    ensures
        config_view(r) == component_view_of(id@),
        match r {
            LayoutNodeConfig::Component(k) => k.visible is None && k.id is Some && k.id.unwrap()@ == id@,
            _ => false,
        },
{
    LayoutNodeConfig::Component(
        ComponentConfig { id: Some(String::from_str(id)), visible: None, params: None },
    )
}

fn centered_component(id: &str) -> (r: LayoutNodeConfig)
    ensures
        config_view(r) == centered_view_of(id@),
{
    let mut params: Vec<Entry> = Vec::new();
    params.push(Entry { key: String::from_str("centered"), value: String::from_str("true") });
    assert(table_of(params@) =~= seq![("centered"@, "true"@)]);
    LayoutNodeConfig::Component(
        ComponentConfig { id: Some(String::from_str(id)), visible: None, params: Some(params) },
    )
}

fn container(spacing: i64, align: Option<&str>, children: Vec<LayoutNodeConfig>) -> (r: ContainerConfig)
    ensures
        r.visible is None,
        r.children == children,
        container_view(r) == (ContainerConfigView {
            align: match align {
                Some(a) => Some(a@),
                None => None,
            },
            spacing: Some(spacing),
            fill: Some(true),
            visible: None,
            children: views_of(children@),
        }),
{
    let r = ContainerConfig {
        align: match align {
            Some(a) => Some(String::from_str(a)),
            None => None,
        },
        spacing: Some(spacing),
        fill: Some(true),
        visible: None,
        children,
    };
    assert(container_view(r).children =~= views_of(r.children@));
    r
}

fn details_column() -> (r: LayoutNodeConfig)
    ensures
        config_view(r) == details_view(),
{
    let mut children: Vec<LayoutNodeConfig> = Vec::new();
    children.push(component("title"));
    children.push(component("metadata"));
    children.push(component("playback_controls"));
    children.push(component("timeline"));
    children.push(component("skin_warnings"));
    children.push(component("skin_error"));
    children.push(component("thumbnail_error"));
    children.push(component("error"));
    assert(views_of(children@) =~= details_view_children());
    LayoutNodeConfig::Column(container(8000, None, children))
}

fn variant(id: &str, display_name: &str, structure: LayoutNodeConfig) -> (r: LayoutVariantConfig)
    ensures
        r.id is Some && r.id.unwrap()@ == id@,
        r.display_name is Some && r.display_name.unwrap()@ == display_name@,
        r.structure == Some(structure),
{
    LayoutVariantConfig {
        id: Some(String::from_str(id)),
        display_name: Some(String::from_str(display_name)),
        structure: Some(structure),
    }
}

impl Default for LayoutMeta {
    fn default() -> (r: Self)
        ensures
            r.engine is Some && r.engine.unwrap()@ == LAYOUT_ENGINE_VERSION@,
    {
        LayoutMeta { engine: Some(String::from_str(LAYOUT_ENGINE_VERSION)) }
    }
}

impl Default for LayoutVariants {
    /// No variants; `art_left` preferred.
    fn default() -> (r: Self)
        ensures
            r.default is Some && r.default.unwrap()@ == "art_left"@,
            r.variants@.len() == 0,
    {
        LayoutVariants { default: Some(String::from_str("art_left")), variants: Vec::new() }
    }
}

impl Default for LayoutDocument {
    fn default() -> (r: Self)
        ensures
            r.meta.engine is Some && r.meta.engine.unwrap()@ == LAYOUT_ENGINE_VERSION@,
            r.layout.default is Some && r.layout.default.unwrap()@ == "art_left"@,
            r.layout.variants@.len() == 0,
    {
        LayoutDocument { meta: LayoutMeta::default(), layout: LayoutVariants::default() }
    }
}

impl Default for LayoutVariantConfig {
    fn default() -> (r: Self)
        ensures
            r.id is None && r.display_name is None && r.structure is None,
    {
        LayoutVariantConfig { id: None, display_name: None, structure: None }
    }
}

impl Default for ContainerConfig {
    fn default() -> (r: Self)
        ensures
            r.align is None && r.spacing is None && r.fill is None && r.visible is None,
            r.children@.len() == 0,
    {
        ContainerConfig { align: None, spacing: None, fill: None, visible: None, children: Vec::new() }
    }
}

impl Default for ComponentConfig {
    fn default() -> (r: Self)
        ensures
            r.id is None && r.visible is None && r.params is None,
    {
        ComponentConfig { id: None, visible: None, params: None }
    }
}

impl Default for SpacerConfig {
    fn default() -> (r: Self)
        ensures
            r.size is None,
    {
        SpacerConfig { size: None }
    }
}

/// The views of a list of node configs.
pub open spec fn views_of(s: Seq<LayoutNodeConfig>) -> Seq<NodeConfigView> {
    Seq::new(
        s.len(),
        |i: int|
            if 0 <= i < s.len() {
                config_view(s[i])
            } else {
                NodeConfigView::Spacer(None)
            },
    )
}

pub open spec fn component_view_of(id: Seq<char>) -> NodeConfigView {
    NodeConfigView::Component(ComponentConfigView { id: Some(id), visible: None, params: None })
}

pub open spec fn centered_view_of(id: Seq<char>) -> NodeConfigView {
    NodeConfigView::Component(
        ComponentConfigView {
            id: Some(id),
            visible: None,
            params: Some(seq![("centered"@, "true"@)]),
        },
    )
}

pub open spec fn filled(align: Option<Seq<char>>, spacing: i64, children: Seq<NodeConfigView>) -> ContainerConfigView {
    ContainerConfigView { align, spacing: Some(spacing), fill: Some(true), visible: None, children }
}

pub open spec fn details_view_children() -> Seq<NodeConfigView> {
    seq![
        component_view_of("title"@),
        component_view_of("metadata"@),
        component_view_of("playback_controls"@),
        component_view_of("timeline"@),
        component_view_of("skin_warnings"@),
        component_view_of("skin_error"@),
        component_view_of("thumbnail_error"@),
        component_view_of("error"@),
    ]
}

/// Title, metadata, controls, timeline and the status slots, in a column.
pub open spec fn details_view() -> NodeConfigView {
    NodeConfigView::Column(filled(None, 8000, details_view_children()))
}

pub open spec fn left_view_children() -> Seq<NodeConfigView> {
    seq![component_view_of("thumbnail"@), details_view()]
}

pub open spec fn right_view_children() -> Seq<NodeConfigView> {
    seq![details_view(), component_view_of("thumbnail"@)]
}

pub open spec fn top_view_children() -> Seq<NodeConfigView> {
    seq![
        component_view_of("thumbnail"@),
        component_view_of("title"@),
        component_view_of("metadata"@),
        centered_view_of("playback_controls"@),
        centered_view_of("timeline"@),
        component_view_of("skin_warnings"@),
        component_view_of("skin_error"@),
        component_view_of("thumbnail_error"@),
        component_view_of("error"@),
    ]
}

/// The variants of the built-in layout, as plain values.
pub open spec fn builtin_variant_views() -> Seq<(Option<Seq<char>>, Option<Seq<char>>, Option<NodeConfigView>)> {
    seq![
        (
            Some("art_left"@),
            Some("Artwork Left"@),
            Some(NodeConfigView::Row(filled(None, 16000, left_view_children()))),
        ),
        (
            Some("art_right"@),
            Some("Artwork Right"@),
            Some(NodeConfigView::Row(filled(Some("end"@), 16000, right_view_children()))),
        ),
        (
            Some("art_top"@),
            Some("Artwork Top"@),
            Some(NodeConfigView::Column(filled(Some("center"@), 12000, top_view_children()))),
        ),
    ]
}

/// `b` is the built-in layout, down to every node.
pub open spec fn builtin_layout_exact(b: LayoutDocument) -> bool {
    &&& opt_text(b.meta.engine) == Some(LAYOUT_ENGINE_VERSION@)
    &&& opt_text(b.layout.default) == Some("art_left"@)
    &&& b.layout.variants@.len() == 3
    &&& forall|i: int| 0 <= i < 3 ==> #[trigger] variant_view(b.layout.variants@[i])
        == builtin_variant_views()[i]
}

/// `set` is what the built-in layout resolves to.
pub open spec fn resolves_builtin(set: LayoutSet) -> bool {
    exists|b: LayoutDocument|
        builtin_layout_exact(b) && builtin_layout_shape(b) && resolves_to(b, set)
}

/// Every fall back onto the built-in layout gives the same set: the same
/// variants, names and trees, in the same order, and the same default.
pub proof fn builtin_fallback_is_deterministic(a: LayoutSet, c: LayoutSet)
    requires
        resolves_builtin(a),
        resolves_builtin(c),
    ensures
        same_variants(a.variants@, c.variants@),
        a.default_variant@ == c.default_variant@,
        is_builtin_set(a),
        is_builtin_set(c),
{
    let b1 = choose|b: LayoutDocument|
        builtin_layout_exact(b) && builtin_layout_shape(b) && resolves_to(b, a);
    let b2 = choose|b: LayoutDocument|
        builtin_layout_exact(b) && builtin_layout_shape(b) && resolves_to(b, c);
    builtin_layout_keeps_a_variant(b1);
    builtin_layout_keeps_a_variant(b2);
    builtin_layout_resolves_to_builtin_set(b1, a);
    builtin_layout_resolves_to_builtin_set(b2, c);
    assert forall|i: int| 0 <= i < 3 implies #[trigger] variant_view(b1.layout.variants@[i])
        == variant_view(b2.layout.variants@[i]) by {
        assert(variant_view(b1.layout.variants@[i]) == builtin_variant_views()[i]);
        assert(variant_view(b2.layout.variants@[i]) == builtin_variant_views()[i]);
    }
    lemma_variants_ok_congruent(b1.layout.variants@, b2.layout.variants@, 3, a.variants@, c.variants@);
}

/// The built-in layout: artwork left, artwork right and artwork top.
pub fn builtin_layout_document() -> (r: LayoutDocument)
    ensures
        builtin_layout_shape(r),
        builtin_layout_exact(r),
{
    let mut left: Vec<LayoutNodeConfig> = Vec::new();
    left.push(component("thumbnail"));
    left.push(details_column());
    let mut right: Vec<LayoutNodeConfig> = Vec::new();
    right.push(details_column());
    right.push(component("thumbnail"));
    let mut top: Vec<LayoutNodeConfig> = Vec::new();
    top.push(component("thumbnail"));
    top.push(component("title"));
    top.push(component("metadata"));
    top.push(centered_component("playback_controls"));
    top.push(centered_component("timeline"));
    top.push(component("skin_warnings"));
    top.push(component("skin_error"));
    top.push(component("thumbnail_error"));
    top.push(component("error"));
    assert(views_of(left@) =~= left_view_children());
    assert(views_of(right@) =~= right_view_children());
    assert(views_of(top@) =~= top_view_children());
    let mut variants: Vec<LayoutVariantConfig> = Vec::new();
    variants.push(
        variant("art_left", "Artwork Left", LayoutNodeConfig::Row(container(16000, None, left))),
    );
    variants.push(
        variant(
            "art_right",
            "Artwork Right",
            LayoutNodeConfig::Row(container(16000, Some("end"), right)),
        ),
    );
    variants.push(
        variant(
            "art_top",
            "Artwork Top",
            LayoutNodeConfig::Column(container(12000, Some("center"), top)),
        ),
    );
    LayoutDocument {
        meta: LayoutMeta { engine: Some(String::from_str(LAYOUT_ENGINE_VERSION)) },
        layout: LayoutVariants { default: Some(String::from_str("art_left")), variants },
    }
}

/// What the built-in layout declares: the supported version, `art_left` as
/// default, the variants `art_left`, `art_right` and `art_top` in that
/// order, the first a visible row that starts with the thumbnail.
pub open spec fn builtin_layout_shape(b: LayoutDocument) -> bool {
    let vs = b.layout.variants@;
    &&& b.meta.engine is Some && b.meta.engine.unwrap()@ == LAYOUT_ENGINE_VERSION@
    &&& b.layout.default is Some && b.layout.default.unwrap()@ == "art_left"@
    &&& vs.len() == 3
    &&& vs[0].id is Some && vs[0].id.unwrap()@ == "art_left"@
    &&& vs[0].display_name is Some && vs[0].display_name.unwrap()@ == "Artwork Left"@
    &&& vs[1].id is Some && vs[1].id.unwrap()@ == "art_right"@
    &&& vs[1].display_name is Some && vs[1].display_name.unwrap()@ == "Artwork Right"@
    &&& vs[2].id is Some && vs[2].id.unwrap()@ == "art_top"@
    &&& vs[2].display_name is Some && vs[2].display_name.unwrap()@ == "Artwork Top"@
    &&& has_thumbnail_child(vs[0].structure, true, 0)
    &&& has_thumbnail_child(vs[1].structure, true, 1)
    &&& has_thumbnail_child(vs[2].structure, false, 0)
}

/// A visible row (`row`) or column whose child `j` is the thumbnail.
pub open spec fn has_thumbnail_child(s: Option<LayoutNodeConfig>, row: bool, j: int) -> bool {
    match s {
        Some(LayoutNodeConfig::Row(c)) => row && container_has_thumbnail(c, j),
        Some(LayoutNodeConfig::Column(c)) => !row && container_has_thumbnail(c, j),
        _ => false,
    }
}

pub open spec fn container_has_thumbnail(c: ContainerConfig, j: int) -> bool {
    c.visible is None && 0 <= j < c.children@.len() && match c.children@[j] {
        LayoutNodeConfig::Component(k) => k.visible is None && k.id is Some && k.id.unwrap()@
            == "thumbnail"@,
        _ => false,
    }
}

/// The set the built-in layout resolves to: `art_left`, `art_right` and
/// `art_top`, in that order, with their names, `art_left` first shown.
pub open spec fn is_builtin_set(r: LayoutSet) -> bool {
    &&& r.variants@.len() == 3
    &&& r.variants@[0].id@ == "art_left"@ && r.variants@[0].display_name@ == "Artwork Left"@
    &&& r.variants@[1].id@ == "art_right"@ && r.variants@[1].display_name@ == "Artwork Right"@
    &&& r.variants@[2].id@ == "art_top"@ && r.variants@[2].display_name@ == "Artwork Top"@
    &&& r.default_variant@ == "art_left"@
}

proof fn lemma_trim_literal(t: Seq<char>)
    requires
        t.len() > 0,
        !is_ws(t[0]),
        !is_ws(t.last()),
    ensures
        trimmed(t) == t,
{
}

proof fn lemma_thumbnail_survives(s: Option<LayoutNodeConfig>, row: bool, j: int)
    requires
        has_thumbnail_child(s, row, j),
    ensures
        s is Some && !node_ok(s.unwrap(), None),
{
    let c = match s {
        Some(LayoutNodeConfig::Row(c)) => c,
        Some(LayoutNodeConfig::Column(c)) => c,
        _ => arbitrary(),
    };
    let k = match c.children@[j] {
        LayoutNodeConfig::Component(k) => k,
        _ => arbitrary(),
    };
    reveal_strlit("thumbnail");
    let t = k.id.unwrap()@;
    lemma_trim_literal(t);
    assert(matches_word(t, "thumbnail"@));
    assert(component_spec(t) is Some);
    assert(!component_ok(k, None));
    if node_ok(s.unwrap(), None) {
        assert(children_ok(c, c.children@.len() as int, Seq::empty()));
        lemma_children_none(c, c.children@.len() as int, j);
    }
}

proof fn lemma_all_kept(vs: Seq<LayoutVariantConfig>, k: int, out: Seq<LayoutVariant>)
    requires
        0 <= k <= vs.len(),
        forall|i: int| 0 <= i < k ==> #[trigger] survives(vs[i]),
        forall|i: int, j: int|
            0 <= i < j < k ==> variant_id(vs[i], i as nat) != variant_id(vs[j], j as nat),
        variants_ok(vs, k, out),
    ensures
        out.len() == k,
        forall|i: int|
            0 <= i < k ==> (#[trigger] out[i]).id@ == variant_id(vs[i], i as nat) && out[i].display_name@
                == variant_display(vs[i], i as nat),
    decreases k,
{
    if k > 0 {
        let v = vs[k - 1];
        let id = variant_id(v, (k - 1) as nat);
        assert(survives(vs[k - 1]));
        if variants_ok(vs, k - 1, out) && (v.structure is None || id_taken(out, id) || node_ok(
            v.structure.unwrap(),
            None,
        )) {
            lemma_all_kept(vs, k - 1, out);
            let m = choose|m: int| 0 <= m < out.len() && (#[trigger] out[m]).id@ == id;
            assert(variant_id(vs[m], m as nat) != id);
        } else {
            lemma_all_kept(vs, k - 1, out.drop_last());
            assert forall|i: int| 0 <= i < k implies (#[trigger] out[i]).id@ == variant_id(
                vs[i],
                i as nat,
            ) && out[i].display_name@ == variant_display(vs[i], i as nat) by {
                if i < k - 1 {
                    assert(out[i] == out.drop_last()[i]);
                }
            }
        }
    }
}

/// Whatever document of the built-in shape is resolved, the result is the
/// built-in set.
pub proof fn builtin_layout_resolves_to_builtin_set(b: LayoutDocument, r: LayoutSet)
    requires
        builtin_layout_shape(b),
        resolves_to(b, r),
    ensures
        is_builtin_set(r),
{
    let vs = b.layout.variants@;
    builtin_layout_keeps_a_variant(b);
    lemma_thumbnail_survives(vs[0].structure, true, 0);
    lemma_thumbnail_survives(vs[1].structure, true, 1);
    lemma_thumbnail_survives(vs[2].structure, false, 0);
    reveal_strlit("art_left");
    reveal_strlit("art_right");
    reveal_strlit("art_top");
    reveal_strlit("Artwork Left");
    reveal_strlit("Artwork Right");
    reveal_strlit("Artwork Top");
    lemma_trim_literal("art_left"@);
    lemma_trim_literal("art_right"@);
    lemma_trim_literal("art_top"@);
    lemma_trim_literal("Artwork Left"@);
    lemma_trim_literal("Artwork Right"@);
    lemma_trim_literal("Artwork Top"@);
    assert(variant_id(vs[0], 0) == "art_left"@);
    assert(variant_id(vs[1], 1) == "art_right"@);
    assert(variant_id(vs[2], 2) == "art_top"@);
    assert("art_left"@[4] != "art_right"@[4]);
    assert("art_left"@[4] != "art_top"@[4]);
    assert("art_right"@[4] != "art_top"@[4]);
    assert forall|i: int| 0 <= i < 3 implies #[trigger] survives(vs[i]) by {}
    lemma_all_kept(vs, 3, r.variants@);
    assert(id_taken(r.variants@, "art_left"@)) by {
        assert(r.variants@[0].id@ == "art_left"@);
    }
}

proof fn lemma_children_none(c: ContainerConfig, k: int, j: int)
    requires
        children_ok(c, k, Seq::empty()),
        0 <= j < k,
    ensures
        node_ok(c.children@[j], None),
    decreases k,
{
    if j < k - 1 {
        lemma_children_none(c, k - 1, j);
    }
}

proof fn lemma_variants_none(vs: Seq<LayoutVariantConfig>, k: int, j: int)
    requires
        variants_ok(vs, k, Seq::empty()),
        0 <= j < k,
    ensures
        vs[j].structure is None || node_ok(vs[j].structure.unwrap(), None) || id_taken(
            Seq::empty(),
            variant_id(vs[j], j as nat),
        ),
    decreases k,
{
    if j < k - 1 {
        lemma_variants_none(vs, k - 1, j);
    }
}

/// The built-in layout always keeps at least one variant.
pub proof fn builtin_layout_keeps_a_variant(b: LayoutDocument)
    requires
        builtin_layout_shape(b),
    ensures
        !variants_ok(b.layout.variants@, b.layout.variants@.len() as int, Seq::empty()),
{
    let vs = b.layout.variants@;
    if variants_ok(vs, 3, Seq::empty()) {
        lemma_variants_none(vs, 3, 0);
        lemma_thumbnail_survives(vs[0].structure, true, 0);
    }
}

} // verus!
