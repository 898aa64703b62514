//! The raw theme document: every leaf optional, absence meaning "inherit".
//! A user document is laid over the built-in baseline field by field.

use vstd::prelude::*;
use crate::tokens::{
    Entry, Table, keys_unique, table_of, upsert, upsert_entry, upsert_keeps_keys_unique,
};
use crate::text::chars_of;

verus! {

/// Direction of a two-color gradient.
#[derive(Clone, Copy, Debug, PartialEq, Eq, Structural)]
pub enum GradientDirection {
    Vertical,
    Horizontal,
}

#[derive(Clone, Debug)]
pub struct MetaSection {
    pub engine: Option<String>,
    pub name: Option<String>,
    pub display_name: Option<String>,
    pub disable_vinyl_thumbnail: Option<bool>,
    pub transparent_background: Option<bool>,
}

/// `background = "..."` or a `{ type, color, start, end, direction }` table.
#[derive(Clone, Debug)]
pub enum BackgroundFieldConfig {
    Simple(String),
    Table(BackgroundTableConfig),
}

#[derive(Clone, Debug)]
pub struct BackgroundTableConfig {
    pub kind: Option<String>,
    pub color: Option<String>,
    pub start: Option<String>,
    pub end: Option<String>,
    pub direction: GradientDirection,
}

#[derive(Clone, Debug)]
pub struct AreaConfig {
    pub background: Option<BackgroundFieldConfig>,
    pub foreground: Option<String>,
    pub border_color: Option<String>,
    pub border_radius: Option<String>,
    pub border_width: Option<String>,
    pub show_border: Option<bool>,
}

#[derive(Clone, Debug)]
pub struct IconConfig {
    pub color: Option<String>,
    pub size_scale: Option<String>,
}

#[derive(Clone, Debug)]
pub struct ButtonConfig {
    pub background: Option<String>,
    pub foreground: Option<String>,
    pub hover_background: Option<String>,
    pub active_background: Option<String>,
    pub border_color: Option<String>,
    pub border_radius: Option<String>,
    pub border_width: Option<String>,
    pub icon: IconConfig,
}

#[derive(Clone, Debug)]
pub struct SliderConfig {
    pub track_fill: Option<String>,
    pub track_background: Option<String>,
    pub track_thickness: Option<String>,
    pub thumb_shape: Option<String>,
    pub thumb_color: Option<String>,
    pub thumb_radius: Option<String>,
    pub thumb_size: Option<String>,
    pub thumb_image: Option<String>,
}

/// An overlay image: a bare path, or a path with offsets.
#[derive(Clone, Debug)]
pub enum OverlayImageEntry {
    Path(String),
    Detailed { path: String, offset_x: Option<String>, offset_y: Option<String> },
}

#[derive(Clone, Debug)]
pub struct ThumbnailConfig {
    pub corner_radius: Option<String>,
    pub border_image: Option<String>,
    pub stroke_color: Option<String>,
    pub stroke_width: Option<String>,
    pub overlay_images: Option<Vec<OverlayImageEntry>>,
}

#[derive(Clone, Debug)]
pub struct TextConfig {
    pub color: Option<String>,
    pub size: Option<String>,
}

#[derive(Clone, Debug)]
pub struct TextComponents {
    pub title: TextConfig,
    pub body: TextConfig,
}

#[derive(Clone, Debug)]
pub struct ComponentsConfig {
    pub root: AreaConfig,
    pub panel: AreaConfig,
    pub button: ButtonConfig,
    pub slider: SliderConfig,
    pub thumbnail: ThumbnailConfig,
    pub text: TextComponents,
}

/// A theme document as read from disk.
#[derive(Clone, Debug)]
pub struct ThemeDocument {
    pub meta: MetaSection,
    pub colors: Vec<Entry>,
    pub vars: Vec<Entry>,
    pub use_gradient: Option<bool>,
    pub transparent_background: Option<bool>,
    pub components: ComponentsConfig,
}

/// The overlay's value when it has one, else the base's.
pub open spec fn pick<T>(base: Option<T>, over: Option<T>) -> Option<T> {
    if over is Some {
        over
    } else {
        base
    }
}

/// `base` with every entry of `over` stored in turn (see `upsert`).
pub open spec fn merge_table(base: Table, over: Table) -> Table
    decreases over.len(),
{
    if over.len() == 0 {
        base
    } else {
        let prev = merge_table(base, over.drop_last());
        upsert(prev, over.last().0, over.last().1)
    }
}

/// Laying tables over one another keeps the keys of the base unique.
pub proof fn merge_keeps_keys_unique(base: Table, over: Table)
    requires
        keys_unique(base),
    ensures
        keys_unique(merge_table(base, over)),
    decreases over.len(),
{
    if over.len() > 0 {
        merge_keeps_keys_unique(base, over.drop_last());
        upsert_keeps_keys_unique(merge_table(base, over.drop_last()), over.last().0, over.last().1);
    }
}

pub open spec fn merged_meta(b: MetaSection, o: MetaSection) -> MetaSection {
    MetaSection {
        engine: pick(b.engine, o.engine),
        name: pick(b.name, o.name),
        display_name: pick(b.display_name, o.display_name),
        disable_vinyl_thumbnail: pick(b.disable_vinyl_thumbnail, o.disable_vinyl_thumbnail),
        transparent_background: pick(b.transparent_background, o.transparent_background),
    }
}

pub open spec fn merged_area(b: AreaConfig, o: AreaConfig) -> AreaConfig {
    AreaConfig {
        background: pick(b.background, o.background),
        foreground: pick(b.foreground, o.foreground),
        border_color: pick(b.border_color, o.border_color),
        border_radius: pick(b.border_radius, o.border_radius),
        border_width: pick(b.border_width, o.border_width),
        show_border: pick(b.show_border, o.show_border),
    }
}

pub open spec fn merged_icon(b: IconConfig, o: IconConfig) -> IconConfig {
    IconConfig { color: pick(b.color, o.color), size_scale: pick(b.size_scale, o.size_scale) }
}

pub open spec fn merged_button(b: ButtonConfig, o: ButtonConfig) -> ButtonConfig {
    ButtonConfig {
        background: pick(b.background, o.background),
        foreground: pick(b.foreground, o.foreground),
        hover_background: pick(b.hover_background, o.hover_background),
        active_background: pick(b.active_background, o.active_background),
        border_color: pick(b.border_color, o.border_color),
        border_radius: pick(b.border_radius, o.border_radius),
        border_width: pick(b.border_width, o.border_width),
        icon: merged_icon(b.icon, o.icon),
    }
}

pub open spec fn merged_slider(b: SliderConfig, o: SliderConfig) -> SliderConfig {
    SliderConfig {
        track_fill: pick(b.track_fill, o.track_fill),
        track_background: pick(b.track_background, o.track_background),
        track_thickness: pick(b.track_thickness, o.track_thickness),
        thumb_shape: pick(b.thumb_shape, o.thumb_shape),
        thumb_color: pick(b.thumb_color, o.thumb_color),
        thumb_radius: pick(b.thumb_radius, o.thumb_radius),
        thumb_size: pick(b.thumb_size, o.thumb_size),
        thumb_image: pick(b.thumb_image, o.thumb_image),
    }
}

pub open spec fn merged_thumbnail(b: ThumbnailConfig, o: ThumbnailConfig) -> ThumbnailConfig {
    ThumbnailConfig {
        corner_radius: pick(b.corner_radius, o.corner_radius),
        border_image: pick(b.border_image, o.border_image),
        stroke_color: pick(b.stroke_color, o.stroke_color),
        stroke_width: pick(b.stroke_width, o.stroke_width),
        overlay_images: pick(b.overlay_images, o.overlay_images),
    }
}

pub open spec fn merged_text(b: TextConfig, o: TextConfig) -> TextConfig {
    TextConfig { color: pick(b.color, o.color), size: pick(b.size, o.size) }
}

/// Everything of a document but its two tables, merged.
pub open spec fn merged_fields(b: ThemeDocument, o: ThemeDocument, r: ThemeDocument) -> bool {
    &&& r.meta == merged_meta(b.meta, o.meta)
    &&& r.use_gradient == pick(b.use_gradient, o.use_gradient)
    &&& r.transparent_background == pick(b.transparent_background, o.transparent_background)
    &&& r.components.root == merged_area(b.components.root, o.components.root)
    &&& r.components.panel == merged_area(b.components.panel, o.components.panel)
    &&& r.components.button == merged_button(b.components.button, o.components.button)
    &&& r.components.slider == merged_slider(b.components.slider, o.components.slider)
    &&& r.components.thumbnail == merged_thumbnail(b.components.thumbnail, o.components.thumbnail)
    &&& r.components.text.title == merged_text(b.components.text.title, o.components.text.title)
    &&& r.components.text.body == merged_text(b.components.text.body, o.components.text.body)
}

/// `r` is `o` laid over `b`: each leaf of `o` that is present wins, the
/// tables take each entry of `o` in turn.
pub open spec fn merged(b: ThemeDocument, o: ThemeDocument, r: ThemeDocument) -> bool {
    &&& merged_fields(b, o, r)
    &&& table_of(r.colors@) == merge_table(table_of(b.colors@), table_of(o.colors@))
    &&& table_of(r.vars@) == merge_table(table_of(b.vars@), table_of(o.vars@))
}

fn take_if_some<T>(base: &mut Option<T>, over: Option<T>)
    ensures
        *final(base) == pick(*old(base), over),
{
    if over.is_some() {
        *base = over;
    }
}

/// Lays `overlay`'s area fields over `base`.
pub fn merge_area(base: &mut AreaConfig, overlay: AreaConfig)
    ensures
        *final(base) == merged_area(*old(base), overlay),
{
    take_if_some(&mut base.background, overlay.background);
    take_if_some(&mut base.foreground, overlay.foreground);
    take_if_some(&mut base.border_color, overlay.border_color);
    take_if_some(&mut base.border_radius, overlay.border_radius);
    take_if_some(&mut base.border_width, overlay.border_width);
    take_if_some(&mut base.show_border, overlay.show_border);
}

/// Lays `overlay`'s icon fields over `base`.
pub fn merge_icon(base: &mut IconConfig, overlay: IconConfig)
    ensures
        *final(base) == merged_icon(*old(base), overlay),
{
    take_if_some(&mut base.color, overlay.color);
    take_if_some(&mut base.size_scale, overlay.size_scale);
}

/// Lays `overlay`'s button fields, icon included, over `base`.
pub fn merge_button(base: &mut ButtonConfig, overlay: ButtonConfig)
    ensures
        *final(base) == merged_button(*old(base), overlay),
{
    take_if_some(&mut base.background, overlay.background);
    take_if_some(&mut base.foreground, overlay.foreground);
    take_if_some(&mut base.hover_background, overlay.hover_background);
    take_if_some(&mut base.active_background, overlay.active_background);
    take_if_some(&mut base.border_color, overlay.border_color);
    take_if_some(&mut base.border_radius, overlay.border_radius);
    take_if_some(&mut base.border_width, overlay.border_width);
    merge_icon(&mut base.icon, overlay.icon);
}

/// Lays `overlay`'s slider fields over `base`.
pub fn merge_slider(base: &mut SliderConfig, overlay: SliderConfig)
    ensures
        *final(base) == merged_slider(*old(base), overlay),
{
    take_if_some(&mut base.track_fill, overlay.track_fill);
    take_if_some(&mut base.track_background, overlay.track_background);
    take_if_some(&mut base.track_thickness, overlay.track_thickness);
    take_if_some(&mut base.thumb_shape, overlay.thumb_shape);
    take_if_some(&mut base.thumb_color, overlay.thumb_color);
    take_if_some(&mut base.thumb_radius, overlay.thumb_radius);
    take_if_some(&mut base.thumb_size, overlay.thumb_size);
    take_if_some(&mut base.thumb_image, overlay.thumb_image);
}

/// Lays `overlay`'s thumbnail fields over `base`.
pub fn merge_thumbnail(base: &mut ThumbnailConfig, overlay: ThumbnailConfig)
    ensures
        *final(base) == merged_thumbnail(*old(base), overlay),
{
    take_if_some(&mut base.corner_radius, overlay.corner_radius);
    take_if_some(&mut base.border_image, overlay.border_image);
    take_if_some(&mut base.stroke_color, overlay.stroke_color);
    take_if_some(&mut base.stroke_width, overlay.stroke_width);
    take_if_some(&mut base.overlay_images, overlay.overlay_images);
}

/// Lays `overlay`'s text fields over `base`.
pub fn merge_text(base: &mut TextConfig, overlay: TextConfig)
    ensures
        *final(base) == merged_text(*old(base), overlay),
{
    take_if_some(&mut base.color, overlay.color);
    take_if_some(&mut base.size, overlay.size);
}

/// Stores each entry of `overlay` into `base` in turn.
pub fn merge_entries(base: &mut Vec<Entry>, overlay: Vec<Entry>)
    ensures
        table_of(final(base)@) == merge_table(table_of(old(base)@), table_of(overlay@)),
{
    let mut i: usize = 0;
    while i < overlay.len()
        invariant
            i <= overlay@.len(),
            table_of(base@) == merge_table(table_of(old(base)@), table_of(overlay@.take(i as int))),
        decreases overlay@.len() - i,
    {
        let key = chars_of(overlay[i].key.as_str());
        let ghost prev = table_of(base@);
        upsert_entry(base, &key, &overlay[i].key, overlay[i].value.clone());
        assert(table_of(overlay@.take(i + 1)).drop_last() =~= table_of(overlay@.take(i as int)));
        assert(table_of(overlay@.take(i + 1)).last() == overlay@[i as int]@);
        i += 1;
    }
    assert(overlay@.take(overlay@.len() as int) =~= overlay@);
}

/// Lays a user document over a base document: every leaf the overlay sets
/// wins, every leaf it leaves out keeps the base's value, and its `colors`
/// and `vars` entries are stored over the base's.
pub fn merge_documents(base: &mut ThemeDocument, overlay: ThemeDocument)
    ensures
        merged(*old(base), overlay, *final(base)),
        keys_unique(table_of(old(base).colors@)) ==> keys_unique(table_of(final(base).colors@)),
        keys_unique(table_of(old(base).vars@)) ==> keys_unique(table_of(final(base).vars@)),
{
    proof {
        if keys_unique(table_of(base.colors@)) {
            merge_keeps_keys_unique(table_of(base.colors@), table_of(overlay.colors@));
        }
        if keys_unique(table_of(base.vars@)) {
            merge_keeps_keys_unique(table_of(base.vars@), table_of(overlay.vars@));
        }
    }
    let ThemeDocument { meta, colors, vars, use_gradient, transparent_background, components } =
        overlay;
    take_if_some(&mut base.meta.engine, meta.engine);
    take_if_some(&mut base.meta.name, meta.name);
    take_if_some(&mut base.meta.display_name, meta.display_name);
    take_if_some(&mut base.meta.disable_vinyl_thumbnail, meta.disable_vinyl_thumbnail);
    take_if_some(&mut base.meta.transparent_background, meta.transparent_background);
    take_if_some(&mut base.use_gradient, use_gradient);
    take_if_some(&mut base.transparent_background, transparent_background);
    merge_entries(&mut base.colors, colors);
    merge_entries(&mut base.vars, vars);
    let ComponentsConfig { root, panel, button, slider, thumbnail, text } = components;
    merge_area(&mut base.components.root, root);
    merge_area(&mut base.components.panel, panel);
    merge_button(&mut base.components.button, button);
    merge_slider(&mut base.components.slider, slider);
    merge_thumbnail(&mut base.components.thumbnail, thumbnail);
    merge_text(&mut base.components.text.title, text.title);
    merge_text(&mut base.components.text.body, text.body);
}

impl Default for GradientDirection {
    fn default() -> (r: Self)
        ensures
            r == GradientDirection::Vertical,
    {
        GradientDirection::Vertical
    }
}

impl Default for MetaSection {
    /// Declares the supported engine version and nothing else.
    fn default() -> (r: Self)
        ensures
            r.engine is Some && r.engine.unwrap()@ == "1"@,
            r.name is None && r.display_name is None,
            r.disable_vinyl_thumbnail is None && r.transparent_background is None,
    {
        MetaSection {
            engine: Some(String::from_str("1")),
            name: None,
            display_name: None,
            disable_vinyl_thumbnail: None,
            transparent_background: None,
        }
    }
}

impl Default for BackgroundTableConfig {
    fn default() -> (r: Self)
        ensures
            r.kind is None && r.color is None && r.start is None && r.end is None,
            r.direction == GradientDirection::Vertical,
    {
        BackgroundTableConfig {
            kind: None,
            color: None,
            start: None,
            end: None,
            direction: GradientDirection::Vertical,
        }
    }
}

impl Default for AreaConfig {
    fn default() -> (r: Self)
        ensures
            r.background is None && r.foreground is None && r.border_color is None,
            r.border_radius is None && r.border_width is None && r.show_border is None,
    {
        AreaConfig {
            background: None,
            foreground: None,
            border_color: None,
            border_radius: None,
            border_width: None,
            show_border: None,
        }
    }
}

impl Default for IconConfig {
    fn default() -> (r: Self)
        ensures
            r.color is None && r.size_scale is None,
    {
        IconConfig { color: None, size_scale: None }
    }
}

impl Default for ButtonConfig {
    fn default() -> (r: Self)
        ensures
            r.background is None && r.foreground is None && r.hover_background is None,
            r.active_background is None && r.border_color is None,
            r.border_radius is None && r.border_width is None,
            r.icon.color is None && r.icon.size_scale is None,
    {
        ButtonConfig {
            background: None,
            foreground: None,
            hover_background: None,
            active_background: None,
            border_color: None,
            border_radius: None,
            border_width: None,
            icon: IconConfig::default(),
        }
    }
}

impl Default for SliderConfig {
    fn default() -> (r: Self)
        ensures
            r.track_fill is None && r.track_background is None && r.track_thickness is None,
            r.thumb_shape is None && r.thumb_color is None && r.thumb_radius is None,
            r.thumb_size is None && r.thumb_image is None,
    {
        SliderConfig {
            track_fill: None,
            track_background: None,
            track_thickness: None,
            thumb_shape: None,
            thumb_color: None,
            thumb_radius: None,
            thumb_size: None,
            thumb_image: None,
        }
    }
}

impl Default for ThumbnailConfig {
    fn default() -> (r: Self)
        ensures
            r.corner_radius is None && r.border_image is None && r.stroke_color is None,
            r.stroke_width is None && r.overlay_images is None,
    {
        ThumbnailConfig {
            corner_radius: None,
            border_image: None,
            stroke_color: None,
            stroke_width: None,
            overlay_images: None,
        }
    }
}

impl Default for TextConfig {
    fn default() -> (r: Self)
        ensures
            r.color is None && r.size is None,
    {
        TextConfig { color: None, size: None }
    }
}

impl Default for TextComponents {
    fn default() -> (r: Self)
        ensures
            r.title.color is None && r.title.size is None,
            r.body.color is None && r.body.size is None,
    {
        TextComponents { title: TextConfig::default(), body: TextConfig::default() }
    }
}

impl Default for ComponentsConfig {
    /// Every component section empty.
    fn default() -> (r: Self)
        ensures
            r.root == AreaConfig::default_spec(),
            r.panel == AreaConfig::default_spec(),
            r.text.title.color is None && r.text.title.size is None,
            r.text.body.color is None && r.text.body.size is None,
            r.thumbnail.overlay_images is None && r.thumbnail.border_image is None,
            r.slider.thumb_shape is None && r.slider.thumb_image is None,
    {
        ComponentsConfig {
            root: AreaConfig::default(),
            panel: AreaConfig::default(),
            button: ButtonConfig::default(),
            slider: SliderConfig::default(),
            thumbnail: ThumbnailConfig::default(),
            text: TextComponents::default(),
        }
    }
}

impl AreaConfig {
    pub open spec fn default_spec() -> AreaConfig {
        AreaConfig {
            background: None,
            foreground: None,
            border_color: None,
            border_radius: None,
            border_width: None,
            show_border: None,
        }
    }
}

impl Default for ThemeDocument {
    /// A document that declares the supported version and sets nothing.
    fn default() -> (r: Self)
        ensures
            r.meta.engine is Some && r.meta.engine.unwrap()@ == "1"@,
            r.meta.name is None && r.meta.display_name is None,
            r.colors@.len() == 0 && r.vars@.len() == 0,
            r.use_gradient is None && r.transparent_background is None,
            r.components.root == AreaConfig::default_spec(),
            r.components.panel == AreaConfig::default_spec(),
    {
        ThemeDocument {
            meta: MetaSection::default(),
            colors: Vec::new(),
            vars: Vec::new(),
            use_gradient: None,
            transparent_background: None,
            components: ComponentsConfig::default(),
        }
    }
}

} // verus!
