//! Theme resolution: a merged theme document becomes a fully concrete theme
//! in which every style field holds a final value.

use vstd::prelude::*;
use vstd::string::*;
use crate::color::{Rgba, color_spec, parse_color, rgba, transparent, white};
use crate::document::{
    ThemeDocument, MetaSection, ComponentsConfig, TextComponents, merged, AreaConfig, BackgroundFieldConfig, BackgroundTableConfig, ButtonConfig, GradientDirection,
    IconConfig, OverlayImageEntry, SliderConfig, TextConfig, ThumbnailConfig,
};
use crate::number::{number_spec, parse_number};
use crate::text::{chars_of, is_word, matches_word, trim_str, trimmed};
use crate::document::merge_documents;
use crate::tokens::{
    has_message, lemma_has_message_kept,
    ContextView, Entry, ValueContext, extends, resolve_context, resolved_context, resolve_spec,
    resolve_tokens, table_of, texts, token_warnings,
};

verus! {

/// A named resolved color.
#[derive(Clone, Debug)]
pub struct ColorEntry {
    pub name: String,
    pub color: Rgba,
}

/// A named resolved number, in thousandths.
#[derive(Clone, Debug)]
pub struct NumberEntry {
    pub name: String,
    pub value: i64,
}

impl View for ColorEntry {
    type V = (Seq<char>, Rgba);

    open spec fn view(&self) -> (Seq<char>, Rgba) {
        (self.name@, self.color)
    }
}

impl View for NumberEntry {
    type V = (Seq<char>, i64);

    open spec fn view(&self) -> (Seq<char>, i64) {
        (self.name@, self.value)
    }
}

pub open spec fn colors_of(v: Seq<ColorEntry>) -> Seq<(Seq<char>, Rgba)> {
    v.map_values(|e: ColorEntry| e@)
}

pub open spec fn numbers_of(v: Seq<NumberEntry>) -> Seq<(Seq<char>, i64)> {
    v.map_values(|e: NumberEntry| e@)
}

/// The value stored under `key` in a named table (the first such entry).
pub open spec fn find_named<V>(t: Seq<(Seq<char>, V)>, key: Seq<char>) -> Option<V>
    decreases t.len(),
{
    if t.len() == 0 {
        None
    } else if t[0].0 == key {
        Some(t[0].1)
    } else {
        find_named(t.drop_first(), key)
    }
}

fn find_color(t: &Vec<ColorEntry>, key: &String) -> (r: Option<Rgba>)
    ensures
        r == find_named(colors_of(t@), key@),
{
    let mut i: usize = 0;
    assert(colors_of(t@).skip(0) =~= colors_of(t@));
    while i < t.len()
        invariant
            i <= t@.len(),
            find_named(colors_of(t@), key@) == find_named(colors_of(t@).skip(i as int), key@),
        decreases t@.len() - i,
    {
        assert(colors_of(t@).skip(i as int)[0] == t@[i as int]@);
        assert(colors_of(t@).skip(i as int).drop_first() =~= colors_of(t@).skip(i + 1));
        if t[i].name == *key {
            return Some(t[i].color);
        }
        i += 1;
    }
    None
}

fn find_number(t: &Vec<NumberEntry>, key: &str) -> (r: Option<i64>)
    ensures
        r == find_named(numbers_of(t@), key@),
{
    let k = String::from_str(key);
    let mut i: usize = 0;
    assert(numbers_of(t@).skip(0) =~= numbers_of(t@));
    while i < t.len()
        invariant
            i <= t@.len(),
            k@ == key@,
            find_named(numbers_of(t@), key@) == find_named(numbers_of(t@).skip(i as int), key@),
        decreases t@.len() - i,
    {
        assert(numbers_of(t@).skip(i as int)[0] == t@[i as int]@);
        assert(numbers_of(t@).skip(i as int).drop_first() =~= numbers_of(t@).skip(i + 1));
        if t[i].name == k {
            return Some(t[i].value);
        }
        i += 1;
    }
    None
}

#[derive(Clone, Copy, Debug, PartialEq, Eq, Structural)]
pub struct GradientSpec {
    pub start: Rgba,
    pub end: Rgba,
    pub direction: GradientDirection,
}

#[derive(Clone, Copy, Debug, PartialEq, Eq, Structural)]
pub enum AreaBackground {
    Solid(Rgba),
    Gradient(GradientSpec),
}

impl AreaBackground {
    /// The solid color, or the gradient's start color.
    pub fn primary_color(&self) -> (r: Rgba)
        ensures
            r == match *self {
                AreaBackground::Solid(c) => c,
                AreaBackground::Gradient(g) => g.start,
            },
    {
        match self {
            AreaBackground::Solid(c) => *c,
            AreaBackground::Gradient(g) => g.start,
        }
    }
}

/// Style of a root or panel area. Lengths are in thousandths.
#[derive(Clone, Copy, Debug, PartialEq, Eq, Structural)]
pub struct AreaStyle {
    pub background: AreaBackground,
    pub foreground: Rgba,
    pub border_color: Rgba,
    pub border_radius: i64,
    pub border_width: i64,
    pub show_border: bool,
}

impl AreaStyle {
    pub fn background_color(&self) -> (r: Rgba)
        ensures
            r == match self.background {
                AreaBackground::Solid(c) => c,
                AreaBackground::Gradient(g) => g.start,
            },
    {
        self.background.primary_color()
    }
}

#[derive(Clone, Copy, Debug, PartialEq, Eq, Structural)]
pub struct ButtonStyle {
    pub background: Rgba,
    pub foreground: Rgba,
    pub hover_background: Rgba,
    pub active_background: Rgba,
    pub border_color: Rgba,
    pub border_radius: i64,
    pub border_width: i64,
}

#[derive(Clone, Copy, Debug, PartialEq, Eq, Structural)]
pub struct IconStyle {
    pub color: Rgba,
    pub size_scale: i64,
}

#[derive(Clone, Copy, Debug, PartialEq, Eq, Structural)]
pub struct TextStyle {
    pub color: Rgba,
    pub size: i64,
}

/// The slider's thumb: a colored circle, or an image from the skin's assets
/// (`path` is relative to the assets directory).
#[derive(Clone, Debug)]
pub enum SliderThumb {
    Circle { color: Rgba, radius: i64 },
    Image { color: Rgba, path: String, size: i64 },
}

pub enum SliderThumbView {
    Circle { color: Rgba, radius: i64 },
    Image { color: Rgba, path: Seq<char>, size: i64 },
}

impl View for SliderThumb {
    type V = SliderThumbView;

    open spec fn view(&self) -> SliderThumbView {
        match *self {
            SliderThumb::Circle { color, radius } => SliderThumbView::Circle { color, radius },
            SliderThumb::Image { color, path, size } => SliderThumbView::Image {
                color,
                path: path@,
                size,
            },
        }
    }
}

#[derive(Clone, Debug)]
pub struct SliderStyle {
    pub track_fill: Rgba,
    pub track_background: Rgba,
    pub track_thickness: i64,
    pub thumb: SliderThumb,
}

pub struct SliderStyleView {
    pub track_fill: Rgba,
    pub track_background: Rgba,
    pub track_thickness: i64,
    pub thumb: SliderThumbView,
}

impl View for SliderStyle {
    type V = SliderStyleView;

    open spec fn view(&self) -> SliderStyleView {
        SliderStyleView {
            track_fill: self.track_fill,
            track_background: self.track_background,
            track_thickness: self.track_thickness,
            thumb: self.thumb@,
        }
    }
}

/// An image drawn over the thumbnail (`path` is relative to the assets
/// directory), shifted by the offsets, in thousandths.
#[derive(Clone, Debug)]
pub struct ThumbnailOverlay {
    pub path: String,
    pub offset_x: i64,
    pub offset_y: i64,
}

pub struct OverlayView {
    pub path: Seq<char>,
    pub offset_x: i64,
    pub offset_y: i64,
}

impl View for ThumbnailOverlay {
    type V = OverlayView;

    open spec fn view(&self) -> OverlayView {
        OverlayView { path: self.path@, offset_x: self.offset_x, offset_y: self.offset_y }
    }
}

pub open spec fn overlays_of(v: Seq<ThumbnailOverlay>) -> Seq<OverlayView> {
    v.map_values(|o: ThumbnailOverlay| o@)
}

#[derive(Clone, Debug)]
pub struct ThumbnailStyle {
    pub corner_radius: i64,
    pub stroke_color: Rgba,
    pub stroke_width: i64,
    pub overlays: Vec<ThumbnailOverlay>,
}

pub struct ThumbnailStyleView {
    pub corner_radius: i64,
    pub stroke_color: Rgba,
    pub stroke_width: i64,
    pub overlays: Seq<OverlayView>,
}

impl View for ThumbnailStyle {
    type V = ThumbnailStyleView;

    open spec fn view(&self) -> ThumbnailStyleView {
        ThumbnailStyleView {
            corner_radius: self.corner_radius,
            stroke_color: self.stroke_color,
            stroke_width: self.stroke_width,
            overlays: overlays_of(self.overlays@),
        }
    }
}

/// A color string: its tokens resolved, then the name of an already
/// resolved color or a color value; transparent when it is neither.
pub open spec fn named_color(v: Seq<char>, ctx: ContextView, named: Seq<(Seq<char>, Rgba)>) -> Rgba {
    let r = resolve_spec(v, ctx);
    match find_named(named, r) {
        Some(c) => c,
        None => match color_spec(r) {
            Ok(c) => c,
            Err(_) => transparent(),
        },
    }
}

pub open spec fn color_field(
    f: Option<String>,
    ctx: ContextView,
    named: Seq<(Seq<char>, Rgba)>,
) -> Option<Rgba> {
    match f {
        Some(v) => Some(named_color(v@, ctx, named)),
        None => None,
    }
}

pub open spec fn number_field(f: Option<String>, ctx: ContextView) -> Option<i64> {
    match f {
        Some(v) => number_spec(resolve_spec(v@, ctx)),
        None => None,
    }
}

pub open spec fn or_else<T>(o: Option<T>, d: T) -> T {
    match o {
        Some(v) => v,
        None => d,
    }
}

/// The warning a color string adds after its tokens: one naming the
/// resolved text when it is neither a known color name nor a color value.
pub open spec fn color_warnings(
    v: Seq<char>,
    ctx: ContextView,
    named: Seq<(Seq<char>, Rgba)>,
) -> Seq<Seq<char>> {
    let r = resolve_spec(v, ctx);
    if find_named(named, r) is None && color_spec(r) is Err {
        seq![r + ": not a color; using transparent"@]
    } else {
        Seq::empty()
    }
}

/// Resolves a color string: its tokens are resolved, then it names a
/// resolved color or is parsed as a color value; an unusable value gives
/// transparent and a warning.
pub fn resolve_color_string(
    value: &String,
    ctx: &ValueContext,
    colors: &Vec<ColorEntry>,
    warnings: &mut Vec<String>,
) -> (r: Rgba)
    ensures
        r == named_color(value@, ctx@, colors_of(colors@)),
        extends(final(warnings)@, old(warnings)@),
        texts(final(warnings)@) == texts(old(warnings)@) + token_warnings(value@, ctx@, true)
            + color_warnings(value@, ctx@, colors_of(colors@)),
{
    let resolved = resolve_tokens(value, ctx, warnings);
    let ghost mid = warnings@;
    match find_color(colors, &resolved) {
        Some(c) => {
            assert(texts(warnings@) =~= texts(mid) + Seq::<Seq<char>>::empty());
            c
        },
        None => match parse_color(resolved.as_str()) {
            Ok(c) => {
                assert(texts(warnings@) =~= texts(mid) + Seq::<Seq<char>>::empty());
                c
            },
            Err(_) => {
                let mut msg = resolved.clone();
                msg.append(": not a color; using transparent");
                warnings.push(msg);
                assert(texts(warnings@) =~= texts(mid) + seq![msg@]);
                Rgba::transparent()
            },
        },
    }
}

pub fn resolve_color_field(
    value: &Option<String>,
    ctx: &ValueContext,
    colors: &Vec<ColorEntry>,
    warnings: &mut Vec<String>,
) -> (r: Option<Rgba>)
    ensures
        r == color_field(*value, ctx@, colors_of(colors@)),
        extends(final(warnings)@, old(warnings)@),
        value is None ==> final(warnings)@ == old(warnings)@,
{
    match value {
        Some(v) => Some(resolve_color_string(v, ctx, colors, warnings)),
        None => None,
    }
}

/// Resolves a number field; an unparsable value gives `None` and a warning.
pub fn resolve_number_field(
    value: &Option<String>,
    ctx: &ValueContext,
    warnings: &mut Vec<String>,
) -> (r: Option<i64>)
    ensures
        r == number_field(*value, ctx@),
        extends(final(warnings)@, old(warnings)@),
        value is None ==> final(warnings)@ == old(warnings)@,
        texts(final(warnings)@) == texts(old(warnings)@) + number_warnings(*value, ctx@),
{
    match value {
        Some(v) => {
            let resolved = resolve_tokens(v, ctx, warnings);
            let ghost mid = warnings@;
            let n = parse_number(resolved.as_str());
            if n.is_none() {
                let mut msg = String::from_str("Could not parse number value: ");
                msg.append(resolved.as_str());
                warnings.push(msg);
                assert(texts(warnings@) =~= texts(mid) + seq![msg@]);
            } else {
                assert(texts(warnings@) =~= texts(mid) + Seq::<Seq<char>>::empty());
            }
            n
        },
        None => {
            assert(texts(warnings@) =~= texts(old(warnings)@) + Seq::<Seq<char>>::empty());
            None
        },
    }
}

/// The warnings a number field adds: those of its tokens, then one naming
/// the resolved text when it is no number.
pub open spec fn number_warnings(f: Option<String>, ctx: ContextView) -> Seq<Seq<char>> {
    match f {
        Some(v) => token_warnings(v@, ctx, true) + if number_spec(resolve_spec(v@, ctx)) is None {
            seq!["Could not parse number value: "@ + resolve_spec(v@, ctx)]
        } else {
            Seq::empty()
        },
        None => Seq::empty(),
    }
}

fn unwrap_color(o: Option<Rgba>, d: Rgba) -> (r: Rgba)
    ensures
        r == or_else(o, d),
{
    match o {
        Some(c) => c,
        None => d,
    }
}

fn unwrap_number(o: Option<i64>, d: i64) -> (r: i64)
    ensures
        r == or_else(o, d),
{
    match o {
        Some(c) => c,
        None => d,
    }
}

pub open spec fn gradient_spec(
    t: BackgroundTableConfig,
    ctx: ContextView,
    named: Seq<(Seq<char>, Rgba)>,
) -> Option<AreaBackground> {
    if t.start is None || t.end is None {
        None
    } else {
        let s = named_color(t.start.unwrap()@, ctx, named);
        let e = named_color(t.end.unwrap()@, ctx, named);
        if s == e {
            Some(AreaBackground::Solid(s))
        } else {
            Some(AreaBackground::Gradient(GradientSpec { start: s, end: e, direction: t.direction }))
        }
    }
}

pub open spec fn solid_spec(
    t: BackgroundTableConfig,
    ctx: ContextView,
    named: Seq<(Seq<char>, Rgba)>,
) -> Option<AreaBackground> {
    match t.color {
        Some(c) => Some(AreaBackground::Solid(named_color(c@, ctx, named))),
        None => None,
    }
}

/// A background table: its `type` (trimmed, any ASCII case) picks solid or
/// gradient; without a type, `start` or `end` means gradient and `color`
/// means solid.
pub open spec fn background_table_spec(
    t: BackgroundTableConfig,
    ctx: ContextView,
    named: Seq<(Seq<char>, Rgba)>,
) -> Option<AreaBackground> {
    match t.kind {
        Some(k) => if matches_word(trimmed(k@), "solid"@) {
            solid_spec(t, ctx, named)
        } else if matches_word(trimmed(k@), "gradient"@) {
            gradient_spec(t, ctx, named)
        } else {
            None
        },
        None => if t.start is Some || t.end is Some {
            gradient_spec(t, ctx, named)
        } else if t.color is Some {
            solid_spec(t, ctx, named)
        } else {
            None
        },
    }
}

/// The trimmed `type` of a background table when it is neither solid nor
/// gradient.
pub open spec fn unknown_background_kind(t: BackgroundTableConfig) -> Option<Seq<char>> {
    match t.kind {
        Some(k) => if matches_word(trimmed(k@), "solid"@) || matches_word(trimmed(k@), "gradient"@) {
            None
        } else {
            Some(trimmed(k@))
        },
        None => None,
    }
}

pub open spec fn background_spec(
    b: Option<BackgroundFieldConfig>,
    ctx: ContextView,
    named: Seq<(Seq<char>, Rgba)>,
) -> Option<AreaBackground> {
    match b {
        None => None,
        Some(BackgroundFieldConfig::Simple(s)) => Some(
            AreaBackground::Solid(named_color(s@, ctx, named)),
        ),
        Some(BackgroundFieldConfig::Table(t)) => background_table_spec(t, ctx, named),
    }
}

/// A gradient whose two ends resolve to the same color is a solid
/// background of that color, never a degenerate gradient.
pub proof fn gradient_with_equal_ends_is_solid(
    t: BackgroundTableConfig,
    ctx: ContextView,
    named: Seq<(Seq<char>, Rgba)>,
)
    requires
        t.start is Some,
        t.end is Some,
        named_color(t.start.unwrap()@, ctx, named) == named_color(t.end.unwrap()@, ctx, named),
    ensures
        gradient_spec(t, ctx, named) == Some(
            AreaBackground::Solid(named_color(t.start.unwrap()@, ctx, named)),
        ),
        t.kind is None ==> background_table_spec(t, ctx, named) == gradient_spec(t, ctx, named),
{
}

/// A gradient background; one whose two ends resolve to the same color is a
/// solid background of that color.
pub fn resolve_gradient_background(
    table: &BackgroundTableConfig,
    ctx: &ValueContext,
    colors: &Vec<ColorEntry>,
    warnings: &mut Vec<String>,
) -> (r: Option<AreaBackground>)
    ensures
        r == gradient_spec(*table, ctx@, colors_of(colors@)),
        r is None ==> final(warnings)@.len() > old(warnings)@.len(),
        table.start is Some && table.end is Some && named_color(table.start.unwrap()@, ctx@, colors_of(colors@))
            == named_color(table.end.unwrap()@, ctx@, colors_of(colors@)) ==> r == Some(
            AreaBackground::Solid(named_color(table.start.unwrap()@, ctx@, colors_of(colors@))),
        ),
        extends(final(warnings)@, old(warnings)@),
{
    let start_value = match &table.start {
        Some(s) => s,
        None => {
            warnings.push(String::from_str("Gradient background missing 'start' color"));
            return None;
        },
    };
    let end_value = match &table.end {
        Some(e) => e,
        None => {
            warnings.push(String::from_str("Gradient background missing 'end' color"));
            return None;
        },
    };
    let start = resolve_color_string(start_value, ctx, colors, warnings);
    let end = resolve_color_string(end_value, ctx, colors, warnings);
    if start == end {
        return Some(AreaBackground::Solid(start));
    }
    Some(AreaBackground::Gradient(GradientSpec { start, end, direction: table.direction }))
}

pub fn resolve_solid_background(
    table: &BackgroundTableConfig,
    ctx: &ValueContext,
    colors: &Vec<ColorEntry>,
    warnings: &mut Vec<String>,
) -> (r: Option<AreaBackground>)
    ensures
        r == solid_spec(*table, ctx@, colors_of(colors@)),
        r is None ==> final(warnings)@.len() > old(warnings)@.len(),
        extends(final(warnings)@, old(warnings)@),
{
    match &table.color {
        Some(c) => Some(AreaBackground::Solid(resolve_color_string(c, ctx, colors, warnings))),
        None => {
            warnings.push(String::from_str("Solid background requires 'color' value"));
            None
        },
    }
}

pub fn resolve_background_table(
    table: &BackgroundTableConfig,
    ctx: &ValueContext,
    colors: &Vec<ColorEntry>,
    warnings: &mut Vec<String>,
) -> (r: Option<AreaBackground>)
    ensures
        r == background_table_spec(*table, ctx@, colors_of(colors@)),
        r is None ==> final(warnings)@.len() > old(warnings)@.len(),
        unknown_background_kind(*table) matches Some(k) ==> final(warnings)@ == old(warnings)@.push(
            final(warnings)@.last(),
        ) && final(warnings)@.last()@ == "Unknown background type '"@ + k + "'"@,
        extends(final(warnings)@, old(warnings)@),
{
    match &table.kind {
        Some(k) => {
            let kind = chars_of(trim_str(k.as_str()));
            if is_word(&kind, "solid") {
                resolve_solid_background(table, ctx, colors, warnings)
            } else if is_word(&kind, "gradient") {
                resolve_gradient_background(table, ctx, colors, warnings)
            } else {
                let mut msg = String::from_str("Unknown background type '");
                msg.append(trim_str(k.as_str()));
                msg.append("'");
                warnings.push(msg);
                None
            }
        },
        None => {
            if table.start.is_some() || table.end.is_some() {
                resolve_gradient_background(table, ctx, colors, warnings)
            } else if table.color.is_some() {
                resolve_solid_background(table, ctx, colors, warnings)
            } else {
                warnings.push(
                    String::from_str("Background table requires either 'color' or 'start'/'end'"),
                );
                None
            }
        },
    }
}

pub fn resolve_area_background(
    value: &Option<BackgroundFieldConfig>,
    ctx: &ValueContext,
    colors: &Vec<ColorEntry>,
    warnings: &mut Vec<String>,
) -> (r: Option<AreaBackground>)
    ensures
        r == background_spec(*value, ctx@, colors_of(colors@)),
        extends(final(warnings)@, old(warnings)@),
        value is None ==> final(warnings)@ == old(warnings)@,
{
    match value {
        None => None,
        Some(BackgroundFieldConfig::Simple(s)) => Some(
            AreaBackground::Solid(resolve_color_string(s, ctx, colors, warnings)),
        ),
        Some(BackgroundFieldConfig::Table(t)) => resolve_background_table(t, ctx, colors, warnings),
    }
}

/// An area's style. A missing or unusable background is a dark solid fill;
/// without `show_border`, the border shows when it has width and a color
/// other than transparent.
pub open spec fn area_spec(
    cfg: AreaConfig,
    ctx: ContextView,
    named: Seq<(Seq<char>, Rgba)>,
    radius_default: i64,
) -> AreaStyle {
    let border_color = or_else(color_field(cfg.border_color, ctx, named), transparent());
    let border_width = or_else(number_field(cfg.border_width, ctx), 0);
    AreaStyle {
        background: or_else(
            background_spec(cfg.background, ctx, named),
            AreaBackground::Solid(rgba(32, 32, 32, 255)),
        ),
        foreground: or_else(color_field(cfg.foreground, ctx, named), white()),
        border_color,
        border_radius: or_else(number_field(cfg.border_radius, ctx), radius_default),
        border_width,
        show_border: or_else(cfg.show_border, border_width > 0 && border_color != transparent()),
    }
}

pub fn resolve_area(
    cfg: &AreaConfig,
    ctx: &ValueContext,
    colors: &Vec<ColorEntry>,
    radius_default: i64,
    warnings: &mut Vec<String>,
) -> (r: AreaStyle)
    ensures
        r == area_spec(*cfg, ctx@, colors_of(colors@), radius_default),
        extends(final(warnings)@, old(warnings)@),
        (cfg.background is None && cfg.foreground is None && cfg.border_color is None
            && cfg.border_radius is None && cfg.border_width is None) ==> final(warnings)@
            == old(warnings)@,
{
    let background = match resolve_area_background(&cfg.background, ctx, colors, warnings) {
        Some(b) => b,
        None => AreaBackground::Solid(Rgba::rgb(32, 32, 32)),
    };
    let foreground = unwrap_color(
        resolve_color_field(&cfg.foreground, ctx, colors, warnings),
        Rgba::white(),
    );
    let border_color = unwrap_color(
        resolve_color_field(&cfg.border_color, ctx, colors, warnings),
        Rgba::transparent(),
    );
    let border_radius = unwrap_number(
        resolve_number_field(&cfg.border_radius, ctx, warnings),
        radius_default,
    );
    let border_width = unwrap_number(resolve_number_field(&cfg.border_width, ctx, warnings), 0);
    let show_border = match cfg.show_border {
        Some(b) => b,
        None => border_width > 0 && !border_color.is_transparent(),
    };
    AreaStyle { background, foreground, border_color, border_radius, border_width, show_border }
}

pub open spec fn button_spec(
    cfg: ButtonConfig,
    ctx: ContextView,
    named: Seq<(Seq<char>, Rgba)>,
    radius_default: i64,
) -> ButtonStyle {
    ButtonStyle {
        background: or_else(color_field(cfg.background, ctx, named), rgba(0, 120, 212, 255)),
        foreground: or_else(color_field(cfg.foreground, ctx, named), white()),
        hover_background: or_else(
            color_field(cfg.hover_background, ctx, named),
            rgba(15, 108, 189, 255),
        ),
        active_background: or_else(
            color_field(cfg.active_background, ctx, named),
            rgba(17, 94, 163, 255),
        ),
        border_color: or_else(color_field(cfg.border_color, ctx, named), transparent()),
        border_radius: or_else(number_field(cfg.border_radius, ctx), radius_default),
        border_width: or_else(number_field(cfg.border_width, ctx), 0),
    }
}

pub fn resolve_button(
    cfg: &ButtonConfig,
    ctx: &ValueContext,
    colors: &Vec<ColorEntry>,
    radius_default: i64,
    warnings: &mut Vec<String>,
) -> (r: ButtonStyle)
    ensures
        r == button_spec(*cfg, ctx@, colors_of(colors@), radius_default),
        extends(final(warnings)@, old(warnings)@),
{
    let background = unwrap_color(
        resolve_color_field(&cfg.background, ctx, colors, warnings),
        Rgba::rgb(0, 120, 212),
    );
    let foreground = unwrap_color(
        resolve_color_field(&cfg.foreground, ctx, colors, warnings),
        Rgba::white(),
    );
    let hover_background = unwrap_color(
        resolve_color_field(&cfg.hover_background, ctx, colors, warnings),
        Rgba::rgb(15, 108, 189),
    );
    let active_background = unwrap_color(
        resolve_color_field(&cfg.active_background, ctx, colors, warnings),
        Rgba::rgb(17, 94, 163),
    );
    let border_color = unwrap_color(
        resolve_color_field(&cfg.border_color, ctx, colors, warnings),
        Rgba::transparent(),
    );
    let border_radius = unwrap_number(
        resolve_number_field(&cfg.border_radius, ctx, warnings),
        radius_default,
    );
    let border_width = unwrap_number(resolve_number_field(&cfg.border_width, ctx, warnings), 0);
    ButtonStyle {
        background,
        foreground,
        hover_background,
        active_background,
        border_color,
        border_radius,
        border_width,
    }
}

pub open spec fn icon_spec(cfg: IconConfig, ctx: ContextView, named: Seq<(Seq<char>, Rgba)>) -> IconStyle {
    IconStyle {
        color: or_else(color_field(cfg.color, ctx, named), white()),
        size_scale: or_else(number_field(cfg.size_scale, ctx), 1000),
    }
}

pub fn resolve_icon(
    cfg: &IconConfig,
    ctx: &ValueContext,
    colors: &Vec<ColorEntry>,
    warnings: &mut Vec<String>,
) -> (r: IconStyle)
    ensures
        r == icon_spec(*cfg, ctx@, colors_of(colors@)),
        extends(final(warnings)@, old(warnings)@),
{
    let color = unwrap_color(resolve_color_field(&cfg.color, ctx, colors, warnings), Rgba::white());
    let size_scale = unwrap_number(resolve_number_field(&cfg.size_scale, ctx, warnings), 1000);
    IconStyle { color, size_scale }
}

pub open spec fn text_spec(
    cfg: TextConfig,
    ctx: ContextView,
    named: Seq<(Seq<char>, Rgba)>,
    default_size: i64,
) -> TextStyle {
    TextStyle {
        color: or_else(color_field(cfg.color, ctx, named), white()),
        size: or_else(number_field(cfg.size, ctx), default_size),
    }
}

pub fn resolve_text(
    cfg: &TextConfig,
    ctx: &ValueContext,
    colors: &Vec<ColorEntry>,
    default_size: i64,
    warnings: &mut Vec<String>,
) -> (r: TextStyle)
    ensures
        r == text_spec(*cfg, ctx@, colors_of(colors@), default_size),
        extends(final(warnings)@, old(warnings)@),
{
    let color = unwrap_color(resolve_color_field(&cfg.color, ctx, colors, warnings), Rgba::white());
    let size = unwrap_number(resolve_number_field(&cfg.size, ctx, warnings), default_size);
    TextStyle { color, size }
}

/// The texts of a list of names.
pub open spec fn names_of(v: Seq<String>) -> Seq<Seq<char>> {
    v.map_values(|s: String| s@)
}

/// Whether `name` is one of the asset files the skin holds.
pub fn has_asset(assets: &Vec<String>, name: &String) -> (r: bool)
    ensures
        r == names_of(assets@).contains(name@),
{
    let mut i: usize = 0;
    while i < assets.len()
        invariant
            i <= assets@.len(),
            forall|k: int| 0 <= k < i ==> names_of(assets@)[k] != name@,
        decreases assets@.len() - i,
    {
        if assets[i] == *name {
            assert(names_of(assets@)[i as int] == name@);
            return true;
        }
        i += 1;
    }
    false
}

/// A slider asks for an image thumb but names no image.
pub open spec fn unnamed_thumb_image(cfg: SliderConfig, ctx: ContextView) -> bool {
    let shape = match cfg.thumb_shape {
        Some(s) => resolve_spec(s@, ctx),
        None => "circle"@,
    };
    let image = match cfg.thumb_image {
        Some(s) => resolve_spec(s@, ctx),
        None => Seq::empty(),
    };
    matches_word(shape, "image"@) && image.len() == 0
}

/// The image a slider asks for as its thumb when the skin holds no such
/// asset.
pub open spec fn missing_thumb_image(
    cfg: SliderConfig,
    ctx: ContextView,
    assets: Seq<Seq<char>>,
) -> Option<Seq<char>> {
    let shape = match cfg.thumb_shape {
        Some(s) => resolve_spec(s@, ctx),
        None => "circle"@,
    };
    let image = match cfg.thumb_image {
        Some(s) => resolve_spec(s@, ctx),
        None => Seq::empty(),
    };
    if matches_word(shape, "image"@) && image.len() > 0 && !assets.contains(image) {
        Some(image)
    } else {
        None
    }
}

/// The slider style: an `image` thumb (any ASCII case) needs a named image
/// among the skin's assets, else it reverts to a circle of the default
/// radius.
pub open spec fn slider_spec(
    cfg: SliderConfig,
    ctx: ContextView,
    named: Seq<(Seq<char>, Rgba)>,
    thumb_radius_default: i64,
    assets: Seq<Seq<char>>,
) -> SliderStyleView {
    let track_fill = or_else(color_field(cfg.track_fill, ctx, named), rgba(0, 120, 212, 255));
    let color = or_else(color_field(cfg.thumb_color, ctx, named), track_fill);
    let shape = match cfg.thumb_shape {
        Some(s) => resolve_spec(s@, ctx),
        None => "circle"@,
    };
    let image = match cfg.thumb_image {
        Some(s) => resolve_spec(s@, ctx),
        None => Seq::empty(),
    };
    SliderStyleView {
        track_fill,
        track_background: or_else(
            color_field(cfg.track_background, ctx, named),
            rgba(64, 64, 64, 255),
        ),
        track_thickness: or_else(number_field(cfg.track_thickness, ctx), 4000),
        thumb: if matches_word(shape, "image"@) {
            if image.len() == 0 || !assets.contains(image) {
                SliderThumbView::Circle { color, radius: thumb_radius_default }
            } else {
                SliderThumbView::Image {
                    color,
                    path: image,
                    size: or_else(number_field(cfg.thumb_size, ctx), 24000),
                }
            }
        } else {
            SliderThumbView::Circle {
                color,
                radius: or_else(number_field(cfg.thumb_radius, ctx), thumb_radius_default),
            }
        },
    }
}

pub fn resolve_slider(
    cfg: &SliderConfig,
    ctx: &ValueContext,
    colors: &Vec<ColorEntry>,
    thumb_radius_default: i64,
    assets: &Vec<String>,
    warnings: &mut Vec<String>,
) -> (r: SliderStyle)
    ensures
        r@ == slider_spec(*cfg, ctx@, colors_of(colors@), thumb_radius_default, names_of(assets@)),
        extends(final(warnings)@, old(warnings)@),
        unnamed_thumb_image(*cfg, ctx@) ==> has_message(
            final(warnings)@,
            old(warnings)@.len() as int,
            "Slider thumb image requested but no image provided"@,
        ),
        missing_thumb_image(*cfg, ctx@, names_of(assets@)) matches Some(name) ==> has_message(
            final(warnings)@,
            old(warnings)@.len() as int,
            "Slider thumb image "@ + name + " not found; reverting to circle thumb"@,
        ),
{
    let track_fill = unwrap_color(
        resolve_color_field(&cfg.track_fill, ctx, colors, warnings),
        Rgba::rgb(0, 120, 212),
    );
    let track_background = unwrap_color(
        resolve_color_field(&cfg.track_background, ctx, colors, warnings),
        Rgba::rgb(64, 64, 64),
    );
    let track_thickness = unwrap_number(
        resolve_number_field(&cfg.track_thickness, ctx, warnings),
        4000,
    );
    let shape = match &cfg.thumb_shape {
        Some(s) => resolve_tokens(s, ctx, warnings),
        None => String::from_str("circle"),
    };
    let color = unwrap_color(
        resolve_color_field(&cfg.thumb_color, ctx, colors, warnings),
        track_fill,
    );
    let thumb = if is_word(&chars_of(shape.as_str()), "image") {
        let image = match &cfg.thumb_image {
            Some(s) => resolve_tokens(s, ctx, warnings),
            None => String::new(),
        };
        if image.as_str().unicode_len() == 0 {
            warnings.push(String::from_str("Slider thumb image requested but no image provided"));
            assert(warnings@[warnings@.len() - 1]@ == "Slider thumb image requested but no image provided"@);
            SliderThumb::Circle { color, radius: thumb_radius_default }
        } else if !has_asset(assets, &image) {
            let mut msg = String::from_str("Slider thumb image ");
            msg.append(image.as_str());
            msg.append(" not found; reverting to circle thumb");
            warnings.push(msg);
            assert(warnings@[warnings@.len() - 1]@ == msg@);
            SliderThumb::Circle { color, radius: thumb_radius_default }
        } else {
            let size = unwrap_number(resolve_number_field(&cfg.thumb_size, ctx, warnings), 24000);
            SliderThumb::Image { color, path: image, size }
        }
    } else {
        let radius = unwrap_number(
            resolve_number_field(&cfg.thumb_radius, ctx, warnings),
            thumb_radius_default,
        );
        SliderThumb::Circle { color, radius }
    };
    SliderStyle { track_fill, track_background, track_thickness, thumb }
}

/// An overlay image named by `raw` (tokens resolved, then trimmed), kept only
/// when it is one of the skin's assets.
pub open spec fn overlay_from(
    raw: Seq<char>,
    offset_x: i64,
    offset_y: i64,
    ctx: ContextView,
    assets: Seq<Seq<char>>,
) -> Option<OverlayView> {
    let t = trimmed(resolve_spec(raw, ctx));
    if t.len() == 0 || !assets.contains(t) {
        None
    } else {
        Some(OverlayView { path: t, offset_x, offset_y })
    }
}

/// The asset an overlay path names when the skin holds no such asset.
pub open spec fn missing_overlay(raw: Seq<char>, ctx: ContextView, assets: Seq<Seq<char>>) -> Option<
    Seq<char>,
> {
    let t = trimmed(resolve_spec(raw, ctx));
    if t.len() > 0 && !assets.contains(t) {
        Some(t)
    } else {
        None
    }
}

pub open spec fn overlay_path(e: OverlayImageEntry) -> Seq<char> {
    match e {
        OverlayImageEntry::Path(p) => p@,
        OverlayImageEntry::Detailed { path, .. } => path@,
    }
}

pub open spec fn overlay_missing_message(t: Seq<char>) -> Seq<char> {
    "Thumbnail overlay image "@ + t + " not found; skipping"@
}

pub open spec fn offset_spec(v: Option<String>, ctx: ContextView) -> i64 {
    match v {
        Some(r) => or_else(number_spec(resolve_spec(r@, ctx)), 0),
        None => 0,
    }
}

pub open spec fn entry_overlay(
    e: OverlayImageEntry,
    ctx: ContextView,
    assets: Seq<Seq<char>>,
) -> Option<OverlayView> {
    match e {
        OverlayImageEntry::Path(p) => overlay_from(p@, 0, 0, ctx, assets),
        OverlayImageEntry::Detailed { path, offset_x, offset_y } => overlay_from(
            path@,
            offset_spec(offset_x, ctx),
            offset_spec(offset_y, ctx),
            ctx,
            assets,
        ),
    }
}

/// The overlays that the entries give, in order.
pub open spec fn overlays_spec(
    es: Seq<OverlayImageEntry>,
    ctx: ContextView,
    assets: Seq<Seq<char>>,
) -> Seq<OverlayView>
    decreases es.len(),
{
    if es.len() == 0 {
        Seq::empty()
    } else {
        let prev = overlays_spec(es.drop_last(), ctx, assets);
        match entry_overlay(es.last(), ctx, assets) {
            Some(o) => prev.push(o),
            None => prev,
        }
    }
}

pub open spec fn option_seq<T>(o: Option<T>) -> Seq<T> {
    match o {
        Some(v) => seq![v],
        None => Seq::empty(),
    }
}

/// The thumbnail style: the listed overlays, then the border image.
pub open spec fn thumbnail_spec(
    cfg: ThumbnailConfig,
    ctx: ContextView,
    named: Seq<(Seq<char>, Rgba)>,
    radius_default: i64,
    assets: Seq<Seq<char>>,
) -> ThumbnailStyleView {
    let w = or_else(number_field(cfg.stroke_width, ctx), 0);
    ThumbnailStyleView {
        corner_radius: or_else(number_field(cfg.corner_radius, ctx), radius_default),
        stroke_color: or_else(color_field(cfg.stroke_color, ctx, named), transparent()),
        stroke_width: if w < 0 {
            0
        } else {
            w
        },
        overlays: match cfg.overlay_images {
            Some(v) => overlays_spec(v@, ctx, assets),
            None => Seq::empty(),
        } + match cfg.border_image {
            Some(b) => option_seq(overlay_from(b@, 0, 0, ctx, assets)),
            None => Seq::empty(),
        },
    }
}

fn resolve_overlay_offset(
    value: &Option<String>,
    axis: &str,
    ctx: &ValueContext,
    warnings: &mut Vec<String>,
) -> (r: i64)
    ensures
        r == offset_spec(*value, ctx@),
        extends(final(warnings)@, old(warnings)@),
{
    match value {
        Some(raw) => {
            let resolved = resolve_tokens(raw, ctx, warnings);
            match parse_number(resolved.as_str()) {
                Some(n) => n,
                None => {
                    let mut msg = String::from_str("Could not parse thumbnail overlay ");
                    msg.append(axis);
                    msg.append(": ");
                    msg.append(resolved.as_str());
                    msg.append("; using 0");
                    warnings.push(msg);
                    0
                },
            }
        },
        None => 0,
    }
}

fn build_overlay_from_components(
    raw_path: &String,
    offset_x: i64,
    offset_y: i64,
    ctx: &ValueContext,
    assets: &Vec<String>,
    warnings: &mut Vec<String>,
) -> (r: Option<ThumbnailOverlay>)
    ensures
        r matches Some(o) ==> overlay_from(raw_path@, offset_x, offset_y, ctx@, names_of(assets@))
            == Some(o@),
        r is None ==> overlay_from(raw_path@, offset_x, offset_y, ctx@, names_of(assets@)) is None,
        extends(final(warnings)@, old(warnings)@),
        missing_overlay(raw_path@, ctx@, names_of(assets@)) matches Some(t) ==> has_message(
            final(warnings)@,
            old(warnings)@.len() as int,
            overlay_missing_message(t),
        ),
{
    let resolved = resolve_tokens(raw_path, ctx, warnings);
    let path = String::from_str(trim_str(resolved.as_str()));
    if path.as_str().unicode_len() == 0 {
        return None;
    }
    if has_asset(assets, &path) {
        Some(ThumbnailOverlay { path, offset_x, offset_y })
    } else {
        let mut msg = String::from_str("Thumbnail overlay image ");
        msg.append(path.as_str());
        msg.append(" not found; skipping");
        warnings.push(msg);
        assert(warnings@[warnings@.len() - 1]@ == msg@);
        None
    }
}

fn build_thumbnail_overlay(
    entry: &OverlayImageEntry,
    ctx: &ValueContext,
    assets: &Vec<String>,
    warnings: &mut Vec<String>,
) -> (r: Option<ThumbnailOverlay>)
    ensures
        r matches Some(o) ==> entry_overlay(*entry, ctx@, names_of(assets@)) == Some(o@),
        r is None ==> entry_overlay(*entry, ctx@, names_of(assets@)) is None,
        extends(final(warnings)@, old(warnings)@),
        missing_overlay(overlay_path(*entry), ctx@, names_of(assets@)) matches Some(t) ==> has_message(
            final(warnings)@,
            old(warnings)@.len() as int,
            overlay_missing_message(t),
        ),
{
    match entry {
        OverlayImageEntry::Path(raw) => build_overlay_from_components(raw, 0, 0, ctx, assets, warnings),
        OverlayImageEntry::Detailed { path, offset_x, offset_y } => {
            let ghost w0 = warnings@;
            let x = resolve_overlay_offset(offset_x, "offset_x", ctx, warnings);
            let y = resolve_overlay_offset(offset_y, "offset_y", ctx, warnings);
            let ghost w1 = warnings@;
            let r = build_overlay_from_components(path, x, y, ctx, assets, warnings);
            proof {
                if missing_overlay(path@, ctx@, names_of(assets@)) is Some {
                    let m = overlay_missing_message(missing_overlay(path@, ctx@, names_of(assets@)).unwrap());
                    let w = choose|w: int| 0 <= w1.len() <= w < warnings@.len() && (#[trigger] warnings@[w])@ == m;
                    assert(w0.len() <= w1.len());
                    assert(has_message(warnings@, w0.len() as int, m));
                }
            }
            r
        },
    }
}

pub fn resolve_thumbnail(
    cfg: &ThumbnailConfig,
    ctx: &ValueContext,
    colors: &Vec<ColorEntry>,
    radius_default: i64,
    assets: &Vec<String>,
    warnings: &mut Vec<String>,
) -> (r: ThumbnailStyle)
    ensures
        r@ == thumbnail_spec(*cfg, ctx@, colors_of(colors@), radius_default, names_of(assets@)),
        extends(final(warnings)@, old(warnings)@),
        cfg.overlay_images matches Some(images) ==> forall|k: int|
            0 <= k < images@.len() && #[trigger] missing_overlay(overlay_path(images@[k]), ctx@, names_of(assets@)) is Some
                ==> has_message(
                final(warnings)@,
                old(warnings)@.len() as int,
                overlay_missing_message(
                    missing_overlay(overlay_path(images@[k]), ctx@, names_of(assets@)).unwrap(),
                ),
            ),
        cfg.border_image matches Some(b) ==> (missing_overlay(b@, ctx@, names_of(assets@)) matches Some(t)
            ==> has_message(final(warnings)@, old(warnings)@.len() as int, overlay_missing_message(t))),
{
    let corner_radius = unwrap_number(
        resolve_number_field(&cfg.corner_radius, ctx, warnings),
        radius_default,
    );
    let stroke_color = unwrap_color(
        resolve_color_field(&cfg.stroke_color, ctx, colors, warnings),
        Rgba::transparent(),
    );
    let w = unwrap_number(resolve_number_field(&cfg.stroke_width, ctx, warnings), 0);
    let stroke_width = if w < 0 { 0 } else { w };
    let mut overlays: Vec<ThumbnailOverlay> = Vec::new();
    let ghost listed: Seq<OverlayView> = Seq::empty();
    if let Some(images) = &cfg.overlay_images {
        let mut i: usize = 0;
        while i < images.len()
            invariant
                i <= images@.len(),
                overlays_of(overlays@) == overlays_spec(images@.take(i as int), ctx@, names_of(assets@)),
                extends(warnings@, old(warnings)@),
                forall|k: int|
                    0 <= k < i && #[trigger] missing_overlay(overlay_path(images@[k]), ctx@, names_of(assets@)) is Some
                        ==> has_message(
                        warnings@,
                        old(warnings)@.len() as int,
                        overlay_missing_message(
                            missing_overlay(overlay_path(images@[k]), ctx@, names_of(assets@)).unwrap(),
                        ),
                    ),
            decreases images@.len() - i,
        {
            let ghost wb = warnings@;
            assert(images@.take(i + 1).drop_last() =~= images@.take(i as int));
            assert(images@.take(i + 1).last() == images@[i as int]);
            if let Some(o) = build_thumbnail_overlay(&images[i], ctx, assets, warnings) {
                overlays.push(o);
                assert(overlays_of(overlays@) =~= overlays_spec(images@.take(i + 1), ctx@, names_of(assets@)));
            }
            proof {
                assert forall|k: int|
                    0 <= k < i + 1 && #[trigger] missing_overlay(overlay_path(images@[k]), ctx@, names_of(assets@)) is Some
                        implies has_message(
                        warnings@,
                        old(warnings)@.len() as int,
                        overlay_missing_message(
                            missing_overlay(overlay_path(images@[k]), ctx@, names_of(assets@)).unwrap(),
                        ),
                    ) by {
                    let m = overlay_missing_message(
                        missing_overlay(overlay_path(images@[k]), ctx@, names_of(assets@)).unwrap(),
                    );
                    if k < i {
                        lemma_has_message_kept(wb, warnings@, old(warnings)@.len() as int, m);
                    } else {
                        let w = choose|w: int| 0 <= wb.len() <= w < warnings@.len() && (#[trigger] warnings@[w])@ == m;
                        assert(old(warnings)@.len() <= wb.len());
                    }
                }
            }
            i += 1;
        }
        assert(images@.take(images@.len() as int) =~= images@);
        proof { listed = overlays_of(overlays@); }
    } else {
        assert(overlays_of(overlays@) =~= Seq::<OverlayView>::empty());
    }
    let ghost wl = warnings@;
    if let Some(single) = &cfg.border_image {
        let o = build_overlay_from_components(single, 0, 0, ctx, assets, warnings);
        proof {
            if let Some(images) = &cfg.overlay_images {
                assert forall|k: int|
                    0 <= k < images@.len() && #[trigger] missing_overlay(overlay_path(images@[k]), ctx@, names_of(assets@)) is Some
                        implies has_message(
                        warnings@,
                        old(warnings)@.len() as int,
                        overlay_missing_message(
                            missing_overlay(overlay_path(images@[k]), ctx@, names_of(assets@)).unwrap(),
                        ),
                    ) by {
                    lemma_has_message_kept(wl, warnings@, old(warnings)@.len() as int, overlay_missing_message(
                        missing_overlay(overlay_path(images@[k]), ctx@, names_of(assets@)).unwrap(),
                    ));
                }
            }
            if missing_overlay(single@, ctx@, names_of(assets@)) is Some {
                let m = overlay_missing_message(missing_overlay(single@, ctx@, names_of(assets@)).unwrap());
                let w = choose|w: int| 0 <= wl.len() <= w < warnings@.len() && (#[trigger] warnings@[w])@ == m;
                assert(old(warnings)@.len() <= wl.len());
            }
        }
        if let Some(o) = o {
            overlays.push(o);
            assert(overlays_of(overlays@) =~= listed + seq![o@]);
        } else {
            assert(overlays_of(overlays@) =~= listed + Seq::<OverlayView>::empty());
        }
    } else {
        assert(overlays_of(overlays@) =~= listed + Seq::<OverlayView>::empty());
    }
    ThumbnailStyle { corner_radius, stroke_color, stroke_width, overlays }
}

/// The engine version a document must declare to be used.
pub const THEME_ENGINE_VERSION: &'static str = "1";

/// One style per UI component family.
#[derive(Clone, Debug)]
pub struct Components {
    pub root: AreaStyle,
    pub panel: AreaStyle,
    pub button: ButtonStyle,
    pub button_icon: IconStyle,
    pub slider: SliderStyle,
    pub thumbnail: ThumbnailStyle,
    pub text_title: TextStyle,
    pub text_body: TextStyle,
}

pub struct ComponentsView {
    pub root: AreaStyle,
    pub panel: AreaStyle,
    pub button: ButtonStyle,
    pub button_icon: IconStyle,
    pub slider: SliderStyleView,
    pub thumbnail: ThumbnailStyleView,
    pub text_title: TextStyle,
    pub text_body: TextStyle,
}

impl View for Components {
    type V = ComponentsView;

    open spec fn view(&self) -> ComponentsView {
        ComponentsView {
            root: self.root,
            panel: self.panel,
            button: self.button,
            button_icon: self.button_icon,
            slider: self.slider@,
            thumbnail: self.thumbnail@,
            text_title: self.text_title,
            text_body: self.text_body,
        }
    }
}

/// A fully resolved theme. Numbers are in thousandths.
#[derive(Clone, Debug)]
pub struct Theme {
    pub name: String,
    pub display_name: String,
    pub engine_version: String,
    pub colors: Vec<ColorEntry>,
    pub vars: Vec<NumberEntry>,
    pub use_gradient: bool,
    pub disable_vinyl_thumbnail: bool,
    pub transparent_background: bool,
    pub components: Components,
}

pub struct ThemeView {
    pub name: Seq<char>,
    pub display_name: Seq<char>,
    pub engine_version: Seq<char>,
    pub colors: Seq<(Seq<char>, Rgba)>,
    pub vars: Seq<(Seq<char>, i64)>,
    pub use_gradient: bool,
    pub disable_vinyl_thumbnail: bool,
    pub transparent_background: bool,
    pub components: ComponentsView,
}

impl View for Theme {
    type V = ThemeView;

    open spec fn view(&self) -> ThemeView {
        ThemeView {
            name: self.name@,
            display_name: self.display_name@,
            engine_version: self.engine_version@,
            colors: colors_of(self.colors@),
            vars: numbers_of(self.vars@),
            use_gradient: self.use_gradient,
            disable_vinyl_thumbnail: self.disable_vinyl_thumbnail,
            transparent_background: self.transparent_background,
            components: self.components@,
        }
    }
}

/// Each context color parsed; one that is no color becomes white.
pub open spec fn resolved_colors(t: Seq<(Seq<char>, Seq<char>)>) -> Seq<(Seq<char>, Rgba)> {
    t.map_values(
        |e: (Seq<char>, Seq<char>)|
            (
                e.0,
                match color_spec(e.1) {
                    Ok(c) => c,
                    Err(_) => white(),
                },
            ),
    )
}

/// The context vars that parse as numbers, in order; the others are left out.
pub open spec fn resolved_vars(t: Seq<(Seq<char>, Seq<char>)>) -> Seq<(Seq<char>, i64)>
    decreases t.len(),
{
    if t.len() == 0 {
        Seq::empty()
    } else {
        let prev = resolved_vars(t.drop_last());
        match number_spec(t.last().1) {
            Some(n) => prev.push((t.last().0, n)),
            None => prev,
        }
    }
}

/// The warning for a context color that is no color.
pub open spec fn color_message(name: Seq<char>) -> Seq<char> {
    name + ": not a color; using fallback #FFFFFF"@
}

/// The warning for a var that is no number.
pub open spec fn var_message(e: (Seq<char>, Seq<char>)) -> Seq<char> {
    "Variable "@ + e.0 + " could not be parsed as number: "@ + e.1
}

/// The colors of a document after token resolution.
pub open spec fn resolved_colors_table(doc: ThemeDocument) -> Seq<(Seq<char>, Seq<char>)> {
    resolved_context(ContextView { colors: table_of(doc.colors@), vars: table_of(doc.vars@) }).colors
}

/// The vars of a document after token resolution.
pub open spec fn resolved_vars_table(doc: ThemeDocument) -> Seq<(Seq<char>, Seq<char>)> {
    resolved_context(ContextView { colors: table_of(doc.colors@), vars: table_of(doc.vars@) }).vars
}

pub open spec fn some_var_unparsable(t: Seq<(Seq<char>, Seq<char>)>) -> bool {
    exists|i: int| 0 <= i < t.len() && (#[trigger] number_spec(t[i].1)) is None
}

pub open spec fn text_or(o: Option<String>, d: Seq<char>) -> Seq<char> {
    match o {
        Some(s) => s@,
        None => d,
    }
}

#[verifier::opaque]
/// The theme that a (merged) document resolves to, for a skin whose
/// directory is named `skin_id` and holds the asset files `assets`.
pub open spec fn theme_spec(doc: ThemeDocument, skin_id: Seq<char>, assets: Seq<Seq<char>>) -> ThemeView {
    let ctx = resolved_context(
        ContextView { colors: table_of(doc.colors@), vars: table_of(doc.vars@) },
    );
    let named = resolved_colors(ctx.colors);
    let vars = resolved_vars(ctx.vars);
    let radius = or_else(find_named(vars, "radius"@), 8000);
    let thumb_radius = or_else(find_named(vars, "slider_thumb_radius"@), 8000);
    let c = doc.components;
    let name = text_or(doc.meta.name, skin_id);
    ThemeView {
        name,
        display_name: text_or(doc.meta.display_name, name),
        engine_version: text_or(doc.meta.engine, THEME_ENGINE_VERSION@),
        colors: named,
        vars,
        use_gradient: or_else(doc.use_gradient, true),
        disable_vinyl_thumbnail: or_else(doc.meta.disable_vinyl_thumbnail, false),
        transparent_background: or_else(
            if doc.transparent_background is Some {
                doc.transparent_background
            } else {
                doc.meta.transparent_background
            },
            false,
        ),
        components: ComponentsView {
            root: area_spec(c.root, ctx, named, radius),
            panel: area_spec(c.panel, ctx, named, radius),
            button: button_spec(c.button, ctx, named, radius),
            button_icon: icon_spec(c.button.icon, ctx, named),
            slider: slider_spec(c.slider, ctx, named, thumb_radius, assets),
            thumbnail: thumbnail_spec(c.thumbnail, ctx, named, radius, assets),
            text_title: text_spec(c.text.title, ctx, named, 20000),
            text_body: text_spec(c.text.body, ctx, named, 16000),
        },
    }
}

/// Resolving the same document twice, for the same skin and assets, gives
/// identical themes.
pub proof fn theme_resolution_is_deterministic(
    doc: ThemeDocument,
    skin_id: Seq<char>,
    assets: Seq<Seq<char>>,
    a: Theme,
    b: Theme,
)
    requires
        a@ == theme_spec(doc, skin_id, assets),
        b@ == theme_spec(doc, skin_id, assets),
    ensures
        a@ == b@,
{
}

fn parse_context_colors(ctx: &ValueContext, warnings: &mut Vec<String>) -> (r: Vec<ColorEntry>)
    ensures
        colors_of(r@) == resolved_colors(ctx@.colors),
        extends(final(warnings)@, old(warnings)@),
        forall|k: int|
            0 <= k < ctx@.colors.len() && (#[trigger] color_spec(ctx@.colors[k].1)) is Err ==> has_message(
                final(warnings)@,
                old(warnings)@.len() as int,
                color_message(ctx@.colors[k].0),
            ),
{
    let mut out: Vec<ColorEntry> = Vec::new();
    let mut i: usize = 0;
    while i < ctx.colors.len()
        invariant
            i <= ctx.colors@.len(),
            out@.len() == i,
            forall|k: int| 0 <= k < i ==> #[trigger] out@[k]@ == resolved_colors(ctx@.colors)[k],
            extends(warnings@, old(warnings)@),
            forall|k: int|
                0 <= k < i && (#[trigger] color_spec(ctx@.colors[k].1)) is Err ==> has_message(
                    warnings@,
                    old(warnings)@.len() as int,
                    color_message(ctx@.colors[k].0),
                ),
        decreases ctx.colors@.len() - i,
    {
        let ghost wb = warnings@;
        let e = &ctx.colors[i];
        assert(ctx@.colors[i as int] == ctx.colors@[i as int]@);
        let color = match parse_color(e.value.as_str()) {
            Ok(c) => c,
            Err(_) => {
                let mut msg = e.key.clone();
                msg.append(": not a color; using fallback #FFFFFF");
                warnings.push(msg);
                assert(warnings@[warnings@.len() - 1]@ == color_message(ctx@.colors[i as int].0));
                Rgba::white()
            },
        };
        proof {
            assert forall|k: int|
                0 <= k < i + 1 && (#[trigger] color_spec(ctx@.colors[k].1)) is Err implies has_message(
                    warnings@,
                    old(warnings)@.len() as int,
                    color_message(ctx@.colors[k].0),
                ) by {
                if k < i {
                    lemma_has_message_kept(wb, warnings@, old(warnings)@.len() as int, color_message(ctx@.colors[k].0));
                } else {
                    assert(0 <= old(warnings)@.len() <= wb.len() <= warnings@.len() - 1);
                }
            }
        }
        out.push(ColorEntry { name: e.key.clone(), color });
        i += 1;
    }
    assert(colors_of(out@) =~= resolved_colors(ctx@.colors));
    out
}

fn parse_context_vars(ctx: &ValueContext, warnings: &mut Vec<String>) -> (r: Vec<NumberEntry>)
    ensures
        numbers_of(r@) == resolved_vars(ctx@.vars),
        extends(final(warnings)@, old(warnings)@),
        some_var_unparsable(ctx@.vars) ==> final(warnings)@.len() > old(warnings)@.len(),
        forall|k: int|
            0 <= k < ctx@.vars.len() && (#[trigger] number_spec(ctx@.vars[k].1)) is None ==> has_message(
                final(warnings)@,
                old(warnings)@.len() as int,
                var_message(ctx@.vars[k]),
            ),
{
    let mut out: Vec<NumberEntry> = Vec::new();
    let mut i: usize = 0;
    let ghost mut warned = false;
    while i < ctx.vars.len()
        invariant
            i <= ctx.vars@.len(),
            numbers_of(out@) == resolved_vars(ctx@.vars.take(i as int)),
            extends(warnings@, old(warnings)@),
            warned ==> warnings@.len() > old(warnings)@.len(),
            (exists|k: int| 0 <= k < i && (#[trigger] number_spec(ctx@.vars[k].1)) is None) ==> warned,
            forall|k: int|
                0 <= k < i && (#[trigger] number_spec(ctx@.vars[k].1)) is None ==> has_message(
                    warnings@,
                    old(warnings)@.len() as int,
                    var_message(ctx@.vars[k]),
                ),
        decreases ctx.vars@.len() - i,
    {
        let ghost wb = warnings@;
        let e = &ctx.vars[i];
        assert(ctx@.vars.take(i + 1).drop_last() =~= ctx@.vars.take(i as int));
        assert(ctx@.vars.take(i + 1).last() == ctx@.vars[i as int]);
        match parse_number(e.value.as_str()) {
            Some(n) => {
                out.push(NumberEntry { name: e.key.clone(), value: n });
                assert(numbers_of(out@) =~= resolved_vars(ctx@.vars.take(i + 1)));
            },
            None => {
                let mut msg = String::from_str("Variable ");
                msg.append(e.key.as_str());
                msg.append(" could not be parsed as number: ");
                msg.append(e.value.as_str());
                warnings.push(msg);
                proof {
                    warned = true;
                    assert(ctx@.vars[i as int] == ctx.vars@[i as int]@);
                    assert(warnings@[warnings@.len() - 1]@ == var_message(ctx@.vars[i as int]));
                }
            },
        }
        proof {
            assert forall|k: int|
                0 <= k < i + 1 && (#[trigger] number_spec(ctx@.vars[k].1)) is None implies has_message(
                    warnings@,
                    old(warnings)@.len() as int,
                    var_message(ctx@.vars[k]),
                ) by {
                if k < i {
                    lemma_has_message_kept(wb, warnings@, old(warnings)@.len() as int, var_message(ctx@.vars[k]));
                } else {
                    assert(0 <= old(warnings)@.len() <= wb.len() <= warnings@.len() - 1);
                }
            }
        }
        i += 1;
    }
    assert(ctx@.vars.take(ctx@.vars.len() as int) =~= ctx@.vars);
    out
}

fn text_or_default(o: &Option<String>, d: &String) -> (r: String)
    ensures
        r@ == text_or(*o, d@),
{
    match o {
        Some(s) => s.clone(),
        None => d.clone(),
    }
}

/// Resolves a merged theme document into a theme. Never fails: each field
/// that cannot be used falls back to a documented default and adds a
/// warning. A var that is no number after resolution adds a warning.
pub fn resolve_document(
    doc: &ThemeDocument,
    skin_id: &String,
    assets: &Vec<String>,
    warnings: &mut Vec<String>,
) -> (r: Theme)
    ensures
        r@ == theme_spec(*doc, skin_id@, names_of(assets@)),
        extends(final(warnings)@, old(warnings)@),
        some_var_unparsable(
            resolved_context(ContextView { colors: table_of(doc.colors@), vars: table_of(doc.vars@) }).vars,
        ) ==> final(warnings)@.len() > old(warnings)@.len(),
        forall|k: int|
            0 <= k < resolved_colors_table(*doc).len() && (#[trigger] color_spec(
                resolved_colors_table(*doc)[k].1,
            )) is Err ==> has_message(
                final(warnings)@,
                old(warnings)@.len() as int,
                color_message(resolved_colors_table(*doc)[k].0),
            ),
        forall|k: int|
            0 <= k < resolved_vars_table(*doc).len() && (#[trigger] number_spec(
                resolved_vars_table(*doc)[k].1,
            )) is None ==> has_message(
                final(warnings)@,
                old(warnings)@.len() as int,
                var_message(resolved_vars_table(*doc)[k]),
            ),
{
    reveal(theme_spec);
    let ctx = resolve_context(&doc.colors, &doc.vars, warnings);
    let ghost w_before_colors = warnings@;
    let colors = parse_context_colors(&ctx, warnings);
    let ghost w_after_colors = warnings@;
    let ghost w_before_vars = warnings@;
    let vars = parse_context_vars(&ctx, warnings);
    let ghost w_after_vars = warnings@;
    let radius = unwrap_number(find_number(&vars, "radius"), 8000);
    let thumb_radius = unwrap_number(find_number(&vars, "slider_thumb_radius"), 8000);
    let c = &doc.components;
    let root = resolve_area(&c.root, &ctx, &colors, radius, warnings);
    let panel = resolve_area(&c.panel, &ctx, &colors, radius, warnings);
    let button = resolve_button(&c.button, &ctx, &colors, radius, warnings);
    let button_icon = resolve_icon(&c.button.icon, &ctx, &colors, warnings);
    let slider = resolve_slider(&c.slider, &ctx, &colors, thumb_radius, assets, warnings);
    let thumbnail = resolve_thumbnail(&c.thumbnail, &ctx, &colors, radius, assets, warnings);
    let text_title = resolve_text(&c.text.title, &ctx, &colors, 20000, warnings);
    let text_body = resolve_text(&c.text.body, &ctx, &colors, 16000, warnings);
    let name = text_or_default(&doc.meta.name, skin_id);
    let display_name = text_or_default(&doc.meta.display_name, &name);
    let engine_version = text_or_default(&doc.meta.engine, &String::from_str(THEME_ENGINE_VERSION));
    let use_gradient = match doc.use_gradient {
        Some(b) => b,
        None => true,
    };
    let disable_vinyl_thumbnail = match doc.meta.disable_vinyl_thumbnail {
        Some(b) => b,
        None => false,
    };
    proof {
        let c = ctx@.colors;
        assert forall|k: int|
            0 <= k < c.len() && (#[trigger] color_spec(c[k].1)) is Err implies has_message(
                warnings@,
                old(warnings)@.len() as int,
                color_message(c[k].0),
            ) by {
            lemma_has_message_kept(w_after_colors, warnings@, w_before_colors.len() as int, color_message(c[k].0));
            let w = choose|w: int| 0 <= w_before_colors.len() <= w < warnings@.len() && (#[trigger] warnings@[w])@ == color_message(c[k].0);
            assert(old(warnings)@.len() <= w_before_colors.len());
        }
        let t = ctx@.vars;
        assert forall|k: int|
            0 <= k < t.len() && (#[trigger] number_spec(t[k].1)) is None implies has_message(
                warnings@,
                old(warnings)@.len() as int,
                var_message(t[k]),
            ) by {
            lemma_has_message_kept(w_after_vars, warnings@, w_before_vars.len() as int, var_message(t[k]));
            let w = choose|w: int| 0 <= w_before_vars.len() <= w < warnings@.len() && (#[trigger] warnings@[w])@ == var_message(t[k]);
            assert(old(warnings)@.len() <= w_before_vars.len());
        }
    }
    let transparent_background = match doc.transparent_background {
        Some(b) => b,
        None => match doc.meta.transparent_background {
            Some(b) => b,
            None => false,
        },
    };
    Theme {
        name,
        display_name,
        engine_version,
        colors,
        vars,
        use_gradient,
        disable_vinyl_thumbnail,
        transparent_background,
        components: Components {
            root,
            panel,
            button,
            button_icon,
            slider,
            thumbnail,
            text_title,
            text_body,
        },
    }
}

/// What was found where a skin document should be.
#[derive(Clone, Debug)]
pub enum DocumentInput<T> {
    /// No file.
    Missing,
    /// A file that could not be read as a document, with the reason.
    Invalid(String),
    /// A document.
    Parsed(T),
}

/// A resolved theme and what was noticed on the way.
#[derive(Clone, Debug)]
pub struct LoadedTheme {
    pub theme: Theme,
    pub warnings: Vec<String>,
}

/// A user document is laid over the baseline unless it declares another
/// engine version; one that declares none is still used.
pub open spec fn theme_engine_accepted(doc: ThemeDocument) -> bool {
    doc.meta.engine is None || doc.meta.engine.unwrap()@ == THEME_ENGINE_VERSION@
}

/// The user document that is laid over the baseline, if any.
pub open spec fn accepted_overlay(input: DocumentInput<ThemeDocument>) -> Option<ThemeDocument> {
    match input {
        DocumentInput::Parsed(d) => if theme_engine_accepted(d) {
            Some(d)
        } else {
            None
        },
        _ => None,
    }
}

/// The engine version a user document declares when it is not the
/// supported one.
pub open spec fn rejected_theme_version(input: DocumentInput<ThemeDocument>) -> Option<Seq<char>> {
    match input {
        DocumentInput::Parsed(d) => if d.meta.engine is Some && !theme_engine_accepted(d) {
            Some(d.meta.engine.unwrap()@)
        } else {
            None
        },
        _ => None,
    }
}

/// A user document that declares no engine version.
pub open spec fn unversioned_theme(input: DocumentInput<ThemeDocument>) -> bool {
    match input {
        DocumentInput::Parsed(d) => d.meta.engine is None,
        _ => false,
    }
}

pub open spec fn theme_version_message(e: Seq<char>) -> Seq<char> {
    "Skin engine version "@ + e + " does not match "@ + THEME_ENGINE_VERSION@ + "; using defaults"@
}

/// A user document that declares the supported engine version.
pub open spec fn declares_accepted_version(input: DocumentInput<ThemeDocument>) -> bool {
    match input {
        DocumentInput::Parsed(d) => d.meta.engine is Some && theme_engine_accepted(d),
        _ => false,
    }
}

fn same_text(a: &String, b: &str) -> (r: bool)
    ensures
        r == (a@ == b@),
{
    *a == String::from_str(b)
}

/// Resolves a skin's theme: the user document, when there is one and its
/// engine version is accepted, is laid over `base` first. Every case that
/// leaves the user document out, and a document without a version, adds a
/// warning.
pub fn load_theme(
    base: ThemeDocument,
    input: DocumentInput<ThemeDocument>,
    skin_id: &String,
    assets: &Vec<String>,
) -> (r: LoadedTheme)
    ensures
        accepted_overlay(input) is Some ==> exists|m: ThemeDocument|
            merged(base, accepted_overlay(input).unwrap(), m) && r.theme@ == theme_spec(
                m,
                skin_id@,
                names_of(assets@),
            ),
        accepted_overlay(input) is None ==> r.theme@ == theme_spec(base, skin_id@, names_of(assets@)),
        !declares_accepted_version(input) ==> r.warnings@.len() >= 1,
        unversioned_theme(input) ==> r.warnings@[0]@ == "meta.engine missing; assuming version 1"@,
        input is Missing ==> r.warnings@[0]@ == "Skin folder "@ + skin_id@
            + " missing theme.toml; falling back to defaults"@,
        rejected_theme_version(input) is Some ==> r.warnings@[0]@ == theme_version_message(
            rejected_theme_version(input).unwrap(),
        ),
{
    let mut warnings: Vec<String> = Vec::new();
    let mut doc = base;
    match input {
        DocumentInput::Parsed(user) => {
            let ghost u = user;
            let accepted = match &user.meta.engine {
                Some(e) => {
                    if same_text(e, THEME_ENGINE_VERSION) {
                        true
                    } else {
                        let mut msg = String::from_str("Skin engine version ");
                        msg.append(e.as_str());
                        msg.append(" does not match ");
                        msg.append(THEME_ENGINE_VERSION);
                        msg.append("; using defaults");
                        warnings.push(msg);
                        false
                    }
                },
                None => {
                    warnings.push(String::from_str("meta.engine missing; assuming version 1"));
                    true
                },
            };
            assert(accepted == theme_engine_accepted(u));
            if accepted {
                merge_documents(&mut doc, user);
            }
        },
        DocumentInput::Invalid(err) => {
            let mut msg = String::from_str("Failed to parse theme: ");
            msg.append(err.as_str());
            warnings.push(msg);
        },
        DocumentInput::Missing => {
            let mut msg = String::from_str("Skin folder ");
            msg.append(skin_id.as_str());
            msg.append(" missing theme.toml; falling back to defaults");
            warnings.push(msg);
        },
    }
    let ghost used = doc;
    let ghost w0 = warnings@;
    let theme = resolve_document(&doc, skin_id, assets, &mut warnings);
    proof {
        if w0.len() > 0 {
            assert(warnings@[0] == w0[0]);
        }
    }
    assert(accepted_overlay(input) is Some ==> merged(base, accepted_overlay(input).unwrap(), used));
    assert(theme@ == theme_spec(used, skin_id@, names_of(assets@)));
    LoadedTheme { theme, warnings }
}

fn text(s: &str) -> (r: Option<String>)
    ensures
        r is Some && r.unwrap()@ == s@,
{
    Some(String::from_str(s))
}

fn entry(key: &str, value: &str) -> (r: Entry)
    ensures
        r.key@ == key@ && r.value@ == value@,
{
    Entry { key: String::from_str(key), value: String::from_str(value) }
}

fn area(background: &str, foreground: &str) -> (r: AreaConfig) {
    AreaConfig {
        background: Some(BackgroundFieldConfig::Simple(String::from_str(background))),
        foreground: text(foreground),
        border_color: text("transparent"),
        border_radius: text("{vars.radius}"),
        border_width: text("0"),
        show_border: None,
    }
}

/// The built-in baseline theme, which every skin's theme is laid over.
pub fn builtin_theme_document() -> (r: ThemeDocument)
    ensures
        r.meta.engine is Some && r.meta.engine.unwrap()@ == THEME_ENGINE_VERSION@,
{
    let mut colors: Vec<Entry> = Vec::new();
    colors.push(entry("background", "#15161b"));
    colors.push(entry("panel", "#1d1f26"));
    colors.push(entry("accent", "#4c8dff"));
    colors.push(entry("accent_hover", "#5e9dff"));
    colors.push(entry("accent_active", "#336cff"));
    colors.push(entry("text_primary", "#f7f9fc"));
    colors.push(entry("text_secondary", "#9ea7b8"));
    colors.push(entry("text_on_accent", "#081123"));
    colors.push(entry("slider_track_bg", "#2a2c35"));
    colors.push(entry("outline", "rgba(76, 141, 255, 0.45)"));
    let mut vars: Vec<Entry> = Vec::new();
    vars.push(entry("radius", "18"));
    vars.push(entry("slider_thumb_radius", "10"));
    ThemeDocument {
        meta: MetaSection {
            engine: text(THEME_ENGINE_VERSION),
            name: text("builtin-windows"),
            display_name: text("Windows 11"),
            disable_vinyl_thumbnail: None,
            transparent_background: None,
        },
        colors,
        vars,
        use_gradient: None,
        transparent_background: None,
        components: ComponentsConfig {
            root: area("{colors.background}", "{colors.text_primary}"),
            panel: area("{colors.panel}", "{colors.text_primary}"),
            button: ButtonConfig {
                background: text("{colors.accent}"),
                foreground: text("{colors.text_on_accent}"),
                hover_background: text("{colors.accent_hover}"),
                active_background: text("{colors.accent_active}"),
                border_color: text("{colors.outline}"),
                border_radius: text("26"),
                border_width: text("1"),
                icon: IconConfig { color: text("{colors.text_on_accent}"), size_scale: text("1") },
            },
            slider: SliderConfig {
                track_fill: text("{colors.accent}"),
                track_background: text("{colors.slider_track_bg}"),
                track_thickness: text("4"),
                thumb_shape: text("circle"),
                thumb_color: text("{colors.accent}"),
                thumb_radius: text("{vars.slider_thumb_radius}"),
                thumb_size: None,
                thumb_image: None,
            },
            thumbnail: ThumbnailConfig {
                corner_radius: text("{vars.radius}"),
                border_image: None,
                stroke_color: text("transparent"),
                stroke_width: text("0"),
                overlay_images: None,
            },
            text: TextComponents {
                title: TextConfig { color: text("{colors.text_primary}"), size: text("20") },
                body: TextConfig { color: text("{colors.text_secondary}"), size: text("16") },
            },
        },
    }
}

} // verus!
