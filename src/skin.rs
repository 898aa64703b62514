//! The skin manager: which skin and which layout variant are current, and
//! the decisions taken on selection and on hot-reload notifications. Reading
//! skin directories is left to the caller, which hands in what it found.

use vstd::prelude::*;
use vstd::string::*;
use crate::document::ThemeDocument;
use crate::layout::{
    LayoutDocument, LayoutSet, LayoutVariant, LoadedLayout, accepted_layout, find_variant, id_taken,
    is_builtin_set, load_layout, resolves_builtin, resolves_or_falls_back,
};
use crate::text::{chars_of, matches_word};
use crate::theme::{
    DocumentInput, LoadedTheme, Theme, accepted_overlay, load_theme,
    names_of, theme_spec,
};
use crate::document::merged;

verus! {

/// The directory, relative to the working directory, where skins live.
pub fn default_skin_root() -> (r: String)
    ensures
        r@ == "skins"@,
{
    String::from_str("skins")
}

/// Resolves one skin from what was found in its directory: the theme
/// document laid over `base` (normally `builtin_theme_document()`), and the
/// layout document or the built-in layout. Whatever the input, a theme and a
/// non-empty layout set come back.
pub fn resolve_skin(
    base: ThemeDocument,
    theme_input: DocumentInput<ThemeDocument>,
    layout_input: DocumentInput<LayoutDocument>,
    skin_id: &String,
    assets: &Vec<String>,
) -> (r: (LoadedTheme, LoadedLayout))
    ensures
        r.1.layout.wf(),
        r.1.layout.variants@.len() >= 1,
        accepted_layout(layout_input) is Some ==> resolves_or_falls_back(
            accepted_layout(layout_input).unwrap(),
            r.1.layout,
        ),
        accepted_layout(layout_input) is None ==> is_builtin_set(r.1.layout) && resolves_builtin(
            r.1.layout,
        ),
        accepted_overlay(theme_input) is None ==> r.0.theme@ == theme_spec(base, skin_id@, names_of(assets@)),
        accepted_overlay(theme_input) is Some ==> exists|m: ThemeDocument|
            merged(base, accepted_overlay(theme_input).unwrap(), m) && r.0.theme@ == theme_spec(
                m,
                skin_id@,
                names_of(assets@),
            ),
{
    let theme = load_theme(base, theme_input, skin_id, assets);
    let layout = load_layout(layout_input, skin_id);
    (theme, layout)
}

/// A discovered skin directory.
#[derive(Clone, Debug)]
pub struct SkinInfo {
    pub id: String,
    pub display_name: String,
    pub path: String,
}

/// Code-point lexicographic order, the order of `String`'s `Ord`.
pub open spec fn text_lt(a: Seq<char>, b: Seq<char>) -> bool
    decreases a.len(),
{
    if b.len() == 0 {
        false
    } else if a.len() == 0 {
        true
    } else if a[0] != b[0] {
        (a[0] as u32) < (b[0] as u32)
    } else {
        text_lt(a.drop_first(), b.drop_first())
    }
}

proof fn lemma_text_lt_asymmetric(a: Seq<char>, b: Seq<char>)
    ensures
        !(text_lt(a, b) && text_lt(b, a)),
    decreases a.len(),
{
    if a.len() > 0 && b.len() > 0 && a[0] == b[0] {
        lemma_text_lt_asymmetric(a.drop_first(), b.drop_first());
    }
}

proof fn lemma_text_lt_transitive(a: Seq<char>, b: Seq<char>, c: Seq<char>)
    requires
        text_lt(a, b),
        text_lt(b, c),
    ensures
        text_lt(a, c),
    decreases a.len(),
{
    if a.len() > 0 && b.len() > 0 && c.len() > 0 && a[0] == b[0] && b[0] == c[0] {
        lemma_text_lt_transitive(a.drop_first(), b.drop_first(), c.drop_first());
    }
}

/// Whether `a` comes before `b`.
pub fn text_less(a: &Vec<char>, b: &Vec<char>) -> (r: bool)
    ensures
        r == text_lt(a@, b@),
{
    let mut i: usize = 0;
    assert(a@.skip(0) =~= a@ && b@.skip(0) =~= b@);
    while i < a.len() && i < b.len() && a[i] == b[i]
        invariant
            i <= a@.len(),
            i <= b@.len(),
            text_lt(a@, b@) == text_lt(a@.skip(i as int), b@.skip(i as int)),
        decreases a@.len() - i,
    {
        assert(a@.skip(i as int).drop_first() =~= a@.skip(i + 1));
        assert(b@.skip(i as int).drop_first() =~= b@.skip(i + 1));
        i += 1;
    }
    if i == b.len() {
        return false;
    }
    if i == a.len() {
        return true;
    }
    (a[i] as u32) < (b[i] as u32)
}

/// Display names never decrease along `s`.
pub open spec fn sorted_by_name(s: Seq<SkinInfo>) -> bool {
    forall|i: int, j: int|
        0 <= i < j < s.len() ==> !text_lt(#[trigger] s[j].display_name@, #[trigger] s[i].display_name@)
}

/// The skins ordered by display name; the list holds the same skins.
pub fn sort_skins(skins: Vec<SkinInfo>) -> (r: Vec<SkinInfo>)
    ensures
        r@.to_multiset() == skins@.to_multiset(),
        sorted_by_name(r@),
{
    broadcast use vstd::seq_lib::group_to_multiset_ensures;
    let mut out: Vec<SkinInfo> = Vec::new();
    let mut i: usize = 0;
    while i < skins.len()
        invariant
            i <= skins@.len(),
            out@.to_multiset() == skins@.take(i as int).to_multiset(),
            sorted_by_name(out@),
        decreases skins@.len() - i,
    {
        let x = skins[i].copy();
        let name = chars_of(x.display_name.as_str());
        let mut j: usize = 0;
        while j < out.len() && !text_less(&name, &chars_of(out[j].display_name.as_str()))
            invariant
                j <= out@.len(),
                name@ == x.display_name@,
                forall|k: int| 0 <= k < j ==> !text_lt(x.display_name@, #[trigger] out@[k].display_name@),
            decreases out@.len() - j,
        {
            j += 1;
        }
        let ghost old_out = out@;
        out.insert(j, x);
        proof {
            assert(skins@.take(i + 1) =~= skins@.take(i as int).push(skins@[i as int]));
            vstd::seq_lib::to_multiset_insert(old_out, j as int, x);
            vstd::seq_lib::to_multiset_build(skins@.take(i as int), skins@[i as int]);
            assert(out@.to_multiset() =~= skins@.take(i + 1).to_multiset());
            assert forall|a: int, b: int| 0 <= a < b < out@.len() implies !text_lt(
                #[trigger] out@[b].display_name@,
                #[trigger] out@[a].display_name@,
            ) by {
                let xn = x.display_name@;
                assert(out@[j as int] == x);
                if a < j && b == j {
                    assert(out@[a] == old_out[a]);
                    assert(!text_lt(xn, old_out[a].display_name@));
                } else if a == j && b > j {
                    assert(out@[b] == old_out[b - 1]);
                    let y = old_out[b - 1].display_name@;
                    if j < old_out.len() {
                        let z = old_out[j as int].display_name@;
                        if b - 1 > j {
                            assert(!text_lt(y, z));
                        }
                        if text_lt(y, xn) {
                            if b - 1 == j {
                                lemma_text_lt_asymmetric(xn, z);
                            } else {
                                lemma_text_lt_transitive(y, xn, z);
                            }
                        }
                    }
                } else if a < j && b > j {
                    assert(out@[a] == old_out[a] && out@[b] == old_out[b - 1]);
                } else if b < j {
                    assert(out@[a] == old_out[a] && out@[b] == old_out[b]);
                } else {
                    assert(out@[a] == old_out[a - 1] && out@[b] == old_out[b - 1]);
                }
            }
        }
        i += 1;
    }
    assert(skins@.take(skins@.len() as int) =~= skins@);
    out
}

impl SkinInfo {
    /// A copy of this entry.
    pub fn copy(&self) -> (r: SkinInfo)
        ensures
            r == *self,
    {
        SkinInfo {
            id: self.id.clone(),
            display_name: self.display_name.clone(),
            path: self.path.clone(),
        }
    }
}

/// Index of the first variant with id `id`, or -1.
pub open spec fn first_variant(vs: Seq<LayoutVariant>, id: Seq<char>) -> int {
    if id_taken(vs, id) {
        choose|i: int| 0 <= i < vs.len() && vs[i].id@ == id && forall|k: int| 0 <= k < i ==> (#[trigger] vs[k]).id@ != id
    } else {
        -1
    }
}

/// The variant to show: the preferred id when the set has it, else the
/// set's default, else the first.
pub open spec fn layout_index_spec(vs: Seq<LayoutVariant>, default: Seq<char>, preferred: Option<Seq<char>>) -> int {
    if vs.len() == 0 {
        0
    } else if preferred is Some && id_taken(vs, preferred.unwrap()) {
        first_variant(vs, preferred.unwrap())
    } else if id_taken(vs, default) {
        first_variant(vs, default)
    } else {
        0
    }
}

proof fn lemma_first_variant(vs: Seq<LayoutVariant>, id: Seq<char>, i: int)
    requires
        0 <= i < vs.len(),
        vs[i].id@ == id,
        forall|k: int| 0 <= k < i ==> (#[trigger] vs[k]).id@ != id,
    ensures
        first_variant(vs, id) == i,
{
    let j = first_variant(vs, id);
    assert(vs[j].id@ == id);
    if j < i {
        assert(vs[j].id@ != id);
    }
    if i < j {
        assert(vs[i].id@ != id);
    }
}

/// Picks the variant to show (see `layout_index_spec`).
pub fn layout_index_from_set(layout: &LayoutSet, preferred: Option<&String>) -> (r: usize)
    ensures
        r as int == layout_index_spec(
            layout.variants@,
            layout.default_variant@,
            match preferred {
                Some(p) => Some(p@),
                None => None,
            },
        ),
        layout.variants@.len() > 0 ==> r < layout.variants@.len(),
{
    let vs = layout.variants();
    if vs.len() == 0 {
        return 0;
    }
    if let Some(id) = preferred {
        if let Some(i) = find_variant(vs, id) {
            proof { lemma_first_variant(vs@, id@, i as int); }
            return i;
        }
    }
    if let Some(i) = find_variant(vs, &layout.default_variant) {
        proof { lemma_first_variant(vs@, layout.default_variant@, i as int); }
        return i;
    }
    0
}

/// The skin that a configured name selects: the first whose id or display
/// name is `name`, else the first skin.
pub open spec fn initial_skin_spec(skins: Seq<SkinInfo>, name: Option<Seq<char>>) -> int {
    if name is Some && exists|i: int| 0 <= i < skins.len() && skin_named(skins[i], name.unwrap()) {
        choose|i: int| 0 <= i < skins.len() && skin_named(skins[i], name.unwrap()) && forall|k: int|
            0 <= k < i ==> !skin_named(#[trigger] skins[k], name.unwrap())
    } else {
        0
    }
}

pub open spec fn skin_named(s: SkinInfo, name: Seq<char>) -> bool {
    s.id@ == name || s.display_name@ == name
}

/// Position of the first skin whose id or display name is `name`.
pub fn find_skin(skins: &Vec<SkinInfo>, name: &String) -> (r: Option<usize>)
    ensures
        r is Some == exists|i: int| 0 <= i < skins@.len() && skin_named(skins@[i], name@),
        r matches Some(i) ==> i < skins@.len() && skin_named(skins@[i as int], name@) && forall|k: int|
            0 <= k < i ==> !skin_named(#[trigger] skins@[k], name@),
{
    let mut i: usize = 0;
    while i < skins.len()
        invariant
            i <= skins@.len(),
            forall|k: int| 0 <= k < i ==> !skin_named(#[trigger] skins@[k], name@),
        decreases skins@.len() - i,
    {
        if skins[i].id == *name || skins[i].display_name == *name {
            return Some(i);
        }
        i += 1;
    }
    None
}

proof fn lemma_initial_skin(skins: Seq<SkinInfo>, name: Seq<char>, i: int)
    requires
        0 <= i < skins.len(),
        skin_named(skins[i], name),
        forall|k: int| 0 <= k < i ==> !skin_named(#[trigger] skins[k], name),
    ensures
        initial_skin_spec(skins, Some(name)) == i,
{
    let j = initial_skin_spec(skins, Some(name));
    assert(skin_named(skins[j], name));
    if j < i {
        assert(!skin_named(skins[j], name));
    }
    if i < j {
        assert(!skin_named(skins[i], name));
    }
}

/// The skin to start with (see `initial_skin_spec`).
pub fn initial_skin_index(skins: &Vec<SkinInfo>, name: Option<&String>) -> (r: usize)
    ensures
        r as int == initial_skin_spec(
            skins@,
            match name {
                Some(n) => Some(n@),
                None => None,
            },
        ),
{
    match name {
        Some(n) => match find_skin(skins, n) {
            Some(i) => {
                proof { lemma_initial_skin(skins@, n@, i as int); }
                i
            },
            None => 0,
        },
        None => 0,
    }
}

/// The file name of a path: what follows its last `/`.
pub open spec fn file_name_of(p: Seq<char>) -> Seq<char>
    decreases p.len(),
{
    if p.len() == 0 {
        p
    } else if p.last() == '/' {
        Seq::empty()
    } else {
        file_name_of(p.drop_last()).push(p.last())
    }
}

/// A change to a file with the `toml` extension (any ASCII case): a file
/// name with something before `.toml`.
pub open spec fn is_toml_path(p: Seq<char>) -> bool {
    let name = file_name_of(p);
    name.len() > 5 && matches_word(name.skip(name.len() - 5), ".toml"@)
}

/// Whether a changed path concerns a skin document.
pub fn is_toml_path_text(path: &String) -> (r: bool)
    ensures
        r == is_toml_path(path@),
{
    let p = chars_of(path.as_str());
    let mut name: Vec<char> = Vec::new();
    let mut i: usize = 0;
    while i < p.len()
        invariant
            i <= p@.len(),
            name@ == file_name_of(p@.take(i as int)),
        decreases p@.len() - i,
    {
        assert(p@.take(i + 1).drop_last() =~= p@.take(i as int));
        if p[i] == '/' {
            name = Vec::new();
            assert(name@ =~= file_name_of(p@.take(i + 1)));
        } else {
            name.push(p[i]);
        }
        i += 1;
    }
    assert(p@.take(p@.len() as int) =~= p@);
    let n = name.len();
    if n <= 5 {
        return false;
    }
    let mut tail: Vec<char> = Vec::new();
    let mut j: usize = n - 5;
    while j < n
        invariant
            n > 5,
            n - 5 <= j <= n == name@.len(),
            tail@ == name@.subrange(n - 5, j as int),
        decreases n - j,
    {
        tail.push(name[j]);
        assert(name@.subrange(n - 5, j + 1) =~= name@.subrange(n - 5, j as int).push(name@[j as int]));
        j += 1;
    }
    assert(tail@ =~= name@.skip(n - 5));
    crate::text::is_word(&tail, ".toml")
}

/// Whether any of the changed paths concerns a skin document.
pub fn any_toml_change(paths: &Vec<String>) -> (r: bool)
    ensures
        r == exists|i: int| 0 <= i < paths@.len() && is_toml_path(#[trigger] paths@[i]@),
{
    let mut i: usize = 0;
    while i < paths.len()
        invariant
            i <= paths@.len(),
            forall|k: int| 0 <= k < i ==> !is_toml_path(#[trigger] paths@[k]@),
        decreases paths@.len() - i,
    {
        if is_toml_path_text(&paths[i]) {
            return true;
        }
        i += 1;
    }
    false
}

/// The current skin, theme and layout variant.
#[derive(Debug)]
pub struct SkinManager {
    root: String,
    skins: Vec<SkinInfo>,
    current_index: usize,
    current_layout_index: usize,
    theme: Theme,
    layout: LayoutSet,
    warnings: Vec<String>,
    hot_reload: bool,
}

impl SkinManager {
    /// The current layout index names a variant, and the layout set is well
    /// formed; with skins, the current index names one.
    pub closed spec fn wf(&self) -> bool {
        &&& self.layout.wf()
        &&& self.current_layout_index < self.layout.variants@.len()
        &&& (self.skins@.len() > 0 ==> self.current_index < self.skins@.len())
    }

    pub closed spec fn spec_root(&self) -> String {
        self.root
    }

    pub closed spec fn spec_skins_vec(&self) -> Vec<SkinInfo> {
        self.skins
    }

    pub closed spec fn spec_warnings_vec(&self) -> Vec<String> {
        self.warnings
    }

    pub closed spec fn spec_skins(&self) -> Seq<SkinInfo> {
        self.skins@
    }

    pub closed spec fn spec_current_index(&self) -> usize {
        self.current_index
    }

    pub closed spec fn spec_layout_index(&self) -> usize {
        self.current_layout_index
    }

    pub closed spec fn spec_layout(&self) -> LayoutSet {
        self.layout
    }

    pub closed spec fn spec_theme(&self) -> Theme {
        self.theme
    }

    pub closed spec fn spec_warnings(&self) -> Seq<String> {
        self.warnings@
    }

    pub closed spec fn spec_hot_reload(&self) -> bool {
        self.hot_reload
    }

    /// A manager showing skin `index` of `skins` with its loaded theme and
    /// layout (the layout's default variant first); `skins` may be empty when
    /// only the built-in skin is available. The warnings are the theme's,
    /// then the layout's.
    pub fn new(
        root: String,
        skins: Vec<SkinInfo>,
        index: usize,
        theme: LoadedTheme,
        layout: LoadedLayout,
    ) -> (r: SkinManager)
        requires
            layout.layout.wf(),
            skins@.len() > 0 ==> index < skins@.len(),
        ensures
            r.wf(),
            r.spec_skins() == skins@,
            r.spec_current_index() == index,
            r.spec_layout_index() as int == layout_index_spec(
                layout.layout.variants@,
                layout.layout.default_variant@,
                None,
            ),
            r.spec_warnings() == theme.warnings@ + layout.warnings@,
            !r.spec_hot_reload(),
    {
        let LoadedTheme { theme, warnings: theme_warnings } = theme;
        let LoadedLayout { layout, warnings: layout_warnings } = layout;
        let mut warnings = theme_warnings;
        let mut more = layout_warnings;
        warnings.append(&mut more);
        let current_layout_index = layout_index_from_set(&layout, None);
        SkinManager {
            root,
            skins,
            current_index: index,
            current_layout_index,
            theme,
            layout,
            warnings,
            hot_reload: false,
        }
    }

    pub fn root(&self) -> (r: &String)
        ensures
            *r == self.spec_root(),
    {
        &self.root
    }

    pub fn skin_list(&self) -> (r: &Vec<SkinInfo>)
        ensures
            r@ == self.spec_skins(),
    {
        &self.skins
    }

    pub fn current_theme(&self) -> (r: &Theme)
        ensures
            *r == self.spec_theme(),
    {
        &self.theme
    }

    pub fn warnings(&self) -> (r: &Vec<String>)
        ensures
            r@ == self.spec_warnings(),
    {
        &self.warnings
    }

    pub fn layout_options(&self) -> (r: &Vec<LayoutVariant>)
        ensures
            r@ == self.spec_layout().variants@,
    {
        self.layout.variants()
    }

    /// The current skin's display name; the theme's when no skin was found.
    pub fn current_skin_display_name(&self) -> (r: &String)
        requires
            self.wf(),
        ensures
            self.spec_skins().len() > 0 ==> r@ == self.spec_skins()[self.spec_current_index() as int].display_name@,
            self.spec_skins().len() == 0 ==> r@ == self.spec_theme().display_name@,
    {
        if self.current_index < self.skins.len() {
            &self.skins[self.current_index].display_name
        } else {
            &self.theme.display_name
        }
    }

    /// The current skin's id, if a skin was found.
    pub fn current_skin_id(&self) -> (r: Option<&String>)
        requires
            self.wf(),
        ensures
            self.spec_skins().len() > 0 ==> r is Some && r.unwrap()@ == self.spec_skins()[self.spec_current_index() as int].id@,
            self.spec_skins().len() == 0 ==> r is None,
    {
        if self.current_index < self.skins.len() {
            Some(&self.skins[self.current_index].id)
        } else {
            None
        }
    }

    pub fn current_layout_variant(&self) -> (r: &LayoutVariant)
        requires
            self.wf(),
        ensures
            *r == self.spec_layout().variants@[self.spec_layout_index() as int],
    {
        &self.layout.variants[self.current_layout_index]
    }

    pub fn current_layout_id(&self) -> (r: &String)
        requires
            self.wf(),
        ensures
            r@ == self.spec_layout().variants@[self.spec_layout_index() as int].id@,
    {
        &self.layout.variants[self.current_layout_index].id
    }

    pub fn current_layout_display_name(&self) -> (r: &String)
        requires
            self.wf(),
        ensures
            r@ == self.spec_layout().variants@[self.spec_layout_index() as int].display_name@,
    {
        &self.layout.variants[self.current_layout_index].display_name
    }

    /// Makes the first variant with id `id` current; false, and nothing
    /// changed, when there is none.
    pub fn set_layout(&mut self, id: &String) -> (r: bool)
        requires
            old(self).wf(),
        ensures
            final(self).wf(),
            r == id_taken(old(self).spec_layout().variants@, id@),
            r ==> final(self).spec_layout_index() as int == first_variant(old(self).spec_layout().variants@, id@),
            !r ==> *final(self) == *old(self),
            final(self).spec_layout() == old(self).spec_layout(),
            final(self).spec_skins_vec() == old(self).spec_skins_vec(),
            final(self).spec_current_index() == old(self).spec_current_index(),
            final(self).spec_warnings_vec() == old(self).spec_warnings_vec(),
    {
        match find_variant(&self.layout.variants, id) {
            Some(i) => {
                proof { lemma_first_variant(self.layout.variants@, id@, i as int); }
                self.current_layout_index = i;
                true
            },
            None => false,
        }
    }

    /// Position of the skin whose id or display name is `id_or_name`.
    pub fn find_skin(&self, id_or_name: &String) -> (r: Option<usize>)
        ensures
            r is Some == exists|i: int| 0 <= i < self.spec_skins().len() && skin_named(self.spec_skins()[i], id_or_name@),
            r matches Some(i) ==> i < self.spec_skins().len() && skin_named(self.spec_skins()[i as int], id_or_name@)
                && forall|k: int| 0 <= k < i ==> !skin_named(#[trigger] self.spec_skins()[k], id_or_name@),
    {
        find_skin(&self.skins, id_or_name)
    }

    /// Replaces the current skin by skin `index`, freshly loaded: its theme
    /// and layout replace the old ones wholesale, the warnings become the new
    /// theme's then the new layout's, and the layout variant that was shown
    /// stays current when the new layout has one of that id.
    pub fn apply_skin(&mut self, index: usize, theme: LoadedTheme, layout: LoadedLayout)
        requires
            old(self).wf(),
            index < old(self).spec_skins_vec()@.len(),
            layout.layout.wf(),
        ensures
            final(self).wf(),
            final(self).spec_current_index() == index,
            final(self).spec_skins_vec() == old(self).spec_skins_vec(),
            final(self).spec_layout() == layout.layout,
            final(self).spec_theme() == theme.theme,
            final(self).spec_warnings_vec()@ == theme.warnings@ + layout.warnings@,
            final(self).spec_layout_index() as int == layout_index_spec(
                layout.layout.variants@,
                layout.layout.default_variant@,
                Some(old(self).spec_layout().variants@[old(self).spec_layout_index() as int].id@),
            ),
            final(self).spec_hot_reload() == old(self).spec_hot_reload(),
    {
        let previous = self.layout.variants[self.current_layout_index].id.clone();
        let LoadedTheme { theme, warnings: theme_warnings } = theme;
        let LoadedLayout { layout, warnings: layout_warnings } = layout;
        let mut warnings = theme_warnings;
        let mut more = layout_warnings;
        warnings.append(&mut more);
        self.current_layout_index = layout_index_from_set(&layout, Some(&previous));
        self.current_index = index;
        self.theme = theme;
        self.layout = layout;
        self.warnings = warnings;
    }

    pub fn enable_hot_reload(&mut self)
        ensures
            final(self).spec_hot_reload(),
            final(self).spec_layout() == old(self).spec_layout(),
            final(self).spec_skins_vec() == old(self).spec_skins_vec(),
            final(self).spec_current_index() == old(self).spec_current_index(),
            final(self).spec_layout_index() == old(self).spec_layout_index(),
    {
        self.hot_reload = true;
    }

    pub fn disable_hot_reload(&mut self)
        ensures
            !final(self).spec_hot_reload(),
            final(self).spec_layout() == old(self).spec_layout(),
            final(self).spec_skins_vec() == old(self).spec_skins_vec(),
            final(self).spec_current_index() == old(self).spec_current_index(),
            final(self).spec_layout_index() == old(self).spec_layout_index(),
    {
        self.hot_reload = false;
    }

    pub fn hot_reload_enabled(&self) -> (r: bool)
        ensures
            r == self.spec_hot_reload(),
    {
        self.hot_reload
    }

    /// The skin to reload after a batch of changed paths: the current one,
    /// when hot reload is on, a skin is current and a path concerns a skin
    /// document.
    pub fn reload_target(&self, changed: &Vec<String>) -> (r: Option<usize>)
        requires
            self.wf(),
        ensures
            r is Some == (self.spec_hot_reload() && self.spec_skins().len() > 0 && exists|i: int|
                0 <= i < changed@.len() && is_toml_path(#[trigger] changed@[i]@)),
            r matches Some(i) ==> i == self.spec_current_index(),
    {
        if !self.hot_reload || self.skins.len() == 0 {
            return None;
        }
        if any_toml_change(changed) {
            Some(self.current_index)
        } else {
            None
        }
    }
}

} // verus!
