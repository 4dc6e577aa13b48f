//! Theme pack identifiers and asset paths.
use crate::config::{RenderMode, ThemeConfig};
use crate::path::{
    join_each, join_str, joined_below, opt_strings_view, components, components_vec, is_absolute, is_absolute_vec, join_path, parent_name, parent_name_vec,
    path_join,
};
use crate::model::assemble::strings_view;
use crate::text::{chars_of, opt_view, str_eq, string_of, trim, trim_vec};
use vstd::prelude::*;

verus! {

/// The theme id to use: the trimmed id, with a blank id and the retired
/// `osx-glass` id both meaning `leopard`.
pub open spec fn normalized_theme_id_spec(id: Seq<char>) -> Seq<char> {
    let t = trim(id);
    if t.len() == 0 || t == "osx-glass"@ {
        "leopard"@
    } else {
        t
    }
}

/// The theme id to use for a configured preset.
pub fn normalized_theme_id(id: &str) -> (r: String)
    ensures
        r@ == normalized_theme_id_spec(id@),
{
    let t = trim_vec(&chars_of(id));
    if t.len() == 0 || crate::text::vec_eq(&t, &chars_of("osx-glass")) {
        String::from_str("leopard")
    } else {
        string_of(&t)
    }
}

/// Asset paths of a theme, resolved.
#[derive(Debug, Clone, PartialEq, Eq)]
pub struct ThemeAssets {
    pub shelf_texture: Option<String>,
    pub shelf_overlay: Option<String>,
    pub noise_texture: Option<String>,
    pub normal_map: Option<String>,
    pub fallback_texture: Option<String>,
}

/// Asset paths as written in a theme file.
#[derive(Debug, Clone, PartialEq, Eq)]
pub struct ThemeAssetsToml {
    pub shelf_texture: Option<String>,
    pub shelf_overlay: Option<String>,
    pub noise_texture: Option<String>,
    pub normal_map: Option<String>,
    pub fallback_texture: Option<String>,
}

impl Default for ThemeAssets {
    fn default() -> (r: Self)
        ensures
            r.shelf_texture is None,
            r.shelf_overlay is None,
            r.noise_texture is None,
            r.normal_map is None,
            r.fallback_texture is None,
    {
        ThemeAssets {
            shelf_texture: None,
            shelf_overlay: None,
            noise_texture: None,
            normal_map: None,
            fallback_texture: None,
        }
    }
}

/// A theme asset's path: absolute paths as written, relative ones below the
/// theme's directory (none without one); blank entries give nothing.
pub open spec fn resolve_asset_spec(root: Option<Seq<char>>, asset: Option<Seq<char>>) -> Option<
    Seq<char>,
> {
    match asset {
        None => None,
        Some(a) => {
            let t = trim(a);
            if t.len() == 0 {
                None
            } else if is_absolute(t) {
                Some(t)
            } else {
                match root {
                    Some(r) => Some(path_join(r, t)),
                    None => None,
                }
            }
        },
    }
}

pub open spec fn opt_str_view(o: Option<&str>) -> Option<Seq<char>> {
    match o {
        Some(s) => Some(s@),
        None => None,
    }
}

/// Resolves one asset path against the theme's directory.
pub fn resolve_asset(root: Option<&str>, asset: Option<&str>) -> (r: Option<String>)
    ensures
        opt_view(r) == resolve_asset_spec(opt_str_view(root), opt_str_view(asset)),
{
    let a = match asset {
        None => return None,
        Some(a) => trim_vec(&chars_of(a)),
    };
    if a.len() == 0 {
        return None;
    }
    if is_absolute_vec(&a) {
        return Some(string_of(&a));
    }
    match root {
        Some(r) => {
            let joined = join_path(&chars_of(r), &a);
            Some(string_of(&joined))
        },
        None => None,
    }
}

fn as_opt_str(o: &Option<String>) -> (r: Option<&str>)
    ensures
        opt_str_view(r) == opt_view(*o),
{
    match o {
        Some(s) => Some(s.as_str()),
        None => None,
    }
}

impl ThemeAssetsToml {
    /// Every asset resolved against the theme's directory.
    pub fn resolve(&self, root: Option<&str>) -> (r: ThemeAssets)
        ensures
            opt_view(r.shelf_texture) == resolve_asset_spec(
                opt_str_view(root),
                opt_view(self.shelf_texture),
            ),
            opt_view(r.shelf_overlay) == resolve_asset_spec(
                opt_str_view(root),
                opt_view(self.shelf_overlay),
            ),
            opt_view(r.noise_texture) == resolve_asset_spec(
                opt_str_view(root),
                opt_view(self.noise_texture),
            ),
            opt_view(r.normal_map) == resolve_asset_spec(
                opt_str_view(root),
                opt_view(self.normal_map),
            ),
            opt_view(r.fallback_texture) == resolve_asset_spec(
                opt_str_view(root),
                opt_view(self.fallback_texture),
            ),
    {
        ThemeAssets {
            shelf_texture: resolve_asset(root, as_opt_str(&self.shelf_texture)),
            shelf_overlay: resolve_asset(root, as_opt_str(&self.shelf_overlay)),
            noise_texture: resolve_asset(root, as_opt_str(&self.noise_texture)),
            normal_map: resolve_asset(root, as_opt_str(&self.normal_map)),
            fallback_texture: resolve_asset(root, as_opt_str(&self.fallback_texture)),
        }
    }
}

/// The display name of a built-in theme.
pub open spec fn builtin_name(id: Seq<char>) -> Seq<char> {
    if id == "leopard"@ {
        "Leopard"@
    } else {
        "OSDockX Theme"@
    }
}

/// The id, display name and renderer of a built-in theme pack: the id
/// normalized, the renderer as configured or the procedural one.
pub fn builtin_identity(id: &str, renderer: Option<RenderMode>) -> (r: (String, String, RenderMode))
    ensures
        r.0@ == normalized_theme_id_spec(id@),
        r.1@ == builtin_name(normalized_theme_id_spec(id@)),
        r.2 == (match renderer {
            Some(m) => m,
            None => RenderMode::Procedural2d,
        }),
{
    let id = normalized_theme_id(id);
    let renderer = match renderer {
        Some(m) => m,
        None => RenderMode::Procedural2d,
    };
    let name = if str_eq(id.as_str(), "leopard") {
        String::from_str("Leopard")
    } else {
        String::from_str("OSDockX Theme")
    };
    (id, name, renderer)
}

/// The id a theme file gives itself: its own when not blank, else the name
/// of its directory, else `theme`.
pub open spec fn pack_id_spec(parsed_id: Seq<char>, theme_file: Seq<char>) -> Seq<char> {
    if trim(parsed_id).len() > 0 {
        parsed_id
    } else {
        match parent_name(theme_file) {
            Some(n) => n,
            None => "theme"@,
        }
    }
}

/// The normalized id and the display name of a theme pack read from
/// `theme_file`; a blank name becomes the (unnormalized) id.
pub fn pack_identity(parsed_id: &str, parsed_name: &str, theme_file: &str) -> (r: (String, String))
    ensures
        r.0@ == normalized_theme_id_spec(pack_id_spec(parsed_id@, theme_file@)),
        r.1@ == pack_name_spec(parsed_id@, parsed_name@, theme_file@),
{
    let id: String = if trim_vec(&chars_of(parsed_id)).len() > 0 {
        String::from_str(parsed_id)
    } else {
        match parent_name_vec(&chars_of(theme_file)) {
            Some(n) => string_of(&n),
            None => String::from_str("theme"),
        }
    };
    let name: String = if trim_vec(&chars_of(parsed_name)).len() > 0 {
        String::from_str(parsed_name)
    } else {
        id.clone()
    };
    (normalized_theme_id(id.as_str()), name)
}

/// The six colors of `after` are those of `theme` with the user's changes
/// from the defaults applied.
pub open spec fn colors_overridden(after: ThemeConfig, theme: ThemeConfig, user: ThemeConfig) -> bool {
    &&& after.shelf_top@ == override_color(theme.shelf_top@, user.shelf_top@, "#cfd5dbff"@)
    &&& after.shelf_bottom@ == override_color(theme.shelf_bottom@, user.shelf_bottom@, "#97a4b0ff"@)
    &&& after.shelf_stroke@ == override_color(theme.shelf_stroke@, user.shelf_stroke@, "#5b6a79ff"@)
    &&& after.shelf_highlight@ == override_color(
        theme.shelf_highlight@,
        user.shelf_highlight@,
        "#dbe2e8ff"@,
    )
    &&& after.indicator@ == override_color(theme.indicator@, user.indicator@, "#6fd3ffff"@)
    &&& after.badge@ == override_color(theme.badge@, user.badge@, "#e4202dff"@)
}

/// The theme's colors after the user's overrides: each color the user
/// changed from the default replaces the theme pack's.
pub fn apply_user_theme_overrides(theme: &mut ThemeConfig, overrides: &ThemeConfig)
    ensures
        final(theme).preset == old(theme).preset,
        final(theme).renderer == old(theme).renderer,
        final(theme).shelf_style == old(theme).shelf_style,
        colors_overridden(*final(theme), *old(theme), *overrides),
{
    let defaults = ThemeConfig::default();
    if !str_eq(overrides.shelf_top.as_str(), defaults.shelf_top.as_str()) {
        theme.shelf_top = overrides.shelf_top.clone();
    }
    if !str_eq(overrides.shelf_bottom.as_str(), defaults.shelf_bottom.as_str()) {
        theme.shelf_bottom = overrides.shelf_bottom.clone();
    }
    if !str_eq(overrides.shelf_stroke.as_str(), defaults.shelf_stroke.as_str()) {
        theme.shelf_stroke = overrides.shelf_stroke.clone();
    }
    if !str_eq(overrides.shelf_highlight.as_str(), defaults.shelf_highlight.as_str()) {
        theme.shelf_highlight = overrides.shelf_highlight.clone();
    }
    if !str_eq(overrides.indicator.as_str(), defaults.indicator.as_str()) {
        theme.indicator = overrides.indicator.clone();
    }
    if !str_eq(overrides.badge.as_str(), defaults.badge.as_str()) {
        theme.badge = overrides.badge.clone();
    }
}

/// The user's color when it differs from the default, else the theme's.
pub open spec fn override_color(theme: Seq<char>, user: Seq<char>, default: Seq<char>) -> Seq<char> {
    if user != default {
        user
    } else {
        theme
    }
}

/// What `Path::parent` gives for a path: the path without its final
/// component, if it has one.
pub uninterp spec fn parent_of(path: Seq<char>) -> Option<Seq<char>>;

/// Calls `Path::parent`; the contract names its result.
#[verifier::external_body]
fn path_parent(path: &str) -> (r: Option<String>)
    ensures
        opt_view(r) == parent_of(path@),
{
    std::path::Path::new(path).parent().map(|p| p.to_string_lossy().into_owned())
}

/// Some directory of `dirs` is the same path as `x`: the same components.
pub open spec fn lists_path(dirs: Seq<Seq<char>>, x: Seq<char>) -> bool {
    exists|i: int| 0 <= i < dirs.len() && components(#[trigger] dirs[i]) == components(x)
}

/// `dirs` with `d` appended unless the same path is already listed.
pub open spec fn with_dir(dirs: Seq<Seq<char>>, d: Option<Seq<char>>) -> Seq<Seq<char>> {
    match d {
        Some(x) => if lists_path(dirs, x) {
            dirs
        } else {
            dirs.push(x)
        },
        None => dirs,
    }
}

pub open spec fn parent_of_asset(a: Option<Seq<char>>) -> Option<Seq<char>> {
    match a {
        Some(p) => parent_of(p),
        None => None,
    }
}

/// The directories to watch for a theme pack: its root, then the folder of
/// each asset (shelf texture, overlay, noise, normal map, fallback), each
/// listed once.
pub open spec fn watch_directories_spec(root: Option<Seq<char>>, assets: ThemeAssets) -> Seq<
    Seq<char>,
> {
    let d0: Seq<Seq<char>> = match root {
        Some(r) => seq![r],
        None => Seq::empty(),
    };
    let d1 = with_dir(d0, parent_of_asset(opt_view(assets.shelf_texture)));
    let d2 = with_dir(d1, parent_of_asset(opt_view(assets.shelf_overlay)));
    let d3 = with_dir(d2, parent_of_asset(opt_view(assets.noise_texture)));
    let d4 = with_dir(d3, parent_of_asset(opt_view(assets.normal_map)));
    with_dir(d4, parent_of_asset(opt_view(assets.fallback_texture)))
}

fn same_components(a: &Vec<Vec<char>>, b: &Vec<Vec<char>>) -> (r: bool)
    ensures
        r == (a@.map_values(|w: Vec<char>| w@) == b@.map_values(|w: Vec<char>| w@)),
{
    let ghost av = a@.map_values(|w: Vec<char>| w@);
    let ghost bv = b@.map_values(|w: Vec<char>| w@);
    if a.len() != b.len() {
        assert(av.len() != bv.len());
        return false;
    }
    let mut i: usize = 0;
    while i < a.len()
        invariant
            i <= a@.len(),
            a@.len() == b@.len(),
            av == a@.map_values(|w: Vec<char>| w@),
            bv == b@.map_values(|w: Vec<char>| w@),
            forall|k: int| 0 <= k < i ==> av[k] == bv[k],
        decreases a.len() - i,
    {
        assert(av[i as int] == a@[i as int]@ && bv[i as int] == b@[i as int]@);
        if !crate::text::vec_eq(&a[i], &b[i]) {
            assert(av[i as int] != bv[i as int]);
            return false;
        }
        i = i + 1;
    }
    assert(av =~= bv);
    true
}

fn lists_path_vec(dirs: &Vec<String>, x: &String) -> (r: bool)
    ensures
        r == lists_path(strings_view(dirs@), x@),
{
    let xc = components_vec(&chars_of(x.as_str()));
    let mut i: usize = 0;
    while i < dirs.len()
        invariant
            i <= dirs@.len(),
            xc@.map_values(|w: Vec<char>| w@) == components(x@),
            forall|k: int| 0 <= k < i ==> components(#[trigger] dirs@[k]@) != components(x@),
        decreases dirs.len() - i,
    {
        let dc = components_vec(&chars_of(dirs[i].as_str()));
        if same_components(&dc, &xc) {
            assert(strings_view(dirs@)[i as int] == dirs@[i as int]@);
            return true;
        }
        i = i + 1;
    }
    assert forall|k: int| 0 <= k < strings_view(dirs@).len() implies components(
        #[trigger] strings_view(dirs@)[k],
    ) != components(x@) by {
        assert(strings_view(dirs@)[k] == dirs@[k]@);
    }
    false
}

fn add_parent(dirs: &mut Vec<String>, asset: &Option<String>)
    ensures
        strings_view(final(dirs)@) == with_dir(
            strings_view(old(dirs)@),
            parent_of_asset(opt_view(*asset)),
        ),
{
    let parent = match asset {
        Some(p) => path_parent(p.as_str()),
        None => None,
    };
    match parent {
        Some(d) => {
            if !lists_path_vec(dirs, &d) {
                let ghost before = strings_view(dirs@);
                dirs.push(d);
                assert(strings_view(dirs@) =~= before.push(parent_of_asset(
                    opt_view(*asset),
                )->0));
            }
        },
        None => {},
    }
}

/// The directories whose changes reload a theme pack.
pub fn watch_directories(root: Option<&str>, assets: &ThemeAssets) -> (r: Vec<String>)
    ensures
        strings_view(r@) == watch_directories_spec(opt_str_view(root), *assets),
{
    let mut dirs: Vec<String> = Vec::new();
    match root {
        Some(r) => {
            dirs.push(String::from_str(r));
            assert(strings_view(dirs@) =~= seq![r@]);
        },
        None => {
            assert(strings_view(dirs@) =~= Seq::<Seq<char>>::empty());
        },
    }
    add_parent(&mut dirs, &assets.shelf_texture);
    add_parent(&mut dirs, &assets.shelf_overlay);
    add_parent(&mut dirs, &assets.noise_texture);
    add_parent(&mut dirs, &assets.normal_map);
    add_parent(&mut dirs, &assets.fallback_texture);
    dirs
}

/// Normalizing a normalized theme id changes nothing.
pub proof fn lemma_theme_id_idempotent(id: Seq<char>)
    ensures
        normalized_theme_id_spec(normalized_theme_id_spec(id)) == normalized_theme_id_spec(id),
{
    reveal_strlit("leopard");
    reveal_strlit("osx-glass");
    crate::text::lemma_trim_idempotent(id);
    let t = trim(id);
    if t.len() == 0 || t == "osx-glass"@ {
        crate::text::lemma_trim_fixed("leopard"@);
        assert("leopard"@ != "osx-glass"@);
    }
}

/// The directories holding user theme packs: the `themes` directories of
/// the application's configuration and data directories (when known), then
/// `osdockx/themes` below each directory of `XDG_DATA_DIRS` (when set).
pub open spec fn theme_roots_spec(
    project_dirs: Option<(Seq<char>, Seq<char>)>,
    listed: Option<Seq<Seq<char>>>,
) -> Seq<Seq<char>> {
    let own: Seq<Seq<char>> = match project_dirs {
        Some((c, d)) => seq![path_join(c, "themes"@), path_join(d, "themes"@)],
        None => Seq::empty(),
    };
    let shared: Seq<Seq<char>> = match listed {
        Some(l) => joined_below(l, "osdockx/themes"@),
        None => Seq::empty(),
    };
    own + shared
}

pub open spec fn opt_pair_view(o: Option<(&str, &str)>) -> Option<(Seq<char>, Seq<char>)> {
    match o {
        Some((a, b)) => Some((a@, b@)),
        None => None,
    }
}

/// The theme pack roots, from the application's (configuration, data)
/// directories and the split `XDG_DATA_DIRS`.
pub fn theme_roots(project_dirs: Option<(&str, &str)>, data_dirs: Option<&Vec<String>>) -> (r: Vec<String>)
    ensures
        strings_view(r@) == theme_roots_spec(opt_pair_view(project_dirs), opt_strings_view(data_dirs)),
{
    let mut out: Vec<String> = Vec::new();
    match project_dirs {
        Some((c, d)) => {
            out.push(join_str(c, "themes"));
            out.push(join_str(d, "themes"));
        },
        None => {},
    }
    let ghost own = strings_view(out@);
    assert(own =~= theme_roots_spec(opt_pair_view(project_dirs), None));
    let shared: Vec<String> = match data_dirs {
        Some(l) => join_each(l, "osdockx/themes"),
        None => Vec::new(),
    };
    assert(strings_view(shared@) =~= theme_roots_spec(None, opt_strings_view(data_dirs)));
    let mut k: usize = 0;
    while k < shared.len()
        invariant
            k <= shared.len(),
            strings_view(out@) == own + strings_view(shared@.subrange(0, k as int)),
        decreases shared.len() - k,
    {
        let ghost before = out@;
        let x = shared[k].clone();
        out.push(x);
        assert(shared@.subrange(0, k + 1) =~= shared@.subrange(0, k as int).push(shared@[k as int]));
        assert(strings_view(out@) =~= strings_view(before).push(shared@[k as int]@));
        assert(strings_view(out@) =~= own + strings_view(shared@.subrange(0, k + 1)));
        k = k + 1;
    }
    assert(shared@.subrange(0, shared@.len() as int) =~= shared@);
    out
}

/// The theme files that may hold the pack `id`, one below each root, in the
/// order in which they are tried.
pub fn theme_file_candidates(roots: &Vec<String>, id: &str) -> (r: Vec<String>)
    ensures
        strings_view(r@) == joined_below(joined_below(strings_view(roots@), id@), "theme.toml"@),
{
    let dirs = join_each(roots, id);
    join_each(&dirs, "theme.toml")
}

/// A theme pack's identity and settings: everything of a loaded pack but
/// its drawing parameters.
#[derive(Debug, Clone, PartialEq)]
pub struct ThemePackInfo {
    pub id: String,
    pub name: String,
    pub renderer: RenderMode,
    pub root: Option<String>,
    pub assets: ThemeAssets,
    pub theme: ThemeConfig,
}

/// A theme file's fields as read, with defaults for those it lacks.
#[derive(Debug, Clone, PartialEq)]
pub struct ParsedThemePack {
    pub id: String,
    pub name: String,
    pub renderer: RenderMode,
    pub theme: ThemeConfig,
    pub assets: ThemeAssetsToml,
}

/// `theme` with its preset and renderer replaced and its other settings
/// kept.
pub open spec fn retargeted(after: ThemeConfig, theme: ThemeConfig, preset: Seq<char>, renderer: RenderMode) -> bool {
    &&& after.preset@ == preset
    &&& after.renderer == Some(renderer)
    &&& after.shelf_style == theme.shelf_style
    &&& after.shelf_top@ == theme.shelf_top@
    &&& after.shelf_bottom@ == theme.shelf_bottom@
    &&& after.shelf_stroke@ == theme.shelf_stroke@
    &&& after.shelf_highlight@ == theme.shelf_highlight@
    &&& after.indicator@ == theme.indicator@
    &&& after.badge@ == theme.badge@
}

fn retarget(theme: &ThemeConfig, preset: String, renderer: RenderMode) -> (r: ThemeConfig)
    ensures
        retargeted(r, *theme, preset@, renderer),
{
    ThemeConfig {
        preset,
        renderer: Some(renderer),
        shelf_style: theme.shelf_style,
        shelf_top: theme.shelf_top.clone(),
        shelf_bottom: theme.shelf_bottom.clone(),
        shelf_stroke: theme.shelf_stroke.clone(),
        shelf_highlight: theme.shelf_highlight.clone(),
        indicator: theme.indicator.clone(),
        badge: theme.badge.clone(),
    }
}

/// No asset is set.
pub open spec fn no_assets(a: ThemeAssets) -> bool {
    &&& a.shelf_texture is None
    &&& a.shelf_overlay is None
    &&& a.noise_texture is None
    &&& a.normal_map is None
    &&& a.fallback_texture is None
}

/// Each asset of `a` is the one written in `t`, resolved against `root`.
pub open spec fn assets_resolved(a: ThemeAssets, root: Option<Seq<char>>, t: ThemeAssetsToml) -> bool {
    &&& opt_view(a.shelf_texture) == resolve_asset_spec(root, opt_view(t.shelf_texture))
    &&& opt_view(a.shelf_overlay) == resolve_asset_spec(root, opt_view(t.shelf_overlay))
    &&& opt_view(a.noise_texture) == resolve_asset_spec(root, opt_view(t.noise_texture))
    &&& opt_view(a.normal_map) == resolve_asset_spec(root, opt_view(t.normal_map))
    &&& opt_view(a.fallback_texture) == resolve_asset_spec(root, opt_view(t.fallback_texture))
}

/// A theme pack's display name: its own when not blank, else its id.
pub open spec fn pack_name_spec(parsed_id: Seq<char>, parsed_name: Seq<char>, theme_file: Seq<char>) -> Seq<char> {
    if trim(parsed_name).len() > 0 {
        parsed_name
    } else {
        pack_id_spec(parsed_id, theme_file)
    }
}

impl ThemePackInfo {
    /// The built-in pack `id` with the configured theme settings: the id
    /// normalized, the configured renderer or the procedural one, no
    /// directory and no assets.
    pub fn builtin(id: &str, config: &ThemeConfig) -> (r: Self)
        ensures
            r.id@ == normalized_theme_id_spec(id@),
            r.name@ == builtin_name(r.id@),
            r.renderer == (match config.renderer {
                Some(m) => m,
                None => RenderMode::Procedural2d,
            }),
            r.root is None,
            no_assets(r.assets),
            retargeted(r.theme, *config, r.id@, r.renderer),
    {
        let (id, name, renderer) = builtin_identity(id, config.renderer);
        let theme = retarget(config, id.clone(), renderer);
        ThemePackInfo { id, name, renderer, root: None, assets: ThemeAssets::default(), theme }
    }

    /// The pack read from `theme_file`: its id (else its directory's name)
    /// normalized, its name (else that id), its renderer, its directory, its
    /// assets resolved there, and its theme settings under its own id and
    /// renderer with the user's color changes applied.
    pub fn from_parsed(theme_file: &str, parsed: ParsedThemePack, overrides: &ThemeConfig) -> (r: Self)
        ensures
            r.id@ == normalized_theme_id_spec(pack_id_spec(parsed.id@, theme_file@)),
            r.name@ == pack_name_spec(parsed.id@, parsed.name@, theme_file@),
            r.renderer == parsed.renderer,
            opt_view(r.root) == parent_of(theme_file@),
            assets_resolved(r.assets, opt_view(r.root), parsed.assets),
            r.theme.preset@ == r.id@,
            r.theme.renderer == Some(parsed.renderer),
            r.theme.shelf_style == parsed.theme.shelf_style,
            colors_overridden(r.theme, parsed.theme, *overrides),
    {
        let (id, name) = pack_identity(parsed.id.as_str(), parsed.name.as_str(), theme_file);
        let root = path_parent(theme_file);
        let mut theme = retarget(&parsed.theme, id.clone(), parsed.renderer);
        apply_user_theme_overrides(&mut theme, overrides);
        let assets = parsed.assets.resolve(as_opt_str(&root));
        ThemePackInfo { id, name, renderer: parsed.renderer, root, assets, theme }
    }
}

} // verus!
