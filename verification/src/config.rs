//! User configuration values and their normalization rules.
use crate::model::assemble::{applets_view, strings_view};
use crate::path::{file_name, file_name_vec, join_path, path_join};
use crate::seqs::{
    dedupe_by, has_key, keep, keys_distinct, lemma_dedupe_by, lemma_dedupe_by_distinct,
    lemma_keep_all, lemma_keep_has_key, lemma_keep_keys_distinct, lemma_keep_len, lemma_keep_push,
};
use crate::text::{
    blank, chars_of, copy_opt_string, ends_with, ends_with_vec, is_blank_vec,
    lemma_lower_seq_len, lemma_trim_fixed, lemma_trim_idempotent, lower_seq, lower_string, lower_vec,
    opt_view, str_eq, string_of, trim, trim_string, trim_vec,
};
use vstd::prelude::*;

pub mod edits;

verus! {

/// Visual style of the shelf.
#[derive(Debug, Clone, Copy, PartialEq, Eq, Structural)]
pub enum ShelfStyle {
    CrystalGlass,
    LeopardPlank,
    Legacy,
}

/// Kind of a configured applet.
#[derive(Debug, Clone, Copy, PartialEq, Eq, Structural)]
pub enum AppletKind {
    Folder,
}

/// Screen edge the dock is attached to.
#[derive(Debug, Clone, Copy, PartialEq, Eq, Structural)]
pub enum DockEdge {
    Bottom,
    Top,
    Left,
    Right,
}

/// Shelf rendering backend.
#[derive(Debug, Clone, Copy, PartialEq, Eq, Structural)]
pub enum RenderMode {
    Scene3d,
    Texture2d,
    Procedural2d,
}

impl Default for ShelfStyle {
    fn default() -> (r: Self)
        ensures
            r == ShelfStyle::LeopardPlank,
    {
        ShelfStyle::LeopardPlank
    }
}

impl Default for AppletKind {
    fn default() -> (r: Self)
        ensures
            r == AppletKind::Folder,
    {
        AppletKind::Folder
    }
}

impl Default for DockEdge {
    fn default() -> (r: Self)
        ensures
            r == DockEdge::Bottom,
    {
        DockEdge::Bottom
    }
}

impl Default for RenderMode {
    fn default() -> (r: Self)
        ensures
            r == RenderMode::Procedural2d,
    {
        RenderMode::Procedural2d
    }
}

/// A configured applet. Paths are held as strings.
#[derive(Debug, Clone, PartialEq)]
pub struct AppletConfig {
    pub kind: AppletKind,
    pub label: String,
    pub path: Option<String>,
    pub icon_name: Option<String>,
}

pub struct AppletConfigView {
    pub kind: AppletKind,
    pub label: Seq<char>,
    pub path: Option<Seq<char>>,
    pub icon_name: Option<Seq<char>>,
}

impl View for AppletConfig {
    type V = AppletConfigView;

    open spec fn view(&self) -> AppletConfigView {
        AppletConfigView {
            kind: self.kind,
            label: self.label@,
            path: opt_view(self.path),
            icon_name: opt_view(self.icon_name),
        }
    }
}

/// Label shown for a folder applet: the folder's name, else the whole path,
/// else "Folder".
pub open spec fn folder_applet_label(path: Seq<char>) -> Seq<char> {
    match file_name(path) {
        Some(f) if !blank(f) => f,
        _ => if !blank(path) {
            path
        } else {
            "Folder"@
        },
    }
}

fn folder_applet_label_of(path: &String) -> (r: String)
    ensures
        r@ == folder_applet_label(path@),
{
    let v = chars_of(path.as_str());
    match file_name_vec(&v) {
        Some(f) => {
            if !is_blank_vec(&f) {
                return string_of(&f);
            }
        },
        None => {},
    }
    if !is_blank_vec(&v) {
        path.clone()
    } else {
        String::from_str("Folder")
    }
}

impl Default for AppletConfig {
    fn default() -> (r: Self)
        ensures
            r.kind == AppletKind::Folder,
            r.label@ == Seq::<char>::empty(),
            r.path is None,
            r.icon_name is None,
    {
        AppletConfig { kind: AppletKind::Folder, label: String::new(), path: None, icon_name: None }
    }
}

impl AppletConfig {
    /// A folder applet for `path`, labelled by the folder's name, with the
    /// `folder` icon.
    pub fn folder(path: String) -> (r: Self)
        ensures
            r.kind == AppletKind::Folder,
            r.label@ == folder_applet_label(path@),
            r.path == Some(path),
            opt_view(r.icon_name) == Some("folder"@),
    {
        let label = folder_applet_label_of(&path);
        AppletConfig {
            kind: AppletKind::Folder,
            label,
            path: Some(path),
            icon_name: Some(String::from_str("folder")),
        }
    }
}

/// A pinned desktop id: trimmed, with the known aliases of the terminal, the
/// file manager and the settings manager (matched ignoring ASCII case)
/// replaced by their canonical ids.
pub open spec fn pinned_id(id: Seq<char>) -> Seq<char> {
    let t = trim(id);
    let l = lower_seq(t);
    if l == "org.xfce.terminal.desktop"@ {
        "xfce4-terminal.desktop"@
    } else if l == "thunar.desktop"@ {
        "thunar.desktop"@
    } else if l == "org.xfce.settings.manager.desktop"@ {
        "xfce-settings-manager.desktop"@
    } else {
        t
    }
}

/// A key naming an item in the configuration: trimmed, and normalized as a
/// pinned id when it ends in `.desktop` (ignoring ASCII case).
pub open spec fn custom_icon_key(key: Seq<char>) -> Seq<char> {
    let t = trim(key);
    if ends_with(lower_seq(t), ".desktop"@) {
        pinned_id(t)
    } else {
        t
    }
}

/// Normalizing a pinned id twice is normalizing it once; the result is
/// trimmed.
pub proof fn lemma_pinned_id_idempotent(id: Seq<char>)
    ensures
        pinned_id(pinned_id(id)) == pinned_id(id),
        trim(pinned_id(id)) == pinned_id(id),
{
    reveal_strlit("xfce4-terminal.desktop");
    reveal_strlit("thunar.desktop");
    reveal_strlit("xfce-settings-manager.desktop");
    reveal_strlit("org.xfce.terminal.desktop");
    reveal_strlit("org.xfce.settings.manager.desktop");
    let t = trim(id);
    lemma_trim_idempotent(id);
    let r = pinned_id(id);
    lemma_lower_seq_len(r);
    if r != t {
        lemma_trim_fixed(r);
        if r == "thunar.desktop"@ {
            assert(lower_seq(r) =~= r);
        }
    }
}

/// Normalizes a pinned desktop id.
pub fn normalize_pinned_id(id: &str) -> (r: String)
    ensures
        r@ == pinned_id(id@),
{
    let t = trim_string(id);
    let l = lower_string(t.as_str());
    if str_eq(l.as_str(), "org.xfce.terminal.desktop") {
        String::from_str("xfce4-terminal.desktop")
    } else if str_eq(l.as_str(), "thunar.desktop") {
        String::from_str("thunar.desktop")
    } else if str_eq(l.as_str(), "org.xfce.settings.manager.desktop") {
        String::from_str("xfce-settings-manager.desktop")
    } else {
        t
    }
}

/// Normalizes a key that names an item in the configuration.
pub fn normalize_custom_icon_key(key: &str) -> (r: String)
    ensures
        r@ == custom_icon_key(key@),
{
    let t = trim_string(key);
    let lv = lower_vec(&chars_of(t.as_str()));
    let suffix = chars_of(".desktop");
    if ends_with_vec(&lv, &suffix) {
        normalize_pinned_id(t.as_str())
    } else {
        t
    }
}

/// Normalizing an item key twice is normalizing it once.
pub proof fn lemma_custom_icon_key_idempotent(key: Seq<char>)
    ensures
        custom_icon_key(custom_icon_key(key)) == custom_icon_key(key),
{
    let t = trim(key);
    lemma_trim_idempotent(key);
    if ends_with(lower_seq(t), ".desktop"@) {
        lemma_pinned_id_idempotent(t);
        let r = pinned_id(t);
        if ends_with(lower_seq(r), ".desktop"@) {
            assert(custom_icon_key(r) == pinned_id(r));
        }
    }
}

/// Case-insensitive comparison key of a string.
pub open spec fn lower_key() -> spec_fn(Seq<char>) -> Seq<char> {
    |s: Seq<char>| lower_seq(s)
}

/// The string has a character other than whitespace.
pub open spec fn not_blank() -> spec_fn(Seq<char>) -> bool {
    |s: Seq<char>| !blank(s)
}

/// `s` holds a string equal to `x`.
pub fn contains_string(v: &Vec<String>, x: &String) -> (r: bool)
    ensures
        r == strings_view(v@).contains(x@),
{
    let mut i: usize = 0;
    while i < v.len()
        invariant
            i <= v.len(),
            forall|j: int| 0 <= j < i ==> v@[j]@ != x@,
        decreases v.len() - i,
    {
        if str_eq(v[i].as_str(), x.as_str()) {
            assert(strings_view(v@)[i as int] == x@);
            return true;
        }
        i = i + 1;
    }
    assert forall|j: int| 0 <= j < strings_view(v@).len() implies strings_view(v@)[j] != x@ by {
        assert(strings_view(v@)[j] == v@[j]@);
    }
    false
}

/// Keeps the first of the values that are equal ignoring ASCII case.
pub fn dedupe_case_insensitive(values: &mut Vec<String>)
    ensures
        strings_view(final(values)@) == dedupe_by(strings_view(old(values)@), lower_key()),
{
    let ghost sv = strings_view(values@);
    let mut out: Vec<String> = Vec::new();
    let mut seen: Vec<String> = Vec::new();
    let mut i: usize = 0;
    assert(sv.take(0) =~= Seq::<Seq<char>>::empty());
    assert(strings_view(out@) =~= Seq::<Seq<char>>::empty());
    while i < values.len()
        invariant
            i <= values.len(),
            sv == strings_view(values@),
            strings_view(out@) == dedupe_by(sv.take(i as int), lower_key()),
            seen@.len() == out@.len(),
            forall|k: int| 0 <= k < seen@.len() ==> #[trigger] seen@[k]@ == lower_seq(out@[k]@),
        decreases values.len() - i,
    {
        let ghost pre = sv.take(i as int);
        let ghost d = strings_view(out@);
        assert(sv.take(i + 1).drop_last() =~= pre);
        assert(sv.take(i + 1).last() == values@[i as int]@);
        let lowered = lower_string(values[i].as_str());
        proof {
            lemma_dedupe_by(pre, lower_key());
        }
        let found = contains_string(&seen, &lowered);
        assert(found == has_key(d, lower_key(), lowered@)) by {
            if found {
                let k = choose|k: int| 0 <= k < strings_view(seen@).len() && strings_view(seen@)[k] == lowered@;
                assert(strings_view(seen@)[k] == seen@[k]@);
                assert(d[k] == out@[k]@);
                assert(lower_key()(d[k]) == lowered@);
            }
            if has_key(d, lower_key(), lowered@) {
                let k = choose|k: int| 0 <= k < d.len() && lower_key()(#[trigger] d[k]) == lowered@;
                assert(d[k] == out@[k]@);
                assert(strings_view(seen@)[k] == seen@[k]@);
            }
        }
        if !found {
            out.push(values[i].clone());
            seen.push(lowered);
            assert(strings_view(out@) =~= d.push(sv[i as int]));
        }
        i = i + 1;
    }
    assert(sv.take(values.len() as int) =~= sv);
    *values = out;
}

/// The key by which configured applets are told apart: the folder path,
/// lowercased; empty for an applet without a path.
pub open spec fn applet_key(a: AppletConfigView) -> Seq<char> {
    match a.path {
        Some(p) => lower_seq(p),
        None => Seq::empty(),
    }
}

pub open spec fn applet_key_fn() -> spec_fn(AppletConfigView) -> Seq<char> {
    |a: AppletConfigView| applet_key(a)
}

pub open spec fn has_applet_key() -> spec_fn(AppletConfigView) -> bool {
    |a: AppletConfigView| applet_key(a).len() > 0
}

/// The applets with a key, keeping the first applet of each key.
pub open spec fn deduped_applets(s: Seq<AppletConfigView>) -> Seq<AppletConfigView> {
    keep(dedupe_by(s, applet_key_fn()), has_applet_key())
}

/// A field-by-field copy of an applet.
pub fn copy_applet(a: &AppletConfig) -> (r: AppletConfig)
    ensures
        r == *a,
{
    AppletConfig {
        kind: a.kind,
        label: a.label.clone(),
        path: copy_opt_string(&a.path),
        icon_name: copy_opt_string(&a.icon_name),
    }
}

/// Drops applets without a key and later applets whose key repeats an
/// earlier one.
pub fn dedupe_applets(applets: &mut Vec<AppletConfig>)
    ensures
        applets_view(final(applets)@) == deduped_applets(applets_view(old(applets)@)),
{
    let ghost av = applets_view(applets@);
    let mut out: Vec<AppletConfig> = Vec::new();
    let mut seen: Vec<String> = Vec::new();
    let mut i: usize = 0;
    assert(av.take(0) =~= Seq::<AppletConfigView>::empty());
    assert(applets_view(out@) =~= Seq::<AppletConfigView>::empty());
    while i < applets.len()
        invariant
            i <= applets.len(),
            av == applets_view(applets@),
            applets_view(out@) == deduped_applets(av.take(i as int)),
            seen@.len() == out@.len(),
            forall|k: int| 0 <= k < seen@.len() ==> #[trigger] seen@[k]@ == applet_key(out@[k]@),
        decreases applets.len() - i,
    {
        let ghost pre = av.take(i as int);
        let ghost dd = dedupe_by(pre, applet_key_fn());
        let ghost d = applets_view(out@);
        assert(av.take(i + 1).drop_last() =~= pre);
        assert(av.take(i + 1).last() == applets@[i as int]@);
        let key = match &applets[i].path {
            Some(p) => lower_string(p.as_str()),
            None => String::new(),
        };
        assert(key@ == applet_key(applets@[i as int]@));
        let kv = chars_of(key.as_str());
        if kv.len() > 0 {
            proof {
                lemma_dedupe_by(pre, applet_key_fn());
                lemma_keep_has_key(dd, has_applet_key(), applet_key_fn(), key@);
            }
            let found = contains_string(&seen, &key);
            assert(found == has_key(d, applet_key_fn(), key@)) by {
                if found {
                    let k = choose|k: int| 0 <= k < strings_view(seen@).len() && strings_view(seen@)[k] == key@;
                    assert(strings_view(seen@)[k] == seen@[k]@);
                    assert(d[k] == out@[k]@);
                    assert(applet_key_fn()(d[k]) == key@);
                }
                if has_key(d, applet_key_fn(), key@) {
                    let k = choose|k: int| 0 <= k < d.len() && applet_key_fn()(#[trigger] d[k]) == key@;
                    assert(d[k] == out@[k]@);
                    assert(strings_view(seen@)[k] == seen@[k]@);
                }
            }
            proof {
                lemma_keep_push(dd, av[i as int], has_applet_key());
            }
            if !found {
                out.push(copy_applet(&applets[i]));
                seen.push(key);
                assert(applets_view(out@) =~= d.push(av[i as int]));
            }
        } else {
            proof {
                lemma_keep_push(dd, av[i as int], has_applet_key());
            }
        }
        i = i + 1;
    }
    assert(av.take(applets.len() as int) =~= av);
    *applets = out;
}

pub open spec fn pinned_id_fn() -> spec_fn(Seq<char>) -> Seq<char> {
    |s: Seq<char>| pinned_id(s)
}

pub open spec fn custom_icon_key_fn() -> spec_fn(Seq<char>) -> Seq<char> {
    |s: Seq<char>| custom_icon_key(s)
}

/// Pinned ids after normalization: each id normalized, blank ones dropped.
pub open spec fn normalized_pinned(s: Seq<Seq<char>>) -> Seq<Seq<char>> {
    keep(s.map_values(pinned_id_fn()), not_blank())
}

/// Hidden ids and saved item order after normalization: each key
/// normalized, repeats (ignoring ASCII case) dropped, blank ones dropped.
pub open spec fn normalized_keys(s: Seq<Seq<char>>) -> Seq<Seq<char>> {
    keep(dedupe_by(s.map_values(custom_icon_key_fn()), lower_key()), not_blank())
}

/// The strings that are not blank.
pub fn retain_not_blank(v: &Vec<String>) -> (r: Vec<String>)
    ensures
        strings_view(r@) == keep(strings_view(v@), not_blank()),
{
    let ghost sv = strings_view(v@);
    let mut out: Vec<String> = Vec::new();
    let mut i: usize = 0;
    assert(sv.take(0) =~= Seq::<Seq<char>>::empty());
    assert(strings_view(out@) =~= Seq::<Seq<char>>::empty());
    while i < v.len()
        invariant
            i <= v.len(),
            sv == strings_view(v@),
            strings_view(out@) == keep(sv.take(i as int), not_blank()),
        decreases v.len() - i,
    {
        assert(sv.take(i + 1) =~= sv.take(i as int).push(sv[i as int]));
        proof {
            lemma_keep_push(sv.take(i as int), sv[i as int], not_blank());
        }
        let ghost before = strings_view(out@);
        let blank_now = crate::text::is_blank_str(v[i].as_str());
        assert(sv[i as int] == v@[i as int]@);
        if !blank_now {
            out.push(v[i].clone());
            assert(strings_view(out@) =~= before.push(sv[i as int]));
        }
        i = i + 1;
    }
    assert(sv.take(v.len() as int) =~= sv);
    out
}

/// Normalizes a list of pinned ids.
pub fn normalize_pinned(pinned: &Vec<String>) -> (r: Vec<String>)
    ensures
        strings_view(r@) == normalized_pinned(strings_view(pinned@)),
{
    let ghost sv = strings_view(pinned@);
    let mut mapped: Vec<String> = Vec::new();
    let mut i: usize = 0;
    while i < pinned.len()
        invariant
            i <= pinned.len(),
            sv == strings_view(pinned@),
            strings_view(mapped@) == sv.take(i as int).map_values(pinned_id_fn()),
        decreases pinned.len() - i,
    {
        let ghost before = strings_view(mapped@);
        mapped.push(normalize_pinned_id(pinned[i].as_str()));
        assert(sv.take(i + 1).map_values(pinned_id_fn()) =~= sv.take(i as int).map_values(
            pinned_id_fn(),
        ).push(pinned_id(sv[i as int])));
        assert(strings_view(mapped@) =~= before.push(pinned_id(sv[i as int])));
        i = i + 1;
    }
    assert(sv.take(pinned.len() as int) =~= sv);
    retain_not_blank(&mapped)
}

/// Normalizes a list of item keys (hidden ids, saved item order).
pub fn normalize_keys(keys: &Vec<String>) -> (r: Vec<String>)
    ensures
        strings_view(r@) == normalized_keys(strings_view(keys@)),
{
    let ghost sv = strings_view(keys@);
    let mut mapped: Vec<String> = Vec::new();
    let mut i: usize = 0;
    while i < keys.len()
        invariant
            i <= keys.len(),
            sv == strings_view(keys@),
            strings_view(mapped@) == sv.take(i as int).map_values(custom_icon_key_fn()),
        decreases keys.len() - i,
    {
        let ghost before = strings_view(mapped@);
        mapped.push(normalize_custom_icon_key(keys[i].as_str()));
        assert(sv.take(i + 1).map_values(custom_icon_key_fn()) =~= sv.take(i as int).map_values(
            custom_icon_key_fn(),
        ).push(custom_icon_key(sv[i as int])));
        assert(strings_view(mapped@) =~= before.push(custom_icon_key(sv[i as int])));
        i = i + 1;
    }
    assert(sv.take(keys.len() as int) =~= sv);
    dedupe_case_insensitive(&mut mapped);
    retain_not_blank(&mapped)
}

/// An optional icon name, trimmed; empty after trimming means none.
pub open spec fn trimmed_icon(n: Option<Seq<char>>) -> Option<Seq<char>> {
    match n {
        Some(x) => if trim(x).len() == 0 {
            None
        } else {
            Some(trim(x))
        },
        None => None,
    }
}

/// An applet with its label and icon name trimmed.
pub open spec fn cleaned_applet(a: AppletConfigView) -> AppletConfigView {
    AppletConfigView {
        kind: a.kind,
        label: trim(a.label),
        path: a.path,
        icon_name: trimmed_icon(a.icon_name),
    }
}

pub open spec fn cleaned_applet_fn() -> spec_fn(AppletConfigView) -> AppletConfigView {
    |a: AppletConfigView| cleaned_applet(a)
}

/// A folder applet needs a non-empty path.
pub open spec fn has_folder_path() -> spec_fn(AppletConfigView) -> bool {
    |a: AppletConfigView|
        match a.path {
            Some(p) => p.len() > 0,
            None => false,
        }
}

/// Configured applets after normalization: labels and icon names trimmed,
/// applets without a path dropped, and the first applet of each path
/// (ignoring ASCII case) kept.
pub open spec fn normalized_applets(s: Seq<AppletConfigView>) -> Seq<AppletConfigView> {
    deduped_applets(keep(s.map_values(cleaned_applet_fn()), has_folder_path()))
}

fn clean_applet(a: &AppletConfig) -> (r: AppletConfig)
    ensures
        r@ == cleaned_applet(a@),
{
    let icon_name = match &a.icon_name {
        Some(n) => {
            let t = trim_vec(&chars_of(n.as_str()));
            if t.len() == 0 {
                None
            } else {
                Some(string_of(&t))
            }
        },
        None => None,
    };
    AppletConfig {
        kind: a.kind,
        label: trim_string(a.label.as_str()),
        path: copy_opt_string(&a.path),
        icon_name,
    }
}

/// Normalizes the configured applets.
pub fn normalize_applets(applets: &Vec<AppletConfig>) -> (r: Vec<AppletConfig>)
    ensures
        applets_view(r@) == normalized_applets(applets_view(applets@)),
{
    let ghost av = applets_view(applets@);
    let ghost cv = av.map_values(cleaned_applet_fn());
    let mut out: Vec<AppletConfig> = Vec::new();
    let mut i: usize = 0;
    assert(cv.take(0) =~= Seq::<AppletConfigView>::empty());
    assert(applets_view(out@) =~= Seq::<AppletConfigView>::empty());
    while i < applets.len()
        invariant
            i <= applets.len(),
            av == applets_view(applets@),
            cv == av.map_values(cleaned_applet_fn()),
            applets_view(out@) == keep(cv.take(i as int), has_folder_path()),
        decreases applets.len() - i,
    {
        assert(cv.take(i + 1) =~= cv.take(i as int).push(cv[i as int]));
        proof {
            lemma_keep_push(cv.take(i as int), cv[i as int], has_folder_path());
        }
        let ghost before = applets_view(out@);
        let c = clean_applet(&applets[i]);
        assert(c@ == cv[i as int]);
        let keep_it = match &c.path {
            Some(p) => chars_of(p.as_str()).len() > 0,
            None => false,
        };
        if keep_it {
            out.push(c);
            assert(applets_view(out@) =~= before.push(cv[i as int]));
        }
        i = i + 1;
    }
    assert(cv.take(applets.len() as int) =~= cv);
    dedupe_applets(&mut out);
    out
}

/// An icon override after normalization: the key normalized and the path
/// trimmed; none when either ends up empty.
pub open spec fn icon_entry(e: (Seq<char>, Seq<char>)) -> Option<(Seq<char>, Seq<char>)> {
    let k = custom_icon_key(e.0);
    let p = trim(e.1);
    if k.len() > 0 && p.len() > 0 {
        Some((k, p))
    } else {
        None
    }
}

/// The map made by inserting the entries in order: a later entry replaces an
/// earlier one with the same key.
pub open spec fn entries_map(s: Seq<(Seq<char>, Seq<char>)>) -> Map<Seq<char>, Seq<char>>
    decreases s.len(),
{
    if s.len() == 0 {
        Map::empty()
    } else {
        entries_map(s.drop_last()).insert(s.last().0, s.last().1)
    }
}

/// Icon overrides after normalization: the normalized entries inserted in
/// order, entries that normalize to nothing skipped.
pub open spec fn normalized_icons(s: Seq<(Seq<char>, Seq<char>)>) -> Map<Seq<char>, Seq<char>>
    decreases s.len(),
{
    if s.len() == 0 {
        Map::empty()
    } else {
        match icon_entry(s.last()) {
            Some(e) => normalized_icons(s.drop_last()).insert(e.0, e.1),
            None => normalized_icons(s.drop_last()),
        }
    }
}

pub open spec fn pairs_view(v: Seq<(String, String)>) -> Seq<(Seq<char>, Seq<char>)> {
    v.map_values(|e: (String, String)| (e.0@, e.1@))
}

pub open spec fn entry_key() -> spec_fn((Seq<char>, Seq<char>)) -> Seq<char> {
    |e: (Seq<char>, Seq<char>)| e.0
}

proof fn lemma_entries_map_update(s: Seq<(Seq<char>, Seq<char>)>, idx: int, e: (Seq<char>, Seq<char>))
    requires
        keys_distinct(s, entry_key()),
        0 <= idx < s.len(),
        s[idx].0 == e.0,
    ensures
        entries_map(s.update(idx, e)) == entries_map(s).insert(e.0, e.1),
    decreases s.len(),
{
    let t = s.drop_last();
    let l = s.last();
    if idx == s.len() - 1 {
        assert(s.update(idx, e).drop_last() =~= t);
        assert(entries_map(t).insert(l.0, l.1).insert(e.0, e.1) =~= entries_map(t).insert(e.0, e.1));
    } else {
        assert forall|i: int, j: int| 0 <= i < j < t.len() implies entry_key()(#[trigger] t[i])
            != entry_key()(#[trigger] t[j]) by {
            assert(t[i] == s[i] && t[j] == s[j]);
        }
        lemma_entries_map_update(t, idx, e);
        assert(s.update(idx, e).drop_last() =~= t.update(idx, e));
        assert(s.update(idx, e).last() == l);
        assert(entry_key()(s[idx]) != entry_key()(s[s.len() - 1]));
        assert(entries_map(t).insert(e.0, e.1).insert(l.0, l.1) =~= entries_map(t).insert(
            l.0,
            l.1,
        ).insert(e.0, e.1));
    }
}

fn position_of_key(entries: &Vec<(String, String)>, key: &str) -> (r: Option<usize>)
    ensures
        match r {
            Some(j) => j < entries.len() && entries@[j as int].0@ == key@,
            None => !has_key(pairs_view(entries@), entry_key(), key@),
        },
{
    let mut j: usize = 0;
    while j < entries.len()
        invariant
            j <= entries.len(),
            forall|m: int| 0 <= m < j ==> entries@[m].0@ != key@,
        decreases entries.len() - j,
    {
        if str_eq(entries[j].0.as_str(), key) {
            return Some(j);
        }
        j = j + 1;
    }
    assert forall|m: int| 0 <= m < pairs_view(entries@).len() implies entry_key()(
        #[trigger] pairs_view(entries@)[m],
    ) != key@ by {
        assert(pairs_view(entries@)[m].0 == entries@[m].0@);
    }
    None
}

/// Entries after index `i` that do not have key `k` leave its lookup as the
/// entries up to `i` give it.
proof fn lemma_entries_map_prefix(s: Seq<(Seq<char>, Seq<char>)>, i: int, k: Seq<char>)
    requires
        0 <= i <= s.len(),
        forall|j: int| i <= j < s.len() ==> (#[trigger] s[j]).0 != k,
    ensures
        entries_map(s).contains_key(k) == entries_map(s.subrange(0, i)).contains_key(k),
        entries_map(s).contains_key(k) ==> entries_map(s)[k] == entries_map(s.subrange(0, i))[k],
    decreases s.len(),
{
    if s.len() == i {
        assert(s.subrange(0, i) =~= s);
    } else {
        let t = s.drop_last();
        assert forall|j: int| i <= j < t.len() implies (#[trigger] t[j]).0 != k by {
            assert(t[j] == s[j]);
        }
        lemma_entries_map_prefix(t, i, k);
        assert(t.subrange(0, i) =~= s.subrange(0, i));
        assert(s.last().0 != k);
    }
}

/// The path overriding the icon of `key`: the value of the last entry with
/// that key.
pub fn custom_icon_lookup(entries: &Vec<(String, String)>, key: &str) -> (r: Option<String>)
    ensures
        match r {
            Some(p) => entries_map(pairs_view(entries@)).contains_key(key@)
                && p@ == entries_map(pairs_view(entries@))[key@],
            None => !entries_map(pairs_view(entries@)).contains_key(key@),
        },
{
    let ghost s = pairs_view(entries@);
    let mut i: usize = entries.len();
    while i > 0
        invariant
            i <= entries.len(),
            s == pairs_view(entries@),
            forall|j: int| i <= j < s.len() ==> (#[trigger] s[j]).0 != key@,
        decreases i,
    {
        if str_eq(entries[i - 1].0.as_str(), key) {
            proof {
                lemma_entries_map_prefix(s, i as int, key@);
                assert(s.subrange(0, i as int).drop_last() =~= s.subrange(0, i - 1));
                assert(s.subrange(0, i as int).last() == s[i - 1]);
            }
            return Some(entries[i - 1].1.clone());
        }
        i = i - 1;
    }
    proof {
        lemma_entries_map_prefix(s, 0, key@);
        assert(s.subrange(0, 0) =~= Seq::<(Seq<char>, Seq<char>)>::empty());
    }
    None
}

/// Normalizes the icon overrides, given as (key, path) entries; the result
/// holds each key once.
pub fn normalize_custom_icons(entries: &Vec<(String, String)>) -> (r: Vec<(String, String)>)
    ensures
        keys_distinct(pairs_view(r@), entry_key()),
        entries_map(pairs_view(r@)) == normalized_icons(pairs_view(entries@)),
        forall|i: int|
            0 <= i < r.len() ==> icon_entry(#[trigger] pairs_view(r@)[i]) == Some(
                pairs_view(r@)[i],
            ),
{
    let ghost ev = pairs_view(entries@);
    let mut out: Vec<(String, String)> = Vec::new();
    let mut i: usize = 0;
    assert(pairs_view(out@) =~= Seq::<(Seq<char>, Seq<char>)>::empty());
    while i < entries.len()
        invariant
            i <= entries.len(),
            ev == pairs_view(entries@),
            keys_distinct(pairs_view(out@), entry_key()),
            entries_map(pairs_view(out@)) == normalized_icons(ev.take(i as int)),
            forall|m: int|
                0 <= m < out.len() ==> icon_entry(#[trigger] pairs_view(out@)[m]) == Some(
                    pairs_view(out@)[m],
                ),
        decreases entries.len() - i,
    {
        let ghost ov = pairs_view(out@);
        assert(ev.take(i + 1).drop_last() =~= ev.take(i as int));
        assert(ev.take(i + 1).last() == ev[i as int]);
        assert(ev[i as int] == (entries@[i as int].0@, entries@[i as int].1@));
        let k = normalize_custom_icon_key(entries[i].0.as_str());
        let p = trim_string(entries[i].1.as_str());
        let kv = chars_of(k.as_str());
        let pv = chars_of(p.as_str());
        if kv.len() > 0 && pv.len() > 0 {
            proof {
                lemma_trim_idempotent(entries@[i as int].1@);
                lemma_custom_icon_key_idempotent(entries@[i as int].0@);
            }
            assert(icon_entry((k@, p@)) == Some((k@, p@)));
            match position_of_key(&out, k.as_str()) {
                Some(j) => {
                    proof {
                        assert(ov[j as int].0 == k@);
                        lemma_entries_map_update(ov, j as int, (k@, p@));
                    }
                    out.set(j, (k, p));
                    assert(pairs_view(out@) =~= ov.update(j as int, (k@, p@)));
                    assert forall|a: int, b: int|
                        0 <= a < b < pairs_view(out@).len() implies entry_key()(
                        #[trigger] pairs_view(out@)[a],
                    ) != entry_key()(#[trigger] pairs_view(out@)[b]) by {
                        assert(entry_key()(pairs_view(out@)[a]) == entry_key()(ov[a]));
                        assert(entry_key()(pairs_view(out@)[b]) == entry_key()(ov[b]));
                    }
                    assert forall|m: int| 0 <= m < out.len() implies icon_entry(
                        #[trigger] pairs_view(out@)[m],
                    ) == Some(pairs_view(out@)[m]) by {
                        if m != j {
                            assert(pairs_view(out@)[m] == ov[m]);
                        }
                    }
                },
                None => {
                    out.push((k, p));
                    assert(pairs_view(out@) =~= ov.push((k@, p@)));
                    assert(pairs_view(out@).drop_last() =~= ov);
                    assert forall|a: int, b: int|
                        0 <= a < b < pairs_view(out@).len() implies entry_key()(
                        #[trigger] pairs_view(out@)[a],
                    ) != entry_key()(#[trigger] pairs_view(out@)[b]) by {
                        assert(pairs_view(out@)[a] == ov[a]);
                        if b < ov.len() {
                            assert(pairs_view(out@)[b] == ov[b]);
                        } else {
                            assert(!has_key(ov, entry_key(), k@));
                            assert(entry_key()(ov[a]) != k@);
                        }
                    }
                    assert forall|m: int| 0 <= m < out.len() implies icon_entry(
                        #[trigger] pairs_view(out@)[m],
                    ) == Some(pairs_view(out@)[m]) by {
                        if m < ov.len() {
                            assert(pairs_view(out@)[m] == ov[m]);
                        }
                    }
                },
            }
        } else {
            assert(icon_entry(ev[i as int]) is None);
        }
        i = i + 1;
    }
    assert(ev.take(entries.len() as int) =~= ev);
    out
}

/// Dock placement and timing settings.
#[derive(Debug, Clone, PartialEq)]
pub struct DockConfig {
    pub edge: DockEdge,
    pub monitor: Option<String>,
    pub icon_size: u32,
    pub autohide: bool,
    pub hide_delay_ms: u32,
    pub unhide_delay_ms: u32,
    pub reserve_space: bool,
    pub refresh_ms: u32,
}

/// Theme selection and colors (as `#rrggbbaa` strings).
#[derive(Debug, Clone, PartialEq)]
pub struct ThemeConfig {
    pub preset: String,
    pub renderer: Option<RenderMode>,
    pub shelf_style: ShelfStyle,
    pub shelf_top: String,
    pub shelf_bottom: String,
    pub shelf_stroke: String,
    pub shelf_highlight: String,
    pub indicator: String,
    pub badge: String,
}

/// The user configuration. Icon overrides are (key, path) entries.
#[derive(Debug, Clone, PartialEq)]
pub struct Config {
    pub dock: DockConfig,
    pub theme: ThemeConfig,
    pub pinned: Vec<String>,
    pub hidden: Vec<String>,
    pub applets: Vec<AppletConfig>,
    pub item_order: Vec<String>,
    pub custom_icons: Vec<(String, String)>,
}

/// The settings of a fresh configuration.
pub open spec fn is_default_dock(d: DockConfig) -> bool {
    &&& d.edge == DockEdge::Bottom
    &&& d.monitor is None
    &&& d.icon_size == 64
    &&& !d.autohide
    &&& d.hide_delay_ms == 350
    &&& d.unhide_delay_ms == 40
    &&& d.reserve_space
    &&& d.refresh_ms == 500
}

/// The theme of a fresh configuration.
pub open spec fn is_default_theme(t: ThemeConfig) -> bool {
    &&& t.preset@ == "leopard"@
    &&& t.renderer is None
    &&& t.shelf_style == ShelfStyle::LeopardPlank
    &&& t.shelf_top@ == "#cfd5dbff"@
    &&& t.shelf_bottom@ == "#97a4b0ff"@
    &&& t.shelf_stroke@ == "#5b6a79ff"@
    &&& t.shelf_highlight@ == "#dbe2e8ff"@
    &&& t.indicator@ == "#6fd3ffff"@
    &&& t.badge@ == "#e4202dff"@
}

impl Default for DockConfig {
    fn default() -> (r: Self)
        ensures
            is_default_dock(r),
    {
        DockConfig {
            edge: DockEdge::Bottom,
            monitor: None,
            icon_size: 64,
            autohide: false,
            hide_delay_ms: 350,
            unhide_delay_ms: 40,
            reserve_space: true,
            refresh_ms: 500,
        }
    }
}

impl Default for ThemeConfig {
    fn default() -> (r: Self)
        ensures
            is_default_theme(r),
    {
        ThemeConfig {
            preset: String::from_str("leopard"),
            renderer: None,
            shelf_style: ShelfStyle::LeopardPlank,
            shelf_top: String::from_str("#cfd5dbff"),
            shelf_bottom: String::from_str("#97a4b0ff"),
            shelf_stroke: String::from_str("#5b6a79ff"),
            shelf_highlight: String::from_str("#dbe2e8ff"),
            indicator: String::from_str("#6fd3ffff"),
            badge: String::from_str("#e4202dff"),
        }
    }
}

/// The applications pinned in a fresh configuration.
pub open spec fn default_pinned() -> Seq<Seq<char>> {
    seq![
        "xfce4-terminal.desktop"@,
        "thunar.desktop"@,
        "firefox.desktop"@,
        "xfce-settings-manager.desktop"@,
    ]
}

impl Default for Config {
    fn default() -> (r: Self)
        ensures
            is_default_dock(r.dock),
            is_default_theme(r.theme),
            strings_view(r.pinned@) == default_pinned(),
            r.hidden@.len() == 0,
            r.applets@.len() == 0,
            r.item_order@.len() == 0,
            r.custom_icons@.len() == 0,
    {
        let pinned = vec![
            String::from_str("xfce4-terminal.desktop"),
            String::from_str("thunar.desktop"),
            String::from_str("firefox.desktop"),
            String::from_str("xfce-settings-manager.desktop"),
        ];
        assert(strings_view(pinned@) =~= default_pinned());
        Config {
            dock: DockConfig::default(),
            theme: ThemeConfig::default(),
            pinned,
            hidden: Vec::new(),
            applets: Vec::new(),
            item_order: Vec::new(),
            custom_icons: Vec::new(),
        }
    }
}

/// `v` limited to `lo..=hi`.
pub open spec fn clamped(v: u32, lo: u32, hi: u32) -> u32 {
    if v < lo {
        lo
    } else if v > hi {
        hi
    } else {
        v
    }
}

fn clamp_u32(v: u32, lo: u32, hi: u32) -> (r: u32)
    requires
        lo <= hi,
    ensures
        r == clamped(v, lo, hi),
{
    if v < lo {
        lo
    } else if v > hi {
        hi
    } else {
        v
    }
}

/// The theme preset, trimmed; `leopard` when nothing is left.
pub open spec fn normalized_preset(p: Seq<char>) -> Seq<char> {
    if trim(p).len() == 0 {
        "leopard"@
    } else {
        trim(p)
    }
}

impl Config {
    /// The configuration with its values brought into the ranges and shapes
    /// the dock works with: bottom edge, icon size in 24..=160, refresh
    /// interval in 100..=5000 ms, a non-empty preset, and normalized lists.
    pub fn normalized(self) -> (r: Self)
        ensures
            r.dock.edge == DockEdge::Bottom,
            r.dock.icon_size == clamped(self.dock.icon_size, 24, 160),
            r.dock.refresh_ms == clamped(self.dock.refresh_ms, 100, 5000),
            r.dock.monitor == self.dock.monitor,
            r.dock.autohide == self.dock.autohide,
            r.dock.hide_delay_ms == self.dock.hide_delay_ms,
            r.dock.unhide_delay_ms == self.dock.unhide_delay_ms,
            r.dock.reserve_space == self.dock.reserve_space,
            r.theme.preset@ == normalized_preset(self.theme.preset@),
            r.theme.renderer == self.theme.renderer,
            r.theme.shelf_style == self.theme.shelf_style,
            r.theme.shelf_top == self.theme.shelf_top,
            r.theme.shelf_bottom == self.theme.shelf_bottom,
            r.theme.shelf_stroke == self.theme.shelf_stroke,
            r.theme.shelf_highlight == self.theme.shelf_highlight,
            r.theme.indicator == self.theme.indicator,
            r.theme.badge == self.theme.badge,
            strings_view(r.pinned@) == normalized_pinned(strings_view(self.pinned@)),
            strings_view(r.hidden@) == normalized_keys(strings_view(self.hidden@)),
            applets_view(r.applets@) == normalized_applets(applets_view(self.applets@)),
            strings_view(r.item_order@) == normalized_keys(strings_view(self.item_order@)),
            keys_distinct(pairs_view(r.custom_icons@), entry_key()),
            entries_map(pairs_view(r.custom_icons@)) == normalized_icons(
                pairs_view(self.custom_icons@),
            ),
            forall|i: int|
                0 <= i < r.custom_icons@.len() ==> icon_entry(
                    #[trigger] pairs_view(r.custom_icons@)[i],
                ) == Some(pairs_view(r.custom_icons@)[i]),
    {
        let mut c = self;
        c.dock.edge = DockEdge::Bottom;
        c.dock.icon_size = clamp_u32(c.dock.icon_size, 24, 160);
        c.dock.refresh_ms = clamp_u32(c.dock.refresh_ms, 100, 5000);
        let preset = trim_string(c.theme.preset.as_str());
        c.theme.preset = if chars_of(preset.as_str()).len() == 0 {
            String::from_str("leopard")
        } else {
            preset
        };
        c.pinned = normalize_pinned(&c.pinned);
        c.hidden = normalize_keys(&c.hidden);
        c.applets = normalize_applets(&c.applets);
        c.item_order = normalize_keys(&c.item_order);
        c.custom_icons = normalize_custom_icons(&c.custom_icons);
        c
    }
}

/// Normalizing normalized pinned ids changes nothing.
pub proof fn lemma_normalized_pinned_idempotent(s: Seq<Seq<char>>)
    ensures
        normalized_pinned(normalized_pinned(s)) == normalized_pinned(s),
{
    let m = s.map_values(pinned_id_fn());
    let r = normalized_pinned(s);
    lemma_keep_len(m, not_blank());
    assert forall|i: int| 0 <= i < r.len() implies pinned_id(#[trigger] r[i]) == r[i] by {
        assert(m.contains(r[i]));
        let j = choose|j: int| 0 <= j < m.len() && m[j] == r[i];
        lemma_pinned_id_idempotent(s[j]);
    }
    assert(r.map_values(pinned_id_fn()) =~= r);
    lemma_keep_all(r, not_blank());
}

/// Normalizing normalized item keys changes nothing.
pub proof fn lemma_normalized_keys_idempotent(s: Seq<Seq<char>>)
    ensures
        normalized_keys(normalized_keys(s)) == normalized_keys(s),
{
    let m = s.map_values(custom_icon_key_fn());
    let d = dedupe_by(m, lower_key());
    let r = normalized_keys(s);
    lemma_dedupe_by(m, lower_key());
    lemma_keep_len(d, not_blank());
    assert forall|i: int| 0 <= i < r.len() implies custom_icon_key(#[trigger] r[i]) == r[i] by {
        assert(d.contains(r[i]));
        let k = choose|k: int| 0 <= k < d.len() && d[k] == r[i];
        assert(m.contains(d[k]));
        let j = choose|j: int| 0 <= j < m.len() && m[j] == d[k];
        lemma_custom_icon_key_idempotent(s[j]);
    }
    assert(r.map_values(custom_icon_key_fn()) =~= r);
    lemma_keep_keys_distinct(d, not_blank(), lower_key());
    lemma_dedupe_by_distinct(r, lower_key());
    lemma_keep_all(r, not_blank());
}

proof fn lemma_cleaned_applet_idempotent(a: AppletConfigView)
    ensures
        cleaned_applet(cleaned_applet(a)) == cleaned_applet(a),
{
    lemma_trim_idempotent(a.label);
    match a.icon_name {
        Some(x) => lemma_trim_idempotent(x),
        None => {},
    }
}

/// Normalizing normalized applets changes nothing.
pub proof fn lemma_normalized_applets_idempotent(s: Seq<AppletConfigView>)
    ensures
        normalized_applets(normalized_applets(s)) == normalized_applets(s),
{
    let c = s.map_values(cleaned_applet_fn());
    let k = keep(c, has_folder_path());
    let d = dedupe_by(k, applet_key_fn());
    let r = normalized_applets(s);
    lemma_keep_len(c, has_folder_path());
    lemma_dedupe_by(k, applet_key_fn());
    lemma_keep_len(d, has_applet_key());
    assert forall|i: int| 0 <= i < r.len() implies cleaned_applet(#[trigger] r[i]) == r[i]
        && has_folder_path()(r[i]) by {
        assert(d.contains(r[i]));
        let a = choose|a: int| 0 <= a < d.len() && d[a] == r[i];
        assert(k.contains(d[a]));
        let b = choose|b: int| 0 <= b < k.len() && k[b] == d[a];
        assert(has_folder_path()(k[b]));
        assert(c.contains(k[b]));
        let j = choose|j: int| 0 <= j < c.len() && c[j] == k[b];
        lemma_cleaned_applet_idempotent(s[j]);
    }
    assert(r.map_values(cleaned_applet_fn()) =~= r);
    lemma_keep_all(r, has_folder_path());
    lemma_keep_keys_distinct(d, has_applet_key(), applet_key_fn());
    lemma_dedupe_by_distinct(r, applet_key_fn());
    lemma_keep_all(r, has_applet_key());
}

/// Icon overrides that are already normalized entries normalize to the map
/// they form.
pub proof fn lemma_normalized_icons_stable(s: Seq<(Seq<char>, Seq<char>)>)
    requires
        forall|i: int| 0 <= i < s.len() ==> icon_entry(#[trigger] s[i]) == Some(s[i]),
    ensures
        normalized_icons(s) == entries_map(s),
    decreases s.len(),
{
    if s.len() > 0 {
        let t = s.drop_last();
        assert forall|i: int| 0 <= i < t.len() implies icon_entry(#[trigger] t[i]) == Some(t[i]) by {
            assert(t[i] == s[i]);
        }
        lemma_normalized_icons_stable(t);
        assert(icon_entry(s[s.len() - 1]) == Some(s.last()));
    }
}

/// Clamping a clamped value, or normalizing a normalized preset, changes
/// nothing.
pub proof fn lemma_clamp_and_preset_idempotent(v: u32, lo: u32, hi: u32, preset: Seq<char>)
    requires
        lo <= hi,
    ensures
        clamped(clamped(v, lo, hi), lo, hi) == clamped(v, lo, hi),
        normalized_preset(normalized_preset(preset)) == normalized_preset(preset),
{
    reveal_strlit("leopard");
    lemma_trim_idempotent(preset);
    if trim(preset).len() == 0 {
        lemma_trim_fixed("leopard"@);
    }
}

/// The configuration file inside the configuration directory.
pub fn config_path(config_dir: &str) -> (r: String)
    ensures
        r@ == path_join(config_dir@, "config.toml"@),
{
    string_of(&join_path(&chars_of(config_dir), &chars_of("config.toml")))
}

} // verus!
