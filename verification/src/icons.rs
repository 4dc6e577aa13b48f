//! Icon names to try for a dock item, and pixel helpers.
use crate::model::assemble::strings_view;
use crate::model::types::{config_key_of, kind_of, DockItemKind, DockItemView};
use crate::model::DockItem;
use crate::config::{custom_icon_lookup, entries_map, pairs_view};
use crate::path::{
    join_str, opt_str_seq, opt_strings_view, system_data_dirs, extension, file_stem, is_absolute, is_absolute_vec, join_path, path_join, stem_and_extension,
};
use crate::text::{
    chars_of, concat_vec, ends_with, ends_with_vec, lower_seq, lower_vec, opt_view, starts_with,
    starts_with_vec, string_of, strip_prefix, strip_suffix, subvec, trim, trim_end_matches,
    trim_end_matches_vec, trim_vec, vec_eq,
};
use vstd::prelude::*;

verus! {

/// Alpha premultiplication of one 8-bit channel, rounded to nearest.
pub open spec fn premultiplied(channel: u8, alpha: u8) -> u8 {
    ((channel * alpha + 127) / 255) as u8
}

/// Alpha premultiplication of one 8-bit channel, rounded to nearest.
pub fn premultiply(channel: u8, alpha: u8) -> (r: u8)
    ensures
        r == premultiplied(channel, alpha),
{
    let c = channel as u16;
    let a = alpha as u16;
    assert(c * a <= 255 * 255) by (nonlinear_arith)
        requires
            c <= 255,
            a <= 255,
    ;
    ((c * a + 127) / 255) as u8
}

/// An image extension that the icon theme names without.
pub open spec fn image_extension(e: Seq<char>) -> bool {
    e == "png"@ || e == "svg"@ || e == "xpm"@
}

/// The name to look up in the icon theme: the trimmed name, without a
/// `png`, `svg` or `xpm` extension (any case); none for a blank or absolute
/// name.
pub open spec fn themed_icon_name_spec(name: Seq<char>) -> Option<Seq<char>> {
    let clean = trim(name);
    if clean.len() == 0 || is_absolute(clean) {
        None
    } else {
        match (extension(clean), file_stem(clean)) {
            (Some(e), Some(stem)) if image_extension(lower_seq(e)) => Some(stem),
            _ => Some(clean),
        }
    }
}

fn is_image_extension(e: &Vec<char>) -> (r: bool)
    ensures
        r == image_extension(e@),
{
    vec_eq(e, &chars_of("png")) || vec_eq(e, &chars_of("svg")) || vec_eq(e, &chars_of("xpm"))
}

/// The icon-theme name for an icon name or file name.
pub fn themed_icon_name(name: &str) -> (r: Option<String>)
    ensures
        opt_view(r) == themed_icon_name_spec(name@),
{
    let clean = trim_vec(&chars_of(name));
    if clean.len() == 0 || is_absolute_vec(&clean) {
        return None;
    }
    let (stem, ext) = stem_and_extension(&clean);
    match (ext, stem) {
        (Some(e), Some(s)) => {
            if is_image_extension(&lower_vec(&e)) {
                return Some(string_of(&s));
            }
        },
        _ => {},
    }
    Some(string_of(&clean))
}

pub open spec fn pixmap_extensions() -> Seq<Seq<char>> {
    seq!["svg"@, "png"@, "xpm"@]
}

/// Candidate files for an icon under each data directory's `pixmaps`
/// folder, with each image extension in turn.
pub open spec fn pixmap_candidates_spec(name: Seq<char>, dirs: Seq<Seq<char>>) -> Seq<Seq<char>>
    decreases dirs.len(),
{
    match themed_icon_name_spec(name) {
        None => Seq::empty(),
        Some(clean) => if dirs.len() == 0 {
            Seq::empty()
        } else {
            let base = path_join(dirs.last(), "pixmaps"@);
            pixmap_candidates_spec(name, dirs.drop_last()) + pixmap_extensions().map_values(
                |e: Seq<char>| path_join(base, clean + seq!['.'] + e),
            )
        },
    }
}

/// Candidate pixmap files for an icon name under the given data directories.
pub fn pixmap_candidates(name: &str, data_dirs: &[String]) -> (r: Vec<String>)
    ensures
        strings_view(r@) == pixmap_candidates_spec(name@, strings_view(data_dirs@)),
{
    let clean = match themed_icon_name(name) {
        None => {
            let r: Vec<String> = Vec::new();
            assert(strings_view(r@) =~= Seq::<Seq<char>>::empty());
            return r;
        },
        Some(c) => chars_of(c.as_str()),
    };
    let ghost dv = strings_view(data_dirs@);
    let exts: Vec<Vec<char>> = vec![chars_of("svg"), chars_of("png"), chars_of("xpm")];
    let mut out: Vec<String> = Vec::new();
    let mut i: usize = 0;
    assert(dv.take(0) =~= Seq::<Seq<char>>::empty());
    assert(strings_view(out@) =~= Seq::<Seq<char>>::empty());
    while i < data_dirs.len()
        invariant
            i <= data_dirs@.len(),
            dv == strings_view(data_dirs@),
            themed_icon_name_spec(name@) == Some(clean@),
            exts@.len() == 3,
            exts@[0]@ == "svg"@,
            exts@[1]@ == "png"@,
            exts@[2]@ == "xpm"@,
            strings_view(out@) == pixmap_candidates_spec(name@, dv.take(i as int)),
        decreases data_dirs.len() - i,
    {
        let base = join_path(&chars_of(data_dirs[i].as_str()), &chars_of("pixmaps"));
        let ghost before = strings_view(out@);
        let mut e: usize = 0;
        while e < 3
            invariant
                e <= 3,
                exts@.len() == 3,
                strings_view(out@) == before + pixmap_extensions().take(e as int).map_values(
                    |x: Seq<char>| path_join(base@, clean@ + seq!['.'] + x),
                ),
                exts@[0]@ == "svg"@,
                exts@[1]@ == "png"@,
                exts@[2]@ == "xpm"@,
            decreases 3 - e,
        {
            let mut file = subvec(&clean, 0, clean.len());
            file.push('.');
            let file = concat_vec(&file, &exts[e]);
            let p = join_path(&base, &file);
            let ghost before_inner = strings_view(out@);
            out.push(string_of(&p));
            proof {
                assert(file@ =~= clean@ + seq!['.'] + exts@[e as int]@);
                assert(strings_view(out@) =~= before_inner.push(p@));
                assert(clean@.subrange(0, clean@.len() as int) == clean@);
                assert(pixmap_extensions()[e as int] == exts@[e as int]@);
                assert(pixmap_extensions().take(e + 1) =~= pixmap_extensions().take(e as int).push(
                    exts@[e as int]@,
                ));
                assert(strings_view(out@) =~= before + pixmap_extensions().take(e + 1).map_values(
                    |x: Seq<char>| path_join(base@, clean@ + seq!['.'] + x),
                ));
            }
            e = e + 1;
        }
        proof {
            assert(pixmap_extensions().take(3) =~= pixmap_extensions());
            assert(dv.take(i + 1).drop_last() =~= dv.take(i as int));
            assert(dv.take(i + 1).last() == data_dirs@[i as int]@);
        }
        i = i + 1;
    }
    assert(dv.take(data_dirs@.len() as int) =~= dv);
    out
}

/// Appends `v` unless it is already present.
pub open spec fn add_unique(keys: Seq<Seq<char>>, v: Seq<char>) -> Seq<Seq<char>> {
    if keys.contains(v) {
        keys
    } else {
        keys.push(v)
    }
}

/// Adds `v` unless already present.
pub fn push_unique(keys: &mut Vec<String>, value: String)
    ensures
        strings_view(final(keys)@) == add_unique(strings_view(old(keys)@), value@),
{
    let ghost kv = strings_view(keys@);
    let mut i: usize = 0;
    while i < keys.len()
        invariant
            i <= keys.len(),
            kv == strings_view(keys@),
            forall|k: int| 0 <= k < i ==> kv[k] != value@,
        decreases keys.len() - i,
    {
        if keys[i] == value {
            assert(kv[i as int] == value@);
            assert(kv.contains(value@));
            return;
        }
        i = i + 1;
    }
    keys.push(value);
    assert(strings_view(keys@) =~= kv.push(value@));
}

/// The keys added for one icon name: the trimmed name; unless absolute, its
/// stem without `.desktop` (and that stem lowercased), its part after an
/// `application-` prefix, and the name lowercased; each only once.
pub open spec fn icon_key_additions(keys: Seq<Seq<char>>, v: Seq<char>) -> Seq<Seq<char>> {
    let k1 = add_unique(keys, v);
    if is_absolute(v) {
        k1
    } else {
        let k2 = match strip_suffix(v, ".desktop"@) {
            Some(stem) => {
                let a = add_unique(k1, stem);
                if lower_seq(stem) != stem {
                    add_unique(a, lower_seq(stem))
                } else {
                    a
                }
            },
            None => k1,
        };
        let k3 = match strip_prefix(trim_end_matches(v, ".desktop"@), "application-"@) {
            Some(stem) => add_unique(k2, stem),
            None => k2,
        };
        if lower_seq(v) != v {
            add_unique(k3, lower_seq(v))
        } else {
            k3
        }
    }
}

/// Keys after adding an optional icon name; blank names add nothing.
pub open spec fn icon_keys_with(keys: Seq<Seq<char>>, value: Option<Seq<char>>) -> Seq<Seq<char>> {
    match value {
        None => keys,
        Some(raw) => {
            let v = trim(raw);
            if v.len() == 0 {
                keys
            } else {
                icon_key_additions(keys, v)
            }
        },
    }
}

/// Adds the lookup keys for one optional icon name.
pub fn push_icon_key(keys: &mut Vec<String>, value: Option<&str>)
    ensures
        strings_view(final(keys)@) == icon_keys_with(
            strings_view(old(keys)@),
            match value {
                Some(s) => Some(s@),
                None => None,
            },
        ),
{
    let v = match value {
        None => return,
        Some(s) => trim_vec(&chars_of(s)),
    };
    if v.len() == 0 {
        return;
    }
    push_unique(keys, string_of(&v));
    if is_absolute_vec(&v) {
        return;
    }
    let suffix = chars_of(".desktop");
    if ends_with_vec(&v, &suffix) {
        let stem = subvec(&v, 0, v.len() - suffix.len());
        push_unique(keys, string_of(&stem));
        let lower = lower_vec(&stem);
        if !vec_eq(&lower, &stem) {
            push_unique(keys, string_of(&lower));
        }
    }
    let trimmed = trim_end_matches_vec(&v, &suffix);
    let prefix = chars_of("application-");
    if starts_with_vec(&trimmed, &prefix) {
        push_unique(keys, string_of(&subvec(&trimmed, prefix.len(), trimmed.len())));
    }
    let lower = lower_vec(&v);
    if !vec_eq(&lower, &v) {
        push_unique(keys, string_of(&lower));
    }
}

pub open spec fn downloads_icon_names() -> Seq<Seq<char>> {
    seq!["folder-download"@, "folder-downloads"@, "folder"@, "inode-directory"@]
}

pub open spec fn trash_icon_names() -> Seq<Seq<char>> {
    seq!["user-trash-full"@, "user-trash"@, "trashcan_full"@, "trashcan_empty"@]
}

/// Keys after adding each of some names.
pub open spec fn icon_keys_all(keys: Seq<Seq<char>>, names: Seq<Seq<char>>) -> Seq<Seq<char>>
    decreases names.len(),
{
    if names.len() == 0 {
        keys
    } else {
        icon_keys_with(icon_keys_all(keys, names.drop_last()), Some(names.last()))
    }
}

/// The icon lookup keys for an item: applet theme names first, then the
/// item's icon name, window class, desktop id, saved-order key and id.
pub open spec fn icon_lookup_keys_spec(item: DockItemView) -> Seq<Seq<char>> {
    let base = match kind_of(item.id) {
        DockItemKind::DownloadsApplet => icon_keys_all(Seq::empty(), downloads_icon_names()),
        DockItemKind::TrashApplet => icon_keys_all(Seq::empty(), trash_icon_names()),
        _ => Seq::empty(),
    };
    let k1 = icon_keys_with(base, item.icon_name);
    let k2 = icon_keys_with(k1, item.startup_wm_class);
    let k3 = icon_keys_with(k2, item.desktop_id);
    let k4 = icon_keys_with(k3, Some(config_key_of(item)));
    icon_keys_with(k4, Some(item.id))
}

fn opt_str(o: &Option<String>) -> (r: Option<&str>)
    ensures
        match r {
            Some(s) => opt_view(*o) == Some(s@),
            None => o is None,
        },
{
    match o {
        Some(s) => Some(s.as_str()),
        None => None,
    }
}

/// The names to try, in order, when looking up an item's icon.
pub fn icon_lookup_keys(item: &DockItem) -> (r: Vec<String>)
    ensures
        strings_view(r@) == icon_lookup_keys_spec(item@),
{
    let mut keys: Vec<String> = Vec::new();
    assert(strings_view(keys@) =~= Seq::<Seq<char>>::empty());
    let ghost empty = Seq::<Seq<char>>::empty();
    if item.is_downloads_applet() {
        push_icon_key(&mut keys, Some("folder-download"));
        push_icon_key(&mut keys, Some("folder-downloads"));
        push_icon_key(&mut keys, Some("folder"));
        push_icon_key(&mut keys, Some("inode-directory"));
        proof {
            let n = downloads_icon_names();
            assert(n.drop_last().drop_last().drop_last().drop_last() =~= empty);
            assert(n.drop_last().drop_last().drop_last() =~= seq!["folder-download"@]);
            assert(n.drop_last().drop_last() =~= seq!["folder-download"@, "folder-downloads"@]);
            assert(n.drop_last() =~= seq!["folder-download"@, "folder-downloads"@, "folder"@]);
            reveal_with_fuel(icon_keys_all, 5);
        }
    } else if item.is_trash_applet() {
        push_icon_key(&mut keys, Some("user-trash-full"));
        push_icon_key(&mut keys, Some("user-trash"));
        push_icon_key(&mut keys, Some("trashcan_full"));
        push_icon_key(&mut keys, Some("trashcan_empty"));
        proof {
            let n = trash_icon_names();
            assert(n.drop_last().drop_last().drop_last().drop_last() =~= empty);
            assert(n.drop_last().drop_last().drop_last() =~= seq!["user-trash-full"@]);
            assert(n.drop_last().drop_last() =~= seq!["user-trash-full"@, "user-trash"@]);
            assert(n.drop_last() =~= seq!["user-trash-full"@, "user-trash"@, "trashcan_full"@]);
            reveal_with_fuel(icon_keys_all, 5);
        }
    }
    push_icon_key(&mut keys, opt_str(&item.icon_name));
    push_icon_key(&mut keys, opt_str(&item.startup_wm_class));
    push_icon_key(&mut keys, opt_str(&item.desktop_id));
    let key = item.config_key();
    push_icon_key(&mut keys, Some(key.as_str()));
    push_icon_key(&mut keys, Some(item.id.as_str()));
    keys
}

/// No key occurs twice.
pub open spec fn no_repeats(keys: Seq<Seq<char>>) -> bool {
    forall|i: int, j: int| 0 <= i < j < keys.len() ==> keys[i] != keys[j]
}

proof fn lemma_add_unique_no_repeats(keys: Seq<Seq<char>>, v: Seq<char>)
    requires
        no_repeats(keys),
    ensures
        no_repeats(add_unique(keys, v)),
        forall|x: Seq<char>| keys.contains(x) ==> add_unique(keys, v).contains(x),
{
    if !keys.contains(v) {
        let k = keys.push(v);
        assert forall|i: int, j: int| 0 <= i < j < k.len() implies k[i] != k[j] by {
            if j == keys.len() {
                assert(k[i] == keys[i]);
            } else {
                assert(k[i] == keys[i] && k[j] == keys[j]);
            }
        }
        assert forall|x: Seq<char>| keys.contains(x) implies k.contains(x) by {
            let i = choose|i: int| 0 <= i < keys.len() && keys[i] == x;
            assert(k[i] == x);
        }
    }
}

proof fn lemma_icon_keys_with_no_repeats(keys: Seq<Seq<char>>, value: Option<Seq<char>>)
    requires
        no_repeats(keys),
    ensures
        no_repeats(icon_keys_with(keys, value)),
{
    match value {
        None => {},
        Some(raw) => {
            let v = trim(raw);
            if v.len() > 0 {
                let k1 = add_unique(keys, v);
                lemma_add_unique_no_repeats(keys, v);
                if !is_absolute(v) {
                    let k2 = match strip_suffix(v, ".desktop"@) {
                        Some(stem) => {
                            let a = add_unique(k1, stem);
                            lemma_add_unique_no_repeats(k1, stem);
                            if lower_seq(stem) != stem {
                                lemma_add_unique_no_repeats(a, lower_seq(stem));
                                add_unique(a, lower_seq(stem))
                            } else {
                                a
                            }
                        },
                        None => k1,
                    };
                    let k3 = match strip_prefix(trim_end_matches(v, ".desktop"@), "application-"@) {
                        Some(stem) => {
                            lemma_add_unique_no_repeats(k2, stem);
                            add_unique(k2, stem)
                        },
                        None => k2,
                    };
                    if lower_seq(v) != v {
                        lemma_add_unique_no_repeats(k3, lower_seq(v));
                    }
                }
            }
        },
    }
}

proof fn lemma_icon_keys_all_no_repeats(keys: Seq<Seq<char>>, names: Seq<Seq<char>>)
    requires
        no_repeats(keys),
    ensures
        no_repeats(icon_keys_all(keys, names)),
    decreases names.len(),
{
    if names.len() > 0 {
        lemma_icon_keys_all_no_repeats(keys, names.drop_last());
        lemma_icon_keys_with_no_repeats(icon_keys_all(keys, names.drop_last()), Some(names.last()));
    }
}

/// An item's icon lookup keys name each candidate once.
pub proof fn lemma_icon_lookup_keys_distinct(item: DockItemView)
    ensures
        no_repeats(icon_lookup_keys_spec(item)),
{
    let e = Seq::<Seq<char>>::empty();
    lemma_icon_keys_all_no_repeats(e, downloads_icon_names());
    lemma_icon_keys_all_no_repeats(e, trash_icon_names());
    let base = match kind_of(item.id) {
        DockItemKind::DownloadsApplet => icon_keys_all(e, downloads_icon_names()),
        DockItemKind::TrashApplet => icon_keys_all(e, trash_icon_names()),
        _ => e,
    };
    let k1 = icon_keys_with(base, item.icon_name);
    lemma_icon_keys_with_no_repeats(base, item.icon_name);
    let k2 = icon_keys_with(k1, item.startup_wm_class);
    lemma_icon_keys_with_no_repeats(k1, item.startup_wm_class);
    let k3 = icon_keys_with(k2, item.desktop_id);
    lemma_icon_keys_with_no_repeats(k2, item.desktop_id);
    let k4 = icon_keys_with(k3, Some(config_key_of(item)));
    lemma_icon_keys_with_no_repeats(k3, Some(config_key_of(item)));
    lemma_icon_keys_with_no_repeats(k4, Some(item.id));
}

/// The data directories searched for icons: `XDG_DATA_HOME`, else
/// `HOME/.local/share`; then the system data directories.
pub open spec fn icon_data_dirs_spec(
    data_home: Option<Seq<char>>,
    home: Option<Seq<char>>,
    listed: Option<Seq<Seq<char>>>,
) -> Seq<Seq<char>> {
    let user: Seq<Seq<char>> = match data_home {
        Some(h) => seq![h],
        None => match home {
            Some(h) => seq![path_join(h, ".local/share"@)],
            None => Seq::empty(),
        },
    };
    user + system_data_dirs(listed)
}

/// The icon data directories from the values of `XDG_DATA_HOME`, `HOME` and
/// the split `XDG_DATA_DIRS`.
pub fn icon_data_dirs(data_home: Option<&str>, home: Option<&str>, data_dirs: Option<&Vec<String>>) -> (r: Vec<String>)
    ensures
        strings_view(r@) == icon_data_dirs_spec(
            opt_str_seq(data_home),
            opt_str_seq(home),
            opt_strings_view(data_dirs),
        ),
{
    let mut out: Vec<String> = Vec::new();
    match data_home {
        Some(h) => out.push(String::from_str(h)),
        None => match home {
            Some(h) => out.push(join_str(h, ".local/share")),
            None => {},
        },
    }
    let ghost user = strings_view(out@);
    let system: Vec<String> = match data_dirs {
        Some(d) => d.clone(),
        None => {
            proof {
                reveal_strlit("/usr/local/share");
                reveal_strlit("/usr/share");
            }
            vec![String::from_str("/usr/local/share"), String::from_str("/usr/share")]
        },
    };
    assert(strings_view(system@) =~= system_data_dirs(opt_strings_view(data_dirs)));
    let mut k: usize = 0;
    while k < system.len()
        invariant
            k <= system.len(),
            strings_view(out@) == user + strings_view(system@.subrange(0, k as int)),
        decreases system.len() - k,
    {
        let ghost before = out@;
        let c = system[k].clone();
        out.push(c);
        assert(system@.subrange(0, k + 1) =~= system@.subrange(0, k as int).push(system@[k as int]));
        assert(strings_view(out@) =~= strings_view(before).push(system@[k as int]@));
        assert(strings_view(out@) =~= user + strings_view(system@.subrange(0, k + 1)));
        k = k + 1;
    }
    assert(system@.subrange(0, system@.len() as int) =~= system@);
    out
}

/// The override of the first lookup key that has one.
pub open spec fn first_override(keys: Seq<Seq<char>>, overrides: Map<Seq<char>, Seq<char>>) -> Option<Seq<char>>
    decreases keys.len(),
{
    if keys.len() == 0 {
        None
    } else if overrides.contains_key(keys[0]) {
        Some(overrides[keys[0]])
    } else {
        first_override(keys.drop_first(), overrides)
    }
}

/// The icon names tried in turn for an item: the user's override of the
/// first lookup key that has one, then the lookup keys themselves.
pub open spec fn icon_keys_to_try_spec(keys: Seq<Seq<char>>, overrides: Map<Seq<char>, Seq<char>>) -> Seq<Seq<char>> {
    match first_override(keys, overrides) {
        Some(o) => seq![o] + keys,
        None => keys,
    }
}

/// The icon names tried in turn for an item with these lookup keys, given
/// the user's icon overrides as (key, path) entries.
pub fn icon_keys_to_try(lookup_keys: &Vec<String>, custom_icons: &Vec<(String, String)>) -> (r: Vec<String>)
    ensures
        strings_view(r@) == icon_keys_to_try_spec(
            strings_view(lookup_keys@),
            entries_map(pairs_view(custom_icons@)),
        ),
{
    let ghost keys = strings_view(lookup_keys@);
    let ghost m = entries_map(pairs_view(custom_icons@));
    let mut found: Option<String> = None;
    let mut i: usize = 0;
    assert(keys.subrange(0, keys.len() as int) =~= keys);
    while i < lookup_keys.len()
        invariant_except_break
            found is None,
        invariant
            i <= lookup_keys.len(),
            keys == strings_view(lookup_keys@),
            m == entries_map(pairs_view(custom_icons@)),
            first_override(keys, m) == first_override(keys.subrange(i as int, keys.len() as int), m),
        ensures
            match found {
                Some(p) => first_override(keys, m) == Some(p@),
                None => first_override(keys, m) is None,
            },
        decreases lookup_keys.len() - i,
    {
        assert(keys.subrange(i as int, keys.len() as int).drop_first() =~= keys.subrange(i + 1, keys.len() as int));
        assert(keys.subrange(i as int, keys.len() as int)[0] == lookup_keys@[i as int]@);
        match custom_icon_lookup(custom_icons, lookup_keys[i].as_str()) {
            Some(p) => {
                found = Some(p);
                break;
            },
            None => {},
        }
        i = i + 1;
    }
    let mut out: Vec<String> = Vec::new();
    match found {
        Some(p) => out.push(p),
        None => {
            assert(keys.subrange(keys.len() as int, keys.len() as int).len() == 0);
        },
    }
    let ghost head = strings_view(out@);
    let mut k: usize = 0;
    while k < lookup_keys.len()
        invariant
            k <= lookup_keys.len(),
            strings_view(out@) == head + strings_view(lookup_keys@.subrange(0, k as int)),
        decreases lookup_keys.len() - k,
    {
        let ghost before = out@;
        let c = lookup_keys[k].clone();
        out.push(c);
        assert(lookup_keys@.subrange(0, k + 1) =~= lookup_keys@.subrange(0, k as int).push(lookup_keys@[k as int]));
        assert(strings_view(out@) =~= strings_view(before).push(lookup_keys@[k as int]@));
        assert(strings_view(out@) =~= head + strings_view(lookup_keys@.subrange(0, k + 1)));
        k = k + 1;
    }
    assert(lookup_keys@.subrange(0, lookup_keys@.len() as int) =~= lookup_keys@);
    out
}

} // verus!
