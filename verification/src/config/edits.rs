//! Changes the user makes to the configuration from the dock's menus.
use super::{
    applet_key, copy_applet, entries_map, folder_applet_label, pairs_view, AppletConfig,
    AppletConfigView, AppletKind, Config,
};
use crate::model::assemble::{applets_view, strings_view};
use crate::seqs::{keep, lemma_keep_len, lemma_keep_push};
use crate::text::{eq_ic, lower_seq, lower_string, opt_view, str_eq, str_eq_ic};
use vstd::prelude::*;

verus! {

/// The string differs from `key`, ignoring ASCII case.
pub open spec fn differs_ic(key: Seq<char>) -> spec_fn(Seq<char>) -> bool {
    |s: Seq<char>| !eq_ic(s, key)
}

/// Some string of `s` equals `key`, ignoring ASCII case.
pub open spec fn listed_ic(s: Seq<Seq<char>>, key: Seq<char>) -> bool {
    exists|i: int| 0 <= i < s.len() && eq_ic(#[trigger] s[i], key)
}

/// The entry's key differs from `key`, ignoring ASCII case.
pub open spec fn entry_differs_ic(key: Seq<char>) -> spec_fn((Seq<char>, Seq<char>)) -> bool {
    |e: (Seq<char>, Seq<char>)| !eq_ic(e.0, key)
}

/// The entry's key differs from `key`.
pub open spec fn entry_differs(key: Seq<char>) -> spec_fn((Seq<char>, Seq<char>)) -> bool {
    |e: (Seq<char>, Seq<char>)| e.0 != key
}

/// The applet's folder is not `path`, ignoring ASCII case.
pub open spec fn applet_elsewhere(path: Seq<char>) -> spec_fn(AppletConfigView) -> bool {
    |a: AppletConfigView|
        !(match a.path {
            Some(p) => lower_seq(p) == lower_seq(path),
            None => false,
        })
}

pub fn listed_ignoring_case(v: &Vec<String>, key: &str) -> (r: bool)
    ensures
        r == listed_ic(strings_view(v@), key@),
{
    let mut i: usize = 0;
    while i < v.len()
        invariant
            i <= v@.len(),
            forall|k: int| 0 <= k < i ==> !eq_ic(#[trigger] v@[k]@, key@),
        decreases v.len() - i,
    {
        if str_eq_ic(v[i].as_str(), key) {
            assert(strings_view(v@)[i as int] == v@[i as int]@);
            return true;
        }
        i = i + 1;
    }
    assert forall|k: int| 0 <= k < strings_view(v@).len() implies !eq_ic(
        #[trigger] strings_view(v@)[k],
        key@,
    ) by {
        assert(strings_view(v@)[k] == v@[k]@);
    }
    false
}

fn without_ignoring_case(v: &Vec<String>, key: &str) -> (r: Vec<String>)
    ensures
        strings_view(r@) == keep(strings_view(v@), differs_ic(key@)),
{
    let ghost sv = strings_view(v@);
    let mut out: Vec<String> = Vec::new();
    let mut i: usize = 0;
    assert(sv.take(0) =~= Seq::<Seq<char>>::empty());
    assert(strings_view(out@) =~= Seq::<Seq<char>>::empty());
    while i < v.len()
        invariant
            i <= v@.len(),
            sv == strings_view(v@),
            strings_view(out@) == keep(sv.take(i as int), differs_ic(key@)),
        decreases v.len() - i,
    {
        assert(sv.take(i + 1) =~= sv.take(i as int).push(sv[i as int]));
        assert(sv[i as int] == v@[i as int]@);
        proof {
            lemma_keep_push(sv.take(i as int), sv[i as int], differs_ic(key@));
        }
        if !str_eq_ic(v[i].as_str(), key) {
            let ghost before = strings_view(out@);
            out.push(v[i].clone());
            assert(strings_view(out@) =~= before.push(sv[i as int]));
        }
        i = i + 1;
    }
    assert(sv.take(v.len() as int) =~= sv);
    out
}

fn entries_without(v: &Vec<(String, String)>, key: &str, ignore_case: bool) -> (r: Vec<
    (String, String),
>)
    ensures
        pairs_view(r@) == keep(
            pairs_view(v@),
            if ignore_case {
                entry_differs_ic(key@)
            } else {
                entry_differs(key@)
            },
        ),
{
    let ghost pv = pairs_view(v@);
    let ghost p = if ignore_case {
        entry_differs_ic(key@)
    } else {
        entry_differs(key@)
    };
    let mut out: Vec<(String, String)> = Vec::new();
    let mut i: usize = 0;
    assert(pv.take(0) =~= Seq::<(Seq<char>, Seq<char>)>::empty());
    assert(pairs_view(out@) =~= Seq::<(Seq<char>, Seq<char>)>::empty());
    while i < v.len()
        invariant
            i <= v@.len(),
            pv == pairs_view(v@),
            p == (if ignore_case {
                entry_differs_ic(key@)
            } else {
                entry_differs(key@)
            }),
            pairs_view(out@) == keep(pv.take(i as int), p),
        decreases v.len() - i,
    {
        assert(pv.take(i + 1) =~= pv.take(i as int).push(pv[i as int]));
        assert(pv[i as int] == (v@[i as int].0@, v@[i as int].1@));
        proof {
            lemma_keep_push(pv.take(i as int), pv[i as int], p);
        }
        let same = if ignore_case {
            str_eq_ic(v[i].0.as_str(), key)
        } else {
            str_eq(v[i].0.as_str(), key)
        };
        if !same {
            let ghost before = pairs_view(out@);
            out.push((v[i].0.clone(), v[i].1.clone()));
            assert(pairs_view(out@) =~= before.push(pv[i as int]));
        }
        i = i + 1;
    }
    assert(pv.take(v.len() as int) =~= pv);
    out
}

/// Dropping the entries whose key fails `q` keeps the rest of the map.
pub proof fn lemma_entries_map_keep(
    s: Seq<(Seq<char>, Seq<char>)>,
    q: spec_fn(Seq<char>) -> bool,
    p: spec_fn((Seq<char>, Seq<char>)) -> bool,
)
    requires
        forall|e: (Seq<char>, Seq<char>)| #[trigger] p(e) == q(e.0),
    ensures
        entries_map(keep(s, p)) == entries_map(s).restrict(Set::new(q)),
    decreases s.len(),
{
    if s.len() == 0 {
        assert(keep(s, p) == Seq::<(Seq<char>, Seq<char>)>::empty());
        assert(entries_map(s).restrict(Set::new(q)) =~= Map::empty());
    } else {
        let t = s.drop_last();
        let x = s.last();
        lemma_entries_map_keep(t, q, p);
        assert(t.push(x) =~= s);
        lemma_keep_push(t, x, p);
        if p(x) {
            assert(keep(s, p).drop_last() =~= keep(t, p));
            assert(entries_map(t).restrict(Set::new(q)).insert(x.0, x.1) =~= entries_map(
                t,
            ).insert(x.0, x.1).restrict(Set::new(q)));
        } else {
            assert(entries_map(t).restrict(Set::new(q)) =~= entries_map(t).insert(
                x.0,
                x.1,
            ).restrict(Set::new(q)));
        }
    }
}

impl Config {
    /// Unpins the item when `pinned`; otherwise pins it (unless a pinned id
    /// already names it, ignoring ASCII case) and stops hiding it.
    pub fn toggle_keep_in_dock(&mut self, item_key: &str, pinned: bool)
        ensures
            final(self).dock == old(self).dock,
            final(self).theme == old(self).theme,
            final(self).applets == old(self).applets,
            final(self).item_order == old(self).item_order,
            final(self).custom_icons == old(self).custom_icons,
            pinned ==> strings_view(final(self).pinned@) == keep(
                strings_view(old(self).pinned@),
                differs_ic(item_key@),
            ) && final(self).hidden == old(self).hidden,
            !pinned && listed_ic(strings_view(old(self).pinned@), item_key@) ==> final(self).pinned
                == old(self).pinned && final(self).hidden == old(self).hidden,
            !pinned && !listed_ic(strings_view(old(self).pinned@), item_key@) ==> strings_view(
                final(self).pinned@,
            ) == strings_view(old(self).pinned@).push(item_key@) && strings_view(
                final(self).hidden@,
            ) == keep(strings_view(old(self).hidden@), differs_ic(item_key@)),
    {
        if pinned {
            self.pinned = without_ignoring_case(&self.pinned, item_key);
        } else if !listed_ignoring_case(&self.pinned, item_key) {
            let ghost before = strings_view(self.pinned@);
            self.pinned.push(String::from_str(item_key));
            assert(strings_view(self.pinned@) =~= before.push(item_key@));
            self.hidden = without_ignoring_case(&self.hidden, item_key);
        }
    }

    /// Hides the item: unpins it, lists it among the hidden ids (once,
    /// ignoring ASCII case) and drops it from the saved order.
    pub fn hide_application_from_dock(&mut self, item_key: &str)
        ensures
            final(self).dock == old(self).dock,
            final(self).theme == old(self).theme,
            final(self).applets == old(self).applets,
            final(self).custom_icons == old(self).custom_icons,
            strings_view(final(self).pinned@) == keep(
                strings_view(old(self).pinned@),
                differs_ic(item_key@),
            ),
            strings_view(final(self).hidden@) == (if listed_ic(
                strings_view(old(self).hidden@),
                item_key@,
            ) {
                strings_view(old(self).hidden@)
            } else {
                strings_view(old(self).hidden@).push(item_key@)
            }),
            strings_view(final(self).item_order@) == keep(
                strings_view(old(self).item_order@),
                differs_ic(item_key@),
            ),
    {
        self.pinned = without_ignoring_case(&self.pinned, item_key);
        if !listed_ignoring_case(&self.hidden, item_key) {
            let ghost before = strings_view(self.hidden@);
            self.hidden.push(String::from_str(item_key));
            assert(strings_view(self.hidden@) =~= before.push(item_key@));
        }
        self.item_order = without_ignoring_case(&self.item_order, item_key);
    }

    /// Pins a desktop entry unless a pinned id already names it, ignoring
    /// ASCII case.
    pub fn pin_application(&mut self, desktop_id: &str)
        ensures
            final(self).dock == old(self).dock,
            final(self).theme == old(self).theme,
            final(self).hidden == old(self).hidden,
            final(self).applets == old(self).applets,
            final(self).item_order == old(self).item_order,
            final(self).custom_icons == old(self).custom_icons,
            strings_view(final(self).pinned@) == (if listed_ic(
                strings_view(old(self).pinned@),
                desktop_id@,
            ) {
                strings_view(old(self).pinned@)
            } else {
                strings_view(old(self).pinned@).push(desktop_id@)
            }),
    {
        if !listed_ignoring_case(&self.pinned, desktop_id) {
            let ghost before = strings_view(self.pinned@);
            self.pinned.push(String::from_str(desktop_id));
            assert(strings_view(self.pinned@) =~= before.push(desktop_id@));
        }
    }

    /// Adds a folder applet for `path` unless one for the same folder
    /// (ignoring ASCII case) is configured.
    pub fn add_folder_applet(&mut self, path: String)
        ensures
            final(self).dock == old(self).dock,
            final(self).theme == old(self).theme,
            final(self).pinned == old(self).pinned,
            final(self).hidden == old(self).hidden,
            final(self).item_order == old(self).item_order,
            final(self).custom_icons == old(self).custom_icons,
            (exists|i: int|
                0 <= i < old(self).applets@.len() && !applet_elsewhere(path@)(
                    #[trigger] old(self).applets@[i]@,
                )) ==> final(self).applets == old(self).applets,
            !(exists|i: int|
                0 <= i < old(self).applets@.len() && !applet_elsewhere(path@)(
                    #[trigger] old(self).applets@[i]@,
                )) ==> applets_view(final(self).applets@) == applets_view(
                old(self).applets@,
            ).push(
                AppletConfigView {
                    kind: AppletKind::Folder,
                    label: folder_applet_label(path@),
                    path: Some(path@),
                    icon_name: Some("folder"@),
                },
            ),
    {
        let key = lower_string(path.as_str());
        let mut i: usize = 0;
        while i < self.applets.len()
            invariant
                i <= self.applets@.len(),
                key@ == lower_seq(path@),
                forall|k: int|
                    0 <= k < i ==> applet_elsewhere(path@)(#[trigger] self.applets@[k]@),
            decreases self.applets.len() - i,
        {
            let same = match &self.applets[i].path {
                Some(p) => str_eq(lower_string(p.as_str()).as_str(), key.as_str()),
                None => false,
            };
            if same {
                assert(!applet_elsewhere(path@)(self.applets@[i as int]@));
                return;
            }
            i = i + 1;
        }
        let ghost before = applets_view(self.applets@);
        let applet = AppletConfig::folder(path);
        self.applets.push(applet);
        assert(applets_view(self.applets@) =~= before.push(applet@));
    }

    /// Removes the folder applet for `path` (ignoring ASCII case) with its
    /// saved position and icon override, named by `item_key`.
    pub fn remove_folder_applet(&mut self, item_key: &str, path: &str)
        ensures
            final(self).dock == old(self).dock,
            final(self).theme == old(self).theme,
            final(self).pinned == old(self).pinned,
            final(self).hidden == old(self).hidden,
            applets_view(final(self).applets@) == keep(
                applets_view(old(self).applets@),
                applet_elsewhere(path@),
            ),
            strings_view(final(self).item_order@) == keep(
                strings_view(old(self).item_order@),
                differs_ic(item_key@),
            ),
            pairs_view(final(self).custom_icons@) == keep(
                pairs_view(old(self).custom_icons@),
                entry_differs_ic(item_key@),
            ),
    {
        let ghost av = applets_view(self.applets@);
        let target = lower_string(path);
        let mut out: Vec<AppletConfig> = Vec::new();
        let mut i: usize = 0;
        assert(av.take(0) =~= Seq::<AppletConfigView>::empty());
        assert(applets_view(out@) =~= Seq::<AppletConfigView>::empty());
        while i < self.applets.len()
            invariant
                i <= self.applets@.len(),
                av == applets_view(self.applets@),
                target@ == lower_seq(path@),
                applets_view(out@) == keep(av.take(i as int), applet_elsewhere(path@)),
            decreases self.applets.len() - i,
        {
            assert(av.take(i + 1) =~= av.take(i as int).push(av[i as int]));
            assert(av[i as int] == self.applets@[i as int]@);
            proof {
                lemma_keep_push(av.take(i as int), av[i as int], applet_elsewhere(path@));
            }
            let same = match &self.applets[i].path {
                Some(p) => str_eq(lower_string(p.as_str()).as_str(), target.as_str()),
                None => false,
            };
            if !same {
                let ghost before = applets_view(out@);
                out.push(copy_applet(&self.applets[i]));
                assert(applets_view(out@) =~= before.push(av[i as int]));
            }
            i = i + 1;
        }
        assert(av.take(self.applets.len() as int) =~= av);
        self.applets = out;
        self.item_order = without_ignoring_case(&self.item_order, item_key);
        self.custom_icons = entries_without(&self.custom_icons, item_key, true);
    }

    /// Drops the icon overrides of the item (keys equal ignoring ASCII case).
    pub fn reset_custom_icon(&mut self, item_key: &str)
        ensures
            final(self).dock == old(self).dock,
            final(self).theme == old(self).theme,
            final(self).pinned == old(self).pinned,
            final(self).hidden == old(self).hidden,
            final(self).applets == old(self).applets,
            final(self).item_order == old(self).item_order,
            pairs_view(final(self).custom_icons@) == keep(
                pairs_view(old(self).custom_icons@),
                entry_differs_ic(item_key@),
            ),
    {
        self.custom_icons = entries_without(&self.custom_icons, item_key, true);
    }

    /// Sets the icon override of an item: the map gains `item_key` with
    /// `value`, replacing an override with exactly that key.
    pub fn set_custom_icon_value(&mut self, item_key: &str, value: String)
        ensures
            final(self).dock == old(self).dock,
            final(self).theme == old(self).theme,
            final(self).pinned == old(self).pinned,
            final(self).hidden == old(self).hidden,
            final(self).applets == old(self).applets,
            final(self).item_order == old(self).item_order,
            entries_map(pairs_view(final(self).custom_icons@)) == entries_map(
                pairs_view(old(self).custom_icons@),
            ).insert(item_key@, value@),
    {
        let ghost pv = pairs_view(self.custom_icons@);
        let mut rest = entries_without(&self.custom_icons, item_key, false);
        let ghost kept = pairs_view(rest@);
        proof {
            lemma_entries_map_keep(pv, |k: Seq<char>| k != item_key@, entry_differs(item_key@));
            assert(entries_map(kept).insert(item_key@, value@) =~= entries_map(pv).insert(
                item_key@,
                value@,
            ));
        }
        rest.push((String::from_str(item_key), value));
        assert(pairs_view(rest@).drop_last() =~= kept);
        self.custom_icons = rest;
    }
}

/// The ids after pinning `id`: unchanged when an id names it already
/// (ignoring ASCII case), else `id` appended.
pub open spec fn pinned_after(s: Seq<Seq<char>>, id: Seq<char>) -> Seq<Seq<char>> {
    if listed_ic(s, id) {
        s
    } else {
        s.push(id)
    }
}

/// Pinning names the item afterwards, and pinning it again changes nothing.
pub proof fn lemma_pin_idempotent(s: Seq<Seq<char>>, id: Seq<char>)
    ensures
        listed_ic(pinned_after(s, id), id),
        pinned_after(pinned_after(s, id), id) == pinned_after(s, id),
{
    if !listed_ic(s, id) {
        let t = s.push(id);
        assert(eq_ic(t[s.len() as int], id));
    }
}

/// Removing an item's key (ignoring ASCII case) leaves no entry that names
/// it; unpinning, hiding and removing applets rely on this.
pub proof fn lemma_removed_key_gone(s: Seq<Seq<char>>, key: Seq<char>)
    ensures
        !listed_ic(keep(s, differs_ic(key)), key),
{
    lemma_keep_len(s, differs_ic(key));
}

/// After hiding an item the hidden ids name it, and neither the pinned ids
/// nor the saved order do.
pub proof fn lemma_hide_hides(
    pinned: Seq<Seq<char>>,
    hidden: Seq<Seq<char>>,
    order: Seq<Seq<char>>,
    key: Seq<char>,
)
    ensures
        listed_ic(if listed_ic(hidden, key) { hidden } else { hidden.push(key) }, key),
        !listed_ic(keep(pinned, differs_ic(key)), key),
        !listed_ic(keep(order, differs_ic(key)), key),
{
    lemma_pin_idempotent(hidden, key);
    lemma_removed_key_gone(pinned, key);
    lemma_removed_key_gone(order, key);
}

} // verus!
