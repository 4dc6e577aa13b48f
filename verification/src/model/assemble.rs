//! Building the dock model from pins, running windows and applets.
use super::matching::{claiming, find_matching_item};
use super::types::{
    app_item, applet_config_item, downloads_view, items_view, trash_view, window_item,
    windows_view, with_window, DockItem, DockItemView, DockModel, WindowInfo, WindowInfoView,
};
use crate::config::{AppletConfig, AppletConfigView};
use crate::desktop::{
    lookup, placeholder_view, window_match, DesktopApp, DesktopAppView, DesktopIndex,
};
use crate::seqs::first_where;
use crate::text::{chars_of, eq_ic, opt_view, vec_eq_ic};
use vstd::prelude::*;

verus! {

pub open spec fn strings_view(s: Seq<String>) -> Seq<Seq<char>> {
    s.map_values(|x: String| x@)
}

/// `x` is listed in `hidden`, ignoring ASCII case.
pub open spec fn hidden_has(hidden: Seq<Seq<char>>, x: Seq<char>) -> bool {
    exists|i: int| 0 <= i < hidden.len() && eq_ic(#[trigger] hidden[i], x)
}

/// `x` occurs among the first `n` entries of `s`, ignoring ASCII case.
pub open spec fn seen_before(s: Seq<Seq<char>>, n: int, x: Seq<char>) -> bool {
    exists|j: int| 0 <= j < n && eq_ic(#[trigger] s[j], x)
}

/// The entry for a pinned id: the index's entry, else a placeholder.
pub open spec fn entry_for(index: Seq<DesktopAppView>, id: Seq<char>) -> DesktopAppView {
    match lookup(index, id) {
        Some(a) => a,
        None => placeholder_view(id),
    }
}

/// One pinned item per pinned id, in order, skipping hidden ids and repeats
/// (ignoring ASCII case).
pub open spec fn pinned_items(
    pinned: Seq<Seq<char>>,
    hidden: Seq<Seq<char>>,
    index: Seq<DesktopAppView>,
) -> Seq<DockItemView>
    decreases pinned.len(),
{
    if pinned.len() == 0 {
        Seq::empty()
    } else {
        let prev = pinned_items(pinned.drop_last(), hidden, index);
        let id = pinned.last();
        if hidden_has(hidden, id) || seen_before(pinned, pinned.len() - 1, id) {
            prev
        } else {
            prev.push(app_item(entry_for(index, id), true))
        }
    }
}

/// The window is hidden by its class or by the entry that claims it.
pub open spec fn window_hidden(
    hidden: Seq<Seq<char>>,
    index: Seq<DesktopAppView>,
    w: WindowInfoView,
) -> bool {
    ||| (match w.class {
        Some(c) => hidden_has(hidden, c),
        None => false,
    })
    ||| (match window_match(index, w) {
        Some(app) => hidden_has(hidden, app.desktop_id),
        None => false,
    })
}

/// One window placed: joins the first item that claims it, else starts an
/// item for its desktop entry, else an item of its own.
pub open spec fn place_window(
    items: Seq<DockItemView>,
    hidden: Seq<Seq<char>>,
    index: Seq<DesktopAppView>,
    w: WindowInfoView,
) -> Seq<DockItemView> {
    if window_hidden(hidden, index, w) {
        items
    } else {
        let k = first_where(items, claiming(index, w));
        if k >= 0 {
            items.update(k, with_window(items[k], w))
        } else {
            match window_match(index, w) {
                Some(app) => items.push(with_window(app_item(app, false), w)),
                None => items.push(window_item(w)),
            }
        }
    }
}

pub open spec fn place_windows(
    items: Seq<DockItemView>,
    hidden: Seq<Seq<char>>,
    index: Seq<DesktopAppView>,
    ws: Seq<WindowInfoView>,
) -> Seq<DockItemView>
    decreases ws.len(),
{
    if ws.len() == 0 {
        items
    } else {
        place_window(place_windows(items, hidden, index, ws.drop_last()), hidden, index, ws.last())
    }
}

/// Active and urgent when any window is; a badge with the window count when
/// there is more than one window.
pub open spec fn with_status(item: DockItemView) -> DockItemView {
    DockItemView {
        active: exists|i: int| 0 <= i < item.windows.len() && (#[trigger] item.windows[i]).active,
        urgent: exists|i: int| 0 <= i < item.windows.len() && (#[trigger] item.windows[i]).urgent,
        badge: if item.windows.len() > 1 {
            Some(item.windows.len() as u32)
        } else {
            None
        },
        ..item
    }
}

/// The items of the configured applets that name a path.
pub open spec fn applet_items(applets: Seq<AppletConfigView>) -> Seq<DockItemView>
    decreases applets.len(),
{
    if applets.len() == 0 {
        Seq::empty()
    } else {
        let prev = applet_items(applets.drop_last());
        match applet_config_item(applets.last()) {
            Some(i) => prev.push(i),
            None => prev,
        }
    }
}

/// The application part of the model: pinned items, then running windows
/// placed, each with its status.
pub open spec fn application_items(
    pinned: Seq<Seq<char>>,
    hidden: Seq<Seq<char>>,
    index: Seq<DesktopAppView>,
    windows: Seq<WindowInfoView>,
) -> Seq<DockItemView> {
    place_windows(pinned_items(pinned, hidden, index), hidden, index, windows).map_values(
        |i: DockItemView| with_status(i),
    )
}

/// The whole model: application items, then Downloads and Trash, then the
/// configured folder applets.
pub open spec fn model_from_sources(
    pinned: Seq<Seq<char>>,
    hidden: Seq<Seq<char>>,
    index: Seq<DesktopAppView>,
    windows: Seq<WindowInfoView>,
    applets: Seq<AppletConfigView>,
) -> Seq<DockItemView> {
    application_items(pinned, hidden, index, windows) + seq![downloads_view(), trash_view()]
        + applet_items(applets)
}

pub open spec fn applets_view(a: Seq<AppletConfig>) -> Seq<AppletConfigView> {
    a.map_values(|x: AppletConfig| x@)
}

fn listed_ic(list: &[String], n: usize, x: &Vec<char>) -> (r: bool)
    requires
        n <= list@.len(),
    ensures
        r == seen_before(strings_view(list@), n as int, x@),
{
    let ghost s = strings_view(list@);
    let mut j: usize = 0;
    while j < n
        invariant
            j <= n <= list@.len(),
            s == strings_view(list@),
            forall|k: int| 0 <= k < j ==> !eq_ic(#[trigger] s[k], x@),
        decreases n - j,
    {
        if vec_eq_ic(&chars_of(list[j].as_str()), x) {
            assert(eq_ic(s[j as int], x@));
            return true;
        }
        j = j + 1;
    }
    false
}

fn is_hidden(hidden: &[String], x: &Vec<char>) -> (r: bool)
    ensures
        r == hidden_has(strings_view(hidden@), x@),
{
    listed_ic(hidden, hidden.len(), x)
}

fn any_active(ws: &Vec<WindowInfo>) -> (r: bool)
    ensures
        r == exists|i: int|
            0 <= i < windows_view(ws@).len() && (#[trigger] windows_view(ws@)[i]).active,
{
    let mut i: usize = 0;
    while i < ws.len()
        invariant
            i <= ws.len(),
            forall|k: int| 0 <= k < i ==> !(#[trigger] ws@[k]).active,
        decreases ws.len() - i,
    {
        if ws[i].active {
            assert(windows_view(ws@)[i as int].active);
            return true;
        }
        i = i + 1;
    }
    assert forall|k: int| 0 <= k < windows_view(ws@).len() implies !(
    #[trigger] windows_view(ws@)[k]).active by {
        assert(windows_view(ws@)[k] == ws@[k]@);
    }
    false
}

fn any_urgent(ws: &Vec<WindowInfo>) -> (r: bool)
    ensures
        r == exists|i: int|
            0 <= i < windows_view(ws@).len() && (#[trigger] windows_view(ws@)[i]).urgent,
{
    let mut i: usize = 0;
    while i < ws.len()
        invariant
            i <= ws.len(),
            forall|k: int| 0 <= k < i ==> !(#[trigger] ws@[k]).urgent,
        decreases ws.len() - i,
    {
        if ws[i].urgent {
            assert(windows_view(ws@)[i as int].urgent);
            return true;
        }
        i = i + 1;
    }
    assert forall|k: int| 0 <= k < windows_view(ws@).len() implies !(
    #[trigger] windows_view(ws@)[k]).urgent by {
        assert(windows_view(ws@)[k] == ws@[k]@);
    }
    false
}

impl DockModel {
    /// The model for pinned ids, known desktop entries and running windows,
    /// with no hidden ids and no configured applets.
    pub fn from_sources(pinned_ids: &[String], desktop_index: &DesktopIndex, windows: Vec<
        WindowInfo,
    >) -> (r: Self)
        ensures
            r@ == model_from_sources(
                strings_view(pinned_ids@),
                Seq::empty(),
                desktop_index@,
                windows_view(windows@),
                Seq::empty(),
            ),
    {
        let hidden: Vec<String> = Vec::new();
        let applets: Vec<AppletConfig> = Vec::new();
        let r = Self::from_sources_with_applets(
            pinned_ids,
            hidden.as_slice(),
            desktop_index,
            windows,
            applets.as_slice(),
        );
        assert(strings_view(hidden@) =~= Seq::<Seq<char>>::empty());
        assert(applets_view(applets@) =~= Seq::<AppletConfigView>::empty());
        r
    }

    /// The model: one item per pinned id (skipping hidden ids and repeats,
    /// ignoring ASCII case), running windows joined to the item that claims
    /// them or given items of their own (unless hidden), each application
    /// item's status taken from its windows, then the Downloads and Trash
    /// applets, then the configured folder applets.
    pub fn from_sources_with_applets(
        pinned_ids: &[String],
        hidden_ids: &[String],
        desktop_index: &DesktopIndex,
        windows: Vec<WindowInfo>,
        applets: &[AppletConfig],
    ) -> (r: Self)
        ensures
            r@ == model_from_sources(
                strings_view(pinned_ids@),
                strings_view(hidden_ids@),
                desktop_index@,
                windows_view(windows@),
                applets_view(applets@),
            ),
    {
        let ghost pv = strings_view(pinned_ids@);
        let ghost hv = strings_view(hidden_ids@);
        let ghost idx = desktop_index@;
        let mut items: Vec<DockItem> = Vec::new();
        let mut i: usize = 0;
        assert(pv.take(0) =~= Seq::<Seq<char>>::empty());
        assert(items_view(items@) =~= Seq::<DockItemView>::empty());
        while i < pinned_ids.len()
            invariant
                i <= pinned_ids@.len(),
                pv == strings_view(pinned_ids@),
                hv == strings_view(hidden_ids@),
                idx == desktop_index@,
                items_view(items@) == pinned_items(pv.take(i as int), hv, idx),
            decreases pinned_ids.len() - i,
        {
            let id = chars_of(pinned_ids[i].as_str());
            proof {
                assert(pv.take(i + 1).drop_last() =~= pv.take(i as int));
                assert(pv.take(i + 1).last() == id@);
                assert forall|j: int| 0 <= j < i implies pv.take(i + 1)[j] == #[trigger] pv[j] by {}
            }
            let hidden = is_hidden(hidden_ids, &id);
            let seen = listed_ic(pinned_ids, i, &id);
            proof {
                assert(seen == seen_before(pv.take(i + 1), i as int, id@)) by {
                    if seen {
                        let j = choose|j: int| 0 <= j < i && eq_ic(#[trigger] pv[j], id@);
                        assert(pv.take(i + 1)[j] == pv[j]);
                    }
                    if seen_before(pv.take(i + 1), i as int, id@) {
                        let j = choose|j: int| 0 <= j < i && eq_ic(#[trigger] pv.take(i + 1)[j], id@);
                        assert(pv.take(i + 1)[j] == pv[j]);
                    }
                }
            }
            if !hidden && !seen {
                let item = match desktop_index.by_id(pinned_ids[i].as_str()) {
                    Some(app) => DockItem::from_app(app, true),
                    None => {
                        let app = DesktopApp::placeholder(pinned_ids[i].as_str());
                        DockItem::from_app(&app, true)
                    },
                };
                let ghost before = items_view(items@);
                items.push(item);
                assert(items_view(items@) =~= before.push(item@));
            }
            i = i + 1;
        }
        assert(pv.take(pinned_ids@.len() as int) =~= pv);
        let ghost wv = windows_view(windows@);
        let ghost base = items_view(items@);
        let mut rest = windows;
        let mut w_i: usize = 0;
        let n = rest.len();
        assert(wv.take(0) =~= Seq::<WindowInfoView>::empty());
        while rest.len() > 0
            invariant
                w_i <= wv.len(),
                wv.len() == w_i + rest@.len(),
                wv.len() <= usize::MAX,
                windows_view(rest@) == wv.skip(w_i as int),
                hv == strings_view(hidden_ids@),
                idx == desktop_index@,
                items_view(items@) == place_windows(base, hv, idx, wv.take(w_i as int)),
            decreases rest.len(),
        {
            let ghost before_rest = rest@;
            let window = rest.remove(0);
            let ghost w = window@;
            let ghost cur = items_view(items@);
            proof {
                assert(windows_view(before_rest)[0] == w);
                assert(w == wv[w_i as int]);
                assert forall|k: int| 0 <= k < rest@.len() implies windows_view(rest@)[k]
                    == wv.skip(w_i + 1)[k] by {
                    assert(rest@[k] == before_rest[k + 1]);
                    assert(windows_view(before_rest)[k + 1] == before_rest[k + 1]@);
                    assert(wv.skip(w_i as int)[k + 1] == wv.skip(w_i + 1)[k]);
                }
                assert(windows_view(rest@) =~= wv.skip(w_i + 1));
                assert(wv.take(w_i + 1).drop_last() =~= wv.take(w_i as int));
                assert(wv.take(w_i + 1).last() == w);
            }
            let class_hidden = match &window.class {
                Some(c) => is_hidden(hidden_ids, &chars_of(c.as_str())),
                None => false,
            };
            let matched = desktop_index.match_window(&window);
            let app_hidden = match matched {
                Some(app) => is_hidden(hidden_ids, &chars_of(app.desktop_id.as_str())),
                None => false,
            };
            if !class_hidden && !app_hidden {
                match find_matching_item(&items, desktop_index, &window) {
                    Some(k) => {
                        let mut item = items.remove(k);
                        item.push_window(window);
                        items.insert(k, item);
                        assert(items_view(items@) =~= cur.update(k as int, with_window(cur[k as int], w)));
                    },
                    None => {
                        let item = match matched {
                            Some(app) => {
                                let mut item = DockItem::from_app(app, false);
                                item.push_window(window);
                                item
                            },
                            None => DockItem::from_window(window),
                        };
                        items.push(item);
                        assert(items_view(items@) =~= cur.push(item@));
                    },
                }
            }
            w_i = w_i + 1;
        }
        assert(wv.take(w_i as int) =~= wv);
        let ghost placed = items_view(items@);
        let mut j: usize = 0;
        while j < items.len()
            invariant
                j <= items.len(),
                placed.len() == items@.len(),
                forall|k: int|
                    0 <= k < j ==> #[trigger] items_view(items@)[k] == with_status(placed[k]),
                forall|k: int| j <= k < items@.len() ==> #[trigger] items_view(items@)[k] == placed[k],
            decreases items.len() - j,
        {
            let ghost cur = items_view(items@);
            let mut item = items.remove(j);
            let ghost orig_item = item@;
            assert(orig_item == cur[j as int]);
            assert(orig_item == placed[j as int]);
            let active = any_active(&item.windows);
            let urgent = any_urgent(&item.windows);
            let count = item.windows.len();
            item.active = active;
            item.urgent = urgent;
            item.badge = if count > 1 {
                Some(count as u32)
            } else {
                None
            };
            items.insert(j, item);
            proof {
                assert(item@.windows == orig_item.windows);
                assert(item@.windows.len() == count);
                assert(item@ == with_status(placed[j as int]));
                assert forall|k: int| 0 <= k < j + 1 implies #[trigger] items_view(items@)[k]
                    == with_status(placed[k]) by {
                    if k < j {
                        assert(items_view(items@)[k] == cur[k]);
                    }
                }
                assert forall|k: int| j + 1 <= k < items@.len() implies #[trigger] items_view(
                    items@,
                )[k] == placed[k] by {
                    assert(items_view(items@)[k] == cur[k]);
                }
            }
            j = j + 1;
        }
        assert(items_view(items@) =~= placed.map_values(|i: DockItemView| with_status(i)));
        let ghost apps_part = items_view(items@);
        items.push(DockItem::downloads_applet());
        items.push(DockItem::trash_applet());
        assert(items_view(items@) =~= apps_part + seq![downloads_view(), trash_view()]);
        let ghost av = applets_view(applets@);
        let ghost fixed = items_view(items@);
        let mut a: usize = 0;
        assert(av.take(0) =~= Seq::<AppletConfigView>::empty());
        assert(fixed + applet_items(Seq::<AppletConfigView>::empty()) =~= fixed);
        while a < applets.len()
            invariant
                a <= applets@.len(),
                av == applets_view(applets@),
                items_view(items@) == fixed + applet_items(av.take(a as int)),
            decreases applets.len() - a,
        {
            proof {
                assert(av.take(a + 1).drop_last() =~= av.take(a as int));
                assert(av.take(a + 1).last() == applets@[a as int]@);
            }
            match DockItem::from_applet_config(&applets[a]) {
                Some(item) => {
                    let ghost before = items_view(items@);
                    items.push(item);
                    assert(items_view(items@) =~= before.push(item@));
                    assert(fixed + applet_items(av.take(a + 1)) =~= (fixed + applet_items(
                        av.take(a as int),
                    )).push(item@));
                },
                None => {},
            }
            a = a + 1;
        }
        assert(av.take(applets@.len() as int) =~= av);
        DockModel { items }
    }
}

} // verus!
