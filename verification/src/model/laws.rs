//! Properties that hold across the model's operations.
use super::ordering::{
    app_filter, app_part, applet_filter, applet_part, apply_order_spec, at_pos, bucket,
    buckets_upto, config_keys, key_is, key_matches, move_spec, pos_of, sort_by_order,
};
use super::sections::{app_index, app_indices, applet_index, applet_indices, index_seq};
use super::assemble::{
    applet_items, applets_view, model_from_sources, application_items, pinned_items, place_window, place_windows, window_hidden,
};
use super::types::{config_key_of, is_app, DockItemView, WindowInfoView};
use crate::desktop::DesktopAppView;
use crate::seqs::{
    first_where, keep, lemma_first_where, lemma_first_where_is, lemma_keep_all, lemma_keep_keep,
    lemma_keep_append, lemma_keep_len, lemma_keep_multiset, lemma_keep_none, lemma_keep_push,
    lemma_keep_same,
};
use crate::text::eq_ic;
use vstd::prelude::*;

verus! {

proof fn lemma_index_split(n: nat, p: spec_fn(usize) -> bool, q: spec_fn(usize) -> bool)
    requires
        n <= usize::MAX + 1,
        forall|i: usize| (i as int) < n ==> #[trigger] p(i) != q(i),
    ensures
        keep(index_seq(n), p).len() + keep(index_seq(n), q).len() == n,
        forall|j: int|
            0 <= j < keep(index_seq(n), p).len() ==> (#[trigger] keep(index_seq(n), p)[j] as int)
                < n && p(keep(index_seq(n), p)[j]),
        forall|a: int, b: int|
            0 <= a < b < keep(index_seq(n), p).len() ==> #[trigger] keep(index_seq(n), p)[a]
                < #[trigger] keep(index_seq(n), p)[b],
        forall|i: usize|
            (i as int) < n ==> #[trigger] keep(index_seq(n), p).contains(i) == p(i),
    decreases n,
{
    if n > 0 {
        let m = (n - 1) as nat;
        lemma_index_split(m, p, q);
        let x = m as usize;
        assert(index_seq(n) =~= index_seq(m).push(x));
        lemma_keep_push(index_seq(m), x, p);
        lemma_keep_push(index_seq(m), x, q);
        let km = keep(index_seq(m), p);
        let kn = keep(index_seq(n), p);
        assert(p(x) != q(x));
        assert forall|i: usize| (i as int) < n implies #[trigger] kn.contains(i) == p(i) by {
            if (i as int) < m {
                if km.contains(i) {
                    let j = choose|j: int| 0 <= j < km.len() && km[j] == i;
                    assert(kn[j] == km[j]);
                }
                if kn.contains(i) {
                    let j = choose|j: int| 0 <= j < kn.len() && kn[j] == i;
                    if j < km.len() {
                        assert(kn[j] == km[j]);
                    } else {
                        assert(kn[j] == x);
                    }
                }
            } else {
                if p(x) {
                    assert(kn[km.len() as int] == x);
                } else {
                    assert(kn == km);
                    if kn.contains(x) {
                        let j = choose|j: int| 0 <= j < km.len() && km[j] == x;
                        assert((km[j] as int) < m);
                    }
                }
            }
        }
    } else {
        assert(index_seq(0) =~= Seq::<usize>::empty());
    }
}

/// Every item index falls in exactly one section: the applications section
/// lists the indices of the application items and the applets section the
/// others, each in ascending order.
pub proof fn lemma_sections_partition(s: Seq<DockItemView>)
    requires
        s.len() <= usize::MAX,
    ensures
        app_indices(s).len() + applet_indices(s).len() == s.len(),
        forall|i: int|
            0 <= i < s.len() ==> (app_indices(s).contains(i as usize) <==> is_app(#[trigger] s[i])),
        forall|i: int|
            0 <= i < s.len() ==> (applet_indices(s).contains(i as usize) <==> !is_app(
                #[trigger] s[i],
            )),
        forall|j: int|
            0 <= j < app_indices(s).len() ==> (#[trigger] app_indices(s)[j] as int) < s.len(),
        forall|j: int|
            0 <= j < applet_indices(s).len() ==> (#[trigger] applet_indices(s)[j] as int) < s.len(),
        forall|a: int, b: int|
            0 <= a < b < app_indices(s).len() ==> #[trigger] app_indices(s)[a]
                < #[trigger] app_indices(s)[b],
        forall|a: int, b: int|
            0 <= a < b < applet_indices(s).len() ==> #[trigger] applet_indices(s)[a]
                < #[trigger] applet_indices(s)[b],
{
    lemma_index_split(s.len(), app_index(s), applet_index(s));
    lemma_index_split(s.len(), applet_index(s), app_index(s));
    assert forall|i: int| 0 <= i < s.len() implies (app_indices(s).contains(i as usize)
        <==> is_app(#[trigger] s[i])) by {
        assert(app_index(s)(i as usize) == is_app(s[i]));
    }
    assert forall|i: int| 0 <= i < s.len() implies (applet_indices(s).contains(i as usize)
        <==> !is_app(#[trigger] s[i])) by {
        assert(applet_index(s)(i as usize) == !is_app(s[i]));
    }
}

pub open spec fn within(keys: Seq<Seq<char>>, p: int) -> spec_fn(DockItemView) -> bool {
    |x: DockItemView| 0 <= pos_of(keys, x) < p
}

proof fn lemma_buckets_multiset(s: Seq<DockItemView>, keys: Seq<Seq<char>>, p: nat)
    ensures
        buckets_upto(s, keys, p).to_multiset() == keep(s, within(keys, p as int)).to_multiset(),
    decreases p,
{
    broadcast use vstd::seq_lib::group_to_multiset_ensures;

    if p == 0 {
        lemma_keep_none(s, within(keys, 0));
        assert(buckets_upto(s, keys, 0) == Seq::<DockItemView>::empty());
    } else {
        let q = (p - 1) as nat;
        lemma_buckets_multiset(s, keys, q);
        let t = keep(s, within(keys, p as int));
        let w = within(keys, q as int);
        let nw = |x: DockItemView| !w(x);
        lemma_keep_multiset(t, w);
        lemma_keep_keep(s, within(keys, p as int), w);
        lemma_keep_same(s, |x: DockItemView| within(keys, p as int)(x) && w(x), w);
        lemma_keep_keep(s, within(keys, p as int), nw);
        lemma_keep_same(
            s,
            |x: DockItemView| within(keys, p as int)(x) && nw(x),
            at_pos(keys, q as int),
        );
        vstd::seq_lib::lemma_multiset_commutative(
            buckets_upto(s, keys, q),
            bucket(s, keys, q as int),
        );
    }
}

/// Sorting by the saved order keeps every item: the result is a
/// permutation of the input.
pub proof fn lemma_sort_by_order_permutes(s: Seq<DockItemView>, keys: Seq<Seq<char>>)
    ensures
        sort_by_order(s, keys).to_multiset() == s.to_multiset(),
{
    let w = within(keys, keys.len() as int);
    lemma_buckets_multiset(s, keys, keys.len());
    lemma_keep_multiset(s, w);
    assert forall|i: int| 0 <= i < s.len() implies (|x: DockItemView| !w(x))(#[trigger] s[i])
        == at_pos(keys, -1)(s[i]) by {
        lemma_first_where(keys, key_is(super::types::config_key_of(s[i])));
    }
    lemma_keep_same(s, |x: DockItemView| !w(x), at_pos(keys, -1));
    vstd::seq_lib::lemma_multiset_commutative(
        buckets_upto(s, keys, keys.len()),
        bucket(s, keys, -1),
    );
}

proof fn lemma_sections_multiset(s: Seq<DockItemView>)
    ensures
        app_part(s).to_multiset().add(applet_part(s).to_multiset()) == s.to_multiset(),
{
    lemma_keep_multiset(s, app_filter());
    lemma_keep_same(s, |x: DockItemView| !app_filter()(x), applet_filter());
}

/// Applying a saved order only reorders: the items after it are a
/// permutation of the items before.
pub proof fn lemma_apply_order_permutes(s: Seq<DockItemView>, keys: Seq<Seq<char>>)
    ensures
        apply_order_spec(s, keys).to_multiset() == s.to_multiset(),
{
    if !(keys.len() == 0 || s.len() < 2) {
        lemma_sort_by_order_permutes(app_part(s), keys);
        lemma_sort_by_order_permutes(applet_part(s), keys);
        vstd::seq_lib::lemma_multiset_commutative(
            sort_by_order(app_part(s), keys),
            sort_by_order(applet_part(s), keys),
        );
        lemma_sections_multiset(s);
    }
}

/// Moving an item only reorders: the items after a move, successful or not,
/// are a permutation of the items before.
pub proof fn lemma_move_permutes(s: Seq<DockItemView>, key: Seq<char>, target: int)
    requires
        0 <= target,
    ensures
        move_spec(s, key, target).1.to_multiset() == s.to_multiset(),
{
    broadcast use vstd::seq_lib::group_to_multiset_ensures;

    let apps = app_part(s);
    let applets = applet_part(s);
    lemma_sections_multiset(s);
    vstd::seq_lib::lemma_multiset_commutative(apps, applets);
    let moving_applet = first_where(applets, key_matches(key)) >= 0;
    let tgt = if moving_applet {
        applets
    } else {
        apps
    };
    let c = first_where(tgt, key_matches(key));
    lemma_first_where(tgt, key_matches(key));
    let t = if target < tgt.len() - 1 {
        target
    } else {
        tgt.len() - 1
    };
    if !(c < 0 || c == t) {
        let moved = tgt.remove(c).insert(t, tgt[c]);
        assert(moved.to_multiset() =~= tgt.to_multiset());
        vstd::seq_lib::lemma_multiset_commutative(apps, moved);
        vstd::seq_lib::lemma_multiset_commutative(moved, applets);
    }
}

/// A successful move puts the item with the key at the target index of its
/// own section, clamped to the section's last index; applications stay
/// before applets.
pub proof fn lemma_move_lands_at_target(s: Seq<DockItemView>, key: Seq<char>, target: int)
    requires
        0 <= target,
        move_spec(s, key, target).0,
    ensures
        ({
            let r = move_spec(s, key, target).1;
            let apps = app_part(s);
            let applets = applet_part(s);
            if first_where(applets, key_matches(key)) >= 0 {
                let t = if target < applets.len() - 1 {
                    target
                } else {
                    applets.len() - 1
                };
                &&& r.len() == s.len()
                &&& r.subrange(0, apps.len() as int) == apps
                &&& key_matches(key)(r[apps.len() + t])
            } else {
                let t = if target < apps.len() - 1 {
                    target
                } else {
                    apps.len() - 1
                };
                &&& r.len() == s.len()
                &&& r.subrange(apps.len() as int, r.len() as int) == applets
                &&& key_matches(key)(r[t])
            }
        }),
{
    broadcast use vstd::seq_lib::group_to_multiset_ensures;

    let apps = app_part(s);
    let applets = applet_part(s);
    lemma_sections_multiset(s);
    let moving_applet = first_where(applets, key_matches(key)) >= 0;
    let tgt = if moving_applet {
        applets
    } else {
        apps
    };
    let c = first_where(tgt, key_matches(key));
    lemma_first_where(tgt, key_matches(key));
    let t = if target < tgt.len() - 1 {
        target
    } else {
        tgt.len() - 1
    };
    let moved = tgt.remove(c).insert(t, tgt[c]);
    assert(moved[t] == tgt[c]);
    assert(s.to_multiset().len() == s.len());
    assert(apps.to_multiset().len() == apps.len());
    assert(applets.to_multiset().len() == applets.len());
    if moving_applet {
        assert((apps + moved).subrange(0, apps.len() as int) =~= apps);
        assert((apps + moved)[apps.len() + t] == moved[t]);
    } else {
        assert((moved + applets).subrange(apps.len() as int, s.len() as int) =~= applets);
        assert((moved + applets)[t] == moved[t]);
    }
}

/// The windows of the items, item by item.
pub open spec fn item_windows(items: Seq<DockItemView>) -> Seq<WindowInfoView>
    decreases items.len(),
{
    if items.len() == 0 {
        Seq::empty()
    } else {
        item_windows(items.drop_last()) + items.last().windows
    }
}

/// The window is not hidden from the dock.
pub open spec fn window_shown(hidden: Seq<Seq<char>>, index: Seq<DesktopAppView>) -> spec_fn(
    WindowInfoView,
) -> bool {
    |w: WindowInfoView| !window_hidden(hidden, index, w)
}

proof fn lemma_item_windows_push(items: Seq<DockItemView>, x: DockItemView)
    ensures
        item_windows(items.push(x)).to_multiset() == item_windows(items).to_multiset().add(
            x.windows.to_multiset(),
        ),
{
    assert(items.push(x).drop_last() =~= items);
    vstd::seq_lib::lemma_multiset_commutative(item_windows(items), x.windows);
}

proof fn lemma_item_windows_update(items: Seq<DockItemView>, k: int, x: DockItemView)
    requires
        0 <= k < items.len(),
    ensures
        item_windows(items.update(k, x)).to_multiset().add(items[k].windows.to_multiset())
            == item_windows(items).to_multiset().add(x.windows.to_multiset()),
    decreases items.len(),
{
    broadcast use vstd::multiset::group_multiset_axioms;

    let t = items.drop_last();
    let l = items.last();
    assert(t.push(l) =~= items);
    lemma_item_windows_push(t, l);
    if k == items.len() - 1 {
        assert(items.update(k, x) =~= t.push(x));
        lemma_item_windows_push(t, x);
        assert(items[k] == l);
        assert(item_windows(items.update(k, x)).to_multiset().add(items[k].windows.to_multiset())
            =~= item_windows(items).to_multiset().add(x.windows.to_multiset()));
    } else {
        lemma_item_windows_update(t, k, x);
        assert(items.update(k, x) =~= t.update(k, x).push(l));
        lemma_item_windows_push(t.update(k, x), l);
        assert(t[k] == items[k]);
        let a = item_windows(t.update(k, x)).to_multiset();
        let b = l.windows.to_multiset();
        let c = items[k].windows.to_multiset();
        let d = item_windows(t).to_multiset();
        let e = x.windows.to_multiset();
        assert(item_windows(items.update(k, x)).to_multiset() == a.add(b));
        assert(item_windows(items).to_multiset() == d.add(b));
        assert(a.add(c) == d.add(e));
        assert(a.add(b).add(c) =~= d.add(b).add(e)) by {
            assert forall|v: WindowInfoView| #[trigger] a.add(b).add(c).count(v) == d.add(b).add(
                e,
            ).count(v) by {
                assert(a.add(c).count(v) == d.add(e).count(v));
            }
        }
    }
}

proof fn lemma_place_window_multiset(
    items: Seq<DockItemView>,
    hidden: Seq<Seq<char>>,
    index: Seq<DesktopAppView>,
    w: WindowInfoView,
)
    ensures
        item_windows(place_window(items, hidden, index, w)).to_multiset() == (if window_shown(
            hidden,
            index,
        )(w) {
            item_windows(items).to_multiset().insert(w)
        } else {
            item_windows(items).to_multiset()
        }),
{
    broadcast use vstd::seq_lib::group_to_multiset_ensures;
    broadcast use vstd::multiset::group_multiset_axioms;

    let r = place_window(items, hidden, index, w);
    if !window_hidden(hidden, index, w) {
        let k = first_where(items, super::matching::claiming(index, w));
        lemma_first_where(items, super::matching::claiming(index, w));
        if k >= 0 {
            let x = super::types::with_window(items[k], w);
            lemma_item_windows_update(items, k, x);
            assert(x.windows.to_multiset() =~= items[k].windows.to_multiset().insert(w));
            assert(r == items.update(k, x));
            let a = item_windows(r).to_multiset();
            let c = items[k].windows.to_multiset();
            let d = item_windows(items).to_multiset();
            assert(a.add(c) == d.add(c.insert(w)));
            assert forall|v: WindowInfoView| #[trigger] a.count(v) == d.insert(w).count(v) by {
                assert(a.add(c).count(v) == d.add(c.insert(w)).count(v));
            }
            assert(a =~= d.insert(w));
        } else {
            let x = r.last();
            assert(r == items.push(x));
            assert(x.windows =~= seq![w]);
            lemma_item_windows_push(items, x);
            assert(seq![w] =~= Seq::<WindowInfoView>::empty().push(w));
            assert(item_windows(r).to_multiset() =~= item_windows(items).to_multiset().insert(w));
        }
    }
}

proof fn lemma_place_windows_multiset(
    items: Seq<DockItemView>,
    hidden: Seq<Seq<char>>,
    index: Seq<DesktopAppView>,
    ws: Seq<WindowInfoView>,
)
    ensures
        item_windows(place_windows(items, hidden, index, ws)).to_multiset() == item_windows(
            items,
        ).to_multiset().add(keep(ws, window_shown(hidden, index)).to_multiset()),
    decreases ws.len(),
{
    broadcast use vstd::seq_lib::group_to_multiset_ensures;

    if ws.len() == 0 {
        assert(keep(ws, window_shown(hidden, index)) == Seq::<WindowInfoView>::empty());
        assert(item_windows(items).to_multiset().add(Seq::<WindowInfoView>::empty().to_multiset())
            =~= item_windows(items).to_multiset());
    } else {
        let t = ws.drop_last();
        let w = ws.last();
        lemma_place_windows_multiset(items, hidden, index, t);
        lemma_place_window_multiset(place_windows(items, hidden, index, t), hidden, index, w);
        assert(t.push(w) =~= ws);
        lemma_keep_push(t, w, window_shown(hidden, index));
        let kt = keep(t, window_shown(hidden, index));
        if window_shown(hidden, index)(w) {
            assert(item_windows(items).to_multiset().add(kt.to_multiset()).insert(w)
                =~= item_windows(items).to_multiset().add(kt.push(w).to_multiset()));
        }
    }
}

proof fn lemma_pinned_items_windowless(
    pinned: Seq<Seq<char>>,
    hidden: Seq<Seq<char>>,
    index: Seq<DesktopAppView>,
)
    ensures
        item_windows(pinned_items(pinned, hidden, index)) == Seq::<WindowInfoView>::empty(),
    decreases pinned.len(),
{
    if pinned.len() > 0 {
        lemma_pinned_items_windowless(pinned.drop_last(), hidden, index);
        let prev = pinned_items(pinned.drop_last(), hidden, index);
        let r = pinned_items(pinned, hidden, index);
        if r != prev {
            assert(r.drop_last() =~= prev);
            assert(item_windows(r) =~= Seq::<WindowInfoView>::empty());
        }
    }
}

proof fn lemma_map_keeps_windows(s: Seq<DockItemView>, f: spec_fn(DockItemView) -> DockItemView)
    requires
        forall|x: DockItemView| (#[trigger] f(x)).windows == x.windows,
    ensures
        item_windows(s.map_values(f)) == item_windows(s),
    decreases s.len(),
{
    if s.len() > 0 {
        lemma_map_keeps_windows(s.drop_last(), f);
        assert(s.map_values(f).drop_last() =~= s.drop_last().map_values(f));
        assert(s.map_values(f).last() == f(s.last()));
    }
}

/// No running window is lost or counted twice: the application items hold
/// exactly the running windows that are not hidden.
pub proof fn lemma_application_items_hold_shown_windows(
    pinned: Seq<Seq<char>>,
    hidden: Seq<Seq<char>>,
    index: Seq<DesktopAppView>,
    windows: Seq<WindowInfoView>,
)
    ensures
        item_windows(application_items(pinned, hidden, index, windows)).to_multiset() == keep(
            windows,
            window_shown(hidden, index),
        ).to_multiset(),
{
    broadcast use vstd::seq_lib::group_to_multiset_ensures;

    let p = pinned_items(pinned, hidden, index);
    lemma_pinned_items_windowless(pinned, hidden, index);
    lemma_place_windows_multiset(p, hidden, index, windows);
    let placed = place_windows(p, hidden, index, windows);
    let f = |i: DockItemView| super::assemble::with_status(i);
    lemma_map_keeps_windows(placed, f);
    assert(application_items(pinned, hidden, index, windows) == placed.map_values(f));
    assert(Seq::<WindowInfoView>::empty().to_multiset().add(
        keep(windows, window_shown(hidden, index)).to_multiset(),
    ) =~= keep(windows, window_shown(hidden, index)).to_multiset());
}

/// Every application comes before every applet.
pub open spec fn sectioned(s: Seq<DockItemView>) -> bool {
    forall|i: int, j: int| 0 <= i < j < s.len() && is_app(#[trigger] s[j]) ==> is_app(#[trigger] s[i])
}

/// No two items share a saved-order key, ignoring ASCII case.
pub open spec fn keys_distinct_ic(s: Seq<DockItemView>) -> bool {
    forall|i: int, j: int|
        0 <= i < j < s.len() ==> !eq_ic(config_key_of(#[trigger] s[i]), config_key_of(#[trigger] s[j]))
}

/// `f` grows strictly along `t`.
pub open spec fn increasing_along(t: Seq<DockItemView>, f: spec_fn(DockItemView) -> int) -> bool {
    forall|i: int, j: int| 0 <= i < j < t.len() ==> f(#[trigger] t[i]) < f(#[trigger] t[j])
}

pub open spec fn pos_fn(keys: Seq<Seq<char>>) -> spec_fn(DockItemView) -> int {
    |x: DockItemView| pos_of(keys, x)
}

proof fn lemma_keep_increasing(s: Seq<DockItemView>, p: spec_fn(DockItemView) -> bool, f: spec_fn(DockItemView) -> int)
    requires
        increasing_along(s, f),
    ensures
        increasing_along(keep(s, p), f),
    decreases s.len(),
{
    if s.len() > 0 {
        let t = s.drop_first();
        assert forall|i: int, j: int| 0 <= i < j < t.len() implies f(#[trigger] t[i]) < f(#[trigger] t[j]) by {
            assert(t[i] == s[i + 1] && t[j] == s[j + 1]);
        }
        lemma_keep_increasing(t, p, f);
        lemma_keep_len(t, p);
        let kt = keep(t, p);
        if p(s[0]) {
            let ks = keep(s, p);
            assert(ks == seq![s[0]] + kt);
            assert forall|i: int, j: int| 0 <= i < j < ks.len() implies f(#[trigger] ks[i]) < f(#[trigger] ks[j]) by {
                assert(ks[j] == kt[j - 1]);
                if i == 0 {
                    assert(t.contains(kt[j - 1]));
                    let m = choose|m: int| 0 <= m < t.len() && t[m] == kt[j - 1];
                    assert(s[m + 1] == t[m]);
                    assert(ks[0] == s[0]);
                } else {
                    assert(ks[i] == kt[i - 1]);
                }
            }
        }
    }
}

pub open spec fn below(keys: Seq<Seq<char>>, p: int) -> spec_fn(DockItemView) -> bool {
    |x: DockItemView| pos_of(keys, x) < p
}

proof fn lemma_keep_below_split(t: Seq<DockItemView>, keys: Seq<Seq<char>>, p: int)
    requires
        increasing_along(t, pos_fn(keys)),
    ensures
        keep(t, below(keys, p + 1)) == keep(t, below(keys, p)) + keep(t, at_pos(keys, p)),
    decreases t.len(),
{
    if t.len() == 0 {
        assert(keep(t, below(keys, p)) + keep(t, at_pos(keys, p)) =~= Seq::<DockItemView>::empty());
    } else {
        let u = t.drop_last();
        let x = t.last();
        assert(u.push(x) =~= t);
        assert forall|i: int, j: int| 0 <= i < j < u.len() implies pos_fn(keys)(#[trigger] u[i]) < pos_fn(keys)(#[trigger] u[j]) by {
            assert(u[i] == t[i] && u[j] == t[j]);
        }
        lemma_keep_below_split(u, keys, p);
        lemma_keep_push(u, x, below(keys, p + 1));
        lemma_keep_push(u, x, below(keys, p));
        lemma_keep_push(u, x, at_pos(keys, p));
        let a = keep(u, below(keys, p));
        let b = keep(u, at_pos(keys, p));
        if pos_of(keys, x) < p {
            lemma_keep_len(u, at_pos(keys, p));
            if b.len() > 0 {
                assert(u.contains(b[0]));
                let m = choose|m: int| 0 <= m < u.len() && u[m] == b[0];
                assert(t[m] == u[m]);
                assert(pos_fn(keys)(t[m]) < pos_fn(keys)(t[t.len() - 1]));
                assert(at_pos(keys, p)(b[0]));
                assert(false);
            }
            assert(b =~= Seq::<DockItemView>::empty());
            assert(a.push(x) + b =~= a.push(x));
            assert(a + b =~= a);
        } else if pos_of(keys, x) == p {
            assert(a + b.push(x) =~= (a + b).push(x));
        }
    }
}

proof fn lemma_sorted_is_identity(t: Seq<DockItemView>, keys: Seq<Seq<char>>)
    requires
        increasing_along(t, pos_fn(keys)),
        forall|i: int| 0 <= i < t.len() ==> 0 <= #[trigger] pos_of(keys, t[i]) < keys.len(),
    ensures
        sort_by_order(t, keys) == t,
{
    assert forall|p: nat| p <= keys.len() implies #[trigger] buckets_upto(t, keys, p) == keep(t, below(keys, p as int)) by {
        lemma_buckets_prefix(t, keys, p);
    }
    assert(buckets_upto(t, keys, keys.len()) == keep(t, below(keys, keys.len() as int)));
    assert forall|i: int| 0 <= i < t.len() implies below(keys, keys.len() as int)(#[trigger] t[i]) by {
        assert(0 <= pos_of(keys, t[i]) < keys.len());
    }
    lemma_keep_all(t, below(keys, keys.len() as int));
    assert forall|i: int| 0 <= i < t.len() implies !at_pos(keys, -1)(#[trigger] t[i]) by {
        assert(0 <= pos_of(keys, t[i]));
    }
    lemma_keep_none(t, at_pos(keys, -1));
    assert(t + Seq::<DockItemView>::empty() =~= t);
}

proof fn lemma_buckets_prefix(t: Seq<DockItemView>, keys: Seq<Seq<char>>, p: nat)
    requires
        increasing_along(t, pos_fn(keys)),
        forall|i: int| 0 <= i < t.len() ==> 0 <= #[trigger] pos_of(keys, t[i]) < keys.len(),
    ensures
        buckets_upto(t, keys, p) == keep(t, below(keys, p as int)),
    decreases p,
{
    if p == 0 {
        assert forall|i: int| 0 <= i < t.len() implies !below(keys, 0)(#[trigger] t[i]) by {
            assert(0 <= pos_of(keys, t[i]));
        }
        lemma_keep_none(t, below(keys, 0));
    } else {
        let q = (p - 1) as nat;
        lemma_buckets_prefix(t, keys, q);
        lemma_keep_below_split(t, keys, q as int);
    }
}

proof fn lemma_sectioned_split(s: Seq<DockItemView>)
    requires
        sectioned(s),
    ensures
        app_part(s) + applet_part(s) == s,
    decreases s.len(),
{
    if s.len() == 0 {
        assert(app_part(s) + applet_part(s) =~= s);
    } else {
        let u = s.drop_last();
        let x = s.last();
        assert(u.push(x) =~= s);
        assert forall|i: int, j: int| 0 <= i < j < u.len() && is_app(#[trigger] u[j]) implies is_app(#[trigger] u[i]) by {
            assert(u[i] == s[i] && u[j] == s[j]);
        }
        lemma_sectioned_split(u);
        lemma_keep_push(u, x, app_filter());
        lemma_keep_push(u, x, applet_filter());
        if is_app(x) {
            assert forall|i: int| 0 <= i < u.len() implies app_filter()(#[trigger] u[i]) by {
                assert(s[s.len() - 1] == x);
                assert(u[i] == s[i]);
            }
            lemma_keep_all(u, app_filter());
            lemma_keep_none(u, applet_filter());
            assert(app_part(s) + applet_part(s) =~= s);
        } else {
            assert(app_part(s) + applet_part(s) =~= (app_part(u) + applet_part(u)).push(x));
        }
    }
}

/// Saving the item order and applying it again restores the items: for
/// items with applications before applets and saved-order keys that differ
/// ignoring ASCII case, applying their own keys changes nothing.
pub proof fn lemma_saved_order_restores_items(s: Seq<DockItemView>)
    requires
        sectioned(s),
        keys_distinct_ic(s),
    ensures
        apply_order_spec(s, config_keys(s)) == s,
{
    let keys = config_keys(s);
    if !(keys.len() == 0 || s.len() < 2) {
        assert forall|i: int| 0 <= i < s.len() implies #[trigger] pos_of(keys, s[i]) == i by {
            let p = key_is(config_key_of(s[i]));
            assert(keys[i] == config_key_of(s[i]));
            assert(p(keys[i]));
            assert forall|k: int| 0 <= k < i implies !p(#[trigger] keys[k]) by {
                assert(keys[k] == config_key_of(s[k]));
                assert(!eq_ic(config_key_of(s[k]), config_key_of(s[i])));
            }
            lemma_first_where_is(keys, p, i);
        }
        assert forall|i: int, j: int| 0 <= i < j < s.len() implies pos_fn(keys)(#[trigger] s[i]) < pos_fn(keys)(#[trigger] s[j]) by {
            assert(pos_of(keys, s[i]) == i);
            assert(pos_of(keys, s[j]) == j);
        }
        lemma_keep_increasing(s, app_filter(), pos_fn(keys));
        lemma_keep_increasing(s, applet_filter(), pos_fn(keys));
        lemma_keep_len(s, app_filter());
        lemma_keep_len(s, applet_filter());
        assert forall|i: int| 0 <= i < app_part(s).len() implies 0 <= #[trigger] pos_of(keys, app_part(s)[i]) < keys.len() by {
            assert(s.contains(app_part(s)[i]));
            let m = choose|m: int| 0 <= m < s.len() && s[m] == app_part(s)[i];
            assert(pos_of(keys, s[m]) == m);
        }
        assert forall|i: int| 0 <= i < applet_part(s).len() implies 0 <= #[trigger] pos_of(keys, applet_part(s)[i]) < keys.len() by {
            assert(s.contains(applet_part(s)[i]));
            let m = choose|m: int| 0 <= m < s.len() && s[m] == applet_part(s)[i];
            assert(pos_of(keys, s[m]) == m);
        }
        lemma_sorted_is_identity(app_part(s), keys);
        lemma_sorted_is_identity(applet_part(s), keys);
        lemma_sectioned_split(s);
    }
}

/// Filtering one bucket by a position keeps it whole for its own position
/// and empties it for any other.
proof fn lemma_bucket_at(a: Seq<DockItemView>, keys: Seq<Seq<char>>, q: int, p: int)
    ensures
        keep(bucket(a, keys, q), at_pos(keys, p)) == (if q == p {
            bucket(a, keys, p)
        } else {
            Seq::<DockItemView>::empty()
        }),
{
    lemma_keep_keep(a, at_pos(keys, q), at_pos(keys, p));
    let both = |x: DockItemView| at_pos(keys, q)(x) && at_pos(keys, p)(x);
    if q == p {
        lemma_keep_same(a, both, at_pos(keys, p));
    } else {
        lemma_keep_none(a, both);
    }
}

/// Filtering the first `m` buckets by a position gives that position's
/// bucket when it is among them, else nothing.
proof fn lemma_buckets_upto_at(a: Seq<DockItemView>, keys: Seq<Seq<char>>, m: nat, p: int)
    requires
        p >= -1,
    ensures
        keep(buckets_upto(a, keys, m), at_pos(keys, p)) == (if 0 <= p < m {
            bucket(a, keys, p)
        } else {
            Seq::<DockItemView>::empty()
        }),
    decreases m,
{
    if m == 0 {
        assert(keep(Seq::<DockItemView>::empty(), at_pos(keys, p)) == Seq::<DockItemView>::empty());
    } else {
        let prev = buckets_upto(a, keys, (m - 1) as nat);
        lemma_buckets_upto_at(a, keys, (m - 1) as nat, p);
        lemma_keep_append(prev, bucket(a, keys, m - 1), at_pos(keys, p));
        lemma_bucket_at(a, keys, m - 1, p);
        if p == m - 1 {
            assert(Seq::<DockItemView>::empty() + bucket(a, keys, p) =~= bucket(a, keys, p));
        } else if 0 <= p < m - 1 {
            assert(bucket(a, keys, p) + Seq::<DockItemView>::empty() =~= bucket(a, keys, p));
        } else {
            assert(Seq::<DockItemView>::empty() + Seq::<DockItemView>::empty() =~= Seq::<
                DockItemView,
            >::empty());
        }
    }
}

/// Sorting keeps every bucket as it was.
proof fn lemma_sorted_bucket(a: Seq<DockItemView>, keys: Seq<Seq<char>>, p: int)
    requires
        -1 <= p < keys.len(),
    ensures
        bucket(sort_by_order(a, keys), keys, p) == bucket(a, keys, p),
{
    lemma_keep_append(buckets_upto(a, keys, keys.len()), bucket(a, keys, -1), at_pos(keys, p));
    lemma_buckets_upto_at(a, keys, keys.len(), p);
    lemma_bucket_at(a, keys, -1, p);
    if p == -1 {
        assert(Seq::<DockItemView>::empty() + bucket(a, keys, p) =~= bucket(a, keys, p));
    } else {
        assert(bucket(a, keys, p) + Seq::<DockItemView>::empty() =~= bucket(a, keys, p));
    }
}

proof fn lemma_sorted_buckets_upto(a: Seq<DockItemView>, keys: Seq<Seq<char>>, m: nat)
    requires
        m <= keys.len(),
    ensures
        buckets_upto(sort_by_order(a, keys), keys, m) == buckets_upto(a, keys, m),
    decreases m,
{
    if m > 0 {
        lemma_sorted_buckets_upto(a, keys, (m - 1) as nat);
        lemma_sorted_bucket(a, keys, m - 1);
    }
}

/// Sorting by the saved order a second time changes nothing.
proof fn lemma_sort_by_order_idempotent(a: Seq<DockItemView>, keys: Seq<Seq<char>>)
    ensures
        sort_by_order(sort_by_order(a, keys), keys) == sort_by_order(a, keys),
{
    lemma_sorted_buckets_upto(a, keys, keys.len());
    lemma_sorted_bucket(a, keys, -1);
}

/// Every item that sorting gives satisfies what every sorted item did.
proof fn lemma_sorted_all(a: Seq<DockItemView>, keys: Seq<Seq<char>>, f: spec_fn(DockItemView) -> bool)
    requires
        forall|i: int| 0 <= i < a.len() ==> f(#[trigger] a[i]),
    ensures
        forall|i: int| 0 <= i < sort_by_order(a, keys).len() ==> f(#[trigger] sort_by_order(a, keys)[i]),
{
    broadcast use vstd::seq_lib::group_to_multiset_ensures;
    lemma_sort_by_order_permutes(a, keys);
    let t = sort_by_order(a, keys);
    assert forall|i: int| 0 <= i < t.len() implies f(#[trigger] t[i]) by {
        assert(t.contains(t[i]));
        assert(t.to_multiset().count(t[i]) > 0);
        assert(a.to_multiset().count(t[i]) > 0);
        assert(a.contains(t[i]));
    }
}

/// Applying the same saved order twice gives the items of applying it once.
pub proof fn lemma_apply_order_idempotent(s: Seq<DockItemView>, keys: Seq<Seq<char>>)
    ensures
        apply_order_spec(apply_order_spec(s, keys), keys) == apply_order_spec(s, keys),
{
    broadcast use vstd::seq_lib::group_to_multiset_ensures;
    if !(keys.len() == 0 || s.len() < 2) {
        let sa = sort_by_order(app_part(s), keys);
        let sb = sort_by_order(applet_part(s), keys);
        let t = sa + sb;
        lemma_apply_order_permutes(s, keys);
        assert(t.to_multiset().len() == s.to_multiset().len());
        assert(t.len() == s.len());
        lemma_keep_len(s, app_filter());
        lemma_keep_len(s, applet_filter());
        lemma_sorted_all(app_part(s), keys, app_filter());
        lemma_sorted_all(applet_part(s), keys, applet_filter());
        lemma_keep_append(sa, sb, app_filter());
        lemma_keep_append(sa, sb, applet_filter());
        lemma_keep_all(sa, app_filter());
        lemma_keep_all(sb, applet_filter());
        lemma_keep_none(sb, app_filter());
        lemma_keep_none(sa, applet_filter());
        assert(app_part(t) =~= sa);
        assert(applet_part(t) =~= sb);
        lemma_sort_by_order_idempotent(app_part(s), keys);
        lemma_sort_by_order_idempotent(applet_part(s), keys);
    }
}

/// An item's status shows its windows: it is urgent exactly when one of its
/// windows demands attention, active exactly when one of them is focused,
/// and carries a badge with the window count when it groups more than one.
pub open spec fn status_from_windows(item: DockItemView) -> bool {
    &&& item.urgent <==> (exists|i: int| 0 <= i < item.windows.len() && (#[trigger] item.windows[i]).urgent)
    &&& item.active <==> (exists|i: int| 0 <= i < item.windows.len() && (#[trigger] item.windows[i]).active)
    &&& (item.windows.len() > 1 ==> item.badge == Some(item.windows.len() as u32))
    &&& (item.windows.len() <= 1 ==> item.badge is None)
}

proof fn lemma_applet_items_idle(applets: Seq<crate::config::AppletConfigView>)
    ensures
        forall|k: int| 0 <= k < applet_items(applets).len() ==> {
            let it = #[trigger] applet_items(applets)[k];
            it.windows.len() == 0 && !it.urgent && !it.active && it.badge is None
        },
    decreases applets.len(),
{
    if applets.len() > 0 {
        lemma_applet_items_idle(applets.drop_last());
    }
}

/// Every item of an assembled dock shows the status of its own windows:
/// urgent exactly when some window is urgent, active exactly when some
/// window is active, badged with the count of two or more windows; applets
/// have no windows and no status.
pub proof fn lemma_item_status_follows_windows(
    pinned: Seq<Seq<char>>,
    hidden: Seq<Seq<char>>,
    index: Seq<DesktopAppView>,
    windows: Seq<WindowInfoView>,
    applets: Seq<crate::config::AppletConfigView>,
)
    ensures
        forall|k: int|
            0 <= k < model_from_sources(pinned, hidden, index, windows, applets).len()
                ==> status_from_windows(
                #[trigger] model_from_sources(pinned, hidden, index, windows, applets)[k],
            ),
{
    let apps = application_items(pinned, hidden, index, windows);
    let fixed = seq![super::types::downloads_view(), super::types::trash_view()];
    let extra = applet_items(applets);
    let m = model_from_sources(pinned, hidden, index, windows, applets);
    lemma_applet_items_idle(applets);
    assert forall|k: int| 0 <= k < m.len() implies status_from_windows(#[trigger] m[k]) by {
        if k < apps.len() {
            assert(m[k] == apps[k]);
        } else if k < apps.len() + 2 {
            assert(m[k] == fixed[k - apps.len()]);
        } else {
            assert(m[k] == extra[k - apps.len() - 2]);
        }
    }
}

} // verus!
