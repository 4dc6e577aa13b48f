//! The user's saved item order and drag-to-reorder.
use super::types::{config_key_of, is_app, items_view, DockItem, DockItemView, DockModel};
use super::assemble::strings_view;
use crate::seqs::{
    first_where, keep, lemma_first_where, lemma_first_where_is, lemma_first_where_none,
    lemma_keep_keep, lemma_keep_push, lemma_keep_same,
};
use crate::text::{chars_of, eq_ic, vec_eq_ic};
use vstd::prelude::*;

verus! {

pub open spec fn app_filter() -> spec_fn(DockItemView) -> bool {
    |x: DockItemView| is_app(x)
}

pub open spec fn applet_filter() -> spec_fn(DockItemView) -> bool {
    |x: DockItemView| !is_app(x)
}

/// Application items, in order.
pub open spec fn app_part(s: Seq<DockItemView>) -> Seq<DockItemView> {
    keep(s, app_filter())
}

/// Applet items, in order.
pub open spec fn applet_part(s: Seq<DockItemView>) -> Seq<DockItemView> {
    keep(s, applet_filter())
}

pub open spec fn key_is(key: Seq<char>) -> spec_fn(Seq<char>) -> bool {
    |k: Seq<char>| eq_ic(k, key)
}

/// Position of an item's key in the saved order (ignoring ASCII case), or -1.
pub open spec fn pos_of(keys: Seq<Seq<char>>, item: DockItemView) -> int {
    first_where(keys, key_is(config_key_of(item)))
}

pub open spec fn at_pos(keys: Seq<Seq<char>>, p: int) -> spec_fn(DockItemView) -> bool {
    |x: DockItemView| pos_of(keys, x) == p
}

/// The items whose key sits at position `p` of the saved order (-1: absent).
pub open spec fn bucket(s: Seq<DockItemView>, keys: Seq<Seq<char>>, p: int) -> Seq<DockItemView> {
    keep(s, at_pos(keys, p))
}

/// The buckets of positions `0..p`, in order.
pub open spec fn buckets_upto(s: Seq<DockItemView>, keys: Seq<Seq<char>>, p: nat) -> Seq<
    DockItemView,
>
    decreases p,
{
    if p == 0 {
        Seq::empty()
    } else {
        buckets_upto(s, keys, (p - 1) as nat) + bucket(s, keys, p - 1)
    }
}

/// Stable sort by saved position; items with no saved position go last.
pub open spec fn sort_by_order(s: Seq<DockItemView>, keys: Seq<Seq<char>>) -> Seq<DockItemView> {
    buckets_upto(s, keys, keys.len()) + bucket(s, keys, -1)
}

/// Applications, then applets, each sorted by the saved order; nothing
/// changes when the order is empty or there is at most one item.
pub open spec fn apply_order_spec(s: Seq<DockItemView>, keys: Seq<Seq<char>>) -> Seq<
    DockItemView,
> {
    if keys.len() == 0 || s.len() < 2 {
        s
    } else {
        sort_by_order(app_part(s), keys) + sort_by_order(applet_part(s), keys)
    }
}

/// The saved-order keys of the items, in item order.
pub open spec fn config_keys(s: Seq<DockItemView>) -> Seq<Seq<char>> {
    s.map_values(|i: DockItemView| config_key_of(i))
}

pub open spec fn key_matches(key: Seq<char>) -> spec_fn(DockItemView) -> bool {
    |x: DockItemView| eq_ic(config_key_of(x), key)
}

/// Moving the item with a key within its own section: the result flag and
/// the new items. The items always come back as applications then applets.
pub open spec fn move_spec(s: Seq<DockItemView>, key: Seq<char>, target: int) -> (bool, Seq<
    DockItemView,
>) {
    let apps = app_part(s);
    let applets = applet_part(s);
    let moving_applet = first_where(applets, key_matches(key)) >= 0;
    let tgt = if moving_applet {
        applets
    } else {
        apps
    };
    let c = first_where(tgt, key_matches(key));
    let t = if target < tgt.len() - 1 {
        target
    } else {
        tgt.len() - 1
    };
    if c < 0 || c == t {
        (false, apps + applets)
    } else {
        let moved = tgt.remove(c).insert(t, tgt[c]);
        if moving_applet {
            (true, apps + moved)
        } else {
            (true, moved + applets)
        }
    }
}

fn split_items_by_section(items: Vec<DockItem>) -> (r: (Vec<DockItem>, Vec<DockItem>))
    ensures
        items_view(r.0@) == app_part(items_view(items@)),
        items_view(r.1@) == applet_part(items_view(items@)),
{
    let ghost s = items_view(items@);
    let mut rest = items;
    let mut apps: Vec<DockItem> = Vec::new();
    let mut applets: Vec<DockItem> = Vec::new();
    let mut i: usize = 0;
    let n = rest.len();
    assert(s.take(0) =~= Seq::<DockItemView>::empty());
    assert(keep(Seq::<DockItemView>::empty(), app_filter()) == Seq::<DockItemView>::empty());
    assert(keep(Seq::<DockItemView>::empty(), applet_filter()) == Seq::<DockItemView>::empty());
    while rest.len() > 0
        invariant
            i <= s.len(),
            s.len() == i + rest@.len(),
            s.len() <= usize::MAX,
            items_view(rest@) == s.skip(i as int),
            items_view(apps@) == keep(s.take(i as int), app_filter()),
            items_view(applets@) == keep(s.take(i as int), applet_filter()),
        decreases rest.len(),
    {
        let ghost before_rest = rest@;
        let item = rest.remove(0);
        let ghost x = item@;
        proof {
            assert(items_view(before_rest)[0] == x);
            assert(x == s[i as int]);
            assert forall|k: int| 0 <= k < rest@.len() implies items_view(rest@)[k] == s.skip(
                i + 1,
            )[k] by {
                assert(rest@[k] == before_rest[k + 1]);
                assert(items_view(before_rest)[k + 1] == before_rest[k + 1]@);
                assert(s.skip(i as int)[k + 1] == s.skip(i + 1)[k]);
            }
            assert(items_view(rest@) =~= s.skip(i + 1));
            assert(s.take(i + 1) =~= s.take(i as int).push(x));
            lemma_keep_push(s.take(i as int), x, app_filter());
            lemma_keep_push(s.take(i as int), x, applet_filter());
        }
        if item.is_application() {
            let ghost before = items_view(apps@);
            apps.push(item);
            assert(items_view(apps@) =~= before.push(x));
        } else {
            let ghost before = items_view(applets@);
            applets.push(item);
            assert(items_view(applets@) =~= before.push(x));
        }
        i = i + 1;
    }
    assert(s.take(i as int) =~= s);
    (apps, applets)
}

/// Position of `key` in the saved order, ignoring ASCII case.
fn order_position(keys: &[String], key: &Vec<char>) -> (r: Option<usize>)
    ensures
        match r {
            Some(k) => k as int == first_where(strings_view(keys@), key_is(key@)),
            None => first_where(strings_view(keys@), key_is(key@)) == -1,
        },
{
    let ghost s = strings_view(keys@);
    let mut i: usize = 0;
    while i < keys.len()
        invariant
            i <= keys@.len(),
            s == strings_view(keys@),
            forall|k: int| 0 <= k < i ==> !key_is(key@)(#[trigger] s[k]),
        decreases keys.len() - i,
    {
        if vec_eq_ic(&chars_of(keys[i].as_str()), key) {
            proof {
                lemma_first_where_is(s, key_is(key@), i as int);
            }
            return Some(i);
        }
        i = i + 1;
    }
    proof {
        lemma_first_where_none(s, key_is(key@));
    }
    None
}

pub open spec fn outside_upto(keys: Seq<Seq<char>>, p: int) -> spec_fn(DockItemView) -> bool {
    |x: DockItemView| !(0 <= pos_of(keys, x) < p)
}

proof fn lemma_pass(s: Seq<DockItemView>, keys: Seq<Seq<char>>, p: int)
    requires
        0 <= p,
    ensures
        keep(keep(s, outside_upto(keys, p)), at_pos(keys, p)) == bucket(s, keys, p),
        keep(keep(s, outside_upto(keys, p)), |x: DockItemView| !at_pos(keys, p)(x)) == keep(
            s,
            outside_upto(keys, p + 1),
        ),
{
    lemma_keep_keep(s, outside_upto(keys, p), at_pos(keys, p));
    lemma_keep_same(
        s,
        |x: DockItemView| outside_upto(keys, p)(x) && at_pos(keys, p)(x),
        at_pos(keys, p),
    );
    let np = |x: DockItemView| !at_pos(keys, p)(x);
    lemma_keep_keep(s, outside_upto(keys, p), np);
    lemma_keep_same(
        s,
        |x: DockItemView| outside_upto(keys, p)(x) && np(x),
        outside_upto(keys, p + 1),
    );
}

/// Items in saved-order position, stably.
fn sort_items_by_order(items: Vec<DockItem>, keys: &[String]) -> (r: Vec<DockItem>)
    ensures
        items_view(r@) == sort_by_order(items_view(items@), strings_view(keys@)),
{
    let ghost s = items_view(items@);
    let ghost kv = strings_view(keys@);
    let mut rest = items;
    let mut out: Vec<DockItem> = Vec::new();
    let mut p: usize = 0;
    proof {
        lemma_keep_same(s, outside_upto(kv, 0), |x: DockItemView| true);
        crate::seqs::lemma_keep_all(s, |x: DockItemView| true);
    }
    assert(items_view(out@) =~= Seq::<DockItemView>::empty());
    while p < keys.len()
        invariant
            p <= keys@.len(),
            kv == strings_view(keys@),
            items_view(out@) == buckets_upto(s, kv, p as nat),
            items_view(rest@) == keep(s, outside_upto(kv, p as int)),
        decreases keys.len() - p,
    {
        let ghost r0 = items_view(rest@);
        let ghost out0 = items_view(out@);
        let mut next: Vec<DockItem> = Vec::new();
        let mut t: usize = 0;
        let n = rest.len();
        let ghost np = |x: DockItemView| !at_pos(kv, p as int)(x);
        assert(r0.take(0) =~= Seq::<DockItemView>::empty());
        assert(keep(Seq::<DockItemView>::empty(), at_pos(kv, p as int)) == Seq::<
            DockItemView,
        >::empty());
        assert(keep(Seq::<DockItemView>::empty(), np) == Seq::<DockItemView>::empty());
        assert(out0 + Seq::<DockItemView>::empty() =~= out0);
        assert(items_view(next@) =~= Seq::<DockItemView>::empty());
        while rest.len() > 0
            invariant
                t <= r0.len(),
                r0.len() == t + rest@.len(),
                r0.len() <= usize::MAX,
                p < keys@.len(),
                kv == strings_view(keys@),
                np == (|x: DockItemView| !at_pos(kv, p as int)(x)),
                items_view(rest@) == r0.skip(t as int),
                items_view(out@) == out0 + keep(r0.take(t as int), at_pos(kv, p as int)),
                items_view(next@) == keep(r0.take(t as int), np),
            decreases rest.len(),
        {
            let ghost before_rest = rest@;
            let item = rest.remove(0);
            let ghost x = item@;
            proof {
                assert(items_view(before_rest)[0] == x);
                assert(x == r0[t as int]);
                assert forall|k: int| 0 <= k < rest@.len() implies items_view(rest@)[k] == r0.skip(
                    t + 1,
                )[k] by {
                    assert(rest@[k] == before_rest[k + 1]);
                    assert(items_view(before_rest)[k + 1] == before_rest[k + 1]@);
                    assert(r0.skip(t as int)[k + 1] == r0.skip(t + 1)[k]);
                }
                assert(items_view(rest@) =~= r0.skip(t + 1));
                assert(r0.take(t + 1) =~= r0.take(t as int).push(x));
                lemma_keep_push(r0.take(t as int), x, at_pos(kv, p as int));
                lemma_keep_push(r0.take(t as int), x, np);
            }
            let key = item.config_key();
            let pos = order_position(keys, &chars_of(key.as_str()));
            let here = match pos {
                Some(q) => q == p,
                None => false,
            };
            assert(here == at_pos(kv, p as int)(x));
            if here {
                let ghost before = items_view(out@);
                out.push(item);
                assert(items_view(out@) =~= before.push(x));
                assert(out0 + keep(r0.take(t as int), at_pos(kv, p as int)).push(x) =~= (out0
                    + keep(r0.take(t as int), at_pos(kv, p as int))).push(x));
            } else {
                let ghost before = items_view(next@);
                next.push(item);
                assert(items_view(next@) =~= before.push(x));
            }
            t = t + 1;
        }
        assert(r0.take(t as int) =~= r0);
        proof {
            lemma_pass(s, kv, p as int);
        }
        rest = next;
        p = p + 1;
    }
    proof {
        assert forall|i: int| 0 <= i < s.len() implies outside_upto(kv, kv.len() as int)(
            #[trigger] s[i],
        ) == at_pos(kv, -1)(s[i]) by {
            lemma_first_where(kv, key_is(config_key_of(s[i])));
        }
        lemma_keep_same(s, outside_upto(kv, kv.len() as int), at_pos(kv, -1));
    }
    let ghost before = items_view(out@);
    let ghost tail = items_view(rest@);
    out.append(&mut rest);
    assert(items_view(out@) =~= before + tail);
    out
}

proof fn lemma_items_view_append(a: Seq<DockItem>, b: Seq<DockItem>)
    ensures
        items_view(a + b) == items_view(a) + items_view(b),
{
    assert(items_view(a + b) =~= items_view(a) + items_view(b));
}

impl DockModel {
    /// Reorders items by the saved order: applications first, then applets,
    /// each stably sorted by the position of its key (ignoring ASCII case),
    /// unknown keys last. Nothing changes for an empty order or fewer than two
    /// items.
    pub fn apply_order(&mut self, ordered_keys: &[String])
        ensures
            final(self)@ == apply_order_spec(old(self)@, strings_view(ordered_keys@)),
    {
        if ordered_keys.len() == 0 || self.items.len() < 2 {
            return;
        }
        let mut taken: Vec<DockItem> = Vec::new();
        std::mem::swap(&mut taken, &mut self.items);
        let (applications, applets) = split_items_by_section(taken);
        let mut sorted_apps = sort_items_by_order(applications, ordered_keys);
        let mut sorted_applets = sort_items_by_order(applets, ordered_keys);
        let ghost a = sorted_apps@;
        let ghost b = sorted_applets@;
        sorted_apps.append(&mut sorted_applets);
        proof {
            lemma_items_view_append(a, b);
        }
        self.items = sorted_apps;
    }

    /// The saved-order keys of the items, in item order.
    pub fn config_order(&self) -> (r: Vec<String>)
        ensures
            strings_view(r@) == config_keys(self@),
    {
        let mut out: Vec<String> = Vec::new();
        let mut i: usize = 0;
        while i < self.items.len()
            invariant
                i <= self.items.len(),
                strings_view(out@) == self@.take(i as int).map_values(
                    |i: DockItemView| config_key_of(i),
                ),
            decreases self.items.len() - i,
        {
            let k = self.items[i].config_key();
            let ghost before = strings_view(out@);
            out.push(k);
            assert(self@[i as int] == self.items@[i as int]@);
            assert(k@ == config_key_of(self@[i as int]));
            assert(strings_view(out@) =~= before.push(k@));
            assert(self@.take(i + 1) =~= self@.take(i as int).push(self@[i as int]));
            assert(strings_view(out@) =~= self@.take(i + 1).map_values(
                |i: DockItemView| config_key_of(i),
            ));
            i = i + 1;
        }
        assert(self@.take(self.items.len() as int) =~= self@);
        out
    }

    /// Moves the item with the given key (ignoring ASCII case) to `target_index`
    /// within its own section, clamped to the section's end. Returns whether it
    /// moved. Either way the items come back as applications then applets.
    pub fn move_item_by_key_to_index(&mut self, item_key: &str, target_index: usize) -> (r: bool)
        ensures
            (r, final(self)@) == move_spec(old(self)@, item_key@, target_index as int),
    {
        let ghost s = old(self)@;
        let key = chars_of(item_key);
        let mut taken: Vec<DockItem> = Vec::new();
        std::mem::swap(&mut taken, &mut self.items);
        let (mut applications, mut applets) = split_items_by_section(taken);
        let ghost apps_v = items_view(applications@);
        let ghost applets_v = items_view(applets@);
        let app_pos = position_by_key(&applets, &key);
        let moving_applet = app_pos.is_some();
        let current = if moving_applet {
            app_pos
        } else {
            position_by_key(&applications, &key)
        };
        let current_index = match current {
            None => {
                let ghost a = applications@;
                let ghost b = applets@;
                applications.append(&mut applets);
                proof {
                    lemma_items_view_append(a, b);
                }
                self.items = applications;
                return false;
            },
            Some(c) => c,
        };
        let len = if moving_applet {
            applets.len()
        } else {
            applications.len()
        };
        let target = if target_index < len - 1 {
            target_index
        } else {
            len - 1
        };
        if current_index == target {
            let ghost a = applications@;
            let ghost b = applets@;
            applications.append(&mut applets);
            proof {
                lemma_items_view_append(a, b);
            }
            self.items = applications;
            return false;
        }
        if moving_applet {
            let ghost before = applets@;
            let item = applets.remove(current_index);
            applets.insert(target, item);
            assert(items_view(applets@) =~= applets_v.remove(current_index as int).insert(
                target as int,
                applets_v[current_index as int],
            ));
        } else {
            let ghost before = applications@;
            let item = applications.remove(current_index);
            applications.insert(target, item);
            assert(items_view(applications@) =~= apps_v.remove(current_index as int).insert(
                target as int,
                apps_v[current_index as int],
            ));
        }
        let ghost a = applications@;
        let ghost b = applets@;
        applications.append(&mut applets);
        proof {
            lemma_items_view_append(a, b);
        }
        self.items = applications;
        true
    }
}

fn position_by_key(items: &Vec<DockItem>, key: &Vec<char>) -> (r: Option<usize>)
    ensures
        match r {
            Some(k) => k as int == first_where(items_view(items@), key_matches(key@)) && k
                < items@.len(),
            None => first_where(items_view(items@), key_matches(key@)) == -1,
        },
{
    let ghost s = items_view(items@);
    let mut i: usize = 0;
    while i < items.len()
        invariant
            i <= items.len(),
            s == items_view(items@),
            forall|k: int| 0 <= k < i ==> !key_matches(key@)(#[trigger] s[k]),
        decreases items.len() - i,
    {
        let k = items[i].config_key();
        if vec_eq_ic(&chars_of(k.as_str()), key) {
            proof {
                lemma_first_where_is(s, key_matches(key@), i as int);
            }
            return Some(i);
        }
        i = i + 1;
    }
    proof {
        lemma_first_where_none(s, key_matches(key@));
    }
    None
}

} // verus!
