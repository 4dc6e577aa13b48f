//! Which dock item a running window joins.
use super::types::{is_app, items_view, DockItem, DockItemView, WindowInfo, WindowInfoView};
use crate::desktop::{app_matches_window, lookup, DesktopAppView, DesktopIndex};
use crate::seqs::{first_where, lemma_first_where_is, lemma_first_where_none};
use crate::text::{eq_ic, lemma_eq_ic_symmetric, opt_view, str_eq_ic};
use vstd::prelude::*;

verus! {

/// Both classes are present and equal ignoring ASCII case.
pub open spec fn classes_match_spec(left: Option<Seq<char>>, right: Option<Seq<char>>) -> bool {
    match (left, right) {
        (Some(l), Some(r)) => eq_ic(l, r),
        _ => false,
    }
}

/// An application item claims a window: through its desktop entry when the
/// index knows it, else by window class.
pub open spec fn item_claims_window(
    index: Seq<DesktopAppView>,
    item: DockItemView,
    w: WindowInfoView,
) -> bool {
    is_app(item) && match item.desktop_id {
        Some(id) => match lookup(index, id) {
            Some(app) => app_matches_window(app, w),
            None => classes_match_spec(item.startup_wm_class, w.class),
        },
        None => classes_match_spec(item.startup_wm_class, w.class),
    }
}

pub open spec fn claiming(index: Seq<DesktopAppView>, w: WindowInfoView) -> spec_fn(
    DockItemView,
) -> bool {
    |item: DockItemView| item_claims_window(index, item, w)
}

/// Two optional window classes match: both present and equal ignoring ASCII
/// case.
pub fn classes_match(left: Option<&str>, right: Option<&str>) -> (r: bool)
    ensures
        r == (match (left, right) {
            (Some(l), Some(rr)) => eq_ic(l@, rr@),
            _ => false,
        }),
{
    match (left, right) {
        (Some(l), Some(rr)) => str_eq_ic(l, rr),
        _ => false,
    }
}

/// Matching classes is symmetric.
pub proof fn lemma_classes_match_symmetric(left: Option<Seq<char>>, right: Option<Seq<char>>)
    ensures
        classes_match_spec(left, right) == classes_match_spec(right, left),
{
    match (left, right) {
        (Some(l), Some(r)) => lemma_eq_ic_symmetric(l, r),
        _ => {},
    }
}

fn opt_classes_match(left: &Option<String>, right: &Option<String>) -> (r: bool)
    ensures
        r == classes_match_spec(opt_view(*left), opt_view(*right)),
{
    match (left, right) {
        (Some(l), Some(rr)) => str_eq_ic(l.as_str(), rr.as_str()),
        _ => false,
    }
}

fn claims_window(item: &DockItem, index: &DesktopIndex, window: &WindowInfo) -> (r: bool)
    ensures
        r == item_claims_window(index@, item@, window@),
{
    if !item.is_application() {
        return false;
    }
    match &item.desktop_id {
        Some(id) => match index.by_id(id.as_str()) {
            Some(app) => app.matches_window(window),
            None => opt_classes_match(&item.startup_wm_class, &window.class),
        },
        None => opt_classes_match(&item.startup_wm_class, &window.class),
    }
}

/// Position of the first application item that claims the window.
pub fn find_matching_item(items: &Vec<DockItem>, index: &DesktopIndex, window: &WindowInfo) -> (r:
    Option<usize>)
    ensures
        match r {
            Some(k) => k as int == first_where(items_view(items@), claiming(index@, window@)) && k
                < items@.len(),
            None => first_where(items_view(items@), claiming(index@, window@)) == -1,
        },
{
    let ghost s = items_view(items@);
    let mut i: usize = 0;
    while i < items.len()
        invariant
            i <= items.len(),
            s == items_view(items@),
            forall|k: int| 0 <= k < i ==> !claiming(index@, window@)(#[trigger] s[k]),
        decreases items.len() - i,
    {
        if claims_window(&items[i], index, window) {
            proof {
                lemma_first_where_is(s, claiming(index@, window@), i as int);
            }
            return Some(i);
        }
        i = i + 1;
    }
    proof {
        lemma_first_where_none(s, claiming(index@, window@));
    }
    None
}

} // verus!
