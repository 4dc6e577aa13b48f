//! The dock's sections: applications, a separator, applets.
use super::types::{
    active_window_in, is_app, primary_window_of, DockItemView, DockModel, DockSection,
    DockSectionKind, DockSections, WindowId,
};
use crate::seqs::{keep, lemma_keep_push};
use vstd::prelude::*;

verus! {

/// The indices `0..n`.
pub open spec fn index_seq(n: nat) -> Seq<usize> {
    Seq::new(n, |i: int| i as usize)
}

pub open spec fn app_index(s: Seq<DockItemView>) -> spec_fn(usize) -> bool {
    |i: usize| (i as int) < s.len() && is_app(s[i as int])
}

pub open spec fn applet_index(s: Seq<DockItemView>) -> spec_fn(usize) -> bool {
    |i: usize| (i as int) < s.len() && !is_app(s[i as int])
}

/// Indices of the application items, ascending.
pub open spec fn app_indices(s: Seq<DockItemView>) -> Seq<usize> {
    keep(index_seq(s.len()), app_index(s))
}

/// Indices of the applet items, ascending.
pub open spec fn applet_indices(s: Seq<DockItemView>) -> Seq<usize> {
    keep(index_seq(s.len()), applet_index(s))
}

impl DockModel {
    /// The window to raise for the item at `index`: its active window, else
    /// the first not minimized, else the first; `None` past the end.
    pub fn active_window_for(&self, index: usize) -> (r: Option<WindowId>)
        ensures
            r == (if index < self@.len() {
                primary_window_of(self@[index as int].windows)
            } else {
                None
            }),
    {
        if index >= self.items.len() {
            return None;
        }
        active_window_in(&self.items[index].windows)
    }

    /// The application indices, an empty separator, and the applet indices.
    pub fn sections(&self) -> (r: DockSections)
        ensures
            r.applications.kind == DockSectionKind::Applications,
            r.separator.kind == DockSectionKind::Separator,
            r.applets.kind == DockSectionKind::Applets,
            r.applications.item_indices@ == app_indices(self@),
            r.separator.item_indices@.len() == 0,
            r.applets.item_indices@ == applet_indices(self@),
    {
        let ghost s = self@;
        let ghost idx = index_seq(s.len());
        let mut apps: Vec<usize> = Vec::new();
        let mut applets: Vec<usize> = Vec::new();
        let mut i: usize = 0;
        assert(idx.take(0) =~= Seq::<usize>::empty());
        assert(keep(Seq::<usize>::empty(), app_index(s)) == Seq::<usize>::empty());
        assert(keep(Seq::<usize>::empty(), applet_index(s)) == Seq::<usize>::empty());
        while i < self.items.len()
            invariant
                i <= self.items.len(),
                s == self@,
                idx == index_seq(s.len()),
                apps@ == keep(idx.take(i as int), app_index(s)),
                applets@ == keep(idx.take(i as int), applet_index(s)),
            decreases self.items.len() - i,
        {
            proof {
                assert(idx.take(i + 1) =~= idx.take(i as int).push(i));
                lemma_keep_push(idx.take(i as int), i, app_index(s));
                lemma_keep_push(idx.take(i as int), i, applet_index(s));
                assert(s[i as int] == self.items@[i as int]@);
            }
            if self.items[i].is_application() {
                apps.push(i);
            } else {
                applets.push(i);
            }
            i = i + 1;
        }
        assert(idx.take(self.items.len() as int) =~= idx);
        DockSections {
            applications: DockSection { kind: DockSectionKind::Applications, item_indices: apps },
            separator: DockSection { kind: DockSectionKind::Separator, item_indices: Vec::new() },
            applets: DockSection { kind: DockSectionKind::Applets, item_indices: applets },
        }
    }
}

} // verus!
