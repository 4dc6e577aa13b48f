//! Which items appear and disappear between two models, by saved-order key
//! ignoring ASCII case: what decides the dock's appear and disappear
//! animation.
use super::ordering::config_keys;
use super::types::DockModel;
use crate::config::edits::{listed_ic, listed_ignoring_case};
use crate::model::assemble::strings_view;
use vstd::prelude::*;

verus! {

/// Some key of `a` is not listed in `b`.
pub open spec fn some_unlisted(a: Seq<Seq<char>>, b: Seq<Seq<char>>) -> bool {
    exists|i: int| 0 <= i < a.len() && !listed_ic(b, #[trigger] a[i])
}

/// Whether the items changed from the keys `before` to `after`, and if so
/// whether some were inserted and some removed. Nothing changes from an
/// empty dock.
pub open spec fn presence_change_spec(before: Seq<Seq<char>>, after: Seq<Seq<char>>) -> Option<(bool, bool)> {
    let inserted = some_unlisted(after, before);
    let removed = some_unlisted(before, after);
    if before.len() == 0 {
        None
    } else if before.len() != after.len() || inserted || removed {
        Some((inserted, removed))
    } else {
        None
    }
}

/// The positions in `before` whose keys `after` lacks, in order.
pub open spec fn departed_spec(before: Seq<Seq<char>>, after: Seq<Seq<char>>) -> Seq<usize>
    decreases before.len(),
{
    if before.len() == 0 {
        Seq::empty()
    } else {
        let rest = departed_spec(before.drop_last(), after);
        if listed_ic(after, before.last()) {
            rest
        } else {
            rest.push((before.len() - 1) as usize)
        }
    }
}

fn any_unlisted(a: &Vec<String>, b: &Vec<String>) -> (r: bool)
    ensures
        r == some_unlisted(strings_view(a@), strings_view(b@)),
{
    let mut i: usize = 0;
    while i < a.len()
        invariant
            i <= a.len(),
            forall|j: int| 0 <= j < i ==> listed_ic(strings_view(b@), #[trigger] strings_view(a@)[j]),
        decreases a.len() - i,
    {
        if !listed_ignoring_case(b, a[i].as_str()) {
            assert(strings_view(a@)[i as int] == a@[i as int]@);
            return true;
        }
        i = i + 1;
    }
    false
}

impl DockModel {
    /// How the items change to those of `next`: `None` when the dock was
    /// empty or holds the same keys; else whether items were inserted and
    /// whether items were removed.
    pub fn presence_change(&self, next: &DockModel) -> (r: Option<(bool, bool)>)
        ensures
            r == presence_change_spec(config_keys(self@), config_keys(next@)),
    {
        let before = self.config_order();
        let after = next.config_order();
        if before.len() == 0 {
            return None;
        }
        let inserted = any_unlisted(&after, &before);
        let removed = any_unlisted(&before, &after);
        if before.len() != after.len() || inserted || removed {
            Some((inserted, removed))
        } else {
            None
        }
    }

    /// The positions of the items that `next` no longer holds, in order.
    pub fn departed_items(&self, next: &DockModel) -> (r: Vec<usize>)
        ensures
            r@ == departed_spec(config_keys(self@), config_keys(next@)),
    {
        let before = self.config_order();
        let after = next.config_order();
        let ghost b = strings_view(before@);
        let ghost a = strings_view(after@);
        let mut out: Vec<usize> = Vec::new();
        let mut i: usize = 0;
        while i < before.len()
            invariant
                i <= before.len(),
                b == strings_view(before@),
                a == strings_view(after@),
                out@ == departed_spec(b.take(i as int), a),
            decreases before.len() - i,
        {
            assert(b.take(i + 1).drop_last() =~= b.take(i as int));
            assert(b.take(i + 1).last() == before@[i as int]@);
            if !listed_ignoring_case(&after, before[i].as_str()) {
                out.push(i);
            }
            i = i + 1;
        }
        assert(b.take(before.len() as int) =~= b);
        out
    }
}

/// A model compared with itself shows no change and no departed item.
pub proof fn lemma_no_change_against_itself(keys: Seq<Seq<char>>)
    ensures
        presence_change_spec(keys, keys) is None,
        departed_spec(keys, keys).len() == 0,
{
    assert forall|i: int| 0 <= i < keys.len() implies listed_ic(keys, #[trigger] keys[i]) by {
        assert(crate::text::eq_ic(keys[i], keys[i]));
    }
    lemma_departed_none(keys, keys);
}

/// Keys that `after` all lists leave no departed position.
proof fn lemma_departed_none(before: Seq<Seq<char>>, after: Seq<Seq<char>>)
    requires
        forall|i: int| 0 <= i < before.len() ==> listed_ic(after, #[trigger] before[i]),
    ensures
        departed_spec(before, after).len() == 0,
    decreases before.len(),
{
    if before.len() > 0 {
        let t = before.drop_last();
        assert forall|i: int| 0 <= i < t.len() implies listed_ic(after, #[trigger] t[i]) by {
            assert(t[i] == before[i]);
        }
        lemma_departed_none(t, after);
        assert(listed_ic(after, before[before.len() - 1]));
    }
}

} // verus!
