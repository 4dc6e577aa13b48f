//! When an auto-hiding dock slides away.
use vstd::prelude::*;

verus! {

/// Whether leaving the dock with the pointer starts the hide delay: only
/// for an auto-hiding dock, with no context menu open and no separator
/// resize under way.
pub fn hide_on_leave(autohide: bool, menu_open: bool, resizing: bool) -> (r: bool)
    ensures
        r == (autohide && !menu_open && !resizing),
{
    autohide && !menu_open && !resizing
}

/// Whether the dock hides when the delay ends: the pointer has not come
/// back, no context menu opened, no resize started, and it is not hidden
/// already.
pub fn hides_after_delay(hovering: bool, menu_open: bool, resizing: bool, hidden: bool) -> (r: bool)
    ensures
        r == (!hovering && !menu_open && !resizing && !hidden),
{
    !hovering && !menu_open && !resizing && !hidden
}

} // verus!
