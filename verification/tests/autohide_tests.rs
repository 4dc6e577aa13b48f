use osdockx::autohide::{hide_on_leave, hides_after_delay};

#[test]
fn leaving_an_autohiding_dock_starts_the_delay() {
    assert!(hide_on_leave(true, false, false));
    assert!(!hide_on_leave(false, false, false));
    assert!(!hide_on_leave(true, true, false));
    assert!(!hide_on_leave(true, false, true));
}

#[test]
fn the_dock_hides_only_when_still_left_alone() {
    assert!(hides_after_delay(false, false, false, false));
    assert!(!hides_after_delay(true, false, false, false));
    assert!(!hides_after_delay(false, true, false, false));
    assert!(!hides_after_delay(false, false, true, false));
    assert!(!hides_after_delay(false, false, false, true));
}
