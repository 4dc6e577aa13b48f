use osdockx::autostart::{desktop_entry, desktop_exec_arg, launcher_desktop_entry};

#[test]
fn launcher_desktop_entry_omits_icon() {
    let entry = launcher_desktop_entry("osdockx");

    assert!(entry.contains("Exec=osdockx\n"));
    assert!(!entry.contains("Icon="));
    assert!(!entry.contains("Autostart"));
}

#[test]
fn autostart_desktop_entry_marks_autostart_enabled() {
    let entry = desktop_entry("osdockx", true);

    assert!(entry.contains("Exec=osdockx\n"));
    assert!(entry.contains("X-GNOME-Autostart-enabled=true\n"));
    assert!(!entry.contains("Icon="));
}

#[test]
fn desktop_exec_arg_quotes_paths_with_spaces() {
    let arg = desktop_exec_arg("/home/test user/.local/bin/osdockx");

    assert_eq!(arg, "\"/home/test user/.local/bin/osdockx\"");
}

#[test]
fn desktop_entry_without_autostart_has_no_autostart_line() {
    let entry = desktop_entry("osdockx", false);

    assert!(entry.contains("Exec=osdockx\n"));
    assert!(!entry.contains("X-GNOME-Autostart-enabled"));
    assert_eq!(entry, launcher_desktop_entry("osdockx"));
}

#[test]
fn desktop_exec_arg_leaves_plain_paths_alone() {
    assert_eq!(desktop_exec_arg("/usr/bin/osdockx"), "/usr/bin/osdockx");
}

#[test]
fn desktop_exec_arg_escapes_quotes_and_backslashes() {
    assert_eq!(desktop_exec_arg("/tmp/a\"b"), "\"/tmp/a\\\"b\"");
    assert_eq!(desktop_exec_arg("/tmp/a\\b c"), "\"/tmp/a\\\\b c\"");
}
