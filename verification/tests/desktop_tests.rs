use osdockx::desktop::{desktop_id_for_path, DesktopApp, DesktopIndex};
use osdockx::model::WindowInfo;

fn app(id: &str, name: &str, class: Option<&str>, exec: Option<&str>) -> DesktopApp {
    DesktopApp {
        desktop_id: id.to_string(),
        name: name.to_string(),
        icon_name: None,
        startup_wm_class: class.map(str::to_string),
        exec_command: exec.map(str::to_string),
    }
}

fn window(class: Option<&str>, executable: Option<&str>) -> WindowInfo {
    WindowInfo {
        xid: 1,
        title: None,
        class: class.map(str::to_string),
        pid: None,
        executable: executable.map(str::to_string),
        workspace: None,
        icon: None,
        active: false,
        urgent: false,
        minimized: false,
    }
}

#[test]
fn desktop_id_uses_menu_spec_prefix_shape() {
    let root = "/usr/share/applications";
    let path = "/usr/share/applications/kde/org.kde.foo.desktop";
    assert_eq!(
        desktop_id_for_path(root, path),
        Some("kde-org.kde.foo.desktop".to_string())
    );
}

#[test]
fn desktop_id_for_paths_outside_or_at_the_root() {
    let root = "/usr/share/applications";
    assert_eq!(desktop_id_for_path(root, "/usr/share/applications/a.desktop"), Some("a.desktop".to_string()));
    assert_eq!(desktop_id_for_path(root, "/usr/share/applications//x/./y/a.desktop"), Some("x-y-a.desktop".to_string()));
    assert_eq!(desktop_id_for_path(root, "/usr/share/applications"), None);
    assert_eq!(desktop_id_for_path(root, "/usr/share/other/a.desktop"), None);
    assert_eq!(desktop_id_for_path("/usr/share/applications/", "/usr/share/applications/b/c.desktop"), Some("b-c.desktop".to_string()));
}

#[test]
fn placeholder_names_are_readable() {
    assert_eq!(
        DesktopApp::placeholder("org.xfce.Terminal.desktop").name,
        "Terminal"
    );
}

#[test]
fn placeholder_uses_menu_tail_and_lowercase_icon() {
    let app = DesktopApp::placeholder("kde-org.kde.dolphin_file-manager.desktop");
    assert_eq!(app.name, "Dolphin File Manager");
    assert_eq!(app.icon_name.as_deref(), Some("kde-org.kde.dolphin_file-manager"));
    assert_eq!(DesktopApp::placeholder("my-tool.desktop").name, "My Tool");
}

#[test]
fn executable_fallback_matches_proc_exe_basename() {
    let app = DesktopApp {
        desktop_id: "org.mozilla.firefox.desktop".to_string(),
        name: "Firefox".to_string(),
        icon_name: Some("firefox".to_string()),
        startup_wm_class: None,
        exec_command: Some("env MOZ_ENABLE_WAYLAND=0 /usr/lib/firefox/firefox %u".to_string()),
    };
    let window = WindowInfo {
        xid: 12,
        title: None,
        class: Some("Navigator".to_string()),
        pid: Some(30),
        executable: Some("/usr/lib/firefox/firefox".to_string()),
        workspace: None,
        icon: None,
        active: false,
        urgent: false,
        minimized: false,
    };

    assert!(app.matches_window(&window));
}

#[test]
fn windows_match_by_class_or_quoted_command() {
    let term = app("xterm.desktop", "XTerm", Some("XTerm"), Some("'/opt/my term/xterm' -e sh"));
    assert!(term.matches_window(&window(Some("xterm"), None)));
    assert!(term.matches_window(&window(None, Some("/usr/bin/xterm"))));
    assert!(!term.matches_window(&window(Some("other"), Some("/usr/bin/sh"))));
    assert!(!term.matches_window(&window(None, None)));
}

#[test]
fn resolves_common_xfce_terminal_alias() {
    let index = DesktopIndex::from_apps(vec![DesktopApp {
        desktop_id: "xfce4-terminal.desktop".to_string(),
        name: "Terminal".to_string(),
        icon_name: Some("utilities-terminal".to_string()),
        startup_wm_class: Some("Xfce4-terminal".to_string()),
        exec_command: Some("xfce4-terminal".to_string()),
    }]);

    assert_eq!(
        index.resolve_launch_id("org.xfce.Terminal.desktop"),
        Some("xfce4-terminal.desktop")
    );
}

#[test]
fn apps_are_sorted_by_display_name() {
    let index = DesktopIndex::from_apps(vec![
        DesktopApp {
            desktop_id: "z.desktop".to_string(),
            name: "Zulu".to_string(),
            icon_name: None,
            startup_wm_class: None,
            exec_command: None,
        },
        DesktopApp {
            desktop_id: "a.desktop".to_string(),
            name: "Alpha".to_string(),
            icon_name: None,
            startup_wm_class: None,
            exec_command: None,
        },
    ]);

    assert_eq!(
        index
            .apps()
            .into_iter()
            .map(|app| app.desktop_id.as_str())
            .collect::<Vec<_>>(),
        vec!["a.desktop", "z.desktop"]
    );
}

#[test]
fn index_looks_up_ids_ignoring_case_and_keeps_first_discovered() {
    let index = DesktopIndex::from_apps(vec![app("Foo.desktop", "Foo", None, None)]);
    assert_eq!(index.by_id("foo.DESKTOP").map(|a| a.name.as_str()), Some("Foo"));
    assert!(index.by_id("bar.desktop").is_none());
    let discovered = DesktopIndex::from_discovered(vec![
        app("a.desktop", "First", None, None),
        app("A.desktop", "Second", None, None),
    ]);
    assert_eq!(discovered.by_id("a.desktop").map(|a| a.name.as_str()), Some("First"));
    let replaced = DesktopIndex::from_apps(vec![
        app("a.desktop", "First", None, None),
        app("A.desktop", "Second", None, None),
    ]);
    assert_eq!(replaced.apps().len(), 1);
}

#[test]
fn unknown_ids_resolve_to_nothing() {
    let index = DesktopIndex::from_apps(vec![app("firefox.desktop", "Firefox", Some("firefox"), None)]);
    assert_eq!(index.resolve_launch_id("zzz.desktop"), None);
    assert_eq!(index.resolve_launch_id("FIREFOX.desktop"), Some("firefox.desktop"));
    assert!(index.match_window(&window(Some("Firefox"), None)).is_some());
    assert!(index.match_window(&window(Some("chrome"), None)).is_none());
}

#[test]
fn by_id_ignores_ascii_case_on_unique_ids() {
    let index = osdockx::desktop::DesktopIndex::from_apps(vec![
        osdockx::desktop::DesktopApp {
            desktop_id: "firefox.desktop".to_string(),
            name: "Firefox".to_string(),
            icon_name: None,
            startup_wm_class: None,
            exec_command: None,
        },
    ]);
    assert_eq!(index.by_id("FireFox.Desktop").map(|a| a.name.as_str()), Some("Firefox"));
    assert!(index.by_id("chromium.desktop").is_none());
    assert_eq!(osdockx::desktop::DesktopApp::placeholder("xfce4-terminal.desktop").name, "Xfce4 Terminal");
}
