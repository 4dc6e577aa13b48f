use osdockx::config::{
    config_path, dedupe_applets, dedupe_case_insensitive, normalize_custom_icon_key,
    normalize_pinned_id, AppletConfig, AppletKind, Config, DockEdge, RenderMode, ShelfStyle,
};

fn folder(label: &str, path: Option<&str>, icon: Option<&str>) -> AppletConfig {
    AppletConfig {
        kind: AppletKind::Folder,
        label: label.to_string(),
        path: path.map(str::to_string),
        icon_name: icon.map(str::to_string),
    }
}

#[test]
fn normalizes_risky_list_and_size_values() {
    let mut config = Config::default();
    config.dock.edge = DockEdge::Left;
    config.dock.icon_size = 8;
    config.dock.refresh_ms = 1;
    config.pinned = vec!["org.xfce.Terminal.desktop".to_string()];
    config.hidden = vec![
        " org.xfce.Terminal.desktop ".to_string(),
        "Org.Xfce.Terminal.desktop".to_string(),
        " ".to_string(),
    ];
    config.applets = vec![
        folder(" Downloads ", Some("/tmp/Downloads"), Some(" folder ")),
        folder("Duplicate", Some("/tmp/Downloads"), None),
        folder("Broken", None, None),
    ];
    config.item_order = vec![
        "org.xfce.Terminal.desktop".to_string(),
        "org.xfce.Terminal.desktop".to_string(),
        " ".to_string(),
    ];
    config.custom_icons = vec![
        (" org.xfce.Terminal.desktop ".to_string(), " /tmp/terminal.png ".to_string()),
        ("empty.desktop".to_string(), " ".to_string()),
    ];

    let config = config.normalized();

    assert_eq!(config.dock.edge, DockEdge::Bottom);
    assert_eq!(config.dock.icon_size, 24);
    assert_eq!(config.dock.refresh_ms, 100);
    assert_eq!(config.pinned, vec!["xfce4-terminal.desktop"]);
    assert_eq!(config.hidden, vec!["xfce4-terminal.desktop"]);
    assert_eq!(config.applets.len(), 1);
    assert_eq!(config.applets[0].label, "Downloads");
    assert_eq!(config.applets[0].icon_name.as_deref(), Some("folder"));
    assert_eq!(config.item_order, vec!["xfce4-terminal.desktop"]);
    assert_eq!(
        config.custom_icons,
        vec![("xfce4-terminal.desktop".to_string(), "/tmp/terminal.png".to_string())]
    );
}

#[test]
fn default_config_is_stable_under_normalization() {
    let config = Config::default().normalized();
    assert_eq!(config, config.clone().normalized());
    assert_eq!(config.theme.preset, "leopard");
    assert_eq!(config.theme.shelf_style, ShelfStyle::LeopardPlank);
    assert_eq!(config.theme.renderer, None::<RenderMode>);
    assert_eq!(
        config.pinned,
        vec![
            "xfce4-terminal.desktop",
            "thunar.desktop",
            "firefox.desktop",
            "xfce-settings-manager.desktop"
        ]
    );
    assert_eq!(config.dock.icon_size, 64);
    assert_eq!(config.dock.refresh_ms, 500);
}

#[test]
fn normalization_clamps_large_values_and_blank_preset() {
    let mut config = Config::default();
    config.dock.icon_size = 900;
    config.dock.refresh_ms = 60_000;
    config.theme.preset = "   ".to_string();
    let config = config.normalized();
    assert_eq!(config.dock.icon_size, 160);
    assert_eq!(config.dock.refresh_ms, 5000);
    assert_eq!(config.theme.preset, "leopard");
    let mut custom = Config::default();
    custom.theme.preset = " crystal ".to_string();
    assert_eq!(custom.normalized().theme.preset, "crystal");
}

#[test]
fn later_icon_overrides_win_after_normalization() {
    let mut config = Config::default();
    config.custom_icons = vec![
        ("Thunar.desktop".to_string(), "/a.png".to_string()),
        (" thunar.desktop".to_string(), "/b.png ".to_string()),
        ("applet:trash".to_string(), "/t.png".to_string()),
    ];
    let config = config.normalized();
    assert_eq!(
        config.custom_icons,
        vec![
            ("thunar.desktop".to_string(), "/b.png".to_string()),
            ("applet:trash".to_string(), "/t.png".to_string()),
        ]
    );
}

#[test]
fn pinned_id_aliases_are_canonical() {
    assert_eq!(normalize_pinned_id(" org.xfce.terminal.desktop"), "xfce4-terminal.desktop");
    assert_eq!(normalize_pinned_id("Thunar.desktop"), "thunar.desktop");
    assert_eq!(
        normalize_pinned_id("org.xfce.Settings.Manager.desktop"),
        "xfce-settings-manager.desktop"
    );
    assert_eq!(normalize_pinned_id(" Firefox.desktop "), "Firefox.desktop");
    assert_eq!(normalize_custom_icon_key(" applet:trash "), "applet:trash");
    assert_eq!(normalize_custom_icon_key("Org.Xfce.Terminal.DESKTOP"), "xfce4-terminal.desktop");
}

#[test]
fn dedupe_keeps_first_spelling() {
    let mut values = vec!["A".to_string(), "b".to_string(), "a".to_string(), "B".to_string()];
    dedupe_case_insensitive(&mut values);
    assert_eq!(values, vec!["A", "b"]);
    let mut applets = vec![
        folder("One", Some("/tmp/X"), None),
        folder("None", None, None),
        folder("Two", Some("/tmp/x"), None),
        folder("Three", Some("/tmp/y"), None),
    ];
    dedupe_applets(&mut applets);
    assert_eq!(applets.iter().map(|a| a.label.as_str()).collect::<Vec<_>>(), vec!["One", "Three"]);
}

#[test]
fn folder_applets_are_labelled_by_folder_name() {
    let applet = AppletConfig::folder("/home/me/Projects/".to_string());
    assert_eq!(applet.label, "Projects");
    assert_eq!(applet.path.as_deref(), Some("/home/me/Projects/"));
    assert_eq!(applet.icon_name.as_deref(), Some("folder"));
    assert_eq!(AppletConfig::folder("/".to_string()).label, "/");
    assert_eq!(AppletConfig::folder(" ".to_string()).label, "Folder");
}

#[test]
fn config_file_sits_in_the_config_directory() {
    assert_eq!(config_path("/home/me/.config/osdockx"), "/home/me/.config/osdockx/config.toml");
    assert_eq!(config_path("/home/me/.config/osdockx/"), "/home/me/.config/osdockx/config.toml");
}

#[test]
fn hiding_unpins_and_forgets_order() {
    let mut config = Config::default();
    config.item_order = vec!["Firefox.desktop".to_string(), "thunar.desktop".to_string()];
    config.hide_application_from_dock("FIREFOX.desktop");
    assert!(!config.pinned.iter().any(|p| p.eq_ignore_ascii_case("firefox.desktop")));
    assert_eq!(config.hidden, vec!["FIREFOX.desktop"]);
    assert_eq!(config.item_order, vec!["thunar.desktop"]);
    config.hide_application_from_dock("firefox.desktop");
    assert_eq!(config.hidden, vec!["FIREFOX.desktop"]);
}

#[test]
fn keep_in_dock_toggles_pinning() {
    let mut config = Config::default();
    config.hidden = vec!["gimp.desktop".to_string()];
    config.toggle_keep_in_dock("GIMP.desktop", false);
    assert_eq!(config.pinned.last().map(String::as_str), Some("GIMP.desktop"));
    assert!(config.hidden.is_empty());
    let pinned = config.pinned.clone();
    config.toggle_keep_in_dock("gimp.desktop", false);
    assert_eq!(config.pinned, pinned);
    config.toggle_keep_in_dock("gimp.DESKTOP", true);
    assert_eq!(config.pinned.len(), 4);
    config.pin_application("thunar.desktop");
    assert_eq!(config.pinned.len(), 4);
    config.pin_application("vlc.desktop");
    assert_eq!(config.pinned.len(), 5);
}

#[test]
fn folder_applets_are_added_once_and_removed_with_their_settings() {
    let mut config = Config::default();
    config.add_folder_applet("/tmp/Projects".to_string());
    config.add_folder_applet("/TMP/projects".to_string());
    assert_eq!(config.applets.len(), 1);
    config.item_order = vec!["folder:/tmp/Projects".to_string()];
    config.custom_icons = vec![
        ("FOLDER:/tmp/Projects".to_string(), "/i.png".to_string()),
        ("applet:trash".to_string(), "/t.png".to_string()),
    ];
    config.remove_folder_applet("folder:/tmp/Projects", "/tmp/projects");
    assert!(config.applets.is_empty());
    assert!(config.item_order.is_empty());
    assert_eq!(config.custom_icons, vec![("applet:trash".to_string(), "/t.png".to_string())]);
}

#[test]
fn icon_overrides_are_set_and_reset() {
    let mut config = Config::default();
    config.set_custom_icon_value("thunar.desktop", "/a.png".to_string());
    config.set_custom_icon_value("thunar.desktop", "/b.png".to_string());
    config.set_custom_icon_value("Thunar.desktop", "/c.png".to_string());
    assert_eq!(
        config.custom_icons,
        vec![
            ("thunar.desktop".to_string(), "/b.png".to_string()),
            ("Thunar.desktop".to_string(), "/c.png".to_string()),
        ]
    );
    config.reset_custom_icon("THUNAR.desktop");
    assert!(config.custom_icons.is_empty());
}
