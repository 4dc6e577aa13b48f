use osdockx::icons::icon_keys_to_try;
use osdockx::icons::{icon_lookup_keys, pixmap_candidates, premultiply, push_unique, themed_icon_name};
use osdockx::model::DockItem;

fn test_item() -> DockItem {
    DockItem {
        id: "org.example.App.desktop".to_string(),
        name: "Example".to_string(),
        desktop_id: Some("org.example.App.desktop".to_string()),
        startup_wm_class: Some("ExampleApp".to_string()),
        icon_name: Some("org.example.App.png".to_string()),
        window_icon: None,
        pinned: true,
        windows: Vec::new(),
        active: false,
        urgent: false,
        badge: None,
    }
}

#[test]
fn themed_icon_name_strips_file_extensions_only() {
    assert_eq!(
        themed_icon_name("org.example.App.png"),
        Some("org.example.App".to_string())
    );
    assert_eq!(
        themed_icon_name("org.example.App"),
        Some("org.example.App".to_string())
    );
    assert_eq!(themed_icon_name("/tmp/app.png"), None);
    assert_eq!(themed_icon_name(" "), None);
}

#[test]
fn lookup_keys_keep_desktop_icon_then_theme_fallback_names() {
    let keys = icon_lookup_keys(&test_item());
    assert_eq!(keys[0], "org.example.App.png");
    assert!(keys.contains(&"org.example.app.png".to_string()));
    assert!(keys.contains(&"ExampleApp".to_string()));
    assert!(keys.contains(&"exampleapp".to_string()));
    assert!(keys.contains(&"org.example.App.desktop".to_string()));
    assert!(keys.contains(&"org.example.App".to_string()));
}

#[test]
fn lookup_keys_are_distinct() {
    let keys = icon_lookup_keys(&test_item());
    for (i, a) in keys.iter().enumerate() {
        for b in keys.iter().skip(i + 1) {
            assert_ne!(a, b);
        }
    }
}

#[test]
fn applet_lookup_keys_fall_back_to_folder_icons() {
    let keys = icon_lookup_keys(&DockItem::downloads_applet());
    assert!(keys.contains(&"folder-download".to_string()));
    assert!(keys.contains(&"inode-directory".to_string()));
}

#[test]
fn pixmap_candidates_try_each_extension_per_directory() {
    let dirs = vec!["/usr/share".to_string(), "/opt/data/".to_string()];
    assert_eq!(
        pixmap_candidates("app.png", &dirs),
        vec![
            "/usr/share/pixmaps/app.svg",
            "/usr/share/pixmaps/app.png",
            "/usr/share/pixmaps/app.xpm",
            "/opt/data/pixmaps/app.svg",
            "/opt/data/pixmaps/app.png",
            "/opt/data/pixmaps/app.xpm",
        ]
    );
    assert!(pixmap_candidates("/abs/icon.png", &dirs).is_empty());
}

#[test]
fn push_unique_skips_present_values() {
    let mut keys = vec!["a".to_string()];
    push_unique(&mut keys, "a".to_string());
    push_unique(&mut keys, "b".to_string());
    assert_eq!(keys, vec!["a", "b"]);
}

#[test]
fn premultiply_rounds_to_nearest() {
    assert_eq!(premultiply(255, 255), 255);
    assert_eq!(premultiply(255, 128), 128);
    assert_eq!(premultiply(100, 0), 0);
    assert_eq!(premultiply(1, 127), 0);
    assert_eq!(premultiply(1, 128), 1);
}

#[test]
fn icon_keys_try_first_override_then_lookup_keys() {
    let keys = vec!["firefox.desktop".to_string(), "firefox".to_string()];
    let overrides = vec![
        ("firefox".to_string(), "/icons/old.png".to_string()),
        ("firefox".to_string(), "/icons/fox.png".to_string()),
    ];
    assert_eq!(
        icon_keys_to_try(&keys, &overrides),
        vec!["/icons/fox.png".to_string(), "firefox.desktop".to_string(), "firefox".to_string()]
    );
    assert_eq!(icon_keys_to_try(&keys, &Vec::new()), keys);
}
