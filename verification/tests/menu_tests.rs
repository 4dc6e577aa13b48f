use osdockx::menu::{
    application_context_action_label, application_context_actions, context_menu_height,
    menu_height, ApplicationContextAction, CONTEXT_MENU_CHROME_HEIGHT, CONTEXT_MENU_ITEM_HEIGHT,
    CONTEXT_MENU_SEPARATOR_HEIGHT, CONTEXT_MENU_SETTINGS_COUNT,
};
use osdockx::model::{DockItem, WindowInfo};

fn item_with_state(desktop_id: Option<&str>, active: bool, running: bool) -> DockItem {
    let windows = if running {
        vec![WindowInfo {
            xid: 42,
            title: Some("Terminal".to_string()),
            class: Some("xfce4-terminal".to_string()),
            pid: Some(100),
            executable: None,
            workspace: Some(0),
            icon: None,
            active,
            urgent: false,
            minimized: false,
        }]
    } else {
        Vec::new()
    };
    DockItem {
        id: desktop_id.unwrap_or("window:42").to_string(),
        name: "Terminal".to_string(),
        desktop_id: desktop_id.map(str::to_string),
        startup_wm_class: Some("xfce4-terminal".to_string()),
        icon_name: None,
        window_icon: None,
        pinned: true,
        windows,
        active,
        urgent: false,
        badge: None,
    }
}

#[test]
fn application_menu_actions_include_app_and_window_controls() {
    let running_active = item_with_state(Some("xfce4-terminal.desktop"), true, true);
    let running_inactive = item_with_state(Some("xfce4-terminal.desktop"), false, true);
    let pinned_only = item_with_state(Some("xfce4-terminal.desktop"), false, false);
    let downloads = DockItem::downloads_applet();

    assert_eq!(
        application_context_actions(&running_active),
        vec![
            ApplicationContextAction::Launch,
            ApplicationContextAction::Minimize,
            ApplicationContextAction::Close,
        ]
    );
    assert_eq!(
        application_context_actions(&running_inactive),
        vec![
            ApplicationContextAction::Launch,
            ApplicationContextAction::Focus,
            ApplicationContextAction::Close,
        ]
    );
    assert_eq!(
        application_context_actions(&pinned_only),
        vec![ApplicationContextAction::Launch]
    );
    assert!(application_context_actions(&downloads).is_empty());
}

#[test]
fn context_menu_height_expands_when_app_section_is_present() {
    assert_eq!(
        context_menu_height(0),
        CONTEXT_MENU_CHROME_HEIGHT
            + (CONTEXT_MENU_SETTINGS_COUNT as i32 * CONTEXT_MENU_ITEM_HEIGHT)
    );
    assert_eq!(
        context_menu_height(3),
        CONTEXT_MENU_CHROME_HEIGHT
            + (8 * CONTEXT_MENU_ITEM_HEIGHT)
            + CONTEXT_MENU_SEPARATOR_HEIGHT
    );
}

#[test]
fn menu_heights_and_labels() {
    assert_eq!(menu_height(2, 1), 12 + 48 + 12);
    let running = item_with_state(Some("a.desktop"), false, true);
    let idle = item_with_state(Some("a.desktop"), false, false);
    assert_eq!(application_context_action_label(&running, ApplicationContextAction::Launch), "Open New Window");
    assert_eq!(application_context_action_label(&idle, ApplicationContextAction::Launch), "Open");
    assert_eq!(application_context_action_label(&idle, ApplicationContextAction::Focus), "Show");
    assert_eq!(application_context_action_label(&idle, ApplicationContextAction::Minimize), "Hide");
    assert_eq!(application_context_action_label(&idle, ApplicationContextAction::Close), "Close Application");
    let window_only = item_with_state(None, false, true);
    assert_eq!(
        application_context_actions(&window_only),
        vec![ApplicationContextAction::Focus, ApplicationContextAction::Close]
    );
}
