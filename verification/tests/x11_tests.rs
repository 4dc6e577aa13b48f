use osdockx::model::WindowIcon;
use osdockx::backend::x11::{
    choose_monitor, parse_window_icon, preferred_monitor, struts_for, text_property,
    window_class_from, window_info_from, RandrMonitor, WindowProperties,
};
use osdockx::backend::{
    apply_edge_offset, desired_geometry, hidden_edge_offset, DockGeometry, MonitorGeometry, EDGE_VISIBLE_PIXELS,
};
use osdockx::config::DockEdge;

#[test]
fn parses_largest_net_wm_icon() {
    let values = [
        1, 1, 0xff00ff00, 2, 2, 0xff000000, 0xff111111, 0xff222222, 0xff333333,
    ];
    let icon = parse_window_icon(&values).unwrap();
    assert_eq!(icon.width, 2);
    assert_eq!(icon.height, 2);
    assert_eq!(icon.argb.len(), 4);
}

#[test]
fn truncated_icon_keeps_the_best_complete_one() {
    let values = [1, 1, 7, 4, 4, 1, 2];
    let icon = parse_window_icon(&values).unwrap();
    assert_eq!((icon.width, icon.height), (1, 1));
    assert_eq!(icon.argb, vec![7]);
    assert!(parse_window_icon(&[]).is_none());
    assert!(parse_window_icon(&[0, 3]).is_none());
}

fn bottom_dock(reserve: bool) -> DockGeometry {
    DockGeometry {
        x: 100,
        y: 980,
        width: 600,
        height: 100,
        edge: DockEdge::Bottom,
        reserve_space: reserve,
        reserved_thickness: 80,
    }
}

#[test]
fn struts_reserve_the_bottom_edge_span() {
    let strut = struts_for(bottom_dock(true), 1920, 1080);
    assert_eq!(strut, [0, 0, 0, 80, 0, 0, 0, 0, 0, 0, 100, 699]);
    assert_eq!(struts_for(bottom_dock(false), 1920, 1080), [0; 12]);
}

#[test]
fn struts_clamp_to_the_screen_and_reserve_at_least_one_pixel() {
    let geometry = DockGeometry {
        x: -20,
        y: 100,
        width: 60,
        height: 2000,
        edge: DockEdge::Left,
        reserve_space: true,
        reserved_thickness: 0,
    };
    assert_eq!(
        struts_for(geometry, 1920, 1080),
        [1, 0, 0, 0, 100, 1079, 0, 0, 0, 0, 0, 0]
    );
}

#[test]
fn window_class_prefers_the_class_part() {
    assert_eq!(
        window_class_from(b"navigator\0Firefox\0"),
        Some("Firefox".to_string())
    );
    assert_eq!(window_class_from(b"\0\0xterm\0"), Some("xterm".to_string()));
    assert_eq!(window_class_from(b"\0\0"), None);
    assert_eq!(window_class_from(b"a\0\xff\xfe"), None);
}

#[test]
fn text_property_rejects_empty_and_invalid_values() {
    assert_eq!(text_property(b"Terminal".to_vec()), Some("Terminal".to_string()));
    assert_eq!(text_property(Vec::new()), None);
    assert_eq!(text_property(vec![0xc3, 0x28]), None);
}

fn props(title: Option<&str>, class: Option<&str>, states: Vec<u32>) -> WindowProperties {
    WindowProperties {
        states,
        title: title.map(str::to_string),
        class: class.map(str::to_string),
        pid: Some(9),
        executable: None,
        workspace: Some(1),
        icon: None,
    }
}

#[test]
fn window_info_skips_the_dock_and_anonymous_windows() {
    assert!(window_info_from(5, props(Some("t"), None, vec![]), Some(5), None, 1, 2).is_none());
    assert!(window_info_from(6, props(None, None, vec![]), Some(5), None, 1, 2).is_none());
    let info = window_info_from(6, props(None, Some("xterm"), vec![2]), Some(5), Some(6), 1, 2)
        .unwrap();
    assert_eq!(info.xid, 6);
    assert!(info.active);
    assert!(!info.urgent);
    assert!(info.minimized);
    assert_eq!(info.class.as_deref(), Some("xterm"));
}

fn monitor(name: &str, primary: bool, x: i16, width: u16) -> RandrMonitor {
    RandrMonitor {
        name: Some(name.to_string()),
        primary,
        x,
        y: 0,
        width,
        height: 1080,
    }
}

#[test]
fn preferred_monitor_by_keyword_index_and_name() {
    let monitors = vec![monitor("DP-1", false, 0, 1920), monitor("HDMI-1", true, 1920, 1280)];
    assert_eq!(preferred_monitor(&monitors, "PRIMARY"), Some(1));
    assert_eq!(preferred_monitor(&monitors, "0"), Some(0));
    assert_eq!(preferred_monitor(&monitors, "5"), None);
    assert_eq!(preferred_monitor(&monitors, "hdmi-1"), Some(1));
    assert_eq!(preferred_monitor(&monitors, "VGA-1"), None);
}

#[test]
fn chooses_requested_then_primary_then_first_monitor() {
    let monitors = vec![
        monitor("OFF", true, 0, 0),
        monitor("DP-1", false, 0, 1920),
        monitor("HDMI-1", true, 1920, 1280),
    ];
    let hdmi = MonitorGeometry { x: 1920, y: 0, width: 1280, height: 1080 };
    let dp = MonitorGeometry { x: 0, y: 0, width: 1920, height: 1080 };
    assert_eq!(choose_monitor(monitors.clone(), Some(" dp-1 ")), Some(dp));
    assert_eq!(choose_monitor(monitors.clone(), Some("  ")), Some(hdmi));
    assert_eq!(choose_monitor(monitors.clone(), Some("missing")), Some(hdmi));
    assert_eq!(choose_monitor(monitors.clone(), Some("0")), Some(dp));
    assert_eq!(choose_monitor(vec![monitor("DP-1", false, 0, 1920)], None), Some(dp));
    assert_eq!(choose_monitor(vec![monitor("OFF", true, 0, 0)], None), None);
}

#[test]
fn hidden_offset_leaves_a_visible_strip() {
    let mut geometry = bottom_dock(true);
    let offset = hidden_edge_offset(&geometry, DockEdge::Bottom);
    assert_eq!(offset, 100 - EDGE_VISIBLE_PIXELS);
    apply_edge_offset(&mut geometry, DockEdge::Bottom, offset);
    assert_eq!((geometry.x, geometry.y), (100, 1076));
    let mut left = bottom_dock(true);
    apply_edge_offset(&mut left, DockEdge::Left, 30);
    assert_eq!((left.x, left.y), (70, 980));
    assert_eq!(hidden_edge_offset(&left, DockEdge::Left), 596);
}

#[test]
fn dock_geometry_centres_a_bottom_dock() {
    let monitor = MonitorGeometry { x: 0, y: 0, width: 1920, height: 1080 };
    let geometry = monitor.dock_geometry((600, 100), DockEdge::Bottom, true, 80);
    assert_eq!((geometry.x, geometry.y, geometry.width, geometry.height), (660, 980, 600, 100));
    let right = monitor.dock_geometry((0, 300), DockEdge::Right, false, 0);
    assert_eq!((right.x, right.y, right.width), (1919, 390, 1));
}

#[test]
fn desired_geometry_places_hides_and_reveals() {
    let monitor = MonitorGeometry { x: 0, y: 0, width: 1920, height: 1080 };
    let shown = desired_geometry(&monitor, (420, 74), DockEdge::Bottom, true, false, 80, false, None);
    assert_eq!((shown.x, shown.y, shown.width, shown.height), (750, 1006, 420, 74));
    assert!(shown.reserve_space);
    assert_eq!(shown.reserved_thickness, 80);
    let autohidden = desired_geometry(&monitor, (420, 74), DockEdge::Bottom, true, true, 80, true, None);
    assert!(!autohidden.reserve_space);
    assert_eq!((autohidden.x, autohidden.y), (750, 1006 + 74 - EDGE_VISIBLE_PIXELS));
    let revealing = desired_geometry(&monitor, (420, 74), DockEdge::Left, false, false, 0, false, Some(30));
    assert_eq!((revealing.x, revealing.y), (-30, 503));
}

#[test]
fn window_icons_compare_by_size_and_hash() {
    let a = WindowIcon::from_argb(2, 1, vec![1, 2]);
    let b = WindowIcon::from_argb(2, 1, vec![1, 2]);
    let c = WindowIcon::from_argb(2, 1, vec![1, 3]);
    let d = WindowIcon::from_argb(1, 2, vec![1, 2]);
    assert_eq!(a.signature(), b.signature());
    assert_eq!(a, b);
    assert_ne!(a, c);
    assert_ne!(a, d);
    assert_eq!((a.width(), a.height()), (2, 1));
}
