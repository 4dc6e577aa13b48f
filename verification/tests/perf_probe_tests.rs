use osdockx::perf_probe::window_is_dock;
use osdockx::perf_probe::{
    clamp_i16, find_matching_dock, hover_path_for_rect, idle_point, rollup_value, stat_times,
    HoverPath, RootWindowGeometry, StatError,
};

#[test]
fn shaped_hover_path_stays_inside_its_longest_rectangle() {
    assert_eq!(
        hover_path_for_rect(40, 90, 800, 30, true),
        HoverPath {
            lane: 92,
            start: 42,
            end: 837,
        }
    );
    assert_eq!(
        hover_path_for_rect(90, 40, 30, 800, false),
        HoverPath {
            lane: 92,
            start: 42,
            end: 837,
        }
    );
}

#[test]
fn hover_path_for_tiny_rectangles() {
    assert_eq!(
        hover_path_for_rect(10, 20, 1, 1, true),
        HoverPath { lane: 20, start: 10, end: 10 }
    );
    assert_eq!(
        hover_path_for_rect(10, 20, 4, 3, true),
        HoverPath { lane: 21, start: 11, end: 12 }
    );
}

#[test]
fn ewmh_discovery_finds_client_hidden_under_reparenting_frame() {
    let pid = 4242;
    let dock_atom = 91;
    let frame = 100;
    let client = 101;
    let metadata = |window: u32| match window {
        101 => (Some(pid), vec![dock_atom]),
        _ => (None, Vec::new()),
    };

    assert_eq!(
        find_matching_dock(&[frame], pid, dock_atom, &[metadata(frame)]),
        None
    );
    assert_eq!(
        find_matching_dock(&[client], pid, dock_atom, &[metadata(client)]),
        Some(client)
    );
}

#[test]
fn dock_match_needs_both_pid_and_dock_type() {
    let metadata = vec![(Some(7), vec![1, 2]), (Some(8), vec![3]), (Some(7), vec![3])];
    assert_eq!(find_matching_dock(&[10, 11, 12], 7, 3, &metadata), Some(12));
    assert_eq!(find_matching_dock(&[10, 11, 12], 9, 3, &metadata), None);
}

#[test]
fn idle_point_leaves_the_dock() {
    let dock = RootWindowGeometry { x: 0, y: 980, width: 1920, height: 100 };
    assert_eq!(idle_point(dock, (1920, 1080), (50, 50)), (50, 50));
    assert_eq!(idle_point(dock, (1920, 1080), (500, 1000)), (0, 0));
    let corner = RootWindowGeometry { x: 0, y: 0, width: 100, height: 100 };
    assert_eq!(idle_point(corner, (1920, 1080), (10, 10)), (1919, 0));
    let everywhere = RootWindowGeometry { x: 0, y: 0, width: 2000, height: 2000 };
    assert_eq!(idle_point(everywhere, (1920, 1080), (10, 10)), (0, 0));
    assert!(corner.contains((99, 99)));
    assert!(!corner.contains((100, 99)));
}

#[test]
fn pointer_coordinates_clamp_to_i16() {
    assert_eq!(clamp_i16(40000), i16::MAX);
    assert_eq!(clamp_i16(-40000), i16::MIN);
    assert_eq!(clamp_i16(-12), -12);
}

#[test]
fn rollup_values_are_read_by_key() {
    let rollup = "00400000-7fff [rollup]\r\nRss:             20480 kB\nPss:  +512 kB\nPrivate_Clean: x kB\nPrivate_Dirty:\n";
    assert_eq!(rollup_value(rollup, "Rss:"), 20480);
    assert_eq!(rollup_value(rollup, "Pss:"), 512);
    assert_eq!(rollup_value(rollup, "Private_Clean:"), 0);
    assert_eq!(rollup_value(rollup, "Private_Dirty:"), 0);
    assert_eq!(rollup_value(rollup, "Swap:"), 0);
    assert_eq!(rollup_value("Rss: 99999999999999999999 kB", "Rss:"), 0);
}

#[test]
fn stat_times_read_user_and_system_time() {
    let stat = "1234 (osdockx (x)) S 1 2 3 4 5 6 7 8 9 10 250 75 0 0";
    assert_eq!(stat_times(stat), Ok((250, 75)));
    assert_eq!(stat_times("1234 osdockx S 1"), Err(StatError::Malformed));
    assert_eq!(stat_times("1 (a) S 1 2 3"), Err(StatError::MissingUtime));
    assert_eq!(
        stat_times("1 (a) S 1 2 3 4 5 6 7 8 9 10 11"),
        Err(StatError::MissingStime)
    );
    assert_eq!(
        stat_times("1 (a) S 1 2 3 4 5 6 7 8 9 10 -5 1"),
        Err(StatError::InvalidNumber)
    );
}

#[test]
fn a_window_is_the_dock_only_with_its_pid_and_dock_type() {
    assert!(window_is_dock(Some(7), &vec![3, 9], 7, 9));
    assert!(!window_is_dock(Some(8), &vec![9], 7, 9));
    assert!(!window_is_dock(None, &vec![9], 7, 9));
    assert!(!window_is_dock(Some(7), &vec![3], 7, 9));
}
