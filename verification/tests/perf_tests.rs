use osdockx::perf::{
    average_draw_micros, record_draw_completed, record_motion_event, record_redraw_requested,
    snapshot, summary_due, PerfSnapshot, SUMMARY_INTERVAL_MS, X11_PERF_COUNTER_COUNT,
    X11_PERF_PROTOCOL_VERSION,
};

#[test]
fn snapshot_delta_saturates_each_counter() {
    let current = PerfSnapshot {
        motion_events: 12,
        frame_ticks: 8,
        paint_requests: 4,
        ..PerfSnapshot::default()
    };
    let earlier = PerfSnapshot {
        motion_events: 9,
        frame_ticks: 10,
        paint_requests: 1,
        ..PerfSnapshot::default()
    };

    let delta = current.saturating_sub(earlier);
    assert_eq!(delta.motion_events, 3);
    assert_eq!(delta.frame_ticks, 0);
    assert_eq!(delta.paint_requests, 3);
}

#[test]
fn x11_snapshot_protocol_round_trips_u64_counters() {
    let snapshot = PerfSnapshot {
        redraws_requested: u64::from(u32::MAX) + 17,
        frame_ticks: 91,
        window_synchronizations: 23,
        animation_frames: u64::MAX - 4,
        ..PerfSnapshot::default()
    };

    assert_eq!(
        PerfSnapshot::decode_x11(&snapshot.encode_x11(1234)),
        Some((1234, snapshot))
    );
}

#[test]
fn encoded_snapshot_has_version_nonce_and_split_counters() {
    let snapshot = PerfSnapshot {
        redraws_requested: (5u64 << 32) | 7,
        ..PerfSnapshot::default()
    };
    let words = snapshot.encode_x11(99);
    assert_eq!(words.len(), 2 + X11_PERF_COUNTER_COUNT * 2);
    assert_eq!(words[0], X11_PERF_PROTOCOL_VERSION);
    assert_eq!(words[1], 99);
    assert_eq!(words[2], 7);
    assert_eq!(words[3], 5);
}

#[test]
fn decode_rejects_wrong_length_or_version() {
    let mut words = PerfSnapshot::default().encode_x11(1);
    words.pop();
    assert_eq!(PerfSnapshot::decode_x11(&words), None);
    let mut words = PerfSnapshot::default().encode_x11(1);
    words[0] = X11_PERF_PROTOCOL_VERSION + 1;
    assert_eq!(PerfSnapshot::decode_x11(&words), None);
}

#[test]
fn delta_against_itself_is_zero() {
    let s = PerfSnapshot {
        motion_events: 5,
        draw_micros: 17,
        ..PerfSnapshot::default()
    };
    assert_eq!(s.saturating_sub(s), PerfSnapshot::default());
}

#[test]
fn recording_bumps_counters() {
    let mut counters = PerfSnapshot::default();
    record_redraw_requested(&mut counters);
    record_motion_event(&mut counters);
    record_draw_completed(&mut counters, 300);
    record_draw_completed(&mut counters, 100);
    assert_eq!(counters.redraws_requested, 1);
    assert_eq!(counters.paint_requests, 1);
    assert_eq!(counters.motion_events, 1);
    assert_eq!(counters.redraws_completed, 2);
    assert_eq!(counters.draw_micros, 400);
    assert_eq!(counters.draw_max_micros, 300);
    assert_eq!(average_draw_micros(&counters), 200);
    assert_eq!(snapshot(&counters), counters);
    let mut wrapped = PerfSnapshot {
        draw_micros: u64::MAX,
        ..PerfSnapshot::default()
    };
    record_draw_completed(&mut wrapped, 2);
    assert_eq!(wrapped.draw_micros, 1);
}

#[test]
fn summary_is_due_after_the_interval() {
    assert!(!summary_due(SUMMARY_INTERVAL_MS - 1, 0));
    assert!(summary_due(SUMMARY_INTERVAL_MS, 0));
    assert!(!summary_due(5, 10));
    assert_eq!(average_draw_micros(&PerfSnapshot::default()), 0);
}
