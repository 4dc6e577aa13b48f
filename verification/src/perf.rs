//! Aggregate performance counters and their X11 property encoding.
//!
//! The counters are plain values here; whoever owns the process-wide counters
//! applies these updates to them.
use vstd::prelude::*;

verus! {

/// Version word that starts an encoded snapshot.
pub const X11_PERF_PROTOCOL_VERSION: u32 = 2;

/// Number of counters in a snapshot.
pub const X11_PERF_COUNTER_COUNT: usize = 21;

/// Minimum time between two logged summaries, in milliseconds.
pub const SUMMARY_INTERVAL_MS: u64 = 10000;

/// A copy of every performance counter.
#[derive(Debug, Clone, Copy, PartialEq, Eq, Structural)]
pub struct PerfSnapshot {
    pub redraws_requested: u64,
    pub redraws_completed: u64,
    pub draw_micros: u64,
    pub draw_max_micros: u64,
    pub reflection_builds: u64,
    pub reflection_hits: u64,
    pub shelf_builds: u64,
    pub shelf_hits: u64,
    pub config_theme_parses: u64,
    pub x11_property_requests: u64,
    pub x11_reconciliations: u64,
    pub motion_events: u64,
    pub frame_ticks: u64,
    pub visible_layout_changes: u64,
    pub paint_requests: u64,
    pub window_synchronizations: u64,
    pub shape_updates: u64,
    pub animation_frames: u64,
    pub x11_model_updates: u64,
    pub visual_model_updates: u64,
    pub presence_model_updates: u64,
}

impl Default for PerfSnapshot {
    fn default() -> (r: Self)
        ensures
            counters_of(r) == Seq::new(21, |i: int| 0u64),
    {
        let r = PerfSnapshot {
            redraws_requested: 0,
            redraws_completed: 0,
            draw_micros: 0,
            draw_max_micros: 0,
            reflection_builds: 0,
            reflection_hits: 0,
            shelf_builds: 0,
            shelf_hits: 0,
            config_theme_parses: 0,
            x11_property_requests: 0,
            x11_reconciliations: 0,
            motion_events: 0,
            frame_ticks: 0,
            visible_layout_changes: 0,
            paint_requests: 0,
            window_synchronizations: 0,
            shape_updates: 0,
            animation_frames: 0,
            x11_model_updates: 0,
            visual_model_updates: 0,
            presence_model_updates: 0,
        };
        assert(counters_of(r) =~= Seq::new(21, |i: int| 0u64));
        r
    }
}

/// The counters in protocol order.
pub open spec fn counters_of(s: PerfSnapshot) -> Seq<u64> {
    seq![
        s.redraws_requested,
        s.redraws_completed,
        s.draw_micros,
        s.draw_max_micros,
        s.reflection_builds,
        s.reflection_hits,
        s.shelf_builds,
        s.shelf_hits,
        s.config_theme_parses,
        s.x11_property_requests,
        s.x11_reconciliations,
        s.motion_events,
        s.frame_ticks,
        s.visible_layout_changes,
        s.paint_requests,
        s.window_synchronizations,
        s.shape_updates,
        s.animation_frames,
        s.x11_model_updates,
        s.visual_model_updates,
        s.presence_model_updates,
    ]
}

/// The snapshot holding the given counters, in protocol order.
pub open spec fn snapshot_of(c: Seq<u64>) -> PerfSnapshot {
    PerfSnapshot {
        redraws_requested: c[0],
        redraws_completed: c[1],
        draw_micros: c[2],
        draw_max_micros: c[3],
        reflection_builds: c[4],
        reflection_hits: c[5],
        shelf_builds: c[6],
        shelf_hits: c[7],
        config_theme_parses: c[8],
        x11_property_requests: c[9],
        x11_reconciliations: c[10],
        motion_events: c[11],
        frame_ticks: c[12],
        visible_layout_changes: c[13],
        paint_requests: c[14],
        window_synchronizations: c[15],
        shape_updates: c[16],
        animation_frames: c[17],
        x11_model_updates: c[18],
        visual_model_updates: c[19],
        presence_model_updates: c[20],
    }
}

pub proof fn lemma_snapshot_counters(s: PerfSnapshot)
    ensures
        snapshot_of(counters_of(s)) == s,
        counters_of(s).len() == 21,
{
}

/// Subtraction that stops at zero.
pub open spec fn sat_sub(a: u64, b: u64) -> u64 {
    if a >= b {
        (a - b) as u64
    } else {
        0
    }
}

/// Every counter minus the earlier one, stopping at zero; the maximum draw
/// time is kept as it is.
pub open spec fn delta(now: PerfSnapshot, earlier: PerfSnapshot) -> PerfSnapshot {
    PerfSnapshot {
        redraws_requested: sat_sub(now.redraws_requested, earlier.redraws_requested),
        redraws_completed: sat_sub(now.redraws_completed, earlier.redraws_completed),
        draw_micros: sat_sub(now.draw_micros, earlier.draw_micros),
        draw_max_micros: now.draw_max_micros,
        reflection_builds: sat_sub(now.reflection_builds, earlier.reflection_builds),
        reflection_hits: sat_sub(now.reflection_hits, earlier.reflection_hits),
        shelf_builds: sat_sub(now.shelf_builds, earlier.shelf_builds),
        shelf_hits: sat_sub(now.shelf_hits, earlier.shelf_hits),
        config_theme_parses: sat_sub(now.config_theme_parses, earlier.config_theme_parses),
        x11_property_requests: sat_sub(now.x11_property_requests, earlier.x11_property_requests),
        x11_reconciliations: sat_sub(now.x11_reconciliations, earlier.x11_reconciliations),
        motion_events: sat_sub(now.motion_events, earlier.motion_events),
        frame_ticks: sat_sub(now.frame_ticks, earlier.frame_ticks),
        visible_layout_changes: sat_sub(now.visible_layout_changes, earlier.visible_layout_changes),
        paint_requests: sat_sub(now.paint_requests, earlier.paint_requests),
        window_synchronizations: sat_sub(now.window_synchronizations, earlier.window_synchronizations),
        shape_updates: sat_sub(now.shape_updates, earlier.shape_updates),
        animation_frames: sat_sub(now.animation_frames, earlier.animation_frames),
        x11_model_updates: sat_sub(now.x11_model_updates, earlier.x11_model_updates),
        visual_model_updates: sat_sub(now.visual_model_updates, earlier.visual_model_updates),
        presence_model_updates: sat_sub(now.presence_model_updates, earlier.presence_model_updates),
    }
}

/// The low 32 bits of a counter.
pub open spec fn low_word(c: u64) -> u32 {
    (c & 0xffff_ffff) as u32
}

/// The high 32 bits of a counter.
pub open spec fn high_word(c: u64) -> u32 {
    (c >> 32) as u32
}

/// A counter from its two words.
pub open spec fn join_words(lo: u32, hi: u32) -> u64 {
    (lo as u64) | ((hi as u64) << 32)
}

/// Each counter as its low word then its high word.
pub open spec fn counter_words(c: Seq<u64>) -> Seq<u32>
    decreases c.len(),
{
    if c.len() == 0 {
        Seq::empty()
    } else {
        counter_words(c.drop_last()) + seq![low_word(c.last()), high_word(c.last())]
    }
}

/// The property value: version, nonce, then every counter's two words.
pub open spec fn encoded(s: PerfSnapshot, nonce: u32) -> Seq<u32> {
    seq![X11_PERF_PROTOCOL_VERSION, nonce] + counter_words(counters_of(s))
}

/// Reading a property value back; `None` unless it has the exact length and
/// starts with the protocol version.
pub open spec fn decoded(w: Seq<u32>) -> Option<(u32, PerfSnapshot)> {
    if w.len() != 2 + 2 * 21 || w[0] != X11_PERF_PROTOCOL_VERSION {
        None
    } else {
        Some((w[1], snapshot_of(Seq::new(21, |k: int| join_words(w[2 + 2 * k], w[3 + 2 * k])))))
    }
}

proof fn lemma_counter_words(c: Seq<u64>)
    ensures
        counter_words(c).len() == 2 * c.len(),
        forall|k: int|
            0 <= k < c.len() ==> #[trigger] counter_words(c)[2 * k] == low_word(c[k])
                && counter_words(c)[2 * k + 1] == high_word(c[k]),
    decreases c.len(),
{
    if c.len() > 0 {
        lemma_counter_words(c.drop_last());
        assert forall|k: int| 0 <= k < c.len() implies #[trigger] counter_words(c)[2 * k]
            == low_word(c[k]) && counter_words(c)[2 * k + 1] == high_word(c[k]) by {
            let cw = counter_words(c.drop_last());
            assert(counter_words(c) == cw + seq![low_word(c.last()), high_word(c.last())]);
            if k < c.len() - 1 {
                assert(c.drop_last()[k] == c[k]);
                assert(counter_words(c)[2 * k] == cw[2 * k]);
                assert(counter_words(c)[2 * k + 1] == cw[2 * k + 1]);
            } else {
                assert(2 * k == cw.len());
            }
        }
    }
}

proof fn lemma_join_split(c: u64)
    ensures
        join_words(low_word(c), high_word(c)) == c,
{
    assert((((c & 0xffff_ffff) as u32) as u64) | ((((c >> 32) as u32) as u64) << 32) == c)
        by (bit_vector);
}

/// Decoding an encoded snapshot gives back the nonce and the snapshot.
pub proof fn lemma_decode_encode(s: PerfSnapshot, nonce: u32)
    ensures
        decoded(encoded(s, nonce)) == Some((nonce, s)),
{
    let c = counters_of(s);
    let w = encoded(s, nonce);
    lemma_counter_words(c);
    let d = Seq::new(21, |k: int| join_words(w[2 + 2 * k], w[3 + 2 * k]));
    assert forall|k: int| 0 <= k < 21 implies #[trigger] d[k] == c[k] by {
        assert(w[2 + 2 * k] == counter_words(c)[2 * k]);
        assert(w[3 + 2 * k] == counter_words(c)[2 * k + 1]);
        lemma_join_split(c[k]);
    }
    assert(d =~= c);
    lemma_snapshot_counters(s);
}

/// The delta of a snapshot with itself is zero except for the kept maximum.
pub proof fn lemma_delta_self(s: PerfSnapshot)
    ensures
        delta(s, s) == (PerfSnapshot { draw_max_micros: s.draw_max_micros, ..snapshot_of(Seq::new(21, |i: int| 0u64)) }),
{
}

/// The delta with an all-zero earlier snapshot is the snapshot itself.
pub proof fn lemma_delta_zero(s: PerfSnapshot)
    ensures
        delta(s, snapshot_of(Seq::new(21, |i: int| 0u64))) == s,
{
}

fn low_of(c: u64) -> (r: u32)
    ensures
        r == low_word(c),
{
    (c & 0xffff_ffff) as u32
}

fn high_of(c: u64) -> (r: u32)
    ensures
        r == high_word(c),
{
    (c >> 32) as u32
}

fn join_of(lo: u32, hi: u32) -> (r: u64)
    ensures
        r == join_words(lo, hi),
{
    (lo as u64) | ((hi as u64) << 32)
}

impl PerfSnapshot {
    /// Every counter minus the earlier one, stopping at zero; the maximum draw
    /// time is kept.
    pub fn saturating_sub(self, earlier: Self) -> (r: Self)
        ensures
            r == delta(self, earlier),
    {
        PerfSnapshot {
            redraws_requested: self.redraws_requested.saturating_sub(earlier.redraws_requested),
            redraws_completed: self.redraws_completed.saturating_sub(earlier.redraws_completed),
            draw_micros: self.draw_micros.saturating_sub(earlier.draw_micros),
            draw_max_micros: self.draw_max_micros,
            reflection_builds: self.reflection_builds.saturating_sub(earlier.reflection_builds),
            reflection_hits: self.reflection_hits.saturating_sub(earlier.reflection_hits),
            shelf_builds: self.shelf_builds.saturating_sub(earlier.shelf_builds),
            shelf_hits: self.shelf_hits.saturating_sub(earlier.shelf_hits),
            config_theme_parses: self.config_theme_parses.saturating_sub(earlier.config_theme_parses),
            x11_property_requests: self.x11_property_requests.saturating_sub(earlier.x11_property_requests),
            x11_reconciliations: self.x11_reconciliations.saturating_sub(earlier.x11_reconciliations),
            motion_events: self.motion_events.saturating_sub(earlier.motion_events),
            frame_ticks: self.frame_ticks.saturating_sub(earlier.frame_ticks),
            visible_layout_changes: self.visible_layout_changes.saturating_sub(earlier.visible_layout_changes),
            paint_requests: self.paint_requests.saturating_sub(earlier.paint_requests),
            window_synchronizations: self.window_synchronizations.saturating_sub(earlier.window_synchronizations),
            shape_updates: self.shape_updates.saturating_sub(earlier.shape_updates),
            animation_frames: self.animation_frames.saturating_sub(earlier.animation_frames),
            x11_model_updates: self.x11_model_updates.saturating_sub(earlier.x11_model_updates),
            visual_model_updates: self.visual_model_updates.saturating_sub(earlier.visual_model_updates),
            presence_model_updates: self.presence_model_updates.saturating_sub(earlier.presence_model_updates),
        }
    }

    /// The X11 property value for this snapshot: version, nonce, then each
    /// counter's low and high word.
    pub fn encode_x11(self, nonce: u32) -> (r: Vec<u32>)
        ensures
            r@ == encoded(self, nonce),
    {
        let counters: [u64; 21] = [
            self.redraws_requested,
            self.redraws_completed,
            self.draw_micros,
            self.draw_max_micros,
            self.reflection_builds,
            self.reflection_hits,
            self.shelf_builds,
            self.shelf_hits,
            self.config_theme_parses,
            self.x11_property_requests,
            self.x11_reconciliations,
            self.motion_events,
            self.frame_ticks,
            self.visible_layout_changes,
            self.paint_requests,
            self.window_synchronizations,
            self.shape_updates,
            self.animation_frames,
            self.x11_model_updates,
            self.visual_model_updates,
            self.presence_model_updates,
        ];
        assert(counters@ =~= counters_of(self));
        let mut words: Vec<u32> = Vec::new();
        words.push(X11_PERF_PROTOCOL_VERSION);
        words.push(nonce);
        let ghost head = words@;
        assert(head =~= seq![X11_PERF_PROTOCOL_VERSION, nonce]);
        let mut i: usize = 0;
        assert(counters@.take(0) =~= Seq::<u64>::empty());
        assert(head + counter_words(Seq::<u64>::empty()) =~= head);
        while i < 21
            invariant
                i <= 21,
                counters@ == counters_of(self),
                head == seq![X11_PERF_PROTOCOL_VERSION, nonce],
                words@ == head + counter_words(counters@.take(i as int)),
            decreases 21 - i,
        {
            let c = counters[i];
            words.push(low_of(c));
            words.push(high_of(c));
            assert(counters@.take(i + 1).drop_last() =~= counters@.take(i as int));
            assert(counters@.take(i + 1).last() == c);
            assert(words@ =~= head + counter_words(counters@.take(i + 1)));
            i = i + 1;
        }
        assert(counters@.take(21) =~= counters@);
        words
    }

    /// Reads a property value: the nonce and snapshot when the value has the
    /// exact length and version, else `None`.
    pub fn decode_x11(words: &[u32]) -> (r: Option<(u32, Self)>)
        ensures
            r == decoded(words@),
    {
        if words.len() != 2 + X11_PERF_COUNTER_COUNT * 2 || words[0] != X11_PERF_PROTOCOL_VERSION {
            return None;
        }
        let nonce = words[1];
        let s = PerfSnapshot {
            redraws_requested: join_of(words[2], words[3]),
            redraws_completed: join_of(words[4], words[5]),
            draw_micros: join_of(words[6], words[7]),
            draw_max_micros: join_of(words[8], words[9]),
            reflection_builds: join_of(words[10], words[11]),
            reflection_hits: join_of(words[12], words[13]),
            shelf_builds: join_of(words[14], words[15]),
            shelf_hits: join_of(words[16], words[17]),
            config_theme_parses: join_of(words[18], words[19]),
            x11_property_requests: join_of(words[20], words[21]),
            x11_reconciliations: join_of(words[22], words[23]),
            motion_events: join_of(words[24], words[25]),
            frame_ticks: join_of(words[26], words[27]),
            visible_layout_changes: join_of(words[28], words[29]),
            paint_requests: join_of(words[30], words[31]),
            window_synchronizations: join_of(words[32], words[33]),
            shape_updates: join_of(words[34], words[35]),
            animation_frames: join_of(words[36], words[37]),
            x11_model_updates: join_of(words[38], words[39]),
            visual_model_updates: join_of(words[40], words[41]),
            presence_model_updates: join_of(words[42], words[43]),
        };
        let ghost d = Seq::new(21, |k: int| join_words(words@[2 + 2 * k], words@[3 + 2 * k]));
        assert(s == snapshot_of(d));
        Some((nonce, s))
    }
}

/// The current counters.
pub fn snapshot(counters: &PerfSnapshot) -> (r: PerfSnapshot)
    ensures
        r == *counters,
{
    *counters
}

/// One more, wrapping to zero past the maximum.
pub open spec fn bump(x: u64) -> u64 {
    if x == u64::MAX {
        0
    } else {
        (x + 1) as u64
    }
}

/// Sum wrapping modulo 2^64.
pub open spec fn wrapping_sum(x: u64, y: u64) -> u64 {
    ((x as int + y as int) % 0x1_0000_0000_0000_0000) as u64
}

fn inc(x: u64) -> (r: u64)
    ensures
        r == bump(x),
{
    if x == u64::MAX {
        0
    } else {
        x + 1
    }
}

fn add_wrapping(x: u64, y: u64) -> (r: u64)
    ensures
        r == wrapping_sum(x, y),
{
    if y > u64::MAX - x {
        y - (u64::MAX - x) - 1
    } else {
        x + y
    }
}

/// A redraw was requested; it also counts as a paint request.
pub fn record_redraw_requested(counters: &mut PerfSnapshot)
    ensures
        *final(counters) == (PerfSnapshot {
            redraws_requested: bump(old(counters).redraws_requested),
            paint_requests: bump(old(counters).paint_requests),
            ..*old(counters)
        }),
{
    counters.redraws_requested = inc(counters.redraws_requested);
    counters.paint_requests = inc(counters.paint_requests);
}

/// A draw completed after `micros` microseconds.
pub fn record_draw_completed(counters: &mut PerfSnapshot, micros: u64)
    ensures
        *final(counters) == (PerfSnapshot {
            redraws_completed: bump(old(counters).redraws_completed),
            draw_micros: wrapping_sum(old(counters).draw_micros, micros),
            draw_max_micros: if micros > old(counters).draw_max_micros {
                micros
            } else {
                old(counters).draw_max_micros
            },
            ..*old(counters)
        }),
{
    counters.redraws_completed = inc(counters.redraws_completed);
    counters.draw_micros = add_wrapping(counters.draw_micros, micros);
    if micros > counters.draw_max_micros {
        counters.draw_max_micros = micros;
    }
}

/// A summary is due once the interval has passed since the previous one.
pub fn summary_due(elapsed_ms: u64, previous_ms: u64) -> (r: bool)
    ensures
        r == (sat_sub(elapsed_ms, previous_ms) >= SUMMARY_INTERVAL_MS),
{
    elapsed_ms.saturating_sub(previous_ms) >= SUMMARY_INTERVAL_MS
}

/// Average draw time of a delta, or zero when nothing was drawn.
pub fn average_draw_micros(delta: &PerfSnapshot) -> (r: u64)
    ensures
        r == (if delta.redraws_completed == 0 {
            0
        } else {
            (delta.draw_micros / delta.redraws_completed) as u64
        }),
{
    if delta.redraws_completed == 0 {
        0
    } else {
        delta.draw_micros / delta.redraws_completed
    }
}

/// A reflection surface was built.
pub fn record_reflection_build(counters: &mut PerfSnapshot)
    ensures
        *final(counters) == (PerfSnapshot { reflection_builds: bump(old(counters).reflection_builds), ..*old(counters) }),
{
    counters.reflection_builds = inc(counters.reflection_builds);
}

/// A cached reflection surface was reused.
pub fn record_reflection_hit(counters: &mut PerfSnapshot)
    ensures
        *final(counters) == (PerfSnapshot { reflection_hits: bump(old(counters).reflection_hits), ..*old(counters) }),
{
    counters.reflection_hits = inc(counters.reflection_hits);
}

/// A shelf surface was built.
pub fn record_shelf_build(counters: &mut PerfSnapshot)
    ensures
        *final(counters) == (PerfSnapshot { shelf_builds: bump(old(counters).shelf_builds), ..*old(counters) }),
{
    counters.shelf_builds = inc(counters.shelf_builds);
}

/// A cached shelf surface was reused.
pub fn record_shelf_hit(counters: &mut PerfSnapshot)
    ensures
        *final(counters) == (PerfSnapshot { shelf_hits: bump(old(counters).shelf_hits), ..*old(counters) }),
{
    counters.shelf_hits = inc(counters.shelf_hits);
}

/// A configuration or theme file was parsed.
pub fn record_config_theme_parse(counters: &mut PerfSnapshot)
    ensures
        *final(counters) == (PerfSnapshot { config_theme_parses: bump(old(counters).config_theme_parses), ..*old(counters) }),
{
    counters.config_theme_parses = inc(counters.config_theme_parses);
}

/// An X11 property was requested.
pub fn record_x11_property_request(counters: &mut PerfSnapshot)
    ensures
        *final(counters) == (PerfSnapshot { x11_property_requests: bump(old(counters).x11_property_requests), ..*old(counters) }),
{
    counters.x11_property_requests = inc(counters.x11_property_requests);
}

/// The window list was reconciled with X11.
pub fn record_x11_reconciliation(counters: &mut PerfSnapshot)
    ensures
        *final(counters) == (PerfSnapshot { x11_reconciliations: bump(old(counters).x11_reconciliations), ..*old(counters) }),
{
    counters.x11_reconciliations = inc(counters.x11_reconciliations);
}

/// A pointer motion event arrived.
pub fn record_motion_event(counters: &mut PerfSnapshot)
    ensures
        *final(counters) == (PerfSnapshot { motion_events: bump(old(counters).motion_events), ..*old(counters) }),
{
    counters.motion_events = inc(counters.motion_events);
}

/// A frame clock tick arrived.
pub fn record_frame_tick(counters: &mut PerfSnapshot)
    ensures
        *final(counters) == (PerfSnapshot { frame_ticks: bump(old(counters).frame_ticks), ..*old(counters) }),
{
    counters.frame_ticks = inc(counters.frame_ticks);
}

/// The visible layout changed.
pub fn record_visible_layout_change(counters: &mut PerfSnapshot)
    ensures
        *final(counters) == (PerfSnapshot { visible_layout_changes: bump(old(counters).visible_layout_changes), ..*old(counters) }),
{
    counters.visible_layout_changes = inc(counters.visible_layout_changes);
}

/// The dock window was synchronized.
pub fn record_window_synchronization(counters: &mut PerfSnapshot)
    ensures
        *final(counters) == (PerfSnapshot { window_synchronizations: bump(old(counters).window_synchronizations), ..*old(counters) }),
{
    counters.window_synchronizations = inc(counters.window_synchronizations);
}

/// The window shape was updated.
pub fn record_shape_update(counters: &mut PerfSnapshot)
    ensures
        *final(counters) == (PerfSnapshot { shape_updates: bump(old(counters).shape_updates), ..*old(counters) }),
{
    counters.shape_updates = inc(counters.shape_updates);
}

/// An animation frame was drawn.
pub fn record_animation_frame(counters: &mut PerfSnapshot)
    ensures
        *final(counters) == (PerfSnapshot { animation_frames: bump(old(counters).animation_frames), ..*old(counters) }),
{
    counters.animation_frames = inc(counters.animation_frames);
}

/// The model was updated from X11.
pub fn record_x11_model_update(counters: &mut PerfSnapshot)
    ensures
        *final(counters) == (PerfSnapshot { x11_model_updates: bump(old(counters).x11_model_updates), ..*old(counters) }),
{
    counters.x11_model_updates = inc(counters.x11_model_updates);
}

/// The visual model was updated.
pub fn record_visual_model_update(counters: &mut PerfSnapshot)
    ensures
        *final(counters) == (PerfSnapshot { visual_model_updates: bump(old(counters).visual_model_updates), ..*old(counters) }),
{
    counters.visual_model_updates = inc(counters.visual_model_updates);
}

/// The presence model was updated.
pub fn record_presence_model_update(counters: &mut PerfSnapshot)
    ensures
        *final(counters) == (PerfSnapshot { presence_model_updates: bump(old(counters).presence_model_updates), ..*old(counters) }),
{
    counters.presence_model_updates = inc(counters.presence_model_updates);
}

} // verus!
