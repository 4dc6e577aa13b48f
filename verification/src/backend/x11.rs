//! Reading X11 window properties into dock values.
use super::{DockGeometry, MonitorGeometry};
use crate::config::DockEdge;
use crate::model::{WindowIcon, WindowIconView, WindowId, WindowInfo};
use crate::seqs::{first_where, keep, lemma_first_where_is, lemma_first_where_none, lemma_keep_push};
use crate::text::{chars_of, eq_ic, opt_view, parse_u64, parse_u64_spec, str_eq_ic, trim, trim_vec, string_of};
use vstd::prelude::*;

verus! {

/// Area of an icon, saturating at `u32::MAX`.
pub open spec fn area(w: u32, h: u32) -> int {
    if w * h > u32::MAX {
        u32::MAX as int
    } else {
        w * h
    }
}

/// An icon's size and pixels.
pub struct IconImage {
    pub width: u32,
    pub height: u32,
    pub argb: Seq<u32>,
}

/// The size and pixels of an icon.
pub open spec fn image_of(i: WindowIconView) -> IconImage {
    IconImage { width: i.width, height: i.height, argb: i.argb }
}

pub open spec fn best_area(best: Option<IconImage>) -> int {
    match best {
        Some(i) => area(i.width, i.height),
        None => 0,
    }
}

/// Scanning `_NET_WM_ICON` data from `offset`, keeping the largest icon so
/// far: each icon is a width, a height and width*height pixels. A truncated
/// or empty icon ends the scan; an overflowing size makes the whole value
/// unreadable.
pub open spec fn scan_icons(values: Seq<u32>, offset: int, best: Option<IconImage>) -> Option<
    IconImage,
>
    decreases values.len() - offset,
{
    if offset < 0 || offset + 2 > values.len() {
        best
    } else {
        let w = values[offset];
        let h = values[offset + 1];
        let start = offset + 2;
        if w * h > u32::MAX {
            None
        } else if w == 0 || h == 0 || start + w * h > values.len() {
            best
        } else {
            let cand = IconImage {
                width: w,
                height: h,
                argb: values.subrange(start, start + w * h),
            };
            let next = if area(w, h) > best_area(best) {
                Some(cand)
            } else {
                best
            };
            scan_icons(values, start + w * h, next)
        }
    }
}

/// The largest icon in a `_NET_WM_ICON` value.
pub open spec fn largest_icon(values: Seq<u32>) -> Option<IconImage> {
    scan_icons(values, 0, None)
}

/// The positions of the complete icons of a `_NET_WM_ICON` value from
/// `offset` on: each icon is a width, a height and width*height pixels, and
/// the list ends at the first truncated, empty or overflowing icon.
pub open spec fn icon_frames(values: Seq<u32>, offset: int) -> Seq<int>
    decreases values.len() - offset,
{
    if offset < 0 || offset + 2 > values.len() {
        Seq::empty()
    } else {
        let w = values[offset];
        let h = values[offset + 1];
        let start = offset + 2;
        if w * h > u32::MAX || w == 0 || h == 0 || start + w * h > values.len() {
            Seq::empty()
        } else {
            seq![offset] + icon_frames(values, start + w * h)
        }
    }
}

/// Some icon size in the value, before its first truncated or empty icon,
/// overflows `u32`.
pub open spec fn icon_size_overflows(values: Seq<u32>, offset: int) -> bool
    decreases values.len() - offset,
{
    if offset < 0 || offset + 2 > values.len() {
        false
    } else {
        let w = values[offset];
        let h = values[offset + 1];
        let start = offset + 2;
        if w * h > u32::MAX {
            true
        } else if w == 0 || h == 0 || start + w * h > values.len() {
            false
        } else {
            icon_size_overflows(values, start + w * h)
        }
    }
}

/// The icon that starts at `o`.
pub open spec fn icon_at(values: Seq<u32>, o: int) -> IconImage {
    let w = values[o];
    let h = values[o + 1];
    IconImage { width: w, height: h, argb: values.subrange(o + 2, o + 2 + w * h) }
}

proof fn lemma_frames_valid(values: Seq<u32>, offset: int)
    requires
        offset >= 0,
    ensures
        forall|k: int| 0 <= k < icon_frames(values, offset).len() ==> {
            let o = #[trigger] icon_frames(values, offset)[k];
            &&& offset <= o
            &&& o + 2 <= values.len()
            &&& values[o] * values[o + 1] <= u32::MAX
            &&& o + 2 + values[o] * values[o + 1] <= values.len()
        },
    decreases values.len() - offset,
{
    if offset + 2 <= values.len() {
        let w = values[offset];
        let h = values[offset + 1];
        let start = offset + 2;
        if !(w * h > u32::MAX || w == 0 || h == 0 || start + w * h > values.len()) {
            lemma_frames_valid(values, start + w * h);
            let tail = icon_frames(values, start + w * h);
            let fr = icon_frames(values, offset);
            assert forall|k: int| 0 <= k < fr.len() implies {
                let o = #[trigger] fr[k];
                &&& offset <= o
                &&& o + 2 <= values.len()
                &&& values[o] * values[o + 1] <= u32::MAX
                &&& o + 2 + values[o] * values[o + 1] <= values.len()
            } by {
                if k > 0 {
                    assert(fr[k] == tail[k - 1]);
                }
            }
        }
    }
}

proof fn lemma_scan_keeps_largest(values: Seq<u32>, offset: int, best: Option<IconImage>)
    requires
        offset >= 0,
        best matches Some(b) ==> b.width * b.height > 0,
    ensures
        icon_size_overflows(values, offset) ==> scan_icons(values, offset, best) is None,
        !icon_size_overflows(values, offset) ==> match scan_icons(values, offset, best) {
            None => best is None && icon_frames(values, offset).len() == 0,
            Some(r) => {
                &&& best_area(Some(r)) >= best_area(best)
                &&& forall|k: int| 0 <= k < icon_frames(values, offset).len() ==> area(
                    values[#[trigger] icon_frames(values, offset)[k]],
                    values[icon_frames(values, offset)[k] + 1],
                ) <= best_area(Some(r))
                &&& (Some(r) == best || exists|k: int|
                    0 <= k < icon_frames(values, offset).len() && r == icon_at(
                        values,
                        #[trigger] icon_frames(values, offset)[k],
                    ))
            },
        },
    decreases values.len() - offset,
{
    if offset + 2 <= values.len() {
        let w = values[offset];
        let h = values[offset + 1];
        let start = offset + 2;
        if !(w * h > u32::MAX || w == 0 || h == 0 || start + w * h > values.len()) {
            let cand = icon_at(values, offset);
            assert(w * h > 0) by (nonlinear_arith)
                requires
                    w > 0,
                    h > 0,
            ;
            let next = if area(w, h) > best_area(best) {
                Some(cand)
            } else {
                best
            };
            lemma_scan_keeps_largest(values, start + w * h, next);
            let tail = icon_frames(values, start + w * h);
            let fr = icon_frames(values, offset);
            assert(fr == seq![offset] + tail);
            if !icon_size_overflows(values, offset) {
                let r = scan_icons(values, offset, best);
                assert(r == scan_icons(values, start + w * h, next));
                assert(r is Some);
                let rr = r->0;
                assert forall|k: int| 0 <= k < fr.len() implies area(
                    values[#[trigger] fr[k]],
                    values[fr[k] + 1],
                ) <= best_area(Some(rr)) by {
                    if k > 0 {
                        assert(fr[k] == tail[k - 1]);
                    }
                }
                if Some(rr) != best {
                    if Some(rr) == next {
                        assert(rr == icon_at(values, fr[0]));
                    } else {
                        let j = choose|j: int| 0 <= j < tail.len() && rr == icon_at(values, #[trigger] tail[j]);
                        assert(fr[j + 1] == tail[j]);
                    }
                }
            }
        }
    }
}

/// The icon read from a `_NET_WM_ICON` value is the largest of its complete
/// icons (the first of the largest), and there is one exactly when the value
/// holds a complete icon and no icon size overflows.
pub proof fn lemma_parsed_icon_is_largest(values: Seq<u32>)
    ensures
        icon_size_overflows(values, 0) ==> largest_icon(values) is None,
        !icon_size_overflows(values, 0) ==> (largest_icon(values) is None <==> icon_frames(values, 0).len() == 0),
        largest_icon(values) matches Some(r) ==> {
            &&& forall|k: int| 0 <= k < icon_frames(values, 0).len() ==>
                values[#[trigger] icon_frames(values, 0)[k]] * values[icon_frames(values, 0)[k] + 1]
                    <= r.width * r.height
            &&& exists|k: int| 0 <= k < icon_frames(values, 0).len() && r == icon_at(
                values,
                #[trigger] icon_frames(values, 0)[k],
            )
        },
{
    lemma_scan_keeps_largest(values, 0, None);
    lemma_frames_valid(values, 0);
    let fr = icon_frames(values, 0);
    if let Some(r) = largest_icon(values) {
        let j = choose|j: int| 0 <= j < fr.len() && r == icon_at(values, #[trigger] fr[j]);
        assert(r.width * r.height <= u32::MAX);
        assert forall|k: int| 0 <= k < fr.len() implies values[#[trigger] fr[k]] * values[fr[k] + 1]
            <= r.width * r.height by {
            assert(area(values[fr[k]], values[fr[k] + 1]) <= best_area(Some(r)));
        }
    }
}

/// The largest icon in a `_NET_WM_ICON` property value; `None` when there is
/// none or a size overflows.
pub fn parse_window_icon(values: &[u32]) -> (r: Option<WindowIcon>)
    ensures
        match r {
            Some(i) => largest_icon(values@) == Some(image_of(i@)),
            None => largest_icon(values@) is None,
        },
{
    let mut offset: usize = 0;
    let mut best: Option<WindowIcon> = None;
    while offset <= values.len() && values.len() - offset >= 2
        invariant
            offset <= values@.len(),
            largest_icon(values@) == scan_icons(values@, offset as int, match best {
                Some(i) => Some(image_of(i@)),
                None => None,
            }),
            best matches Some(i) ==> i@.width * i@.height <= u32::MAX,
        decreases values.len() - offset,
    {
        let width = values[offset];
        let height = values[offset + 1];
        let start = offset + 2;
        let len = match width.checked_mul(height) {
            Some(l) => l,
            None => return None,
        };
        if width == 0 || height == 0 || (len as usize) > values.len() - start {
            return best;
        }
        let end = start + len as usize;
        let mut argb: Vec<u32> = Vec::new();
        let mut k = start;
        while k < end
            invariant
                start <= k <= end <= values@.len(),
                argb@ == values@.subrange(start as int, k as int),
            decreases end - k,
        {
            argb.push(values[k]);
            assert(values@.subrange(start as int, k + 1) =~= values@.subrange(
                start as int,
                k as int,
            ).push(values@[k as int]));
            k = k + 1;
        }
        let best_area: u32 = match &best {
            Some(icon) => icon.width() * icon.height(),
            None => 0,
        };
        if len > best_area {
            best = Some(WindowIcon::from_argb(width, height, argb));
        }
        offset = end;
    }
    best
}

/// The `_NET_WM_STRUT_PARTIAL` values for a dock on a root window of the
/// given size: the reserved thickness on the dock's edge and the span it
/// covers along that edge, clamped to the screen; all zero when the dock
/// reserves no space.
pub open spec fn struts_spec(g: DockGeometry, root_width: i32, root_height: i32) -> Seq<u32> {
    if !g.reserve_space {
        Seq::new(12, |i: int| 0u32)
    } else {
        let reserved: u32 = if g.reserved_thickness < 1 {
            1
        } else {
            g.reserved_thickness
        };
        let x_start: u32 = if g.x < 0 {
            0
        } else {
            g.x as u32
        };
        let y_start: u32 = if g.y < 0 {
            0
        } else {
            g.y as u32
        };
        let x_end: u32 = clamp_to(g.x + g.width - 1, root_width - 1) as u32;
        let y_end: u32 = clamp_to(g.y + g.height - 1, root_height - 1) as u32;
        match g.edge {
            DockEdge::Left => seq![reserved, 0, 0, 0, y_start, y_end, 0, 0, 0, 0, 0, 0],
            DockEdge::Right => seq![0, reserved, 0, 0, 0, 0, y_start, y_end, 0, 0, 0, 0],
            DockEdge::Top => seq![0, 0, reserved, 0, 0, 0, 0, 0, x_start, x_end, 0, 0],
            DockEdge::Bottom => seq![0, 0, 0, reserved, 0, 0, 0, 0, 0, 0, x_start, x_end],
        }
    }
}

/// `v` limited to `0..=hi`.
pub open spec fn clamp_to(v: int, hi: int) -> int {
    if v < 0 {
        0
    } else if v > hi {
        hi
    } else {
        v
    }
}

/// The dock's far corner stays within `i32`, and the root window is not empty.
pub open spec fn struts_fit(g: DockGeometry, root_width: i32, root_height: i32) -> bool {
    &&& g.width <= i32::MAX
    &&& g.height <= i32::MAX
    &&& i32::MIN <= g.x + g.width - 1
    &&& g.x + g.width <= i32::MAX
    &&& i32::MIN <= g.y + g.height - 1
    &&& g.y + g.height <= i32::MAX
    &&& root_width >= 1
    &&& root_height >= 1
}

fn clamp_coordinate(v: i32, hi: i32) -> (r: u32)
    requires
        hi >= 0,
    ensures
        r as int == clamp_to(v as int, hi as int),
{
    if v < 0 {
        0
    } else if v > hi {
        hi as u32
    } else {
        v as u32
    }
}

/// The strut values that reserve screen space for the dock.
pub fn struts_for(geometry: DockGeometry, root_width: i32, root_height: i32) -> (r: [u32; 12])
    requires
        !geometry.reserve_space || struts_fit(geometry, root_width, root_height),
    ensures
        r@ == struts_spec(geometry, root_width, root_height),
{
    if !geometry.reserve_space {
        let z: [u32; 12] = [0, 0, 0, 0, 0, 0, 0, 0, 0, 0, 0, 0];
        assert(z@ =~= Seq::new(12, |i: int| 0u32));
        return z;
    }
    let reserved: u32 = if geometry.reserved_thickness < 1 {
        1
    } else {
        geometry.reserved_thickness
    };
    let x_start: u32 = if geometry.x < 0 {
        0
    } else {
        geometry.x as u32
    };
    let y_start: u32 = if geometry.y < 0 {
        0
    } else {
        geometry.y as u32
    };
    let x_end = clamp_coordinate(geometry.x + geometry.width as i32 - 1, root_width - 1);
    let y_end = clamp_coordinate(geometry.y + geometry.height as i32 - 1, root_height - 1);
    let r: [u32; 12] = match geometry.edge {
        DockEdge::Left => [reserved, 0, 0, 0, y_start, y_end, 0, 0, 0, 0, 0, 0],
        DockEdge::Right => [0, reserved, 0, 0, 0, 0, y_start, y_end, 0, 0, 0, 0],
        DockEdge::Top => [0, 0, reserved, 0, 0, 0, 0, 0, x_start, x_end, 0, 0],
        DockEdge::Bottom => [0, 0, 0, reserved, 0, 0, 0, 0, 0, 0, x_start, x_end],
    };
    assert(r@ =~= struts_spec(geometry, root_width, root_height));
    r
}

/// The text that the bytes encode when they are valid UTF-8; none otherwise.
pub uninterp spec fn utf8_text(bytes: Seq<u8>) -> Option<Seq<char>>;

/// Calls `String::from_utf8`: the string when the bytes are valid UTF-8,
/// none otherwise. The contract names that result.
#[verifier::external_body]
fn decode_utf8(bytes: Vec<u8>) -> (r: Option<String>)
    ensures
        opt_view(r) == utf8_text(bytes@),
{
    String::from_utf8(bytes).ok()
}

/// A text property's value: none when it is empty or not UTF-8.
pub fn text_property(bytes: Vec<u8>) -> (r: Option<String>)
    ensures
        opt_view(r) == (if bytes@.len() == 0 {
            None
        } else {
            utf8_text(bytes@)
        }),
{
    if bytes.len() == 0 {
        None
    } else {
        decode_utf8(bytes)
    }
}

/// State of splitting at NUL bytes, keeping only non-empty parts.
pub struct NulSplit {
    pub parts: Seq<Seq<u8>>,
    pub current: Seq<u8>,
}

pub open spec fn nul_run(b: Seq<u8>) -> NulSplit
    decreases b.len(),
{
    if b.len() == 0 {
        NulSplit { parts: Seq::empty(), current: Seq::empty() }
    } else {
        let st = nul_run(b.drop_last());
        if b.last() == 0 {
            if st.current.len() > 0 {
                NulSplit { parts: st.parts.push(st.current), current: Seq::empty() }
            } else {
                st
            }
        } else {
            NulSplit { current: st.current.push(b.last()), ..st }
        }
    }
}

/// The non-empty NUL-separated parts of a property value.
pub open spec fn nul_parts(b: Seq<u8>) -> Seq<Seq<u8>> {
    let st = nul_run(b);
    if st.current.len() > 0 {
        st.parts.push(st.current)
    } else {
        st.parts
    }
}

/// The class part of `WM_CLASS` (instance, then class): the second part,
/// else the first.
pub open spec fn wm_class_part(b: Seq<u8>) -> Option<Seq<u8>> {
    let p = nul_parts(b);
    if p.len() >= 2 {
        Some(p[1])
    } else if p.len() == 1 {
        Some(p[0])
    } else {
        None
    }
}

fn nul_parts_vec(b: &[u8]) -> (r: Vec<Vec<u8>>)
    ensures
        r@.map_values(|w: Vec<u8>| w@) == nul_parts(b@),
{
    let mut parts: Vec<Vec<u8>> = Vec::new();
    let mut current: Vec<u8> = Vec::new();
    let mut i: usize = 0;
    assert(b@.subrange(0, 0) =~= Seq::<u8>::empty());
    assert(parts@.map_values(|w: Vec<u8>| w@) =~= Seq::<Seq<u8>>::empty());
    while i < b.len()
        invariant
            i <= b@.len(),
            (NulSplit { parts: parts@.map_values(|w: Vec<u8>| w@), current: current@ }) == nul_run(
                b@.subrange(0, i as int),
            ),
        decreases b.len() - i,
    {
        let x = b[i];
        assert(b@.subrange(0, i + 1).drop_last() == b@.subrange(0, i as int));
        if x == 0 {
            if current.len() > 0 {
                let ghost old_parts = parts@;
                let ghost cur = current@;
                parts.push(current);
                current = Vec::new();
                assert(parts@.map_values(|w: Vec<u8>| w@) =~= old_parts.map_values(
                    |w: Vec<u8>| w@,
                ).push(cur));
            }
        } else {
            current.push(x);
        }
        i = i + 1;
    }
    assert(b@.subrange(0, b.len() as int) == b@);
    if current.len() > 0 {
        let ghost old_parts = parts@;
        let ghost cur = current@;
        parts.push(current);
        assert(parts@.map_values(|w: Vec<u8>| w@) =~= old_parts.map_values(|w: Vec<u8>| w@).push(
            cur,
        ));
    }
    parts
}

/// The window class named by a `WM_CLASS` property value.
pub fn window_class_from(bytes: &[u8]) -> (r: Option<String>)
    ensures
        opt_view(r) == (match wm_class_part(bytes@) {
            Some(c) => utf8_text(c),
            None => None,
        }),
{
    let mut parts = nul_parts_vec(bytes);
    let ghost pv = parts@.map_values(|w: Vec<u8>| w@);
    let n = parts.len();
    if n == 0 {
        return None;
    }
    let chosen = if n >= 2 {
        parts.swap_remove(1)
    } else {
        parts.swap_remove(0)
    };
    assert(chosen@ == (if n >= 2 {
        pv[1]
    } else {
        pv[0]
    }));
    decode_utf8(chosen)
}

/// What the dock reads from a window besides its id.
#[derive(Debug, Clone, PartialEq)]
pub struct WindowProperties {
    pub states: Vec<u32>,
    pub title: Option<String>,
    pub class: Option<String>,
    pub pid: Option<u32>,
    pub executable: Option<String>,
    pub workspace: Option<u32>,
    pub icon: Option<WindowIcon>,
}

/// The window as the dock sees it: none for the dock's own window and for a
/// window with neither title nor class; active when it is the active window,
/// urgent when it demands attention, minimized when hidden.
pub fn window_info_from(
    xid: WindowId,
    props: WindowProperties,
    dock_window: Option<WindowId>,
    active_window: Option<WindowId>,
    demands_attention: u32,
    hidden: u32,
) -> (r: Option<WindowInfo>)
    ensures
        (dock_window == Some(xid) || (props.title is None && props.class is None)) ==> r is None,
        !(dock_window == Some(xid) || (props.title is None && props.class is None)) ==> r
            == Some(
            WindowInfo {
                xid,
                title: props.title,
                class: props.class,
                pid: props.pid,
                executable: props.executable,
                workspace: props.workspace,
                icon: props.icon,
                active: active_window == Some(xid),
                urgent: props.states@.contains(demands_attention),
                minimized: props.states@.contains(hidden),
            },
        ),
{
    if dock_window == Some(xid) {
        return None;
    }
    if props.title.is_none() && props.class.is_none() {
        return None;
    }
    let urgent = contains_u32(&props.states, demands_attention);
    let minimized = contains_u32(&props.states, hidden);
    Some(
        WindowInfo {
            xid,
            title: props.title,
            class: props.class,
            pid: props.pid,
            executable: props.executable,
            workspace: props.workspace,
            icon: props.icon,
            active: active_window == Some(xid),
            urgent,
            minimized,
        },
    )
}

fn contains_u32(v: &Vec<u32>, x: u32) -> (r: bool)
    ensures
        r == v@.contains(x),
{
    let mut i: usize = 0;
    while i < v.len()
        invariant
            i <= v@.len(),
            forall|k: int| 0 <= k < i ==> v@[k] != x,
        decreases v.len() - i,
    {
        if v[i] == x {
            return true;
        }
        i = i + 1;
    }
    false
}

/// A RandR monitor: its output name (when it has one), whether it is the
/// primary monitor, and its rectangle.
#[derive(Debug, Clone, PartialEq, Eq)]
pub struct RandrMonitor {
    pub name: Option<String>,
    pub primary: bool,
    pub x: i16,
    pub y: i16,
    pub width: u16,
    pub height: u16,
}

pub struct RandrMonitorView {
    pub name: Option<Seq<char>>,
    pub primary: bool,
    pub x: i16,
    pub y: i16,
    pub width: u16,
    pub height: u16,
}

impl View for RandrMonitor {
    type V = RandrMonitorView;

    open spec fn view(&self) -> RandrMonitorView {
        RandrMonitorView {
            name: opt_view(self.name),
            primary: self.primary,
            x: self.x,
            y: self.y,
            width: self.width,
            height: self.height,
        }
    }
}

pub open spec fn monitors_view(ms: Seq<RandrMonitor>) -> Seq<RandrMonitorView> {
    ms.map_values(|m: RandrMonitor| m@)
}

pub open spec fn geometry_of(m: RandrMonitorView) -> MonitorGeometry {
    MonitorGeometry { x: m.x as i32, y: m.y as i32, width: m.width as u32, height: m.height as u32 }
}

/// A monitor's rectangle as a monitor geometry.
pub fn monitor_geometry(monitor: &RandrMonitor) -> (r: MonitorGeometry)
    ensures
        r == geometry_of(monitor@),
{
    MonitorGeometry {
        x: monitor.x as i32,
        y: monitor.y as i32,
        width: monitor.width as u32,
        height: monitor.height as u32,
    }
}

pub open spec fn is_primary() -> spec_fn(RandrMonitorView) -> bool {
    |m: RandrMonitorView| m.primary
}

pub open spec fn is_active() -> spec_fn(RandrMonitorView) -> bool {
    |m: RandrMonitorView| m.width > 0 && m.height > 0
}

pub open spec fn named(preferred: Seq<char>) -> spec_fn(RandrMonitorView) -> bool {
    |m: RandrMonitorView|
        match m.name {
            Some(n) => eq_ic(n, preferred),
            None => false,
        }
}

/// What parsing a `usize` gives.
pub open spec fn parse_usize_spec(s: Seq<char>) -> Option<usize> {
    match parse_u64_spec(s) {
        Some(v) => if v <= usize::MAX {
            Some(v as usize)
        } else {
            None
        },
        None => None,
    }
}

/// The monitor the user asked for: `primary` (ignoring ASCII case) names the
/// primary monitor, a number names a monitor by position, anything else names
/// a monitor by its output name (ignoring ASCII case).
pub open spec fn preferred_monitor_spec(ms: Seq<RandrMonitorView>, preferred: Seq<char>) -> Option<
    int,
> {
    if eq_ic(preferred, "primary"@) {
        let i = first_where(ms, is_primary());
        if i >= 0 {
            Some(i)
        } else {
            None
        }
    } else {
        match parse_usize_spec(preferred) {
            Some(n) => if (n as int) < ms.len() {
                Some(n as int)
            } else {
                None
            },
            None => {
                let i = first_where(ms, named(preferred));
                if i >= 0 {
                    Some(i)
                } else {
                    None
                }
            },
        }
    }
}

fn first_index(ms: &Vec<RandrMonitor>, preferred: &str, by_name: bool) -> (r: Option<usize>)
    ensures
        ({
            let p = if by_name {
                named(preferred@)
            } else {
                is_primary()
            };
            let i = first_where(monitors_view(ms@), p);
            match r {
                Some(k) => k as int == i && k < ms@.len(),
                None => i < 0,
            }
        }),
{
    let ghost mv = monitors_view(ms@);
    let ghost p = if by_name {
        named(preferred@)
    } else {
        is_primary()
    };
    let mut i: usize = 0;
    while i < ms.len()
        invariant
            i <= ms@.len(),
            mv == monitors_view(ms@),
            p == (if by_name {
                named(preferred@)
            } else {
                is_primary()
            }),
            forall|k: int| 0 <= k < i ==> !p(#[trigger] mv[k]),
        decreases ms.len() - i,
    {
        assert(mv[i as int] == ms@[i as int]@);
        let hit = if by_name {
            match &ms[i].name {
                Some(n) => str_eq_ic(n.as_str(), preferred),
                None => false,
            }
        } else {
            ms[i].primary
        };
        if hit {
            proof {
                lemma_first_where_is(mv, p, i as int);
            }
            return Some(i);
        }
        i = i + 1;
    }
    proof {
        lemma_first_where_none(mv, p);
    }
    None
}

/// Picks the monitor the user asked for among `monitors`.
pub fn preferred_monitor(monitors: &Vec<RandrMonitor>, preferred: &str) -> (r: Option<usize>)
    ensures
        match r {
            Some(k) => k < monitors@.len() && preferred_monitor_spec(
                monitors_view(monitors@),
                preferred@,
            ) == Some(k as int),
            None => preferred_monitor_spec(monitors_view(monitors@), preferred@) is None,
        },
{
    if str_eq_ic(preferred, "primary") {
        return first_index(monitors, preferred, false);
    }
    match parse_u64(&chars_of(preferred)) {
        Some(v) => {
            if v <= usize::MAX as u64 {
                let n = v as usize;
                if n < monitors.len() {
                    Some(n)
                } else {
                    None
                }
            } else {
                first_index(monitors, preferred, true)
            }
        },
        None => first_index(monitors, preferred, true),
    }
}

/// The monitor the dock goes on: among the monitors with an area, the one
/// the user asked for (the request trimmed; a blank request asks for none),
/// else the primary one, else the first; none when no monitor has an area.
pub open spec fn chosen_monitor(ms: Seq<RandrMonitorView>, preferred: Option<Seq<char>>) -> Option<
    MonitorGeometry,
> {
    let act = keep(ms, is_active());
    if act.len() == 0 {
        None
    } else {
        let asked = match preferred {
            Some(p) => if trim(p).len() > 0 {
                preferred_monitor_spec(act, trim(p))
            } else {
                None
            },
            None => None,
        };
        match asked {
            Some(i) => Some(geometry_of(act[i])),
            None => {
                let i = first_where(act, is_primary());
                Some(geometry_of(if i >= 0 { act[i] } else { act[0] }))
            },
        }
    }
}

/// Chooses the dock's monitor from the RandR monitors.
pub fn choose_monitor(monitors: Vec<RandrMonitor>, preferred: Option<&str>) -> (r: Option<
    MonitorGeometry,
>)
    ensures
        r == chosen_monitor(monitors_view(monitors@), crate::theme_pack::opt_str_view(preferred)),
{
    let ghost mv = monitors_view(monitors@);
    let mut act: Vec<RandrMonitor> = Vec::new();
    let mut rest = monitors;
    let ghost all = rest@;
    let mut taken: usize = 0;
    assert(all.len() == rest.len());
    assert(mv.take(0) =~= Seq::<RandrMonitorView>::empty());
    assert(monitors_view(act@) =~= Seq::<RandrMonitorView>::empty());
    while rest.len() > 0
        invariant
            taken + rest@.len() == all.len(),
            all.len() <= usize::MAX,
            mv == monitors_view(all),
            rest@ == all.skip(taken as int),
            monitors_view(act@) == keep(mv.take(taken as int), is_active()),
        decreases rest.len(),
    {
        let ghost before = rest@;
        let m = rest.remove(0);
        assert(m == all[taken as int]);
        assert(rest@ =~= all.skip(taken + 1));
        assert(mv.take(taken + 1) =~= mv.take(taken as int).push(m@));
        proof {
            lemma_keep_push(mv.take(taken as int), m@, is_active());
        }
        if m.width > 0 && m.height > 0 {
            let ghost av = monitors_view(act@);
            act.push(m);
            assert(monitors_view(act@) =~= av.push(m@));
        }
        taken = taken + 1;
    }
    assert(mv.take(taken as int) =~= mv);
    let ghost av = monitors_view(act@);
    if act.len() == 0 {
        return None;
    }
    let asked: Option<usize> = match preferred {
        Some(p) => {
            let t = string_of(&trim_vec(&chars_of(p)));
            if chars_of(t.as_str()).len() > 0 {
                preferred_monitor(&act, t.as_str())
            } else {
                None
            }
        },
        None => None,
    };
    match asked {
        Some(i) => {
            assert(av[i as int] == act@[i as int]@);
            Some(monitor_geometry(&act[i]))
        },
        None => {
            let i = match first_index(&act, "", false) {
                Some(k) => k,
                None => 0,
            };
            assert(av[i as int] == act@[i as int]@);
            Some(monitor_geometry(&act[i]))
        },
    }
}

} // verus!
