//! Window-system facing geometry and data shared by backends.
use crate::config::DockEdge;
use vstd::prelude::*;

pub mod x11;

verus! {

/// A monitor's position and size on the root window.
#[derive(Debug, Clone, Copy, PartialEq, Eq, Structural)]
pub struct MonitorGeometry {
    pub x: i32,
    pub y: i32,
    pub width: u32,
    pub height: u32,
}

/// Where the dock window goes and how much screen edge it reserves.
#[derive(Debug, Clone, Copy, PartialEq, Eq, Structural)]
pub struct DockGeometry {
    pub x: i32,
    pub y: i32,
    pub width: u32,
    pub height: u32,
    pub edge: DockEdge,
    pub reserve_space: bool,
    pub reserved_thickness: u32,
}

/// Integer halving that rounds toward zero.
pub open spec fn half(v: int) -> int {
    if v >= 0 {
        v / 2
    } else {
        -((-v) / 2)
    }
}

/// At least one.
pub open spec fn at_least_one(v: i32) -> int {
    if v < 1 {
        1
    } else {
        v as int
    }
}

/// The sums the placement computes stay within `i32`.
pub open spec fn placement_fits(m: MonitorGeometry, size: (i32, i32), edge: DockEdge) -> bool {
    let w = at_least_one(size.0);
    let h = at_least_one(size.1);
    let mw = (m.width as i32) as int;
    let mh = (m.height as i32) as int;
    let in_range = |v: int| i32::MIN <= v <= i32::MAX;
    match edge {
        DockEdge::Bottom => in_range(mw - w) && in_range(m.x + half(mw - w)) && in_range(m.y + mh)
            && in_range(m.y + mh - h),
        DockEdge::Top => in_range(mw - w) && in_range(m.x + half(mw - w)),
        DockEdge::Left => in_range(mh - h) && in_range(m.y + half(mh - h)),
        DockEdge::Right => in_range(m.x + mw) && in_range(m.x + mw - w) && in_range(mh - h)
            && in_range(m.y + half(mh - h)),
    }
}

/// The dock's top-left corner: centred along its edge and flush with it.
pub open spec fn dock_origin(m: MonitorGeometry, size: (i32, i32), edge: DockEdge) -> (int, int) {
    let w = at_least_one(size.0);
    let h = at_least_one(size.1);
    let mw = (m.width as i32) as int;
    let mh = (m.height as i32) as int;
    match edge {
        DockEdge::Bottom => (m.x + half(mw - w), m.y + mh - h),
        DockEdge::Top => (m.x + half(mw - w), m.y as int),
        DockEdge::Left => (m.x as int, m.y + half(mh - h)),
        DockEdge::Right => (m.x + mw - w, m.y + half(mh - h)),
    }
}

fn halve(v: i32) -> (r: i32)
    ensures
        r == half(v as int),
{
    if v >= 0 {
        v / 2
    } else {
        assert(v > i32::MIN ==> -v <= i32::MAX);
        if v == i32::MIN {
            -1073741824
        } else {
            -((-v) / 2)
        }
    }
}

impl MonitorGeometry {
    /// Placement of a dock of `size` on this monitor along `edge`: centred
    /// along the edge and flush with it, at least one pixel each way.
    pub fn dock_geometry(
        &self,
        size: (i32, i32),
        edge: DockEdge,
        reserve_space: bool,
        reserved_thickness: u32,
    ) -> (r: DockGeometry)
        requires
            placement_fits(*self, size, edge),
        ensures
            r.x as int == dock_origin(*self, size, edge).0,
            r.y as int == dock_origin(*self, size, edge).1,
            r.width as int == at_least_one(size.0),
            r.height as int == at_least_one(size.1),
            r.edge == edge,
            r.reserve_space == reserve_space,
            r.reserved_thickness == reserved_thickness,
    {
        let width: i32 = if size.0 < 1 {
            1
        } else {
            size.0
        };
        let height: i32 = if size.1 < 1 {
            1
        } else {
            size.1
        };
        let monitor_width = self.width as i32;
        let monitor_height = self.height as i32;
        let (x, y) = match edge {
            DockEdge::Bottom => (
                self.x + halve(monitor_width - width),
                self.y + monitor_height - height,
            ),
            DockEdge::Top => (self.x + halve(monitor_width - width), self.y),
            DockEdge::Left => (self.x, self.y + halve(monitor_height - height)),
            DockEdge::Right => (
                self.x + monitor_width - width,
                self.y + halve(monitor_height - height),
            ),
        };
        DockGeometry {
            x,
            y,
            width: width as u32,
            height: height as u32,
            edge,
            reserve_space,
            reserved_thickness,
        }
    }
}

/// How much of an auto-hidden dock stays on screen, in pixels.
pub const EDGE_VISIBLE_PIXELS: i32 = 4;

/// The distance that slides the dock off its edge but for the visible strip:
/// its extent across the edge, less the strip.
pub open spec fn hidden_edge_offset_spec(g: DockGeometry, edge: DockEdge) -> int {
    match edge {
        DockEdge::Bottom | DockEdge::Top => (g.height as i32) as int - EDGE_VISIBLE_PIXELS,
        DockEdge::Left | DockEdge::Right => (g.width as i32) as int - EDGE_VISIBLE_PIXELS,
    }
}

/// How far to slide the dock to hide it at its edge.
pub fn hidden_edge_offset(geometry: &DockGeometry, edge: DockEdge) -> (r: i32)
    requires
        i32::MIN <= hidden_edge_offset_spec(*geometry, edge),
    ensures
        r as int == hidden_edge_offset_spec(*geometry, edge),
{
    match edge {
        DockEdge::Bottom | DockEdge::Top => geometry.height as i32 - EDGE_VISIBLE_PIXELS,
        DockEdge::Left | DockEdge::Right => geometry.width as i32 - EDGE_VISIBLE_PIXELS,
    }
}

/// The dock's origin moved `distance` toward the outside of its edge.
pub open spec fn offset_origin(g: DockGeometry, edge: DockEdge, distance: int) -> (int, int) {
    match edge {
        DockEdge::Bottom => (g.x as int, g.y + distance),
        DockEdge::Top => (g.x as int, g.y - distance),
        DockEdge::Left => (g.x - distance, g.y as int),
        DockEdge::Right => (g.x + distance, g.y as int),
    }
}

/// Slides the dock `distance` toward the outside of its edge.
pub fn apply_edge_offset(geometry: &mut DockGeometry, edge: DockEdge, distance: i32)
    requires
        i32::MIN <= offset_origin(*old(geometry), edge, distance as int).0 <= i32::MAX,
        i32::MIN <= offset_origin(*old(geometry), edge, distance as int).1 <= i32::MAX,
    ensures
        (final(geometry).x as int, final(geometry).y as int) == offset_origin(
            *old(geometry),
            edge,
            distance as int,
        ),
        final(geometry).width == old(geometry).width,
        final(geometry).height == old(geometry).height,
        final(geometry).edge == old(geometry).edge,
        final(geometry).reserve_space == old(geometry).reserve_space,
        final(geometry).reserved_thickness == old(geometry).reserved_thickness,
{
    match edge {
        DockEdge::Bottom => {
            geometry.y = geometry.y + distance;
        },
        DockEdge::Top => {
            geometry.y = geometry.y - distance;
        },
        DockEdge::Left => {
            geometry.x = geometry.x - distance;
        },
        DockEdge::Right => {
            geometry.x = geometry.x + distance;
        },
    }
}

/// The dock placed on the monitor, before any slide.
pub open spec fn placed_geometry(
    m: MonitorGeometry,
    size: (i32, i32),
    edge: DockEdge,
    reserve_space: bool,
    reserved_thickness: u32,
) -> DockGeometry {
    let o = dock_origin(m, size, edge);
    DockGeometry {
        x: o.0 as i32,
        y: o.1 as i32,
        width: at_least_one(size.0) as u32,
        height: at_least_one(size.1) as u32,
        edge,
        reserve_space,
        reserved_thickness,
    }
}

/// `g` slid `distance` toward the outside of its edge.
pub open spec fn slid(g: DockGeometry, edge: DockEdge, distance: int) -> DockGeometry {
    let o = offset_origin(g, edge, distance);
    DockGeometry { x: o.0 as i32, y: o.1 as i32, ..g }
}

/// The origin of `g` slid `distance` stays within `i32`.
pub open spec fn slide_fits(g: DockGeometry, edge: DockEdge, distance: int) -> bool {
    let o = offset_origin(g, edge, distance);
    i32::MIN <= o.0 <= i32::MAX && i32::MIN <= o.1 <= i32::MAX
}

/// The placed dock, reserving its edge only when asked to and not
/// auto-hidden.
pub open spec fn initial_geometry(
    m: MonitorGeometry,
    size: (i32, i32),
    edge: DockEdge,
    reserve_space: bool,
    autohide: bool,
    reserved_thickness: u32,
) -> DockGeometry {
    placed_geometry(m, size, edge, reserve_space && !autohide, reserved_thickness)
}

/// The placed dock, slid off its edge (but for the visible strip) when
/// hidden.
pub open spec fn hidden_geometry(g: DockGeometry, edge: DockEdge, hidden: bool) -> DockGeometry {
    if hidden {
        slid(g, edge, hidden_edge_offset_spec(g, edge))
    } else {
        g
    }
}

/// Where the dock should be: placed on the monitor, slid off its edge when
/// hidden, then slid by the startup reveal's remaining offset.
pub open spec fn desired_geometry_spec(
    m: MonitorGeometry,
    size: (i32, i32),
    edge: DockEdge,
    reserve_space: bool,
    autohide: bool,
    reserved_thickness: u32,
    hidden: bool,
    startup_offset: Option<i32>,
) -> DockGeometry {
    let g = hidden_geometry(initial_geometry(m, size, edge, reserve_space, autohide, reserved_thickness), edge, hidden);
    match startup_offset {
        Some(d) => slid(g, edge, d as int),
        None => g,
    }
}

/// The arithmetic of the desired geometry stays within `i32`.
pub open spec fn desired_geometry_fits(
    m: MonitorGeometry,
    size: (i32, i32),
    edge: DockEdge,
    hidden: bool,
    startup_offset: Option<i32>,
) -> bool {
    let g0 = placed_geometry(m, size, edge, false, 0);
    let g1 = hidden_geometry(g0, edge, hidden);
    &&& placement_fits(m, size, edge)
    &&& hidden ==> slide_fits(g0, edge, hidden_edge_offset_spec(g0, edge))
    &&& match startup_offset {
        Some(d) => slide_fits(g1, edge, d as int),
        None => true,
    }
}

/// Where the dock should be on `monitor`: a dock of `size` along `edge`,
/// reserving its edge when asked to and not auto-hidden, slid off the edge
/// when hidden, and slid by the startup reveal's remaining offset if one
/// runs.
pub fn desired_geometry(
    monitor: &MonitorGeometry,
    size: (i32, i32),
    edge: DockEdge,
    reserve_space: bool,
    autohide: bool,
    reserved_thickness: u32,
    hidden: bool,
    startup_offset: Option<i32>,
) -> (r: DockGeometry)
    requires
        desired_geometry_fits(*monitor, size, edge, hidden, startup_offset),
    ensures
        r == desired_geometry_spec(
            *monitor,
            size,
            edge,
            reserve_space,
            autohide,
            reserved_thickness,
            hidden,
            startup_offset,
        ),
{
    let mut geometry = monitor.dock_geometry(size, edge, reserve_space && !autohide, reserved_thickness);
    let ghost g0 = geometry;
    assert(g0 == initial_geometry(*monitor, size, edge, reserve_space, autohide, reserved_thickness));
    if hidden {
        let hidden_offset = hidden_edge_offset(&geometry, edge);
        apply_edge_offset(&mut geometry, edge, hidden_offset);
    }
    assert(geometry == hidden_geometry(g0, edge, hidden));
    match startup_offset {
        Some(d) => apply_edge_offset(&mut geometry, edge, d),
        None => {},
    }
    geometry
}

/// A hidden dock leaves exactly `EDGE_VISIBLE_PIXELS` of itself on the
/// monitor, at the edge it is attached to.
pub proof fn lemma_hidden_dock_keeps_strip(
    m: MonitorGeometry,
    size: (i32, i32),
    edge: DockEdge,
    reserve_space: bool,
    autohide: bool,
    reserved_thickness: u32,
)
    requires
        desired_geometry_fits(m, size, edge, true, None),
    ensures
        ({
            let g = desired_geometry_spec(m, size, edge, reserve_space, autohide, reserved_thickness, true, None);
            let mw = (m.width as i32) as int;
            let mh = (m.height as i32) as int;
            match edge {
                DockEdge::Bottom => g.y == m.y + mh - EDGE_VISIBLE_PIXELS,
                DockEdge::Top => g.y + g.height == m.y + EDGE_VISIBLE_PIXELS,
                DockEdge::Left => g.x + g.width == m.x + EDGE_VISIBLE_PIXELS,
                DockEdge::Right => g.x == m.x + mw - EDGE_VISIBLE_PIXELS,
            }
        }),
{
    let g0 = placed_geometry(m, size, edge, false, 0);
    let g = initial_geometry(m, size, edge, reserve_space, autohide, reserved_thickness);
    assert(g.x == g0.x && g.y == g0.y && g.width == g0.width && g.height == g0.height);
    assert(hidden_edge_offset_spec(g, edge) == hidden_edge_offset_spec(g0, edge));
}

/// The dock lies on its monitor, flush with the chosen edge and centred
/// along it (the gap on the far side is the near gap or one pixel more),
/// whenever it fits on the monitor.
pub proof fn lemma_dock_centred_on_monitor(m: MonitorGeometry, size: (i32, i32), edge: DockEdge)
    requires
        m.width <= i32::MAX,
        m.height <= i32::MAX,
        1 <= size.0 <= m.width,
        1 <= size.1 <= m.height,
    ensures
        ({
            let (x, y) = dock_origin(m, size, edge);
            let (w, h) = (size.0 as int, size.1 as int);
            let (mx, my) = (m.x as int, m.y as int);
            let (mw, mh) = (m.width as int, m.height as int);
            &&& mx <= x && x + w <= mx + mw
            &&& my <= y && y + h <= my + mh
            &&& match edge {
                DockEdge::Bottom => y + h == my + mh && 0 <= (mx + mw - (x + w)) - (x - mx) <= 1,
                DockEdge::Top => y == my && 0 <= (mx + mw - (x + w)) - (x - mx) <= 1,
                DockEdge::Left => x == mx && 0 <= (my + mh - (y + h)) - (y - my) <= 1,
                DockEdge::Right => x + w == mx + mw && 0 <= (my + mh - (y + h)) - (y - my) <= 1,
            }
        }),
{
    assert((m.width as i32) as int == m.width as int);
    assert((m.height as i32) as int == m.height as int);
}

} // verus!
