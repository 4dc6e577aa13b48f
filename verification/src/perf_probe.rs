//! Pointer paths and sample parsing for the performance probe that drives a
//! running dock from outside.
use crate::desktop::{split_whitespace, split_whitespace_vec};
use crate::seqs::{first_where, lemma_first_where_is, lemma_first_where_none};
use crate::text::{
    chars_of, last_index_of, last_index_of_vec, lemma_last_index_of_bounds, lines_of, lines_vec,
    parse_u64, parse_u64_spec, starts_with, starts_with_vec, subvec,
};
use vstd::prelude::*;

verus! {

/// A window's rectangle in root-window coordinates.
#[derive(Debug, Clone, Copy, PartialEq, Eq, Structural)]
pub struct RootWindowGeometry {
    pub x: i32,
    pub y: i32,
    pub width: u16,
    pub height: u16,
}

/// A straight pointer path: a fixed cross-axis `lane` and a long-axis span
/// from `start` to `end`.
#[derive(Debug, Clone, Copy, PartialEq, Eq, Structural)]
pub struct HoverPath {
    pub lane: i32,
    pub start: i32,
    pub end: i32,
}

impl RootWindowGeometry {
    /// The rectangle's far edges fit in `i32`.
    pub open spec fn fits(self) -> bool {
        self.x + self.width <= i32::MAX && self.y + self.height <= i32::MAX
    }

    /// The point lies inside the rectangle.
    pub open spec fn holds(self, px: int, py: int) -> bool {
        self.x <= px < self.x + self.width && self.y <= py < self.y + self.height
    }

    /// Whether the point lies inside the rectangle.
    pub fn contains(self, point: (i32, i32)) -> (r: bool)
        requires
            self.fits(),
        ensures
            r == self.holds(point.0 as int, point.1 as int),
    {
        point.0 >= self.x && point.0 < self.x + self.width as i32 && point.1 >= self.y && point.1
            < self.y + self.height as i32
    }
}

pub open spec fn min_int(a: int, b: int) -> int {
    if a <= b {
        a
    } else {
        b
    }
}

/// The pointer path through a rectangle of the dock's input shape: the lane
/// sits half of at most 4 pixels into the cross axis, and the span runs the
/// long axis inset by up to 2 pixels at each end.
pub open spec fn hover_path_spec(x: i16, y: i16, width: u16, height: u16, horizontal: bool) -> (
    int,
    int,
    int,
) {
    let cross: int = if horizontal {
        y as int
    } else {
        x as int
    };
    let cross_size: int = if horizontal {
        height as int
    } else {
        width as int
    };
    let along: int = if horizontal {
        x as int
    } else {
        y as int
    };
    let along_size: int = if horizontal {
        width as int
    } else {
        height as int
    };
    let margin: int = if along_size >= 1 {
        min_int(2, (along_size - 1) / 2)
    } else {
        0
    };
    (cross + min_int(cross_size, 4) / 2, along + margin, along + along_size - 1 - margin)
}

/// The pointer path for a rectangle of the dock's input shape. For a
/// non-empty rectangle the path stays inside it, from `start` to `end`.
pub fn hover_path_for_rect(x: i16, y: i16, width: u16, height: u16, horizontal: bool) -> (r:
    HoverPath)
    ensures
        (r.lane as int, r.start as int, r.end as int) == hover_path_spec(
            x,
            y,
            width,
            height,
            horizontal,
        ),
        width > 0 && height > 0 && horizontal ==> y <= r.lane < y + height && x <= r.start
            <= r.end < x + width,
        width > 0 && height > 0 && !horizontal ==> x <= r.lane < x + width && y <= r.start
            <= r.end < y + height,
{
    let (cross, cross_size, along, along_size) = if horizontal {
        (y as i32, height as i32, x as i32, width as i32)
    } else {
        (x as i32, width as i32, y as i32, height as i32)
    };
    let margin: i32 = if along_size >= 1 {
        let half = (along_size - 1) / 2;
        if 2 <= half {
            2
        } else {
            half
        }
    } else {
        0
    };
    let lane_offset: i32 = if cross_size <= 4 {
        cross_size / 2
    } else {
        2
    };
    HoverPath { lane: cross + lane_offset, start: along + margin, end: along + along_size - 1 - margin }
}

/// `value` clamped into the `i16` range.
pub fn clamp_i16(value: i32) -> (r: i16)
    ensures
        r as int == (if value < i16::MIN {
            i16::MIN as int
        } else if value > i16::MAX {
            i16::MAX as int
        } else {
            value as int
        }),
{
    if value < -32768 {
        -32768
    } else if value > 32767 {
        32767
    } else {
        value as i16
    }
}

/// `v - 1`, saturating at `i32::MIN`, and at least 0.
pub open spec fn last_coordinate(v: i32) -> i32 {
    if v - 1 < 0 {
        0
    } else {
        (v - 1) as i32
    }
}

/// Where the pointer rests while the dock idles: the pointer itself when it
/// is outside the dock, else the first screen corner outside the dock (top
/// left, top right, bottom left, bottom right), else the origin.
pub open spec fn idle_point_spec(g: RootWindowGeometry, screen: (i32, i32), pointer: (i32, i32)) -> (
    i32,
    i32,
) {
    let mx = last_coordinate(screen.0);
    let my = last_coordinate(screen.1);
    if !g.holds(pointer.0 as int, pointer.1 as int) {
        pointer
    } else if !g.holds(0, 0) {
        (0, 0)
    } else if !g.holds(mx as int, 0) {
        (mx, 0)
    } else if !g.holds(0, my as int) {
        (0, my)
    } else if !g.holds(mx as int, my as int) {
        (mx, my)
    } else {
        (0, 0)
    }
}

/// Where to park the pointer while measuring an idle dock.
pub fn idle_point(geometry: RootWindowGeometry, screen_size: (i32, i32), pointer: (i32, i32)) -> (r:
    (i32, i32))
    requires
        geometry.fits(),
    ensures
        r == idle_point_spec(geometry, screen_size, pointer),
{
    if !geometry.contains(pointer) {
        return pointer;
    }
    let mx: i32 = if screen_size.0 < 1 {
        0
    } else {
        screen_size.0 - 1
    };
    let my: i32 = if screen_size.1 < 1 {
        0
    } else {
        screen_size.1 - 1
    };
    let corners: [(i32, i32); 4] = [(0, 0), (mx, 0), (0, my), (mx, my)];
    let mut i: usize = 0;
    while i < 4
        invariant
            i <= 4,
            geometry.fits(),
            mx == last_coordinate(screen_size.0),
            my == last_coordinate(screen_size.1),
            geometry.holds(pointer.0 as int, pointer.1 as int),
            corners@ == seq![(0i32, 0i32), (mx, 0i32), (0i32, my), (mx, my)],
            forall|k: int| 0 <= k < i ==> geometry.holds(corners@[k].0 as int, corners@[k].1 as int),
        decreases 4 - i,
    {
        if !geometry.contains(corners[i]) {
            return corners[i];
        }
        i = i + 1;
    }
    (0, 0)
}

/// The window's metadata: its process id, when it has one, and its window
/// types.
pub open spec fn is_dock_of(meta: (Option<u32>, Seq<u32>), pid: u32, dock_atom: u32) -> bool {
    meta.0 == Some(pid) && meta.1.contains(dock_atom)
}

/// Whether a window with this process id and these window types is the
/// dock of process `pid`.
pub fn window_is_dock(window_pid: Option<u32>, window_types: &Vec<u32>, pid: u32, dock_atom: u32) -> (r: bool)
    ensures
        r == is_dock_of((window_pid, window_types@), pid, dock_atom),
{
    match window_pid {
        Some(p) => {
            if p != pid {
                return false;
            }
        },
        None => return false,
    }
    let mut i: usize = 0;
    while i < window_types.len()
        invariant
            i <= window_types.len(),
            window_pid == Some(pid),
            forall|j: int| 0 <= j < i ==> window_types@[j] != dock_atom,
        decreases window_types.len() - i,
    {
        if window_types[i] == dock_atom {
            assert(window_types@[i as int] == dock_atom);
            return true;
        }
        i = i + 1;
    }
    false
}

/// The first candidate whose metadata names the process and the dock window
/// type. `metadata[i]` belongs to `candidates[i]`.
pub fn find_matching_dock(
    candidates: &[u32],
    pid: u32,
    dock_atom: u32,
    metadata: &[(Option<u32>, Vec<u32>)],
) -> (r: Option<u32>)
    requires
        metadata@.len() == candidates@.len(),
    ensures
        match r {
            Some(w) => exists|i: int|
                0 <= i < candidates@.len() && candidates@[i] == w && is_dock_of(
                    (metadata@[i].0, metadata@[i].1@),
                    pid,
                    dock_atom,
                ) && forall|j: int|
                    0 <= j < i ==> !is_dock_of(
                        (#[trigger] metadata@[j].0, metadata@[j].1@),
                        pid,
                        dock_atom,
                    ),
            None => forall|j: int|
                0 <= j < candidates@.len() ==> !is_dock_of(
                    (#[trigger] metadata@[j].0, metadata@[j].1@),
                    pid,
                    dock_atom,
                ),
        },
{
    let mut i: usize = 0;
    while i < candidates.len()
        invariant
            i <= candidates@.len(),
            metadata@.len() == candidates@.len(),
            forall|j: int|
                0 <= j < i ==> !is_dock_of(
                    (#[trigger] metadata@[j].0, metadata@[j].1@),
                    pid,
                    dock_atom,
                ),
        decreases candidates.len() - i,
    {
        let (window_pid, types) = (&metadata[i].0, &metadata[i].1);
        let mut has_dock = false;
        let mut k: usize = 0;
        while k < types.len()
            invariant
                k <= types@.len(),
                has_dock == types@.take(k as int).contains(dock_atom),
            decreases types.len() - k,
        {
            let ghost prev = types@.take(k as int);
            assert(types@.take(k + 1) =~= prev.push(types@[k as int]));
            if types[k] == dock_atom {
                has_dock = true;
                assert(types@.take(k + 1)[k as int] == dock_atom);
            } else {
                proof {
                    let next = types@.take(k + 1);
                    if next.contains(dock_atom) {
                        let j = choose|j: int| 0 <= j < next.len() && next[j] == dock_atom;
                        assert(prev[j] == dock_atom);
                    }
                    if prev.contains(dock_atom) {
                        let j = choose|j: int| 0 <= j < prev.len() && prev[j] == dock_atom;
                        assert(next[j] == dock_atom);
                    }
                }
            }
            k = k + 1;
        }
        assert(types@.take(types@.len() as int) =~= types@);
        let pid_matches = match window_pid {
            Some(p) => *p == pid,
            None => false,
        };
        if pid_matches && has_dock {
            return Some(candidates[i]);
        }
        i = i + 1;
    }
    None
}

pub open spec fn line_starts_with(key: Seq<char>) -> spec_fn(Seq<char>) -> bool {
    |l: Seq<char>| starts_with(l, key)
}

/// The number after `key` in a memory rollup: the second whitespace-separated
/// word of the first line that starts with `key`, parsed; 0 when there is no
/// such line or word, or the word is not a number.
pub open spec fn rollup_value_spec(rollup: Seq<char>, key: Seq<char>) -> u64 {
    let ls = lines_of(rollup);
    let i = first_where(ls, line_starts_with(key));
    if i < 0 {
        0
    } else {
        let words = split_whitespace(ls[i]);
        if words.len() < 2 {
            0
        } else {
            match parse_u64_spec(words[1]) {
                Some(v) => v,
                None => 0,
            }
        }
    }
}

/// Reads one value (in KiB) from a process's memory rollup.
pub fn rollup_value(rollup: &str, key: &str) -> (r: u64)
    ensures
        r == rollup_value_spec(rollup@, key@),
{
    let lines = lines_vec(&chars_of(rollup));
    let kv = chars_of(key);
    let ghost ls = lines@.map_values(|w: Vec<char>| w@);
    let mut i: usize = 0;
    while i < lines.len()
        invariant
            i <= lines@.len(),
            ls == lines@.map_values(|w: Vec<char>| w@),
            ls == lines_of(rollup@),
            kv@ == key@,
            forall|k: int| 0 <= k < i ==> !line_starts_with(key@)(#[trigger] ls[k]),
        decreases lines.len() - i,
    {
        assert(ls[i as int] == lines@[i as int]@);
        if starts_with_vec(&lines[i], &kv) {
            proof {
                lemma_first_where_is(ls, line_starts_with(key@), i as int);
            }
            let words = split_whitespace_vec(&lines[i]);
            if words.len() < 2 {
                return 0;
            }
            assert(words@.map_values(|w: Vec<char>| w@)[1] == words@[1]@);
            return match parse_u64(&words[1]) {
                Some(v) => v,
                None => 0,
            };
        }
        i = i + 1;
    }
    proof {
        lemma_first_where_none(ls, line_starts_with(key@));
    }
    0
}

/// Why the CPU times of a process could not be read from its `stat` line.
#[derive(Debug, Clone, Copy, PartialEq, Eq, Structural)]
pub enum StatError {
    /// The line has no `)` closing the command name.
    Malformed,
    /// The user time field is missing.
    MissingUtime,
    /// The system time field is missing.
    MissingStime,
    /// A time field is not a number.
    InvalidNumber,
}

/// The fields after the command name: the whitespace-separated words that
/// follow the last `)` and the character after it.
pub open spec fn stat_fields(stat: Seq<char>) -> Seq<Seq<char>> {
    split_whitespace(stat.skip(last_index_of(stat, ')') + 2))
}

/// The user and system times of a `stat` line (fields 12 and 13 after the
/// command name, counted from 0 as 11 and 12), or the first problem met.
pub open spec fn stat_times_spec(stat: Seq<char>) -> Result<(u64, u64), StatError> {
    if last_index_of(stat, ')') < 0 {
        Err(StatError::Malformed)
    } else {
        let f = stat_fields(stat);
        if f.len() <= 11 {
            Err(StatError::MissingUtime)
        } else {
            match parse_u64_spec(f[11]) {
                None => Err(StatError::InvalidNumber),
                Some(user) => if f.len() <= 12 {
                    Err(StatError::MissingStime)
                } else {
                    match parse_u64_spec(f[12]) {
                        None => Err(StatError::InvalidNumber),
                        Some(system) => Ok((user, system)),
                    }
                },
            }
        }
    }
}

/// Slicing after the `)` needs a single-byte character right after it.
pub open spec fn stat_sliceable(stat: Seq<char>) -> bool {
    let e = last_index_of(stat, ')');
    e >= 0 ==> e + 1 < stat.len() && (stat[e + 1] as u32) < 0x80
}

/// The user and system CPU times of a process, in clock ticks, from its
/// `stat` line.
pub fn stat_times(stat: &str) -> (r: Result<(u64, u64), StatError>)
    requires
        stat_sliceable(stat@),
    ensures
        r == stat_times_spec(stat@),
{
    let v = chars_of(stat);
    let end = match last_index_of_vec(&v, ')') {
        None => return Err(StatError::Malformed),
        Some(e) => e,
    };
    proof {
        lemma_last_index_of_bounds(v@, ')');
    }
    let rest = subvec(&v, end + 2, v.len());
    assert(rest@ =~= stat@.skip(end + 2));
    let fields = split_whitespace_vec(&rest);
    let ghost f = fields@.map_values(|w: Vec<char>| w@);
    assert(f == stat_fields(stat@));
    if fields.len() <= 11 {
        return Err(StatError::MissingUtime);
    }
    assert(f[11] == fields@[11]@);
    let user = match parse_u64(&fields[11]) {
        None => return Err(StatError::InvalidNumber),
        Some(u) => u,
    };
    if fields.len() <= 12 {
        return Err(StatError::MissingStime);
    }
    assert(f[12] == fields@[12]@);
    let system = match parse_u64(&fields[12]) {
        None => return Err(StatError::InvalidNumber),
        Some(s) => s,
    };
    Ok((user, system))
}

} // verus!
