//! The byte budget shared by the rendered-surface caches (icon rasters,
//! reflections and window icons): each cached surface is a slot with its
//! size and the tick of its last use, and when the cached bytes exceed the
//! limit the least recently used slots are dropped.
use vstd::prelude::*;

verus! {

/// The default budget of cached surfaces, in bytes.
pub const SURFACE_CACHE_LIMIT: usize = 32 * 1024 * 1024;

/// Which cache a surface belongs to.
#[derive(Debug, Clone, Copy, PartialEq, Eq, Structural)]
pub enum SurfaceKind {
    Raster,
    Reflection,
    Window,
}

/// A cached surface: its cache and its identity there.
#[derive(Debug, Clone, Copy, PartialEq, Eq, Structural)]
pub struct SurfaceKey {
    pub kind: SurfaceKind,
    pub id: u64,
}

/// The bookkeeping of one cached surface.
#[derive(Debug, Clone, Copy, PartialEq, Eq, Structural)]
pub struct SurfaceSlot {
    pub key: SurfaceKey,
    pub bytes: usize,
    pub last_used: u64,
}

/// The cached surfaces, the bytes counted for them, the limit, the use
/// clock, and the generation that invalidation advances.
#[derive(Debug, Clone)]
pub struct SurfaceBudget {
    pub slots: Vec<SurfaceSlot>,
    pub surface_bytes: usize,
    pub surface_limit: usize,
    pub use_clock: u64,
    pub generation: u64,
}

/// No surface is cached twice.
pub open spec fn slot_keys_distinct(s: Seq<SurfaceSlot>) -> bool {
    forall|i: int, j: int| 0 <= i < j < s.len() ==> (#[trigger] s[i]).key != (#[trigger] s[j]).key
}

/// Every slot of `dropped` that `kept` lacks was used no later than every
/// slot of `kept`.
pub open spec fn evicted_least_recent(before: Seq<SurfaceSlot>, after: Seq<SurfaceSlot>) -> bool {
    forall|s: SurfaceSlot, t: SurfaceSlot|
        #![trigger before.contains(s), after.contains(t)]
        before.contains(s) && !after.contains(s) && after.contains(t) ==> s.last_used <= t.last_used
}

/// Every slot of `after` was in `before`.
pub open spec fn slots_kept_from(before: Seq<SurfaceSlot>, after: Seq<SurfaceSlot>) -> bool {
    forall|t: SurfaceSlot| #[trigger] after.contains(t) ==> before.contains(t)
}

/// The position of the least recently used slot: the first of those with
/// the smallest last use.
pub open spec fn oldest_index(s: Seq<SurfaceSlot>) -> int
    decreases s.len(),
{
    if s.len() <= 1 {
        0
    } else {
        let j = oldest_index(s.drop_last());
        if s.last().last_used < s[j].last_used {
            s.len() - 1
        } else {
            j
        }
    }
}

/// `a - b`, or zero when `b` is larger.
pub open spec fn sat_sub(a: usize, b: usize) -> usize {
    if a >= b {
        (a - b) as usize
    } else {
        0
    }
}

/// Eviction from slots `s` whose counted bytes are `counted`: while the
/// count exceeds `limit`, the least recently used slot is dropped and its
/// bytes are taken off the count; when no slot is left over the limit the
/// count becomes zero. Gives the slots kept and the final count.
pub open spec fn evicted(s: Seq<SurfaceSlot>, counted: usize, limit: usize) -> (Seq<SurfaceSlot>, usize)
    decreases s.len(),
{
    if counted <= limit {
        (s, counted)
    } else if s.len() == 0 {
        (s, 0)
    } else {
        let i = oldest_index(s);
        proof {
            lemma_oldest_index_bounds(s);
        }
        evicted(s.remove(i), sat_sub(counted, s[i].bytes), limit)
    }
}

/// The least recently used position lies within the slots.
pub proof fn lemma_oldest_index_bounds(s: Seq<SurfaceSlot>)
    requires
        s.len() > 0,
    ensures
        0 <= oldest_index(s) < s.len(),
    decreases s.len(),
{
    if s.len() > 1 {
        lemma_oldest_index_bounds(s.drop_last());
    }
}

impl SurfaceBudget {
    /// No surface is cached twice, and the counted bytes are within the
    /// limit.
    pub open spec fn wf(&self) -> bool {
        &&& slot_keys_distinct(self.slots@)
        &&& self.surface_bytes <= self.surface_limit
    }

    /// Drops least recently used slots while the counted bytes exceed the
    /// limit; with no slot left the count is reset to zero.
    fn evict_to_limit(&mut self)
        requires
            slot_keys_distinct(old(self).slots@),
        ensures
            final(self).wf(),
            final(self).surface_bytes <= final(self).surface_limit,
            final(self).surface_limit == old(self).surface_limit,
            final(self).use_clock == old(self).use_clock,
            final(self).generation == old(self).generation,
            slots_kept_from(old(self).slots@, final(self).slots@),
            evicted_least_recent(old(self).slots@, final(self).slots@),
            old(self).surface_bytes <= old(self).surface_limit ==> *final(self) == *old(self),
            (final(self).slots@, final(self).surface_bytes) == evicted(
                old(self).slots@,
                old(self).surface_bytes,
                old(self).surface_limit,
            ),
    {
        let ghost start = *self;
        while self.surface_bytes > self.surface_limit
            invariant
                slot_keys_distinct(self.slots@),
                self.surface_limit == start.surface_limit,
                self.use_clock == start.use_clock,
                self.generation == start.generation,
                slots_kept_from(start.slots@, self.slots@),
                evicted_least_recent(start.slots@, self.slots@),
                start.surface_bytes <= start.surface_limit ==> *self == start,
                evicted(self.slots@, self.surface_bytes, self.surface_limit) == evicted(
                    start.slots@,
                    start.surface_bytes,
                    start.surface_limit,
                ),
            ensures
                self.surface_bytes <= self.surface_limit,
                (self.slots@, self.surface_bytes) == evicted(
                    start.slots@,
                    start.surface_bytes,
                    start.surface_limit,
                ),
            decreases self.slots@.len(), self.surface_bytes,
        {
            if self.slots.len() == 0 {
                self.surface_bytes = 0;
                break;
            }
            let mut best: usize = 0;
            let mut i: usize = 1;
            assert(self.slots@.take(1).drop_last().len() == 0);
            while i < self.slots.len()
                invariant
                    0 < self.slots.len(),
                    best < i <= self.slots.len(),
                    best == oldest_index(self.slots@.take(i as int)),
                    forall|j: int| 0 <= j < i ==> self.slots@[best as int].last_used <= #[trigger] self.slots@[j].last_used,
                decreases self.slots.len() - i,
            {
                assert(self.slots@.take(i + 1).drop_last() =~= self.slots@.take(i as int));
                assert(self.slots@.take(i + 1).last() == self.slots@[i as int]);
                proof {
                    lemma_oldest_index_bounds(self.slots@.take(i as int));
                }
                assert(self.slots@.take(i as int)[best as int] == self.slots@[best as int]);
                if self.slots[i].last_used < self.slots[best].last_used {
                    best = i;
                }
                i = i + 1;
            }
            let ghost cur = self.slots@;
            let ghost cur_bytes = self.surface_bytes;
            assert(self.slots@.take(self.slots@.len() as int) =~= self.slots@);
            let removed = self.slots.remove(best);
            proof {
                assert forall|t: SurfaceSlot| #[trigger] self.slots@.contains(t) implies cur.contains(t) by {
                    let j = choose|j: int| 0 <= j < self.slots@.len() && self.slots@[j] == t;
                    if j < best {
                        assert(cur[j] == t);
                    } else {
                        assert(cur[j + 1] == t);
                    }
                }
                assert(!self.slots@.contains(removed)) by {
                    if self.slots@.contains(removed) {
                        let j = choose|j: int| 0 <= j < self.slots@.len() && self.slots@[j] == removed;
                        if j < best {
                            assert(cur[j] == removed);
                            assert(cur[j].key != cur[best as int].key);
                        } else {
                            assert(cur[j + 1] == removed);
                            assert(cur[best as int].key != cur[j + 1].key);
                        }
                    }
                }
                assert forall|t: SurfaceSlot| #[trigger] self.slots@.contains(t) implies removed.last_used <= t.last_used by {
                    let j = choose|j: int| 0 <= j < self.slots@.len() && self.slots@[j] == t;
                    if j < best {
                        assert(cur[j] == t);
                    } else {
                        assert(cur[j + 1] == t);
                    }
                }
                assert forall|s: SurfaceSlot, t: SurfaceSlot|
                    #![trigger start.slots@.contains(s), self.slots@.contains(t)]
                    start.slots@.contains(s) && !self.slots@.contains(s) && self.slots@.contains(t)
                    implies s.last_used <= t.last_used by {
                    assert(cur.contains(t));
                    if !cur.contains(s) {
                    } else {
                        let k = choose|k: int| 0 <= k < cur.len() && cur[k] == s;
                        if k != best {
                            if k < best {
                                assert(self.slots@[k] == s);
                            } else {
                                assert(self.slots@[k - 1] == s);
                            }
                        }
                    }
                }
                assert forall|i: int, j: int| 0 <= i < j < self.slots@.len() implies
                    (#[trigger] self.slots@[i]).key != (#[trigger] self.slots@[j]).key by {
                    let a = if i < best { i } else { i + 1 };
                    let b = if j < best { j } else { j + 1 };
                    assert(self.slots@[i] == cur[a]);
                    assert(self.slots@[j] == cur[b]);
                }
            }
            self.surface_bytes = self.surface_bytes.saturating_sub(removed.bytes);
            assert(evicted(cur, cur_bytes, self.surface_limit) == evicted(
                self.slots@,
                self.surface_bytes,
                self.surface_limit,
            ));
        }
    }
}

/// The clock after one more tick; it wraps around.
pub open spec fn tick(clock: u64) -> u64 {
    if clock == u64::MAX {
        0
    } else {
        (clock + 1) as u64
    }
}

/// Some slot caches the surface `key`.
pub open spec fn has_slot(s: Seq<SurfaceSlot>, key: SurfaceKey) -> bool {
    exists|j: int| 0 <= j < s.len() && (#[trigger] s[j]).key == key
}

/// The slots after `slot` is stored: it replaces the slot of its key, or
/// comes last.
pub open spec fn placed(s: Seq<SurfaceSlot>, slot: SurfaceSlot) -> Seq<SurfaceSlot> {
    if has_slot(s, slot.key) {
        s.update(choose|j: int| 0 <= j < s.len() && (#[trigger] s[j]).key == slot.key, slot)
    } else {
        s.push(slot)
    }
}

/// The bytes counted after `slot` is stored: a replaced reflection gives
/// its bytes back (a raster or window surface is only stored after a miss,
/// so none is given back for it); the new bytes are added. Both steps
/// saturate.
pub open spec fn placed_bytes(counted: usize, s: Seq<SurfaceSlot>, slot: SurfaceSlot) -> usize {
    let back: usize = if has_slot(s, slot.key) && slot.key.kind == SurfaceKind::Reflection {
        let j = choose|j: int| 0 <= j < s.len() && (#[trigger] s[j]).key == slot.key;
        if counted >= s[j].bytes {
            (counted - s[j].bytes) as usize
        } else {
            0
        }
    } else {
        counted
    };
    if back + slot.bytes > usize::MAX {
        usize::MAX
    } else {
        (back + slot.bytes) as usize
    }
}

/// The number of slots of one cache.
pub open spec fn count_kind(s: Seq<SurfaceSlot>, kind: SurfaceKind) -> nat
    decreases s.len(),
{
    if s.len() == 0 {
        0
    } else {
        count_kind(s.drop_last(), kind) + if s.last().key.kind == kind {
            1nat
        } else {
            0nat
        }
    }
}

/// The slots after marking the surface `key` used at `used`.
pub open spec fn touched(s: Seq<SurfaceSlot>, key: SurfaceKey, used: u64) -> Seq<SurfaceSlot> {
    s.map_values(
        |x: SurfaceSlot|
            if x.key == key {
                SurfaceSlot { last_used: used, ..x }
            } else {
                x
            },
    )
}

impl SurfaceBudget {
    /// No surface cached, within the default budget.
    pub fn new() -> (r: Self)
        ensures
            r.wf(),
            r.slots@.len() == 0,
            r.surface_bytes == 0,
            r.surface_limit == SURFACE_CACHE_LIMIT,
            r.use_clock == 0,
            r.generation == 0,
    {
        SurfaceBudget {
            slots: Vec::new(),
            surface_bytes: 0,
            surface_limit: SURFACE_CACHE_LIMIT,
            use_clock: 0,
            generation: 0,
        }
    }

    /// The budget of a disabled icon cache: no surface fits.
    pub fn disabled() -> (r: Self)
        ensures
            r.wf(),
            r.slots@.len() == 0,
            r.surface_bytes == 0,
            r.surface_limit == 0,
            r.use_clock == 0,
            r.generation == 0,
    {
        SurfaceBudget { slots: Vec::new(), surface_bytes: 0, surface_limit: 0, use_clock: 0, generation: 0 }
    }

    /// Advances the use clock and gives its new tick.
    pub fn next_use(&mut self) -> (r: u64)
        ensures
            r == tick(old(self).use_clock),
            final(self).use_clock == r,
            final(self).slots@ == old(self).slots@,
            final(self).surface_bytes == old(self).surface_bytes,
            final(self).surface_limit == old(self).surface_limit,
            final(self).generation == old(self).generation,
    {
        self.use_clock = self.use_clock.wrapping_add(1);
        self.use_clock
    }

    fn slot_position(&self, key: SurfaceKey) -> (r: Option<usize>)
        ensures
            match r {
                Some(i) => i < self.slots@.len() && self.slots@[i as int].key == key,
                None => !has_slot(self.slots@, key),
            },
    {
        let mut i: usize = 0;
        while i < self.slots.len()
            invariant
                i <= self.slots@.len(),
                forall|j: int| 0 <= j < i ==> (#[trigger] self.slots@[j]).key != key,
            decreases self.slots.len() - i,
        {
            if self.slots[i].key == key {
                return Some(i);
            }
            i = i + 1;
        }
        None
    }

    /// Looks the surface `key` up, ticking the use clock either way; a hit
    /// is marked used at the new tick.
    pub fn touch(&mut self, key: SurfaceKey) -> (hit: bool)
        requires
            old(self).wf(),
        ensures
            final(self).wf(),
            hit == has_slot(old(self).slots@, key),
            final(self).use_clock == tick(old(self).use_clock),
            final(self).slots@ == touched(old(self).slots@, key, final(self).use_clock),
            final(self).surface_bytes == old(self).surface_bytes,
            final(self).surface_limit == old(self).surface_limit,
            final(self).generation == old(self).generation,
    {
        let used = self.next_use();
        match self.slot_position(key) {
            Some(i) => {
                let ghost before = self.slots@;
                let slot = self.slots[i];
                self.slots.set(i, SurfaceSlot { last_used: used, ..slot });
                proof {
                    assert forall|j: int| 0 <= j < before.len() && j != i implies before[j].key != key by {
                        if j < i {
                            assert(before[j].key != before[i as int].key);
                        } else {
                            assert(before[i as int].key != before[j].key);
                        }
                    }
                    assert(self.slots@ =~= touched(before, key, used));
                    assert forall|a: int, b: int| 0 <= a < b < self.slots@.len() implies
                        (#[trigger] self.slots@[a]).key != (#[trigger] self.slots@[b]).key by {
                        assert(self.slots@[a].key == before[a].key);
                        assert(self.slots@[b].key == before[b].key);
                    }
                }
                true
            },
            None => {
                assert(self.slots@ =~= touched(self.slots@, key, used));
                false
            },
        }
    }

    /// Stores a surface of `bytes` first used at `used`, then evicts down
    /// to the limit. A surface larger than the whole budget is not stored.
    pub fn insert(&mut self, key: SurfaceKey, bytes: usize, used: u64)
        requires
            old(self).wf(),
        ensures
            final(self).wf(),
            final(self).surface_bytes <= final(self).surface_limit,
            final(self).surface_limit == old(self).surface_limit,
            final(self).use_clock == old(self).use_clock,
            final(self).generation == old(self).generation,
            bytes > old(self).surface_limit ==> *final(self) == *old(self),
            bytes <= old(self).surface_limit ==> ({
                let slot = SurfaceSlot { key, bytes, last_used: used };
                let s = placed(old(self).slots@, slot);
                let counted = placed_bytes(old(self).surface_bytes, old(self).slots@, slot);
                &&& slots_kept_from(s, final(self).slots@)
                &&& evicted_least_recent(s, final(self).slots@)
                &&& (final(self).slots@, final(self).surface_bytes) == evicted(
                    s,
                    counted,
                    old(self).surface_limit,
                )
            }),
    {
        if bytes > self.surface_limit {
            return;
        }
        let slot = SurfaceSlot { key, bytes, last_used: used };
        let ghost old_slots = self.slots@;
        let ghost old_bytes = self.surface_bytes;
        match self.slot_position(key) {
            Some(i) => {
                let previous = self.slots[i];
                self.slots.set(i, slot);
                if matches!(key.kind, SurfaceKind::Reflection) {
                    self.surface_bytes = self.surface_bytes.saturating_sub(previous.bytes);
                }
                proof {
                    let j = choose|j: int| 0 <= j < old_slots.len() && (#[trigger] old_slots[j]).key == key;
                    if j != i {
                        if j < i {
                            assert(old_slots[j].key != old_slots[i as int].key);
                        } else {
                            assert(old_slots[i as int].key != old_slots[j].key);
                        }
                    }
                    assert(self.slots@ =~= placed(old_slots, slot));
                    assert forall|a: int, b: int| 0 <= a < b < self.slots@.len() implies
                        (#[trigger] self.slots@[a]).key != (#[trigger] self.slots@[b]).key by {
                        assert(self.slots@[a].key == old_slots[a].key);
                        assert(self.slots@[b].key == old_slots[b].key);
                    }
                }
            },
            None => {
                self.slots.push(slot);
                proof {
                    assert(self.slots@ =~= placed(old_slots, slot));
                    assert forall|a: int, b: int| 0 <= a < b < self.slots@.len() implies
                        (#[trigger] self.slots@[a]).key != (#[trigger] self.slots@[b]).key by {
                        if b == old_slots.len() {
                            assert(old_slots[a].key != key);
                        } else {
                            assert(self.slots@[a] == old_slots[a]);
                            assert(self.slots@[b] == old_slots[b]);
                        }
                    }
                }
            },
        }
        self.surface_bytes = self.surface_bytes.saturating_add(bytes);
        assert(self.surface_bytes == placed_bytes(old_bytes, old_slots, slot));
        self.evict_to_limit();
    }

    /// Drops every cached surface and starts a new generation.
    pub fn invalidate(&mut self)
        ensures
            final(self).wf(),
            final(self).slots@.len() == 0,
            final(self).surface_bytes == 0,
            final(self).surface_limit == old(self).surface_limit,
            final(self).use_clock == old(self).use_clock,
            final(self).generation == tick(old(self).generation),
    {
        self.slots = Vec::new();
        self.surface_bytes = 0;
        self.generation = self.generation.wrapping_add(1);
    }

    /// Sets the budget and evicts down to it.
    pub fn set_limit(&mut self, limit: usize)
        requires
            slot_keys_distinct(old(self).slots@),
        ensures
            final(self).wf(),
            final(self).surface_limit == limit,
            final(self).surface_bytes <= limit,
            final(self).use_clock == old(self).use_clock,
            final(self).generation == old(self).generation,
            slots_kept_from(old(self).slots@, final(self).slots@),
            evicted_least_recent(old(self).slots@, final(self).slots@),
            (final(self).slots@, final(self).surface_bytes) == evicted(
                old(self).slots@,
                old(self).surface_bytes,
                limit,
            ),
    {
        self.surface_limit = limit;
        self.evict_to_limit();
    }

    /// The numbers of cached raster, reflection and window surfaces.
    pub fn counts(&self) -> (r: (usize, usize, usize))
        ensures
            r.0 == count_kind(self.slots@, SurfaceKind::Raster),
            r.1 == count_kind(self.slots@, SurfaceKind::Reflection),
            r.2 == count_kind(self.slots@, SurfaceKind::Window),
    {
        let mut raster: usize = 0;
        let mut reflection: usize = 0;
        let mut window: usize = 0;
        let mut i: usize = 0;
        while i < self.slots.len()
            invariant
                i <= self.slots@.len(),
                raster <= i && reflection <= i && window <= i,
                raster == count_kind(self.slots@.subrange(0, i as int), SurfaceKind::Raster),
                reflection == count_kind(self.slots@.subrange(0, i as int), SurfaceKind::Reflection),
                window == count_kind(self.slots@.subrange(0, i as int), SurfaceKind::Window),
            decreases self.slots.len() - i,
        {
            assert(self.slots@.subrange(0, i + 1).drop_last() =~= self.slots@.subrange(0, i as int));
            match self.slots[i].key.kind {
                SurfaceKind::Raster => raster = raster + 1,
                SurfaceKind::Reflection => reflection = reflection + 1,
                SurfaceKind::Window => window = window + 1,
            }
            i = i + 1;
        }
        assert(self.slots@.subrange(0, self.slots@.len() as int) =~= self.slots@);
        (raster, reflection, window)
    }
}

} // verus!
