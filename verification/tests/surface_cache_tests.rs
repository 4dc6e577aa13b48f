use osdockx::surface_cache::{SurfaceBudget, SurfaceKey, SurfaceKind, SURFACE_CACHE_LIMIT};

fn raster(id: u64) -> SurfaceKey {
    SurfaceKey { kind: SurfaceKind::Raster, id }
}

fn reflection(id: u64) -> SurfaceKey {
    SurfaceKey { kind: SurfaceKind::Reflection, id }
}

fn window(id: u64) -> SurfaceKey {
    SurfaceKey { kind: SurfaceKind::Window, id }
}

#[test]
fn surface_budget_starts_empty() {
    let budget = SurfaceBudget::new();
    assert_eq!(budget.surface_limit, SURFACE_CACHE_LIMIT);
    assert_eq!(budget.surface_limit, 32 * 1024 * 1024);
    assert_eq!(budget.counts(), (0, 0, 0));
    assert_eq!(SurfaceBudget::disabled().surface_limit, 0);
}

#[test]
fn combined_surface_budget_never_exceeds_limit() {
    let mut budget = SurfaceBudget::new();
    budget.set_limit(20 * 1024);
    for (id, size) in [32usize, 48, 64, 80, 96, 128].into_iter().enumerate() {
        let used = budget.next_use();
        budget.insert(raster(id as u64), size * size * 4, used);
        assert!(budget.surface_bytes <= 20 * 1024);
    }
    // Surfaces of 80 pixels and more are larger than the whole budget and
    // are not stored; the 64-pixel one pushed out the two older ones.
    assert_eq!(budget.counts(), (1, 0, 0));
    assert_eq!(budget.slots[0].key, raster(2));
    assert_eq!(budget.surface_bytes, 64 * 64 * 4);
}

#[test]
fn eviction_drops_least_recently_used_first() {
    let mut budget = SurfaceBudget::new();
    budget.set_limit(100);
    let t1 = budget.next_use();
    budget.insert(raster(1), 40, t1);
    let t2 = budget.next_use();
    budget.insert(window(2), 40, t2);
    assert!(budget.touch(raster(1)));
    let t3 = budget.next_use();
    budget.insert(reflection(3), 40, t3);
    // window 2 was used least recently.
    assert_eq!(budget.counts(), (1, 1, 0));
    assert_eq!(budget.surface_bytes, 80);
    assert!(!budget.touch(window(2)));
}

#[test]
fn replacing_a_reflection_returns_its_bytes() {
    let mut budget = SurfaceBudget::new();
    budget.insert(reflection(7), 100, 1);
    budget.insert(reflection(7), 60, 2);
    assert_eq!(budget.surface_bytes, 60);
    assert_eq!(budget.counts(), (0, 1, 0));
}

#[test]
fn invalidation_clears_and_advances_generation() {
    let mut budget = SurfaceBudget::new();
    budget.insert(raster(1), 10, 1);
    budget.invalidate();
    assert_eq!(budget.counts(), (0, 0, 0));
    assert_eq!(budget.surface_bytes, 0);
    assert_eq!(budget.generation, 1);
    budget.use_clock = u64::MAX;
    assert_eq!(budget.next_use(), 0);
}
