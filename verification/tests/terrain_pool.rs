use qwencraft::pool::{Slot, TerrainPool};

const CAP_V: u32 = 100_000;
const CAP_I: u32 = 150_000;
struct Rng(u64);
impl Rng {
    fn next(&mut self) -> u32 {
        self.0 = self.0.wrapping_mul(6364136223846793005).wrapping_add(1442695040888963407);
        (self.0 >> 32) as u32
    }
    fn range(&mut self, lo: u32, hi: u32) -> u32 {
        lo + self.next() % (hi - lo)
    }
}
fn alloc_or_evict(
    pool: &mut TerrainPool,
    chunks: &mut Vec<(u32, Slot)>,
    need_v: u32,
    need_i: u32,
) -> (Slot, usize) {
    if let Some(s) = pool.allocate(need_v, need_i) {
        return (s, 0);
    }
    let mut evictions = 0;
    loop {
        let mut far = 0usize;
        for i in 1..chunks.len() {
            if chunks[i].0 > chunks[far].0
                || (chunks[i].0 == chunks[far].0 && chunks[i].1.v_count > chunks[far].1.v_count)
            {
                far = i;
            }
        }
        let (_d, victim) = chunks.remove(far);
        pool.release(victim);
        evictions += 1;
        match pool.allocate(need_v, need_i) {
            Some(s) => return (s, evictions),
            None => {
                if chunks.is_empty() {
                    panic!("pool cannot hold a single chunk of this size");
                }
            }
        }
    }
}
fn assert_invariants(pool: &TerrainPool, live: &[Slot]) {
    let (hv, hi) = pool.used();
    assert!(hv <= CAP_V && hi <= CAP_I, "high-water exceeds caps");
    for s in live {
        assert!(
            s.base_v + s.v_count <= hv && s.base_i + s.i_count <= hi,
            "live slot past high-water: {s:?} high=({hv},{hi})"
        );
    }
    for a in 0..live.len() {
        for b in (a + 1)..live.len() {
            let (x, y) = (&live[a], &live[b]);
            let ov_v = x.base_v < y.base_v + y.v_count && y.base_v < x.base_v + x.v_count;
            let ov_i = x.base_i < y.base_i + y.i_count && y.base_i < x.base_i + x.i_count;
            assert!(
                !(ov_v && ov_i),
                "slots overlap: {x:?} vs {y:?}"
            );
        }
    }
}

#[test]
fn append_then_release_rewinds_tail() {
    let mut p = TerrainPool::new(CAP_V, CAP_I);
    let s1 = p.allocate(100, 150).unwrap();
    let s2 = p.allocate(50, 75).unwrap();
    assert_eq!((s1.base_v, s2.base_v), (0, 100));
    p.release(s2);
    assert_eq!(p.used(), (100, 150));
    assert_eq!(p.free_slots(), 0);
    p.release(s1);
    assert_eq!(p.used(), (0, 0));
}

#[test]
fn release_coalesces_adjacent_free_slots() {
    let mut p = TerrainPool::new(300, 450);
    let a = p.allocate(100, 150).unwrap();
    let b = p.allocate(100, 150).unwrap();
    let c = p.allocate(100, 150).unwrap();
    assert_eq!((a.base_v, b.base_v, c.base_v), (0, 100, 200));
    assert!(p.allocate(1, 1).is_none(), "pool must be full");
    p.release(b);
    assert_eq!(p.free_slots(), 1);
    p.release(a);
    assert_eq!(p.free_slots(), 1, "adjacent free slots must coalesce");
    assert!(p.free_fits(200, 300));
    let s = p.allocate(200, 300).unwrap();
    assert_eq!(s.base_v, 0, "alloc must use the coalesced slot");
    assert_eq!(p.free_slots(), 0);
    p.release(c);
    assert_eq!(p.free_slots(), 0);
    assert_eq!(p.used(), (200, 300));
    let s2 = p.allocate(100, 150).unwrap();
    assert_eq!(s2.base_v, 200);
}

#[test]
fn best_fit_prefers_smallest_fitting_and_splits_tail() {
    let mut p = TerrainPool::new(1000, 1500);
    let a = p.allocate(100, 150).unwrap();
    let b = p.allocate(200, 300).unwrap();
    let big = p.allocate(600, 900).unwrap();
    let c = p.allocate(100, 150).unwrap();
    assert!(p.allocate(1, 1).is_none(), "pool must be full");
    p.release(b);
    let s = p.allocate(100, 150).unwrap();
    assert_eq!(s.base_v, 100, "must use the freed middle slot");
    assert_eq!(p.free_slots(), 1, "the unused 100 tail must be split back");
    assert_invariants(&p, &[a, s, big, c]);
}

#[test]
fn alloc_never_overlaps_or_exceeds_caps() {
    let mut p = TerrainPool::new(CAP_V, CAP_I);
    let mut live: Vec<Slot> = Vec::new();
    let mut rng = Rng(42);
    for _ in 0..2000 {
        let v = rng.range(16, 2000);
        let i = v * 3 / 2;
        match p.allocate(v, i) {
            Some(s) => {
                live.push(s);
                assert_invariants(&p, &live);
            }
            None => {
                loop {
                    let k = rng.next() as usize % live.len();
                    p.release(live.swap_remove(k));
                    match p.allocate(v, i) {
                        Some(s) => {
                            live.push(s);
                            break;
                        }
                        None if live.is_empty() => {
                            panic!("pool cannot hold a single chunk of this size");
                        }
                        None => {}
                    }
                }
                assert_invariants(&p, &live);
            }
        }
        if live.len() > 20 && rng.next() % 4 == 0 {
            let k = rng.next() as usize % live.len();
            p.release(live.swap_remove(k));
            assert_invariants(&p, &live);
        }
    }
    assert_invariants(&p, &live);
}
#[test]
fn fly_mode_steady_state_no_lost_chunks() {
    let mut p = TerrainPool::new(CAP_V, CAP_I);
    let mut rng = Rng(1337);
    let mut chunks: Vec<(u32, Slot)> = Vec::new();
    loop {
        let v = rng.range(200, 1600);
        let i = v * 3 / 2;
        match p.allocate(v, i) {
            Some(s) => chunks.push((rng.range(0, 13), s)),
            None => break,
        }
    }
    let mut total_evictions = 0usize;
    for _step in 0..400 {
        for (d, _) in chunks.iter_mut() {
            *d += 1;
        }
        for _ in 0..rng.range(1, 5) {
            let v = rng.range(200, 1600);
            let i = v * 3 / 2;
            let far_before = chunks.iter().map(|c| c.0).max();
            let count_far = far_before
                .filter(|&f| f >= 8)
                .map(|f| chunks.iter().filter(|(d, _)| *d == f).count());
            let (slot, ev) = alloc_or_evict(&mut p, &mut chunks, v, i);
            total_evictions += ev;
            if let (Some(f), Some(cf)) = (far_before.filter(|&f| f >= 8), count_far) {
                let cf_after = chunks.iter().filter(|(d, _)| *d == f).count();
                assert_eq!(
                    cf_after,
                    cf.saturating_sub(ev),
                    "eviction skipped a farthest chunk"
                );
            }
            chunks.push((rng.range(0, 8), slot));
            assert_invariants(&p, &chunks.iter().map(|c| c.1).collect::<Vec<_>>());
        }
    }
    assert!(
        total_evictions > 0,
        "fly mode must evict fog-bound trail while pinned at capacity"
    );
    let visible: Vec<Slot> = chunks
        .iter()
        .filter(|(d, _)| *d <= 7)
        .map(|(_, s)| *s)
        .collect();
    let (_slot, ev) = alloc_or_evict(&mut p, &mut chunks, 7000, 10500);
    assert!(
        ev < 200,
        "probe needed {ev} evictions to place one chunk — the pool is thrashing"
    );
    for s in &visible {
        assert!(
            chunks.iter().any(|(_, c)| c == s),
            "a visible chunk (d <= 7) was evicted to make room"
        );
    }
    assert_invariants(&p, &chunks.iter().map(|c| c.1).collect::<Vec<_>>());
}
#[test]
fn evictions_hit_farthest_first() {
    let mut p = TerrainPool::new(1000, 1500);
    let mut chunks: Vec<(u32, Slot)> = Vec::new();
    for d in 1..=5u32 {
        let s = p.allocate(200, 300).unwrap();
        chunks.push((d, s));
    }
    assert!(p.allocate(1, 1).is_none(), "pool must be full");
    let (slot, ev) = alloc_or_evict(&mut p, &mut chunks, 200, 300);
    assert_eq!(ev, 1);
    assert!(!chunks.iter().any(|(d, _)| *d == 5), "farthest chunk must go");
    assert!(chunks.iter().all(|(d, _)| *d <= 4));
    chunks.push((0, slot));
    assert!(p.allocate(1, 1).is_none(), "pool must be full again");
    let (_, ev) = alloc_or_evict(&mut p, &mut chunks, 200, 300);
    assert_eq!(ev, 1);
    assert!(!chunks.iter().any(|(d, _)| *d == 4), "new farthest must go");
}

#[test]
fn releases_add_up() {
    let mut p = TerrainPool::new(CAP_V, CAP_I);
    let a = p.allocate(100, 150).unwrap();
    let b = p.allocate(50, 75).unwrap();
    let c = p.allocate(7, 9).unwrap();
    let _tail = p.allocate(10, 15).unwrap();
    p.release(a);
    assert_eq!(p.free_total(), (100, 150));
    p.release(c);
    assert_eq!(p.free_total(), (107, 159));
    p.release(Slot { base_v: 3, base_i: 4, v_count: 0, i_count: 5 });
    assert_eq!(p.free_total(), (107, 159));
    p.release(b);
    assert_eq!((p.free_total(), p.free_slots()), ((157, 234), 1));
    assert_eq!(p.used(), (167, 249));
    let (free, live, used) = (p.free_total(), (10, 15), p.used());
    assert!(free.0 + live.0 <= used.0 && free.1 + live.1 <= used.1);
}
