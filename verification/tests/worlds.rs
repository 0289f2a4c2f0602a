use qwencraft::block::Block;
use qwencraft::coords::{
    region_index, BlockPos, ChunkPos, CHUNK, REGION, REGION_BLOCKS, REGION_MARGIN,
};
use qwencraft::world::{Edit, Step, World};
#[test]
fn raycast_floors_eye_cell_not_truncates() {
    let mut w = World::new(1337);
    for x in -8..=2 {
        for y in 0..=15 {
            w.set_block(BlockPos::new(x, y, -6), Block::Stone);
        }
    }
    for x in -8..=2 {
        for z in -5..=-1 {
            w.set_block(BlockPos::new(x, 10, z), Block::Air);
        }
    }
    let eye: (f32, f32, f32) = (-2.5, 10.0, -1.0);
    let start = BlockPos::new(
        eye.0.floor() as i32,
        eye.1.floor() as i32,
        eye.2.floor() as i32,
    );
    let steps = [Step::North; 7];
    let (hit, _prev) = w.raycast(start, &steps).expect("should hit the wall");
    assert_eq!((hit.x, hit.y, hit.z), (-3, 10, -6), "eye cell must be floored, not truncated");
}
fn region_reference(world: &World, c: ChunkPos) -> Vec<u8> {
    let mut out = vec![0u8; REGION_BLOCKS];
    let origin = c.origin();
    let m = REGION_MARGIN;
    for y in 0..REGION {
        for z in 0..REGION {
            for x in 0..REGION {
                let wp = BlockPos::new(origin.x - m + x, origin.y - m + y, origin.z - m + z);
                if let Some(b) = world.block_at_opt(wp) {
                    out[region_index(BlockPos::new(x, y, z))] = b.as_u8();
                }
            }
        }
    }
    out
}

#[test]
fn region_matches_per_cell_reference() {
    let mut world = World::new(1337);
    for dx in -2..=2 {
        for dz in -2..=2 {
            for cy in 0..3 {
                world.generate(ChunkPos::new(dx, cy, dz));
            }
        }
    }
    for dx in -1..=1 {
        for dz in -1..=1 {
            for cy in 0..2 {
                let c = ChunkPos::new(dx, cy, dz);
                assert_eq!(
                    world.region(c),
                    region_reference(&world, c),
                    "region mismatch at {c:?}"
                );
            }
        }
    }
}

#[test]
fn region_includes_pending_edits() {
    let mut world = World::new(1337);
    let c = ChunkPos::new(0, 1, 0);
    world.generate(c);
    for dx in -1..=1 {
        for dz in -1..=1 {
            for cy in 0..3 {
                world.generate(ChunkPos::new(dx, cy, dz));
            }
        }
    }
    let target = BlockPos::new(8, 20, 8);
    world.set_block(target, Block::Sand);
    let r = world.region(c);
    let local = BlockPos::new(
        8 - (c.x * CHUNK - REGION_MARGIN),
        20 - (c.y * CHUNK - REGION_MARGIN),
        8 - (c.z * CHUNK - REGION_MARGIN),
    );
    assert_eq!(r[region_index(local)], Block::Sand.as_u8());
    assert_eq!(r, region_reference(&world, c));
    let ntarget = BlockPos::new(16, 20, 8);
    world.set_block(ntarget, Block::Stone);
    let r2 = world.region(c);
    let nlocal = BlockPos::new(
        16 - (c.x * CHUNK - REGION_MARGIN),
        20 - (c.y * CHUNK - REGION_MARGIN),
        8 - (c.z * CHUNK - REGION_MARGIN),
    );
    assert_eq!(r2[region_index(nlocal)], Block::Stone.as_u8());
    assert_eq!(r2, region_reference(&world, c));
}

#[test]
fn edits_read_back() {
    let mut w = World::new(1337);
    let p = BlockPos::new(-5, 40, 7);
    let q = BlockPos::new(-5, 41, 7);
    let before = w.block_at(q);
    assert!(!w.set_block(p, Block::Glass).is_empty());
    assert_eq!(w.block_at(p), Block::Glass);
    assert_eq!(w.block_at_opt(p), Some(Block::Glass));
    assert_eq!(w.block_at(q), before);
    assert_eq!(w.edits(), &[Edit { pos: p, block: Block::Glass }]);
    assert_eq!(w.delta_count(), 0);
    w.set_block(BlockPos::new(500, 5, 500), Block::Brick);
    assert_eq!(w.delta_count(), 1);
    assert_eq!(w.block_at_opt(BlockPos::new(500, 5, 500)), Some(Block::Brick));
    assert!(w.set_block(BlockPos::new(0, 64, 0), Block::Stone).is_empty());
    assert_eq!(w.block_at(BlockPos::new(0, 64, 0)), Block::Air);
    assert_eq!(w.block_at_opt(BlockPos::new(900, 5, 900)), None);
}

#[test]
fn chunks_against_an_edit_are_sent_again() {
    let mut w = World::new(1337);
    for x in -1..=1 {
        for z in -1..=1 {
            for y in 0..3 {
                w.generate(ChunkPos::new(x, y, z));
            }
        }
    }
    let dirty = w.set_block(BlockPos::new(8, 24, 8), Block::Brick);
    assert!(dirty.contains(&ChunkPos::new(0, 1, 0)));
    let dirty = w.set_block(BlockPos::new(0, 24, 8), Block::Brick);
    assert!(dirty.contains(&ChunkPos::new(0, 1, 0)));
    assert!(dirty.contains(&ChunkPos::new(-1, 1, 0)));
    assert!(w.contains(&ChunkPos::new(1, 2, 1)));
    assert!(!w.contains(&ChunkPos::new(2, 0, 0)));
    assert_eq!(w.chunks_generated(), 27);
}

#[test]
fn worlds_survive_a_save() {
    let mut w = World::new(7);
    for (i, b) in [Block::Stone, Block::Air, Block::Tnt, Block::Glass].iter().enumerate() {
        w.set_block(BlockPos::new(i as i32 % 3, 30, 5), *b);
    }
    let edits = w.overrides();
    assert_eq!(edits.len(), 3);
    let mut v = World::load(7, &edits);
    for x in -2..5 {
        for y in 25..35 {
            let p = BlockPos::new(x, y, 5);
            assert_eq!(v.block_at(p), w.block_at(p));
        }
    }
    assert_eq!(v.block_at(BlockPos::new(0, 30, 5)), Block::Glass);
}

#[test]
fn rays_stop_at_the_first_solid_block() {
    let mut w = World::new(1337);
    let eye = BlockPos::new(3, 55, 3);
    assert_eq!(w.raycast(eye, &[Step::Up; 3]), None);
    w.set_block(BlockPos::new(5, 55, 3), Block::Planks);
    assert_eq!(
        w.raycast(eye, &[Step::East; 4]),
        Some((BlockPos::new(5, 55, 3), BlockPos::new(4, 55, 3)))
    );
    assert_eq!(w.raycast(eye, &[Step::East]), None);
    w.set_block(eye, Block::Planks);
    assert_eq!(w.raycast(eye, &[]), Some((eye, eye)));
}

#[test]
fn terrain_depends_on_the_seed_alone() {
    let (a, b, c) = (World::new(1), World::new(1), World::new(2));
    let mut differ = 0;
    for x in -40..40 {
        assert_eq!(a.height_at(x, 3), b.height_at(x, 3));
        assert_eq!(a.tree_at(x, 3), b.tree_at(x, 3));
        if a.height_at(x, 3) != c.height_at(x, 3) {
            differ += 1;
        }
    }
    assert!(differ > 0);
}

#[test]
fn loaded_edits_are_known_at_once() {
    let p = BlockPos::new(40, 30, -70);
    let w = World::load(7, &[Edit { pos: p, block: Block::Tnt }]);
    assert_eq!(w.chunks_generated(), 0);
    assert_eq!(w.block_at_opt(p), Some(Block::Tnt));
    assert_eq!(w.block_at_opt(BlockPos::new(41, 30, -70)), None);
}
