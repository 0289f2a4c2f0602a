use qwencraft::block::Block;
use qwencraft::coords::{BlockPos, WORLD_HEIGHT};
use qwencraft::map::{MapState, MAP_MAX, MAP_MIN};
use qwencraft::terrain::{SEA_LEVEL, SNOW_LEVEL};
use qwencraft::world::{Edit, World};
fn world_column_top(server: &mut World, x: i32, z: i32) -> Option<(i32, Block)> {
    for y in (0..WORLD_HEIGHT).rev() {
        let b = server.block_at(BlockPos::new(x, y, z));
        if b != Block::Air {
            return Some((y, b));
        }
    }
    None
}
#[test]
fn map_matches_world_around_spawn() {
    let mut server = World::new(1337);
    let mut map = MapState::new(1337);
    let r = map.top_map(8, 8, 64, 64);
    let mut mismatches = Vec::new();
    for z in 0..r.h {
        for x in 0..r.w {
            let (wx, wz) = (r.x0 + x, r.z0 + z);
            let i = (z * r.w + x) as usize * 2;
            let (y, b) = (r.cols[i] as i32, Block::from_u8(r.cols[i + 1]));
            let (wy, wb) = match world_column_top(&mut server, wx, wz) {
                Some((y, b)) => (y, b),
                None => panic!("column ({wx},{wz}) is entirely air"),
            };
            if y == wy && b == wb {
                continue;
            }
            let flower = matches!(wb, Block::FlowerRed | Block::FlowerYellow)
                && y == wy - 1;
            let canopy = matches!(wb, Block::Leaves | Block::Log) && y <= wy + 1;
            if !(flower || canopy) {
                mismatches.push(format!("({wx},{wz}): map=({y},{b:?}) world=({wy},{wb:?})"));
            }
        }
    }
    assert!(
        mismatches.is_empty(),
        "{} unexpected mismatches:\n{}",
        mismatches.len(),
        mismatches.join("\n")
    );
}

#[test]
fn map_reflects_edits() {
    let mut server = World::new(1337);
    let mut map = MapState::new(1337);
    let mut spot = None;
    for dz in 0..8 {
        for dx in 0..8 {
            let (x, z) = (8 + dx, 8 + dz);
            let h = server.height_at(x, z);
            if h >= SEA_LEVEL && h < SNOW_LEVEL && server.tree_at(x, z).is_none() {
                spot = Some((x, z, h));
                break;
            }
        }
        if spot.is_some() {
            break;
        }
    }
    let (x, z, h) = spot.expect("a grass column near spawn");

    let before = map.top_map(x, z, 32, 32);
    let i = ((z - before.z0) * before.w + (x - before.x0)) as usize * 2;
    assert_eq!(before.cols[i + 1], Block::Grass.as_u8(), "baseline is grass");
    let dirty = server.set_block(BlockPos::new(x, h, z), Block::Air);
    let _ = dirty;
    map.sync_edits(server.edits());
    let after = map.top_map(x, z, 32, 32);
    let i = ((z - after.z0) * after.w + (x - after.x0)) as usize * 2;
    assert_eq!(after.cols[i], (h - 1) as u8, "top should fall to the sub-surface");
    assert_eq!(after.cols[i + 1], Block::Dirt.as_u8(), "sub-surface is dirt");
    for dy in 0..3 {
        server.set_block(BlockPos::new(x, h + 1 + dy, z), Block::Stone);
    }
    map.sync_edits(server.edits());
    let after2 = map.top_map(x, z, 32, 32);
    let i = ((z - after2.z0) * after2.w + (x - after2.x0)) as usize * 2;
    assert_eq!(after2.cols[i], (h + 3) as u8, "tower top at h+3");
    assert_eq!(after2.cols[i + 1], Block::Stone.as_u8(), "tower is stone");
    server.set_block(BlockPos::new(x, h + 3, z), Block::Air);
    map.sync_edits(server.edits());
    let after3 = map.top_map(x, z, 32, 32);
    let i = ((z - after3.z0) * after3.w + (x - after3.x0)) as usize * 2;
    assert_eq!(after3.cols[i], (h + 2) as u8, "top back to h+2");
}

#[test]
fn map_clamps_and_layout() {
    let mut map = MapState::new(1337);
    let r = map.top_map(8, 8, 4096, 4096);
    assert_eq!(r.w, MAP_MAX);
    assert_eq!(r.h, MAP_MAX);
    assert_eq!(r.cols.len(), 2 * (MAP_MAX as usize) * (MAP_MAX as usize));
    assert_eq!(r.x0, 8 - MAP_MAX / 2);
    let r = map.top_map(8, 8, 1, 1);
    assert_eq!(r.w, MAP_MIN);
    assert_eq!(r.h, MAP_MIN);
    let mut i = 0;
    while i < r.cols.len() {
        assert!(r.cols[i] < 255, "no unknown columns");
        i += 2;
    }
    let mut map2 = MapState::new(1337);
    assert_eq!(map.top_map(100, -50, 64, 64).cols, map2.top_map(100, -50, 64, 64).cols);
}

#[test]
fn map_underwater_columns_show_waterline() {
    let server = World::new(1337);
    let mut map = MapState::new(1337);
    let mut wet = None;
    'outer: for dz in -128..128 {
        for dx in -128..128 {
            let (x, z) = (dx, dz);
            if server.height_at(x, z) < SEA_LEVEL {
                wet = Some((x, z));
                break 'outer;
            }
        }
    }
    let (x, z) = wet.expect("seed 1337 has lakes within 256 blocks of origin");
    let r = map.top_map(x, z, 32, 32);
    let i = ((z - r.z0) * r.w + (x - r.x0)) as usize * 2;
    assert_eq!(r.cols[i], SEA_LEVEL as u8, "top of a lake column is the waterline");
    assert_eq!(r.cols[i + 1], Block::Water.as_u8());
}

#[test]
fn maps_of_the_same_last_edits_are_the_same() {
    let p = BlockPos::new(8, 60, 8);
    let at = |b| Edit { pos: p, block: b };
    let elsewhere = Edit { pos: BlockPos::new(500, 60, 500), block: Block::Brick };
    let mut a = MapState::new(1337);
    a.sync_edits(&[at(Block::Stone), at(Block::Brick)]);
    let mut b = MapState::new(1337);
    b.sync_edits(&[elsewhere, at(Block::Brick)]);
    assert_eq!(a.top_map(8, 8, 32, 32).cols, b.top_map(8, 8, 32, 32).cols);
    let mut c = MapState::new(1337);
    c.sync_edits(&[at(Block::Brick), at(Block::Stone)]);
    assert_ne!(a.top_map(8, 8, 32, 32).cols, c.top_map(8, 8, 32, 32).cols);
}
