use qwencraft::block::Block;
use qwencraft::coords::{chunk_index, BlockPos};
use qwencraft::column_top::{column_top_base, column_top_edited};
use qwencraft::terrain::{
    sub_top_block, top_block, HeightCache, WorldGen, SEA_LEVEL, SNOW_LEVEL,
};
fn grass_column(gen: &WorldGen) -> (i32, i32, i32) {
    for dz in 0..16 {
        for dx in 0..16 {
            let (x, z) = (8 + dx, 8 + dz);
            let h = gen.height(x, z);
            if h >= SEA_LEVEL && h < SNOW_LEVEL && gen.tree_at(x, z).is_none() {
                return (x, z, h);
            }
        }
    }
    panic!("no grass column near the origin")
}

#[test]
fn unedited_grass_column_reports_its_surface() {
    let gen = WorldGen::new(1337);
    let mut heights = HeightCache::new();
    let (x, z, h) = grass_column(&gen);
    assert_eq!(
        column_top_base(x, z, h, &gen, &mut heights),
        (h, Block::Grass)
    );
}

#[test]
fn unedited_tree_column_reports_its_canopy() {
    let gen = WorldGen::new(1337);
    let mut heights = HeightCache::new();
    let mut found = None;
    'outer: for dz in -32..32 {
        for dx in -32..32 {
            if let Some(t) = gen.tree_at(dx, dz) {
                found = Some((dx, dz, t));
                break 'outer;
            }
        }
    }
    let (x, z, t) = found.expect("seed 1337 has trees near the origin");
    assert_eq!(
        column_top_base(x, z, t.base, &gen, &mut heights),
        (t.base + t.trunk, Block::Leaves)
    );
}

#[test]
fn unedited_lake_column_reports_the_waterline() {
    let gen = WorldGen::new(1337);
    let mut heights = HeightCache::new();
    let mut wet = None;
    'outer: for dz in -128..128 {
        for dx in -128..128 {
            if gen.height(dx, dz) < SEA_LEVEL {
                wet = Some((dx, dz));
                break 'outer;
            }
        }
    }
    let (x, z) = wet.expect("seed 1337 has lakes near the origin");
    assert_eq!(
        column_top_base(x, z, gen.height(x, z), &gen, &mut heights),
        (SEA_LEVEL, Block::Water)
    );
}

#[test]
fn edited_column_falls_and_climbs() {
    let gen = WorldGen::new(1337);
    let mut heights = HeightCache::new();
    let (x, z, h) = grass_column(&gen);
    let edits = vec![(h, Block::Air)];
    assert_eq!(
        column_top_edited(x, z, h, &edits, &gen, &mut heights),
        Some((h - 1, Block::Dirt))
    );
    let edits = vec![
        (h, Block::Air),
        (h + 1, Block::Stone),
        (h + 2, Block::Stone),
        (h + 3, Block::Stone),
    ];
    assert_eq!(
        column_top_edited(x, z, h, &edits, &gen, &mut heights),
        Some((h + 3, Block::Stone))
    );
}

#[test]
fn top_block_matches_the_surface_rules() {
    assert_eq!(top_block(5), Block::Sand);
    assert_eq!(top_block(SEA_LEVEL), Block::Grass);
    assert_eq!(top_block(SNOW_LEVEL - 1), Block::Grass);
    assert_eq!(top_block(SNOW_LEVEL), Block::SnowGrass);
    assert_eq!(sub_top_block(5), Block::Sand);
    assert_eq!(sub_top_block(SEA_LEVEL), Block::Dirt);
}

#[test]
fn chunks_hold_the_blocks_of_their_columns() {
    let gen = WorldGen::new(1337);
    let mut heights = HeightCache::new();
    let plain = gen.generate_chunk(-1, 1, 2);
    assert_eq!(plain, gen.generate_chunk_cached(-1, 1, 2, &mut heights));
    for (x, y, z) in [(0, 0, 0), (15, 3, 7), (8, 15, 15)] {
        let b = gen.block_at(-16 + x, 16 + y, 32 + z);
        assert_eq!(plain[chunk_index(BlockPos::new(x, y, z))], b.as_u8());
    }
    assert_eq!(gen.height_cached(-16, 32, &mut heights), gen.height(-16, 32));
    assert_eq!(gen.tree_at_cached(-9, 40, &mut heights), gen.tree_at(-9, 40));
}
