use qwencraft::block::{
    registry, Block, PLACEABLE, TEX_DIRT, TEX_GRASS_TOP, TEX_HIGHLIGHT, TEX_LOG_SIDE, TEX_LOG_TOP,
    TEX_TNT_SIDE,
};

#[test]
fn registry_is_consistent() {
    let blocks = registry();
    for b in 0..blocks.len() as u8 {
        let block = Block::from_u8(b);
        assert_eq!(block.as_u8(), b);
        assert_eq!(block.info().id, b);
    }
    for v in [17, 200, 255u8] {
        assert_eq!(Block::from_u8(v), Block::Air);
        assert!(!Block::from_u8(v).is_placeable());
    }
    let flagged: Vec<Block> = blocks
        .iter()
        .filter(|i| i.placeable)
        .map(|i| Block::from_u8(i.id))
        .collect();
    assert_eq!(flagged, PLACEABLE.to_vec());
    for &b in &PLACEABLE {
        assert!(b.is_solid(), "{:?} placeable but not solid", b);
        assert!(b.is_breakable());
    }
    assert!(!Block::Air.is_placeable());
    assert!(!Block::Water.is_placeable());
    assert!(!Block::FlowerRed.is_placeable());
    assert!(!Block::FlowerYellow.is_placeable());
    for info in &blocks {
        let kinds = [info.solid, info.water, info.flower].iter().filter(|&&k| k).count();
        assert!(kinds <= 1, "{:?} has multiple physics kinds", info.name);
        assert!(!info.translucent || info.solid, "{:?} translucent but not solid", info.name);
    }
}

#[test]
fn face_textures_and_colours_are_set() {
    for info in &registry() {
        for t in [info.tex_top, info.tex_side, info.tex_bottom] {
            assert!(
                (t as usize) <= TEX_HIGHLIGHT as usize,
                "{:?} references unknown texture {t}",
                info.name
            );
        }
        for c in [info.color_top, info.color_side, info.color_bottom] {
            for ch in [c.r, c.g, c.b] {
                let ch = ch as f32 / 100.0;
                assert!((0.0..=1.0).contains(&ch), "{:?} colour out of range", info.name);
            }
        }
    }
    assert_eq!(Block::Log.tex_for_dir(0), TEX_LOG_TOP);
    assert_eq!(Block::Log.tex_for_dir(2), TEX_LOG_SIDE);
    assert_eq!(Block::Grass.tex_for_dir(0), TEX_GRASS_TOP);
    assert_eq!(Block::Grass.tex_for_dir(1), TEX_DIRT);
    assert_eq!(Block::Tnt.tex_for_dir(2), TEX_TNT_SIDE);
}

#[test]
fn blocks_are_bytes() {
    assert_eq!(u8::from(Block::Obsidian), 16);
    assert_eq!(u8::from(Block::Air), 0);
    assert!(Block::Glass.is_translucent());
    assert!(!Block::Water.is_translucent());
    assert!(Block::Water.is_water());
    assert!(Block::FlowerYellow.is_flower());
    assert!(!Block::Air.is_breakable());
}

#[test]
fn faces_have_colours_of_their_own() {
    assert_eq!(Block::Grass.color_for_dir(0), Block::Grass.color_top());
    assert_eq!(Block::Grass.color_for_dir(1), Block::Grass.color_bottom());
    assert_eq!(Block::Grass.color_for_dir(2), Block::Grass.color_side());
    assert_ne!(Block::Grass.color_top(), Block::Grass.color_bottom());
}
