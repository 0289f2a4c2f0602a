use qwencraft::block::Block;
use qwencraft::building::{break_block, place_block, turn_dial, NPC_MAX, NPC_MIN};
use qwencraft::coords::BlockPos;
use qwencraft::url::{reload_budget, reload_url, MAX_RELOADS};
use qwencraft::world::World;

#[test]
fn players_break_what_may_be_broken() {
    let mut w = World::new(1337);
    let at = BlockPos::new(3, 40, -5);
    w.set_block(at, Block::Stone);
    assert_eq!(break_block(&mut w, at), Some(Block::Air));
    w.set_block(at, Block::Air);
    assert_eq!(break_block(&mut w, at), None);
    w.set_block(at, Block::Water);
    assert_eq!(break_block(&mut w, at), None);
    assert_eq!(w.block_at(at), Block::Water);
}

#[test]
fn the_lowest_layer_stays() {
    let mut w = World::new(1337);
    let floor = BlockPos::new(0, 0, 0);
    w.set_block(floor, Block::Stone);
    assert_eq!(break_block(&mut w, floor), None);
    assert_eq!(break_block(&mut w, BlockPos::new(0, -1, 0)), None);
    assert_eq!(place_block(&mut w, BlockPos::new(0, -1, 0), Block::Stone.as_u8()), None);
}

#[test]
fn players_place_where_nothing_solid_is() {
    let mut w = World::new(1337);
    let at = BlockPos::new(-7, 50, 12);
    w.set_block(at, Block::Air);
    assert_eq!(place_block(&mut w, at, Block::Stone.as_u8()), Some(Block::Stone));
    assert_eq!(place_block(&mut w, at, Block::Air.as_u8()), None);
    assert_eq!(place_block(&mut w, at, Block::Water.as_u8()), None);
    w.set_block(at, Block::Water);
    assert_eq!(place_block(&mut w, at, Block::Stone.as_u8()), Some(Block::Stone));
    w.set_block(at, Block::Sand);
    assert_eq!(place_block(&mut w, at, Block::Stone.as_u8()), None);
}

#[test]
fn the_dial_doubles_and_halves() {
    assert_eq!(turn_dial(64, true), 128);
    assert_eq!(turn_dial(64, false), 32);
    assert_eq!(turn_dial(NPC_MAX, true), NPC_MAX);
    assert_eq!(turn_dial(NPC_MIN, false), NPC_MIN);
    assert_eq!(turn_dial(u32::MAX, true), NPC_MAX);
}

#[test]
fn a_page_is_loaded_again_a_few_times_only() {
    assert_eq!(reload_budget(None), Some(1));
    assert_eq!(reload_budget(Some("1,1700000000000")), Some(2));
    assert_eq!(reload_budget(Some("junk")), Some(1));
    let spent = format!("{MAX_RELOADS},0");
    assert_eq!(reload_budget(Some(&spent)), None);
}

#[test]
fn a_reload_keeps_the_parameters() {
    assert_eq!(reload_url("/play", "", "a1"), "/play?qwc_reload=a1");
    assert_eq!(
        reload_url("/play", "?server=ws://h", "a1"),
        "/play?server=ws://h&qwc_reload=a1"
    );
}
