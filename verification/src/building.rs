//! What may be built and broken, and how many NPCs the load test has.
use vstd::prelude::*;

use crate::block::Block;
use crate::coords::BlockPos;
use crate::world::World;

verus! {

/// Whether a player may break a block: it can be broken, and it is not part of the
/// floor of the world.
pub open spec fn breakable_at(b: Block, pos: BlockPos) -> bool {
    b.spec_is_breakable() && pos.spec_in_world_y() && pos.y > 0
}

/// Whether a player may put a block where another one is: it is one that players
/// build with, and nothing solid is there.
pub open spec fn placeable_at(id: u8, there: Block, pos: BlockPos) -> bool {
    Block::spec_from_u8(id).spec_is_placeable() && !there.spec_is_solid() && pos.spec_in_world_y()
}

/// The block that breaking leaves behind, where the player may break what is there.
pub fn break_block(w: &mut World, pos: BlockPos) -> (r: Option<Block>)
    requires
        old(w).wf(),
    ensures
        final(w).wf(),
        final(w)@ == old(w)@.looked_at(pos),
        r == (if breakable_at(old(w)@.content(pos), pos) {
            Some(Block::Air)
        } else {
            None
        }),
        0 < pos.y < 64 && old(w)@.content(pos) != Block::Air && old(w)@.content(pos)
            != Block::Water ==> r == Some(Block::Air),
        r is Some ==> 0 < pos.y < 64 && old(w)@.content(pos) != Block::Air && old(w)@.content(pos)
            != Block::Water,
{
    let b = w.block_at(pos);
    if b.is_breakable() && pos.in_world_y() && pos.y > 0 {
        Some(Block::Air)
    } else {
        None
    }
}

/// The block that placing leaves behind, where the player may place one of this id.
pub fn place_block(w: &mut World, pos: BlockPos, id: u8) -> (r: Option<Block>)
    requires
        old(w).wf(),
    ensures
        final(w).wf(),
        final(w)@ == old(w)@.looked_at(pos),
        r == (if placeable_at(id, old(w)@.content(pos), pos) {
            Some(Block::spec_from_u8(id))
        } else {
            None
        }),
        0 <= pos.y < 64 && is_building_block(Block::spec_from_u8(id)) && !is_building_block(
            old(w)@.content(pos),
        ) ==> r == Some(Block::spec_from_u8(id)),
        r is Some ==> 0 <= pos.y < 64 && is_building_block(Block::spec_from_u8(id))
            && !is_building_block(old(w)@.content(pos)),
{
    let there = w.block_at(pos);
    let b = Block::from_u8(id);
    if b.is_placeable() && !there.is_solid() && pos.in_world_y() {
        Some(b)
    } else {
        None
    }
}

/// The fewest and the most NPCs of the load test.
pub const NPC_MIN: u32 = 1;

pub const NPC_MAX: u32 = 2048;

/// Twice as many NPCs, up to the most.
pub open spec fn doubled(n: int) -> int {
    if 2 * n > NPC_MAX {
        NPC_MAX as int
    } else {
        2 * n
    }
}

/// Half as many NPCs, down to the fewest.
pub open spec fn halved(n: int) -> int {
    if n / 2 < NPC_MIN {
        NPC_MIN as int
    } else {
        n / 2
    }
}

/// Turns the dial of NPCs by one.
pub fn turn_dial(n: u32, up: bool) -> (r: u32)
    ensures
        r == (if up {
            doubled(n as int)
        } else {
            halved(n as int)
        }),
{
    if up {
        if n > NPC_MAX / 2 {
            NPC_MAX
        } else {
            2 * n
        }
    } else if n / 2 < NPC_MIN {
        NPC_MIN
    } else {
        n / 2
    }
}

// ---- Laws ----------------------------------------------------------------------------

/// Whether a block is one that the world is built of: neither air nor water, nor a
/// flower.
pub open spec fn is_building_block(b: Block) -> bool {
    &&& b != Block::Air
    &&& b != Block::Water
    &&& b != Block::FlowerRed
    &&& b != Block::FlowerYellow
}

/// Above the floor players break whatever there is to break: every kind of block, and
/// flowers. Only air and water stay as they are.
pub proof fn all_but_air_and_water_breaks(b: Block, pos: BlockPos)
    requires
        0 < pos.y < 64,
    ensures
        breakable_at(b, pos) <==> b != Block::Air && b != Block::Water,
{
}

/// Players put every kind of building block wherever in the world there is none: into
/// air and water, and in place of flowers. Nothing else is ever put down.
pub proof fn blocks_fill_open_places(b: Block, there: Block, pos: BlockPos)
    ensures
        placeable_at(b.id(), there, pos) <==> is_building_block(b) && !is_building_block(there)
            && 0 <= pos.y < 64,
{
    crate::block::ids_and_blocks_correspond();
}

/// What was put down can be broken again above the floor, and put down again then; and
/// where a block stands no other is put.
pub proof fn building_can_be_undone(id: u8, there: Block, pos: BlockPos)
    requires
        placeable_at(id, there, pos),
        pos.y > 0,
    ensures
        breakable_at(Block::spec_from_u8(id), pos),
        placeable_at(id, Block::Air, pos),
        forall|other: u8| !#[trigger] placeable_at(other, Block::spec_from_u8(id), pos),
{
}

/// Nobody digs through the floor of the world, or builds outside it.
pub proof fn the_floor_stays(b: Block, id: u8, pos: BlockPos)
    requires
        pos.y <= 0,
    ensures
        !breakable_at(b, pos),
        pos.y < 0 ==> !placeable_at(id, b, pos),
{
}

/// The dial stays in range, and turning it back gives the number again, unless that
/// met an end.
pub proof fn the_dial_turns_back(n: int)
    requires
        NPC_MIN <= n <= NPC_MAX,
    ensures
        NPC_MIN <= doubled(n) <= NPC_MAX,
        NPC_MIN <= halved(n) <= NPC_MAX,
        2 * n <= NPC_MAX ==> halved(doubled(n)) == n,
        n <= 1024 ==> doubled(n) == n + n,
        n > 1024 ==> doubled(n) == 2048,
        n >= 2 ==> 2 * halved(n) <= n < 2 * halved(n) + 2,
        n == 1 ==> halved(n) == 1,
{
}

} // verus!
