//! Sky light in a chunk's region.
//!
//! Light falls straight down through everything that is not solid, and from there
//! spreads sideways, up and down, losing one level with each step.
use vstd::prelude::*;

use crate::block::Block;
use crate::coords::REGION_BLOCKS;
use crate::world;

verus! {

/// The level of a cell under the open sky.
pub const FULL_LIGHT: u8 = 15;

/// Whether a place lies in the region.
pub open spec fn in_region(x: int, y: int, z: int) -> bool {
    0 <= x < 26 && 0 <= y < 26 && 0 <= z < 26
}

/// The block at a place of a region.
pub open spec fn cell(data: Seq<u8>, x: int, y: int, z: int) -> Block {
    Block::spec_from_u8(world::region_byte(data, x, y, z))
}

/// Whether a place holds a solid block. Nothing out of the region is solid.
pub open spec fn solid_at(data: Seq<u8>, x: int, y: int, z: int) -> bool {
    in_region(x, y, z) && cell(data, x, y, z).spec_is_solid()
}

/// Whether nothing solid is at a place or above it.
pub open spec fn open_to_sky(data: Seq<u8>, x: int, y: int, z: int) -> bool {
    in_region(x, y, z) && forall|h: int| y <= h < 26 ==> !#[trigger] solid_at(data, x, h, z)
}

/// Whether light from the sky gets to a place in at most `n` steps.
pub open spec fn within(data: Seq<u8>, x: int, y: int, z: int, n: nat) -> bool
    decreases n,
{
    if n == 0 {
        open_to_sky(data, x, y, z)
    } else {
        let m = (n - 1) as nat;
        ||| within(data, x, y, z, m)
        ||| in_region(x, y, z) && !solid_at(data, x, y, z) && {
            ||| within(data, x + 1, y, z, m)
            ||| within(data, x - 1, y, z, m)
            ||| within(data, x, y + 1, z, m)
            ||| within(data, x, y - 1, z, m)
            ||| within(data, x, y, z + 1, m)
            ||| within(data, x, y, z - 1, m)
        }
    }
}

/// The brightest level of `l` and below that a place has.
pub open spec fn level_from(data: Seq<u8>, x: int, y: int, z: int, l: nat) -> nat
    decreases l,
{
    if l == 0 {
        0
    } else if within(data, x, y, z, (15 - l) as nat) {
        l
    } else {
        level_from(data, x, y, z, (l - 1) as nat)
    }
}

/// The level of a place: fifteen under the sky, one less for each step from there,
/// nothing where no light gets.
#[verifier::opaque]
pub open spec fn level(data: Seq<u8>, x: int, y: int, z: int) -> nat {
    level_from(data, x, y, z, 15)
}

/// Whether a buffer holds the level of every place of a region.
pub open spec fn is_light_of(data: Seq<u8>, light: Seq<u8>) -> bool {
    &&& light.len() == REGION_BLOCKS
    &&& forall|x: int, y: int, z: int|
        in_region(x, y, z) ==> #[trigger] world::region_byte(light, x, y, z) == level(
            data,
            x,
            y,
            z,
        )
}

/// Only places that are not solid are lit.
proof fn lit_places_are_open(data: Seq<u8>, x: int, y: int, z: int, n: nat)
    requires
        within(data, x, y, z, n),
    ensures
        in_region(x, y, z),
        !solid_at(data, x, y, z),
    decreases n,
{
    if n > 0 && within(data, x, y, z, (n - 1) as nat) {
        lit_places_are_open(data, x, y, z, (n - 1) as nat);
    }
}

proof fn level_from_is(data: Seq<u8>, x: int, y: int, z: int, l: nat, v: nat)
    requires
        v <= l <= 15,
        v > 0 ==> within(data, x, y, z, (15 - v) as nat),
        forall|k: nat| v < k <= 15 ==> !#[trigger] within(data, x, y, z, (15 - k) as nat),
    ensures
        level_from(data, x, y, z, l) == v,
    decreases l,
{
    if l > v {
        level_from_is(data, x, y, z, (l - 1) as nat, v);
    }
}

/// What a level says, step by step.
proof fn level_meaning(data: Seq<u8>, x: int, y: int, z: int, l: nat)
    requires
        l <= 15,
    ensures
        level_from(data, x, y, z, l) <= l,
        level_from(data, x, y, z, l) > 0 ==> within(
            data,
            x,
            y,
            z,
            (15 - level_from(data, x, y, z, l)) as nat,
        ),
        forall|k: nat|
            level_from(data, x, y, z, l) < k <= l ==> !#[trigger] within(
                data,
                x,
                y,
                z,
                (15 - k) as nat,
            ),
    decreases l,
{
    if l > 0 && !within(data, x, y, z, (15 - l) as nat) {
        level_meaning(data, x, y, z, (l - 1) as nat);
        assert forall|k: nat| level_from(data, x, y, z, l) < k <= l implies !#[trigger] within(
            data,
            x,
            y,
            z,
            (15 - k) as nat,
        ) by {
            if k < l {
                assert(level_from(data, x, y, z, l) == level_from(data, x, y, z, (l - 1) as nat));
            }
        }
    }
}

// ---- The flood -----------------------------------------------------------------

/// How much light is still missing from full light, over all places.
spec fn missing(light: Seq<u8>) -> int
    decreases light.len(),
{
    if light.len() == 0 {
        0
    } else {
        missing(light.drop_last()) + (15 - light.last())
    }
}

proof fn missing_of_update(light: Seq<u8>, i: int, v: u8)
    requires
        0 <= i < light.len(),
    ensures
        missing(light.update(i, v)) == missing(light) + light[i] - v,
    decreases light.len(),
{
    if i == light.len() - 1 {
        assert(light.update(i, v).drop_last() =~= light.drop_last());
    } else {
        assert(light.update(i, v).drop_last() =~= light.drop_last().update(i, v));
        missing_of_update(light.drop_last(), i, v);
    }
}

proof fn missing_is_not_negative(light: Seq<u8>)
    requires
        forall|i: int| 0 <= i < light.len() ==> #[trigger] light[i] <= 15,
    ensures
        missing(light) >= 0,
    decreases light.len(),
{
    if light.len() > 0 {
        missing_is_not_negative(light.drop_last());
    }
}

/// The place of an entry of the buffer.
spec fn at(x: int, y: int, z: int) -> int {
    (y * 26 + z) * 26 + x
}

proof fn places_differ(x: int, y: int, z: int, a: int, b: int, c: int)
    requires
        in_region(x, y, z),
        in_region(a, b, c),
        at(x, y, z) == at(a, b, c),
    ensures
        x == a,
        y == b,
        z == c,
{
}

/// Whether a level is at least as bright as asked for, at a place where light can
/// be.
spec fn bright(data: Seq<u8>, light: Seq<u8>, x: int, y: int, z: int, v: int) -> bool {
    in_region(x, y, z) && !solid_at(data, x, y, z) ==> world::region_byte(light, x, y, z) >= v
}

/// Whether the light of a place has spread to the places against it.
spec fn spread(data: Seq<u8>, light: Seq<u8>, x: int, y: int, z: int) -> bool {
    let v = world::region_byte(light, x, y, z) - 1;
    &&& bright(data, light, x + 1, y, z, v)
    &&& bright(data, light, x - 1, y, z, v)
    &&& bright(data, light, x, y + 1, z, v)
    &&& bright(data, light, x, y - 1, z, v)
    &&& bright(data, light, x, y, z + 1, v)
    &&& bright(data, light, x, y, z - 1, v)
}

/// Whether a place waits in the queue.
spec fn queued(queue: Seq<usize>, head: int, i: int) -> bool {
    exists|j: int| head <= j < queue.len() && #[trigger] queue[j] == i
}

/// Whether every level is one that the place has.
spec fn earned(data: Seq<u8>, light: Seq<u8>) -> bool {
    &&& light.len() == REGION_BLOCKS
    &&& forall|i: int| 0 <= i < light.len() ==> #[trigger] light[i] <= 15
    &&& forall|x: int, y: int, z: int|
        in_region(x, y, z) && (#[trigger] world::region_byte(light, x, y, z)) > 0 ==> within(
            data,
            x,
            y,
            z,
            (15 - world::region_byte(light, x, y, z)) as nat,
        )
}

/// Whether every place under the sky is fully lit.
spec fn sky_lit(data: Seq<u8>, light: Seq<u8>) -> bool {
    forall|x: int, y: int, z: int|
        #[trigger] open_to_sky(data, x, y, z) ==> world::region_byte(light, x, y, z) == 15
}

/// Whether what has not spread yet, apart from one place, waits in the queue.
spec fn flowing(
    data: Seq<u8>,
    light: Seq<u8>,
    queue: Seq<usize>,
    head: int,
    skip: int,
) -> bool {
    &&& forall|j: int| 0 <= j < queue.len() ==> #[trigger] queue[j] < REGION_BLOCKS
    &&& forall|x: int, y: int, z: int|
        in_region(x, y, z) && (#[trigger] world::region_byte(light, x, y, z)) >= 2 && at(x, y, z)
            != skip ==> queued(queue, head, at(x, y, z)) || spread(data, light, x, y, z)
}

/// Places that light everything around them make every level right.
proof fn spread_light_is_complete(data: Seq<u8>, light: Seq<u8>, x: int, y: int, z: int, n: nat)
    requires
        earned(data, light),
        sky_lit(data, light),
        forall|x: int, y: int, z: int|
            in_region(x, y, z) && (#[trigger] world::region_byte(light, x, y, z)) >= 2 ==> spread(
                data,
                light,
                x,
                y,
                z,
            ),
        within(data, x, y, z, n),
        n <= 14,
    ensures
        world::region_byte(light, x, y, z) >= 15 - n,
    decreases n,
{
    if n > 0 {
        let m = (n - 1) as nat;
        if within(data, x, y, z, m) {
            spread_light_is_complete(data, light, x, y, z, m);
        } else if within(data, x + 1, y, z, m) {
            lit_places_are_open(data, x + 1, y, z, m);
            spread_light_is_complete(data, light, x + 1, y, z, m);
            assert(spread(data, light, x + 1, y, z));
        } else if within(data, x - 1, y, z, m) {
            lit_places_are_open(data, x - 1, y, z, m);
            spread_light_is_complete(data, light, x - 1, y, z, m);
            assert(spread(data, light, x - 1, y, z));
        } else if within(data, x, y + 1, z, m) {
            lit_places_are_open(data, x, y + 1, z, m);
            spread_light_is_complete(data, light, x, y + 1, z, m);
            assert(spread(data, light, x, y + 1, z));
        } else if within(data, x, y - 1, z, m) {
            lit_places_are_open(data, x, y - 1, z, m);
            spread_light_is_complete(data, light, x, y - 1, z, m);
            assert(spread(data, light, x, y - 1, z));
        } else if within(data, x, y, z + 1, m) {
            lit_places_are_open(data, x, y, z + 1, m);
            spread_light_is_complete(data, light, x, y, z + 1, m);
            assert(spread(data, light, x, y, z + 1));
        } else {
            lit_places_are_open(data, x, y, z - 1, m);
            spread_light_is_complete(data, light, x, y, z - 1, m);
            assert(spread(data, light, x, y, z - 1));
        }
    }
}

proof fn spread_light_is_right(data: Seq<u8>, light: Seq<u8>)
    requires
        earned(data, light),
        sky_lit(data, light),
        forall|x: int, y: int, z: int|
            in_region(x, y, z) && (#[trigger] world::region_byte(light, x, y, z)) >= 2 ==> spread(
                data,
                light,
                x,
                y,
                z,
            ),
    ensures
        is_light_of(data, light),
{
    reveal(level);
    assert forall|x: int, y: int, z: int| in_region(x, y, z) implies #[trigger] world::region_byte(
        light,
        x,
        y,
        z,
    ) == level(data, x, y, z) by {
        let v = world::region_byte(light, x, y, z) as nat;
        assert(light[at(x, y, z)] <= 15);
        assert forall|k: nat| v < k <= 15 implies !#[trigger] within(
            data,
            x,
            y,
            z,
            (15 - k) as nat,
        ) by {
            if within(data, x, y, z, (15 - k) as nat) {
                spread_light_is_complete(data, light, x, y, z, (15 - k) as nat);
            }
        }
        level_from_is(data, x, y, z, 15, v);
    }
}

/// The place of a region's entry.
pub fn idx(x: i32, y: i32, z: i32) -> (i: usize)
    requires
        in_region(x as int, y as int, z as int),
    ensures
        i == (y * 26 + z) * 26 + x,
        i < REGION_BLOCKS,
{
    (y as usize * 26 + z as usize) * 26 + x as usize
}

/// Whether a place holds a solid block.
pub fn is_solid_at(data: &[u8], x: i32, y: i32, z: i32) -> (r: bool)
    requires
        data@.len() == REGION_BLOCKS,
    ensures
        r == solid_at(data@, x as int, y as int, z as int),
{
    if x < 0 || y < 0 || z < 0 || x >= 26 || y >= 26 || z >= 26 {
        return false;
    }
    Block::from_u8(data[idx(x, y, z)]).is_solid()
}

/// Lights a column from the top down to the first solid block.
fn light_column(data: &[u8], light: &mut Vec<u8>, x: i32, z: i32)
    requires
        data@.len() == REGION_BLOCKS,
        old(light)@.len() == REGION_BLOCKS,
        0 <= x < 26,
        0 <= z < 26,
    ensures
        final(light)@.len() == REGION_BLOCKS,
        forall|a: int, b: int, c: int|
            in_region(a, b, c) ==> #[trigger] world::region_byte(final(light)@, a, b, c) == (
            if a == x && c == z && open_to_sky(data@, a, b, c) {
                15
            } else {
                world::region_byte(old(light)@, a, b, c)
            }),
{
    let mut y: i32 = 26;
    while y > 0 && !is_solid_at(data, x, y - 1, z)
        invariant
            data@.len() == REGION_BLOCKS,
            light@.len() == REGION_BLOCKS,
            0 <= x < 26,
            0 <= z < 26,
            0 <= y <= 26,
            forall|h: int| y <= h < 26 ==> !#[trigger] solid_at(data@, x as int, h, z as int),
            forall|a: int, b: int, c: int|
                in_region(a, b, c) ==> #[trigger] world::region_byte(light@, a, b, c) == (if a == x
                    && c == z && b >= y {
                    15
                } else {
                    world::region_byte(old(light)@, a, b, c)
                }),
        decreases y,
    {
        y = y - 1;
        let ghost before = light@;
        light.set(idx(x, y, z), FULL_LIGHT);
        assert forall|a: int, b: int, c: int| in_region(a, b, c) implies #[trigger] world::region_byte(
            light@,
            a,
            b,
            c,
        ) == (if a == x && c == z && b >= y {
            15
        } else {
            world::region_byte(old(light)@, a, b, c)
        }) by {
            if at(a, b, c) == at(x as int, y as int, z as int) {
                places_differ(a, b, c, x as int, y as int, z as int);
            } else {
                assert(world::region_byte(light@, a, b, c) == world::region_byte(before, a, b, c));
            }
        }
    }
    assert forall|a: int, b: int, c: int| in_region(a, b, c) implies #[trigger] world::region_byte(
        light@,
        a,
        b,
        c,
    ) == (if a == x && c == z && open_to_sky(data@, a, b, c) {
        15
    } else {
        world::region_byte(old(light)@, a, b, c)
    }) by {
        if a == x && c == z && b < y {
            assert(solid_at(data@, x as int, y - 1, z as int));
        }
    }
}

/// The light that falls straight down.
fn direct_light(data: &[u8]) -> (light: Vec<u8>)
    requires
        data@.len() == REGION_BLOCKS,
    ensures
        light@.len() == REGION_BLOCKS,
        forall|x: int, y: int, z: int|
            in_region(x, y, z) ==> #[trigger] world::region_byte(light@, x, y, z) == (
            if open_to_sky(data@, x, y, z) {
                15
            } else {
                0int
            }),
{
    let mut light: Vec<u8> = vec![0u8; REGION_BLOCKS];
    let mut x: i32 = 0;
    while x < 26
        invariant
            0 <= x <= 26,
            data@.len() == REGION_BLOCKS,
            light@.len() == REGION_BLOCKS,
            forall|a: int, b: int, c: int|
                in_region(a, b, c) ==> #[trigger] world::region_byte(light@, a, b, c) == (if a < x
                    && open_to_sky(data@, a, b, c) {
                    15
                } else {
                    0int
                }),
        decreases 26 - x,
    {
        let mut z: i32 = 0;
        while z < 26
            invariant
                0 <= x < 26,
                0 <= z <= 26,
                data@.len() == REGION_BLOCKS,
                light@.len() == REGION_BLOCKS,
                forall|a: int, b: int, c: int|
                    in_region(a, b, c) ==> #[trigger] world::region_byte(light@, a, b, c) == (if (a
                        < x || (a == x && c < z)) && open_to_sky(data@, a, b, c) {
                        15
                    } else {
                        0int
                    }),
            decreases 26 - z,
        {
            light_column(data, &mut light, x, z);
            z = z + 1;
        }
        x = x + 1;
    }
    light
}

/// The fully lit places, as a queue.
fn lit_places(light: &Vec<u8>) -> (queue: Vec<usize>)
    requires
        light@.len() == REGION_BLOCKS,
    ensures
        forall|j: int| 0 <= j < queue@.len() ==> #[trigger] queue@[j] < REGION_BLOCKS,
        forall|i: int|
            0 <= i < REGION_BLOCKS && #[trigger] light@[i] == 15 ==> queued(queue@, 0, i),
{
    let mut queue: Vec<usize> = Vec::new();
    let mut i: usize = 0;
    while i < REGION_BLOCKS
        invariant
            i <= REGION_BLOCKS,
            light@.len() == REGION_BLOCKS,
            forall|j: int| 0 <= j < queue@.len() ==> #[trigger] queue@[j] < REGION_BLOCKS,
            forall|k: int| 0 <= k < i && #[trigger] light@[k] == 15 ==> queued(queue@, 0, k),
        decreases REGION_BLOCKS - i,
    {
        if light[i] == FULL_LIGHT {
            let ghost before = queue@;
            queue.push(i);
            assert forall|k: int| 0 <= k <= i && #[trigger] light@[k] == 15 implies queued(
                queue@,
                0,
                k,
            ) by {
                if k < i {
                    let j = choose|j: int| 0 <= j < before.len() && #[trigger] before[j] == k;
                    assert(queue@[j] == k);
                } else {
                    assert(queue@[before.len() as int] == k);
                }
            }
        }
        i = i + 1;
    }
    queue
}

/// Brightens a place, if it can be lit and is darker than what it is offered, and
/// queues it.
fn offer(
    data: &[u8],
    light: &mut Vec<u8>,
    queue: &mut Vec<usize>,
    Ghost(head): Ghost<int>,
    Ghost(skip): Ghost<int>,
    x: i32,
    y: i32,
    z: i32,
    v: u8,
)
    requires
        data@.len() == REGION_BLOCKS,
        earned(data@, old(light)@),
        sky_lit(data@, old(light)@),
        flowing(data@, old(light)@, old(queue)@, head, skip),
        0 <= head <= old(queue)@.len(),
        -1 <= x <= 26,
        -1 <= y <= 26,
        -1 <= z <= 26,
        1 <= v <= 14,
        in_region(x as int, y as int, z as int) && !solid_at(data@, x as int, y as int, z as int)
            ==> within(data@, x as int, y as int, z as int, (15 - v) as nat),
        0 <= skip < REGION_BLOCKS,
        old(light)@[skip] > v,
    ensures
        earned(data@, final(light)@),
        sky_lit(data@, final(light)@),
        flowing(data@, final(light)@, final(queue)@, head, skip),
        bright(data@, final(light)@, x as int, y as int, z as int, v as int),
        forall|i: int|
            0 <= i < REGION_BLOCKS ==> #[trigger] final(light)@[i] >= old(light)@[i],
        final(light)@[skip] == old(light)@[skip],
        final(queue)@.len() >= old(queue)@.len(),
        missing(final(light)@) + final(queue)@.len() <= missing(old(light)@) + old(queue)@.len(),
{
    if x < 0 || y < 0 || z < 0 || x >= 26 || y >= 26 || z >= 26 {
        return;
    }
    if is_solid_at(data, x, y, z) {
        return;
    }
    let i: usize = idx(x, y, z);
    if light[i] >= v {
        return;
    }
    let ghost before = light@;
    let ghost waiting = queue@;
    light.set(i, v);
    queue.push(i);
    proof {
        missing_of_update(before, i as int, v);
        assert forall|a: int, b: int, c: int|
            in_region(a, b, c) && (#[trigger] world::region_byte(light@, a, b, c))
                > 0 implies within(
            data@,
            a,
            b,
            c,
            (15 - world::region_byte(light@, a, b, c)) as nat,
        ) by {
            if at(a, b, c) == i {
                places_differ(a, b, c, x as int, y as int, z as int);
            } else {
                assert(world::region_byte(before, a, b, c) == world::region_byte(light@, a, b, c));
            }
        }
        assert forall|a: int, b: int, c: int| #[trigger]
            open_to_sky(data@, a, b, c) implies world::region_byte(light@, a, b, c) == 15 by {
            assert(world::region_byte(before, a, b, c) == 15);
            if at(a, b, c) == i {
                places_differ(a, b, c, x as int, y as int, z as int);
            }
        }
        assert forall|a: int, b: int, c: int|
            in_region(a, b, c) && (#[trigger] world::region_byte(light@, a, b, c)) >= 2 && at(
                a,
                b,
                c,
            ) != skip implies queued(queue@, head, at(a, b, c)) || spread(
            data@,
            light@,
            a,
            b,
            c,
        ) by {
            if at(a, b, c) == i {
                assert(queue@[waiting.len() as int] == i);
            } else {
                assert(world::region_byte(before, a, b, c) == world::region_byte(light@, a, b, c));
                if queued(waiting, head, at(a, b, c)) {
                    let j = choose|j: int|
                        head <= j < waiting.len() && #[trigger] waiting[j] == at(a, b, c);
                    assert(queue@[j] == at(a, b, c));
                } else {
                    still_spread(data@, before, light@, a, b, c);
                }
            }
        }
    }
}

/// Light that has spread stays so while places get brighter.
proof fn still_spread(data: Seq<u8>, before: Seq<u8>, after: Seq<u8>, x: int, y: int, z: int)
    requires
        before.len() == REGION_BLOCKS,
        after.len() == REGION_BLOCKS,
        in_region(x, y, z),
        spread(data, before, x, y, z),
        forall|i: int| 0 <= i < REGION_BLOCKS ==> #[trigger] after[i] >= before[i],
        world::region_byte(after, x, y, z) == world::region_byte(before, x, y, z),
    ensures
        spread(data, after, x, y, z),
{
}

proof fn still_queued(queue: Seq<usize>, head: int, i: int)
    requires
        0 <= head < queue.len(),
        queued(queue, head, i),
        queue[head] != i,
    ensures
        queued(queue, head + 1, i),
{
    let j = choose|j: int| head <= j < queue.len() && #[trigger] queue[j] == i;
    assert(queue[j] == i);
}

/// The level of every place of a region.
pub fn sky_light(data: &[u8]) -> (light: Vec<u8>)
    requires
        data@.len() == REGION_BLOCKS,
    ensures
        is_light_of(data@, light@),
{
    let mut light = direct_light(data);
    let mut queue = lit_places(&light);
    let mut head: usize = 0;
    proof {
        assert forall|i: int| 0 <= i < light@.len() implies #[trigger] light@[i] <= 15 by {
            assert(world::region_byte(light@, i % 26, i / 676, i / 26 % 26) == light@[i]);
        }
        missing_is_not_negative(light@);
        assert(earned(data@, light@));
        assert(flowing(data@, light@, queue@, 0, -1)) by {
            assert forall|x: int, y: int, z: int|
                in_region(x, y, z) && (#[trigger] world::region_byte(light@, x, y, z))
                    >= 2 implies queued(queue@, 0, at(x, y, z)) by {
                assert(light@[at(x, y, z)] == 15);
            }
        }
    }
    while head < queue.len()
        invariant
            data@.len() == REGION_BLOCKS,
            head <= queue@.len(),
            earned(data@, light@),
            sky_lit(data@, light@),
            flowing(data@, light@, queue@, head as int, -1),
            missing(light@) >= 0,
        decreases missing(light@) + queue@.len() - head,
    {
        let i: usize = queue[head];
        head = head + 1;
        let l: u8 = light[i];
        let x: i32 = (i % 26) as i32;
        let z: i32 = (i / 26 % 26) as i32;
        let y: i32 = (i / 676) as i32;
        let ghost gx = x as int;
        let ghost gy = y as int;
        let ghost gz = z as int;
        let ghost gi = i as int;
        proof {
            assert(at(gx, gy, gz) == gi);
            assert(world::region_byte(light@, gx, gy, gz) == l);
            assert(flowing(data@, light@, queue@, head as int, gi)) by {
                assert forall|a: int, b: int, c: int|
                    in_region(a, b, c) && (#[trigger] world::region_byte(light@, a, b, c)) >= 2
                        && at(a, b, c) != gi implies queued(queue@, head as int, at(a, b, c))
                    || spread(data@, light@, a, b, c) by {
                    if queued(queue@, head - 1, at(a, b, c)) {
                        still_queued(queue@, head - 1, at(a, b, c));
                    }
                }
            }
        }
        if l > 1 {
            let v: u8 = l - 1;
            proof {
                reach(data@, gx, gy, gz, (15 - l) as nat);
            }
            let ghost l0 = light@;
            offer(data, &mut light, &mut queue, Ghost(head as int), Ghost(gi), x + 1, y, z, v);
            let ghost l1 = light@;
            offer(data, &mut light, &mut queue, Ghost(head as int), Ghost(gi), x - 1, y, z, v);
            let ghost l2 = light@;
            offer(data, &mut light, &mut queue, Ghost(head as int), Ghost(gi), x, y + 1, z, v);
            let ghost l3 = light@;
            offer(data, &mut light, &mut queue, Ghost(head as int), Ghost(gi), x, y - 1, z, v);
            let ghost l4 = light@;
            offer(data, &mut light, &mut queue, Ghost(head as int), Ghost(gi), x, y, z + 1, v);
            let ghost l5 = light@;
            offer(data, &mut light, &mut queue, Ghost(head as int), Ghost(gi), x, y, z - 1, v);
            proof {
                still_bright(data@, l1, light@, gx + 1, gy, gz, v as int, l2, l3, l4, l5);
                still_bright(data@, l2, light@, gx - 1, gy, gz, v as int, l2, l3, l4, l5);
                still_bright(data@, l3, light@, gx, gy + 1, gz, v as int, l3, l3, l4, l5);
                still_bright(data@, l4, light@, gx, gy - 1, gz, v as int, l4, l4, l4, l5);
                still_bright(data@, l5, light@, gx, gy, gz + 1, v as int, l5, l5, l5, l5);
                assert(world::region_byte(light@, gx, gy, gz) == l);
                assert(spread(data@, light@, gx, gy, gz));
            }
        }
        proof {
            missing_is_not_negative(light@);
            assert(flowing(data@, light@, queue@, head as int, -1)) by {
                assert forall|a: int, b: int, c: int|
                    in_region(a, b, c) && (#[trigger] world::region_byte(light@, a, b, c))
                        >= 2 implies queued(queue@, head as int, at(a, b, c)) || spread(
                    data@,
                    light@,
                    a,
                    b,
                    c,
                ) by {
                    if at(a, b, c) == gi {
                        places_differ(a, b, c, gx, gy, gz);
                    }
                }
            }
        }
    }
    proof {
        spread_light_is_right(data@, light@);
    }
    light
}

/// Light that gets to a place gets to those against it with one step more.
proof fn reach(data: Seq<u8>, x: int, y: int, z: int, n: nat)
    requires
        within(data, x, y, z, n),
    ensures
        forall|a: int, b: int, c: int|
            in_region(a, b, c) && !solid_at(data, a, b, c) && ((a == x + 1 && b == y && c == z) || (
            a == x - 1 && b == y && c == z) || (a == x && b == y + 1 && c == z) || (a == x && b == y
                - 1 && c == z) || (a == x && b == y && c == z + 1) || (a == x && b == y && c == z
                - 1)) ==> #[trigger] within(data, a, b, c, n + 1),
{
}

proof fn still_bright(
    data: Seq<u8>,
    before: Seq<u8>,
    after: Seq<u8>,
    x: int,
    y: int,
    z: int,
    v: int,
    s1: Seq<u8>,
    s2: Seq<u8>,
    s3: Seq<u8>,
    s4: Seq<u8>,
)
    requires
        bright(data, before, x, y, z, v),
        before.len() == REGION_BLOCKS,
        forall|i: int| 0 <= i < REGION_BLOCKS ==> #[trigger] s1[i] >= before[i],
        forall|i: int| 0 <= i < REGION_BLOCKS ==> #[trigger] s2[i] >= s1[i],
        forall|i: int| 0 <= i < REGION_BLOCKS ==> #[trigger] s3[i] >= s2[i],
        forall|i: int| 0 <= i < REGION_BLOCKS ==> #[trigger] s4[i] >= s3[i],
        forall|i: int| 0 <= i < REGION_BLOCKS ==> #[trigger] after[i] >= s4[i],
    ensures
        bright(data, after, x, y, z, v),
{
    let i = at(x, y, z);
    if in_region(x, y, z) {
        assert(after[i] >= s4[i] && s4[i] >= s3[i] && s3[i] >= s2[i] && s2[i] >= s1[i]
            && s1[i] >= before[i]);
    }
}

// ---- Laws ----------------------------------------------------------------------

/// No level is above that of the open sky, which is the level of every place with
/// nothing solid above it. Solid blocks are dark.
pub proof fn sky_is_brightest(data: Seq<u8>, x: int, y: int, z: int)
    ensures
        level(data, x, y, z) <= FULL_LIGHT,
        open_to_sky(data, x, y, z) <==> level(data, x, y, z) == FULL_LIGHT,
        solid_at(data, x, y, z) ==> level(data, x, y, z) == 0,
{
    reveal(level);
    level_meaning(data, x, y, z, 15);
    let v = level_from(data, x, y, z, 15);
    if v > 0 {
        lit_places_are_open(data, x, y, z, (15 - v) as nat);
    }
    if v < 15 {
        assert(!within(data, x, y, z, (15 - 15) as nat));
    }
}

/// Between two places against each other, neither of them solid, light loses at
/// most one level.
pub proof fn light_fades_by_one(
    data: Seq<u8>,
    x: int,
    y: int,
    z: int,
    a: int,
    b: int,
    c: int,
)
    requires
        in_region(a, b, c),
        !solid_at(data, a, b, c),
        (a == x + 1 && b == y && c == z) || (a == x - 1 && b == y && c == z) || (a == x && b == y
            + 1 && c == z) || (a == x && b == y - 1 && c == z) || (a == x && b == y && c == z + 1)
            || (a == x && b == y && c == z - 1),
    ensures
        level(data, a, b, c) + 1 >= level(data, x, y, z),
{
    reveal(level);
    let v = level_from(data, x, y, z, 15);
    level_meaning(data, x, y, z, 15);
    level_meaning(data, a, b, c, 15);
    if v >= 2 {
        reach(data, x, y, z, (15 - v) as nat);
        assert(within(data, a, b, c, (15 - v) as nat + 1));
        assert(within(data, a, b, c, (15 - (v - 1)) as nat));
        let w = level_from(data, a, b, c, 15);
        if w < v - 1 {
            assert(!within(data, a, b, c, (15 - (v - 1) as nat) as nat));
        }
    }
}

/// Light that is not full came from somewhere: a place against it is brighter.
pub proof fn light_comes_from_somewhere(data: Seq<u8>, x: int, y: int, z: int)
    requires
        0 < level(data, x, y, z) < FULL_LIGHT,
    ensures
        ({
            let v = level(data, x, y, z) + 1;
            ||| level(data, x + 1, y, z) == v
            ||| level(data, x - 1, y, z) == v
            ||| level(data, x, y + 1, z) == v
            ||| level(data, x, y - 1, z) == v
            ||| level(data, x, y, z + 1) == v
            ||| level(data, x, y, z - 1) == v
        }),
{
    reveal(level);
    let v = level_from(data, x, y, z, 15);
    level_meaning(data, x, y, z, 15);
    let n = (15 - v) as nat;
    let m = (n - 1) as nat;
    assert(!within(data, x, y, z, (15 - (v + 1)) as nat));
    assert(!within(data, x, y, z, m));
    lit_places_are_open(data, x, y, z, n);
    if within(data, x + 1, y, z, m) {
        one_brighter(data, x, y, z, x + 1, y, z, v);
    } else if within(data, x - 1, y, z, m) {
        one_brighter(data, x, y, z, x - 1, y, z, v);
    } else if within(data, x, y + 1, z, m) {
        one_brighter(data, x, y, z, x, y + 1, z, v);
    } else if within(data, x, y - 1, z, m) {
        one_brighter(data, x, y, z, x, y - 1, z, v);
    } else if within(data, x, y, z + 1, m) {
        one_brighter(data, x, y, z, x, y, z + 1, v);
    } else {
        one_brighter(data, x, y, z, x, y, z - 1, v);
    }
}

proof fn one_brighter(data: Seq<u8>, x: int, y: int, z: int, a: int, b: int, c: int, v: nat)
    requires
        level(data, x, y, z) == v,
        0 < v < 15,
        in_region(x, y, z),
        !solid_at(data, x, y, z),
        within(data, a, b, c, (15 - (v + 1)) as nat),
        (x == a + 1 && y == b && z == c) || (x == a - 1 && y == b && z == c) || (x == a && y == b
            + 1 && z == c) || (x == a && y == b - 1 && z == c) || (x == a && y == b && z == c + 1)
            || (x == a && y == b && z == c - 1),
    ensures
        level(data, a, b, c) == v + 1,
{
    light_fades_by_one(data, a, b, c, x, y, z);
    reveal(level);
    level_meaning(data, a, b, c, 15);
    let w = level_from(data, a, b, c, 15);
    if w < v + 1 {
        assert(!within(data, a, b, c, (15 - (v + 1) as nat) as nat));
    }
}

/// Whether light passes a byte of a region: air, water, flowers, and what is no block.
pub open spec fn lets_light_through(b: u8) -> bool {
    b == 0 || b == 5 || b == 9 || b == 10 || b > 16
}

/// A place of a region has the full level 15 exactly where light passes it and all places
/// above it. Light does not pass solid blocks, glass and leaves among them: they are dark.
/// Nothing outside the region has light.
pub proof fn light_falls_from_above(data: Seq<u8>, x: int, y: int, z: int)
    ensures
        level(data, x, y, z) == 15 <==> 0 <= x < 26 && 0 <= y < 26 && 0 <= z < 26 && forall|h: int|
            y <= h < 26 ==> lets_light_through(#[trigger] world::region_byte(data, x, h, z)),
        0 <= x < 26 && 0 <= y < 26 && 0 <= z < 26 && !lets_light_through(
            world::region_byte(data, x, y, z),
        ) ==> level(data, x, y, z) == 0,
        !(0 <= x < 26 && 0 <= y < 26 && 0 <= z < 26) ==> level(data, x, y, z) == 0,
        level(data, x, y, z) <= 15,
{
    sky_is_brightest(data, x, y, z);
    if in_region(x, y, z) {
        assert forall|h: int| y <= h < 26 implies (lets_light_through(
            #[trigger] world::region_byte(data, x, h, z),
        ) <==> !solid_at(data, x, h, z)) by {
            assert(solid_at(data, x, h, z) <==> cell(data, x, h, z).spec_is_solid());
        }
        if !open_to_sky(data, x, y, z) {
            let h = choose|h: int| y <= h < 26 && #[trigger] solid_at(data, x, h, z);
            assert(!lets_light_through(world::region_byte(data, x, h, z)));
        } else {
            assert forall|h: int| y <= h < 26 implies lets_light_through(
                #[trigger] world::region_byte(data, x, h, z),
            ) by {
                assert(!solid_at(data, x, h, z));
            }
        }
    } else {
        outside_is_dark(data, x, y, z);
    }
}

proof fn outside_is_dark(data: Seq<u8>, x: int, y: int, z: int)
    requires
        !in_region(x, y, z),
    ensures
        level(data, x, y, z) == 0,
{
    reveal(level);
    level_meaning(data, x, y, z, 15);
    let v = level_from(data, x, y, z, 15);
    if v > 0 {
        lit_places_are_open(data, x, y, z, (15 - v) as nat);
    }
}

/// A place that light passes is at most one level darker than each of the six places
/// against it, and one that is neither full nor dark is one level darker than one of them.
pub proof fn light_spreads_to_all_sides(data: Seq<u8>, x: int, y: int, z: int, s: int)
    requires
        0 <= x < 26,
        0 <= y < 26,
        0 <= z < 26,
        lets_light_through(world::region_byte(data, x, y, z)),
        0 <= s < 6,
    ensures
        ({
            let v = level(data, x, y, z);
            &&& v + 1 >= level(
                data,
                x + if s == 0 {
                    1int
                } else if s == 1 {
                    -1
                } else {
                    0
                },
                y + if s == 2 {
                    1int
                } else if s == 3 {
                    -1
                } else {
                    0
                },
                z + if s == 4 {
                    1int
                } else if s == 5 {
                    -1
                } else {
                    0
                },
            )
            &&& 0 < v < 15 ==> level(data, x + 1, y, z) == v + 1 || level(data, x - 1, y, z) == v
                + 1 || level(data, x, y + 1, z) == v + 1 || level(data, x, y - 1, z) == v + 1
                || level(data, x, y, z + 1) == v + 1 || level(data, x, y, z - 1) == v + 1
        }),
{
    assert(!solid_at(data, x, y, z));
    let a = x + if s == 0 {
        1int
    } else if s == 1 {
        -1
    } else {
        0
    };
    let b = y + if s == 2 {
        1int
    } else if s == 3 {
        -1
    } else {
        0
    };
    let c = z + if s == 4 {
        1int
    } else if s == 5 {
        -1
    } else {
        0
    };
    light_fades_by_one(data, a, b, c, x, y, z);
    if 0 < level(data, x, y, z) < 15 {
        light_comes_from_somewhere(data, x, y, z);
    }
}

/// The light of a region has, at each place, the level of that place.
pub proof fn light_is_kept_place_by_place(
    data: Seq<u8>,
    light: Seq<u8>,
    x: int,
    y: int,
    z: int,
)
    requires
        is_light_of(data, light),
        0 <= x < 26,
        0 <= y < 26,
        0 <= z < 26,
    ensures
        light.len() == 17576,
        light[(y * 26 + z) * 26 + x] == level(data, x, y, z),
{
    assert(world::region_byte(light, x, y, z) == level(data, x, y, z));
}

} // verus!
