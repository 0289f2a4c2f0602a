//! What pictures and scenes are made of, and what is sent to the graphics card with them.
use vstd::prelude::*;

use crate::mesh;
use crate::mesh::Vertex;
use crate::picture;
use crate::picture::Streamed;
use crate::text;
use crate::uniforms;
use crate::wire;

verus! {

/// The value of a symbol of base64 text.
pub open spec fn digit_of(c: char) -> int {
    if 'A' <= c <= 'Z' {
        c as int - 65
    } else if 'a' <= c <= 'z' {
        c as int - 71
    } else if '0' <= c <= '9' {
        c as int + 4
    } else if c == '+' {
        62
    } else {
        63
    }
}

/// There is a symbol for each of 64 values.
pub proof fn symbols_have_their_values(d: int)
    requires
        0 <= d < 64,
    ensures
        digit_of(picture::symbol(d)) == d,
        picture::symbol(63) == '/',
        picture::symbol(62) == '+',
        picture::symbol(d) != '=',
{
    if d < 26 {
        assert((65 + d) as char as int == 65 + d);
    } else if d < 52 {
        assert((97 + d - 26) as char as int == 97 + d - 26);
    } else if d < 62 {
        assert((48 + d - 52) as char as int == 48 + d - 52);
    }
}

/// Three bytes are four symbols, whose values are the bits of the bytes in order. What is
/// left over at the end is filled up with signs of its own.
pub proof fn four_symbols_hold_three_bytes(data: Seq<u8>, g: int)
    requires
        0 <= 3 * g < data.len(),
    ensures
        ({
            let t = picture::base64_of(data);
            &&& t.len() == 4 * ((data.len() + 2) / 3)
            &&& 3 * g + 2 < data.len() ==> digit_of(t[4 * g]) * 262144 + digit_of(t[4 * g + 1])
                * 4096 + digit_of(t[4 * g + 2]) * 64 + digit_of(t[4 * g + 3]) == data[3 * g] * 65536
                + data[3 * g + 1] * 256 + data[3 * g + 2]
            &&& 3 * g + 2 == data.len() ==> t[4 * g + 3] == '=' && digit_of(t[4 * g]) * 4096
                + digit_of(t[4 * g + 1]) * 64 + digit_of(t[4 * g + 2]) == (data[3 * g] * 256
                + data[3 * g + 1]) * 4
            &&& 3 * g + 1 == data.len() ==> t[4 * g + 3] == '=' && t[4 * g + 2] == '=' && digit_of(
                t[4 * g],
            ) * 64 + digit_of(t[4 * g + 1]) == data[3 * g] * 16
        }),
{
    let n = picture::group(data, g);
    let u = picture::group_text(data, g);
    symbols_stand_in_groups(data, g, 0);
    symbols_stand_in_groups(data, g, 1);
    symbols_stand_in_groups(data, g, 2);
    symbols_stand_in_groups(data, g, 3);
    groups_hold_three_bytes(data, g);
    assert(u[0] == picture::symbol(n / 262144));
    assert(u[1] == picture::symbol(n / 4096 % 64));
}

proof fn groups_hold_three_bytes(data: Seq<u8>, g: int)
    requires
        0 <= 3 * g < data.len(),
    ensures
        ({
            let n = picture::group(data, g);
            let a = digit_of(picture::symbol(n / 262144));
            let b = digit_of(picture::symbol(n / 4096 % 64));
            let c = digit_of(picture::symbol(n / 64 % 64));
            let d = digit_of(picture::symbol(n % 64));
            &&& a * 262144 + b * 4096 + c * 64 + d == n
            &&& 3 * g + 2 == data.len() ==> d == 0
            &&& 3 * g + 1 == data.len() ==> c == 0 && d == 0
        }),
{
    let n = picture::group(data, g);
    let x = picture::byte_at(data, 3 * g);
    let y = picture::byte_at(data, 3 * g + 1);
    let z = picture::byte_at(data, 3 * g + 2);
    four_digits_make_a_number(x, y, z);
    symbols_have_their_values(n / 262144);
    symbols_have_their_values(n / 4096 % 64);
    symbols_have_their_values(n / 64 % 64);
    symbols_have_their_values(n % 64);
}

proof fn four_digits_make_a_number(x: int, y: int, z: int)
    requires
        0 <= x < 256,
        0 <= y < 256,
        0 <= z < 256,
    ensures
        ({
            let n = x * 65536 + y * 256 + z;
            &&& 0 <= n / 262144 < 64
            &&& n / 262144 * 262144 + n / 4096 % 64 * 4096 + n / 64 % 64 * 64 + n % 64 == n
            &&& z == 0 ==> n % 64 == 0
            &&& z == 0 && y == 0 ==> n / 64 % 64 == 0
        }),
{
    let n = x * 65536 + y * 256 + z;
    digits_are_parts(n, x / 4, x % 4 * 16 + y / 16, y % 16 * 4 + z / 64, z % 64);
}

proof fn digits_are_parts(n: int, a: int, b: int, c: int, d: int)
    requires
        0 <= a < 64,
        0 <= b < 64,
        0 <= c < 64,
        0 <= d < 64,
        n == a * 262144 + b * 4096 + c * 64 + d,
    ensures
        n / 262144 == a,
        n / 4096 % 64 == b,
        n / 64 % 64 == c,
        n % 64 == d,
{
    assert(n / 262144 == a && n / 4096 == a * 64 + b);
    assert(n / 64 == (a * 64 + b) * 64 + c && n % 64 == d);
    assert((a * 64 + b) % 64 == b);
    assert(((a * 64 + b) * 64 + c) % 64 == c);
}

proof fn symbols_stand_in_groups(data: Seq<u8>, g: int, j: int)
    requires
        0 <= 3 * g < data.len(),
        0 <= j < 4,
    ensures
        picture::base64_of(data)[4 * g + j] == picture::group_text(data, g)[j],
        picture::base64_of(data).len() == 4 * ((data.len() + 2) / 3),
{
    assert((4 * g + j) / 4 == g);
    assert((4 * g + j) % 4 == j);
}

/// Lines have 12000 characters, but for the last, which has what is left.
pub proof fn lines_are_full(s: Seq<char>, i: int)
    requires
        0 <= i < picture::line_count(s.len() as int),
    ensures
        12000 * (i + 1) <= s.len() ==> picture::line(s, i).len() == 12000,
        12000 * (i + 1) > s.len() ==> picture::line(s, i).len() == s.len() - 12000 * i
            && picture::line(s, i).len() > 0 && i + 1 == picture::line_count(s.len() as int),
        picture::line_count(0) == 0,
{
}

/// A picture is kept from its lowest row up, 256 pixels to a row and four bytes to a pixel.
/// A region is a field of 64 pixels by 48 in it: regions are counted from the top, and from
/// the left.
pub proof fn regions_are_fields(row: int, column: int, k: int)
    requires
        0 <= row < 3,
        0 <= column < 4,
        0 <= k < 3072,
    ensures
        ({
            let p = picture::pixel(row, column, k);
            let y = p / 4 / 256;
            let x = p / 4 % 256;
            &&& p % 4 == 0
            &&& 64 * column <= x < 64 * column + 64
            &&& 96 - 48 * row <= y < 144 - 48 * row
        }),
{
    let y = (2 - row) * 48 + k / 64;
    let x = column * 64 + k % 64;
    let p = picture::pixel(row, column, k);
    assert(p == (y * 256 + x) * 4);
    assert(p / 4 == y * 256 + x);
    assert((y * 256 + x) / 256 == y);
    assert((y * 256 + x) % 256 == x);
}

/// The colour of a region that has one colour is that colour. A region that is nowhere
/// darker than another one is not darker.
pub proof fn averages_go_with_their_pixels(
    a: Seq<u8>,
    b: Seq<u8>,
    row: int,
    column: int,
    c: int,
    v: u8,
)
    requires
        forall|k: int|
            0 <= k < 3072 ==> a[#[trigger] picture::pixel(row, column, k) + c] <= b[picture::pixel(
                row,
                column,
                k,
            ) + c],
    ensures
        picture::average(a, row, column, c) <= picture::average(b, row, column, c),
        (forall|k: int| 0 <= k < 3072 ==> a[#[trigger] picture::pixel(row, column, k) + c] == v)
            ==> picture::average(a, row, column, c) == v,
{
    sums_go_with_their_pixels(a, b, row, column, c, v, 3072);
}

proof fn sums_go_with_their_pixels(
    a: Seq<u8>,
    b: Seq<u8>,
    row: int,
    column: int,
    c: int,
    v: u8,
    n: nat,
)
    requires
        n <= 3072,
        forall|k: int|
            0 <= k < 3072 ==> a[#[trigger] picture::pixel(row, column, k) + c] <= b[picture::pixel(
                row,
                column,
                k,
            ) + c],
    ensures
        picture::colour_sum(a, row, column, c, n) <= picture::colour_sum(b, row, column, c, n),
        (forall|k: int| 0 <= k < 3072 ==> a[#[trigger] picture::pixel(row, column, k) + c] == v)
            ==> picture::colour_sum(a, row, column, c, n) == n * v,
    decreases n,
{
    if n == 0 {
        assert(n * v == 0) by (nonlinear_arith)
            requires
                n == 0,
        ;
    } else {
        sums_go_with_their_pixels(a, b, row, column, c, v, (n - 1) as nat);
        let p = picture::pixel(row, column, n - 1);
        assert(a[p + c] <= b[p + c]);
        assert(n * v == (n - 1) * v + v) by (nonlinear_arith)
            requires
                n > 0,
        ;
    }
}

/// A scene is made of the chunks that came, one behind the other, whatever came between
/// that is no chunk or shows nothing.
pub proof fn scenes_add_up(cs: Seq<Streamed>, ds: Seq<Streamed>)
    ensures
        picture::scene_vertices(cs + ds).0 == picture::scene_vertices(cs).0
            + picture::scene_vertices(ds).0,
        picture::scene_vertices(cs + ds).1 == picture::scene_vertices(cs).1
            + picture::scene_vertices(ds).1,
    decreases ds.len(),
{
    let none = Seq::<Vertex>::empty();
    if ds.len() == 0 {
        assert(cs + ds =~= cs);
        assert(picture::scene_vertices(cs).0 + none =~= picture::scene_vertices(cs).0);
        assert(picture::scene_vertices(cs).1 + none =~= picture::scene_vertices(cs).1);
    } else {
        let init = ds.drop_last();
        scenes_add_up(cs, init);
        assert((cs + ds).drop_last() =~= cs + init);
        assert((cs + ds).last() == ds.last());
        if picture::part_of(ds.last()) is Some {
            let part = picture::part_of(ds.last())->Some_0;
            let before = picture::scene_vertices(cs);
            let after = picture::scene_vertices(init);
            assert((before.0 + after.0) + part.0 =~= before.0 + (after.0 + part.0));
            assert((before.1 + after.1) + part.1 =~= before.1 + (after.1 + part.1));
        }
    }
}

/// Only chunks of 17576 blocks are drawn.
pub proof fn scenes_are_made_of_whole_chunks(c: Streamed)
    ensures
        c.data@.len() != 17576 ==> picture::part_of(c) is None,
        picture::scene_vertices(Seq::<Streamed>::empty()).0.len() == 0,
        picture::scene_vertices(Seq::<Streamed>::empty()).1.len() == 0,
{
}

/// The block of a frame's numbers is as the shaders read it: a matrix of sixteen numbers,
/// the place of the camera and a gap, where the fog begins and where it ends and a gap of
/// two, and the colour of the sky and a gap.
pub proof fn frames_are_laid_out(
    view_proj: Seq<u32>,
    cam: Seq<u32>,
    fog_start: u32,
    fog_end: u32,
    sky: Seq<u32>,
    k: int,
)
    requires
        view_proj.len() == 16,
        cam.len() == 3,
        sky.len() == 3,
    ensures
        ({
            let b = uniforms::number_bytes(
                uniforms::block_numbers(view_proj, cam, fog_start, fog_end, sky),
            );
            &&& b.len() == 112
            &&& 0 <= k < 16 ==> wire::val4(b, 4 * k) == view_proj[k]
            &&& 0 <= k < 3 ==> wire::val4(b, 64 + 4 * k) == cam[k]
            &&& wire::val4(b, 76) == 0
            &&& wire::val4(b, 80) == fog_start
            &&& wire::val4(b, 84) == fog_end
            &&& wire::val4(b, 88) == 0
            &&& wire::val4(b, 92) == 0
            &&& 0 <= k < 3 ==> wire::val4(b, 96 + 4 * k) == sky[k]
            &&& wire::val4(b, 108) == 0
        }),
{
    let v = uniforms::block_numbers(view_proj, cam, fog_start, fog_end, sky);
    assert(v.len() == 28);
    numbers_take_four_bytes(v);
    if 0 <= k < 16 {
        uniforms::numbers_stand_in_place(v, k);
    }
    if 0 <= k < 3 {
        uniforms::numbers_stand_in_place(v, 16 + k);
        uniforms::numbers_stand_in_place(v, 24 + k);
    }
    uniforms::numbers_stand_in_place(v, 19);
    uniforms::numbers_stand_in_place(v, 20);
    uniforms::numbers_stand_in_place(v, 21);
    uniforms::numbers_stand_in_place(v, 22);
    uniforms::numbers_stand_in_place(v, 23);
    uniforms::numbers_stand_in_place(v, 27);
}

proof fn numbers_take_four_bytes(v: Seq<u32>)
    ensures
        uniforms::number_bytes(v).len() == 4 * v.len(),
    decreases v.len(),
{
    broadcast use wire::group_number_lengths;

    if v.len() > 0 {
        numbers_take_four_bytes(v.drop_last());
    }
}

/// A chunk takes part in a scene exactly where it is whole and shows anything, opaque or
/// not: then with all that it shows, at its place.
pub proof fn chunks_that_show_anything_take_part(c: Streamed)
    ensures
        ({
            let o = ((c.pos.x * 16) as i32, (c.pos.y * 16) as i32, (c.pos.z * 16) as i32);
            let v = mesh::opaque_vertices(c.data@, o, 4096);
            let w = mesh::translucent_vertices(c.data@, o, 4096);
            &&& picture::part_of(c) is Some <==> c.data@.len() == 17576 && (v.len() > 0 || w.len()
                > 0)
            &&& picture::part_of(c) is Some ==> picture::part_of(c) == Some((v, w))
        }),
{
}

/// The report on a picture names its twelve regions, four to a row from the top, each by
/// its red, green and blue.
pub proof fn reports_name_twelve_regions(px: Seq<u8>, row: int, column: int)
    requires
        0 <= row < 3,
        0 <= column < 4,
    ensures
        ({
            let n = (4 * row + column) as nat;
            picture::grid_text(px, n + 1) == picture::grid_text(px, n) + (text::decimal(
                picture::average(px, row, column, 0) as nat,
            ) + ","@ + text::decimal(picture::average(px, row, column, 1) as nat) + ","@
                + text::decimal(picture::average(px, row, column, 2) as nat) + "; "@)
        }),
        picture::grid_text(px, 0).len() == 0,
{
    let n = 4 * row + column;
    assert(n / 4 == row);
    assert(n % 4 == column);
}

/// What is averaged over a region is each of its pixels, once.
pub proof fn sums_go_pixel_by_pixel(px: Seq<u8>, row: int, column: int, c: int, n: nat)
    ensures
        picture::colour_sum(px, row, column, c, 0) == 0,
        picture::colour_sum(px, row, column, c, n + 1) == picture::colour_sum(px, row, column, c, n)
            + px[picture::pixel(row, column, n as int) + c],
        picture::average(px, row, column, c) == picture::colour_sum(px, row, column, c, 3072)
            / 3072,
{
}

} // verus!
