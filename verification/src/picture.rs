//! Pictures that a page makes of itself: the scene put together from what was
//! streamed, the colours of the picture by regions, and the picture as text.
use vstd::prelude::*;

use crate::coords::{ChunkPos, REGION_BLOCKS};
use crate::mesh;
use crate::mesh::{build_chunk_mesh, MeshData, Vertex};
use crate::text;
use crate::text::{chars_of, push_number, text_between};

verus! {

// ---- Bytes as text -------------------------------------------------------------------

/// The character of six bits.
pub open spec fn symbol(d: int) -> char {
    (if d < 26 {
        'A' as int + d
    } else if d < 52 {
        'a' as int + d - 26
    } else if d < 62 {
        '0' as int + d - 52
    } else if d == 62 {
        '+' as int
    } else {
        '/' as int
    }) as char
}

/// The byte of a place, or none.
pub open spec fn byte_at(data: Seq<u8>, i: int) -> int {
    if i < data.len() {
        data[i] as int
    } else {
        0
    }
}

/// The three bytes of a group as one number.
pub open spec fn group(data: Seq<u8>, g: int) -> int {
    byte_at(data, 3 * g) * 65536 + byte_at(data, 3 * g + 1) * 256 + byte_at(data, 3 * g + 2)
}

/// The four characters of a group; equal signs stand where bytes are wanting.
pub open spec fn group_text(data: Seq<u8>, g: int) -> Seq<char> {
    let n = group(data, g);
    seq![
        symbol(n / 262144),
        symbol(n / 4096 % 64),
        if 3 * g + 1 < data.len() {
            symbol(n / 64 % 64)
        } else {
            '='
        },
        if 3 * g + 2 < data.len() {
            symbol(n % 64)
        } else {
            '='
        },
    ]
}

/// Bytes as text, in base 64 with the usual alphabet, filled up to whole groups.
pub open spec fn base64_of(data: Seq<u8>) -> Seq<char> {
    Seq::new((data.len() + 2) / 3 * 4, |k: int| group_text(data, k / 4)[k % 4])
}

fn symbol_of(d: u32) -> (c: char)
    requires
        d < 64,
    ensures
        c == symbol(d as int),
{
    let d8: u8 = d as u8;
    if d8 < 26 {
        (65 + d8) as char
    } else if d8 < 52 {
        (97 + (d8 - 26)) as char
    } else if d8 < 62 {
        (48 + (d8 - 52)) as char
    } else if d8 == 62 {
        '+'
    } else {
        '/'
    }
}

/// Bytes as text, in base 64.
pub fn base64(data: &[u8]) -> (s: String)
    requires
        data@.len() <= usize::MAX - 2,
    ensures
        s@ == base64_of(data@),
{
    let mut s = String::new();
    let n: usize = data.len();
    let mut i: usize = 0;
    let ghost mut g: int = 0;
    while i < n
        invariant
            n == data@.len(),
            n <= usize::MAX - 2,
            0 <= g,
            i == 3 * g,
            i <= n + 2,
            s@ == base64_of(data@).take(4 * g),
        decreases n + 3 - i,
    {
        let b0: u32 = data[i] as u32;
        let b1: u32 = if n - i > 1 {
            data[i + 1] as u32
        } else {
            0
        };
        let b2: u32 = if n - i > 2 {
            data[i + 2] as u32
        } else {
            0
        };
        let v: u32 = b0 * 65536 + b1 * 256 + b2;
        assert(v == group(data@, g));
        let ghost before = s@;
        s.push(symbol_of(v / 262144));
        s.push(symbol_of(v / 4096 % 64));
        s.push(
            if n - i > 1 {
                symbol_of(v / 64 % 64)
            } else {
                '='
            },
        );
        s.push(
            if n - i > 2 {
                symbol_of(v % 64)
            } else {
                '='
            },
        );
        proof {
            let t = base64_of(data@);
            assert(4 * g + 4 <= t.len());
            assert forall|k: int| 0 <= k < 4 * g + 4 implies s@[k] == t[k] by {
                if k < 4 * g {
                    assert(s@[k] == before[k]);
                } else {
                    assert(k / 4 == g && k % 4 == k - 4 * g);
                    assert(s@[k] == group_text(data@, g)[k - 4 * g]);
                }
            }
            assert(s@ =~= t.take(4 * g + 4));
            g = g + 1;
        }
        if n - i < 3 {
            i = n;
            assert(4 * g == base64_of(data@).len());
            assert(base64_of(data@).take(4 * g) =~= base64_of(data@));
            return s;
        }
        i = i + 3;
    }
    assert(4 * g == base64_of(data@).len());
    assert(base64_of(data@).take(4 * g) =~= base64_of(data@));
    s
}

/// Characters of the picture in one line of the log.
pub const LINE_CHARS: usize = 12000;

/// How many lines a text takes.
pub open spec fn line_count(n: int) -> int {
    (n + LINE_CHARS - 1) / (LINE_CHARS as int)
}

/// A line of a text.
pub open spec fn line(s: Seq<char>, i: int) -> Seq<char> {
    let to = (i + 1) * LINE_CHARS;
    s.subrange(
        i * LINE_CHARS,
        if to < s.len() {
            to
        } else {
            s.len() as int
        },
    )
}

/// A text in lines, in order.
pub fn lines_of(s: &str) -> (v: Vec<String>)
    requires
        s@.len() <= usize::MAX - LINE_CHARS,
    ensures
        v@.len() == line_count(s@.len() as int),
        forall|i: int| 0 <= i < v@.len() ==> (#[trigger] v@[i])@ == line(s@, i),
{
    let c = chars_of(s);
    let n: usize = c.len();
    let mut v: Vec<String> = Vec::new();
    let mut from: usize = 0;
    while from < n
        invariant
            c@ == s@,
            n == c@.len(),
            n <= usize::MAX - LINE_CHARS,
            from < n ==> from == v@.len() * LINE_CHARS,
            from >= n ==> v@.len() == line_count(n as int),
            from <= n + LINE_CHARS,
            forall|i: int| 0 <= i < v@.len() ==> (#[trigger] v@[i])@ == line(s@, i),
        decreases n + LINE_CHARS - from,
    {
        let to: usize = if n - from > LINE_CHARS {
            from + LINE_CHARS
        } else {
            n
        };
        let part = text_between(c.as_slice(), from, to);
        assert(part@ =~= line(s@, v@.len() as int));
        v.push(part);
        from = from + LINE_CHARS;
    }
    v
}

// ---- Colours by regions --------------------------------------------------------------

/// The size of the picture.
pub const WIDTH: usize = 256;

pub const HEIGHT: usize = 144;

/// Bytes of the picture: four for each pixel.
pub const PICTURE_BYTES: usize = 147456;

/// Pixels of a region: 64 to the right, 48 down.
pub const REGION_PIXELS: usize = 3072;

/// Where the `k`th pixel of a region stands in the picture. Regions are counted from
/// the top left; the rows of the picture run from the bottom up.
pub open spec fn pixel(row: int, column: int, k: int) -> int {
    (((2 - row) * 48 + k / 64) * 256 + column * 64 + k % 64) * 4
}

/// The sum of a colour over the first `n` pixels of a region.
pub open spec fn colour_sum(px: Seq<u8>, row: int, column: int, c: int, n: nat) -> int
    decreases n,
{
    if n == 0 {
        0
    } else {
        colour_sum(px, row, column, c, (n - 1) as nat) + px[pixel(row, column, n - 1) + c]
    }
}

/// The average of a colour over a region.
pub open spec fn average(px: Seq<u8>, row: int, column: int, c: int) -> int {
    colour_sum(px, row, column, c, 3072) / 3072
}

/// The averages of red, green and blue over a region.
fn region_average(px: &[u8], row: usize, column: usize) -> (r: [u8; 3])
    requires
        px@.len() == PICTURE_BYTES,
        row < 3,
        column < 4,
    ensures
        forall|c: int| 0 <= c < 3 ==> (#[trigger] r@[c]) == average(
            px@,
            row as int,
            column as int,
            c,
        ),
{
    let mut red: u32 = 0;
    let mut green: u32 = 0;
    let mut blue: u32 = 0;
    let mut k: usize = 0;
    while k < REGION_PIXELS
        invariant
            px@.len() == PICTURE_BYTES,
            row < 3,
            column < 4,
            k <= REGION_PIXELS,
            red <= 255 * k,
            green <= 255 * k,
            blue <= 255 * k,
            red == colour_sum(px@, row as int, column as int, 0, k as nat),
            green == colour_sum(px@, row as int, column as int, 1, k as nat),
            blue == colour_sum(px@, row as int, column as int, 2, k as nat),
        decreases REGION_PIXELS - k,
    {
        let at: usize = (((2 - row) * 48 + k / 64) * 256 + column * 64 + k % 64) * 4;
        red = red + px[at] as u32;
        green = green + px[at + 1] as u32;
        blue = blue + px[at + 2] as u32;
        k = k + 1;
    }
    [(red / 3072) as u8, (green / 3072) as u8, (blue / 3072) as u8]
}

/// What is reported of a colour: three numbers.
pub open spec fn colour_text(r: int, g: int, b: int) -> Seq<char> {
    text::decimal(r as nat) + ","@ + text::decimal(g as nat) + ","@ + text::decimal(b as nat)
        + "; "@
}

/// What is reported of the first `n` regions, row by row from the top left.
pub open spec fn grid_text(px: Seq<u8>, n: nat) -> Seq<char>
    decreases n,
{
    if n == 0 {
        Seq::empty()
    } else {
        let row = (n - 1) / 4;
        let column = (n - 1) % 4;
        grid_text(px, (n - 1) as nat) + colour_text(
            average(px, row, column, 0),
            average(px, row, column, 1),
            average(px, row, column, 2),
        )
    }
}

fn push_colour(s: &mut String, rgb: [u8; 3])
    ensures
        final(s)@ == old(s)@ + colour_text(rgb@[0] as int, rgb@[1] as int, rgb@[2] as int),
{
    proof {
        reveal_strlit(",");
        reveal_strlit("; ");
    }
    push_number(s, rgb[0] as u64);
    s.push(',');
    push_number(s, rgb[1] as u64);
    s.push(',');
    push_number(s, rgb[2] as u64);
    s.push(';');
    s.push(' ');
    assert(s@ =~= old(s)@ + colour_text(rgb@[0] as int, rgb@[1] as int, rgb@[2] as int));
}

/// What is reported of a picture: the averages of its twelve regions.
pub fn grid_report(px: &[u8]) -> (s: String)
    requires
        px@.len() == PICTURE_BYTES,
    ensures
        s@ == grid_text(px@, 12),
{
    let mut s = String::new();
    let mut i: usize = 0;
    while i < 12
        invariant
            px@.len() == PICTURE_BYTES,
            i <= 12,
            s@ == grid_text(px@, i as nat),
        decreases 12 - i,
    {
        let rgb = region_average(px, i / 4, i % 4);
        push_colour(&mut s, rgb);
        i = i + 1;
    }
    s
}

// ---- The scene -------------------------------------------------------------------------

/// A chunk as it was streamed.
pub struct Streamed {
    pub pos: ChunkPos,
    pub data: Vec<u8>,
}

/// What a part adds to a scene.
pub open spec fn part_of(c: Streamed) -> Option<(Seq<Vertex>, Seq<Vertex>)> {
    let o = ((c.pos.x * 16) as i32, (c.pos.y * 16) as i32, (c.pos.z * 16) as i32);
    let v = mesh::opaque_vertices(c.data@, o, 4096);
    let w = mesh::translucent_vertices(c.data@, o, 4096);
    if c.data@.len() != REGION_BLOCKS || (v.len() == 0 && w.len() == 0) {
        None
    } else {
        Some((v, w))
    }
}

/// The vertices of what is opaque and of what is not, of the first chunks.
pub open spec fn scene_vertices(cs: Seq<Streamed>) -> (Seq<Vertex>, Seq<Vertex>)
    decreases cs.len(),
{
    if cs.len() == 0 {
        (Seq::empty(), Seq::empty())
    } else {
        let before = scene_vertices(cs.drop_last());
        match part_of(cs.last()) {
            Some((v, w)) => (before.0 + v, before.1 + w),
            None => before,
        }
    }
}

/// Whether every chunk has blocks with coordinates.
pub open spec fn placeable(cs: Seq<Streamed>) -> bool {
    forall|i: int| 0 <= i < cs.len() ==> (#[trigger] cs[i]).pos.in_limits()
}

/// Faces put behind others keep their shape: their indices move by the number of
/// vertices before them.
pub proof fn indices_move_with_their_vertices(before: nat, more: nat, i: int)
    requires
        before % 4 == 0,
        more % 4 == 0,
        before + more <= u32::MAX,
        0 <= i < mesh::fan_indices(more).len(),
    ensures
        mesh::fan_indices(before).len() + mesh::fan_indices(more).len() == mesh::fan_indices(
            before + more,
        ).len(),
        mesh::fan_indices(before + more)[mesh::fan_indices(before).len() + i]
            == mesh::fan_indices(more)[i] + before,
{
    let q = before as int / 4;
    let m = q * 6 + i;
    assert(before == 4 * q);
    assert((before + more) / 4 == q + more / 4);
    assert(m / 6 == q + i / 6 && m % 6 == i % 6);
    mesh::indices_name_vertices(more, i);
}

fn push_moved(out: &mut Vec<u32>, add: &Vec<u32>, Ghost(before): Ghost<nat>, base: u32, Ghost(
    more,
): Ghost<nat>)
    requires
        old(out)@ == mesh::fan_indices(before),
        add@ == mesh::fan_indices(more),
        base == before,
        before % 4 == 0,
        more % 4 == 0,
        before + more <= u32::MAX,
    ensures
        final(out)@ == mesh::fan_indices(before + more),
{
    let ghost start = out@;
    let ghost moved = Seq::new(add@.len(), |k: int| (add@[k] + before) as u32);
    let mut i: usize = 0;
    while i < add.len()
        invariant
            i <= add@.len(),
            add@ == mesh::fan_indices(more),
            base == before,
            more % 4 == 0,
            before + more <= u32::MAX,
            moved == Seq::new(add@.len(), |k: int| (add@[k] + before) as u32),
            out@ == start + moved.take(i as int),
        decreases add@.len() - i,
    {
        proof {
            mesh::indices_name_vertices(more, i as int);
        }
        out.push(add[i] + base);
        assert(out@ =~= start + moved.take(i as int + 1));
        i = i + 1;
    }
    proof {
        let whole = mesh::fan_indices(before + more);
        assert(moved.take(i as int) =~= moved);
        assert(start.len() + moved.len() == whole.len());
        assert forall|k: int| 0 <= k < whole.len() implies (start + moved)[k] == whole[k] by {
            if k >= start.len() {
                let j = k - start.len();
                indices_move_with_their_vertices(before, more, j);
                mesh::indices_name_vertices(more, j);
                assert(moved[j] == add@[j] + before);
            }
        }
        assert(start + moved =~= whole);
    }
}

/// Whether the vertices of each layer of a scene can be numbered.
pub open spec fn numberable(cs: Seq<Streamed>) -> bool {
    scene_vertices(cs).0.len() <= u32::MAX && scene_vertices(cs).1.len() <= u32::MAX
}

proof fn scenes_grow(cs: Seq<Streamed>, i: int)
    requires
        0 <= i <= cs.len(),
    ensures
        scene_vertices(cs.take(i)).0.len() <= scene_vertices(cs).0.len(),
        scene_vertices(cs.take(i)).1.len() <= scene_vertices(cs).1.len(),
    decreases cs.len(),
{
    if i == cs.len() {
        assert(cs.take(i) =~= cs);
    } else {
        let init = cs.drop_last();
        scenes_grow(init, i);
        assert(init.take(i) =~= cs.take(i));
    }
}

/// The scene of chunks as they were streamed, one after the other, where its vertices
/// can be numbered. Chunks of another size, and empty ones, add nothing.
pub fn checked_scene(cs: &Vec<Streamed>) -> (r: Option<MeshData>)
    requires
        placeable(cs@),
    ensures
        r is Some == numberable(cs@),
        r matches Some(m) ==> {
            &&& m.vertices@ == scene_vertices(cs@).0
            &&& m.water_vertices@ == scene_vertices(cs@).1
            &&& m.indices@ == mesh::fan_indices(m.vertices@.len())
            &&& m.water_indices@ == mesh::fan_indices(m.water_vertices@.len())
        },
{
    let mut vertices: Vec<Vertex> = Vec::new();
    let mut indices: Vec<u32> = Vec::new();
    let mut water_vertices: Vec<Vertex> = Vec::new();
    let mut water_indices: Vec<u32> = Vec::new();
    let mut i: usize = 0;
    assert(indices@ =~= mesh::fan_indices(0));
    assert(water_indices@ =~= mesh::fan_indices(0));
    while i < cs.len()
        invariant
            placeable(cs@),
            i <= cs@.len(),
            vertices@ == scene_vertices(cs@.take(i as int)).0,
            water_vertices@ == scene_vertices(cs@.take(i as int)).1,
            indices@ == mesh::fan_indices(vertices@.len()),
            water_indices@ == mesh::fan_indices(water_vertices@.len()),
            vertices@.len() % 4 == 0,
            water_vertices@.len() % 4 == 0,
            vertices@.len() <= u32::MAX,
            water_vertices@.len() <= u32::MAX,
        decreases cs@.len() - i,
    {
        assert(cs@.take(i as int + 1).drop_last() =~= cs@.take(i as int));
        let c = &cs[i];
        assert(cs@[i as int].pos.in_limits());
        if c.data.len() == REGION_BLOCKS {
            let o = c.pos.origin();
            let origin: (i32, i32, i32) = (o.x, o.y, o.z);
            let mut part = build_chunk_mesh(origin, c.data.as_slice());
            proof {
                mesh::meshes_are_bounded(c.data@, origin, 4096);
                mesh::meshes_are_drawable(c.data@, origin, 4096);
            }
            let base: u32 = vertices.len() as u32;
            let water_base: u32 = water_vertices.len() as u32;
            let ghost v = vertices@;
            let ghost w = water_vertices@;
            proof {
                scenes_grow(cs@, i as int + 1);
                assert(v + Seq::<Vertex>::empty() =~= v);
                assert(w + Seq::<Vertex>::empty() =~= w);
                assert(part.vertices@.len() == 0 ==> part.vertices@ =~= Seq::<Vertex>::empty());
                assert(part.water_vertices@.len() == 0 ==> part.water_vertices@
                    =~= Seq::<Vertex>::empty());
                assert(scene_vertices(cs@.take(i as int + 1)) == (
                    v + part.vertices@,
                    w + part.water_vertices@,
                ));
            }
            if part.vertices.len() > (u32::MAX - base) as usize || part.water_vertices.len() > (
            u32::MAX - water_base) as usize {
                return None;
            }
            push_moved(
                &mut indices,
                &part.indices,
                Ghost(vertices@.len()),
                base,
                Ghost(part.vertices@.len()),
            );
            push_moved(
                &mut water_indices,
                &part.water_indices,
                Ghost(water_vertices@.len()),
                water_base,
                Ghost(part.water_vertices@.len()),
            );
            vertices.append(&mut part.vertices);
            water_vertices.append(&mut part.water_vertices);
        }
        i = i + 1;
    }
    assert(cs@.take(i as int) =~= cs@);
    Some(MeshData { vertices, indices, water_vertices, water_indices })
}

/// The scene of chunks as they were streamed: see [`checked_scene`].
pub fn scene(cs: &Vec<Streamed>) -> (m: MeshData)
    requires
        placeable(cs@),
        numberable(cs@),
    ensures
        m.vertices@ == scene_vertices(cs@).0,
        m.water_vertices@ == scene_vertices(cs@).1,
        m.indices@ == mesh::fan_indices(m.vertices@.len()),
        m.water_indices@ == mesh::fan_indices(m.water_vertices@.len()),
{
    checked_scene(cs).unwrap()
}

// ---- Laws --------------------------------------------------------------------------

/// The vertices of a scene of few chunks can be numbered: none has more than four for
/// each side of its cells.
pub proof fn small_scenes_are_numberable(cs: Seq<Streamed>)
    requires
        98304 * cs.len() <= u32::MAX,
    ensures
        numberable(cs),
{
    scenes_are_bounded(cs);
}

proof fn scenes_are_bounded(cs: Seq<Streamed>)
    ensures
        scene_vertices(cs).0.len() <= 98304 * cs.len(),
        scene_vertices(cs).1.len() <= 98304 * cs.len(),
    decreases cs.len(),
{
    if cs.len() > 0 {
        scenes_are_bounded(cs.drop_last());
        let c = cs.last();
        let o = ((c.pos.x * 16) as i32, (c.pos.y * 16) as i32, (c.pos.z * 16) as i32);
        mesh::meshes_are_bounded(c.data@, o, 4096);
    }
}

proof fn symbols_differ(a: int, b: int)
    requires
        0 <= a < 64,
        0 <= b < 64,
        symbol(a) == symbol(b),
    ensures
        a == b,
{
}

proof fn symbols_are_not_equal_signs(a: int)
    requires
        0 <= a < 64,
    ensures
        symbol(a) != '=',
{
}

proof fn sextets_tell(n: int, m: int)
    requires
        0 <= n < 16777216,
        0 <= m < 16777216,
        n / 262144 == m / 262144,
        n / 4096 % 64 == m / 4096 % 64,
        n / 64 % 64 == m / 64 % 64,
        n % 64 == m % 64,
    ensures
        n == m,
{
    assert(n / 4096 / 64 == n / 262144 && m / 4096 / 64 == m / 262144);
    assert(n / 4096 == m / 4096);
    assert(n / 64 / 64 == n / 4096 && m / 64 / 64 == m / 4096);
    assert(n / 64 == m / 64);
}

proof fn missing_bytes_are_zero(data: Seq<u8>, g: int)
    requires
        0 <= g,
    ensures
        0 <= group(data, g) < 16777216,
        3 * g + 2 >= data.len() ==> group(data, g) % 64 == 0,
        3 * g + 1 >= data.len() ==> group(data, g) / 64 % 64 == 0,
{
    let b0 = byte_at(data, 3 * g);
    let b1 = byte_at(data, 3 * g + 1);
    let b2 = byte_at(data, 3 * g + 2);
    assert(0 <= b0 < 256 && 0 <= b1 < 256 && 0 <= b2 < 256);
    let n = group(data, g);
    if b2 == 0 {
        assert(n == 64 * (b0 * 1024 + b1 * 4));
        if b1 == 0 {
            assert(n / 64 == 64 * (b0 * 16));
        }
    }
}

#[verifier::spinoff_prover]
proof fn groups_tell_bytes(a: Seq<u8>, b: Seq<u8>, g: int)
    requires
        0 <= g,
        3 * g < a.len(),
        3 * g < b.len(),
        group_text(a, g) == group_text(b, g),
    ensures
        group(a, g) == group(b, g),
        (3 * g + 1 < a.len()) == (3 * g + 1 < b.len()),
        (3 * g + 2 < a.len()) == (3 * g + 2 < b.len()),
{
    missing_bytes_are_zero(a, g);
    missing_bytes_are_zero(b, g);
    let n = group(a, g);
    let m = group(b, g);
    let s = group_text(a, g);
    let t = group_text(b, g);
    assert(s[0] == t[0] && s[1] == t[1] && s[2] == t[2] && s[3] == t[3]);
    symbols_differ(n / 262144, m / 262144);
    symbols_differ(n / 4096 % 64, m / 4096 % 64);
    symbols_are_not_equal_signs(n / 64 % 64);
    symbols_are_not_equal_signs(m / 64 % 64);
    symbols_are_not_equal_signs(n % 64);
    symbols_are_not_equal_signs(m % 64);
    if 3 * g + 1 < a.len() {
        symbols_differ(n / 64 % 64, m / 64 % 64);
    }
    if 3 * g + 2 < a.len() {
        symbols_differ(n % 64, m % 64);
    }
    sextets_tell(n, m);
}

proof fn group_stands_in_text(data: Seq<u8>, g: int, j: int)
    requires
        0 <= g,
        3 * g < data.len(),
        0 <= j < 4,
    ensures
        4 * g + j < base64_of(data).len(),
        base64_of(data)[4 * g + j] == group_text(data, g)[j],
{
    let k = 4 * g + j;
    assert(k / 4 == g && k % 4 == j);
}

proof fn groups_are_alike(a: Seq<u8>, b: Seq<u8>, g: int)
    requires
        base64_of(a) == base64_of(b),
        0 <= g,
        3 * g < a.len(),
    ensures
        3 * g < b.len(),
        group_text(a, g) == group_text(b, g),
{
    assert(base64_of(a).len() == base64_of(b).len());
    assert(base64_of(a).len() == (a.len() + 2) / 3 * 4);
    assert(base64_of(b).len() == (b.len() + 2) / 3 * 4);
    assert forall|j: int| 0 <= j < 4 implies group_text(a, g)[j] == group_text(b, g)[j] by {
        group_stands_in_text(a, g, j);
        group_stands_in_text(b, g, j);
    }
    assert(group_text(a, g) =~= group_text(b, g));
}

proof fn lengths_are_alike(a: Seq<u8>, b: Seq<u8>)
    requires
        base64_of(a) == base64_of(b),
    ensures
        a.len() <= b.len(),
{
    if a.len() > 0 {
        let g = (a.len() - 1) / 3;
        groups_are_alike(a, b, g);
        groups_tell_bytes(a, b, g);
        let n = a.len() as int;
        assert(n == 3 * g + 1 || n == 3 * g + 2 || n == 3 * g + 3);
    }
}

proof fn numbers_tell_bytes(a: Seq<u8>, b: Seq<u8>, g: int)
    requires
        0 <= g,
        group(a, g) == group(b, g),
    ensures
        byte_at(a, 3 * g) == byte_at(b, 3 * g),
        byte_at(a, 3 * g + 1) == byte_at(b, 3 * g + 1),
        byte_at(a, 3 * g + 2) == byte_at(b, 3 * g + 2),
{
    let (y, z) = (byte_at(a, 3 * g + 1), byte_at(a, 3 * g + 2));
    let (q, r) = (byte_at(b, 3 * g + 1), byte_at(b, 3 * g + 2));
    assert(0 <= y < 256 && 0 <= z < 256 && 0 <= q < 256 && 0 <= r < 256);
}

/// No two different byte strings make the same text: the picture can be put together
/// again from the log.
pub proof fn text_tells_bytes_apart(a: Seq<u8>, b: Seq<u8>)
    requires
        base64_of(a) == base64_of(b),
    ensures
        a == b,
{
    lengths_are_alike(a, b);
    lengths_are_alike(b, a);
    assert forall|i: int| 0 <= i < a.len() implies a[i] == b[i] by {
        let g = i / 3;
        assert(i == 3 * g || i == 3 * g + 1 || i == 3 * g + 2);
        groups_are_alike(a, b, g);
        groups_tell_bytes(a, b, g);
        numbers_tell_bytes(a, b, g);
    }
    assert(a =~= b);
}

/// Every character of a text stands in exactly one line, and at its place.
pub proof fn lines_hold_the_text(s: Seq<char>, k: int)
    requires
        0 <= k < s.len(),
    ensures
        0 <= k / (LINE_CHARS as int) < line_count(s.len() as int),
        line(s, k / (LINE_CHARS as int))[k % (LINE_CHARS as int)] == s[k],
{
}

/// No two regions share a pixel, and each lies in the picture.
pub proof fn regions_are_apart(row: int, column: int, k: int, row2: int, column2: int, m: int)
    requires
        0 <= row < 3,
        0 <= column < 4,
        0 <= k < REGION_PIXELS,
        0 <= row2 < 3,
        0 <= column2 < 4,
        0 <= m < REGION_PIXELS,
        pixel(row, column, k) == pixel(row2, column2, m),
    ensures
        row == row2,
        column == column2,
        k == m,
        0 <= pixel(row, column, k) <= PICTURE_BYTES - 4,
{
    let (y, x) = ((2 - row) * 48 + k / 64, column * 64 + k % 64);
    let (y2, x2) = ((2 - row2) * 48 + m / 64, column2 * 64 + m % 64);
    assert(0 <= x < 256 && 0 <= x2 < 256);
    assert(y * 256 + x == y2 * 256 + x2);
    assert(y == y2 && x == x2);
}

proof fn sums_are_bounded(px: Seq<u8>, row: int, column: int, c: int, n: nat)
    ensures
        0 <= colour_sum(px, row, column, c, n) <= 255 * n,
    decreases n,
{
    if n > 0 {
        sums_are_bounded(px, row, column, c, (n - 1) as nat);
    }
}

/// An average is a colour again.
pub proof fn averages_are_colours(px: Seq<u8>, row: int, column: int, c: int)
    ensures
        0 <= average(px, row, column, c) <= 255,
{
    sums_are_bounded(px, row, column, c, 3072);
}

} // verus!
