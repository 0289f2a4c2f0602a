//! Meshes: the faces of a chunk that can be seen, from the chunk's region.
//!
//! Everything is held in whole numbers. Positions are in thousandths of a block,
//! places on a texture in hundredths of its edge, and light in parts of
//! [`FULL`]: sky light, the shading of the face and the occlusion of the corner
//! multiplied. A drawing program divides once, when it fills its buffers with
//! seven numbers for each vertex: position, light, place on the texture, texture.
use vstd::prelude::*;

use crate::block::{Block, TEX_HIGHLIGHT};
use crate::coords::REGION_BLOCKS;
use crate::light;
use crate::light::{idx, is_solid_at, sky_light};
use crate::world;

verus! {

/// Numbers of a vertex in a drawing program's buffer.
pub const VERT_STRIDE: usize = 7;

/// Full light.
pub const FULL: u32 = 15000000;

/// A corner of a face.
#[derive(Clone, Copy, PartialEq, Eq, Structural, Debug)]
pub struct Vertex {
    /// Position, in thousandths of a block.
    pub x: i64,
    pub y: i64,
    pub z: i64,
    /// Light, in parts of [`FULL`].
    pub light: u32,
    /// Place on the texture, in hundredths: to the right, and up.
    pub u: u8,
    pub v: u8,
    /// Texture.
    pub tex: u8,
}

/// The mesh of a chunk: what is opaque, and what is drawn after it. Each three
/// indices make a triangle.
pub struct MeshData {
    pub vertices: Vec<Vertex>,
    pub indices: Vec<u32>,
    /// Water and glass.
    pub water_vertices: Vec<Vertex>,
    pub water_indices: Vec<u32>,
}

impl MeshData {
    /// Whether there is nothing to draw.
    pub fn is_empty(&self) -> (r: bool)
        ensures
            r == (self.indices@.len() == 0 && self.water_indices@.len() == 0),
    {
        self.indices.len() == 0 && self.water_indices.len() == 0
    }

    /// Number of indices of what is opaque.
    pub fn index_count(&self) -> (n: u32)
        ensures
            n == self.indices@.len() as u32,
    {
        self.indices.len() as u32
    }
}

// ---- Faces ---------------------------------------------------------------------

/// From a cell to the one in front of a face: up, down, east, west, south, north.
pub open spec fn step(face: int) -> (int, int, int) {
    if face == 0 {
        (0, 1, 0)
    } else if face == 1 {
        (0, -1, 0)
    } else if face == 2 {
        (1, 0, 0)
    } else if face == 3 {
        (-1, 0, 0)
    } else if face == 4 {
        (0, 0, 1)
    } else {
        (0, 0, -1)
    }
}

/// The corners of a face, counter-clockwise from outside.
pub open spec fn corner(face: int, i: int) -> (int, int, int) {
    let c = if face == 0 {
        seq![(0int, 1int, 0int), (0, 1, 1), (1, 1, 1), (1, 1, 0)]
    } else if face == 1 {
        seq![(0int, 0int, 1int), (0, 0, 0), (1, 0, 0), (1, 0, 1)]
    } else if face == 2 {
        seq![(1int, 0int, 1int), (1, 0, 0), (1, 1, 0), (1, 1, 1)]
    } else if face == 3 {
        seq![(0int, 0int, 0int), (0, 0, 1), (0, 1, 1), (0, 1, 0)]
    } else if face == 4 {
        seq![(0int, 0int, 1int), (1, 0, 1), (1, 1, 1), (0, 1, 1)]
    } else {
        seq![(0int, 1int, 0int), (1, 1, 0), (1, 0, 0), (0, 0, 0)]
    };
    c[i]
}

/// Where a corner of a face lies on the texture: seen from above for the top and
/// the bottom, upright for the sides.
pub open spec fn on_texture(face: int, c: (int, int, int)) -> (int, int) {
    if face <= 1 {
        (c.0, c.2)
    } else if face <= 3 {
        (c.2, c.1)
    } else {
        (c.0, c.1)
    }
}

/// The shading of a face, in hundredths.
pub open spec fn shade(face: int) -> int {
    if face == 0 {
        100
    } else if face == 1 {
        55
    } else if face <= 3 {
        82
    } else {
        70
    }
}

/// What occlusion leaves of the light, in hundredths.
pub open spec fn unoccluded(ao: int) -> int {
    if ao == 0 {
        45
    } else if ao == 1 {
        62
    } else if ao == 2 {
        82
    } else {
        100
    }
}

/// Sky light, shading and occlusion multiplied. A place without any sky light
/// keeps thirty-eight hundredths.
pub open spec fn baked(level: int, shade: int, open: int) -> int {
    (570 + 62 * level) * shade * open
}

/// The blocks beside and across a corner, in the plane in front of a face, that
/// are solid. The corner lies in the direction of `signs` from the cell `f`.
pub open spec fn occluders(
    data: Seq<u8>,
    f: (int, int, int),
    signs: (int, int, int),
    face: int,
) -> (bool, bool, bool) {
    let (x, y, z) = f;
    let (a, b, c) = signs;
    if face <= 1 {
        (
            light::solid_at(data, x + a, y, z),
            light::solid_at(data, x, y, z + c),
            light::solid_at(data, x + a, y, z + c),
        )
    } else if face <= 3 {
        (
            light::solid_at(data, x, y + b, z),
            light::solid_at(data, x, y, z + c),
            light::solid_at(data, x, y + b, z + c),
        )
    } else {
        (
            light::solid_at(data, x + a, y, z),
            light::solid_at(data, x, y + b, z),
            light::solid_at(data, x + a, y + b, z),
        )
    }
}

/// How open a corner is: from nothing, where blocks on both sides close it, to
/// three.
pub open spec fn openness(o: (bool, bool, bool)) -> int {
    if o.0 && o.1 {
        0
    } else {
        3 - (if o.0 {
            1int
        } else {
            0
        }) - (if o.1 {
            1int
        } else {
            0
        }) - (if o.2 {
            1int
        } else {
            0
        })
    }
}

/// A corner of a face of the cell `p` of a region whose chunk has the origin `o`.
/// `top` is the height of the cell's contents.
pub open spec fn placed(
    o: (i32, i32, i32),
    p: (int, int, int),
    face: int,
    i: int,
    top: int,
    light: int,
    tex: u8,
) -> Vertex {
    let c = corner(face, i);
    let t = on_texture(face, c);
    Vertex {
        x: ((o.0 + p.0 - 5 + c.0) * 1000) as i64,
        y: ((o.1 + p.1 - 5) * 1000 + c.1 * top) as i64,
        z: ((o.2 + p.2 - 5 + c.2) * 1000) as i64,
        light: light as u32,
        u: (t.0 * 100) as u8,
        v: (t.1 * 100) as u8,
        tex,
    }
}

/// The cell in front of a face of the cell `p`.
pub open spec fn front(p: (int, int, int), face: int) -> (int, int, int) {
    let s = step(face);
    (p.0 + s.0, p.1 + s.1, p.2 + s.2)
}

/// The light at a corner of a face of a solid block.
pub open spec fn face_light(data: Seq<u8>, p: (int, int, int), face: int, i: int) -> int {
    let f = front(p, face);
    let c = corner(face, i);
    let o = occluders(data, f, (2 * c.0 - 1, 2 * c.1 - 1, 2 * c.2 - 1), face);
    baked(light::level(data, f.0, f.1, f.2) as int, shade(face), unoccluded(openness(o)))
}

/// A face of a solid block.
#[verifier::opaque]
pub open spec fn solid_face(
    data: Seq<u8>,
    o: (i32, i32, i32),
    p: (int, int, int),
    face: int,
) -> Seq<Vertex> {
    let tex = light::cell(data, p.0, p.1, p.2).spec_tex_for_dir(face);
    seq![
        placed(o, p, face, 0, 1000, face_light(data, p, face, 0), tex),
        placed(o, p, face, 1, 1000, face_light(data, p, face, 1), tex),
        placed(o, p, face, 2, 1000, face_light(data, p, face, 2), tex),
        placed(o, p, face, 3, 1000, face_light(data, p, face, 3), tex),
    ]
}

/// The first `n` faces of a solid block that are not hidden by another one.
pub open spec fn solid_faces(
    data: Seq<u8>,
    o: (i32, i32, i32),
    p: (int, int, int),
    n: nat,
) -> Seq<Vertex>
    decreases n,
{
    if n == 0 {
        Seq::empty()
    } else {
        let face = n - 1;
        let f = front(p, face);
        let before = solid_faces(data, o, p, (n - 1) as nat);
        if light::solid_at(data, f.0, f.1, f.2) {
            before
        } else {
            before + solid_face(data, o, p, face)
        }
    }
}

/// Whether a place of the region holds air.
pub open spec fn air_at(data: Seq<u8>, x: int, y: int, z: int) -> bool {
    light::in_region(x, y, z) && light::cell(data, x, y, z) == Block::Air
}

/// How high the water of a cell stands: lower where there is air above it.
pub open spec fn surface(data: Seq<u8>, p: (int, int, int)) -> int {
    if air_at(data, p.0, p.1 + 1, p.2) {
        875
    } else {
        1000
    }
}

/// A face of water.
#[verifier::opaque]
pub open spec fn water_face(
    data: Seq<u8>,
    o: (i32, i32, i32),
    p: (int, int, int),
    face: int,
) -> Seq<Vertex> {
    let f = front(p, face);
    let light = baked(light::level(data, f.0, f.1, f.2) as int, shade(face), 100);
    let tex = Block::Water.spec_tex_for_dir(if face >= 2 {
        2
    } else {
        face
    });
    let top = surface(data, p);
    seq![
        placed(o, p, face, 0, top, light, tex),
        placed(o, p, face, 1, top, light, tex),
        placed(o, p, face, 2, top, light, tex),
        placed(o, p, face, 3, top, light, tex),
    ]
}

/// The first `n` faces of water against air.
pub open spec fn water_faces(
    data: Seq<u8>,
    o: (i32, i32, i32),
    p: (int, int, int),
    n: nat,
) -> Seq<Vertex>
    decreases n,
{
    if n == 0 {
        Seq::empty()
    } else {
        let face = n - 1;
        let f = front(p, face);
        let before = water_faces(data, o, p, (n - 1) as nat);
        if air_at(data, f.0, f.1, f.2) {
            before + water_face(data, o, p, face)
        } else {
            before
        }
    }
}

/// The corners of the two bars of a flower: east and south in thousandths, place on
/// the texture in hundredths.
pub open spec fn bar(k: int, i: int) -> (int, int, int, int) {
    let c = if k == 0 {
        seq![(190int, 560int, 0int, 58int), (810, 560, 100, 58), (810, 440, 100, 42), (190, 440, 0, 42)]
    } else {
        seq![(440int, 190int, 42int, 0int), (440, 810, 42, 100), (560, 810, 58, 100), (560, 190, 58, 0)]
    };
    c[i]
}

/// A corner of a flower.
pub open spec fn flower_corner(
    data: Seq<u8>,
    o: (i32, i32, i32),
    p: (int, int, int),
    k: int,
    i: int,
) -> Vertex {
    let c = bar(k, i);
    Vertex {
        x: ((o.0 + p.0 - 5) * 1000 + c.0) as i64,
        y: ((o.1 + p.1 - 5) * 1000 + 30) as i64,
        z: ((o.2 + p.2 - 5) * 1000 + c.1) as i64,
        light: baked(light::level(data, p.0, p.1, p.2) as int, 100, 100) as u32,
        u: c.2 as u8,
        v: c.3 as u8,
        tex: light::cell(data, p.0, p.1, p.2).spec_tex_for_dir(0),
    }
}

/// A bar of a flower.
#[verifier::opaque]
pub open spec fn flower_bar(
    data: Seq<u8>,
    o: (i32, i32, i32),
    p: (int, int, int),
    k: int,
) -> Seq<Vertex> {
    seq![
        flower_corner(data, o, p, k, 0),
        flower_corner(data, o, p, k, 1),
        flower_corner(data, o, p, k, 2),
        flower_corner(data, o, p, k, 3),
    ]
}

/// What a cell adds to the opaque part: the faces of solid blocks that can be seen,
/// and the two bars of a flower.
pub open spec fn opaque_of(data: Seq<u8>, o: (i32, i32, i32), p: (int, int, int)) -> Seq<Vertex> {
    let b = light::cell(data, p.0, p.1, p.2);
    if b == Block::Water {
        Seq::empty()
    } else if b.spec_is_flower() {
        flower_bar(data, o, p, 0) + flower_bar(data, o, p, 1)
    } else if b.spec_is_solid() && !b.spec_is_translucent() {
        solid_faces(data, o, p, 6)
    } else {
        Seq::empty()
    }
}

/// What a cell adds to the translucent part: the faces of water against air, and
/// those of glass that can be seen.
pub open spec fn translucent_of(
    data: Seq<u8>,
    o: (i32, i32, i32),
    p: (int, int, int),
) -> Seq<Vertex> {
    let b = light::cell(data, p.0, p.1, p.2);
    if b == Block::Water {
        water_faces(data, o, p, 6)
    } else if !b.spec_is_flower() && b.spec_is_solid() && b.spec_is_translucent() {
        solid_faces(data, o, p, 6)
    } else {
        Seq::empty()
    }
}

/// The `k`th cell of a chunk in its region: east first, then south, then up.
pub open spec fn chunk_place(k: int) -> (int, int, int) {
    (5 + k % 16, 5 + k / 256, 5 + k / 16 % 16)
}

/// The opaque part of the first `n` cells.
pub open spec fn opaque_vertices(data: Seq<u8>, o: (i32, i32, i32), n: nat) -> Seq<Vertex>
    decreases n,
{
    if n == 0 {
        Seq::empty()
    } else {
        opaque_vertices(data, o, (n - 1) as nat) + opaque_of(data, o, chunk_place(n - 1))
    }
}

/// The translucent part of the first `n` cells.
pub open spec fn translucent_vertices(data: Seq<u8>, o: (i32, i32, i32), n: nat) -> Seq<Vertex>
    decreases n,
{
    if n == 0 {
        Seq::empty()
    } else {
        translucent_vertices(data, o, (n - 1) as nat) + translucent_of(data, o, chunk_place(n - 1))
    }
}

/// Which corner of a face the `k`th index names: two triangles.
pub open spec fn fan(k: int) -> int {
    seq![0int, 1, 2, 0, 2, 3][k]
}

/// The indices of `n` vertices, four for each face.
pub open spec fn fan_indices(n: nat) -> Seq<u32> {
    Seq::new(n / 4 * 6, |k: int| (4 * (k / 6) + fan(k % 6)) as u32)
}

// ---- Building --------------------------------------------------------------------

/// Faces put together.
struct Layer {
    vertices: Vec<Vertex>,
    indices: Vec<u32>,
}

impl Layer {
    spec fn wf(self) -> bool {
        &&& self.vertices@.len() % 4 == 0
        &&& self.indices@ == fan_indices(self.vertices@.len())
    }

    fn new() -> (l: Layer)
        ensures
            l.wf(),
            l.vertices@ == Seq::<Vertex>::empty(),
    {
        let l = Layer { vertices: Vec::new(), indices: Vec::new() };
        assert(l.indices@ =~= fan_indices(0));
        l
    }

    /// Adds a face.
    fn push_quad(&mut self, a: Vertex, b: Vertex, c: Vertex, d: Vertex)
        requires
            old(self).wf(),
            old(self).vertices@.len() <= 1000000,
        ensures
            final(self).wf(),
            final(self).vertices@ == old(self).vertices@ + seq![a, b, c, d],
    {
        let start: u32 = self.vertices.len() as u32;
        let ghost n = self.vertices@.len();
        self.vertices.push(a);
        self.vertices.push(b);
        self.vertices.push(c);
        self.vertices.push(d);
        self.indices.push(start);
        self.indices.push(start + 1);
        self.indices.push(start + 2);
        self.indices.push(start);
        self.indices.push(start + 2);
        self.indices.push(start + 3);
        proof {
            assert(self.vertices@ =~= old(self).vertices@ + seq![a, b, c, d]);
            assert((n + 4) / 4 * 6 == n / 4 * 6 + 6);
            assert forall|k: int| 0 <= k < self.indices@.len() implies self.indices@[k]
                == fan_indices(n + 4)[k] by {
                if k < n / 4 * 6 {
                    assert(self.indices@[k] == fan_indices(n)[k]);
                } else {
                    assert(k / 6 == n / 4 && k % 6 == k - n / 4 * 6);
                }
            }
            assert(self.indices@ =~= fan_indices(n + 4));
        }
    }
}

fn front_of(x: i32, y: i32, z: i32, face: u8) -> (f: (i32, i32, i32))
    requires
        face < 6,
        5 <= x < 21,
        5 <= y < 21,
        5 <= z < 21,
    ensures
        (f.0 as int, f.1 as int, f.2 as int) == front((x as int, y as int, z as int), face as int),
        4 <= f.0 < 22,
        4 <= f.1 < 22,
        4 <= f.2 < 22,
{
    match face {
        0 => (x, y + 1, z),
        1 => (x, y - 1, z),
        2 => (x + 1, y, z),
        3 => (x - 1, y, z),
        4 => (x, y, z + 1),
        _ => (x, y, z - 1),
    }
}

fn corner_of(face: u8, i: u8) -> (c: (i32, i32, i32))
    requires
        face < 6,
        i < 4,
    ensures
        (c.0 as int, c.1 as int, c.2 as int) == corner(face as int, i as int),
        0 <= c.0 <= 1,
        0 <= c.1 <= 1,
        0 <= c.2 <= 1,
{
    match face {
        0 => match i {
            0 => (0, 1, 0),
            1 => (0, 1, 1),
            2 => (1, 1, 1),
            _ => (1, 1, 0),
        },
        1 => match i {
            0 => (0, 0, 1),
            1 => (0, 0, 0),
            2 => (1, 0, 0),
            _ => (1, 0, 1),
        },
        2 => match i {
            0 => (1, 0, 1),
            1 => (1, 0, 0),
            2 => (1, 1, 0),
            _ => (1, 1, 1),
        },
        3 => match i {
            0 => (0, 0, 0),
            1 => (0, 0, 1),
            2 => (0, 1, 1),
            _ => (0, 1, 0),
        },
        4 => match i {
            0 => (0, 0, 1),
            1 => (1, 0, 1),
            2 => (1, 1, 1),
            _ => (0, 1, 1),
        },
        _ => match i {
            0 => (0, 1, 0),
            1 => (1, 1, 0),
            2 => (1, 0, 0),
            _ => (0, 0, 0),
        },
    }
}

fn shade_of(face: u8) -> (s: u32)
    requires
        face < 6,
    ensures
        s == shade(face as int),
        0 < s <= 100,
{
    match face {
        0 => 100,
        1 => 55,
        2 => 82,
        3 => 82,
        _ => 70,
    }
}

fn bake(level: u8, shade: u32, open: u32) -> (l: u32)
    requires
        level <= 15,
        shade <= 100,
        open <= 100,
    ensures
        l == baked(level as int, shade as int, open as int),
        l <= FULL,
{
    proof {
        baked_light_is_bounded(level as int, shade as int, open as int);
        let a = 570 + 62 * level;
        assert(a * shade <= 150000) by (nonlinear_arith)
            requires
                a <= 1500,
                shade <= 100,
        ;
    }
    (570 + 62 * level as u32) * shade * open
}

pub(crate) proof fn baked_light_is_bounded(level: int, shade: int, open: int)
    requires
        0 <= level <= 15,
        0 <= shade <= 100,
        0 <= open <= 100,
    ensures
        0 <= baked(level, shade, open) <= FULL,
{
    let a = 570 + 62 * level;
    let b = a * shade;
    assert(0 <= b <= 150000) by (nonlinear_arith)
        requires
            0 <= a <= 1500,
            0 <= shade <= 100,
            b == a * shade,
    ;
    assert(0 <= b * open <= 15000000) by (nonlinear_arith)
        requires
            0 <= b <= 150000,
            0 <= open <= 100,
    ;
}

/// The solid blocks beside and across a corner of a face: see [`occluders`].
pub fn ao_corners(
    fx: i32,
    fy: i32,
    fz: i32,
    signs: (i32, i32, i32),
    face: u8,
    data: &[u8],
) -> (r: (bool, bool, bool))
    requires
        data@.len() == REGION_BLOCKS,
        -1000 <= fx <= 1000,
        -1000 <= fy <= 1000,
        -1000 <= fz <= 1000,
        -1 <= signs.0 <= 1,
        -1 <= signs.1 <= 1,
        -1 <= signs.2 <= 1,
    ensures
        r == occluders(
            data@,
            (fx as int, fy as int, fz as int),
            (signs.0 as int, signs.1 as int, signs.2 as int),
            face as int,
        ),
{
    let (a, b, c) = signs;
    if face <= 1 {
        (
            is_solid_at(data, fx + a, fy, fz),
            is_solid_at(data, fx, fy, fz + c),
            is_solid_at(data, fx + a, fy, fz + c),
        )
    } else if face <= 3 {
        (
            is_solid_at(data, fx, fy + b, fz),
            is_solid_at(data, fx, fy, fz + c),
            is_solid_at(data, fx, fy + b, fz + c),
        )
    } else {
        (
            is_solid_at(data, fx + a, fy, fz),
            is_solid_at(data, fx, fy + b, fz),
            is_solid_at(data, fx + a, fy + b, fz),
        )
    }
}

fn open_share(o: (bool, bool, bool)) -> (s: u32)
    ensures
        s == unoccluded(openness(o)),
        0 < s <= 100,
{
    if o.0 && o.1 {
        return 45;
    }
    let mut closed: u8 = 0;
    if o.0 {
        closed = closed + 1;
    }
    if o.1 {
        closed = closed + 1;
    }
    if o.2 {
        closed = closed + 1;
    }
    match closed {
        0 => 100,
        1 => 82,
        _ => 62,
    }
}

fn vertex(
    o: (i32, i32, i32),
    x: i32,
    y: i32,
    z: i32,
    face: u8,
    i: u8,
    top: i64,
    light: u32,
    tex: u8,
) -> (v: Vertex)
    requires
        face < 6,
        i < 4,
        5 <= x < 21,
        5 <= y < 21,
        5 <= z < 21,
        0 <= top <= 1000,
    ensures
        v == placed(
            o,
            (x as int, y as int, z as int),
            face as int,
            i as int,
            top as int,
            light as int,
            tex,
        ),
{
    let c = corner_of(face, i);
    let t: (i32, i32) = if face <= 1 {
        (c.0, c.2)
    } else if face <= 3 {
        (c.2, c.1)
    } else {
        (c.0, c.1)
    };
    let lift: i64 = if c.1 == 1 {
        top
    } else {
        0
    };
    Vertex {
        x: (o.0 as i64 + x as i64 - 5 + c.0 as i64) * 1000,
        y: (o.1 as i64 + y as i64 - 5) * 1000 + lift,
        z: (o.2 as i64 + z as i64 - 5 + c.2 as i64) * 1000,
        light,
        u: (t.0 * 100) as u8,
        v: (t.1 * 100) as u8,
        tex,
    }
}

/// A corner of a face of a solid block, from the cell in front of the face and the
/// light there.
fn solid_corner(
    data: &[u8],
    o: (i32, i32, i32),
    x: i32,
    y: i32,
    z: i32,
    face: u8,
    i: u8,
    level: u8,
    tex: u8,
) -> (v: Vertex)
    requires
        data@.len() == REGION_BLOCKS,
        face < 6,
        i < 4,
        5 <= x < 21,
        5 <= y < 21,
        5 <= z < 21,
        level <= 15,
        ({
            let f = front((x as int, y as int, z as int), face as int);
            level == light::level(data@, f.0, f.1, f.2)
        }),
    ensures
        v == placed(
            o,
            (x as int, y as int, z as int),
            face as int,
            i as int,
            1000,
            face_light(data@, (x as int, y as int, z as int), face as int, i as int),
            tex,
        ),
{
    let f = front_of(x, y, z, face);
    let c = corner_of(face, i);
    let signs = (2 * c.0 - 1, 2 * c.1 - 1, 2 * c.2 - 1);
    let shut = ao_corners(f.0, f.1, f.2, signs, face, data);
    let l: u32 = bake(level, shade_of(face), open_share(shut));
    vertex(o, x, y, z, face, i, 1000, l, tex)
}

fn push_solid(
    out: &mut Layer,
    data: &[u8],
    levels: &Vec<u8>,
    o: (i32, i32, i32),
    x: i32,
    y: i32,
    z: i32,
    b: Block,
)
    requires
        data@.len() == REGION_BLOCKS,
        light::is_light_of(data@, levels@),
        5 <= x < 21,
        5 <= y < 21,
        5 <= z < 21,
        b == light::cell(data@, x as int, y as int, z as int),
        old(out).wf(),
        old(out).vertices@.len() <= 900000,
    ensures
        final(out).wf(),
        final(out).vertices@ == old(out).vertices@ + solid_faces(
            data@,
            o,
            (x as int, y as int, z as int),
            6,
        ),
        final(out).vertices@.len() <= old(out).vertices@.len() + 24,
{
    let ghost p = (x as int, y as int, z as int);
    let mut face: u8 = 0;
    assert(out.vertices@ =~= old(out).vertices@ + solid_faces(data@, o, p, 0));
    while face < 6
        invariant
            face <= 6,
            data@.len() == REGION_BLOCKS,
            light::is_light_of(data@, levels@),
            5 <= x < 21,
            5 <= y < 21,
            5 <= z < 21,
            p == (x as int, y as int, z as int),
            b == light::cell(data@, x as int, y as int, z as int),
            out.wf(),
            old(out).vertices@.len() <= 900000,
            out.vertices@ == old(out).vertices@ + solid_faces(data@, o, p, face as nat),
            out.vertices@.len() <= old(out).vertices@.len() + 4 * face,
        decreases 6 - face,
    {
        let f = front_of(x, y, z, face);
        let ghost before = solid_faces(data@, o, p, face as nat);
        if !is_solid_at(data, f.0, f.1, f.2) {
            let level: u8 = levels[idx(f.0, f.1, f.2)];
            proof {
                assert(world::region_byte(levels@, f.0 as int, f.1 as int, f.2 as int) == level);
                light::sky_is_brightest(data@, f.0 as int, f.1 as int, f.2 as int);
                reveal(solid_face);
            }
            let tex: u8 = b.tex_for_dir(face);
            let v0 = solid_corner(data, o, x, y, z, face, 0, level, tex);
            let v1 = solid_corner(data, o, x, y, z, face, 1, level, tex);
            let v2 = solid_corner(data, o, x, y, z, face, 2, level, tex);
            let v3 = solid_corner(data, o, x, y, z, face, 3, level, tex);
            out.push_quad(v0, v1, v2, v3);
            assert(out.vertices@ =~= old(out).vertices@ + (before + solid_face(
                data@,
                o,
                p,
                face as int,
            )));
        }
        face = face + 1;
    }
}

fn is_air_at(data: &[u8], x: i32, y: i32, z: i32) -> (r: bool)
    requires
        data@.len() == REGION_BLOCKS,
        light::in_region(x as int, y as int, z as int),
    ensures
        r == air_at(data@, x as int, y as int, z as int),
{
    Block::from_u8(data[idx(x, y, z)]) == Block::Air
}

fn push_water(
    out: &mut Layer,
    data: &[u8],
    levels: &Vec<u8>,
    o: (i32, i32, i32),
    x: i32,
    y: i32,
    z: i32,
)
    requires
        data@.len() == REGION_BLOCKS,
        light::is_light_of(data@, levels@),
        5 <= x < 21,
        5 <= y < 21,
        5 <= z < 21,
        old(out).wf(),
        old(out).vertices@.len() <= 900000,
    ensures
        final(out).wf(),
        final(out).vertices@ == old(out).vertices@ + water_faces(
            data@,
            o,
            (x as int, y as int, z as int),
            6,
        ),
        final(out).vertices@.len() <= old(out).vertices@.len() + 24,
{
    let ghost p = (x as int, y as int, z as int);
    let top: i64 = if is_air_at(data, x, y + 1, z) {
        875
    } else {
        1000
    };
    let mut face: u8 = 0;
    assert(out.vertices@ =~= old(out).vertices@ + water_faces(data@, o, p, 0));
    while face < 6
        invariant
            face <= 6,
            data@.len() == REGION_BLOCKS,
            light::is_light_of(data@, levels@),
            5 <= x < 21,
            5 <= y < 21,
            5 <= z < 21,
            p == (x as int, y as int, z as int),
            top == surface(data@, p),
            0 <= top <= 1000,
            out.wf(),
            old(out).vertices@.len() <= 900000,
            out.vertices@ == old(out).vertices@ + water_faces(data@, o, p, face as nat),
            out.vertices@.len() <= old(out).vertices@.len() + 4 * face,
        decreases 6 - face,
    {
        let f = front_of(x, y, z, face);
        let ghost before = water_faces(data@, o, p, face as nat);
        if is_air_at(data, f.0, f.1, f.2) {
            let level: u8 = levels[idx(f.0, f.1, f.2)];
            proof {
                assert(world::region_byte(levels@, f.0 as int, f.1 as int, f.2 as int) == level);
                light::sky_is_brightest(data@, f.0 as int, f.1 as int, f.2 as int);
                reveal(water_face);
            }
            let l: u32 = bake(level, shade_of(face), 100);
            let dir: u8 = if face >= 2 {
                2
            } else {
                face
            };
            let tex: u8 = Block::Water.tex_for_dir(dir);
            let v0 = vertex(o, x, y, z, face, 0, top, l, tex);
            let v1 = vertex(o, x, y, z, face, 1, top, l, tex);
            let v2 = vertex(o, x, y, z, face, 2, top, l, tex);
            let v3 = vertex(o, x, y, z, face, 3, top, l, tex);
            out.push_quad(v0, v1, v2, v3);
            assert(out.vertices@ =~= old(out).vertices@ + (before + water_face(
                data@,
                o,
                p,
                face as int,
            )));
        }
        face = face + 1;
    }
}

fn bar_of(k: u8, i: u8) -> (c: (i64, i64, u8, u8))
    requires
        k < 2,
        i < 4,
    ensures
        (c.0 as int, c.1 as int, c.2 as int, c.3 as int) == bar(k as int, i as int),
        0 <= c.0 <= 1000,
        0 <= c.1 <= 1000,
{
    if k == 0 {
        match i {
            0 => (190, 560, 0, 58),
            1 => (810, 560, 100, 58),
            2 => (810, 440, 100, 42),
            _ => (190, 440, 0, 42),
        }
    } else {
        match i {
            0 => (440, 190, 42, 0),
            1 => (440, 810, 42, 100),
            2 => (560, 810, 58, 100),
            _ => (560, 190, 58, 0),
        }
    }
}

fn flower_vertex(
    o: (i32, i32, i32),
    x: i32,
    y: i32,
    z: i32,
    k: u8,
    i: u8,
    light: u32,
    tex: u8,
) -> (v: Vertex)
    requires
        k < 2,
        i < 4,
        5 <= x < 21,
        5 <= y < 21,
        5 <= z < 21,
    ensures
        ({
            let c = bar(k as int, i as int);
            v == Vertex {
                x: ((o.0 + x - 5) * 1000 + c.0) as i64,
                y: ((o.1 + y - 5) * 1000 + 30) as i64,
                z: ((o.2 + z - 5) * 1000 + c.1) as i64,
                light,
                u: c.2 as u8,
                v: c.3 as u8,
                tex,
            }
        }),
{
    let c = bar_of(k, i);
    Vertex {
        x: (o.0 as i64 + x as i64 - 5) * 1000 + c.0,
        y: (o.1 as i64 + y as i64 - 5) * 1000 + 30,
        z: (o.2 as i64 + z as i64 - 5) * 1000 + c.1,
        light,
        u: c.2,
        v: c.3,
        tex,
    }
}

fn push_flower(
    out: &mut Layer,
    data: &[u8],
    levels: &Vec<u8>,
    o: (i32, i32, i32),
    x: i32,
    y: i32,
    z: i32,
    b: Block,
)
    requires
        data@.len() == REGION_BLOCKS,
        light::is_light_of(data@, levels@),
        5 <= x < 21,
        5 <= y < 21,
        5 <= z < 21,
        b == light::cell(data@, x as int, y as int, z as int),
        old(out).wf(),
        old(out).vertices@.len() <= 900000,
    ensures
        final(out).wf(),
        ({
            let p = (x as int, y as int, z as int);
            final(out).vertices@ == old(out).vertices@ + (flower_bar(data@, o, p, 0) + flower_bar(
                data@,
                o,
                p,
                1,
            ))
        }),
        final(out).vertices@.len() <= old(out).vertices@.len() + 24,
{
    let ghost p = (x as int, y as int, z as int);
    let level: u8 = levels[idx(x, y, z)];
    proof {
        assert(world::region_byte(levels@, x as int, y as int, z as int) == level);
        light::sky_is_brightest(data@, x as int, y as int, z as int);
        reveal(flower_bar);
    }
    let l: u32 = bake(level, 100, 100);
    let tex: u8 = b.tex_for_dir(0);
    let a0 = flower_vertex(o, x, y, z, 0, 0, l, tex);
    let a1 = flower_vertex(o, x, y, z, 0, 1, l, tex);
    let a2 = flower_vertex(o, x, y, z, 0, 2, l, tex);
    let a3 = flower_vertex(o, x, y, z, 0, 3, l, tex);
    out.push_quad(a0, a1, a2, a3);
    assert(out.vertices@ =~= old(out).vertices@ + flower_bar(data@, o, p, 0));
    let b0 = flower_vertex(o, x, y, z, 1, 0, l, tex);
    let b1 = flower_vertex(o, x, y, z, 1, 1, l, tex);
    let b2 = flower_vertex(o, x, y, z, 1, 2, l, tex);
    let b3 = flower_vertex(o, x, y, z, 1, 3, l, tex);
    out.push_quad(b0, b1, b2, b3);
    assert(out.vertices@ =~= old(out).vertices@ + (flower_bar(data@, o, p, 0) + flower_bar(
        data@,
        o,
        p,
        1,
    )));
}

/// The mesh of the chunk with the given origin, from its region.
pub fn build_chunk_mesh(origin: (i32, i32, i32), data: &[u8]) -> (mesh: MeshData)
    requires
        data@.len() == REGION_BLOCKS,
    ensures
        mesh.vertices@ == opaque_vertices(data@, origin, 4096),
        mesh.indices@ == fan_indices(mesh.vertices@.len()),
        mesh.water_vertices@ == translucent_vertices(data@, origin, 4096),
        mesh.water_indices@ == fan_indices(mesh.water_vertices@.len()),
{
    let levels = sky_light(data);
    let mut solid = Layer::new();
    let mut water = Layer::new();
    let mut k: i32 = 0;
    while k < 4096
        invariant
            0 <= k <= 4096,
            data@.len() == REGION_BLOCKS,
            light::is_light_of(data@, levels@),
            solid.wf(),
            water.wf(),
            solid.vertices@.len() <= 24 * k,
            water.vertices@.len() <= 24 * k,
            solid.vertices@ == opaque_vertices(data@, origin, k as nat),
            water.vertices@ == translucent_vertices(data@, origin, k as nat),
        decreases 4096 - k,
    {
        let x: i32 = 5 + k % 16;
        let y: i32 = 5 + k / 256;
        let z: i32 = 5 + k / 16 % 16;
        assert((x as int, y as int, z as int) == chunk_place(k as int));
        let ghost v = solid.vertices@;
        let ghost w = water.vertices@;
        assert(v + Seq::<Vertex>::empty() =~= v);
        assert(w + Seq::<Vertex>::empty() =~= w);
        let b = Block::from_u8(data[idx(x, y, z)]);
        if b == Block::Water {
            push_water(&mut water, data, &levels, origin, x, y, z);
        } else if b.is_flower() {
            push_flower(&mut solid, data, &levels, origin, x, y, z, b);
        } else if b.is_solid() {
            if b.is_translucent() {
                push_solid(&mut water, data, &levels, origin, x, y, z, b);
            } else {
                push_solid(&mut solid, data, &levels, origin, x, y, z, b);
            }
        }
        k = k + 1;
    }
    MeshData {
        vertices: solid.vertices,
        indices: solid.indices,
        water_vertices: water.vertices,
        water_indices: water.indices,
    }
}

// ---- The wireframe ---------------------------------------------------------------

/// The corners of a square, in the order of its edges: east, south.
pub open spec fn ring(j: int) -> (int, int) {
    if j == 0 {
        (-1, -1)
    } else if j == 1 {
        (1, -1)
    } else if j == 2 {
        (1, 1)
    } else {
        (-1, 1)
    }
}

/// The end `e` of the edge `s` of a cube, as directions from its centre: four edges
/// of the bottom, four of the top, four uprights.
pub open spec fn edge(s: int, e: int) -> (int, int, int) {
    if s < 8 {
        let r = ring((s + e) % 4);
        (
            r.0,
            if s < 4 {
                -1
            } else {
                1
            },
            r.1,
        )
    } else {
        let r = ring(s - 8);
        (
            r.0,
            if e == 0 {
                -1
            } else {
                1
            },
            r.1,
        )
    }
}

/// An end of a line of the wireframe round a block, just outside its faces.
pub open spec fn wire(t: (i32, i32, i32), k: int) -> Vertex {
    let c = edge(k / 2, k % 2);
    Vertex {
        x: (t.0 * 1000 + 500 + 501 * c.0) as i64,
        y: (t.1 * 1000 + 500 + 501 * c.1) as i64,
        z: (t.2 * 1000 + 500 + 501 * c.2) as i64,
        light: FULL,
        u: 0,
        v: 0,
        tex: TEX_HIGHLIGHT,
    }
}

fn ring_of(j: usize) -> (r: (i64, i64))
    requires
        j < 4,
    ensures
        (r.0 as int, r.1 as int) == ring(j as int),
        -1 <= r.0 <= 1,
        -1 <= r.1 <= 1,
{
    match j {
        0 => (-1, -1),
        1 => (1, -1),
        2 => (1, 1),
        _ => (-1, 1),
    }
}

/// The wireframe round a block: the ends of twelve lines.
pub fn highlight_vertices(t: (i32, i32, i32)) -> (out: Vec<Vertex>)
    ensures
        out@ == Seq::new(24, |k: int| wire(t, k)),
{
    let mut out: Vec<Vertex> = Vec::new();
    let mut k: usize = 0;
    while k < 24
        invariant
            k <= 24,
            out@.len() == k,
            forall|j: int| 0 <= j < k ==> #[trigger] out@[j] == wire(t, j),
        decreases 24 - k,
    {
        let s: usize = k / 2;
        let e: usize = k % 2;
        let r = if s < 8 {
            ring_of((s + e) % 4)
        } else {
            ring_of(s - 8)
        };
        let up: bool = if s < 8 {
            s >= 4
        } else {
            e == 1
        };
        let h: i64 = if up {
            1
        } else {
            -1
        };
        out.push(
            Vertex {
                x: t.0 as i64 * 1000 + 500 + 501 * r.0,
                y: t.1 as i64 * 1000 + 500 + 501 * h,
                z: t.2 as i64 * 1000 + 500 + 501 * r.1,
                light: FULL,
                u: 0,
                v: 0,
                tex: TEX_HIGHLIGHT,
            },
        );
        k = k + 1;
    }
    assert(out@ =~= Seq::new(24, |k: int| wire(t, k)));
    out
}

// ---- Laws ------------------------------------------------------------------------

/// Whether a vertex is one that can be drawn: light, place and texture in range,
/// and in or on the chunk with the given origin.
pub open spec fn drawable(o: (i32, i32, i32), v: Vertex) -> bool {
    &&& v.light <= FULL
    &&& v.u <= 100
    &&& v.v <= 100
    &&& v.tex <= TEX_HIGHLIGHT
    &&& o.0 * 1000 <= v.x <= o.0 * 1000 + 16000
    &&& o.1 * 1000 <= v.y <= o.1 * 1000 + 16000
    &&& o.2 * 1000 <= v.z <= o.2 * 1000 + 16000
}

/// Whether a list is made of faces that can be drawn.
pub open spec fn all_drawable(o: (i32, i32, i32), s: Seq<Vertex>) -> bool {
    &&& s.len() % 4 == 0
    &&& forall|i: int| 0 <= i < s.len() ==> drawable(o, #[trigger] s[i])
}

proof fn drawable_together(o: (i32, i32, i32), a: Seq<Vertex>, b: Seq<Vertex>)
    requires
        all_drawable(o, a),
        all_drawable(o, b),
    ensures
        all_drawable(o, a + b),
{
    assert forall|i: int| 0 <= i < (a + b).len() implies drawable(o, #[trigger] (a + b)[i]) by {
        if i < a.len() {
            assert(a[i] == (a + b)[i]);
        } else {
            assert(b[i - a.len()] == (a + b)[i]);
        }
    }
}

proof fn placed_is_drawable(
    o: (i32, i32, i32),
    p: (int, int, int),
    face: int,
    i: int,
    top: int,
    light: int,
    tex: u8,
)
    requires
        5 <= p.0 < 21,
        5 <= p.1 < 21,
        5 <= p.2 < 21,
        0 <= face < 6,
        0 <= i < 4,
        0 <= top <= 1000,
        0 <= light <= FULL,
        tex <= TEX_HIGHLIGHT,
    ensures
        drawable(o, placed(o, p, face, i, top, light, tex)),
{
    let c = corner(face, i);
    assert(0 <= c.0 <= 1 && 0 <= c.1 <= 1 && 0 <= c.2 <= 1);
    assert(c.1 * top == 0 || c.1 * top == top) by (nonlinear_arith)
        requires
            0 <= c.1 <= 1,
    ;
}

pub(crate) proof fn face_light_is_bounded(data: Seq<u8>, p: (int, int, int), face: int, i: int)
    requires
        0 <= face < 6,
    ensures
        0 <= face_light(data, p, face, i) <= FULL,
{
    let f = front(p, face);
    let c = corner(face, i);
    let shut = occluders(data, f, (2 * c.0 - 1, 2 * c.1 - 1, 2 * c.2 - 1), face);
    light::sky_is_brightest(data, f.0, f.1, f.2);
    baked_light_is_bounded(
        light::level(data, f.0, f.1, f.2) as int,
        shade(face),
        unoccluded(openness(shut)),
    );
}

proof fn solid_corner_is_drawable(
    data: Seq<u8>,
    o: (i32, i32, i32),
    p: (int, int, int),
    face: int,
    i: int,
)
    requires
        5 <= p.0 < 21,
        5 <= p.1 < 21,
        5 <= p.2 < 21,
        0 <= face < 6,
        0 <= i < 4,
    ensures
        drawable(
            o,
            placed(
                o,
                p,
                face,
                i,
                1000,
                face_light(data, p, face, i),
                light::cell(data, p.0, p.1, p.2).spec_tex_for_dir(face),
            ),
        ),
{
    let b = light::cell(data, p.0, p.1, p.2);
    crate::block::textures_are_known(b);
    face_light_is_bounded(data, p, face, i);
    placed_is_drawable(
        o,
        p,
        face,
        i,
        1000,
        face_light(data, p, face, i),
        b.spec_tex_for_dir(face),
    );
}

proof fn solid_face_is_drawable(data: Seq<u8>, o: (i32, i32, i32), p: (int, int, int), face: int)
    requires
        5 <= p.0 < 21,
        5 <= p.1 < 21,
        5 <= p.2 < 21,
        0 <= face < 6,
    ensures
        all_drawable(o, solid_face(data, o, p, face)),
{
    solid_corner_is_drawable(data, o, p, face, 0);
    solid_corner_is_drawable(data, o, p, face, 1);
    solid_corner_is_drawable(data, o, p, face, 2);
    solid_corner_is_drawable(data, o, p, face, 3);
    reveal(solid_face);
}

proof fn solid_faces_are_drawable(data: Seq<u8>, o: (i32, i32, i32), p: (int, int, int), n: nat)
    requires
        5 <= p.0 < 21,
        5 <= p.1 < 21,
        5 <= p.2 < 21,
        n <= 6,
    ensures
        all_drawable(o, solid_faces(data, o, p, n)),
    decreases n,
{
    if n > 0 {
        let before = solid_faces(data, o, p, (n - 1) as nat);
        solid_faces_are_drawable(data, o, p, (n - 1) as nat);
        solid_face_is_drawable(data, o, p, n - 1);
        drawable_together(o, before, solid_face(data, o, p, n - 1));
    }
}

proof fn water_face_is_drawable(data: Seq<u8>, o: (i32, i32, i32), p: (int, int, int), face: int)
    requires
        5 <= p.0 < 21,
        5 <= p.1 < 21,
        5 <= p.2 < 21,
        0 <= face < 6,
    ensures
        all_drawable(o, water_face(data, o, p, face)),
{
    let f = front(p, face);
    let l = light::level(data, f.0, f.1, f.2) as int;
    light::sky_is_brightest(data, f.0, f.1, f.2);
    baked_light_is_bounded(l, shade(face), 100);
    let light = baked(l, shade(face), 100);
    let tex = Block::Water.spec_tex_for_dir(if face >= 2 {
        2
    } else {
        face
    });
    placed_is_drawable(o, p, face, 0, surface(data, p), light, tex);
    placed_is_drawable(o, p, face, 1, surface(data, p), light, tex);
    placed_is_drawable(o, p, face, 2, surface(data, p), light, tex);
    placed_is_drawable(o, p, face, 3, surface(data, p), light, tex);
    reveal(water_face);
}

proof fn water_faces_are_drawable(data: Seq<u8>, o: (i32, i32, i32), p: (int, int, int), n: nat)
    requires
        5 <= p.0 < 21,
        5 <= p.1 < 21,
        5 <= p.2 < 21,
        n <= 6,
    ensures
        all_drawable(o, water_faces(data, o, p, n)),
    decreases n,
{
    if n > 0 {
        let before = water_faces(data, o, p, (n - 1) as nat);
        water_faces_are_drawable(data, o, p, (n - 1) as nat);
        water_face_is_drawable(data, o, p, n - 1);
        drawable_together(o, before, water_face(data, o, p, n - 1));
    }
}

proof fn flower_bars_are_drawable(data: Seq<u8>, o: (i32, i32, i32), p: (int, int, int), k: int)
    requires
        5 <= p.0 < 21,
        5 <= p.1 < 21,
        5 <= p.2 < 21,
        0 <= k < 2,
    ensures
        all_drawable(o, flower_bar(data, o, p, k)),
{
    reveal(flower_bar);
    let b = light::cell(data, p.0, p.1, p.2);
    crate::block::textures_are_known(b);
    light::sky_is_brightest(data, p.0, p.1, p.2);
    baked_light_is_bounded(light::level(data, p.0, p.1, p.2) as int, 100, 100);
    let s = flower_bar(data, o, p, k);
    assert forall|i: int| 0 <= i < 4 implies drawable(o, #[trigger] s[i]) by {
        let c = bar(k, i);
        assert(0 <= c.0 <= 1000 && 0 <= c.1 <= 1000 && 0 <= c.2 <= 100 && 0 <= c.3 <= 100);
        assert(s[i] == flower_corner(data, o, p, k, i));
    }
}

/// Every vertex of a mesh lies in or on its chunk, with light, place and texture
/// in range, and vertices come in fours.
pub proof fn meshes_are_drawable(data: Seq<u8>, o: (i32, i32, i32), n: nat)
    requires
        n <= 4096,
    ensures
        all_drawable(o, opaque_vertices(data, o, n)),
        all_drawable(o, translucent_vertices(data, o, n)),
    decreases n,
{
    if n > 0 {
        meshes_are_drawable(data, o, (n - 1) as nat);
        let p = chunk_place(n - 1);
        assert(5 <= p.0 < 21 && 5 <= p.1 < 21 && 5 <= p.2 < 21);
        solid_faces_are_drawable(data, o, p, 6);
        water_faces_are_drawable(data, o, p, 6);
        flower_bars_are_drawable(data, o, p, 0);
        flower_bars_are_drawable(data, o, p, 1);
        drawable_together(o, flower_bar(data, o, p, 0), flower_bar(data, o, p, 1));
        drawable_together(o, opaque_vertices(data, o, (n - 1) as nat), opaque_of(data, o, p));
        drawable_together(
            o,
            translucent_vertices(data, o, (n - 1) as nat),
            translucent_of(data, o, p),
        );
    }
}

proof fn faces_are_few(data: Seq<u8>, o: (i32, i32, i32), p: (int, int, int), n: nat)
    ensures
        solid_faces(data, o, p, n).len() <= 4 * n,
        water_faces(data, o, p, n).len() <= 4 * n,
    decreases n,
{
    if n > 0 {
        faces_are_few(data, o, p, (n - 1) as nat);
        reveal(solid_face);
        reveal(water_face);
    }
}

/// A chunk never has more faces than its cells have sides.
pub proof fn meshes_are_bounded(data: Seq<u8>, o: (i32, i32, i32), n: nat)
    ensures
        opaque_vertices(data, o, n).len() + translucent_vertices(data, o, n).len() <= 24 * n,
    decreases n,
{
    if n > 0 {
        meshes_are_bounded(data, o, (n - 1) as nat);
        faces_are_few(data, o, chunk_place(n - 1), 6);
        reveal(flower_bar);
    }
}

/// Every index names a vertex.
pub proof fn indices_name_vertices(n: nat, k: int)
    requires
        n % 4 == 0,
        n <= u32::MAX,
        0 <= k < fan_indices(n).len(),
    ensures
        fan_indices(n)[k] < n,
{
}

/// Each face of a solid block and of water shows its texture from edge to edge,
/// both ways.
pub proof fn faces_span_their_texture(
    data: Seq<u8>,
    o: (i32, i32, i32),
    p: (int, int, int),
    face: int,
)
    requires
        0 <= face < 6,
    ensures
        spans(solid_face(data, o, p, face)),
        spans(water_face(data, o, p, face)),
{
    reveal(solid_face);
    reveal(water_face);
    let s = solid_face(data, o, p, face);
    let w = water_face(data, o, p, face);
    assert forall|i: int| 0 <= i < 4 implies (#[trigger] s[i]).u == w[i].u && s[i].v == w[i].v by {}
    assert(s[0].u == 0 || s[1].u == 0 || s[2].u == 0 || s[3].u == 0);
    assert(s[0].u == 100 || s[1].u == 100 || s[2].u == 100 || s[3].u == 100);
}

/// Whether four vertices show a texture from edge to edge, both ways.
pub open spec fn spans(s: Seq<Vertex>) -> bool {
    &&& s.len() == 4
    &&& s[0].u == 0 || s[1].u == 0 || s[2].u == 0 || s[3].u == 0
    &&& s[0].u == 100 || s[1].u == 100 || s[2].u == 100 || s[3].u == 100
    &&& s[0].v == 0 || s[1].v == 0 || s[2].v == 0 || s[3].v == 0
    &&& s[0].v == 100 || s[1].v == 100 || s[2].v == 100 || s[3].v == 100
}

/// A block with solid blocks on all sides shows no face.
pub proof fn buried_blocks_are_hidden(data: Seq<u8>, o: (i32, i32, i32), p: (int, int, int))
    requires
        forall|face: int| 0 <= face < 6 ==> ({
            let f = #[trigger] front(p, face);
            light::solid_at(data, f.0, f.1, f.2)
        }),
    ensures
        solid_faces(data, o, p, 6) == Seq::<Vertex>::empty(),
{
    reveal_with_fuel(solid_faces, 7);
    let f0 = front(p, 0);
    let f1 = front(p, 1);
    let f2 = front(p, 2);
    let f3 = front(p, 3);
    let f4 = front(p, 4);
    let f5 = front(p, 5);
}

/// The top of a block under the open sky, with nothing solid round the cell above
/// it, is fully lit.
pub proof fn open_ground_is_fully_lit(data: Seq<u8>, p: (int, int, int), i: int)
    requires
        0 <= i < 4,
        light::open_to_sky(data, p.0, p.1 + 1, p.2),
        forall|a: int, c: int|
            p.0 - 1 <= a <= p.0 + 1 && p.2 - 1 <= c <= p.2 + 1 ==> !#[trigger] light::solid_at(
                data,
                a,
                p.1 + 1,
                c,
            ),
    ensures
        face_light(data, p, 0, i) == FULL,
{
    light::sky_is_brightest(data, p.0, p.1 + 1, p.2);
    assert(baked(15, 100, 100) == 15000000) by (nonlinear_arith);
}

/// Each line of the wireframe runs along one axis, from one corner of a cube to
/// the next.
pub proof fn wires_run_along_an_axis(s: int)
    requires
        0 <= s < 12,
    ensures
        ({
            let a = edge(s, 0);
            let b = edge(s, 1);
            ||| a.0 == -b.0 && a.1 == b.1 && a.2 == b.2
            ||| a.0 == b.0 && a.1 == -b.1 && a.2 == b.2
            ||| a.0 == b.0 && a.1 == b.1 && a.2 == -b.2
        }),
{
}

} // verus!
