//! What a mesh shows: exactly the sides of blocks that can be seen, each where it is
//! in the world, facing outwards, with its light and its texture.
//!
//! Everything here is said of cells and of the positions of vertices. A cell is given
//! by its place in the region of the chunk, whose own cells are those from 5 to 20.
use vstd::prelude::*;

use crate::block::Block;
use crate::light;
use crate::mesh;
use crate::mesh::Vertex;

verus! {

// ---- Cells -----------------------------------------------------------------------------

/// The block of a cell.
pub open spec fn block_of(data: Seq<u8>, p: (int, int, int)) -> Block {
    Block::spec_from_u8(data[(p.1 * 26 + p.2) * 26 + p.0])
}

/// Whether a block hides what is behind it: all but air, water and flowers do.
pub open spec fn hides(b: Block) -> bool {
    &&& b != Block::Air
    &&& b != Block::Water
    &&& b != Block::FlowerRed
    &&& b != Block::FlowerYellow
}

/// Whether a cell is one of the chunk's own.
pub open spec fn is_own(p: (int, int, int)) -> bool {
    5 <= p.0 < 21 && 5 <= p.1 < 21 && 5 <= p.2 < 21
}

/// From one cell to another.
pub open spec fn way(p: (int, int, int), q: (int, int, int)) -> (int, int, int) {
    (q.0 - p.0, q.1 - p.1, q.2 - p.2)
}

/// Whether two cells have a side in common.
pub open spec fn adjacent(p: (int, int, int), q: (int, int, int)) -> bool {
    let d = way(p, q);
    ||| d == (1int, 0int, 0int)
    ||| d == (-1int, 0int, 0int)
    ||| d == (0int, 1int, 0int)
    ||| d == (0int, -1int, 0int)
    ||| d == (0int, 0int, 1int)
    ||| d == (0int, 0int, -1int)
}

// ---- Quads -----------------------------------------------------------------------------

/// Whether a vertex is a corner of a cell.
pub open spec fn is_corner(o: (i32, i32, i32), p: (int, int, int), v: Vertex) -> bool {
    &&& v.x == 1000 * (o.0 + p.0 - 5) || v.x == 1000 * (o.0 + p.0 - 4)
    &&& v.y == 1000 * (o.1 + p.1 - 5) || v.y == 1000 * (o.1 + p.1 - 4)
    &&& v.z == 1000 * (o.2 + p.2 - 5) || v.z == 1000 * (o.2 + p.2 - 4)
}

/// From one vertex to another.
pub open spec fn edge(a: Vertex, b: Vertex) -> (int, int, int) {
    (b.x - a.x, b.y - a.y, b.z - a.z)
}

/// The direction that is upright on two others.
pub open spec fn cross(a: (int, int, int), b: (int, int, int)) -> (int, int, int) {
    (a.1 * b.2 - a.2 * b.1, a.2 * b.0 - a.0 * b.2, a.0 * b.1 - a.1 * b.0)
}

/// Whether one number is positive, negative or nothing where another one is.
pub open spec fn same_sign(a: int, b: int) -> bool {
    (a > 0 <==> b > 0) && (a < 0 <==> b < 0)
}

/// Whether four vertices go round a rectangle, counter-clockwise for who looks against
/// the direction `d`.
pub open spec fn winds(d: (int, int, int), a: Vertex, b: Vertex, c: Vertex, e: Vertex) -> bool {
    let n = cross(edge(a, b), edge(a, e));
    &&& edge(a, b) == edge(e, c)
    &&& same_sign(n.0, d.0)
    &&& same_sign(n.1, d.1)
    &&& same_sign(n.2, d.2)
}

/// Whether the `k`th quad of a list is the wall between two cells, seen from the second:
/// its corners are the four that the cells share.
pub open spec fn is_wall(
    s: Seq<Vertex>,
    k: int,
    o: (i32, i32, i32),
    p: (int, int, int),
    q: (int, int, int),
) -> bool {
    &&& 0 <= k
    &&& 4 * k + 3 < s.len()
    &&& is_corner(o, p, s[4 * k]) && is_corner(o, q, s[4 * k])
    &&& is_corner(o, p, s[4 * k + 1]) && is_corner(o, q, s[4 * k + 1])
    &&& is_corner(o, p, s[4 * k + 2]) && is_corner(o, q, s[4 * k + 2])
    &&& is_corner(o, p, s[4 * k + 3]) && is_corner(o, q, s[4 * k + 3])
    &&& winds(way(p, q), s[4 * k], s[4 * k + 1], s[4 * k + 2], s[4 * k + 3])
}

/// Whether a list has the wall between two cells, seen from the second.
pub open spec fn has_wall(
    s: Seq<Vertex>,
    o: (i32, i32, i32),
    p: (int, int, int),
    q: (int, int, int),
) -> bool {
    exists|k: int| is_wall(s, k, o, p, q)
}

/// Whether a vertex is a corner of the side towards `q` of water that stands `t`
/// thousandths high in a cell.
pub open spec fn on_film(
    o: (i32, i32, i32),
    p: (int, int, int),
    q: (int, int, int),
    t: int,
    v: Vertex,
) -> bool {
    let x = 1000 * (o.0 + p.0 - 5);
    let y = 1000 * (o.1 + p.1 - 5);
    let z = 1000 * (o.2 + p.2 - 5);
    &&& (v.x == x && q.0 <= p.0) || (v.x == x + 1000 && q.0 >= p.0)
    &&& (v.y == y && q.1 <= p.1) || (v.y == y + t && q.1 >= p.1)
    &&& (v.z == z && q.2 <= p.2) || (v.z == z + 1000 && q.2 >= p.2)
}

/// Whether the `k`th quad of a list is the side towards `q` of water that stands `t`
/// thousandths high in a cell.
pub open spec fn is_film(
    s: Seq<Vertex>,
    k: int,
    o: (i32, i32, i32),
    p: (int, int, int),
    q: (int, int, int),
    t: int,
) -> bool {
    &&& 0 <= k
    &&& 4 * k + 3 < s.len()
    &&& on_film(o, p, q, t, s[4 * k])
    &&& on_film(o, p, q, t, s[4 * k + 1])
    &&& on_film(o, p, q, t, s[4 * k + 2])
    &&& on_film(o, p, q, t, s[4 * k + 3])
    &&& winds(way(p, q), s[4 * k], s[4 * k + 1], s[4 * k + 2], s[4 * k + 3])
}

// ---- Layers ----------------------------------------------------------------------------

/// The part of the mesh with what is opaque, or with what is not.
pub open spec fn layer(data: Seq<u8>, o: (i32, i32, i32), n: nat, clear: bool) -> Seq<Vertex> {
    if clear {
        mesh::translucent_vertices(data, o, n)
    } else {
        mesh::opaque_vertices(data, o, n)
    }
}

spec fn part(data: Seq<u8>, o: (i32, i32, i32), p: (int, int, int), clear: bool) -> Seq<Vertex> {
    if clear {
        mesh::translucent_of(data, o, p)
    } else {
        mesh::opaque_of(data, o, p)
    }
}

proof fn layers_grow(data: Seq<u8>, o: (i32, i32, i32), n: nat, clear: bool)
    requires
        n > 0,
    ensures
        layer(data, o, n, clear) == layer(data, o, (n - 1) as nat, clear) + part(
            data,
            o,
            mesh::chunk_place(n - 1),
            clear,
        ),
{
}

proof fn faces_are_quads(data: Seq<u8>, o: (i32, i32, i32), p: (int, int, int), n: nat)
    ensures
        mesh::solid_faces(data, o, p, n).len() % 4 == 0,
        mesh::water_faces(data, o, p, n).len() % 4 == 0,
    decreases n,
{
    if n > 0 {
        faces_are_quads(data, o, p, (n - 1) as nat);
        solid_faces_have_four(data, o, p, n - 1);
        water_faces_have_four(data, o, p, n - 1);
    }
}

proof fn solid_faces_have_four(data: Seq<u8>, o: (i32, i32, i32), p: (int, int, int), f: int)
    ensures
        mesh::solid_face(data, o, p, f).len() == 4,
{
    reveal(mesh::solid_face);
}

proof fn water_faces_have_four(data: Seq<u8>, o: (i32, i32, i32), p: (int, int, int), f: int)
    ensures
        mesh::water_face(data, o, p, f).len() == 4,
{
    reveal(mesh::water_face);
}

proof fn parts_are_quads(data: Seq<u8>, o: (i32, i32, i32), p: (int, int, int), clear: bool)
    ensures
        part(data, o, p, clear).len() % 4 == 0,
{
    faces_are_quads(data, o, p, 6);
    reveal(mesh::flower_bar);
}

proof fn layers_are_quads(data: Seq<u8>, o: (i32, i32, i32), n: nat, clear: bool)
    ensures
        layer(data, o, n, clear).len() % 4 == 0,
    decreases n,
{
    if n > 0 {
        layers_are_quads(data, o, (n - 1) as nat, clear);
        layers_grow(data, o, n, clear);
        parts_are_quads(data, o, mesh::chunk_place(n - 1), clear);
    }
}

/// Whether the `k`th quad of one list is the `j`th of another.
spec fn same_quad(s: Seq<Vertex>, k: int, t: Seq<Vertex>, j: int) -> bool {
    &&& 0 <= k
    &&& 4 * k + 3 < s.len()
    &&& 0 <= j
    &&& 4 * j + 3 < t.len()
    &&& s[4 * k] == t[4 * j]
    &&& s[4 * k + 1] == t[4 * j + 1]
    &&& s[4 * k + 2] == t[4 * j + 2]
    &&& s[4 * k + 3] == t[4 * j + 3]
}

/// The cell that a quad of a layer comes from, and which of the cell's it is.
proof fn quad_source(data: Seq<u8>, o: (i32, i32, i32), n: nat, clear: bool, k: int) -> (r: (
    int,
    int,
))
    requires
        0 <= k,
        4 * k + 3 < layer(data, o, n, clear).len(),
    ensures
        0 <= r.0 < n,
        same_quad(
            layer(data, o, n, clear),
            k,
            part(data, o, mesh::chunk_place(r.0), clear),
            r.1,
        ),
        4 * k == layer(data, o, r.0 as nat, clear).len() + 4 * r.1,
    decreases n,
{
    if n == 0 {
        (0, 0)
    } else {
        let m = (n - 1) as nat;
        layers_grow(data, o, n, clear);
        layers_are_quads(data, o, m, clear);
        let before = layer(data, o, m, clear);
        if 4 * k < before.len() {
            quad_source(data, o, m, clear, k)
        } else {
            (n - 1, k - before.len() / 4)
        }
    }
}

/// Where the quads of a cell stand in a layer.
proof fn quad_place(data: Seq<u8>, o: (i32, i32, i32), n: nat, clear: bool, c: int, j: int) -> (k:
    int)
    requires
        0 <= c < n,
        0 <= j,
        4 * j + 3 < part(data, o, mesh::chunk_place(c), clear).len(),
    ensures
        same_quad(layer(data, o, n, clear), k, part(data, o, mesh::chunk_place(c), clear), j),
        4 * k == layer(data, o, c as nat, clear).len() + 4 * j,
    decreases n,
{
    layers_grow(data, o, n, clear);
    if c == n - 1 {
        layers_are_quads(data, o, c as nat, clear);
        layer(data, o, c as nat, clear).len() / 4 + j
    } else {
        quad_place(data, o, (n - 1) as nat, clear, c, j)
    }
}

/// The number of a cell of the chunk.
spec fn number(p: (int, int, int)) -> int {
    (p.0 - 5) + 16 * (p.2 - 5) + 256 * (p.1 - 5)
}

proof fn numbers_name_cells(p: (int, int, int))
    requires
        is_own(p),
    ensures
        0 <= number(p) < 4096,
        mesh::chunk_place(number(p)) == p,
{
    let a = p.0 - 5;
    let b = p.2 - 5;
    let c = p.1 - 5;
    let k = number(p);
    assert(k == a + 16 * b + 256 * c);
    assert(k % 16 == a && k / 16 == b + 16 * c);
    assert(k / 16 % 16 == b);
    assert(k / 256 == c);
}

proof fn cells_have_numbers(c: int)
    requires
        0 <= c < 4096,
    ensures
        is_own(mesh::chunk_place(c)),
        number(mesh::chunk_place(c)) == c,
{
}

proof fn blocks_are_cells(data: Seq<u8>, p: (int, int, int))
    ensures
        light::cell(data, p.0, p.1, p.2) == block_of(data, p),
        hides(block_of(data, p)) == light::cell(data, p.0, p.1, p.2).spec_is_solid(),
        light::in_region(p.0, p.1, p.2) ==> light::solid_at(data, p.0, p.1, p.2) == hides(
            block_of(data, p),
        ),
{
}

/// The face of a cell towards an adjacent one.
spec fn face_to(p: (int, int, int), q: (int, int, int)) -> int {
    let d = way(p, q);
    if d.1 == 1 {
        0
    } else if d.1 == -1 {
        1
    } else if d.0 == 1 {
        2
    } else if d.0 == -1 {
        3
    } else if d.2 == 1 {
        4
    } else {
        5
    }
}

proof fn faces_have_cells(p: (int, int, int), q: (int, int, int))
    requires
        adjacent(p, q),
    ensures
        0 <= face_to(p, q) < 6,
        mesh::front(p, face_to(p, q)) == q,
{
}

proof fn cells_have_faces(p: (int, int, int), f: int)
    requires
        0 <= f < 6,
    ensures
        adjacent(p, mesh::front(p, f)),
        face_to(p, mesh::front(p, f)) == f,
{
}

// ---- Faces -----------------------------------------------------------------------------

/// The face of a solid block that a quad is.
proof fn solid_source(data: Seq<u8>, o: (i32, i32, i32), p: (int, int, int), n: nat, j: int) -> (f:
    int)
    requires
        n <= 6,
        0 <= j,
        4 * j + 3 < mesh::solid_faces(data, o, p, n).len(),
    ensures
        0 <= f < n,
        !light::solid_at(
            data,
            mesh::front(p, f).0,
            mesh::front(p, f).1,
            mesh::front(p, f).2,
        ),
        same_quad(mesh::solid_faces(data, o, p, n), j, mesh::solid_face(data, o, p, f), 0),
        4 * j == mesh::solid_faces(data, o, p, f as nat).len(),
    decreases n,
{
    if n == 0 {
        0
    } else {
        let m = (n - 1) as nat;
        let before = mesh::solid_faces(data, o, p, m);
        faces_are_quads(data, o, p, m);
        if 4 * j < before.len() {
            solid_source(data, o, p, m, j)
        } else {
            solid_faces_have_four(data, o, p, n - 1);
            n - 1
        }
    }
}

/// Where a face of a solid block is among its faces.
proof fn solid_place(data: Seq<u8>, o: (i32, i32, i32), p: (int, int, int), n: nat, f: int) -> (j:
    int)
    requires
        n <= 6,
        0 <= f < n,
        !light::solid_at(
            data,
            mesh::front(p, f).0,
            mesh::front(p, f).1,
            mesh::front(p, f).2,
        ),
    ensures
        same_quad(mesh::solid_faces(data, o, p, n), j, mesh::solid_face(data, o, p, f), 0),
        4 * j == mesh::solid_faces(data, o, p, f as nat).len(),
    decreases n,
{
    if f == n - 1 {
        faces_are_quads(data, o, p, f as nat);
        solid_faces_have_four(data, o, p, f);
        mesh::solid_faces(data, o, p, f as nat).len() as int / 4
    } else {
        solid_place(data, o, p, (n - 1) as nat, f)
    }
}

/// The face of water that a quad is.
proof fn water_source(data: Seq<u8>, o: (i32, i32, i32), p: (int, int, int), n: nat, j: int) -> (f:
    int)
    requires
        n <= 6,
        0 <= j,
        4 * j + 3 < mesh::water_faces(data, o, p, n).len(),
    ensures
        0 <= f < n,
        mesh::air_at(data, mesh::front(p, f).0, mesh::front(p, f).1, mesh::front(p, f).2),
        same_quad(mesh::water_faces(data, o, p, n), j, mesh::water_face(data, o, p, f), 0),
        4 * j == mesh::water_faces(data, o, p, f as nat).len(),
    decreases n,
{
    if n == 0 {
        0
    } else {
        let m = (n - 1) as nat;
        let before = mesh::water_faces(data, o, p, m);
        faces_are_quads(data, o, p, m);
        if 4 * j < before.len() {
            water_source(data, o, p, m, j)
        } else {
            water_faces_have_four(data, o, p, n - 1);
            n - 1
        }
    }
}

/// Where a face of water is among its faces.
proof fn water_place(data: Seq<u8>, o: (i32, i32, i32), p: (int, int, int), n: nat, f: int) -> (j:
    int)
    requires
        n <= 6,
        0 <= f < n,
        mesh::air_at(data, mesh::front(p, f).0, mesh::front(p, f).1, mesh::front(p, f).2),
    ensures
        same_quad(mesh::water_faces(data, o, p, n), j, mesh::water_face(data, o, p, f), 0),
        4 * j == mesh::water_faces(data, o, p, f as nat).len(),
    decreases n,
{
    if f == n - 1 {
        faces_are_quads(data, o, p, f as nat);
        water_faces_have_four(data, o, p, f);
        mesh::water_faces(data, o, p, f as nat).len() as int / 4
    } else {
        water_place(data, o, p, (n - 1) as nat, f)
    }
}

/// Whether a quad is the face of a cell whose contents stand `top` thousandths high.
spec fn is_face(
    s: Seq<Vertex>,
    k: int,
    o: (i32, i32, i32),
    r: (int, int, int),
    f: int,
    top: int,
) -> bool {
    &&& 0 <= k
    &&& 4 * k + 3 < s.len()
    &&& forall|i: int| #![trigger mesh::corner(f, i)]
        0 <= i < 4 ==> {
            let c = mesh::corner(f, i);
            &&& s[4 * k + i].x == 1000 * (o.0 + r.0 - 5 + c.0)
            &&& s[4 * k + i].y == 1000 * (o.1 + r.1 - 5) + c.1 * top
            &&& s[4 * k + i].z == 1000 * (o.2 + r.2 - 5 + c.2)
        }
}

proof fn solid_quads_are_faces(
    data: Seq<u8>,
    o: (i32, i32, i32),
    r: (int, int, int),
    f: int,
    s: Seq<Vertex>,
    k: int,
)
    requires
        is_own(r),
        0 <= f < 6,
        same_quad(s, k, mesh::solid_face(data, o, r, f), 0),
    ensures
        is_face(s, k, o, r, f, 1000),
{
    reveal(mesh::solid_face);
    let t = mesh::solid_face(data, o, r, f);
    assert forall|i: int| #![trigger mesh::corner(f, i)] 0 <= i < 4 implies {
        let c = mesh::corner(f, i);
        &&& s[4 * k + i].x == 1000 * (o.0 + r.0 - 5 + c.0)
        &&& s[4 * k + i].y == 1000 * (o.1 + r.1 - 5) + c.1 * 1000
        &&& s[4 * k + i].z == 1000 * (o.2 + r.2 - 5 + c.2)
    } by {
        assert(s[4 * k + i] == t[i]);
    }
}

proof fn water_quads_are_faces(
    data: Seq<u8>,
    o: (i32, i32, i32),
    r: (int, int, int),
    f: int,
    s: Seq<Vertex>,
    k: int,
)
    requires
        is_own(r),
        0 <= f < 6,
        same_quad(s, k, mesh::water_face(data, o, r, f), 0),
    ensures
        is_face(s, k, o, r, f, mesh::surface(data, r)),
{
    reveal(mesh::water_face);
    let t = mesh::water_face(data, o, r, f);
    let top = mesh::surface(data, r);
    assert forall|i: int| #![trigger mesh::corner(f, i)] 0 <= i < 4 implies {
        let c = mesh::corner(f, i);
        &&& s[4 * k + i].x == 1000 * (o.0 + r.0 - 5 + c.0)
        &&& s[4 * k + i].y == 1000 * (o.1 + r.1 - 5) + c.1 * top
        &&& s[4 * k + i].z == 1000 * (o.2 + r.2 - 5 + c.2)
    } by {
        assert(s[4 * k + i] == t[i]);
        let c = mesh::corner(f, i);
        assert(c.1 * top == 0 || c.1 * top == top) by (nonlinear_arith)
            requires
                c.1 == 0 || c.1 == 1,
        ;
    }
}

/// The corners of a face, each by its coordinates.
proof fn face_corners(
    s: Seq<Vertex>,
    k: int,
    o: (i32, i32, i32),
    r: (int, int, int),
    f: int,
    top: int,
)
    requires
        0 <= f < 6,
        top == 875 || top == 1000,
        is_face(s, k, o, r, f, top),
    ensures
        winds(mesh::step(f), s[4 * k], s[4 * k + 1], s[4 * k + 2], s[4 * k + 3]),
{
    let a = s[4 * k];
    let b = s[4 * k + 1];
    let c = s[4 * k + 2];
    let e = s[4 * k + 3];
    let (c0, c1, c2, c3) = (
        mesh::corner(f, 0),
        mesh::corner(f, 1),
        mesh::corner(f, 2),
        mesh::corner(f, 3),
    );
    assert(s[4 * k + 0] == a);
    assert(0 * top == 0 && 1 * top == top);
    if f == 0 {
        assert(edge(a, b) == (0int, 0int, 1000int) && edge(a, e) == (1000int, 0int, 0int));
        assert(cross((0int, 0int, 1000int), (1000int, 0int, 0int)) == (0int, 1000000int, 0int)) by (nonlinear_arith);
    } else if f == 1 {
        assert(edge(a, b) == (0int, 0int, -1000int) && edge(a, e) == (1000int, 0int, 0int));
        assert(cross((0int, 0int, -1000int), (1000int, 0int, 0int)) == (0int, -1000000int, 0int)) by (nonlinear_arith);
    } else if f == 2 {
        assert(edge(a, b) == (0int, 0int, -1000int) && edge(a, e) == (0int, top, 0int));
        if top == 875 {
            assert(cross((0int, 0int, -1000int), (0int, 875int, 0int)) == (875000int, 0int, 0int)) by (nonlinear_arith);
        } else {
            assert(cross((0int, 0int, -1000int), (0int, 1000int, 0int)) == (1000000int, 0int, 0int)) by (nonlinear_arith);
        }
    } else if f == 3 {
        assert(edge(a, b) == (0int, 0int, 1000int) && edge(a, e) == (0int, top, 0int));
        if top == 875 {
            assert(cross((0int, 0int, 1000int), (0int, 875int, 0int)) == (-875000int, 0int, 0int)) by (nonlinear_arith);
        } else {
            assert(cross((0int, 0int, 1000int), (0int, 1000int, 0int)) == (-1000000int, 0int, 0int)) by (nonlinear_arith);
        }
    } else if f == 4 {
        assert(edge(a, b) == (1000int, 0int, 0int) && edge(a, e) == (0int, top, 0int));
        if top == 875 {
            assert(cross((1000int, 0int, 0int), (0int, 875int, 0int)) == (0int, 0int, 875000int)) by (nonlinear_arith);
        } else {
            assert(cross((1000int, 0int, 0int), (0int, 1000int, 0int)) == (0int, 0int, 1000000int)) by (nonlinear_arith);
        }
    } else {
        assert(edge(a, b) == (1000int, 0int, 0int) && edge(a, e) == (0int, -top, 0int));
        if top == 875 {
            assert(cross((1000int, 0int, 0int), (0int, -875int, 0int)) == (0int, 0int, -875000int)) by (nonlinear_arith);
        } else {
            assert(cross((1000int, 0int, 0int), (0int, -1000int, 0int)) == (
                0int,
                0int,
                -1000000int,
            )) by (nonlinear_arith);
        }
    }
}

/// A face is the wall between its cell and the one in front of it, and between no
/// others.
proof fn faces_are_walls(
    s: Seq<Vertex>,
    k: int,
    o: (i32, i32, i32),
    r: (int, int, int),
    f: int,
    top: int,
    p: (int, int, int),
    q: (int, int, int),
)
    requires
        0 <= f < 6,
        top == 875 || top == 1000,
        is_face(s, k, o, r, f, top),
        adjacent(p, q),
    ensures
        top == 1000 ==> is_wall(s, k, o, r, mesh::front(r, f)),
        is_wall(s, k, o, p, q) ==> p == r && q == mesh::front(r, f),
{
    face_corners(s, k, o, r, f, top);
    let (c0, c1, c2, c3) = (
        mesh::corner(f, 0),
        mesh::corner(f, 1),
        mesh::corner(f, 2),
        mesh::corner(f, 3),
    );
    assert(s[4 * k + 0] == s[4 * k]);
    assert(0 * top == 0 && 1 * top == top);
    let g = mesh::front(r, f);
    assert(way(r, g) == mesh::step(f));
    if is_wall(s, k, o, p, q) {
        assert(way(p, q) == mesh::step(f));
    }
}

/// A face is the side of its cell's contents, and of no other's.
proof fn faces_are_films(
    s: Seq<Vertex>,
    k: int,
    o: (i32, i32, i32),
    r: (int, int, int),
    f: int,
    top: int,
    p: (int, int, int),
    q: (int, int, int),
    t: int,
)
    requires
        0 <= f < 6,
        top == 875 || top == 1000,
        t == 875 || t == 1000,
        is_face(s, k, o, r, f, top),
        adjacent(p, q),
    ensures
        is_film(s, k, o, r, mesh::front(r, f), top),
        is_film(s, k, o, p, q, t) ==> p == r && q == mesh::front(r, f),
{
    face_corners(s, k, o, r, f, top);
    let (c0, c1, c2, c3) = (
        mesh::corner(f, 0),
        mesh::corner(f, 1),
        mesh::corner(f, 2),
        mesh::corner(f, 3),
    );
    assert(s[4 * k + 0] == s[4 * k]);
    assert(0 * top == 0 && 1 * top == top);
    let g = mesh::front(r, f);
    assert(way(r, g) == mesh::step(f));
    if is_film(s, k, o, p, q, t) {
        assert(way(p, q) == mesh::step(f));
    }
}

/// Flowers lie a little above the ground, so none of their quads is a wall or a side of
/// water.
proof fn petals_are_no_faces(
    data: Seq<u8>,
    o: (i32, i32, i32),
    r: (int, int, int),
    s: Seq<Vertex>,
    k: int,
    j: int,
    p: (int, int, int),
    q: (int, int, int),
)
    requires
        is_own(r),
        same_quad(s, k, mesh::flower_bar(data, o, r, 0) + mesh::flower_bar(data, o, r, 1), j),
    ensures
        !is_wall(s, k, o, p, q),
        0 <= j < 2,
        is_petal(s, k, o, r, j),
        s[4 * k].tex == block_of(data, r).textures().0,
        s[4 * k].light == (570 + 62 * light::level(data, r.0, r.1, r.2)) * 100 * 100,
{
    reveal(mesh::flower_bar);
    let bars = mesh::flower_bar(data, o, r, 0) + mesh::flower_bar(data, o, r, 1);
    assert(bars.len() == 8);
    let l = light::level(data, r.0, r.1, r.2) as int;
    light::sky_is_brightest(data, r.0, r.1, r.2);
    mesh::baked_light_is_bounded(l, 100, 100);
    assert(bars[4 * j] == mesh::flower_corner(data, o, r, j, 0));
    assert(bars[4 * j + 1] == mesh::flower_corner(data, o, r, j, 1));
    assert(bars[4 * j + 2] == mesh::flower_corner(data, o, r, j, 2));
    assert(bars[4 * j + 3] == mesh::flower_corner(data, o, r, j, 3));
    assert(s[4 * k].y == 1000 * (o.1 + r.1 - 5) + 30);
}

/// Whether the `k`th quad of a list is one of the two bars of a flower: flat, a little
/// above the floor of the cell, long to the east and the west, or to the south and the
/// north, and crossing the other one in the middle.
pub open spec fn is_petal(
    s: Seq<Vertex>,
    k: int,
    o: (i32, i32, i32),
    p: (int, int, int),
    j: int,
) -> bool {
    let x = 1000 * (o.0 + p.0 - 5);
    let y = 1000 * (o.1 + p.1 - 5);
    let z = 1000 * (o.2 + p.2 - 5);
    &&& 0 <= k
    &&& 4 * k + 3 < s.len()
    &&& forall|i: int| #![trigger s[i]]
        4 * k <= i < 4 * k + 4 ==> {
            &&& s[i].y == y + 30
            &&& j == 0 ==> (s[i].x == x + 190 || s[i].x == x + 810) && (s[i].z == z + 440
                || s[i].z == z + 560)
            &&& j == 1 ==> (s[i].x == x + 440 || s[i].x == x + 560) && (s[i].z == z + 190
                || s[i].z == z + 810)
        }
    &&& edge(s[4 * k], s[4 * k + 1]) == edge(s[4 * k + 3], s[4 * k + 2])
    &&& s[4 * k] != s[4 * k + 1]
    &&& s[4 * k] != s[4 * k + 3]
}

/// Who a wall belongs to: the cell behind it, which holds a solid block and has an open
/// cell in front of it, or water that stands against air.
proof fn wall_owner(
    data: Seq<u8>,
    o: (i32, i32, i32),
    clear: bool,
    p: (int, int, int),
    q: (int, int, int),
    k: int,
)
    requires
        adjacent(p, q),
        is_wall(layer(data, o, 4096, clear), k, o, p, q),
    ensures
        is_own(p),
        hides(block_of(data, p)) ==> {
            &&& !hides(block_of(data, q))
            &&& clear == (block_of(data, p) == Block::Glass)
            &&& same_quad(
                layer(data, o, 4096, clear),
                k,
                mesh::solid_face(data, o, p, face_to(p, q)),
                0,
            )
            &&& 4 * k == layer(data, o, number(p) as nat, clear).len() + mesh::solid_faces(
                data,
                o,
                p,
                face_to(p, q) as nat,
            ).len()
        },
        !hides(block_of(data, p)) ==> block_of(data, p) == Block::Water,
{
    let s = layer(data, o, 4096, clear);
    let (c, j) = quad_source(data, o, 4096, clear, k);
    let r = mesh::chunk_place(c);
    cells_have_numbers(c);
    blocks_are_cells(data, r);
    let b = block_of(data, r);
    if b == Block::Water {
        let f = water_source(data, o, r, 6, j);
        water_quads_are_faces(data, o, r, f, s, k);
        faces_are_walls(s, k, o, r, f, mesh::surface(data, r), p, q);
    } else if b.spec_is_flower() {
        petals_are_no_faces(data, o, r, s, k, j, p, q);
    } else {
        let f = solid_source(data, o, r, 6, j);
        solid_quads_are_faces(data, o, r, f, s, k);
        faces_are_walls(s, k, o, r, f, 1000, p, q);
        cells_have_faces(r, f);
        blocks_are_cells(data, q);
    }
}

// ---- Laws ------------------------------------------------------------------------------

/// Exactly the sides of solid blocks that can be seen are drawn: between a block of the
/// chunk and the cell beside it stands a wall, facing that cell, if and only if nothing
/// solid is there. Glass has its walls with what is translucent, every other block with
/// what is opaque.
pub proof fn walls_stand_where_blocks_end(
    data: Seq<u8>,
    o: (i32, i32, i32),
    p: (int, int, int),
    q: (int, int, int),
)
    requires
        is_own(p),
        adjacent(p, q),
        hides(block_of(data, p)),
    ensures
        has_wall(
            layer(data, o, 4096, block_of(data, p) == Block::Glass),
            o,
            p,
            q,
        ) <==> !hides(block_of(data, q)),
        !has_wall(layer(data, o, 4096, block_of(data, p) != Block::Glass), o, p, q),
{
    let clear = block_of(data, p) == Block::Glass;
    let s = layer(data, o, 4096, clear);
    if has_wall(s, o, p, q) {
        let k = choose|k: int| is_wall(s, k, o, p, q);
        wall_owner(data, o, clear, p, q, k);
    }
    if !hides(block_of(data, q)) {
        faces_have_cells(p, q);
        blocks_are_cells(data, p);
        blocks_are_cells(data, q);
        numbers_name_cells(p);
        let f = face_to(p, q);
        let j = solid_place(data, o, p, 6, f);
        let k = quad_place(data, o, 4096, clear, number(p), j);
        solid_quads_are_faces(data, o, p, f, s, k);
        faces_are_walls(s, k, o, p, f, 1000, p, q);
        assert(is_wall(s, k, o, p, q));
    }
    let other = layer(data, o, 4096, !clear);
    if has_wall(other, o, p, q) {
        let k = choose|k: int| is_wall(other, k, o, p, q);
        wall_owner(data, o, !clear, p, q, k);
    }
}

/// No side of a block is drawn twice.
pub proof fn walls_stand_once(
    data: Seq<u8>,
    o: (i32, i32, i32),
    clear: bool,
    p: (int, int, int),
    q: (int, int, int),
    j: int,
    k: int,
)
    requires
        adjacent(p, q),
        hides(block_of(data, p)),
        is_wall(layer(data, o, 4096, clear), j, o, p, q),
        is_wall(layer(data, o, 4096, clear), k, o, p, q),
    ensures
        j == k,
{
    wall_owner(data, o, clear, p, q, j);
    wall_owner(data, o, clear, p, q, k);
}

/// How bright a side is by its direction, in hundredths: the top is brightest, then
/// east and west, then south and north, and the bottom is darkest.
pub open spec fn side_shade(d: (int, int, int)) -> int {
    if d.1 == 1 {
        100
    } else if d.1 == -1 {
        55
    } else if d.0 != 0 {
        82
    } else {
        70
    }
}

/// The three other cells in front of a wall that meet at a corner of it: two beside
/// the cell in front, and the one across.
pub open spec fn round_corner(
    o: (i32, i32, i32),
    p: (int, int, int),
    q: (int, int, int),
    v: Vertex,
) -> ((int, int, int), (int, int, int), (int, int, int)) {
    let a: int = if v.x == 1000 * (o.0 + p.0 - 5) {
        -1
    } else {
        1
    };
    let b: int = if v.y == 1000 * (o.1 + p.1 - 5) {
        -1
    } else {
        1
    };
    let c: int = if v.z == 1000 * (o.2 + p.2 - 5) {
        -1
    } else {
        1
    };
    if q.1 != p.1 {
        ((q.0 + a, q.1, q.2), (q.0, q.1, q.2 + c), (q.0 + a, q.1, q.2 + c))
    } else if q.0 != p.0 {
        ((q.0, q.1 + b, q.2), (q.0, q.1, q.2 + c), (q.0, q.1 + b, q.2 + c))
    } else {
        ((q.0 + a, q.1, q.2), (q.0, q.1 + b, q.2), (q.0 + a, q.1 + b, q.2))
    }
}

/// What is left of the light at a corner with such cells round it, in hundredths: all
/// of it in the open, least where both cells beside are filled.
pub open spec fn corner_shade(side: bool, other: bool, across: bool) -> int {
    if side && other {
        45
    } else if (side || other) && across {
        62
    } else if side || other || across {
        82
    } else {
        100
    }
}

/// Whether a corner of a wall has the texture of the block behind it for that side, the
/// right way up, and the light of the cell in front of it, shaded by the direction of
/// the wall and by the blocks round the corner.
pub open spec fn is_dressed(
    data: Seq<u8>,
    o: (i32, i32, i32),
    p: (int, int, int),
    q: (int, int, int),
    v: Vertex,
) -> bool {
    let d = way(p, q);
    let t = block_of(data, p).textures();
    let (side, other, across) = round_corner(o, p, q, v);
    &&& v.tex == (if d.1 == 1 {
        t.0
    } else if d.1 == -1 {
        t.2
    } else {
        t.1
    })
    &&& d.1 == 0 ==> v.v == (if v.y == 1000 * (o.1 + p.1 - 5) {
        0int
    } else {
        100
    })
    &&& v.u == 0 || v.u == 100
    &&& v.light == (570 + 62 * light::level(data, q.0, q.1, q.2)) * side_shade(d) * corner_shade(
        hides(block_of(data, side)),
        hides(block_of(data, other)),
        hides(block_of(data, across)),
    )
}

proof fn corners_meet_cells(
    data: Seq<u8>,
    o: (i32, i32, i32),
    p: (int, int, int),
    f: int,
    i: int,
    v: Vertex,
)
    requires
        is_own(p),
        0 <= f < 6,
        0 <= i < 4,
        v.x == 1000 * (o.0 + p.0 - 5 + mesh::corner(f, i).0),
        v.y == 1000 * (o.1 + p.1 - 5 + mesh::corner(f, i).1),
        v.z == 1000 * (o.2 + p.2 - 5 + mesh::corner(f, i).2),
    ensures
        ({
            let q = mesh::front(p, f);
            let c = mesh::corner(f, i);
            let (side, other, across) = round_corner(o, p, q, v);
            mesh::occluders(data, q, (2 * c.0 - 1, 2 * c.1 - 1, 2 * c.2 - 1), f) == (
                hides(block_of(data, side)),
                hides(block_of(data, other)),
                hides(block_of(data, across)),
            )
        }),
{
    let q = mesh::front(p, f);
    let c = mesh::corner(f, i);
    let (side, other, across) = round_corner(o, p, q, v);
    assert(c.0 == 0 || c.0 == 1);
    assert(c.1 == 0 || c.1 == 1);
    assert(c.2 == 0 || c.2 == 1);
    blocks_are_cells(data, side);
    blocks_are_cells(data, other);
    blocks_are_cells(data, across);
}

proof fn shades_agree(f: int, p: (int, int, int), side: bool, other: bool, across: bool)
    requires
        0 <= f < 6,
    ensures
        mesh::unoccluded(mesh::openness((side, other, across))) == corner_shade(
            side,
            other,
            across,
        ),
        mesh::shade(f) == side_shade(way(p, mesh::front(p, f))),
{
}

proof fn placed_corners_are_dressed(
    data: Seq<u8>,
    o: (i32, i32, i32),
    p: (int, int, int),
    f: int,
    i: int,
    v: Vertex,
)
    requires
        is_own(p),
        0 <= f < 6,
        0 <= i < 4,
        v == mesh::placed(
            o,
            p,
            f,
            i,
            1000,
            mesh::face_light(data, p, f, i),
            light::cell(data, p.0, p.1, p.2).spec_tex_for_dir(f),
        ),
    ensures
        is_dressed(data, o, p, mesh::front(p, f), v),
{
    let q = mesh::front(p, f);
    let c = mesh::corner(f, i);
    assert(c.0 == 0 || c.0 == 1);
    assert(c.1 == 0 || c.1 == 1);
    assert(c.2 == 0 || c.2 == 1);
    let (side, other, across) = round_corner(o, p, q, v);
    let (a, b, e) = (
        hides(block_of(data, side)),
        hides(block_of(data, other)),
        hides(block_of(data, across)),
    );
    corners_meet_cells(data, o, p, f, i, v);
    shades_agree(f, p, a, b, e);
    mesh::face_light_is_bounded(data, p, f, i);
    blocks_are_cells(data, p);
    let l = light::level(data, q.0, q.1, q.2) as int;
    assert(mesh::face_light(data, p, f, i) == mesh::baked(
        l,
        side_shade(way(p, q)),
        corner_shade(a, b, e),
    ));
}

proof fn corners_are_dressed(
    data: Seq<u8>,
    o: (i32, i32, i32),
    p: (int, int, int),
    f: int,
    i: int,
)
    requires
        is_own(p),
        0 <= f < 6,
        0 <= i < 4,
    ensures
        is_dressed(data, o, p, mesh::front(p, f), mesh::solid_face(data, o, p, f)[i]),
{
    let v = mesh::placed(
        o,
        p,
        f,
        i,
        1000,
        mesh::face_light(data, p, f, i),
        light::cell(data, p.0, p.1, p.2).spec_tex_for_dir(f),
    );
    placed_corners_are_dressed(data, o, p, f, i, v);
    assert(mesh::solid_face(data, o, p, f)[i] == v) by {
        reveal(mesh::solid_face);
    }
}

/// Every corner of every wall has the right texture and the right light.
pub proof fn walls_are_dressed(
    data: Seq<u8>,
    o: (i32, i32, i32),
    clear: bool,
    p: (int, int, int),
    q: (int, int, int),
    k: int,
)
    requires
        adjacent(p, q),
        hides(block_of(data, p)),
        is_wall(layer(data, o, 4096, clear), k, o, p, q),
    ensures
        is_dressed(data, o, p, q, layer(data, o, 4096, clear)[4 * k]),
        is_dressed(data, o, p, q, layer(data, o, 4096, clear)[4 * k + 1]),
        is_dressed(data, o, p, q, layer(data, o, 4096, clear)[4 * k + 2]),
        is_dressed(data, o, p, q, layer(data, o, 4096, clear)[4 * k + 3]),
{
    wall_owner(data, o, clear, p, q, k);
    faces_have_cells(p, q);
    let f = face_to(p, q);
    corners_are_dressed(data, o, p, f, 0);
    corners_are_dressed(data, o, p, f, 1);
    corners_are_dressed(data, o, p, f, 2);
    corners_are_dressed(data, o, p, f, 3);
}

/// How high the water of a cell stands, in thousandths: a little lower under air.
pub open spec fn water_height(data: Seq<u8>, p: (int, int, int)) -> int {
    if block_of(data, (p.0, p.1 + 1, p.2)) == Block::Air {
        875
    } else {
        1000
    }
}

/// Water shows exactly where it meets air: the side of a cell of water towards the one
/// beside it is drawn, with what is translucent, if and only if air is there. It is lit
/// by the light there, without the shadows of corners.
pub proof fn water_shows_against_air(
    data: Seq<u8>,
    o: (i32, i32, i32),
    p: (int, int, int),
    q: (int, int, int),
)
    requires
        is_own(p),
        adjacent(p, q),
        block_of(data, p) == Block::Water,
    ensures
        (exists|k: int|
            is_film(layer(data, o, 4096, true), k, o, p, q, water_height(data, p))) <==> block_of(
            data,
            q,
        ) == Block::Air,
        forall|k: int| #[trigger]
            is_film(layer(data, o, 4096, true), k, o, p, q, water_height(data, p)) ==> {
                let v = layer(data, o, 4096, true)[4 * k];
                &&& v.tex == Block::Water.textures().0
                &&& v.light == (570 + 62 * light::level(data, q.0, q.1, q.2)) * side_shade(
                    way(p, q),
                ) * 100
            },
{
    let s = layer(data, o, 4096, true);
    let t = water_height(data, p);
    blocks_are_cells(data, p);
    blocks_are_cells(data, q);
    blocks_are_cells(data, (p.0, p.1 + 1, p.2));
    assert(mesh::surface(data, p) == t);
    assert forall|k: int| #[trigger] is_film(s, k, o, p, q, t) implies {
        let v = s[4 * k];
        &&& block_of(data, q) == Block::Air
        &&& v.tex == Block::Water.textures().0
        &&& v.light == (570 + 62 * light::level(data, q.0, q.1, q.2)) * side_shade(way(p, q)) * 100
    } by {
        film_owner(data, o, p, q, t, k);
    }
    if block_of(data, q) == Block::Air {
        faces_have_cells(p, q);
        numbers_name_cells(p);
        let f = face_to(p, q);
        let j = water_place(data, o, p, 6, f);
        let k = quad_place(data, o, 4096, true, number(p), j);
        water_quads_are_faces(data, o, p, f, s, k);
        faces_are_films(s, k, o, p, f, t, p, q, t);
        assert(is_film(s, k, o, p, q, t));
    }
}

proof fn film_owner(
    data: Seq<u8>,
    o: (i32, i32, i32),
    p: (int, int, int),
    q: (int, int, int),
    t: int,
    k: int,
)
    requires
        adjacent(p, q),
        t == 875 || t == 1000,
        block_of(data, p) == Block::Water,
        is_film(layer(data, o, 4096, true), k, o, p, q, t),
    ensures
        block_of(data, q) == Block::Air,
        layer(data, o, 4096, true)[4 * k].tex == Block::Water.textures().0,
        layer(data, o, 4096, true)[4 * k].light == (570 + 62 * light::level(data, q.0, q.1, q.2))
            * side_shade(way(p, q)) * 100,
{
    let s = layer(data, o, 4096, true);
    let (c, j) = quad_source(data, o, 4096, true, k);
    let r = mesh::chunk_place(c);
    cells_have_numbers(c);
    blocks_are_cells(data, r);
    blocks_are_cells(data, q);
    if block_of(data, r) == Block::Water {
        let f = water_source(data, o, r, 6, j);
        water_quads_are_faces(data, o, r, f, s, k);
        faces_are_films(s, k, o, r, f, mesh::surface(data, r), p, q, t);
        cells_have_faces(r, f);
        reveal(mesh::water_face);
        let l = light::level(data, q.0, q.1, q.2) as int;
        light::sky_is_brightest(data, q.0, q.1, q.2);
        mesh::baked_light_is_bounded(l, mesh::shade(f), 100);
        assert(mesh::shade(f) == side_shade(way(p, q)));
        assert(s[4 * k] == mesh::water_face(data, o, r, f)[0]);
    } else {
        let f = solid_source(data, o, r, 6, j);
        solid_quads_are_faces(data, o, r, f, s, k);
        faces_are_films(s, k, o, r, f, 1000, p, q, t);
    }
}

/// A flower is drawn as two bars that cross, with what is opaque, in its own texture and
/// the light of its cell.
pub proof fn flowers_are_two_bars(data: Seq<u8>, o: (i32, i32, i32), p: (int, int, int), j: int)
    requires
        is_own(p),
        block_of(data, p) == Block::FlowerRed || block_of(data, p) == Block::FlowerYellow,
        0 <= j < 2,
    ensures
        exists|k: int| #[trigger]
            is_petal(layer(data, o, 4096, false), k, o, p, j) && layer(
                data,
                o,
                4096,
                false,
            )[4 * k].tex == block_of(data, p).textures().0 && layer(
                data,
                o,
                4096,
                false,
            )[4 * k].light == (570 + 62 * light::level(data, p.0, p.1, p.2)) * 100 * 100,
{
    blocks_are_cells(data, p);
    numbers_name_cells(p);
    reveal(mesh::flower_bar);
    let k = quad_place(data, o, 4096, false, number(p), j);
    petals_are_no_faces(data, o, p, layer(data, o, 4096, false), k, j, p, p);
    assert(is_petal(layer(data, o, 4096, false), k, o, p, j));
}

/// Nothing else is drawn: every quad of what is opaque is a wall of one of the chunk's
/// blocks towards an open cell, or a bar of one of its flowers.
pub proof fn nothing_else_is_opaque(data: Seq<u8>, o: (i32, i32, i32), k: int)
    requires
        0 <= k,
        4 * k + 3 < layer(data, o, 4096, false).len(),
    ensures
        exists|p: (int, int, int), q: (int, int, int)|
            {
                &&& is_own(p)
                &&& {
                    ||| adjacent(p, q) && hides(block_of(data, p)) && block_of(data, p)
                        != Block::Glass && !hides(block_of(data, q)) && #[trigger] is_wall(
                        layer(data, o, 4096, false),
                        k,
                        o,
                        p,
                        q,
                    )
                    ||| (block_of(data, p) == Block::FlowerRed || block_of(data, p)
                        == Block::FlowerYellow) && (is_petal(
                        layer(data, o, 4096, false),
                        k,
                        o,
                        p,
                        0,
                    ) || is_petal(layer(data, o, 4096, false), k, o, p, 1))
                }
            },
{
    let s = layer(data, o, 4096, false);
    let (c, j) = quad_source(data, o, 4096, false, k);
    let r = mesh::chunk_place(c);
    cells_have_numbers(c);
    blocks_are_cells(data, r);
    if block_of(data, r).spec_is_flower() {
        petals_are_no_faces(data, o, r, s, k, j, r, r);
        assert(!is_wall(s, k, o, r, r));
    } else {
        let f = solid_source(data, o, r, 6, j);
        let g = mesh::front(r, f);
        cells_have_faces(r, f);
        solid_quads_are_faces(data, o, r, f, s, k);
        faces_are_walls(s, k, o, r, f, 1000, r, g);
        blocks_are_cells(data, g);
        assert(is_wall(s, k, o, r, g));
    }
}

/// Whether a quad is the wall of a cell of glass towards an open one, or the side of a
/// cell of water towards air.
pub open spec fn shows_through(
    data: Seq<u8>,
    s: Seq<Vertex>,
    k: int,
    o: (i32, i32, i32),
    p: (int, int, int),
    q: (int, int, int),
) -> bool {
    &&& adjacent(p, q)
    &&& {
        ||| block_of(data, p) == Block::Glass && !hides(block_of(data, q)) && is_wall(
            s,
            k,
            o,
            p,
            q,
        )
        ||| block_of(data, p) == Block::Water && block_of(data, q) == Block::Air && is_film(
            s,
            k,
            o,
            p,
            q,
            water_height(data, p),
        )
    }
}

/// Nothing else is drawn: every quad of what is translucent is a wall of glass towards
/// an open cell, or a side of water towards air.
pub proof fn nothing_else_is_translucent(data: Seq<u8>, o: (i32, i32, i32), k: int)
    requires
        0 <= k,
        4 * k + 3 < layer(data, o, 4096, true).len(),
    ensures
        exists|p: (int, int, int), q: (int, int, int)|
            is_own(p) && #[trigger] shows_through(data, layer(data, o, 4096, true), k, o, p, q),
{
    let s = layer(data, o, 4096, true);
    let (c, j) = quad_source(data, o, 4096, true, k);
    let r = mesh::chunk_place(c);
    cells_have_numbers(c);
    blocks_are_cells(data, r);
    if block_of(data, r) == Block::Water {
        let f = water_source(data, o, r, 6, j);
        let g = mesh::front(r, f);
        cells_have_faces(r, f);
        blocks_are_cells(data, g);
        blocks_are_cells(data, (r.0, r.1 + 1, r.2));
        water_quads_are_faces(data, o, r, f, s, k);
        faces_are_films(s, k, o, r, f, mesh::surface(data, r), r, g, 1000);
        assert(shows_through(data, s, k, o, r, g));
    } else {
        let f = solid_source(data, o, r, 6, j);
        let g = mesh::front(r, f);
        cells_have_faces(r, f);
        solid_quads_are_faces(data, o, r, f, s, k);
        faces_are_walls(s, k, o, r, f, 1000, r, g);
        blocks_are_cells(data, g);
        assert(shows_through(data, s, k, o, r, g));
    }
}

/// Each quad is drawn as two triangles that share its first and third corner and go
/// round it in its own order, and that is all that is drawn of it.
pub proof fn quads_are_two_triangles(n: nat, k: int)
    requires
        n % 4 == 0,
        n <= u32::MAX,
        0 <= k,
        4 * k + 3 < n,
    ensures
        mesh::fan_indices(n).len() == n / 4 * 6,
        mesh::fan_indices(n)[6 * k] == 4 * k,
        mesh::fan_indices(n)[6 * k + 1] == 4 * k + 1,
        mesh::fan_indices(n)[6 * k + 2] == 4 * k + 2,
        mesh::fan_indices(n)[6 * k + 3] == 4 * k,
        mesh::fan_indices(n)[6 * k + 4] == 4 * k + 2,
        mesh::fan_indices(n)[6 * k + 5] == 4 * k + 3,
{
    assert((6 * k) / 6 == k && (6 * k) % 6 == 0);
    assert((6 * k + 1) / 6 == k && (6 * k + 1) % 6 == 1);
    assert((6 * k + 2) / 6 == k && (6 * k + 2) % 6 == 2);
    assert((6 * k + 3) / 6 == k && (6 * k + 3) % 6 == 3);
    assert((6 * k + 4) / 6 == k && (6 * k + 4) % 6 == 4);
    assert((6 * k + 5) / 6 == k && (6 * k + 5) % 6 == 5);
}

/// The wireframe is that of the block: each of its lines joins two corners of a cube
/// just outside the block, and the twelve lines are different edges of it.
pub proof fn the_wireframe_is_a_cube(t: (i32, i32, i32), s: int, r: int)
    requires
        0 <= s < 12,
        0 <= r < 12,
    ensures
        ({
            let a = mesh::wire(t, 2 * s);
            let b = mesh::wire(t, 2 * s + 1);
            let c = mesh::wire(t, 2 * r);
            let e = mesh::wire(t, 2 * r + 1);
            &&& a.x == 1000 * t.0 - 1 || a.x == 1000 * t.0 + 1001
            &&& a.y == 1000 * t.1 - 1 || a.y == 1000 * t.1 + 1001
            &&& a.z == 1000 * t.2 - 1 || a.z == 1000 * t.2 + 1001
            &&& b.x == 1000 * t.0 - 1 || b.x == 1000 * t.0 + 1001
            &&& b.y == 1000 * t.1 - 1 || b.y == 1000 * t.1 + 1001
            &&& b.z == 1000 * t.2 - 1 || b.z == 1000 * t.2 + 1001
            &&& (a.x != b.x && a.y == b.y && a.z == b.z) || (a.x == b.x && a.y != b.y && a.z
                == b.z) || (a.x == b.x && a.y == b.y && a.z != b.z)
            &&& r != s ==> !(a == c && b == e) && !(a == e && b == c)
        }),
{
    assert((2 * s) / 2 == s && (2 * s) % 2 == 0 && (2 * s + 1) / 2 == s && (2 * s + 1) % 2 == 1);
    assert((2 * r) / 2 == r && (2 * r) % 2 == 0 && (2 * r + 1) / 2 == r && (2 * r + 1) % 2 == 1);
}

} // verus!
