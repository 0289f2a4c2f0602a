use qwencraft::block::{
    Block, TEX_FLOWER_RED, TEX_FLOWER_YELLOW, TEX_GLASS, TEX_GRASS_TOP, TEX_HIGHLIGHT, TEX_LOG_SIDE,
    TEX_LOG_TOP, TEX_STONE, TEX_WATER,
};
use qwencraft::coords::{CHUNK, CHUNK_BLOCKS, REGION, REGION_BLOCKS, REGION_MARGIN};
use qwencraft::light::{idx, sky_light};
use qwencraft::mesh::{ao_corners, build_chunk_mesh, highlight_vertices, Vertex, FULL, VERT_STRIDE};
use qwencraft::terrain::WorldGen;
struct FlatMesh {
    vertices: Vec<f32>,
    indices: Vec<u32>,
    water_vertices: Vec<f32>,
    water_indices: Vec<u32>,
}

impl FlatMesh {
    fn is_empty(&self) -> bool {
        self.indices.is_empty() && self.water_indices.is_empty()
    }
}

fn flat(v: &[Vertex]) -> Vec<f32> {
    let mut out = Vec::new();
    for p in v {
        out.push(p.x as f32 / 1000.0);
        out.push(p.y as f32 / 1000.0);
        out.push(p.z as f32 / 1000.0);
        out.push(p.light as f32 / FULL as f32);
        out.push(p.u as f32 / 100.0);
        out.push(p.v as f32 / 100.0);
        out.push(p.tex as f32);
    }
    out
}

fn flat_mesh(origin: (i32, i32, i32), data: &[u8]) -> FlatMesh {
    let m = build_chunk_mesh(origin, data);
    assert_eq!(m.index_count() as usize, m.indices.len());
    FlatMesh {
        vertices: flat(&m.vertices),
        indices: m.indices,
        water_vertices: flat(&m.water_vertices),
        water_indices: m.water_indices,
    }
}
#[test]
fn every_face_quad_spans_both_uv_axes() {
    let gen = WorldGen::new(1337);
    let mut checked = 0usize;
    for (cx, cy, cz) in [(0i32, 0, 0), (1, 0, 0), (0, 0, 1), (0, -1, 0), (2, 0, -1)] {
        let region = region_for(&gen, cx, cy, cz);
        let mesh = flat_mesh(
            (cx * CHUNK, cy * CHUNK, cz * CHUNK),
            &region,
        );
        for (verts, label) in [
            (&mesh.vertices, "opaque"),
            (&mesh.water_vertices, "water"),
        ] {
            assert_eq!(
                verts.len() % (4 * VERT_STRIDE),
                0,
                "{label}: vertex count not a multiple of 4"
            );
            for q in verts.chunks(4 * VERT_STRIDE) {
                let tex = q[6] as u8;
                if tex == TEX_FLOWER_RED || tex == TEX_FLOWER_YELLOW {
                    continue;
                }
                let axis = |k: usize| -> (f32, f32) {
                    let mut lo = f32::INFINITY;
                    let mut hi = f32::NEG_INFINITY;
                    for i in 0..4usize {
                        let v = q[i * VERT_STRIDE + k];
                        lo = lo.min(v);
                        hi = hi.max(v);
                    }
                    (lo, hi)
                };
                let (u_lo, u_hi) = axis(4);
                let (v_lo, v_hi) = axis(5);
                assert!(
                    (u_hi - u_lo - 1.0).abs() < 1e-5,
                    "face with tex {tex} does not span u (lo {u_lo}, hi {u_hi})"
                );
                assert!(
                    (v_hi - v_lo - 1.0).abs() < 1e-5,
                    "face with tex {tex} does not span v (lo {v_lo}, hi {v_hi})"
                );
                checked += 1;
            }
        }
    }
    assert!(checked > 500, "expected plenty of face quads, only saw {checked}");
}

fn region_for(gen: &WorldGen, cx: i32, cy: i32, cz: i32) -> Vec<u8> {
    let mut out = vec![0u8; REGION_BLOCKS];
    let ox = cx * CHUNK - REGION_MARGIN;
    let oy = cy * CHUNK - REGION_MARGIN;
    let oz = cz * CHUNK - REGION_MARGIN;
    for y in 0..REGION {
        for z in 0..REGION {
            for x in 0..REGION {
                let b = gen.block_at(ox + x, oy + y, oz + z);
                out[idx(x, y, z)] = b.as_u8();
            }
        }
    }
    out
}

#[test]
fn mesh_has_geometry_and_valid_indices() {
    let gen = WorldGen::new(1337);
    let (cx, cy, cz) = (0, 0, 0);
    let region = region_for(&gen, cx, cy, cz);
    let mesh = flat_mesh((0, 0, 0), &region);
    assert!(!mesh.is_empty(), "terrain chunk should produce faces");
    assert_eq!(mesh.vertices.len() % VERT_STRIDE, 0);
    let vcount = mesh.vertices.len() as u32 / VERT_STRIDE as u32;
    assert!((mesh.indices.iter().copied().max().unwrap() as usize) < vcount as usize);
    for v in mesh.vertices.chunks(VERT_STRIDE) {
        assert!((0.0..=1.0).contains(&v[3]), "light out of range: {v:?}");
        assert!((0.0..=1.0).contains(&v[4]), "uv.x out of range: {v:?}");
        assert!((0.0..=1.0).contains(&v[5]), "uv.y out of range: {v:?}");
        assert!(
            (v[6] as usize) <= TEX_HIGHLIGHT as usize,
            "unknown texture id: {v:?}"
        );
    }
    let _ = CHUNK_BLOCKS;
}

#[test]
fn highlight_is_a_24_vertex_cube_around_the_block() {
    let v = flat(&highlight_vertices((3, 4, 5)));
    assert_eq!(v.len(), 24 * VERT_STRIDE);
    for c in v.chunks(VERT_STRIDE) {
        assert!((2.99..6.01).contains(&c[0]), "x {} out of range", c[0]);
        assert!((2.99..6.01).contains(&c[1]), "y {} out of range", c[1]);
        assert!((2.99..6.01).contains(&c[2]), "z {} out of range", c[2]);
        assert_eq!(c[3], 1.0, "highlight light must be full");
        assert_eq!(c[6], TEX_HIGHLIGHT as f32, "highlight tex id");
    }
}

#[test]
fn light_reaches_under_overhangs_partially() {
    let mut region = vec![0u8; REGION_BLOCKS];
    for x in 0..REGION {
        for z in 0..REGION {
            region[idx(x, 8, z)] = 3;
        }
    }
    for x in 5..21i32 {
        for z in 5..21i32 {
            region[idx(x, 12, z)] = 3;
        }
    }
    let mesh = flat_mesh((0, 0, 0), &region);
    assert!(!mesh.is_empty());
}

#[test]
fn surface_top_faces_carry_full_light_and_grass_texture() {
    let gen = WorldGen::new(1337);
    let h = gen.height(8, 8);
    let cy = ((h - 1) / 16).clamp(0, 3);
    let region = region_for(&gen, 0, cy, 0);
    let mesh = flat_mesh((0, cy * 16, 0), &region);
    let mut found = 0u32;
    for v in mesh.vertices.chunks(VERT_STRIDE) {
        if v[1] == (h + 1) as f32 && (8.0..10.0).contains(&v[0]) && (8.0..10.0).contains(&v[2]) {
            found += 1;
            assert!((v[3] - 1.0).abs() < 1e-6, "light={} at {v:?}", v[3]);
            assert_eq!(v[6], TEX_GRASS_TOP as f32, "tex at {v:?}");
        }
    }
    assert!(found >= 4, "expected the grass top face at spawn, found {found} corners");
}
fn single_block_region(b: Block) -> Vec<u8> {
    let mut region = vec![0u8; REGION_BLOCKS];
    region[idx(13, 13, 13)] = b.as_u8();
    region
}
fn face_count(vertices: &[f32], indices: &[u32]) -> (u32, u32) {
    (indices.len() as u32 / 6, vertices.len() as u32 / VERT_STRIDE as u32 / 4)
}

#[test]
fn glass_emits_faces_only_where_neighbour_is_not_solid() {
    let mesh = flat_mesh((0, 0, 0), &single_block_region(Block::Glass));
    let (opaque_faces, _) = face_count(&mesh.vertices, &mesh.indices);
    let (trans_faces, _) = face_count(&mesh.water_vertices, &mesh.water_indices);
    assert_eq!(opaque_faces, 0, "glass has no opaque geometry");
    assert_eq!(trans_faces, 6, "lone glass block shows all 6 faces");
    assert_eq!(mesh.water_vertices.len() / VERT_STRIDE, 24);
    for v in mesh.water_vertices.chunks(VERT_STRIDE) {
        assert_eq!(v[6], TEX_GLASS as f32);
    }
    let mut region = single_block_region(Block::Glass);
    region[idx(14, 13, 13)] = Block::Stone.as_u8();
    let mesh = flat_mesh((0, 0, 0), &region);
    let (trans_faces, _) = face_count(&mesh.water_vertices, &mesh.water_indices);
    assert_eq!(trans_faces, 5, "glass-stone face must be culled");
    let mut region = single_block_region(Block::Glass);
    region[idx(14, 13, 13)] = Block::Glass.as_u8();
    let mesh = flat_mesh((0, 0, 0), &region);
    let (trans_faces, _) = face_count(&mesh.water_vertices, &mesh.water_indices);
    assert_eq!(trans_faces, 10, "glass-glass face must be culled");
}

#[test]
fn flower_decals_sample_the_flower_texture() {
    let mesh = flat_mesh((0, 0, 0), &single_block_region(Block::FlowerRed));
    assert_eq!(mesh.indices.len(), 12);
    assert!(mesh.water_indices.is_empty());
    for v in mesh.vertices.chunks(VERT_STRIDE) {
        assert_eq!(v[6], TEX_FLOWER_RED as f32);
        let (u, w) = (v[4], v[5]);
        assert!((0.0..=1.0).contains(&u) && (0.0..=1.0).contains(&w));
        assert!(
            (0.42..=0.58).contains(&u) || (0.42..=0.58).contains(&w),
            "one UV axis must stay in the flower strip: {v:?}"
        );
    }
}

#[test]
fn solid_block_faces_carry_their_face_textures() {
    let mesh = flat_mesh((0, 0, 0), &single_block_region(Block::Log));
    let mut tops = 0;
    let mut sides = 0;
    for v in mesh.vertices.chunks(VERT_STRIDE) {
        match v[6] as u8 {
            TEX_LOG_TOP => tops += 1,
            TEX_LOG_SIDE => sides += 1,
            other => panic!("unexpected texture {other} on log vertex {v:?}"),
        }
    }
    assert_eq!((tops, sides), (8, 16));
    let mesh = flat_mesh((0, 0, 0), &single_block_region(Block::Stone));
    for v in mesh.vertices.chunks(VERT_STRIDE) {
        assert_eq!(v[6], TEX_STONE as f32);
    }
}

#[test]
fn water_stays_in_the_translucent_pass() {
    let mesh = flat_mesh((0, 0, 0), &single_block_region(Block::Water));
    assert!(mesh.vertices.is_empty(), "water has no opaque geometry");
    assert!(!mesh.water_vertices.is_empty(), "water must be translucent geometry");
    for v in mesh.water_vertices.chunks(VERT_STRIDE) {
        assert_eq!(v[6], TEX_WATER as f32);
    }
}

#[test]
fn sky_light_fades_under_a_roof() {
    let mut region = vec![0u8; REGION_BLOCKS];
    for x in 0..REGION {
        for z in 0..REGION {
            region[idx(x, 20, z)] = 3;
        }
    }
    region[idx(13, 20, 13)] = 0;
    let light = sky_light(&region);
    assert_eq!(light[idx(13, 25, 13)], 15);
    assert_eq!(light[idx(13, 19, 13)], 15);
    assert_eq!(light[idx(14, 19, 13)], 14);
    assert_eq!(light[idx(15, 19, 13)], 13);
    assert_eq!(light[idx(14, 20, 13)], 0);
}

#[test]
fn buried_blocks_have_no_faces() {
    let full = vec![Block::Stone.as_u8(); REGION_BLOCKS];
    assert!(flat_mesh((0, 0, 0), &full).is_empty());
}

#[test]
fn open_ground_is_fully_lit() {
    let mut region = vec![0u8; REGION_BLOCKS];
    for x in 0..REGION {
        for z in 0..REGION {
            region[idx(x, 10, z)] = Block::Stone.as_u8();
        }
    }
    let m = build_chunk_mesh((0, 0, 0), &region);
    let mut tops = 0;
    for v in m.vertices.iter().filter(|v| v.y == 6_000) {
        assert_eq!(v.light, FULL);
        tops += 1;
    }
    assert_eq!(tops, 16 * 16 * 4);
}

#[test]
fn corners_are_occluded_by_their_neighbours() {
    let mut region = vec![0u8; REGION_BLOCKS];
    assert_eq!(ao_corners(13, 14, 13, (1, 1, 1), 0, &region), (false, false, false));
    region[idx(14, 14, 13)] = 3;
    region[idx(14, 14, 14)] = 3;
    let (a, b, c) = ao_corners(13, 14, 13, (1, 1, 1), 0, &region);
    assert!(a != b && c);
}

#[test]
fn wires_run_along_one_axis() {
    let v = highlight_vertices((0, 0, 0));
    for e in v.chunks(2) {
        let moved = [e[0].x != e[1].x, e[0].y != e[1].y, e[0].z != e[1].z];
        assert_eq!(moved.iter().filter(|&&m| m).count(), 1);
    }
}
