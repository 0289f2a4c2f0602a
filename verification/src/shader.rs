//! The texts of the shaders.
//!
//! Terrain vertices carry a position, baked light, a place on the face and a
//! texture. The fragment stage looks up the texture of the block, one function for
//! each texture, multiplies by the light and fades into the sky with the distance.
//! Agents carry a colour of their own.
//!
//! The textures are written twice: in WGSL for the game, and in GLSL for the
//! off-screen pictures that a page makes of itself. The two say the same, function
//! by function, and keep to what both languages have. A texture varies along both
//! axes of its face, and varies from block to block with the whole part of the
//! position.
use vstd::prelude::*;

use crate::text::{chars_of, push_all};

verus! {

/// The pipelines of the game, in WGSL. The uniform block is laid out as
/// [`crate::uniforms`] writes it. The module is this and [`TEXTURES`].
pub const SHADER: &'static str = r#"struct Uniforms {
    view_proj: mat4x4<f32>,
    cam: vec4<f32>,
    fog_start: f32,
    fog_end: f32,
    time: f32,
    pad: f32,
    sky: vec4<f32>,
}
@group(0) @binding(0) var<uniform> u: Uniforms;

struct TerrainIn {
    @location(0) pos: vec3<f32>,
    @location(1) light: f32,
    @location(2) uv: vec2<f32>,
    @location(3) tex: f32,
}
struct TerrainOut {
    @builtin(position) clip: vec4<f32>,
    @location(0) light: f32,
    @location(1) uv: vec2<f32>,
    @location(2) tex: f32,
    @location(3) world: vec3<f32>,
}
@vertex
fn vs_main(v: TerrainIn) -> TerrainOut {
    var o: TerrainOut;
    o.clip = u.view_proj * vec4<f32>(v.pos, 1.0);
    o.light = v.light;
    o.uv = v.uv;
    o.tex = v.tex;
    o.world = v.pos;
    return o;
}
fn with_fog(c: vec3<f32>, world: vec3<f32>) -> vec3<f32> {
    let d = distance(u.cam.xyz, world);
    let t = clamp((d - u.fog_start) / (u.fog_end - u.fog_start), 0.0f, 1.0f);
    return mix(c, u.sky.xyz, t);
}
fn lit(v: TerrainOut) -> vec3<f32> {
    let c = sample_tex(v.tex, v.uv, v.world, u.time) * v.light;
    return clamp(c, vec3<f32>(0.0f), vec3<f32>(1.0f));
}
@fragment
fn fs_main(v: TerrainOut) -> @location(0) vec4<f32> {
    return vec4<f32>(with_fog(lit(v), v.world), 1.0);
}
@fragment
fn fs_water(v: TerrainOut) -> @location(0) vec4<f32> {
    return vec4<f32>(with_fog(lit(v), v.world), tex_trans_alpha(v.tex));
}

struct AgentIn {
    @location(0) pos: vec3<f32>,
    @location(1) color: vec3<f32>,
}
struct AgentOut {
    @builtin(position) clip: vec4<f32>,
    @location(0) color: vec3<f32>,
    @location(1) world: vec3<f32>,
}
@vertex
fn vs_agent(v: AgentIn) -> AgentOut {
    var o: AgentOut;
    o.clip = u.view_proj * vec4<f32>(v.pos, 1.0);
    o.color = v.color;
    o.world = v.pos;
    return o;
}
@fragment
fn fs_agent(v: AgentOut) -> @location(0) vec4<f32> {
    return vec4<f32>(with_fog(v.color, v.world), 1.0);
}
"#;

/// The textures of the blocks, in WGSL.
pub const TEXTURES: &'static str = r#"
fn tex_hash1(n: f32) -> f32 { return fract(sin(n) * 43758.5453123); }
fn tex_block_rand(world: vec3<f32>, salt: f32) -> f32 {
    let c: vec3<f32> = floor(world);
    return tex_hash1(dot(c, vec3<f32>(127.1, 311.7, 74.7)) + salt * 57.31);
}
fn tex_atan2(y: f32, x: f32) -> f32 {
    if (x == 0.0 && y == 0.0) { return 0.0; }
    let a: f32 = atan(y / x);
    if (x < 0.0) { return a + select(3.14159265, -3.14159265, y < 0.0); }
    return a;
}
fn tex_fmod(a: f32, b: f32) -> f32 { return a % b; }
fn tex_vnoise(p: vec2<f32>) -> f32 {
    let i: vec2<f32> = floor(p);
    let f: vec2<f32> = fract(p);
    let u: vec2<f32> = f * f * (3.0 - 2.0 * f);
    let a: f32 = tex_hash1(dot(i, vec2<f32>(127.1, 311.7)));
    let b: f32 = tex_hash1(dot(i + vec2<f32>(1.0, 0.0), vec2<f32>(127.1, 311.7)));
    let c: f32 = tex_hash1(dot(i + vec2<f32>(0.0, 1.0), vec2<f32>(127.1, 311.7)));
    let d: f32 = tex_hash1(dot(i + vec2<f32>(1.0, 1.0), vec2<f32>(127.1, 311.7)));
    return mix(mix(a, b, u.x), mix(c, d, u.x), u.y);
}
fn tex_grass_top(uv: vec2<f32>, world: vec3<f32>, time: f32) -> vec3<f32> {
    let r: f32 = tex_block_rand(world, 1.0);
    let n: f32 = tex_vnoise(world.xz * 6.0 + r * 17.0);
    let fine: f32 = tex_vnoise(world.xz * 22.0 + r * 31.0);
    let base: vec3<f32> = mix(vec3<f32>(0.27, 0.50, 0.20), vec3<f32>(0.40, 0.66, 0.27), n);
    return mix(base, vec3<f32>(0.47, 0.74, 0.34), smoothstep(0.72, 0.95, fine));
}
fn tex_dirt(uv: vec2<f32>, world: vec3<f32>, time: f32) -> vec3<f32> {
    let n: f32 = tex_vnoise(uv * 6.0 + vec2<f32>(tex_block_rand(world, 3.0) * 11.0, tex_block_rand(world, 4.0) * 7.0));
    let n2: f32 = tex_vnoise(uv * 18.0 + vec2<f32>(tex_block_rand(world, 5.0) * 23.0, tex_block_rand(world, 6.0) * 13.0));
    let base: vec3<f32> = mix(vec3<f32>(0.47, 0.33, 0.21), vec3<f32>(0.60, 0.44, 0.30), n);
    return base * (0.90 + 0.20 * n2);
}
fn tex_grass_side(uv: vec2<f32>, world: vec3<f32>, time: f32) -> vec3<f32> {
    let dirt: vec3<f32> = tex_dirt(uv, world, time);
    let r: f32 = tex_block_rand(world, 7.0);
    let rag: f32 = tex_vnoise(vec2<f32>(uv.x * 5.0, r * 13.0));
    let h: f32 = 0.16 + 0.10 * rag;
    let rim: f32 = smoothstep(1.0 - h - 0.03, 1.0 - h, uv.y);
    let mottle: f32 = tex_vnoise(vec2<f32>(uv.x * 9.0, uv.y * 14.0 + r * 3.0));
    let grass: vec3<f32> = vec3<f32>(0.30, 0.56, 0.22) * (0.85 + 0.30 * mottle);
    return mix(dirt, grass, rim);
}
fn tex_stone(uv: vec2<f32>, world: vec3<f32>, time: f32) -> vec3<f32> {
    let r: f32 = tex_block_rand(world, 8.0);
    let n: f32 = tex_vnoise(uv * 4.0 + vec2<f32>(r * 13.0, r * 7.0));
    let n2: f32 = tex_vnoise(uv * 11.0 + vec2<f32>(r * 29.0, r * 17.0));
    let base: vec3<f32> = mix(vec3<f32>(0.45, 0.46, 0.48), vec3<f32>(0.58, 0.59, 0.62), n);
    let crack: f32 = 1.0 - smoothstep(0.02, 0.10, n2);
    return base * (1.0 - 0.35 * crack);
}
fn tex_sand(uv: vec2<f32>, world: vec3<f32>, time: f32) -> vec3<f32> {
    let r: f32 = tex_block_rand(world, 9.0);
    let n: f32 = tex_vnoise(uv * 14.0 + vec2<f32>(r * 19.0, r * 11.0));
    let base: vec3<f32> = mix(vec3<f32>(0.83, 0.77, 0.55), vec3<f32>(0.91, 0.86, 0.64), n);
    let speck: f32 = tex_vnoise(uv * 40.0 + vec2<f32>(r * 7.0, r * 5.0));
    return base * (0.94 + 0.12 * speck);
}
fn tex_water(uv: vec2<f32>, world: vec3<f32>, time: f32) -> vec3<f32> {
    let w1: f32 = sin(world.x * 4.7 + time * 1.9 + sin(world.z * 3.3 + time * 1.3) * 0.8);
    let w2: f32 = sin(world.z * 5.3 - time * 1.7 + world.x * 2.1);
    let ripple: f32 = 0.5 + 0.5 * (w1 * 0.6 + w2 * 0.4);
    let base: vec3<f32> = vec3<f32>(0.20, 0.40, 0.80);
    let light: vec3<f32> = vec3<f32>(0.32, 0.55, 0.92);
    return mix(base, light, ripple * 0.7);
}
fn tex_log_side(uv: vec2<f32>, world: vec3<f32>, time: f32) -> vec3<f32> {
    let r: f32 = tex_block_rand(world, 10.0);
    let wobble: f32 = tex_vnoise(vec2<f32>(uv.x * 3.0 + r * 7.0, uv.y * 4.0 + r * 3.0));
    let s: f32 = 0.5 + 0.5 * sin(uv.x * 28.0 + wobble * 5.0 + r * 20.0);
    let n: f32 = tex_vnoise(vec2<f32>(uv.x * 8.0 + r * 31.0, uv.y * 6.0 + r * 17.0));
    return mix(vec3<f32>(0.32, 0.22, 0.12), vec3<f32>(0.55, 0.40, 0.24), 0.25 + 0.55 * s * 0.5 + 0.25 * n);
}
fn tex_log_top(uv: vec2<f32>, world: vec3<f32>, time: f32) -> vec3<f32> {
    let r: f32 = tex_block_rand(world, 11.0);
    let d: f32 = length(uv - vec2<f32>(0.5, 0.5)) * 2.0;
    let ring: f32 = 0.5 + 0.5 * sin(d * 20.0 + r * 9.0);
    let base: vec3<f32> = mix(vec3<f32>(0.55, 0.42, 0.25), vec3<f32>(0.72, 0.58, 0.38), ring);
    let bark: f32 = 1.0 - smoothstep(0.86, 0.98, d);
    return mix(base, vec3<f32>(0.36, 0.26, 0.14), 1.0 - bark);
}
fn tex_leaves(uv: vec2<f32>, world: vec3<f32>, time: f32) -> vec3<f32> {
    let r: f32 = tex_block_rand(world, 12.0);
    let n: f32 = tex_vnoise(uv * 7.0 + vec2<f32>(r * 15.0, r * 23.0));
    let n2: f32 = tex_vnoise(uv * 16.0 + vec2<f32>(r * 41.0, r * 29.0));
    let base: vec3<f32> = mix(vec3<f32>(0.13, 0.30, 0.10), vec3<f32>(0.24, 0.48, 0.16), n);
    let hole: f32 = 1.0 - smoothstep(0.15, 0.35, n2);
    return base * (1.0 - 0.55 * hole);
}
fn tex_snow_top(uv: vec2<f32>, world: vec3<f32>, time: f32) -> vec3<f32> {
    let r: f32 = tex_block_rand(world, 13.0);
    let n: f32 = tex_vnoise(uv * 10.0 + vec2<f32>(r * 21.0, r * 19.0));
    return mix(vec3<f32>(0.88, 0.91, 0.96), vec3<f32>(0.97, 0.98, 1.0), n);
}
fn tex_snow_side(uv: vec2<f32>, world: vec3<f32>, time: f32) -> vec3<f32> {
    let dirt: vec3<f32> = tex_dirt(uv, world, time);
    let r: f32 = tex_block_rand(world, 14.0);
    let rag: f32 = tex_vnoise(vec2<f32>(uv.x * 5.0, r * 23.0));
    let h: f32 = 0.22 + 0.12 * rag;
    let rim: f32 = smoothstep(1.0 - h - 0.03, 1.0 - h, uv.y);
    let snow: vec3<f32> = tex_snow_top(uv, world, time);
    return mix(dirt, snow, rim);
}
fn tex_flower_red(uv: vec2<f32>, world: vec3<f32>, time: f32) -> vec3<f32> {
    let p: vec2<f32> = uv - vec2<f32>(0.5, 0.5);
    let d: f32 = length(p);
    let petal: f32 = 0.5 + 0.5 * sin(tex_atan2(p.y, p.x) * 5.0 + tex_block_rand(world, 15.0) * 3.14159);
    let c: vec3<f32> = mix(vec3<f32>(0.70, 0.14, 0.12), vec3<f32>(0.92, 0.26, 0.22), petal);
    let core: f32 = 1.0 - smoothstep(0.05, 0.14, d);
    return mix(c, vec3<f32>(0.95, 0.82, 0.30), core);
}
fn tex_flower_yellow(uv: vec2<f32>, world: vec3<f32>, time: f32) -> vec3<f32> {
    let p: vec2<f32> = uv - vec2<f32>(0.5, 0.5);
    let d: f32 = length(p);
    let petal: f32 = 0.5 + 0.5 * sin(tex_atan2(p.y, p.x) * 5.0 + tex_block_rand(world, 16.0) * 3.14159);
    let c: vec3<f32> = mix(vec3<f32>(0.85, 0.70, 0.16), vec3<f32>(0.96, 0.84, 0.30), petal);
    let core: f32 = 1.0 - smoothstep(0.05, 0.14, d);
    return mix(c, vec3<f32>(0.55, 0.35, 0.10), core);
}
fn tex_planks(uv: vec2<f32>, world: vec3<f32>, time: f32) -> vec3<f32> {
    let r: f32 = tex_block_rand(world, 17.0);
    let row: f32 = floor(uv.y * 4.0);
    let y: f32 = fract(uv.y * 4.0);
    let x: f32 = fract(uv.x * 2.0 + tex_fmod(row, 2.0) * 0.5 + r);
    let wobble: f32 = tex_vnoise(vec2<f32>(uv.x * 3.0 + row * 5.0, y * 6.0 + r * 9.0));
    let grain: f32 = 0.5 + 0.5 * sin((uv.x * 24.0 + row * 7.0 + r * 10.0) * 1.5708 + wobble * 3.0);
    let streak: f32 = tex_vnoise(vec2<f32>(uv.x * 5.0 + row * 11.0, y * 20.0 + r * 7.0));
    let base: vec3<f32> = mix(vec3<f32>(0.62, 0.45, 0.26), vec3<f32>(0.76, 0.58, 0.36), grain * (0.7 + 0.3 * streak));
    let seam: f32 = min(smoothstep(0.0, 0.05, x), smoothstep(0.0, 0.08, y));
    return base * (0.72 + 0.28 * seam);
}
fn tex_cobble(uv: vec2<f32>, world: vec3<f32>, time: f32) -> vec3<f32> {
    let r: f32 = tex_block_rand(world, 18.0);
    let p: vec2<f32> = uv * 3.0;
    let i: vec2<f32> = floor(p);
    let f: vec2<f32> = fract(p);
    let h1: f32 = tex_hash1(dot(i, vec2<f32>(127.1, 311.7)) + r * 13.0);
    let h2: f32 = tex_hash1(dot(i + vec2<f32>(37.7, 91.3), vec2<f32>(127.1, 311.7)) + r * 7.0);
    let o: vec2<f32> = vec2<f32>(0.3 + 0.4 * h1, 0.3 + 0.4 * h2);
    let d: f32 = length(f - o);
    let stone: f32 = 1.0 - smoothstep(0.18, 0.42, d);
    let shade: vec3<f32> = mix(vec3<f32>(0.42, 0.43, 0.46), vec3<f32>(0.62, 0.63, 0.66), h2);
    let n: f32 = tex_vnoise(uv * 12.0 + vec2<f32>(r * 31.0, r * 19.0));
    let stone_c: vec3<f32> = shade * (0.85 + 0.30 * n);
    return mix(vec3<f32>(0.22, 0.23, 0.25), stone_c, stone);
}
fn tex_brick(uv: vec2<f32>, world: vec3<f32>, time: f32) -> vec3<f32> {
    let r: f32 = tex_block_rand(world, 19.0);
    let row: f32 = floor(uv.y * 4.0);
    let by: f32 = fract(uv.y * 4.0);
    let bx: f32 = fract(uv.x * 2.0 + tex_fmod(row, 2.0) * 0.5);
    let bi: f32 = floor(uv.x * 2.0 + tex_fmod(row, 2.0) * 0.5);
    let h: f32 = tex_hash1(dot(vec2<f32>(bi, row), vec2<f32>(127.1, 311.7)) + r * 17.0);
    let brick: vec3<f32> = mix(vec3<f32>(0.55, 0.24, 0.18), vec3<f32>(0.68, 0.32, 0.25), h);
    let mortar: vec3<f32> = vec3<f32>(0.75, 0.73, 0.68);
    let mask: f32 = max(1.0 - smoothstep(0.0, 0.06, bx), 1.0 - smoothstep(0.0, 0.10, by));
    return mix(brick, mortar, mask);
}
fn tex_glass(uv: vec2<f32>, world: vec3<f32>, time: f32) -> vec3<f32> {
    let r: f32 = tex_block_rand(world, 20.0);
    let base: vec3<f32> = vec3<f32>(0.78, 0.88, 0.94);
    let e: f32 = min(min(uv.x, 1.0 - uv.x), min(uv.y, 1.0 - uv.y));
    let frame: f32 = 1.0 - smoothstep(0.05, 0.10, e);
    let c: vec3<f32> = mix(base, vec3<f32>(0.92, 0.97, 1.0), frame);
    let g: f32 = 1.0 - smoothstep(0.04, 0.16, abs(fract(uv.x * 0.8 + uv.y * 0.6 + r) - 0.5));
    return c + g * 0.15;
}
fn tex_tnt_side(uv: vec2<f32>, world: vec3<f32>, time: f32) -> vec3<f32> {
    let r: f32 = tex_block_rand(world, 21.0);
    let n: f32 = tex_vnoise(uv * 8.0 + vec2<f32>(r * 11.0, r * 7.0));
    let red: vec3<f32> = mix(vec3<f32>(0.72, 0.20, 0.14), vec3<f32>(0.88, 0.30, 0.20), n);
    let band: f32 = step(0.42, uv.y) * (1.0 - step(0.62, uv.y));
    let dash: f32 = step(0.5, fract(uv.x * 4.0 + r));
    let label: vec3<f32> = mix(vec3<f32>(0.93, 0.90, 0.82), vec3<f32>(0.15, 0.13, 0.12), dash);
    return mix(red, label, band);
}
fn tex_tnt_top(uv: vec2<f32>, world: vec3<f32>, time: f32) -> vec3<f32> {
    let r: f32 = tex_block_rand(world, 22.0);
    let n: f32 = tex_vnoise(uv * 6.0 + vec2<f32>(r * 13.0, r * 9.0));
    let red: vec3<f32> = mix(vec3<f32>(0.75, 0.22, 0.15), vec3<f32>(0.88, 0.32, 0.22), n);
    let e: f32 = min(min(uv.x, 1.0 - uv.x), min(uv.y, 1.0 - uv.y));
    let rim: f32 = 1.0 - smoothstep(0.06, 0.12, e);
    return mix(red, vec3<f32>(0.93, 0.90, 0.82), rim);
}
fn tex_obsidian(uv: vec2<f32>, world: vec3<f32>, time: f32) -> vec3<f32> {
    let r: f32 = tex_block_rand(world, 23.0);
    let n: f32 = tex_vnoise(uv * 5.0 + vec2<f32>(r * 19.0, r * 17.0));
    let n2: f32 = tex_vnoise(uv * 17.0 + vec2<f32>(r * 29.0, r * 23.0));
    let base: vec3<f32> = mix(vec3<f32>(0.07, 0.04, 0.10), vec3<f32>(0.16, 0.10, 0.22), n);
    let speck: f32 = smoothstep(0.75, 0.95, n2);
    return base + vec3<f32>(0.35, 0.25, 0.55) * speck * 0.5;
}
fn tex_highlight(uv: vec2<f32>, world: vec3<f32>, time: f32) -> vec3<f32> {
    return vec3<f32>(0.03, 0.03, 0.03);
}
// The id arrives interpolated, so it is told apart by thresholds.
fn sample_tex(tex: f32, uv: vec2<f32>, world: vec3<f32>, time: f32) -> vec3<f32> {
    if (tex < 0.5) { return tex_grass_top(uv, world, time); }
    if (tex < 1.5) { return tex_grass_side(uv, world, time); }
    if (tex < 2.5) { return tex_dirt(uv, world, time); }
    if (tex < 3.5) { return tex_stone(uv, world, time); }
    if (tex < 4.5) { return tex_sand(uv, world, time); }
    if (tex < 5.5) { return tex_water(uv, world, time); }
    if (tex < 6.5) { return tex_log_side(uv, world, time); }
    if (tex < 7.5) { return tex_log_top(uv, world, time); }
    if (tex < 8.5) { return tex_leaves(uv, world, time); }
    if (tex < 9.5) { return tex_snow_top(uv, world, time); }
    if (tex < 10.5) { return tex_snow_side(uv, world, time); }
    if (tex < 11.5) { return tex_flower_red(uv, world, time); }
    if (tex < 12.5) { return tex_flower_yellow(uv, world, time); }
    if (tex < 13.5) { return tex_planks(uv, world, time); }
    if (tex < 14.5) { return tex_cobble(uv, world, time); }
    if (tex < 15.5) { return tex_brick(uv, world, time); }
    if (tex < 16.5) { return tex_glass(uv, world, time); }
    if (tex < 17.5) { return tex_tnt_side(uv, world, time); }
    if (tex < 18.5) { return tex_tnt_top(uv, world, time); }
    if (tex < 19.5) { return tex_obsidian(uv, world, time); }
    if (tex < 20.5) { return tex_highlight(uv, world, time); }
    return vec3<f32>(1.0, 0.0, 1.0);
}
fn tex_trans_alpha(tex: f32) -> f32 {
    if (tex > 15.5 && tex < 16.5) { return 0.30; }
    return 0.62;
}
"#;

/// The vertex stage of the pictures, in GLSL.
pub const VS: &'static str = r#"#version 300 es
layout(location=0) in vec3 a_pos;
layout(location=1) in float a_light;
layout(location=2) in vec2 a_uv;
layout(location=3) in float a_tex;
uniform mat4 u_vp;
out float v_light;
out vec2 v_uv;
out float v_tex;
out vec3 v_world;
void main() {
    gl_Position = u_vp * vec4(a_pos, 1.0);
    v_light = a_light;
    v_uv = a_uv;
    v_tex = a_tex;
    v_world = a_pos;
}
"#;

/// The textures of the blocks, in GLSL.
pub const TEX_LIB: &'static str = r#"
float tex_hash1(float n) { return fract(sin(n) * 43758.5453123); }
float tex_block_rand(vec3 world, float salt) {
    vec3 c = floor(world);
    return tex_hash1(dot(c, vec3(127.1, 311.7, 74.7)) + salt * 57.31);
}
float tex_atan2(float y, float x) {
    if (x == 0.0 && y == 0.0) { return 0.0; }
    float a = atan(y / x);
    if (x < 0.0) { return a + (y < 0.0 ? -3.14159265 : 3.14159265); }
    return a;
}
float tex_fmod(float a, float b) { return mod(a, b); }
float tex_vnoise(vec2 p) {
    vec2 i = floor(p);
    vec2 f = fract(p);
    vec2 u = f * f * (3.0 - 2.0 * f);
    float a = tex_hash1(dot(i, vec2(127.1, 311.7)));
    float b = tex_hash1(dot(i + vec2(1.0, 0.0), vec2(127.1, 311.7)));
    float c = tex_hash1(dot(i + vec2(0.0, 1.0), vec2(127.1, 311.7)));
    float d = tex_hash1(dot(i + vec2(1.0, 1.0), vec2(127.1, 311.7)));
    return mix(mix(a, b, u.x), mix(c, d, u.x), u.y);
}
vec3 tex_grass_top(vec2 uv, vec3 world, float time) {
    float r = tex_block_rand(world, 1.0);
    float n = tex_vnoise(world.xz * 6.0 + r * 17.0);
    float fine = tex_vnoise(world.xz * 22.0 + r * 31.0);
    vec3 base = mix(vec3(0.27, 0.50, 0.20), vec3(0.40, 0.66, 0.27), n);
    return mix(base, vec3(0.47, 0.74, 0.34), smoothstep(0.72, 0.95, fine));
}
vec3 tex_dirt(vec2 uv, vec3 world, float time) {
    float n = tex_vnoise(uv * 6.0 + vec2(tex_block_rand(world, 3.0) * 11.0, tex_block_rand(world, 4.0) * 7.0));
    float n2 = tex_vnoise(uv * 18.0 + vec2(tex_block_rand(world, 5.0) * 23.0, tex_block_rand(world, 6.0) * 13.0));
    vec3 base = mix(vec3(0.47, 0.33, 0.21), vec3(0.60, 0.44, 0.30), n);
    return base * (0.90 + 0.20 * n2);
}
vec3 tex_grass_side(vec2 uv, vec3 world, float time) {
    vec3 dirt = tex_dirt(uv, world, time);
    float r = tex_block_rand(world, 7.0);
    float rag = tex_vnoise(vec2(uv.x * 5.0, r * 13.0));
    float h = 0.16 + 0.10 * rag;
    float rim = smoothstep(1.0 - h - 0.03, 1.0 - h, uv.y);
    float mottle = tex_vnoise(vec2(uv.x * 9.0, uv.y * 14.0 + r * 3.0));
    vec3 grass = vec3(0.30, 0.56, 0.22) * (0.85 + 0.30 * mottle);
    return mix(dirt, grass, rim);
}
vec3 tex_stone(vec2 uv, vec3 world, float time) {
    float r = tex_block_rand(world, 8.0);
    float n = tex_vnoise(uv * 4.0 + vec2(r * 13.0, r * 7.0));
    float n2 = tex_vnoise(uv * 11.0 + vec2(r * 29.0, r * 17.0));
    vec3 base = mix(vec3(0.45, 0.46, 0.48), vec3(0.58, 0.59, 0.62), n);
    float crack = 1.0 - smoothstep(0.02, 0.10, n2);
    return base * (1.0 - 0.35 * crack);
}
vec3 tex_sand(vec2 uv, vec3 world, float time) {
    float r = tex_block_rand(world, 9.0);
    float n = tex_vnoise(uv * 14.0 + vec2(r * 19.0, r * 11.0));
    vec3 base = mix(vec3(0.83, 0.77, 0.55), vec3(0.91, 0.86, 0.64), n);
    float speck = tex_vnoise(uv * 40.0 + vec2(r * 7.0, r * 5.0));
    return base * (0.94 + 0.12 * speck);
}
vec3 tex_water(vec2 uv, vec3 world, float time) {
    float w1 = sin(world.x * 4.7 + time * 1.9 + sin(world.z * 3.3 + time * 1.3) * 0.8);
    float w2 = sin(world.z * 5.3 - time * 1.7 + world.x * 2.1);
    float ripple = 0.5 + 0.5 * (w1 * 0.6 + w2 * 0.4);
    vec3 base = vec3(0.20, 0.40, 0.80);
    vec3 light = vec3(0.32, 0.55, 0.92);
    return mix(base, light, ripple * 0.7);
}
vec3 tex_log_side(vec2 uv, vec3 world, float time) {
    float r = tex_block_rand(world, 10.0);
    float wobble = tex_vnoise(vec2(uv.x * 3.0 + r * 7.0, uv.y * 4.0 + r * 3.0));
    float s = 0.5 + 0.5 * sin(uv.x * 28.0 + wobble * 5.0 + r * 20.0);
    float n = tex_vnoise(vec2(uv.x * 8.0 + r * 31.0, uv.y * 6.0 + r * 17.0));
    return mix(vec3(0.32, 0.22, 0.12), vec3(0.55, 0.40, 0.24), 0.25 + 0.55 * s * 0.5 + 0.25 * n);
}
vec3 tex_log_top(vec2 uv, vec3 world, float time) {
    float r = tex_block_rand(world, 11.0);
    float d = length(uv - vec2(0.5, 0.5)) * 2.0;
    float ring = 0.5 + 0.5 * sin(d * 20.0 + r * 9.0);
    vec3 base = mix(vec3(0.55, 0.42, 0.25), vec3(0.72, 0.58, 0.38), ring);
    float bark = 1.0 - smoothstep(0.86, 0.98, d);
    return mix(base, vec3(0.36, 0.26, 0.14), 1.0 - bark);
}
vec3 tex_leaves(vec2 uv, vec3 world, float time) {
    float r = tex_block_rand(world, 12.0);
    float n = tex_vnoise(uv * 7.0 + vec2(r * 15.0, r * 23.0));
    float n2 = tex_vnoise(uv * 16.0 + vec2(r * 41.0, r * 29.0));
    vec3 base = mix(vec3(0.13, 0.30, 0.10), vec3(0.24, 0.48, 0.16), n);
    float hole = 1.0 - smoothstep(0.15, 0.35, n2);
    return base * (1.0 - 0.55 * hole);
}
vec3 tex_snow_top(vec2 uv, vec3 world, float time) {
    float r = tex_block_rand(world, 13.0);
    float n = tex_vnoise(uv * 10.0 + vec2(r * 21.0, r * 19.0));
    return mix(vec3(0.88, 0.91, 0.96), vec3(0.97, 0.98, 1.0), n);
}
vec3 tex_snow_side(vec2 uv, vec3 world, float time) {
    vec3 dirt = tex_dirt(uv, world, time);
    float r = tex_block_rand(world, 14.0);
    float rag = tex_vnoise(vec2(uv.x * 5.0, r * 23.0));
    float h = 0.22 + 0.12 * rag;
    float rim = smoothstep(1.0 - h - 0.03, 1.0 - h, uv.y);
    vec3 snow = tex_snow_top(uv, world, time);
    return mix(dirt, snow, rim);
}
vec3 tex_flower_red(vec2 uv, vec3 world, float time) {
    vec2 p = uv - vec2(0.5, 0.5);
    float d = length(p);
    float petal = 0.5 + 0.5 * sin(tex_atan2(p.y, p.x) * 5.0 + tex_block_rand(world, 15.0) * 3.14159);
    vec3 c = mix(vec3(0.70, 0.14, 0.12), vec3(0.92, 0.26, 0.22), petal);
    float core = 1.0 - smoothstep(0.05, 0.14, d);
    return mix(c, vec3(0.95, 0.82, 0.30), core);
}
vec3 tex_flower_yellow(vec2 uv, vec3 world, float time) {
    vec2 p = uv - vec2(0.5, 0.5);
    float d = length(p);
    float petal = 0.5 + 0.5 * sin(tex_atan2(p.y, p.x) * 5.0 + tex_block_rand(world, 16.0) * 3.14159);
    vec3 c = mix(vec3(0.85, 0.70, 0.16), vec3(0.96, 0.84, 0.30), petal);
    float core = 1.0 - smoothstep(0.05, 0.14, d);
    return mix(c, vec3(0.55, 0.35, 0.10), core);
}
vec3 tex_planks(vec2 uv, vec3 world, float time) {
    float r = tex_block_rand(world, 17.0);
    float row = floor(uv.y * 4.0);
    float y = fract(uv.y * 4.0);
    float x = fract(uv.x * 2.0 + tex_fmod(row, 2.0) * 0.5 + r);
    float wobble = tex_vnoise(vec2(uv.x * 3.0 + row * 5.0, y * 6.0 + r * 9.0));
    float grain = 0.5 + 0.5 * sin((uv.x * 24.0 + row * 7.0 + r * 10.0) * 1.5708 + wobble * 3.0);
    float streak = tex_vnoise(vec2(uv.x * 5.0 + row * 11.0, y * 20.0 + r * 7.0));
    vec3 base = mix(vec3(0.62, 0.45, 0.26), vec3(0.76, 0.58, 0.36), grain * (0.7 + 0.3 * streak));
    float seam = min(smoothstep(0.0, 0.05, x), smoothstep(0.0, 0.08, y));
    return base * (0.72 + 0.28 * seam);
}
vec3 tex_cobble(vec2 uv, vec3 world, float time) {
    float r = tex_block_rand(world, 18.0);
    vec2 p = uv * 3.0;
    vec2 i = floor(p);
    vec2 f = fract(p);
    float h1 = tex_hash1(dot(i, vec2(127.1, 311.7)) + r * 13.0);
    float h2 = tex_hash1(dot(i + vec2(37.7, 91.3), vec2(127.1, 311.7)) + r * 7.0);
    vec2 o = vec2(0.3 + 0.4 * h1, 0.3 + 0.4 * h2);
    float d = length(f - o);
    float stone = 1.0 - smoothstep(0.18, 0.42, d);
    vec3 shade = mix(vec3(0.42, 0.43, 0.46), vec3(0.62, 0.63, 0.66), h2);
    float n = tex_vnoise(uv * 12.0 + vec2(r * 31.0, r * 19.0));
    vec3 stone_c = shade * (0.85 + 0.30 * n);
    return mix(vec3(0.22, 0.23, 0.25), stone_c, stone);
}
vec3 tex_brick(vec2 uv, vec3 world, float time) {
    float r = tex_block_rand(world, 19.0);
    float row = floor(uv.y * 4.0);
    float by = fract(uv.y * 4.0);
    float bx = fract(uv.x * 2.0 + tex_fmod(row, 2.0) * 0.5);
    float bi = floor(uv.x * 2.0 + tex_fmod(row, 2.0) * 0.5);
    float h = tex_hash1(dot(vec2(bi, row), vec2(127.1, 311.7)) + r * 17.0);
    vec3 brick = mix(vec3(0.55, 0.24, 0.18), vec3(0.68, 0.32, 0.25), h);
    vec3 mortar = vec3(0.75, 0.73, 0.68);
    float mask = max(1.0 - smoothstep(0.0, 0.06, bx), 1.0 - smoothstep(0.0, 0.10, by));
    return mix(brick, mortar, mask);
}
vec3 tex_glass(vec2 uv, vec3 world, float time) {
    float r = tex_block_rand(world, 20.0);
    vec3 base = vec3(0.78, 0.88, 0.94);
    float e = min(min(uv.x, 1.0 - uv.x), min(uv.y, 1.0 - uv.y));
    float frame = 1.0 - smoothstep(0.05, 0.10, e);
    vec3 c = mix(base, vec3(0.92, 0.97, 1.0), frame);
    float g = 1.0 - smoothstep(0.04, 0.16, abs(fract(uv.x * 0.8 + uv.y * 0.6 + r) - 0.5));
    return c + g * 0.15;
}
vec3 tex_tnt_side(vec2 uv, vec3 world, float time) {
    float r = tex_block_rand(world, 21.0);
    float n = tex_vnoise(uv * 8.0 + vec2(r * 11.0, r * 7.0));
    vec3 red = mix(vec3(0.72, 0.20, 0.14), vec3(0.88, 0.30, 0.20), n);
    float band = step(0.42, uv.y) * (1.0 - step(0.62, uv.y));
    float dash = step(0.5, fract(uv.x * 4.0 + r));
    vec3 label = mix(vec3(0.93, 0.90, 0.82), vec3(0.15, 0.13, 0.12), dash);
    return mix(red, label, band);
}
vec3 tex_tnt_top(vec2 uv, vec3 world, float time) {
    float r = tex_block_rand(world, 22.0);
    float n = tex_vnoise(uv * 6.0 + vec2(r * 13.0, r * 9.0));
    vec3 red = mix(vec3(0.75, 0.22, 0.15), vec3(0.88, 0.32, 0.22), n);
    float e = min(min(uv.x, 1.0 - uv.x), min(uv.y, 1.0 - uv.y));
    float rim = 1.0 - smoothstep(0.06, 0.12, e);
    return mix(red, vec3(0.93, 0.90, 0.82), rim);
}
vec3 tex_obsidian(vec2 uv, vec3 world, float time) {
    float r = tex_block_rand(world, 23.0);
    float n = tex_vnoise(uv * 5.0 + vec2(r * 19.0, r * 17.0));
    float n2 = tex_vnoise(uv * 17.0 + vec2(r * 29.0, r * 23.0));
    vec3 base = mix(vec3(0.07, 0.04, 0.10), vec3(0.16, 0.10, 0.22), n);
    float speck = smoothstep(0.75, 0.95, n2);
    return base + vec3(0.35, 0.25, 0.55) * speck * 0.5;
}
vec3 tex_highlight(vec2 uv, vec3 world, float time) {
    return vec3(0.03, 0.03, 0.03);
}
// The id arrives interpolated, so it is told apart by thresholds.
vec3 sample_tex(float tex, vec2 uv, vec3 world, float time) {
    if (tex < 0.5) { return tex_grass_top(uv, world, time); }
    if (tex < 1.5) { return tex_grass_side(uv, world, time); }
    if (tex < 2.5) { return tex_dirt(uv, world, time); }
    if (tex < 3.5) { return tex_stone(uv, world, time); }
    if (tex < 4.5) { return tex_sand(uv, world, time); }
    if (tex < 5.5) { return tex_water(uv, world, time); }
    if (tex < 6.5) { return tex_log_side(uv, world, time); }
    if (tex < 7.5) { return tex_log_top(uv, world, time); }
    if (tex < 8.5) { return tex_leaves(uv, world, time); }
    if (tex < 9.5) { return tex_snow_top(uv, world, time); }
    if (tex < 10.5) { return tex_snow_side(uv, world, time); }
    if (tex < 11.5) { return tex_flower_red(uv, world, time); }
    if (tex < 12.5) { return tex_flower_yellow(uv, world, time); }
    if (tex < 13.5) { return tex_planks(uv, world, time); }
    if (tex < 14.5) { return tex_cobble(uv, world, time); }
    if (tex < 15.5) { return tex_brick(uv, world, time); }
    if (tex < 16.5) { return tex_glass(uv, world, time); }
    if (tex < 17.5) { return tex_tnt_side(uv, world, time); }
    if (tex < 18.5) { return tex_tnt_top(uv, world, time); }
    if (tex < 19.5) { return tex_obsidian(uv, world, time); }
    if (tex < 20.5) { return tex_highlight(uv, world, time); }
    return vec3(1.0, 0.0, 1.0);
}
float tex_trans_alpha(float tex) {
    if (tex > 15.5 && tex < 16.5) { return 0.30; }
    return 0.62;
}
"#;

/// What the fragment stages of the pictures begin with.
pub const FS_HEAD: &'static str = r#"#version 300 es
precision highp float;
in float v_light;
in vec2 v_uv;
in float v_tex;
in vec3 v_world;
uniform vec3 u_cam;
uniform float u_fog_start;
uniform float u_fog_end;
uniform float u_time;
uniform vec3 u_sky;
out vec4 o;
"#;

/// The fragment stage for what is opaque.
pub const FS_MAIN: &'static str = r#"
void main() {
    vec3 c = clamp(sample_tex(v_tex, v_uv, v_world, u_time) * v_light, 0.0, 1.0);
    float d = distance(u_cam, v_world);
    float t = clamp((d - u_fog_start) / (u_fog_end - u_fog_start), 0.0, 1.0);
    o = vec4(mix(c, u_sky, t), 1.0);
}
"#;

/// The fragment stage for what is translucent.
pub const FS_W_MAIN: &'static str = r#"
void main() {
    vec3 c = clamp(sample_tex(v_tex, v_uv, v_world, u_time) * v_light, 0.0, 1.0);
    float d = distance(u_cam, v_world);
    float t = clamp((d - u_fog_start) / (u_fog_end - u_fog_start), 0.0, 1.0);
    o = vec4(mix(c, u_sky, t), tex_trans_alpha(v_tex));
}
"#;

/// A fragment stage: what all begin with, the textures, and its own part.
pub fn fs_source(main: &str) -> (s: String)
    ensures
        s@ == FS_HEAD@ + TEX_LIB@ + main@,
{
    let mut s: String = FS_HEAD.to_owned();
    push_all(&mut s, chars_of(TEX_LIB).as_slice());
    push_all(&mut s, chars_of(main).as_slice());
    s
}

/// The whole module of the game.
pub fn module_source() -> (s: String)
    ensures
        s@ == SHADER@ + TEXTURES@,
{
    let mut s: String = SHADER.to_owned();
    push_all(&mut s, chars_of(TEXTURES).as_slice());
    s
}

} // verus!
