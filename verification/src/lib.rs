//! Qwencraft: the logic of a voxel sandbox.
//!
//! A lazily generated world of 16-cubed chunks over deterministic terrain, the
//! edits players make to it, the binary formats that carry it over the wire and
//! onto disk, the meshes that draw it, and the decisions of the headless server
//! and of the browser client around all of these.
#![allow(unused_imports)]

pub mod agent;
pub mod block;
pub mod building;
pub mod chunk_set;
pub mod chunk_table;
pub mod chunk_table_laws;
pub mod column_top;
pub mod compaction;
pub mod controls;
pub mod coords;
pub mod frame;
pub mod http;
pub mod input;
pub mod light;
pub mod link;
pub mod map;
pub mod mesh;
pub mod mesh_laws;
pub mod opts;
pub mod page_laws;
pub mod pages;
pub mod physics;
pub mod picture;
pub mod picture_laws;
pub mod pool;
pub mod pool_laws;
pub mod protocol;
pub mod protocol_laws;
pub mod registry;
pub mod save;
pub mod server_laws;
pub mod session;
pub mod shader;
pub mod sphere;
pub mod stats;
pub mod stream;
pub mod tags;
pub mod terrain;
pub mod terrain_laws;
pub mod text;
pub mod text_laws;
pub mod tick;
pub mod tls;
pub mod uniforms;
pub mod url;
pub mod wire;
pub mod world;
pub mod world_laws;
