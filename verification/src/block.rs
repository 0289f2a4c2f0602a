//! The block registry: every kind of block and all that the game knows of it.
//!
//! An entry fixes a block's identity (id, name), its physics (solid, water,
//! translucent, decal), what players may do with it, the texture ids of its
//! three face orientations, and a plain colour per orientation for whatever
//! draws without a GPU (minimap, hotbar).
use vstd::prelude::*;

verus! {

/// A kind of block. Buffers store its id, one byte (see [`Block::as_u8`]).
#[derive(Clone, Copy, PartialEq, Eq, Structural, Hash, Debug)]
pub enum Block {
    Air,
    Grass,
    Dirt,
    Stone,
    Sand,
    Water,
    Log,
    Leaves,
    SnowGrass,
    FlowerRed,
    FlowerYellow,
    Planks,
    Cobblestone,
    Brick,
    Glass,
    Tnt,
    Obsidian,
}

// Texture ids: the index of a face texture in the shaders' dispatch.
pub const TEX_GRASS_TOP: u8 = 0;
pub const TEX_GRASS_SIDE: u8 = 1;
pub const TEX_DIRT: u8 = 2;
pub const TEX_STONE: u8 = 3;
pub const TEX_SAND: u8 = 4;
pub const TEX_WATER: u8 = 5;
pub const TEX_LOG_SIDE: u8 = 6;
pub const TEX_LOG_TOP: u8 = 7;
pub const TEX_LEAVES: u8 = 8;
pub const TEX_SNOW_TOP: u8 = 9;
pub const TEX_SNOW_SIDE: u8 = 10;
pub const TEX_FLOWER_RED: u8 = 11;
pub const TEX_FLOWER_YELLOW: u8 = 12;
pub const TEX_PLANKS: u8 = 13;
pub const TEX_COBBLE: u8 = 14;
pub const TEX_BRICK: u8 = 15;
pub const TEX_GLASS: u8 = 16;
pub const TEX_TNT_SIDE: u8 = 17;
pub const TEX_TNT_TOP: u8 = 18;
pub const TEX_OBSIDIAN: u8 = 19;

/// The constant dark texture of the wireframe around the targeted block.
pub const TEX_HIGHLIGHT: u8 = 20;

/// Number of entries of the registry: ids run from 0 to one less.
pub const BLOCK_COUNT: u8 = 17;

/// The blocks that players place, in hotbar order.
pub const PLACEABLE: [Block; 13] = [
    Block::Grass,
    Block::Dirt,
    Block::Stone,
    Block::Sand,
    Block::Log,
    Block::Leaves,
    Block::SnowGrass,
    Block::Planks,
    Block::Cobblestone,
    Block::Brick,
    Block::Glass,
    Block::Tnt,
    Block::Obsidian,
];

/// A colour: red, green and blue in hundredths of full intensity.
#[derive(Clone, Copy, PartialEq, Eq, Structural, Debug)]
pub struct Rgb {
    pub r: u8,
    pub g: u8,
    pub b: u8,
}

/// What the game knows of a kind of block.
#[derive(Clone, Copy, Debug)]
pub struct BlockInfo {
    pub id: u8,
    pub name: &'static str,
    /// Takes part in collision, light occlusion and ambient occlusion.
    pub solid: bool,
    /// Passable, swum through, drawn translucent.
    pub water: bool,
    /// Solid, but drawn in the translucent pass.
    pub translucent: bool,
    /// Passable ground decal, drawn as a flat cross.
    pub flower: bool,
    /// May be placed by players.
    pub placeable: bool,
    /// May be broken by players.
    pub breakable: bool,
    /// Texture id of the top face.
    pub tex_top: u8,
    /// Texture id of the four side faces.
    pub tex_side: u8,
    /// Texture id of the bottom face.
    pub tex_bottom: u8,
    /// Colour of the top face.
    pub color_top: Rgb,
    /// Colour of the side faces.
    pub color_side: Rgb,
    /// Colour of the bottom face.
    pub color_bottom: Rgb,
}

impl Block {
    /// The id of a kind of block.
    pub open spec fn id(self) -> u8 {
        match self {
            Block::Air => 0,
            Block::Grass => 1,
            Block::Dirt => 2,
            Block::Stone => 3,
            Block::Sand => 4,
            Block::Water => 5,
            Block::Log => 6,
            Block::Leaves => 7,
            Block::SnowGrass => 8,
            Block::FlowerRed => 9,
            Block::FlowerYellow => 10,
            Block::Planks => 11,
            Block::Cobblestone => 12,
            Block::Brick => 13,
            Block::Glass => 14,
            Block::Tnt => 15,
            Block::Obsidian => 16,
        }
    }

    /// The kind of block that an id stands for; an unknown id stands for air.
    pub open spec fn spec_from_u8(v: u8) -> Block {
        match v {
            1 => Block::Grass,
            2 => Block::Dirt,
            3 => Block::Stone,
            4 => Block::Sand,
            5 => Block::Water,
            6 => Block::Log,
            7 => Block::Leaves,
            8 => Block::SnowGrass,
            9 => Block::FlowerRed,
            10 => Block::FlowerYellow,
            11 => Block::Planks,
            12 => Block::Cobblestone,
            13 => Block::Brick,
            14 => Block::Glass,
            15 => Block::Tnt,
            16 => Block::Obsidian,
            _ => Block::Air,
        }
    }

    pub open spec fn spec_name(self) -> Seq<char> {
        match self {
            Block::Air => "Air"@,
            Block::Grass => "Grass"@,
            Block::Dirt => "Dirt"@,
            Block::Stone => "Stone"@,
            Block::Sand => "Sand"@,
            Block::Water => "Water"@,
            Block::Log => "Log"@,
            Block::Leaves => "Leaves"@,
            Block::SnowGrass => "Snow Grass"@,
            Block::FlowerRed => "Red Flower"@,
            Block::FlowerYellow => "Yellow Flower"@,
            Block::Planks => "Planks"@,
            Block::Cobblestone => "Cobblestone"@,
            Block::Brick => "Brick"@,
            Block::Glass => "Glass"@,
            Block::Tnt => "TNT"@,
            Block::Obsidian => "Obsidian"@,
        }
    }

    /// Water is passable, and so are the decals; air is nothing at all.
    pub open spec fn spec_is_solid(self) -> bool {
        !(self is Air || self is Water || self is FlowerRed || self is FlowerYellow)
    }

    pub open spec fn spec_is_water(self) -> bool {
        self is Water
    }

    pub open spec fn spec_is_translucent(self) -> bool {
        self is Glass
    }

    pub open spec fn spec_is_flower(self) -> bool {
        self is FlowerRed || self is FlowerYellow
    }

    /// Players build with every solid block.
    pub open spec fn spec_is_placeable(self) -> bool {
        self.spec_is_solid()
    }

    /// Players break everything but air and water.
    pub open spec fn spec_is_breakable(self) -> bool {
        !(self is Air || self is Water)
    }

    /// Texture ids of the top, side and bottom faces.
    pub open spec fn textures(self) -> (u8, u8, u8) {
        match self {
            Block::Air => (0, 0, 0),
            Block::Grass => (TEX_GRASS_TOP, TEX_GRASS_SIDE, TEX_DIRT),
            Block::Dirt => (TEX_DIRT, TEX_DIRT, TEX_DIRT),
            Block::Stone => (TEX_STONE, TEX_STONE, TEX_STONE),
            Block::Sand => (TEX_SAND, TEX_SAND, TEX_SAND),
            Block::Water => (TEX_WATER, TEX_WATER, TEX_WATER),
            Block::Log => (TEX_LOG_TOP, TEX_LOG_SIDE, TEX_LOG_TOP),
            Block::Leaves => (TEX_LEAVES, TEX_LEAVES, TEX_LEAVES),
            Block::SnowGrass => (TEX_SNOW_TOP, TEX_SNOW_SIDE, TEX_DIRT),
            Block::FlowerRed => (TEX_FLOWER_RED, TEX_FLOWER_RED, TEX_FLOWER_RED),
            Block::FlowerYellow => (TEX_FLOWER_YELLOW, TEX_FLOWER_YELLOW, TEX_FLOWER_YELLOW),
            Block::Planks => (TEX_PLANKS, TEX_PLANKS, TEX_PLANKS),
            Block::Cobblestone => (TEX_COBBLE, TEX_COBBLE, TEX_COBBLE),
            Block::Brick => (TEX_BRICK, TEX_BRICK, TEX_BRICK),
            Block::Glass => (TEX_GLASS, TEX_GLASS, TEX_GLASS),
            Block::Tnt => (TEX_TNT_TOP, TEX_TNT_SIDE, TEX_TNT_TOP),
            Block::Obsidian => (TEX_OBSIDIAN, TEX_OBSIDIAN, TEX_OBSIDIAN),
        }
    }

    /// Colours of the top, side and bottom faces.
    pub open spec fn colors(self) -> (Rgb, Rgb, Rgb) {
        match self {
            Block::Air => (
                Rgb { r: 100, g: 100, b: 100 },
                Rgb { r: 100, g: 100, b: 100 },
                Rgb { r: 100, g: 100, b: 100 },
            ),
            Block::Grass => (
                Rgb { r: 36, g: 65, b: 28 },
                Rgb { r: 45, g: 52, b: 26 },
                Rgb { r: 55, g: 39, b: 26 },
            ),
            Block::Dirt => (
                Rgb { r: 55, g: 39, b: 26 },
                Rgb { r: 55, g: 39, b: 26 },
                Rgb { r: 48, g: 34, b: 22 },
            ),
            Block::Stone => (
                Rgb { r: 52, g: 53, b: 55 },
                Rgb { r: 50, g: 51, b: 53 },
                Rgb { r: 44, g: 45, b: 47 },
            ),
            Block::Sand => (
                Rgb { r: 87, g: 82, b: 60 },
                Rgb { r: 85, g: 80, b: 58 },
                Rgb { r: 78, g: 73, b: 53 },
            ),
            Block::Water => (
                Rgb { r: 24, g: 45, b: 85 },
                Rgb { r: 21, g: 41, b: 81 },
                Rgb { r: 19, g: 37, b: 76 },
            ),
            Block::Log => (
                Rgb { r: 58, g: 45, b: 28 },
                Rgb { r: 42, g: 30, b: 17 },
                Rgb { r: 58, g: 45, b: 28 },
            ),
            Block::Leaves => (
                Rgb { r: 27, g: 52, b: 20 },
                Rgb { r: 20, g: 44, b: 16 },
                Rgb { r: 16, g: 38, b: 13 },
            ),
            Block::SnowGrass => (
                Rgb { r: 92, g: 94, b: 97 },
                Rgb { r: 62, g: 53, b: 40 },
                Rgb { r: 48, g: 34, b: 22 },
            ),
            Block::FlowerRed => (
                Rgb { r: 84, g: 20, b: 18 },
                Rgb { r: 78, g: 16, b: 14 },
                Rgb { r: 72, g: 14, b: 12 },
            ),
            Block::FlowerYellow => (
                Rgb { r: 92, g: 78, b: 22 },
                Rgb { r: 88, g: 72, b: 18 },
                Rgb { r: 82, g: 66, b: 15 },
            ),
            Block::Planks => (
                Rgb { r: 72, g: 55, b: 34 },
                Rgb { r: 70, g: 53, b: 32 },
                Rgb { r: 66, g: 50, b: 30 },
            ),
            Block::Cobblestone => (
                Rgb { r: 55, g: 56, b: 58 },
                Rgb { r: 52, g: 53, b: 55 },
                Rgb { r: 46, g: 47, b: 49 },
            ),
            Block::Brick => (
                Rgb { r: 62, g: 30, b: 24 },
                Rgb { r: 60, g: 28, b: 22 },
                Rgb { r: 52, g: 24, b: 19 },
            ),
            Block::Glass => (
                Rgb { r: 75, g: 85, b: 90 },
                Rgb { r: 75, g: 85, b: 90 },
                Rgb { r: 75, g: 85, b: 90 },
            ),
            Block::Tnt => (
                Rgb { r: 85, g: 35, b: 25 },
                Rgb { r: 80, g: 30, b: 22 },
                Rgb { r: 75, g: 28, b: 20 },
            ),
            Block::Obsidian => (
                Rgb { r: 16, g: 10, b: 20 },
                Rgb { r: 14, g: 9, b: 18 },
                Rgb { r: 12, g: 8, b: 16 },
            ),
        }
    }

    pub fn from_u8(v: u8) -> (b: Block)
        ensures
            b == Block::spec_from_u8(v),
    {
        match v {
            1 => Block::Grass,
            2 => Block::Dirt,
            3 => Block::Stone,
            4 => Block::Sand,
            5 => Block::Water,
            6 => Block::Log,
            7 => Block::Leaves,
            8 => Block::SnowGrass,
            9 => Block::FlowerRed,
            10 => Block::FlowerYellow,
            11 => Block::Planks,
            12 => Block::Cobblestone,
            13 => Block::Brick,
            14 => Block::Glass,
            15 => Block::Tnt,
            16 => Block::Obsidian,
            _ => Block::Air,
        }
    }

    pub fn as_u8(self) -> (v: u8)
        ensures
            v == self.id(),
            v < BLOCK_COUNT,
    {
        match self {
            Block::Air => 0,
            Block::Grass => 1,
            Block::Dirt => 2,
            Block::Stone => 3,
            Block::Sand => 4,
            Block::Water => 5,
            Block::Log => 6,
            Block::Leaves => 7,
            Block::SnowGrass => 8,
            Block::FlowerRed => 9,
            Block::FlowerYellow => 10,
            Block::Planks => 11,
            Block::Cobblestone => 12,
            Block::Brick => 13,
            Block::Glass => 14,
            Block::Tnt => 15,
            Block::Obsidian => 16,
        }
    }

    /// The registry entry of this block.
    pub fn info(self) -> (r: BlockInfo)
        ensures
            r.id == self.id(),
            r.name@ == self.spec_name(),
            r.solid == self.spec_is_solid(),
            r.water == self.spec_is_water(),
            r.translucent == self.spec_is_translucent(),
            r.flower == self.spec_is_flower(),
            r.placeable == self.spec_is_placeable(),
            r.breakable == self.spec_is_breakable(),
            (r.tex_top, r.tex_side, r.tex_bottom) == self.textures(),
            (r.color_top, r.color_side, r.color_bottom) == self.colors(),
    {
        match self {
            Block::Air => BlockInfo {
                id: 0,
                name: "Air",
                solid: false,
                water: false,
                translucent: false,
                flower: false,
                placeable: false,
                breakable: false,
                tex_top: 0,
                tex_side: 0,
                tex_bottom: 0,
                color_top: Rgb { r: 100, g: 100, b: 100 },
                color_side: Rgb { r: 100, g: 100, b: 100 },
                color_bottom: Rgb { r: 100, g: 100, b: 100 },
            },
            Block::Grass => BlockInfo {
                id: 1,
                name: "Grass",
                solid: true,
                water: false,
                translucent: false,
                flower: false,
                placeable: true,
                breakable: true,
                tex_top: TEX_GRASS_TOP,
                tex_side: TEX_GRASS_SIDE,
                tex_bottom: TEX_DIRT,
                color_top: Rgb { r: 36, g: 65, b: 28 },
                color_side: Rgb { r: 45, g: 52, b: 26 },
                color_bottom: Rgb { r: 55, g: 39, b: 26 },
            },
            Block::Dirt => BlockInfo {
                id: 2,
                name: "Dirt",
                solid: true,
                water: false,
                translucent: false,
                flower: false,
                placeable: true,
                breakable: true,
                tex_top: TEX_DIRT,
                tex_side: TEX_DIRT,
                tex_bottom: TEX_DIRT,
                color_top: Rgb { r: 55, g: 39, b: 26 },
                color_side: Rgb { r: 55, g: 39, b: 26 },
                color_bottom: Rgb { r: 48, g: 34, b: 22 },
            },
            Block::Stone => BlockInfo {
                id: 3,
                name: "Stone",
                solid: true,
                water: false,
                translucent: false,
                flower: false,
                placeable: true,
                breakable: true,
                tex_top: TEX_STONE,
                tex_side: TEX_STONE,
                tex_bottom: TEX_STONE,
                color_top: Rgb { r: 52, g: 53, b: 55 },
                color_side: Rgb { r: 50, g: 51, b: 53 },
                color_bottom: Rgb { r: 44, g: 45, b: 47 },
            },
            Block::Sand => BlockInfo {
                id: 4,
                name: "Sand",
                solid: true,
                water: false,
                translucent: false,
                flower: false,
                placeable: true,
                breakable: true,
                tex_top: TEX_SAND,
                tex_side: TEX_SAND,
                tex_bottom: TEX_SAND,
                color_top: Rgb { r: 87, g: 82, b: 60 },
                color_side: Rgb { r: 85, g: 80, b: 58 },
                color_bottom: Rgb { r: 78, g: 73, b: 53 },
            },
            Block::Water => BlockInfo {
                id: 5,
                name: "Water",
                solid: false,
                water: true,
                translucent: false,
                flower: false,
                placeable: false,
                breakable: false,
                tex_top: TEX_WATER,
                tex_side: TEX_WATER,
                tex_bottom: TEX_WATER,
                color_top: Rgb { r: 24, g: 45, b: 85 },
                color_side: Rgb { r: 21, g: 41, b: 81 },
                color_bottom: Rgb { r: 19, g: 37, b: 76 },
            },
            Block::Log => BlockInfo {
                id: 6,
                name: "Log",
                solid: true,
                water: false,
                translucent: false,
                flower: false,
                placeable: true,
                breakable: true,
                tex_top: TEX_LOG_TOP,
                tex_side: TEX_LOG_SIDE,
                tex_bottom: TEX_LOG_TOP,
                color_top: Rgb { r: 58, g: 45, b: 28 },
                color_side: Rgb { r: 42, g: 30, b: 17 },
                color_bottom: Rgb { r: 58, g: 45, b: 28 },
            },
            Block::Leaves => BlockInfo {
                id: 7,
                name: "Leaves",
                solid: true,
                water: false,
                translucent: false,
                flower: false,
                placeable: true,
                breakable: true,
                tex_top: TEX_LEAVES,
                tex_side: TEX_LEAVES,
                tex_bottom: TEX_LEAVES,
                color_top: Rgb { r: 27, g: 52, b: 20 },
                color_side: Rgb { r: 20, g: 44, b: 16 },
                color_bottom: Rgb { r: 16, g: 38, b: 13 },
            },
            Block::SnowGrass => BlockInfo {
                id: 8,
                name: "Snow Grass",
                solid: true,
                water: false,
                translucent: false,
                flower: false,
                placeable: true,
                breakable: true,
                tex_top: TEX_SNOW_TOP,
                tex_side: TEX_SNOW_SIDE,
                tex_bottom: TEX_DIRT,
                color_top: Rgb { r: 92, g: 94, b: 97 },
                color_side: Rgb { r: 62, g: 53, b: 40 },
                color_bottom: Rgb { r: 48, g: 34, b: 22 },
            },
            Block::FlowerRed => BlockInfo {
                id: 9,
                name: "Red Flower",
                solid: false,
                water: false,
                translucent: false,
                flower: true,
                placeable: false,
                breakable: true,
                tex_top: TEX_FLOWER_RED,
                tex_side: TEX_FLOWER_RED,
                tex_bottom: TEX_FLOWER_RED,
                color_top: Rgb { r: 84, g: 20, b: 18 },
                color_side: Rgb { r: 78, g: 16, b: 14 },
                color_bottom: Rgb { r: 72, g: 14, b: 12 },
            },
            Block::FlowerYellow => BlockInfo {
                id: 10,
                name: "Yellow Flower",
                solid: false,
                water: false,
                translucent: false,
                flower: true,
                placeable: false,
                breakable: true,
                tex_top: TEX_FLOWER_YELLOW,
                tex_side: TEX_FLOWER_YELLOW,
                tex_bottom: TEX_FLOWER_YELLOW,
                color_top: Rgb { r: 92, g: 78, b: 22 },
                color_side: Rgb { r: 88, g: 72, b: 18 },
                color_bottom: Rgb { r: 82, g: 66, b: 15 },
            },
            Block::Planks => BlockInfo {
                id: 11,
                name: "Planks",
                solid: true,
                water: false,
                translucent: false,
                flower: false,
                placeable: true,
                breakable: true,
                tex_top: TEX_PLANKS,
                tex_side: TEX_PLANKS,
                tex_bottom: TEX_PLANKS,
                color_top: Rgb { r: 72, g: 55, b: 34 },
                color_side: Rgb { r: 70, g: 53, b: 32 },
                color_bottom: Rgb { r: 66, g: 50, b: 30 },
            },
            Block::Cobblestone => BlockInfo {
                id: 12,
                name: "Cobblestone",
                solid: true,
                water: false,
                translucent: false,
                flower: false,
                placeable: true,
                breakable: true,
                tex_top: TEX_COBBLE,
                tex_side: TEX_COBBLE,
                tex_bottom: TEX_COBBLE,
                color_top: Rgb { r: 55, g: 56, b: 58 },
                color_side: Rgb { r: 52, g: 53, b: 55 },
                color_bottom: Rgb { r: 46, g: 47, b: 49 },
            },
            Block::Brick => BlockInfo {
                id: 13,
                name: "Brick",
                solid: true,
                water: false,
                translucent: false,
                flower: false,
                placeable: true,
                breakable: true,
                tex_top: TEX_BRICK,
                tex_side: TEX_BRICK,
                tex_bottom: TEX_BRICK,
                color_top: Rgb { r: 62, g: 30, b: 24 },
                color_side: Rgb { r: 60, g: 28, b: 22 },
                color_bottom: Rgb { r: 52, g: 24, b: 19 },
            },
            Block::Glass => BlockInfo {
                id: 14,
                name: "Glass",
                solid: true,
                water: false,
                translucent: true,
                flower: false,
                placeable: true,
                breakable: true,
                tex_top: TEX_GLASS,
                tex_side: TEX_GLASS,
                tex_bottom: TEX_GLASS,
                color_top: Rgb { r: 75, g: 85, b: 90 },
                color_side: Rgb { r: 75, g: 85, b: 90 },
                color_bottom: Rgb { r: 75, g: 85, b: 90 },
            },
            Block::Tnt => BlockInfo {
                id: 15,
                name: "TNT",
                solid: true,
                water: false,
                translucent: false,
                flower: false,
                placeable: true,
                breakable: true,
                tex_top: TEX_TNT_TOP,
                tex_side: TEX_TNT_SIDE,
                tex_bottom: TEX_TNT_TOP,
                color_top: Rgb { r: 85, g: 35, b: 25 },
                color_side: Rgb { r: 80, g: 30, b: 22 },
                color_bottom: Rgb { r: 75, g: 28, b: 20 },
            },
            Block::Obsidian => BlockInfo {
                id: 16,
                name: "Obsidian",
                solid: true,
                water: false,
                translucent: false,
                flower: false,
                placeable: true,
                breakable: true,
                tex_top: TEX_OBSIDIAN,
                tex_side: TEX_OBSIDIAN,
                tex_bottom: TEX_OBSIDIAN,
                color_top: Rgb { r: 16, g: 10, b: 20 },
                color_side: Rgb { r: 14, g: 9, b: 18 },
                color_bottom: Rgb { r: 12, g: 8, b: 16 },
            },
        }
    }

    /// Solid blocks take part in collision, light occlusion and ambient occlusion.
    pub fn is_solid(self) -> (r: bool)
        ensures
            r == self.spec_is_solid(),
    {
        self.info().solid
    }

    /// Water: passable, translucent, swum through.
    pub fn is_water(self) -> (r: bool)
        ensures
            r == self.spec_is_water(),
    {
        self.info().water
    }

    /// Solid but translucent: drawn in the translucent pass.
    pub fn is_translucent(self) -> (r: bool)
        ensures
            r == self.spec_is_translucent(),
    {
        self.info().translucent
    }

    /// Passable ground decal.
    pub fn is_flower(self) -> (r: bool)
        ensures
            r == self.spec_is_flower(),
    {
        self.info().flower
    }

    /// Whether players may place it.
    pub fn is_placeable(self) -> (r: bool)
        ensures
            r == self.spec_is_placeable(),
    {
        self.info().placeable
    }

    /// Whether players may break it.
    pub fn is_breakable(self) -> (r: bool)
        ensures
            r == self.spec_is_breakable(),
    {
        self.info().breakable
    }

    /// Colour of the top face.
    pub fn color_top(self) -> (c: Rgb)
        ensures
            c == self.colors().0,
    {
        self.info().color_top
    }

    /// Colour of the side faces.
    pub fn color_side(self) -> (c: Rgb)
        ensures
            c == self.colors().1,
    {
        self.info().color_side
    }

    /// Colour of the bottom face.
    pub fn color_bottom(self) -> (c: Rgb)
        ensures
            c == self.colors().2,
    {
        self.info().color_bottom
    }

    /// Colour of a face with the given direction: 0 top, 1 bottom, else side.
    pub fn color_for_dir(self, dir: u8) -> (c: Rgb)
        ensures
            c == (if dir == 0 {
                self.colors().0
            } else if dir == 1 {
                self.colors().2
            } else {
                self.colors().1
            }),
    {
        match dir {
            0 => self.color_top(),
            1 => self.color_bottom(),
            _ => self.color_side(),
        }
    }

    /// Texture id of a face with the given direction: 0 top, 1 bottom, else side.
    pub open spec fn spec_tex_for_dir(self, dir: int) -> u8 {
        if dir == 0 {
            self.textures().0
        } else if dir == 1 {
            self.textures().2
        } else {
            self.textures().1
        }
    }

    /// Texture id of a face with the given direction: 0 top, 1 bottom, else side.
    pub fn tex_for_dir(self, dir: u8) -> (t: u8)
        ensures
            t == self.spec_tex_for_dir(dir as int),
    {
        match dir {
            0 => self.info().tex_top,
            1 => self.info().tex_bottom,
            _ => self.info().tex_side,
        }
    }
}

/// The registry, in id order.
pub fn registry() -> (r: Vec<BlockInfo>)
    ensures
        r@.len() == BLOCK_COUNT,
        forall|i: int| #![trigger r@[i]]
            0 <= i < BLOCK_COUNT ==> {
                let b = Block::spec_from_u8(i as u8);
                &&& r@[i].id == i
                &&& r@[i].name@ == b.spec_name()
                &&& r@[i].solid == b.spec_is_solid()
                &&& r@[i].water == b.spec_is_water()
                &&& r@[i].translucent == b.spec_is_translucent()
                &&& r@[i].flower == b.spec_is_flower()
                &&& r@[i].placeable == b.spec_is_placeable()
                &&& r@[i].breakable == b.spec_is_breakable()
                &&& (r@[i].tex_top, r@[i].tex_side, r@[i].tex_bottom) == b.textures()
                &&& (r@[i].color_top, r@[i].color_side, r@[i].color_bottom) == b.colors()
            },
{
    let mut r: Vec<BlockInfo> = Vec::new();
    let mut id: u8 = 0;
    while id < BLOCK_COUNT
        invariant
            id <= BLOCK_COUNT,
            r@.len() == id,
            forall|i: int| #![trigger r@[i]]
                0 <= i < id ==> {
                    let b = Block::spec_from_u8(i as u8);
                    &&& r@[i].id == i
                    &&& r@[i].name@ == b.spec_name()
                    &&& r@[i].solid == b.spec_is_solid()
                    &&& r@[i].water == b.spec_is_water()
                    &&& r@[i].translucent == b.spec_is_translucent()
                    &&& r@[i].flower == b.spec_is_flower()
                    &&& r@[i].placeable == b.spec_is_placeable()
                    &&& r@[i].breakable == b.spec_is_breakable()
                    &&& (r@[i].tex_top, r@[i].tex_side, r@[i].tex_bottom) == b.textures()
                    &&& (r@[i].color_top, r@[i].color_side, r@[i].color_bottom) == b.colors()
                },
        decreases BLOCK_COUNT - id,
    {
        r.push(Block::from_u8(id).info());
        id = id + 1;
    }
    r
}

/// Every kind of block is found again from its id, and every known id from the
/// kind of block it stands for.
pub proof fn ids_and_blocks_correspond()
    ensures
        forall|b: Block| Block::spec_from_u8(#[trigger] b.id()) == b && b.id() < BLOCK_COUNT,
        forall|v: u8| v < BLOCK_COUNT ==> (#[trigger] Block::spec_from_u8(v)).id() == v,
        forall|v: u8| v >= BLOCK_COUNT ==> #[trigger] Block::spec_from_u8(v) == Block::Air,
{
}

/// The physical kinds exclude one another, what is translucent is solid, and
/// what can be placed is solid and can be broken.
pub proof fn physics_flags_are_consistent(b: Block)
    ensures
        !(b.spec_is_solid() && b.spec_is_water()),
        !(b.spec_is_solid() && b.spec_is_flower()),
        !(b.spec_is_water() && b.spec_is_flower()),
        b.spec_is_translucent() ==> b.spec_is_solid(),
        b.spec_is_placeable() ==> b.spec_is_solid() && b.spec_is_breakable(),
{
}

/// The hotbar offers exactly the blocks that may be placed, in id order.
pub proof fn placeable_lists_the_placeable_blocks()
    ensures
        forall|i: int| 0 <= i < 13 ==> (#[trigger] PLACEABLE@[i]).spec_is_placeable(),
        forall|i: int, j: int|
            0 <= i < j < 13 ==> (#[trigger] PLACEABLE@[i]).id() < (#[trigger] PLACEABLE@[j]).id(),
        forall|b: Block|
            b.spec_is_placeable() ==> exists|i: int|
                0 <= i < 13 && #[trigger] PLACEABLE@[i] == b,
{
    assert forall|b: Block| b.spec_is_placeable() implies exists|i: int|
        0 <= i < 13 && #[trigger] PLACEABLE@[i] == b by {
        match b {
            Block::Grass => assert(PLACEABLE@[0] == b),
            Block::Dirt => assert(PLACEABLE@[1] == b),
            Block::Stone => assert(PLACEABLE@[2] == b),
            Block::Sand => assert(PLACEABLE@[3] == b),
            Block::Log => assert(PLACEABLE@[4] == b),
            Block::Leaves => assert(PLACEABLE@[5] == b),
            Block::SnowGrass => assert(PLACEABLE@[6] == b),
            Block::Planks => assert(PLACEABLE@[7] == b),
            Block::Cobblestone => assert(PLACEABLE@[8] == b),
            Block::Brick => assert(PLACEABLE@[9] == b),
            Block::Glass => assert(PLACEABLE@[10] == b),
            Block::Tnt => assert(PLACEABLE@[11] == b),
            Block::Obsidian => assert(PLACEABLE@[12] == b),
            _ => {},
        }
    }
}

/// No block names a texture that the dispatch lacks.
pub proof fn textures_are_known(b: Block)
    ensures
        b.textures().0 < TEX_HIGHLIGHT,
        b.textures().1 < TEX_HIGHLIGHT,
        b.textures().2 < TEX_HIGHLIGHT,
{
}

impl From<Block> for u8 {
    fn from(b: Block) -> (v: u8) {
        b.as_u8()
    }
}

impl vstd::std_specs::convert::FromSpecImpl<Block> for u8 {
    open spec fn obeys_from_spec() -> bool {
        true
    }

    open spec fn from_spec(b: Block) -> u8 {
        b.id()
    }
}

/// Air, water and flowers can be walked through, everything else is solid. Players can
/// place what is solid, and break all but air and water. Only glass is solid and lets one
/// see through.
pub proof fn blocks_are_of_their_kind(b: Block)
    ensures
        match b {
            Block::Air => !b.spec_is_solid() && !b.spec_is_water() && !b.spec_is_flower()
                && !b.spec_is_breakable() && !b.spec_is_placeable(),
            Block::Water => !b.spec_is_solid() && b.spec_is_water() && !b.spec_is_flower()
                && !b.spec_is_breakable() && !b.spec_is_placeable(),
            Block::FlowerRed | Block::FlowerYellow => !b.spec_is_solid() && !b.spec_is_water()
                && b.spec_is_flower() && b.spec_is_breakable() && !b.spec_is_placeable(),
            _ => b.spec_is_solid() && !b.spec_is_water() && !b.spec_is_flower()
                && b.spec_is_breakable() && b.spec_is_placeable(),
        },
        b.spec_is_translucent() <==> b is Glass,
{
}

/// A block has the same texture on all its faces, but for grass, with and without snow,
/// which is dirt below, and logs and TNT, whose ends differ from their sides. No texture
/// is shared by two blocks, but for that of dirt.
pub proof fn blocks_have_their_own_textures(a: Block, b: Block)
    requires
        !(a is Air),
        !(b is Air),
    ensures
        a is Grass || a is SnowGrass ==> a.textures().2 == Block::Dirt.textures().0
            && a.textures().0 != a.textures().1,
        a is Log || a is Tnt ==> a.textures().0 == a.textures().2 && a.textures().0
            != a.textures().1,
        !(a is Grass || a is SnowGrass || a is Log || a is Tnt) ==> a.textures().0
            == a.textures().1 && a.textures().1 == a.textures().2,
        a != b ==> a.textures().0 != b.textures().0 && a.textures().1 != b.textures().1
            && a.textures().0 != b.textures().1,
{
}

/// The colours of faces are in hundredths. Grass is dirt below, and a log has the same
/// wood at both ends.
pub proof fn colours_are_in_hundredths(b: Block)
    ensures
        b.colors().0.r <= 100 && b.colors().0.g <= 100 && b.colors().0.b <= 100,
        b.colors().1.r <= 100 && b.colors().1.g <= 100 && b.colors().1.b <= 100,
        b.colors().2.r <= 100 && b.colors().2.g <= 100 && b.colors().2.b <= 100,
        Block::Grass.colors().2 == Block::Dirt.colors().0,
        Block::Log.colors().0 == Block::Log.colors().2,
{
}

/// Textures have the numbers by which the shaders know them, and a face the texture of its
/// side: the top, the bottom, or one of the four between.
pub proof fn textures_have_their_numbers(b: Block, dir: int)
    requires
        0 <= dir < 6,
    ensures
        b.spec_tex_for_dir(dir) == (if dir == 0 {
            b.textures().0
        } else if dir == 1 {
            b.textures().2
        } else {
            b.textures().1
        }),
        b.textures() == match b {
            Block::Air => (0u8, 0u8, 0u8),
            Block::Grass => (0u8, 1u8, 2u8),
            Block::Dirt => (2u8, 2u8, 2u8),
            Block::Stone => (3u8, 3u8, 3u8),
            Block::Sand => (4u8, 4u8, 4u8),
            Block::Water => (5u8, 5u8, 5u8),
            Block::Log => (7u8, 6u8, 7u8),
            Block::Leaves => (8u8, 8u8, 8u8),
            Block::SnowGrass => (9u8, 10u8, 2u8),
            Block::FlowerRed => (11u8, 11u8, 11u8),
            Block::FlowerYellow => (12u8, 12u8, 12u8),
            Block::Planks => (13u8, 13u8, 13u8),
            Block::Cobblestone => (14u8, 14u8, 14u8),
            Block::Brick => (15u8, 15u8, 15u8),
            Block::Glass => (16u8, 16u8, 16u8),
            Block::Tnt => (18u8, 17u8, 18u8),
            Block::Obsidian => (19u8, 19u8, 19u8),
        },
{
}

/// Blocks have the numbers by which they are saved and sent.
pub proof fn blocks_have_their_numbers(b: Block)
    ensures
        b.id() == match b {
            Block::Air => 0u8,
            Block::Grass => 1,
            Block::Dirt => 2,
            Block::Stone => 3,
            Block::Sand => 4,
            Block::Water => 5,
            Block::Log => 6,
            Block::Leaves => 7,
            Block::SnowGrass => 8,
            Block::FlowerRed => 9,
            Block::FlowerYellow => 10,
            Block::Planks => 11,
            Block::Cobblestone => 12,
            Block::Brick => 13,
            Block::Glass => 14,
            Block::Tnt => 15,
            Block::Obsidian => 16,
        },
        Block::spec_from_u8(b.id()) == b,
{
}

} // verus!
