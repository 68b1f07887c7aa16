//! The closed set of block kinds, with per-face texture lookup and
//! solidity / adjacency classification.

use vstd::prelude::*;

verus! {

/// The various block types.
#[derive(Copy, Clone, Debug, PartialEq, Eq, Structural)]
pub enum BlockType {
    Air,
    Water,
    Dirt,
    Grass,
    Sand,
    Stone,
    Log,
    Leaves,
}

/// One side of a block.
#[derive(Copy, Clone, Debug, PartialEq, Eq, Structural)]
pub enum BlockSide {
    Front,
    Back,
    Left,
    Right,
    Top,
    Bottom,
}

/// Texture-atlas cell of a block kind on a given side; `None` for a block
/// with no texture (air).
pub open spec fn spec_texture(b: BlockType, side: BlockSide) -> Option<(u8, u8)> {
    match b {
        BlockType::Air => None,
        BlockType::Water => Some((3u8, 0u8)),
        BlockType::Dirt => Some((0u8, 0u8)),
        BlockType::Grass => match side {
            BlockSide::Top => Some((2u8, 0u8)),
            BlockSide::Bottom => Some((0u8, 0u8)),
            _ => Some((1u8, 0u8)),
        },
        BlockType::Sand => Some((4u8, 0u8)),
        BlockType::Stone => Some((5u8, 0u8)),
        BlockType::Log => match side {
            BlockSide::Top | BlockSide::Bottom => Some((7u8, 0u8)),
            _ => Some((6u8, 0u8)),
        },
        BlockType::Leaves => Some((8u8, 0u8)),
    }
}

/// A block collides with entities exactly when it is neither air nor water.
pub open spec fn spec_is_solid(b: BlockType) -> bool {
    !(b == BlockType::Air || b == BlockType::Water)
}

/// A face bordering this block kind is still drawn (air and water are
/// see-through neighbours).
pub open spec fn spec_is_renderable_adjacent(b: BlockType) -> bool {
    b == BlockType::Air || b == BlockType::Water
}

impl BlockType {
    /// Returns the texture coords (x, y) of this block on the texture atlas.
    ///
    /// Returns `None` if it has no texture.
    pub fn texture(&self, side: BlockSide) -> (r: Option<(u8, u8)>)
        ensures
            r == spec_texture(*self, side),
    {
        match self {
            Self::Air => None,
            Self::Water => Some((3, 0)),
            Self::Dirt => Some((0, 0)),
            Self::Grass => match side {
                BlockSide::Top => Some((2, 0)),
                BlockSide::Bottom => Some((0, 0)),
                _ => Some((1, 0)),
            },
            Self::Sand => Some((4, 0)),
            Self::Stone => Some((5, 0)),
            Self::Log => match side {
                BlockSide::Top | BlockSide::Bottom => Some((7, 0)),
                _ => Some((6, 0)),
            },
            Self::Leaves => Some((8, 0)),
        }
    }

    /// Returns false for air and water, true otherwise.
    pub fn is_solid(&self) -> (r: bool)
        ensures
            r == spec_is_solid(*self),
    {
        match *self {
            Self::Air | Self::Water => false,
            _ => true,
        }
    }

    /// Returns true if a neighbouring face pressed against this block should
    /// still be drawn.
    pub fn is_renderable_adjacent(&self) -> (r: bool)
        ensures
            r == spec_is_renderable_adjacent(*self),
    {
        match *self {
            Self::Air | Self::Water => true,
            _ => false,
        }
    }
}

} // verus!
