use vstd::prelude::*;

verus! {

/// The kind of block stored at one voxel of a chunk.
#[derive(Clone, Copy, PartialEq, Eq, Structural, Debug)]
pub enum BlockType {
    Air,
    Grass,
    Dirt,
    Stone,
}

/// The axis-aligned face of a unit cube that a ray struck.
#[derive(Clone, Copy, PartialEq, Eq, Structural, Debug)]
pub enum Face {
    Left,
    Right,
    Top,
    Bottom,
    Front,
    Back,
}

} // verus!
