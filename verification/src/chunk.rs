//! One 16 x 16 footprint column of blocks: the unit of world
//! generation, storage and meshing. The chunk owns a flat block grid
//! and a cached mesh buffer that is rebuilt whenever a block changes.

use vstd::prelude::*;
use std::rc::Rc;
use crate::block::BlockType;
use crate::noise_field::NoiseField;

verus! {

/// Blocks per chunk along each horizontal axis.
pub const CHUNK_SIDE: usize = 16;

/// Blocks per chunk along the vertical axis.
pub const CHUNK_HEIGHT: usize = 64;

/// Blocks per chunk in all.
pub const CHUNK_VOLUME: usize = 16384;

/// Index of a local block position in the flat grid.
pub open spec fn block_index(lx: int, y: int, lz: int) -> int {
    lx * 1024 + lz * 64 + y
}

/// Whether a local position lies inside the block grid.
pub open spec fn local_in_grid(lx: int, y: int, lz: int) -> bool {
    0 <= lx < 16 && 0 <= lz < 16 && 0 <= y < 64
}

/// The block of a flat grid at a local position; everything outside
/// the grid reads as air.
pub open spec fn blocks_at(s: Seq<BlockType>, lx: int, y: int, lz: int) -> BlockType {
    if local_in_grid(lx, y, lz) {
        s[block_index(lx, y, lz)]
    } else {
        BlockType::Air
    }
}

/// Highest occupied y at or below `y` in one column of a flat grid;
/// 0 when no block at or below `y` is occupied.
pub open spec fn highest_from_blocks(s: Seq<BlockType>, lx: int, lz: int, y: int) -> int
    decreases y,
{
    if y <= 0 {
        0
    } else if blocks_at(s, lx, y, lz) != BlockType::Air {
        y
    } else {
        highest_from_blocks(s, lx, lz, y - 1)
    }
}

/// The mesh buffer a block grid meshes to: one word per column, in
/// lx-major order, holding the column's highest occupied y.
pub open spec fn mesh_of(s: Seq<BlockType>) -> Seq<u32> {
    Seq::new(256, |i: int| highest_from_blocks(s, i / 16, i % 16, 63) as u32)
}

/// A terrain chunk, identified by its chunk coordinate, fixed at
/// creation.
#[derive(Clone)]
pub struct Chunk {
    chunk_x: i32,
    chunk_z: i32,
    blocks: Vec<BlockType>,
    mesh: Rc<Vec<u32>>,
}

impl Chunk {
    /// The chunk's x coordinate.
    pub closed spec fn cx(self) -> int {
        self.chunk_x as int
    }

    /// The chunk's z coordinate.
    pub closed spec fn cz(self) -> int {
        self.chunk_z as int
    }

    /// The block stored at a local position.
    pub closed spec fn block_spec(self, lx: int, y: int, lz: int) -> BlockType {
        blocks_at(self.blocks@, lx, y, lz)
    }

    /// The chunk's cached mesh buffer.
    pub closed spec fn mesh_view(self) -> Seq<u32> {
        self.mesh@
    }

    /// Highest occupied y at or below `y` in a column.
    pub closed spec fn highest_from_spec(self, lx: int, lz: int, y: int) -> int {
        highest_from_blocks(self.blocks@, lx, lz, y)
    }

    /// Well-formed: the grid is full-size and the mesh buffer is the
    /// one its blocks mesh to.
    pub closed spec fn wf(self) -> bool {
        &&& self.blocks@.len() == CHUNK_VOLUME
        &&& self.mesh_view() == mesh_of(self.blocks@)
    }

    /// Create the chunk at `(chunk_x, chunk_z)`, with terrain seeded
    /// from the shared noise field and a mesh built from it.
    #[verifier::loop_isolation(false)]
    pub fn new(chunk_x: i32, chunk_z: i32, field: Rc<NoiseField>) -> (c: Chunk)
        ensures
            c.wf(),
            c.cx() == chunk_x as int,
            c.cz() == chunk_z as int,
            forall|lx: int, y: int, lz: int|
                local_in_grid(lx, y, lz) ==> #[trigger] c.block_spec(lx, y, lz)
                    == terrain_block_of(
                    field.seed_spec(),
                    chunk_x as int,
                    chunk_z as int,
                    lx,
                    y,
                    lz,
                ),
    {
        let mut blocks: Vec<BlockType> = Vec::new();
        let mut lx: usize = 0;
        while lx < 16
            invariant
                lx <= 16,
                blocks@.len() == lx * 1024,
                forall|j: int|
                    0 <= j < blocks@.len() ==> #[trigger] blocks@[j] == terrain_block_of(
                        field.seed_spec(),
                        chunk_x as int,
                        chunk_z as int,
                        j / 1024,
                        j % 64,
                        (j / 64) % 16,
                    ),
            decreases 16 - lx,
        {
            let mut lz: usize = 0;
            while lz < 16
                invariant
                    lx < 16,
                    lz <= 16,
                    blocks@.len() == lx * 1024 + lz * 64,
                    forall|j: int|
                        0 <= j < blocks@.len() ==> #[trigger] blocks@[j] == terrain_block_of(
                            field.seed_spec(),
                            chunk_x as int,
                            chunk_z as int,
                            j / 1024,
                            j % 64,
                            (j / 64) % 16,
                        ),
                decreases 16 - lz,
            {
                let h = terrain_height(
                    &field,
                    (chunk_x as i64) * 16 + lx as i64,
                    (chunk_z as i64) * 16 + lz as i64,
                );
                let mut y: usize = 0;
                while y < 64
                    invariant
                        lx < 16,
                        lz < 16,
                        y <= 64,
                        8 <= h <= 56,
                        h as int == terrain_height_of(
                            field.seed_spec(),
                            chunk_x as int * 16 + lx,
                            chunk_z as int * 16 + lz,
                        ),
                        blocks@.len() == lx * 1024 + lz * 64 + y,
                        forall|j: int|
                            0 <= j < blocks@.len() ==> #[trigger] blocks@[j] == terrain_block_of(
                                field.seed_spec(),
                                chunk_x as int,
                                chunk_z as int,
                                j / 1024,
                                j % 64,
                                (j / 64) % 16,
                            ),
                    decreases 64 - y,
                {
                    let b = if y + 1 == h {
                        BlockType::Grass
                    } else if y + 3 >= h && y < h {
                        BlockType::Dirt
                    } else if y < h {
                        BlockType::Stone
                    } else {
                        BlockType::Air
                    };
                    blocks.push(b);
                    proof {
                        let j = blocks@.len() - 1;
                        lemma_block_index_split(lx as int, y as int, lz as int);
                        assert(blocks@[j] == b);
                        assert(terrain_block_of(
                            field.seed_spec(),
                            chunk_x as int,
                            chunk_z as int,
                            lx as int,
                            y as int,
                            lz as int,
                        ) == b);
                    }
                    y = y + 1;
                }
                lz = lz + 1;
            }
            lx = lx + 1;
        }
        let mesh = Rc::new(build_mesh(&blocks));
        let c = Chunk { chunk_x, chunk_z, blocks, mesh };
        proof {
            assert forall|lx: int, y: int, lz: int| local_in_grid(lx, y, lz)
                implies #[trigger] c.block_spec(lx, y, lz) == terrain_block_of(
                field.seed_spec(),
                chunk_x as int,
                chunk_z as int,
                lx,
                y,
                lz,
            ) by {
                lemma_block_index_split(lx, y, lz);
            }
        }
        c
    }

    /// The block at a local position; vertical positions above the
    /// grid read as air.
    pub fn block_at(&self, lx: usize, y: usize, lz: usize) -> (b: BlockType)
        requires
            self.wf(),
            lx < CHUNK_SIDE,
            lz < CHUNK_SIDE,
        ensures
            b == self.block_spec(lx as int, y as int, lz as int),
    {
        if y >= 64 {
            BlockType::Air
        } else {
            self.blocks[lx * 1024 + lz * 64 + y]
        }
    }

    /// Write one block and rebuild the cached mesh buffer from the
    /// changed grid (the old buffer is left to its other holders).
    pub fn set_block(&mut self, lx: usize, y: usize, lz: usize, block: BlockType)
        requires
            old(self).wf(),
            lx < CHUNK_SIDE,
            lz < CHUNK_SIDE,
            y < CHUNK_HEIGHT,
        ensures
            final(self).wf(),
            final(self).cx() == old(self).cx(),
            final(self).cz() == old(self).cz(),
            forall|a: int, b: int, c: int|
                #[trigger] final(self).block_spec(a, b, c) == if a == lx as int && b == y as int
                    && c == lz as int {
                    block
                } else {
                    old(self).block_spec(a, b, c)
                },
    {
        self.blocks[lx * 1024 + lz * 64 + y] = block;
        self.mesh = Rc::new(build_mesh(&self.blocks));
    }

    /// Highest occupied y in a column, scanning from the top of the
    /// grid; 0 when the column is empty.
    pub fn highest_in_column(&self, lx: usize, lz: usize) -> (r: usize)
        requires
            self.wf(),
            lx < CHUNK_SIDE,
            lz < CHUNK_SIDE,
        ensures
            r as int == self.highest_from_spec(lx as int, lz as int, 63),
            r < 64,
    {
        scan_highest(&self.blocks, lx, lz, 63)
    }

    /// Highest occupied y in a column at or below `y` (clamped to the
    /// top of the grid); 0 when nothing there is occupied.
    pub fn highest_in_column_from_y(&self, lx: usize, y: usize, lz: usize) -> (r: usize)
        requires
            self.wf(),
            lx < CHUNK_SIDE,
            lz < CHUNK_SIDE,
        ensures
            r as int == self.highest_from_spec(
                lx as int,
                lz as int,
                if y < 64 { y as int } else { 63 },
            ),
            r < 64,
    {
        let from = if y >= 64 { 63 } else { y };
        scan_highest(&self.blocks, lx, lz, from)
    }

    /// The shared handle to the cached mesh buffer.
    pub fn mesh_handle(&self) -> (r: &Rc<Vec<u32>>)
        ensures
            (*r)@ == self.mesh_view(),
    {
        &self.mesh
    }
}

/// A flat-grid index decomposes uniquely into its local position.
proof fn lemma_block_index_split(lx: int, y: int, lz: int)
    requires
        local_in_grid(lx, y, lz),
    ensures
        block_index(lx, y, lz) / 1024 == lx,
        block_index(lx, y, lz) % 64 == y,
        (block_index(lx, y, lz) / 64) % 16 == lz,
{
    let j = block_index(lx, y, lz);
    vstd::arithmetic::div_mod::lemma_fundamental_div_mod_converse_div(j, 1024, lx, lz * 64 + y);
    vstd::arithmetic::div_mod::lemma_fundamental_div_mod_converse_mod(j, 64, lx * 16 + lz, y);
    vstd::arithmetic::div_mod::lemma_fundamental_div_mod_converse_div(j, 64, lx * 16 + lz, y);
    vstd::arithmetic::div_mod::lemma_fundamental_div_mod_converse_mod(lx * 16 + lz, 16, lx, lz);
}

/// Terrain height of a column, in blocks, as a function of the noise
/// field's seed and the column's world coordinate.
pub open spec fn terrain_height_of(seed: u32, wx: int, wz: int) -> int {
    8 + ((crate::noise_field::noise_level_spec(seed, wx, wz) + 1000) * 24) / 1000
}

/// The block the terrain generator stores at a local position of the
/// chunk at `(cx, cz)`: grass at the surface, dirt just below it,
/// stone further down, air above.
pub open spec fn terrain_block_of(seed: u32, cx: int, cz: int, lx: int, y: int, lz: int) -> BlockType {
    let h = terrain_height_of(seed, cx * 16 + lx, cz * 16 + lz);
    if y + 1 == h {
        BlockType::Grass
    } else if y + 3 >= h && y < h {
        BlockType::Dirt
    } else if y < h {
        BlockType::Stone
    } else {
        BlockType::Air
    }
}

/// Terrain height of a column, in blocks, derived from the shared
/// noise field sampled at the column's world coordinate.
fn terrain_height(field: &Rc<NoiseField>, wx: i64, wz: i64) -> (h: usize)
    requires
        -0x4000_0000_0000 <= wx <= 0x4000_0000_0000,
        -0x4000_0000_0000 <= wz <= 0x4000_0000_0000,
    ensures
        8 <= h <= 56,
        h as int == terrain_height_of(field.seed_spec(), wx as int, wz as int),
{
    let v = field.level(wx, wz);
    let t = (v + 1000) as usize;
    8 + (t * 24) / 1000
}

/// Scan one column downward from `from` for the first occupied block.
fn scan_highest(blocks: &Vec<BlockType>, lx: usize, lz: usize, from: usize) -> (r: usize)
    requires
        blocks@.len() == CHUNK_VOLUME,
        lx < CHUNK_SIDE,
        lz < CHUNK_SIDE,
        from < CHUNK_HEIGHT,
    ensures
        r as int == highest_from_blocks(blocks@, lx as int, lz as int, from as int),
        r <= from,
{
    let mut y: usize = from;
    while y > 0
        invariant
            y <= from,
            from < 64,
            lx < CHUNK_SIDE,
            lz < CHUNK_SIDE,
            blocks@.len() == 16384,
            highest_from_blocks(blocks@, lx as int, lz as int, from as int)
                == highest_from_blocks(blocks@, lx as int, lz as int, y as int),
        decreases y,
    {
        let b = blocks[lx * 1024 + lz * 64 + y];
        if !(b == BlockType::Air) {
            return y;
        }
        y = y - 1;
    }
    0
}

/// Build the mesh buffer of a block grid: one word per column holding
/// its highest occupied y.
fn build_mesh(blocks: &Vec<BlockType>) -> (m: Vec<u32>)
    requires
        blocks@.len() == CHUNK_VOLUME,
    ensures
        m@ == mesh_of(blocks@),
{
    let mut m: Vec<u32> = Vec::new();
    let mut i: usize = 0;
    while i < 256
        invariant
            i <= 256,
            blocks@.len() == 16384,
            m@.len() == i,
            forall|j: int| 0 <= j < i ==> m@[j] == highest_from_blocks(
                blocks@,
                j / 16,
                j % 16,
                63,
            ) as u32,
        decreases 256 - i,
    {
        let lx = i / 16;
        let lz = i % 16;
        let h = scan_highest(blocks, lx, lz, 63);
        m.push(h as u32);
        i = i + 1;
    }
    proof {
        assert(m@ =~= mesh_of(blocks@));
    }
    m
}

} // verus!
