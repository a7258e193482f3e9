//! The world: a sparse map of chunks, the shared noise field that
//! seeds them, the viewport mesh cache, and the spatial queries the
//! renderer and gameplay code ask of it.

use vstd::prelude::*;
use std::rc::Rc;
use crate::block::BlockType;
use crate::chunk::{local_in_grid, terrain_block_of, Chunk};
use crate::coord_map::CoordMap;
use crate::noise_field::{floor_div_16, NoiseField};
use crate::ray::{dir_in_range, pos_in_range, ray_cell, round_step, Vec3Milli};
use crate::block::Face;
use crate::rc_clone;

verus! {

/// Seed of the noise field every world is created with.
pub const WORLD_SEED: u32 = 0;

/// Largest supported render distance, in chunks.
pub const MAX_RENDER_DISTANCE: u32 = 32768;

/// The chunk coordinate owning a world coordinate: floor division by
/// 16, rounding toward negative infinity.
pub open spec fn chunk_of(w: int) -> int {
    w / 16
}

/// The offset of a world coordinate within its chunk, in [0, 16).
pub open spec fn local_of(w: int) -> int {
    w % 16
}

/// Whether a chunk coordinate lies within the viewport disc of radius
/// `rd` around the player chunk: its Euclidean distance from the
/// player chunk is at most `rd`.
pub open spec fn in_disc(pcx: int, pcz: int, rd: int, cx: int, cz: int) -> bool {
    (pcx - cx) * (pcx - cx) + (pcz - cz) * (pcz - cz) <= rd * rd
}

/// The first `n` candidates of one viewport row (column `cx`, z
/// ascending from `pcz - rd`), keeping those inside the disc.
pub open spec fn row_pts(pcx: int, pcz: int, rd: int, cx: int, n: nat) -> Seq<(int, int)>
    decreases n,
{
    if n == 0 {
        Seq::empty()
    } else {
        let prev = row_pts(pcx, pcz, rd, cx, (n - 1) as nat);
        let cz = pcz - rd + n - 1;
        if in_disc(pcx, pcz, rd, cx, cz) {
            prev.push((cx, cz))
        } else {
            prev
        }
    }
}

/// The candidates of the first `m` rows of the enumerated square (x
/// ascending from `pcx - rd`), each row complete.
pub open spec fn grid_pts(pcx: int, pcz: int, rd: int, m: nat) -> Seq<(int, int)>
    decreases m,
{
    if m == 0 {
        Seq::empty()
    } else {
        grid_pts(pcx, pcz, rd, (m - 1) as nat) + row_pts(
            pcx,
            pcz,
            rd,
            pcx - rd + m - 1,
            (2 * rd) as nat,
        )
    }
}

/// The chunk coordinates in view from a player chunk: the disc of
/// radius `rd` inscribed in the enumerated square of side `2 * rd`, in
/// enumeration order (outer x ascending, inner z ascending).
pub open spec fn viewport_pts(pcx: int, pcz: int, rd: int) -> Seq<(int, int)> {
    grid_pts(pcx, pcz, rd, (2 * rd) as nat)
}

/// The world: all chunks generated so far, the render distance, the
/// shared noise field, the viewer chunk the mesh cache was last
/// computed for, and the cached mesh buffers.
#[derive(Clone)]
pub struct World {
    chunks: CoordMap<Chunk>,
    render_distance: u32,
    noise_field: Rc<NoiseField>,
    player_chunk_x: i32,
    player_chunk_z: i32,
    mesh: Vec<Rc<Vec<u32>>>,
}

impl World {
    /// The mathematical map from chunk coordinates to chunks.
    pub closed spec fn chunk_map(self) -> Map<(int, int), Chunk> {
        self.chunks@
    }

    /// The configured render distance.
    pub closed spec fn rd(self) -> int {
        self.render_distance as int
    }

    /// The chunk coordinate the mesh cache was last computed for.
    pub closed spec fn viewer(self) -> (int, int) {
        (self.player_chunk_x as int, self.player_chunk_z as int)
    }

    /// The cached mesh buffer handles, in viewport enumeration order.
    pub closed spec fn mesh_cache(self) -> Seq<Rc<Vec<u32>>> {
        self.mesh@
    }

    /// The shared noise field handle.
    pub closed spec fn noise_handle(self) -> Rc<NoiseField> {
        self.noise_field
    }

    /// The seed of the shared noise field.
    pub closed spec fn world_seed(self) -> u32 {
        self.noise_field.seed_spec()
    }

    /// Well-formed: the chunk map is a map, the render distance is in
    /// range, and every chunk is well-formed and sits under its own
    /// coordinate.
    pub closed spec fn wf(self) -> bool {
        &&& self.chunks.wf()
        &&& self.render_distance <= MAX_RENDER_DISTANCE
        &&& forall|k: (int, int)| #[trigger]
            self.chunk_map().contains_key(k) ==> self.chunk_map()[k].wf()
                && self.chunk_map()[k].cx() == k.0 && self.chunk_map()[k].cz() == k.1
    }

    /// An empty world with no chunks, viewer chunk (0, 0) and an empty
    /// mesh cache.
    pub fn new(render_distance: u32) -> (w: World)
        requires
            render_distance <= MAX_RENDER_DISTANCE,
        ensures
            w.wf(),
            w.rd() == render_distance as int,
            w.chunk_map() == Map::<(int, int), Chunk>::empty(),
            w.world_seed() == WORLD_SEED,
            w.viewer() == (0int, 0int),
            w.mesh_cache() == Seq::<Rc<Vec<u32>>>::empty(),
    {
        let w = World {
            chunks: CoordMap::new(),
            render_distance,
            noise_field: Rc::new(NoiseField::new(WORLD_SEED)),
            player_chunk_x: 0,
            player_chunk_z: 0,
            mesh: Vec::new(),
        };
        proof {
            assert(w.mesh_cache() =~= Seq::<Rc<Vec<u32>>>::empty());
        }
        w
    }

    /// Map a world coordinate pair to its owning chunk coordinate and
    /// the local offset within that chunk. Exact for negative
    /// coordinates: the chunk is the floor of division by 16 and the
    /// local offset is always in [0, 16).
    pub fn localize_coords_to_chunk(&self, world_x: i32, world_z: i32) -> (r: (i32, i32, usize, usize))
        ensures
            r.0 as int == chunk_of(world_x as int),
            r.1 as int == chunk_of(world_z as int),
            r.2 as int == local_of(world_x as int),
            r.3 as int == local_of(world_z as int),
            r.0 as int * 16 + r.2 as int == world_x as int,
            r.1 as int * 16 + r.3 as int == world_z as int,
            r.2 < 16,
            r.3 < 16,
    {
        let cx64 = floor_div_16(world_x as i64);
        let cz64 = floor_div_16(world_z as i64);
        let lx = (world_x as i64 - cx64 * 16) as usize;
        let lz = (world_z as i64 - cz64 * 16) as usize;
        (cx64 as i32, cz64 as i32, lx, lz)
    }

    /// The chunk at a chunk coordinate, if it was ever created; never
    /// creates one.
    pub fn get_chunk(&self, chunk_x: i32, chunk_z: i32) -> (r: Option<&Chunk>)
        requires
            self.wf(),
        ensures
            match r {
                Some(c) => {
                    &&& self.chunk_map().contains_key((chunk_x as int, chunk_z as int))
                    &&& *c == self.chunk_map()[(chunk_x as int, chunk_z as int)]
                },
                None => !self.chunk_map().contains_key((chunk_x as int, chunk_z as int)),
            },
    {
        self.chunks.get(chunk_x, chunk_z)
    }

    /// The chunk at a chunk coordinate, creating and inserting it
    /// (seeded with the shared noise field) when absent. Total: every
    /// coordinate pair has a chunk after this call.
    pub fn get_or_insert_chunk(&mut self, chunk_x: i32, chunk_z: i32) -> (r: &Chunk)
        requires
            old(self).wf(),
        ensures
            final(self).wf(),
            final(self).chunk_map().contains_key((chunk_x as int, chunk_z as int)),
            *r == final(self).chunk_map()[(chunk_x as int, chunk_z as int)],
            old(self).chunk_map().contains_key((chunk_x as int, chunk_z as int)) ==> *final(self)
                == *old(self),
            !old(self).chunk_map().contains_key((chunk_x as int, chunk_z as int))
                ==> final(self).chunk_map() == old(self).chunk_map().insert(
                (chunk_x as int, chunk_z as int),
                *r,
            ),
            !old(self).chunk_map().contains_key((chunk_x as int, chunk_z as int))
                ==> forall|lx: int, y: int, lz: int|
                local_in_grid(lx, y, lz) ==> #[trigger] r.block_spec(lx, y, lz)
                    == terrain_block_of(
                    old(self).world_seed(),
                    chunk_x as int,
                    chunk_z as int,
                    lx,
                    y,
                    lz,
                ),
            forall|k: (int, int)| #[trigger]
                old(self).chunk_map().contains_key(k) ==> final(self).chunk_map().contains_key(k)
                    && final(self).chunk_map()[k] == old(self).chunk_map()[k],
            final(self).rd() == old(self).rd(),
            final(self).viewer() == old(self).viewer(),
            final(self).mesh_cache() == old(self).mesh_cache(),
            final(self).noise_handle() == old(self).noise_handle(),
    {
        if self.chunks.contains(chunk_x, chunk_z) {
            self.chunks.get_existing(chunk_x, chunk_z)
        } else {
            let ghost m0 = self.chunks@;
            let c = Chunk::new(chunk_x, chunk_z, rc_clone(&self.noise_field));
            self.chunks.insert(chunk_x, chunk_z, c);
            proof {
                assert forall|k: (int, int)| #[trigger]
                    self.chunks@.contains_key(k) implies self.chunks@[k].wf()
                    && self.chunks@[k].cx() == k.0 && self.chunks@[k].cz() == k.1 by {
                    if k == (chunk_x as int, chunk_z as int) {
                        assert(self.chunks@[k] == c);
                        assert(c.wf());
                    } else {
                        assert(m0.contains_key(k));
                        assert(old(self).chunk_map().contains_key(k));
                        assert(self.chunks@[k] == m0[k]);
                    }
                }
            }
            self.chunks.get_existing(chunk_x, chunk_z)
        }
    }

    /// Mutable lookup of a chunk; `None` when it was never created.
    /// Writing through the result replaces the chunk stored at that
    /// coordinate.
    pub fn get_chunk_mut(&mut self, chunk_x: i32, chunk_z: i32) -> (r: Option<&mut Chunk>)
        requires
            old(self).wf(),
        ensures
            match r {
                Some(c) => {
                    &&& old(self).chunk_map().contains_key((chunk_x as int, chunk_z as int))
                    &&& *c == old(self).chunk_map()[(chunk_x as int, chunk_z as int)]
                    &&& final(self).chunk_map() == old(self).chunk_map().insert(
                        (chunk_x as int, chunk_z as int),
                        *final(c),
                    )
                    &&& final(self).rd() == old(self).rd()
                    &&& final(self).viewer() == old(self).viewer()
                    &&& final(self).mesh_cache() == old(self).mesh_cache()
                    &&& final(self).noise_handle() == old(self).noise_handle()
                },
                None => {
                    &&& !old(self).chunk_map().contains_key((chunk_x as int, chunk_z as int))
                    &&& *final(self) == *old(self)
                },
            },
    {
        if self.chunks.contains(chunk_x, chunk_z) {
            Some(self.chunks.get_existing_mut(chunk_x, chunk_z))
        } else {
            None
        }
    }

    /// What a block query answers at a world position: nothing below
    /// the floor or in a chunk never created, the stored block
    /// otherwise.
    pub open spec fn block_query(self, x: int, y: int, z: int) -> Option<BlockType> {
        let k = (chunk_of(x), chunk_of(z));
        if y < 0 || !self.chunk_map().contains_key(k) {
            None
        } else {
            Some(self.chunk_map()[k].block_spec(local_of(x), y, local_of(z)))
        }
    }

    /// Whether a world position reads as air: below the floor is
    /// solid, a chunk never created is passable, and otherwise the
    /// stored block decides.
    pub open spec fn is_air_spec(self, x: int, y: int, z: int) -> bool {
        if y < 0 {
            false
        } else {
            match self.block_query(x, y, z) {
                None => true,
                Some(b) => b == BlockType::Air,
            }
        }
    }

    /// Whether the block at a world position reads as air. Below the
    /// world floor is solid; unloaded space is passable.
    pub fn air_at(&self, world_x: i32, world_y: i32, world_z: i32) -> (r: bool)
        requires
            self.wf(),
        ensures
            r == self.is_air_spec(world_x as int, world_y as int, world_z as int),
    {
        if world_y < 0 {
            return false;
        }
        let (chunk_x, chunk_z, local_x, local_z) = self.localize_coords_to_chunk(world_x, world_z);
        let chunk = self.get_chunk(chunk_x, chunk_z);
        match chunk {
            Some(chunk) => chunk.block_at(local_x, world_y as usize, local_z) == BlockType::Air,
            None => true,
        }
    }

    /// The block stored at a world position; `None` below the world
    /// floor or in a chunk never created.
    pub fn get_block(&self, world_x: i32, world_y: i32, world_z: i32) -> (r: Option<BlockType>)
        requires
            self.wf(),
        ensures
            r == self.block_query(world_x as int, world_y as int, world_z as int),
    {
        let (chunk_x, chunk_z, local_x, local_z) = self.localize_coords_to_chunk(world_x, world_z);
        let chunk = self.get_chunk(chunk_x, chunk_z);
        if chunk.is_none() || world_y < 0 {
            return None;
        }
        let result = Some(chunk.unwrap().block_at(local_x, world_y as usize, local_z));
        result
    }

    /// What a column query answers: the column's highest occupied y at
    /// or below `from` (clamped to the top of the grid), or nothing
    /// when the chunk was never created.
    pub open spec fn column_query(self, x: int, z: int, from: int) -> Option<int> {
        let k = (chunk_of(x), chunk_of(z));
        if !self.chunk_map().contains_key(k) {
            None
        } else {
            Some(
                self.chunk_map()[k].highest_from_spec(
                    local_of(x),
                    local_of(z),
                    if 0 <= from < 64 {
                        from
                    } else {
                        63
                    },
                ),
            )
        }
    }

    /// Highest occupied y in the column at a world position; `None`
    /// when the chunk was never created.
    pub fn highest_in_column(&self, world_x: i32, world_z: i32) -> (r: Option<usize>)
        requires
            self.wf(),
        ensures
            match r {
                Some(h) => Some(h as int) == self.column_query(world_x as int, world_z as int, 63),
                None => self.column_query(world_x as int, world_z as int, 63) is None,
            },
    {
        let (chunk_x, chunk_z, local_x, local_z) = self.localize_coords_to_chunk(world_x, world_z);
        let chunk = self.get_chunk(chunk_x, chunk_z);
        if chunk.is_none() {
            return None;
        }
        Some(chunk.unwrap().highest_in_column(local_x, local_z))
    }

    /// Highest occupied y at or below `world_y` in the column at a
    /// world position; `None` when the chunk was never created. A
    /// bound outside the grid scans from the top.
    pub fn highest_in_column_from_y(&self, world_x: i32, world_y: i32, world_z: i32) -> (r: Option<
        usize,
    >)
        requires
            self.wf(),
        ensures
            match r {
                Some(h) => Some(h as int) == self.column_query(
                    world_x as int,
                    world_z as int,
                    world_y as int,
                ),
                None => self.column_query(world_x as int, world_z as int, world_y as int) is None,
            },
    {
        let (chunk_x, chunk_z, local_x, local_z) = self.localize_coords_to_chunk(world_x, world_z);
        let chunk = self.get_chunk(chunk_x, chunk_z);
        if chunk.is_none() {
            return None;
        }
        let from: usize = if world_y >= 0 && world_y < 64 {
            world_y as usize
        } else {
            63
        };
        Some(chunk.unwrap().highest_in_column_from_y(local_x, from, local_z))
    }

    /// Write one block at a world position. The owning chunk must
    /// already exist: writing into a chunk never created is a caller
    /// error, not a recoverable one.
    pub fn set_block(&mut self, world_x: i32, world_y: i32, world_z: i32, block: BlockType)
        requires
            old(self).wf(),
            old(self).chunk_map().contains_key(
                (chunk_of(world_x as int), chunk_of(world_z as int)),
            ),
            0 <= world_y < 64,
        ensures
            final(self).wf(),
            final(self).chunk_map().dom() == old(self).chunk_map().dom(),
            forall|x: int, y: int, z: int| #[trigger]
                final(self).block_query(x, y, z) == if x == world_x as int && y == world_y as int
                    && z == world_z as int {
                    Some(block)
                } else {
                    old(self).block_query(x, y, z)
                },
            final(self).rd() == old(self).rd(),
            final(self).viewer() == old(self).viewer(),
            final(self).mesh_cache() == old(self).mesh_cache(),
            final(self).noise_handle() == old(self).noise_handle(),
    {
        let (chunk_x, chunk_z, local_x, local_z) = self.localize_coords_to_chunk(world_x, world_z);
        let chunk = self.chunks.get_existing_mut(chunk_x, chunk_z);
        chunk.set_block(local_x, world_y as usize, local_z, block);
        proof {
            let key = (chunk_x as int, chunk_z as int);
            assert(self.chunks@.dom() =~= old(self).chunks@.dom());
            assert forall|k: (int, int)| #[trigger]
                self.chunks@.contains_key(k) implies self.chunks@[k].wf() && self.chunks@[k].cx()
                == k.0 && self.chunks@[k].cz() == k.1 by {
                if k != key {
                    assert(self.chunks@[k] == old(self).chunks@[k]);
                }
            }
            lemma_set_block_queries(
                *old(self),
                *self,
                world_x as int,
                world_y as int,
                world_z as int,
                block,
            );
        }
    }
}

/// After writing one block into the owning chunk, every block query
/// answers as before except at the written position.
proof fn lemma_set_block_queries(pre: World, post: World, wx: int, wy: int, wz: int, block: BlockType)
    requires
        pre.wf(),
        0 <= wy < 64,
        pre.chunk_map().contains_key((chunk_of(wx), chunk_of(wz))),
        post.chunk_map().dom() == pre.chunk_map().dom(),
        post.chunk_map()[(chunk_of(wx), chunk_of(wz))].wf(),
        forall|k: (int, int)| #[trigger]
            post.chunk_map().contains_key(k) && k != (chunk_of(wx), chunk_of(wz))
                ==> post.chunk_map()[k] == pre.chunk_map()[k],
        forall|a: int, b: int, c: int| #[trigger]
            post.chunk_map()[(chunk_of(wx), chunk_of(wz))].block_spec(a, b, c) == if a == local_of(
                wx,
            ) && b == wy && c == local_of(wz) {
                block
            } else {
                pre.chunk_map()[(chunk_of(wx), chunk_of(wz))].block_spec(a, b, c)
            },
    ensures
        forall|x: int, y: int, z: int| #[trigger]
            post.block_query(x, y, z) == if x == wx && y == wy && z == wz {
                Some(block)
            } else {
                pre.block_query(x, y, z)
            },
{
    assert forall|x: int, y: int, z: int| #[trigger]
        post.block_query(x, y, z) == if x == wx && y == wy && z == wz {
            Some(block)
        } else {
            pre.block_query(x, y, z)
        } by {
        let k = (chunk_of(x), chunk_of(z));
        vstd::arithmetic::div_mod::lemma_fundamental_div_mod(x, 16);
        vstd::arithmetic::div_mod::lemma_fundamental_div_mod(z, 16);
        vstd::arithmetic::div_mod::lemma_fundamental_div_mod(wx, 16);
        vstd::arithmetic::div_mod::lemma_fundamental_div_mod(wz, 16);
        assert(post.chunk_map().contains_key(k) == pre.chunk_map().contains_key(k));
        if k == (chunk_of(wx), chunk_of(wz)) {
            if x == wx && y == wy && z == wz {
                assert(local_of(x) == local_of(wx) && local_of(z) == local_of(wz));
            } else {
                assert(!(local_of(x) == local_of(wx) && y == wy && local_of(z) == local_of(wz)));
            }
        }
    }
}

/// Membership in a pushed sequence: the pushed element, or one of the
/// old ones.
proof fn lemma_push_contains<A>(s: Seq<A>, x: A, y: A)
    ensures
        s.push(x).contains(y) <==> (s.contains(y) || y == x),
{
    assert(s.push(x)[s.len() as int] == x);
    if s.contains(y) {
        let i = choose|i: int| 0 <= i < s.len() && s[i] == y;
        assert(s.push(x)[i] == y);
    }
    if s.push(x).contains(y) && y != x {
        let i = choose|i: int| 0 <= i < s.push(x).len() && s.push(x)[i] == y;
        assert(s[i] == y);
    }
}

/// Membership in a concatenation: in one part or the other.
proof fn lemma_concat_contains<A>(a: Seq<A>, b: Seq<A>, y: A)
    ensures
        (a + b).contains(y) <==> (a.contains(y) || b.contains(y)),
{
    if a.contains(y) {
        let i = choose|i: int| 0 <= i < a.len() && a[i] == y;
        assert((a + b)[i] == y);
    }
    if b.contains(y) {
        let i = choose|i: int| 0 <= i < b.len() && b[i] == y;
        assert((a + b)[a.len() + i] == y);
    }
    if (a + b).contains(y) {
        let i = choose|i: int| 0 <= i < (a + b).len() && (a + b)[i] == y;
        if i < a.len() {
            assert(a[i] == y);
        } else {
            assert(b[i - a.len()] == y);
        }
    }
}

/// How a recomputation changes a world: existing chunks are kept
/// unchanged, exactly the viewport coordinates are created where
/// missing, and the mesh cache holds the viewport chunks' mesh
/// buffers in enumeration order.
pub open spec fn refreshed(pre: World, post: World, pcx: int, pcz: int) -> bool {
    &&& post.rd() == pre.rd()
    &&& post.noise_handle() == pre.noise_handle()
    &&& forall|k: (int, int)| #[trigger]
        pre.chunk_map().contains_key(k) ==> post.chunk_map().contains_key(k)
            && post.chunk_map()[k] == pre.chunk_map()[k]
    &&& forall|k: (int, int)| #[trigger]
        post.chunk_map().contains_key(k) ==> pre.chunk_map().contains_key(k) || viewport_pts(
            pcx,
            pcz,
            pre.rd(),
        ).contains(k)
    &&& forall|k: (int, int)|
        viewport_pts(pcx, pcz, pre.rd()).contains(k) ==> #[trigger] post.chunk_map().contains_key(
            k,
        )
    &&& post.mesh_cache().len() == viewport_pts(pcx, pcz, pre.rd()).len()
    &&& forall|j: int|
        0 <= j < post.mesh_cache().len() ==> post.chunk_map().contains_key(
            #[trigger] viewport_pts(pcx, pcz, pre.rd())[j],
        ) && post.mesh_cache()[j]@ == post.chunk_map()[viewport_pts(pcx, pcz, pre.rd())[j]].mesh_view()
}

/// What one viewport query does to a world: an unchanged world and the
/// cached buffers on a cache hit (same viewer chunk, non-empty cache,
/// no force), a recomputation with the viewer chunk updated otherwise.
pub open spec fn viewport_post(
    pre: World,
    post: World,
    pcx: int,
    pcz: int,
    force: bool,
    out: Seq<Rc<Vec<u32>>>,
) -> bool {
    if !force && pre.mesh_cache().len() > 0 && pre.viewer() == (pcx, pcz) {
        &&& post == pre
        &&& out == pre.mesh_cache()
    } else {
        &&& refreshed(pre, post, pcx, pcz)
        &&& post.viewer() == (pcx, pcz)
        &&& out == post.mesh_cache()
    }
}

impl World {
    /// Rebuild the mesh cache for a viewer at the given player chunk:
    /// enumerate the square of side `2 * render_distance` around it,
    /// skip candidates outside the inscribed disc, create missing
    /// chunks, and collect the mesh buffers in enumeration order. The
    /// cached viewer chunk itself is not changed here.
    #[verifier::loop_isolation(false)]
    pub fn recalculate_mesh_from_perspective(&mut self, player_chunk_x: i32, player_chunk_z: i32)
        requires
            old(self).wf(),
            -0x0800_0000 <= player_chunk_x <= 0x0800_0000,
            -0x0800_0000 <= player_chunk_z <= 0x0800_0000,
        ensures
            final(self).wf(),
            refreshed(*old(self), *final(self), player_chunk_x as int, player_chunk_z as int),
            final(self).viewer() == old(self).viewer(),
    {
        let ghost pcx = player_chunk_x as int;
        let ghost pcz = player_chunk_z as int;
        let ghost rdi = self.render_distance as int;
        let rd = self.render_distance;
        let mut meshes: Vec<Rc<Vec<u32>>> = Vec::new();
        let mut xi: u32 = 0;
        while xi < 2 * rd
            invariant
                xi <= 2 * rd,
                rd == self.render_distance,
                rdi == rd as int,
                self.wf(),
                self.rd() == old(self).rd(),
                self.viewer() == old(self).viewer(),
                self.noise_handle() == old(self).noise_handle(),
                self.mesh_cache() == old(self).mesh_cache(),
                forall|k: (int, int)| #[trigger]
                    old(self).chunk_map().contains_key(k) ==> self.chunk_map().contains_key(k)
                        && self.chunk_map()[k] == old(self).chunk_map()[k],
                forall|k: (int, int)| #[trigger]
                    self.chunk_map().contains_key(k) ==> old(self).chunk_map().contains_key(k)
                        || grid_pts(pcx, pcz, rdi, xi as nat).contains(k),
                forall|k: (int, int)|
                    grid_pts(pcx, pcz, rdi, xi as nat).contains(k)
                        ==> #[trigger] self.chunk_map().contains_key(k),
                meshes@.len() == grid_pts(pcx, pcz, rdi, xi as nat).len(),
                forall|j: int|
                    0 <= j < meshes@.len() ==> self.chunk_map().contains_key(
                        #[trigger] grid_pts(pcx, pcz, rdi, xi as nat)[j],
                    ) && meshes@[j]@ == self.chunk_map()[grid_pts(pcx, pcz, rdi, xi as nat)[j]].mesh_view(),
            decreases 2 * rd - xi,
        {
            let cx = xi as i32 - rd as i32 + player_chunk_x;
            let ghost gdone = grid_pts(pcx, pcz, rdi, xi as nat);
            let mut zi: u32 = 0;
            while zi < 2 * rd
                invariant
                    zi <= 2 * rd,
                    rd == self.render_distance,
                    rdi == rd as int,
                    cx as int == pcx - rdi + xi as int,
                    xi < 2 * rd,
                    self.wf(),
                    self.rd() == old(self).rd(),
                    self.viewer() == old(self).viewer(),
                    self.noise_handle() == old(self).noise_handle(),
                    self.mesh_cache() == old(self).mesh_cache(),
                    forall|k: (int, int)| #[trigger]
                        old(self).chunk_map().contains_key(k) ==> self.chunk_map().contains_key(k)
                            && self.chunk_map()[k] == old(self).chunk_map()[k],
                    forall|k: (int, int)| #[trigger]
                        self.chunk_map().contains_key(k) ==> old(self).chunk_map().contains_key(k)
                            || gdone.contains(k) || row_pts(
                            pcx,
                            pcz,
                            rdi,
                            cx as int,
                            zi as nat,
                        ).contains(k),
                    forall|k: (int, int)|
                        gdone.contains(k) ==> #[trigger] self.chunk_map().contains_key(k),
                    forall|k: (int, int)|
                        row_pts(pcx, pcz, rdi, cx as int, zi as nat).contains(k)
                            ==> #[trigger] self.chunk_map().contains_key(k),
                    meshes@.len() == gdone.len() + row_pts(pcx, pcz, rdi, cx as int, zi as nat).len(),
                    forall|j: int|
                        0 <= j < meshes@.len() ==> self.chunk_map().contains_key(
                            #[trigger] (gdone + row_pts(pcx, pcz, rdi, cx as int, zi as nat))[j],
                        ) && meshes@[j]@ == self.chunk_map()[(gdone + row_pts(
                            pcx,
                            pcz,
                            rdi,
                            cx as int,
                            zi as nat,
                        ))[j]].mesh_view(),
                decreases 2 * rd - zi,
            {
                let cz = zi as i32 - rd as i32 + player_chunk_z;
                let dx = rd as i64 - xi as i64;
                let dz = rd as i64 - zi as i64;
                proof {
                    assert(0 <= dx * dx <= 0x1_0000_0000 && 0 <= dz * dz <= 0x1_0000_0000 && 0
                        <= (rd as i64) * (rd as i64) <= 0x1_0000_0000) by (nonlinear_arith)
                        requires
                            -0x1_0000 <= dx <= 0x1_0000,
                            -0x1_0000 <= dz <= 0x1_0000,
                            0 <= rd <= 0x1_0000,
                    ;
                }
                let ghost rowpre = row_pts(pcx, pcz, rdi, cx as int, zi as nat);
                let ghost kk = (cx as int, cz as int);
                if dx * dx + dz * dz <= (rd as i64) * (rd as i64) {
                    proof {
                        assert(in_disc(pcx, pcz, rdi, cx as int, cz as int));
                        assert(row_pts(pcx, pcz, rdi, cx as int, (zi + 1) as nat) == rowpre.push(
                            kk,
                        ));
                    }
                    let ghost pre_call = *self;
                    let c = self.get_or_insert_chunk(cx, cz);
                    let m = rc_clone(c.mesh_handle());
                    meshes.push(m);
                    proof {
                        let rownext = row_pts(pcx, pcz, rdi, cx as int, (zi + 1) as nat);
                        assert(gdone + rownext =~= (gdone + rowpre).push(kk));
                        assert forall|k: (int, int)| #[trigger]
                            self.chunk_map().contains_key(k) implies old(
                            self,
                        ).chunk_map().contains_key(k) || gdone.contains(k) || rownext.contains(
                            k,
                        ) by {
                            lemma_push_contains(rowpre, kk, k);
                            if k != kk {
                                assert(pre_call.chunk_map().contains_key(k));
                            }
                        }
                        assert forall|k: (int, int)| rownext.contains(k)
                            implies #[trigger] self.chunk_map().contains_key(k) by {
                            lemma_push_contains(rowpre, kk, k);
                        }
                        assert forall|j: int| 0 <= j < meshes@.len() implies self.chunk_map().contains_key(
                            #[trigger] (gdone + rownext)[j],
                        ) && meshes@[j]@ == self.chunk_map()[(gdone + rownext)[j]].mesh_view() by {
                            if j < meshes@.len() - 1 {
                                assert((gdone + rownext)[j] == (gdone + rowpre)[j]);
                                assert(pre_call.chunk_map().contains_key((gdone + rowpre)[j]));
                            } else {
                                assert((gdone + rownext)[j] == kk);
                            }
                        }
                    }
                } else {
                    proof {
                        assert(!in_disc(pcx, pcz, rdi, cx as int, cz as int));
                        assert(row_pts(pcx, pcz, rdi, cx as int, (zi + 1) as nat) == rowpre);
                    }
                }
                zi = zi + 1;
            }
            proof {
                assert(grid_pts(pcx, pcz, rdi, (xi + 1) as nat) == gdone + row_pts(
                    pcx,
                    pcz,
                    rdi,
                    cx as int,
                    (2 * rd) as nat,
                ));
                assert forall|k: (int, int)|
                    grid_pts(pcx, pcz, rdi, (xi + 1) as nat).contains(k)
                        implies #[trigger] self.chunk_map().contains_key(k) by {
                    lemma_concat_contains(
                        gdone,
                        row_pts(pcx, pcz, rdi, cx as int, (2 * rd) as nat),
                        k,
                    );
                }
                assert forall|k: (int, int)| #[trigger]
                    self.chunk_map().contains_key(k) implies old(self).chunk_map().contains_key(k)
                    || grid_pts(pcx, pcz, rdi, (xi + 1) as nat).contains(k) by {
                    lemma_concat_contains(
                        gdone,
                        row_pts(pcx, pcz, rdi, cx as int, (2 * rd) as nat),
                        k,
                    );
                }
            }
            xi = xi + 1;
        }
        let ghost snap = *self;
        self.mesh = meshes;
        proof {
            let pre = *old(self);
            let pts = viewport_pts(pcx, pcz, pre.rd());
            assert(self.chunk_map() == snap.chunk_map());
            assert(rdi == pre.rd());
            assert(xi as nat == (2 * rdi) as nat);
            assert(pts == grid_pts(pcx, pcz, rdi, xi as nat));
            assert forall|k: (int, int)| #[trigger]
                self.chunk_map().contains_key(k) implies self.chunk_map()[k].wf()
                && self.chunk_map()[k].cx() == k.0 && self.chunk_map()[k].cz() == k.1 by {
                assert(snap.chunk_map().contains_key(k));
            }
            assert(self.wf());
            assert forall|k: (int, int)| #[trigger]
                pre.chunk_map().contains_key(k) implies self.chunk_map().contains_key(k)
                && self.chunk_map()[k] == pre.chunk_map()[k] by {
                assert(snap.chunk_map().contains_key(k));
            }
            assert forall|k: (int, int)| #[trigger]
                self.chunk_map().contains_key(k) implies pre.chunk_map().contains_key(k)
                || pts.contains(k) by {
                assert(snap.chunk_map().contains_key(k));
            }
            assert forall|k: (int, int)| pts.contains(k)
                implies #[trigger] self.chunk_map().contains_key(k) by {
                assert(snap.chunk_map().contains_key(k));
            }
            assert(self.mesh_cache() == meshes@);
            assert forall|j: int| 0 <= j < self.mesh_cache().len() implies self.chunk_map().contains_key(
                #[trigger] pts[j],
            ) && self.mesh_cache()[j]@ == self.chunk_map()[pts[j]].mesh_view() by {
                assert(pts[j] == grid_pts(pcx, pcz, rdi, xi as nat)[j]);
                assert(snap.chunk_map().contains_key(grid_pts(pcx, pcz, rdi, xi as nat)[j]));
            }
            assert(refreshed(pre, *self, pcx, pcz));
        }
    }

    /// The mesh buffers in view from a player at a world position.
    /// When `force` is false, the cache is non-empty and the player is
    /// still in the chunk the cache was computed for, the cached
    /// sequence is returned unchanged; otherwise the cache is
    /// recomputed for the player's chunk and the viewer chunk updated.
    pub fn get_world_mesh_from_perspective(&mut self, player_x: i32, player_z: i32, force: bool) -> (r: &Vec<Rc<Vec<u32>>>)
        requires
            old(self).wf(),
        ensures
            final(self).wf(),
            (*r)@ == final(self).mesh_cache(),
            viewport_post(
                *old(self),
                *final(self),
                chunk_of(player_x as int),
                chunk_of(player_z as int),
                force,
                (*r)@,
            ),
    {
        let (player_chunk_x, player_chunk_z, _, _) = self.localize_coords_to_chunk(
            player_x,
            player_z,
        );
        if !force && self.mesh.len() > 0 && self.player_chunk_x == player_chunk_x
            && self.player_chunk_z == player_chunk_z {
            return &self.mesh;
        }
        self.recalculate_mesh_from_perspective(player_chunk_x, player_chunk_z);
        let ghost mid = *self;
        self.player_chunk_x = player_chunk_x;
        self.player_chunk_z = player_chunk_z;
        proof {
            let pre = *old(self);
            let pcxi = player_chunk_x as int;
            let pczi = player_chunk_z as int;
            let pts = viewport_pts(pcxi, pczi, pre.rd());
            assert(self.chunk_map() == mid.chunk_map());
            assert(self.mesh_cache() == mid.mesh_cache());
            assert(refreshed(pre, mid, pcxi, pczi));
            assert forall|k: (int, int)| #[trigger]
                self.chunk_map().contains_key(k) implies self.chunk_map()[k].wf()
                && self.chunk_map()[k].cx() == k.0 && self.chunk_map()[k].cz() == k.1 by {
                assert(mid.chunk_map().contains_key(k));
            }
            assert(self.wf());
            assert forall|k: (int, int)| #[trigger]
                pre.chunk_map().contains_key(k) implies self.chunk_map().contains_key(k)
                && self.chunk_map()[k] == pre.chunk_map()[k] by {
                assert(mid.chunk_map().contains_key(k));
            }
            assert forall|k: (int, int)| #[trigger]
                self.chunk_map().contains_key(k) implies pre.chunk_map().contains_key(k)
                || pts.contains(k) by {
                assert(mid.chunk_map().contains_key(k));
            }
            assert forall|k: (int, int)| pts.contains(k)
                implies #[trigger] self.chunk_map().contains_key(k) by {
                assert(mid.chunk_map().contains_key(k));
            }
            assert forall|j: int| 0 <= j < self.mesh_cache().len() implies self.chunk_map().contains_key(
                #[trigger] pts[j],
            ) && self.mesh_cache()[j]@ == self.chunk_map()[pts[j]].mesh_view() by {
                assert(mid.chunk_map().contains_key(pts[j]));
                assert(mid.mesh_cache()[j]@ == mid.chunk_map()[pts[j]].mesh_view());
            }
            assert(refreshed(pre, *self, pcxi, pczi));
        }
        &self.mesh
    }
}

/// The absolute value of an approach component.
pub open spec fn abs_val(v: int) -> int {
    if v >= 0 {
        v
    } else {
        -v
    }
}

/// Whether a ray sample cell holds a solid block: its chunk exists,
/// the cell is not below the floor, and the stored block is not air.
pub open spec fn solid_hit(w: World, c: (int, int, int)) -> bool {
    match w.block_query(c.0, c.1, c.2) {
        Some(b) => b != BlockType::Air,
        None => false,
    }
}

/// The first step in `k ..= 250` whose sampled cell holds a solid
/// block, if any.
pub open spec fn hit_step(w: World, p: Vec3Milli, d: Vec3Milli, k: int) -> Option<int>
    decreases 251 - k,
{
    if k > 250 {
        None
    } else if solid_hit(w, ray_cell(p, d, k)) {
        Some(k)
    } else {
        hit_step(w, p, d, k + 1)
    }
}

/// Which face of the struck cube the ray arrived through, given the
/// approach vector (from just before the hit back toward the ray
/// origin, negated): check the x, then y, then z neighbor on the side
/// the approach came from, preferring a later axis only when its
/// component dominates the best axis found so far; `None` when no
/// checked neighbor is air.
pub open spec fn face_spec(w: World, x: int, y: int, z: int, vx: int, vy: int, vz: int) -> Option<
    Face,
> {
    let sx: int = if vx > 0 {
        1
    } else {
        -1
    };
    let sy: int = if vy > 0 {
        1
    } else {
        -1
    };
    let sz: int = if vz > 0 {
        1
    } else {
        -1
    };
    let ax = abs_val(vx);
    let ay = abs_val(vy);
    let az = abs_val(vz);
    let x_found = w.is_air_spec(x + sx, y, z);
    let f1: Option<Face> = if x_found {
        if vx > 0 {
            Some(Face::Right)
        } else {
            Some(Face::Left)
        }
    } else {
        None
    };
    let y_found = (f1 is None || ay > ax) && w.is_air_spec(x, y + sy, z);
    let f2: Option<Face> = if y_found {
        if vy > 0 {
            Some(Face::Top)
        } else {
            Some(Face::Bottom)
        }
    } else {
        f1
    };
    let best_is_x = x_found && !y_found;
    let z_cond = f2 is None || (if best_is_x {
        az > ax
    } else {
        az > ay
    });
    if z_cond && w.is_air_spec(x, y, z + sz) {
        if vz > 0 {
            Some(Face::Back)
        } else {
            Some(Face::Front)
        }
    } else {
        f2
    }
}

/// The raymarch finds no hit exactly when no step in `k ..= 250`
/// samples a solid cell.
pub proof fn lemma_hit_step_none(w: World, p: Vec3Milli, d: Vec3Milli, k: int)
    ensures
        hit_step(w, p, d, k) is None <==> (forall|j: int|
            k <= j <= 250 ==> !solid_hit(w, #[trigger] ray_cell(p, d, j))),
    decreases 251 - k,
{
    if k <= 250 {
        lemma_hit_step_none(w, p, d, k + 1);
    }
}

/// Sign of an approach component: positive to 1, everything else
/// (zero included) to -1.
fn signum(n: i64) -> (s: i32)
    ensures
        s as int == if n > 0 {
            1int
        } else {
            -1int
        },
{
    if n > 0 {
        1
    } else {
        -1
    }
}

impl World {
    /// Resolve which face of the cube at `(x, y, z)` a ray with the
    /// given approach vector struck.
    fn resolve_face(&self, x: i32, y: i32, z: i32, vx: i64, vy: i64, vz: i64) -> (r: Option<Face>)
        requires
            self.wf(),
            -0x7FFF_FFFF <= x <= 0x7FFF_FFFE,
            -0x7FFF_FFFF <= y <= 0x7FFF_FFFE,
            -0x7FFF_FFFF <= z <= 0x7FFF_FFFE,
            -20_000_000_005_000 <= vx <= 20_000_000_005_000,
            -20_000_000_005_000 <= vy <= 20_000_000_005_000,
            -20_000_000_005_000 <= vz <= 20_000_000_005_000,
        ensures
            r == face_spec(*self, x as int, y as int, z as int, vx as int, vy as int, vz as int),
    {
        let sx = signum(vx);
        let sy = signum(vy);
        let sz = signum(vz);
        let ax = if vx >= 0 {
            vx
        } else {
            -vx
        };
        let ay = if vy >= 0 {
            vy
        } else {
            -vy
        };
        let az = if vz >= 0 {
            vz
        } else {
            -vz
        };
        let mut face: Option<Face> = None;
        let mut face_is_x = false;
        if self.air_at(x + sx, y, z) {
            face = if vx > 0 {
                Some(Face::Right)
            } else {
                Some(Face::Left)
            };
            face_is_x = true;
        }
        if face.is_none() || ay > ax {
            if self.air_at(x, y + sy, z) {
                face = if vy > 0 {
                    Some(Face::Top)
                } else {
                    Some(Face::Bottom)
                };
                face_is_x = false;
            }
        }
        let z_dominates = if face_is_x {
            az > ax
        } else {
            az > ay
        };
        if face.is_none() || z_dominates {
            if self.air_at(x, y, z + sz) {
                face = if vz > 0 {
                    Some(Face::Back)
                } else {
                    Some(Face::Front)
                };
            }
        }
        face
    }

    /// March a ray from `position` along `direction`, advancing a
    /// tenth of the direction per step and rounding to the nearest
    /// block. A hit is the first step (of at most 250) whose block is
    /// stored and solid, reported with the face the ray arrived
    /// through; `None` when the step budget runs out.
    #[verifier::loop_isolation(false)]
    pub fn raymarch_block(&mut self, position: &Vec3Milli, direction: &Vec3Milli) -> (r: Option<
        ((i32, i32, i32), Option<Face>),
    >)
        requires
            old(self).wf(),
            pos_in_range(*position),
            dir_in_range(*direction),
        ensures
            *final(self) == *old(self),
            ({
                let w = *old(self);
                let p = *position;
                let d = *direction;
                match hit_step(w, p, d, 1) {
                    None => r is None,
                    Some(k) => {
                        let c = ray_cell(p, d, k);
                        r == Some(
                            (
                                (c.0 as i32, c.1 as i32, c.2 as i32),
                                face_spec(
                                    w,
                                    c.0,
                                    c.1,
                                    c.2,
                                    -((k - 1) * d.x),
                                    -((k - 1) * d.y),
                                    -((k - 1) * d.z),
                                ),
                            ),
                        )
                    },
                }
            }),
    {
        let ghost w = *old(self);
        let ghost p = *position;
        let ghost d = *direction;
        let mut k: u32 = 1;
        while k <= 250
            invariant
                1 <= k <= 251,
                hit_step(w, p, d, 1) == hit_step(w, p, d, k as int),
            decreases 251 - k,
        {
            proof {
                assert((k as i64) * direction.x <= 10_000_000_000_000 && (k as i64) * direction.x
                    >= -10_000_000_000_000 && (k as i64) * direction.y <= 10_000_000_000_000 && (
                k as i64) * direction.y >= -10_000_000_000_000 && (k as i64) * direction.z
                    <= 10_000_000_000_000 && (k as i64) * direction.z >= -10_000_000_000_000)
                    by (nonlinear_arith)
                    requires
                        1 <= k <= 250,
                        dir_in_range(*direction),
                        d == *direction,
                ;
            }
            let nx = 10 * position.x + (k as i64) * direction.x;
            let ny = 10 * position.y + (k as i64) * direction.y;
            let nz = 10 * position.z + (k as i64) * direction.z;
            let cx = round_step(nx);
            let cy = round_step(ny);
            let cz = round_step(nz);
            let bx = cx as i32;
            let by = cy as i32;
            let bz = cz as i32;
            proof {
                assert(ray_cell(p, d, k as int) == (bx as int, by as int, bz as int));
            }
            let block = self.get_block(bx, by, bz);
            let mut solid = false;
            if let Some(b) = block {
                if !(b == BlockType::Air) {
                    solid = true;
                }
            }
            if solid {
                proof {
                    assert(solid_hit(w, ray_cell(p, d, k as int)));
                    assert(hit_step(w, p, d, k as int) == Some(k as int));
                    assert(((k as int) - 1) * (d.x as int) == ((k as i64) - 1) as int * (
                    direction.x as int));
                    assert((((k as i64) - 1) * direction.x) <= 20_000_000_000_000 && (((k as i64)
                        - 1) * direction.x) >= -20_000_000_000_000 && (((k as i64) - 1)
                        * direction.y) <= 20_000_000_000_000 && (((k as i64) - 1) * direction.y)
                        >= -20_000_000_000_000 && (((k as i64) - 1) * direction.z)
                        <= 20_000_000_000_000 && (((k as i64) - 1) * direction.z)
                        >= -20_000_000_000_000) by (nonlinear_arith)
                        requires
                            1 <= k <= 250,
                            dir_in_range(*direction),
                            d == *direction,
                    ;
                }
                let vx = -((k as i64 - 1) * direction.x);
                let vy = -((k as i64 - 1) * direction.y);
                let vz = -((k as i64 - 1) * direction.z);
                let face = self.resolve_face(bx, by, bz, vx, vy, vz);
                return Some(((bx, by, bz), face));
            }
            proof {
                assert(!solid_hit(w, ray_cell(p, d, k as int)));
                assert(hit_step(w, p, d, k as int) == hit_step(w, p, d, k as int + 1));
            }
            k = k + 1;
        }
        proof {
            assert(hit_step(w, p, d, k as int) is None);
        }
        None
    }
}

/// Everything a viewport row holds: column `cx`, z in the enumerated
/// range, inside the disc.
proof fn lemma_row_pts_set(pcx: int, pcz: int, rd: int, cx: int, n: nat)
    ensures
        forall|c: (int, int)| #[trigger]
            row_pts(pcx, pcz, rd, cx, n).contains(c) <==> (c.0 == cx && pcz - rd <= c.1 < pcz - rd
                + n && in_disc(pcx, pcz, rd, c.0, c.1)),
    decreases n,
{
    if n > 0 {
        lemma_row_pts_set(pcx, pcz, rd, cx, (n - 1) as nat);
        let prev = row_pts(pcx, pcz, rd, cx, (n - 1) as nat);
        let cz = pcz - rd + n - 1;
        assert forall|c: (int, int)| #[trigger]
            row_pts(pcx, pcz, rd, cx, n).contains(c) <==> (c.0 == cx && pcz - rd <= c.1 < pcz - rd
                + n && in_disc(pcx, pcz, rd, c.0, c.1)) by {
            if in_disc(pcx, pcz, rd, cx, cz) {
                lemma_push_contains(prev, (cx, cz), c);
            }
        }
    }
}

/// Everything the first `m` rows hold: x in the enumerated range, z in
/// the enumerated range, inside the disc.
proof fn lemma_grid_pts_set(pcx: int, pcz: int, rd: int, m: nat)
    requires
        rd >= 0,
    ensures
        forall|c: (int, int)| #[trigger]
            grid_pts(pcx, pcz, rd, m).contains(c) <==> (pcx - rd <= c.0 < pcx - rd + m && pcz - rd
                <= c.1 < pcz + rd && in_disc(pcx, pcz, rd, c.0, c.1)),
    decreases m,
{
    if m > 0 {
        lemma_grid_pts_set(pcx, pcz, rd, (m - 1) as nat);
        lemma_row_pts_set(pcx, pcz, rd, pcx - rd + m - 1, (2 * rd) as nat);
        assert forall|c: (int, int)| #[trigger]
            grid_pts(pcx, pcz, rd, m).contains(c) <==> (pcx - rd <= c.0 < pcx - rd + m && pcz - rd
                <= c.1 < pcz + rd && in_disc(pcx, pcz, rd, c.0, c.1)) by {
            lemma_concat_contains(
                grid_pts(pcx, pcz, rd, (m - 1) as nat),
                row_pts(pcx, pcz, rd, pcx - rd + m - 1, (2 * rd) as nat),
                c,
            );
        }
    }
}

/// Viewport disc law: every chunk coordinate the viewport holds lies
/// in the enumerated square and within Euclidean distance `rd` of the
/// player chunk, and every square coordinate within that distance is
/// held; square coordinates farther away are excluded.
pub proof fn lemma_viewport_disc(pcx: int, pcz: int, rd: int)
    requires
        rd >= 0,
    ensures
        forall|c: (int, int)| #[trigger]
            viewport_pts(pcx, pcz, rd).contains(c) ==> in_disc(pcx, pcz, rd, c.0, c.1) && pcx - rd
                <= c.0 < pcx + rd && pcz - rd <= c.1 < pcz + rd,
        forall|c: (int, int)|
            pcx - rd <= c.0 < pcx + rd && pcz - rd <= c.1 < pcz + rd && in_disc(
                pcx,
                pcz,
                rd,
                c.0,
                c.1,
            ) ==> #[trigger] viewport_pts(pcx, pcz, rd).contains(c),
        forall|c: (int, int)|
            pcx - rd <= c.0 < pcx + rd && pcz - rd <= c.1 < pcz + rd && !in_disc(
                pcx,
                pcz,
                rd,
                c.0,
                c.1,
            ) ==> !#[trigger] viewport_pts(pcx, pcz, rd).contains(c),
{
    lemma_grid_pts_set(pcx, pcz, rd, (2 * rd) as nat);
}

/// Cache-hit law: of two viewport queries for the same player chunk,
/// the second one unforced, the second neither creates nor changes any
/// chunk and returns the same mesh buffers.
pub proof fn lemma_viewport_cache_hit(
    s0: World,
    s1: World,
    s2: World,
    pcx: int,
    pcz: int,
    force: bool,
    out1: Seq<Rc<Vec<u32>>>,
    out2: Seq<Rc<Vec<u32>>>,
)
    requires
        viewport_post(s0, s1, pcx, pcz, force, out1),
        viewport_post(s1, s2, pcx, pcz, false, out2),
    ensures
        s2.chunk_map() == s1.chunk_map(),
        out2 == out1,
{
    if !force && s0.mesh_cache().len() > 0 && s0.viewer() == (pcx, pcz) {
        assert(s2 == s1);
    } else {
        if s1.mesh_cache().len() > 0 {
            assert(s2 == s1);
        } else {
            let pts = viewport_pts(pcx, pcz, s1.rd());
            assert(s1.rd() == s0.rd());
            assert(pts.len() == 0);
            assert forall|k: (int, int)| #[trigger]
                s2.chunk_map().contains_key(k) implies s1.chunk_map().contains_key(k) by {
                if pts.contains(k) {
                    let i = choose|i: int| 0 <= i < pts.len() && pts[i] == k;
                }
            }
            assert(s2.chunk_map() =~= s1.chunk_map());
            assert(out1 =~= out2);
        }
    }
}

/// Below the world floor nothing reads as air.
pub proof fn lemma_below_floor_solid(w: World, x: int, y: int, z: int)
    requires
        y < 0,
    ensures
        !w.is_air_spec(x, y, z),
{
}

/// A coordinate whose chunk was never created reads as air, and a
/// block query there answers nothing.
pub proof fn lemma_unloaded_chunk(w: World, x: int, y: int, z: int)
    requires
        !w.chunk_map().contains_key((chunk_of(x), chunk_of(z))),
    ensures
        w.block_query(x, y, z) is None,
        y >= 0 ==> w.is_air_spec(x, y, z),
{
}

} // verus!
