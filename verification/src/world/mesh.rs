//! Renderable surface geometry. A mesh holds plain vertex and index
//! buffers; every exposed block face contributes one quad of four vertices
//! and six indices (two counter-clockwise triangles). The spec functions
//! here pin down, face by face and in loop order, exactly which geometry a
//! block grid produces.

use vstd::prelude::*;
use crate::world::WorldPos;
use crate::world::block::BlockSide;
use crate::world::block::BlockType;
use crate::world::block::spec_is_renderable_adjacent;
use crate::world::block::spec_is_solid;
use crate::world::block::spec_texture;

verus! {

/// An individual 3D vertex. Positions are whole block corners; the texture
/// cell is an atlas coordinate; the side the face looks toward doubles as
/// its normal vector.
#[derive(Copy, Clone, Debug, PartialEq, Eq, Structural)]
pub struct Vertex {
    pub x: i64,
    pub y: i64,
    pub z: i64,
    pub tex_x: u8,
    pub tex_y: u8,
    pub side: BlockSide,
    pub highlighted: bool,
}

/// A 3D mesh: a triangle list over a vertex buffer.
pub struct Mesh {
    pub vertices: Vec<Vertex>,
    pub indices: Vec<u32>,
}

impl Mesh {
    /// An empty mesh.
    pub fn new() -> (r: Mesh)
        ensures
            r.vertices@ == Seq::<Vertex>::empty(),
            r.indices@ == Seq::<u32>::empty(),
    {
        Mesh { vertices: Vec::new(), indices: Vec::new() }
    }
}

/// Position of a block cell in the flat grid vector: `x` strides by a full
/// plane, then `z` by a column, then `y`.
pub open spec fn cell_index(x: int, y: int, z: int) -> int {
    (x * 16 + z) * 256 + y
}

/// The block held at local cell (x, y, z) of a chunk grid.
pub open spec fn block_at(grid: Seq<BlockType>, x: int, y: int, z: int) -> BlockType {
    grid[cell_index(x, y, z)]
}

/// The in-chunk neighbour cell a face looks toward, or `None` at the
/// chunk's own boundary.
pub open spec fn neighbor_cell(side: BlockSide, x: int, y: int, z: int) -> Option<(int, int, int)> {
    match side {
        BlockSide::Bottom => if y > 0 { Some((x, y - 1, z)) } else { None },
        BlockSide::Top => if y < 255 { Some((x, y + 1, z)) } else { None },
        BlockSide::Left => if x > 0 { Some((x - 1, y, z)) } else { None },
        BlockSide::Right => if x < 15 { Some((x + 1, y, z)) } else { None },
        BlockSide::Front => if z > 0 { Some((x, y, z - 1)) } else { None },
        BlockSide::Back => if z < 15 { Some((x, y, z + 1)) } else { None },
    }
}

/// Whether the face of cell (x, y, z) toward `side` is emitted: air emits
/// nothing; a face against an in-chunk neighbour is culled unless the
/// neighbour is see-through and of a different kind; at the chunk's own
/// boundary, the bottom face is culled and every other face is emitted
/// without consulting the adjacent chunk.
pub open spec fn face_visible(grid: Seq<BlockType>, x: int, y: int, z: int, side: BlockSide) -> bool {
    let b = block_at(grid, x, y, z);
    &&& b != BlockType::Air
    &&& match neighbor_cell(side, x, y, z) {
        Some(n) => {
            let nb = block_at(grid, n.0, n.1, n.2);
            spec_is_renderable_adjacent(nb) && nb != b
        },
        None => side != BlockSide::Bottom,
    }
}

/// Corner offsets of the quad for a face, in emission order
/// (bottom-left, top-left, bottom-right, top-right), wound so the front of
/// the two triangles faces out of the block.
pub open spec fn corner_offset(side: BlockSide, k: int) -> (int, int, int) {
    match side {
        BlockSide::Front => if k == 0 { (0, 0, 0) } else if k == 1 { (0, 1, 0) }
            else if k == 2 { (1, 0, 0) } else { (1, 1, 0) },
        BlockSide::Back => if k == 0 { (1, 0, 1) } else if k == 1 { (1, 1, 1) }
            else if k == 2 { (0, 0, 1) } else { (0, 1, 1) },
        BlockSide::Top => if k == 0 { (0, 1, 0) } else if k == 1 { (0, 1, 1) }
            else if k == 2 { (1, 1, 0) } else { (1, 1, 1) },
        BlockSide::Bottom => if k == 0 { (0, 0, 1) } else if k == 1 { (0, 0, 0) }
            else if k == 2 { (1, 0, 1) } else { (1, 0, 0) },
        BlockSide::Left => if k == 0 { (0, 0, 1) } else if k == 1 { (0, 1, 1) }
            else if k == 2 { (0, 0, 0) } else { (0, 1, 0) },
        BlockSide::Right => if k == 0 { (1, 0, 0) } else if k == 1 { (1, 1, 0) }
            else if k == 2 { (1, 0, 1) } else { (1, 1, 1) },
    }
}

/// Atlas coordinates of the four quad corners of a face whose block texture
/// cell is (tx, ty).
pub open spec fn corner_tex(tx: int, ty: int, k: int) -> (int, int) {
    if k == 0 { (tx + 1, ty + 1) } else if k == 1 { (tx + 1, ty) }
    else if k == 2 { (tx, ty + 1) } else { (tx, ty) }
}

/// The texture cell of a visible face (visible faces are never air, so the
/// lookup yields a cell).
pub open spec fn face_tex(grid: Seq<BlockType>, x: int, y: int, z: int, side: BlockSide) -> (int, int) {
    match spec_texture(block_at(grid, x, y, z), side) {
        Some(t) => (t.0 as int, t.1 as int),
        None => (0, 0),
    }
}

/// Whether the highlight marker of the chunk sits exactly on this face.
pub open spec fn face_highlighted(
    hl: Option<(usize, usize, usize, BlockSide)>, x: int, y: int, z: int, side: BlockSide,
) -> bool {
    match hl {
        Some(h) => h.0 == x && h.1 == y && h.2 == z && h.3 == side,
        None => false,
    }
}

/// Corner `k` of the quad emitted for a face, in world coordinates.
pub open spec fn face_vertex(
    origin: WorldPos,
    grid: Seq<BlockType>,
    hl: Option<(usize, usize, usize, BlockSide)>,
    x: int, y: int, z: int,
    side: BlockSide,
    k: int,
) -> Vertex {
    let off = corner_offset(side, k);
    let tex = face_tex(grid, x, y, z, side);
    let tc = corner_tex(tex.0, tex.1, k);
    Vertex {
        x: (origin.x + x + off.0) as i64,
        y: (y + off.1) as i64,
        z: (origin.z + z + off.2) as i64,
        tex_x: tc.0 as u8,
        tex_y: tc.1 as u8,
        side: side,
        highlighted: face_highlighted(hl, x, y, z, side),
    }
}

/// The four vertices of the quad emitted for a face.
pub open spec fn face_vertices(
    origin: WorldPos,
    grid: Seq<BlockType>,
    hl: Option<(usize, usize, usize, BlockSide)>,
    x: int, y: int, z: int,
    side: BlockSide,
) -> Seq<Vertex> {
    seq![
        face_vertex(origin, grid, hl, x, y, z, side, 0),
        face_vertex(origin, grid, hl, x, y, z, side, 1),
        face_vertex(origin, grid, hl, x, y, z, side, 2),
        face_vertex(origin, grid, hl, x, y, z, side, 3),
    ]
}

/// The six indices of the two triangles of a quad whose first vertex sits
/// at `base` in the vertex buffer.
pub open spec fn face_index_pattern(base: int) -> Seq<u32> {
    seq![
        (base + 3) as u32, (base + 2) as u32, base as u32,
        (base + 3) as u32, base as u32, (base + 1) as u32,
    ]
}

/// The order in which the six sides of one cell are visited.
pub open spec fn side_of_order(j: int) -> BlockSide {
    if j == 0 { BlockSide::Front } else if j == 1 { BlockSide::Back }
    else if j == 2 { BlockSide::Top } else if j == 3 { BlockSide::Bottom }
    else if j == 4 { BlockSide::Left } else { BlockSide::Right }
}

/// The cell and side visited at linear meshing step `s`: cells go x-major,
/// then y, then z, and each cell visits its six sides in order.
pub open spec fn step_x(s: int) -> int { s / 6 / 4096 }

pub open spec fn step_y(s: int) -> int { (s / 6 / 16) % 256 }

pub open spec fn step_z(s: int) -> int { (s / 6) % 16 }

pub open spec fn step_side(s: int) -> BlockSide { side_of_order(s % 6) }

/// Whether meshing step `s` emits a face.
pub open spec fn step_visible(grid: Seq<BlockType>, s: int) -> bool {
    face_visible(grid, step_x(s), step_y(s), step_z(s), step_side(s))
}

/// The vertex buffer after the first `s` meshing steps.
pub open spec fn mesh_verts_upto(
    origin: WorldPos,
    grid: Seq<BlockType>,
    hl: Option<(usize, usize, usize, BlockSide)>,
    s: int,
) -> Seq<Vertex>
    decreases s,
{
    if s <= 0 {
        Seq::empty()
    } else if step_visible(grid, s - 1) {
        mesh_verts_upto(origin, grid, hl, s - 1)
            + face_vertices(origin, grid, hl,
                step_x(s - 1), step_y(s - 1), step_z(s - 1), step_side(s - 1))
    } else {
        mesh_verts_upto(origin, grid, hl, s - 1)
    }
}

/// The index buffer after the first `s` meshing steps.
pub open spec fn mesh_idx_upto(
    origin: WorldPos,
    grid: Seq<BlockType>,
    hl: Option<(usize, usize, usize, BlockSide)>,
    s: int,
) -> Seq<u32>
    decreases s,
{
    if s <= 0 {
        Seq::empty()
    } else if step_visible(grid, s - 1) {
        mesh_idx_upto(origin, grid, hl, s - 1)
            + face_index_pattern(mesh_verts_upto(origin, grid, hl, s - 1).len() as int)
    } else {
        mesh_idx_upto(origin, grid, hl, s - 1)
    }
}

/// Total number of meshing steps of one chunk.
pub open spec fn mesh_steps() -> int {
    393216
}

/// The vertex buffer of a whole chunk grid.
pub open spec fn spec_mesh_vertices(
    origin: WorldPos,
    grid: Seq<BlockType>,
    hl: Option<(usize, usize, usize, BlockSide)>,
) -> Seq<Vertex> {
    mesh_verts_upto(origin, grid, hl, mesh_steps())
}

/// The index buffer of a whole chunk grid.
pub open spec fn spec_mesh_indices(
    origin: WorldPos,
    grid: Seq<BlockType>,
    hl: Option<(usize, usize, usize, BlockSide)>,
) -> Seq<u32> {
    mesh_idx_upto(origin, grid, hl, mesh_steps())
}

/// Each step emits at most one quad, so the vertex buffer grows by at most
/// four vertices per step.
pub proof fn lemma_verts_upto_len(
    origin: WorldPos,
    grid: Seq<BlockType>,
    hl: Option<(usize, usize, usize, BlockSide)>,
    s: int,
)
    requires
        s >= 0,
    ensures
        mesh_verts_upto(origin, grid, hl, s).len() <= 4 * s,
        mesh_verts_upto(origin, grid, hl, s).len() % 4 == 0,
    decreases s,
{
    if s > 0 {
        lemma_verts_upto_len(origin, grid, hl, s - 1);
    }
}

/// The cell and side of a meshing step within one cell's six sides.
pub proof fn lemma_step_decode(x: int, y: int, z: int)
    requires
        0 <= x < 16,
        0 <= y < 256,
        0 <= z < 16,
    ensures
        forall|j: int| 0 <= j < 6 ==> step_x(((x * 256 + y) * 16 + z) * 6 + j) == x
            && step_y(((x * 256 + y) * 16 + z) * 6 + j) == y
            && step_z(((x * 256 + y) * 16 + z) * 6 + j) == z
            && #[trigger] step_side(((x * 256 + y) * 16 + z) * 6 + j) == side_of_order(j),
{
    let c = (x * 256 + y) * 16 + z;
    assert forall|j: int| 0 <= j < 6 implies
        step_x(((x * 256 + y) * 16 + z) * 6 + j) == x
            && step_y(((x * 256 + y) * 16 + z) * 6 + j) == y
            && step_z(((x * 256 + y) * 16 + z) * 6 + j) == z
            && #[trigger] step_side(((x * 256 + y) * 16 + z) * 6 + j) == side_of_order(j)
    by {
        let s = c * 6 + j;
        vstd::arithmetic::div_mod::lemma_fundamental_div_mod_converse(s, 6, c, j);
        vstd::arithmetic::div_mod::lemma_fundamental_div_mod_converse(
            c, 4096, x, y * 16 + z);
        vstd::arithmetic::div_mod::lemma_fundamental_div_mod_converse(
            c, 16, x * 256 + y, z);
        vstd::arithmetic::div_mod::lemma_fundamental_div_mod_converse(
            x * 256 + y, 256, x, y);
    }
}


/// A grid holding a single solid block surrounded on all six sides by air,
/// away from the chunk's own boundary.
pub open spec fn isolated_solid(grid: Seq<BlockType>, x: int, y: int, z: int) -> bool {
    &&& grid.len() == 65536
    &&& 1 <= x <= 14
    &&& 1 <= y <= 254
    &&& 1 <= z <= 14
    &&& spec_is_solid(grid[cell_index(x, y, z)])
    &&& grid[cell_index(x, y, z)] != BlockType::Air
    &&& forall|i: int| 0 <= i < 65536 && i != cell_index(x, y, z)
        ==> grid[i] == BlockType::Air
}

/// A cell's linear position decomposes into its coordinates and back.
proof fn lemma_cell_decode_inverse(n: int)
    requires
        0 <= n < 65536,
    ensures
        n == (n / 4096) * 4096 + ((n / 16) % 256) * 16 + n % 16,
        0 <= n / 4096 < 16,
        0 <= (n / 16) % 256 < 256,
        0 <= n % 16 < 16,
{
    vstd::arithmetic::div_mod::lemma_fundamental_div_mod(n, 16);
    vstd::arithmetic::div_mod::lemma_mod_bound(n, 16);
    vstd::arithmetic::div_mod::lemma_fundamental_div_mod(n / 16, 256);
    vstd::arithmetic::div_mod::lemma_mod_bound(n / 16, 256);
    vstd::arithmetic::div_mod::lemma_div_denominator(n, 16, 256);
    vstd::arithmetic::div_mod::lemma_div_pos_is_pos(n, 4096);
    vstd::arithmetic::div_mod::lemma_div_is_ordered(n, 65535, 4096);
    assert(65535int / 4096 == 15) by {
        vstd::arithmetic::div_mod::lemma_fundamental_div_mod_converse(
            65535, 4096, 15, 4095);
    }
}

/// The number of faces the mesh of an isolated solid block has emitted
/// after `s` steps: none before its cell's steps, one per step through
/// them, six after.
pub open spec fn isolated_faces_upto(x: int, y: int, z: int, s: int) -> int {
    let c6 = (x * 4096 + y * 16 + z) * 6;
    if s <= c6 {
        0
    } else if s >= c6 + 6 {
        6
    } else {
        s - c6
    }
}

/// Counting induction: the buffers of an isolated solid block's grid grow
/// exactly at that cell's six steps.
proof fn lemma_isolated_upto(
    org: WorldPos,
    grid: Seq<BlockType>,
    hl: Option<(usize, usize, usize, BlockSide)>,
    x: int, y: int, z: int, s: int,
)
    requires
        isolated_solid(grid, x, y, z),
        0 <= s <= 393216,
    ensures
        mesh_verts_upto(org, grid, hl, s).len() == 4 * isolated_faces_upto(x, y, z, s),
        mesh_idx_upto(org, grid, hl, s).len() == 6 * isolated_faces_upto(x, y, z, s),
    decreases s,
{
    if s > 0 {
        lemma_isolated_upto(org, grid, hl, x, y, z, s - 1);
        let c = x * 4096 + y * 16 + z;
        let n = (s - 1) / 6;
        let j = (s - 1) % 6;
        vstd::arithmetic::div_mod::lemma_fundamental_div_mod(s - 1, 6);
        vstd::arithmetic::div_mod::lemma_mod_bound(s - 1, 6);
        vstd::arithmetic::div_mod::lemma_div_pos_is_pos(s - 1, 6);
        vstd::arithmetic::div_mod::lemma_div_is_ordered(s - 1, 393215, 6);
        assert(393215int / 6 == 65535) by {
            vstd::arithmetic::div_mod::lemma_fundamental_div_mod_converse(
                393215, 6, 65535, 5);
        }
        assert(s - 1 == 6 * n + j);
        lemma_cell_decode_inverse(n);
        assert(step_x(s - 1) == n / 4096 && step_y(s - 1) == (n / 16) % 256
            && step_z(s - 1) == n % 16) by {
            vstd::arithmetic::div_mod::lemma_fundamental_div_mod_converse(
                s - 1, 6, n, j);
        }
        if n == c {
            lemma_step_decode(x, y, z);
            assert(s - 1 == ((x * 256 + y) * 16 + z) * 6 + j);
            assert(step_side(s - 1) == side_of_order(j));
            assert(step_x(s - 1) == x && step_y(s - 1) == y && step_z(s - 1) == z);
            // every side of the isolated block is visible
            let b = grid[cell_index(x, y, z)];
            assert(block_at(grid, x, y, z) == b);
            let side = side_of_order(j);
            assert(neighbor_cell(side, x, y, z) is Some);
            let nb = neighbor_cell(side, x, y, z)->0;
            assert(cell_index(nb.0, nb.1, nb.2) != cell_index(x, y, z)
                && 0 <= cell_index(nb.0, nb.1, nb.2) < 65536);
            assert(block_at(grid, nb.0, nb.1, nb.2) == BlockType::Air);
            assert(face_visible(grid, x, y, z, side));
            assert(step_visible(grid, s - 1));
        } else {
            let sx = step_x(s - 1);
            let sy = step_y(s - 1);
            let sz = step_z(s - 1);
            assert(n == sx * 4096 + sy * 16 + sz);
            assert(!(sx == x && sy == y && sz == z));
            if cell_index(sx, sy, sz) == cell_index(x, y, z) {
                lemma_cell_index_injective(sx, sy, sz, x, y, z);
            }
            assert(0 <= cell_index(sx, sy, sz) < 65536);
            assert(block_at(grid, sx, sy, sz) == BlockType::Air);
            assert(!step_visible(grid, s - 1));
        }
    }
}

/// Distinct cell coordinates occupy distinct grid positions.
pub proof fn lemma_cell_index_injective(a: int, b: int, c: int, x: int, y: int, z: int)
    requires
        0 <= a < 16,
        0 <= b < 256,
        0 <= c < 16,
        0 <= x < 16,
        0 <= y < 256,
        0 <= z < 16,
        cell_index(a, b, c) == cell_index(x, y, z),
    ensures
        a == x && b == y && c == z,
{
    vstd::arithmetic::div_mod::lemma_fundamental_div_mod_converse(
        cell_index(a, b, c), 256, a * 16 + c, b);
    vstd::arithmetic::div_mod::lemma_fundamental_div_mod_converse(
        cell_index(x, y, z), 256, x * 16 + z, y);
    vstd::arithmetic::div_mod::lemma_fundamental_div_mod_converse(
        a * 16 + c, 16, a, c);
    vstd::arithmetic::div_mod::lemma_fundamental_div_mod_converse(
        x * 16 + z, 16, x, z);
}

/// Mesh face count: an isolated solid block fully surrounded by air emits
/// exactly six faces: 24 vertices and 36 indices, two triangles per face.
pub proof fn lemma_isolated_block_mesh(
    org: WorldPos,
    grid: Seq<BlockType>,
    hl: Option<(usize, usize, usize, BlockSide)>,
    x: int, y: int, z: int,
)
    requires
        isolated_solid(grid, x, y, z),
    ensures
        spec_mesh_vertices(org, grid, hl).len() == 24,
        spec_mesh_indices(org, grid, hl).len() == 36,
{
    lemma_isolated_upto(org, grid, hl, x, y, z, 393216);
}

/// The face between a block and an identical neighbour is culled — for the
/// shared face of two adjacent identical blocks, on both sides.
pub proof fn lemma_identical_adjacent_culled(
    grid: Seq<BlockType>, x: int, y: int, z: int, side: BlockSide,
)
    requires
        grid.len() == 65536,
        0 <= x < 16,
        0 <= y < 256,
        0 <= z < 16,
        neighbor_cell(side, x, y, z) matches Some(nc)
            && block_at(grid, nc.0, nc.1, nc.2) == block_at(grid, x, y, z),
    ensures
        !face_visible(grid, x, y, z, side),
{
}



/// A grid holding exactly two adjacent solid blocks of the same kind —
/// the second displaced one step along a single positive axis — surrounded
/// by air, away from the chunk's own boundary.
pub open spec fn adjacent_pair(
    grid: Seq<BlockType>, x: int, y: int, z: int, ox: int, oy: int, oz: int,
) -> bool {
    &&& grid.len() == 65536
    &&& 0 <= ox
    &&& 0 <= oy
    &&& 0 <= oz
    &&& ox + oy + oz == 1
    &&& 1 <= x && x + ox <= 14
    &&& 1 <= y && y + oy <= 254
    &&& 1 <= z && z + oz <= 14
    &&& spec_is_solid(grid[cell_index(x, y, z)])
    &&& grid[cell_index(x, y, z)] != BlockType::Air
    &&& grid[cell_index(x + ox, y + oy, z + oz)] == grid[cell_index(x, y, z)]
    &&& forall|i: int| 0 <= i < 65536 && i != cell_index(x, y, z)
        && i != cell_index(x + ox, y + oy, z + oz) ==> grid[i] == BlockType::Air
}

/// The side order index of the face the first block turns toward the
/// second: culled against its identical twin.
pub open spec fn pair_skip_a(ox: int, oy: int, oz: int) -> int {
    if oy == 1 { 2 } else if ox == 1 { 5 } else { 1 }
}

/// The side order index of the face the second block turns back toward
/// the first.
pub open spec fn pair_skip_b(ox: int, oy: int, oz: int) -> int {
    if oy == 1 { 3 } else if ox == 1 { 4 } else { 0 }
}

/// The faces one block of a pair has emitted after `s` steps: its six-step
/// window starts at `c6`, and the side at order index `skip` is culled.
pub open spec fn pair_faces_upto(c6: int, skip: int, s: int) -> int {
    if s <= c6 {
        0
    } else if s >= c6 + 6 {
        5
    } else if s - c6 > skip {
        s - c6 - 1
    } else {
        s - c6
    }
}

/// Counting induction for an adjacent pair: each block contributes its
/// five visible faces; the shared face is culled on both sides.
#[verifier::rlimit(100)]
proof fn lemma_adjacent_pair_upto(
    org: WorldPos,
    grid: Seq<BlockType>,
    hl: Option<(usize, usize, usize, BlockSide)>,
    x: int, y: int, z: int, ox: int, oy: int, oz: int, s: int,
)
    requires
        adjacent_pair(grid, x, y, z, ox, oy, oz),
        0 <= s <= 393216,
    ensures
        mesh_verts_upto(org, grid, hl, s).len() == 4 * (
            pair_faces_upto((x * 4096 + y * 16 + z) * 6, pair_skip_a(ox, oy, oz), s)
            + pair_faces_upto(((x + ox) * 4096 + (y + oy) * 16 + (z + oz)) * 6,
                pair_skip_b(ox, oy, oz), s)),
        mesh_idx_upto(org, grid, hl, s).len() == 6 * (
            pair_faces_upto((x * 4096 + y * 16 + z) * 6, pair_skip_a(ox, oy, oz), s)
            + pair_faces_upto(((x + ox) * 4096 + (y + oy) * 16 + (z + oz)) * 6,
                pair_skip_b(ox, oy, oz), s)),
    decreases s,
{
    if s > 0 {
        lemma_adjacent_pair_upto(org, grid, hl, x, y, z, ox, oy, oz, s - 1);
        let xb = x + ox;
        let yb = y + oy;
        let zb = z + oz;
        let ca = x * 4096 + y * 16 + z;
        let cb = xb * 4096 + yb * 16 + zb;
        let n = (s - 1) / 6;
        let j = (s - 1) % 6;
        vstd::arithmetic::div_mod::lemma_fundamental_div_mod(s - 1, 6);
        vstd::arithmetic::div_mod::lemma_mod_bound(s - 1, 6);
        vstd::arithmetic::div_mod::lemma_div_pos_is_pos(s - 1, 6);
        vstd::arithmetic::div_mod::lemma_div_is_ordered(s - 1, 393215, 6);
        assert(393215int / 6 == 65535) by {
            vstd::arithmetic::div_mod::lemma_fundamental_div_mod_converse(
                393215, 6, 65535, 5);
        }
        assert(s - 1 == 6 * n + j);
        lemma_cell_decode_inverse(n);
        assert(step_x(s - 1) == n / 4096 && step_y(s - 1) == (n / 16) % 256
            && step_z(s - 1) == n % 16) by {
            vstd::arithmetic::div_mod::lemma_fundamental_div_mod_converse(
                s - 1, 6, n, j);
        }
        let b = grid[cell_index(x, y, z)];
        if n == ca {
            lemma_step_decode(x, y, z);
            assert(s - 1 == ((x * 256 + y) * 16 + z) * 6 + j);
            assert(step_side(s - 1) == side_of_order(j));
            assert(step_x(s - 1) == x && step_y(s - 1) == y && step_z(s - 1) == z);
            let side = side_of_order(j);
            assert(block_at(grid, x, y, z) == b);
            assert(neighbor_cell(side, x, y, z) is Some);
            let nb = neighbor_cell(side, x, y, z)->0;
            if j == pair_skip_a(ox, oy, oz) {
                assert((nb.0, nb.1, nb.2) == (xb, yb, zb));
                assert(block_at(grid, nb.0, nb.1, nb.2) == b);
                assert(!step_visible(grid, s - 1));
            } else {
                assert(cell_index(nb.0, nb.1, nb.2) != cell_index(x, y, z)
                    && cell_index(nb.0, nb.1, nb.2) != cell_index(xb, yb, zb)
                    && 0 <= cell_index(nb.0, nb.1, nb.2) < 65536) by {
                    if cell_index(nb.0, nb.1, nb.2) == cell_index(x, y, z) {
                        lemma_cell_index_injective(nb.0, nb.1, nb.2, x, y, z);
                    }
                    if cell_index(nb.0, nb.1, nb.2) == cell_index(xb, yb, zb) {
                        lemma_cell_index_injective(nb.0, nb.1, nb.2, xb, yb, zb);
                    }
                }
                assert(block_at(grid, nb.0, nb.1, nb.2) == BlockType::Air);
                assert(step_visible(grid, s - 1));
            }
        } else if n == cb {
            lemma_step_decode(xb, yb, zb);
            assert(s - 1 == ((xb * 256 + yb) * 16 + zb) * 6 + j);
            assert(step_side(s - 1) == side_of_order(j));
            assert(step_x(s - 1) == xb && step_y(s - 1) == yb && step_z(s - 1) == zb);
            let side = side_of_order(j);
            assert(block_at(grid, xb, yb, zb) == b);
            assert(neighbor_cell(side, xb, yb, zb) is Some);
            let nb = neighbor_cell(side, xb, yb, zb)->0;
            if j == pair_skip_b(ox, oy, oz) {
                assert((nb.0, nb.1, nb.2) == (x, y, z));
                assert(block_at(grid, nb.0, nb.1, nb.2) == b);
                assert(!step_visible(grid, s - 1));
            } else {
                assert(cell_index(nb.0, nb.1, nb.2) != cell_index(x, y, z)
                    && cell_index(nb.0, nb.1, nb.2) != cell_index(xb, yb, zb)
                    && 0 <= cell_index(nb.0, nb.1, nb.2) < 65536) by {
                    if cell_index(nb.0, nb.1, nb.2) == cell_index(x, y, z) {
                        lemma_cell_index_injective(nb.0, nb.1, nb.2, x, y, z);
                    }
                    if cell_index(nb.0, nb.1, nb.2) == cell_index(xb, yb, zb) {
                        lemma_cell_index_injective(nb.0, nb.1, nb.2, xb, yb, zb);
                    }
                }
                assert(block_at(grid, nb.0, nb.1, nb.2) == BlockType::Air);
                assert(step_visible(grid, s - 1));
            }
        } else {
            let sx = step_x(s - 1);
            let sy = step_y(s - 1);
            let sz = step_z(s - 1);
            assert(n == sx * 4096 + sy * 16 + sz);
            assert(!(sx == x && sy == y && sz == z));
            assert(!(sx == xb && sy == yb && sz == zb));
            if cell_index(sx, sy, sz) == cell_index(x, y, z) {
                lemma_cell_index_injective(sx, sy, sz, x, y, z);
            }
            if cell_index(sx, sy, sz) == cell_index(xb, yb, zb) {
                lemma_cell_index_injective(sx, sy, sz, xb, yb, zb);
            }
            assert(0 <= cell_index(sx, sy, sz) < 65536);
            assert(block_at(grid, sx, sy, sz) == BlockType::Air);
            assert(!step_visible(grid, s - 1));
        }
    }
}

/// Mesh face count of two adjacent identical solid blocks, along any axis:
/// the shared interior face is culled on both sides, leaving ten faces in
/// all — 40 vertices and 60 indices.
pub proof fn lemma_adjacent_pair_mesh(
    org: WorldPos,
    grid: Seq<BlockType>,
    hl: Option<(usize, usize, usize, BlockSide)>,
    x: int, y: int, z: int, ox: int, oy: int, oz: int,
)
    requires
        adjacent_pair(grid, x, y, z, ox, oy, oz),
    ensures
        spec_mesh_vertices(org, grid, hl).len() == 40,
        spec_mesh_indices(org, grid, hl).len() == 60,
{
    lemma_adjacent_pair_upto(org, grid, hl, x, y, z, ox, oy, oz, 393216);
}


} // verus!
