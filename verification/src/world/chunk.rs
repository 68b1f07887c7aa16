//! An individual chunk: a fixed-size 3D block grid of one lateral column of
//! the world, together with its face-culled surface mesh. Generation fills
//! the grid from the seeded samplers, spilling tree parts that cross the
//! chunk boundary into the shared scratch map; meshing emits one quad per
//! exposed face, in a fixed traversal order.

use vstd::prelude::*;
use crate::math::rem_euclid_i64;
use crate::world::ThreeDimPos;
use crate::world::WorldPos;
use crate::world::block::BlockSide;
use crate::world::block::BlockType;
use crate::world::generation::sample_elevation;
use crate::world::generation::sample_tree;
use crate::world::generation::spec_elevation;
use crate::world::generation::spec_tree;
use crate::world::mesh::Mesh;
use crate::world::mesh::Vertex;
use crate::world::mesh::block_at;
use crate::world::mesh::cell_index;
use crate::world::mesh::face_highlighted;
use crate::world::mesh::face_index_pattern;
use crate::world::mesh::face_vertex;
use crate::world::mesh::face_vertices;
use crate::world::mesh::face_visible;
use crate::world::mesh::corner_offset;
use crate::world::mesh::face_tex;
use crate::world::mesh::mesh_idx_upto;
use crate::world::mesh::mesh_verts_upto;
use crate::world::mesh::spec_mesh_indices;
use crate::world::mesh::spec_mesh_vertices;
use crate::world::mesh::step_side;
use crate::world::mesh::step_x;
use crate::world::mesh::step_y;
use crate::world::mesh::step_z;
use crate::world::mesh::lemma_verts_upto_len;
use crate::world::mesh::lemma_step_decode;
use crate::world::scratch::ScratchMap;

verus! {

/// Bound on chunk origins, far beyond any reachable position but leaving
/// room for every coordinate computation inside a chunk.
pub const ORIGIN_LIMIT: i64 = 0x1000_0000_0000_0000;

/// A lateral position is a chunk origin when both coordinates are
/// multiples of the chunk size.
pub open spec fn aligned(p: WorldPos) -> bool {
    (p.x as int) % 16 == 0 && (p.z as int) % 16 == 0
}

/// The origin of the chunk a lateral position falls into.
pub open spec fn spec_cords_to_chunk(p: WorldPos) -> WorldPos {
    WorldPos {
        x: (p.x - (p.x as int) % 16) as i64,
        z: (p.z - (p.z as int) % 16) as i64,
    }
}

/// Rounding a coordinate down to a multiple of 16 stays within `i64` and
/// lands at most 15 below it.
proof fn lemma_align_in_range(x: int)
    requires
        i64::MIN <= x <= i64::MAX,
    ensures
        i64::MIN <= x - x % 16 <= x,
        (x - x % 16) % 16 == 0,
{
    let q = x / 16;
    vstd::arithmetic::div_mod::lemma_fundamental_div_mod(x, 16);
    vstd::arithmetic::div_mod::lemma_mod_bound(x, 16);
    vstd::arithmetic::div_mod::lemma_div_is_ordered(i64::MIN as int, x, 16);
    assert(i64::MIN as int == 16 * (-0x800_0000_0000_0000));
    assert((i64::MIN as int) / 16 == -0x800_0000_0000_0000) by {
        vstd::arithmetic::div_mod::lemma_fundamental_div_mod_converse(
            i64::MIN as int, 16, -0x800_0000_0000_0000, 0);
    }
    assert(16 * q >= 16 * (-0x800_0000_0000_0000)) by (nonlinear_arith)
        requires q >= -0x800_0000_0000_0000;
    vstd::arithmetic::div_mod::lemma_fundamental_div_mod_converse(
        x - x % 16, 16, q, 0);
}

/// Calculates the origin of the chunk that the given coordinates fall into.
pub fn cords_to_chunk(position: WorldPos) -> (r: WorldPos)
    ensures
        r == spec_cords_to_chunk(position),
        aligned(r),
        r.x <= position.x < r.x + 16,
        r.z <= position.z < r.z + 16,
{
    proof {
        lemma_align_in_range(position.x as int);
        lemma_align_in_range(position.z as int);
        vstd::arithmetic::div_mod::lemma_mod_bound(position.x as int, 16);
        vstd::arithmetic::div_mod::lemma_mod_bound(position.z as int, 16);
    }
    let mx = rem_euclid_i64(position.x, 16);
    let mz = rem_euclid_i64(position.z, 16);
    WorldPos { x: position.x - mx, z: position.z - mz }
}

/// The chunk-local lateral coordinates of a position.
pub open spec fn spec_cords_to_local(p: WorldPos) -> (int, int) {
    ((p.x as int) % 16, (p.z as int) % 16)
}

/// Calculates the chunk-local coordinates of the given coordinate pair.
pub fn cords_to_local(position: WorldPos) -> (r: (usize, usize))
    ensures
        (r.0 as int, r.1 as int) == spec_cords_to_local(position),
        r.0 < 16,
        r.1 < 16,
{
    let mx = rem_euclid_i64(position.x, 16);
    let mz = rem_euclid_i64(position.z, 16);
    (mx as usize, mz as usize)
}

/// An individual chunk containing block data and its own 3D mesh.
pub struct Chunk {
    /// The block grid, one flat vector: `x` strides by plane, `z` by
    /// column, `y` last.
    blocks: Vec<BlockType>,
    /// The world (block) position of the starting corner of the chunk.
    pos: WorldPos,
    /// If a face of a block within this chunk should be highlighted, the
    /// chunk-local block coordinate and the face of that block.
    highlighted: Option<(usize, usize, usize, BlockSide)>,
    /// The chunk's surface mesh.
    mesh: Mesh,
}

impl Chunk {
    /// The block grid as a sequence of cells.
    pub closed spec fn grid(&self) -> Seq<BlockType> {
        self.blocks@
    }

    /// The chunk's origin.
    pub closed spec fn origin(&self) -> WorldPos {
        self.pos
    }

    /// The highlight marker.
    pub closed spec fn highlight_marker(&self) -> Option<(usize, usize, usize, BlockSide)> {
        self.highlighted
    }

    /// The mesh buffers.
    pub closed spec fn spec_mesh(&self) -> Mesh {
        self.mesh
    }

    /// Well-formedness: full grid, aligned and bounded origin.
    pub open spec fn wf(&self) -> bool {
        &&& self.grid().len() == 65536
        &&& aligned(self.origin())
        &&& -ORIGIN_LIMIT <= self.origin().x <= ORIGIN_LIMIT
        &&& -ORIGIN_LIMIT <= self.origin().z <= ORIGIN_LIMIT
    }

    /// The block at a local cell.
    pub open spec fn block_at(&self, x: int, y: int, z: int) -> BlockType {
        block_at(self.grid(), x, y, z)
    }

    /// The mesh matches the current block grid and highlight marker: no
    /// stale geometry.
    pub open spec fn mesh_current(&self) -> bool {
        &&& self.spec_mesh().vertices@ == spec_mesh_vertices(
            self.origin(), self.grid(), self.highlight_marker())
        &&& self.spec_mesh().indices@ == spec_mesh_indices(
            self.origin(), self.grid(), self.highlight_marker())
    }

    /// The chunk's world origin.
    pub fn origin_pos(&self) -> (r: WorldPos)
        ensures
            r == self.origin(),
    {
        self.pos
    }

    /// Read access to the mesh buffers.
    pub fn mesh(&self) -> (r: &Mesh)
        ensures
            r == self.spec_mesh(),
    {
        &self.mesh
    }

    /// The block at a local cell.
    pub fn block(&self, x: usize, y: usize, z: usize) -> (r: BlockType)
        requires
            self.wf(),
            x < 16,
            y < 256,
            z < 16,
        ensures
            r == self.block_at(x as int, y as int, z as int),
    {
        self.blocks[(x * 16 + z) * 256 + y]
    }

    /// Overwrites the block at a local cell. The mesh is left untouched and
    /// may go stale: call `update_mesh` afterwards to restore consistency.
    pub fn set_block(&mut self, x: usize, y: usize, z: usize, b: BlockType)
        requires
            old(self).wf(),
            x < 16,
            y < 256,
            z < 16,
        ensures
            final(self).grid() == old(self).grid().update(cell_index(x as int, y as int, z as int), b),
            final(self).origin() == old(self).origin(),
            final(self).highlight_marker() == old(self).highlight_marker(),
            final(self).spec_mesh() == old(self).spec_mesh(),
            final(self).wf(),
    {
        let i = (x * 16 + z) * 256 + y;
        self.blocks[i] = b;
    }

    /// Appends the face of block (x, y, z) toward `side` to the mesh, if it
    /// is visible; culls it otherwise.
    fn add_side(&mut self, x: usize, y: usize, z: usize, side: BlockSide)
        requires
            old(self).wf(),
            x < 16,
            y < 256,
            z < 16,
            old(self).spec_mesh().vertices@.len() + 4 <= 0xFFFF_FFFF,
        ensures
            final(self).grid() == old(self).grid(),
            final(self).origin() == old(self).origin(),
            final(self).highlight_marker() == old(self).highlight_marker(),
            final(self).wf(),
            final(self).spec_mesh().vertices@ == old(self).spec_mesh().vertices@
                + (if face_visible(old(self).grid(), x as int, y as int, z as int, side) {
                    face_vertices(old(self).origin(), old(self).grid(),
                        old(self).highlight_marker(), x as int, y as int, z as int, side)
                } else {
                    Seq::<Vertex>::empty()
                }),
            final(self).spec_mesh().indices@ == old(self).spec_mesh().indices@
                + (if face_visible(old(self).grid(), x as int, y as int, z as int, side) {
                    face_index_pattern(old(self).spec_mesh().vertices@.len() as int)
                } else {
                    Seq::<u32>::empty()
                }),
    {
        // Cull sides that face other blocks.
        let facing: Option<(usize, usize, usize)> = match side {
            BlockSide::Bottom => if y > 0 { Some((x, y - 1, z)) } else { None },
            BlockSide::Top => if y < 255 { Some((x, y + 1, z)) } else { None },
            BlockSide::Left => if x > 0 { Some((x - 1, y, z)) } else { None },
            BlockSide::Right => if x < 15 { Some((x + 1, y, z)) } else { None },
            BlockSide::Front => if z > 0 { Some((x, y, z - 1)) } else { None },
            BlockSide::Back => if z < 15 { Some((x, y, z + 1)) } else { None },
        };
        let own = self.block(x, y, z);
        match facing {
            Some((fx, fy, fz)) => {
                let fb = self.block(fx, fy, fz);
                if !fb.is_renderable_adjacent() || own == fb {
                    proof {
                        assert(!face_visible(self.grid(), x as int, y as int, z as int, side));
                        assert(final(self).spec_mesh().vertices@
                            =~= old(self).spec_mesh().vertices@);
                        assert(final(self).spec_mesh().indices@
                            =~= old(self).spec_mesh().indices@);
                    }
                    return;
                }
            },
            None => {
                if let BlockSide::Bottom = side {
                    proof {
                        assert(!face_visible(self.grid(), x as int, y as int, z as int, side));
                        assert(final(self).spec_mesh().vertices@
                            =~= old(self).spec_mesh().vertices@);
                        assert(final(self).spec_mesh().indices@
                            =~= old(self).spec_mesh().indices@);
                    }
                    return;
                }
            },
        }

        let t_opt = own.texture(side);
        let (t_x, t_y) = match t_opt {
            None => {
                proof {
                    assert(own == BlockType::Air);
                    assert(!face_visible(self.grid(), x as int, y as int, z as int, side));
                    assert(final(self).spec_mesh().vertices@
                        =~= old(self).spec_mesh().vertices@);
                    assert(final(self).spec_mesh().indices@
                        =~= old(self).spec_mesh().indices@);
                }
                return;
            },
            Some(t) => t,
        };
        proof {
            assert(face_visible(self.grid(), x as int, y as int, z as int, side));
        }

        let is_highlighted = match self.highlighted {
            Some((h_x, h_y, h_z, h_s)) => h_x == x && h_y == y && h_z == z && h_s == side,
            None => false,
        };

        let base_usize = self.mesh.vertices.len();
        let base = base_usize as u32;
        let ghost g = self.grid();
        let ghost org = self.origin();
        let ghost hl = self.highlight_marker();
        let ghost xi = x as int;
        let ghost yi = y as int;
        let ghost zi = z as int;

        let mut k: usize = 0;
        while k < 4
            invariant
                k <= 4,
                self.grid() == g,
                self.origin() == org,
                self.highlight_marker() == hl,
                x < 16 && y < 256 && z < 16,
                self.wf(),
                face_visible(g, xi, yi, zi, side),
                xi == x as int && yi == y as int && zi == z as int,
                is_highlighted == face_highlighted(hl, xi, yi, zi, side),
                (t_x as int, t_y as int) == face_tex(g, xi, yi, zi, side),
                t_x <= 8 && t_y == 0,
                self.spec_mesh().indices@ == old(self).spec_mesh().indices@,
                base_usize == old(self).spec_mesh().vertices@.len(),
                base == base_usize as u32,
                base_usize + 4 <= 0xFFFF_FFFF,
                self.spec_mesh().vertices@ == old(self).spec_mesh().vertices@
                    + face_vertices(org, g, hl, xi, yi, zi, side).take(k as int),
            decreases 4 - k,
        {
            let (ox, oy, oz) = corner_offset_exec(side, k);
            let (cx, cy) = match k {
                0 => (t_x + 1, t_y + 1),
                1 => (t_x + 1, t_y),
                2 => (t_x, t_y + 1),
                _ => (t_x, t_y),
            };
            let v = Vertex {
                x: self.pos.x + x as i64 + ox as i64,
                y: y as i64 + oy as i64,
                z: self.pos.z + z as i64 + oz as i64,
                tex_x: cx,
                tex_y: cy,
                side: side,
                highlighted: is_highlighted,
            };
            proof {
                assert(v == face_vertex(org, g, hl, xi, yi, zi, side, k as int));
                assert(face_vertices(org, g, hl, xi, yi, zi, side).take(k + 1 as int)
                    =~= face_vertices(org, g, hl, xi, yi, zi, side).take(k as int)
                        + seq![face_vertex(org, g, hl, xi, yi, zi, side, k as int)]);
            }
            self.mesh.vertices.push(v);
            k += 1;
        }
        proof {
            assert(face_vertices(org, g, hl, xi, yi, zi, side).take(4)
                =~= face_vertices(org, g, hl, xi, yi, zi, side));
        }

        self.mesh.indices.push(base + 3);
        self.mesh.indices.push(base + 2);
        self.mesh.indices.push(base);
        self.mesh.indices.push(base + 3);
        self.mesh.indices.push(base);
        self.mesh.indices.push(base + 1);
        proof {
            assert(self.spec_mesh().indices@ =~= old(self).spec_mesh().indices@
                + face_index_pattern(base_usize as int));
        }
    }
    /// Appends all six faces of one cell to the mesh, in side order.
    #[verifier::rlimit(30)]
    fn add_cell(&mut self, x: usize, y: usize, z: usize)
        requires
            old(self).wf(),
            x < 16,
            y < 256,
            z < 16,
            old(self).spec_mesh().vertices@ == mesh_verts_upto(
                old(self).origin(), old(self).grid(), old(self).highlight_marker(),
                ((x * 256 + y) * 16 + z) * 6),
            old(self).spec_mesh().indices@ == mesh_idx_upto(
                old(self).origin(), old(self).grid(), old(self).highlight_marker(),
                ((x * 256 + y) * 16 + z) * 6),
        ensures
            final(self).grid() == old(self).grid(),
            final(self).origin() == old(self).origin(),
            final(self).highlight_marker() == old(self).highlight_marker(),
            final(self).wf(),
            final(self).spec_mesh().vertices@ == mesh_verts_upto(
                old(self).origin(), old(self).grid(), old(self).highlight_marker(),
                ((x * 256 + y) * 16 + z) * 6 + 6),
            final(self).spec_mesh().indices@ == mesh_idx_upto(
                old(self).origin(), old(self).grid(), old(self).highlight_marker(),
                ((x * 256 + y) * 16 + z) * 6 + 6),
    {
        let ghost org = self.origin();
        let ghost g = self.grid();
        let ghost hl = self.highlight_marker();
        let ghost s = (((x * 256 + y) * 16 + z) * 6) as int;
        proof {
            lemma_step_decode(x as int, y as int, z as int);
        }
        let ghost v0 = self.spec_mesh().vertices@;
        let ghost i0 = self.spec_mesh().indices@;
        proof {
            lemma_verts_upto_len(org, g, hl, s);
        }
        self.add_side(x, y, z, BlockSide::Front);
        proof {
            lemma_mesh_step(org, g, hl, s, x as int, y as int, z as int, BlockSide::Front,
                v0, self.spec_mesh().vertices@, i0, self.spec_mesh().indices@);
        }
        let ghost v1 = self.spec_mesh().vertices@;
        let ghost i1 = self.spec_mesh().indices@;
        proof {
            lemma_verts_upto_len(org, g, hl, s + 1);
        }
        self.add_side(x, y, z, BlockSide::Back);
        proof {
            lemma_mesh_step(org, g, hl, s + 1, x as int, y as int, z as int, BlockSide::Back,
                v1, self.spec_mesh().vertices@, i1, self.spec_mesh().indices@);
        }
        let ghost v2 = self.spec_mesh().vertices@;
        let ghost i2 = self.spec_mesh().indices@;
        proof {
            lemma_verts_upto_len(org, g, hl, s + 2);
        }
        self.add_side(x, y, z, BlockSide::Top);
        proof {
            lemma_mesh_step(org, g, hl, s + 2, x as int, y as int, z as int, BlockSide::Top,
                v2, self.spec_mesh().vertices@, i2, self.spec_mesh().indices@);
        }
        let ghost v3 = self.spec_mesh().vertices@;
        let ghost i3 = self.spec_mesh().indices@;
        proof {
            lemma_verts_upto_len(org, g, hl, s + 3);
        }
        self.add_side(x, y, z, BlockSide::Bottom);
        proof {
            lemma_mesh_step(org, g, hl, s + 3, x as int, y as int, z as int, BlockSide::Bottom,
                v3, self.spec_mesh().vertices@, i3, self.spec_mesh().indices@);
        }
        let ghost v4 = self.spec_mesh().vertices@;
        let ghost i4 = self.spec_mesh().indices@;
        proof {
            lemma_verts_upto_len(org, g, hl, s + 4);
        }
        self.add_side(x, y, z, BlockSide::Left);
        proof {
            lemma_mesh_step(org, g, hl, s + 4, x as int, y as int, z as int, BlockSide::Left,
                v4, self.spec_mesh().vertices@, i4, self.spec_mesh().indices@);
        }
        let ghost v5 = self.spec_mesh().vertices@;
        let ghost i5 = self.spec_mesh().indices@;
        proof {
            lemma_verts_upto_len(org, g, hl, s + 5);
        }
        self.add_side(x, y, z, BlockSide::Right);
        proof {
            lemma_mesh_step(org, g, hl, s + 5, x as int, y as int, z as int, BlockSide::Right,
                v5, self.spec_mesh().vertices@, i5, self.spec_mesh().indices@);
        }
    }

    /// Builds the whole mesh of the current grid, in traversal order.
    fn generate_mesh(&mut self)
        requires
            old(self).wf(),
            old(self).spec_mesh().vertices@ == Seq::<Vertex>::empty(),
            old(self).spec_mesh().indices@ == Seq::<u32>::empty(),
        ensures
            final(self).grid() == old(self).grid(),
            final(self).origin() == old(self).origin(),
            final(self).highlight_marker() == old(self).highlight_marker(),
            final(self).wf(),
            final(self).mesh_current(),
    {
        let ghost org = self.origin();
        let ghost g = self.grid();
        let ghost hl = self.highlight_marker();
        let mut x: usize = 0;
        while x < 16
            invariant
                x <= 16,
                self.wf(),
                self.grid() == g,
                self.origin() == org,
                self.highlight_marker() == hl,
                self.spec_mesh().vertices@ == mesh_verts_upto(org, g, hl, (x * 24576) as int),
                self.spec_mesh().indices@ == mesh_idx_upto(org, g, hl, (x * 24576) as int),
            decreases 16 - x,
        {
            let mut y: usize = 0;
            while y < 256
                invariant
                    x < 16,
                    y <= 256,
                    self.wf(),
                    self.grid() == g,
                    self.origin() == org,
                    self.highlight_marker() == hl,
                    self.spec_mesh().vertices@ == mesh_verts_upto(
                        org, g, hl, (x * 24576 + y * 96) as int),
                    self.spec_mesh().indices@ == mesh_idx_upto(
                        org, g, hl, (x * 24576 + y * 96) as int),
                decreases 256 - y,
            {
                let mut z: usize = 0;
                while z < 16
                    invariant
                        x < 16,
                        y < 256,
                        z <= 16,
                        self.wf(),
                        self.grid() == g,
                        self.origin() == org,
                        self.highlight_marker() == hl,
                        self.spec_mesh().vertices@ == mesh_verts_upto(
                            org, g, hl, (x * 24576 + y * 96 + z * 6) as int),
                        self.spec_mesh().indices@ == mesh_idx_upto(
                            org, g, hl, (x * 24576 + y * 96 + z * 6) as int),
                    decreases 16 - z,
                {
                    self.add_cell(x, y, z);
                    z += 1;
                }
                y += 1;
            }
            x += 1;
        }
    }

    /// Throws out any existing mesh and regenerates it from the current
    /// block grid: the one way to restore mesh consistency after mutation.
    pub fn update_mesh(&mut self)
        requires
            old(self).wf(),
        ensures
            final(self).grid() == old(self).grid(),
            final(self).origin() == old(self).origin(),
            final(self).highlight_marker() == old(self).highlight_marker(),
            final(self).wf(),
            final(self).mesh_current(),
    {
        self.mesh = Mesh::new();
        self.generate_mesh();
    }
}

/// One meshing step extends the buffers exactly as the step recursion says.
proof fn lemma_mesh_step(
    org: WorldPos,
    g: Seq<BlockType>,
    hl: Option<(usize, usize, usize, BlockSide)>,
    s: int, x: int, y: int, z: int,
    side: BlockSide,
    vold: Seq<Vertex>, vnew: Seq<Vertex>,
    iold: Seq<u32>, inew: Seq<u32>,
)
    requires
        s >= 0,
        step_x(s) == x,
        step_y(s) == y,
        step_z(s) == z,
        step_side(s) == side,
        vold == mesh_verts_upto(org, g, hl, s),
        iold == mesh_idx_upto(org, g, hl, s),
        vnew == vold + (if face_visible(g, x, y, z, side) {
            face_vertices(org, g, hl, x, y, z, side)
        } else {
            Seq::<Vertex>::empty()
        }),
        inew == iold + (if face_visible(g, x, y, z, side) {
            face_index_pattern(vold.len() as int)
        } else {
            Seq::<u32>::empty()
        }),
    ensures
        vnew == mesh_verts_upto(org, g, hl, s + 1),
        inew == mesh_idx_upto(org, g, hl, s + 1),
{
    if face_visible(g, x, y, z, side) {
    } else {
        assert(vnew =~= vold);
        assert(inew =~= iold);
    }
}

/// Corner offsets of a face quad, mirroring `corner_offset`.
fn corner_offset_exec(side: BlockSide, k: usize) -> (r: (usize, usize, usize))
    requires
        k < 4,
    ensures
        (r.0 as int, r.1 as int, r.2 as int) == corner_offset(side, k as int),
{
    match side {
        BlockSide::Front => match k {
            0 => (0, 0, 0),
            1 => (0, 1, 0),
            2 => (1, 0, 0),
            _ => (1, 1, 0),
        },
        BlockSide::Back => match k {
            0 => (1, 0, 1),
            1 => (1, 1, 1),
            2 => (0, 0, 1),
            _ => (0, 1, 1),
        },
        BlockSide::Top => match k {
            0 => (0, 1, 0),
            1 => (0, 1, 1),
            2 => (1, 1, 0),
            _ => (1, 1, 1),
        },
        BlockSide::Bottom => match k {
            0 => (0, 0, 1),
            1 => (0, 0, 0),
            2 => (1, 0, 1),
            _ => (1, 0, 0),
        },
        BlockSide::Left => match k {
            0 => (0, 0, 1),
            1 => (0, 1, 1),
            2 => (0, 0, 0),
            _ => (0, 1, 0),
        },
        BlockSide::Right => match k {
            0 => (1, 0, 0),
            1 => (1, 1, 0),
            2 => (1, 0, 1),
            _ => (1, 1, 1),
        },
    }
}

/// Construction failure of a chunk.
#[derive(Copy, Clone, Debug, PartialEq, Eq, Structural)]
pub enum ChunkError {
    /// The requested origin is not a multiple of the chunk size.
    MisalignedOrigin,
}

/// Terrain layering of a column whose surface elevation is `elev`: stone up
/// to three below the surface, then dirt, the surface cell itself sand at or
/// below sea level and grass above it, water flooding from the surface up to
/// sea level, air above.
pub open spec fn spec_terrain(y: int, elev: int) -> BlockType {
    if y < elev - 3 {
        BlockType::Stone
    } else if y < elev {
        BlockType::Dirt
    } else if y == elev && y <= 64 {
        BlockType::Sand
    } else if y == elev {
        BlockType::Grass
    } else if y > elev && y <= 64 {
        BlockType::Water
    } else {
        BlockType::Air
    }
}

/// Elevation of a chunk-local column, sampled at its absolute position.
pub open spec fn spec_col_elev(origin: WorldPos, lx: int, lz: int) -> int {
    spec_elevation((origin.x + lx) as i64, (origin.z + lz) as i64) as int
}

/// Whether a chunk-local column carries a tree: at or above sea level, and
/// the seeded draw placed one there.
pub open spec fn spec_col_tree(origin: WorldPos, lx: int, lz: int) -> bool {
    spec_col_elev(origin, lx, lz) >= 64
        && spec_tree((origin.x + lx) as i64, (origin.z + lz) as i64)
}

/// Trunk cells of a column's tree: the four cells above the surface.
pub open spec fn spec_trunk(origin: WorldPos, lx: int, y: int, lz: int) -> bool {
    spec_col_tree(origin, lx, lz)
        && spec_col_elev(origin, lx, lz) < y < spec_col_elev(origin, lx, lz) + 5
}

/// The generated cell value before canopies and scratch: terrain where the
/// terrain rule yields a block, else a trunk log, else air.
pub open spec fn spec_gen_tt(origin: WorldPos, lx: int, y: int, lz: int) -> BlockType {
    let t = spec_terrain(y, spec_col_elev(origin, lx, lz));
    if t != BlockType::Air {
        t
    } else if spec_trunk(origin, lx, y, lz) {
        BlockType::Log
    } else {
        BlockType::Air
    }
}

/// Whether local cell (lx, y, lz) — possibly outside the chunk's lateral
/// bounds — lies in the 7 by 7 by 3 canopy of the tree at in-chunk source
/// column (sx, sz).
pub open spec fn spec_canopy_src(
    origin: WorldPos, sx: int, sz: int, lx: int, y: int, lz: int,
) -> bool {
    &&& 0 <= sx < 16
    &&& 0 <= sz < 16
    &&& spec_col_tree(origin, sx, sz)
    &&& sx - 3 <= lx <= sx + 3
    &&& sz - 3 <= lz <= sz + 3
    &&& spec_col_elev(origin, sx, sz) + 5 <= y < spec_col_elev(origin, sx, sz) + 8
}

/// Whether a local cell lies in the canopy of any of the chunk's trees.
pub open spec fn spec_canopy(origin: WorldPos, lx: int, y: int, lz: int) -> bool {
    exists|sx: int, sz: int| spec_canopy_src(origin, sx, sz, lx, y, lz)
}

/// Canopy coverage by the source columns before linear index `n` only.
pub open spec fn spec_canopy_before(
    origin: WorldPos, lx: int, y: int, lz: int, n: int,
) -> bool {
    exists|sx: int, sz: int|
        #[trigger] spec_canopy_src(origin, sx, sz, lx, y, lz) && sx * 16 + sz < n
}

/// The generated cell value before scratch overrides: solid terrain and
/// trunks win; canopies fill only cells that would otherwise be air.
pub open spec fn spec_gen_base(origin: WorldPos, lx: int, y: int, lz: int) -> BlockType {
    let tt = spec_gen_tt(origin, lx, y, lz);
    if tt != BlockType::Air {
        tt
    } else if spec_canopy(origin, lx, y, lz) {
        BlockType::Leaves
    } else {
        BlockType::Air
    }
}

/// As `spec_gen_base`, but counting only canopies of sources before `n`.
pub open spec fn spec_gen_canopy_before(
    origin: WorldPos, lx: int, y: int, lz: int, n: int,
) -> BlockType {
    let tt = spec_gen_tt(origin, lx, y, lz);
    if tt != BlockType::Air {
        tt
    } else if spec_canopy_before(origin, lx, y, lz, n) {
        BlockType::Leaves
    } else {
        BlockType::Air
    }
}

/// The absolute position of a chunk-local cell.
pub open spec fn world_cell(origin: WorldPos, lx: int, y: int, lz: int) -> ThreeDimPos {
    ThreeDimPos {
        x: (origin.x + lx) as i64,
        y: y as u8,
        z: (origin.z + lz) as i64,
    }
}

/// Whether an absolute position lies laterally inside the chunk at `origin`.
pub open spec fn in_chunk(origin: WorldPos, p: ThreeDimPos) -> bool {
    origin.x <= p.x < origin.x + 16 && origin.z <= p.z < origin.z + 16
}

/// Whether `p` is a canopy cell of the tree at source column (sx, sz) that
/// falls outside the chunk's own lateral bounds.
pub open spec fn spec_out_target(origin: WorldPos, sx: int, sz: int, p: ThreeDimPos) -> bool {
    let lx = p.x - origin.x;
    let lz = p.z - origin.z;
    spec_canopy_src(origin, sx, sz, lx, p.y as int, lz) && !(0 <= lx < 16 && 0 <= lz < 16)
}

/// Whether `p` is an out-of-chunk canopy cell of any of the chunk's trees.
pub open spec fn spec_canopy_out(origin: WorldPos, p: ThreeDimPos) -> bool {
    exists|sx: int, sz: int| spec_out_target(origin, sx, sz, p)
}

/// As `spec_canopy_out`, for the source columns before linear index `n`.
pub open spec fn spec_canopy_out_before(origin: WorldPos, p: ThreeDimPos, n: int) -> bool {
    exists|sx: int, sz: int|
        #[trigger] spec_out_target(origin, sx, sz, p) && sx * 16 + sz < n
}

/// The block a chunk created at `origin` against scratch contents
/// `scratch0` holds at local cell (lx, y, lz): a scratched value always
/// overrides procedural fill.
pub open spec fn spec_gen_block(
    origin: WorldPos, scratch0: Map<ThreeDimPos, BlockType>, lx: int, y: int, lz: int,
) -> BlockType {
    if scratch0.contains_key(world_cell(origin, lx, y, lz)) {
        scratch0[world_cell(origin, lx, y, lz)]
    } else {
        spec_gen_base(origin, lx, y, lz)
    }
}

/// Canopy coverage grows one source column at a time.
proof fn lemma_canopy_before_step(
    origin: WorldPos, lx: int, y: int, lz: int, sx0: int, sz0: int,
)
    requires
        0 <= sx0 < 16,
        0 <= sz0 < 16,
    ensures
        spec_canopy_before(origin, lx, y, lz, sx0 * 16 + sz0 + 1) <==> (
            spec_canopy_before(origin, lx, y, lz, sx0 * 16 + sz0)
                || spec_canopy_src(origin, sx0, sz0, lx, y, lz)),
{
    let n = sx0 * 16 + sz0;
    if spec_canopy_before(origin, lx, y, lz, n + 1) {
        let (sx, sz) = choose|sx: int, sz: int|
            #[trigger] spec_canopy_src(origin, sx, sz, lx, y, lz) && sx * 16 + sz < n + 1;
        if sx * 16 + sz == n {
            assert(sx == sx0 && sz == sz0);
        }
    }
    if spec_canopy_src(origin, sx0, sz0, lx, y, lz) {
        assert(spec_canopy_src(origin, sx0, sz0, lx, y, lz) && sx0 * 16 + sz0 < n + 1);
    }
}

/// Out-of-chunk canopy coverage grows one source column at a time.
proof fn lemma_canopy_out_before_step(origin: WorldPos, p: ThreeDimPos, sx0: int, sz0: int)
    requires
        0 <= sx0 < 16,
        0 <= sz0 < 16,
    ensures
        spec_canopy_out_before(origin, p, sx0 * 16 + sz0 + 1) <==> (
            spec_canopy_out_before(origin, p, sx0 * 16 + sz0)
                || spec_out_target(origin, sx0, sz0, p)),
{
    let n = sx0 * 16 + sz0;
    if spec_canopy_out_before(origin, p, n + 1) {
        let (sx, sz) = choose|sx: int, sz: int|
            #[trigger] spec_out_target(origin, sx, sz, p) && sx * 16 + sz < n + 1;
        if sx * 16 + sz == n {
            assert(sx == sx0 && sz == sz0);
        }
    }
    if spec_out_target(origin, sx0, sz0, p) {
        assert(spec_out_target(origin, sx0, sz0, p) && sx0 * 16 + sz0 < n + 1);
    }
}

/// After all 256 source columns, the partial canopy predicates are the
/// full ones.
proof fn lemma_canopy_before_full(origin: WorldPos)
    ensures
        forall|lx: int, y: int, lz: int|
            #[trigger] spec_canopy_before(origin, lx, y, lz, 256)
                == spec_canopy(origin, lx, y, lz),
        forall|p: ThreeDimPos|
            #[trigger] spec_canopy_out_before(origin, p, 256) == spec_canopy_out(origin, p),
{
    assert forall|lx: int, y: int, lz: int|
        #[trigger] spec_canopy_before(origin, lx, y, lz, 256)
            == spec_canopy(origin, lx, y, lz) by {
        if spec_canopy(origin, lx, y, lz) {
            let (sx, sz) = choose|sx: int, sz: int|
                spec_canopy_src(origin, sx, sz, lx, y, lz);
            assert(sx * 16 + sz < 256);
            assert(spec_canopy_src(origin, sx, sz, lx, y, lz) && sx * 16 + sz < 256);
        }
    }
    assert forall|p: ThreeDimPos|
        #[trigger] spec_canopy_out_before(origin, p, 256) == spec_canopy_out(origin, p) by {
        if spec_canopy_out(origin, p) {
            let (sx, sz) = choose|sx: int, sz: int| spec_out_target(origin, sx, sz, p);
            assert(sx * 16 + sz < 256);
            assert(spec_out_target(origin, sx, sz, p) && sx * 16 + sz < 256);
        }
    }
}

/// Canopy cells of source (sx, sz) already written by the first `t` steps
/// of its 7 by 7 by 3 sweep (offsets advance x-major, then z, then y).
spec fn covered(origin: WorldPos, sx: int, sz: int, lx: int, y: int, lz: int, t: int) -> bool {
    spec_canopy_src(origin, sx, sz, lx, y, lz)
        && ((lx - sx + 3) * 7 + (lz - sz + 3)) * 3
            + (y - spec_col_elev(origin, sx, sz) - 5) < t
}

/// Out-of-chunk canopy cells of source (sx, sz) already written by the
/// first `t` sweep steps.
spec fn out_covered(origin: WorldPos, sx: int, sz: int, p: ThreeDimPos, t: int) -> bool {
    spec_out_target(origin, sx, sz, p)
        && ((p.x - origin.x - sx + 3) * 7 + (p.z - origin.z - sz + 3)) * 3
            + (p.y - spec_col_elev(origin, sx, sz) - 5) < t
}

/// One sweep step covers exactly one more canopy cell.
proof fn lemma_covered_step(origin: WorldPos, sx: int, sz: int, dx: int, dz: int, dy: int)
    requires
        0 <= sx < 16,
        0 <= sz < 16,
        0 <= dx < 7,
        0 <= dz < 7,
        0 <= dy < 3,
    ensures
        forall|lx: int, y: int, lz: int|
            #[trigger] covered(origin, sx, sz, lx, y, lz, dx * 21 + dz * 3 + dy + 1) <==> (
                covered(origin, sx, sz, lx, y, lz, dx * 21 + dz * 3 + dy)
                    || (lx == sx + dx - 3 && lz == sz + dz - 3
                        && y == spec_col_elev(origin, sx, sz) + 5 + dy
                        && spec_canopy_src(origin, sx, sz, lx, y, lz))),
        forall|p: ThreeDimPos|
            #[trigger] out_covered(origin, sx, sz, p, dx * 21 + dz * 3 + dy + 1) <==> (
                out_covered(origin, sx, sz, p, dx * 21 + dz * 3 + dy)
                    || (p.x - origin.x == sx + dx - 3 && p.z - origin.z == sz + dz - 3
                        && p.y == spec_col_elev(origin, sx, sz) + 5 + dy
                        && spec_out_target(origin, sx, sz, p))),
{
    let t = dx * 21 + dz * 3 + dy;
    assert forall|lx: int, y: int, lz: int|
        #[trigger] covered(origin, sx, sz, lx, y, lz, t + 1) <==> (
            covered(origin, sx, sz, lx, y, lz, t)
                || (lx == sx + dx - 3 && lz == sz + dz - 3
                    && y == spec_col_elev(origin, sx, sz) + 5 + dy
                    && spec_canopy_src(origin, sx, sz, lx, y, lz))) by {
        if spec_canopy_src(origin, sx, sz, lx, y, lz) {
            let idx = ((lx - sx + 3) * 7 + (lz - sz + 3)) * 3
                + (y - spec_col_elev(origin, sx, sz) - 5);
            assert(0 <= lx - sx + 3 <= 6);
            assert(0 <= lz - sz + 3 <= 6);
            assert(0 <= y - spec_col_elev(origin, sx, sz) - 5 <= 2);
            if idx == t {
                assert(lx - sx + 3 == dx && lz - sz + 3 == dz
                    && y - spec_col_elev(origin, sx, sz) - 5 == dy);
            }
        }
    }
    assert forall|p: ThreeDimPos|
        #[trigger] out_covered(origin, sx, sz, p, t + 1) <==> (
            out_covered(origin, sx, sz, p, t)
                || (p.x - origin.x == sx + dx - 3 && p.z - origin.z == sz + dz - 3
                    && p.y == spec_col_elev(origin, sx, sz) + 5 + dy
                    && spec_out_target(origin, sx, sz, p))) by {
        if spec_out_target(origin, sx, sz, p) {
            let lx = p.x - origin.x;
            let lz = p.z - origin.z;
            let idx = ((lx - sx + 3) * 7 + (lz - sz + 3)) * 3
                + (p.y - spec_col_elev(origin, sx, sz) - 5);
            assert(0 <= lx - sx + 3 <= 6);
            assert(0 <= lz - sz + 3 <= 6);
            assert(0 <= p.y - spec_col_elev(origin, sx, sz) - 5 <= 2);
            if idx == t {
                assert(lx - sx + 3 == dx && lz - sz + 3 == dz
                    && p.y - spec_col_elev(origin, sx, sz) - 5 == dy);
            }
        }
    }
}

/// Writes the canopy of the tree at source column (sx, sz): leaves fill
/// every in-chunk canopy cell that holds air, and every out-of-chunk canopy
/// cell goes to the scratch map.
#[verifier::rlimit(60)]
fn apply_canopy(
    blocks: &mut Vec<BlockType>,
    scratch: &mut ScratchMap,
    chunk_pos: WorldPos,
    sx: usize,
    sz: usize,
    elev: u8,
)
    requires
        old(blocks)@.len() == 65536,
        old(scratch).wf(),
        sx < 16,
        sz < 16,
        -ORIGIN_LIMIT <= chunk_pos.x <= ORIGIN_LIMIT,
        -ORIGIN_LIMIT <= chunk_pos.z <= ORIGIN_LIMIT,
        elev as int == spec_col_elev(chunk_pos, sx as int, sz as int),
        15 <= elev <= 125,
        spec_col_tree(chunk_pos, sx as int, sz as int),
    ensures
        final(blocks)@.len() == 65536,
        final(scratch).wf(),
        forall|lx: int, y: int, lz: int|
            0 <= lx < 16 && 0 <= y < 256 && 0 <= lz < 16 ==>
                final(blocks)@[#[trigger] cell_index(lx, y, lz)] == (
                    if old(blocks)@[cell_index(lx, y, lz)] == BlockType::Air
                        && spec_canopy_src(chunk_pos, sx as int, sz as int, lx, y, lz) {
                        BlockType::Leaves
                    } else {
                        old(blocks)@[cell_index(lx, y, lz)]
                    }),
        forall|p: ThreeDimPos|
            #[trigger] final(scratch)@.contains_key(p) <==> (old(scratch)@.contains_key(p)
                || spec_out_target(chunk_pos, sx as int, sz as int, p)),
        forall|p: ThreeDimPos|
            spec_out_target(chunk_pos, sx as int, sz as int, p) ==>
                #[trigger] final(scratch)@[p] == BlockType::Leaves,
        forall|p: ThreeDimPos|
            !spec_out_target(chunk_pos, sx as int, sz as int, p)
                && old(scratch)@.contains_key(p) ==>
                #[trigger] final(scratch)@[p] == old(scratch)@[p],
{
    let ghost b0 = old(blocks)@;
    let ghost s0 = old(scratch)@;
    let ghost sxi = sx as int;
    let ghost szi = sz as int;
    let mut dx: usize = 0;
    while dx < 7
        invariant
            dx <= 7,
            blocks@.len() == 65536,
            scratch.wf(),
            b0.len() == 65536,
            sx < 16 && sz < 16,
            sxi == sx as int && szi == sz as int,
            -ORIGIN_LIMIT <= chunk_pos.x <= ORIGIN_LIMIT,
            -ORIGIN_LIMIT <= chunk_pos.z <= ORIGIN_LIMIT,
            elev as int == spec_col_elev(chunk_pos, sxi, szi),
            15 <= elev <= 125,
            spec_col_tree(chunk_pos, sxi, szi),
            forall|lx: int, y: int, lz: int|
                0 <= lx < 16 && 0 <= y < 256 && 0 <= lz < 16 ==>
                    blocks@[cell_index(lx, y, lz)] == (
                        if b0[cell_index(lx, y, lz)] == BlockType::Air
                            && covered(chunk_pos, sxi, szi, lx, y, lz, (dx * 21) as int) {
                            BlockType::Leaves
                        } else {
                            b0[cell_index(lx, y, lz)]
                        }),
            forall|p: ThreeDimPos|
                #[trigger] scratch@.contains_key(p) <==> (s0.contains_key(p)
                    || out_covered(chunk_pos, sxi, szi, p, (dx * 21) as int)),
            forall|p: ThreeDimPos|
                out_covered(chunk_pos, sxi, szi, p, (dx * 21) as int) ==>
                    #[trigger] scratch@[p] == BlockType::Leaves,
            forall|p: ThreeDimPos|
                !out_covered(chunk_pos, sxi, szi, p, (dx * 21) as int)
                    && s0.contains_key(p) ==> #[trigger] scratch@[p] == s0[p],
        decreases 7 - dx,
    {
        let mut dz: usize = 0;
        while dz < 7
            invariant
                dx < 7,
                dz <= 7,
                blocks@.len() == 65536,
                scratch.wf(),
                b0.len() == 65536,
                sx < 16 && sz < 16,
                sxi == sx as int && szi == sz as int,
                -ORIGIN_LIMIT <= chunk_pos.x <= ORIGIN_LIMIT,
                -ORIGIN_LIMIT <= chunk_pos.z <= ORIGIN_LIMIT,
                elev as int == spec_col_elev(chunk_pos, sxi, szi),
                15 <= elev <= 125,
                spec_col_tree(chunk_pos, sxi, szi),
                forall|lx: int, y: int, lz: int|
                    0 <= lx < 16 && 0 <= y < 256 && 0 <= lz < 16 ==>
                        blocks@[cell_index(lx, y, lz)] == (
                            if b0[cell_index(lx, y, lz)] == BlockType::Air
                                && covered(chunk_pos, sxi, szi, lx, y, lz,
                                    (dx * 21 + dz * 3) as int) {
                                BlockType::Leaves
                            } else {
                                b0[cell_index(lx, y, lz)]
                            }),
                forall|p: ThreeDimPos|
                    #[trigger] scratch@.contains_key(p) <==> (s0.contains_key(p)
                        || out_covered(chunk_pos, sxi, szi, p,
                            (dx * 21 + dz * 3) as int)),
                forall|p: ThreeDimPos|
                    out_covered(chunk_pos, sxi, szi, p,
                        (dx * 21 + dz * 3) as int) ==> #[trigger] scratch@[p] == BlockType::Leaves,
                forall|p: ThreeDimPos|
                    !out_covered(chunk_pos, sxi, szi, p, (dx * 21 + dz * 3) as int)
                        && s0.contains_key(p) ==> #[trigger] scratch@[p] == s0[p],
            decreases 7 - dz,
        {
            let mut dy: usize = 0;
            while dy < 3
                invariant
                    dx < 7,
                    dz < 7,
                    dy <= 3,
                    blocks@.len() == 65536,
                    scratch.wf(),
                    b0.len() == 65536,
                    sx < 16 && sz < 16,
                    sxi == sx as int && szi == sz as int,
                    -ORIGIN_LIMIT <= chunk_pos.x <= ORIGIN_LIMIT,
                    -ORIGIN_LIMIT <= chunk_pos.z <= ORIGIN_LIMIT,
                    elev as int == spec_col_elev(chunk_pos, sxi, szi),
                    15 <= elev <= 125,
                    spec_col_tree(chunk_pos, sxi, szi),
                    forall|lx: int, y: int, lz: int|
                        0 <= lx < 16 && 0 <= y < 256 && 0 <= lz < 16 ==>
                            blocks@[cell_index(lx, y, lz)] == (
                                if b0[cell_index(lx, y, lz)] == BlockType::Air
                                    && covered(chunk_pos, sxi, szi, lx, y, lz,
                                        (dx * 21 + dz * 3 + dy) as int) {
                                    BlockType::Leaves
                                } else {
                                    b0[cell_index(lx, y, lz)]
                                }),
                    forall|p: ThreeDimPos|
                        #[trigger] scratch@.contains_key(p) <==> (s0.contains_key(p)
                            || out_covered(chunk_pos, sxi, szi, p,
                                (dx * 21 + dz * 3 + dy) as int)),
                    forall|p: ThreeDimPos|
                        out_covered(chunk_pos, sxi, szi, p,
                            (dx * 21 + dz * 3 + dy) as int) ==>
                            #[trigger] scratch@[p] == BlockType::Leaves,
                    forall|p: ThreeDimPos|
                        !out_covered(chunk_pos, sxi, szi, p, (dx * 21 + dz * 3 + dy) as int)
                            && s0.contains_key(p) ==> #[trigger] scratch@[p] == s0[p],
                decreases 3 - dy,
            {
                let ghost t = (dx * 21 + dz * 3 + dy) as int;
                proof {
                    lemma_covered_step(chunk_pos, sxi, szi, dx as int, dz as int, dy as int);
                }
                let lxi: i64 = sx as i64 + dx as i64 - 3;
                let lzi: i64 = sz as i64 + dz as i64 - 3;
                let yy: usize = elev as usize + 5 + dy;
                let ghost tlx = lxi as int;
                let ghost tlz = lzi as int;
                let ghost tyy = yy as int;
                proof {
                    assert(spec_canopy_src(chunk_pos, sxi, szi, tlx, tyy, tlz));
                }
                if 0 <= lxi && lxi < 16 && 0 <= lzi && lzi < 16 {
                    let idx = ((lxi as usize) * 16 + (lzi as usize)) * 256 + yy;
                    proof {
                        assert(idx == cell_index(tlx, tyy, tlz));
                    }
                    if blocks[idx] == BlockType::Air {
                        blocks[idx] = BlockType::Leaves;
                    }
                } else {
                    let p = ThreeDimPos {
                        x: chunk_pos.x + lxi,
                        y: yy as u8,
                        z: chunk_pos.z + lzi,
                    };
                    proof {
                        assert(p.x - chunk_pos.x == tlx);
                        assert(p.z - chunk_pos.z == tlz);
                        assert(p.y as int == tyy);
                        assert(spec_out_target(chunk_pos, sxi, szi, p));
                    }
                    scratch.put(p, BlockType::Leaves);
                }
                dy += 1;
            }
            dz += 1;
        }
        dx += 1;
    }
    proof {
        assert forall|lx: int, y: int, lz: int|
            covered(chunk_pos, sxi, szi, lx, y, lz, 147)
                == spec_canopy_src(chunk_pos, sxi, szi, lx, y, lz) by {}
        assert forall|p: ThreeDimPos|
            out_covered(chunk_pos, sxi, szi, p, 147)
                == spec_out_target(chunk_pos, sxi, szi, p) by {}
    }
}

impl Chunk {
    /// Creates a new chunk whose starting corner sits at world coordinates
    /// `chunk_pos`, claiming matching scratch entries and spilling
    /// overhanging tree parts into the scratch map. Errors exactly when the
    /// origin is not divisible by the chunk size.
    #[verifier::rlimit(100)]
    pub fn new(chunk_pos: WorldPos, scratch: &mut ScratchMap) -> (r: Result<Chunk, ChunkError>)
        requires
            old(scratch).wf(),
            -ORIGIN_LIMIT <= chunk_pos.x <= ORIGIN_LIMIT,
            -ORIGIN_LIMIT <= chunk_pos.z <= ORIGIN_LIMIT,
        ensures
            final(scratch).wf(),
            r is Ok <==> aligned(chunk_pos),
            !aligned(chunk_pos) ==> r == Err::<Chunk, ChunkError>(ChunkError::MisalignedOrigin)
                && *final(scratch) == *old(scratch),
            r is Ok ==> (r->Ok_0).wf(),
            r is Ok ==> (r->Ok_0).origin() == chunk_pos,
            r is Ok ==> (r->Ok_0).mesh_current(),
            r is Ok ==> (r->Ok_0).highlight_marker() == Some((
                0usize, spec_elevation(chunk_pos.x, chunk_pos.z) as usize, 0usize,
                BlockSide::Top)),
            r is Ok ==> forall|lx: int, y: int, lz: int|
                0 <= lx < 16 && 0 <= y < 256 && 0 <= lz < 16 ==>
                    (r->Ok_0).block_at(lx, y, lz)
                        == spec_gen_block(chunk_pos, old(scratch)@, lx, y, lz),
            r is Ok ==> forall|p: ThreeDimPos|
                #[trigger] final(scratch)@.contains_key(p) <==> (
                    spec_canopy_out(chunk_pos, p)
                        || (old(scratch)@.contains_key(p) && !in_chunk(chunk_pos, p))),
            r is Ok ==> forall|p: ThreeDimPos|
                spec_canopy_out(chunk_pos, p) ==>
                    #[trigger] final(scratch)@[p] == BlockType::Leaves,
            r is Ok ==> forall|p: ThreeDimPos|
                !spec_canopy_out(chunk_pos, p) && old(scratch)@.contains_key(p)
                    && !in_chunk(chunk_pos, p) ==>
                    #[trigger] final(scratch)@[p] == old(scratch)@[p],
    {
        let mx = rem_euclid_i64(chunk_pos.x, 16);
        let mz = rem_euclid_i64(chunk_pos.z, 16);
        if mx != 0 || mz != 0 {
            return Err(ChunkError::MisalignedOrigin);
        }

        let ghost s_old = scratch@;

        // First pass: terrain layers and tree trunks, cell by cell in grid
        // order.
        let mut blocks: Vec<BlockType> = Vec::new();
        let mut x: usize = 0;
        while x < 16
            invariant
                x <= 16,
                blocks@.len() == x * 4096,
                -ORIGIN_LIMIT <= chunk_pos.x <= ORIGIN_LIMIT,
                -ORIGIN_LIMIT <= chunk_pos.z <= ORIGIN_LIMIT,
                forall|cx: int, cy: int, cz: int|
                    0 <= cx < 16 && 0 <= cy < 256 && 0 <= cz < 16
                        && cell_index(cx, cy, cz) < blocks@.len() ==>
                        blocks@[#[trigger] cell_index(cx, cy, cz)]
                            == spec_gen_tt(chunk_pos, cx, cy, cz),
            decreases 16 - x,
        {
            let wx: i64 = chunk_pos.x + x as i64;
            let mut z: usize = 0;
            while z < 16
                invariant
                    x < 16,
                    z <= 16,
                    wx == chunk_pos.x + x as i64,
                    blocks@.len() == x * 4096 + z * 256,
                    -ORIGIN_LIMIT <= chunk_pos.x <= ORIGIN_LIMIT,
                    -ORIGIN_LIMIT <= chunk_pos.z <= ORIGIN_LIMIT,
                    forall|cx: int, cy: int, cz: int|
                        0 <= cx < 16 && 0 <= cy < 256 && 0 <= cz < 16
                            && cell_index(cx, cy, cz) < blocks@.len() ==>
                            blocks@[#[trigger] cell_index(cx, cy, cz)]
                                == spec_gen_tt(chunk_pos, cx, cy, cz),
                decreases 16 - z,
            {
                let wz: i64 = chunk_pos.z + z as i64;
                let elev = sample_elevation(wx, wz);
                let tree = elev >= 64 && sample_tree(wx, wz);
                let e = elev as usize;
                let mut y: usize = 0;
                while y < 256
                    invariant
                        x < 16,
                        z < 16,
                        y <= 256,
                        wx == chunk_pos.x + x as i64,
                        wz == chunk_pos.z + z as i64,
                        e == elev as int,
                        elev as int == spec_col_elev(chunk_pos, x as int, z as int),
                        15 <= elev <= 125,
                        tree == spec_col_tree(chunk_pos, x as int, z as int),
                        blocks@.len() == x * 4096 + z * 256 + y,
                        -ORIGIN_LIMIT <= chunk_pos.x <= ORIGIN_LIMIT,
                        -ORIGIN_LIMIT <= chunk_pos.z <= ORIGIN_LIMIT,
                        forall|cx: int, cy: int, cz: int|
                            0 <= cx < 16 && 0 <= cy < 256 && 0 <= cz < 16
                                && cell_index(cx, cy, cz) < blocks@.len() ==>
                                blocks@[#[trigger] cell_index(cx, cy, cz)]
                                    == spec_gen_tt(chunk_pos, cx, cy, cz),
                    decreases 256 - y,
                {
                    let b = if y + 3 < e {
                        BlockType::Stone
                    } else if y < e {
                        BlockType::Dirt
                    } else if y == e && y <= 64 {
                        BlockType::Sand
                    } else if y == e {
                        BlockType::Grass
                    } else if y > e && y <= 64 {
                        BlockType::Water
                    } else if tree && y > e && y < e + 5 {
                        BlockType::Log
                    } else {
                        BlockType::Air
                    };
                    proof {
                        assert(b == spec_gen_tt(chunk_pos, x as int, y as int, z as int));
                        assert(cell_index(x as int, y as int, z as int) == blocks@.len());
                    }
                    blocks.push(b);
                    y += 1;
                }
                z += 1;
            }
            x += 1;
        }

        // Second pass: canopies. Leaves fill in-chunk cells that are still
        // air; cells outside the chunk go to the scratch map.
        let mut sx: usize = 0;
        while sx < 16
            invariant
                sx <= 16,
                blocks@.len() == 65536,
                scratch.wf(),
                -ORIGIN_LIMIT <= chunk_pos.x <= ORIGIN_LIMIT,
                -ORIGIN_LIMIT <= chunk_pos.z <= ORIGIN_LIMIT,
                forall|lx: int, y: int, lz: int|
                    0 <= lx < 16 && 0 <= y < 256 && 0 <= lz < 16 ==>
                        blocks@[#[trigger] cell_index(lx, y, lz)]
                            == spec_gen_canopy_before(chunk_pos, lx, y, lz, sx as int * 16),
                forall|p: ThreeDimPos|
                    #[trigger] scratch@.contains_key(p) <==> (s_old.contains_key(p)
                        || spec_canopy_out_before(chunk_pos, p, sx as int * 16)),
                forall|p: ThreeDimPos|
                    spec_canopy_out_before(chunk_pos, p, sx as int * 16) ==>
                        #[trigger] scratch@[p] == BlockType::Leaves,
                forall|p: ThreeDimPos|
                    !spec_canopy_out_before(chunk_pos, p, sx as int * 16)
                        && s_old.contains_key(p) ==> #[trigger] scratch@[p] == s_old[p],
            decreases 16 - sx,
        {
            let wx: i64 = chunk_pos.x + sx as i64;
            let mut sz: usize = 0;
            while sz < 16
                invariant
                    sx < 16,
                    sz <= 16,
                    wx == chunk_pos.x + sx as i64,
                    blocks@.len() == 65536,
                    scratch.wf(),
                    -ORIGIN_LIMIT <= chunk_pos.x <= ORIGIN_LIMIT,
                    -ORIGIN_LIMIT <= chunk_pos.z <= ORIGIN_LIMIT,
                    forall|lx: int, y: int, lz: int|
                        0 <= lx < 16 && 0 <= y < 256 && 0 <= lz < 16 ==>
                            blocks@[#[trigger] cell_index(lx, y, lz)]
                                == spec_gen_canopy_before(
                                    chunk_pos, lx, y, lz, sx as int * 16 + sz as int),
                    forall|p: ThreeDimPos|
                        #[trigger] scratch@.contains_key(p) <==> (s_old.contains_key(p)
                            || spec_canopy_out_before(
                                chunk_pos, p, sx as int * 16 + sz as int)),
                    forall|p: ThreeDimPos|
                        spec_canopy_out_before(chunk_pos, p, sx as int * 16 + sz as int) ==>
                            #[trigger] scratch@[p] == BlockType::Leaves,
                    forall|p: ThreeDimPos|
                        !spec_canopy_out_before(chunk_pos, p, sx as int * 16 + sz as int)
                            && s_old.contains_key(p) ==> #[trigger] scratch@[p] == s_old[p],
                decreases 16 - sz,
            {
                let wz: i64 = chunk_pos.z + sz as i64;
                let elev = sample_elevation(wx, wz);
                let tree = elev >= 64 && sample_tree(wx, wz);
                let ghost bprev = blocks@;
                let ghost sprev = scratch@;
                let ghost n = sx as int * 16 + sz as int;
                if tree {
                    apply_canopy(&mut blocks, scratch, chunk_pos, sx, sz, elev);
                }
                proof {
                    assert forall|lx: int, y: int, lz: int|
                        0 <= lx < 16 && 0 <= y < 256 && 0 <= lz < 16 implies
                        blocks@[#[trigger] cell_index(lx, y, lz)]
                            == spec_gen_canopy_before(chunk_pos, lx, y, lz, n + 1) by {
                        lemma_canopy_before_step(
                            chunk_pos, lx, y, lz, sx as int, sz as int);
                        assert(bprev[cell_index(lx, y, lz)]
                            == spec_gen_canopy_before(chunk_pos, lx, y, lz, n));
                        if tree {
                            assert(blocks@[cell_index(lx, y, lz)] == (
                                if bprev[cell_index(lx, y, lz)] == BlockType::Air
                                    && spec_canopy_src(
                                        chunk_pos, sx as int, sz as int, lx, y, lz) {
                                    BlockType::Leaves
                                } else {
                                    bprev[cell_index(lx, y, lz)]
                                }));
                        } else {
                            assert(!spec_col_tree(chunk_pos, sx as int, sz as int));
                            assert(!spec_canopy_src(
                                chunk_pos, sx as int, sz as int, lx, y, lz));
                        }
                    }
                    assert forall|p: ThreeDimPos|
                        #[trigger] scratch@.contains_key(p) <==> (s_old.contains_key(p)
                            || spec_canopy_out_before(chunk_pos, p, n + 1)) by {
                        lemma_canopy_out_before_step(chunk_pos, p, sx as int, sz as int);
                    }
                    assert forall|p: ThreeDimPos|
                        spec_canopy_out_before(chunk_pos, p, n + 1) implies
                        #[trigger] scratch@[p] == BlockType::Leaves by {
                        lemma_canopy_out_before_step(chunk_pos, p, sx as int, sz as int);
                    }
                    assert forall|p: ThreeDimPos|
                        !spec_canopy_out_before(chunk_pos, p, n + 1)
                            && s_old.contains_key(p) implies
                        #[trigger] scratch@[p] == s_old[p] by {
                        lemma_canopy_out_before_step(chunk_pos, p, sx as int, sz as int);
                    }
                }
                sz += 1;
            }
            sx += 1;
        }
        proof {
            lemma_canopy_before_full(chunk_pos);
        }

        // Third pass: claim scratch entries belonging to this chunk; a
        // scratched value overrides anything generated.
        let ghost b2 = blocks@;
        let ghost s2 = scratch@;
        let mut i: usize = 0;
        loop
            invariant
                i <= scratch.entries_seq().len(),
                scratch.wf(),
                blocks@.len() == 65536,
                b2.len() == 65536,
                -ORIGIN_LIMIT <= chunk_pos.x <= ORIGIN_LIMIT,
                -ORIGIN_LIMIT <= chunk_pos.z <= ORIGIN_LIMIT,
                forall|j: int| 0 <= j < i ==>
                    !in_chunk(chunk_pos, (#[trigger] scratch.entries_seq()[j]).0),
                forall|p: ThreeDimPos|
                    #[trigger] scratch@.contains_key(p) ==>
                        s2.contains_key(p) && scratch@[p] == s2[p],
                forall|p: ThreeDimPos|
                    !in_chunk(chunk_pos, p) && s2.contains_key(p) ==>
                        #[trigger] scratch@.contains_key(p),
                forall|lx: int, y: int, lz: int|
                    0 <= lx < 16 && 0 <= y < 256 && 0 <= lz < 16 ==>
                        blocks@[#[trigger] cell_index(lx, y, lz)] == (
                            if s2.contains_key(world_cell(chunk_pos, lx, y, lz))
                                && !scratch@.contains_key(world_cell(chunk_pos, lx, y, lz)) {
                                s2[world_cell(chunk_pos, lx, y, lz)]
                            } else {
                                b2[cell_index(lx, y, lz)]
                            }),
            ensures
                i == scratch.entries_seq().len(),
            decreases scratch.entries_seq().len() - i,
        {
            if i >= scratch.len() {
                break;
            }
            let (p, b) = scratch.entry_at(i);
            if p.x >= chunk_pos.x && p.x < chunk_pos.x + 16
                && p.z >= chunk_pos.z && p.z < chunk_pos.z + 16 {
                proof {
                    crate::world::scratch::lemma_map_of_get(scratch.entries_seq(), i as int);
                }
                scratch.remove_at(i);
                let lx = (p.x - chunk_pos.x) as usize;
                let lz = (p.z - chunk_pos.z) as usize;
                let yy = p.y as usize;
                proof {
                    assert(world_cell(chunk_pos, lx as int, yy as int, lz as int) == p);
                }
                let idx = (lx * 16 + lz) * 256 + yy;
                blocks[idx] = b;
                proof {
                    assert forall|cx: int, cy: int, cz: int|
                        0 <= cx < 16 && 0 <= cy < 256 && 0 <= cz < 16 implies
                        blocks@[#[trigger] cell_index(cx, cy, cz)] == (
                            if s2.contains_key(world_cell(chunk_pos, cx, cy, cz))
                                && !scratch@.contains_key(world_cell(chunk_pos, cx, cy, cz)) {
                                s2[world_cell(chunk_pos, cx, cy, cz)]
                            } else {
                                b2[cell_index(cx, cy, cz)]
                            }) by {
                        if cell_index(cx, cy, cz) == idx {
                            assert(cx == lx as int && cy == yy as int && cz == lz as int);
                        } else {
                            assert(world_cell(chunk_pos, cx, cy, cz) != p
                                || (cx == lx as int && cy == yy as int && cz == lz as int));
                        }
                    }
                }
            } else {
                i += 1;
            }
        }
        proof {
            assert forall|p: ThreeDimPos| in_chunk(chunk_pos, p) implies
                !scratch@.contains_key(p) by {
                crate::world::scratch::lemma_map_of_dom(scratch.entries_seq(), p);
            }
            assert forall|p: ThreeDimPos| #[trigger] spec_canopy_out(chunk_pos, p) implies
                !in_chunk(chunk_pos, p) by {
                let (ssx, ssz) = choose|ssx: int, ssz: int|
                    spec_out_target(chunk_pos, ssx, ssz, p);
            }
        }

        proof {
            assert forall|p: ThreeDimPos|
                #[trigger] scratch@.contains_key(p) <==> (spec_canopy_out(chunk_pos, p)
                    || (s_old.contains_key(p) && !in_chunk(chunk_pos, p))) by {
                assert(s2.contains_key(p) <==> (s_old.contains_key(p)
                    || spec_canopy_out_before(chunk_pos, p, 256)));
                assert(spec_canopy_out_before(chunk_pos, p, 256)
                    == spec_canopy_out(chunk_pos, p));
            }
            assert forall|p: ThreeDimPos| spec_canopy_out(chunk_pos, p) implies
                #[trigger] scratch@[p] == BlockType::Leaves by {
                assert(spec_canopy_out_before(chunk_pos, p, 256)
                    == spec_canopy_out(chunk_pos, p));
                assert(s2.contains_key(p));
                assert(s2[p] == BlockType::Leaves);
                assert(!in_chunk(chunk_pos, p));
                assert(scratch@.contains_key(p));
            }
            assert forall|p: ThreeDimPos|
                !spec_canopy_out(chunk_pos, p) && s_old.contains_key(p)
                    && !in_chunk(chunk_pos, p) implies
                #[trigger] scratch@[p] == s_old[p] by {
                assert(spec_canopy_out_before(chunk_pos, p, 256)
                    == spec_canopy_out(chunk_pos, p));
                assert(s2.contains_key(p));
                assert(s2[p] == s_old[p]);
                assert(scratch@.contains_key(p));
            }
            assert forall|lx: int, y: int, lz: int|
                0 <= lx < 16 && 0 <= y < 256 && 0 <= lz < 16 implies
                blocks@[#[trigger] cell_index(lx, y, lz)]
                    == spec_gen_block(chunk_pos, s_old, lx, y, lz) by {
                let wc = world_cell(chunk_pos, lx, y, lz);
                assert(in_chunk(chunk_pos, wc));
                assert(!scratch@.contains_key(wc));
                assert(!spec_canopy_out(chunk_pos, wc));
                assert(spec_canopy_out_before(chunk_pos, wc, 256)
                    == spec_canopy_out(chunk_pos, wc));
                assert(s2.contains_key(wc) <==> s_old.contains_key(wc));
                if s_old.contains_key(wc) {
                    assert(s2[wc] == s_old[wc]);
                }
                assert(b2[cell_index(lx, y, lz)]
                    == spec_gen_canopy_before(chunk_pos, lx, y, lz, 256));
                assert(spec_canopy_before(chunk_pos, lx, y, lz, 256)
                    == spec_canopy(chunk_pos, lx, y, lz));
            }
        }
        let hl_y = sample_elevation(chunk_pos.x, chunk_pos.z) as usize;
        let mut out = Chunk {
            blocks,
            pos: chunk_pos,
            highlighted: Some((0, hl_y, 0, BlockSide::Top)),
            mesh: Mesh::new(),
        };
        out.generate_mesh();
        Ok(out)
    }
}

/// Chunks generated independently agree on terrain elevation wherever their
/// columns address the same absolute position: elevation is a function of
/// the global seed and the absolute column alone, so two adjacent chunks
/// see identical heights along their shared boundary without communication.
pub proof fn lemma_adjacent_chunks_agree(
    o1: WorldPos, o2: WorldPos, lx1: int, lz1: int, lx2: int, lz2: int,
)
    requires
        -ORIGIN_LIMIT <= o1.x <= ORIGIN_LIMIT,
        -ORIGIN_LIMIT <= o1.z <= ORIGIN_LIMIT,
        -ORIGIN_LIMIT <= o2.x <= ORIGIN_LIMIT,
        -ORIGIN_LIMIT <= o2.z <= ORIGIN_LIMIT,
        0 <= lx1 < 16,
        0 <= lz1 < 16,
        0 <= lx2 < 16,
        0 <= lz2 < 16,
        o1.x + lx1 == o2.x + lx2,
        o1.z + lz1 == o2.z + lz2,
    ensures
        spec_col_elev(o1, lx1, lz1) == spec_col_elev(o2, lx2, lz2),
        spec_col_tree(o1, lx1, lz1) == spec_col_tree(o2, lx2, lz2),
{
    assert((o1.x + lx1) as i64 == (o2.x + lx2) as i64);
    assert((o1.z + lz1) as i64 == (o2.z + lz2) as i64);
}

/// Terrain classification of a generated cell, before scratch overrides:
/// at or below its column's surface elevation a cell holds terrain (stone,
/// dirt, grass or sand); above the surface and above sea level it holds
/// air, a log exactly where the column's own tree trunk stands, or leaves
/// exactly where some tree's canopy reaches.
pub proof fn lemma_terrain_classification(origin: WorldPos, lx: int, y: int, lz: int)
    requires
        0 <= lx < 16,
        0 <= y < 256,
        0 <= lz < 16,
    ensures
        y <= spec_col_elev(origin, lx, lz) ==> (
            spec_gen_base(origin, lx, y, lz) == BlockType::Stone
                || spec_gen_base(origin, lx, y, lz) == BlockType::Dirt
                || spec_gen_base(origin, lx, y, lz) == BlockType::Grass
                || spec_gen_base(origin, lx, y, lz) == BlockType::Sand),
        y > spec_col_elev(origin, lx, lz) && y > 64 ==> spec_gen_base(origin, lx, y, lz)
            == (if spec_trunk(origin, lx, y, lz) {
                BlockType::Log
            } else if spec_canopy(origin, lx, y, lz) {
                BlockType::Leaves
            } else {
                BlockType::Air
            }),
{
}

} // verus!
