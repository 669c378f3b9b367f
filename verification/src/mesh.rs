//! Surface meshes of chunks: which faces of which voxels are drawn, and the
//! vertex, normal, texture and index buffers that draw them.
//!
//! Positions are in voxel units from the chunk's origin. Texture coordinates
//! are in texels of the atlas; dividing them by `ATLAS_SIZE` gives the
//! coordinates in the unit square.

use vstd::prelude::*;
use vstd::arithmetic::div_mod::lemma_fundamental_div_mod_converse;
use crate::block::{Block, BlockTextureConfig, TEXTURE_SIZE};
use crate::chunk::{in_chunk, voxel_index, Chunk, CHUNK_SIZE};

verus! {

/// The six sides of a voxel, in the order in which their faces are emitted.
#[derive(PartialEq, Eq, Structural, Clone, Copy, Debug)]
pub enum FaceDirection {
    /// Towards +z.
    ZFront,
    /// Towards -z.
    ZBack,
    /// Towards +y.
    YFront,
    /// Towards -y.
    YBack,
    /// Towards +x.
    XFront,
    /// Towards -x.
    XBack,
}

/// Number of sides of a voxel.
pub const FACES_PER_VOXEL: usize = 6;

/// Number of voxel sides of a chunk.
pub const FACE_SLOTS_PER_CHUNK: usize = 24576;

/// What a mesh holds: one entry per vertex in `positions`, `normals` and
/// `uvs`, and three entries per triangle in `indices`.
#[verifier::ext_equal]
pub struct MeshView {
    pub positions: Seq<(int, int, int)>,
    pub normals: Seq<(int, int, int)>,
    pub uvs: Seq<(int, int)>,
    pub indices: Seq<int>,
}

/// The two triangles of a quad whose four vertices start at `start`.
pub open spec fn quad_indices(start: int) -> Seq<int> {
    seq![start, start + 2, start + 1, start + 2, start + 3, start + 1]
}

/// A vertex, normal or offset as a triple of integers.
pub open spec fn vec3(a: [i32; 3]) -> (int, int, int) {
    (a[0] as int, a[1] as int, a[2] as int)
}

/// A texture coordinate as a pair of integers.
pub open spec fn vec2(a: [u32; 2]) -> (int, int) {
    (a[0] as int, a[1] as int)
}

/// A position moved by an offset.
pub open spec fn translate(v: (int, int, int), by: (int, int, int)) -> (int, int, int) {
    (v.0 + by.0, v.1 + by.1, v.2 + by.2)
}

/// Where a corner of the unit square lands in the atlas: a coordinate of 0
/// goes to the start of the block's tile, any other to its end.
pub open spec fn atlas_uv(corner: (int, int), config: BlockTextureConfig) -> (int, int) {
    (
        if corner.0 == 0 {
            config.starting_x as int
        } else {
            config.starting_x + TEXTURE_SIZE
        },
        if corner.1 == 0 {
            config.starting_y as int
        } else {
            config.starting_y + TEXTURE_SIZE
        },
    )
}

impl MeshView {
    /// The mesh without a vertex.
    pub open spec fn empty() -> MeshView {
        MeshView {
            positions: Seq::empty(),
            normals: Seq::empty(),
            uvs: Seq::empty(),
            indices: Seq::empty(),
        }
    }

    /// The mesh with one more quad: its vertices, normals and texture
    /// coordinates appended, and two triangles over the new vertices.
    pub open spec fn with_quad(
        self,
        positions: Seq<(int, int, int)>,
        normals: Seq<(int, int, int)>,
        uvs: Seq<(int, int)>,
    ) -> MeshView {
        MeshView {
            positions: self.positions + positions,
            normals: self.normals + normals,
            uvs: self.uvs + uvs,
            indices: self.indices + quad_indices(self.positions.len() as int),
        }
    }
}

/// Utility object for building the chunk meshes.
pub struct MeshBuilder {
    pub vertices: Vec<[i32; 3]>,
    pub normals: Vec<[i32; 3]>,
    pub uvs: Vec<[u32; 2]>,
    pub indices: Vec<u32>,
}

/// A finished triangle mesh.
#[derive(Debug)]
pub struct Mesh {
    pub positions: Vec<[i32; 3]>,
    pub normals: Vec<[i32; 3]>,
    pub uvs: Vec<[u32; 2]>,
    pub indices: Vec<u32>,
}

/// What four buffers hold, as a mesh.
pub open spec fn buffers_view(
    positions: Seq<[i32; 3]>,
    normals: Seq<[i32; 3]>,
    uvs: Seq<[u32; 2]>,
    indices: Seq<u32>,
) -> MeshView {
    MeshView {
        positions: Seq::new(positions.len(), |i: int| vec3(positions[i])),
        normals: Seq::new(normals.len(), |i: int| vec3(normals[i])),
        uvs: Seq::new(uvs.len(), |i: int| vec2(uvs[i])),
        indices: Seq::new(indices.len(), |i: int| indices[i] as int),
    }
}

impl View for MeshBuilder {
    type V = MeshView;

    open spec fn view(&self) -> MeshView {
        buffers_view(self.vertices@, self.normals@, self.uvs@, self.indices@)
    }
}

impl View for Mesh {
    type V = MeshView;

    open spec fn view(&self) -> MeshView {
        buffers_view(self.positions@, self.normals@, self.uvs@, self.indices@)
    }
}

impl MeshBuilder {
    pub const FACE_Z_FRONT: [[i32; 3]; 4] = [[0, 0, 1], [0, 1, 1], [1, 0, 1], [1, 1, 1]];

    pub const FACE_Z_BACK: [[i32; 3]; 4] = [[1, 0, 0], [1, 1, 0], [0, 0, 0], [0, 1, 0]];

    pub const FACE_Y_FRONT: [[i32; 3]; 4] = [[0, 1, 1], [0, 1, 0], [1, 1, 1], [1, 1, 0]];

    pub const FACE_Y_BACK: [[i32; 3]; 4] = [[0, 0, 0], [0, 0, 1], [1, 0, 0], [1, 0, 1]];

    pub const FACE_X_FRONT: [[i32; 3]; 4] = [[1, 0, 1], [1, 1, 1], [1, 0, 0], [1, 1, 0]];

    pub const FACE_X_BACK: [[i32; 3]; 4] = [[0, 0, 0], [0, 1, 0], [0, 0, 1], [0, 1, 1]];

    pub const UV_Z_FRONT: [[u32; 2]; 4] = [[0, 0], [0, 1], [1, 0], [1, 1]];

    pub const UV_Z_BACK: [[u32; 2]; 4] = [[1, 0], [1, 1], [0, 0], [0, 1]];

    pub const UV_Y_FRONT: [[u32; 2]; 4] = [[0, 1], [0, 0], [1, 1], [1, 0]];

    pub const UV_Y_BACK: [[u32; 2]; 4] = [[0, 0], [0, 1], [1, 0], [1, 1]];

    pub const UV_X_FRONT: [[u32; 2]; 4] = [[1, 0], [1, 1], [0, 0], [0, 1]];

    pub const UV_X_BACK: [[u32; 2]; 4] = [[0, 0], [0, 1], [1, 0], [1, 1]];

    pub const NORMAL_Z_FRONT: [[i32; 3]; 4] = [[0, 0, 1], [0, 0, 1], [0, 0, 1], [0, 0, 1]];

    pub const NORMAL_Z_BACK: [[i32; 3]; 4] = [[0, 0, -1], [0, 0, -1], [0, 0, -1], [0, 0, -1]];

    pub const NORMAL_Y_FRONT: [[i32; 3]; 4] = [[0, 1, 0], [0, 1, 0], [0, 1, 0], [0, 1, 0]];

    pub const NORMAL_Y_BACK: [[i32; 3]; 4] = [[0, -1, 0], [0, -1, 0], [0, -1, 0], [0, -1, 0]];

    pub const NORMAL_X_FRONT: [[i32; 3]; 4] = [[1, 0, 0], [1, 0, 0], [1, 0, 0], [1, 0, 0]];

    pub const NORMAL_X_BACK: [[i32; 3]; 4] = [[-1, 0, 0], [-1, 0, 0], [-1, 0, 0], [-1, 0, 0]];

    /// A builder without a vertex.
    pub fn new() -> (builder: Self)
        ensures
            builder@ == MeshView::empty(),
            builder.vertices@.len() == 0,
            builder.normals@.len() == 0,
            builder.uvs@.len() == 0,
            builder.indices@.len() == 0,
    {
        Self { vertices: Vec::new(), normals: Vec::new(), uvs: Vec::new(), indices: Vec::new() }
    }

    fn get_face_indices(starting_index: u32) -> (indices: [u32; 6])
        requires
            starting_index + 3 <= u32::MAX,
        ensures
            Seq::new(6, |j: int| indices[j] as int) == quad_indices(starting_index as int),
    {
        let indices = [
            starting_index,
            starting_index + 2,
            starting_index + 1,
            starting_index + 2,
            starting_index + 3,
            starting_index + 1,
        ];
        assert(Seq::new(6, |j: int| indices[j] as int) =~= quad_indices(starting_index as int));
        indices
    }

    fn transform_uvs(uvs: &mut [[u32; 2]; 4], texture_config: BlockTextureConfig)
        requires
            texture_config.starting_x + TEXTURE_SIZE <= u32::MAX,
            texture_config.starting_y + TEXTURE_SIZE <= u32::MAX,
        ensures
            forall|i: int|
                0 <= i < 4 ==> vec2(#[trigger] final(uvs)[i]) == atlas_uv(
                    vec2(old(uvs)[i]),
                    texture_config,
                ),
    {
        let starting_x = texture_config.starting_x;
        let starting_y = texture_config.starting_y;

        // Assumption that every texture is 16x16
        let ending_x = starting_x + TEXTURE_SIZE;
        let ending_y = starting_y + TEXTURE_SIZE;

        let mut i: usize = 0;
        while i < 4
            invariant
                i <= 4,
                ending_x == starting_x + TEXTURE_SIZE,
                ending_y == starting_y + TEXTURE_SIZE,
                starting_x == texture_config.starting_x,
                starting_y == texture_config.starting_y,
                forall|k: int|
                    0 <= k < i ==> vec2(#[trigger] uvs[k]) == atlas_uv(
                        vec2(old(uvs)[k]),
                        texture_config,
                    ),
                forall|k: int| i <= k < 4 ==> #[trigger] uvs[k] == old(uvs)[k],
            decreases 4 - i,
        {
            let u = if uvs[i][0] == 0 {
                starting_x
            } else {
                ending_x
            };
            let v = if uvs[i][1] == 0 {
                starting_y
            } else {
                ending_y
            };
            uvs[i] = [u, v];
            i += 1;
        }
    }

    /// Adds the four vertices of the given face, moved by `offset`, with their
    /// normals and their texture coordinates in the block's atlas tile, and
    /// the two triangles that span them.
    pub fn add_face(
        &mut self,
        face: [[i32; 3]; 4],
        normals: [[i32; 3]; 4],
        uvs: [[u32; 2]; 4],
        offset: [i32; 3],
        texture_config: BlockTextureConfig,
    )
        requires
            old(self).vertices.len() + 3 <= u32::MAX,
            forall|i: int, j: int|
                0 <= i < 4 && 0 <= j < 3 ==> i32::MIN <= #[trigger] face[i][j] + offset[j]
                    <= i32::MAX,
            texture_config.starting_x + TEXTURE_SIZE <= u32::MAX,
            texture_config.starting_y + TEXTURE_SIZE <= u32::MAX,
        ensures
            final(self)@ == old(self)@.with_quad(
                Seq::new(4, |i: int| translate(vec3(face[i]), vec3(offset))),
                Seq::new(4, |i: int| vec3(normals[i])),
                Seq::new(4, |i: int| atlas_uv(vec2(uvs[i]), texture_config)),
            ),
    {
        let mut uvs = uvs;
        let ghost unit_uvs = uvs;
        Self::transform_uvs(&mut uvs, texture_config);

        // The starting index of the vertices that are just going to be added to our Vec
        // E.g. if one face was added, the length would be 4, and the next face will start
        // from index 4. This is needed to provide the correct indices for each face.
        let starting_index = self.vertices.len();
        let indices = Self::get_face_indices(starting_index as u32);

        let mut i: usize = 0;
        while i < 4
            invariant
                i <= 4,
                forall|i: int, j: int|
                    0 <= i < 4 && 0 <= j < 3 ==> i32::MIN <= #[trigger] face[i][j] + offset[j]
                        <= i32::MAX,
                forall|k: int|
                    0 <= k < 4 ==> vec2(#[trigger] uvs[k]) == atlas_uv(
                        vec2(unit_uvs[k]),
                        texture_config,
                    ),
                self.indices == old(self).indices,
                self.vertices@.len() == old(self).vertices@.len() + i,
                self.normals@.len() == old(self).normals@.len() + i,
                self.uvs@.len() == old(self).uvs@.len() + i,
                forall|k: int|
                    0 <= k < old(self).vertices@.len() ==> self.vertices@[k] == old(
                        self,
                    ).vertices@[k],
                forall|k: int|
                    0 <= k < old(self).normals@.len() ==> self.normals@[k] == old(
                        self,
                    ).normals@[k],
                forall|k: int| 0 <= k < old(self).uvs@.len() ==> self.uvs@[k] == old(self).uvs@[k],
                forall|k: int|
                    old(self).vertices@.len() <= k < old(self).vertices@.len() + i ==> vec3(
                        #[trigger] self.vertices@[k],
                    ) == translate(vec3(face[k - old(self).vertices@.len()]), vec3(offset)),
                forall|k: int|
                    old(self).normals@.len() <= k < old(self).normals@.len() + i
                        ==> #[trigger] self.normals@[k] == normals[k - old(self).normals@.len()],
                forall|k: int|
                    old(self).uvs@.len() <= k < old(self).uvs@.len() + i ==> #[trigger] self.uvs@[k]
                        == uvs[k - old(self).uvs@.len()],
            decreases 4 - i,
        {
            assert(i32::MIN <= face[i as int][0] + offset[0] <= i32::MAX);
            assert(i32::MIN <= face[i as int][1] + offset[1] <= i32::MAX);
            assert(i32::MIN <= face[i as int][2] + offset[2] <= i32::MAX);
            self.vertices.push(
                [face[i][0] + offset[0], face[i][1] + offset[1], face[i][2] + offset[2]],
            );
            self.normals.push(normals[i]);
            self.uvs.push(uvs[i]);
            i += 1;
        }

        let ghost vertices = self.vertices@;
        let ghost vertex_normals = self.normals@;
        let ghost vertex_uvs = self.uvs@;
        let mut j: usize = 0;
        while j < 6
            invariant
                j <= 6,
                self.vertices@ == vertices,
                self.normals@ == vertex_normals,
                self.uvs@ == vertex_uvs,
                self.indices@.len() == old(self).indices@.len() + j,
                forall|k: int|
                    0 <= k < old(self).indices@.len() ==> self.indices@[k] == old(
                        self,
                    ).indices@[k],
                forall|k: int|
                    old(self).indices@.len() <= k < old(self).indices@.len() + j
                        ==> #[trigger] self.indices@[k] == indices[k - old(self).indices@.len()],
            decreases 6 - j,
        {
            self.indices.push(indices[j]);
            j += 1;
        }
        proof {
            let expected = old(self)@.with_quad(
                Seq::new(4, |i: int| translate(vec3(face[i]), vec3(offset))),
                Seq::new(4, |i: int| vec3(normals[i])),
                Seq::new(4, |i: int| atlas_uv(vec2(unit_uvs[i]), texture_config)),
            );
            let quad = quad_indices(starting_index as int);
            assert forall|k: int| 0 <= k < 6 implies indices[k] as int == quad[k] by {
                assert(Seq::new(6, |j: int| indices[j] as int)[k] == quad[k]);
            }
            assert(self@.positions =~= expected.positions);
            assert(self@.normals =~= expected.normals);
            assert(self@.uvs =~= expected.uvs);
            assert(self@.indices =~= expected.indices);
        }
    }

    /// The finished mesh, with the buffers as they stand.
    pub fn to_mesh(self) -> (mesh: Mesh)
        ensures
            mesh@ == self@,
    {
        Mesh {
            positions: self.vertices,
            normals: self.normals,
            uvs: self.uvs,
            indices: self.indices,
        }
    }
}

impl FaceDirection {
    /// The side with the given place in the emission order.
    pub open spec fn spec_nth(d: int) -> FaceDirection {
        if d == 0 {
            FaceDirection::ZFront
        } else if d == 1 {
            FaceDirection::ZBack
        } else if d == 2 {
            FaceDirection::YFront
        } else if d == 3 {
            FaceDirection::YBack
        } else if d == 4 {
            FaceDirection::XFront
        } else {
            FaceDirection::XBack
        }
    }

    /// The step from a voxel to its neighbor on this side.
    pub open spec fn step(self) -> (int, int, int) {
        match self {
            FaceDirection::ZFront => (0, 0, 1),
            FaceDirection::ZBack => (0, 0, -1),
            FaceDirection::YFront => (0, 1, 0),
            FaceDirection::YBack => (0, -1, 0),
            FaceDirection::XFront => (1, 0, 0),
            FaceDirection::XBack => (-1, 0, 0),
        }
    }

    pub open spec fn spec_face(self) -> [[i32; 3]; 4] {
        match self {
            FaceDirection::ZFront => MeshBuilder::FACE_Z_FRONT,
            FaceDirection::ZBack => MeshBuilder::FACE_Z_BACK,
            FaceDirection::YFront => MeshBuilder::FACE_Y_FRONT,
            FaceDirection::YBack => MeshBuilder::FACE_Y_BACK,
            FaceDirection::XFront => MeshBuilder::FACE_X_FRONT,
            FaceDirection::XBack => MeshBuilder::FACE_X_BACK,
        }
    }

    pub open spec fn spec_normals(self) -> [[i32; 3]; 4] {
        match self {
            FaceDirection::ZFront => MeshBuilder::NORMAL_Z_FRONT,
            FaceDirection::ZBack => MeshBuilder::NORMAL_Z_BACK,
            FaceDirection::YFront => MeshBuilder::NORMAL_Y_FRONT,
            FaceDirection::YBack => MeshBuilder::NORMAL_Y_BACK,
            FaceDirection::XFront => MeshBuilder::NORMAL_X_FRONT,
            FaceDirection::XBack => MeshBuilder::NORMAL_X_BACK,
        }
    }

    pub open spec fn spec_uvs(self) -> [[u32; 2]; 4] {
        match self {
            FaceDirection::ZFront => MeshBuilder::UV_Z_FRONT,
            FaceDirection::ZBack => MeshBuilder::UV_Z_BACK,
            FaceDirection::YFront => MeshBuilder::UV_Y_FRONT,
            FaceDirection::YBack => MeshBuilder::UV_Y_BACK,
            FaceDirection::XFront => MeshBuilder::UV_X_FRONT,
            FaceDirection::XBack => MeshBuilder::UV_X_BACK,
        }
    }

    pub fn nth(d: usize) -> (direction: FaceDirection)
        requires
            d < FACES_PER_VOXEL,
        ensures
            direction == Self::spec_nth(d as int),
    {
        if d == 0 {
            FaceDirection::ZFront
        } else if d == 1 {
            FaceDirection::ZBack
        } else if d == 2 {
            FaceDirection::YFront
        } else if d == 3 {
            FaceDirection::YBack
        } else if d == 4 {
            FaceDirection::XFront
        } else {
            FaceDirection::XBack
        }
    }

    /// Corners of the face on this side of the voxel at the origin.
    #[verifier::when_used_as_spec(spec_face)]
    pub fn face(self) -> (face: [[i32; 3]; 4])
        ensures
            face == self.spec_face(),
    {
        match self {
            FaceDirection::ZFront => MeshBuilder::FACE_Z_FRONT,
            FaceDirection::ZBack => MeshBuilder::FACE_Z_BACK,
            FaceDirection::YFront => MeshBuilder::FACE_Y_FRONT,
            FaceDirection::YBack => MeshBuilder::FACE_Y_BACK,
            FaceDirection::XFront => MeshBuilder::FACE_X_FRONT,
            FaceDirection::XBack => MeshBuilder::FACE_X_BACK,
        }
    }

    /// Normals of the four corners of the face on this side.
    #[verifier::when_used_as_spec(spec_normals)]
    pub fn normals(self) -> (normals: [[i32; 3]; 4])
        ensures
            normals == self.spec_normals(),
    {
        match self {
            FaceDirection::ZFront => MeshBuilder::NORMAL_Z_FRONT,
            FaceDirection::ZBack => MeshBuilder::NORMAL_Z_BACK,
            FaceDirection::YFront => MeshBuilder::NORMAL_Y_FRONT,
            FaceDirection::YBack => MeshBuilder::NORMAL_Y_BACK,
            FaceDirection::XFront => MeshBuilder::NORMAL_X_FRONT,
            FaceDirection::XBack => MeshBuilder::NORMAL_X_BACK,
        }
    }

    /// Corners of the unit square that the four corners of the face on this
    /// side are textured with.
    #[verifier::when_used_as_spec(spec_uvs)]
    pub fn uvs(self) -> (uvs: [[u32; 2]; 4])
        ensures
            uvs == self.spec_uvs(),
    {
        match self {
            FaceDirection::ZFront => MeshBuilder::UV_Z_FRONT,
            FaceDirection::ZBack => MeshBuilder::UV_Z_BACK,
            FaceDirection::YFront => MeshBuilder::UV_Y_FRONT,
            FaceDirection::YBack => MeshBuilder::UV_Y_BACK,
            FaceDirection::XFront => MeshBuilder::UV_X_FRONT,
            FaceDirection::XBack => MeshBuilder::UV_X_BACK,
        }
    }
}

/// The cross product of two vectors.
pub open spec fn cross(a: (int, int, int), b: (int, int, int)) -> (int, int, int) {
    (a.1 * b.2 - a.2 * b.1, a.2 * b.0 - a.0 * b.2, a.0 * b.1 - a.1 * b.0)
}

/// The vector from `from` to `to`.
pub open spec fn between(from: (int, int, int), to: (int, int, int)) -> (int, int, int) {
    (to.0 - from.0, to.1 - from.1, to.2 - from.2)
}

/// The corner at place `i` of the face on a side of the voxel at the origin.
pub open spec fn corner(direction: FaceDirection, i: int) -> (int, int, int) {
    vec3(direction.spec_face()[i])
}

/// The normal of the triangle that `quad_indices` spans over the corners at
/// places `a`, `b` and `c` of a face, by the right-hand rule.
pub open spec fn triangle_normal(direction: FaceDirection, a: int, b: int, c: int) -> (
    int,
    int,
    int,
) {
    cross(
        between(corner(direction, a), corner(direction, b)),
        between(corner(direction, a), corner(direction, c)),
    )
}

/// Both triangles of a face turn counter-clockwise for a viewer whom the
/// face looks at: their normals by the right-hand rule are the step towards
/// the neighbor on that side, and so are the four normals in the buffer.
pub proof fn lemma_faces_wind_towards_their_normals(direction: FaceDirection)
    ensures
        triangle_normal(
            direction,
            quad_indices(0)[0],
            quad_indices(0)[1],
            quad_indices(0)[2],
        ) == direction.step(),
        triangle_normal(
            direction,
            quad_indices(0)[3],
            quad_indices(0)[4],
            quad_indices(0)[5],
        ) == direction.step(),
        forall|i: int|
            0 <= i < 4 ==> vec3(#[trigger] direction.spec_normals()[i]) == direction.step(),
{
    match direction {
        FaceDirection::ZFront => {
            assert(between(corner(direction, 0), corner(direction, 2)) == (1int, 0int, 0int));
            assert(between(corner(direction, 0), corner(direction, 1)) == (0int, 1int, 0int));
            assert(between(corner(direction, 2), corner(direction, 3)) == (0int, 1int, 0int));
            assert(between(corner(direction, 2), corner(direction, 1)) == (-1int, 1int, 0int));
            assert(cross((1int, 0int, 0int), (0int, 1int, 0int)) == (0int, 0int, 1int)) by (
                nonlinear_arith
            );
            assert(cross((0int, 1int, 0int), (-1int, 1int, 0int)) == (0int, 0int, 1int)) by (
                nonlinear_arith
            );
        },
        FaceDirection::ZBack => {
            assert(between(corner(direction, 0), corner(direction, 2)) == (-1int, 0int, 0int));
            assert(between(corner(direction, 0), corner(direction, 1)) == (0int, 1int, 0int));
            assert(between(corner(direction, 2), corner(direction, 3)) == (0int, 1int, 0int));
            assert(between(corner(direction, 2), corner(direction, 1)) == (1int, 1int, 0int));
            assert(cross((-1int, 0int, 0int), (0int, 1int, 0int)) == (0int, 0int, -1int)) by (
                nonlinear_arith
            );
            assert(cross((0int, 1int, 0int), (1int, 1int, 0int)) == (0int, 0int, -1int)) by (
                nonlinear_arith
            );
        },
        FaceDirection::YFront => {
            assert(between(corner(direction, 0), corner(direction, 2)) == (1int, 0int, 0int));
            assert(between(corner(direction, 0), corner(direction, 1)) == (0int, 0int, -1int));
            assert(between(corner(direction, 2), corner(direction, 3)) == (0int, 0int, -1int));
            assert(between(corner(direction, 2), corner(direction, 1)) == (-1int, 0int, -1int));
            assert(cross((1int, 0int, 0int), (0int, 0int, -1int)) == (0int, 1int, 0int)) by (
                nonlinear_arith
            );
            assert(cross((0int, 0int, -1int), (-1int, 0int, -1int)) == (0int, 1int, 0int)) by (
                nonlinear_arith
            );
        },
        FaceDirection::YBack => {
            assert(between(corner(direction, 0), corner(direction, 2)) == (1int, 0int, 0int));
            assert(between(corner(direction, 0), corner(direction, 1)) == (0int, 0int, 1int));
            assert(between(corner(direction, 2), corner(direction, 3)) == (0int, 0int, 1int));
            assert(between(corner(direction, 2), corner(direction, 1)) == (-1int, 0int, 1int));
            assert(cross((1int, 0int, 0int), (0int, 0int, 1int)) == (0int, -1int, 0int)) by (
                nonlinear_arith
            );
            assert(cross((0int, 0int, 1int), (-1int, 0int, 1int)) == (0int, -1int, 0int)) by (
                nonlinear_arith
            );
        },
        FaceDirection::XFront => {
            assert(between(corner(direction, 0), corner(direction, 2)) == (0int, 0int, -1int));
            assert(between(corner(direction, 0), corner(direction, 1)) == (0int, 1int, 0int));
            assert(between(corner(direction, 2), corner(direction, 3)) == (0int, 1int, 0int));
            assert(between(corner(direction, 2), corner(direction, 1)) == (0int, 1int, 1int));
            assert(cross((0int, 0int, -1int), (0int, 1int, 0int)) == (1int, 0int, 0int)) by (
                nonlinear_arith
            );
            assert(cross((0int, 1int, 0int), (0int, 1int, 1int)) == (1int, 0int, 0int)) by (
                nonlinear_arith
            );
        },
        FaceDirection::XBack => {
            assert(between(corner(direction, 0), corner(direction, 2)) == (0int, 0int, 1int));
            assert(between(corner(direction, 0), corner(direction, 1)) == (0int, 1int, 0int));
            assert(between(corner(direction, 2), corner(direction, 3)) == (0int, 1int, 0int));
            assert(between(corner(direction, 2), corner(direction, 1)) == (0int, 1int, -1int));
            assert(cross((0int, 0int, 1int), (0int, 1int, 0int)) == (-1int, 0int, 0int)) by (
                nonlinear_arith
            );
            assert(cross((0int, 1int, 0int), (0int, 1int, -1int)) == (-1int, 0int, 0int)) by (
                nonlinear_arith
            );
        },
    }
    assert(quad_indices(0)[0] == 0 && quad_indices(0)[1] == 2 && quad_indices(0)[2] == 1);
    assert(quad_indices(0)[3] == 2 && quad_indices(0)[4] == 3 && quad_indices(0)[5] == 1);
}

/// One side of one voxel of a chunk.
pub struct FaceSlot {
    pub x: int,
    pub y: int,
    pub z: int,
    pub direction: FaceDirection,
}

impl FaceSlot {
    /// Position of the voxel that this side faces.
    pub open spec fn neighbor(self) -> (int, int, int) {
        translate((self.x, self.y, self.z), self.direction.step())
    }

    pub open spec fn positions(self) -> Seq<(int, int, int)> {
        Seq::new(
            4,
            |i: int| translate(vec3(self.direction.spec_face()[i]), (self.x, self.y, self.z)),
        )
    }

    pub open spec fn normals(self) -> Seq<(int, int, int)> {
        Seq::new(4, |i: int| vec3(self.direction.spec_normals()[i]))
    }

    pub open spec fn uvs(self, config: BlockTextureConfig) -> Seq<(int, int)> {
        Seq::new(4, |i: int| atlas_uv(vec2(self.direction.spec_uvs()[i]), config))
    }
}

/// The `k`-th voxel side in emission order: voxels by `x`, then `y`, then
/// `z`, and the six sides of each voxel in the order of `FaceDirection`.
pub open spec fn face_slot(k: int) -> FaceSlot {
    let voxel = k / (FACES_PER_VOXEL as int);
    FaceSlot {
        x: voxel / (CHUNK_SIZE * CHUNK_SIZE) as int,
        y: (voxel / (CHUNK_SIZE as int)) % (CHUNK_SIZE as int),
        z: voxel % (CHUNK_SIZE as int),
        direction: FaceDirection::spec_nth(k % (FACES_PER_VOXEL as int)),
    }
}

/// Every voxel side of a chunk, in emission order.
pub open spec fn face_slots() -> Seq<FaceSlot> {
    Seq::new(FACE_SLOTS_PER_CHUNK as nat, |k: int| face_slot(k))
}

impl Chunk {
    /// The texture tile of the voxel at `(x, y, z)`.
    pub open spec fn texture_at(&self, x: int, y: int, z: int) -> BlockTextureConfig {
        self.voxel_at(x, y, z).spec_texture_config().unwrap()
    }

    /// Whether a side of a voxel is drawn: the voxel is opaque, and the
    /// neighbor on that side lies outside the chunk or is not opaque.
    pub open spec fn face_visible(&self, slot: FaceSlot) -> bool {
        let (nx, ny, nz) = slot.neighbor();
        &&& in_chunk(slot.x, slot.y, slot.z)
        &&& self.voxel_at(slot.x, slot.y, slot.z).is_opaque()
        &&& (!in_chunk(nx, ny, nz) || !self.voxel_at(nx, ny, nz).is_opaque())
    }

    pub open spec fn visibility(&self) -> spec_fn(FaceSlot) -> bool {
        |slot: FaceSlot| self.face_visible(slot)
    }

    /// The drawn sides among the first `n` voxel sides, in emission order.
    pub open spec fn visible_faces_before(&self, n: int) -> Seq<FaceSlot> {
        face_slots().take(n).filter(self.visibility())
    }

    /// The drawn sides of the chunk's voxels, in emission order.
    pub open spec fn visible_faces(&self) -> Seq<FaceSlot> {
        face_slots().filter(self.visibility())
    }

    /// The mesh that draws the given sides of this chunk's voxels: four
    /// vertices and two triangles for each, in the order given.
    pub open spec fn mesh_of_faces(&self, faces: Seq<FaceSlot>) -> MeshView {
        MeshView {
            positions: Seq::new(4 * faces.len(), |k: int| faces[k / 4].positions()[k % 4]),
            normals: Seq::new(4 * faces.len(), |k: int| faces[k / 4].normals()[k % 4]),
            uvs: Seq::new(
                4 * faces.len(),
                |k: int|
                    faces[k / 4].uvs(
                        self.texture_at(faces[k / 4].x, faces[k / 4].y, faces[k / 4].z),
                    )[k % 4],
            ),
            indices: Seq::new(6 * faces.len(), |k: int| quad_indices(4 * (k / 6))[k % 6]),
        }
    }

    /// The chunk's surface mesh.
    pub open spec fn spec_mesh(&self) -> MeshView {
        self.mesh_of_faces(self.visible_faces())
    }

    /// Whether the side of the voxel at `(x, y, z)` towards `direction` is
    /// open to view: the neighbor on that side lies outside the chunk or is
    /// not opaque.
    fn is_exposed(&self, x: usize, y: usize, z: usize, direction: FaceDirection) -> (exposed: bool)
        requires
            in_chunk(x as int, y as int, z as int),
        ensures
            exposed == ({
                let slot = FaceSlot { x: x as int, y: y as int, z: z as int, direction };
                let (nx, ny, nz) = slot.neighbor();
                !in_chunk(nx, ny, nz) || !self.voxel_at(nx, ny, nz).is_opaque()
            }),
    {
        match direction {
            FaceDirection::ZFront => z + 1 >= CHUNK_SIZE || !self.voxel(x, y, z + 1).is_opaque(),
            FaceDirection::ZBack => z == 0 || !self.voxel(x, y, z - 1).is_opaque(),
            FaceDirection::YFront => y + 1 >= CHUNK_SIZE || !self.voxel(x, y + 1, z).is_opaque(),
            FaceDirection::YBack => y == 0 || !self.voxel(x, y - 1, z).is_opaque(),
            FaceDirection::XFront => x + 1 >= CHUNK_SIZE || !self.voxel(x + 1, y, z).is_opaque(),
            FaceDirection::XBack => x == 0 || !self.voxel(x - 1, y, z).is_opaque(),
        }
    }

    /// Builds the chunk's surface mesh: for every opaque voxel, one quad on
    /// each side whose neighbor is not opaque or lies outside the chunk.
    pub fn get_mesh(&self) -> (mesh: Mesh)
        requires
            !self.spec_is_empty(),
        ensures
            mesh@ == self.spec_mesh(),
    {
        let mut builder = MeshBuilder::new();
        proof {
            lemma_no_faces_before_start(*self);
        }
        let mut x: usize = 0;
        while x < CHUNK_SIZE
            invariant
                x <= CHUNK_SIZE,
                builder@ == self.mesh_of_faces(
                    self.visible_faces_before(6 * voxel_index(x as int, 0, 0)),
                ),
            decreases CHUNK_SIZE - x,
        {
            let mut y: usize = 0;
            while y < CHUNK_SIZE
                invariant
                    x < CHUNK_SIZE,
                    y <= CHUNK_SIZE,
                    builder@ == self.mesh_of_faces(
                        self.visible_faces_before(6 * voxel_index(x as int, y as int, 0)),
                    ),
                decreases CHUNK_SIZE - y,
            {
                let mut z: usize = 0;
                while z < CHUNK_SIZE
                    invariant
                        x < CHUNK_SIZE,
                        y < CHUNK_SIZE,
                        z <= CHUNK_SIZE,
                        builder@ == self.mesh_of_faces(
                            self.visible_faces_before(
                                6 * voxel_index(x as int, y as int, z as int),
                            ),
                        ),
                    decreases CHUNK_SIZE - z,
                {
                    self.add_voxel_faces(&mut builder, x, y, z);
                    z += 1;
                }
                y += 1;
            }
            x += 1;
        }
        proof {
            assert(face_slots().take(6 * voxel_index(CHUNK_SIZE as int, 0, 0)) =~= face_slots());
        }
        builder.to_mesh()
    }

    /// Adds the drawn sides of the voxel at `(x, y, z)` to `builder`, which
    /// holds the drawn sides of all voxels before it.
    fn add_voxel_faces(&self, builder: &mut MeshBuilder, x: usize, y: usize, z: usize)
        requires
            in_chunk(x as int, y as int, z as int),
            old(builder)@ == self.mesh_of_faces(
                self.visible_faces_before(6 * voxel_index(x as int, y as int, z as int)),
            ),
        ensures
            final(builder)@ == self.mesh_of_faces(
                self.visible_faces_before(6 * voxel_index(x as int, y as int, z as int) + 6),
            ),
    {
        let block = self.voxel(x, y, z);
        let ghost base = 6 * voxel_index(x as int, y as int, z as int);
        if !block.is_opaque() {
            proof {
                lemma_no_faces_on_transparent_voxel(*self, x as int, y as int, z as int, 6);
            }
            return ;
        }
        let texture_config = block.get_texture_config();
        let mut d: usize = 0;
        while d < FACES_PER_VOXEL
            invariant
                d <= FACES_PER_VOXEL,
                in_chunk(x as int, y as int, z as int),
                base == 6 * voxel_index(x as int, y as int, z as int),
                self.voxel_at(x as int, y as int, z as int).is_opaque(),
                texture_config == self.texture_at(x as int, y as int, z as int),
                builder@ == self.mesh_of_faces(self.visible_faces_before(base + d)),
            decreases FACES_PER_VOXEL - d,
        {
            let direction = FaceDirection::nth(d);
            let ghost slot = FaceSlot { x: x as int, y: y as int, z: z as int, direction };
            let ghost faces = self.visible_faces_before(base + d);
            proof {
                lemma_face_slot_of_voxel(x as int, y as int, z as int, d as int);
                lemma_visible_faces_step(*self, base + d);
                face_slots().take(base + d).lemma_filter_len(self.visibility());
            }
            if self.is_exposed(x, y, z, direction) {
                assert(builder.vertices.len() == 4 * faces.len()) by {
                    assert(builder@.positions.len() == builder.vertices@.len());
                    assert(self.mesh_of_faces(faces).positions.len() == 4 * faces.len());
                }
                assert forall|i: int, j: int| 0 <= i < 4 && 0 <= j < 3 implies 0
                    <= #[trigger] direction.face()[i][j] <= 1 by {}
                let offset = [x as i32, y as i32, z as i32];
                builder.add_face(
                    direction.face(),
                    direction.normals(),
                    direction.uvs(),
                    offset,
                    texture_config,
                );
                proof {
                    lemma_mesh_of_faces_push(*self, faces, slot);
                    assert(Seq::new(
                        4,
                        |i: int| translate(vec3(direction.face()[i]), vec3(offset)),
                    ) =~= slot.positions());
                    assert(Seq::new(4, |i: int| vec3(direction.normals()[i])) =~= slot.normals());
                    assert(Seq::new(
                        4,
                        |i: int| atlas_uv(vec2(direction.uvs()[i]), texture_config),
                    ) =~= slot.uvs(texture_config));
                }
            }
            d += 1;
        }
    }
}

/// A drawn side belongs to an opaque voxel of the chunk, and the voxel that
/// it faces, where that lies in the chunk too, is not opaque: no face stands
/// between two opaque voxels of one chunk.
pub proof fn lemma_no_face_between_opaque_voxels(chunk: Chunk, i: int)
    requires
        0 <= i < chunk.visible_faces().len(),
    ensures
        ({
            let slot = chunk.visible_faces()[i];
            let (nx, ny, nz) = slot.neighbor();
            &&& in_chunk(slot.x, slot.y, slot.z)
            &&& chunk.voxel_at(slot.x, slot.y, slot.z).is_opaque()
            &&& in_chunk(nx, ny, nz) ==> !chunk.voxel_at(nx, ny, nz).is_opaque()
        }),
{
    face_slots().lemma_filter_pred(chunk.visibility(), i);
}

/// Every side of an opaque voxel that faces a voxel that is not opaque, or
/// the outside of the chunk, is drawn.
pub proof fn lemma_every_exposed_side_is_drawn(chunk: Chunk, slot: FaceSlot, d: int)
    requires
        0 <= d < FACES_PER_VOXEL,
        slot.direction == FaceDirection::spec_nth(d),
        chunk.face_visible(slot),
    ensures
        chunk.visible_faces().contains(slot),
{
    let k = 6 * voxel_index(slot.x, slot.y, slot.z) + d;
    lemma_face_slot_of_voxel(slot.x, slot.y, slot.z, d);
    face_slots().lemma_filter_contains(chunk.visibility(), k);
}

/// The first `d` sides of a voxel that is not opaque add no face.
proof fn lemma_no_faces_on_transparent_voxel(chunk: Chunk, x: int, y: int, z: int, d: int)
    requires
        in_chunk(x, y, z),
        !chunk.voxel_at(x, y, z).is_opaque(),
        0 <= d <= 6,
    ensures
        chunk.visible_faces_before(6 * voxel_index(x, y, z) + d) == chunk.visible_faces_before(
            6 * voxel_index(x, y, z),
        ),
    decreases d,
{
    if d > 0 {
        lemma_no_faces_on_transparent_voxel(chunk, x, y, z, d - 1);
        lemma_face_slot_of_voxel(x, y, z, d - 1);
        lemma_visible_faces_step(chunk, 6 * voxel_index(x, y, z) + d - 1);
    }
}

/// No side is drawn before the first.
proof fn lemma_no_faces_before_start(chunk: Chunk)
    ensures
        chunk.mesh_of_faces(chunk.visible_faces_before(0)) == MeshView::empty(),
{
    reveal(Seq::filter);
    assert(face_slots().take(0) =~= Seq::<FaceSlot>::empty());
    assert(chunk.mesh_of_faces(Seq::<FaceSlot>::empty()) =~= MeshView::empty());
}

/// The sides of the voxel at `(x, y, z)` follow those of all voxels before
/// it, in the order of `FaceDirection`.
proof fn lemma_face_slot_of_voxel(x: int, y: int, z: int, d: int)
    requires
        in_chunk(x, y, z),
        0 <= d < 6,
    ensures
        0 <= 6 * voxel_index(x, y, z) + d < FACE_SLOTS_PER_CHUNK,
        face_slot(6 * voxel_index(x, y, z) + d) == (FaceSlot {
            x,
            y,
            z,
            direction: FaceDirection::spec_nth(d),
        }),
{
    let voxel = voxel_index(x, y, z);
    let k = 6 * voxel + d;
    assert(voxel == x * 256 + y * 16 + z);
    lemma_fundamental_div_mod_converse(k, 6, voxel, d);
    lemma_fundamental_div_mod_converse(voxel, 256, x, y * 16 + z);
    lemma_fundamental_div_mod_converse(voxel, 16, x * 16 + y, z);
    lemma_fundamental_div_mod_converse(x * 16 + y, 16, x, y);
}

/// Going one voxel side further adds that side if it is drawn.
proof fn lemma_visible_faces_step(chunk: Chunk, k: int)
    requires
        0 <= k < FACE_SLOTS_PER_CHUNK,
    ensures
        chunk.visible_faces_before(k + 1) == if chunk.face_visible(face_slot(k)) {
            chunk.visible_faces_before(k).push(face_slot(k))
        } else {
            chunk.visible_faces_before(k)
        },
{
    reveal(Seq::filter);
    assert(face_slots().take(k + 1).drop_last() =~= face_slots().take(k));
}

/// Drawing one more side appends its quad to the mesh.
proof fn lemma_mesh_of_faces_push(chunk: Chunk, faces: Seq<FaceSlot>, slot: FaceSlot)
    ensures
        chunk.mesh_of_faces(faces.push(slot)) == chunk.mesh_of_faces(faces).with_quad(
            slot.positions(),
            slot.normals(),
            slot.uvs(chunk.texture_at(slot.x, slot.y, slot.z)),
        ),
{
    let grown = chunk.mesh_of_faces(faces.push(slot));
    let expected = chunk.mesh_of_faces(faces).with_quad(
        slot.positions(),
        slot.normals(),
        slot.uvs(chunk.texture_at(slot.x, slot.y, slot.z)),
    );
    assert(grown.positions =~= expected.positions);
    assert(grown.normals =~= expected.normals);
    assert(grown.uvs =~= expected.uvs);
    assert(grown.indices =~= expected.indices);
}

/// The six sides of the voxel at `(x, y, z)`, in emission order.
pub open spec fn voxel_faces(x: int, y: int, z: int) -> Seq<FaceSlot> {
    Seq::new(6, |d: int| FaceSlot { x, y, z, direction: FaceDirection::spec_nth(d) })
}

/// That the voxel at `(x, y, z)` is the only opaque voxel of a chunk.
pub open spec fn only_opaque_voxel(chunk: Chunk, x: int, y: int, z: int) -> bool {
    &&& in_chunk(x, y, z)
    &&& forall|i: int, j: int, k: int|
        in_chunk(i, j, k) ==> (#[trigger] chunk.voxel_at(i, j, k)).is_opaque() == (i == x && j == y
            && k == z)
}

/// A chunk with a single opaque voxel draws the six sides of that voxel and
/// nothing else: 24 vertices, normals and texture coordinates, 36 indices.
pub proof fn lemma_single_voxel_mesh(chunk: Chunk, x: int, y: int, z: int)
    requires
        only_opaque_voxel(chunk, x, y, z),
    ensures
        chunk.visible_faces() == voxel_faces(x, y, z),
        chunk.spec_mesh().positions.len() == 24,
        chunk.spec_mesh().normals.len() == 24,
        chunk.spec_mesh().uvs.len() == 24,
        chunk.spec_mesh().indices.len() == 36,
{
    lemma_single_voxel_faces_before(chunk, x, y, z, FACE_SLOTS_PER_CHUNK as int);
    assert(face_slots().take(FACE_SLOTS_PER_CHUNK as int) =~= face_slots());
    assert(voxel_faces(x, y, z).take(6) =~= voxel_faces(x, y, z));
}

/// The sides that a chunk with a single opaque voxel draws among the first
/// `k` voxel sides: those of that voxel's sides that are among them.
proof fn lemma_single_voxel_faces_before(chunk: Chunk, x: int, y: int, z: int, k: int)
    requires
        only_opaque_voxel(chunk, x, y, z),
        0 <= k <= FACE_SLOTS_PER_CHUNK,
    ensures
        chunk.visible_faces_before(k) == voxel_faces(x, y, z).take(
            if k <= 6 * voxel_index(x, y, z) {
                0
            } else if k >= 6 * voxel_index(x, y, z) + 6 {
                6
            } else {
                k - 6 * voxel_index(x, y, z)
            },
        ),
    decreases k,
{
    let base = 6 * voxel_index(x, y, z);
    let faces = voxel_faces(x, y, z);
    if k == 0 {
        reveal(Seq::filter);
        assert(face_slots().take(0) =~= Seq::<FaceSlot>::empty());
        assert(faces.take(0) =~= Seq::<FaceSlot>::empty());
    } else {
        lemma_single_voxel_faces_before(chunk, x, y, z, k - 1);
        lemma_visible_faces_step(chunk, k - 1);
        let slot = face_slot(k - 1);
        lemma_voxel_of_face_slot(k - 1);
        let d = (k - 1) % 6;
        if base <= k - 1 < base + 6 {
            lemma_face_slot_of_voxel(x, y, z, k - 1 - base);
            assert(slot == faces[k - 1 - base]);
            let (nx, ny, nz) = slot.neighbor();
            assert(!(nx == x && ny == y && nz == z));
            assert(chunk.face_visible(slot));
            assert(faces.take(k - base) =~= faces.take(k - 1 - base).push(slot));
        } else {
            assert(!(slot.x == x && slot.y == y && slot.z == z)) by {
                if slot.x == x && slot.y == y && slot.z == z {
                    lemma_face_slot_of_voxel(x, y, z, d);
                }
            }
            assert(!chunk.face_visible(slot));
        }
    }
}

/// Every voxel side belongs to a voxel of the chunk, and stands in emission
/// order where the sides of that voxel stand.
proof fn lemma_voxel_of_face_slot(k: int)
    requires
        0 <= k < FACE_SLOTS_PER_CHUNK,
    ensures
        in_chunk(face_slot(k).x, face_slot(k).y, face_slot(k).z),
        6 * voxel_index(face_slot(k).x, face_slot(k).y, face_slot(k).z) + k % 6 == k,
        0 <= k % 6 < 6,
{
    let voxel = k / 6;
    assert(k == 6 * voxel + k % 6);
    assert(voxel == 16 * (voxel / 16) + voxel % 16);
    assert(voxel / 16 == 16 * ((voxel / 16) / 16) + (voxel / 16) % 16);
    assert((voxel / 16) / 16 == voxel / 256);
}

} // verus!
