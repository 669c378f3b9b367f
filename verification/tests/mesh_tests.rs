use voxel_terrain::block::{Block, BlockTextureConfig};
use voxel_terrain::chunk::{Chunk, CHUNK_SIZE};
use voxel_terrain::mesh::{FaceDirection, Mesh, MeshBuilder};

fn single_stone(x: i64, y: i64, z: i64) -> Block {
    if x == 5 && y == 6 && z == 7 {
        Block::Stone
    } else {
        Block::Air
    }
}

fn corner_water(x: i64, y: i64, z: i64) -> Block {
    if x == 0 && y == 15 && z == 15 {
        Block::Water
    } else {
        Block::Air
    }
}

fn two_dirt_side_by_side(x: i64, y: i64, z: i64) -> Block {
    if (x == 3 || x == 4) && y == 3 && z == 3 {
        Block::Dirt
    } else {
        Block::Air
    }
}

fn grass_below_zero(_x: i64, y: i64, _z: i64) -> Block {
    if y < 0 {
        Block::Grass
    } else {
        Block::Air
    }
}

fn generated(pos: (i32, i32, i32), sampler: &impl Fn(i64, i64, i64) -> Block) -> Chunk {
    let mut chunk = Chunk::empty(pos);
    chunk.generate(sampler);
    chunk
}

/// The faces of a mesh as (normal, four positions, four uvs).
fn faces(mesh: &Mesh) -> Vec<([i32; 3], [[i32; 3]; 4], [[u32; 2]; 4])> {
    assert_eq!(mesh.positions.len() % 4, 0);
    (0..mesh.positions.len() / 4)
        .map(|f| {
            let at = 4 * f;
            (
                mesh.normals[at],
                [
                    mesh.positions[at],
                    mesh.positions[at + 1],
                    mesh.positions[at + 2],
                    mesh.positions[at + 3],
                ],
                [mesh.uvs[at], mesh.uvs[at + 1], mesh.uvs[at + 2], mesh.uvs[at + 3]],
            )
        })
        .collect()
}

#[test]
fn new_builder_is_empty() {
    let builder = MeshBuilder::new();
    assert!(builder.vertices.is_empty());
    assert!(builder.normals.is_empty());
    assert!(builder.uvs.is_empty());
    assert!(builder.indices.is_empty());
}

#[test]
fn add_face_appends_four_vertices_and_six_indices() {
    let mut builder = MeshBuilder::new();
    builder.add_face(
        MeshBuilder::FACE_X_FRONT,
        MeshBuilder::NORMAL_X_FRONT,
        MeshBuilder::UV_X_FRONT,
        [2, 3, 4],
        BlockTextureConfig::new(0, 16),
    );
    assert_eq!(builder.vertices, vec![[3, 3, 5], [3, 4, 5], [3, 3, 4], [3, 4, 4]]);
    assert_eq!(builder.normals, vec![[1, 0, 0]; 4]);
    assert_eq!(builder.uvs, vec![[16, 16], [16, 32], [0, 16], [0, 32]]);
    assert_eq!(builder.indices, vec![0, 2, 1, 2, 3, 1]);

    builder.add_face(
        MeshBuilder::FACE_Y_BACK,
        MeshBuilder::NORMAL_Y_BACK,
        MeshBuilder::UV_Y_BACK,
        [0, 0, 0],
        BlockTextureConfig::new(16, 0),
    );
    assert_eq!(builder.vertices.len(), 8);
    assert_eq!(builder.normals.len(), 8);
    assert_eq!(builder.uvs.len(), 8);
    assert_eq!(&builder.vertices[4..], &[[0, 0, 0], [0, 0, 1], [1, 0, 0], [1, 0, 1]]);
    assert_eq!(&builder.normals[4..], &[[0, -1, 0]; 4]);
    assert_eq!(&builder.uvs[4..], &[[16, 0], [16, 16], [32, 0], [32, 16]]);
    assert_eq!(builder.indices, vec![0, 2, 1, 2, 3, 1, 4, 6, 5, 6, 7, 5]);
}

#[test]
fn to_mesh_hands_the_buffers_over() {
    let mut builder = MeshBuilder::new();
    builder.add_face(
        MeshBuilder::FACE_Z_BACK,
        MeshBuilder::NORMAL_Z_BACK,
        MeshBuilder::UV_Z_BACK,
        [1, 1, 1],
        BlockTextureConfig::new(0, 0),
    );
    let mesh = builder.to_mesh();
    assert_eq!(mesh.positions, vec![[2, 1, 1], [2, 2, 1], [1, 1, 1], [1, 2, 1]]);
    assert_eq!(mesh.normals, vec![[0, 0, -1]; 4]);
    assert_eq!(mesh.uvs, vec![[16, 0], [16, 16], [0, 0], [0, 16]]);
    assert_eq!(mesh.indices, vec![0, 2, 1, 2, 3, 1]);
}

#[test]
fn directions_come_in_emission_order_with_their_tables() {
    let order = [
        FaceDirection::ZFront,
        FaceDirection::ZBack,
        FaceDirection::YFront,
        FaceDirection::YBack,
        FaceDirection::XFront,
        FaceDirection::XBack,
    ];
    for (d, direction) in order.iter().enumerate() {
        assert_eq!(FaceDirection::nth(d), *direction);
    }
    assert_eq!(FaceDirection::ZFront.face(), MeshBuilder::FACE_Z_FRONT);
    assert_eq!(FaceDirection::YBack.face(), MeshBuilder::FACE_Y_BACK);
    assert_eq!(FaceDirection::XBack.normals(), [[-1, 0, 0]; 4]);
    assert_eq!(FaceDirection::YFront.normals(), [[0, 1, 0]; 4]);
    assert_eq!(FaceDirection::ZBack.uvs(), [[1, 0], [1, 1], [0, 0], [0, 1]]);
    assert_eq!(FaceDirection::XFront.uvs(), MeshBuilder::UV_X_FRONT);
}

#[test]
fn single_interior_voxel_has_six_faces() {
    let chunk = generated((0, 0, 0), &single_stone);
    assert!(!chunk.is_empty());
    let mesh = chunk.get_mesh();
    assert_eq!(mesh.positions.len(), 24);
    assert_eq!(mesh.normals.len(), 24);
    assert_eq!(mesh.uvs.len(), 24);
    assert_eq!(mesh.indices.len(), 36);
}

#[test]
fn single_voxel_mesh_is_exact() {
    let mesh = generated((0, 0, 0), &single_stone).get_mesh();
    let expected_positions: Vec<[i32; 3]> = vec![
        // +z
        [5, 6, 8], [5, 7, 8], [6, 6, 8], [6, 7, 8],
        // -z
        [6, 6, 7], [6, 7, 7], [5, 6, 7], [5, 7, 7],
        // +y
        [5, 7, 8], [5, 7, 7], [6, 7, 8], [6, 7, 7],
        // -y
        [5, 6, 7], [5, 6, 8], [6, 6, 7], [6, 6, 8],
        // +x
        [6, 6, 8], [6, 7, 8], [6, 6, 7], [6, 7, 7],
        // -x
        [5, 6, 7], [5, 7, 7], [5, 6, 8], [5, 7, 8],
    ];
    assert_eq!(mesh.positions, expected_positions);
    let expected_normals: Vec<[i32; 3]> = [
        [0, 0, 1], [0, 0, -1], [0, 1, 0], [0, -1, 0], [1, 0, 0], [-1, 0, 0],
    ]
    .iter()
    .flat_map(|normal| [*normal; 4])
    .collect();
    assert_eq!(mesh.normals, expected_normals);
    let expected_uvs: Vec<[u32; 2]> = vec![
        [16, 0], [16, 16], [32, 0], [32, 16],
        [32, 0], [32, 16], [16, 0], [16, 16],
        [16, 16], [16, 0], [32, 16], [32, 0],
        [16, 0], [16, 16], [32, 0], [32, 16],
        [32, 0], [32, 16], [16, 0], [16, 16],
        [16, 0], [16, 16], [32, 0], [32, 16],
    ];
    assert_eq!(mesh.uvs, expected_uvs);
    let expected_indices: Vec<u32> = (0..6u32)
        .flat_map(|f| [4 * f, 4 * f + 2, 4 * f + 1, 4 * f + 2, 4 * f + 3, 4 * f + 1])
        .collect();
    assert_eq!(mesh.indices, expected_indices);
}

#[test]
fn voxel_in_a_corner_still_has_six_faces() {
    let mesh = generated((0, 0, 0), &corner_water).get_mesh();
    assert_eq!(mesh.positions.len(), 24);
    assert_eq!(mesh.indices.len(), 36);
    assert_eq!(mesh.uvs[0], [16, 16]);
    assert_eq!(mesh.uvs[3], [32, 32]);
}

#[test]
fn no_face_between_two_opaque_neighbors() {
    let mesh = generated((0, 0, 0), &two_dirt_side_by_side).get_mesh();
    let faces = faces(&mesh);
    assert_eq!(faces.len(), 10);
    assert_eq!(mesh.indices.len(), 60);
    // The shared side is the plane x = 4 between the voxels at x = 3 and x = 4.
    for (normal, positions, _) in &faces {
        let on_shared_plane = positions.iter().all(|p| p[0] == 4);
        assert!(!(on_shared_plane && normal[0] != 0));
    }
    // The voxel at x = 3 comes first and lacks its +x face; the one at x = 4 lacks -x.
    let normals: Vec<[i32; 3]> = faces.iter().map(|face| face.0).collect();
    assert_eq!(
        normals,
        vec![
            [0, 0, 1], [0, 0, -1], [0, 1, 0], [0, -1, 0], [-1, 0, 0],
            [0, 0, 1], [0, 0, -1], [0, 1, 0], [0, -1, 0], [1, 0, 0],
        ]
    );
}

#[test]
fn indices_point_at_the_vertices_of_their_own_face() {
    let mesh = generated((0, -1, 0), &grass_below_zero).get_mesh();
    assert_eq!(mesh.indices.len() % 6, 0);
    assert_eq!(mesh.indices.len() / 6, mesh.positions.len() / 4);
    for (f, triangles) in mesh.indices.chunks(6).enumerate() {
        let start = 4 * f as u32;
        assert_eq!(triangles, &[start, start + 2, start + 1, start + 2, start + 3, start + 1]);
    }
}

#[test]
fn full_chunk_shows_only_its_boundary() {
    let mesh = generated((0, -1, 0), &grass_below_zero).get_mesh();
    let faces = faces(&mesh);
    assert_eq!(faces.len(), 6 * CHUNK_SIZE * CHUNK_SIZE);
    for (normal, positions, uvs) in &faces {
        let axis = normal.iter().position(|n| *n != 0).unwrap();
        let plane = if normal[axis] > 0 { CHUNK_SIZE as i32 } else { 0 };
        assert!(positions.iter().all(|p| p[axis] == plane));
        assert!(uvs.iter().all(|uv| (uv[0] == 0 || uv[0] == 16) && (uv[1] == 0 || uv[1] == 16)));
    }
}

#[test]
fn boundary_layer_below_ground_has_every_top_face() {
    let above = generated((0, 0, 0), &grass_below_zero);
    assert!(above.is_empty());
    let below = generated((0, -1, 0), &grass_below_zero);
    assert!(!below.is_empty());
    let mesh = below.get_mesh();
    let faces = faces(&mesh);
    for x in 0..CHUNK_SIZE as i32 {
        for z in 0..CHUNK_SIZE as i32 {
            let top = [[x, 16, z + 1], [x, 16, z], [x + 1, 16, z + 1], [x + 1, 16, z]];
            let found = faces
                .iter()
                .filter(|(normal, positions, _)| *normal == [0, 1, 0] && *positions == top)
                .count();
            assert_eq!(found, 1);
        }
    }
}
