use bevy_voxels::chunk::{BoolVoxel, Chunk, ChunkError, VoxelVisibility};
use bevy_voxels::face::{Face, FaceDir};
use bevy_voxels::generate::{chunk_from_draws, generate_chunk};
use bevy_voxels::greedy::{greedy_quads, mesh_greedy};
use bevy_voxels::mesh::{mesh_from_quads, GreedyQuad, MeshBuffer};
use bevy_voxels::mesher::{mesh_chunk, Strategy};
use bevy_voxels::unit_faces::{culled_quads, mesh_culled, mesh_naive, naive_quads};

const STRATEGIES: [Strategy; 3] = [Strategy::Naive, Strategy::Culled, Strategy::Greedy];

fn chunk_with(dim: usize, present: &[(usize, usize, usize)]) -> Chunk {
    let mut voxels = vec![BoolVoxel(false); dim * dim * dim];
    for &(x, y, z) in present {
        voxels[z * dim * dim + y * dim + x] = BoolVoxel(true);
    }
    match Chunk::new(dim, voxels) {
        Ok(c) => c,
        Err(_) => panic!("chunk of the right size refused"),
    }
}

fn slab() -> Chunk {
    chunk_with(4, &[(1, 1, 1), (2, 1, 1), (1, 1, 2), (2, 1, 2)])
}

fn area(quads: &[GreedyQuad]) -> u32 {
    quads.iter().map(|q| q.width * q.height).sum()
}

#[test]
fn linearize_delinearize_round_trip() {
    for dim in 1..6usize {
        let c = Chunk::empty(dim);
        for i in 0..dim * dim * dim {
            let (x, y, z) = c.delinearize(i);
            assert_eq!(c.linearize(x, y, z), i);
        }
        for z in 0..dim {
            for y in 0..dim {
                for x in 0..dim {
                    assert_eq!(c.delinearize(c.linearize(x, y, z)), (x, y, z));
                }
            }
        }
    }
}

#[test]
fn linearize_formula() {
    let c = Chunk::empty(18);
    assert_eq!(c.linearize(3, 2, 1), 18 * 18 + 2 * 18 + 3);
    assert_eq!(c.delinearize(18 * 18 * 5 + 18 * 7 + 11), (11, 7, 5));
}

#[test]
fn construction_rejects_wrong_size() {
    assert!(matches!(
        Chunk::new(3, vec![BoolVoxel(false); 26]),
        Err(ChunkError::DimensionMismatch)
    ));
    assert!(matches!(
        Chunk::new(3, vec![BoolVoxel(false); 28]),
        Err(ChunkError::DimensionMismatch)
    ));
    assert!(Chunk::new(3, vec![BoolVoxel(false); 27]).is_ok());
}

#[test]
fn outside_reads_empty() {
    let c = chunk_with(2, &[(0, 0, 0), (1, 1, 1)]);
    assert!(c.occupied(0, 0, 0));
    assert!(c.occupied(1, 1, 1));
    assert!(!c.occupied(1, 0, 0));
    assert!(!c.occupied(-1, 0, 0));
    assert!(!c.occupied(0, 2, 0));
    assert!(!c.occupied(0, 0, -5));
}

#[test]
fn voxel_visibility() {
    assert_eq!(BoolVoxel(true).get_visibility(), VoxelVisibility::Opaque);
    assert_eq!(BoolVoxel(false).get_visibility(), VoxelVisibility::Empty);
    assert!(BoolVoxel(true).merge_value());
    assert!(!BoolVoxel(false).merge_value());
}

#[test]
fn single_voxel_all_strategies() {
    let c = chunk_with(4, &[(1, 1, 1)]);
    for s in STRATEGIES {
        let m = mesh_chunk(&c, s);
        assert_eq!(m.positions.len(), 24);
        assert_eq!(m.normals.len(), 24);
        assert_eq!(m.tex_coords.len(), 24);
        assert_eq!(m.indices.len(), 36);
        let mut distinct: Vec<(i32, i32, i32)> = Vec::new();
        for q in 0..6 {
            let n = m.normals[4 * q];
            for j in 1..4 {
                assert_eq!(m.normals[4 * q + j], n);
            }
            assert_eq!(n.0.abs() + n.1.abs() + n.2.abs(), 1);
            assert!(!distinct.contains(&n));
            distinct.push(n);
        }
        assert_eq!(distinct.len(), 6);
    }
}

#[test]
fn single_voxel_top_face_geometry() {
    let c = chunk_with(4, &[(1, 1, 1)]);
    let m = mesh_naive(&c);
    assert_eq!(&m.positions[0..4], &[(1, 2, 1), (1, 2, 2), (2, 2, 2), (2, 2, 1)]);
    assert_eq!(&m.normals[0..4], &[(0, 1, 0); 4]);
    assert_eq!(&m.tex_coords[0..4], &[(0, 0); 4]);
    assert_eq!(&m.indices[0..12], &[0, 1, 2, 0, 2, 3, 4, 5, 6, 4, 6, 7]);
    assert_eq!(&m.positions[4..8], &[(1, 1, 1), (2, 1, 1), (2, 1, 2), (1, 1, 2)]);
    assert_eq!(m.normals[4], (0, -1, 0));
}

#[test]
fn two_adjacent_voxels() {
    let c = chunk_with(4, &[(1, 1, 1), (2, 1, 1)]);
    let culled = culled_quads(&c);
    assert_eq!(culled.len(), 10);
    assert!(!culled.iter().any(|q| q.face == FaceDir::East && q.layer == 1));
    assert!(!culled.iter().any(|q| q.face == FaceDir::West && q.layer == 2));
    let m = mesh_culled(&c);
    assert_eq!(m.positions.len(), 40);
    assert_eq!(m.indices.len(), 60);
    assert_eq!(naive_quads(&c).len(), 12);
    let n = mesh_naive(&c);
    assert_eq!(n.positions.len(), 48);
    assert_eq!(n.indices.len(), 72);
    let apart = chunk_with(4, &[(0, 0, 0), (3, 3, 3)]);
    assert_eq!(naive_quads(&apart).len(), 12);
    assert_eq!(culled_quads(&apart).len(), 12);
}

#[test]
fn slab_top_merges_into_one_quad() {
    let c = slab();
    let quads = greedy_quads(&c);
    let top: Vec<&GreedyQuad> = quads.iter().filter(|q| q.face == FaceDir::Up).collect();
    assert_eq!(top.len(), 1);
    assert_eq!((top[0].layer, top[0].u, top[0].v), (1, 1, 1));
    assert_eq!((top[0].width, top[0].height), (2, 2));
    assert_eq!(quads.len(), 6);
    let m = mesh_greedy(&c);
    assert_eq!(m.positions.len(), 24);
    assert_eq!(m.indices.len(), 36);
    assert_eq!(&m.positions[0..4], &[(1, 2, 1), (1, 2, 3), (3, 2, 3), (3, 2, 1)]);
    assert_eq!(&m.tex_coords[0..4], &[(0, 0), (0, 2), (2, 2), (2, 0)]);
    assert_eq!(&m.indices[0..6], &[0, 1, 2, 0, 2, 3]);
    assert_eq!(culled_quads(&c).len(), 16);
}

#[test]
fn greedy_area_matches_culled_count() {
    let cases = vec![
        slab(),
        chunk_with(4, &[(1, 1, 1)]),
        chunk_with(4, &[(1, 1, 1), (2, 1, 1)]),
        chunk_with(3, &[(0, 0, 0), (1, 0, 0), (2, 0, 0), (0, 1, 0), (0, 2, 2), (1, 1, 1)]),
        generate_chunk(8),
        generate_chunk(18),
    ];
    for c in &cases {
        let greedy = greedy_quads(c);
        let culled = culled_quads(c);
        assert_eq!(area(&greedy) as usize, culled.len());
        assert!(greedy.len() <= culled.len());
        assert!(mesh_greedy(c).positions.len() <= mesh_culled(c).positions.len());
    }
}

#[test]
fn full_chunk_greedy_is_six_quads() {
    let dim = 3;
    let c = match Chunk::new(dim, vec![BoolVoxel(true); 27]) {
        Ok(c) => c,
        Err(_) => panic!("chunk of the right size refused"),
    };
    let quads = greedy_quads(&c);
    assert_eq!(quads.len(), 6);
    assert!(quads.iter().all(|q| q.width == 3 && q.height == 3));
    assert_eq!(culled_quads(&c).len(), 54);
    assert_eq!(naive_quads(&c).len(), 162);
}

#[test]
fn empty_chunk_empty_mesh() {
    for dim in [1usize, 4, 18] {
        let c = Chunk::empty(dim);
        for s in STRATEGIES {
            let m = mesh_chunk(&c, s);
            assert_eq!(m.positions.len(), 0);
            assert_eq!(m.normals.len(), 0);
            assert_eq!(m.tex_coords.len(), 0);
            assert_eq!(m.indices.len(), 0);
        }
    }
}

#[test]
fn meshing_twice_is_identical() {
    let c = generate_chunk(10);
    for s in STRATEGIES {
        let a = mesh_chunk(&c, s);
        let b = mesh_chunk(&c, s);
        assert_eq!(a.positions, b.positions);
        assert_eq!(a.normals, b.normals);
        assert_eq!(a.tex_coords, b.tex_coords);
        assert_eq!(a.indices, b.indices);
    }
}

#[test]
fn indices_name_existing_vertices() {
    let c = generate_chunk(8);
    for s in STRATEGIES {
        let m = mesh_chunk(&c, s);
        assert_eq!(m.indices.len() % 3, 0);
        assert!(m.indices.iter().all(|&i| (i as usize) < m.positions.len()));
    }
}

#[test]
fn generated_chunk_border_is_empty() {
    let dim = 18usize;
    let c = generate_chunk(dim);
    assert_eq!(c.dim(), dim);
    assert_eq!(c.voxels().len(), dim * dim * dim);
    for i in 0..dim as i64 {
        for j in 0..dim as i64 {
            let e = dim as i64 - 1;
            assert!(!c.occupied(0, i, j) && !c.occupied(e, i, j));
            assert!(!c.occupied(i, 0, j) && !c.occupied(i, e, j));
            assert!(!c.occupied(i, j, 0) && !c.occupied(i, j, e));
        }
    }
}

#[test]
fn draws_fill_only_the_interior() {
    let dim = 3usize;
    let c = chunk_from_draws(dim, &vec![true; 27]);
    let present: Vec<usize> =
        c.voxels().iter().enumerate().filter(|(_, v)| v.0).map(|(i, _)| i).collect();
    assert_eq!(present, vec![13]);
    let none = chunk_from_draws(4, &vec![false; 64]);
    assert!(none.voxels().iter().all(|v| !v.0));
}

#[test]
fn face_table_entries() {
    let up = Face::of(FaceDir::Up);
    assert_eq!(up.normal, (0, 1, 0));
    assert_eq!(up.vertices, [(0, 1, 0), (0, 1, 1), (1, 1, 1), (1, 1, 0)]);
    let west = Face::of(FaceDir::West);
    assert_eq!(west.normal, (-1, 0, 0));
}

#[test]
fn quads_to_mesh() {
    let q = GreedyQuad { face: FaceDir::East, layer: 2, u: 1, v: 0, width: 3, height: 2, value: true };
    let m = mesh_from_quads(&vec![q, q], true);
    assert_eq!(m.positions.len(), 8);
    assert_eq!(&m.positions[0..4], &[(3, 1, 0), (3, 4, 0), (3, 4, 2), (3, 1, 2)]);
    assert_eq!(&m.tex_coords[0..4], &[(0, 0), (3, 0), (3, 2), (0, 2)]);
    assert_eq!(&m.indices[6..12], &[4, 5, 6, 4, 6, 7]);
    let mut b = MeshBuffer::new();
    b.push_quad(&q, false);
    assert_eq!(b.tex_coords, vec![(0, 0); 4]);
    assert_eq!(b.normals, vec![(1, 0, 0); 4]);
}
