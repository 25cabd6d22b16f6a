//! Tests for the tree generator: deterministic regeneration, the growth
//! state machine, bridge and sphere topology, and the structure wrapper.

use orchard::fx::SCALE;
use orchard::mesh::{Color, Mesh, Vertex};
use rand::rngs::StdRng;
use rand::SeedableRng;
use orchard::structure::Structure;
use orchard::tree::{
    bridge_loops, sphere, Tree, TreeStage, GROWN_DRAWS, GROWN_INDICES, GROWN_VERTS,
    SAPLING_DRAWS, SAPLING_INDICES, SAPLING_VERTS,
};
use orchard::vec3::{Vec2Fx, Vec3Fx};

fn bark() -> Color {
    Color { r: 180, g: 105, b: 43 }
}

fn leaf() -> Color {
    Color { r: 76, g: 193, b: 59 }
}

fn test_tree() -> Tree {
    Tree::default_with(4 * SCALE, 52429, 8 * SCALE, bark(), leaf())
}

fn fixed_draws(n: usize) -> Vec<i64> {
    // Alternating yaw offsets and pitch offsets, within the draw bound.
    (0..n)
        .map(|k| if k % 2 == 0 { (k as i64 * 977) % 10430 - 5000 } else { 1043 + (k as i64 * 631) % 3000 })
        .collect()
}

#[test]
fn sapling_counts() {
    let mut t = test_tree();
    t.generate_mesh_sapling_from(&fixed_draws(SAPLING_DRAWS));
    assert_eq!(t.mesh.vertices.len(), SAPLING_VERTS);
    assert_eq!(t.mesh.indices.len(), SAPLING_INDICES);
    assert_eq!(t.mesh.indices.len() % 3, 0);
    for &ix in &t.mesh.indices {
        assert!((ix as usize) < t.mesh.vertices.len());
    }
}

#[test]
fn grown_counts() {
    let mut t = test_tree();
    t.generate_mesh_grown_from(&fixed_draws(GROWN_DRAWS));
    assert_eq!(t.mesh.vertices.len(), GROWN_VERTS);
    assert_eq!(t.mesh.indices.len(), GROWN_INDICES);
    for &ix in &t.mesh.indices {
        assert!((ix as usize) < t.mesh.vertices.len());
    }
}

#[test]
fn grown_strictly_larger_than_sapling() {
    assert!(GROWN_INDICES > SAPLING_INDICES);
    assert!(GROWN_VERTS > SAPLING_VERTS);
}

#[test]
fn sapling_generation_idempotent_with_fixed_draws() {
    // Identical parameters and identical draws give bit-identical
    // vertex and index arrays.
    let draws = fixed_draws(SAPLING_DRAWS);
    let mut a = test_tree();
    let mut b = test_tree();
    a.generate_mesh_sapling_from(&draws);
    b.generate_mesh_sapling_from(&draws);
    assert_eq!(a.mesh.vertices.len(), b.mesh.vertices.len());
    for i in 0..a.mesh.vertices.len() {
        assert_eq!(a.mesh.vertices[i], b.mesh.vertices[i], "vertex {}", i);
    }
    assert_eq!(a.mesh.indices, b.mesh.indices);
}

#[test]
fn sapling_generation_idempotent_with_fixed_seed() {
    // A fixed random seed reproduces the draws, so two full generations
    // agree bit for bit.
    let mut r1 = StdRng::seed_from_u64(1234);
    let mut r2 = StdRng::seed_from_u64(1234);
    let mut a = test_tree();
    let mut b = test_tree();
    a.generate_mesh_sapling(&mut r1);
    b.generate_mesh_sapling(&mut r2);
    assert_eq!(a.mesh.vertices.len(), b.mesh.vertices.len());
    for i in 0..a.mesh.vertices.len() {
        assert_eq!(a.mesh.vertices[i], b.mesh.vertices[i], "vertex {}", i);
    }
    assert_eq!(a.mesh.indices, b.mesh.indices);
}

#[test]
fn different_seeds_give_different_geometry() {
    // The draws really reach the geometry: two seeds give two trees.
    let mut r1 = StdRng::seed_from_u64(1);
    let mut r2 = StdRng::seed_from_u64(2);
    let mut a = test_tree();
    let mut b = test_tree();
    a.generate_mesh_sapling(&mut r1);
    b.generate_mesh_sapling(&mut r2);
    assert_eq!(a.mesh.indices, b.mesh.indices);
    assert_ne!(a.mesh.vertices, b.mesh.vertices);
}

#[test]
fn topology_independent_of_draws() {
    // The index buffer is fixed by the stage: different random draws give
    // different branch angles but bit-identical triangle topology.
    let mut a = test_tree();
    let mut b = test_tree();
    a.generate_mesh_sapling_from(&fixed_draws(SAPLING_DRAWS));
    b.generate_mesh_sapling_from(&vec![0i64; SAPLING_DRAWS]);
    assert_eq!(a.mesh.indices, b.mesh.indices);
    assert_ne!(a.mesh.vertices, b.mesh.vertices);
}

#[test]
fn regeneration_replaces_prior_geometry() {
    // Regeneration clears first: two consecutive generations leave
    // exactly one mesh's worth of geometry, not two.
    let draws = fixed_draws(SAPLING_DRAWS);
    let mut t = test_tree();
    t.generate_mesh_sapling_from(&draws);
    t.generate_mesh_sapling_from(&draws);
    assert_eq!(t.mesh.vertices.len(), SAPLING_VERTS);
    assert_eq!(t.mesh.indices.len(), SAPLING_INDICES);
}

#[test]
fn stage_transition_happens_exactly_once() {
    let mut rng = StdRng::seed_from_u64(7);
    let mut t = test_tree();
    t.generate_mesh_sapling(&mut rng);
    t.stage = TreeStage::Sapling(65000);
    // 45000 raw seconds of growth advance progress by 1000 units, past one.
    t.update(45000, &mut rng);
    assert_eq!(t.stage, TreeStage::Grown);
    assert_eq!(t.mesh.vertices.len(), GROWN_VERTS);
    assert_eq!(t.mesh.indices.len(), GROWN_INDICES);
    let verts = t.mesh.vertices.clone();
    let idx = t.mesh.indices.clone();
    // A grown tree never regenerates.
    t.update(45000, &mut rng);
    assert_eq!(t.stage, TreeStage::Grown);
    assert_eq!(t.mesh.vertices, verts);
    assert_eq!(t.mesh.indices, idx);
}

#[test]
fn stage_progress_accumulates() {
    let mut rng = StdRng::seed_from_u64(9);
    let mut t = test_tree();
    t.generate_mesh_sapling(&mut rng);
    // 4500 raw seconds advance progress by exactly 100 units.
    t.update(4500, &mut rng);
    assert_eq!(t.stage, TreeStage::Sapling(100));
    t.update(4500, &mut rng);
    assert_eq!(t.stage, TreeStage::Sapling(200));
    assert_eq!(t.mesh.vertices.len(), SAPLING_VERTS);
}

fn flat_vertex(x: i64, y: i64, z: i64) -> Vertex {
    Vertex {
        position: Vec3Fx { x, y, z },
        normal: Vec3Fx { x: 0, y: 0, z: 0 },
        uv: Vec2Fx { x: 0, y: 0 },
        color: bark(),
    }
}

#[test]
fn bridge_emits_two_triangles_per_edge_within_rings() {
    let mut mesh = Mesh::new();
    for k in 0..6i64 {
        mesh.push_vertex(flat_vertex(k * SCALE, 0, 0));
    }
    let from: Vec<usize> = vec![0, 1, 2];
    let to: Vec<usize> = vec![3, 4, 5];
    bridge_loops(&mut mesh, &from, &to);
    // Two triangles per edge: 3 edges, 6 triangles, 18 indices.
    assert_eq!(mesh.indices.len(), 18);
    for &ix in &mesh.indices {
        assert!(from.contains(&(ix as usize)) || to.contains(&(ix as usize)));
    }
    // Exact quad-strip layout for the first edge.
    assert_eq!(&mesh.indices[0..6], &[0, 3, 1, 1, 3, 4]);
    // The strip closes: the last edge wraps to the first ring entry.
    assert_eq!(&mesh.indices[12..18], &[2, 5, 0, 0, 5, 3]);
}

#[test]
fn sphere_counts_and_index_range() {
    let mut mesh = Mesh::new();
    mesh.push_vertex(flat_vertex(0, 0, 0));
    let v0 = mesh.vertex_count();
    sphere(&mut mesh, Vec3Fx { x: 0, y: 0, z: 0 }, 4 * SCALE, leaf());
    assert_eq!(mesh.vertex_count() - v0, 36);
    assert_eq!(mesh.index_count(), 180);
    for i in 0..mesh.index_count() {
        let ix = mesh.get_index(i) as usize;
        assert!(ix >= v0 && ix < v0 + 36, "index {} out of the sphere", ix);
    }
    for i in 0..36 {
        assert_eq!(mesh.get_vertex(v0 + i).color, leaf());
    }
}

#[test]
fn structure_tree_starts_as_sapling() {
    let mut rng = StdRng::seed_from_u64(11);
    let s = Structure::tree(&mut rng);
    match s {
        Structure::Tree(t) => {
            assert_eq!(t.stage, TreeStage::Sapling(0));
            assert_eq!(t.mesh.vertices.len(), SAPLING_VERTS);
        }
        _ => panic!("expected a tree"),
    }
}

#[test]
fn structure_pole_steps_cloth_every_second_frame() {
    let mut rng = StdRng::seed_from_u64(13);
    let mut s = Structure::pole(&mut rng);
    match &mut s {
        Structure::Pole { cloth, .. } => {
            assert_eq!(cloth.nodes.len(), 60);
            cloth.mesh.mark_vertices_clean();
        }
        _ => panic!("expected a pole"),
    }
    let dt = SCALE / 60;
    s.update(dt, false, &mut rng);
    match &s {
        Structure::Pole { cloth, frames, .. } => {
            assert_eq!(*frames, 1);
            assert!(!cloth.mesh.vertices_dirty());
        }
        _ => panic!(),
    }
    s.update(dt, false, &mut rng);
    match &s {
        Structure::Pole { cloth, frames, .. } => {
            assert_eq!(*frames, 0);
            assert!(cloth.mesh.vertices_dirty());
        }
        _ => panic!(),
    }
}

#[test]
fn structure_pole_instanced_is_inert() {
    let mut rng = StdRng::seed_from_u64(17);
    let mut s = Structure::pole(&mut rng);
    let before = match &s {
        Structure::Pole { cloth, frames, time } => {
            (cloth.nodes.clone(), *frames, *time)
        }
        _ => panic!(),
    };
    s.update(SCALE / 60, true, &mut rng);
    match &s {
        Structure::Pole { cloth, frames, time } => {
            assert_eq!(*frames, before.1);
            assert_eq!(*time, before.2);
            assert_eq!(cloth.nodes, before.0);
        }
        _ => panic!(),
    }
}
