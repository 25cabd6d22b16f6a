//! Tests for the cloth simulator: grid construction, locked-node
//! immobility, convergence of the constraint relaxation, and the dirty
//! flag protocol.

use orchard::cloth::Cloth;
use orchard::fx::SCALE;
use orchard::vec3::{Vec2Fx, Vec3Fx};

const DT: i64 = SCALE / 60;

fn zero3() -> Vec3Fx {
    Vec3Fx { x: 0, y: 0, z: 0 }
}

fn dist_raw(a: Vec3Fx, b: Vec3Fx) -> i64 {
    let dx = (a.x - b.x) as f64;
    let dy = (a.y - b.y) as f64;
    let dz = (a.z - b.z) as f64;
    (dx * dx + dy * dy + dz * dz).sqrt() as i64
}

#[test]
fn generate_counts_small() {
    for &(w, h) in &[(2usize, 2usize), (4, 4), (15, 4), (2, 5), (7, 3)] {
        let cloth = Cloth::generate(w, h);
        assert_eq!(cloth.nodes.len(), w * h);
        assert_eq!(cloth.mesh.vertices.len(), w * h);
        assert_eq!(cloth.mesh.indices.len(), 6 * (w - 1) * (h - 1));
        assert_eq!(
            cloth.connections.len(),
            (w - 1) * h + w * (h - 1),
            "connection count for {}x{}",
            w,
            h
        );
        for &ix in &cloth.mesh.indices {
            assert!((ix as usize) < w * h);
        }
    }
}

#[test]
fn generate_locked_column_and_flicker_set() {
    let w = 15;
    let h = 4;
    let cloth = Cloth::generate(w, h);
    for (i, node) in cloth.nodes.iter().enumerate() {
        assert_eq!(node.locked, i % w == 0, "lock pattern at {}", i);
        assert_eq!(node.prev_position, node.position);
    }
    let expect: Vec<usize> = (0..h).map(|y| y * w + 1).collect();
    assert_eq!(cloth.flicker, expect);
}

#[test]
fn generate_exact_grid_positions() {
    let h = 4i64;
    let cloth = Cloth::generate(15, 4);
    // Column x, row y sits at (-x/sqrt(2), y - h/2, -x/sqrt(2)) in world
    // units; the rounded fixed-point spacing factor is 46341.
    let n = &cloth.nodes[0];
    assert_eq!((n.position.x, n.position.y, n.position.z), (0, -h * 32768, 0));
    let n = &cloth.nodes[1 * 15 + 2];
    assert_eq!(n.position.x, -2 * 46341);
    assert_eq!(n.position.y, 1 * 65536 - h * 32768);
    assert_eq!(n.position.z, -2 * 46341);
}

#[test]
fn generate_rest_lengths_and_adjacency() {
    let cloth = Cloth::generate(6, 5);
    for c in &cloth.connections {
        assert_eq!(c.rest_length, SCALE);
        assert!(c.b == c.a + 1 || c.b == c.a + 6);
    }
}

#[test]
fn generate_vertex_colors() {
    let cloth = Cloth::generate(3, 3);
    for v in &cloth.mesh.vertices {
        assert_eq!((v.color.r, v.color.g, v.color.b), (247, 16, 16));
    }
}

#[test]
fn generate_winding_first_cell() {
    let w = 4i64;
    let cloth = Cloth::generate(4, 4);
    let idx: Vec<u32> = cloth.mesh.indices.clone();
    assert_eq!(&idx[0..6], &[0, 1, w as u32, 1, w as u32 + 1, w as u32]);
}

#[test]
fn locked_nodes_fixed_over_hundred_steps() {
    let mut cloth = Cloth::generate(4, 4);
    let initial: Vec<Vec3Fx> = cloth.nodes.iter().map(|n| n.position).collect();
    for _ in 0..100 {
        cloth.update(DT, zero3(), Vec2Fx { x: 0, y: 0 });
    }
    for (i, node) in cloth.nodes.iter().enumerate() {
        if node.locked {
            assert_eq!(node.position, initial[i], "locked node {} moved", i);
            assert_eq!(node.prev_position, initial[i]);
        }
    }
}

#[test]
fn no_divergence_over_hundred_steps() {
    // The end-to-end scenario: a 4x4 cloth under gravity alone stays
    // within a bounded distance of the resting plane.
    let mut cloth = Cloth::generate(4, 4);
    for _ in 0..100 {
        cloth.update(DT, zero3(), Vec2Fx { x: 0, y: 0 });
    }
    let bound = 64 * SCALE;
    for node in &cloth.nodes {
        assert!(node.position.x.abs() < bound);
        assert!(node.position.y.abs() < bound);
        assert!(node.position.z.abs() < bound);
    }
}

#[test]
fn relaxation_keeps_constraint_error_small() {
    // After each settled step, every connection's length stays close to
    // its rest length: the relaxation passes pull the error down faster
    // than gravity stretches it.
    let mut cloth = Cloth::generate(5, 3);
    for _ in 0..50 {
        cloth.update(DT, zero3(), Vec2Fx { x: 0, y: 0 });
    }
    let mut max_err: i64 = 0;
    for c in &cloth.connections {
        let d = dist_raw(cloth.nodes[c.a].position, cloth.nodes[c.b].position);
        let err = (d - c.rest_length).abs();
        if err > max_err {
            max_err = err;
        }
    }
    // Error stays under a tenth of a world unit.
    assert!(max_err < SCALE / 10, "max error {}", max_err);
}

#[test]
fn relaxation_error_decreases_after_disturbance() {
    // Disturb the cloth with one windy step, then let it settle with no
    // external forces: the worst constraint error must shrink.
    let mut cloth = Cloth::generate(4, 4);
    cloth.update(DT, Vec3Fx { x: 4 * SCALE, y: 0, z: 0 }, Vec2Fx { x: 0, y: 0 });
    let err_at = |cloth: &Cloth| -> i64 {
        cloth
            .connections
            .iter()
            .map(|c| (dist_raw(cloth.nodes[c.a].position, cloth.nodes[c.b].position)
                - c.rest_length)
                .abs())
            .max()
            .unwrap()
    };
    let before = err_at(&cloth);
    for _ in 0..20 {
        cloth.update(0, zero3(), Vec2Fx { x: 0, y: 0 });
    }
    let after = err_at(&cloth);
    assert!(after <= before, "error grew from {} to {}", before, after);
    assert!(after < SCALE / 16, "error did not settle: {}", after);
}

#[test]
fn flicker_set_holds_second_column() {
    // The flicker override itself lands between integration and
    // relaxation (pinned by `update`'s contract); what a caller can
    // observe is the registered set: one node per row, in column one.
    let cloth = Cloth::generate(15, 4);
    assert_eq!(cloth.flicker, vec![1, 16, 31, 46]);
    for &i in &cloth.flicker {
        assert!(!cloth.nodes[i].locked);
    }
}

#[test]
fn update_marks_vertices_dirty_only() {
    let mut cloth = Cloth::generate(4, 4);
    cloth.mesh.mark_vertices_clean();
    cloth.mesh.mark_indices_clean();
    cloth.update(DT, zero3(), Vec2Fx { x: 0, y: 0 });
    assert!(cloth.mesh.vertices_dirty());
    assert!(!cloth.mesh.indices_dirty());
}

#[test]
fn sync_doubles_node_positions() {
    let mut cloth = Cloth::generate(4, 4);
    cloth.update(DT, zero3(), Vec2Fx { x: 0, y: 0 });
    for (i, node) in cloth.nodes.iter().enumerate() {
        let v = cloth.mesh.get_vertex(i);
        assert_eq!(v.position.x, 2 * node.position.x);
        assert_eq!(v.position.y, 2 * node.position.y);
        assert_eq!(v.position.z, 2 * node.position.z);
    }
}

#[test]
fn normals_have_unit_scale_magnitude() {
    let mut cloth = Cloth::generate(4, 4);
    cloth.update(DT, zero3(), Vec2Fx { x: 0, y: 0 });
    for v in &cloth.mesh.vertices {
        let n = &v.normal;
        let len2 = (n.x as f64) * (n.x as f64) + (n.y as f64) * (n.y as f64) + (n.z as f64)
            * (n.z as f64);
        let len = len2.sqrt();
        assert!(len > 0.5 * SCALE as f64, "degenerate normal {:?}", n);
        assert!(len < 1.5 * SCALE as f64, "oversized normal {:?}", n);
    }
}
