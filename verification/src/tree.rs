//! The procedural tree-mesh generator: a recursive trunk of tapered ring
//! segments bridged into tubes, terminated by latitude/longitude leaf
//! spheres, behind a two-stage growth state machine (`Sapling` progress,
//! then terminal `Grown` with a fuller shape and a canopy sphere).

use vstd::prelude::*;

use crate::fx;
use crate::fx::{cos_spec, muldiv, sin_spec, sqrt_spec, tdiv};
use crate::mesh::{normals_spec, Color, Mesh, Vertex, IDX_CAP, POS_BOUND, VERT_CAP};
use crate::rng::rng_range;
use crate::vec3::{
    lemma_muldiv_ratio, lemma_muldiv_ratio2, lemma_rot_x_bound, lemma_rot_z_bound, lemma_tdiv_mag,
    rot_x_spec, rot_z_spec, Vec2Fx, Vec3Fx,
};

verus! {

/// Largest trunk radius and branch segment length accepted, in raw units.
pub const DIM_MAX: i64 = 4194304;

/// Largest leaf or canopy sphere radius accepted, in raw units.
pub const LEAF_MAX: i64 = 1048576;

/// Largest magnitude a branch position coordinate can reach.
pub const TREE_POS_BOUND: i64 = 134217728;

/// Largest magnitude a branch Euler angle can reach, in binary angle units.
pub const ANG_BOUND: i64 = 1048576;

/// Largest magnitude of one random angle draw, in binary angle units.
pub const DRAW_BOUND: i64 = 32768;

/// Vertices per ring cross-section.
pub const RING_RES: usize = 5;

/// The tree's growth stage: `Sapling` carries monotone progress in
/// `[0, SCALE)`; `Grown` is terminal.
#[derive(Clone, Copy, PartialEq, Eq, Structural, Debug)]
pub enum TreeStage {
    Sapling(i64),
    Grown,
}

impl Default for TreeStage {
    /// Growth starts at zero progress.
    fn default() -> (r: TreeStage)
        ensures
            r == TreeStage::Sapling(0i64),
    {
        TreeStage::Sapling(0)
    }
}

/// A ring of vertices: a regular polygon used as the cross-section of a
/// branch segment.
pub struct Ring {
    pub vertices: Vec<Vertex>,
}

/// The `k`-th vertex of a fresh ring of `res` sides and the given radius,
/// lying in the local XZ plane.
pub open spec fn ring_vertex(color: Color, radius: i64, res: int, k: int) -> Vertex {
    let a = tdiv(k * 65536, res);
    Vertex {
        position: Vec3Fx {
            x: muldiv(cos_spec(a), radius as int, 65536) as i64,
            y: 0i64,
            z: muldiv(sin_spec(a), radius as int, 65536) as i64,
        },
        normal: Vec3Fx { x: 0i64, y: 0i64, z: 0i64 },
        uv: Vec2Fx { x: 0i64, y: 0i64 },
        color,
    }
}

impl Ring {
    /// A regular polygon of `res` vertices at the given radius.
    pub fn new(color: Color, radius: i64, res: usize) -> (r: Ring)
        requires
            1 <= res <= 64,
            0 <= radius <= DIM_MAX,
        ensures
            r.vertices@ == Seq::new(res as nat, |k: int| ring_vertex(color, radius, res as int, k)),
            forall|k: int|
                0 <= k < res ==> (#[trigger] r.vertices@[k]).position.bounded(DIM_MAX as int),
    {
        let mut vertices: Vec<Vertex> = Vec::new();
        let mut k: usize = 0;
        while k < res
            invariant
                k <= res,
                1 <= res <= 64,
                0 <= radius <= DIM_MAX,
                vertices@.len() == k,
                forall|j: int|
                    0 <= j < k ==> vertices@[j] == ring_vertex(color, radius, res as int, j),
                forall|j: int|
                    0 <= j < k ==> (#[trigger] vertices@[j]).position.bounded(DIM_MAX as int),
            decreases res - k,
        {
            let a = fx::sdiv((k as i64) * 65536, res as i64);
            proof {
                lemma_tdiv_mag((k as i64) * 65536 as int, res as int, 4194304);
                fx::lemma_sin_bounds(a as int);
                fx::lemma_sin_bounds(a as int + 16384);
                lemma_muldiv_ratio2(cos_spec(a as int), radius as int, 65536, DIM_MAX as int);
                lemma_muldiv_ratio2(sin_spec(a as int), radius as int, 65536, DIM_MAX as int);
            }
            let cx = fx::mul_div(fx::cos_fx(a), radius, fx::SCALE);
            let cz = fx::mul_div(fx::sin_fx(a), radius, fx::SCALE);
            vertices.push(
                Vertex {
                    position: Vec3Fx { x: cx, y: 0, z: cz },
                    normal: Vec3Fx { x: 0, y: 0, z: 0 },
                    uv: Vec2Fx { x: 0, y: 0 },
                    color,
                },
            );
            k = k + 1;
        }
        Ring { vertices }
    }

    /// Rotate every vertex about the Z axis by `ez`, then about the X axis
    /// by `ex` (the two effective angles of the branch orientation).
    pub fn rotate(&mut self, ex: i64, ez: i64)
        requires
            -ANG_BOUND * 2 <= ex <= ANG_BOUND * 2,
            -ANG_BOUND * 2 <= ez <= ANG_BOUND * 2,
            forall|k: int|
                0 <= k < old(self).vertices@.len() ==> (
                #[trigger] old(self).vertices@[k]).position.bounded(DIM_MAX as int),
        ensures
            final(self).vertices@ == Seq::new(
                old(self).vertices@.len(),
                |k: int| Vertex {
                    position: rot_x_spec(
                        rot_z_spec(old(self).vertices@[k].position, ez as int),
                        ex as int,
                    ),
                    ..old(self).vertices@[k]
                },
            ),
            forall|k: int|
                0 <= k < final(self).vertices@.len() ==> (
                #[trigger] final(self).vertices@[k]).position.bounded(4 * DIM_MAX as int),
    {
        let n = self.vertices.len();
        let ghost orig = self.vertices@;
        let mut k: usize = 0;
        while k < n
            invariant
                k <= n,
                n == self.vertices@.len(),
                orig.len() == n,
                -ANG_BOUND * 2 <= ex <= ANG_BOUND * 2,
                -ANG_BOUND * 2 <= ez <= ANG_BOUND * 2,
                forall|j: int|
                    0 <= j < n ==> (#[trigger] orig[j]).position.bounded(DIM_MAX as int),
                forall|j: int|
                    0 <= j < k ==> self.vertices@[j] == (Vertex {
                        position: rot_x_spec(rot_z_spec(orig[j].position, ez as int), ex as int),
                        ..orig[j]
                    }),
                forall|j: int|
                    0 <= j < k ==> (#[trigger] self.vertices@[j]).position.bounded(
                        4 * DIM_MAX as int,
                    ),
                forall|j: int| k <= j < n ==> self.vertices@[j] == orig[j],
            decreases n - k,
        {
            let mut v = self.vertices[k];
            proof {
                assert(v == orig[k as int]);
                assert(v.position.bounded(DIM_MAX as int));
                lemma_rot_z_bound(v.position, ez as int, DIM_MAX as int);
                lemma_rot_x_bound(
                    rot_z_spec(v.position, ez as int),
                    ex as int,
                    2 * DIM_MAX as int,
                );
            }
            v.position = crate::vec3::rot_x(crate::vec3::rot_z(v.position, ez), ex);
            self.vertices[k] = v;
            k = k + 1;
        }
        proof {
            assert(self.vertices@ =~= Seq::new(
                orig.len(),
                |j: int| Vertex {
                    position: rot_x_spec(rot_z_spec(orig[j].position, ez as int), ex as int),
                    ..orig[j]
                },
            ));
        }
    }

    /// Translate every vertex by `t`.
    pub fn translate(&mut self, t: Vec3Fx)
        requires
            t.bounded(TREE_POS_BOUND as int),
            forall|k: int|
                0 <= k < old(self).vertices@.len() ==> (
                #[trigger] old(self).vertices@[k]).position.bounded(4 * DIM_MAX as int),
        ensures
            final(self).vertices@ == Seq::new(
                old(self).vertices@.len(),
                |k: int| Vertex {
                    position: Vec3Fx {
                        x: (old(self).vertices@[k].position.x + t.x) as i64,
                        y: (old(self).vertices@[k].position.y + t.y) as i64,
                        z: (old(self).vertices@[k].position.z + t.z) as i64,
                    },
                    ..old(self).vertices@[k]
                },
            ),
            forall|k: int|
                0 <= k < final(self).vertices@.len() ==> (
                #[trigger] final(self).vertices@[k]).position.bounded(
                    TREE_POS_BOUND as int + 4 * DIM_MAX as int,
                ),
    {
        let n = self.vertices.len();
        let ghost orig = self.vertices@;
        let mut k: usize = 0;
        while k < n
            invariant
                k <= n,
                n == self.vertices@.len(),
                orig.len() == n,
                t.bounded(TREE_POS_BOUND as int),
                forall|j: int|
                    0 <= j < n ==> (#[trigger] orig[j]).position.bounded(4 * DIM_MAX as int),
                forall|j: int|
                    0 <= j < k ==> self.vertices@[j] == (Vertex {
                        position: Vec3Fx {
                            x: (orig[j].position.x + t.x) as i64,
                            y: (orig[j].position.y + t.y) as i64,
                            z: (orig[j].position.z + t.z) as i64,
                        },
                        ..orig[j]
                    }),
                forall|j: int|
                    0 <= j < k ==> (#[trigger] self.vertices@[j]).position.bounded(
                        TREE_POS_BOUND as int + 4 * DIM_MAX as int,
                    ),
                forall|j: int| k <= j < n ==> self.vertices@[j] == orig[j],
            decreases n - k,
        {
            let mut v = self.vertices[k];
            proof {
                assert(v == orig[k as int]);
                assert(v.position.bounded(4 * DIM_MAX as int));
            }
            v.position = v.position.vadd(t);
            self.vertices[k] = v;
            k = k + 1;
        }
        proof {
            assert(self.vertices@ =~= Seq::new(
                orig.len(),
                |j: int| Vertex {
                    position: Vec3Fx {
                        x: (orig[j].position.x + t.x) as i64,
                        y: (orig[j].position.y + t.y) as i64,
                        z: (orig[j].position.z + t.z) as i64,
                    },
                    ..orig[j]
                },
            ));
        }
    }

    /// Append the ring's vertices to the mesh and return their indices,
    /// which are consecutive from the previous vertex count.
    pub fn insert(self, mesh: &mut Mesh) -> (r: Vec<usize>)
        requires
            old(mesh).wf(),
            old(mesh).vertices@.len() + self.vertices@.len() <= VERT_CAP,
            forall|k: int|
                0 <= k < self.vertices@.len() ==> (
                #[trigger] self.vertices@[k]).position.bounded(POS_BOUND as int),
        ensures
            final(mesh).wf(),
            final(mesh).vertices@ == old(mesh).vertices@ + self.vertices@,
            final(mesh).indices@ == old(mesh).indices@,
            final(mesh).vertices_dirty == (old(mesh).vertices_dirty
                || self.vertices@.len() > 0),
            final(mesh).indices_dirty == old(mesh).indices_dirty,
            r@.len() == self.vertices@.len(),
            forall|k: int|
                0 <= k < r@.len() ==> (#[trigger] r@[k]) == old(mesh).vertices@.len() + k,
    {
        let ghost ring = self.vertices@;
        let ghost base = mesh.vertices@;
        let n = self.vertices.len();
        let mut r: Vec<usize> = Vec::new();
        let mut k: usize = 0;
        let verts = self.vertices;
        while k < n
            invariant
                k <= n,
                n == ring.len(),
                verts@ == ring,
                mesh.wf(),
                base.len() + n <= VERT_CAP,
                mesh.vertices@ == base + ring.take(k as int),
                mesh.indices@ == old(mesh).indices@,
                mesh.indices_dirty == old(mesh).indices_dirty,
                mesh.vertices_dirty == (old(mesh).vertices_dirty || k > 0),
                forall|j: int| 0 <= j < n ==> (#[trigger] ring[j]).position.bounded(POS_BOUND as int),
                r@.len() == k,
                forall|j: int| 0 <= j < k ==> (#[trigger] r@[j]) == base.len() + j,
            decreases n - k,
        {
            r.push(mesh.vertex_count());
            mesh.push_vertex(verts[k]);
            proof {
                assert(mesh.vertices@ =~= base + ring.take(k as int + 1));
            }
            k = k + 1;
        }
        proof {
            assert(ring.take(n as int) =~= ring);
        }
        r
    }
}


/// The consecutive vertex indices `start .. start + n`.
pub open spec fn consec(start: int, n: int) -> Seq<usize> {
    Seq::new(n as nat, |k: int| (start + k) as usize)
}

/// `v` is one of the ring's vertex indices.
pub open spec fn ring_contains(ring: Seq<usize>, v: int) -> bool {
    exists|i: int| 0 <= i < ring.len() && (#[trigger] ring[i]) as int == v
}

/// The six index entries the bridge step emits for edge `i` of the two
/// rings: a quad split into two triangles with matching vertex order.
pub open spec fn bridged(idx: Seq<u32>, start: int, from: Seq<usize>, to: Seq<usize>, i: int) -> bool {
    let j = (i + 1) % (from.len() as int);
    &&& idx[start + 6 * i] as int == from[i] as int
    &&& idx[start + 6 * i + 1] as int == to[i] as int
    &&& idx[start + 6 * i + 2] as int == from[j] as int
    &&& idx[start + 6 * i + 3] as int == from[j] as int
    &&& idx[start + 6 * i + 4] as int == to[i] as int
    &&& idx[start + 6 * i + 5] as int == to[j] as int
}

/// One entry of the quad strip a bridge emits: entry `r` of edge `i`.
pub open spec fn bridge_entry(from: Seq<usize>, to: Seq<usize>, i: int, r: int) -> u32 {
    let j = (i + 1) % (from.len() as int);
    if r == 0 {
        from[i] as u32
    } else if r == 1 {
        to[i] as u32
    } else if r == 2 {
        from[j] as u32
    } else if r == 3 {
        from[j] as u32
    } else if r == 4 {
        to[i] as u32
    } else {
        to[j] as u32
    }
}

/// Everything a bridge emits: six entries per edge of the two rings.
pub open spec fn bridge_seq(from: Seq<usize>, to: Seq<usize>) -> Seq<u32> {
    Seq::new((6 * from.len()) as nat, |k: int| bridge_entry(from, to, k / 6, k % 6))
}

/// Connect two equal-size vertex rings with a quad strip: exactly two
/// triangles per edge, referencing only the two rings' indices.
pub fn bridge_loops(mesh: &mut Mesh, from: &Vec<usize>, to: &Vec<usize>)
    requires
        old(mesh).wf(),
        from@.len() == to@.len(),
        1 <= from@.len() <= 64,
        forall|i: int| 0 <= i < from@.len() ==> (#[trigger] from@[i]) < old(mesh).vertices@.len(),
        forall|i: int| 0 <= i < to@.len() ==> (#[trigger] to@[i]) < old(mesh).vertices@.len(),
        old(mesh).indices@.len() + 6 * from@.len() <= IDX_CAP,
    ensures
        final(mesh).wf(),
        final(mesh).vertices@ == old(mesh).vertices@,
        final(mesh).vertices_dirty == old(mesh).vertices_dirty,
        final(mesh).indices_dirty,
        final(mesh).indices@.len() == old(mesh).indices@.len() + 6 * from@.len(),
        final(mesh).indices@ == old(mesh).indices@ + bridge_seq(from@, to@),
        forall|i: int| 0 <= i < old(mesh).indices@.len() ==> final(mesh).indices@[i] == old(
            mesh,
        ).indices@[i],
        forall|i: int|
            0 <= i < from@.len() ==> bridged(
                final(mesh).indices@,
                old(mesh).indices@.len() as int,
                from@,
                to@,
                i,
            ),
        forall|k: int|
            old(mesh).indices@.len() <= k < final(mesh).indices@.len() ==> ring_contains(
                from@,
                (#[trigger] final(mesh).indices@[k]) as int,
            ) || ring_contains(to@, final(mesh).indices@[k] as int),
{
    let n = from.len();
    let ghost start = mesh.indices@.len() as int;
    let mut i: usize = 0;
    while i < n
        invariant
            i <= n,
            n == from@.len(),
            n == to@.len(),
            1 <= n <= 64,
            mesh.wf(),
            mesh.vertices@ == old(mesh).vertices@,
            mesh.vertices_dirty == old(mesh).vertices_dirty,
            i == 0 ==> mesh.indices_dirty == old(mesh).indices_dirty,
            i > 0 ==> mesh.indices_dirty,
            forall|k: int| 0 <= k < n ==> (#[trigger] from@[k]) < mesh.vertices@.len(),
            forall|k: int| 0 <= k < n ==> (#[trigger] to@[k]) < mesh.vertices@.len(),
            start == old(mesh).indices@.len(),
            start + 6 * n <= IDX_CAP,
            mesh.indices@.len() == start + 6 * i,
            forall|k: int| 0 <= k < start ==> mesh.indices@[k] == old(mesh).indices@[k],
            forall|k: int| 0 <= k < i ==> bridged(mesh.indices@, start, from@, to@, k),
            forall|k: int|
                start <= k < mesh.indices@.len() ==> ring_contains(
                    from@,
                    (#[trigger] mesh.indices@[k]) as int,
                ) || ring_contains(to@, mesh.indices@[k] as int),
        decreases n - i,
    {
        let j = (i + 1) % n;
        let ghost pre = mesh.indices@;
        mesh.push_tri(from[i] as u32, to[i] as u32, from[j] as u32);
        mesh.push_tri(from[j] as u32, to[i] as u32, to[j] as u32);
        proof {
            assert(bridged(mesh.indices@, start, from@, to@, i as int));
            assert forall|k: int| 0 <= k < i + 1 implies bridged(
                mesh.indices@,
                start,
                from@,
                to@,
                k,
            ) by {
                if k < i {
                    assert(bridged(pre, start, from@, to@, k));
                    assert(mesh.indices@[start + 6 * k] == pre[start + 6 * k]);
                    assert(mesh.indices@[start + 6 * k + 1] == pre[start + 6 * k + 1]);
                    assert(mesh.indices@[start + 6 * k + 2] == pre[start + 6 * k + 2]);
                    assert(mesh.indices@[start + 6 * k + 3] == pre[start + 6 * k + 3]);
                    assert(mesh.indices@[start + 6 * k + 4] == pre[start + 6 * k + 4]);
                    assert(mesh.indices@[start + 6 * k + 5] == pre[start + 6 * k + 5]);
                }
            }
            assert forall|k: int| start <= k < mesh.indices@.len() implies ring_contains(
                from@,
                (#[trigger] mesh.indices@[k]) as int,
            ) || ring_contains(to@, mesh.indices@[k] as int) by {
                if k < start + 6 * i {
                    assert(mesh.indices@[k] == pre[k]);
                } else {
                    assert(0 <= i < from@.len() && 0 <= j < from@.len());
                    if k == start + 6 * i {
                        assert(from@[i as int] as int == mesh.indices@[k] as int);
                    } else if k == start + 6 * i + 1 {
                        assert(to@[i as int] as int == mesh.indices@[k] as int);
                    } else if k == start + 6 * i + 2 {
                        assert(from@[j as int] as int == mesh.indices@[k] as int);
                    } else if k == start + 6 * i + 3 {
                        assert(from@[j as int] as int == mesh.indices@[k] as int);
                    } else if k == start + 6 * i + 4 {
                        assert(to@[i as int] as int == mesh.indices@[k] as int);
                    } else {
                        assert(to@[j as int] as int == mesh.indices@[k] as int);
                    }
                }
            }
        }
        i = i + 1;
    }
    proof {
        let fin = mesh.indices@;
        let bs = bridge_seq(from@, to@);
        assert forall|k: int| 0 <= k < 6 * from@.len() implies fin[start + k] == bs[k] by {
            vstd::arithmetic::div_mod::lemma_fundamental_div_mod(k, 6);
            vstd::arithmetic::div_mod::lemma_mod_bound(k, 6);
            let ii = k / 6;
            let r = k % 6;
            assert(0 <= ii < from@.len()) by (nonlinear_arith)
                requires
                    6 * ii + r == k,
                    0 <= r < 6,
                    0 <= k < 6 * from@.len(),
            ;
            assert(bridged(fin, start, from@, to@, ii));
            assert(bs[k] == bridge_entry(from@, to@, ii, r));
        }
        assert(mesh.indices@ =~= old(mesh).indices@ + bridge_seq(from@, to@));
    }
}

/// The two effective rotation angles of a branch orientation: the pitch
/// and roll pair, mixed by the yaw.
pub open spec fn euler_ex(rot: Vec3Fx) -> int {
    muldiv(rot.x as int, cos_spec(rot.y as int), 65536) - muldiv(
        rot.z as int,
        sin_spec(rot.y as int),
        65536,
    )
}

/// The roll half of the mixed orientation pair.
pub open spec fn euler_ez(rot: Vec3Fx) -> int {
    muldiv(rot.x as int, sin_spec(rot.y as int), 65536) + muldiv(
        rot.z as int,
        cos_spec(rot.y as int),
        65536,
    )
}

/// Mix a branch's Euler angles (pitch, yaw, roll) into the effective
/// (about-X, about-Z) rotation pair: the yaw rotates the pitch/roll
/// vector, spreading children radially around the trunk axis.
pub fn euler_rot(euler: Vec3Fx) -> (r: (i64, i64))
    requires
        euler.bounded(ANG_BOUND as int),
    ensures
        r.0 == euler_ex(euler),
        r.1 == euler_ez(euler),
        -2 * ANG_BOUND <= r.0 <= 2 * ANG_BOUND,
        -2 * ANG_BOUND <= r.1 <= 2 * ANG_BOUND,
{
    let c = fx::cos_fx(euler.y);
    let s = fx::sin_fx(euler.y);
    proof {
        lemma_muldiv_ratio(euler.x as int, c as int, 65536, ANG_BOUND as int);
        lemma_muldiv_ratio(euler.z as int, s as int, 65536, ANG_BOUND as int);
        lemma_muldiv_ratio(euler.x as int, s as int, 65536, ANG_BOUND as int);
        lemma_muldiv_ratio(euler.z as int, c as int, 65536, ANG_BOUND as int);
    }
    let ex = fx::mul_div(euler.x, c, fx::SCALE) - fx::mul_div(euler.z, s, fx::SCALE);
    let ez = fx::mul_div(euler.x, s, fx::SCALE) + fx::mul_div(euler.z, c, fx::SCALE);
    (ex, ez)
}

/// The tip of a just-generated segment: its new ring's indices, world
/// position and orientation, consumed to spawn children or leaf spheres.
#[derive(Clone)]
pub struct BranchBase {
    pub indices: Vec<usize>,
    pub position: Vec3Fx,
    pub rotation: Vec3Fx,
}

/// One branch segment to generate: base position and orientation (Euler
/// angles), ring resolution, color, ring radius and segment length.
pub struct Branch {
    pub position: Vec3Fx,
    pub rotation: Vec3Fx,
    pub res: usize,
    pub color: Color,
    pub radius: i64,
    pub length: i64,
}

/// The local +Y axis of a branch orientation.
pub open spec fn branch_dir(rot: Vec3Fx) -> Vec3Fx {
    rot_x_spec(rot_z_spec(Vec3Fx { x: 0i64, y: 65536i64, z: 0i64 }, euler_ez(rot)), euler_ex(rot))
}

/// The world position of a segment's far ring: the base position advanced
/// along the rotated local +Y axis by the segment length.
pub open spec fn branch_tip(pos: Vec3Fx, rot: Vec3Fx, length: i64) -> Vec3Fx {
    let d = branch_dir(rot);
    Vec3Fx {
        x: (pos.x + muldiv(d.x as int, length as int, 65536)) as i64,
        y: (pos.y + muldiv(d.y as int, length as int, 65536)) as i64,
        z: (pos.z + muldiv(d.z as int, length as int, 65536)) as i64,
    }
}

/// The `k`-th vertex of a segment's far ring: the fresh ring vertex,
/// rotated by the segment orientation and translated to the tip.
pub open spec fn branch_ring_vertex(
    color: Color,
    radius: i64,
    res: int,
    rot: Vec3Fx,
    tip: Vec3Fx,
    k: int,
) -> Vertex {
    let local = rot_x_spec(
        rot_z_spec(ring_vertex(color, radius, res, k).position, euler_ez(rot)),
        euler_ex(rot),
    );
    Vertex {
        position: Vec3Fx {
            x: (local.x + tip.x) as i64,
            y: (local.y + tip.y) as i64,
            z: (local.z + tip.z) as i64,
        },
        normal: Vec3Fx { x: 0i64, y: 0i64, z: 0i64 },
        uv: Vec2Fx { x: 0i64, y: 0i64 },
        color,
    }
}

/// The tip never strays more than four segment-length bounds from the base.
pub proof fn lemma_branch_tip_bound(pos: Vec3Fx, rot: Vec3Fx, length: i64, c: int)
    requires
        0 <= c,
        pos.bounded(c),
        0 <= length <= DIM_MAX,
        c + 16777216 <= 0x4000000000000000,
    ensures
        branch_tip(pos, rot, length).bounded(c + 16777216),
{
    fx::lemma_sin_bounds(euler_ez(rot));
    fx::lemma_sin_bounds(euler_ez(rot) + 16384);
    fx::lemma_sin_bounds(euler_ex(rot));
    fx::lemma_sin_bounds(euler_ex(rot) + 16384);
    lemma_rot_z_bound(Vec3Fx { x: 0i64, y: 65536i64, z: 0i64 }, euler_ez(rot), 65536);
    lemma_rot_x_bound(
        rot_z_spec(Vec3Fx { x: 0i64, y: 65536i64, z: 0i64 }, euler_ez(rot)),
        euler_ex(rot),
        131072,
    );
    let d = branch_dir(rot);
    assert(-(16777216 * 65536) <= d.x * length <= 16777216 * 65536 && -(16777216 * 65536) <= d.y
        * length <= 16777216 * 65536 && -(16777216 * 65536) <= d.z * length <= 16777216 * 65536)
        by (nonlinear_arith)
        requires
            d.bounded(262144),
            0 <= length <= 4194304,
    ;
    lemma_tdiv_mag(d.x as int * length as int, 65536, 16777216);
    lemma_tdiv_mag(d.y as int * length as int, 65536, 16777216);
    lemma_tdiv_mag(d.z as int * length as int, 65536, 16777216);
}

impl Branch {
    /// Generate one segment: build the far ring, rotate it by the branch
    /// orientation, translate it to the tip, append it to the mesh, and
    /// bridge it to the base ring. Returns the new tip.
    pub fn generate(&self, mesh: &mut Mesh, base: &Vec<usize>) -> (r: BranchBase)
        requires
            old(mesh).wf(),
            1 <= self.res <= 64,
            base@.len() == self.res,
            forall|i: int| 0 <= i < base@.len() ==> (#[trigger] base@[i]) < old(mesh).vertices@.len(),
            self.position.bounded(TREE_POS_BOUND as int - 16777216),
            self.rotation.bounded(ANG_BOUND as int),
            0 <= self.radius <= DIM_MAX,
            0 <= self.length <= DIM_MAX,
            old(mesh).vertices@.len() + self.res <= VERT_CAP,
            old(mesh).indices@.len() + 6 * self.res <= IDX_CAP,
        ensures
            final(mesh).wf(),
            final(mesh).vertices@.len() == old(mesh).vertices@.len() + self.res,
            final(mesh).indices@.len() == old(mesh).indices@.len() + 6 * self.res,
            final(mesh).vertices_dirty,
            final(mesh).indices_dirty,
            r.position == branch_tip(self.position, self.rotation, self.length),
            r.position.bounded(TREE_POS_BOUND as int),
            r.rotation == self.rotation,
            r.indices@.len() == self.res,
            forall|k: int|
                0 <= k < self.res ==> (#[trigger] r.indices@[k]) == old(mesh).vertices@.len() + k,
            r.indices@ == consec(old(mesh).vertices@.len() as int, self.res as int),
            final(mesh).indices@ == old(mesh).indices@ + bridge_seq(
                base@,
                consec(old(mesh).vertices@.len() as int, self.res as int),
            ),
            forall|k: int|
                0 <= k < self.res ==> final(mesh).vertices@[old(mesh).vertices@.len() + k]
                    == branch_ring_vertex(
                    self.color,
                    self.radius,
                    self.res as int,
                    self.rotation,
                    r.position,
                    k,
                ),
            forall|k: int|
                0 <= k < old(mesh).vertices@.len() ==> final(mesh).vertices@[k] == old(
                    mesh,
                ).vertices@[k],
            forall|i: int| 0 <= i < old(mesh).indices@.len() ==> final(mesh).indices@[i] == old(
                mesh,
            ).indices@[i],
            forall|i: int|
                0 <= i < self.res ==> bridged(
                    final(mesh).indices@,
                    old(mesh).indices@.len() as int,
                    base@,
                    r.indices@,
                    i,
                ),
    {
        let mut ring = Ring::new(self.color, self.radius, self.res);
        let (ex, ez) = euler_rot(self.rotation);
        ring.rotate(ex, ez);

        let up = Vec3Fx { x: 0, y: 65536, z: 0 };
        let rz = crate::vec3::rot_z(up, ez);
        proof {
            lemma_rot_z_bound(up, ez as int, 65536);
        }
        let dir = crate::vec3::rot_x(rz, ex);
        proof {
            lemma_rot_x_bound(rot_z_spec(up, ez as int), ex as int, 131072);
            assert(-(16777216 * 65536) <= dir.x as int * self.length as int <= 16777216 * 65536
                && -(16777216 * 65536) <= dir.y as int * self.length as int <= 16777216 * 65536
                && -(16777216 * 65536) <= dir.z as int * self.length as int <= 16777216 * 65536)
                by (nonlinear_arith)
                requires
                    dir.bounded(262144),
                    0 <= self.length <= 4194304,
            ;
            lemma_tdiv_mag(dir.x as int * self.length as int, 65536, 16777216);
            lemma_tdiv_mag(dir.y as int * self.length as int, 65536, 16777216);
            lemma_tdiv_mag(dir.z as int * self.length as int, 65536, 16777216);
        }
        let step = Vec3Fx {
            x: fx::mul_div(dir.x, self.length, fx::SCALE),
            y: fx::mul_div(dir.y, self.length, fx::SCALE),
            z: fx::mul_div(dir.z, self.length, fx::SCALE),
        };
        let position = self.position.vadd(step);
        assert(position == branch_tip(self.position, self.rotation, self.length));

        ring.translate(position);
        proof {
            assert forall|k: int| 0 <= k < ring.vertices@.len() implies (
            #[trigger] ring.vertices@[k]).position.bounded(POS_BOUND as int) by {
                assert(ring.vertices@[k].position.bounded(
                    TREE_POS_BOUND as int + 4 * DIM_MAX as int,
                ));
            }
        }
        let ghost oldv = mesh.vertices@.len() as int;
        let indices = ring.insert(mesh);
        proof {
            assert forall|k: int| 0 <= k < self.res implies mesh.vertices@[oldv + k]
                == branch_ring_vertex(
                self.color,
                self.radius,
                self.res as int,
                self.rotation,
                position,
                k,
            ) by {
                assert(mesh.vertices@[oldv + k] == ring.vertices@[k]);
            }
            assert forall|i: int| 0 <= i < indices@.len() implies (#[trigger] indices@[i])
                < mesh.vertices@.len() by {
                assert(indices@[i] == oldv + i);
            }
        }
        proof {
            assert(indices@ =~= consec(oldv, self.res as int));
        }
        bridge_loops(mesh, base, &indices);

        BranchBase { indices, position, rotation: self.rotation }
    }
}


/// One index entry of a sphere's triangle cell `c`: two triangles per
/// cell of the five inter-band strips.
pub open spec fn sphere_entry(v0: int, c: int, e: int) -> u32 {
    let i = c / 6;
    let j = c % 6;
    let i0 = i * 6 + j;
    let i1 = i * 6 + (j + 1) % 6;
    let j0 = i0 + 6;
    let j1 = i1 + 6;
    if e == 0 {
        (v0 + i0) as u32
    } else if e == 1 {
        (v0 + j0) as u32
    } else if e == 2 {
        (v0 + i1) as u32
    } else if e == 3 {
        (v0 + i1) as u32
    } else if e == 4 {
        (v0 + j0) as u32
    } else {
        (v0 + j1) as u32
    }
}

/// The whole index block a sphere emits over its 36 vertices at `v0`.
pub open spec fn sphere_idx_seq(v0: int) -> Seq<u32> {
    Seq::new(180, |k: int| sphere_entry(v0, k / 6, k % 6))
}

/// The `k`-th vertex of a sphere: six latitude bands (`k / 6`) of six
/// segments (`k % 6`) around the center, at the given radius.
pub open spec fn sphere_vertex(center: Vec3Fx, radius: i64, color: Color, k: int) -> Vertex {
    let i = k / 6;
    let j = k % 6;
    let h = tdiv(i * 131072, 5) - 65536;
    let t = sqrt_spec(65536 * 65536 - h * h);
    let a = tdiv(j * 65536, 6);
    Vertex {
        position: Vec3Fx {
            x: (center.x + muldiv(muldiv(cos_spec(a), t, 65536), radius as int, 65536)) as i64,
            y: (center.y + muldiv(h, radius as int, 65536)) as i64,
            z: (center.z + muldiv(muldiv(sin_spec(a), t, 65536), radius as int, 65536)) as i64,
        },
        normal: Vec3Fx { x: 0i64, y: 0i64, z: 0i64 },
        uv: Vec2Fx { x: 0i64, y: 0i64 },
        color,
    }
}

/// The whole vertex block a sphere emits.
pub open spec fn sphere_verts_seq(center: Vec3Fx, radius: i64, color: Color) -> Seq<Vertex> {
    Seq::new(36, |k: int| sphere_vertex(center, radius, color, k))
}

/// All six entries of sphere cell `c` stand at their place.
pub open spec fn sphere_cell_ok(idx: Seq<u32>, start: int, v0: int, c: int) -> bool {
    &&& idx[start + 6 * c] == sphere_entry(v0, c, 0)
    &&& idx[start + 6 * c + 1] == sphere_entry(v0, c, 1)
    &&& idx[start + 6 * c + 2] == sphere_entry(v0, c, 2)
    &&& idx[start + 6 * c + 3] == sphere_entry(v0, c, 3)
    &&& idx[start + 6 * c + 4] == sphere_entry(v0, c, 4)
    &&& idx[start + 6 * c + 5] == sphere_entry(v0, c, 5)
}

/// Append a closed latitude/longitude sphere (six bands by six segments,
/// fixed topology) in the given color: exactly 36 vertices and 60
/// triangles, whose indices reference only the sphere's own vertices.
pub fn sphere(mesh: &mut Mesh, center: Vec3Fx, radius: i64, color: Color)
    requires
        old(mesh).wf(),
        center.bounded(TREE_POS_BOUND as int),
        0 < radius <= LEAF_MAX,
        old(mesh).vertices@.len() + 36 <= VERT_CAP,
        old(mesh).indices@.len() + 180 <= IDX_CAP,
    ensures
        final(mesh).wf(),
        final(mesh).vertices@.len() == old(mesh).vertices@.len() + 36,
        final(mesh).indices@.len() == old(mesh).indices@.len() + 180,
        final(mesh).indices@ == old(mesh).indices@ + sphere_idx_seq(
            old(mesh).vertices@.len() as int,
        ),
        final(mesh).vertices@ == old(mesh).vertices@ + sphere_verts_seq(center, radius, color),
        forall|k: int|
            0 <= k < old(mesh).vertices@.len() ==> final(mesh).vertices@[k] == old(
                mesh,
            ).vertices@[k],
        forall|k: int| 0 <= k < old(mesh).indices@.len() ==> final(mesh).indices@[k] == old(
            mesh,
        ).indices@[k],
        forall|k: int|
            old(mesh).vertices@.len() <= k < final(mesh).vertices@.len() ==> (
            #[trigger] final(mesh).vertices@[k]).color == color,
        forall|k: int|
            old(mesh).indices@.len() <= k < final(mesh).indices@.len() ==> old(
                mesh,
            ).vertices@.len() <= (#[trigger] final(mesh).indices@[k])
                < old(mesh).vertices@.len() + 36,
        final(mesh).vertices_dirty,
        final(mesh).indices_dirty,
{
    let v0 = mesh.vertex_count();
    let ghost verts0 = mesh.vertices@;
    let ghost idx0 = mesh.indices@;

    // Vertices: six latitude bands of six segments each.
    let mut i: usize = 0;
    while i < 6
        invariant
            i <= 6,
            mesh.wf(),
            center.bounded(TREE_POS_BOUND as int),
            0 < radius <= LEAF_MAX,
            v0 == verts0.len(),
            verts0.len() + 36 <= VERT_CAP,
            mesh.vertices@.len() == verts0.len() + 6 * i,
            mesh.indices@ == idx0,
            idx0.len() + 180 <= IDX_CAP,
            mesh.indices_dirty == old(mesh).indices_dirty,
            forall|k: int| 0 <= k < verts0.len() ==> mesh.vertices@[k] == verts0[k],
            forall|k: int|
                verts0.len() <= k < mesh.vertices@.len() ==> (
                #[trigger] mesh.vertices@[k]).color == color,
            forall|k: int|
                0 <= k < 6 * i ==> mesh.vertices@[verts0.len() + k] == sphere_vertex(
                    center,
                    radius,
                    color,
                    k,
                ),
            i > 0 ==> mesh.vertices_dirty,
            i == 0 ==> mesh.vertices_dirty == old(mesh).vertices_dirty,
        decreases 6 - i,
    {
        proof {
            lemma_tdiv_mag((i as i64) * 131072 as int, 5, 131072);
        }
        let h = fx::sdiv((i as i64) * 131072, 5) - 65536;
        proof {
            assert(0 <= h * h <= 65536 * 65536 && 65536 * 65536 == 4294967296)
                by (nonlinear_arith)
                requires
                    -65536 <= h <= 65536,
            ;
        }
        let n2: u64 = (65536i64 * 65536 - h * h) as u64;
        let t = fx::isqrt(n2) as i64;
        proof {
            assert(t <= 65536) by (nonlinear_arith)
                requires
                    t >= 0,
                    t * t <= 65536 * 65536,
            ;
        }
        let mut j: usize = 0;
        while j < 6
            invariant
                j <= 6,
                i < 6,
                mesh.wf(),
                center.bounded(TREE_POS_BOUND as int),
                0 < radius <= LEAF_MAX,
                0 <= t <= 65536,
                v0 == verts0.len(),
                verts0.len() + 36 <= VERT_CAP,
                mesh.vertices@.len() == verts0.len() + 6 * i + j,
                mesh.indices@ == idx0,
                idx0.len() + 180 <= IDX_CAP,
                mesh.indices_dirty == old(mesh).indices_dirty,
                forall|k: int| 0 <= k < verts0.len() ==> mesh.vertices@[k] == verts0[k],
                forall|k: int|
                    verts0.len() <= k < mesh.vertices@.len() ==> (
                    #[trigger] mesh.vertices@[k]).color == color,
                forall|k: int|
                    0 <= k < 6 * i + j ==> mesh.vertices@[verts0.len() + k] == sphere_vertex(
                        center,
                        radius,
                        color,
                        k,
                    ),
                i > 0 || j > 0 ==> mesh.vertices_dirty,
                i == 0 && j == 0 ==> mesh.vertices_dirty == old(mesh).vertices_dirty,
                -65536 <= h <= 65536,
                h == tdiv(i as int * 131072, 5) - 65536,
                t == sqrt_spec(65536 * 65536 - h * h),
            decreases 6 - j,
        {
            let a = fx::sdiv((j as i64) * 65536, 6);
            proof {
                lemma_tdiv_mag((j as i64) * 65536 as int, 6, 65536);
                fx::lemma_sin_bounds(a as int);
                fx::lemma_sin_bounds(a as int + 16384);
                lemma_muldiv_ratio2(cos_spec(a as int), t as int, 65536, 65536);
                lemma_muldiv_ratio2(sin_spec(a as int), t as int, 65536, 65536);
            }
            let ct = fx::mul_div(fx::cos_fx(a), t, fx::SCALE);
            let st = fx::mul_div(fx::sin_fx(a), t, fx::SCALE);
            proof {
                lemma_muldiv_ratio2(ct as int, radius as int, 65536, LEAF_MAX as int);
                lemma_muldiv_ratio2(st as int, radius as int, 65536, LEAF_MAX as int);
                lemma_muldiv_ratio2(h as int, radius as int, 65536, LEAF_MAX as int);
            }
            let px = center.x + fx::mul_div(ct, radius, fx::SCALE);
            let py = center.y + fx::mul_div(h, radius, fx::SCALE);
            let pz = center.z + fx::mul_div(st, radius, fx::SCALE);
            let ghost pre = mesh.vertices@;
            let ghost kk = 6 * i as int + j as int;
            mesh.push_vertex(
                Vertex {
                    position: Vec3Fx { x: px, y: py, z: pz },
                    normal: Vec3Fx { x: 0, y: 0, z: 0 },
                    uv: Vec2Fx { x: 0, y: 0 },
                    color,
                },
            );
            proof {
                assert forall|k: int| 0 <= k < verts0.len() implies mesh.vertices@[k] == verts0[k] by {
                    assert(mesh.vertices@[k] == pre[k]);
                }
                assert(kk == (i as int) * 6 + j as int) by (nonlinear_arith)
                    requires
                        kk == 6 * i as int + j as int,
                ;
                vstd::arithmetic::div_mod::lemma_fundamental_div_mod_converse(
                    kk,
                    6,
                    i as int,
                    j as int,
                );
                vstd::arithmetic::div_mod::lemma_fundamental_div_mod_converse_div(
                    kk,
                    6,
                    i as int,
                    j as int,
                );
                assert(mesh.vertices@[verts0.len() + kk] == sphere_vertex(center, radius, color, kk));
                assert forall|k: int| 0 <= k < 6 * i + j + 1 implies mesh.vertices@[verts0.len()
                    + k] == sphere_vertex(center, radius, color, k) by {
                    if k < 6 * i + j {
                        assert(mesh.vertices@[verts0.len() + k] == pre[verts0.len() + k]);
                    }
                }
            }
            j = j + 1;
        }
        i = i + 1;
    }

    // Triangles: two per cell of the five inter-band strips.
    let mut i2: usize = 0;
    while i2 < 5
        invariant
            i2 <= 5,
            mesh.wf(),
            v0 == verts0.len(),
            mesh.vertices@.len() == verts0.len() + 36,
            mesh.indices@.len() == idx0.len() + 36 * i2,
            idx0.len() + 180 <= IDX_CAP,
            mesh.vertices_dirty,
            forall|k: int| 0 <= k < verts0.len() ==> mesh.vertices@[k] == verts0[k],
            forall|k: int|
                verts0.len() <= k < mesh.vertices@.len() ==> (
                #[trigger] mesh.vertices@[k]).color == color,
            forall|k: int|
                0 <= k < 36 ==> mesh.vertices@[verts0.len() + k] == sphere_vertex(
                    center,
                    radius,
                    color,
                    k,
                ),
            forall|k: int| 0 <= k < idx0.len() ==> mesh.indices@[k] == idx0[k],
            forall|k: int|
                idx0.len() <= k < mesh.indices@.len() ==> verts0.len() <= (
                #[trigger] mesh.indices@[k]) < verts0.len() + 36,
            forall|c: int|
                0 <= c < 6 * i2 ==> sphere_cell_ok(mesh.indices@, idx0.len() as int, v0 as int, c),
            i2 > 0 ==> mesh.indices_dirty,
            i2 == 0 ==> mesh.indices_dirty == old(mesh).indices_dirty,
        decreases 5 - i2,
    {
        let mut j2: usize = 0;
        while j2 < 6
            invariant
                j2 <= 6,
                i2 < 5,
                mesh.wf(),
                v0 == verts0.len(),
                mesh.vertices@.len() == verts0.len() + 36,
                mesh.indices@.len() == idx0.len() + 36 * i2 + 6 * j2,
                idx0.len() + 180 <= IDX_CAP,
                mesh.vertices_dirty,
                forall|k: int| 0 <= k < verts0.len() ==> mesh.vertices@[k] == verts0[k],
                forall|k: int|
                    verts0.len() <= k < mesh.vertices@.len() ==> (
                    #[trigger] mesh.vertices@[k]).color == color,
                forall|k: int|
                    0 <= k < 36 ==> mesh.vertices@[verts0.len() + k] == sphere_vertex(
                        center,
                        radius,
                        color,
                        k,
                    ),
                forall|k: int| 0 <= k < idx0.len() ==> mesh.indices@[k] == idx0[k],
                forall|k: int|
                    idx0.len() <= k < mesh.indices@.len() ==> verts0.len() <= (
                    #[trigger] mesh.indices@[k]) < verts0.len() + 36,
                forall|c: int|
                    0 <= c < 6 * i2 + j2 ==> sphere_cell_ok(
                        mesh.indices@,
                        idx0.len() as int,
                        v0 as int,
                        c,
                    ),
                i2 > 0 || j2 > 0 ==> mesh.indices_dirty,
                i2 == 0 && j2 == 0 ==> mesh.indices_dirty == old(mesh).indices_dirty,
            decreases 6 - j2,
        {
            let i0 = i2 * 6 + j2;
            let i1 = i2 * 6 + (j2 + 1) % 6;
            let j0 = i0 + 6;
            let j1 = i1 + 6;
            let ghost pre = mesh.indices@;
            let ghost c = 6 * i2 + j2;
            mesh.push_tri((v0 + i0) as u32, (v0 + j0) as u32, (v0 + i1) as u32);
            mesh.push_tri((v0 + i1) as u32, (v0 + j0) as u32, (v0 + j1) as u32);
            proof {
                assert forall|k: int| 0 <= k < idx0.len() implies mesh.indices@[k] == idx0[k] by {
                    assert(mesh.indices@[k] == pre[k]);
                }
                assert(c == (i2 as int) * 6 + j2 as int && 6 * c == 36 * (i2 as int) + 6 * (
                j2 as int)) by (nonlinear_arith)
                    requires
                        c == 6 * i2 + j2,
                ;
                vstd::arithmetic::div_mod::lemma_fundamental_div_mod_converse(
                    c,
                    6,
                    i2 as int,
                    j2 as int,
                );
                vstd::arithmetic::div_mod::lemma_fundamental_div_mod_converse_div(
                    c,
                    6,
                    i2 as int,
                    j2 as int,
                );
                assert(sphere_cell_ok(mesh.indices@, idx0.len() as int, v0 as int, c));
                assert forall|cc: int| 0 <= cc < c + 1 implies sphere_cell_ok(
                    mesh.indices@,
                    idx0.len() as int,
                    v0 as int,
                    cc,
                ) by {
                    if cc < c {
                        assert(sphere_cell_ok(pre, idx0.len() as int, v0 as int, cc));
                        assert(mesh.indices@[idx0.len() + 6 * cc] == pre[idx0.len() + 6 * cc]);
                        assert(mesh.indices@[idx0.len() + 6 * cc + 1] == pre[idx0.len() + 6 * cc + 1]);
                        assert(mesh.indices@[idx0.len() + 6 * cc + 2] == pre[idx0.len() + 6 * cc + 2]);
                        assert(mesh.indices@[idx0.len() + 6 * cc + 3] == pre[idx0.len() + 6 * cc + 3]);
                        assert(mesh.indices@[idx0.len() + 6 * cc + 4] == pre[idx0.len() + 6 * cc + 4]);
                        assert(mesh.indices@[idx0.len() + 6 * cc + 5] == pre[idx0.len() + 6 * cc + 5]);
                    }
                }
            }
            j2 = j2 + 1;
        }
        i2 = i2 + 1;
    }
    proof {
        let fin = mesh.indices@;
        let ss = sphere_idx_seq(v0 as int);
        assert forall|k: int| 0 <= k < 180 implies fin[idx0.len() + k] == ss[k] by {
            vstd::arithmetic::div_mod::lemma_fundamental_div_mod(k, 6);
            vstd::arithmetic::div_mod::lemma_mod_bound(k, 6);
            let c = k / 6;
            let e = k % 6;
            assert(0 <= c < 30) by (nonlinear_arith)
                requires
                    6 * c + e == k,
                    0 <= e < 6,
                    0 <= k < 180,
            ;
            assert(sphere_cell_ok(fin, idx0.len() as int, v0 as int, c));
            assert(ss[k] == sphere_entry(v0 as int, c, e));
        }
        assert(mesh.indices@ =~= idx0 + sphere_idx_seq(v0 as int));
        assert(mesh.vertices@ =~= verts0 + sphere_verts_seq(center, radius, color));
    }
}

/// Children spawned per branch at each decay level: three at the trunk,
/// two at the next two levels, one beyond.
pub open spec fn child_count(level: int) -> int {
    if level == 0 {
        3
    } else if level < 3 {
        2
    } else {
        1
    }
}

/// Branch bases alive at the start of each level.
pub open spec fn bases_at(level: int) -> int
    decreases level,
{
    if level <= 0 {
        1
    } else {
        bases_at(level - 1) * child_count(level - 1)
    }
}

/// Rings inserted before a level starts (the base ring included).
pub open spec fn rings_upto(level: int) -> int
    decreases level,
{
    if level <= 0 {
        1
    } else {
        rings_upto(level - 1) + bases_at(level - 1)
    }
}

/// Random draws consumed before a level starts: two per child spawned at
/// the levels past the trunk.
pub open spec fn draws_upto(level: int) -> int
    decreases level,
{
    if level <= 0 {
        0
    } else {
        draws_upto(level - 1) + (if level - 1 >= 1 {
            2 * child_count(level - 1) * bases_at(level - 1)
        } else {
            0
        })
    }
}

/// The concrete level-count table for the five levels a tree can have.
pub proof fn lemma_counts(l: int)
    requires
        0 <= l <= 5,
    ensures
        bases_at(l) == (if l == 0 {
            1int
        } else if l == 1 {
            3int
        } else if l == 2 {
            6int
        } else {
            12int
        }),
        rings_upto(l) == (if l == 0 {
            1int
        } else if l == 1 {
            2int
        } else if l == 2 {
            5int
        } else if l == 3 {
            11int
        } else if l == 4 {
            23int
        } else {
            35int
        }),
        draws_upto(l) == (if l <= 1 {
            0int
        } else if l == 2 {
            12int
        } else if l == 3 {
            36int
        } else if l == 4 {
            60int
        } else {
            84int
        }),
    decreases l,
{
    if l > 0 {
        lemma_counts(l - 1);
    }
}

/// A verified element-for-element copy of a ring index list.
fn copy_indices(v: &Vec<usize>) -> (r: Vec<usize>)
    ensures
        r@ == v@,
{
    let n = v.len();
    let mut r: Vec<usize> = Vec::new();
    let mut k: usize = 0;
    while k < n
        invariant
            k <= n,
            n == v@.len(),
            r@ == v@.take(k as int),
        decreases n - k,
    {
        r.push(v[k]);
        proof {
            assert(r@ =~= v@.take(k as int + 1));
        }
        k = k + 1;
    }
    proof {
        assert(v@.take(n as int) =~= v@);
    }
    r
}

/// The ring index lists of a base list.
pub open spec fn rings_of(bs: Seq<BranchBase>) -> Seq<Seq<usize>> {
    Seq::new(bs.len(), |b: int| bs[b].indices@)
}

/// One ring repeated `n` times: the children of a fork share their
/// parent's new ring.
pub open spec fn ring_copies(ring: Seq<usize>, n: int) -> Seq<Seq<usize>> {
    Seq::new(n as nat, |k: int| ring)
}

/// The spec-level state of topology generation: the emitted index buffer,
/// the vertex count so far, and the rings handed to the next level.
pub struct TopoSt {
    pub inds: Seq<u32>,
    pub vlen: int,
    pub rings: Seq<Seq<usize>>,
}

/// Topology after processing the first `k` bases of a level: each base
/// bridges to a fresh five-vertex ring and forks into `cc` children that
/// share it.
pub open spec fn topo_bases(
    inds: Seq<u32>,
    vlen: int,
    cur: Seq<Seq<usize>>,
    k: int,
    cc: int,
) -> TopoSt
    decreases k,
{
    if k <= 0 {
        TopoSt { inds, vlen, rings: Seq::empty() }
    } else {
        let p = topo_bases(inds, vlen, cur, k - 1, cc);
        let ring = consec(p.vlen, 5);
        TopoSt {
            inds: p.inds + bridge_seq(cur[k - 1], ring),
            vlen: p.vlen + 5,
            rings: p.rings + ring_copies(ring, cc),
        }
    }
}

/// One whole level: every current base processed, at that level's child
/// count.
pub open spec fn topo_level_step(st: TopoSt, level: int) -> TopoSt {
    topo_bases(st.inds, st.vlen, st.rings, st.rings.len() as int, child_count(level))
}

/// Topology after running the levels `level .. levels`.
pub open spec fn topo_levels(
    inds: Seq<u32>,
    vlen: int,
    cur: Seq<Seq<usize>>,
    level: int,
    levels: int,
) -> TopoSt
    decreases levels - level,
{
    if level >= levels {
        TopoSt { inds, vlen, rings: cur }
    } else {
        let st = topo_bases(inds, vlen, cur, cur.len() as int, child_count(level));
        topo_levels(st.inds, st.vlen, st.rings, level + 1, levels)
    }
}

/// Peeling a level off the back: the levels fold extended by one more
/// level equals one level step after the shorter fold.
pub proof fn lemma_topo_levels_snoc(
    inds: Seq<u32>,
    vlen: int,
    cur: Seq<Seq<usize>>,
    l: int,
    levels: int,
)
    requires
        l <= levels,
    ensures
        topo_levels(inds, vlen, cur, l, levels + 1) == topo_level_step(
            topo_levels(inds, vlen, cur, l, levels),
            levels,
        ),
    decreases levels - l,
{
    let st = topo_bases(inds, vlen, cur, cur.len() as int, child_count(l));
    if l < levels {
        lemma_topo_levels_snoc(st.inds, st.vlen, st.rings, l + 1, levels);
    } else {
        assert(topo_levels(inds, vlen, cur, l, levels + 1) == topo_levels(
            st.inds,
            st.vlen,
            st.rings,
            l + 1,
            levels + 1,
        ));
        assert(topo_levels(st.inds, st.vlen, st.rings, l + 1, levels + 1) == (TopoSt {
            inds: st.inds,
            vlen: st.vlen,
            rings: st.rings,
        }));
        assert((TopoSt { inds: st.inds, vlen: st.vlen, rings: st.rings }) == st);
        assert(topo_levels(inds, vlen, cur, l, levels) == (TopoSt { inds, vlen, rings: cur }));
    }
}

/// Indices after appending `n` leaf spheres, each claiming 36 vertices.
pub open spec fn topo_spheres(inds: Seq<u32>, vlen: int, n: int) -> Seq<u32>
    decreases n,
{
    if n <= 0 {
        inds
    } else {
        topo_spheres(inds, vlen, n - 1) + sphere_idx_seq(vlen + 36 * (n - 1))
    }
}

/// The full index buffer a `levels`-level growth emits. It is a function
/// of the level count alone: branch angles, radii and lengths never touch
/// the topology.
pub open spec fn grow_topology(levels: int) -> Seq<u32> {
    let st = topo_levels(Seq::empty(), 5, seq![consec(0, 5)], 0, levels);
    topo_spheres(st.inds, st.vlen, 12)
}

/// A spec-level branch base: its ring's vertex indices, tip position and
/// orientation.
pub struct GenBase {
    pub ring: Seq<usize>,
    pub pos: Vec3Fx,
    pub rot: Vec3Fx,
}

/// The spec-level bases of a base list.
pub open spec fn gens_of(bs: Seq<BranchBase>) -> Seq<GenBase> {
    Seq::new(bs.len(), |b: int| GenBase { ring: bs[b].indices@, pos: bs[b].position, rot: bs[b].rotation })
}

/// The spec-level state of full generation: both buffers, the bases of the
/// next level, the draws consumed, and the level's ring radius.
pub struct GenSt {
    pub verts: Seq<Vertex>,
    pub inds: Seq<u32>,
    pub bases: Seq<GenBase>,
    pub di: int,
    pub radius: i64,
}

/// Child `j` of a fresh segment tip: at the trunk level the children
/// spread evenly around the axis, pitched slightly outward; past it each
/// child perturbs the parent orientation by its own two draws.
pub open spec fn gen_child(
    nb: GenBase,
    level: int,
    cc: int,
    j: int,
    draws: Seq<i64>,
    di: int,
) -> GenBase {
    if level == 0 {
        GenBase {
            ring: nb.ring,
            pos: nb.pos,
            rot: Vec3Fx {
                x: (nb.rot.x - 1043) as i64,
                y: tdiv(j * 65536, cc) as i64,
                z: nb.rot.z,
            },
        }
    } else {
        GenBase {
            ring: nb.ring,
            pos: nb.pos,
            rot: Vec3Fx {
                x: (nb.rot.x - draws[di + 2 * j + 1]) as i64,
                y: (nb.rot.y + draws[di + 2 * j]) as i64,
                z: nb.rot.z,
            },
        }
    }
}

/// One base processed: a fresh ring at the tip, bridged to the base ring,
/// and `cc` children forked from the tip.
pub open spec fn gen_base_step(
    st: GenSt,
    b: GenBase,
    level: int,
    cc: int,
    seg: i64,
    color: Color,
    draws: Seq<i64>,
) -> GenSt {
    let tip = branch_tip(b.pos, b.rot, seg);
    let ring_idx = consec(st.verts.len() as int, 5);
    let nb = GenBase { ring: ring_idx, pos: tip, rot: b.rot };
    GenSt {
        verts: st.verts + Seq::new(
            5,
            |k: int| branch_ring_vertex(color, st.radius, 5, b.rot, tip, k),
        ),
        inds: st.inds + bridge_seq(b.ring, ring_idx),
        bases: st.bases + Seq::new(cc as nat, |j: int| gen_child(nb, level, cc, j, draws, st.di)),
        di: st.di + (if level >= 1 { 2 * cc } else { 0 }),
        radius: st.radius,
    }
}

/// The first `k` bases of a level processed.
pub open spec fn gen_bases(
    inds: Seq<u32>,
    verts: Seq<Vertex>,
    di: int,
    radius: i64,
    cur: Seq<GenBase>,
    k: int,
    level: int,
    cc: int,
    seg: i64,
    color: Color,
    draws: Seq<i64>,
) -> GenSt
    decreases k,
{
    if k <= 0 {
        GenSt { verts, inds, bases: Seq::empty(), di, radius }
    } else {
        let p = gen_bases(inds, verts, di, radius, cur, k - 1, level, cc, seg, color, draws);
        gen_base_step(p, cur[k - 1], level, cc, seg, color, draws)
    }
}

/// The levels `level .. levels` processed, tapering the radius by `decay`
/// after each.
pub open spec fn gen_levels(
    inds: Seq<u32>,
    verts: Seq<Vertex>,
    di: int,
    radius: i64,
    cur: Seq<GenBase>,
    level: int,
    levels: int,
    decay: i64,
    seg: i64,
    color: Color,
    draws: Seq<i64>,
) -> GenSt
    decreases levels - level,
{
    if level >= levels {
        GenSt { verts, inds, bases: cur, di, radius }
    } else {
        let st = gen_bases(
            inds,
            verts,
            di,
            radius,
            cur,
            cur.len() as int,
            level,
            child_count(level),
            seg,
            color,
            draws,
        );
        gen_levels(
            st.inds,
            st.verts,
            st.di,
            muldiv(st.radius as int, decay as int, 65536) as i64,
            st.bases,
            level + 1,
            levels,
            decay,
            seg,
            color,
            draws,
        )
    }
}

/// Peeling a level off the back of the full generation fold.
pub proof fn lemma_gen_levels_snoc(
    inds: Seq<u32>,
    verts: Seq<Vertex>,
    di: int,
    radius: i64,
    cur: Seq<GenBase>,
    l: int,
    levels: int,
    decay: i64,
    seg: i64,
    color: Color,
    draws: Seq<i64>,
)
    requires
        l <= levels,
    ensures
        gen_levels(inds, verts, di, radius, cur, l, levels + 1, decay, seg, color, draws) == ({
            let st = gen_levels(inds, verts, di, radius, cur, l, levels, decay, seg, color, draws);
            let st2 = gen_bases(
                st.inds,
                st.verts,
                st.di,
                st.radius,
                st.bases,
                st.bases.len() as int,
                levels,
                child_count(levels),
                seg,
                color,
                draws,
            );
            GenSt {
                verts: st2.verts,
                inds: st2.inds,
                bases: st2.bases,
                di: st2.di,
                radius: muldiv(st2.radius as int, decay as int, 65536) as i64,
            }
        }),
    decreases levels - l,
{
    let st1 = gen_bases(
        inds,
        verts,
        di,
        radius,
        cur,
        cur.len() as int,
        l,
        child_count(l),
        seg,
        color,
        draws,
    );
    if l < levels {
        lemma_gen_levels_snoc(
            st1.inds,
            st1.verts,
            st1.di,
            muldiv(st1.radius as int, decay as int, 65536) as i64,
            st1.bases,
            l + 1,
            levels,
            decay,
            seg,
            color,
            draws,
        );
    } else {
        let r2 = muldiv(st1.radius as int, decay as int, 65536) as i64;
        assert(gen_levels(inds, verts, di, radius, cur, l, levels + 1, decay, seg, color, draws)
            == gen_levels(
            st1.inds,
            st1.verts,
            st1.di,
            r2,
            st1.bases,
            l + 1,
            levels + 1,
            decay,
            seg,
            color,
            draws,
        ));
        assert(gen_levels(
            st1.inds,
            st1.verts,
            st1.di,
            r2,
            st1.bases,
            l + 1,
            levels + 1,
            decay,
            seg,
            color,
            draws,
        ) == (GenSt { verts: st1.verts, inds: st1.inds, bases: st1.bases, di: st1.di, radius: r2 }));
        assert(gen_levels(inds, verts, di, radius, cur, l, levels, decay, seg, color, draws) == (
        GenSt { verts, inds, bases: cur, di, radius }));
    }
}

/// The geometry the leaf spheres add after the levels: one sphere per
/// surviving base, in order.
pub open spec fn gen_spheres(
    verts: Seq<Vertex>,
    bases: Seq<GenBase>,
    n: int,
    leaf_radius: i64,
    leaf_color: Color,
) -> Seq<Vertex>
    decreases n,
{
    if n <= 0 {
        verts
    } else {
        gen_spheres(verts, bases, n - 1, leaf_radius, leaf_color) + sphere_verts_seq(
            bases[n - 1].pos,
            leaf_radius,
            leaf_color,
        )
    }
}

/// Everything a `levels`-level growth leaves in the vertex buffer: a
/// function of the shape parameters and the draws alone.
pub open spec fn grow_geometry(
    base_radius: i64,
    branch_radius: i64,
    decay: i64,
    seg: i64,
    levels: int,
    leaf_radius: i64,
    trunk_color: Color,
    leaf_color: Color,
    draws: Seq<i64>,
) -> Seq<Vertex> {
    let base0 = GenBase {
        ring: consec(0, 5),
        pos: Vec3Fx { x: 0i64, y: 0i64, z: 0i64 },
        rot: Vec3Fx { x: 0i64, y: 0i64, z: 0i64 },
    };
    let init = Seq::new(5, |k: int| ring_vertex(trunk_color, base_radius, 5, k));
    let st = gen_levels(
        Seq::empty(),
        init,
        0,
        branch_radius,
        seq![base0],
        0,
        levels,
        decay,
        seg,
        trunk_color,
        draws,
    );
    gen_spheres(st.verts, st.bases, 12, leaf_radius, leaf_color)
}

/// Every base in the list has a full ring of valid vertex indices and
/// bounded position and orientation.
pub open spec fn base_ok(b: BranchBase, vbound: int, posb: int, rotb: int) -> bool {
    &&& b.indices@.len() == 5
    &&& forall|k: int| 0 <= k < 5 ==> (#[trigger] b.indices@[k]) < vbound
    &&& b.position.bounded(posb)
    &&& b.rotation.bounded(rotb)
}

/// The shared recursive generator: a base ring, `levels` decay levels of
/// bridged branch segments forking by the per-level child counts, then one
/// leaf sphere per surviving branch tip. Level-zero children spread evenly
/// around the trunk axis; later children perturb their parent's
/// orientation by the supplied draws, two per child.
#[verifier::rlimit(100)]
fn grow(
    mesh: &mut Mesh,
    trunk_color: Color,
    leaf_color: Color,
    base_radius: i64,
    branch_radius: i64,
    decay: i64,
    seg_length: i64,
    levels: usize,
    leaf_radius: i64,
    draws: &Vec<i64>,
)
    requires
        old(mesh).wf(),
        old(mesh).vertices@.len() == 0,
        old(mesh).indices@.len() == 0,
        old(mesh).vertices_dirty,
        old(mesh).indices_dirty,
        0 <= base_radius <= DIM_MAX,
        0 <= branch_radius <= DIM_MAX,
        0 <= decay <= 65536,
        0 <= seg_length <= DIM_MAX,
        levels == 4 || levels == 5,
        0 < leaf_radius <= LEAF_MAX,
        draws@.len() == draws_upto(levels as int),
        forall|k: int| 0 <= k < draws@.len() ==> -DRAW_BOUND <= #[trigger] draws@[k] <= DRAW_BOUND,
    ensures
        final(mesh).wf(),
        final(mesh).vertices@.len() == 5 * rings_upto(levels as int) + 432,
        final(mesh).indices@.len() == 30 * (rings_upto(levels as int) - 1) + 2160,
        final(mesh).indices@ == grow_topology(levels as int),
        final(mesh).vertices@ == grow_geometry(
            base_radius,
            branch_radius,
            decay,
            seg_length,
            levels as int,
            leaf_radius,
            trunk_color,
            leaf_color,
            draws@,
        ),
        final(mesh).vertices_dirty,
        final(mesh).indices_dirty,
{
    proof {
        lemma_counts(levels as int);
    }
    let base = Ring::new(trunk_color, base_radius, RING_RES);
    let base_indices = base.insert(mesh);
    let mut branches: Vec<BranchBase> = Vec::new();
    branches.push(
        BranchBase {
            indices: base_indices,
            position: Vec3Fx { x: 0, y: 0, z: 0 },
            rotation: Vec3Fx { x: 0, y: 0, z: 0 },
        },
    );
    let ghost base0 = GenBase {
        ring: consec(0, 5),
        pos: Vec3Fx { x: 0i64, y: 0i64, z: 0i64 },
        rot: Vec3Fx { x: 0i64, y: 0i64, z: 0i64 },
    };
    let ghost init_verts = Seq::new(5, |k: int| ring_vertex(trunk_color, base_radius, 5, k));
    proof {
        assert(branches@[0].indices@ =~= consec(0, 5));
        assert(rings_of(branches@) =~~= seq![consec(0, 5)]);
        assert(gens_of(branches@) =~~= seq![base0]);
        assert(mesh.vertices@ =~= init_verts);
    }
    let mut radius = branch_radius;
    let mut di: usize = 0;

    let mut i: usize = 0;
    while i < levels
        invariant
            levels == 4 || levels == 5,
            i <= levels,
            mesh.wf(),
            mesh.vertices_dirty,
            mesh.indices_dirty,
            mesh.vertices@.len() == 5 * rings_upto(i as int),
            mesh.indices@.len() == 30 * (rings_upto(i as int) - 1),
            branches@.len() == bases_at(i as int),
            forall|bi: int|
                0 <= bi < branches@.len() ==> base_ok(
                    #[trigger] branches@[bi],
                    5 * rings_upto(i as int),
                    16777216 * i as int,
                    65536 + 32768 * i as int,
                ),
            di == draws_upto(i as int),
            draws@.len() == draws_upto(levels as int),
            forall|k: int|
                0 <= k < draws@.len() ==> -DRAW_BOUND <= #[trigger] draws@[k] <= DRAW_BOUND,
            0 <= radius <= DIM_MAX,
            0 <= seg_length <= DIM_MAX,
            0 <= decay <= 65536,
            ({
                let st = topo_levels(Seq::<u32>::empty(), 5, seq![consec(0, 5)], 0, i as int);
                &&& mesh.indices@ == st.inds
                &&& mesh.vertices@.len() == st.vlen
                &&& rings_of(branches@) == st.rings
            }),
            ({
                let g = gen_levels(
                    Seq::<u32>::empty(),
                    init_verts,
                    0,
                    branch_radius,
                    seq![base0],
                    0,
                    i as int,
                    decay,
                    seg_length,
                    trunk_color,
                    draws@,
                );
                &&& mesh.vertices@ == g.verts
                &&& gens_of(branches@) == g.bases
                &&& di == g.di
                &&& radius == g.radius
            }),
        decreases levels - i,
    {
        proof {
            lemma_counts(i as int);
            lemma_counts(i as int + 1);
            lemma_counts(levels as int);
        }
        let ghost lst = topo_levels(Seq::<u32>::empty(), 5, seq![consec(0, 5)], 0, i as int);
        let ghost glst = gen_levels(
            Seq::<u32>::empty(),
            init_verts,
            0,
            branch_radius,
            seq![base0],
            0,
            i as int,
            decay,
            seg_length,
            trunk_color,
            draws@,
        );
        let cur = branches;
        branches = Vec::new();
        let cc: usize = if i == 0 {
            3
        } else if i < 3 {
            2
        } else {
            1
        };
        proof {
            assert(rings_of(branches@) =~~= Seq::<Seq<usize>>::empty());
            assert(topo_bases(lst.inds, lst.vlen, lst.rings, 0, cc as int).rings
                =~~= Seq::<Seq<usize>>::empty());
            assert(gens_of(branches@) =~~= Seq::<GenBase>::empty());
            assert(gen_bases(
                glst.inds,
                glst.verts,
                glst.di,
                glst.radius,
                glst.bases,
                0,
                i as int,
                cc as int,
                seg_length,
                trunk_color,
                draws@,
            ).bases =~~= Seq::<GenBase>::empty());
        }
        let cur_len = cur.len();
        let mut bi: usize = 0;
        while bi < cur_len
            invariant
                levels == 4 || levels == 5,
                i < levels,
                bi <= cur_len,
                cc == child_count(i as int),
                cur_len == bases_at(i as int),
                cur@.len() == cur_len,
                mesh.wf(),
                mesh.vertices_dirty,
                mesh.indices_dirty,
                mesh.vertices@.len() == 5 * (rings_upto(i as int) + bi),
                mesh.indices@.len() == 30 * (rings_upto(i as int) - 1 + bi),
                branches@.len() == bi * cc,
                forall|b: int|
                    0 <= b < cur@.len() ==> base_ok(
                        #[trigger] cur@[b],
                        5 * rings_upto(i as int),
                        16777216 * i as int,
                        65536 + 32768 * i as int,
                    ),
                forall|b: int|
                    0 <= b < branches@.len() ==> base_ok(
                        #[trigger] branches@[b],
                        5 * (rings_upto(i as int) + bi),
                        16777216 * (i as int + 1),
                        65536 + 32768 * (i as int + 1),
                    ),
                di == draws_upto(i as int) + (if i >= 1 {
                    2 * child_count(i as int) * bi
                } else {
                    0
                }),
                draws@.len() == draws_upto(levels as int),
                forall|k: int|
                    0 <= k < draws@.len() ==> -DRAW_BOUND <= #[trigger] draws@[k] <= DRAW_BOUND,
                0 <= radius <= DIM_MAX,
                0 <= seg_length <= DIM_MAX,
                0 <= decay <= 65536,
                lst == topo_levels(Seq::<u32>::empty(), 5, seq![consec(0, 5)], 0, i as int),
                rings_of(cur@) == lst.rings,
                ({
                    let p = topo_bases(lst.inds, lst.vlen, lst.rings, bi as int, cc as int);
                    &&& mesh.indices@ == p.inds
                    &&& mesh.vertices@.len() == p.vlen
                    &&& rings_of(branches@) == p.rings
                }),
                glst == gen_levels(
                    Seq::<u32>::empty(),
                    init_verts,
                    0,
                    branch_radius,
                    seq![base0],
                    0,
                    i as int,
                    decay,
                    seg_length,
                    trunk_color,
                    draws@,
                ),
                gens_of(cur@) == glst.bases,
                ({
                    let gp = gen_bases(
                        glst.inds,
                        glst.verts,
                        glst.di,
                        glst.radius,
                        glst.bases,
                        bi as int,
                        i as int,
                        cc as int,
                        seg_length,
                        trunk_color,
                        draws@,
                    );
                    &&& mesh.vertices@ == gp.verts
                    &&& gens_of(branches@) == gp.bases
                    &&& di == gp.di
                    &&& radius == gp.radius
                }),
            decreases cur_len - bi,
        {
            proof {
                lemma_counts(i as int);
                lemma_counts(i as int + 1);
                lemma_counts(levels as int);
                assert(base_ok(
                    cur@[bi as int],
                    5 * rings_upto(i as int),
                    16777216 * i as int,
                    65536 + 32768 * i as int,
                ));
            }
            let b = &cur[bi];
            let branch = Branch {
                position: b.position,
                rotation: b.rotation,
                res: RING_RES,
                color: trunk_color,
                radius,
                length: seg_length,
            };
            let ghost pre_vlen = mesh.vertices@.len() as int;
            let ghost p = topo_bases(lst.inds, lst.vlen, lst.rings, bi as int, cc as int);
            let ghost gp = gen_bases(
                glst.inds,
                glst.verts,
                glst.di,
                glst.radius,
                glst.bases,
                bi as int,
                i as int,
                cc as int,
                seg_length,
                trunk_color,
                draws@,
            );
            let ghost gb = gens_of(cur@)[bi as int];
            let newbase = branch.generate(mesh, &b.indices);
            proof {
                lemma_branch_tip_bound(
                    b.position,
                    b.rotation,
                    seg_length,
                    16777216 * i as int,
                );
                assert forall|k: int| 0 <= k < 5 implies (#[trigger] newbase.indices@[k]) < 5 * (
                rings_upto(i as int) + bi + 1) by {
                    assert(newbase.indices@[k] == pre_vlen + k);
                }
                assert(b.indices@ == lst.rings[bi as int]);
                assert(newbase.indices@ == consec(p.vlen, 5));
                assert(mesh.indices@ == p.inds + bridge_seq(lst.rings[bi as int], consec(p.vlen, 5)));
                assert(gb.pos == b.position && gb.rot == b.rotation && gb.ring == b.indices@);
                assert(branch.position == b.position && branch.rotation == b.rotation
                    && branch.length == seg_length && branch.radius == radius && branch.color
                    == trunk_color);
                assert(newbase.position == branch_tip(b.position, b.rotation, seg_length));
                assert(newbase.position == branch_tip(gb.pos, gb.rot, seg_length));
                assert(mesh.vertices@ =~= gp.verts + Seq::new(
                    5,
                    |k: int| branch_ring_vertex(
                        trunk_color,
                        gp.radius,
                        5,
                        gb.rot,
                        newbase.position,
                        k,
                    ),
                ));
            }
            proof {
                assert(rings_of(branches@) =~~= p.rings + ring_copies(consec(p.vlen, 5), 0));
                assert(gens_of(branches@) =~~= gp.bases + Seq::new(
                    0,
                    |jj: int| gen_child(
                        GenBase { ring: consec(p.vlen, 5), pos: newbase.position, rot: gb.rot },
                        i as int,
                        cc as int,
                        jj,
                        draws@,
                        gp.di,
                    ),
                ));
            }
            let ghost ring = consec(p.vlen, 5);
            let ghost nbg = GenBase { ring, pos: newbase.position, rot: gb.rot };
            let ghost cdi = gp.di;
            let ghost base_rings = rings_of(branches@);
            let ghost base_gens = gens_of(branches@);
            let ghost blen0 = branches@.len() as int;
            let ghost vbound = 5 * (rings_upto(i as int) + bi + 1);
            proof {
                assert(base_rings == p.rings && base_gens == gp.bases && di == cdi);
                assert(draws@.len() <= 84 && 0 <= cdi);
                if i >= 1 {
                    assert(2 * child_count(i as int) * bi + 2 * cc <= 2 * child_count(i as int)
                        * bases_at(i as int)) by (nonlinear_arith)
                        requires
                            cc == child_count(i as int),
                            0 <= bi < bases_at(i as int),
                            cc >= 1,
                    ;
                }
                assert forall|b: int| 0 <= b < blen0 implies base_ok(
                    #[trigger] branches@[b],
                    vbound,
                    16777216 * (i as int + 1),
                    65536 + 32768 * (i as int + 1),
                ) by {
                    assert(base_ok(
                        branches@[b],
                        5 * (rings_upto(i as int) + bi),
                        16777216 * (i as int + 1),
                        65536 + 32768 * (i as int + 1),
                    ));
                }
            }
            let mut j: usize = 0;
            while j < cc
                invariant
                    j <= cc,
                    1 <= cc <= 3,
                    i < 5,
                    cc == child_count(i as int),
                    i == 0 ==> cc == 3,
                    branches@.len() == blen0 + j,
                    newbase.indices@.len() == 5,
                    forall|k: int| 0 <= k < 5 ==> (#[trigger] newbase.indices@[k]) < vbound,
                    newbase.position.bounded(16777216 * (i as int + 1)),
                    newbase.rotation.bounded(65536 + 32768 * i as int),
                    newbase.indices@ == ring,
                    nbg == (GenBase { ring, pos: newbase.position, rot: newbase.rotation }),
                    i >= 1 ==> cdi + 2 * cc <= draws@.len(),
                    draws@.len() <= 84,
                    0 <= cdi,
                    base_rings.len() == blen0,
                    base_gens.len() == blen0,
                    0 <= blen0,
                    di == cdi + (if i >= 1 { 2 * j } else { 0 }),
                    forall|k: int|
                        0 <= k < draws@.len() ==> -DRAW_BOUND <= #[trigger] draws@[k]
                            <= DRAW_BOUND,
                    forall|b: int|
                        0 <= b < branches@.len() ==> base_ok(
                            #[trigger] branches@[b],
                            vbound,
                            16777216 * (i as int + 1),
                            65536 + 32768 * (i as int + 1),
                        ),
                    rings_of(branches@) == base_rings + ring_copies(ring, j as int),
                    gens_of(branches@) == base_gens + Seq::new(
                        j as nat,
                        |jj: int| gen_child(nbg, i as int, cc as int, jj, draws@, cdi),
                    ),
                decreases cc - j,
            {
                let rot: Vec3Fx;
                if i == 0 {
                    proof {
                        lemma_tdiv_mag((j as i64) * 65536 as int, cc as int, 65536);
                    }
                    let yaw = fx::sdiv((j as i64) * 65536, cc as i64);
                    rot = Vec3Fx {
                        x: newbase.rotation.x - 1043,
                        y: yaw,
                        z: newbase.rotation.z,
                    };
                    proof {
                        assert(gen_child(nbg, i as int, cc as int, j as int, draws@, cdi).rot
                            == (Vec3Fx {
                            x: (nbg.rot.x - 1043) as i64,
                            y: tdiv(j as int * 65536, cc as int) as i64,
                            z: nbg.rot.z,
                        }));
                        assert(yaw as int == tdiv(j as int * 65536, cc as int));
                        assert(rot == gen_child(nbg, i as int, cc as int, j as int, draws@, cdi).rot);
                    }
                } else {
                    let dy = draws[di];
                    let dx = draws[di + 1];
                    di = di + 2;
                    rot = Vec3Fx {
                        x: newbase.rotation.x - dx,
                        y: newbase.rotation.y + dy,
                        z: newbase.rotation.z,
                    };
                    proof {
                        assert(gen_child(nbg, i as int, cc as int, j as int, draws@, cdi).rot
                            == (Vec3Fx {
                            x: (nbg.rot.x - draws@[cdi + 2 * j + 1]) as i64,
                            y: (nbg.rot.y + draws@[cdi + 2 * j]) as i64,
                            z: nbg.rot.z,
                        }));
                        assert(dy == draws@[cdi + 2 * j] && dx == draws@[cdi + 2 * j + 1]);
                        assert(rot == gen_child(nbg, i as int, cc as int, j as int, draws@, cdi).rot);
                    }
                }
                let child = BranchBase {
                    indices: copy_indices(&newbase.indices),
                    position: newbase.position,
                    rotation: rot,
                };
                let ghost pre_branches = branches@;
                branches.push(child);
                proof {
                    let pre_len = pre_branches.len() as int;
                    assert(child.indices@ == ring && child.position == nbg.pos);
                    assert(child.rotation == gen_child(
                        nbg,
                        i as int,
                        cc as int,
                        j as int,
                        draws@,
                        cdi,
                    ).rot);
                    assert(base_rings.len() == blen0 && base_gens.len() == blen0 && pre_len
                        == blen0 + j);
                    assert forall|k: int| 0 <= k < branches@.len() implies #[trigger] rings_of(
                        branches@,
                    )[k] == (if k < blen0 {
                        base_rings[k]
                    } else {
                        ring
                    }) by {
                        if k < pre_len {
                            assert(branches@[k] == pre_branches[k]);
                            assert(rings_of(branches@)[k] == rings_of(pre_branches)[k]);
                            assert(rings_of(pre_branches)[k] == (base_rings + ring_copies(
                                ring,
                                j as int,
                            ))[k]);
                        } else {
                            assert(branches@[k] == child);
                        }
                    }
                    assert(rings_of(branches@) =~~= base_rings + ring_copies(ring, j as int + 1));
                    assert forall|k: int| 0 <= k < branches@.len() implies #[trigger] gens_of(
                        branches@,
                    )[k] == (if k < blen0 {
                        base_gens[k]
                    } else {
                        gen_child(nbg, i as int, cc as int, k - blen0, draws@, cdi)
                    }) by {
                        if k < pre_len {
                            assert(branches@[k] == pre_branches[k]);
                            assert(gens_of(branches@)[k] == gens_of(pre_branches)[k]);
                            assert(gens_of(pre_branches)[k] == (base_gens + Seq::new(
                                j as nat,
                                |jj: int| gen_child(nbg, i as int, cc as int, jj, draws@, cdi),
                            ))[k]);
                        } else {
                            assert(branches@[k] == child);
                            assert(gens_of(branches@)[k] == (GenBase {
                                ring: child.indices@,
                                pos: child.position,
                                rot: child.rotation,
                            }));
                        }
                    }
                    assert(gens_of(branches@) =~~= base_gens + Seq::new(
                        (j + 1) as nat,
                        |jj: int| gen_child(nbg, i as int, cc as int, jj, draws@, cdi),
                    ));
                }
                j = j + 1;
            }
            proof {
                assert(gens_of(branches@) =~~= gp.bases + Seq::new(
                    cc as nat,
                    |jj: int| gen_child(
                        GenBase {
                            ring: consec(p.vlen, 5),
                            pos: newbase.position,
                            rot: gb.rot,
                        },
                        i as int,
                        cc as int,
                        jj,
                        draws@,
                        gp.di,
                    ),
                ));
                assert(rings_of(branches@) =~~= p.rings + ring_copies(consec(p.vlen, 5), cc as int));
                assert forall|b: int| 0 <= b < branches@.len() implies base_ok(
                    #[trigger] branches@[b],
                    5 * (rings_upto(i as int) + bi + 1),
                    16777216 * (i as int + 1),
                    65536 + 32768 * (i as int + 1),
                ) by {
                    assert(base_ok(
                        branches@[b],
                        vbound,
                        16777216 * (i as int + 1),
                        65536 + 32768 * (i as int + 1),
                    ));
                }
            }
            proof {
                assert(bi * cc + cc == (bi + 1) * cc && 2 * child_count(i as int) * bi as int + 2
                    * child_count(i as int) == 2 * child_count(i as int) * (bi as int + 1))
                    by (nonlinear_arith);
                let p2 = topo_bases(lst.inds, lst.vlen, lst.rings, bi as int + 1, cc as int);
                assert(p2.inds == p.inds + bridge_seq(lst.rings[bi as int], consec(p.vlen, 5)));
                assert(p2.vlen == p.vlen + 5);
                assert(p2.rings == p.rings + ring_copies(consec(p.vlen, 5), cc as int));
                let gp2 = gen_bases(
                    glst.inds,
                    glst.verts,
                    glst.di,
                    glst.radius,
                    glst.bases,
                    bi as int + 1,
                    i as int,
                    cc as int,
                    seg_length,
                    trunk_color,
                    draws@,
                );
                assert(gp2 == gen_base_step(
                    gp,
                    glst.bases[bi as int],
                    i as int,
                    cc as int,
                    seg_length,
                    trunk_color,
                    draws@,
                ));
                assert(glst.bases[bi as int] == gb);
                assert(gp.verts.len() == p.vlen);
                assert(gp2.verts == gp.verts + Seq::new(
                    5,
                    |k: int| branch_ring_vertex(
                        trunk_color,
                        gp.radius,
                        5,
                        gb.rot,
                        branch_tip(gb.pos, gb.rot, seg_length),
                        k,
                    ),
                ));
                assert(gp2.bases == gp.bases + Seq::new(
                    cc as nat,
                    |jj: int| gen_child(
                        GenBase {
                            ring: consec(gp.verts.len() as int, 5),
                            pos: branch_tip(gb.pos, gb.rot, seg_length),
                            rot: gb.rot,
                        },
                        i as int,
                        cc as int,
                        jj,
                        draws@,
                        gp.di,
                    ),
                ));
                assert(gp2.di == gp.di + (if i as int >= 1 { 2 * cc as int } else { 0 }));
                assert(gp2.radius == gp.radius);
            }
            bi = bi + 1;
        }
        proof {
            assert(0 <= radius * decay && radius * decay <= DIM_MAX * 65536)
                by (nonlinear_arith)
                requires
                    0 <= radius <= DIM_MAX,
                    0 <= decay <= 65536,
            ;
            lemma_tdiv_mag(radius as int * decay as int, 65536, DIM_MAX as int);
            vstd::arithmetic::div_mod::lemma_div_pos_is_pos(radius as int * decay as int, 65536);
            lemma_topo_levels_snoc(Seq::<u32>::empty(), 5, seq![consec(0, 5)], 0, i as int);
            assert(lst.rings.len() == cur_len);
            assert(topo_levels(Seq::<u32>::empty(), 5, seq![consec(0, 5)], 0, i as int + 1)
                == topo_bases(lst.inds, lst.vlen, lst.rings, cur_len as int, cc as int));
            lemma_gen_levels_snoc(
                Seq::<u32>::empty(),
                init_verts,
                0,
                branch_radius,
                seq![base0],
                0,
                i as int,
                decay,
                seg_length,
                trunk_color,
                draws@,
            );
            assert(glst.bases.len() == cur_len);
        }
        radius = fx::mul_div(radius, decay, fx::SCALE);
        proof {
            let gfin = gen_bases(
                glst.inds,
                glst.verts,
                glst.di,
                glst.radius,
                glst.bases,
                cur_len as int,
                i as int,
                cc as int,
                seg_length,
                trunk_color,
                draws@,
            );
            let gnext = gen_levels(
                Seq::<u32>::empty(),
                init_verts,
                0,
                branch_radius,
                seq![base0],
                0,
                i as int + 1,
                decay,
                seg_length,
                trunk_color,
                draws@,
            );
            assert(gnext.verts == gfin.verts && gnext.bases == gfin.bases && gnext.di == gfin.di);
            assert(gnext.radius == muldiv(gfin.radius as int, decay as int, 65536) as i64);
            assert(radius as int == muldiv(gfin.radius as int, decay as int, 65536));
        }
        i = i + 1;
    }

    // One leaf cluster per surviving branch tip.
    proof {
        lemma_counts(levels as int);
    }
    let bn = branches.len();
    let mut bi2: usize = 0;
    while bi2 < bn
        invariant
            bi2 <= bn,
            bn == 12,
            bn == branches@.len(),
            mesh.wf(),
            mesh.vertices_dirty,
            mesh.indices_dirty,
            mesh.vertices@.len() == 5 * rings_upto(levels as int) + 36 * bi2,
            mesh.indices@.len() == 30 * (rings_upto(levels as int) - 1) + 180 * bi2,
            rings_upto(levels as int) <= 35,
            0 < leaf_radius <= LEAF_MAX,
            forall|b: int|
                0 <= b < branches@.len() ==> (#[trigger] branches@[b]).position.bounded(
                    83886080int,
                ),
            ({
                let st = topo_levels(Seq::<u32>::empty(), 5, seq![consec(0, 5)], 0, levels as int);
                &&& mesh.indices@ == topo_spheres(st.inds, st.vlen, bi2 as int)
                &&& mesh.vertices@.len() == st.vlen + 36 * bi2
            }),
            ({
                let g = gen_levels(
                    Seq::<u32>::empty(),
                    init_verts,
                    0,
                    branch_radius,
                    seq![base0],
                    0,
                    levels as int,
                    decay,
                    seg_length,
                    trunk_color,
                    draws@,
                );
                &&& gens_of(branches@) == g.bases
                &&& mesh.vertices@ == gen_spheres(g.verts, g.bases, bi2 as int, leaf_radius, leaf_color)
            }),
        decreases bn - bi2,
    {
        let center = branches[bi2].position;
        proof {
            let g = gen_levels(
                Seq::<u32>::empty(),
                init_verts,
                0,
                branch_radius,
                seq![base0],
                0,
                levels as int,
                decay,
                seg_length,
                trunk_color,
                draws@,
            );
            assert(center == g.bases[bi2 as int].pos);
        }
        sphere(mesh, center, leaf_radius, leaf_color);
        bi2 = bi2 + 1;
    }
}


/// The sapling mesh's vertex buffer before normals, as a function of the
/// shape parameters and the random draws alone: regeneration with equal
/// inputs is bit-identical.
pub open spec fn sapling_geometry(
    trunk_radius: i64,
    radius_decay: i64,
    branch_length: i64,
    trunk_color: Color,
    leaf_color: Color,
    draws: Seq<i64>,
) -> Seq<Vertex> {
    grow_geometry(
        tdiv(trunk_radius as int, 2) as i64,
        tdiv(2 * trunk_radius as int, 3) as i64,
        radius_decay,
        tdiv(2 * branch_length as int, 3) as i64,
        4,
        262144i64,
        trunk_color,
        leaf_color,
        draws,
    )
}

/// The grown mesh's vertex buffer before normals, as a function of the
/// shape parameters and the random draws alone.
pub open spec fn grown_geometry(
    trunk_radius: i64,
    radius_decay: i64,
    branch_length: i64,
    trunk_color: Color,
    leaf_color: Color,
    draws: Seq<i64>,
) -> Seq<Vertex> {
    grow_geometry(
        trunk_radius,
        trunk_radius,
        radius_decay,
        branch_length,
        5,
        524288i64,
        trunk_color,
        leaf_color,
        draws,
    ) + sphere_verts_seq(Vec3Fx { x: 0i64, y: 2621440i64, z: 0i64 }, 1048576i64, leaf_color)
}

/// The sapling mesh's index buffer: a constant, whatever the draws. Only
/// branch angles vary with randomness; the topology is fixed by the stage.
pub open spec fn sapling_topology() -> Seq<u32> {
    grow_topology(4)
}

/// The grown mesh's index buffer: a constant, whatever the draws.
pub open spec fn grown_topology() -> Seq<u32> {
    grow_topology(5) + sphere_idx_seq(607)
}

/// Vertices of a freshly generated sapling mesh.
pub const SAPLING_VERTS: usize = 547;

/// Index entries of a freshly generated sapling mesh.
pub const SAPLING_INDICES: usize = 2820;

/// Vertices of a freshly generated grown mesh.
pub const GROWN_VERTS: usize = 643;

/// Index entries of a freshly generated grown mesh.
pub const GROWN_INDICES: usize = 3360;

/// Random draws a sapling generation consumes.
pub const SAPLING_DRAWS: usize = 60;

/// Random draws a grown generation consumes.
pub const GROWN_DRAWS: usize = 84;

/// Largest time step `Tree::update` accepts (two seconds).
pub const TREE_DT_MAX: i64 = 131072;

/// Growth duration of a sapling, in seconds.
pub const GROWTH_SECONDS: i64 = 45;

/// What one `Tree::update` step with time step `dt` does: parameters are
/// untouched, a grown tree never changes, and sapling progress advances by
/// `dt / GROWTH_SECONDS`, flipping — exactly once — to `Grown` with the
/// fuller mesh the instant it reaches one.
pub open spec fn tree_step_ok(pre: Tree, post: Tree, dt: int) -> bool {
    &&& post.trunk_radius == pre.trunk_radius
    &&& post.radius_decay == pre.radius_decay
    &&& post.branch_length == pre.branch_length
    &&& post.trunk_color == pre.trunk_color
    &&& post.leaf_color == pre.leaf_color
    &&& (pre.stage == TreeStage::Grown ==> post == pre)
    &&& (pre.stage matches TreeStage::Sapling(p) ==> ({
        let p2 = p + tdiv(dt, 45);
        if p2 >= 65536 {
            &&& post.stage == TreeStage::Grown
            &&& post.mesh.vertices@.len() == GROWN_VERTS
            &&& post.mesh.indices@.len() == GROWN_INDICES
            &&& post.mesh.indices@ == grown_topology()
            &&& post.mesh.vertices_dirty
            &&& post.mesh.indices_dirty
        } else {
            &&& post.stage == TreeStage::Sapling(p2 as i64)
            &&& post.mesh == pre.mesh
        }
    }))
}

/// A stateful procedural tree: its mesh, growth stage, and immutable shape
/// parameters.
pub struct Tree {
    pub mesh: Mesh,
    pub stage: TreeStage,
    pub trunk_radius: i64,
    pub radius_decay: i64,
    pub branch_length: i64,
    pub trunk_color: Color,
    pub leaf_color: Color,
}

impl Default for Tree {
    /// An empty, zero-parameter tree at zero growth. Not yet well formed:
    /// set the shape parameters before generating a mesh.
    fn default() -> (r: Tree)
        ensures
            r.stage == TreeStage::Sapling(0i64),
            r.trunk_radius == 0,
            r.radius_decay == 0,
            r.branch_length == 0,
            r.mesh.vertices@.len() == 0,
            r.mesh.indices@.len() == 0,
            r.mesh.wf(),
    {
        Tree {
            mesh: Mesh::new(),
            stage: TreeStage::Sapling(0),
            trunk_radius: 0,
            radius_decay: 0,
            branch_length: 0,
            trunk_color: Color { r: 0, g: 0, b: 0 },
            leaf_color: Color { r: 0, g: 0, b: 0 },
        }
    }
}

impl Tree {
    /// The shape parameters lie in the generator's accepted ranges.
    pub open spec fn params_wf(self) -> bool {
        &&& 0 < self.trunk_radius <= DIM_MAX
        &&& 0 <= self.radius_decay <= 65536
        &&& 0 < self.branch_length <= DIM_MAX
    }

    /// Sapling progress stays in `[0, SCALE)`.
    pub open spec fn stage_wf(self) -> bool {
        match self.stage {
            TreeStage::Sapling(p) => 0 <= p < 65536,
            TreeStage::Grown => true,
        }
    }

    /// The standing invariant.
    pub open spec fn wf(self) -> bool {
        self.mesh.wf() && self.params_wf() && self.stage_wf()
    }

    /// A tree with the given shape parameters, at zero growth, with an
    /// empty mesh: call a mesh generator next.
    ///
    /// (`Default` gives the same empty state with zeroed parameters; the
    /// parameters must be set into their accepted ranges before any
    /// generator runs.)
    pub fn default_with(
        trunk_radius: i64,
        radius_decay: i64,
        branch_length: i64,
        trunk_color: Color,
        leaf_color: Color,
    ) -> (r: Tree)
        requires
            0 < trunk_radius <= DIM_MAX,
            0 <= radius_decay <= 65536,
            0 < branch_length <= DIM_MAX,
        ensures
            r.wf(),
            r.stage == TreeStage::Sapling(0i64),
            r.trunk_radius == trunk_radius,
            r.radius_decay == radius_decay,
            r.branch_length == branch_length,
            r.trunk_color == trunk_color,
            r.leaf_color == leaf_color,
            r.mesh.vertices@.len() == 0,
            r.mesh.indices@.len() == 0,
    {
        Tree {
            mesh: Mesh::new(),
            stage: TreeStage::Sapling(0),
            trunk_radius,
            radius_decay,
            branch_length,
            trunk_color,
            leaf_color,
        }
    }

    /// Regenerate the sapling mesh from the given random draws: prior
    /// geometry is fully cleared first, then four decay levels grow from a
    /// half-radius base ring with two-thirds-scale segments, ending in
    /// small leaf clusters. The result is a function of the parameters and
    /// the draws alone.
    pub fn generate_mesh_sapling_from(&mut self, draws: &Vec<i64>)
        requires
            old(self).wf(),
            draws@.len() == SAPLING_DRAWS,
            forall|k: int|
                0 <= k < draws@.len() ==> -DRAW_BOUND <= #[trigger] draws@[k] <= DRAW_BOUND,
        ensures
            final(self).wf(),
            final(self).stage == old(self).stage,
            final(self).trunk_radius == old(self).trunk_radius,
            final(self).radius_decay == old(self).radius_decay,
            final(self).branch_length == old(self).branch_length,
            final(self).trunk_color == old(self).trunk_color,
            final(self).leaf_color == old(self).leaf_color,
            final(self).mesh.vertices@.len() == SAPLING_VERTS,
            final(self).mesh.indices@.len() == SAPLING_INDICES,
            final(self).mesh.indices@ == sapling_topology(),
            final(self).mesh.vertices@ == normals_spec(
                sapling_geometry(
                    old(self).trunk_radius,
                    old(self).radius_decay,
                    old(self).branch_length,
                    old(self).trunk_color,
                    old(self).leaf_color,
                    draws@,
                ),
                sapling_topology(),
            ),
            final(self).mesh.vertices_dirty,
            final(self).mesh.indices_dirty,
    {
        self.mesh.clear();
        proof {
            lemma_counts(4);
            lemma_tdiv_mag(self.trunk_radius as int, 2, DIM_MAX as int);
            lemma_tdiv_mag(2 * self.trunk_radius as int, 3, DIM_MAX as int);
            lemma_tdiv_mag(2 * self.branch_length as int, 3, DIM_MAX as int);
            vstd::arithmetic::div_mod::lemma_div_pos_is_pos(self.trunk_radius as int, 2);
            vstd::arithmetic::div_mod::lemma_div_pos_is_pos(2 * self.trunk_radius as int, 3);
            vstd::arithmetic::div_mod::lemma_div_pos_is_pos(2 * self.branch_length as int, 3);
        }
        let base_radius = fx::sdiv(self.trunk_radius, 2);
        let branch_radius = fx::sdiv(2 * self.trunk_radius, 3);
        let seg = fx::sdiv(2 * self.branch_length, 3);
        grow(
            &mut self.mesh,
            self.trunk_color,
            self.leaf_color,
            base_radius,
            branch_radius,
            self.radius_decay,
            seg,
            4,
            262144,
            draws,
        );
        self.mesh.calculate_normals();
    }

    /// Regenerate the grown mesh from the given random draws: prior
    /// geometry is fully cleared first, then five decay levels grow at
    /// full radius and segment length, ending in large leaf clusters and
    /// one canopy sphere at a fixed height above the trunk origin.
    pub fn generate_mesh_grown_from(&mut self, draws: &Vec<i64>)
        requires
            old(self).wf(),
            draws@.len() == GROWN_DRAWS,
            forall|k: int|
                0 <= k < draws@.len() ==> -DRAW_BOUND <= #[trigger] draws@[k] <= DRAW_BOUND,
        ensures
            final(self).wf(),
            final(self).stage == old(self).stage,
            final(self).trunk_radius == old(self).trunk_radius,
            final(self).radius_decay == old(self).radius_decay,
            final(self).branch_length == old(self).branch_length,
            final(self).trunk_color == old(self).trunk_color,
            final(self).leaf_color == old(self).leaf_color,
            final(self).mesh.vertices@.len() == GROWN_VERTS,
            final(self).mesh.indices@.len() == GROWN_INDICES,
            final(self).mesh.indices@ == grown_topology(),
            final(self).mesh.vertices@ == normals_spec(
                grown_geometry(
                    old(self).trunk_radius,
                    old(self).radius_decay,
                    old(self).branch_length,
                    old(self).trunk_color,
                    old(self).leaf_color,
                    draws@,
                ),
                grown_topology(),
            ),
            final(self).mesh.vertices_dirty,
            final(self).mesh.indices_dirty,
    {
        self.mesh.clear();
        proof {
            lemma_counts(5);
        }
        grow(
            &mut self.mesh,
            self.trunk_color,
            self.leaf_color,
            self.trunk_radius,
            self.trunk_radius,
            self.radius_decay,
            self.branch_length,
            5,
            524288,
            draws,
        );
        proof {
            assert(self.mesh.vertices@.len() == 607);
        }
        sphere(
            &mut self.mesh,
            Vec3Fx { x: 0, y: 2621440, z: 0 },
            1048576,
            self.leaf_color,
        );
        self.mesh.calculate_normals();
    }

    /// Regenerate the sapling mesh with fresh random branch angles.
    pub fn generate_mesh_sapling(&mut self, rng: &mut rand::rngs::StdRng)
        requires
            old(self).wf(),
        ensures
            final(self).wf(),
            final(self).stage == old(self).stage,
            final(self).trunk_radius == old(self).trunk_radius,
            final(self).radius_decay == old(self).radius_decay,
            final(self).branch_length == old(self).branch_length,
            final(self).trunk_color == old(self).trunk_color,
            final(self).leaf_color == old(self).leaf_color,
            final(self).mesh.vertices@.len() == SAPLING_VERTS,
            final(self).mesh.indices@.len() == SAPLING_INDICES,
            final(self).mesh.indices@ == sapling_topology(),
            final(self).mesh.vertices_dirty,
            final(self).mesh.indices_dirty,
    {
        let draws = draw_angles(rng, SAPLING_DRAWS);
        self.generate_mesh_sapling_from(&draws);
    }

    /// Regenerate the grown mesh with fresh random branch angles.
    pub fn generate_mesh_grown(&mut self, rng: &mut rand::rngs::StdRng)
        requires
            old(self).wf(),
        ensures
            final(self).wf(),
            final(self).stage == old(self).stage,
            final(self).trunk_radius == old(self).trunk_radius,
            final(self).radius_decay == old(self).radius_decay,
            final(self).branch_length == old(self).branch_length,
            final(self).trunk_color == old(self).trunk_color,
            final(self).leaf_color == old(self).leaf_color,
            final(self).mesh.vertices@.len() == GROWN_VERTS,
            final(self).mesh.indices@.len() == GROWN_INDICES,
            final(self).mesh.indices@ == grown_topology(),
            final(self).mesh.vertices_dirty,
            final(self).mesh.indices_dirty,
    {
        let draws = draw_angles(rng, GROWN_DRAWS);
        self.generate_mesh_grown_from(&draws);
    }

    /// Advance growth by `delta_time / GROWTH_SECONDS`. The transition to
    /// `Grown` is one-way and happens exactly once: the instant progress
    /// reaches one, the stage flips and the fuller grown mesh replaces the
    /// sapling mesh in place. A grown tree never changes again.
    pub fn update(&mut self, delta_time: i64, rng: &mut rand::rngs::StdRng)
        requires
            old(self).wf(),
            0 <= delta_time <= TREE_DT_MAX,
        ensures
            final(self).wf(),
            final(self).trunk_radius == old(self).trunk_radius,
            final(self).radius_decay == old(self).radius_decay,
            final(self).branch_length == old(self).branch_length,
            final(self).trunk_color == old(self).trunk_color,
            final(self).leaf_color == old(self).leaf_color,
            tree_step_ok(*old(self), *final(self), delta_time as int),
    {
        match self.stage {
            TreeStage::Sapling(growth) => {
                proof {
                    vstd::arithmetic::div_mod::lemma_div_pos_is_pos(delta_time as int, 45);
                    lemma_tdiv_mag(delta_time as int, 45, 131072);
                }
                let inc = fx::sdiv(delta_time, GROWTH_SECONDS);
                let g2 = growth + inc;
                if g2 >= 65536 {
                    self.stage = TreeStage::Grown;
                    self.generate_mesh_grown(rng);
                } else {
                    self.stage = TreeStage::Sapling(g2);
                }
            },
            TreeStage::Grown => {},
        }
    }
}

/// The grown mesh strictly outgrows the sapling mesh: the extra decay
/// level and the canopy sphere add both vertices and triangles, so the
/// triangle count changes across the one-way stage transition.
pub proof fn lemma_grown_outgrows_sapling()
    ensures
        GROWN_INDICES > SAPLING_INDICES,
        GROWN_VERTS > SAPLING_VERTS,
        GROWN_INDICES % 3 == 0,
        SAPLING_INDICES % 3 == 0,
{
}

/// Draw `n` branch-angle values: alternating yaw offsets (up to a radian
/// either way) and downward pitch offsets (a tenth to four tenths of a
/// radian), in binary angle units.
fn draw_angles(rng: &mut rand::rngs::StdRng, n: usize) -> (r: Vec<i64>)
    ensures
        r@.len() == n,
        forall|k: int| 0 <= k < r@.len() ==> -DRAW_BOUND <= #[trigger] r@[k] <= DRAW_BOUND,
{
    let mut r: Vec<i64> = Vec::new();
    let mut k: usize = 0;
    while k < n
        invariant
            k <= n,
            r@.len() == k,
            forall|j: int| 0 <= j < r@.len() ==> -DRAW_BOUND <= #[trigger] r@[j] <= DRAW_BOUND,
        decreases n - k,
    {
        if k % 2 == 0 {
            r.push(rng_range(rng, -10430, 10431));
        } else {
            r.push(rng_range(rng, 1043, 4173));
        }
        k = k + 1;
    }
    r
}

} // verus!
