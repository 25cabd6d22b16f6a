//! A dynamic, dirty-tracked triangle mesh: vertices (position, normal,
//! texture coordinate, color) and an index buffer grouped in triples.
//!
//! The standing invariant is that every index references a valid vertex and
//! the index count is a multiple of three. Vertex normals are recomputed
//! from triangle geometry — never hand-authored — and the whole
//! recomputation is pinned down by `normals_spec`.

use vstd::prelude::*;

use crate::fx;
use crate::fx::{muldiv, tdiv};
use crate::vec3::{lemma_muldiv_ratio2, lemma_tdiv_mag, norm_spec, vnorm, Vec2Fx, Vec3Fx};

verus! {

/// Largest coordinate magnitude a mesh vertex position may carry.
pub const POS_BOUND: i64 = 536870912;

/// Largest number of vertices a mesh may hold.
pub const VERT_CAP: usize = 1048576;

/// Largest number of index entries a mesh may hold.
pub const IDX_CAP: usize = 12582912;

/// An RGB color with 8-bit channels.
#[derive(Clone, Copy, PartialEq, Eq, Structural, Debug)]
pub struct Color {
    pub r: u8,
    pub g: u8,
    pub b: u8,
}

/// One mesh vertex.
#[derive(Clone, Copy, PartialEq, Eq, Structural, Debug)]
pub struct Vertex {
    pub position: Vec3Fx,
    pub normal: Vec3Fx,
    pub uv: Vec2Fx,
    pub color: Color,
}

/// A triangle mesh with insertion-ordered vertices, an index buffer grouped
/// in triples, and two independent dirty flags for the renderer.
pub struct Mesh {
    pub vertices: Vec<Vertex>,
    pub indices: Vec<u32>,
    pub vertices_dirty: bool,
    pub indices_dirty: bool,
}

impl Mesh {
    /// Every index references a valid vertex, indices come in triples, the
    /// buffers respect the caps, and every position is bounded.
    pub open spec fn wf(self) -> bool {
        &&& self.vertices@.len() <= VERT_CAP
        &&& self.indices@.len() <= IDX_CAP
        &&& self.indices@.len() % 3 == 0
        &&& forall|i: int|
            0 <= i < self.indices@.len() ==> (#[trigger] self.indices@[i]) < self.vertices@.len()
        &&& forall|i: int|
            0 <= i < self.vertices@.len() ==> (#[trigger] self.vertices@[i]).position.bounded(
                POS_BOUND as int,
            )
    }

    /// An empty mesh; both buffers count as changed until the renderer
    /// consumes them.
    pub fn new() -> (r: Mesh)
        ensures
            r.vertices@ =~= Seq::<Vertex>::empty(),
            r.indices@ =~= Seq::<u32>::empty(),
            r.vertices_dirty,
            r.indices_dirty,
            r.wf(),
    {
        Mesh { vertices: Vec::new(), indices: Vec::new(), vertices_dirty: true, indices_dirty: true }
    }

    pub fn vertex_count(&self) -> (r: usize)
        ensures
            r == self.vertices@.len(),
    {
        self.vertices.len()
    }

    pub fn index_count(&self) -> (r: usize)
        ensures
            r == self.indices@.len(),
    {
        self.indices.len()
    }

    /// Triangles are index triples.
    pub fn triangle_count(&self) -> (r: usize)
        ensures
            r == self.indices@.len() as int / 3,
    {
        self.indices.len() / 3
    }

    pub fn get_vertex(&self, i: usize) -> (r: Vertex)
        requires
            i < self.vertices@.len(),
        ensures
            r == self.vertices@[i as int],
    {
        self.vertices[i]
    }

    pub fn get_index(&self, i: usize) -> (r: u32)
        requires
            i < self.indices@.len(),
        ensures
            r == self.indices@[i as int],
    {
        self.indices[i]
    }

    pub fn vertices_dirty(&self) -> (r: bool)
        ensures
            r == self.vertices_dirty,
    {
        self.vertices_dirty
    }

    pub fn indices_dirty(&self) -> (r: bool)
        ensures
            r == self.indices_dirty,
    {
        self.indices_dirty
    }

    /// The renderer lowers the vertex flag after re-uploading the buffer.
    pub fn mark_vertices_clean(&mut self)
        ensures
            *final(self) == (Mesh { vertices_dirty: false, ..*old(self) }),
    {
        self.vertices_dirty = false;
    }

    /// The renderer lowers the index flag after re-uploading the buffer.
    pub fn mark_indices_clean(&mut self)
        ensures
            *final(self) == (Mesh { indices_dirty: false, ..*old(self) }),
    {
        self.indices_dirty = false;
    }

    /// Append a vertex; its index is the previous vertex count.
    pub fn push_vertex(&mut self, v: Vertex)
        requires
            old(self).wf(),
            old(self).vertices@.len() < VERT_CAP,
            v.position.bounded(POS_BOUND as int),
        ensures
            final(self).wf(),
            final(self).vertices@ == old(self).vertices@.push(v),
            final(self).indices@ == old(self).indices@,
            final(self).vertices_dirty,
            final(self).indices_dirty == old(self).indices_dirty,
    {
        self.vertices.push(v);
        self.vertices_dirty = true;
    }

    /// Append one triangle; all three corners must reference valid vertices.
    pub fn push_tri(&mut self, a: u32, b: u32, c: u32)
        requires
            old(self).wf(),
            a < old(self).vertices@.len(),
            b < old(self).vertices@.len(),
            c < old(self).vertices@.len(),
            old(self).indices@.len() + 3 <= IDX_CAP,
        ensures
            final(self).wf(),
            final(self).indices@ == old(self).indices@.push(a).push(b).push(c),
            final(self).vertices@ == old(self).vertices@,
            final(self).indices_dirty,
            final(self).vertices_dirty == old(self).vertices_dirty,
    {
        self.indices.push(a);
        self.indices.push(b);
        self.indices.push(c);
        self.indices_dirty = true;
    }

    /// Drop all geometry; both buffers change, so both flags rise.
    pub fn clear(&mut self)
        ensures
            final(self).wf(),
            final(self).vertices@ =~= Seq::<Vertex>::empty(),
            final(self).indices@ =~= Seq::<u32>::empty(),
            final(self).vertices_dirty,
            final(self).indices_dirty,
    {
        self.vertices.clear();
        self.indices.clear();
        self.vertices_dirty = true;
        self.indices_dirty = true;
    }

    /// Overwrite one vertex position, leaving its other attributes alone.
    pub fn set_position(&mut self, i: usize, p: Vec3Fx)
        requires
            old(self).wf(),
            i < old(self).vertices@.len(),
            p.bounded(POS_BOUND as int),
        ensures
            final(self).wf(),
            final(self).vertices@ == old(self).vertices@.update(
                i as int,
                Vertex { position: p, ..old(self).vertices@[i as int] },
            ),
            final(self).indices@ == old(self).indices@,
            final(self).vertices_dirty,
            final(self).indices_dirty == old(self).indices_dirty,
    {
        let mut v = self.vertices[i];
        v.position = p;
        self.vertices[i] = v;
        self.vertices_dirty = true;
    }
}

/// Componentwise difference, in the spec world.
pub open spec fn vsub_spec(a: Vec3Fx, b: Vec3Fx) -> Vec3Fx {
    Vec3Fx { x: (a.x - b.x) as i64, y: (a.y - b.y) as i64, z: (a.z - b.z) as i64 }
}

/// Componentwise truncating division by `SCALE`, used to tame edge vectors
/// before a cross product.
pub open spec fn shr16_spec(v: Vec3Fx) -> Vec3Fx {
    Vec3Fx {
        x: tdiv(v.x as int, 65536) as i64,
        y: tdiv(v.y as int, 65536) as i64,
        z: tdiv(v.z as int, 65536) as i64,
    }
}

/// Componentwise truncating division by 1024, used to tame accumulated
/// normals before normalization.
pub open spec fn shr10_spec(v: Vec3Fx) -> Vec3Fx {
    Vec3Fx {
        x: tdiv(v.x as int, 1024) as i64,
        y: tdiv(v.y as int, 1024) as i64,
        z: tdiv(v.z as int, 1024) as i64,
    }
}

/// The cross product.
pub open spec fn cross_spec(u: Vec3Fx, v: Vec3Fx) -> Vec3Fx {
    Vec3Fx {
        x: (u.y * v.z - u.z * v.y) as i64,
        y: (u.z * v.x - u.x * v.z) as i64,
        z: (u.x * v.y - u.y * v.x) as i64,
    }
}

/// Scale a vector to length `SCALE` (rounded down); the zero vector — a
/// degenerate direction — stays zero.
pub open spec fn normalize_spec(v: Vec3Fx) -> Vec3Fx {
    let n = norm_spec(v);
    if n == 0 {
        Vec3Fx { x: 0i64, y: 0i64, z: 0i64 }
    } else {
        Vec3Fx {
            x: muldiv(v.x as int, 65536, n) as i64,
            y: muldiv(v.y as int, 65536, n) as i64,
            z: muldiv(v.z as int, 65536, n) as i64,
        }
    }
}

/// The unit-scale normal of a triangle, from its corner positions.
pub open spec fn face_normal_spec(pa: Vec3Fx, pb: Vec3Fx, pc: Vec3Fx) -> Vec3Fx {
    normalize_spec(
        cross_spec(shr16_spec(vsub_spec(pb, pa)), shr16_spec(vsub_spec(pc, pa))),
    )
}

/// `v` with its normal replaced.
pub open spec fn with_normal(v: Vertex, n: Vec3Fx) -> Vertex {
    Vertex { normal: n, ..v }
}

/// Add `f` into the normal of vertex `i`.
pub open spec fn add_into_normal(vs: Seq<Vertex>, i: int, f: Vec3Fx) -> Seq<Vertex> {
    vs.update(
        i,
        with_normal(
            vs[i],
            Vec3Fx {
                x: (vs[i].normal.x + f.x) as i64,
                y: (vs[i].normal.y + f.y) as i64,
                z: (vs[i].normal.z + f.z) as i64,
            },
        ),
    )
}

/// Accumulate the face normals of the first `k` triangles into the vertex
/// normals, one corner after the other.
pub open spec fn acc_normals(vs: Seq<Vertex>, idx: Seq<u32>, k: int) -> Seq<Vertex>
    decreases k,
{
    if k <= 0 {
        vs
    } else {
        let p = acc_normals(vs, idx, k - 1);
        let ia = idx[3 * (k - 1)] as int;
        let ib = idx[3 * (k - 1) + 1] as int;
        let ic = idx[3 * (k - 1) + 2] as int;
        let f = face_normal_spec(p[ia].position, p[ib].position, p[ic].position);
        add_into_normal(add_into_normal(add_into_normal(p, ia, f), ib, f), ic, f)
    }
}

/// All normals zeroed.
pub open spec fn zero_normals(vs: Seq<Vertex>) -> Seq<Vertex> {
    Seq::new(vs.len(), |i: int| with_normal(vs[i], Vec3Fx { x: 0i64, y: 0i64, z: 0i64 }))
}

/// Every accumulated normal scaled back to unit length.
pub open spec fn renormalize(vs: Seq<Vertex>) -> Seq<Vertex> {
    Seq::new(vs.len(), |i: int| with_normal(vs[i], normalize_spec(shr10_spec(vs[i].normal))))
}

/// What a full normal recomputation leaves in the vertex buffer.
pub open spec fn normals_spec(vs: Seq<Vertex>, idx: Seq<u32>) -> Seq<Vertex> {
    renormalize(acc_normals(zero_normals(vs), idx, idx.len() as int / 3))
}

/// Accumulation touches only normals: lengths, positions, texture
/// coordinates and colors all pass through unchanged.
pub proof fn lemma_acc_shape(vs: Seq<Vertex>, idx: Seq<u32>, k: int)
    requires
        3 * k <= idx.len(),
        forall|i: int| 0 <= i < idx.len() ==> (#[trigger] idx[i]) < vs.len(),
    ensures
        acc_normals(vs, idx, k).len() == vs.len(),
        forall|i: int|
            0 <= i < vs.len() ==> (#[trigger] acc_normals(vs, idx, k)[i]).position == vs[i].position
                && acc_normals(vs, idx, k)[i].uv == vs[i].uv && acc_normals(vs, idx, k)[i].color
                == vs[i].color,
    decreases k,
{
    if k > 0 {
        lemma_acc_shape(vs, idx, k - 1);
        assert(0 <= 3 * (k - 1) + 2 < idx.len());
    }
}

/// Componentwise truncating division by 1024.
fn shr10(v: Vec3Fx) -> (r: Vec3Fx)
    requires
        v.bounded(0x10000000000),
    ensures
        r == shr10_spec(v),
        r.bounded(0x40000000),
{
    proof {
        lemma_tdiv_mag(v.x as int, 1024, 0x40000000);
        lemma_tdiv_mag(v.y as int, 1024, 0x40000000);
        lemma_tdiv_mag(v.z as int, 1024, 0x40000000);
    }
    Vec3Fx { x: fx::sdiv(v.x, 1024), y: fx::sdiv(v.y, 1024), z: fx::sdiv(v.z, 1024) }
}

/// Componentwise truncating division by `SCALE`.
fn shr16(v: Vec3Fx) -> (r: Vec3Fx)
    requires
        v.bounded(0x40000000),
    ensures
        r == shr16_spec(v),
        r.bounded(16384),
{
    proof {
        lemma_tdiv_mag(v.x as int, 65536, 16384);
        lemma_tdiv_mag(v.y as int, 65536, 16384);
        lemma_tdiv_mag(v.z as int, 65536, 16384);
    }
    Vec3Fx { x: fx::sdiv(v.x, 65536), y: fx::sdiv(v.y, 65536), z: fx::sdiv(v.z, 65536) }
}

/// The cross product of two tamed edge vectors.
fn cross3(u: Vec3Fx, v: Vec3Fx) -> (r: Vec3Fx)
    requires
        u.bounded(16384),
        v.bounded(16384),
    ensures
        r == cross_spec(u, v),
        r.bounded(0x20000000),
{
    proof {
        assert(-0x10000000 <= u.y * v.z <= 0x10000000 && -0x10000000 <= u.z * v.y <= 0x10000000
            && -0x10000000 <= u.z * v.x <= 0x10000000 && -0x10000000 <= u.x * v.z <= 0x10000000
            && -0x10000000 <= u.x * v.y <= 0x10000000 && -0x10000000 <= u.y * v.x <= 0x10000000)
            by (nonlinear_arith)
            requires
                u.bounded(16384),
                v.bounded(16384),
        ;
    }
    Vec3Fx {
        x: u.y * v.z - u.z * v.y,
        y: u.z * v.x - u.x * v.z,
        z: u.x * v.y - u.y * v.x,
    }
}

/// Scale a vector to length `SCALE`, rounding down; a zero vector stays
/// zero rather than producing an undefined direction.
fn normalize_dir(v: Vec3Fx) -> (r: Vec3Fx)
    requires
        v.bounded(0x40000000),
    ensures
        r == normalize_spec(v),
        r.bounded(65536),
{
    let n = vnorm(v);
    if n == 0 {
        Vec3Fx { x: 0, y: 0, z: 0 }
    } else {
        proof {
            lemma_muldiv_ratio2(v.x as int, 65536, n as int, 65536);
            lemma_muldiv_ratio2(v.y as int, 65536, n as int, 65536);
            lemma_muldiv_ratio2(v.z as int, 65536, n as int, 65536);
        }
        Vec3Fx {
            x: fx::mul_div(v.x, fx::SCALE, n),
            y: fx::mul_div(v.y, fx::SCALE, n),
            z: fx::mul_div(v.z, fx::SCALE, n),
        }
    }
}

impl Mesh {
    /// Recompute every vertex normal from triangle geometry: zero them all,
    /// accumulate each triangle's unit face normal into its three corners,
    /// then scale each sum back to unit length. Positions, texture
    /// coordinates, colors and the index buffer are untouched; the vertex
    /// buffer is marked dirty.
    #[verifier::rlimit(100)]
    pub fn calculate_normals(&mut self)
        requires
            old(self).wf(),
        ensures
            final(self).wf(),
            final(self).vertices@ == normals_spec(old(self).vertices@, old(self).indices@),
            final(self).indices@ == old(self).indices@,
            final(self).vertices@.len() == old(self).vertices@.len(),
            forall|i: int|
                0 <= i < final(self).vertices@.len() ==> (#[trigger] final(self).vertices@[i]).position == old(
                    self,
                ).vertices@[i].position && final(self).vertices@[i].uv == old(self).vertices@[i].uv
                    && final(self).vertices@[i].color == old(self).vertices@[i].color,
            final(self).vertices_dirty,
            final(self).indices_dirty == old(self).indices_dirty,
    {
        let ghost orig = self.vertices@;
        let ghost idx = self.indices@;
        let n = self.vertices.len();

        // Zero all normals.
        let mut i: usize = 0;
        while i < n
            invariant
                n == self.vertices@.len(),
                i <= n,
                self.indices@ == idx,
                self.indices_dirty == old(self).indices_dirty,
                self.vertices_dirty == old(self).vertices_dirty,
                orig.len() == n,
                forall|j: int|
                    0 <= j < i ==> self.vertices@[j] == #[trigger] zero_normals(orig)[j],
                forall|j: int| i <= j < n ==> self.vertices@[j] == orig[j],
            decreases n - i,
        {
            let mut v = self.vertices[i];
            v.normal = Vec3Fx { x: 0, y: 0, z: 0 };
            self.vertices[i] = v;
            i = i + 1;
        }
        assert(self.vertices@ =~= zero_normals(orig));
        let ghost zstart = self.vertices@;

        // Accumulate face normals.
        let tris = self.indices.len() / 3;
        proof {
            assert(idx.len() % 3 == 0 && tris == idx.len() as int / 3);
            assert(3 * (idx.len() as int / 3) == idx.len() as int) by {
                vstd::arithmetic::div_mod::lemma_fundamental_div_mod(idx.len() as int, 3);
            }
        }
        let mut t: usize = 0;
        while t < tris
            invariant
                n == self.vertices@.len(),
                t <= tris,
                orig.len() == n,
                zstart.len() == n,
                self.indices@ == idx,
                idx.len() <= IDX_CAP,
                3 * tris == idx.len(),
                self.indices_dirty == old(self).indices_dirty,
                forall|j: int| 0 <= j < idx.len() ==> (#[trigger] idx[j]) < n,
                self.vertices@ == acc_normals(zstart, idx, t as int),
                forall|j: int|
                    0 <= j < n ==> (#[trigger] self.vertices@[j]).position == orig[j].position
                        && self.vertices@[j].uv == orig[j].uv && self.vertices@[j].color
                        == orig[j].color,
                forall|j: int|
                    0 <= j < n ==> (#[trigger] self.vertices@[j]).normal.bounded(
                        196608 * t as int,
                    ),
                forall|j: int|
                    0 <= j < n ==> (#[trigger] orig[j]).position.bounded(POS_BOUND as int),
            decreases tris - t,
        {
            let ia = self.indices[3 * t] as usize;
            let ib = self.indices[3 * t + 1] as usize;
            let ic = self.indices[3 * t + 2] as usize;
            let pa = self.vertices[ia].position;
            let pb = self.vertices[ib].position;
            let pc = self.vertices[ic].position;
            let e1 = shr16(pb.vsub(pa));
            let e2 = shr16(pc.vsub(pa));
            let f = normalize_dir(cross3(e1, e2));
            proof {
                assert(f == face_normal_spec(pa, pb, pc));
            }
            let ghost p = self.vertices@;
            let mut va = self.vertices[ia];
            va.normal = va.normal.vadd(f);
            self.vertices[ia] = va;
            assert(self.vertices@ == add_into_normal(p, ia as int, f));
            let ghost s1 = self.vertices@;
            let mut vb = self.vertices[ib];
            vb.normal = vb.normal.vadd(f);
            self.vertices[ib] = vb;
            assert(self.vertices@ == add_into_normal(s1, ib as int, f));
            let ghost s2 = self.vertices@;
            let mut vc = self.vertices[ic];
            vc.normal = vc.normal.vadd(f);
            self.vertices[ic] = vc;
            assert(self.vertices@ == add_into_normal(s2, ic as int, f));
            assert(self.vertices@ == acc_normals(zstart, idx, t as int + 1));
            t = t + 1;
        }
        let ghost astate = self.vertices@;

        // Scale each accumulated normal back to unit length.
        let mut i2: usize = 0;
        while i2 < n
            invariant
                n == self.vertices@.len(),
                i2 <= n,
                astate.len() == n,
                self.indices@ == idx,
                self.indices_dirty == old(self).indices_dirty,
                forall|j: int|
                    0 <= j < n ==> (#[trigger] astate[j]).normal.bounded(0x10000000000),
                forall|j: int| 0 <= j < i2 ==> self.vertices@[j] == #[trigger] renormalize(astate)[j],
                forall|j: int| i2 <= j < n ==> self.vertices@[j] == astate[j],
            decreases n - i2,
        {
            let mut v = self.vertices[i2];
            assert(v == astate[i2 as int]);
            assert(v.normal.bounded(0x10000000000));
            v.normal = normalize_dir(shr10(v.normal));
            self.vertices[i2] = v;
            i2 = i2 + 1;
        }
        assert(self.vertices@ =~= renormalize(astate));
        proof {
            lemma_acc_shape(zstart, idx, idx.len() as int / 3);
        }
        self.vertices_dirty = true;
    }
}

} // verus!
