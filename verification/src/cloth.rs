//! A mass-spring cloth: a grid of point masses joined by distance
//! constraints, stepped by Verlet integration followed by iterative
//! constraint relaxation, and synced into an owned [`Mesh`].
//!
//! `update` is pinned down exactly: the node array after a step equals
//! `relax_iters(integrate_spec(..), .., RELAX_ITERS)`, so locked nodes are
//! proved immobile and the whole step is a function of its inputs.

use vstd::prelude::*;

use crate::fx;
use crate::fx::{clamp_spec, muldiv, tdiv};
use crate::mesh::{normals_spec, Color, Mesh, Vertex};
use crate::vec3::{
    lemma_muldiv_ratio2, lemma_tdiv_mag, norm2_spec, norm_spec, vnorm, Vec2Fx, Vec3Fx,
};

verus! {

/// Largest coordinate magnitude a cloth node may carry; the mesh holds
/// doubled positions, so this is half the mesh position bound.
pub const NODE_BOUND: i64 = 268435456;

/// Largest rest length a connection may carry.
pub const REST_MAX: i64 = 1048576;

/// Largest time step `update` accepts (two seconds).
pub const DT_MAX: i64 = 131072;

/// Largest wind speed magnitude `update` accepts per axis.
pub const WIND_MAX: i64 = 4194304;

/// Downward gravitational acceleration, in raw units per second squared.
pub const GRAVITY: i64 = 80371;

/// Relaxation passes per step, a tunable constant.
pub const RELAX_ITERS: usize = 12;

/// `SCALE / sqrt(2)`, rounded: the grid's horizontal spacing factor.
pub const INV_SQRT2: i64 = 46341;

/// Largest grid side length `generate` accepts.
pub const SIDE_MAX: usize = 1024;

/// One point mass.
#[derive(Clone, Copy, PartialEq, Eq, Structural, Debug)]
pub struct Node {
    pub position: Vec3Fx,
    pub prev_position: Vec3Fx,
    pub locked: bool,
}

impl Node {
    /// A node at rest: its previous position coincides with its position.
    pub fn new(position: Vec3Fx, locked: bool) -> (r: Node)
        ensures
            r == (Node { position, prev_position: position, locked }),
    {
        Node { position, prev_position: position, locked }
    }
}

/// A distance constraint between two nodes.
#[derive(Clone, Copy, PartialEq, Eq, Structural, Debug)]
pub struct Connection {
    pub a: usize,
    pub b: usize,
    pub rest_length: i64,
}

/// Both node fields of `n` lie within the node coordinate bound.
pub open spec fn node_bounded(n: Node) -> bool {
    n.position.bounded(NODE_BOUND as int) && n.prev_position.bounded(NODE_BOUND as int)
}

/// The connection references valid nodes and carries a positive, bounded
/// rest length.
pub open spec fn conn_ok(c: Connection, n: int) -> bool {
    c.a < n && c.b < n && 0 < c.rest_length <= REST_MAX
}

/// `i` is one of the flicker-set node indices.
pub open spec fn in_flicker(fl: Seq<usize>, i: int) -> bool {
    exists|k: int| 0 <= k < fl.len() && (#[trigger] fl[k]) as int == i
}

/// The cloth simulator: nodes, the constraint edge list (built once, in
/// insertion order), the flicker set, and the owned mesh.
pub struct Cloth {
    pub mesh: Mesh,
    pub nodes: Vec<Node>,
    pub connections: Vec<Connection>,
    pub flicker: Vec<usize>,
}

impl Cloth {
    /// The standing invariant: the mesh is well formed and mirrors the node
    /// array one-to-one, every connection references valid nodes, every
    /// node is bounded, and the flicker set holds valid indices.
    pub open spec fn wf(self) -> bool {
        &&& self.mesh.wf()
        &&& self.mesh.vertices@.len() == self.nodes@.len()
        &&& forall|i: int|
            0 <= i < self.connections@.len() ==> conn_ok(
                #[trigger] self.connections@[i],
                self.nodes@.len() as int,
            )
        &&& forall|i: int| 0 <= i < self.nodes@.len() ==> node_bounded(#[trigger] self.nodes@[i])
        &&& forall|i: int|
            0 <= i < self.flicker@.len() ==> (#[trigger] self.flicker@[i]) < self.nodes@.len()
    }
}

/// The grid position of the node in column `x`, row `y`: a diagonal plane,
/// vertically centered.
pub open spec fn grid_pos(x: int, y: int, h: int) -> Vec3Fx {
    Vec3Fx {
        x: (-(x * 46341)) as i64,
        y: (y * 65536 - h * 32768) as i64,
        z: (-(x * 46341)) as i64,
    }
}

/// The node at flat index `j` of a `w x h` grid: at its grid position, at
/// rest, and locked exactly in the anchor column `x == 0`.
pub open spec fn grid_node_ok(nodes: Seq<Node>, w: int, h: int, j: int) -> bool {
    nodes[j] == (Node {
        position: grid_pos(j % w, j / w, h),
        prev_position: grid_pos(j % w, j / w, h),
        locked: j % w == 0,
    })
}

/// The vertex at flat index `j` of a `w x h` grid: grid position, a flat
/// initial normal, zero texture coordinates, the flag's red.
pub open spec fn grid_vertex_ok(verts: Seq<Vertex>, w: int, h: int, j: int) -> bool {
    verts[j] == (Vertex {
        position: grid_pos(j % w, j / w, h),
        normal: Vec3Fx { x: 0i64, y: 0i64, z: (-65536) as i64 },
        uv: Vec2Fx { x: 0i64, y: 0i64 },
        color: Color { r: 247u8, g: 16u8, b: 16u8 },
    })
}

/// The six index entries of grid cell `c` (column `c % (w-1)`, row
/// `c / (w-1)`): two triangles with consistent winding.
pub open spec fn grid_cell_ok(idx: Seq<u32>, w: int, c: int) -> bool {
    let x = c % (w - 1);
    let y = c / (w - 1);
    let base = y * w + x;
    &&& idx[6 * c] == base
    &&& idx[6 * c + 1] == base + 1
    &&& idx[6 * c + 2] == base + w
    &&& idx[6 * c + 3] == base + 1
    &&& idx[6 * c + 4] == base + w + 1
    &&& idx[6 * c + 5] == base + w
}

/// A grid connection: unit rest length, joining horizontal or vertical
/// neighbors.
pub open spec fn grid_conn_ok(c: Connection, w: int, h: int) -> bool {
    &&& c.rest_length == 65536
    &&& c.b < w * h
    &&& ((c.b == c.a + 1 && (c.a as int) % w < w - 1) || c.b == c.a + w)
}

impl Cloth {
    /// Lay out a `width x height` grid of unit-spaced nodes in a diagonal
    /// plane: the column `x == 0` locked, the column `x == 1` registered in
    /// the flicker set, one vertex per node, one triangle pair per grid
    /// cell, one horizontal connection per non-last-column node and one
    /// vertical connection per non-last-row node, all with rest length one.
    pub fn generate(width: usize, height: usize) -> (r: Cloth)
        requires
            1 <= width <= SIDE_MAX,
            1 <= height <= SIDE_MAX,
        ensures
            r.wf(),
            r.nodes@.len() == width * height,
            r.mesh.vertices@.len() == width * height,
            r.mesh.indices@.len() == 6 * ((width - 1) * (height - 1)),
            r.connections@.len() == (width - 1) * height + width * (height - 1),
            r.flicker@ == Seq::new(
                if width >= 2 { height as nat } else { 0nat },
                |y: int| (y * width + 1) as usize,
            ),
            forall|j: int| 0 <= j < width * height ==> grid_node_ok(r.nodes@, width as int, height as int, j),
            forall|j: int|
                0 <= j < width * height ==> grid_vertex_ok(r.mesh.vertices@, width as int, height as int, j),
            forall|c: int|
                0 <= c < (width - 1) * (height - 1) ==> grid_cell_ok(r.mesh.indices@, width as int, c),
            forall|k: int|
                0 <= k < r.connections@.len() ==> grid_conn_ok(
                    #[trigger] r.connections@[k],
                    width as int,
                    height as int,
                ),
            r.mesh.vertices_dirty,
            r.mesh.indices_dirty,
    {
        let w = width;
        let h = height;
        let mut mesh = Mesh::new();
        let mut nodes: Vec<Node> = Vec::new();
        let mut connections: Vec<Connection> = Vec::new();
        let mut flicker: Vec<usize> = Vec::new();
        proof {
            assert(w * h <= 1048576 && (w - 1) * (h - 1) <= w * h && (w - 1) * h <= w * h && w * (h
                - 1) <= w * h) by (nonlinear_arith)
                requires
                    1 <= w <= 1024,
                    1 <= h <= 1024,
            ;
        }

        // First pass: nodes, vertices, and the flicker set, row-major.
        let mut y: usize = 0;
        while y < h
            invariant
                1 <= w <= 1024,
                1 <= h <= 1024,
                y <= h,
                w * h <= 1048576,
                nodes@.len() == y * w,
                mesh.vertices@.len() == y * w,
                mesh.indices@.len() == 0,
                mesh.wf(),
                mesh.vertices_dirty,
                mesh.indices_dirty,
                flicker@ == Seq::new(
                    if w >= 2 { y as nat } else { 0nat },
                    |r: int| (r * w + 1) as usize,
                ),
                forall|j: int| 0 <= j < y * w ==> grid_node_ok(nodes@, w as int, h as int, j),
                forall|j: int|
                    0 <= j < y * w ==> grid_vertex_ok(mesh.vertices@, w as int, h as int, j),
            decreases h - y,
        {
            proof {
                assert(y * w + w == (y + 1) * w && (y + 1) * w <= h * w && h * w == w * h)
                    by (nonlinear_arith)
                    requires
                        y < h,
                        1 <= w,
                ;
            }
            let mut x: usize = 0;
            while x < w
                invariant
                    1 <= w <= 1024,
                    1 <= h <= 1024,
                    y < h,
                    x <= w,
                    w * h <= 1048576,
                    y * w + w <= w * h,
                    nodes@.len() == y * w + x,
                    mesh.vertices@.len() == y * w + x,
                    mesh.indices@.len() == 0,
                    mesh.wf(),
                    mesh.vertices_dirty,
                    mesh.indices_dirty,
                    flicker@ == Seq::new(
                        if w >= 2 { (y + (if x >= 2 { 1int } else { 0int })) as nat } else { 0nat },
                        |r: int| (r * w + 1) as usize,
                    ),
                    forall|j: int| 0 <= j < y * w + x ==> grid_node_ok(nodes@, w as int, h as int, j),
                    forall|j: int|
                        0 <= j < y * w + x ==> grid_vertex_ok(mesh.vertices@, w as int, h as int, j),
                decreases w - x,
            {
                let j = y * w + x;
                let px: i64 = -((x as i64) * INV_SQRT2);
                let py: i64 = (y as i64) * 65536 - (h as i64) * 32768;
                let position = Vec3Fx { x: px, y: py, z: px };
                proof {
                    assert(j == w as int * y as int + x as int && j == y as int * (w as int)
                        + x as int) by (nonlinear_arith)
                        requires
                            j == y * w + x,
                    ;
                    vstd::arithmetic::div_mod::lemma_fundamental_div_mod_converse(
                        j as int,
                        w as int,
                        y as int,
                        x as int,
                    );
                    vstd::arithmetic::div_mod::lemma_fundamental_div_mod_converse_div(
                        j as int,
                        w as int,
                        y as int,
                        x as int,
                    );
                    assert(position == grid_pos(j as int % w as int, j as int / w as int, h as int));
                }

                if x == 1 {
                    flicker.push(nodes.len());
                    proof {
                        assert(flicker@ =~= Seq::new(
                            (y + 1) as nat,
                            |r: int| (r * w + 1) as usize,
                        ));
                    }
                }

                let ghost pre_verts = mesh.vertices@;
                let ghost pre_nodes = nodes@;
                mesh.push_vertex(
                    Vertex {
                        position,
                        normal: Vec3Fx { x: 0, y: 0, z: -65536 },
                        uv: Vec2Fx { x: 0, y: 0 },
                        color: Color { r: 247, g: 16, b: 16 },
                    },
                );
                nodes.push(Node { position, prev_position: position, locked: x == 0 });
                proof {
                    assert forall|jj: int| 0 <= jj < y * w + x + 1 implies grid_node_ok(
                        nodes@,
                        w as int,
                        h as int,
                        jj,
                    ) by {
                        if jj < y * w + x {
                            assert(grid_node_ok(pre_nodes, w as int, h as int, jj));
                            assert(nodes@[jj] == pre_nodes[jj]);
                        } else {
                            assert(nodes@[jj] == (Node {
                                position,
                                prev_position: position,
                                locked: x == 0,
                            }));
                        }
                    }
                    assert forall|jj: int| 0 <= jj < y * w + x + 1 implies grid_vertex_ok(
                        mesh.vertices@,
                        w as int,
                        h as int,
                        jj,
                    ) by {
                        if jj < y * w + x {
                            assert(grid_vertex_ok(pre_verts, w as int, h as int, jj));
                            assert(mesh.vertices@[jj] == pre_verts[jj]);
                        }
                    }
                }
                x = x + 1;
            }
            y = y + 1;
        }
        proof {
            assert(nodes@.len() == w * h) by (nonlinear_arith)
                requires
                    nodes@.len() == h * w,
            ;
        }

        // Second pass: one triangle pair per grid cell, one horizontal
        // connection per non-last-column node, one vertical connection per
        // non-last-row node.
        let mut y2: usize = 0;
        while y2 < h
            invariant
                1 <= w <= 1024,
                1 <= h <= 1024,
                y2 <= h,
                w * h <= 1048576,
                nodes@.len() == w * h,
                mesh.vertices@.len() == w * h,
                mesh.wf(),
                mesh.vertices_dirty,
                mesh.indices_dirty,
                forall|j: int|
                        0 <= j < w * h ==> grid_vertex_ok(mesh.vertices@, w as int, h as int, j),
                    mesh.indices@.len() == 6 * ((w - 1) * (if y2 < h { y2 as int } else { h - 1 })),
                connections@.len() == (w - 1) * y2 + w * (if y2 < h { y2 as int } else { h - 1 }),
                forall|c: int|
                    0 <= c < (w - 1) * (if y2 < h { y2 as int } else { h - 1 }) ==> grid_cell_ok(
                        mesh.indices@,
                        w as int,
                        c,
                    ),
                forall|k: int|
                    0 <= k < connections@.len() ==> grid_conn_ok(
                        #[trigger] connections@[k],
                        w as int,
                        h as int,
                    ),
                forall|k: int|
                    0 <= k < connections@.len() ==> conn_ok(
                        #[trigger] connections@[k],
                        (w * h) as int,
                    ),
            decreases h - y2,
        {
            proof {
                assert((y2 + 1) * w <= h * w && h * w == w * h && y2 * w + w == (y2 + 1) * w && (w
                    - 1) * y2 <= (w - 1) * (h - 1) && (w - 1) * (h - 1) <= w * h)
                    by (nonlinear_arith)
                    requires
                        y2 < h,
                        1 <= w <= 1024,
                        1 <= h <= 1024,
                ;
            }
            let mut x2: usize = 0;
            while x2 < w
                invariant
                    1 <= w <= 1024,
                    1 <= h <= 1024,
                    y2 < h,
                    x2 <= w,
                    w * h <= 1048576,
                    y2 * w + w <= w * h,
                    nodes@.len() == w * h,
                    mesh.vertices@.len() == w * h,
                    mesh.wf(),
                    mesh.vertices_dirty,
                    mesh.indices_dirty,
                    forall|j: int|
                        0 <= j < w * h ==> grid_vertex_ok(mesh.vertices@, w as int, h as int, j),
                    mesh.indices@.len() == 6 * ((w - 1) * y2 + (if y2 < h - 1 {
                        if x2 < w - 1 { x2 as int } else { w - 1 }
                    } else {
                        0
                    })),
                    connections@.len() == (w - 1) * y2 + (if x2 < w - 1 { x2 as int } else { w - 1 })
                        + w * y2 + (if y2 < h - 1 { x2 as int } else { 0 }),
                    forall|c: int|
                        0 <= c < (w - 1) * y2 + (if y2 < h - 1 {
                            if x2 < w - 1 { x2 as int } else { w - 1 }
                        } else {
                            0
                        }) ==> grid_cell_ok(mesh.indices@, w as int, c),
                    forall|k: int|
                        0 <= k < connections@.len() ==> grid_conn_ok(
                            #[trigger] connections@[k],
                            w as int,
                            h as int,
                        ),
                    forall|k: int|
                        0 <= k < connections@.len() ==> conn_ok(
                            #[trigger] connections@[k],
                            (w * h) as int,
                        ),
                decreases w - x2,
            {
                let j = y2 * w + x2;
                if x2 < w - 1 && y2 < h - 1 {
                    let ghost c = (w - 1) * y2 + x2;
                    let ghost pre_idx = mesh.indices@;
                    proof {
                        assert(c == (w as int - 1) * y2 as int + x2 as int && c == y2 as int * (
                        w as int - 1) + x2 as int && (w - 1) * y2 + (w - 1) <= (w - 1) * (h - 1)
                            && c + 1 <= (w - 1) * (h - 1) && (w - 1) * (h - 1) <= w * h && 6 * ((w
                            - 1) * (h - 1)) <= 6291456) by (nonlinear_arith)
                            requires
                                y2 < h - 1,
                                x2 < w - 1,
                                1 <= w <= 1024,
                                1 <= h <= 1024,
                                c == (w - 1) * y2 + x2,
                        ;
                        vstd::arithmetic::div_mod::lemma_fundamental_div_mod_converse(
                            c,
                            w as int - 1,
                            y2 as int,
                            x2 as int,
                        );
                        vstd::arithmetic::div_mod::lemma_fundamental_div_mod_converse_div(
                            c,
                            w as int - 1,
                            y2 as int,
                            x2 as int,
                        );
                        assert(j + w + 1 < w * h) by (nonlinear_arith)
                            requires
                                y2 < h - 1,
                                x2 < w - 1,
                                j == y2 * w + x2,
                                1 <= w,
                        ;
                    }
                    mesh.push_tri(j as u32, (j + 1) as u32, (j + w) as u32);
                    mesh.push_tri((j + 1) as u32, (j + w + 1) as u32, (j + w) as u32);
                    proof {
                        assert(grid_cell_ok(mesh.indices@, w as int, c));
                        assert forall|cc: int| 0 <= cc < c + 1 implies grid_cell_ok(
                            mesh.indices@,
                            w as int,
                            cc,
                        ) by {
                            if cc < c {
                                assert(grid_cell_ok(pre_idx, w as int, cc));
                                assert(6 * cc + 5 < pre_idx.len());
                                assert(mesh.indices@[6 * cc] == pre_idx[6 * cc]);
                                assert(mesh.indices@[6 * cc + 1] == pre_idx[6 * cc + 1]);
                                assert(mesh.indices@[6 * cc + 2] == pre_idx[6 * cc + 2]);
                                assert(mesh.indices@[6 * cc + 3] == pre_idx[6 * cc + 3]);
                                assert(mesh.indices@[6 * cc + 4] == pre_idx[6 * cc + 4]);
                                assert(mesh.indices@[6 * cc + 5] == pre_idx[6 * cc + 5]);
                            }
                        }
                    }
                }
                if x2 < w - 1 {
                    proof {
                        assert(j == w as int * y2 as int + x2 as int && j == y2 as int
                            * (w as int) + x2 as int && j + 1 < w * h) by (nonlinear_arith)
                            requires
                                y2 < h,
                                x2 < w - 1,
                                j == y2 * w + x2,
                                1 <= w,
                        ;
                        vstd::arithmetic::div_mod::lemma_fundamental_div_mod_converse(
                            j as int,
                            w as int,
                            y2 as int,
                            x2 as int,
                        );
                    }
                    connections.push(Connection { a: j, b: j + 1, rest_length: 65536 });
                }
                if y2 < h - 1 {
                    proof {
                        assert(j + w < w * h) by (nonlinear_arith)
                            requires
                                y2 < h - 1,
                                x2 < w,
                                j == y2 * w + x2,
                                1 <= w,
                        ;
                    }
                    connections.push(Connection { a: j, b: j + w, rest_length: 65536 });
                }
                x2 = x2 + 1;
            }
            proof {
                assert((w - 1) * y2 + (w - 1) == (w - 1) * (y2 + 1) && w * y2 + w == w * (y2 + 1))
                    by (nonlinear_arith);
            }
            y2 = y2 + 1;
        }
        proof {
            assert forall|i: int| 0 <= i < nodes@.len() implies node_bounded(
                #[trigger] nodes@[i],
            ) by {
                assert(grid_node_ok(nodes@, w as int, h as int, i));
                vstd::arithmetic::div_mod::lemma_mod_bound(i, w as int);
                vstd::arithmetic::div_mod::lemma_fundamental_div_mod(i, w as int);
                let q = i / (w as int);
                let r = i % (w as int);
                assert(0 <= q < h && 0 <= r * 46341 <= 47406843 && 0 <= q * 65536 <= 67108864)
                    by (nonlinear_arith)
                    requires
                        (w as int) * q + r == i,
                        0 <= r < w as int,
                        0 <= i < w * h,
                        1 <= w <= 1024,
                        1 <= h <= 1024,
                ;
            }
            assert forall|i: int| 0 <= i < flicker@.len() implies (#[trigger] flicker@[i])
                < nodes@.len() by {
                assert(flicker@[i] == (i * w + 1) as usize);
                assert(i * w + 1 < w * h) by (nonlinear_arith)
                    requires
                        0 <= i < h,
                        2 <= w,
                ;
            }
        }
        Cloth { mesh, nodes, connections, flicker }
    }
}


/// One node after Verlet integration: implicit velocity from the previous
/// position, gravity scaled by the squared time step, wind scaled by the
/// time step, then — for flicker-set nodes — the horizontal and depth
/// coordinates forced to the flicker target. The previous position becomes
/// the pre-step position. Locked nodes do not move at all.
pub open spec fn integrate_node_spec(
    nd: Node,
    member: bool,
    dt: int,
    wind: Vec3Fx,
    fl: Vec2Fx,
) -> Node {
    if nd.locked {
        nd
    } else {
        let g = muldiv(muldiv(80371, dt, 65536), dt, 65536);
        let vx = nd.position.x + (nd.position.x - nd.prev_position.x) + muldiv(
            wind.x as int,
            dt,
            65536,
        );
        let vy = nd.position.y + (nd.position.y - nd.prev_position.y) - g + muldiv(
            wind.y as int,
            dt,
            65536,
        );
        let vz = nd.position.z + (nd.position.z - nd.prev_position.z) + muldiv(
            wind.z as int,
            dt,
            65536,
        );
        let px = if member { fl.x as int } else { clamp_spec(vx, NODE_BOUND as int) };
        let pz = if member { fl.y as int } else { clamp_spec(vz, NODE_BOUND as int) };
        let py = clamp_spec(vy, NODE_BOUND as int);
        Node {
            position: Vec3Fx { x: px as i64, y: py as i64, z: pz as i64 },
            prev_position: nd.position,
            locked: nd.locked,
        }
    }
}

/// The whole node array after integration.
pub open spec fn integrate_spec(
    nodes: Seq<Node>,
    fl: Seq<usize>,
    dt: int,
    wind: Vec3Fx,
    flt: Vec2Fx,
) -> Seq<Node> {
    Seq::new(nodes.len(), |i: int| integrate_node_spec(nodes[i], in_flicker(fl, i), dt, wind, flt))
}

/// One relaxation of one connection: move each unlocked endpoint to half a
/// rest length from the pair's midpoint, along the pair's direction.
/// Coincident endpoints have no defined direction, so nothing moves.
pub open spec fn relax_conn_spec(nodes: Seq<Node>, c: Connection) -> Seq<Node> {
    let pa = nodes[c.a as int].position;
    let pb = nodes[c.b as int].position;
    let diff = Vec3Fx { x: (pa.x - pb.x) as i64, y: (pa.y - pb.y) as i64, z: (pa.z - pb.z) as i64 };
    let dist = norm_spec(diff);
    if dist == 0 {
        nodes
    } else {
        let cx = tdiv(pa.x + pb.x, 2);
        let cy = tdiv(pa.y + pb.y, 2);
        let cz = tdiv(pa.z + pb.z, 2);
        let half = tdiv(c.rest_length as int, 2);
        let ox = muldiv(diff.x as int, half, dist);
        let oy = muldiv(diff.y as int, half, dist);
        let oz = muldiv(diff.z as int, half, dist);
        let na = Vec3Fx {
            x: clamp_spec(cx + ox, NODE_BOUND as int) as i64,
            y: clamp_spec(cy + oy, NODE_BOUND as int) as i64,
            z: clamp_spec(cz + oz, NODE_BOUND as int) as i64,
        };
        let nb = Vec3Fx {
            x: clamp_spec(cx - ox, NODE_BOUND as int) as i64,
            y: clamp_spec(cy - oy, NODE_BOUND as int) as i64,
            z: clamp_spec(cz - oz, NODE_BOUND as int) as i64,
        };
        let s1 = if !nodes[c.a as int].locked {
            nodes.update(c.a as int, Node { position: na, ..nodes[c.a as int] })
        } else {
            nodes
        };
        if !s1[c.b as int].locked {
            s1.update(c.b as int, Node { position: nb, ..s1[c.b as int] })
        } else {
            s1
        }
    }
}

/// The node array after relaxing the first `k` connections, in insertion
/// order.
pub open spec fn relax_pass(nodes: Seq<Node>, conns: Seq<Connection>, k: int) -> Seq<Node>
    decreases k,
{
    if k <= 0 {
        nodes
    } else {
        relax_conn_spec(relax_pass(nodes, conns, k - 1), conns[k - 1])
    }
}

/// The node array after `it` full relaxation passes.
pub open spec fn relax_iters(nodes: Seq<Node>, conns: Seq<Connection>, it: int) -> Seq<Node>
    decreases it,
{
    if it <= 0 {
        nodes
    } else {
        relax_pass(relax_iters(nodes, conns, it - 1), conns, conns.len() as int)
    }
}

/// The vertex buffer with each position replaced by the matching node
/// position at the fixed visual scale of two.
pub open spec fn sync_verts(vs: Seq<Vertex>, nodes: Seq<Node>) -> Seq<Vertex> {
    Seq::new(
        vs.len(),
        |i: int| Vertex {
            position: Vec3Fx {
                x: (2 * nodes[i].position.x) as i64,
                y: (2 * nodes[i].position.y) as i64,
                z: (2 * nodes[i].position.z) as i64,
            },
            ..vs[i]
        },
    )
}

/// What one `Cloth::update` step with the given inputs does: the node
/// array is integrated, relaxed and unchanged in shape, and the mesh holds
/// the synced, renormalized vertices.
pub open spec fn cloth_step_ok(pre: Cloth, post: Cloth, dt: int, wind: Vec3Fx, flicker: Vec2Fx) -> bool {
    &&& post.connections@ == pre.connections@
    &&& post.flicker@ == pre.flicker@
    &&& post.nodes@ == relax_iters(
        integrate_spec(pre.nodes@, pre.flicker@, dt, wind, flicker),
        pre.connections@,
        RELAX_ITERS as int,
    )
    &&& post.mesh.indices@ == pre.mesh.indices@
    &&& post.mesh.vertices@ == normals_spec(
        sync_verts(pre.mesh.vertices@, post.nodes@),
        pre.mesh.indices@,
    )
    &&& post.mesh.vertices_dirty
}

/// Relaxing one connection never touches lengths, locked flags, previous
/// positions, or any field of a locked node.
pub proof fn lemma_relax_conn_shape(nodes: Seq<Node>, c: Connection)
    requires
        c.a < nodes.len(),
        c.b < nodes.len(),
    ensures
        relax_conn_spec(nodes, c).len() == nodes.len(),
        forall|i: int|
            0 <= i < nodes.len() ==> (#[trigger] relax_conn_spec(nodes, c)[i]).locked
                == nodes[i].locked && relax_conn_spec(nodes, c)[i].prev_position
                == nodes[i].prev_position,
        forall|i: int|
            0 <= i < nodes.len() && nodes[i].locked ==> (#[trigger] relax_conn_spec(nodes, c)[i])
                == nodes[i],
{
}

/// One relaxation pass never touches lengths, locked flags, previous
/// positions, or any field of a locked node.
pub proof fn lemma_relax_pass_shape(nodes: Seq<Node>, conns: Seq<Connection>, k: int)
    requires
        forall|i: int| 0 <= i < conns.len() ==> conn_ok(#[trigger] conns[i], nodes.len() as int),
        k <= conns.len(),
    ensures
        relax_pass(nodes, conns, k).len() == nodes.len(),
        forall|i: int|
            0 <= i < nodes.len() ==> (#[trigger] relax_pass(nodes, conns, k)[i]).locked
                == nodes[i].locked && relax_pass(nodes, conns, k)[i].prev_position
                == nodes[i].prev_position,
        forall|i: int|
            0 <= i < nodes.len() && nodes[i].locked ==> (#[trigger] relax_pass(nodes, conns, k)[i])
                == nodes[i],
    decreases k,
{
    if k > 0 {
        lemma_relax_pass_shape(nodes, conns, k - 1);
        lemma_relax_conn_shape(relax_pass(nodes, conns, k - 1), conns[k - 1]);
    }
}

/// Iterated relaxation never touches lengths, locked flags, previous
/// positions, or any field of a locked node.
pub proof fn lemma_relax_iters_shape(nodes: Seq<Node>, conns: Seq<Connection>, it: int)
    requires
        forall|i: int| 0 <= i < conns.len() ==> conn_ok(#[trigger] conns[i], nodes.len() as int),
    ensures
        relax_iters(nodes, conns, it).len() == nodes.len(),
        forall|i: int|
            0 <= i < nodes.len() ==> (#[trigger] relax_iters(nodes, conns, it)[i]).locked
                == nodes[i].locked && relax_iters(nodes, conns, it)[i].prev_position
                == nodes[i].prev_position,
        forall|i: int|
            0 <= i < nodes.len() && nodes[i].locked ==> (#[trigger] relax_iters(nodes, conns, it)[
                i
            ]) == nodes[i],
    decreases it,
{
    if it > 0 {
        lemma_relax_iters_shape(nodes, conns, it - 1);
        lemma_relax_pass_shape(relax_iters(nodes, conns, it - 1), conns, conns.len() as int);
    }
}

/// Whether `i` stands in the flicker set.
fn contains_idx(v: &Vec<usize>, i: usize) -> (r: bool)
    ensures
        r == in_flicker(v@, i as int),
{
    let n = v.len();
    let mut k: usize = 0;
    while k < n
        invariant
            k <= n,
            n == v@.len(),
            forall|j: int| 0 <= j < k ==> (#[trigger] v@[j]) != i,
        decreases n - k,
    {
        if v[k] == i {
            return true;
        }
        k = k + 1;
    }
    false
}

/// Verlet-integrate a single node.
fn integrate_one(nd: Node, member: bool, dt: i64, wind: Vec3Fx, fl: Vec2Fx) -> (r: Node)
    requires
        node_bounded(nd),
        0 <= dt <= DT_MAX,
        wind.bounded(WIND_MAX as int),
        -NODE_BOUND <= fl.x <= NODE_BOUND,
        -NODE_BOUND <= fl.y <= NODE_BOUND,
    ensures
        r == integrate_node_spec(nd, member, dt as int, wind, fl),
        node_bounded(r),
{
    if nd.locked {
        return nd;
    }
    proof {
        assert(-(160742 * 65536) <= 80371 * (dt as int) <= 160742 * 65536) by (nonlinear_arith)
            requires
                0 <= dt <= 131072,
        ;
        lemma_tdiv_mag(80371 * (dt as int), 65536, 160742);
    }
    let g1 = fx::mul_div(GRAVITY, dt, fx::SCALE);
    proof {
        assert(-(321484 * 65536) <= (g1 as int) * (dt as int) <= 321484 * 65536)
            by (nonlinear_arith)
            requires
                -160742 <= g1 <= 160742,
                0 <= dt <= 131072,
        ;
        lemma_tdiv_mag((g1 as int) * (dt as int), 65536, 321484);
        assert(-(8388608 * 65536) <= (wind.x as int) * (dt as int) <= 8388608 * 65536
            && -(8388608 * 65536) <= (wind.y as int) * (dt as int) <= 8388608 * 65536 && -(8388608
            * 65536) <= (wind.z as int) * (dt as int) <= 8388608 * 65536) by (nonlinear_arith)
            requires
                wind.bounded(4194304),
                0 <= dt <= 131072,
        ;
        lemma_tdiv_mag((wind.x as int) * (dt as int), 65536, 8388608);
        lemma_tdiv_mag((wind.y as int) * (dt as int), 65536, 8388608);
        lemma_tdiv_mag((wind.z as int) * (dt as int), 65536, 8388608);
    }
    let g = fx::mul_div(g1, dt, fx::SCALE);
    let wx = fx::mul_div(wind.x, dt, fx::SCALE);
    let wy = fx::mul_div(wind.y, dt, fx::SCALE);
    let wz = fx::mul_div(wind.z, dt, fx::SCALE);
    let vx = nd.position.x + (nd.position.x - nd.prev_position.x) + wx;
    let vy = nd.position.y + (nd.position.y - nd.prev_position.y) - g + wy;
    let vz = nd.position.z + (nd.position.z - nd.prev_position.z) + wz;
    let px: i64 = if member { fl.x } else { fx::clamp(vx, NODE_BOUND) };
    let pz: i64 = if member { fl.y } else { fx::clamp(vz, NODE_BOUND) };
    let py: i64 = fx::clamp(vy, NODE_BOUND);
    Node {
        position: Vec3Fx { x: px, y: py, z: pz },
        prev_position: nd.position,
        locked: nd.locked,
    }
}

/// Relax one connection in place.
fn relax_one(nodes: &mut Vec<Node>, c: Connection)
    requires
        conn_ok(c, old(nodes)@.len() as int),
        forall|i: int| 0 <= i < old(nodes)@.len() ==> node_bounded(#[trigger] old(nodes)@[i]),
    ensures
        final(nodes)@ == relax_conn_spec(old(nodes)@, c),
        final(nodes)@.len() == old(nodes)@.len(),
        forall|i: int| 0 <= i < final(nodes)@.len() ==> node_bounded(#[trigger] final(nodes)@[i]),
{
    let pa = nodes[c.a].position;
    let pb = nodes[c.b].position;
    let diff = pa.vsub(pb);
    let dist = vnorm(diff);
    if dist == 0 {
        return;
    }
    proof {
        lemma_tdiv_mag(pa.x + pb.x, 2, NODE_BOUND as int);
        lemma_tdiv_mag(pa.y + pb.y, 2, NODE_BOUND as int);
        lemma_tdiv_mag(pa.z + pb.z, 2, NODE_BOUND as int);
        lemma_tdiv_mag(c.rest_length as int, 2, 524288);
    }
    let cx = fx::sdiv(pa.x + pb.x, 2);
    let cy = fx::sdiv(pa.y + pb.y, 2);
    let cz = fx::sdiv(pa.z + pb.z, 2);
    let half = fx::sdiv(c.rest_length, 2);
    proof {
        lemma_muldiv_ratio2(diff.x as int, half as int, dist as int, 524288);
        lemma_muldiv_ratio2(diff.y as int, half as int, dist as int, 524288);
        lemma_muldiv_ratio2(diff.z as int, half as int, dist as int, 524288);
    }
    let ox = fx::mul_div(diff.x, half, dist);
    let oy = fx::mul_div(diff.y, half, dist);
    let oz = fx::mul_div(diff.z, half, dist);
    let na = Vec3Fx {
        x: fx::clamp(cx + ox, NODE_BOUND),
        y: fx::clamp(cy + oy, NODE_BOUND),
        z: fx::clamp(cz + oz, NODE_BOUND),
    };
    let nb = Vec3Fx {
        x: fx::clamp(cx - ox, NODE_BOUND),
        y: fx::clamp(cy - oy, NODE_BOUND),
        z: fx::clamp(cz - oz, NODE_BOUND),
    };
    if !nodes[c.a].locked {
        let mut nd = nodes[c.a];
        nd.position = na;
        nodes[c.a] = nd;
    }
    if !nodes[c.b].locked {
        let mut nd = nodes[c.b];
        nd.position = nb;
        nodes[c.b] = nd;
    }
}

impl Cloth {
    /// One simulation step: Verlet integration with gravity, wind and the
    /// flicker override, `RELAX_ITERS` passes of constraint relaxation over
    /// the connections in insertion order, then a sync of every node
    /// position (at visual scale two) into the mesh followed by a normal
    /// recomputation. The new node array is exactly
    /// `relax_iters(integrate_spec(..), .., RELAX_ITERS)`; locked nodes
    /// keep both their position and previous position.
    pub fn update(&mut self, delta_time: i64, wind: Vec3Fx, flicker: Vec2Fx)
        requires
            old(self).wf(),
            0 <= delta_time <= DT_MAX,
            wind.bounded(WIND_MAX as int),
            -NODE_BOUND <= flicker.x <= NODE_BOUND,
            -NODE_BOUND <= flicker.y <= NODE_BOUND,
        ensures
            final(self).wf(),
            final(self).connections@ == old(self).connections@,
            final(self).flicker@ == old(self).flicker@,
            final(self).nodes@.len() == old(self).nodes@.len(),
            final(self).nodes@ == relax_iters(
                integrate_spec(
                    old(self).nodes@,
                    old(self).flicker@,
                    delta_time as int,
                    wind,
                    flicker,
                ),
                old(self).connections@,
                RELAX_ITERS as int,
            ),
            final(self).mesh.indices@ == old(self).mesh.indices@,
            final(self).mesh.vertices@ == normals_spec(
                sync_verts(old(self).mesh.vertices@, final(self).nodes@),
                old(self).mesh.indices@,
            ),
            final(self).mesh.vertices_dirty,
            cloth_step_ok(*old(self), *final(self), delta_time as int, wind, flicker),
            forall|i: int|
                0 <= i < old(self).nodes@.len() ==> (#[trigger] final(self).nodes@[i]).locked
                    == old(self).nodes@[i].locked,
            forall|i: int|
                0 <= i < old(self).nodes@.len() && old(self).nodes@[i].locked ==> (
                #[trigger] final(self).nodes@[i]).position == old(self).nodes@[i].position
                    && final(self).nodes@[i].prev_position == old(self).nodes@[i].prev_position,
            forall|i: int|
                0 <= i < old(self).nodes@.len() && !old(self).nodes@[i].locked ==> (
                #[trigger] final(self).nodes@[i]).prev_position == old(self).nodes@[i].position,
    {
        let ghost nodes0 = self.nodes@;
        let ghost fl0 = self.flicker@;
        let ghost conns0 = self.connections@;
        let n = self.nodes.len();

        // Integration.
        let mut i: usize = 0;
        while i < n
            invariant
                n == self.nodes@.len(),
                nodes0.len() == n,
                i <= n,
                0 <= delta_time <= DT_MAX,
                wind.bounded(WIND_MAX as int),
                -NODE_BOUND <= flicker.x <= NODE_BOUND,
                -NODE_BOUND <= flicker.y <= NODE_BOUND,
                self.flicker@ == fl0,
                self.connections@ == conns0,
                self.mesh == old(self).mesh,
                forall|j: int|
                    0 <= j < i ==> self.nodes@[j] == #[trigger] integrate_spec(
                        nodes0,
                        fl0,
                        delta_time as int,
                        wind,
                        flicker,
                    )[j],
                forall|j: int| i <= j < n ==> self.nodes@[j] == nodes0[j],
                forall|j: int| 0 <= j < n ==> node_bounded(#[trigger] nodes0[j]),
                forall|j: int| 0 <= j < n ==> node_bounded(#[trigger] self.nodes@[j]),
            decreases n - i,
        {
            let member = contains_idx(&self.flicker, i);
            let nd = self.nodes[i];
            let newnd = integrate_one(nd, member, delta_time, wind, flicker);
            self.nodes[i] = newnd;
            i = i + 1;
        }
        assert(self.nodes@ =~= integrate_spec(nodes0, fl0, delta_time as int, wind, flicker));
        let ghost base = self.nodes@;

        // Relaxation.
        let m = self.connections.len();
        let mut it: usize = 0;
        while it < RELAX_ITERS
            invariant
                it <= RELAX_ITERS,
                n == self.nodes@.len(),
                m == conns0.len(),
                base.len() == n,
                self.flicker@ == fl0,
                self.connections@ == conns0,
                self.mesh == old(self).mesh,
                forall|k: int| 0 <= k < conns0.len() ==> conn_ok(#[trigger] conns0[k], n as int),
                self.nodes@ == relax_iters(base, conns0, it as int),
                forall|j: int| 0 <= j < n ==> node_bounded(#[trigger] self.nodes@[j]),
            decreases RELAX_ITERS - it,
        {
            let ghost pass_base = self.nodes@;
            let mut k: usize = 0;
            while k < m
                invariant
                    k <= m,
                    n == self.nodes@.len(),
                    m == conns0.len(),
                    pass_base.len() == n,
                    self.flicker@ == fl0,
                    self.connections@ == conns0,
                    self.mesh == old(self).mesh,
                    forall|kk: int| 0 <= kk < conns0.len() ==> conn_ok(#[trigger] conns0[kk], n as int),
                    self.nodes@ == relax_pass(pass_base, conns0, k as int),
                    forall|j: int| 0 <= j < n ==> node_bounded(#[trigger] self.nodes@[j]),
                decreases m - k,
            {
                let c = self.connections[k];
                relax_one(&mut self.nodes, c);
                k = k + 1;
            }
            it = it + 1;
        }
        let ghost nodes_f = self.nodes@;

        // Sync into the mesh, then recompute normals.
        let ghost verts0 = self.mesh.vertices@;
        let mut i2: usize = 0;
        while i2 < n
            invariant
                i2 <= n,
                n == self.nodes@.len(),
                self.nodes@ == nodes_f,
                verts0.len() == n,
                self.mesh.vertices@.len() == n,
                self.mesh.wf(),
                self.mesh.indices@ == old(self).mesh.indices@,
                self.flicker@ == fl0,
                self.connections@ == conns0,
                forall|j: int| 0 <= j < n ==> node_bounded(#[trigger] self.nodes@[j]),
                forall|j: int|
                    0 <= j < i2 ==> self.mesh.vertices@[j] == #[trigger] sync_verts(
                        verts0,
                        nodes_f,
                    )[j],
                forall|j: int| i2 <= j < n ==> self.mesh.vertices@[j] == verts0[j],
            decreases n - i2,
        {
            let p = self.nodes[i2].position;
            let dp = Vec3Fx { x: p.x + p.x, y: p.y + p.y, z: p.z + p.z };
            self.mesh.set_position(i2, dp);
            i2 = i2 + 1;
        }
        assert(self.mesh.vertices@ =~= sync_verts(verts0, nodes_f));
        self.mesh.calculate_normals();
        proof {
            lemma_relax_iters_shape(base, conns0, RELAX_ITERS as int);
            assert forall|i3: int| 0 <= i3 < nodes0.len() implies (#[trigger] self.nodes@[i3]).locked
                == nodes0[i3].locked && (nodes0[i3].locked ==> self.nodes@[i3].position == nodes0[
                i3
            ].position && self.nodes@[i3].prev_position == nodes0[i3].prev_position) && (!nodes0[
                i3
            ].locked ==> self.nodes@[i3].prev_position == nodes0[i3].position) by {
                assert(base[i3] == integrate_node_spec(
                    nodes0[i3],
                    in_flicker(fl0, i3),
                    delta_time as int,
                    wind,
                    flicker,
                ));
            }
        }
    }
}


/// One relaxation of a connection whose unlocked endpoints differ along a
/// single axis restores their separation to exactly the rest length: the
/// distance error of such a pair drops to zero in one pass. (For general
/// directions the integer direction vector is rounded, so the restored
/// separation is exact only up to that rounding.)
pub proof fn lemma_relax_restores_axis_pair(nodes: Seq<Node>, c: Connection)
    requires
        conn_ok(c, nodes.len() as int),
        c.a != c.b,
        !nodes[c.a as int].locked,
        !nodes[c.b as int].locked,
        nodes[c.a as int].position.bounded((NODE_BOUND as int) / 2),
        nodes[c.b as int].position.bounded((NODE_BOUND as int) / 2),
        nodes[c.a as int].position.y == nodes[c.b as int].position.y,
        nodes[c.a as int].position.z == nodes[c.b as int].position.z,
        nodes[c.a as int].position.x != nodes[c.b as int].position.x,
        c.rest_length % 2 == 0,
    ensures
        ({
            let r = relax_conn_spec(nodes, c);
            let pa = r[c.a as int].position;
            let pb = r[c.b as int].position;
            pa.y == pb.y && pa.z == pb.z && (pa.x - pb.x == if nodes[c.a as int].position.x
                > nodes[c.b as int].position.x {
                c.rest_length as int
            } else {
                -(c.rest_length as int)
            }) && norm_spec(
                Vec3Fx { x: (pa.x - pb.x) as i64, y: (pa.y - pb.y) as i64, z: (pa.z - pb.z) as i64 },
            ) == c.rest_length
        }),
{
    let pa0 = nodes[c.a as int].position;
    let pb0 = nodes[c.b as int].position;
    let d = pa0.x - pb0.x;
    let diff = Vec3Fx { x: d as i64, y: 0i64, z: 0i64 };
    let m: int = if d >= 0 { d } else { -d };
    assert(m * m == d * d && d * d > 0) by (nonlinear_arith)
        requires
            m == if d >= 0 { d } else { -d },
            d != 0,
    ;
    fx::lemma_sqrt_square(m);
    assert(norm2_spec(diff) == d * d);
    let dist = norm_spec(diff);
    assert(dist == m);
    let half = tdiv(c.rest_length as int, 2);
    vstd::arithmetic::div_mod::lemma_fundamental_div_mod(c.rest_length as int, 2);
    assert(2 * half == c.rest_length);
    assert(half > 0);
    // The offset along the axis is exactly half the rest length, signed.
    vstd::arithmetic::div_mod::lemma_div_multiples_vanish(half, m);
    assert(d * half == m * half || d * half == -(m * half)) by (nonlinear_arith)
        requires
            m == if d >= 0 { d } else { -d },
    ;
    let ox = muldiv(d, half, dist);
    assert((m * half) / m == half);
    if d >= 0 {
        assert(d * half >= 0) by (nonlinear_arith)
            requires
                d >= 0,
                half > 0,
        ;
        assert(ox == half);
    } else {
        assert(d * half < 0) by (nonlinear_arith)
            requires
                d < 0,
                half > 0,
        ;
        assert(-(d * half) == m * half) by (nonlinear_arith)
            requires
                m == -d,
        ;
        assert(ox == -half);
    }
    assert(muldiv(0, half, dist) == 0) by {
        assert(0 * half == 0) by (nonlinear_arith);
        vstd::arithmetic::div_mod::lemma_div_basics(dist);
    }
    let r = relax_conn_spec(nodes, c);
    assert(r[c.a as int].position.x - r[c.b as int].position.x == 2 * ox);
    let e = r[c.a as int].position.x - r[c.b as int].position.x;
    let de = Vec3Fx { x: e as i64, y: 0i64, z: 0i64 };
    assert(e == c.rest_length || e == -(c.rest_length as int));
    let me: int = if e >= 0 { e } else { -e };
    assert(me == c.rest_length);
    assert(me * me == e * e) by (nonlinear_arith)
        requires
            me == if e >= 0 { e } else { -e },
    ;
    fx::lemma_sqrt_square(me);
    assert(norm2_spec(de) == e * e);
}

} // verus!
