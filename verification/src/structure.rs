//! The composition point: a tagged choice between a cloth-backed pole
//! ("flag") and a tree, exposing one update entry point to the
//! surrounding tile logic.

use vstd::prelude::*;

use crate::cloth::{cloth_step_ok, grid_node_ok, Cloth};
use crate::fx;
use crate::fx::{clamp_spec, cos_spec, muldiv, sin_spec};
use crate::mesh::Mesh;
use crate::tree::{tree_step_ok, Tree, TreeStage, SAPLING_INDICES, SAPLING_VERTS};
use crate::vec3::{Vec2Fx, Vec3Fx};

verus! {

/// Largest time step `Structure::update` accepts (one second; the pole's
/// cloth is stepped at double time every other frame).
pub const STRUCT_DT_MAX: i64 = 65536;

/// The pole's accumulated time saturates here, in raw seconds.
pub const POLE_TIME_CAP: i64 = 549755813888;

/// Binary angle units the flicker phase advances per raw second: ten
/// radians per second.
pub const FLICKER_RATE: i64 = 104304;

/// Upper bound (exclusive) of the pole's random initial phase: half a
/// turn of raw seconds.
pub const POLE_PHASE_MAX: i64 = 205887;

/// The constant wind the pole's cloth feels.
pub open spec fn pole_wind() -> Vec3Fx {
    Vec3Fx { x: -81920i64, y: 0i64, z: -81920i64 }
}

/// The flicker target at a given accumulated time: a circle of unit
/// radius around `(-1, -1)`, traversed at `FLICKER_RATE`.
pub open spec fn pole_flicker(time: int) -> Vec2Fx {
    let a = muldiv(time, FLICKER_RATE as int, 65536);
    Vec2Fx { x: (cos_spec(a) - 65536) as i64, y: (sin_spec(a) - 65536) as i64 }
}

/// A structure standing on a tile: a flag pole with a simulated cloth, or
/// a growing tree.
pub enum Structure {
    Pole { cloth: Cloth, frames: u8, time: i64 },
    Tree(Tree),
}

impl Structure {
    /// The standing invariant of either variant.
    pub open spec fn wf(self) -> bool {
        match self {
            Structure::Pole { cloth, frames, time } => cloth.wf() && frames <= 1 && 0 <= time
                <= POLE_TIME_CAP,
            Structure::Tree(t) => t.wf(),
        }
    }

    /// A fresh flag pole: a 15 x 4 cloth and a random flicker phase.
    pub fn pole(rng: &mut rand::rngs::StdRng) -> (r: Structure)
        ensures
            r.wf(),
            (r matches Structure::Pole { cloth, frames, time } && frames == 0 && 0 <= time
                < POLE_PHASE_MAX && cloth.nodes@.len() == 60 && cloth.mesh.indices@.len() == 252
                && cloth.connections@.len() == 101 && (forall|j: int|
                0 <= j < 60 ==> grid_node_ok(cloth.nodes@, 15, 4, j))),
    {
        let time = crate::rng::rng_range(rng, 0, POLE_PHASE_MAX);
        let cloth = Cloth::generate(15, 4);
        Structure::Pole { cloth, frames: 0, time }
    }

    /// A fresh tree: bark and leaf colors, a four-unit trunk radius
    /// tapering by four fifths per level, eight-unit segments, and a
    /// generated sapling mesh.
    pub fn tree(rng: &mut rand::rngs::StdRng) -> (r: Structure)
        ensures
            r.wf(),
            (r matches Structure::Tree(t) && t.stage == TreeStage::Sapling(0i64)
                && t.mesh.vertices@.len() == SAPLING_VERTS && t.mesh.indices@.len()
                == SAPLING_INDICES),
    {
        let mut t = Tree::default_with(
            262144,
            52429,
            524288,
            crate::mesh::Color { r: 180, g: 105, b: 43 },
            crate::mesh::Color { r: 76, g: 193, b: 59 },
        );
        t.generate_mesh_sapling(rng);
        Structure::Tree(t)
    }

    /// Step the structure by one frame. A tree advances its growth. A pole
    /// accumulates time every frame but steps its cloth only every second
    /// frame, at doubled time step, under constant wind and the circular
    /// flicker target — unless the scene shares one instanced cloth, in
    /// which case the pole is left entirely alone.
    pub fn update(
        &mut self,
        delta_time: i64,
        instanced_cloth: bool,
        rng: &mut rand::rngs::StdRng,
    )
        requires
            old(self).wf(),
            0 <= delta_time <= STRUCT_DT_MAX,
        ensures
            final(self).wf(),
            (*old(self) matches Structure::Tree(t) ==> (*final(self) matches Structure::Tree(t2)
                && tree_step_ok(t, t2, delta_time as int))),
            ((*old(self)) matches Structure::Pole { cloth, frames, time } ==> (if instanced_cloth {
                *final(self) == *old(self)
            } else {
                (*final(self)) matches Structure::Pole { cloth: c2, frames: f2, time: t2 } && t2
                    == clamp_spec(time + delta_time, POLE_TIME_CAP as int) && (frames + 1 >= 2
                    ==> f2 == 0 && cloth_step_ok(
                    cloth,
                    c2,
                    2 * delta_time,
                    pole_wind(),
                    pole_flicker(t2 as int),
                )) && (frames + 1 < 2 ==> f2 == frames + 1 && c2 == cloth)
            })),
    {
        match self {
            Structure::Pole { cloth, frames, time } => {
                if instanced_cloth {
                    return ;
                }
                *frames = *frames + 1;
                *time = fx::clamp(*time + delta_time, POLE_TIME_CAP);
                if *frames >= 2 {
                    *frames = 0;
                    proof {
                        assert(-1099511627776 * 65536 <= (*time as int) * 104304
                            <= 1099511627776 * 65536) by (nonlinear_arith)
                            requires
                                0 <= *time <= 549755813888,
                        ;
                        crate::vec3::lemma_tdiv_mag((*time as int) * 104304, 65536, 1099511627776);
                    }
                    let a = fx::mul_div_wide(*time, FLICKER_RATE, fx::SCALE);
                    proof {
                        fx::lemma_sin_bounds(a as int);
                        fx::lemma_sin_bounds(a as int + 16384);
                    }
                    let flicker = Vec2Fx { x: fx::cos_fx(a) - 65536, y: fx::sin_fx(a) - 65536 };
                    let wind = Vec3Fx { x: -81920, y: 0, z: -81920 };
                    cloth.update(2 * delta_time, wind, flicker);
                }
            },
            Structure::Tree(t) => {
                t.update(delta_time, rng);
            },
        }
    }

    /// Read access to the owned mesh, for the rendering collaborator.
    pub fn mesh(&self) -> (r: &Mesh)
        ensures
            *r == (match *self {
                Structure::Pole { cloth, frames, time } => cloth.mesh,
                Structure::Tree(t) => t.mesh,
            }),
    {
        match self {
            Structure::Pole { cloth, .. } => &cloth.mesh,
            Structure::Tree(t) => &t.mesh,
        }
    }
}

} // verus!
