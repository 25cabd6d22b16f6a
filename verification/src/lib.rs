//! Procedural mesh core for an orchard scene: a mass-spring cloth solved by
//! Verlet integration with distance-constraint relaxation, and a recursive
//! procedural tree-mesh generator with a two-stage growth state machine.
//!
//! All geometry is carried in signed 64-bit fixed-point coordinates
//! (`fx::SCALE` units per world unit), so the simulators' behavior is
//! pinned down exactly: indices always reference valid vertices, locked
//! cloth nodes never move, a cloth step is a function of its inputs, the
//! growth stage advances exactly once, and tree generation is a function
//! of the shape parameters and the random angle draws alone — with an
//! index buffer that is a fixed constant per stage.

pub mod cloth;
pub mod fx;
pub mod mesh;
pub mod rng;
pub mod structure;
pub mod tree;
pub mod vec3;
