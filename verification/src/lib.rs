//! Verified core of a voxel-and-pipe visualization tool.
//!
//! A solver process emits a flat token stream describing which label sits in
//! each cell of a 3D grid and which cells carry a pipe segment.  This crate
//! parses that stream into coordinate-keyed maps, assigns one color per block
//! label, and plans the cubes and pipe prisms a renderer has to spawn.  The
//! windowing, meshing and camera work stays outside, in the rendering shell.

pub mod controls;
pub mod direction;
pub mod layout;
pub mod parse;
pub mod scene;
