//! Geometry-to-viewport normalisation and orbit-animation planning for
//! triangle meshes, on an integer coordinate grid.
//!
//! Every coordinate handled here is a whole number of grid units. A caller
//! that holds real-valued data picks a grid pitch, rounds onto the grid, and
//! divides the planned quantities back when it draws.

pub mod error;
pub mod geometry;
pub mod mesh;
pub mod objects;
pub mod bounds;
pub mod viewport;
pub mod sampling;
pub mod orbit;
pub mod scene;
