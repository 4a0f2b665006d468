//! A terminal renderer for a rotating, Rubik's-style subdivided cube.
//!
//! All geometry and shading arithmetic is carried out in signed fixed-point
//! (scale `SCALE`), so that every stage of the pipeline — point-cloud
//! generation, rotation, projection, depth-buffered rasterization and the
//! minimal-diff frame emitter — is exact integer arithmetic with verified
//! contracts.

pub mod ansi_escape_code;
pub mod color;
pub mod diff;
pub mod fixed;
pub mod frame;
pub mod geometry;
pub mod lighting;
pub mod raster;
pub mod vector;
