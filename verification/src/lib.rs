//! The decisions of a software rendering pipeline for triangle meshes.
//!
//! A frame is drawn by the painter's algorithm: faces that look away from the
//! camera are culled, the others are ordered back to front, and those that
//! leave the depth range of the view volume are dropped. This crate holds
//! those decisions, the grammar of a mesh file, the colour of a face and the
//! angle of the animation.
//!
//! No arithmetic on coordinates is done here. A caller works the coordinates
//! out, measures each face, and hands over integers that are ordered as the
//! measured quantities are; a double can be handed over by its bits.

pub mod angle;
pub mod arrange;
pub mod color;
pub mod frame;
pub mod mesh;
pub mod painter;
pub mod rank;
pub mod scan;
