//! Procedural line-art pattern generators for pen-plotter output.
//!
//! Two independent generators share one design: a grid of cells whose
//! strokes are driven by a smooth noise field.
//!
//! * the flow-field builder fills each rectangular cell with parallel
//!   line segments oriented by a noise-derived direction, clipped to the
//!   cell and colored probabilistically;
//! * the radial-ramp builder turns each hexagonal cell into a solid
//!   outline or a randomized dash pattern, chosen by a tone value that
//!   blends a radial brightness ramp with noise.
//!
//! All scalar quantities (coordinates, noise samples, random draws,
//! parameters) are fixed-point integers with [`fx::ONE`] as the unit, so
//! every computation here is exact integer arithmetic with a proved
//! contract.  Sampling the noise field, drawing random numbers and
//! emitting the finished document are left to the caller, which hands
//! the drawn values in and receives the strokes to emit.

pub mod color;
pub mod flow;
pub mod fx;
pub mod geom;
pub mod hex;
