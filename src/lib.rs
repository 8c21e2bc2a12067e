//! Neighbor index and scheduling logic for a two-dimensional SPH fluid.
//!
//! Particles are binned into square cells of side `h`; the library builds the
//! two interchangeable neighbor indexes over those cells (a hash map from cell
//! to particle list, and a compressed `starts`/`entries` layout produced by a
//! counting sort with a blocked prefix sum), answers 3x3 neighborhood queries
//! on both, and holds the small decision procedures that drive a tick.
pub mod cell;

pub mod matching;

pub mod scan;

pub mod params;

pub mod csr;

pub mod cell_map;

pub mod lattice;

pub mod dispatch;

pub mod readback;
