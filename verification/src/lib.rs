//! A rock-paper-scissors agent simulation core.
//!
//! Agents of three kinds move around a rectangular arena, chase their prey,
//! flee their predators, and convert opponents on contact according to the
//! rock-paper-scissors cycle. Geometry is carried in fixed-point integer
//! coordinates; the embedding host decides the unit (pixels, millipixels, ...).
//!
//! The crate is organised bottom-up: `kind` holds the three-kind cycle,
//! `geom` the integer vector arithmetic (squared distances, square roots,
//! steering displacements), `index` the per-kind spatial index, `agent` the
//! per-agent record, `resources` the host-facing control state, and `sim`
//! the simulation itself with its per-tick stages.

pub mod agent;
pub mod geom;
pub mod index;
pub mod kind;
pub mod resources;
pub mod rng;
pub mod sim;
pub mod utils;
