//! Verified core of an interactive canvas toolkit: selection state,
//! pointer-interaction decisions, hit testing, spatial cells, mesh index
//! buffers and transform-group bookkeeping.

pub mod coords;
pub mod geometry;
pub mod hit;
pub mod id_set;
pub mod interaction;
pub mod loading;
pub mod painter;
pub mod selection;
pub mod sketch;
pub mod spatial;
pub mod zoom;
