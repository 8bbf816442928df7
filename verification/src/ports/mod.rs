//! Pure parts of the explorer's ports: the values their callers count
//! and the wire constants they share.

pub mod edge_emitter;
pub mod symbol_repository;
