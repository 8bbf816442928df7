//! Verified core of the code explorer: the MoldQL / ExplorerQL query
//! language and the pure rules around it.

pub mod text;
pub mod number;
pub mod moldql;
pub mod views;
pub mod view_spec_payload;
pub mod ports;
pub mod scaffold;
pub mod session;
pub mod registry;
pub mod service;
