//! Decodes DNS responses captured off the wire and renders each one as a chain
//! from the queried name to its addresses, aliases and service-binding hints.

pub mod capture;
pub mod frame;
pub mod laws;
pub mod message;
pub mod name;
pub mod render;
pub mod text;
