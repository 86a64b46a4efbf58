//! The bridge as an NMOS node: a source, a flow and a sender for every Sink of the daemon, and a
//! receiver for every Source.

pub mod connections;
pub mod crosspoints;
pub mod is08;
pub mod mirrors;
pub mod mxl_transport;
pub mod persist;
pub mod registration;
pub mod resources;
pub mod server;
pub mod state;
pub mod sync;
