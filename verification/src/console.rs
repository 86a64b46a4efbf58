//! The mixer: its channel strips, buses and masters, and the patch bay between them.

pub mod beginnings;
pub mod config;
pub mod control;
pub mod dsp;
pub mod engine;
pub mod ids;
pub mod layout;
pub mod mixer;
pub mod nmos;
pub mod patch;
pub mod persistence;
pub mod signal_flow;
pub mod startup;
pub mod strips;
pub mod topology;
pub mod ws;
