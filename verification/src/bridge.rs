//! The bridge between a daemon's ST 2110-30 streams and MXL flows.

pub mod alsa_capture;
pub mod alsa_playback;
pub mod audio_paths;
pub mod audiotest;
pub mod config;
pub mod daemon_client;
pub mod mxl_domain;
pub mod mxl_flow;
pub mod mxl_samples;
pub mod nmos;
pub mod parking;
pub mod provision;
