//! The bridge's configuration.

use vstd::prelude::*;

use crate::bridge::provision::Capacity;

verus! {

/// What a configuration says where it does not.
pub const DEFAULT_TX_PERIOD_FRAMES: u32 = 48;

pub const DEFAULT_TX_BUFFER_PERIODS: u32 = 4;

pub const DEFAULT_RX_BUFFER_PERIODS: u32 = 32;

pub const DEFAULT_RT_PRIORITY: u8 = 70;

pub const DEFAULT_DAEMON_POLL_INTERVAL_MS: u64 = 1500;

pub const DEFAULT_ALSA_CHANNELS_FALLBACK: u8 = 64;

/// The bridge's configuration.
#[derive(Debug)]
pub struct Config {
    /// The capture device.
    pub alsa_source_device: String,
    pub sample_rate: u32,
    /// The capture period in frames, which is also what is written into a flow at once.
    pub period_frames: u32,
    /// The playback period in frames.
    pub tx_period_frames: u32,
    /// The depth of the playback buffer in periods.
    pub tx_buffer_periods: u32,
    /// The depth of the capture buffer in periods.
    pub rx_buffer_periods: u32,
    /// The real-time priority of the audio threads; zero leaves them alone.
    pub rt_priority: u8,
    /// The directory of the domain.
    pub mxl_domain: String,
    pub nmos_node_port: u16,
    pub nmos_label: String,
    /// The registry; without one nothing is registered.
    pub nmos_registry_address: Option<String>,
    pub nmos_registry_port: u16,
    pub interface_name: String,
    /// The address at which the node is reached.
    pub ip_addr: String,
    /// The playback device, where it is not the capture device.
    pub tx_alsa_playback_device: Option<String>,
    /// Where the daemon answers.
    pub daemon_api_url: String,
    pub daemon_poll_interval_ms: u64,
    /// The width of the device where the daemon does not say.
    pub alsa_channels_fallback: u8,
    /// The library to load.
    pub mxl_so_path: Option<String>,
    /// Where activations are kept over a restart.
    pub state_path: Option<String>,
    /// The layout that is enforced on the daemon.
    pub capacity: Option<Capacity>,
}

impl Config {
    /// The playback device: the capture device, where no other is named.
    pub fn playback_device(&self) -> (r: &str)
        ensures
            r@ == (match self.tx_alsa_playback_device {
                Some(d) => d@,
                None => self.alsa_source_device@,
            }),
    {
        match &self.tx_alsa_playback_device {
            Some(d) => d.as_str(),
            None => self.alsa_source_device.as_str(),
        }
    }

    /// The playback buffer in frames: at least two periods.
    pub fn playback_buffer(&self) -> (r: u64)
        ensures
            r == self.tx_period_frames * (if self.tx_buffer_periods < 2 {
                2
            } else {
                self.tx_buffer_periods as int
            }),
    {
        let periods: u64 = if self.tx_buffer_periods < 2 {
            2
        } else {
            self.tx_buffer_periods as u64
        };
        let frames: u64 = self.tx_period_frames as u64;
        assert(frames * periods <= 0xffff_ffff * 0xffff_ffff) by (nonlinear_arith)
            requires
                0 <= frames <= 0xffff_ffff,
                0 <= periods <= 0xffff_ffff,
        ;
        frames * periods
    }
}

} // verus!
