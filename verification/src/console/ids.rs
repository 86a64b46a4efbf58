//! The ids of the mixer's resources, and those of the bridge's flows that it connects to.
//!
//! Every id is derived from a name, so that it is the same after a restart.

use vstd::prelude::*;
use vstd::string::*;

use crate::ids::{numbered_id, prefixed_id, stable_id};
use crate::text::{dec, decimal};
use crate::uuid::Uuid;

pub use crate::ids::stable;

verus! {

/// The id of an instance's resource with a name of its own.
fn instance_id(prefix: &str, instance_name: &str, name: &str) -> (r: Uuid)
    ensures
        r.bits == stable(prefix@ + instance_name@ + ":"@ + name@),
{
    let mut s = prefix.to_owned();
    s.append(instance_name);
    s.append(":");
    s.append(name);
    stable_id(s.as_str())
}

/// The flow of a daemon Sink on the bridge.
pub fn sink_flow_id(daemon_id: u8) -> (r: Uuid)
    ensures
        r.bits == stable("mxl-bridge-sink-flow:"@ + dec(daemon_id as nat)),
{
    numbered_id("mxl-bridge-sink-flow:", daemon_id as u64)
}

/// The flow that the bridge writes for a packed-RX name.
pub fn packed_rx_flow_id(name: &str) -> (r: Uuid)
    ensures
        r.bits == stable("mxl-bridge-packed-rx-flow:"@ + name@),
{
    prefixed_id("mxl-bridge-packed-rx-flow:", name)
}

/// The flow that the bridge reads for a packed-TX name.
pub fn packed_tx_flow_id(name: &str) -> (r: Uuid)
    ensures
        r.bits == stable("mxl-bridge-packed-tx-flow:"@ + name@),
{
    prefixed_id("mxl-bridge-packed-tx-flow:", name)
}

/// The Node of an instance.
pub fn node_id(instance_name: &str) -> (r: Uuid)
    ensures
        r.bits == stable("mxl-test-app-instance-node:"@ + instance_name@),
{
    prefixed_id("mxl-test-app-instance-node:", instance_name)
}

/// The Device of an instance.
pub fn device_id(instance_name: &str) -> (r: Uuid)
    ensures
        r.bits == stable("mxl-test-app-instance-device:"@ + instance_name@),
{
    prefixed_id("mxl-test-app-instance-device:", instance_name)
}

/// The Sender of a bus.
pub fn instance_bus_sender_id(instance_name: &str, bus_id: u32) -> (r: Uuid)
    ensures
        r.bits == stable(
            "mxl-test-app-instance-bus-sender:"@ + instance_name@ + ":"@ + dec(bus_id as nat),
        ),
{
    instance_id("mxl-test-app-instance-bus-sender:", instance_name, decimal(bus_id as u64).as_str())
}

/// The Receiver of a track.
pub fn instance_track_receiver_id(instance_name: &str, track_id: u32) -> (r: Uuid)
    ensures
        r.bits == stable(
            "mxl-test-app-instance-track-receiver:"@ + instance_name@ + ":"@ + dec(track_id as nat),
        ),
{
    instance_id(
        "mxl-test-app-instance-track-receiver:",
        instance_name,
        decimal(track_id as u64).as_str(),
    )
}

/// The flow of a bus.
pub fn instance_bus_flow_id(instance_name: &str, bus_id: u32) -> (r: Uuid)
    ensures
        r.bits == stable(
            "mxl-test-app-instance-bus-flow:"@ + instance_name@ + ":"@ + dec(bus_id as nat),
        ),
{
    instance_id("mxl-test-app-instance-bus-flow:", instance_name, decimal(bus_id as u64).as_str())
}

/// The Source of a bus.
pub fn instance_bus_source_id(instance_name: &str, bus_id: u32) -> (r: Uuid)
    ensures
        r.bits == stable(
            "mxl-test-app-instance-bus-source:"@ + instance_name@ + ":"@ + dec(bus_id as nat),
        ),
{
    instance_id("mxl-test-app-instance-bus-source:", instance_name, decimal(bus_id as u64).as_str())
}

/// The flow of an output-grid entry that names no other.
pub fn instance_output_flow_id(instance_name: &str, output_id: &str) -> (r: Uuid)
    ensures
        r.bits == stable(
            "mxl-test-app-instance-output-flow:"@ + instance_name@ + ":"@ + output_id@,
        ),
{
    instance_id("mxl-test-app-instance-output-flow:", instance_name, output_id)
}

/// The Source of an output-grid entry.
pub fn instance_output_source_id(instance_name: &str, output_id: &str) -> (r: Uuid)
    ensures
        r.bits == stable(
            "mxl-test-app-instance-output-source:"@ + instance_name@ + ":"@ + output_id@,
        ),
{
    instance_id("mxl-test-app-instance-output-source:", instance_name, output_id)
}

/// The Sender of an output-grid entry.
pub fn instance_output_sender_id(instance_name: &str, output_id: &str) -> (r: Uuid)
    ensures
        r.bits == stable(
            "mxl-test-app-instance-output-sender:"@ + instance_name@ + ":"@ + output_id@,
        ),
{
    instance_id("mxl-test-app-instance-output-sender:", instance_name, output_id)
}

/// The Receiver of an input-grid entry.
pub fn instance_input_receiver_id(instance_name: &str, input_id: &str) -> (r: Uuid)
    ensures
        r.bits == stable(
            "mxl-test-app-instance-input-receiver:"@ + instance_name@ + ":"@ + input_id@,
        ),
{
    instance_id("mxl-test-app-instance-input-receiver:", instance_name, input_id)
}

} // verus!
