//! What a configuration describes: tracks, buses, masters and grid entries.

use vstd::prelude::*;

use crate::console::dsp::{ProcessingStage, StageKind, StageModel};
use crate::console::ids::{
    instance_output_flow_id, packed_rx_flow_id, packed_tx_flow_id, sink_flow_id, stable,
};
use crate::console::mixer::{chain_model, PickoffPoint, Send};
use crate::json::{Doc, Json};
use crate::text::dec;
use crate::uuid::{denotes, reads_as_uuid, Uuid};

verus! {

/// An entry of the input grid.
#[derive(Clone, Debug)]
pub struct InputGridEntryConfig {
    pub id: String,
    pub label: String,
    /// Where the entry reads from; one without a source waits for a connection.
    pub source: Option<TrackSource>,
    pub channels: Option<u32>,
}

/// A track.
#[derive(Debug)]
pub struct TrackConfig {
    pub id: u32,
    pub label: String,
    pub channels: Option<u32>,
    pub sends: Vec<SendConfig>,
    pub gain_db: u32,
    pub fader_db: u32,
    pub template: ChannelTemplate,
    pub chain: Vec<StageSlotConfig>,
}

/// One slot of a chain.
#[derive(Debug)]
pub struct StageSlotConfig {
    pub kind: StageKind,
    /// Parameters that differ from those of a stage that was just added.
    pub params: Json,
}

/// What a [`StageSlotConfig`] says.
pub open spec fn slot_stage(s: StageSlotConfig) -> StageModel {
    StageModel::fresh(s.kind).applied(s.params@)
}

impl StageSlotConfig {
    /// The stage that the slot describes.
    pub fn build(&self) -> (r: ProcessingStage)
        ensures
            r@ == slot_stage(*self),
    {
        let mut stage = ProcessingStage::default_on(self.kind);
        stage.apply(&self.params);
        stage
    }
}

/// Which stages a chain has where it names none.
#[derive(Clone, Copy, Debug, PartialEq, Eq, Structural)]
pub enum ChannelTemplate {
    /// No stages.
    Simple,
    /// Filter, equaliser, two dynamics processors, phase inverter, delay.
    FullChannel,
}

impl Default for ChannelTemplate {
    fn default() -> (r: Self)
        ensures
            r == ChannelTemplate::Simple,
    {
        ChannelTemplate::Simple
    }
}

impl ChannelTemplate {
    /// The kinds of the stages, in their order.
    pub open spec fn kinds(self) -> Seq<StageKind> {
        match self {
            ChannelTemplate::Simple => Seq::empty(),
            ChannelTemplate::FullChannel => seq![
                StageKind::Filter,
                StageKind::Eq,
                StageKind::Dynamics,
                StageKind::Dynamics,
                StageKind::Phase,
                StageKind::Delay,
            ],
        }
    }

    /// The slots of the template: each with the parameters of a stage that was just added.
    pub fn expand(self) -> (r: Vec<StageSlotConfig>)
        ensures
            r@.len() == self.kinds().len(),
            forall|i: int|
                0 <= i < r@.len() ==> (#[trigger] r@[i]).kind == self.kinds()[i] && r@[i].params@
                    == Doc::Null,
    {
        match self {
            ChannelTemplate::Simple => Vec::new(),
            ChannelTemplate::FullChannel => {
                let mut v: Vec<StageSlotConfig> = Vec::new();
                v.push(StageSlotConfig { kind: StageKind::Filter, params: Json::Null });
                v.push(StageSlotConfig { kind: StageKind::Eq, params: Json::Null });
                v.push(StageSlotConfig { kind: StageKind::Dynamics, params: Json::Null });
                v.push(StageSlotConfig { kind: StageKind::Dynamics, params: Json::Null });
                v.push(StageSlotConfig { kind: StageKind::Phase, params: Json::Null });
                v.push(StageSlotConfig { kind: StageKind::Delay, params: Json::Null });
                v
            },
        }
    }
}

/// The stages that slots describe.
pub open spec fn slot_stages(chain: Seq<StageSlotConfig>) -> Seq<StageModel> {
    chain.map_values(|s: StageSlotConfig| slot_stage(s))
}

/// The chain that a configuration describes: its own slots, or where it has none those of the
/// template.
pub open spec fn built_chain(chain: Seq<StageSlotConfig>, template: ChannelTemplate) -> Seq<
    StageModel,
> {
    if chain.len() == 0 {
        template.kinds().map_values(|k: StageKind| StageModel::fresh(k))
    } else {
        slot_stages(chain)
    }
}

fn build_slots(chain: &[StageSlotConfig]) -> (r: Vec<ProcessingStage>)
    ensures
        chain_model(r@) == slot_stages(chain@),
{
    let mut out: Vec<ProcessingStage> = Vec::new();
    for i in 0..chain.len()
        invariant
            out@.len() == i,
            forall|k: int| 0 <= k < i ==> (#[trigger] out@[k])@ == slot_stage(chain@[k]),
    {
        out.push(chain[i].build());
    }
    assert(chain_model(out@) =~= slot_stages(chain@));
    out
}

/// The chain that a configuration describes: its own slots, or where it has none those of the
/// template.
pub fn build_chain(chain: &[StageSlotConfig], template: ChannelTemplate) -> (r: Vec<
    ProcessingStage,
>)
    ensures
        chain_model(r@) == built_chain(chain@, template),
{
    if chain.len() == 0 {
        let slots = template.expand();
        let r = build_slots(slots.as_slice());
        proof {
            let kinds = template.kinds();
            assert forall|i: int| 0 <= i < kinds.len() implies slot_stages(slots@)[i]
                == StageModel::fresh(kinds[i]) by {
                assert(slots@[i].kind == kinds[i]);
                assert(StageModel::fresh(kinds[i]).applied(Doc::Null) == StageModel::fresh(
                    kinds[i],
                ));
            }
            assert(chain_model(r@) =~= built_chain(chain@, template));
        }
        r
    } else {
        build_slots(chain)
    }
}

/// One send of a track.
#[derive(Clone, Copy, Debug, PartialEq, Eq, Structural)]
pub struct SendConfig {
    pub bus_id: u32,
    pub on: bool,
    pub level_db: u32,
    pub pickoff: PickoffPointConfig,
}

/// Where a send taps the signal.
#[derive(Clone, Copy, Debug, PartialEq, Eq, Structural)]
pub enum PickoffPointConfig {
    PreFader,
    PostFader,
}

impl Default for PickoffPointConfig {
    fn default() -> (r: Self)
        ensures
            r == PickoffPointConfig::PostFader,
    {
        PickoffPointConfig::PostFader
    }
}

impl SendConfig {
    /// The send that a configuration describes.
    pub open spec fn send(self) -> Send {
        Send {
            bus_id: self.bus_id,
            pickoff: match self.pickoff {
                PickoffPointConfig::PreFader => PickoffPoint::PreFader,
                PickoffPointConfig::PostFader => PickoffPoint::PostFader,
            },
            on: self.on,
            level_db: self.level_db,
        }
    }

    /// The send that the configuration describes.
    pub fn to_send(&self) -> (r: Send)
        ensures
            r == self.send(),
    {
        Send {
            bus_id: self.bus_id,
            pickoff: match self.pickoff {
                PickoffPointConfig::PreFader => PickoffPoint::PreFader,
                PickoffPointConfig::PostFader => PickoffPoint::PostFader,
            },
            on: self.on,
            level_db: self.level_db,
        }
    }
}

impl TrackConfig {
    /// The sends that a track starts with.
    pub open spec fn send_list(self) -> Seq<Send> {
        self.sends@.map_values(|s: SendConfig| s.send())
    }
}

/// Where an input-grid entry reads from.
#[derive(Clone, Debug)]
pub enum TrackSource {
    /// A flow by its id.
    FlowId(String),
    /// The bridge's flow of a daemon Sink.
    SinkDaemonId(u8),
    /// The bridge's packed-RX flow of a name.
    PackedRxName(String),
}

impl TrackSource {
    /// Whether the source names a flow: a flow id must be the text of one.
    pub open spec fn valid(self) -> bool {
        match self {
            TrackSource::FlowId(s) => reads_as_uuid(s@),
            _ => true,
        }
    }

    /// Whether the source names a flow.
    pub fn is_valid(&self) -> (r: bool)
        ensures
            r == self.valid(),
    {
        match self {
            TrackSource::FlowId(s) => Uuid::parse(s.as_str()).is_some(),
            _ => true,
        }
    }

    /// The flow that the source names.
    pub fn resolve(&self) -> (r: Uuid)
        requires
            self.valid(),
        ensures
            match *self {
                TrackSource::FlowId(s) => denotes(r.bits, s@),
                TrackSource::SinkDaemonId(id) => r.bits == stable(
                    "mxl-bridge-sink-flow:"@ + dec(id as nat),
                ),
                TrackSource::PackedRxName(name) => r.bits == stable(
                    "mxl-bridge-packed-rx-flow:"@ + name@,
                ),
            },
    {
        match self {
            TrackSource::FlowId(s) => Uuid::parse(s.as_str()).unwrap(),
            TrackSource::SinkDaemonId(id) => sink_flow_id(*id),
            TrackSource::PackedRxName(name) => packed_rx_flow_id(name.as_str()),
        }
    }
}

/// A bus.
#[derive(Debug)]
pub struct BusConfig {
    pub id: u32,
    pub label: String,
    pub channels: Option<u32>,
    /// A master of the same id, fed by the bus.
    pub auto_master: Option<AutoMasterConfig>,
}

/// The master that is paired with a bus.
#[derive(Debug)]
pub struct AutoMasterConfig {
    pub label: Option<String>,
    pub fader_db: u32,
    pub template: ChannelTemplate,
    pub chain: Vec<StageSlotConfig>,
}

/// A master.
#[derive(Debug)]
pub struct MasterTrackConfig {
    pub id: u32,
    pub label: String,
    pub channels: Option<u32>,
    pub fader_db: u32,
    pub template: ChannelTemplate,
    pub chain: Vec<StageSlotConfig>,
}

/// Where an output-grid entry writes to.
#[derive(Clone, Debug)]
pub enum BusTarget {
    /// A flow by its id.
    FlowId(String),
    /// The bridge's packed-TX flow of a name.
    PackedTxName(String),
}

/// An entry of the output grid.
#[derive(Clone, Debug)]
pub struct OutputGridEntryConfig {
    pub id: String,
    pub label: String,
    pub target: Option<BusTarget>,
    pub channels: Option<u32>,
}

impl OutputGridEntryConfig {
    /// Whether the target names a flow: a flow id must be the text of one.
    pub open spec fn valid(self) -> bool {
        match self.target {
            Some(BusTarget::FlowId(s)) => reads_as_uuid(s@),
            _ => true,
        }
    }

    /// Whether the target names a flow.
    pub fn is_valid(&self) -> (r: bool)
        ensures
            r == self.valid(),
    {
        match &self.target {
            Some(BusTarget::FlowId(s)) => Uuid::parse(s.as_str()).is_some(),
            _ => true,
        }
    }

    /// The flow that the entry writes to.
    pub fn resolve_flow_id(&self, instance_name: &str) -> (r: Uuid)
        requires
            self.valid(),
        ensures
            match self.target {
                Some(BusTarget::FlowId(s)) => denotes(r.bits, s@),
                Some(BusTarget::PackedTxName(name)) => r.bits == stable(
                    "mxl-bridge-packed-tx-flow:"@ + name@,
                ),
                None => r.bits == stable(
                    "mxl-test-app-instance-output-flow:"@ + instance_name@ + ":"@ + self.id@,
                ),
            },
    {
        match &self.target {
            Some(BusTarget::FlowId(s)) => Uuid::parse(s.as_str()).unwrap(),
            Some(BusTarget::PackedTxName(name)) => packed_tx_flow_id(name.as_str()),
            None => instance_output_flow_id(instance_name, self.id.as_str()),
        }
    }
}

/// The mixer's configuration.
#[derive(Debug)]
pub struct Config {
    pub mxl_domain: String,
    pub sample_rate: u32,
    pub period_frames: u32,
    pub channels: u32,
    pub ws_port: u16,
    pub mixer_id: u32,
    pub instance_name: String,
    pub state_path: Option<String>,
    pub nmos_label: String,
    pub nmos_registry_address: Option<String>,
    pub nmos_registry_port: u16,
    pub interface_name: String,
    pub ip_addr: String,
    pub input_grid: Vec<InputGridEntryConfig>,
    pub output_grid: Vec<OutputGridEntryConfig>,
    pub tracks: Vec<TrackConfig>,
    pub buses: Vec<BusConfig>,
    pub masters: Vec<MasterTrackConfig>,
}

/// What a configuration says where it does not.
pub const DEFAULT_NMOS_REGISTRY_PORT: u16 = 80;

pub const DEFAULT_INSTANCE_NAME: &'static str = "default";

pub const DEFAULT_CHANNELS: u32 = 2;

pub const DEFAULT_SEND_ON: bool = true;

} // verus!
