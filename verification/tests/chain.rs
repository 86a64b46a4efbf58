//! Stages, chains and what configures them.

use mxl_bridge::console::config::{
    build_chain, BusTarget, ChannelTemplate, OutputGridEntryConfig, PickoffPointConfig, SendConfig,
    StageSlotConfig, TrackConfig, TrackSource,
};
use mxl_bridge::console::dsp::{EqStage, ProcessingStage, StageKind};
use mxl_bridge::console::mixer::PickoffPoint;
use mxl_bridge::json::{Json, Number};

fn number(v: f64) -> Json {
    Json::Number(Number { unsigned: None, signed: None, single: Some((v as f32).to_bits()) })
}

fn value(stage: &ProcessingStage, key: &str) -> f32 {
    f32::from_bits(stage.to_json().single_field(key).unwrap())
}

fn kinds(chain: &[ProcessingStage]) -> Vec<StageKind> {
    chain.iter().map(|s| s.kind()).collect()
}

const LEGACY: [StageKind; 6] = [
    StageKind::Filter,
    StageKind::Eq,
    StageKind::Dynamics,
    StageKind::Dynamics,
    StageKind::Phase,
    StageKind::Delay,
];

#[test]
fn full_channel_expands_to_the_exact_legacy_order_and_defaults() {
    let slots = ChannelTemplate::FullChannel.expand();
    let kinds: Vec<StageKind> = slots.iter().map(|s| s.kind).collect();
    assert_eq!(kinds, LEGACY.to_vec());
}

#[test]
fn simple_expands_to_no_stages() {
    assert!(ChannelTemplate::Simple.expand().is_empty());
}

#[test]
fn build_chain_prefers_explicit_chain_over_template() {
    let explicit = vec![StageSlotConfig { kind: StageKind::Eq, params: Json::Null }];
    let chain = build_chain(&explicit, ChannelTemplate::FullChannel);
    assert_eq!(chain.len(), 1);
    assert_eq!(chain[0].kind(), StageKind::Eq);
}

#[test]
fn build_chain_falls_back_to_template_expansion_when_chain_is_empty() {
    let chain = build_chain(&[], ChannelTemplate::FullChannel);
    assert_eq!(kinds(&chain), LEGACY.to_vec());
}

#[test]
fn build_chain_empty_chain_and_default_template_yields_no_stages() {
    assert!(build_chain(&[], ChannelTemplate::default()).is_empty());
}

#[test]
fn stage_slot_config_build_applies_params_override() {
    let slot = StageSlotConfig {
        kind: StageKind::Filter,
        params: Json::new_object().with("hp_hz", number(100.0)),
    };
    let stage = slot.build();
    assert_eq!(value(&stage, "hp_hz"), 100.0);
}

#[test]
fn stage_slot_config_build_with_null_params_yields_default_on() {
    let slot = StageSlotConfig { kind: StageKind::Delay, params: Json::Null };
    let stage = slot.build();
    assert_eq!(stage, ProcessingStage::default_on(StageKind::Delay));
    assert_eq!(
        format!("{:?}", stage.to_json()),
        format!("{:?}", ProcessingStage::default_on(StageKind::Delay).to_json())
    );
}

fn track(id: u32, label: &str, template: ChannelTemplate, chain: &[StageKind]) -> TrackConfig {
    TrackConfig {
        id,
        label: label.to_string(),
        channels: None,
        sends: vec![],
        gain_db: 0,
        fader_db: 0,
        template,
        chain: chain.iter().map(|&kind| StageSlotConfig { kind, params: Json::Null }).collect(),
    }
}

#[test]
fn track_config_with_only_template_still_builds_the_legacy_chain() {
    let cfg = track(0, "Track 1", ChannelTemplate::FullChannel, &[]);
    assert!(cfg.chain.is_empty(), "docker-entrypoint.sh never emits a chain key");
    let chain = build_chain(&cfg.chain, cfg.template);
    assert_eq!(
        kinds(&chain),
        vec![
            StageKind::Filter,
            StageKind::Eq,
            StageKind::Dynamics,
            StageKind::Dynamics,
            StageKind::Phase,
            StageKind::Delay
        ]
    );
}

#[test]
fn a_reordered_explicit_chain_deserializes_and_preserves_order() {
    let order = [StageKind::Eq, StageKind::Dynamics, StageKind::Filter];
    let cfg = track(5, "Vocal", ChannelTemplate::default(), &order);
    let chain = build_chain(&cfg.chain, cfg.template);
    assert_eq!(kinds(&chain), vec![StageKind::Eq, StageKind::Dynamics, StageKind::Filter]);
}

#[test]
fn default_on_matches_each_concrete_types_own_default_for_every_kind() {
    for kind in [StageKind::Filter, StageKind::Eq, StageKind::Dynamics, StageKind::Phase, StageKind::Delay] {
        let stage = ProcessingStage::default_on(kind);
        assert_eq!(stage.kind(), kind);
        let json = stage.to_json();
        match kind {
            StageKind::Phase => assert_eq!(json.boolean_field("invert"), Some(false)),
            _ => assert_eq!(json.boolean_field("on"), Some(true)),
        }
    }
}

#[test]
fn apply_and_to_json_round_trip_per_kind() {
    let mut filter = ProcessingStage::default_on(StageKind::Filter);
    filter.apply(&Json::new_object().with("hp_hz", number(250.0)));
    assert_eq!(value(&filter, "hp_hz"), 250.0);
    assert_eq!(value(&filter, "lp_hz"), 20000.0);

    let mut eq = ProcessingStage::default_on(StageKind::Eq);
    let band = Json::new_object()
        .with("freq_hz", number(1000.0))
        .with("gain_db", number(3.0))
        .with("q", number(1.0));
    eq.apply(&Json::new_object().with("bands", Json::Array(vec![band])));
    let json = eq.to_json();
    let bands = json.get("bands").unwrap().as_array().unwrap();
    assert_eq!(f32::from_bits(bands[0].single_field("gain_db").unwrap()), 3.0);

    let mut dynamics = ProcessingStage::default_on(StageKind::Dynamics);
    dynamics.apply(&Json::new_object().with("threshold_db", number(-20.0)));
    assert_eq!(value(&dynamics, "threshold_db"), -20.0);

    let mut phase = ProcessingStage::default_on(StageKind::Phase);
    phase.apply(&Json::new_object().with("invert", Json::Bool(true)));
    assert_eq!(phase.to_json().boolean_field("invert"), Some(true));

    let mut delay = ProcessingStage::default_on(StageKind::Delay);
    delay.apply(&Json::new_object().with("delay_ms", number(12.5)));
    assert_eq!(value(&delay, "delay_ms"), 12.5);
}

#[test]
fn stage_kinds_have_their_wire_names() {
    for (kind, name) in [
        (StageKind::Filter, "filter"),
        (StageKind::Eq, "eq"),
        (StageKind::Dynamics, "dynamics"),
        (StageKind::Phase, "phase"),
        (StageKind::Delay, "delay"),
    ] {
        assert_eq!(kind.wire(), name);
    }
}

#[test]
fn fresh_stages_have_their_documented_values() {
    let filter = ProcessingStage::default_on(StageKind::Filter);
    assert_eq!((value(&filter, "hp_hz"), value(&filter, "lp_hz")), (20.0, 20000.0));
    let d = ProcessingStage::default_on(StageKind::Dynamics);
    assert_eq!(value(&d, "threshold_db"), 0.0);
    assert_eq!(value(&d, "ratio"), 1.0);
    assert_eq!(value(&d, "attack_ms"), 10.0);
    assert_eq!(value(&d, "release_ms"), 100.0);
    assert_eq!(value(&d, "makeup_db"), 0.0);
    assert_eq!(EqStage::default_on().bands.len(), 0);
}

#[test]
fn what_a_message_does_not_give_stays_and_malformed_bands_are_left_out() {
    let mut eq = ProcessingStage::default_on(StageKind::Eq);
    let good = Json::new_object()
        .with("freq_hz", number(500.0))
        .with("gain_db", number(-6.0))
        .with("q", number(0.7));
    let bad = Json::new_object().with("freq_hz", number(500.0));
    eq.apply(&Json::new_object().with("bands", Json::Array(vec![bad, good])));
    eq.apply(&Json::new_object().with("on", Json::Bool(false)).with("bands", Json::text("no")));
    match eq {
        ProcessingStage::Eq(s) => {
            assert!(!s.on);
            assert_eq!(s.bands.len(), 1);
            assert_eq!(f32::from_bits(s.bands[0].gain_db), -6.0);
        }
        _ => unreachable!(),
    }
}

#[test]
fn a_written_stage_reads_back_into_any_stage_of_its_kind() {
    let mut a = ProcessingStage::default_on(StageKind::Dynamics);
    a.apply(&Json::new_object().with("ratio", number(8.0)).with("on", Json::Bool(false)));
    let mut b = ProcessingStage::default_on(StageKind::Dynamics);
    b.apply(&Json::new_object().with("threshold_db", number(-9.0)));
    b.apply(&a.to_json());
    assert_eq!(a, b);
}

#[test]
fn a_send_is_what_its_configuration_says() {
    let cfg = SendConfig {
        bus_id: 3,
        on: false,
        level_db: (-4.5f32).to_bits(),
        pickoff: PickoffPointConfig::PreFader,
    };
    let send = cfg.to_send();
    assert_eq!((send.bus_id, send.on), (3, false));
    assert_eq!(f32::from_bits(send.level_db), -4.5);
    assert_eq!(send.pickoff, PickoffPoint::PreFader);
    assert_eq!(PickoffPointConfig::default(), PickoffPointConfig::PostFader);
}

#[test]
fn sources_and_targets_name_flows() {
    let id = "769531a4-4386-505e-a5a3-b81ae72ded6c";
    assert_eq!(TrackSource::SinkDaemonId(1).resolve().to_string(), id);
    assert_eq!(TrackSource::FlowId(id.to_uppercase()).resolve().to_string(), id);
    assert_eq!(
        TrackSource::PackedRxName("testmix".to_string()).resolve().to_string(),
        "293b7244-a27b-58a9-8536-f584455cc0ca"
    );
    assert!(!TrackSource::FlowId("nonsense".to_string()).is_valid());

    let entry = |target| OutputGridEntryConfig {
        id: "tx1".to_string(),
        label: "TX".to_string(),
        target,
        channels: None,
    };
    assert_eq!(entry(Some(BusTarget::FlowId(id.to_string()))).resolve_flow_id("x").to_string(), id);
    assert!(!entry(Some(BusTarget::FlowId("?".to_string()))).is_valid());
    let named = entry(Some(BusTarget::PackedTxName("mix".to_string())));
    let own = entry(None);
    assert_eq!(named.resolve_flow_id("a"), named.resolve_flow_id("b"));
    assert_ne!(own.resolve_flow_id("a"), own.resolve_flow_id("b"));
}

#[test]
fn whole_numbers_are_read_as_levels() {
    let near: Vec<u64> = [1u64 << 24, 1 << 25, 1 << 53, 1 << 54, 1 << 63, u64::MAX]
        .iter()
        .flat_map(|n| (0..9u64).flat_map(move |d| [n.saturating_add(d), n - d]))
        .collect();
    let spread = (0..64u32).map(|k| 0x9e37_79b9_7f4a_7c15u64 >> k);
    // Rounded twice: to double precision just above a tie, and then from there.
    let twice = [(1u64 << 60) + (1 << 36) + 1, (1u64 << 60) + (1 << 36) - 1, (1u64 << 62) + (1 << 38) + 255];
    for n in (0..300).chain(near).chain(spread).chain(twice) {
        assert_eq!(Json::whole(n).as_single(), Some((n as f64 as f32).to_bits()), "{n}");
    }
    let mut delay = ProcessingStage::default_on(StageKind::Delay);
    delay.apply(&Json::new_object().with("delay_ms", Json::whole(3)));
    assert_eq!(value(&delay, "delay_ms"), 3.0);
}

#[test]
fn what_is_not_finite_is_written_as_null_and_skipped() {
    for v in [f32::INFINITY, f32::NEG_INFINITY, f32::NAN] {
        assert_eq!(Json::single(v.to_bits()), Json::Null);
    }
    assert_eq!(Json::single(f32::MAX.to_bits()).as_single(), Some(f32::MAX.to_bits()));
    let mut filter = ProcessingStage::default_on(StageKind::Filter);
    filter.apply(&Json::new_object().with("hp_hz", number(1e300)).with("lp_hz", number(5.0)));
    let written = filter.to_json();
    assert_eq!(written.get("hp_hz"), Some(&Json::Null));
    let mut other = ProcessingStage::default_on(StageKind::Filter);
    other.apply(&written);
    assert_eq!((value(&other, "hp_hz"), value(&other, "lp_hz")), (20.0, 5.0));
    let mut eq = ProcessingStage::default_on(StageKind::Eq);
    let band = |f: f64| Json::new_object().with("freq_hz", number(f)).with("gain_db", number(1.0)).with("q", number(1.0));
    eq.apply(&Json::new_object().with("bands", Json::Array(vec![band(1e300), band(100.0)])));
    let mut again = ProcessingStage::default_on(StageKind::Eq);
    again.apply(&eq.to_json());
    assert_eq!(again.to_json().get("bands").unwrap().as_array().unwrap().len(), 1);
}
