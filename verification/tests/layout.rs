//! Channel layouts and ids.

use mxl_bridge::console::ids::{
    device_id, instance_bus_flow_id, instance_bus_sender_id, instance_bus_source_id,
    instance_input_receiver_id, instance_output_flow_id, instance_output_sender_id,
    instance_output_source_id, instance_track_receiver_id, node_id, packed_rx_flow_id,
    packed_tx_flow_id, sink_flow_id,
};
use mxl_bridge::console::layout::{
    is_standard_stream_size, is_valid_st2110_30_channel_count, resolve_channels, ChannelLayout,
    ChannelRole,
};
use mxl_bridge::json::{Json, Number};
use mxl_bridge::uuid::Uuid;

fn to_value(j: &Json) -> serde_json::Value {
    match j {
        Json::Text(s) => serde_json::Value::from(s.as_str()),
        Json::Number(n) => serde_json::Value::from(n.unsigned.unwrap()),
        Json::Object(o) => serde_json::Value::Object(o.iter().map(|(k, v)| (k.clone(), to_value(v))).collect()),
        _ => serde_json::Value::Null,
    }
}

fn from_value(v: &serde_json::Value) -> Json {
    match v {
        serde_json::Value::String(s) => Json::Text(s.clone()),
        serde_json::Value::Number(n) => Json::Number(Number {
            unsigned: n.as_u64(),
            signed: n.as_i64(),
            single: n.as_f64().map(|f| (f as f32).to_bits()),
        }),
        serde_json::Value::Object(o) => {
            Json::Object(o.iter().map(|(k, v)| (k.clone(), from_value(v))).collect())
        }
        _ => Json::Null,
    }
}

fn read(json: &str) -> Option<ChannelLayout> {
    ChannelLayout::parse(&from_value(&serde_json::from_str(json).unwrap()))
}

#[test]
fn layout_serializes_to_snake_case_json() {
    let json = serde_json::to_string(&to_value(&ChannelLayout::Surround5_1.to_json())).unwrap();
    assert_eq!(json, "\"surround5_1\"");
    let back: ChannelLayout = read(&json).unwrap();
    assert_eq!(back, ChannelLayout::Surround5_1);
}

#[test]
fn discrete_layout_round_trips_its_count() {
    let json = serde_json::to_string(&to_value(&ChannelLayout::Discrete(12).to_json())).unwrap();
    let back: ChannelLayout = read(&json).unwrap();
    assert_eq!(back, ChannelLayout::Discrete(12));
}

#[test]
fn every_layout_and_role_is_read_as_it_was_written() {
    for l in [
        ChannelLayout::Mono,
        ChannelLayout::Stereo,
        ChannelLayout::Quad,
        ChannelLayout::Surround7_1,
        ChannelLayout::Surround5_1_4,
        ChannelLayout::Discrete(0),
    ] {
        assert_eq!(ChannelLayout::parse(&l.to_json()), Some(l));
        for role in l.roles() {
            assert_eq!(ChannelRole::parse(&role.to_json()), Some(role));
        }
    }
    assert_eq!(ChannelRole::Lfe.to_json(), Json::text("lfe"));
    assert_eq!(to_value(&ChannelLayout::Discrete(12).to_json()).to_string(), "{\"discrete\":12}");
    assert_eq!(read("{\"mono\": null}"), Some(ChannelLayout::Mono));
    for bad in ["\"discrete\"", "\"Mono\"", "{\"discrete\": -1}", "{\"discrete\": 4294967296}", "{\"mono\": 1}", "{}", "null"] {
        assert_eq!(read(bad), None, "{bad}");
    }
    assert_eq!(ChannelRole::parse(&Json::text("LFE")), None);
}

#[test]
fn discrete_has_no_roles_but_reports_its_own_count_via_channel_count_override() {
    assert_eq!(ChannelLayout::Discrete(16).roles().len(), 0);
}

#[test]
fn standard_layouts_have_the_expected_channel_count() {
    assert_eq!(ChannelLayout::Mono.channel_count(), 1);
    assert_eq!(ChannelLayout::Stereo.channel_count(), 2);
    assert_eq!(ChannelLayout::Quad.channel_count(), 4);
    assert_eq!(ChannelLayout::Surround5_1.channel_count(), 6);
    assert_eq!(ChannelLayout::Surround7_1.channel_count(), 8);
    assert_eq!(ChannelLayout::Surround5_1_4.channel_count(), 10);
}

#[test]
fn surround_5_1_role_order_matches_documented_wav_convention() {
    assert_eq!(
        ChannelLayout::Surround5_1.roles(),
        vec![
            ChannelRole::L,
            ChannelRole::R,
            ChannelRole::C,
            ChannelRole::Lfe,
            ChannelRole::Ls,
            ChannelRole::Rs,
        ]
    );
}

#[test]
fn role_at_returns_none_past_the_end_and_for_discrete() {
    assert_eq!(ChannelLayout::Stereo.role_at(2), None);
    assert_eq!(ChannelLayout::Discrete(8).role_at(0), None);
}

#[test]
fn short_name_and_adm_speaker_label_are_distinct_and_related() {
    assert_eq!(ChannelRole::L.short_name(), "L");
    assert_eq!(ChannelRole::L.adm_speaker_label(), "RC_L");
    assert_eq!(ChannelRole::Lfe.short_name(), "LFE");
    assert_eq!(ChannelRole::Lfe.adm_speaker_label(), "RC_LFE");
}

#[test]
fn resolve_channels_with_no_layout_passes_channels_through_unchanged() {
    assert_eq!(resolve_channels("x", Some(4), None), Ok(Some(4)));
    assert_eq!(resolve_channels("x", None, None), Ok(None));
}

#[test]
fn resolve_channels_discrete_layout_never_implicitly_sets_channels() {
    assert_eq!(resolve_channels("x", None, Some(ChannelLayout::Discrete(16))), Ok(None));
    assert_eq!(resolve_channels("x", Some(3), Some(ChannelLayout::Discrete(16))), Ok(Some(3)));
}

#[test]
fn resolve_channels_named_layout_supplies_channels_when_unset() {
    assert_eq!(resolve_channels("x", None, Some(ChannelLayout::Surround5_1)), Ok(Some(6)));
}

#[test]
fn resolve_channels_named_layout_agreeing_with_explicit_channels_is_fine() {
    assert_eq!(resolve_channels("x", Some(6), Some(ChannelLayout::Surround5_1)), Ok(Some(6)));
}

#[test]
fn resolve_channels_named_layout_disagreeing_with_explicit_channels_is_a_hard_error() {
    assert!(resolve_channels("track 3", Some(2), Some(ChannelLayout::Surround5_1)).is_err());
}

#[test]
fn a_contradiction_is_put_into_words() {
    assert_eq!(
        resolve_channels("track 3", Some(2), Some(ChannelLayout::Surround5_1)).unwrap_err(),
        "track 3: layout Surround5_1 implies 6 channel(s) but channels is explicitly set to 2 -- remove one or make them agree"
    );
}

#[test]
fn standard_stream_sizes_accepts_exactly_the_real_2110_30_conformance_counts() {
    for n in [1, 2, 8, 16, 64] {
        assert!(is_standard_stream_size(n), "{n} should be a standard size");
    }
}

#[test]
fn standard_stream_sizes_rejects_everything_else() {
    for n in [0, 3, 4, 5, 6, 7, 9, 15, 17, 32, 63, 65, 100] {
        assert!(!is_standard_stream_size(n), "{n} should not be a standard size");
    }
}

#[test]
fn st2110_30_channel_count_range_accepts_real_non_bucket_layout_counts() {
    for n in [1, 2, 4, 6, 8, 10, 16, 32, 64] {
        assert!(is_valid_st2110_30_channel_count(n), "{n} should be a valid ST 2110-30 channel count");
    }
}

#[test]
fn st2110_30_channel_count_range_rejects_zero_and_above_64() {
    assert!(!is_valid_st2110_30_channel_count(0));
    assert!(!is_valid_st2110_30_channel_count(65));
    assert!(!is_valid_st2110_30_channel_count(1000));
}

#[test]
fn every_layout_has_a_role_for_each_channel_and_no_other() {
    for l in [
        ChannelLayout::Mono,
        ChannelLayout::Stereo,
        ChannelLayout::Quad,
        ChannelLayout::Surround5_1,
        ChannelLayout::Surround7_1,
        ChannelLayout::Surround5_1_4,
    ] {
        let n = l.channel_count() as usize;
        assert!((0..n).all(|i| l.role_at(i).is_some()));
        assert!(l.role_at(n).is_none());
        for r in l.roles() {
            assert_eq!(r.adm_speaker_label(), format!("RC_{}", r.short_name()));
        }
    }
}

#[test]
fn ids_match_mxl_bridges_own_values() {
    assert_eq!(sink_flow_id(1).to_string(), "769531a4-4386-505e-a5a3-b81ae72ded6c");
    assert_eq!(packed_rx_flow_id("testmix").to_string(), "293b7244-a27b-58a9-8536-f584455cc0ca");
}

#[test]
fn ids_are_stable_and_differ_by_what_they_are_of() {
    let ids = [
        node_id("a"),
        device_id("a"),
        instance_bus_sender_id("a", 1),
        instance_bus_flow_id("a", 1),
        instance_bus_source_id("a", 1),
        instance_track_receiver_id("a", 1),
        instance_output_flow_id("a", "1"),
        instance_output_source_id("a", "1"),
        instance_output_sender_id("a", "1"),
        instance_input_receiver_id("a", "1"),
        packed_tx_flow_id("a"),
        packed_rx_flow_id("a"),
    ];
    for (i, a) in ids.iter().enumerate() {
        for b in &ids[i + 1..] {
            assert_ne!(a, b);
        }
    }
    assert_eq!(node_id("a"), node_id("a"));
    assert_ne!(node_id("a"), node_id("b"));
}

#[test]
fn the_text_of_an_id_is_read_as_that_id() {
    let text = "5f0a4c1e-9d3b-4c47-8f5e-2a7c61b0d3a9";
    let id = Uuid::parse(text).unwrap();
    assert_eq!(id.to_string(), text);
    assert_eq!(id.bits, 0x5f0a4c1e9d3b4c478f5e2a7c61b0d3a9);
    assert_eq!(Uuid::parse("5F0A4C1E9D3B4C478F5E2A7C61B0D3A9"), Some(id));
    assert_eq!(Uuid::parse("{5f0a4c1e-9d3b-4c47-8f5e-2a7c61b0d3a9}"), Some(id));
    assert_eq!(Uuid::parse("urn:uuid:5f0a4c1e-9d3b-4c47-8f5e-2a7c61b0d3a9"), Some(id));
    assert_eq!(Uuid::parse("5f0a4c1e-9d3b-4c47-8f5e_2a7c61b0d3a9"), None);
    assert_eq!(Uuid::parse("auto"), None);
}
