//! The node of the bridge: mirrors, activations, the channel mapping and what is answered.

use mxl_bridge::bridge::config::Config;
use mxl_bridge::bridge::daemon_client::{DaemonDiff, DaemonSink, DaemonSource, DaemonState, StreamChange};
use mxl_bridge::bridge::mxl_domain::DomainDef;
use mxl_bridge::bridge::mxl_flow;
use mxl_bridge::bridge::nmos::is08::{
    activation_delete, activation_get, activations_list, activations_post, apply_action, input_caps,
    input_channels, input_parent, input_properties, inputs_list, map_active_json, output_caps,
    output_channels, output_properties, output_sourceid, outputs_list, scatter_table, InputKind,
    OutputKind,
};
use mxl_bridge::bridge::nmos::mxl_transport::{
    check_no_transport_file, constraints, params, parse_staged, Param, Role, Staged,
};
use mxl_bridge::bridge::nmos::persist::{restore, snapshot, RestoreStep};
use mxl_bridge::bridge::nmos::registration::{is_unregistered, register_all};
use mxl_bridge::bridge::nmos::server::{
    device_get, devices_list, finish_receiver_patch, finish_sender_patch, flow_get, flows_list,
    node_self, plan_receiver_patch, plan_sender_patch, receiver_constraints, receiver_get,
    receiver_ids, receiver_staged, receivers_list, refuse_receiver, refuse_sender,
    resolve_receiver, sender_constraints, sender_get, sender_ids, sender_staged,
    sender_transportfile, senders_list, source_get, sources_list, transporttype, ReceiverPlan,
    SenderPlan,
};
use mxl_bridge::bridge::nmos::state::{apply_lease_action, NmosState, SinkLeaseAction};
use mxl_bridge::bridge::nmos::sync::{apply_diff, to_reopen, SyncStep};
use mxl_bridge::json::{Json, Number};
use mxl_bridge::nmos::{
    health_url, heartbeat, read_sender_flow, registry_base, resource_url, sender_query, Heartbeat,
};
use mxl_bridge::table::Table;
use mxl_bridge::uuid::Uuid;

const DOM: &str = "5f0a4c1e-9d3b-4c47-8f5e-2a7c61b0d3a9";
const FLOW: &str = "cd27d5f7-ed49-5112-a4e7-80588a30f3fe";
const OTHER: &str = "e37296f4-a397-514d-b096-121d95fd08a2";

fn from_value(v: &serde_json::Value) -> Json {
    match v {
        serde_json::Value::Null => Json::Null,
        serde_json::Value::Bool(b) => Json::Bool(*b),
        serde_json::Value::Number(n) => Json::Number(Number {
            unsigned: n.as_u64(),
            signed: n.as_i64(),
            single: n.as_f64().map(|f| (f as f32).to_bits()),
        }),
        serde_json::Value::String(s) => Json::Text(s.clone()),
        serde_json::Value::Array(a) => Json::Array(a.iter().map(from_value).collect()),
        serde_json::Value::Object(o) => {
            Json::Object(o.iter().map(|(k, v)| (k.clone(), from_value(v))).collect())
        }
    }
}

fn json(text: &str) -> Json {
    from_value(&serde_json::from_str(text).unwrap())
}

fn action(text: &str) -> Vec<(String, Json)> {
    match json(text) {
        Json::Object(es) => es,
        _ => unreachable!(),
    }
}

fn at<'a>(v: &'a Json, path: &[&str]) -> &'a Json {
    path.iter().fold(v, |v, k| match v {
        Json::Array(a) => &a[k.parse::<usize>().unwrap()],
        _ => v.get(k).unwrap(),
    })
}

fn test_config() -> Config {
    Config {
        alsa_source_device: "hw:Loopback,1,1".into(),
        sample_rate: 48000,
        period_frames: 480,
        tx_period_frames: 48,
        tx_buffer_periods: 4,
        rx_buffer_periods: 4,
        rt_priority: 0,
        mxl_domain: "/dev/shm/mxl-bridge-test".into(),
        nmos_node_port: 3213,
        nmos_label: "mxl-bridge test".into(),
        nmos_registry_address: None,
        nmos_registry_port: 80,
        interface_name: "lo".into(),
        ip_addr: "127.0.0.1".into(),
        tx_alsa_playback_device: None,
        daemon_api_url: "http://127.0.0.1:0".into(),
        daemon_poll_interval_ms: 2000,
        alsa_channels_fallback: 64,
        mxl_so_path: None,
        state_path: None,
        capacity: None,
    }
}

fn test_domain() -> DomainDef {
    DomainDef {
        id: Uuid::parse(DOM).unwrap(),
        label: "test domain".into(),
        description: String::new(),
        tags: Table::new(),
    }
}

fn test_source(id: u8, name: &str, map: Vec<u8>) -> DaemonSource {
    DaemonSource {
        id,
        enabled: true,
        name: name.to_string(),
        io: "network".to_string(),
        max_samples_per_packet: 48,
        codec: "L24".to_string(),
        address: "239.1.0.1:5004".to_string(),
        ttl: 15,
        payload_type: 98,
        dscp: 34,
        refclk_ptp_traceable: true,
        map,
    }
}

fn test_sink(id: u8, name: &str, map: Vec<u8>) -> DaemonSink {
    DaemonSink {
        id,
        name: name.to_string(),
        io: "network".to_string(),
        use_sdp: false,
        source: String::new(),
        sdp: String::new(),
        delay: 0,
        ignore_refclk_gmid: false,
        map,
    }
}

const V: (u64, u64) = (7, 9);

fn test_state() -> NmosState {
    NmosState::new(test_config(), test_domain(), (1, 2))
}

fn add_sink(s: &mut NmosState, id: u8, name: &str, map: Vec<u8>) -> mxl_bridge::bridge::nmos::state::SinkEntrySnapshot {
    s.apply_sink_added_or_changed(&test_sink(id, name, map), V, true)
}

fn add_source(s: &mut NmosState, id: u8, name: &str, map: Vec<u8>) -> mxl_bridge::bridge::nmos::state::SourceEntrySnapshot {
    s.apply_source_added_or_changed(&test_source(id, name, map), V)
}

fn no_libmxl() -> Result<(), String> {
    Err("libmxl is not there".into())
}

fn apply(s: &mut NmosState, a: &Vec<(String, Json)>, dry_run: bool) -> Result<(), String> {
    apply_action(&s.sinks, &s.sources, &mut s.is08, a, dry_run)
}

// -- Transport parameters ---------------------------------------------------------------------

fn body(p: &str) -> Json {
    json(&format!("{{\"transport_params\": [{p}]}}"))
}

#[test]
fn sender_accepts_null_auto_and_its_own_ids_only() {
    let s = parse_staged(Role::Sender, &body(&format!("{{\"mxl_domain_id\": \"auto\", \"mxl_flow_id\": \"{FLOW}\"}}")), DOM, Some(FLOW)).unwrap();
    assert_eq!((s.domain, s.flow), (Some(Param::Auto), Some(Param::Id(FLOW.into()))));
    assert!(parse_staged(Role::Sender, &body("{\"mxl_domain_id\": null, \"mxl_flow_id\": \"auto\"}"), DOM, Some(FLOW)).is_ok());
    assert!(parse_staged(Role::Sender, &body(&format!("{{\"mxl_flow_id\": \"{OTHER}\"}}")), DOM, Some(FLOW)).is_err());
    assert!(parse_staged(Role::Sender, &body(&format!("{{\"mxl_domain_id\": \"{OTHER}\"}}")), DOM, Some(FLOW)).is_err());
}

#[test]
fn receiver_flow_id_never_auto() {
    assert!(parse_staged(Role::Receiver, &body("{\"mxl_flow_id\": \"auto\"}"), DOM, None).is_err());
    let s = parse_staged(Role::Receiver, &body(&format!("{{\"mxl_domain_id\": \"auto\", \"mxl_flow_id\": \"{OTHER}\"}}")), DOM, None).unwrap();
    assert_eq!(s.flow, Some(Param::Id(OTHER.into())));
}

#[test]
fn exactly_one_set_and_no_foreign_parameters() {
    assert!(parse_staged(Role::Receiver, &json("{\"transport_params\": []}"), DOM, None).is_err());
    assert!(parse_staged(Role::Receiver, &json("{\"transport_params\": [{}, {}]}"), DOM, None).is_err());
    assert!(parse_staged(Role::Receiver, &body("{\"destination_ip\": \"239.1.1.1\"}"), DOM, None).is_err());
    assert!(parse_staged(Role::Receiver, &body("{\"mxl_flow_id\": \"CD27D5F7-ED49-5112-A4E7-80588A30F3FE\"}"), DOM, None).is_err());
    assert!(parse_staged(Role::Receiver, &body("{\"ext_vendor\": 1}"), DOM, None).is_ok());
    assert_eq!(parse_staged(Role::Receiver, &json("{\"master_enable\": true}"), DOM, None).unwrap(), Staged::default());
}

#[test]
fn transport_file_rules() {
    assert!(check_no_transport_file(&json("{}")).is_ok());
    assert!(check_no_transport_file(&json("{\"transport_file\": {\"data\": null, \"type\": null}}")).is_ok());
    assert!(check_no_transport_file(&json("{\"transport_file\": {\"data\": \"v=0\", \"type\": \"application/sdp\"}}")).is_err());
}

#[test]
fn refused_parameters_are_put_into_words() {
    let words = |role: Role, text: &str, shown: &str| {
        parse_staged(role, &json(text), DOM, Some(FLOW)).unwrap_err().message(shown)
    };
    let s = Role::Sender;
    assert_eq!(words(s, "{\"transport_params\": 1}", ""), "transport_params must be an array");
    assert_eq!(
        words(s, "{\"transport_params\": [{},{},{}]}", ""),
        "MXL uses exactly one set of transport parameters, got 3"
    );
    assert_eq!(words(s, "{\"transport_params\": [1]}", ""), "transport_params[0] must be an object");
    assert_eq!(
        words(Role::Receiver, "{\"transport_params\": [{\"mxl_flow_id\": \"auto\"}]}", ""),
        "a Receiver's mxl_flow_id does not accept \"auto\""
    );
    assert_eq!(
        words(s, "{\"transport_params\": [{\"mxl_flow_id\": 1}]}", "1"),
        "mxl_flow_id: 1 is neither null, \"auto\" nor a lowercase MXL UUID"
    );
    assert_eq!(words(s, "{\"transport_params\": [{\"x\": 1}]}", ""), "unknown MXL transport parameter 'x'");
    assert_eq!(
        words(s, &format!("{{\"transport_params\": [{{\"mxl_domain_id\": \"{OTHER}\"}}]}}"), ""),
        format!("MXL Domain {OTHER} is not available on this node (only {DOM})")
    );
    assert_eq!(
        words(s, &format!("{{\"transport_params\": [{{\"mxl_flow_id\": \"{OTHER}\"}}]}}"), ""),
        format!("this Sender writes MXL Flow {FLOW}, not {OTHER}")
    );
}

#[test]
fn what_is_shown_can_be_staged() {
    let shown = Json::new_object().with("transport_params", params(Some(DOM), Some(FLOW)));
    let s = parse_staged(Role::Sender, &shown, DOM, Some(FLOW)).unwrap();
    assert_eq!((s.domain, s.flow), (Some(Param::Id(DOM.into())), Some(Param::Id(FLOW.into()))));
    let c = constraints(Role::Sender, DOM, Some(FLOW));
    assert_eq!(at(&c, &["0", "mxl_flow_id", "enum", "0"]).as_str(), Some(FLOW));
}

// -- The mirrors ------------------------------------------------------------------------------

#[test]
fn sink_mirror_add_change_remove() {
    let mut state = test_state();

    let entry = add_sink(&mut state, 1, "Sink One", vec![0, 1]);
    assert_eq!(entry.daemon_id, 1);
    assert_eq!(entry.label, "Sink One");
    assert_eq!(entry.channels, 2);
    assert!(!entry.active);
    assert_eq!(entry.source_id, mxl_flow::sink_source_id(1));
    assert_eq!(entry.flow_id, mxl_flow::sink_flow_id(1));
    assert_eq!(entry.sender_id, mxl_flow::sink_sender_id(1));

    let entry2 = add_sink(&mut state, 1, "Sink One Wide", vec![0, 1, 2, 3]);
    assert_eq!(entry2.source_id, entry.source_id);
    assert_eq!(entry2.label, "Sink One Wide");
    assert_eq!(entry2.channels, 4);
    assert_eq!(state.sinks.get(&1).unwrap().map, vec![0, 1, 2, 3]);

    assert!(state.remove_sink(1).is_some());
    assert!(state.remove_sink(1).is_none());
}

#[test]
fn source_mirror_add_change_remove() {
    let mut state = test_state();

    let entry = add_source(&mut state, 3, "Source Three", vec![10, 11, 12]);
    assert_eq!(entry.daemon_id, 3);
    assert_eq!(entry.label, "Source Three");
    assert_eq!(entry.channels, 3);
    assert_eq!(entry.receiver_id, mxl_flow::source_receiver_id(3));

    let entry2 = add_source(&mut state, 3, "Renamed", vec![10]);
    assert_eq!(entry2.receiver_id, entry.receiver_id);
    assert_eq!(entry2.label, "Renamed");
    assert_eq!(entry2.channels, 1);
    assert_eq!(state.sources.get(&3).unwrap().map, vec![10]);

    assert!(state.remove_source(3).is_some());
    assert!(state.remove_source(3).is_none());
}

#[test]
fn lease_acquire_is_idempotent_and_release_variants_behave() {
    let mut leases = Vec::new();
    apply_lease_action(&mut leases, &SinkLeaseAction::Acquire("a".to_string()));
    apply_lease_action(&mut leases, &SinkLeaseAction::Acquire("a".to_string()));
    assert_eq!(leases, vec!["a".to_string()]);

    apply_lease_action(&mut leases, &SinkLeaseAction::Acquire("b".to_string()));
    assert_eq!(leases, vec!["a".to_string(), "b".to_string()]);

    apply_lease_action(&mut leases, &SinkLeaseAction::Release(Some("a".to_string())));
    assert_eq!(leases, vec!["b".to_string()]);

    apply_lease_action(&mut leases, &SinkLeaseAction::Acquire("c".to_string()));
    apply_lease_action(&mut leases, &SinkLeaseAction::Release(None));
    assert!(leases.is_empty());
}

#[test]
fn sink_activation_rejects_unknown_sender_and_rolls_back_on_flow_failure() {
    let mut state = test_state();
    add_sink(&mut state, 5, "Sink Five", vec![0]);
    let sender_id_str = mxl_flow::sink_sender_id(5).to_string();
    let acquire = SinkLeaseAction::Acquire("recv-1".to_string());

    assert!(state.set_sink_activation("not-a-real-id", &acquire, Ok(())).is_err());

    assert!(state.sink_to_open(&sender_id_str, &acquire).is_some());
    assert!(state.set_sink_activation(&sender_id_str, &acquire, no_libmxl()).is_err());
    let entry = state.sinks.remove(&5).unwrap();
    assert!(entry.leases.is_empty());
    assert!(!entry.active);
    assert!(!entry.flow);
}

#[test]
fn sink_activation_release_with_no_leases_is_a_harmless_no_op() {
    let mut state = test_state();
    add_sink(&mut state, 6, "Sink Six", vec![0]);
    let sender_id_str = mxl_flow::sink_sender_id(6).to_string();

    let entry = state.set_sink_activation(&sender_id_str, &SinkLeaseAction::Release(None), no_libmxl()).unwrap();
    assert!(!entry.active);
    assert_eq!(entry.receiver_id, None);
}

#[test]
fn source_activation_requires_flow_id_when_activating() {
    let mut state = test_state();
    add_source(&mut state, 9, "Source Nine", vec![0]);
    let receiver_id_str = mxl_flow::source_receiver_id(9).to_string();

    let err = state.set_source_activation(&receiver_id_str, true, Some("sender-x".to_string()), None, Ok(()));
    assert!(err.is_err());

    let ok = state.set_source_activation(&receiver_id_str, false, None, None, Ok(()));
    assert!(ok.is_ok());
    assert!(!ok.unwrap().active);
}

#[test]
fn own_sink_flow_id_resolves_local_sender() {
    let mut state = test_state();
    let entry = add_sink(&mut state, 7, "Sink Seven", vec![0, 1]);

    let resolved = state.own_sink_flow_id(&entry.sender_id.to_string());
    assert_eq!(resolved, Some(entry.flow_id));
    assert_eq!(state.own_sink_flow_id("not-a-real-id"), None);
}

#[test]
fn a_flow_is_open_while_there_are_leases() {
    let mut state = test_state();
    add_sink(&mut state, 1, "One", vec![0]);
    let id = mxl_flow::sink_sender_id(1).to_string();
    let a = SinkLeaseAction::Acquire("a".to_string());
    let b = SinkLeaseAction::Acquire("b".to_string());
    let e = state.set_sink_activation(&id, &a, Ok(())).unwrap();
    assert!(e.active);
    assert!(state.sink_to_open(&id, &b).is_none(), "it is open already");
    state.set_sink_activation(&id, &b, Ok(())).unwrap();
    state.set_sink_activation(&id, &SinkLeaseAction::Release(Some("a".into())), Ok(())).unwrap();
    assert!(state.sinks.get(&1).unwrap().flow);
    let e = state.set_sink_activation(&id, &SinkLeaseAction::Release(Some("b".into())), Ok(())).unwrap();
    assert!(!e.active);
    assert!(!state.sinks.get(&1).unwrap().flow);
}

#[test]
fn failed_activations_are_put_into_words() {
    let mut state = test_state();
    add_sink(&mut state, 1, "One", vec![0]);
    add_source(&mut state, 2, "Two", vec![0]);
    let sender = mxl_flow::sink_sender_id(1).to_string();
    let receiver = mxl_flow::source_receiver_id(2).to_string();
    let acquire = SinkLeaseAction::Acquire("a".into());
    assert_eq!(state.set_sink_activation("x", &acquire, Ok(())).unwrap_err(), "no such sender x");
    assert_eq!(
        state.set_sink_activation(&sender, &acquire, no_libmxl()).unwrap_err(),
        "activating Sender failed to open its MXL flow: libmxl is not there"
    );
    assert_eq!(state.set_source_activation("x", false, None, None, Ok(())).unwrap_err(), "no such receiver x");
    assert_eq!(
        state.set_source_activation(&receiver, true, None, None, Ok(())).unwrap_err(),
        "activating a Receiver requires a resolved flow_id"
    );
    assert_eq!(
        state.set_source_activation(&receiver, true, None, Some("f".into()), no_libmxl()).unwrap_err(),
        "activating Receiver failed to open its MXL flow: libmxl is not there"
    );
}

#[test]
fn faults_are_noted_once_and_leave_the_activation_alone() {
    let mut state = test_state();
    add_sink(&mut state, 1, "One", vec![0]);
    let id = mxl_flow::sink_sender_id(1).to_string();
    state.set_sink_activation(&id, &SinkLeaseAction::Acquire("a".to_string()), Ok(())).unwrap();
    assert!(state.mark_sink_fault(1, "gone"));
    assert!(!state.mark_sink_fault(1, "gone still"));
    assert!(state.sinks.get(&1).unwrap().active);
    assert!(state.clear_sink_fault(1));
    assert!(!state.clear_sink_fault(1));
    assert!(!state.mark_source_fault(4, "nothing there"));
}

// -- The channel mapping ----------------------------------------------------------------------

#[test]
fn direct_sink_to_source_mapping_applies_and_reads_back() {
    let mut state = test_state();
    add_sink(&mut state, 1, "Sink One", vec![0, 1]);
    let src = add_source(&mut state, 2, "Source Two", vec![0, 1]);
    state.is08.sync_source_stream_output(src.daemon_id, src.channels as usize);

    let a = action("{\"source-stream:2\": { \"0\": { \"input\": \"sink-stream:1\", \"channel_index\": 1 } }}");
    apply(&mut state, &a, false).unwrap();

    let active = map_active_json(&state.is08);
    let entry = at(&active, &["map", "source-stream:2", "0"]);
    assert_eq!(entry.text_field("input"), Some("sink-stream:1"));
    assert_eq!(entry.unsigned_field("channel_index"), Some(1));
}

#[test]
fn unknown_output_and_input_are_rejected() {
    let mut state = test_state();
    add_sink(&mut state, 1, "Sink One", vec![0]);
    let src = add_source(&mut state, 2, "Source Two", vec![0]);
    state.is08.sync_source_stream_output(src.daemon_id, src.channels as usize);

    let bad_output = action("{ \"source-stream:99\": { \"0\": { \"input\": null } } }");
    assert!(apply(&mut state, &bad_output, false).is_err());

    let bad_input = action("{\"source-stream:2\": { \"0\": { \"input\": \"sink-stream:99\", \"channel_index\": 0 } }}");
    assert!(apply(&mut state, &bad_input, false).is_err());

    let out_of_range = action("{\"source-stream:2\": { \"5\": { \"input\": null } }}");
    assert!(apply(&mut state, &out_of_range, false).is_err());
}

#[test]
fn packed_rx_flow_is_created_lazily_and_fixed_size_thereafter() {
    let mut state = test_state();
    add_sink(&mut state, 1, "Sink One", vec![0, 1]);

    let create = action(
        "{\"packed-rx:mix1\": {
            \"0\": { \"input\": \"sink-stream:1\", \"channel_index\": 0 },
            \"1\": { \"input\": \"sink-stream:1\", \"channel_index\": 1 }
        }}",
    );
    apply(&mut state, &create, false).unwrap();
    assert_eq!(state.is08.outputs.get(&"packed-rx:mix1".to_string()).unwrap().len(), 2);

    let grow = action("{\"packed-rx:mix1\": { \"2\": { \"input\": \"sink-stream:1\", \"channel_index\": 0 } }}");
    assert!(apply(&mut state, &grow, false).is_err());

    let remap = action("{\"packed-rx:mix1\": { \"0\": { \"input\": null } }}");
    apply(&mut state, &remap, false).unwrap();
    let active = map_active_json(&state.is08);
    assert_eq!(*at(&active, &["map", "packed-rx:mix1", "0", "input"]), Json::Null);
}

#[test]
fn packed_tx_flow_is_created_lazily_from_the_input_side() {
    let mut state = test_state();
    let src = add_source(&mut state, 3, "Source Three", vec![0]);
    state.is08.sync_source_stream_output(src.daemon_id, src.channels as usize);

    let create = action("{\"source-stream:3\": { \"0\": { \"input\": \"packed-tx:mix2\", \"channel_index\": 3 } }}");
    apply(&mut state, &create, false).unwrap();
    assert_eq!(*state.is08.packed_tx_sizes.get(&"mix2".to_string()).unwrap(), 4);

    let out_of_range = action("{\"source-stream:3\": { \"0\": { \"input\": \"packed-tx:mix2\", \"channel_index\": 10 } }}");
    assert!(apply(&mut state, &out_of_range, false).is_err());
}

#[test]
fn dry_run_validates_without_mutating_state() {
    let mut state = test_state();
    add_sink(&mut state, 1, "Sink One", vec![0]);

    let a = action("{\"packed-rx:mix3\": { \"0\": { \"input\": \"sink-stream:1\", \"channel_index\": 0 } }}");
    apply(&mut state, &a, true).unwrap();
    assert!(!state.is08.outputs.contains_key(&"packed-rx:mix3".to_string()));

    apply(&mut state, &a, false).unwrap();
    assert!(state.is08.outputs.contains_key(&"packed-rx:mix3".to_string()));
}

#[test]
fn source_stream_output_resizes_and_is_removed_with_the_daemon_source() {
    let mut state = test_state();
    let id = "source-stream:7".to_string();
    state.is08.sync_source_stream_output(7, 2);
    assert_eq!(state.is08.outputs.get(&id).unwrap().len(), 2);

    state.is08.sync_source_stream_output(7, 4);
    assert_eq!(state.is08.outputs.get(&id).unwrap().len(), 4);

    state.is08.remove_source_stream_output(7);
    assert!(!state.is08.outputs.contains_key(&id));
}

#[test]
fn ends_of_crosspoints_read_back() {
    for k in [InputKind::SinkStream(12), InputKind::SourceMxl("a b".into())] {
        assert_eq!(InputKind::parse(&k.id()), Some(k));
    }
    assert_eq!(OutputKind::parse("source-stream:7").unwrap().id(), "source-stream:7");
    assert_eq!(OutputKind::parse("packed-rx:x").unwrap().id(), "packed-rx:x");
    assert!(InputKind::parse("sink-stream:256").is_none());
    assert!(OutputKind::parse("else:1").is_none());
}

#[test]
fn refused_crosspoints_are_put_into_words_and_change_nothing() {
    let mut state = test_state();
    add_sink(&mut state, 1, "Sink One", vec![0]);
    add_source(&mut state, 2, "Source Two", vec![0]);
    state.is08.sync_source_stream_output(2, 1);
    let before = map_active_json(&state.is08);
    for (text, words) in [
        ("{\"x\": {\"0\": {\"input\": null}}}", "Unknown output 'x'"),
        ("{\"source-stream:2\": 1}", "Invalid mapping for output 'source-stream:2'"),
        ("{\"source-stream:2\": {\"a\": {}}}", "Invalid channel index 'a' for output 'source-stream:2'"),
        ("{\"source-stream:2\": {\"1\": {}}}", "Channel index 1 out of range for output 'source-stream:2'"),
        ("{\"source-stream:2\": {\"0\": {\"input\": \"y\", \"channel_index\": 0}}}", "Unknown input 'y'"),
        (
            "{\"source-stream:2\": {\"0\": {\"input\": \"sink-stream:1\", \"channel_index\": -1}}}",
            "Invalid channel_index for input 'sink-stream:1'",
        ),
        (
            "{\"source-stream:2\": {\"0\": {\"input\": \"sink-stream:1\", \"channel_index\": 1}}}",
            "Channel index 1 out of range for input 'sink-stream:1'",
        ),
    ] {
        assert_eq!(apply(&mut state, &action(text), false).unwrap_err(), words);
    }
    assert_eq!(map_active_json(&state.is08), before);
}

#[test]
fn the_channel_mapping_is_described() {
    let mut state = test_state();
    add_sink(&mut state, 1, "Sink One", vec![0, 1]);
    add_source(&mut state, 2, "Source Two", vec![4, 5]);
    state.is08.sync_source_stream_output(2, 2);
    let a = action(
        "{\"source-stream:2\": {\"1\": {\"input\": \"packed-tx:p\", \"channel_index\": 0}},
          \"packed-rx:q\": {\"0\": {\"input\": \"sink-stream:1\", \"channel_index\": 0}}}",
    );
    apply(&mut state, &a, false).unwrap();

    assert_eq!(inputs_list(&state.sinks, &state.is08).body.as_array().unwrap().len(), 2);
    assert_eq!(outputs_list(&state.is08).body.as_array().unwrap().len(), 2);
    assert_eq!(input_caps(&state.sinks, &state.is08, "sink-stream:1").status, 200);
    assert_eq!(input_caps(&state.sinks, &state.is08, "sink-stream:9").status, 404);
    let parent = input_parent(&state.sinks, &state.is08, "sink-stream:1");
    assert_eq!(parent.body.text_field("type"), Some("sender"));
    assert_eq!(input_channels(&state.sinks, &state.is08, "sink-stream:1").body.as_array().unwrap().len(), 2);
    let p = input_properties(&state.sinks, &state.is08, "packed-tx:p");
    assert_eq!(p.body.text_field("name"), Some("Packed TX: p"));
    assert_eq!(output_caps(&state.sinks, &state.is08, "source-stream:2").status, 200);
    assert_eq!(output_caps(&state.sinks, &state.is08, "source-stream:3").status, 404);
    assert_eq!(output_sourceid(&state.sources, &state.is08, "source-stream:2").status, 200);
    assert_eq!(output_channels(&state.is08, "packed-rx:q").body.as_array().unwrap().len(), 1);
    let p = output_properties(&state.sources, &state.is08, "source-stream:2");
    assert_eq!(p.body.text_field("name"), Some("Stream Tx: Source Two"));

    assert_eq!(scatter_table(&state.is08, &state.sources, "p", 2), vec![vec![5], vec![]]);
}

#[test]
fn activations_are_applied_at_once_and_forgotten() {
    let mut state = test_state();
    add_sink(&mut state, 1, "Sink One", vec![0, 1]);
    let post = |state: &mut NmosState, text: &str| {
        activations_post(&state.sinks, &state.sources, &mut state.is08, &json(text), (3, 4))
    };
    let good = "{\"activation\": {\"mode\": \"activate_immediate\"},
        \"action\": {\"packed-rx:q\": {\"0\": {\"input\": \"sink-stream:1\", \"channel_index\": 0}}}}";
    let r = post(&mut state, good);
    assert_eq!(r.status, 200);
    let (id, _) = &r.body.as_object().unwrap()[0];
    assert_eq!(at(&r.body, &[id, "activation", "activation_time"]).as_str(), Some("3:4"));
    let again = post(&mut state, good);
    assert_ne!(&again.body.as_object().unwrap()[0].0, id);
    assert!(activations_list(&state.is08).body.as_object().unwrap().is_empty());
    assert_eq!(activation_get(&state.is08, id).status, 404);
    assert_eq!(activation_delete(&mut state.is08, id).status, 404);
    assert_eq!(post(&mut state, "{}").status, 400);
    assert_eq!(post(&mut state, "{\"activation\": {\"mode\": \"x\"}}").status, 400);
    let bad = "{\"activation\": {\"mode\": \"x\"}, \"action\": {\"no\": {\"0\": {}}}}";
    assert_eq!(post(&mut state, bad).status, 400);
}

// -- In step with the daemon ------------------------------------------------------------------

fn diff(sources: Vec<StreamChange<DaemonSource>>, sinks: Vec<StreamChange<DaemonSink>>) -> DaemonDiff {
    DaemonDiff { state: DaemonState::default(), source_changes: sources, sink_changes: sinks }
}

/// What each step tells a registry, in its order.
fn told(work: &[SyncStep]) -> Vec<String> {
    work.iter()
        .map(|s| match s {
            SyncStep::Register(all) => format!("+{}", all.iter().map(|r| r.kind).collect::<Vec<&str>>().join(" ")),
            SyncStep::Remove(all) => format!("-{}", all.iter().map(|r| r.kind).collect::<Vec<&str>>().join(" ")),
        })
        .collect()
}

#[test]
fn changes_are_told_in_their_order() {
    let mut state = test_state();
    add_sink(&mut state, 1, "One", vec![0]);
    let change = diff(
        vec![StreamChange::Added(test_source(2, "Two", vec![0]))],
        vec![StreamChange::Removed(1), StreamChange::Added(test_sink(3, "Three", vec![1])), StreamChange::Removed(9)],
    );
    let work = apply_diff(&mut state, &change, V, &vec![]);
    assert_eq!(told(&work), ["-sender flow source", "+source flow sender", "+receiver"]);
}

#[test]
fn run_applies_added_and_removed_diffs_from_channel() {
    let mut state = test_state();
    let first = diff(
        vec![StreamChange::Added(test_source(2, "Source Two", vec![0, 1]))],
        vec![StreamChange::Added(test_sink(1, "Sink One", vec![0, 1, 2]))],
    );
    let second = diff(vec![StreamChange::Removed(2)], vec![]);
    let work = apply_diff(&mut state, &first, V, &vec![]);
    assert_eq!(told(&work), ["+source flow sender", "+receiver"]);
    let work = apply_diff(&mut state, &second, V, &vec![]);
    assert_eq!(told(&work), ["-receiver"]);

    assert_eq!(state.sinks.len(), 1);
    assert_eq!(state.sinks.get(&1).unwrap().channels, 3);

    assert_eq!(state.sources.len(), 0);
}

#[test]
fn following_the_daemon_keeps_the_count_of_activations() {
    let mut state = test_state();
    add_sink(&mut state, 1, "One", vec![0]);
    let good = json(
        "{\"activation\": {\"mode\": \"activate_immediate\"},
        \"action\": {\"packed-rx:q\": {\"0\": {\"input\": \"sink-stream:1\", \"channel_index\": 0}}}}",
    );
    assert_eq!(activations_post(&state.sinks, &state.sources, &mut state.is08, &good, (3, 4)).status, 200);
    let count = state.is08.activation_counter;
    assert_ne!(count, test_state().is08.activation_counter);
    let change = diff(vec![StreamChange::Added(test_source(2, "Two", vec![0]))], vec![StreamChange::Removed(1)]);
    apply_diff(&mut state, &change, V, &vec![]);
    apply_diff(&mut state, &diff(vec![StreamChange::Removed(2)], vec![]), V, &vec![]);
    assert_eq!(state.is08.activation_counter, count);
}

#[test]
fn a_flow_that_cannot_be_opened_anew_is_closed() {
    let mut state = test_state();
    add_sink(&mut state, 1, "One", vec![0]);
    let id = mxl_flow::sink_sender_id(1).to_string();
    state.set_sink_activation(&id, &SinkLeaseAction::Acquire("a".into()), Ok(())).unwrap();
    let wider = diff(vec![], vec![StreamChange::Changed(test_sink(1, "One", vec![0, 1]))]);
    assert_eq!(to_reopen(&state, &wider), vec![1]);
    apply_diff(&mut state, &wider, V, &vec![]);
    assert!(!state.sinks.get(&1).unwrap().flow);
}

#[test]
fn snapshot_round_trips_and_restore_skips_what_no_longer_exists() {
    let mut state = test_state();
    add_sink(&mut state, 3, "Sink", vec![0, 1]);
    add_source(&mut state, 0, "Source", vec![0, 1]);

    let sender = mxl_flow::sink_sender_id(3).to_string();
    let receiver = mxl_flow::source_receiver_id(0).to_string();
    state.set_sink_activation(&sender, &SinkLeaseAction::Acquire("controller".into()), Ok(())).unwrap();
    state.set_source_activation(&receiver, true, None, Some(OTHER.into()), Ok(())).unwrap();
    let kept = snapshot(&state);
    assert_eq!(kept.sinks.get(&3), Some(&vec!["controller".to_string()]));
    assert_eq!(kept.sources.get(&0).unwrap().flow_id, OTHER);

    let mut same = test_state();
    add_sink(&mut same, 3, "Sink", vec![0, 1]);
    add_source(&mut same, 0, "Source", vec![0, 1]);
    let steps = restore(&same, &kept);
    assert_eq!(steps.len(), 2);
    assert!(matches!(&steps[0], RestoreStep::Lease { sender: s, lease } if *s == sender && lease == "controller"));
    assert!(matches!(&steps[1], RestoreStep::Connect { receiver: r, sender_id: None, flow } if *r == receiver && flow == OTHER));

    for step in steps {
        match step {
            RestoreStep::Lease { sender, lease } => {
                same.set_sink_activation(&sender, &SinkLeaseAction::Acquire(lease), Ok(())).unwrap();
            }
            RestoreStep::Connect { receiver, sender_id, flow } => {
                same.set_source_activation(&receiver, true, sender_id, Some(flow), Ok(())).unwrap();
            }
        }
    }
    assert_eq!(same.sinks.get(&3).unwrap().leases, ["controller"]);
    assert_eq!(same.sources.get(&0).unwrap().flow_id.as_deref(), Some(OTHER));

    let empty = test_state();
    assert!(restore(&empty, &kept).is_empty());
    assert_eq!(empty.sinks.len(), 0);
}

// -- What is answered -------------------------------------------------------------------------

fn contract_state() -> NmosState {
    let mut s = test_state();
    add_sink(&mut s, 3, "DKL OPT2 Audio", (16..32).collect());
    add_source(&mut s, 0, "ALSA Source 0", (0..8).collect());
    s
}

fn ids(s: &NmosState) -> (String, String, String) {
    let senders = senders_list(s).body;
    let receivers = receivers_list(s).body;
    (
        at(&senders, &["0", "id"]).as_str().unwrap().into(),
        at(&senders, &["0", "flow_id"]).as_str().unwrap().into(),
        at(&receivers, &["0", "id"]).as_str().unwrap().into(),
    )
}

/// What every resource has.
fn assert_core(doc: &Json) {
    assert!(Uuid::parse(doc.text_field("id").unwrap()).is_some());
    assert!(doc.text_field("version").unwrap().contains(':'));
    assert!(doc.text_field("label").is_some());
    assert!(doc.text_field("description").is_some());
    assert!(doc.get("tags").unwrap().as_object().is_some());
}

#[test]
fn is04_resources_validate_and_follow_bcp_007_03() {
    let s = contract_state();
    let node = node_self(&s, "host").body;
    assert_core(&node);
    for k in ["href", "hostname", "caps", "services", "clocks", "interfaces", "api"] {
        assert!(node.get(k).is_some(), "{k}");
    }
    for d in devices_list(&s).body.as_array().unwrap() {
        assert_core(d);
        for k in ["type", "node_id", "senders", "receivers", "controls"] {
            assert!(d.get(k).is_some(), "{k}");
        }
    }
    for src in sources_list(&s).body.as_array().unwrap() {
        assert_core(src);
        assert_eq!(src.get("channels").unwrap().as_array().unwrap().len(), 16);
    }
    for f in flows_list(&s).body.as_array().unwrap() {
        assert_core(f);
        assert_eq!(f.text_field("media_type"), Some("audio/float32"));
    }
    let senders = senders_list(&s).body;
    let receivers = receivers_list(&s).body;
    assert!(!senders.as_array().unwrap().is_empty() && !receivers.as_array().unwrap().is_empty());
    for tx in senders.as_array().unwrap() {
        assert_core(tx);
        assert_eq!(tx.text_field("transport"), Some("urn:x-nmos:transport:mxl"));
        assert!(tx.get("manifest_href").unwrap().is_null(), "manifest_href is null");
        assert_eq!(*tx.get("interface_bindings").unwrap(), json("[]"));
    }
    for rx in receivers.as_array().unwrap() {
        assert_core(rx);
        assert_eq!(rx.text_field("transport"), Some("urn:x-nmos:transport:mxl"));
        assert_eq!(*rx.get("interface_bindings").unwrap(), json("[]"));
        assert!(!at(rx, &["caps", "media_types"]).as_array().unwrap().is_empty());
        let cs = at(rx, &["caps", "constraint_sets", "0"]);
        assert_eq!(*at(cs, &["urn:x-nmos:cap:format:channel_count", "enum"]), json("[8]"));
    }
}

#[test]
fn is05_documents_validate_against_the_mxl_schemas() {
    let s = contract_state();
    let (sender, flow, receiver) = ids(&s);
    let doc = sender_staged(&s, &sender);
    assert_eq!(doc.status, 200);
    let tp = doc.body.get("transport_params").unwrap().as_array().unwrap();
    assert_eq!(tp.len(), 1, "exactly one parameter set");
    assert_eq!(tp[0].text_field("mxl_domain_id"), Some(s.domain.id.to_string().as_str()));
    assert_eq!(tp[0].text_field("mxl_flow_id"), Some(flow.as_str()));

    let doc = receiver_staged(&s, &receiver);
    assert_eq!(doc.status, 200);
    let tp = doc.body.get("transport_params").unwrap().as_array().unwrap();
    assert_eq!(tp.len(), 1);
    assert_eq!(tp[0], json("{\"mxl_domain_id\": null, \"mxl_flow_id\": null}"), "unconnected = null");

    for c in [sender_constraints(&s, &sender), receiver_constraints(&s, &receiver)] {
        assert_eq!(c.status, 200);
        let c = c.body.as_array().unwrap();
        assert_eq!(c.len(), 1, "exactly one constraint set");
        assert!(!format!("{:?}", c[0]).contains("\"auto\""), "auto is never listed in constraints");
    }
    assert_eq!(sender_transportfile().status, 404);
}

/// The status that a request to a receiver is answered with where no registry is needed.
fn patch_receiver(s: &mut NmosState, id: &str, body: &Json) -> u16 {
    let plan = plan_receiver_patch(s, id, body);
    finish_receiver_patch(s, id, plan, "", no_libmxl()).status
}

fn patch_sender(s: &mut NmosState, id: &str, body: &Json) -> u16 {
    let plan = plan_sender_patch(s, id, body);
    finish_sender_patch(s, id, &plan, "", no_libmxl()).status
}

#[test]
fn is05_rejects_what_cannot_apply_here() {
    let mut s = contract_state();
    let (sender, _flow, receiver) = ids(&s);
    let other = "e37296f4-a397-414d-b096-121d95fd08a2";
    for text in [
        format!("{{\"transport_params\": [{{\"mxl_flow_id\": \"{other}\"}}]}}"),
        format!("{{\"transport_params\": [{{\"mxl_domain_id\": \"{other}\"}}]}}"),
    ] {
        assert_eq!(patch_sender(&mut s, &sender, &json(&text)), 400, "{text}");
    }
    for text in [
        "{\"transport_params\": [{\"mxl_flow_id\": \"auto\"}]}".to_string(),
        format!("{{\"transport_params\": [{{\"mxl_domain_id\": \"{other}\", \"mxl_flow_id\": \"{other}\"}}]}}"),
        format!("{{\"transport_params\": [{{\"mxl_flow_id\": \"{other}\"}}, {{\"mxl_flow_id\": \"{other}\"}}]}}"),
        format!("{{\"sender_id\": \"{sender}\", \"transport_file\": {{\"data\": \"v=0\", \"type\": \"application/sdp\"}}}}"),
        "{\"master_enable\": true}".to_string(),
    ] {
        assert_eq!(patch_receiver(&mut s, &receiver, &json(&text)), 400, "{text}");
    }
    let auto = json("{\"transport_params\": [{\"mxl_domain_id\": \"auto\", \"mxl_flow_id\": \"auto\"}]}");
    assert_eq!(patch_sender(&mut s, &sender, &auto), 200);
    let off = json("{\"master_enable\": false, \"sender_id\": null, \"transport_file\": {\"data\": null, \"type\": null}}");
    assert_eq!(patch_receiver(&mut s, &receiver, &off), 200);
}

#[test]
fn requests_to_receivers_are_read() {
    let mut s = contract_state();
    let (sender, flow, receiver) = ids(&s);
    let own = json(&format!("{{\"sender_id\": \"{sender}\", \"master_enable\": true}}"));
    match plan_receiver_patch(&s, &receiver, &own) {
        ReceiverPlan::Connect { sender_id, flow: f } => {
            assert_eq!((sender_id, f), (Some(sender.clone()), flow.clone()));
        }
        other => panic!("{other:?}"),
    }
    let foreign = json(&format!("{{\"sender_id\": \"{OTHER}\", \"master_enable\": true}}"));
    assert!(matches!(plan_receiver_patch(&s, &receiver, &foreign), ReceiverPlan::Resolve { sender } if sender == OTHER));
    assert!(matches!(plan_receiver_patch(&s, "x", &own), ReceiverPlan::NotFound));

    let unresolved = resolve_receiver(plan_receiver_patch(&s, &receiver, &foreign), Err("no".to_string()));
    let refused = refuse_receiver(&unresolved, "").unwrap();
    assert_eq!(refused.status, 400);
    assert_eq!(at(&refused.body, &["error"]).as_str(), Some("could not resolve sender_id: no"));
    match resolve_receiver(plan_receiver_patch(&s, &receiver, &foreign), Ok(flow.clone())) {
        ReceiverPlan::Connect { sender_id, flow: f } => {
            assert_eq!((sender_id, f), (Some(OTHER.to_string()), flow.clone()));
        }
        other => panic!("{other:?}"),
    }

    let plan = plan_receiver_patch(&s, &receiver, &own);
    assert!(refuse_receiver(&plan, "").is_none());
    let shown = finish_receiver_patch(&mut s, &receiver, plan, "", Ok(()));
    assert_eq!(shown.status, 200);
    assert_eq!(at(&shown.body, &["transport_params", "0", "mxl_flow_id"]).as_str(), Some(flow.as_str()));
    assert_eq!(at(&shown.body, &["transport_params", "0", "mxl_domain_id"]).as_str(), Some(DOM));

    let other = json(&format!("{{\"transport_params\": [{{\"mxl_flow_id\": \"{OTHER}\"}}]}}"));
    assert_eq!(patch_receiver(&mut s, &receiver, &other), 500);
    assert_eq!(s.sources.get(&0).unwrap().flow_id, Some(flow));
}

#[test]
fn refused_requests_change_nothing() {
    let mut s = contract_state();
    let (sender, flow, receiver) = ids(&s);
    s.set_source_activation(&receiver, true, None, Some(flow.clone()), Ok(())).unwrap();
    s.set_sink_activation(&sender, &SinkLeaseAction::Acquire("r".into()), Ok(())).unwrap();
    for (text, status, error) in [
        (
            "{\"transport_file\": {\"data\": \"v=0\"}}",
            400,
            "MXL Receivers take no transport_file (use transport_params.mxl_flow_id)",
        ),
        ("{\"transport_params\": []}", 400, "MXL uses exactly one set of transport parameters, got 0"),
        (
            "{\"transport_params\": [{\"mxl_flow_id\": 7}]}",
            400,
            "mxl_flow_id: 7 is neither null, \"auto\" nor a lowercase MXL UUID",
        ),
        (
            "{\"master_enable\": true}",
            400,
            "activating an MXL Receiver requires transport_params mxl_flow_id (or a sender_id)",
        ),
    ] {
        let plan = plan_receiver_patch(&s, &receiver, &json(text));
        let said = refuse_receiver(&plan, "7").unwrap();
        assert_eq!((said.status, at(&said.body, &["error"]).as_str()), (status, Some(error)));
        let reply = finish_receiver_patch(&mut s, &receiver, plan, "7", Ok(()));
        assert_eq!((reply.status, reply.body), (said.status, said.body));
        assert_eq!(s.sources.get(&0).unwrap().flow_id, Some(flow.clone()), "{text}");
    }
    let off = json("{\"master_enable\": false}");
    assert_eq!(patch_receiver(&mut s, "x", &off), 404);
    assert_eq!(patch_sender(&mut s, "x", &off), 404);

    let plan = plan_sender_patch(&s, &sender, &json("{\"master_enable\": false, \"transport_params\": {}}"));
    let said = refuse_sender(&plan, "").unwrap();
    assert_eq!((said.status, at(&said.body, &["error"]).as_str()), (400, Some("transport_params must be an array")));
    assert_eq!(finish_sender_patch(&mut s, &sender, &plan, "", Ok(())).status, 400);
    assert_eq!(s.sinks.get(&3).unwrap().leases, ["r"]);
    let plan = plan_sender_patch(&s, &sender, &off);
    assert!(refuse_sender(&plan, "").is_none());
    let reply = finish_sender_patch(&mut s, &sender, &plan, "", Ok(()));
    assert_eq!((reply.status, at(&reply.body, &["master_enable"]).as_bool()), (200, Some(false)));
    assert!(s.sinks.get(&3).unwrap().leases.is_empty());
    assert_eq!(patch_sender(&mut s, &sender, &json("{\"master_enable\": true}")), 500);
    assert!(s.sinks.get(&3).unwrap().leases.is_empty());
}

#[test]
fn connecting_needs_the_flow_opened() {
    let s = contract_state();
    let (_, flow, receiver) = ids(&s);
    let flow = Some(flow);
    assert_eq!(s.source_to_open(&receiver, true, &flow).unwrap().daemon_id, 0);
    assert!(s.source_to_open(&receiver, false, &flow).is_none());
    assert!(s.source_to_open(&receiver, true, &None).is_none());
    assert!(s.source_to_open("x", true, &flow).is_none());
}

#[test]
fn what_is_read_can_be_sent_back() {
    let mut s = contract_state();
    let (sender, flow, receiver) = ids(&s);
    let shown = sender_staged(&s, &sender).body;
    assert!(matches!(plan_sender_patch(&s, &sender, &shown), SenderPlan::Lease(SinkLeaseAction::Release(None))));
    s.set_sink_activation(&sender, &SinkLeaseAction::Acquire("r".into()), Ok(())).unwrap();
    let shown = sender_staged(&s, &sender).body;
    match plan_sender_patch(&s, &sender, &shown) {
        SenderPlan::Lease(a) => {
            s.set_sink_activation(&sender, &a, Ok(())).unwrap();
        }
        other => panic!("{other:?}"),
    }
    assert_eq!(s.sinks.get(&3).unwrap().leases, ["r"]);

    let shown = receiver_staged(&s, &receiver).body;
    assert!(matches!(plan_receiver_patch(&s, &receiver, &shown), ReceiverPlan::Disconnect { sender_id: None }));
    s.set_source_activation(&receiver, true, Some(sender.clone()), Some(flow.clone()), Ok(())).unwrap();
    let shown = receiver_staged(&s, &receiver).body;
    match plan_receiver_patch(&s, &receiver, &shown) {
        ReceiverPlan::Connect { sender_id, flow: f } => assert_eq!((sender_id, f), (Some(sender), flow)),
        other => panic!("{other:?}"),
    }
}

#[test]
fn requests_to_senders_are_read() {
    let mut s = contract_state();
    let (sender, _, _) = ids(&s);
    let on = json("{\"master_enable\": true}");
    match plan_sender_patch(&s, &sender, &on) {
        SenderPlan::Lease(SinkLeaseAction::Acquire(holder)) => assert_eq!(holder, "controller"),
        other => panic!("{other:?}"),
    }
    assert_eq!(patch_sender(&mut s, &sender, &on), 500, "the flow cannot be opened");
    assert_eq!(patch_sender(&mut s, "x", &on), 404);
    let off = json("{\"master_enable\": false, \"receiver_id\": \"r\"}");
    assert!(matches!(
        plan_sender_patch(&s, &sender, &off),
        SenderPlan::Lease(SinkLeaseAction::Release(Some(r))) if r == "r"
    ));
}

#[test]
fn single_resources_are_found() {
    let s = contract_state();
    let (sender, flow, receiver) = ids(&s);
    assert_eq!(sender_get(&s, &sender).status, 200);
    assert_eq!(flow_get(&s, &flow).status, 200);
    assert_eq!(receiver_get(&s, &receiver).status, 200);
    assert_eq!(source_get(&s, &mxl_flow::sink_source_id(3).to_string()).status, 200);
    assert_eq!(device_get(&s, &mxl_flow::device_id().to_string()).status, 200);
    for r in [sender_get(&s, "x"), flow_get(&s, "x"), receiver_get(&s, "x"), source_get(&s, "x"), device_get(&s, "x")] {
        assert_eq!(r.status, 404);
    }
    assert_eq!(sender_ids(&s).body, json(&format!("[\"{sender}/\"]")));
    assert_eq!(receiver_ids(&s).body, json(&format!("[\"{receiver}/\"]")));
    assert_eq!(transporttype().body, Json::text("urn:x-nmos:transport:mxl"));
}

#[test]
fn everything_is_registered_in_its_order() {
    let s = contract_state();
    let kinds: Vec<&str> = register_all(&s, "host").iter().map(|r| r.kind).collect();
    assert_eq!(kinds, ["node", "device", "source", "flow", "sender", "receiver"]);
    let node = register_all(&s, "host")[0].body();
    assert_eq!(node.text_field("type"), Some("node"));
    assert_eq!(at(&node, &["data", "hostname"]).as_str(), Some("host"));
    assert!(is_unregistered(404));
    assert!(is_unregistered(204));
    assert!(!is_unregistered(500));
}

#[test]
fn the_registry_is_addressed() {
    assert_eq!(registry_base(None, 80), None);
    let base = registry_base(Some("reg"), 80).unwrap();
    assert_eq!(base, "http://reg:80/x-nmos/registration/v1.3");
    let id = Uuid { bits: 1 };
    assert_eq!(health_url(&base, &id), format!("{base}/health/nodes/{}", id.to_string()));
    assert_eq!(resource_url(&base, "senders", &id), format!("{base}/resource/senders/{}", id.to_string()));
    assert_eq!(heartbeat(Some(200)), Heartbeat::Nothing);
    assert_eq!(heartbeat(Some(404)), Heartbeat::RegisterAgain);
    assert_eq!(heartbeat(None), Heartbeat::Report);
    assert_eq!(sender_query(Some("reg"), 80, "s").unwrap(), "http://reg:80/x-nmos/query/v1.3/senders/s");
    assert_eq!(
        sender_query(None, 80, "s").unwrap_err(),
        "no nmos_registry_address configured, cannot resolve remote sender_id"
    );
    assert_eq!(read_sender_flow(&json("{\"flow_id\": \"f\"}"), "s").unwrap(), "f");
    assert_eq!(
        read_sender_flow(&json("{\"flow_id\": null}"), "s").unwrap_err(),
        "sender s response had no flow_id field"
    );
}
