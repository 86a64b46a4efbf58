//! The mixing console: the engine, its topology, its clients, its state file and its node.

use mxl_bridge::console::config::{
    AutoMasterConfig, BusConfig, ChannelTemplate, Config, InputGridEntryConfig, MasterTrackConfig,
    OutputGridEntryConfig, PickoffPointConfig, SendConfig, TrackConfig, TrackSource,
};
use mxl_bridge::console::dsp::{DynamicsStage, FilterStage, PhaseStage, ProcessingStage};
use mxl_bridge::console::engine::{
    any_solo, audible, build_track_scratch, compute_max_channels, pace, schedule, Engine, InputAction,
    InputRead, MixerState, Pace, Step,
};
use mxl_bridge::console::mixer::{Bus, MasterTrack, MixPlan, Track};
use mxl_bridge::console::nmos::discovery::{
    entry_for, entry_id, fresh, gone, read_candidates, remove_gone, Candidate,
};
use mxl_bridge::console::nmos::registration::register_all;
use mxl_bridge::console::nmos::resources::shown_hostname;
use mxl_bridge::console::nmos::server::{
    connect_receiver, constraints, device_get, disconnect_receiver, flow_get, node_self, opened,
    plan_receiver_patch, receiver_get, receiver_ids, receiver_staged, receivers_list, sender_get,
    sender_ids, sender_patch, sender_staged, senders_list, source_get, transporttype, unresolved,
    Opened, ReceiverPlan,
};
use mxl_bridge::console::nmos::NmosState;
use mxl_bridge::console::patch::{InputGridEntry, OutputGrid, OutputGridEntry, SourceRef};
use mxl_bridge::console::persistence::{apply_snapshot, capture};
use mxl_bridge::console::startup::{input_entry, output_entry, pair_masters, start, Resumed};
use mxl_bridge::console::topology::{
    create_bus, create_master, create_track, delete_bus, delete_master, delete_track,
    warn_incompatible_sends,
};
use mxl_bridge::console::ws::{
    broadcast, handle_create, handle_delete, handle_put, parse_create_path, parse_delete_path,
    parse_path, parse_sends, read_request, sends_json, Meters, NewStrip, Request, StripKind,
};
use mxl_bridge::json::Json;
use mxl_bridge::table::Table;
use mxl_bridge::uuid::Uuid;

fn db(v: f32) -> u32 {
    v.to_bits()
}

fn track_config(id: u32, channels: Option<u32>, template: ChannelTemplate) -> TrackConfig {
    TrackConfig {
        id,
        label: format!("T{id}"),
        channels,
        sends: vec![],
        gain_db: db(0.0),
        fader_db: db(0.0),
        template,
        chain: vec![],
    }
}

fn bus_config(id: u32, channels: Option<u32>) -> BusConfig {
    BusConfig { id, label: format!("B{id}"), channels, auto_master: None }
}

fn master_config(id: u32, channels: Option<u32>, template: ChannelTemplate) -> MasterTrackConfig {
    MasterTrackConfig { id, label: format!("M{id}"), channels, fader_db: db(0.0), template, chain: vec![] }
}

fn tracks(list: &[(u32, usize)]) -> Table<u32, Track> {
    let mut t = Table::new();
    for &(id, channels) in list {
        t.insert(id, Track::new(&track_config(id, None, ChannelTemplate::default()), channels));
    }
    t
}

fn buses(list: &[(u32, usize)]) -> Table<u32, Bus> {
    let mut t = Table::new();
    for &(id, channels) in list {
        t.insert(id, Bus::new(&bus_config(id, None), channels));
    }
    t
}

fn masters(list: &[(u32, usize)]) -> Table<u32, MasterTrack> {
    let mut t = Table::new();
    for &(id, channels) in list {
        t.insert(id, MasterTrack::new(&master_config(id, None, ChannelTemplate::default()), channels));
    }
    t
}

fn test_mixer(channels: &[usize]) -> MixerState {
    let mut m = MixerState::new(channels.iter().copied().max().unwrap_or(2), 480, 48000);
    for (i, &ch) in channels.iter().enumerate() {
        let id = i as u32;
        m.tracks.insert(id, Track::new(&track_config(id, None, ChannelTemplate::FullChannel), ch));
        m.masters.insert(id, MasterTrack::new(&master_config(id, None, ChannelTemplate::FullChannel), ch));
    }
    m
}

fn change_track(m: &mut MixerState, id: u32, change: impl Fn(&mut Track)) {
    let mut t = m.tracks.remove(&id).unwrap();
    change(&mut t);
    m.tracks.insert(id, t);
}

fn change_master(m: &mut MixerState, id: u32, change: impl Fn(&mut MasterTrack)) {
    let mut t = m.masters.remove(&id).unwrap();
    change(&mut t);
    m.masters.insert(id, t);
}

fn at<'a>(v: &'a Json, path: &[&str]) -> &'a Json {
    path.iter().fold(v, |v, k| match v {
        Json::Array(a) => &a[k.parse::<usize>().unwrap()],
        _ => v.get(k).unwrap(),
    })
}

// -- The engine -------------------------------------------------------------------------------

#[test]
fn build_track_scratch_has_one_entry_per_track_sized_to_its_own_channels() {
    let tracks = tracks(&[(0, 1), (5, 2)]);
    let scratch = build_track_scratch::<f32>(&tracks);
    assert_eq!(scratch.len(), 2);
    assert_eq!(scratch.get(&0).unwrap().pre_fader.len(), 1);
    assert_eq!(scratch.get(&0).unwrap().post_fader.len(), 1);
    assert_eq!(scratch.get(&5).unwrap().pre_fader.len(), 2);
    assert_eq!(scratch.get(&5).unwrap().post_fader.len(), 2);
}

#[test]
fn build_track_scratch_is_keyed_by_id_not_position() {
    let tracks = tracks(&[(7, 3)]);
    let scratch = build_track_scratch::<f32>(&tracks);
    assert!(scratch.contains_key(&7));
    assert!(!scratch.contains_key(&0));
}

#[test]
fn compute_max_channels_picks_the_widest_resource() {
    let tracks = tracks(&[(0, 2)]);
    let buses = buses(&[(0, 1)]);
    let masters = masters(&[(0, 5)]);
    let output_grid = OutputGrid::new();
    assert_eq!(compute_max_channels(&tracks, &buses, &masters, &output_grid), 5);
}

#[test]
fn compute_max_channels_defaults_to_one_when_nothing_exists() {
    assert_eq!(compute_max_channels(&tracks(&[]), &buses(&[]), &masters(&[]), &OutputGrid::new()), 1);
}

fn output(id: &str, channels: usize) -> OutputGridEntry {
    OutputGridEntry {
        id: id.into(),
        label: id.into(),
        channels,
        flow_id: Uuid { bits: 1 },
        receiver_id: None,
    }
}

fn input(id: &str, channels: usize) -> InputGridEntry {
    InputGridEntry {
        id: id.into(),
        label: id.into(),
        channels,
        connected: true,
        flow_id: None,
        receiver_id: Uuid { bits: 2 },
        subscribed_sender_id: None,
    }
}

/// A track that reads input "in", a bus that the track sends to, a master that the bus is patched
/// to, and an output that the master is patched to.
fn small_mixer() -> MixerState {
    let mut m = MixerState::new(1, 2, 48000);
    m.input_grid.insert(input("in", 1));
    m.output_grid.insert(output("out", 1));
    let mut t = track_config(0, None, ChannelTemplate::Simple);
    t.sends.push(SendConfig { bus_id: 0, on: true, level_db: db(-6.0), pickoff: PickoffPointConfig::PreFader });
    create_track(&mut m, &t).unwrap();
    create_bus(&mut m, &bus_config(0, None)).unwrap();
    create_master(&mut m, &master_config(0, None, ChannelTemplate::Simple)).unwrap();
    let (ts, bs, ms) = (m.track_channels(), m.bus_channels(), m.master_channels());
    m.patch
        .set_track_in(&ts, &bs, &ms, &m.input_grid, 0, vec![Some(SourceRef::Input { entry_id: "in".into(), channel: 0 })])
        .unwrap();
    m.patch
        .set_master_in(&ts, &bs, &ms, &m.input_grid, 0, 1, vec![vec![SourceRef::BusOut { bus_id: 0, channel: 0 }]])
        .unwrap();
    m.patch
        .set_output(&ts, &bs, &ms, &m.input_grid, "out", 1, vec![Some(SourceRef::MasterOut { master_id: 0, channel: 0 })])
        .unwrap();
    m
}

#[test]
fn a_period_carries_an_input_to_an_output() {
    let mut m = small_mixer();
    let mut e: Engine<i32> = Engine::new(&m, 0);
    e.begin_period(&mut m);
    assert_eq!(e.take_input("in", InputRead::Samples(vec![vec![7, 8]])), InputAction::Measure);
    let kinds: Vec<String> = schedule(&m).iter().map(|s| format!("{s:?}")).collect();
    assert_eq!(kinds, ["Track(0)", "Bus(0)", "Master(0)", "Output(\"out\")"]);

    let w = e.track_work(&m, 0).unwrap();
    assert_eq!((w.input.clone(), w.gain_db, w.fader_db), (vec![vec![7, 8]], db(0.0), Some(db(0.0))));
    e.keep_track(0, w.input, vec![vec![70, 80]]);

    let w = e.bus_work(&m, 0).unwrap();
    assert_eq!(w.sends.len(), 1);
    assert_eq!(*w.sends[0].source, vec![vec![7, 8]], "the send taps before the fader");
    assert_eq!(w.sends[0].level_db, db(-6.0));
    assert!(matches!(w.sends[0].plan, MixPlan::Direct));
    e.keep_bus(0, vec![vec![1, 2]]);

    let w = e.master_work(&m, 0).unwrap();
    assert_eq!(w.patch, vec![vec![&vec![1, 2]]]);
    e.keep_master(0, vec![vec![3, 4]]);

    assert_eq!(e.output_work(&m, "out"), Some(vec![vec![3, 4]]));
    e.end_period();
    assert!(e.output_work(&m, "none").is_none());
}

#[test]
fn what_is_not_read_is_silent() {
    let mut m = small_mixer();
    let mut e: Engine<i32> = Engine::new(&m, 0);
    e.begin_period(&mut m);
    assert_eq!(e.take_input("in", InputRead::Samples(vec![vec![7, 8]])), InputAction::Measure);
    e.end_period();
    e.begin_period(&mut m);
    assert_eq!(e.take_input("in", InputRead::NoReader), InputAction::ShowSilence);
    assert_eq!(e.take_input("in", InputRead::Failed), InputAction::ShowSilenceAndResync);
    assert_eq!(e.track_work(&m, 0).unwrap().input, vec![vec![0, 0]]);
}

#[test]
fn a_changed_topology_is_noticed_once() {
    let mut m = small_mixer();
    let mut e: Engine<i32> = Engine::new(&m, 0);
    assert!(!e.begin_period(&mut m));
    create_track(&mut m, &track_config(9, Some(4), ChannelTemplate::Simple)).unwrap();
    assert!(e.begin_period(&mut m));
    assert_eq!(e.max_channels, 4);
    assert!(e.track_work(&m, 9).is_some());
    assert!(!e.begin_period(&mut m));
    delete_track(&mut m, 9).unwrap();
    assert!(e.begin_period(&mut m));
    assert!(e.track_work(&m, 9).is_none());
}

#[test]
fn a_solo_silences_the_others() {
    let mut m = test_mixer(&[1, 1]);
    assert!(!any_solo(&m.tracks));
    change_track(&mut m, 1, |t| t.solo = true);
    assert!(any_solo(&m.tracks));
    assert!(!audible(m.tracks.get(&0).unwrap(), true));
    assert!(audible(m.tracks.get(&1).unwrap(), true));
    change_track(&mut m, 1, |t| t.mute = true);
    assert!(!audible(m.tracks.get(&1).unwrap(), true));
}

#[test]
fn periods_keep_to_their_schedule() {
    assert_eq!(pace(100, 90, 10), (Pace::Sleep(10), 110));
    assert_eq!(pace(100, 100, 10), (Pace::Behind(0), 110));
    assert_eq!(pace(100, 125, 10), (Pace::Behind(25), 135));
}

// -- Creating and deleting --------------------------------------------------------------------

#[test]
fn strips_come_and_go() {
    let mut m = small_mixer();
    let before = m.topology_generation;
    assert_eq!(
        create_track(&mut m, &track_config(0, None, ChannelTemplate::Simple)).unwrap_err(),
        "track 0 already exists"
    );
    assert_eq!(m.topology_generation, before);
    assert!(delete_bus(&mut m, 0).is_some());
    assert!(delete_bus(&mut m, 0).is_none());
    assert_eq!(m.topology_generation, before + 1);
    assert_eq!(m.patch.master_in_json(0, 1), Json::one(Json::none()), "nothing refers to the bus");
}

#[test]
fn deleting_undoes_creating() {
    let mut m = small_mixer();
    let before = capture(&m);
    create_track(&mut m, &track_config(7, Some(1), ChannelTemplate::Simple)).unwrap();
    create_bus(&mut m, &bus_config(7, Some(1))).unwrap();
    create_master(&mut m, &master_config(7, Some(1), ChannelTemplate::Simple)).unwrap();
    assert_ne!(capture(&m), before);
    delete_track(&mut m, 7).unwrap();
    delete_bus(&mut m, 7).unwrap();
    delete_master(&mut m, 7).unwrap();
    assert_eq!(capture(&m), before);
}

#[test]
fn sends_that_do_nothing_are_found() {
    let mut t = track_config(0, Some(3), ChannelTemplate::Simple);
    for bus_id in [0, 1, 2] {
        t.sends.push(SendConfig { bus_id, on: true, level_db: 0, pickoff: PickoffPointConfig::PostFader });
    }
    let track = Track::new(&t, 3);
    let found = warn_incompatible_sends(&track, &buses(&[(0, 3), (1, 2)]));
    assert_eq!(found.len(), 1);
    assert_eq!((found[0].bus_id, found[0].track_channels, found[0].bus_channels), (1, 3, 2));
}

// -- Clients ----------------------------------------------------------------------------------

#[test]
fn paths_are_read() {
    assert_eq!(parse_path("amixer/0/channel/3/gain", 0), Some(("channel", "3", "gain")));
    assert_eq!(parse_path("amixer/1/channel/3/gain", 0), None);
    assert_eq!(parse_path("amixer/0/channel/3", 0), None);
    assert_eq!(parse_create_path("amixer/0/sum", 0), Some("sum"));
    assert_eq!(parse_create_path("amixer/0/sum/1", 0), None);
    assert_eq!(parse_delete_path("amixer/0/sum/1", 0), Some(("sum", "1")));
}

#[test]
fn sends_read_back() {
    let track = small_mixer().tracks.remove(&0).unwrap();
    let written = sends_json(&track.sends);
    assert_eq!(parse_sends(&written).unwrap(), track.sends);
    assert_eq!(parse_sends(&Json::Null).unwrap_err(), "sends must be an array");
    assert_eq!(parse_sends(&Json::one(Json::new_object())).unwrap_err(), "send entry missing 'bus_id'");
    let bare = parse_sends(&Json::one(Json::new_object().with("bus_id", Json::whole(4)))).unwrap();
    assert_eq!((bare[0].bus_id, bare[0].on, bare[0].level_db), (4, true, db(0.0)));
}

fn request<'a>(cmd: &'a Json) -> Request<'a> {
    read_request(cmd, 0)
}

#[test]
fn requests_are_read() {
    let put = Json::new_object()
        .with("op", Json::text("PUT"))
        .with("path", Json::text("amixer/0/channel/0/mute"))
        .with("value", Json::Bool(true));
    assert!(matches!(request(&put), Request::Put { path: "amixer/0/channel/0/mute", value: Some(_) }));
    let create = Json::new_object()
        .with("op", Json::text("CREATE"))
        .with("path", Json::text("amixer/0/sum"))
        .with("value", Json::new_object());
    assert!(matches!(request(&create), Request::Create { kind: StripKind::Sum, .. }));
    let delete = Json::new_object()
        .with("op", Json::text("DELETE"))
        .with("path", Json::text("amixer/0/master/4"));
    assert!(matches!(request(&delete), Request::Delete { .. }));
    assert!(matches!(request(&Json::Null), Request::Nothing));
}

#[test]
fn values_are_set_and_told_back() {
    let mut m = small_mixer();
    let h = handle_put(&mut m, 0, "amixer/0/channel/0/mute", Some(&Json::Bool(true)));
    assert!(m.tracks.get(&0).unwrap().mute);
    assert_eq!((h.updates.len(), h.refused), (1, None));
    assert_eq!(h.updates[0].path, "amixer/0/channel/0/mute");
    assert_eq!(h.updates[0].value, Json::Bool(true));

    let h = handle_put(&mut m, 0, "amixer/0/channel/0/mute", Some(&Json::Null));
    assert!(m.tracks.get(&0).unwrap().mute, "a value of another type changes nothing");
    assert_eq!(h.updates[0].value, Json::Bool(true), "the value that holds is told");

    let before = sends_json(&m.tracks.get(&0).unwrap().sends);
    let h = handle_put(&mut m, 0, "amixer/0/channel/0/sends", Some(&Json::Null));
    assert!(h.refused.is_some());
    assert_eq!(h.updates[0].value, before);

    let h = handle_put(&mut m, 0, "amixer/0/channel/8/mute", Some(&Json::Bool(true)));
    assert!(h.updates.is_empty() && h.refused.is_none());
}

#[test]
fn a_refused_request_changes_nothing() {
    let mut m = small_mixer();
    let before = capture(&m);
    for (path, words) in [
        ("amixer/0/channel/0/filter", Some("stage not present for this resource's ChannelTemplate")),
        ("amixer/0/master/0/eq", Some("stage not present for this resource's ChannelTemplate")),
        ("amixer/0/channel/0/sends", Some("sends must be an array")),
        ("amixer/0/channel/0/input-patch", None),
        ("amixer/0/sum/0/input-patch", None),
        ("amixer/0/output/out/patch", None),
    ] {
        let h = handle_put(&mut m, 0, path, Some(&Json::Bool(true)));
        assert!(h.refused.is_some(), "{path}");
        if let Some(w) = words {
            assert_eq!(h.refused.as_deref(), Some(w));
        }
        assert_eq!(capture(&m), before);
    }
}

#[test]
fn clients_create_and_delete_strips() {
    let mut m = small_mixer();
    let h = handle_create(&mut m, 0, &NewStrip::Sum(bus_config(5, Some(2))));
    assert!(h.refused.is_none() && !h.updates.is_empty());
    assert!(m.buses.get(&5).unwrap().dynamically_created);
    let h = handle_create(&mut m, 0, &NewStrip::Sum(bus_config(5, Some(2))));
    assert_eq!(h.refused.unwrap(), "bus 5 already exists");
    assert!(h.updates.is_empty());
    assert!(!handle_delete(&mut m, 0, "amixer/0/sum/5").updates.is_empty());
    assert!(!m.buses.contains_key(&5));
    assert!(handle_delete(&mut m, 0, "amixer/0/sum/5").updates.is_empty());
}

#[test]
fn everything_is_broadcast() {
    let m = small_mixer();
    let mut meters = Meters::new();
    meters.track_out.insert(0, Json::text("loud"));
    let told = broadcast(&m, 0, &meters);
    assert!(told.iter().any(|u| u.path == "amixer/0/channel/0/peakmeter" && u.value == Json::text("loud")));
    assert!(told.iter().any(|u| u.path == "amixer/0/channel/0/filter" && u.value.is_null()));
    assert!(told.iter().any(|u| u.path == "amixer/0/input-grid" && u.value == m.input_grid.list_json()));
}

// -- The state file ---------------------------------------------------------------------------

#[test]
fn capture_apply_round_trips_scalar_fields() {
    let mut mixer = test_mixer(&[2]);
    change_track(&mut mixer, 0, |t| {
        t.gain_db = db(-3.5);
        t.fader_db = db(-12.0);
        t.mute = true;
        t.solo = true;
    });

    let snapshot = capture(&mixer);

    let mut fresh = test_mixer(&[2]);
    apply_snapshot(&mut fresh, &snapshot);
    let fresh_track0 = fresh.tracks.get(&0).unwrap();

    assert_eq!(f32::from_bits(fresh_track0.gain_db), -3.5);
    assert_eq!(f32::from_bits(fresh_track0.fader_db), -12.0);
    assert!(fresh_track0.mute);
    assert!(fresh_track0.solo);
}

fn expect_filter(chain: &mut [ProcessingStage], index: usize) -> &mut FilterStage {
    match &mut chain[index] {
        ProcessingStage::Filter(s) => s,
        _ => panic!("expected a Filter stage at chain index {index}"),
    }
}

fn expect_dynamics(chain: &mut [ProcessingStage], index: usize) -> &mut DynamicsStage {
    match &mut chain[index] {
        ProcessingStage::Dynamics(s) => s,
        _ => panic!("expected a Dynamics stage at chain index {index}"),
    }
}

fn expect_phase(chain: &mut [ProcessingStage], index: usize) -> &mut PhaseStage {
    match &mut chain[index] {
        ProcessingStage::Phase(s) => s,
        _ => panic!("expected a Phase stage at chain index {index}"),
    }
}

#[test]
fn capture_apply_round_trips_dsp_stage_params() {
    let mut mixer = test_mixer(&[2]);
    change_track(&mut mixer, 0, |t| {
        expect_filter(&mut t.chain, 0).hp_hz = db(120.0);
        expect_dynamics(&mut t.chain, 2).threshold_db = db(-18.0);
        expect_phase(&mut t.chain, 4).invert = true;
    });

    let snapshot = capture(&mixer);

    let mut fresh = test_mixer(&[2]);
    apply_snapshot(&mut fresh, &snapshot);
    let mut fresh_track0 = fresh.tracks.remove(&0).unwrap();

    assert_eq!(f32::from_bits(expect_filter(&mut fresh_track0.chain, 0).hp_hz), 120.0);
    assert_eq!(f32::from_bits(expect_dynamics(&mut fresh_track0.chain, 2).threshold_db), -18.0);
    assert!(expect_phase(&mut fresh_track0.chain, 4).invert);
}

#[test]
fn capture_apply_round_trips_master_fields() {
    let mut mixer = test_mixer(&[2]);
    change_master(&mut mixer, 0, |m| {
        m.fader_db = db(-6.0);
        m.mute = true;
        expect_filter(&mut m.chain, 0).hp_hz = db(80.0);
    });

    let snapshot = capture(&mixer);

    let mut fresh = test_mixer(&[2]);
    apply_snapshot(&mut fresh, &snapshot);
    let mut fresh_master0 = fresh.masters.remove(&0).unwrap();

    assert_eq!(f32::from_bits(fresh_master0.fader_db), -6.0);
    assert!(fresh_master0.mute);
    assert_eq!(f32::from_bits(expect_filter(&mut fresh_master0.chain, 0).hp_hz), 80.0);
}

#[test]
fn levels_that_are_not_finite_are_not_resumed() {
    let mut mixer = test_mixer(&[2]);
    change_track(&mut mixer, 0, |t| {
        t.gain_db = db(f32::INFINITY);
        t.fader_db = db(-12.0);
    });
    let mut fresh = test_mixer(&[2]);
    apply_snapshot(&mut fresh, &capture(&mixer));
    let t = fresh.tracks.get(&0).unwrap();
    assert_eq!((f32::from_bits(t.gain_db), f32::from_bits(t.fader_db)), (0.0, -12.0));
    let mut m = small_mixer();
    handle_put(&mut m, 0, "amixer/0/channel/0/gain", Some(&Json::whole(3)));
    assert_eq!(f32::from_bits(m.tracks.get(&0).unwrap().gain_db), 3.0);
}

#[test]
fn a_resumed_mixer_captures_the_same_sections() {
    let mut mixer = small_mixer();
    change_track(&mut mixer, 0, |t| {
        t.gain_db = db(2.5);
        t.solo = true;
    });
    change_master(&mut mixer, 0, |m| m.mute = true);
    let snapshot = capture(&mixer);
    let mut fresh = small_mixer();
    fresh.patch.remove_track_in(0);
    fresh.patch.remove_master_in(0);
    assert_ne!(capture(&fresh), snapshot);
    apply_snapshot(&mut fresh, &snapshot);
    let again = capture(&fresh);
    for section in ["tracks", "buses", "masters"] {
        assert!(again.get(section).is_some());
        assert_eq!(again.get(section), snapshot.get(section), "{section}");
    }
}

#[test]
fn no_document_adds_or_removes_strips_or_stages() {
    let stage = Json::new_object().with("index", Json::whole(99)).with("params", Json::new_object());
    let track = Json::new_object().with("chain", Json::Array(vec![stage]));
    for snapshot in [
        Json::Null,
        Json::new_object().with("tracks", Json::Null),
        Json::new_object().with("tracks", Json::new_object().with("0", track).with("7", Json::Null)),
        Json::new_object().with("masters", Json::new_object().with("7", Json::new_object())),
    ] {
        let mut m = small_mixer();
        let was = capture(&m);
        apply_snapshot(&mut m, &snapshot);
        assert_eq!(capture(&m), was);
    }
}

#[test]
fn capture_writes_topology_only_for_dynamically_created_resources() {
    let mut mixer = test_mixer(&[2]);
    let snapshot = capture(&mixer);
    assert_eq!(at(&snapshot, &["topology", "tracks"]).as_object().unwrap().len(), 0);
    assert_eq!(at(&snapshot, &["topology", "masters"]).as_object().unwrap().len(), 0);

    let mut cfg = track_config(99, Some(2), ChannelTemplate::Simple);
    cfg.label = "Dyn".into();
    cfg.gain_db = db(1.0);
    create_track(&mut mixer, &cfg).unwrap();
    assert!(mixer.tracks.get(&99).unwrap().dynamically_created);

    let snapshot = capture(&mixer);
    let topo_track = at(&snapshot, &["topology", "tracks", "99"]);
    assert_eq!(topo_track.text_field("label"), Some("Dyn"));
    assert_eq!(topo_track.unsigned_field("channels"), Some(2));
    assert_eq!(topo_track.single_field("gain_db").map(f32::from_bits), Some(1.0));
}

#[test]
fn apply_snapshot_does_not_resume_values_for_an_id_missing_from_the_live_collection() {
    let mut mixer = test_mixer(&[2]);
    let snapshot = Json::new_object()
        .with("tracks", Json::new_object().with("42", Json::new_object().with("gain_db", Json::single(db(7.0)))))
        .with("buses", Json::new_object())
        .with("masters", Json::new_object());
    apply_snapshot(&mut mixer, &snapshot);
    assert!(mixer.tracks.get(&42).is_none());
}

#[test]
fn patches_are_resumed() {
    let snapshot = capture(&small_mixer());
    let mut m = small_mixer();
    m.patch.remove_track_in(0);
    m.patch.remove_master_in(0);
    apply_snapshot(&mut m, &snapshot);
    assert_eq!(m.patch.track_in_json(0, 1), small_mixer().patch.track_in_json(0, 1));
    assert_eq!(m.patch.master_in_json(0, 1), small_mixer().patch.master_in_json(0, 1));
}

// -- Starting ---------------------------------------------------------------------------------

fn config() -> Config {
    Config {
        mxl_domain: "/tmp/d".into(),
        sample_rate: 48000,
        period_frames: 480,
        channels: 2,
        ws_port: 9090,
        mixer_id: 0,
        instance_name: "pod".into(),
        state_path: None,
        nmos_label: "test app".into(),
        nmos_registry_address: Some("reg".into()),
        nmos_registry_port: 80,
        interface_name: "eth0".into(),
        ip_addr: "127.0.0.1".into(),
        input_grid: vec![InputGridEntryConfig {
            id: "in".into(),
            label: "In".into(),
            source: Some(TrackSource::SinkDaemonId(1)),
            channels: None,
        }],
        output_grid: vec![OutputGridEntryConfig {
            id: "out".into(),
            label: "Out".into(),
            target: None,
            channels: Some(1),
        }],
        tracks: vec![track_config(0, None, ChannelTemplate::Simple)],
        buses: vec![BusConfig {
            id: 3,
            label: "Bus".into(),
            channels: Some(1),
            auto_master: Some(AutoMasterConfig {
                label: None,
                fader_db: db(-1.0),
                template: ChannelTemplate::Simple,
                chain: vec![],
            }),
        }],
        masters: vec![master_config(7, None, ChannelTemplate::Simple)],
    }
}

fn nothing_resumed() -> Resumed {
    Resumed { tracks: vec![], buses: vec![], masters: vec![] }
}

#[test]
fn a_mixer_starts_as_it_is_configured() {
    let cfg = config();
    let ms = pair_masters(&cfg).unwrap();
    assert_eq!(ms.iter().map(|m| m.id).collect::<Vec<u32>>(), [7, 3]);
    let m = start(&cfg, &ms, &nothing_resumed());
    assert_eq!(m.tracks.get(&0).unwrap().channels, 2);
    assert_eq!(m.masters.get(&3).unwrap().channels, 1);
    assert_eq!(
        at(&m.patch.master_in_json(3, 1), &["0", "0"]).text_field("source"),
        at(&small_mixer().patch.master_in_json(0, 1), &["0", "0"]).text_field("source").map(|_| "bus-out:3"),
        "the paired master hears its bus"
    );
}

#[test]
fn a_paired_master_needs_an_id_of_its_own() {
    let mut cfg = config();
    cfg.masters[0].id = 3;
    assert_eq!(
        pair_masters(&cfg).unwrap_err(),
        "bus 3 has auto_master set, but an explicit master with the same id already exists in config.masters"
    );
}

#[test]
fn what_an_earlier_run_created_is_built_again() {
    let cfg = config();
    let ms = pair_masters(&cfg).unwrap();
    let resumed = Resumed {
        tracks: vec![track_config(0, Some(9), ChannelTemplate::Simple), track_config(50, Some(1), ChannelTemplate::Simple)],
        buses: vec![],
        masters: vec![],
    };
    let m = start(&cfg, &ms, &resumed);
    assert_eq!(m.tracks.get(&0).unwrap().channels, 2, "the configuration wins");
    assert!(m.tracks.get(&50).unwrap().dynamically_created);
}

#[test]
fn grid_entries_are_as_configured() {
    let cfg = config();
    let e = input_entry(&cfg.input_grid[0], cfg.channels, "pod", Some("flow".into()));
    assert!(e.connected);
    assert_eq!((e.channels, e.flow_id), (2, Some("flow".into())));
    let e = output_entry(&cfg.output_grid[0], cfg.channels, "pod");
    assert_eq!(e.channels, 1);
}

// -- The node ---------------------------------------------------------------------------------

fn node() -> (NmosState, MixerState) {
    let cfg = config();
    let ms = pair_masters(&cfg).unwrap();
    let mut m = start(&cfg, &ms, &nothing_resumed());
    m.input_grid.insert(input_entry(&cfg.input_grid[0], 2, "pod", None));
    m.output_grid.insert(output_entry(&cfg.output_grid[0], 2, "pod"));
    let n = NmosState::new(cfg, (1, 2), &m.output_grid);
    (n, m)
}

#[test]
fn the_node_shows_its_grids() {
    let (n, m) = node();
    assert_eq!(n.version(), "1:2");
    assert_eq!(node_self(&n, "h").body.text_field("hostname"), Some("h"));
    assert_eq!(shown_hostname(None), "mxl-test-app");
    assert_eq!(shown_hostname(Some(" h1\n".into())), "h1");
    let senders = senders_list(&n, &m.output_grid).body;
    let tx = &senders.as_array().unwrap()[0];
    assert_eq!(tx.text_field("transport"), Some("urn:x-nmos:transport:mxl"));
    let sender = tx.text_field("id").unwrap();
    assert_eq!(sender_get(&n, &m.output_grid, sender).body, *tx);
    assert_eq!(flow_get(&n, &m.output_grid, tx.text_field("flow_id").unwrap()).status, 200);
    assert_eq!(source_get(&n, &m.output_grid, "x").status, 404);
    let receivers = receivers_list(&n, &m.input_grid).body;
    let receiver = at(&receivers, &["0", "id"]).as_str().unwrap();
    assert_eq!(receiver_get(&n, &m.input_grid, receiver).status, 200);
    assert_eq!(device_get(&n, &m.input_grid, &n.device_id.to_string()).status, 200);
    assert_eq!(sender_ids(&n).body, Json::one(Json::Text(format!("{sender}/"))));
    assert_eq!(receiver_ids(&m.input_grid).body, Json::one(Json::Text(format!("{receiver}/"))));
    assert_eq!(transporttype().body, Json::text("urn:x-nmos:transport:mxl"));
    assert_eq!(constraints().status, 200);
    let kinds: Vec<&str> = register_all(&n, &m, "h").iter().map(|r| r.kind).collect();
    assert_eq!(kinds, ["node", "device", "source", "flow", "sender", "receiver"]);
}

#[test]
fn receivers_are_connected_and_disconnected() {
    let (n, mut m) = node();
    let receiver = m.input_grid.get("in").unwrap().receiver_id.to_string();
    let body = Json::new_object().with("master_enable", Json::Bool(true)).with("sender_id", Json::text("s1"));
    match plan_receiver_patch(&n, &m, &receiver, &body) {
        ReceiverPlan::Resolve { sender_id } => assert_eq!(sender_id, "s1"),
        other => panic!("{other:?}"),
    }
    assert_ne!(unresolved("no").status, 200);
    assert!(matches!(opened(2, 2), Opened::Ready));
    assert!(matches!(opened(1, 2), Opened::Ready));
    let wide = opened(3, 2);
    assert!(matches!(&wide, Opened::TooWide(w) if w == "the flow has 3 channels, more than the 2 of this receiver"));
    assert_eq!(connect_receiver(&mut m, &receiver, "s1", "f1", &wide).status, 400);
    assert_eq!(connect_receiver(&mut m, &receiver, "s1", "f1", &Opened::Failed("gone".into())).status, 500);
    assert!(!m.input_grid.get("in").unwrap().connected);
    assert_eq!(connect_receiver(&mut m, &receiver, "s1", "f1", &Opened::Ready).status, 200);
    let e = m.input_grid.get("in").unwrap();
    assert!(e.connected);
    assert_eq!((e.flow_id.clone(), e.subscribed_sender_id.clone()), (Some("f1".into()), Some("s1".into())));
    assert_eq!(receiver_staged(&m.input_grid, &receiver).body.text_field("sender_id"), Some("s1"));

    let off = Json::new_object().with("master_enable", Json::Bool(false)).with("sender_id", Json::Null);
    assert!(matches!(plan_receiver_patch(&n, &m, &receiver, &off), ReceiverPlan::Disconnect));
    assert_eq!(disconnect_receiver(&mut m, &receiver).status, 200);
    assert!(!m.input_grid.get("in").unwrap().connected);
    assert!(matches!(plan_receiver_patch(&n, &m, "x", &off), ReceiverPlan::Answer(r) if r.status == 404));
}

#[test]
fn senders_note_their_receiver() {
    let (n, mut m) = node();
    let sender = n.output_ids.get(&"out".to_string()).unwrap().sender_id.to_string();
    let body = Json::new_object().with("receiver_id", Json::text("r1"));
    assert_eq!(sender_patch(&n, &mut m, &sender, &body).status, 200);
    assert_eq!(m.output_grid.get("out").unwrap().receiver_id, Some("r1".into()));
    assert_eq!(sender_staged(&n, &m.output_grid, &sender).body.text_field("receiver_id"), Some("r1"));
    assert_eq!(sender_patch(&n, &mut m, "x", &body).status, 404);
}

fn registry_sender(id: &str, flow: &str, device: &str) -> Json {
    Json::new_object()
        .with("id", Json::text(id))
        .with("label", Json::text("L"))
        .with("flow_id", Json::text(flow))
        .with("device_id", Json::text(device))
        .with("transport", Json::text("urn:x-nmos:transport:mxl"))
}

fn registry_flow(id: &str, channels: u64) -> Json {
    Json::new_object()
        .with("id", Json::text(id))
        .with("format", Json::text("urn:x-nmos:format:audio"))
        .with("channels", Json::Array((0..channels).map(|_| Json::Null).collect()))
}

#[test]
fn senders_of_others_become_inputs() {
    let senders = vec![
        registry_sender("a", "fa", "theirs"),
        registry_sender("b", "fb", "own"),
        registry_sender("c", "none", "theirs"),
    ];
    let flows = vec![registry_flow("fa", 2), registry_flow("fb", 2)];
    let now = read_candidates(&senders, &flows, "own");
    assert_eq!(now.len(), 1);
    let a = "a".to_string();
    assert_eq!(now.get(&a), Some(&Candidate { label: "L".into(), flow_id: "fa".into(), channels: 2 }));

    let known: Table<String, Candidate> = Table::new();
    assert_eq!(fresh(&known, &now), ["a"]);
    assert!(gone(&known, &now).is_empty());
    assert!(fresh(&now, &now).is_empty());

    let mut m = small_mixer();
    let e = entry_for("a", now.get(&a).unwrap(), "pod");
    assert_eq!(e.id, entry_id("a"));
    assert_eq!(e.id, "registry:a");
    m.input_grid.insert(e);
    let left = gone(&now, &known);
    assert_eq!(left, ["a"]);
    remove_gone(&mut m.input_grid, &left);
    assert!(m.input_grid.get("registry:a").is_none());
    assert!(m.input_grid.get("in").is_some());
}

#[test]
fn steps_name_what_they_are_of() {
    let m = small_mixer();
    assert!(matches!(schedule(&m)[0], Step::Track(0)));
    assert!(matches!(&schedule(&m)[3], Step::Output(id) if id == "out"));
}
