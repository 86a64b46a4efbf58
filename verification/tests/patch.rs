//! The patch bay.

use mxl_bridge::console::patch::{
    Gone, InputGrid, InputGridEntry, OutputGrid, OutputGridEntry, PatchState, Signals, SourceRef,
};
use mxl_bridge::json::Json;
use mxl_bridge::table::Table;
use mxl_bridge::uuid::Uuid;

fn test_tracks(channels: &[usize]) -> Vec<(u32, usize)> {
    channels.iter().enumerate().map(|(i, &ch)| (i as u32, ch)).collect()
}

fn test_input_grid(entries: &[(&str, usize)]) -> InputGrid {
    let mut grid = InputGrid::new();
    for &(id, channels) in entries {
        grid.insert(InputGridEntry {
            id: id.to_string(),
            label: id.to_string(),
            channels,
            connected: false,
            flow_id: None,
            receiver_id: Uuid { bits: uuid::Uuid::new_v4().as_u128() },
            subscribed_sender_id: None,
        });
    }
    grid
}

fn items(j: &Json) -> &Vec<Json> {
    j.as_array().unwrap()
}

/// Adds what contributes to each channel.
fn mix(parts: Vec<Vec<&Vec<f32>>>, dst: &mut [Vec<f32>]) {
    for (ch, sources) in parts.iter().enumerate() {
        for src in sources {
            for (d, s) in dst[ch].iter_mut().zip(src.iter()) {
                *d += *s;
            }
        }
    }
}

#[test]
fn rejects_out_of_range_input_channel() {
    let tracks = test_tracks(&[2]);
    let grid = test_input_grid(&[("a", 2)]);
    let mut patch_state = PatchState::new();
    let patch = vec![Some(SourceRef::Input { entry_id: "a".into(), channel: 5 }), None];
    assert!(patch_state.set_track_in(&tracks, &[], &[], &grid, 0, patch).is_err());
}

#[test]
fn rejects_self_loop() {
    let tracks = test_tracks(&[2]);
    let grid = test_input_grid(&[]);
    let mut patch_state = PatchState::new();
    let patch = vec![Some(SourceRef::TrackOut { track_id: 0, channel: 0 }), None];
    assert!(patch_state.set_track_in(&tracks, &[], &[], &grid, 0, patch).is_err());
}

#[test]
fn accepts_valid_track_in_and_reports_it_back() {
    let tracks = test_tracks(&[2]);
    let grid = test_input_grid(&[("a", 2)]);
    let mut patch_state = PatchState::new();
    let patch = vec![Some(SourceRef::Input { entry_id: "a".into(), channel: 0 }), None];
    patch_state.set_track_in(&tracks, &[], &[], &grid, 0, patch).unwrap();
    let json = patch_state.track_in_json(0, 2);
    assert_eq!(items(&json)[0].text_field("source"), Some("input:a"));
    assert!(items(&json)[1].is_null());
}

#[test]
fn bus_in_allows_multiple_sources_on_one_channel() {
    let tracks = test_tracks(&[]);
    let grid = test_input_grid(&[("a", 2), ("b", 1)]);
    let mut patch_state = PatchState::new();
    let patch = vec![vec![
        SourceRef::Input { entry_id: "a".into(), channel: 0 },
        SourceRef::Input { entry_id: "b".into(), channel: 0 },
    ]];
    assert!(patch_state.set_bus_in(&tracks, &[], &[], &grid, 0, 1, patch).is_ok());
}

#[test]
fn track_in_rejects_wrong_length() {
    let tracks = test_tracks(&[2]);
    let grid = test_input_grid(&[("a", 2)]);
    let mut patch_state = PatchState::new();
    let patch = vec![Some(SourceRef::Input { entry_id: "a".into(), channel: 0 })];
    assert!(patch_state.set_track_in(&tracks, &[], &[], &grid, 0, patch).is_err());
}

#[test]
fn rejects_unknown_bus_out() {
    let tracks = test_tracks(&[2]);
    let grid = test_input_grid(&[]);
    let mut patch_state = PatchState::new();
    let patch = vec![Some(SourceRef::BusOut { bus_id: 9, channel: 0 }), None];
    assert!(patch_state.set_track_in(&tracks, &[], &[], &grid, 0, patch).is_err());
}

#[test]
fn output_grid_accepts_track_out_and_bus_out() {
    let tracks = test_tracks(&[2]);
    let grid = test_input_grid(&[]);
    let mut patch_state = PatchState::new();
    let patch = vec![
        Some(SourceRef::TrackOut { track_id: 0, channel: 0 }),
        Some(SourceRef::BusOut { bus_id: 0, channel: 1 }),
    ];
    assert!(patch_state.set_output(&tracks, &[(0, 2)], &[], &grid, "tx1", 2, patch).is_ok());
}

#[test]
fn output_grid_rejects_out_of_range_bus_channel() {
    let tracks = test_tracks(&[]);
    let grid = test_input_grid(&[]);
    let mut patch_state = PatchState::new();
    let patch = vec![Some(SourceRef::BusOut { bus_id: 0, channel: 5 })];
    assert!(patch_state.set_output(&tracks, &[(0, 2)], &[], &grid, "tx1", 1, patch).is_err());
}

#[test]
fn resolve_output_copies_from_this_period_bus_out() {
    let mut patch_state = PatchState::new();
    let tracks = test_tracks(&[]);
    let grid = test_input_grid(&[]);
    let patch = vec![Some(SourceRef::BusOut { bus_id: 0, channel: 0 })];
    patch_state.set_output(&tracks, &[(0, 1)], &[], &grid, "tx1", 1, patch).unwrap();

    let input_bufs: Table<String, Vec<Vec<f32>>> = Table::new();
    let track_out: Table<u32, Vec<Vec<f32>>> = Table::new();
    let mut bus_out: Table<u32, Vec<Vec<f32>>> = Table::new();
    bus_out.insert(0u32, vec![vec![0.5f32, 0.25]]);
    let master_out: Table<u32, Vec<Vec<f32>>> = Table::new();

    let mut dst = vec![vec![0.0f32; 2]];
    let signals = Signals {
        inputs: &input_bufs,
        tracks: &track_out,
        buses: &bus_out,
        masters: &master_out,
    };
    patch_state.resolve_output("tx1", &signals, &mut dst);
    assert_eq!(dst[0], vec![0.5, 0.25]);
}

#[test]
fn rejects_unknown_master_out() {
    let tracks = test_tracks(&[2]);
    let grid = test_input_grid(&[]);
    let mut patch_state = PatchState::new();
    let patch = vec![Some(SourceRef::MasterOut { master_id: 9, channel: 0 }), None];
    assert!(patch_state.set_track_in(&tracks, &[], &[], &grid, 0, patch).is_err());
}

#[test]
fn master_out_accepted_as_source_for_track_in_bus_in_and_output() {
    let tracks = test_tracks(&[2]);
    let grid = test_input_grid(&[]);
    let masters = [(0u32, 2usize)];
    let mut patch_state = PatchState::new();

    let track_patch = vec![Some(SourceRef::MasterOut { master_id: 0, channel: 0 }), None];
    assert!(patch_state.set_track_in(&tracks, &[], &masters, &grid, 0, track_patch).is_ok());

    let bus_patch = vec![vec![SourceRef::MasterOut { master_id: 0, channel: 0 }]];
    assert!(patch_state.set_bus_in(&tracks, &[], &masters, &grid, 0, 1, bus_patch).is_ok());

    let output_patch = vec![Some(SourceRef::MasterOut { master_id: 0, channel: 1 })];
    assert!(patch_state.set_output(&tracks, &[], &masters, &grid, "tx1", 1, output_patch).is_ok());
}

#[test]
fn master_in_allows_multiple_sources_on_one_channel() {
    let tracks = test_tracks(&[]);
    let grid = test_input_grid(&[("a", 2), ("b", 1)]);
    let mut patch_state = PatchState::new();
    let patch = vec![vec![
        SourceRef::Input { entry_id: "a".into(), channel: 0 },
        SourceRef::Input { entry_id: "b".into(), channel: 0 },
    ]];
    assert!(patch_state.set_master_in(&tracks, &[], &[], &grid, 0, 1, patch).is_ok());
}

#[test]
fn master_in_allows_self_loop_from_own_master_out() {
    let tracks = test_tracks(&[]);
    let grid = test_input_grid(&[]);
    let masters = [(0u32, 1usize)];
    let mut patch_state = PatchState::new();
    let patch = vec![vec![SourceRef::MasterOut { master_id: 0, channel: 0 }]];
    assert!(patch_state.set_master_in(&tracks, &[], &masters, &grid, 0, 1, patch).is_ok());
}

#[test]
fn resolve_master_in_reads_this_period_bus_out_and_previous_period_master_out() {
    let tracks = test_tracks(&[]);
    let grid = test_input_grid(&[]);
    let masters = [(1u32, 1usize)];
    let mut patch_state = PatchState::new();
    let patch = vec![vec![
        SourceRef::BusOut { bus_id: 0, channel: 0 },
        SourceRef::MasterOut { master_id: 1, channel: 0 },
    ]];
    patch_state.set_master_in(&tracks, &[(0, 1)], &masters, &grid, 0, 1, patch).unwrap();

    let input_bufs: Table<String, Vec<Vec<f32>>> = Table::new();
    let track_out: Table<u32, Vec<Vec<f32>>> = Table::new();
    let mut bus_out_this_period: Table<u32, Vec<Vec<f32>>> = Table::new();
    bus_out_this_period.insert(0u32, vec![vec![0.5f32]]);
    let mut master_out_prev: Table<u32, Vec<Vec<f32>>> = Table::new();
    master_out_prev.insert(1u32, vec![vec![0.25f32]]);

    let mut dst = vec![vec![0.0f32]];
    let signals = Signals {
        inputs: &input_bufs,
        tracks: &track_out,
        buses: &bus_out_this_period,
        masters: &master_out_prev,
    };
    mix(patch_state.resolve_master_in(0, &signals, 1), &mut dst);
    assert_eq!(dst[0], vec![0.75]);
}

#[test]
fn resolve_against_a_since_vanished_id_contributes_silence_not_a_panic() {
    let tracks = test_tracks(&[]);
    let grid = test_input_grid(&[]);
    let masters = [(0u32, 1usize)];
    let mut patch_state = PatchState::new();
    let patch = vec![vec![
        SourceRef::BusOut { bus_id: 9, channel: 0 },
        SourceRef::MasterOut { master_id: 0, channel: 0 },
    ]];
    patch_state.set_master_in(&tracks, &[(9, 1)], &masters, &grid, 0, 1, patch).unwrap();

    let mut dst = vec![vec![0.0f32]];
    let inputs: Table<String, Vec<Vec<f32>>> = Table::new();
    let none: Table<u32, Vec<Vec<f32>>> = Table::new();
    let signals = Signals { inputs: &inputs, tracks: &none, buses: &none, masters: &none };
    mix(patch_state.resolve_master_in(0, &signals, 1), &mut dst);
    assert_eq!(dst[0], vec![0.0]);
}

#[test]
fn scrub_track_out_references_removes_dangling_refs_from_every_destination_kind() {
    let tracks = test_tracks(&[2]);
    let grid = test_input_grid(&[]);
    let masters = [(0u32, 1usize)];
    let mut patch_state = PatchState::new();

    patch_state.set_track_in(&tracks, &[], &[], &grid, 0, vec![None, None]).unwrap();
    let tracks2 = test_tracks(&[2, 2]);
    patch_state
        .set_track_in(
            &tracks2,
            &[],
            &[],
            &grid,
            1,
            vec![Some(SourceRef::TrackOut { track_id: 0, channel: 0 }), None],
        )
        .unwrap();
    patch_state
        .set_bus_in(
            &tracks2,
            &[],
            &[],
            &grid,
            0,
            1,
            vec![vec![SourceRef::TrackOut { track_id: 0, channel: 1 }]],
        )
        .unwrap();
    patch_state
        .set_master_in(
            &tracks2,
            &[],
            &masters,
            &grid,
            0,
            1,
            vec![vec![SourceRef::TrackOut { track_id: 0, channel: 0 }]],
        )
        .unwrap();
    patch_state
        .set_output(
            &tracks2,
            &[],
            &[],
            &grid,
            "tx1",
            1,
            vec![Some(SourceRef::TrackOut { track_id: 0, channel: 0 })],
        )
        .unwrap();

    patch_state.scrub_track_out_references(0);

    assert!(items(&patch_state.track_in_json(1, 2))[0].is_null());
    assert_eq!(items(&items(&patch_state.bus_in_json(0, 1))[0]).len(), 0);
    assert_eq!(items(&items(&patch_state.master_in_json(0, 1))[0]).len(), 0);
    assert!(items(&patch_state.output_json("tx1", 1))[0].is_null());
}

#[test]
fn remove_master_in_drops_the_stored_entry() {
    let tracks = test_tracks(&[]);
    let grid = test_input_grid(&[("a", 1)]);
    let masters = [(0u32, 1usize)];
    let mut patch_state = PatchState::new();
    patch_state
        .set_master_in(
            &tracks,
            &[],
            &masters,
            &grid,
            0,
            1,
            vec![vec![SourceRef::Input { entry_id: "a".into(), channel: 0 }]],
        )
        .unwrap();
    assert_eq!(items(&items(&patch_state.master_in_json(0, 1))[0]).len(), 1);

    patch_state.remove_master_in(0);
    assert_eq!(items(&items(&patch_state.master_in_json(0, 1))[0]).len(), 0);
}

#[test]
fn a_patch_that_was_written_reads_back() {
    let tracks = test_tracks(&[3, 2]);
    let grid = test_input_grid(&[("mic", 1)]);
    let buses = [(7u32, 2usize)];
    let masters = [(4u32, 2usize)];
    let mut patch_state = PatchState::new();
    let patch = vec![
        Some(SourceRef::Input { entry_id: "mic".into(), channel: 0 }),
        Some(SourceRef::BusOut { bus_id: 7, channel: 1 }),
        Some(SourceRef::MasterOut { master_id: 4, channel: 0 }),
    ];
    patch_state.set_track_in(&tracks, &buses, &masters, &grid, 0, patch.clone()).unwrap();
    let read = PatchState::parse_track_in(&patch_state.track_in_json(0, 3)).unwrap();
    assert_eq!(read, patch);

    let sums = vec![
        vec![SourceRef::TrackOut { track_id: 1, channel: 1 }, SourceRef::TrackOut { track_id: 0, channel: 2 }],
        vec![],
    ];
    patch_state.set_bus_in(&tracks, &buses, &masters, &grid, 7, 2, sums.clone()).unwrap();
    let read = PatchState::parse_bus_in(&patch_state.bus_in_json(7, 2)).unwrap();
    assert_eq!(read, sums);
}

#[test]
fn refusals_say_what_is_wrong() {
    let tracks = test_tracks(&[2]);
    let grid = test_input_grid(&[("a", 2)]);
    let mut p = PatchState::new();
    let one = |s: SourceRef| vec![Some(s), None];
    let text = |r: Result<(), String>| r.unwrap_err();
    assert_eq!(
        text(p.set_track_in(&tracks, &[], &[], &grid, 0, one(SourceRef::Input { entry_id: "x".into(), channel: 0 }))),
        "unknown input grid entry 'x'"
    );
    assert_eq!(
        text(p.set_track_in(&tracks, &[], &[], &grid, 0, one(SourceRef::TrackOut { track_id: 0, channel: 0 }))),
        "track 0 cannot patch its own direct-out into its own input"
    );
    assert_eq!(
        text(p.set_track_in(&tracks, &[], &[], &grid, 0, one(SourceRef::TrackOut { track_id: 5, channel: 0 }))),
        "unknown track 5"
    );
    assert_eq!(
        text(p.set_track_in(&tracks, &[], &[], &grid, 0, one(SourceRef::BusOut { bus_id: 5, channel: 0 }))),
        "unknown bus 5"
    );
    assert_eq!(
        text(p.set_track_in(&tracks, &[], &[], &grid, 0, one(SourceRef::MasterOut { master_id: 5, channel: 0 }))),
        "unknown master 5"
    );
    assert_eq!(
        text(p.set_track_in(&tracks, &[], &[], &grid, 0, vec![None])),
        "input-patch length 1 does not match track's 2 channels"
    );
}

#[test]
fn malformed_patches_are_named() {
    let bad = Json::Array(vec![Json::new_object().with("source", Json::text("moon:1")).with("channel", Json::whole(0))]);
    assert_eq!(PatchState::parse_track_in(&bad).unwrap_err(), "unknown source point 'moon:1'");
    let bad = Json::Array(vec![Json::new_object().with("channel", Json::whole(0))]);
    assert_eq!(PatchState::parse_track_in(&bad).unwrap_err(), "patch entry missing 'source'");
    let bad = Json::Array(vec![Json::new_object().with("source", Json::text("bus-out:1"))]);
    assert_eq!(PatchState::parse_track_in(&bad).unwrap_err(), "patch entry missing 'channel'");
    let bad = Json::Array(vec![Json::new_object().with("source", Json::text("bus-out:x")).with("channel", Json::whole(0))]);
    assert_eq!(PatchState::parse_track_in(&bad).unwrap_err(), "invalid bus id in source 'bus-out:x'");
    assert!(PatchState::parse_track_in(&Json::Null).is_err());
    assert!(PatchState::parse_bus_in(&Json::Array(vec![Json::Null])).is_err());
}

#[test]
fn scrubbing_one_strip_leaves_the_others() {
    let tracks = test_tracks(&[1, 1]);
    let buses = [(0u32, 1usize), (1u32, 1usize)];
    let grid = test_input_grid(&[]);
    let mut p = PatchState::new();
    p.set_bus_in(
        &tracks,
        &buses,
        &[],
        &grid,
        0,
        1,
        vec![vec![SourceRef::BusOut { bus_id: 1, channel: 0 }, SourceRef::TrackOut { track_id: 1, channel: 0 }]],
    )
    .unwrap();
    p.scrub_references(Gone::Bus(1));
    let left = PatchState::parse_bus_in(&p.bus_in_json(0, 1)).unwrap();
    assert_eq!(left, vec![vec![SourceRef::TrackOut { track_id: 1, channel: 0 }]]);
}

#[test]
fn grids_are_listed_in_the_order_of_their_ids() {
    let grid = test_input_grid(&[("b", 2), ("a", 1)]);
    let list = grid.list_json();
    assert_eq!(items(&list)[0].text_field("id"), Some("a"));
    assert_eq!(items(&list)[1].unsigned_field("channels"), Some(2));

    let mut out = OutputGrid::new();
    out.insert(OutputGridEntry {
        id: "tx".to_string(),
        label: "TX".to_string(),
        channels: 2,
        flow_id: Uuid { bits: 1 },
        receiver_id: None,
    });
    assert_eq!(items(&out.list_json())[0].text_field("label"), Some("TX"));
    assert!(out.get("ty").is_none());
}
