//! Flows, domains, the audio test and playback.

use mxl_bridge::bridge::alsa_capture::{deinterleave, pick_channels};
use mxl_bridge::bridge::alsa_playback::{
    fifo_priority, scatter, scatter_packed, DelayRule, Playback, Recoveries,
};
use mxl_bridge::bridge::audiotest::{
    block_due, dump_end, dump_first, first_index, parse_rtp, pattern, pattern_block, rtp_record, run,
    whole_blocks, Command,
};
use mxl_bridge::bridge::mxl_domain::{is_mxl_uuid, DomainDef};
use mxl_bridge::bridge::mxl_flow::{
    build_audio_flow_def, capture_start_index, drift_tolerance_samples, node_id, packed_rx_flow_id,
    packed_rx_source_id, packed_tx_flow_id, sink_flow_id, sink_sender_id, sink_source_id,
    source_receiver_id, tai_index, tai_ns, version_at, ReadIndex, WriteIndex,
};
use mxl_bridge::bridge::mxl_samples::{check_channels, from_fragments, to_fragments};
use mxl_bridge::json::Json;
use mxl_bridge::uuid::Uuid;

fn to_f32(v: i32) -> f32 {
    v as f32 / 8_388_608.0
}

#[test]
fn pattern_is_deterministic_bounded_and_exact_in_f32() {
    assert_eq!(pattern(7, 3, 1_000_000), pattern(7, 3, 1_000_000));
    assert_ne!(pattern(7, 3, 1_000_000), pattern(7, 4, 1_000_000));
    for i in 0..10_000u64 {
        let v = pattern(42, (i % 8) as u32, i);
        assert!((-(1 << 20)..(1 << 20)).contains(&v));
        assert_eq!((to_f32(v) * 8_388_608.0) as i32, v, "float32 carries 24-bit samples exactly");
    }
}

#[test]
fn pattern_reference_values() {
    assert_eq!(pattern(1, 0, 0), 139_589);
    assert_eq!(pattern(1, 7, 123_456_789), -175_737);
}

#[test]
fn a_block_of_the_pattern_holds_its_samples() {
    let b = pattern_block(1, 8, 123_456_700);
    assert_eq!((b.len(), b[0].len()), (8, 480));
    assert_eq!(b[7][89], -175_737);
}

#[test]
fn uuid_rule_matches_the_bcp_schema() {
    assert!(is_mxl_uuid("5f0a4c1e-9d3b-4c47-8f5e-2a7c61b0d3a9"));
    assert!(!is_mxl_uuid("5F0A4C1E-9D3B-4C47-8F5E-2A7C61B0D3A9"), "uppercase");
    assert!(!is_mxl_uuid("5f0a4c1e-9d3b-0c47-8f5e-2a7c61b0d3a9"), "version nibble 0");
    assert!(!is_mxl_uuid("5f0a4c1e-9d3b-4c47-cf5e-2a7c61b0d3a9"), "variant");
    assert!(!is_mxl_uuid("auto"));
}

fn definition(keys: &[&str]) -> Json {
    let mut v = Json::new_object();
    for k in keys {
        v = match *k {
            "id" => v.with("id", Json::text("5f0a4c1e-9d3b-4c47-8f5e-2a7c61b0d3a9")),
            "label" => v.with("label", Json::text("a")),
            "description" => v.with("description", Json::text("")),
            _ => v.with("tags", Json::new_object()),
        };
    }
    v
}

#[test]
fn rejects_definitions_missing_required_fields() {
    let all = ["id", "label", "description", "tags"];
    assert!(DomainDef::parse(&definition(&all)).is_ok());
    for k in all {
        let rest: Vec<&str> = all.iter().copied().filter(|x| *x != k).collect();
        assert!(DomainDef::parse(&definition(&rest)).is_err(), "missing {k} must be rejected");
    }
}

#[test]
fn definitions_read_back_and_refusals_are_put_into_words() {
    let tags = Json::new_object().with("a", Json::Array(vec![Json::text("x"), Json::text("y")]));
    let v = Json::new_object()
        .with("id", Json::text("5f0a4c1e-9d3b-4c47-8f5e-2a7c61b0d3a9"))
        .with("label", Json::text("lab"))
        .with("description", Json::text("d"))
        .with("tags", tags);
    let def = DomainDef::parse(&v).ok().unwrap();
    let again = DomainDef::parse(&def.to_json()).ok().unwrap();
    assert_eq!(again.id, def.id);
    assert_eq!((again.label.as_str(), again.description.as_str()), ("lab", "d"));
    assert_eq!(again.tags.get(&"a".to_string()), Some(&vec!["x".to_string(), "y".to_string()]));

    let err = |v: Json| DomainDef::parse(&v).err().unwrap();
    assert_eq!(err(Json::Null), "domain definition must be a JSON object");
    assert_eq!(err(Json::new_object()), "domain definition needs a string `id`");
    assert_eq!(
        err(Json::new_object().with("id", Json::text("x"))),
        "domain id 'x' is not a lowercase canonical UUID"
    );
    assert_eq!(err(definition(&["id"])), "domain definition needs a `tags` object");
    assert_eq!(err(definition(&["id", "tags"])), "domain definition needs a string `label`");
    let bad = Json::new_object()
        .with("id", Json::text("5f0a4c1e-9d3b-4c47-8f5e-2a7c61b0d3a9"))
        .with("tags", Json::new_object().with("t", Json::Array(vec![Json::Null])));
    assert_eq!(err(bad), "tag 't' must be an array of strings");

    let fresh = DomainDef::fresh("lab", "/dev/shm/mxl");
    assert!(is_mxl_uuid(&fresh.id.to_string()));
    assert_eq!(&fresh.id.to_string()[14..15], "4");
    assert_ne!(DomainDef::fresh("lab", "/dev/shm/mxl").id, fresh.id);
    assert!(DomainDef::parse(&fresh.to_json()).is_ok());
    assert_eq!(fresh.description, "MXL domain at /dev/shm/mxl (definition created by mxl-bridge)");
}

#[test]
fn a_block_ends_where_the_pending_frames_begin() {
    let start = capture_start_index(1_000_000, 96, 480);
    assert_eq!(start, 1_000_000 - 576);
    assert_eq!(start + 480 - 1, 1_000_000 - 96 - 1, "last sample is just before the pending ones");
    assert_eq!(capture_start_index(1_000_000, 0, 480) + 480, 1_000_000);
    assert_eq!(capture_start_index(100, 96, 480), 0, "saturates at the epoch");
}

#[test]
fn the_tolerance_is_five_milliseconds() {
    assert_eq!(drift_tolerance_samples(48_000, 1), 240);
    assert_eq!(drift_tolerance_samples(96_000, 1), 480);
    assert_eq!(drift_tolerance_samples(48_000, 2), 120);
}

#[test]
fn writing_counts_on_and_snaps_to_the_clock() {
    let mut w = WriteIndex::new();
    assert_eq!(w.start(10_000, 0, 480, 48_000), 9_520);
    w.wrote(9_520, 480);
    assert_eq!(w.start(10_500, 0, 480, 48_000), 10_000);
    assert!(!w.astray(10_720, 0, 480, 48_000));
    assert_eq!(w.start(10_720, 0, 480, 48_000), 10_000);
    assert!(w.astray(10_721, 0, 480, 48_000));
    assert_eq!(w.start(10_721, 0, 480, 48_000), 10_241);
}

#[test]
fn reading_keeps_behind_the_writer_or_the_clock() {
    let mut r = ReadIndex::new();
    assert_eq!(r.aligned(990, 1_000, 48, 2_400), 942);
    assert_eq!(r.aligned(1_010, 1_000, 48, 2_400), 952);
    assert_eq!(r.aligned(10_000, 10_050, 144, 2_400), 9_856);
    assert_eq!(r.aligned(5_000, 10_050, 144, 2_400), 4_856);
    r.read(9_906, 48);
    assert_eq!(r.aligned(10_100, 10_100, 144, 2_400), 9_954);
    assert_eq!(r.aligned(20_000, 20_000, 144, 2_400), 19_856);
    r.realign();
    assert_eq!(r.next_index, None);
    assert_eq!(r.following(7), 7);
    r.resync_to_head(99);
    assert_eq!(r.following(7), 99);
    assert_eq!(ReadIndex::new().aligned(0, 10, 144, 0), 0);
}

#[test]
fn times_become_indices_and_versions() {
    assert_eq!(tai_index(2, 500_000_000, 48_000), 120_000);
    assert_eq!(tai_ns(3, 7), 3_000_000_007);
    assert_eq!(version_at(3_000_000_007), (3, 7));
}

#[test]
fn the_definition_of_a_flow_has_a_fixed_group() {
    let d = build_audio_flow_def(48_000, &Uuid { bits: 1 }, &Uuid { bits: 2 }, &Uuid { bits: 3 }, "packed-rx:mix1", 4);
    assert_eq!(d.text_field("id"), Some("00000000-0000-0000-0000-000000000001"));
    assert_eq!(d.text_field("description"), Some("packed-rx:mix1 (bridged from AES67 via mxl-bridge)"));
    assert_eq!(d.unsigned_field("channel_count"), Some(4));
    let hint = d.get("tags").unwrap().get("urn:x-nmos:tag:grouphint/v1.0").unwrap();
    assert_eq!(hint.as_array().unwrap()[0].as_str(), Some("device:mxl-bridge"));
}

#[test]
fn the_ids_of_mirrors_differ() {
    let ids = [
        node_id(),
        sink_source_id(1),
        sink_flow_id(1),
        sink_sender_id(1),
        source_receiver_id(1),
        packed_rx_flow_id("1"),
        packed_rx_source_id("1"),
        packed_tx_flow_id("1"),
    ];
    for (i, a) in ids.iter().enumerate() {
        for b in &ids[i + 1..] {
            assert_ne!(a, b);
        }
    }
    assert_eq!(sink_flow_id(1).to_string(), "769531a4-4386-505e-a5a3-b81ae72ded6c");
}

fn args(a: &[&str]) -> Vec<String> {
    a.iter().map(|s| s.to_string()).collect()
}

#[test]
fn the_command_line_is_read() {
    let a = args(&["gen", "c.json", "f", "8", "2.5", "42"]);
    match run(&a) {
        Command::Generate { config, flow, channels, seconds, seed } => {
            assert_eq!((config, flow, channels, seconds, seed), ("c.json", "f", Some(8), "2.5", Some(42)));
        }
        _ => unreachable!(),
    }
    let a = args(&["dump", "c.json", "f", "x", "1"]);
    assert!(matches!(run(&a), Command::Dump { width: None, seconds: "1", .. }));
    let a = args(&["capture", "eth0", "239.1.1.1", "5004", "1"]);
    assert!(matches!(run(&a), Command::Capture { iface: "eth0", port: Some(5004), .. }));
    let a = args(&["capture", "eth0", "239.1.1.1", "65536", "1"]);
    assert!(matches!(run(&a), Command::Capture { port: None, .. }));
    assert!(matches!(run(&args(&["gen", "c"])), Command::Usage));
    assert!(matches!(run(&[]), Command::Usage));
}

#[test]
fn blocks_are_due_when_the_clock_reached_their_end() {
    assert_eq!(first_index(1_000), 520);
    assert_eq!(first_index(100), 0);
    assert!(block_due(520, 10_000, 1_000));
    assert!(!block_due(521, 10_000, 1_000));
    assert!(!block_due(520, 520, 1_000));
    assert_eq!(whole_blocks(1_000), 960);
    assert_eq!(dump_end(10_000), 5_200);
    assert_eq!(dump_end(10), 0);
    assert_eq!(dump_first(479), Some(0));
    assert_eq!(dump_first(478), None);
}

fn frame(tagged: bool, port: u16, options: u8, extension: bool, payload: &[u8]) -> Vec<u8> {
    let mut f = vec![0u8; 12];
    if tagged {
        f.extend([0x81, 0x00, 0x00, 0x01]);
    }
    f.extend([0x08, 0x00]);
    let ip = f.len();
    f.extend(vec![0u8; 20 + options as usize * 4]);
    f[ip] = 0x45 + options;
    f[ip + 9] = 17;
    f[ip + 16..ip + 20].copy_from_slice(&[239, 1, 1, 1]);
    let rtp_len = 12 + if extension { 8 } else { 0 } + payload.len();
    f.extend([0, 0]);
    f.extend(port.to_be_bytes());
    f.extend(((8 + rtp_len) as u16).to_be_bytes());
    f.extend([0, 0]);
    f.extend([if extension { 0x90 } else { 0x80 }, 98, 0x12, 0x34, 0xde, 0xad, 0xbe, 0xef, 0, 0, 0, 0]);
    if extension {
        f.extend([0xbe, 0xde, 0, 1, 1, 2, 3, 4]);
    }
    f.extend(payload);
    f
}

#[test]
fn packets_are_found_within_frames() {
    for tagged in [false, true] {
        for options in [0, 2] {
            for extension in [false, true] {
                let f = frame(tagged, 5004, options, extension, &[1, 2, 3]);
                let p = parse_rtp(&f, [239, 1, 1, 1], 5004).unwrap();
                assert_eq!((p.seq, p.timestamp), (0x1234, 0xdeadbeef));
                assert_eq!(&f[p.start..p.end], &[1, 2, 3]);
            }
        }
    }
    let f = frame(false, 5004, 0, false, &[1, 2, 3]);
    assert!(parse_rtp(&f, [239, 1, 1, 2], 5004).is_none());
    assert!(parse_rtp(&f, [239, 1, 1, 1], 5006).is_none());
    assert!(parse_rtp(&f[..40], [239, 1, 1, 1], 5004).is_none());
    assert!(parse_rtp(&f[..f.len() - 1], [239, 1, 1, 1], 5004).is_none());
    let p = parse_rtp(&f, [239, 1, 1, 1], 5004).unwrap();
    let r = rtp_record(0x0102030405060708, &f, &p);
    assert_eq!(&r[..8], &[8, 7, 6, 5, 4, 3, 2, 1]);
    assert_eq!(&r[8..], &[0xef, 0xbe, 0xad, 0xde, 0x34, 0x12, 3, 0, 1, 2, 3]);
}

#[test]
fn captured_channels_are_taken_apart_and_picked() {
    let planar = deinterleave(&vec![1, 10, 2, 20, 3, 30, 99, 99], 2, 3);
    assert_eq!(planar, vec![vec![1, 2, 3], vec![10, 20, 30]]);
    assert_eq!(pick_channels(&planar, &vec![1, 7], 3, 0), vec![vec![10, 20, 30], vec![0, 0, 0]]);
}

#[test]
fn sources_are_scattered_into_their_channels() {
    let mut block = vec![0; 6];
    scatter(&mut block, 3, 2, &vec![2, 0, 9], &vec![vec![1, 2, 3], vec![4, 5, 6], vec![7, 8, 9]]);
    assert_eq!(block, vec![4, 0, 1, 5, 0, 2]);
    scatter_packed(&mut block, 3, 2, &vec![vec![1, 2], vec![5]], &vec![vec![8, 9], vec![1, 1]]);
    assert_eq!(block, vec![4, 8, 8, 5, 9, 9]);
}

#[test]
fn a_failing_source_gets_more_time_and_is_then_left_alone() {
    let rule = DelayRule::new(144, 48_000, 480);
    assert_eq!((rule.step, rule.max, rule.backoff_after), (48, 2_400, 5));
    let mut p = Playback::new();
    assert_eq!(p.before_read(1, true, 0, &rule), Some(144));
    for n in 1..=4u64 {
        let a = p.failed(1, 144 + (n - 1) * 48, 1_000, &rule);
        assert!(a.realign && !a.back_off);
        assert_eq!(p.before_read(1, true, 1_000, &rule), Some(144 + n * 48));
    }
    let a = p.failed(1, 336, 1_000, &rule);
    assert!(a.back_off && a.report);
    assert_eq!(p.before_read(1, true, 1_001, &rule), None);
    assert_eq!(p.before_read(1, true, 500_001_000, &rule), Some(384));
    let a = p.failed(1, 2_400, 500_001_000, &rule);
    assert!(!a.realign && a.back_off && !a.report);
    p.succeeded(1);
    assert_eq!(p.before_read(1, true, 500_001_001, &rule), Some(384));
    assert!(!p.failed(1, 384, 0, &rule).back_off);
    assert_eq!(p.before_read(1, false, 0, &rule), None);
    assert_eq!(p.before_read(1, true, 0, &rule), Some(144));
}

#[test]
fn a_failing_packed_flow_is_left_alone() {
    let mut p = Playback::new();
    let name = "mix".to_string();
    assert!(p.packed_due(&name, 0));
    assert!(p.packed_failed(&name, 0));
    assert!(!p.packed_due(&name, 499_999_999));
    assert!(p.packed_due(&name, 500_000_000));
    assert!(!p.packed_failed(&name, 500_000_000));
    p.packed_succeeded(&name);
    assert!(p.packed_failed(&name, 0));
}

#[test]
fn recoveries_are_summed_up() {
    let mut r = Recoveries::new();
    assert_eq!(r.another(10), Some(1));
    assert_eq!(r.another(20), None);
    assert_eq!(r.another(5_000_000_009), None);
    assert_eq!(r.another(5_000_000_010), Some(3));
    assert_eq!(r.another(5_000_000_011), None);
}

#[test]
fn priorities_stay_in_range() {
    assert_eq!(fifo_priority(0), None);
    assert_eq!(fifo_priority(70), Some(70));
    assert_eq!(fifo_priority(99), Some(98));
}

#[test]
fn samples_read_back_wherever_the_ring_ends() {
    let samples: Vec<u32> = [1.0f32, -0.5, 0.25].iter().map(|f| f.to_bits()).collect();
    for room in 0..14 {
        let (a, b) = to_fragments(&samples, room);
        assert_eq!(a.len(), room.min(12));
        assert_eq!(a.len() + b.len(), 12);
        assert_eq!(from_fragments(&a, &b), samples);
    }
    let (a, _) = to_fragments(&[0x0403_0201], 4);
    assert_eq!(a, [1, 2, 3, 4]);
    assert_eq!(from_fragments(&[1, 2], &[3, 4, 5, 6, 7]), [0x0403_0201]);
}

#[test]
fn a_flow_of_another_width_is_refused() {
    assert!(check_channels(2, 2).is_ok());
    assert_eq!(check_channels(2, 8).unwrap_err(), "MXL flow channel_count (2) does not match expected (8)");
}
