//! The declared capacity, and what changes between two looks at the daemon.

use mxl_bridge::bridge::daemon_client::{poll, DaemonSink, DaemonSource, DaemonState, StreamChange};
use mxl_bridge::bridge::provision::{
    addresses_fit, channel_maps, desired_source, ipv4_plus, is_parked, parked_sink, parking_sdp,
    plan, reconcile, sdp_channels, stream_sizes, Action, Capacity, ChannelSpec, Mode,
    ProvisionError, StreamSet,
};

fn cap16x8() -> Capacity {
    Capacity {
        alsa_channels: 128,
        tx: StreamSet {
            streams: Some(16),
            channels: ChannelSpec::Each(8),
            multicast_base: Some("239.55.5.5".into()),
            parking_group: None,
            delay: None,
        },
        rx: StreamSet {
            streams: Some(16),
            channels: ChannelSpec::Each(8),
            multicast_base: None,
            parking_group: Some("239.255.255.1".into()),
            delay: None,
        },
        mode: Mode::Apply,
        recheck_secs: 30,
    }
}

fn sink(id: u8, map: Vec<u8>, channels: usize) -> DaemonSink {
    DaemonSink {
        id,
        name: format!("s{id}"),
        io: "Audio Device".into(),
        use_sdp: true,
        source: String::new(),
        sdp: format!("v=0\r\ns=live\r\nm=audio 5004 RTP/AVP 98\r\na=rtpmap:98 L24/48000/{channels}\r\n"),
        delay: 576,
        ignore_refclk_gmid: true,
        map,
    }
}

#[test]
fn sixteen_by_eight_fills_128_contiguous_channels() {
    let maps = channel_maps(&stream_sizes(&cap16x8().tx).unwrap(), 128).unwrap();
    assert_eq!(maps.len(), 16);
    assert_eq!(maps[0], (0..8).collect::<Vec<u8>>());
    assert_eq!(maps[15], (120..128).collect::<Vec<u8>>());
}

#[test]
fn sizes_reject_what_does_not_fit() {
    assert!(channel_maps(&[8; 17], 128).is_err());
    let bad = StreamSet {
        streams: Some(3),
        channels: ChannelSpec::List(vec![8, 8]),
        multicast_base: None,
        parking_group: None,
        delay: None,
    };
    assert!(stream_sizes(&bad).is_err());
    let list = StreamSet {
        streams: None,
        channels: ChannelSpec::List(vec![16, 8, 8]),
        multicast_base: None,
        parking_group: None,
        delay: None,
    };
    assert_eq!(channel_maps(&stream_sizes(&list).unwrap(), 64).unwrap()[1], (16..24).collect::<Vec<u8>>());
}

#[test]
fn empty_daemon_gets_every_stream() {
    let a = plan(&cap16x8(), &[], &[]).unwrap();
    assert_eq!(a.iter().filter(|a| matches!(a, Action::PutSource(_))).count(), 16);
    assert_eq!(a.iter().filter(|a| matches!(a, Action::PutParkedSink(_))).count(), 16);
    let Action::PutSource(s) = &a[1] else { panic!() };
    assert_eq!(s.address, "239.55.5.6");
}

#[test]
fn matching_streams_are_left_alone() {
    let cap = cap16x8();
    let sources: Vec<_> = (0..16)
        .map(|i| desired_source(i, (i * 8..i * 8 + 8).collect(), ipv4_plus("239.55.5.5", i as u32).unwrap()))
        .collect();
    let sinks: Vec<_> = (0..16).map(|i| sink(i, (i * 8..i * 8 + 8).collect(), 8)).collect();
    assert!(plan(&cap, &sources, &sinks).unwrap().is_empty());
}

#[test]
fn a_source_that_is_only_off_is_left_alone() {
    let cap = Capacity {
        alsa_channels: 8,
        tx: StreamSet {
            streams: Some(1),
            channels: ChannelSpec::Each(2),
            multicast_base: Some("239.55.5.5".into()),
            parking_group: None,
            delay: None,
        },
        rx: StreamSet {
            streams: None,
            channels: ChannelSpec::List(vec![]),
            multicast_base: None,
            parking_group: Some("239.255.255.1".into()),
            delay: None,
        },
        mode: Mode::Apply,
        recheck_secs: 30,
    };
    let mut source = desired_source(0, vec![0, 1], "239.55.5.5".into());
    source.enabled = false;
    assert_eq!(plan(&cap, &[source.clone()], &[]).unwrap(), vec![]);
    source.codec = "L16".into();
    assert_eq!(plan(&cap, &[source], &[]).unwrap().len(), 1);
}

#[test]
fn live_sink_with_wrong_map_is_remapped_keeping_its_sdp() {
    let cur = sink(2, (32..40).collect(), 8);
    let a = plan(&cap16x8(), &[], &[cur.clone()]).unwrap();
    let remap = a.iter().find_map(|a| if let Action::RemapSink(s) = a { Some(s) } else { None }).unwrap();
    assert_eq!(remap.map, (16..24).collect::<Vec<u8>>());
    assert_eq!(remap.sdp, cur.sdp);
}

#[test]
fn sink_with_other_channel_count_is_replaced_parked_and_extras_removed() {
    let a = plan(
        &cap16x8(),
        &[],
        &[sink(3, (16..32).collect(), 16), sink(20, (0..8).collect(), 8)],
    )
    .unwrap();
    assert!(a.iter().any(|a| matches!(a, Action::PutParkedSink(s) if s.id == 3 && s.map.len() == 8)));
    assert!(a.contains(&Action::DeleteSink(20)));
}

#[test]
fn a_new_delay_is_applied_to_live_sinks_keeping_their_sdp() {
    let mut cap = cap16x8();
    cap.rx.delay = Some(192);
    let cur = sink(0, (0..8).collect(), 8);
    let a = plan(&cap, &[], &[cur.clone()]).unwrap();
    let s = a.iter().find_map(|a| if let Action::RemapSink(s) = a { Some(s) } else { None }).unwrap();
    assert_eq!((s.delay, &s.sdp), (192, &cur.sdp));
}

#[test]
fn parking_sdp_is_recognisable_and_declares_its_channels() {
    let s = parked_sink(4, (32..40).collect(), "239.255.255.1", 576);
    assert!(is_parked(&s));
    assert_eq!(sdp_channels(&s.sdp), Some(8));
    assert!(s.sdp.contains("c=IN IP4 239.255.255.1/15"));
}

#[test]
fn a_plan_that_was_carried_out_leaves_nothing_to_do() {
    let cap = cap16x8();
    let mut sources = vec![];
    let mut sinks = vec![sink(40, (0..8).collect(), 8)];
    for a in plan(&cap, &sources, &sinks).unwrap() {
        match a {
            Action::PutSource(s) => sources.push(s),
            Action::PutParkedSink(s) | Action::RemapSink(s) => sinks.push(s),
            Action::DeleteSink(id) => sinks.retain(|s| s.id != id),
            Action::DeleteSource(id) => sources.retain(|s: &DaemonSource| s.id != id),
        }
    }
    assert!(plan(&cap, &sources, &sinks).unwrap().is_empty());
}

#[test]
fn steps_are_put_into_words_and_have_their_paths() {
    let d = Action::DeleteSink(20);
    assert!(d.to_string().contains("remove (beyond declared capacity)"));
    assert_eq!(d.path(), "/api/sink/20");
    assert_eq!(Action::DeleteSource(3).path(), "/api/source/3");
}

#[test]
fn every_error_comes_with_its_words() {
    let mut cap = cap16x8();
    cap.tx.streams = None;
    let e = plan(&cap, &[], &[]).unwrap_err();
    assert_eq!(e, ProvisionError::ChannelsNeedStreams);
    assert_eq!(e.message(), "'channels' as a number needs 'streams'");

    let mut cap = cap16x8();
    cap.tx.channels = ChannelSpec::List(vec![8, 8]);
    assert_eq!(plan(&cap, &[], &[]).unwrap_err().message(), "'streams' is 16 but 'channels' lists 2");

    let mut cap = cap16x8();
    cap.rx.streams = Some(65);
    cap.rx.channels = ChannelSpec::Each(1);
    assert_eq!(plan(&cap, &[], &[]).unwrap_err().message(), "65 streams exceed the daemon's 64");

    let mut cap = cap16x8();
    cap.rx.channels = ChannelSpec::Each(0);
    assert_eq!(plan(&cap, &[], &[]).unwrap_err().message(), "every stream needs 1..=64 channels");

    let mut cap = cap16x8();
    cap.alsa_channels = 127;
    assert_eq!(plan(&cap, &[], &[]).unwrap_err().message(), "128 channels do not fit in alsa_channels 127");

    let mut cap = cap16x8();
    cap.tx.multicast_base = None;
    assert_eq!(plan(&cap, &[], &[]).unwrap_err().message(), "tx.multicast_base is required");

    let mut cap = cap16x8();
    cap.rx.parking_group = None;
    assert_eq!(plan(&cap, &[], &[]).unwrap_err().message(), "rx.parking_group is required");

    assert_eq!(ipv4_plus("239.55.5.256", 0).unwrap_err().message(), "'239.55.5.256' is not an IPv4 address");

    let e = reconcile(&cap16x8(), 64, &[], &[]).unwrap_err();
    assert_eq!(
        e.message(),
        "capacity needs alsa_channels 128 but the daemon runs 64 - set \"alsa_channels\": 128 in the daemon's config and restart it"
    );
    assert_eq!(channel_maps(&[64; 4], 300).unwrap_err().message(), "alsa_channels above 256");
}

#[test]
fn addresses_carry_over_and_are_checked_to_exist() {
    assert_eq!(ipv4_plus("239.55.5.255", 1).unwrap(), "239.55.6.0");
    let mut cap = cap16x8();
    assert!(addresses_fit(&cap));
    cap.tx.multicast_base = Some("255.255.255.250".into());
    assert!(!addresses_fit(&cap));
}

#[test]
fn a_plan_is_carried_out_where_there_is_something_in_it_and_the_mode_says_so() {
    let mut cap = cap16x8();
    assert!(reconcile(&cap, 128, &[], &[]).unwrap().execute);
    cap.mode = Mode::Log;
    let r = reconcile(&cap, 128, &[], &[]).unwrap();
    assert!(!r.execute);
    assert_eq!(r.actions.len(), 32);
}

#[test]
fn a_parked_sdp_is_written_out_in_full() {
    assert_eq!(
        parking_sdp(0, 2, "239.1.1.1"),
        "v=0\r\no=- 0 0 IN IP4 0.0.0.0\r\ns=mxl-bridge parked RX 1\r\nc=IN IP4 239.1.1.1/15\r\nt=0 0\r\nm=audio 5004 RTP/AVP 98\r\nc=IN IP4 239.1.1.1/15\r\na=rtpmap:98 L24/48000/2\r\na=ptime:1\r\na=mediaclk:direct=0\r\na=recvonly\r\n"
    );
    assert_eq!(sdp_channels("v=0\n"), None);
    assert_eq!(sdp_channels("a=rtpmap:98 L24/48000/x"), None);
}

fn source(id: u8, dscp: u8) -> DaemonSource {
    DaemonSource {
        id,
        enabled: true,
        name: format!("src{id}"),
        io: "network".into(),
        max_samples_per_packet: 48,
        codec: "L24".into(),
        address: "239.1.0.1:5004".into(),
        ttl: 15,
        payload_type: 98,
        dscp,
        refclk_ptp_traceable: true,
        map: vec![0, 1],
    }
}

#[test]
fn poll_detects_added_changed_removed() {
    let first = poll(&DaemonState::default(), &vec![source(1, 34)], &vec![], 64);
    assert_eq!(first.source_changes.len(), 1);
    assert!(matches!(&first.source_changes[0], StreamChange::Added(s) if s.id == 1));
    assert_eq!(first.state.alsa_channels, 64);
    assert!(first.worth_sending());

    let second = poll(&first.state, &vec![source(1, 46), source(2, 34)], &vec![], 64);
    assert_eq!(second.source_changes.len(), 2);
    assert!(second.source_changes.iter().any(|c| matches!(c, StreamChange::Added(s) if s.id == 2)));
    assert!(second.source_changes.iter().any(|c| matches!(c, StreamChange::Changed(s) if s.id == 1)));

    let third = poll(&second.state, &vec![source(2, 34)], &vec![], 64);
    assert_eq!(third.source_changes.len(), 1);
    assert!(matches!(&third.source_changes[0], StreamChange::Removed(1)));

    let same = poll(&third.state, &vec![source(2, 34)], &vec![], 64);
    assert!(!same.worth_sending());
}
