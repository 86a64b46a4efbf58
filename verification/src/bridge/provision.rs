//! Fixed stream capacity, declared in the configuration and enforced on the daemon.
//!
//! The bridge owns every daemon stream: `tx` = daemon Sources, `rx` = daemon Sinks. Stream n of a
//! side uses a contiguous block of ALSA channels right after stream n-1's. A daemon Sink cannot
//! exist without an SDP, so an unconnected rx stream is *parked*: an SDP on an unused multicast
//! group with the stream's channel count.

use vstd::prelude::*;
use vstd::string::*;

use crate::bridge::daemon_client::{
    copy_map, list_model, same_map, DaemonSink, DaemonSource, SinkModel, SourceModel, Stream,
};
use crate::text::{
    contains, dec, decimal, digit_char, digit_value, digits_value, lemma_dec_digits,
    lemma_dec_value, lemma_pieces_next, lemma_pieces_one, occurs, parse_unsigned, pieces, same,
    split, strip_prefix, stripped, trim, trimmed, unsigned_value, views,
};

verus! {

/// The daemon's own ceiling on the number of streams.
pub const MAX_STREAMS: usize = 64;

/// Default daemon playout delay for rx Sinks, in samples (12 ms at 48 kHz).
pub const DEFAULT_RX_DELAY: u32 = 576;

/// How the channel counts of the streams are declared.
#[derive(Clone, Debug, PartialEq)]
pub enum ChannelSpec {
    /// Every stream this many channels (needs `streams`).
    Each(u32),
    /// One entry per stream.
    List(Vec<u32>),
}

/// Whether a plan is carried out.
#[derive(Clone, Copy, Debug, PartialEq, Eq, Structural)]
pub enum Mode {
    /// Execute the plan.
    Apply,
    /// Only log it.
    Log,
}

impl Default for Mode {
    fn default() -> (r: Self)
        ensures
            r == Mode::Apply,
    {
        Mode::Apply
    }
}

/// The streams of one side.
#[derive(Clone, Debug)]
pub struct StreamSet {
    pub streams: Option<u32>,
    pub channels: ChannelSpec,
    /// tx only: stream n sends to this address + n (e.g. "239.55.5.5").
    pub multicast_base: Option<String>,
    /// rx only: where unconnected streams are parked (e.g. "239.255.255.1").
    pub parking_group: Option<String>,
    /// rx only: the daemon's playout delay per Sink, in samples.
    pub delay: Option<u32>,
}

/// The declared capacity.
#[derive(Clone, Debug)]
pub struct Capacity {
    /// ALSA width the daemon must run at: checked, not set.
    pub alsa_channels: u32,
    pub tx: StreamSet,
    pub rx: StreamSet,
    pub mode: Mode,
    /// How often the layout is re-checked after startup; 0 = startup only.
    pub recheck_secs: u64,
}

/// How often the layout is re-checked where the configuration does not say.
pub const DEFAULT_RECHECK_SECS: u64 = 30;

/// Why a declared capacity cannot be enforced.
#[derive(Clone, Debug, PartialEq)]
pub enum ProvisionError {
    ChannelsNeedStreams,
    CountsDiffer { streams: u32, listed: usize },
    TooManyStreams { count: usize },
    ChannelsOutOfRange,
    DoesNotFit { total: u32, alsa_channels: u32 },
    AlsaTooWide,
    MulticastBaseMissing,
    ParkingGroupMissing,
    NotAnAddress { base: String },
    DaemonTooNarrow { wanted: u32, daemon: u32 },
}

/// What a [`ProvisionError`] says.
pub enum ErrorModel {
    ChannelsNeedStreams,
    CountsDiffer { streams: u32, listed: nat },
    TooManyStreams { count: nat },
    ChannelsOutOfRange,
    DoesNotFit { total: u32, alsa_channels: u32 },
    AlsaTooWide,
    MulticastBaseMissing,
    ParkingGroupMissing,
    NotAnAddress { base: Seq<char> },
    DaemonTooNarrow { wanted: u32, daemon: u32 },
}

impl View for ProvisionError {
    type V = ErrorModel;

    open spec fn view(&self) -> ErrorModel {
        match *self {
            ProvisionError::ChannelsNeedStreams => ErrorModel::ChannelsNeedStreams,
            ProvisionError::CountsDiffer { streams, listed } => ErrorModel::CountsDiffer {
                streams,
                listed: listed as nat,
            },
            ProvisionError::TooManyStreams { count } => ErrorModel::TooManyStreams {
                count: count as nat,
            },
            ProvisionError::ChannelsOutOfRange => ErrorModel::ChannelsOutOfRange,
            ProvisionError::DoesNotFit { total, alsa_channels } => ErrorModel::DoesNotFit {
                total,
                alsa_channels,
            },
            ProvisionError::AlsaTooWide => ErrorModel::AlsaTooWide,
            ProvisionError::MulticastBaseMissing => ErrorModel::MulticastBaseMissing,
            ProvisionError::ParkingGroupMissing => ErrorModel::ParkingGroupMissing,
            ProvisionError::NotAnAddress { base } => ErrorModel::NotAnAddress { base: base@ },
            ProvisionError::DaemonTooNarrow { wanted, daemon } => ErrorModel::DaemonTooNarrow {
                wanted,
                daemon,
            },
        }
    }
}

/// The words of an error.
pub open spec fn error_text(e: ErrorModel) -> Seq<char> {
    match e {
        ErrorModel::ChannelsNeedStreams => "'channels' as a number needs 'streams'"@,
        ErrorModel::CountsDiffer { streams, listed } => "'streams' is "@ + dec(streams as nat)
            + " but 'channels' lists "@ + dec(listed),
        ErrorModel::TooManyStreams { count } => dec(count) + " streams exceed the daemon's 64"@,
        ErrorModel::ChannelsOutOfRange => "every stream needs 1..=64 channels"@,
        ErrorModel::DoesNotFit { total, alsa_channels } => dec(total as nat)
            + " channels do not fit in alsa_channels "@ + dec(alsa_channels as nat),
        ErrorModel::AlsaTooWide => "alsa_channels above 256"@,
        ErrorModel::MulticastBaseMissing => "tx.multicast_base is required"@,
        ErrorModel::ParkingGroupMissing => "rx.parking_group is required"@,
        ErrorModel::NotAnAddress { base } => "'"@ + base + "' is not an IPv4 address"@,
        ErrorModel::DaemonTooNarrow { wanted, daemon } => "capacity needs alsa_channels "@ + dec(
            wanted as nat,
        ) + " but the daemon runs "@ + dec(daemon as nat) + " - set \"alsa_channels\": "@ + dec(
            wanted as nat,
        ) + " in the daemon's config and restart it"@,
    }
}

impl ProvisionError {
    /// The words of the error.
    pub fn message(&self) -> (r: String)
        ensures
            r@ == error_text(self@),
    {
        match self {
            ProvisionError::ChannelsNeedStreams => {
                "'channels' as a number needs 'streams'".to_owned()
            },
            ProvisionError::CountsDiffer { streams, listed } => {
                let mut s = "'streams' is ".to_owned();
                s.append(decimal(*streams as u64).as_str());
                s.append(" but 'channels' lists ");
                s.append(decimal(*listed as u64).as_str());
                s
            },
            ProvisionError::TooManyStreams { count } => {
                let mut s = decimal(*count as u64);
                s.append(" streams exceed the daemon's 64");
                s
            },
            ProvisionError::ChannelsOutOfRange => "every stream needs 1..=64 channels".to_owned(),
            ProvisionError::DoesNotFit { total, alsa_channels } => {
                let mut s = decimal(*total as u64);
                s.append(" channels do not fit in alsa_channels ");
                s.append(decimal(*alsa_channels as u64).as_str());
                s
            },
            ProvisionError::AlsaTooWide => "alsa_channels above 256".to_owned(),
            ProvisionError::MulticastBaseMissing => "tx.multicast_base is required".to_owned(),
            ProvisionError::ParkingGroupMissing => "rx.parking_group is required".to_owned(),
            ProvisionError::NotAnAddress { base } => {
                let mut s = "'".to_owned();
                s.append(base.as_str());
                s.append("' is not an IPv4 address");
                s
            },
            ProvisionError::DaemonTooNarrow { wanted, daemon } => {
                let mut s = "capacity needs alsa_channels ".to_owned();
                s.append(decimal(*wanted as u64).as_str());
                s.append(" but the daemon runs ");
                s.append(decimal(*daemon as u64).as_str());
                s.append(" - set \"alsa_channels\": ");
                s.append(decimal(*wanted as u64).as_str());
                s.append(" in the daemon's config and restart it");
                s
            },
        }
    }
}

/// The channel counts that a declaration lists, or why it lists none.
pub open spec fn listed_sizes(set: StreamSet) -> Result<Seq<u32>, ErrorModel> {
    match (set.channels, set.streams) {
        (ChannelSpec::Each(ch), Some(n)) => Ok(Seq::new(n as nat, |i: int| ch)),
        (ChannelSpec::Each(_), None) => Err(ErrorModel::ChannelsNeedStreams),
        (ChannelSpec::List(list), Some(n)) => if list@.len() != n {
            Err(ErrorModel::CountsDiffer { streams: n, listed: list@.len() })
        } else {
            Ok(list@)
        },
        (ChannelSpec::List(list), None) => Ok(list@),
    }
}

/// Whether every channel count is one that a stream can have.
pub open spec fn counts_in_range(sizes: Seq<u32>) -> bool {
    forall|i: int| 0 <= i < sizes.len() ==> 1 <= #[trigger] sizes[i] <= 64
}

/// The channel count of each stream, or why there is none.
pub open spec fn sizes_model(set: StreamSet) -> Result<Seq<u32>, ErrorModel> {
    match listed_sizes(set) {
        Err(e) => Err(e),
        Ok(sizes) => if sizes.len() > MAX_STREAMS {
            Err(ErrorModel::TooManyStreams { count: sizes.len() })
        } else if !counts_in_range(sizes) {
            Err(ErrorModel::ChannelsOutOfRange)
        } else {
            Ok(sizes)
        },
    }
}

/// What a result with sizes says.
pub open spec fn sizes_result(r: Result<Vec<u32>, ProvisionError>) -> Result<
    Seq<u32>,
    ErrorModel,
> {
    match r {
        Ok(v) => Ok(v@),
        Err(e) => Err(e@),
    }
}

fn in_range(sizes: &Vec<u32>) -> (r: bool)
    ensures
        r == counts_in_range(sizes@),
{
    for i in 0..sizes.len()
        invariant
            forall|k: int| 0 <= k < i ==> 1 <= #[trigger] sizes@[k] <= 64,
    {
        if sizes[i] < 1 || sizes[i] > 64 {
            assert(!(1 <= sizes@[i as int] <= 64));
            return false;
        }
    }
    true
}

/// Channel count of each stream, from `streams` + `channels`.
pub fn stream_sizes(set: &StreamSet) -> (r: Result<Vec<u32>, ProvisionError>)
    ensures
        sizes_result(r) == sizes_model(*set),
{
    let mut sizes: Vec<u32> = Vec::new();
    match (&set.channels, set.streams) {
        (ChannelSpec::Each(ch), Some(n)) => {
            if n as usize > MAX_STREAMS {
                return Err(ProvisionError::TooManyStreams { count: n as usize });
            }
            let mut i: u32 = 0;
            while i < n
                invariant
                    i <= n,
                    sizes@ == Seq::new(i as nat, |k: int| *ch),
                decreases n - i,
            {
                sizes.push(*ch);
                assert(sizes@ =~= Seq::new((i + 1) as nat, |k: int| *ch));
                i += 1;
            }
        },
        (ChannelSpec::Each(_), None) => {
            return Err(ProvisionError::ChannelsNeedStreams);
        },
        (ChannelSpec::List(list), streams) => {
            if let Some(n) = streams {
                if list.len() != n as usize {
                    return Err(ProvisionError::CountsDiffer { streams: n, listed: list.len() });
                }
            }
            if list.len() > MAX_STREAMS {
                return Err(ProvisionError::TooManyStreams { count: list.len() });
            }
            for i in 0..list.len()
                invariant
                    sizes@ == list@.take(i as int),
            {
                sizes.push(list[i]);
                assert(sizes@ =~= list@.take(i + 1));
            }
            assert(list@.take(list@.len() as int) =~= list@);
        },
    }
    if !in_range(&sizes) {
        return Err(ProvisionError::ChannelsOutOfRange);
    }
    Ok(sizes)
}

/// How many channels the first `n` streams have together.
pub open spec fn channels_before(sizes: Seq<u32>, n: int) -> nat
    decreases n,
{
    if n <= 0 {
        0
    } else {
        channels_before(sizes, n - 1) + sizes[n - 1] as nat
    }
}

/// The ALSA channels of stream `n`: the block right behind those of the streams before it.
pub open spec fn block(sizes: Seq<u32>, n: int) -> Seq<u8> {
    Seq::new(sizes[n] as nat, |k: int| (channels_before(sizes, n) + k) as u8)
}

/// The channel maps of all streams, or why they do not fit.
pub open spec fn maps_model(sizes: Seq<u32>, alsa_channels: u32) -> Result<
    Seq<Seq<u8>>,
    ErrorModel,
> {
    let total = channels_before(sizes, sizes.len() as int);
    if total > alsa_channels {
        Err(ErrorModel::DoesNotFit { total: total as u32, alsa_channels })
    } else if alsa_channels > 256 {
        Err(ErrorModel::AlsaTooWide)
    } else {
        Ok(Seq::new(sizes.len(), |n: int| block(sizes, n)))
    }
}

/// What a result with channel maps says.
pub open spec fn maps_result(r: Result<Vec<Vec<u8>>, ProvisionError>) -> Result<
    Seq<Seq<u8>>,
    ErrorModel,
> {
    match r {
        Ok(v) => Ok(v@.map_values(|m: Vec<u8>| m@)),
        Err(e) => Err(e@),
    }
}

proof fn lemma_channels_before_grows(sizes: Seq<u32>, a: int, b: int)
    requires
        a <= b,
    ensures
        channels_before(sizes, a) <= channels_before(sizes, b),
    decreases b,
{
    if b > 0 && a < b {
        lemma_channels_before_grows(sizes, a, b - 1);
    }
}

proof fn lemma_channels_before_bound(sizes: Seq<u32>, n: int)
    requires
        counts_in_range(sizes),
        0 <= n <= sizes.len(),
    ensures
        channels_before(sizes, n) <= 64 * n,
    decreases n,
{
    if n > 0 {
        lemma_channels_before_bound(sizes, n - 1);
    }
}

/// Contiguous ALSA channel maps: stream 0 gets 0..c0, stream 1 the next c1, and so on.
pub fn channel_maps(sizes: &[u32], alsa_channels: u32) -> (r: Result<Vec<Vec<u8>>, ProvisionError>)
    requires
        channels_before(sizes@, sizes@.len() as int) <= u32::MAX,
    ensures
        maps_result(r) == maps_model(sizes@, alsa_channels),
{
    let mut total: u32 = 0;
    for i in 0..sizes.len()
        invariant
            total == channels_before(sizes@, i as int),
            channels_before(sizes@, sizes@.len() as int) <= u32::MAX,
    {
        proof {
            lemma_channels_before_grows(sizes@, i + 1, sizes@.len() as int);
        }
        total += sizes[i];
    }
    if total > alsa_channels {
        return Err(ProvisionError::DoesNotFit { total, alsa_channels });
    }
    if alsa_channels > 256 {
        return Err(ProvisionError::AlsaTooWide);
    }
    let mut next: u32 = 0;
    let mut maps: Vec<Vec<u8>> = Vec::new();
    for i in 0..sizes.len()
        invariant
            next == channels_before(sizes@, i as int),
            channels_before(sizes@, sizes@.len() as int) <= 256,
            maps@.len() == i,
            forall|n: int| 0 <= n < i ==> (#[trigger] maps@[n])@ == block(sizes@, n),
    {
        proof {
            lemma_channels_before_grows(sizes@, i + 1, sizes@.len() as int);
        }
        let mut map: Vec<u8> = Vec::new();
        let mut k: u32 = 0;
        while k < sizes[i as usize]
            invariant
                i < sizes@.len(),
                k <= sizes@[i as int],
                next == channels_before(sizes@, i as int),
                next + sizes@[i as int] <= 256,
                map@ == block(sizes@, i as int).take(k as int),
            decreases sizes@[i as int] - k,
        {
            map.push((next + k) as u8);
            assert(map@ =~= block(sizes@, i as int).take(k + 1));
            k += 1;
        }
        assert(map@ =~= block(sizes@, i as int));
        maps.push(map);
        next += sizes[i];
    }
    assert(maps@.map_values(|m: Vec<u8>| m@) =~= Seq::new(
        sizes@.len(),
        |n: int| block(sizes@, n),
    ));
    Ok(maps)
}

/// The text of an IPv4 address.
pub open spec fn dotted(ip: nat) -> Seq<char> {
    dec(ip / 0x1000000) + "."@ + dec(ip / 0x10000 % 256) + "."@ + dec(ip / 256 % 256) + "."@ + dec(
        ip % 256,
    )
}

/// One number of an IPv4 address: one to three digits, at most 255, no leading zero.
pub open spec fn octet(s: Seq<char>) -> Option<nat> {
    if 1 <= s.len() <= 3 && (s.len() == 1 || s[0] != '0') {
        match digits_value(s) {
            Some(n) => if n <= 255 {
                Some(n)
            } else {
                None
            },
            None => None,
        }
    } else {
        None
    }
}

/// The IPv4 address that a text denotes.
pub open spec fn ipv4_value(s: Seq<char>) -> Option<nat> {
    let p = pieces(s, '.');
    if p.len() == 4 {
        match (octet(p[0]), octet(p[1]), octet(p[2]), octet(p[3])) {
            (Some(a), Some(b), Some(c), Some(d)) => Some(
                a * 0x1000000 + b * 0x10000 + c * 256 + d,
            ),
            _ => None,
        }
    } else {
        None
    }
}

fn read_octet(s: &str) -> (r: Option<u32>)
    ensures
        r matches Some(n) ==> octet(s@) == Some(n as nat) && n <= 255,
        r is None ==> octet(s@) is None,
{
    let len = s.unicode_len();
    if len < 1 || len > 3 {
        return None;
    }
    let first = s.get_char(0);
    if first == '+' || (len > 1 && first == '0') {
        proof {
            if digits_value(s@) is Some {
                lemma_first_is_digit(s@);
            }
        }
        return None;
    }
    match parse_unsigned(s, 255) {
        Some(n) => Some(n as u32),
        None => None,
    }
}

/// A run of digits starts with one.
pub proof fn lemma_first_is_digit(s: Seq<char>)
    requires
        s.len() > 0,
        digits_value(s) is Some,
    ensures
        digit_value(s[0]) is Some,
    decreases s.len(),
{
    if s.len() > 1 {
        lemma_first_is_digit(s.drop_last());
    }
}

fn read_ipv4(s: &str) -> (r: Option<u32>)
    ensures
        r matches Some(ip) ==> ipv4_value(s@) == Some(ip as nat),
        r is None ==> ipv4_value(s@) is None,
{
    let p = split(s, '.');
    assert(forall|i: int| 0 <= i < p@.len() ==> #[trigger] views(p@)[i] == p@[i]@);
    if p.len() != 4 {
        return None;
    }
    assert(pieces(s@, '.') == views(p@));
    match (read_octet(p[0]), read_octet(p[1]), read_octet(p[2]), read_octet(p[3])) {
        (Some(a), Some(b), Some(c), Some(d)) => Some(a * 0x1000000 + b * 0x10000 + c * 256 + d),
        _ => None,
    }
}

/// The address `n` after the one that `base` denotes.
pub fn ipv4_plus(base: &str, n: u32) -> (r: Result<String, ProvisionError>)
    requires
        ipv4_value(base@) matches Some(ip) ==> ip + n <= u32::MAX,
    ensures
        match ipv4_value(base@) {
            Some(ip) => r matches Ok(s) && s@ == dotted((ip + n) as nat),
            None => r matches Err(e) && e@ == (ErrorModel::NotAnAddress { base: base@ }),
        },
{
    match read_ipv4(base) {
        None => Err(ProvisionError::NotAnAddress { base: base.to_owned() }),
        Some(ip) => {
            let ip: u64 = (ip + n) as u64;
            let mut s = decimal(ip / 0x1000000);
            s.append(".");
            s.append(decimal(ip / 0x10000 % 256).as_str());
            s.append(".");
            s.append(decimal(ip / 256 % 256).as_str());
            s.append(".");
            s.append(decimal(ip % 256).as_str());
            Ok(s)
        },
    }
}

/// The Source that stream `id` is to be.
pub open spec fn desired_model(id: u8, map: Seq<u8>, address: Seq<char>) -> SourceModel {
    SourceModel {
        id,
        enabled: true,
        name: "Bridge TX "@ + dec((id + 1) as nat),
        io: "Audio Device"@,
        max_samples_per_packet: 48,
        codec: "L24"@,
        address,
        ttl: 15,
        payload_type: 98,
        dscp: 56,
        refclk_ptp_traceable: false,
        map,
    }
}

/// The Source that stream `id` is to be.
pub fn desired_source(id: u8, map: Vec<u8>, address: String) -> (r: DaemonSource)
    ensures
        r@ == desired_model(id, map@, address@),
{
    let mut name = "Bridge TX ".to_owned();
    name.append(decimal(id as u64 + 1).as_str());
    DaemonSource {
        id,
        enabled: true,
        name,
        io: "Audio Device".to_owned(),
        max_samples_per_packet: 48,
        codec: "L24".to_owned(),
        address,
        ttl: 15,
        payload_type: 98,
        dscp: 56,
        refclk_ptp_traceable: false,
        map,
    }
}

/// Marks the session name of a parked Sink.
pub const PARKED_PREFIX: &'static str = "mxl-bridge parked RX";

/// The SDP of a Sink that receives nothing yet.
pub open spec fn parking_text(id: u8, channels: nat, group: Seq<char>) -> Seq<char> {
    "v=0\r\no=- 0 0 IN IP4 0.0.0.0\r\ns="@ + "mxl-bridge parked RX"@ + " "@ + dec((id + 1) as nat)
        + "\r\nc=IN IP4 "@ + group + "/15\r\nt=0 0\r\nm=audio 5004 RTP/AVP 98\r\nc=IN IP4 "@ + group
        + "/15\r\na=rtpmap:98 L24/48000/"@ + dec(channels)
        + "\r\na=ptime:1\r\na=mediaclk:direct=0\r\na=recvonly\r\n"@
}

/// An SDP the daemon accepts for a Sink that receives nothing yet: `channels` of L24/48k on an
/// unused group. Marked with the session name so parked Sinks are recognisable.
pub fn parking_sdp(id: u8, channels: usize, group: &str) -> (r: String)
    ensures
        r@ == parking_text(id, channels as nat, group@),
{
    let mut s = "v=0\r\no=- 0 0 IN IP4 0.0.0.0\r\ns=".to_owned();
    s.append("mxl-bridge parked RX");
    s.append(" ");
    s.append(decimal(id as u64 + 1).as_str());
    s.append("\r\nc=IN IP4 ");
    s.append(group);
    s.append("/15\r\nt=0 0\r\nm=audio 5004 RTP/AVP 98\r\nc=IN IP4 ");
    s.append(group);
    s.append("/15\r\na=rtpmap:98 L24/48000/");
    s.append(decimal(channels as u64).as_str());
    s.append("\r\na=ptime:1\r\na=mediaclk:direct=0\r\na=recvonly\r\n");
    s
}

/// Whether a Sink is parked: its SDP carries the mark.
pub fn is_parked(sink: &DaemonSink) -> (r: bool)
    ensures
        r == occurs(sink.sdp@, "mxl-bridge parked RX"@),
{
    contains(sink.sdp.as_str(), "mxl-bridge parked RX")
}

/// The Sink of an unconnected stream.
pub open spec fn parked_model(id: u8, map: Seq<u8>, group: Seq<char>, delay: u32) -> SinkModel {
    SinkModel {
        id,
        name: "Bridge RX "@ + dec((id + 1) as nat),
        io: "Audio Device"@,
        use_sdp: true,
        source: Seq::empty(),
        sdp: parking_text(id, map.len(), group),
        delay,
        ignore_refclk_gmid: true,
        map,
    }
}

/// The Sink of an unconnected stream.
pub fn parked_sink(id: u8, map: Vec<u8>, group: &str, delay: u32) -> (r: DaemonSink)
    ensures
        r@ == parked_model(id, map@, group@, delay),
{
    let mut name = "Bridge RX ".to_owned();
    name.append(decimal(id as u64 + 1).as_str());
    DaemonSink {
        id,
        name,
        io: "Audio Device".to_owned(),
        use_sdp: true,
        source: String::new(),
        sdp: parking_sdp(id, map.len(), group),
        delay,
        ignore_refclk_gmid: true,
        map,
    }
}

/// What follows `a=rtpmap:` on the first line that starts with it.
pub open spec fn rtpmap(lines: Seq<Seq<char>>) -> Option<Seq<char>>
    decreases lines.len(),
{
    if lines.len() == 0 {
        None
    } else {
        match rtpmap(lines.drop_last()) {
            Some(v) => Some(v),
            None => stripped(trimmed(lines.last()), "a=rtpmap:"@),
        }
    }
}

/// The channel count that an SDP declares.
pub open spec fn declared_channels(sdp: Seq<char>) -> Option<nat> {
    match rtpmap(pieces(sdp, '\n')) {
        Some(v) => match unsigned_value(trimmed(pieces(v, '/').last())) {
            Some(n) => if n <= usize::MAX {
                Some(n)
            } else {
                None
            },
            None => None,
        },
        None => None,
    }
}

/// Channel count an SDP declares (`a=rtpmap:<pt> <codec>/<rate>/<channels>`).
pub fn sdp_channels(sdp: &str) -> (r: Option<usize>)
    ensures
        r matches Some(n) ==> declared_channels(sdp@) == Some(n as nat),
        r is None ==> declared_channels(sdp@) is None,
{
    let lines = split(sdp, '\n');
    let ghost all = views(lines@);
    let mut i: usize = 0;
    assert(all.take(0) =~= Seq::empty());
    while i < lines.len()
        invariant
            i <= lines@.len(),
            all == views(lines@),
            all == pieces(sdp@, '\n'),
            rtpmap(all.take(i as int)) is None,
        decreases lines@.len() - i,
    {
        assert(all.take(i + 1).drop_last() =~= all.take(i as int));
        match strip_prefix(trim(lines[i]), "a=rtpmap:") {
            Some(v) => {
                proof {
                    lemma_rtpmap_prefix(all, i + 1);
                }
                let parts = split(v, '/');
                proof {
                    assert(views(parts@).last() == parts@.last()@);
                }
                let last = trim(parts[parts.len() - 1]);
                return match parse_unsigned(last, usize::MAX as u64) {
                    Some(n) => Some(n as usize),
                    None => None,
                };
            },
            None => {},
        }
        i += 1;
    }
    assert(all.take(lines@.len() as int) =~= all);
    None
}

proof fn lemma_rtpmap_prefix(lines: Seq<Seq<char>>, k: int)
    requires
        0 <= k <= lines.len(),
        rtpmap(lines.take(k)) is Some,
    ensures
        rtpmap(lines) == rtpmap(lines.take(k)),
    decreases lines.len(),
{
    if k == lines.len() {
        assert(lines.take(k) =~= lines);
    } else {
        assert(lines.drop_last().take(k) =~= lines.take(k));
        lemma_rtpmap_prefix(lines.drop_last(), k);
    }
}

/// One step towards the declared capacity.
#[derive(Debug, Clone, PartialEq)]
pub enum Action {
    PutSource(DaemonSource),
    DeleteSource(u8),
    /// New or replaced rx stream, parked.
    PutParkedSink(DaemonSink),
    /// Same Sink with a corrected map - its SDP (and connection) kept.
    RemapSink(DaemonSink),
    DeleteSink(u8),
}

/// What an [`Action`] says.
pub enum ActionModel {
    PutSource(SourceModel),
    DeleteSource(u8),
    PutParkedSink(SinkModel),
    RemapSink(SinkModel),
    DeleteSink(u8),
}

impl View for Action {
    type V = ActionModel;

    open spec fn view(&self) -> ActionModel {
        match *self {
            Action::PutSource(s) => ActionModel::PutSource(s@),
            Action::DeleteSource(id) => ActionModel::DeleteSource(id),
            Action::PutParkedSink(s) => ActionModel::PutParkedSink(s@),
            Action::RemapSink(s) => ActionModel::RemapSink(s@),
            Action::DeleteSink(id) => ActionModel::DeleteSink(id),
        }
    }
}

/// The range of ALSA channels that a map names, as it is shown.
pub open spec fn span_text(map: Seq<u8>) -> Seq<char> {
    if map.len() == 0 {
        Seq::empty()
    } else {
        "ALSA "@ + dec(map[0] as nat) + "-"@ + dec(map.last() as nat)
    }
}

fn span(map: &Vec<u8>) -> (r: String)
    ensures
        r@ == span_text(map@),
{
    if map.len() == 0 {
        return String::new();
    }
    let mut s = "ALSA ".to_owned();
    s.append(decimal(map[0] as u64).as_str());
    s.append("-");
    s.append(decimal(map[map.len() - 1] as u64).as_str());
    s
}

/// An action, as it is shown.
pub open spec fn action_text(a: ActionModel) -> Seq<char> {
    match a {
        ActionModel::PutSource(s) => "tx "@ + dec(s.id as nat) + ": set '"@ + s.name + "' -> "@
            + s.address + " "@ + span_text(s.map) + " "@ + dec(s.map.len()) + "ch"@,
        ActionModel::DeleteSource(id) => "tx "@ + dec(id as nat)
            + ": remove (beyond declared capacity)"@,
        ActionModel::PutParkedSink(s) => "rx "@ + dec(s.id as nat) + ": create parked '"@ + s.name
            + "' "@ + span_text(s.map) + " "@ + dec(s.map.len()) + "ch"@,
        ActionModel::RemapSink(s) => "rx "@ + dec(s.id as nat) + ": set '"@ + s.name + "' to "@
            + span_text(s.map) + ", delay "@ + dec(s.delay as nat) + " (connection kept)"@,
        ActionModel::DeleteSink(id) => "rx "@ + dec(id as nat)
            + ": remove (beyond declared capacity)"@,
    }
}

impl Action {
    /// The action, as it is shown.
    pub fn to_string(&self) -> (r: String)
        ensures
            r@ == action_text(self@),
    {
        match self {
            Action::PutSource(s) => {
                let mut t = "tx ".to_owned();
                t.append(decimal(s.id as u64).as_str());
                t.append(": set '");
                t.append(s.name.as_str());
                t.append("' -> ");
                t.append(s.address.as_str());
                t.append(" ");
                t.append(span(&s.map).as_str());
                t.append(" ");
                t.append(decimal(s.map.len() as u64).as_str());
                t.append("ch");
                t
            },
            Action::DeleteSource(id) => {
                let mut t = "tx ".to_owned();
                t.append(decimal(*id as u64).as_str());
                t.append(": remove (beyond declared capacity)");
                t
            },
            Action::PutParkedSink(s) => {
                let mut t = "rx ".to_owned();
                t.append(decimal(s.id as u64).as_str());
                t.append(": create parked '");
                t.append(s.name.as_str());
                t.append("' ");
                t.append(span(&s.map).as_str());
                t.append(" ");
                t.append(decimal(s.map.len() as u64).as_str());
                t.append("ch");
                t
            },
            Action::RemapSink(s) => {
                let mut t = "rx ".to_owned();
                t.append(decimal(s.id as u64).as_str());
                t.append(": set '");
                t.append(s.name.as_str());
                t.append("' to ");
                t.append(span(&s.map).as_str());
                t.append(", delay ");
                t.append(decimal(s.delay as u64).as_str());
                t.append(" (connection kept)");
                t
            },
            Action::DeleteSink(id) => {
                let mut t = "rx ".to_owned();
                t.append(decimal(*id as u64).as_str());
                t.append(": remove (beyond declared capacity)");
                t
            },
        }
    }

    /// The daemon's path that the action is sent to.
    pub fn path(&self) -> (r: String)
        ensures
            r@ == action_path(self@),
    {
        match self {
            Action::PutSource(s) => {
                let mut t = "/api/source/".to_owned();
                t.append(decimal(s.id as u64).as_str());
                t
            },
            Action::DeleteSource(id) => {
                let mut t = "/api/source/".to_owned();
                t.append(decimal(*id as u64).as_str());
                t
            },
            Action::PutParkedSink(s) => {
                let mut t = "/api/sink/".to_owned();
                t.append(decimal(s.id as u64).as_str());
                t
            },
            Action::RemapSink(s) => {
                let mut t = "/api/sink/".to_owned();
                t.append(decimal(s.id as u64).as_str());
                t
            },
            Action::DeleteSink(id) => {
                let mut t = "/api/sink/".to_owned();
                t.append(decimal(*id as u64).as_str());
                t
            },
        }
    }
}

/// The daemon's path that an action is sent to.
pub open spec fn action_path(a: ActionModel) -> Seq<char> {
    match a {
        ActionModel::PutSource(s) => "/api/source/"@ + dec(s.id as nat),
        ActionModel::DeleteSource(id) => "/api/source/"@ + dec(id as nat),
        ActionModel::PutParkedSink(s) => "/api/sink/"@ + dec(s.id as nat),
        ActionModel::RemapSink(s) => "/api/sink/"@ + dec(s.id as nat),
        ActionModel::DeleteSink(id) => "/api/sink/"@ + dec(id as nat),
    }
}

/// The first Source with an id.
pub open spec fn source_with(sources: Seq<SourceModel>, id: u8) -> Option<SourceModel>
    decreases sources.len(),
{
    if sources.len() == 0 {
        None
    } else {
        match source_with(sources.drop_last(), id) {
            Some(s) => Some(s),
            None => if sources.last().id == id {
                Some(sources.last())
            } else {
                None
            },
        }
    }
}

/// The first Sink with an id.
pub open spec fn sink_with(sinks: Seq<SinkModel>, id: u8) -> Option<SinkModel>
    decreases sinks.len(),
{
    if sinks.len() == 0 {
        None
    } else {
        match sink_with(sinks.drop_last(), id) {
            Some(s) => Some(s),
            None => if sinks.last().id == id {
                Some(sinks.last())
            } else {
                None
            },
        }
    }
}

/// Whether a Source needs no rewrite: its map, address and codec are right. A rewrite announces its
/// SDP anew, so nothing else calls for one.
pub open spec fn source_fits(cur: Option<SourceModel>, want: SourceModel) -> bool {
    cur matches Some(c) && c.map == want.map && c.address == want.address && c.codec == want.codec
}

/// What the first `n` tx streams take.
pub open spec fn tx_actions(
    sizes: Seq<u32>,
    base: nat,
    sources: Seq<SourceModel>,
    n: int,
) -> Seq<ActionModel>
    decreases n,
{
    if n <= 0 {
        Seq::empty()
    } else {
        let before = tx_actions(sizes, base, sources, n - 1);
        let id = (n - 1) as u8;
        let want = desired_model(id, block(sizes, n - 1), dotted((base + n - 1) as nat));
        if source_fits(source_with(sources, id), want) {
            before
        } else {
            before.push(ActionModel::PutSource(want))
        }
    }
}

/// The removal of the Sources, among the first `k` listed, beyond the declared count.
pub open spec fn tx_removals(sources: Seq<SourceModel>, count: nat, k: int) -> Seq<ActionModel>
    decreases k,
{
    if k <= 0 {
        Seq::empty()
    } else {
        let before = tx_removals(sources, count, k - 1);
        if sources[k - 1].id >= count {
            before.push(ActionModel::DeleteSource(sources[k - 1].id))
        } else {
            before
        }
    }
}

/// What one rx stream takes: nothing where its map and delay are right, its own Sink with both
/// corrected where the SDP declares as many channels, else a parked Sink.
pub open spec fn rx_action(
    id: u8,
    map: Seq<u8>,
    group: Seq<char>,
    delay: u32,
    cur: Option<SinkModel>,
) -> Option<ActionModel> {
    match cur {
        None => Some(ActionModel::PutParkedSink(parked_model(id, map, group, delay))),
        Some(c) => if c.map == map && c.delay == delay {
            None
        } else if declared_channels(c.sdp) == Some(map.len()) {
            Some(ActionModel::RemapSink(SinkModel { map, delay, ..c }))
        } else {
            Some(ActionModel::PutParkedSink(parked_model(id, map, group, delay)))
        },
    }
}

/// What the first `n` rx streams take.
pub open spec fn rx_actions(
    sizes: Seq<u32>,
    group: Seq<char>,
    delay: u32,
    sinks: Seq<SinkModel>,
    n: int,
) -> Seq<ActionModel>
    decreases n,
{
    if n <= 0 {
        Seq::empty()
    } else {
        let before = rx_actions(sizes, group, delay, sinks, n - 1);
        let id = (n - 1) as u8;
        match rx_action(id, block(sizes, n - 1), group, delay, sink_with(sinks, id)) {
            Some(a) => before.push(a),
            None => before,
        }
    }
}

/// The removal of the Sinks, among the first `k` listed, beyond the declared count.
pub open spec fn rx_removals(sinks: Seq<SinkModel>, count: nat, k: int) -> Seq<ActionModel>
    decreases k,
{
    if k <= 0 {
        Seq::empty()
    } else {
        let before = rx_removals(sinks, count, k - 1);
        if sinks[k - 1].id >= count {
            before.push(ActionModel::DeleteSink(sinks[k - 1].id))
        } else {
            before
        }
    }
}

/// The playout delay that a declaration asks for.
pub open spec fn delay_of(set: StreamSet) -> u32 {
    match set.delay {
        Some(d) => d,
        None => DEFAULT_RX_DELAY,
    }
}

/// The steps for channel counts, a base address, a parking group and a delay.
pub open spec fn steps(
    tx: Seq<u32>,
    rx: Seq<u32>,
    base: nat,
    group: Seq<char>,
    delay: u32,
    sources: Seq<SourceModel>,
    sinks: Seq<SinkModel>,
) -> Seq<ActionModel> {
    tx_actions(tx, base, sources, tx.len() as int) + tx_removals(
        sources,
        tx.len(),
        sources.len() as int,
    ) + rx_actions(rx, group, delay, sinks, rx.len() as int) + rx_removals(
        sinks,
        rx.len(),
        sinks.len() as int,
    )
}

/// The channel counts of a side whose channels fit.
pub open spec fn fitting_sizes(set: StreamSet, alsa_channels: u32) -> Result<Seq<u32>, ErrorModel> {
    match sizes_model(set) {
        Err(e) => Err(e),
        Ok(sizes) => match maps_model(sizes, alsa_channels) {
            Err(e) => Err(e),
            Ok(_) => Ok(sizes),
        },
    }
}

/// What it takes to turn the daemon's streams into the declared capacity, or why it cannot be
/// done. The base address is read only where there is a tx stream to use it.
pub open spec fn plan_model(
    cap: Capacity,
    sources: Seq<SourceModel>,
    sinks: Seq<SinkModel>,
) -> Result<Seq<ActionModel>, ErrorModel> {
    match fitting_sizes(cap.tx, cap.alsa_channels) {
        Err(e) => Err(e),
        Ok(tx) => match fitting_sizes(cap.rx, cap.alsa_channels) {
            Err(e) => Err(e),
            Ok(rx) => match (cap.tx.multicast_base, cap.rx.parking_group) {
                (None, _) => Err(ErrorModel::MulticastBaseMissing),
                (Some(_), None) => Err(ErrorModel::ParkingGroupMissing),
                (Some(base), Some(group)) => if tx.len() == 0 {
                    Ok(steps(tx, rx, 0, group@, delay_of(cap.rx), sources, sinks))
                } else {
                    match ipv4_value(base@) {
                        None => Err(ErrorModel::NotAnAddress { base: base@ }),
                        Some(ip) => Ok(
                            steps(tx, rx, ip, group@, delay_of(cap.rx), sources, sinks),
                        ),
                    }
                },
            },
        },
    }
}

/// What a list of actions says.
pub open spec fn actions_model(actions: Seq<Action>) -> Seq<ActionModel> {
    actions.map_values(|a: Action| a@)
}

/// What the result of planning says.
pub open spec fn plan_result(r: Result<Vec<Action>, ProvisionError>) -> Result<
    Seq<ActionModel>,
    ErrorModel,
> {
    match r {
        Ok(v) => Ok(actions_model(v@)),
        Err(e) => Err(e@),
    }
}

/// Whether the address of every declared tx stream is one.
pub open spec fn addresses_exist(cap: Capacity) -> bool {
    match (cap.tx.multicast_base, fitting_sizes(cap.tx, cap.alsa_channels)) {
        (Some(base), Ok(tx)) => ipv4_value(base@) matches Some(ip) ==> ip + tx.len() <= 0x1_0000_0000,
        _ => true,
    }
}

/// Whether the address of every declared tx stream is one.
pub fn addresses_fit(cap: &Capacity) -> (r: bool)
    ensures
        r == addresses_exist(*cap),
{
    let base = match &cap.tx.multicast_base {
        Some(b) => b,
        None => {
            return true;
        },
    };
    let sizes = match stream_sizes(&cap.tx) {
        Ok(s) => s,
        Err(_) => {
            return true;
        },
    };
    proof {
        lemma_channels_before_bound(sizes@, sizes@.len() as int);
    }
    if channel_maps(sizes.as_slice(), cap.alsa_channels).is_err() {
        return true;
    }
    match read_ipv4(base.as_str()) {
        Some(ip) => ip as u64 + sizes.len() as u64 <= 0x1_0000_0000,
        None => true,
    }
}

fn find_source(sources: &[DaemonSource], id: u8) -> (r: Option<usize>)
    ensures
        match r {
            Some(i) => i < sources@.len() && source_with(list_model(sources@), id) == Some(
                sources@[i as int]@,
            ),
            None => source_with(list_model(sources@), id) is None,
        },
{
    let ghost all = list_model(sources@);
    let mut i: usize = 0;
    assert(all.take(0) =~= Seq::empty());
    while i < sources.len()
        invariant
            i <= sources@.len(),
            all == list_model(sources@),
            source_with(all.take(i as int), id) is None,
        decreases sources@.len() - i,
    {
        assert(all.take(i + 1).drop_last() =~= all.take(i as int));
        if sources[i].id == id {
            proof {
                lemma_source_prefix(all, i + 1, id);
            }
            return Some(i);
        }
        i += 1;
    }
    assert(all.take(sources@.len() as int) =~= all);
    None
}

proof fn lemma_source_prefix(all: Seq<SourceModel>, k: int, id: u8)
    requires
        0 <= k <= all.len(),
        source_with(all.take(k), id) is Some,
    ensures
        source_with(all, id) == source_with(all.take(k), id),
    decreases all.len(),
{
    if k == all.len() {
        assert(all.take(k) =~= all);
    } else {
        assert(all.drop_last().take(k) =~= all.take(k));
        lemma_source_prefix(all.drop_last(), k, id);
    }
}

fn find_sink(sinks: &[DaemonSink], id: u8) -> (r: Option<usize>)
    ensures
        match r {
            Some(i) => i < sinks@.len() && sink_with(list_model(sinks@), id) == Some(
                sinks@[i as int]@,
            ),
            None => sink_with(list_model(sinks@), id) is None,
        },
{
    let ghost all = list_model(sinks@);
    let mut i: usize = 0;
    assert(all.take(0) =~= Seq::empty());
    while i < sinks.len()
        invariant
            i <= sinks@.len(),
            all == list_model(sinks@),
            sink_with(all.take(i as int), id) is None,
        decreases sinks@.len() - i,
    {
        assert(all.take(i + 1).drop_last() =~= all.take(i as int));
        if sinks[i].id == id {
            proof {
                lemma_sink_prefix(all, i + 1, id);
            }
            return Some(i);
        }
        i += 1;
    }
    assert(all.take(sinks@.len() as int) =~= all);
    None
}

proof fn lemma_sink_prefix(all: Seq<SinkModel>, k: int, id: u8)
    requires
        0 <= k <= all.len(),
        sink_with(all.take(k), id) is Some,
    ensures
        sink_with(all, id) == sink_with(all.take(k), id),
    decreases all.len(),
{
    if k == all.len() {
        assert(all.take(k) =~= all);
    } else {
        assert(all.drop_last().take(k) =~= all.take(k));
        lemma_sink_prefix(all.drop_last(), k, id);
    }
}

/// Puts an action behind the others.
fn push_action(actions: &mut Vec<Action>, a: Action)
    ensures
        actions_model(final(actions)@) == actions_model(old(actions)@).push(a@),
{
    actions.push(a);
    assert(actions_model(actions@) =~= actions_model(old(actions)@).push(a@));
}

/// Plans the Sources.
fn plan_sources(
    sizes: &Vec<u32>,
    maps: &Vec<Vec<u8>>,
    base: &str,
    sources: &[DaemonSource],
    actions: &mut Vec<Action>,
) -> (r: Result<(), ProvisionError>)
    requires
        actions_model(old(actions)@) == Seq::<ActionModel>::empty(),
        sizes@.len() <= MAX_STREAMS,
        maps@.len() == sizes@.len(),
        forall|n: int| 0 <= n < maps@.len() ==> (#[trigger] maps@[n])@ == block(sizes@, n),
        ipv4_value(base@) matches Some(ip) ==> ip + sizes@.len() <= 0x1_0000_0000,
    ensures
        match r {
            Err(e) => sizes@.len() > 0 && ipv4_value(base@) is None && e@ == (
            ErrorModel::NotAnAddress { base: base@ }),
            Ok(()) => (sizes@.len() == 0 || ipv4_value(base@) is Some) && actions_model(
                final(actions)@,
            ) == tx_actions(
                sizes@,
                (if sizes@.len() == 0 {
                    0
                } else {
                    ipv4_value(base@)->0
                }),
                list_model(sources@),
                sizes@.len() as int,
            ) + tx_removals(list_model(sources@), sizes@.len(), sources@.len() as int),
        },
{
    let ghost from: nat = if sizes@.len() == 0 {
        0
    } else {
        ipv4_value(base@)->0
    };
    let ghost have = list_model(sources@);
    for i in 0..maps.len()
        invariant
            sizes@.len() <= MAX_STREAMS,
            maps@.len() == sizes@.len(),
            forall|n: int| 0 <= n < maps@.len() ==> (#[trigger] maps@[n])@ == block(sizes@, n),
            ipv4_value(base@) matches Some(ip) ==> ip + sizes@.len() <= 0x1_0000_0000,
            have == list_model(sources@),
            i > 0 ==> ipv4_value(base@) is Some,
            sizes@.len() > 0 ==> from == ipv4_value(base@)->0,
            actions_model(actions@) == tx_actions(sizes@, from, have, i as int),
    {
        let id: u8 = i as u8;
        let address = match ipv4_plus(base, i as u32) {
            Ok(a) => a,
            Err(e) => {
                return Err(e);
            },
        };
        let want = desired_source(id, copy_map(&maps[i]), address);
        let fits = match find_source(sources, id) {
            Some(k) => {
                let cur = &sources[k];
                same_map(&cur.map, &want.map) && same(cur.address.as_str(), want.address.as_str())
                    && same(cur.codec.as_str(), want.codec.as_str())
            },
            None => false,
        };
        assert(want@ == desired_model(id, block(sizes@, i as int), dotted((from + i) as nat)));
        assert(fits == source_fits(source_with(have, id), want@));
        if !fits {
            push_action(actions, Action::PutSource(want));
        }
    }
    let ghost first = actions_model(actions@);
    assert(first + tx_removals(have, sizes@.len(), 0) =~= first);
    for k in 0..sources.len()
        invariant
            have == list_model(sources@),
            actions_model(actions@) == first + tx_removals(have, sizes@.len(), k as int),
    {
        if sources[k].id as usize >= sizes.len() {
            let ghost before = actions_model(actions@);
            push_action(actions, Action::DeleteSource(sources[k].id));
            assert(actions_model(actions@) =~= first + tx_removals(have, sizes@.len(), k + 1));
        }
    }
    Ok(())
}

/// Plans the Sinks.
fn plan_sinks(
    sizes: &Vec<u32>,
    maps: &Vec<Vec<u8>>,
    group: &str,
    delay: u32,
    sinks: &[DaemonSink],
    actions: &mut Vec<Action>,
)
    requires
        sizes@.len() <= MAX_STREAMS,
        maps@.len() == sizes@.len(),
        forall|n: int| 0 <= n < maps@.len() ==> (#[trigger] maps@[n])@ == block(sizes@, n),
    ensures
        actions_model(final(actions)@) == actions_model(old(actions)@) + rx_actions(
            sizes@,
            group@,
            delay,
            list_model(sinks@),
            sizes@.len() as int,
        ) + rx_removals(list_model(sinks@), sizes@.len(), sinks@.len() as int),
{
    let ghost have = list_model(sinks@);
    let ghost first = actions_model(actions@);
    assert(first + rx_actions(sizes@, group@, delay, have, 0) =~= first);
    for i in 0..maps.len()
        invariant
            sizes@.len() <= MAX_STREAMS,
            maps@.len() == sizes@.len(),
            forall|n: int| 0 <= n < maps@.len() ==> (#[trigger] maps@[n])@ == block(sizes@, n),
            have == list_model(sinks@),
            actions_model(actions@) == first + rx_actions(sizes@, group@, delay, have, i as int),
    {
        let id: u8 = i as u8;
        let map = copy_map(&maps[i]);
        let ghost m = block(sizes@, i as int);
        let ghost done = rx_actions(sizes@, group@, delay, have, i as int);
        match find_sink(sinks, id) {
            None => {
                push_action(actions, Action::PutParkedSink(parked_sink(id, map, group, delay)));
                assert(actions_model(actions@) =~= first + done.push(
                    ActionModel::PutParkedSink(parked_model(id, m, group@, delay)),
                ));
            },
            Some(k) => {
                let cur = &sinks[k];
                assert(have[k as int] == cur@);
                if same_map(&cur.map, &map) && cur.delay == delay {
                } else {
                    let kept = match sdp_channels(cur.sdp.as_str()) {
                        Some(n) => n == map.len(),
                        None => false,
                    };
                    if kept {
                        let mut sink = cur.copy();
                        let ghost was = sink@;
                        sink.map = map;
                        sink.delay = delay;
                        assert(sink@ == (SinkModel { map: m, delay, ..was }));
                        push_action(actions, Action::RemapSink(sink));
                        assert(actions_model(actions@) =~= first + done.push(
                            ActionModel::RemapSink(SinkModel { map: m, delay, ..was }),
                        ));
                    } else {
                        push_action(
                            actions,
                            Action::PutParkedSink(parked_sink(id, map, group, delay)),
                        );
                        assert(actions_model(actions@) =~= first + done.push(
                            ActionModel::PutParkedSink(parked_model(id, m, group@, delay)),
                        ));
                    }
                }
            },
        }
    }
    let ghost second = actions_model(actions@);
    assert(second + rx_removals(have, sizes@.len(), 0) =~= second);
    for k in 0..sinks.len()
        invariant
            have == list_model(sinks@),
            actions_model(actions@) == second + rx_removals(have, sizes@.len(), k as int),
    {
        if sinks[k].id as usize >= sizes.len() {
            push_action(actions, Action::DeleteSink(sinks[k].id));
            assert(actions_model(actions@) =~= second + rx_removals(have, sizes@.len(), k + 1));
        }
    }
}

/// The channel counts of a side, with the maps that they make.
fn fitting(set: &StreamSet, alsa_channels: u32) -> (r: Result<
    (Vec<u32>, Vec<Vec<u8>>),
    ProvisionError,
>)
    ensures
        match r {
            Err(e) => fitting_sizes(*set, alsa_channels) == Err::<Seq<u32>, ErrorModel>(e@),
            Ok((sizes, maps)) => fitting_sizes(*set, alsa_channels) == Ok::<Seq<u32>, ErrorModel>(
                sizes@,
            ) && sizes@.len() <= MAX_STREAMS && maps@.len() == sizes@.len() && forall|n: int|
                0 <= n < maps@.len() ==> (#[trigger] maps@[n])@ == block(sizes@, n),
        },
{
    let sizes = match stream_sizes(set) {
        Ok(s) => s,
        Err(e) => {
            return Err(e);
        },
    };
    proof {
        lemma_channels_before_bound(sizes@, sizes@.len() as int);
    }
    match channel_maps(sizes.as_slice(), alsa_channels) {
        Ok(maps) => {
            proof {
                let views = maps@.map_values(|m: Vec<u8>| m@);
                let blocks = Seq::new(sizes@.len(), |n: int| block(sizes@, n));
                assert(views == blocks);
                assert forall|n: int| 0 <= n < maps@.len() implies (#[trigger] maps@[n])@ == block(
                    sizes@,
                    n,
                ) by {
                    assert(views[n] == maps@[n]@);
                }
            }
            Ok((sizes, maps))
        },
        Err(e) => Err(e),
    }
}

/// What it takes to turn the daemon's current streams into the declared capacity.
pub fn plan(cap: &Capacity, sources: &[DaemonSource], sinks: &[DaemonSink]) -> (r: Result<
    Vec<Action>,
    ProvisionError,
>)
    requires
        addresses_exist(*cap),
    ensures
        plan_result(r) == plan_model(*cap, list_model(sources@), list_model(sinks@)),
{
    let (tx_sizes, tx_maps) = match fitting(&cap.tx, cap.alsa_channels) {
        Ok(f) => f,
        Err(e) => {
            return Err(e);
        },
    };
    let (rx_sizes, rx_maps) = match fitting(&cap.rx, cap.alsa_channels) {
        Ok(f) => f,
        Err(e) => {
            return Err(e);
        },
    };
    let base = match &cap.tx.multicast_base {
        Some(b) => b.as_str(),
        None => {
            return Err(ProvisionError::MulticastBaseMissing);
        },
    };
    let group = match &cap.rx.parking_group {
        Some(g) => g.as_str(),
        None => {
            return Err(ProvisionError::ParkingGroupMissing);
        },
    };
    let delay: u32 = match cap.rx.delay {
        Some(d) => d,
        None => DEFAULT_RX_DELAY,
    };
    let mut actions: Vec<Action> = Vec::new();
    assert(actions_model(actions@) =~= Seq::empty());
    match plan_sources(&tx_sizes, &tx_maps, base, sources, &mut actions) {
        Ok(()) => {},
        Err(e) => {
            return Err(e);
        },
    }
    plan_sinks(&rx_sizes, &rx_maps, group, delay, sinks, &mut actions);
    Ok(actions)
}

/// A plan, with whether it is to be carried out.
#[derive(Debug, Clone, PartialEq)]
pub struct Reconciliation {
    pub actions: Vec<Action>,
    pub execute: bool,
}

/// Compares the daemon's streams with the declared capacity. The daemon must run at least the
/// declared width; the plan is to be carried out where there is something in it and the mode says
/// so.
pub fn reconcile(
    cap: &Capacity,
    daemon_alsa_channels: u32,
    sources: &[DaemonSource],
    sinks: &[DaemonSink],
) -> (r: Result<Reconciliation, ProvisionError>)
    requires
        addresses_exist(*cap),
    ensures
        match r {
            Err(e) => if daemon_alsa_channels < cap.alsa_channels {
                e@ == (ErrorModel::DaemonTooNarrow {
                    wanted: cap.alsa_channels,
                    daemon: daemon_alsa_channels,
                })
            } else {
                plan_model(*cap, list_model(sources@), list_model(sinks@)) == Err::<
                    Seq<ActionModel>,
                    ErrorModel,
                >(e@)
            },
            Ok(rec) => daemon_alsa_channels >= cap.alsa_channels && plan_model(
                *cap,
                list_model(sources@),
                list_model(sinks@),
            ) == Ok::<Seq<ActionModel>, ErrorModel>(actions_model(rec.actions@)) && rec.execute == (
            rec.actions@.len() > 0 && cap.mode == Mode::Apply),
        },
{
    if daemon_alsa_channels < cap.alsa_channels {
        return Err(
            ProvisionError::DaemonTooNarrow {
                wanted: cap.alsa_channels,
                daemon: daemon_alsa_channels,
            },
        );
    }
    match plan(cap, sources, sinks) {
        Ok(actions) => {
            let execute = actions.len() > 0 && cap.mode == Mode::Apply;
            Ok(Reconciliation { actions, execute })
        },
        Err(e) => Err(e),
    }
}

/// A Source after the daemon has carried out a list of actions.
pub open spec fn executed_source(
    cur: Option<SourceModel>,
    actions: Seq<ActionModel>,
    id: u8,
) -> Option<SourceModel>
    decreases actions.len(),
{
    if actions.len() == 0 {
        cur
    } else {
        match actions.last() {
            ActionModel::PutSource(s) if s.id == id => Some(s),
            ActionModel::DeleteSource(d) if d == id => None,
            _ => executed_source(cur, actions.drop_last(), id),
        }
    }
}

/// A Sink after the daemon has carried out a list of actions.
pub open spec fn executed_sink(
    cur: Option<SinkModel>,
    actions: Seq<ActionModel>,
    id: u8,
) -> Option<SinkModel>
    decreases actions.len(),
{
    if actions.len() == 0 {
        cur
    } else {
        match actions.last() {
            ActionModel::PutParkedSink(s) if s.id == id => Some(s),
            ActionModel::RemapSink(s) if s.id == id => Some(s),
            ActionModel::DeleteSink(d) if d == id => None,
            _ => executed_sink(cur, actions.drop_last(), id),
        }
    }
}

proof fn lemma_executed_concat(
    cur: Option<SourceModel>,
    sink: Option<SinkModel>,
    a: Seq<ActionModel>,
    b: Seq<ActionModel>,
    id: u8,
)
    ensures
        executed_source(cur, a + b, id) == executed_source(executed_source(cur, a, id), b, id),
        executed_sink(sink, a + b, id) == executed_sink(executed_sink(sink, a, id), b, id),
    decreases b.len(),
{
    if b.len() == 0 {
        assert(a + b =~= a);
    } else {
        assert((a + b).drop_last() =~= a + b.drop_last());
        lemma_executed_concat(cur, sink, a, b.drop_last(), id);
    }
}

/// What the tx steps make of the stream with an id.
proof fn lemma_executed_tx(
    sizes: Seq<u32>,
    base: nat,
    sources: Seq<SourceModel>,
    n: int,
    id: u8,
    sink: Option<SinkModel>,
)
    requires
        0 <= n <= 64,
    ensures
        ({
            let cur = source_with(sources, id);
            let want = desired_model(id, block(sizes, id as int), dotted((base + id) as nat));
            executed_source(cur, tx_actions(sizes, base, sources, n), id) == (if id >= n
                || source_fits(cur, want) {
                cur
            } else {
                Some(want)
            })
        }),
        executed_sink(sink, tx_actions(sizes, base, sources, n), id) == sink,
    decreases n,
{
    if n > 0 {
        lemma_executed_tx(sizes, base, sources, n - 1, id, sink);
        let before = tx_actions(sizes, base, sources, n - 1);
        let now = tx_actions(sizes, base, sources, n);
        if now != before {
            assert(now.drop_last() =~= before);
        }
    }
}

proof fn lemma_executed_tx_removals(
    sources: Seq<SourceModel>,
    count: nat,
    k: int,
    id: u8,
    cur: Option<SourceModel>,
    sink: Option<SinkModel>,
)
    requires
        0 <= k <= sources.len(),
    ensures
        executed_source(cur, tx_removals(sources, count, k), id) == (if id >= count && exists|j: int|
            0 <= j < k && (#[trigger] sources[j]).id == id {
            None
        } else {
            cur
        }),
        executed_sink(sink, tx_removals(sources, count, k), id) == sink,
    decreases k,
{
    if k > 0 {
        lemma_executed_tx_removals(sources, count, k - 1, id, cur, sink);
        let before = tx_removals(sources, count, k - 1);
        let now = tx_removals(sources, count, k);
        if now != before {
            assert(now.drop_last() =~= before);
        }
        if sources[k - 1].id != id && (exists|j: int|
            0 <= j < k && (#[trigger] sources[j]).id == id) {
            let j = choose|j: int| 0 <= j < k && (#[trigger] sources[j]).id == id;
            assert(j < k - 1);
        }
    }
}

/// Every list of sinks offers a sink under its own id.
proof fn lemma_sink_with(sinks: Seq<SinkModel>, id: u8)
    ensures
        sink_with(sinks, id) matches Some(s) ==> s.id == id && exists|j: int|
            0 <= j < sinks.len() && (#[trigger] sinks[j]) == s,
        sink_with(sinks, id) is None ==> forall|j: int|
            0 <= j < sinks.len() ==> (#[trigger] sinks[j]).id != id,
    decreases sinks.len(),
{
    if sinks.len() > 0 {
        lemma_sink_with(sinks.drop_last(), id);
        assert forall|j: int| 0 <= j < sinks.len() && sink_with(sinks, id) is None implies (
        #[trigger] sinks[j]).id != id by {
            if j < sinks.len() - 1 {
                assert(sinks.drop_last()[j] == sinks[j]);
            }
        }
        if let Some(s) = sink_with(sinks.drop_last(), id) {
            let j = choose|j: int|
                0 <= j < sinks.drop_last().len() && (#[trigger] sinks.drop_last()[j]) == s;
            assert(sinks[j] == s);
        }
    }
}

proof fn lemma_source_with(sources: Seq<SourceModel>, id: u8)
    ensures
        source_with(sources, id) matches Some(s) ==> s.id == id && exists|j: int|
            0 <= j < sources.len() && (#[trigger] sources[j]) == s,
        source_with(sources, id) is None ==> forall|j: int|
            0 <= j < sources.len() ==> (#[trigger] sources[j]).id != id,
    decreases sources.len(),
{
    if sources.len() > 0 {
        lemma_source_with(sources.drop_last(), id);
        assert forall|j: int| 0 <= j < sources.len() && source_with(sources, id) is None implies (
        #[trigger] sources[j]).id != id by {
            if j < sources.len() - 1 {
                assert(sources.drop_last()[j] == sources[j]);
            }
        }
        if let Some(s) = source_with(sources.drop_last(), id) {
            let j = choose|j: int|
                0 <= j < sources.drop_last().len() && (#[trigger] sources.drop_last()[j]) == s;
            assert(sources[j] == s);
        }
    }
}

proof fn lemma_executed_rx(
    sizes: Seq<u32>,
    group: Seq<char>,
    delay: u32,
    sinks: Seq<SinkModel>,
    n: int,
    id: u8,
    source: Option<SourceModel>,
)
    requires
        0 <= n <= 64,
    ensures
        ({
            let cur = sink_with(sinks, id);
            let now = executed_sink(cur, rx_actions(sizes, group, delay, sinks, n), id);
            if id >= n {
                now == cur
            } else {
                &&& now matches Some(s) && s.map == block(sizes, id as int) && s.delay == delay
                &&& now == (match rx_action(id, block(sizes, id as int), group, delay, cur) {
                    None => cur,
                    Some(ActionModel::PutParkedSink(s)) => Some(s),
                    Some(ActionModel::RemapSink(s)) => Some(s),
                    Some(_) => cur,
                })
            }
        }),
        executed_source(source, rx_actions(sizes, group, delay, sinks, n), id) == source,
    decreases n,
{
    if n > 0 {
        lemma_executed_rx(sizes, group, delay, sinks, n - 1, id, source);
        lemma_sink_with(sinks, (n - 1) as u8);
        let before = rx_actions(sizes, group, delay, sinks, n - 1);
        let now = rx_actions(sizes, group, delay, sinks, n);
        if now != before {
            assert(now.drop_last() =~= before);
        }
        if id == n - 1 {
            assert(executed_sink(sink_with(sinks, id), before, id) == sink_with(sinks, id));
        }
    }
}

proof fn lemma_executed_rx_removals(
    sinks: Seq<SinkModel>,
    count: nat,
    k: int,
    id: u8,
    cur: Option<SinkModel>,
    source: Option<SourceModel>,
)
    requires
        0 <= k <= sinks.len(),
    ensures
        executed_sink(cur, rx_removals(sinks, count, k), id) == (if id >= count && exists|j: int|
            0 <= j < k && (#[trigger] sinks[j]).id == id {
            None
        } else {
            cur
        }),
        executed_source(source, rx_removals(sinks, count, k), id) == source,
    decreases k,
{
    if k > 0 {
        lemma_executed_rx_removals(sinks, count, k - 1, id, cur, source);
        let before = rx_removals(sinks, count, k - 1);
        let now = rx_removals(sinks, count, k);
        if now != before {
            assert(now.drop_last() =~= before);
        }
        if sinks[k - 1].id != id && (exists|j: int| 0 <= j < k && (#[trigger] sinks[j]).id == id) {
            let j = choose|j: int| 0 <= j < k && (#[trigger] sinks[j]).id == id;
            assert(j < k - 1);
        }
    }
}

proof fn lemma_no_tx_actions(sizes: Seq<u32>, base: nat, sources: Seq<SourceModel>, n: int)
    requires
        0 <= n <= 64,
        forall|id: u8|
            id < n ==> source_fits(
                #[trigger] source_with(sources, id),
                desired_model(id, block(sizes, id as int), dotted((base + id) as nat)),
            ),
    ensures
        tx_actions(sizes, base, sources, n) == Seq::<ActionModel>::empty(),
    decreases n,
{
    if n > 0 {
        lemma_no_tx_actions(sizes, base, sources, n - 1);
        assert(source_fits(
            source_with(sources, (n - 1) as u8),
            desired_model((n - 1) as u8, block(sizes, n - 1), dotted((base + n - 1) as nat)),
        ));
    }
}

proof fn lemma_no_tx_removals(sources: Seq<SourceModel>, count: nat, k: int)
    requires
        0 <= k <= sources.len(),
        forall|id: u8| id >= count ==> #[trigger] source_with(sources, id) is None,
    ensures
        tx_removals(sources, count, k) == Seq::<ActionModel>::empty(),
    decreases k,
{
    if k > 0 {
        lemma_no_tx_removals(sources, count, k - 1);
        let id = sources[k - 1].id;
        lemma_source_with(sources, id);
        if id >= count {
            assert(source_with(sources, id) is None);
            assert(sources[k - 1].id != id);
        }
    }
}

proof fn lemma_no_rx_actions(
    sizes: Seq<u32>,
    group: Seq<char>,
    delay: u32,
    sinks: Seq<SinkModel>,
    n: int,
)
    requires
        0 <= n <= 64,
        forall|id: u8|
            id < n ==> (#[trigger] sink_with(sinks, id) matches Some(s) && s.map == block(
                sizes,
                id as int,
            ) && s.delay == delay),
    ensures
        rx_actions(sizes, group, delay, sinks, n) == Seq::<ActionModel>::empty(),
    decreases n,
{
    if n > 0 {
        lemma_no_rx_actions(sizes, group, delay, sinks, n - 1);
        assert(sink_with(sinks, (n - 1) as u8) is Some);
    }
}

proof fn lemma_no_rx_removals(sinks: Seq<SinkModel>, count: nat, k: int)
    requires
        0 <= k <= sinks.len(),
        forall|id: u8| id >= count ==> #[trigger] sink_with(sinks, id) is None,
    ensures
        rx_removals(sinks, count, k) == Seq::<ActionModel>::empty(),
    decreases k,
{
    if k > 0 {
        lemma_no_rx_removals(sinks, count, k - 1);
        let id = sinks[k - 1].id;
        lemma_sink_with(sinks, id);
        if id >= count {
            assert(sink_with(sinks, id) is None);
            assert(sinks[k - 1].id != id);
        }
    }
}

/// Whether the daemon has carried out a list of actions: every id now holds what the actions made
/// of it.
pub open spec fn carried_out(
    actions: Seq<ActionModel>,
    sources: Seq<SourceModel>,
    sinks: Seq<SinkModel>,
    new_sources: Seq<SourceModel>,
    new_sinks: Seq<SinkModel>,
) -> bool {
    &&& forall|id: u8| #[trigger]
        source_with(new_sources, id) == executed_source(source_with(sources, id), actions, id)
    &&& forall|id: u8| #[trigger]
        sink_with(new_sinks, id) == executed_sink(sink_with(sinks, id), actions, id)
}

/// Whether the streams with an id are as declared.
spec fn settled_id(
    tx: Seq<u32>,
    rx: Seq<u32>,
    base: nat,
    delay: u32,
    sources: Seq<SourceModel>,
    sinks: Seq<SinkModel>,
    id: u8,
) -> bool {
    let source = source_with(sources, id);
    let sink = sink_with(sinks, id);
    &&& if id < tx.len() {
        source_fits(
            source,
            desired_model(id, block(tx, id as int), dotted((base + id) as nat)),
        )
    } else {
        source is None
    }
    &&& if id < rx.len() {
        sink matches Some(s) && s.map == block(rx, id as int) && s.delay == delay
    } else {
        sink is None
    }
}

/// What a plan that was carried out makes of the streams with an id.
proof fn lemma_settled(
    cap: Capacity,
    sources: Seq<SourceModel>,
    sinks: Seq<SinkModel>,
    new_sources: Seq<SourceModel>,
    new_sinks: Seq<SinkModel>,
    id: u8,
)
    requires
        plan_model(cap, sources, sinks) is Ok,
        carried_out(plan_model(cap, sources, sinks)->Ok_0, sources, sinks, new_sources, new_sinks),
    ensures
        ({
            let tx = fitting_sizes(cap.tx, cap.alsa_channels)->Ok_0;
            let rx = fitting_sizes(cap.rx, cap.alsa_channels)->Ok_0;
            let base: nat = if tx.len() == 0 {
                0
            } else {
                ipv4_value(cap.tx.multicast_base->0@)->0
            };
            let want = desired_model(id, block(tx, id as int), dotted((base + id) as nat));
            let cur = source_with(sources, id);
            let sink = sink_with(sinks, id);
            &&& settled_id(tx, rx, base, delay_of(cap.rx), new_sources, new_sinks, id)
            &&& id < tx.len() ==> source_with(new_sources, id) == (if source_fits(cur, want) {
                cur
            } else {
                Some(want)
            })
            &&& id < rx.len() ==> sink_with(new_sinks, id) == (match rx_action(
                id,
                block(rx, id as int),
                cap.rx.parking_group->0@,
                delay_of(cap.rx),
                sink,
            ) {
                None => sink,
                Some(ActionModel::PutParkedSink(s)) => Some(s),
                Some(ActionModel::RemapSink(s)) => Some(s),
                Some(_) => sink,
            })
        }),
{
    let actions = plan_model(cap, sources, sinks)->Ok_0;
    let tx = fitting_sizes(cap.tx, cap.alsa_channels)->Ok_0;
    let rx = fitting_sizes(cap.rx, cap.alsa_channels)->Ok_0;
    let base: nat = if tx.len() == 0 {
        0
    } else {
        ipv4_value(cap.tx.multicast_base->0@)->0
    };
    let group = cap.rx.parking_group->0@;
    let delay = delay_of(cap.rx);
    let a = tx_actions(tx, base, sources, tx.len() as int);
    let b = tx_removals(sources, tx.len(), sources.len() as int);
    let c = rx_actions(rx, group, delay, sinks, rx.len() as int);
    let d = rx_removals(sinks, rx.len(), sinks.len() as int);
    assert(actions == a + b + c + d);
    let cur = source_with(sources, id);
    let sink = sink_with(sinks, id);
    lemma_executed_concat(cur, sink, a + b + c, d, id);
    lemma_executed_concat(cur, sink, a + b, c, id);
    lemma_executed_concat(cur, sink, a, b, id);
    lemma_executed_tx(tx, base, sources, tx.len() as int, id, sink);
    let after_a = executed_source(cur, a, id);
    lemma_executed_tx_removals(sources, tx.len(), sources.len() as int, id, after_a, sink);
    let after_b = executed_source(after_a, b, id);
    lemma_executed_rx(rx, group, delay, sinks, rx.len() as int, id, after_b);
    let sink_c = executed_sink(sink, c, id);
    lemma_executed_rx_removals(sinks, rx.len(), sinks.len() as int, id, sink_c, after_b);
    lemma_source_with(sources, id);
    lemma_sink_with(sinks, id);
    assert(source_with(new_sources, id) == after_b);
    assert(sink_with(new_sinks, id) == executed_sink(sink_c, d, id));
}

/// Once the daemon has carried a plan out, there is nothing left to plan.
pub proof fn law_a_plan_settles_the_daemon(
    cap: Capacity,
    sources: Seq<SourceModel>,
    sinks: Seq<SinkModel>,
    new_sources: Seq<SourceModel>,
    new_sinks: Seq<SinkModel>,
)
    requires
        plan_model(cap, sources, sinks) is Ok,
        carried_out(plan_model(cap, sources, sinks)->Ok_0, sources, sinks, new_sources, new_sinks),
    ensures
        plan_model(cap, new_sources, new_sinks) == Ok::<Seq<ActionModel>, ErrorModel>(Seq::empty()),
{
    let tx = fitting_sizes(cap.tx, cap.alsa_channels)->Ok_0;
    let rx = fitting_sizes(cap.rx, cap.alsa_channels)->Ok_0;
    let base: nat = if tx.len() == 0 {
        0
    } else {
        ipv4_value(cap.tx.multicast_base->0@)->0
    };
    let group = cap.rx.parking_group->0@;
    let delay = delay_of(cap.rx);
    assert forall|id: u8| #[trigger]
        settled_id(tx, rx, base, delay, new_sources, new_sinks, id) by {
        lemma_settled(cap, sources, sinks, new_sources, new_sinks, id);
    }
    assert forall|id: u8| id < tx.len() implies source_fits(
        #[trigger] source_with(new_sources, id),
        desired_model(id, block(tx, id as int), dotted((base + id) as nat)),
    ) by {
        assert(settled_id(tx, rx, base, delay, new_sources, new_sinks, id));
    }
    assert forall|id: u8| id >= tx.len() implies #[trigger] source_with(
        new_sources,
        id,
    ) is None by {
        assert(settled_id(tx, rx, base, delay, new_sources, new_sinks, id));
    }
    assert forall|id: u8| id < rx.len() implies (#[trigger] sink_with(new_sinks, id) matches Some(s)
        && s.map == block(rx, id as int) && s.delay == delay) by {
        assert(settled_id(tx, rx, base, delay, new_sources, new_sinks, id));
    }
    assert forall|id: u8| id >= rx.len() implies #[trigger] sink_with(new_sinks, id) is None by {
        assert(settled_id(tx, rx, base, delay, new_sources, new_sinks, id));
    }
    lemma_no_tx_actions(tx, base, new_sources, tx.len() as int);
    lemma_no_tx_removals(new_sources, tx.len(), new_sources.len() as int);
    lemma_no_rx_actions(rx, group, delay, new_sinks, rx.len() as int);
    lemma_no_rx_removals(new_sinks, rx.len(), new_sinks.len() as int);
    assert(steps(tx, rx, base, group, delay, new_sources, new_sinks) =~= Seq::empty());
}

/// A live rx stream whose SDP declares as many channels as its map keeps its SDP.
pub proof fn law_a_live_connection_is_kept(
    id: u8,
    map: Seq<u8>,
    group: Seq<char>,
    delay: u32,
    cur: SinkModel,
)
    requires
        declared_channels(cur.sdp) == Some(map.len()),
    ensures
        match rx_action(id, map, group, delay, Some(cur)) {
            None => true,
            Some(ActionModel::RemapSink(s)) => s.sdp == cur.sdp && s.name == cur.name && s.id
                == cur.id,
            _ => false,
        },
{
}

/// No two streams share an ALSA channel, and the channels of all streams are those from zero up
/// to their total.
pub proof fn law_blocks_partition_the_channels(sizes: Seq<u32>, ch: nat)
    requires
        channels_before(sizes, sizes.len() as int) <= 256,
        ch < channels_before(sizes, sizes.len() as int),
    ensures
        exists|n: int|
            0 <= n < sizes.len() && #[trigger] block(sizes, n).contains(ch as u8) && forall|m: int|
                0 <= m < sizes.len() && #[trigger] block(sizes, m).contains(ch as u8) ==> m == n,
{
    let n = stream_of(sizes, ch, sizes.len() as int);
    lemma_stream_of(sizes, ch, sizes.len() as int);
    assert(block(sizes, n)[ch - channels_before(sizes, n)] == ch as u8) by {
        lemma_channels_before_grows(sizes, n + 1, sizes.len() as int);
    }
    assert(block(sizes, n).contains(ch as u8));
    assert forall|m: int| 0 <= m < sizes.len() && #[trigger] block(sizes, m).contains(
        ch as u8,
    ) implies m == n by {
        let k = choose|k: int| 0 <= k < block(sizes, m).len() && block(sizes, m)[k] == ch as u8;
        lemma_channels_before_grows(sizes, m + 1, sizes.len() as int);
        assert(channels_before(sizes, m) + k == ch);
        if m < n {
            lemma_channels_before_grows(sizes, m + 1, n);
        } else if n < m {
            lemma_channels_before_grows(sizes, n + 1, m);
        }
    }
}

/// The stream, among the first `n`, that a channel belongs to.
spec fn stream_of(sizes: Seq<u32>, ch: nat, n: int) -> int
    decreases n,
{
    if n <= 0 {
        0
    } else if ch >= channels_before(sizes, n - 1) {
        n - 1
    } else {
        stream_of(sizes, ch, n - 1)
    }
}

proof fn lemma_stream_of(sizes: Seq<u32>, ch: nat, n: int)
    requires
        0 <= n <= sizes.len(),
        ch < channels_before(sizes, n),
    ensures
        ({
            let s = stream_of(sizes, ch, n);
            0 <= s < n && channels_before(sizes, s) <= ch < channels_before(sizes, s + 1)
        }),
    decreases n,
{
    if n > 0 && ch < channels_before(sizes, n - 1) {
        lemma_stream_of(sizes, ch, n - 1);
    }
}

/// The channels that a declaration gives to stream `n`, where it declares that many streams.
pub open spec fn declared(set: StreamSet, n: int) -> Option<u32> {
    match set.channels {
        ChannelSpec::Each(c) => if set.streams matches Some(k) && 0 <= n < k {
            Some(c)
        } else {
            None
        },
        ChannelSpec::List(v) => if 0 <= n < v@.len() {
            Some(v@[n])
        } else {
            None
        },
    }
}

/// The first channel that a declaration gives to stream `n`: the one behind those of the streams
/// before it.
pub open spec fn first_channel(set: StreamSet, n: int) -> nat
    decreases n,
{
    if n <= 0 {
        0
    } else {
        first_channel(set, n - 1) + (match declared(set, n - 1) {
            Some(c) => c as nat,
            None => 0,
        })
    }
}

/// Whether a map is that of stream `n` of a declaration: as many channels as are declared, one after
/// the other, behind those of the streams before it.
pub open spec fn is_own_run(set: StreamSet, n: int, map: Seq<u8>) -> bool {
    declared(set, n) matches Some(c) && map.len() == c && forall|k: int|
        0 <= k < c ==> #[trigger] map[k] == (first_channel(set, n) + k) as u8
}

proof fn lemma_first_channel(set: StreamSet, n: int)
    requires
        sizes_model(set) matches Ok(sizes) && 0 <= n <= sizes.len(),
    ensures
        first_channel(set, n) == channels_before(sizes_model(set)->Ok_0, n),
    decreases n,
{
    if n > 0 {
        lemma_first_channel(set, n - 1);
        law_accepted_sizes_are_the_declared_ones(set, n - 1);
    }
}

/// A declaration is accepted exactly where it says how many streams there are, where its two counts
/// agree, and where it has at most 64 streams of 1 to 64 channels each. What comes out is what was
/// declared, stream by stream.
pub proof fn law_accepted_sizes_are_the_declared_ones(set: StreamSet, n: int)
    ensures
        match sizes_model(set) {
            Ok(sizes) => {
                &&& sizes.len() <= 64
                &&& 0 <= n < sizes.len() ==> declared(set, n) == Some(sizes[n]) && 1 <= sizes[n]
                    <= 64
                &&& !(0 <= n < sizes.len()) ==> declared(set, n) is None
                &&& set.streams matches Some(k) ==> sizes.len() == k
            },
            Err(ErrorModel::ChannelsNeedStreams) => set.channels is Each && set.streams is None,
            Err(ErrorModel::CountsDiffer { streams, listed }) => set.streams == Some(streams) && (
            set.channels matches ChannelSpec::List(v) && v@.len() == listed && listed != streams),
            Err(ErrorModel::TooManyStreams { count }) => count > 64 && declared(
                set,
                count - 1,
            ) is Some && declared(set, count as int) is None,
            Err(ErrorModel::ChannelsOutOfRange) => exists|i: int|
                (#[trigger] declared(set, i)) matches Some(c) && (c < 1 || c > 64),
            Err(_) => false,
        },
{
    if let Ok(sizes) = listed_sizes(set) {
        if sizes.len() <= MAX_STREAMS && !counts_in_range(sizes) {
            let i = choose|i: int| 0 <= i < sizes.len() && !(1 <= #[trigger] sizes[i] <= 64);
            assert(declared(set, i) == Some(sizes[i]));
        }
    }
}

/// The channel maps of the streams are runs of consecutive channels: the first starts at zero, each
/// other right behind the one before it, and each is as long as its stream has channels. Maps are
/// refused only where they would reach beyond the width, or the width beyond 256.
pub proof fn law_maps_are_consecutive_runs(sizes: Seq<u32>, alsa_channels: u32)
    requires
        counts_in_range(sizes),
        channels_before(sizes, sizes.len() as int) <= u32::MAX,
    ensures
        match maps_model(sizes, alsa_channels) {
            Ok(maps) => {
                &&& alsa_channels <= 256
                &&& maps.len() == sizes.len()
                &&& maps.len() > 0 ==> maps[0][0] == 0 && maps.last().last() < alsa_channels
                &&& forall|n: int|
                    0 <= n < maps.len() ==> (#[trigger] maps[n]).len() == sizes[n]
                &&& forall|n: int, k: int|
                    0 <= n < maps.len() && 1 <= k < maps[n].len() ==> #[trigger] maps[n][k]
                        == maps[n][k - 1] + 1
                &&& forall|n: int|
                    1 <= n < maps.len() ==> (#[trigger] maps[n])[0] == maps[n - 1].last() + 1
            },
            Err(ErrorModel::DoesNotFit { total, alsa_channels: w }) => total > alsa_channels && w
                == alsa_channels,
            Err(ErrorModel::AlsaTooWide) => alsa_channels > 256,
            Err(_) => false,
        },
        channels_before(sizes, 0) == 0,
        forall|n: int|
            0 <= n < sizes.len() ==> channels_before(sizes, n + 1) == channels_before(sizes, n)
                + #[trigger] sizes[n],
{
    if let Ok(maps) = maps_model(sizes, alsa_channels) {
        let all = sizes.len() as int;
        assert forall|n: int| 0 <= n < maps.len() implies #[trigger] maps[n].len() == sizes[n]
            && channels_before(sizes, n) + sizes[n] <= alsa_channels && (n >= 1
            ==> channels_before(sizes, n) == channels_before(sizes, n - 1) + sizes[n - 1]) by {
            lemma_channels_before_grows(sizes, n + 1, all);
        }
        assert forall|n: int, k: int| 0 <= n < maps.len() && 1 <= k < maps[n].len() implies
            #[trigger] maps[n][k] == maps[n][k - 1] + 1 by {
            assert(maps[n].len() == sizes[n]);
        }
        assert forall|n: int| 1 <= n < maps.len() implies (#[trigger] maps[n])[0] == maps[n
            - 1].last() + 1 by {
            assert(maps[n - 1].len() == sizes[n - 1]);
            assert(maps[n].len() == sizes[n]);
            assert(1 <= sizes[n - 1] && 1 <= sizes[n]);
        }
        if maps.len() > 0 {
            assert(maps[maps.len() - 1].len() == sizes[maps.len() - 1]);
            assert(1 <= sizes[maps.len() - 1] && 1 <= sizes[0]);
        }
    }
}

proof fn lemma_tx_member(sizes: Seq<u32>, base: nat, sources: Seq<SourceModel>, n: int, j: int)
    requires
        0 <= n <= sizes.len() <= 64,
        0 <= j < tx_actions(sizes, base, sources, n).len(),
    ensures
        tx_actions(sizes, base, sources, n)[j] matches ActionModel::PutSource(s) && s.id < n && s
            == desired_model(s.id, block(sizes, s.id as int), dotted((base + s.id) as nat))
            && !source_fits(source_with(sources, s.id), s),
    decreases n,
{
    if n > 0 {
        let before = tx_actions(sizes, base, sources, n - 1);
        if j < before.len() {
            lemma_tx_member(sizes, base, sources, n - 1, j);
        }
    }
}

proof fn lemma_tx_removal(sources: Seq<SourceModel>, count: nat, k: int, j: int)
    requires
        0 <= k <= sources.len(),
        0 <= j < tx_removals(sources, count, k).len(),
    ensures
        tx_removals(sources, count, k)[j] matches ActionModel::DeleteSource(id) && id >= count
            && exists|i: int| 0 <= i < sources.len() && (#[trigger] sources[i]).id == id,
    decreases k,
{
    if k > 0 {
        let before = tx_removals(sources, count, k - 1);
        if j < before.len() {
            lemma_tx_removal(sources, count, k - 1, j);
        } else {
            assert(sources[k - 1].id >= count);
        }
    }
}

proof fn lemma_rx_member(
    sizes: Seq<u32>,
    group: Seq<char>,
    delay: u32,
    sinks: Seq<SinkModel>,
    n: int,
    j: int,
)
    requires
        0 <= n <= sizes.len() <= 64,
        0 <= j < rx_actions(sizes, group, delay, sinks, n).len(),
    ensures
        exists|id: u8|
            id < n && #[trigger] rx_action(
                id,
                block(sizes, id as int),
                group,
                delay,
                sink_with(sinks, id),
            ) == Some(rx_actions(sizes, group, delay, sinks, n)[j]),
    decreases n,
{
    if n > 0 {
        let before = rx_actions(sizes, group, delay, sinks, n - 1);
        let id = (n - 1) as u8;
        if j < before.len() {
            lemma_rx_member(sizes, group, delay, sinks, n - 1, j);
        } else {
            assert(rx_action(id, block(sizes, id as int), group, delay, sink_with(sinks, id))
                == Some(rx_actions(sizes, group, delay, sinks, n)[j]));
        }
    }
}

proof fn lemma_rx_removal(sinks: Seq<SinkModel>, count: nat, k: int, j: int)
    requires
        0 <= k <= sinks.len(),
        0 <= j < rx_removals(sinks, count, k).len(),
    ensures
        rx_removals(sinks, count, k)[j] matches ActionModel::DeleteSink(id) && id >= count
            && exists|i: int| 0 <= i < sinks.len() && (#[trigger] sinks[i]).id == id,
    decreases k,
{
    if k > 0 {
        let before = rx_removals(sinks, count, k - 1);
        if j < before.len() {
            lemma_rx_removal(sinks, count, k - 1, j);
        } else {
            assert(sinks[k - 1].id >= count);
        }
    }
}

/// Every tx stream that a plan puts transmits: it is switched on, sends 24-bit samples, 48 to a
/// packet, from the device, to an address of its own, and has the declared channels. It is put only
/// where the daemon has no such Source, or one with another map, address or codec.
pub open spec fn transmits(
    cap: Capacity,
    sources: Seq<SourceModel>,
    s: SourceModel,
) -> bool {
    &&& s.enabled
    &&& s.codec == "L24"@
    &&& s.max_samples_per_packet == 48
    &&& s.io == "Audio Device"@
    &&& s.ttl == 15
    &&& s.payload_type == 98
    &&& s.dscp == 56
    &&& !s.refclk_ptp_traceable
    &&& s.name == "Bridge TX "@ + dec((s.id + 1) as nat)
    &&& is_own_run(cap.tx, s.id as int, s.map)
    &&& cap.tx.multicast_base matches Some(base) && ipv4_value(base@) matches Some(ip) && s.address
        == dotted((ip + s.id) as nat)
    &&& forall|i: int|
        0 <= i < sources.len() && (#[trigger] sources[i]).id == s.id && (forall|j: int|
            0 <= j < i ==> (#[trigger] sources[j]).id != s.id) ==> sources[i].map != s.map
            || sources[i].address != s.address || sources[i].codec != s.codec
}

/// Whether a Sink waits for a connection: it takes its SDP, which carries the mark of a parked
/// stream, and has the declared channels and the declared delay, which is 576 samples where none is
/// declared. No Sink with an SDP for as many channels is parked.
pub open spec fn waits(cap: Capacity, sinks: Seq<SinkModel>, s: SinkModel) -> bool {
    &&& s.use_sdp
    &&& s.ignore_refclk_gmid
    &&& s.io == "Audio Device"@
    &&& s.source.len() == 0
    &&& s.name == "Bridge RX "@ + dec((s.id + 1) as nat)
    &&& cap.rx.parking_group matches Some(group) && s.sdp == parking_text(
        s.id,
        s.map.len(),
        group@,
    )
    &&& s.delay == cap.rx.delay.unwrap_or(576)
    &&& is_own_run(cap.rx, s.id as int, s.map)
    &&& forall|i: int|
        0 <= i < sinks.len() && (#[trigger] sinks[i]).id == s.id && (forall|j: int|
            0 <= j < i ==> (#[trigger] sinks[j]).id != s.id) ==> declared_channels(sinks[i].sdp)
            != Some(s.map.len())
}

/// Whether a Sink is one that the daemon has, connected as it was, with nothing but its map and its
/// delay set to what is declared.
pub open spec fn stays_connected(cap: Capacity, sinks: Seq<SinkModel>, s: SinkModel) -> bool {
    &&& s.delay == cap.rx.delay.unwrap_or(576)
    &&& is_own_run(cap.rx, s.id as int, s.map)
    &&& exists|i: int|
        0 <= i < sinks.len() && {
            let c = #[trigger] sinks[i];
            &&& c.id == s.id
            &&& c.sdp == s.sdp
            &&& c.name == s.name
            &&& c.io == s.io
            &&& c.use_sdp == s.use_sdp
            &&& c.source == s.source
            &&& c.ignore_refclk_gmid == s.ignore_refclk_gmid
            &&& c.map != s.map || c.delay != s.delay
        }
}

proof fn lemma_first_source(sources: Seq<SourceModel>, id: u8, i: int)
    requires
        0 <= i < sources.len(),
        sources[i].id == id,
        forall|j: int| 0 <= j < i ==> (#[trigger] sources[j]).id != id,
    ensures
        source_with(sources, id) == Some(sources[i]),
    decreases sources.len(),
{
    let before = sources.drop_last();
    if i < before.len() {
        assert(before[i] == sources[i]);
        assert forall|j: int| 0 <= j < i implies (#[trigger] before[j]).id != id by {
            assert(before[j] == sources[j]);
        }
        lemma_first_source(before, id, i);
    } else {
        lemma_source_with(before, id);
        if source_with(before, id) is Some {
            let s = source_with(before, id)->0;
            let j = choose|j: int| 0 <= j < before.len() && (#[trigger] before[j]) == s;
            assert(sources[j] == s);
        }
    }
}

proof fn lemma_first_sink(sinks: Seq<SinkModel>, id: u8, i: int)
    requires
        0 <= i < sinks.len(),
        sinks[i].id == id,
        forall|j: int| 0 <= j < i ==> (#[trigger] sinks[j]).id != id,
    ensures
        sink_with(sinks, id) == Some(sinks[i]),
    decreases sinks.len(),
{
    let before = sinks.drop_last();
    if i < before.len() {
        assert(before[i] == sinks[i]);
        assert forall|j: int| 0 <= j < i implies (#[trigger] before[j]).id != id by {
            assert(before[j] == sinks[j]);
        }
        lemma_first_sink(before, id, i);
    } else {
        lemma_sink_with(before, id);
        if sink_with(before, id) is Some {
            let s = sink_with(before, id)->0;
            let j = choose|j: int| 0 <= j < before.len() && (#[trigger] before[j]) == s;
            assert(sinks[j] == s);
        }
    }
}

/// What a plan may hold: tx streams that transmit, rx streams that wait or stay connected, and the
/// removal of streams that the daemon has and nobody declared.
pub proof fn law_planned_steps_are_called_for(
    cap: Capacity,
    sources: Seq<SourceModel>,
    sinks: Seq<SinkModel>,
    k: int,
)
    requires
        plan_model(cap, sources, sinks) matches Ok(actions) && 0 <= k < actions.len(),
    ensures
        match plan_model(cap, sources, sinks)->Ok_0[k] {
            ActionModel::PutSource(s) => transmits(cap, sources, s),
            ActionModel::DeleteSource(id) => declared(cap.tx, id as int) is None && exists|i: int|
                0 <= i < sources.len() && (#[trigger] sources[i]).id == id,
            ActionModel::PutParkedSink(s) => waits(cap, sinks, s),
            ActionModel::RemapSink(s) => stays_connected(cap, sinks, s),
            ActionModel::DeleteSink(id) => declared(cap.rx, id as int) is None && exists|i: int|
                0 <= i < sinks.len() && (#[trigger] sinks[i]).id == id,
        },
{
    let actions = plan_model(cap, sources, sinks)->Ok_0;
    let tx = fitting_sizes(cap.tx, cap.alsa_channels)->Ok_0;
    let rx = fitting_sizes(cap.rx, cap.alsa_channels)->Ok_0;
    let base: nat = if tx.len() == 0 {
        0
    } else {
        ipv4_value(cap.tx.multicast_base->0@)->0
    };
    let group = cap.rx.parking_group->0@;
    let delay = delay_of(cap.rx);
    assert(delay == cap.rx.delay.unwrap_or(576));
    let a = tx_actions(tx, base, sources, tx.len() as int);
    let b = tx_removals(sources, tx.len(), sources.len() as int);
    let c = rx_actions(rx, group, delay, sinks, rx.len() as int);
    let d = rx_removals(sinks, rx.len(), sinks.len() as int);
    assert(actions == a + b + c + d);
    if k < a.len() {
        lemma_tx_member(tx, base, sources, tx.len() as int, k);
        let s = a[k]->PutSource_0;
        law_accepted_sizes_are_the_declared_ones(cap.tx, s.id as int);
        lemma_first_channel(cap.tx, s.id as int);
        assert forall|i: int|
            0 <= i < sources.len() && (#[trigger] sources[i]).id == s.id && (forall|j: int|
                0 <= j < i ==> (#[trigger] sources[j]).id != s.id) implies sources[i].map != s.map
            || sources[i].address != s.address || sources[i].codec != s.codec by {
            lemma_first_source(sources, s.id, i);
        }
    } else if k < a.len() + b.len() {
        lemma_tx_removal(sources, tx.len(), sources.len() as int, k - a.len());
        law_accepted_sizes_are_the_declared_ones(
            cap.tx,
            b[k - a.len()]->DeleteSource_0 as int,
        );
    } else if k < a.len() + b.len() + c.len() {
        let j = k - a.len() - b.len();
        lemma_rx_member(rx, group, delay, sinks, rx.len() as int, j);
        let id = choose|id: u8|
            id < rx.len() && #[trigger] rx_action(
                id,
                block(rx, id as int),
                group,
                delay,
                sink_with(sinks, id),
            ) == Some(c[j]);
        lemma_sink_with(sinks, id);
        law_accepted_sizes_are_the_declared_ones(cap.rx, id as int);
        lemma_first_channel(cap.rx, id as int);
        if let ActionModel::PutParkedSink(s) = c[j] {
            assert forall|i: int|
                0 <= i < sinks.len() && (#[trigger] sinks[i]).id == s.id && (forall|j: int|
                    0 <= j < i ==> (#[trigger] sinks[j]).id != s.id) implies declared_channels(
                sinks[i].sdp,
            ) != Some(s.map.len()) by {
                lemma_first_sink(sinks, s.id, i);
            }
        } else {
            let cur = sink_with(sinks, id)->0;
            let i = choose|i: int| 0 <= i < sinks.len() && (#[trigger] sinks[i]) == cur;
            assert(sinks[i].id == id);
        }
    } else {
        lemma_rx_removal(sinks, rx.len(), sinks.len() as int, k - a.len() - b.len() - c.len());
        law_accepted_sizes_are_the_declared_ones(
            cap.rx,
            d[k - a.len() - b.len() - c.len()]->DeleteSink_0 as int,
        );
    }
}

/// What the daemon runs once it has carried a plan out: one Source for each declared tx stream and
/// one Sink for each declared rx stream, with the declared channels, and no others. Every tx stream
/// transmits, but for one that was switched off while its map, address and codec were right: a
/// rewrite would announce it anew. An rx stream whose SDP declared the right number of channels is
/// still connected to what it was connected to.
pub proof fn law_a_plan_brings_about_the_capacity(
    cap: Capacity,
    sources: Seq<SourceModel>,
    sinks: Seq<SinkModel>,
    new_sources: Seq<SourceModel>,
    new_sinks: Seq<SinkModel>,
    id: u8,
)
    requires
        plan_model(cap, sources, sinks) is Ok,
        carried_out(plan_model(cap, sources, sinks)->Ok_0, sources, sinks, new_sources, new_sinks),
    ensures
        match declared(cap.tx, id as int) {
            Some(c) => source_with(new_sources, id) matches Some(s) && {
                &&& s.id == id
                &&& is_own_run(cap.tx, id as int, s.map)
                &&& s.codec == "L24"@
                &&& cap.tx.multicast_base matches Some(base) && ipv4_value(base@) matches Some(ip)
                    && s.address == dotted((ip + id) as nat)
                &&& s.enabled && s.max_samples_per_packet == 48 || source_with(sources, id)
                    == Some(s)
            },
            None => source_with(new_sources, id) is None,
        },
        match declared(cap.rx, id as int) {
            Some(c) => sink_with(new_sinks, id) matches Some(s) && {
                &&& s.id == id
                &&& is_own_run(cap.rx, id as int, s.map)
                &&& s.delay == cap.rx.delay.unwrap_or(576)
                &&& sink_with(sinks, id) matches Some(was) ==> (declared_channels(was.sdp) == Some(
                    c as nat,
                ) ==> s.sdp == was.sdp && s.name == was.name)
            },
            None => sink_with(new_sinks, id) is None,
        },
{
    lemma_settled(cap, sources, sinks, new_sources, new_sinks, id);
    law_accepted_sizes_are_the_declared_ones(cap.tx, id as int);
    law_accepted_sizes_are_the_declared_ones(cap.rx, id as int);
    if declared(cap.tx, id as int) is Some {
        lemma_first_channel(cap.tx, id as int);
    }
    if declared(cap.rx, id as int) is Some {
        lemma_first_channel(cap.rx, id as int);
    }
    lemma_source_with(sources, id);
    lemma_sink_with(sinks, id);
}

proof fn lemma_octet(n: nat)
    requires
        n <= 255,
    ensures
        octet(dec(n)) == Some(n),
        !dec(n).contains('.'),
{
    lemma_dec_value(n);
    if dec(n).contains('.') {
        let i = choose|i: int| 0 <= i < dec(n).len() && dec(n)[i] == '.';
        lemma_dec_digits(n, i);
    }
    if n >= 10 {
        assert(dec(n) == dec(n / 10).push(digit_char(n % 10)));
        if n >= 100 {
            assert(dec(n / 10) == dec(n / 10 / 10).push(digit_char(n / 10 % 10)));
        }
    }
}

/// An address that is written out reads as the same address, so two addresses are never written
/// alike.
pub proof fn law_addresses_read_back(ip: nat)
    requires
        ip < 0x1_0000_0000,
    ensures
        ipv4_value(dotted(ip)) == Some(ip),
{
    let a = dec(ip / 0x1000000);
    let b = dec(ip / 0x10000 % 256);
    let c = dec(ip / 256 % 256);
    let d = dec(ip % 256);
    lemma_octet(ip / 0x1000000);
    lemma_octet(ip / 0x10000 % 256);
    lemma_octet(ip / 256 % 256);
    lemma_octet(ip % 256);
    reveal_strlit(".");
    let ab = a.push('.') + b;
    let abc = ab.push('.') + c;
    assert(dotted(ip) =~= abc.push('.') + d);
    lemma_pieces_one(a, '.');
    lemma_pieces_next(a, b, '.');
    lemma_pieces_next(ab, c, '.');
    lemma_pieces_next(abc, d, '.');
    let p = pieces(dotted(ip), '.');
    assert(p == seq![a].push(b).push(c).push(d));
    assert(ip / 0x10000 == ip / 0x1000000 * 256 + ip / 0x10000 % 256);
    assert(ip / 256 == ip / 0x10000 * 256 + ip / 256 % 256);
}

} // verus!
