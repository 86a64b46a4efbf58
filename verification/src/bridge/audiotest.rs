//! The audio test: a noise pattern whose every sample is known, the command line, and the packets
//! that carry audio on the wire.

use vstd::prelude::*;

use crate::text::{parse_unsigned, same, unsigned_value};

verus! {

/// The frames that are written or read at once.
pub const BLOCK: usize = 480;

/// The bits of a sample of the pattern: its amplitude is below two to the power of twenty.
pub const PATTERN_BITS: u32 = 21;

/// The splitmix64 function.
pub open spec fn mixed(z: u64) -> u64 {
    let a = z.wrapping_add(0x9E37_79B9_7F4A_7C15);
    let b = (a ^ (a >> 30)).wrapping_mul(0xBF58_476D_1CE4_E5B9);
    let c = (b ^ (b >> 27)).wrapping_mul(0x94D0_49BB_1331_11EB);
    c ^ (c >> 31)
}

fn splitmix64(z: u64) -> (r: u64)
    ensures
        r == mixed(z),
{
    let a: u64 = z.wrapping_add(0x9E37_79B9_7F4A_7C15);
    let b: u64 = (a ^ (a >> 30)).wrapping_mul(0xBF58_476D_1CE4_E5B9);
    let c: u64 = (b ^ (b >> 27)).wrapping_mul(0x94D0_49BB_1331_11EB);
    c ^ (c >> 31)
}

/// The sample of the pattern on a channel at an index: the highest bits of a hash of both.
pub open spec fn pattern_sample(seed: u64, channel: u32, index: u64) -> int {
    (mixed(seed ^ ((channel as u64) << 48) ^ index) >> 43) - 0x10_0000
}

/// The sample of the pattern on a channel at an index.
pub fn pattern(seed: u64, channel: u32, index: u64) -> (r: i32)
    ensures
        r == pattern_sample(seed, channel, index),
{
    let h: u64 = splitmix64(seed ^ ((channel as u64) << 48) ^ index);
    assert(h >> 43 < 0x20_0000) by (bit_vector);
    (h >> 43) as i32 - 0x10_0000
}

/// Every sample of the pattern lies within two to the power of twenty of zero, so that a
/// single-precision number holds it exactly.
pub proof fn law_pattern_is_bounded(seed: u64, channel: u32, index: u64)
    ensures
        -0x10_0000 <= pattern_sample(seed, channel, index) < 0x10_0000,
{
    let h = mixed(seed ^ ((channel as u64) << 48) ^ index);
    assert(h >> 43 < 0x20_0000) by (bit_vector);
}

/// One block of the pattern, channel by channel.
pub fn pattern_block(seed: u64, channels: u32, first: u64) -> (r: Vec<Vec<i32>>)
    requires
        first + BLOCK <= u64::MAX,
    ensures
        r@.len() == channels,
        forall|ch: int|
            0 <= ch < channels ==> (#[trigger] r@[ch])@ == Seq::new(
                BLOCK as nat,
                |k: int| pattern_sample(seed, ch as u32, (first + k) as u64) as i32,
            ),
{
    let mut out: Vec<Vec<i32>> = Vec::new();
    for ch in 0..channels
        invariant
            first + BLOCK <= u64::MAX,
            out@.len() == ch,
            forall|c: int|
                0 <= c < ch ==> (#[trigger] out@[c])@ == Seq::new(
                    BLOCK as nat,
                    |k: int| pattern_sample(seed, c as u32, (first + k) as u64) as i32,
                ),
    {
        let mut block: Vec<i32> = Vec::new();
        for k in 0..BLOCK
            invariant
                first + BLOCK <= u64::MAX,
                block@.len() == k,
                forall|j: int|
                    0 <= j < k ==> #[trigger] block@[j] == pattern_sample(
                        seed,
                        ch,
                        (first + j) as u64,
                    ),
        {
            block.push(pattern(seed, ch, first + k as u64));
        }
        proof {
            let want = Seq::new(
                BLOCK as nat,
                |k: int| pattern_sample(seed, ch as u32, (first + k) as u64) as i32,
            );
            assert forall|j: int| 0 <= j < BLOCK implies block@[j] == want[j] by {
                law_pattern_is_bounded(seed, ch, (first + j) as u64);
            }
            assert(block@ =~= want);
        }
        out.push(block);
    }
    out
}

/// Whether another block of the pattern is due: it is not past the end, and the clock has reached
/// its end.
pub fn block_due(next: u64, end: u64, now: u64) -> (r: bool)
    ensures
        r == (next < end && next + BLOCK <= now),
{
    next < end && now >= BLOCK as u64 && next <= now - BLOCK as u64
}

/// Where the pattern starts: one block behind now, as a capture would.
pub fn first_index(now: u64) -> (r: u64)
    ensures
        r == (if now >= BLOCK {
            now - BLOCK
        } else {
            0
        }),
{
    if now >= BLOCK as u64 {
        now - BLOCK as u64
    } else {
        0
    }
}

/// How many frames are dumped: whole blocks.
pub fn whole_blocks(frames: usize) -> (r: usize)
    ensures
        r <= frames,
        frames - r < BLOCK,
        r % BLOCK == 0,
{
    let n: usize = frames / BLOCK;
    assert((n * 480) % 480 == 0) by (nonlinear_arith)
        requires
            n >= 0,
    ;
    n * BLOCK
}

/// The end of the first range that is dumped: a tenth of a second behind the head at 48 kHz, which
/// is written already.
pub fn dump_end(head: u64) -> (r: u64)
    ensures
        r == (if head >= 4800 {
            head - 4800
        } else {
            0
        }),
{
    if head >= 4800 {
        head - 4800
    } else {
        0
    }
}

/// The index of the first sample of the range that ends at `end`, where there are so many.
pub fn dump_first(end: u64) -> (r: Option<u64>)
    ensures
        r == (if end + 1 >= BLOCK {
            Some((end + 1 - BLOCK) as u64)
        } else {
            None
        }),
{
    if end >= BLOCK as u64 - 1 {
        Some(end - (BLOCK as u64 - 1))
    } else {
        None
    }
}

/// What the command line asks for. A number that is none is not there; the seconds are not read
/// here.
#[derive(Debug)]
pub enum Command<'a> {
    Generate {
        config: &'a str,
        flow: &'a str,
        channels: Option<u32>,
        seconds: &'a str,
        seed: Option<u64>,
    },
    Dump { config: &'a str, flow: &'a str, width: Option<u64>, seconds: &'a str },
    Capture { iface: &'a str, group: &'a str, port: Option<u16>, seconds: &'a str },
    Usage,
}

/// The whole number up to a limit that a text denotes.
pub open spec fn number(s: Seq<char>, max: int) -> Option<int> {
    match unsigned_value(s) {
        Some(n) => if n <= max {
            Some(n as int)
        } else {
            None
        },
        None => None,
    }
}

/// Whether the command line is that of a command.
pub open spec fn names(args: Seq<String>, command: Seq<char>, len: nat) -> bool {
    args.len() == len && args[0]@ == command
}

/// Reads the command line.
pub fn run<'a>(args: &'a [String]) -> (r: Command<'a>)
    ensures
        match r {
            Command::Generate { config, flow, channels, seconds, seed } => {
                &&& names(args@, "gen"@, 6)
                &&& config@ == args@[1]@
                &&& flow@ == args@[2]@
                &&& match channels {
                    Some(n) => number(args@[3]@, u32::MAX as int) == Some(n as int),
                    None => number(args@[3]@, u32::MAX as int) is None,
                }
                &&& seconds@ == args@[4]@
                &&& match seed {
                    Some(n) => number(args@[5]@, u64::MAX as int) == Some(n as int),
                    None => number(args@[5]@, u64::MAX as int) is None,
                }
            },
            Command::Dump { config, flow, width, seconds } => {
                &&& names(args@, "dump"@, 5)
                &&& config@ == args@[1]@
                &&& flow@ == args@[2]@
                &&& match width {
                    Some(n) => number(args@[3]@, u64::MAX as int) == Some(n as int),
                    None => number(args@[3]@, u64::MAX as int) is None,
                }
                &&& seconds@ == args@[4]@
            },
            Command::Capture { iface, group, port, seconds } => {
                &&& names(args@, "capture"@, 5)
                &&& iface@ == args@[1]@
                &&& group@ == args@[2]@
                &&& match port {
                    Some(n) => number(args@[3]@, u16::MAX as int) == Some(n as int),
                    None => number(args@[3]@, u16::MAX as int) is None,
                }
                &&& seconds@ == args@[4]@
            },
            Command::Usage => !names(args@, "gen"@, 6) && !names(args@, "dump"@, 5) && !names(
                args@,
                "capture"@,
                5,
            ),
        },
{
    if args.len() == 6 && same(args[0].as_str(), "gen") {
        let channels: Option<u32> = match parse_unsigned(args[3].as_str(), 4294967295) {
            Some(n) => Some(n as u32),
            None => None,
        };
        return Command::Generate {
            config: args[1].as_str(),
            flow: args[2].as_str(),
            channels,
            seconds: args[4].as_str(),
            seed: parse_unsigned(args[5].as_str(), 18446744073709551615),
        };
    }
    if args.len() == 5 && same(args[0].as_str(), "dump") {
        return Command::Dump {
            config: args[1].as_str(),
            flow: args[2].as_str(),
            width: parse_unsigned(args[3].as_str(), 18446744073709551615),
            seconds: args[4].as_str(),
        };
    }
    if args.len() == 5 && same(args[0].as_str(), "capture") {
        let port: Option<u16> = match parse_unsigned(args[3].as_str(), 65535) {
            Some(n) => Some(n as u16),
            None => None,
        };
        return Command::Capture {
            iface: args[1].as_str(),
            group: args[2].as_str(),
            port,
            seconds: args[4].as_str(),
        };
    }
    Command::Usage
}

/// Two bytes as a number, the higher first.
pub open spec fn be16(f: Seq<u8>, i: int) -> int {
    f[i] * 256 + f[i + 1]
}

/// Four bytes as a number, the highest first.
pub open spec fn be32(f: Seq<u8>, i: int) -> int {
    f[i] * 16777216 + f[i + 1] * 65536 + f[i + 2] * 256 + f[i + 3]
}

fn read_be16(f: &[u8], i: usize) -> (r: u16)
    requires
        i + 1 < f@.len(),
    ensures
        r == be16(f@, i as int),
{
    f[i] as u16 * 256 + f[i + 1] as u16
}

fn read_be32(f: &[u8], i: usize) -> (r: u32)
    requires
        i + 3 < f@.len(),
    ensures
        r == be32(f@, i as int),
{
    f[i] as u32 * 16777216 + f[i + 1] as u32 * 65536 + f[i + 2] as u32 * 256 + f[i + 3] as u32
}

/// A packet of audio within a frame: its sequence number, its time stamp, and where its payload
/// starts and ends.
#[derive(Clone, Copy, Debug, PartialEq, Eq, Structural)]
pub struct RtpPacket {
    pub seq: u16,
    pub timestamp: u32,
    pub start: usize,
    pub end: usize,
}

/// Where the network layer starts in a frame: behind one tag, where there is one.
pub open spec fn ip_start(f: Seq<u8>) -> int {
    if be16(f, 12) == 0x8100 {
        18
    } else {
        14
    }
}

/// The type of what a frame carries, behind one tag, where there is one.
pub open spec fn ether_type(f: Seq<u8>) -> int {
    if be16(f, 12) == 0x8100 {
        be16(f, 16)
    } else {
        be16(f, 12)
    }
}

/// Where the transport layer starts in a frame.
pub open spec fn udp_start(f: Seq<u8>) -> int {
    ip_start(f) + (f[ip_start(f)] & 0x0f) * 4
}

/// Whether a frame carries a datagram to an address and a port, long enough for a packet's header.
pub open spec fn is_datagram(f: Seq<u8>, group: Seq<u8>, port: u16) -> bool {
    let off = ip_start(f);
    let udp = udp_start(f);
    &&& f.len() >= 34
    &&& ether_type(f) == 0x0800
    &&& f.len() >= off + 20
    &&& f[off + 9] == 17
    &&& f.subrange(off + 16, off + 20) == group
    &&& f.len() >= udp + 20
    &&& be16(f, udp + 2) == port
}

/// Where the payload of a packet starts: behind the header, the contributing sources and the
/// extension, where there is one.
pub open spec fn payload_start(f: Seq<u8>, rtp: int) -> int {
    let fixed = rtp + 12 + 4 * (f[rtp] & 0x0f);
    if f[rtp] & 0x10 != 0 && f.len() >= fixed + 4 {
        fixed + 4 + 4 * be16(f, fixed + 2)
    } else {
        fixed
    }
}

/// The packet that a frame carries to an address and a port.
pub open spec fn parsed_rtp(f: Seq<u8>, group: Seq<u8>, port: u16) -> Option<RtpPacket> {
    let udp = udp_start(f);
    let rtp = udp + 8;
    let start = payload_start(f, rtp);
    let end = udp + be16(f, udp + 4);
    if is_datagram(f, group, port) && start <= end && end <= f.len() {
        Some(
            RtpPacket {
                seq: be16(f, rtp + 2) as u16,
                timestamp: be32(f, rtp + 4) as u32,
                start: start as usize,
                end: end as usize,
            },
        )
    } else {
        None
    }
}

/// The packet that a frame carries to an address and a port.
pub fn parse_rtp(f: &[u8], group: [u8; 4], port: u16) -> (r: Option<RtpPacket>)
    ensures
        r == parsed_rtp(f@, group@, port),
        r matches Some(p) ==> p.start <= p.end <= f@.len(),
{
    if f.len() < 34 {
        return None;
    }
    let mut off: usize = 14;
    let mut kind: u16 = read_be16(f, 12);
    if kind == 0x8100 {
        kind = read_be16(f, 16);
        off = 18;
    }
    if kind != 0x0800 || f.len() < off + 20 || f[off + 9] != 17 {
        return None;
    }
    let ours = f[off + 16] == group[0] && f[off + 17] == group[1] && f[off + 18] == group[2]
        && f[off + 19] == group[3];
    proof {
        let there = f@.subrange(off + 16, off + 20);
        assert(there[0] == f@[off + 16] && there[1] == f@[off + 17] && there[2] == f@[off + 18]
            && there[3] == f@[off + 19]);
        if ours {
            assert(there =~= group@);
        }
        let x: u8 = f@[off as int];
        assert(x & 0x0f <= 15) by (bit_vector);
    }
    if !ours {
        return None;
    }
    let words: u8 = f[off] & 0x0f;
    let udp: usize = off + words as usize * 4;
    if f.len() < udp + 20 || read_be16(f, udp + 2) != port {
        return None;
    }
    let rtp: usize = udp + 8;
    proof {
        let x: u8 = f@[rtp as int];
        assert(x & 0x0f <= 15) by (bit_vector);
    }
    let sources: u8 = f[rtp] & 0x0f;
    let mut start: usize = rtp + 12 + 4 * sources as usize;
    if f[rtp] & 0x10 != 0 && f.len() >= start + 4 {
        start = start + 4 + 4 * read_be16(f, start + 2) as usize;
    }
    let end: usize = udp + read_be16(f, udp + 4) as usize;
    if start > end || end > f.len() {
        return None;
    }
    Some(RtpPacket { seq: read_be16(f, rtp + 2), timestamp: read_be32(f, rtp + 4), start, end })
}

/// The lowest `n` bytes of a number, the lowest first.
pub open spec fn le_bytes(x: nat, n: nat) -> Seq<u8>
    decreases n,
{
    if n == 0 {
        Seq::empty()
    } else {
        seq![(x % 256) as u8] + le_bytes(x / 256, (n - 1) as nat)
    }
}

fn put_le(out: &mut Vec<u8>, x: u64, n: usize)
    ensures
        final(out)@ == old(out)@ + le_bytes(x as nat, n as nat),
{
    let ghost was = out@;
    let mut rest: u64 = x;
    let mut i: usize = 0;
    assert(was + le_bytes(x as nat, n as nat) =~= out@ + le_bytes(rest as nat, n as nat));
    while i < n
        invariant
            i <= n,
            was + le_bytes(x as nat, n as nat) == out@ + le_bytes(rest as nat, (n - i) as nat),
        decreases n - i,
    {
        let b: u8 = (rest % 256) as u8;
        let ghost before = out@;
        out.push(b);
        assert(before + (seq![b] + le_bytes((rest / 256) as nat, (n - i - 1) as nat)) =~= out@
            + le_bytes((rest / 256) as nat, (n - i - 1) as nat));
        rest = rest / 256;
        i += 1;
    }
    assert(out@ + le_bytes(rest as nat, 0) =~= out@);
}

/// What is recorded of a packet: when it was seen, its time stamp, its sequence number, the length
/// of its payload, and the payload.
pub open spec fn record(time: u64, f: Seq<u8>, p: RtpPacket) -> Seq<u8> {
    le_bytes(time as nat, 8) + le_bytes(p.timestamp as nat, 4) + le_bytes(p.seq as nat, 2)
        + le_bytes(((p.end - p.start) as u16) as nat, 2) + f.subrange(
        p.start as int,
        p.end as int,
    )
}

/// What is recorded of a packet.
pub fn rtp_record(time: u64, f: &[u8], p: &RtpPacket) -> (r: Vec<u8>)
    requires
        p.start <= p.end <= f@.len(),
    ensures
        r@ == record(time, f@, *p),
{
    let mut out: Vec<u8> = Vec::new();
    put_le(&mut out, time, 8);
    put_le(&mut out, p.timestamp as u64, 4);
    put_le(&mut out, p.seq as u64, 2);
    put_le(&mut out, (p.end - p.start) as u16 as u64, 2);
    let ghost head = out@;
    assert(head =~= le_bytes(time as nat, 8) + le_bytes(p.timestamp as nat, 4) + le_bytes(
        p.seq as nat,
        2,
    ) + le_bytes(((p.end - p.start) as u16) as nat, 2));
    for i in p.start..p.end
        invariant
            p.start <= p.end <= f@.len(),
            out@ == head + f@.subrange(p.start as int, i as int),
    {
        out.push(f[i]);
        assert(out@ =~= head + f@.subrange(p.start as int, i + 1));
    }
    out
}

} // verus!
