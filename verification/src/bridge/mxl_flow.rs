//! The ids of the bridge's resources, the definitions of its flows, and where in a flow it writes
//! and reads.

use vstd::prelude::*;
use vstd::string::*;

use crate::ids::{numbered_id, prefixed_id, stable, stable_id};
use crate::json::{whole, Doc, Json};
use crate::nmos::{id_doc, id_json, rate_doc, rate_json};
use crate::text::dec;
use crate::uuid::{name_based, Uuid};

verus! {

/// The node.
pub fn node_id() -> (r: Uuid)
    ensures
        r.bits == stable("mxl-bridge-node"@),
{
    stable_id("mxl-bridge-node")
}

/// The device.
pub fn device_id() -> (r: Uuid)
    ensures
        r.bits == stable("mxl-bridge-device"@),
{
    stable_id("mxl-bridge-device")
}

/// The source that mirrors a daemon Sink.
pub fn sink_source_id(daemon_id: u8) -> (r: Uuid)
    ensures
        r.bits == stable("mxl-bridge-sink-source:"@ + dec(daemon_id as nat)),
{
    numbered_id("mxl-bridge-sink-source:", daemon_id as u64)
}

/// The flow that mirrors a daemon Sink.
pub fn sink_flow_id(daemon_id: u8) -> (r: Uuid)
    ensures
        r.bits == stable("mxl-bridge-sink-flow:"@ + dec(daemon_id as nat)),
        name_based(r.bits),
{
    numbered_id("mxl-bridge-sink-flow:", daemon_id as u64)
}

/// The sender that mirrors a daemon Sink.
pub fn sink_sender_id(daemon_id: u8) -> (r: Uuid)
    ensures
        r.bits == stable("mxl-bridge-sink-sender:"@ + dec(daemon_id as nat)),
{
    numbered_id("mxl-bridge-sink-sender:", daemon_id as u64)
}

/// The receiver that mirrors a daemon Source.
pub fn source_receiver_id(daemon_id: u8) -> (r: Uuid)
    ensures
        r.bits == stable("mxl-bridge-source-receiver:"@ + dec(daemon_id as nat)),
{
    numbered_id("mxl-bridge-source-receiver:", daemon_id as u64)
}

/// The flow that the bridge writes for a packed-RX name.
pub fn packed_rx_flow_id(name: &str) -> (r: Uuid)
    ensures
        r.bits == stable("mxl-bridge-packed-rx-flow:"@ + name@),
{
    prefixed_id("mxl-bridge-packed-rx-flow:", name)
}

/// The source of the flow that the bridge writes for a packed-RX name.
pub fn packed_rx_source_id(name: &str) -> (r: Uuid)
    ensures
        r.bits == stable("mxl-bridge-packed-rx-source:"@ + name@),
{
    prefixed_id("mxl-bridge-packed-rx-source:", name)
}

/// The flow that the bridge reads for a packed-TX name.
pub fn packed_tx_flow_id(name: &str) -> (r: Uuid)
    ensures
        r.bits == stable("mxl-bridge-packed-tx-flow:"@ + name@),
{
    prefixed_id("mxl-bridge-packed-tx-flow:", name)
}

/// The definition of an audio flow. All flows share one group: its hint does not depend on the
/// label.
pub open spec fn flow_def(
    sample_rate: u32,
    flow_id: Uuid,
    source_id: Uuid,
    device_id: Uuid,
    label: Seq<char>,
    channel_count: u32,
) -> Doc {
    Doc::object().with("id"@, id_doc(flow_id)).with("device_id"@, id_doc(device_id)).with(
        "source_id"@,
        id_doc(source_id),
    ).with("label"@, Doc::Text(label)).with(
        "description"@,
        Doc::Text(label + " (bridged from AES67 via mxl-bridge)"@),
    ).with("format"@, Doc::Text("urn:x-nmos:format:audio"@)).with(
        "media_type"@,
        Doc::Text("audio/float32"@),
    ).with("sample_rate"@, rate_doc(sample_rate)).with(
        "channel_count"@,
        Doc::Number(whole(channel_count as u64)),
    ).with("bit_depth"@, Doc::Number(whole(32))).with("parents"@, Doc::none()).with(
        "tags"@,
        Doc::object().with(
            "urn:x-nmos:tag:grouphint/v1.0"@,
            Doc::one(Doc::Text("device:mxl-bridge"@)),
        ),
    )
}

/// The definition of an audio flow.
pub fn build_audio_flow_def(
    sample_rate: u32,
    flow_id: &Uuid,
    source_id: &Uuid,
    device_id: &Uuid,
    label: &str,
    channel_count: u32,
) -> (r: Json)
    ensures
        r@ == flow_def(sample_rate, *flow_id, *source_id, *device_id, label@, channel_count),
{
    let mut description = label.to_owned();
    description.append(" (bridged from AES67 via mxl-bridge)");
    Json::new_object().with("id", id_json(flow_id)).with("device_id", id_json(device_id)).with(
        "source_id",
        id_json(source_id),
    ).with("label", Json::text(label)).with("description", Json::Text(description)).with(
        "format",
        Json::text("urn:x-nmos:format:audio"),
    ).with("media_type", Json::text("audio/float32")).with(
        "sample_rate",
        rate_json(sample_rate),
    ).with("channel_count", Json::whole(channel_count as u64)).with(
        "bit_depth",
        Json::whole(32),
    ).with("parents", Json::none()).with(
        "tags",
        Json::new_object().with(
            "urn:x-nmos:tag:grouphint/v1.0",
            Json::one(Json::text("device:mxl-bridge")),
        ),
    )
}

/// How far a counted index may be from that of the clock at 48 kHz: five milliseconds.
pub const DRIFT_TOLERANCE_SAMPLES_AT_48K: u64 = 240;

/// How far a counted index may be from that of the clock.
pub open spec fn drift_tolerance(numerator: u32, denominator: u32) -> int {
    (240 * numerator as int) / (if denominator == 0 {
        1
    } else {
        48000 * denominator as int
    })
}

/// How far a counted index may be from that of the clock, at a rate.
pub fn drift_tolerance_samples(numerator: u32, denominator: u32) -> (r: u64)
    ensures
        r == drift_tolerance(numerator, denominator),
{
    let d: u64 = if denominator == 0 {
        1
    } else {
        48_000 * denominator as u64
    };
    DRIFT_TOLERANCE_SAMPLES_AT_48K * numerator as u64 / d
}

/// The distance of two indices.
pub open spec fn distance(a: u64, b: u64) -> int {
    if a < b {
        b - a
    } else {
        a - b
    }
}

fn apart(a: u64, b: u64) -> (r: u64)
    ensures
        r == distance(a, b),
{
    if a < b {
        b - a
    } else {
        a - b
    }
}

/// `a` less `b`, but not less than zero.
pub open spec fn less(a: u64, b: int) -> int {
    if a >= b {
        a - b
    } else {
        0
    }
}

/// The index of the first sample of a block that was just captured: the block ends where the frames
/// that are still pending begin, and those end now.
pub fn capture_start_index(now: u64, pending_frames: u64, count: usize) -> (r: u64)
    requires
        pending_frames + count <= u64::MAX,
    ensures
        r == less(now, pending_frames + count),
{
    let behind: u64 = pending_frames + count as u64;
    if now >= behind {
        now - behind
    } else {
        0
    }
}

/// A captured block is never stamped into the future: its last sample is before the pending ones.
pub proof fn law_capture_is_in_the_past(now: u64, pending_frames: u64, count: usize)
    requires
        pending_frames + count <= now,
    ensures
        less(now, pending_frames + count) + count + pending_frames == now,
{
}

/// The samples since the epoch, at a rate, of a time in seconds and nanoseconds.
pub fn tai_index(sec: u64, nsec: u32, rate: u32) -> (r: u64)
    requires
        sec * rate + nsec * rate / 1_000_000_000 <= u64::MAX,
    ensures
        r == sec * rate + nsec * rate / 1_000_000_000,
{
    proof {
        assert(sec * rate >= 0) by (nonlinear_arith);
        assert(nsec * rate <= 0xffff_ffff * 0xffff_ffff) by (nonlinear_arith)
            requires
                0 <= nsec <= 0xffff_ffff,
                0 <= rate <= 0xffff_ffff,
        ;
        assert(nsec * rate >= 0) by (nonlinear_arith);
    }
    sec * rate as u64 + nsec as u64 * rate as u64 / 1_000_000_000
}

/// The nanoseconds since the epoch of a time in seconds and nanoseconds.
pub fn tai_ns(sec: u64, nsec: u32) -> (r: u64)
    requires
        sec * 1_000_000_000 + nsec <= u64::MAX,
    ensures
        r == sec * 1_000_000_000 + nsec,
{
    sec * 1_000_000_000 + nsec as u64
}

/// The version of a resource that changed at a time in nanoseconds.
pub fn version_at(ns: u64) -> (r: (u64, u64))
    ensures
        r.0 * 1_000_000_000 + r.1 == ns,
        r.1 < 1_000_000_000,
{
    (ns / 1_000_000_000, ns % 1_000_000_000)
}

/// Where a flow is written next. The count goes on from block to block, but never far from the
/// clock.
#[derive(Clone, Copy, Debug, PartialEq, Eq, Structural)]
pub struct WriteIndex {
    pub next_index: Option<u64>,
}

/// Where a count goes on behind a block.
pub open spec fn behind(index: u64, count: usize) -> Option<u64> {
    Some((index + count) as u64)
}

/// Where a block of a flow starts: where the last one ended, or where the clock says, where that is
/// more than the tolerance away.
pub open spec fn write_start(next: Option<u64>, clock: u64, tolerance: int) -> u64 {
    match next {
        Some(i) => if distance(i, clock) <= tolerance {
            i
        } else {
            clock
        },
        None => clock,
    }
}

impl WriteIndex {
    /// Nothing was written yet.
    pub fn new() -> (r: Self)
        ensures
            r.next_index is None,
    {
        WriteIndex { next_index: None }
    }

    /// The index of the first sample of a block that was just captured, at a rate in whole samples
    /// per second.
    pub fn start(&self, now: u64, pending_frames: u64, count: usize, sample_rate: u32) -> (r: u64)
        requires
            pending_frames + count <= u64::MAX,
        ensures
            r == write_start(
                self.next_index,
                less(now, pending_frames + count) as u64,
                drift_tolerance(sample_rate, 1),
            ),
    {
        let clock: u64 = capture_start_index(now, pending_frames, count);
        match self.next_index {
            Some(i) => if apart(i, clock) <= drift_tolerance_samples(sample_rate, 1) {
                i
            } else {
                clock
            },
            None => clock,
        }
    }

    /// Whether the block is stamped anew because the count went astray.
    pub fn astray(&self, now: u64, pending_frames: u64, count: usize, sample_rate: u32) -> (r: bool)
        requires
            pending_frames + count <= u64::MAX,
        ensures
            r == (self.next_index matches Some(i) && distance(
                i,
                less(now, pending_frames + count) as u64,
            ) > drift_tolerance(sample_rate, 1)),
    {
        match self.next_index {
            Some(i) => apart(i, capture_start_index(now, pending_frames, count))
                > drift_tolerance_samples(sample_rate, 1),
            None => false,
        }
    }

    /// A block was written.
    pub fn wrote(&mut self, index: u64, count: usize)
        requires
            index + count <= u64::MAX,
        ensures
            final(self).next_index == behind(index, count),
    {
        self.next_index = Some(index + count as u64);
    }
}

/// The index that is written at is never further from the clock than the tolerance.
pub proof fn law_writing_keeps_to_the_clock(next: Option<u64>, clock: u64, tolerance: int)
    requires
        tolerance >= 0,
    ensures
        distance(write_start(next, clock, tolerance), clock) <= tolerance,
{
}

/// Where a flow is read next.
#[derive(Clone, Copy, Debug, PartialEq, Eq, Structural)]
pub struct ReadIndex {
    pub next_index: Option<u64>,
}

/// Where reading aims at: `delay` behind now or what the writer has written, whichever is older.
/// Fast writers are read `delay` behind now, and those that lag get their own lag on top.
pub open spec fn read_target(head: u64, now: u64, delay: u64) -> int {
    less(
        if head < now {
            head
        } else {
            now
        },
        delay as int,
    )
}

/// The end of the next range to read: where the last one leads, or the target where that is more
/// than the tolerance away.
pub open spec fn read_end(next: Option<u64>, target: int, tolerance: u64) -> int {
    match next {
        Some(i) => if distance(i, target as u64) <= tolerance {
            i as int
        } else {
            target
        },
        None => target,
    }
}

/// Where reading goes on where nothing but the count matters.
pub open spec fn followed(next: Option<u64>, head: u64) -> u64 {
    match next {
        Some(i) => i,
        None => head,
    }
}

impl ReadIndex {
    /// Nothing was read yet.
    pub fn new() -> (r: Self)
        ensures
            r.next_index is None,
    {
        ReadIndex { next_index: None }
    }

    /// The end of the next range to read, near the target.
    pub fn aligned(&self, head: u64, now: u64, delay: u64, tolerance: u64) -> (r: u64)
        ensures
            r == read_end(self.next_index, read_target(head, now, delay), tolerance),
    {
        let older: u64 = if head < now {
            head
        } else {
            now
        };
        let target: u64 = if older >= delay {
            older - delay
        } else {
            0
        };
        match self.next_index {
            Some(i) => if apart(i, target) <= tolerance {
                i
            } else {
                target
            },
            None => target,
        }
    }

    /// The next range to read where nothing but the count matters: it starts at the head.
    pub fn following(&self, head: u64) -> (r: u64)
        ensures
            r == followed(self.next_index, head),
    {
        match self.next_index {
            Some(i) => i,
            None => head,
        }
    }

    /// A range was read.
    pub fn read(&mut self, index: u64, count: usize)
        requires
            index + count <= u64::MAX,
        ensures
            final(self).next_index == behind(index, count),
    {
        self.next_index = Some(index + count as u64);
    }

    /// Forgets where reading was: the next read starts at its target again.
    pub fn realign(&mut self)
        ensures
            final(self).next_index is None,
    {
        self.next_index = None;
    }

    /// Goes to the head of the flow.
    pub fn resync_to_head(&mut self, head: u64)
        ensures
            final(self).next_index == Some(head),
    {
        self.next_index = Some(head);
    }
}

/// Reading never ends further from its target than the tolerance, and never aims beyond what is
/// there to be read.
pub proof fn law_reading_keeps_to_its_target(
    next: Option<u64>,
    head: u64,
    now: u64,
    delay: u64,
    tolerance: u64,
)
    ensures
        distance(
            read_end(next, read_target(head, now, delay), tolerance) as u64,
            read_target(head, now, delay) as u64,
        ) <= tolerance,
        read_target(head, now, delay) <= head,
        read_target(head, now, delay) <= now,
{
}

/// Reading goes on where it was while that is within the tolerance of the target, on either side,
/// so that no sample is skipped or repeated. It jumps only on the first read, and where it has come
/// further away; then it jumps to the target.
pub proof fn law_reading_is_continuous(
    next: Option<u64>,
    head: u64,
    now: u64,
    delay: u64,
    tolerance: u64,
)
    ensures
        ({
            let target = read_target(head, now, delay);
            let end = read_end(next, target, tolerance);
            match next {
                Some(i) => {
                    &&& i - tolerance <= target <= i + tolerance ==> end == i
                    &&& target < i - tolerance || target > i + tolerance ==> end == target
                },
                None => end == target,
            }
        }),
{
}

/// The target is as far behind the clock as is asked for where the writer keeps up with the clock,
/// and as far behind the writer where it does not; it is never before the start of the flow.
pub proof fn law_target_is_behind_the_older(head: u64, now: u64, delay: u64)
    ensures
        now <= head && delay <= now ==> read_target(head, now, delay) + delay == now,
        head <= now && delay <= head ==> read_target(head, now, delay) + delay == head,
        delay > now || delay > head ==> read_target(head, now, delay) == 0,
{
}

/// Writing goes on where it was while that is within the tolerance of the clock, on either side, and
/// is stamped by the clock otherwise.
pub proof fn law_writing_is_continuous(next: Option<u64>, clock: u64, tolerance: int)
    ensures
        match next {
            Some(i) => {
                &&& i - tolerance <= clock <= i + tolerance ==> write_start(next, clock, tolerance)
                    == i
                &&& clock < i - tolerance || clock > i + tolerance ==> write_start(
                    next,
                    clock,
                    tolerance,
                ) == clock
            },
            None => write_start(next, clock, tolerance) == clock,
        },
{
}

/// Where a block would begin before the first sample of a flow, it begins with that one.
pub proof fn law_capture_starts_within_the_flow(now: u64, pending_frames: u64, count: usize)
    requires
        pending_frames + count >= now,
    ensures
        less(now, pending_frames + count) == 0,
{
}

/// The tolerance is five milliseconds: 240 samples of 48000 in a second, and as much of any other
/// rate, in whole samples.
pub proof fn law_tolerance_is_five_milliseconds(numerator: u32, denominator: u32)
    requires
        denominator > 0,
    ensures
        ({
            let t = drift_tolerance(numerator, denominator);
            t * 200 * denominator <= numerator < (t + 1) * 200 * denominator
        }),
{
    let d = 48000 * denominator as int;
    let n = 240 * numerator as int;
    let t = n / d;
    assert(t * d <= n < (t + 1) * d) by (nonlinear_arith)
        requires
            d > 0,
            t == n / d,
    ;
    assert(t * d == 240 * (t * 200 * denominator)) by (nonlinear_arith)
        requires
            d == 48000 * denominator as int,
    ;
    assert((t + 1) * d == 240 * ((t + 1) * 200 * denominator)) by (nonlinear_arith)
        requires
            d == 48000 * denominator as int,
    ;
}

/// Blocks follow each other without a gap and without an overlap: the one after a block begins with
/// the sample behind its last one, as long as the count is within the tolerance of the target or
/// the clock. The first block begins at the target, at the clock, or at the head.
pub proof fn law_blocks_follow_each_other(
    index: u64,
    count: usize,
    target: u64,
    clock: u64,
    head: u64,
    tolerance: u64,
)
    requires
        index + count <= u64::MAX,
    ensures
        index + count - tolerance <= target <= index + count + tolerance ==> read_end(
            behind(index, count),
            target as int,
            tolerance,
        ) == index + count,
        index + count - tolerance <= clock <= index + count + tolerance ==> write_start(
            behind(index, count),
            clock,
            tolerance as int,
        ) == index + count,
        followed(behind(index, count), head) == index + count,
        followed(None, head) == head,
{
}

} // verus!
