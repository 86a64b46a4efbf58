//! What holds of the way of the samples between the device and the flows.

use vstd::prelude::*;

use crate::bridge::alsa_capture::{column, picked};
use crate::bridge::alsa_playback::{
    after_failure, after_success, before_reading, frames_to_play, packed_scattered, recovered,
    report_due, scattered, with_column, with_targets, DelayRule, PlaybackModel, Recoveries,
};

verus! {

proof fn lemma_place(channels: int, frame: int, ch: int)
    requires
        0 <= ch < channels,
        0 <= frame,
    ensures
        (frame * channels + ch) % channels == ch,
        (frame * channels + ch) / channels == frame,
{
    vstd::arithmetic::div_mod::lemma_fundamental_div_mod_converse(
        frame * channels + ch,
        channels,
        frame,
        ch,
    );
}

/// Every sample of an interleaved block is found in the channel that it belongs to, at its frame.
pub proof fn law_no_captured_sample_is_lost<T>(block: Seq<T>, channels: nat, frames: nat, p: int)
    requires
        channels > 0,
        0 <= p < frames * channels,
    ensures
        column(block, channels, frames, p % (channels as int)).len() == frames,
        0 <= p / (channels as int) < frames,
        column(block, channels, frames, p % (channels as int))[p / (channels as int)] == block[p],
{
    let c = channels as int;
    vstd::arithmetic::div_mod::lemma_fundamental_div_mod(p, c);
    assert(c * (p / c) == (p / c) * c) by (nonlinear_arith);
    assert(0 <= p / c < frames) by (nonlinear_arith)
        requires
            c > 0,
            0 <= p < frames * c,
            p == c * (p / c) + p % c,
            0 <= p % c < c,
    ;
}

/// A Sink gets the channel of the device that its map names; a channel that the device does not
/// have is silent.
pub proof fn law_a_sink_gets_its_channels<T>(
    planar: Seq<Vec<T>>,
    ch: u8,
    frames: nat,
    silence: T,
    k: int,
)
    ensures
        ch < planar.len() ==> picked(planar, ch, frames, silence) == planar[ch as int]@,
        ch >= planar.len() ==> picked(planar, ch, frames, silence).len() == frames && (0 <= k
            < frames ==> picked(planar, ch, frames, silence)[k] == silence),
{
}

/// Writing a channel into a block sets the samples of that channel, frame by frame, and no others.
proof fn lemma_column_written<T>(
    block: Seq<T>,
    channels: nat,
    frames: nat,
    ch: int,
    samples: Seq<T>,
    frame: int,
    other: int,
    p: int,
)
    requires
        0 <= ch < channels,
        0 <= other < channels,
        0 <= frame,
        p == frame * channels + other,
        p < block.len(),
    ensures
        with_column(block, channels, frames, ch, samples).len() == block.len(),
        with_column(block, channels, frames, ch, samples)[p] == (if other
            == ch && frame < frames {
            samples[frame]
        } else {
            block[p]
        }),
{
    lemma_place(channels as int, frame, other);
    assert(0 <= frame * channels) by (nonlinear_arith)
        requires
            0 <= frame,
    ;
}

/// Whether an entry of a map is the last one, among those with samples, that names a channel.
pub open spec fn names_last(map: Seq<u8>, n: nat, k: int, ch: int) -> bool {
    &&& 0 <= k < map.len()
    &&& k < n
    &&& map[k] == ch
    &&& forall|j: int| k < j < map.len() && j < n ==> (#[trigger] map[j]) != ch
}

/// What was read for a Source goes to the channels of the device that its map names: each of its
/// channels, frame by frame, where no later entry of the map names the same channel. A channel of
/// the device that the map does not name is left as it was.
pub proof fn law_a_source_is_played_by_its_map<T>(
    block: Seq<T>,
    channels: nat,
    frames: nat,
    map: Seq<u8>,
    planar: Seq<Vec<T>>,
    frame: int,
    ch: int,
    p: int,
)
    requires
        0 <= ch < channels,
        0 <= frame,
        p == frame * channels + ch,
        0 <= p < block.len(),
    ensures
        scattered(block, channels, frames, map, planar).len() == block.len(),
        forall|k: int| #[trigger]
            names_last(map, planar.len(), k, ch) && frame < frames ==> scattered(
                block,
                channels,
                frames,
                map,
                planar,
            )[p] == planar[k]@[frame],
        (forall|j: int| 0 <= j < map.len() && j < planar.len() ==> (#[trigger] map[j]) != ch)
            || frame >= frames ==> scattered(block, channels, frames, map, planar)[p] == block[p],
    decreases map.len(),
{
    if map.len() > 0 {
        let rest = map.drop_last();
        law_a_source_is_played_by_its_map(block, channels, frames, rest, planar, frame, ch, p);
        let before = scattered(block, channels, frames, rest, planar);
        let last = map.len() - 1;
        assert(forall|j: int| 0 <= j < rest.len() ==> #[trigger] rest[j] == map[j]);
        assert(map[last] == map.last());
        if map.last() < channels && last < planar.len() {
            lemma_column_written(
                before,
                channels,
                frames,
                map.last() as int,
                planar[last]@,
                frame,
                ch,
                p,
            );
        }
        let now = scattered(block, channels, frames, map, planar);
        assert forall|k: int| #[trigger]
            names_last(map, planar.len(), k, ch) && frame < frames implies now[p]
            == planar[k]@[frame] by {
            if k < last {
                assert forall|j: int| k < j < rest.len() && j < planar.len() implies (
                #[trigger] rest[j]) != ch by {
                    assert(rest[j] == map[j]);
                }
                assert(rest[k] == map[k]);
                assert(names_last(rest, planar.len(), k, ch));
            }
        }
    }
}

/// A slot of a packed flow goes to all of its targets and to nothing else.
proof fn lemma_targets_written<T>(
    block: Seq<T>,
    channels: nat,
    frames: nat,
    targets: Seq<usize>,
    samples: Seq<T>,
    frame: int,
    ch: int,
    p: int,
)
    requires
        0 <= ch < channels,
        0 <= frame,
        p == frame * channels + ch,
        0 <= p < block.len(),
    ensures
        with_targets(block, channels, frames, targets, samples).len() == block.len(),
        with_targets(block, channels, frames, targets, samples)[p] == (if frame
            < frames && exists|j: int| 0 <= j < targets.len() && #[trigger] targets[j] == ch {
            samples[frame]
        } else {
            block[p]
        }),
    decreases targets.len(),
{
    if targets.len() > 0 {
        let rest = targets.drop_last();
        lemma_targets_written(block, channels, frames, rest, samples, frame, ch, p);
        assert(forall|j: int| 0 <= j < rest.len() ==> rest[j] == targets[j]);
        assert(targets[targets.len() - 1] == targets.last());
        let before = with_targets(block, channels, frames, rest, samples);
        if targets.last() < channels {
            lemma_column_written(
                before,
                channels,
                frames,
                targets.last() as int,
                samples,
                frame,
                ch,
                p,
            );
        }
        if exists|j: int| 0 <= j < targets.len() && #[trigger] targets[j] == ch {
            let j = choose|j: int| 0 <= j < targets.len() && #[trigger] targets[j] == ch;
            if j < rest.len() {
                assert(rest[j] == ch);
            }
        }
    }
}

/// Whether a slot of a packed flow goes to a channel of the device.
pub open spec fn goes_to(table: Seq<Vec<usize>>, slot: int, ch: int) -> bool {
    exists|j: int| 0 <= j < table[slot]@.len() && #[trigger] table[slot]@[j] == ch
}

/// A packed flow is played by its table: a channel of the device gets the last of the slots that go
/// to it, frame by frame, and a channel that none goes to is left as it was.
pub proof fn law_a_packed_flow_is_played_by_its_table<T>(
    block: Seq<T>,
    channels: nat,
    frames: nat,
    table: Seq<Vec<usize>>,
    planar: Seq<Vec<T>>,
    frame: int,
    ch: int,
    p: int,
)
    requires
        0 <= ch < channels,
        0 <= frame,
        p == frame * channels + ch,
        0 <= p < block.len(),
    ensures
        packed_scattered(block, channels, frames, table, planar).len() == block.len(),
        forall|slot: int|
            0 <= slot < table.len() && slot < planar.len() && #[trigger] goes_to(table, slot, ch)
                && (forall|s: int|
                slot < s < table.len() && s < planar.len() ==> !#[trigger] goes_to(table, s, ch))
                && frame < frames ==> packed_scattered(block, channels, frames, table, planar)[p] == planar[slot]@[frame],
        (forall|s: int|
            0 <= s < table.len() && s < planar.len() ==> !#[trigger] goes_to(table, s, ch))
            || frame >= frames ==> packed_scattered(block, channels, frames, table, planar)[p] == block[p],
    decreases table.len(),
{
    if table.len() > 0 {
        let rest = table.drop_last();
        let last = table.len() - 1;
        law_a_packed_flow_is_played_by_its_table(
            block,
            channels,
            frames,
            rest,
            planar,
            frame,
            ch,
            p,
        );
        assert forall|s: int| 0 <= s < last implies goes_to(rest, s, ch) == goes_to(
            table,
            s,
            ch,
        ) by {
            assert(rest[s] == table[s]);
        }
        let before = packed_scattered(block, channels, frames, rest, planar);
        assert(table[last] == table.last());
        if last < planar.len() {
            lemma_targets_written(
                before,
                channels,
                frames,
                table.last()@,
                planar[last]@,
                frame,
                ch,
                p,
            );
        }
        let now = packed_scattered(block, channels, frames, table, planar);
        assert forall|slot: int|
            0 <= slot < table.len() && slot < planar.len() && #[trigger] goes_to(table, slot, ch)
                && (forall|s: int|
                slot < s < table.len() && s < planar.len() ==> !#[trigger] goes_to(table, s, ch))
                && frame < frames implies now[p] == planar[slot]@[frame] by {
            if slot < last {
                assert(goes_to(rest, slot, ch));
                assert forall|s: int| slot < s < rest.len() && s < planar.len() implies !#[trigger] goes_to(
                    rest,
                    s,
                    ch,
                ) by {
                    assert(goes_to(rest, s, ch) == goes_to(table, s, ch));
                }
                if last < planar.len() {
                    assert(!goes_to(table, last, ch));
                }
            }
        }
        if forall|s: int|
            0 <= s < table.len() && s < planar.len() ==> !#[trigger] goes_to(table, s, ch) {
            assert forall|s: int| 0 <= s < rest.len() && s < planar.len() implies !#[trigger] goes_to(
                rest,
                s,
                ch,
            ) by {
                assert(goes_to(rest, s, ch) == goes_to(table, s, ch));
            }
            if last < planar.len() {
                assert(!goes_to(table, last, ch));
            }
        }
    }
}

/// As many frames are played as were read, but no more than a period has.
pub proof fn law_a_period_is_played_at_most<T>(planar: Seq<Vec<T>>, period: usize)
    requires
        planar.len() > 0,
    ensures
        frames_to_play(planar, period) <= period,
        frames_to_play(planar, period) <= planar[0]@.len(),
        frames_to_play(planar, period) == period || frames_to_play(planar, period)
            == planar[0]@.len(),
{
}

/// What a failed read does. The delay grows by one step, up to the greatest one, and reading is
/// aligned anew exactly where it grew. The Source is left alone for half a second once it has failed
/// often enough in a row, which is reported the first time. No other Source is touched.
pub proof fn law_a_failed_read_is_answered(
    m: PlaybackModel,
    id: u8,
    delay: u64,
    now: u64,
    rule: DelayRule,
    other: u8,
)
    requires
        now + 500_000_000 <= u64::MAX,
        other != id,
    ensures
        ({
            let (after, done) = after_failure(m, id, delay, now, rule);
            let n: int = if !m.failures.contains_key(id) {
                1
            } else if m.failures[id] == u32::MAX {
                u32::MAX as int
            } else {
                m.failures[id] + 1
            };
            &&& after.failures.contains_key(id) && after.failures[id] == n
            &&& delay < rule.max ==> done.realign && after.delays.contains_key(id) && (
            after.delays[id] == delay + rule.step && delay + rule.step <= rule.max
                || after.delays[id] == rule.max && delay + rule.step >= rule.max)
            &&& delay >= rule.max ==> !done.realign && after.delays == m.delays
            &&& done.back_off <==> n >= rule.backoff_after
            &&& done.back_off ==> after.retry_at.contains_key(id) && after.retry_at[id] == now
                + 500_000_000
            &&& !done.back_off ==> after.retry_at == m.retry_at
            &&& done.report <==> done.back_off && !m.retry_at.contains_key(id)
            &&& after.packed_retry_at == m.packed_retry_at
            &&& after.delays.contains_key(other) == m.delays.contains_key(other)
                && after.delays[other] == m.delays[other]
            &&& after.failures.contains_key(other) == m.failures.contains_key(other)
                && after.failures[other] == m.failures[other]
            &&& after.retry_at.contains_key(other) == m.retry_at.contains_key(other)
                && after.retry_at[other] == m.retry_at[other]
        }),
{
}

/// Recoveries are reported at once where none was before, and then not before five seconds have
/// passed.
pub proof fn law_reports_are_apart(last: u64, now: u64)
    ensures
        report_due(None, now),
        report_due(Some(last), now) <==> now - last >= 5_000_000_000,
{
}

/// A Source is read while it is connected and not being left alone, with the delay that it has come
/// to, or the base delay at first. One that is not connected is not read and starts over when it
/// is. One that failed too often is read again half a second later, and once it was read it is not
/// being left alone any more.
pub proof fn law_when_a_source_is_read(
    m: PlaybackModel,
    id: u8,
    delay: u64,
    now: u64,
    then: u64,
    rule: DelayRule,
    other: u8,
)
    requires
        now + 500_000_000 <= u64::MAX,
        other != id,
    ensures
        before_reading(m, id, false, now, rule).1 is None,
        !before_reading(m, id, false, now, rule).0.delays.contains_key(id),
        !m.retry_at.contains_key(id) && !m.delays.contains_key(id) ==> before_reading(
            m,
            id,
            true,
            now,
            rule,
        ).1 == Some(rule.base),
        !m.retry_at.contains_key(id) && m.delays.contains_key(id) ==> before_reading(
            m,
            id,
            true,
            now,
            rule,
        ).1 == Some(m.delays[id]),
        before_reading(m, id, true, now, rule).1 matches Some(d) ==> before_reading(
            m,
            id,
            true,
            now,
            rule,
        ).0.delays[id] == d,
        ({
            let (failed, done) = after_failure(m, id, delay, now, rule);
            done.back_off ==> (before_reading(failed, id, true, then, rule).1 is Some <==> then
                >= now + 500_000_000)
        }),
        before_reading(after_success(m, id), id, true, now, rule).1 is Some,
        after_success(m, id).delays == m.delays,
        after_success(m, id).failures[other] == m.failures[other],
        after_success(m, id).retry_at[other] == m.retry_at[other],
        before_reading(m, id, true, now, rule).0.failures == m.failures,
        before_reading(m, id, true, now, rule).0.retry_at == m.retry_at,
{
}

/// The first recovery is reported at once. After a report none follows within five seconds, and the
/// next one counts all recoveries since.
pub proof fn law_recoveries_are_counted(r: Recoveries, now: u64, then: u64)
    requires
        r.count < u32::MAX - 1,
    ensures
        r.last_report is None ==> recovered(r, now).1 == Some((r.count + 1) as u32),
        ({
            let (after, said) = recovered(r, now);
            &&& said is Some ==> after.count == 0 && after.last_report == Some(now)
            &&& said is Some && then < now + 5_000_000_000 ==> recovered(after, then).1 is None
            &&& said is Some && then >= now + 5_000_000_000 ==> recovered(after, then).1 == Some(1u32)
            &&& said is None ==> after.count == r.count + 1 && after.last_report == r.last_report
        }),
{
}

} // verus!
