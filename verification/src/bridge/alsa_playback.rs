//! Playing flows out: when each Source is read and how far behind, and where its samples go.

use vstd::prelude::*;

use crate::table::Table;

verus! {

/// How long a Source that failed is left alone, in nanoseconds: half a second.
pub const FAILED_SOURCE_BACKOFF_NS: u64 = 500_000_000;

/// The periods of silence that are written after a recovery.
pub const RECOVERY_PREFILL_PERIODS: usize = 2;

/// How often recoveries are reported at most, in nanoseconds.
pub const RECOVERY_LOG_INTERVAL_NS: u64 = 5_000_000_000;

/// What governs the delay of reading, in samples.
#[derive(Clone, Copy, Debug, PartialEq, Eq, Structural)]
pub struct DelayRule {
    /// The delay that a Source starts with.
    pub base: u64,
    /// What is added where a read came too early: a millisecond.
    pub step: u64,
    /// The greatest delay that is grown to: fifty milliseconds.
    pub max: u64,
    /// How far reading may be from its target: fifty milliseconds.
    pub tolerance: u64,
    /// The failures in a row after which a Source is left alone for a while: about fifty
    /// milliseconds of them.
    pub backoff_after: u32,
}

impl DelayRule {
    /// The rule at a sample rate and a period.
    pub fn new(base: u64, rate: u32, period: usize) -> (r: Self)
        requires
            period > 0,
        ensures
            r.base == base,
            r.step == rate as int / 1000,
            r.max == rate as int / 20,
            r.tolerance == rate as int / 20,
            r.backoff_after == (if 50 * rate / 1000 / (period as int) < 1 {
                1
            } else {
                50 * rate / 1000 / (period as int)
            }),
    {
        let n: u64 = 50 * rate as u64 / 1000 / period as u64;
        proof {
            vstd::arithmetic::div_mod::lemma_div_is_ordered_by_denominator(
                50 * rate as int / 1000,
                1,
                period as int,
            );
            vstd::arithmetic::div_mod::lemma_div_basics(50 * rate as int / 1000);
        }
        DelayRule {
            base,
            step: rate as u64 / 1000,
            max: rate as u64 / 20,
            tolerance: rate as u64 / 20,
            backoff_after: if n < 1 {
                1
            } else {
                n as u32
            },
        }
    }
}

/// What is known of the Sources that are played: their delays, when the failed ones are tried
/// again, and how often in a row each failed.
pub struct Playback {
    pub delays: Table<u8, u64>,
    pub retry_at: Table<u8, u64>,
    pub failures: Table<u8, u32>,
    pub packed_retry_at: Table<String, u64>,
}

/// What is known of the Sources that are played, over the models.
pub struct PlaybackModel {
    pub delays: Map<u8, u64>,
    pub retry_at: Map<u8, u64>,
    pub failures: Map<u8, u32>,
    pub packed_retry_at: Map<Seq<char>, u64>,
}

impl View for Playback {
    type V = PlaybackModel;

    open spec fn view(&self) -> PlaybackModel {
        PlaybackModel {
            delays: self.delays@,
            retry_at: self.retry_at@,
            failures: self.failures@,
            packed_retry_at: self.packed_retry_at@,
        }
    }
}

/// What is to be done for a Source that failed.
#[derive(Clone, Copy, Debug, PartialEq, Eq, Structural)]
pub struct AfterFailure {
    /// Its delay was raised: reading starts over at its target.
    pub realign: bool,
    /// It is left alone for a while: it goes to the head of its flow, and counts as faulty.
    pub back_off: bool,
    /// It was not being left alone already: this is worth a word.
    pub report: bool,
}

/// The delay of a Source.
pub open spec fn delay_of(m: PlaybackModel, id: u8, rule: DelayRule) -> u64 {
    if m.delays.contains_key(id) {
        m.delays[id]
    } else {
        rule.base
    }
}

/// What is known before a Source is read, and the delay to read it with, where it is to be read.
pub open spec fn before_reading(
    m: PlaybackModel,
    id: u8,
    connected: bool,
    now: u64,
    rule: DelayRule,
) -> (PlaybackModel, Option<u64>) {
    if connected {
        (
            PlaybackModel { delays: m.delays.insert(id, delay_of(m, id, rule)), ..m },
            if m.retry_at.contains_key(id) && now < m.retry_at[id] {
                None
            } else {
                Some(delay_of(m, id, rule))
            },
        )
    } else {
        (PlaybackModel { delays: m.delays.remove(id), ..m }, None)
    }
}

/// What is known after a Source was read.
pub open spec fn after_success(m: PlaybackModel, id: u8) -> PlaybackModel {
    PlaybackModel { retry_at: m.retry_at.remove(id), failures: m.failures.remove(id), ..m }
}

/// The failures in a row of a Source, with one more.
pub open spec fn one_more(m: PlaybackModel, id: u8) -> u32 {
    if m.failures.contains_key(id) {
        if m.failures[id] == u32::MAX {
            u32::MAX
        } else {
            (m.failures[id] + 1) as u32
        }
    } else {
        1
    }
}

/// The delay after one more failure.
pub open spec fn raised(delay: u64, rule: DelayRule) -> u64 {
    if delay + rule.step < rule.max {
        (delay + rule.step) as u64
    } else {
        rule.max
    }
}

/// What a failure leaves behind.
pub open spec fn after_failure(
    m: PlaybackModel,
    id: u8,
    delay: u64,
    now: u64,
    rule: DelayRule,
) -> (PlaybackModel, AfterFailure) {
    let n = one_more(m, id);
    let back_off = n >= rule.backoff_after;
    (
        PlaybackModel {
            delays: if delay < rule.max {
                m.delays.insert(id, raised(delay, rule))
            } else {
                m.delays
            },
            failures: m.failures.insert(id, n),
            retry_at: if back_off {
                m.retry_at.insert(id, (now + FAILED_SOURCE_BACKOFF_NS) as u64)
            } else {
                m.retry_at
            },
            ..m
        },
        AfterFailure {
            realign: delay < rule.max,
            back_off,
            report: back_off && !m.retry_at.contains_key(id),
        },
    )
}

impl Playback {
    /// Whether the tables stand in order.
    pub open spec fn wf(self) -> bool {
        &&& self.delays.wf()
        &&& self.retry_at.wf()
        &&& self.failures.wf()
        &&& self.packed_retry_at.wf()
    }

    /// Nothing is known.
    pub fn new() -> (r: Self)
        ensures
            r.wf(),
            r@ == (PlaybackModel {
                delays: Map::empty(),
                retry_at: Map::empty(),
                failures: Map::empty(),
                packed_retry_at: Map::empty(),
            }),
    {
        Playback {
            delays: Table::new(),
            retry_at: Table::new(),
            failures: Table::new(),
            packed_retry_at: Table::new(),
        }
    }

    /// The delay to read a Source with now; none where it is not to be read. A Source that is not
    /// connected loses its delay; one that failed is left alone until its time comes.
    pub fn before_read(&mut self, id: u8, connected: bool, now: u64, rule: &DelayRule) -> (r: Option<
        u64,
    >)
        requires
            old(self).wf(),
        ensures
            final(self).wf(),
            (final(self)@, r) == before_reading(old(self)@, id, connected, now, *rule),
    {
        if !connected {
            let _ = self.delays.remove(&id);
            return None;
        }
        let delay: u64 = match self.delays.get(&id) {
            Some(d) => *d,
            None => rule.base,
        };
        self.delays.insert(id, delay);
        if let Some(t) = self.retry_at.get(&id) {
            if now < *t {
                return None;
            }
        }
        Some(delay)
    }

    /// A Source was read.
    pub fn succeeded(&mut self, id: u8)
        requires
            old(self).wf(),
        ensures
            final(self).wf(),
            final(self)@ == after_success(old(self)@, id),
    {
        let _ = self.retry_at.remove(&id);
        let _ = self.failures.remove(&id);
    }

    /// Reading a Source failed: it is read a little later from now on, up to the greatest delay.
    /// One failure is one period of silence; a Source that keeps failing is left alone for a while.
    pub fn failed(&mut self, id: u8, delay: u64, now: u64, rule: &DelayRule) -> (r: AfterFailure)
        requires
            old(self).wf(),
            now + FAILED_SOURCE_BACKOFF_NS <= u64::MAX,
        ensures
            final(self).wf(),
            (final(self)@, r) == after_failure(old(self)@, id, delay, now, *rule),
    {
        let realign = delay < rule.max;
        if realign {
            let d: u64 = if rule.step < rule.max - delay {
                delay + rule.step
            } else {
                rule.max
            };
            self.delays.insert(id, d);
        }
        let n: u32 = match self.failures.get(&id) {
            Some(k) => if *k == u32::MAX {
                u32::MAX
            } else {
                *k + 1
            },
            None => 1,
        };
        self.failures.insert(id, n);
        if n < rule.backoff_after {
            return AfterFailure { realign, back_off: false, report: false };
        }
        let report = !self.retry_at.contains_key(&id);
        self.retry_at.insert(id, now + FAILED_SOURCE_BACKOFF_NS);
        AfterFailure { realign, back_off: true, report }
    }

    /// Whether a packed flow is to be read now.
    pub fn packed_due(&self, name: &String, now: u64) -> (r: bool)
        requires
            self.wf(),
        ensures
            r == !(self@.packed_retry_at.contains_key(name@) && now < self@.packed_retry_at[name@]),
    {
        match self.packed_retry_at.get(name) {
            Some(t) => now >= *t,
            None => true,
        }
    }

    /// A packed flow was read.
    pub fn packed_succeeded(&mut self, name: &String)
        requires
            old(self).wf(),
        ensures
            final(self).wf(),
            final(self)@ == (PlaybackModel {
                packed_retry_at: old(self)@.packed_retry_at.remove(name@),
                ..old(self)@
            }),
    {
        let _ = self.packed_retry_at.remove(name);
    }

    /// Reading a packed flow failed: it is left alone for a while. Says whether that is worth a
    /// word.
    pub fn packed_failed(&mut self, name: &String, now: u64) -> (r: bool)
        requires
            old(self).wf(),
            now + FAILED_SOURCE_BACKOFF_NS <= u64::MAX,
        ensures
            final(self).wf(),
            r == !old(self)@.packed_retry_at.contains_key(name@),
            final(self)@ == (PlaybackModel {
                packed_retry_at: old(self)@.packed_retry_at.insert(
                    name@,
                    (now + FAILED_SOURCE_BACKOFF_NS) as u64,
                ),
                ..old(self)@
            }),
    {
        let report = !self.packed_retry_at.contains_key(name);
        self.packed_retry_at.insert(name.clone(), now + FAILED_SOURCE_BACKOFF_NS);
        report
    }
}

/// A delay grows by at most one step, and never beyond the greatest one where it was not beyond it
/// already.
pub proof fn law_delay_grows_within_its_limit(
    m: PlaybackModel,
    id: u8,
    delay: u64,
    now: u64,
    rule: DelayRule,
)
    requires
        delay == delay_of(m, id, rule),
        m.delays.contains_key(id),
    ensures
        ({
            let after = after_failure(m, id, delay, now, rule).0;
            let d = delay_of(after, id, rule);
            &&& delay <= d
            &&& d <= delay + rule.step || d == rule.max
            &&& delay <= rule.max ==> d <= rule.max
        }),
{
}

/// A Source that is being left alone is not read before its time, and one that was read again is
/// not being left alone.
pub proof fn law_failures_in_a_row_are_forgotten(m: PlaybackModel, id: u8)
    ensures
        ({
            let after = after_success(m, id);
            one_more(after, id) == 1 && !after.retry_at.contains_key(id)
        }),
{
}

/// One channel of an interleaved block after it was written.
pub open spec fn with_column<T>(
    block: Seq<T>,
    channels: nat,
    frames: nat,
    ch: int,
    samples: Seq<T>,
) -> Seq<T> {
    Seq::new(
        block.len(),
        |p: int|
            if p % (channels as int) == ch && p / (channels as int) < frames {
                samples[p / (channels as int)]
            } else {
                block[p]
            },
    )
}

fn write_column<T: Copy>(
    block: &mut Vec<T>,
    channels: usize,
    frames: usize,
    ch: usize,
    samples: &Vec<T>,
)
    requires
        ch < channels,
        frames * channels <= old(block)@.len(),
        frames <= samples@.len(),
    ensures
        final(block)@ == with_column(
            old(block)@,
            channels as nat,
            frames as nat,
            ch as int,
            samples@,
        ),
{
    let ghost was = block@;
    let total: usize = block.len();
    for k in 0..frames
        invariant
            ch < channels,
            frames * channels <= total,
            total == was.len(),
            frames <= samples@.len(),
            block@ == with_column(was, channels as nat, k as nat, ch as int, samples@),
    {
        proof {
            assert(k * channels + ch < frames * channels) by (nonlinear_arith)
                requires
                    k < frames,
                    ch < channels,
            ;
            assert(0 <= k * channels) by (nonlinear_arith);
        }
        let at: usize = k * channels + ch;
        block.set(at, samples[k]);
        proof {
            let want = with_column(was, channels as nat, (k + 1) as nat, ch as int, samples@);
            let c = channels as int;
            vstd::arithmetic::div_mod::lemma_fundamental_div_mod_converse(
                at as int,
                c,
                k as int,
                ch as int,
            );
            assert forall|p: int| 0 <= p < was.len() implies block@[p] == want[p] by {
                if p != at {
                    if p % c == ch && p / c == k {
                        vstd::arithmetic::div_mod::lemma_fundamental_div_mod(p, c);
                        assert(c * k == k * c) by (nonlinear_arith);
                    }
                }
            }
            assert(block@ =~= want);
        }
    }
    assert(frames as nat == frames);
    if frames == 0 {
        proof {
            assert forall|p: int| 0 <= p < was.len() implies was[p] == with_column(
                was,
                channels as nat,
                0,
                ch as int,
                samples@,
            )[p] by {
                assert(p / (channels as int) >= 0) by (nonlinear_arith)
                    requires
                        p >= 0,
                        channels > 0,
                ;
            }
        }
    }
}

/// The frames of a block that was read, as many as fit into a period.
pub open spec fn frames_to_play<T>(planar: Seq<Vec<T>>, period: usize) -> nat {
    if planar.len() == 0 {
        0
    } else if planar[0]@.len() < period {
        planar[0]@.len()
    } else {
        period as nat
    }
}

fn playable<T>(planar: &Vec<Vec<T>>, period: usize) -> (r: usize)
    ensures
        r == frames_to_play(planar@, period),
        r <= period,
{
    if planar.len() == 0 {
        0
    } else if planar[0].len() < period {
        planar[0].len()
    } else {
        period
    }
}

/// A block after a Source was scattered into it: each channel of the Source into the channel of the
/// device that its map names. What the device does not have, or the Source does not, is skipped.
pub open spec fn scattered<T>(
    block: Seq<T>,
    channels: nat,
    frames: nat,
    map: Seq<u8>,
    planar: Seq<Vec<T>>,
) -> Seq<T>
    decreases map.len(),
{
    if map.len() == 0 {
        block
    } else {
        let before = scattered(block, channels, frames, map.drop_last(), planar);
        let k = map.len() - 1;
        if map.last() < channels && k < planar.len() {
            with_column(before, channels, frames, map.last() as int, planar[k]@)
        } else {
            before
        }
    }
}

/// Scatters what was read for a Source into a block of the device.
pub fn scatter<T: Copy>(
    block: &mut Vec<T>,
    channels: usize,
    period: usize,
    map: &Vec<u8>,
    planar: &Vec<Vec<T>>,
)
    requires
        period * channels <= old(block)@.len(),
        forall|c: int| 0 <= c < planar@.len() ==> (#[trigger] planar@[c])@.len() >= frames_to_play(
            planar@,
            period,
        ),
    ensures
        final(block)@ == scattered(
            old(block)@,
            channels as nat,
            frames_to_play(planar@, period),
            map@,
            planar@,
        ),
{
    let frames: usize = playable(planar, period);
    let ghost was = block@;
    proof {
        assert(frames * channels <= period * channels) by (nonlinear_arith)
            requires
                frames <= period,
        ;
    }
    assert(map@.take(0) =~= Seq::empty());
    for i in 0..map.len()
        invariant
            frames == frames_to_play(planar@, period),
            frames * channels <= was.len(),
            block@.len() == was.len(),
            forall|c: int|
                0 <= c < planar@.len() ==> (#[trigger] planar@[c])@.len() >= frames_to_play(
                    planar@,
                    period,
                ),
            block@ == scattered(
                was,
                channels as nat,
                frames as nat,
                map@.take(i as int),
                planar@,
            ),
    {
        assert(map@.take(i + 1).drop_last() =~= map@.take(i as int));
        let ch: usize = map[i] as usize;
        if ch < channels && i < planar.len() {
            assert(planar@[i as int]@.len() >= frames);
            write_column(block, channels, frames, ch, &planar[i]);
        }
    }
    assert(map@.take(map@.len() as int) =~= map@);
}

/// A block after one slot of a packed flow was scattered to its targets.
pub open spec fn with_targets<T>(
    block: Seq<T>,
    channels: nat,
    frames: nat,
    targets: Seq<usize>,
    samples: Seq<T>,
) -> Seq<T>
    decreases targets.len(),
{
    if targets.len() == 0 {
        block
    } else {
        let before = with_targets(block, channels, frames, targets.drop_last(), samples);
        if targets.last() < channels {
            with_column(before, channels, frames, targets.last() as int, samples)
        } else {
            before
        }
    }
}

/// A block after a packed flow was scattered into it: each slot to all of its targets.
pub open spec fn packed_scattered<T>(
    block: Seq<T>,
    channels: nat,
    frames: nat,
    table: Seq<Vec<usize>>,
    planar: Seq<Vec<T>>,
) -> Seq<T>
    decreases table.len(),
{
    if table.len() == 0 {
        block
    } else {
        let before = packed_scattered(block, channels, frames, table.drop_last(), planar);
        let slot = table.len() - 1;
        if slot < planar.len() {
            with_targets(before, channels, frames, table.last()@, planar[slot]@)
        } else {
            before
        }
    }
}

fn scatter_targets<T: Copy>(
    block: &mut Vec<T>,
    channels: usize,
    frames: usize,
    targets: &Vec<usize>,
    samples: &Vec<T>,
)
    requires
        frames * channels <= old(block)@.len(),
        frames <= samples@.len(),
    ensures
        final(block)@.len() == old(block)@.len(),
        final(block)@ == with_targets(
            old(block)@,
            channels as nat,
            frames as nat,
            targets@,
            samples@,
        ),
{
    let ghost was = block@;
    assert(targets@.take(0) =~= Seq::empty());
    for i in 0..targets.len()
        invariant
            frames * channels <= was.len(),
            frames <= samples@.len(),
            block@.len() == was.len(),
            block@ == with_targets(
                was,
                channels as nat,
                frames as nat,
                targets@.take(i as int),
                samples@,
            ),
    {
        assert(targets@.take(i + 1).drop_last() =~= targets@.take(i as int));
        let ch: usize = targets[i];
        if ch < channels {
            write_column(block, channels, frames, ch, samples);
        }
    }
    assert(targets@.take(targets@.len() as int) =~= targets@);
}

/// Scatters what was read for a packed flow into a block of the device. It is done after the
/// Sources: an explicit crosspoint wins over a Source's own connection.
pub fn scatter_packed<T: Copy>(
    block: &mut Vec<T>,
    channels: usize,
    period: usize,
    table: &Vec<Vec<usize>>,
    planar: &Vec<Vec<T>>,
)
    requires
        period * channels <= old(block)@.len(),
        forall|c: int| 0 <= c < planar@.len() ==> (#[trigger] planar@[c])@.len() >= frames_to_play(
            planar@,
            period,
        ),
    ensures
        final(block)@ == packed_scattered(
            old(block)@,
            channels as nat,
            frames_to_play(planar@, period),
            table@,
            planar@,
        ),
{
    let frames: usize = playable(planar, period);
    let ghost was = block@;
    proof {
        assert(frames * channels <= period * channels) by (nonlinear_arith)
            requires
                frames <= period,
        ;
    }
    assert(table@.take(0) =~= Seq::empty());
    for i in 0..table.len()
        invariant
            frames == frames_to_play(planar@, period),
            frames * channels <= was.len(),
            block@.len() == was.len(),
            forall|c: int|
                0 <= c < planar@.len() ==> (#[trigger] planar@[c])@.len() >= frames_to_play(
                    planar@,
                    period,
                ),
            block@ == packed_scattered(
                was,
                channels as nat,
                frames as nat,
                table@.take(i as int),
                planar@,
            ),
    {
        assert(table@.take(i + 1).drop_last() =~= table@.take(i as int));
        if i < planar.len() {
            assert(planar@[i as int]@.len() >= frames);
            scatter_targets(block, channels, frames, &table[i], &planar[i]);
        }
    }
    assert(table@.take(table@.len() as int) =~= table@);
}

/// What was recovered from since the last report, and when that was.
#[derive(Clone, Copy, Debug, PartialEq, Eq, Structural)]
pub struct Recoveries {
    pub count: u32,
    pub last_report: Option<u64>,
}

/// Whether a report is due: none was made yet, or the last one was an interval ago.
pub open spec fn report_due(last: Option<u64>, now: u64) -> bool {
    match last {
        Some(t) => now >= t + RECOVERY_LOG_INTERVAL_NS,
        None => true,
    }
}

/// What is known after one more recovery, and how many there were, where that is reported.
pub open spec fn recovered(r: Recoveries, now: u64) -> (Recoveries, Option<u32>) {
    let n = if r.count == u32::MAX {
        u32::MAX
    } else {
        (r.count + 1) as u32
    };
    if report_due(r.last_report, now) {
        (Recoveries { count: 0, last_report: Some(now) }, Some(n))
    } else {
        (Recoveries { count: n, ..r }, None)
    }
}

impl Recoveries {
    /// Nothing was recovered from yet.
    pub fn new() -> (r: Self)
        ensures
            r == (Recoveries { count: 0, last_report: None }),
    {
        Recoveries { count: 0, last_report: None }
    }

    /// One more recovery. The first one is reported, and then at most one in every interval, with
    /// how many there were since the last report.
    pub fn another(&mut self, now: u64) -> (r: Option<u32>)
        ensures
            (*final(self), r) == recovered(*old(self), now),
    {
        if self.count < u32::MAX {
            self.count = self.count + 1;
        }
        let due = match self.last_report {
            Some(t) => now >= t && now - t >= RECOVERY_LOG_INTERVAL_NS,
            None => true,
        };
        if due {
            let n: u32 = self.count;
            self.count = 0;
            self.last_report = Some(now);
            Some(n)
        } else {
            None
        }
    }
}

/// The real-time priority of a thread; none where it is left alone.
pub fn fifo_priority(priority: u8) -> (r: Option<u8>)
    ensures
        r == (if priority == 0 {
            None
        } else if priority > 98 {
            Some(98)
        } else {
            Some(priority)
        }),
{
    if priority == 0 {
        None
    } else if priority > 98 {
        Some(98)
    } else {
        Some(priority)
    }
}

} // verus!
