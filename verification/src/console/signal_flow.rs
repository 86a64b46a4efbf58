//! What holds of the signals in a period: what a send carries, and what each kind of strip hears.

use vstd::prelude::*;

use crate::console::engine::{
    bus_mixes, heard_at, paced, silent, some_solo, track_mixes, widest, BusWork, Engine,
    InputAction, InputRead, MasterWork, MixerState, Pace, SendMix, TrackScratch, TrackWork,
};
use crate::console::mixer::{greatest, mixing, MixPlan, PickoffPoint, Send, Track};
use crate::console::patch::{
    contributions, filled, held, held_all, planar, summands, value_of, Gone, RefModel, Signals,
};

verus! {

/// Whether a mix is that of a send: behind the fader it carries what was kept as post-fader, before
/// the fader what was kept as pre-fader, at the level of the send.
pub open spec fn carries<T>(s: TrackScratch<T>, send: Send, mix: SendMix<T>, channels: usize) -> bool {
    &&& send.pickoff == PickoffPoint::PostFader ==> *mix.source == s.post_fader
    &&& send.pickoff == PickoffPoint::PreFader ==> *mix.source == s.pre_fader
    &&& mix.level_db == send.level_db
    &&& mix.plan == mixing(mix.source@.len() as usize, channels)
}

/// Whether a send of a track goes into a bus: it is on, it names the bus, and the track has samples.
pub open spec fn goes<T>(
    tracks: Seq<(u32, Track)>,
    scratch: Map<u32, TrackScratch<T>>,
    bus_id: u32,
    t: int,
    j: int,
) -> bool {
    &&& 0 <= t < tracks.len()
    &&& scratch.contains_key(tracks[t].0)
    &&& 0 <= j < tracks[t].1.sends@.len()
    &&& tracks[t].1.sends@[j].bus_id == bus_id
    &&& tracks[t].1.sends@[j].on
}

proof fn lemma_send_mixed<T>(
    s: TrackScratch<T>,
    sends: Seq<Send>,
    bus_id: u32,
    channels: usize,
    j: int,
) -> (p: int)
    requires
        0 <= j < sends.len(),
        sends[j].bus_id == bus_id,
        sends[j].on,
    ensures
        0 <= p < track_mixes(s, sends, bus_id, channels).len(),
        carries(s, sends[j], track_mixes(s, sends, bus_id, channels)[p], channels),
    decreases sends.len(),
{
    let rest = track_mixes(s, sends.drop_last(), bus_id, channels);
    if j < sends.len() - 1 {
        assert(sends.drop_last()[j] == sends[j]);
        lemma_send_mixed(s, sends.drop_last(), bus_id, channels, j)
    } else {
        rest.len() as int
    }
}

proof fn lemma_mix_sent<T>(
    s: TrackScratch<T>,
    sends: Seq<Send>,
    bus_id: u32,
    channels: usize,
    p: int,
) -> (j: int)
    requires
        0 <= p < track_mixes(s, sends, bus_id, channels).len(),
    ensures
        0 <= j < sends.len(),
        sends[j].bus_id == bus_id,
        sends[j].on,
        carries(s, sends[j], track_mixes(s, sends, bus_id, channels)[p], channels),
    decreases sends.len(),
{
    let rest = track_mixes(s, sends.drop_last(), bus_id, channels);
    if p < rest.len() {
        let j = lemma_mix_sent(s, sends.drop_last(), bus_id, channels, p);
        assert(sends.drop_last()[j] == sends[j]);
        j
    } else {
        sends.len() - 1
    }
}

proof fn lemma_few_mixes<T>(s: TrackScratch<T>, sends: Seq<Send>, bus_id: u32, channels: usize)
    ensures
        track_mixes(s, sends, bus_id, channels).len() <= sends.len(),
    decreases sends.len(),
{
    if sends.len() > 0 {
        lemma_few_mixes(s, sends.drop_last(), bus_id, channels);
    }
}

/// Every send that goes into a bus is mixed into it, with the samples it picks off.
pub proof fn law_every_send_is_mixed<T>(
    tracks: Seq<(u32, Track)>,
    scratch: Map<u32, TrackScratch<T>>,
    bus_id: u32,
    channels: usize,
    t: int,
    j: int,
) -> (p: int)
    requires
        goes(tracks, scratch, bus_id, t, j),
    ensures
        0 <= p < bus_mixes(tracks, scratch, bus_id, channels).len(),
        carries(
            scratch[tracks[t].0],
            tracks[t].1.sends@[j],
            bus_mixes(tracks, scratch, bus_id, channels)[p],
            channels,
        ),
    decreases tracks.len(),
{
    let before = tracks.drop_last();
    let rest = bus_mixes(before, scratch, bus_id, channels);
    if t < before.len() {
        assert(before[t] == tracks[t]);
        law_every_send_is_mixed(before, scratch, bus_id, channels, t, j)
    } else {
        let own = tracks[t];
        let p = lemma_send_mixed(scratch[own.0], own.1.sends@, bus_id, channels, j);
        assert(bus_mixes(tracks, scratch, bus_id, channels)[rest.len() + p] == track_mixes(
            scratch[own.0],
            own.1.sends@,
            bus_id,
            channels,
        )[p]);
        rest.len() + p
    }
}

/// Nothing else is mixed into a bus: each mix is that of a send which goes into it. A send that is
/// off, or that names another bus, is not heard there.
pub proof fn law_only_sends_are_mixed<T>(
    tracks: Seq<(u32, Track)>,
    scratch: Map<u32, TrackScratch<T>>,
    bus_id: u32,
    channels: usize,
    p: int,
) -> (r: (int, int))
    requires
        0 <= p < bus_mixes(tracks, scratch, bus_id, channels).len(),
    ensures
        goes(tracks, scratch, bus_id, r.0, r.1),
        carries(
            scratch[tracks[r.0].0],
            tracks[r.0].1.sends@[r.1],
            bus_mixes(tracks, scratch, bus_id, channels)[p],
            channels,
        ),
    decreases tracks.len(),
{
    let before = tracks.drop_last();
    let rest = bus_mixes(before, scratch, bus_id, channels);
    if p < rest.len() {
        let r = law_only_sends_are_mixed(before, scratch, bus_id, channels, p);
        assert(before[r.0] == tracks[r.0]);
        assert(bus_mixes(tracks, scratch, bus_id, channels)[p] == rest[p]);
        r
    } else {
        let own = tracks.last();
        let j = lemma_mix_sent(scratch[own.0], own.1.sends@, bus_id, channels, p - rest.len());
        (tracks.len() - 1, j)
    }
}

/// How many sends tracks have.
pub open spec fn send_count(tracks: Seq<(u32, Track)>) -> nat
    decreases tracks.len(),
{
    if tracks.len() == 0 {
        0
    } else {
        send_count(tracks.drop_last()) + tracks.last().1.sends@.len()
    }
}

/// No send is mixed twice: there are never more mixes than sends.
pub proof fn law_no_send_is_mixed_twice<T>(
    tracks: Seq<(u32, Track)>,
    scratch: Map<u32, TrackScratch<T>>,
    bus_id: u32,
    channels: usize,
)
    ensures
        bus_mixes(tracks, scratch, bus_id, channels).len() <= send_count(tracks),
    decreases tracks.len(),
{
    if tracks.len() > 0 {
        law_no_send_is_mixed_twice(tracks.drop_last(), scratch, bus_id, channels);
        let t = tracks.last();
        if scratch.contains_key(t.0) {
            lemma_few_mixes(scratch[t.0], t.1.sends@, bus_id, channels);
        }
    }
}

/// How channels go into a bus: one by one where there are as many, a single one into all, and all
/// into a single one. Other counts do not go together.
pub proof fn law_channels_go_together(track_channels: usize, bus_channels: usize)
    ensures
        mixing(track_channels, track_channels) == MixPlan::Direct,
        track_channels > 1 ==> mixing(1, track_channels) == MixPlan::Spread,
        track_channels > 1 ==> mixing(track_channels, 1) == MixPlan::Average,
        track_channels != bus_channels && track_channels != 1 && bus_channels != 1 ==> mixing(
            track_channels,
            bus_channels,
        ) == MixPlan::Nothing,
{
}

/// The samples of a channel of what a strip put out.
pub open spec fn channel<T>(outs: Map<u32, Vec<Vec<T>>>, id: u32, ch: usize) -> Option<Seq<T>> {
    if outs.contains_key(id) && ch < outs[id]@.len() {
        Some(outs[id]@[ch as int]@)
    } else {
        None
    }
}

/// What each kind of strip hears of the others. Tracks hear what was put out in the previous
/// period. Buses hear the tracks of this period, masters the tracks and buses of this period, and
/// outputs everything of this period; each hears what is not there yet from the previous one. All
/// hear the inputs of this period.
pub proof fn law_what_is_heard<T: Copy>(e: Engine<T>, id: u32, ch: usize, entry: Seq<char>)
    ensures
        ({
            let track = RefModel::TrackOut { track_id: id, channel: ch };
            &&& e.track_signals().carried(track) == channel(e.prev.tracks@, id, ch)
            &&& e.bus_signals().carried(track) == channel(e.now.tracks@, id, ch)
            &&& e.master_signals().carried(track) == channel(e.now.tracks@, id, ch)
            &&& e.output_signals().carried(track) == channel(e.now.tracks@, id, ch)
        }),
        ({
            let bus = RefModel::BusOut { bus_id: id, channel: ch };
            &&& e.track_signals().carried(bus) == channel(e.prev.buses@, id, ch)
            &&& e.bus_signals().carried(bus) == channel(e.prev.buses@, id, ch)
            &&& e.master_signals().carried(bus) == channel(e.now.buses@, id, ch)
            &&& e.output_signals().carried(bus) == channel(e.now.buses@, id, ch)
        }),
        ({
            let master = RefModel::MasterOut { master_id: id, channel: ch };
            &&& e.track_signals().carried(master) == channel(e.prev.masters@, id, ch)
            &&& e.bus_signals().carried(master) == channel(e.prev.masters@, id, ch)
            &&& e.master_signals().carried(master) == channel(e.prev.masters@, id, ch)
            &&& e.output_signals().carried(master) == channel(e.now.masters@, id, ch)
        }),
        ({
            let input = RefModel::Input { entry_id: entry, channel: ch };
            let read = if e.inputs@.contains_key(entry) && ch < e.inputs@[entry]@.len() {
                Some(e.inputs@[entry]@[ch as int]@)
            } else {
                None
            };
            &&& e.track_signals().carried(input) == read
            &&& e.bus_signals().carried(input) == read
            &&& e.master_signals().carried(input) == read
            &&& e.output_signals().carried(input) == read
        }),
{
}

/// A channel that a source is patched into gets the source's samples, as many as there is room for;
/// what the source does not fill stays.
pub proof fn law_a_patched_channel_gets_its_source<T>(
    slots: Seq<Option<RefModel>>,
    signals: Signals<T>,
    dst: Seq<Seq<T>>,
    ch: int,
    i: int,
)
    requires
        0 <= ch < dst.len(),
        ch < slots.len(),
        slots[ch] is Some,
        0 <= i < dst[ch].len(),
    ensures
        ({
            let got = filled(Some(slots), signals, dst)[ch];
            match signals.carried(slots[ch]->0) {
                Some(x) => got[i] == (if i < x.len() {
                    x[i]
                } else {
                    dst[ch][i]
                }),
                None => got[i] == dst[ch][i],
            }
        }),
{
}

proof fn lemma_contributions<T>(s: Seq<RefModel>, signals: Signals<T>, x: Seq<T>)
    ensures
        contributions(s, signals).contains(x) <==> exists|k: int|
            0 <= k < s.len() && signals.carried(#[trigger] s[k]) == Some(x),
        contributions(s, signals).len() <= s.len(),
        (forall|k: int| 0 <= k < s.len() ==> signals.carried(#[trigger] s[k]) is Some)
            ==> contributions(s, signals).len() == s.len(),
    decreases s.len(),
{
    let now = contributions(s, signals);
    if s.len() > 0 {
        let t = s.drop_last();
        let rest = contributions(t, signals);
        lemma_contributions(t, signals, x);
        assert(forall|k: int| 0 <= k < t.len() ==> t[k] == s[k]);
        assert(s[s.len() - 1] == s.last());
        if now.contains(x) {
            let i = choose|i: int| 0 <= i < now.len() && now[i] == x;
            if i < rest.len() {
                assert(rest[i] == x);
                assert(rest.contains(x));
                let k = choose|k: int| 0 <= k < t.len() && signals.carried(#[trigger] t[k]) == Some(x);
                assert(signals.carried(s[k]) == Some(x));
            }
        }
        if exists|k: int| 0 <= k < s.len() && signals.carried(#[trigger] s[k]) == Some(x) {
            let k = choose|k: int| 0 <= k < s.len() && signals.carried(#[trigger] s[k]) == Some(x);
            if k < t.len() {
                assert(signals.carried(t[k]) == Some(x));
                let i = choose|i: int| 0 <= i < rest.len() && rest[i] == x;
                assert(now[i] == x);
            } else {
                assert(now[rest.len() as int] == x);
            }
        }
    } else {
        assert(now =~= Seq::empty());
    }
}

/// A channel of a summing destination gets exactly what its sources carry: all of them, each once,
/// and nothing of another channel.
pub proof fn law_a_sum_has_all_its_sources<T>(
    feeds: Option<Seq<Seq<RefModel>>>,
    signals: Signals<T>,
    channels: nat,
    ch: int,
    x: Seq<T>,
)
    requires
        0 <= ch < channels,
    ensures
        summands(feeds, signals, channels).len() == channels,
        ({
            let got = summands(feeds, signals, channels)[ch];
            match feeds {
                Some(f) => if ch < f.len() {
                    &&& got.contains(x) <==> exists|k: int|
                        0 <= k < f[ch].len() && signals.carried(#[trigger] f[ch][k]) == Some(x)
                    &&& got.len() <= f[ch].len()
                    &&& (forall|k: int|
                        0 <= k < f[ch].len() ==> signals.carried(#[trigger] f[ch][k]) is Some)
                        ==> got.len() == f[ch].len()
                } else {
                    got.len() == 0
                },
                None => got.len() == 0,
            }
        }),
{
    if let Some(f) = feeds {
        if ch < f.len() {
            lemma_contributions(f[ch], signals, x);
        }
    }
}

proof fn lemma_greatest_of(s: Seq<usize>)
    ensures
        s.len() > 0 ==> s.contains(greatest(s)),
        forall|i: int| 0 <= i < s.len() ==> #[trigger] s[i] <= greatest(s),
    decreases s.len(),
{
    if s.len() > 0 {
        let t = s.drop_last();
        lemma_greatest_of(t);
        assert(forall|i: int| 0 <= i < t.len() ==> t[i] == s[i]);
        assert(s[s.len() - 1] == s.last());
        if s.last() <= greatest(t) {
            if t.len() > 0 {
                let i = choose|i: int| 0 <= i < t.len() && t[i] == greatest(t);
                assert(s[i] == greatest(s));
            }
        }
    }
}

/// The widest count is one of the counts, and none is wider; without counts it is one.
pub proof fn law_widest_is_the_greatest_count(s: Seq<usize>)
    ensures
        forall|i: int| 0 <= i < s.len() ==> #[trigger] s[i] <= widest(s),
        s.len() > 0 ==> s.contains(widest(s)),
        s.len() == 0 ==> widest(s) == 1,
{
    lemma_greatest_of(s);
}

/// A muted strip is not heard. One that is not muted is heard at its fader where no track is soloed,
/// and where it is soloed itself; where only others are soloed, it is not heard.
pub proof fn law_who_is_heard(mute: bool, solo: bool, any_solo: bool, fader_db: u32)
    ensures
        heard_at(true, solo, any_solo, fader_db) is None,
        heard_at(false, solo, false, fader_db) == Some(fader_db),
        heard_at(false, true, any_solo, fader_db) == Some(fader_db),
        heard_at(mute, false, true, fader_db) is None,
{
}

/// A track counts as soloed for the others whichever it is.
pub proof fn law_any_solo_counts(tracks: Seq<(u32, Track)>, i: int)
    requires
        0 <= i < tracks.len(),
    ensures
        tracks[i].1.solo ==> some_solo(tracks),
        (forall|k: int| 0 <= k < tracks.len() ==> !(#[trigger] tracks[k]).1.solo) ==> !some_solo(
            tracks,
        ),
{
}

/// What was kept of a track is what its sends carry in the same period, before or behind its fader,
/// and what buses, masters and outputs hear of it is what was kept behind the fader.
pub proof fn law_a_kept_track_is_heard<T: Copy>(
    before: Engine<T>,
    after: Engine<T>,
    id: u32,
    pre_fader: Vec<Vec<T>>,
    post_fader: Vec<Vec<T>>,
    mix: SendMix<T>,
    send: Send,
    channels: usize,
    ch: usize,
    other: u32,
)
    requires
        after.keeps_track(before, id, pre_fader, post_fader),
    ensures
        after.scratch@.contains_key(id),
        carries(after.scratch@[id], send, mix, channels) ==> (send.pickoff == PickoffPoint::PostFader
            ==> *mix.source == post_fader) && (send.pickoff == PickoffPoint::PreFader
            ==> *mix.source == pre_fader),
        ({
            let out = RefModel::TrackOut { track_id: id, channel: ch };
            let kept = if ch < post_fader@.len() {
                Some(post_fader@[ch as int]@)
            } else {
                None
            };
            &&& after.bus_signals().carried(out) == kept
            &&& after.master_signals().carried(out) == kept
            &&& after.output_signals().carried(out) == kept
        }),
        other != id ==> after.scratch@.contains_key(other) == before.scratch@.contains_key(other)
            && after.scratch@[other] == before.scratch@[other],
        other != id ==> channel(after.now.tracks@, other, ch) == channel(
            before.now.tracks@,
            other,
            ch,
        ),
{
    let a = after.now.tracks@[id]@;
    assert(after.now.tracks@.dom().contains(id));
    assert(planar(a).len() == a.len() && planar(post_fader@).len() == post_fader@.len());
    if ch < post_fader@.len() {
        assert(planar(a)[ch as int] == planar(post_fader@)[ch as int]);
    }
    if other != id {
        assert(after.now.tracks@.dom().contains(other) == before.now.tracks@.dom().contains(other));
    }
}

/// What was put out in a period is what tracks hear in the next one. What was not put out in it
/// stays what it was.
pub proof fn law_what_was_put_out_is_heard_next<T: Copy>(
    before: Engine<T>,
    after: Engine<T>,
    id: u32,
    ch: usize,
)
    requires
        after.follows(before),
    ensures
        before.now.tracks@.contains_key(id) ==> after.track_signals().carried(
            RefModel::TrackOut { track_id: id, channel: ch },
        ) == channel(before.now.tracks@, id, ch),
        before.now.buses@.contains_key(id) ==> after.track_signals().carried(
            RefModel::BusOut { bus_id: id, channel: ch },
        ) == channel(before.now.buses@, id, ch),
        before.now.masters@.contains_key(id) ==> after.track_signals().carried(
            RefModel::MasterOut { master_id: id, channel: ch },
        ) == channel(before.now.masters@, id, ch),
        !before.now.tracks@.contains_key(id) ==> channel(after.prev.tracks@, id, ch) == channel(
            before.prev.tracks@,
            id,
            ch,
        ),
        !after.now.tracks@.contains_key(id),
        !after.now.buses@.contains_key(id),
        !after.now.masters@.contains_key(id),
{
}

/// In a new period nothing is heard of the inputs of the last one, nor of strips that were deleted;
/// of the others is heard what they put out.
pub proof fn law_deleted_strips_fall_silent<T: Copy>(
    before: Engine<T>,
    after: Engine<T>,
    retired: Seq<Gone>,
    id: u32,
    ch: usize,
    entry: Seq<char>,
)
    requires
        after.begins(before, retired),
    ensures
        after.track_signals().carried(RefModel::Input { entry_id: entry, channel: ch }) is None,
        channel(after.prev.tracks@, id, ch) == (if retired.contains(Gone::Track(id)) {
            None
        } else {
            channel(before.prev.tracks@, id, ch)
        }),
        channel(after.prev.buses@, id, ch) == (if retired.contains(Gone::Bus(id)) {
            None
        } else {
            channel(before.prev.buses@, id, ch)
        }),
        channel(after.prev.masters@, id, ch) == (if retired.contains(Gone::Master(id)) {
            None
        } else {
            channel(before.prev.masters@, id, ch)
        }),
        !after.now.tracks@.contains_key(id),
        !after.now.buses@.contains_key(id),
        !after.now.masters@.contains_key(id),
{
}

/// A track hears on each channel the source that is patched into it, of the previous period where it
/// is a strip, and silence where none is; at its own gain, and it is heard at its own fader unless
/// it is muted, or others are soloed and it is not.
pub proof fn law_a_track_hears_its_patch<T: Copy>(
    e: Engine<T>,
    mixer: MixerState,
    id: u32,
    w: TrackWork<T>,
    ch: int,
    i: int,
)
    requires
        e.is_track_work(mixer, id, w),
        0 <= ch < e.scratch@[id].pre_fader@.len(),
        0 <= i < mixer.period_frames,
    ensures
        w.input@.len() == e.scratch@[id].pre_fader@.len(),
        ({
            let got = w.input@[ch]@[i];
            let patch = mixer@.patch.track_in;
            if patch.contains_key(id) && ch < patch[id].len() {
                match patch[id][ch] {
                    Some(RefModel::TrackOut { track_id, channel: c }) => got == sample_of(
                        channel(e.prev.tracks@, track_id, c),
                        i,
                        e.silence,
                    ),
                    Some(RefModel::BusOut { bus_id, channel: c }) => got == sample_of(
                        channel(e.prev.buses@, bus_id, c),
                        i,
                        e.silence,
                    ),
                    Some(RefModel::MasterOut { master_id, channel: c }) => got == sample_of(
                        channel(e.prev.masters@, master_id, c),
                        i,
                        e.silence,
                    ),
                    Some(RefModel::Input { entry_id, channel: c }) => got == (
                    if e.inputs@.contains_key(entry_id) && c < e.inputs@[entry_id]@.len() {
                        sample_of(Some(e.inputs@[entry_id]@[c as int]@), i, e.silence)
                    } else {
                        e.silence
                    }),
                    None => got == e.silence,
                }
            } else {
                got == e.silence
            }
        }),
        w.gain_db == mixer.tracks@[id].gain_db,
        mixer.tracks@[id].mute ==> w.fader_db is None,
        !mixer.tracks@[id].mute && mixer.tracks@[id].solo ==> w.fader_db == Some(
            mixer.tracks@[id].fader_db,
        ),
        !mixer.tracks@[id].mute && !mixer.tracks@[id].solo ==> w.fader_db == (if some_solo(
            mixer.tracks.list(),
        ) {
            None
        } else {
            Some(mixer.tracks@[id].fader_db)
        }),
{
    let want = filled(
        value_of(mixer@.patch.track_in, id),
        e.track_signals(),
        silent(e.scratch@[id].pre_fader@.len(), mixer.period_frames, e.silence),
    );
    assert(planar(w.input@).len() == w.input@.len());
    assert(planar(w.input@)[ch] == want[ch]);
}

/// The sample of a signal; silence where there is no such signal, or it is over.
pub open spec fn sample_of<T>(signal: Option<Seq<T>>, i: int, silence: T) -> T {
    match signal {
        Some(x) => if i < x.len() {
            x[i]
        } else {
            silence
        },
        None => silence,
    }
}

/// An output transmits on each channel what is patched into it, of this period, and silence where
/// nothing is.
pub proof fn law_an_output_transmits_its_patch<T: Copy>(
    e: Engine<T>,
    mixer: MixerState,
    id: Seq<char>,
    b: Seq<Seq<T>>,
    ch: int,
    i: int,
)
    requires
        e.is_output_work(mixer, id, b),
        0 <= ch < mixer.output_grid.entries@[id].channels,
        0 <= i < mixer.period_frames,
    ensures
        b.len() == mixer.output_grid.entries@[id].channels,
        ({
            let got = b[ch][i];
            let patch = mixer@.patch.output;
            if patch.contains_key(id) && ch < patch[id].len() {
                match patch[id][ch] {
                    Some(RefModel::TrackOut { track_id, channel: c }) => got == sample_of(
                        channel(e.now.tracks@, track_id, c),
                        i,
                        e.silence,
                    ),
                    Some(RefModel::BusOut { bus_id, channel: c }) => got == sample_of(
                        channel(e.now.buses@, bus_id, c),
                        i,
                        e.silence,
                    ),
                    Some(RefModel::MasterOut { master_id, channel: c }) => got == sample_of(
                        channel(e.now.masters@, master_id, c),
                        i,
                        e.silence,
                    ),
                    Some(RefModel::Input { entry_id, channel: c }) => got == (
                    if e.inputs@.contains_key(entry_id) && c < e.inputs@[entry_id]@.len() {
                        sample_of(Some(e.inputs@[entry_id]@[c as int]@), i, e.silence)
                    } else {
                        e.silence
                    }),
                    None => got == e.silence,
                }
            } else {
                got == e.silence
            }
        }),
{
}

/// A bus and a master sum what their own patches deliver, a bus with its own sends; a master is
/// heard at its own fader unless it is muted.
pub proof fn law_a_sum_is_that_of_its_patch<T: Copy>(
    e: Engine<T>,
    mixer: MixerState,
    id: u32,
    bus: BusWork<T>,
    master: MasterWork<T>,
    ch: int,
    x: Seq<T>,
)
    ensures
        e.is_bus_work(mixer, id, bus) ==> {
            &&& bus.channels == mixer.buses@[id].channels
            &&& bus.sends@ == bus_mixes(
                mixer.tracks.list(),
                e.scratch@,
                id,
                mixer.buses@[id].channels,
            )
            &&& bus.patch@.len() == bus.channels
            &&& 0 <= ch < bus.channels ==> (held(bus.patch@[ch]@).contains(x) <==> {
                let patch = mixer@.patch.bus_in;
                patch.contains_key(id) && ch < patch[id].len() && exists|k: int|
                    0 <= k < patch[id][ch].len() && e.bus_signals().carried(
                        #[trigger] patch[id][ch][k],
                    ) == Some(x)
            })
        },
        e.is_master_work(mixer, id, master) ==> {
            &&& master.channels == mixer.masters@[id].channels
            &&& mixer.masters@[id].mute ==> master.fader_db is None
            &&& !mixer.masters@[id].mute ==> master.fader_db == Some(mixer.masters@[id].fader_db)
            &&& master.patch@.len() == master.channels
            &&& 0 <= ch < master.channels ==> (held(master.patch@[ch]@).contains(x) <==> {
                let patch = mixer@.patch.master_in;
                patch.contains_key(id) && ch < patch[id].len() && exists|k: int|
                    0 <= k < patch[id][ch].len() && e.master_signals().carried(
                        #[trigger] patch[id][ch][k],
                    ) == Some(x)
            })
        },
{
    let a = value_of(mixer@.patch.bus_in, id);
    let b = value_of(mixer@.patch.master_in, id);
    if e.is_bus_work(mixer, id, bus) {
        assert(held_all(bus.patch@).len() == bus.patch@.len());
        if 0 <= ch < bus.channels {
            law_a_sum_has_all_its_sources(a, e.bus_signals(), bus.channels as nat, ch, x);
            assert(held_all(bus.patch@)[ch] == held(bus.patch@[ch]@));
        }
    }
    if e.is_master_work(mixer, id, master) {
        assert(held_all(master.patch@).len() == master.patch@.len());
        if 0 <= ch < master.channels {
            law_a_sum_has_all_its_sources(b, e.master_signals(), master.channels as nat, ch, x);
            assert(held_all(master.patch@)[ch] == held(master.patch@[ch]@));
        }
    }
}

/// What was kept of a bus is what masters and outputs hear of it, and what was kept of a master is
/// what outputs hear of it. What was kept of others stays.
pub proof fn law_a_kept_sum_is_heard<T: Copy>(
    before: Engine<T>,
    bus: Engine<T>,
    master: Engine<T>,
    id: u32,
    out: Vec<Vec<T>>,
    ch: usize,
    other: u32,
)
    requires
        bus.keeps_bus(before, id, out),
        master.keeps_master(before, id, out),
        ch < out@.len(),
        other != id,
    ensures
        bus.master_signals().carried(RefModel::BusOut { bus_id: id, channel: ch }) == Some(
            out@[ch as int]@,
        ),
        bus.output_signals().carried(RefModel::BusOut { bus_id: id, channel: ch }) == Some(
            out@[ch as int]@,
        ),
        master.output_signals().carried(RefModel::MasterOut { master_id: id, channel: ch })
            == Some(out@[ch as int]@),
        channel(bus.now.buses@, other, ch) == channel(before.now.buses@, other, ch),
        channel(master.now.masters@, other, ch) == channel(before.now.masters@, other, ch),
{
}

/// An input that was read is heard as it was read, and measured. One that could not be read is not
/// heard anew; its meter shows silence, and its reader goes to the head of its flow where it has
/// one. Other inputs are not touched.
pub proof fn law_an_input_is_heard_as_it_was_read<T: Copy>(
    before: Engine<T>,
    after: Engine<T>,
    id: Seq<char>,
    read: InputRead<T>,
    done: InputAction,
    ch: usize,
    other: Seq<char>,
)
    requires
        after.takes_input(before, id, read, done),
        other != id,
    ensures
        read matches InputRead::Samples(block) ==> done == InputAction::Measure && (ch < block@.len()
            ==> after.track_signals().carried(RefModel::Input { entry_id: id, channel: ch }) == Some(
            block@[ch as int]@,
        )),
        !(read is Samples) ==> after.inputs@ == before.inputs@,
        read is NoReader ==> done == InputAction::ShowSilence,
        read is Failed ==> done == InputAction::ShowSilenceAndResync,
        after.inputs@.contains_key(other) == before.inputs@.contains_key(other),
        after.inputs@[other] == before.inputs@[other],
{
}

/// On time, the engine sleeps until the tick, and the next tick is one period after it. Behind time
/// it does not sleep, and what was missed is not made up for: the next tick is a period from now.
pub proof fn law_periods_are_paced(next_tick: u64, now: u64, period: u64)
    requires
        next_tick + period <= u64::MAX,
        now + period <= u64::MAX,
    ensures
        match paced(next_tick, now, period) {
            (Pace::Sleep(t), next) => t > 0 && now + t == next_tick && next == next_tick + period,
            (Pace::Behind(t), next) => next_tick + t == now && next == now + period,
        },
{
}

} // verus!
