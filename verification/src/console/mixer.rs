//! Tracks, buses, masters and sends.

use vstd::prelude::*;

use crate::console::config::{built_chain, BusConfig, MasterTrackConfig, TrackConfig};
use crate::console::dsp::{ProcessingStage, StageModel};
use crate::console::patch::{list_item, listed};
use crate::json::{docs, no_items, put_item, whole, Doc, Json};
use crate::table::{as_map, lemma_from_map, lemma_in_map, sorted, Table};

verus! {

/// Where in a track's chain a send taps the signal.
#[derive(Clone, Copy, Debug, PartialEq, Eq, Structural)]
pub enum PickoffPoint {
    /// After gain, before the track's own fader and mute/solo.
    PreFader,
    /// After gain, fader and mute/solo.
    PostFader,
}

/// One send from a track to a bus.
#[derive(Clone, Copy, Debug, PartialEq, Eq, Structural)]
pub struct Send {
    pub bus_id: u32,
    pub pickoff: PickoffPoint,
    pub on: bool,
    pub level_db: u32,
}

/// One input strip.
#[derive(Debug)]
pub struct Track {
    pub id: u32,
    pub label: String,
    pub channels: usize,
    pub gain_db: u32,
    pub fader_db: u32,
    pub mute: bool,
    pub solo: bool,
    pub sends: Vec<Send>,
    pub chain: Vec<ProcessingStage>,
    pub compensation_delay_samples: usize,
    /// Whether the track was created while the mixer ran.
    pub dynamically_created: bool,
}

/// One summing point: no fader, no mute, no chain.
#[derive(Debug)]
pub struct Bus {
    pub id: u32,
    pub label: String,
    pub channels: usize,
    pub dynamically_created: bool,
}

/// One controllable strip behind the summing points.
#[derive(Debug)]
pub struct MasterTrack {
    pub id: u32,
    pub label: String,
    pub channels: usize,
    pub fader_db: u32,
    pub mute: bool,
    pub chain: Vec<ProcessingStage>,
    pub compensation_delay_samples: usize,
    pub dynamically_created: bool,
}

/// What a chain says.
pub open spec fn chain_model(chain: Seq<ProcessingStage>) -> Seq<StageModel> {
    chain.map_values(|s: ProcessingStage| s@)
}

/// What a [`Track`] says.
pub struct TrackModel {
    pub id: u32,
    pub label: Seq<char>,
    pub channels: usize,
    pub gain_db: u32,
    pub fader_db: u32,
    pub mute: bool,
    pub solo: bool,
    pub sends: Seq<Send>,
    pub chain: Seq<StageModel>,
    pub compensation_delay_samples: usize,
    pub dynamically_created: bool,
}

/// What a [`Bus`] says.
pub struct BusModel {
    pub id: u32,
    pub label: Seq<char>,
    pub channels: usize,
    pub dynamically_created: bool,
}

/// What a [`MasterTrack`] says.
pub struct MasterModel {
    pub id: u32,
    pub label: Seq<char>,
    pub channels: usize,
    pub fader_db: u32,
    pub mute: bool,
    pub chain: Seq<StageModel>,
    pub compensation_delay_samples: usize,
    pub dynamically_created: bool,
}

impl View for Track {
    type V = TrackModel;

    open spec fn view(&self) -> TrackModel {
        TrackModel {
            id: self.id,
            label: self.label@,
            channels: self.channels,
            gain_db: self.gain_db,
            fader_db: self.fader_db,
            mute: self.mute,
            solo: self.solo,
            sends: self.sends@,
            chain: chain_model(self.chain@),
            compensation_delay_samples: self.compensation_delay_samples,
            dynamically_created: self.dynamically_created,
        }
    }
}

impl View for Bus {
    type V = BusModel;

    open spec fn view(&self) -> BusModel {
        BusModel {
            id: self.id,
            label: self.label@,
            channels: self.channels,
            dynamically_created: self.dynamically_created,
        }
    }
}

impl View for MasterTrack {
    type V = MasterModel;

    open spec fn view(&self) -> MasterModel {
        MasterModel {
            id: self.id,
            label: self.label@,
            channels: self.channels,
            fader_db: self.fader_db,
            mute: self.mute,
            chain: chain_model(self.chain@),
            compensation_delay_samples: self.compensation_delay_samples,
            dynamically_created: self.dynamically_created,
        }
    }
}

/// The track that a configuration describes.
pub open spec fn configured_track(cfg: TrackConfig, channels: usize, dynamic: bool) -> TrackModel {
    TrackModel {
        id: cfg.id,
        label: cfg.label@,
        channels,
        gain_db: cfg.gain_db,
        fader_db: cfg.fader_db,
        mute: false,
        solo: false,
        sends: cfg.send_list(),
        chain: built_chain(cfg.chain@, cfg.template),
        compensation_delay_samples: 0,
        dynamically_created: dynamic,
    }
}

/// The bus that a configuration describes.
pub open spec fn configured_bus(cfg: BusConfig, channels: usize, dynamic: bool) -> BusModel {
    BusModel { id: cfg.id, label: cfg.label@, channels, dynamically_created: dynamic }
}

/// The master that a configuration describes.
pub open spec fn configured_master(
    cfg: MasterTrackConfig,
    channels: usize,
    dynamic: bool,
) -> MasterModel {
    MasterModel {
        id: cfg.id,
        label: cfg.label@,
        channels,
        fader_db: cfg.fader_db,
        mute: false,
        chain: built_chain(cfg.chain@, cfg.template),
        compensation_delay_samples: 0,
        dynamically_created: dynamic,
    }
}

impl Track {
    /// A track of the configuration.
    pub fn new(cfg: &TrackConfig, channels: usize) -> (r: Self)
        ensures
            r@ == configured_track(*cfg, channels, false),
    {
        Track::new_with_origin(cfg, channels, false)
    }

    /// A track of the configuration, or one created while the mixer runs.
    pub fn new_with_origin(cfg: &TrackConfig, channels: usize, dynamically_created: bool) -> (r:
        Self)
        ensures
            r@ == configured_track(*cfg, channels, dynamically_created),
    {
        let mut sends: Vec<Send> = Vec::new();
        for i in 0..cfg.sends.len()
            invariant
                sends@ == cfg.send_list().take(i as int),
        {
            sends.push(cfg.sends[i].to_send());
            assert(sends@ =~= cfg.send_list().take(i + 1));
        }
        assert(sends@ =~= cfg.send_list());
        Track {
            id: cfg.id,
            label: cfg.label.clone(),
            channels,
            gain_db: cfg.gain_db,
            fader_db: cfg.fader_db,
            mute: false,
            solo: false,
            sends,
            chain: crate::console::config::build_chain(cfg.chain.as_slice(), cfg.template),
            compensation_delay_samples: 0,
            dynamically_created,
        }
    }
}

impl Bus {
    /// A bus of the configuration.
    pub fn new(cfg: &BusConfig, channels: usize) -> (r: Self)
        ensures
            r@ == configured_bus(*cfg, channels, false),
    {
        Bus::new_with_origin(cfg, channels, false)
    }

    /// A bus of the configuration, or one created while the mixer runs.
    pub fn new_with_origin(cfg: &BusConfig, channels: usize, dynamically_created: bool) -> (r: Self)
        ensures
            r@ == configured_bus(*cfg, channels, dynamically_created),
    {
        Bus { id: cfg.id, label: cfg.label.clone(), channels, dynamically_created }
    }
}

impl MasterTrack {
    /// A master of the configuration.
    pub fn new(cfg: &MasterTrackConfig, channels: usize) -> (r: Self)
        ensures
            r@ == configured_master(*cfg, channels, false),
    {
        MasterTrack::new_with_origin(cfg, channels, false)
    }

    /// A master of the configuration, or one created while the mixer runs.
    pub fn new_with_origin(
        cfg: &MasterTrackConfig,
        channels: usize,
        dynamically_created: bool,
    ) -> (r: Self)
        ensures
            r@ == configured_master(*cfg, channels, dynamically_created),
    {
        MasterTrack {
            id: cfg.id,
            label: cfg.label.clone(),
            channels,
            fader_db: cfg.fader_db,
            mute: false,
            chain: crate::console::config::build_chain(cfg.chain.as_slice(), cfg.template),
            compensation_delay_samples: 0,
            dynamically_created,
        }
    }
}

/// A chain that says the same.
pub fn copy_chain(chain: &Vec<ProcessingStage>) -> (r: Vec<ProcessingStage>)
    ensures
        chain_model(r@) == chain_model(chain@),
{
    let mut out: Vec<ProcessingStage> = Vec::new();
    for i in 0..chain.len()
        invariant
            out@.len() == i,
            forall|k: int| 0 <= k < i ==> (#[trigger] out@[k])@ == chain@[k]@,
    {
        out.push(chain[i].copy());
    }
    assert(chain_model(out@) =~= chain_model(chain@));
    out
}

/// Sends that say the same.
pub fn copy_sends(sends: &Vec<Send>) -> (r: Vec<Send>)
    ensures
        r@ == sends@,
{
    let mut out: Vec<Send> = Vec::new();
    for i in 0..sends.len()
        invariant
            out@ == sends@.take(i as int),
    {
        out.push(sends[i]);
        assert(out@ =~= sends@.take(i + 1));
    }
    assert(out@ =~= sends@);
    out
}

impl Track {
    /// A track that says the same.
    pub fn copy(&self) -> (r: Track)
        ensures
            r@ == self@,
    {
        Track {
            id: self.id,
            label: self.label.clone(),
            channels: self.channels,
            gain_db: self.gain_db,
            fader_db: self.fader_db,
            mute: self.mute,
            solo: self.solo,
            sends: copy_sends(&self.sends),
            chain: copy_chain(&self.chain),
            compensation_delay_samples: self.compensation_delay_samples,
            dynamically_created: self.dynamically_created,
        }
    }
}

impl Bus {
    /// A bus that says the same.
    pub fn copy(&self) -> (r: Bus)
        ensures
            r@ == self@,
    {
        Bus {
            id: self.id,
            label: self.label.clone(),
            channels: self.channels,
            dynamically_created: self.dynamically_created,
        }
    }
}

impl MasterTrack {
    /// A master that says the same.
    pub fn copy(&self) -> (r: MasterTrack)
        ensures
            r@ == self@,
    {
        MasterTrack {
            id: self.id,
            label: self.label.clone(),
            channels: self.channels,
            fader_db: self.fader_db,
            mute: self.mute,
            chain: copy_chain(&self.chain),
            compensation_delay_samples: self.compensation_delay_samples,
            dynamically_created: self.dynamically_created,
        }
    }
}

/// A track, a bus or a master: what has a number, a label and channels.
pub trait Strip: Sized {
    /// The number of the strip.
    spec fn number(self) -> u32;

    /// The label of the strip.
    spec fn caption(self) -> Seq<char>;

    /// The channel count of the strip.
    spec fn width(self) -> usize;

    /// The number of the strip.
    fn strip_id(&self) -> (r: u32)
        ensures
            r == self.number(),
    ;

    /// The label of the strip.
    fn strip_label(&self) -> (r: &str)
        ensures
            r@ == self.caption(),
    ;

    /// The channel count of the strip.
    fn strip_channels(&self) -> (r: usize)
        ensures
            r == self.width(),
    ;
}

impl Strip for Track {
    open spec fn number(self) -> u32 {
        self.id
    }

    open spec fn caption(self) -> Seq<char> {
        self.label@
    }

    open spec fn width(self) -> usize {
        self.channels
    }

    fn strip_id(&self) -> u32 {
        self.id
    }

    fn strip_label(&self) -> &str {
        self.label.as_str()
    }

    fn strip_channels(&self) -> usize {
        self.channels
    }
}

impl Strip for Bus {
    open spec fn number(self) -> u32 {
        self.id
    }

    open spec fn caption(self) -> Seq<char> {
        self.label@
    }

    open spec fn width(self) -> usize {
        self.channels
    }

    fn strip_id(&self) -> u32 {
        self.id
    }

    fn strip_label(&self) -> &str {
        self.label.as_str()
    }

    fn strip_channels(&self) -> usize {
        self.channels
    }
}

impl Strip for MasterTrack {
    open spec fn number(self) -> u32 {
        self.id
    }

    open spec fn caption(self) -> Seq<char> {
        self.label@
    }

    open spec fn width(self) -> usize {
        self.channels
    }

    fn strip_id(&self) -> u32 {
        self.id
    }

    fn strip_label(&self) -> &str {
        self.label.as_str()
    }

    fn strip_channels(&self) -> usize {
        self.channels
    }
}

/// Whether every strip of a table stands under its own number.
pub open spec fn own_keys<S: Strip>(s: Seq<(u32, S)>) -> bool {
    forall|i: int| 0 <= i < s.len() ==> (#[trigger] s[i]).1.number() == s[i].0
}

/// The numbers and channel counts of strips.
pub open spec fn widths<S: Strip>(s: Seq<(u32, S)>) -> Seq<(u32, usize)> {
    s.map_values(|e: (u32, S)| (e.1.number(), e.1.width()))
}

/// The list of strips that clients see.
pub open spec fn strip_list<S: Strip>(s: Seq<(u32, S)>) -> Seq<Doc> {
    s.map_values(
        |e: (u32, S)|
            listed(Doc::Number(whole(e.1.number() as u64)), e.1.caption(), e.1.width()),
    )
}

/// The numbers and channel counts of the strips of a table.
pub fn channel_list<S: Strip>(t: &Table<u32, S>) -> (r: Vec<(u32, usize)>)
    ensures
        r@ == widths(t.list()),
{
    let mut out: Vec<(u32, usize)> = Vec::new();
    for i in 0..t.len()
        invariant
            out@ == widths(t.list()).take(i as int),
    {
        let s = t.value_at(i);
        out.push((s.strip_id(), s.strip_channels()));
        assert(out@ =~= widths(t.list()).take(i + 1));
    }
    assert(out@ =~= widths(t.list()));
    out
}

/// The list of the strips of a table, in the order of their numbers.
pub fn list_strips<S: Strip>(t: &Table<u32, S>) -> (r: Json)
    ensures
        r@ == Doc::Array(strip_list(t.list())),
{
    let mut items = no_items();
    for i in 0..t.len()
        invariant
            docs(items@) == strip_list(t.list()).take(i as int),
    {
        let s = t.value_at(i);
        put_item(
            &mut items,
            list_item(Json::whole(s.strip_id() as u64), s.strip_label(), s.strip_channels()),
        );
        assert(docs(items@) =~= strip_list(t.list()).take(i + 1));
    }
    assert(docs(items@) =~= strip_list(t.list()));
    Json::array(items)
}

/// A table keeps its strips under their numbers when one is put in under its number.
pub proof fn lemma_own_keys_insert<S: Strip>(before: Seq<(u32, S)>, after: Seq<(u32, S)>, s: S)
    requires
        sorted(before),
        sorted(after),
        own_keys(before),
        as_map(after) == as_map(before).insert(s.number(), s),
    ensures
        own_keys(after),
{
    assert forall|i: int| 0 <= i < after.len() implies (#[trigger] after[i]).1.number()
        == after[i].0 by {
        lemma_in_map(after, i);
        if after[i].0 != s.number() {
            let j = lemma_from_map(before, after[i].0);
        }
    }
}

/// A table keeps its strips under their numbers when one is taken out.
pub proof fn lemma_own_keys_remove<S: Strip>(before: Seq<(u32, S)>, after: Seq<(u32, S)>, id: u32)
    requires
        sorted(before),
        sorted(after),
        own_keys(before),
        as_map(after) == as_map(before).remove(id),
    ensures
        own_keys(after),
{
    assert forall|i: int| 0 <= i < after.len() implies (#[trigger] after[i]).1.number()
        == after[i].0 by {
        lemma_in_map(after, i);
        let j = lemma_from_map(before, after[i].0);
    }
}

/// What a delay line lets out while `x` goes in.
pub open spec fn delayed<T>(line: Seq<T>, x: Seq<T>) -> Seq<T> {
    (line + x).take(x.len() as int)
}

/// What a delay line holds after `x` went in.
pub open spec fn line_after<T>(line: Seq<T>, x: Seq<T>) -> Seq<T> {
    (line + x).skip(x.len() as int)
}

/// A delay line that nothing is put into, after `n` steps: what comes out goes in again.
pub open spec fn turned<T>(line: Seq<T>, n: nat) -> Seq<T>
    decreases n,
{
    if n == 0 {
        line
    } else {
        let l = turned(line, (n - 1) as nat);
        l.skip(1).push(l[0])
    }
}

/// The frames of a block: those of its first channel.
pub open spec fn frames_of<T>(buf: Seq<Vec<T>>) -> int {
    if buf.len() == 0 {
        0
    } else {
        buf[0]@.len() as int
    }
}

/// An alignment delay: one delay line per channel.
#[derive(Debug)]
pub struct LatencyCompensation<T> {
    buffers: Vec<Vec<T>>,
    write_pos: usize,
    samples: usize,
}

/// A ring read from its write position on.
pub open spec fn unrolled<T>(ring: Seq<T>, pos: int) -> Seq<T> {
    ring.skip(pos) + ring.take(pos)
}

impl<T: Copy> LatencyCompensation<T> {
    /// Whether the rings fit the delay.
    pub closed spec fn wf(self) -> bool {
        &&& forall|c: int|
            0 <= c < self.buffers@.len() ==> (#[trigger] self.buffers@[c])@.len() == (if self.samples == 0 { 1 } else { self.samples as int })
        &&& self.samples > 0 ==> self.write_pos < self.samples
        &&& self.samples == 0 ==> self.write_pos == 0
    }

    /// The delay in samples.
    pub closed spec fn delay(self) -> usize {
        self.samples
    }

    /// The number of channels that are delayed.
    pub closed spec fn width(self) -> nat {
        self.buffers@.len()
    }

    /// What the delay line of a channel holds, the oldest sample first.
    pub closed spec fn line(self, c: int) -> Seq<T> {
        unrolled(self.buffers@[c]@, self.write_pos as int)
    }

    /// No delay.
    pub fn new() -> (r: Self)
        ensures
            r.wf(),
            r.delay() == 0,
            r.width() == 0,
    {
        LatencyCompensation { buffers: Vec::new(), write_pos: 0, samples: 0 }
    }

    /// The delay in samples.
    pub fn samples(&self) -> (r: usize)
        ensures
            r == self.delay(),
    {
        self.samples
    }

    /// Starts over with a delay of exactly `samples` for `channels` channels: the lines are silent.
    pub fn resize(&mut self, channels: usize, samples: usize, silence: T)
        ensures
            final(self).wf(),
            final(self).delay() == samples,
            final(self).width() == channels,
            samples > 0 ==> forall|c: int|
                0 <= c < channels ==> #[trigger] final(self).line(c) == Seq::new(
                    samples as nat,
                    |i: int| silence,
                ),
    {
        let cap: usize = if samples == 0 {
            1
        } else {
            samples
        };
        let mut buffers: Vec<Vec<T>> = Vec::new();
        for c in 0..channels
            invariant
                buffers@.len() == c,
                forall|k: int|
                    0 <= k < c ==> (#[trigger] buffers@[k])@ == Seq::new(
                        cap as nat,
                        |i: int| silence,
                    ),
        {
            let mut ring: Vec<T> = Vec::new();
            for i in 0..cap
                invariant
                    ring@ == Seq::new(i as nat, |k: int| silence),
            {
                ring.push(silence);
                assert(ring@ =~= Seq::new((i + 1) as nat, |k: int| silence));
            }
            buffers.push(ring);
        }
        self.buffers = buffers;
        self.write_pos = 0;
        self.samples = samples;
        assert forall|c: int| 0 <= c < channels && samples > 0 implies #[trigger] self.line(c)
            == Seq::new(samples as nat, |i: int| silence) by {
            assert(self.buffers@[c]@ == Seq::new(cap as nat, |i: int| silence));
            assert(self.line(c) =~= Seq::new(samples as nat, |i: int| silence));
        }
    }

    /// Delays a block in place: as many frames of every channel as the first channel has. Nothing
    /// happens without a delay.
    pub fn process(&mut self, buf: &mut Vec<Vec<T>>)
        requires
            old(self).wf(),
            forall|c: int|
                0 <= c < old(buf)@.len() && c < old(self).width() ==> (#[trigger] old(
                    buf,
                )@[c])@.len() >= frames_of(old(buf)@),
        ensures
            final(self).wf(),
            final(self).delay() == old(self).delay(),
            final(self).width() == old(self).width(),
            final(buf)@.len() == old(buf)@.len(),
            old(self).delay() == 0 ==> final(buf)@ == old(buf)@ && *final(self) == *old(self),
            forall|c: int|
                0 <= c < old(buf)@.len() && c >= old(self).width() ==> (#[trigger] final(buf)@[c])@
                    == old(buf)@[c]@,
            old(self).delay() > 0 ==> forall|c: int|
                0 <= c < old(buf)@.len() && c < old(self).width() ==> (#[trigger] final(buf)@[c])@
                    == delayed(old(self).line(c), old(buf)@[c]@.take(frames_of(old(buf)@)))
                    + old(buf)@[c]@.skip(frames_of(old(buf)@)),
            old(self).delay() > 0 ==> forall|c: int|
                0 <= c < old(buf)@.len() && c < old(self).width() ==> #[trigger] final(self).line(c)
                    == line_after(old(self).line(c), old(buf)@[c]@.take(frames_of(old(buf)@))),
            old(self).delay() > 0 ==> forall|c: int|
                old(buf)@.len() <= c < old(self).width() ==> #[trigger] final(self).line(c)
                    == turned(old(self).line(c), frames_of(old(buf)@) as nat),
    {
        if self.samples == 0 {
            return;
        }
        let cap: usize = self.samples;
        let frames: usize = if buf.len() == 0 {
            0
        } else {
            buf[0].len()
        };
        let width: usize = if buf.len() < self.buffers.len() {
            buf.len()
        } else {
            self.buffers.len()
        };
        let ghost was = *old(self);
        let ghost x = old(buf)@;
        let mut frame: usize = 0;
        assert forall|c: int| 0 <= c < width implies #[trigger] self.line(c) == line_after(
            was.line(c),
            x[c]@.take(0),
        ) by {
            assert(self.line(c) =~= line_after(was.line(c), x[c]@.take(0)));
        }
        while frame < frames
            invariant
                frame <= frames,
                cap == self.samples,
                cap > 0,
                self.wf(),
                was.wf(),
                was.delay() == cap,
                was.width() == self.buffers@.len(),
                width <= x.len(),
                width <= self.buffers@.len(),
                width == x.len() || width == self.buffers@.len(),
                buf@.len() == x.len(),
                forall|c: int| 0 <= c < width ==> (#[trigger] x[c])@.len() >= frames,
                forall|c: int|
                    0 <= c < buf@.len() ==> (#[trigger] buf@[c])@.len() == x[c]@.len(),
                forall|c: int|
                    width <= c < buf@.len() ==> (#[trigger] buf@[c])@ == x[c]@,
                forall|c: int, k: int|
                    0 <= c < width && 0 <= k < frame ==> #[trigger] buf@[c]@[k] == (was.line(c) + x[c]@)[k],
                forall|c: int, k: int|
                    0 <= c < width && frame <= k < x[c]@.len() ==> #[trigger] buf@[c]@[k] == x[c]@[k],
                forall|c: int|
                    0 <= c < width ==> #[trigger] self.line(c) == line_after(
                        was.line(c),
                        x[c]@.take(frame as int),
                    ),
                forall|c: int|
                    width <= c < self.buffers@.len() ==> #[trigger] self.line(c) == turned(
                        was.line(c),
                        frame as nat,
                    ),
            decreases frames - frame,
        {
            let ghost before = *self;
            let ghost out = buf@;
            let wp: usize = self.write_pos;
            let mut c: usize = 0;
            while c < width
                invariant
                    c <= width,
                    frame < frames,
                    cap == self.samples,
                    cap > 0,
                    wp == self.write_pos,
                    wp == before.write_pos,
                    wp < cap,
                    before.wf(),
                    before.samples == cap,
                    self.buffers@.len() == before.buffers@.len(),
                    width <= buf@.len(),
                    width <= self.buffers@.len(),
                    buf@.len() == out.len(),
                    forall|k: int| 0 <= k < width ==> (#[trigger] out[k])@.len() >= frames,
                    forall|k: int|
                        0 <= k < c ==> (#[trigger] self.buffers@[k])@ == before.buffers@[k]@.update(
                            wp as int,
                            out[k]@[frame as int],
                        ),
                    forall|k: int|
                        c <= k < self.buffers@.len() ==> (#[trigger] self.buffers@[k])@ == before.buffers@[k]@,
                    forall|k: int|
                        0 <= k < c ==> (#[trigger] buf@[k])@ == out[k]@.update(
                            frame as int,
                            before.buffers@[k]@[wp as int],
                        ),
                    forall|k: int| c <= k < buf@.len() ==> (#[trigger] buf@[k])@ == out[k]@,
                decreases width - c,
            {
                assert(before.buffers@[c as int]@.len() == cap);
                let incoming = buf[c][frame];
                let outgoing = self.buffers[c][wp];
                self.buffers[c][wp] = incoming;
                buf[c][frame] = outgoing;
                c += 1;
            }
            self.write_pos = if wp + 1 == cap {
                0
            } else {
                wp + 1
            };
            proof {
                assert forall|k: int| 0 <= k < self.buffers@.len() implies (
                #[trigger] self.buffers@[k])@.len() == cap by {
                    assert(before.buffers@[k]@.len() == cap);
                }
                assert(self.wf());
                assert forall|k: int| 0 <= k < width implies #[trigger] self.line(k) == line_after(
                    was.line(k),
                    x[k]@.take(frame + 1),
                ) by {
                    assert(before.buffers@[k]@.len() == cap);
                    assert(was.buffers@[k]@.len() == cap);
                    assert(before.line(k) == line_after(was.line(k), x[k]@.take(frame as int)));
                    assert(out[k]@[frame as int] == x[k]@[frame as int]);
                    assert(self.line(k) =~= before.line(k).skip(1).push(x[k]@[frame as int]));
                    assert(line_after(was.line(k), x[k]@.take(frame + 1)) =~= line_after(
                        was.line(k),
                        x[k]@.take(frame as int),
                    ).skip(1).push(x[k]@[frame as int]));
                }
                assert forall|k: int| width <= k < self.buffers@.len() implies #[trigger] self.line(
                    k,
                ) == turned(was.line(k), (frame + 1) as nat) by {
                    assert(before.buffers@[k]@.len() == cap);
                    assert(before.line(k) == turned(was.line(k), frame as nat));
                    assert(self.line(k) =~= before.line(k).skip(1).push(before.line(k)[0]));
                }
                assert forall|k: int, j: int| 0 <= k < width && 0 <= j < frame + 1 implies
                    #[trigger] buf@[k]@[j] == (was.line(k) + x[k]@)[j] by {
                    assert(before.buffers@[k]@.len() == cap);
                    assert(was.buffers@[k]@.len() == cap);
                    if j == frame {
                        assert(before.line(k) == line_after(was.line(k), x[k]@.take(frame as int)));
                        assert(before.buffers@[k]@[wp as int] == before.line(k)[0]);
                    } else {
                        assert(buf@[k]@[j] == out[k]@[j]);
                    }
                }
                assert forall|k: int, j: int|
                    0 <= k < width && frame + 1 <= j < x[k]@.len() implies #[trigger] buf@[k]@[j]
                    == x[k]@[j] by {
                    assert(buf@[k]@[j] == out[k]@[j]);
                }
            }
            frame += 1;
        }
        proof {
            assert forall|c: int|
                0 <= c < x.len() && c < was.width() implies (#[trigger] buf@[c])@ == delayed(
                was.line(c),
                x[c]@.take(frames as int),
            ) + x[c]@.skip(frames as int) by {
                assert(x[c]@.len() >= frames);
                assert(was.buffers@[c]@.len() == cap);
                let y = delayed(was.line(c), x[c]@.take(frames as int)) + x[c]@.skip(frames as int);
                assert forall|k: int| 0 <= k < x[c]@.len() implies buf@[c]@[k] == y[k] by {
                    if k < frames {
                        assert(buf@[c]@[k] == (was.line(c) + x[c]@)[k]);
                    }
                }
                assert(buf@[c]@ =~= y);
            }
        }
    }
}

impl<T: Copy> Default for LatencyCompensation<T> {
    fn default() -> (r: Self)
        ensures
            r.wf(),
            r.delay() == 0,
            r.width() == 0,
    {
        LatencyCompensation::new()
    }
}

/// A delay line does not care where one block ends and the next begins.
pub proof fn law_delay_survives_block_boundaries<T>(line: Seq<T>, a: Seq<T>, b: Seq<T>)
    ensures
        delayed(line, a) + delayed(line_after(line, a), b) == delayed(line, a + b),
        line_after(line_after(line, a), b) == line_after(line, a + b),
{
    assert(delayed(line, a) + delayed(line_after(line, a), b) =~= delayed(line, a + b));
    assert(line_after(line_after(line, a), b) =~= line_after(line, a + b));
}

/// A delay line of `n` samples lets every sample out exactly `n` samples later.
pub proof fn law_delay_is_exact<T>(line: Seq<T>, x: Seq<T>, i: int)
    requires
        0 <= i,
        i + line.len() < x.len(),
    ensures
        delayed(line, x)[i + line.len()] == x[i],
{
}

/// The greatest of some latencies; zero where there is none.
pub open spec fn greatest(s: Seq<usize>) -> usize
    decreases s.len(),
{
    if s.len() == 0 {
        0
    } else if s.last() > greatest(s.drop_last()) {
        s.last()
    } else {
        greatest(s.drop_last())
    }
}

proof fn lemma_greatest(s: Seq<usize>, i: int)
    requires
        0 <= i < s.len(),
    ensures
        s[i] <= greatest(s),
    decreases s.len(),
{
    if i < s.len() - 1 {
        lemma_greatest(s.drop_last(), i);
    }
}

/// What each entry lacks to the greatest latency.
pub fn compute_compensation(own_latencies: &[usize]) -> (r: Vec<usize>)
    ensures
        r@.len() == own_latencies@.len(),
        forall|i: int|
            0 <= i < r@.len() ==> #[trigger] r@[i] == greatest(own_latencies@) - own_latencies@[i],
{
    let mut max: usize = 0;
    assert(own_latencies@.take(0) =~= Seq::empty());
    for i in 0..own_latencies.len()
        invariant
            max == greatest(own_latencies@.take(i as int)),
    {
        assert(own_latencies@.take(i + 1).drop_last() =~= own_latencies@.take(i as int));
        if own_latencies[i] > max {
            max = own_latencies[i];
        }
    }
    assert(own_latencies@.take(own_latencies@.len() as int) =~= own_latencies@);
    let mut out: Vec<usize> = Vec::new();
    for i in 0..own_latencies.len()
        invariant
            max == greatest(own_latencies@),
            out@.len() == i,
            forall|k: int| 0 <= k < i ==> #[trigger] out@[k] == max - own_latencies@[k],
    {
        proof {
            lemma_greatest(own_latencies@, i as int);
        }
        out.push(max - own_latencies[i]);
    }
    out
}

/// With the compensation every entry is delayed by the same total.
pub proof fn law_compensation_aligns(own: Seq<usize>, comp: Seq<usize>, i: int, j: int)
    requires
        comp.len() == own.len(),
        forall|k: int| 0 <= k < own.len() ==> #[trigger] comp[k] == greatest(own) - own[k],
        0 <= i < own.len(),
        0 <= j < own.len(),
    ensures
        own[i] + comp[i] == own[j] + comp[j],
{
}

/// How the channels of a track go into those of a bus.
#[derive(Clone, Copy, Debug, PartialEq, Eq, Structural)]
pub enum MixPlan {
    /// One to one.
    Direct,
    /// The one channel into every channel.
    Spread,
    /// The average of all channels into the one.
    Average,
    /// Not at all.
    Nothing,
}

/// How `track_channels` channels go into `bus_channels`.
pub open spec fn mixing(track_channels: usize, bus_channels: usize) -> MixPlan {
    if track_channels == bus_channels {
        MixPlan::Direct
    } else if track_channels == 1 && bus_channels > 1 {
        MixPlan::Spread
    } else if bus_channels == 1 && track_channels > 1 {
        MixPlan::Average
    } else {
        MixPlan::Nothing
    }
}

/// How `track_channels` channels go into `bus_channels`.
pub fn mix_plan(track_channels: usize, bus_channels: usize) -> (r: MixPlan)
    ensures
        r == mixing(track_channels, bus_channels),
{
    if track_channels == bus_channels {
        MixPlan::Direct
    } else if track_channels == 1 && bus_channels > 1 {
        MixPlan::Spread
    } else if bus_channels == 1 && track_channels > 1 {
        MixPlan::Average
    } else {
        MixPlan::Nothing
    }
}

/// Whether a send from a track into a bus does something.
pub fn channels_compatible(track_channels: usize, bus_channels: usize) -> (r: bool)
    ensures
        r == (track_channels == bus_channels || track_channels == 1 || bus_channels == 1),
{
    track_channels == bus_channels || track_channels == 1 || bus_channels == 1
}

/// For resources that have channels, the counts are compatible exactly where mixing does
/// something.
pub proof fn law_compatible_is_mixable(track_channels: usize, bus_channels: usize)
    requires
        track_channels >= 1,
        bus_channels >= 1,
    ensures
        (track_channels == bus_channels || track_channels == 1 || bus_channels == 1) <==> mixing(
            track_channels,
            bus_channels,
        ) != MixPlan::Nothing,
{
}

/// Whether a strip is muted.
pub fn is_muted(mute: &bool) -> (r: bool)
    ensures
        r == *mute,
{
    *mute
}

/// Whether a strip is soloed.
pub fn is_soloed(solo: &bool) -> (r: bool)
    ensures
        r == *solo,
{
    *solo
}

/// Whether a send is on.
pub fn is_on(on: &bool) -> (r: bool)
    ensures
        r == *on,
{
    *on
}

} // verus!
