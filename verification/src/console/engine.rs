//! The state of the mixer, and what it does in one period.

use vstd::prelude::*;
use vstd::string::*;

use crate::console::mixer::{
    channel_list, greatest, is_muted, is_on, is_soloed, mix_plan, mixing, own_keys, widths, Bus,
    BusModel, MasterModel, MasterTrack, MixPlan, PickoffPoint, Send, Strip, Track, TrackModel,
};
use crate::console::patch::{
    filled, held_all, planar, summands, value_of, world, Gone, InputGrid, InputGridEntry,
    OutputGrid, OutputGridEntry, PatchModel, PatchState, RefModel, Signals, World,
};
use crate::table::{lemma_distinct, lemma_from_map, lemma_in_map, Table};

verus! {

/// The mixer: its strips, its grids and the patch bay between them.
pub struct MixerState {
    pub tracks: Table<u32, Track>,
    pub buses: Table<u32, Bus>,
    pub masters: Table<u32, MasterTrack>,
    pub input_grid: InputGrid,
    pub output_grid: OutputGrid,
    pub patch: PatchState,
    /// The channel count of a strip that is created without one.
    pub default_channels: usize,
    /// Counts the creations and deletions of strips.
    pub topology_generation: u64,
    /// The strips that were deleted since the last period began.
    pub retired: Vec<Gone>,
    pub period_frames: usize,
    pub sample_rate: u32,
}

/// What a [`MixerState`] says.
pub struct MixerModel {
    pub tracks: Map<u32, TrackModel>,
    pub buses: Map<u32, BusModel>,
    pub masters: Map<u32, MasterModel>,
    pub inputs: Map<Seq<char>, InputGridEntry>,
    pub outputs: Map<Seq<char>, OutputGridEntry>,
    pub patch: PatchModel,
    pub default_channels: usize,
    pub topology_generation: u64,
    pub retired: Seq<Gone>,
    pub period_frames: usize,
    pub sample_rate: u32,
}

impl View for MixerState {
    type V = MixerModel;

    open spec fn view(&self) -> MixerModel {
        MixerModel {
            tracks: self.tracks@.map_values(|t: Track| t@),
            buses: self.buses@.map_values(|b: Bus| b@),
            masters: self.masters@.map_values(|m: MasterTrack| m@),
            inputs: self.input_grid.entries@,
            outputs: self.output_grid.entries@,
            patch: self.patch@,
            default_channels: self.default_channels,
            topology_generation: self.topology_generation,
            retired: self.retired@,
            period_frames: self.period_frames,
            sample_rate: self.sample_rate,
        }
    }
}

impl MixerState {
    /// Whether every strip and grid entry stands under its own id.
    pub open spec fn wf(self) -> bool {
        &&& self.tracks.wf()
        &&& own_keys(self.tracks.list())
        &&& self.buses.wf()
        &&& own_keys(self.buses.list())
        &&& self.masters.wf()
        &&& own_keys(self.masters.list())
        &&& self.input_grid.wf()
        &&& self.output_grid.wf()
        &&& self.patch.wf()
    }

    /// The source points that there are.
    pub open spec fn world(self) -> World {
        world(
            widths(self.tracks.list()),
            widths(self.buses.list()),
            widths(self.masters.list()),
            self.input_grid,
        )
    }

    /// A mixer without strips and grid entries.
    pub fn new(default_channels: usize, period_frames: usize, sample_rate: u32) -> (r: Self)
        ensures
            r.wf(),
            r@.tracks == Map::<u32, TrackModel>::empty(),
            r@.buses == Map::<u32, BusModel>::empty(),
            r@.masters == Map::<u32, MasterModel>::empty(),
            r@.inputs == Map::<Seq<char>, InputGridEntry>::empty(),
            r@.outputs == Map::<Seq<char>, OutputGridEntry>::empty(),
            r@.patch == PatchModel::unpatched(),
            r@.default_channels == default_channels,
            r@.topology_generation == 0,
            r@.retired == Seq::<Gone>::empty(),
            r@.period_frames == period_frames,
            r@.sample_rate == sample_rate,
    {
        let r = MixerState {
            tracks: Table::new(),
            buses: Table::new(),
            masters: Table::new(),
            input_grid: InputGrid::new(),
            output_grid: OutputGrid::new(),
            patch: PatchState::new(),
            default_channels,
            topology_generation: 0,
            retired: Vec::new(),
            period_frames,
            sample_rate,
        };
        assert(r@.tracks =~= Map::empty());
        assert(r@.buses =~= Map::empty());
        assert(r@.masters =~= Map::empty());
        r
    }

    /// The tracks, in the order of their numbers.
    pub fn tracks_snapshot(&self) -> (r: Vec<&Track>)
        ensures
            r@.len() == self.tracks.list().len(),
            forall|i: int| 0 <= i < r@.len() ==> *#[trigger] r@[i] == self.tracks.list()[i].1,
    {
        snapshot(&self.tracks)
    }

    /// The buses, in the order of their numbers.
    pub fn buses_snapshot(&self) -> (r: Vec<&Bus>)
        ensures
            r@.len() == self.buses.list().len(),
            forall|i: int| 0 <= i < r@.len() ==> *#[trigger] r@[i] == self.buses.list()[i].1,
    {
        snapshot(&self.buses)
    }

    /// The masters, in the order of their numbers.
    pub fn masters_snapshot(&self) -> (r: Vec<&MasterTrack>)
        ensures
            r@.len() == self.masters.list().len(),
            forall|i: int| 0 <= i < r@.len() ==> *#[trigger] r@[i] == self.masters.list()[i].1,
    {
        snapshot(&self.masters)
    }

    /// The numbers and channel counts of the tracks.
    pub fn track_channels(&self) -> (r: Vec<(u32, usize)>)
        ensures
            r@ == self.world().tracks,
    {
        channel_list(&self.tracks)
    }

    /// The numbers and channel counts of the buses.
    pub fn bus_channels(&self) -> (r: Vec<(u32, usize)>)
        ensures
            r@ == self.world().buses,
    {
        channel_list(&self.buses)
    }

    /// The numbers and channel counts of the masters.
    pub fn master_channels(&self) -> (r: Vec<(u32, usize)>)
        ensures
            r@ == self.world().masters,
    {
        channel_list(&self.masters)
    }
}

fn snapshot<S>(t: &Table<u32, S>) -> (r: Vec<&S>)
    ensures
        r@.len() == t.list().len(),
        forall|i: int| 0 <= i < r@.len() ==> *#[trigger] r@[i] == t.list()[i].1,
{
    let mut out: Vec<&S> = Vec::new();
    for i in 0..t.len()
        invariant
            out@.len() == i,
            forall|k: int| 0 <= k < i ==> *#[trigger] out@[k] == t.list()[k].1,
    {
        out.push(t.value_at(i));
    }
    out
}

/// The samples of one track in a period, at the two points where sends tap them.
#[derive(Debug)]
pub struct TrackScratch<T> {
    pub pre_fader: Vec<Vec<T>>,
    pub post_fader: Vec<Vec<T>>,
}

fn no_channels<T>(channels: usize) -> (r: Vec<Vec<T>>)
    ensures
        planar(r@) == Seq::new(channels as nat, |c: int| Seq::<T>::empty()),
{
    let mut out: Vec<Vec<T>> = Vec::new();
    for i in 0..channels
        invariant
            out@.len() == i,
            forall|k: int| 0 <= k < i ==> (#[trigger] out@[k])@ == Seq::<T>::empty(),
    {
        out.push(Vec::new());
    }
    assert(planar(out@) =~= Seq::new(channels as nat, |c: int| Seq::<T>::empty()));
    out
}

/// Whether scratch buffers have the channels of a track, and no samples yet.
pub open spec fn blank<T>(s: TrackScratch<T>, channels: usize) -> bool {
    &&& planar(s.pre_fader@) == Seq::new(channels as nat, |c: int| Seq::<T>::empty())
    &&& planar(s.post_fader@) == Seq::new(channels as nat, |c: int| Seq::<T>::empty())
}

/// Whether there are scratch buffers for exactly the tracks of a list.
pub open spec fn fits<T>(scratch: Map<u32, TrackScratch<T>>, tracks: Map<u32, Track>) -> bool {
    &&& scratch.dom() == tracks.dom()
    &&& forall|id: u32| #[trigger]
        tracks.contains_key(id) ==> blank(scratch[id], tracks[id].channels)
}

/// One set of scratch buffers per track, under the track's number and with its channel count.
pub fn build_track_scratch<T>(tracks: &Table<u32, Track>) -> (r: Table<u32, TrackScratch<T>>)
    requires
        tracks.wf(),
    ensures
        r.wf(),
        fits(r@, tracks@),
{
    let mut out: Table<u32, TrackScratch<T>> = Table::new();
    for i in 0..tracks.len()
        invariant
            tracks.wf(),
            out.wf(),
            forall|id: u32| #[trigger]
                out@.contains_key(id) <==> exists|k: int| 0 <= k < i && tracks.list()[k].0 == id,
            forall|k: int|
                0 <= k < i ==> blank(
                    out@[(#[trigger] tracks.list()[k]).0],
                    tracks.list()[k].1.channels,
                ),
    {
        let t = tracks.value_at(i);
        let s = TrackScratch { pre_fader: no_channels(t.channels), post_fader: no_channels(t.channels) };
        let ghost before = out@;
        out.insert(*tracks.key_at(i), s);
        proof {
            let id = tracks.list()[i as int].0;
            assert forall|k: int| 0 <= k < i implies (#[trigger] tracks.list()[k]).0 != id by {
                lemma_distinct(tracks.list(), k, i as int);
            }
        }
    }
    proof {
        let list = tracks.list();
        assert forall|id: u32| out@.contains_key(id) <==> tracks@.contains_key(id) by {
            if tracks@.contains_key(id) {
                let k = lemma_from_map(list, id);
            }
            if out@.contains_key(id) {
                let k = choose|k: int| 0 <= k < list.len() && list[k].0 == id;
                lemma_in_map(list, k);
            }
        }
        assert(out@.dom() =~= tracks@.dom());
        assert forall|id: u32| #[trigger] tracks@.contains_key(id) implies blank(
            out@[id],
            tracks@[id].channels,
        ) by {
            let k = lemma_from_map(list, id);
        }
    }
    out
}

/// The channel counts of strips.
pub open spec fn counts<S: Strip>(s: Seq<(u32, S)>) -> Seq<usize> {
    s.map_values(|e: (u32, S)| e.1.width())
}

/// The channel counts of an output grid.
pub open spec fn output_counts(s: Seq<(String, OutputGridEntry)>) -> Seq<usize> {
    s.map_values(|e: (String, OutputGridEntry)| e.1.channels)
}

/// The widest of some channel counts; one where there is none.
pub open spec fn widest(s: Seq<usize>) -> usize {
    if s.len() == 0 {
        1
    } else {
        greatest(s)
    }
}

proof fn lemma_greatest_concat(a: Seq<usize>, b: Seq<usize>)
    ensures
        greatest(a + b) == (if greatest(b) > greatest(a) {
            greatest(b)
        } else {
            greatest(a)
        }),
    decreases b.len(),
{
    if b.len() == 0 {
        assert(a + b =~= a);
    } else {
        lemma_greatest_concat(a, b.drop_last());
        assert((a + b).drop_last() =~= a + b.drop_last());
        assert((a + b).last() == b.last());
    }
}

fn greatest_count<S: Strip>(t: &Table<u32, S>, least: usize) -> (r: usize)
    ensures
        r == (if greatest(counts(t.list())) > least {
            greatest(counts(t.list()))
        } else {
            least
        }),
{
    let mut max: usize = least;
    let ghost all = counts(t.list());
    assert(all.take(0) =~= Seq::empty());
    for i in 0..t.len()
        invariant
            all == counts(t.list()),
            max == (if greatest(all.take(i as int)) > least {
                greatest(all.take(i as int))
            } else {
                least
            }),
    {
        assert(all.take(i + 1).drop_last() =~= all.take(i as int));
        let c: usize = t.value_at(i).strip_channels();
        if c > max {
            max = c;
        }
    }
    assert(all.take(all.len() as int) =~= all);
    max
}

/// The widest channel count among the tracks, buses, masters and output-grid entries; one where
/// there are none.
pub fn compute_max_channels(
    tracks: &Table<u32, Track>,
    buses: &Table<u32, Bus>,
    masters: &Table<u32, MasterTrack>,
    output_grid: &OutputGrid,
) -> (r: usize)
    ensures
        r == widest(
            counts(tracks.list()) + counts(buses.list()) + counts(masters.list()) + output_counts(
                output_grid.entries.list(),
            ),
        ),
{
    if tracks.len() == 0 && buses.len() == 0 && masters.len() == 0 && output_grid.entries.len() == 0 {
        return 1;
    }
    let mut max: usize = greatest_count(tracks, 0);
    max = greatest_count(buses, max);
    max = greatest_count(masters, max);
    let ghost before = counts(tracks.list()) + counts(buses.list()) + counts(masters.list());
    proof {
        lemma_greatest_concat(counts(tracks.list()), counts(buses.list()));
        lemma_greatest_concat(
            counts(tracks.list()) + counts(buses.list()),
            counts(masters.list()),
        );
    }
    let ghost all = output_counts(output_grid.entries.list());
    assert(all.take(0) =~= Seq::empty());
    let n: usize = output_grid.entries.len();
    for i in 0..n
        invariant
            n == output_grid.entries.list().len(),
            all == output_counts(output_grid.entries.list()),
            max == (if greatest(all.take(i as int)) > greatest(before) {
                greatest(all.take(i as int))
            } else {
                greatest(before)
            }),
    {
        assert(all.take(i + 1).drop_last() =~= all.take(i as int));
        let c: usize = output_grid.entries.value_at(i).channels;
        if c > max {
            max = c;
        }
    }
    proof {
        assert(all.take(all.len() as int) =~= all);
        lemma_greatest_concat(before, all);
    }
    max
}

/// One piece of the work of a period.
#[derive(Debug)]
pub enum Step {
    Track(u32),
    Bus(u32),
    Master(u32),
    Output(String),
}

/// What a [`Step`] says.
pub enum StepModel {
    Track(u32),
    Bus(u32),
    Master(u32),
    Output(Seq<char>),
}

impl View for Step {
    type V = StepModel;

    open spec fn view(&self) -> StepModel {
        match *self {
            Step::Track(id) => StepModel::Track(id),
            Step::Bus(id) => StepModel::Bus(id),
            Step::Master(id) => StepModel::Master(id),
            Step::Output(id) => StepModel::Output(id@),
        }
    }
}

/// What a list of steps says.
pub open spec fn steps(s: Seq<Step>) -> Seq<StepModel> {
    s.map_values(|x: Step| x@)
}

fn put_step(out: &mut Vec<Step>, step: Step)
    ensures
        steps(final(out)@) == steps(old(out)@).push(step@),
{
    out.push(step);
    assert(steps(out@) =~= steps(old(out)@).push(step@));
}

/// The work of a period in its order: all tracks, then all buses, then all masters, then all
/// outputs.
pub fn schedule(mixer: &MixerState) -> (r: Vec<Step>)
    ensures
        steps(r@) == mixer.tracks.list().map_values(|e: (u32, Track)| StepModel::Track(e.0))
            + mixer.buses.list().map_values(|e: (u32, Bus)| StepModel::Bus(e.0))
            + mixer.masters.list().map_values(|e: (u32, MasterTrack)| StepModel::Master(e.0))
            + mixer.output_grid.entries.list().map_values(
            |e: (String, OutputGridEntry)| StepModel::Output(e.0@),
        ),
{
    let mut out: Vec<Step> = Vec::new();
    let ghost tracks = mixer.tracks.list().map_values(|e: (u32, Track)| StepModel::Track(e.0));
    for i in 0..mixer.tracks.len()
        invariant
            tracks == mixer.tracks.list().map_values(|e: (u32, Track)| StepModel::Track(e.0)),
            steps(out@) == tracks.take(i as int),
    {
        put_step(&mut out, Step::Track(*mixer.tracks.key_at(i)));
        assert(steps(out@) =~= tracks.take(i + 1));
    }
    assert(tracks.take(tracks.len() as int) =~= tracks);
    let ghost buses = mixer.buses.list().map_values(|e: (u32, Bus)| StepModel::Bus(e.0));
    assert(steps(out@) =~= tracks + buses.take(0));
    for i in 0..mixer.buses.len()
        invariant
            buses == mixer.buses.list().map_values(|e: (u32, Bus)| StepModel::Bus(e.0)),
            steps(out@) == tracks + buses.take(i as int),
    {
        put_step(&mut out, Step::Bus(*mixer.buses.key_at(i)));
        assert(steps(out@) =~= tracks + buses.take(i + 1));
    }
    assert(buses.take(buses.len() as int) =~= buses);
    let ghost masters = mixer.masters.list().map_values(
        |e: (u32, MasterTrack)| StepModel::Master(e.0),
    );
    assert(steps(out@) =~= tracks + buses + masters.take(0));
    for i in 0..mixer.masters.len()
        invariant
            masters == mixer.masters.list().map_values(
                |e: (u32, MasterTrack)| StepModel::Master(e.0),
            ),
            steps(out@) == tracks + buses + masters.take(i as int),
    {
        put_step(&mut out, Step::Master(*mixer.masters.key_at(i)));
        assert(steps(out@) =~= tracks + buses + masters.take(i + 1));
    }
    assert(masters.take(masters.len() as int) =~= masters);
    let ghost outputs = mixer.output_grid.entries.list().map_values(
        |e: (String, OutputGridEntry)| StepModel::Output(e.0@),
    );
    assert(steps(out@) =~= tracks + buses + masters + outputs.take(0));
    let n: usize = mixer.output_grid.entries.len();
    for i in 0..n
        invariant
            n == mixer.output_grid.entries.list().len(),
            outputs == mixer.output_grid.entries.list().map_values(
                |e: (String, OutputGridEntry)| StepModel::Output(e.0@),
            ),
            steps(out@) == tracks + buses + masters + outputs.take(i as int),
    {
        put_step(&mut out, Step::Output(mixer.output_grid.entries.key_at(i).clone()));
        assert(steps(out@) =~= tracks + buses + masters + outputs.take(i + 1));
    }
    assert(outputs.take(outputs.len() as int) =~= outputs);
    out
}

/// Whether any track of a list is soloed.
pub open spec fn some_solo(tracks: Seq<(u32, Track)>) -> bool {
    exists|i: int| 0 <= i < tracks.len() && (#[trigger] tracks[i]).1.solo
}

/// Whether any track is soloed.
pub fn any_solo(tracks: &Table<u32, Track>) -> (r: bool)
    ensures
        r == some_solo(tracks.list()),
{
    for i in 0..tracks.len()
        invariant
            forall|k: int| 0 <= k < i ==> !(#[trigger] tracks.list()[k]).1.solo,
    {
        if is_soloed(&tracks.value_at(i).solo) {
            assert(tracks.list()[i as int].1.solo);
            return true;
        }
    }
    false
}

/// The fader that a strip is heard at; none where it is not heard.
pub open spec fn heard_at(mute: bool, solo: bool, any_solo: bool, fader_db: u32) -> Option<u32> {
    if !mute && (!any_solo || solo) {
        Some(fader_db)
    } else {
        None
    }
}

/// Whether a track is heard: it is not muted, and it is soloed where any track is.
pub fn audible(track: &Track, any_solo: bool) -> (r: bool)
    ensures
        r == (!track.mute && (!any_solo || track.solo)),
        r == (heard_at(track.mute, track.solo, any_solo, track.fader_db) is Some),
{
    !is_muted(&track.mute) && (!any_solo || is_soloed(&track.solo))
}

/// The outputs of tracks, buses and masters.
pub struct Outs<T> {
    pub tracks: Table<u32, Vec<Vec<T>>>,
    pub buses: Table<u32, Vec<Vec<T>>>,
    pub masters: Table<u32, Vec<Vec<T>>>,
}

impl<T> Outs<T> {
    /// Whether the tables stand in order.
    pub open spec fn wf(self) -> bool {
        self.tracks.wf() && self.buses.wf() && self.masters.wf()
    }

    /// No outputs.
    pub fn new() -> (r: Self)
        ensures
            r.wf(),
            r.tracks@ == Map::<u32, Vec<Vec<T>>>::empty(),
            r.buses@ == Map::<u32, Vec<Vec<T>>>::empty(),
            r.masters@ == Map::<u32, Vec<Vec<T>>>::empty(),
    {
        Outs { tracks: Table::new(), buses: Table::new(), masters: Table::new() }
    }
}

/// The tracks among deleted strips.
pub open spec fn retired_tracks(retired: Seq<Gone>) -> Set<u32> {
    Set::new(|id: u32| retired.contains(Gone::Track(id)))
}

/// The buses among deleted strips.
pub open spec fn retired_buses(retired: Seq<Gone>) -> Set<u32> {
    Set::new(|id: u32| retired.contains(Gone::Bus(id)))
}

/// The masters among deleted strips.
pub open spec fn retired_masters(retired: Seq<Gone>) -> Set<u32> {
    Set::new(|id: u32| retired.contains(Gone::Master(id)))
}

fn forget<T>(outs: &mut Outs<T>, retired: &Vec<Gone>)
    requires
        old(outs).wf(),
    ensures
        final(outs).wf(),
        final(outs).tracks@ == old(outs).tracks@.remove_keys(retired_tracks(retired@)),
        final(outs).buses@ == old(outs).buses@.remove_keys(retired_buses(retired@)),
        final(outs).masters@ == old(outs).masters@.remove_keys(retired_masters(retired@)),
{
    let ghost was = *outs;
    assert(was.tracks@ =~= was.tracks@.remove_keys(retired_tracks(retired@.take(0))));
    assert(was.buses@ =~= was.buses@.remove_keys(retired_buses(retired@.take(0))));
    assert(was.masters@ =~= was.masters@.remove_keys(retired_masters(retired@.take(0))));
    for i in 0..retired.len()
        invariant
            outs.wf(),
            outs.tracks@ == was.tracks@.remove_keys(retired_tracks(retired@.take(i as int))),
            outs.buses@ == was.buses@.remove_keys(retired_buses(retired@.take(i as int))),
            outs.masters@ == was.masters@.remove_keys(retired_masters(retired@.take(i as int))),
    {
        let ghost prefix = retired@.take(i as int);
        let ghost gone = retired@[i as int];
        assert(retired@.take(i + 1) =~= prefix.push(gone));
        assert forall|g: Gone| #[trigger] prefix.push(gone).contains(g) <==> prefix.contains(g) || g
            == gone by {
            if prefix.contains(g) {
                let k = choose|k: int| 0 <= k < prefix.len() && prefix[k] == g;
                assert(prefix.push(gone)[k] == g);
            }
            if g == gone {
                assert(prefix.push(gone)[prefix.len() as int] == g);
            }
        }
        match retired[i] {
            Gone::Track(id) => {
                let _ = outs.tracks.remove(&id);
            },
            Gone::Bus(id) => {
                let _ = outs.buses.remove(&id);
            },
            Gone::Master(id) => {
                let _ = outs.masters.remove(&id);
            },
        }
        assert(outs.tracks@ =~= was.tracks@.remove_keys(retired_tracks(retired@.take(i + 1))));
        assert(outs.buses@ =~= was.buses@.remove_keys(retired_buses(retired@.take(i + 1))));
        assert(outs.masters@ =~= was.masters@.remove_keys(retired_masters(retired@.take(i + 1))));
    }
    assert(retired@.take(retired@.len() as int) =~= retired@);
}

fn move_over<T>(from: &mut Table<u32, T>, to: &mut Table<u32, T>)
    requires
        old(from).wf(),
        old(to).wf(),
    ensures
        final(from).wf(),
        final(to).wf(),
        final(from)@ == Map::<u32, T>::empty(),
        final(to)@ == old(to)@.union_prefer_right(old(from)@),
{
    let ghost whole = to@.union_prefer_right(from@);
    while from.len() > 0
        invariant
            from.wf(),
            to.wf(),
            to@.union_prefer_right(from@) == whole,
        decreases from.list().len(),
    {
        let ghost a = from@;
        let ghost b = to@;
        let (id, v) = from.pop();
        to.insert(id, v);
        assert(to@.union_prefer_right(from@) =~= b.union_prefer_right(a));
    }
    assert(from@ =~= Map::empty()) by {
        assert forall|k: u32| !from@.contains_key(k) by {
            if from@.contains_key(k) {
                let i = lemma_from_map(from.list(), k);
            }
        }
    }
    assert(to@ =~= whole);
}

/// A block of silence.
pub open spec fn silent<T>(channels: nat, frames: usize, silence: T) -> Seq<Seq<T>> {
    Seq::new(channels, |c: int| Seq::new(frames as nat, |i: int| silence))
}

fn silent_block<T: Copy>(channels: usize, frames: usize, silence: T) -> (r: Vec<Vec<T>>)
    ensures
        planar(r@) == silent(channels as nat, frames, silence),
{
    let mut out: Vec<Vec<T>> = Vec::new();
    for c in 0..channels
        invariant
            out@.len() == c,
            forall|k: int|
                0 <= k < c ==> (#[trigger] out@[k])@ == Seq::new(frames as nat, |i: int| silence),
    {
        let mut ch: Vec<T> = Vec::new();
        for i in 0..frames
            invariant
                ch@ == Seq::new(i as nat, |k: int| silence),
        {
            ch.push(silence);
            assert(ch@ =~= Seq::new((i + 1) as nat, |k: int| silence));
        }
        out.push(ch);
    }
    assert(planar(out@) =~= silent(channels as nat, frames, silence));
    out
}

fn copy_block<T: Copy>(b: &Vec<Vec<T>>) -> (r: Vec<Vec<T>>)
    ensures
        planar(r@) == planar(b@),
{
    let mut out: Vec<Vec<T>> = Vec::new();
    for c in 0..b.len()
        invariant
            out@.len() == c,
            forall|k: int| 0 <= k < c ==> (#[trigger] out@[k])@ == b@[k]@,
    {
        let mut ch: Vec<T> = Vec::new();
        let n: usize = b[c].len();
        for i in 0..n
            invariant
                c < b@.len(),
                n == b@[c as int]@.len(),
                ch@ == b@[c as int]@.take(i as int),
        {
            ch.push(b[c][i]);
            assert(ch@ =~= b@[c as int]@.take(i + 1));
        }
        assert(ch@ =~= b@[c as int]@);
        out.push(ch);
    }
    assert(planar(out@) =~= planar(b@));
    out
}

/// What came of reading an input-grid entry.
#[derive(Debug)]
pub enum InputRead<T> {
    /// No flow is open for reading.
    NoReader,
    Samples(Vec<Vec<T>>),
    Failed,
}

/// What is to be done about an input-grid entry that was read.
#[derive(Clone, Copy, Debug, PartialEq, Eq, Structural)]
pub enum InputAction {
    /// Its meter shows what was read.
    Measure,
    /// Its meter shows silence.
    ShowSilence,
    /// Its meter shows silence, and the reader goes to the head of the flow.
    ShowSilenceAndResync,
}

/// What a track is to do in a period.
#[derive(Debug)]
pub struct TrackWork<T> {
    /// What its patch delivers.
    pub input: Vec<Vec<T>>,
    pub gain_db: u32,
    /// The fader; none where the track is not heard.
    pub fader_db: Option<u32>,
}

/// One send that goes into a bus.
#[derive(Debug)]
pub struct SendMix<'a, T> {
    pub source: &'a Vec<Vec<T>>,
    pub level_db: u32,
    pub plan: MixPlan,
}

/// What a bus is to sum in a period: the sends, and what its patch delivers to each channel.
#[derive(Debug)]
pub struct BusWork<'a, T> {
    pub channels: usize,
    pub sends: Vec<SendMix<'a, T>>,
    pub patch: Vec<Vec<&'a Vec<T>>>,
}

/// What a master is to do in a period: sum what its patch delivers to each channel, and scale it.
#[derive(Debug)]
pub struct MasterWork<'a, T> {
    pub channels: usize,
    pub patch: Vec<Vec<&'a Vec<T>>>,
    /// The fader; none where the master is muted.
    pub fader_db: Option<u32>,
}

/// The samples that a send taps.
pub open spec fn tapped<T>(s: TrackScratch<T>, pickoff: PickoffPoint) -> Vec<Vec<T>> {
    match pickoff {
        PickoffPoint::PreFader => s.pre_fader,
        PickoffPoint::PostFader => s.post_fader,
    }
}

/// The sends of one track that go into a bus.
pub open spec fn track_mixes<'a, T>(
    s: TrackScratch<T>,
    sends: Seq<Send>,
    bus_id: u32,
    channels: usize,
) -> Seq<SendMix<'a, T>>
    decreases sends.len(),
{
    if sends.len() == 0 {
        Seq::empty()
    } else {
        let rest = track_mixes(s, sends.drop_last(), bus_id, channels);
        let send = sends.last();
        if send.bus_id == bus_id && send.on {
            rest.push(
                SendMix {
                    source: &tapped(s, send.pickoff),
                    level_db: send.level_db,
                    plan: mixing(tapped(s, send.pickoff)@.len() as usize, channels),
                },
            )
        } else {
            rest
        }
    }
}

/// The sends of tracks that go into a bus. A track without scratch buffers sends nothing.
pub open spec fn bus_mixes<'a, T>(
    tracks: Seq<(u32, Track)>,
    scratch: Map<u32, TrackScratch<T>>,
    bus_id: u32,
    channels: usize,
) -> Seq<SendMix<'a, T>>
    decreases tracks.len(),
{
    if tracks.len() == 0 {
        Seq::empty()
    } else {
        let rest = bus_mixes(tracks.drop_last(), scratch, bus_id, channels);
        let t = tracks.last();
        if scratch.contains_key(t.0) {
            rest + track_mixes(scratch[t.0], t.1.sends@, bus_id, channels)
        } else {
            rest
        }
    }
}

fn put_track_mixes<'a, T>(
    out: &mut Vec<SendMix<'a, T>>,
    s: &'a TrackScratch<T>,
    sends: &Vec<Send>,
    bus_id: u32,
    channels: usize,
)
    ensures
        final(out)@ == old(out)@ + track_mixes(*s, sends@, bus_id, channels),
{
    let ghost was = out@;
    assert(sends@.take(0) =~= Seq::empty());
    assert(out@ =~= was + track_mixes(*s, sends@.take(0), bus_id, channels));
    for i in 0..sends.len()
        invariant
            out@ == was + track_mixes(*s, sends@.take(i as int), bus_id, channels),
    {
        let ghost before = track_mixes(*s, sends@.take(i as int), bus_id, channels);
        assert(sends@.take(i + 1).drop_last() =~= sends@.take(i as int));
        let send = sends[i];
        if send.bus_id == bus_id && is_on(&send.on) {
            let source: &'a Vec<Vec<T>> = match send.pickoff {
                PickoffPoint::PreFader => &s.pre_fader,
                PickoffPoint::PostFader => &s.post_fader,
            };
            let mix = SendMix { source, level_db: send.level_db, plan: mix_plan(source.len(), channels) };
            out.push(mix);
            assert((was + before).push(mix) =~= was + before.push(mix));
        }
    }
    assert(sends@.take(sends@.len() as int) =~= sends@);
}

fn gather_mixes<'a, T>(
    tracks: &Table<u32, Track>,
    scratch: &'a Table<u32, TrackScratch<T>>,
    bus_id: u32,
    channels: usize,
) -> (r: Vec<SendMix<'a, T>>)
    requires
        scratch.wf(),
    ensures
        r@ == bus_mixes(tracks.list(), scratch@, bus_id, channels),
{
    let mut out: Vec<SendMix<'a, T>> = Vec::new();
    let ghost all = tracks.list();
    assert(all.take(0) =~= Seq::empty());
    for i in 0..tracks.len()
        invariant
            scratch.wf(),
            all == tracks.list(),
            out@ == bus_mixes(all.take(i as int), scratch@, bus_id, channels),
    {
        assert(all.take(i + 1).drop_last() =~= all.take(i as int));
        if let Some(s) = scratch.get(tracks.key_at(i)) {
            put_track_mixes(&mut out, s, &tracks.value_at(i).sends, bus_id, channels);
        }
    }
    assert(all.take(all.len() as int) =~= all);
    out
}

/// The engine: what is carried within a period and from one period to the next.
///
/// A track hears the inputs of this period and the outputs of the previous one. A bus hears the
/// tracks of this period, a master the tracks and buses of this period, and an output everything
/// of this period. So the order of the strips of one kind never matters, and no patch can be
/// circular.
pub struct Engine<T> {
    pub silence: T,
    pub inputs: Table<String, Vec<Vec<T>>>,
    pub prev: Outs<T>,
    pub now: Outs<T>,
    pub scratch: Table<u32, TrackScratch<T>>,
    pub max_channels: usize,
    pub last_generation: u64,
}

/// The widest channel count of a mixer.
pub open spec fn mixer_width(mixer: MixerState) -> usize {
    widest(
        counts(mixer.tracks.list()) + counts(mixer.buses.list()) + counts(mixer.masters.list())
            + output_counts(mixer.output_grid.entries.list()),
    )
}

impl<T: Copy> Engine<T> {
    /// Whether the tables stand in order.
    pub open spec fn wf(self) -> bool {
        self.inputs.wf() && self.prev.wf() && self.now.wf() && self.scratch.wf()
    }

    /// What a track hears: the outputs of the previous period.
    pub open spec fn track_signals<'a>(self) -> Signals<'a, T> {
        Signals {
            inputs: &self.inputs,
            tracks: &self.prev.tracks,
            buses: &self.prev.buses,
            masters: &self.prev.masters,
        }
    }

    /// What a bus hears: the tracks of this period, the buses and masters of the previous one.
    pub open spec fn bus_signals<'a>(self) -> Signals<'a, T> {
        Signals {
            inputs: &self.inputs,
            tracks: &self.now.tracks,
            buses: &self.prev.buses,
            masters: &self.prev.masters,
        }
    }

    /// What a master hears: the tracks and buses of this period, the masters of the previous one.
    pub open spec fn master_signals<'a>(self) -> Signals<'a, T> {
        Signals {
            inputs: &self.inputs,
            tracks: &self.now.tracks,
            buses: &self.now.buses,
            masters: &self.prev.masters,
        }
    }

    /// What an output hears: everything of this period.
    pub open spec fn output_signals<'a>(self) -> Signals<'a, T> {
        Signals {
            inputs: &self.inputs,
            tracks: &self.now.tracks,
            buses: &self.now.buses,
            masters: &self.now.masters,
        }
    }

    /// Whether a piece of work is that of a track: it hears what its patch delivers, at its gain,
    /// and is heard at its fader.
    pub open spec fn is_track_work(self, mixer: MixerState, id: u32, w: TrackWork<T>) -> bool {
        let t = mixer.tracks@[id];
        &&& planar(w.input@) == filled(
            value_of(mixer@.patch.track_in, id),
            self.track_signals(),
            silent(self.scratch@[id].pre_fader@.len(), mixer.period_frames, self.silence),
        )
        &&& w.gain_db == t.gain_db
        &&& w.fader_db == heard_at(t.mute, t.solo, some_solo(mixer.tracks.list()), t.fader_db)
    }

    /// Whether a piece of work is that of a bus: it sums the sends and what its patch delivers.
    pub open spec fn is_bus_work<'a>(self, mixer: MixerState, id: u32, w: BusWork<'a, T>) -> bool {
        &&& w.channels == mixer.buses@[id].channels
        &&& w.sends@ == bus_mixes(mixer.tracks.list(), self.scratch@, id, w.channels)
        &&& held_all(w.patch@) == summands(
            value_of(mixer@.patch.bus_in, id),
            self.bus_signals(),
            w.channels as nat,
        )
    }

    /// Whether a piece of work is that of a master: it sums what its patch delivers, and is heard at
    /// its fader.
    pub open spec fn is_master_work<'a>(
        self,
        mixer: MixerState,
        id: u32,
        w: MasterWork<'a, T>,
    ) -> bool {
        let m = mixer.masters@[id];
        &&& w.channels == m.channels
        &&& held_all(w.patch@) == summands(
            value_of(mixer@.patch.master_in, id),
            self.master_signals(),
            w.channels as nat,
        )
        &&& w.fader_db == heard_at(m.mute, false, false, m.fader_db)
    }

    /// Whether a block is what an output transmits: what its patch delivers.
    pub open spec fn is_output_work(self, mixer: MixerState, id: Seq<char>, b: Seq<Seq<T>>) -> bool {
        b == filled(
            value_of(mixer@.patch.output, id),
            self.output_signals(),
            silent(
                mixer.output_grid.entries@[id].channels as nat,
                mixer.period_frames,
                self.silence,
            ),
        )
    }

    /// Whether an engine has taken what came of reading an input that another had not, and what is
    /// done about it.
    pub open spec fn takes_input(
        self,
        before: Engine<T>,
        id: Seq<char>,
        read: InputRead<T>,
        done: InputAction,
    ) -> bool {
        &&& done == (match read {
            InputRead::NoReader => InputAction::ShowSilence,
            InputRead::Samples(_) => InputAction::Measure,
            InputRead::Failed => InputAction::ShowSilenceAndResync,
        })
        &&& self.inputs@ == (match read {
            InputRead::Samples(block) => before.inputs@.insert(id, block),
            _ => before.inputs@,
        })
    }

    /// Whether an engine keeps the samples of a track that another did not, and else what that one
    /// kept of tracks.
    pub open spec fn keeps_track(
        self,
        before: Engine<T>,
        id: u32,
        pre_fader: Vec<Vec<T>>,
        post_fader: Vec<Vec<T>>,
    ) -> bool {
        &&& self.scratch@ == before.scratch@.insert(id, TrackScratch { pre_fader, post_fader })
        &&& self.now.tracks@.dom() == before.now.tracks@.dom().insert(id)
        &&& planar(self.now.tracks@[id]@) == planar(post_fader@)
        &&& forall|k: u32|
            k != id && before.now.tracks@.contains_key(k) ==> #[trigger] self.now.tracks@[k]
                == before.now.tracks@[k]
    }

    /// Whether an engine keeps the sum of a bus that another did not.
    pub open spec fn keeps_bus(self, before: Engine<T>, id: u32, out: Vec<Vec<T>>) -> bool {
        self.now.buses@ == before.now.buses@.insert(id, out)
    }

    /// Whether an engine keeps the output of a master that another did not.
    pub open spec fn keeps_master(self, before: Engine<T>, id: u32, out: Vec<Vec<T>>) -> bool {
        self.now.masters@ == before.now.masters@.insert(id, out)
    }

    /// Whether an engine finds what another kept in a period as that of the previous one.
    pub open spec fn follows(self, before: Engine<T>) -> bool {
        &&& self.prev.tracks@ == before.prev.tracks@.union_prefer_right(before.now.tracks@)
        &&& self.prev.buses@ == before.prev.buses@.union_prefer_right(before.now.buses@)
        &&& self.prev.masters@ == before.prev.masters@.union_prefer_right(before.now.masters@)
        &&& self.now.tracks@ == Map::<u32, Vec<Vec<T>>>::empty()
        &&& self.now.buses@ == Map::<u32, Vec<Vec<T>>>::empty()
        &&& self.now.masters@ == Map::<u32, Vec<Vec<T>>>::empty()
    }

    /// Whether an engine has begun a period: the inputs of the last one are forgotten, and so is
    /// what deleted strips put out.
    pub open spec fn begins(self, before: Engine<T>, retired: Seq<Gone>) -> bool {
        &&& self.inputs@ == Map::<Seq<char>, Vec<Vec<T>>>::empty()
        &&& self.prev.tracks@ == before.prev.tracks@.remove_keys(retired_tracks(retired))
        &&& self.prev.buses@ == before.prev.buses@.remove_keys(retired_buses(retired))
        &&& self.prev.masters@ == before.prev.masters@.remove_keys(retired_masters(retired))
        &&& self.now.tracks@ == Map::<u32, Vec<Vec<T>>>::empty()
        &&& self.now.buses@ == Map::<u32, Vec<Vec<T>>>::empty()
        &&& self.now.masters@ == Map::<u32, Vec<Vec<T>>>::empty()
    }

    /// An engine before its first period.
    pub fn new(mixer: &MixerState, silence: T) -> (r: Self)
        requires
            mixer.wf(),
        ensures
            r.wf(),
            r.silence == silence,
            r.inputs@ == Map::<Seq<char>, Vec<Vec<T>>>::empty(),
            r.prev.tracks@ == Map::<u32, Vec<Vec<T>>>::empty(),
            r.prev.buses@ == Map::<u32, Vec<Vec<T>>>::empty(),
            r.prev.masters@ == Map::<u32, Vec<Vec<T>>>::empty(),
            r.now.tracks@ == Map::<u32, Vec<Vec<T>>>::empty(),
            r.now.buses@ == Map::<u32, Vec<Vec<T>>>::empty(),
            r.now.masters@ == Map::<u32, Vec<Vec<T>>>::empty(),
            fits(r.scratch@, mixer.tracks@),
            r.max_channels == mixer_width(*mixer),
            r.last_generation == mixer.topology_generation,
    {
        Engine {
            silence,
            inputs: Table::new(),
            prev: Outs::new(),
            now: Outs::new(),
            scratch: build_track_scratch(&mixer.tracks),
            max_channels: compute_max_channels(
                &mixer.tracks,
                &mixer.buses,
                &mixer.masters,
                &mixer.output_grid,
            ),
            last_generation: mixer.topology_generation,
        }
    }

    /// Begins a period: forgets the inputs of the last one and the outputs of deleted strips, and
    /// makes the scratch buffers anew where strips were created or deleted. Says whether it did.
    pub fn begin_period(&mut self, mixer: &mut MixerState) -> (r: bool)
        requires
            old(self).wf(),
            old(mixer).wf(),
        ensures
            final(self).wf(),
            final(mixer).wf(),
            final(mixer)@ == (MixerModel { retired: Seq::empty(), ..old(mixer)@ }),
            final(mixer).tracks == old(mixer).tracks,
            final(mixer).buses == old(mixer).buses,
            final(mixer).masters == old(mixer).masters,
            r == (old(self).last_generation != old(mixer).topology_generation),
            final(self).silence == old(self).silence,
            final(self).begins(*old(self), old(mixer).retired@),
            final(self).last_generation == old(mixer).topology_generation,
            r ==> fits(final(self).scratch@, old(mixer).tracks@) && final(self).max_channels
                == mixer_width(*old(mixer)),
            !r ==> final(self).scratch == old(self).scratch && final(self).max_channels == old(
                self,
            ).max_channels,
    {
        self.inputs = Table::new();
        self.now = Outs::new();
        forget(&mut self.prev, &mixer.retired);
        mixer.retired = Vec::new();
        if self.last_generation != mixer.topology_generation {
            self.scratch = build_track_scratch(&mixer.tracks);
            self.max_channels = compute_max_channels(
                &mixer.tracks,
                &mixer.buses,
                &mixer.masters,
                &mixer.output_grid,
            );
            self.last_generation = mixer.topology_generation;
            true
        } else {
            false
        }
    }

    /// Takes what came of reading an input-grid entry.
    pub fn take_input(&mut self, id: &str, read: InputRead<T>) -> (r: InputAction)
        requires
            old(self).wf(),
        ensures
            final(self).wf(),
            final(self).takes_input(*old(self), id@, read, r),
            final(self).prev == old(self).prev,
            final(self).now == old(self).now,
            final(self).scratch == old(self).scratch,
            final(self).silence == old(self).silence,
            final(self).max_channels == old(self).max_channels,
            final(self).last_generation == old(self).last_generation,
    {
        match read {
            InputRead::NoReader => InputAction::ShowSilence,
            InputRead::Samples(block) => {
                self.inputs.insert(id.to_owned(), block);
                InputAction::Measure
            },
            InputRead::Failed => InputAction::ShowSilenceAndResync,
        }
    }

    /// What a track is to do; nothing where the track does not exist or has no scratch buffers.
    pub fn track_work(&self, mixer: &MixerState, id: u32) -> (r: Option<TrackWork<T>>)
        requires
            self.wf(),
            mixer.wf(),
        ensures
            r is Some <==> mixer.tracks@.contains_key(id) && self.scratch@.contains_key(id),
            r matches Some(w) ==> self.is_track_work(*mixer, id, w),
    {
        let track = mixer.tracks.get(&id)?;
        let scratch = self.scratch.get(&id)?;
        let mut input = silent_block(scratch.pre_fader.len(), mixer.period_frames, self.silence);
        let signals = Signals {
            inputs: &self.inputs,
            tracks: &self.prev.tracks,
            buses: &self.prev.buses,
            masters: &self.prev.masters,
        };
        mixer.patch.resolve_track_in(id, &signals, &mut input);
        let fader_db: Option<u32> = if audible(track, any_solo(&mixer.tracks)) {
            Some(track.fader_db)
        } else {
            None
        };
        Some(TrackWork { input, gain_db: track.gain_db, fader_db })
    }

    /// Keeps the samples of a track, before and after its fader.
    pub fn keep_track(&mut self, id: u32, pre_fader: Vec<Vec<T>>, post_fader: Vec<Vec<T>>)
        requires
            old(self).wf(),
        ensures
            final(self).wf(),
            final(self).keeps_track(*old(self), id, pre_fader, post_fader),
            final(self).now.buses == old(self).now.buses,
            final(self).now.masters == old(self).now.masters,
            final(self).prev == old(self).prev,
            final(self).inputs == old(self).inputs,
            final(self).silence == old(self).silence,
            final(self).max_channels == old(self).max_channels,
            final(self).last_generation == old(self).last_generation,
    {
        self.now.tracks.insert(id, copy_block(&post_fader));
        self.scratch.insert(id, TrackScratch { pre_fader, post_fader });
        assert(self.now.tracks@.dom() =~= old(self).now.tracks@.dom().insert(id));
    }

    /// What a bus is to sum; nothing where it does not exist.
    pub fn bus_work<'a>(&'a self, mixer: &MixerState, id: u32) -> (r: Option<BusWork<'a, T>>)
        requires
            self.wf(),
            mixer.wf(),
        ensures
            r is Some <==> mixer.buses@.contains_key(id),
            r matches Some(w) ==> self.is_bus_work(*mixer, id, w),
    {
        let bus = mixer.buses.get(&id)?;
        let signals = Signals {
            inputs: &self.inputs,
            tracks: &self.now.tracks,
            buses: &self.prev.buses,
            masters: &self.prev.masters,
        };
        Some(
            BusWork {
                channels: bus.channels,
                sends: gather_mixes(&mixer.tracks, &self.scratch, id, bus.channels),
                patch: mixer.patch.resolve_bus_in(id, &signals, bus.channels),
            },
        )
    }

    /// Keeps the sum of a bus.
    pub fn keep_bus(&mut self, id: u32, out: Vec<Vec<T>>)
        requires
            old(self).wf(),
        ensures
            final(self).wf(),
            final(self).keeps_bus(*old(self), id, out),
            final(self).now.tracks == old(self).now.tracks,
            final(self).now.masters == old(self).now.masters,
            final(self).prev == old(self).prev,
            final(self).inputs == old(self).inputs,
            final(self).scratch == old(self).scratch,
            final(self).silence == old(self).silence,
            final(self).max_channels == old(self).max_channels,
            final(self).last_generation == old(self).last_generation,
    {
        self.now.buses.insert(id, out);
    }

    /// What a master is to do; nothing where it does not exist.
    pub fn master_work<'a>(&'a self, mixer: &MixerState, id: u32) -> (r: Option<MasterWork<'a, T>>)
        requires
            self.wf(),
            mixer.wf(),
        ensures
            r is Some <==> mixer.masters@.contains_key(id),
            r matches Some(w) ==> self.is_master_work(*mixer, id, w),
    {
        let master = mixer.masters.get(&id)?;
        let signals = Signals {
            inputs: &self.inputs,
            tracks: &self.now.tracks,
            buses: &self.now.buses,
            masters: &self.prev.masters,
        };
        let fader_db: Option<u32> = if is_muted(&master.mute) {
            None
        } else {
            Some(master.fader_db)
        };
        Some(
            MasterWork {
                channels: master.channels,
                patch: mixer.patch.resolve_master_in(id, &signals, master.channels),
                fader_db,
            },
        )
    }

    /// Keeps the output of a master.
    pub fn keep_master(&mut self, id: u32, out: Vec<Vec<T>>)
        requires
            old(self).wf(),
        ensures
            final(self).wf(),
            final(self).keeps_master(*old(self), id, out),
            final(self).now.tracks == old(self).now.tracks,
            final(self).now.buses == old(self).now.buses,
            final(self).prev == old(self).prev,
            final(self).inputs == old(self).inputs,
            final(self).scratch == old(self).scratch,
            final(self).silence == old(self).silence,
            final(self).max_channels == old(self).max_channels,
            final(self).last_generation == old(self).last_generation,
    {
        self.now.masters.insert(id, out);
    }

    /// What an output-grid entry transmits; nothing where it does not exist.
    pub fn output_work(&self, mixer: &MixerState, id: &str) -> (r: Option<Vec<Vec<T>>>)
        requires
            self.wf(),
            mixer.wf(),
        ensures
            r is Some <==> mixer.output_grid.entries@.contains_key(id@),
            r matches Some(b) ==> self.is_output_work(*mixer, id@, planar(b@)),
    {
        let entry = mixer.output_grid.get(id)?;
        let mut block = silent_block(entry.channels, mixer.period_frames, self.silence);
        let signals = Signals {
            inputs: &self.inputs,
            tracks: &self.now.tracks,
            buses: &self.now.buses,
            masters: &self.now.masters,
        };
        mixer.patch.resolve_output(id, &signals, &mut block);
        Some(block)
    }

    /// Ends a period: what was kept in it is what the next one finds as previous.
    pub fn end_period(&mut self)
        requires
            old(self).wf(),
        ensures
            final(self).wf(),
            final(self).follows(*old(self)),
            final(self).inputs == old(self).inputs,
            final(self).scratch == old(self).scratch,
            final(self).silence == old(self).silence,
            final(self).max_channels == old(self).max_channels,
            final(self).last_generation == old(self).last_generation,
    {
        move_over(&mut self.now.tracks, &mut self.prev.tracks);
        move_over(&mut self.now.buses, &mut self.prev.buses);
        move_over(&mut self.now.masters, &mut self.prev.masters);
    }
}

/// Whatever is patched, a destination keeps its channels and their length.
pub proof fn law_destinations_keep_their_size<T>(
    slots: Option<Seq<Option<RefModel>>>,
    signals: Signals<T>,
    dst: Seq<Seq<T>>,
)
    ensures
        filled(slots, signals, dst).len() == dst.len(),
        forall|ch: int|
            0 <= ch < dst.len() ==> (#[trigger] filled(slots, signals, dst)[ch]).len()
                == dst[ch].len(),
{
}

/// A channel that nothing is patched into, or whose source carries nothing, stays as it was: silent.
pub proof fn law_unpatched_channels_are_silent<T>(
    slots: Option<Seq<Option<RefModel>>>,
    signals: Signals<T>,
    channels: nat,
    frames: usize,
    silence: T,
    ch: int,
)
    requires
        0 <= ch < channels,
        match slots {
            Some(s) => ch < s.len() ==> match s[ch] {
                Some(m) => signals.carried(m) is None,
                None => true,
            },
            None => true,
        },
    ensures
        filled(slots, signals, silent(channels, frames, silence))[ch] == Seq::new(
            frames as nat,
            |i: int| silence,
        ),
{
}

/// What a strip hears does not depend on what is kept for strips of its kind in the same period: a
/// bus that is patched into itself hears what it put out in the previous one.
pub proof fn law_strips_of_a_kind_do_not_hear_each_other<T: Copy>(before: Engine<T>, after: Engine<T>)
    requires
        after.prev == before.prev,
        after.inputs == before.inputs,
    ensures
        after.track_signals() == before.track_signals(),
        after.now.tracks == before.now.tracks ==> after.bus_signals() == before.bus_signals(),
        after.now.tracks == before.now.tracks && after.now.buses == before.now.buses
            ==> after.master_signals() == before.master_signals(),
{
}

/// When the next period begins, and what to do until then.
#[derive(Clone, Copy, Debug, PartialEq, Eq, Structural)]
pub enum Pace {
    /// Sleep for so long.
    Sleep(u64),
    /// Do not sleep: the schedule was missed by so much.
    Behind(u64),
}

/// What to do until the next period, and when the one after it begins.
pub open spec fn paced(next_tick: u64, now: u64, period: u64) -> (Pace, u64) {
    if next_tick > now {
        (Pace::Sleep((next_tick - now) as u64), (next_tick + period) as u64)
    } else {
        (Pace::Behind((now - next_tick) as u64), (now + period) as u64)
    }
}

/// Paces the periods against a schedule, all in one unit of time. On time, the next tick is one
/// period after this one, however long the work took. Behind the schedule, it is one period from
/// now: what was missed is not made up for.
pub fn pace(next_tick: u64, now: u64, period: u64) -> (r: (Pace, u64))
    requires
        next_tick + period <= u64::MAX,
        now + period <= u64::MAX,
    ensures
        r == paced(next_tick, now, period),
{
    if next_tick > now {
        (Pace::Sleep(next_tick - now), next_tick + period)
    } else {
        (Pace::Behind(now - next_tick), now + period)
    }
}

} // verus!
