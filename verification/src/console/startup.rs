//! Building the mixer from its configuration, and from the strips that an earlier run created.

use vstd::prelude::*;
use vstd::string::*;

use crate::console::config::{
    BusConfig, BusTarget, ChannelTemplate, Config, InputGridEntryConfig, MasterTrackConfig,
    OutputGridEntryConfig, StageSlotConfig, TrackConfig,
};
use crate::console::dsp::StageKind;
use crate::console::engine::MixerState;
use crate::console::ids::{instance_input_receiver_id, stable};
use crate::console::mixer::{
    configured_bus, configured_master, configured_track, lemma_own_keys_insert, own_keys, Bus,
    BusModel, MasterModel, MasterTrack, Strip, Track, TrackModel,
};
use crate::console::patch::{
    channels_of, feeds, feeds_refusal, find_channels, refs, refs_refusal, source_refusal, world,
    InputGrid, InputGridEntry, OutputGridEntry, PatchModel, PatchState, RefModel, SourceRef, World,
};
use crate::console::topology::{build_bus, build_master, build_track, channels_or};
use crate::json::Doc;
use crate::table::Table;
use crate::text::{dec, decimal};
use crate::uuid::denotes;

verus! {

/// What a [`MasterTrackConfig`] says.
pub struct MasterConfigModel {
    pub id: u32,
    pub label: Seq<char>,
    pub channels: Option<u32>,
    pub fader_db: u32,
    pub template: ChannelTemplate,
    pub chain: Seq<(StageKind, Doc)>,
}

/// What the slots of a chain say.
pub open spec fn slot_models(s: Seq<StageSlotConfig>) -> Seq<(StageKind, Doc)> {
    s.map_values(|x: StageSlotConfig| (x.kind, x.params@))
}

/// What the configuration of a master says.
pub open spec fn master_config(c: MasterTrackConfig) -> MasterConfigModel {
    MasterConfigModel {
        id: c.id,
        label: c.label@,
        channels: c.channels,
        fader_db: c.fader_db,
        template: c.template,
        chain: slot_models(c.chain@),
    }
}

/// What the configurations of masters say.
pub open spec fn master_configs(s: Seq<MasterTrackConfig>) -> Seq<MasterConfigModel> {
    s.map_values(|c: MasterTrackConfig| master_config(c))
}

/// The master that is paired with a bus.
pub open spec fn paired_master(b: BusConfig) -> MasterConfigModel
    recommends
        b.auto_master is Some,
{
    let auto = b.auto_master->0;
    MasterConfigModel {
        id: b.id,
        label: match auto.label {
            Some(l) => l@,
            None => b.label@,
        },
        channels: b.channels,
        fader_db: auto.fader_db,
        template: auto.template,
        chain: slot_models(auto.chain@),
    }
}

/// What is said of a bus whose paired master has an id that is taken.
pub open spec fn pairing_refusal(id: u32) -> Seq<char> {
    "bus "@ + dec(id as nat)
        + " has auto_master set, but an explicit master with the same id already exists in config.masters"@
}

/// The masters that are configured, and behind them those that are paired with buses.
pub open spec fn with_paired(masters: Seq<MasterConfigModel>, buses: Seq<BusConfig>) -> Result<
    Seq<MasterConfigModel>,
    Seq<char>,
>
    decreases buses.len(),
{
    if buses.len() == 0 {
        Ok(masters)
    } else {
        match with_paired(masters, buses.drop_last()) {
            Err(e) => Err(e),
            Ok(ms) => if buses.last().auto_master is None {
                Ok(ms)
            } else if has_id(ms, buses.last().id) {
                Err(pairing_refusal(buses.last().id))
            } else {
                Ok(ms.push(paired_master(buses.last())))
            },
        }
    }
}

/// Whether a master of a list has an id.
pub open spec fn has_id(ms: Seq<MasterConfigModel>, id: u32) -> bool {
    exists|i: int| 0 <= i < ms.len() && (#[trigger] ms[i]).id == id
}

fn copy_slots(s: &Vec<StageSlotConfig>) -> (r: Vec<StageSlotConfig>)
    ensures
        slot_models(r@) == slot_models(s@),
{
    let mut out: Vec<StageSlotConfig> = Vec::new();
    for i in 0..s.len()
        invariant
            slot_models(out@) == slot_models(s@).take(i as int),
    {
        let ghost before = slot_models(out@);
        let slot = StageSlotConfig { kind: s[i].kind, params: s[i].params.copy() };
        out.push(slot);
        assert(slot_models(out@) =~= before.push((slot.kind, slot.params@)));
        assert(slot_models(out@) =~= slot_models(s@).take(i + 1));
    }
    assert(slot_models(out@) =~= slot_models(s@));
    out
}

fn copy_master(c: &MasterTrackConfig) -> (r: MasterTrackConfig)
    ensures
        master_config(r) == master_config(*c),
{
    MasterTrackConfig {
        id: c.id,
        label: c.label.clone(),
        channels: c.channels,
        fader_db: c.fader_db,
        template: c.template,
        chain: copy_slots(&c.chain),
    }
}

proof fn lemma_with_paired_prefix(masters: Seq<MasterConfigModel>, buses: Seq<BusConfig>, k: int)
    requires
        0 <= k <= buses.len(),
        with_paired(masters, buses.take(k)) is Err,
    ensures
        with_paired(masters, buses) == with_paired(masters, buses.take(k)),
    decreases buses.len(),
{
    if k < buses.len() {
        assert(buses.drop_last().take(k) =~= buses.take(k));
        lemma_with_paired_prefix(masters, buses.drop_last(), k);
    } else {
        assert(buses.take(k) =~= buses);
    }
}

fn find_master(masters: &Vec<MasterTrackConfig>, id: u32) -> (r: bool)
    ensures
        r == has_id(master_configs(masters@), id),
{
    for i in 0..masters.len()
        invariant
            forall|k: int| 0 <= k < i ==> (#[trigger] masters@[k]).id != id,
    {
        if masters[i].id == id {
            assert(master_configs(masters@)[i as int].id == id);
            return true;
        }
    }
    assert forall|k: int| 0 <= k < master_configs(masters@).len() implies (#[trigger] master_configs(
        masters@,
    )[k]).id != id by {
        assert(masters@[k].id != id);
    }
    false
}

/// The masters that are configured, and behind them those that are paired with buses. Which of two
/// masters should win is not guessed: an id that is taken is refused.
pub fn pair_masters(cfg: &Config) -> (r: Result<Vec<MasterTrackConfig>, String>)
    ensures
        match r {
            Ok(ms) => with_paired(master_configs(cfg.masters@), cfg.buses@) == Ok::<
                Seq<MasterConfigModel>,
                Seq<char>,
            >(master_configs(ms@)),
            Err(e) => with_paired(master_configs(cfg.masters@), cfg.buses@) == Err::<
                Seq<MasterConfigModel>,
                Seq<char>,
            >(e@),
        },
{
    let mut out: Vec<MasterTrackConfig> = Vec::new();
    let ghost explicit = master_configs(cfg.masters@);
    for i in 0..cfg.masters.len()
        invariant
            explicit == master_configs(cfg.masters@),
            master_configs(out@) == explicit.take(i as int),
    {
        let ghost before = master_configs(out@);
        let m = copy_master(&cfg.masters[i]);
        out.push(m);
        assert(master_configs(out@) =~= before.push(master_config(m)));
        assert(master_configs(out@) =~= explicit.take(i + 1));
    }
    assert(master_configs(out@) =~= explicit);
    assert(cfg.buses@.take(0) =~= Seq::empty());
    for i in 0..cfg.buses.len()
        invariant
            explicit == master_configs(cfg.masters@),
            with_paired(explicit, cfg.buses@.take(i as int)) == Ok::<
                Seq<MasterConfigModel>,
                Seq<char>,
            >(master_configs(out@)),
    {
        assert(cfg.buses@.take(i + 1).drop_last() =~= cfg.buses@.take(i as int));
        let b = &cfg.buses[i];
        if let Some(auto) = &b.auto_master {
            if find_master(&out, b.id) {
                proof {
                    lemma_with_paired_prefix(explicit, cfg.buses@, i + 1);
                }
                let mut e = "bus ".to_owned();
                e.append(decimal(b.id as u64).as_str());
                e.append(
                    " has auto_master set, but an explicit master with the same id already exists in config.masters",
                );
                return Err(e);
            }
            let ghost before = master_configs(out@);
            let label = match &auto.label {
                Some(l) => l.clone(),
                None => b.label.clone(),
            };
            let paired = MasterTrackConfig {
                id: b.id,
                label,
                channels: b.channels,
                fader_db: auto.fader_db,
                template: auto.template,
                chain: copy_slots(&auto.chain),
            };
            assert(master_config(paired) == paired_master(*b));
            out.push(paired);
            assert(master_configs(out@) =~= before.push(paired_master(*b)));
        }
    }
    assert(cfg.buses@.take(cfg.buses@.len() as int) =~= cfg.buses@);
    Ok(out)
}

/// The strips that an earlier run created, and that are to be built again.
#[derive(Debug)]
pub struct Resumed {
    pub tracks: Vec<TrackConfig>,
    pub buses: Vec<BusConfig>,
    pub masters: Vec<MasterTrackConfig>,
}

/// A strip that is built from a configuration.
pub trait Built: Strip + View {
    /// What describes such a strip.
    type Config;

    /// The strip that a configuration describes.
    spec fn described(c: Self::Config, default_channels: usize, dynamic: bool) -> Self::V;

    /// The number of the strip that a configuration describes.
    spec fn described_id(c: Self::Config) -> u32;

    /// The number of a strip.
    spec fn model_id(m: Self::V) -> u32;

    /// The channel count of a strip.
    spec fn model_width(m: Self::V) -> usize;

    /// A strip says its own number and channel count.
    proof fn lemma_model(self)
        ensures
            Self::model_id(self@) == self.number(),
            Self::model_width(self@) == self.width(),
    ;

    /// A strip has the number that its configuration gives.
    proof fn lemma_described(c: Self::Config, default_channels: usize, dynamic: bool)
        ensures
            Self::model_id(Self::described(c, default_channels, dynamic)) == Self::described_id(c),
    ;

    /// The number of the strip that a configuration describes.
    fn config_id(c: &Self::Config) -> (r: u32)
        ensures
            r == Self::described_id(*c),
    ;

    /// The strip that a configuration describes.
    fn build(c: &Self::Config, default_channels: usize, dynamic: bool) -> (r: Self)
        ensures
            r@ == Self::described(*c, default_channels, dynamic),
    ;

    /// A strip that says the same.
    fn another(&self) -> (r: Self)
        ensures
            r@ == self@,
    ;
}

impl Built for Track {
    type Config = TrackConfig;

    open spec fn described(c: TrackConfig, default_channels: usize, dynamic: bool) -> TrackModel {
        configured_track(c, channels_or(c.channels, default_channels), dynamic)
    }

    open spec fn described_id(c: TrackConfig) -> u32 {
        c.id
    }

    open spec fn model_id(m: TrackModel) -> u32 {
        m.id
    }

    open spec fn model_width(m: TrackModel) -> usize {
        m.channels
    }

    proof fn lemma_model(self) {
    }

    proof fn lemma_described(c: TrackConfig, default_channels: usize, dynamic: bool) {
    }

    fn config_id(c: &TrackConfig) -> u32 {
        c.id
    }

    fn build(c: &TrackConfig, default_channels: usize, dynamic: bool) -> Track {
        build_track(c, default_channels, dynamic)
    }

    fn another(&self) -> Track {
        self.copy()
    }
}

impl Built for Bus {
    type Config = BusConfig;

    open spec fn described(c: BusConfig, default_channels: usize, dynamic: bool) -> BusModel {
        configured_bus(c, channels_or(c.channels, default_channels), dynamic)
    }

    open spec fn described_id(c: BusConfig) -> u32 {
        c.id
    }

    open spec fn model_id(m: BusModel) -> u32 {
        m.id
    }

    open spec fn model_width(m: BusModel) -> usize {
        m.channels
    }

    proof fn lemma_model(self) {
    }

    proof fn lemma_described(c: BusConfig, default_channels: usize, dynamic: bool) {
    }

    fn config_id(c: &BusConfig) -> u32 {
        c.id
    }

    fn build(c: &BusConfig, default_channels: usize, dynamic: bool) -> Bus {
        build_bus(c, default_channels, dynamic)
    }

    fn another(&self) -> Bus {
        self.copy()
    }
}

impl Built for MasterTrack {
    type Config = MasterTrackConfig;

    open spec fn described(c: MasterTrackConfig, default_channels: usize, dynamic: bool) -> MasterModel {
        configured_master(c, channels_or(c.channels, default_channels), dynamic)
    }

    open spec fn described_id(c: MasterTrackConfig) -> u32 {
        c.id
    }

    open spec fn model_id(m: MasterModel) -> u32 {
        m.id
    }

    open spec fn model_width(m: MasterModel) -> usize {
        m.channels
    }

    proof fn lemma_model(self) {
    }

    proof fn lemma_described(c: MasterTrackConfig, default_channels: usize, dynamic: bool) {
    }

    fn config_id(c: &MasterTrackConfig) -> u32 {
        c.id
    }

    fn build(c: &MasterTrackConfig, default_channels: usize, dynamic: bool) -> MasterTrack {
        build_master(c, default_channels, dynamic)
    }

    fn another(&self) -> MasterTrack {
        self.copy()
    }
}

/// What strips say.
pub open spec fn models<S: Built>(s: Seq<S>) -> Seq<S::V> {
    s.map_values(|x: S| x@)
}

/// The strips that are configured.
pub open spec fn configured<S: Built>(cfgs: Seq<S::Config>, default_channels: usize) -> Seq<S::V> {
    cfgs.map_values(|c: S::Config| S::described(c, default_channels, false))
}

/// Whether a strip of a list has a number.
pub open spec fn taken<S: Built>(s: Seq<S::V>, id: u32) -> bool {
    exists|i: int| 0 <= i < s.len() && S::model_id(#[trigger] s[i]) == id
}

/// Strips, and behind them those of an earlier run whose numbers are not taken.
pub open spec fn with_resumed<S: Built>(
    s: Seq<S::V>,
    resumed: Seq<S::Config>,
    default_channels: usize,
) -> Seq<S::V>
    decreases resumed.len(),
{
    if resumed.len() == 0 {
        s
    } else {
        let before = with_resumed::<S>(s, resumed.drop_last(), default_channels);
        let c = resumed.last();
        if taken::<S>(before, S::described_id(c)) {
            before
        } else {
            before.push(S::described(c, default_channels, true))
        }
    }
}

fn put_strip<S: Built>(out: &mut Vec<S>, strip: S)
    ensures
        models(final(out)@) == models(old(out)@).push(strip@),
{
    out.push(strip);
    assert(models(out@) =~= models(old(out)@).push(strip@));
}

fn is_taken<S: Built>(v: &Vec<S>, id: u32) -> (r: bool)
    ensures
        r == taken::<S>(models(v@), id),
{
    for i in 0..v.len()
        invariant
            forall|k: int| 0 <= k < i ==> S::model_id(#[trigger] models(v@)[k]) != id,
    {
        proof {
            v@[i as int].lemma_model();
        }
        assert(models(v@)[i as int] == v@[i as int]@);
        if v[i].strip_id() == id {
            return true;
        }
    }
    false
}

fn start_strips<S: Built>(
    cfgs: &Vec<S::Config>,
    resumed: &Vec<S::Config>,
    default_channels: usize,
) -> (r: Vec<S>)
    ensures
        models(r@) == with_resumed::<S>(
            configured::<S>(cfgs@, default_channels),
            resumed@,
            default_channels,
        ),
{
    let mut out: Vec<S> = Vec::new();
    let ghost base = configured::<S>(cfgs@, default_channels);
    assert(models(out@) =~= base.take(0));
    for i in 0..cfgs.len()
        invariant
            base == configured::<S>(cfgs@, default_channels),
            models(out@) == base.take(i as int),
    {
        put_strip(&mut out, S::build(&cfgs[i], default_channels, false));
        assert(models(out@) =~= base.take(i + 1));
    }
    assert(models(out@) =~= base);
    assert(resumed@.take(0) =~= Seq::empty());
    for i in 0..resumed.len()
        invariant
            models(out@) == with_resumed::<S>(base, resumed@.take(i as int), default_channels),
    {
        assert(resumed@.take(i + 1).drop_last() =~= resumed@.take(i as int));
        if !is_taken(&out, S::config_id(&resumed[i])) {
            put_strip(&mut out, S::build(&resumed[i], default_channels, true));
        }
    }
    assert(resumed@.take(resumed@.len() as int) =~= resumed@);
    out
}

/// The patch that feeds the first `n` channels of a master from the same channels of a bus.
pub open spec fn straight(bus_id: u32, channels: usize, n: usize) -> Seq<Seq<RefModel>> {
    Seq::new(
        channels as nat,
        |ch: int|
            if ch < n {
                seq![RefModel::BusOut { bus_id, channel: ch as usize }]
            } else {
                Seq::empty()
            },
    )
}

/// How many channels of a bus its paired master takes: as many as both have.
pub open spec fn shared_channels(w: World, id: u32, master_channels: usize) -> usize {
    let bus_channels = match channels_of(w.buses, id) {
        Some(c) => c,
        None => 0,
    };
    if bus_channels < master_channels {
        bus_channels
    } else {
        master_channels
    }
}

/// The patches that feed the paired masters from their buses.
pub open spec fn paired_patches(buses: Seq<BusConfig>, w: World) -> Map<u32, Seq<Seq<RefModel>>>
    decreases buses.len(),
{
    if buses.len() == 0 {
        Map::empty()
    } else {
        let rest = paired_patches(buses.drop_last(), w);
        let b = buses.last();
        match (b.auto_master, channels_of(w.masters, b.id)) {
            (Some(_), Some(c)) => rest.insert(b.id, straight(b.id, c, shared_channels(w, b.id, c))),
            _ => rest,
        }
    }
}

proof fn lemma_straight_is_accepted(w: World, id: u32, channels: usize, n: usize, k: int)
    requires
        0 <= k <= channels,
        n > 0 ==> (channels_of(w.buses, id) matches Some(c) && n <= c),
    ensures
        feeds_refusal(w, straight(id, channels, n).take(k)) is None,
    decreases k,
{
    let s = straight(id, channels, n).take(k);
    if k > 0 {
        lemma_straight_is_accepted(w, id, channels, n, k - 1);
        assert(s.drop_last() =~= straight(id, channels, n).take(k - 1));
        let last = s.last();
        assert(last == straight(id, channels, n)[k - 1]);
        if k - 1 < n {
            let m = RefModel::BusOut { bus_id: id, channel: (k - 1) as usize };
            assert(last == seq![m]);
            assert(last.drop_last() =~= Seq::empty());
            assert(last.last() == m);
            assert(refs_refusal(w, last.drop_last()) is None);
            assert(source_refusal(w, None, m) is None);
            assert(refs_refusal(w, last) is None);
        } else {
            assert(last == Seq::<RefModel>::empty());
            assert(refs_refusal(w, last) is None);
        }
    }
}

fn straight_patch(bus_id: u32, channels: usize, n: usize) -> (r: Vec<Vec<SourceRef>>)
    requires
        n <= channels,
    ensures
        feeds(r@) == straight(bus_id, channels, n),
{
    let mut out: Vec<Vec<SourceRef>> = Vec::new();
    let ghost want = straight(bus_id, channels, n);
    for ch in 0..channels
        invariant
            want == straight(bus_id, channels, n),
            feeds(out@) == want.take(ch as int),
    {
        let mut sources: Vec<SourceRef> = Vec::new();
        if ch < n {
            sources.push(SourceRef::BusOut { bus_id, channel: ch });
            assert(refs(sources@) =~= seq![RefModel::BusOut { bus_id, channel: ch }]);
        } else {
            assert(refs(sources@) =~= Seq::empty());
        }
        let ghost before = feeds(out@);
        let ghost last = refs(sources@);
        out.push(sources);
        assert(feeds(out@) =~= before.push(last));
        assert(feeds(out@) =~= want.take(ch + 1));
    }
    assert(feeds(out@) =~= want);
    out
}

fn patch_paired(
    buses: &Vec<BusConfig>,
    track_list: &[(u32, usize)],
    bus_list: &[(u32, usize)],
    master_list: &[(u32, usize)],
) -> (r: PatchState)
    ensures
        r.wf(),
        forall|grid: InputGrid|
            grid.entries@ == Map::<Seq<char>, InputGridEntry>::empty() ==> r@ == (PatchModel {
                master_in: paired_patches(
                    buses@,
                    #[trigger] world(track_list@, bus_list@, master_list@, grid),
                ),
                ..PatchModel::unpatched()
            }),
{
    let grid = InputGrid::new();
    let ghost w = world(track_list@, bus_list@, master_list@, grid);
    let mut patch = PatchState::new();
    assert(buses@.take(0) =~= Seq::empty());
    for i in 0..buses.len()
        invariant
            patch.wf(),
            grid.wf(),
            w == world(track_list@, bus_list@, master_list@, grid),
            patch@ == (PatchModel {
                master_in: paired_patches(buses@.take(i as int), w),
                ..PatchModel::unpatched()
            }),
    {
        assert(buses@.take(i + 1).drop_last() =~= buses@.take(i as int));
        let id: u32 = buses[i].id;
        if buses[i].auto_master.is_some() {
            if let Some(channels) = find_channels(master_list, id) {
                let bus_channels: usize = match find_channels(bus_list, id) {
                    Some(c) => c,
                    None => 0,
                };
                let n: usize = if bus_channels < channels {
                    bus_channels
                } else {
                    channels
                };
                proof {
                    lemma_straight_is_accepted(w, id, channels, n, channels as int);
                    assert(straight(id, channels, n).take(channels as int) =~= straight(
                        id,
                        channels,
                        n,
                    ));
                }
                let _ = patch.set_master_in(
                    track_list,
                    bus_list,
                    master_list,
                    &grid,
                    id,
                    channels,
                    straight_patch(id, channels, n),
                );
            }
        }
    }
    assert(buses@.take(buses@.len() as int) =~= buses@);
    assert forall|g: InputGrid|
        g.entries@ == Map::<Seq<char>, InputGridEntry>::empty() implies patch@ == (PatchModel {
        master_in: paired_patches(
            buses@,
            #[trigger] world(track_list@, bus_list@, master_list@, g),
        ),
        ..PatchModel::unpatched()
    }) by {
        assert(world(track_list@, bus_list@, master_list@, g) == w);
    }
    patch
}

/// Strips by their numbers; of two with the same number the later one.
pub open spec fn by_id<S: Built>(s: Seq<S::V>) -> Map<u32, S::V>
    decreases s.len(),
{
    if s.len() == 0 {
        Map::empty()
    } else {
        by_id::<S>(s.drop_last()).insert(S::model_id(s.last()), s.last())
    }
}

fn table_strips<S: Built>(v: &Vec<S>) -> (r: Table<u32, S>)
    ensures
        r.wf(),
        own_keys(r.list()),
        r@.map_values(|x: S| x@) == by_id::<S>(models(v@)),
{
    let mut out: Table<u32, S> = Table::new();
    let ghost all = models(v@);
    assert(all.take(0) =~= Seq::empty());
    assert(out@.map_values(|x: S| x@) =~= Map::empty());
    for i in 0..v.len()
        invariant
            all == models(v@),
            out.wf(),
            own_keys(out.list()),
            out@.map_values(|x: S| x@) == by_id::<S>(all.take(i as int)),
    {
        assert(all.take(i + 1).drop_last() =~= all.take(i as int));
        let x = v[i].another();
        let ghost before = out.list();
        let ghost was = out@;
        proof {
            x.lemma_model();
        }
        out.insert(x.strip_id(), x);
        proof {
            lemma_own_keys_insert(before, out.list(), x);
            assert(out@.map_values(|x: S| x@) =~= was.map_values(|x: S| x@).insert(
                S::model_id(x@),
                x@,
            ));
        }
    }
    assert(all.take(all.len() as int) =~= all);
    out
}

/// The numbers and channel counts of strips.
pub open spec fn model_widths<S: Built>(s: Seq<S::V>) -> Seq<(u32, usize)> {
    s.map_values(|m: S::V| (S::model_id(m), S::model_width(m)))
}

fn strip_widths<S: Built>(v: &Vec<S>) -> (r: Vec<(u32, usize)>)
    ensures
        r@ == model_widths::<S>(models(v@)),
{
    let mut out: Vec<(u32, usize)> = Vec::new();
    let ghost want = model_widths::<S>(models(v@));
    for i in 0..v.len()
        invariant
            want == model_widths::<S>(models(v@)),
            out@ == want.take(i as int),
    {
        proof {
            v@[i as int].lemma_model();
        }
        out.push((v[i].strip_id(), v[i].strip_channels()));
        assert(out@ =~= want.take(i + 1));
    }
    assert(out@ =~= want);
    out
}

/// The tracks that a mixer starts with.
pub open spec fn starting_tracks(cfg: Config, resumed: Resumed) -> Seq<TrackModel> {
    with_resumed::<Track>(
        configured::<Track>(cfg.tracks@, cfg.channels as usize),
        resumed.tracks@,
        cfg.channels as usize,
    )
}

/// The buses that a mixer starts with.
pub open spec fn starting_buses(cfg: Config, resumed: Resumed) -> Seq<BusModel> {
    with_resumed::<Bus>(
        configured::<Bus>(cfg.buses@, cfg.channels as usize),
        resumed.buses@,
        cfg.channels as usize,
    )
}

/// The masters that a mixer starts with.
pub open spec fn starting_masters(
    cfg: Config,
    masters: Seq<MasterTrackConfig>,
    resumed: Resumed,
) -> Seq<MasterModel> {
    with_resumed::<MasterTrack>(
        configured::<MasterTrack>(masters, cfg.channels as usize),
        resumed.masters@,
        cfg.channels as usize,
    )
}

/// The source points that there are when a mixer starts: the grid has no entries yet.
pub open spec fn starting_world(
    cfg: Config,
    masters: Seq<MasterTrackConfig>,
    resumed: Resumed,
) -> World {
    World {
        tracks: model_widths::<Track>(starting_tracks(cfg, resumed)),
        buses: model_widths::<Bus>(starting_buses(cfg, resumed)),
        masters: model_widths::<MasterTrack>(starting_masters(cfg, masters, resumed)),
        inputs: Map::empty(),
    }
}

/// Builds the mixer: the strips of the configuration, then those of an earlier run whose ids are
/// not taken, and the patches that feed paired masters from their buses. The grids are still empty.
pub fn start(cfg: &Config, masters: &Vec<MasterTrackConfig>, resumed: &Resumed) -> (r: MixerState)
    ensures
        r.wf(),
        r@.tracks == by_id::<Track>(starting_tracks(*cfg, *resumed)),
        r@.buses == by_id::<Bus>(starting_buses(*cfg, *resumed)),
        r@.masters == by_id::<MasterTrack>(starting_masters(*cfg, masters@, *resumed)),
        r@.inputs == Map::<Seq<char>, InputGridEntry>::empty(),
        r@.outputs == Map::<Seq<char>, OutputGridEntry>::empty(),
        r@.patch == (PatchModel {
            master_in: paired_patches(cfg.buses@, starting_world(*cfg, masters@, *resumed)),
            ..PatchModel::unpatched()
        }),
        r@.default_channels == cfg.channels as usize,
        r@.topology_generation == 0,
        r@.retired == Seq::<crate::console::patch::Gone>::empty(),
        r@.period_frames == cfg.period_frames as usize,
        r@.sample_rate == cfg.sample_rate,
{
    let default_channels: usize = cfg.channels as usize;
    let track_vec = start_strips::<Track>(&cfg.tracks, &resumed.tracks, default_channels);
    let bus_vec = start_strips::<Bus>(&cfg.buses, &resumed.buses, default_channels);
    let master_vec = start_strips::<MasterTrack>(masters, &resumed.masters, default_channels);
    let track_list = strip_widths(&track_vec);
    let bus_list = strip_widths(&bus_vec);
    let master_list = strip_widths(&master_vec);
    let patch = patch_paired(
        &cfg.buses,
        track_list.as_slice(),
        bus_list.as_slice(),
        master_list.as_slice(),
    );
    let mut r = MixerState::new(
        default_channels,
        cfg.period_frames as usize,
        cfg.sample_rate,
    );
    proof {
        let w = world(track_list@, bus_list@, master_list@, r.input_grid);
        assert(w.inputs =~= Map::empty());
        assert(w == starting_world(*cfg, masters@, *resumed));
    }
    r.tracks = table_strips(&track_vec);
    r.buses = table_strips(&bus_vec);
    r.masters = table_strips(&master_vec);
    r.patch = patch;
    r
}

/// The channel count of a grid entry.
pub open spec fn entry_channels(channels: Option<u32>, default_channels: u32) -> usize {
    match channels {
        Some(c) => c as usize,
        None => default_channels as usize,
    }
}

/// The entry of the input grid that a configuration describes. Whether its flow could be opened is
/// for the caller to say.
pub fn input_entry(
    cfg: &InputGridEntryConfig,
    default_channels: u32,
    instance_name: &str,
    opened: Option<String>,
) -> (r: InputGridEntry)
    ensures
        r.id@ == cfg.id@,
        r.label@ == cfg.label@,
        r.channels == entry_channels(cfg.channels, default_channels),
        r.connected == (opened is Some),
        r.flow_id == opened,
        r.receiver_id.bits == stable(
            "mxl-test-app-instance-input-receiver:"@ + instance_name@ + ":"@ + cfg.id@,
        ),
        r.subscribed_sender_id is None,
{
    let channels: usize = match cfg.channels {
        Some(c) => c as usize,
        None => default_channels as usize,
    };
    InputGridEntry {
        id: cfg.id.clone(),
        label: cfg.label.clone(),
        channels,
        connected: opened.is_some(),
        flow_id: opened,
        receiver_id: instance_input_receiver_id(instance_name, cfg.id.as_str()),
        subscribed_sender_id: None,
    }
}

/// The entry of the output grid that a configuration describes.
pub fn output_entry(cfg: &OutputGridEntryConfig, default_channels: u32, instance_name: &str) -> (r:
    OutputGridEntry)
    requires
        cfg.valid(),
    ensures
        r.id@ == cfg.id@,
        r.label@ == cfg.label@,
        r.channels == entry_channels(cfg.channels, default_channels),
        match cfg.target {
            Some(BusTarget::FlowId(s)) => denotes(r.flow_id.bits, s@),
            Some(BusTarget::PackedTxName(name)) => r.flow_id.bits == stable(
                "mxl-bridge-packed-tx-flow:"@ + name@,
            ),
            None => r.flow_id.bits == stable(
                "mxl-test-app-instance-output-flow:"@ + instance_name@ + ":"@ + cfg.id@,
            ),
        },
        r.receiver_id is None,
{
    let channels: usize = match cfg.channels {
        Some(c) => c as usize,
        None => default_channels as usize,
    };
    OutputGridEntry {
        id: cfg.id.clone(),
        label: cfg.label.clone(),
        channels,
        flow_id: cfg.resolve_flow_id(instance_name),
        receiver_id: None,
    }
}

/// A strip of an earlier run never takes the place of one that is there.
proof fn lemma_strip_stays<S: Built>(
    s: Seq<S::V>,
    resumed: Seq<S::Config>,
    default_channels: usize,
    id: u32,
)
    requires
        taken::<S>(s, id),
    ensures
        taken::<S>(with_resumed::<S>(s, resumed, default_channels), id),
        by_id::<S>(with_resumed::<S>(s, resumed, default_channels))[id] == by_id::<S>(s)[id],
    decreases resumed.len(),
{
    if resumed.len() > 0 {
        lemma_strip_stays::<S>(s, resumed.drop_last(), default_channels, id);
        let before = with_resumed::<S>(s, resumed.drop_last(), default_channels);
        let after = with_resumed::<S>(s, resumed, default_channels);
        let c = resumed.last();
        let i = choose|i: int| 0 <= i < before.len() && S::model_id(#[trigger] before[i]) == id;
        assert(S::model_id(after[i]) == id);
        if !taken::<S>(before, S::described_id(c)) {
            S::lemma_described(c, default_channels, true);
            assert(after.drop_last() =~= before);
            assert(S::model_id(before[i]) != S::described_id(c));
        }
    }
}

/// What is configured wins over what an earlier run created: a mixer starts with every configured
/// strip as if there had been no earlier run.
pub proof fn law_configuration_wins(
    cfg: Config,
    masters: Seq<MasterTrackConfig>,
    resumed: Resumed,
    id: u32,
)
    ensures
        ({
            let own = configured::<Track>(cfg.tracks@, cfg.channels as usize);
            taken::<Track>(own, id) ==> by_id::<Track>(starting_tracks(cfg, resumed))[id]
                == by_id::<Track>(own)[id]
        }),
        ({
            let own = configured::<Bus>(cfg.buses@, cfg.channels as usize);
            taken::<Bus>(own, id) ==> by_id::<Bus>(starting_buses(cfg, resumed))[id]
                == by_id::<Bus>(own)[id]
        }),
        ({
            let own = configured::<MasterTrack>(masters, cfg.channels as usize);
            taken::<MasterTrack>(own, id) ==> by_id::<MasterTrack>(starting_masters(cfg, masters, resumed))[id]
                == by_id::<MasterTrack>(own)[id]
        }),
{
    let d = cfg.channels as usize;
    let tracks = configured::<Track>(cfg.tracks@, d);
    let buses = configured::<Bus>(cfg.buses@, d);
    let own = configured::<MasterTrack>(masters, d);
    if taken::<Track>(tracks, id) {
        lemma_strip_stays::<Track>(tracks, resumed.tracks@, d, id);
    }
    if taken::<Bus>(buses, id) {
        lemma_strip_stays::<Bus>(buses, resumed.buses@, d, id);
    }
    if taken::<MasterTrack>(own, id) {
        lemma_strip_stays::<MasterTrack>(own, resumed.masters@, d, id);
    }
}

} // verus!
