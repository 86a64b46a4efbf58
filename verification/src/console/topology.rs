//! Creating and deleting tracks, buses and masters while the mixer runs.

use vstd::prelude::*;
use vstd::string::*;

use crate::console::config::{BusConfig, MasterTrackConfig, TrackConfig};
use crate::console::engine::{MixerModel, MixerState};
use crate::console::mixer::{
    channels_compatible, configured_bus, configured_master, configured_track, lemma_own_keys_insert,
    lemma_own_keys_remove, own_keys, widths, Bus, BusModel, MasterModel, MasterTrack, Send, Strip,
    Track, TrackModel,
};
use crate::console::patch::{Gone, PatchModel};
use crate::table::{as_map, lemma_mapped, sorted, Table};
use crate::text::{dec, decimal};

verus! {

/// The channel count that a configuration gives a strip.
pub open spec fn channels_or(channels: Option<u32>, otherwise: usize) -> usize {
    match channels {
        Some(c) => c as usize,
        None => otherwise,
    }
}

fn channel_count(channels: Option<u32>, otherwise: usize) -> (r: usize)
    ensures
        r == channels_or(channels, otherwise),
{
    match channels {
        Some(c) => c as usize,
        None => otherwise,
    }
}

/// The track that a configuration describes.
pub fn build_track(cfg: &TrackConfig, default_channels: usize, dynamically_created: bool) -> (r:
    Track)
    ensures
        r@ == configured_track(
            *cfg,
            channels_or(cfg.channels, default_channels),
            dynamically_created,
        ),
{
    Track::new_with_origin(cfg, channel_count(cfg.channels, default_channels), dynamically_created)
}

/// The bus that a configuration describes.
pub fn build_bus(cfg: &BusConfig, default_channels: usize, dynamically_created: bool) -> (r: Bus)
    ensures
        r@ == configured_bus(
            *cfg,
            channels_or(cfg.channels, default_channels),
            dynamically_created,
        ),
{
    Bus::new_with_origin(cfg, channel_count(cfg.channels, default_channels), dynamically_created)
}

/// The master that a configuration describes.
pub fn build_master(
    cfg: &MasterTrackConfig,
    default_channels: usize,
    dynamically_created: bool,
) -> (r: MasterTrack)
    ensures
        r@ == configured_master(
            *cfg,
            channels_or(cfg.channels, default_channels),
            dynamically_created,
        ),
{
    MasterTrack::new_with_origin(
        cfg,
        channel_count(cfg.channels, default_channels),
        dynamically_created,
    )
}

/// A send into a bus whose channel count does not go with that of the track.
#[derive(Clone, Copy, Debug, PartialEq, Eq, Structural)]
pub struct Mismatch {
    pub track_id: u32,
    pub track_channels: usize,
    pub bus_id: u32,
    pub bus_channels: usize,
}

/// The sends of a track that do nothing because of the channel counts. A send to a bus that does
/// not exist is not one of them.
pub open spec fn mismatches(
    track_id: u32,
    track_channels: usize,
    sends: Seq<Send>,
    buses: Map<u32, BusModel>,
) -> Seq<Mismatch>
    decreases sends.len(),
{
    if sends.len() == 0 {
        Seq::empty()
    } else {
        let rest = mismatches(track_id, track_channels, sends.drop_last(), buses);
        let bus_id = sends.last().bus_id;
        if buses.contains_key(bus_id) && !(track_channels == buses[bus_id].channels
            || track_channels == 1 || buses[bus_id].channels == 1) {
            rest.push(
                Mismatch { track_id, track_channels, bus_id, bus_channels: buses[bus_id].channels },
            )
        } else {
            rest
        }
    }
}

/// The sends of a track that do nothing because of the channel counts.
pub fn warn_incompatible_sends(track: &Track, buses: &Table<u32, Bus>) -> (r: Vec<Mismatch>)
    requires
        buses.wf(),
    ensures
        r@ == mismatches(
            track.id,
            track.channels,
            track.sends@,
            buses@.map_values(|b: Bus| b@),
        ),
{
    let mut out: Vec<Mismatch> = Vec::new();
    let ghost known = buses@.map_values(|b: Bus| b@);
    assert(track.sends@.take(0) =~= Seq::empty());
    for i in 0..track.sends.len()
        invariant
            buses.wf(),
            known == buses@.map_values(|b: Bus| b@),
            out@ == mismatches(track.id, track.channels, track.sends@.take(i as int), known),
    {
        assert(track.sends@.take(i + 1).drop_last() =~= track.sends@.take(i as int));
        let bus_id: u32 = track.sends[i].bus_id;
        if let Some(bus) = buses.get(&bus_id) {
            if !channels_compatible(track.channels, bus.channels) {
                out.push(
                    Mismatch {
                        track_id: track.id,
                        track_channels: track.channels,
                        bus_id,
                        bus_channels: bus.channels,
                    },
                );
            }
        }
    }
    assert(track.sends@.take(track.sends@.len() as int) =~= track.sends@);
    out
}

/// What is said of an id that is taken.
pub open spec fn taken(kind: Seq<char>, id: u32) -> Seq<char> {
    kind + " "@ + dec(id as nat) + " already exists"@
}

fn taken_message(kind: &str, id: u32) -> (r: String)
    ensures
        r@ == taken(kind@, id),
{
    let mut s = kind.to_owned();
    s.append(" ");
    s.append(decimal(id as u64).as_str());
    s.append(" already exists");
    s
}

/// The generation after one more creation or deletion.
pub open spec fn bumped(generation: u64) -> u64 {
    if generation == u64::MAX {
        0
    } else {
        (generation + 1) as u64
    }
}

impl MixerModel {
    /// The mixer after a track was created.
    pub open spec fn with_track(self, t: TrackModel) -> MixerModel {
        MixerModel {
            tracks: self.tracks.insert(t.id, t),
            topology_generation: bumped(self.topology_generation),
            ..self
        }
    }

    /// The mixer after a bus was created.
    pub open spec fn with_bus(self, b: BusModel) -> MixerModel {
        MixerModel {
            buses: self.buses.insert(b.id, b),
            topology_generation: bumped(self.topology_generation),
            ..self
        }
    }

    /// The mixer after a master was created.
    pub open spec fn with_master(self, m: MasterModel) -> MixerModel {
        MixerModel {
            masters: self.masters.insert(m.id, m),
            topology_generation: bumped(self.topology_generation),
            ..self
        }
    }

    /// The mixer after a track was deleted: no patch refers to it any more.
    pub open spec fn without_track(self, id: u32) -> MixerModel {
        MixerModel {
            tracks: self.tracks.remove(id),
            patch: (PatchModel {
                track_in: self.patch.track_in.remove(id),
                ..self.patch
            }).scrubbed(Gone::Track(id)),
            topology_generation: bumped(self.topology_generation),
            retired: self.retired.push(Gone::Track(id)),
            ..self
        }
    }

    /// The mixer after a bus was deleted: no patch refers to it any more, and no send goes to it.
    pub open spec fn without_bus(self, id: u32) -> MixerModel {
        MixerModel {
            tracks: self.tracks.map_values(|t: TrackModel| without_sends(t, id)),
            buses: self.buses.remove(id),
            patch: (PatchModel {
                bus_in: self.patch.bus_in.remove(id),
                ..self.patch
            }).scrubbed(Gone::Bus(id)),
            topology_generation: bumped(self.topology_generation),
            retired: self.retired.push(Gone::Bus(id)),
            ..self
        }
    }

    /// The mixer after a master was deleted: no patch refers to it any more.
    pub open spec fn without_master(self, id: u32) -> MixerModel {
        MixerModel {
            masters: self.masters.remove(id),
            patch: (PatchModel {
                master_in: self.patch.master_in.remove(id),
                ..self.patch
            }).scrubbed(Gone::Master(id)),
            topology_generation: bumped(self.topology_generation),
            retired: self.retired.push(Gone::Master(id)),
            ..self
        }
    }
}

/// The sends that go to other buses.
pub open spec fn other_sends(sends: Seq<Send>, bus_id: u32) -> Seq<Send>
    decreases sends.len(),
{
    if sends.len() == 0 {
        Seq::empty()
    } else if sends.last().bus_id != bus_id {
        other_sends(sends.drop_last(), bus_id).push(sends.last())
    } else {
        other_sends(sends.drop_last(), bus_id)
    }
}

/// A track without its sends to a bus.
pub open spec fn without_sends(t: TrackModel, bus_id: u32) -> TrackModel {
    TrackModel { sends: other_sends(t.sends, bus_id), ..t }
}

fn keep_other_sends(sends: &Vec<Send>, bus_id: u32) -> (r: Vec<Send>)
    ensures
        r@ == other_sends(sends@, bus_id),
{
    let mut out: Vec<Send> = Vec::new();
    assert(sends@.take(0) =~= Seq::empty());
    for i in 0..sends.len()
        invariant
            out@ == other_sends(sends@.take(i as int), bus_id),
    {
        assert(sends@.take(i + 1).drop_last() =~= sends@.take(i as int));
        if sends[i].bus_id != bus_id {
            out.push(sends[i]);
        }
    }
    assert(sends@.take(sends@.len() as int) =~= sends@);
    out
}

fn drop_sends(tracks: &mut Table<u32, Track>, bus_id: u32)
    requires
        old(tracks).wf(),
        own_keys(old(tracks).list()),
    ensures
        final(tracks).wf(),
        own_keys(final(tracks).list()),
        widths(final(tracks).list()) == widths(old(tracks).list()),
        final(tracks)@.map_values(|t: Track| t@) == old(tracks)@.map_values(
            |t: Track| t@,
        ).map_values(|t: TrackModel| without_sends(t, bus_id)),
{
    let ghost was = tracks.list();
    let n: usize = tracks.len();
    for i in 0..n
        invariant
            n == was.len(),
            tracks.wf(),
            sorted(was),
            own_keys(was),
            tracks.list().len() == was.len(),
            forall|k: int|
                0 <= k < i ==> (#[trigger] tracks.list()[k]).0 == was[k].0 && tracks.list()[k].1@
                    == without_sends(was[k].1@, bus_id),
            forall|k: int| i <= k < n ==> #[trigger] tracks.list()[k] == was[k],
    {
        let mut t = tracks.value_at(i).copy();
        t.sends = keep_other_sends(&t.sends, bus_id);
        assert(t@ == without_sends(was[i as int].1@, bus_id));
        tracks.replace_at(i, t);
    }
    proof {
        let now = tracks.list();
        assert forall|i: int| 0 <= i < now.len() implies (#[trigger] now[i]).1.number()
            == now[i].0 by {
            assert(was[i].1.number() == was[i].0);
            assert(now[i].1@.id == was[i].1@.id);
        }
        assert forall|i: int| 0 <= i < now.len() implies widths(now)[i] == widths(was)[i] by {
            assert(now[i].1@.id == was[i].1@.id);
            assert(now[i].1@.channels == was[i].1@.channels);
        }
        assert(widths(now) =~= widths(was));
        lemma_mapped(was, now, |t: Track| without_sends(t@, bus_id), |t: Track| t@);
        assert(as_map(was).map_values(|t: Track| without_sends(t@, bus_id)) =~= as_map(
            was,
        ).map_values(|t: Track| t@).map_values(|t: TrackModel| without_sends(t, bus_id)));
    }
}

/// Creates a track. Only an id that is taken is refused; what comes back are the sends that do
/// nothing because of the channel counts.
pub fn create_track(mixer: &mut MixerState, cfg: &TrackConfig) -> (r: Result<Vec<Mismatch>, String>)
    requires
        old(mixer).wf(),
    ensures
        final(mixer).wf(),
        r is Err <==> old(mixer)@.tracks.contains_key(cfg.id),
        match r {
            Err(e) => e@ == taken("track"@, cfg.id) && *final(mixer) == *old(mixer),
            Ok(w) => {
                let t = configured_track(
                    *cfg,
                    channels_or(cfg.channels, old(mixer)@.default_channels),
                    true,
                );
                final(mixer)@ == old(mixer)@.with_track(t) && w@ == mismatches(
                    t.id,
                    t.channels,
                    t.sends,
                    old(mixer)@.buses,
                )
            },
        },
{
    if mixer.tracks.contains_key(&cfg.id) {
        return Err(taken_message("track", cfg.id));
    }
    let track = build_track(cfg, mixer.default_channels, true);
    let warnings = warn_incompatible_sends(&track, &mixer.buses);
    let ghost before = mixer.tracks.list();
    let ghost model = track@;
    let ghost was = mixer@.tracks;
    assert(track.number() == model.id);
    mixer.tracks.insert(cfg.id, track);
    proof {
        lemma_own_keys_insert(before, mixer.tracks.list(), track);
        assert(mixer@.tracks =~= was.insert(model.id, model));
    }
    mixer.topology_generation = mixer.topology_generation.wrapping_add(1);
    Ok(warnings)
}

/// Creates a bus. Only an id that is taken is refused.
pub fn create_bus(mixer: &mut MixerState, cfg: &BusConfig) -> (r: Result<(), String>)
    requires
        old(mixer).wf(),
    ensures
        final(mixer).wf(),
        r is Err <==> old(mixer)@.buses.contains_key(cfg.id),
        match r {
            Err(e) => e@ == taken("bus"@, cfg.id) && *final(mixer) == *old(mixer),
            Ok(_) => final(mixer)@ == old(mixer)@.with_bus(
                configured_bus(
                    *cfg,
                    channels_or(cfg.channels, old(mixer)@.default_channels),
                    true,
                ),
            ),
        },
{
    if mixer.buses.contains_key(&cfg.id) {
        return Err(taken_message("bus", cfg.id));
    }
    let bus = build_bus(cfg, mixer.default_channels, true);
    let ghost before = mixer.buses.list();
    let ghost model = bus@;
    let ghost was = mixer@.buses;
    assert(bus.number() == model.id);
    mixer.buses.insert(cfg.id, bus);
    proof {
        lemma_own_keys_insert(before, mixer.buses.list(), bus);
        assert(mixer@.buses =~= was.insert(model.id, model));
    }
    mixer.topology_generation = mixer.topology_generation.wrapping_add(1);
    Ok(())
}

/// Creates a master. Only an id that is taken is refused.
pub fn create_master(mixer: &mut MixerState, cfg: &MasterTrackConfig) -> (r: Result<(), String>)
    requires
        old(mixer).wf(),
    ensures
        final(mixer).wf(),
        r is Err <==> old(mixer)@.masters.contains_key(cfg.id),
        match r {
            Err(e) => e@ == taken("master"@, cfg.id) && *final(mixer) == *old(mixer),
            Ok(_) => final(mixer)@ == old(mixer)@.with_master(
                configured_master(
                    *cfg,
                    channels_or(cfg.channels, old(mixer)@.default_channels),
                    true,
                ),
            ),
        },
{
    if mixer.masters.contains_key(&cfg.id) {
        return Err(taken_message("master", cfg.id));
    }
    let master = build_master(cfg, mixer.default_channels, true);
    let ghost before = mixer.masters.list();
    let ghost model = master@;
    let ghost was = mixer@.masters;
    assert(master.number() == model.id);
    mixer.masters.insert(cfg.id, master);
    proof {
        lemma_own_keys_insert(before, mixer.masters.list(), master);
        assert(mixer@.masters =~= was.insert(model.id, model));
    }
    mixer.topology_generation = mixer.topology_generation.wrapping_add(1);
    Ok(())
}

/// Deletes a track, with every patch that refers to it.
pub fn delete_track(mixer: &mut MixerState, id: u32) -> (r: Option<Track>)
    requires
        old(mixer).wf(),
    ensures
        final(mixer).wf(),
        r is Some <==> old(mixer)@.tracks.contains_key(id),
        match r {
            Some(t) => t@ == old(mixer)@.tracks[id] && final(mixer)@ == old(mixer)@.without_track(
                id,
            ),
            None => final(mixer)@ == old(mixer)@,
        },
{
    let ghost before = mixer.tracks.list();
    let ghost was = mixer@;
    let removed = mixer.tracks.remove(&id);
    proof {
        lemma_own_keys_remove(before, mixer.tracks.list(), id);
        assert(mixer@.tracks =~= was.tracks.remove(id));
    }
    if removed.is_none() {
        assert(mixer@.tracks =~= was.tracks);
        return None;
    }
    mixer.patch.remove_track_in(id);
    mixer.patch.scrub_track_out_references(id);
    mixer.topology_generation = mixer.topology_generation.wrapping_add(1);
    mixer.retired.push(Gone::Track(id));
    removed
}

/// Deletes a bus, with every patch that refers to it and every send that goes to it.
pub fn delete_bus(mixer: &mut MixerState, id: u32) -> (r: Option<Bus>)
    requires
        old(mixer).wf(),
    ensures
        final(mixer).wf(),
        r is Some <==> old(mixer)@.buses.contains_key(id),
        match r {
            Some(b) => b@ == old(mixer)@.buses[id] && final(mixer)@ == old(mixer)@.without_bus(id),
            None => final(mixer)@ == old(mixer)@,
        },
{
    let ghost before = mixer.buses.list();
    let ghost was = mixer@;
    let removed = mixer.buses.remove(&id);
    proof {
        lemma_own_keys_remove(before, mixer.buses.list(), id);
        assert(mixer@.buses =~= was.buses.remove(id));
    }
    if removed.is_none() {
        assert(mixer@.buses =~= was.buses);
        return None;
    }
    drop_sends(&mut mixer.tracks, id);
    mixer.patch.remove_bus_in(id);
    mixer.patch.scrub_bus_out_references(id);
    mixer.topology_generation = mixer.topology_generation.wrapping_add(1);
    mixer.retired.push(Gone::Bus(id));
    removed
}

/// Deletes a master, with every patch that refers to it.
pub fn delete_master(mixer: &mut MixerState, id: u32) -> (r: Option<MasterTrack>)
    requires
        old(mixer).wf(),
    ensures
        final(mixer).wf(),
        r is Some <==> old(mixer)@.masters.contains_key(id),
        match r {
            Some(m) => m@ == old(mixer)@.masters[id] && final(mixer)@ == old(
                mixer,
            )@.without_master(id),
            None => final(mixer)@ == old(mixer)@,
        },
{
    let ghost before = mixer.masters.list();
    let ghost was = mixer@;
    let removed = mixer.masters.remove(&id);
    proof {
        lemma_own_keys_remove(before, mixer.masters.list(), id);
        assert(mixer@.masters =~= was.masters.remove(id));
    }
    if removed.is_none() {
        assert(mixer@.masters =~= was.masters);
        return None;
    }
    mixer.patch.remove_master_in(id);
    mixer.patch.scrub_master_out_references(id);
    mixer.topology_generation = mixer.topology_generation.wrapping_add(1);
    mixer.retired.push(Gone::Master(id));
    removed
}

proof fn lemma_other_sends(sends: Seq<Send>, bus_id: u32, k: int)
    requires
        0 <= k < other_sends(sends, bus_id).len(),
    ensures
        other_sends(sends, bus_id)[k].bus_id != bus_id,
        sends.contains(other_sends(sends, bus_id)[k]),
    decreases sends.len(),
{
    let rest = other_sends(sends.drop_last(), bus_id);
    if k < rest.len() {
        lemma_other_sends(sends.drop_last(), bus_id, k);
        let j = choose|j: int|
            0 <= j < sends.drop_last().len() && sends.drop_last()[j] == rest[k];
        assert(sends[j] == rest[k]);
    } else {
        assert(sends[sends.len() - 1] == sends.last());
    }
}

/// After a deletion nothing refers to what was deleted: a strip that is created under the same id
/// later is connected to nothing.
pub proof fn law_deletion_leaves_no_reference(m: MixerModel, id: u32)
    ensures
        m.without_track(id).patch.free_of(Gone::Track(id)),
        !m.without_track(id).patch.track_in.contains_key(id),
        m.without_bus(id).patch.free_of(Gone::Bus(id)),
        !m.without_bus(id).patch.bus_in.contains_key(id),
        forall|t: u32, k: int|
            m.without_bus(id).tracks.contains_key(t) && 0 <= k < m.without_bus(
                id,
            ).tracks[t].sends.len() ==> (#[trigger] m.without_bus(id).tracks[t].sends[k]).bus_id
                != id,
        m.without_master(id).patch.free_of(Gone::Master(id)),
        !m.without_master(id).patch.master_in.contains_key(id),
{
    let pt = PatchModel { track_in: m.patch.track_in.remove(id), ..m.patch };
    let pb = PatchModel { bus_in: m.patch.bus_in.remove(id), ..m.patch };
    let pm = PatchModel { master_in: m.patch.master_in.remove(id), ..m.patch };
    crate::console::patch::law_scrub_leaves_no_reference(pt, Gone::Track(id));
    crate::console::patch::law_scrub_leaves_no_reference(pb, Gone::Bus(id));
    crate::console::patch::law_scrub_leaves_no_reference(pm, Gone::Master(id));
    let after = m.without_bus(id);
    assert forall|t: u32, k: int|
        after.tracks.contains_key(t) && 0 <= k < after.tracks[t].sends.len() implies (
    #[trigger] after.tracks[t].sends[k]).bus_id != id by {
        lemma_other_sends(m.tracks[t].sends, id, k);
    }
}

/// Deleting a track that was just created gives the strips and the patches back as they were, where
/// no patch referred to the id and none was set for it.
pub proof fn law_deletion_undoes_creation(m: MixerModel, t: TrackModel)
    requires
        !m.tracks.contains_key(t.id),
        !m.patch.track_in.contains_key(t.id),
        m.patch.free_of(Gone::Track(t.id)),
    ensures
        m.with_track(t).without_track(t.id).tracks == m.tracks,
        m.with_track(t).without_track(t.id).patch == m.patch,
{
    assert(m.tracks.insert(t.id, t).remove(t.id) =~= m.tracks);
    assert(m.patch.track_in.remove(t.id) =~= m.patch.track_in);
    crate::console::patch::law_scrub_touches_nothing_else(m.patch, Gone::Track(t.id));
}

proof fn lemma_no_other_sends(sends: Seq<Send>, bus_id: u32)
    requires
        forall|k: int| 0 <= k < sends.len() ==> (#[trigger] sends[k]).bus_id != bus_id,
    ensures
        other_sends(sends, bus_id) == sends,
    decreases sends.len(),
{
    if sends.len() > 0 {
        assert(sends[sends.len() - 1] == sends.last());
        assert forall|k: int| 0 <= k < sends.drop_last().len() implies (
        #[trigger] sends.drop_last()[k]).bus_id != bus_id by {
            assert(sends[k].bus_id != bus_id);
        }
        lemma_no_other_sends(sends.drop_last(), bus_id);
    }
    assert(other_sends(sends, bus_id) =~= sends);
}

/// Deleting a bus that was just created gives the strips and the patches back as they were, where
/// no patch referred to the id, none was set for it and no send went to it.
pub proof fn law_bus_deletion_undoes_creation(m: MixerModel, b: BusModel)
    requires
        !m.buses.contains_key(b.id),
        !m.patch.bus_in.contains_key(b.id),
        m.patch.free_of(Gone::Bus(b.id)),
        forall|t: u32, k: int|
            m.tracks.contains_key(t) && 0 <= k < m.tracks[t].sends.len() ==> (
            #[trigger] m.tracks[t].sends[k]).bus_id != b.id,
    ensures
        m.with_bus(b).without_bus(b.id).tracks == m.tracks,
        m.with_bus(b).without_bus(b.id).buses == m.buses,
        m.with_bus(b).without_bus(b.id).patch == m.patch,
{
    let after = m.with_bus(b).without_bus(b.id);
    assert(after.buses =~= m.buses);
    assert forall|t: u32| m.tracks.contains_key(t) implies #[trigger] after.tracks[t]
        == m.tracks[t] by {
        lemma_no_other_sends(m.tracks[t].sends, b.id);
    }
    assert(after.tracks =~= m.tracks);
    assert(m.patch.bus_in.remove(b.id) =~= m.patch.bus_in);
    crate::console::patch::law_scrub_touches_nothing_else(m.patch, Gone::Bus(b.id));
}

/// Deleting a master that was just created gives the strips and the patches back as they were,
/// where no patch referred to the id and none was set for it.
pub proof fn law_master_deletion_undoes_creation(
    m: MixerModel,
    master: MasterModel,
)
    requires
        !m.masters.contains_key(master.id),
        !m.patch.master_in.contains_key(master.id),
        m.patch.free_of(Gone::Master(master.id)),
    ensures
        m.with_master(master).without_master(master.id).masters == m.masters,
        m.with_master(master).without_master(master.id).patch == m.patch,
{
    assert(m.masters.insert(master.id, master).remove(master.id) =~= m.masters);
    assert(m.patch.master_in.remove(master.id) =~= m.patch.master_in);
    crate::console::patch::law_scrub_touches_nothing_else(m.patch, Gone::Master(master.id));
}

} // verus!
