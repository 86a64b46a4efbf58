//! The live state of the mixer as one document, and how it is resumed from one.
//!
//! A document only ever changes the values of strips that exist. The strips that were created while
//! the mixer ran are described in a section of their own, from which they are built again before
//! the values are resumed.

use vstd::prelude::*;
use vstd::string::*;

use crate::console::dsp::{given, kept, law_stage_reads_back, ProcessingStage, StageModel};
use crate::console::engine::{MixerModel, MixerState};
use crate::console::mixer::{
    chain_model, own_keys, widths, Bus, MasterModel, MasterTrack, Strip, Track, TrackModel,
};
use crate::console::patch::{
    bus_no_array, feeds_doc, feeds_or_empty, law_patches_read_back, master_no_array, slots_doc,
    slots_or_empty, sum_refusal, track_in_refusal, world, InputGrid, PatchModel, PatchState,
    RefModel, World,
};
use crate::console::ws::{
    chain_doc, chain_json, finite_sends, law_sends_read_back, parse_sends, parsed_sends, sends_doc,
    sends_json, slot_doc, with_bus_in, with_master_in, with_track_in, written_sends,
};
use crate::json::{
    docs, fields, lemma_field_empty, lemma_field_with, lemma_lookup_at, level, no_entries,
    put_entry, whole, written, Doc, Json,
};
use crate::single::finite;
use crate::table::{as_map, lemma_distinct, lemma_from_map, lemma_in_map, lemma_mapped, sorted, Table};
use crate::text::{dec, decimal, lemma_dec_injective};

verus! {

/// The live values of a track.
pub open spec fn track_state(t: TrackModel, p: PatchModel) -> Doc {
    Doc::object().with("gain_db"@, level(t.gain_db)).with(
        "fader_db"@,
        level(t.fader_db),
    ).with("mute"@, Doc::Bool(t.mute)).with("solo"@, Doc::Bool(t.solo)).with(
        "sends"@,
        sends_doc(t.sends),
    ).with("chain"@, chain_doc(t.chain)).with(
        "input_patch"@,
        slots_doc(slots_or_empty(p.track_in, t.id, t.channels)),
    )
}

/// The live values of a bus: it has only its patch.
pub open spec fn bus_state(id: u32, channels: usize, p: PatchModel) -> Doc {
    Doc::object().with("input_patch"@, feeds_doc(feeds_or_empty(p.bus_in, id, channels)))
}

/// The live values of a master.
pub open spec fn master_state(m: MasterModel, p: PatchModel) -> Doc {
    Doc::object().with("fader_db"@, level(m.fader_db)).with(
        "mute"@,
        Doc::Bool(m.mute),
    ).with("chain"@, chain_doc(m.chain)).with(
        "input_patch"@,
        feeds_doc(feeds_or_empty(p.master_in, m.id, m.channels)),
    )
}

/// The live values of tracks, under their numbers.
pub open spec fn track_states(s: Seq<(u32, Track)>, p: PatchModel) -> Seq<(Seq<char>, Doc)> {
    s.map_values(|e: (u32, Track)| (dec(e.1.id as nat), track_state(e.1@, p)))
}

/// The live values of buses, under their numbers.
pub open spec fn bus_states(s: Seq<(u32, Bus)>, p: PatchModel) -> Seq<(Seq<char>, Doc)> {
    s.map_values(|e: (u32, Bus)| (dec(e.1.id as nat), bus_state(e.1.id, e.1.channels, p)))
}

/// The live values of masters, under their numbers.
pub open spec fn master_states(s: Seq<(u32, MasterTrack)>, p: PatchModel) -> Seq<(Seq<char>, Doc)> {
    s.map_values(|e: (u32, MasterTrack)| (dec(e.1.id as nat), master_state(e.1@, p)))
}

/// What a track can be built again from.
pub open spec fn track_shape(t: TrackModel) -> Doc {
    Doc::object().with("id"@, Doc::Number(whole(t.id as u64))).with(
        "label"@,
        Doc::Text(t.label),
    ).with("channels"@, Doc::Number(whole(t.channels as u64))).with(
        "chain"@,
        chain_doc(t.chain),
    ).with("sends"@, sends_doc(t.sends)).with("gain_db"@, level(t.gain_db)).with(
        "fader_db"@,
        level(t.fader_db),
    )
}

/// What a bus can be built again from.
pub open spec fn bus_shape(id: u32, label: Seq<char>, channels: usize) -> Doc {
    Doc::object().with("id"@, Doc::Number(whole(id as u64))).with("label"@, Doc::Text(label)).with(
        "channels"@,
        Doc::Number(whole(channels as u64)),
    )
}

/// What a master can be built again from.
pub open spec fn master_shape(m: MasterModel) -> Doc {
    Doc::object().with("id"@, Doc::Number(whole(m.id as u64))).with(
        "label"@,
        Doc::Text(m.label),
    ).with("channels"@, Doc::Number(whole(m.channels as u64))).with(
        "chain"@,
        chain_doc(m.chain),
    ).with("fader_db"@, level(m.fader_db))
}

/// The tracks that were created while the mixer ran.
pub open spec fn track_shapes(s: Seq<(u32, Track)>) -> Seq<(Seq<char>, Doc)>
    decreases s.len(),
{
    if s.len() == 0 {
        Seq::empty()
    } else if s.last().1.dynamically_created {
        track_shapes(s.drop_last()).push((dec(s.last().1.id as nat), track_shape(s.last().1@)))
    } else {
        track_shapes(s.drop_last())
    }
}

/// The buses that were created while the mixer ran.
pub open spec fn bus_shapes(s: Seq<(u32, Bus)>) -> Seq<(Seq<char>, Doc)>
    decreases s.len(),
{
    if s.len() == 0 {
        Seq::empty()
    } else if s.last().1.dynamically_created {
        bus_shapes(s.drop_last()).push(
            (
                dec(s.last().1.id as nat),
                bus_shape(s.last().1.id, s.last().1.label@, s.last().1.channels),
            ),
        )
    } else {
        bus_shapes(s.drop_last())
    }
}

/// The masters that were created while the mixer ran.
pub open spec fn master_shapes(s: Seq<(u32, MasterTrack)>) -> Seq<(Seq<char>, Doc)>
    decreases s.len(),
{
    if s.len() == 0 {
        Seq::empty()
    } else if s.last().1.dynamically_created {
        master_shapes(s.drop_last()).push((dec(s.last().1.id as nat), master_shape(s.last().1@)))
    } else {
        master_shapes(s.drop_last())
    }
}

/// The live state of a mixer.
pub open spec fn captured(mixer: MixerState) -> Doc {
    Doc::object().with(
        "tracks"@,
        Doc::Object(track_states(mixer.tracks.list(), mixer.patch@)),
    ).with("buses"@, Doc::Object(bus_states(mixer.buses.list(), mixer.patch@))).with(
        "masters"@,
        Doc::Object(master_states(mixer.masters.list(), mixer.patch@)),
    ).with(
        "topology"@,
        Doc::object().with("tracks"@, Doc::Object(track_shapes(mixer.tracks.list()))).with(
            "buses"@,
            Doc::Object(bus_shapes(mixer.buses.list())),
        ).with("masters"@, Doc::Object(master_shapes(mixer.masters.list()))),
    )
}

fn capture_tracks(t: &Table<u32, Track>, patch: &PatchState) -> (r: Json)
    requires
        patch.wf(),
    ensures
        r@ == Doc::Object(track_states(t.list(), patch@)),
{
    let mut out = no_entries();
    let ghost want = track_states(t.list(), patch@);
    for i in 0..t.len()
        invariant
            patch.wf(),
            want == track_states(t.list(), patch@),
            fields(out@) == want.take(i as int),
    {
        let track = t.value_at(i);
        let v = Json::new_object().with("gain_db", Json::single(track.gain_db)).with(
            "fader_db",
            Json::single(track.fader_db),
        ).with("mute", Json::Bool(track.mute)).with("solo", Json::Bool(track.solo)).with(
            "sends",
            sends_json(&track.sends),
        ).with("chain", chain_json(&track.chain)).with(
            "input_patch",
            patch.track_in_json(track.id, track.channels),
        );
        put_entry(&mut out, decimal(track.id as u64), v);
        assert(fields(out@) =~= want.take(i + 1));
    }
    assert(fields(out@) =~= want);
    Json::object(out)
}

fn capture_buses(t: &Table<u32, Bus>, patch: &PatchState) -> (r: Json)
    requires
        patch.wf(),
    ensures
        r@ == Doc::Object(bus_states(t.list(), patch@)),
{
    let mut out = no_entries();
    let ghost want = bus_states(t.list(), patch@);
    for i in 0..t.len()
        invariant
            patch.wf(),
            want == bus_states(t.list(), patch@),
            fields(out@) == want.take(i as int),
    {
        let bus = t.value_at(i);
        let v = Json::new_object().with("input_patch", patch.bus_in_json(bus.id, bus.channels));
        put_entry(&mut out, decimal(bus.id as u64), v);
        assert(fields(out@) =~= want.take(i + 1));
    }
    assert(fields(out@) =~= want);
    Json::object(out)
}

fn capture_masters(t: &Table<u32, MasterTrack>, patch: &PatchState) -> (r: Json)
    requires
        patch.wf(),
    ensures
        r@ == Doc::Object(master_states(t.list(), patch@)),
{
    let mut out = no_entries();
    let ghost want = master_states(t.list(), patch@);
    for i in 0..t.len()
        invariant
            patch.wf(),
            want == master_states(t.list(), patch@),
            fields(out@) == want.take(i as int),
    {
        let m = t.value_at(i);
        let v = Json::new_object().with("fader_db", Json::single(m.fader_db)).with(
            "mute",
            Json::Bool(m.mute),
        ).with("chain", chain_json(&m.chain)).with(
            "input_patch",
            patch.master_in_json(m.id, m.channels),
        );
        put_entry(&mut out, decimal(m.id as u64), v);
        assert(fields(out@) =~= want.take(i + 1));
    }
    assert(fields(out@) =~= want);
    Json::object(out)
}

fn describe_tracks(t: &Table<u32, Track>) -> (r: Json)
    ensures
        r@ == Doc::Object(track_shapes(t.list())),
{
    let mut out = no_entries();
    let ghost all = t.list();
    assert(all.take(0) =~= Seq::empty());
    for i in 0..t.len()
        invariant
            all == t.list(),
            fields(out@) == track_shapes(all.take(i as int)),
    {
        assert(all.take(i + 1).drop_last() =~= all.take(i as int));
        let track = t.value_at(i);
        if track.dynamically_created {
            let v = Json::new_object().with("id", Json::whole(track.id as u64)).with(
                "label",
                Json::text(track.label.as_str()),
            ).with("channels", Json::whole(track.channels as u64)).with(
                "chain",
                chain_json(&track.chain),
            ).with("sends", sends_json(&track.sends)).with(
                "gain_db",
                Json::single(track.gain_db),
            ).with("fader_db", Json::single(track.fader_db));
            put_entry(&mut out, decimal(track.id as u64), v);
        }
    }
    assert(all.take(all.len() as int) =~= all);
    Json::object(out)
}

fn describe_buses(t: &Table<u32, Bus>) -> (r: Json)
    ensures
        r@ == Doc::Object(bus_shapes(t.list())),
{
    let mut out = no_entries();
    let ghost all = t.list();
    assert(all.take(0) =~= Seq::empty());
    for i in 0..t.len()
        invariant
            all == t.list(),
            fields(out@) == bus_shapes(all.take(i as int)),
    {
        assert(all.take(i + 1).drop_last() =~= all.take(i as int));
        let bus = t.value_at(i);
        if bus.dynamically_created {
            let v = Json::new_object().with("id", Json::whole(bus.id as u64)).with(
                "label",
                Json::text(bus.label.as_str()),
            ).with("channels", Json::whole(bus.channels as u64));
            put_entry(&mut out, decimal(bus.id as u64), v);
        }
    }
    assert(all.take(all.len() as int) =~= all);
    Json::object(out)
}

fn describe_masters(t: &Table<u32, MasterTrack>) -> (r: Json)
    ensures
        r@ == Doc::Object(master_shapes(t.list())),
{
    let mut out = no_entries();
    let ghost all = t.list();
    assert(all.take(0) =~= Seq::empty());
    for i in 0..t.len()
        invariant
            all == t.list(),
            fields(out@) == master_shapes(all.take(i as int)),
    {
        assert(all.take(i + 1).drop_last() =~= all.take(i as int));
        let m = t.value_at(i);
        if m.dynamically_created {
            let v = Json::new_object().with("id", Json::whole(m.id as u64)).with(
                "label",
                Json::text(m.label.as_str()),
            ).with("channels", Json::whole(m.channels as u64)).with(
                "chain",
                chain_json(&m.chain),
            ).with("fader_db", Json::single(m.fader_db));
            put_entry(&mut out, decimal(m.id as u64), v);
        }
    }
    assert(all.take(all.len() as int) =~= all);
    Json::object(out)
}

/// The live state of the mixer as one document.
pub fn capture(mixer: &MixerState) -> (r: Json)
    requires
        mixer.wf(),
    ensures
        r@ == captured(*mixer),
{
    let topology = Json::new_object().with("tracks", describe_tracks(&mixer.tracks)).with(
        "buses",
        describe_buses(&mixer.buses),
    ).with("masters", describe_masters(&mixer.masters));
    Json::new_object().with("tracks", capture_tracks(&mixer.tracks, &mixer.patch)).with(
        "buses",
        capture_buses(&mixer.buses, &mixer.patch),
    ).with("masters", capture_masters(&mixer.masters, &mixer.patch)).with("topology", topology)
}

/// What a document says of a strip.
pub open spec fn entry_of(snapshot: Doc, section: Seq<char>, id: u32) -> Option<Doc> {
    match snapshot.field(section) {
        Some(s) => s.field(dec(id as nat)),
        None => None,
    }
}

fn find_entry<'a>(snapshot: &'a Json, section: &str, id: u32) -> (r: Option<&'a Json>)
    ensures
        match r {
            Some(v) => entry_of(snapshot@, section@, id) == Some(v@),
            None => entry_of(snapshot@, section@, id) is None,
        },
{
    match snapshot.get(section) {
        Some(s) => s.get(decimal(id as u64).as_str()),
        None => None,
    }
}

/// A chain after items of a document were applied: each to the stage at its index, where there is
/// one. No stage is added or removed.
pub open spec fn overlaid_chain(chain: Seq<StageModel>, items: Seq<Doc>) -> Seq<StageModel>
    decreases items.len(),
{
    if items.len() == 0 {
        chain
    } else {
        let c = overlaid_chain(chain, items.drop_last());
        match (items.last().unsigned_field("index"@), items.last().field("params"@)) {
            (Some(index), Some(params)) => if (index as usize) < c.len() {
                c.update(index as usize as int, c[index as usize as int].applied(params))
            } else {
                c
            },
            _ => c,
        }
    }
}

/// A chain after what a document says of it was applied.
pub open spec fn restored_chain(chain: Seq<StageModel>, d: Option<Doc>) -> Seq<StageModel> {
    match d {
        Some(d) => match d.items() {
            Some(items) => overlaid_chain(chain, items),
            None => chain,
        },
        None => chain,
    }
}

/// Applies what a document says of a chain, stage by stage.
pub fn apply_chain_snapshot(chain: &mut Vec<ProcessingStage>, snapshot: Option<&Json>)
    ensures
        chain_model(final(chain)@) == restored_chain(
            chain_model(old(chain)@),
            (match snapshot {
                Some(v) => Some(v@),
                None => None,
            }),
        ),
{
    let items = match snapshot {
        Some(v) => match v.as_array() {
            Some(a) => a,
            None => {
                return;
            },
        },
        None => {
            return;
        },
    };
    let ghost all = docs(items@);
    let ghost was = chain_model(chain@);
    assert(all.take(0) =~= Seq::empty());
    for i in 0..items.len()
        invariant
            all == docs(items@),
            chain_model(chain@) == overlaid_chain(was, all.take(i as int)),
    {
        assert(all.take(i + 1).drop_last() =~= all.take(i as int));
        let ghost before = chain_model(chain@);
        if let Some(index) = items[i].unsigned_field("index") {
            if let Some(params) = items[i].get("params") {
                let k: usize = index as usize;
                if k < chain.len() {
                    let mut stage = chain[k].copy();
                    stage.apply(params);
                    chain.set(k, stage);
                    assert(chain_model(chain@) =~= before.update(
                        k as int,
                        before[k as int].applied(params@),
                    ));
                }
            }
        }
    }
    assert(all.take(all.len() as int) =~= all);
}

/// A track after what a document says of it was applied. What is missing or malformed is skipped.
pub open spec fn restored_track(t: TrackModel, snapshot: Doc) -> TrackModel {
    match entry_of(snapshot, "tracks"@, t.id) {
        Some(d) => TrackModel {
            gain_db: given(d.single_field("gain_db"@), t.gain_db),
            fader_db: given(d.single_field("fader_db"@), t.fader_db),
            mute: given(d.boolean_field("mute"@), t.mute),
            solo: given(d.boolean_field("solo"@), t.solo),
            sends: match d.field("sends"@) {
                Some(v) => match parsed_sends(v) {
                    Ok(s) => s,
                    Err(_) => t.sends,
                },
                None => t.sends,
            },
            chain: restored_chain(t.chain, d.field("chain"@)),
            ..t
        },
        None => t,
    }
}

/// A master after what a document says of it was applied. What is missing or malformed is skipped.
pub open spec fn restored_master(m: MasterModel, snapshot: Doc) -> MasterModel {
    match entry_of(snapshot, "masters"@, m.id) {
        Some(d) => MasterModel {
            fader_db: given(d.single_field("fader_db"@), m.fader_db),
            mute: given(d.boolean_field("mute"@), m.mute),
            chain: restored_chain(m.chain, d.field("chain"@)),
            ..m
        },
        None => m,
    }
}

/// The patch that a document holds for a strip.
pub open spec fn patch_of(snapshot: Doc, section: Seq<char>, id: u32) -> Option<Doc> {
    match entry_of(snapshot, section, id) {
        Some(d) => d.field("input_patch"@),
        None => None,
    }
}

/// The patches after those of a document for tracks were set, each where it is accepted.
pub open spec fn restored_tracks_in(
    p: PatchModel,
    ids: Seq<(u32, usize)>,
    w: World,
    snapshot: Doc,
) -> PatchModel
    decreases ids.len(),
{
    if ids.len() == 0 {
        p
    } else {
        let q = restored_tracks_in(p, ids.drop_last(), w, snapshot);
        match patch_of(snapshot, "tracks"@, ids.last().0) {
            Some(v) => with_track_in(q, w, ids.last().0, v),
            None => q,
        }
    }
}

/// The patches after those of a document for buses were set, each where it is accepted.
pub open spec fn restored_buses_in(
    p: PatchModel,
    ids: Seq<(u32, usize)>,
    w: World,
    snapshot: Doc,
) -> PatchModel
    decreases ids.len(),
{
    if ids.len() == 0 {
        p
    } else {
        let q = restored_buses_in(p, ids.drop_last(), w, snapshot);
        match patch_of(snapshot, "buses"@, ids.last().0) {
            Some(v) => with_bus_in(q, w, ids.last().0, ids.last().1, v),
            None => q,
        }
    }
}

/// The patches after those of a document for masters were set, each where it is accepted.
pub open spec fn restored_masters_in(
    p: PatchModel,
    ids: Seq<(u32, usize)>,
    w: World,
    snapshot: Doc,
) -> PatchModel
    decreases ids.len(),
{
    if ids.len() == 0 {
        p
    } else {
        let q = restored_masters_in(p, ids.drop_last(), w, snapshot);
        match patch_of(snapshot, "masters"@, ids.last().0) {
            Some(v) => with_master_in(q, w, ids.last().0, ids.last().1, v),
            None => q,
        }
    }
}

/// The patches after those of a document were set.
pub open spec fn restored_patch(p: PatchModel, w: World, snapshot: Doc) -> PatchModel {
    restored_masters_in(
        restored_buses_in(
            restored_tracks_in(p, w.tracks, w, snapshot),
            w.buses,
            w,
            snapshot,
        ),
        w.masters,
        w,
        snapshot,
    )
}

fn restore_track(t: &mut Track, snapshot: &Json)
    ensures
        final(t)@ == restored_track(old(t)@, snapshot@),
{
    if let Some(d) = find_entry(snapshot, "tracks", t.id) {
        if let Some(v) = d.single_field("gain_db") {
            t.gain_db = v;
        }
        if let Some(v) = d.single_field("fader_db") {
            t.fader_db = v;
        }
        if let Some(v) = d.boolean_field("mute") {
            t.mute = v;
        }
        if let Some(v) = d.boolean_field("solo") {
            t.solo = v;
        }
        if let Some(v) = d.get("sends") {
            if let Ok(s) = parse_sends(v) {
                t.sends = s;
            }
        }
        apply_chain_snapshot(&mut t.chain, d.get("chain"));
    }
}

/// Applies what a document says of a master.
pub fn apply_master_fields(m: &mut MasterTrack, snapshot: &Json)
    ensures
        final(m)@ == restored_master(old(m)@, snapshot@),
{
    if let Some(d) = find_entry(snapshot, "masters", m.id) {
        if let Some(v) = d.single_field("fader_db") {
            m.fader_db = v;
        }
        if let Some(v) = d.boolean_field("mute") {
            m.mute = v;
        }
        apply_chain_snapshot(&mut m.chain, d.get("chain"));
    }
}

fn restore_tracks(tracks: &mut Table<u32, Track>, snapshot: &Json)
    requires
        old(tracks).wf(),
        own_keys(old(tracks).list()),
    ensures
        final(tracks).wf(),
        own_keys(final(tracks).list()),
        widths(final(tracks).list()) == widths(old(tracks).list()),
        final(tracks)@.map_values(|t: Track| t@) == old(tracks)@.map_values(
            |t: Track| t@,
        ).map_values(|t: TrackModel| restored_track(t, snapshot@)),
{
    let ghost was = tracks.list();
    let n: usize = tracks.len();
    for i in 0..n
        invariant
            n == was.len(),
            tracks.wf(),
            sorted(was),
            own_keys(was),
            tracks.list().len() == was.len(),
            forall|k: int|
                0 <= k < i ==> (#[trigger] tracks.list()[k]).0 == was[k].0 && tracks.list()[k].1@
                    == restored_track(was[k].1@, snapshot@),
            forall|k: int| i <= k < n ==> #[trigger] tracks.list()[k] == was[k],
    {
        let mut t = tracks.value_at(i).copy();
        restore_track(&mut t, snapshot);
        tracks.replace_at(i, t);
    }
    proof {
        let now = tracks.list();
        assert forall|i: int| 0 <= i < now.len() implies (#[trigger] now[i]).1.number()
            == now[i].0 by {
            assert(was[i].1.number() == was[i].0);
            assert(now[i].1@.id == was[i].1@.id);
        }
        assert forall|i: int| 0 <= i < now.len() implies widths(now)[i] == widths(was)[i] by {
            assert(now[i].1@.id == was[i].1@.id);
            assert(now[i].1@.channels == was[i].1@.channels);
        }
        assert(widths(now) =~= widths(was));
        lemma_mapped(was, now, |t: Track| restored_track(t@, snapshot@), |t: Track| t@);
        assert(as_map(was).map_values(|t: Track| restored_track(t@, snapshot@)) =~= as_map(
            was,
        ).map_values(|t: Track| t@).map_values(|t: TrackModel| restored_track(t, snapshot@)));
    }
}

fn restore_masters(masters: &mut Table<u32, MasterTrack>, snapshot: &Json)
    requires
        old(masters).wf(),
        own_keys(old(masters).list()),
    ensures
        final(masters).wf(),
        own_keys(final(masters).list()),
        widths(final(masters).list()) == widths(old(masters).list()),
        final(masters)@.map_values(|t: MasterTrack| t@) == old(masters)@.map_values(
            |t: MasterTrack| t@,
        ).map_values(|t: MasterModel| restored_master(t, snapshot@)),
{
    let ghost was = masters.list();
    let n: usize = masters.len();
    for i in 0..n
        invariant
            n == was.len(),
            masters.wf(),
            sorted(was),
            own_keys(was),
            masters.list().len() == was.len(),
            forall|k: int|
                0 <= k < i ==> (#[trigger] masters.list()[k]).0 == was[k].0 && masters.list()[k].1@
                    == restored_master(was[k].1@, snapshot@),
            forall|k: int| i <= k < n ==> #[trigger] masters.list()[k] == was[k],
    {
        let mut t = masters.value_at(i).copy();
        apply_master_fields(&mut t, snapshot);
        masters.replace_at(i, t);
    }
    proof {
        let now = masters.list();
        assert forall|i: int| 0 <= i < now.len() implies (#[trigger] now[i]).1.number()
            == now[i].0 by {
            assert(was[i].1.number() == was[i].0);
            assert(now[i].1@.id == was[i].1@.id);
        }
        assert forall|i: int| 0 <= i < now.len() implies widths(now)[i] == widths(was)[i] by {
            assert(now[i].1@.id == was[i].1@.id);
            assert(now[i].1@.channels == was[i].1@.channels);
        }
        assert(widths(now) =~= widths(was));
        lemma_mapped(was, now, |t: MasterTrack| restored_master(t@, snapshot@), |t: MasterTrack| t@);
        assert(as_map(was).map_values(|t: MasterTrack| restored_master(t@, snapshot@)) =~= as_map(
            was,
        ).map_values(|t: MasterTrack| t@).map_values(
            |t: MasterModel| restored_master(t, snapshot@),
        ));
    }
}

fn find_patch<'a>(snapshot: &'a Json, section: &str, id: u32) -> (r: Option<&'a Json>)
    ensures
        match r {
            Some(v) => patch_of(snapshot@, section@, id) == Some(v@),
            None => patch_of(snapshot@, section@, id) is None,
        },
{
    match find_entry(snapshot, section, id) {
        Some(d) => d.get("input_patch"),
        None => None,
    }
}

fn restore_patches(
    patch: &mut PatchState,
    tracks: &[(u32, usize)],
    buses: &[(u32, usize)],
    masters: &[(u32, usize)],
    input_grid: &InputGrid,
    snapshot: &Json,
)
    requires
        old(patch).wf(),
        input_grid.wf(),
    ensures
        final(patch).wf(),
        final(patch)@ == restored_patch(
            old(patch)@,
            world(tracks@, buses@, masters@, *input_grid),
            snapshot@,
        ),
{
    let ghost w = world(tracks@, buses@, masters@, *input_grid);
    let ghost p0 = patch@;
    assert(tracks@.take(0) =~= Seq::empty());
    for i in 0..tracks.len()
        invariant
            patch.wf(),
            input_grid.wf(),
            w == world(tracks@, buses@, masters@, *input_grid),
            patch@ == restored_tracks_in(p0, tracks@.take(i as int), w, snapshot@),
    {
        assert(tracks@.take(i + 1).drop_last() =~= tracks@.take(i as int));
        let id: u32 = tracks[i].0;
        if let Some(v) = find_patch(snapshot, "tracks", id) {
            if let Ok(s) = PatchState::parse_track_in(v) {
                let _ = patch.set_track_in(tracks, buses, masters, input_grid, id, s);
            }
        }
    }
    assert(tracks@.take(tracks@.len() as int) =~= tracks@);
    let ghost p1 = patch@;
    assert(buses@.take(0) =~= Seq::empty());
    for i in 0..buses.len()
        invariant
            patch.wf(),
            input_grid.wf(),
            w == world(tracks@, buses@, masters@, *input_grid),
            patch@ == restored_buses_in(p1, buses@.take(i as int), w, snapshot@),
    {
        assert(buses@.take(i + 1).drop_last() =~= buses@.take(i as int));
        let (id, channels) = buses[i];
        if let Some(v) = find_patch(snapshot, "buses", id) {
            if let Ok(s) = PatchState::parse_bus_in(v) {
                let _ = patch.set_bus_in(tracks, buses, masters, input_grid, id, channels, s);
            }
        }
    }
    assert(buses@.take(buses@.len() as int) =~= buses@);
    let ghost p2 = patch@;
    assert(masters@.take(0) =~= Seq::empty());
    for i in 0..masters.len()
        invariant
            patch.wf(),
            input_grid.wf(),
            w == world(tracks@, buses@, masters@, *input_grid),
            patch@ == restored_masters_in(p2, masters@.take(i as int), w, snapshot@),
    {
        assert(masters@.take(i + 1).drop_last() =~= masters@.take(i as int));
        let (id, channels) = masters[i];
        if let Some(v) = find_patch(snapshot, "masters", id) {
            if let Ok(s) = PatchState::parse_master_in(v) {
                let _ = patch.set_master_in(tracks, buses, masters, input_grid, id, channels, s);
            }
        }
    }
    assert(masters@.take(masters@.len() as int) =~= masters@);
}

/// A mixer after the live state that a document holds was resumed.
pub open spec fn resumed(m: MixerModel, w: World, snapshot: Doc) -> MixerModel {
    MixerModel {
        tracks: m.tracks.map_values(|t: TrackModel| restored_track(t, snapshot)),
        masters: m.masters.map_values(|t: MasterModel| restored_master(t, snapshot)),
        patch: restored_patch(m.patch, w, snapshot),
        ..m
    }
}

/// Resumes the live state that a document holds. A strip that does not exist is skipped, and so is
/// every part that is malformed or refused.
pub fn apply_snapshot(mixer: &mut MixerState, snapshot: &Json)
    requires
        old(mixer).wf(),
    ensures
        final(mixer).wf(),
        final(mixer).world() == old(mixer).world(),
        final(mixer)@ == resumed(old(mixer)@, old(mixer).world(), snapshot@),
{
    let tracks = mixer.track_channels();
    let buses = mixer.bus_channels();
    let masters = mixer.master_channels();
    restore_tracks(&mut mixer.tracks, snapshot);
    restore_masters(&mut mixer.masters, snapshot);
    restore_patches(
        &mut mixer.patch,
        tracks.as_slice(),
        buses.as_slice(),
        masters.as_slice(),
        &mixer.input_grid,
        snapshot,
    );
}

proof fn lemma_sections(mixer: MixerState)
    ensures
        captured(mixer).field("tracks"@) == Some(
            Doc::Object(track_states(mixer.tracks.list(), mixer.patch@)),
        ),
        captured(mixer).field("buses"@) == Some(
            Doc::Object(bus_states(mixer.buses.list(), mixer.patch@)),
        ),
        captured(mixer).field("masters"@) == Some(
            Doc::Object(master_states(mixer.masters.list(), mixer.patch@)),
        ),
{
    broadcast use {lemma_field_with, lemma_field_empty};

    reveal_strlit("tracks");
    reveal_strlit("buses");
    reveal_strlit("masters");
    reveal_strlit("topology");
    assert("tracks"@.len() == 6 && "buses"@.len() == 5 && "masters"@.len() == 7 && "topology"@.len()
        == 8);
}

proof fn lemma_track_entry(mixer: MixerState, id: u32)
    requires
        mixer.wf(),
        mixer@.tracks.contains_key(id),
    ensures
        entry_of(captured(mixer), "tracks"@, id) == Some(
            track_state(mixer@.tracks[id], mixer.patch@),
        ),
        mixer@.tracks[id].id == id,
        mixer@.tracks[id].chain.len() <= usize::MAX,
{
    lemma_sections(mixer);
    let list = mixer.tracks.list();
    let i = lemma_from_map(list, id);
    let es = track_states(list, mixer.patch@);
    assert forall|a: int, b: int| 0 <= a < b < es.len() implies (#[trigger] es[a]).0 != (
    #[trigger] es[b]).0 by {
        lemma_distinct(list, a, b);
        assert(list[a].1.number() == list[a].0 && list[b].1.number() == list[b].0);
        if es[a].0 == es[b].0 {
            lemma_dec_injective(list[a].1.id as nat, list[b].1.id as nat);
        }
    }
    assert(list[i].1.number() == list[i].0);
    lemma_lookup_at(es, i);
    assert(list[i].1.chain.len() <= usize::MAX);
}

proof fn lemma_bus_entry(mixer: MixerState, id: u32)
    requires
        mixer.wf(),
        mixer@.buses.contains_key(id),
    ensures
        entry_of(captured(mixer), "buses"@, id) == Some(
            bus_state(id, mixer@.buses[id].channels, mixer.patch@),
        ),
        mixer@.buses[id].id == id,
{
    lemma_sections(mixer);
    let list = mixer.buses.list();
    let i = lemma_from_map(list, id);
    let es = bus_states(list, mixer.patch@);
    assert forall|a: int, b: int| 0 <= a < b < es.len() implies (#[trigger] es[a]).0 != (
    #[trigger] es[b]).0 by {
        lemma_distinct(list, a, b);
        assert(list[a].1.number() == list[a].0 && list[b].1.number() == list[b].0);
        if es[a].0 == es[b].0 {
            lemma_dec_injective(list[a].1.id as nat, list[b].1.id as nat);
        }
    }
    assert(list[i].1.number() == list[i].0);
    lemma_lookup_at(es, i);
}

proof fn lemma_master_entry(mixer: MixerState, id: u32)
    requires
        mixer.wf(),
        mixer@.masters.contains_key(id),
    ensures
        entry_of(captured(mixer), "masters"@, id) == Some(
            master_state(mixer@.masters[id], mixer.patch@),
        ),
        mixer@.masters[id].id == id,
        mixer@.masters[id].chain.len() <= usize::MAX,
{
    lemma_sections(mixer);
    let list = mixer.masters.list();
    let i = lemma_from_map(list, id);
    let es = master_states(list, mixer.patch@);
    assert forall|a: int, b: int| 0 <= a < b < es.len() implies (#[trigger] es[a]).0 != (
    #[trigger] es[b]).0 by {
        lemma_distinct(list, a, b);
        assert(list[a].1.number() == list[a].0 && list[b].1.number() == list[b].0);
        if es[a].0 == es[b].0 {
            lemma_dec_injective(list[a].1.id as nat, list[b].1.id as nat);
        }
    }
    assert(list[i].1.number() == list[i].0);
    lemma_lookup_at(es, i);
    assert(list[i].1.chain.len() <= usize::MAX);
}

/// Whether two chains have the same kinds of stages in the same order.
pub open spec fn same_kinds(a: Seq<StageModel>, b: Seq<StageModel>) -> bool {
    a.len() == b.len() && forall|i: int| 0 <= i < a.len() ==> (#[trigger] a[i]).kind() == b[i].kind()
}

/// A chain that was written and is read over another. What is not finite is skipped.
pub open spec fn chain_over(chain: Seq<StageModel>, target: Seq<StageModel>) -> Seq<StageModel> {
    Seq::new(chain.len(), |i: int| chain[i].over(target[i]))
}

/// Whether the numbers of a chain are finite.
pub open spec fn finite_chain(chain: Seq<StageModel>) -> bool {
    forall|i: int| 0 <= i < chain.len() ==> (#[trigger] chain[i]).all_finite()
}

proof fn lemma_overlay_prefix(chain: Seq<StageModel>, target: Seq<StageModel>, k: int)
    requires
        same_kinds(chain, target),
        chain.len() <= usize::MAX,
        0 <= k <= chain.len(),
    ensures
        overlaid_chain(target, (chain_doc(chain)->Array_0).take(k)) == chain_over(
            chain,
            target,
        ).take(k) + target.skip(k),
    decreases k,
{
    let items = chain_doc(chain)->Array_0;
    if k == 0 {
        assert(items.take(0) =~= Seq::empty());
        assert(chain_over(chain, target).take(0) + target.skip(0) =~= target);
    } else {
        lemma_overlay_prefix(chain, target, k - 1);
        assert(items.take(k).drop_last() =~= items.take(k - 1));
        let read = chain_over(chain, target);
        let c = read.take(k - 1) + target.skip(k - 1);
        let d = items.take(k).last();
        assert(d == slot_doc(k - 1, chain[k - 1]));
        broadcast use {lemma_field_with, lemma_field_empty};

        reveal_strlit("index");
        reveal_strlit("kind");
        reveal_strlit("params");
        assert("index"@.len() == 5 && "kind"@.len() == 4 && "params"@.len() == 6);
        assert(d.unsigned_field("index"@) == Some((k - 1) as u64));
        assert(d.field("params"@) == Some(chain[k - 1].doc()));
        assert((k - 1) as u64 as usize == k - 1);
        assert(c[k - 1] == target[k - 1]);
        assert(chain[k - 1].kind() == target[k - 1].kind());
        law_stage_reads_back(chain[k - 1], target[k - 1]);
        assert(c.update(k - 1, read[k - 1]) =~= read.take(k) + target.skip(k));
    }
}

/// A chain that was written into a document is what applying it to any chain with the same kinds of
/// stages gives, but for what is not finite.
pub proof fn law_chain_reads_back(chain: Seq<StageModel>, target: Seq<StageModel>)
    requires
        same_kinds(chain, target),
        chain.len() <= usize::MAX,
    ensures
        restored_chain(target, Some(chain_doc(chain))) == chain_over(chain, target),
        finite_chain(chain) ==> restored_chain(target, Some(chain_doc(chain))) == chain,
{
    let items = chain_doc(chain)->Array_0;
    let read = chain_over(chain, target);
    lemma_overlay_prefix(chain, target, chain.len() as int);
    assert(items.take(chain.len() as int) =~= items);
    assert(read.take(chain.len() as int) + target.skip(chain.len() as int) =~= read);
    if finite_chain(chain) {
        assert forall|i: int| 0 <= i < chain.len() implies read[i] == chain[i] by {
            assert(chain[i].kind() == target[i].kind());
            law_stage_reads_back(chain[i], target[i]);
        }
        assert(read =~= chain);
    }
}

/// Whether a list has a strip.
pub open spec fn has_strip(ids: Seq<(u32, usize)>, id: u32, channels: usize) -> bool {
    exists|k: int| 0 <= k < ids.len() && #[trigger] ids[k] == (id, channels)
}

proof fn lemma_tracks_fold(
    p: PatchModel,
    ids: Seq<(u32, usize)>,
    w: World,
    snapshot: Doc,
    id: u32,
    channels: usize,
    s: Seq<Option<RefModel>>,
)
    requires
        patch_of(snapshot, "tracks"@, id) == Some(slots_doc(s)),
        track_in_refusal(w, id, s) is None,
        has_strip(ids, id, channels),
    ensures
        restored_tracks_in(p, ids, w, snapshot).track_in.contains_key(id),
        restored_tracks_in(p, ids, w, snapshot).track_in[id] == s,
    decreases ids.len(),
{
    law_patches_read_back(s, Seq::empty(), Seq::empty());
    let k = choose|k: int| 0 <= k < ids.len() && #[trigger] ids[k] == (id, channels);
    if ids.last().0 != id {
        assert(ids.drop_last()[k] == (id, channels));
        lemma_tracks_fold(p, ids.drop_last(), w, snapshot, id, channels, s);
    }
}

proof fn lemma_buses_fold(
    p: PatchModel,
    ids: Seq<(u32, usize)>,
    w: World,
    snapshot: Doc,
    id: u32,
    channels: usize,
    s: Seq<Seq<RefModel>>,
)
    requires
        patch_of(snapshot, "buses"@, id) == Some(feeds_doc(s)),
        sum_refusal(w, "bus's"@, channels, s) is None,
        has_strip(ids, id, channels),
        forall|k: int| 0 <= k < ids.len() && (#[trigger] ids[k]).0 == id ==> ids[k].1 == channels,
    ensures
        restored_buses_in(p, ids, w, snapshot).bus_in.contains_key(id),
        restored_buses_in(p, ids, w, snapshot).bus_in[id] == s,
    decreases ids.len(),
{
    law_patches_read_back(Seq::empty(), s, bus_no_array());
    let k = choose|k: int| 0 <= k < ids.len() && #[trigger] ids[k] == (id, channels);
    assert(ids[ids.len() - 1] == ids.last());
    if ids.last().0 != id {
        assert(ids.drop_last()[k] == (id, channels));
        lemma_buses_fold(p, ids.drop_last(), w, snapshot, id, channels, s);
    }
}

proof fn lemma_masters_fold(
    p: PatchModel,
    ids: Seq<(u32, usize)>,
    w: World,
    snapshot: Doc,
    id: u32,
    channels: usize,
    s: Seq<Seq<RefModel>>,
)
    requires
        patch_of(snapshot, "masters"@, id) == Some(feeds_doc(s)),
        sum_refusal(w, "master's"@, channels, s) is None,
        has_strip(ids, id, channels),
        forall|k: int| 0 <= k < ids.len() && (#[trigger] ids[k]).0 == id ==> ids[k].1 == channels,
    ensures
        restored_masters_in(p, ids, w, snapshot).master_in.contains_key(id),
        restored_masters_in(p, ids, w, snapshot).master_in[id] == s,
    decreases ids.len(),
{
    law_patches_read_back(Seq::empty(), s, master_no_array());
    let k = choose|k: int| 0 <= k < ids.len() && #[trigger] ids[k] == (id, channels);
    assert(ids[ids.len() - 1] == ids.last());
    if ids.last().0 != id {
        assert(ids.drop_last()[k] == (id, channels));
        lemma_masters_fold(p, ids.drop_last(), w, snapshot, id, channels, s);
    }
}

proof fn lemma_buses_fold_elsewhere(
    p: PatchModel,
    ids: Seq<(u32, usize)>,
    w: World,
    snapshot: Doc,
)
    ensures
        restored_buses_in(p, ids, w, snapshot).track_in == p.track_in,
        restored_buses_in(p, ids, w, snapshot).master_in == p.master_in,
        restored_buses_in(p, ids, w, snapshot).output == p.output,
    decreases ids.len(),
{
    if ids.len() > 0 {
        lemma_buses_fold_elsewhere(p, ids.drop_last(), w, snapshot);
    }
}

proof fn lemma_masters_fold_elsewhere(
    p: PatchModel,
    ids: Seq<(u32, usize)>,
    w: World,
    snapshot: Doc,
)
    ensures
        restored_masters_in(p, ids, w, snapshot).track_in == p.track_in,
        restored_masters_in(p, ids, w, snapshot).bus_in == p.bus_in,
        restored_masters_in(p, ids, w, snapshot).output == p.output,
    decreases ids.len(),
{
    if ids.len() > 0 {
        lemma_masters_fold_elsewhere(p, ids.drop_last(), w, snapshot);
    }
}

proof fn lemma_widths<S: Strip>(list: Seq<(u32, S)>, id: u32)
    requires
        sorted(list),
        own_keys(list),
        as_map(list).contains_key(id),
    ensures
        has_strip(widths(list), id, as_map(list)[id].width()),
        forall|k: int|
            0 <= k < widths(list).len() && (#[trigger] widths(list)[k]).0 == id ==> widths(
                list,
            )[k].1 == as_map(list)[id].width(),
{
    let i = lemma_from_map(list, id);
    assert(list[i].1.number() == list[i].0);
    assert(widths(list)[i] == (id, as_map(list)[id].width()));
    assert forall|k: int| 0 <= k < widths(list).len() && (#[trigger] widths(list)[k]).0 == id implies
        widths(list)[k].1 == as_map(list)[id].width() by {
        assert(list[k].1.number() == list[k].0);
        lemma_in_map(list, k);
    }
}

/// The live values of a track come back: what was captured is what resuming gives to a track of the
/// same number whose chain has the same kinds of stages. What is not finite is skipped.
pub proof fn law_captured_track_is_resumed(was: MixerState, t: TrackModel)
    requires
        was.wf(),
        was@.tracks.contains_key(t.id),
        same_kinds(was@.tracks[t.id].chain, t.chain),
    ensures
        ({
            let o = was@.tracks[t.id];
            let now = restored_track(t, captured(was));
            &&& now == (TrackModel {
                gain_db: kept(o.gain_db, t.gain_db),
                fader_db: kept(o.fader_db, t.fader_db),
                mute: o.mute,
                solo: o.solo,
                sends: written_sends(o.sends),
                chain: chain_over(o.chain, t.chain),
                ..t
            })
            &&& finite(o.gain_db) && finite(o.fader_db) && finite_sends(o.sends) && finite_chain(
                o.chain,
            ) ==> now == (TrackModel {
                gain_db: o.gain_db,
                fader_db: o.fader_db,
                mute: o.mute,
                solo: o.solo,
                sends: o.sends,
                chain: o.chain,
                ..t
            })
        }),
{
    broadcast use {lemma_field_with, lemma_field_empty};

    lemma_track_entry(was, t.id);
    let o = was@.tracks[t.id];
    law_sends_read_back(o.sends);
    law_chain_reads_back(o.chain, t.chain);
    lemma_track_keys(o, was.patch@);
}

proof fn lemma_track_keys(t: TrackModel, p: PatchModel)
    ensures
        ({
            let d = track_state(t, p);
            &&& d.single_field("gain_db"@) == written(t.gain_db)
            &&& d.single_field("fader_db"@) == written(t.fader_db)
            &&& d.boolean_field("mute"@) == Some(t.mute)
            &&& d.boolean_field("solo"@) == Some(t.solo)
            &&& d.field("sends"@) == Some(sends_doc(t.sends))
            &&& d.field("chain"@) == Some(chain_doc(t.chain))
            &&& d.field("input_patch"@) == Some(
                slots_doc(slots_or_empty(p.track_in, t.id, t.channels)),
            )
        }),
{
    broadcast use {lemma_field_with, lemma_field_empty};

    reveal_strlit("gain_db");
    reveal_strlit("fader_db");
    reveal_strlit("mute");
    reveal_strlit("solo");
    reveal_strlit("sends");
    reveal_strlit("chain");
    reveal_strlit("input_patch");
    assert("gain_db"@.len() == 7 && "fader_db"@.len() == 8 && "mute"@.len() == 4 && "solo"@.len()
        == 4 && "sends"@.len() == 5 && "chain"@.len() == 5 && "input_patch"@.len() == 11);
    assert("mute"@[0] != "solo"@[0]);
    assert("sends"@[0] != "chain"@[0]);
}

proof fn lemma_master_keys(m: MasterModel, p: PatchModel)
    ensures
        ({
            let d = master_state(m, p);
            &&& d.single_field("fader_db"@) == written(m.fader_db)
            &&& d.boolean_field("mute"@) == Some(m.mute)
            &&& d.field("chain"@) == Some(chain_doc(m.chain))
            &&& d.field("input_patch"@) == Some(
                feeds_doc(feeds_or_empty(p.master_in, m.id, m.channels)),
            )
        }),
{
    broadcast use {lemma_field_with, lemma_field_empty};

    reveal_strlit("fader_db");
    reveal_strlit("mute");
    reveal_strlit("chain");
    reveal_strlit("input_patch");
    assert("fader_db"@.len() == 8 && "mute"@.len() == 4 && "chain"@.len() == 5
        && "input_patch"@.len() == 11);
}

/// The live values of a master come back: what was captured is what resuming gives to a master of
/// the same number whose chain has the same kinds of stages. What is not finite is skipped.
pub proof fn law_captured_master_is_resumed(was: MixerState, m: MasterModel)
    requires
        was.wf(),
        was@.masters.contains_key(m.id),
        same_kinds(was@.masters[m.id].chain, m.chain),
    ensures
        ({
            let o = was@.masters[m.id];
            let now = restored_master(m, captured(was));
            &&& now == (MasterModel {
                fader_db: kept(o.fader_db, m.fader_db),
                mute: o.mute,
                chain: chain_over(o.chain, m.chain),
                ..m
            })
            &&& finite(o.fader_db) && finite_chain(o.chain) ==> now == (MasterModel {
                fader_db: o.fader_db,
                mute: o.mute,
                chain: o.chain,
                ..m
            })
        }),
{
    lemma_master_entry(was, m.id);
    let o = was@.masters[m.id];
    law_chain_reads_back(o.chain, m.chain);
    lemma_master_keys(o, was.patch@);
}

/// The patches come back: each that was captured is set again by resuming, where the same source
/// points exist and it would be accepted if a client set it.
pub proof fn law_captured_patches_are_resumed(was: MixerState, p: PatchModel, id: u32)
    requires
        was.wf(),
    ensures
        ({
            let w = was.world();
            let r = restored_patch(p, w, captured(was));
            let o = was.patch@;
            &&& was@.tracks.contains_key(id) && track_in_refusal(
                w,
                id,
                slots_or_empty(o.track_in, id, was@.tracks[id].channels),
            ) is None ==> r.track_in.contains_key(id) && r.track_in[id] == slots_or_empty(
                o.track_in,
                id,
                was@.tracks[id].channels,
            )
            &&& was@.buses.contains_key(id) && sum_refusal(
                w,
                "bus's"@,
                was@.buses[id].channels,
                feeds_or_empty(o.bus_in, id, was@.buses[id].channels),
            ) is None ==> r.bus_in.contains_key(id) && r.bus_in[id] == feeds_or_empty(
                o.bus_in,
                id,
                was@.buses[id].channels,
            )
            &&& was@.masters.contains_key(id) && sum_refusal(
                w,
                "master's"@,
                was@.masters[id].channels,
                feeds_or_empty(o.master_in, id, was@.masters[id].channels),
            ) is None ==> r.master_in.contains_key(id) && r.master_in[id] == feeds_or_empty(
                o.master_in,
                id,
                was@.masters[id].channels,
            )
        }),
{
    broadcast use {lemma_field_with, lemma_field_empty};

    let w = was.world();
    let snapshot = captured(was);
    let o = was.patch@;
    let p1 = restored_tracks_in(p, w.tracks, w, snapshot);
    let p2 = restored_buses_in(p1, w.buses, w, snapshot);
    lemma_buses_fold_elsewhere(p1, w.buses, w, snapshot);
    lemma_masters_fold_elsewhere(p2, w.masters, w, snapshot);
    if was@.tracks.contains_key(id) {
        lemma_track_entry(was, id);
        lemma_track_keys(was@.tracks[id], o);
        let channels = was@.tracks[id].channels;
        lemma_widths(was.tracks.list(), id);
        let s = slots_or_empty(o.track_in, id, channels);
        if track_in_refusal(w, id, s) is None {
            lemma_tracks_fold(p, w.tracks, w, snapshot, id, channels, s);
        }
    }
    if was@.buses.contains_key(id) {
        lemma_bus_entry(was, id);
        let channels = was@.buses[id].channels;
        lemma_widths(was.buses.list(), id);
        let s = feeds_or_empty(o.bus_in, id, channels);
        assert(patch_of(snapshot, "buses"@, id) == Some(feeds_doc(s)));
        if sum_refusal(w, "bus's"@, channels, s) is None {
            lemma_buses_fold(p1, w.buses, w, snapshot, id, channels, s);
        }
    }
    if was@.masters.contains_key(id) {
        lemma_master_entry(was, id);
        lemma_master_keys(was@.masters[id], o);
        let channels = was@.masters[id].channels;
        lemma_widths(was.masters.list(), id);
        let s = feeds_or_empty(o.master_in, id, channels);
        if sum_refusal(w, "master's"@, channels, s) is None {
            lemma_masters_fold(p2, w.masters, w, snapshot, id, channels, s);
        }
    }
}

/// Whether every number that capturing a mixer writes is finite.
pub open spec fn finite_values(m: MixerModel) -> bool {
    &&& forall|id: u32| #[trigger]
        m.tracks.contains_key(id) ==> {
            let t = m.tracks[id];
            finite(t.gain_db) && finite(t.fader_db) && finite_sends(t.sends) && finite_chain(
                t.chain,
            )
        }
    &&& forall|id: u32| #[trigger]
        m.masters.contains_key(id) ==> finite(m.masters[id].fader_db) && finite_chain(
            m.masters[id].chain,
        )
}

/// Whether every patch of a mixer would be accepted if a client set it.
pub open spec fn valid_patches(m: MixerModel, w: World) -> bool {
    &&& forall|id: u32| #[trigger]
        m.tracks.contains_key(id) ==> track_in_refusal(
            w,
            id,
            slots_or_empty(m.patch.track_in, id, m.tracks[id].channels),
        ) is None
    &&& forall|id: u32| #[trigger]
        m.buses.contains_key(id) ==> sum_refusal(
            w,
            "bus's"@,
            m.buses[id].channels,
            feeds_or_empty(m.patch.bus_in, id, m.buses[id].channels),
        ) is None
    &&& forall|id: u32| #[trigger]
        m.masters.contains_key(id) ==> sum_refusal(
            w,
            "master's"@,
            m.masters[id].channels,
            feeds_or_empty(m.patch.master_in, id, m.masters[id].channels),
        ) is None
}

/// Whether the chains of two mixers have the same kinds of stages.
pub open spec fn same_chains(a: MixerModel, b: MixerModel) -> bool {
    &&& forall|id: u32| #[trigger]
        a.tracks.contains_key(id) ==> same_kinds(a.tracks[id].chain, b.tracks[id].chain)
    &&& forall|id: u32| #[trigger]
        a.masters.contains_key(id) ==> same_kinds(a.masters[id].chain, b.masters[id].chain)
}

proof fn lemma_same_places<S: Strip>(s: Seq<(u32, S)>, t: Seq<(u32, S)>, i: int)
    requires
        sorted(s),
        sorted(t),
        own_keys(s),
        own_keys(t),
        widths(s) == widths(t),
        0 <= i < s.len(),
    ensures
        s.len() == t.len(),
        s[i].0 == t[i].0,
        s[i].1.width() == t[i].1.width(),
        as_map(s).contains_key(s[i].0),
        as_map(s)[s[i].0] == s[i].1,
        as_map(t).contains_key(s[i].0),
        as_map(t)[s[i].0] == t[i].1,
{
    assert(widths(s).len() == s.len() && widths(t).len() == t.len());
    assert(widths(s)[i] == widths(t)[i]);
    assert(s[i].1.number() == s[i].0 && t[i].1.number() == t[i].0);
    lemma_in_map(s, i);
    lemma_in_map(t, i);
}

/// The live state comes back as a whole. A mixer that resumes what another captured, with the same
/// strips, kinds of stages and source points, captures the same document again, section by section,
/// where every number is finite and every patch is still valid.
pub proof fn law_resumed_mixer_captures_the_same(
    was: MixerState,
    fresh: MixerState,
    now: MixerState,
)
    requires
        was.wf(),
        fresh.wf(),
        fresh.world() == was.world(),
        same_chains(was@, fresh@),
        finite_values(was@),
        valid_patches(was@, was.world()),
        now.wf(),
        now.world() == fresh.world(),
        now@ == resumed(fresh@, fresh.world(), captured(was)),
    ensures
        captured(now).field("tracks"@) == captured(was).field("tracks"@),
        captured(now).field("buses"@) == captured(was).field("buses"@),
        captured(now).field("masters"@) == captured(was).field("masters"@),
{
    lemma_sections(was);
    lemma_sections(now);
    assert(widths(was.tracks.list()) == widths(now.tracks.list()));
    let p = was.patch@;
    let q = now.patch@;
    let ts = track_states(was.tracks.list(), p);
    assert(ts.len() == widths(was.tracks.list()).len());
    assert forall|i: int| 0 <= i < ts.len() implies #[trigger] ts[i] == track_states(
        now.tracks.list(),
        q,
    )[i] by {
        lemma_same_places(was.tracks.list(), now.tracks.list(), i);
        lemma_same_places(was.tracks.list(), fresh.tracks.list(), i);
        let id = was.tracks.list()[i].0;
        assert(was@.tracks.contains_key(id) && fresh@.tracks.contains_key(id));
        assert(fresh@.tracks[id].id == id);
        law_captured_track_is_resumed(was, fresh@.tracks[id]);
        law_captured_patches_are_resumed(was, fresh.patch@, id);
        assert(now@.tracks[id] == restored_track(fresh@.tracks[id], captured(was)));
    }
    assert(ts =~= track_states(now.tracks.list(), q));
    let bs = bus_states(was.buses.list(), p);
    assert(bs.len() == widths(was.buses.list()).len());
    assert(widths(was.buses.list()) == widths(now.buses.list()));
    assert forall|i: int| 0 <= i < bs.len() implies #[trigger] bs[i] == bus_states(
        now.buses.list(),
        q,
    )[i] by {
        lemma_same_places(was.buses.list(), now.buses.list(), i);
        let id = was.buses.list()[i].0;
        assert(was@.buses.contains_key(id));
        law_captured_patches_are_resumed(was, fresh.patch@, id);
    }
    assert(bs =~= bus_states(now.buses.list(), q));
    let ms = master_states(was.masters.list(), p);
    assert(ms.len() == widths(was.masters.list()).len());
    assert(widths(was.masters.list()) == widths(now.masters.list()));
    assert forall|i: int| 0 <= i < ms.len() implies #[trigger] ms[i] == master_states(
        now.masters.list(),
        q,
    )[i] by {
        lemma_same_places(was.masters.list(), now.masters.list(), i);
        lemma_same_places(was.masters.list(), fresh.masters.list(), i);
        let id = was.masters.list()[i].0;
        assert(was@.masters.contains_key(id) && fresh@.masters.contains_key(id));
        assert(fresh@.masters[id].id == id);
        law_captured_master_is_resumed(was, fresh@.masters[id]);
        law_captured_patches_are_resumed(was, fresh.patch@, id);
        assert(now@.masters[id] == restored_master(fresh@.masters[id], captured(was)));
    }
    assert(ms =~= master_states(now.masters.list(), q));
}

proof fn lemma_overlay_keeps_kinds(chain: Seq<StageModel>, items: Seq<Doc>)
    ensures
        same_kinds(overlaid_chain(chain, items), chain),
    decreases items.len(),
{
    if items.len() > 0 {
        lemma_overlay_keeps_kinds(chain, items.drop_last());
    }
}

/// No document adds or removes a strip or a stage, whatever it holds, and none changes a grid.
pub proof fn law_resuming_keeps_the_strips(m: MixerModel, w: World, snapshot: Doc)
    ensures
        ({
            let now = resumed(m, w, snapshot);
            &&& now.tracks.dom() == m.tracks.dom()
            &&& now.buses == m.buses
            &&& now.masters.dom() == m.masters.dom()
            &&& now.inputs == m.inputs
            &&& now.outputs == m.outputs
            &&& now.patch.output == m.patch.output
            &&& forall|id: u32| #[trigger]
                m.tracks.contains_key(id) ==> now.tracks[id].id == m.tracks[id].id
                    && now.tracks[id].channels == m.tracks[id].channels && same_kinds(
                    now.tracks[id].chain,
                    m.tracks[id].chain,
                )
            &&& forall|id: u32| #[trigger]
                m.masters.contains_key(id) ==> now.masters[id].id == m.masters[id].id
                    && now.masters[id].channels == m.masters[id].channels && same_kinds(
                    now.masters[id].chain,
                    m.masters[id].chain,
                )
        }),
{
    let now = resumed(m, w, snapshot);
    assert forall|id: u32| m.tracks.contains_key(id) implies same_kinds(
        #[trigger] now.tracks[id].chain,
        m.tracks[id].chain,
    ) by {
        lemma_restored_kinds(
            m.tracks[id].chain,
            match entry_of(snapshot, "tracks"@, m.tracks[id].id) {
                Some(d) => d.field("chain"@),
                None => None,
            },
        );
    }
    assert forall|id: u32| m.masters.contains_key(id) implies same_kinds(
        #[trigger] now.masters[id].chain,
        m.masters[id].chain,
    ) by {
        lemma_restored_kinds(
            m.masters[id].chain,
            match entry_of(snapshot, "masters"@, m.masters[id].id) {
                Some(d) => d.field("chain"@),
                None => None,
            },
        );
    }
    let p = restored_tracks_in(m.patch, w.tracks, w, snapshot);
    lemma_tracks_fold_elsewhere(m.patch, w.tracks, w, snapshot);
    lemma_buses_fold_elsewhere(p, w.buses, w, snapshot);
    lemma_masters_fold_elsewhere(
        restored_buses_in(p, w.buses, w, snapshot),
        w.masters,
        w,
        snapshot,
    );
}

proof fn lemma_restored_kinds(chain: Seq<StageModel>, d: Option<Doc>)
    ensures
        same_kinds(restored_chain(chain, d), chain),
{
    if let Some(Doc::Array(items)) = d {
        lemma_overlay_keeps_kinds(chain, items);
    }
}

proof fn lemma_tracks_fold_elsewhere(
    p: PatchModel,
    ids: Seq<(u32, usize)>,
    w: World,
    snapshot: Doc,
)
    ensures
        restored_tracks_in(p, ids, w, snapshot).output == p.output,
    decreases ids.len(),
{
    if ids.len() > 0 {
        lemma_tracks_fold_elsewhere(p, ids.drop_last(), w, snapshot);
    }
}

} // verus!
