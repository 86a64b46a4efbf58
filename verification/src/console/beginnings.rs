//! What holds of a mixer when it starts, and of what its clients are told.

use vstd::prelude::*;
use vstd::string::*;

use crate::console::config::BusConfig;
use crate::console::mixer::{Bus, MasterTrack, Track};
use crate::console::patch::{channels_of, InputGridEntry, OutputGridEntry, RefModel, World};
use crate::console::startup::{
    by_id, configured, paired_patches, taken, with_paired, with_resumed, Built,
    MasterConfigModel,
};
use crate::console::ws::{
    parsed_create_path, requested, sends_doc, stage_value, strip_path, ticks, Meters,
    RequestModel, StripKind, Told,
};
use crate::json::Doc;
use crate::text::dec;

verus! {

proof fn lemma_by_id<S: Built>(s: Seq<S::V>, i: int)
    requires
        0 <= i < s.len(),
        forall|j: int| i < j < s.len() ==> S::model_id(#[trigger] s[j]) != S::model_id(s[i]),
    ensures
        by_id::<S>(s).contains_key(S::model_id(s[i])),
        by_id::<S>(s)[S::model_id(s[i])] == s[i],
    decreases s.len(),
{
    let rest = s.drop_last();
    assert(forall|j: int| 0 <= j < rest.len() ==> rest[j] == s[j]);
    assert(s[s.len() - 1] == s.last());
    if i < rest.len() {
        assert forall|j: int| i < j < rest.len() implies S::model_id(#[trigger] rest[j])
            != S::model_id(rest[i]) by {
            assert(rest[j] == s[j]);
        }
        lemma_by_id::<S>(rest, i);
        assert(S::model_id(s[s.len() - 1]) != S::model_id(s[i]));
    }
}

proof fn lemma_by_id_from<S: Built>(s: Seq<S::V>, id: u32)
    ensures
        by_id::<S>(s).contains_key(id) <==> taken::<S>(s, id),
    decreases s.len(),
{
    if s.len() > 0 {
        let rest = s.drop_last();
        lemma_by_id_from::<S>(rest, id);
        assert(forall|j: int| 0 <= j < rest.len() ==> rest[j] == s[j]);
        assert(s[s.len() - 1] == s.last());
        if taken::<S>(rest, id) {
            let i = choose|i: int| 0 <= i < rest.len() && S::model_id(#[trigger] rest[i]) == id;
            assert(S::model_id(s[i]) == id);
        }
        if taken::<S>(s, id) {
            let i = choose|i: int| 0 <= i < s.len() && S::model_id(#[trigger] s[i]) == id;
            if i < rest.len() {
                assert(S::model_id(rest[i]) == id);
            }
        }
    }
}

/// Every strip that is configured under an id of its own is there as it is described, and counts as
/// one of the configuration.
pub proof fn law_configured_strips_are_there<S: Built>(
    cfgs: Seq<S::Config>,
    default_channels: usize,
    i: int,
)
    requires
        0 <= i < cfgs.len(),
        forall|j: int|
            0 <= j < cfgs.len() && j != i ==> S::described_id(#[trigger] cfgs[j])
                != S::described_id(cfgs[i]),
    ensures
        ({
            let all = by_id::<S>(configured::<S>(cfgs, default_channels));
            let id = S::described_id(cfgs[i]);
            all.contains_key(id) && all[id] == S::described(cfgs[i], default_channels, false)
        }),
{
    let s = configured::<S>(cfgs, default_channels);
    assert forall|j: int| 0 <= j < s.len() implies S::model_id(#[trigger] s[j]) == S::described_id(
        cfgs[j],
    ) by {
        S::lemma_described(cfgs[j], default_channels, false);
    }
    lemma_by_id::<S>(s, i);
}

proof fn lemma_resumed_ids<S: Built>(
    s: Seq<S::V>,
    resumed: Seq<S::Config>,
    default_channels: usize,
    id: u32,
)
    ensures
        taken::<S>(with_resumed::<S>(s, resumed, default_channels), id) <==> taken::<S>(s, id)
            || exists|j: int|
            0 <= j < resumed.len() && S::described_id(#[trigger] resumed[j]) == id,
    decreases resumed.len(),
{
    if resumed.len() > 0 {
        let rest = resumed.drop_last();
        let c = resumed.last();
        let before = with_resumed::<S>(s, rest, default_channels);
        let now = with_resumed::<S>(s, resumed, default_channels);
        lemma_resumed_ids::<S>(s, rest, default_channels, id);
        S::lemma_described(c, default_channels, true);
        assert(forall|j: int| 0 <= j < rest.len() ==> rest[j] == resumed[j]);
        assert(resumed[resumed.len() - 1] == c);
        if taken::<S>(before, id) {
            let i = choose|i: int| 0 <= i < before.len() && S::model_id(#[trigger] before[i]) == id;
            assert(S::model_id(now[i]) == id);
        }
        if taken::<S>(now, id) {
            let i = choose|i: int| 0 <= i < now.len() && S::model_id(#[trigger] now[i]) == id;
            if i < before.len() {
                assert(S::model_id(before[i]) == id);
            }
        }
        if exists|j: int| 0 <= j < resumed.len() && S::described_id(#[trigger] resumed[j]) == id {
            let j = choose|j: int|
                0 <= j < resumed.len() && S::described_id(#[trigger] resumed[j]) == id;
            if j < rest.len() {
                assert(S::described_id(rest[j]) == id);
            } else if !taken::<S>(before, id) {
                assert(S::model_id(now[before.len() as int]) == id);
            }
        }
        if exists|j: int| 0 <= j < rest.len() && S::described_id(#[trigger] rest[j]) == id {
            let j = choose|j: int| 0 <= j < rest.len() && S::described_id(#[trigger] rest[j]) == id;
            assert(S::described_id(resumed[j]) == id);
        }
    }
}

/// A mixer starts with the strips that are configured and those that an earlier run created, and
/// with no others.
pub proof fn law_no_strip_comes_from_nowhere<S: Built>(
    s: Seq<S::V>,
    resumed: Seq<S::Config>,
    default_channels: usize,
    id: u32,
)
    ensures
        by_id::<S>(with_resumed::<S>(s, resumed, default_channels)).contains_key(id) <==> taken::<S>(
            s,
            id,
        ) || exists|j: int|
            0 <= j < resumed.len() && S::described_id(#[trigger] resumed[j]) == id,
{
    lemma_resumed_ids::<S>(s, resumed, default_channels, id);
    lemma_by_id_from::<S>(with_resumed::<S>(s, resumed, default_channels), id);
}

/// A strip that an earlier run created comes back as it was described, as one that was created,
/// where its id is not taken.
pub proof fn law_a_created_strip_comes_back<S: Built>(
    s: Seq<S::V>,
    resumed: Seq<S::Config>,
    default_channels: usize,
    i: int,
)
    requires
        0 <= i < resumed.len(),
        !taken::<S>(s, S::described_id(resumed[i])),
        forall|j: int|
            0 <= j < resumed.len() && j != i ==> S::described_id(#[trigger] resumed[j])
                != S::described_id(resumed[i]),
    ensures
        by_id::<S>(with_resumed::<S>(s, resumed, default_channels))[S::described_id(resumed[i])]
            == S::described(resumed[i], default_channels, true),
    decreases resumed.len(),
{
    let rest = resumed.drop_last();
    let c = resumed.last();
    let id = S::described_id(resumed[i]);
    let before = with_resumed::<S>(s, rest, default_channels);
    let now = with_resumed::<S>(s, resumed, default_channels);
    S::lemma_described(c, default_channels, true);
    assert(forall|j: int| 0 <= j < rest.len() ==> rest[j] == resumed[j]);
    assert(resumed[resumed.len() - 1] == c);
    if i < rest.len() {
        law_a_created_strip_comes_back::<S>(s, rest, default_channels, i);
        if now.len() > before.len() {
            assert(now.drop_last() =~= before);
        }
    } else {
        lemma_resumed_ids::<S>(s, rest, default_channels, id);
        assert(now.drop_last() =~= before);
    }
}

/// Masters that are paired with buses come behind those that are configured. Each has the id and
/// the channels of its bus, and the bus's label where it has none of its own; a bus without one gets
/// none.
pub proof fn law_paired_masters_follow_their_buses(
    masters: Seq<MasterConfigModel>,
    buses: Seq<BusConfig>,
    i: int,
)
    requires
        with_paired(masters, buses) is Ok,
    ensures
        ({
            let all = with_paired(masters, buses)->Ok_0;
            &&& masters.is_prefix_of(all)
            &&& all.len() <= masters.len() + buses.len()
            &&& 0 <= i < buses.len() ==> (buses[i].auto_master matches Some(auto) ==> exists|k: int|
                masters.len() <= k < all.len() && {
                    let m = #[trigger] all[k];
                    &&& m.id == buses[i].id
                    &&& m.channels == buses[i].channels
                    &&& m.fader_db == auto.fader_db
                    &&& m.template == auto.template
                    &&& m.label == (match auto.label {
                        Some(l) => l@,
                        None => buses[i].label@,
                    })
                })
            &&& forall|k: int|
                masters.len() <= k < all.len() ==> exists|j: int|
                    0 <= j < buses.len() && (#[trigger] buses[j]).auto_master is Some && buses[j].id
                        == (#[trigger] all[k]).id
        }),
    decreases buses.len(),
{
    if buses.len() > 0 {
        let rest = buses.drop_last();
        let before = with_paired(masters, rest)->Ok_0;
        let all = with_paired(masters, buses)->Ok_0;
        law_paired_masters_follow_their_buses(masters, rest, i);
        assert(forall|j: int| 0 <= j < rest.len() ==> rest[j] == buses[j]);
        assert(buses[buses.len() - 1] == buses.last());
        assert(forall|k: int| 0 <= k < before.len() ==> all[k] == before[k]);
        if 0 <= i < rest.len() && buses[i].auto_master is Some {
            let auto = buses[i].auto_master->0;
            let k = choose|k: int|
                masters.len() <= k < before.len() && {
                    let m = #[trigger] before[k];
                    &&& m.id == rest[i].id
                    &&& m.channels == rest[i].channels
                    &&& m.fader_db == auto.fader_db
                    &&& m.template == auto.template
                    &&& m.label == (match auto.label {
                        Some(l) => l@,
                        None => rest[i].label@,
                    })
                };
            assert(all[k] == before[k]);
        } else if i == rest.len() && buses[i].auto_master is Some {
            assert(all[before.len() as int].id == buses[i].id);
        }
        assert forall|k: int| masters.len() <= k < all.len() implies exists|j: int|
            0 <= j < buses.len() && (#[trigger] buses[j]).auto_master is Some && buses[j].id == (
            #[trigger] all[k]).id by {
            if k < before.len() {
                assert(all[k] == before[k]);
                let j = choose|j: int|
                    0 <= j < rest.len() && (#[trigger] rest[j]).auto_master is Some && rest[j].id
                        == before[k].id;
                assert(buses[j].id == all[k].id);
            } else {
                assert(buses[buses.len() - 1].id == all[k].id);
            }
        }
    }
}

/// A bus is refused its paired master exactly where a master with its id is there already.
pub proof fn law_pairing_needs_a_free_id(masters: Seq<MasterConfigModel>, buses: Seq<BusConfig>)
    requires
        buses.len() > 0,
        with_paired(masters, buses.drop_last()) is Ok,
    ensures
        with_paired(masters, buses) is Err <==> buses.last().auto_master is Some && exists|k: int|
            0 <= k < with_paired(masters, buses.drop_last())->Ok_0.len() && (
            #[trigger] with_paired(masters, buses.drop_last())->Ok_0[k]).id == buses.last().id,
{
}

/// A paired master hears its bus, channel by channel, as far as both have channels; its further
/// channels hear nothing.
pub proof fn law_a_paired_master_hears_its_bus(buses: Seq<BusConfig>, w: World, i: int, ch: int)
    requires
        0 <= i < buses.len(),
        buses[i].auto_master is Some,
        forall|j: int| i < j < buses.len() ==> (#[trigger] buses[j]).id != buses[i].id,
    ensures
        channels_of(w.masters, buses[i].id) matches Some(c) ==> {
            let id = buses[i].id;
            let all = paired_patches(buses, w);
            let width: int = match channels_of(w.buses, id) {
                Some(b) => b as int,
                None => 0,
            };
            &&& all.contains_key(id)
            &&& all[id].len() == c
            &&& 0 <= ch < c && ch < width ==> all[id][ch].len() == 1 && all[id][ch][0] == (
            RefModel::BusOut { bus_id: id, channel: ch as usize })
            &&& 0 <= ch < c && ch >= width ==> all[id][ch].len() == 0
        },
    decreases buses.len(),
{
    let rest = buses.drop_last();
    assert(forall|j: int| 0 <= j < rest.len() ==> rest[j] == buses[j]);
    assert(buses[buses.len() - 1] == buses.last());
    if i < rest.len() {
        law_a_paired_master_hears_its_bus(rest, w, i, ch);
        assert(buses[buses.len() - 1].id != buses[i].id);
    }
}

/// What a message asks for: its operation says what is done, at its path, with its value. Anything
/// else does nothing.
pub proof fn law_what_a_message_asks_for(d: Doc, mixer_id: u32)
    ensures
        d.field("op"@) == Some(Doc::Text("PUT"@)) ==> (d.field("path"@) matches Some(Doc::Text(p))
            ==> requested(d, mixer_id) == (RequestModel::Put { path: p, value: d.field("value"@) })),
        d.field("op"@) == Some(Doc::Text("DELETE"@)) ==> (d.field("path"@) matches Some(
            Doc::Text(p),
        ) ==> requested(d, mixer_id) == (RequestModel::Delete { path: p })),
        d.field("op"@) == Some(Doc::Text("CREATE"@)) ==> (d.field("path"@) matches Some(
            Doc::Text(p),
        ) ==> match (d.field("value"@), parsed_create_path(p, mixer_id)) {
            (Some(v), Some(kind)) => if kind == "channel"@ {
                requested(d, mixer_id) == (RequestModel::Create {
                    kind: StripKind::Channel,
                    described: v,
                })
            } else if kind == "sum"@ {
                requested(d, mixer_id) == (RequestModel::Create {
                    kind: StripKind::Sum,
                    described: v,
                })
            } else if kind == "master"@ {
                requested(d, mixer_id) == (RequestModel::Create {
                    kind: StripKind::Master,
                    described: v,
                })
            } else {
                requested(d, mixer_id) is Nothing
            },
            _ => requested(d, mixer_id) is Nothing,
        }),
        d.field("op"@) is None ==> requested(d, mixer_id) is Nothing,
{
    reveal_strlit("PUT");
    reveal_strlit("CREATE");
    reveal_strlit("DELETE");
    assert("PUT"@.len() == 3 && "CREATE"@.len() == 6 && "DELETE"@.len() == 6);
    assert("CREATE"@[0] == 'C' && "DELETE"@[0] == 'D');
}

/// Whether one of some updates says something.
pub open spec fn tells(updates: Seq<(Seq<char>, Doc)>, path: Seq<char>, value: Doc) -> bool {
    exists|i: int| 0 <= i < updates.len() && #[trigger] updates[i] == (path, value)
}

/// On every tick clients are told of each track its meters, behind and before the fader, its sends
/// and its stages, and of each bus and master their meters.
pub proof fn law_what_a_tick_tells(
    t: Track,
    b: Bus,
    m: MasterTrack,
    mixer_id: u32,
    meters: Meters,
)
    ensures
        ({
            let told = t.tick(mixer_id, meters);
            let at = |p: Seq<char>| strip_path(mixer_id, "channel"@, dec(t.id as nat), p);
            &&& meters.track_out@.contains_key(t.id) ==> tells(
                told,
                at("peakmeter"@),
                meters.track_out@[t.id]@,
            )
            &&& meters.track_in@.contains_key(t.id) ==> tells(
                told,
                at("input-meter"@),
                meters.track_in@[t.id]@,
            )
            &&& tells(told, at("sends"@), sends_doc(t@.sends))
            &&& tells(told, at("filter"@), stage_value(t@.chain, "filter"@))
            &&& tells(told, at("eq"@), stage_value(t@.chain, "eq"@))
            &&& tells(told, at("dyn1"@), stage_value(t@.chain, "dyn1"@))
            &&& tells(told, at("dyn2"@), stage_value(t@.chain, "dyn2"@))
            &&& tells(told, at("phase"@), stage_value(t@.chain, "phase"@))
            &&& tells(told, at("delay"@), stage_value(t@.chain, "delay"@))
        }),
        ({
            let told = b.tick(mixer_id, meters);
            let at = |p: Seq<char>| strip_path(mixer_id, "sum"@, dec(b.id as nat), p);
            &&& meters.bus_out@.contains_key(b.id) ==> tells(
                told,
                at("peakmeter"@),
                meters.bus_out@[b.id]@,
            )
            &&& meters.bus_in@.contains_key(b.id) ==> tells(
                told,
                at("input-meter"@),
                meters.bus_in@[b.id]@,
            )
        }),
        ({
            let told = m.tick(mixer_id, meters);
            let at = |p: Seq<char>| strip_path(mixer_id, "master"@, dec(m.id as nat), p);
            &&& meters.master_out@.contains_key(m.id) ==> tells(
                told,
                at("peakmeter"@),
                meters.master_out@[m.id]@,
            )
            &&& meters.master_in@.contains_key(m.id) ==> tells(
                told,
                at("input-meter"@),
                meters.master_in@[m.id]@,
            )
            &&& tells(told, at("filter"@), stage_value(m@.chain, "filter"@))
            &&& tells(told, at("eq"@), stage_value(m@.chain, "eq"@))
            &&& tells(told, at("dyn1"@), stage_value(m@.chain, "dyn1"@))
            &&& tells(told, at("dyn2"@), stage_value(m@.chain, "dyn2"@))
            &&& tells(told, at("phase"@), stage_value(m@.chain, "phase"@))
            &&& tells(told, at("delay"@), stage_value(m@.chain, "delay"@))
        }),
{
    let x = t.tick(mixer_id, meters);
    assert(x.len() == 9);
    let (x0, x1, x2, x3, x4, x5, x6, x7, x8) = (
        x[0],
        x[1],
        x[2],
        x[3],
        x[4],
        x[5],
        x[6],
        x[7],
        x[8],
    );
    let y = b.tick(mixer_id, meters);
    assert(y.len() == 2);
    let (y0, y1) = (y[0], y[1]);
    let z = m.tick(mixer_id, meters);
    assert(z.len() == 8);
    let (z0, z1, z2, z3, z4, z5, z6, z7) = (
        z[0],
        z[1],
        z[2],
        z[3],
        z[4],
        z[5],
        z[6],
        z[7],
    );
}

/// No one is left out of a tick: what is told of each is told.
pub proof fn law_a_tick_leaves_no_one_out<K, T: Told>(
    mixer_id: u32,
    s: Seq<(K, T)>,
    meters: Meters,
    i: int,
    k: int,
)
    requires
        0 <= i < s.len(),
        0 <= k < s[i].1.tick(mixer_id, meters).len(),
    ensures
        ticks(mixer_id, s, meters).contains(s[i].1.tick(mixer_id, meters)[k]),
    decreases s.len(),
{
    let rest = s.drop_last();
    let before = ticks(mixer_id, rest, meters);
    let now = ticks(mixer_id, s, meters);
    if i < rest.len() {
        assert(rest[i] == s[i]);
        law_a_tick_leaves_no_one_out(mixer_id, rest, meters, i, k);
        let x = s[i].1.tick(mixer_id, meters)[k];
        let j = choose|j: int| 0 <= j < before.len() && before[j] == x;
        assert(now[j] == x);
    } else {
        assert(now[before.len() + k] == s[i].1.tick(mixer_id, meters)[k]);
    }
}

/// The meters of grid entries are told at their ids.
pub proof fn law_grid_meters_are_told(
    input: InputGridEntry,
    output: OutputGridEntry,
    mixer_id: u32,
    meters: Meters,
)
    ensures
        meters.input@.contains_key(input.id@) ==> tells(
            input.tick(mixer_id, meters),
            strip_path(mixer_id, "input"@, input.id@, "peakmeter"@),
            meters.input@[input.id@]@,
        ),
        meters.output@.contains_key(output.id@) ==> tells(
            output.tick(mixer_id, meters),
            strip_path(mixer_id, "output"@, output.id@, "peakmeter"@),
            meters.output@[output.id@]@,
        ),
{
    let a = input.tick(mixer_id, meters);
    let b = output.tick(mixer_id, meters);
    assert(a.len() == 1 && b.len() == 1);
    let (a0, b0) = (a[0], b[0]);
}

} // verus!
