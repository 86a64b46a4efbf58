//! What holds of strips that are created and deleted, of what can be patched, and of stages.

use vstd::prelude::*;
use vstd::string::*;

use crate::console::config::{
    built_chain, ChannelTemplate, PickoffPointConfig, StageSlotConfig, TrackConfig,
};
use crate::console::dsp::{StageKind, StageModel};
use crate::console::engine::MixerModel;
use crate::console::mixer::{PickoffPoint, Send};
use crate::console::patch::{
    channels_of, feeds_refusal, output_refusal, refs_refusal, slots_refusal, source_refusal,
    sum_refusal, track_in_refusal, Gone, RefModel, World,
};
use crate::console::topology::{mismatches, other_sends};
use crate::console::ws::{created, deleted, parsed_delete_path, NewStrip};
use crate::json::Doc;

verus! {

/// A track is created as it is described, under an id that is not taken; it is neither muted nor
/// soloed, and nothing else changes but that there is something new.
pub proof fn law_a_created_track_is_as_described(m: MixerModel, cfg: TrackConfig, other: u32)
    ensures
        created(m, NewStrip::Channel(cfg)) is Ok <==> !m.tracks.contains_key(cfg.id),
        created(m, NewStrip::Channel(cfg)) matches Ok(now) ==> {
            let t = now.tracks[cfg.id];
            &&& now.tracks.contains_key(cfg.id)
            &&& t.id == cfg.id
            &&& t.label == cfg.label@
            &&& t.gain_db == cfg.gain_db
            &&& t.fader_db == cfg.fader_db
            &&& !t.mute && !t.solo
            &&& t.dynamically_created
            &&& t.channels == (match cfg.channels {
                Some(c) => c as usize,
                None => m.default_channels,
            })
            &&& t.chain == built_chain(cfg.chain@, cfg.template)
            &&& t.sends.len() == cfg.sends@.len()
            &&& forall|i: int|
                0 <= i < t.sends.len() ==> {
                    let s = #[trigger] t.sends[i];
                    let c = cfg.sends@[i];
                    &&& s.bus_id == c.bus_id
                    &&& s.on == c.on
                    &&& s.level_db == c.level_db
                    &&& s.pickoff == PickoffPoint::PreFader <==> c.pickoff
                        == PickoffPointConfig::PreFader
                }
            &&& now.buses == m.buses && now.masters == m.masters && now.patch == m.patch
            &&& now.inputs == m.inputs && now.outputs == m.outputs
            &&& other != cfg.id ==> now.tracks.contains_key(other) == m.tracks.contains_key(other)
                && now.tracks[other] == m.tracks[other]
            &&& now.topology_generation != m.topology_generation
        },
{
}

/// Buses and masters are created as they are described, under ids that are not taken.
pub proof fn law_a_created_sum_is_as_described(
    m: MixerModel,
    bus: crate::console::config::BusConfig,
    master: crate::console::config::MasterTrackConfig,
    other: u32,
)
    ensures
        created(m, NewStrip::Sum(bus)) is Ok <==> !m.buses.contains_key(bus.id),
        created(m, NewStrip::Sum(bus)) matches Ok(now) ==> {
            let b = now.buses[bus.id];
            &&& now.buses.contains_key(bus.id)
            &&& b.id == bus.id && b.label == bus.label@ && b.dynamically_created
            &&& b.channels == (match bus.channels {
                Some(c) => c as usize,
                None => m.default_channels,
            })
            &&& now.tracks == m.tracks && now.masters == m.masters && now.patch == m.patch
            &&& other != bus.id ==> now.buses.contains_key(other) == m.buses.contains_key(other)
                && now.buses[other] == m.buses[other]
            &&& now.topology_generation != m.topology_generation
        },
        created(m, NewStrip::Master(master)) is Ok <==> !m.masters.contains_key(master.id),
        created(m, NewStrip::Master(master)) matches Ok(now) ==> {
            let t = now.masters[master.id];
            &&& now.masters.contains_key(master.id)
            &&& t.id == master.id && t.label == master.label@ && t.fader_db == master.fader_db
            &&& !t.mute && t.dynamically_created
            &&& t.channels == (match master.channels {
                Some(c) => c as usize,
                None => m.default_channels,
            })
            &&& t.chain == built_chain(master.chain@, master.template)
            &&& now.tracks == m.tracks && now.buses == m.buses && now.patch == m.patch
            &&& other != master.id ==> now.masters.contains_key(other) == m.masters.contains_key(
                other,
            ) && now.masters[other] == m.masters[other]
            &&& now.topology_generation != m.topology_generation
        },
{
}

/// A chain has the stages that its slots name, in their order; without slots it has those of the
/// template: none, or filter, equalizer, two dynamics, phase and delay.
pub proof fn law_a_chain_has_the_stages_it_names(
    slots: Seq<StageSlotConfig>,
    template: ChannelTemplate,
    i: int,
)
    ensures
        slots.len() > 0 ==> ({
            let chain = built_chain(slots, template);
            &&& chain.len() == slots.len()
            &&& 0 <= i < slots.len() ==> chain[i].kind() == slots[i].kind
            &&& 0 <= i < slots.len() && slots[i].params@ is Null ==> chain[i] == StageModel::fresh(
                slots[i].kind,
            )
        }),
        slots.len() == 0 && template == ChannelTemplate::Simple ==> built_chain(
            slots,
            template,
        ).len() == 0,
        slots.len() == 0 && template == ChannelTemplate::FullChannel ==> ({
            let chain = built_chain(slots, template);
            &&& chain.len() == 6
            &&& chain[0] is Filter && chain[1] is Eq && chain[2] is Dynamics && chain[3] is Dynamics
                && chain[4] is Phase && chain[5] is Delay
        }),
{
}

/// A message that gives nothing changes nothing of a stage, and no message changes its kind.
pub proof fn law_a_stage_keeps_what_is_not_given(s: StageModel, d: Doc)
    ensures
        s.applied(Doc::Null) == s,
        s.applied(d).kind() == s.kind(),
{
}

/// A stage that was just added is on, where it can be, and changes nothing.
pub proof fn law_a_fresh_stage_is_on(kind: StageKind)
    ensures
        StageModel::fresh(kind).kind() == kind,
        match StageModel::fresh(kind) {
            StageModel::Filter(s) => s.on,
            StageModel::Eq { on, bands } => on && bands.len() == 0,
            StageModel::Dynamics(s) => s.on,
            StageModel::Phase(s) => !s.invert,
            StageModel::Delay(s) => s.on,
        },
{
}

proof fn lemma_other_sends_kept(sends: Seq<Send>, bus: u32, x: Send)
    ensures
        other_sends(sends, bus).contains(x) <==> sends.contains(x) && x.bus_id != bus,
        other_sends(sends, bus).len() <= sends.len(),
    decreases sends.len(),
{
    let now = other_sends(sends, bus);
    if sends.len() > 0 {
        let rest = sends.drop_last();
        let before = other_sends(rest, bus);
        lemma_other_sends_kept(rest, bus, x);
        assert(sends[sends.len() - 1] == sends.last());
        if sends.contains(x) {
            let i = choose|i: int| 0 <= i < sends.len() && sends[i] == x;
            if i < rest.len() {
                assert(rest[i] == x);
            }
        }
        if rest.contains(x) {
            let i = choose|i: int| 0 <= i < rest.len() && rest[i] == x;
            assert(sends[i] == x);
        }
        if now.contains(x) {
            let i = choose|i: int| 0 <= i < now.len() && now[i] == x;
            if i < before.len() {
                assert(before[i] == x);
            }
        }
        if before.contains(x) {
            let i = choose|i: int| 0 <= i < before.len() && before[i] == x;
            assert(now[i] == x);
        }
        if sends.last() == x && x.bus_id != bus {
            assert(now[before.len() as int] == x);
        }
    } else {
        assert(now =~= Seq::empty());
    }
}

/// Deleting takes away exactly the strip that is named: every other strip stays. A track loses its
/// sends to a bus that is deleted, and keeps the others. What is gone is handed on once, so that
/// what it put out is forgotten.
pub proof fn law_deletion_takes_the_named_strip(
    m: MixerModel,
    mixer_id: u32,
    path: Seq<char>,
    id: u32,
    other: u32,
    x: Send,
)
    requires
        parsed_delete_path(path, mixer_id) matches Some((_, n))
            && crate::console::patch::id_value(n) == Some(id),
    ensures
        ({
            let (kind, _) = parsed_delete_path(path, mixer_id)->0;
            let now = deleted(m, mixer_id, path);
            &&& kind == "channel"@ ==> {
                &&& now is Some <==> m.tracks.contains_key(id)
                &&& now matches Some(n) ==> {
                    &&& !n.tracks.contains_key(id)
                    &&& other != id ==> n.tracks.contains_key(other) == m.tracks.contains_key(
                        other,
                    ) && n.tracks[other] == m.tracks[other]
                    &&& n.buses == m.buses && n.masters == m.masters
                    &&& n.retired == m.retired.push(Gone::Track(id))
                    &&& n.topology_generation != m.topology_generation
                }
            }
            &&& kind == "sum"@ ==> {
                &&& now is Some <==> m.buses.contains_key(id)
                &&& now matches Some(n) ==> {
                    &&& !n.buses.contains_key(id)
                    &&& other != id ==> n.buses.contains_key(other) == m.buses.contains_key(other)
                        && n.buses[other] == m.buses[other]
                    &&& n.tracks.dom() == m.tracks.dom() && n.masters == m.masters
                    &&& m.tracks.contains_key(other) ==> {
                        &&& n.tracks[other].sends.contains(x) <==> m.tracks[other].sends.contains(x)
                            && x.bus_id != id
                        &&& n.tracks[other].gain_db == m.tracks[other].gain_db
                        &&& n.tracks[other].fader_db == m.tracks[other].fader_db
                        &&& n.tracks[other].mute == m.tracks[other].mute
                        &&& n.tracks[other].solo == m.tracks[other].solo
                        &&& n.tracks[other].chain == m.tracks[other].chain
                    }
                    &&& n.retired == m.retired.push(Gone::Bus(id))
                    &&& n.topology_generation != m.topology_generation
                }
            }
            &&& kind == "master"@ ==> {
                &&& now is Some <==> m.masters.contains_key(id)
                &&& now matches Some(n) ==> {
                    &&& !n.masters.contains_key(id)
                    &&& other != id ==> n.masters.contains_key(other) == m.masters.contains_key(
                        other,
                    ) && n.masters[other] == m.masters[other]
                    &&& n.tracks == m.tracks && n.buses == m.buses
                    &&& n.retired == m.retired.push(Gone::Master(id))
                    &&& n.topology_generation != m.topology_generation
                }
            }
        }),
{
    reveal_strlit("channel");
    reveal_strlit("sum");
    reveal_strlit("master");
    assert("channel"@.len() == 7 && "sum"@.len() == 3 && "master"@.len() == 6);
    if m.tracks.contains_key(other) {
        lemma_other_sends_kept(m.tracks[other].sends, id, x);
    }
    let (kind, _) = parsed_delete_path(path, mixer_id)->0;
    if let Some(n) = deleted(m, mixer_id, path) {
        if kind == "sum"@ {
            assert(n.tracks.dom() =~= m.tracks.dom());
        }
    }
}

proof fn lemma_channels_of(list: Seq<(u32, usize)>, id: u32)
    ensures
        match channels_of(list, id) {
            Some(n) => exists|i: int|
                0 <= i < list.len() && #[trigger] list[i] == (id, n) && forall|j: int|
                    0 <= j < i ==> (#[trigger] list[j]).0 != id,
            None => forall|i: int| 0 <= i < list.len() ==> (#[trigger] list[i]).0 != id,
        },
    decreases list.len(),
{
    if list.len() > 0 {
        let rest = list.drop_last();
        lemma_channels_of(rest, id);
        assert(forall|i: int| 0 <= i < rest.len() ==> rest[i] == list[i]);
        assert(list[list.len() - 1] == list.last());
        if let Some(n) = channels_of(rest, id) {
            let i = choose|i: int|
                0 <= i < rest.len() && #[trigger] rest[i] == (id, n) && forall|j: int|
                    0 <= j < i ==> (#[trigger] rest[j]).0 != id;
            assert(list[i] == (id, n));
            assert forall|j: int| 0 <= j < i implies (#[trigger] list[j]).0 != id by {
                assert(rest[j] == list[j]);
            }
        }
    }
}

/// Whether a point is there, with a channel. No two points of a kind share an id.
pub open spec fn has_channel(list: Seq<(u32, usize)>, id: u32, channel: usize) -> bool {
    exists|i: int| 0 <= i < list.len() && (#[trigger] list[i]).0 == id && channel < list[i].1
}

/// Whether no two points share an id.
pub open spec fn own_ids(list: Seq<(u32, usize)>) -> bool {
    forall|i: int, j: int|
        0 <= i < list.len() && 0 <= j < list.len() && (#[trigger] list[i]).0 == (
        #[trigger] list[j]).0 ==> i == j
}

/// A source can be patched exactly where the point and its channel exist; a track cannot be patched
/// into itself.
pub proof fn law_what_exists_can_be_patched(w: World, own: Option<u32>, s: RefModel)
    requires
        own_ids(w.tracks),
        own_ids(w.buses),
        own_ids(w.masters),
    ensures
        source_refusal(w, own, s) is None <==> match s {
            RefModel::Input { entry_id, channel } => w.inputs.contains_key(entry_id) && channel
                < w.inputs[entry_id],
            RefModel::TrackOut { track_id, channel } => own != Some(track_id) && has_channel(
                w.tracks,
                track_id,
                channel,
            ),
            RefModel::BusOut { bus_id, channel } => has_channel(w.buses, bus_id, channel),
            RefModel::MasterOut { master_id, channel } => has_channel(
                w.masters,
                master_id,
                channel,
            ),
        },
{
    match s {
        RefModel::TrackOut { track_id, .. } => {
            lemma_channels_of(w.tracks, track_id);
        },
        RefModel::BusOut { bus_id, .. } => {
            lemma_channels_of(w.buses, bus_id);
        },
        RefModel::MasterOut { master_id, .. } => {
            lemma_channels_of(w.masters, master_id);
        },
        _ => {},
    }
}

proof fn lemma_slots_accepted(w: World, own: Option<u32>, s: Seq<Option<RefModel>>)
    ensures
        slots_refusal(w, own, s) is None <==> forall|i: int|
            0 <= i < s.len() ==> ((#[trigger] s[i]) matches Some(m) ==> source_refusal(
                w,
                own,
                m,
            ) is None),
    decreases s.len(),
{
    if s.len() > 0 {
        let rest = s.drop_last();
        lemma_slots_accepted(w, own, rest);
        assert(forall|i: int| 0 <= i < rest.len() ==> rest[i] == s[i]);
        assert(s[s.len() - 1] == s.last());
        assert forall|i: int|
            0 <= i < s.len() && slots_refusal(w, own, s) is None implies ((#[trigger] s[i]) matches Some(
            m,
        ) ==> source_refusal(w, own, m) is None) by {
            if i < rest.len() {
                assert(rest[i] == s[i]);
            }
        }
    }
}

proof fn lemma_refs_accepted(w: World, s: Seq<RefModel>)
    ensures
        refs_refusal(w, s) is None <==> forall|i: int|
            0 <= i < s.len() ==> source_refusal(w, None, #[trigger] s[i]) is None,
    decreases s.len(),
{
    if s.len() > 0 {
        let rest = s.drop_last();
        lemma_refs_accepted(w, rest);
        assert(forall|i: int| 0 <= i < rest.len() ==> rest[i] == s[i]);
        assert(s[s.len() - 1] == s.last());
        assert forall|i: int|
            0 <= i < s.len() && refs_refusal(w, s) is None implies source_refusal(
            w,
            None,
            #[trigger] s[i],
        ) is None by {
            if i < rest.len() {
                assert(rest[i] == s[i]);
            }
        }
    }
}

proof fn lemma_feeds_accepted(w: World, s: Seq<Seq<RefModel>>)
    ensures
        feeds_refusal(w, s) is None <==> forall|c: int|
            0 <= c < s.len() ==> refs_refusal(w, #[trigger] s[c]) is None,
    decreases s.len(),
{
    if s.len() > 0 {
        let rest = s.drop_last();
        lemma_feeds_accepted(w, rest);
        assert(forall|i: int| 0 <= i < rest.len() ==> rest[i] == s[i]);
        assert(s[s.len() - 1] == s.last());
        assert forall|c: int|
            0 <= c < s.len() && feeds_refusal(w, s) is None implies refs_refusal(
            w,
            #[trigger] s[c],
        ) is None by {
            if c < rest.len() {
                assert(rest[c] == s[c]);
            }
        }
    }
}

/// A patch is accepted exactly where it has a place for every channel of its destination, and every
/// source in it can be patched.
pub proof fn law_a_patch_is_accepted_as_a_whole(
    w: World,
    track: u32,
    channels: usize,
    owner: Seq<char>,
    slots: Seq<Option<RefModel>>,
    feeds: Seq<Seq<RefModel>>,
)
    ensures
        track_in_refusal(w, track, slots) is None <==> channels_of(w.tracks, track) == Some(
            slots.len() as usize,
        ) && slots.len() <= usize::MAX && forall|i: int|
            0 <= i < slots.len() ==> ((#[trigger] slots[i]) matches Some(m) ==> source_refusal(
                w,
                Some(track),
                m,
            ) is None),
        output_refusal(w, channels, slots) is None <==> slots.len() == channels && forall|i: int|
            0 <= i < slots.len() ==> ((#[trigger] slots[i]) matches Some(m) ==> source_refusal(
                w,
                None,
                m,
            ) is None),
        sum_refusal(w, owner, channels, feeds) is None <==> feeds.len() == channels && forall|
            c: int,
            k: int,
        |
            0 <= c < feeds.len() && 0 <= k < feeds[c].len() ==> source_refusal(
                w,
                None,
                #[trigger] feeds[c][k],
            ) is None,
{
    lemma_slots_accepted(w, Some(track), slots);
    lemma_slots_accepted(w, None, slots);
    lemma_feeds_accepted(w, feeds);
    assert forall|c: int| 0 <= c < feeds.len() implies (refs_refusal(w, #[trigger] feeds[c]) is None
        <==> forall|k: int|
        0 <= k < feeds[c].len() ==> source_refusal(w, None, #[trigger] feeds[c][k]) is None) by {
        lemma_refs_accepted(w, feeds[c]);
    }
}

/// A warning is given of a send exactly where its bus exists and the channel counts do not go
/// together.
pub proof fn law_mismatches_are_what_does_not_go_together(
    track: u32,
    channels: usize,
    sends: Seq<Send>,
    buses: Map<u32, crate::console::mixer::BusModel>,
    bus: u32,
)
    ensures
        (exists|k: int|
            0 <= k < mismatches(track, channels, sends, buses).len() && (
            #[trigger] mismatches(track, channels, sends, buses)[k]).bus_id == bus) <==> (
        exists|i: int| 0 <= i < sends.len() && (#[trigger] sends[i]).bus_id == bus)
            && buses.contains_key(bus) && channels != buses[bus].channels && channels != 1
            && buses[bus].channels != 1,
    decreases sends.len(),
{
    let now = mismatches(track, channels, sends, buses);
    if sends.len() > 0 {
        let rest = sends.drop_last();
        let before = mismatches(track, channels, rest, buses);
        law_mismatches_are_what_does_not_go_together(track, channels, rest, buses, bus);
        assert(forall|i: int| 0 <= i < rest.len() ==> rest[i] == sends[i]);
        assert(sends[sends.len() - 1] == sends.last());
        if exists|i: int| 0 <= i < sends.len() && (#[trigger] sends[i]).bus_id == bus {
            let i = choose|i: int| 0 <= i < sends.len() && (#[trigger] sends[i]).bus_id == bus;
            if i < rest.len() {
                assert(rest[i].bus_id == bus);
            }
        }
        if exists|k: int| 0 <= k < before.len() && (#[trigger] before[k]).bus_id == bus {
            let k = choose|k: int| 0 <= k < before.len() && (#[trigger] before[k]).bus_id == bus;
            assert(now[k].bus_id == bus);
        }
        if exists|k: int| 0 <= k < now.len() && (#[trigger] now[k]).bus_id == bus {
            let k = choose|k: int| 0 <= k < now.len() && (#[trigger] now[k]).bus_id == bus;
            if k < before.len() {
                assert(before[k].bus_id == bus);
            }
        }
        if now.len() > before.len() {
            assert(now[before.len() as int].bus_id == sends.last().bus_id);
        }
    }
}

} // verus!
