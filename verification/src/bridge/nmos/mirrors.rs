//! What holds of the mirrors of the daemon's streams, and of what a registry is told of them.

use vstd::prelude::*;
use vstd::string::*;

use crate::bridge::daemon_client::{DaemonSink, SinkModel, SourceModel, StreamChange};
use crate::bridge::nmos::registration::{
    all_sinks, all_sources, leaves_nothing, sink_registrations, sink_removals, source_registrations, source_removals,
};
use crate::bridge::nmos::server::{flow_at, source_at};
use crate::bridge::nmos::state::{
    activated_sink, activated_source, leases_after, mirrored_sink, mirrored_source, opens, sender_at,
    receiver_at, sink_activation, sink_snapshot, source_activation, source_snapshot, without,
    with_sink_fault, with_source_fault, LeaseModel, NmosModel, NmosState, SinkEntry,
    SinkEntryModel, SinkSnapshotModel, SourceEntry, SourceEntryModel, SourceSnapshotModel,
};
use crate::bridge::nmos::sync::{reopens, sink_step, source_step, StepModel};
use crate::json::{lemma_field_empty, lemma_field_with, Doc};
use crate::search::lemma_first_meets;
use crate::uuid::uuid_text;

verus! {

/// A Sink that says something else keeps its ids and everything that was activated; what it says is
/// taken over. Its flow goes only where the number of channels changed while it was open, and it
/// could not be opened anew. A Sink that is new is not activated.
pub proof fn law_a_sink_keeps_its_activation(
    sinks: Map<u8, SinkEntryModel>,
    d: SinkModel,
    version: (u64, u64),
    reopened: bool,
)
    ensures
        ({
            let now = mirrored_sink(sinks, d, version, reopened);
            let was = sinks[d.id];
            &&& now.label == d.name && now.map == d.map && now.channels == d.map.len() as u32
                && now.version == version
            &&& sinks.contains_key(d.id) ==> {
                &&& now.leases == was.leases
                &&& now.active == was.active
                &&& now.receiver_id == was.receiver_id
                &&& now.fault == was.fault
                &&& now.source_id == was.source_id
                &&& now.flow_id == was.flow_id
                &&& now.sender_id == was.sender_id
                &&& now.daemon_id == was.daemon_id
                &&& now.flow == (was.flow && (was.channels == d.map.len() as u32 || reopened))
            }
            &&& !sinks.contains_key(d.id) ==> now.daemon_id == d.id && !now.active && !now.flow
                && now.leases.len() == 0 && now.receiver_id is None && now.fault is None
        }),
{
}

/// A Source that says something else keeps its id and its connection; what it says is taken over. A
/// Source that is new is not connected.
pub proof fn law_a_source_keeps_its_connection(
    sources: Map<u8, SourceEntryModel>,
    d: SourceModel,
    version: (u64, u64),
)
    ensures
        ({
            let now = mirrored_source(sources, d, version);
            let was = sources[d.id];
            &&& now.label == d.name && now.map == d.map && now.channels == d.map.len() as u32
                && now.version == version
            &&& sources.contains_key(d.id) ==> {
                &&& now.active == was.active
                &&& now.sender_id == was.sender_id
                &&& now.flow_id == was.flow_id
                &&& now.fault == was.fault
                &&& now.receiver_id == was.receiver_id
                &&& now.daemon_id == was.daemon_id
            }
            &&& !sources.contains_key(d.id) ==> now.daemon_id == d.id && !now.active
                && now.sender_id is None && now.flow_id is None && now.fault is None
        }),
{
}

/// A receiver that is connected is active, with the flow and the sender that were asked for; one
/// that is disconnected has no flow. Nothing else of it changes.
pub proof fn law_a_connection_is_what_was_asked_for(
    e: SourceEntryModel,
    active: bool,
    sender_id: Option<Seq<char>>,
    flow_id: Option<Seq<char>>,
)
    ensures
        ({
            let now = activated_source(e, active, sender_id, flow_id);
            &&& now.active == active
            &&& now.sender_id == sender_id
            &&& active ==> now.flow_id == flow_id
            &&& !active ==> now.flow_id is None
            &&& now.daemon_id == e.daemon_id && now.receiver_id == e.receiver_id && now.label
                == e.label && now.channels == e.channels && now.map == e.map && now.version
                == e.version && now.fault == e.fault
        }),
{
}

proof fn lemma_without_is_part(leases: Seq<Seq<char>>, id: Seq<char>, k: int)
    requires
        0 <= k < without(leases, id).len(),
    ensures
        leases.contains(without(leases, id)[k]),
    decreases leases.len(),
{
    let rest = leases.drop_last();
    let before = without(rest, id);
    if k < before.len() {
        lemma_without_is_part(rest, id, k);
        let j = choose|j: int| 0 <= j < rest.len() && rest[j] == before[k];
        assert(leases[j] == before[k]);
    } else {
        assert(leases[leases.len() - 1] == leases.last());
    }
}

/// A new lease comes behind the others, which stay in their order; a release invents none. A flow
/// is opened exactly where it is not open and somebody holds a lease afterwards.
pub proof fn law_leases_keep_their_order(
    leases: Seq<Seq<char>>,
    id: Seq<char>,
    x: Seq<char>,
    e: SinkEntryModel,
    action: LeaseModel,
)
    ensures
        !leases.contains(id) ==> ({
            let now = leases_after(leases, LeaseModel::Acquire(id));
            &&& now.len() == leases.len() + 1
            &&& now.last() == id
            &&& forall|i: int| 0 <= i < leases.len() ==> #[trigger] now[i] == leases[i]
        }),
        leases.contains(id) ==> leases_after(leases, LeaseModel::Acquire(id)) == leases,
        leases_after(leases, LeaseModel::Release(Some(id))).contains(x) ==> leases.contains(x),
        opens(e, action) <==> !e.flow && exists|h: Seq<char>| #[trigger]
            leases_after(e.leases, action).contains(h),
{
    let now = without(leases, id);
    if now.contains(x) {
        let k = choose|k: int| 0 <= k < now.len() && now[k] == x;
        lemma_without_is_part(leases, id, k);
    }
    let after = leases_after(e.leases, action);
    if after.len() > 0 {
        assert(after.contains(after[0]));
    }
}

/// What others see of a mirror: it is active while it is activated and nothing keeps its flow from
/// working, and everything else is as it is.
pub proof fn law_what_is_shown_of_a_mirror(sink: SinkEntryModel, source: SourceEntryModel)
    ensures
        ({
            let s = sink_snapshot(sink);
            &&& s.active <==> sink.active && sink.fault is None
            &&& s.receiver_id == sink.receiver_id
            &&& s.daemon_id == sink.daemon_id && s.source_id == sink.source_id && s.flow_id
                == sink.flow_id && s.sender_id == sink.sender_id
            &&& s.label == sink.label && s.channels == sink.channels && s.version == sink.version
        }),
        ({
            let s = source_snapshot(source);
            &&& s.active <==> source.active && source.fault is None
            &&& s.sender_id == source.sender_id
            &&& s.daemon_id == source.daemon_id && s.receiver_id == source.receiver_id
            &&& s.label == source.label && s.channels == source.channels && s.version
                == source.version
        }),
{
}

/// A fault is set on one mirror alone, and changes nothing of it but the fault.
pub proof fn law_a_fault_is_set_on_one_mirror(
    sinks: Map<u8, SinkEntryModel>,
    sources: Map<u8, SourceEntryModel>,
    id: u8,
    fault: Option<Seq<char>>,
    other: u8,
)
    ensures
        with_sink_fault(sinks, id, fault).dom() == sinks.dom(),
        with_source_fault(sources, id, fault).dom() == sources.dom(),
        sinks.contains_key(id) ==> ({
            let now = with_sink_fault(sinks, id, fault)[id];
            now.fault == fault && SinkEntryModel { fault: None, ..now } == (SinkEntryModel {
                fault: None,
                ..sinks[id]
            })
        }),
        sources.contains_key(id) ==> ({
            let now = with_source_fault(sources, id, fault)[id];
            now.fault == fault && SourceEntryModel { fault: None, ..now } == (SourceEntryModel {
                fault: None,
                ..sources[id]
            })
        }),
        other != id ==> with_sink_fault(sinks, id, fault)[other] == sinks[other],
        other != id ==> with_source_fault(sources, id, fault)[other] == sources[other],
{
    assert(with_sink_fault(sinks, id, fault).dom() =~= sinks.dom());
    assert(with_source_fault(sources, id, fault).dom() =~= sources.dom());
}

/// An activation of a sender that exists succeeds unless its flow has to be opened and cannot be.
/// One of a receiver that exists succeeds unless it connects without a flow, or to one that cannot
/// be opened. No other mirror is touched either way.
pub proof fn law_activations_succeed(
    state: NmosState,
    id: Seq<char>,
    action: LeaseModel,
    active: bool,
    sender_id: Option<Seq<char>>,
    flow_id: Option<Seq<char>>,
    opened: Result<(), String>,
    other: u8,
)
    ensures
        match sender_at(state.sinks.list(), id) {
            Some(i) => {
                let (key, e) = state.sinks.list()[i];
                let (outcome, now) = sink_activation(state, id, action, opened);
                &&& outcome is Ok <==> e.flow || opened is Ok || leases_after(
                    e@.leases,
                    action,
                ).len() == 0
                &&& outcome is Err ==> now == state@
                &&& now.sources == state@.sources
                &&& now.is08 == state@.is08
                &&& other != key ==> now.sinks[other] == state@.sinks[other]
            },
            None => sink_activation(state, id, action, opened).0 is Err,
        },
        match receiver_at(state.sources.list(), id) {
            Some(i) => {
                let (key, e) = state.sources.list()[i];
                let (outcome, now) = source_activation(
                    state,
                    id,
                    active,
                    sender_id,
                    flow_id,
                    opened,
                );
                &&& outcome is Ok <==> !active || (flow_id is Some && opened is Ok)
                &&& outcome is Err ==> now == state@
                &&& now.sinks == state@.sinks
                &&& now.is08 == state@.is08
                &&& other != key ==> now.sources[other] == state@.sources[other]
            },
            None => source_activation(state, id, active, sender_id, flow_id, opened).0 is Err,
        },
{
}

/// A registry is told of every change. What comes or changes is registered as it is now, what goes
/// is taken back, and of what was never there nothing is told.
pub proof fn law_a_registry_is_told(
    state: NmosState,
    m: NmosModel,
    sink: StreamChange<SinkModel>,
    source: StreamChange<SourceModel>,
    version: (u64, u64),
    reopened: Seq<u8>,
)
    ensures
        match sink {
            StreamChange::Added(d) | StreamChange::Changed(d) => sink_step(
                state,
                m,
                sink,
                version,
                reopened,
            ) matches Some(StepModel::Register(all)) && all.len() == 3 && all[0].0 == "source"@
                && all[1].0 == "flow"@ && all[2].0 == "sender"@,
            StreamChange::Removed(id) => if m.sinks.contains_key(id) {
                sink_step(state, m, sink, version, reopened) matches Some(StepModel::Remove(all))
                    && all.len() == 3 && all[0] == ("sender"@, m.sinks[id].sender_id) && all[1] == (
                    "flow"@,
                    m.sinks[id].flow_id,
                ) && all[2] == ("source"@, m.sinks[id].source_id)
            } else {
                sink_step(state, m, sink, version, reopened) is None
            },
        },
        match source {
            StreamChange::Added(d) | StreamChange::Changed(d) => source_step(
                state,
                m,
                source,
                version,
            ) matches Some(StepModel::Register(all)) && all.len() == 1 && all[0].0 == "receiver"@,
            StreamChange::Removed(id) => if m.sources.contains_key(id) {
                source_step(state, m, source, version) matches Some(StepModel::Remove(all))
                    && all.len() == 1 && all[0] == ("receiver"@, m.sources[id].receiver_id)
            } else {
                source_step(state, m, source, version) is None
            },
        },
{
}

/// The names of what resources say differ.
pub proof fn lemma_resource_keys()
    ensures
        "flow_id"@ != "id"@ && "flow_id"@ != "version"@ && "flow_id"@ != "label"@ && "flow_id"@
            != "description"@ && "flow_id"@ != "tags"@,
        "source_id"@ != "id"@ && "source_id"@ != "version"@ && "source_id"@ != "label"@
            && "source_id"@ != "description"@ && "source_id"@ != "tags"@ && "source_id"@
            != "grain_rate"@,
        "label"@ != "id"@ && "label"@ != "version"@,
        "active"@ != "receiver_id"@ && "active"@ != "sender_id"@,
        "device_id"@ != "id"@ && "device_id"@ != "version"@ && "device_id"@ != "label"@
            && "device_id"@ != "description"@ && "device_id"@ != "tags"@ && "device_id"@
            != "flow_id"@ && "device_id"@ != "transport"@ && "device_id"@ != "grain_rate"@
            && "device_id"@ != "source_id"@ && "device_id"@ != "parents"@,
        "subscription"@ != "id"@ && "subscription"@ != "version"@ && "subscription"@ != "label"@
            && "subscription"@ != "description"@ && "subscription"@ != "tags"@ && "subscription"@
            != "flow_id"@ && "subscription"@ != "transport"@ && "subscription"@ != "device_id"@
            && "subscription"@ != "manifest_href"@ && "subscription"@ != "interface_bindings"@
            && "subscription"@ != "format"@ && "subscription"@ != "caps"@,
{
    reveal_strlit("id");
    reveal_strlit("version");
    reveal_strlit("label");
    reveal_strlit("description");
    reveal_strlit("tags");
    reveal_strlit("flow_id");
    reveal_strlit("source_id");
    reveal_strlit("grain_rate");
    reveal_strlit("parents");
    reveal_strlit("active");
    reveal_strlit("receiver_id");
    reveal_strlit("sender_id");
    reveal_strlit("device_id");
    reveal_strlit("transport");
    reveal_strlit("subscription");
    reveal_strlit("manifest_href");
    reveal_strlit("interface_bindings");
    reveal_strlit("format");
    reveal_strlit("caps");
    assert("id"@.len() == 2 && "tags"@.len() == 4 && "caps"@.len() == 4 && "label"@.len() == 5);
    assert("active"@.len() == 6 && "format"@.len() == 6);
    assert("version"@.len() == 7 && "version"@[0] == 'v');
    assert("flow_id"@.len() == 7 && "flow_id"@[0] == 'f');
    assert("parents"@.len() == 7 && "parents"@[0] == 'p');
    assert("source_id"@.len() == 9 && "source_id"@[1] == 'o');
    assert("device_id"@.len() == 9 && "device_id"@[0] == 'd');
    assert("transport"@.len() == 9 && "transport"@[0] == 't');
    assert("sender_id"@.len() == 9 && "grain_rate"@.len() == 10);
    assert("description"@.len() == 11 && "receiver_id"@.len() == 11);
    assert("subscription"@.len() == 12 && "manifest_href"@.len() == 13);
    assert("interface_bindings"@.len() == 18);
}

/// What is registered of a Sink hangs together: the flow is that of the source, the sender that of
/// the flow, all are of the device, under the ids by which they are taken back, with the label of
/// the Sink, and the sender shows whether it is active and for whom.
pub proof fn law_registered_resources_hang_together(
    state: NmosState,
    e: SinkSnapshotModel,
    r: SourceSnapshotModel,
)
    ensures
        ({
            let all = sink_registrations(state, e);
            let gone = sink_removals(e);
            let (source, flow, sender) = (all[0].1, all[1].1, all[2].1);
            let device = Doc::Text(uuid_text(state.device_id.bits));
            &&& all.len() == 3 && gone.len() == 3
            &&& source.field("id"@) == Some(Doc::Text(uuid_text(gone[2].1.bits)))
            &&& flow.field("id"@) == Some(Doc::Text(uuid_text(gone[1].1.bits)))
            &&& sender.field("id"@) == Some(Doc::Text(uuid_text(gone[0].1.bits)))
            &&& flow.field("source_id"@) == source.field("id"@)
            &&& sender.field("flow_id"@) == flow.field("id"@)
            &&& source.field("device_id"@) == Some(device)
            &&& flow.field("device_id"@) == Some(device)
            &&& sender.field("device_id"@) == Some(device)
            &&& source.field("label"@) == Some(Doc::Text(e.label))
            &&& flow.field("label"@) == Some(Doc::Text(e.label))
            &&& sender.field("label"@) == Some(Doc::Text(e.label))
            &&& sender.field("subscription"@) matches Some(s) && {
                &&& s.field("active"@) == Some(Doc::Bool(e.active))
                &&& s.field("receiver_id"@) == Some(
                    match e.receiver_id {
                        Some(x) => Doc::Text(x),
                        None => Doc::Null,
                    },
                )
            }
        }),
        ({
            let all = source_registrations(state, r);
            let receiver = all[0].1;
            &&& all.len() == 1 && source_removals(r).len() == 1
            &&& receiver.field("id"@) == Some(
                Doc::Text(uuid_text(source_removals(r)[0].1.bits)),
            )
            &&& receiver.field("label"@) == Some(Doc::Text(r.label))
            &&& receiver.field("device_id"@) == Some(Doc::Text(uuid_text(state.device_id.bits)))
            &&& receiver.field("subscription"@) matches Some(s) && {
                &&& s.field("active"@) == Some(Doc::Bool(r.active))
                &&& s.field("sender_id"@) == Some(
                    match r.sender_id {
                        Some(x) => Doc::Text(x),
                        None => Doc::Null,
                    },
                )
            }
        }),
{
    broadcast use {lemma_field_with, lemma_field_empty};

    lemma_resource_keys();
}

/// A resource is found by its own id, and where none is found, none has the id.
pub proof fn law_resources_are_found_by_their_ids(state: NmosState, id: Seq<char>, k: int)
    ensures
        match sender_at(state.sinks.list(), id) {
            Some(i) => 0 <= i < state.sinks.list().len() && uuid_text(
                state.sinks.list()[i].1.sender_id.bits,
            ) == id,
            None => 0 <= k < state.sinks.list().len() ==> uuid_text(
                state.sinks.list()[k].1.sender_id.bits,
            ) != id,
        },
        match receiver_at(state.sources.list(), id) {
            Some(i) => 0 <= i < state.sources.list().len() && uuid_text(
                state.sources.list()[i].1.receiver_id.bits,
            ) == id,
            None => 0 <= k < state.sources.list().len() ==> uuid_text(
                state.sources.list()[k].1.receiver_id.bits,
            ) != id,
        },
        match source_at(state.sinks.list(), id) {
            Some(i) => 0 <= i < state.sinks.list().len() && uuid_text(
                state.sinks.list()[i].1.source_id.bits,
            ) == id,
            None => 0 <= k < state.sinks.list().len() ==> uuid_text(
                state.sinks.list()[k].1.source_id.bits,
            ) != id,
        },
        match flow_at(state.sinks.list(), id) {
            Some(i) => 0 <= i < state.sinks.list().len() && uuid_text(
                state.sinks.list()[i].1.flow_id.bits,
            ) == id,
            None => 0 <= k < state.sinks.list().len() ==> uuid_text(
                state.sinks.list()[k].1.flow_id.bits,
            ) != id,
        },
{
    let sinks = state.sinks.list();
    let sources = state.sources.list();
    lemma_first_meets(sinks, |e: (u8, SinkEntry)| uuid_text(e.1.sender_id.bits) == id);
    lemma_first_meets(sources, |e: (u8, SourceEntry)| uuid_text(e.1.receiver_id.bits) == id);
    lemma_first_meets(sinks, |e: (u8, SinkEntry)| uuid_text(e.1.source_id.bits) == id);
    lemma_first_meets(sinks, |e: (u8, SinkEntry)| uuid_text(e.1.flow_id.bits) == id);
}

proof fn lemma_in_sum<A>(a: Seq<A>, b: Seq<A>, x: A)
    ensures
        a.contains(x) || b.contains(x) ==> (a + b).contains(x),
{
    if a.contains(x) {
        let i = choose|i: int| 0 <= i < a.len() && a[i] == x;
        assert((a + b)[i] == x);
    }
    if b.contains(x) {
        let i = choose|i: int| 0 <= i < b.len() && b[i] == x;
        assert((a + b)[a.len() + i] == x);
    }
}

/// Every Sink and every Source is registered, with all that belongs to it.
pub proof fn law_every_stream_is_registered(
    state: NmosState,
    sinks: Seq<(u8, SinkEntry)>,
    sources: Seq<(u8, SourceEntry)>,
    i: int,
    k: int,
)
    ensures
        0 <= i < sinks.len() && 0 <= k < 3 ==> all_sinks(state, sinks).contains(
            sink_registrations(state, sink_snapshot(sinks[i].1@))[k],
        ),
        0 <= i < sources.len() ==> all_sources(state, sources).contains(
            source_registrations(state, source_snapshot(sources[i].1@))[0],
        ),
        all_sinks(state, sinks).len() == 3 * sinks.len(),
        all_sources(state, sources).len() == sources.len(),
    decreases sinks.len() + sources.len(),
{
    if sinks.len() > 0 {
        let rest = sinks.drop_last();
        law_every_stream_is_registered(state, rest, sources, i, k);
        let own = sink_registrations(state, sink_snapshot(sinks.last().1@));
        assert(sinks[sinks.len() - 1] == sinks.last());
        if 0 <= i < sinks.len() && 0 <= k < 3 {
            let x = sink_registrations(state, sink_snapshot(sinks[i].1@))[k];
            if i < rest.len() {
                assert(rest[i] == sinks[i]);
            } else {
                assert(own[k] == x);
                assert(own.contains(x));
            }
            lemma_in_sum(all_sinks(state, rest), own, x);
        }
    }
    if sources.len() > 0 {
        let rest = sources.drop_last();
        law_every_stream_is_registered(state, sinks, rest, i, k);
        let own = source_registrations(state, source_snapshot(sources.last().1@));
        assert(sources[sources.len() - 1] == sources.last());
        if 0 <= i < sources.len() {
            let x = source_registrations(state, source_snapshot(sources[i].1@))[0];
            if i < rest.len() {
                assert(rest[i] == sources[i]);
            } else {
                assert(own[0] == x);
                assert(own.contains(x));
            }
            lemma_in_sum(all_sources(state, rest), own, x);
        }
    }
}

/// The receiver that a sender shows is the one that took its lease last of those that hold one.
pub proof fn law_the_latest_lease_is_shown(e: SinkEntryModel, id: Seq<char>, action: LeaseModel)
    ensures
        !e.leases.contains(id) ==> activated_sink(e, LeaseModel::Acquire(id)).receiver_id == Some(
            id,
        ),
        ({
            let now = activated_sink(e, action);
            &&& now.leases == leases_after(e.leases, action)
            &&& now.leases.len() > 0 ==> now.receiver_id == Some(now.leases[now.leases.len() - 1])
            &&& now.daemon_id == e.daemon_id && now.flow_id == e.flow_id && now.sender_id
                == e.sender_id && now.source_id == e.source_id && now.label == e.label
                && now.channels == e.channels && now.map == e.map && now.version == e.version
                && now.fault == e.fault
        }),
{
}

/// A registration is gone where it was taken back or was not known; any other answer leaves it.
pub proof fn law_when_a_registration_is_gone(status: u16)
    ensures
        status / 100 == 2 ==> leaves_nothing(status),
        leaves_nothing(404),
        leaves_nothing(status) ==> status / 100 == 2 || status == 404,
{
}

/// A flow has to be opened anew exactly where it is open and its Sink has another number of channels
/// now.
pub proof fn law_when_a_flow_is_opened_anew(state: NmosState, d: DaemonSink, id: u8)
    ensures
        reopens(state, StreamChange::Changed(d), id) <==> d.id == id && state@.sinks.contains_key(id)
            && state@.sinks[id].flow && state@.sinks[id].channels != d.map@.len() as u32,
        reopens(state, StreamChange::Added(d), id) == reopens(state, StreamChange::Changed(d), id),
        !reopens(state, StreamChange::Removed(id), id),
{
}

} // verus!
