//! What the bridge registers with a registry.

use vstd::prelude::*;

use crate::bridge::nmos::resources::{
    flow_facts, flow_json, node_facts, node_json, receiver_doc, receiver_json, sender_doc,
    sender_json, source_facts, source_json,
};
use crate::bridge::nmos::server::{own_device, own_device_json};
use crate::bridge::nmos::state::{
    sink_snapshot, source_snapshot, NmosState, SinkEntry, SinkEntrySnapshot, SinkSnapshotModel,
    SourceEntry, SourceEntrySnapshot, SourceSnapshotModel,
};
use crate::json::Doc;
use crate::nmos::{
    flow_doc, no_registrations, node_doc, put_registration, registrations, source_doc,
    Registration,
};
use crate::uuid::Uuid;

verus! {

/// What is registered for a Sink: its source, its flow, its sender.
pub open spec fn sink_registrations(state: NmosState, e: SinkSnapshotModel) -> Seq<
    (Seq<char>, Doc),
> {
    Seq::empty().push(("source"@, source_doc(source_facts(state, e)))).push(
        ("flow"@, flow_doc(flow_facts(state, e), e.source_id)),
    ).push(("sender"@, sender_doc(state, e)))
}

/// Registers a Sink.
pub fn register_sink(out: &mut Vec<Registration>, state: &NmosState, e: &SinkEntrySnapshot)
    ensures
        registrations(final(out)@) == registrations(old(out)@) + sink_registrations(*state, e@),
{
    put_registration(out, "source", source_json(state, e));
    put_registration(out, "flow", flow_json(state, e));
    put_registration(out, "sender", sender_json(state, e));
    assert(registrations(out@) =~= registrations(old(out)@) + sink_registrations(*state, e@));
}

/// What is registered for a Source: its receiver.
pub open spec fn source_registrations(state: NmosState, e: SourceSnapshotModel) -> Seq<
    (Seq<char>, Doc),
> {
    Seq::empty().push(("receiver"@, receiver_doc(state, e)))
}

/// Registers a Source.
pub fn register_source(out: &mut Vec<Registration>, state: &NmosState, e: &SourceEntrySnapshot)
    ensures
        registrations(final(out)@) == registrations(old(out)@) + source_registrations(*state, e@),
{
    put_registration(out, "receiver", receiver_json(state, e));
    assert(registrations(out@) =~= registrations(old(out)@) + source_registrations(*state, e@));
}

/// What is registered for Sinks.
pub open spec fn all_sinks(state: NmosState, s: Seq<(u8, SinkEntry)>) -> Seq<(Seq<char>, Doc)>
    decreases s.len(),
{
    if s.len() == 0 {
        Seq::empty()
    } else {
        all_sinks(state, s.drop_last()) + sink_registrations(state, sink_snapshot(s.last().1@))
    }
}

/// What is registered for Sources.
pub open spec fn all_sources(state: NmosState, s: Seq<(u8, SourceEntry)>) -> Seq<(Seq<char>, Doc)>
    decreases s.len(),
{
    if s.len() == 0 {
        Seq::empty()
    } else {
        all_sources(state, s.drop_last()) + source_registrations(
            state,
            source_snapshot(s.last().1@),
        )
    }
}

/// Everything that the node registers, in its order: the node, the device, the Sinks, the Sources.
pub fn register_all(state: &NmosState, hostname: &str) -> (r: Vec<Registration>)
    ensures
        registrations(r@) == Seq::empty().push(
            ("node"@, node_doc(node_facts(*state, state.cfg.ip_addr@, hostname@))),
        ).push(("device"@, own_device(*state))) + all_sinks(*state, state.sinks.list())
            + all_sources(*state, state.sources.list()),
{
    let mut out = no_registrations();
    put_registration(&mut out, "node", node_json(state, state.cfg.ip_addr.as_str(), hostname));
    put_registration(&mut out, "device", own_device_json(state));
    let ghost head = registrations(out@);
    let ghost sinks = state.sinks.list();
    assert(sinks.take(0) =~= Seq::empty());
    assert(registrations(out@) =~= head + all_sinks(*state, sinks.take(0)));
    let n: usize = state.sinks.len();
    for i in 0..n
        invariant
            n == sinks.len(),
            sinks == state.sinks.list(),
            registrations(out@) == head + all_sinks(*state, sinks.take(i as int)),
    {
        assert(sinks.take(i + 1).drop_last() =~= sinks.take(i as int));
        let e = state.sinks.value_at(i).snapshot();
        register_sink(&mut out, state, &e);
        assert(registrations(out@) =~= head + all_sinks(*state, sinks.take(i + 1)));
    }
    assert(sinks.take(sinks.len() as int) =~= sinks);
    let ghost middle = registrations(out@);
    let ghost sources = state.sources.list();
    assert(sources.take(0) =~= Seq::empty());
    assert(registrations(out@) =~= middle + all_sources(*state, sources.take(0)));
    let m: usize = state.sources.len();
    for i in 0..m
        invariant
            m == sources.len(),
            sources == state.sources.list(),
            registrations(out@) == middle + all_sources(*state, sources.take(i as int)),
    {
        assert(sources.take(i + 1).drop_last() =~= sources.take(i as int));
        let e = state.sources.value_at(i).snapshot();
        register_source(&mut out, state, &e);
        assert(registrations(out@) =~= middle + all_sources(*state, sources.take(i + 1)));
    }
    assert(sources.take(sources.len() as int) =~= sources);
    out
}

/// A registration to be taken back.
#[derive(Debug)]
pub struct Removal {
    pub kind: &'static str,
    pub id: Uuid,
}

impl View for Removal {
    type V = (Seq<char>, Uuid);

    open spec fn view(&self) -> (Seq<char>, Uuid) {
        (self.kind@, self.id)
    }
}

/// What removals say.
pub open spec fn removals(s: Seq<Removal>) -> Seq<(Seq<char>, Uuid)> {
    s.map_values(|x: Removal| x@)
}

fn put_removal(out: &mut Vec<Removal>, kind: &'static str, id: Uuid)
    ensures
        removals(final(out)@) == removals(old(out)@).push((kind@, id)),
{
    out.push(Removal { kind, id });
    assert(removals(out@) =~= removals(old(out)@).push((kind@, id)));
}

/// What is taken back for a Sink that is gone: what depends on other resources comes first.
pub open spec fn sink_removals(e: SinkSnapshotModel) -> Seq<(Seq<char>, Uuid)> {
    Seq::empty().push(("sender"@, e.sender_id)).push(("flow"@, e.flow_id)).push(
        ("source"@, e.source_id),
    )
}

/// Takes back what was registered for a Sink.
pub fn unregister_sink(out: &mut Vec<Removal>, e: &SinkEntrySnapshot)
    ensures
        removals(final(out)@) == removals(old(out)@) + sink_removals(e@),
{
    put_removal(out, "sender", e.sender_id);
    put_removal(out, "flow", e.flow_id);
    put_removal(out, "source", e.source_id);
    assert(removals(out@) =~= removals(old(out)@) + sink_removals(e@));
}

/// What is taken back for a Source that is gone.
pub open spec fn source_removals(e: SourceSnapshotModel) -> Seq<(Seq<char>, Uuid)> {
    Seq::empty().push(("receiver"@, e.receiver_id))
}

/// Takes back what was registered for a Source.
pub fn unregister_source(out: &mut Vec<Removal>, e: &SourceEntrySnapshot)
    ensures
        removals(final(out)@) == removals(old(out)@) + source_removals(e@),
{
    put_removal(out, "receiver", e.receiver_id);
    assert(removals(out@) =~= removals(old(out)@) + source_removals(e@));
}

/// Whether the answer to taking a registration back leaves nothing to be done.
pub open spec fn leaves_nothing(status: u16) -> bool {
    200 <= status < 300 || status == 404
}

/// Whether the answer to taking a registration back leaves nothing to be done: it was taken back,
/// or there was none.
pub fn is_unregistered(status: u16) -> (r: bool)
    ensures
        r == leaves_nothing(status),
{
    (200 <= status && status < 300) || status == 404
}

} // verus!
