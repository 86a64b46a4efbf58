//! Keeping the mirrors in step with the daemon.

use vstd::prelude::*;

use crate::bridge::daemon_client::{
    after_changes, change_model, changed, changes_model, DaemonDiff, DaemonSink, DaemonSource,
    SinkModel, SourceModel, StreamChange,
};
use crate::bridge::nmos::is08::{output_id, with_source_output, Is08Model, OutputModel};
use crate::bridge::nmos::registration::{
    register_sink, register_source, removals, sink_registrations, sink_removals,
    source_registrations, source_removals, unregister_sink, unregister_source, Removal,
};
use crate::bridge::nmos::state::{
    mirrored_sink, mirrored_source, sink_snapshot, source_snapshot, NmosModel, NmosState,
    SinkEntryModel, SourceEntryModel,
};
use crate::json::Doc;
use crate::nmos::{no_registrations, registrations, Registration};
use crate::uuid::Uuid;

verus! {

/// What one change has to be told to a registry. What stands in one step belongs together, in this
/// order: where telling a part fails, the rest of the step is not told.
#[derive(Debug)]
pub enum SyncStep {
    Register(Vec<Registration>),
    Remove(Vec<Removal>),
}

/// What a [`SyncStep`] says.
pub enum StepModel {
    Register(Seq<(Seq<char>, Doc)>),
    Remove(Seq<(Seq<char>, Uuid)>),
}

impl View for SyncStep {
    type V = StepModel;

    open spec fn view(&self) -> StepModel {
        match *self {
            SyncStep::Register(v) => StepModel::Register(registrations(v@)),
            SyncStep::Remove(v) => StepModel::Remove(removals(v@)),
        }
    }
}

/// What steps say.
pub open spec fn steps(s: Seq<SyncStep>) -> Seq<StepModel> {
    s.map_values(|x: SyncStep| x@)
}

/// Steps, and behind them what one more change has to be told.
pub open spec fn then_told(before: Seq<StepModel>, step: Option<StepModel>) -> Seq<StepModel> {
    match step {
        Some(x) => before.push(x),
        None => before,
    }
}

fn tell(work: &mut Vec<SyncStep>, step: SyncStep)
    ensures
        steps(final(work)@) == steps(old(work)@).push(step@),
{
    work.push(step);
    assert(steps(work@) =~= steps(old(work)@).push(step@));
}

/// The mirrors after a change of a Sink.
pub open spec fn synced_sink(
    m: NmosModel,
    c: StreamChange<SinkModel>,
    version: (u64, u64),
    reopened: Seq<u8>,
) -> NmosModel {
    match c {
        StreamChange::Added(d) | StreamChange::Changed(d) => NmosModel {
            sinks: m.sinks.insert(
                d.id,
                mirrored_sink(m.sinks, d, version, reopened.contains(d.id)),
            ),
            ..m
        },
        StreamChange::Removed(id) => NmosModel { sinks: m.sinks.remove(id), ..m },
    }
}

/// What a change of a Sink has to be told to a registry.
pub open spec fn sink_step(
    state: NmosState,
    m: NmosModel,
    c: StreamChange<SinkModel>,
    version: (u64, u64),
    reopened: Seq<u8>,
) -> Option<StepModel> {
    match c {
        StreamChange::Added(d) | StreamChange::Changed(d) => Some(
            StepModel::Register(
                sink_registrations(
                    state,
                    sink_snapshot(mirrored_sink(m.sinks, d, version, reopened.contains(d.id))),
                ),
            ),
        ),
        StreamChange::Removed(id) => if m.sinks.contains_key(id) {
            Some(StepModel::Remove(sink_removals(sink_snapshot(m.sinks[id]))))
        } else {
            None
        },
    }
}

/// The mirrors after a change of a Source: the output of the crosspoint follows it.
pub open spec fn synced_source(
    m: NmosModel,
    c: StreamChange<SourceModel>,
    version: (u64, u64),
) -> NmosModel {
    match c {
        StreamChange::Added(d) | StreamChange::Changed(d) => {
            let e = mirrored_source(m.sources, d, version);
            NmosModel {
                sources: m.sources.insert(d.id, e),
                is08: with_source_output(m.is08, e.daemon_id, (e.channels as usize) as nat),
                ..m
            }
        },
        StreamChange::Removed(id) => if m.sources.contains_key(id) {
            NmosModel {
                sources: m.sources.remove(id),
                is08: Is08Model {
                    outputs: m.is08.outputs.remove(output_id(OutputModel::SourceStream(id))),
                    ..m.is08
                },
                ..m
            }
        } else {
            m
        },
    }
}

/// What a change of a Source has to be told to a registry.
pub open spec fn source_step(
    state: NmosState,
    m: NmosModel,
    c: StreamChange<SourceModel>,
    version: (u64, u64),
) -> Option<StepModel> {
    match c {
        StreamChange::Added(d) | StreamChange::Changed(d) => Some(
            StepModel::Register(
                source_registrations(
                    state,
                    source_snapshot(mirrored_source(m.sources, d, version)),
                ),
            ),
        ),
        StreamChange::Removed(id) => if m.sources.contains_key(id) {
            Some(StepModel::Remove(source_removals(source_snapshot(m.sources[id]))))
        } else {
            None
        },
    }
}

fn mentions(ids: &Vec<u8>, id: u8) -> (r: bool)
    ensures
        r == ids@.contains(id),
{
    for i in 0..ids.len()
        invariant
            forall|k: int| 0 <= k < i ==> ids@[k] != id,
    {
        if ids[i] == id {
            return true;
        }
    }
    false
}

fn apply_sink_change(
    state: &mut NmosState,
    change: &StreamChange<DaemonSink>,
    version: (u64, u64),
    reopened: &Vec<u8>,
    work: &mut Vec<SyncStep>,
)
    requires
        old(state).wf(),
    ensures
        final(state).wf(),
        final(state).same_node(*old(state)),
        final(state)@ == synced_sink(old(state)@, change_model(*change), version, reopened@),
        steps(final(work)@) == then_told(
            steps(old(work)@),
            sink_step(*old(state), old(state)@, change_model(*change), version, reopened@),
        ),
{
    match change {
        StreamChange::Added(d) | StreamChange::Changed(d) => {
            let e = state.apply_sink_added_or_changed(d, version, mentions(reopened, d.id));
            let mut all = no_registrations();
            register_sink(&mut all, state, &e);
            assert(registrations(all@) =~= sink_registrations(*state, e@));
            tell(work, SyncStep::Register(all));
        },
        StreamChange::Removed(id) => {
            if let Some(e) = state.remove_sink(*id) {
                let mut all: Vec<Removal> = Vec::new();
                unregister_sink(&mut all, &e);
                assert(removals(all@) =~= sink_removals(e@));
                tell(work, SyncStep::Remove(all));
            }
        },
    }
}

fn apply_source_change(
    state: &mut NmosState,
    change: &StreamChange<DaemonSource>,
    version: (u64, u64),
    work: &mut Vec<SyncStep>,
)
    requires
        old(state).wf(),
    ensures
        final(state).wf(),
        final(state).same_node(*old(state)),
        final(state)@ == synced_source(old(state)@, change_model(*change), version),
        steps(final(work)@) == then_told(
            steps(old(work)@),
            source_step(*old(state), old(state)@, change_model(*change), version),
        ),
{
    match change {
        StreamChange::Added(d) | StreamChange::Changed(d) => {
            let e = state.apply_source_added_or_changed(d, version);
            state.is08.sync_source_stream_output(e.daemon_id, e.channels as usize);
            let mut all = no_registrations();
            register_source(&mut all, state, &e);
            assert(registrations(all@) =~= source_registrations(*state, e@));
            tell(work, SyncStep::Register(all));
        },
        StreamChange::Removed(id) => {
            let ghost was = state@;
            match state.remove_source(*id) {
                Some(e) => {
                    state.is08.remove_source_stream_output(*id);
                    let mut all: Vec<Removal> = Vec::new();
                    unregister_source(&mut all, &e);
                    assert(removals(all@) =~= source_removals(e@));
                    tell(work, SyncStep::Remove(all));
                },
                None => {
                    assert(was.sources.remove(*id) =~= was.sources);
                },
            }
        },
    }
}

/// The mirrors after changes of Sinks, and what has to be told to a registry.
pub open spec fn synced_sinks(
    state: NmosState,
    m: NmosModel,
    cs: Seq<StreamChange<SinkModel>>,
    version: (u64, u64),
    reopened: Seq<u8>,
    before: Seq<StepModel>,
) -> (NmosModel, Seq<StepModel>)
    decreases cs.len(),
{
    if cs.len() == 0 {
        (m, before)
    } else {
        let (n, w) = synced_sinks(state, m, cs.drop_last(), version, reopened, before);
        (
            synced_sink(n, cs.last(), version, reopened),
            then_told(w, sink_step(state, n, cs.last(), version, reopened)),
        )
    }
}

/// The mirrors after changes of Sources, and what has to be told to a registry.
pub open spec fn synced_sources(
    state: NmosState,
    m: NmosModel,
    cs: Seq<StreamChange<SourceModel>>,
    version: (u64, u64),
    before: Seq<StepModel>,
) -> (NmosModel, Seq<StepModel>)
    decreases cs.len(),
{
    if cs.len() == 0 {
        (m, before)
    } else {
        let (n, w) = synced_sources(state, m, cs.drop_last(), version, before);
        (
            synced_source(n, cs.last(), version),
            then_told(w, source_step(state, n, cs.last(), version)),
        )
    }
}

/// The mirrors after everything that changed, and what has to be told to a registry, change by
/// change: first those of Sinks, then those of Sources.
pub open spec fn synced(
    state: NmosState,
    alsa_channels: u8,
    sinks: Seq<StreamChange<SinkModel>>,
    sources: Seq<StreamChange<SourceModel>>,
    version: (u64, u64),
    reopened: Seq<u8>,
) -> (NmosModel, Seq<StepModel>) {
    let (m, w) = synced_sinks(
        state,
        NmosModel { alsa_channels, ..state@ },
        sinks,
        version,
        reopened,
        Seq::empty(),
    );
    synced_sources(state, m, sources, version, w)
}

/// The Sinks among changes whose flows have to be opened anew.
pub fn to_reopen(state: &NmosState, diff: &DaemonDiff) -> (r: Vec<u8>)
    requires
        state.wf(),
    ensures
        forall|id: u8| #[trigger]
            r@.contains(id) <==> exists|i: int|
                0 <= i < diff.sink_changes@.len() && reopens(*state, diff.sink_changes@[i], id),
{
    let mut out: Vec<u8> = Vec::new();
    for i in 0..diff.sink_changes.len()
        invariant
            state.wf(),
            forall|id: u8| #[trigger]
                out@.contains(id) <==> exists|k: int|
                    0 <= k < i && reopens(*state, diff.sink_changes@[k], id),
    {
        let ghost before = out@;
        match &diff.sink_changes[i] {
            StreamChange::Added(d) | StreamChange::Changed(d) => {
                if state.must_reopen(d) {
                    out.push(d.id);
                    assert(reopens(*state, diff.sink_changes@[i as int], d.id));
                }
            },
            StreamChange::Removed(_) => {},
        }
        proof {
            let c = diff.sink_changes@[i as int];
            assert forall|id: u8| #[trigger]
                out@.contains(id) <==> exists|k: int|
                    0 <= k < i + 1 && reopens(*state, diff.sink_changes@[k], id) by {
                if before.contains(id) {
                    let j = choose|j: int| 0 <= j < before.len() && before[j] == id;
                    assert(out@[j] == id);
                    let k = choose|k: int|
                        0 <= k < i && reopens(*state, diff.sink_changes@[k], id);
                    assert(reopens(*state, diff.sink_changes@[k], id));
                }
                if reopens(*state, c, id) {
                    assert(out@[out@.len() - 1] == id);
                }
                if out@.contains(id) && !before.contains(id) {
                    let j = choose|j: int| 0 <= j < out@.len() && out@[j] == id;
                    if j < before.len() {
                        assert(before[j] == id);
                    }
                    assert(reopens(*state, c, id));
                }
                if exists|k: int| 0 <= k < i + 1 && reopens(*state, diff.sink_changes@[k], id) {
                    let k = choose|k: int|
                        0 <= k < i + 1 && reopens(*state, diff.sink_changes@[k], id);
                    if k < i {
                        assert(before.contains(id));
                    }
                }
            }
        }
    }
    out
}

/// Whether a change makes it necessary to open the flow of a Sink anew.
pub open spec fn reopens(state: NmosState, c: StreamChange<DaemonSink>, id: u8) -> bool {
    match c {
        StreamChange::Added(d) | StreamChange::Changed(d) => d.id == id
            && state@.sinks.contains_key(id) && state@.sinks[id].flow && state@.sinks[id].channels
            != d.map@.len() as u32,
        StreamChange::Removed(_) => false,
    }
}

/// Brings the mirrors in step with what changed at the daemon. `reopened` are the Sinks whose flows
/// could be opened anew. What comes back is what has to be told to a registry, in this order.
pub fn apply_diff(
    state: &mut NmosState,
    diff: &DaemonDiff,
    version: (u64, u64),
    reopened: &Vec<u8>,
) -> (r: Vec<SyncStep>)
    requires
        old(state).wf(),
    ensures
        final(state).wf(),
        final(state).same_node(*old(state)),
        (final(state)@, steps(r@)) == synced(
            *old(state),
            diff.state.alsa_channels,
            changes_model(diff.sink_changes@),
            changes_model(diff.source_changes@),
            version,
            reopened@,
        ),
{
    let ghost start = *state;
    state.set_alsa_channels(diff.state.alsa_channels);
    let ghost m0 = state@;
    let mut work: Vec<SyncStep> = Vec::new();
    let ghost w0 = Seq::<StepModel>::empty();
    assert(steps(work@) =~= w0);
    let ghost sinks = changes_model(diff.sink_changes@);
    assert(sinks.take(0) =~= Seq::empty());
    for i in 0..diff.sink_changes.len()
        invariant
            state.wf(),
            state.same_node(start),
            sinks == changes_model(diff.sink_changes@),
            (state@, steps(work@)) == synced_sinks(
                start,
                m0,
                sinks.take(i as int),
                version,
                reopened@,
                w0,
            ),
    {
        assert(sinks.take(i + 1).drop_last() =~= sinks.take(i as int));
        let ghost before = *state;
        apply_sink_change(state, &diff.sink_changes[i], version, reopened, &mut work);
        proof {
            lemma_sink_step_same_node(
                start,
                before,
                before@,
                sinks[i as int],
                version,
                reopened@,
            );
        }
    }
    assert(sinks.take(sinks.len() as int) =~= sinks);
    let ghost m1 = state@;
    let ghost w1 = steps(work@);
    let ghost sources = changes_model(diff.source_changes@);
    assert(sources.take(0) =~= Seq::empty());
    for i in 0..diff.source_changes.len()
        invariant
            state.wf(),
            state.same_node(start),
            sources == changes_model(diff.source_changes@),
            (state@, steps(work@)) == synced_sources(start, m1, sources.take(i as int), version, w1),
    {
        assert(sources.take(i + 1).drop_last() =~= sources.take(i as int));
        let ghost before = *state;
        apply_source_change(state, &diff.source_changes[i], version, &mut work);
    }
    assert(sources.take(sources.len() as int) =~= sources);
    work
}

proof fn lemma_sink_step_same_node(
    a: NmosState,
    b: NmosState,
    m: NmosModel,
    c: StreamChange<SinkModel>,
    version: (u64, u64),
    reopened: Seq<u8>,
)
    requires
        b.same_node(a),
    ensures
        sink_step(a, m, c, version, reopened) == sink_step(b, m, c, version, reopened),
{
}

/// Whether the mirrors of Sinks are those of the daemon's Sinks: the same numbers, labels and
/// channels.
pub open spec fn mirrors_sinks(m: Map<u8, SinkEntryModel>, d: Map<u8, SinkModel>) -> bool {
    &&& m.dom() == d.dom()
    &&& forall|id: u8| #[trigger]
        d.contains_key(id) ==> m[id].daemon_id == id && m[id].label == d[id].name && m[id].map
            == d[id].map && m[id].channels == d[id].map.len() as u32
}

/// Whether the mirrors of Sources are those of the daemon's Sources.
pub open spec fn mirrors_sources(m: Map<u8, SourceEntryModel>, d: Map<u8, SourceModel>) -> bool {
    &&& m.dom() == d.dom()
    &&& forall|id: u8| #[trigger]
        d.contains_key(id) ==> m[id].daemon_id == id && m[id].label == d[id].name && m[id].map
            == d[id].map && m[id].channels == d[id].map.len() as u32
}

/// Applying what changed keeps the mirrors those of the daemon's streams.
pub proof fn law_mirrors_follow_the_daemon(
    state: NmosState,
    m: NmosModel,
    sinks: Map<u8, SinkModel>,
    sink_changes: Seq<StreamChange<SinkModel>>,
    sources: Map<u8, SourceModel>,
    source_changes: Seq<StreamChange<SourceModel>>,
    version: (u64, u64),
    reopened: Seq<u8>,
    before: Seq<StepModel>,
)
    requires
        mirrors_sinks(m.sinks, sinks),
        mirrors_sources(m.sources, sources),
    ensures
        mirrors_sinks(
            synced_sinks(state, m, sink_changes, version, reopened, before).0.sinks,
            after_changes(sinks, sink_changes, |d: SinkModel| d.id),
        ),
        mirrors_sources(
            synced_sources(state, m, source_changes, version, before).0.sources,
            after_changes(sources, source_changes, |d: SourceModel| d.id),
        ),
    decreases sink_changes.len() + source_changes.len(),
{
    if sink_changes.len() > 0 {
        law_mirrors_follow_the_daemon(
            state,
            m,
            sinks,
            sink_changes.drop_last(),
            sources,
            source_changes,
            version,
            reopened,
            before,
        );
        let n = synced_sinks(state, m, sink_changes.drop_last(), version, reopened, before).0;
        let d = after_changes(sinks, sink_changes.drop_last(), |d: SinkModel| d.id);
        let c = sink_changes.last();
        let now = synced_sink(n, c, version, reopened);
        let then = changed(d, c, |d: SinkModel| d.id);
        assert(now.sinks.dom() =~= then.dom());
    }
    if source_changes.len() > 0 {
        law_mirrors_follow_the_daemon(
            state,
            m,
            sinks,
            sink_changes,
            sources,
            source_changes.drop_last(),
            version,
            reopened,
            before,
        );
        let n = synced_sources(state, m, source_changes.drop_last(), version, before).0;
        let d = after_changes(sources, source_changes.drop_last(), |d: SourceModel| d.id);
        let c = source_changes.last();
        let now = synced_source(n, c, version);
        let then = changed(d, c, |d: SourceModel| d.id);
        assert(now.sources.dom() =~= then.dom());
    }
}

} // verus!
