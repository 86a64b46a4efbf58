//! Activations that survive a restart.
//!
//! They are kept by the numbers of the daemon's Sinks and Sources, from which the ids of the
//! resources are derived.

use vstd::prelude::*;

use crate::bridge::nmos::state::{
    activated_sink, activated_source, copy_option, copy_texts, leases_after, LeaseModel, NmosState,
    SinkEntry, SinkEntryModel, SourceEntry, SourceEntryModel,
};
use crate::json::option_view;
use crate::table::{lemma_distinct, lemma_from_map, lemma_in_map, Table};
use crate::text::texts;
use crate::uuid::{law_uuid_texts_differ, uuid_text};

verus! {

/// What is activated: the leases of senders, and what receivers read.
pub struct Activations {
    pub sinks: Table<u8, Vec<String>>,
    pub sources: Table<u8, SourceActivation>,
}

/// What a receiver reads.
#[derive(Clone, Debug, PartialEq)]
pub struct SourceActivation {
    pub sender_id: Option<String>,
    pub flow_id: String,
}

/// What a [`SourceActivation`] says.
pub struct SourceActivationModel {
    pub sender_id: Option<Seq<char>>,
    pub flow_id: Seq<char>,
}

impl View for SourceActivation {
    type V = SourceActivationModel;

    open spec fn view(&self) -> SourceActivationModel {
        SourceActivationModel { sender_id: option_view(self.sender_id), flow_id: self.flow_id@ }
    }
}

/// What [`Activations`] say.
pub struct ActivationsModel {
    pub sinks: Map<u8, Seq<Seq<char>>>,
    pub sources: Map<u8, SourceActivationModel>,
}

impl View for Activations {
    type V = ActivationsModel;

    open spec fn view(&self) -> ActivationsModel {
        ActivationsModel {
            sinks: self.sinks@.map_values(|v: Vec<String>| texts(v@)),
            sources: self.sources@.map_values(|a: SourceActivation| a@),
        }
    }
}

/// What a receiver reads, where it does.
pub open spec fn reading(e: SourceEntryModel) -> Option<SourceActivationModel> {
    match e.flow_id {
        Some(flow_id) => if e.active {
            Some(SourceActivationModel { sender_id: e.sender_id, flow_id })
        } else {
            None
        },
        None => None,
    }
}

/// The leases of the senders that have any.
pub open spec fn leased(m: Map<u8, SinkEntryModel>) -> Map<u8, Seq<Seq<char>>> {
    Map::new(
        |id: u8| m.contains_key(id) && m[id].leases.len() > 0,
        |id: u8| m[id].leases,
    )
}

/// What the receivers that read read.
pub open spec fn connected(m: Map<u8, SourceEntryModel>) -> Map<u8, SourceActivationModel> {
    Map::new(
        |id: u8| m.contains_key(id) && reading(m[id]) is Some,
        |id: u8| reading(m[id])->0,
    )
}

fn snapshot_sinks(t: &Table<u8, SinkEntry>) -> (r: Table<u8, Vec<String>>)
    requires
        t.wf(),
        crate::bridge::nmos::state::own_sinks(t.list()),
    ensures
        r.wf(),
        r@.map_values(|v: Vec<String>| texts(v@)) == leased(t@.map_values(|e: SinkEntry| e@)),
{
    let mut out: Table<u8, Vec<String>> = Table::new();
    let ghost list = t.list();
    for i in 0..t.len()
        invariant
            t.wf(),
            crate::bridge::nmos::state::own_sinks(list),
            list == t.list(),
            out.wf(),
            forall|id: u8| #[trigger]
                out@.contains_key(id) <==> exists|k: int|
                    0 <= k < i && list[k].0 == id && list[k].1.leases@.len() > 0,
            forall|k: int|
                0 <= k < i && (#[trigger] list[k]).1.leases@.len() > 0 ==> texts(
                    out@[list[k].0]@,
                ) == texts(list[k].1.leases@),
    {
        let e = t.value_at(i);
        assert(list[i as int].1.daemon_id == list[i as int].0);
        if e.leases.len() > 0 {
            out.insert(e.daemon_id, copy_texts(&e.leases));
        }
        proof {
            assert forall|k: int| 0 <= k < i + 1 && (#[trigger] list[k]).1.leases@.len() > 0 implies texts(
                out@[list[k].0]@,
            ) == texts(list[k].1.leases@) by {
                if k < i {
                    lemma_distinct(list, k, i as int);
                }
            }
        }
    }
    proof {
        let a = out@.map_values(|v: Vec<String>| texts(v@));
        let b = leased(t@.map_values(|e: SinkEntry| e@));
        assert forall|id: u8|
            #![trigger a.dom().contains(id)]
            #![trigger a[id]]
            a.dom().contains(id) == b.dom().contains(id) && (b.dom().contains(id) ==> a[id]
                == b[id]) by {
            if out@.contains_key(id) {
                let k = choose|k: int|
                    0 <= k < list.len() && list[k].0 == id && list[k].1.leases@.len() > 0;
                lemma_in_map(list, k);
                assert(texts(list[k].1.leases@).len() == list[k].1.leases@.len());
            }
            if t@.contains_key(id) {
                let k = lemma_from_map(list, id);
                assert(texts(list[k].1.leases@).len() == list[k].1.leases@.len());
            }
        }
        assert(a =~= b);
    }
    out
}

fn snapshot_sources(t: &Table<u8, SourceEntry>) -> (r: Table<u8, SourceActivation>)
    requires
        t.wf(),
        crate::bridge::nmos::state::own_sources(t.list()),
    ensures
        r.wf(),
        r@.map_values(|a: SourceActivation| a@) == connected(t@.map_values(|e: SourceEntry| e@)),
{
    let mut out: Table<u8, SourceActivation> = Table::new();
    let ghost list = t.list();
    for i in 0..t.len()
        invariant
            t.wf(),
            crate::bridge::nmos::state::own_sources(list),
            list == t.list(),
            out.wf(),
            forall|id: u8| #[trigger]
                out@.contains_key(id) <==> exists|k: int|
                    0 <= k < i && list[k].0 == id && reading(list[k].1@) is Some,
            forall|k: int|
                0 <= k < i && reading((#[trigger] list[k]).1@) is Some ==> Some(
                    out@[list[k].0]@,
                ) == reading(list[k].1@),
    {
        let e = t.value_at(i);
        assert(list[i as int].1.daemon_id == list[i as int].0);
        if e.active {
            if let Some(flow_id) = &e.flow_id {
                out.insert(
                    e.daemon_id,
                    SourceActivation {
                        sender_id: copy_option(&e.sender_id),
                        flow_id: flow_id.clone(),
                    },
                );
            }
        }
        proof {
            assert forall|k: int|
                0 <= k < i + 1 && reading((#[trigger] list[k]).1@) is Some implies Some(
                out@[list[k].0]@,
            ) == reading(list[k].1@) by {
                if k < i {
                    lemma_distinct(list, k, i as int);
                }
            }
        }
    }
    proof {
        let a = out@.map_values(|a: SourceActivation| a@);
        let b = connected(t@.map_values(|e: SourceEntry| e@));
        assert forall|id: u8|
            #![trigger a.dom().contains(id)]
            #![trigger a[id]]
            a.dom().contains(id) == b.dom().contains(id) && (b.dom().contains(id) ==> a[id]
                == b[id]) by {
            if out@.contains_key(id) {
                let k = choose|k: int|
                    0 <= k < list.len() && list[k].0 == id && reading(list[k].1@) is Some;
                lemma_in_map(list, k);
            }
            if t@.contains_key(id) {
                let k = lemma_from_map(list, id);
            }
        }
        assert(a =~= b);
    }
    out
}

impl Activations {
    /// Whether the tables stand in order.
    pub open spec fn wf(self) -> bool {
        self.sinks.wf() && self.sources.wf()
    }

    /// Nothing is activated.
    pub fn new() -> (r: Self)
        ensures
            r.wf(),
            r@ == (ActivationsModel { sinks: Map::empty(), sources: Map::empty() }),
    {
        let r = Activations { sinks: Table::new(), sources: Table::new() };
        assert(r@.sinks =~= Map::empty());
        assert(r@.sources =~= Map::empty());
        r
    }
}

/// What is activated now.
pub fn snapshot(state: &NmosState) -> (r: Activations)
    requires
        state.wf(),
    ensures
        r.wf(),
        r@ == (ActivationsModel {
            sinks: leased(state@.sinks),
            sources: connected(state@.sources),
        }),
{
    Activations {
        sinks: snapshot_sinks(&state.sinks),
        sources: snapshot_sources(&state.sources),
    }
}

/// One activation to be done again.
#[derive(Debug)]
pub enum RestoreStep {
    /// A lease of a sender.
    Lease { sender: String, lease: String },
    /// A connection of a receiver.
    Connect { receiver: String, sender_id: Option<String>, flow: String },
}

/// One activation to be done again, over the models.
pub enum RestoreModel {
    Lease { sender: Seq<char>, lease: Seq<char> },
    Connect { receiver: Seq<char>, sender_id: Option<Seq<char>>, flow: Seq<char> },
}

impl View for RestoreStep {
    type V = RestoreModel;

    open spec fn view(&self) -> RestoreModel {
        match *self {
            RestoreStep::Lease { sender, lease } => RestoreModel::Lease {
                sender: sender@,
                lease: lease@,
            },
            RestoreStep::Connect { receiver, sender_id, flow } => RestoreModel::Connect {
                receiver: receiver@,
                sender_id: option_view(sender_id),
                flow: flow@,
            },
        }
    }
}

/// What activations to be done again say.
pub open spec fn steps(s: Seq<RestoreStep>) -> Seq<RestoreModel> {
    s.map_values(|x: RestoreStep| x@)
}

fn put_step(out: &mut Vec<RestoreStep>, step: RestoreStep)
    ensures
        steps(final(out)@) == steps(old(out)@).push(step@),
{
    out.push(step);
    assert(steps(out@) =~= steps(old(out)@).push(step@));
}

/// The leases of one sender to be acquired again, in their order.
pub open spec fn lease_steps(sender: Seq<char>, leases: Seq<Seq<char>>) -> Seq<RestoreModel> {
    leases.map_values(|l: Seq<char>| RestoreModel::Lease { sender, lease: l })
}

/// The leases to be acquired again. A Sink that is gone is skipped.
pub open spec fn sink_steps(kept: Seq<(u8, Vec<String>)>, sinks: Map<u8, SinkEntry>) -> Seq<
    RestoreModel,
>
    decreases kept.len(),
{
    if kept.len() == 0 {
        Seq::empty()
    } else {
        let rest = sink_steps(kept.drop_last(), sinks);
        let (id, leases) = kept.last();
        if sinks.contains_key(id) {
            rest + lease_steps(uuid_text(sinks[id].sender_id.bits), texts(leases@))
        } else {
            rest
        }
    }
}

/// The connections to be made again. A Source that is gone is skipped.
pub open spec fn source_steps(kept: Seq<(u8, SourceActivation)>, sources: Map<u8, SourceEntry>) -> Seq<
    RestoreModel,
>
    decreases kept.len(),
{
    if kept.len() == 0 {
        Seq::empty()
    } else {
        let rest = source_steps(kept.drop_last(), sources);
        let (id, a) = kept.last();
        if sources.contains_key(id) {
            rest.push(
                RestoreModel::Connect {
                    receiver: uuid_text(sources[id].receiver_id.bits),
                    sender_id: a@.sender_id,
                    flow: a@.flow_id,
                },
            )
        } else {
            rest
        }
    }
}

/// The activations to be done again, each on its own: one that fails is skipped.
pub fn restore(state: &NmosState, kept: &Activations) -> (r: Vec<RestoreStep>)
    requires
        state.wf(),
    ensures
        steps(r@) == sink_steps(kept.sinks.list(), state.sinks@) + source_steps(
            kept.sources.list(),
            state.sources@,
        ),
{
    let mut out: Vec<RestoreStep> = Vec::new();
    let ghost all = kept.sinks.list();
    assert(all.take(0) =~= Seq::empty());
    assert(steps(out@) =~= Seq::empty());
    let n: usize = kept.sinks.len();
    for i in 0..n
        invariant
            n == all.len(),
            state.wf(),
            all == kept.sinks.list(),
            steps(out@) == sink_steps(all.take(i as int), state.sinks@),
    {
        assert(all.take(i + 1).drop_last() =~= all.take(i as int));
        if let Some(e) = state.sinks.get(kept.sinks.key_at(i)) {
            let ghost before = steps(out@);
            let leases = kept.sinks.value_at(i);
            let sender = e.sender_id.to_string();
            let ghost want = lease_steps(sender@, texts(leases@));
            assert(steps(out@) =~= before + want.take(0));
            for k in 0..leases.len()
                invariant
                    want == lease_steps(sender@, texts(leases@)),
                    steps(out@) == before + want.take(k as int),
            {
                put_step(
                    &mut out,
                    RestoreStep::Lease { sender: sender.clone(), lease: leases[k].clone() },
                );
                assert(steps(out@) =~= before + want.take(k + 1));
            }
            assert(want.take(want.len() as int) =~= want);
        }
    }
    assert(all.take(all.len() as int) =~= all);
    let ghost head = steps(out@);
    let ghost rest = kept.sources.list();
    assert(rest.take(0) =~= Seq::empty());
    assert(steps(out@) =~= head + source_steps(rest.take(0), state.sources@));
    let m: usize = kept.sources.len();
    for i in 0..m
        invariant
            m == rest.len(),
            state.wf(),
            rest == kept.sources.list(),
            steps(out@) == head + source_steps(rest.take(i as int), state.sources@),
    {
        assert(rest.take(i + 1).drop_last() =~= rest.take(i as int));
        if let Some(e) = state.sources.get(kept.sources.key_at(i)) {
            let a = kept.sources.value_at(i);
            put_step(
                &mut out,
                RestoreStep::Connect {
                    receiver: e.receiver_id.to_string(),
                    sender_id: copy_option(&a.sender_id),
                    flow: a.flow_id.clone(),
                },
            );
            assert(steps(out@) =~= head + source_steps(rest.take(i + 1), state.sources@));
        }
    }
    assert(rest.take(rest.len() as int) =~= rest);
    out
}

/// The leases that acquiring some, one after the other, leaves a sender with that had none.
pub open spec fn acquired(leases: Seq<Seq<char>>) -> Seq<Seq<char>>
    decreases leases.len(),
{
    if leases.len() == 0 {
        Seq::empty()
    } else {
        leases_after(acquired(leases.drop_last()), LeaseModel::Acquire(leases.last()))
    }
}

/// Acquiring the kept leases again gives back what was kept: no lease is held twice, so none is
/// lost.
pub proof fn law_leases_are_restored(leases: Seq<Seq<char>>)
    requires
        leases.no_duplicates(),
    ensures
        acquired(leases) == leases,
    decreases leases.len(),
{
    if leases.len() > 0 {
        let rest = leases.drop_last();
        assert(rest.no_duplicates()) by {
            assert forall|i: int, j: int| 0 <= i < rest.len() && 0 <= j < rest.len() && i != j implies rest[i]
                != rest[j] by {
                assert(leases[i] != leases[j]);
            }
        }
        law_leases_are_restored(rest);
        if rest.contains(leases.last()) {
            let k = choose|k: int| 0 <= k < rest.len() && rest[k] == leases.last();
            assert(leases[k] == leases[leases.len() - 1]);
        }
        assert(rest.push(leases.last()) =~= leases);
    } else {
        assert(leases =~= Seq::empty());
    }
}

/// What carrying out steps, one after the other, makes of a sender, where no other has its id and
/// every flow opens.
pub open spec fn leased_again(e: SinkEntryModel, s: Seq<RestoreModel>) -> SinkEntryModel
    decreases s.len(),
{
    if s.len() == 0 {
        e
    } else {
        let before = leased_again(e, s.drop_last());
        match s.last() {
            RestoreModel::Lease { sender, lease } => if sender == uuid_text(e.sender_id.bits) {
                activated_sink(before, LeaseModel::Acquire(lease))
            } else {
                before
            },
            RestoreModel::Connect { .. } => before,
        }
    }
}

/// What carrying out steps, one after the other, makes of a receiver, where no other has its id
/// and every flow opens.
pub open spec fn connected_again(e: SourceEntryModel, s: Seq<RestoreModel>) -> SourceEntryModel
    decreases s.len(),
{
    if s.len() == 0 {
        e
    } else {
        let before = connected_again(e, s.drop_last());
        match s.last() {
            RestoreModel::Connect { receiver, sender_id, flow } => if receiver == uuid_text(
                e.receiver_id.bits,
            ) {
                activated_source(before, true, sender_id, Some(flow))
            } else {
                before
            },
            RestoreModel::Lease { .. } => before,
        }
    }
}

/// The leases of one sender, acquired after other steps.
proof fn lemma_own_leases(
    e: SinkEntryModel,
    before: Seq<RestoreModel>,
    sender: Seq<char>,
    leases: Seq<Seq<char>>,
)
    ensures
        sender != uuid_text(e.sender_id.bits) ==> leased_again(
            e,
            before + lease_steps(sender, leases),
        ) == leased_again(e, before),
        sender == uuid_text(e.sender_id.bits) && leased_again(e, before).leases.len() == 0
            ==> leased_again(e, before + lease_steps(sender, leases)).leases == acquired(leases),
    decreases leases.len(),
{
    let all = lease_steps(sender, leases);
    if leases.len() == 0 {
        assert(before + all =~= before);
        assert(leased_again(e, before).leases.len() == 0 ==> leased_again(e, before).leases
            =~= Seq::empty());
    } else {
        lemma_own_leases(e, before, sender, leases.drop_last());
        let rest = lease_steps(sender, leases.drop_last());
        assert((before + all).drop_last() =~= before + rest);
        assert((before + all).last() == all.last());
    }
}

proof fn lemma_sinks_leased_again(
    e: SinkEntryModel,
    kept: Seq<(u8, Vec<String>)>,
    sinks: Map<u8, SinkEntry>,
    id: u8,
)
    requires
        sinks.contains_key(id),
        e.sender_id == sinks[id].sender_id,
        e.leases.len() == 0,
        forall|k: u8| #[trigger]
            sinks.contains_key(k) && k != id ==> sinks[k].sender_id != sinks[id].sender_id,
        forall|i: int, j: int| 0 <= i < j < kept.len() ==> (#[trigger] kept[i]).0 != (
        #[trigger] kept[j]).0,
    ensures
        (forall|i: int| 0 <= i < kept.len() ==> (#[trigger] kept[i]).0 != id) ==> leased_again(
            e,
            sink_steps(kept, sinks),
        ) == e,
        forall|i: int|
            0 <= i < kept.len() && (#[trigger] kept[i]).0 == id ==> leased_again(
                e,
                sink_steps(kept, sinks),
            ).leases == acquired(texts(kept[i].1@)),
    decreases kept.len(),
{
    if kept.len() > 0 {
        let rest = kept.drop_last();
        let n = kept.len() - 1;
        assert forall|i: int, j: int| 0 <= i < j < rest.len() implies (#[trigger] rest[i]).0 != (
        #[trigger] rest[j]).0 by {
            assert(kept[i].0 != kept[j].0);
        }
        lemma_sinks_leased_again(e, rest, sinks, id);
        let (k, leases) = kept.last();
        assert(kept[n] == kept.last());
        if sinks.contains_key(k) {
            let sender = uuid_text(sinks[k].sender_id.bits);
            lemma_own_leases(e, sink_steps(rest, sinks), sender, texts(leases@));
            if k != id {
                if sender == uuid_text(sinks[id].sender_id.bits) {
                    law_uuid_texts_differ(sinks[k].sender_id.bits, sinks[id].sender_id.bits);
                }
            }
        }
        if k == id {
            assert forall|i: int| 0 <= i < rest.len() implies (#[trigger] rest[i]).0 != id by {
                assert(kept[i].0 != kept[n].0);
            }
        }
        assert forall|i: int| 0 <= i < kept.len() && (#[trigger] kept[i]).0 == id implies leased_again(
            e,
            sink_steps(kept, sinks),
        ).leases == acquired(texts(kept[i].1@)) by {
            if i < n {
                assert(rest[i] == kept[i]);
                assert(kept[i].0 != kept[n].0);
            }
        }
        if forall|i: int| 0 <= i < kept.len() ==> (#[trigger] kept[i]).0 != id {
            assert forall|i: int| 0 <= i < rest.len() implies (#[trigger] rest[i]).0 != id by {
                assert(kept[i].0 != id);
            }
        }
    }
}

proof fn lemma_sources_connected_again(
    e: SourceEntryModel,
    kept: Seq<(u8, SourceActivation)>,
    sources: Map<u8, SourceEntry>,
    id: u8,
)
    requires
        sources.contains_key(id),
        e.receiver_id == sources[id].receiver_id,
        forall|k: u8| #[trigger]
            sources.contains_key(k) && k != id ==> sources[k].receiver_id
                != sources[id].receiver_id,
        forall|i: int, j: int| 0 <= i < j < kept.len() ==> (#[trigger] kept[i]).0 != (
        #[trigger] kept[j]).0,
    ensures
        (forall|i: int| 0 <= i < kept.len() ==> (#[trigger] kept[i]).0 != id) ==> connected_again(
            e,
            source_steps(kept, sources),
        ) == e,
        forall|i: int|
            0 <= i < kept.len() && (#[trigger] kept[i]).0 == id ==> reading(
                connected_again(e, source_steps(kept, sources)),
            ) == Some(kept[i].1@),
    decreases kept.len(),
{
    if kept.len() > 0 {
        let rest = kept.drop_last();
        let n = kept.len() - 1;
        assert forall|i: int, j: int| 0 <= i < j < rest.len() implies (#[trigger] rest[i]).0 != (
        #[trigger] rest[j]).0 by {
            assert(kept[i].0 != kept[j].0);
        }
        lemma_sources_connected_again(e, rest, sources, id);
        let k = kept.last().0;
        assert(kept[n] == kept.last());
        if sources.contains_key(k) {
            let all = source_steps(kept, sources);
            assert(all.drop_last() =~= source_steps(rest, sources));
            if k != id {
                let (a, b) = (sources[k].receiver_id.bits, sources[id].receiver_id.bits);
                if uuid_text(a) == uuid_text(b) {
                    law_uuid_texts_differ(a, b);
                }
            }
        }
        assert forall|i: int| 0 <= i < kept.len() && (#[trigger] kept[i]).0 == id implies reading(
            connected_again(e, source_steps(kept, sources)),
        ) == Some(kept[i].1@) by {
            if i < n {
                assert(rest[i] == kept[i]);
                assert(kept[i].0 != kept[n].0);
            }
        }
        if forall|i: int| 0 <= i < kept.len() ==> (#[trigger] kept[i]).0 != id {
            assert forall|i: int| 0 <= i < rest.len() implies (#[trigger] rest[i]).0 != id by {
                assert(kept[i].0 != id);
            }
        }
    }
}

/// Carrying out what a restart calls for gives every sender that had no lease yet the leases that
/// were kept for it, and leaves one for which none were kept alone.
pub proof fn law_senders_are_restored(state: NmosState, kept: Activations, id: u8)
    requires
        state.wf(),
        kept.wf(),
        state@.sinks.contains_key(id),
        state@.sinks[id].leases.len() == 0,
        forall|k: u8| #[trigger]
            state.sinks@.contains_key(k) && k != id ==> state.sinks@[k].sender_id
                != state.sinks@[id].sender_id,
        kept@.sinks.contains_key(id) ==> kept@.sinks[id].no_duplicates(),
    ensures
        ({
            let now = leased_again(
                state@.sinks[id],
                sink_steps(kept.sinks.list(), state.sinks@),
            );
            if kept@.sinks.contains_key(id) {
                now.leases == kept@.sinks[id]
            } else {
                now == state@.sinks[id]
            }
        }),
{
    let list = kept.sinks.list();
    assert(state.sinks@.contains_key(id));
    assert(state@.sinks[id] == state.sinks@[id]@);
    assert forall|i: int, j: int| 0 <= i < j < list.len() implies (#[trigger] list[i]).0 != (
    #[trigger] list[j]).0 by {
        lemma_distinct(list, i, j);
    }
    lemma_sinks_leased_again(state@.sinks[id], list, state.sinks@, id);
    if kept@.sinks.contains_key(id) {
        assert(kept.sinks@.contains_key(id));
        let i = lemma_from_map(list, id);
        assert(kept@.sinks[id] == texts(kept.sinks@[id]@));
        law_leases_are_restored(kept@.sinks[id]);
    } else {
        assert forall|i: int| 0 <= i < list.len() implies (#[trigger] list[i]).0 != id by {
            lemma_in_map(list, i);
        }
    }
}

/// Carrying out what a restart calls for lets every receiver for which a flow was kept read that
/// flow again, from the sender that was kept, and leaves every other receiver alone.
pub proof fn law_receivers_are_restored(state: NmosState, kept: Activations, id: u8)
    requires
        state.wf(),
        kept.wf(),
        state@.sources.contains_key(id),
        forall|k: u8| #[trigger]
            state.sources@.contains_key(k) && k != id ==> state.sources@[k].receiver_id
                != state.sources@[id].receiver_id,
    ensures
        ({
            let now = connected_again(
                state@.sources[id],
                source_steps(kept.sources.list(), state.sources@),
            );
            if kept@.sources.contains_key(id) {
                reading(now) == Some(kept@.sources[id])
            } else {
                now == state@.sources[id]
            }
        }),
{
    let list = kept.sources.list();
    assert(state.sources@.contains_key(id));
    assert(state@.sources[id] == state.sources@[id]@);
    assert forall|i: int, j: int| 0 <= i < j < list.len() implies (#[trigger] list[i]).0 != (
    #[trigger] list[j]).0 by {
        lemma_distinct(list, i, j);
    }
    lemma_sources_connected_again(state@.sources[id], list, state.sources@, id);
    if kept@.sources.contains_key(id) {
        assert(kept.sources@.contains_key(id));
        let i = lemma_from_map(list, id);
        assert(kept@.sources[id] == kept.sources@[id]@);
    } else {
        assert forall|i: int| 0 <= i < list.len() implies (#[trigger] list[i]).0 != id by {
            lemma_in_map(list, i);
        }
    }
}

/// What is kept over a restart: the leases of the senders that have any, and of the receivers that
/// are active and read a flow, that flow and the sender. Nothing else is kept.
pub proof fn law_what_is_kept(
    sinks: Map<u8, SinkEntryModel>,
    sources: Map<u8, SourceEntryModel>,
    id: u8,
)
    ensures
        leased(sinks).contains_key(id) <==> sinks.contains_key(id) && exists|x: Seq<char>| #[trigger]
            sinks[id].leases.contains(x),
        leased(sinks).contains_key(id) ==> leased(sinks)[id] == sinks[id].leases,
        connected(sources).contains_key(id) <==> sources.contains_key(id) && sources[id].active
            && sources[id].flow_id is Some,
        connected(sources).contains_key(id) ==> Some(connected(sources)[id].flow_id)
            == sources[id].flow_id && connected(sources)[id].sender_id == sources[id].sender_id,
{
    if sinks[id].leases.len() > 0 {
        assert(sinks[id].leases.contains(sinks[id].leases[0]));
    }
}

} // verus!
