//! What holds of the senders and receivers of the console, and of the senders that it discovers.

use vstd::prelude::*;
use vstd::string::*;

use crate::bridge::nmos::mirrors::lemma_resource_keys;
use crate::console::nmos::discovery::{
    arrived, audio_flow, candidate, candidates, departed, flow_channels, Candidate, CandidateModel,
};
use crate::console::nmos::server::{
    output_flow, output_sender, output_source, receiver_at, receiver_plan, receiver_staged_doc,
    reconnected, recorded_receiver, sender_at, sender_staged_doc, ReceiverPlanModel,
};
use crate::console::nmos::NmosState;
use crate::console::patch::{InputGrid, InputGridEntry, OutputGrid, OutputGridEntry};
use crate::json::{lemma_field_empty, lemma_field_with, option_view, Doc};
use crate::search::lemma_first_meets;
use crate::uuid::uuid_text;

verus! {

/// A sender or a receiver is found by its own id, and where none is found, none has the id.
pub proof fn law_grid_entries_are_found_by_their_ids(
    state: NmosState,
    inputs: InputGrid,
    outputs: OutputGrid,
    id: Seq<char>,
    k: int,
)
    ensures
        match receiver_at(inputs, id) {
            Some(i) => 0 <= i < inputs.entries.list().len() && uuid_text(
                inputs.entries.list()[i].1.receiver_id.bits,
            ) == id,
            None => 0 <= k < inputs.entries.list().len() ==> uuid_text(
                inputs.entries.list()[k].1.receiver_id.bits,
            ) != id,
        },
        match sender_at(state, outputs, id) {
            Some(i) => {
                let e = outputs.entries.list()[i].1;
                &&& 0 <= i < outputs.entries.list().len()
                &&& state.output_ids@.contains_key(e.id@)
                &&& uuid_text(state.output_ids@[e.id@].sender_id.bits) == id
            },
            None => {
                let e = outputs.entries.list()[k].1;
                0 <= k < outputs.entries.list().len() && state.output_ids@.contains_key(e.id@)
                    ==> uuid_text(state.output_ids@[e.id@].sender_id.bits) != id
            },
        },
{
    lemma_first_meets(
        inputs.entries.list(),
        |e: (String, InputGridEntry)| uuid_text(e.1.receiver_id.bits) == id,
    );
    lemma_first_meets(
        outputs.entries.list(),
        |e: (String, OutputGridEntry)|
            crate::console::nmos::server::has_sender(state, id, e),
    );
}

/// What a request to a receiver of the console leads to. `master_enable` says whether it connects;
/// without it, naming a sender does. A sender of the console itself is connected to with its own
/// flow; any other is looked up; connecting to none is refused.
pub proof fn law_what_a_request_leads_to(
    state: NmosState,
    inputs: InputGrid,
    outputs: OutputGrid,
    id: Seq<char>,
    body: Doc,
)
    ensures
        ({
            let plan = receiver_plan(state, inputs, outputs, id, body);
            let sender = match body.field("sender_id"@) {
                Some(Doc::Text(s)) => Some(s),
                _ => None,
            };
            let connect = match body.field("master_enable"@) {
                Some(Doc::Bool(b)) => b,
                _ => sender is Some,
            };
            if receiver_at(inputs, id) is None {
                plan matches ReceiverPlanModel::Answer((code, _)) && code == 404
            } else if !connect {
                plan is Disconnect
            } else {
                match sender {
                    None => plan matches ReceiverPlanModel::Answer((code, _)) && code == 400,
                    Some(s) => match sender_at(state, outputs, s) {
                        Some(i) => plan == (ReceiverPlanModel::Open {
                            sender_id: s,
                            flow_id: uuid_text(outputs.entries.list()[i].1.flow_id.bits),
                        }),
                        None => plan == (ReceiverPlanModel::Resolve { sender_id: s }),
                    },
                }
            }
        }),
{
}

/// A connection changes what an entry is connected to, and nothing else of it.
pub proof fn law_a_connection_changes_nothing_else(
    now: InputGridEntry,
    was: InputGridEntry,
    connected: bool,
    flow_id: Option<Seq<char>>,
    sender_id: Option<Seq<char>>,
)
    requires
        reconnected(now, was, connected, flow_id, sender_id),
    ensures
        now.connected == connected,
        option_view(now.flow_id) == flow_id,
        option_view(now.subscribed_sender_id) == sender_id,
        now.id@ == was.id@,
        now.label@ == was.label@,
        now.channels == was.channels,
        now.receiver_id == was.receiver_id,
{
}

/// A request records the receiver that it names, forgets it where it names none, and leaves it where
/// it says nothing of it.
pub proof fn law_a_sender_records_its_receiver(was: Option<Seq<char>>, body: Doc)
    ensures
        match body.field("receiver_id"@) {
            Some(Doc::Text(r)) => recorded_receiver(was, body) == Some(r),
            Some(_) => recorded_receiver(was, body) is None,
            None => recorded_receiver(was, body) == was,
        },
{
}

proof fn lemma_staged_names()
    ensures
        "receiver_id"@ != "master_enable"@ && "receiver_id"@ != "activation"@,
        "sender_id"@ != "master_enable"@ && "sender_id"@ != "activation"@,
{
    reveal_strlit("receiver_id");
    reveal_strlit("sender_id");
    reveal_strlit("master_enable");
    reveal_strlit("activation");
    assert("receiver_id"@.len() == 11 && "sender_id"@.len() == 9 && "master_enable"@.len() == 13
        && "activation"@.len() == 10);
}

/// What is staged shows the connection: a receiver whether and to whom it is connected, a sender
/// for whom it sends, which it always does.
pub proof fn law_what_is_staged_shows_the_connection(input: InputGridEntry, output: OutputGridEntry)
    ensures
        ({
            let d = receiver_staged_doc(input);
            &&& d.field("master_enable"@) == Some(Doc::Bool(input.connected))
            &&& d.field("sender_id"@) == Some(
                match option_view(input.subscribed_sender_id) {
                    Some(s) => Doc::Text(s),
                    None => Doc::Null,
                },
            )
        }),
        ({
            let d = sender_staged_doc(output);
            &&& d.field("master_enable"@) == Some(Doc::Bool(true))
            &&& d.field("receiver_id"@) == Some(
                match option_view(output.receiver_id) {
                    Some(s) => Doc::Text(s),
                    None => Doc::Null,
                },
            )
        }),
{
    broadcast use {lemma_field_with, lemma_field_empty};

    lemma_staged_names();
}

/// What is registered of an output hangs together: the flow is the entry's own and that of the
/// source, the sender that of the flow, and all have the entry's label.
pub proof fn law_an_output_hangs_together(state: NmosState, e: OutputGridEntry)
    requires
        state.output_ids@.contains_key(e.id@),
    ensures
        ({
            let ids = state.output_ids@[e.id@];
            let source = output_source(state, e);
            let flow = output_flow(state, e);
            let sender = output_sender(state, e);
            &&& source matches Some(d) && d.field("id"@) == Some(
                Doc::Text(uuid_text(ids.source_id.bits)),
            ) && d.field("label"@) == Some(Doc::Text(e.label@))
            &&& flow matches Some(d) && d.field("id"@) == Some(
                Doc::Text(uuid_text(e.flow_id.bits)),
            ) && d.field("source_id"@) == Some(Doc::Text(uuid_text(ids.source_id.bits)))
                && d.field("label"@) == Some(Doc::Text(e.label@))
            &&& sender matches Some(d) && d.field("id"@) == Some(
                Doc::Text(uuid_text(ids.sender_id.bits)),
            ) && d.field("flow_id"@) == Some(Doc::Text(uuid_text(e.flow_id.bits))) && d.field(
                "label"@,
            ) == Some(Doc::Text(e.label@))
        }),
{
    broadcast use {lemma_field_with, lemma_field_empty};

    lemma_resource_keys();
}

/// What is an audio flow: it says so, and lists its channels.
pub proof fn law_what_is_an_audio_flow(d: Doc)
    ensures
        audio_flow(d) matches Some((id, n)) ==> {
            &&& d.field("id"@) == Some(Doc::Text(id))
            &&& d.field("format"@) == Some(Doc::Text("urn:x-nmos:format:audio"@))
            &&& d.field("channels"@) matches Some(Doc::Array(items)) && n == items.len() as usize
        },
{
}

proof fn lemma_flow_from(flows: Seq<Doc>, id: Seq<char>)
    ensures
        flow_channels(flows).contains_key(id) <==> exists|i: int|
            0 <= i < flows.len() && (audio_flow(#[trigger] flows[i]) matches Some((x, _)) && x
                == id),
    decreases flows.len(),
{
    if flows.len() > 0 {
        let rest = flows.drop_last();
        lemma_flow_from(rest, id);
        assert(forall|j: int| 0 <= j < rest.len() ==> rest[j] == flows[j]);
        assert(flows[flows.len() - 1] == flows.last());
        if exists|i: int|
            0 <= i < flows.len() && (audio_flow(#[trigger] flows[i]) matches Some((x, _)) && x
                == id) {
            let i = choose|i: int|
                0 <= i < flows.len() && (audio_flow(#[trigger] flows[i]) matches Some((x, _)) && x
                    == id);
            if i < rest.len() {
                assert(rest[i] == flows[i]);
            }
        }
    }
}

/// A flow is known exactly where it is listed as an audio flow.
pub proof fn law_audio_flows_are_known(flows: Seq<Doc>, id: Seq<char>)
    ensures
        flow_channels(flows).contains_key(id) <==> exists|i: int|
            0 <= i < flows.len() && (audio_flow(#[trigger] flows[i]) matches Some((x, _)) && x
                == id),
{
    lemma_flow_from(flows, id);
}

/// A sender is a candidate exactly where it sends over shared memory, is of another device and
/// sends an audio flow that is known. It is taken with its label, or its id where it has none, and
/// with the channels of its flow.
pub proof fn law_what_is_a_candidate(
    d: Doc,
    channels: Map<Seq<char>, usize>,
    own_device: Seq<char>,
)
    ensures
        candidate(d, channels, own_device) is Some <==> {
            &&& d.field("id"@) matches Some(Doc::Text(_))
            &&& d.field("transport"@) == Some(Doc::Text("urn:x-nmos:transport:mxl"@))
            &&& d.field("device_id"@) != Some(Doc::Text(own_device))
            &&& d.field("flow_id"@) matches Some(Doc::Text(f)) && channels.contains_key(f)
        },
        candidate(d, channels, own_device) matches Some((id, c)) ==> {
            &&& d.field("id"@) == Some(Doc::Text(id))
            &&& d.field("flow_id"@) == Some(Doc::Text(c.flow_id))
            &&& c.channels == channels[c.flow_id]
            &&& c.label == (match d.field("label"@) {
                Some(Doc::Text(l)) => l,
                _ => id,
            })
        },
{
}

/// Whether a sender is a candidate under an id.
pub open spec fn is_candidate(
    d: Doc,
    channels: Map<Seq<char>, usize>,
    own_device: Seq<char>,
    id: Seq<char>,
) -> bool {
    candidate(d, channels, own_device) matches Some((x, _)) && x == id
}

/// Every candidate among the senders is found, and nothing else.
pub proof fn law_candidates_are_found(
    senders: Seq<Doc>,
    channels: Map<Seq<char>, usize>,
    own_device: Seq<char>,
    id: Seq<char>,
)
    ensures
        candidates(senders, channels, own_device).contains_key(id) <==> exists|i: int|
            0 <= i < senders.len() && is_candidate(
                #[trigger] senders[i],
                channels,
                own_device,
                id,
            ),
    decreases senders.len(),
{
    if senders.len() > 0 {
        let rest = senders.drop_last();
        law_candidates_are_found(rest, channels, own_device, id);
        assert(forall|j: int| 0 <= j < rest.len() ==> rest[j] == senders[j]);
        assert(senders[senders.len() - 1] == senders.last());
        if exists|i: int|
            0 <= i < senders.len() && is_candidate(
                #[trigger] senders[i],
                channels,
                own_device,
                id,
            ) {
            let i = choose|i: int|
                0 <= i < senders.len() && is_candidate(
                    #[trigger] senders[i],
                    channels,
                    own_device,
                    id,
                );
            if i < rest.len() {
                assert(is_candidate(rest[i], channels, own_device, id));
            }
        }
    }
}

/// What departed was known and is not there any more.
pub proof fn law_what_departed(
    known: Seq<(String, Candidate)>,
    now: Map<Seq<char>, CandidateModel>,
    id: Seq<char>,
)
    ensures
        departed(known, now).contains(id) <==> !now.contains_key(id) && exists|i: int|
            0 <= i < known.len() && (#[trigger] known[i]).0@ == id,
    decreases known.len(),
{
    let all = departed(known, now);
    if known.len() > 0 {
        let rest = known.drop_last();
        let before = departed(rest, now);
        law_what_departed(rest, now, id);
        assert(forall|j: int| 0 <= j < rest.len() ==> rest[j] == known[j]);
        assert(known[known.len() - 1] == known.last());
        if before.contains(id) {
            let j = choose|j: int| 0 <= j < before.len() && before[j] == id;
            assert(all[j] == id);
        }
        if all.contains(id) {
            let j = choose|j: int| 0 <= j < all.len() && all[j] == id;
            if j < before.len() {
                assert(before[j] == id);
            }
        }
        if known.last().0@ == id && !now.contains_key(id) {
            assert(all[before.len() as int] == id);
        }
        if exists|i: int| 0 <= i < known.len() && (#[trigger] known[i]).0@ == id {
            let i = choose|i: int| 0 <= i < known.len() && (#[trigger] known[i]).0@ == id;
            if i < rest.len() {
                assert(rest[i].0@ == id);
            }
        }
    } else {
        assert(all =~= Seq::empty());
    }
}

/// What arrived is there now, and was not known, or said something else.
pub proof fn law_what_arrived(
    known: Map<Seq<char>, CandidateModel>,
    now: Seq<(String, Candidate)>,
    id: Seq<char>,
)
    ensures
        arrived(known, now).contains(id) <==> exists|i: int|
            0 <= i < now.len() && (#[trigger] now[i]).0@ == id && !(known.contains_key(id)
                && known[id] == now[i].1@),
    decreases now.len(),
{
    let all = arrived(known, now);
    if now.len() > 0 {
        let rest = now.drop_last();
        let before = arrived(known, rest);
        law_what_arrived(known, rest, id);
        assert(forall|j: int| 0 <= j < rest.len() ==> rest[j] == now[j]);
        assert(now[now.len() - 1] == now.last());
        if before.contains(id) {
            let j = choose|j: int| 0 <= j < before.len() && before[j] == id;
            assert(all[j] == id);
        }
        if all.contains(id) {
            let j = choose|j: int| 0 <= j < all.len() && all[j] == id;
            if j < before.len() {
                assert(before[j] == id);
            }
        }
        if all.len() > before.len() {
            assert(all[before.len() as int] == now.last().0@);
        }
        if exists|i: int|
            0 <= i < now.len() && (#[trigger] now[i]).0@ == id && !(known.contains_key(id)
                && known[id] == now[i].1@) {
            let i = choose|i: int|
                0 <= i < now.len() && (#[trigger] now[i]).0@ == id && !(known.contains_key(id)
                    && known[id] == now[i].1@);
            if i < rest.len() {
                assert(rest[i].0@ == id);
            }
        }
    } else {
        assert(all =~= Seq::empty());
    }
}

} // verus!
