//! The answers of the mixer's node and connection interfaces.

use vstd::prelude::*;
use vstd::string::*;

use crate::console::engine::{MixerModel, MixerState};
use crate::console::nmos::resources::{
    controls_doc, device_facts, device_json, flow_facts, flow_json, node_facts, node_json,
    receiver_doc, receiver_json, sender_doc, sender_json, source_facts, source_json,
};
use crate::console::nmos::{NmosState, OutputIds};
use crate::console::patch::{InputGrid, InputGridEntry, OutputGrid, OutputGridEntry};
use crate::json::{docs, no_items, option_view, put_item, text_or_null, Doc, Json};
use crate::nmos::{
    bad_request, device_doc, error_reply, fail, flow_doc, list_of, no_activation,
    no_activation_json, no_file, no_file_json, node_doc, not_found, ok, places_doc, places_json,
    source_doc, version_text, Reply, TRANSPORT_TYPE,
};
use crate::search::{find_first, first_index, lemma_first_meets};
use crate::text::{dec, decimal, same};
use crate::uuid::{uuid_text, Uuid};

verus! {

/// The senders of the node, in the order of the output ids.
pub open spec fn sender_list(state: NmosState) -> Seq<Uuid> {
    state.output_ids.list().map_values(|e: (String, OutputIds)| e.1.sender_id)
}

/// The receivers of the node, in the order of the input ids.
pub open spec fn receiver_list(grid: InputGrid) -> Seq<Uuid> {
    grid.entries.list().map_values(|e: (String, InputGridEntry)| e.1.receiver_id)
}

/// The senders of the node.
pub fn all_sender_ids(state: &NmosState) -> (r: Vec<Uuid>)
    ensures
        r@ == sender_list(*state),
{
    let mut out: Vec<Uuid> = Vec::new();
    let n: usize = state.output_ids.len();
    for i in 0..n
        invariant
            n == state.output_ids.list().len(),
            out@ == sender_list(*state).take(i as int),
    {
        out.push(state.output_ids.value_at(i).sender_id);
        assert(out@ =~= sender_list(*state).take(i + 1));
    }
    assert(out@ =~= sender_list(*state));
    out
}

/// The receivers of the node.
pub fn all_receiver_ids(grid: &InputGrid) -> (r: Vec<Uuid>)
    ensures
        r@ == receiver_list(*grid),
{
    let mut out: Vec<Uuid> = Vec::new();
    let n: usize = grid.entries.len();
    for i in 0..n
        invariant
            n == grid.entries.list().len(),
            out@ == receiver_list(*grid).take(i as int),
    {
        out.push(grid.entries.value_at(i).receiver_id);
        assert(out@ =~= receiver_list(*grid).take(i + 1));
    }
    assert(out@ =~= receiver_list(*grid));
    out
}

/// The node's own document.
pub fn node_self(state: &NmosState, hostname: &str) -> (r: Reply)
    ensures
        r@ == (
            200u16,
            node_doc(
                node_facts(
                    state.cfg,
                    state.node_id,
                    state.cfg.ip_addr@,
                    version_text(state.node_version),
                    hostname@,
                ),
            ),
        ),
{
    ok(
        node_json(
            &state.cfg,
            &state.node_id,
            state.cfg.ip_addr.as_str(),
            state.version().as_str(),
            hostname,
        ),
    )
}

/// The document of the node's device.
pub open spec fn own_device(state: NmosState, grid: InputGrid) -> Doc {
    device_doc(
        device_facts(
            state.cfg,
            state.device_id,
            state.node_id,
            version_text(state.node_version),
            sender_list(state),
            receiver_list(grid),
        ),
        controls_doc(state.cfg.ip_addr@, state.cfg.ws_port),
    )
}

/// The document of the node's device.
pub fn own_device_json(state: &NmosState, grid: &InputGrid) -> (r: Json)
    ensures
        r@ == own_device(*state, *grid),
{
    let senders = all_sender_ids(state);
    let receivers = all_receiver_ids(grid);
    device_json(
        &state.cfg,
        &state.device_id,
        &state.node_id,
        state.cfg.ip_addr.as_str(),
        state.version().as_str(),
        senders.as_slice(),
        receivers.as_slice(),
    )
}

/// The list of devices: the one.
pub fn devices_list(state: &NmosState, grid: &InputGrid) -> (r: Reply)
    ensures
        r@ == (200u16, Doc::one(own_device(*state, *grid))),
{
    ok(Json::one(own_device_json(state, grid)))
}

/// The device with an id.
pub fn device_get(state: &NmosState, grid: &InputGrid, id: &str) -> (r: Reply)
    ensures
        r@ == (if id@ == uuid_text(state.device_id.bits) {
            (200u16, own_device(*state, *grid))
        } else {
            error_reply(404, "Not Found"@)
        }),
{
    if !same(id, state.device_id.to_string().as_str()) {
        return not_found();
    }
    ok(own_device_json(state, grid))
}

/// The document of the source of an output, where its ids are known.
pub open spec fn output_source(state: NmosState, e: OutputGridEntry) -> Option<Doc> {
    if state.output_ids@.contains_key(e.id@) {
        Some(
            source_doc(
                source_facts(
                    state.cfg,
                    state.device_id,
                    e,
                    state.output_ids@[e.id@].source_id,
                    version_text(state.node_version),
                ),
            ),
        )
    } else {
        None
    }
}

/// The document of the flow of an output, where its ids are known.
pub open spec fn output_flow(state: NmosState, e: OutputGridEntry) -> Option<Doc> {
    if state.output_ids@.contains_key(e.id@) {
        Some(
            flow_doc(
                flow_facts(
                    state.cfg,
                    state.device_id,
                    e,
                    e.flow_id,
                    version_text(state.node_version),
                ),
                state.output_ids@[e.id@].source_id,
            ),
        )
    } else {
        None
    }
}

/// The document of the sender of an output, where its ids are known.
pub open spec fn output_sender(state: NmosState, e: OutputGridEntry) -> Option<Doc> {
    if state.output_ids@.contains_key(e.id@) {
        Some(
            sender_doc(
                state.cfg,
                state.cfg.ip_addr@,
                state.device_id,
                e,
                state.output_ids@[e.id@].sender_id,
                e.flow_id,
                version_text(state.node_version),
            ),
        )
    } else {
        None
    }
}

/// Documents as an option holds them.
pub open spec fn option_doc(r: Option<Json>) -> Option<Doc> {
    match r {
        Some(j) => Some(j@),
        None => None,
    }
}

/// The document of the source of an output, where its ids are known.
pub fn source_json_for(state: &NmosState, e: &OutputGridEntry) -> (r: Option<Json>)
    requires
        state.wf(),
    ensures
        option_doc(r) == output_source(*state, *e),
{
    match state.output_ids.get(&e.id) {
        Some(ids) => Some(
            source_json(
                &state.cfg,
                &state.device_id,
                e,
                &ids.source_id,
                state.version().as_str(),
            ),
        ),
        None => None,
    }
}

/// The document of the flow of an output, where its ids are known.
pub fn flow_json_for(state: &NmosState, e: &OutputGridEntry) -> (r: Option<Json>)
    requires
        state.wf(),
    ensures
        option_doc(r) == output_flow(*state, *e),
{
    match state.output_ids.get(&e.id) {
        Some(ids) => Some(
            flow_json(
                &state.cfg,
                &state.device_id,
                e,
                &ids.source_id,
                &e.flow_id,
                state.version().as_str(),
            ),
        ),
        None => None,
    }
}

/// The document of the sender of an output, where its ids are known.
pub fn sender_json_for(state: &NmosState, e: &OutputGridEntry) -> (r: Option<Json>)
    requires
        state.wf(),
    ensures
        option_doc(r) == output_sender(*state, *e),
{
    match state.output_ids.get(&e.id) {
        Some(ids) => Some(
            sender_json(
                &state.cfg,
                state.cfg.ip_addr.as_str(),
                &state.device_id,
                e,
                &ids.sender_id,
                &e.flow_id,
                state.version().as_str(),
            ),
        ),
        None => None,
    }
}

/// The documents that a function gives for the entries of an output grid.
pub open spec fn gathered(
    s: Seq<(String, OutputGridEntry)>,
    f: spec_fn(OutputGridEntry) -> Option<Doc>,
) -> Seq<Doc>
    decreases s.len(),
{
    if s.len() == 0 {
        Seq::empty()
    } else {
        match f(s.last().1) {
            Some(d) => gathered(s.drop_last(), f).push(d),
            None => gathered(s.drop_last(), f),
        }
    }
}

fn gather<F: Fn(&OutputGridEntry) -> Option<Json>>(
    outputs: &OutputGrid,
    make: F,
    Ghost(f): Ghost<spec_fn(OutputGridEntry) -> Option<Doc>>,
) -> (r: Reply)
    requires
        forall|e: &OutputGridEntry| #[trigger] make.requires((e,)),
        forall|e: &OutputGridEntry, j: Option<Json>| #[trigger]
            make.ensures((e,), j) ==> option_doc(j) == f(*e),
    ensures
        r@ == (200u16, Doc::Array(gathered(outputs.entries.list(), f))),
{
    let ghost all = outputs.entries.list();
    let mut items = no_items();
    let n: usize = outputs.entries.len();
    assert(all.take(0) =~= Seq::empty());
    for i in 0..n
        invariant
            n == all.len(),
            all == outputs.entries.list(),
            forall|e: &OutputGridEntry| #[trigger] make.requires((e,)),
            forall|e: &OutputGridEntry, j: Option<Json>| #[trigger]
                make.ensures((e,), j) ==> option_doc(j) == f(*e),
            docs(items@) == gathered(all.take(i as int), f),
    {
        assert(all.take(i + 1).drop_last() =~= all.take(i as int));
        if let Some(j) = make(outputs.entries.value_at(i)) {
            put_item(&mut items, j);
        }
    }
    assert(all.take(all.len() as int) =~= all);
    ok(Json::array(items))
}

/// The list of sources.
pub fn sources_list(state: &NmosState, outputs: &OutputGrid) -> (r: Reply)
    requires
        state.wf(),
    ensures
        r@ == (
            200u16,
            Doc::Array(
                gathered(
                    outputs.entries.list(),
                    |e: OutputGridEntry| output_source(*state, e),
                ),
            ),
        ),
{
    let make = |e: &OutputGridEntry| -> (j: Option<Json>)
        ensures
            option_doc(j) == output_source(*state, *e),
        { source_json_for(state, e) };
    gather(outputs, make, Ghost(|e: OutputGridEntry| output_source(*state, e)))
}

/// The list of flows.
pub fn flows_list(state: &NmosState, outputs: &OutputGrid) -> (r: Reply)
    requires
        state.wf(),
    ensures
        r@ == (
            200u16,
            Doc::Array(
                gathered(outputs.entries.list(), |e: OutputGridEntry| output_flow(*state, e)),
            ),
        ),
{
    let make = |e: &OutputGridEntry| -> (j: Option<Json>)
        ensures
            option_doc(j) == output_flow(*state, *e),
        { flow_json_for(state, e) };
    gather(outputs, make, Ghost(|e: OutputGridEntry| output_flow(*state, e)))
}

/// The list of senders.
pub fn senders_list(state: &NmosState, outputs: &OutputGrid) -> (r: Reply)
    requires
        state.wf(),
    ensures
        r@ == (
            200u16,
            Doc::Array(
                gathered(
                    outputs.entries.list(),
                    |e: OutputGridEntry| output_sender(*state, e),
                ),
            ),
        ),
{
    let make = |e: &OutputGridEntry| -> (j: Option<Json>)
        ensures
            option_doc(j) == output_sender(*state, *e),
        { sender_json_for(state, e) };
    gather(outputs, make, Ghost(|e: OutputGridEntry| output_sender(*state, e)))
}

/// Whether the source of an entry has an id.
pub open spec fn has_source(state: NmosState, id: Seq<char>, e: (String, OutputGridEntry)) -> bool {
    state.output_ids@.contains_key(e.1.id@) && uuid_text(
        state.output_ids@[e.1.id@].source_id.bits,
    ) == id
}

/// Whether the sender of an entry has an id.
pub open spec fn has_sender(state: NmosState, id: Seq<char>, e: (String, OutputGridEntry)) -> bool {
    state.output_ids@.contains_key(e.1.id@) && uuid_text(
        state.output_ids@[e.1.id@].sender_id.bits,
    ) == id
}

/// The place of the entry whose source has an id.
pub open spec fn source_at(state: NmosState, outputs: OutputGrid, id: Seq<char>) -> Option<int> {
    first_index(
        outputs.entries.list(),
        |e: (String, OutputGridEntry)| has_source(state, id, e),
    )
}

/// The place of the entry whose sender has an id.
pub open spec fn sender_at(state: NmosState, outputs: OutputGrid, id: Seq<char>) -> Option<int> {
    first_index(
        outputs.entries.list(),
        |e: (String, OutputGridEntry)| has_sender(state, id, e),
    )
}

/// The place of the entry whose flow has an id.
pub open spec fn flow_at(outputs: OutputGrid, id: Seq<char>) -> Option<int> {
    first_index(
        outputs.entries.list(),
        |e: (String, OutputGridEntry)| uuid_text(e.1.flow_id.bits) == id,
    )
}

/// The place of the entry whose receiver has an id.
pub open spec fn receiver_at(inputs: InputGrid, id: Seq<char>) -> Option<int> {
    first_index(
        inputs.entries.list(),
        |e: (String, InputGridEntry)| uuid_text(e.1.receiver_id.bits) == id,
    )
}

fn find_source(state: &NmosState, outputs: &OutputGrid, id: &str) -> (r: Option<usize>)
    requires
        state.wf(),
    ensures
        match r {
            Some(i) => i < outputs.entries.list().len() && source_at(*state, *outputs, id@) == Some(
                i as int,
            ),
            None => source_at(*state, *outputs, id@) is None,
        },
{
    let test = |e: &OutputGridEntry| -> (b: bool)
        ensures
            b == (state.output_ids@.contains_key(e.id@) && uuid_text(
                state.output_ids@[e.id@].source_id.bits,
            ) == id@),
        {
            match state.output_ids.get(&e.id) {
                Some(ids) => same(ids.source_id.to_string().as_str(), id),
                None => false,
            }
        };
    find_first(
        &outputs.entries,
        test,
        Ghost(|e: (String, OutputGridEntry)| has_source(*state, id@, e)),
    )
}

fn find_sender(state: &NmosState, outputs: &OutputGrid, id: &str) -> (r: Option<usize>)
    requires
        state.wf(),
    ensures
        match r {
            Some(i) => i < outputs.entries.list().len() && sender_at(*state, *outputs, id@) == Some(
                i as int,
            ) && state.output_ids@.contains_key(outputs.entries.list()[i as int].1.id@),
            None => sender_at(*state, *outputs, id@) is None,
        },
{
    let test = |e: &OutputGridEntry| -> (b: bool)
        ensures
            b == (state.output_ids@.contains_key(e.id@) && uuid_text(
                state.output_ids@[e.id@].sender_id.bits,
            ) == id@),
        {
            match state.output_ids.get(&e.id) {
                Some(ids) => same(ids.sender_id.to_string().as_str(), id),
                None => false,
            }
        };
    let ghost p = |e: (String, OutputGridEntry)| has_sender(*state, id@, e);
    proof {
        lemma_first_meets(outputs.entries.list(), p);
    }
    find_first(&outputs.entries, test, Ghost(p))
}

fn find_flow(outputs: &OutputGrid, id: &str) -> (r: Option<usize>)
    ensures
        match r {
            Some(i) => i < outputs.entries.list().len() && flow_at(*outputs, id@) == Some(i as int),
            None => flow_at(*outputs, id@) is None,
        },
{
    let test = |e: &OutputGridEntry| -> (b: bool)
        ensures
            b == (uuid_text(e.flow_id.bits) == id@),
        { same(e.flow_id.to_string().as_str(), id) };
    find_first(
        &outputs.entries,
        test,
        Ghost(|e: (String, OutputGridEntry)| uuid_text(e.1.flow_id.bits) == id@),
    )
}

/// The place of the entry of the input grid whose receiver has an id.
pub fn find_receiver(inputs: &InputGrid, id: &str) -> (r: Option<usize>)
    ensures
        match r {
            Some(i) => i < inputs.entries.list().len() && receiver_at(*inputs, id@) == Some(
                i as int,
            ),
            None => receiver_at(*inputs, id@) is None,
        },
{
    let test = |e: &InputGridEntry| -> (b: bool)
        ensures
            b == (uuid_text(e.receiver_id.bits) == id@),
        { same(e.receiver_id.to_string().as_str(), id) };
    find_first(
        &inputs.entries,
        test,
        Ghost(|e: (String, InputGridEntry)| uuid_text(e.1.receiver_id.bits) == id@),
    )
}

/// The answer with a document, or for what does not exist.
pub open spec fn found(d: Option<Doc>) -> (u16, Doc) {
    match d {
        Some(d) => (200u16, d),
        None => error_reply(404, "Not Found"@),
    }
}

fn found_or_not(j: Option<Json>) -> (r: Reply)
    ensures
        r@ == found(option_doc(j)),
{
    match j {
        Some(j) => ok(j),
        None => not_found(),
    }
}

/// The source with an id.
pub fn source_get(state: &NmosState, outputs: &OutputGrid, id: &str) -> (r: Reply)
    requires
        state.wf(),
    ensures
        r@ == found(
            match source_at(*state, *outputs, id@) {
                Some(i) => output_source(*state, outputs.entries.list()[i].1),
                None => None,
            },
        ),
{
    match find_source(state, outputs, id) {
        Some(i) => found_or_not(source_json_for(state, outputs.entries.value_at(i))),
        None => not_found(),
    }
}

/// The flow with an id.
pub fn flow_get(state: &NmosState, outputs: &OutputGrid, id: &str) -> (r: Reply)
    requires
        state.wf(),
    ensures
        r@ == found(
            match flow_at(*outputs, id@) {
                Some(i) => output_flow(*state, outputs.entries.list()[i].1),
                None => None,
            },
        ),
{
    match find_flow(outputs, id) {
        Some(i) => found_or_not(flow_json_for(state, outputs.entries.value_at(i))),
        None => not_found(),
    }
}

/// The sender with an id.
pub fn sender_get(state: &NmosState, outputs: &OutputGrid, id: &str) -> (r: Reply)
    requires
        state.wf(),
    ensures
        r@ == found(
            match sender_at(*state, *outputs, id@) {
                Some(i) => output_sender(*state, outputs.entries.list()[i].1),
                None => None,
            },
        ),
{
    match find_sender(state, outputs, id) {
        Some(i) => found_or_not(sender_json_for(state, outputs.entries.value_at(i))),
        None => not_found(),
    }
}

/// The places of the senders.
pub fn sender_ids(state: &NmosState) -> (r: Reply)
    ensures
        r@ == (200u16, places_doc(sender_list(*state))),
{
    let ids = all_sender_ids(state);
    ok(places_json(ids.as_slice()))
}

/// The places of the receivers.
pub fn receiver_ids(inputs: &InputGrid) -> (r: Reply)
    ensures
        r@ == (200u16, places_doc(receiver_list(*inputs))),
{
    let ids = all_receiver_ids(inputs);
    ok(places_json(ids.as_slice()))
}

/// The documents of the receivers.
pub open spec fn receiver_docs(state: NmosState, inputs: InputGrid) -> Seq<Doc> {
    inputs.entries.list().map_values(
        |e: (String, InputGridEntry)|
            receiver_doc(state.cfg, state.device_id, e.1, version_text(state.node_version)),
    )
}

/// The list of receivers.
pub fn receivers_list(state: &NmosState, inputs: &InputGrid) -> (r: Reply)
    ensures
        r@ == (200u16, Doc::Array(receiver_docs(*state, *inputs))),
{
    let make = |e: &InputGridEntry| -> (j: Json)
        ensures
            j@ == receiver_doc(
                state.cfg,
                state.device_id,
                *e,
                version_text(state.node_version),
            ),
        { receiver_json(&state.cfg, &state.device_id, e, state.version().as_str()) };
    list_of(
        &inputs.entries,
        make,
        Ghost(
            |e: (String, InputGridEntry)|
                receiver_doc(state.cfg, state.device_id, e.1, version_text(state.node_version)),
        ),
    )
}

/// The receiver with an id.
pub fn receiver_get(state: &NmosState, inputs: &InputGrid, id: &str) -> (r: Reply)
    ensures
        r@ == found(
            match receiver_at(*inputs, id@) {
                Some(i) => Some(
                    receiver_doc(
                        state.cfg,
                        state.device_id,
                        inputs.entries.list()[i].1,
                        version_text(state.node_version),
                    ),
                ),
                None => None,
            },
        ),
{
    match find_receiver(inputs, id) {
        Some(i) => ok(
            receiver_json(
                &state.cfg,
                &state.device_id,
                inputs.entries.value_at(i),
                state.version().as_str(),
            ),
        ),
        None => not_found(),
    }
}

/// The constraints of every sender and receiver: one set without any.
pub fn constraints() -> (r: Reply)
    ensures
        r@ == (200u16, Doc::one(Doc::object())),
{
    ok(Json::one(Json::new_object()))
}

/// The transport type of every sender and receiver.
pub fn transporttype() -> (r: Reply)
    ensures
        r@ == (200u16, Doc::Text(TRANSPORT_TYPE@)),
{
    ok(Json::text(TRANSPORT_TYPE))
}

/// The transport file of every sender: a plain text that nothing uses.
pub fn sender_transportfile() -> (r: &'static str)
    ensures
        r@ == "mxl-test-app: not used"@,
{
    "mxl-test-app: not used"
}

/// What is staged for a sender: it always sends.
pub open spec fn sender_staged_doc(e: OutputGridEntry) -> Doc {
    Doc::object().with("master_enable"@, Doc::Bool(true)).with("activation"@, no_activation()).with(
        "receiver_id"@,
        text_or_null(option_view(e.receiver_id)),
    ).with("transport_params"@, Doc::one(Doc::object()))
}

fn optional(s: &Option<String>) -> (r: Json)
    ensures
        r@ == text_or_null(option_view(*s)),
{
    match s {
        Some(t) => Json::text(t.as_str()),
        None => Json::Null,
    }
}

/// What is staged for the sender with an id.
pub fn sender_staged(state: &NmosState, outputs: &OutputGrid, id: &str) -> (r: Reply)
    requires
        state.wf(),
    ensures
        r@ == found(
            match sender_at(*state, *outputs, id@) {
                Some(i) => Some(sender_staged_doc(outputs.entries.list()[i].1)),
                None => None,
            },
        ),
{
    match find_sender(state, outputs, id) {
        Some(i) => {
            let e = outputs.entries.value_at(i);
            ok(
                Json::new_object().with("master_enable", Json::Bool(true)).with(
                    "activation",
                    no_activation_json(),
                ).with("receiver_id", optional(&e.receiver_id)).with(
                    "transport_params",
                    Json::one(Json::new_object()),
                ),
            )
        },
        None => not_found(),
    }
}

/// The receiver that is recorded for a sender after a request: what the request names, where it
/// names one or none at all; it stays where the request says nothing.
pub open spec fn recorded_receiver(was: Option<Seq<char>>, body: Doc) -> Option<Seq<char>> {
    match body.field("receiver_id"@) {
        Some(v) => v.text(),
        None => was,
    }
}

/// Stages a sender: a sender always sends, so only the receiver is recorded.
pub fn sender_patch(state: &NmosState, mixer: &mut MixerState, id: &str, body: &Json) -> (r: Reply)
    requires
        state.wf(),
        old(mixer).wf(),
    ensures
        final(mixer).wf(),
        match sender_at(*state, old(mixer).output_grid, id@) {
            None => r@ == error_reply(404, "Not Found"@) && *final(mixer) == *old(mixer),
            Some(i) => {
                let e = old(mixer).output_grid.entries.list()[i].1;
                let now = final(mixer).output_grid.entries.list()[i].1;
                &&& final(mixer).output_grid.entries.list() == old(
                    mixer,
                ).output_grid.entries.list().update(
                    i,
                    (old(mixer).output_grid.entries.list()[i].0, now),
                )
                &&& option_view(now.receiver_id) == recorded_receiver(
                    option_view(e.receiver_id),
                    body@,
                )
                &&& now.id@ == e.id@
                &&& now.label@ == e.label@
                &&& now.channels == e.channels
                &&& now.flow_id == e.flow_id
                &&& final(mixer)@ == (MixerModel {
                    outputs: old(mixer)@.outputs.insert(e.id@, now),
                    ..old(mixer)@
                })
                &&& r@ == (200u16, sender_staged_doc(now))
            },
        },
{
    let i: usize = match find_sender(state, &mixer.output_grid, id) {
        Some(i) => i,
        None => {
            return not_found();
        },
    };
    let ghost list = mixer.output_grid.entries.list();
    let e = mixer.output_grid.entries.value_at(i);
    let receiver_id: Option<String> = match body.get("receiver_id") {
        Some(v) => match v.as_str() {
            Some(s) => Some(s.to_owned()),
            None => None,
        },
        None => match &e.receiver_id {
            Some(s) => Some(s.clone()),
            None => None,
        },
    };
    let staged = Json::new_object().with("master_enable", Json::Bool(true)).with(
        "activation",
        no_activation_json(),
    ).with("receiver_id", optional(&receiver_id)).with(
        "transport_params",
        Json::one(Json::new_object()),
    );
    let entry = OutputGridEntry {
        id: e.id.clone(),
        label: e.label.clone(),
        channels: e.channels,
        flow_id: e.flow_id,
        receiver_id,
    };
    mixer.output_grid.entries.replace_at(i, entry);
    proof {
        let now = mixer.output_grid.entries.list();
        assert(list[i as int].1.id@ == list[i as int].0@);
        assert forall|k: int| 0 <= k < now.len() implies (#[trigger] now[k]).1.id@ == now[k].0@ by {
            if k != i {
                assert(now[k] == list[k]);
            }
        }
    }
    ok(staged)
}

/// What is staged for a receiver.
pub open spec fn receiver_staged_doc(e: InputGridEntry) -> Doc {
    Doc::object().with("master_enable"@, Doc::Bool(e.connected)).with(
        "activation"@,
        no_activation(),
    ).with("sender_id"@, text_or_null(option_view(e.subscribed_sender_id))).with(
        "transport_file"@,
        no_file(),
    ).with("transport_params"@, Doc::one(Doc::object()))
}

fn receiver_staged_json(e: &InputGridEntry) -> (r: Json)
    ensures
        r@ == receiver_staged_doc(*e),
{
    Json::new_object().with("master_enable", Json::Bool(e.connected)).with(
        "activation",
        no_activation_json(),
    ).with("sender_id", optional(&e.subscribed_sender_id)).with(
        "transport_file",
        no_file_json(),
    ).with("transport_params", Json::one(Json::new_object()))
}

/// What is staged for the receiver with an id.
pub fn receiver_staged(inputs: &InputGrid, id: &str) -> (r: Reply)
    ensures
        r@ == found(
            match receiver_at(*inputs, id@) {
                Some(i) => Some(receiver_staged_doc(inputs.entries.list()[i].1)),
                None => None,
            },
        ),
{
    match find_receiver(inputs, id) {
        Some(i) => ok(receiver_staged_json(inputs.entries.value_at(i))),
        None => not_found(),
    }
}

/// What a request to a receiver calls for.
#[derive(Debug)]
pub enum ReceiverPlan {
    /// This answer, and nothing else.
    Answer(Reply),
    /// The receiver is to be disconnected.
    Disconnect,
    /// The flow of the sender has to be asked for at the registry.
    Resolve { sender_id: String },
    /// The flow has to be opened.
    Open { sender_id: String, flow_id: String },
}

/// What a request to a receiver calls for, over the models.
pub enum ReceiverPlanModel {
    Answer((u16, Doc)),
    Disconnect,
    Resolve { sender_id: Seq<char> },
    Open { sender_id: Seq<char>, flow_id: Seq<char> },
}

impl View for ReceiverPlan {
    type V = ReceiverPlanModel;

    open spec fn view(&self) -> ReceiverPlanModel {
        match *self {
            ReceiverPlan::Answer(r) => ReceiverPlanModel::Answer(r@),
            ReceiverPlan::Disconnect => ReceiverPlanModel::Disconnect,
            ReceiverPlan::Resolve { sender_id } => ReceiverPlanModel::Resolve {
                sender_id: sender_id@,
            },
            ReceiverPlan::Open { sender_id, flow_id } => ReceiverPlanModel::Open {
                sender_id: sender_id@,
                flow_id: flow_id@,
            },
        }
    }
}

/// What a request to a receiver calls for: a request connects where it says so, or where it says
/// nothing of it and names a sender. A sender of the node itself needs no registry.
pub open spec fn receiver_plan(
    state: NmosState,
    inputs: InputGrid,
    outputs: OutputGrid,
    id: Seq<char>,
    body: Doc,
) -> ReceiverPlanModel {
    let sender = body.text_field("sender_id"@);
    let active = match body.boolean_field("master_enable"@) {
        Some(b) => b,
        None => sender is Some,
    };
    if receiver_at(inputs, id) is None {
        ReceiverPlanModel::Answer(error_reply(404, "Not Found"@))
    } else if !active {
        ReceiverPlanModel::Disconnect
    } else {
        match sender {
            None => ReceiverPlanModel::Answer(
                error_reply(400, "activating a receiver requires sender_id"@),
            ),
            Some(s) => match sender_at(state, outputs, s) {
                Some(i) => ReceiverPlanModel::Open {
                    sender_id: s,
                    flow_id: uuid_text(outputs.entries.list()[i].1.flow_id.bits),
                },
                None => ReceiverPlanModel::Resolve { sender_id: s },
            },
        }
    }
}

/// Reads what a request to a receiver calls for.
pub fn plan_receiver_patch(state: &NmosState, mixer: &MixerState, id: &str, body: &Json) -> (r:
    ReceiverPlan)
    requires
        state.wf(),
    ensures
        r@ == receiver_plan(*state, mixer.input_grid, mixer.output_grid, id@, body@),
{
    if find_receiver(&mixer.input_grid, id).is_none() {
        return ReceiverPlan::Answer(not_found());
    }
    let sender = body.text_field("sender_id");
    let active = match body.boolean_field("master_enable") {
        Some(b) => b,
        None => sender.is_some(),
    };
    if !active {
        return ReceiverPlan::Disconnect;
    }
    match sender {
        None => ReceiverPlan::Answer(bad_request("activating a receiver requires sender_id")),
        Some(s) => match find_sender(state, &mixer.output_grid, s) {
            Some(i) => ReceiverPlan::Open {
                sender_id: s.to_owned(),
                flow_id: mixer.output_grid.entries.value_at(i).flow_id.to_string(),
            },
            None => ReceiverPlan::Resolve { sender_id: s.to_owned() },
        },
    }
}

/// The answer where the flow of a sender could not be found out.
pub fn unresolved(error: &str) -> (r: Reply)
    ensures
        r@ == error_reply(400, "could not resolve sender_id: "@ + error@),
{
    let mut s = "could not resolve sender_id: ".to_owned();
    s.append(error);
    bad_request(s.as_str())
}

/// The entry of the input grid with a new connection.
pub open spec fn reconnected(
    now: InputGridEntry,
    was: InputGridEntry,
    connected: bool,
    flow_id: Option<Seq<char>>,
    sender_id: Option<Seq<char>>,
) -> bool {
    &&& now.id@ == was.id@
    &&& now.label@ == was.label@
    &&& now.channels == was.channels
    &&& now.receiver_id == was.receiver_id
    &&& now.connected == connected
    &&& option_view(now.flow_id) == flow_id
    &&& option_view(now.subscribed_sender_id) == sender_id
}

fn connect(
    mixer: &mut MixerState,
    i: usize,
    flow_id: Option<String>,
    sender_id: Option<String>,
) -> (r: Reply)
    requires
        old(mixer).wf(),
        i < old(mixer).input_grid.entries.list().len(),
    ensures
        final(mixer).wf(),
        ({
            let list = old(mixer).input_grid.entries.list();
            let now = final(mixer).input_grid.entries.list()[i as int].1;
            &&& final(mixer).input_grid.entries.list() == list.update(
                i as int,
                (list[i as int].0, now),
            )
            &&& reconnected(
                now,
                list[i as int].1,
                flow_id is Some,
                option_view(flow_id),
                option_view(sender_id),
            )
            &&& final(mixer)@ == (MixerModel {
                inputs: old(mixer)@.inputs.insert(now.id@, now),
                ..old(mixer)@
            })
            &&& r@ == (200u16, receiver_staged_doc(now))
        }),
{
    let ghost list = mixer.input_grid.entries.list();
    let e = mixer.input_grid.entries.value_at(i);
    let entry = InputGridEntry {
        id: e.id.clone(),
        label: e.label.clone(),
        channels: e.channels,
        connected: flow_id.is_some(),
        flow_id,
        receiver_id: e.receiver_id,
        subscribed_sender_id: sender_id,
    };
    let staged = receiver_staged_json(&entry);
    mixer.input_grid.entries.replace_at(i, entry);
    proof {
        let now = mixer.input_grid.entries.list();
        assert(list[i as int].1.id@ == list[i as int].0@);
        assert forall|k: int| 0 <= k < now.len() implies (#[trigger] now[k]).1.id@ == now[k].0@ by {
            if k != i {
                assert(now[k] == list[k]);
            }
        }
    }
    ok(staged)
}

/// Disconnects a receiver. No patch is touched.
pub fn disconnect_receiver(mixer: &mut MixerState, id: &str) -> (r: Reply)
    requires
        old(mixer).wf(),
    ensures
        final(mixer).wf(),
        match receiver_at(old(mixer).input_grid, id@) {
            None => r@ == error_reply(404, "Not Found"@) && *final(mixer) == *old(mixer),
            Some(i) => {
                let list = old(mixer).input_grid.entries.list();
                let now = final(mixer).input_grid.entries.list()[i].1;
                &&& final(mixer).input_grid.entries.list() == list.update(i, (list[i].0, now))
                &&& reconnected(now, list[i].1, false, None, None)
                &&& final(mixer)@ == (MixerModel {
                    inputs: old(mixer)@.inputs.insert(now.id@, now),
                    ..old(mixer)@
                })
                &&& r@ == (200u16, receiver_staged_doc(now))
            },
        },
{
    match find_receiver(&mixer.input_grid, id) {
        Some(i) => connect(mixer, i, None, None),
        None => not_found(),
    }
}

/// What came of opening a flow for a receiver.
#[derive(Debug)]
pub enum Opened {
    Ready,
    /// The flow has more channels than the receiver takes.
    TooWide(String),
    Failed(String),
}

/// What is said of a flow that has more channels than a receiver takes.
pub open spec fn too_wide(flow_channels: usize, entry_channels: usize) -> Seq<char> {
    "the flow has "@ + dec(flow_channels as nat) + " channels, more than the "@ + dec(
        entry_channels as nat,
    ) + " of this receiver"@
}

/// What comes of a flow that could be opened: a receiver takes one of as many channels as it has,
/// or fewer.
pub fn opened(flow_channels: usize, entry_channels: usize) -> (r: Opened)
    ensures
        match r {
            Opened::Ready => flow_channels <= entry_channels,
            Opened::TooWide(e) => flow_channels > entry_channels && e@ == too_wide(
                flow_channels,
                entry_channels,
            ),
            Opened::Failed(_) => false,
        },
{
    if flow_channels <= entry_channels {
        return Opened::Ready;
    }
    let mut s = "the flow has ".to_owned();
    s.append(decimal(flow_channels as u64).as_str());
    s.append(" channels, more than the ");
    s.append(decimal(entry_channels as u64).as_str());
    s.append(" of this receiver");
    Opened::TooWide(s)
}

/// Connects a receiver to a flow that was opened for it. What the client asked for in vain is
/// answered as their mistake, everything else that went wrong as the node's.
pub fn connect_receiver(
    mixer: &mut MixerState,
    id: &str,
    sender_id: &str,
    flow_id: &str,
    opened: &Opened,
) -> (r: Reply)
    requires
        old(mixer).wf(),
    ensures
        final(mixer).wf(),
        match (*opened, receiver_at(old(mixer).input_grid, id@)) {
            (Opened::TooWide(e), _) => r@ == error_reply(400, e@) && *final(mixer) == *old(mixer),
            (Opened::Failed(e), _) => r@ == error_reply(500, e@) && *final(mixer) == *old(mixer),
            (Opened::Ready, None) => r@ == error_reply(404, "Not Found"@) && *final(mixer) == *old(
                mixer,
            ),
            (Opened::Ready, Some(i)) => {
                let list = old(mixer).input_grid.entries.list();
                let now = final(mixer).input_grid.entries.list()[i].1;
                &&& final(mixer).input_grid.entries.list() == list.update(i, (list[i].0, now))
                &&& reconnected(now, list[i].1, true, Some(flow_id@), Some(sender_id@))
                &&& final(mixer)@ == (MixerModel {
                    inputs: old(mixer)@.inputs.insert(now.id@, now),
                    ..old(mixer)@
                })
                &&& r@ == (200u16, receiver_staged_doc(now))
            },
        },
{
    match opened {
        Opened::TooWide(e) => bad_request(e.as_str()),
        Opened::Failed(e) => fail(500, e.as_str()),
        Opened::Ready => match find_receiver(&mixer.input_grid, id) {
            Some(i) => connect(mixer, i, Some(flow_id.to_owned()), Some(sender_id.to_owned())),
            None => not_found(),
        },
    }
}

} // verus!
