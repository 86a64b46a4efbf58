//! The answers of the bridge's node and connection interfaces.

use vstd::prelude::*;
use vstd::string::*;

use crate::bridge::mxl_domain::{lemma_versioned_is_mxl_uuid, mxl_uuid};
use crate::bridge::nmos::mxl_transport::{
    check_no_transport_file, constraints, constraints_doc, law_shown_parameters_can_be_staged,
    no_transport_file, params, params_doc, parse_staged, parsed_staged, shown_params, Param,
    ParamModel, Refusal, RefusalModel, Role, StagedModel,
};
use crate::bridge::nmos::resources::{
    controls_doc, device_facts, device_json, flow_facts, flow_json, node_facts, node_json,
    receiver_doc, receiver_json, sender_doc, sender_json, source_facts, source_json,
};
use crate::bridge::nmos::state::{
    find_receiver, find_sender, leases_after, lemma_same_receivers, lemma_same_senders,
    receiver_at, sender_at, sink_activation, sink_snapshot, source_activation, source_snapshot, without, LeaseModel, NmosModel, NmosState,
    SinkEntry, SinkEntryModel, SinkLeaseAction, SourceEntry, SourceEntryModel, CONTROLLER_LEASE,
};
use crate::json::{lemma_field_empty, lemma_field_with, option_view, text_or_null, Doc, Json};
use crate::nmos::{
    bad_request, device_doc, error_reply, fail, flow_doc, list_of, no_activation,
    no_activation_json, no_file, no_file_json, node_doc, not_found, ok, places_doc, places_json,
    source_doc, Reply, TRANSPORT_TYPE,
};
use crate::search::{find_first, first_index, lemma_first_meets};
use crate::table::{lemma_in_map, Table};
use crate::text::same;
use crate::uuid::{uuid_text, Uuid};

verus! {

/// The senders of the node, in the order of the Sinks.
pub open spec fn sender_list(s: Seq<(u8, SinkEntry)>) -> Seq<Uuid> {
    s.map_values(|e: (u8, SinkEntry)| e.1.sender_id)
}

/// The receivers of the node, in the order of the Sources.
pub open spec fn receiver_list(s: Seq<(u8, SourceEntry)>) -> Seq<Uuid> {
    s.map_values(|e: (u8, SourceEntry)| e.1.receiver_id)
}

/// The senders of the node.
pub fn all_sender_ids(t: &Table<u8, SinkEntry>) -> (r: Vec<Uuid>)
    ensures
        r@ == sender_list(t.list()),
{
    let mut out: Vec<Uuid> = Vec::new();
    for i in 0..t.len()
        invariant
            out@ == sender_list(t.list()).take(i as int),
    {
        out.push(t.value_at(i).sender_id);
        assert(out@ =~= sender_list(t.list()).take(i + 1));
    }
    assert(out@ =~= sender_list(t.list()));
    out
}

/// The receivers of the node.
pub fn all_receiver_ids(t: &Table<u8, SourceEntry>) -> (r: Vec<Uuid>)
    ensures
        r@ == receiver_list(t.list()),
{
    let mut out: Vec<Uuid> = Vec::new();
    for i in 0..t.len()
        invariant
            out@ == receiver_list(t.list()).take(i as int),
    {
        out.push(t.value_at(i).receiver_id);
        assert(out@ =~= receiver_list(t.list()).take(i + 1));
    }
    assert(out@ =~= receiver_list(t.list()));
    out
}

/// The node's own document.
pub fn node_self(state: &NmosState, hostname: &str) -> (r: Reply)
    ensures
        r@ == (200u16, node_doc(node_facts(*state, state.cfg.ip_addr@, hostname@))),
{
    ok(node_json(state, state.cfg.ip_addr.as_str(), hostname))
}

/// The document of the node's device.
pub open spec fn own_device(state: NmosState) -> Doc {
    device_doc(
        device_facts(
            state,
            sender_list(state.sinks.list()),
            receiver_list(state.sources.list()),
        ),
        controls_doc(state.cfg.ip_addr@, state.cfg.nmos_node_port),
    )
}

/// The document of the node's device.
pub fn own_device_json(state: &NmosState) -> (r: Json)
    ensures
        r@ == own_device(*state),
{
    let senders = all_sender_ids(&state.sinks);
    let receivers = all_receiver_ids(&state.sources);
    device_json(state, state.cfg.ip_addr.as_str(), senders.as_slice(), receivers.as_slice())
}

/// The list of devices: the one.
pub fn devices_list(state: &NmosState) -> (r: Reply)
    ensures
        r@ == (200u16, Doc::one(own_device(*state))),
{
    ok(Json::one(own_device_json(state)))
}

/// The device with an id.
pub fn device_get(state: &NmosState, id: &str) -> (r: Reply)
    ensures
        r@ == (if id@ == uuid_text(state.device_id.bits) {
            (200u16, own_device(*state))
        } else {
            error_reply(404, "Not Found"@)
        }),
{
    if !same(id, state.device_id.to_string().as_str()) {
        return not_found();
    }
    ok(own_device_json(state))
}

/// The document of a Sink's source.
pub open spec fn sink_source(state: NmosState, e: SinkEntry) -> Doc {
    source_doc(source_facts(state, sink_snapshot(e@)))
}

/// The document of a Sink's flow.
pub open spec fn sink_flow(state: NmosState, e: SinkEntry) -> Doc {
    flow_doc(flow_facts(state, sink_snapshot(e@)), e.source_id)
}

/// The document of a Sink's sender.
pub open spec fn sink_sender(state: NmosState, e: SinkEntry) -> Doc {
    sender_doc(state, sink_snapshot(e@))
}

/// The document of a Source's receiver.
pub open spec fn source_receiver(state: NmosState, e: SourceEntry) -> Doc {
    receiver_doc(state, source_snapshot(e@))
}

/// The list of sources.
pub fn sources_list(state: &NmosState) -> (r: Reply)
    ensures
        r@ == (
            200u16,
            Doc::Array(
                state.sinks.list().map_values(|e: (u8, SinkEntry)| sink_source(*state, e.1)),
            ),
        ),
{
    let make = |e: &SinkEntry| -> (j: Json)
        ensures
            j@ == sink_source(*state, *e),
        { source_json(state, &e.snapshot()) };
    list_of(&state.sinks, make, Ghost(|e: (u8, SinkEntry)| sink_source(*state, e.1)))
}

/// The list of flows.
pub fn flows_list(state: &NmosState) -> (r: Reply)
    ensures
        r@ == (
            200u16,
            Doc::Array(
                state.sinks.list().map_values(|e: (u8, SinkEntry)| sink_flow(*state, e.1)),
            ),
        ),
{
    let make = |e: &SinkEntry| -> (j: Json)
        ensures
            j@ == sink_flow(*state, *e),
        { flow_json(state, &e.snapshot()) };
    list_of(&state.sinks, make, Ghost(|e: (u8, SinkEntry)| sink_flow(*state, e.1)))
}

/// The list of senders.
pub fn senders_list(state: &NmosState) -> (r: Reply)
    ensures
        r@ == (
            200u16,
            Doc::Array(
                state.sinks.list().map_values(|e: (u8, SinkEntry)| sink_sender(*state, e.1)),
            ),
        ),
{
    let make = |e: &SinkEntry| -> (j: Json)
        ensures
            j@ == sink_sender(*state, *e),
        { sender_json(state, &e.snapshot()) };
    list_of(&state.sinks, make, Ghost(|e: (u8, SinkEntry)| sink_sender(*state, e.1)))
}

/// The list of receivers.
pub fn receivers_list(state: &NmosState) -> (r: Reply)
    ensures
        r@ == (
            200u16,
            Doc::Array(
                state.sources.list().map_values(
                    |e: (u8, SourceEntry)| source_receiver(*state, e.1),
                ),
            ),
        ),
{
    let make = |e: &SourceEntry| -> (j: Json)
        ensures
            j@ == source_receiver(*state, *e),
        { receiver_json(state, &e.snapshot()) };
    list_of(&state.sources, make, Ghost(|e: (u8, SourceEntry)| source_receiver(*state, e.1)))
}

/// The place of the Sink whose source has an id.
pub open spec fn source_at(s: Seq<(u8, SinkEntry)>, id: Seq<char>) -> Option<int> {
    first_index(s, |e: (u8, SinkEntry)| uuid_text(e.1.source_id.bits) == id)
}

/// The place of the Sink whose flow has an id.
pub open spec fn flow_at(s: Seq<(u8, SinkEntry)>, id: Seq<char>) -> Option<int> {
    first_index(s, |e: (u8, SinkEntry)| uuid_text(e.1.flow_id.bits) == id)
}

fn find_source(t: &Table<u8, SinkEntry>, id: &str) -> (r: Option<usize>)
    ensures
        match r {
            Some(i) => i < t.list().len() && source_at(t.list(), id@) == Some(i as int),
            None => source_at(t.list(), id@) is None,
        },
{
    let test = |e: &SinkEntry| -> (b: bool)
        ensures
            b == (uuid_text(e.source_id.bits) == id@),
        { same(e.source_id.to_string().as_str(), id) };
    find_first(t, test, Ghost(|e: (u8, SinkEntry)| uuid_text(e.1.source_id.bits) == id@))
}

fn find_flow(t: &Table<u8, SinkEntry>, id: &str) -> (r: Option<usize>)
    ensures
        match r {
            Some(i) => i < t.list().len() && flow_at(t.list(), id@) == Some(i as int),
            None => flow_at(t.list(), id@) is None,
        },
{
    let test = |e: &SinkEntry| -> (b: bool)
        ensures
            b == (uuid_text(e.flow_id.bits) == id@),
        { same(e.flow_id.to_string().as_str(), id) };
    find_first(t, test, Ghost(|e: (u8, SinkEntry)| uuid_text(e.1.flow_id.bits) == id@))
}

/// The answer with a document, or for what does not exist.
pub open spec fn found(d: Option<Doc>) -> (u16, Doc) {
    match d {
        Some(d) => (200u16, d),
        None => error_reply(404, "Not Found"@),
    }
}

/// The source with an id.
pub fn source_get(state: &NmosState, id: &str) -> (r: Reply)
    ensures
        r@ == found(
            match source_at(state.sinks.list(), id@) {
                Some(i) => Some(sink_source(*state, state.sinks.list()[i].1)),
                None => None,
            },
        ),
{
    match find_source(&state.sinks, id) {
        Some(i) => ok(source_json(state, &state.sinks.value_at(i).snapshot())),
        None => not_found(),
    }
}

/// The flow with an id.
pub fn flow_get(state: &NmosState, id: &str) -> (r: Reply)
    ensures
        r@ == found(
            match flow_at(state.sinks.list(), id@) {
                Some(i) => Some(sink_flow(*state, state.sinks.list()[i].1)),
                None => None,
            },
        ),
{
    match find_flow(&state.sinks, id) {
        Some(i) => ok(flow_json(state, &state.sinks.value_at(i).snapshot())),
        None => not_found(),
    }
}

/// The sender with an id.
pub fn sender_get(state: &NmosState, id: &str) -> (r: Reply)
    ensures
        r@ == found(
            match sender_at(state.sinks.list(), id@) {
                Some(i) => Some(sink_sender(*state, state.sinks.list()[i].1)),
                None => None,
            },
        ),
{
    match find_sender(&state.sinks, id) {
        Some(i) => ok(sender_json(state, &state.sinks.value_at(i).snapshot())),
        None => not_found(),
    }
}

/// The receiver with an id.
pub fn receiver_get(state: &NmosState, id: &str) -> (r: Reply)
    ensures
        r@ == found(
            match receiver_at(state.sources.list(), id@) {
                Some(i) => Some(source_receiver(*state, state.sources.list()[i].1)),
                None => None,
            },
        ),
{
    match find_receiver(&state.sources, id) {
        Some(i) => ok(receiver_json(state, &state.sources.value_at(i).snapshot())),
        None => not_found(),
    }
}

/// The places of the senders.
pub fn sender_ids(state: &NmosState) -> (r: Reply)
    ensures
        r@ == (200u16, places_doc(sender_list(state.sinks.list()))),
{
    let ids = all_sender_ids(&state.sinks);
    ok(places_json(ids.as_slice()))
}

/// The places of the receivers.
pub fn receiver_ids(state: &NmosState) -> (r: Reply)
    ensures
        r@ == (200u16, places_doc(receiver_list(state.sources.list()))),
{
    let ids = all_receiver_ids(&state.sources);
    ok(places_json(ids.as_slice()))
}

/// The constraints of a sender: its own domain and flow.
pub fn sender_constraints(state: &NmosState, id: &str) -> (r: Reply)
    ensures
        r@ == found(
            match sender_at(state.sinks.list(), id@) {
                Some(i) => Some(
                    constraints_doc(
                        Role::Sender,
                        uuid_text(state.domain.id.bits),
                        Some(uuid_text(state.sinks.list()[i].1.flow_id.bits)),
                    ),
                ),
                None => None,
            },
        ),
{
    match find_sender(&state.sinks, id) {
        Some(i) => {
            let domain = state.domain.id.to_string();
            let flow = state.sinks.value_at(i).flow_id.to_string();
            ok(constraints(Role::Sender, domain.as_str(), Some(flow.as_str())))
        },
        None => not_found(),
    }
}

/// The constraints of a receiver: the node's domain.
pub fn receiver_constraints(state: &NmosState, id: &str) -> (r: Reply)
    ensures
        r@ == found(
            match receiver_at(state.sources.list(), id@) {
                Some(_) => Some(
                    constraints_doc(Role::Receiver, uuid_text(state.domain.id.bits), None),
                ),
                None => None,
            },
        ),
{
    match find_receiver(&state.sources, id) {
        Some(_) => {
            let domain = state.domain.id.to_string();
            ok(constraints(Role::Receiver, domain.as_str(), None))
        },
        None => not_found(),
    }
}

/// The transport type of every sender and receiver.
pub fn transporttype() -> (r: Reply)
    ensures
        r@ == (200u16, Doc::Text(TRANSPORT_TYPE@)),
{
    ok(Json::text(TRANSPORT_TYPE))
}

/// The transport file of a sender: there is none.
pub fn sender_transportfile() -> (r: Reply)
    ensures
        r@ == error_reply(404, "MXL Senders have no transport file (BCP-007-03)"@),
{
    fail(404, "MXL Senders have no transport file (BCP-007-03)")
}

/// What is staged for a sender: its domain and its flow are always determined.
pub open spec fn sender_staged_doc(domain: Uuid, e: SinkEntryModel) -> Doc {
    Doc::object().with("master_enable"@, Doc::Bool(e.active)).with(
        "activation"@,
        no_activation(),
    ).with("receiver_id"@, text_or_null(e.receiver_id)).with(
        "transport_params"@,
        params_doc(Some(uuid_text(domain.bits)), Some(uuid_text(e.flow_id.bits))),
    )
}

fn optional(s: &Option<String>) -> (r: Json)
    ensures
        r@ == text_or_null(option_view(*s)),
{
    match s {
        Some(t) => Json::text(t.as_str()),
        None => Json::Null,
    }
}

/// What is staged for the sender with an id.
pub fn sender_staged(state: &NmosState, id: &str) -> (r: Reply)
    ensures
        r@ == found(
            match sender_at(state.sinks.list(), id@) {
                Some(i) => Some(
                    sender_staged_doc(state.domain.id, state.sinks.list()[i].1@),
                ),
                None => None,
            },
        ),
{
    match find_sender(&state.sinks, id) {
        Some(i) => {
            let e = state.sinks.value_at(i);
            let domain = state.domain.id.to_string();
            let flow = e.flow_id.to_string();
            ok(
                Json::new_object().with("master_enable", Json::Bool(e.active)).with(
                    "activation",
                    no_activation_json(),
                ).with("receiver_id", optional(&e.receiver_id)).with(
                    "transport_params",
                    params(Some(domain.as_str()), Some(flow.as_str())),
                ),
            )
        },
        None => not_found(),
    }
}

/// What a request to a sender calls for.
#[derive(Debug)]
pub enum SenderPlan {
    NotFound,
    /// Its parameters cannot be staged.
    Refused(Refusal),
    /// Nothing is to be activated: what is staged is the answer.
    Show,
    /// The leases change.
    Lease(SinkLeaseAction),
}

/// What a request to a sender calls for, over the models.
pub enum SenderPlanModel {
    NotFound,
    Refused(RefusalModel),
    Show,
    Lease(LeaseModel),
}

impl View for SenderPlan {
    type V = SenderPlanModel;

    open spec fn view(&self) -> SenderPlanModel {
        match *self {
            SenderPlan::NotFound => SenderPlanModel::NotFound,
            SenderPlan::Refused(r) => SenderPlanModel::Refused(r@),
            SenderPlan::Show => SenderPlanModel::Show,
            SenderPlan::Lease(a) => SenderPlanModel::Lease(a@),
        }
    }
}

/// What a request to a sender calls for: enabling acquires a lease for the receiver that is named,
/// or for the controller; disabling releases the lease of the receiver that is named, or all.
pub open spec fn sender_plan(state: NmosState, id: Seq<char>, body: Doc) -> SenderPlanModel {
    match sender_at(state.sinks.list(), id) {
        None => SenderPlanModel::NotFound,
        Some(i) => match parsed_staged(
            Role::Sender,
            body,
            uuid_text(state.domain.id.bits),
            Some(uuid_text(state.sinks.list()[i].1.flow_id.bits)),
        ) {
            Err(e) => SenderPlanModel::Refused(e),
            Ok(_) => {
                let receiver = body.text_field("receiver_id"@);
                match body.boolean_field("master_enable"@) {
                    Some(true) => SenderPlanModel::Lease(
                        LeaseModel::Acquire(
                            match receiver {
                                Some(r) => r,
                                None => CONTROLLER_LEASE@,
                            },
                        ),
                    ),
                    Some(false) => SenderPlanModel::Lease(LeaseModel::Release(receiver)),
                    None => SenderPlanModel::Show,
                }
            },
        },
    }
}

/// Reads what a request to a sender calls for.
pub fn plan_sender_patch(state: &NmosState, id: &str, body: &Json) -> (r: SenderPlan)
    ensures
        r@ == sender_plan(*state, id@, body@),
{
    let i: usize = match find_sender(&state.sinks, id) {
        Some(i) => i,
        None => {
            return SenderPlan::NotFound;
        },
    };
    let domain = state.domain.id.to_string();
    let flow = state.sinks.value_at(i).flow_id.to_string();
    if let Err(e) = parse_staged(Role::Sender, body, domain.as_str(), Some(flow.as_str())) {
        return SenderPlan::Refused(e);
    }
    let receiver: Option<String> = match body.text_field("receiver_id") {
        Some(s) => Some(s.to_owned()),
        None => None,
    };
    match body.boolean_field("master_enable") {
        Some(b) => if b {
            let holder = match receiver {
                Some(s) => s,
                None => CONTROLLER_LEASE.to_owned(),
            };
            SenderPlan::Lease(SinkLeaseAction::Acquire(holder))
        } else {
            SenderPlan::Lease(SinkLeaseAction::Release(receiver))
        },
        None => SenderPlan::Show,
    }
}

/// The answer to a request to a sender that is refused.
pub open spec fn sender_refusal(plan: SenderPlanModel, shown: Seq<char>) -> Option<(u16, Doc)> {
    match plan {
        SenderPlanModel::NotFound => Some(error_reply(404, "Not Found"@)),
        SenderPlanModel::Refused(r) => Some(error_reply(400, r.text(shown))),
        _ => None,
    }
}

/// The answer to a request to a sender, where it is refused. `shown` is the value at fault, as it is
/// written.
pub fn refuse_sender(plan: &SenderPlan, shown: &str) -> (r: Option<Reply>)
    ensures
        match r {
            Some(a) => sender_refusal(plan@, shown@) == Some(a@),
            None => sender_refusal(plan@, shown@) is None,
        },
{
    match plan {
        SenderPlan::NotFound => Some(not_found()),
        SenderPlan::Refused(e) => Some(bad_request(e.message(shown).as_str())),
        _ => None,
    }
}

/// The answer to a request to a sender, and the mirrors after it: what is staged now, why the
/// request is refused, or that the activation could not be applied.
pub open spec fn sender_answer(
    state: NmosState,
    id: Seq<char>,
    plan: SenderPlanModel,
    shown: Seq<char>,
    opened: Result<(), String>,
) -> ((u16, Doc), NmosModel) {
    match (sender_refusal(plan, shown), plan) {
        (Some(a), _) => (a, state@),
        (None, SenderPlanModel::Lease(action)) => {
            let (outcome, now) = sink_activation(state, id, action, opened);
            match outcome {
                Err(e) => (error_reply(500, e), now),
                Ok(_) => {
                    let (key, _) = state.sinks.list()[sender_at(state.sinks.list(), id)->0];
                    ((200, sender_staged_doc(state.domain.id, now.sinks[key])), now)
                },
            }
        },
        (None, _) => (
            found(
                match sender_at(state.sinks.list(), id) {
                    Some(i) => Some(
                        sender_staged_doc(state.domain.id, state.sinks.list()[i].1@),
                    ),
                    None => None,
                },
            ),
            state@,
        ),
    }
}

/// Carries out what a request to a sender calls for, and answers it. Where a flow had to be opened,
/// `opened` says what came of it.
pub fn finish_sender_patch(
    state: &mut NmosState,
    id: &str,
    plan: &SenderPlan,
    shown: &str,
    opened: Result<(), String>,
) -> (r: Reply)
    requires
        old(state).wf(),
    ensures
        final(state).wf(),
        final(state).same_node(*old(state)),
        (r@, final(state)@) == sender_answer(*old(state), id@, plan@, shown@, opened),
{
    if let Some(a) = refuse_sender(plan, shown) {
        return a;
    }
    let ghost list = state.sinks.list();
    if let SenderPlan::Lease(action) = plan {
        if let Err(e) = state.set_sink_activation(id, action, opened) {
            return fail(500, e.as_str());
        }
        proof {
            lemma_same_senders(list, state.sinks.list(), id@);
            let i = sender_at(list, id@)->0;
            lemma_in_map(state.sinks.list(), i);
            assert(state@.sinks[state.sinks.list()[i].0] == state.sinks.list()[i].1@);
        }
    }
    sender_staged(state, id)
}

/// What is staged for a receiver: its domain and its flow are determined while it is connected.
pub open spec fn receiver_staged_doc(domain: Uuid, e: SourceEntryModel) -> Doc {
    Doc::object().with("master_enable"@, Doc::Bool(e.active)).with(
        "activation"@,
        no_activation(),
    ).with("sender_id"@, text_or_null(e.sender_id)).with("transport_file"@, no_file()).with(
        "transport_params"@,
        params_doc(
            match e.flow_id {
                Some(_) => Some(uuid_text(domain.bits)),
                None => None,
            },
            e.flow_id,
        ),
    )
}

/// What is staged for the receiver with an id.
pub fn receiver_staged(state: &NmosState, id: &str) -> (r: Reply)
    ensures
        r@ == found(
            match receiver_at(state.sources.list(), id@) {
                Some(i) => Some(
                    receiver_staged_doc(state.domain.id, state.sources.list()[i].1@),
                ),
                None => None,
            },
        ),
{
    match find_receiver(&state.sources, id) {
        Some(i) => {
            let e = state.sources.value_at(i);
            let domain = state.domain.id.to_string();
            let shown = match &e.flow_id {
                Some(f) => params(Some(domain.as_str()), Some(f.as_str())),
                None => params(None, None),
            };
            ok(
                Json::new_object().with("master_enable", Json::Bool(e.active)).with(
                    "activation",
                    no_activation_json(),
                ).with("sender_id", optional(&e.sender_id)).with(
                    "transport_file",
                    no_file_json(),
                ).with("transport_params", shown),
            )
        },
        None => not_found(),
    }
}

/// What a request to a receiver calls for.
#[derive(Debug)]
pub enum ReceiverPlan {
    NotFound,
    /// Its parameters cannot be staged.
    Refused(Refusal),
    /// It cannot be applied.
    Bad(String),
    /// The receiver is to be disconnected.
    Disconnect { sender_id: Option<String> },
    /// The flow of the sender has to be asked for at the registry.
    Resolve { sender: String },
    /// The receiver is to be connected to a flow.
    Connect { sender_id: Option<String>, flow: String },
}

/// What a request to a receiver calls for, over the models.
pub enum ReceiverPlanModel {
    NotFound,
    Refused(RefusalModel),
    Bad(Seq<char>),
    Disconnect { sender_id: Option<Seq<char>> },
    Resolve { sender: Seq<char> },
    Connect { sender_id: Option<Seq<char>>, flow: Seq<char> },
}

impl View for ReceiverPlan {
    type V = ReceiverPlanModel;

    open spec fn view(&self) -> ReceiverPlanModel {
        match *self {
            ReceiverPlan::NotFound => ReceiverPlanModel::NotFound,
            ReceiverPlan::Refused(r) => ReceiverPlanModel::Refused(r@),
            ReceiverPlan::Bad(s) => ReceiverPlanModel::Bad(s@),
            ReceiverPlan::Disconnect { sender_id } => ReceiverPlanModel::Disconnect {
                sender_id: option_view(sender_id),
            },
            ReceiverPlan::Resolve { sender } => ReceiverPlanModel::Resolve { sender: sender@ },
            ReceiverPlan::Connect { sender_id, flow } => ReceiverPlanModel::Connect {
                sender_id: option_view(sender_id),
                flow: flow@,
            },
        }
    }
}

/// The flow that staged parameters name.
pub open spec fn staged_flow(s: StagedModel) -> Option<Seq<char>> {
    match s.flow {
        Some(ParamModel::Id(f)) => Some(f),
        _ => None,
    }
}

/// Whether a request asks for a connection: it says so, or it says nothing of it and names a flow or
/// a sender.
pub open spec fn asks_to_connect(body: Doc, staged: StagedModel) -> bool {
    match body.boolean_field("master_enable"@) {
        Some(b) => b,
        None => body.text_field("sender_id"@) is Some || staged_flow(staged) is Some,
    }
}

/// What a request to a receiver calls for. The flow is the one that is staged; where none is, it is
/// that of the sender, which needs no registry where the sender is one of this node.
pub open spec fn receiver_plan(state: NmosState, id: Seq<char>, body: Doc) -> ReceiverPlanModel {
    if receiver_at(state.sources.list(), id) is None {
        ReceiverPlanModel::NotFound
    } else if !no_transport_file(body) {
        ReceiverPlanModel::Bad(
            "MXL Receivers take no transport_file (use transport_params.mxl_flow_id)"@,
        )
    } else {
        match parsed_staged(Role::Receiver, body, uuid_text(state.domain.id.bits), None) {
            Err(e) => ReceiverPlanModel::Refused(e),
            Ok(staged) => {
                let sender = body.text_field("sender_id"@);
                let flow = staged_flow(staged);
                if !asks_to_connect(body, staged) {
                    ReceiverPlanModel::Disconnect { sender_id: sender }
                } else {
                    match (flow, sender) {
                        (Some(f), _) => ReceiverPlanModel::Connect { sender_id: sender, flow: f },
                        (None, Some(s)) => match sender_at(state.sinks.list(), s) {
                            Some(i) => ReceiverPlanModel::Connect {
                                sender_id: sender,
                                flow: uuid_text(state.sinks.list()[i].1.flow_id.bits),
                            },
                            None => ReceiverPlanModel::Resolve { sender: s },
                        },
                        (None, None) => ReceiverPlanModel::Bad(
                            "activating an MXL Receiver requires transport_params mxl_flow_id (or a sender_id)"@,
                        ),
                    }
                }
            },
        }
    }
}

/// Reads what a request to a receiver calls for.
pub fn plan_receiver_patch(state: &NmosState, id: &str, body: &Json) -> (r: ReceiverPlan)
    ensures
        r@ == receiver_plan(*state, id@, body@),
{
    if find_receiver(&state.sources, id).is_none() {
        return ReceiverPlan::NotFound;
    }
    if let Err(e) = check_no_transport_file(body) {
        return ReceiverPlan::Bad(e);
    }
    let domain = state.domain.id.to_string();
    let staged = match parse_staged(Role::Receiver, body, domain.as_str(), None) {
        Ok(s) => s,
        Err(e) => {
            return ReceiverPlan::Refused(e);
        },
    };
    let sender_id: Option<String> = match body.text_field("sender_id") {
        Some(s) => Some(s.to_owned()),
        None => None,
    };
    let flow: Option<String> = match staged.flow {
        Some(Param::Id(f)) => Some(f),
        _ => None,
    };
    let active = match body.boolean_field("master_enable") {
        Some(b) => b,
        None => sender_id.is_some() || flow.is_some(),
    };
    if !active {
        return ReceiverPlan::Disconnect { sender_id };
    }
    if let Some(f) = flow {
        return ReceiverPlan::Connect { sender_id, flow: f };
    }
    match sender_id {
        Some(s) => match state.own_sink_flow_id(s.as_str()) {
            Some(f) => ReceiverPlan::Connect { sender_id: Some(s), flow: f.to_string() },
            None => ReceiverPlan::Resolve { sender: s },
        },
        None => ReceiverPlan::Bad(
            "activating an MXL Receiver requires transport_params mxl_flow_id (or a sender_id)".to_owned(),
        ),
    }
}

/// What a request to a receiver calls for after a registry was asked for the flow of the sender.
pub open spec fn resolved_plan(
    plan: ReceiverPlanModel,
    found: Result<Seq<char>, Seq<char>>,
) -> ReceiverPlanModel {
    match (plan, found) {
        (ReceiverPlanModel::Resolve { sender }, Ok(flow)) => ReceiverPlanModel::Connect {
            sender_id: Some(sender),
            flow,
        },
        (ReceiverPlanModel::Resolve { .. }, Err(e)) => ReceiverPlanModel::Bad(
            "could not resolve sender_id: "@ + e,
        ),
        _ => plan,
    }
}

/// Settles what a request to a receiver calls for with the flow of the sender, or with why none was
/// found.
pub fn resolve_receiver(plan: ReceiverPlan, found: Result<String, String>) -> (r: ReceiverPlan)
    ensures
        r@ == resolved_plan(
            plan@,
            match found {
                Ok(f) => Ok(f@),
                Err(e) => Err(e@),
            },
        ),
{
    match plan {
        ReceiverPlan::Resolve { sender } => match found {
            Ok(flow) => ReceiverPlan::Connect { sender_id: Some(sender), flow },
            Err(e) => {
                let mut s = "could not resolve sender_id: ".to_owned();
                s.append(e.as_str());
                ReceiverPlan::Bad(s)
            },
        },
        p => p,
    }
}

/// The answer to a request to a receiver that is refused.
pub open spec fn receiver_refusal(plan: ReceiverPlanModel, shown: Seq<char>) -> Option<(u16, Doc)> {
    match plan {
        ReceiverPlanModel::NotFound => Some(error_reply(404, "Not Found"@)),
        ReceiverPlanModel::Refused(r) => Some(error_reply(400, r.text(shown))),
        ReceiverPlanModel::Bad(s) => Some(error_reply(400, s)),
        _ => None,
    }
}

/// The answer to a request to a receiver, where it is refused. `shown` is the value at fault, as it
/// is written.
pub fn refuse_receiver(plan: &ReceiverPlan, shown: &str) -> (r: Option<Reply>)
    ensures
        match r {
            Some(a) => receiver_refusal(plan@, shown@) == Some(a@),
            None => receiver_refusal(plan@, shown@) is None,
        },
{
    match plan {
        ReceiverPlan::NotFound => Some(not_found()),
        ReceiverPlan::Refused(e) => Some(bad_request(e.message(shown).as_str())),
        ReceiverPlan::Bad(s) => Some(bad_request(s.as_str())),
        _ => None,
    }
}

/// What a settled request activates: whether the receiver is connected, to which sender, and to
/// which flow.
pub open spec fn connection(plan: ReceiverPlanModel) -> (
    bool,
    Option<Seq<char>>,
    Option<Seq<char>>,
) {
    match plan {
        ReceiverPlanModel::Connect { sender_id, flow } => (true, sender_id, Some(flow)),
        ReceiverPlanModel::Disconnect { sender_id } => (false, sender_id, None),
        _ => (false, None, None),
    }
}

/// The answer to a request to a receiver, and the mirrors after it: what is staged now, why the
/// request is refused, or that the activation could not be applied.
pub open spec fn receiver_answer(
    state: NmosState,
    id: Seq<char>,
    plan: ReceiverPlanModel,
    shown: Seq<char>,
    opened: Result<(), String>,
) -> ((u16, Doc), NmosModel) {
    match receiver_refusal(plan, shown) {
        Some(a) => (a, state@),
        None => {
            let (active, sender_id, flow) = connection(plan);
            let (outcome, now) = source_activation(state, id, active, sender_id, flow, opened);
            match outcome {
                Err(e) => (error_reply(500, e), now),
                Ok(_) => {
                    let (key, _) = state.sources.list()[receiver_at(state.sources.list(), id)->0];
                    ((200, receiver_staged_doc(state.domain.id, now.sources[key])), now)
                },
            }
        },
    }
}

/// Carries out what a settled request to a receiver calls for, and answers it. Where it connects,
/// `opened` says what came of opening the flow.
pub fn finish_receiver_patch(
    state: &mut NmosState,
    id: &str,
    plan: ReceiverPlan,
    shown: &str,
    opened: Result<(), String>,
) -> (r: Reply)
    requires
        old(state).wf(),
        !(plan is Resolve),
    ensures
        final(state).wf(),
        final(state).same_node(*old(state)),
        (r@, final(state)@) == receiver_answer(*old(state), id@, plan@, shown@, opened),
{
    if let Some(a) = refuse_receiver(&plan, shown) {
        return a;
    }
    let ghost list = state.sources.list();
    let (active, sender_id, flow): (bool, Option<String>, Option<String>) = match plan {
        ReceiverPlan::Connect { sender_id, flow } => (true, sender_id, Some(flow)),
        ReceiverPlan::Disconnect { sender_id } => (false, sender_id, None),
        _ => (false, None, None),
    };
    if let Err(e) = state.set_source_activation(id, active, sender_id, flow, opened) {
        return fail(500, e.as_str());
    }
    proof {
        lemma_same_receivers(list, state.sources.list(), id@);
        let i = receiver_at(list, id@)->0;
        lemma_in_map(state.sources.list(), i);
        assert(state@.sources[state.sources.list()[i].0] == state.sources.list()[i].1@);
    }
    receiver_staged(state, id)
}

/// What a controller reads of a sender it can send back: it is not refused, and where the sender
/// shows the last of its leases, it changes none of them.
pub proof fn law_shown_sender_can_be_sent_back(state: NmosState, id: Seq<char>)
    requires
        state.wf(),
        sender_at(state.sinks.list(), id) is Some,
    ensures
        ({
            let e = state.sinks.list()[sender_at(state.sinks.list(), id)->0].1@;
            let action = if e.active {
                LeaseModel::Acquire(
                    match e.receiver_id {
                        Some(r) => r,
                        None => CONTROLLER_LEASE@,
                    },
                )
            } else {
                LeaseModel::Release(e.receiver_id)
            };
            &&& sender_plan(state, id, sender_staged_doc(state.domain.id, e))
                == SenderPlanModel::Lease(action)
            &&& e.active && e.leases.len() > 0 && e.receiver_id == Some(e.leases.last())
                ==> leases_after(e.leases, action) == e.leases
            &&& !e.active && e.leases.len() == 0 ==> leases_after(e.leases, action) == e.leases
        }),
{
    broadcast use {lemma_field_with, lemma_field_empty};

    let list = state.sinks.list();
    lemma_first_meets(list, |e: (u8, SinkEntry)| uuid_text(e.1.sender_id.bits) == id);
    let i = sender_at(list, id)->0;
    let e = list[i].1@;
    let body = sender_staged_doc(state.domain.id, e);
    let flow = uuid_text(e.flow_id.bits);
    lemma_versioned_is_mxl_uuid(list[i].1.flow_id.bits, 5);
    lemma_staged_keys();
    assert(body.field("transport_params"@) == Some(
        shown_params(uuid_text(state.domain.id.bits), Some(flow)),
    ));
    assert(body.boolean_field("master_enable"@) == Some(e.active));
    assert(body.text_field("receiver_id"@) == e.receiver_id);
    law_shown_parameters_can_be_staged(
        Role::Sender,
        body,
        uuid_text(state.domain.id.bits),
        Some(flow),
    );
    if e.leases.len() > 0 {
        assert(e.leases[e.leases.len() - 1] == e.leases.last());
    } else {
        assert(e.leases =~= Seq::empty());
        if let Some(r) = e.receiver_id {
            assert(without(e.leases, r) =~= e.leases);
        }
    }
}

/// What a controller reads of a receiver it can send back: a connected receiver is connected to the
/// same flow, and one that is not stays so.
pub proof fn law_shown_receiver_can_be_sent_back(state: NmosState, id: Seq<char>)
    requires
        state.wf(),
        receiver_at(state.sources.list(), id) is Some,
        ({
            let e = state.sources.list()[receiver_at(state.sources.list(), id)->0].1@;
            &&& e.active <==> e.flow_id is Some
            &&& e.flow_id matches Some(f) ==> mxl_uuid(f)
        }),
    ensures
        ({
            let e = state.sources.list()[receiver_at(state.sources.list(), id)->0].1@;
            receiver_plan(state, id, receiver_staged_doc(state.domain.id, e)) == (match e.flow_id {
                Some(f) => ReceiverPlanModel::Connect { sender_id: e.sender_id, flow: f },
                None => ReceiverPlanModel::Disconnect { sender_id: e.sender_id },
            })
        }),
{
    broadcast use {lemma_field_with, lemma_field_empty};

    let list = state.sources.list();
    lemma_first_meets(list, |e: (u8, SourceEntry)| uuid_text(e.1.receiver_id.bits) == id);
    let i = receiver_at(list, id)->0;
    let e = list[i].1@;
    let body = receiver_staged_doc(state.domain.id, e);
    lemma_staged_keys();
    assert(body.field("transport_params"@) == Some(
        shown_params(uuid_text(state.domain.id.bits), e.flow_id),
    ));
    assert(body.boolean_field("master_enable"@) == Some(e.active));
    assert(body.text_field("sender_id"@) == e.sender_id);
    assert(body.field("transport_file"@) == Some(no_file()));
    assert(no_file().field("data"@) == Some(Doc::Null));
    assert(no_file().field("type"@) == Some(Doc::Null));
    law_shown_parameters_can_be_staged(
        Role::Receiver,
        body,
        uuid_text(state.domain.id.bits),
        e.flow_id,
    );
}

/// A request to a receiver is refused, with what is wrong, and changes nothing, where it brings a
/// transport file, where its parameters cannot be staged, and where it activates the receiver with
/// neither a flow nor a sender. No other request to a receiver that exists is refused, unless its
/// sender cannot be resolved.
pub proof fn law_refused_receiver_requests_change_nothing(
    state: NmosState,
    id: Seq<char>,
    body: Doc,
    shown: Seq<char>,
    opened: Result<(), String>,
)
    requires
        receiver_at(state.sources.list(), id) is Some,
    ensures
        ({
            let own = uuid_text(state.domain.id.bits);
            let staged = parsed_staged(Role::Receiver, body, own, None);
            let plan = receiver_plan(state, id, body);
            let (answer, now) = receiver_answer(state, id, plan, shown, opened);
            let refused = !no_transport_file(body) || match staged {
                Err(_) => true,
                Ok(p) => asks_to_connect(body, p) && staged_flow(p) is None && body.text_field(
                    "sender_id"@,
                ) is None,
            };
            &&& refused ==> answer.0 == 400 && now == state@
            &&& no_transport_file(body) && staged is Err ==> answer == error_reply(
                400,
                staged->Err_0.text(shown),
            )
            &&& refused <==> receiver_refusal(plan, shown) is Some
        }),
{
}

/// A request to a receiver whose sender could not be resolved is refused and changes nothing, and
/// so is one to a receiver that does not exist.
pub proof fn law_unresolved_receiver_requests_change_nothing(
    state: NmosState,
    id: Seq<char>,
    body: Doc,
    error: Seq<char>,
    shown: Seq<char>,
    opened: Result<(), String>,
)
    ensures
        ({
            let plan = resolved_plan(receiver_plan(state, id, body), Err(error));
            let answer = receiver_answer(state, id, plan, shown, opened);
            &&& receiver_at(state.sources.list(), id) is None ==> answer == (
                error_reply(404, "Not Found"@),
                state@,
            )
            &&& receiver_plan(state, id, body) is Resolve ==> answer == (
                error_reply(400, "could not resolve sender_id: "@ + error),
                state@,
            )
        }),
{
}

/// A request to a sender is refused, with what is wrong, and changes nothing, where there is no such
/// sender and where its parameters cannot be staged. No other request is.
pub proof fn law_refused_sender_requests_change_nothing(
    state: NmosState,
    id: Seq<char>,
    body: Doc,
    shown: Seq<char>,
    opened: Result<(), String>,
)
    ensures
        ({
            let plan = sender_plan(state, id, body);
            let answer = sender_answer(state, id, plan, shown, opened);
            match sender_at(state.sinks.list(), id) {
                None => answer == (error_reply(404, "Not Found"@), state@),
                Some(i) => {
                    let flow = uuid_text(state.sinks.list()[i].1.flow_id.bits);
                    let own = uuid_text(state.domain.id.bits);
                    match parsed_staged(Role::Sender, body, own, Some(flow)) {
                        Err(e) => answer == (error_reply(400, e.text(shown)), state@),
                        Ok(_) => sender_refusal(plan, shown) is None,
                    }
                },
            }
        }),
{
}

/// Only a request that is answered with what is staged changes anything: neither a refusal nor an
/// activation that cannot be applied does.
pub proof fn law_only_success_changes_a_node(
    state: NmosState,
    id: Seq<char>,
    sender: SenderPlanModel,
    receiver: ReceiverPlanModel,
    shown: Seq<char>,
    opened: Result<(), String>,
)
    ensures
        ({
            let (answer, now) = sender_answer(state, id, sender, shown, opened);
            answer.0 != 200 ==> now == state@
        }),
        ({
            let (answer, now) = receiver_answer(state, id, receiver, shown, opened);
            answer.0 != 200 ==> now == state@
        }),
{
}

proof fn lemma_staged_keys()
    ensures
        "master_enable"@ != "activation"@,
        "master_enable"@ != "receiver_id"@,
        "master_enable"@ != "sender_id"@,
        "master_enable"@ != "transport_file"@,
        "master_enable"@ != "transport_params"@,
        "activation"@ != "receiver_id"@,
        "activation"@ != "sender_id"@,
        "activation"@ != "transport_file"@,
        "activation"@ != "transport_params"@,
        "receiver_id"@ != "transport_params"@,
        "sender_id"@ != "transport_file"@,
        "sender_id"@ != "transport_params"@,
        "transport_file"@ != "transport_params"@,
        "data"@ != "type"@,
{
    reveal_strlit("master_enable");
    reveal_strlit("activation");
    reveal_strlit("receiver_id");
    reveal_strlit("sender_id");
    reveal_strlit("transport_file");
    reveal_strlit("transport_params");
    reveal_strlit("data");
    reveal_strlit("type");
    assert("master_enable"@.len() == 13);
    assert("activation"@.len() == 10);
    assert("receiver_id"@.len() == 11);
    assert("sender_id"@.len() == 9);
    assert("transport_file"@.len() == 14);
    assert("transport_params"@.len() == 16);
    assert("data"@[0] == 'd' && "type"@[0] == 't');
}

} // verus!
