//! What holds of requests to senders and receivers: which parameters are accepted, and what a
//! request leads to.

use vstd::prelude::*;
use vstd::string::*;

use crate::bridge::mxl_domain::mxl_uuid;
use crate::bridge::nmos::mxl_transport::{
    no_transport_file, parsed_set, parsed_staged, ParamModel, RefusalModel, Role,
    StagedModel,
};
use crate::bridge::nmos::server::{
    receiver_plan, sender_plan, ReceiverPlanModel, SenderPlanModel,
};
use crate::bridge::nmos::state::{receiver_at, sender_at, LeaseModel, NmosState};
use crate::json::Doc;
use crate::uuid::uuid_text;

verus! {

/// Whether a parameter says what a value says.
pub open spec fn says(p: ParamModel, d: Doc) -> bool {
    match d {
        Doc::Null => p is Null,
        Doc::Text(s) => if s == "auto"@ {
            p is Auto
        } else {
            p == ParamModel::Id(s) && mxl_uuid(s)
        },
        _ => false,
    }
}

/// Whether an entry of a set of parameters can be staged on a node: the node's own domain, and, for
/// a sender, its own flow, or for a receiver any flow; parameters of vendors are not looked at.
pub open spec fn stageable(
    role: Role,
    e: (Seq<char>, Doc),
    own_domain: Seq<char>,
    own_flow: Option<Seq<char>>,
) -> bool {
    if e.0 == "mxl_domain_id"@ {
        match e.1 {
            Doc::Null => true,
            Doc::Text(s) => s == "auto"@ || (s == own_domain && mxl_uuid(s)),
            _ => false,
        }
    } else if e.0 == "mxl_flow_id"@ {
        match e.1 {
            Doc::Null => true,
            Doc::Text(s) => if s == "auto"@ {
                role == Role::Sender
            } else {
                mxl_uuid(s) && (role == Role::Sender ==> (own_flow matches Some(f) ==> f == s))
            },
            _ => false,
        }
    } else {
        "ext_"@.is_prefix_of(e.0)
    }
}

proof fn lemma_set_read(role: Role, es: Seq<(Seq<char>, Doc)>)
    requires
        parsed_set(role, es) is Ok,
    ensures
        ({
            let s = parsed_set(role, es)->Ok_0;
            &&& forall|j: int|
                0 <= j < es.len() ==> ((#[trigger] es[j]).0 == "mxl_domain_id"@ || es[j].0
                    == "mxl_flow_id"@ || "ext_"@.is_prefix_of(es[j].0))
            &&& match s.domain {
                Some(p) => exists|j: int|
                    0 <= j < es.len() && (#[trigger] es[j]).0 == "mxl_domain_id"@ && says(
                        p,
                        es[j].1,
                    ),
                None => forall|j: int|
                    0 <= j < es.len() ==> (#[trigger] es[j]).0 != "mxl_domain_id"@,
            }
            &&& match s.flow {
                Some(p) => (exists|j: int|
                    0 <= j < es.len() && (#[trigger] es[j]).0 == "mxl_flow_id"@ && says(
                        p,
                        es[j].1,
                    )) && (role == Role::Receiver ==> !(p is Auto)),
                None => forall|j: int|
                    0 <= j < es.len() ==> (#[trigger] es[j]).0 != "mxl_flow_id"@,
            }
        }),
    decreases es.len(),
{
    reveal_strlit("mxl_domain_id");
    reveal_strlit("mxl_flow_id");
    assert("mxl_domain_id"@.len() == 13 && "mxl_flow_id"@.len() == 11);
    if es.len() > 0 {
        let rest = es.drop_last();
        lemma_set_read(role, rest);
        let before = parsed_set(role, rest)->Ok_0;
        let s = parsed_set(role, es)->Ok_0;
        assert(forall|j: int| 0 <= j < rest.len() ==> rest[j] == es[j]);
        let last = es.len() - 1;
        assert(es[last] == es.last());
        if es.last().0 == "mxl_domain_id"@ {
            assert(says(s.domain->0, es[last].1));
        } else if let Some(p) = before.domain {
            let j = choose|j: int|
                0 <= j < rest.len() && (#[trigger] rest[j]).0 == "mxl_domain_id"@ && says(
                    p,
                    rest[j].1,
                );
            assert(es[j].0 == "mxl_domain_id"@ && says(p, es[j].1));
        }
        if es.last().0 == "mxl_flow_id"@ {
            assert(says(s.flow->0, es[last].1));
        } else if let Some(p) = before.flow {
            let j = choose|j: int|
                0 <= j < rest.len() && (#[trigger] rest[j]).0 == "mxl_flow_id"@ && says(
                    p,
                    rest[j].1,
                );
            assert(es[j].0 == "mxl_flow_id"@ && says(p, es[j].1));
        }
    }
}

/// What is staged is what the request says, in its one set of parameters: nothing where it has
/// none. It is in the node's own domain, a sender's flow is its own, and a receiver is never left
/// to choose a flow.
pub proof fn law_what_is_staged_was_said(
    role: Role,
    body: Doc,
    own_domain: Seq<char>,
    own_flow: Option<Seq<char>>,
)
    requires
        parsed_staged(role, body, own_domain, own_flow) is Ok,
    ensures
        ({
            let s = parsed_staged(role, body, own_domain, own_flow)->Ok_0;
            &&& match body.field("transport_params"@) {
                None => s.domain is None && s.flow is None,
                Some(Doc::Array(sets)) => sets.len() == 1 && (sets[0] matches Doc::Object(es) && {
                    &&& match s.domain {
                        Some(p) => exists|j: int|
                            0 <= j < es.len() && (#[trigger] es[j]).0 == "mxl_domain_id"@ && says(
                                p,
                                es[j].1,
                            ),
                        None => forall|j: int|
                            0 <= j < es.len() ==> (#[trigger] es[j]).0 != "mxl_domain_id"@,
                    }
                    &&& match s.flow {
                        Some(p) => exists|j: int|
                            0 <= j < es.len() && (#[trigger] es[j]).0 == "mxl_flow_id"@ && says(
                                p,
                                es[j].1,
                            ),
                        None => forall|j: int|
                            0 <= j < es.len() ==> (#[trigger] es[j]).0 != "mxl_flow_id"@,
                    }
                    &&& forall|j: int|
                        0 <= j < es.len() ==> ((#[trigger] es[j]).0 == "mxl_domain_id"@ || es[j].0
                            == "mxl_flow_id"@ || "ext_"@.is_prefix_of(es[j].0))
                }),
                Some(_) => false,
            }
            &&& s.domain matches Some(ParamModel::Id(d)) ==> d == own_domain
            &&& role == Role::Sender ==> (s.flow matches Some(ParamModel::Id(f)) ==> (own_flow matches Some(
                own,
            ) ==> f == own))
            &&& role == Role::Receiver ==> !(s.flow matches Some(ParamModel::Auto))
        }),
{
    if let Some(Doc::Array(sets)) = body.field("transport_params"@) {
        if let Doc::Object(es) = sets[0] {
            lemma_set_read(role, es);
        }
    }
}

proof fn lemma_set_accepted(
    role: Role,
    es: Seq<(Seq<char>, Doc)>,
    own_domain: Seq<char>,
    own_flow: Option<Seq<char>>,
)
    requires
        forall|j: int|
            0 <= j < es.len() ==> stageable(role, #[trigger] es[j], own_domain, own_flow),
    ensures
        parsed_set(role, es) matches Ok(s) && (s.domain matches Some(ParamModel::Id(d)) ==> d
            == own_domain) && (role == Role::Sender ==> (s.flow matches Some(ParamModel::Id(f))
            ==> (own_flow matches Some(own) ==> f == own))),
    decreases es.len(),
{
    reveal_strlit("mxl_domain_id");
    reveal_strlit("mxl_flow_id");
    assert("mxl_domain_id"@.len() == 13 && "mxl_flow_id"@.len() == 11);
    if es.len() > 0 {
        let rest = es.drop_last();
        assert(forall|j: int| 0 <= j < rest.len() ==> rest[j] == es[j]);
        lemma_set_accepted(role, rest, own_domain, own_flow);
        assert(stageable(role, es[es.len() - 1], own_domain, own_flow));
    }
}

/// One set of parameters of which each can be staged is accepted.
pub proof fn law_what_can_be_staged_is_accepted(
    role: Role,
    body: Doc,
    es: Seq<(Seq<char>, Doc)>,
    own_domain: Seq<char>,
    own_flow: Option<Seq<char>>,
)
    requires
        body.field("transport_params"@) is None || body.field("transport_params"@) == Some(
            Doc::Array(seq![Doc::Object(es)]),
        ),
        forall|j: int|
            0 <= j < es.len() ==> stageable(role, #[trigger] es[j], own_domain, own_flow),
    ensures
        parsed_staged(role, body, own_domain, own_flow) is Ok,
{
    lemma_set_accepted(role, es, own_domain, own_flow);
}

/// What a request to a receiver leads to, where it is not refused. `master_enable` says whether it
/// connects; without it, naming a flow or a sender does. The flow that is named goes before the
/// sender; a sender of this node is connected to with its own flow; any other is looked up.
pub proof fn law_what_a_receiver_request_leads_to(
    state: NmosState,
    id: Seq<char>,
    body: Doc,
    staged: StagedModel,
)
    requires
        receiver_at(state.sources.list(), id) is Some,
        no_transport_file(body),
        parsed_staged(Role::Receiver, body, uuid_text(state.domain.id.bits), None) == Ok::<
            StagedModel,
            RefusalModel,
        >(staged),
    ensures
        ({
            let plan = receiver_plan(state, id, body);
            let sender = match body.field("sender_id"@) {
                Some(Doc::Text(s)) => Some(s),
                _ => None,
            };
            let named = (staged.flow matches Some(ParamModel::Id(_))) || sender is Some;
            let connect = match body.field("master_enable"@) {
                Some(Doc::Bool(b)) => b,
                _ => named,
            };
            &&& !connect ==> plan == (ReceiverPlanModel::Disconnect { sender_id: sender })
            &&& connect && !named ==> plan is Bad
            &&& connect ==> (staged.flow matches Some(ParamModel::Id(f)) ==> plan == (
            ReceiverPlanModel::Connect { sender_id: sender, flow: f }))
            &&& connect && !(staged.flow matches Some(ParamModel::Id(_))) ==> (sender matches Some(s)
                ==> match sender_at(state.sinks.list(), s) {
                Some(i) => plan == (ReceiverPlanModel::Connect {
                    sender_id: sender,
                    flow: uuid_text(state.sinks.list()[i].1.flow_id.bits),
                }),
                None => plan == (ReceiverPlanModel::Resolve { sender: s }),
            })
        }),
{
}

/// What a request to a sender leads to, where it is not refused: enabling takes a lease for the
/// receiver that is named, or for the controller; disabling gives back the lease of the receiver
/// that is named, or all; a request that says neither changes nothing.
pub proof fn law_what_a_sender_request_leads_to(state: NmosState, id: Seq<char>, body: Doc)
    requires
        sender_at(state.sinks.list(), id) matches Some(i) && parsed_staged(
            Role::Sender,
            body,
            uuid_text(state.domain.id.bits),
            Some(uuid_text(state.sinks.list()[i].1.flow_id.bits)),
        ) is Ok,
    ensures
        ({
            let plan = sender_plan(state, id, body);
            let receiver = match body.field("receiver_id"@) {
                Some(Doc::Text(s)) => Some(s),
                _ => None,
            };
            match body.field("master_enable"@) {
                Some(Doc::Bool(true)) => match receiver {
                    Some(r) => plan == SenderPlanModel::Lease(LeaseModel::Acquire(r)),
                    None => plan == SenderPlanModel::Lease(LeaseModel::Acquire("controller"@)),
                },
                Some(Doc::Bool(false)) => plan == SenderPlanModel::Lease(
                    LeaseModel::Release(receiver),
                ),
                _ => plan is Show,
            }
        }),
{
}

} // verus!
