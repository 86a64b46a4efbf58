//! The transport parameters of flows in shared memory: the domain and the flow.
//!
//! There is exactly one set of parameters. What is not determined is null. `auto` may be staged and
//! stands for the node's own value, but never for the flow that a receiver reads.

use vstd::prelude::*;
use vstd::string::*;

use crate::bridge::mxl_domain::{is_mxl_uuid, mxl_uuid};
use crate::json::{fields, option_str_view, text_or_null, Doc, Json};
use crate::text::{dec, decimal, same, strip_prefix, stripped};

verus! {

/// Which end of a connection.
#[derive(Clone, Copy, Debug, PartialEq, Eq, Structural)]
pub enum Role {
    Sender,
    Receiver,
}

/// One parameter as a controller stages it.
#[derive(Clone, Debug, PartialEq, Eq)]
pub enum Param {
    Null,
    Auto,
    Id(String),
}

/// What a [`Param`] says.
pub enum ParamModel {
    Null,
    Auto,
    Id(Seq<char>),
}

impl View for Param {
    type V = ParamModel;

    open spec fn view(&self) -> ParamModel {
        match *self {
            Param::Null => ParamModel::Null,
            Param::Auto => ParamModel::Auto,
            Param::Id(s) => ParamModel::Id(s@),
        }
    }
}

/// The parameters that a controller stages; what is absent stays as it is.
#[derive(Clone, Debug, PartialEq, Eq)]
pub struct Staged {
    pub domain: Option<Param>,
    pub flow: Option<Param>,
}

/// What a [`Staged`] says.
pub struct StagedModel {
    pub domain: Option<ParamModel>,
    pub flow: Option<ParamModel>,
}

/// What an optional parameter says.
pub open spec fn param_view(p: Option<Param>) -> Option<ParamModel> {
    match p {
        Some(x) => Some(x@),
        None => None,
    }
}

impl View for Staged {
    type V = StagedModel;

    open spec fn view(&self) -> StagedModel {
        StagedModel { domain: param_view(self.domain), flow: param_view(self.flow) }
    }
}

impl Default for Staged {
    fn default() -> (r: Self)
        ensures
            r@ == (StagedModel { domain: None, flow: None }),
    {
        Staged { domain: None, flow: None }
    }
}

/// Why parameters cannot be staged.
#[derive(Debug)]
pub enum Refusal {
    NotAnArray,
    SetCount(usize),
    NotAnObject,
    AutoFlow,
    Malformed { name: String },
    Unknown { name: String },
    OtherDomain { asked: String, own: String },
    OtherFlow { asked: String, own: String },
}

/// What a [`Refusal`] says.
pub enum RefusalModel {
    NotAnArray,
    SetCount(nat),
    NotAnObject,
    AutoFlow,
    Malformed { name: Seq<char> },
    Unknown { name: Seq<char> },
    OtherDomain { asked: Seq<char>, own: Seq<char> },
    OtherFlow { asked: Seq<char>, own: Seq<char> },
}

impl View for Refusal {
    type V = RefusalModel;

    open spec fn view(&self) -> RefusalModel {
        match *self {
            Refusal::NotAnArray => RefusalModel::NotAnArray,
            Refusal::SetCount(n) => RefusalModel::SetCount(n as nat),
            Refusal::NotAnObject => RefusalModel::NotAnObject,
            Refusal::AutoFlow => RefusalModel::AutoFlow,
            Refusal::Malformed { name } => RefusalModel::Malformed { name: name@ },
            Refusal::Unknown { name } => RefusalModel::Unknown { name: name@ },
            Refusal::OtherDomain { asked, own } => RefusalModel::OtherDomain {
                asked: asked@,
                own: own@,
            },
            Refusal::OtherFlow { asked, own } => RefusalModel::OtherFlow {
                asked: asked@,
                own: own@,
            },
        }
    }
}

impl RefusalModel {
    /// How a refusal is put into words. `shown` is the value at fault, as it is written.
    pub open spec fn text(self, shown: Seq<char>) -> Seq<char> {
        match self {
            RefusalModel::NotAnArray => "transport_params must be an array"@,
            RefusalModel::SetCount(n) => "MXL uses exactly one set of transport parameters, got "@
                + dec(n),
            RefusalModel::NotAnObject => "transport_params[0] must be an object"@,
            RefusalModel::AutoFlow => "a Receiver's mxl_flow_id does not accept \"auto\""@,
            RefusalModel::Malformed { name } => name + ": "@ + shown
                + " is neither null, \"auto\" nor a lowercase MXL UUID"@,
            RefusalModel::Unknown { name } => "unknown MXL transport parameter '"@ + name + "'"@,
            RefusalModel::OtherDomain { asked, own } => "MXL Domain "@ + asked
                + " is not available on this node (only "@ + own + ")"@,
            RefusalModel::OtherFlow { asked, own } => "this Sender writes MXL Flow "@ + own
                + ", not "@ + asked,
        }
    }
}

impl Refusal {
    /// The refusal in words. `shown` is the value at fault, as it is written.
    pub fn message(&self, shown: &str) -> (r: String)
        ensures
            r@ == self@.text(shown@),
    {
        match self {
            Refusal::NotAnArray => "transport_params must be an array".to_owned(),
            Refusal::SetCount(n) => {
                let mut s = "MXL uses exactly one set of transport parameters, got ".to_owned();
                s.append(decimal(*n as u64).as_str());
                s
            },
            Refusal::NotAnObject => "transport_params[0] must be an object".to_owned(),
            Refusal::AutoFlow => "a Receiver's mxl_flow_id does not accept \"auto\"".to_owned(),
            Refusal::Malformed { name } => {
                let mut s = name.clone();
                s.append(": ");
                s.append(shown);
                s.append(" is neither null, \"auto\" nor a lowercase MXL UUID");
                s
            },
            Refusal::Unknown { name } => {
                let mut s = "unknown MXL transport parameter '".to_owned();
                s.append(name.as_str());
                s.append("'");
                s
            },
            Refusal::OtherDomain { asked, own } => {
                let mut s = "MXL Domain ".to_owned();
                s.append(asked.as_str());
                s.append(" is not available on this node (only ");
                s.append(own.as_str());
                s.append(")");
                s
            },
            Refusal::OtherFlow { asked, own } => {
                let mut s = "this Sender writes MXL Flow ".to_owned();
                s.append(own.as_str());
                s.append(", not ");
                s.append(asked.as_str());
                s
            },
        }
    }
}

/// The one set of parameters as documents show it.
pub open spec fn params_doc(domain_id: Option<Seq<char>>, flow_id: Option<Seq<char>>) -> Doc {
    Doc::one(
        Doc::object().with("mxl_domain_id"@, text_or_null(domain_id)).with(
            "mxl_flow_id"@,
            text_or_null(flow_id),
        ),
    )
}

/// The one set of parameters as documents show it.
pub fn params(domain_id: Option<&str>, flow_id: Option<&str>) -> (r: Json)
    ensures
        r@ == params_doc(option_str_view(domain_id), option_str_view(flow_id)),
{
    Json::one(
        Json::new_object().with("mxl_domain_id", Json::text_or_null(domain_id)).with(
            "mxl_flow_id",
            Json::text_or_null(flow_id),
        ),
    )
}

/// A constraint to one value.
pub open spec fn only(value: Seq<char>) -> Doc {
    Doc::object().with("enum"@, Doc::one(Doc::Text(value)))
}

/// The one set of constraints: a sender writes one flow in one domain, a receiver reads any flow of
/// one domain.
pub open spec fn constraints_doc(
    role: Role,
    domain_id: Seq<char>,
    sender_flow_id: Option<Seq<char>>,
) -> Doc {
    let flow = match (role, sender_flow_id) {
        (Role::Sender, Some(f)) => only(f),
        _ => Doc::object(),
    };
    Doc::one(Doc::object().with("mxl_domain_id"@, only(domain_id)).with("mxl_flow_id"@, flow))
}

/// The one set of constraints.
pub fn constraints(role: Role, domain_id: &str, sender_flow_id: Option<&str>) -> (r: Json)
    ensures
        r@ == constraints_doc(role, domain_id@, option_str_view(sender_flow_id)),
{
    let flow = match (role, sender_flow_id) {
        (Role::Sender, Some(f)) => Json::new_object().with("enum", Json::one(Json::text(f))),
        _ => Json::new_object(),
    };
    let domain = Json::new_object().with("enum", Json::one(Json::text(domain_id)));
    Json::one(Json::new_object().with("mxl_domain_id", domain).with("mxl_flow_id", flow))
}

/// The parameter that a value denotes.
pub open spec fn parsed_param(role: Role, name: Seq<char>, d: Doc) -> Result<
    ParamModel,
    RefusalModel,
> {
    if d is Null {
        Ok(ParamModel::Null)
    } else {
        match d.text() {
            Some(s) => if s == "auto"@ {
                if role == Role::Receiver && name == "mxl_flow_id"@ {
                    Err(RefusalModel::AutoFlow)
                } else {
                    Ok(ParamModel::Auto)
                }
            } else if mxl_uuid(s) {
                Ok(ParamModel::Id(s))
            } else {
                Err(RefusalModel::Malformed { name })
            },
            None => Err(RefusalModel::Malformed { name }),
        }
    }
}

fn param(role: Role, name: &str, v: &Json) -> (r: Result<Param, Refusal>)
    ensures
        match r {
            Ok(p) => parsed_param(role, name@, v@) == Ok::<ParamModel, RefusalModel>(p@),
            Err(e) => parsed_param(role, name@, v@) == Err::<ParamModel, RefusalModel>(e@),
        },
{
    if v.is_null() {
        return Ok(Param::Null);
    }
    match v.as_str() {
        Some(s) => if same(s, "auto") {
            if role == Role::Receiver && same(name, "mxl_flow_id") {
                Err(Refusal::AutoFlow)
            } else {
                Ok(Param::Auto)
            }
        } else if is_mxl_uuid(s) {
            Ok(Param::Id(s.to_owned()))
        } else {
            Err(Refusal::Malformed { name: name.to_owned() })
        },
        None => Err(Refusal::Malformed { name: name.to_owned() }),
    }
}

/// The parameters that the entries of a set denote. Those of vendors are ignored, others are
/// unknown.
pub open spec fn parsed_set(role: Role, es: Seq<(Seq<char>, Doc)>) -> Result<
    StagedModel,
    RefusalModel,
>
    decreases es.len(),
{
    if es.len() == 0 {
        Ok(StagedModel { domain: None, flow: None })
    } else {
        match parsed_set(role, es.drop_last()) {
            Err(e) => Err(e),
            Ok(staged) => {
                let (name, d) = es.last();
                if name == "mxl_domain_id"@ {
                    match parsed_param(role, name, d) {
                        Ok(p) => Ok(StagedModel { domain: Some(p), ..staged }),
                        Err(e) => Err(e),
                    }
                } else if name == "mxl_flow_id"@ {
                    match parsed_param(role, name, d) {
                        Ok(p) => Ok(StagedModel { flow: Some(p), ..staged }),
                        Err(e) => Err(e),
                    }
                } else if stripped(name, "ext_"@) is Some {
                    Ok(staged)
                } else {
                    Err(RefusalModel::Unknown { name })
                }
            },
        }
    }
}

/// The parameters of a set, where they can be applied on a node: in its domain, and for a sender
/// with its flow.
pub open spec fn applicable(
    role: Role,
    staged: StagedModel,
    own_domain_id: Seq<char>,
    own_flow_id: Option<Seq<char>>,
) -> Result<StagedModel, RefusalModel> {
    match staged.domain {
        Some(ParamModel::Id(d)) if d != own_domain_id => Err(
            RefusalModel::OtherDomain { asked: d, own: own_domain_id },
        ),
        _ => match (role, staged.flow, own_flow_id) {
            (Role::Sender, Some(ParamModel::Id(f)), Some(own)) if f != own => Err(
                RefusalModel::OtherFlow { asked: f, own },
            ),
            _ => Ok(staged),
        },
    }
}

/// The parameters that a request stages, or why they cannot be staged on a node.
pub open spec fn parsed_staged(
    role: Role,
    body: Doc,
    own_domain_id: Seq<char>,
    own_flow_id: Option<Seq<char>>,
) -> Result<StagedModel, RefusalModel> {
    match body.field("transport_params"@) {
        None => Ok(StagedModel { domain: None, flow: None }),
        Some(tp) => match tp.items() {
            None => Err(RefusalModel::NotAnArray),
            Some(items) => if items.len() != 1 {
                Err(RefusalModel::SetCount(items.len()))
            } else {
                match items[0].entries() {
                    None => Err(RefusalModel::NotAnObject),
                    Some(es) => match parsed_set(role, es) {
                        Err(e) => Err(e),
                        Ok(staged) => applicable(role, staged, own_domain_id, own_flow_id),
                    },
                }
            },
        },
    }
}

proof fn lemma_set_prefix(role: Role, es: Seq<(Seq<char>, Doc)>, k: int)
    requires
        0 <= k <= es.len(),
        parsed_set(role, es.take(k)) is Err,
    ensures
        parsed_set(role, es) == parsed_set(role, es.take(k)),
    decreases es.len(),
{
    if k < es.len() {
        assert(es.drop_last().take(k) =~= es.take(k));
        lemma_set_prefix(role, es.drop_last(), k);
    } else {
        assert(es.take(k) =~= es);
    }
}

/// What a result with staged parameters says.
pub open spec fn staged_outcome(r: Result<Staged, Refusal>) -> Result<StagedModel, RefusalModel> {
    match r {
        Ok(s) => Ok(s@),
        Err(e) => Err(e@),
    }
}

fn read_set(role: Role, entries: &Vec<(String, Json)>) -> (r: Result<Staged, Refusal>)
    ensures
        staged_outcome(r) == parsed_set(role, fields(entries@)),
{
    let ghost all = fields(entries@);
    let mut staged = Staged { domain: None, flow: None };
    assert(all.take(0) =~= Seq::empty());
    for i in 0..entries.len()
        invariant
            all == fields(entries@),
            parsed_set(role, all.take(i as int)) == Ok::<StagedModel, RefusalModel>(staged@),
    {
        assert(all.take(i + 1).drop_last() =~= all.take(i as int));
        let name = entries[i].0.as_str();
        if same(name, "mxl_domain_id") {
            match param(role, name, &entries[i].1) {
                Ok(p) => {
                    staged.domain = Some(p);
                },
                Err(e) => {
                    proof {
                        lemma_set_prefix(role, all, i + 1);
                    }
                    return Err(e);
                },
            }
        } else if same(name, "mxl_flow_id") {
            match param(role, name, &entries[i].1) {
                Ok(p) => {
                    staged.flow = Some(p);
                },
                Err(e) => {
                    proof {
                        lemma_set_prefix(role, all, i + 1);
                    }
                    return Err(e);
                },
            }
        } else if strip_prefix(name, "ext_").is_none() {
            proof {
                lemma_set_prefix(role, all, i + 1);
            }
            return Err(Refusal::Unknown { name: name.to_owned() });
        }
    }
    assert(all.take(all.len() as int) =~= all);
    Ok(staged)
}

/// Reads the parameters that a request stages, and checks whether they can be applied here.
/// Receivers have no flow of their own.
pub fn parse_staged(role: Role, body: &Json, own_domain_id: &str, own_flow_id: Option<&str>) -> (r:
    Result<Staged, Refusal>)
    ensures
        staged_outcome(r) == parsed_staged(
            role,
            body@,
            own_domain_id@,
            option_str_view(own_flow_id),
        ),
{
    let tp = match body.get("transport_params") {
        Some(v) => v,
        None => {
            return Ok(Staged::default());
        },
    };
    let items = match tp.as_array() {
        Some(a) => a,
        None => {
            return Err(Refusal::NotAnArray);
        },
    };
    if items.len() != 1 {
        return Err(Refusal::SetCount(items.len()));
    }
    let entries = match items[0].as_object() {
        Some(es) => es,
        None => {
            return Err(Refusal::NotAnObject);
        },
    };
    let staged = read_set(role, entries)?;
    if let Some(Param::Id(d)) = &staged.domain {
        if !same(d.as_str(), own_domain_id) {
            return Err(Refusal::OtherDomain { asked: d.clone(), own: own_domain_id.to_owned() });
        }
    }
    if role == Role::Sender {
        if let Some(Param::Id(f)) = &staged.flow {
            if let Some(own) = own_flow_id {
                if !same(f.as_str(), own) {
                    return Err(Refusal::OtherFlow { asked: f.clone(), own: own.to_owned() });
                }
            }
        }
    }
    Ok(staged)
}

/// Whether a value is null or not there.
pub open spec fn absent(d: Option<Doc>) -> bool {
    match d {
        Some(x) => x is Null,
        None => true,
    }
}

/// Whether a request has no transport file: none at all, or one without data and type.
pub open spec fn no_transport_file(body: Doc) -> bool {
    match body.field("transport_file"@) {
        None => true,
        Some(tf) => tf is Null || (absent(tf.field("data"@)) && absent(tf.field("type"@))),
    }
}

fn is_absent(v: Option<&Json>) -> (r: bool)
    ensures
        r == absent(match v {
            Some(j) => Some(j@),
            None => None,
        }),
{
    match v {
        Some(j) => j.is_null(),
        None => true,
    }
}

/// Refuses a request with a transport file: receivers of flows in shared memory take none.
pub fn check_no_transport_file(body: &Json) -> (r: Result<(), String>)
    ensures
        r is Ok <==> no_transport_file(body@),
        r matches Err(e) ==> e@
            == "MXL Receivers take no transport_file (use transport_params.mxl_flow_id)"@,
{
    match body.get("transport_file") {
        None => Ok(()),
        Some(tf) => if tf.is_null() || (is_absent(tf.get("data")) && is_absent(tf.get("type"))) {
            Ok(())
        } else {
            Err("MXL Receivers take no transport_file (use transport_params.mxl_flow_id)".to_owned())
        },
    }
}

/// The parameters that are shown: those of a connection, or nulls where there is none.
pub open spec fn shown_params(domain_id: Seq<char>, flow_id: Option<Seq<char>>) -> Doc {
    match flow_id {
        Some(f) => params_doc(Some(domain_id), Some(f)),
        None => params_doc(None, None),
    }
}

/// What is shown as the parameters of a connection can be staged again, and says the same: a
/// sender's own domain and flow, and a receiver's domain with the flow that it reads, or nulls
/// where it reads none.
pub proof fn law_shown_parameters_can_be_staged(
    role: Role,
    body: Doc,
    domain_id: Seq<char>,
    flow_id: Option<Seq<char>>,
)
    requires
        mxl_uuid(domain_id),
        flow_id matches Some(f) ==> mxl_uuid(f),
        body.field("transport_params"@) == Some(shown_params(domain_id, flow_id)),
    ensures
        parsed_staged(
            role,
            body,
            domain_id,
            if role == Role::Sender {
                flow_id
            } else {
                None
            },
        ) == Ok::<StagedModel, RefusalModel>(
            match flow_id {
                Some(f) => StagedModel {
                    domain: Some(ParamModel::Id(domain_id)),
                    flow: Some(ParamModel::Id(f)),
                },
                None => StagedModel {
                    domain: Some(ParamModel::Null),
                    flow: Some(ParamModel::Null),
                },
            },
        ),
{
    let shown = shown_params(domain_id, flow_id);
    reveal_strlit("mxl_domain_id");
    reveal_strlit("mxl_flow_id");
    reveal_strlit("auto");
    assert("mxl_domain_id"@.len() == 13 && "mxl_flow_id"@.len() == 11 && "auto"@.len() == 4);
    let (d, f) = match flow_id {
        Some(f) => (Doc::Text(domain_id), Doc::Text(f)),
        None => (Doc::Null, Doc::Null),
    };
    let es = Seq::<(Seq<char>, Doc)>::empty().push(("mxl_domain_id"@, d)).push(
        ("mxl_flow_id"@, f),
    );
    assert(shown->Array_0[0] == Doc::Object(es));
    let first = Seq::<(Seq<char>, Doc)>::empty().push(("mxl_domain_id"@, d));
    assert(first.drop_last() =~= Seq::empty());
    assert(es.drop_last() =~= first);
    assert(parsed_set(role, Seq::empty()) is Ok);
    assert(parsed_param(role, "mxl_domain_id"@, d) is Ok);
    assert(parsed_set(role, first) is Ok);
    assert(parsed_param(role, "mxl_flow_id"@, f) is Ok);
    assert(parsed_set(role, es) is Ok);
}

} // verus!
