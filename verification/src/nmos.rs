//! What NMOS documents of all nodes have in common.

use vstd::prelude::*;
use vstd::string::*;

use crate::json::{docs, no_items, option_str_view, put_item, whole, Doc, Json};
use crate::table::{Key, Table};
use crate::text::{dec, decimal, lemma_dec_digits, lemma_dec_injective};
use crate::uuid::{uuid_text, Uuid};

verus! {

/// The registered transport type of flows in shared memory.
pub const TRANSPORT_TYPE: &'static str = "urn:x-nmos:transport:mxl";

/// An answer to a request.
#[derive(Debug)]
pub struct Reply {
    pub status: u16,
    pub body: Json,
}

impl View for Reply {
    type V = (u16, Doc);

    open spec fn view(&self) -> (u16, Doc) {
        (self.status, self.body@)
    }
}

/// An answer that reports an error.
pub open spec fn error_reply(code: u16, error: Seq<char>) -> (u16, Doc) {
    (
        code,
        Doc::object().with("code"@, Doc::Number(whole(code as u64))).with(
            "error"@,
            Doc::Text(error),
        ).with("debug"@, Doc::Null),
    )
}

/// An answer that reports an error.
pub fn fail(code: u16, error: &str) -> (r: Reply)
    ensures
        r@ == error_reply(code, error@),
{
    Reply {
        status: code,
        body: Json::new_object().with("code", Json::whole(code as u64)).with(
            "error",
            Json::text(error),
        ).with("debug", Json::Null),
    }
}

/// An answer that reports no error.
pub fn ok(body: Json) -> (r: Reply)
    ensures
        r@ == (200u16, body@),
{
    Reply { status: 200, body }
}

/// The list of what is made of the values of a table, in their order.
pub(crate) fn list_of<K: Key, V, F: Fn(&V) -> Json>(
    t: &Table<K, V>,
    make: F,
    Ghost(f): Ghost<spec_fn((K, V)) -> Doc>,
) -> (r: Reply)
    requires
        forall|v: &V| #[trigger] make.requires((v,)),
        forall|i: int, j: Json|
            0 <= i < t.list().len() && #[trigger] make.ensures((&t.list()[i].1,), j) ==> j@ == f(
                t.list()[i],
            ),
    ensures
        r@ == (200u16, Doc::Array(t.list().map_values(f))),
{
    let ghost all = t.list();
    let ghost want = all.map_values(f);
    let mut items = no_items();
    let n: usize = t.len();
    for i in 0..n
        invariant
            n == all.len(),
            all == t.list(),
            want == all.map_values(f),
            forall|v: &V| #[trigger] make.requires((v,)),
            forall|k: int, j: Json|
                0 <= k < all.len() && #[trigger] make.ensures((&all[k].1,), j) ==> j@ == f(all[k]),
            docs(items@) == want.take(i as int),
    {
        put_item(&mut items, make(t.value_at(i)));
        assert(docs(items@) =~= want.take(i + 1));
    }
    assert(docs(items@) =~= want);
    ok(Json::array(items))
}

/// The answer for what does not exist.
pub fn not_found() -> (r: Reply)
    ensures
        r@ == error_reply(404, "Not Found"@),
{
    fail(404, "Not Found")
}

/// The answer to a request that cannot be applied.
pub fn bad_request(error: &str) -> (r: Reply)
    ensures
        r@ == error_reply(400, error@),
{
    fail(400, error)
}

/// The answer to every request for several resources at once.
pub fn bulk_not_implemented() -> (r: Reply)
    ensures
        r@ == error_reply(
            405,
            "Bulk resource control is not implemented on this Node - use the single/ interface"@,
        ),
{
    fail(405, "Bulk resource control is not implemented on this Node - use the single/ interface")
}

/// A version of a resource: seconds and nanoseconds.
pub open spec fn version_text(v: (u64, u64)) -> Seq<char> {
    dec(v.0 as nat) + ":"@ + dec(v.1 as nat)
}

/// A version of a resource: seconds and nanoseconds.
pub fn version_string(v: (u64, u64)) -> (r: String)
    ensures
        r@ == version_text(v),
{
    let mut s = decimal(v.0);
    s.append(":");
    s.append(decimal(v.1).as_str());
    s
}

/// Where a node answers.
pub open spec fn base_text(ip: Seq<char>, port: u16) -> Seq<char> {
    "http://"@ + ip + ":"@ + dec(port as nat)
}

/// Where a node answers.
pub fn base_url(ip: &str, port: u16) -> (r: String)
    ensures
        r@ == base_text(ip@, port),
{
    let mut s = "http://".to_owned();
    s.append(ip);
    s.append(":");
    s.append(decimal(port as u64).as_str());
    s
}

/// An id as documents hold it.
pub open spec fn id_doc(id: Uuid) -> Doc {
    Doc::Text(uuid_text(id.bits))
}

/// An id as documents hold it.
pub fn id_json(id: &Uuid) -> (r: Json)
    ensures
        r@ == id_doc(*id),
{
    Json::Text(id.to_string())
}

/// Ids as documents hold them.
pub open spec fn ids_doc(ids: Seq<Uuid>) -> Doc {
    Doc::Array(ids.map_values(|id: Uuid| id_doc(id)))
}

/// Ids as documents hold them.
pub fn ids_json(ids: &[Uuid]) -> (r: Json)
    ensures
        r@ == ids_doc(ids@),
{
    let mut items = no_items();
    let ghost want = ids@.map_values(|id: Uuid| id_doc(id));
    for i in 0..ids.len()
        invariant
            want == ids@.map_values(|id: Uuid| id_doc(id)),
            docs(items@) == want.take(i as int),
    {
        put_item(&mut items, id_json(&ids[i]));
        assert(docs(items@) =~= want.take(i + 1));
    }
    assert(docs(items@) =~= want);
    Json::array(items)
}

/// The places of resources below their list: each id with a slash.
pub open spec fn places_doc(ids: Seq<Uuid>) -> Doc {
    Doc::Array(ids.map_values(|id: Uuid| Doc::Text(uuid_text(id.bits) + "/"@)))
}

/// The places of resources below their list.
pub fn places_json(ids: &[Uuid]) -> (r: Json)
    ensures
        r@ == places_doc(ids@),
{
    let mut items = no_items();
    let ghost want = ids@.map_values(|id: Uuid| Doc::Text(uuid_text(id.bits) + "/"@));
    for i in 0..ids.len()
        invariant
            want == ids@.map_values(|id: Uuid| Doc::Text(uuid_text(id.bits) + "/"@)),
            docs(items@) == want.take(i as int),
    {
        let mut s = ids[i].to_string();
        s.append("/");
        put_item(&mut items, Json::Text(s));
        assert(docs(items@) =~= want.take(i + 1));
    }
    assert(docs(items@) =~= want);
    Json::array(items)
}

/// Texts as documents hold them.
pub open spec fn texts_doc(items: Seq<&str>) -> Doc {
    Doc::Array(items.map_values(|s: &str| Doc::Text(s@)))
}

/// A list of texts.
pub fn list(items: &[&str]) -> (r: Json)
    ensures
        r@ == texts_doc(items@),
{
    let mut out = no_items();
    let ghost want = items@.map_values(|s: &str| Doc::Text(s@));
    for i in 0..items.len()
        invariant
            want == items@.map_values(|s: &str| Doc::Text(s@)),
            docs(out@) == want.take(i as int),
    {
        put_item(&mut out, Json::text(items[i]));
        assert(docs(out@) =~= want.take(i + 1));
    }
    assert(docs(out@) =~= want);
    Json::array(out)
}

/// The channels of a source or a flow: `Channel 1`, `Channel 2` and so on.
pub open spec fn channels_doc(count: u32) -> Doc {
    Doc::Array(
        Seq::new(
            count as nat,
            |i: int| Doc::object().with("label"@, Doc::Text("Channel "@ + dec((i + 1) as nat))),
        ),
    )
}

/// The channels of a source or a flow.
pub fn channels_json(count: u32) -> (r: Json)
    ensures
        r@ == channels_doc(count),
{
    let mut items = no_items();
    let ghost want = channels_doc(count)->Array_0;
    for i in 0..count
        invariant
            want == channels_doc(count)->Array_0,
            docs(items@) == want.take(i as int),
    {
        let mut s = "Channel ".to_owned();
        s.append(decimal((i + 1) as u64).as_str());
        put_item(&mut items, Json::new_object().with("label", Json::Text(s)));
        assert(docs(items@) =~= want.take(i + 1));
    }
    assert(docs(items@) =~= want);
    Json::array(items)
}

/// A rate in whole units per second.
pub open spec fn rate_doc(rate: u32) -> Doc {
    Doc::object().with("numerator"@, Doc::Number(whole(rate as u64))).with(
        "denominator"@,
        Doc::Number(whole(1)),
    )
}

/// A rate in whole units per second.
pub fn rate_json(rate: u32) -> (r: Json)
    ensures
        r@ == rate_doc(rate),
{
    Json::new_object().with("numerator", Json::whole(rate as u64)).with(
        "denominator",
        Json::whole(1),
    )
}

/// What the document of a node says.
pub struct NodeFacts {
    pub id: Uuid,
    pub version: Seq<char>,
    pub label: Seq<char>,
    pub description: Seq<char>,
    pub hostname: Seq<char>,
    pub ip: Seq<char>,
    pub port: u16,
    pub interface_name: Seq<char>,
}

/// The document of a node. It has one clock, which is not traceable to any reference.
pub open spec fn node_doc(n: NodeFacts) -> Doc {
    Doc::object().with("id"@, id_doc(n.id)).with("version"@, Doc::Text(n.version)).with(
        "label"@,
        Doc::Text(n.label),
    ).with("description"@, Doc::Text(n.description)).with("tags"@, Doc::object()).with(
        "href"@,
        Doc::Text(base_text(n.ip, n.port) + "/"@),
    ).with("hostname"@, Doc::Text(n.hostname)).with(
        "api"@,
        Doc::object().with("versions"@, Doc::one(Doc::Text("v1.3"@))).with(
            "endpoints"@,
            Doc::one(
                Doc::object().with("host"@, Doc::Text(n.ip)).with(
                    "port"@,
                    Doc::Number(whole(n.port as u64)),
                ).with("protocol"@, Doc::Text("http"@)).with("authorization"@, Doc::Bool(false)),
            ),
        ),
    ).with("services"@, Doc::none()).with("caps"@, Doc::object()).with(
        "clocks"@,
        Doc::one(
            Doc::object().with("name"@, Doc::Text("clk0"@)).with(
                "ref_type"@,
                Doc::Text("internal"@),
            ),
        ),
    ).with(
        "interfaces"@,
        Doc::one(
            Doc::object().with("name"@, Doc::Text(n.interface_name)).with(
                "port_id"@,
                Doc::Text("00-00-00-00-00-00"@),
            ).with("chassis_id"@, Doc::Text("00-00-00-00-00-00"@)),
        ),
    )
}

/// The document of a node.
pub fn make_node(
    id: &Uuid,
    version: &str,
    label: &str,
    description: &str,
    hostname: &str,
    ip: &str,
    port: u16,
    interface_name: &str,
) -> (r: Json)
    ensures
        r@ == node_doc(
            NodeFacts {
                id: *id,
                version: version@,
                label: label@,
                description: description@,
                hostname: hostname@,
                ip: ip@,
                port,
                interface_name: interface_name@,
            },
        ),
{
    let mut href = base_url(ip, port);
    href.append("/");
    let endpoint = Json::new_object().with("host", Json::text(ip)).with(
        "port",
        Json::whole(port as u64),
    ).with("protocol", Json::text("http")).with("authorization", Json::Bool(false));
    let api = Json::new_object().with("versions", Json::one(Json::text("v1.3"))).with(
        "endpoints",
        Json::one(endpoint),
    );
    let clock = Json::new_object().with("name", Json::text("clk0")).with(
        "ref_type",
        Json::text("internal"),
    );
    let interface = Json::new_object().with("name", Json::text(interface_name)).with(
        "port_id",
        Json::text("00-00-00-00-00-00"),
    ).with("chassis_id", Json::text("00-00-00-00-00-00"));
    Json::new_object().with("id", id_json(id)).with("version", Json::text(version)).with(
        "label",
        Json::text(label),
    ).with("description", Json::text(description)).with("tags", Json::new_object()).with(
        "href",
        Json::Text(href),
    ).with("hostname", Json::text(hostname)).with("api", api).with("services", Json::none()).with(
        "caps",
        Json::new_object(),
    ).with("clocks", Json::one(clock)).with("interfaces", Json::one(interface))
}

/// What the documents of a source and of a flow say.
pub struct StreamFacts {
    pub id: Uuid,
    pub version: Seq<char>,
    pub label: Seq<char>,
    pub description: Seq<char>,
    pub device_id: Uuid,
    pub sample_rate: u32,
    pub channels: u32,
}

/// The document of a source.
pub open spec fn source_doc(s: StreamFacts) -> Doc {
    Doc::object().with("id"@, id_doc(s.id)).with("version"@, Doc::Text(s.version)).with(
        "label"@,
        Doc::Text(s.label),
    ).with("description"@, Doc::Text(s.description)).with("tags"@, Doc::object()).with(
        "device_id"@,
        id_doc(s.device_id),
    ).with("parents"@, Doc::none()).with("clock_name"@, Doc::Text("clk0"@)).with(
        "grain_rate"@,
        rate_doc(s.sample_rate),
    ).with("caps"@, Doc::object()).with("format"@, Doc::Text("urn:x-nmos:format:audio"@)).with(
        "channels"@,
        channels_doc(s.channels),
    )
}

/// The document of a source.
pub fn make_source(
    id: &Uuid,
    version: &str,
    label: &str,
    description: &str,
    device_id: &Uuid,
    sample_rate: u32,
    channels: u32,
) -> (r: Json)
    ensures
        r@ == source_doc(
            StreamFacts {
                id: *id,
                version: version@,
                label: label@,
                description: description@,
                device_id: *device_id,
                sample_rate,
                channels,
            },
        ),
{
    Json::new_object().with("id", id_json(id)).with("version", Json::text(version)).with(
        "label",
        Json::text(label),
    ).with("description", Json::text(description)).with("tags", Json::new_object()).with(
        "device_id",
        id_json(device_id),
    ).with("parents", Json::none()).with("clock_name", Json::text("clk0")).with(
        "grain_rate",
        rate_json(sample_rate),
    ).with("caps", Json::new_object()).with("format", Json::text("urn:x-nmos:format:audio")).with(
        "channels",
        channels_json(channels),
    )
}

/// The document of a flow.
pub open spec fn flow_doc(s: StreamFacts, source_id: Uuid) -> Doc {
    Doc::object().with("id"@, id_doc(s.id)).with("version"@, Doc::Text(s.version)).with(
        "label"@,
        Doc::Text(s.label),
    ).with("description"@, Doc::Text(s.description)).with("tags"@, Doc::object()).with(
        "grain_rate"@,
        rate_doc(s.sample_rate),
    ).with("source_id"@, id_doc(source_id)).with("parents"@, Doc::none()).with(
        "device_id"@,
        id_doc(s.device_id),
    ).with("format"@, Doc::Text("urn:x-nmos:format:audio"@)).with(
        "media_type"@,
        Doc::Text("audio/float32"@),
    ).with("sample_rate"@, rate_doc(s.sample_rate)).with("bit_depth"@, Doc::Number(whole(32))).with(
        "channels"@,
        channels_doc(s.channels),
    )
}

/// The document of a flow.
pub fn make_flow(
    id: &Uuid,
    version: &str,
    label: &str,
    device_id: &Uuid,
    sample_rate: u32,
    channels: u32,
    source_id: &Uuid,
) -> (r: Json)
    ensures
        r@ == flow_doc(
            StreamFacts {
                id: *id,
                version: version@,
                label: label@,
                description: ""@,
                device_id: *device_id,
                sample_rate,
                channels,
            },
            *source_id,
        ),
{
    Json::new_object().with("id", id_json(id)).with("version", Json::text(version)).with(
        "label",
        Json::text(label),
    ).with("description", Json::text("")).with("tags", Json::new_object()).with(
        "grain_rate",
        rate_json(sample_rate),
    ).with("source_id", id_json(source_id)).with("parents", Json::none()).with(
        "device_id",
        id_json(device_id),
    ).with("format", Json::text("urn:x-nmos:format:audio")).with(
        "media_type",
        Json::text("audio/float32"),
    ).with("sample_rate", rate_json(sample_rate)).with("bit_depth", Json::whole(32)).with(
        "channels",
        channels_json(channels),
    )
}

/// The device's control at a version of the connection interface.
pub open spec fn control_doc(base: Seq<char>, version: Seq<char>) -> Doc {
    Doc::object().with(
        "href"@,
        Doc::Text(base + "/x-nmos/connection/"@ + version + "/"@),
    ).with("type"@, Doc::Text("urn:x-nmos:control:sr-ctrl/"@ + version)).with(
        "authorization"@,
        Doc::Bool(false),
    )
}

/// The device's control at a version of the connection interface.
pub fn control_json(base: &str, version: &str) -> (r: Json)
    ensures
        r@ == control_doc(base@, version@),
{
    let mut href = base.to_owned();
    href.append("/x-nmos/connection/");
    href.append(version);
    href.append("/");
    let mut kind = "urn:x-nmos:control:sr-ctrl/".to_owned();
    kind.append(version);
    Json::new_object().with("href", Json::Text(href)).with("type", Json::Text(kind)).with(
        "authorization",
        Json::Bool(false),
    )
}

/// What the document of a device says.
pub struct DeviceFacts {
    pub id: Uuid,
    pub version: Seq<char>,
    pub label: Seq<char>,
    pub domain: Seq<char>,
    pub node_id: Uuid,
    pub senders: Seq<Uuid>,
    pub receivers: Seq<Uuid>,
}

/// The document of a device. A tag names the domain whose flows it reads and writes.
pub open spec fn device_doc(d: DeviceFacts, controls: Doc) -> Doc {
    Doc::object().with("id"@, id_doc(d.id)).with("version"@, Doc::Text(d.version)).with(
        "label"@,
        Doc::Text(d.label + " Device"@),
    ).with("description"@, Doc::Text(""@)).with(
        "tags"@,
        Doc::object().with("urn:x-mxl:tag:domain/v1.0"@, Doc::one(Doc::Text(d.domain))),
    ).with("type"@, Doc::Text("urn:x-nmos:device:generic"@)).with("node_id"@, id_doc(d.node_id)).with(
        "senders"@,
        ids_doc(d.senders),
    ).with("receivers"@, ids_doc(d.receivers)).with("controls"@, controls)
}

/// The document of a device.
pub fn make_device(
    id: &Uuid,
    version: &str,
    label: &str,
    domain: &str,
    node_id: &Uuid,
    senders: &[Uuid],
    receivers: &[Uuid],
    controls: Json,
) -> (r: Json)
    ensures
        r@ == device_doc(
            DeviceFacts {
                id: *id,
                version: version@,
                label: label@,
                domain: domain@,
                node_id: *node_id,
                senders: senders@,
                receivers: receivers@,
            },
            controls@,
        ),
{
    let mut shown = label.to_owned();
    shown.append(" Device");
    Json::new_object().with("id", id_json(id)).with("version", Json::text(version)).with(
        "label",
        Json::Text(shown),
    ).with("description", Json::text("")).with(
        "tags",
        Json::new_object().with("urn:x-mxl:tag:domain/v1.0", Json::one(Json::text(domain))),
    ).with("type", Json::text("urn:x-nmos:device:generic")).with("node_id", id_json(node_id)).with(
        "senders",
        ids_json(senders),
    ).with("receivers", ids_json(receivers)).with("controls", controls)
}

/// An activation that is not scheduled.
pub open spec fn no_activation() -> Doc {
    Doc::object().with("mode"@, Doc::Null).with("requested_time"@, Doc::Null).with(
        "activation_time"@,
        Doc::Null,
    )
}

/// An activation that is not scheduled.
pub fn no_activation_json() -> (r: Json)
    ensures
        r@ == no_activation(),
{
    Json::new_object().with("mode", Json::Null).with("requested_time", Json::Null).with(
        "activation_time",
        Json::Null,
    )
}

/// A transport file that is not there.
pub open spec fn no_file() -> Doc {
    Doc::object().with("data"@, Doc::Null).with("type"@, Doc::Null)
}

/// A transport file that is not there.
pub fn no_file_json() -> (r: Json)
    ensures
        r@ == no_file(),
{
    Json::new_object().with("data", Json::Null).with("type", Json::Null)
}

/// Where a registry takes registrations.
pub open spec fn registration_base(address: Seq<char>, port: u16) -> Seq<char> {
    "http://"@ + address + ":"@ + dec(port as nat) + "/x-nmos/registration/v1.3"@
}

/// Where a registry takes registrations, where one is configured.
pub fn registry_base(address: Option<&str>, port: u16) -> (r: Option<String>)
    ensures
        match (address, r) {
            (Some(a), Some(s)) => s@ == registration_base(a@, port),
            (None, None) => true,
            _ => false,
        },
{
    match address {
        Some(a) => {
            let mut s = base_url(a, port);
            s.append("/x-nmos/registration/v1.3");
            Some(s)
        },
        None => None,
    }
}

/// Where a registry answers queries.
pub open spec fn query_base(address: Seq<char>, port: u16) -> Seq<char> {
    "http://"@ + address + ":"@ + dec(port as nat) + "/x-nmos/query/v1.3"@
}

/// Where a registry answers queries.
pub fn query_url(address: &str, port: u16) -> (r: String)
    ensures
        r@ == query_base(address@, port),
{
    let mut s = base_url(address, port);
    s.append("/x-nmos/query/v1.3");
    s
}

/// One resource to register: its type, and its document.
#[derive(Debug)]
pub struct Registration {
    pub kind: &'static str,
    pub data: Json,
}

impl View for Registration {
    type V = (Seq<char>, Doc);

    open spec fn view(&self) -> (Seq<char>, Doc) {
        (self.kind@, self.data@)
    }
}

/// What registrations say.
pub open spec fn registrations(s: Seq<Registration>) -> Seq<(Seq<char>, Doc)> {
    s.map_values(|x: Registration| x@)
}

/// Puts a registration behind others.
pub fn put_registration(out: &mut Vec<Registration>, kind: &'static str, data: Json)
    ensures
        registrations(final(out)@) == registrations(old(out)@).push((kind@, data@)),
{
    out.push(Registration { kind, data });
    assert(registrations(out@) =~= registrations(old(out)@).push((kind@, data@)));
}

/// No registrations yet.
pub fn no_registrations() -> (r: Vec<Registration>)
    ensures
        registrations(r@) == Seq::<(Seq<char>, Doc)>::empty(),
{
    let r: Vec<Registration> = Vec::new();
    assert(registrations(r@) =~= Seq::empty());
    r
}

impl Registration {
    /// The body of the request that registers the resource.
    pub fn body(&self) -> (r: Json)
        ensures
            r@ == Doc::object().with("type"@, Doc::Text(self.kind@)).with("data"@, self.data@),
    {
        Json::new_object().with("type", Json::text(self.kind)).with("data", self.data.copy())
    }
}

/// What a heartbeat calls for.
#[derive(Clone, Copy, Debug, PartialEq, Eq, Structural)]
pub enum Heartbeat {
    Nothing,
    /// The registry does not know the node any more.
    RegisterAgain,
    /// It failed otherwise; the next one may do better.
    Report,
}

/// What the answer to a heartbeat calls for; none where there was no answer.
pub open spec fn called_for(status: Option<u16>) -> Heartbeat {
    match status {
        Some(s) => if 200 <= s < 300 {
            Heartbeat::Nothing
        } else if s == 404 {
            Heartbeat::RegisterAgain
        } else {
            Heartbeat::Report
        },
        None => Heartbeat::Report,
    }
}

/// What the answer to a heartbeat calls for; none where there was no answer.
pub fn heartbeat(status: Option<u16>) -> (r: Heartbeat)
    ensures
        r == called_for(status),
{
    match status {
        Some(s) => if 200 <= s && s < 300 {
            Heartbeat::Nothing
        } else if s == 404 {
            Heartbeat::RegisterAgain
        } else {
            Heartbeat::Report
        },
        None => Heartbeat::Report,
    }
}

/// Where a heartbeat of a node goes.
pub fn health_url(base: &str, node_id: &Uuid) -> (r: String)
    ensures
        r@ == base@ + "/health/nodes/"@ + uuid_text(node_id.bits),
{
    let mut s = base.to_owned();
    s.append("/health/nodes/");
    s.append(node_id.to_string().as_str());
    s
}

/// Where the registration of a resource is taken back.
pub fn resource_url(base: &str, kind: &str, id: &Uuid) -> (r: String)
    ensures
        r@ == base@ + "/resource/"@ + kind@ + "/"@ + uuid_text(id.bits),
{
    let mut s = base.to_owned();
    s.append("/resource/");
    s.append(kind);
    s.append("/");
    s.append(id.to_string().as_str());
    s
}

/// Where to ask a registry for a sender, or why that cannot be.
pub open spec fn sender_question(address: Option<Seq<char>>, port: u16, sender_id: Seq<char>) -> Result<
    Seq<char>,
    Seq<char>,
> {
    match address {
        Some(a) => Ok(query_base(a, port) + "/senders/"@ + sender_id),
        None => Err("no nmos_registry_address configured, cannot resolve remote sender_id"@),
    }
}

/// Where to ask a registry for a sender, or why that cannot be.
pub fn sender_query(address: Option<&str>, port: u16, sender_id: &str) -> (r: Result<String, String>)
    ensures
        match r {
            Ok(u) => sender_question(option_str_view(address), port, sender_id@) == Ok::<
                Seq<char>,
                Seq<char>,
            >(u@),
            Err(e) => sender_question(option_str_view(address), port, sender_id@) == Err::<
                Seq<char>,
                Seq<char>,
            >(e@),
        },
{
    match address {
        Some(a) => {
            let mut s = query_url(a, port);
            s.append("/senders/");
            s.append(sender_id);
            Ok(s)
        },
        None => Err(
            "no nmos_registry_address configured, cannot resolve remote sender_id".to_owned(),
        ),
    }
}

/// The flow that a sender is said to send, or what is wrong with what was said.
pub open spec fn advertised_flow(d: Doc, sender_id: Seq<char>) -> Result<Seq<char>, Seq<char>> {
    match d.text_field("flow_id"@) {
        Some(f) => Ok(f),
        None => Err("sender "@ + sender_id + " response had no flow_id field"@),
    }
}

/// The flow that a registry says a sender sends.
pub fn read_sender_flow(body: &Json, sender_id: &str) -> (r: Result<String, String>)
    ensures
        match r {
            Ok(f) => advertised_flow(body@, sender_id@) == Ok::<Seq<char>, Seq<char>>(f@),
            Err(e) => advertised_flow(body@, sender_id@) == Err::<Seq<char>, Seq<char>>(e@),
        },
{
    match body.text_field("flow_id") {
        Some(f) => Ok(f.to_owned()),
        None => {
            let mut s = "sender ".to_owned();
            s.append(sender_id);
            s.append(" response had no flow_id field");
            Err(s)
        },
    }
}

/// A node registers again exactly where the registry does not know it; success calls for nothing,
/// and everything else is reported.
pub proof fn law_a_node_registers_again_when_unknown(status: Option<u16>)
    ensures
        called_for(status) == Heartbeat::RegisterAgain <==> status == Some(404u16),
        called_for(status) == Heartbeat::Nothing <==> (status matches Some(s) && s / 100 == 2),
        status is None ==> called_for(status) == Heartbeat::Report,
{
}

/// Two versions are written alike only where they are the same, so that every change shows.
pub proof fn law_versions_differ(a: (u64, u64), b: (u64, u64))
    requires
        version_text(a) == version_text(b),
    ensures
        a == b,
{
    reveal_strlit(":");
    let (x, y) = (dec(a.0 as nat), dec(b.0 as nat));
    let s = version_text(a);
    assert(s[x.len() as int] == ':');
    assert(version_text(b)[y.len() as int] == ':');
    if x.len() < y.len() {
        assert(version_text(b)[x.len() as int] == y[x.len() as int]);
        lemma_dec_digits(b.0 as nat, x.len() as int);
    } else if y.len() < x.len() {
        assert(s[y.len() as int] == x[y.len() as int]);
        lemma_dec_digits(a.0 as nat, y.len() as int);
    }
    assert(x =~= y) by {
        assert forall|i: int| 0 <= i < x.len() implies x[i] == y[i] by {
            assert(s[i] == x[i]);
            assert(version_text(b)[i] == y[i]);
        }
    }
    let (u, v) = (dec(a.1 as nat), dec(b.1 as nat));
    assert(u =~= s.skip(x.len() as int + 1));
    assert(v =~= version_text(b).skip(y.len() as int + 1));
    lemma_dec_injective(a.0 as nat, b.0 as nat);
    lemma_dec_injective(a.1 as nat, b.1 as nat);
}

/// The flow of a sender is the one that its document names, and there is none where it names none.
pub proof fn law_the_flow_is_the_one_that_is_named(d: Doc, sender_id: Seq<char>)
    ensures
        match d.field("flow_id"@) {
            Some(Doc::Text(f)) => advertised_flow(d, sender_id) == Ok::<Seq<char>, Seq<char>>(f),
            _ => advertised_flow(d, sender_id) is Err,
        },
{
}

} // verus!
