//! The documents of the mixer's resources.

use vstd::prelude::*;
use vstd::string::*;

use crate::console::config::Config;
use crate::console::patch::{InputGridEntry, OutputGridEntry};
use crate::json::{option_view, text_or_null, Doc, Json};
use crate::nmos::{
    base_text, base_url, control_doc, control_json, device_doc, flow_doc, id_doc, id_json,
    make_device, make_flow, make_node, make_source, node_doc, source_doc, DeviceFacts, NodeFacts,
    StreamFacts, TRANSPORT_TYPE,
};
use crate::text::{between, trim, trimmed};
use crate::uuid::{uuid_text, Uuid};

verus! {

/// The name of the host as documents show it: what the system says, or a fixed name where that is
/// nothing.
pub open spec fn hostname(said: Option<Seq<char>>) -> Seq<char> {
    match said {
        Some(s) => if trimmed(s).len() == 0 {
            "mxl-test-app"@
        } else {
            trimmed(s)
        },
        None => "mxl-test-app"@,
    }
}

/// The name of the host as documents show it.
pub fn shown_hostname(said: Option<String>) -> (r: String)
    ensures
        r@ == hostname(option_view(said)),
{
    match said {
        Some(s) => {
            let t = trim(s.as_str());
            if t.is_empty() {
                "mxl-test-app".to_owned()
            } else {
                t.to_owned()
            }
        },
        None => "mxl-test-app".to_owned(),
    }
}

/// What the node's document says.
pub open spec fn node_facts(
    cfg: Config,
    node_id: Uuid,
    ip: Seq<char>,
    version: Seq<char>,
    hostname: Seq<char>,
) -> NodeFacts {
    NodeFacts {
        id: node_id,
        version,
        label: cfg.nmos_label@,
        description: "mxl-test-app: a third-party MXL mixer app, for testing mxl-bridge"@,
        hostname,
        ip,
        port: cfg.ws_port,
        interface_name: cfg.interface_name@,
    }
}

/// The document of the node.
pub fn node_json(cfg: &Config, node_id: &Uuid, ip: &str, version: &str, hostname: &str) -> (r: Json)
    ensures
        r@ == node_doc(node_facts(*cfg, *node_id, ip@, version@, hostname@)),
{
    make_node(
        node_id,
        version,
        cfg.nmos_label.as_str(),
        "mxl-test-app: a third-party MXL mixer app, for testing mxl-bridge",
        hostname,
        ip,
        cfg.ws_port,
        cfg.interface_name.as_str(),
    )
}

/// What the device's document says.
pub open spec fn device_facts(
    cfg: Config,
    device_id: Uuid,
    node_id: Uuid,
    version: Seq<char>,
    senders: Seq<Uuid>,
    receivers: Seq<Uuid>,
) -> DeviceFacts {
    DeviceFacts {
        id: device_id,
        version,
        label: cfg.nmos_label@,
        domain: cfg.mxl_domain@,
        node_id,
        senders,
        receivers,
    }
}

/// The controls of the device: the connection interface at both versions.
pub open spec fn controls_doc(ip: Seq<char>, port: u16) -> Doc {
    let base = base_text(ip, port);
    Doc::Array(
        Seq::empty().push(control_doc(base, "v1.1"@)).push(control_doc(base, "v1.2"@)),
    )
}

/// The document of the device.
pub fn device_json(
    cfg: &Config,
    device_id: &Uuid,
    node_id: &Uuid,
    ip: &str,
    version: &str,
    sender_ids: &[Uuid],
    receiver_ids: &[Uuid],
) -> (r: Json)
    ensures
        r@ == device_doc(
            device_facts(*cfg, *device_id, *node_id, version@, sender_ids@, receiver_ids@),
            controls_doc(ip@, cfg.ws_port),
        ),
{
    let base = base_url(ip, cfg.ws_port);
    let mut controls = crate::json::no_items();
    crate::json::put_item(&mut controls, control_json(base.as_str(), "v1.1"));
    crate::json::put_item(&mut controls, control_json(base.as_str(), "v1.2"));
    make_device(
        device_id,
        version,
        cfg.nmos_label.as_str(),
        cfg.mxl_domain.as_str(),
        node_id,
        sender_ids,
        receiver_ids,
        Json::array(controls),
    )
}

/// What the document of an output's source says.
pub open spec fn source_facts(
    cfg: Config,
    device_id: Uuid,
    entry: OutputGridEntry,
    source_id: Uuid,
    version: Seq<char>,
) -> StreamFacts {
    StreamFacts {
        id: source_id,
        version,
        label: entry.label@,
        description: "mxl-test-app output grid entry '"@ + entry.id@ + "'"@,
        device_id,
        sample_rate: cfg.sample_rate,
        channels: entry.channels as u32,
    }
}

/// The document of an output's source.
pub fn source_json(
    cfg: &Config,
    device_id: &Uuid,
    entry: &OutputGridEntry,
    source_id: &Uuid,
    version: &str,
) -> (r: Json)
    ensures
        r@ == source_doc(source_facts(*cfg, *device_id, *entry, *source_id, version@)),
{
    make_source(
        source_id,
        version,
        entry.label.as_str(),
        between("mxl-test-app output grid entry '", entry.id.as_str(), "'").as_str(),
        device_id,
        cfg.sample_rate,
        entry.channels as u32,
    )
}

/// What the document of an output's flow says.
pub open spec fn flow_facts(
    cfg: Config,
    device_id: Uuid,
    entry: OutputGridEntry,
    flow_id: Uuid,
    version: Seq<char>,
) -> StreamFacts {
    StreamFacts {
        id: flow_id,
        version,
        label: entry.label@,
        description: ""@,
        device_id,
        sample_rate: cfg.sample_rate,
        channels: entry.channels as u32,
    }
}

/// The document of an output's flow.
pub fn flow_json(
    cfg: &Config,
    device_id: &Uuid,
    entry: &OutputGridEntry,
    source_id: &Uuid,
    flow_id: &Uuid,
    version: &str,
) -> (r: Json)
    ensures
        r@ == flow_doc(flow_facts(*cfg, *device_id, *entry, *flow_id, version@), *source_id),
{
    make_flow(
        flow_id,
        version,
        entry.label.as_str(),
        device_id,
        cfg.sample_rate,
        entry.channels as u32,
        source_id,
    )
}

/// The document of an output's sender. It always sends: its flow is written in every period.
pub open spec fn sender_doc(
    cfg: Config,
    ip: Seq<char>,
    device_id: Uuid,
    entry: OutputGridEntry,
    sender_id: Uuid,
    flow_id: Uuid,
    version: Seq<char>,
) -> Doc {
    Doc::object().with("id"@, id_doc(sender_id)).with("version"@, Doc::Text(version)).with(
        "label"@,
        Doc::Text(entry.label@),
    ).with("description"@, Doc::Text(""@)).with("tags"@, Doc::object()).with(
        "flow_id"@,
        id_doc(flow_id),
    ).with("transport"@, Doc::Text(TRANSPORT_TYPE@)).with("device_id"@, id_doc(device_id)).with(
        "manifest_href"@,
        Doc::Text(
            base_text(ip, cfg.ws_port) + "/x-nmos/connection/v1.1/single/senders/"@ + uuid_text(
                sender_id.bits,
            ) + "/transportfile"@,
        ),
    ).with("interface_bindings"@, Doc::one(Doc::Text(cfg.interface_name@))).with(
        "subscription"@,
        Doc::object().with(
            "receiver_id"@,
            text_or_null(option_view(entry.receiver_id)),
        ).with("active"@, Doc::Bool(true)),
    )
}

fn optional(s: &Option<String>) -> (r: Json)
    ensures
        r@ == text_or_null(option_view(*s)),
{
    match s {
        Some(t) => Json::text(t.as_str()),
        None => Json::Null,
    }
}

/// The document of an output's sender.
pub fn sender_json(
    cfg: &Config,
    ip: &str,
    device_id: &Uuid,
    entry: &OutputGridEntry,
    sender_id: &Uuid,
    flow_id: &Uuid,
    version: &str,
) -> (r: Json)
    ensures
        r@ == sender_doc(*cfg, ip@, *device_id, *entry, *sender_id, *flow_id, version@),
{
    let mut href = base_url(ip, cfg.ws_port);
    href.append("/x-nmos/connection/v1.1/single/senders/");
    href.append(sender_id.to_string().as_str());
    href.append("/transportfile");
    Json::new_object().with("id", id_json(sender_id)).with("version", Json::text(version)).with(
        "label",
        Json::text(entry.label.as_str()),
    ).with("description", Json::text("")).with("tags", Json::new_object()).with(
        "flow_id",
        id_json(flow_id),
    ).with("transport", Json::text(TRANSPORT_TYPE)).with("device_id", id_json(device_id)).with(
        "manifest_href",
        Json::Text(href),
    ).with(
        "interface_bindings",
        Json::one(Json::text(cfg.interface_name.as_str())),
    ).with(
        "subscription",
        Json::new_object().with("receiver_id", optional(&entry.receiver_id)).with(
            "active",
            Json::Bool(true),
        ),
    )
}

/// The document of an input's receiver. It is active while a flow is open for reading.
pub open spec fn receiver_doc(
    cfg: Config,
    device_id: Uuid,
    entry: InputGridEntry,
    version: Seq<char>,
) -> Doc {
    Doc::object().with("id"@, id_doc(entry.receiver_id)).with("version"@, Doc::Text(version)).with(
        "label"@,
        Doc::Text(entry.label@),
    ).with(
        "description"@,
        Doc::Text("mxl-test-app input grid entry '"@ + entry.id@ + "'"@),
    ).with("tags"@, Doc::object()).with("device_id"@, id_doc(device_id)).with(
        "transport"@,
        Doc::Text(TRANSPORT_TYPE@),
    ).with("interface_bindings"@, Doc::one(Doc::Text(cfg.interface_name@))).with(
        "format"@,
        Doc::Text("urn:x-nmos:format:audio"@),
    ).with(
        "caps"@,
        Doc::object().with("media_types"@, Doc::one(Doc::Text("audio/float32"@))),
    ).with(
        "subscription"@,
        Doc::object().with(
            "sender_id"@,
            text_or_null(option_view(entry.subscribed_sender_id)),
        ).with("active"@, Doc::Bool(entry.connected)),
    )
}

/// The document of an input's receiver.
pub fn receiver_json(cfg: &Config, device_id: &Uuid, entry: &InputGridEntry, version: &str) -> (r:
    Json)
    ensures
        r@ == receiver_doc(*cfg, *device_id, *entry, version@),
{
    Json::new_object().with("id", id_json(&entry.receiver_id)).with(
        "version",
        Json::text(version),
    ).with("label", Json::text(entry.label.as_str())).with(
        "description",
        Json::Text(between("mxl-test-app input grid entry '", entry.id.as_str(), "'")),
    ).with("tags", Json::new_object()).with("device_id", id_json(device_id)).with(
        "transport",
        Json::text(TRANSPORT_TYPE),
    ).with("interface_bindings", Json::one(Json::text(cfg.interface_name.as_str()))).with(
        "format",
        Json::text("urn:x-nmos:format:audio"),
    ).with(
        "caps",
        Json::new_object().with("media_types", Json::one(Json::text("audio/float32"))),
    ).with(
        "subscription",
        Json::new_object().with("sender_id", optional(&entry.subscribed_sender_id)).with(
            "active",
            Json::Bool(entry.connected),
        ),
    )
}

} // verus!
