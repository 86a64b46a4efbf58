//! The documents of the bridge's resources.

use vstd::prelude::*;
use vstd::string::*;

use crate::bridge::nmos::state::{
    NmosState, SinkEntrySnapshot, SinkSnapshotModel, SourceEntrySnapshot, SourceSnapshotModel,
};
use crate::json::{text_or_null, whole, Doc, Json};
use crate::nmos::{
    base_text, base_url, control_doc, control_json, device_doc, flow_doc, id_doc, id_json,
    make_device, make_flow, make_node, make_source, node_doc, source_doc, version_string,
    version_text, DeviceFacts, NodeFacts, StreamFacts, TRANSPORT_TYPE,
};
use crate::text::{dec, decimal};
use crate::uuid::Uuid;

verus! {

/// What the node's document says.
pub open spec fn node_facts(state: NmosState, ip: Seq<char>, hostname: Seq<char>) -> NodeFacts {
    NodeFacts {
        id: state.node_id,
        version: version_text(state.node_version),
        label: state.cfg.nmos_label@,
        description: "mxl-bridge: AES67/ALSA <-> MXL bridge"@,
        hostname,
        ip,
        port: state.cfg.nmos_node_port,
        interface_name: state.cfg.interface_name@,
    }
}

/// The document of the node.
pub fn node_json(state: &NmosState, ip: &str, hostname: &str) -> (r: Json)
    ensures
        r@ == node_doc(node_facts(*state, ip@, hostname@)),
{
    make_node(
        &state.node_id,
        state.version().as_str(),
        state.cfg.nmos_label.as_str(),
        "mxl-bridge: AES67/ALSA <-> MXL bridge",
        hostname,
        ip,
        state.cfg.nmos_node_port,
        state.cfg.interface_name.as_str(),
    )
}

/// What the device's document says.
pub open spec fn device_facts(state: NmosState, senders: Seq<Uuid>, receivers: Seq<Uuid>) -> DeviceFacts {
    DeviceFacts {
        id: state.device_id,
        version: version_text(state.node_version),
        label: state.cfg.nmos_label@,
        domain: state.cfg.mxl_domain@,
        node_id: state.node_id,
        senders,
        receivers,
    }
}

/// The control of the device: the connection interface.
pub open spec fn controls_doc(ip: Seq<char>, port: u16) -> Doc {
    Doc::one(control_doc(base_text(ip, port), "v1.1"@))
}

/// The document of the device.
pub fn device_json(state: &NmosState, ip: &str, sender_ids: &[Uuid], receiver_ids: &[Uuid]) -> (r:
    Json)
    ensures
        r@ == device_doc(
            device_facts(*state, sender_ids@, receiver_ids@),
            controls_doc(ip@, state.cfg.nmos_node_port),
        ),
{
    let base = base_url(ip, state.cfg.nmos_node_port);
    make_device(
        &state.device_id,
        state.version().as_str(),
        state.cfg.nmos_label.as_str(),
        state.cfg.mxl_domain.as_str(),
        &state.node_id,
        sender_ids,
        receiver_ids,
        Json::one(control_json(base.as_str(), "v1.1")),
    )
}

/// What the document of a Sink's source says.
pub open spec fn source_facts(state: NmosState, e: SinkSnapshotModel) -> StreamFacts {
    StreamFacts {
        id: e.source_id,
        version: version_text(e.version),
        label: e.label,
        description: "daemon Sink "@ + dec(e.daemon_id as nat)
            + " audio, mirrored via mxl-bridge"@,
        device_id: state.device_id,
        sample_rate: state.cfg.sample_rate,
        channels: e.channels,
    }
}

/// The document of a Sink's source.
pub fn source_json(state: &NmosState, e: &SinkEntrySnapshot) -> (r: Json)
    ensures
        r@ == source_doc(source_facts(*state, e@)),
{
    let mut description = "daemon Sink ".to_owned();
    description.append(decimal(e.daemon_id as u64).as_str());
    description.append(" audio, mirrored via mxl-bridge");
    make_source(
        &e.source_id,
        version_string(e.version).as_str(),
        e.label.as_str(),
        description.as_str(),
        &state.device_id,
        state.cfg.sample_rate,
        e.channels,
    )
}

/// What the document of a Sink's flow says.
pub open spec fn flow_facts(state: NmosState, e: SinkSnapshotModel) -> StreamFacts {
    StreamFacts {
        id: e.flow_id,
        version: version_text(e.version),
        label: e.label,
        description: ""@,
        device_id: state.device_id,
        sample_rate: state.cfg.sample_rate,
        channels: e.channels,
    }
}

/// The document of a Sink's flow.
pub fn flow_json(state: &NmosState, e: &SinkEntrySnapshot) -> (r: Json)
    ensures
        r@ == flow_doc(flow_facts(*state, e@), e@.source_id),
{
    make_flow(
        &e.flow_id,
        version_string(e.version).as_str(),
        e.label.as_str(),
        &state.device_id,
        state.cfg.sample_rate,
        e.channels,
        &e.source_id,
    )
}

/// The document of a Sink's sender. It has no manifest, and is bound to no interface.
pub open spec fn sender_doc(state: NmosState, e: SinkSnapshotModel) -> Doc {
    Doc::object().with("id"@, id_doc(e.sender_id)).with(
        "version"@,
        Doc::Text(version_text(e.version)),
    ).with("label"@, Doc::Text(e.label)).with("description"@, Doc::Text(""@)).with(
        "tags"@,
        Doc::object(),
    ).with("flow_id"@, id_doc(e.flow_id)).with("transport"@, Doc::Text(TRANSPORT_TYPE@)).with(
        "device_id"@,
        id_doc(state.device_id),
    ).with("manifest_href"@, Doc::Null).with("interface_bindings"@, Doc::none()).with(
        "subscription"@,
        Doc::object().with("receiver_id"@, text_or_null(e.receiver_id)).with(
            "active"@,
            Doc::Bool(e.active),
        ),
    )
}

fn optional(s: &Option<String>) -> (r: Json)
    ensures
        r@ == text_or_null(crate::json::option_view(*s)),
{
    match s {
        Some(t) => Json::text(t.as_str()),
        None => Json::Null,
    }
}

/// The document of a Sink's sender.
pub fn sender_json(state: &NmosState, e: &SinkEntrySnapshot) -> (r: Json)
    ensures
        r@ == sender_doc(*state, e@),
{
    Json::new_object().with("id", id_json(&e.sender_id)).with(
        "version",
        Json::Text(version_string(e.version)),
    ).with("label", Json::text(e.label.as_str())).with("description", Json::text("")).with(
        "tags",
        Json::new_object(),
    ).with("flow_id", id_json(&e.flow_id)).with("transport", Json::text(TRANSPORT_TYPE)).with(
        "device_id",
        id_json(&state.device_id),
    ).with("manifest_href", Json::Null).with("interface_bindings", Json::none()).with(
        "subscription",
        Json::new_object().with("receiver_id", optional(&e.receiver_id)).with(
            "active",
            Json::Bool(e.active),
        ),
    )
}

/// What a receiver can take: single-precision audio in exactly its number of channels.
pub open spec fn caps_doc(channels: u32) -> Doc {
    Doc::object().with("media_types"@, Doc::one(Doc::Text("audio/float32"@))).with(
        "constraint_sets"@,
        Doc::one(
            Doc::object().with(
                "urn:x-nmos:cap:format:channel_count"@,
                Doc::object().with("enum"@, Doc::one(Doc::Number(whole(channels as u64)))),
            ),
        ),
    )
}

/// The document of a Source's receiver. It is bound to no interface.
pub open spec fn receiver_doc(state: NmosState, e: SourceSnapshotModel) -> Doc {
    Doc::object().with("id"@, id_doc(e.receiver_id)).with(
        "version"@,
        Doc::Text(version_text(e.version)),
    ).with("label"@, Doc::Text(e.label)).with(
        "description"@,
        Doc::Text("feeds daemon Source "@ + dec(e.daemon_id as nat) + " for TX"@),
    ).with("tags"@, Doc::object()).with("device_id"@, id_doc(state.device_id)).with(
        "transport"@,
        Doc::Text(TRANSPORT_TYPE@),
    ).with("interface_bindings"@, Doc::none()).with(
        "format"@,
        Doc::Text("urn:x-nmos:format:audio"@),
    ).with("caps"@, caps_doc(e.channels)).with(
        "subscription"@,
        Doc::object().with("sender_id"@, text_or_null(e.sender_id)).with(
            "active"@,
            Doc::Bool(e.active),
        ),
    )
}

/// The document of a Source's receiver.
pub fn receiver_json(state: &NmosState, e: &SourceEntrySnapshot) -> (r: Json)
    ensures
        r@ == receiver_doc(*state, e@),
{
    let mut description = "feeds daemon Source ".to_owned();
    description.append(decimal(e.daemon_id as u64).as_str());
    description.append(" for TX");
    let count = Json::new_object().with("enum", Json::one(Json::whole(e.channels as u64)));
    let caps = Json::new_object().with("media_types", Json::one(Json::text("audio/float32"))).with(
        "constraint_sets",
        Json::one(Json::new_object().with("urn:x-nmos:cap:format:channel_count", count)),
    );
    Json::new_object().with("id", id_json(&e.receiver_id)).with(
        "version",
        Json::Text(version_string(e.version)),
    ).with("label", Json::text(e.label.as_str())).with(
        "description",
        Json::Text(description),
    ).with("tags", Json::new_object()).with("device_id", id_json(&state.device_id)).with(
        "transport",
        Json::text(TRANSPORT_TYPE),
    ).with("interface_bindings", Json::none()).with(
        "format",
        Json::text("urn:x-nmos:format:audio"),
    ).with("caps", caps).with(
        "subscription",
        Json::new_object().with("sender_id", optional(&e.sender_id)).with(
            "active",
            Json::Bool(e.active),
        ),
    )
}

} // verus!
