//! What the mixer registers with a registry.

use vstd::prelude::*;

use crate::console::engine::MixerState;
use crate::console::nmos::resources::{node_facts, node_json, receiver_doc, receiver_json};
use crate::console::nmos::server::{
    flow_json_for, output_flow, output_sender, output_source, own_device, own_device_json,
    sender_json_for, source_json_for,
};
use crate::console::nmos::NmosState;
use crate::console::patch::{InputGridEntry, OutputGridEntry};
use crate::json::Doc;
use crate::nmos::{
    no_registrations, node_doc, put_registration, registrations, version_text, Registration,
};

verus! {

/// The source, the flow and the sender of every output whose ids are known.
pub open spec fn output_registrations(state: NmosState, s: Seq<(String, OutputGridEntry)>) -> Seq<
    (Seq<char>, Doc),
>
    decreases s.len(),
{
    if s.len() == 0 {
        Seq::empty()
    } else {
        let rest = output_registrations(state, s.drop_last());
        let e = s.last().1;
        if state.output_ids@.contains_key(e.id@) {
            rest.push(("source"@, output_source(state, e)->0)).push(
                ("flow"@, output_flow(state, e)->0),
            ).push(("sender"@, output_sender(state, e)->0))
        } else {
            rest
        }
    }
}

/// The receiver of every input.
pub open spec fn input_registrations(state: NmosState, s: Seq<(String, InputGridEntry)>) -> Seq<
    (Seq<char>, Doc),
> {
    s.map_values(
        |e: (String, InputGridEntry)|
            (
                "receiver"@,
                receiver_doc(state.cfg, state.device_id, e.1, version_text(state.node_version)),
            ),
    )
}

/// Everything that the node registers, in its order: the node, the device, the outputs, the inputs.
pub fn register_all(state: &NmosState, mixer: &MixerState, hostname: &str) -> (r: Vec<Registration>)
    requires
        state.wf(),
    ensures
        registrations(r@) == Seq::empty().push(
            (
                "node"@,
                node_doc(
                    node_facts(
                        state.cfg,
                        state.node_id,
                        state.cfg.ip_addr@,
                        version_text(state.node_version),
                        hostname@,
                    ),
                ),
            ),
        ).push(("device"@, own_device(*state, mixer.input_grid))) + output_registrations(
            *state,
            mixer.output_grid.entries.list(),
        ) + input_registrations(*state, mixer.input_grid.entries.list()),
{
    let mut out = no_registrations();
    put_registration(
        &mut out,
        "node",
        node_json(
            &state.cfg,
            &state.node_id,
            state.cfg.ip_addr.as_str(),
            state.version().as_str(),
            hostname,
        ),
    );
    put_registration(&mut out, "device", own_device_json(state, &mixer.input_grid));
    let ghost head = registrations(out@);
    let ghost outputs = mixer.output_grid.entries.list();
    assert(outputs.take(0) =~= Seq::empty());
    assert(registrations(out@) =~= head + output_registrations(*state, outputs.take(0)));
    let n: usize = mixer.output_grid.entries.len();
    for i in 0..n
        invariant
            n == outputs.len(),
            state.wf(),
            outputs == mixer.output_grid.entries.list(),
            registrations(out@) == head + output_registrations(*state, outputs.take(i as int)),
    {
        assert(outputs.take(i + 1).drop_last() =~= outputs.take(i as int));
        let e = mixer.output_grid.entries.value_at(i);
        if let Some(source) = source_json_for(state, e) {
            if let Some(flow) = flow_json_for(state, e) {
                if let Some(sender) = sender_json_for(state, e) {
                    put_registration(&mut out, "source", source);
                    put_registration(&mut out, "flow", flow);
                    put_registration(&mut out, "sender", sender);
                }
            }
        }
        assert(registrations(out@) =~= head + output_registrations(*state, outputs.take(i + 1)));
    }
    assert(outputs.take(outputs.len() as int) =~= outputs);
    let ghost middle = registrations(out@);
    let ghost inputs = input_registrations(*state, mixer.input_grid.entries.list());
    assert(registrations(out@) =~= middle + inputs.take(0));
    let m: usize = mixer.input_grid.entries.len();
    for i in 0..m
        invariant
            m == mixer.input_grid.entries.list().len(),
            inputs == input_registrations(*state, mixer.input_grid.entries.list()),
            registrations(out@) == middle + inputs.take(i as int),
    {
        put_registration(
            &mut out,
            "receiver",
            receiver_json(
                &state.cfg,
                &state.device_id,
                mixer.input_grid.entries.value_at(i),
                state.version().as_str(),
            ),
        );
        assert(registrations(out@) =~= middle + inputs.take(i + 1));
    }
    assert(inputs.take(inputs.len() as int) =~= inputs);
    out
}

} // verus!
