//! The mixer as an NMOS node: one sender per entry of the output grid, one receiver per entry of
//! the input grid.

pub mod discovery;
pub mod registration;
pub mod resources;
pub mod server;
pub mod subscriptions;

use vstd::prelude::*;
use vstd::string::*;

use crate::console::config::Config;
use crate::console::ids::{
    device_id, instance_output_sender_id, instance_output_source_id, node_id, stable,
};
use crate::console::patch::OutputGrid;
use crate::nmos::{version_string, version_text};
use crate::table::{lemma_from_map, lemma_in_map, Table};
use crate::uuid::Uuid;

verus! {

/// The source and the sender of an entry of the output grid. Its flow is the entry's own.
#[derive(Clone, Copy, Debug, PartialEq, Eq, Structural)]
pub struct OutputIds {
    pub source_id: Uuid,
    pub sender_id: Uuid,
}

/// The ids that an instance gives to an entry of the output grid.
pub open spec fn output_ids_of(instance: Seq<char>, id: Seq<char>) -> OutputIds {
    OutputIds {
        source_id: Uuid {
            bits: stable("mxl-test-app-instance-output-source:"@ + instance + ":"@ + id),
        },
        sender_id: Uuid {
            bits: stable("mxl-test-app-instance-output-sender:"@ + instance + ":"@ + id),
        },
    }
}

/// What the node knows of itself.
pub struct NmosState {
    pub cfg: Config,
    pub node_id: Uuid,
    pub device_id: Uuid,
    pub node_version: (u64, u64),
    pub output_ids: Table<String, OutputIds>,
}

impl NmosState {
    /// Whether the table stands in order.
    pub open spec fn wf(self) -> bool {
        self.output_ids.wf()
    }

    /// The node of a configuration, at the time it starts, with the entries of its output grid.
    pub fn new(cfg: Config, started: (u64, u64), outputs: &OutputGrid) -> (r: Self)
        requires
            outputs.wf(),
        ensures
            r.wf(),
            r.cfg == cfg,
            r.node_id.bits == stable("mxl-test-app-instance-node:"@ + cfg.instance_name@),
            r.device_id.bits == stable("mxl-test-app-instance-device:"@ + cfg.instance_name@),
            r.node_version == started,
            r.output_ids@.dom() == outputs.entries@.dom(),
            forall|id: Seq<char>| #[trigger]
                r.output_ids@.contains_key(id) ==> r.output_ids@[id] == output_ids_of(
                    cfg.instance_name@,
                    id,
                ),
    {
        let mut ids: Table<String, OutputIds> = Table::new();
        let ghost list = outputs.entries.list();
        let n: usize = outputs.entries.len();
        for i in 0..n
            invariant
                n == list.len(),
                list == outputs.entries.list(),
                outputs.wf(),
                ids.wf(),
                forall|id: Seq<char>| #[trigger]
                    ids@.contains_key(id) <==> exists|k: int| 0 <= k < i && list[k].0@ == id,
                forall|id: Seq<char>| #[trigger]
                    ids@.contains_key(id) ==> ids@[id] == output_ids_of(cfg.instance_name@, id),
        {
            let id = outputs.entries.key_at(i);
            let source_id = instance_output_source_id(cfg.instance_name.as_str(), id.as_str());
            let sender_id = instance_output_sender_id(cfg.instance_name.as_str(), id.as_str());
            let entry = OutputIds { source_id, sender_id };
            assert(entry == output_ids_of(cfg.instance_name@, id@));
            ids.insert(id.clone(), entry);
        }
        proof {
            assert forall|id: Seq<char>| ids@.contains_key(id) <==> outputs.entries@.contains_key(
                id,
            ) by {
                if outputs.entries@.contains_key(id) {
                    let k = lemma_from_map(list, id);
                }
                if ids@.contains_key(id) {
                    let k = choose|k: int| 0 <= k < list.len() && list[k].0@ == id;
                    lemma_in_map(list, k);
                }
            }
            assert(ids@.dom() =~= outputs.entries@.dom());
        }
        let node_id = node_id(cfg.instance_name.as_str());
        let device_id = device_id(cfg.instance_name.as_str());
        NmosState { cfg, node_id, device_id, node_version: started, output_ids: ids }
    }

    /// The version of the node's resources: the time it started.
    pub fn version(&self) -> (r: String)
        ensures
            r@ == version_text(self.node_version),
    {
        version_string(self.node_version)
    }
}

} // verus!
