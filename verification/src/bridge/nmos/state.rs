//! The resources that mirror the daemon's streams, and their activation.

use vstd::prelude::*;
use vstd::string::*;

use crate::bridge::config::Config;
use crate::bridge::daemon_client::{copy_map, DaemonSink, DaemonSource, SinkModel, SourceModel};
use crate::bridge::mxl_domain::DomainDef;
use crate::bridge::mxl_flow::{
    device_id, node_id, sink_flow_id, sink_sender_id, sink_source_id, source_receiver_id,
};
use crate::bridge::nmos::is08::{Is08Model, Is08State};
use crate::ids::stable;
use crate::json::option_view;
use crate::nmos::{version_string, version_text};
use crate::search::{find_first, first_index, lemma_first_meets, lemma_same_first};
use crate::table::{as_map, lemma_from_map, lemma_in_map, sorted, Table};
use crate::text::{dec, put_text, same, texts};
use crate::uuid::{name_based, uuid_text, Uuid};

verus! {

/// The lease that a controller holds which names no receiver.
pub const CONTROLLER_LEASE: &'static str = "controller";

/// What is to be done with the leases of a sender.
#[derive(Clone, Debug, PartialEq)]
pub enum SinkLeaseAction {
    /// A receiver wants the audio.
    Acquire(String),
    /// A receiver does not want it any more; or nobody is to have it.
    Release(Option<String>),
}

/// What a [`SinkLeaseAction`] says.
pub enum LeaseModel {
    Acquire(Seq<char>),
    Release(Option<Seq<char>>),
}

impl View for SinkLeaseAction {
    type V = LeaseModel;

    open spec fn view(&self) -> LeaseModel {
        match *self {
            SinkLeaseAction::Acquire(id) => LeaseModel::Acquire(id@),
            SinkLeaseAction::Release(id) => LeaseModel::Release(option_view(id)),
        }
    }
}

/// Leases without those of one holder.
pub open spec fn without(leases: Seq<Seq<char>>, id: Seq<char>) -> Seq<Seq<char>>
    decreases leases.len(),
{
    if leases.len() == 0 {
        Seq::empty()
    } else if leases.last() == id {
        without(leases.drop_last(), id)
    } else {
        without(leases.drop_last(), id).push(leases.last())
    }
}

/// The leases after an action: acquiring one that is held changes nothing.
pub open spec fn leases_after(leases: Seq<Seq<char>>, action: LeaseModel) -> Seq<Seq<char>> {
    match action {
        LeaseModel::Acquire(id) => if leases.contains(id) {
            leases
        } else {
            leases.push(id)
        },
        LeaseModel::Release(Some(id)) => without(leases, id),
        LeaseModel::Release(None) => Seq::empty(),
    }
}

fn holds(leases: &Vec<String>, id: &str) -> (r: bool)
    ensures
        r == texts(leases@).contains(id@),
{
    for i in 0..leases.len()
        invariant
            forall|k: int| 0 <= k < i ==> (#[trigger] leases@[k])@ != id@,
    {
        if same(leases[i].as_str(), id) {
            assert(texts(leases@)[i as int] == id@);
            return true;
        }
    }
    assert forall|k: int| 0 <= k < texts(leases@).len() implies texts(leases@)[k] != id@ by {
        assert(leases@[k]@ != id@);
    }
    false
}

fn keep_others(leases: &Vec<String>, id: &str) -> (r: Vec<String>)
    ensures
        texts(r@) == without(texts(leases@), id@),
{
    let ghost all = texts(leases@);
    let mut out: Vec<String> = Vec::new();
    assert(all.take(0) =~= Seq::empty());
    assert(texts(out@) =~= Seq::empty());
    for i in 0..leases.len()
        invariant
            all == texts(leases@),
            texts(out@) == without(all.take(i as int), id@),
    {
        assert(all.take(i + 1).drop_last() =~= all.take(i as int));
        if !same(leases[i].as_str(), id) {
            put_text(&mut out, leases[i].clone());
        }
    }
    assert(all.take(all.len() as int) =~= all);
    out
}

/// Texts that say the same.
pub fn copy_texts(v: &Vec<String>) -> (r: Vec<String>)
    ensures
        texts(r@) == texts(v@),
{
    let ghost all = texts(v@);
    let mut out: Vec<String> = Vec::new();
    assert(texts(out@) =~= all.take(0));
    for i in 0..v.len()
        invariant
            all == texts(v@),
            texts(out@) == all.take(i as int),
    {
        put_text(&mut out, v[i].clone());
        assert(texts(out@) =~= all.take(i + 1));
    }
    assert(all.take(all.len() as int) =~= all);
    out
}

/// Does what is to be done with the leases of a sender. Acquiring a lease that is held changes
/// nothing; releasing takes one away, or all.
pub fn apply_lease_action(leases: &mut Vec<String>, action: &SinkLeaseAction)
    ensures
        texts(final(leases)@) == leases_after(texts(old(leases)@), action@),
{
    match action {
        SinkLeaseAction::Acquire(id) => {
            if !holds(leases, id.as_str()) {
                put_text(leases, id.clone());
            }
        },
        SinkLeaseAction::Release(Some(id)) => {
            let kept = keep_others(leases, id.as_str());
            *leases = kept;
        },
        SinkLeaseAction::Release(None) => {
            let none: Vec<String> = Vec::new();
            assert(texts(none@) =~= Seq::empty());
            *leases = none;
        },
    }
}

proof fn lemma_without(leases: Seq<Seq<char>>, id: Seq<char>)
    ensures
        !without(leases, id).contains(id),
        forall|x: Seq<char>| x != id && leases.contains(x) ==> #[trigger] without(leases, id).contains(
            x,
        ),
    decreases leases.len(),
{
    if leases.len() > 0 {
        let rest = leases.drop_last();
        let w = without(rest, id);
        lemma_without(rest, id);
        let r = without(leases, id);
        if r.contains(id) {
            let k = choose|k: int| 0 <= k < r.len() && r[k] == id;
            if k < w.len() {
                assert(w[k] == id);
            }
        }
        assert forall|x: Seq<char>| x != id && leases.contains(x) implies #[trigger] r.contains(
            x,
        ) by {
            let k = choose|k: int| 0 <= k < leases.len() && leases[k] == x;
            if k < rest.len() {
                assert(rest[k] == x);
                assert(rest.contains(x));
                assert(w.contains(x));
                let j = choose|j: int| 0 <= j < w.len() && w[j] == x;
                assert(r[j] == x);
            } else {
                assert(r[r.len() - 1] == x);
            }
        }
    }
}

/// Asking twice is the same as asking once; after a release its holder holds nothing, and all
/// others hold what they held; after a release of all, nobody holds anything.
pub proof fn law_leases(leases: Seq<Seq<char>>, action: LeaseModel, id: Seq<char>)
    ensures
        leases_after(leases_after(leases, action), action) == leases_after(leases, action),
        leases_after(leases, LeaseModel::Acquire(id)).contains(id),
        !leases_after(leases, LeaseModel::Release(Some(id))).contains(id),
        forall|x: Seq<char>|
            x != id && leases.contains(x) ==> #[trigger] leases_after(
                leases,
                LeaseModel::Release(Some(id)),
            ).contains(x),
        leases_after(leases, LeaseModel::Release(None)).len() == 0,
{
    lemma_without(leases, id);
    let pushed = leases.push(id);
    assert(pushed[pushed.len() - 1] == id);
    if let LeaseModel::Release(Some(x)) = action {
        lemma_without(leases, x);
        lemma_without_nothing(without(leases, x), x);
    }
    if let LeaseModel::Acquire(x) = action {
        let p = leases.push(x);
        assert(p[p.len() - 1] == x);
    }
}

/// No lease is held twice.
pub proof fn law_no_lease_is_held_twice(leases: Seq<Seq<char>>, action: LeaseModel)
    requires
        leases.no_duplicates(),
    ensures
        leases_after(leases, action).no_duplicates(),
    decreases leases.len(),
{
    if let LeaseModel::Release(Some(id)) = action {
        if leases.len() > 0 {
            let rest = leases.drop_last();
            assert(rest.no_duplicates()) by {
                assert forall|i: int, j: int|
                    0 <= i < rest.len() && 0 <= j < rest.len() && i != j implies rest[i]
                    != rest[j] by {
                    assert(leases[i] != leases[j]);
                }
            }
            law_no_lease_is_held_twice(rest, action);
            let w = without(rest, id);
            if leases.last() != id && w.contains(leases.last()) {
                lemma_without_from(rest, id, leases.last());
                let k = choose|k: int| 0 <= k < rest.len() && rest[k] == leases.last();
                assert(leases[k] == leases[leases.len() - 1]);
            }
            let r = without(leases, id);
            assert forall|i: int, j: int| 0 <= i < r.len() && 0 <= j < r.len() && i != j implies r[i]
                != r[j] by {
                if leases.last() != id {
                    if i < w.len() && j < w.len() {
                        assert(w[i] != w[j]);
                    } else if i < w.len() {
                        assert(w.contains(w[i]));
                    } else {
                        assert(w.contains(w[j]));
                    }
                } else {
                    assert(w[i] != w[j]);
                }
            }
        }
    }
    if let LeaseModel::Acquire(id) = action {
        if !leases.contains(id) {
            let r = leases.push(id);
            assert forall|i: int, j: int| 0 <= i < r.len() && 0 <= j < r.len() && i != j implies r[i]
                != r[j] by {
                if i < leases.len() && j < leases.len() {
                    assert(leases[i] != leases[j]);
                } else if i < leases.len() {
                    assert(leases.contains(leases[i]));
                } else {
                    assert(leases.contains(leases[j]));
                }
            }
        }
    }
}

proof fn lemma_without_from(leases: Seq<Seq<char>>, id: Seq<char>, x: Seq<char>)
    requires
        without(leases, id).contains(x),
    ensures
        leases.contains(x),
    decreases leases.len(),
{
    if leases.len() > 0 {
        let rest = leases.drop_last();
        let w = without(rest, id);
        let r = without(leases, id);
        let k = choose|k: int| 0 <= k < r.len() && r[k] == x;
        if leases.last() != id && k == w.len() {
            assert(leases[leases.len() - 1] == x);
        } else {
            assert(w[k] == x);
            assert(w.contains(x));
            lemma_without_from(rest, id, x);
            let j = choose|j: int| 0 <= j < rest.len() && rest[j] == x;
            assert(leases[j] == x);
        }
    }
}

proof fn lemma_without_nothing(leases: Seq<Seq<char>>, id: Seq<char>)
    requires
        !leases.contains(id),
    ensures
        without(leases, id) == leases,
    decreases leases.len(),
{
    if leases.len() > 0 {
        let rest = leases.drop_last();
        assert(leases[leases.len() - 1] == leases.last());
        if rest.contains(id) {
            let k = choose|k: int| 0 <= k < rest.len() && rest[k] == id;
            assert(leases[k] == id);
        }
        lemma_without_nothing(rest, id);
        assert(rest.push(leases.last()) =~= leases);
    } else {
        assert(leases =~= Seq::empty());
    }
}

/// The source, the flow and the sender that mirror a Sink of the daemon.
///
/// They are there as long as the Sink is. Any number of receivers can hold a lease on the audio;
/// the flow is open for writing while there are leases.
#[derive(Debug)]
pub struct SinkEntry {
    pub daemon_id: u8,
    pub source_id: Uuid,
    pub flow_id: Uuid,
    pub sender_id: Uuid,
    pub label: String,
    pub channels: u32,
    /// The channels of the device that the Sink's channels are, in order.
    pub map: Vec<u8>,
    pub version: (u64, u64),
    pub active: bool,
    pub receiver_id: Option<String>,
    pub leases: Vec<String>,
    /// Whether the flow is open.
    pub flow: bool,
    /// What keeps the flow from being written.
    pub fault: Option<String>,
}

/// What a [`SinkEntry`] says.
pub struct SinkEntryModel {
    pub daemon_id: u8,
    pub source_id: Uuid,
    pub flow_id: Uuid,
    pub sender_id: Uuid,
    pub label: Seq<char>,
    pub channels: u32,
    pub map: Seq<u8>,
    pub version: (u64, u64),
    pub active: bool,
    pub receiver_id: Option<Seq<char>>,
    pub leases: Seq<Seq<char>>,
    pub flow: bool,
    pub fault: Option<Seq<char>>,
}

impl View for SinkEntry {
    type V = SinkEntryModel;

    open spec fn view(&self) -> SinkEntryModel {
        SinkEntryModel {
            daemon_id: self.daemon_id,
            source_id: self.source_id,
            flow_id: self.flow_id,
            sender_id: self.sender_id,
            label: self.label@,
            channels: self.channels,
            map: self.map@,
            version: self.version,
            active: self.active,
            receiver_id: option_view(self.receiver_id),
            leases: texts(self.leases@),
            flow: self.flow,
            fault: option_view(self.fault),
        }
    }
}

/// The ids that mirror a Sink.
pub open spec fn sink_ids(daemon_id: u8) -> (Uuid, Uuid, Uuid) {
    (
        Uuid { bits: stable("mxl-bridge-sink-source:"@ + dec(daemon_id as nat)) },
        Uuid { bits: stable("mxl-bridge-sink-flow:"@ + dec(daemon_id as nat)) },
        Uuid { bits: stable("mxl-bridge-sink-sender:"@ + dec(daemon_id as nat)) },
    )
}

/// The mirror of a Sink that was just found.
pub open spec fn new_sink(d: SinkModel, version: (u64, u64)) -> SinkEntryModel {
    let ids = sink_ids(d.id);
    SinkEntryModel {
        daemon_id: d.id,
        source_id: ids.0,
        flow_id: ids.1,
        sender_id: ids.2,
        label: d.name,
        channels: d.map.len() as u32,
        map: d.map,
        version,
        active: false,
        receiver_id: None,
        leases: Seq::empty(),
        flow: false,
        fault: None,
    }
}

/// The mirror of a Sink after the daemon said something else of it. What was activated stays.
pub open spec fn updated_sink(e: SinkEntryModel, d: SinkModel, version: (u64, u64)) -> SinkEntryModel {
    SinkEntryModel { label: d.name, channels: d.map.len() as u32, map: d.map, version, ..e }
}

/// The mirror of a Sink that is new or says something else. A flow that was open, and whose number
/// of channels changed, had to be opened anew.
pub open spec fn mirrored_sink(
    sinks: Map<u8, SinkEntryModel>,
    d: SinkModel,
    version: (u64, u64),
    reopened: bool,
) -> SinkEntryModel {
    if sinks.contains_key(d.id) {
        let was = sinks[d.id];
        let now = updated_sink(was, d, version);
        if was.flow && was.channels != now.channels {
            SinkEntryModel { flow: reopened, ..now }
        } else {
            now
        }
    } else {
        new_sink(d, version)
    }
}

impl SinkEntry {
    /// The mirror of a Sink that was just found.
    pub fn new(daemon: &DaemonSink, version: (u64, u64)) -> (r: Self)
        ensures
            r@ == new_sink(daemon@, version),
            name_based(r.flow_id.bits),
    {
        let leases: Vec<String> = Vec::new();
        assert(texts(leases@) =~= Seq::empty());
        SinkEntry {
            daemon_id: daemon.id,
            source_id: sink_source_id(daemon.id),
            flow_id: sink_flow_id(daemon.id),
            sender_id: sink_sender_id(daemon.id),
            label: daemon.name.clone(),
            channels: daemon.map.len() as u32,
            map: copy_map(&daemon.map),
            version,
            active: false,
            receiver_id: None,
            leases,
            flow: false,
            fault: None,
        }
    }

    fn update_from_daemon(&mut self, daemon: &DaemonSink, version: (u64, u64))
        ensures
            final(self)@ == updated_sink(old(self)@, daemon@, version),
    {
        self.label = daemon.name.clone();
        self.channels = daemon.map.len() as u32;
        self.map = copy_map(&daemon.map);
        self.version = version;
    }

    /// What others see of the mirror. It counts as active only while nothing is wrong with it.
    pub fn snapshot(&self) -> (r: SinkEntrySnapshot)
        ensures
            r@ == sink_snapshot(self@),
    {
        SinkEntrySnapshot {
            daemon_id: self.daemon_id,
            source_id: self.source_id,
            flow_id: self.flow_id,
            sender_id: self.sender_id,
            label: self.label.clone(),
            channels: self.channels,
            version: self.version,
            active: self.active && self.fault.is_none(),
            receiver_id: copy_option(&self.receiver_id),
        }
    }
}

/// An optional text that says the same.
pub fn copy_option(s: &Option<String>) -> (r: Option<String>)
    ensures
        option_view(r) == option_view(*s),
{
    match s {
        Some(t) => Some(t.clone()),
        None => None,
    }
}

/// What others see of a mirrored Sink.
#[derive(Debug)]
pub struct SinkEntrySnapshot {
    pub daemon_id: u8,
    pub source_id: Uuid,
    pub flow_id: Uuid,
    pub sender_id: Uuid,
    pub label: String,
    pub channels: u32,
    pub version: (u64, u64),
    pub active: bool,
    pub receiver_id: Option<String>,
}

/// What a [`SinkEntrySnapshot`] says.
pub struct SinkSnapshotModel {
    pub daemon_id: u8,
    pub source_id: Uuid,
    pub flow_id: Uuid,
    pub sender_id: Uuid,
    pub label: Seq<char>,
    pub channels: u32,
    pub version: (u64, u64),
    pub active: bool,
    pub receiver_id: Option<Seq<char>>,
}

impl View for SinkEntrySnapshot {
    type V = SinkSnapshotModel;

    open spec fn view(&self) -> SinkSnapshotModel {
        SinkSnapshotModel {
            daemon_id: self.daemon_id,
            source_id: self.source_id,
            flow_id: self.flow_id,
            sender_id: self.sender_id,
            label: self.label@,
            channels: self.channels,
            version: self.version,
            active: self.active,
            receiver_id: option_view(self.receiver_id),
        }
    }
}

/// What others see of a mirrored Sink: it is active where it was activated and has no fault.
pub open spec fn sink_snapshot(e: SinkEntryModel) -> SinkSnapshotModel {
    SinkSnapshotModel {
        daemon_id: e.daemon_id,
        source_id: e.source_id,
        flow_id: e.flow_id,
        sender_id: e.sender_id,
        label: e.label,
        channels: e.channels,
        version: e.version,
        active: e.active && e.fault is None,
        receiver_id: e.receiver_id,
    }
}

/// The receiver that mirrors a Source of the daemon.
#[derive(Debug)]
pub struct SourceEntry {
    pub daemon_id: u8,
    pub receiver_id: Uuid,
    pub label: String,
    pub channels: u32,
    /// The channels of the device that the Source's channels are, in order.
    pub map: Vec<u8>,
    pub version: (u64, u64),
    pub active: bool,
    pub sender_id: Option<String>,
    /// The flow that is read.
    pub flow_id: Option<String>,
    /// What keeps the flow from being read.
    pub fault: Option<String>,
}

/// What a [`SourceEntry`] says.
pub struct SourceEntryModel {
    pub daemon_id: u8,
    pub receiver_id: Uuid,
    pub label: Seq<char>,
    pub channels: u32,
    pub map: Seq<u8>,
    pub version: (u64, u64),
    pub active: bool,
    pub sender_id: Option<Seq<char>>,
    pub flow_id: Option<Seq<char>>,
    pub fault: Option<Seq<char>>,
}

impl View for SourceEntry {
    type V = SourceEntryModel;

    open spec fn view(&self) -> SourceEntryModel {
        SourceEntryModel {
            daemon_id: self.daemon_id,
            receiver_id: self.receiver_id,
            label: self.label@,
            channels: self.channels,
            map: self.map@,
            version: self.version,
            active: self.active,
            sender_id: option_view(self.sender_id),
            flow_id: option_view(self.flow_id),
            fault: option_view(self.fault),
        }
    }
}

/// The id of the receiver that mirrors a Source.
pub open spec fn source_id(daemon_id: u8) -> Uuid {
    Uuid { bits: stable("mxl-bridge-source-receiver:"@ + dec(daemon_id as nat)) }
}

/// The mirror of a Source that was just found.
pub open spec fn new_source(d: SourceModel, version: (u64, u64)) -> SourceEntryModel {
    SourceEntryModel {
        daemon_id: d.id,
        receiver_id: source_id(d.id),
        label: d.name,
        channels: d.map.len() as u32,
        map: d.map,
        version,
        active: false,
        sender_id: None,
        flow_id: None,
        fault: None,
    }
}

/// The mirror of a Source after the daemon said something else of it. What was activated stays.
pub open spec fn updated_source(
    e: SourceEntryModel,
    d: SourceModel,
    version: (u64, u64),
) -> SourceEntryModel {
    SourceEntryModel { label: d.name, channels: d.map.len() as u32, map: d.map, version, ..e }
}

/// The mirror of a Source that is new or says something else.
pub open spec fn mirrored_source(
    sources: Map<u8, SourceEntryModel>,
    d: SourceModel,
    version: (u64, u64),
) -> SourceEntryModel {
    if sources.contains_key(d.id) {
        updated_source(sources[d.id], d, version)
    } else {
        new_source(d, version)
    }
}

/// What others see of a mirrored Source.
#[derive(Debug)]
pub struct SourceEntrySnapshot {
    pub daemon_id: u8,
    pub receiver_id: Uuid,
    pub label: String,
    pub channels: u32,
    pub version: (u64, u64),
    pub active: bool,
    pub sender_id: Option<String>,
}

/// What a [`SourceEntrySnapshot`] says.
pub struct SourceSnapshotModel {
    pub daemon_id: u8,
    pub receiver_id: Uuid,
    pub label: Seq<char>,
    pub channels: u32,
    pub version: (u64, u64),
    pub active: bool,
    pub sender_id: Option<Seq<char>>,
}

impl View for SourceEntrySnapshot {
    type V = SourceSnapshotModel;

    open spec fn view(&self) -> SourceSnapshotModel {
        SourceSnapshotModel {
            daemon_id: self.daemon_id,
            receiver_id: self.receiver_id,
            label: self.label@,
            channels: self.channels,
            version: self.version,
            active: self.active,
            sender_id: option_view(self.sender_id),
        }
    }
}

/// What others see of a mirrored Source: it is active where it was activated and has no fault.
pub open spec fn source_snapshot(e: SourceEntryModel) -> SourceSnapshotModel {
    SourceSnapshotModel {
        daemon_id: e.daemon_id,
        receiver_id: e.receiver_id,
        label: e.label,
        channels: e.channels,
        version: e.version,
        active: e.active && e.fault is None,
        sender_id: e.sender_id,
    }
}

impl SourceEntry {
    /// The mirror of a Source that was just found.
    pub fn new(daemon: &DaemonSource, version: (u64, u64)) -> (r: Self)
        ensures
            r@ == new_source(daemon@, version),
    {
        SourceEntry {
            daemon_id: daemon.id,
            receiver_id: source_receiver_id(daemon.id),
            label: daemon.name.clone(),
            channels: daemon.map.len() as u32,
            map: copy_map(&daemon.map),
            version,
            active: false,
            sender_id: None,
            flow_id: None,
            fault: None,
        }
    }

    fn update_from_daemon(&mut self, daemon: &DaemonSource, version: (u64, u64))
        ensures
            final(self)@ == updated_source(old(self)@, daemon@, version),
    {
        self.label = daemon.name.clone();
        self.channels = daemon.map.len() as u32;
        self.map = copy_map(&daemon.map);
        self.version = version;
    }

    /// What others see of the mirror. It counts as active only while nothing is wrong with it.
    pub fn snapshot(&self) -> (r: SourceEntrySnapshot)
        ensures
            r@ == source_snapshot(self@),
    {
        SourceEntrySnapshot {
            daemon_id: self.daemon_id,
            receiver_id: self.receiver_id,
            label: self.label.clone(),
            channels: self.channels,
            version: self.version,
            active: self.active && self.fault.is_none(),
            sender_id: copy_option(&self.sender_id),
        }
    }
}

/// What the node knows.
pub struct NmosState {
    pub cfg: Config,
    pub domain: DomainDef,
    pub node_id: Uuid,
    pub device_id: Uuid,
    pub node_version: (u64, u64),
    /// The width of the daemon's device.
    pub alsa_channels: u8,
    pub sinks: Table<u8, SinkEntry>,
    pub sources: Table<u8, SourceEntry>,
    pub is08: Is08State,
}

/// What a [`NmosState`] says of what changes while it runs.
pub struct NmosModel {
    pub alsa_channels: u8,
    pub sinks: Map<u8, SinkEntryModel>,
    pub sources: Map<u8, SourceEntryModel>,
    pub is08: Is08Model,
}

impl View for NmosState {
    type V = NmosModel;

    open spec fn view(&self) -> NmosModel {
        NmosModel {
            alsa_channels: self.alsa_channels,
            sinks: self.sinks@.map_values(|e: SinkEntry| e@),
            sources: self.sources@.map_values(|e: SourceEntry| e@),
            is08: self.is08@,
        }
    }
}

/// Whether every mirrored Sink stands under its own number, and has a flow whose id was made from
/// a name.
pub open spec fn own_sinks(s: Seq<(u8, SinkEntry)>) -> bool {
    forall|i: int|
        0 <= i < s.len() ==> (#[trigger] s[i]).1.daemon_id == s[i].0 && name_based(
            s[i].1.flow_id.bits,
        )
}

/// Whether every mirrored Source stands under its own number.
pub open spec fn own_sources(s: Seq<(u8, SourceEntry)>) -> bool {
    forall|i: int| 0 <= i < s.len() ==> (#[trigger] s[i]).1.daemon_id == s[i].0
}

proof fn lemma_own_sinks(before: Seq<(u8, SinkEntry)>, after: Seq<(u8, SinkEntry)>, id: u8, e: SinkEntry)
    requires
        sorted(before),
        sorted(after),
        own_sinks(before),
        e.daemon_id == id,
        name_based(e.flow_id.bits),
        as_map(after) == as_map(before).insert(id, e) || as_map(after) == as_map(before).remove(id),
    ensures
        own_sinks(after),
{
    assert forall|i: int| 0 <= i < after.len() implies (#[trigger] after[i]).1.daemon_id
        == after[i].0 && name_based(after[i].1.flow_id.bits) by {
        lemma_in_map(after, i);
        if after[i].0 != id {
            let j = lemma_from_map(before, after[i].0);
        }
    }
}

proof fn lemma_own_sources(
    before: Seq<(u8, SourceEntry)>,
    after: Seq<(u8, SourceEntry)>,
    id: u8,
    e: SourceEntry,
)
    requires
        sorted(before),
        sorted(after),
        own_sources(before),
        e.daemon_id == id,
        as_map(after) == as_map(before).insert(id, e) || as_map(after) == as_map(before).remove(id),
    ensures
        own_sources(after),
{
    assert forall|i: int| 0 <= i < after.len() implies (#[trigger] after[i]).1.daemon_id
        == after[i].0 by {
        lemma_in_map(after, i);
        if after[i].0 != id {
            let j = lemma_from_map(before, after[i].0);
        }
    }
}

/// The place of the Sink whose sender has an id.
pub open spec fn sender_at(s: Seq<(u8, SinkEntry)>, id: Seq<char>) -> Option<int> {
    first_index(s, |e: (u8, SinkEntry)| uuid_text(e.1.sender_id.bits) == id)
}

/// The place of the Source whose receiver has an id.
pub open spec fn receiver_at(s: Seq<(u8, SourceEntry)>, id: Seq<char>) -> Option<int> {
    first_index(s, |e: (u8, SourceEntry)| uuid_text(e.1.receiver_id.bits) == id)
}

/// The Sinks and their senders, in order.
pub open spec fn senders(s: Seq<(u8, SinkEntry)>) -> Seq<(u8, Uuid)> {
    s.map_values(|e: (u8, SinkEntry)| (e.0, e.1.sender_id))
}

/// The Sources and their receivers, in order.
pub open spec fn receivers(s: Seq<(u8, SourceEntry)>) -> Seq<(u8, Uuid)> {
    s.map_values(|e: (u8, SourceEntry)| (e.0, e.1.receiver_id))
}

/// Where the senders are the same, each is found at the same place, under the same number.
pub proof fn lemma_same_senders(s: Seq<(u8, SinkEntry)>, t: Seq<(u8, SinkEntry)>, id: Seq<char>)
    requires
        senders(s) == senders(t),
    ensures
        sender_at(s, id) == sender_at(t, id),
        sender_at(s, id) matches Some(i) ==> 0 <= i < s.len() && i < t.len() && s[i].0 == t[i].0,
{
    let p = |e: (u8, SinkEntry)| uuid_text(e.1.sender_id.bits) == id;
    assert(senders(s).len() == s.len() && senders(t).len() == t.len());
    assert forall|k: int| 0 <= k < s.len() implies p(#[trigger] s[k]) == p(t[k]) && s[k].0
        == t[k].0 by {
        assert(senders(s)[k] == senders(t)[k]);
    }
    lemma_same_first(s, t, p);
    lemma_first_meets(s, p);
}

/// Where the receivers are the same, each is found at the same place, under the same number.
pub proof fn lemma_same_receivers(
    s: Seq<(u8, SourceEntry)>,
    t: Seq<(u8, SourceEntry)>,
    id: Seq<char>,
)
    requires
        receivers(s) == receivers(t),
    ensures
        receiver_at(s, id) == receiver_at(t, id),
        receiver_at(s, id) matches Some(i) ==> 0 <= i < s.len() && i < t.len() && s[i].0 == t[i].0,
{
    let p = |e: (u8, SourceEntry)| uuid_text(e.1.receiver_id.bits) == id;
    assert(receivers(s).len() == s.len() && receivers(t).len() == t.len());
    assert forall|k: int| 0 <= k < s.len() implies p(#[trigger] s[k]) == p(t[k]) && s[k].0
        == t[k].0 by {
        assert(receivers(s)[k] == receivers(t)[k]);
    }
    lemma_same_first(s, t, p);
    lemma_first_meets(s, p);
}

/// The place of the Sink whose sender has an id.
pub fn find_sender(t: &Table<u8, SinkEntry>, id: &str) -> (r: Option<usize>)
    ensures
        match r {
            Some(i) => i < t.list().len() && sender_at(t.list(), id@) == Some(i as int),
            None => sender_at(t.list(), id@) is None,
        },
{
    let test = |e: &SinkEntry| -> (b: bool)
        ensures
            b == (uuid_text(e.sender_id.bits) == id@),
        { same(e.sender_id.to_string().as_str(), id) };
    find_first(t, test, Ghost(|e: (u8, SinkEntry)| uuid_text(e.1.sender_id.bits) == id@))
}

/// The place of the Source whose receiver has an id.
pub fn find_receiver(t: &Table<u8, SourceEntry>, id: &str) -> (r: Option<usize>)
    ensures
        match r {
            Some(i) => i < t.list().len() && receiver_at(t.list(), id@) == Some(i as int),
            None => receiver_at(t.list(), id@) is None,
        },
{
    let test = |e: &SourceEntry| -> (b: bool)
        ensures
            b == (uuid_text(e.receiver_id.bits) == id@),
        { same(e.receiver_id.to_string().as_str(), id) };
    find_first(t, test, Ghost(|e: (u8, SourceEntry)| uuid_text(e.1.receiver_id.bits) == id@))
}

/// The mirror of a Sink after an activation: open while there are leases, for the last that was
/// acquired.
pub open spec fn activated_sink(e: SinkEntryModel, action: LeaseModel) -> SinkEntryModel {
    let leases = leases_after(e.leases, action);
    SinkEntryModel {
        leases,
        flow: leases.len() > 0,
        active: leases.len() > 0,
        receiver_id: if leases.len() > 0 {
            Some(leases.last())
        } else {
            None
        },
        ..e
    }
}

/// Whether an activation has to open the flow.
pub open spec fn opens(e: SinkEntryModel, action: LeaseModel) -> bool {
    leases_after(e.leases, action).len() > 0 && !e.flow
}

/// Whether an activation of a receiver has to open a flow: it connects, and its flow is known.
pub open spec fn connects(active: bool, flow_id: Option<Seq<char>>) -> bool {
    active && flow_id is Some
}

/// The mirror of a Source after an activation.
pub open spec fn activated_source(
    e: SourceEntryModel,
    active: bool,
    sender_id: Option<Seq<char>>,
    flow_id: Option<Seq<char>>,
) -> SourceEntryModel {
    SourceEntryModel {
        active,
        sender_id,
        flow_id: if active {
            flow_id
        } else {
            None
        },
        ..e
    }
}

/// What a result with the mirror of a Sink says.
pub open spec fn sink_outcome(r: Result<SinkEntrySnapshot, String>) -> Result<
    SinkSnapshotModel,
    Seq<char>,
> {
    match r {
        Ok(s) => Ok(s@),
        Err(e) => Err(e@),
    }
}

/// What a result with the mirror of a Source says.
pub open spec fn source_outcome(r: Result<SourceEntrySnapshot, String>) -> Result<
    SourceSnapshotModel,
    Seq<char>,
> {
    match r {
        Ok(s) => Ok(s@),
        Err(e) => Err(e@),
    }
}

/// What activating or deactivating a sender comes to, and the mirrors after it. Where its flow has
/// to be opened and cannot be, nothing is changed.
pub open spec fn sink_activation(
    state: NmosState,
    sender_id: Seq<char>,
    action: LeaseModel,
    opened: Result<(), String>,
) -> (Result<SinkSnapshotModel, Seq<char>>, NmosModel) {
    match sender_at(state.sinks.list(), sender_id) {
        None => (Err("no such sender "@ + sender_id), state@),
        Some(i) => {
            let (id, e) = state.sinks.list()[i];
            match (opens(e@, action), opened) {
                (true, Err(cause)) => (
                    Err("activating Sender failed to open its MXL flow: "@ + cause@),
                    state@,
                ),
                _ => {
                    let now = activated_sink(e@, action);
                    (
                        Ok(sink_snapshot(now)),
                        NmosModel { sinks: state@.sinks.insert(id, now), ..state@ },
                    )
                },
            }
        },
    }
}

/// What activating or deactivating a receiver comes to, and the mirrors after it. Where no flow is
/// known, or it cannot be opened, nothing is changed.
pub open spec fn source_activation(
    state: NmosState,
    receiver_id: Seq<char>,
    active: bool,
    sender_id: Option<Seq<char>>,
    flow_id: Option<Seq<char>>,
    opened: Result<(), String>,
) -> (Result<SourceSnapshotModel, Seq<char>>, NmosModel) {
    match receiver_at(state.sources.list(), receiver_id) {
        None => (Err("no such receiver "@ + receiver_id), state@),
        Some(i) => {
            let (id, e) = state.sources.list()[i];
            match (active, flow_id, opened) {
                (true, None, _) => (
                    Err("activating a Receiver requires a resolved flow_id"@),
                    state@,
                ),
                (true, Some(_), Err(cause)) => (
                    Err("activating Receiver failed to open its MXL flow: "@ + cause@),
                    state@,
                ),
                _ => {
                    let now = activated_source(e@, active, sender_id, flow_id);
                    (
                        Ok(source_snapshot(now)),
                        NmosModel { sources: state@.sources.insert(id, now), ..state@ },
                    )
                },
            }
        },
    }
}

/// What an optional mirror of a Sink says.
pub open spec fn some_sink(r: Option<SinkEntrySnapshot>) -> Option<SinkSnapshotModel> {
    match r {
        Some(s) => Some(s@),
        None => None,
    }
}

/// What an optional mirror of a Source says.
pub open spec fn some_source(r: Option<SourceEntrySnapshot>) -> Option<SourceSnapshotModel> {
    match r {
        Some(s) => Some(s@),
        None => None,
    }
}

fn joined(a: &str, b: &str) -> (r: String)
    ensures
        r@ == a@ + b@,
{
    let mut s = a.to_owned();
    s.append(b);
    s
}

impl NmosState {
    /// Whether every mirror stands under its own number.
    pub open spec fn wf(self) -> bool {
        &&& self.sinks.wf()
        &&& own_sinks(self.sinks.list())
        &&& self.sources.wf()
        &&& own_sources(self.sources.list())
        &&& self.is08.wf()
        &&& self.domain.wf()
    }

    /// Whether everything but the mirrors, the crosspoints and the width of the device is the same:
    /// what does not change while the node runs, and the activations of channel mappings.
    pub open spec fn same_node(self, other: NmosState) -> bool {
        &&& self.cfg == other.cfg
        &&& self.domain == other.domain
        &&& self.node_id == other.node_id
        &&& self.device_id == other.device_id
        &&& self.node_version == other.node_version
        &&& self.is08.activations == other.is08.activations
        &&& self.is08.activation_counter == other.is08.activation_counter
    }

    /// A node without mirrors, at the time it starts.
    pub fn new(cfg: Config, domain: DomainDef, started: (u64, u64)) -> (r: Self)
        requires
            domain.wf(),
        ensures
            r.wf(),
            r.cfg == cfg,
            r.domain == domain,
            r.node_id.bits == stable("mxl-bridge-node"@),
            r.device_id.bits == stable("mxl-bridge-device"@),
            r.node_version == started,
            r@ == (NmosModel {
                alsa_channels: cfg.alsa_channels_fallback,
                sinks: Map::empty(),
                sources: Map::empty(),
                is08: Is08Model { outputs: Map::empty(), packed_tx: Map::empty() },
            }),
    {
        let alsa_channels: u8 = cfg.alsa_channels_fallback;
        let r = NmosState {
            cfg,
            domain,
            node_id: node_id(),
            device_id: device_id(),
            node_version: started,
            alsa_channels,
            sinks: Table::new(),
            sources: Table::new(),
            is08: Is08State::new(),
        };
        assert(r@.sinks =~= Map::empty());
        assert(r@.sources =~= Map::empty());
        r
    }

    /// The version of the node and the device: the time the node started.
    pub fn version(&self) -> (r: String)
        ensures
            r@ == version_text(self.node_version),
    {
        version_string(self.node_version)
    }

    /// The daemon said how wide its device is.
    pub fn set_alsa_channels(&mut self, channels: u8)
        requires
            old(self).wf(),
        ensures
            final(self).wf(),
            final(self).same_node(*old(self)),
            final(self)@ == (NmosModel { alsa_channels: channels, ..old(self)@ }),
    {
        self.alsa_channels = channels;
    }

    /// Whether the flow of a Sink has to be opened anew: it is open, and the Sink has another
    /// number of channels now.
    pub fn must_reopen(&self, daemon: &DaemonSink) -> (r: bool)
        requires
            self.wf(),
        ensures
            r == (self@.sinks.contains_key(daemon.id) && self@.sinks[daemon.id].flow
                && self@.sinks[daemon.id].channels != daemon.map@.len() as u32),
    {
        match self.sinks.get(&daemon.id) {
            Some(e) => {
                assert(self@.sinks[daemon.id] == e@);
                e.flow && e.channels != daemon.map.len() as u32
            },
            None => false,
        }
    }

    /// Mirrors a Sink that is new or says something else. Where its flow had to be opened anew,
    /// `reopened` says whether that worked; leases are kept either way.
    pub fn apply_sink_added_or_changed(
        &mut self,
        daemon: &DaemonSink,
        version: (u64, u64),
        reopened: bool,
    ) -> (r: SinkEntrySnapshot)
        requires
            old(self).wf(),
        ensures
            final(self).wf(),
            final(self).same_node(*old(self)),
            ({
                let e = mirrored_sink(old(self)@.sinks, daemon@, version, reopened);
                &&& final(self)@ == (NmosModel {
                    sinks: old(self)@.sinks.insert(daemon.id, e),
                    ..old(self)@
                })
                &&& r@ == sink_snapshot(e)
            }),
    {
        let ghost was = self@;
        let ghost before = self.sinks.list();
        let ghost table = self.sinks@;
        let known = self.sinks.remove(&daemon.id);
        let entry = match known {
            Some(e) => {
                let mut e = e;
                assert(was.sinks[daemon.id] == e@);
                let changed = e.channels != daemon.map.len() as u32;
                e.update_from_daemon(daemon, version);
                if changed && e.flow {
                    e.flow = reopened;
                }
                proof {
                    let i = lemma_from_map(before, daemon.id);
                }
                e
            },
            None => SinkEntry::new(daemon, version),
        };
        let snapshot = entry.snapshot();
        let ghost e = entry;
        self.sinks.insert(daemon.id, entry);
        proof {
            assert(e@.daemon_id == daemon.id);
            assert(table.remove(daemon.id).insert(daemon.id, e) =~= table.insert(daemon.id, e));
            lemma_own_sinks(before, self.sinks.list(), daemon.id, e);
            assert(self@.sinks =~= was.sinks.insert(daemon.id, e@));
        }
        snapshot
    }

    /// Stops mirroring a Sink.
    pub fn remove_sink(&mut self, id: u8) -> (r: Option<SinkEntrySnapshot>)
        requires
            old(self).wf(),
        ensures
            final(self).wf(),
            final(self).same_node(*old(self)),
            final(self)@ == (NmosModel { sinks: old(self)@.sinks.remove(id), ..old(self)@ }),
            some_sink(r) == (if old(self)@.sinks.contains_key(id) {
                Some(sink_snapshot(old(self)@.sinks[id]))
            } else {
                None
            }),
    {
        let ghost was = self@;
        let ghost before = self.sinks.list();
        let removed = self.sinks.remove(&id);
        proof {
            assert forall|i: int| 0 <= i < self.sinks.list().len() implies (
            #[trigger] self.sinks.list()[i]).1.daemon_id == self.sinks.list()[i].0 && name_based(
                self.sinks.list()[i].1.flow_id.bits,
            ) by {
                lemma_in_map(self.sinks.list(), i);
                let j = lemma_from_map(before, self.sinks.list()[i].0);
            }
            assert(self@.sinks =~= was.sinks.remove(id));
        }
        match removed {
            Some(e) => {
                assert(was.sinks[id] == e@);
                Some(e.snapshot())
            },
            None => None,
        }
    }

    /// Mirrors a Source that is new or says something else.
    pub fn apply_source_added_or_changed(&mut self, daemon: &DaemonSource, version: (u64, u64)) -> (r:
        SourceEntrySnapshot)
        requires
            old(self).wf(),
        ensures
            final(self).wf(),
            final(self).same_node(*old(self)),
            ({
                let e = mirrored_source(old(self)@.sources, daemon@, version);
                &&& final(self)@ == (NmosModel {
                    sources: old(self)@.sources.insert(daemon.id, e),
                    ..old(self)@
                })
                &&& r@ == source_snapshot(e)
            }),
    {
        let ghost was = self@;
        let ghost before = self.sources.list();
        let ghost table = self.sources@;
        let known = self.sources.remove(&daemon.id);
        let entry = match known {
            Some(e) => {
                let mut e = e;
                assert(was.sources[daemon.id] == e@);
                e.update_from_daemon(daemon, version);
                proof {
                    let i = lemma_from_map(before, daemon.id);
                }
                e
            },
            None => SourceEntry::new(daemon, version),
        };
        let snapshot = entry.snapshot();
        let ghost e = entry;
        self.sources.insert(daemon.id, entry);
        proof {
            assert(e@.daemon_id == daemon.id);
            assert(table.remove(daemon.id).insert(daemon.id, e) =~= table.insert(daemon.id, e));
            lemma_own_sources(before, self.sources.list(), daemon.id, e);
            assert(self@.sources =~= was.sources.insert(daemon.id, e@));
        }
        snapshot
    }

    /// Stops mirroring a Source.
    pub fn remove_source(&mut self, id: u8) -> (r: Option<SourceEntrySnapshot>)
        requires
            old(self).wf(),
        ensures
            final(self).wf(),
            final(self).same_node(*old(self)),
            final(self)@ == (NmosModel { sources: old(self)@.sources.remove(id), ..old(self)@ }),
            some_source(r) == (if old(self)@.sources.contains_key(id) {
                Some(source_snapshot(old(self)@.sources[id]))
            } else {
                None
            }),
    {
        let ghost was = self@;
        let ghost before = self.sources.list();
        let removed = self.sources.remove(&id);
        proof {
            assert forall|i: int| 0 <= i < self.sources.list().len() implies (
            #[trigger] self.sources.list()[i]).1.daemon_id == self.sources.list()[i].0 by {
                lemma_in_map(self.sources.list(), i);
                let j = lemma_from_map(before, self.sources.list()[i].0);
            }
            assert(self@.sources =~= was.sources.remove(id));
        }
        match removed {
            Some(e) => {
                assert(was.sources[id] == e@);
                Some(e.snapshot())
            },
            None => None,
        }
    }

    /// The Sink whose flow an activation has to open, where it has to.
    pub fn sink_to_open(&self, sender_id: &str, action: &SinkLeaseAction) -> (r: Option<&SinkEntry>)
        ensures
            match r {
                Some(e) => sender_at(self.sinks.list(), sender_id@) matches Some(i) && *e
                    == self.sinks.list()[i].1 && opens(e@, action@),
                None => sender_at(self.sinks.list(), sender_id@) matches Some(i) ==> !opens(
                    self.sinks.list()[i].1@,
                    action@,
                ),
            },
    {
        match find_sender(&self.sinks, sender_id) {
            Some(i) => {
                let e = self.sinks.value_at(i);
                let mut leases = copy_texts(&e.leases);
                apply_lease_action(&mut leases, action);
                assert(texts(leases@).len() == leases@.len());
                if leases.len() > 0 && !e.flow {
                    Some(e)
                } else {
                    None
                }
            },
            None => None,
        }
    }

    /// Activates or deactivates a sender. Where its flow had to be opened, `opened` says what came
    /// of it: where that failed, nothing is changed.
    pub fn set_sink_activation(
        &mut self,
        sender_id: &str,
        action: &SinkLeaseAction,
        opened: Result<(), String>,
    ) -> (r: Result<SinkEntrySnapshot, String>)
        requires
            old(self).wf(),
        ensures
            final(self).wf(),
            final(self).same_node(*old(self)),
            (sink_outcome(r), final(self)@) == sink_activation(
                *old(self),
                sender_id@,
                action@,
                opened,
            ),
            senders(final(self).sinks.list()) == senders(old(self).sinks.list()),
    {
        let i: usize = match find_sender(&self.sinks, sender_id) {
            Some(i) => i,
            None => {
                return Err(joined("no such sender ", sender_id));
            },
        };
        let ghost was = self@;
        let ghost before = self.sinks.list();
        let e = self.sinks.value_at(i);
        let mut leases = copy_texts(&e.leases);
        apply_lease_action(&mut leases, action);
        assert(texts(leases@).len() == leases@.len());
        let now_active = leases.len() > 0;
        if now_active && !e.flow {
            if let Err(cause) = opened {
                return Err(
                    joined("activating Sender failed to open its MXL flow: ", cause.as_str()),
                );
            }
        }
        let receiver_id: Option<String> = if now_active {
            Some(leases[leases.len() - 1].clone())
        } else {
            None
        };
        let id: u8 = e.daemon_id;
        let entry = SinkEntry {
            daemon_id: e.daemon_id,
            source_id: e.source_id,
            flow_id: e.flow_id,
            sender_id: e.sender_id,
            label: e.label.clone(),
            channels: e.channels,
            map: copy_map(&e.map),
            version: e.version,
            active: now_active,
            receiver_id,
            leases,
            flow: now_active,
            fault: copy_option(&e.fault),
        };
        let snapshot = entry.snapshot();
        let ghost now = entry;
        assert(now@ == activated_sink(before[i as int].1@, action@));
        self.sinks.replace_at(i, entry);
        proof {
            assert(before[i as int].1.daemon_id == before[i as int].0);
            lemma_own_sinks(before, self.sinks.list(), before[i as int].0, now);
            assert(self@.sinks =~= was.sinks.insert(before[i as int].0, now@));
            assert(senders(self.sinks.list()) =~= senders(before));
        }
        Ok(snapshot)
    }

    /// The Source whose flow an activation has to open, where it has to.
    pub fn source_to_open(&self, receiver_id: &str, active: bool, flow_id: &Option<String>) -> (r:
        Option<&SourceEntry>)
        ensures
            match r {
                Some(e) => (receiver_at(self.sources.list(), receiver_id@) matches Some(i) && *e
                    == self.sources.list()[i].1) && connects(active, option_view(*flow_id)),
                None => receiver_at(self.sources.list(), receiver_id@) is Some ==> !connects(
                    active,
                    option_view(*flow_id),
                ),
            },
    {
        if active && flow_id.is_some() {
            match find_receiver(&self.sources, receiver_id) {
                Some(i) => Some(self.sources.value_at(i)),
                None => None,
            }
        } else {
            None
        }
    }

    /// Activates or deactivates a receiver. Activating needs a flow, which `opened` says what came
    /// of opening; where that failed, nothing is changed.
    pub fn set_source_activation(
        &mut self,
        receiver_id: &str,
        active: bool,
        sender_id: Option<String>,
        flow_id: Option<String>,
        opened: Result<(), String>,
    ) -> (r: Result<SourceEntrySnapshot, String>)
        requires
            old(self).wf(),
        ensures
            final(self).wf(),
            final(self).same_node(*old(self)),
            (source_outcome(r), final(self)@) == source_activation(
                *old(self),
                receiver_id@,
                active,
                option_view(sender_id),
                option_view(flow_id),
                opened,
            ),
            receivers(final(self).sources.list()) == receivers(old(self).sources.list()),
    {
        let i: usize = match find_receiver(&self.sources, receiver_id) {
            Some(i) => i,
            None => {
                return Err(joined("no such receiver ", receiver_id));
            },
        };
        if active && flow_id.is_none() {
            return Err("activating a Receiver requires a resolved flow_id".to_owned());
        }
        if active {
            if let Err(cause) = opened {
                return Err(
                    joined("activating Receiver failed to open its MXL flow: ", cause.as_str()),
                );
            }
        }
        let ghost was = self@;
        let ghost before = self.sources.list();
        let ghost asked = option_view(flow_id);
        let e = self.sources.value_at(i);
        let flow_id: Option<String> = if active {
            flow_id
        } else {
            None
        };
        let entry = SourceEntry {
            daemon_id: e.daemon_id,
            receiver_id: e.receiver_id,
            label: e.label.clone(),
            channels: e.channels,
            map: copy_map(&e.map),
            version: e.version,
            active,
            sender_id,
            flow_id,
            fault: copy_option(&e.fault),
        };
        let snapshot = entry.snapshot();
        let ghost now = entry;
        self.sources.replace_at(i, entry);
        proof {
            assert(before[i as int].1.daemon_id == before[i as int].0);
            assert(now@ == activated_source(
                before[i as int].1@,
                active,
                option_view(sender_id),
                asked,
            ));
            lemma_own_sources(before, self.sources.list(), before[i as int].0, now);
            assert(self@.sources =~= was.sources.insert(before[i as int].0, now@));
            assert(receivers(self.sources.list()) =~= receivers(before));
        }
        Ok(snapshot)
    }

    /// The flow of a sender of this node.
    pub fn own_sink_flow_id(&self, sender_id: &str) -> (r: Option<Uuid>)
        ensures
            r == (match sender_at(self.sinks.list(), sender_id@) {
                Some(i) => Some(self.sinks.list()[i].1.flow_id),
                None => None,
            }),
    {
        match find_sender(&self.sinks, sender_id) {
            Some(i) => Some(self.sinks.value_at(i).flow_id),
            None => None,
        }
    }

    /// Something keeps the flow of a Sink from being written. Says whether nothing did before, so
    /// that others are to be told.
    pub fn mark_sink_fault(&mut self, id: u8, reason: &str) -> (r: bool)
        requires
            old(self).wf(),
        ensures
            final(self).wf(),
            final(self).same_node(*old(self)),
            r == (old(self)@.sinks.contains_key(id) && old(self)@.sinks[id].fault is None),
            final(self)@ == (NmosModel {
                sinks: with_sink_fault(old(self)@.sinks, id, Some(reason@)),
                ..old(self)@
            }),
    {
        self.change_sink_fault(id, Some(reason.to_owned()))
    }

    /// Nothing keeps the flow of a Sink from being written any more. Says whether something did, so
    /// that others are to be told.
    pub fn clear_sink_fault(&mut self, id: u8) -> (r: bool)
        requires
            old(self).wf(),
        ensures
            final(self).wf(),
            final(self).same_node(*old(self)),
            r == (old(self)@.sinks.contains_key(id) && old(self)@.sinks[id].fault is Some),
            final(self)@ == (NmosModel {
                sinks: with_sink_fault(old(self)@.sinks, id, None),
                ..old(self)@
            }),
    {
        self.change_sink_fault(id, None)
    }

    fn change_sink_fault(&mut self, id: u8, fault: Option<String>) -> (r: bool)
        requires
            old(self).wf(),
        ensures
            final(self).wf(),
            final(self).same_node(*old(self)),
            r == (old(self)@.sinks.contains_key(id) && (old(self)@.sinks[id].fault is None) == (fault
                is Some)),
            final(self)@ == (NmosModel {
                sinks: with_sink_fault(old(self)@.sinks, id, option_view(fault)),
                ..old(self)@
            }),
    {
        let ghost was = self@;
        let ghost before = self.sinks.list();
        let ghost table = self.sinks@;
        match self.sinks.remove(&id) {
            Some(e) => {
                let mut e = e;
                assert(was.sinks[id] == e@);
                proof {
                    let i = lemma_from_map(before, id);
                }
                let changed = e.fault.is_none() == fault.is_some();
                e.fault = fault;
                let ghost now = e;
                self.sinks.insert(id, e);
                proof {
                    assert(table.remove(id).insert(id, now) =~= table.insert(id, now));
                    lemma_own_sinks(before, self.sinks.list(), id, now);
                    assert(self@.sinks =~= was.sinks.insert(id, now@));
                }
                changed
            },
            None => {
                assert(table.remove(id) =~= table);
                proof {
                    assert forall|i: int| 0 <= i < self.sinks.list().len() implies (
                    #[trigger] self.sinks.list()[i]).1.daemon_id == self.sinks.list()[i].0
                        && name_based(self.sinks.list()[i].1.flow_id.bits) by {
                        lemma_in_map(self.sinks.list(), i);
                        let j = lemma_from_map(before, self.sinks.list()[i].0);
                    }
                }
                false
            },
        }
    }

    /// Something keeps the flow of a Source from being read. Says whether nothing did before, so
    /// that others are to be told.
    pub fn mark_source_fault(&mut self, id: u8, reason: &str) -> (r: bool)
        requires
            old(self).wf(),
        ensures
            final(self).wf(),
            final(self).same_node(*old(self)),
            r == (old(self)@.sources.contains_key(id) && old(self)@.sources[id].fault is None),
            final(self)@ == (NmosModel {
                sources: with_source_fault(old(self)@.sources, id, Some(reason@)),
                ..old(self)@
            }),
    {
        self.change_source_fault(id, Some(reason.to_owned()))
    }

    /// Nothing keeps the flow of a Source from being read any more. Says whether something did, so
    /// that others are to be told.
    pub fn clear_source_fault(&mut self, id: u8) -> (r: bool)
        requires
            old(self).wf(),
        ensures
            final(self).wf(),
            final(self).same_node(*old(self)),
            r == (old(self)@.sources.contains_key(id) && old(self)@.sources[id].fault is Some),
            final(self)@ == (NmosModel {
                sources: with_source_fault(old(self)@.sources, id, None),
                ..old(self)@
            }),
    {
        self.change_source_fault(id, None)
    }

    fn change_source_fault(&mut self, id: u8, fault: Option<String>) -> (r: bool)
        requires
            old(self).wf(),
        ensures
            final(self).wf(),
            final(self).same_node(*old(self)),
            r == (old(self)@.sources.contains_key(id) && (old(self)@.sources[id].fault is None) == (
            fault is Some)),
            final(self)@ == (NmosModel {
                sources: with_source_fault(old(self)@.sources, id, option_view(fault)),
                ..old(self)@
            }),
    {
        let ghost was = self@;
        let ghost before = self.sources.list();
        let ghost table = self.sources@;
        match self.sources.remove(&id) {
            Some(e) => {
                let mut e = e;
                assert(was.sources[id] == e@);
                proof {
                    let i = lemma_from_map(before, id);
                }
                let changed = e.fault.is_none() == fault.is_some();
                e.fault = fault;
                let ghost now = e;
                self.sources.insert(id, e);
                proof {
                    assert(table.remove(id).insert(id, now) =~= table.insert(id, now));
                    lemma_own_sources(before, self.sources.list(), id, now);
                    assert(self@.sources =~= was.sources.insert(id, now@));
                }
                changed
            },
            None => {
                assert(table.remove(id) =~= table);
                proof {
                    assert forall|i: int| 0 <= i < self.sources.list().len() implies (
                    #[trigger] self.sources.list()[i]).1.daemon_id == self.sources.list()[i].0 by {
                        lemma_in_map(self.sources.list(), i);
                        let j = lemma_from_map(before, self.sources.list()[i].0);
                    }
                }
                false
            },
        }
    }
}

/// Sinks with the fault of one set. Its activation is not touched.
pub open spec fn with_sink_fault(
    m: Map<u8, SinkEntryModel>,
    id: u8,
    fault: Option<Seq<char>>,
) -> Map<u8, SinkEntryModel> {
    if m.contains_key(id) {
        m.insert(id, SinkEntryModel { fault, ..m[id] })
    } else {
        m
    }
}

/// Sources with the fault of one set. Its activation is not touched.
pub open spec fn with_source_fault(
    m: Map<u8, SourceEntryModel>,
    id: u8,
    fault: Option<Seq<char>>,
) -> Map<u8, SourceEntryModel> {
    if m.contains_key(id) {
        m.insert(id, SourceEntryModel { fault, ..m[id] })
    } else {
        m
    }
}

/// After an activation the flow is open exactly while there are leases, the sender is active
/// exactly then, and the receiver that is shown is one that holds a lease.
pub proof fn law_flow_is_open_while_leased(e: SinkEntryModel, action: LeaseModel)
    ensures
        ({
            let now = activated_sink(e, action);
            &&& now.flow <==> now.leases.len() > 0
            &&& now.active <==> now.leases.len() > 0
            &&& match now.receiver_id {
                Some(r) => now.leases.contains(r),
                None => now.leases.len() == 0,
            }
        }),
{
    let now = activated_sink(e, action);
    if now.leases.len() > 0 {
        assert(now.leases[now.leases.len() - 1] == now.leases.last());
    }
}

/// A fault hides the activation while it lasts, and clearing it shows what was activated meanwhile:
/// it brings no sender back that was deactivated.
pub proof fn law_fault_does_not_touch_activation(e: SinkEntryModel, fault: Seq<char>)
    ensures
        !sink_snapshot(SinkEntryModel { fault: Some(fault), ..e }).active,
        sink_snapshot(SinkEntryModel { fault: None, ..e }).active == e.active,
{
}

} // verus!
