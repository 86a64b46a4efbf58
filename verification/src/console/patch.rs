//! The patch bay: a crosspoint that connects any source point (an input-grid entry, a track's own
//! direct-out, a bus's summed output, a master's output) to any destination point (a track's
//! input, a bus's or a master's summing input, an output-grid entry).
//!
//! `track-in` and `output` destinations are exclusive: one source per channel, and a new patch
//! replaces what was there. `bus-in` and `master-in` destinations are summing: any number of
//! sources may land on one channel.

use vstd::prelude::*;
use vstd::string::*;

use crate::json::{
    docs, no_items, put_item, whole, Doc, Json,
};
use crate::table::{as_map, lemma_in_map, lemma_mapped, sorted, Key, Table};
use crate::text::{
    between, dec, decimal, lemma_dec_value, lemma_stripped_concat, parse_unsigned, strip_prefix,
    stripped, unsigned_value,
};
use crate::uuid::Uuid;

verus! {

/// A source point, with one of its channels.
#[derive(Clone, Debug, PartialEq)]
pub enum SourceRef {
    Input { entry_id: String, channel: usize },
    TrackOut { track_id: u32, channel: usize },
    BusOut { bus_id: u32, channel: usize },
    MasterOut { master_id: u32, channel: usize },
}

/// What a [`SourceRef`] says.
pub enum RefModel {
    Input { entry_id: Seq<char>, channel: usize },
    TrackOut { track_id: u32, channel: usize },
    BusOut { bus_id: u32, channel: usize },
    MasterOut { master_id: u32, channel: usize },
}

impl View for SourceRef {
    type V = RefModel;

    open spec fn view(&self) -> RefModel {
        match *self {
            SourceRef::Input { entry_id, channel } => RefModel::Input { entry_id: entry_id@, channel },
            SourceRef::TrackOut { track_id, channel } => RefModel::TrackOut { track_id, channel },
            SourceRef::BusOut { bus_id, channel } => RefModel::BusOut { bus_id, channel },
            SourceRef::MasterOut { master_id, channel } => RefModel::MasterOut { master_id, channel },
        }
    }
}

impl RefModel {
    /// The channel of the source point.
    pub open spec fn channel(self) -> usize {
        match self {
            RefModel::Input { channel, .. } => channel,
            RefModel::TrackOut { channel, .. } => channel,
            RefModel::BusOut { channel, .. } => channel,
            RefModel::MasterOut { channel, .. } => channel,
        }
    }

    /// The name of the source point in messages.
    pub open spec fn wire_id(self) -> Seq<char> {
        match self {
            RefModel::Input { entry_id, .. } => "input:"@ + entry_id,
            RefModel::TrackOut { track_id, .. } => "track-out:"@ + dec(track_id as nat),
            RefModel::BusOut { bus_id, .. } => "bus-out:"@ + dec(bus_id as nat),
            RefModel::MasterOut { master_id, .. } => "master-out:"@ + dec(master_id as nat),
        }
    }

    /// The source point as a message holds it.
    pub open spec fn doc(self) -> Doc {
        Doc::object().with("source"@, Doc::Text(self.wire_id())).with(
            "channel"@,
            Doc::Number(whole(self.channel() as u64)),
        )
    }
}

/// The number of a track, bus or master in a source's name.
pub open spec fn id_value(s: Seq<char>) -> Option<u32> {
    match unsigned_value(s) {
        Some(n) => if n <= u32::MAX {
            Some(n as u32)
        } else {
            None
        },
        None => None,
    }
}

/// The source point that a name and a channel denote, or what is wrong with the name.
pub open spec fn named_source(source: Seq<char>, channel: usize) -> Result<RefModel, Seq<char>> {
    if let Some(entry_id) = stripped(source, "input:"@) {
        Ok(RefModel::Input { entry_id, channel })
    } else if let Some(id) = stripped(source, "track-out:"@) {
        match id_value(id) {
            Some(track_id) => Ok(RefModel::TrackOut { track_id, channel }),
            None => Err("invalid track id in source '"@ + source + "'"@),
        }
    } else if let Some(id) = stripped(source, "bus-out:"@) {
        match id_value(id) {
            Some(bus_id) => Ok(RefModel::BusOut { bus_id, channel }),
            None => Err("invalid bus id in source '"@ + source + "'"@),
        }
    } else if let Some(id) = stripped(source, "master-out:"@) {
        match id_value(id) {
            Some(master_id) => Ok(RefModel::MasterOut { master_id, channel }),
            None => Err("invalid master id in source '"@ + source + "'"@),
        }
    } else {
        Err("unknown source point '"@ + source + "'"@)
    }
}

/// The source point that a message denotes, or what is wrong with it.
pub open spec fn parsed_source(d: Doc) -> Result<RefModel, Seq<char>> {
    match (d.text_field("source"@), d.unsigned_field("channel"@)) {
        (None, _) => Err("patch entry missing 'source'"@),
        (Some(_), None) => Err("patch entry missing 'channel'"@),
        (Some(source), Some(channel)) => named_source(source, channel as usize),
    }
}

/// What a result with a text for an error says.
pub open spec fn outcome<T: View>(r: Result<T, String>) -> Result<T::V, Seq<char>> {
    match r {
        Ok(v) => Ok(v@),
        Err(e) => Err(e@),
    }
}

fn read_id(s: &str) -> (r: Option<u32>)
    ensures
        r == id_value(s@),
{
    match parse_unsigned(s, 4294967295) {
        Some(n) => Some(n as u32),
        None => None,
    }
}

impl SourceRef {
    /// The name of the source point in messages.
    pub fn wire_id(&self) -> (r: String)
        ensures
            r@ == self@.wire_id(),
    {
        match self {
            SourceRef::Input { entry_id, .. } => {
                let mut s = "input:".to_owned();
                s.append(entry_id.as_str());
                s
            },
            SourceRef::TrackOut { track_id, .. } => {
                let mut s = "track-out:".to_owned();
                s.append(decimal(*track_id as u64).as_str());
                s
            },
            SourceRef::BusOut { bus_id, .. } => {
                let mut s = "bus-out:".to_owned();
                s.append(decimal(*bus_id as u64).as_str());
                s
            },
            SourceRef::MasterOut { master_id, .. } => {
                let mut s = "master-out:".to_owned();
                s.append(decimal(*master_id as u64).as_str());
                s
            },
        }
    }

    /// The channel of the source point.
    pub fn channel(&self) -> (r: usize)
        ensures
            r == self@.channel(),
    {
        match self {
            SourceRef::Input { channel, .. } => *channel,
            SourceRef::TrackOut { channel, .. } => *channel,
            SourceRef::BusOut { channel, .. } => *channel,
            SourceRef::MasterOut { channel, .. } => *channel,
        }
    }

    /// The source point as a message holds it.
    pub fn to_json(&self) -> (r: Json)
        ensures
            r@ == self@.doc(),
    {
        Json::new_object().with("source", Json::Text(self.wire_id())).with(
            "channel",
            Json::whole(self.channel() as u64),
        )
    }

    /// Reads a source point from a message.
    pub fn parse(v: &Json) -> (r: Result<SourceRef, String>)
        ensures
            outcome(r) == parsed_source(v@),
    {
        let source = match v.text_field("source") {
            Some(s) => s,
            None => {
                return Err("patch entry missing 'source'".to_owned());
            },
        };
        let channel: usize = match v.unsigned_field("channel") {
            Some(c) => c as usize,
            None => {
                return Err("patch entry missing 'channel'".to_owned());
            },
        };
        if let Some(entry_id) = strip_prefix(source, "input:") {
            return Ok(SourceRef::Input { entry_id: entry_id.to_owned(), channel });
        }
        if let Some(id) = strip_prefix(source, "track-out:") {
            return match read_id(id) {
                Some(track_id) => Ok(SourceRef::TrackOut { track_id, channel }),
                None => Err(between("invalid track id in source '", source, "'")),
            };
        }
        if let Some(id) = strip_prefix(source, "bus-out:") {
            return match read_id(id) {
                Some(bus_id) => Ok(SourceRef::BusOut { bus_id, channel }),
                None => Err(between("invalid bus id in source '", source, "'")),
            };
        }
        if let Some(id) = strip_prefix(source, "master-out:") {
            return match read_id(id) {
                Some(master_id) => Ok(SourceRef::MasterOut { master_id, channel }),
                None => Err(between("invalid master id in source '", source, "'")),
            };
        }
        Err(between("unknown source point '", source, "'"))
    }

    /// A source point that says the same.
    pub fn copy(&self) -> (r: SourceRef)
        ensures
            r@ == self@,
    {
        match self {
            SourceRef::Input { entry_id, channel } => SourceRef::Input {
                entry_id: entry_id.clone(),
                channel: *channel,
            },
            SourceRef::TrackOut { track_id, channel } => SourceRef::TrackOut {
                track_id: *track_id,
                channel: *channel,
            },
            SourceRef::BusOut { bus_id, channel } => SourceRef::BusOut {
                bus_id: *bus_id,
                channel: *channel,
            },
            SourceRef::MasterOut { master_id, channel } => SourceRef::MasterOut {
                master_id: *master_id,
                channel: *channel,
            },
        }
    }
}

/// A source point that was written into a message is what reading the message gives back.
pub proof fn law_source_reads_back(m: RefModel)
    ensures
        parsed_source(m.doc()) == Ok::<RefModel, Seq<char>>(m),
{
    reveal_strlit("source");
    reveal_strlit("channel");
    reveal_strlit("input:");
    reveal_strlit("track-out:");
    reveal_strlit("bus-out:");
    reveal_strlit("master-out:");
    assert("source"@[0] != "channel"@[0]);
    broadcast use crate::json::lemma_lookup_push;
    assert(crate::json::lookup(Seq::empty(), "source"@) is None);
    assert(crate::json::lookup(Seq::empty(), "channel"@) is None);
    assert(m.doc().text_field("source"@) == Some(m.wire_id()));
    assert(m.doc().unsigned_field("channel"@) == Some(m.channel() as u64));
    let w = m.wire_id();
    match m {
        RefModel::Input { entry_id, .. } => {
            lemma_stripped_concat("input:"@, entry_id);
        },
        RefModel::TrackOut { track_id, .. } => {
            lemma_stripped_concat("track-out:"@, dec(track_id as nat));
            lemma_dec_value(track_id as nat);
            assert(w[0] == 't');
            assert("input:"@[0] == 'i');
        },
        RefModel::BusOut { bus_id, .. } => {
            lemma_stripped_concat("bus-out:"@, dec(bus_id as nat));
            lemma_dec_value(bus_id as nat);
            assert(w[0] == 'b');
            assert("input:"@[0] == 'i');
            assert("track-out:"@[0] == 't');
        },
        RefModel::MasterOut { master_id, .. } => {
            lemma_stripped_concat("master-out:"@, dec(master_id as nat));
            lemma_dec_value(master_id as nat);
            assert(w[0] == 'm');
            assert("input:"@[0] == 'i');
            assert("track-out:"@[0] == 't');
            assert("bus-out:"@[0] == 'b');
        },
    }
}

/// An entry of the input grid: an externally available source.
#[derive(Debug)]
pub struct InputGridEntry {
    pub id: String,
    pub label: String,
    pub channels: usize,
    /// Whether a flow is open for reading.
    pub connected: bool,
    /// The flow that is read.
    pub flow_id: Option<String>,
    pub receiver_id: Uuid,
    pub subscribed_sender_id: Option<String>,
}

/// The input grid, by the ids of its entries.
pub struct InputGrid {
    pub entries: Table<String, InputGridEntry>,
}

/// An entry of the output grid: a transmit slot with its own flow.
#[derive(Debug)]
pub struct OutputGridEntry {
    pub id: String,
    pub label: String,
    pub channels: usize,
    pub flow_id: Uuid,
    pub receiver_id: Option<String>,
}

/// The output grid, by the ids of its entries.
pub struct OutputGrid {
    pub entries: Table<String, OutputGridEntry>,
}

/// How a list shows an entry of a grid, a track, a bus or a master.
pub open spec fn listed(id: Doc, label: Seq<char>, channels: usize) -> Doc {
    Doc::object().with("id"@, id).with("label"@, Doc::Text(label)).with(
        "channels"@,
        Doc::Number(whole(channels as u64)),
    )
}

/// Shows an entry in a list.
pub fn list_item(id: Json, label: &str, channels: usize) -> (r: Json)
    ensures
        r@ == listed(id@, label@, channels),
{
    Json::new_object().with("id", id).with("label", Json::text(label)).with(
        "channels",
        Json::whole(channels as u64),
    )
}

/// The list of an input grid, in the order of the ids.
pub open spec fn input_list(s: Seq<(String, InputGridEntry)>) -> Seq<Doc> {
    s.map_values(|e: (String, InputGridEntry)| listed(Doc::Text(e.1.id@), e.1.label@, e.1.channels))
}

/// The list of an output grid, in the order of the ids.
pub open spec fn output_list(s: Seq<(String, OutputGridEntry)>) -> Seq<Doc> {
    s.map_values(|e: (String, OutputGridEntry)| listed(Doc::Text(e.1.id@), e.1.label@, e.1.channels))
}

impl InputGrid {
    /// Whether every entry stands under its own id.
    pub open spec fn wf(self) -> bool {
        self.entries.wf() && forall|i: int|
            0 <= i < self.entries.list().len() ==> (#[trigger] self.entries.list()[i]).1.id@
                == self.entries.list()[i].0@
    }

    /// A grid without entries.
    pub fn new() -> (r: Self)
        ensures
            r.wf(),
            r.entries@ == Map::<Seq<char>, InputGridEntry>::empty(),
    {
        InputGrid { entries: Table::new() }
    }

    /// Puts an entry into the grid, in place of the one with its id.
    pub fn insert(&mut self, entry: InputGridEntry)
        requires
            old(self).wf(),
        ensures
            final(self).wf(),
            final(self).entries@ == old(self).entries@.insert(entry.id@, entry),
    {
        let key = entry.id.clone();
        let ghost was = self.entries@;
        let ghost before = self.entries.list();
        self.entries.insert(key, entry);
        proof {
            let after = self.entries.list();
            assert forall|i: int| 0 <= i < after.len() implies (#[trigger] after[i]).1.id@
                == after[i].0@ by {
                lemma_in_map(after, i);
                if after[i].0@ != entry.id@ {
                    let j = crate::table::lemma_from_map(before, after[i].0@);
                }
            }
        }
    }

    /// Takes an entry out of the grid.
    pub fn remove(&mut self, id: &str)
        requires
            old(self).wf(),
        ensures
            final(self).wf(),
            final(self).entries@ == old(self).entries@.remove(id@),
    {
        let key = id.to_owned();
        let ghost before = self.entries.list();
        let _ = self.entries.remove(&key);
        proof {
            let after = self.entries.list();
            assert forall|i: int| 0 <= i < after.len() implies (#[trigger] after[i]).1.id@
                == after[i].0@ by {
                lemma_in_map(after, i);
                let j = crate::table::lemma_from_map(before, after[i].0@);
            }
        }
    }

    /// The entry with an id.
    pub fn get(&self, id: &str) -> (r: Option<&InputGridEntry>)
        requires
            self.wf(),
        ensures
            match r {
                Some(e) => self.entries@.contains_key(id@) && *e == self.entries@[id@],
                None => !self.entries@.contains_key(id@),
            },
    {
        self.entries.get(&id.to_owned())
    }

    /// The list of the entries, in the order of their ids.
    pub fn list_json(&self) -> (r: Json)
        ensures
            r@ == Doc::Array(input_list(self.entries.list())),
    {
        let mut items = no_items();
        for i in 0..self.entries.len()
            invariant
                docs(items@) == input_list(self.entries.list()).take(i as int),
        {
            let e = self.entries.value_at(i);
            put_item(&mut items, list_item(Json::text(e.id.as_str()), e.label.as_str(), e.channels));
            assert(docs(items@) =~= input_list(self.entries.list()).take(i + 1));
        }
        assert(docs(items@) =~= input_list(self.entries.list()));
        Json::array(items)
    }
}

impl OutputGrid {
    /// Whether every entry stands under its own id.
    pub open spec fn wf(self) -> bool {
        self.entries.wf() && forall|i: int|
            0 <= i < self.entries.list().len() ==> (#[trigger] self.entries.list()[i]).1.id@
                == self.entries.list()[i].0@
    }

    /// A grid without entries.
    pub fn new() -> (r: Self)
        ensures
            r.wf(),
            r.entries@ == Map::<Seq<char>, OutputGridEntry>::empty(),
    {
        OutputGrid { entries: Table::new() }
    }

    /// Puts an entry into the grid, in place of the one with its id.
    pub fn insert(&mut self, entry: OutputGridEntry)
        requires
            old(self).wf(),
        ensures
            final(self).wf(),
            final(self).entries@ == old(self).entries@.insert(entry.id@, entry),
    {
        let key = entry.id.clone();
        let ghost before = self.entries.list();
        self.entries.insert(key, entry);
        proof {
            let after = self.entries.list();
            assert forall|i: int| 0 <= i < after.len() implies (#[trigger] after[i]).1.id@
                == after[i].0@ by {
                lemma_in_map(after, i);
                if after[i].0@ != entry.id@ {
                    let j = crate::table::lemma_from_map(before, after[i].0@);
                }
            }
        }
    }

    /// The entry with an id.
    pub fn get(&self, id: &str) -> (r: Option<&OutputGridEntry>)
        requires
            self.wf(),
        ensures
            match r {
                Some(e) => self.entries@.contains_key(id@) && *e == self.entries@[id@],
                None => !self.entries@.contains_key(id@),
            },
    {
        self.entries.get(&id.to_owned())
    }

    /// The list of the entries, in the order of their ids.
    pub fn list_json(&self) -> (r: Json)
        ensures
            r@ == Doc::Array(output_list(self.entries.list())),
    {
        let mut items = no_items();
        for i in 0..self.entries.len()
            invariant
                docs(items@) == output_list(self.entries.list()).take(i as int),
        {
            let e = self.entries.value_at(i);
            put_item(&mut items, list_item(Json::text(e.id.as_str()), e.label.as_str(), e.channels));
            assert(docs(items@) =~= output_list(self.entries.list()).take(i + 1));
        }
        assert(docs(items@) =~= output_list(self.entries.list()));
        Json::array(items)
    }
}

/// What the slot of an exclusive destination says.
pub open spec fn slot(s: Option<SourceRef>) -> Option<RefModel> {
    match s {
        Some(r) => Some(r@),
        None => None,
    }
}

/// What the slots of an exclusive destination say.
pub open spec fn slots(s: Seq<Option<SourceRef>>) -> Seq<Option<RefModel>> {
    s.map_values(|x: Option<SourceRef>| slot(x))
}

/// What the sources on one channel of a summing destination say.
pub open spec fn refs(s: Seq<SourceRef>) -> Seq<RefModel> {
    s.map_values(|x: SourceRef| x@)
}

/// What the channels of a summing destination say.
pub open spec fn feeds(s: Seq<Vec<SourceRef>>) -> Seq<Seq<RefModel>> {
    s.map_values(|x: Vec<SourceRef>| refs(x@))
}

/// Which source feeds each channel of each destination.
pub struct PatchState {
    track_in: Table<u32, Vec<Option<SourceRef>>>,
    bus_in: Table<u32, Vec<Vec<SourceRef>>>,
    master_in: Table<u32, Vec<Vec<SourceRef>>>,
    output: Table<String, Vec<Option<SourceRef>>>,
}

/// What a [`PatchState`] says.
pub struct PatchModel {
    pub track_in: Map<u32, Seq<Option<RefModel>>>,
    pub bus_in: Map<u32, Seq<Seq<RefModel>>>,
    pub master_in: Map<u32, Seq<Seq<RefModel>>>,
    pub output: Map<Seq<char>, Seq<Option<RefModel>>>,
}

/// The source points that there are: tracks, buses and masters with their channel counts, and the
/// channel counts of the input grid.
pub struct World {
    pub tracks: Seq<(u32, usize)>,
    pub buses: Seq<(u32, usize)>,
    pub masters: Seq<(u32, usize)>,
    pub inputs: Map<Seq<char>, usize>,
}

/// The channel counts of an input grid.
pub open spec fn input_channels(grid: InputGrid) -> Map<Seq<char>, usize> {
    grid.entries@.map_values(|e: InputGridEntry| e.channels)
}

/// The source points that lists of tracks, buses and masters and an input grid offer.
pub open spec fn world(
    tracks: Seq<(u32, usize)>,
    buses: Seq<(u32, usize)>,
    masters: Seq<(u32, usize)>,
    grid: InputGrid,
) -> World {
    World { tracks, buses, masters, inputs: input_channels(grid) }
}

/// The channel count of the first point with an id.
pub open spec fn channels_of(list: Seq<(u32, usize)>, id: u32) -> Option<usize>
    decreases list.len(),
{
    if list.len() == 0 {
        None
    } else {
        match channels_of(list.drop_last(), id) {
            Some(c) => Some(c),
            None => if list.last().0 == id {
                Some(list.last().1)
            } else {
                None
            },
        }
    }
}

/// What a refusal for a channel that does not exist says.
pub open spec fn range_text(channel: usize, point: Seq<char>, channels: usize) -> Seq<char> {
    "channel "@ + dec(channel as nat) + " out of range for "@ + point + " ("@ + dec(channels as nat)
        + " channels)"@
}

/// Why a source cannot be patched; `None` where it can. A track's own direct-out cannot feed the
/// track itself.
pub open spec fn source_refusal(w: World, own_track: Option<u32>, s: RefModel) -> Option<Seq<char>> {
    match s {
        RefModel::Input { entry_id, channel } => if !w.inputs.contains_key(entry_id) {
            Some("unknown input grid entry '"@ + entry_id + "'"@)
        } else if channel >= w.inputs[entry_id] {
            Some(range_text(channel, "input '"@ + entry_id + "'"@, w.inputs[entry_id]))
        } else {
            None
        },
        RefModel::TrackOut { track_id, channel } => if own_track == Some(track_id) {
            Some(
                "track "@ + dec(track_id as nat)
                    + " cannot patch its own direct-out into its own input"@,
            )
        } else {
            match channels_of(w.tracks, track_id) {
                None => Some("unknown track "@ + dec(track_id as nat)),
                Some(n) => if channel >= n {
                    Some(range_text(channel, "track-out:"@ + dec(track_id as nat), n))
                } else {
                    None
                },
            }
        },
        RefModel::BusOut { bus_id, channel } => match channels_of(w.buses, bus_id) {
            None => Some("unknown bus "@ + dec(bus_id as nat)),
            Some(n) => if channel >= n {
                Some(range_text(channel, "bus-out:"@ + dec(bus_id as nat), n))
            } else {
                None
            },
        },
        RefModel::MasterOut { master_id, channel } => match channels_of(w.masters, master_id) {
            None => Some("unknown master "@ + dec(master_id as nat)),
            Some(n) => if channel >= n {
                Some(range_text(channel, "master-out:"@ + dec(master_id as nat), n))
            } else {
                None
            },
        },
    }
}

/// Why slots cannot be patched: the refusal of the first source that is refused.
pub open spec fn slots_refusal(
    w: World,
    own_track: Option<u32>,
    s: Seq<Option<RefModel>>,
) -> Option<Seq<char>>
    decreases s.len(),
{
    if s.len() == 0 {
        None
    } else {
        match slots_refusal(w, own_track, s.drop_last()) {
            Some(e) => Some(e),
            None => match s.last() {
                Some(m) => source_refusal(w, own_track, m),
                None => None,
            },
        }
    }
}

/// Why sources on one channel cannot be patched: the first refusal.
pub open spec fn refs_refusal(w: World, s: Seq<RefModel>) -> Option<Seq<char>>
    decreases s.len(),
{
    if s.len() == 0 {
        None
    } else {
        match refs_refusal(w, s.drop_last()) {
            Some(e) => Some(e),
            None => source_refusal(w, None, s.last()),
        }
    }
}

/// Why the channels of a summing destination cannot be patched: the first refusal.
pub open spec fn feeds_refusal(w: World, s: Seq<Seq<RefModel>>) -> Option<Seq<char>>
    decreases s.len(),
{
    if s.len() == 0 {
        None
    } else {
        match feeds_refusal(w, s.drop_last()) {
            Some(e) => Some(e),
            None => refs_refusal(w, s.last()),
        }
    }
}

/// What a refusal for a patch of the wrong length says.
pub open spec fn length_text(len: nat, owner: Seq<char>, channels: usize) -> Seq<char> {
    "input-patch length "@ + dec(len) + " does not match "@ + owner + " "@ + dec(channels as nat)
        + " channels"@
}

/// Why a track's input cannot be patched.
pub open spec fn track_in_refusal(
    w: World,
    track_id: u32,
    s: Seq<Option<RefModel>>,
) -> Option<Seq<char>> {
    match channels_of(w.tracks, track_id) {
        None => Some("unknown track "@ + dec(track_id as nat)),
        Some(n) => if s.len() != n {
            Some(length_text(s.len(), "track's"@, n))
        } else {
            slots_refusal(w, Some(track_id), s)
        },
    }
}

/// Why a summing destination cannot be patched.
pub open spec fn sum_refusal(
    w: World,
    owner: Seq<char>,
    channels: usize,
    s: Seq<Seq<RefModel>>,
) -> Option<Seq<char>> {
    if s.len() != channels {
        Some(length_text(s.len(), owner, channels))
    } else {
        feeds_refusal(w, s)
    }
}

/// Why an output-grid entry cannot be patched.
pub open spec fn output_refusal(
    w: World,
    channels: usize,
    s: Seq<Option<RefModel>>,
) -> Option<Seq<char>> {
    if s.len() != channels {
        Some(length_text(s.len(), "output's"@, channels))
    } else {
        slots_refusal(w, None, s)
    }
}

/// Finds the channel count of the first point with an id.
pub fn find_channels(list: &[(u32, usize)], id: u32) -> (r: Option<usize>)
    ensures
        r == channels_of(list@, id),
{
    let mut i: usize = 0;
    assert(list@.take(0) =~= Seq::empty());
    while i < list.len()
        invariant
            i <= list@.len(),
            channels_of(list@.take(i as int), id) is None,
        decreases list@.len() - i,
    {
        assert(list@.take(i + 1).drop_last() =~= list@.take(i as int));
        if list[i].0 == id {
            proof {
                lemma_channels_prefix(list@, i + 1, id);
            }
            return Some(list[i].1);
        }
        i += 1;
    }
    assert(list@.take(list@.len() as int) =~= list@);
    None
}

proof fn lemma_channels_prefix(list: Seq<(u32, usize)>, k: int, id: u32)
    requires
        0 <= k <= list.len(),
        channels_of(list.take(k), id) is Some,
    ensures
        channels_of(list, id) == channels_of(list.take(k), id),
    decreases list.len(),
{
    if k == list.len() {
        assert(list.take(k) =~= list);
    } else {
        assert(list.drop_last().take(k) =~= list.take(k));
        lemma_channels_prefix(list.drop_last(), k, id);
    }
}

proof fn lemma_slots_prefix(w: World, own: Option<u32>, s: Seq<Option<RefModel>>, k: int)
    requires
        0 <= k <= s.len(),
        slots_refusal(w, own, s.take(k)) is Some,
    ensures
        slots_refusal(w, own, s) == slots_refusal(w, own, s.take(k)),
    decreases s.len(),
{
    if k == s.len() {
        assert(s.take(k) =~= s);
    } else {
        assert(s.drop_last().take(k) =~= s.take(k));
        lemma_slots_prefix(w, own, s.drop_last(), k);
    }
}

proof fn lemma_refs_prefix(w: World, s: Seq<RefModel>, k: int)
    requires
        0 <= k <= s.len(),
        refs_refusal(w, s.take(k)) is Some,
    ensures
        refs_refusal(w, s) == refs_refusal(w, s.take(k)),
    decreases s.len(),
{
    if k == s.len() {
        assert(s.take(k) =~= s);
    } else {
        assert(s.drop_last().take(k) =~= s.take(k));
        lemma_refs_prefix(w, s.drop_last(), k);
    }
}

proof fn lemma_feeds_prefix(w: World, s: Seq<Seq<RefModel>>, k: int)
    requires
        0 <= k <= s.len(),
        feeds_refusal(w, s.take(k)) is Some,
    ensures
        feeds_refusal(w, s) == feeds_refusal(w, s.take(k)),
    decreases s.len(),
{
    if k == s.len() {
        assert(s.take(k) =~= s);
    } else {
        assert(s.drop_last().take(k) =~= s.take(k));
        lemma_feeds_prefix(w, s.drop_last(), k);
    }
}

fn range_message(channel: usize, point: &str, channels: usize) -> (r: String)
    ensures
        r@ == range_text(channel, point@, channels),
{
    let mut s = "channel ".to_owned();
    s.append(decimal(channel as u64).as_str());
    s.append(" out of range for ");
    s.append(point);
    s.append(" (");
    s.append(decimal(channels as u64).as_str());
    s.append(" channels)");
    s
}

fn length_message(len: usize, owner: &str, channels: usize) -> (r: String)
    ensures
        r@ == length_text(len as nat, owner@, channels),
{
    let mut s = "input-patch length ".to_owned();
    s.append(decimal(len as u64).as_str());
    s.append(" does not match ");
    s.append(owner);
    s.append(" ");
    s.append(decimal(channels as u64).as_str());
    s.append(" channels");
    s
}

/// A text with a number behind it.
fn numbered(before: &str, id: u32) -> (r: String)
    ensures
        r@ == before@ + dec(id as nat),
{
    let mut s = before.to_owned();
    s.append(decimal(id as u64).as_str());
    s
}

/// What the result of a check says.
pub open spec fn refusal(r: Result<(), String>) -> Option<Seq<char>> {
    match r {
        Ok(()) => None,
        Err(e) => Some(e@),
    }
}

/// Checks that a source can be patched.
pub fn validate_source(
    tracks: &[(u32, usize)],
    buses: &[(u32, usize)],
    masters: &[(u32, usize)],
    input_grid: &InputGrid,
    self_track_id: Option<u32>,
    s: &SourceRef,
) -> (r: Result<(), String>)
    requires
        input_grid.wf(),
    ensures
        refusal(r) == source_refusal(
            world(tracks@, buses@, masters@, *input_grid),
            self_track_id,
            s@,
        ),
{
    match s {
        SourceRef::Input { entry_id, channel } => match input_grid.get(entry_id.as_str()) {
            None => Err(between("unknown input grid entry '", entry_id.as_str(), "'")),
            Some(entry) => if *channel >= entry.channels {
                Err(
                    range_message(
                        *channel,
                        between("input '", entry_id.as_str(), "'").as_str(),
                        entry.channels,
                    ),
                )
            } else {
                Ok(())
            },
        },
        SourceRef::TrackOut { track_id, channel } => {
            let own = match self_track_id {
                Some(t) => t == *track_id,
                None => false,
            };
            if own {
                let mut e = numbered("track ", *track_id);
                e.append(" cannot patch its own direct-out into its own input");
                return Err(e);
            }
            match find_channels(tracks, *track_id) {
                None => Err(numbered("unknown track ", *track_id)),
                Some(n) => if *channel >= n {
                    Err(range_message(*channel, numbered("track-out:", *track_id).as_str(), n))
                } else {
                    Ok(())
                },
            }
        },
        SourceRef::BusOut { bus_id, channel } => match find_channels(buses, *bus_id) {
            None => Err(numbered("unknown bus ", *bus_id)),
            Some(n) => if *channel >= n {
                Err(range_message(*channel, numbered("bus-out:", *bus_id).as_str(), n))
            } else {
                Ok(())
            },
        },
        SourceRef::MasterOut { master_id, channel } => match find_channels(masters, *master_id) {
            None => Err(numbered("unknown master ", *master_id)),
            Some(n) => if *channel >= n {
                Err(range_message(*channel, numbered("master-out:", *master_id).as_str(), n))
            } else {
                Ok(())
            },
        },
    }
}

fn validate_slots(
    tracks: &[(u32, usize)],
    buses: &[(u32, usize)],
    masters: &[(u32, usize)],
    input_grid: &InputGrid,
    self_track_id: Option<u32>,
    patch: &Vec<Option<SourceRef>>,
) -> (r: Result<(), String>)
    requires
        input_grid.wf(),
    ensures
        refusal(r) == slots_refusal(
            world(tracks@, buses@, masters@, *input_grid),
            self_track_id,
            slots(patch@),
        ),
{
    let ghost w = world(tracks@, buses@, masters@, *input_grid);
    let ghost all = slots(patch@);
    assert(all.take(0) =~= Seq::empty());
    for i in 0..patch.len()
        invariant
            input_grid.wf(),
            w == world(tracks@, buses@, masters@, *input_grid),
            all == slots(patch@),
            slots_refusal(w, self_track_id, all.take(i as int)) is None,
    {
        assert(all.take(i + 1).drop_last() =~= all.take(i as int));
        assert(all.take(i + 1).last() == slot(patch@[i as int]));
        if let Some(s) = &patch[i] {
            match validate_source(tracks, buses, masters, input_grid, self_track_id, s) {
                Ok(()) => {},
                Err(e) => {
                    proof {
                        lemma_slots_prefix(w, self_track_id, all, i + 1);
                    }
                    return Err(e);
                },
            }
        }
    }
    assert(all.take(patch@.len() as int) =~= all);
    Ok(())
}

fn validate_refs(
    tracks: &[(u32, usize)],
    buses: &[(u32, usize)],
    masters: &[(u32, usize)],
    input_grid: &InputGrid,
    sources: &Vec<SourceRef>,
) -> (r: Result<(), String>)
    requires
        input_grid.wf(),
    ensures
        refusal(r) == refs_refusal(
            world(tracks@, buses@, masters@, *input_grid),
            refs(sources@),
        ),
{
    let ghost w = world(tracks@, buses@, masters@, *input_grid);
    let ghost all = refs(sources@);
    assert(all.take(0) =~= Seq::empty());
    for i in 0..sources.len()
        invariant
            input_grid.wf(),
            w == world(tracks@, buses@, masters@, *input_grid),
            all == refs(sources@),
            refs_refusal(w, all.take(i as int)) is None,
    {
        assert(all.take(i + 1).drop_last() =~= all.take(i as int));
        assert(all.take(i + 1).last() == sources@[i as int]@);
        match validate_source(tracks, buses, masters, input_grid, None, &sources[i]) {
            Ok(()) => {},
            Err(e) => {
                proof {
                    lemma_refs_prefix(w, all, i + 1);
                }
                return Err(e);
            },
        }
    }
    assert(all.take(sources@.len() as int) =~= all);
    Ok(())
}

fn validate_feeds(
    tracks: &[(u32, usize)],
    buses: &[(u32, usize)],
    masters: &[(u32, usize)],
    input_grid: &InputGrid,
    patch: &Vec<Vec<SourceRef>>,
) -> (r: Result<(), String>)
    requires
        input_grid.wf(),
    ensures
        refusal(r) == feeds_refusal(
            world(tracks@, buses@, masters@, *input_grid),
            feeds(patch@),
        ),
{
    let ghost w = world(tracks@, buses@, masters@, *input_grid);
    let ghost all = feeds(patch@);
    assert(all.take(0) =~= Seq::empty());
    for i in 0..patch.len()
        invariant
            input_grid.wf(),
            w == world(tracks@, buses@, masters@, *input_grid),
            all == feeds(patch@),
            feeds_refusal(w, all.take(i as int)) is None,
    {
        assert(all.take(i + 1).drop_last() =~= all.take(i as int));
        assert(all.take(i + 1).last() == refs(patch@[i as int]@));
        match validate_refs(tracks, buses, masters, input_grid, &patch[i]) {
            Ok(()) => {},
            Err(e) => {
                proof {
                    lemma_feeds_prefix(w, all, i + 1);
                }
                return Err(e);
            },
        }
    }
    assert(all.take(patch@.len() as int) =~= all);
    Ok(())
}

/// What is gone, so that references to it are to be dropped.
#[derive(Clone, Copy, Debug, PartialEq, Eq, Structural)]
pub enum Gone {
    Track(u32),
    Bus(u32),
    Master(u32),
}

/// Whether a source refers to what is gone.
pub open spec fn refers(m: RefModel, gone: Gone) -> bool {
    match (m, gone) {
        (RefModel::TrackOut { track_id, .. }, Gone::Track(t)) => track_id == t,
        (RefModel::BusOut { bus_id, .. }, Gone::Bus(b)) => bus_id == b,
        (RefModel::MasterOut { master_id, .. }, Gone::Master(t)) => master_id == t,
        _ => false,
    }
}

fn refers_to(s: &SourceRef, gone: Gone) -> (r: bool)
    ensures
        r == refers(s@, gone),
{
    match (s, gone) {
        (SourceRef::TrackOut { track_id, .. }, Gone::Track(t)) => *track_id == t,
        (SourceRef::BusOut { bus_id, .. }, Gone::Bus(b)) => *bus_id == b,
        (SourceRef::MasterOut { master_id, .. }, Gone::Master(t)) => *master_id == t,
        _ => false,
    }
}

/// A slot without a reference to what is gone.
pub open spec fn scrubbed_slot(s: Option<RefModel>, gone: Gone) -> Option<RefModel> {
    match s {
        Some(m) => if refers(m, gone) {
            None
        } else {
            Some(m)
        },
        None => None,
    }
}

/// Slots without a reference to what is gone.
pub open spec fn scrubbed_slots(s: Seq<Option<RefModel>>, gone: Gone) -> Seq<Option<RefModel>> {
    s.map_values(|x: Option<RefModel>| scrubbed_slot(x, gone))
}

/// Sources without a reference to what is gone, in their order.
pub open spec fn scrubbed_refs(s: Seq<RefModel>, gone: Gone) -> Seq<RefModel>
    decreases s.len(),
{
    if s.len() == 0 {
        Seq::empty()
    } else if refers(s.last(), gone) {
        scrubbed_refs(s.drop_last(), gone)
    } else {
        scrubbed_refs(s.drop_last(), gone).push(s.last())
    }
}

/// The channels of a summing destination without a reference to what is gone.
pub open spec fn scrubbed_feeds(s: Seq<Seq<RefModel>>, gone: Gone) -> Seq<Seq<RefModel>> {
    s.map_values(|x: Seq<RefModel>| scrubbed_refs(x, gone))
}

impl PatchModel {
    /// Nothing is patched.
    pub open spec fn unpatched() -> PatchModel {
        PatchModel {
            track_in: Map::empty(),
            bus_in: Map::empty(),
            master_in: Map::empty(),
            output: Map::empty(),
        }
    }

    /// The patch bay without a reference to what is gone.
    pub open spec fn scrubbed(self, gone: Gone) -> PatchModel {
        PatchModel {
            track_in: self.track_in.map_values(
                |s: Seq<Option<RefModel>>| scrubbed_slots(s, gone),
            ),
            bus_in: self.bus_in.map_values(|s: Seq<Seq<RefModel>>| scrubbed_feeds(s, gone)),
            master_in: self.master_in.map_values(|s: Seq<Seq<RefModel>>| scrubbed_feeds(s, gone)),
            output: self.output.map_values(|s: Seq<Option<RefModel>>| scrubbed_slots(s, gone)),
        }
    }

    /// Whether no destination refers to something.
    pub open spec fn free_of(self, gone: Gone) -> bool {
        &&& forall|id: u32, ch: int|
            self.track_in.contains_key(id) && 0 <= ch < self.track_in[id].len() ==> (
            #[trigger] self.track_in[id][ch] matches Some(m) ==> !refers(m, gone))
        &&& forall|id: u32, ch: int, k: int|
            self.bus_in.contains_key(id) && 0 <= ch < self.bus_in[id].len() && 0 <= k
                < self.bus_in[id][ch].len() ==> !refers(#[trigger] self.bus_in[id][ch][k], gone)
        &&& forall|id: u32, ch: int, k: int|
            self.master_in.contains_key(id) && 0 <= ch < self.master_in[id].len() && 0 <= k
                < self.master_in[id][ch].len() ==> !refers(
                #[trigger] self.master_in[id][ch][k],
                gone,
            )
        &&& forall|id: Seq<char>, ch: int|
            self.output.contains_key(id) && 0 <= ch < self.output[id].len() ==> (
            #[trigger] self.output[id][ch] matches Some(m) ==> !refers(m, gone))
    }
}

proof fn lemma_scrubbed_refs_free(s: Seq<RefModel>, gone: Gone, k: int)
    requires
        0 <= k < scrubbed_refs(s, gone).len(),
    ensures
        !refers(scrubbed_refs(s, gone)[k], gone),
        s.contains(scrubbed_refs(s, gone)[k]),
    decreases s.len(),
{
    if s.len() > 0 {
        let before = scrubbed_refs(s.drop_last(), gone);
        if k < before.len() {
            lemma_scrubbed_refs_free(s.drop_last(), gone, k);
            let x = before[k];
            let j = choose|j: int| 0 <= j < s.drop_last().len() && s.drop_last()[j] == x;
            assert(s[j] == x);
        } else {
            assert(s[s.len() - 1] == s.last());
        }
    }
}

/// After a scrub no destination of any kind refers to what is gone, so that a resource created
/// later under the same id is not connected to anything.
pub proof fn law_scrub_leaves_no_reference(m: PatchModel, gone: Gone)
    ensures
        m.scrubbed(gone).free_of(gone),
{
    let s = m.scrubbed(gone);
    assert forall|id: u32, ch: int, k: int|
        s.bus_in.contains_key(id) && 0 <= ch < s.bus_in[id].len() && 0 <= k
            < s.bus_in[id][ch].len() implies !refers(#[trigger] s.bus_in[id][ch][k], gone) by {
        lemma_scrubbed_refs_free(m.bus_in[id][ch], gone, k);
    }
    assert forall|id: u32, ch: int, k: int|
        s.master_in.contains_key(id) && 0 <= ch < s.master_in[id].len() && 0 <= k
            < s.master_in[id][ch].len() implies !refers(
        #[trigger] s.master_in[id][ch][k],
        gone,
    ) by {
        lemma_scrubbed_refs_free(m.master_in[id][ch], gone, k);
    }
}

proof fn lemma_scrubbed_refs_same(s: Seq<RefModel>, gone: Gone)
    requires
        forall|k: int| 0 <= k < s.len() ==> !refers(#[trigger] s[k], gone),
    ensures
        scrubbed_refs(s, gone) == s,
    decreases s.len(),
{
    if s.len() > 0 {
        assert forall|k: int| 0 <= k < s.drop_last().len() implies !refers(
            #[trigger] s.drop_last()[k],
            gone,
        ) by {
            assert(s.drop_last()[k] == s[k]);
        }
        lemma_scrubbed_refs_same(s.drop_last(), gone);
        assert(!refers(s[s.len() - 1], gone));
        assert(scrubbed_refs(s, gone) =~= s);
    } else {
        assert(scrubbed_refs(s, gone) =~= s);
    }
}

/// A scrub touches nothing but the references to what is gone: where there is none, the patch bay
/// stays as it is.
pub proof fn law_scrub_touches_nothing_else(m: PatchModel, gone: Gone)
    requires
        m.free_of(gone),
    ensures
        m.scrubbed(gone) == m,
{
    let s = m.scrubbed(gone);
    assert forall|id: u32| m.track_in.contains_key(id) implies #[trigger] s.track_in[id]
        == m.track_in[id] by {
        assert(s.track_in[id] =~= m.track_in[id]);
    }
    assert(s.track_in =~= m.track_in);
    assert forall|id: Seq<char>| m.output.contains_key(id) implies #[trigger] s.output[id]
        == m.output[id] by {
        assert(s.output[id] =~= m.output[id]);
    }
    assert(s.output =~= m.output);
    assert forall|id: u32| m.bus_in.contains_key(id) implies #[trigger] s.bus_in[id]
        == m.bus_in[id] by {
        assert forall|ch: int| 0 <= ch < m.bus_in[id].len() implies s.bus_in[id][ch]
            == #[trigger] m.bus_in[id][ch] by {
            lemma_scrubbed_refs_same(m.bus_in[id][ch], gone);
        }
        assert(s.bus_in[id] =~= m.bus_in[id]);
    }
    assert(s.bus_in =~= m.bus_in);
    assert forall|id: u32| m.master_in.contains_key(id) implies #[trigger] s.master_in[id]
        == m.master_in[id] by {
        assert forall|ch: int| 0 <= ch < m.master_in[id].len() implies s.master_in[id][ch]
            == #[trigger] m.master_in[id][ch] by {
            lemma_scrubbed_refs_same(m.master_in[id][ch], gone);
        }
        assert(s.master_in[id] =~= m.master_in[id]);
    }
    assert(s.master_in =~= m.master_in);
}

fn scrub_slots(patch: &Vec<Option<SourceRef>>, gone: Gone) -> (r: Vec<Option<SourceRef>>)
    ensures
        slots(r@) == scrubbed_slots(slots(patch@), gone),
{
    let mut out: Vec<Option<SourceRef>> = Vec::new();
    for i in 0..patch.len()
        invariant
            out@.len() == i,
            forall|k: int| 0 <= k < i ==> slot(#[trigger] out@[k]) == scrubbed_slot(slot(patch@[k]), gone),
    {
        let x = match &patch[i] {
            Some(s) => if refers_to(s, gone) {
                None
            } else {
                Some(s.copy())
            },
            None => None,
        };
        out.push(x);
    }
    assert(slots(out@) =~= scrubbed_slots(slots(patch@), gone));
    out
}

fn scrub_refs(sources: &Vec<SourceRef>, gone: Gone) -> (r: Vec<SourceRef>)
    ensures
        refs(r@) == scrubbed_refs(refs(sources@), gone),
{
    let ghost all = refs(sources@);
    let mut out: Vec<SourceRef> = Vec::new();
    assert(refs(out@) =~= scrubbed_refs(all.take(0), gone));
    for i in 0..sources.len()
        invariant
            all == refs(sources@),
            refs(out@) == scrubbed_refs(all.take(i as int), gone),
    {
        assert(all.take(i + 1).drop_last() =~= all.take(i as int));
        let ghost before = refs(out@);
        if !refers_to(&sources[i], gone) {
            out.push(sources[i].copy());
            assert(refs(out@) =~= before.push(all[i as int]));
        }
    }
    assert(all.take(sources@.len() as int) =~= all);
    out
}

fn scrub_feeds(patch: &Vec<Vec<SourceRef>>, gone: Gone) -> (r: Vec<Vec<SourceRef>>)
    ensures
        feeds(r@) == scrubbed_feeds(feeds(patch@), gone),
{
    let mut out: Vec<Vec<SourceRef>> = Vec::new();
    for i in 0..patch.len()
        invariant
            out@.len() == i,
            forall|k: int|
                0 <= k < i ==> refs((#[trigger] out@[k])@) == scrubbed_refs(refs(patch@[k]@), gone),
    {
        out.push(scrub_refs(&patch[i], gone));
    }
    assert(feeds(out@) =~= scrubbed_feeds(feeds(patch@), gone));
    out
}

fn scrub_slot_table<K: Key>(t: &mut Table<K, Vec<Option<SourceRef>>>, gone: Gone)
    requires
        old(t).wf(),
    ensures
        final(t).wf(),
        final(t)@.map_values(|v: Vec<Option<SourceRef>>| slots(v@)) == old(t)@.map_values(
            |v: Vec<Option<SourceRef>>| slots(v@),
        ).map_values(|x: Seq<Option<RefModel>>| scrubbed_slots(x, gone)),
{
    let ghost before = t.list();
    let mut i: usize = 0;
    while i < t.len()
        invariant
            t.wf(),
            sorted(before),
            i <= t.list().len(),
            t.list().len() == before.len(),
            forall|k: int| 0 <= k < before.len() ==> (#[trigger] before[k]).0@ == t.list()[k].0@,
            forall|k: int|
                0 <= k < i ==> slots((#[trigger] t.list()[k]).1@) == scrubbed_slots(
                    slots(before[k].1@),
                    gone,
                ),
            forall|k: int| i <= k < before.len() ==> (#[trigger] t.list()[k]) == before[k],
        decreases before.len() - i,
    {
        let v = scrub_slots(t.value_at(i), gone);
        t.replace_at(i, v);
        i += 1;
    }
    proof {
        let f = |v: Vec<Option<SourceRef>>| scrubbed_slots(slots(v@), gone);
        let g = |v: Vec<Option<SourceRef>>| slots(v@);
        lemma_mapped(before, t.list(), f, g);
        assert(as_map(before).map_values(f) =~= as_map(before).map_values(g).map_values(
            |x: Seq<Option<RefModel>>| scrubbed_slots(x, gone),
        ));
    }
}

fn scrub_feed_table<K: Key>(t: &mut Table<K, Vec<Vec<SourceRef>>>, gone: Gone)
    requires
        old(t).wf(),
    ensures
        final(t).wf(),
        final(t)@.map_values(|v: Vec<Vec<SourceRef>>| feeds(v@)) == old(t)@.map_values(
            |v: Vec<Vec<SourceRef>>| feeds(v@),
        ).map_values(|x: Seq<Seq<RefModel>>| scrubbed_feeds(x, gone)),
{
    let ghost before = t.list();
    let mut i: usize = 0;
    while i < t.len()
        invariant
            t.wf(),
            sorted(before),
            i <= t.list().len(),
            t.list().len() == before.len(),
            forall|k: int| 0 <= k < before.len() ==> (#[trigger] before[k]).0@ == t.list()[k].0@,
            forall|k: int|
                0 <= k < i ==> feeds((#[trigger] t.list()[k]).1@) == scrubbed_feeds(
                    feeds(before[k].1@),
                    gone,
                ),
            forall|k: int| i <= k < before.len() ==> (#[trigger] t.list()[k]) == before[k],
        decreases before.len() - i,
    {
        let v = scrub_feeds(t.value_at(i), gone);
        t.replace_at(i, v);
        i += 1;
    }
    proof {
        let f = |v: Vec<Vec<SourceRef>>| scrubbed_feeds(feeds(v@), gone);
        let g = |v: Vec<Vec<SourceRef>>| feeds(v@);
        lemma_mapped(before, t.list(), f, g);
        assert(as_map(before).map_values(f) =~= as_map(before).map_values(g).map_values(
            |x: Seq<Seq<RefModel>>| scrubbed_feeds(x, gone),
        ));
    }
}

impl View for PatchState {
    type V = PatchModel;

    closed spec fn view(&self) -> PatchModel {
        PatchModel {
            track_in: self.track_in@.map_values(|v: Vec<Option<SourceRef>>| slots(v@)),
            bus_in: self.bus_in@.map_values(|v: Vec<Vec<SourceRef>>| feeds(v@)),
            master_in: self.master_in@.map_values(|v: Vec<Vec<SourceRef>>| feeds(v@)),
            output: self.output@.map_values(|v: Vec<Option<SourceRef>>| slots(v@)),
        }
    }
}

/// The slots of a destination; one that was never patched has empty ones.
pub open spec fn slots_or_empty(
    m: Map<u32, Seq<Option<RefModel>>>,
    id: u32,
    channels: usize,
) -> Seq<Option<RefModel>> {
    if m.contains_key(id) {
        m[id]
    } else {
        Seq::new(channels as nat, |i: int| None)
    }
}

/// The channels of a summing destination; one that was never patched has empty ones.
pub open spec fn feeds_or_empty(
    m: Map<u32, Seq<Seq<RefModel>>>,
    id: u32,
    channels: usize,
) -> Seq<Seq<RefModel>> {
    if m.contains_key(id) {
        m[id]
    } else {
        Seq::new(channels as nat, |i: int| Seq::empty())
    }
}

/// The slots of an output-grid entry; one that was never patched has empty ones.
pub open spec fn output_or_empty(
    m: Map<Seq<char>, Seq<Option<RefModel>>>,
    id: Seq<char>,
    channels: usize,
) -> Seq<Option<RefModel>> {
    if m.contains_key(id) {
        m[id]
    } else {
        Seq::new(channels as nat, |i: int| None)
    }
}

/// A slot as a message holds it.
pub open spec fn slot_doc(s: Option<RefModel>) -> Doc {
    match s {
        Some(m) => m.doc(),
        None => Doc::Null,
    }
}

/// Slots as a message holds them.
pub open spec fn slots_doc(s: Seq<Option<RefModel>>) -> Doc {
    Doc::Array(s.map_values(|x: Option<RefModel>| slot_doc(x)))
}

/// Sources on one channel as a message holds them.
pub open spec fn refs_doc(s: Seq<RefModel>) -> Doc {
    Doc::Array(s.map_values(|x: RefModel| x.doc()))
}

/// The channels of a summing destination as a message holds them.
pub open spec fn feeds_doc(s: Seq<Seq<RefModel>>) -> Doc {
    Doc::Array(s.map_values(|x: Seq<RefModel>| refs_doc(x)))
}

fn slots_json(patch: &Vec<Option<SourceRef>>) -> (r: Json)
    ensures
        r@ == slots_doc(slots(patch@)),
{
    let mut items: Vec<Json> = Vec::new();
    for i in 0..patch.len()
        invariant
            items@.len() == i,
            forall|k: int| 0 <= k < i ==> (#[trigger] items@[k])@ == slot_doc(slot(patch@[k])),
    {
        let j = match &patch[i] {
            Some(s) => s.to_json(),
            None => Json::Null,
        };
        items.push(j);
    }
    assert(docs(items@) =~= slots(patch@).map_values(|x: Option<RefModel>| slot_doc(x)));
    Json::array(items)
}

fn empty_slots_json(channels: usize) -> (r: Json)
    ensures
        r@ == slots_doc(Seq::new(channels as nat, |i: int| None::<RefModel>)),
{
    let mut items: Vec<Json> = Vec::new();
    for i in 0..channels
        invariant
            items@.len() == i,
            forall|k: int| 0 <= k < i ==> (#[trigger] items@[k])@ == Doc::Null,
    {
        items.push(Json::Null);
    }
    assert(docs(items@) =~= Seq::new(channels as nat, |i: int| None::<RefModel>).map_values(
        |x: Option<RefModel>| slot_doc(x),
    ));
    Json::array(items)
}

fn refs_json(sources: &Vec<SourceRef>) -> (r: Json)
    ensures
        r@ == refs_doc(refs(sources@)),
{
    let mut items: Vec<Json> = Vec::new();
    for i in 0..sources.len()
        invariant
            items@.len() == i,
            forall|k: int| 0 <= k < i ==> (#[trigger] items@[k])@ == sources@[k]@.doc(),
    {
        items.push(sources[i].to_json());
    }
    assert(docs(items@) =~= refs(sources@).map_values(|x: RefModel| x.doc()));
    Json::array(items)
}

fn feeds_json(patch: &Vec<Vec<SourceRef>>) -> (r: Json)
    ensures
        r@ == feeds_doc(feeds(patch@)),
{
    let mut items: Vec<Json> = Vec::new();
    for i in 0..patch.len()
        invariant
            items@.len() == i,
            forall|k: int| 0 <= k < i ==> (#[trigger] items@[k])@ == refs_doc(refs(patch@[k]@)),
    {
        items.push(refs_json(&patch[i]));
    }
    assert(docs(items@) =~= feeds(patch@).map_values(|x: Seq<RefModel>| refs_doc(x)));
    Json::array(items)
}

fn empty_feeds_json(channels: usize) -> (r: Json)
    ensures
        r@ == feeds_doc(Seq::new(channels as nat, |i: int| Seq::<RefModel>::empty())),
{
    let mut items: Vec<Json> = Vec::new();
    assert(Seq::<RefModel>::empty().map_values(|x: RefModel| x.doc()) =~= Seq::<Doc>::empty());
    for i in 0..channels
        invariant
            items@.len() == i,
            forall|k: int|
                0 <= k < i ==> (#[trigger] items@[k])@ == refs_doc(Seq::<RefModel>::empty()),
            Seq::<RefModel>::empty().map_values(|x: RefModel| x.doc()) == Seq::<Doc>::empty(),
    {
        items.push(Json::none());
    }
    assert(docs(items@) =~= Seq::new(
        channels as nat,
        |i: int| Seq::<RefModel>::empty(),
    ).map_values(|x: Seq<RefModel>| refs_doc(x)));
    Json::array(items)
}

impl PatchState {
    /// Whether the tables stand in order.
    pub closed spec fn wf(self) -> bool {
        self.track_in.wf() && self.bus_in.wf() && self.master_in.wf() && self.output.wf()
    }

    /// A patch bay without patches.
    pub fn new() -> (r: Self)
        ensures
            r.wf(),
            r@ == PatchModel::unpatched(),
    {
        let r = PatchState {
            track_in: Table::new(),
            bus_in: Table::new(),
            master_in: Table::new(),
            output: Table::new(),
        };
        assert(r@.track_in =~= Map::empty());
        assert(r@.bus_in =~= Map::empty());
        assert(r@.master_in =~= Map::empty());
        assert(r@.output =~= Map::empty());
        r
    }

    /// Patches a track's input. Refused as a whole where the track is unknown, the length is not
    /// that of its channels, or a source is refused; nothing changes then.
    pub fn set_track_in(
        &mut self,
        tracks: &[(u32, usize)],
        buses: &[(u32, usize)],
        masters: &[(u32, usize)],
        input_grid: &InputGrid,
        track_id: u32,
        patch: Vec<Option<SourceRef>>,
    ) -> (r: Result<(), String>)
        requires
            old(self).wf(),
            input_grid.wf(),
        ensures
            final(self).wf(),
            refusal(r) == track_in_refusal(
                world(tracks@, buses@, masters@, *input_grid),
                track_id,
                slots(patch@),
            ),
            r is Err ==> final(self)@ == old(self)@,
            r is Ok ==> final(self)@ == (PatchModel {
                track_in: old(self)@.track_in.insert(track_id, slots(patch@)),
                ..old(self)@
            }),
    {
        let channels: usize = match find_channels(tracks, track_id) {
            Some(n) => n,
            None => {
                return Err(numbered("unknown track ", track_id));
            },
        };
        if patch.len() != channels {
            return Err(length_message(patch.len(), "track's", channels));
        }
        match validate_slots(tracks, buses, masters, input_grid, Some(track_id), &patch) {
            Ok(()) => {},
            Err(e) => {
                return Err(e);
            },
        }
        self.track_in.insert(track_id, patch);
        assert(self@.track_in =~= old(self)@.track_in.insert(track_id, slots(patch@)));
        Ok(())
    }

    /// Patches a bus's summing input.
    pub fn set_bus_in(
        &mut self,
        tracks: &[(u32, usize)],
        buses: &[(u32, usize)],
        masters: &[(u32, usize)],
        input_grid: &InputGrid,
        bus_id: u32,
        bus_channels: usize,
        patch: Vec<Vec<SourceRef>>,
    ) -> (r: Result<(), String>)
        requires
            old(self).wf(),
            input_grid.wf(),
        ensures
            final(self).wf(),
            refusal(r) == sum_refusal(
                world(tracks@, buses@, masters@, *input_grid),
                "bus's"@,
                bus_channels,
                feeds(patch@),
            ),
            r is Err ==> final(self)@ == old(self)@,
            r is Ok ==> final(self)@ == (PatchModel {
                bus_in: old(self)@.bus_in.insert(bus_id, feeds(patch@)),
                ..old(self)@
            }),
    {
        if patch.len() != bus_channels {
            return Err(length_message(patch.len(), "bus's", bus_channels));
        }
        match validate_feeds(tracks, buses, masters, input_grid, &patch) {
            Ok(()) => {},
            Err(e) => {
                return Err(e);
            },
        }
        self.bus_in.insert(bus_id, patch);
        assert(self@.bus_in =~= old(self)@.bus_in.insert(bus_id, feeds(patch@)));
        Ok(())
    }

    /// Patches a master's summing input.
    pub fn set_master_in(
        &mut self,
        tracks: &[(u32, usize)],
        buses: &[(u32, usize)],
        masters: &[(u32, usize)],
        input_grid: &InputGrid,
        master_id: u32,
        master_channels: usize,
        patch: Vec<Vec<SourceRef>>,
    ) -> (r: Result<(), String>)
        requires
            old(self).wf(),
            input_grid.wf(),
        ensures
            final(self).wf(),
            refusal(r) == sum_refusal(
                world(tracks@, buses@, masters@, *input_grid),
                "master's"@,
                master_channels,
                feeds(patch@),
            ),
            r is Err ==> final(self)@ == old(self)@,
            r is Ok ==> final(self)@ == (PatchModel {
                master_in: old(self)@.master_in.insert(master_id, feeds(patch@)),
                ..old(self)@
            }),
    {
        if patch.len() != master_channels {
            return Err(length_message(patch.len(), "master's", master_channels));
        }
        match validate_feeds(tracks, buses, masters, input_grid, &patch) {
            Ok(()) => {},
            Err(e) => {
                return Err(e);
            },
        }
        self.master_in.insert(master_id, patch);
        assert(self@.master_in =~= old(self)@.master_in.insert(master_id, feeds(patch@)));
        Ok(())
    }

    /// Patches an output-grid entry.
    pub fn set_output(
        &mut self,
        tracks: &[(u32, usize)],
        buses: &[(u32, usize)],
        masters: &[(u32, usize)],
        input_grid: &InputGrid,
        output_id: &str,
        output_channels: usize,
        patch: Vec<Option<SourceRef>>,
    ) -> (r: Result<(), String>)
        requires
            old(self).wf(),
            input_grid.wf(),
        ensures
            final(self).wf(),
            refusal(r) == output_refusal(
                world(tracks@, buses@, masters@, *input_grid),
                output_channels,
                slots(patch@),
            ),
            r is Err ==> final(self)@ == old(self)@,
            r is Ok ==> final(self)@ == (PatchModel {
                output: old(self)@.output.insert(output_id@, slots(patch@)),
                ..old(self)@
            }),
    {
        if patch.len() != output_channels {
            return Err(length_message(patch.len(), "output's", output_channels));
        }
        match validate_slots(tracks, buses, masters, input_grid, None, &patch) {
            Ok(()) => {},
            Err(e) => {
                return Err(e);
            },
        }
        self.output.insert(output_id.to_owned(), patch);
        assert(self@.output =~= old(self)@.output.insert(output_id@, slots(patch@)));
        Ok(())
    }

    /// Forgets a track's input patch.
    pub fn remove_track_in(&mut self, track_id: u32)
        requires
            old(self).wf(),
        ensures
            final(self).wf(),
            final(self)@ == (PatchModel {
                track_in: old(self)@.track_in.remove(track_id),
                ..old(self)@
            }),
    {
        let _ = self.track_in.remove(&track_id);
        assert(self@.track_in =~= old(self)@.track_in.remove(track_id));
    }

    /// Forgets a bus's input patch.
    pub fn remove_bus_in(&mut self, bus_id: u32)
        requires
            old(self).wf(),
        ensures
            final(self).wf(),
            final(self)@ == (PatchModel {
                bus_in: old(self)@.bus_in.remove(bus_id),
                ..old(self)@
            }),
    {
        let _ = self.bus_in.remove(&bus_id);
        assert(self@.bus_in =~= old(self)@.bus_in.remove(bus_id));
    }

    /// Forgets a master's input patch.
    pub fn remove_master_in(&mut self, master_id: u32)
        requires
            old(self).wf(),
        ensures
            final(self).wf(),
            final(self)@ == (PatchModel {
                master_in: old(self)@.master_in.remove(master_id),
                ..old(self)@
            }),
    {
        let _ = self.master_in.remove(&master_id);
        assert(self@.master_in =~= old(self)@.master_in.remove(master_id));
    }

    /// Drops every reference to what is gone, from every kind of destination.
    pub fn scrub_references(&mut self, gone: Gone)
        requires
            old(self).wf(),
        ensures
            final(self).wf(),
            final(self)@ == old(self)@.scrubbed(gone),
    {
        scrub_slot_table(&mut self.track_in, gone);
        scrub_feed_table(&mut self.bus_in, gone);
        scrub_feed_table(&mut self.master_in, gone);
        scrub_slot_table(&mut self.output, gone);
    }

    /// Drops every reference to a track's direct-out.
    pub fn scrub_track_out_references(&mut self, track_id: u32)
        requires
            old(self).wf(),
        ensures
            final(self).wf(),
            final(self)@ == old(self)@.scrubbed(Gone::Track(track_id)),
    {
        self.scrub_references(Gone::Track(track_id));
    }

    /// Drops every reference to a bus's output.
    pub fn scrub_bus_out_references(&mut self, bus_id: u32)
        requires
            old(self).wf(),
        ensures
            final(self).wf(),
            final(self)@ == old(self)@.scrubbed(Gone::Bus(bus_id)),
    {
        self.scrub_references(Gone::Bus(bus_id));
    }

    /// Drops every reference to a master's output.
    pub fn scrub_master_out_references(&mut self, master_id: u32)
        requires
            old(self).wf(),
        ensures
            final(self).wf(),
            final(self)@ == old(self)@.scrubbed(Gone::Master(master_id)),
    {
        self.scrub_references(Gone::Master(master_id));
    }

    /// A track's input patch as a message holds it.
    pub fn track_in_json(&self, track_id: u32, channels: usize) -> (r: Json)
        requires
            self.wf(),
        ensures
            r@ == slots_doc(slots_or_empty(self@.track_in, track_id, channels)),
    {
        match self.track_in.get(&track_id) {
            Some(patch) => slots_json(patch),
            None => empty_slots_json(channels),
        }
    }

    /// A bus's input patch as a message holds it.
    pub fn bus_in_json(&self, bus_id: u32, channels: usize) -> (r: Json)
        requires
            self.wf(),
        ensures
            r@ == feeds_doc(feeds_or_empty(self@.bus_in, bus_id, channels)),
    {
        match self.bus_in.get(&bus_id) {
            Some(patch) => feeds_json(patch),
            None => empty_feeds_json(channels),
        }
    }

    /// A master's input patch as a message holds it.
    pub fn master_in_json(&self, master_id: u32, channels: usize) -> (r: Json)
        requires
            self.wf(),
        ensures
            r@ == feeds_doc(feeds_or_empty(self@.master_in, master_id, channels)),
    {
        match self.master_in.get(&master_id) {
            Some(patch) => feeds_json(patch),
            None => empty_feeds_json(channels),
        }
    }

    /// The patch of an output-grid entry as a message holds it.
    pub fn output_json(&self, output_id: &str, channels: usize) -> (r: Json)
        requires
            self.wf(),
        ensures
            r@ == slots_doc(output_or_empty(self@.output, output_id@, channels)),
    {
        match self.output.get(&output_id.to_owned()) {
            Some(patch) => slots_json(patch),
            None => empty_slots_json(channels),
        }
    }
}

/// The slot that a message denotes.
pub open spec fn parsed_slot(d: Doc) -> Result<Option<RefModel>, Seq<char>> {
    if d == Doc::Null {
        Ok(None)
    } else {
        match parsed_source(d) {
            Ok(m) => Ok(Some(m)),
            Err(e) => Err(e),
        }
    }
}

/// The slots that items denote, or what is wrong with the first that denotes none.
pub open spec fn parsed_slots(items: Seq<Doc>) -> Result<Seq<Option<RefModel>>, Seq<char>>
    decreases items.len(),
{
    if items.len() == 0 {
        Ok(Seq::empty())
    } else {
        match parsed_slots(items.drop_last()) {
            Err(e) => Err(e),
            Ok(before) => match parsed_slot(items.last()) {
                Err(e) => Err(e),
                Ok(s) => Ok(before.push(s)),
            },
        }
    }
}

/// The slots that a message denotes.
pub open spec fn parsed_track_in(d: Doc) -> Result<Seq<Option<RefModel>>, Seq<char>> {
    match d.items() {
        None => Err("input-patch must be an array"@),
        Some(items) => parsed_slots(items),
    }
}

/// The sources that items denote, or what is wrong with the first that denotes none.
pub open spec fn parsed_refs(items: Seq<Doc>) -> Result<Seq<RefModel>, Seq<char>>
    decreases items.len(),
{
    if items.len() == 0 {
        Ok(Seq::empty())
    } else {
        match parsed_refs(items.drop_last()) {
            Err(e) => Err(e),
            Ok(before) => match parsed_source(items.last()) {
                Err(e) => Err(e),
                Ok(m) => Ok(before.push(m)),
            },
        }
    }
}

/// The channels that items denote, or what is wrong with the first that denotes none.
pub open spec fn parsed_feeds(items: Seq<Doc>, no_array: Seq<char>) -> Result<
    Seq<Seq<RefModel>>,
    Seq<char>,
>
    decreases items.len(),
{
    if items.len() == 0 {
        Ok(Seq::empty())
    } else {
        match parsed_feeds(items.drop_last(), no_array) {
            Err(e) => Err(e),
            Ok(before) => match items.last().items() {
                None => Err(no_array),
                Some(inner) => match parsed_refs(inner) {
                    Err(e) => Err(e),
                    Ok(s) => Ok(before.push(s)),
                },
            },
        }
    }
}

/// The channels of a summing input that a message denotes.
pub open spec fn parsed_sum(d: Doc, no_array: Seq<char>) -> Result<Seq<Seq<RefModel>>, Seq<char>> {
    match d.items() {
        None => Err("input-patch must be an array"@),
        Some(items) => parsed_feeds(items, no_array),
    }
}

/// What is said of a channel of a bus that is no array.
pub open spec fn bus_no_array() -> Seq<char> {
    "each bus input-patch channel must be an array of sources"@
}

/// What is said of a channel of a master that is no array.
pub open spec fn master_no_array() -> Seq<char> {
    "each master input-patch channel must be an array of sources"@
}

/// What a result with slots says.
pub open spec fn slots_outcome(r: Result<Vec<Option<SourceRef>>, String>) -> Result<
    Seq<Option<RefModel>>,
    Seq<char>,
> {
    match r {
        Ok(v) => Ok(slots(v@)),
        Err(e) => Err(e@),
    }
}

/// What a result with sources says.
pub open spec fn refs_outcome(r: Result<Vec<SourceRef>, String>) -> Result<
    Seq<RefModel>,
    Seq<char>,
> {
    match r {
        Ok(v) => Ok(refs(v@)),
        Err(e) => Err(e@),
    }
}

/// What a result with channels says.
pub open spec fn feeds_outcome(r: Result<Vec<Vec<SourceRef>>, String>) -> Result<
    Seq<Seq<RefModel>>,
    Seq<char>,
> {
    match r {
        Ok(v) => Ok(feeds(v@)),
        Err(e) => Err(e@),
    }
}

proof fn lemma_parsed_slots_prefix(items: Seq<Doc>, k: int)
    requires
        0 <= k <= items.len(),
        parsed_slots(items.take(k)) is Err,
    ensures
        parsed_slots(items) == parsed_slots(items.take(k)),
    decreases items.len(),
{
    if k == items.len() {
        assert(items.take(k) =~= items);
    } else {
        assert(items.drop_last().take(k) =~= items.take(k));
        lemma_parsed_slots_prefix(items.drop_last(), k);
    }
}

proof fn lemma_parsed_refs_prefix(items: Seq<Doc>, k: int)
    requires
        0 <= k <= items.len(),
        parsed_refs(items.take(k)) is Err,
    ensures
        parsed_refs(items) == parsed_refs(items.take(k)),
    decreases items.len(),
{
    if k == items.len() {
        assert(items.take(k) =~= items);
    } else {
        assert(items.drop_last().take(k) =~= items.take(k));
        lemma_parsed_refs_prefix(items.drop_last(), k);
    }
}

proof fn lemma_parsed_feeds_prefix(items: Seq<Doc>, no_array: Seq<char>, k: int)
    requires
        0 <= k <= items.len(),
        parsed_feeds(items.take(k), no_array) is Err,
    ensures
        parsed_feeds(items, no_array) == parsed_feeds(items.take(k), no_array),
    decreases items.len(),
{
    if k == items.len() {
        assert(items.take(k) =~= items);
    } else {
        assert(items.drop_last().take(k) =~= items.take(k));
        lemma_parsed_feeds_prefix(items.drop_last(), no_array, k);
    }
}

fn parse_refs(items: &Vec<Json>) -> (r: Result<Vec<SourceRef>, String>)
    ensures
        refs_outcome(r) == parsed_refs(docs(items@)),
{
    let ghost all = docs(items@);
    let mut out: Vec<SourceRef> = Vec::new();
    assert(all.take(0) =~= Seq::empty());
    assert(refs(out@) =~= Seq::empty());
    for i in 0..items.len()
        invariant
            all == docs(items@),
            parsed_refs(all.take(i as int)) == Ok::<Seq<RefModel>, Seq<char>>(refs(out@)),
    {
        assert(all.take(i + 1).drop_last() =~= all.take(i as int));
        assert(all.take(i + 1).last() == items@[i as int]@);
        let ghost before = refs(out@);
        match SourceRef::parse(&items[i]) {
            Ok(s) => {
                out.push(s);
                assert(refs(out@) =~= before.push(s@));
            },
            Err(e) => {
                proof {
                    lemma_parsed_refs_prefix(all, i + 1);
                }
                return Err(e);
            },
        }
    }
    assert(all.take(items@.len() as int) =~= all);
    Ok(out)
}

fn parse_feeds(v: &Json, no_array: &str) -> (r: Result<Vec<Vec<SourceRef>>, String>)
    ensures
        feeds_outcome(r) == parsed_sum(v@, no_array@),
{
    let items = match v.as_array() {
        Some(a) => a,
        None => {
            return Err("input-patch must be an array".to_owned());
        },
    };
    let ghost all = docs(items@);
    let mut out: Vec<Vec<SourceRef>> = Vec::new();
    assert(all.take(0) =~= Seq::empty());
    assert(feeds(out@) =~= Seq::empty());
    for i in 0..items.len()
        invariant
            all == docs(items@),
            v@ == Doc::Array(all),
            parsed_feeds(all.take(i as int), no_array@) == Ok::<Seq<Seq<RefModel>>, Seq<char>>(
                feeds(out@),
            ),
    {
        assert(all.take(i + 1).drop_last() =~= all.take(i as int));
        assert(all.take(i + 1).last() == items@[i as int]@);
        let ghost before = feeds(out@);
        let inner = match items[i].as_array() {
            Some(a) => a,
            None => {
                proof {
                    lemma_parsed_feeds_prefix(all, no_array@, i + 1);
                }
                return Err(no_array.to_owned());
            },
        };
        match parse_refs(inner) {
            Ok(s) => {
                out.push(s);
                assert(feeds(out@) =~= before.push(refs(s@)));
            },
            Err(e) => {
                proof {
                    lemma_parsed_feeds_prefix(all, no_array@, i + 1);
                }
                return Err(e);
            },
        }
    }
    assert(all.take(items@.len() as int) =~= all);
    Ok(out)
}

impl PatchState {
    /// Reads the slots of an exclusive destination from a message.
    pub fn parse_track_in(v: &Json) -> (r: Result<Vec<Option<SourceRef>>, String>)
        ensures
            slots_outcome(r) == parsed_track_in(v@),
    {
        let items = match v.as_array() {
            Some(a) => a,
            None => {
                return Err("input-patch must be an array".to_owned());
            },
        };
        let ghost all = docs(items@);
        let mut out: Vec<Option<SourceRef>> = Vec::new();
        assert(all.take(0) =~= Seq::empty());
        assert(slots(out@) =~= Seq::empty());
        for i in 0..items.len()
            invariant
                all == docs(items@),
                v@ == Doc::Array(all),
                parsed_slots(all.take(i as int)) == Ok::<Seq<Option<RefModel>>, Seq<char>>(
                    slots(out@),
                ),
        {
            assert(all.take(i + 1).drop_last() =~= all.take(i as int));
            assert(all.take(i + 1).last() == items@[i as int]@);
            let ghost before = slots(out@);
            if items[i].is_null() {
                out.push(None);
                assert(slots(out@) =~= before.push(None));
            } else {
                match SourceRef::parse(&items[i]) {
                    Ok(s) => {
                        out.push(Some(s));
                        assert(slots(out@) =~= before.push(Some(s@)));
                    },
                    Err(e) => {
                        proof {
                            lemma_parsed_slots_prefix(all, i + 1);
                        }
                        return Err(e);
                    },
                }
            }
        }
        assert(all.take(items@.len() as int) =~= all);
        Ok(out)
    }

    /// Reads the channels of a bus's summing input from a message.
    pub fn parse_bus_in(v: &Json) -> (r: Result<Vec<Vec<SourceRef>>, String>)
        ensures
            feeds_outcome(r) == parsed_sum(v@, bus_no_array()),
    {
        parse_feeds(v, "each bus input-patch channel must be an array of sources")
    }

    /// Reads the channels of a master's summing input from a message.
    pub fn parse_master_in(v: &Json) -> (r: Result<Vec<Vec<SourceRef>>, String>)
        ensures
            feeds_outcome(r) == parsed_sum(v@, master_no_array()),
    {
        parse_feeds(v, "each master input-patch channel must be an array of sources")
    }
}

proof fn lemma_slots_read_back(s: Seq<Option<RefModel>>)
    ensures
        parsed_slots(s.map_values(|x: Option<RefModel>| slot_doc(x))) == Ok::<
            Seq<Option<RefModel>>,
            Seq<char>,
        >(s),
    decreases s.len(),
{
    let ds = s.map_values(|x: Option<RefModel>| slot_doc(x));
    if s.len() > 0 {
        lemma_slots_read_back(s.drop_last());
        assert(ds.drop_last() =~= s.drop_last().map_values(|x: Option<RefModel>| slot_doc(x)));
        if let Some(m) = s.last() {
            law_source_reads_back(m);
        }
        assert(s.drop_last().push(s.last()) =~= s);
    } else {
        assert(s =~= Seq::empty());
    }
}

proof fn lemma_refs_read_back(s: Seq<RefModel>)
    ensures
        parsed_refs(s.map_values(|x: RefModel| x.doc())) == Ok::<Seq<RefModel>, Seq<char>>(s),
    decreases s.len(),
{
    let ds = s.map_values(|x: RefModel| x.doc());
    if s.len() > 0 {
        lemma_refs_read_back(s.drop_last());
        assert(ds.drop_last() =~= s.drop_last().map_values(|x: RefModel| x.doc()));
        law_source_reads_back(s.last());
        assert(s.drop_last().push(s.last()) =~= s);
    } else {
        assert(s =~= Seq::empty());
    }
}

proof fn lemma_feeds_read_back(s: Seq<Seq<RefModel>>, no_array: Seq<char>)
    ensures
        parsed_feeds(s.map_values(|x: Seq<RefModel>| refs_doc(x)), no_array) == Ok::<
            Seq<Seq<RefModel>>,
            Seq<char>,
        >(s),
    decreases s.len(),
{
    let ds = s.map_values(|x: Seq<RefModel>| refs_doc(x));
    if s.len() > 0 {
        lemma_feeds_read_back(s.drop_last(), no_array);
        assert(ds.drop_last() =~= s.drop_last().map_values(|x: Seq<RefModel>| refs_doc(x)));
        lemma_refs_read_back(s.last());
        assert(s.drop_last().push(s.last()) =~= s);
    } else {
        assert(s =~= Seq::empty());
    }
}

/// A patch that was written into a message is what reading the message gives back.
pub proof fn law_patches_read_back(
    exclusive: Seq<Option<RefModel>>,
    summing: Seq<Seq<RefModel>>,
    no_array: Seq<char>,
)
    ensures
        parsed_track_in(slots_doc(exclusive)) == Ok::<Seq<Option<RefModel>>, Seq<char>>(exclusive),
        parsed_sum(feeds_doc(summing), no_array) == Ok::<Seq<Seq<RefModel>>, Seq<char>>(summing),
{
    lemma_slots_read_back(exclusive);
    lemma_feeds_read_back(summing, no_array);
}

/// The signals of one period, by the ids of the points that carry them: one buffer per channel.
pub struct Signals<'a, T> {
    pub inputs: &'a Table<String, Vec<Vec<T>>>,
    pub tracks: &'a Table<u32, Vec<Vec<T>>>,
    pub buses: &'a Table<u32, Vec<Vec<T>>>,
    pub masters: &'a Table<u32, Vec<Vec<T>>>,
}

/// The signal of one channel of a point that carries signals.
pub open spec fn channel_signal<T>(bufs: Option<Vec<Vec<T>>>, channel: usize) -> Option<Seq<T>> {
    match bufs {
        Some(b) => if channel < b@.len() {
            Some(b@[channel as int]@)
        } else {
            None
        },
        None => None,
    }
}

/// The value under a key of a map, where there is one.
pub open spec fn value_of<K, V>(m: Map<K, V>, k: K) -> Option<V> {
    if m.contains_key(k) {
        Some(m[k])
    } else {
        None
    }
}

impl<'a, T> Signals<'a, T> {
    /// Whether the tables stand in order.
    pub open spec fn wf(self) -> bool {
        self.inputs.wf() && self.tracks.wf() && self.buses.wf() && self.masters.wf()
    }

    /// The signal that a source carries; none where the point or the channel does not exist.
    pub open spec fn carried(self, s: RefModel) -> Option<Seq<T>> {
        match s {
            RefModel::Input { entry_id, channel } => channel_signal(
                value_of(self.inputs@, entry_id),
                channel,
            ),
            RefModel::TrackOut { track_id, channel } => channel_signal(
                value_of(self.tracks@, track_id),
                channel,
            ),
            RefModel::BusOut { bus_id, channel } => channel_signal(
                value_of(self.buses@, bus_id),
                channel,
            ),
            RefModel::MasterOut { master_id, channel } => channel_signal(
                value_of(self.masters@, master_id),
                channel,
            ),
        }
    }
}

fn channel_of<T>(bufs: Option<&Vec<Vec<T>>>, channel: usize) -> (r: Option<&Vec<T>>)
    ensures
        match r {
            Some(v) => bufs matches Some(b) && channel < b@.len() && *v == b@[channel as int],
            None => bufs matches Some(b) ==> channel >= b@.len(),
        },
{
    match bufs {
        Some(b) => if channel < b.len() {
            Some(&b[channel])
        } else {
            None
        },
        None => None,
    }
}

/// The signal that a source carries; none where the point or the channel does not exist.
pub fn resolve<'a, T>(source: &SourceRef, signals: &Signals<'a, T>) -> (r: Option<&'a Vec<T>>)
    requires
        signals.wf(),
    ensures
        match r {
            Some(v) => signals.carried(source@) == Some(v@),
            None => signals.carried(source@) is None,
        },
{
    match source {
        SourceRef::Input { entry_id, channel } => channel_of(signals.inputs.get(entry_id), *channel),
        SourceRef::TrackOut { track_id, channel } => channel_of(
            signals.tracks.get(track_id),
            *channel,
        ),
        SourceRef::BusOut { bus_id, channel } => channel_of(signals.buses.get(bus_id), *channel),
        SourceRef::MasterOut { master_id, channel } => channel_of(
            signals.masters.get(master_id),
            *channel,
        ),
    }
}

/// A signal over another: as much of it as there is room for, the rest of the other behind it.
pub open spec fn overlaid<T>(dst: Seq<T>, src: Option<Seq<T>>) -> Seq<T> {
    match src {
        Some(s) => if s.len() >= dst.len() {
            s.take(dst.len() as int)
        } else {
            s + dst.skip(s.len() as int)
        },
        None => dst,
    }
}

fn copy_source<T: Copy>(source: &SourceRef, signals: &Signals<T>, dst: &mut Vec<T>)
    requires
        signals.wf(),
    ensures
        final(dst)@ == overlaid(old(dst)@, signals.carried(source@)),
{
    if let Some(src) = resolve(source, signals) {
        let n: usize = if src.len() < dst.len() {
            src.len()
        } else {
            dst.len()
        };
        let mut i: usize = 0;
        while i < n
            invariant
                i <= n,
                n <= src@.len(),
                n <= old(dst)@.len(),
                dst@.len() == old(dst)@.len(),
                forall|k: int| 0 <= k < i ==> dst@[k] == src@[k],
                forall|k: int| i <= k < dst@.len() ==> dst@[k] == old(dst)@[k],
            decreases n - i,
        {
            dst.set(i, src[i]);
            i += 1;
        }
        assert(dst@ =~= overlaid(old(dst)@, Some(src@)));
    }
}

/// One channel of a destination buffer after its slot was filled.
pub open spec fn filled_channel<T>(
    slot: Option<RefModel>,
    signals: Signals<T>,
    dst: Seq<T>,
) -> Seq<T> {
    match slot {
        Some(m) => overlaid(dst, signals.carried(m)),
        None => dst,
    }
}

/// The channels of a destination buffer after its slots were filled.
pub open spec fn filled<T>(
    slots: Option<Seq<Option<RefModel>>>,
    signals: Signals<T>,
    dst: Seq<Seq<T>>,
) -> Seq<Seq<T>> {
    match slots {
        None => dst,
        Some(s) => Seq::new(
            dst.len(),
            |ch: int|
                if ch < s.len() {
                    filled_channel(s[ch], signals, dst[ch])
                } else {
                    dst[ch]
                },
        ),
    }
}

/// What a planar buffer holds.
pub open spec fn planar<T>(b: Seq<Vec<T>>) -> Seq<Seq<T>> {
    b.map_values(|c: Vec<T>| c@)
}

fn fill_slots<T: Copy>(patch: &Vec<Option<SourceRef>>, signals: &Signals<T>, dst: &mut Vec<Vec<T>>)
    requires
        signals.wf(),
    ensures
        planar(final(dst)@) == filled(Some(slots(patch@)), *signals, planar(old(dst)@)),
{
    let ghost was = planar(dst@);
    let ghost want = filled(Some(slots(patch@)), *signals, was);
    let mut ch: usize = 0;
    while ch < patch.len() && ch < dst.len()
        invariant
            signals.wf(),
            dst@.len() == was.len(),
            ch <= dst@.len(),
            ch <= patch@.len(),
            want == filled(Some(slots(patch@)), *signals, was),
            forall|k: int| 0 <= k < ch ==> (#[trigger] dst@[k])@ == want[k],
            forall|k: int| ch <= k < dst@.len() ==> (#[trigger] dst@[k])@ == was[k],
        decreases patch@.len() - ch,
    {
        if let Some(source) = &patch[ch] {
            let mut buf: Vec<T> = Vec::new();
            std::mem::swap(&mut buf, &mut dst[ch]);
            copy_source(source, signals, &mut buf);
            dst.set(ch, buf);
        }
        assert(dst@[ch as int]@ == want[ch as int]);
        ch += 1;
    }
    assert(planar(dst@) =~= want);
}

/// The signals that sources carry, in their order, without those that carry none.
pub open spec fn contributions<T>(s: Seq<RefModel>, signals: Signals<T>) -> Seq<Seq<T>>
    decreases s.len(),
{
    if s.len() == 0 {
        Seq::empty()
    } else {
        match signals.carried(s.last()) {
            Some(x) => contributions(s.drop_last(), signals).push(x),
            None => contributions(s.drop_last(), signals),
        }
    }
}

/// What references to signals hold.
pub open spec fn held<T>(b: Seq<&Vec<T>>) -> Seq<Seq<T>> {
    b.map_values(|c: &Vec<T>| c@)
}

fn contributing<'a, T>(sources: &Vec<SourceRef>, signals: &Signals<'a, T>) -> (r: Vec<&'a Vec<T>>)
    requires
        signals.wf(),
    ensures
        held(r@) == contributions(refs(sources@), *signals),
{
    let ghost all = refs(sources@);
    let mut out: Vec<&'a Vec<T>> = Vec::new();
    assert(held(out@) =~= contributions(all.take(0), *signals));
    for i in 0..sources.len()
        invariant
            signals.wf(),
            all == refs(sources@),
            held(out@) == contributions(all.take(i as int), *signals),
    {
        assert(all.take(i + 1).drop_last() =~= all.take(i as int));
        let ghost before = held(out@);
        if let Some(x) = resolve(&sources[i], signals) {
            out.push(x);
            assert(held(out@) =~= before.push(x@));
        }
    }
    assert(all.take(sources@.len() as int) =~= all);
    out
}

/// What the channels of a summing destination get, one list of signals for each.
pub open spec fn summands<T>(
    feeds: Option<Seq<Seq<RefModel>>>,
    signals: Signals<T>,
    channels: nat,
) -> Seq<Seq<Seq<T>>> {
    Seq::new(
        channels,
        |ch: int|
            match feeds {
                Some(f) => if ch < f.len() {
                    contributions(f[ch], signals)
                } else {
                    Seq::empty()
                },
                None => Seq::empty(),
            },
    )
}

/// What lists of references to signals hold.
pub open spec fn held_all<T>(b: Seq<Vec<&Vec<T>>>) -> Seq<Seq<Seq<T>>> {
    b.map_values(|c: Vec<&Vec<T>>| held(c@))
}

fn gather<'a, T>(
    patch: Option<&Vec<Vec<SourceRef>>>,
    signals: &Signals<'a, T>,
    channels: usize,
) -> (r: Vec<Vec<&'a Vec<T>>>)
    requires
        signals.wf(),
    ensures
        held_all(r@) == summands(
            (match patch {
                Some(p) => Some(feeds(p@)),
                None => None,
            }),
            *signals,
            channels as nat,
        ),
{
    let ghost f = match patch {
        Some(p) => Some(feeds(p@)),
        None => None,
    };
    let ghost want = summands(f, *signals, channels as nat);
    let mut out: Vec<Vec<&'a Vec<T>>> = Vec::new();
    for ch in 0..channels
        invariant
            signals.wf(),
            f == (match patch {
                Some(p) => Some(feeds(p@)),
                None => None,
            }),
            want == summands(f, *signals, channels as nat),
            out@.len() == ch,
            forall|k: int| 0 <= k < ch ==> held((#[trigger] out@[k])@) == want[k],
    {
        let row: Vec<&'a Vec<T>> = match patch {
            Some(p) => if ch < p.len() {
                contributing(&p[ch], signals)
            } else {
                Vec::new()
            },
            None => Vec::new(),
        };
        assert(held(row@) =~= want[ch as int]);
        out.push(row);
    }
    assert(held_all(out@) =~= want);
    out
}

impl PatchState {
    /// Fills a track's input buffer from its patch.
    pub fn resolve_track_in<T: Copy>(
        &self,
        track_id: u32,
        signals: &Signals<T>,
        dst: &mut Vec<Vec<T>>,
    )
        requires
            self.wf(),
            signals.wf(),
        ensures
            planar(final(dst)@) == filled(
                value_of(self@.track_in, track_id),
                *signals,
                planar(old(dst)@),
            ),
    {
        if let Some(patch) = self.track_in.get(&track_id) {
            fill_slots(patch, signals, dst);
        }
    }

    /// Fills the buffer of an output-grid entry from its patch.
    pub fn resolve_output<T: Copy>(
        &self,
        output_id: &str,
        signals: &Signals<T>,
        dst: &mut Vec<Vec<T>>,
    )
        requires
            self.wf(),
            signals.wf(),
        ensures
            planar(final(dst)@) == filled(
                value_of(self@.output, output_id@),
                *signals,
                planar(old(dst)@),
            ),
    {
        if let Some(patch) = self.output.get(&output_id.to_owned()) {
            fill_slots(patch, signals, dst);
        }
    }

    /// The signals that a bus's patch sums on each of `channels` channels.
    pub fn resolve_bus_in<'a, T>(
        &self,
        bus_id: u32,
        signals: &Signals<'a, T>,
        channels: usize,
    ) -> (r: Vec<Vec<&'a Vec<T>>>)
        requires
            self.wf(),
            signals.wf(),
        ensures
            held_all(r@) == summands(value_of(self@.bus_in, bus_id), *signals, channels as nat),
    {
        gather(self.bus_in.get(&bus_id), signals, channels)
    }

    /// The signals that a master's patch sums on each of `channels` channels.
    pub fn resolve_master_in<'a, T>(
        &self,
        master_id: u32,
        signals: &Signals<'a, T>,
        channels: usize,
    ) -> (r: Vec<Vec<&'a Vec<T>>>)
        requires
            self.wf(),
            signals.wf(),
        ensures
            held_all(r@) == summands(
                value_of(self@.master_in, master_id),
                *signals,
                channels as nat,
            ),
    {
        gather(self.master_in.get(&master_id), signals, channels)
    }
}

} // verus!
