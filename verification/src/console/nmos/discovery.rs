//! Filling the input grid with the senders of other apps that a registry lists.
//!
//! Only entries whose ids start with `registry:` are managed here; all others are left alone.

use vstd::prelude::*;
use vstd::string::*;

use crate::console::ids::{instance_input_receiver_id, stable};
use crate::console::patch::{InputGrid, InputGridEntry};
use crate::json::{docs, Doc, Json};
use crate::nmos::TRANSPORT_TYPE;
use crate::table::Table;
use crate::text::{put_text, same, texts};

verus! {

/// What the ids of the entries that are managed here start with.
pub const ENTRY_PREFIX: &'static str = "registry:";

/// A sender that could be read.
#[derive(Clone, Debug, PartialEq)]
pub struct Candidate {
    pub label: String,
    pub flow_id: String,
    pub channels: usize,
}

/// What a [`Candidate`] says.
pub struct CandidateModel {
    pub label: Seq<char>,
    pub flow_id: Seq<char>,
    pub channels: usize,
}

impl View for Candidate {
    type V = CandidateModel;

    open spec fn view(&self) -> CandidateModel {
        CandidateModel {
            label: self.label@,
            flow_id: self.flow_id@,
            channels: self.channels,
        }
    }
}

/// What candidates say, by the ids of their senders.
pub open spec fn candidate_map(t: Table<String, Candidate>) -> Map<Seq<char>, CandidateModel> {
    t@.map_values(|c: Candidate| c@)
}

/// The id and the channel count of an audio flow.
pub open spec fn audio_flow(d: Doc) -> Option<(Seq<char>, usize)> {
    match (d.text_field("id"@), d.text_field("format"@), d.field("channels"@)) {
        (Some(id), Some(format), Some(channels)) => if format == "urn:x-nmos:format:audio"@ {
            match channels.items() {
                Some(items) => Some((id, items.len() as usize)),
                None => None,
            }
        } else {
            None
        },
        _ => None,
    }
}

/// The channel counts of audio flows, by their ids.
pub open spec fn flow_channels(flows: Seq<Doc>) -> Map<Seq<char>, usize>
    decreases flows.len(),
{
    if flows.len() == 0 {
        Map::empty()
    } else {
        match audio_flow(flows.last()) {
            Some((id, n)) => flow_channels(flows.drop_last()).insert(id, n),
            None => flow_channels(flows.drop_last()),
        }
    }
}

/// The candidate that a sender is: it sends over shared memory, it is of another device, and its
/// flow is a known audio flow.
pub open spec fn candidate(d: Doc, channels: Map<Seq<char>, usize>, own_device: Seq<char>) -> Option<
    (Seq<char>, CandidateModel),
> {
    match (d.text_field("id"@), d.text_field("flow_id"@)) {
        (Some(id), Some(flow_id)) => if d.text_field("transport"@) == Some(TRANSPORT_TYPE@)
            && d.text_field("device_id"@) != Some(own_device) && channels.contains_key(flow_id) {
            Some(
                (
                    id,
                    CandidateModel {
                        label: match d.text_field("label"@) {
                            Some(l) => l,
                            None => id,
                        },
                        flow_id,
                        channels: channels[flow_id],
                    },
                ),
            )
        } else {
            None
        },
        _ => None,
    }
}

/// The candidates among senders.
pub open spec fn candidates(
    senders: Seq<Doc>,
    channels: Map<Seq<char>, usize>,
    own_device: Seq<char>,
) -> Map<Seq<char>, CandidateModel>
    decreases senders.len(),
{
    if senders.len() == 0 {
        Map::empty()
    } else {
        let rest = candidates(senders.drop_last(), channels, own_device);
        match candidate(senders.last(), channels, own_device) {
            Some((id, c)) => rest.insert(id, c),
            None => rest,
        }
    }
}

fn read_audio_flow(v: &Json) -> (r: Option<(&str, usize)>)
    ensures
        match r {
            Some((id, n)) => audio_flow(v@) == Some((id@, n)),
            None => audio_flow(v@) is None,
        },
{
    let id = v.text_field("id")?;
    let format = v.text_field("format")?;
    let channels = v.get("channels")?;
    if !same(format, "urn:x-nmos:format:audio") {
        return None;
    }
    match channels.as_array() {
        Some(items) => Some((id, items.len())),
        None => None,
    }
}

fn read_flows(flows: &Vec<Json>) -> (r: Table<String, usize>)
    ensures
        r.wf(),
        r@ == flow_channels(docs(flows@)),
{
    let mut out: Table<String, usize> = Table::new();
    let ghost all = docs(flows@);
    assert(all.take(0) =~= Seq::empty());
    for i in 0..flows.len()
        invariant
            all == docs(flows@),
            out.wf(),
            out@ == flow_channels(all.take(i as int)),
    {
        assert(all.take(i + 1).drop_last() =~= all.take(i as int));
        if let Some((id, n)) = read_audio_flow(&flows[i]) {
            out.insert(id.to_owned(), n);
        }
    }
    assert(all.take(all.len() as int) =~= all);
    out
}

fn read_candidate(v: &Json, channels: &Table<String, usize>, own_device: &str) -> (r: Option<
    (String, Candidate),
>)
    requires
        channels.wf(),
    ensures
        match r {
            Some((id, c)) => candidate(v@, channels@, own_device@) == Some((id@, c@)),
            None => candidate(v@, channels@, own_device@) is None,
        },
{
    let id = v.text_field("id")?;
    match v.text_field("transport") {
        Some(t) => if !same(t, TRANSPORT_TYPE) {
            return None;
        },
        None => {
            return None;
        },
    }
    if let Some(d) = v.text_field("device_id") {
        if same(d, own_device) {
            return None;
        }
    }
    let flow_id = v.text_field("flow_id")?.to_owned();
    let n: usize = *channels.get(&flow_id)?;
    let label = match v.text_field("label") {
        Some(l) => l.to_owned(),
        None => id.to_owned(),
    };
    Some((id.to_owned(), Candidate { label, flow_id, channels: n }))
}

/// The candidates that a registry's lists of senders and flows hold.
pub fn read_candidates(senders: &Vec<Json>, flows: &Vec<Json>, own_device: &str) -> (r: Table<
    String,
    Candidate,
>)
    ensures
        r.wf(),
        candidate_map(r) == candidates(
            docs(senders@),
            flow_channels(docs(flows@)),
            own_device@,
        ),
{
    let channels = read_flows(flows);
    let mut out: Table<String, Candidate> = Table::new();
    let ghost all = docs(senders@);
    assert(all.take(0) =~= Seq::empty());
    assert(candidate_map(out) =~= Map::empty());
    for i in 0..senders.len()
        invariant
            all == docs(senders@),
            channels.wf(),
            out.wf(),
            candidate_map(out) == candidates(all.take(i as int), channels@, own_device@),
    {
        assert(all.take(i + 1).drop_last() =~= all.take(i as int));
        let ghost before = candidate_map(out);
        if let Some((id, c)) = read_candidate(&senders[i], &channels, own_device) {
            let ghost key = id@;
            let ghost value = c@;
            out.insert(id, c);
            assert(candidate_map(out) =~= before.insert(key, value));
        }
    }
    assert(all.take(all.len() as int) =~= all);
    out
}

fn same_candidate(a: &Candidate, b: &Candidate) -> (r: bool)
    ensures
        r == (a@ == b@),
{
    same(a.label.as_str(), b.label.as_str()) && same(a.flow_id.as_str(), b.flow_id.as_str())
        && a.channels == b.channels
}

/// The ids of candidates that are gone.
pub open spec fn departed(
    known: Seq<(String, Candidate)>,
    now: Map<Seq<char>, CandidateModel>,
) -> Seq<Seq<char>>
    decreases known.len(),
{
    if known.len() == 0 {
        Seq::empty()
    } else if now.contains_key(known.last().0@) {
        departed(known.drop_last(), now)
    } else {
        departed(known.drop_last(), now).push(known.last().0@)
    }
}

/// The ids of candidates that are new or say something else than before.
pub open spec fn arrived(
    known: Map<Seq<char>, CandidateModel>,
    now: Seq<(String, Candidate)>,
) -> Seq<Seq<char>>
    decreases now.len(),
{
    if now.len() == 0 {
        Seq::empty()
    } else {
        let e = now.last();
        if known.contains_key(e.0@) && known[e.0@] == e.1@ {
            arrived(known, now.drop_last())
        } else {
            arrived(known, now.drop_last()).push(e.0@)
        }
    }
}

/// The candidates whose entries are to be removed.
pub fn gone(known: &Table<String, Candidate>, now: &Table<String, Candidate>) -> (r: Vec<String>)
    requires
        now.wf(),
    ensures
        texts(r@) == departed(known.list(), candidate_map(*now)),
{
    let mut out: Vec<String> = Vec::new();
    let ghost all = known.list();
    assert(all.take(0) =~= Seq::empty());
    assert(texts(out@) =~= Seq::empty());
    for i in 0..known.len()
        invariant
            all == known.list(),
            now.wf(),
            texts(out@) == departed(all.take(i as int), candidate_map(*now)),
    {
        assert(all.take(i + 1).drop_last() =~= all.take(i as int));
        let id = known.key_at(i);
        if !now.contains_key(id) {
            put_text(&mut out, id.clone());
        }
    }
    assert(all.take(all.len() as int) =~= all);
    out
}

/// The candidates whose flows are to be opened.
pub fn fresh(known: &Table<String, Candidate>, now: &Table<String, Candidate>) -> (r: Vec<String>)
    requires
        known.wf(),
    ensures
        texts(r@) == arrived(candidate_map(*known), now.list()),
{
    let mut out: Vec<String> = Vec::new();
    let ghost all = now.list();
    assert(all.take(0) =~= Seq::empty());
    assert(texts(out@) =~= Seq::empty());
    for i in 0..now.len()
        invariant
            all == now.list(),
            known.wf(),
            texts(out@) == arrived(candidate_map(*known), all.take(i as int)),
    {
        assert(all.take(i + 1).drop_last() =~= all.take(i as int));
        let id = now.key_at(i);
        let unchanged = match known.get(id) {
            Some(c) => {
                assert(candidate_map(*known)[id@] == c@);
                same_candidate(c, now.value_at(i))
            },
            None => false,
        };
        if !unchanged {
            put_text(&mut out, id.clone());
        }
    }
    assert(all.take(all.len() as int) =~= all);
    out
}

/// The id of the entry of a sender.
pub fn entry_id(sender_id: &str) -> (r: String)
    ensures
        r@ == ENTRY_PREFIX@ + sender_id@,
{
    let mut s = ENTRY_PREFIX.to_owned();
    s.append(sender_id);
    s
}

/// The entry of a sender whose flow was opened.
pub fn entry_for(sender_id: &str, c: &Candidate, instance_name: &str) -> (r: InputGridEntry)
    ensures
        r.id@ == ENTRY_PREFIX@ + sender_id@,
        r.label@ == c.label@,
        r.channels == c.channels,
        r.connected,
        r.flow_id matches Some(f) && f@ == c.flow_id@,
        r.receiver_id.bits == stable(
            "mxl-test-app-instance-input-receiver:"@ + instance_name@ + ":"@ + (ENTRY_PREFIX@
                + sender_id@),
        ),
        r.subscribed_sender_id is None,
{
    let id = entry_id(sender_id);
    let receiver_id = instance_input_receiver_id(instance_name, id.as_str());
    InputGridEntry {
        id,
        label: c.label.clone(),
        channels: c.channels,
        connected: true,
        flow_id: Some(c.flow_id.clone()),
        receiver_id,
        subscribed_sender_id: None,
    }
}

/// Removes the entries of senders that are gone. No other entry is touched.
pub fn remove_gone(grid: &mut InputGrid, gone: &Vec<String>)
    requires
        old(grid).wf(),
    ensures
        final(grid).wf(),
        final(grid).entries@ == old(grid).entries@.remove_keys(managed(texts(gone@))),
{
    let ghost was = grid.entries@;
    let ghost all = texts(gone@);
    assert(was =~= was.remove_keys(managed(all.take(0))));
    for i in 0..gone.len()
        invariant
            all == texts(gone@),
            grid.wf(),
            grid.entries@ == was.remove_keys(managed(all.take(i as int))),
    {
        let ghost before = grid.entries@;
        grid.remove(entry_id(gone[i].as_str()).as_str());
        proof {
            let prefix = all.take(i as int);
            let next = all.take(i + 1);
            let key = ENTRY_PREFIX@ + gone@[i as int]@;
            assert(next =~= prefix.push(gone@[i as int]@));
            assert forall|k: Seq<char>| managed(next).contains(k) <==> managed(prefix).contains(k)
                || k == key by {
                if managed(prefix).contains(k) {
                    let s = choose|s: Seq<char>| prefix.contains(s) && k == ENTRY_PREFIX@ + s;
                    let j = choose|j: int| 0 <= j < prefix.len() && prefix[j] == s;
                    assert(next[j] == s);
                    assert(next.contains(s));
                }
                if k == key {
                    assert(next[i as int] == gone@[i as int]@);
                    assert(next.contains(gone@[i as int]@));
                }
                if managed(next).contains(k) {
                    let s = choose|s: Seq<char>| next.contains(s) && k == ENTRY_PREFIX@ + s;
                    let j = choose|j: int| 0 <= j < next.len() && next[j] == s;
                    if j < i {
                        assert(prefix[j] == s);
                        assert(prefix.contains(s));
                    }
                }
            }
            assert(grid.entries@ =~= was.remove_keys(managed(next)));
        }
    }
    assert(all.take(all.len() as int) =~= all);
}

/// The ids of the entries of senders.
pub open spec fn managed(senders: Seq<Seq<char>>) -> Set<Seq<char>> {
    Set::new(|k: Seq<char>| exists|s: Seq<char>| senders.contains(s) && k == ENTRY_PREFIX@ + s)
}

proof fn lemma_nothing_departed(list: Seq<(String, Candidate)>, now: Map<Seq<char>, CandidateModel>)
    requires
        forall|i: int| 0 <= i < list.len() ==> now.contains_key((#[trigger] list[i]).0@),
    ensures
        departed(list, now) == Seq::<Seq<char>>::empty(),
    decreases list.len(),
{
    if list.len() > 0 {
        assert(forall|i: int| 0 <= i < list.len() - 1 ==> list.drop_last()[i] == list[i]);
        assert(list[list.len() - 1] == list.last());
        lemma_nothing_departed(list.drop_last(), now);
    }
}

proof fn lemma_nothing_arrived(known: Map<Seq<char>, CandidateModel>, list: Seq<(String, Candidate)>)
    requires
        forall|i: int|
            0 <= i < list.len() ==> known.contains_key((#[trigger] list[i]).0@)
                && known[list[i].0@] == list[i].1@,
    ensures
        arrived(known, list) == Seq::<Seq<char>>::empty(),
    decreases list.len(),
{
    if list.len() > 0 {
        assert(forall|i: int| 0 <= i < list.len() - 1 ==> list.drop_last()[i] == list[i]);
        assert(list[list.len() - 1] == list.last());
        lemma_nothing_arrived(known, list.drop_last());
    }
}

/// A poll that finds what is known removes nothing and opens nothing.
pub proof fn law_no_change_no_work(known: Table<String, Candidate>)
    requires
        known.wf(),
    ensures
        departed(known.list(), candidate_map(known)) == Seq::<Seq<char>>::empty(),
        arrived(candidate_map(known), known.list()) == Seq::<Seq<char>>::empty(),
{
    let list = known.list();
    assert forall|i: int| 0 <= i < list.len() implies candidate_map(known).contains_key(
        (#[trigger] list[i]).0@,
    ) && candidate_map(known)[list[i].0@] == list[i].1@ by {
        crate::table::lemma_in_map(list, i);
    }
    lemma_nothing_departed(list, candidate_map(known));
    lemma_nothing_arrived(candidate_map(known), list);
}

/// Only entries whose ids have the prefix are ever removed: those that the configuration made are
/// left alone, unless it gave them such an id.
pub proof fn law_other_entries_are_left_alone(senders: Seq<Seq<char>>, id: Seq<char>)
    requires
        !ENTRY_PREFIX@.is_prefix_of(id),
    ensures
        !managed(senders).contains(id),
{
    if managed(senders).contains(id) {
        let s = choose|s: Seq<char>| senders.contains(s) && id == ENTRY_PREFIX@ + s;
        assert((ENTRY_PREFIX@ + s).subrange(0, ENTRY_PREFIX@.len() as int) =~= ENTRY_PREFIX@);
    }
}

} // verus!
