//! The control protocol: what clients set, create and delete, and what they are told.
//!
//! A path is `amixer/{mixer}/{kind}/{id}/{param}` with the kinds `channel` for tracks, `sum` for
//! buses, `master` for masters and `output` for the entries of the output grid.

use vstd::prelude::*;
use vstd::string::*;

use crate::console::config::{BusConfig, MasterTrackConfig, TrackConfig};
use crate::console::dsp::{given, kept, ProcessingStage, StageKind, StageModel, ZERO};
use crate::console::engine::{MixerModel, MixerState};
use crate::console::mixer::{
    chain_model, configured_bus, configured_master, configured_track, lemma_own_keys_insert,
    list_strips, own_keys, strip_list, Bus, BusModel, MasterModel, MasterTrack, PickoffPoint, Send,
    Strip, Track, TrackModel,
};
use crate::console::patch::{
    bus_no_array, feeds_doc, feeds_or_empty, id_value, input_list, master_no_array, output_list,
    output_or_empty, output_refusal, parsed_sum, parsed_track_in, refusal, slots_doc,
    slots_or_empty, sum_refusal, track_in_refusal, InputGridEntry, OutputGridEntry, PatchModel,
    PatchState, World,
};
use crate::console::topology::{
    channels_or, create_bus, create_master, create_track, delete_bus, delete_master, delete_track,
    taken,
};
use crate::json::{
    docs, lemma_field_empty, lemma_field_with, level, no_items, option_view, put_item, whole,
    written, Doc, Json,
};
use crate::single::finite;
use crate::table::{as_map, Key, Table};
use crate::text::{
    dec, decimal, lemma_dec_digits, lemma_dec_value, lemma_pieces_next, lemma_pieces_one,
    parse_unsigned, pieces, same, split, views,
};

verus! {

/// The name of a pickoff point in messages.
pub open spec fn pickoff_name(p: PickoffPoint) -> Seq<char> {
    match p {
        PickoffPoint::PreFader => "pre_fader"@,
        PickoffPoint::PostFader => "post_fader"@,
    }
}

fn pickoff_wire(p: PickoffPoint) -> (r: &'static str)
    ensures
        r@ == pickoff_name(p),
{
    match p {
        PickoffPoint::PreFader => "pre_fader",
        PickoffPoint::PostFader => "post_fader",
    }
}

/// The pickoff point that a message denotes: `pre_fader` is one, everything else the other.
pub open spec fn parsed_pickoff(d: Doc) -> PickoffPoint {
    if d.text() == Some("pre_fader"@) {
        PickoffPoint::PreFader
    } else {
        PickoffPoint::PostFader
    }
}

fn parse_pickoff(v: &Json) -> (r: PickoffPoint)
    ensures
        r == parsed_pickoff(v@),
{
    match v.as_str() {
        Some(s) => if same(s, "pre_fader") {
            PickoffPoint::PreFader
        } else {
            PickoffPoint::PostFader
        },
        None => PickoffPoint::PostFader,
    }
}

/// A send as a message holds it.
pub open spec fn send_doc(s: Send) -> Doc {
    Doc::object().with("bus_id"@, Doc::Number(whole(s.bus_id as u64))).with(
        "on"@,
        Doc::Bool(s.on),
    ).with("level_db"@, level(s.level_db)).with(
        "pickoff"@,
        Doc::Text(pickoff_name(s.pickoff)),
    )
}

/// Sends as a message holds them.
pub open spec fn sends_doc(s: Seq<Send>) -> Doc {
    Doc::Array(s.map_values(|x: Send| send_doc(x)))
}

/// The sends of a track as a message holds them.
pub fn sends_json(sends: &Vec<Send>) -> (r: Json)
    ensures
        r@ == sends_doc(sends@),
{
    let mut items = no_items();
    let ghost want = sends@.map_values(|x: Send| send_doc(x));
    for i in 0..sends.len()
        invariant
            want == sends@.map_values(|x: Send| send_doc(x)),
            docs(items@) == want.take(i as int),
    {
        let s = sends[i];
        let v = Json::new_object().with("bus_id", Json::whole(s.bus_id as u64)).with(
            "on",
            Json::Bool(s.on),
        ).with("level_db", Json::single(s.level_db)).with(
            "pickoff",
            Json::text(pickoff_wire(s.pickoff)),
        );
        put_item(&mut items, v);
        assert(docs(items@) =~= want.take(i + 1));
    }
    assert(docs(items@) =~= want);
    Json::array(items)
}

/// The send that a message denotes, or what is wrong with it.
pub open spec fn parsed_send(d: Doc) -> Result<Send, Seq<char>> {
    match d.unsigned_field("bus_id"@) {
        None => Err("send entry missing 'bus_id'"@),
        Some(bus_id) => Ok(
            Send {
                bus_id: bus_id as u32,
                on: given(d.boolean_field("on"@), true),
                level_db: given(d.single_field("level_db"@), ZERO),
                pickoff: match d.field("pickoff"@) {
                    Some(p) => parsed_pickoff(p),
                    None => PickoffPoint::PostFader,
                },
            },
        ),
    }
}

/// The sends that items denote, or what is wrong with the first that denotes none.
pub open spec fn parsed_send_items(items: Seq<Doc>) -> Result<Seq<Send>, Seq<char>>
    decreases items.len(),
{
    if items.len() == 0 {
        Ok(Seq::empty())
    } else {
        match parsed_send_items(items.drop_last()) {
            Err(e) => Err(e),
            Ok(rest) => match parsed_send(items.last()) {
                Err(e) => Err(e),
                Ok(s) => Ok(rest.push(s)),
            },
        }
    }
}

/// The sends that a message denotes, or what is wrong with it.
pub open spec fn parsed_sends(d: Doc) -> Result<Seq<Send>, Seq<char>> {
    match d.items() {
        None => Err("sends must be an array"@),
        Some(items) => parsed_send_items(items),
    }
}

/// What a result with sends says.
pub open spec fn sends_outcome(r: Result<Vec<Send>, String>) -> Result<Seq<Send>, Seq<char>> {
    match r {
        Ok(v) => Ok(v@),
        Err(e) => Err(e@),
    }
}

proof fn lemma_parsed_sends_prefix(items: Seq<Doc>, k: int)
    requires
        0 <= k <= items.len(),
        parsed_send_items(items.take(k)) is Err,
    ensures
        parsed_send_items(items) == parsed_send_items(items.take(k)),
    decreases items.len(),
{
    if k < items.len() {
        assert(items.drop_last().take(k) =~= items.take(k));
        lemma_parsed_sends_prefix(items.drop_last(), k);
    } else {
        assert(items.take(k) =~= items);
    }
}

fn parse_send(v: &Json) -> (r: Result<Send, String>)
    ensures
        match r {
            Ok(s) => parsed_send(v@) == Ok::<Send, Seq<char>>(s),
            Err(e) => parsed_send(v@) == Err::<Send, Seq<char>>(e@),
        },
{
    let bus_id: u32 = match v.unsigned_field("bus_id") {
        Some(n) => n as u32,
        None => {
            return Err("send entry missing 'bus_id'".to_owned());
        },
    };
    let on: bool = match v.boolean_field("on") {
        Some(b) => b,
        None => true,
    };
    let level_db: u32 = match v.single_field("level_db") {
        Some(x) => x,
        None => ZERO,
    };
    let pickoff = match v.get("pickoff") {
        Some(p) => parse_pickoff(p),
        None => PickoffPoint::PostFader,
    };
    Ok(Send { bus_id, pickoff, on, level_db })
}

/// Reads the sends of a track from a message.
pub fn parse_sends(v: &Json) -> (r: Result<Vec<Send>, String>)
    ensures
        sends_outcome(r) == parsed_sends(v@),
{
    let items = match v.as_array() {
        Some(a) => a,
        None => {
            return Err("sends must be an array".to_owned());
        },
    };
    let ghost all = docs(items@);
    let mut out: Vec<Send> = Vec::new();
    assert(all.take(0) =~= Seq::empty());
    for i in 0..items.len()
        invariant
            all == docs(items@),
            v@.items() == Some(all),
            parsed_send_items(all.take(i as int)) == Ok::<Seq<Send>, Seq<char>>(out@),
    {
        assert(all.take(i + 1).drop_last() =~= all.take(i as int));
        match parse_send(&items[i]) {
            Ok(s) => {
                out.push(s);
            },
            Err(e) => {
                proof {
                    lemma_parsed_sends_prefix(all, i + 1);
                }
                return Err(e);
            },
        }
    }
    assert(all.take(all.len() as int) =~= all);
    Ok(out)
}

/// Sends that were written and are read: a level that is not finite is not written, and reads as
/// unity.
pub open spec fn written_sends(s: Seq<Send>) -> Seq<Send> {
    s.map_values(|x: Send| Send { level_db: kept(x.level_db, ZERO), ..x })
}

/// Whether the levels of sends are finite.
pub open spec fn finite_sends(s: Seq<Send>) -> bool {
    forall|i: int| 0 <= i < s.len() ==> finite((#[trigger] s[i]).level_db)
}

/// Sends that were written into a message are what reading the message gives back, where their
/// levels are finite. Others read as unity.
pub proof fn law_sends_read_back(s: Seq<Send>)
    ensures
        parsed_sends(sends_doc(s)) == Ok::<Seq<Send>, Seq<char>>(written_sends(s)),
        finite_sends(s) ==> parsed_sends(sends_doc(s)) == Ok::<Seq<Send>, Seq<char>>(s),
    decreases s.len(),
{
    assert(finite_sends(s) ==> written_sends(s) =~= s);
    let items = s.map_values(|x: Send| send_doc(x));
    if s.len() == 0 {
        assert(written_sends(s) =~= Seq::empty());
    } else {
        law_sends_read_back(s.drop_last());
        assert(items.drop_last() =~= s.drop_last().map_values(|x: Send| send_doc(x)));
        broadcast use {lemma_field_with, lemma_field_empty};

        reveal_strlit("bus_id");
        reveal_strlit("on");
        reveal_strlit("level_db");
        reveal_strlit("pickoff");
        reveal_strlit("pre_fader");
        reveal_strlit("post_fader");
        assert("bus_id"@.len() == 6 && "on"@.len() == 2 && "level_db"@.len() == 8
            && "pickoff"@.len() == 7 && "pre_fader"@.len() == 9 && "post_fader"@.len() == 10);
        let x = s.last();
        let d = send_doc(x);
        assert(d.unsigned_field("bus_id"@) == Some(x.bus_id as u64));
        assert(d.boolean_field("on"@) == Some(x.on));
        assert(d.single_field("level_db"@) == written(x.level_db));
        assert(d.field("pickoff"@) == Some(Doc::Text(pickoff_name(x.pickoff))));
        let y = Send { level_db: kept(x.level_db, ZERO), ..x };
        assert(parsed_send(d) == Ok::<Send, Seq<char>>(y));
        assert(written_sends(s.drop_last()).push(y) =~= written_sends(s));
    }
}

/// One stage of a chain as a message holds it.
pub open spec fn slot_doc(index: int, s: StageModel) -> Doc {
    Doc::object().with("index"@, Doc::Number(whole(index as u64))).with(
        "kind"@,
        Doc::Text(s.kind().name()),
    ).with("params"@, s.doc())
}

/// A chain as a message holds it.
pub open spec fn chain_doc(chain: Seq<StageModel>) -> Doc {
    Doc::Array(Seq::new(chain.len(), |i: int| slot_doc(i, chain[i])))
}

/// A chain as a message holds it.
pub fn chain_json(chain: &Vec<ProcessingStage>) -> (r: Json)
    ensures
        r@ == chain_doc(chain_model(chain@)),
{
    let mut items = no_items();
    let ghost m = chain_model(chain@);
    let ghost want = Seq::new(m.len(), |i: int| slot_doc(i, m[i]));
    for i in 0..chain.len()
        invariant
            m == chain_model(chain@),
            want == Seq::new(m.len(), |i: int| slot_doc(i, m[i])),
            docs(items@) == want.take(i as int),
    {
        let v = Json::new_object().with("index", Json::whole(i as u64)).with(
            "kind",
            Json::text(chain[i].kind().wire()),
        ).with("params", chain[i].to_json());
        put_item(&mut items, v);
        assert(docs(items@) =~= want.take(i + 1));
    }
    assert(docs(items@) =~= want);
    Json::array(items)
}

/// The place of the `n`-th stage of a kind, counted from zero.
pub open spec fn nth_stage(chain: Seq<StageModel>, kind: StageKind, n: nat) -> Option<int>
    decreases chain.len(),
{
    if chain.len() == 0 {
        None
    } else {
        match nth_stage(chain.drop_last(), kind, n) {
            Some(i) => Some(i),
            None => if chain.last().kind() == kind && of_kind(chain.drop_last(), kind) == n {
                Some(chain.len() - 1)
            } else {
                None
            },
        }
    }
}

/// How many stages of a kind a chain has.
pub open spec fn of_kind(chain: Seq<StageModel>, kind: StageKind) -> nat
    decreases chain.len(),
{
    if chain.len() == 0 {
        0
    } else {
        of_kind(chain.drop_last(), kind) + (if chain.last().kind() == kind {
            1nat
        } else {
            0nat
        })
    }
}

proof fn lemma_nth_prefix(chain: Seq<StageModel>, kind: StageKind, n: nat, k: int)
    requires
        0 <= k <= chain.len(),
        nth_stage(chain.take(k), kind, n) is Some,
    ensures
        nth_stage(chain, kind, n) == nth_stage(chain.take(k), kind, n),
    decreases chain.len(),
{
    if k < chain.len() {
        assert(chain.drop_last().take(k) =~= chain.take(k));
        lemma_nth_prefix(chain.drop_last(), kind, n, k);
    } else {
        assert(chain.take(k) =~= chain);
    }
}

fn find_stage(chain: &Vec<ProcessingStage>, kind: StageKind, n: usize) -> (r: Option<usize>)
    ensures
        match r {
            Some(i) => i < chain@.len() && nth_stage(chain_model(chain@), kind, n as nat) == Some(
                i as int,
            ),
            None => nth_stage(chain_model(chain@), kind, n as nat) is None,
        },
{
    let ghost m = chain_model(chain@);
    let mut seen: usize = 0;
    assert(m.take(0) =~= Seq::empty());
    for i in 0..chain.len()
        invariant
            m == chain_model(chain@),
            seen <= i,
            seen == of_kind(m.take(i as int), kind),
            nth_stage(m.take(i as int), kind, n as nat) is None,
    {
        assert(m.take(i + 1).drop_last() =~= m.take(i as int));
        if chain[i].kind() == kind {
            if seen == n {
                proof {
                    lemma_nth_prefix(m, kind, n as nat, i + 1);
                }
                return Some(i);
            }
            seen += 1;
        }
    }
    assert(m.take(m.len() as int) =~= m);
    None
}

/// The stage that a parameter addresses: its kind, and which one of that kind.
pub open spec fn addressed(param: Seq<char>) -> Option<(StageKind, nat)> {
    if param == "filter"@ {
        Some((StageKind::Filter, 0))
    } else if param == "eq"@ {
        Some((StageKind::Eq, 0))
    } else if param == "dyn1"@ {
        Some((StageKind::Dynamics, 0))
    } else if param == "dyn2"@ {
        Some((StageKind::Dynamics, 1))
    } else if param == "phase"@ {
        Some((StageKind::Phase, 0))
    } else if param == "delay"@ {
        Some((StageKind::Delay, 0))
    } else {
        None
    }
}

fn address(param: &str) -> (r: Option<(StageKind, usize)>)
    ensures
        match r {
            Some((k, n)) => addressed(param@) == Some((k, n as nat)),
            None => addressed(param@) is None,
        },
{
    if same(param, "filter") {
        Some((StageKind::Filter, 0))
    } else if same(param, "eq") {
        Some((StageKind::Eq, 0))
    } else if same(param, "dyn1") {
        Some((StageKind::Dynamics, 0))
    } else if same(param, "dyn2") {
        Some((StageKind::Dynamics, 1))
    } else if same(param, "phase") {
        Some((StageKind::Phase, 0))
    } else if same(param, "delay") {
        Some((StageKind::Delay, 0))
    } else {
        None
    }
}

/// The stage of a chain that a parameter addresses, where the chain has it.
pub open spec fn addressed_stage(chain: Seq<StageModel>, param: Seq<char>) -> Option<int> {
    match addressed(param) {
        Some((kind, n)) => nth_stage(chain, kind, n),
        None => None,
    }
}

/// A chain after a parameter was set: the addressed stage takes the value over.
pub open spec fn put_stage(chain: Seq<StageModel>, param: Seq<char>, d: Doc) -> Seq<StageModel> {
    match addressed_stage(chain, param) {
        Some(i) => chain.update(i, chain[i].applied(d)),
        None => chain,
    }
}

/// Why a parameter that addresses a stage is refused: the chain does not have it.
pub open spec fn stage_refusal(chain: Seq<StageModel>, param: Seq<char>) -> Option<Seq<char>> {
    if addressed(param) is Some && addressed_stage(chain, param) is None {
        Some("stage not present for this resource's ChannelTemplate"@)
    } else {
        None
    }
}

/// The value of a parameter that addresses a stage; null where the chain does not have it.
pub open spec fn stage_value(chain: Seq<StageModel>, param: Seq<char>) -> Doc {
    match addressed_stage(chain, param) {
        Some(i) => chain[i].doc(),
        None => Doc::Null,
    }
}

fn apply_stage(chain: &mut Vec<ProcessingStage>, param: &str, value: &Json) -> (r: Result<
    (),
    String,
>)
    ensures
        refusal(r) == stage_refusal(chain_model(old(chain)@), param@),
        chain_model(final(chain)@) == put_stage(chain_model(old(chain)@), param@, value@),
{
    let ghost was = chain_model(chain@);
    match address(param) {
        Some((kind, n)) => match find_stage(chain, kind, n) {
            Some(i) => {
                let mut stage = chain[i].copy();
                stage.apply(value);
                chain.set(i, stage);
                assert(chain_model(chain@) =~= was.update(i as int, was[i as int].applied(value@)));
                Ok(())
            },
            None => Err("stage not present for this resource's ChannelTemplate".to_owned()),
        },
        None => Ok(()),
    }
}

fn stage_json(chain: &Vec<ProcessingStage>, param: &str) -> (r: Json)
    ensures
        r@ == stage_value(chain_model(chain@), param@),
{
    match address(param) {
        Some((kind, n)) => match find_stage(chain, kind, n) {
            Some(i) => chain[i].to_json(),
            None => Json::Null,
        },
        None => Json::Null,
    }
}

/// What clients are told: the new value at a path.
#[derive(Debug)]
pub struct Update {
    pub path: String,
    pub value: Json,
}

impl View for Update {
    type V = (Seq<char>, Doc);

    open spec fn view(&self) -> (Seq<char>, Doc) {
        (self.path@, self.value@)
    }
}

/// What updates say.
pub open spec fn updates(s: Seq<Update>) -> Seq<(Seq<char>, Doc)> {
    s.map_values(|u: Update| u@)
}

fn publish(out: &mut Vec<Update>, path: String, value: Json)
    ensures
        updates(final(out)@) == updates(old(out)@).push((path@, value@)),
{
    out.push(Update { path, value });
    assert(updates(out@) =~= updates(old(out)@).push((path@, value@)));
}

fn no_updates() -> (r: Vec<Update>)
    ensures
        updates(r@) == Seq::<(Seq<char>, Doc)>::empty(),
{
    let r: Vec<Update> = Vec::new();
    assert(updates(r@) =~= Seq::empty());
    r
}

/// What came of a request: what clients are told, and why the request was refused, where it was.
#[derive(Debug)]
pub struct Handled {
    pub updates: Vec<Update>,
    pub refused: Option<String>,
}

/// What a request does, over the models.
pub struct Effect {
    pub mixer: MixerModel,
    pub updates: Seq<(Seq<char>, Doc)>,
    pub refused: Option<Seq<char>>,
}

impl Effect {
    /// Nothing happens.
    pub open spec fn nothing(m: MixerModel) -> Effect {
        Effect { mixer: m, updates: Seq::empty(), refused: None }
    }
}

/// A path of a strip or a grid entry.
pub open spec fn strip_path(
    mixer_id: u32,
    kind: Seq<char>,
    id: Seq<char>,
    param: Seq<char>,
) -> Seq<char> {
    "amixer/"@ + dec(mixer_id as nat) + "/"@ + kind + "/"@ + id + "/"@ + param
}

fn make_path(mixer_id: u32, kind: &str, id: &str, param: &str) -> (r: String)
    ensures
        r@ == strip_path(mixer_id, kind@, id@, param@),
{
    let mut s = "amixer/".to_owned();
    s.append(decimal(mixer_id as u64).as_str());
    s.append("/");
    s.append(kind);
    s.append("/");
    s.append(id);
    s.append("/");
    s.append(param);
    s
}

/// Whether a path starts with this mixer.
pub open spec fn of_mixer(p: Seq<Seq<char>>, mixer_id: u32) -> bool {
    p.len() >= 2 && p[0] == "amixer"@ && id_value(p[1]) == Some(mixer_id)
}

fn is_of_mixer(parts: &Vec<&str>, mixer_id: u32) -> (r: bool)
    ensures
        r == of_mixer(views(parts@), mixer_id),
{
    if parts.len() < 2 || !same(parts[0], "amixer") {
        return false;
    }
    match parse_unsigned(parts[1], 4294967295) {
        Some(n) => n as u32 == mixer_id,
        None => false,
    }
}

/// The kind, id and parameter that a path names.
pub open spec fn parsed_path(path: Seq<char>, mixer_id: u32) -> Option<
    (Seq<char>, Seq<char>, Seq<char>),
> {
    let p = pieces(path, '/');
    if of_mixer(p, mixer_id) && p.len() >= 5 {
        Some((p[2], p[3], p[4]))
    } else {
        None
    }
}

/// Reads `amixer/{mixer}/{kind}/{id}/{param}`; what follows is ignored.
pub fn parse_path<'a>(path: &'a str, mixer_id: u32) -> (r: Option<(&'a str, &'a str, &'a str)>)
    ensures
        match r {
            Some((k, i, p)) => parsed_path(path@, mixer_id) == Some((k@, i@, p@)),
            None => parsed_path(path@, mixer_id) is None,
        },
{
    let parts = split(path, '/');
    if is_of_mixer(&parts, mixer_id) && parts.len() >= 5 {
        Some((parts[2], parts[3], parts[4]))
    } else {
        None
    }
}

/// The kind that a path for a creation names.
pub open spec fn parsed_create_path(path: Seq<char>, mixer_id: u32) -> Option<Seq<char>> {
    let p = pieces(path, '/');
    if of_mixer(p, mixer_id) && p.len() == 3 {
        Some(p[2])
    } else {
        None
    }
}

/// Reads `amixer/{mixer}/{kind}`.
pub fn parse_create_path<'a>(path: &'a str, mixer_id: u32) -> (r: Option<&'a str>)
    ensures
        match r {
            Some(k) => parsed_create_path(path@, mixer_id) == Some(k@),
            None => parsed_create_path(path@, mixer_id) is None,
        },
{
    let parts = split(path, '/');
    if is_of_mixer(&parts, mixer_id) && parts.len() == 3 {
        Some(parts[2])
    } else {
        None
    }
}

/// The kind and id that a path for a deletion names.
pub open spec fn parsed_delete_path(path: Seq<char>, mixer_id: u32) -> Option<
    (Seq<char>, Seq<char>),
> {
    let p = pieces(path, '/');
    if of_mixer(p, mixer_id) && p.len() == 4 {
        Some((p[2], p[3]))
    } else {
        None
    }
}

/// Reads `amixer/{mixer}/{kind}/{id}`.
pub fn parse_delete_path<'a>(path: &'a str, mixer_id: u32) -> (r: Option<(&'a str, &'a str)>)
    ensures
        match r {
            Some((k, i)) => parsed_delete_path(path@, mixer_id) == Some((k@, i@)),
            None => parsed_delete_path(path@, mixer_id) is None,
        },
{
    let parts = split(path, '/');
    if is_of_mixer(&parts, mixer_id) && parts.len() == 4 {
        Some((parts[2], parts[3]))
    } else {
        None
    }
}

/// A path that was made of parts without slashes reads as those parts.
pub proof fn law_path_reads_back(
    mixer_id: u32,
    kind: Seq<char>,
    id: Seq<char>,
    param: Seq<char>,
)
    requires
        !kind.contains('/'),
        !id.contains('/'),
        !param.contains('/'),
    ensures
        parsed_path(strip_path(mixer_id, kind, id, param), mixer_id) == Some((kind, id, param)),
{
    reveal_strlit("amixer/");
    reveal_strlit("amixer");
    reveal_strlit("/");
    let m = dec(mixer_id as nat);
    lemma_dec_value(mixer_id as nat);
    assert(!m.contains('/')) by {
        if m.contains('/') {
            let i = choose|i: int| 0 <= i < m.len() && m[i] == '/';
            lemma_dec_digits(mixer_id as nat, i);
        }
    }
    let a = "amixer"@;
    assert(!a.contains('/')) by {
        if a.contains('/') {
            let i = choose|i: int| 0 <= i < a.len() && a[i] == '/';
            assert(a[0] == 'a' && a[1] == 'm' && a[2] == 'i' && a[3] == 'x' && a[4] == 'e' && a[5]
                == 'r');
        }
    }
    lemma_pieces_one(a, '/');
    let s1 = a.push('/') + m;
    lemma_pieces_next(a, m, '/');
    let s2 = s1.push('/') + kind;
    lemma_pieces_next(s1, kind, '/');
    let s3 = s2.push('/') + id;
    lemma_pieces_next(s2, id, '/');
    let s4 = s3.push('/') + param;
    lemma_pieces_next(s3, param, '/');
    assert("amixer/"@ =~= a.push('/'));
    assert("amixer/"@ + m + "/"@ =~= s1.push('/'));
    assert("amixer/"@ + m + "/"@ + kind =~= s2);
    assert("amixer/"@ + m + "/"@ + kind + "/"@ =~= s2.push('/'));
    assert("amixer/"@ + m + "/"@ + kind + "/"@ + id =~= s3);
    assert("amixer/"@ + m + "/"@ + kind + "/"@ + id + "/"@ =~= s3.push('/'));
    assert(strip_path(mixer_id, kind, id, param) =~= s4);
    let p = pieces(s4, '/');
    assert(p =~= seq![a].push(m).push(kind).push(id).push(param));
}

/// A track after a parameter was set.
pub open spec fn put_track(t: TrackModel, param: Seq<char>, d: Doc) -> TrackModel {
    if param == "gain"@ {
        TrackModel { gain_db: given(d.single(), t.gain_db), ..t }
    } else if param == "fader"@ {
        TrackModel { fader_db: given(d.single(), t.fader_db), ..t }
    } else if param == "mute"@ {
        TrackModel { mute: given(d.boolean(), t.mute), ..t }
    } else if param == "solo"@ {
        TrackModel { solo: given(d.boolean(), t.solo), ..t }
    } else if param == "sends"@ {
        match parsed_sends(d) {
            Ok(s) => TrackModel { sends: s, ..t },
            Err(_) => t,
        }
    } else if param == "input-patch"@ {
        t
    } else {
        TrackModel { chain: put_stage(t.chain, param, d), ..t }
    }
}

/// The patch that a message sets for a track, or why it is refused.
pub open spec fn accepted_track_in(w: World, id: u32, d: Doc) -> Result<
    Seq<Option<crate::console::patch::RefModel>>,
    Seq<char>,
> {
    match parsed_track_in(d) {
        Err(e) => Err(e),
        Ok(s) => match track_in_refusal(w, id, s) {
            Some(e) => Err(e),
            None => Ok(s),
        },
    }
}

/// The patch that a message sets for a bus or a master, or why it is refused.
pub open spec fn accepted_sum(
    w: World,
    owner: Seq<char>,
    no_array: Seq<char>,
    channels: usize,
    d: Doc,
) -> Result<Seq<Seq<crate::console::patch::RefModel>>, Seq<char>> {
    match parsed_sum(d, no_array) {
        Err(e) => Err(e),
        Ok(s) => match sum_refusal(w, owner, channels, s) {
            Some(e) => Err(e),
            None => Ok(s),
        },
    }
}

/// The patch that a message sets for an output, or why it is refused.
pub open spec fn accepted_output(w: World, channels: usize, d: Doc) -> Result<
    Seq<Option<crate::console::patch::RefModel>>,
    Seq<char>,
> {
    match parsed_track_in(d) {
        Err(e) => Err(e),
        Ok(s) => match output_refusal(w, channels, s) {
            Some(e) => Err(e),
            None => Ok(s),
        },
    }
}

/// The error of a result.
pub open spec fn error_of<T>(r: Result<T, Seq<char>>) -> Option<Seq<char>> {
    match r {
        Ok(_) => None,
        Err(e) => Some(e),
    }
}

/// The patches after one was set for a track, where it was accepted.
pub open spec fn with_track_in(p: PatchModel, w: World, id: u32, d: Doc) -> PatchModel {
    match accepted_track_in(w, id, d) {
        Ok(s) => PatchModel { track_in: p.track_in.insert(id, s), ..p },
        Err(_) => p,
    }
}

/// The patches after one was set for a bus, where it was accepted.
pub open spec fn with_bus_in(p: PatchModel, w: World, id: u32, channels: usize, d: Doc) -> PatchModel {
    match accepted_sum(w, "bus's"@, bus_no_array(), channels, d) {
        Ok(s) => PatchModel { bus_in: p.bus_in.insert(id, s), ..p },
        Err(_) => p,
    }
}

/// The patches after one was set for a master, where it was accepted.
pub open spec fn with_master_in(
    p: PatchModel,
    w: World,
    id: u32,
    channels: usize,
    d: Doc,
) -> PatchModel {
    match accepted_sum(w, "master's"@, master_no_array(), channels, d) {
        Ok(s) => PatchModel { master_in: p.master_in.insert(id, s), ..p },
        Err(_) => p,
    }
}

/// The patches after one was set for an output, where it was accepted.
pub open spec fn with_output(
    p: PatchModel,
    w: World,
    id: Seq<char>,
    channels: usize,
    d: Doc,
) -> PatchModel {
    match accepted_output(w, channels, d) {
        Ok(s) => PatchModel { output: p.output.insert(id, s), ..p },
        Err(_) => p,
    }
}

/// Why setting a parameter of a track is refused.
pub open spec fn put_track_refusal(t: TrackModel, w: World, param: Seq<char>, d: Doc) -> Option<
    Seq<char>,
> {
    if param == "gain"@ || param == "fader"@ || param == "mute"@ || param == "solo"@ {
        None
    } else if param == "sends"@ {
        error_of(parsed_sends(d))
    } else if param == "input-patch"@ {
        error_of(accepted_track_in(w, t.id, d))
    } else {
        stage_refusal(t.chain, param)
    }
}

/// The value of a parameter of a track.
pub open spec fn track_value(t: TrackModel, p: PatchModel, param: Seq<char>) -> Doc {
    if param == "gain"@ {
        level(t.gain_db)
    } else if param == "fader"@ {
        level(t.fader_db)
    } else if param == "mute"@ {
        Doc::Bool(t.mute)
    } else if param == "solo"@ {
        Doc::Bool(t.solo)
    } else if param == "sends"@ {
        sends_doc(t.sends)
    } else if param == "input-patch"@ {
        slots_doc(slots_or_empty(p.track_in, t.id, t.channels))
    } else {
        stage_value(t.chain, param)
    }
}

/// The value of a parameter of a track.
pub fn current_track_value(track: &Track, patch: &PatchState, param: &str) -> (r: Json)
    requires
        patch.wf(),
    ensures
        r@ == track_value(track@, patch@, param@),
{
    if same(param, "gain") {
        Json::single(track.gain_db)
    } else if same(param, "fader") {
        Json::single(track.fader_db)
    } else if same(param, "mute") {
        Json::Bool(track.mute)
    } else if same(param, "solo") {
        Json::Bool(track.solo)
    } else if same(param, "sends") {
        sends_json(&track.sends)
    } else if same(param, "input-patch") {
        patch.track_in_json(track.id, track.channels)
    } else {
        stage_json(&track.chain, param)
    }
}

fn set_track_param(t: &mut Track, param: &str, value: &Json) -> (r: Result<(), String>)
    requires
        param@ != "input-patch"@,
    ensures
        final(t)@ == put_track(old(t)@, param@, value@),
        forall|w: World| refusal(r) == #[trigger] put_track_refusal(old(t)@, w, param@, value@),
{
    if same(param, "gain") {
        if let Some(v) = value.as_single() {
            t.gain_db = v;
        }
        Ok(())
    } else if same(param, "fader") {
        if let Some(v) = value.as_single() {
            t.fader_db = v;
        }
        Ok(())
    } else if same(param, "mute") {
        if let Some(v) = value.as_bool() {
            t.mute = v;
        }
        Ok(())
    } else if same(param, "solo") {
        if let Some(v) = value.as_bool() {
            t.solo = v;
        }
        Ok(())
    } else if same(param, "sends") {
        match parse_sends(value) {
            Ok(s) => {
                t.sends = s;
                Ok(())
            },
            Err(e) => Err(e),
        }
    } else {
        apply_stage(&mut t.chain, param, value)
    }
}

/// Sets a parameter of a track. What is malformed or refused changes nothing.
pub fn apply_track_param(mixer: &mut MixerState, id: u32, param: &str, value: &Json) -> (r: Result<
    (),
    String,
>)
    requires
        old(mixer).wf(),
        old(mixer)@.tracks.contains_key(id),
    ensures
        final(mixer).wf(),
        refusal(r) == put_track_refusal(
            old(mixer)@.tracks[id],
            old(mixer).world(),
            param@,
            value@,
        ),
        final(mixer)@ == (MixerModel {
            tracks: old(mixer)@.tracks.insert(
                id,
                put_track(old(mixer)@.tracks[id], param@, value@),
            ),
            patch: if param@ == "input-patch"@ {
                with_track_in(old(mixer)@.patch, old(mixer).world(), id, value@)
            } else {
                old(mixer)@.patch
            },
            ..old(mixer)@
        }),
{
    let ghost was = mixer@;
    let ghost before = mixer.tracks.list();
    proof {
        lemma_strip_number(mixer.tracks, id);
        reveal_strlit("gain");
        reveal_strlit("fader");
        reveal_strlit("mute");
        reveal_strlit("solo");
        reveal_strlit("sends");
        reveal_strlit("input-patch");
        assert("input-patch"@.len() == 11 && "gain"@.len() == 4 && "fader"@.len() == 5
            && "mute"@.len() == 4 && "solo"@.len() == 4 && "sends"@.len() == 5);
    }
    if same(param, "input-patch") {
        assert(was.tracks.insert(id, was.tracks[id]) =~= was.tracks);
        let patch = match PatchState::parse_track_in(value) {
            Ok(p) => p,
            Err(e) => {
                return Err(e);
            },
        };
        let tracks = mixer.track_channels();
        let buses = mixer.bus_channels();
        let masters = mixer.master_channels();
        return mixer.patch.set_track_in(
            tracks.as_slice(),
            buses.as_slice(),
            masters.as_slice(),
            &mixer.input_grid,
            id,
            patch,
        );
    }
    match mixer.tracks.remove(&id) {
        Some(t) => {
            let mut t = t;
            let r = set_track_param(&mut t, param, value);
            proof {
                assert(as_map(before).remove(id).insert(id, t) =~= as_map(before).insert(id, t));
            }
            assert(t.number() == id);
            mixer.tracks.insert(id, t);
            proof {
                lemma_own_keys_insert(before, mixer.tracks.list(), t);
                assert(mixer@.tracks =~= was.tracks.insert(id, t@));
            }
            r
        },
        None => Ok(()),
    }
}

proof fn lemma_strip_number<S: Strip>(t: Table<u32, S>, id: u32)
    requires
        t.wf(),
        own_keys(t.list()),
        t@.contains_key(id),
    ensures
        t@[id].number() == id,
{
    let i = crate::table::lemma_from_map(t.list(), id);
}

/// Sets a parameter of a bus: it has only its patch. What is malformed or refused changes nothing.
pub fn apply_bus_param(mixer: &mut MixerState, id: u32, param: &str, value: &Json) -> (r: Result<
    (),
    String,
>)
    requires
        old(mixer).wf(),
        old(mixer)@.buses.contains_key(id),
    ensures
        final(mixer).wf(),
        param@ != "input-patch"@ ==> r is Ok && final(mixer)@ == old(mixer)@,
        param@ == "input-patch"@ ==> {
            let channels = old(mixer)@.buses[id].channels;
            &&& refusal(r) == error_of(
                accepted_sum(old(mixer).world(), "bus's"@, bus_no_array(), channels, value@),
            )
            &&& final(mixer)@ == (MixerModel {
                patch: with_bus_in(
                    old(mixer)@.patch,
                    old(mixer).world(),
                    id,
                    channels,
                    value@,
                ),
                ..old(mixer)@
            })
        },
{
    if !same(param, "input-patch") {
        return Ok(());
    }
    let patch = match PatchState::parse_bus_in(value) {
        Ok(p) => p,
        Err(e) => {
            return Err(e);
        },
    };
    let tracks = mixer.track_channels();
    let buses = mixer.bus_channels();
    let masters = mixer.master_channels();
    match mixer.buses.get(&id) {
        Some(bus) => mixer.patch.set_bus_in(
            tracks.as_slice(),
            buses.as_slice(),
            masters.as_slice(),
            &mixer.input_grid,
            id,
            bus.channels,
            patch,
        ),
        None => Ok(()),
    }
}

/// The value of a parameter of a bus.
pub open spec fn bus_value(b: BusModel, p: PatchModel, param: Seq<char>) -> Doc {
    if param == "input-patch"@ {
        feeds_doc(feeds_or_empty(p.bus_in, b.id, b.channels))
    } else {
        Doc::Null
    }
}

/// The value of a parameter of a bus.
pub fn current_bus_value(bus: &Bus, patch: &PatchState, param: &str) -> (r: Json)
    requires
        patch.wf(),
    ensures
        r@ == bus_value(bus@, patch@, param@),
{
    if same(param, "input-patch") {
        patch.bus_in_json(bus.id, bus.channels)
    } else {
        Json::Null
    }
}

/// A master after a parameter was set.
pub open spec fn put_master(m: MasterModel, param: Seq<char>, d: Doc) -> MasterModel {
    if param == "fader"@ {
        MasterModel { fader_db: given(d.single(), m.fader_db), ..m }
    } else if param == "mute"@ {
        MasterModel { mute: given(d.boolean(), m.mute), ..m }
    } else if param == "input-patch"@ {
        m
    } else {
        MasterModel { chain: put_stage(m.chain, param, d), ..m }
    }
}

/// Why setting a parameter of a master is refused.
pub open spec fn put_master_refusal(m: MasterModel, w: World, param: Seq<char>, d: Doc) -> Option<
    Seq<char>,
> {
    if param == "fader"@ || param == "mute"@ {
        None
    } else if param == "input-patch"@ {
        error_of(accepted_sum(w, "master's"@, master_no_array(), m.channels, d))
    } else {
        stage_refusal(m.chain, param)
    }
}

/// The value of a parameter of a master.
pub open spec fn master_value(m: MasterModel, p: PatchModel, param: Seq<char>) -> Doc {
    if param == "fader"@ {
        level(m.fader_db)
    } else if param == "mute"@ {
        Doc::Bool(m.mute)
    } else if param == "input-patch"@ {
        feeds_doc(feeds_or_empty(p.master_in, m.id, m.channels))
    } else {
        stage_value(m.chain, param)
    }
}

/// The value of a parameter of a master.
pub fn current_master_value(master: &MasterTrack, patch: &PatchState, param: &str) -> (r: Json)
    requires
        patch.wf(),
    ensures
        r@ == master_value(master@, patch@, param@),
{
    if same(param, "fader") {
        Json::single(master.fader_db)
    } else if same(param, "mute") {
        Json::Bool(master.mute)
    } else if same(param, "input-patch") {
        patch.master_in_json(master.id, master.channels)
    } else {
        stage_json(&master.chain, param)
    }
}

fn set_master_param(m: &mut MasterTrack, param: &str, value: &Json) -> (r: Result<(), String>)
    requires
        param@ != "input-patch"@,
    ensures
        final(m)@ == put_master(old(m)@, param@, value@),
        forall|w: World| refusal(r) == #[trigger] put_master_refusal(old(m)@, w, param@, value@),
{
    if same(param, "fader") {
        if let Some(v) = value.as_single() {
            m.fader_db = v;
        }
        Ok(())
    } else if same(param, "mute") {
        if let Some(v) = value.as_bool() {
            m.mute = v;
        }
        Ok(())
    } else {
        apply_stage(&mut m.chain, param, value)
    }
}

/// Sets a parameter of a master. What is malformed or refused changes nothing.
pub fn apply_master_param(mixer: &mut MixerState, id: u32, param: &str, value: &Json) -> (r: Result<
    (),
    String,
>)
    requires
        old(mixer).wf(),
        old(mixer)@.masters.contains_key(id),
    ensures
        final(mixer).wf(),
        refusal(r) == put_master_refusal(
            old(mixer)@.masters[id],
            old(mixer).world(),
            param@,
            value@,
        ),
        final(mixer)@ == (MixerModel {
            masters: old(mixer)@.masters.insert(
                id,
                put_master(old(mixer)@.masters[id], param@, value@),
            ),
            patch: if param@ == "input-patch"@ {
                with_master_in(
                    old(mixer)@.patch,
                    old(mixer).world(),
                    id,
                    old(mixer)@.masters[id].channels,
                    value@,
                )
            } else {
                old(mixer)@.patch
            },
            ..old(mixer)@
        }),
{
    let ghost was = mixer@;
    let ghost before = mixer.masters.list();
    proof {
        lemma_strip_number(mixer.masters, id);
        reveal_strlit("fader");
        reveal_strlit("mute");
        reveal_strlit("input-patch");
        assert("input-patch"@.len() == 11 && "fader"@.len() == 5 && "mute"@.len() == 4);
    }
    if same(param, "input-patch") {
        assert(was.masters.insert(id, was.masters[id]) =~= was.masters);
        let patch = match PatchState::parse_master_in(value) {
            Ok(p) => p,
            Err(e) => {
                return Err(e);
            },
        };
        let tracks = mixer.track_channels();
        let buses = mixer.bus_channels();
        let masters = mixer.master_channels();
        return match mixer.masters.get(&id) {
            Some(master) => mixer.patch.set_master_in(
                tracks.as_slice(),
                buses.as_slice(),
                masters.as_slice(),
                &mixer.input_grid,
                id,
                master.channels,
                patch,
            ),
            None => Ok(()),
        };
    }
    match mixer.masters.remove(&id) {
        Some(m) => {
            let mut m = m;
            let r = set_master_param(&mut m, param, value);
            proof {
                assert(as_map(before).remove(id).insert(id, m) =~= as_map(before).insert(id, m));
            }
            assert(m.number() == id);
            mixer.masters.insert(id, m);
            proof {
                lemma_own_keys_insert(before, mixer.masters.list(), m);
                assert(mixer@.masters =~= was.masters.insert(id, m@));
            }
            r
        },
        None => Ok(()),
    }
}

fn apply_output_patch(mixer: &mut MixerState, id: &str, value: &Json) -> (r: Result<(), String>)
    requires
        old(mixer).wf(),
        old(mixer)@.outputs.contains_key(id@),
    ensures
        final(mixer).wf(),
        refusal(r) == error_of(
            accepted_output(
                old(mixer).world(),
                old(mixer)@.outputs[id@].channels,
                value@,
            ),
        ),
        final(mixer)@ == (MixerModel {
            patch: with_output(
                old(mixer)@.patch,
                old(mixer).world(),
                id@,
                old(mixer)@.outputs[id@].channels,
                value@,
            ),
            ..old(mixer)@
        }),
{
    let patch = match PatchState::parse_track_in(value) {
        Ok(p) => p,
        Err(e) => {
            return Err(e);
        },
    };
    let tracks = mixer.track_channels();
    let buses = mixer.bus_channels();
    let masters = mixer.master_channels();
    match mixer.output_grid.get(id) {
        Some(entry) => mixer.patch.set_output(
            tracks.as_slice(),
            buses.as_slice(),
            masters.as_slice(),
            &mixer.input_grid,
            id,
            entry.channels,
            patch,
        ),
        None => Ok(()),
    }
}

/// What setting a parameter of a track does.
pub open spec fn put_channel(
    m: MixerModel,
    w: World,
    mixer_id: u32,
    id: u32,
    param: Seq<char>,
    d: Doc,
) -> Effect {
    let t = put_track(m.tracks[id], param, d);
    let patch = if param == "input-patch"@ {
        with_track_in(m.patch, w, id, d)
    } else {
        m.patch
    };
    Effect {
        mixer: MixerModel { tracks: m.tracks.insert(id, t), patch, ..m },
        updates: seq![
            (
                strip_path(mixer_id, "channel"@, dec(id as nat), param),
                track_value(t, patch, param),
            ),
        ],
        refused: put_track_refusal(m.tracks[id], w, param, d),
    }
}

/// What setting a parameter of a bus does.
pub open spec fn put_sum(
    m: MixerModel,
    w: World,
    path: Seq<char>,
    id: u32,
    param: Seq<char>,
    d: Doc,
) -> Effect {
    let b = m.buses[id];
    let patch = if param == "input-patch"@ {
        with_bus_in(m.patch, w, id, b.channels, d)
    } else {
        m.patch
    };
    Effect {
        mixer: MixerModel { patch, ..m },
        updates: seq![(path, bus_value(b, patch, param))],
        refused: if param == "input-patch"@ {
            error_of(accepted_sum(w, "bus's"@, bus_no_array(), b.channels, d))
        } else {
            None
        },
    }
}

/// What setting a parameter of a master does.
pub open spec fn put_master_param(
    m: MixerModel,
    w: World,
    path: Seq<char>,
    id: u32,
    param: Seq<char>,
    d: Doc,
) -> Effect {
    let s = put_master(m.masters[id], param, d);
    let patch = if param == "input-patch"@ {
        with_master_in(m.patch, w, id, m.masters[id].channels, d)
    } else {
        m.patch
    };
    Effect {
        mixer: MixerModel { masters: m.masters.insert(id, s), patch, ..m },
        updates: seq![(path, master_value(s, patch, param))],
        refused: put_master_refusal(m.masters[id], w, param, d),
    }
}

/// What setting the patch of an output does.
pub open spec fn put_output(m: MixerModel, w: World, path: Seq<char>, id: Seq<char>, d: Doc) -> Effect {
    let channels = m.outputs[id].channels;
    let patch = with_output(m.patch, w, id, channels, d);
    Effect {
        mixer: MixerModel { patch, ..m },
        updates: seq![(path, slots_doc(output_or_empty(patch.output, id, channels)))],
        refused: error_of(accepted_output(w, channels, d)),
    }
}

/// What setting a value at a path does.
pub open spec fn put(
    m: MixerModel,
    w: World,
    mixer_id: u32,
    path: Seq<char>,
    value: Option<Doc>,
) -> Effect {
    match (value, parsed_path(path, mixer_id)) {
        (Some(d), Some((kind, id, param))) => if kind == "channel"@ {
            match id_value(id) {
                Some(n) => if m.tracks.contains_key(n) {
                    put_channel(m, w, mixer_id, n, param, d)
                } else {
                    Effect::nothing(m)
                },
                None => Effect::nothing(m),
            }
        } else if kind == "sum"@ {
            match id_value(id) {
                Some(n) => if m.buses.contains_key(n) {
                    put_sum(m, w, path, n, param, d)
                } else {
                    Effect::nothing(m)
                },
                None => Effect::nothing(m),
            }
        } else if kind == "master"@ {
            match id_value(id) {
                Some(n) => if m.masters.contains_key(n) {
                    put_master_param(m, w, path, n, param, d)
                } else {
                    Effect::nothing(m)
                },
                None => Effect::nothing(m),
            }
        } else if kind == "output"@ {
            if m.outputs.contains_key(id) && param == "patch"@ {
                put_output(m, w, path, id, d)
            } else {
                Effect::nothing(m)
            }
        } else {
            Effect::nothing(m)
        },
        _ => Effect::nothing(m),
    }
}

/// A request that is refused changes nothing.
pub proof fn law_refused_request_changes_nothing(
    m: MixerModel,
    w: World,
    mixer_id: u32,
    path: Seq<char>,
    value: Option<Doc>,
)
    requires
        forall|id: u32| #[trigger] m.tracks.contains_key(id) ==> m.tracks[id].id == id,
    ensures
        put(m, w, mixer_id, path, value).refused is Some ==> put(m, w, mixer_id, path, value).mixer
            == m,
{
    reveal_strlit("channel");
    reveal_strlit("sum");
    reveal_strlit("master");
    reveal_strlit("sends");
    reveal_strlit("input-patch");
    assert("channel"@.len() == 7 && "sum"@.len() == 3 && "master"@.len() == 6);
    assert("sends"@.len() == 5 && "input-patch"@.len() == 11);
    let e = put(m, w, mixer_id, path, value);
    if let (Some(d), Some((kind, id, param))) = (value, parsed_path(path, mixer_id)) {
        if e.refused is Some {
            if let Some(n) = id_value(id) {
                if kind == "channel"@ {
                    assert(put_track(m.tracks[n], param, d) == m.tracks[n]);
                    assert(m.tracks.insert(n, m.tracks[n]) =~= m.tracks);
                } else if kind == "master"@ {
                    assert(put_master(m.masters[n], param, d) == m.masters[n]);
                    assert(m.masters.insert(n, m.masters[n]) =~= m.masters);
                }
            }
        }
    }
}

/// Whether a path names a strip by its number.
pub open spec fn names_strip(path: Seq<char>, mixer_id: u32, number: u32) -> bool {
    match parsed_path(path, mixer_id) {
        Some((_, id, _)) => id_value(id) == Some(number),
        None => false,
    }
}

/// A request touches no strip but the one that its path names, and none comes or goes.
pub proof fn law_request_touches_one_strip(
    m: MixerModel,
    w: World,
    mixer_id: u32,
    path: Seq<char>,
    value: Option<Doc>,
    other: u32,
)
    ensures
        ({
            let now = put(m, w, mixer_id, path, value).mixer;
            &&& now.tracks.dom() == m.tracks.dom()
            &&& now.masters.dom() == m.masters.dom()
            &&& now.buses == m.buses
            &&& m.tracks.contains_key(other) && !names_strip(path, mixer_id, other)
                ==> now.tracks[other] == m.tracks[other]
            &&& m.masters.contains_key(other) && !names_strip(path, mixer_id, other)
                ==> now.masters[other] == m.masters[other]
        }),
{
    let now = put(m, w, mixer_id, path, value).mixer;
    assert(now.tracks.dom() =~= m.tracks.dom());
    assert(now.masters.dom() =~= m.masters.dom());
}

fn ignored() -> (r: Handled)
    ensures
        updates(r.updates@) == Seq::<(Seq<char>, Doc)>::empty(),
        r.refused is None,
{
    Handled { updates: no_updates(), refused: None }
}

fn one_update(path: String, value: Json, outcome: Result<(), String>) -> (r: Handled)
    ensures
        updates(r.updates@) == seq![(path@, value@)],
        option_view(r.refused) == refusal(outcome),
{
    let mut out = no_updates();
    publish(&mut out, path, value);
    assert(updates(out@) =~= seq![(path@, value@)]);
    let refused = match outcome {
        Ok(_) => None,
        Err(e) => Some(e),
    };
    Handled { updates: out, refused }
}

fn read_number(s: &str) -> (r: Option<u32>)
    ensures
        r == id_value(s@),
{
    match parse_unsigned(s, 4294967295) {
        Some(n) => Some(n as u32),
        None => None,
    }
}

fn put_on_track(
    mixer: &mut MixerState,
    mixer_id: u32,
    id: u32,
    param: &str,
    value: &Json,
) -> (r: Handled)
    requires
        old(mixer).wf(),
        old(mixer)@.tracks.contains_key(id),
    ensures
        final(mixer).wf(),
        ({
            let e = put_channel(old(mixer)@, old(mixer).world(), mixer_id, id, param@, value@);
            final(mixer)@ == e.mixer && updates(r.updates@) == e.updates && option_view(r.refused)
                == e.refused
        }),
{
    let outcome = apply_track_param(mixer, id, param, value);
    let path = make_path(mixer_id, "channel", decimal(id as u64).as_str(), param);
    assert(mixer@.tracks.contains_key(id));
    assert(mixer.tracks@.contains_key(id));
    assert(mixer@.tracks[id] == mixer.tracks@[id]@);
    let now = match mixer.tracks.get(&id) {
        Some(t) => current_track_value(t, &mixer.patch, param),
        None => Json::Null,
    };
    one_update(path, now, outcome)
}

fn put_on_bus(mixer: &mut MixerState, path: &str, id: u32, param: &str, value: &Json) -> (r: Handled)
    requires
        old(mixer).wf(),
        old(mixer)@.buses.contains_key(id),
    ensures
        final(mixer).wf(),
        ({
            let e = put_sum(old(mixer)@, old(mixer).world(), path@, id, param@, value@);
            final(mixer)@ == e.mixer && updates(r.updates@) == e.updates && option_view(r.refused)
                == e.refused
        }),
{
    let outcome = apply_bus_param(mixer, id, param, value);
    let now = match mixer.buses.get(&id) {
        Some(b) => current_bus_value(b, &mixer.patch, param),
        None => Json::Null,
    };
    one_update(path.to_owned(), now, outcome)
}

fn put_on_master(
    mixer: &mut MixerState,
    path: &str,
    id: u32,
    param: &str,
    value: &Json,
) -> (r: Handled)
    requires
        old(mixer).wf(),
        old(mixer)@.masters.contains_key(id),
    ensures
        final(mixer).wf(),
        ({
            let e = put_master_param(old(mixer)@, old(mixer).world(), path@, id, param@, value@);
            final(mixer)@ == e.mixer && updates(r.updates@) == e.updates && option_view(r.refused)
                == e.refused
        }),
{
    let outcome = apply_master_param(mixer, id, param, value);
    assert(mixer@.masters.contains_key(id));
    assert(mixer.masters@.contains_key(id));
    assert(mixer@.masters[id] == mixer.masters@[id]@);
    let now = match mixer.masters.get(&id) {
        Some(m) => current_master_value(m, &mixer.patch, param),
        None => Json::Null,
    };
    one_update(path.to_owned(), now, outcome)
}

fn put_on_output(mixer: &mut MixerState, path: &str, id: &str, value: &Json) -> (r: Handled)
    requires
        old(mixer).wf(),
        old(mixer)@.outputs.contains_key(id@),
    ensures
        final(mixer).wf(),
        ({
            let e = put_output(old(mixer)@, old(mixer).world(), path@, id@, value@);
            final(mixer)@ == e.mixer && updates(r.updates@) == e.updates && option_view(r.refused)
                == e.refused
        }),
{
    let outcome = apply_output_patch(mixer, id, value);
    let now = match mixer.output_grid.get(id) {
        Some(e) => mixer.patch.output_json(id, e.channels),
        None => Json::Null,
    };
    one_update(path.to_owned(), now, outcome)
}

/// Sets the value at a path. A path of another mixer, of a strip that does not exist or of an
/// unknown kind does nothing.
pub fn handle_put(mixer: &mut MixerState, mixer_id: u32, path: &str, value: Option<&Json>) -> (r:
    Handled)
    requires
        old(mixer).wf(),
    ensures
        final(mixer).wf(),
        ({
            let e = put(
                old(mixer)@,
                old(mixer).world(),
                mixer_id,
                path@,
                match value {
                    Some(v) => Some(v@),
                    None => None,
                },
            );
            final(mixer)@ == e.mixer && updates(r.updates@) == e.updates && option_view(r.refused)
                == e.refused
        }),
{
    let value = match value {
        Some(v) => v,
        None => {
            return ignored();
        },
    };
    let (kind, id, param) = match parse_path(path, mixer_id) {
        Some(p) => p,
        None => {
            return ignored();
        },
    };
    if same(kind, "channel") {
        if let Some(n) = read_number(id) {
            if mixer.tracks.contains_key(&n) {
                return put_on_track(mixer, mixer_id, n, param, value);
            }
        }
    } else if same(kind, "sum") {
        if let Some(n) = read_number(id) {
            if mixer.buses.contains_key(&n) {
                return put_on_bus(mixer, path, n, param, value);
            }
        }
    } else if same(kind, "master") {
        if let Some(n) = read_number(id) {
            if mixer.masters.contains_key(&n) {
                return put_on_master(mixer, path, n, param, value);
            }
        }
    } else if same(kind, "output") {
        if mixer.output_grid.get(id).is_some() && same(param, "patch") {
            return put_on_output(mixer, path, id, value);
        }
    }
    ignored()
}

/// A path of the mixer itself.
pub open spec fn mixer_path(mixer_id: u32, param: Seq<char>) -> Seq<char> {
    "amixer/"@ + dec(mixer_id as nat) + "/"@ + param
}

fn make_mixer_path(mixer_id: u32, param: &str) -> (r: String)
    ensures
        r@ == mixer_path(mixer_id, param@),
{
    let mut s = "amixer/".to_owned();
    s.append(decimal(mixer_id as u64).as_str());
    s.append("/");
    s.append(param);
    s
}

/// The lists of tracks, buses and masters, each in the order of the numbers.
pub open spec fn lists(mixer: MixerState, mixer_id: u32) -> Seq<(Seq<char>, Doc)> {
    Seq::empty().push(
        (mixer_path(mixer_id, "channel-list"@), Doc::Array(strip_list(mixer.tracks.list()))),
    ).push((mixer_path(mixer_id, "sum-list"@), Doc::Array(strip_list(mixer.buses.list())))).push(
        (mixer_path(mixer_id, "master-list"@), Doc::Array(strip_list(mixer.masters.list()))),
    )
}

fn publish_lists(out: &mut Vec<Update>, mixer: &MixerState, mixer_id: u32)
    ensures
        updates(final(out)@) == updates(old(out)@) + lists(*mixer, mixer_id),
{
    publish(out, make_mixer_path(mixer_id, "channel-list"), list_strips(&mixer.tracks));
    publish(out, make_mixer_path(mixer_id, "sum-list"), list_strips(&mixer.buses));
    publish(out, make_mixer_path(mixer_id, "master-list"), list_strips(&mixer.masters));
    assert(updates(out@) =~= updates(old(out)@) + lists(*mixer, mixer_id));
}

fn only_lists(mixer: &MixerState, mixer_id: u32) -> (r: Handled)
    ensures
        updates(r.updates@) == lists(*mixer, mixer_id),
        r.refused is None,
{
    let mut out = no_updates();
    publish_lists(&mut out, mixer, mixer_id);
    assert(updates(out@) =~= lists(*mixer, mixer_id));
    Handled { updates: out, refused: None }
}

/// A kind of strip that clients create and delete.
#[derive(Clone, Copy, Debug, PartialEq, Eq, Structural)]
pub enum StripKind {
    Channel,
    Sum,
    Master,
}

/// The kind that a name denotes.
pub open spec fn named_kind(s: Seq<char>) -> Option<StripKind> {
    if s == "channel"@ {
        Some(StripKind::Channel)
    } else if s == "sum"@ {
        Some(StripKind::Sum)
    } else if s == "master"@ {
        Some(StripKind::Master)
    } else {
        None
    }
}

fn read_kind(s: &str) -> (r: Option<StripKind>)
    ensures
        r == named_kind(s@),
{
    if same(s, "channel") {
        Some(StripKind::Channel)
    } else if same(s, "sum") {
        Some(StripKind::Sum)
    } else if same(s, "master") {
        Some(StripKind::Master)
    } else {
        None
    }
}

/// What a client asks for.
#[derive(Debug)]
pub enum Request<'a> {
    Nothing,
    /// Set the value at a path.
    Put { path: &'a str, value: Option<&'a Json> },
    /// Create a strip of a kind as the value describes it.
    Create { kind: StripKind, described: &'a Json },
    /// Delete the strip at a path.
    Delete { path: &'a str },
}

/// What a client asks for, over the models.
pub enum RequestModel {
    Nothing,
    Put { path: Seq<char>, value: Option<Doc> },
    Create { kind: StripKind, described: Doc },
    Delete { path: Seq<char> },
}

impl<'a> View for Request<'a> {
    type V = RequestModel;

    open spec fn view(&self) -> RequestModel {
        match *self {
            Request::Nothing => RequestModel::Nothing,
            Request::Put { path, value } => RequestModel::Put {
                path: path@,
                value: match value {
                    Some(v) => Some(v@),
                    None => None,
                },
            },
            Request::Create { kind, described } => RequestModel::Create { kind, described: described@ },
            Request::Delete { path } => RequestModel::Delete { path: path@ },
        }
    }
}

/// What a message asks for: `PUT`, `CREATE` or `DELETE`. Watching needs nothing to be done, and
/// everything else is ignored.
pub open spec fn requested(d: Doc, mixer_id: u32) -> RequestModel {
    let op = given(d.text_field("op"@), Seq::empty());
    let path = given(d.text_field("path"@), Seq::empty());
    if op == "PUT"@ {
        RequestModel::Put { path, value: d.field("value"@) }
    } else if op == "CREATE"@ {
        match (d.field("value"@), parsed_create_path(path, mixer_id)) {
            (Some(value), Some(kind)) => match named_kind(kind) {
                Some(kind) => RequestModel::Create { kind, described: value },
                None => RequestModel::Nothing,
            },
            _ => RequestModel::Nothing,
        }
    } else if op == "DELETE"@ {
        RequestModel::Delete { path }
    } else {
        RequestModel::Nothing
    }
}

/// Reads what a message asks for.
pub fn read_request<'a>(cmd: &'a Json, mixer_id: u32) -> (r: Request<'a>)
    ensures
        r@ == requested(cmd@, mixer_id),
{
    proof {
        reveal_strlit("");
        assert(""@ =~= Seq::<char>::empty());
    }
    let op = match cmd.text_field("op") {
        Some(s) => s,
        None => "",
    };
    let path = match cmd.text_field("path") {
        Some(s) => s,
        None => "",
    };
    if same(op, "PUT") {
        Request::Put { path, value: cmd.get("value") }
    } else if same(op, "CREATE") {
        match (cmd.get("value"), parse_create_path(path, mixer_id)) {
            (Some(value), Some(kind)) => match read_kind(kind) {
                Some(kind) => Request::Create { kind, described: value },
                None => Request::Nothing,
            },
            _ => Request::Nothing,
        }
    } else if same(op, "DELETE") {
        Request::Delete { path }
    } else {
        Request::Nothing
    }
}

/// What a client wants to be created.
#[derive(Debug)]
pub enum NewStrip {
    Channel(TrackConfig),
    Sum(BusConfig),
    Master(MasterTrackConfig),
}

/// The mixer after a strip was created, or why it was not.
pub open spec fn created(m: MixerModel, new: NewStrip) -> Result<MixerModel, Seq<char>> {
    match new {
        NewStrip::Channel(cfg) => if m.tracks.contains_key(cfg.id) {
            Err(taken("track"@, cfg.id))
        } else {
            Ok(
                m.with_track(
                    configured_track(cfg, channels_or(cfg.channels, m.default_channels), true),
                ),
            )
        },
        NewStrip::Sum(cfg) => if m.buses.contains_key(cfg.id) {
            Err(taken("bus"@, cfg.id))
        } else {
            Ok(
                m.with_bus(
                    configured_bus(cfg, channels_or(cfg.channels, m.default_channels), true),
                ),
            )
        },
        NewStrip::Master(cfg) => if m.masters.contains_key(cfg.id) {
            Err(taken("master"@, cfg.id))
        } else {
            Ok(
                m.with_master(
                    configured_master(cfg, channels_or(cfg.channels, m.default_channels), true),
                ),
            )
        },
    }
}

/// Creates a strip. Clients are told the lists at once; a refusal they are not told.
pub fn handle_create(mixer: &mut MixerState, mixer_id: u32, new: &NewStrip) -> (r: Handled)
    requires
        old(mixer).wf(),
    ensures
        final(mixer).wf(),
        match created(old(mixer)@, *new) {
            Ok(m) => final(mixer)@ == m && r.refused is None && updates(r.updates@) == lists(
                *final(mixer),
                mixer_id,
            ),
            Err(e) => final(mixer)@ == old(mixer)@ && option_view(r.refused) == Some(e) && updates(
                r.updates@,
            ) == Seq::<(Seq<char>, Doc)>::empty(),
        },
{
    let outcome: Result<(), String> = match new {
        NewStrip::Channel(cfg) => match create_track(mixer, cfg) {
            Ok(_) => Ok(()),
            Err(e) => Err(e),
        },
        NewStrip::Sum(cfg) => create_bus(mixer, cfg),
        NewStrip::Master(cfg) => create_master(mixer, cfg),
    };
    match outcome {
        Ok(_) => only_lists(mixer, mixer_id),
        Err(e) => Handled { updates: no_updates(), refused: Some(e) },
    }
}

/// The mixer after the strip at a path was deleted, where there is one.
pub open spec fn deleted(m: MixerModel, mixer_id: u32, path: Seq<char>) -> Option<MixerModel> {
    match parsed_delete_path(path, mixer_id) {
        Some((kind, id)) => match (named_kind(kind), id_value(id)) {
            (Some(StripKind::Channel), Some(n)) => if m.tracks.contains_key(n) {
                Some(m.without_track(n))
            } else {
                None
            },
            (Some(StripKind::Sum), Some(n)) => if m.buses.contains_key(n) {
                Some(m.without_bus(n))
            } else {
                None
            },
            (Some(StripKind::Master), Some(n)) => if m.masters.contains_key(n) {
                Some(m.without_master(n))
            } else {
                None
            },
            _ => None,
        },
        None => None,
    }
}

/// Deletes the strip at a path. Clients are told the lists at once; where there is no such strip,
/// nothing happens.
pub fn handle_delete(mixer: &mut MixerState, mixer_id: u32, path: &str) -> (r: Handled)
    requires
        old(mixer).wf(),
    ensures
        final(mixer).wf(),
        r.refused is None,
        match deleted(old(mixer)@, mixer_id, path@) {
            Some(m) => final(mixer)@ == m && updates(r.updates@) == lists(*final(mixer), mixer_id),
            None => final(mixer)@ == old(mixer)@ && updates(r.updates@) == Seq::<
                (Seq<char>, Doc),
            >::empty(),
        },
{
    let (kind, id) = match parse_delete_path(path, mixer_id) {
        Some(p) => p,
        None => {
            return ignored();
        },
    };
    let kind = read_kind(kind);
    let n: u32 = match read_number(id) {
        Some(n) => n,
        None => {
            return ignored();
        },
    };
    let removed = match kind {
        Some(StripKind::Channel) => delete_track(mixer, n).is_some(),
        Some(StripKind::Sum) => delete_bus(mixer, n).is_some(),
        Some(StripKind::Master) => delete_master(mixer, n).is_some(),
        None => false,
    };
    if removed {
        only_lists(mixer, mixer_id)
    } else {
        ignored()
    }
}

/// What the meters show, as messages hold it: behind and before each strip, and of each grid entry.
pub struct Meters {
    pub track_out: Table<u32, Json>,
    pub track_in: Table<u32, Json>,
    pub bus_out: Table<u32, Json>,
    pub bus_in: Table<u32, Json>,
    pub master_out: Table<u32, Json>,
    pub master_in: Table<u32, Json>,
    pub input: Table<String, Json>,
    pub output: Table<String, Json>,
}

impl Meters {
    /// Whether the tables stand in order.
    pub open spec fn wf(self) -> bool {
        &&& self.track_out.wf()
        &&& self.track_in.wf()
        &&& self.bus_out.wf()
        &&& self.bus_in.wf()
        &&& self.master_out.wf()
        &&& self.master_in.wf()
        &&& self.input.wf()
        &&& self.output.wf()
    }

    /// Meters that have not measured anything.
    pub fn new() -> (r: Self)
        ensures
            r.wf(),
            r.track_out@ == Map::<u32, Json>::empty(),
            r.track_in@ == Map::<u32, Json>::empty(),
            r.bus_out@ == Map::<u32, Json>::empty(),
            r.bus_in@ == Map::<u32, Json>::empty(),
            r.master_out@ == Map::<u32, Json>::empty(),
            r.master_in@ == Map::<u32, Json>::empty(),
            r.input@ == Map::<Seq<char>, Json>::empty(),
            r.output@ == Map::<Seq<char>, Json>::empty(),
    {
        Meters {
            track_out: Table::new(),
            track_in: Table::new(),
            bus_out: Table::new(),
            bus_in: Table::new(),
            master_out: Table::new(),
            master_in: Table::new(),
            input: Table::new(),
            output: Table::new(),
        }
    }
}

/// What a meter shows; null for each channel where nothing was measured yet.
pub open spec fn reading<K>(m: Map<K, Json>, id: K, channels: usize) -> Doc {
    if m.contains_key(id) {
        m[id]@
    } else {
        Doc::Array(Seq::new(channels as nat, |i: int| Doc::Null))
    }
}

fn read_meter<K: Key>(t: &Table<K, Json>, id: &K, channels: usize) -> (r: Json)
    requires
        t.wf(),
    ensures
        r@ == reading(t@, id@, channels),
{
    if let Some(v) = t.get(id) {
        return v.copy();
    }
    let mut items = no_items();
    for i in 0..channels
        invariant
            docs(items@) == Seq::new(i as nat, |k: int| Doc::Null),
    {
        put_item(&mut items, Json::Null);
        assert(docs(items@) =~= Seq::new((i + 1) as nat, |k: int| Doc::Null));
    }
    Json::array(items)
}

/// What is told of a chain: the six stages that can be addressed, null where the chain does not
/// have one.
pub open spec fn stage_updates(
    mixer_id: u32,
    kind: Seq<char>,
    id: Seq<char>,
    chain: Seq<StageModel>,
) -> Seq<(Seq<char>, Doc)> {
    Seq::empty().push(
        (strip_path(mixer_id, kind, id, "filter"@), stage_value(chain, "filter"@)),
    ).push((strip_path(mixer_id, kind, id, "eq"@), stage_value(chain, "eq"@))).push(
        (strip_path(mixer_id, kind, id, "dyn1"@), stage_value(chain, "dyn1"@)),
    ).push((strip_path(mixer_id, kind, id, "dyn2"@), stage_value(chain, "dyn2"@))).push(
        (strip_path(mixer_id, kind, id, "phase"@), stage_value(chain, "phase"@)),
    ).push((strip_path(mixer_id, kind, id, "delay"@), stage_value(chain, "delay"@)))
}

fn publish_stages(
    out: &mut Vec<Update>,
    mixer_id: u32,
    kind: &str,
    id: &str,
    chain: &Vec<ProcessingStage>,
)
    ensures
        updates(final(out)@) == updates(old(out)@) + stage_updates(
            mixer_id,
            kind@,
            id@,
            chain_model(chain@),
        ),
{
    publish(out, make_path(mixer_id, kind, id, "filter"), stage_json(chain, "filter"));
    publish(out, make_path(mixer_id, kind, id, "eq"), stage_json(chain, "eq"));
    publish(out, make_path(mixer_id, kind, id, "dyn1"), stage_json(chain, "dyn1"));
    publish(out, make_path(mixer_id, kind, id, "dyn2"), stage_json(chain, "dyn2"));
    publish(out, make_path(mixer_id, kind, id, "phase"), stage_json(chain, "phase"));
    publish(out, make_path(mixer_id, kind, id, "delay"), stage_json(chain, "delay"));
    assert(updates(out@) =~= updates(old(out)@) + stage_updates(
        mixer_id,
        kind@,
        id@,
        chain_model(chain@),
    ));
}

/// The two meters of a strip.
pub open spec fn meter_updates(
    mixer_id: u32,
    kind: Seq<char>,
    id: Seq<char>,
    behind: Doc,
    before: Doc,
) -> Seq<(Seq<char>, Doc)> {
    Seq::empty().push((strip_path(mixer_id, kind, id, "peakmeter"@), behind)).push(
        (strip_path(mixer_id, kind, id, "input-meter"@), before),
    )
}

fn publish_meters(
    out: &mut Vec<Update>,
    mixer_id: u32,
    kind: &str,
    id: &str,
    behind: Json,
    before: Json,
)
    ensures
        updates(final(out)@) == updates(old(out)@) + meter_updates(
            mixer_id,
            kind@,
            id@,
            behind@,
            before@,
        ),
{
    publish(out, make_path(mixer_id, kind, id, "peakmeter"), behind);
    publish(out, make_path(mixer_id, kind, id, "input-meter"), before);
    assert(updates(out@) =~= updates(old(out)@) + meter_updates(
        mixer_id,
        kind@,
        id@,
        behind@,
        before@,
    ));
}

/// What is told of one track on every tick.
pub open spec fn track_tick(mixer_id: u32, t: TrackModel, meters: Meters) -> Seq<(Seq<char>, Doc)> {
    meter_updates(
        mixer_id,
        "channel"@,
        dec(t.id as nat),
        reading(meters.track_out@, t.id, t.channels),
        reading(meters.track_in@, t.id, t.channels),
    ).push((strip_path(mixer_id, "channel"@, dec(t.id as nat), "sends"@), sends_doc(t.sends)))
        + stage_updates(mixer_id, "channel"@, dec(t.id as nat), t.chain)
}

/// What is told of one bus on every tick.
pub open spec fn bus_tick(mixer_id: u32, b: BusModel, meters: Meters) -> Seq<(Seq<char>, Doc)> {
    meter_updates(
        mixer_id,
        "sum"@,
        dec(b.id as nat),
        reading(meters.bus_out@, b.id, b.channels),
        reading(meters.bus_in@, b.id, b.channels),
    )
}

/// What is told of one master on every tick.
pub open spec fn master_tick(mixer_id: u32, m: MasterModel, meters: Meters) -> Seq<
    (Seq<char>, Doc),
> {
    meter_updates(
        mixer_id,
        "master"@,
        dec(m.id as nat),
        reading(meters.master_out@, m.id, m.channels),
        reading(meters.master_in@, m.id, m.channels),
    ) + stage_updates(mixer_id, "master"@, dec(m.id as nat), m.chain)
}

/// What clients are told of on every tick.
pub trait Told: Sized {
    /// What is told of it.
    spec fn tick(self, mixer_id: u32, meters: Meters) -> Seq<(Seq<char>, Doc)>;

    /// Tells it behind other things.
    fn tell(&self, out: &mut Vec<Update>, mixer_id: u32, meters: &Meters)
        requires
            meters.wf(),
        ensures
            updates(final(out)@) == updates(old(out)@) + self.tick(mixer_id, *meters),
    ;
}

impl Told for Track {
    open spec fn tick(self, mixer_id: u32, meters: Meters) -> Seq<(Seq<char>, Doc)> {
        track_tick(mixer_id, self@, meters)
    }

    fn tell(&self, out: &mut Vec<Update>, mixer_id: u32, meters: &Meters) {
        let id = decimal(self.id as u64);
        publish_meters(
            out,
            mixer_id,
            "channel",
            id.as_str(),
            read_meter(&meters.track_out, &self.id, self.channels),
            read_meter(&meters.track_in, &self.id, self.channels),
        );
        publish(
            out,
            make_path(mixer_id, "channel", id.as_str(), "sends"),
            sends_json(&self.sends),
        );
        publish_stages(out, mixer_id, "channel", id.as_str(), &self.chain);
        assert(updates(out@) =~= updates(old(out)@) + track_tick(mixer_id, self@, *meters));
    }
}

impl Told for Bus {
    open spec fn tick(self, mixer_id: u32, meters: Meters) -> Seq<(Seq<char>, Doc)> {
        bus_tick(mixer_id, self@, meters)
    }

    fn tell(&self, out: &mut Vec<Update>, mixer_id: u32, meters: &Meters) {
        publish_meters(
            out,
            mixer_id,
            "sum",
            decimal(self.id as u64).as_str(),
            read_meter(&meters.bus_out, &self.id, self.channels),
            read_meter(&meters.bus_in, &self.id, self.channels),
        );
    }
}

impl Told for MasterTrack {
    open spec fn tick(self, mixer_id: u32, meters: Meters) -> Seq<(Seq<char>, Doc)> {
        master_tick(mixer_id, self@, meters)
    }

    fn tell(&self, out: &mut Vec<Update>, mixer_id: u32, meters: &Meters) {
        let id = decimal(self.id as u64);
        publish_meters(
            out,
            mixer_id,
            "master",
            id.as_str(),
            read_meter(&meters.master_out, &self.id, self.channels),
            read_meter(&meters.master_in, &self.id, self.channels),
        );
        publish_stages(out, mixer_id, "master", id.as_str(), &self.chain);
        assert(updates(out@) =~= updates(old(out)@) + master_tick(mixer_id, self@, *meters));
    }
}

impl Told for InputGridEntry {
    open spec fn tick(self, mixer_id: u32, meters: Meters) -> Seq<(Seq<char>, Doc)> {
        Seq::empty().push(
            (
                strip_path(mixer_id, "input"@, self.id@, "peakmeter"@),
                reading(meters.input@, self.id@, self.channels),
            ),
        )
    }

    fn tell(&self, out: &mut Vec<Update>, mixer_id: u32, meters: &Meters) {
        publish(
            out,
            make_path(mixer_id, "input", self.id.as_str(), "peakmeter"),
            read_meter(&meters.input, &self.id, self.channels),
        );
        assert(updates(out@) =~= updates(old(out)@) + self.tick(mixer_id, *meters));
    }
}

impl Told for OutputGridEntry {
    open spec fn tick(self, mixer_id: u32, meters: Meters) -> Seq<(Seq<char>, Doc)> {
        Seq::empty().push(
            (
                strip_path(mixer_id, "output"@, self.id@, "peakmeter"@),
                reading(meters.output@, self.id@, self.channels),
            ),
        )
    }

    fn tell(&self, out: &mut Vec<Update>, mixer_id: u32, meters: &Meters) {
        publish(
            out,
            make_path(mixer_id, "output", self.id.as_str(), "peakmeter"),
            read_meter(&meters.output, &self.id, self.channels),
        );
        assert(updates(out@) =~= updates(old(out)@) + self.tick(mixer_id, *meters));
    }
}

/// What is told of the values of a table on every tick, in their order.
pub open spec fn ticks<K, T: Told>(mixer_id: u32, s: Seq<(K, T)>, meters: Meters) -> Seq<
    (Seq<char>, Doc),
>
    decreases s.len(),
{
    if s.len() == 0 {
        Seq::empty()
    } else {
        ticks(mixer_id, s.drop_last(), meters) + s.last().1.tick(mixer_id, meters)
    }
}

fn tell_all<K: Key, T: Told>(
    out: &mut Vec<Update>,
    mixer_id: u32,
    t: &Table<K, T>,
    meters: &Meters,
)
    requires
        meters.wf(),
    ensures
        updates(final(out)@) == updates(old(out)@) + ticks(mixer_id, t.list(), *meters),
{
    let ghost was = updates(out@);
    let ghost all = t.list();
    assert(all.take(0) =~= Seq::empty());
    assert(updates(out@) =~= was + ticks(mixer_id, all.take(0), *meters));
    for i in 0..t.len()
        invariant
            meters.wf(),
            all == t.list(),
            updates(out@) == was + ticks(mixer_id, all.take(i as int), *meters),
    {
        assert(all.take(i + 1).drop_last() =~= all.take(i as int));
        t.value_at(i).tell(out, mixer_id, meters);
        assert(updates(out@) =~= was + ticks(mixer_id, all.take(i + 1), *meters));
    }
    assert(all.take(all.len() as int) =~= all);
}

/// What clients are told on every tick: the strips with their meters and stages, the lists, the
/// grids and the meters of their entries.
pub fn broadcast(mixer: &MixerState, mixer_id: u32, meters: &Meters) -> (r: Vec<Update>)
    requires
        meters.wf(),
    ensures
        updates(r@) == (ticks(mixer_id, mixer.tracks.list(), *meters) + ticks(
            mixer_id,
            mixer.buses.list(),
            *meters,
        ) + ticks(mixer_id, mixer.masters.list(), *meters) + lists(*mixer, mixer_id)).push(
            (
                mixer_path(mixer_id, "input-grid"@),
                Doc::Array(input_list(mixer.input_grid.entries.list())),
            ),
        ).push(
            (
                mixer_path(mixer_id, "output-grid"@),
                Doc::Array(output_list(mixer.output_grid.entries.list())),
            ),
        ) + ticks(mixer_id, mixer.input_grid.entries.list(), *meters) + ticks(
            mixer_id,
            mixer.output_grid.entries.list(),
            *meters,
        ),
{
    let mut out = no_updates();
    tell_all(&mut out, mixer_id, &mixer.tracks, meters);
    assert(updates(out@) =~= ticks(mixer_id, mixer.tracks.list(), *meters));
    tell_all(&mut out, mixer_id, &mixer.buses, meters);
    tell_all(&mut out, mixer_id, &mixer.masters, meters);
    publish_lists(&mut out, mixer, mixer_id);
    publish(&mut out, make_mixer_path(mixer_id, "input-grid"), mixer.input_grid.list_json());
    publish(&mut out, make_mixer_path(mixer_id, "output-grid"), mixer.output_grid.list_json());
    tell_all(&mut out, mixer_id, &mixer.input_grid.entries, meters);
    tell_all(&mut out, mixer_id, &mixer.output_grid.entries, meters);
    out
}

} // verus!
