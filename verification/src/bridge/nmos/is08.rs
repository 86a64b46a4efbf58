//! The crosspoint between the daemon's streams and packed flows.
//!
//! Inputs are the daemon's Sinks and the packed flows that are read; outputs are the daemon's
//! Sources and the packed flows that are written. A packed flow comes to be where it is first
//! mentioned, and keeps its size from then on.

use vstd::prelude::*;
use vstd::string::*;

use crate::bridge::nmos::state::{SinkEntry, SourceEntry};
use crate::json::{docs, fields, no_entries, no_items, put_entry, put_item, whole, Doc, Json};
use crate::nmos::{
    bad_request, error_reply, id_doc, id_json, no_activation, no_activation_json, not_found, ok,
    version_string, version_text, Reply,
};
use crate::table::{lemma_in_map, Table};
use crate::text::{
    between, dec, decimal, lemma_dec_value, lemma_stripped_concat, parse_signed, parse_unsigned,
    same, signed_value, strip_prefix, stripped, unsigned_value,
};

verus! {

/// What a crosspoint can take audio from.
#[derive(Clone, Debug, PartialEq, Eq, Hash)]
pub enum InputKind {
    /// A Sink of the daemon.
    SinkStream(u8),
    /// A packed flow that is read.
    SourceMxl(String),
}

/// What an [`InputKind`] says.
pub enum InputModel {
    SinkStream(u8),
    SourceMxl(Seq<char>),
}

impl View for InputKind {
    type V = InputModel;

    open spec fn view(&self) -> InputModel {
        match *self {
            InputKind::SinkStream(id) => InputModel::SinkStream(id),
            InputKind::SourceMxl(name) => InputModel::SourceMxl(name@),
        }
    }
}

/// The number of a stream that a text denotes.
pub open spec fn stream_number(s: Seq<char>) -> Option<u8> {
    match unsigned_value(s) {
        Some(n) => if n <= u8::MAX {
            Some(n as u8)
        } else {
            None
        },
        None => None,
    }
}

fn read_stream_number(s: &str) -> (r: Option<u8>)
    ensures
        r == stream_number(s@),
{
    match parse_unsigned(s, 255) {
        Some(n) => Some(n as u8),
        None => None,
    }
}

/// The id of an input.
pub open spec fn input_id(m: InputModel) -> Seq<char> {
    match m {
        InputModel::SinkStream(id) => "sink-stream:"@ + dec(id as nat),
        InputModel::SourceMxl(name) => "packed-tx:"@ + name,
    }
}

/// The input that an id denotes.
pub open spec fn parsed_input(s: Seq<char>) -> Option<InputModel> {
    match stripped(s, "sink-stream:"@) {
        Some(rest) => match stream_number(rest) {
            Some(id) => Some(InputModel::SinkStream(id)),
            None => None,
        },
        None => match stripped(s, "packed-tx:"@) {
            Some(name) => Some(InputModel::SourceMxl(name)),
            None => None,
        },
    }
}

/// What an optional input says.
pub open spec fn input_view(r: Option<InputKind>) -> Option<InputModel> {
    match r {
        Some(k) => Some(k@),
        None => None,
    }
}

impl InputKind {
    /// The id of the input.
    pub fn id(&self) -> (r: String)
        ensures
            r@ == input_id(self@),
    {
        match self {
            InputKind::SinkStream(id) => {
                let mut s = "sink-stream:".to_owned();
                s.append(decimal(*id as u64).as_str());
                s
            },
            InputKind::SourceMxl(name) => {
                let mut s = "packed-tx:".to_owned();
                s.append(name.as_str());
                s
            },
        }
    }

    /// The input that an id denotes.
    pub fn parse(s: &str) -> (r: Option<InputKind>)
        ensures
            input_view(r) == parsed_input(s@),
    {
        if let Some(rest) = strip_prefix(s, "sink-stream:") {
            match read_stream_number(rest) {
                Some(id) => Some(InputKind::SinkStream(id)),
                None => None,
            }
        } else {
            match strip_prefix(s, "packed-tx:") {
                Some(name) => Some(InputKind::SourceMxl(name.to_owned())),
                None => None,
            }
        }
    }

    /// An input that says the same.
    pub fn copy(&self) -> (r: InputKind)
        ensures
            r@ == self@,
    {
        match self {
            InputKind::SinkStream(id) => InputKind::SinkStream(*id),
            InputKind::SourceMxl(name) => InputKind::SourceMxl(name.clone()),
        }
    }
}

/// What a crosspoint can give audio to.
#[derive(Clone, Debug, PartialEq, Eq, Hash)]
pub enum OutputKind {
    /// A Source of the daemon.
    SourceStream(u8),
    /// A packed flow that is written.
    SinkMxl(String),
}

/// What an [`OutputKind`] says.
pub enum OutputModel {
    SourceStream(u8),
    SinkMxl(Seq<char>),
}

impl View for OutputKind {
    type V = OutputModel;

    open spec fn view(&self) -> OutputModel {
        match *self {
            OutputKind::SourceStream(id) => OutputModel::SourceStream(id),
            OutputKind::SinkMxl(name) => OutputModel::SinkMxl(name@),
        }
    }
}

/// The id of an output.
pub open spec fn output_id(m: OutputModel) -> Seq<char> {
    match m {
        OutputModel::SourceStream(id) => "source-stream:"@ + dec(id as nat),
        OutputModel::SinkMxl(name) => "packed-rx:"@ + name,
    }
}

/// The output that an id denotes.
pub open spec fn parsed_output(s: Seq<char>) -> Option<OutputModel> {
    match stripped(s, "source-stream:"@) {
        Some(rest) => match stream_number(rest) {
            Some(id) => Some(OutputModel::SourceStream(id)),
            None => None,
        },
        None => match stripped(s, "packed-rx:"@) {
            Some(name) => Some(OutputModel::SinkMxl(name)),
            None => None,
        },
    }
}

/// What an optional output says.
pub open spec fn output_view(r: Option<OutputKind>) -> Option<OutputModel> {
    match r {
        Some(k) => Some(k@),
        None => None,
    }
}

impl OutputKind {
    /// The id of the output.
    pub fn id(&self) -> (r: String)
        ensures
            r@ == output_id(self@),
    {
        match self {
            OutputKind::SourceStream(id) => {
                let mut s = "source-stream:".to_owned();
                s.append(decimal(*id as u64).as_str());
                s
            },
            OutputKind::SinkMxl(name) => {
                let mut s = "packed-rx:".to_owned();
                s.append(name.as_str());
                s
            },
        }
    }

    /// The output that an id denotes.
    pub fn parse(s: &str) -> (r: Option<OutputKind>)
        ensures
            output_view(r) == parsed_output(s@),
    {
        if let Some(rest) = strip_prefix(s, "source-stream:") {
            match read_stream_number(rest) {
                Some(id) => Some(OutputKind::SourceStream(id)),
                None => None,
            }
        } else {
            match strip_prefix(s, "packed-rx:") {
                Some(name) => Some(OutputKind::SinkMxl(name.to_owned())),
                None => None,
            }
        }
    }
}

/// The id of an input or an output denotes it.
pub proof fn law_ids_read_back(input: InputModel, output: OutputModel)
    ensures
        parsed_input(input_id(input)) == Some(input),
        parsed_output(output_id(output)) == Some(output),
{
    reveal_strlit("sink-stream:");
    reveal_strlit("packed-tx:");
    reveal_strlit("source-stream:");
    reveal_strlit("packed-rx:");
    match input {
        InputModel::SinkStream(id) => {
            lemma_stripped_concat("sink-stream:"@, dec(id as nat));
            lemma_dec_value(id as nat);
        },
        InputModel::SourceMxl(name) => {
            lemma_stripped_concat("packed-tx:"@, name);
            assert(input_id(input)[0] == 'p');
            assert("sink-stream:"@[0] == 's');
        },
    }
    match output {
        OutputModel::SourceStream(id) => {
            lemma_stripped_concat("source-stream:"@, dec(id as nat));
            lemma_dec_value(id as nat);
        },
        OutputModel::SinkMxl(name) => {
            lemma_stripped_concat("packed-rx:"@, name);
            assert(output_id(output)[0] == 'p');
            assert("source-stream:"@[0] == 's');
        },
    }
}

/// What a crosspoint says.
pub open spec fn point(c: Option<(InputKind, usize)>) -> Option<(InputModel, usize)> {
    match c {
        Some((k, ch)) => Some((k@, ch)),
        None => None,
    }
}

/// What the crosspoints of an output say.
pub open spec fn points(v: Seq<Option<(InputKind, usize)>>) -> Seq<Option<(InputModel, usize)>> {
    v.map_values(|c: Option<(InputKind, usize)>| point(c))
}

/// An activation that is kept.
#[derive(Debug)]
pub struct PendingActivation {
    pub mode: String,
    pub action: Json,
    pub activation_time: Option<String>,
}

/// The crosspoints of all outputs, and the sizes of the packed flows that are read.
pub struct Is08State {
    pub outputs: Table<String, Vec<Option<(InputKind, usize)>>>,
    pub packed_tx_sizes: Table<String, usize>,
    pub activations: Table<String, PendingActivation>,
    pub activation_counter: u64,
}

/// What an [`Is08State`] says of the crosspoints.
pub struct Is08Model {
    pub outputs: Map<Seq<char>, Seq<Option<(InputModel, usize)>>>,
    pub packed_tx: Map<Seq<char>, usize>,
}

impl View for Is08State {
    type V = Is08Model;

    open spec fn view(&self) -> Is08Model {
        Is08Model {
            outputs: self.outputs@.map_values(|v: Vec<Option<(InputKind, usize)>>| points(v@)),
            packed_tx: self.packed_tx_sizes@,
        }
    }
}

/// An output without crosspoints.
pub open spec fn unmapped(n: nat) -> Seq<Option<(InputModel, usize)>> {
    Seq::new(n, |i: int| None)
}

fn unmapped_points(n: usize) -> (r: Vec<Option<(InputKind, usize)>>)
    ensures
        points(r@) == unmapped(n as nat),
{
    let mut out: Vec<Option<(InputKind, usize)>> = Vec::new();
    for i in 0..n
        invariant
            points(out@) == unmapped(i as nat),
    {
        let ghost before = points(out@);
        out.push(None);
        assert(points(out@) =~= before.push(None));
        assert(points(out@) =~= unmapped((i + 1) as nat));
    }
    out
}

/// Crosspoints in another number of channels: those that are still in range stay.
pub open spec fn resized(v: Seq<Option<(InputModel, usize)>>, n: nat) -> Seq<
    Option<(InputModel, usize)>,
> {
    Seq::new(
        n,
        |i: int|
            if i < v.len() {
                v[i]
            } else {
                None
            },
    )
}

/// The crosspoint outputs after the output of a Source got so many channels.
pub open spec fn with_source_output(m: Is08Model, id: u8, channels: nat) -> Is08Model {
    let key = output_id(OutputModel::SourceStream(id));
    Is08Model {
        outputs: m.outputs.insert(
            key,
            (if m.outputs.contains_key(key) {
                resized(m.outputs[key], channels)
            } else {
                unmapped(channels)
            }),
        ),
        ..m
    }
}

impl Is08State {
    /// Whether the tables stand in order.
    pub open spec fn wf(self) -> bool {
        self.outputs.wf() && self.packed_tx_sizes.wf() && self.activations.wf()
    }

    /// No outputs, no packed flows.
    pub fn new() -> (r: Self)
        ensures
            r.wf(),
            r@ == (Is08Model { outputs: Map::empty(), packed_tx: Map::empty() }),
            r.activations@ == Map::<Seq<char>, PendingActivation>::empty(),
            r.activation_counter == 0,
    {
        let r = Is08State {
            outputs: Table::new(),
            packed_tx_sizes: Table::new(),
            activations: Table::new(),
            activation_counter: 0,
        };
        assert(r@.outputs =~= Map::empty());
        r
    }

    /// Gives the output of a Source as many channels as the Source has. Crosspoints that are still
    /// in range stay.
    pub fn sync_source_stream_output(&mut self, daemon_id: u8, channels: usize)
        requires
            old(self).wf(),
        ensures
            final(self).wf(),
            final(self)@ == with_source_output(old(self)@, daemon_id, channels as nat),
            final(self).activations == old(self).activations,
            final(self).activation_counter == old(self).activation_counter,
    {
        let key = OutputKind::SourceStream(daemon_id).id();
        let ghost k = key@;
        let ghost was = self.outputs@;
        let ghost model = self@.outputs;
        let mut out: Vec<Option<(InputKind, usize)>> = match self.outputs.remove(&key) {
            Some(v) => v,
            None => Vec::new(),
        };
        let ghost before = points(out@);
        assert(model.contains_key(k) ==> before == model[k]);
        if out.len() > channels {
            out.truncate(channels);
        }
        assert(points(out@) =~= before.take(
            (if before.len() > channels {
                channels as int
            } else {
                before.len() as int
            }),
        ));
        while out.len() < channels
            invariant
                out@.len() <= channels,
                out@.len() < channels ==> before.len() <= out@.len(),
                points(out@) == resized(before, out@.len()),
            decreases channels - out@.len(),
        {
            let ghost now = points(out@);
            out.push(None);
            assert(points(out@) =~= now.push(None));
            assert(points(out@) =~= resized(before, out@.len()));
        }
        assert(points(out@) =~= resized(before, channels as nat));
        let ghost value = out;
        self.outputs.insert(key, out);
        proof {
            assert(was.remove(k).insert(k, value) =~= was.insert(k, value));
            if !model.contains_key(k) {
                assert(before =~= Seq::empty());
                assert(points(value@) =~= unmapped(channels as nat));
            }
            assert(self@.outputs =~= model.insert(k, points(value@)));
        }
    }

    /// Takes the output of a Source away.
    pub fn remove_source_stream_output(&mut self, daemon_id: u8)
        requires
            old(self).wf(),
        ensures
            final(self).wf(),
            final(self)@ == (Is08Model {
                outputs: old(self)@.outputs.remove(
                    output_id(OutputModel::SourceStream(daemon_id)),
                ),
                ..old(self)@
            }),
            final(self).activations == old(self).activations,
            final(self).activation_counter == old(self).activation_counter,
    {
        let key = OutputKind::SourceStream(daemon_id).id();
        let ghost model = self@.outputs;
        let _ = self.outputs.remove(&key);
        assert(self@.outputs =~= model.remove(key@));
    }
}

/// The channel counts of the Sinks.
pub open spec fn sink_widths(t: Table<u8, SinkEntry>) -> Map<u8, usize> {
    t@.map_values(|e: SinkEntry| e.channels as usize)
}

/// The channel counts of the Sources.
pub open spec fn source_widths(t: Table<u8, SourceEntry>) -> Map<u8, usize> {
    t@.map_values(|e: SourceEntry| e.channels as usize)
}

/// The channel that a key of a mapping denotes.
pub open spec fn key_index(k: Seq<char>) -> Option<usize> {
    match unsigned_value(k) {
        Some(n) => if n < usize::MAX {
            Some(n as usize)
        } else {
            None
        },
        None => None,
    }
}

fn read_key(k: &str) -> (r: Option<usize>)
    ensures
        r == key_index(k@),
{
    match parse_unsigned(k, (usize::MAX - 1) as u64) {
        Some(n) => Some(n as usize),
        None => None,
    }
}

/// What is said of a key that is no channel.
pub open spec fn bad_key(k: Seq<char>, output: Seq<char>) -> Seq<char> {
    "Invalid channel index '"@ + k + "' for output '"@ + output + "'"@
}

/// The greatest of the channels that keys denote.
pub open spec fn greatest_key(es: Seq<(Seq<char>, Doc)>, output: Seq<char>) -> Result<
    Option<usize>,
    Seq<char>,
>
    decreases es.len(),
{
    if es.len() == 0 {
        Ok(None)
    } else {
        match greatest_key(es.drop_last(), output) {
            Err(e) => Err(e),
            Ok(max) => match key_index(es.last().0) {
                None => Err(bad_key(es.last().0, output)),
                Some(n) => match max {
                    Some(m) => if n > m {
                        Ok(Some(n))
                    } else {
                        Ok(Some(m))
                    },
                    None => Ok(Some(n)),
                },
            },
        }
    }
}

/// The greatest channel that a mapping mentions.
pub open spec fn mapping_max(es: Seq<(Seq<char>, Doc)>, output: Seq<char>) -> Result<
    usize,
    Seq<char>,
> {
    match greatest_key(es, output) {
        Err(e) => Err(e),
        Ok(Some(n)) => Ok(n),
        Ok(None) => Err("Empty mapping for output '"@ + output + "'"@),
    }
}

fn bad_key_message(k: &str, output: &str) -> (r: String)
    ensures
        r@ == bad_key(k@, output@),
{
    let mut s = "Invalid channel index '".to_owned();
    s.append(k);
    s.append("' for output '");
    s.append(output);
    s.append("'");
    s
}

proof fn lemma_greatest_key_prefix(es: Seq<(Seq<char>, Doc)>, output: Seq<char>, k: int)
    requires
        0 <= k <= es.len(),
        greatest_key(es.take(k), output) is Err,
    ensures
        greatest_key(es, output) == greatest_key(es.take(k), output),
    decreases es.len(),
{
    if k < es.len() {
        assert(es.drop_last().take(k) =~= es.take(k));
        lemma_greatest_key_prefix(es.drop_last(), output, k);
    } else {
        assert(es.take(k) =~= es);
    }
}

fn max_channel_key(channels: &Vec<(String, Json)>, output: &str) -> (r: Result<usize, String>)
    ensures
        match r {
            Ok(n) => mapping_max(fields(channels@), output@) == Ok::<usize, Seq<char>>(n) && n
                < usize::MAX,
            Err(e) => mapping_max(fields(channels@), output@) == Err::<usize, Seq<char>>(e@),
        },
{
    let ghost all = fields(channels@);
    let mut max: Option<usize> = None;
    assert(all.take(0) =~= Seq::empty());
    for i in 0..channels.len()
        invariant
            all == fields(channels@),
            greatest_key(all.take(i as int), output@) == Ok::<Option<usize>, Seq<char>>(max),
            max matches Some(m) ==> m < usize::MAX,
    {
        assert(all.take(i + 1).drop_last() =~= all.take(i as int));
        let k = channels[i].0.as_str();
        match read_key(k) {
            Some(n) => {
                max = match max {
                    Some(m) => if n > m {
                        Some(n)
                    } else {
                        Some(m)
                    },
                    None => Some(n),
                };
            },
            None => {
                proof {
                    lemma_greatest_key_prefix(all, output@, i + 1);
                }
                return Err(bad_key_message(k, output));
            },
        }
    }
    assert(all.take(all.len() as int) =~= all);
    match max {
        Some(n) => Ok(n),
        None => Err(between("Empty mapping for output '", output, "'")),
    }
}

/// What is said of a channel of an input that cannot be.
pub open spec fn bad_index(input: Seq<char>) -> Seq<char> {
    "Invalid channel_index for input '"@ + input + "'"@
}

/// The channel of an input that an entry names: the first, where it names none.
pub open spec fn input_channel(d: Doc) -> i64 {
    match d.signed_field("channel_index"@) {
        Some(n) => n,
        None => 0,
    }
}

fn read_input_channel(v: &Json) -> (r: i64)
    ensures
        r == input_channel(v@),
{
    match v.signed_field("channel_index") {
        Some(n) => n,
        None => 0,
    }
}

/// The size that a map gives to a name; zero where it gives none.
pub open spec fn size_or_zero(m: Map<Seq<char>, usize>, name: Seq<char>) -> usize {
    if m.contains_key(name) {
        m[name]
    } else {
        0
    }
}

/// The sizes of the packed flows that are read, with what the entries of one mapping ask for: each
/// as wide as the highest of its channels that is mentioned.
pub open spec fn scanned_inputs(es: Seq<(Seq<char>, Doc)>, tx: Map<Seq<char>, usize>) -> Result<
    Map<Seq<char>, usize>,
    Seq<char>,
>
    decreases es.len(),
{
    if es.len() == 0 {
        Ok(tx)
    } else {
        match scanned_inputs(es.drop_last(), tx) {
            Err(e) => Err(e),
            Ok(m) => {
                let d = es.last().1;
                match d.text_field("input"@) {
                    None => Ok(m),
                    Some(id) => match parsed_input(id) {
                        Some(InputModel::SourceMxl(name)) => {
                            let ch = input_channel(d);
                            if ch < 0 || ch >= usize::MAX {
                                Err(bad_index(id))
                            } else if size_or_zero(m, name) > ch {
                                Ok(m.insert(name, m[name]))
                            } else {
                                Ok(m.insert(name, (ch + 1) as usize))
                            }
                        },
                        _ => Ok(m),
                    },
                }
            },
        }
    }
}

proof fn lemma_scanned_inputs_prefix(
    es: Seq<(Seq<char>, Doc)>,
    tx: Map<Seq<char>, usize>,
    k: int,
)
    requires
        0 <= k <= es.len(),
        scanned_inputs(es.take(k), tx) is Err,
    ensures
        scanned_inputs(es, tx) == scanned_inputs(es.take(k), tx),
    decreases es.len(),
{
    if k < es.len() {
        assert(es.drop_last().take(k) =~= es.take(k));
        lemma_scanned_inputs_prefix(es.drop_last(), tx, k);
    } else {
        assert(es.take(k) =~= es);
    }
}

/// What a result without a value says.
pub open spec fn failure(r: Result<(), String>) -> Option<Seq<char>> {
    match r {
        Ok(_) => None,
        Err(e) => Some(e@),
    }
}

fn scan_inputs(channels: &Vec<(String, Json)>, tx: &mut Table<String, usize>) -> (r: Result<
    (),
    String,
>)
    requires
        old(tx).wf(),
    ensures
        final(tx).wf(),
        match r {
            Ok(_) => scanned_inputs(fields(channels@), old(tx)@) == Ok::<
                Map<Seq<char>, usize>,
                Seq<char>,
            >(final(tx)@),
            Err(e) => scanned_inputs(fields(channels@), old(tx)@) == Err::<
                Map<Seq<char>, usize>,
                Seq<char>,
            >(e@),
        },
{
    let ghost all = fields(channels@);
    let ghost was = tx@;
    assert(all.take(0) =~= Seq::empty());
    for i in 0..channels.len()
        invariant
            all == fields(channels@),
            was == old(tx)@,
            tx.wf(),
            scanned_inputs(all.take(i as int), was) == Ok::<Map<Seq<char>, usize>, Seq<char>>(tx@),
    {
        assert(all.take(i + 1).drop_last() =~= all.take(i as int));
        let entry = &channels[i].1;
        if let Some(id) = entry.text_field("input") {
            if let Some(InputKind::SourceMxl(name)) = InputKind::parse(id) {
                let ch: i64 = read_input_channel(entry);
                if ch < 0 || ch as u64 >= usize::MAX as u64 {
                    proof {
                        lemma_scanned_inputs_prefix(all, was, i + 1);
                    }
                    return Err(between("Invalid channel_index for input '", id, "'"));
                }
                let cur: usize = match tx.get(&name) {
                    Some(n) => *n,
                    None => 0,
                };
                let size: usize = if cur > ch as usize {
                    cur
                } else {
                    ch as usize + 1
                };
                tx.insert(name, size);
            }
        }
    }
    assert(all.take(all.len() as int) =~= all);
    Ok(())
}

/// The sizes of packed flows that an action establishes.
pub struct Sizes {
    pub rx: Map<Seq<char>, usize>,
    pub tx: Map<Seq<char>, usize>,
}

/// The sizes of packed flows that an action establishes: those that are written and not known yet
/// are as wide as the highest of their channels that is mentioned, and so are those that are read.
pub open spec fn scanned(action: Seq<(Seq<char>, Doc)>, known: Set<Seq<char>>) -> Result<
    Sizes,
    Seq<char>,
>
    decreases action.len(),
{
    if action.len() == 0 {
        Ok(Sizes { rx: Map::empty(), tx: Map::empty() })
    } else {
        match scanned(action.drop_last(), known) {
            Err(e) => Err(e),
            Ok(s) => {
                let (id, d) = action.last();
                match d.entries() {
                    None => Err("Invalid mapping for output '"@ + id + "'"@),
                    Some(es) => match scanned_output(id, es, known, s.rx) {
                        Err(e) => Err(e),
                        Ok(rx) => match scanned_inputs(es, s.tx) {
                            Err(e) => Err(e),
                            Ok(tx) => Ok(Sizes { rx, tx }),
                        },
                    },
                }
            },
        }
    }
}

/// The sizes of the packed flows that are written, with what one mapping asks for.
pub open spec fn scanned_output(
    id: Seq<char>,
    es: Seq<(Seq<char>, Doc)>,
    known: Set<Seq<char>>,
    rx: Map<Seq<char>, usize>,
) -> Result<Map<Seq<char>, usize>, Seq<char>> {
    match parsed_output(id) {
        Some(OutputModel::SinkMxl(name)) if !known.contains(id) => match mapping_max(es, id) {
            Err(e) => Err(e),
            Ok(max) => Ok(rx.insert(name, (max + 1) as usize)),
        },
        _ => Ok(rx),
    }
}

proof fn lemma_scanned_prefix(action: Seq<(Seq<char>, Doc)>, known: Set<Seq<char>>, k: int)
    requires
        0 <= k <= action.len(),
        scanned(action.take(k), known) is Err,
    ensures
        scanned(action, known) == scanned(action.take(k), known),
    decreases action.len(),
{
    if k < action.len() {
        assert(action.drop_last().take(k) =~= action.take(k));
        lemma_scanned_prefix(action.drop_last(), known, k);
    } else {
        assert(action.take(k) =~= action);
    }
}

fn scan(
    action: &Vec<(String, Json)>,
    outputs: &Table<String, Vec<Option<(InputKind, usize)>>>,
) -> (r: Result<(Table<String, usize>, Table<String, usize>), String>)
    requires
        outputs.wf(),
    ensures
        match r {
            Ok((rx, tx)) => rx.wf() && tx.wf() && scanned(fields(action@), outputs@.dom()) == Ok::<
                Sizes,
                Seq<char>,
            >(Sizes { rx: rx@, tx: tx@ }),
            Err(e) => scanned(fields(action@), outputs@.dom()) == Err::<Sizes, Seq<char>>(e@),
        },
{
    let ghost all = fields(action@);
    let ghost known = outputs@.dom();
    let mut rx: Table<String, usize> = Table::new();
    let mut tx: Table<String, usize> = Table::new();
    assert(all.take(0) =~= Seq::empty());
    for i in 0..action.len()
        invariant
            all == fields(action@),
            outputs.wf(),
            known == outputs@.dom(),
            rx.wf(),
            tx.wf(),
            scanned(all.take(i as int), known) == Ok::<Sizes, Seq<char>>(
                Sizes { rx: rx@, tx: tx@ },
            ),
    {
        assert(all.take(i + 1).drop_last() =~= all.take(i as int));
        let id = action[i].0.as_str();
        let channels = match action[i].1.as_object() {
            Some(es) => es,
            None => {
                proof {
                    lemma_scanned_prefix(all, known, i + 1);
                }
                return Err(between("Invalid mapping for output '", id, "'"));
            },
        };
        if !outputs.contains_key(&action[i].0) {
            if let Some(OutputKind::SinkMxl(name)) = OutputKind::parse(id) {
                match max_channel_key(channels, id) {
                    Ok(max) => {
                        rx.insert(name, max + 1);
                    },
                    Err(e) => {
                        proof {
                            lemma_scanned_prefix(all, known, i + 1);
                        }
                        return Err(e);
                    },
                }
            }
        }
        match scan_inputs(channels, &mut tx) {
            Ok(_) => {},
            Err(e) => {
                proof {
                    lemma_scanned_prefix(all, known, i + 1);
                }
                return Err(e);
            },
        }
    }
    assert(all.take(all.len() as int) =~= all);
    Ok((rx, tx))
}

/// What an action is resolved against: the streams, what is known, and what it establishes itself.
pub struct Context {
    pub sinks: Map<u8, usize>,
    pub sources: Map<u8, usize>,
    pub known: Is08Model,
    pub sizes: Sizes,
}

/// One crosspoint to be set.
pub struct WorkModel {
    pub key: Seq<char>,
    pub channel: int,
    pub input: Option<(InputModel, usize)>,
}

/// What is said of an output that does not exist.
pub open spec fn unknown_output(id: Seq<char>) -> Seq<char> {
    "Unknown output '"@ + id + "'"@
}

/// What is said of an input that does not exist.
pub open spec fn unknown_input(id: Seq<char>) -> Seq<char> {
    "Unknown input '"@ + id + "'"@
}

/// The width of an output.
pub open spec fn output_width(c: Context, id: Seq<char>) -> Option<usize> {
    match parsed_output(id) {
        Some(OutputModel::SourceStream(n)) => if c.sources.contains_key(n) {
            Some(c.sources[n])
        } else {
            None
        },
        Some(OutputModel::SinkMxl(name)) => if c.known.outputs.contains_key(id) {
            Some(c.known.outputs[id].len() as usize)
        } else if c.sizes.rx.contains_key(name) {
            Some(c.sizes.rx[name])
        } else {
            None
        },
        None => None,
    }
}

/// The width of an input.
pub open spec fn input_width(c: Context, m: InputModel) -> Option<usize> {
    match m {
        InputModel::SinkStream(n) => if c.sinks.contains_key(n) {
            Some(c.sinks[n])
        } else {
            None
        },
        InputModel::SourceMxl(name) => if c.known.packed_tx.contains_key(name) {
            Some(c.known.packed_tx[name])
        } else if c.sizes.tx.contains_key(name) {
            Some(c.sizes.tx[name])
        } else {
            None
        },
    }
}

/// The input that an entry names, or why it cannot be.
pub open spec fn resolved_input(c: Context, d: Doc) -> Result<
    Option<(InputModel, usize)>,
    Seq<char>,
> {
    match d.text_field("input"@) {
        None => Ok(None),
        Some(id) => match parsed_input(id) {
            None => Err(unknown_input(id)),
            Some(m) => {
                let ch = input_channel(d);
                if ch < 0 {
                    Err(bad_index(id))
                } else {
                    match input_width(c, m) {
                        None => Err(unknown_input(id)),
                        Some(w) => if ch >= w {
                            Err(
                                "Channel index "@ + dec(ch as nat) + " out of range for input '"@
                                    + id + "'"@,
                            )
                        } else {
                            Ok(Some((m, ch as usize)))
                        },
                    }
                }
            },
        },
    }
}

/// The channel of an output that a key denotes.
pub open spec fn output_channel(k: Seq<char>) -> Option<int> {
    match signed_value(k) {
        Some(n) => if i64::MIN <= n <= i64::MAX {
            Some(n)
        } else {
            None
        },
        None => None,
    }
}

/// The crosspoint that an entry of a mapping asks for, or why it cannot be.
pub open spec fn resolved_entry(
    c: Context,
    id: Seq<char>,
    width: usize,
    e: (Seq<char>, Doc),
) -> Result<WorkModel, Seq<char>> {
    match output_channel(e.0) {
        None => Err(bad_key(e.0, id)),
        Some(n) => if n < 0 || n >= width {
            Err("Channel index "@ + e.0 + " out of range for output '"@ + id + "'"@)
        } else {
            match resolved_input(c, e.1) {
                Err(x) => Err(x),
                Ok(input) => Ok(WorkModel { key: id, channel: n, input }),
            }
        },
    }
}

/// The crosspoints that the entries of a mapping ask for, behind others.
pub open spec fn resolved_entries(
    c: Context,
    id: Seq<char>,
    width: usize,
    es: Seq<(Seq<char>, Doc)>,
    before: Seq<WorkModel>,
) -> Result<Seq<WorkModel>, Seq<char>>
    decreases es.len(),
{
    if es.len() == 0 {
        Ok(before)
    } else {
        match resolved_entries(c, id, width, es.drop_last(), before) {
            Err(x) => Err(x),
            Ok(w) => match resolved_entry(c, id, width, es.last()) {
                Err(x) => Err(x),
                Ok(item) => Ok(w.push(item)),
            },
        }
    }
}

/// The crosspoints that an action asks for, or why it cannot be applied: the first thing that is
/// wrong.
pub open spec fn resolved(c: Context, action: Seq<(Seq<char>, Doc)>) -> Result<
    Seq<WorkModel>,
    Seq<char>,
>
    decreases action.len(),
{
    if action.len() == 0 {
        Ok(Seq::empty())
    } else {
        match resolved(c, action.drop_last()) {
            Err(x) => Err(x),
            Ok(w) => {
                let (id, d) = action.last();
                match output_width(c, id) {
                    None => Err(unknown_output(id)),
                    Some(width) => match d.entries() {
                        Some(es) => resolved_entries(c, id, width, es, w),
                        None => Ok(w),
                    },
                }
            },
        }
    }
}

/// The outputs, with the packed flows that an action establishes.
pub open spec fn with_new_outputs(
    outputs: Map<Seq<char>, Seq<Option<(InputModel, usize)>>>,
    action: Seq<(Seq<char>, Doc)>,
    rx: Map<Seq<char>, usize>,
) -> Map<Seq<char>, Seq<Option<(InputModel, usize)>>>
    decreases action.len(),
{
    if action.len() == 0 {
        outputs
    } else {
        let before = with_new_outputs(outputs, action.drop_last(), rx);
        let id = action.last().0;
        match parsed_output(id) {
            Some(OutputModel::SinkMxl(name)) => if before.contains_key(id) {
                before
            } else {
                before.insert(id, unmapped(size_or_zero(rx, name) as nat))
            },
            _ => before,
        }
    }
}

/// The outputs after a crosspoint was set. One that is not there is not set.
pub open spec fn with_point(
    outputs: Map<Seq<char>, Seq<Option<(InputModel, usize)>>>,
    w: WorkModel,
) -> Map<Seq<char>, Seq<Option<(InputModel, usize)>>> {
    if outputs.contains_key(w.key) && 0 <= w.channel < outputs[w.key].len() {
        outputs.insert(w.key, outputs[w.key].update(w.channel, w.input))
    } else {
        outputs
    }
}

/// The outputs after crosspoints were set, one after the other.
pub open spec fn with_points(
    outputs: Map<Seq<char>, Seq<Option<(InputModel, usize)>>>,
    work: Seq<WorkModel>,
) -> Map<Seq<char>, Seq<Option<(InputModel, usize)>>>
    decreases work.len(),
{
    if work.len() == 0 {
        outputs
    } else {
        with_point(with_points(outputs, work.drop_last()), work.last())
    }
}

/// What an action makes of the crosspoints, or why it cannot be applied.
pub open spec fn applied(
    m: Is08Model,
    sinks: Map<u8, usize>,
    sources: Map<u8, usize>,
    action: Seq<(Seq<char>, Doc)>,
) -> Result<Is08Model, Seq<char>> {
    match scanned(action, m.outputs.dom()) {
        Err(e) => Err(e),
        Ok(sizes) => match resolved(Context { sinks, sources, known: m, sizes }, action) {
            Err(e) => Err(e),
            Ok(work) => Ok(
                Is08Model {
                    outputs: with_points(with_new_outputs(m.outputs, action, sizes.rx), work),
                    packed_tx: sizes.tx.union_prefer_right(m.packed_tx),
                },
            ),
        },
    }
}

/// One crosspoint to be set.
pub struct WorkItem {
    pub key: String,
    pub channel: usize,
    pub input: Option<(InputKind, usize)>,
}

/// What crosspoints to be set say.
pub open spec fn work_models(s: Seq<WorkItem>) -> Seq<WorkModel> {
    s.map_values(
        |w: WorkItem| WorkModel { key: w.key@, channel: w.channel as int, input: point(w.input) },
    )
}

/// What a result with an input says.
pub open spec fn input_outcome(r: Result<Option<(InputKind, usize)>, String>) -> Result<
    Option<(InputModel, usize)>,
    Seq<char>,
> {
    match r {
        Ok(c) => Ok(point(c)),
        Err(e) => Err(e@),
    }
}

/// What the tables that an action is resolved against say.
pub open spec fn context(
    sinks: Table<u8, SinkEntry>,
    sources: Table<u8, SourceEntry>,
    is08: Is08State,
    rx: Table<String, usize>,
    tx: Table<String, usize>,
) -> Context {
    Context {
        sinks: sink_widths(sinks),
        sources: source_widths(sources),
        known: is08@,
        sizes: Sizes { rx: rx@, tx: tx@ },
    }
}

fn resolve_input(
    sinks: &Table<u8, SinkEntry>,
    is08: &Is08State,
    tx: &Table<String, usize>,
    entry: &Json,
    Ghost(c): Ghost<Context>,
) -> (r: Result<Option<(InputKind, usize)>, String>)
    requires
        sinks.wf(),
        is08.wf(),
        tx.wf(),
        c.sinks == sink_widths(*sinks),
        c.known == is08@,
        c.sizes.tx == tx@,
    ensures
        input_outcome(r) == resolved_input(c, entry@),
{
    let id = match entry.text_field("input") {
        Some(s) => s,
        None => {
            return Ok(None);
        },
    };
    let kind = match InputKind::parse(id) {
        Some(k) => k,
        None => {
            return Err(between("Unknown input '", id, "'"));
        },
    };
    let ch: i64 = read_input_channel(entry);
    if ch < 0 {
        return Err(between("Invalid channel_index for input '", id, "'"));
    }
    let width: Option<usize> = match &kind {
        InputKind::SinkStream(n) => match sinks.get(n) {
            Some(e) => Some(e.channels as usize),
            None => None,
        },
        InputKind::SourceMxl(name) => match is08.packed_tx_sizes.get(name) {
            Some(w) => Some(*w),
            None => match tx.get(name) {
                Some(w) => Some(*w),
                None => None,
            },
        },
    };
    assert(width == input_width(c, kind@));
    match width {
        None => Err(between("Unknown input '", id, "'")),
        Some(w) => if ch as u64 >= w as u64 {
            let mut s = "Channel index ".to_owned();
            s.append(decimal(ch as u64).as_str());
            s.append(" out of range for input '");
            s.append(id);
            s.append("'");
            Err(s)
        } else {
            Ok(Some((kind, ch as usize)))
        },
    }
}

fn read_output_channel(k: &str) -> (r: Option<i64>)
    ensures
        match r {
            Some(n) => output_channel(k@) == Some(n as int),
            None => output_channel(k@) is None,
        },
{
    parse_signed(k)
}

fn find_width(
    sources: &Table<u8, SourceEntry>,
    is08: &Is08State,
    rx: &Table<String, usize>,
    id: &String,
    Ghost(c): Ghost<Context>,
) -> (r: Option<usize>)
    requires
        sources.wf(),
        is08.wf(),
        rx.wf(),
        c.sources == source_widths(*sources),
        c.known == is08@,
        c.sizes.rx == rx@,
    ensures
        r == output_width(c, id@),
{
    match OutputKind::parse(id.as_str()) {
        Some(OutputKind::SourceStream(n)) => match sources.get(&n) {
            Some(e) => Some(e.channels as usize),
            None => None,
        },
        Some(OutputKind::SinkMxl(name)) => match is08.outputs.get(id) {
            Some(v) => {
                assert(is08@.outputs[id@] == points(v@));
                assert(points(v@).len() == v@.len());
                Some(v.len())
            },
            None => match rx.get(&name) {
                Some(w) => Some(*w),
                None => None,
            },
        },
        None => None,
    }
}

proof fn lemma_resolved_entries_prefix(
    c: Context,
    id: Seq<char>,
    width: usize,
    es: Seq<(Seq<char>, Doc)>,
    before: Seq<WorkModel>,
    k: int,
)
    requires
        0 <= k <= es.len(),
        resolved_entries(c, id, width, es.take(k), before) is Err,
    ensures
        resolved_entries(c, id, width, es, before) == resolved_entries(
            c,
            id,
            width,
            es.take(k),
            before,
        ),
    decreases es.len(),
{
    if k < es.len() {
        assert(es.drop_last().take(k) =~= es.take(k));
        lemma_resolved_entries_prefix(c, id, width, es.drop_last(), before, k);
    } else {
        assert(es.take(k) =~= es);
    }
}

fn resolve_entries(
    sinks: &Table<u8, SinkEntry>,
    is08: &Is08State,
    tx: &Table<String, usize>,
    id: &str,
    width: usize,
    channels: &Vec<(String, Json)>,
    work: &mut Vec<WorkItem>,
    Ghost(c): Ghost<Context>,
) -> (r: Result<(), String>)
    requires
        sinks.wf(),
        is08.wf(),
        tx.wf(),
        c.sinks == sink_widths(*sinks),
        c.known == is08@,
        c.sizes.tx == tx@,
    ensures
        match r {
            Ok(_) => resolved_entries(
                c,
                id@,
                width,
                fields(channels@),
                work_models(old(work)@),
            ) == Ok::<Seq<WorkModel>, Seq<char>>(work_models(final(work)@)),
            Err(e) => resolved_entries(
                c,
                id@,
                width,
                fields(channels@),
                work_models(old(work)@),
            ) == Err::<Seq<WorkModel>, Seq<char>>(e@),
        },
{
    let ghost all = fields(channels@);
    let ghost before = work_models(work@);
    assert(all.take(0) =~= Seq::empty());
    for i in 0..channels.len()
        invariant
            sinks.wf(),
            is08.wf(),
            tx.wf(),
            c.sinks == sink_widths(*sinks),
            c.known == is08@,
            c.sizes.tx == tx@,
            all == fields(channels@),
            before == work_models(old(work)@),
            resolved_entries(c, id@, width, all.take(i as int), before) == Ok::<
                Seq<WorkModel>,
                Seq<char>,
            >(work_models(work@)),
    {
        assert(all.take(i + 1).drop_last() =~= all.take(i as int));
        let key = channels[i].0.as_str();
        let n: i64 = match read_output_channel(key) {
            Some(n) => n,
            None => {
                proof {
                    lemma_resolved_entries_prefix(c, id@, width, all, before, i + 1);
                }
                return Err(bad_key_message(key, id));
            },
        };
        if n < 0 || n as u64 >= width as u64 {
            proof {
                lemma_resolved_entries_prefix(c, id@, width, all, before, i + 1);
            }
            let mut s = "Channel index ".to_owned();
            s.append(key);
            s.append(" out of range for output '");
            s.append(id);
            s.append("'");
            return Err(s);
        }
        match resolve_input(sinks, is08, tx, &channels[i].1, Ghost(c)) {
            Ok(input) => {
                let ghost so_far = work_models(work@);
                let item = WorkItem { key: id.to_owned(), channel: n as usize, input };
                let ghost model = WorkModel {
                    key: id@,
                    channel: n as int,
                    input: point(item.input),
                };
                work.push(item);
                assert(work_models(work@) =~= so_far.push(model));
            },
            Err(e) => {
                proof {
                    lemma_resolved_entries_prefix(c, id@, width, all, before, i + 1);
                }
                return Err(e);
            },
        }
    }
    assert(all.take(all.len() as int) =~= all);
    Ok(())
}

proof fn lemma_resolved_prefix(c: Context, action: Seq<(Seq<char>, Doc)>, k: int)
    requires
        0 <= k <= action.len(),
        resolved(c, action.take(k)) is Err,
    ensures
        resolved(c, action) == resolved(c, action.take(k)),
    decreases action.len(),
{
    if k < action.len() {
        assert(action.drop_last().take(k) =~= action.take(k));
        lemma_resolved_prefix(c, action.drop_last(), k);
    } else {
        assert(action.take(k) =~= action);
    }
}

fn resolve(
    sinks: &Table<u8, SinkEntry>,
    sources: &Table<u8, SourceEntry>,
    is08: &Is08State,
    rx: &Table<String, usize>,
    tx: &Table<String, usize>,
    action: &Vec<(String, Json)>,
) -> (r: Result<Vec<WorkItem>, String>)
    requires
        sinks.wf(),
        sources.wf(),
        is08.wf(),
        rx.wf(),
        tx.wf(),
    ensures
        match r {
            Ok(w) => resolved(context(*sinks, *sources, *is08, *rx, *tx), fields(action@)) == Ok::<
                Seq<WorkModel>,
                Seq<char>,
            >(work_models(w@)),
            Err(e) => resolved(context(*sinks, *sources, *is08, *rx, *tx), fields(action@))
                == Err::<Seq<WorkModel>, Seq<char>>(e@),
        },
{
    let ghost c = context(*sinks, *sources, *is08, *rx, *tx);
    let ghost all = fields(action@);
    let mut work: Vec<WorkItem> = Vec::new();
    assert(all.take(0) =~= Seq::empty());
    assert(work_models(work@) =~= Seq::empty());
    for i in 0..action.len()
        invariant
            sinks.wf(),
            sources.wf(),
            is08.wf(),
            rx.wf(),
            tx.wf(),
            c == context(*sinks, *sources, *is08, *rx, *tx),
            all == fields(action@),
            resolved(c, all.take(i as int)) == Ok::<Seq<WorkModel>, Seq<char>>(work_models(work@)),
    {
        assert(all.take(i + 1).drop_last() =~= all.take(i as int));
        let id = &action[i].0;
        let width: usize = match find_width(sources, is08, rx, id, Ghost(c)) {
            Some(w) => w,
            None => {
                proof {
                    lemma_resolved_prefix(c, all, i + 1);
                }
                return Err(between("Unknown output '", id.as_str(), "'"));
            },
        };
        if let Some(channels) = action[i].1.as_object() {
            match resolve_entries(sinks, is08, tx, id.as_str(), width, channels, &mut work, Ghost(c)) {
                Ok(_) => {},
                Err(e) => {
                    proof {
                        lemma_resolved_prefix(c, all, i + 1);
                    }
                    return Err(e);
                },
            }
        }
    }
    assert(all.take(all.len() as int) =~= all);
    Ok(work)
}

/// What the outputs of a table say.
pub open spec fn output_map(t: Table<String, Vec<Option<(InputKind, usize)>>>) -> Map<
    Seq<char>,
    Seq<Option<(InputModel, usize)>>,
> {
    t@.map_values(|v: Vec<Option<(InputKind, usize)>>| points(v@))
}

fn add_new_outputs(
    outputs: &mut Table<String, Vec<Option<(InputKind, usize)>>>,
    action: &Vec<(String, Json)>,
    rx: &Table<String, usize>,
)
    requires
        old(outputs).wf(),
        rx.wf(),
    ensures
        final(outputs).wf(),
        output_map(*final(outputs)) == with_new_outputs(
            output_map(*old(outputs)),
            fields(action@),
            rx@,
        ),
{
    let ghost all = fields(action@);
    let ghost was = output_map(*outputs);
    assert(all.take(0) =~= Seq::empty());
    for i in 0..action.len()
        invariant
            rx.wf(),
            all == fields(action@),
            outputs.wf(),
            output_map(*outputs) == with_new_outputs(was, all.take(i as int), rx@),
    {
        assert(all.take(i + 1).drop_last() =~= all.take(i as int));
        let id = &action[i].0;
        if let Some(OutputKind::SinkMxl(name)) = OutputKind::parse(id.as_str()) {
            if !outputs.contains_key(id) {
                let size: usize = match rx.get(&name) {
                    Some(n) => *n,
                    None => 0,
                };
                let ghost before = output_map(*outputs);
                let v = unmapped_points(size);
                let ghost value = points(v@);
                outputs.insert(id.clone(), v);
                assert(output_map(*outputs) =~= before.insert(id@, value));
            }
        }
    }
    assert(all.take(all.len() as int) =~= all);
}

fn set_points(outputs: &mut Table<String, Vec<Option<(InputKind, usize)>>>, work: &Vec<WorkItem>)
    requires
        old(outputs).wf(),
    ensures
        final(outputs).wf(),
        output_map(*final(outputs)) == with_points(output_map(*old(outputs)), work_models(work@)),
{
    let ghost all = work_models(work@);
    let ghost was = output_map(*outputs);
    assert(all.take(0) =~= Seq::empty());
    for i in 0..work.len()
        invariant
            all == work_models(work@),
            outputs.wf(),
            output_map(*outputs) == with_points(was, all.take(i as int)),
    {
        assert(all.take(i + 1).drop_last() =~= all.take(i as int));
        let item = &work[i];
        let ghost before = output_map(*outputs);
        let ghost table = outputs@;
        match outputs.remove(&item.key) {
            Some(v) => {
                let mut v = v;
                let ghost old_points = points(v@);
                assert(before[item.key@] == old_points);
                assert(old_points.len() == v@.len());
                if item.channel < v.len() {
                    let input: Option<(InputKind, usize)> = match &item.input {
                        Some((k, ch)) => Some((k.copy(), *ch)),
                        None => None,
                    };
                    v.set(item.channel, input);
                    assert(points(v@) =~= old_points.update(
                        item.channel as int,
                        point(item.input),
                    ));
                }
                let ghost value = points(v@);
                outputs.insert(item.key.clone(), v);
                assert(output_map(*outputs) =~= before.insert(item.key@, value));
                proof {
                    if item.channel >= old_points.len() {
                        assert(before.insert(item.key@, value) =~= before);
                    }
                }
            },
            None => {
                assert(output_map(*outputs) =~= before);
            },
        }
    }
    assert(all.take(all.len() as int) =~= all);
}

fn add_new_inputs(known: &mut Table<String, usize>, tx: Table<String, usize>)
    requires
        old(known).wf(),
        tx.wf(),
    ensures
        final(known).wf(),
        final(known)@ == tx@.union_prefer_right(old(known)@),
{
    let ghost was = known@;
    let ghost list = tx.list();
    let n: usize = tx.len();
    for i in 0..n
        invariant
            n == list.len(),
            list == tx.list(),
            tx.wf(),
            known.wf(),
            forall|k: Seq<char>| #[trigger]
                known@.contains_key(k) <==> was.contains_key(k) || exists|j: int|
                    0 <= j < i && list[j].0@ == k,
            forall|k: Seq<char>| was.contains_key(k) ==> #[trigger] known@[k] == was[k],
            forall|j: int|
                0 <= j < i && !was.contains_key((#[trigger] list[j]).0@) ==> known@[list[j].0@]
                    == list[j].1,
    {
        let key = tx.key_at(i);
        let ghost before = known@;
        if !known.contains_key(key) {
            known.insert(key.clone(), *tx.value_at(i));
        } else {
            proof {
                if !was.contains_key(key@) {
                    let j = choose|j: int| 0 <= j < i && list[j].0@ == key@;
                    crate::table::lemma_distinct(list, j, i as int);
                }
            }
        }
        proof {
            assert forall|j: int| 0 <= j < i + 1 && !was.contains_key((#[trigger] list[j]).0@) implies
                known@[list[j].0@] == list[j].1 by {
                if j < i {
                    crate::table::lemma_distinct(list, j, i as int);
                }
            }
        }
    }
    proof {
        let want = tx@.union_prefer_right(was);
        assert forall|k: Seq<char>|
            #![trigger known@.dom().contains(k)]
            #![trigger known@[k]]
            known@.dom().contains(k) == want.dom().contains(k) && (want.dom().contains(k)
                ==> known@[k] == want[k]) by {
            if known@.contains_key(k) && !was.contains_key(k) {
                let j = choose|j: int| 0 <= j < list.len() && list[j].0@ == k;
                lemma_in_map(list, j);
            }
            if tx@.contains_key(k) {
                let j = crate::table::lemma_from_map(list, k);
            }
        }
        assert(known@ =~= want);
    }
}

/// Checks an action, and applies it where that was not all. It is applied as a whole or not at all.
pub fn apply_action(
    sinks: &Table<u8, SinkEntry>,
    sources: &Table<u8, SourceEntry>,
    is08: &mut Is08State,
    action: &Vec<(String, Json)>,
    dry_run: bool,
) -> (r: Result<(), String>)
    requires
        sinks.wf(),
        sources.wf(),
        old(is08).wf(),
    ensures
        final(is08).wf(),
        final(is08).activations == old(is08).activations,
        final(is08).activation_counter == old(is08).activation_counter,
        match applied(
            old(is08)@,
            sink_widths(*sinks),
            source_widths(*sources),
            fields(action@),
        ) {
            Err(e) => failure(r) == Some(e) && final(is08)@ == old(is08)@,
            Ok(m) => r is Ok && final(is08)@ == (if dry_run {
                old(is08)@
            } else {
                m
            }),
        },
{
    assert(is08.outputs@.dom() =~= is08@.outputs.dom());
    let (rx, tx) = match scan(action, &is08.outputs) {
        Ok(sizes) => sizes,
        Err(e) => {
            return Err(e);
        },
    };
    let work = match resolve(sinks, sources, is08, &rx, &tx, action) {
        Ok(w) => w,
        Err(e) => {
            return Err(e);
        },
    };
    if dry_run {
        return Ok(());
    }
    add_new_outputs(&mut is08.outputs, action, &rx);
    set_points(&mut is08.outputs, &work);
    add_new_inputs(&mut is08.packed_tx_sizes, tx);
    Ok(())
}

/// An output that is known stays as it is where packed flows are added.
pub proof fn lemma_new_outputs_keep(
    outputs: Map<Seq<char>, Seq<Option<(InputModel, usize)>>>,
    action: Seq<(Seq<char>, Doc)>,
    rx: Map<Seq<char>, usize>,
    key: Seq<char>,
)
    requires
        outputs.contains_key(key),
    ensures
        with_new_outputs(outputs, action, rx).contains_key(key),
        with_new_outputs(outputs, action, rx)[key] == outputs[key],
    decreases action.len(),
{
    if action.len() > 0 {
        lemma_new_outputs_keep(outputs, action.drop_last(), rx, key);
    }
}

/// Setting crosspoints resizes no output.
pub proof fn lemma_points_keep_size(
    outputs: Map<Seq<char>, Seq<Option<(InputModel, usize)>>>,
    work: Seq<WorkModel>,
    key: Seq<char>,
)
    requires
        outputs.contains_key(key),
    ensures
        with_points(outputs, work).contains_key(key),
        with_points(outputs, work)[key].len() == outputs[key].len(),
    decreases work.len(),
{
    if work.len() > 0 {
        lemma_points_keep_size(outputs, work.drop_last(), key);
    }
}

/// No action resizes an output or a packed flow that is read: their sizes are fixed once they are
/// known.
pub proof fn law_sizes_are_fixed(
    m: Is08Model,
    sinks: Map<u8, usize>,
    sources: Map<u8, usize>,
    action: Seq<(Seq<char>, Doc)>,
    key: Seq<char>,
)
    ensures
        applied(m, sinks, sources, action) matches Ok(now) ==> {
            &&& m.outputs.contains_key(key) ==> now.outputs.contains_key(key)
                && now.outputs[key].len() == m.outputs[key].len()
            &&& m.packed_tx.contains_key(key) ==> now.packed_tx.contains_key(key)
                && now.packed_tx[key] == m.packed_tx[key]
        },
{
    if let Ok(now) = applied(m, sinks, sources, action) {
        let sizes = scanned(action, m.outputs.dom())->Ok_0;
        let work = resolved(Context { sinks, sources, known: m, sizes }, action)->Ok_0;
        let created = with_new_outputs(m.outputs, action, sizes.rx);
        if m.outputs.contains_key(key) {
            lemma_new_outputs_keep(m.outputs, action, sizes.rx, key);
            lemma_points_keep_size(created, work, key);
        }
    }
}

/// A crosspoint that was set reads back, where no later one of the same action set the same again.
pub proof fn law_crosspoints_read_back(
    outputs: Map<Seq<char>, Seq<Option<(InputModel, usize)>>>,
    work: Seq<WorkModel>,
    i: int,
)
    requires
        0 <= i < work.len(),
        outputs.contains_key(work[i].key),
        0 <= work[i].channel < outputs[work[i].key].len(),
        forall|j: int|
            i < j < work.len() ==> (#[trigger] work[j]).key != work[i].key || work[j].channel
                != work[i].channel,
    ensures
        with_points(outputs, work)[work[i].key][work[i].channel] == work[i].input,
    decreases work.len(),
{
    let rest = work.drop_last();
    let w = work[i];
    lemma_points_keep_size(outputs, rest, w.key);
    if i < rest.len() {
        assert(rest[i] == w);
        assert(forall|j: int| i < j < rest.len() ==> rest[j] == work[j]);
        law_crosspoints_read_back(outputs, rest, i);
        assert(work[work.len() - 1] == work.last());
    }
}

/// One crosspoint as documents show it.
pub open spec fn point_doc(c: Option<(InputModel, usize)>) -> Doc {
    match c {
        Some((m, ch)) => Doc::object().with("input"@, Doc::Text(input_id(m))).with(
            "channel_index"@,
            Doc::Number(whole(ch as u64)),
        ),
        None => Doc::object().with("input"@, Doc::Null).with("channel_index"@, Doc::Null),
    }
}

/// The crosspoints of an output as documents show them, by their channels.
pub open spec fn points_doc(v: Seq<Option<(InputModel, usize)>>) -> Doc {
    Doc::Object(Seq::new(v.len(), |i: int| (dec(i as nat), point_doc(v[i]))))
}

/// All crosspoints as documents show them.
pub open spec fn map_doc(s: Seq<(String, Vec<Option<(InputKind, usize)>>)>) -> Doc {
    Doc::Object(
        s.map_values(
            |e: (String, Vec<Option<(InputKind, usize)>>)| (e.0@, points_doc(points(e.1@))),
        ),
    )
}

fn points_json(v: &Vec<Option<(InputKind, usize)>>) -> (r: Json)
    ensures
        r@ == points_doc(points(v@)),
{
    let mut out = no_entries();
    let ghost want = points_doc(points(v@))->Object_0;
    for i in 0..v.len()
        invariant
            want == points_doc(points(v@))->Object_0,
            fields(out@) == want.take(i as int),
    {
        let j = match &v[i] {
            Some((k, ch)) => Json::new_object().with("input", Json::Text(k.id())).with(
                "channel_index",
                Json::whole(*ch as u64),
            ),
            None => Json::new_object().with("input", Json::Null).with("channel_index", Json::Null),
        };
        put_entry(&mut out, decimal(i as u64), j);
        assert(fields(out@) =~= want.take(i + 1));
    }
    assert(fields(out@) =~= want);
    Json::object(out)
}

/// The crosspoints that are in force.
pub fn map_active_json(is08: &Is08State) -> (r: Json)
    ensures
        r@ == Doc::object().with("activation"@, no_activation()).with(
            "map"@,
            map_doc(is08.outputs.list()),
        ),
{
    let mut out = no_entries();
    let ghost want = map_doc(is08.outputs.list())->Object_0;
    let n: usize = is08.outputs.len();
    for i in 0..n
        invariant
            n == is08.outputs.list().len(),
            want == map_doc(is08.outputs.list())->Object_0,
            fields(out@) == want.take(i as int),
    {
        put_entry(
            &mut out,
            is08.outputs.key_at(i).clone(),
            points_json(is08.outputs.value_at(i)),
        );
        assert(fields(out@) =~= want.take(i + 1));
    }
    assert(fields(out@) =~= want);
    Json::new_object().with("activation", no_activation_json()).with("map", Json::object(out))
}

/// The ids of the inputs: the Sinks, then the packed flows that are read.
pub open spec fn input_ids(
    sinks: Seq<(u8, SinkEntry)>,
    packed: Seq<(String, usize)>,
) -> Seq<Doc> {
    sinks.map_values(
        |e: (u8, SinkEntry)| Doc::Text(input_id(InputModel::SinkStream(e.1.daemon_id))),
    ) + packed.map_values(
        |e: (String, usize)| Doc::Text(input_id(InputModel::SourceMxl(e.0@))),
    )
}

fn put_sink_ids(items: &mut Vec<Json>, sinks: &Table<u8, SinkEntry>)
    ensures
        docs(final(items)@) == docs(old(items)@) + sinks.list().map_values(
            |e: (u8, SinkEntry)| Doc::Text(input_id(InputModel::SinkStream(e.1.daemon_id))),
        ),
{
    let ghost was = docs(items@);
    let ghost want = sinks.list().map_values(
        |e: (u8, SinkEntry)| Doc::Text(input_id(InputModel::SinkStream(e.1.daemon_id))),
    );
    assert(docs(items@) =~= was + want.take(0));
    for i in 0..sinks.len()
        invariant
            want == sinks.list().map_values(
                |e: (u8, SinkEntry)| Doc::Text(input_id(InputModel::SinkStream(e.1.daemon_id))),
            ),
            docs(items@) == was + want.take(i as int),
    {
        put_item(items, Json::Text(InputKind::SinkStream(sinks.value_at(i).daemon_id).id()));
        assert(docs(items@) =~= was + want.take(i + 1));
    }
    assert(want.take(want.len() as int) =~= want);
}

fn put_packed_ids(items: &mut Vec<Json>, packed: &Table<String, usize>)
    ensures
        docs(final(items)@) == docs(old(items)@) + packed.list().map_values(
            |e: (String, usize)| Doc::Text(input_id(InputModel::SourceMxl(e.0@))),
        ),
{
    let ghost was = docs(items@);
    let ghost want = packed.list().map_values(
        |e: (String, usize)| Doc::Text(input_id(InputModel::SourceMxl(e.0@))),
    );
    assert(docs(items@) =~= was + want.take(0));
    for i in 0..packed.len()
        invariant
            want == packed.list().map_values(
                |e: (String, usize)| Doc::Text(input_id(InputModel::SourceMxl(e.0@))),
            ),
            docs(items@) == was + want.take(i as int),
    {
        put_item(items, Json::Text(InputKind::SourceMxl(packed.key_at(i).clone()).id()));
        assert(docs(items@) =~= was + want.take(i + 1));
    }
    assert(want.take(want.len() as int) =~= want);
}

/// The list of inputs.
pub fn inputs_list(sinks: &Table<u8, SinkEntry>, is08: &Is08State) -> (r: Reply)
    ensures
        r@ == (200u16, Doc::Array(input_ids(sinks.list(), is08.packed_tx_sizes.list()))),
{
    let mut items = no_items();
    put_sink_ids(&mut items, sinks);
    put_packed_ids(&mut items, &is08.packed_tx_sizes);
    assert(docs(items@) =~= input_ids(sinks.list(), is08.packed_tx_sizes.list()));
    ok(Json::array(items))
}

/// The width of an input that exists.
pub open spec fn existing_width(sinks: Map<u8, usize>, packed: Map<Seq<char>, usize>, m: InputModel) -> Option<
    usize,
> {
    match m {
        InputModel::SinkStream(n) => if sinks.contains_key(n) {
            Some(sinks[n])
        } else {
            None
        },
        InputModel::SourceMxl(name) => if packed.contains_key(name) {
            Some(packed[name])
        } else {
            None
        },
    }
}

/// The width of the input with an id.
pub open spec fn named_width(
    sinks: Table<u8, SinkEntry>,
    is08: Is08State,
    id: Seq<char>,
) -> Option<usize> {
    match parsed_input(id) {
        Some(m) => existing_width(sink_widths(sinks), is08.packed_tx_sizes@, m),
        None => None,
    }
}

fn input_channel_count(sinks: &Table<u8, SinkEntry>, is08: &Is08State, id: &str) -> (r: Option<usize>)
    requires
        sinks.wf(),
        is08.wf(),
    ensures
        r == named_width(*sinks, *is08, id@),
{
    match InputKind::parse(id) {
        Some(InputKind::SinkStream(n)) => match sinks.get(&n) {
            Some(e) => Some(e.channels as usize),
            None => None,
        },
        Some(InputKind::SourceMxl(name)) => match is08.packed_tx_sizes.get(&name) {
            Some(w) => Some(*w),
            None => None,
        },
        None => None,
    }
}

/// What an input can do: its channels go anywhere, one by one.
pub fn input_caps(sinks: &Table<u8, SinkEntry>, is08: &Is08State, id: &str) -> (r: Reply)
    requires
        sinks.wf(),
        is08.wf(),
    ensures
        r@ == (if named_width(*sinks, *is08, id@) is Some {
            (
                200u16,
                Doc::object().with("reordering"@, Doc::Bool(false)).with(
                    "block_size"@,
                    Doc::Number(whole(1)),
                ),
            )
        } else {
            error_reply(404, "Not Found"@)
        }),
{
    if input_channel_count(sinks, is08, id).is_none() {
        return not_found();
    }
    ok(
        Json::new_object().with("reordering", Json::Bool(false)).with(
            "block_size",
            Json::whole(1),
        ),
    )
}

/// The resource behind an input: the sender of a Sink; a packed flow has none.
pub fn input_parent(sinks: &Table<u8, SinkEntry>, is08: &Is08State, id: &str) -> (r: Reply)
    requires
        sinks.wf(),
        is08.wf(),
    ensures
        r@ == (if named_width(*sinks, *is08, id@) is None {
            error_reply(404, "Not Found"@)
        } else {
            match parsed_input(id@)->0 {
                InputModel::SinkStream(n) => (
                    200u16,
                    Doc::object().with("id"@, id_doc(sinks@[n].sender_id)).with(
                        "type"@,
                        Doc::Text("sender"@),
                    ),
                ),
                InputModel::SourceMxl(_) => (
                    200u16,
                    Doc::object().with("id"@, Doc::Null).with("type"@, Doc::Null),
                ),
            }
        }),
{
    match InputKind::parse(id) {
        Some(InputKind::SinkStream(n)) => match sinks.get(&n) {
            Some(e) => ok(
                Json::new_object().with("id", id_json(&e.sender_id)).with(
                    "type",
                    Json::text("sender"),
                ),
            ),
            None => not_found(),
        },
        Some(InputKind::SourceMxl(name)) => if is08.packed_tx_sizes.contains_key(&name) {
            ok(Json::new_object().with("id", Json::Null).with("type", Json::Null))
        } else {
            not_found()
        },
        None => not_found(),
    }
}

/// The channels of an input or an output, with their labels.
pub open spec fn labels_doc(count: usize) -> Doc {
    Doc::Array(
        Seq::new(
            count as nat,
            |i: int| Doc::object().with("label"@, Doc::Text("Channel "@ + dec((i + 1) as nat))),
        ),
    )
}

fn labels_json(count: usize) -> (r: Json)
    ensures
        r@ == labels_doc(count),
{
    let mut items = no_items();
    let ghost want = labels_doc(count)->Array_0;
    for i in 0..count
        invariant
            want == labels_doc(count)->Array_0,
            docs(items@) == want.take(i as int),
    {
        let mut s = "Channel ".to_owned();
        s.append(decimal((i + 1) as u64).as_str());
        put_item(&mut items, Json::new_object().with("label", Json::Text(s)));
        assert(docs(items@) =~= want.take(i + 1));
    }
    assert(docs(items@) =~= want);
    Json::array(items)
}

/// The channels of an input.
pub fn input_channels(sinks: &Table<u8, SinkEntry>, is08: &Is08State, id: &str) -> (r: Reply)
    requires
        sinks.wf(),
        is08.wf(),
    ensures
        r@ == (match named_width(*sinks, *is08, id@) {
            Some(n) => (200u16, labels_doc(n)),
            None => error_reply(404, "Not Found"@),
        }),
{
    match input_channel_count(sinks, is08, id) {
        Some(n) => ok(labels_json(n)),
        None => not_found(),
    }
}

/// A name without a description.
pub open spec fn named_doc(name: Seq<char>) -> Doc {
    Doc::object().with("name"@, Doc::Text(name)).with("description"@, Doc::Text(""@))
}

fn named(prefix: &str, name: &str) -> (r: Reply)
    ensures
        r@ == (200u16, named_doc(prefix@ + name@)),
{
    let mut s = prefix.to_owned();
    s.append(name);
    ok(Json::new_object().with("name", Json::Text(s)).with("description", Json::text("")))
}

/// The name of an input.
pub fn input_properties(sinks: &Table<u8, SinkEntry>, is08: &Is08State, id: &str) -> (r: Reply)
    requires
        sinks.wf(),
        is08.wf(),
    ensures
        r@ == (if named_width(*sinks, *is08, id@) is None {
            error_reply(404, "Not Found"@)
        } else {
            match parsed_input(id@)->0 {
                InputModel::SinkStream(n) => (
                    200u16,
                    named_doc("Stream Rx: "@ + sinks@[n].label@),
                ),
                InputModel::SourceMxl(name) => (200u16, named_doc("Packed TX: "@ + name)),
            }
        }),
{
    match InputKind::parse(id) {
        Some(InputKind::SinkStream(n)) => match sinks.get(&n) {
            Some(e) => named("Stream Rx: ", e.label.as_str()),
            None => not_found(),
        },
        Some(InputKind::SourceMxl(name)) => if is08.packed_tx_sizes.contains_key(&name) {
            named("Packed TX: ", name.as_str())
        } else {
            not_found()
        },
        None => not_found(),
    }
}

/// The list of outputs.
pub fn outputs_list(is08: &Is08State) -> (r: Reply)
    ensures
        r@ == (
            200u16,
            Doc::Array(
                is08.outputs.list().map_values(
                    |e: (String, Vec<Option<(InputKind, usize)>>)| Doc::Text(e.0@),
                ),
            ),
        ),
{
    let mut items = no_items();
    let ghost want = is08.outputs.list().map_values(
        |e: (String, Vec<Option<(InputKind, usize)>>)| Doc::Text(e.0@),
    );
    let n: usize = is08.outputs.len();
    for i in 0..n
        invariant
            n == is08.outputs.list().len(),
            want == is08.outputs.list().map_values(
                |e: (String, Vec<Option<(InputKind, usize)>>)| Doc::Text(e.0@),
            ),
            docs(items@) == want.take(i as int),
    {
        put_item(&mut items, Json::text(is08.outputs.key_at(i).as_str()));
        assert(docs(items@) =~= want.take(i + 1));
    }
    assert(docs(items@) =~= want);
    ok(Json::array(items))
}

/// The inputs that an output can take: none, the Sinks, and for a Source also the packed flows.
pub open spec fn routable(
    sinks: Seq<(u8, SinkEntry)>,
    packed: Seq<(String, usize)>,
    m: OutputModel,
) -> Seq<Doc> {
    Seq::empty().push(Doc::Null) + input_ids(
        sinks,
        (match m {
            OutputModel::SourceStream(_) => packed,
            OutputModel::SinkMxl(_) => Seq::empty(),
        }),
    )
}

/// What an output can take.
pub fn output_caps(sinks: &Table<u8, SinkEntry>, is08: &Is08State, id: &str) -> (r: Reply)
    requires
        is08.wf(),
    ensures
        r@ == (match parsed_output(id@) {
            Some(m) => if is08.outputs@.contains_key(output_id(m)) {
                (
                    200u16,
                    Doc::object().with(
                        "routable_inputs"@,
                        Doc::Array(routable(sinks.list(), is08.packed_tx_sizes.list(), m)),
                    ),
                )
            } else {
                error_reply(404, "Not Found"@)
            },
            None => error_reply(404, "Not Found"@),
        }),
{
    let kind = match OutputKind::parse(id) {
        Some(k) => k,
        None => {
            return not_found();
        },
    };
    if !is08.outputs.contains_key(&kind.id()) {
        return not_found();
    }
    let mut items = no_items();
    put_item(&mut items, Json::Null);
    put_sink_ids(&mut items, sinks);
    if let OutputKind::SourceStream(_) = &kind {
        put_packed_ids(&mut items, &is08.packed_tx_sizes);
    }
    assert(docs(items@) =~= routable(sinks.list(), is08.packed_tx_sizes.list(), kind@));
    ok(Json::new_object().with("routable_inputs", Json::array(items)))
}

/// The resource behind an output: the receiver of a Source; a packed flow has none.
pub fn output_sourceid(sources: &Table<u8, SourceEntry>, is08: &Is08State, id: &str) -> (r: Reply)
    requires
        sources.wf(),
        is08.wf(),
    ensures
        r@ == (match parsed_output(id@) {
            Some(OutputModel::SourceStream(n)) => if sources@.contains_key(n) {
                (200u16, id_doc(sources@[n].receiver_id))
            } else {
                error_reply(404, "Not Found"@)
            },
            Some(OutputModel::SinkMxl(name)) => if is08.outputs@.contains_key(
                output_id(OutputModel::SinkMxl(name)),
            ) {
                (200u16, Doc::Null)
            } else {
                error_reply(404, "Not Found"@)
            },
            None => error_reply(404, "Not Found"@),
        }),
{
    match OutputKind::parse(id) {
        Some(OutputKind::SourceStream(n)) => match sources.get(&n) {
            Some(e) => ok(id_json(&e.receiver_id)),
            None => not_found(),
        },
        Some(OutputKind::SinkMxl(name)) => if is08.outputs.contains_key(
            &OutputKind::SinkMxl(name).id(),
        ) {
            ok(Json::Null)
        } else {
            not_found()
        },
        None => not_found(),
    }
}

/// The channels of an output.
pub fn output_channels(is08: &Is08State, id: &str) -> (r: Reply)
    requires
        is08.wf(),
    ensures
        r@ == (match parsed_output(id@) {
            Some(m) => if is08.outputs@.contains_key(output_id(m)) {
                (200u16, labels_doc(is08.outputs@[output_id(m)]@.len() as usize))
            } else {
                error_reply(404, "Not Found"@)
            },
            None => error_reply(404, "Not Found"@),
        }),
{
    match OutputKind::parse(id) {
        Some(k) => match is08.outputs.get(&k.id()) {
            Some(v) => ok(labels_json(v.len())),
            None => not_found(),
        },
        None => not_found(),
    }
}

/// The name of an output.
pub fn output_properties(sources: &Table<u8, SourceEntry>, is08: &Is08State, id: &str) -> (r: Reply)
    requires
        sources.wf(),
        is08.wf(),
    ensures
        r@ == (match parsed_output(id@) {
            Some(OutputModel::SourceStream(n)) => if sources@.contains_key(n) {
                (200u16, named_doc("Stream Tx: "@ + sources@[n].label@))
            } else {
                error_reply(404, "Not Found"@)
            },
            Some(OutputModel::SinkMxl(name)) => if is08.outputs@.contains_key(
                output_id(OutputModel::SinkMxl(name)),
            ) {
                (200u16, named_doc("Packed RX: "@ + name))
            } else {
                error_reply(404, "Not Found"@)
            },
            None => error_reply(404, "Not Found"@),
        }),
{
    match OutputKind::parse(id) {
        Some(OutputKind::SourceStream(n)) => match sources.get(&n) {
            Some(e) => named("Stream Tx: ", e.label.as_str()),
            None => not_found(),
        },
        Some(OutputKind::SinkMxl(name)) => {
            let key = OutputKind::SinkMxl(name.clone()).id();
            if is08.outputs.contains_key(&key) {
                named("Packed RX: ", name.as_str())
            } else {
                not_found()
            }
        },
        None => not_found(),
    }
}

/// An activation as documents show it.
pub open spec fn activation_doc(mode: Seq<char>, time: Option<Seq<char>>, action: Doc) -> Doc {
    Doc::object().with(
        "activation"@,
        Doc::object().with("mode"@, Doc::Text(mode)).with("requested_time"@, Doc::Null).with(
            "activation_time"@,
            crate::json::text_or_null(time),
        ),
    ).with("action"@, action)
}

fn activation_json(mode: &str, time: Option<&str>, action: Json) -> (r: Json)
    ensures
        r@ == activation_doc(mode@, crate::json::option_str_view(time), action@),
{
    Json::new_object().with(
        "activation",
        Json::new_object().with("mode", Json::text(mode)).with("requested_time", Json::Null).with(
            "activation_time",
            Json::text_or_null(time),
        ),
    ).with("action", action)
}

/// What a kept activation shows.
pub open spec fn pending_doc(p: PendingActivation) -> Doc {
    activation_doc(p.mode@, crate::json::option_view(p.activation_time), p.action@)
}

fn pending_json(p: &PendingActivation) -> (r: Json)
    ensures
        r@ == pending_doc(*p),
{
    let time: Option<&str> = match &p.activation_time {
        Some(t) => Some(t.as_str()),
        None => None,
    };
    activation_json(p.mode.as_str(), time, p.action.copy())
}

/// The list of activations that are kept.
pub fn activations_list(is08: &Is08State) -> (r: Reply)
    ensures
        r@ == (
            200u16,
            Doc::Object(
                is08.activations.list().map_values(
                    |e: (String, PendingActivation)| (e.0@, pending_doc(e.1)),
                ),
            ),
        ),
{
    let mut out = no_entries();
    let ghost want = is08.activations.list().map_values(
        |e: (String, PendingActivation)| (e.0@, pending_doc(e.1)),
    );
    let n: usize = is08.activations.len();
    for i in 0..n
        invariant
            n == is08.activations.list().len(),
            want == is08.activations.list().map_values(
                |e: (String, PendingActivation)| (e.0@, pending_doc(e.1)),
            ),
            fields(out@) == want.take(i as int),
    {
        put_entry(
            &mut out,
            is08.activations.key_at(i).clone(),
            pending_json(is08.activations.value_at(i)),
        );
        assert(fields(out@) =~= want.take(i + 1));
    }
    assert(fields(out@) =~= want);
    ok(Json::object(out))
}

/// The activation with an id.
pub fn activation_get(is08: &Is08State, id: &str) -> (r: Reply)
    requires
        is08.wf(),
    ensures
        r@ == (if is08.activations@.contains_key(id@) {
            (200u16, pending_doc(is08.activations@[id@]))
        } else {
            error_reply(404, "Not Found"@)
        }),
{
    match is08.activations.get(&id.to_owned()) {
        Some(p) => ok(pending_json(p)),
        None => not_found(),
    }
}

/// Takes the activation with an id back.
pub fn activation_delete(is08: &mut Is08State, id: &str) -> (r: Reply)
    requires
        old(is08).wf(),
    ensures
        final(is08).wf(),
        final(is08)@ == old(is08)@,
        final(is08).activations@ == old(is08).activations@.remove(id@),
        r@ == (if old(is08).activations@.contains_key(id@) {
            (204u16, Doc::Null)
        } else {
            error_reply(404, "Not Found"@)
        }),
{
    match is08.activations.remove(&id.to_owned()) {
        Some(_) => Reply { status: 204, body: Json::Null },
        None => not_found(),
    }
}

/// The mode that a request for an activation names.
pub open spec fn requested_mode(body: Doc) -> Seq<char> {
    match body.field("activation"@) {
        Some(a) => match a.text_field("mode"@) {
            Some(m) => m,
            None => Seq::empty(),
        },
        None => Seq::empty(),
    }
}

/// The action of a request for an activation.
pub open spec fn requested_action(body: Doc) -> Option<Seq<(Seq<char>, Doc)>> {
    match body.field("action"@) {
        Some(a) => a.entries(),
        None => None,
    }
}

/// The answer to a request for an activation, the crosspoints after it and the count of activations:
/// one that has no mode or no action, or whose action cannot be applied, is refused.
pub open spec fn posted(
    m: Is08Model,
    sinks: Map<u8, usize>,
    sources: Map<u8, usize>,
    count: u64,
    body: Doc,
    now: (u64, u64),
) -> ((u16, Doc), Is08Model, u64) {
    match (requested_mode(body).len() > 0, requested_action(body)) {
        (true, Some(action)) => match applied(m, sinks, sources, action) {
            Err(e) => (error_reply(400, e), m, count),
            Ok(n) => (
                (
                    200u16,
                    Doc::object().with(
                        dec(count as nat),
                        activation_doc(
                            requested_mode(body),
                            Some(version_text(now)),
                            body.field("action"@)->0,
                        ),
                    ),
                ),
                n,
                count.wrapping_add(1),
            ),
        },
        _ => (error_reply(400, "Could not match the request to the schema"@), m, count),
    }
}

/// Applies a request for an activation at once, whatever its mode, and forgets it.
pub fn activations_post(
    sinks: &Table<u8, SinkEntry>,
    sources: &Table<u8, SourceEntry>,
    is08: &mut Is08State,
    body: &Json,
    now: (u64, u64),
) -> (r: Reply)
    requires
        sinks.wf(),
        sources.wf(),
        old(is08).wf(),
    ensures
        final(is08).wf(),
        final(is08).activations == old(is08).activations,
        (r@, final(is08)@, final(is08).activation_counter) == posted(
            old(is08)@,
            sink_widths(*sinks),
            source_widths(*sources),
            old(is08).activation_counter,
            body@,
            now,
        ),
{
    let mode = match body.get("activation") {
        Some(a) => match a.text_field("mode") {
            Some(m) => m,
            None => "",
        },
        None => "",
    };
    proof {
        reveal_strlit("");
        assert(""@ =~= Seq::<char>::empty());
        assert(mode@ == requested_mode(body@));
    }
    if mode.is_empty() {
        return bad_request("Could not match the request to the schema");
    }
    let whole_action = match body.get("action") {
        Some(a) => a,
        None => {
            return bad_request("Could not match the request to the schema");
        },
    };
    let action = match whole_action.as_object() {
        Some(es) => es,
        None => {
            return bad_request("Could not match the request to the schema");
        },
    };
    match apply_action(sinks, sources, is08, action, false) {
        Ok(_) => {},
        Err(e) => {
            return bad_request(e.as_str());
        },
    }
    let id: u64 = is08.activation_counter;
    is08.activation_counter = id.wrapping_add(1);
    let time = version_string(now);
    ok(
        Json::new_object().with(
            decimal(id).as_str(),
            activation_json(mode, Some(time.as_str()), whole_action.copy()),
        ),
    )
}

/// The channels of the device that one slot of a packed flow goes to within one Source, behind
/// others: those of the Source's channels whose crosspoint takes the slot.
pub open spec fn source_targets(
    v: Seq<Option<(InputModel, usize)>>,
    map: Seq<u8>,
    name: Seq<char>,
    slot: usize,
    before: Seq<usize>,
) -> Seq<usize>
    decreases v.len(),
{
    if v.len() == 0 {
        before
    } else {
        let rest = source_targets(v.drop_last(), map, name, slot, before);
        let c = v.len() - 1;
        if v.last() == Some((InputModel::SourceMxl(name), slot)) && c < map.len() {
            rest.push(map[c] as usize)
        } else {
            rest
        }
    }
}

/// The channels of the device that one slot of a packed flow goes to.
pub open spec fn slot_targets(
    outputs: Seq<(String, Vec<Option<(InputKind, usize)>>)>,
    sources: Map<u8, SourceEntry>,
    name: Seq<char>,
    slot: usize,
) -> Seq<usize>
    decreases outputs.len(),
{
    if outputs.len() == 0 {
        Seq::empty()
    } else {
        let rest = slot_targets(outputs.drop_last(), sources, name, slot);
        match parsed_output(outputs.last().0@) {
            Some(OutputModel::SourceStream(n)) => if sources.contains_key(n) {
                source_targets(points(outputs.last().1@), sources[n].map@, name, slot, rest)
            } else {
                rest
            },
            _ => rest,
        }
    }
}

fn put_source_targets(
    out: &mut Vec<usize>,
    v: &Vec<Option<(InputKind, usize)>>,
    map: &Vec<u8>,
    name: &str,
    slot: usize,
)
    ensures
        final(out)@ == source_targets(points(v@), map@, name@, slot, old(out)@),
{
    let ghost all = points(v@);
    let ghost was = out@;
    assert(all.take(0) =~= Seq::empty());
    for c in 0..v.len()
        invariant
            all == points(v@),
            out@ == source_targets(all.take(c as int), map@, name@, slot, was),
    {
        assert(all.take(c + 1).drop_last() =~= all.take(c as int));
        let taken = match &v[c] {
            Some((InputKind::SourceMxl(n), ch)) => *ch == slot && same(n.as_str(), name),
            _ => false,
        };
        assert(taken == (all[c as int] == Some((InputModel::SourceMxl(name@), slot))));
        if taken && c < map.len() {
            out.push(map[c] as usize);
        }
    }
    assert(all.take(all.len() as int) =~= all);
}

/// Where the slots of a packed flow go: for each slot the channels of the device.
pub fn scatter_table(
    is08: &Is08State,
    sources: &Table<u8, SourceEntry>,
    name: &str,
    size: usize,
) -> (r: Vec<Vec<usize>>)
    requires
        is08.wf(),
        sources.wf(),
    ensures
        r@.len() == size,
        forall|slot: int|
            0 <= slot < size ==> (#[trigger] r@[slot])@ == slot_targets(
                is08.outputs.list(),
                sources@,
                name@,
                slot as usize,
            ),
{
    let mut out: Vec<Vec<usize>> = Vec::new();
    let ghost all = is08.outputs.list();
    let n: usize = is08.outputs.len();
    for slot in 0..size
        invariant
            n == all.len(),
            all == is08.outputs.list(),
            is08.wf(),
            sources.wf(),
            out@.len() == slot,
            forall|k: int|
                0 <= k < slot ==> (#[trigger] out@[k])@ == slot_targets(
                    all,
                    sources@,
                    name@,
                    k as usize,
                ),
    {
        let mut targets: Vec<usize> = Vec::new();
        assert(all.take(0) =~= Seq::empty());
        for i in 0..n
            invariant
                n == all.len(),
                all == is08.outputs.list(),
                is08.wf(),
                sources.wf(),
                targets@ == slot_targets(all.take(i as int), sources@, name@, slot),
        {
            assert(all.take(i + 1).drop_last() =~= all.take(i as int));
            if let Some(OutputKind::SourceStream(id)) = OutputKind::parse(
                is08.outputs.key_at(i).as_str(),
            ) {
                if let Some(e) = sources.get(&id) {
                    put_source_targets(
                        &mut targets,
                        is08.outputs.value_at(i),
                        &e.map,
                        name,
                        slot,
                    );
                }
            }
        }
        assert(all.take(all.len() as int) =~= all);
        out.push(targets);
    }
    out
}

} // verus!
