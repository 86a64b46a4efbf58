//! What holds of the crosspoints: what an action sets and what it leaves, and how outputs follow the
//! daemon's Sources.

use vstd::prelude::*;
use vstd::string::*;

use crate::bridge::nmos::is08::{
    applied, greatest_key, input_id, key_index, lemma_new_outputs_keep, lemma_points_keep_size,
    mapping_max, output_id, output_width, parsed_input, parsed_output, points, points_doc,
    posted, resolved,
    resolved_entries, resolved_entry, routable, scanned, scanned_inputs, scanned_output, slot_targets,
    source_targets, with_new_outputs, with_points, with_source_output, Context, InputKind,
    InputModel, Is08Model, OutputModel, WorkModel,
};
use crate::bridge::nmos::state::{SinkEntry, SourceEntry};
use crate::bridge::provision::lemma_first_is_digit;
use crate::json::{lemma_field_empty, lemma_field_with, lemma_lookup_at, Doc};
use crate::nmos::version_text;
use crate::text::{dec, lemma_dec_injective, signed_value};

verus! {

/// The output of a Source has as many channels as the Source. A crosspoint whose channel there was
/// before and is still there stays as it was, and a channel that there was not is not mapped. No
/// other output changes.
pub proof fn law_an_output_follows_its_source(m: Is08Model, id: u8, channels: nat, key: Seq<char>)
    ensures
        ({
            let own = output_id(OutputModel::SourceStream(id));
            let now = with_source_output(m, id, channels);
            &&& now.outputs.contains_key(own)
            &&& now.outputs[own].len() == channels
            &&& forall|i: int|
                0 <= i < channels ==> #[trigger] now.outputs[own][i] == (
                if m.outputs.contains_key(own) && i < m.outputs[own].len() {
                    m.outputs[own][i]
                } else {
                    None
                })
            &&& key != own ==> now.outputs.contains_key(key) == m.outputs.contains_key(key)
                && now.outputs[key] == m.outputs[key]
            &&& now.packed_tx == m.packed_tx
        }),
{
}

/// Whether an entry of an action is about a channel of an output.
pub open spec fn about(
    action: Seq<(Seq<char>, Doc)>,
    a: int,
    j: int,
    id: Seq<char>,
    channel: int,
) -> bool {
    &&& 0 <= a < action.len()
    &&& action[a].0 == id
    &&& action[a].1 matches Doc::Object(es) && 0 <= j < es.len() && signed_value(es[j].0) == Some(
        channel,
    )
}

/// The entry of an action.
pub open spec fn entry(action: Seq<(Seq<char>, Doc)>, a: int, j: int) -> Doc {
    action[a].1->Object_0[j].1
}

/// The channel that an entry names: the first, where it names none.
pub open spec fn named_channel(d: Doc) -> int {
    match d.signed_field("channel_index"@) {
        Some(n) => n as int,
        None => 0,
    }
}

/// Whether a crosspoint is the one that an entry asks for: none, where it names no input.
pub open spec fn is_asked(d: Doc, p: Option<(InputModel, usize)>) -> bool {
    match d.text_field("input"@) {
        None => p is None,
        Some(id) => p matches Some((m, ch)) && parsed_input(id) == Some(m) && ch == named_channel(
            d,
        ),
    }
}

/// Whether a crosspoint to be set stems from an entry.
spec fn stems(
    c: Context,
    action: Seq<(Seq<char>, Doc)>,
    a: int,
    j: int,
    w: WorkModel,
) -> bool {
    &&& 0 <= a < action.len()
    &&& action[a].1 matches Doc::Object(es) && 0 <= j < es.len() && (output_width(c, action[a].0)
        matches Some(width) && resolved_entry(c, action[a].0, width, es[j]) == Ok::<
        WorkModel,
        Seq<char>,
    >(w))
}

proof fn lemma_entries(
    c: Context,
    id: Seq<char>,
    width: usize,
    es: Seq<(Seq<char>, Doc)>,
    before: Seq<WorkModel>,
)
    requires
        resolved_entries(c, id, width, es, before) is Ok,
    ensures
        ({
            let w = resolved_entries(c, id, width, es, before)->Ok_0;
            &&& w.len() == before.len() + es.len()
            &&& forall|p: int| 0 <= p < before.len() ==> #[trigger] w[p] == before[p]
            &&& forall|p: int|
                before.len() <= p < w.len() ==> resolved_entry(c, id, width, es[p - before.len()])
                    == Ok::<WorkModel, Seq<char>>(#[trigger] w[p])
        }),
    decreases es.len(),
{
    if es.len() > 0 {
        lemma_entries(c, id, width, es.drop_last(), before);
        let v = resolved_entries(c, id, width, es.drop_last(), before)->Ok_0;
        let w = resolved_entries(c, id, width, es, before)->Ok_0;
        assert forall|p: int| before.len() <= p < w.len() implies resolved_entry(
            c,
            id,
            width,
            es[p - before.len()],
        ) == Ok::<WorkModel, Seq<char>>(#[trigger] w[p]) by {
            if p < v.len() {
                assert(w[p] == v[p]);
                assert(es.drop_last()[p - before.len()] == es[p - before.len()]);
            }
        }
    }
}

/// Every entry gives a crosspoint to be set.
proof fn lemma_work_of(c: Context, action: Seq<(Seq<char>, Doc)>, a: int, j: int) -> (p: int)
    requires
        resolved(c, action) is Ok,
        0 <= a < action.len(),
        action[a].1 matches Doc::Object(es) && 0 <= j < es.len(),
    ensures
        0 <= p < resolved(c, action)->Ok_0.len(),
        stems(c, action, a, j, resolved(c, action)->Ok_0[p]),
    decreases action.len(),
{
    let rest = action.drop_last();
    let v = resolved(c, rest)->Ok_0;
    let w = resolved(c, action)->Ok_0;
    let (id, d) = action.last();
    let width = output_width(c, id)->0;
    if let Doc::Object(es) = d {
        lemma_entries(c, id, width, es, v);
    }
    if a < rest.len() {
        assert(rest[a] == action[a]);
        let p = lemma_work_of(c, rest, a, j);
        assert(w[p] == v[p]);
        p
    } else {
        let p = v.len() + j;
        assert(resolved_entry(c, id, width, (d->Object_0)[p - v.len()]) == Ok::<
            WorkModel,
            Seq<char>,
        >(w[p]));
        p
    }
}

/// Every crosspoint to be set is that of an entry.
proof fn lemma_origin(c: Context, action: Seq<(Seq<char>, Doc)>, p: int) -> (r: (int, int))
    requires
        resolved(c, action) is Ok,
        0 <= p < resolved(c, action)->Ok_0.len(),
    ensures
        stems(c, action, r.0, r.1, resolved(c, action)->Ok_0[p]),
    decreases action.len(),
{
    let rest = action.drop_last();
    let v = resolved(c, rest)->Ok_0;
    let w = resolved(c, action)->Ok_0;
    let (id, d) = action.last();
    let width = output_width(c, id)->0;
    if let Doc::Object(es) = d {
        lemma_entries(c, id, width, es, v);
    }
    if p < v.len() {
        let r = lemma_origin(c, rest, p);
        assert(rest[r.0] == action[r.0]);
        assert(w[p] == v[p]);
        r
    } else {
        assert(resolved_entry(c, id, width, (d->Object_0)[p - v.len()]) == Ok::<
            WorkModel,
            Seq<char>,
        >(w[p]));
        (action.len() - 1, p - v.len())
    }
}

/// Crosspoints that are all set alike are as they were set; one that is not set stays.
proof fn lemma_points_set(
    outputs: Map<Seq<char>, Seq<Option<(InputModel, usize)>>>,
    work: Seq<WorkModel>,
    key: Seq<char>,
    ch: int,
    input: Option<(InputModel, usize)>,
)
    requires
        outputs.contains_key(key),
        0 <= ch < outputs[key].len(),
        forall|p: int|
            0 <= p < work.len() && (#[trigger] work[p]).key == key && work[p].channel == ch
                ==> work[p].input == input,
    ensures
        (exists|p: int|
            0 <= p < work.len() && (#[trigger] work[p]).key == key && work[p].channel == ch)
            ==> with_points(outputs, work)[key][ch] == input,
        (forall|p: int|
            0 <= p < work.len() ==> (#[trigger] work[p]).key != key || work[p].channel != ch)
            ==> with_points(outputs, work)[key][ch] == outputs[key][ch],
    decreases work.len(),
{
    if work.len() > 0 {
        let rest = work.drop_last();
        assert(forall|p: int| 0 <= p < rest.len() ==> rest[p] == work[p]);
        lemma_points_set(outputs, rest, key, ch, input);
        lemma_points_keep_size(outputs, rest, key);
        assert(work[work.len() - 1] == work.last());
        if exists|p: int|
            0 <= p < work.len() && (#[trigger] work[p]).key == key && work[p].channel == ch {
            if !(work.last().key == key && work.last().channel == ch) {
                let p = choose|p: int|
                    0 <= p < work.len() && (#[trigger] work[p]).key == key && work[p].channel == ch;
                assert(rest[p] == work[p]);
            }
        }
    }
}

proof fn lemma_points_add_none(
    outputs: Map<Seq<char>, Seq<Option<(InputModel, usize)>>>,
    work: Seq<WorkModel>,
    key: Seq<char>,
)
    requires
        !outputs.contains_key(key),
    ensures
        !with_points(outputs, work).contains_key(key),
    decreases work.len(),
{
    if work.len() > 0 {
        lemma_points_add_none(outputs, work.drop_last(), key);
    }
}

proof fn lemma_new_outputs(
    outputs: Map<Seq<char>, Seq<Option<(InputModel, usize)>>>,
    action: Seq<(Seq<char>, Doc)>,
    rx: Map<Seq<char>, usize>,
    key: Seq<char>,
)
    requires
        !outputs.contains_key(key),
    ensures
        with_new_outputs(outputs, action, rx).contains_key(key) <==> (parsed_output(key) matches Some(
            OutputModel::SinkMxl(_),
        )) && exists|a: int| 0 <= a < action.len() && (#[trigger] action[a]).0 == key,
        with_new_outputs(outputs, action, rx).contains_key(key) ==> forall|i: int|
            0 <= i < with_new_outputs(outputs, action, rx)[key].len() ==> (
            #[trigger] with_new_outputs(outputs, action, rx)[key][i]) is None,
        with_new_outputs(outputs, action, rx).contains_key(key) ==> (match parsed_output(key) {
            Some(OutputModel::SinkMxl(name)) => rx.contains_key(name)
                ==> with_new_outputs(outputs, action, rx)[key].len() == rx[name],
            _ => true,
        }),
    decreases action.len(),
{
    if action.len() > 0 {
        let rest = action.drop_last();
        lemma_new_outputs(outputs, rest, rx, key);
        assert(forall|a: int| 0 <= a < rest.len() ==> rest[a] == action[a]);
        assert(action[action.len() - 1] == action.last());
        if exists|a: int| 0 <= a < action.len() && (#[trigger] action[a]).0 == key {
            if action.last().0 != key {
                let a = choose|a: int| 0 <= a < action.len() && (#[trigger] action[a]).0 == key;
                assert(rest[a].0 == key);
            }
        }
    }
}

/// An action that is accepted sets every crosspoint it asks for, to the input and the channel that
/// it names, or to none where it names no input, as long as it does not ask for two things at one
/// place.
pub proof fn law_an_action_sets_what_it_asks_for(
    m: Is08Model,
    sinks: Map<u8, usize>,
    sources: Map<u8, usize>,
    action: Seq<(Seq<char>, Doc)>,
    a: int,
    j: int,
    id: Seq<char>,
    channel: int,
)
    requires
        applied(m, sinks, sources, action) is Ok,
        about(action, a, j, id, channel),
        forall|b: int, k: int|
            #![trigger about(action, b, k, id, channel)]
            about(action, b, k, id, channel) ==> (entry(action, b, k).text_field("input"@)
                == entry(action, a, j).text_field("input"@) && named_channel(entry(action, b, k))
                == named_channel(entry(action, a, j))),
    ensures
        ({
            let now = applied(m, sinks, sources, action)->Ok_0;
            now.outputs.contains_key(id) && channel < now.outputs[id].len() ==> channel >= 0
                && is_asked(entry(action, a, j), now.outputs[id][channel])
        }),
{
    let sizes = scanned(action, m.outputs.dom())->Ok_0;
    let c = Context { sinks, sources, known: m, sizes };
    let work = resolved(c, action)->Ok_0;
    let created = with_new_outputs(m.outputs, action, sizes.rx);
    let now = applied(m, sinks, sources, action)->Ok_0;
    let q = lemma_work_of(c, action, a, j);
    assert(work[q].key == id && work[q].channel == channel);
    if now.outputs.contains_key(id) && channel < now.outputs[id].len() {
        if !created.contains_key(id) {
            lemma_points_add_none(created, work, id);
        }
        lemma_points_keep_size(created, work, id);
        assert forall|p: int|
            0 <= p < work.len() && (#[trigger] work[p]).key == id && work[p].channel
                == channel implies work[p].input == work[q].input by {
            let (b, k) = lemma_origin(c, action, p);
            assert(about(action, b, k, id, channel));
        }
        lemma_points_set(created, work, id, channel, work[q].input);
    }
}

/// An action touches nothing that it does not ask for: every other crosspoint stays, no output
/// goes, and the only outputs that come are packed flows that it names, with no crosspoints but
/// those that it sets.
pub proof fn law_an_action_leaves_the_rest(
    m: Is08Model,
    sinks: Map<u8, usize>,
    sources: Map<u8, usize>,
    action: Seq<(Seq<char>, Doc)>,
    id: Seq<char>,
    channel: int,
)
    requires
        applied(m, sinks, sources, action) is Ok,
    ensures
        ({
            let now = applied(m, sinks, sources, action)->Ok_0;
            let asked = exists|a: int, j: int| about(action, a, j, id, channel);
            &&& m.outputs.contains_key(id) ==> now.outputs.contains_key(id)
            &&& m.outputs.contains_key(id) && !asked && 0 <= channel < m.outputs[id].len()
                ==> now.outputs[id][channel] == m.outputs[id][channel]
            &&& !m.outputs.contains_key(id) ==> (now.outputs.contains_key(id) <==> ((parsed_output(
                id,
            ) matches Some(OutputModel::SinkMxl(_))) && exists|a: int|
                0 <= a < action.len() && (#[trigger] action[a]).0 == id))
            &&& !m.outputs.contains_key(id) && now.outputs.contains_key(id) && !asked && 0
                <= channel < now.outputs[id].len() ==> now.outputs[id][channel] is None
        }),
{
    let sizes = scanned(action, m.outputs.dom())->Ok_0;
    let c = Context { sinks, sources, known: m, sizes };
    let work = resolved(c, action)->Ok_0;
    let created = with_new_outputs(m.outputs, action, sizes.rx);
    let now = applied(m, sinks, sources, action)->Ok_0;
    if m.outputs.contains_key(id) {
        lemma_new_outputs_keep(m.outputs, action, sizes.rx, id);
    } else {
        lemma_new_outputs(m.outputs, action, sizes.rx, id);
    }
    if created.contains_key(id) {
        lemma_points_keep_size(created, work, id);
    } else {
        lemma_points_add_none(created, work, id);
    }
    if !(exists|a: int, j: int| about(action, a, j, id, channel)) && created.contains_key(id) && 0
        <= channel < created[id].len() {
        assert forall|p: int| 0 <= p < work.len() implies (#[trigger] work[p]).key != id
            || work[p].channel != channel by {
            let (b, k) = lemma_origin(c, action, p);
            if work[p].key == id && work[p].channel == channel {
                assert(about(action, b, k, id, channel));
            }
        }
        lemma_points_set(created, work, id, channel, None);
    }
}

/// An action is accepted only where everything that it names exists: each output, a channel of it,
/// and, where an entry names an input, that input and a channel of it.
pub proof fn law_an_accepted_action_names_what_exists(
    m: Is08Model,
    sinks: Map<u8, usize>,
    sources: Map<u8, usize>,
    action: Seq<(Seq<char>, Doc)>,
    a: int,
    j: int,
)
    requires
        applied(m, sinks, sources, action) is Ok,
        0 <= a < action.len(),
        action[a].1 matches Doc::Object(es) && 0 <= j < es.len(),
    ensures
        ({
            let now = applied(m, sinks, sources, action)->Ok_0;
            let id = action[a].0;
            let (k, d) = action[a].1->Object_0[j];
            &&& signed_value(k) matches Some(n) && n >= 0 && match parsed_output(id) {
                Some(OutputModel::SourceStream(s)) => sources.contains_key(s) && n < sources[s],
                Some(OutputModel::SinkMxl(_)) => m.outputs.contains_key(id) ==> n
                    < m.outputs[id].len() as usize,
                None => false,
            }
            &&& d.text_field("input"@) matches Some(i) ==> named_channel(d) >= 0 && match parsed_input(
                i,
            ) {
                Some(InputModel::SinkStream(s)) => sinks.contains_key(s) && named_channel(d)
                    < sinks[s],
                Some(InputModel::SourceMxl(name)) => now.packed_tx.contains_key(name)
                    && named_channel(d) < now.packed_tx[name],
                None => false,
            }
        }),
{
    let sizes = scanned(action, m.outputs.dom())->Ok_0;
    let c = Context { sinks, sources, known: m, sizes };
    let work = resolved(c, action)->Ok_0;
    let q = lemma_work_of(c, action, a, j);
}

/// Whether an entry names an input that exists, and a channel of it, or no input.
pub open spec fn input_exists(m: Is08Model, sinks: Map<u8, usize>, d: Doc) -> bool {
    d.text_field("input"@) matches Some(i) ==> named_channel(d) >= 0 && match parsed_input(i) {
        Some(InputModel::SinkStream(s)) => sinks.contains_key(s) && named_channel(d) < sinks[s],
        Some(InputModel::SourceMxl(name)) => m.packed_tx.contains_key(name) && named_channel(d)
            < m.packed_tx[name],
        None => false,
    }
}

/// Whether a mapping names an output that exists, channels of it, and inputs that exist.
pub open spec fn mapping_exists(
    m: Is08Model,
    sinks: Map<u8, usize>,
    sources: Map<u8, usize>,
    e: (Seq<char>, Doc),
) -> bool {
    let width: int = match parsed_output(e.0) {
        Some(OutputModel::SourceStream(s)) => if sources.contains_key(s) {
            sources[s] as int
        } else {
            -1
        },
        Some(OutputModel::SinkMxl(_)) => if m.outputs.contains_key(e.0) {
            m.outputs[e.0].len() as usize as int
        } else {
            -1
        },
        None => -1,
    };
    &&& width >= 0
    &&& e.1 matches Doc::Object(es) && forall|j: int|
        0 <= j < es.len() ==> (signed_value((#[trigger] es[j]).0) matches Some(n) && 0 <= n < width
            && n <= i64::MAX) && input_exists(m, sinks, es[j].1)
}

proof fn lemma_inputs_scanned(
    m: Is08Model,
    sinks: Map<u8, usize>,
    es: Seq<(Seq<char>, Doc)>,
    tx: Map<Seq<char>, usize>,
)
    requires
        forall|j: int| 0 <= j < es.len() ==> input_exists(m, sinks, (#[trigger] es[j]).1),
    ensures
        scanned_inputs(es, tx) is Ok,
    decreases es.len(),
{
    if es.len() > 0 {
        assert(forall|j: int| 0 <= j < es.len() - 1 ==> es.drop_last()[j] == es[j]);
        assert(es[es.len() - 1] == es.last());
        lemma_inputs_scanned(m, sinks, es.drop_last(), tx);
    }
}

proof fn lemma_all_scanned(
    m: Is08Model,
    sinks: Map<u8, usize>,
    sources: Map<u8, usize>,
    action: Seq<(Seq<char>, Doc)>,
)
    requires
        forall|a: int|
            0 <= a < action.len() ==> mapping_exists(m, sinks, sources, #[trigger] action[a]),
    ensures
        scanned(action, m.outputs.dom()) is Ok,
    decreases action.len(),
{
    if action.len() > 0 {
        assert(forall|a: int| 0 <= a < action.len() - 1 ==> action.drop_last()[a] == action[a]);
        lemma_all_scanned(m, sinks, sources, action.drop_last());
        let e = action.last();
        assert(mapping_exists(m, sinks, sources, action[action.len() - 1]));
        let es = e.1->Object_0;
        assert(e.1.entries() == Some(es));
        let s = scanned(action.drop_last(), m.outputs.dom())->Ok_0;
        assert(forall|j: int|
            0 <= j < es.len() ==> input_exists(m, sinks, (#[trigger] es[j]).1));
        lemma_inputs_scanned(m, sinks, es, s.tx);
    }
}

proof fn lemma_entries_resolved(
    c: Context,
    e: (Seq<char>, Doc),
    width: usize,
    es: Seq<(Seq<char>, Doc)>,
    before: Seq<WorkModel>,
)
    requires
        forall|j: int|
            0 <= j < es.len() ==> (signed_value((#[trigger] es[j]).0) matches Some(n) && 0 <= n
                < width && n <= i64::MAX) && input_exists(c.known, c.sinks, es[j].1),
    ensures
        resolved_entries(c, e.0, width, es, before) is Ok,
    decreases es.len(),
{
    if es.len() > 0 {
        assert(forall|j: int| 0 <= j < es.len() - 1 ==> es.drop_last()[j] == es[j]);
        assert(es[es.len() - 1] == es.last());
        lemma_entries_resolved(c, e, width, es.drop_last(), before);
    }
}

proof fn lemma_all_resolved(c: Context, action: Seq<(Seq<char>, Doc)>)
    requires
        forall|a: int|
            0 <= a < action.len() ==> mapping_exists(
                c.known,
                c.sinks,
                c.sources,
                #[trigger] action[a],
            ),
    ensures
        resolved(c, action) is Ok,
    decreases action.len(),
{
    if action.len() > 0 {
        assert(forall|a: int| 0 <= a < action.len() - 1 ==> action.drop_last()[a] == action[a]);
        lemma_all_resolved(c, action.drop_last());
        let e = action.last();
        assert(mapping_exists(c.known, c.sinks, c.sources, action[action.len() - 1]));
        let es = e.1->Object_0;
        assert(e.1.entries() == Some(es));
        lemma_entries_resolved(
            c,
            e,
            output_width(c, e.0)->0,
            es,
            resolved(c, action.drop_last())->Ok_0,
        );
    }
}

/// An action that names only what exists is accepted.
pub proof fn law_an_action_on_what_exists_is_accepted(
    m: Is08Model,
    sinks: Map<u8, usize>,
    sources: Map<u8, usize>,
    action: Seq<(Seq<char>, Doc)>,
)
    requires
        forall|a: int|
            0 <= a < action.len() ==> mapping_exists(m, sinks, sources, #[trigger] action[a]),
    ensures
        applied(m, sinks, sources, action) is Ok,
{
    lemma_all_scanned(m, sinks, sources, action);
    let sizes = scanned(action, m.outputs.dom())->Ok_0;
    lemma_all_resolved(Context { sinks, sources, known: m, sizes }, action);
}

proof fn lemma_packed_name(x: Seq<char>, y: Seq<char>)
    requires
        parsed_output(x) matches Some(OutputModel::SinkMxl(_)),
        parsed_output(x) == parsed_output(y),
    ensures
        x == y,
{
    let name = parsed_output(x)->0->SinkMxl_0;
    assert(x =~= "packed-rx:"@ + name);
    assert(y =~= "packed-rx:"@ + name);
}

proof fn lemma_greatest_key(es: Seq<(Seq<char>, Doc)>, output: Seq<char>)
    requires
        greatest_key(es, output) is Ok,
    ensures
        match greatest_key(es, output)->Ok_0 {
            None => es.len() == 0,
            Some(n) => (exists|j: int|
                0 <= j < es.len() && key_index((#[trigger] es[j]).0) == Some(n)) && forall|j: int|
                0 <= j < es.len() ==> (key_index((#[trigger] es[j]).0) matches Some(k) && k <= n),
        },
    decreases es.len(),
{
    if es.len() > 0 {
        let rest = es.drop_last();
        lemma_greatest_key(rest, output);
        assert(forall|j: int| 0 <= j < rest.len() ==> rest[j] == es[j]);
        assert(es[es.len() - 1] == es.last());
        let n = greatest_key(es, output)->Ok_0->0;
        if key_index(es.last().0) != Some(n) {
            let j = choose|j: int|
                0 <= j < rest.len() && key_index((#[trigger] rest[j]).0) == Some(n);
            assert(key_index(es[j].0) == Some(n));
        }
    }
}

proof fn lemma_new_size(
    action: Seq<(Seq<char>, Doc)>,
    known: Set<Seq<char>>,
    a: int,
    name: Seq<char>,
)
    requires
        scanned(action, known) is Ok,
        0 <= a < action.len(),
        parsed_output(action[a].0) == Some(OutputModel::SinkMxl(name)),
        !known.contains(action[a].0),
        forall|b: int| 0 <= b < action.len() && b != a ==> (#[trigger] action[b]).0 != action[a].0,
    ensures
        action[a].1.entries() is Some,
        mapping_max(action[a].1.entries()->0, action[a].0) is Ok,
        scanned(action, known)->Ok_0.rx.contains_key(name),
        scanned(action, known)->Ok_0.rx[name] == mapping_max(
            action[a].1.entries()->0,
            action[a].0,
        )->Ok_0 + 1,
    decreases action.len(),
{
    let rest = action.drop_last();
    let last = action.last();
    assert(action[action.len() - 1] == last);
    if a < rest.len() {
        assert(forall|b: int| 0 <= b < rest.len() ==> rest[b] == action[b]);
        lemma_new_size(rest, known, a, name);
        if parsed_output(last.0) == Some(OutputModel::SinkMxl(name)) {
            lemma_packed_name(last.0, action[a].0);
        }
    } else {
        let es = last.1.entries()->0;
        let s = scanned(rest, known)->Ok_0;
        assert(scanned_output(last.0, es, known, s.rx) is Ok);
        let max = mapping_max(es, last.0)->Ok_0;
        lemma_greatest_key(es, last.0);
        assert(max < usize::MAX);
    }
}

/// A packed flow that an action brings is as wide as the highest of its channels that the action
/// mentions: every channel that is mentioned is within it, and the last one is mentioned.
pub proof fn law_a_new_packed_flow_is_as_wide_as_asked(
    m: Is08Model,
    sinks: Map<u8, usize>,
    sources: Map<u8, usize>,
    action: Seq<(Seq<char>, Doc)>,
    a: int,
)
    requires
        applied(m, sinks, sources, action) is Ok,
        0 <= a < action.len(),
        parsed_output(action[a].0) matches Some(OutputModel::SinkMxl(_)),
        !m.outputs.contains_key(action[a].0),
        forall|b: int| 0 <= b < action.len() && b != a ==> (#[trigger] action[b]).0 != action[a].0,
    ensures
        ({
            let now = applied(m, sinks, sources, action)->Ok_0;
            let id = action[a].0;
            &&& now.outputs.contains_key(id)
            &&& action[a].1 matches Doc::Object(es) && {
                &&& exists|j: int|
                    0 <= j < es.len() && signed_value((#[trigger] es[j]).0) == Some(
                        now.outputs[id].len() - 1,
                    )
                &&& forall|j: int|
                    0 <= j < es.len() ==> (signed_value((#[trigger] es[j]).0) matches Some(n) && 0
                        <= n < now.outputs[id].len())
            }
        }),
{
    let known = m.outputs.dom();
    let sizes = scanned(action, known)->Ok_0;
    let c = Context { sinks, sources, known: m, sizes };
    let work = resolved(c, action)->Ok_0;
    let created = with_new_outputs(m.outputs, action, sizes.rx);
    let now = applied(m, sinks, sources, action)->Ok_0;
    let id = action[a].0;
    let name = parsed_output(id)->0->SinkMxl_0;
    lemma_new_size(action, known, a, name);
    lemma_new_outputs(m.outputs, action, sizes.rx, id);
    lemma_points_keep_size(created, work, id);
    let es = action[a].1.entries()->0;
    lemma_greatest_key(es, id);
    let n = mapping_max(es, id)->Ok_0;
    assert forall|j: int| 0 <= j < es.len() implies (signed_value((#[trigger] es[j]).0) matches Some(
        k,
    ) && 0 <= k < now.outputs[id].len()) && (key_index(es[j].0) == Some(n) ==> signed_value(es[j].0)
        == Some(n as int)) by {
        let q = lemma_work_of(c, action, a, j);
        assert(stems(c, action, a, j, work[q]));
        if es[j].0[0] == '-' {
            lemma_first_is_digit(es[j].0);
        }
    }
    let j = choose|j: int| 0 <= j < es.len() && key_index((#[trigger] es[j]).0) == Some(n);
    assert(signed_value(es[j].0) == Some(now.outputs[id].len() - 1));
}

proof fn lemma_source_targets(
    v: Seq<Option<(InputModel, usize)>>,
    map: Seq<u8>,
    name: Seq<char>,
    slot: usize,
    before: Seq<usize>,
    x: usize,
)
    ensures
        source_targets(v, map, name, slot, before).contains(x) <==> before.contains(x) || exists|
            c: int,
        |
            0 <= c < v.len() && c < map.len() && #[trigger] v[c] == Some(
                (InputModel::SourceMxl(name), slot),
            ) && map[c] == x,
    decreases v.len(),
{
    let now = source_targets(v, map, name, slot, before);
    if v.len() > 0 {
        let w = v.drop_last();
        lemma_source_targets(w, map, name, slot, before, x);
        let rest = source_targets(w, map, name, slot, before);
        assert(forall|c: int| 0 <= c < w.len() ==> w[c] == v[c]);
        assert(v[v.len() - 1] == v.last());
        if now != rest {
            assert(now.drop_last() =~= rest);
            if now.contains(x) {
                let i = choose|i: int| 0 <= i < now.len() && now[i] == x;
                if i < rest.len() {
                    assert(rest[i] == x);
                    assert(rest.contains(x));
                }
            }
            if rest.contains(x) {
                let i = choose|i: int| 0 <= i < rest.len() && rest[i] == x;
                assert(now[i] == x);
            }
            assert(now[rest.len() as int] == map[v.len() - 1]);
        }
        if exists|c: int|
            0 <= c < v.len() && c < map.len() && #[trigger] v[c] == Some(
                (InputModel::SourceMxl(name), slot),
            ) && map[c] == x {
            let c = choose|c: int|
                0 <= c < v.len() && c < map.len() && #[trigger] v[c] == Some(
                    (InputModel::SourceMxl(name), slot),
                ) && map[c] == x;
            if c < w.len() {
                assert(w[c] == v[c]);
            }
        }
    }
}

/// Whether a crosspoint takes a slot of a packed flow to a channel of the device: it stands in the
/// output of a Source, at the place that the Source's map gives that channel.
pub open spec fn takes(
    outputs: Seq<(String, Vec<Option<(InputKind, usize)>>)>,
    sources: Map<u8, SourceEntry>,
    name: Seq<char>,
    slot: usize,
    i: int,
    c: int,
    x: usize,
) -> bool {
    &&& 0 <= i < outputs.len()
    &&& parsed_output(outputs[i].0@) matches Some(OutputModel::SourceStream(n)) && {
        &&& sources.contains_key(n)
        &&& 0 <= c < points(outputs[i].1@).len()
        &&& c < sources[n].map@.len()
        &&& points(outputs[i].1@)[c] == Some((InputModel::SourceMxl(name), slot))
        &&& sources[n].map@[c] == x
    }
}

/// A slot of a packed flow goes to exactly the channels of the device whose crosspoints take it.
pub proof fn law_slots_go_where_crosspoints_take_them(
    outputs: Seq<(String, Vec<Option<(InputKind, usize)>>)>,
    sources: Map<u8, SourceEntry>,
    name: Seq<char>,
    slot: usize,
    x: usize,
)
    ensures
        slot_targets(outputs, sources, name, slot).contains(x) <==> exists|i: int, c: int|
            takes(outputs, sources, name, slot, i, c, x),
    decreases outputs.len(),
{
    if outputs.len() > 0 {
        let rest = outputs.drop_last();
        let last = outputs.len() - 1;
        law_slots_go_where_crosspoints_take_them(rest, sources, name, slot, x);
        assert forall|i: int, c: int|
            0 <= i < last implies takes(outputs, sources, name, slot, i, c, x) == takes(
            rest,
            sources,
            name,
            slot,
            i,
            c,
            x,
        ) by {
            assert(rest[i] == outputs[i]);
        }
        assert forall|i: int, c: int| takes(rest, sources, name, slot, i, c, x) implies takes(
            outputs,
            sources,
            name,
            slot,
            i,
            c,
            x,
        ) by {}
        if let Some(OutputModel::SourceStream(n)) = parsed_output(outputs.last().0@) {
            if sources.contains_key(n) {
                let v = points(outputs.last().1@);
                let map = sources[n].map@;
                let before = slot_targets(rest, sources, name, slot);
                lemma_source_targets(v, map, name, slot, before, x);
                assert forall|c: int|
                    0 <= c < v.len() && c < map.len() && #[trigger] v[c] == Some(
                        (InputModel::SourceMxl(name), slot),
                    ) && map[c] == x implies takes(
                    outputs,
                    sources,
                    name,
                    slot,
                    last,
                    c,
                    x,
                ) by {}
            }
        }
        if exists|i: int, c: int| takes(outputs, sources, name, slot, i, c, x) {
            let (i, c) = choose|i: int, c: int| takes(outputs, sources, name, slot, i, c, x);
            if i < last {
                assert(takes(rest, sources, name, slot, i, c, x));
            } else {
                assert(points(outputs.last().1@)[c] == Some((InputModel::SourceMxl(name), slot)));
            }
        }
    } else {
        assert(slot_targets(outputs, sources, name, slot) =~= Seq::empty());
    }
}

/// What is shown of an output is what it maps: at each channel the input and its channel, or nulls.
pub proof fn law_what_is_shown_is_what_is_mapped(v: Seq<Option<(InputModel, usize)>>, i: int)
    requires
        0 <= i < v.len(),
    ensures
        points_doc(v).field(dec(i as nat)) matches Some(d) && match v[i] {
            Some((m, ch)) => d.field("input"@) == Some(Doc::Text(input_id(m))) && d.unsigned_field(
                "channel_index"@,
            ) == Some(ch as u64),
            None => d.field("input"@) == Some(Doc::Null) && d.field("channel_index"@) == Some(
                Doc::Null,
            ),
        },
{
    broadcast use {lemma_field_with, lemma_field_empty};

    reveal_strlit("input");
    reveal_strlit("channel_index");
    assert("input"@.len() == 5 && "channel_index"@.len() == 13);
    let es = points_doc(v)->Object_0;
    assert forall|a: int, b: int| 0 <= a < b < es.len() implies (#[trigger] es[a]).0 != (
    #[trigger] es[b]).0 by {
        if es[a].0 == es[b].0 {
            lemma_dec_injective(a as nat, b as nat);
        }
    }
    lemma_lookup_at(es, i);
}

/// The inputs that an output can take: none, every Sink, and, where it is the output of a Source,
/// every packed flow that is read. A packed flow is not written from a packed flow.
pub proof fn law_what_an_output_can_take(
    sinks: Seq<(u8, SinkEntry)>,
    packed: Seq<(String, usize)>,
    m: OutputModel,
    i: int,
)
    ensures
        routable(sinks, packed, m).contains(Doc::Null),
        0 <= i < sinks.len() ==> routable(sinks, packed, m).contains(
            Doc::Text(input_id(InputModel::SinkStream(sinks[i].1.daemon_id))),
        ),
        m is SourceStream && 0 <= i < packed.len() ==> routable(sinks, packed, m).contains(
            Doc::Text(input_id(InputModel::SourceMxl(packed[i].0@))),
        ),
        routable(sinks, packed, m).len() == 1 + sinks.len() + (if m is SourceStream {
            packed.len()
        } else {
            0
        }),
{
    let all = routable(sinks, packed, m);
    assert(all[0] == Doc::Null);
    if 0 <= i < sinks.len() {
        assert(all[1 + i] == Doc::Text(input_id(InputModel::SinkStream(sinks[i].1.daemon_id))));
    }
    if m is SourceStream && 0 <= i < packed.len() {
        assert(all[1 + sinks.len() + i] == Doc::Text(
            input_id(InputModel::SourceMxl(packed[i].0@)),
        ));
    }
}

/// Whether an entry of a mapping takes a channel of a packed flow.
pub open spec fn takes_from(d: Doc, name: Seq<char>, channel: int) -> bool {
    &&& d.text_field("input"@) matches Some(id) && parsed_input(id) == Some(
        InputModel::SourceMxl(name),
    )
    &&& named_channel(d) == channel
}

proof fn lemma_input_size(
    es: Seq<(Seq<char>, Doc)>,
    tx: Map<Seq<char>, usize>,
    name: Seq<char>,
)
    requires
        scanned_inputs(es, tx) is Ok,
        scanned_inputs(es, tx)->Ok_0.contains_key(name),
    ensures
        ({
            let size = scanned_inputs(es, tx)->Ok_0[name];
            (tx.contains_key(name) && tx[name] == size) || exists|j: int|
                0 <= j < es.len() && takes_from((#[trigger] es[j]).1, name, size - 1)
        }),
    decreases es.len(),
{
    if es.len() > 0 {
        let rest = es.drop_last();
        let m = scanned_inputs(rest, tx)->Ok_0;
        let now = scanned_inputs(es, tx)->Ok_0;
        assert(forall|j: int| 0 <= j < rest.len() ==> rest[j] == es[j]);
        assert(es[es.len() - 1] == es.last());
        if m.contains_key(name) && m[name] == now[name] {
            lemma_input_size(rest, tx, name);
            let size = now[name];
            if !(tx.contains_key(name) && tx[name] == size) {
                let j = choose|j: int|
                    0 <= j < rest.len() && takes_from((#[trigger] rest[j]).1, name, size - 1);
                assert(takes_from(es[j].1, name, size - 1));
            }
        } else {
            assert(takes_from(es[es.len() - 1].1, name, now[name] - 1));
        }
    }
}

proof fn lemma_sizes_asked(action: Seq<(Seq<char>, Doc)>, known: Set<Seq<char>>, name: Seq<char>) -> (r: (
    int,
    int,
))
    requires
        scanned(action, known) is Ok,
        scanned(action, known)->Ok_0.tx.contains_key(name),
    ensures
        0 <= r.0 < action.len(),
        action[r.0].1 matches Doc::Object(es) && 0 <= r.1 < es.len() && takes_from(
            es[r.1].1,
            name,
            scanned(action, known)->Ok_0.tx[name] - 1,
        ),
    decreases action.len(),
{
    let rest = action.drop_last();
    let s = scanned(rest, known)->Ok_0;
    let now = scanned(action, known)->Ok_0;
    let last = action.len() - 1;
    assert(action[last] == action.last());
    let es = action.last().1.entries()->0;
    lemma_input_size(es, s.tx, name);
    if s.tx.contains_key(name) && s.tx[name] == now.tx[name] {
        let r = lemma_sizes_asked(rest, known, name);
        assert(rest[r.0] == action[r.0]);
        r
    } else {
        let j = choose|j: int|
            0 <= j < es.len() && takes_from((#[trigger] es[j]).1, name, now.tx[name] - 1);
        (last, j)
    }
}

/// A packed flow that an action begins to read is as wide as the highest of its channels that the
/// action takes: the last one is taken by some entry.
pub proof fn law_a_new_input_is_as_wide_as_asked(
    m: Is08Model,
    sinks: Map<u8, usize>,
    sources: Map<u8, usize>,
    action: Seq<(Seq<char>, Doc)>,
    name: Seq<char>,
) -> (r: (int, int))
    requires
        applied(m, sinks, sources, action) is Ok,
        !m.packed_tx.contains_key(name),
        applied(m, sinks, sources, action)->Ok_0.packed_tx.contains_key(name),
    ensures
        0 <= r.0 < action.len(),
        action[r.0].1 matches Doc::Object(es) && 0 <= r.1 < es.len() && takes_from(
            es[r.1].1,
            name,
            applied(m, sinks, sources, action)->Ok_0.packed_tx[name] - 1,
        ),
{
    lemma_sizes_asked(action, m.outputs.dom(), name)
}

/// A request for an activation is applied as a whole or refused and changes nothing. It is refused
/// exactly where it names no mode, brings no action, or its action cannot be applied. What is
/// applied is answered under a number of its own, with the mode, the action and the time.
pub proof fn law_an_activation_is_applied_or_refused(
    m: Is08Model,
    sinks: Map<u8, usize>,
    sources: Map<u8, usize>,
    count: u64,
    body: Doc,
    now: (u64, u64),
)
    ensures
        ({
            let (reply, after, next) = posted(m, sinks, sources, count, body, now);
            let mode = match body.field("activation"@) {
                Some(a) => match a.field("mode"@) {
                    Some(Doc::Text(t)) => t,
                    _ => Seq::empty(),
                },
                None => Seq::empty(),
            };
            let good = mode.len() > 0 && (body.field("action"@) matches Some(Doc::Object(es))
                && applied(m, sinks, sources, es) is Ok);
            &&& good <==> reply.0 == 200
            &&& !good ==> reply.0 == 400 && after == m && next == count
            &&& good ==> {
                &&& applied(m, sinks, sources, body.field("action"@)->0->Object_0) == Ok::<
                    Is08Model,
                    Seq<char>,
                >(after)
                &&& next != count
                &&& reply.1.field(dec(count as nat)) matches Some(d) && {
                    &&& d.field("action"@) == body.field("action"@)
                    &&& d.field("activation"@) matches Some(a) && a.field("mode"@) == Some(
                        Doc::Text(mode),
                    ) && a.field("activation_time"@) == Some(Doc::Text(version_text(now)))
                }
            }
        }),
{
    broadcast use {lemma_field_with, lemma_field_empty};

    reveal_strlit("action");
    reveal_strlit("activation");
    reveal_strlit("mode");
    reveal_strlit("requested_time");
    reveal_strlit("activation_time");
    assert("action"@.len() == 6 && "activation"@.len() == 10 && "mode"@.len() == 4
        && "requested_time"@.len() == 14 && "activation_time"@.len() == 15);
}

} // verus!
