//! What holds of the control protocol: a parameter that is set reads as it was set, and no other
//! parameter changes with it.

use vstd::prelude::*;
use vstd::string::*;

use crate::console::dsp::{StageKind, StageModel};
use crate::console::engine::MixerModel;
use crate::console::mixer::{MasterModel, TrackModel};
use crate::console::patch::{
    bus_no_array, feeds_doc, master_no_array, output_or_empty, output_refusal, parsed_sum,
    parsed_track_in, slots_doc, sum_refusal, track_in_refusal, World,
};
use crate::console::ws::{
    addressed, addressed_stage, bus_value, law_path_reads_back, master_value, nth_stage, of_kind,
    parsed_sends, put, put_stage, sends_doc, stage_value, strip_path,
    track_value,
};
use crate::json::{level, Doc};
use crate::text::{dec, lemma_dec_digits, lemma_dec_value};

verus! {

proof fn lemma_params_differ()
    ensures
        "gain"@ != "fader"@,
        "gain"@ != "mute"@,
        "gain"@ != "solo"@,
        "gain"@ != "sends"@,
        "gain"@ != "input-patch"@,
        "fader"@ != "mute"@,
        "fader"@ != "solo"@,
        "fader"@ != "sends"@,
        "fader"@ != "input-patch"@,
        "mute"@ != "solo"@,
        "mute"@ != "sends"@,
        "mute"@ != "input-patch"@,
        "solo"@ != "sends"@,
        "solo"@ != "input-patch"@,
        "sends"@ != "input-patch"@,
        addressed("gain"@) is None,
        addressed("fader"@) is None,
        addressed("mute"@) is None,
        addressed("solo"@) is None,
        addressed("sends"@) is None,
        addressed("input-patch"@) is None,
{
    reveal_strlit("gain");
    reveal_strlit("fader");
    reveal_strlit("mute");
    reveal_strlit("solo");
    reveal_strlit("sends");
    reveal_strlit("input-patch");
    reveal_strlit("filter");
    reveal_strlit("eq");
    reveal_strlit("dyn1");
    reveal_strlit("dyn2");
    reveal_strlit("phase");
    reveal_strlit("delay");
    assert("gain"@.len() == 4 && "gain"@[0] == 'g');
    assert("mute"@.len() == 4 && "mute"@[0] == 'm');
    assert("solo"@.len() == 4 && "solo"@[0] == 's');
    assert("dyn1"@.len() == 4 && "dyn1"@[0] == 'd');
    assert("dyn2"@.len() == 4 && "dyn2"@[0] == 'd');
    assert("fader"@.len() == 5 && "fader"@[0] == 'f');
    assert("sends"@.len() == 5 && "sends"@[0] == 's');
    assert("phase"@.len() == 5 && "phase"@[0] == 'p');
    assert("delay"@.len() == 5 && "delay"@[0] == 'd');
    assert("input-patch"@.len() == 11 && "filter"@.len() == 6 && "eq"@.len() == 2);
}

proof fn lemma_kind_names()
    ensures
        !"channel"@.contains('/'),
        !"sum"@.contains('/'),
        !"master"@.contains('/'),
        !"output"@.contains('/'),
        !"patch"@.contains('/'),
        "channel"@ != "sum"@,
        "channel"@ != "master"@,
        "channel"@ != "output"@,
        "sum"@ != "master"@,
        "sum"@ != "output"@,
        "master"@ != "output"@,
{
    reveal_strlit("channel");
    reveal_strlit("sum");
    reveal_strlit("master");
    reveal_strlit("output");
    reveal_strlit("patch");
    let c = "channel"@;
    let s = "sum"@;
    let m = "master"@;
    let o = "output"@;
    let p = "patch"@;
    assert(c.len() == 7 && s.len() == 3 && m.len() == 6 && o.len() == 6 && p.len() == 5);
    assert(c[0] == 'c' && c[1] == 'h' && c[2] == 'a' && c[3] == 'n' && c[4] == 'n' && c[5] == 'e'
        && c[6] == 'l');
    assert(s[0] == 's' && s[1] == 'u' && s[2] == 'm');
    assert(m[0] == 'm' && m[1] == 'a' && m[2] == 's' && m[3] == 't' && m[4] == 'e' && m[5] == 'r');
    assert(o[0] == 'o' && o[1] == 'u' && o[2] == 't' && o[3] == 'p' && o[4] == 'u' && o[5] == 't');
    assert(p[0] == 'p' && p[1] == 'a' && p[2] == 't' && p[3] == 'c' && p[4] == 'h');
}

proof fn lemma_number_names(id: u32)
    ensures
        !dec(id as nat).contains('/'),
        crate::console::patch::id_value(dec(id as nat)) == Some(id),
{
    lemma_dec_value(id as nat);
    if dec(id as nat).contains('/') {
        let i = choose|i: int| 0 <= i < dec(id as nat).len() && dec(id as nat)[i] == '/';
        lemma_dec_digits(id as nat, i);
    }
}

proof fn lemma_nth(chain: Seq<StageModel>, kind: StageKind, n: nat)
    ensures
        nth_stage(chain, kind, n) matches Some(i) ==> 0 <= i < chain.len() && chain[i].kind()
            == kind && of_kind(chain.take(i), kind) == n,
    decreases chain.len(),
{
    if chain.len() > 0 {
        let rest = chain.drop_last();
        lemma_nth(rest, kind, n);
        if let Some(i) = nth_stage(rest, kind, n) {
            assert(rest.take(i) =~= chain.take(i));
        } else {
            assert(chain.take(chain.len() - 1) =~= rest);
        }
    }
}

proof fn lemma_nth_by_kinds(a: Seq<StageModel>, b: Seq<StageModel>, kind: StageKind, n: nat)
    requires
        a.len() == b.len(),
        forall|i: int| 0 <= i < a.len() ==> (#[trigger] a[i]).kind() == b[i].kind(),
    ensures
        of_kind(a, kind) == of_kind(b, kind),
        nth_stage(a, kind, n) == nth_stage(b, kind, n),
    decreases a.len(),
{
    if a.len() > 0 {
        let c = a.drop_last();
        let d = b.drop_last();
        assert(forall|i: int| 0 <= i < c.len() ==> c[i] == a[i] && d[i] == b[i]);
        assert(a[a.len() - 1].kind() == b[b.len() - 1].kind());
        lemma_nth_by_kinds(c, d, kind, n);
    }
}

proof fn lemma_none_of_kind(chain: Seq<StageModel>, kind: StageKind)
    requires
        of_kind(chain, kind) == 0,
    ensures
        forall|i: int| 0 <= i < chain.len() ==> (#[trigger] chain[i]).kind() != kind,
    decreases chain.len(),
{
    if chain.len() > 0 {
        let rest = chain.drop_last();
        lemma_none_of_kind(rest, kind);
        assert(forall|i: int| 0 <= i < rest.len() ==> rest[i] == chain[i]);
        assert(chain[chain.len() - 1] == chain.last());
    }
}

proof fn lemma_one_of_kind(chain: Seq<StageModel>, kind: StageKind) -> (j: int)
    requires
        of_kind(chain, kind) == 1,
    ensures
        0 <= j < chain.len(),
        forall|i: int| 0 <= i < chain.len() ==> ((#[trigger] chain[i]).kind() == kind <==> i == j),
    decreases chain.len(),
{
    let rest = chain.drop_last();
    assert(chain[chain.len() - 1] == chain.last());
    assert(forall|i: int| 0 <= i < rest.len() ==> rest[i] == chain[i]);
    if chain.last().kind() == kind {
        lemma_none_of_kind(rest, kind);
        assert forall|i: int| 0 <= i < chain.len() implies ((#[trigger] chain[i]).kind() == kind
            <==> i == chain.len() - 1) by {
            if i < rest.len() {
                assert(rest[i] == chain[i]);
            }
        }
        chain.len() - 1
    } else {
        lemma_one_of_kind(rest, kind)
    }
}

/// The stage that a parameter addresses is the first of its kind; `dyn2` addresses the second
/// dynamics stage.
pub proof fn law_parameters_address_stages(chain: Seq<StageModel>, param: Seq<char>)
    ensures
        addressed_stage(chain, param) matches Some(i) ==> {
            &&& 0 <= i < chain.len()
            &&& param == "filter"@ ==> chain[i] is Filter
            &&& param == "eq"@ ==> chain[i] is Eq
            &&& param == "dyn1"@ || param == "dyn2"@ ==> chain[i] is Dynamics
            &&& param == "phase"@ ==> chain[i] is Phase
            &&& param == "delay"@ ==> chain[i] is Delay
            &&& param != "dyn2"@ ==> forall|j: int|
                0 <= j < i ==> (#[trigger] chain[j]).kind() != chain[i].kind()
            &&& param == "dyn2"@ ==> exists|k: int|
                0 <= k < i && (#[trigger] chain[k]).kind() == chain[i].kind() && forall|j: int|
                    0 <= j < i && j != k ==> (#[trigger] chain[j]).kind() != chain[i].kind()
        },
{
    reveal_strlit("filter");
    reveal_strlit("eq");
    reveal_strlit("dyn1");
    reveal_strlit("dyn2");
    reveal_strlit("phase");
    reveal_strlit("delay");
    assert("filter"@.len() == 6 && "eq"@.len() == 2 && "dyn1"@.len() == 4 && "dyn2"@.len() == 4);
    assert("phase"@.len() == 5 && "delay"@.len() == 5 && "phase"@[0] == 'p' && "delay"@[0] == 'd');
    assert("dyn1"@[3] == '1' && "dyn2"@[3] == '2');
    if let Some(i) = addressed_stage(chain, param) {
        let (kind, n) = addressed(param)->0;
        lemma_nth(chain, kind, n);
        assert(forall|j: int| 0 <= j < i ==> chain.take(i)[j] == chain[j]);
        if n == 0 {
            lemma_none_of_kind(chain.take(i), kind);
        } else {
            let k = lemma_one_of_kind(chain.take(i), kind);
            assert(chain.take(i)[k] == chain[k]);
            assert forall|j: int| 0 <= j < i && j != k implies (#[trigger] chain[j]).kind()
                != chain[i].kind() by {
                assert(chain.take(i)[j] == chain[j]);
            }
        }
    }
}

/// Setting a stage touches that stage alone, and the stage stays of its kind: no other parameter
/// reads otherwise.
proof fn lemma_other_stages(chain: Seq<StageModel>, param: Seq<char>, d: Doc, other: Seq<char>)
    requires
        other != param,
    ensures
        stage_value(put_stage(chain, param, d), other) == stage_value(chain, other),
{
    let now = put_stage(chain, param, d);
    if let Some(i) = addressed_stage(chain, param) {
        let (kind, n) = addressed(param)->0;
        lemma_nth(chain, kind, n);
        if let Some((k, o)) = addressed(other) {
            lemma_nth_by_kinds(chain, now, k, o);
            lemma_nth(chain, k, o);
        }
    }
}

/// The track after a parameter of it was set, as the track should be.
pub open spec fn track_set(
    was: TrackModel,
    now: TrackModel,
    param: Seq<char>,
    d: Doc,
) -> bool {
    &&& param == "gain"@ ==> now == (match d {
        Doc::Number(n) if n.single is Some => TrackModel { gain_db: n.single->0, ..was },
        _ => was,
    })
    &&& param == "fader"@ ==> now == (match d {
        Doc::Number(n) if n.single is Some => TrackModel { fader_db: n.single->0, ..was },
        _ => was,
    })
    &&& param == "mute"@ ==> now == (match d {
        Doc::Bool(b) => TrackModel { mute: b, ..was },
        _ => was,
    })
    &&& param == "solo"@ ==> now == (match d {
        Doc::Bool(b) => TrackModel { solo: b, ..was },
        _ => was,
    })
    &&& param == "sends"@ ==> now == (match parsed_sends(d) {
        Ok(s) => TrackModel { sends: s, ..was },
        Err(_) => was,
    })
    &&& param == "input-patch"@ ==> now == was
    &&& now == (TrackModel {
        gain_db: now.gain_db,
        fader_db: now.fader_db,
        mute: now.mute,
        solo: now.solo,
        sends: now.sends,
        chain: now.chain,
        ..was
    })
}

/// A parameter of a track that is set to a valid value reads as that value, which is what clients
/// are told. A value that is not valid leaves the track as it is. No other parameter of the track
/// reads otherwise afterwards.
pub proof fn law_a_set_track_parameter_reads_back(
    m: MixerModel,
    w: World,
    mixer_id: u32,
    id: u32,
    param: Seq<char>,
    d: Doc,
    other: Seq<char>,
)
    requires
        m.tracks.contains_key(id),
        m.tracks[id].id == id,
        !param.contains('/'),
        other != param,
    ensures
        ({
            let path = strip_path(mixer_id, "channel"@, dec(id as nat), param);
            let e = put(m, w, mixer_id, path, Some(d));
            let was = m.tracks[id];
            let now = e.mixer.tracks[id];
            let read = track_value(now, e.mixer.patch, param);
            &&& e.mixer.tracks.contains_key(id)
            &&& e.updates == seq![(path, read)]
            &&& track_set(was, now, param, d)
            &&& (param == "gain"@ || param == "fader"@) && (d matches Doc::Number(n) && n.single is Some)
                ==> read == level(d->Number_0.single->0) && e.refused is None
            &&& (param == "mute"@ || param == "solo"@) && d is Bool ==> read == d && e.refused is None
            &&& param == "sends"@ ==> (parsed_sends(d) matches Ok(s) ==> read == sends_doc(s)
                && e.refused is None)
            &&& param == "input-patch"@ ==> match parsed_track_in(d) {
                Ok(s) => if track_in_refusal(w, id, s) is None {
                    read == slots_doc(s) && e.refused is None
                } else {
                    e.refused is Some && e.mixer.patch == m.patch
                },
                Err(_) => e.refused is Some && e.mixer.patch == m.patch,
            }
            &&& addressed_stage(was.chain, param) matches Some(i) ==> read
                == was.chain[i].applied(d).doc() && e.refused is None
            &&& addressed(param) is Some && addressed_stage(was.chain, param) is None ==> e.refused is Some
                && now == was
            &&& track_value(now, e.mixer.patch, other) == track_value(was, m.patch, other)
        }),
{
    lemma_params_differ();
    lemma_kind_names();
    lemma_number_names(id);
    law_path_reads_back(mixer_id, "channel"@, dec(id as nat), param);
    let was = m.tracks[id];
    lemma_other_stages(was.chain, param, d, other);
    let path = strip_path(mixer_id, "channel"@, dec(id as nat), param);
    let e = put(m, w, mixer_id, path, Some(d));
    if let Some(i) = addressed_stage(was.chain, param) {
        let (kind, n) = addressed(param)->0;
        lemma_nth(was.chain, kind, n);
        let now = put_stage(was.chain, param, d);
        lemma_nth_by_kinds(was.chain, now, kind, n);
    }
}

/// A parameter of a master that is set to a valid value reads as that value, which is what clients
/// are told. A value that is not valid leaves the master as it is. No other parameter of the master
/// reads otherwise afterwards.
pub proof fn law_a_set_master_parameter_reads_back(
    m: MixerModel,
    w: World,
    mixer_id: u32,
    id: u32,
    param: Seq<char>,
    d: Doc,
    other: Seq<char>,
)
    requires
        m.masters.contains_key(id),
        m.masters[id].id == id,
        !param.contains('/'),
        other != param,
    ensures
        ({
            let path = strip_path(mixer_id, "master"@, dec(id as nat), param);
            let e = put(m, w, mixer_id, path, Some(d));
            let was = m.masters[id];
            let now = e.mixer.masters[id];
            let read = master_value(now, e.mixer.patch, param);
            &&& e.mixer.masters.contains_key(id)
            &&& e.updates == seq![(path, read)]
            &&& param == "fader"@ ==> now == (match d {
                Doc::Number(n) if n.single is Some => MasterModel {
                    fader_db: n.single->0,
                    ..was
                },
                _ => was,
            })
            &&& param == "mute"@ ==> now == (match d {
                Doc::Bool(b) => MasterModel { mute: b, ..was },
                _ => was,
            })
            &&& param == "fader"@ && (d matches Doc::Number(n) && n.single is Some) ==> read == level(
                d->Number_0.single->0,
            ) && e.refused is None
            &&& param == "mute"@ && d is Bool ==> read == d && e.refused is None
            &&& param == "input-patch"@ ==> match parsed_sum(d, master_no_array()) {
                Ok(s) => if sum_refusal(w, "master's"@, was.channels, s) is None {
                    read == feeds_doc(s) && e.refused is None
                } else {
                    e.refused is Some && e.mixer.patch == m.patch
                },
                Err(_) => e.refused is Some && e.mixer.patch == m.patch,
            }
            &&& addressed_stage(was.chain, param) matches Some(i) ==> read
                == was.chain[i].applied(d).doc() && e.refused is None
            &&& addressed(param) is Some && addressed_stage(was.chain, param) is None ==> e.refused is Some
                && now == was
            &&& master_value(now, e.mixer.patch, other) == master_value(was, m.patch, other)
        }),
{
    lemma_params_differ();
    lemma_kind_names();
    lemma_number_names(id);
    law_path_reads_back(mixer_id, "master"@, dec(id as nat), param);
    let was = m.masters[id];
    lemma_other_stages(was.chain, param, d, other);
    if let Some(i) = addressed_stage(was.chain, param) {
        let (kind, n) = addressed(param)->0;
        lemma_nth(was.chain, kind, n);
        let now = put_stage(was.chain, param, d);
        lemma_nth_by_kinds(was.chain, now, kind, n);
    }
}

/// A patch that is set for a bus or for an output and is accepted reads as it was set, which is what
/// clients are told; one that is refused changes nothing.
pub proof fn law_a_set_patch_reads_back(
    m: MixerModel,
    w: World,
    mixer_id: u32,
    bus: u32,
    output: Seq<char>,
    d: Doc,
)
    requires
        !output.contains('/'),
    ensures
        m.buses.contains_key(bus) && m.buses[bus].id == bus ==> ({
            let path = strip_path(mixer_id, "sum"@, dec(bus as nat), "input-patch"@);
            let e = put(m, w, mixer_id, path, Some(d));
            let read = bus_value(m.buses[bus], e.mixer.patch, "input-patch"@);
            &&& e.updates == seq![(path, read)]
            &&& e.mixer.buses == m.buses
            &&& match parsed_sum(d, bus_no_array()) {
                Ok(s) => if sum_refusal(w, "bus's"@, m.buses[bus].channels, s) is None {
                    read == feeds_doc(s) && e.refused is None
                } else {
                    e.refused is Some && e.mixer == m
                },
                Err(_) => e.refused is Some && e.mixer == m,
            }
        }),
        m.outputs.contains_key(output) ==> ({
            let path = strip_path(mixer_id, "output"@, output, "patch"@);
            let e = put(m, w, mixer_id, path, Some(d));
            let channels = m.outputs[output].channels;
            let read = slots_doc(output_or_empty(e.mixer.patch.output, output, channels));
            &&& e.updates == seq![(path, read)]
            &&& e.mixer.outputs == m.outputs
            &&& match parsed_track_in(d) {
                Ok(s) => if output_refusal(w, channels, s) is None {
                    read == slots_doc(s) && e.refused is None
                } else {
                    e.refused is Some && e.mixer == m
                },
                Err(_) => e.refused is Some && e.mixer == m,
            }
        }),
{
    lemma_kind_names();
    lemma_number_names(bus);
    reveal_strlit("input-patch");
    let p = "input-patch"@;
    assert(!p.contains('/')) by {
        if p.contains('/') {
            let i = choose|i: int| 0 <= i < p.len() && p[i] == '/';
            assert(p[0] == 'i' && p[1] == 'n' && p[2] == 'p' && p[3] == 'u' && p[4] == 't' && p[5]
                == '-' && p[6] == 'p' && p[7] == 'a' && p[8] == 't' && p[9] == 'c' && p[10] == 'h');
        }
    }
    law_path_reads_back(mixer_id, "sum"@, dec(bus as nat), p);
    law_path_reads_back(mixer_id, "output"@, output, "patch"@);
}

} // verus!
