//! The processing stages that a track or a master can carry, with their parameters.
//!
//! A parameter that is a number is held by the bits of its single-precision value. A stage that is
//! not part of a chain does not exist: it is not one that is present and off.

use vstd::prelude::*;

use crate::json::{docs, lemma_field_empty, lemma_field_with, level, written, Doc, Json};
use crate::single::finite;

verus! {

/// Which stage occupies a slot of a chain.
#[derive(Clone, Copy, Debug, PartialEq, Eq, Structural)]
pub enum StageKind {
    Filter,
    Eq,
    Dynamics,
    Phase,
    Delay,
}

impl StageKind {
    /// The name of a kind in messages.
    pub open spec fn name(self) -> Seq<char> {
        match self {
            StageKind::Filter => "filter"@,
            StageKind::Eq => "eq"@,
            StageKind::Dynamics => "dynamics"@,
            StageKind::Phase => "phase"@,
            StageKind::Delay => "delay"@,
        }
    }

    /// The name of the kind in messages.
    pub fn wire(self) -> (r: &'static str)
        ensures
            r@ == self.name(),
    {
        match self {
            StageKind::Filter => "filter",
            StageKind::Eq => "eq",
            StageKind::Dynamics => "dynamics",
            StageKind::Phase => "phase",
            StageKind::Delay => "delay",
        }
    }
}

/// The bits of 0.0, 1.0, 10.0, 20.0, 100.0 and 20000.0.
pub const ZERO: u32 = 0x0000_0000;

pub const ONE: u32 = 0x3f80_0000;

pub const TEN: u32 = 0x4120_0000;

pub const TWENTY: u32 = 0x41a0_0000;

pub const HUNDRED: u32 = 0x42c8_0000;

pub const TWENTY_THOUSAND: u32 = 0x469c_4000;

/// A high-pass and a low-pass filter.
#[derive(Clone, Copy, Debug, PartialEq, Eq, Structural)]
pub struct FilterStage {
    pub on: bool,
    pub hp_hz: u32,
    pub lp_hz: u32,
}

/// One band of an equaliser.
#[derive(Clone, Copy, Debug, PartialEq, Eq, Structural)]
pub struct EqBand {
    pub freq_hz: u32,
    pub gain_db: u32,
    pub q: u32,
}

/// An equaliser.
#[derive(Clone, Debug, PartialEq)]
pub struct EqStage {
    pub on: bool,
    pub bands: Vec<EqBand>,
}

/// A dynamics processor.
#[derive(Clone, Copy, Debug, PartialEq, Eq, Structural)]
pub struct DynamicsStage {
    pub on: bool,
    pub threshold_db: u32,
    pub ratio: u32,
    pub attack_ms: u32,
    pub release_ms: u32,
    pub makeup_db: u32,
}

/// A phase inverter.
#[derive(Clone, Copy, Debug, PartialEq, Eq, Structural)]
pub struct PhaseStage {
    pub invert: bool,
}

/// A delay.
#[derive(Clone, Copy, Debug, PartialEq, Eq, Structural)]
pub struct DelayStage {
    pub on: bool,
    pub delay_ms: u32,
}

/// One occupied slot of a chain.
#[derive(Clone, Debug, PartialEq)]
pub enum ProcessingStage {
    Filter(FilterStage),
    Eq(EqStage),
    Dynamics(DynamicsStage),
    Phase(PhaseStage),
    Delay(DelayStage),
}

/// What a [`ProcessingStage`] says.
pub enum StageModel {
    Filter(FilterStage),
    Eq { on: bool, bands: Seq<EqBand> },
    Dynamics(DynamicsStage),
    Phase(PhaseStage),
    Delay(DelayStage),
}

impl View for ProcessingStage {
    type V = StageModel;

    open spec fn view(&self) -> StageModel {
        match *self {
            ProcessingStage::Filter(s) => StageModel::Filter(s),
            ProcessingStage::Eq(s) => StageModel::Eq { on: s.on, bands: s.bands@ },
            ProcessingStage::Dynamics(s) => StageModel::Dynamics(s),
            ProcessingStage::Phase(s) => StageModel::Phase(s),
            ProcessingStage::Delay(s) => StageModel::Delay(s),
        }
    }
}

/// A value, or another where a message does not give it.
pub open spec fn given<T>(v: Option<T>, otherwise: T) -> T {
    match v {
        Some(x) => x,
        None => otherwise,
    }
}

/// The band that a message denotes, where it has all three numbers.
pub open spec fn parsed_band(d: Doc) -> Option<EqBand> {
    match (d.single_field("freq_hz"@), d.single_field("gain_db"@), d.single_field("q"@)) {
        (Some(freq_hz), Some(gain_db), Some(q)) => Some(EqBand { freq_hz, gain_db, q }),
        _ => None,
    }
}

/// The bands that items denote, without the items that denote none.
pub open spec fn parsed_bands(items: Seq<Doc>) -> Seq<EqBand>
    decreases items.len(),
{
    if items.len() == 0 {
        Seq::empty()
    } else {
        match parsed_band(items.last()) {
            Some(b) => parsed_bands(items.drop_last()).push(b),
            None => parsed_bands(items.drop_last()),
        }
    }
}

/// The items under a key, where there is an array.
pub open spec fn items_field(d: Doc, key: Seq<char>) -> Option<Seq<Doc>> {
    match d.field(key) {
        Some(x) => x.items(),
        None => None,
    }
}

impl StageModel {
    /// The kind of a stage.
    pub open spec fn kind(self) -> StageKind {
        match self {
            StageModel::Filter(_) => StageKind::Filter,
            StageModel::Eq { .. } => StageKind::Eq,
            StageModel::Dynamics(_) => StageKind::Dynamics,
            StageModel::Phase(_) => StageKind::Phase,
            StageModel::Delay(_) => StageKind::Delay,
        }
    }

    /// A stage as it is when it was just added: present, and without an audible effect.
    pub open spec fn fresh(kind: StageKind) -> StageModel {
        match kind {
            StageKind::Filter => StageModel::Filter(
                FilterStage { on: true, hp_hz: TWENTY, lp_hz: TWENTY_THOUSAND },
            ),
            StageKind::Eq => StageModel::Eq { on: true, bands: Seq::empty() },
            StageKind::Dynamics => StageModel::Dynamics(
                DynamicsStage {
                    on: true,
                    threshold_db: ZERO,
                    ratio: ONE,
                    attack_ms: TEN,
                    release_ms: HUNDRED,
                    makeup_db: ZERO,
                },
            ),
            StageKind::Phase => StageModel::Phase(PhaseStage { invert: false }),
            StageKind::Delay => StageModel::Delay(DelayStage { on: true, delay_ms: ZERO }),
        }
    }

    /// A stage after a message was applied: what the message gives is taken over, the rest stays.
    pub open spec fn applied(self, d: Doc) -> StageModel {
        match self {
            StageModel::Filter(s) => StageModel::Filter(
                FilterStage {
                    on: given(d.boolean_field("on"@), s.on),
                    hp_hz: given(d.single_field("hp_hz"@), s.hp_hz),
                    lp_hz: given(d.single_field("lp_hz"@), s.lp_hz),
                },
            ),
            StageModel::Eq { on, bands } => StageModel::Eq {
                on: given(d.boolean_field("on"@), on),
                bands: match items_field(d, "bands"@) {
                    Some(items) => parsed_bands(items),
                    None => bands,
                },
            },
            StageModel::Dynamics(s) => StageModel::Dynamics(
                DynamicsStage {
                    on: given(d.boolean_field("on"@), s.on),
                    threshold_db: given(d.single_field("threshold_db"@), s.threshold_db),
                    ratio: given(d.single_field("ratio"@), s.ratio),
                    attack_ms: given(d.single_field("attack_ms"@), s.attack_ms),
                    release_ms: given(d.single_field("release_ms"@), s.release_ms),
                    makeup_db: given(d.single_field("makeup_db"@), s.makeup_db),
                },
            ),
            StageModel::Phase(s) => StageModel::Phase(
                PhaseStage { invert: given(d.boolean_field("invert"@), s.invert) },
            ),
            StageModel::Delay(s) => StageModel::Delay(
                DelayStage {
                    on: given(d.boolean_field("on"@), s.on),
                    delay_ms: given(d.single_field("delay_ms"@), s.delay_ms),
                },
            ),
        }
    }

    /// A stage as a message holds it.
    pub open spec fn doc(self) -> Doc {
        match self {
            StageModel::Filter(s) => Doc::object().with("on"@, Doc::Bool(s.on)).with(
                "hp_hz"@,
                level(s.hp_hz),
            ).with("lp_hz"@, level(s.lp_hz)),
            StageModel::Eq { on, bands } => Doc::object().with("on"@, Doc::Bool(on)).with(
                "bands"@,
                Doc::Array(bands.map_values(|b: EqBand| band_doc(b))),
            ),
            StageModel::Dynamics(s) => Doc::object().with("on"@, Doc::Bool(s.on)).with(
                "threshold_db"@,
                level(s.threshold_db),
            ).with("ratio"@, level(s.ratio)).with(
                "attack_ms"@,
                level(s.attack_ms),
            ).with("release_ms"@, level(s.release_ms)).with(
                "makeup_db"@,
                level(s.makeup_db),
            ),
            StageModel::Phase(s) => Doc::object().with("invert"@, Doc::Bool(s.invert)),
            StageModel::Delay(s) => Doc::object().with("on"@, Doc::Bool(s.on)).with(
                "delay_ms"@,
                level(s.delay_ms),
            ),
        }
    }
}

/// A band as a message holds it.
pub open spec fn band_doc(b: EqBand) -> Doc {
    Doc::object().with("freq_hz"@, level(b.freq_hz)).with(
        "gain_db"@,
        level(b.gain_db),
    ).with("q"@, level(b.q))
}

impl FilterStage {
    /// A filter as it is when it was just added.
    pub fn default_on() -> (r: Self)
        ensures
            StageModel::Filter(r) == StageModel::fresh(StageKind::Filter),
    {
        FilterStage { on: true, hp_hz: TWENTY, lp_hz: TWENTY_THOUSAND }
    }
}

impl EqStage {
    /// An equaliser as it is when it was just added.
    pub fn default_on() -> (r: Self)
        ensures
            r.on,
            r.bands@ == Seq::<EqBand>::empty(),
    {
        EqStage { on: true, bands: Vec::new() }
    }
}

impl DynamicsStage {
    /// A dynamics processor as it is when it was just added.
    pub fn default_on() -> (r: Self)
        ensures
            StageModel::Dynamics(r) == StageModel::fresh(StageKind::Dynamics),
    {
        DynamicsStage {
            on: true,
            threshold_db: ZERO,
            ratio: ONE,
            attack_ms: TEN,
            release_ms: HUNDRED,
            makeup_db: ZERO,
        }
    }
}

impl PhaseStage {
    /// A phase inverter as it is when it was just added.
    pub fn default_on() -> (r: Self)
        ensures
            !r.invert,
    {
        PhaseStage { invert: false }
    }
}

impl DelayStage {
    /// A delay as it is when it was just added.
    pub fn default_on() -> (r: Self)
        ensures
            StageModel::Delay(r) == StageModel::fresh(StageKind::Delay),
    {
        DelayStage { on: true, delay_ms: ZERO }
    }
}

fn parse_band(v: &Json) -> (r: Option<EqBand>)
    ensures
        r == parsed_band(v@),
{
    match (v.single_field("freq_hz"), v.single_field("gain_db"), v.single_field("q")) {
        (Some(freq_hz), Some(gain_db), Some(q)) => Some(EqBand { freq_hz, gain_db, q }),
        _ => None,
    }
}

fn parse_bands(items: &Vec<Json>) -> (r: Vec<EqBand>)
    ensures
        r@ == parsed_bands(docs(items@)),
{
    let ghost all = docs(items@);
    let mut out: Vec<EqBand> = Vec::new();
    assert(out@ =~= parsed_bands(all.take(0)));
    for i in 0..items.len()
        invariant
            all == docs(items@),
            out@ == parsed_bands(all.take(i as int)),
    {
        assert(all.take(i + 1).drop_last() =~= all.take(i as int));
        if let Some(b) = parse_band(&items[i]) {
            out.push(b);
        }
    }
    assert(all.take(items@.len() as int) =~= all);
    out
}

fn or_bool(v: Option<bool>, otherwise: bool) -> (r: bool)
    ensures
        r == given(v, otherwise),
{
    match v {
        Some(b) => b,
        None => otherwise,
    }
}

fn or_bits(v: Option<u32>, otherwise: u32) -> (r: u32)
    ensures
        r == given(v, otherwise),
{
    match v {
        Some(b) => b,
        None => otherwise,
    }
}

/// Applies a message to a filter.
pub fn apply_filter(s: &mut FilterStage, value: &Json)
    ensures
        StageModel::Filter(*final(s)) == StageModel::Filter(*old(s)).applied(value@),
{
    s.on = or_bool(value.boolean_field("on"), s.on);
    s.hp_hz = or_bits(value.single_field("hp_hz"), s.hp_hz);
    s.lp_hz = or_bits(value.single_field("lp_hz"), s.lp_hz);
}

/// Applies a message to an equaliser: a list of bands replaces the one that was there.
pub fn apply_eq(s: &mut EqStage, value: &Json)
    ensures
        (StageModel::Eq { on: final(s).on, bands: final(s).bands@ }) == (StageModel::Eq {
            on: old(s).on,
            bands: old(s).bands@,
        }).applied(value@),
{
    s.on = or_bool(value.boolean_field("on"), s.on);
    if let Some(bands) = value.get("bands") {
        if let Some(items) = bands.as_array() {
            s.bands = parse_bands(items);
        }
    }
}

/// Applies a message to a dynamics processor.
pub fn apply_dynamics(s: &mut DynamicsStage, value: &Json)
    ensures
        StageModel::Dynamics(*final(s)) == StageModel::Dynamics(*old(s)).applied(value@),
{
    s.on = or_bool(value.boolean_field("on"), s.on);
    s.threshold_db = or_bits(value.single_field("threshold_db"), s.threshold_db);
    s.ratio = or_bits(value.single_field("ratio"), s.ratio);
    s.attack_ms = or_bits(value.single_field("attack_ms"), s.attack_ms);
    s.release_ms = or_bits(value.single_field("release_ms"), s.release_ms);
    s.makeup_db = or_bits(value.single_field("makeup_db"), s.makeup_db);
}

/// Applies a message to a phase inverter.
pub fn apply_phase(s: &mut PhaseStage, value: &Json)
    ensures
        StageModel::Phase(*final(s)) == StageModel::Phase(*old(s)).applied(value@),
{
    s.invert = or_bool(value.boolean_field("invert"), s.invert);
}

/// Applies a message to a delay.
pub fn apply_delay(s: &mut DelayStage, value: &Json)
    ensures
        StageModel::Delay(*final(s)) == StageModel::Delay(*old(s)).applied(value@),
{
    s.on = or_bool(value.boolean_field("on"), s.on);
    s.delay_ms = or_bits(value.single_field("delay_ms"), s.delay_ms);
}

/// A filter as a message holds it.
pub fn filter_json(s: &FilterStage) -> (r: Json)
    ensures
        r@ == StageModel::Filter(*s).doc(),
{
    Json::new_object().with("on", Json::Bool(s.on)).with("hp_hz", Json::single(s.hp_hz)).with(
        "lp_hz",
        Json::single(s.lp_hz),
    )
}

fn band_json(b: &EqBand) -> (r: Json)
    ensures
        r@ == band_doc(*b),
{
    Json::new_object().with("freq_hz", Json::single(b.freq_hz)).with(
        "gain_db",
        Json::single(b.gain_db),
    ).with("q", Json::single(b.q))
}

/// An equaliser as a message holds it.
pub fn eq_json(s: &EqStage) -> (r: Json)
    ensures
        r@ == (StageModel::Eq { on: s.on, bands: s.bands@ }).doc(),
{
    let mut items: Vec<Json> = Vec::new();
    for i in 0..s.bands.len()
        invariant
            items@.len() == i,
            forall|k: int| 0 <= k < i ==> (#[trigger] items@[k])@ == band_doc(s.bands@[k]),
    {
        items.push(band_json(&s.bands[i]));
    }
    assert(docs(items@) =~= s.bands@.map_values(|b: EqBand| band_doc(b)));
    Json::new_object().with("on", Json::Bool(s.on)).with("bands", Json::array(items))
}

/// A dynamics processor as a message holds it.
pub fn dynamics_json(s: &DynamicsStage) -> (r: Json)
    ensures
        r@ == StageModel::Dynamics(*s).doc(),
{
    Json::new_object().with("on", Json::Bool(s.on)).with(
        "threshold_db",
        Json::single(s.threshold_db),
    ).with("ratio", Json::single(s.ratio)).with("attack_ms", Json::single(s.attack_ms)).with(
        "release_ms",
        Json::single(s.release_ms),
    ).with("makeup_db", Json::single(s.makeup_db))
}

/// A phase inverter as a message holds it.
pub fn phase_json(s: &PhaseStage) -> (r: Json)
    ensures
        r@ == StageModel::Phase(*s).doc(),
{
    Json::new_object().with("invert", Json::Bool(s.invert))
}

/// A delay as a message holds it.
pub fn delay_json(s: &DelayStage) -> (r: Json)
    ensures
        r@ == StageModel::Delay(*s).doc(),
{
    Json::new_object().with("on", Json::Bool(s.on)).with("delay_ms", Json::single(s.delay_ms))
}

impl ProcessingStage {
    /// The kind of the stage.
    pub fn kind(&self) -> (r: StageKind)
        ensures
            r == self@.kind(),
    {
        match self {
            ProcessingStage::Filter(_) => StageKind::Filter,
            ProcessingStage::Eq(_) => StageKind::Eq,
            ProcessingStage::Dynamics(_) => StageKind::Dynamics,
            ProcessingStage::Phase(_) => StageKind::Phase,
            ProcessingStage::Delay(_) => StageKind::Delay,
        }
    }

    /// A stage as it is when it was just added.
    pub fn default_on(kind: StageKind) -> (r: Self)
        ensures
            r@ == StageModel::fresh(kind),
    {
        match kind {
            StageKind::Filter => ProcessingStage::Filter(FilterStage::default_on()),
            StageKind::Eq => ProcessingStage::Eq(EqStage::default_on()),
            StageKind::Dynamics => ProcessingStage::Dynamics(DynamicsStage::default_on()),
            StageKind::Phase => ProcessingStage::Phase(PhaseStage::default_on()),
            StageKind::Delay => ProcessingStage::Delay(DelayStage::default_on()),
        }
    }

    /// Applies a message: what it gives is taken over, the rest stays.
    pub fn apply(&mut self, value: &Json)
        ensures
            final(self)@ == old(self)@.applied(value@),
    {
        match self {
            ProcessingStage::Filter(s) => apply_filter(s, value),
            ProcessingStage::Eq(s) => apply_eq(s, value),
            ProcessingStage::Dynamics(s) => apply_dynamics(s, value),
            ProcessingStage::Phase(s) => apply_phase(s, value),
            ProcessingStage::Delay(s) => apply_delay(s, value),
        }
    }

    /// The stage as a message holds it.
    pub fn to_json(&self) -> (r: Json)
        ensures
            r@ == self@.doc(),
    {
        match self {
            ProcessingStage::Filter(s) => filter_json(s),
            ProcessingStage::Eq(s) => eq_json(s),
            ProcessingStage::Dynamics(s) => dynamics_json(s),
            ProcessingStage::Phase(s) => phase_json(s),
            ProcessingStage::Delay(s) => delay_json(s),
        }
    }

    /// A stage that says the same.
    pub fn copy(&self) -> (r: Self)
        ensures
            r@ == self@,
    {
        match self {
            ProcessingStage::Filter(s) => ProcessingStage::Filter(*s),
            ProcessingStage::Eq(s) => {
                let mut bands: Vec<EqBand> = Vec::new();
                for i in 0..s.bands.len()
                    invariant
                        bands@ == s.bands@.take(i as int),
                {
                    bands.push(s.bands[i]);
                    assert(bands@ =~= s.bands@.take(i + 1));
                }
                assert(bands@ =~= s.bands@);
                ProcessingStage::Eq(EqStage { on: s.on, bands })
            },
            ProcessingStage::Dynamics(s) => ProcessingStage::Dynamics(*s),
            ProcessingStage::Phase(s) => ProcessingStage::Phase(*s),
            ProcessingStage::Delay(s) => ProcessingStage::Delay(*s),
        }
    }
}

/// A value that was written and is read over another: the other, where it is not finite.
pub open spec fn kept(bits: u32, otherwise: u32) -> u32 {
    given(written(bits), otherwise)
}

/// Whether the numbers of a band are finite.
pub open spec fn finite_band(b: EqBand) -> bool {
    finite(b.freq_hz) && finite(b.gain_db) && finite(b.q)
}

/// The bands that a message keeps: those whose numbers are finite.
pub open spec fn written_bands(bands: Seq<EqBand>) -> Seq<EqBand>
    decreases bands.len(),
{
    if bands.len() == 0 {
        Seq::empty()
    } else if finite_band(bands.last()) {
        written_bands(bands.drop_last()).push(bands.last())
    } else {
        written_bands(bands.drop_last())
    }
}

impl StageModel {
    /// A stage that was written and is read over another of its kind. What is not finite is
    /// skipped.
    pub open spec fn over(self, other: StageModel) -> StageModel {
        match (self, other) {
            (StageModel::Filter(s), StageModel::Filter(o)) => StageModel::Filter(
                FilterStage {
                    on: s.on,
                    hp_hz: kept(s.hp_hz, o.hp_hz),
                    lp_hz: kept(s.lp_hz, o.lp_hz),
                },
            ),
            (StageModel::Eq { on, bands }, StageModel::Eq { .. }) => StageModel::Eq {
                on,
                bands: written_bands(bands),
            },
            (StageModel::Dynamics(s), StageModel::Dynamics(o)) => StageModel::Dynamics(
                DynamicsStage {
                    on: s.on,
                    threshold_db: kept(s.threshold_db, o.threshold_db),
                    ratio: kept(s.ratio, o.ratio),
                    attack_ms: kept(s.attack_ms, o.attack_ms),
                    release_ms: kept(s.release_ms, o.release_ms),
                    makeup_db: kept(s.makeup_db, o.makeup_db),
                },
            ),
            (StageModel::Phase(s), StageModel::Phase(_)) => StageModel::Phase(s),
            (StageModel::Delay(s), StageModel::Delay(o)) => StageModel::Delay(
                DelayStage { on: s.on, delay_ms: kept(s.delay_ms, o.delay_ms) },
            ),
            _ => other,
        }
    }

    /// Whether the numbers of a stage are finite.
    pub open spec fn all_finite(self) -> bool {
        match self {
            StageModel::Filter(s) => finite(s.hp_hz) && finite(s.lp_hz),
            StageModel::Eq { on, bands } => forall|i: int|
                0 <= i < bands.len() ==> finite_band(#[trigger] bands[i]),
            StageModel::Dynamics(s) => finite(s.threshold_db) && finite(s.ratio) && finite(
                s.attack_ms,
            ) && finite(s.release_ms) && finite(s.makeup_db),
            StageModel::Phase(_) => true,
            StageModel::Delay(s) => finite(s.delay_ms),
        }
    }
}

proof fn lemma_band_reads_back(b: EqBand)
    ensures
        parsed_band(band_doc(b)) == (if finite_band(b) {
            Some(b)
        } else {
            None
        }),
{
    broadcast use {lemma_field_with, lemma_field_empty};

    reveal_strlit("freq_hz");
    reveal_strlit("gain_db");
    reveal_strlit("q");
    assert("freq_hz"@.len() == 7 && "gain_db"@.len() == 7 && "q"@.len() == 1);
    assert("freq_hz"@[0] != "gain_db"@[0]);
}

proof fn lemma_bands_read_back(bands: Seq<EqBand>)
    ensures
        parsed_bands(bands.map_values(|b: EqBand| band_doc(b))) == written_bands(bands),
        (forall|i: int| 0 <= i < bands.len() ==> finite_band(#[trigger] bands[i]))
            ==> written_bands(bands) == bands,
    decreases bands.len(),
{
    let ds = bands.map_values(|b: EqBand| band_doc(b));
    if bands.len() > 0 {
        lemma_bands_read_back(bands.drop_last());
        assert(ds.drop_last() =~= bands.drop_last().map_values(|b: EqBand| band_doc(b)));
        lemma_band_reads_back(bands.last());
        assert(bands.drop_last().push(bands.last()) =~= bands);
        assert(bands[bands.len() - 1] == bands.last());
        assert(forall|i: int| 0 <= i < bands.len() - 1 ==> bands.drop_last()[i] == bands[i]);
    } else {
        assert(bands =~= Seq::empty());
    }
}

/// A stage that was written into a message is what applying the message to any stage of its kind
/// gives. A value that is not finite is not written, so that of the other stage stays, and a band
/// with such a value is left out.
pub proof fn law_stage_reads_back(m: StageModel, target: StageModel)
    requires
        target.kind() == m.kind(),
    ensures
        target.applied(m.doc()) == m.over(target),
        m.all_finite() ==> target.applied(m.doc()) == m,
{
    broadcast use {lemma_field_with, lemma_field_empty};

    reveal_strlit("on");
    reveal_strlit("hp_hz");
    reveal_strlit("lp_hz");
    reveal_strlit("bands");
    reveal_strlit("threshold_db");
    reveal_strlit("ratio");
    reveal_strlit("attack_ms");
    reveal_strlit("release_ms");
    reveal_strlit("makeup_db");
    reveal_strlit("delay_ms");
    assert("on"@.len() == 2 && "hp_hz"@.len() == 5 && "lp_hz"@.len() == 5 && "bands"@.len() == 5
        && "threshold_db"@.len() == 12 && "ratio"@.len() == 5 && "attack_ms"@.len() == 9
        && "release_ms"@.len() == 10 && "makeup_db"@.len() == 9 && "delay_ms"@.len() == 8);
    assert("hp_hz"@[0] != "lp_hz"@[0]);
    assert("attack_ms"@[0] != "makeup_db"@[0]);
    if let StageModel::Eq { on, bands } = m {
        lemma_bands_read_back(bands);
    }
}

} // verus!
