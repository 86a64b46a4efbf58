//! The daemon's streams, and what changed between two looks at them.

use std::collections::HashMap;

use vstd::prelude::*;

use crate::text::same;

verus! {

broadcast use vstd::std_specs::hash::group_hash_axioms;

/// A stream that the daemon sends.
#[derive(Clone, Debug, PartialEq)]
pub struct DaemonSource {
    pub id: u8,
    pub enabled: bool,
    pub name: String,
    pub io: String,
    pub max_samples_per_packet: u32,
    pub codec: String,
    pub address: String,
    pub ttl: u8,
    pub payload_type: u8,
    pub dscp: u8,
    pub refclk_ptp_traceable: bool,
    pub map: Vec<u8>,
}

/// A stream that the daemon receives.
#[derive(Clone, Debug, PartialEq)]
pub struct DaemonSink {
    pub id: u8,
    pub name: String,
    pub io: String,
    pub use_sdp: bool,
    pub source: String,
    pub sdp: String,
    pub delay: u32,
    pub ignore_refclk_gmid: bool,
    pub map: Vec<u8>,
}

/// What a [`DaemonSource`] says.
pub struct SourceModel {
    pub id: u8,
    pub enabled: bool,
    pub name: Seq<char>,
    pub io: Seq<char>,
    pub max_samples_per_packet: u32,
    pub codec: Seq<char>,
    pub address: Seq<char>,
    pub ttl: u8,
    pub payload_type: u8,
    pub dscp: u8,
    pub refclk_ptp_traceable: bool,
    pub map: Seq<u8>,
}

/// What a [`DaemonSink`] says.
pub struct SinkModel {
    pub id: u8,
    pub name: Seq<char>,
    pub io: Seq<char>,
    pub use_sdp: bool,
    pub source: Seq<char>,
    pub sdp: Seq<char>,
    pub delay: u32,
    pub ignore_refclk_gmid: bool,
    pub map: Seq<u8>,
}

impl View for DaemonSource {
    type V = SourceModel;

    open spec fn view(&self) -> SourceModel {
        SourceModel {
            id: self.id,
            enabled: self.enabled,
            name: self.name@,
            io: self.io@,
            max_samples_per_packet: self.max_samples_per_packet,
            codec: self.codec@,
            address: self.address@,
            ttl: self.ttl,
            payload_type: self.payload_type,
            dscp: self.dscp,
            refclk_ptp_traceable: self.refclk_ptp_traceable,
            map: self.map@,
        }
    }
}

impl View for DaemonSink {
    type V = SinkModel;

    open spec fn view(&self) -> SinkModel {
        SinkModel {
            id: self.id,
            name: self.name@,
            io: self.io@,
            use_sdp: self.use_sdp,
            source: self.source@,
            sdp: self.sdp@,
            delay: self.delay,
            ignore_refclk_gmid: self.ignore_refclk_gmid,
            map: self.map@,
        }
    }
}

/// A stream of either direction.
pub trait Stream: View + Sized {
    /// The daemon's number for the stream.
    spec fn number(m: Self::V) -> u8;

    /// The daemon's number for the stream.
    fn id(&self) -> (r: u8)
        ensures
            r == Self::number(self@),
    ;

    /// Whether two streams say the same.
    fn agrees(&self, other: &Self) -> (r: bool)
        ensures
            r == (self@ == other@),
    ;

    /// A stream that says the same.
    fn copy(&self) -> (r: Self)
        ensures
            r@ == self@,
    ;
}

/// Whether two channel maps are the same.
pub fn same_map(a: &Vec<u8>, b: &Vec<u8>) -> (r: bool)
    ensures
        r == (a@ == b@),
{
    if a.len() != b.len() {
        return false;
    }
    for i in 0..a.len()
        invariant
            a@.len() == b@.len(),
            forall|k: int| 0 <= k < i ==> a@[k] == b@[k],
    {
        if a[i] != b[i] {
            return false;
        }
    }
    assert(a@ =~= b@);
    true
}

/// A channel map with the same channels.
pub fn copy_map(a: &Vec<u8>) -> (r: Vec<u8>)
    ensures
        r@ == a@,
{
    let mut out: Vec<u8> = Vec::new();
    for i in 0..a.len()
        invariant
            out@ == a@.take(i as int),
    {
        out.push(a[i]);
        assert(a@.take(i + 1) =~= a@.take(i as int).push(a@[i as int]));
    }
    assert(a@.take(a@.len() as int) =~= a@);
    out
}

impl Stream for DaemonSource {
    open spec fn number(m: SourceModel) -> u8 {
        m.id
    }

    fn id(&self) -> u8 {
        self.id
    }

    fn agrees(&self, other: &Self) -> bool {
        self.id == other.id && self.enabled == other.enabled && same(
            self.name.as_str(),
            other.name.as_str(),
        ) && same(self.io.as_str(), other.io.as_str()) && self.max_samples_per_packet
            == other.max_samples_per_packet && same(self.codec.as_str(), other.codec.as_str())
            && same(self.address.as_str(), other.address.as_str()) && self.ttl == other.ttl
            && self.payload_type == other.payload_type && self.dscp == other.dscp
            && self.refclk_ptp_traceable == other.refclk_ptp_traceable && same_map(
            &self.map,
            &other.map,
        )
    }

    fn copy(&self) -> Self {
        DaemonSource {
            id: self.id,
            enabled: self.enabled,
            name: self.name.clone(),
            io: self.io.clone(),
            max_samples_per_packet: self.max_samples_per_packet,
            codec: self.codec.clone(),
            address: self.address.clone(),
            ttl: self.ttl,
            payload_type: self.payload_type,
            dscp: self.dscp,
            refclk_ptp_traceable: self.refclk_ptp_traceable,
            map: copy_map(&self.map),
        }
    }
}

impl Stream for DaemonSink {
    open spec fn number(m: SinkModel) -> u8 {
        m.id
    }

    fn id(&self) -> u8 {
        self.id
    }

    fn agrees(&self, other: &Self) -> bool {
        self.id == other.id && same(self.name.as_str(), other.name.as_str()) && same(
            self.io.as_str(),
            other.io.as_str(),
        ) && self.use_sdp == other.use_sdp && same(self.source.as_str(), other.source.as_str())
            && same(self.sdp.as_str(), other.sdp.as_str()) && self.delay == other.delay
            && self.ignore_refclk_gmid == other.ignore_refclk_gmid && same_map(
            &self.map,
            &other.map,
        )
    }

    fn copy(&self) -> Self {
        DaemonSink {
            id: self.id,
            name: self.name.clone(),
            io: self.io.clone(),
            use_sdp: self.use_sdp,
            source: self.source.clone(),
            sdp: self.sdp.clone(),
            delay: self.delay,
            ignore_refclk_gmid: self.ignore_refclk_gmid,
            map: copy_map(&self.map),
        }
    }
}

/// A change detected between two consecutive polls, for one resource kind (Source or Sink).
#[derive(Debug, Clone)]
pub enum StreamChange<T> {
    Added(T),
    /// The daemon id of a resource that disappeared (e.g. an operator deleted it).
    Removed(u8),
    /// New value for a resource that already existed but changed.
    Changed(T),
}

/// What a change says of the streams.
pub open spec fn change_model<T: Stream>(c: StreamChange<T>) -> StreamChange<T::V> {
    match c {
        StreamChange::Added(t) => StreamChange::Added(t@),
        StreamChange::Removed(id) => StreamChange::Removed(id),
        StreamChange::Changed(t) => StreamChange::Changed(t@),
    }
}

/// What a list of changes says of the streams.
pub open spec fn changes_model<T: Stream>(cs: Seq<StreamChange<T>>) -> Seq<StreamChange<T::V>> {
    cs.map_values(|c: StreamChange<T>| change_model(c))
}

/// What a table of streams says.
pub open spec fn table_model<T: Stream>(m: Map<u8, T>) -> Map<u8, T::V> {
    m.map_values(|t: T| t@)
}

/// Everything the daemon runs: its streams by id, and the width of its ALSA device.
pub struct DaemonState {
    pub sources: HashMap<u8, DaemonSource>,
    pub sinks: HashMap<u8, DaemonSink>,
    pub alsa_channels: u8,
}

impl Default for DaemonState {
    fn default() -> (r: Self)
        ensures
            r.sources@ == Map::<u8, DaemonSource>::empty(),
            r.sinks@ == Map::<u8, DaemonSink>::empty(),
            r.alsa_channels == 0,
    {
        DaemonState { sources: HashMap::new(), sinks: HashMap::new(), alsa_channels: 0 }
    }
}

/// One poll's detected changes, bundled with the resulting full state.
pub struct DaemonDiff {
    pub state: DaemonState,
    pub source_changes: Vec<StreamChange<DaemonSource>>,
    pub sink_changes: Vec<StreamChange<DaemonSink>>,
}

/// The streams among the first `n` ids that are new or differ, in order of their ids.
pub open spec fn arrivals<V>(old: Map<u8, V>, new: Map<u8, V>, n: nat) -> Seq<StreamChange<V>>
    decreases n,
{
    if n == 0 {
        Seq::empty()
    } else {
        let before = arrivals(old, new, (n - 1) as nat);
        let id = (n - 1) as u8;
        if !new.contains_key(id) {
            before
        } else if !old.contains_key(id) {
            before.push(StreamChange::Added(new[id]))
        } else if old[id] != new[id] {
            before.push(StreamChange::Changed(new[id]))
        } else {
            before
        }
    }
}

/// The streams among the first `n` ids that are gone, in order of their ids.
pub open spec fn departures<V>(old: Map<u8, V>, new: Map<u8, V>, n: nat) -> Seq<StreamChange<V>>
    decreases n,
{
    if n == 0 {
        Seq::empty()
    } else {
        let before = departures(old, new, (n - 1) as nat);
        let id = (n - 1) as u8;
        if old.contains_key(id) && !new.contains_key(id) {
            before.push(StreamChange::Removed(id))
        } else {
            before
        }
    }
}

/// The changes from one table of streams to another.
pub open spec fn difference<V>(old: Map<u8, V>, new: Map<u8, V>) -> Seq<StreamChange<V>> {
    arrivals(old, new, 256) + departures(old, new, 256)
}

/// The changes from one table of streams to another: first what is new or differs, then what is
/// gone, each in order of the ids.
pub fn diff<T: Stream>(old: &HashMap<u8, T>, new: &HashMap<u8, T>) -> (r: Vec<StreamChange<T>>)
    ensures
        changes_model(r@) == difference(table_model(old@), table_model(new@)),
{
    let ghost was = table_model(old@);
    let ghost is = table_model(new@);
    let mut changes: Vec<StreamChange<T>> = Vec::new();
    assert(changes_model(changes@) =~= arrivals(was, is, 0));
    let mut n: u16 = 0;
    while n < 256
        invariant
            n <= 256,
            was == table_model(old@),
            is == table_model(new@),
            changes_model(changes@) == arrivals(was, is, n as nat),
        decreases 256 - n,
    {
        let id: u8 = n as u8;
        let ghost before = changes@;
        match new.get(&id) {
            Some(new_val) => match old.get(&id) {
                None => {
                    changes.push(StreamChange::Added(new_val.copy()));
                    assert(changes_model(changes@) =~= changes_model(before).push(
                        StreamChange::Added(is[id]),
                    ));
                },
                Some(old_val) => {
                    if !old_val.agrees(new_val) {
                        changes.push(StreamChange::Changed(new_val.copy()));
                        assert(changes_model(changes@) =~= changes_model(before).push(
                            StreamChange::Changed(is[id]),
                        ));
                    }
                },
            },
            None => {},
        }
        n += 1;
    }
    let ghost first = changes_model(changes@);
    assert(first + departures(was, is, 0) =~= first);
    n = 0;
    while n < 256
        invariant
            n <= 256,
            was == table_model(old@),
            is == table_model(new@),
            first == arrivals(was, is, 256),
            changes_model(changes@) == first + departures(was, is, n as nat),
        decreases 256 - n,
    {
        let id: u8 = n as u8;
        let ghost before = changes@;
        if old.contains_key(&id) && !new.contains_key(&id) {
            changes.push(StreamChange::Removed(id));
            assert(changes_model(changes@) =~= changes_model(before).push(
                StreamChange::Removed(id),
            ));
            assert(changes_model(changes@) =~= first + departures(was, is, (n + 1) as nat));
        }
        n += 1;
    }
    changes
}

/// The table that a list of streams makes: of two with the same id, the later counts.
pub open spec fn tabled<V>(list: Seq<V>, number: spec_fn(V) -> u8) -> Map<u8, V>
    decreases list.len(),
{
    if list.len() == 0 {
        Map::empty()
    } else {
        tabled(list.drop_last(), number).insert(number(list.last()), list.last())
    }
}

/// What a list of streams says.
pub open spec fn list_model<T: Stream>(list: Seq<T>) -> Seq<T::V> {
    list.map_values(|t: T| t@)
}

/// The table that a list of streams makes: of two with the same id, the later counts.
pub fn table<T: Stream>(list: &Vec<T>) -> (r: HashMap<u8, T>)
    ensures
        table_model(r@) == tabled(list_model(list@), |v: T::V| T::number(v)),
{
    let ghost number = |v: T::V| T::number(v);
    let ghost all = list_model(list@);
    let mut m: HashMap<u8, T> = HashMap::new();
    assert(table_model(m@) =~= tabled(all.take(0), number));
    for i in 0..list.len()
        invariant
            number == (|v: T::V| T::number(v)),
            all == list_model(list@),
            table_model(m@) == tabled(all.take(i as int), number),
    {
        let ghost before = m@;
        let t = list[i].copy();
        let id = t.id();
        m.insert(id, t);
        assert(all.take(i + 1).drop_last() =~= all.take(i as int));
        assert(table_model(m@) =~= table_model(before).insert(id, t@));
    }
    assert(all.take(list@.len() as int) =~= all);
    m
}

/// Takes a fresh look at the daemon: its lists of streams and the width of its ALSA device.
/// The result is the state that they make, with what changed since `prev`.
pub fn poll(
    prev: &DaemonState,
    sources: &Vec<DaemonSource>,
    sinks: &Vec<DaemonSink>,
    alsa_channels: u8,
) -> (r: DaemonDiff)
    ensures
        table_model(r.state.sources@) == tabled(list_model(sources@), |v: SourceModel| v.id),
        table_model(r.state.sinks@) == tabled(list_model(sinks@), |v: SinkModel| v.id),
        r.state.alsa_channels == alsa_channels,
        changes_model(r.source_changes@) == difference(
            table_model(prev.sources@),
            table_model(r.state.sources@),
        ),
        changes_model(r.sink_changes@) == difference(
            table_model(prev.sinks@),
            table_model(r.state.sinks@),
        ),
{
    let new_sources = table(sources);
    let new_sinks = table(sinks);
    assert((|v: SourceModel| <DaemonSource as Stream>::number(v)) =~= (|v: SourceModel| v.id));
    assert((|v: SinkModel| <DaemonSink as Stream>::number(v)) =~= (|v: SinkModel| v.id));
    let source_changes = diff(&prev.sources, &new_sources);
    let sink_changes = diff(&prev.sinks, &new_sinks);
    DaemonDiff {
        state: DaemonState { sources: new_sources, sinks: new_sinks, alsa_channels },
        source_changes,
        sink_changes,
    }
}

impl DaemonDiff {
    /// Whether anything changed, so that there is something to pass on.
    pub fn worth_sending(&self) -> (r: bool)
        ensures
            r == (self.source_changes@.len() > 0 || self.sink_changes@.len() > 0),
    {
        self.source_changes.len() > 0 || self.sink_changes.len() > 0
    }
}

/// The table after one change.
pub open spec fn changed<V>(
    m: Map<u8, V>,
    c: StreamChange<V>,
    number: spec_fn(V) -> u8,
) -> Map<u8, V> {
    match c {
        StreamChange::Added(v) => m.insert(number(v), v),
        StreamChange::Changed(v) => m.insert(number(v), v),
        StreamChange::Removed(id) => m.remove(id),
    }
}

/// The table after a list of changes.
pub open spec fn after_changes<V>(
    m: Map<u8, V>,
    cs: Seq<StreamChange<V>>,
    number: spec_fn(V) -> u8,
) -> Map<u8, V>
    decreases cs.len(),
{
    if cs.len() == 0 {
        m
    } else {
        changed(after_changes(m, cs.drop_last(), number), cs.last(), number)
    }
}

/// Whether every stream of a table stands under its own id.
pub open spec fn keyed<V>(m: Map<u8, V>, number: spec_fn(V) -> u8) -> bool {
    forall|id: u8| #[trigger] m.contains_key(id) ==> number(m[id]) == id
}

proof fn lemma_after_concat<V>(
    m: Map<u8, V>,
    a: Seq<StreamChange<V>>,
    b: Seq<StreamChange<V>>,
    number: spec_fn(V) -> u8,
)
    ensures
        after_changes(m, a + b, number) == after_changes(after_changes(m, a, number), b, number),
    decreases b.len(),
{
    if b.len() == 0 {
        assert(a + b =~= a);
    } else {
        assert((a + b).drop_last() =~= a + b.drop_last());
        lemma_after_concat(m, a, b.drop_last(), number);
    }
}

proof fn lemma_after_arrivals<V>(
    old: Map<u8, V>,
    new: Map<u8, V>,
    n: nat,
    number: spec_fn(V) -> u8,
)
    requires
        n <= 256,
        keyed(new, number),
    ensures
        after_changes(old, arrivals(old, new, n), number) == Map::new(
            |id: u8| old.contains_key(id) || (id < n && new.contains_key(id)),
            |id: u8|
                if id < n && new.contains_key(id) {
                    new[id]
                } else {
                    old[id]
                },
        ),
    decreases n,
{
    let want = Map::new(
        |id: u8| old.contains_key(id) || (id < n && new.contains_key(id)),
        |id: u8|
            if id < n && new.contains_key(id) {
                new[id]
            } else {
                old[id]
            },
    );
    if n == 0 {
        assert(old =~= want);
    } else {
        lemma_after_arrivals(old, new, (n - 1) as nat, number);
        let id = (n - 1) as u8;
        let before = arrivals(old, new, (n - 1) as nat);
        let now = arrivals(old, new, n);
        if now != before {
            assert(now.drop_last() =~= before);
        }
        assert(after_changes(old, now, number) =~= want);
    }
}

proof fn lemma_after_departures<V>(
    m: Map<u8, V>,
    old: Map<u8, V>,
    new: Map<u8, V>,
    n: nat,
    number: spec_fn(V) -> u8,
)
    requires
        n <= 256,
    ensures
        after_changes(m, departures(old, new, n), number) == m.remove_keys(
            Set::new(|id: u8| id < n && old.contains_key(id) && !new.contains_key(id)),
        ),
    decreases n,
{
    let want = m.remove_keys(
        Set::new(|id: u8| id < n && old.contains_key(id) && !new.contains_key(id)),
    );
    if n == 0 {
        assert(m =~= want);
    } else {
        lemma_after_departures(m, old, new, (n - 1) as nat, number);
        let before = departures(old, new, (n - 1) as nat);
        let now = departures(old, new, n);
        if now != before {
            assert(now.drop_last() =~= before);
        }
        assert(after_changes(m, now, number) =~= want);
    }
}

/// The changes between two tables lead from the first to the second.
pub proof fn law_changes_lead_to_the_new_state<V>(
    old: Map<u8, V>,
    new: Map<u8, V>,
    number: spec_fn(V) -> u8,
)
    requires
        keyed(new, number),
    ensures
        after_changes(old, difference(old, new), number) == new,
{
    let mid = after_changes(old, arrivals(old, new, 256), number);
    lemma_after_concat(old, arrivals(old, new, 256), departures(old, new, 256), number);
    lemma_after_arrivals(old, new, 256, number);
    lemma_after_departures(mid, old, new, 256, number);
    assert(after_changes(old, difference(old, new), number) =~= new);
}

proof fn lemma_no_arrivals<V>(m: Map<u8, V>, n: nat)
    ensures
        arrivals(m, m, n).len() == 0,
        departures(m, m, n).len() == 0,
    decreases n,
{
    if n > 0 {
        lemma_no_arrivals(m, (n - 1) as nat);
    }
}

/// A poll that finds the streams as they were reports no change.
pub proof fn law_no_difference_to_itself<V>(m: Map<u8, V>)
    ensures
        difference(m, m) == Seq::<StreamChange<V>>::empty(),
{
    lemma_no_arrivals(m, 256);
    assert(difference(m, m) =~= Seq::empty());
}

proof fn lemma_arrival<V>(old: Map<u8, V>, new: Map<u8, V>, n: nat, c: StreamChange<V>)
    requires
        n <= 256,
    ensures
        arrivals(old, new, n).contains(c) <==> exists|id: u8|
            id < n && #[trigger] new.contains_key(id) && (if old.contains_key(id) {
                old[id] != new[id] && c == StreamChange::Changed(new[id])
            } else {
                c == StreamChange::Added(new[id])
            }),
    decreases n,
{
    let now = arrivals(old, new, n);
    if n > 0 {
        let m = (n - 1) as nat;
        let last = m as u8;
        let before = arrivals(old, new, m);
        lemma_arrival(old, new, m, c);
        if before.contains(c) {
            let i = choose|i: int| 0 <= i < before.len() && before[i] == c;
            assert(now[i] == c);
        }
        if now.contains(c) {
            let i = choose|i: int| 0 <= i < now.len() && now[i] == c;
            if i < before.len() {
                assert(before[i] == c);
                assert(before.contains(c));
            } else {
                assert(new.contains_key(last));
            }
        }
        if now.len() > before.len() {
            assert(now[before.len() as int] == now.last());
        }
    } else {
        assert(now =~= Seq::empty());
    }
}

proof fn lemma_departure<V>(old: Map<u8, V>, new: Map<u8, V>, n: nat, c: StreamChange<V>)
    requires
        n <= 256,
    ensures
        departures(old, new, n).contains(c) <==> exists|id: u8|
            id < n && #[trigger] old.contains_key(id) && !new.contains_key(id) && c
                == StreamChange::<V>::Removed(id),
    decreases n,
{
    let now = departures(old, new, n);
    if n > 0 {
        let m = (n - 1) as nat;
        let last = m as u8;
        let before = departures(old, new, m);
        lemma_departure(old, new, m, c);
        if before.contains(c) {
            let i = choose|i: int| 0 <= i < before.len() && before[i] == c;
            assert(now[i] == c);
        }
        if now.contains(c) {
            let i = choose|i: int| 0 <= i < now.len() && now[i] == c;
            if i < before.len() {
                assert(before[i] == c);
                assert(before.contains(c));
            } else {
                assert(old.contains_key(last));
            }
        }
        if now.len() > before.len() {
            assert(now[before.len() as int] == now.last());
        }
    } else {
        assert(now =~= Seq::empty());
    }
}

/// A change says what happened: a stream that was not there was added, one that says something else
/// was changed, and one that is not there any more was removed. Of a stream that is as it was,
/// nothing is said.
pub proof fn law_changes_say_what_happened<V>(old: Map<u8, V>, new: Map<u8, V>, c: StreamChange<V>)
    ensures
        difference(old, new).contains(c) <==> match c {
            StreamChange::Added(v) => exists|id: u8| #[trigger]
                new.contains_key(id) && !old.contains_key(id) && new[id] == v,
            StreamChange::Changed(v) => exists|id: u8| #[trigger]
                new.contains_key(id) && old.contains_key(id) && old[id] != v && new[id] == v,
            StreamChange::Removed(id) => old.contains_key(id) && !new.contains_key(id),
        },
{
    let a = arrivals(old, new, 256);
    let b = departures(old, new, 256);
    lemma_arrival(old, new, 256, c);
    lemma_departure(old, new, 256, c);
    let all = difference(old, new);
    if all.contains(c) {
        let i = choose|i: int| 0 <= i < all.len() && all[i] == c;
        if i < a.len() {
            assert(a[i] == c);
            assert(a.contains(c));
        } else {
            assert(b[i - a.len()] == c);
            assert(b.contains(c));
        }
    }
    if a.contains(c) {
        let i = choose|i: int| 0 <= i < a.len() && a[i] == c;
        assert(all[i] == c);
    }
    if b.contains(c) {
        let i = choose|i: int| 0 <= i < b.len() && b[i] == c;
        assert(all[a.len() + i] == c);
    }
    match c {
        StreamChange::Removed(id) => {
            assert(old.contains_key(id) || !old.contains_key(id));
        },
        _ => {},
    }
}

/// A table of streams has every stream of the list, under its number; of two with the same number,
/// the later counts.
pub proof fn law_a_table_has_every_stream<V>(list: Seq<V>, number: spec_fn(V) -> u8, i: int)
    requires
        0 <= i < list.len(),
        forall|j: int| i < j < list.len() ==> number(#[trigger] list[j]) != number(list[i]),
    ensures
        tabled(list, number).contains_key(number(list[i])),
        tabled(list, number)[number(list[i])] == list[i],
    decreases list.len(),
{
    let rest = list.drop_last();
    assert(forall|j: int| 0 <= j < rest.len() ==> rest[j] == list[j]);
    assert(list[list.len() - 1] == list.last());
    if i < rest.len() {
        law_a_table_has_every_stream(rest, number, i);
        assert(number(list[list.len() - 1]) != number(list[i]));
    }
}

} // verus!
