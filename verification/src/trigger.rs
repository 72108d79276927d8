//! Trigger bus: the lines over which instruments synchronise.
//!
//! In a real rack the supply announces that it has settled, the meter fires
//! its measurement, the generator starts a burst: that travels over trigger
//! lines. The same bus carries the SCPI trigger model (`*TRG`, `INIT`,
//! `ABORt`).
//!
//! Pending events are kept in a map ordered by key, and the key is the
//! instant followed by an emission counter: events come out in chronological
//! order, and simultaneous ones in the order they were emitted.
use vstd::prelude::*;
use std::collections::BTreeMap;
use crate::time::SimTime;
use vstd::std_specs::iter::IteratorSpec;
use vstd::std_specs::cmp::OrdSpec;

verus! {

broadcast use {vstd::std_specs::btree::group_btree_axioms, vstd::laws_cmp::group_laws_cmp};

/// Identifier of a trigger line.
#[derive(Debug, Clone, Copy, PartialEq, Eq, PartialOrd, Ord, Hash, Structural)]
pub struct LineId(pub u16);

impl LineId {
    /// The line reserved for software triggers: `*TRG` and the like.
    pub fn software() -> (r: LineId)
        ensures
            r == LineId(0),
    {
        LineId(0)
    }
}

/// The edge of a trigger event.
#[derive(Debug, Clone, Copy, PartialEq, Eq, Structural)]
pub enum Edge {
    Rising,
    Falling,
}

/// One trigger: which line, when and on which edge.
#[derive(Debug, Clone, Copy, PartialEq, Eq, Structural)]
pub struct TriggerEvent {
    pub line: LineId,
    pub at: SimTime,
    pub edge: Edge,
}

/// 2^64: the instant occupies the high half of a key, the emission counter
/// the low half.
pub open spec fn key_base() -> int {
    0x1_0000_0000_0000_0000
}

/// The key of the event emitted at `at` as the `seq`-th emission.
pub open spec fn event_key(at: SimTime, seq: u64) -> u128 {
    (at.nanos() * key_base() + seq) as u128
}

/// The largest key of an instant: every key up to it belongs to an event at
/// that instant or earlier.
pub open spec fn last_key_of(until: SimTime) -> u128 {
    (until.nanos() * key_base() + (key_base() - 1)) as u128
}

/// The abstract state of the bus.
pub struct TriggerBusView {
    /// The events not yet taken, by key.
    pub pending: Map<u128, TriggerEvent>,
    /// How many events were emitted.
    pub seq: u64,
}

/// The bus is well formed: each key holds its event's instant in its high
/// half and an emission number already used in its low half.
pub open spec fn bus_wf(v: TriggerBusView) -> bool {
    &&& v.pending.dom().finite()
    &&& forall|k: u128| #[trigger]
        v.pending.contains_key(k) ==> k / (key_base() as u128) == v.pending[k].at.nanos() && k % (
        key_base() as u128) < v.seq
}

/// Whether the key `k` holds an event to hand out: on the line asked for
/// (any line when `line` is `None`), at `until` or earlier.
pub open spec fn selected(m: Map<u128, TriggerEvent>, line: Option<LineId>, until: SimTime, k: u128) -> bool {
    &&& m.contains_key(k)
    &&& k <= last_key_of(until)
    &&& match line {
        Some(l) => m[k].line == l,
        None => true,
    }
}

/// `keys` lists, in increasing order, exactly the selected keys of `m`.
pub open spec fn listing(m: Map<u128, TriggerEvent>, line: Option<LineId>, until: SimTime, keys: Seq<u128>) -> bool {
    &&& forall|i: int, j: int| 0 <= i < j < keys.len() ==> keys[i] < keys[j]
    &&& forall|k: u128| keys.contains(k) <==> selected(m, line, until, k)
}

/// Taking events: the events of the listed keys, in key order, and the map
/// without them.
pub open spec fn taken(m: Map<u128, TriggerEvent>, keys: Seq<u128>) -> (Seq<TriggerEvent>, Map<u128, TriggerEvent>) {
    (keys.map_values(|k: u128| m[k]), m.remove_keys(keys.to_set()))
}

/// The trigger lines of the rack and the events waiting to be taken.
#[derive(Debug)]
pub struct TriggerBus {
    pending: BTreeMap<u128, TriggerEvent>,
    seq: u64,
}

impl View for TriggerBus {
    type V = TriggerBusView;

    closed spec fn view(&self) -> TriggerBusView {
        TriggerBusView { pending: self.pending@, seq: self.seq }
    }
}

impl TriggerBus {
    pub fn new() -> (r: Self)
        ensures
            r@ == (TriggerBusView { pending: Map::empty(), seq: 0 }),
            bus_wf(r@),
    {
        TriggerBus { pending: BTreeMap::new(), seq: 0 }
    }

    /// Emits an edge on a line.
    pub fn emit(&mut self, line: LineId, at: SimTime, edge: Edge)
        requires
            old(self)@.seq < u64::MAX,
        ensures
            final(self)@ == (TriggerBusView {
                pending: old(self)@.pending.insert(
                    event_key(at, old(self)@.seq),
                    TriggerEvent { line, at, edge },
                ),
                seq: (old(self)@.seq + 1) as u64,
            }),
            bus_wf(old(self)@) ==> bus_wf(final(self)@),
    {
        let event = TriggerEvent { line, at, edge };
        let key: u128 = (at.as_nanos() as u128) * 0x1_0000_0000_0000_0000u128 + (self.seq as u128);
        self.pending.insert(key, event);
        self.seq = self.seq + 1;
        proof {
            let v = self@;
            let s = old(self)@.seq;
            assert forall|k: u128| #[trigger] v.pending.contains_key(k) && bus_wf(old(self)@) implies k / (
            key_base() as u128) == v.pending[k].at.nanos() && k % (key_base() as u128) < v.seq by {
                if k == key {
                    assert(key / (key_base() as u128) == at.nanos() && key % (key_base() as u128) == s)
                        by (nonlinear_arith)
                        requires
                            key == at.nanos() * key_base() + s,
                            s < key_base(),
                    ;
                }
            }
        }
    }

    /// The usual case: a rising edge.
    pub fn pulse(&mut self, line: LineId, at: SimTime)
        requires
            old(self)@.seq < u64::MAX,
        ensures
            final(self)@ == (TriggerBusView {
                pending: old(self)@.pending.insert(
                    event_key(at, old(self)@.seq),
                    TriggerEvent { line, at, edge: Edge::Rising },
                ),
                seq: (old(self)@.seq + 1) as u64,
            }),
            bus_wf(old(self)@) ==> bus_wf(final(self)@),
    {
        self.emit(line, at, Edge::Rising);
    }

    /// The software trigger, the one `*TRG` uses.
    pub fn software_trigger(&mut self, at: SimTime)
        requires
            old(self)@.seq < u64::MAX,
        ensures
            final(self)@ == (TriggerBusView {
                pending: old(self)@.pending.insert(
                    event_key(at, old(self)@.seq),
                    TriggerEvent { line: LineId(0), at, edge: Edge::Rising },
                ),
                seq: (old(self)@.seq + 1) as u64,
            }),
            bus_wf(old(self)@) ==> bus_wf(final(self)@),
    {
        self.pulse(LineId::software(), at);
    }

    /// How many events are waiting.
    pub fn len(&self) -> (r: usize)
        ensures
            r == self@.pending.dom().len(),
    {
        self.pending.len()
    }

    pub fn is_empty(&self) -> (r: bool)
        ensures
            r == (self@.pending.dom().len() == 0),
    {
        self.pending.is_empty()
    }

    /// The selected keys, in increasing order.
    fn selected_keys(&self, line: Option<LineId>, until: SimTime) -> (keys: Vec<u128>)
        ensures
            listing(self@.pending, line, until, keys@),
    {
        let bound: u128 = (until.as_nanos() as u128) * 0x1_0000_0000_0000_0000u128 + 0xffff_ffff_ffff_ffffu128;
        let ghost m = self@.pending;
        let mut keys: Vec<u128> = Vec::new();
        let iter = self.pending.iter();
        let ghost s0 = iter.remaining();
        proof {
            lemma_entries_in_key_order(s0);
        }
        for kv in it: iter
            invariant
                m == self@.pending,
                bound == last_key_of(until),
                it.seq() == s0,
                forall|k: u128| #[trigger] m.contains_key(k) ==> s0.contains((&k, &m[k])),
                forall|i: int| 0 <= i < s0.len() ==> m.contains_key(*s0[i].0) && m[*s0[i].0] == *s0[i].1,
                forall|i: int, j: int| 0 <= i < j < s0.len() ==> *s0[i].0 < *s0[j].0,
                forall|i: int, j: int| 0 <= i < j < keys@.len() ==> keys@[i] < keys@[j],
                forall|i: int| 0 <= i < keys@.len() ==> selected(m, line, until, #[trigger] keys@[i]),
                it.index() == 0 ==> keys@.len() == 0,
                it.index() > 0 ==> forall|i: int| 0 <= i < keys@.len() ==> #[trigger] keys@[i] <= *s0[it.index() - 1].0,
                forall|j: int| 0 <= j < it.index() && selected(m, line, until, *s0[j].0) ==> keys@.contains(*s0[j].0),
        {
            let (k, ev) = kv;
            let ghost idx = it.index();
            assert(kv == s0[idx]);
            let ghost prev = keys@;
            if *k <= bound {
                let keep = match line {
                    Some(l) => ev.line == l,
                    None => true,
                };
                if keep {
                    keys.push(*k);
                    assert(keys@[keys@.len() - 1] == *k);
                    assert(idx > 0 ==> *s0[idx - 1].0 < *s0[idx].0);
                    assert(forall|a: int| 0 <= a < prev.len() ==> #[trigger] prev[a] < *k);
                }
            }
            assert forall|x: u128| prev.contains(x) implies keys@.contains(x) by {
                let a = choose|a: int| 0 <= a < prev.len() && prev[a] == x;
                assert(keys@[a] == x);
            }
        }
        proof {
            assert forall|k: u128| #[trigger] keys@.contains(k) <==> selected(m, line, until, k) by {
                if selected(m, line, until, k) {
                    assert(s0.contains((&k, &m[k])));
                    let j = choose|j: int| 0 <= j < s0.len() && s0[j] == (&k, &m[k]);
                    assert(*s0[j].0 == k);
                }
                if keys@.contains(k) {
                    let i = choose|i: int| 0 <= i < keys@.len() && keys@[i] == k;
                    assert(selected(m, line, until, keys@[i]));
                }
            }
        }
        keys
    }

    /// Removes the listed keys and returns their events in order.
    fn remove_listed(&mut self, keys: &Vec<u128>) -> (r: Vec<TriggerEvent>)
        requires
            forall|i: int, j: int| 0 <= i < j < keys@.len() ==> keys@[i] < keys@[j],
            forall|i: int| 0 <= i < keys@.len() ==> old(self)@.pending.contains_key(#[trigger] keys@[i]),
        ensures
            (r@, final(self)@.pending) == taken(old(self)@.pending, keys@),
            final(self)@.seq == old(self)@.seq,
    {
        let ghost m = old(self)@.pending;
        let mut out: Vec<TriggerEvent> = Vec::new();
        let mut i: usize = 0;
        while i < keys.len()
            invariant
                i <= keys.len(),
                m == old(self)@.pending,
                self@.seq == old(self)@.seq,
                forall|a: int, b: int| 0 <= a < b < keys@.len() ==> keys@[a] < keys@[b],
                forall|a: int| 0 <= a < keys@.len() ==> m.contains_key(#[trigger] keys@[a]),
                out@ == keys@.take(i as int).map_values(|k: u128| m[k]),
                self@.pending == m.remove_keys(keys@.take(i as int).to_set()),
            decreases keys.len() - i,
        {
            let k = keys[i];
            assert(!keys@.take(i as int).contains(k));
            let e = self.pending.remove(&k);
            let ev = e.unwrap();
            out.push(ev);
            assert(keys@.take(i + 1) == keys@.take(i as int).push(k));
            proof {
                keys@.take(i as int).lemma_push_to_set_commute(k);
            }
            assert(keys@.take(i + 1).to_set() =~= keys@.take(i as int).to_set().insert(k));
            assert(self@.pending =~= m.remove_keys(keys@.take(i + 1).to_set()));
            assert(out@ =~= keys@.take(i + 1).map_values(|k: u128| m[k]));
            i += 1;
        }
        assert(keys@.take(keys.len() as int) == keys@);
        out
    }

    /// Takes, in chronological order, the events of one line up to `until`
    /// inclusive. Those of other lines stay where they are.
    pub fn take_until(&mut self, line: LineId, until: SimTime) -> (r: Vec<TriggerEvent>)
        ensures
            exists|keys: Seq<u128>|
                #![trigger taken(old(self)@.pending, keys)]
                listing(old(self)@.pending, Some(line), until, keys) && (r@, final(self)@.pending)
                    == taken(old(self)@.pending, keys),
            final(self)@.seq == old(self)@.seq,
    {
        let keys = self.selected_keys(Some(line), until);
        assert(forall|i: int| 0 <= i < keys@.len() ==> keys@.contains(#[trigger] keys@[i]));
        let r = self.remove_listed(&keys);
        assert(listing(old(self)@.pending, Some(line), until, keys@));
        r
    }

    /// Takes every event up to `until`, of any line.
    pub fn take_all_until(&mut self, until: SimTime) -> (r: Vec<TriggerEvent>)
        ensures
            exists|keys: Seq<u128>|
                #![trigger taken(old(self)@.pending, keys)]
                listing(old(self)@.pending, None, until, keys) && (r@, final(self)@.pending) == taken(
                    old(self)@.pending,
                    keys,
                ),
            final(self)@.seq == old(self)@.seq,
    {
        let keys = self.selected_keys(None, until);
        assert(forall|i: int| 0 <= i < keys@.len() ==> keys@.contains(#[trigger] keys@[i]));
        let r = self.remove_listed(&keys);
        assert(listing(old(self)@.pending, None, until, keys@));
        r
    }

    /// Drops everything pending, which is what `ABORt` does.
    pub fn clear(&mut self)
        ensures
            final(self)@ == (TriggerBusView { pending: Map::empty(), ..old(self)@ }),
    {
        self.pending.clear();
    }
}

impl Default for TriggerBus {
    fn default() -> (r: Self)
        ensures
            r@ == (TriggerBusView { pending: Map::empty(), seq: 0 }),
    {
        TriggerBus::new()
    }
}

/// The entries handed out by a map's iterator come in increasing key
/// order.
proof fn lemma_entries_in_key_order(s: Seq<(&u128, &TriggerEvent)>)
    requires
        vstd::std_specs::btree::increasing_seq(s.map_values(|kv: (&u128, &TriggerEvent)| *kv.0)),
    ensures
        forall|i: int, j: int| 0 <= i < j < s.len() ==> *s[i].0 < *s[j].0,
{
    let ks = s.map_values(|kv: (&u128, &TriggerEvent)| *kv.0);
    assert forall|i: int, j: int| 0 <= i < j < s.len() implies *s[i].0 < *s[j].0 by {
        assert(ks[i] == *s[i].0 && ks[j] == *s[j].0);
        assert(OrdSpec::cmp_spec(&ks[i], &ks[j]) is Less);
    }
}

/// The instant held in the high half of a key of a well-formed bus.
proof fn lemma_key_instant(k: u128, nanos: u64, until: SimTime)
    requires
        k / (key_base() as u128) == nanos,
    ensures
        k <= last_key_of(until) ==> nanos <= until.nanos(),
{
    assert(k <= last_key_of(until) ==> nanos <= until.nanos()) by (nonlinear_arith)
        requires
            k / (key_base() as u128) == nanos,
            last_key_of(until) == until.nanos() * key_base() + (key_base() - 1),
            key_base() > 0,
    ;
}

/// Events come out in chronological order, even when they were emitted out
/// of order; events of the same instant come out in the order they were
/// emitted. And nothing later than `until` is handed out.
pub proof fn law_taken_in_chronological_order(
    v: TriggerBusView,
    line: Option<LineId>,
    until: SimTime,
    keys: Seq<u128>,
)
    requires
        bus_wf(v),
        listing(v.pending, line, until, keys),
    ensures
        forall|i: int, j: int|
            0 <= i < j < keys.len() ==> (#[trigger] taken(v.pending, keys).0[i]).at.nanos() <= (
            #[trigger] taken(v.pending, keys).0[j]).at.nanos(),
        forall|i: int| 0 <= i < keys.len() ==> (#[trigger] taken(v.pending, keys).0[i]).at.nanos() <= until.nanos(),
        forall|i: int|
            0 <= i < keys.len() ==> match line {
                Some(l) => (#[trigger] taken(v.pending, keys).0[i]).line == l,
                None => true,
            },
{
    let evs = taken(v.pending, keys).0;
    assert forall|i: int| 0 <= i < keys.len() implies v.pending.contains_key(#[trigger] keys[i]) && evs[i] == v.pending[keys[i]] by {
        assert(keys.contains(keys[i]));
    }
    assert forall|i: int, j: int| 0 <= i < j < keys.len() implies (#[trigger] evs[i]).at.nanos() <= (
    #[trigger] evs[j]).at.nanos() by {
        assert(v.pending.contains_key(keys[i]) && v.pending.contains_key(keys[j]));
        let a = keys[i];
        let b = keys[j];
        assert(a / (key_base() as u128) <= b / (key_base() as u128)) by (nonlinear_arith)
            requires
                a < b,
                key_base() > 0,
        ;
    }
    assert forall|i: int| 0 <= i < keys.len() implies (#[trigger] evs[i]).at.nanos() <= until.nanos() by {
        assert(v.pending.contains_key(keys[i]) && keys.contains(keys[i]));
        lemma_key_instant(keys[i], evs[i].at.nanos(), until);
    }
    assert forall|i: int| 0 <= i < keys.len() implies match line {
        Some(l) => (#[trigger] evs[i]).line == l,
        None => true,
    } by {
        assert(keys.contains(keys[i]));
    }
}

/// Two events emitted one after the other at the same instant are ordered
/// by emission: the first has the smaller key.
pub proof fn law_simultaneous_keep_emission_order(at: SimTime, seq: u64)
    requires
        seq < u64::MAX,
    ensures
        event_key(at, seq) < event_key(at, (seq + 1) as u64),
{
}

/// Taking events keeps every other event as it was: events of other lines,
/// and events later than `until`, stay pending; a taken event is not handed
/// out again.
pub proof fn law_take_leaves_the_rest(
    v: TriggerBusView,
    line: Option<LineId>,
    until: SimTime,
    keys: Seq<u128>,
)
    requires
        listing(v.pending, line, until, keys),
    ensures
        forall|k: u128|
            #![trigger taken(v.pending, keys).1.contains_key(k)]
            v.pending.contains_key(k) && !selected(v.pending, line, until, k) ==> taken(
                v.pending,
                keys,
            ).1.contains_key(k) && taken(v.pending, keys).1[k] == v.pending[k],
        forall|k: u128| !selected(#[trigger] taken(v.pending, keys).1, line, until, k),
        taken(v.pending, keys).1.dom().subset_of(v.pending.dom()),
{
    let rest = taken(v.pending, keys).1;
    assert forall|k: u128| !selected(#[trigger] taken(v.pending, keys).1, line, until, k) by {
        if rest.contains_key(k) {
            assert(!keys.to_set().contains(k));
            assert(!keys.contains(k));
        }
    }
}

/// Taking events keeps the bus well formed.
pub proof fn law_take_keeps_wf(v: TriggerBusView, keys: Seq<u128>)
    requires
        bus_wf(v),
    ensures
        bus_wf(TriggerBusView { pending: taken(v.pending, keys).1, seq: v.seq }),
{
    let m2 = taken(v.pending, keys).1;
    assert(m2.dom() =~= v.pending.dom().difference(keys.to_set()));
    assert forall|k: u128| #[trigger] m2.contains_key(k) implies k / (key_base() as u128) == m2[k].at.nanos()
        && k % (key_base() as u128) < v.seq by {
        assert(v.pending.contains_key(k));
    }
}

/// The emission number a key holds in its low half.
pub open spec fn emission_of(k: u128) -> int {
    (k % (key_base() as u128)) as int
}

/// Taking events, told in terms of the events themselves: what comes out is
/// exactly the pending events of the line asked for (any line for `None`)
/// at `until` or earlier, each once, by instant and, within an instant, in
/// the order they were emitted; the bus keeps the others, and holds as
/// many fewer events as were handed out.
pub proof fn law_take_hands_out_exactly_the_due_events(
    v: TriggerBusView,
    line: Option<LineId>,
    until: SimTime,
    keys: Seq<u128>,
)
    requires
        bus_wf(v),
        listing(v.pending, line, until, keys),
    ensures
        taken(v.pending, keys).0.len() == keys.len(),
        forall|i: int|
            0 <= i < keys.len() ==> v.pending.contains_key(#[trigger] keys[i]) && taken(v.pending, keys).0[i]
                == v.pending[keys[i]],
        forall|k: u128|
            v.pending.contains_key(k) ==> (#[trigger] keys.contains(k) <==> (v.pending[k].at.nanos()
                <= until.nanos() && match line {
                Some(l) => v.pending[k].line == l,
                None => true,
            })),
        forall|i: int, j: int|
            0 <= i < j < keys.len() ==> (#[trigger] taken(v.pending, keys).0[i]).at.nanos() < (
            #[trigger] taken(v.pending, keys).0[j]).at.nanos() || (taken(v.pending, keys).0[i].at.nanos()
                == taken(v.pending, keys).0[j].at.nanos() && emission_of(keys[i]) < emission_of(keys[j])),
        taken(v.pending, keys).1.dom().len() + keys.len() == v.pending.dom().len(),
{
    let m = v.pending;
    let evs = taken(m, keys).0;
    let base = key_base() as u128;
    assert forall|i: int| 0 <= i < keys.len() implies m.contains_key(#[trigger] keys[i]) && evs[i] == m[keys[i]] by {
        assert(keys.contains(keys[i]));
    }
    assert forall|k: u128| m.contains_key(k) implies (#[trigger] keys.contains(k) <==> (m[k].at.nanos()
        <= until.nanos() && match line {
        Some(l) => m[k].line == l,
        None => true,
    })) by {
        let nanos = m[k].at.nanos();
        assert(k / base == nanos);
        lemma_key_instant(k, nanos, until);
        assert(nanos <= until.nanos() ==> k <= last_key_of(until)) by (nonlinear_arith)
            requires
                k / base == nanos,
                base == key_base(),
                last_key_of(until) == until.nanos() * key_base() + (key_base() - 1),
                key_base() > 0,
        ;
    }
    assert forall|i: int, j: int| 0 <= i < j < keys.len() implies (#[trigger] evs[i]).at.nanos() < (
    #[trigger] evs[j]).at.nanos() || (evs[i].at.nanos() == evs[j].at.nanos() && emission_of(keys[i]) < emission_of(
        keys[j],
    )) by {
        let a = keys[i];
        let b = keys[j];
        assert(m.contains_key(a) && m.contains_key(b));
        let na = evs[i].at.nanos();
        let nb = evs[j].at.nanos();
        assert(a / base == na && b / base == nb);
        assert(na < nb || (na == nb && a % base < b % base)) by (nonlinear_arith)
            requires
                a < b,
                a / base == na,
                b / base == nb,
                base > 0,
        ;
    }
    let ks = keys.to_set();
    assert(keys.no_duplicates()) by {
        assert forall|i: int, j: int| 0 <= i < keys.len() && 0 <= j < keys.len() && i != j implies keys[i]
            != keys[j] by {
            if i < j {
                assert(keys[i] < keys[j]);
            } else {
                assert(keys[j] < keys[i]);
            }
        }
    }
    keys.unique_seq_to_set();
    vstd::seq_lib::seq_to_set_is_finite(keys);
    assert(ks.subset_of(m.dom())) by {
        assert forall|k: u128| ks.contains(k) implies m.dom().contains(k) by {
            assert(keys.contains(k));
        }
    }
    assert(m.dom().intersect(ks) =~= ks);
    vstd::set_lib::lemma_set_difference_len(m.dom(), ks);
    assert(taken(m, keys).1.dom() =~= m.dom().difference(ks));
}

/// An emitted event is one more pending event, under a key no other event
/// holds, and it comes after every pending event of the same instant.
pub proof fn law_emit_comes_after_its_instant(v: TriggerBusView, line: LineId, at: SimTime, edge: Edge)
    requires
        bus_wf(v),
        v.seq < u64::MAX,
    ensures
        !v.pending.contains_key(event_key(at, v.seq)),
        v.pending.insert(event_key(at, v.seq), TriggerEvent { line, at, edge }).dom().len() == v.pending.dom().len()
            + 1,
        forall|k: u128| #[trigger]
            v.pending.contains_key(k) && v.pending[k].at.nanos() == at.nanos() ==> k < event_key(at, v.seq),
{
    let base = key_base() as u128;
    let key = event_key(at, v.seq);
    assert(key == at.nanos() * key_base() + v.seq) by (nonlinear_arith)
        requires
            key == (at.nanos() * key_base() + v.seq) as u128,
            at.nanos() < key_base(),
            v.seq < key_base(),
            key_base() == 0x1_0000_0000_0000_0000,
    ;
    assert(key % base == v.seq) by (nonlinear_arith)
        requires
            key == at.nanos() * key_base() + v.seq,
            v.seq < key_base(),
            base == key_base(),
    ;
    if v.pending.contains_key(key) {
        assert(key % base < v.seq);
    }
    assert forall|k: u128| #[trigger] v.pending.contains_key(k) && v.pending[k].at.nanos() == at.nanos() implies k
        < key by {
        assert(k / base == at.nanos() && k % base < v.seq);
        assert(k < key) by (nonlinear_arith)
            requires
                k / base == at.nanos(),
                k % base < v.seq,
                key == at.nanos() * key_base() + v.seq,
                base == key_base(),
                base > 0,
        ;
    }
}

} // verus!
