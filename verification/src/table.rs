//! Command table: compiled pattern to action.
//!
//! Each instrument declares which headers it understands and what each one
//! means. Patterns are compiled once, when the instrument is built, not on
//! every message. The first pattern that matches wins, so declaration order
//! matters when two patterns overlap.
use vstd::prelude::*;
use crate::pattern::{match_from, pattern_segments, split_nonempty, Pattern, SegmentSpec};

verus! {

/// The first entry whose pattern matches the header parts, with the numeric
/// suffixes found.
pub open spec fn first_match<T>(entries: Seq<(Seq<SegmentSpec>, T)>, parts: Seq<Seq<char>>) -> Option<(T, Seq<u32>)>
    decreases entries.len(),
{
    if entries.len() == 0 {
        None
    } else {
        match match_from(entries[0].0, 0, parts) {
            Some(s) => Some((entries[0].1, s)),
            None => first_match(entries.drop_first(), parts),
        }
    }
}

/// A set of patterns associated with actions.
#[derive(Clone, Debug)]
pub struct CommandTable<T> {
    entries: Vec<(Pattern, T)>,
}

impl<T> CommandTable<T> {
    /// The entries in declaration order: the nodes of each pattern and its action.
    pub closed spec fn entries_spec(&self) -> Seq<(Seq<SegmentSpec>, T)> {
        self.entries@.map_values(|e: (Pattern, T)| (e.0.segments_spec(), e.1))
    }

    pub fn new() -> (r: Self)
        ensures
            r.entries_spec() == Seq::<(Seq<SegmentSpec>, T)>::empty(),
    {
        let r = CommandTable { entries: Vec::new() };
        assert(r.entries_spec() =~= Seq::<(Seq<SegmentSpec>, T)>::empty());
        r
    }

    /// Builds the table from pattern/action pairs, keeping their order.
    pub fn from_pairs(pairs: Vec<(&str, T)>) -> (r: Self)
        ensures
            r.entries_spec() == pairs@.map_values(|p: (&str, T)| (pattern_segments(p.0@), p.1)),
            r.entries_spec() == after_adds(Seq::empty(), pairs@.map_values(|p: (&str, T)| (p.0@, p.1))),
    {
        let mut table = Self::new();
        let mut pairs = pairs;
        let ghost all = pairs@;
        let n0 = pairs.len();
        let ghost n = n0 as int;
        let mut rest: Vec<(&str, T)> = Vec::new();
        // Reverse once so that `pop` hands the pairs out in declaration order.
        while pairs.len() > 0
            invariant
                n == all.len(),
                n <= usize::MAX,
                rest@.len() + pairs@.len() == n,
                pairs@ == all.take(pairs@.len() as int),
                forall|k: int| 0 <= k < rest@.len() ==> rest@[k] == all[n - 1 - k],
            decreases pairs.len(),
        {
            let p = pairs.pop().unwrap();
            rest.push(p);
        }
        let mut count: usize = 0;
        while rest.len() > 0
            invariant
                n == all.len(),
                n <= usize::MAX,
                count + rest@.len() == n,
                forall|k: int| 0 <= k < rest@.len() ==> rest@[k] == all[n - 1 - k],
                table.entries_spec() == all.take(count as int).map_values(
                    |p: (&str, T)| (pattern_segments(p.0@), p.1),
                ),
            decreases rest.len(),
        {
            let p = rest.pop().unwrap();
            assert(p == all[count as int]);
            let ghost before = table.entries_spec();
            table.add(p.0, p.1);
            assert(all.take(count + 1) == all.take(count as int).push(all[count as int]));
            assert(table.entries_spec() =~= all.take(count + 1).map_values(
                |p: (&str, T)| (pattern_segments(p.0@), p.1),
            ));
            count += 1;
        }
        assert(all.take(n as int) == all);
        proof {
            let named = all.map_values(|p: (&str, T)| (p.0@, p.1));
            law_adding_in_order(Seq::<(Seq<SegmentSpec>, T)>::empty(), named);
            assert(Seq::<(Seq<SegmentSpec>, T)>::empty() + named.map_values(
                |p: (Seq<char>, T)| (pattern_segments(p.0), p.1),
            ) =~= all.map_values(|p: (&str, T)| (pattern_segments(p.0@), p.1)));
        }
        table
    }

    pub fn add(&mut self, pattern: &str, value: T)
        ensures
            final(self).entries_spec() == old(self).entries_spec().push((pattern_segments(pattern@), value)),
    {
        let p = Pattern::parse(pattern);
        self.entries.push((p, value));
        assert(self.entries_spec() =~= old(self).entries_spec().push((pattern_segments(pattern@), value)));
    }

    /// The action for a header, with its numeric suffixes. The first pattern
    /// that matches wins.
    pub fn lookup(&self, header: &str) -> (r: Option<(&T, Vec<u32>)>)
        ensures
            match first_match(self.entries_spec(), split_nonempty(header@, ':')) {
                Some((v, s)) => r is Some && *r.unwrap().0 == v && r.unwrap().1@ == s,
                None => r is None,
            },
    {
        let ghost parts = split_nonempty(header@, ':');
        let mut i: usize = 0;
        assert(self.entries_spec().skip(0) == self.entries_spec());
        while i < self.entries.len()
            invariant
                i <= self.entries@.len(),
                parts == split_nonempty(header@, ':'),
                first_match(self.entries_spec(), parts) == first_match(self.entries_spec().skip(i as int), parts),
            decreases self.entries@.len() - i,
        {
            let ghost rest = self.entries_spec().skip(i as int);
            assert(rest[0] == (self.entries@[i as int].0.segments_spec(), self.entries@[i as int].1));
            assert(rest.drop_first() == self.entries_spec().skip(i + 1));
            assert(rest.len() > 0);
            let pat = &self.entries[i].0;
            assert(pat.segments_spec() == rest[0].0);
            let found = pat.matches(header);
            if found.is_some() {
                let s = found.unwrap();
                assert(match_from(rest[0].0, 0, parts) == Some(s@));
                return Some((&self.entries[i].1, s));
            }
            assert(match_from(rest[0].0, 0, parts) is None);
            assert(first_match(rest, parts) == first_match(rest.drop_first(), parts));
            i += 1;
        }
        None
    }

    pub fn len(&self) -> (r: usize)
        ensures
            r == self.entries_spec().len(),
    {
        self.entries.len()
    }

    pub fn is_empty(&self) -> (r: bool)
        ensures
            r == (self.entries_spec().len() == 0),
    {
        self.entries.len() == 0
    }
}

/// The entries that adding the pairs one by one, in order, leaves after
/// `entries`.
pub open spec fn after_adds<T>(entries: Seq<(Seq<SegmentSpec>, T)>, pairs: Seq<(Seq<char>, T)>) -> Seq<(Seq<SegmentSpec>, T)>
    decreases pairs.len(),
{
    if pairs.len() == 0 {
        entries
    } else {
        after_adds(entries.push((pattern_segments(pairs[0].0), pairs[0].1)), pairs.drop_first())
    }
}

/// The first declared pattern wins: a header finds the action of the
/// earliest entry whose pattern matches it, with that pattern's suffixes,
/// and finds nothing exactly when no pattern matches.
pub proof fn law_first_declared_wins<T>(entries: Seq<(Seq<SegmentSpec>, T)>, parts: Seq<Seq<char>>)
    ensures
        first_match(entries, parts) is None <==> forall|i: int|
            0 <= i < entries.len() ==> match_from(#[trigger] entries[i].0, 0, parts) is None,
        forall|i: int|
            0 <= i < entries.len() && match_from(#[trigger] entries[i].0, 0, parts) is Some && (forall|j: int|
                0 <= j < i ==> match_from(#[trigger] entries[j].0, 0, parts) is None) ==> first_match(entries, parts)
                == Some((entries[i].1, match_from(entries[i].0, 0, parts).unwrap())),
    decreases entries.len(),
{
    if entries.len() > 0 {
        let rest = entries.drop_first();
        law_first_declared_wins(rest, parts);
        assert forall|i: int| 1 <= i < entries.len() implies #[trigger] entries[i].0 == rest[i - 1].0 && entries[i].1
            == rest[i - 1].1 by {}
        if first_match(entries, parts) is None {
            assert forall|i: int| 0 <= i < entries.len() implies match_from(#[trigger] entries[i].0, 0, parts) is None by {
                if i > 0 {
                    assert(entries[i].0 == rest[i - 1].0);
                }
            }
        }
        if forall|i: int| 0 <= i < entries.len() ==> match_from(#[trigger] entries[i].0, 0, parts) is None {
            assert(match_from(entries[0].0, 0, parts) is None);
            assert forall|i: int| 0 <= i < rest.len() implies match_from(#[trigger] rest[i].0, 0, parts) is None by {
                assert(rest[i].0 == entries[i + 1].0);
            }
        }
        assert forall|i: int|
            0 <= i < entries.len() && match_from(#[trigger] entries[i].0, 0, parts) is Some && (forall|j: int|
                0 <= j < i ==> match_from(#[trigger] entries[j].0, 0, parts) is None) implies first_match(entries, parts)
                == Some((entries[i].1, match_from(entries[i].0, 0, parts).unwrap())) by {
            if i > 0 {
                assert(match_from(entries[0].0, 0, parts) is None);
                assert(rest[i - 1] == entries[i]);
                assert forall|j: int| 0 <= j < i - 1 implies match_from(#[trigger] rest[j].0, 0, parts) is None by {
                    assert(rest[j] == entries[j + 1]);
                }
            }
        }
    }
}

/// Adding an entry keeps every answer the table already gave: the new
/// pattern only answers headers that no earlier pattern matches.
pub proof fn law_add_keeps_earlier_answers<T>(
    entries: Seq<(Seq<SegmentSpec>, T)>,
    segs: Seq<SegmentSpec>,
    value: T,
    parts: Seq<Seq<char>>,
)
    ensures
        first_match(entries.push((segs, value)), parts) == match first_match(entries, parts) {
            Some(found) => Some(found),
            None => match match_from(segs, 0, parts) {
                Some(s) => Some((value, s)),
                None => None,
            },
        },
    decreases entries.len(),
{
    if entries.len() > 0 {
        law_add_keeps_earlier_answers(entries.drop_first(), segs, value, parts);
        assert(entries.push((segs, value)).drop_first() =~= entries.drop_first().push((segs, value)));
        assert(entries.push((segs, value))[0] == entries[0]);
    } else {
        assert(entries.push((segs, value)).drop_first() =~= Seq::<(Seq<SegmentSpec>, T)>::empty());
        assert(entries.push((segs, value))[0] == (segs, value));
        assert(first_match(Seq::<(Seq<SegmentSpec>, T)>::empty(), parts) is None);
    }
}

/// Building a table from pairs is adding them one by one, in order, after
/// what the table held.
pub proof fn law_adding_in_order<T>(entries: Seq<(Seq<SegmentSpec>, T)>, pairs: Seq<(Seq<char>, T)>)
    ensures
        after_adds(entries, pairs) == entries + pairs.map_values(|p: (Seq<char>, T)| (pattern_segments(p.0), p.1)),
    decreases pairs.len(),
{
    if pairs.len() > 0 {
        let e2 = entries.push((pattern_segments(pairs[0].0), pairs[0].1));
        law_adding_in_order(e2, pairs.drop_first());
        assert(e2 + pairs.drop_first().map_values(|p: (Seq<char>, T)| (pattern_segments(p.0), p.1)) =~= entries
            + pairs.map_values(|p: (Seq<char>, T)| (pattern_segments(p.0), p.1)));
    } else {
        assert(entries + pairs.map_values(|p: (Seq<char>, T)| (pattern_segments(p.0), p.1)) =~= entries);
    }
}

} // verus!
