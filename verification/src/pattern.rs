//! SCPI header patterns: long form, short form and optional nodes.
//!
//! The standard writes each command with upper case marking the accepted
//! abbreviation and brackets marking what may be left out:
//!
//! ```text
//! [SENSe:]VOLTage[:DC]:RANGe
//! ```
//!
//! That single pattern accepts `SENS:VOLT:DC:RANG`, `VOLT:RANG`,
//! `voltage:range` and every other legal combination.
use vstd::prelude::*;
use crate::text::{
    chars_of, eq_chars, is_ascii_digit, is_ascii_upper, parse_u32_digits, parse_u32_vec, slice_vec,
    string_from, upper, upper_vec,
};

verus! {

/// The abstract content of one header node.
pub struct SegmentSpec {
    /// The short form: the upper-case letters and digits of the pattern word.
    pub short: Seq<char>,
    /// The long form: the whole word in upper case.
    pub long: Seq<char>,
    /// Whether the node was written between brackets.
    pub optional: bool,
}

/// The upper-case letters and digits of a word, in order.
pub open spec fn short_letters(word: Seq<char>) -> Seq<char>
    decreases word.len(),
{
    if word.len() == 0 {
        Seq::empty()
    } else if is_ascii_upper(word.last()) || is_ascii_digit(word.last()) {
        short_letters(word.drop_last()).push(word.last())
    } else {
        short_letters(word.drop_last())
    }
}

/// The node that a pattern word denotes. A word written entirely in lower
/// case has no abbreviation: its short form is its long form.
pub open spec fn segment_of(word: Seq<char>, optional: bool) -> SegmentSpec {
    let long = upper(word);
    let f = short_letters(word);
    SegmentSpec { short: if f.len() == 0 { long } else { f }, long, optional }
}

/// The state of the pattern reader after some prefix of the pattern text.
pub struct PatternReader {
    pub segments: Seq<SegmentSpec>,
    pub word: Seq<char>,
    pub in_bracket: bool,
    pub word_optional: bool,
}

pub open spec fn reader_start() -> PatternReader {
    PatternReader { segments: Seq::empty(), word: Seq::empty(), in_bracket: false, word_optional: false }
}

/// One character of pattern text. The opening character of a word decides
/// whether the whole word is optional.
pub open spec fn reader_step(st: PatternReader, c: char) -> PatternReader {
    if c == '[' {
        PatternReader { in_bracket: true, ..st }
    } else if c == ']' {
        PatternReader { in_bracket: false, ..st }
    } else if c == ':' {
        if st.word.len() > 0 {
            PatternReader {
                segments: st.segments.push(segment_of(st.word, st.word_optional)),
                word: Seq::empty(),
                ..st
            }
        } else {
            st
        }
    } else {
        PatternReader {
            word: st.word.push(c),
            word_optional: if st.word.len() == 0 { st.in_bracket } else { st.word_optional },
            ..st
        }
    }
}

pub open spec fn reader_run(s: Seq<char>) -> PatternReader
    decreases s.len(),
{
    if s.len() == 0 {
        reader_start()
    } else {
        reader_step(reader_run(s.drop_last()), s.last())
    }
}

/// The nodes of a pattern written in the notation of the standard.
pub open spec fn pattern_segments(s: Seq<char>) -> Seq<SegmentSpec> {
    let st = reader_run(s);
    if st.word.len() > 0 {
        st.segments.push(segment_of(st.word, st.word_optional))
    } else {
        st.segments
    }
}

/// The position just after the last character of `s` that is not a digit,
/// or 0 when `s` is made of digits only.
pub open spec fn digits_tail_start(s: Seq<char>) -> nat
    decreases s.len(),
{
    if s.len() == 0 {
        0
    } else if !is_ascii_digit(s.last()) {
        s.len()
    } else {
        digits_tail_start(s.drop_last())
    }
}

/// Whether a node accepts the mnemonic received, and the numeric suffix
/// found at its end, if any (`OUTP2` carries the channel 2).
pub open spec fn segment_accepts(seg: SegmentSpec, input: Seq<char>) -> Option<Option<u32>> {
    let up = upper(input);
    let cut = digits_tail_start(up) as int;
    let name = up.take(cut);
    let suffix = up.skip(cut);
    if name == seg.short || name == seg.long {
        Some(if suffix.len() == 0 { None } else { parse_u32_digits(suffix) })
    } else if up == seg.short || up == seg.long {
        Some(None)
    } else {
        None
    }
}

pub open spec fn opt_seq(o: Option<u32>) -> Seq<u32> {
    match o {
        Some(v) => seq![v],
        None => Seq::empty(),
    }
}

/// Matching with backtracking over the optional nodes: first try to consume
/// a mnemonic with node `i`, and only if that fails, skip an optional node.
/// The result is the numeric suffixes found, in order.
pub open spec fn match_from(segs: Seq<SegmentSpec>, i: int, parts: Seq<Seq<char>>) -> Option<Seq<u32>>
    decreases segs.len() - i,
{
    if i < 0 || i >= segs.len() {
        if parts.len() == 0 {
            Some(Seq::empty())
        } else {
            None
        }
    } else {
        let seg = segs[i];
        let consumed = if parts.len() > 0 {
            match segment_accepts(seg, parts[0]) {
                Some(suffix) => match match_from(segs, i + 1, parts.drop_first()) {
                    Some(rest) => Some(opt_seq(suffix) + rest),
                    None => None,
                },
                None => None,
            }
        } else {
            None
        };
        if consumed is Some {
            consumed
        } else if seg.optional {
            match_from(segs, i + 1, parts)
        } else {
            None
        }
    }
}

/// The state of the splitter after a prefix: the pieces already closed and
/// the piece being read.
pub open spec fn split_run(s: Seq<char>, sep: char) -> (Seq<Seq<char>>, Seq<char>)
    decreases s.len(),
{
    if s.len() == 0 {
        (Seq::empty(), Seq::empty())
    } else {
        let (done, cur) = split_run(s.drop_last(), sep);
        if s.last() == sep {
            (if cur.len() > 0 { done.push(cur) } else { done }, Seq::empty())
        } else {
            (done, cur.push(s.last()))
        }
    }
}

/// The non-empty pieces of `s` between occurrences of `sep`.
pub open spec fn split_nonempty(s: Seq<char>, sep: char) -> Seq<Seq<char>> {
    let (done, cur) = split_run(s, sep);
    if cur.len() > 0 {
        done.push(cur)
    } else {
        done
    }
}

/// One node of a compiled pattern.
#[derive(Clone, Debug)]
struct Segment {
    short: Vec<char>,
    long: Vec<char>,
    optional: bool,
}

impl Segment {
    spec fn view(&self) -> SegmentSpec {
        SegmentSpec { short: self.short@, long: self.long@, optional: self.optional }
    }

    fn new(word: &Vec<char>, optional: bool) -> (r: Segment)
        ensures
            r.view() == segment_of(word@, optional),
    {
        let mut short: Vec<char> = Vec::new();
        let mut i: usize = 0;
        while i < word.len()
            invariant
                i <= word.len(),
                short@ == short_letters(word@.take(i as int)),
            decreases word.len() - i,
        {
            let c = word[i];
            assert(word@.take(i + 1).drop_last() == word@.take(i as int));
            if ('A' <= c && c <= 'Z') || ('0' <= c && c <= '9') {
                short.push(c);
            }
            i += 1;
        }
        assert(word@.take(word.len() as int) == word@);
        let long = upper_vec(word);
        let short = if short.len() == 0 {
            long.clone()
        } else {
            short
        };
        Segment { short, long, optional }
    }

    fn accepts(&self, input: &Vec<char>) -> (r: Option<Option<u32>>)
        ensures
            r == segment_accepts(self.view(), input@),
    {
        let up = upper_vec(input);
        let mut cut: usize = up.len();
        assert(up@.take(up.len() as int) == up@);
        while cut > 0 && '0' <= up[cut - 1] && up[cut - 1] <= '9'
            invariant
                cut <= up.len(),
                digits_tail_start(up@) == digits_tail_start(up@.take(cut as int)),
            decreases cut,
        {
            assert(up@.take(cut as int).drop_last() == up@.take(cut - 1));
            cut -= 1;
        }
        proof {
            assert(up@.take(up.len() as int) == up@);
            if cut > 0 {
                assert(!is_ascii_digit(up@.take(cut as int).last()));
            }
            assert(digits_tail_start(up@.take(cut as int)) == cut);
        }
        let name = slice_vec(&up, 0, cut);
        let suffix = slice_vec(&up, cut, up.len());
        assert(name@ == up@.take(cut as int));
        assert(suffix@ == up@.skip(cut as int));
        if eq_chars(&name, &self.short) || eq_chars(&name, &self.long) {
            if suffix.len() == 0 {
                return Some(None);
            }
            proof {
                assert forall|k: int| 0 <= k < suffix@.len() implies is_ascii_digit(#[trigger] suffix@[k]) by {
                    lemma_tail_digits(up@, cut as int, cut + k);
                }
            }
            return Some(parse_u32_vec(&suffix));
        }
        if eq_chars(&up, &self.short) || eq_chars(&up, &self.long) {
            return Some(None);
        }
        None
    }
}

/// Every character after `digits_tail_start` is a digit.
proof fn lemma_tail_digits(s: Seq<char>, cut: int, k: int)
    requires
        cut == digits_tail_start(s),
        cut <= k < s.len(),
    ensures
        is_ascii_digit(s[k]),
    decreases s.len(),
{
    if s.len() > 0 && is_ascii_digit(s.last()) {
        if k < s.len() - 1 {
            lemma_tail_digits(s.drop_last(), cut, k);
        }
    }
}

/// A compiled header pattern.
#[derive(Clone, Debug)]
pub struct Pattern {
    segments: Vec<Segment>,
}

impl Pattern {
    /// The nodes of the pattern.
    pub closed spec fn segments_spec(&self) -> Seq<SegmentSpec> {
        self.segments@.map_values(|s: Segment| s.view())
    }

    /// Compiles the notation of the standard.
    pub fn parse(pattern: &str) -> (r: Pattern)
        ensures
            r.segments_spec() == pattern_segments(pattern@),
    {
        let text = chars_of(pattern);
        let mut segments: Vec<Segment> = Vec::new();
        let mut word: Vec<char> = Vec::new();
        let mut in_bracket = false;
        let mut word_optional = false;
        let mut i: usize = 0;
        while i < text.len()
            invariant
                i <= text.len(),
                text@ == pattern@,
                ({
                    let st = reader_run(text@.take(i as int));
                    &&& segments@.map_values(|s: Segment| s.view()) == st.segments
                    &&& word@ == st.word
                    &&& in_bracket == st.in_bracket
                    &&& word_optional == st.word_optional
                }),
            decreases text.len() - i,
        {
            let c = text[i];
            assert(text@.take(i + 1).drop_last() == text@.take(i as int));
            let ghost before = segments@;
            if c == '[' {
                in_bracket = true;
            } else if c == ']' {
                in_bracket = false;
            } else if c == ':' {
                if word.len() > 0 {
                    let seg = Segment::new(&word, word_optional);
                    segments.push(seg);
                    assert(segments@.map_values(|s: Segment| s.view()) == before.map_values(
                        |s: Segment| s.view(),
                    ).push(seg.view()));
                    word = Vec::new();
                }
            } else {
                if word.len() == 0 {
                    word_optional = in_bracket;
                }
                word.push(c);
            }
            i += 1;
        }
        assert(text@.take(text.len() as int) == text@);
        if word.len() > 0 {
            let ghost before = segments@;
            let seg = Segment::new(&word, word_optional);
            segments.push(seg);
            assert(segments@.map_values(|s: Segment| s.view()) == before.map_values(
                |s: Segment| s.view(),
            ).push(seg.view()));
        }
        Pattern { segments }
    }

    /// Whether this header matches the pattern, with the numeric suffixes
    /// found in order. `None` means it does not match.
    pub fn matches(&self, header: &str) -> (r: Option<Vec<u32>>)
        ensures
            r is None <==> match_from(self.segments_spec(), 0, split_nonempty(header@, ':')) is None,
            r is Some ==> match_from(self.segments_spec(), 0, split_nonempty(header@, ':'))
                == Some(r.unwrap()@),
    {
        let text = chars_of(header);
        let parts = split_vec(&text, ':');
        let mut suffixes: Vec<u32> = Vec::new();
        assert(views(parts@).skip(0) == views(parts@));
        if self.match_from_exec(0, &parts, 0, &mut suffixes) {
            Some(suffixes)
        } else {
            None
        }
    }

    fn match_from_exec(&self, i: usize, parts: &Vec<Vec<char>>, j: usize, suffixes: &mut Vec<u32>) -> (r: bool)
        requires
            i <= self.segments@.len(),
            j <= parts@.len(),
        ensures
            ({
                let m = match_from(self.segments_spec(), i as int, views(parts@).skip(j as int));
                &&& r == m is Some
                &&& r ==> final(suffixes)@ == old(suffixes)@ + m.unwrap()
                &&& !r ==> final(suffixes)@ == old(suffixes)@
            }),
        decreases self.segments@.len() - i,
    {
        let ghost segs = self.segments_spec();
        let ghost rest = views(parts@).skip(j as int);
        if i == self.segments.len() {
            return j == parts.len();
        }
        assert(segs[i as int] == self.segments@[i as int].view());
        if j < parts.len() {
            assert(rest[0] == parts@[j as int]@);
            assert(rest.drop_first() == views(parts@).skip(j + 1));
            if let Some(suffix) = self.segments[i].accepts(&parts[j]) {
                let mark = suffixes.len();
                let ghost start = suffixes@;
                if let Some(s) = suffix {
                    suffixes.push(s);
                }
                assert(suffixes@ == start + opt_seq(suffix));
                if self.match_from_exec(i + 1, parts, j + 1, suffixes) {
                    assert(start + opt_seq(suffix) + match_from(segs, i + 1, rest.drop_first()).unwrap()
                        == start + (opt_seq(suffix) + match_from(segs, i + 1, rest.drop_first()).unwrap()));
                    return true;
                }
                suffixes.truncate(mark);
                assert(suffixes@ == start);
            }
        }
        if self.segments[i].optional && self.match_from_exec(i + 1, parts, j, suffixes) {
            return true;
        }
        false
    }

    /// The header in its long, canonical form.
    pub fn canonical(&self) -> (r: String)
        ensures
            r@ == join_longs(self.segments_spec()),
    {
        let mut out: Vec<char> = Vec::new();
        let mut i: usize = 0;
        while i < self.segments.len()
            invariant
                i <= self.segments@.len(),
                out@ == join_longs(self.segments_spec().take(i as int)),
            decreases self.segments@.len() - i,
        {
            let ghost prev = self.segments_spec().take(i as int);
            assert(self.segments_spec().take(i + 1).drop_last() == prev);
            assert(self.segments_spec()[i as int] == self.segments@[i as int].view());
            if i > 0 {
                out.push(':');
            }
            let long = &self.segments[i].long;
            let mut k: usize = 0;
            let ghost base = out@;
            while k < long.len()
                invariant
                    k <= long.len(),
                    out@ == base + long@.take(k as int),
                decreases long.len() - k,
            {
                out.push(long[k]);
                assert(long@.take(k + 1) == long@.take(k as int).push(long@[k as int]));
                k += 1;
            }
            assert(long@.take(long.len() as int) == long@);
            i += 1;
        }
        assert(self.segments_spec().take(self.segments@.len() as int) == self.segments_spec());
        string_from(&out)
    }
}

/// The long forms joined by `:`.
pub open spec fn join_longs(segs: Seq<SegmentSpec>) -> Seq<char>
    decreases segs.len(),
{
    if segs.len() == 0 {
        Seq::empty()
    } else if segs.len() == 1 {
        segs[0].long
    } else {
        join_longs(segs.drop_last()).push(':') + segs.last().long
    }
}

/// The character sequences held by a vector of character vectors.
pub open spec fn views(v: Seq<Vec<char>>) -> Seq<Seq<char>> {
    v.map_values(|x: Vec<char>| x@)
}

/// Splits into the non-empty pieces between separators.
pub fn split_vec(text: &Vec<char>, sep: char) -> (r: Vec<Vec<char>>)
    ensures
        views(r@) == split_nonempty(text@, sep),
{
    let mut done: Vec<Vec<char>> = Vec::new();
    let mut cur: Vec<char> = Vec::new();
    let mut i: usize = 0;
    while i < text.len()
        invariant
            i <= text.len(),
            (views(done@), cur@) == split_run(text@.take(i as int), sep),
        decreases text.len() - i,
    {
        let c = text[i];
        assert(text@.take(i + 1).drop_last() == text@.take(i as int));
        if c == sep {
            if cur.len() > 0 {
                let ghost d = views(done@);
                done.push(cur);
                assert(views(done@) =~= d.push(cur@));
            }
            cur = Vec::new();
        } else {
            cur.push(c);
        }
        i += 1;
    }
    assert(text@.take(text.len() as int) == text@);
    if cur.len() > 0 {
        let ghost d = views(done@);
        done.push(cur);
        assert(views(done@) =~= d.push(cur@));
    }
    done
}

/// Upper case is a fixed point of upper-casing.
proof fn lemma_upper_idempotent(x: Seq<char>)
    ensures
        upper(upper(x)) == upper(x),
{
    assert(upper(upper(x)) =~= upper(x));
}

/// Upper-casing leaves the separator where it was.
proof fn lemma_split_upper(s: Seq<char>)
    ensures
        split_run(upper(s), ':') == ({
            let (done, cur) = split_run(s, ':');
            (done.map_values(|p: Seq<char>| upper(p)), upper(cur))
        }),
    decreases s.len(),
{
    if s.len() > 0 {
        lemma_split_upper(s.drop_last());
        let (done, cur) = split_run(s.drop_last(), ':');
        assert(upper(s).drop_last() =~= upper(s.drop_last()));
        assert(upper(s).last() == crate::text::upper_char(s.last()));
        assert(upper(cur.push(s.last())) =~= upper(cur).push(crate::text::upper_char(s.last())));
        assert(done.push(cur).map_values(|p: Seq<char>| upper(p)) =~= done.map_values(|p: Seq<char>| upper(p)).push(
            upper(cur),
        ));
        assert(upper(Seq::<char>::empty()) =~= Seq::<char>::empty());
    } else {
        assert(upper(s) =~= Seq::<char>::empty());
        assert(Seq::<Seq<char>>::empty().map_values(|p: Seq<char>| upper(p)) =~= Seq::<Seq<char>>::empty());
        assert(upper(Seq::<char>::empty()) =~= Seq::<char>::empty());
    }
}

/// A node accepts a mnemonic exactly when it accepts it in upper case.
proof fn lemma_match_upper(segs: Seq<SegmentSpec>, i: int, parts: Seq<Seq<char>>)
    ensures
        match_from(segs, i, parts.map_values(|p: Seq<char>| upper(p))) == match_from(segs, i, parts),
    decreases segs.len() - i,
{
    let up = parts.map_values(|p: Seq<char>| upper(p));
    if 0 <= i < segs.len() {
        lemma_match_upper(segs, i + 1, parts);
        if parts.len() > 0 {
            assert(up.drop_first() =~= parts.drop_first().map_values(|p: Seq<char>| upper(p)));
            lemma_match_upper(segs, i + 1, parts.drop_first());
            lemma_upper_idempotent(parts[0]);
            assert(up[0] == upper(parts[0]));
            assert(segment_accepts(segs[i], up[0]) == segment_accepts(segs[i], parts[0]));
        }
    }
}

/// A header is matched without regard to case: a header and its upper-case
/// form match the same patterns, with the same numeric suffixes.
pub proof fn law_matching_ignores_case(segs: Seq<SegmentSpec>, header: Seq<char>)
    ensures
        match_from(segs, 0, split_nonempty(upper(header), ':')) == match_from(segs, 0, split_nonempty(header, ':')),
{
    lemma_split_upper(header);
    let (done, cur) = split_run(header, ':');
    if cur.len() > 0 {
        assert(done.push(cur).map_values(|p: Seq<char>| upper(p)) =~= done.map_values(|p: Seq<char>| upper(p)).push(
            upper(cur),
        ));
    }
    lemma_match_upper(segs, 0, split_nonempty(header, ':'));
}

/// Empty pieces are dropped: a colon in front of a header splits it as the
/// header alone.
proof fn lemma_split_leading_colon(h: Seq<char>)
    ensures
        split_run(seq![':'] + h, ':') == split_run(h, ':'),
    decreases h.len(),
{
    let s = seq![':'] + h;
    if h.len() > 0 {
        lemma_split_leading_colon(h.drop_last());
        assert(s.drop_last() =~= seq![':'] + h.drop_last());
        assert(s.last() == h.last());
    } else {
        assert(s.drop_last() =~= Seq::<char>::empty());
        assert(s.last() == ':');
        assert(s.len() == 1);
        assert(h =~= Seq::<char>::empty());
    }
}

/// The leading colon of a header is optional: with it or without it, the
/// header matches the same patterns with the same numeric suffixes.
pub proof fn law_leading_colon_is_optional(segs: Seq<SegmentSpec>, header: Seq<char>)
    ensures
        match_from(segs, 0, split_nonempty(seq![':'] + header, ':')) == match_from(segs, 0, split_nonempty(header, ':')),
{
    lemma_split_leading_colon(header);
}

/// The text without its brackets.
pub open spec fn without_brackets(s: Seq<char>) -> Seq<char>
    decreases s.len(),
{
    if s.len() == 0 {
        Seq::empty()
    } else if s.last() == '[' || s.last() == ']' {
        without_brackets(s.drop_last())
    } else {
        without_brackets(s.drop_last()).push(s.last())
    }
}

/// Pieces joined by `:`.
pub open spec fn join_colon(parts: Seq<Seq<char>>) -> Seq<char>
    decreases parts.len(),
{
    if parts.len() == 0 {
        Seq::empty()
    } else if parts.len() == 1 {
        parts[0]
    } else {
        join_colon(parts.drop_last()).push(':') + parts.last()
    }
}

/// Reading a pattern splits its bracket-free text on `:`: the nodes read so
/// far are the closed pieces, in upper case, and the word being read is the
/// open piece.
proof fn lemma_reader_splits(s: Seq<char>)
    ensures
        reader_run(s).segments.map_values(|g: SegmentSpec| g.long) == split_run(without_brackets(s), ':').0.map_values(
            |p: Seq<char>| upper(p),
        ),
        reader_run(s).word == split_run(without_brackets(s), ':').1,
    decreases s.len(),
{
    if s.len() > 0 {
        let t = s.drop_last();
        let c = s.last();
        lemma_reader_splits(t);
        let st = reader_run(t);
        let (done, cur) = split_run(without_brackets(t), ':');
        if c == '[' || c == ']' {
        } else {
            let w = without_brackets(s);
            assert(w.drop_last() == without_brackets(t));
            assert(w.last() == c);
            if c == ':' {
                if st.word.len() > 0 {
                    assert(st.segments.push(segment_of(st.word, st.word_optional)).map_values(|g: SegmentSpec| g.long)
                        =~= st.segments.map_values(|g: SegmentSpec| g.long).push(upper(st.word)));
                    assert(done.push(cur).map_values(|p: Seq<char>| upper(p)) =~= done.map_values(
                        |p: Seq<char>| upper(p),
                    ).push(upper(cur)));
                }
            }
        }
    } else {
        assert(Seq::<SegmentSpec>::empty().map_values(|g: SegmentSpec| g.long) =~= Seq::<Seq<char>>::empty());
        assert(Seq::<Seq<char>>::empty().map_values(|p: Seq<char>| upper(p)) =~= Seq::<Seq<char>>::empty());
    }
}

/// The long forms joined are the pieces of their texts joined.
proof fn lemma_join_longs(segs: Seq<SegmentSpec>)
    ensures
        join_longs(segs) == join_colon(segs.map_values(|g: SegmentSpec| g.long)),
    decreases segs.len(),
{
    if segs.len() > 0 {
        lemma_join_longs(segs.drop_last());
        assert(segs.drop_last().map_values(|g: SegmentSpec| g.long) =~= segs.map_values(
            |g: SegmentSpec| g.long,
        ).drop_last());
    }
}

/// The canonical form of a pattern is its text in upper case, without the
/// brackets, with the empty pieces between colons left out: the long forms
/// of every node, optional or not.
pub proof fn law_canonical_form(p: Seq<char>)
    ensures
        join_longs(pattern_segments(p)) == join_colon(split_nonempty(upper(without_brackets(p)), ':')),
{
    lemma_reader_splits(p);
    lemma_split_upper(without_brackets(p));
    let st = reader_run(p);
    let (done, cur) = split_run(without_brackets(p), ':');
    let segs = pattern_segments(p);
    lemma_join_longs(segs);
    assert(upper(cur).len() == cur.len());
    if st.word.len() > 0 {
        assert(segs.map_values(|g: SegmentSpec| g.long) =~= st.segments.map_values(|g: SegmentSpec| g.long).push(
            upper(st.word),
        ));
        assert(done.push(cur).map_values(|q: Seq<char>| upper(q)) =~= done.map_values(|q: Seq<char>| upper(q)).push(
            upper(cur),
        ));
    }
}

/// Each node accepts its long form and its short form, and a header
/// written node by node in either form, in capitals, matches the pattern,
/// whichever nodes are optional.
pub proof fn law_long_and_short_forms_match(segs: Seq<SegmentSpec>, parts: Seq<Seq<char>>)
    requires
        segs.len() == parts.len(),
        forall|k: int|
            0 <= k < segs.len() ==> (#[trigger] parts[k] == segs[k].long || parts[k] == segs[k].short) && upper(
                parts[k],
            ) == parts[k],
    ensures
        match_from(segs, 0, parts) is Some,
{
    lemma_forms_match_from(segs, parts, 0);
    assert(parts.skip(0) == parts);
}

proof fn lemma_forms_match_from(segs: Seq<SegmentSpec>, parts: Seq<Seq<char>>, i: int)
    requires
        segs.len() == parts.len(),
        0 <= i <= segs.len(),
        forall|k: int|
            0 <= k < segs.len() ==> (#[trigger] parts[k] == segs[k].long || parts[k] == segs[k].short) && upper(
                parts[k],
            ) == parts[k],
    ensures
        match_from(segs, i, parts.skip(i)) is Some,
    decreases segs.len() - i,
{
    if i < segs.len() {
        lemma_forms_match_from(segs, parts, i + 1);
        let rest = parts.skip(i);
        assert(rest[0] == parts[i]);
        assert(rest.drop_first() == parts.skip(i + 1));
        assert(parts[i] == segs[i].long || parts[i] == segs[i].short);
        assert(segment_accepts(segs[i], parts[i]) is Some);
    } else {
        assert(parts.skip(i).len() == 0);
    }
}

} // verus!
