//! Unit suffixes of a numeric parameter.
//!
//! SCPI lets a value carry its unit, and real clients write `:FREQ 2.4 GHZ`
//! and `:POW -10 DBM` rather than `:FREQ 2400000000`. The suffix is not
//! decoration: it carries a multiplier, and dropping it turns `2.4 GHZ` into
//! 2.4 Hz. An unknown suffix is therefore an error, never ignored.
//!
//! SCPI-99 reserves `MA` for "mega" because `M` already meant "milli", so a
//! megahertz is written `MAHZ`. Every real instrument accepts `MHZ` as a
//! megahertz anyway, and nobody has ever asked for a millihertz. The rule here
//! is the instruments' one: with `HZ`, `M` is mega (and so is `MA`); with any
//! other unit, `M` is milli. The prefix `A` for "atto" is not recognised: it
//! would collide with the ampere.
//!
//! Multipliers are powers of ten and are given here by their exponent.
use vstd::prelude::*;
use crate::parse::{trim, trim_end, trim_start, trim_vec};
use crate::text::{chars_of, ends_with, eq_chars, is_ascii_upper, is_space, slice_vec, string_from, upper, upper_vec};

verus! {

pub open spec fn is_digit(c: char) -> bool {
    '0' <= c && c <= '9'
}

pub open spec fn is_sign(c: char) -> bool {
    c == '+' || c == '-'
}

/// The first position at or after `i` where `s` stops holding digits (and,
/// with `points`, decimal points).
pub open spec fn skip_number_chars(s: Seq<char>, i: int, points: bool) -> int
    decreases s.len() - i,
{
    if 0 <= i < s.len() && (is_digit(s[i]) || (points && s[i] == '.')) {
        skip_number_chars(s, i + 1, points)
    } else {
        i
    }
}

/// Where the numeric part of `s` ends: an optional sign, digits and points,
/// and an exponent. An `E` belongs to the number only when a digit follows
/// it, perhaps after a sign: in `1E3` it is the exponent, in `1EX` the prefix
/// "exa".
pub open spec fn mantissa_end(s: Seq<char>) -> int {
    let i0: int = if s.len() > 0 && is_sign(s[0]) {
        1
    } else {
        0
    };
    let i1 = skip_number_chars(s, i0, true);
    if i1 < s.len() && (s[i1] == 'e' || s[i1] == 'E') {
        let j0 = i1 + 1;
        let j1 = if j0 < s.len() && is_sign(s[j0]) {
            j0 + 1
        } else {
            j0
        };
        if j1 < s.len() && is_digit(s[j1]) {
            skip_number_chars(s, j1, false)
        } else {
            i1
        }
    } else {
        i1
    }
}

/// The base units recognised at the end of a suffix, longest first, so that
/// `DBM` is not read as the prefix `D` on `BM`.
pub open spec fn units() -> Seq<Seq<char>> {
    seq![
        "DBUV"@, "DBM"@, "DBW"@, "DB"@, "OHM"@, "PCT"@, "DEG"@, "RAD"@, "HZ"@, "V"@, "A"@, "W"@,
        "S"@,
    ]
}

/// The multiplier prefixes and their powers of ten; `MA` (mega) is tried
/// before `M` (milli).
pub open spec fn prefixes() -> Seq<(Seq<char>, int)> {
    seq![
        ("MA"@, 6),
        ("EX"@, 18),
        ("PE"@, 15),
        ("T"@, 12),
        ("G"@, 9),
        ("K"@, 3),
        ("M"@, -3),
        ("U"@, -6),
        ("N"@, -9),
        ("P"@, -12),
        ("F"@, -15),
    ]
}

/// The first unit of `us` that `s` ends with.
pub open spec fn first_unit(s: Seq<char>, us: Seq<Seq<char>>) -> Option<Seq<char>>
    decreases us.len(),
{
    if us.len() == 0 {
        None
    } else if ends_with(s, us[0]) {
        Some(us[0])
    } else {
        first_unit(s, us.drop_first())
    }
}

/// The power of the first prefix of `ps` equal to `p`.
pub open spec fn prefix_power(p: Seq<char>, ps: Seq<(Seq<char>, int)>) -> Option<int>
    decreases ps.len(),
{
    if ps.len() == 0 {
        None
    } else if ps[0].0 == p {
        Some(ps[0].1)
    } else {
        prefix_power(p, ps.drop_first())
    }
}

/// The power of ten a suffix (already in upper case) multiplies the value
/// by, or `None` when it is not a known unit. Logarithmic units (`DB...`)
/// take no prefix.
pub open spec fn multiplier_power(s: Seq<char>) -> Option<int> {
    match first_unit(s, units()) {
        None => None,
        Some(u) => {
            let p = s.take(s.len() - u.len());
            if p.len() == 0 {
                Some(0)
            } else if u.len() >= 2 && u[0] == 'D' && u[1] == 'B' {
                None
            } else {
                match prefix_power(p, prefixes()) {
                    None => None,
                    Some(e) => if u == "HZ"@ && p == "M"@ {
                        Some(6)
                    } else {
                        Some(e)
                    },
                }
            }
        },
    }
}

/// A decimal parameter taken apart: the text of its number and the power of
/// ten its unit suffix stands for; `None` when it is blank or its suffix is
/// not a known unit.
pub open spec fn decimal_parts(raw: Seq<char>) -> Option<(Seq<char>, int)> {
    let t = trim(raw);
    if t.len() == 0 {
        None
    } else {
        let cut = mantissa_end(t);
        let suffix = trim(t.skip(cut));
        if suffix.len() == 0 {
            Some((t.take(cut), 0))
        } else {
            match multiplier_power(upper(suffix)) {
                None => None,
                Some(e) => Some((t.take(cut), e)),
            }
        }
    }
}

fn skip_exec(s: &Vec<char>, i: usize, points: bool) -> (r: usize)
    requires
        i <= s.len(),
    ensures
        r as int == skip_number_chars(s@, i as int, points),
        i <= r <= s.len(),
{
    let mut k: usize = i;
    while k < s.len() && (('0' <= s[k] && s[k] <= '9') || (points && s[k] == '.'))
        invariant
            i <= k <= s.len(),
            skip_number_chars(s@, i as int, points) == skip_number_chars(s@, k as int, points),
        decreases s.len() - k,
    {
        k += 1;
    }
    k
}

/// Where the numeric part ends; see [`mantissa_end`].
pub fn fin_de_mantisa(s: &Vec<char>) -> (r: usize)
    ensures
        r as int == mantissa_end(s@),
        r <= s.len(),
{
    let i0: usize = if s.len() > 0 && (s[0] == '+' || s[0] == '-') {
        1
    } else {
        0
    };
    let i1 = skip_exec(s, i0, true);
    if i1 < s.len() && (s[i1] == 'e' || s[i1] == 'E') {
        let j0 = i1 + 1;
        let j1 = if j0 < s.len() && (s[j0] == '+' || s[j0] == '-') {
            j0 + 1
        } else {
            j0
        };
        if j1 < s.len() && '0' <= s[j1] && s[j1] <= '9' {
            return skip_exec(s, j1, false);
        }
    }
    i1
}

fn ends_with_exec(s: &Vec<char>, p: &Vec<char>) -> (r: bool)
    ensures
        r == ends_with(s@, p@),
{
    if p.len() > s.len() {
        return false;
    }
    let tail = slice_vec(s, s.len() - p.len(), s.len());
    assert(tail@ == s@.skip(s.len() - p.len()));
    eq_chars(&tail, p)
}

/// The power of ten of a suffix already in upper case; see
/// [`multiplier_power`].
pub fn multiplicador(sufijo: &Vec<char>) -> (r: Option<i8>)
    ensures
        match multiplier_power(sufijo@) {
            None => r is None,
            Some(e) => r is Some && r.unwrap() as int == e,
        },
{
    let us: Vec<&str> = vec![
        "DBUV", "DBM", "DBW", "DB", "OHM", "PCT", "DEG", "RAD", "HZ", "V", "A", "W", "S",
    ];
    let ghost uv = us@.map_values(|u: &str| u@);
    assert(uv =~= units());
    let mut k: usize = 0;
    assert(units().skip(0) == units());
    while k < us.len() && !ends_with_exec(sufijo, &chars_of(us[k]))
        invariant
            k <= us.len(),
            us.len() == 13,
            uv == us@.map_values(|u: &str| u@),
            uv == units(),
            first_unit(sufijo@, units()) == first_unit(sufijo@, units().skip(k as int)),
        decreases us.len() - k,
    {
        assert(units().skip(k as int)[0] == uv[k as int]);
        assert(units().skip(k as int).drop_first() == units().skip(k + 1));
        k += 1;
    }
    if k == us.len() {
        assert(units().skip(k as int).len() == 0);
        return None;
    }
    let u = chars_of(us[k]);
    assert(units().skip(k as int)[0] == uv[k as int]);
    assert(first_unit(sufijo@, units()) == Some(u@));
    let p = slice_vec(sufijo, 0, sufijo.len() - u.len());
    assert(p@ == sufijo@.take(sufijo.len() - u.len()));
    if p.len() == 0 {
        return Some(0);
    }
    if u.len() >= 2 && u[0] == 'D' && u[1] == 'B' {
        return None;
    }
    let ps: Vec<(&str, i8)> = vec![
        ("MA", 6),
        ("EX", 18),
        ("PE", 15),
        ("T", 12),
        ("G", 9),
        ("K", 3),
        ("M", -3),
        ("U", -6),
        ("N", -9),
        ("P", -12),
        ("F", -15),
    ];
    let ghost pv = ps@.map_values(|x: (&str, i8)| (x.0@, x.1 as int));
    assert(pv =~= prefixes());
    let mut j: usize = 0;
    assert(prefixes().skip(0) == prefixes());
    while j < ps.len()
        invariant
            j <= ps.len(),
            ps.len() == 11,
            pv == ps@.map_values(|x: (&str, i8)| (x.0@, x.1 as int)),
            pv == prefixes(),
            prefix_power(p@, prefixes()) == prefix_power(p@, prefixes().skip(j as int)),
            first_unit(sufijo@, units()) == Some(u@),
            p@ == sufijo@.take(sufijo.len() - u.len()),
            p@.len() > 0,
            !(u@.len() >= 2 && u@[0] == 'D' && u@[1] == 'B'),
        decreases ps.len() - j,
    {
        assert(prefixes().skip(j as int)[0] == pv[j as int]);
        assert(prefixes().skip(j as int).drop_first() == prefixes().skip(j + 1));
        let (name, power) = ps[j];
        if eq_chars(&chars_of(name), &p) {
            // The exception of `M`: with hertz it is mega.
            if eq_chars(&u, &chars_of("HZ")) && eq_chars(&p, &chars_of("M")) {
                return Some(6);
            }
            return Some(power);
        }
        j += 1;
    }
    assert(prefixes().skip(j as int).len() == 0);
    None
}

/// Takes a decimal parameter apart; see [`decimal_parts`]. What remains is to
/// read the number and multiply it by the power of ten.
pub fn partir_decimal(raw: &str) -> (r: Option<(String, i8)>)
    ensures
        match decimal_parts(raw@) {
            None => r is None,
            Some((m, e)) => r is Some && r.unwrap().0@ == m && r.unwrap().1 as int == e,
        },
{
    let t = trim_vec(&chars_of(raw));
    if t.len() == 0 {
        return None;
    }
    let cut = fin_de_mantisa(&t);
    let mantisa = string_from(&slice_vec(&t, 0, cut));
    let resto = slice_vec(&t, cut, t.len());
    assert(resto@ == t@.skip(cut as int));
    let sufijo = trim_vec(&resto);
    if sufijo.len() == 0 {
        return Some((mantisa, 0));
    }
    match multiplicador(&upper_vec(&sufijo)) {
        None => None,
        Some(e) => Some((mantisa, e)),
    }
}

/// The units that take a prefix, written without one.
pub open spec fn takes_prefix(u: Seq<char>) -> bool {
    u == seq!['O', 'H', 'M'] || u == seq!['P', 'C', 'T'] || u == seq!['D', 'E', 'G'] || u == seq!['R', 'A', 'D'] || u == seq!['H', 'Z'] || u == seq!['V'] || u == seq!['A'] || u == seq!['W'] || u == seq!['S']
}

/// A text does not end with `w` when they differ at position `k` of `w`.
proof fn lemma_not_suffix(s: Seq<char>, w: Seq<char>, k: int)
    requires
        0 <= k < w.len() <= s.len(),
        s[s.len() - w.len() + k] != w[k],
    ensures
        !ends_with(s, w),
{
    if ends_with(s, w) {
        assert(s.skip(s.len() - w.len())[k] == w[k]);
    }
}

/// The first unit a text ends with is the `j`-th when no earlier one fits.
proof fn lemma_first_unit_at(s: Seq<char>, us: Seq<Seq<char>>, j: int)
    requires
        0 <= j < us.len(),
        forall|i: int| 0 <= i < j ==> !ends_with(s, #[trigger] us[i]),
        ends_with(s, us[j]),
    ensures
        first_unit(s, us) == Some(us[j]),
    decreases j,
{
    if j > 0 {
        assert(!ends_with(s, us[0]));
        assert forall|i: int| 0 <= i < j - 1 implies !ends_with(s, #[trigger] us.drop_first()[i]) by {
            assert(us.drop_first()[i] == us[i + 1]);
        }
        lemma_first_unit_at(s, us.drop_first(), j - 1);
    }
}

/// A unit that takes a prefix is found as the unit of itself and of itself
/// after any one-letter prefix.
proof fn lemma_unit_found(c: char, u: Seq<char>)
    requires
        takes_prefix(u),
    ensures
        first_unit(u, units()) == Some(u),
        first_unit(seq![c] + u, units()) == Some(u),
{
    reveal_strlit("DBUV");
    reveal_strlit("DBM");
    reveal_strlit("DBW");
    reveal_strlit("DB");
    reveal_strlit("OHM");
    reveal_strlit("PCT");
    reveal_strlit("DEG");
    reveal_strlit("RAD");
    reveal_strlit("HZ");
    reveal_strlit("V");
    reveal_strlit("A");
    reveal_strlit("W");
    reveal_strlit("S");
    assert("DBUV"@ =~= seq!['D', 'B', 'U', 'V']);
    assert("DBM"@ =~= seq!['D', 'B', 'M']);
    assert("DBW"@ =~= seq!['D', 'B', 'W']);
    assert("DB"@ =~= seq!['D', 'B']);
    assert("OHM"@ =~= seq!['O', 'H', 'M']);
    assert("PCT"@ =~= seq!['P', 'C', 'T']);
    assert("DEG"@ =~= seq!['D', 'E', 'G']);
    assert("RAD"@ =~= seq!['R', 'A', 'D']);
    assert("HZ"@ =~= seq!['H', 'Z']);
    assert("V"@ =~= seq!['V']);
    assert("A"@ =~= seq!['A']);
    assert("W"@ =~= seq!['W']);
    assert("S"@ =~= seq!['S']);
    assert(units() =~= seq![seq!['D', 'B', 'U', 'V'], seq!['D', 'B', 'M'], seq!['D', 'B', 'W'], seq!['D', 'B'], seq!['O', 'H', 'M'], seq!['P', 'C', 'T'], seq!['D', 'E', 'G'], seq!['R', 'A', 'D'], seq!['H', 'Z'], seq!['V'], seq!['A'], seq!['W'], seq!['S']]);
    if u == seq!['O', 'H', 'M'] {
        assert(units()[4] == u);
        assert(!ends_with(u, units()[0]));
        lemma_not_suffix(u, units()[1], 0);
        lemma_not_suffix(u, units()[2], 0);
        lemma_not_suffix(u, units()[3], 0);
        assert(u.skip(0) =~= u);
        lemma_first_unit_at(u, units(), 4);
        lemma_not_suffix(seq![c] + u, units()[0], 1);
        lemma_not_suffix(seq![c] + u, units()[1], 0);
        lemma_not_suffix(seq![c] + u, units()[2], 0);
        lemma_not_suffix(seq![c] + u, units()[3], 0);
        assert((seq![c] + u).skip(1) =~= u);
        lemma_first_unit_at(seq![c] + u, units(), 4);
    } else if u == seq!['P', 'C', 'T'] {
        assert(units()[5] == u);
        assert(!ends_with(u, units()[0]));
        lemma_not_suffix(u, units()[1], 0);
        lemma_not_suffix(u, units()[2], 0);
        lemma_not_suffix(u, units()[3], 0);
        lemma_not_suffix(u, units()[4], 0);
        assert(u.skip(0) =~= u);
        lemma_first_unit_at(u, units(), 5);
        lemma_not_suffix(seq![c] + u, units()[0], 1);
        lemma_not_suffix(seq![c] + u, units()[1], 0);
        lemma_not_suffix(seq![c] + u, units()[2], 0);
        lemma_not_suffix(seq![c] + u, units()[3], 0);
        lemma_not_suffix(seq![c] + u, units()[4], 0);
        assert((seq![c] + u).skip(1) =~= u);
        lemma_first_unit_at(seq![c] + u, units(), 5);
    } else if u == seq!['D', 'E', 'G'] {
        assert(units()[6] == u);
        assert(!ends_with(u, units()[0]));
        lemma_not_suffix(u, units()[1], 1);
        lemma_not_suffix(u, units()[2], 1);
        lemma_not_suffix(u, units()[3], 0);
        lemma_not_suffix(u, units()[4], 0);
        lemma_not_suffix(u, units()[5], 0);
        assert(u.skip(0) =~= u);
        lemma_first_unit_at(u, units(), 6);
        lemma_not_suffix(seq![c] + u, units()[0], 1);
        lemma_not_suffix(seq![c] + u, units()[1], 1);
        lemma_not_suffix(seq![c] + u, units()[2], 1);
        lemma_not_suffix(seq![c] + u, units()[3], 0);
        lemma_not_suffix(seq![c] + u, units()[4], 0);
        lemma_not_suffix(seq![c] + u, units()[5], 0);
        assert((seq![c] + u).skip(1) =~= u);
        lemma_first_unit_at(seq![c] + u, units(), 6);
    } else if u == seq!['R', 'A', 'D'] {
        assert(units()[7] == u);
        assert(!ends_with(u, units()[0]));
        lemma_not_suffix(u, units()[1], 0);
        lemma_not_suffix(u, units()[2], 0);
        lemma_not_suffix(u, units()[3], 0);
        lemma_not_suffix(u, units()[4], 0);
        lemma_not_suffix(u, units()[5], 0);
        lemma_not_suffix(u, units()[6], 0);
        assert(u.skip(0) =~= u);
        lemma_first_unit_at(u, units(), 7);
        lemma_not_suffix(seq![c] + u, units()[0], 1);
        lemma_not_suffix(seq![c] + u, units()[1], 0);
        lemma_not_suffix(seq![c] + u, units()[2], 0);
        lemma_not_suffix(seq![c] + u, units()[3], 0);
        lemma_not_suffix(seq![c] + u, units()[4], 0);
        lemma_not_suffix(seq![c] + u, units()[5], 0);
        lemma_not_suffix(seq![c] + u, units()[6], 0);
        assert((seq![c] + u).skip(1) =~= u);
        lemma_first_unit_at(seq![c] + u, units(), 7);
    } else if u == seq!['H', 'Z'] {
        assert(units()[8] == u);
        assert(!ends_with(u, units()[0]));
        assert(!ends_with(u, units()[1]));
        assert(!ends_with(u, units()[2]));
        lemma_not_suffix(u, units()[3], 0);
        assert(!ends_with(u, units()[4]));
        assert(!ends_with(u, units()[5]));
        assert(!ends_with(u, units()[6]));
        assert(!ends_with(u, units()[7]));
        assert(u.skip(0) =~= u);
        lemma_first_unit_at(u, units(), 8);
        assert(!ends_with(seq![c] + u, units()[0]));
        lemma_not_suffix(seq![c] + u, units()[1], 1);
        lemma_not_suffix(seq![c] + u, units()[2], 1);
        lemma_not_suffix(seq![c] + u, units()[3], 0);
        lemma_not_suffix(seq![c] + u, units()[4], 2);
        lemma_not_suffix(seq![c] + u, units()[5], 1);
        lemma_not_suffix(seq![c] + u, units()[6], 1);
        lemma_not_suffix(seq![c] + u, units()[7], 1);
        assert((seq![c] + u).skip(1) =~= u);
        lemma_first_unit_at(seq![c] + u, units(), 8);
    } else if u == seq!['V'] {
        assert(units()[9] == u);
        assert(!ends_with(u, units()[0]));
        assert(!ends_with(u, units()[1]));
        assert(!ends_with(u, units()[2]));
        assert(!ends_with(u, units()[3]));
        assert(!ends_with(u, units()[4]));
        assert(!ends_with(u, units()[5]));
        assert(!ends_with(u, units()[6]));
        assert(!ends_with(u, units()[7]));
        assert(!ends_with(u, units()[8]));
        assert(u.skip(0) =~= u);
        lemma_first_unit_at(u, units(), 9);
        assert(!ends_with(seq![c] + u, units()[0]));
        assert(!ends_with(seq![c] + u, units()[1]));
        assert(!ends_with(seq![c] + u, units()[2]));
        lemma_not_suffix(seq![c] + u, units()[3], 1);
        assert(!ends_with(seq![c] + u, units()[4]));
        assert(!ends_with(seq![c] + u, units()[5]));
        assert(!ends_with(seq![c] + u, units()[6]));
        assert(!ends_with(seq![c] + u, units()[7]));
        lemma_not_suffix(seq![c] + u, units()[8], 1);
        assert((seq![c] + u).skip(1) =~= u);
        lemma_first_unit_at(seq![c] + u, units(), 9);
    } else if u == seq!['A'] {
        assert(units()[10] == u);
        assert(!ends_with(u, units()[0]));
        assert(!ends_with(u, units()[1]));
        assert(!ends_with(u, units()[2]));
        assert(!ends_with(u, units()[3]));
        assert(!ends_with(u, units()[4]));
        assert(!ends_with(u, units()[5]));
        assert(!ends_with(u, units()[6]));
        assert(!ends_with(u, units()[7]));
        assert(!ends_with(u, units()[8]));
        lemma_not_suffix(u, units()[9], 0);
        assert(u.skip(0) =~= u);
        lemma_first_unit_at(u, units(), 10);
        assert(!ends_with(seq![c] + u, units()[0]));
        assert(!ends_with(seq![c] + u, units()[1]));
        assert(!ends_with(seq![c] + u, units()[2]));
        lemma_not_suffix(seq![c] + u, units()[3], 1);
        assert(!ends_with(seq![c] + u, units()[4]));
        assert(!ends_with(seq![c] + u, units()[5]));
        assert(!ends_with(seq![c] + u, units()[6]));
        assert(!ends_with(seq![c] + u, units()[7]));
        lemma_not_suffix(seq![c] + u, units()[8], 1);
        lemma_not_suffix(seq![c] + u, units()[9], 0);
        assert((seq![c] + u).skip(1) =~= u);
        lemma_first_unit_at(seq![c] + u, units(), 10);
    } else if u == seq!['W'] {
        assert(units()[11] == u);
        assert(!ends_with(u, units()[0]));
        assert(!ends_with(u, units()[1]));
        assert(!ends_with(u, units()[2]));
        assert(!ends_with(u, units()[3]));
        assert(!ends_with(u, units()[4]));
        assert(!ends_with(u, units()[5]));
        assert(!ends_with(u, units()[6]));
        assert(!ends_with(u, units()[7]));
        assert(!ends_with(u, units()[8]));
        lemma_not_suffix(u, units()[9], 0);
        lemma_not_suffix(u, units()[10], 0);
        assert(u.skip(0) =~= u);
        lemma_first_unit_at(u, units(), 11);
        assert(!ends_with(seq![c] + u, units()[0]));
        assert(!ends_with(seq![c] + u, units()[1]));
        assert(!ends_with(seq![c] + u, units()[2]));
        lemma_not_suffix(seq![c] + u, units()[3], 1);
        assert(!ends_with(seq![c] + u, units()[4]));
        assert(!ends_with(seq![c] + u, units()[5]));
        assert(!ends_with(seq![c] + u, units()[6]));
        assert(!ends_with(seq![c] + u, units()[7]));
        lemma_not_suffix(seq![c] + u, units()[8], 1);
        lemma_not_suffix(seq![c] + u, units()[9], 0);
        lemma_not_suffix(seq![c] + u, units()[10], 0);
        assert((seq![c] + u).skip(1) =~= u);
        lemma_first_unit_at(seq![c] + u, units(), 11);
    } else if u == seq!['S'] {
        assert(units()[12] == u);
        assert(!ends_with(u, units()[0]));
        assert(!ends_with(u, units()[1]));
        assert(!ends_with(u, units()[2]));
        assert(!ends_with(u, units()[3]));
        assert(!ends_with(u, units()[4]));
        assert(!ends_with(u, units()[5]));
        assert(!ends_with(u, units()[6]));
        assert(!ends_with(u, units()[7]));
        assert(!ends_with(u, units()[8]));
        lemma_not_suffix(u, units()[9], 0);
        lemma_not_suffix(u, units()[10], 0);
        lemma_not_suffix(u, units()[11], 0);
        assert(u.skip(0) =~= u);
        lemma_first_unit_at(u, units(), 12);
        assert(!ends_with(seq![c] + u, units()[0]));
        assert(!ends_with(seq![c] + u, units()[1]));
        assert(!ends_with(seq![c] + u, units()[2]));
        lemma_not_suffix(seq![c] + u, units()[3], 1);
        assert(!ends_with(seq![c] + u, units()[4]));
        assert(!ends_with(seq![c] + u, units()[5]));
        assert(!ends_with(seq![c] + u, units()[6]));
        assert(!ends_with(seq![c] + u, units()[7]));
        lemma_not_suffix(seq![c] + u, units()[8], 1);
        lemma_not_suffix(seq![c] + u, units()[9], 0);
        lemma_not_suffix(seq![c] + u, units()[10], 0);
        lemma_not_suffix(seq![c] + u, units()[11], 0);
        assert((seq![c] + u).skip(1) =~= u);
        lemma_first_unit_at(seq![c] + u, units(), 12);
    }
}

/// The power of the `j`-th prefix when no earlier one is `p`.
proof fn lemma_prefix_at(p: Seq<char>, ps: Seq<(Seq<char>, int)>, j: int)
    requires
        0 <= j < ps.len(),
        forall|i: int| 0 <= i < j ==> (#[trigger] ps[i]).0 != p,
        ps[j].0 == p,
    ensures
        prefix_power(p, ps) == Some(ps[j].1),
    decreases j,
{
    if j > 0 {
        assert(ps[0].0 != p);
        assert forall|i: int| 0 <= i < j - 1 implies (#[trigger] ps.drop_first()[i]).0 != p by {
            assert(ps.drop_first()[i] == ps[i + 1]);
        }
        lemma_prefix_at(p, ps.drop_first(), j - 1);
    }
}

/// The one-letter SI prefixes and their powers of ten.
proof fn lemma_si_prefix_powers(c: char)
    ensures
        c == 'T' ==> prefix_power(seq![c], prefixes()) == Some(12int),
        c == 'G' ==> prefix_power(seq![c], prefixes()) == Some(9int),
        c == 'K' ==> prefix_power(seq![c], prefixes()) == Some(3int),
        c == 'M' ==> prefix_power(seq![c], prefixes()) == Some(-3int),
        c == 'U' ==> prefix_power(seq![c], prefixes()) == Some(-6int),
        c == 'N' ==> prefix_power(seq![c], prefixes()) == Some(-9int),
        c == 'P' ==> prefix_power(seq![c], prefixes()) == Some(-12int),
        c == 'F' ==> prefix_power(seq![c], prefixes()) == Some(-15int),
{
    let p = seq![c];
    reveal_strlit("MA");
    reveal_strlit("EX");
    reveal_strlit("PE");
    reveal_strlit("T");
    reveal_strlit("G");
    reveal_strlit("K");
    reveal_strlit("M");
    reveal_strlit("U");
    reveal_strlit("N");
    reveal_strlit("P");
    reveal_strlit("F");
    assert("MA"@ =~= seq!['M', 'A']);
    assert("EX"@ =~= seq!['E', 'X']);
    assert("PE"@ =~= seq!['P', 'E']);
    assert("T"@ =~= seq!['T']);
    assert("G"@ =~= seq!['G']);
    assert("K"@ =~= seq!['K']);
    assert("M"@ =~= seq!['M']);
    assert("U"@ =~= seq!['U']);
    assert("N"@ =~= seq!['N']);
    assert("P"@ =~= seq!['P']);
    assert("F"@ =~= seq!['F']);
    assert(prefixes() =~= seq![(seq!['M', 'A'], 6), (seq!['E', 'X'], 18), (seq!['P', 'E'], 15), (seq!['T'], 12), (seq!['G'], 9), (seq!['K'], 3), (seq!['M'], -3), (seq!['U'], -6), (seq!['N'], -9), (seq!['P'], -12), (seq!['F'], -15)]);
    if c == 'T' {
        assert(prefixes()[0].0.len() != p.len());
        assert(prefixes()[1].0.len() != p.len());
        assert(prefixes()[2].0.len() != p.len());
        lemma_prefix_at(p, prefixes(), 3);
    } else if c == 'G' {
        assert(prefixes()[0].0.len() != p.len());
        assert(prefixes()[1].0.len() != p.len());
        assert(prefixes()[2].0.len() != p.len());
        assert(prefixes()[3].0[0] != p[0]);
        lemma_prefix_at(p, prefixes(), 4);
    } else if c == 'K' {
        assert(prefixes()[0].0.len() != p.len());
        assert(prefixes()[1].0.len() != p.len());
        assert(prefixes()[2].0.len() != p.len());
        assert(prefixes()[3].0[0] != p[0]);
        assert(prefixes()[4].0[0] != p[0]);
        lemma_prefix_at(p, prefixes(), 5);
    } else if c == 'M' {
        assert(prefixes()[0].0.len() != p.len());
        assert(prefixes()[1].0.len() != p.len());
        assert(prefixes()[2].0.len() != p.len());
        assert(prefixes()[3].0[0] != p[0]);
        assert(prefixes()[4].0[0] != p[0]);
        assert(prefixes()[5].0[0] != p[0]);
        lemma_prefix_at(p, prefixes(), 6);
    } else if c == 'U' {
        assert(prefixes()[0].0.len() != p.len());
        assert(prefixes()[1].0.len() != p.len());
        assert(prefixes()[2].0.len() != p.len());
        assert(prefixes()[3].0[0] != p[0]);
        assert(prefixes()[4].0[0] != p[0]);
        assert(prefixes()[5].0[0] != p[0]);
        assert(prefixes()[6].0[0] != p[0]);
        lemma_prefix_at(p, prefixes(), 7);
    } else if c == 'N' {
        assert(prefixes()[0].0.len() != p.len());
        assert(prefixes()[1].0.len() != p.len());
        assert(prefixes()[2].0.len() != p.len());
        assert(prefixes()[3].0[0] != p[0]);
        assert(prefixes()[4].0[0] != p[0]);
        assert(prefixes()[5].0[0] != p[0]);
        assert(prefixes()[6].0[0] != p[0]);
        assert(prefixes()[7].0[0] != p[0]);
        lemma_prefix_at(p, prefixes(), 8);
    } else if c == 'P' {
        assert(prefixes()[0].0.len() != p.len());
        assert(prefixes()[1].0.len() != p.len());
        assert(prefixes()[2].0.len() != p.len());
        assert(prefixes()[3].0[0] != p[0]);
        assert(prefixes()[4].0[0] != p[0]);
        assert(prefixes()[5].0[0] != p[0]);
        assert(prefixes()[6].0[0] != p[0]);
        assert(prefixes()[7].0[0] != p[0]);
        assert(prefixes()[8].0[0] != p[0]);
        lemma_prefix_at(p, prefixes(), 9);
    } else if c == 'F' {
        assert(prefixes()[0].0.len() != p.len());
        assert(prefixes()[1].0.len() != p.len());
        assert(prefixes()[2].0.len() != p.len());
        assert(prefixes()[3].0[0] != p[0]);
        assert(prefixes()[4].0[0] != p[0]);
        assert(prefixes()[5].0[0] != p[0]);
        assert(prefixes()[6].0[0] != p[0]);
        assert(prefixes()[7].0[0] != p[0]);
        assert(prefixes()[8].0[0] != p[0]);
        assert(prefixes()[9].0[0] != p[0]);
        lemma_prefix_at(p, prefixes(), 10);
    }
}

/// The powers of ten the SI prefixes stand for, on every unit that takes
/// a prefix: tera 12, giga 9, kilo 3, milli -3 (but mega, 6, on hertz),
/// micro -6, nano -9, pico -12 and femto -15; the bare unit multiplies by
/// one.
pub proof fn law_si_prefixes(u: Seq<char>)
    requires
        takes_prefix(u),
    ensures
        multiplier_power(u) == Some(0int),
        multiplier_power(seq!['T'] + u) == Some(12int),
        multiplier_power(seq!['G'] + u) == Some(9int),
        multiplier_power(seq!['K'] + u) == Some(3int),
        multiplier_power(seq!['M'] + u) == Some(if u == seq!['H', 'Z'] { 6int } else { -3int }),
        multiplier_power(seq!['U'] + u) == Some(-6int),
        multiplier_power(seq!['N'] + u) == Some(-9int),
        multiplier_power(seq!['P'] + u) == Some(-12int),
        multiplier_power(seq!['F'] + u) == Some(-15int),
{
    reveal_strlit("DBUV");
    reveal_strlit("DBM");
    reveal_strlit("DBW");
    reveal_strlit("DB");
    reveal_strlit("OHM");
    reveal_strlit("PCT");
    reveal_strlit("DEG");
    reveal_strlit("RAD");
    reveal_strlit("HZ");
    reveal_strlit("V");
    reveal_strlit("A");
    reveal_strlit("W");
    reveal_strlit("S");
    reveal_strlit("MA");
    reveal_strlit("EX");
    reveal_strlit("PE");
    reveal_strlit("T");
    reveal_strlit("G");
    reveal_strlit("K");
    reveal_strlit("M");
    reveal_strlit("U");
    reveal_strlit("N");
    reveal_strlit("P");
    reveal_strlit("F");
    reveal_with_fuel(prefix_power, 12);
    lemma_unit_found('T', u);
    lemma_unit_found('G', u);
    lemma_unit_found('K', u);
    lemma_unit_found('M', u);
    lemma_unit_found('U', u);
    lemma_unit_found('N', u);
    lemma_unit_found('P', u);
    lemma_unit_found('F', u);
    assert(u.len() >= 1 && !(u.len() >= 2 && u[0] == 'D' && u[1] == 'B'));
    assert(u.take(0) =~= Seq::<char>::empty());
    assert((seq!['T'] + u).take(1) =~= seq!['T']);
    assert((seq!['G'] + u).take(1) =~= seq!['G']);
    assert((seq!['K'] + u).take(1) =~= seq!['K']);
    assert((seq!['M'] + u).take(1) =~= seq!['M']);
    assert((seq!['U'] + u).take(1) =~= seq!['U']);
    assert((seq!['N'] + u).take(1) =~= seq!['N']);
    assert((seq!['P'] + u).take(1) =~= seq!['P']);
    assert((seq!['F'] + u).take(1) =~= seq!['F']);
    lemma_si_prefix_powers('T');
    lemma_si_prefix_powers('G');
    lemma_si_prefix_powers('K');
    lemma_si_prefix_powers('M');
    lemma_si_prefix_powers('U');
    lemma_si_prefix_powers('N');
    lemma_si_prefix_powers('P');
    lemma_si_prefix_powers('F');
    assert("HZ"@ =~= seq!['H', 'Z']);
}

/// Digits are skipped up to the first byte that is not one.
proof fn lemma_skip_digits(s: Seq<char>, i: int, e: int)
    requires
        0 <= i <= e < s.len(),
        forall|k: int| i <= k < e ==> is_digit(#[trigger] s[k]),
        !is_digit(s[e]) && s[e] != '.',
    ensures
        skip_number_chars(s, i, true) == e,
    decreases e - i,
{
    if i < e {
        lemma_skip_digits(s, i + 1, e);
    }
}

/// A number written in digits, a space and a suffix in capitals is read as
/// that number, multiplied by the power of ten of the suffix; a suffix that
/// is not a known unit makes the parameter unreadable. With
/// [`law_si_prefixes`], `100 NS` is 100 times ten to the minus nine.
pub proof fn law_number_then_suffix(d: Seq<char>, suffix: Seq<char>)
    requires
        d.len() > 0,
        forall|k: int| 0 <= k < d.len() ==> is_digit(#[trigger] d[k]),
        suffix.len() > 0,
        forall|k: int| 0 <= k < suffix.len() ==> is_ascii_upper(#[trigger] suffix[k]),
    ensures
        decimal_parts(d + seq![' '] + suffix) == match multiplier_power(suffix) {
            Some(e) => Some((d, e)),
            None => None,
        },
{
    let raw = d + seq![' '] + suffix;
    let n = d.len() as int;
    assert(raw[0] == d[0]);
    assert(raw.last() == suffix.last());
    assert(!is_space(raw[0]) && !is_space(raw.last()));
    assert(trim_start(raw) == raw);
    assert(trim_end(raw) == raw);
    assert(trim(raw) == raw);
    assert(raw[n] == ' ');
    assert forall|k: int| 0 <= k < n implies is_digit(#[trigger] raw[k]) by {
        assert(raw[k] == d[k]);
    }
    lemma_skip_digits(raw, 0, n);
    assert(mantissa_end(raw) == n);
    assert(raw.take(n) =~= d);
    let rest = raw.skip(n);
    assert(rest =~= seq![' '] + suffix);
    assert(rest.drop_first() =~= suffix);
    assert(trim_start(rest) == trim_start(suffix));
    assert(trim_start(suffix) == suffix);
    assert(!is_space(suffix.last()));
    assert(trim_end(suffix) == suffix);
    assert(trim(rest) == suffix);
    assert(upper(suffix) =~= suffix);
}

} // verus!
