//! Models of a profile: the number formats of their answers and the state of
//! their noise.
use vstd::prelude::*;
use crate::crucible_error::CrucibleError;
use crate::parse::{trim, trim_vec};
use crate::perfil::ModeloDef;
use crate::text::{
    all_digits, chars_of, digits_value, eq_chars, lower, lower_vec, parse_u32_vec, push_str, slice_vec,
};

verus! {

/// The lower-case text of a string (`str::to_lowercase`, Unicode mapping).
pub uninterp spec fn unicode_lower(s: Seq<char>) -> Seq<char>;

/// `str::to_lowercase`: the Unicode lower case of the text.
#[verifier::external_body]
fn to_lowercase(s: &str) -> (r: String)
    ensures
        r@ == unicode_lower(s@),
{
    s.to_lowercase()
}

/// How a number is written in an answer.
#[derive(Debug, Clone, Copy, PartialEq, Eq, Structural)]
pub enum Formato {
    /// `1.0` for whole numbers, every decimal for the rest.
    PorDefecto,
    /// `1`, `-3`: rounded, no decimals.
    Entero,
    /// `4.502`: N decimals.
    Fijo(usize),
    /// `+4.501385E+00`: N decimals in the mantissa, sign always, exponent of
    /// at least two digits, as in SCPI.
    Cientifico(usize),
}

/// The position of the first `c`, if any.
pub open spec fn first_index(s: Seq<char>, c: char) -> Option<int>
    decreases s.len(),
{
    if s.len() == 0 {
        None
    } else if s[0] == c {
        Some(0)
    } else {
        match first_index(s.drop_first(), c) {
            Some(i) => Some(i + 1),
            None => None,
        }
    }
}

/// The number of decimals written after `:`: an optional `+` and decimal
/// digits, at most 17; `None` when it is anything else.
pub open spec fn decimals_of(n: Seq<char>) -> Option<nat> {
    let m = trim(n);
    let d = if m.len() > 0 && m[0] == '+' { m.drop_first() } else { m };
    if d.len() > 0 && all_digits(d) && digits_value(d) <= 17 {
        Some(digits_value(d))
    } else {
        None
    }
}

/// The error for decimals out of range.
pub open spec fn bad_decimals_message(texto: Seq<char>) -> Seq<char> {
    "formato '"@ + texto + "': los decimales deben ser un número de 0 a 17"@
}

/// The error for an unknown format.
pub open spec fn unknown_format_message(texto: Seq<char>) -> Seq<char> {
    "formato '"@ + texto + "' desconocido; usa 'entero', 'fijo:N' o 'cientifico:N'"@
}

/// The decimals written after `:`, or the default when there is no `:`.
pub open spec fn decimals_or(n: Option<Seq<char>>, defecto: nat, texto: Seq<char>) -> Result<nat, Seq<char>> {
    match n {
        None => Ok(defecto),
        Some(x) => match decimals_of(x) {
            Some(d) => Ok(d),
            None => Err(bad_decimals_message(texto)),
        },
    }
}

/// The format named by the lower-case text `t` (already trimmed), or the
/// message of the error; `texto` is the text as written, for the message.
pub open spec fn format_of(t: Seq<char>, texto: Seq<char>) -> Result<Formato, Seq<char>> {
    let (tipo, n) = match first_index(t, ':') {
        Some(i) => (t.take(i), Some(t.skip(i + 1))),
        None => (t, None),
    };
    if tipo == "entero"@ && n is None {
        Ok(Formato::Entero)
    } else if tipo == "fijo"@ {
        match decimals_or(n, 3, texto) {
            Ok(d) => Ok(Formato::Fijo(d as usize)),
            Err(m) => Err(m),
        }
    } else if tipo == "cientifico"@ || tipo == "científico"@ {
        match decimals_or(n, 6, texto) {
            Ok(d) => Ok(Formato::Cientifico(d as usize)),
            Err(m) => Err(m),
        }
    } else {
        Err(unknown_format_message(texto))
    }
}

/// The decimals after `:`, as [`decimals_of`] says.
fn decimals_exec(n: &Vec<char>) -> (r: Option<usize>)
    ensures
        match decimals_of(n@) {
            Some(d) => r == Some(d as usize),
            None => r is None,
        },
{
    let m = trim_vec(n);
    let d = if m.len() > 0 && m[0] == '+' { slice_vec(&m, 1, m.len()) } else { slice_vec(&m, 0, m.len()) };
    assert(m@.len() > 0 && m@[0] == '+' ==> d@ == m@.drop_first());
    assert(!(m@.len() > 0 && m@[0] == '+') ==> d@ == m@);
    if d.len() == 0 {
        return None;
    }
    let mut i: usize = 0;
    while i < d.len()
        invariant
            i <= d.len(),
            m@ == trim(n@),
            d@ == (if m@.len() > 0 && m@[0] == '+' { m@.drop_first() } else { m@ }),
            forall|k: int| 0 <= k < i ==> crate::text::is_ascii_digit(#[trigger] d@[k]),
        decreases d.len() - i,
    {
        if !('0' <= d[i] && d[i] <= '9') {
            assert(!crate::text::is_ascii_digit(d@[i as int]));
            return None;
        }
        i += 1;
    }
    match parse_u32_vec(&d) {
        Some(v) => if v <= 17 {
            Some(v as usize)
        } else {
            None
        },
        None => None,
    }
}

impl Formato {
    /// Reads a format from a profile: `entero`, `fijo[:N]` or
    /// `cientifico[:N]`, in any case and with white space around.
    pub fn parse(texto: &str) -> (r: Result<Formato, CrucibleError>)
        ensures
            match format_of(unicode_lower(trim(texto@)), texto@) {
                Ok(f) => r == Ok::<Formato, CrucibleError>(f),
                Err(m) => r matches Err(CrucibleError::PerfilInvalido(msg)) && msg@ == m,
            },
    {
        let chars = chars_of(texto);
        let trimmed = string_from_chars(&trim_vec(&chars));
        let t = to_lowercase(trimmed.as_str());
        Formato::from_lower(t.as_str(), texto)
    }

    /// The format named by an already trimmed, lower-case text; `texto` is
    /// the text as written, for the error message.
    pub fn from_lower(t: &str, texto: &str) -> (r: Result<Formato, CrucibleError>)
        ensures
            match format_of(t@, texto@) {
                Ok(f) => r == Ok::<Formato, CrucibleError>(f),
                Err(m) => r matches Err(CrucibleError::PerfilInvalido(msg)) && msg@ == m,
            },
    {
        let tv = chars_of(t);
        let mut i: usize = 0;
        assert(tv@.skip(0) == tv@);
        while i < tv.len() && tv[i] != ':'
            invariant
                i <= tv.len(),
                first_index(tv@, ':') == match first_index(tv@.skip(i as int), ':') {
                    Some(j) => Some(j + i),
                    None => None,
                },
            decreases tv.len() - i,
        {
            assert(tv@.skip(i as int).drop_first() == tv@.skip(i + 1));
            i += 1;
        }
        assert(tv@.skip(0) == tv@);
        let has_colon = i < tv.len();
        let tipo = slice_vec(&tv, 0, i);
        let n = if has_colon { slice_vec(&tv, i + 1, tv.len()) } else { Vec::new() };
        proof {
            if has_colon {
                assert(first_index(tv@, ':') == Some(i as int));
                assert(n@ == tv@.skip(i + 1));
            } else {
                assert(tv@.skip(i as int).len() == 0);
                assert(tipo@ == tv@);
            }
        }
        let dec3 = if has_colon { decimals_exec(&n) } else { Some(3) };
        let dec6 = if has_colon { decimals_exec(&n) } else { Some(6) };
        if eq_chars(&tipo, &chars_of("entero")) && !has_colon {
            return Ok(Formato::Entero);
        }
        if eq_chars(&tipo, &chars_of("fijo")) {
            return match dec3 {
                Some(d) => Ok(Formato::Fijo(d)),
                None => Err(bad_decimals(texto)),
            };
        }
        if eq_chars(&tipo, &chars_of("cientifico")) || eq_chars(&tipo, &chars_of("científico")) {
            return match dec6 {
                Some(d) => Ok(Formato::Cientifico(d)),
                None => Err(bad_decimals(texto)),
            };
        }
        let mut msg = String::new();
        push_str(&mut msg, "formato '");
        push_str(&mut msg, texto);
        push_str(&mut msg, "' desconocido; usa 'entero', 'fijo:N' o 'cientifico:N'");
        Err(CrucibleError::PerfilInvalido(msg))
    }

    /// The format a model declares, or the default one.
    pub fn de_modelo(modelo: &ModeloDef) -> (r: Result<Formato, CrucibleError>)
        ensures
            match modelo.formato {
                None => r == Ok::<Formato, CrucibleError>(Formato::PorDefecto),
                Some(f) => match format_of(unicode_lower(trim(f@)), f@) {
                    Ok(x) => r == Ok::<Formato, CrucibleError>(x),
                    Err(m) => r matches Err(CrucibleError::PerfilInvalido(msg)) && msg@ == m,
                },
            },
    {
        match &modelo.formato {
            None => Ok(Formato::PorDefecto),
            Some(f) => Formato::parse(f.as_str()),
        }
    }
}

fn bad_decimals(texto: &str) -> (r: CrucibleError)
    ensures
        r matches CrucibleError::PerfilInvalido(msg) && msg@ == bad_decimals_message(texto@),
{
    let mut msg = String::new();
    push_str(&mut msg, "formato '");
    push_str(&mut msg, texto);
    push_str(&mut msg, "': los decimales deben ser un número de 0 a 17");
    CrucibleError::PerfilInvalido(msg)
}

fn string_from_chars(v: &Vec<char>) -> (s: String)
    ensures
        s@ == v@,
{
    crate::text::string_from(v)
}

/// The boolean a guard expects, written `true`/`on` or `false`/`off` in any
/// case; `None` for anything else.
pub open spec fn text_bool(t: Seq<char>) -> Option<bool> {
    let l = lower(t);
    if l == "true"@ || l == "on"@ {
        Some(true)
    } else if l == "false"@ || l == "off"@ {
        Some(false)
    } else {
        None
    }
}

pub fn texto_a_bool(t: &str) -> (r: Option<bool>)
    ensures
        r == text_bool(t@),
{
    let l = lower_vec(&chars_of(t));
    if eq_chars(&l, &chars_of("true")) || eq_chars(&l, &chars_of("on")) {
        Some(true)
    } else if eq_chars(&l, &chars_of("false")) || eq_chars(&l, &chars_of("off")) {
        Some(false)
    } else {
        None
    }
}

/// The evaluator of models: the seed of its noise and how many noise samples
/// it has drawn. Each sample moves the count, so that the noise differs from
/// one reading to the next and two runs with one seed agree.
pub struct EvaluadorModelos {
    semilla: u64,
    muestras: u64,
}

impl EvaluadorModelos {
    pub closed spec fn seed(&self) -> u64 {
        self.semilla
    }

    pub closed spec fn samples(&self) -> u64 {
        self.muestras
    }

    pub fn con_semilla(semilla: u64) -> (r: Self)
        ensures
            r.seed() == semilla,
            r.samples() == 0,
    {
        EvaluadorModelos { semilla, muestras: 0 }
    }

    /// How many noise samples have been drawn.
    pub fn muestras(&self) -> (r: u64)
        ensures
            r == self.samples(),
    {
        self.muestras
    }

    /// The seed of the next noise sample: the evaluator's seed moved by the
    /// samples drawn so far, wrapping around. The first sample uses the seed
    /// as it is.
    pub fn next_noise_seed(&mut self) -> (r: u64)
        requires
            old(self).samples() < u64::MAX,
        ensures
            r == (old(self).seed() + old(self).samples()) % 0x1_0000_0000_0000_0000,
            final(self).seed() == old(self).seed(),
            final(self).samples() == old(self).samples() + 1,
    {
        let r = self.semilla.wrapping_add(self.muestras);
        self.muestras = self.muestras + 1;
        r
    }
}

} // verus!
