//! The declarative profile of a device: what it is, which commands it
//! understands and which models compute its answers.
use vstd::prelude::*;
use std::collections::HashMap;
use crate::crucible_error::CrucibleError;
use crate::formula::{failure_message, formula_spec, validar_formula};
use crate::modelo::{format_of, unicode_lower, Formato};
use crate::parse::trim;
use crate::text::{chars_of, eq_str, push_str};
use vstd::utf8::encode_utf8;

verus! {

/// A device profile: what the device is, the protocol it speaks, its
/// commands, its registers and its models.
///
/// The models are kept as (name, model) pairs, as they were read. The
/// initial state of the profile holds numbers and travels beside this value.
#[derive(Debug, Clone)]
pub struct Perfil {
    pub dispositivo: DispositivoInfo,
    pub protocolo: ProtocoloTipo,
    pub comandos: Vec<Comando>,
    pub registros: Option<RegistrosModbus>,
    pub modelos: Vec<(String, ModeloDef)>,
}

/// What the device is.
#[derive(Debug, Clone)]
pub struct DispositivoInfo {
    pub modelo: String,
    pub tipo: Option<String>,
    /// The answer to `*IDN?`.
    pub idn: Option<String>,
}

/// The protocol a profile speaks.
#[derive(Debug, Clone, PartialEq, Eq, Structural)]
pub enum ProtocoloTipo {
    Scpi,
    ModbusRtu,
    ModbusTcp,
    SerialAscii,
    SerialBinario,
}

/// The name of a protocol as messages print it.
pub open spec fn protocol_name(p: ProtocoloTipo) -> Seq<char> {
    match p {
        ProtocoloTipo::Scpi => "Scpi"@,
        ProtocoloTipo::ModbusRtu => "ModbusRtu"@,
        ProtocoloTipo::ModbusTcp => "ModbusTcp"@,
        ProtocoloTipo::SerialAscii => "SerialAscii"@,
        ProtocoloTipo::SerialBinario => "SerialBinario"@,
    }
}

impl ProtocoloTipo {
    /// The name of the protocol as messages print it; see [`protocol_name`].
    pub fn nombre(&self) -> (r: &'static str)
        ensures
            r@ == protocol_name(*self),
    {
        match self {
            ProtocoloTipo::Scpi => "Scpi",
            ProtocoloTipo::ModbusRtu => "ModbusRtu",
            ProtocoloTipo::ModbusTcp => "ModbusTcp",
            ProtocoloTipo::SerialAscii => "SerialAscii",
            ProtocoloTipo::SerialBinario => "SerialBinario",
        }
    }
}

/// One command of a profile.
#[derive(Debug, Clone)]
pub struct Comando {
    /// SCPI pattern in the notation of the standard: upper case for the
    /// abbreviation, brackets for what may be left out. It carries neither the
    /// arguments nor the `?`: `args` and `query` say those.
    pub patron: String,
    /// Names of the positional arguments, to refer to them as `<name>`.
    pub args: Vec<String>,
    /// Whether the entry answers the query form rather than the order.
    pub query: bool,
    /// State changes: variable to expression.
    pub muta: Option<HashMap<String, String>>,
    /// Literal answer, or template: `{variable}` from the state, `<arg>` from
    /// the arguments.
    pub respuesta: Option<String>,
    /// The model that computes the answer.
    pub modelo: Option<String>,
}

/// The Modbus registers of a profile.
#[derive(Debug, Clone)]
pub struct RegistrosModbus {
    pub holding: Vec<RegistroModbus>,
    pub input: Vec<RegistroModbus>,
}

/// One Modbus register.
#[derive(Debug, Clone)]
pub struct RegistroModbus {
    pub direccion: u16,
    pub muta: Option<HashMap<String, String>>,
    pub modelo: Option<String>,
}

/// A model: a formula, an optional guard and fallback, and the format of the
/// number it answers.
#[derive(Debug, Clone)]
pub struct ModeloDef {
    pub tipo: String,
    pub cuando: Option<HashMap<String, String>>,
    pub expr: Option<String>,
    pub fallback: Option<String>,
    /// `entero`, `fijo:N` or `cientifico:N`.
    pub formato: Option<String>,
}

/// Which rule of the current format a pattern breaks, if any: an embedded
/// argument, a trailing `?`, a common command, or an empty pattern; checked in
/// that order.
pub enum PatternProblem {
    EmbeddedArgument,
    TrailingQuestionMark,
    CommonCommand,
    Empty,
}

pub open spec fn pattern_problem(p: Seq<char>) -> Option<PatternProblem> {
    if p.contains('<') {
        Some(PatternProblem::EmbeddedArgument)
    } else if p.len() > 0 && p.last() == '?' {
        Some(PatternProblem::TrailingQuestionMark)
    } else if p.len() > 0 && p[0] == '*' {
        Some(PatternProblem::CommonCommand)
    } else if trim(p).len() == 0 {
        Some(PatternProblem::Empty)
    } else {
        None
    }
}

/// The message that explains a problem of the pattern `p`.
pub open spec fn pattern_problem_message(p: Seq<char>, problem: PatternProblem) -> Seq<char> {
    match problem {
        PatternProblem::EmbeddedArgument => "el patrón '"@ + p
            + "' lleva un argumento incrustado. El formato cambió: pon solo la cabecera y declara los argumentos en 'args'. Ejemplo: patron: \"SOURce:VOLTage\"  args: [v]"@,
        PatternProblem::TrailingQuestionMark => "el patrón '"@ + p
            + "' acaba en '?'. El formato cambió: quita el signo y marca 'query: true'"@,
        PatternProblem::CommonCommand => "el patrón '"@ + p
            + "' es un comando común de IEEE 488.2. Ya no se declaran en el perfil: los resuelve el motor. '*IDN?' sale de 'dispositivo.idn'"@,
        PatternProblem::Empty => "hay un patrón vacío"@,
    }
}

impl Comando {
    /// Rejects the patterns of the format that predates the shared SCPI
    /// layer, where the pattern was the whole line (`"*IDN?"`,
    /// `"SOUR:VOLT <x>"`). Such a profile would load and then recognise no
    /// command, so it fails here and says why.
    pub fn validar_patron(&self) -> (r: Result<(), CrucibleError>)
        ensures
            match pattern_problem(self.patron@) {
                None => r is Ok,
                Some(problem) => r matches Err(CrucibleError::PerfilInvalido(m)) && m@
                    == pattern_problem_message(self.patron@, problem),
            },
    {
        let p = chars_of(self.patron.as_str());
        let mut has_lt = false;
        let mut i: usize = 0;
        while i < p.len()
            invariant
                i <= p.len(),
                has_lt == p@.take(i as int).contains('<'),
            decreases p.len() - i,
        {
            if p[i] == '<' {
                has_lt = true;
                assert(p@.take(i + 1)[i as int] == '<');
            } else {
                assert forall|k: int| 0 <= k < i + 1 && #[trigger] p@.take(i + 1)[k] == '<' implies p@.take(i as int).contains('<') by {
                    assert(p@.take(i as int)[k] == '<');
                }
            }
            proof {
                if p@.take(i as int).contains('<') {
                    let k = choose|k: int| 0 <= k < i && p@.take(i as int)[k] == '<';
                    assert(p@.take(i + 1)[k] == '<');
                }
            }
            i += 1;
        }
        assert(p@.take(p.len() as int) == p@);
        let mut msg = String::new();
        if has_lt {
            push_str(&mut msg, "el patrón '");
            push_str(&mut msg, self.patron.as_str());
            push_str(
                &mut msg,
                "' lleva un argumento incrustado. El formato cambió: pon solo la cabecera y declara los argumentos en 'args'. Ejemplo: patron: \"SOURce:VOLTage\"  args: [v]",
            );
            return Err(CrucibleError::PerfilInvalido(msg));
        }
        if p.len() > 0 && p[p.len() - 1] == '?' {
            push_str(&mut msg, "el patrón '");
            push_str(&mut msg, self.patron.as_str());
            push_str(&mut msg, "' acaba en '?'. El formato cambió: quita el signo y marca 'query: true'");
            return Err(CrucibleError::PerfilInvalido(msg));
        }
        if p.len() > 0 && p[0] == '*' {
            push_str(&mut msg, "el patrón '");
            push_str(&mut msg, self.patron.as_str());
            push_str(
                &mut msg,
                "' es un comando común de IEEE 488.2. Ya no se declaran en el perfil: los resuelve el motor. '*IDN?' sale de 'dispositivo.idn'",
            );
            return Err(CrucibleError::PerfilInvalido(msg));
        }
        let t = crate::parse::trim_vec(&p);
        if t.len() == 0 {
            push_str(&mut msg, "hay un patrón vacío");
            return Err(CrucibleError::PerfilInvalido(msg));
        }
        Ok(())
    }
}

/// Some model of `ms` is called `name`.
pub open spec fn has_model(ms: Seq<(String, ModeloDef)>, name: Seq<char>) -> bool {
    exists|k: int| 0 <= k < ms.len() && (#[trigger] ms[k]).0@ == name
}

/// The first message that `f` gives for an element of `xs`, in order.
pub open spec fn first_problem<T>(xs: Seq<T>, f: spec_fn(T) -> Option<Seq<char>>) -> Option<Seq<char>>
    decreases xs.len(),
{
    if xs.len() == 0 {
        None
    } else {
        match f(xs[0]) {
            Some(m) => Some(m),
            None => first_problem(xs.drop_first(), f),
        }
    }
}

/// What is wrong with a command of a profile whose models are `ms`: a model
/// that does not exist, a pattern of the old format, or a query with nothing
/// to answer; checked in that order.
pub open spec fn command_problem(c: Comando, ms: Seq<(String, ModeloDef)>) -> Option<Seq<char>> {
    if c.modelo is Some && !has_model(ms, c.modelo.unwrap()@) {
        Some("comando '"@ + c.patron@ + "' referencia modelo '"@ + c.modelo.unwrap()@ + "' que no existe"@)
    } else if pattern_problem(c.patron@) is Some {
        Some(pattern_problem_message(c.patron@, pattern_problem(c.patron@).unwrap()))
    } else if c.query && c.respuesta is None && c.modelo is None {
        Some("la consulta '"@ + c.patron@ + "' no tiene 'respuesta' ni 'modelo': no sabría qué contestar"@)
    } else {
        None
    }
}

/// What is wrong with the model called `nombre`: a kind other than
/// `formula`, no formula, a format that cannot be read, or a formula that
/// cannot be read; checked in that order.
pub open spec fn model_problem(nombre: Seq<char>, m: ModeloDef) -> Option<Seq<char>> {
    let head = "modelo '"@ + nombre + "': "@;
    if m.tipo@ != "formula"@ {
        Some(head + "tipo '"@ + m.tipo@ + "' no soportado; el único que existe es 'formula'"@)
    } else if m.expr is None {
        Some(head + "falta 'expr'"@)
    } else if m.formato is Some && format_of(
        unicode_lower(trim(m.formato.unwrap()@)),
        m.formato.unwrap()@,
    ) is Err {
        Some(head + "perfil inválido: "@ + format_of(
            unicode_lower(trim(m.formato.unwrap()@)),
            m.formato.unwrap()@,
        )->Err_0)
    } else if formula_spec(encode_utf8(m.expr.unwrap()@)) is Err {
        Some(head + "error de evaluación: "@ + failure_message(
            m.expr.unwrap()@,
            formula_spec(encode_utf8(m.expr.unwrap()@))->Err_0,
        ))
    } else {
        None
    }
}

/// [`command_problem`] for the models `ms`.
pub open spec fn command_check(ms: Seq<(String, ModeloDef)>) -> spec_fn(Comando) -> Option<Seq<char>> {
    |c: Comando| command_problem(c, ms)
}

/// [`model_problem`] of a (name, model) pair.
pub open spec fn model_check() -> spec_fn((String, ModeloDef)) -> Option<Seq<char>> {
    |nm: (String, ModeloDef)| model_problem(nm.0@, nm.1)
}

/// The name of the first model that repeats the name of an earlier one.
pub open spec fn repeated_model(ms: Seq<(String, ModeloDef)>) -> Option<Seq<char>>
    decreases ms.len(),
{
    if ms.len() == 0 {
        None
    } else {
        match repeated_model(ms.drop_last()) {
            Some(n) => Some(n),
            None => if has_model(ms.drop_last(), ms.last().0@) {
                Some(ms.last().0@)
            } else {
                None
            },
        }
    }
}

/// The models of a profile are known by their names, so no two may share
/// one.
pub open spec fn repeated_model_message(n: Seq<char>) -> Seq<char> {
    "modelo '"@ + n + "' declarado más de una vez"@
}

/// What is wrong with a profile, if anything: an empty model name, then the
/// first command with a problem, then a model name used twice, then the
/// first model with a problem.
pub open spec fn profile_problem(p: Perfil) -> Option<Seq<char>> {
    if p.dispositivo.modelo@.len() == 0 {
        Some("dispositivo.modelo no puede estar vacío"@)
    } else {
        match first_problem(p.comandos@, command_check(p.modelos@)) {
            Some(m) => Some(m),
            None => match repeated_model(p.modelos@) {
                Some(n) => Some(repeated_model_message(n)),
                None => first_problem(p.modelos@, model_check()),
            },
        }
    }
}

/// Once a prefix repeats a name, the whole list repeats that same name first.
proof fn lemma_repeated_prefix(ms: Seq<(String, ModeloDef)>, n: int)
    requires
        0 <= n <= ms.len(),
        repeated_model(ms.take(n)) is Some,
    ensures
        repeated_model(ms) == repeated_model(ms.take(n)),
    decreases ms.len(),
{
    if n < ms.len() {
        assert(ms.drop_last().take(n) == ms.take(n));
        lemma_repeated_prefix(ms.drop_last(), n);
    } else {
        assert(ms.take(n) == ms);
    }
}

/// A list that repeats no name holds every name once.
proof fn lemma_no_repeat_distinct(ms: Seq<(String, ModeloDef)>)
    requires
        repeated_model(ms) is None,
    ensures
        forall|i: int, j: int| 0 <= i < j < ms.len() ==> (#[trigger] ms[i]).0@ != (#[trigger] ms[j]).0@,
    decreases ms.len(),
{
    if ms.len() > 0 {
        let front = ms.drop_last();
        lemma_no_repeat_distinct(front);
        assert forall|i: int, j: int| 0 <= i < j < ms.len() implies (#[trigger] ms[i]).0@ != (#[trigger] ms[j]).0@ by {
            if j == ms.len() - 1 {
                if ms[i].0@ == ms[j].0@ {
                    assert(front[i] == ms[i]);
                    assert(has_model(front, ms.last().0@));
                }
            } else {
                assert(front[i] == ms[i] && front[j] == ms[j]);
            }
        }
    }
}

/// A formula's text is short enough for positions to be counted in `u64`.
pub open spec fn formula_fits(m: ModeloDef) -> bool {
    m.expr is Some ==> encode_utf8(m.expr.unwrap()@).len() < u64::MAX
}

fn find_model(ms: &Vec<(String, ModeloDef)>, name: &str) -> (r: bool)
    ensures
        r == has_model(ms@, name@),
{
    let mut i: usize = 0;
    while i < ms.len()
        invariant
            i <= ms.len(),
            forall|k: int| 0 <= k < i ==> (#[trigger] ms@[k]).0@ != name@,
        decreases ms.len() - i,
    {
        if eq_str(ms[i].0.as_str(), name) {
            assert(ms@[i as int].0@ == name@);
            return true;
        }
        i += 1;
    }
    false
}

fn invalid(msg: String) -> (r: Result<(), CrucibleError>)
    ensures
        r matches Err(CrucibleError::PerfilInvalido(m)) && m@ == msg@,
{
    Err(CrucibleError::PerfilInvalido(msg))
}

fn check_command(c: &Comando, ms: &Vec<(String, ModeloDef)>) -> (r: Result<(), CrucibleError>)
    ensures
        match command_problem(*c, ms@) {
            None => r is Ok,
            Some(m) => r matches Err(CrucibleError::PerfilInvalido(x)) && x@ == m,
        },
{
    if let Some(modelo) = &c.modelo {
        if !find_model(ms, modelo.as_str()) {
            let mut msg = String::new();
            push_str(&mut msg, "comando '");
            push_str(&mut msg, c.patron.as_str());
            push_str(&mut msg, "' referencia modelo '");
            push_str(&mut msg, modelo.as_str());
            push_str(&mut msg, "' que no existe");
            return invalid(msg);
        }
    }
    match c.validar_patron() {
        Err(e) => return Err(e),
        Ok(()) => {},
    }
    if c.query && c.respuesta.is_none() && c.modelo.is_none() {
        let mut msg = String::new();
        push_str(&mut msg, "la consulta '");
        push_str(&mut msg, c.patron.as_str());
        push_str(&mut msg, "' no tiene 'respuesta' ni 'modelo': no sabría qué contestar");
        return invalid(msg);
    }
    Ok(())
}

fn check_model(nombre: &String, m: &ModeloDef) -> (r: Result<(), CrucibleError>)
    requires
        formula_fits(*m),
    ensures
        match model_problem(nombre@, *m) {
            None => r is Ok,
            Some(x) => r matches Err(CrucibleError::PerfilInvalido(y)) && y@ == x,
        },
{
    let mut msg = String::new();
    push_str(&mut msg, "modelo '");
    push_str(&mut msg, nombre.as_str());
    push_str(&mut msg, "': ");
    if !eq_str(m.tipo.as_str(), "formula") {
        push_str(&mut msg, "tipo '");
        push_str(&mut msg, m.tipo.as_str());
        push_str(&mut msg, "' no soportado; el único que existe es 'formula'");
        return invalid(msg);
    }
    let expr = match &m.expr {
        None => {
            push_str(&mut msg, "falta 'expr'");
            return invalid(msg);
        },
        Some(e) => e,
    };
    if let Some(f) = &m.formato {
        match Formato::parse(f.as_str()) {
            Err(CrucibleError::PerfilInvalido(e)) => {
                push_str(&mut msg, "perfil inválido: ");
                push_str(&mut msg, e.as_str());
                return invalid(msg);
            },
            Err(_) => {
                return invalid(msg);
            },
            Ok(_) => {},
        }
    }
    match validar_formula(expr.as_str()) {
        Err(CrucibleError::Evaluacion(e)) => {
            push_str(&mut msg, "error de evaluación: ");
            push_str(&mut msg, e.as_str());
            invalid(msg)
        },
        Err(_) => invalid(msg),
        Ok(()) => Ok(()),
    }
}

impl Perfil {
    /// Checks the rules of the format that a profile must follow to be
    /// loaded: a model name, commands in the current notation that refer to
    /// models that exist and queries that know what to answer, and models that
    /// are formulas that can be read, with a format that can be read.
    pub fn validar(&self) -> (r: Result<(), CrucibleError>)
        requires
            forall|k: int| 0 <= k < self.modelos.len() ==> formula_fits(#[trigger] self.modelos@[k].1),
        ensures
            match profile_problem(*self) {
                None => r is Ok,
                Some(m) => r matches Err(CrucibleError::PerfilInvalido(x)) && x@ == m,
            },
            r is Ok ==> forall|i: int, j: int|
                0 <= i < j < self.modelos.len() ==> (#[trigger] self.modelos@[i]).0@ != (
                #[trigger] self.modelos@[j]).0@,
    {
        if chars_of(self.dispositivo.modelo.as_str()).len() == 0 {
            let mut msg = String::new();
            push_str(&mut msg, "dispositivo.modelo no puede estar vacío");
            return invalid(msg);
        }
        let ghost fc = command_check(self.modelos@);
        let ghost fm = model_check();
        let mut i: usize = 0;
        assert(self.comandos@.skip(0) == self.comandos@);
        while i < self.comandos.len()
            invariant
                i <= self.comandos.len(),
                fc == command_check(self.modelos@),
                self.dispositivo.modelo@.len() > 0,
                first_problem(self.comandos@, fc) == first_problem(self.comandos@.skip(i as int), fc),
            decreases self.comandos.len() - i,
        {
            let r = check_command(&self.comandos[i], &self.modelos);
            assert(self.comandos@.skip(i as int)[0] == self.comandos@[i as int]);
            assert(self.comandos@.skip(i as int).drop_first() == self.comandos@.skip(i + 1));
            if r.is_err() {
                assert(fc(self.comandos@[i as int]) == command_problem(self.comandos@[i as int], self.modelos@));
                return r;
            }
            i += 1;
        }
        assert(self.comandos@.skip(i as int).len() == 0);
        assert(first_problem(self.comandos@, command_check(self.modelos@)) is None);
        let ghost ms = self.modelos@;
        let mut d: usize = 0;
        assert(ms.take(0) =~= Seq::<(String, ModeloDef)>::empty());
        while d < self.modelos.len()
            invariant
                d <= self.modelos.len(),
                ms == self.modelos@,
                repeated_model(ms.take(d as int)) is None,
                self.dispositivo.modelo@.len() > 0,
                first_problem(self.comandos@, command_check(self.modelos@)) is None,
            decreases self.modelos.len() - d,
        {
            let mut k: usize = 0;
            while k < d
                invariant
                    k <= d < self.modelos.len(),
                    ms == self.modelos@,
                    repeated_model(ms.take(d as int)) is None,
                    self.dispositivo.modelo@.len() > 0,
                    first_problem(self.comandos@, command_check(self.modelos@)) is None,
                    forall|x: int| 0 <= x < k ==> (#[trigger] ms[x]).0@ != ms[d as int].0@,
                decreases d - k,
            {
                if eq_str(self.modelos[k].0.as_str(), self.modelos[d].0.as_str()) {
                    proof {
                        let pre = ms.take(d + 1);
                        assert(pre.drop_last() == ms.take(d as int));
                        assert(pre.drop_last()[k as int] == ms[k as int]);
                        assert(has_model(pre.drop_last(), pre.last().0@));
                        lemma_repeated_prefix(ms, d + 1);
                        assert(repeated_model(ms) == Some(ms[d as int].0@));
                    }
                    let mut msg = String::new();
                    push_str(&mut msg, "modelo '");
                    push_str(&mut msg, self.modelos[d].0.as_str());
                    push_str(&mut msg, "' declarado más de una vez");
                    return invalid(msg);
                }
                k += 1;
            }
            proof {
                let pre = ms.take(d + 1);
                assert(pre.drop_last() == ms.take(d as int));
                if has_model(pre.drop_last(), pre.last().0@) {
                    let x = choose|x: int| 0 <= x < pre.drop_last().len() && (#[trigger] pre.drop_last()[x]).0@
                        == pre.last().0@;
                    assert(pre.drop_last()[x] == ms[x]);
                }
            }
            d += 1;
        }
        assert(ms.take(d as int) == ms);
        proof {
            lemma_no_repeat_distinct(ms);
        }
        let mut j: usize = 0;
        assert(self.modelos@.skip(0) == self.modelos@);
        while j < self.modelos.len()
            invariant
                j <= self.modelos.len(),
                fm == model_check(),
                self.dispositivo.modelo@.len() > 0,
                first_problem(self.comandos@, command_check(self.modelos@)) is None,
                repeated_model(self.modelos@) is None,
                forall|a: int, b: int|
                    0 <= a < b < self.modelos.len() ==> (#[trigger] self.modelos@[a]).0@ != (
                    #[trigger] self.modelos@[b]).0@,
                first_problem(self.modelos@, fm) == first_problem(self.modelos@.skip(j as int), fm),
                forall|k: int| 0 <= k < self.modelos.len() ==> formula_fits(#[trigger] self.modelos@[k].1),
            decreases self.modelos.len() - j,
        {
            let r = check_model(&self.modelos[j].0, &self.modelos[j].1);
            assert(self.modelos@.skip(j as int)[0] == self.modelos@[j as int]);
            assert(self.modelos@.skip(j as int).drop_first() == self.modelos@.skip(j + 1));
            if r.is_err() {
                assert(fm(self.modelos@[j as int]) == model_problem(self.modelos@[j as int].0@, self.modelos@[j as int].1));
                return r;
            }
            j += 1;
        }
        assert(self.modelos@.skip(j as int).len() == 0);
        Ok(())
    }
}

} // verus!
