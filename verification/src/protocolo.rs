//! From a profile to what the SCPI layer expects: a command table, named
//! arguments and the values of state changes.
use vstd::prelude::*;
use crate::error::{ErrorCode, ScpiError, ScpiErrorView};
use crate::parse::{trim, Command};
use crate::pattern::{pattern_segments, split_nonempty};
use crate::crucible_error::CrucibleError;
use crate::perfil::{protocol_name, Comando, Perfil, ProtocoloTipo};
use crate::table::{first_match, CommandTable};
use crate::text::{chars_of, eq_chars, int_text, push_nat_text, push_str, slice_vec, string_from, upper, upper_vec};

verus! {

/// The value of the first entry named `k`.
pub open spec fn lookup(args: Seq<(Seq<char>, Seq<char>)>, k: Seq<char>) -> Option<Seq<char>>
    decreases args.len(),
{
    if args.len() == 0 {
        None
    } else if args[0].0 == k {
        Some(args[0].1)
    } else {
        lookup(args.drop_first(), k)
    }
}

/// The entries after setting `k` to `v`: the entry of that name is replaced
/// where it stands, or a new one goes at the end.
pub open spec fn assoc_insert(args: Seq<(Seq<char>, Seq<char>)>, k: Seq<char>, v: Seq<char>) -> Seq<(Seq<char>, Seq<char>)>
    decreases args.len(),
{
    if args.len() == 0 {
        seq![(k, v)]
    } else if args[0].0 == k {
        seq![(k, v)] + args.drop_first()
    } else {
        seq![args[0]] + assoc_insert(args.drop_first(), k, v)
    }
}

/// The character sequences of pairs of strings.
pub open spec fn pair_views(v: Seq<(String, String)>) -> Seq<(Seq<char>, Seq<char>)> {
    v.map_values(|p: (String, String)| (p.0@, p.1@))
}

/// A boolean as a state variable accepts it: `ON`, `1`, `TRUE` or `OFF`, `0`,
/// `FALSE`, in any case and with white space around.
pub open spec fn boolean_value(valor: Seq<char>) -> Option<bool> {
    let u = upper(trim(valor));
    if u == "ON"@ || u == "1"@ || u == "TRUE"@ {
        Some(true)
    } else if u == "OFF"@ || u == "0"@ || u == "FALSE"@ {
        Some(false)
    } else {
        None
    }
}

pub fn booleano(valor: &str) -> (r: Option<bool>)
    ensures
        r == boolean_value(valor@),
{
    let u = upper_vec(&crate::parse::trim_vec(&chars_of(valor)));
    if eq_chars(&u, &chars_of("ON")) || eq_chars(&u, &chars_of("1")) || eq_chars(&u, &chars_of("TRUE")) {
        Some(true)
    } else if eq_chars(&u, &chars_of("OFF")) || eq_chars(&u, &chars_of("0")) || eq_chars(&u, &chars_of("FALSE")) {
        Some(false)
    } else {
        None
    }
}

/// The value an expression of `muta` takes: `"name"` and `<name>` name an
/// argument (a quoted text that names none is taken without its quotes), and
/// a bare word that names an argument takes its value; anything else is taken
/// as written, trimmed.
pub open spec fn expr_value(expr: Seq<char>, args: Seq<(Seq<char>, Seq<char>)>) -> Seq<char> {
    let e = trim(expr);
    let quoted = e.len() >= 2 && e[0] == '"' && e.last() == '"';
    let angled = e.len() >= 2 && e[0] == '<' && e.last() == '>';
    let inner = e.subrange(1, e.len() - 1);
    if quoted {
        match lookup(args, inner) {
            Some(v) => v,
            None => inner,
        }
    } else if angled && lookup(args, inner) is Some {
        lookup(args, inner).unwrap()
    } else {
        match lookup(args, e) {
            Some(v) => v,
            None => e,
        }
    }
}

fn lookup_exec(args: &Vec<(String, String)>, k: &Vec<char>) -> (r: Option<String>)
    ensures
        match lookup(pair_views(args@), k@) {
            Some(v) => r is Some && r.unwrap()@ == v,
            None => r is None,
        },
{
    let ghost pv = pair_views(args@);
    let mut i: usize = 0;
    assert(pv.skip(0) == pv);
    while i < args.len()
        invariant
            i <= args.len(),
            pv == pair_views(args@),
            lookup(pv, k@) == lookup(pv.skip(i as int), k@),
        decreases args.len() - i,
    {
        assert(pv.skip(i as int)[0] == (args@[i as int].0@, args@[i as int].1@));
        assert(pv.skip(i as int).drop_first() == pv.skip(i + 1));
        let name = chars_of(args[i].0.as_str());
        if eq_chars(&name, k) {
            return Some(args[i].1.clone());
        }
        i += 1;
    }
    None
}

/// The value of an expression of `muta`, as [`expr_value`] says.
pub fn resolver_expr(expr: &str, args: &Vec<(String, String)>) -> (r: String)
    ensures
        r@ == expr_value(expr@, pair_views(args@)),
{
    let e = crate::parse::trim_vec(&chars_of(expr));
    let n = e.len();
    if n >= 2 && e[0] == '"' && e[n - 1] == '"' {
        let inner = slice_vec(&e, 1, n - 1);
        return match lookup_exec(args, &inner) {
            Some(v) => v,
            None => string_from(&inner),
        };
    }
    if n >= 2 && e[0] == '<' && e[n - 1] == '>' {
        let name = slice_vec(&e, 1, n - 1);
        if let Some(v) = lookup_exec(args, &name) {
            return v;
        }
    }
    match lookup_exec(args, &e) {
        Some(v) => v,
        None => string_from(&e),
    }
}

/// Sets `k` to `v` in the named arguments.
fn insert_arg(args: &mut Vec<(String, String)>, k: String, v: String)
    ensures
        pair_views(final(args)@) == assoc_insert(pair_views(old(args)@), k@, v@),
{
    let ghost pv = pair_views(args@);
    let kv = chars_of(k.as_str());
    let mut i: usize = 0;
    while i < args.len()
        invariant
            i <= args.len(),
            args@ == old(args)@,
            pv == pair_views(args@),
            kv@ == k@,
            forall|j: int| 0 <= j < i ==> pv[j].0 != k@,
        decreases args.len() - i,
    {
        let name = chars_of(args[i].0.as_str());
        if eq_chars(&name, &kv) {
            proof {
                lemma_assoc_insert_at(pv, i as int, k@, v@);
            }
            args.set(i, (k, v));
            assert(pair_views(args@) =~= pv.update(i as int, (k@, v@)));
            return;
        }
        i += 1;
    }
    proof {
        lemma_assoc_insert_at(pv, pv.len() as int, k@, v@);
    }
    args.push((k, v));
    assert(pair_views(args@) =~= pv.push((k@, v@)));
}

/// Where the first `i` entries do not carry the name `k`, setting `k`
/// replaces entry `i` if it carries it, or appends when `i` is the end.
proof fn lemma_assoc_insert_at(args: Seq<(Seq<char>, Seq<char>)>, i: int, k: Seq<char>, v: Seq<char>)
    requires
        0 <= i <= args.len(),
        forall|j: int| 0 <= j < i ==> args[j].0 != k,
        i < args.len() ==> args[i].0 == k,
    ensures
        i < args.len() ==> assoc_insert(args, k, v) == args.update(i, (k, v)),
        i == args.len() ==> assoc_insert(args, k, v) == args.push((k, v)),
    decreases args.len(),
{
    if args.len() > 0 && i > 0 {
        lemma_assoc_insert_at(args.drop_first(), i - 1, k, v);
        if i < args.len() {
            assert(seq![args[0]] + args.drop_first().update(i - 1, (k, v)) =~= args.update(i, (k, v)));
        } else {
            assert(seq![args[0]] + args.drop_first().push((k, v)) =~= args.push((k, v)));
        }
    } else if args.len() > 0 {
        assert(seq![(k, v)] + args.drop_first() =~= args.update(0, (k, v)));
    }
}

/// The named arguments after naming the first `n` received ones: each is set
/// under its position (`0`, `1`, ...) and, when the profile declares a name
/// for that position, under that name too.
pub open spec fn named_args(names: Seq<Seq<char>>, received: Seq<Seq<char>>, n: nat) -> Seq<(Seq<char>, Seq<char>)>
    decreases n,
{
    if n == 0 {
        Seq::empty()
    } else {
        let i = (n - 1) as nat;
        let prev = named_args(names, received, i);
        let with_pos = assoc_insert(prev, int_text(i as int), received[i as int]);
        if i < names.len() {
            assoc_insert(with_pos, names[i as int], received[i as int])
        } else {
            with_pos
        }
    }
}

/// Pairs the received arguments with the names the profile declares;
/// positions name them too, as `<0>`, `<1>`.
pub fn nombrar_args(comando: &Comando, recibidos: &Vec<String>) -> (r: Vec<(String, String)>)
    ensures
        pair_views(r@) == named_args(
            comando.args@.map_values(|s: String| s@),
            recibidos@.map_values(|s: String| s@),
            recibidos@.len(),
        ),
{
    let ghost names = comando.args@.map_values(|s: String| s@);
    let ghost received = recibidos@.map_values(|s: String| s@);
    let mut args: Vec<(String, String)> = Vec::new();
    let mut i: usize = 0;
    assert(pair_views(args@) =~= Seq::<(Seq<char>, Seq<char>)>::empty());
    while i < recibidos.len()
        invariant
            i <= recibidos.len(),
            names == comando.args@.map_values(|s: String| s@),
            received == recibidos@.map_values(|s: String| s@),
            pair_views(args@) == named_args(names, received, i as nat),
        decreases recibidos.len() - i,
    {
        let mut digits: Vec<char> = Vec::new();
        push_nat_text(&mut digits, i as u64);
        let pos = string_from(&digits);
        assert(pos@ == int_text(i as int));
        let v = recibidos[i].clone();
        assert(v@ == received[i as int]);
        insert_arg(&mut args, pos, v);
        if i < comando.args.len() {
            let name = comando.args[i].clone();
            assert(name@ == names[i as int]);
            let v2 = recibidos[i].clone();
            insert_arg(&mut args, name, v2);
        }
        i += 1;
    }
    args
}

/// The table of the commands of one form (orders or queries), each pattern
/// mapped to its position among the commands: declaration order decides who
/// wins when two patterns overlap.
pub open spec fn table_of(comandos: Seq<Comando>, query: bool, n: nat) -> Seq<(Seq<crate::pattern::SegmentSpec>, usize)>
    decreases n,
{
    if n == 0 {
        Seq::empty()
    } else {
        let prev = table_of(comandos, query, (n - 1) as nat);
        if comandos[n - 1].query == query {
            prev.push((pattern_segments(comandos[n - 1].patron@), (n - 1) as usize))
        } else {
            prev
        }
    }
}

pub fn compilar_tabla(comandos: &Vec<Comando>, query: bool) -> (t: CommandTable<usize>)
    ensures
        t.entries_spec() == table_of(comandos@, query, comandos@.len()),
{
    let mut tabla: CommandTable<usize> = CommandTable::new();
    let mut i: usize = 0;
    while i < comandos.len()
        invariant
            i <= comandos.len(),
            tabla.entries_spec() == table_of(comandos@, query, i as nat),
        decreases comandos.len() - i,
    {
        if comandos[i].query == query {
            tabla.add(comandos[i].patron.as_str(), i);
        }
        i += 1;
    }
    tabla
}

/// The position of the first `{` or `<` of `s`.
pub open spec fn first_mark(s: Seq<char>) -> Option<int>
    decreases s.len(),
{
    if s.len() == 0 {
        None
    } else if s[0] == '{' || s[0] == '<' {
        Some(0)
    } else {
        match first_mark(s.drop_first()) {
            Some(i) => Some(i + 1),
            None => None,
        }
    }
}

/// The position of the first `c` of `s`.
pub open spec fn first_char(s: Seq<char>, c: char) -> Option<int>
    decreases s.len(),
{
    if s.len() == 0 {
        None
    } else if s[0] == c {
        Some(0)
    } else {
        match first_char(s.drop_first(), c) {
            Some(i) => Some(i + 1),
            None => None,
        }
    }
}

/// A template from position `pos` on: `{name}` takes the value of the state
/// variable `name`, `<name>` the argument `name`; a reference to something
/// that does not exist stays as written, so that it shows in the answer; a
/// mark that is never closed ends the substitution and the rest is kept as
/// it is.
pub open spec fn template_from(
    t: Seq<char>,
    pos: int,
    estado: Seq<(Seq<char>, Seq<char>)>,
    args: Seq<(Seq<char>, Seq<char>)>,
) -> Seq<char>
    decreases t.len() - pos,
{
    if pos < 0 || pos > t.len() {
        Seq::empty()
    } else {
        let r = t.skip(pos);
        match first_mark(r) {
            None => r,
            Some(i) => {
                let ini = pos + i;
                let cierra = if t[ini] == '{' {
                    '}'
                } else {
                    '>'
                };
                match first_char(t.skip(ini), cierra) {
                    None => r,
                    Some(j) => {
                        let fin = ini + j;
                        if pos <= ini && ini < fin && fin < t.len() {
                            let nombre = t.subrange(ini + 1, fin);
                            let valor = if t[ini] == '{' {
                                lookup(estado, nombre)
                            } else {
                                lookup(args, nombre)
                            };
                            t.subrange(pos, ini) + match valor {
                                Some(v) => v,
                                None => t.subrange(ini, fin + 1),
                            } + template_from(t, fin + 1, estado, args)
                        } else {
                            r
                        }
                    },
                }
            },
        }
    }
}

/// The text of a template with its references replaced; see
/// [`template_from`].
pub open spec fn template(t: Seq<char>, estado: Seq<(Seq<char>, Seq<char>)>, args: Seq<(Seq<char>, Seq<char>)>) -> Seq<char> {
    template_from(t, 0, estado, args)
}

fn find_mark(t: &Vec<char>, pos: usize) -> (r: Option<usize>)
    requires
        pos <= t.len(),
    ensures
        match first_mark(t@.skip(pos as int)) {
            None => r is None,
            Some(i) => 0 <= i && r == Some((pos + i) as usize) && pos + i < t.len() && (t@[pos + i] == '{'
                || t@[pos + i] == '<'),
        },
{
    let mut k: usize = pos;
    while k < t.len()
        invariant
            pos <= k <= t.len(),
            first_mark(t@.skip(pos as int)) == match first_mark(t@.skip(k as int)) {
                Some(i) => Some(i + (k - pos)),
                None => None,
            },
        decreases t.len() - k,
    {
        assert(t@.skip(k as int)[0] == t@[k as int]);
        if t[k] == '{' || t[k] == '<' {
            return Some(k);
        }
        assert(t@.skip(k as int).drop_first() == t@.skip(k + 1));
        k += 1;
    }
    None
}

fn find_char(t: &Vec<char>, from: usize, c: char) -> (r: Option<usize>)
    requires
        from <= t.len(),
    ensures
        match first_char(t@.skip(from as int), c) {
            None => r is None,
            Some(j) => 0 <= j && r == Some((from + j) as usize) && from + j < t.len() && t@[from + j] == c,
        },
{
    let mut k: usize = from;
    while k < t.len()
        invariant
            from <= k <= t.len(),
            first_char(t@.skip(from as int), c) == match first_char(t@.skip(k as int), c) {
                Some(j) => Some(j + (k - from)),
                None => None,
            },
        decreases t.len() - k,
    {
        assert(t@.skip(k as int)[0] == t@[k as int]);
        if t[k] == c {
            return Some(k);
        }
        assert(t@.skip(k as int).drop_first() == t@.skip(k + 1));
        k += 1;
    }
    None
}

/// Replaces in a text the references to state variables and to arguments:
/// `{voltaje_fuente}` takes the value of the state variable, `<v>` the
/// argument the profile named `v`. `estado` holds each state variable with
/// the text of its value. A text with neither form is returned as it is,
/// which is the common case (a fixed answer).
pub fn resolver_plantilla(texto: &str, estado: &Vec<(String, String)>, args: &Vec<(String, String)>) -> (r: String)
    ensures
        r@ == template(texto@, pair_views(estado@), pair_views(args@)),
{
    let t = chars_of(texto);
    let ghost e = pair_views(estado@);
    let ghost a = pair_views(args@);
    let mut out: Vec<char> = Vec::new();
    let mut pos: usize = 0;
    while pos <= t.len()
        invariant
            pos <= t.len(),
            e == pair_views(estado@),
            a == pair_views(args@),
            template(t@, e, a) == out@ + template_from(t@, pos as int, e, a),
        ensures
            pos <= t.len(),
            template(t@, e, a) == out@ + template_from(t@, pos as int, e, a),
            template_from(t@, pos as int, e, a) == t@.skip(pos as int),
        decreases t.len() - pos,
    {
        let ini = match find_mark(&t, pos) {
            None => break,
            Some(i) => i,
        };
        let cierra = if t[ini] == '{' {
            '}'
        } else {
            '>'
        };
        let fin = match find_char(&t, ini, cierra) {
            None => break,
            Some(f) => f,
        };
        let nombre = slice_vec(&t, ini + 1, fin);
        let valor = if t[ini] == '{' {
            lookup_exec(estado, &nombre)
        } else {
            lookup_exec(args, &nombre)
        };
        let ghost before = out@;
        let antes = slice_vec(&t, pos, ini);
        let mut k: usize = 0;
        while k < antes.len()
            invariant
                k <= antes.len(),
                out@ == before + antes@.take(k as int),
            decreases antes.len() - k,
        {
            out.push(antes[k]);
            assert(antes@.take(k + 1) == antes@.take(k as int).push(antes@[k as int]));
            k += 1;
        }
        assert(antes@.take(antes.len() as int) == antes@);
        let pieza: Vec<char> = match valor {
            Some(v) => chars_of(v.as_str()),
            None => slice_vec(&t, ini, fin + 1),
        };
        let ghost mid = out@;
        let mut k: usize = 0;
        while k < pieza.len()
            invariant
                k <= pieza.len(),
                out@ == mid + pieza@.take(k as int),
            decreases pieza.len() - k,
        {
            out.push(pieza[k]);
            assert(pieza@.take(k + 1) == pieza@.take(k as int).push(pieza@[k as int]));
            k += 1;
        }
        assert(pieza@.take(pieza.len() as int) == pieza@);
        assert(out@ == before + (antes@ + pieza@));
        pos = fin + 1;
    }
    let ghost before = out@;
    let resto = slice_vec(&t, pos, t.len());
    assert(resto@ == t@.skip(pos as int));
    let mut k: usize = 0;
    while k < resto.len()
        invariant
            k <= resto.len(),
            out@ == before + resto@.take(k as int),
        decreases resto.len() - k,
    {
        out.push(resto[k]);
        assert(resto@.take(k + 1) == resto@.take(k as int).push(resto@[k as int]));
        k += 1;
    }
    assert(resto@.take(resto.len() as int) == resto@);
    string_from(&out)
}

/// An expression of `muta` that is only an optional argument which did not
/// arrive (`<rango>` with no `rango`): the variable keeps its value.
pub open spec fn absent_argument(expr: Seq<char>, args: Seq<(Seq<char>, Seq<char>)>) -> bool {
    let e = trim(expr);
    e.len() >= 2 && e[0] == '<' && e.last() == '>' && lookup(args, e.subrange(1, e.len() - 1)) is None
}

/// The state changes a command asks for: each variable with the text of its
/// new value, in the order given, leaving out those whose expression is an
/// argument that did not arrive.
pub open spec fn planned_changes(muta: Seq<(Seq<char>, Seq<char>)>, args: Seq<(Seq<char>, Seq<char>)>) -> Seq<(Seq<char>, Seq<char>)>
    decreases muta.len(),
{
    if muta.len() == 0 {
        Seq::empty()
    } else {
        let rest = planned_changes(muta.drop_first(), args);
        if absent_argument(muta[0].1, args) {
            rest
        } else {
            seq![(muta[0].0, expr_value(muta[0].1, args))] + rest
        }
    }
}

/// The state changes of a command, as [`planned_changes`] says. Each value
/// still has to be read as the type of its variable, and nothing is written
/// until every one of them has been read.
pub fn planear_mutacion(muta: &Vec<(String, String)>, args: &Vec<(String, String)>) -> (r: Vec<(String, String)>)
    ensures
        pair_views(r@) == planned_changes(pair_views(muta@), pair_views(args@)),
{
    let ghost m = pair_views(muta@);
    let ghost a = pair_views(args@);
    let mut out: Vec<(String, String)> = Vec::new();
    let mut i: usize = 0;
    assert(m.skip(0) == m);
    assert(pair_views(out@) =~= Seq::<(Seq<char>, Seq<char>)>::empty());
    while i < muta.len()
        invariant
            i <= muta.len(),
            m == pair_views(muta@),
            a == pair_views(args@),
            planned_changes(m, a) == pair_views(out@) + planned_changes(m.skip(i as int), a),
        decreases muta.len() - i,
    {
        assert(m.skip(i as int)[0] == m[i as int]);
        assert(m.skip(i as int).drop_first() == m.skip(i + 1));
        let e = crate::parse::trim_vec(&chars_of(muta[i].1.as_str()));
        let n = e.len();
        let ausente = n >= 2 && e[0] == '<' && e[n - 1] == '>' && lookup_exec(args, &slice_vec(&e, 1, n - 1)).is_none();
        if !ausente {
            let v = resolver_expr(muta[i].1.as_str(), args);
            let k = muta[i].0.clone();
            let ghost before = pair_views(out@);
            let ghost head = (m[i as int].0, expr_value(m[i as int].1, a));
            out.push((k, v));
            assert(pair_views(out@) =~= before.push(head));
            assert(before + (seq![head] + planned_changes(m.skip(i + 1), a)) =~= before.push(head)
                + planned_changes(m.skip(i + 1), a));
        }
        i += 1;
    }
    assert(m.skip(muta.len() as int) =~= Seq::<(Seq<char>, Seq<char>)>::empty());
    assert(pair_views(out@) + Seq::<(Seq<char>, Seq<char>)>::empty() =~= pair_views(out@));
    out
}

/// What answers a command of a profile.
#[derive(Debug, Clone, PartialEq, Eq)]
pub enum Respuesta {
    /// An order: nothing.
    Ninguna,
    /// The template of the answer.
    Plantilla(String),
    /// The model that computes the answer.
    Modelo(String),
    /// A query with neither template nor model: the profile is incomplete.
    Incompleta,
}

/// A received command resolved against a profile: which of its commands it
/// is, the named arguments, and what answers it.
#[derive(Debug, Clone)]
pub struct Despacho {
    pub indice: usize,
    pub args: Vec<(String, String)>,
    pub respuesta: Respuesta,
}

/// What answers the command `c` of a profile when received in the form
/// `query`.
pub open spec fn answer_of(c: Comando, query: bool, r: Respuesta) -> bool {
    if !query {
        r is Ninguna
    } else if c.respuesta is Some {
        r matches Respuesta::Plantilla(t) && t@ == c.respuesta.unwrap()@
    } else if c.modelo is Some {
        r matches Respuesta::Modelo(n) && n@ == c.modelo.unwrap()@
    } else {
        r is Incompleta
    }
}

/// The commands of a profile with their patterns compiled once: orders and
/// queries in two tables, because the same pattern is often declared twice
/// (`SOUR:VOLT 5` and `SOUR:VOLT?` are different things) and the first match
/// wins, so one table would always hide the query behind the order.
pub struct ComandosPerfil {
    comandos: Vec<Comando>,
    ordenes: CommandTable<usize>,
    consultas: CommandTable<usize>,
}

impl ComandosPerfil {
    pub closed spec fn comandos_spec(&self) -> Seq<Comando> {
        self.comandos@
    }

    #[verifier::type_invariant]
    closed spec fn tablas_compiladas(&self) -> bool {
        &&& self.ordenes.entries_spec() == table_of(self.comandos@, false, self.comandos@.len())
        &&& self.consultas.entries_spec() == table_of(self.comandos@, true, self.comandos@.len())
    }

    pub fn nuevo(comandos: Vec<Comando>) -> (r: Self)
        ensures
            r.comandos_spec() == comandos@,
    {
        let ordenes = compilar_tabla(&comandos, false);
        let consultas = compilar_tabla(&comandos, true);
        ComandosPerfil { comandos, ordenes, consultas }
    }

    pub fn comandos(&self) -> (r: &Vec<Comando>)
        ensures
            r@ == self.comandos_spec(),
    {
        &self.comandos
    }

    /// Resolves a received command: the form decides the table, so a query
    /// never wakes the order of the same name, nor the other way round. A
    /// header no command of its form matches is an undefined header.
    pub fn despachar(&self, cmd: &Command) -> (r: Result<Despacho, ScpiError>)
        ensures
            match first_match(table_of(self.comandos_spec(), cmd@.query, self.comandos_spec().len()), split_nonempty(cmd@.header, ':')) {
                None => r is Err && r->Err_0@ == (ScpiErrorView {
                    code: ErrorCode::UndefinedHeader,
                    detail: Some(cmd@.header),
                }),
                Some((i, _)) => r is Ok && r.unwrap().indice == i && i < self.comandos_spec().len()
                    && pair_views(r.unwrap().args@) == named_args(
                        self.comandos_spec()[i as int].args@.map_values(|s: String| s@),
                        cmd@.args,
                        cmd@.args.len(),
                    ) && answer_of(self.comandos_spec()[i as int], cmd@.query, r.unwrap().respuesta),
            },
    {
        proof {
            use_type_invariant(self);
            lemma_table_indices(self.comandos@, cmd@.query, self.comandos@.len(), split_nonempty(cmd@.header, ':'));
        }
        let tabla = if cmd.query {
            &self.consultas
        } else {
            &self.ordenes
        };
        let indice = match tabla.lookup(cmd.header.as_str()) {
            None => return Err(ScpiError::with_detail(ErrorCode::UndefinedHeader, cmd.header.as_str())),
            Some((i, _)) => *i,
        };
        let comando = &self.comandos[indice];
        let args = nombrar_args(comando, &cmd.args);
        assert(cmd.args@.map_values(|s: String| s@) == cmd@.args);
        let respuesta = if !cmd.query {
            Respuesta::Ninguna
        } else if let Some(t) = &comando.respuesta {
            Respuesta::Plantilla(t.clone())
        } else if let Some(n) = &comando.modelo {
            Respuesta::Modelo(n.clone())
        } else {
            Respuesta::Incompleta
        };
        Ok(Despacho { indice, args, respuesta })
    }
}

/// Every action of a compiled table is the position of a command.
proof fn lemma_table_indices(cs: Seq<Comando>, query: bool, n: nat, parts: Seq<Seq<char>>)
    requires
        n <= cs.len(),
    ensures
        forall|k: int| 0 <= k < table_of(cs, query, n).len() ==> (#[trigger] table_of(cs, query, n)[k]).1 < n,
        first_match(table_of(cs, query, n), parts) matches Some((i, _)) ==> i < n,
    decreases n,
{
    if n > 0 {
        lemma_table_indices(cs, query, (n - 1) as nat, parts);
    }
    lemma_first_match_in(table_of(cs, query, n), parts, n);
}

proof fn lemma_first_match_in(t: Seq<(Seq<crate::pattern::SegmentSpec>, usize)>, parts: Seq<Seq<char>>, n: nat)
    requires
        forall|k: int| 0 <= k < t.len() ==> (#[trigger] t[k]).1 < n,
    ensures
        first_match(t, parts) matches Some((i, _)) ==> i < n,
    decreases t.len(),
{
    if t.len() > 0 {
        assert forall|k: int| 0 <= k < t.drop_first().len() implies (#[trigger] t.drop_first()[k]).1 < n by {
            assert(t.drop_first()[k] == t[k + 1]);
        }
        lemma_first_match_in(t.drop_first(), parts, n);
    }
}

/// The message refusing to serve a profile that does not speak SCPI.
pub open spec fn not_scpi_message(modelo: Seq<char>, protocolo: Seq<char>) -> Seq<char> {
    "el perfil '"@ + modelo + "' declara protocolo "@ + protocolo + ", no SCPI"@
}

/// Only a profile that speaks SCPI can become an SCPI device.
pub fn comprobar_protocolo(perfil: &Perfil) -> (r: Result<(), CrucibleError>)
    ensures
        match r {
            Ok(()) => perfil.protocolo == ProtocoloTipo::Scpi,
            Err(CrucibleError::Protocolo(m)) => perfil.protocolo != ProtocoloTipo::Scpi && m@ == not_scpi_message(
                perfil.dispositivo.modelo@,
                protocol_name(perfil.protocolo),
            ),
            Err(_) => false,
        },
{
    match perfil.protocolo {
        ProtocoloTipo::Scpi => Ok(()),
        _ => {
            let mut m = String::new();
            push_str(&mut m, "el perfil '");
            push_str(&mut m, perfil.dispositivo.modelo.as_str());
            push_str(&mut m, "' declara protocolo ");
            push_str(&mut m, perfil.protocolo.nombre());
            push_str(&mut m, ", no SCPI");
            Err(CrucibleError::Protocolo(m))
        },
    }
}

/// Whether a text holds no opening mark of a reference.
pub open spec fn no_marks(s: Seq<char>) -> bool {
    forall|i: int| 0 <= i < s.len() ==> s[i] != '{' && s[i] != '<'
}

/// The first mark of a text is the first `{` or `<` in it.
proof fn lemma_first_mark_after(a: Seq<char>, rest: Seq<char>)
    requires
        no_marks(a),
    ensures
        first_mark(a + rest) == match first_mark(rest) {
            Some(i) => Some(i + a.len()),
            None => None,
        },
    decreases a.len(),
{
    if a.len() > 0 {
        assert((a + rest).drop_first() =~= a.drop_first() + rest);
        lemma_first_mark_after(a.drop_first(), rest);
    } else {
        assert(a + rest =~= rest);
    }
}

/// The first `c` of a text that starts with others.
proof fn lemma_first_char_after(a: Seq<char>, c: char, rest: Seq<char>)
    requires
        forall|i: int| 0 <= i < a.len() ==> a[i] != c,
    ensures
        first_char(a + rest, c) == match first_char(rest, c) {
            Some(i) => Some(i + a.len()),
            None => None,
        },
    decreases a.len(),
{
    if a.len() > 0 {
        assert((a + rest).drop_first() =~= a.drop_first() + rest);
        lemma_first_char_after(a.drop_first(), c, rest);
    } else {
        assert(a + rest =~= rest);
    }
}

/// A template with one reference between plain text: `{name}` is replaced
/// by the value of that state variable and `<name>` by that argument, and a
/// name that is not there stays as it was written; the text around it is
/// kept as it is.
pub proof fn law_one_reference(
    before: Seq<char>,
    open: char,
    name: Seq<char>,
    after: Seq<char>,
    estado: Seq<(Seq<char>, Seq<char>)>,
    args: Seq<(Seq<char>, Seq<char>)>,
)
    requires
        open == '{' || open == '<',
        no_marks(before),
        no_marks(after),
        forall|i: int| 0 <= i < name.len() ==> name[i] != (if open == '{' { '}' } else { '>' }),
    ensures
        ({
            let close = if open == '{' { '}' } else { '>' };
            let found = if open == '{' { lookup(estado, name) } else { lookup(args, name) };
            template(before + seq![open] + name + seq![close] + after, estado, args) == before + match found {
                Some(v) => v,
                None => seq![open] + name + seq![close],
            } + after
        }),
{
    let close = if open == '{' { '}' } else { '>' };
    let t = before + seq![open] + name + seq![close] + after;
    let ini = before.len() as int;
    let fin = ini + 1 + name.len();
    assert(t =~= before + (seq![open] + name + seq![close] + after));
    assert(t.skip(0) == t);
    lemma_first_mark_after(before, seq![open] + name + seq![close] + after);
    assert(first_mark(seq![open] + name + seq![close] + after) == Some(0int));
    assert(t[ini] == open);
    assert(t.skip(ini) =~= seq![open] + (name + seq![close] + after));
    assert(seq![open][0] != close);
    lemma_first_char_after(seq![open] + name, close, seq![close] + after);
    assert(seq![open] + name + (seq![close] + after) =~= t.skip(ini));
    assert forall|i: int| 0 <= i < (seq![open] + name).len() implies (seq![open] + name)[i] != close by {
        if i > 0 {
            assert((seq![open] + name)[i] == name[i - 1]);
        }
    }
    assert(first_char(t.skip(ini), close) == Some((name.len() + 1) as int));
    assert(t[fin] == close);
    assert(t.subrange(ini + 1, fin) =~= name);
    assert(t.subrange(0, ini) =~= before);
    assert(t.subrange(ini, fin + 1) =~= seq![open] + name + seq![close]);
    let r2 = t.skip(fin + 1);
    assert(r2 =~= after);
    lemma_first_mark_after(after, Seq::empty());
    assert(after + Seq::<char>::empty() =~= after);
    assert(template_from(t, fin + 1, estado, args) == after);
}

/// Setting a name makes it read the value set.
proof fn lemma_lookup_insert(args: Seq<(Seq<char>, Seq<char>)>, k: Seq<char>, v: Seq<char>, k2: Seq<char>)
    ensures
        lookup(assoc_insert(args, k, v), k2) == if k2 == k { Some(v) } else { lookup(args, k2) },
    decreases args.len(),
{
    let ins = assoc_insert(args, k, v);
    if args.len() == 0 {
        assert(ins =~= seq![(k, v)]);
        assert(ins.drop_first() =~= Seq::<(Seq<char>, Seq<char>)>::empty());
        assert(lookup(ins.drop_first(), k2) == None::<Seq<char>>);
        assert(lookup(ins, k2) == if ins[0].0 == k2 { Some(ins[0].1) } else { lookup(ins.drop_first(), k2) });
    } else if args[0].0 == k {
        assert(ins =~= seq![(k, v)] + args.drop_first());
        assert(ins.drop_first() =~= args.drop_first());
        assert(lookup(ins, k2) == if ins[0].0 == k2 { Some(ins[0].1) } else { lookup(ins.drop_first(), k2) });
        assert(lookup(args, k2) == if args[0].0 == k2 { Some(args[0].1) } else { lookup(args.drop_first(), k2) });
    } else {
        lemma_lookup_insert(args.drop_first(), k, v, k2);
        assert(ins =~= seq![args[0]] + assoc_insert(args.drop_first(), k, v));
        assert(ins[0] == args[0]);
        assert(ins.drop_first() =~= assoc_insert(args.drop_first(), k, v));
        assert(lookup(ins, k2) == if ins[0].0 == k2 { Some(ins[0].1) } else { lookup(ins.drop_first(), k2) });
        assert(lookup(args, k2) == if args[0].0 == k2 { Some(args[0].1) } else { lookup(args.drop_first(), k2) });
    }
}

/// The arguments of a command are found by their position, written as a
/// number (`<0>`, `<1>`, ...), and by the name the profile gives them, when
/// the names are distinct and none is written as a number.
pub proof fn law_arguments_by_position_and_name(names: Seq<Seq<char>>, received: Seq<Seq<char>>, n: nat)
    requires
        n <= received.len(),
        forall|a: int, b: int| 0 <= a < b < names.len() ==> names[a] != names[b],
        forall|a: int, b: int| 0 <= a < names.len() && 0 <= b ==> names[a] != int_text(b),
    ensures
        forall|i: int| 0 <= i < n ==> lookup(named_args(names, received, n), #[trigger] int_text(i)) == Some(
            received[i],
        ),
        forall|i: int|
            0 <= i < n && i < names.len() ==> lookup(named_args(names, received, n), #[trigger] names[i]) == Some(
                received[i],
            ),
    decreases n,
{
    if n > 0 {
        let m = (n - 1) as nat;
        law_arguments_by_position_and_name(names, received, m);
        let prev = named_args(names, received, m);
        let with_pos = assoc_insert(prev, int_text(m as int), received[m as int]);
        assert forall|i: int| 0 <= i < n implies lookup(named_args(names, received, n), #[trigger] int_text(i))
            == Some(received[i]) by {
            lemma_lookup_insert(prev, int_text(m as int), received[m as int], int_text(i));
            if m < names.len() {
                lemma_lookup_insert(with_pos, names[m as int], received[m as int], int_text(i));
            }
            if i < m {
                crate::format::law_nr1_reads_back(i);
                crate::format::law_nr1_reads_back(m as int);
                assert(int_text(i) != int_text(m as int));
            }
        }
        assert forall|i: int| 0 <= i < n && i < names.len() implies lookup(
            named_args(names, received, n),
            #[trigger] names[i],
        ) == Some(received[i]) by {
            lemma_lookup_insert(prev, int_text(m as int), received[m as int], names[i]);
            if m < names.len() {
                lemma_lookup_insert(with_pos, names[m as int], received[m as int], names[i]);
            }
            assert(names[i] != int_text(m as int));
        }
    }
}

} // verus!
