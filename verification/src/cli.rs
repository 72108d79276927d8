//! What the command lines of the two programs ask for.
use vstd::prelude::*;
use crate::text::{
    all_digits, chars_of, digits_value, eq_str, is_ascii_digit, nat_text, parse_u32_vec, push_nat_text, push_str, slice_vec,
    string_from,
};

verus! {

/// `u16::from_str`: an optional `+` and at least one decimal digit, with a
/// value that fits.
pub open spec fn port_value(p: Seq<char>) -> Option<u16> {
    let d = if p.len() > 0 && p[0] == '+' {
        p.drop_first()
    } else {
        p
    };
    if d.len() > 0 && all_digits(d) && digits_value(d) <= u16::MAX {
        Some(digits_value(d) as u16)
    } else {
        None
    }
}

/// Reads a port number; see [`port_value`].
pub fn parse_port(p: &str) -> (r: Option<u16>)
    ensures
        r == port_value(p@),
{
    let v = chars_of(p);
    let d = if v.len() > 0 && v[0] == '+' {
        slice_vec(&v, 1, v.len())
    } else {
        slice_vec(&v, 0, v.len())
    };
    assert(v@.len() > 0 && v@[0] == '+' ==> d@ == v@.drop_first());
    assert(!(v@.len() > 0 && v@[0] == '+') ==> d@ == v@);
    let mut i: usize = 0;
    while i < d.len()
        invariant
            i <= d.len(),
            v@ == p@,
            d@ == (if v@.len() > 0 && v@[0] == '+' {
                v@.drop_first()
            } else {
                v@
            }),
            forall|k: int| 0 <= k < i ==> is_ascii_digit(#[trigger] d@[k]),
        decreases d.len() - i,
    {
        if !('0' <= d[i] && d[i] <= '9') {
            assert(!is_ascii_digit(d@[i as int]));
            return None;
        }
        i += 1;
    }
    match parse_u32_vec(&d) {
        Some(n) => if n <= 65535 {
            Some(n as u16)
        } else {
            None
        },
        None => None,
    }
}

/// What the bench simulator was asked to do.
#[derive(Debug, Clone, PartialEq, Eq)]
pub enum Orden {
    /// Print the help.
    Ayuda,
    /// Print the version.
    Version,
    /// Start the bank found in the default places.
    ArrancarPorDefecto,
    /// Start a bank, or a single profile on the given port.
    Arrancar(String, Option<u16>),
    /// Check a bank or a profile without starting it.
    Validar(String),
}

/// The abstract content of an [`Orden`].
pub enum OrdenView {
    Ayuda,
    Version,
    ArrancarPorDefecto,
    Arrancar(Seq<char>, Option<u16>),
    Validar(Seq<char>),
}

pub open spec fn orden_view(o: Orden) -> OrdenView {
    match o {
        Orden::Ayuda => OrdenView::Ayuda,
        Orden::Version => OrdenView::Version,
        Orden::ArrancarPorDefecto => OrdenView::ArrancarPorDefecto,
        Orden::Arrancar(f, p) => OrdenView::Arrancar(f@, p),
        Orden::Validar(f) => OrdenView::Validar(f@),
    }
}

/// The request a command line makes, as the bench simulator reads it.
pub open spec fn orden_spec(args: Seq<Seq<char>>) -> Result<OrdenView, Seq<char>> {
    if args.len() == 0 {
        Ok(OrdenView::ArrancarPorDefecto)
    } else {
        let a = args[0];
        if a == "-h"@ || a == "--help"@ || a == "--ayuda"@ {
            Ok(OrdenView::Ayuda)
        } else if a == "-V"@ || a == "--version"@ {
            Ok(OrdenView::Version)
        } else if a == "--validar"@ {
            if args.len() < 2 {
                Err("falta el fichero: crucible --validar <fichero>"@)
            } else {
                Ok(OrdenView::Validar(args[1]))
            }
        } else if a == "--banco"@ {
            if args.len() < 2 {
                Err("falta el fichero: crucible --banco <banco.yaml>"@)
            } else {
                Ok(OrdenView::Arrancar(args[1], None))
            }
        } else if args.len() >= 2 {
            match port_value(args[1]) {
                None => Err("'"@ + args[1] + "' no es un puerto válido"@),
                Some(p) => Ok(OrdenView::Arrancar(a, Some(p))),
            }
        } else {
            Ok(OrdenView::Arrancar(a, None))
        }
    }
}

/// Reads the command line of the bench simulator, without the program name:
/// nothing starts the default bank; `-h`, `--help` or `--ayuda` ask for the
/// help and `-V` or `--version` for the version; `--validar <file>` checks a
/// file; `--banco <file>` starts a bank; anything else is a file to start,
/// perhaps followed by the port of a single profile.
pub fn interpretar_argumentos(args: &Vec<String>) -> (r: Result<Orden, String>)
    ensures
        match orden_spec(args@.map_values(|s: String| s@)) {
            Ok(o) => r is Ok && orden_view(r.unwrap()) == o,
            Err(m) => r is Err && r->Err_0@ == m,
        },
{
    let ghost av = args@.map_values(|s: String| s@);
    if args.len() == 0 {
        return Ok(Orden::ArrancarPorDefecto);
    }
    let a = args[0].as_str();
    assert(a@ == av[0]);
    if eq_str(a, "-h") || eq_str(a, "--help") || eq_str(a, "--ayuda") {
        return Ok(Orden::Ayuda);
    }
    if eq_str(a, "-V") || eq_str(a, "--version") {
        return Ok(Orden::Version);
    }
    if eq_str(a, "--validar") {
        if args.len() < 2 {
            let mut m = String::new();
            push_str(&mut m, "falta el fichero: crucible --validar <fichero>");
            return Err(m);
        }
        assert(args[1]@ == av[1]);
        return Ok(Orden::Validar(args[1].clone()));
    }
    if eq_str(a, "--banco") {
        if args.len() < 2 {
            let mut m = String::new();
            push_str(&mut m, "falta el fichero: crucible --banco <banco.yaml>");
            return Err(m);
        }
        assert(args[1]@ == av[1]);
        return Ok(Orden::Arrancar(args[1].clone(), None));
    }
    let puerto = if args.len() >= 2 {
        assert(args[1]@ == av[1]);
        match parse_port(args[1].as_str()) {
            Some(p) => Some(p),
            None => {
                let mut m = String::new();
                push_str(&mut m, "'");
                push_str(&mut m, args[1].as_str());
                push_str(&mut m, "' no es un puerto válido");
                return Err(m);
            },
        }
    } else {
        None
    };
    Ok(Orden::Arrancar(args[0].clone(), puerto))
}

/// The options of the rack simulator.
#[derive(Debug, Clone, PartialEq, Eq)]
pub struct Opciones {
    /// The interface to listen on.
    pub bind: String,
    /// The port of the first instrument; the others follow.
    pub puerto_base: u16,
    /// Whether the simulation runs on the virtual clock, as fast as it can,
    /// instead of following the wall clock.
    pub reloj_virtual: bool,
}

impl Default for Opciones {
    /// Only the local machine, from port 5025, on the wall clock: opening up
    /// to the network is a deliberate decision, not an accident.
    fn default() -> (r: Self)
        ensures
            r.bind@ == "127.0.0.1"@,
            r.puerto_base == 5025,
            !r.reloj_virtual,
    {
        let mut bind = String::new();
        push_str(&mut bind, "127.0.0.1");
        Opciones { bind, puerto_base: 5025, reloj_virtual: false }
    }
}

/// What the rack simulator was asked to do.
#[derive(Debug, Clone, PartialEq, Eq)]
pub enum Peticion {
    /// Print the help.
    Ayuda,
    /// Print the version.
    Version,
    /// Start the rack with these options.
    Arrancar(Opciones),
}

/// The options after reading the arguments from `i` on, starting from
/// `(bind, port, virtual)`; the first help or version request ends the
/// reading.
pub open spec fn options_from(args: Seq<Seq<char>>, i: int, bind: Seq<char>, port: u16, virt: bool) -> Result<
    (Option<bool>, Seq<char>, u16, bool),
    Seq<char>,
>
    decreases args.len() - i,
{
    if i < 0 || i >= args.len() {
        Ok((None, bind, port, virt))
    } else {
        let a = args[i];
        if a == "-h"@ || a == "--help"@ {
            Ok((Some(true), bind, port, virt))
        } else if a == "-V"@ || a == "--version"@ {
            Ok((Some(false), bind, port, virt))
        } else if a == "--bind"@ {
            if i + 1 >= args.len() {
                Err("--bind necesita una dirección"@)
            } else {
                options_from(args, i + 2, args[i + 1], port, virt)
            }
        } else if a == "--port"@ {
            if i + 1 >= args.len() {
                Err("--port necesita un número"@)
            } else {
                match port_value(args[i + 1]) {
                    None => Err("puerto inválido: "@ + args[i + 1]),
                    Some(p) => options_from(args, i + 2, bind, p, virt),
                }
            }
        } else if a == "--virtual-clock"@ {
            options_from(args, i + 1, bind, port, true)
        } else {
            Err("opción desconocida: "@ + a)
        }
    }
}

/// Reads the command line of the rack simulator, without the program name:
/// `--bind <address>`, `--port <port>` and `--virtual-clock` in any order,
/// the last one of each winning; `-h`/`--help` and `-V`/`--version` ask for
/// the help and the version.
pub fn analizar_argumentos(args: &Vec<String>) -> (r: Result<Peticion, String>)
    ensures
        match options_from(args@.map_values(|s: String| s@), 0, "127.0.0.1"@, 5025, false) {
            Err(m) => r is Err && r->Err_0@ == m,
            Ok((Some(true), _, _, _)) => r == Ok::<Peticion, String>(Peticion::Ayuda),
            Ok((Some(false), _, _, _)) => r == Ok::<Peticion, String>(Peticion::Version),
            Ok((None, b, p, v)) => r matches Ok(Peticion::Arrancar(o)) && o.bind@ == b && o.puerto_base == p
                && o.reloj_virtual == v,
        },
{
    let ghost av = args@.map_values(|s: String| s@);
    let mut opciones = Opciones::default();
    let mut i: usize = 0;
    while i < args.len()
        invariant
            i <= args.len(),
            av == args@.map_values(|s: String| s@),
            options_from(av, 0, "127.0.0.1"@, 5025, false) == options_from(
                av,
                i as int,
                opciones.bind@,
                opciones.puerto_base,
                opciones.reloj_virtual,
            ),
        decreases args.len() - i,
    {
        let a = args[i].as_str();
        assert(a@ == av[i as int]);
        if eq_str(a, "-h") || eq_str(a, "--help") {
            return Ok(Peticion::Ayuda);
        }
        if eq_str(a, "-V") || eq_str(a, "--version") {
            return Ok(Peticion::Version);
        }
        if eq_str(a, "--bind") {
            if i + 1 >= args.len() {
                let mut m = String::new();
                push_str(&mut m, "--bind necesita una dirección");
                return Err(m);
            }
            assert(args[i + 1]@ == av[i + 1]);
            opciones.bind = args[i + 1].clone();
            i += 2;
        } else if eq_str(a, "--port") {
            if i + 1 >= args.len() {
                let mut m = String::new();
                push_str(&mut m, "--port necesita un número");
                return Err(m);
            }
            assert(args[i + 1]@ == av[i + 1]);
            match parse_port(args[i + 1].as_str()) {
                None => {
                    let mut m = String::new();
                    push_str(&mut m, "puerto inválido: ");
                    push_str(&mut m, args[i + 1].as_str());
                    return Err(m);
                },
                Some(p) => {
                    opciones.puerto_base = p;
                },
            }
            i += 2;
        } else if eq_str(a, "--virtual-clock") {
            opciones.reloj_virtual = true;
            i += 1;
        } else {
            let mut m = String::new();
            push_str(&mut m, "opción desconocida: ");
            push_str(&mut m, a);
            return Err(m);
        }
    }
    Ok(Peticion::Arrancar(opciones))
}

/// The lines that present one served instrument: its identity, its VISA
/// resource and how to reach it with netcat.
pub open spec fn instrument_block(ip: Seq<char>, port: u16, idn: Seq<char>) -> Seq<Seq<char>> {
    seq![
        "  "@ + idn,
        "    VISA    TCPIP0::"@ + ip + "::"@ + nat_text(port as nat) + "::SOCKET"@,
        "    netcat  nc "@ + ip + " "@ + nat_text(port as nat),
        Seq::empty(),
    ]
}

/// The blocks of the served instruments, in order.
pub open spec fn instrument_blocks(served: Seq<(Seq<char>, u16, Seq<char>)>) -> Seq<Seq<char>>
    decreases served.len(),
{
    if served.len() == 0 {
        Seq::empty()
    } else {
        instrument_blocks(served.drop_last()) + instrument_block(
            served.last().0,
            served.last().1,
            served.last().2,
        )
    }
}

/// What the simulator prints when it starts: the version, a block per
/// instrument (IP, port, identity), and a first query to try on the first.
pub open spec fn welcome_lines(version: Seq<char>, served: Seq<(Seq<char>, u16, Seq<char>)>) -> Seq<Seq<char>> {
    seq!["InstruSim "@ + version + " — rack simulado en marcha"@, Seq::empty()] + instrument_blocks(served)
        + seq!["Pruébelo:"@] + (if served.len() > 0 {
        seq!["    printf '*IDN?\\n' | nc -q1 "@ + served[0].0 + " "@ + nat_text(served[0].1 as nat)]
    } else {
        Seq::empty()
    }) + seq![Seq::empty(), "Ctrl-C para parar."@]
}

fn port_string(n: u16) -> (s: String)
    ensures
        s@ == nat_text(n as nat),
{
    let mut d: Vec<char> = Vec::new();
    push_nat_text(&mut d, n as u64);
    string_from(&d)
}

/// The lines of [`welcome_lines`], for instruments given as (IP, port,
/// identity).
pub fn lineas_de_bienvenida(version: &str, servidos: &Vec<(String, u16, String)>) -> (r: Vec<String>)
    ensures
        r@.map_values(|l: String| l@) == welcome_lines(
            version@,
            servidos@.map_values(|x: (String, u16, String)| (x.0@, x.1, x.2@)),
        ),
{
    let ghost served = servidos@.map_values(|x: (String, u16, String)| (x.0@, x.1, x.2@));
    let mut lines: Vec<String> = Vec::new();
    let mut first = String::new();
    push_str(&mut first, "InstruSim ");
    push_str(&mut first, version);
    push_str(&mut first, " — rack simulado en marcha");
    lines.push(first);
    lines.push(String::new());
    let ghost head = seq!["InstruSim "@ + version@ + " — rack simulado en marcha"@, Seq::<char>::empty()];
    assert(lines@.map_values(|l: String| l@) =~= head);
    assert(served.take(0) =~= Seq::<(Seq<char>, u16, Seq<char>)>::empty());
    let mut i: usize = 0;
    while i < servidos.len()
        invariant
            i <= servidos.len(),
            served == servidos@.map_values(|x: (String, u16, String)| (x.0@, x.1, x.2@)),
            lines@.map_values(|l: String| l@) == head + instrument_blocks(served.take(i as int)),
        decreases servidos.len() - i,
    {
        let ip = servidos[i].0.as_str();
        let port = port_string(servidos[i].1);
        let mut l1 = String::new();
        push_str(&mut l1, "  ");
        push_str(&mut l1, servidos[i].2.as_str());
        let mut l2 = String::new();
        push_str(&mut l2, "    VISA    TCPIP0::");
        push_str(&mut l2, ip);
        push_str(&mut l2, "::");
        push_str(&mut l2, port.as_str());
        push_str(&mut l2, "::SOCKET");
        let mut l3 = String::new();
        push_str(&mut l3, "    netcat  nc ");
        push_str(&mut l3, ip);
        push_str(&mut l3, " ");
        push_str(&mut l3, port.as_str());
        let ghost before = lines@.map_values(|l: String| l@);
        lines.push(l1);
        lines.push(l2);
        lines.push(l3);
        lines.push(String::new());
        assert(lines@.map_values(|l: String| l@) =~= before + instrument_block(served[i as int].0, served[i as int].1, served[i as int].2));
        assert(served.take(i + 1).drop_last() =~= served.take(i as int));
        assert(served.take(i + 1).last() == served[i as int]);
        i += 1;
    }
    assert(served.take(servidos.len() as int) == served);
    let ghost middle = lines@.map_values(|l: String| l@);
    lines.push(string_from(&chars_of("Pruébelo:")));
    if servidos.len() > 0 {
        let mut l = String::new();
        push_str(&mut l, "    printf '*IDN?\\n' | nc -q1 ");
        push_str(&mut l, servidos[0].0.as_str());
        push_str(&mut l, " ");
        let port = port_string(servidos[0].1);
        push_str(&mut l, port.as_str());
        lines.push(l);
    }
    lines.push(String::new());
    lines.push(string_from(&chars_of("Ctrl-C para parar.")));
    assert(lines@.map_values(|l: String| l@) =~= welcome_lines(version@, served));
    lines
}

} // verus!
