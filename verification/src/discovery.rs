//! A diagnostic portmapper: it answers just enough of the ONC RPC portmapper
//! to find out whether a discovery broadcast reaches a process on this
//! machine, and explains in plain words everything it receives and sends.
//!
//! Discovery tools send a `GETPORT` call to UDP port 111 asking for program
//! 395183 (the VXI-11 core channel). Whoever answers with a port is then
//! called over TCP on that port.
use vstd::prelude::*;
use crate::rpc::{be_bytes, read_u32, read_u32_spec, write_u32, PROC_GETPORT, PROC_NULL, PROG_PORTMAP, PROG_VXI11_CORE};
use crate::text::{nat_text, push_char, push_nat_text, push_str, string_from};

verus! {

/// The port announced as the VXI-11 core channel. The number does not
/// matter: what matters is whether anybody calls.
pub const PUERTO_ANUNCIADO: u16 = 9099;

/// The portmapper procedure that lists the registered programs.
pub const PROC_DUMP: u32 = 4;

/// An RPC call, taken apart.
#[derive(Debug, Clone, Copy, PartialEq, Eq)]
pub struct Llamada {
    pub xid: u32,
    pub prog: u32,
    pub proc_: u32,
    /// The arguments of `GETPORT`, when there are: the program and version
    /// asked for.
    pub pedido: Option<(u32, u32)>,
}

/// What goes back, with its explanation in plain words: in a diagnostic
/// tool, a message that does not say exactly what was sent is worse than no
/// message.
#[derive(Debug, Clone)]
pub struct Respuesta {
    pub bytes: Vec<u8>,
    pub resumen: String,
}

/// `n` rounded up to a multiple of four.
pub open spec fn ceil4(n: u32) -> int {
    ((n as int + 3) / 4) * 4
}

/// Reading an RPC call: transaction id, message type (a call), RPC version
/// 2, program and procedure; then the credentials and the verifier, each a
/// type, a length and data padded to four bytes, are skipped; the arguments
/// of `GETPORT` are the program and version asked for.
pub open spec fn interpret_spec(d: Seq<u8>) -> Option<Llamada> {
    match read_u32_spec(d, 0) {
        None => None,
        Some(xid) => match read_u32_spec(d, 4) {
            None => None,
            Some(m) => if m != 0 {
                None
            } else {
                match read_u32_spec(d, 8) {
                    None => None,
                    Some(v) => if v != 2 {
                        None
                    } else {
                        match (read_u32_spec(d, 12), read_u32_spec(d, 20), read_u32_spec(d, 28)) {
                            (Some(prog), Some(proc_), Some(l1)) => {
                                let i1 = 24 + 8 + ceil4(l1);
                                match read_u32_spec(d, i1 + 4) {
                                    None => None,
                                    Some(l2) => {
                                        let i2 = i1 + 8 + ceil4(l2);
                                        let pedido = match (read_u32_spec(d, i2), read_u32_spec(d, i2 + 4)) {
                                            (Some(p), Some(vers)) => if proc_ == 3 {
                                                Some((p, vers))
                                            } else {
                                                None
                                            },
                                            _ => None,
                                        };
                                        Some(Llamada { xid, prog, proc_, pedido })
                                    },
                                }
                            },
                            _ => None,
                        }
                    },
                }
            },
        },
    }
}

/// A word at a position that may lie beyond the data.
fn leer(d: &[u8], i: u64) -> (r: Option<u32>)
    ensures
        r == read_u32_spec(d@, i as int),
{
    if i > d.len() as u64 {
        return None;
    }
    let mut pos = i as usize;
    read_u32(d, &mut pos)
}

/// Takes an RPC call apart; see [`interpret_spec`]. `None` when it is not a
/// version 2 RPC call that can be read.
pub fn interpretar(d: &[u8]) -> (r: Option<Llamada>)
    ensures
        r == interpret_spec(d@),
{
    let xid = match leer(d, 0) {
        Some(x) => x,
        None => return None,
    };
    match leer(d, 4) {
        Some(m) => if m != 0 {
            return None;
        },
        None => return None,
    }
    match leer(d, 8) {
        Some(v) => if v != 2 {
            return None;
        },
        None => return None,
    }
    let prog = match leer(d, 12) {
        Some(p) => p,
        None => return None,
    };
    let proc_ = match leer(d, 20) {
        Some(p) => p,
        None => return None,
    };
    let l1 = match leer(d, 28) {
        Some(l) => l,
        None => return None,
    };
    let i1: u64 = 24 + 8 + (l1 as u64 + 3) / 4 * 4;
    let l2 = match leer(d, i1 + 4) {
        Some(l) => l,
        None => return None,
    };
    let i2: u64 = i1 + 8 + (l2 as u64 + 3) / 4 * 4;
    let pedido = match (leer(d, i2), leer(d, i2 + 4)) {
        (Some(p), Some(v)) => if proc_ == PROC_GETPORT {
            Some((p, v))
        } else {
            None
        },
        _ => None,
    };
    Some(Llamada { xid, prog, proc_, pedido })
}

/// The name of a portmapper procedure, with what it asks.
pub open spec fn procedure_name(p: u32) -> Seq<char> {
    if p == 0 {
        "NULL (¿estás ahí?)"@
    } else if p == 3 {
        "GETPORT (¿en qué puerto está este programa?)"@
    } else if p == 4 {
        "DUMP (lista de programas registrados)"@
    } else {
        "desconocido"@
    }
}

/// What a call is, in plain words.
pub open spec fn describe_spec(l: Llamada) -> Seq<char> {
    if l.prog != 100000 {
        "llamada RPC al programa "@ + nat_text(l.prog as nat) + " — no es el portmapper, ignorada"@
    } else {
        match l.pedido {
            Some((p, vers)) => if p == 395183 {
                "¡ES LO QUE BUSCÁBAMOS! portmapper · "@ + procedure_name(l.proc_)
                    + "\n  Preguntan por el programa 395183 (canal core de VXI-11), versión "@ + nat_text(
                    vers as nat,
                )
            } else {
                "portmapper · "@ + procedure_name(l.proc_) + "\n  Preguntan por el programa "@ + nat_text(
                    p as nat,
                ) + ", versión "@ + nat_text(vers as nat) + " (no es VXI-11)"@
            },
            None => "portmapper · "@ + procedure_name(l.proc_),
        }
    }
}

/// The head of an accepted reply: the same transaction id, a reply,
/// accepted, an empty `AUTH_NULL` verifier, and success.
pub open spec fn accepted_header(xid: u32) -> Seq<u8> {
    be_bytes(xid) + be_bytes(1) + be_bytes(0) + be_bytes(0) + be_bytes(0) + be_bytes(0)
}

/// The reply to a call, if it gets one: `NULL` gets an empty accepted reply;
/// `GETPORT` gets the announced port when it asks for the VXI-11 core
/// channel and port 0 ("not here") for anything else; nothing else is
/// answered, nor any program but the portmapper.
pub open spec fn reply_spec(l: Llamada) -> Option<(Seq<u8>, Seq<char>)> {
    if l.prog != 100000 {
        None
    } else if l.proc_ == 0 {
        Some((accepted_header(l.xid), "aquí estoy"@))
    } else if l.proc_ == 3 {
        match l.pedido {
            Some((p, _)) => if p == 395183 {
                Some((accepted_header(l.xid) + be_bytes(9099), "VXI-11 está en el puerto 9099"@))
            } else {
                Some((accepted_header(l.xid) + be_bytes(0), "puerto 0 — ese programa no lo tengo"@))
            },
            None => Some((accepted_header(l.xid) + be_bytes(0), "puerto 0 — ese programa no lo tengo"@)),
        }
    } else {
        None
    }
}

impl Llamada {
    /// What the call is, in plain words; see [`describe_spec`].
    pub fn describir(&self) -> (r: String)
        ensures
            r@ == describe_spec(*self),
    {
        let mut out = String::new();
        if self.prog != PROG_PORTMAP {
            push_str(&mut out, "llamada RPC al programa ");
            push_number(&mut out, self.prog);
            push_str(&mut out, " — no es el portmapper, ignorada");
            return out;
        }
        match self.pedido {
            Some((p, vers)) => {
                if p == PROG_VXI11_CORE {
                    push_str(&mut out, "¡ES LO QUE BUSCÁBAMOS! portmapper · ");
                    push_procedure(&mut out, self.proc_);
                    push_str(&mut out, "\n  Preguntan por el programa 395183 (canal core de VXI-11), versión ");
                    push_number(&mut out, vers);
                } else {
                    push_str(&mut out, "portmapper · ");
                    push_procedure(&mut out, self.proc_);
                    push_str(&mut out, "\n  Preguntan por el programa ");
                    push_number(&mut out, p);
                    push_str(&mut out, ", versión ");
                    push_number(&mut out, vers);
                    push_str(&mut out, " (no es VXI-11)");
                }
            },
            None => {
                push_str(&mut out, "portmapper · ");
                push_procedure(&mut out, self.proc_);
            },
        }
        out
    }

    /// The reply to send, if the call gets one; see [`reply_spec`].
    pub fn respuesta(&self) -> (r: Option<Respuesta>)
        ensures
            match reply_spec(*self) {
                None => r is None,
                Some((b, s)) => r is Some && r.unwrap().bytes@ == b && r.unwrap().resumen@ == s,
            },
    {
        if self.prog != PROG_PORTMAP {
            return None;
        }
        if self.proc_ == PROC_NULL {
            let mut resumen = String::new();
            push_str(&mut resumen, "aquí estoy");
            return Some(Respuesta { bytes: self.cabecera_aceptada(), resumen });
        }
        if self.proc_ == PROC_GETPORT {
            let mut bytes = self.cabecera_aceptada();
            let mut resumen = String::new();
            let vxi11 = match self.pedido {
                Some((p, _)) => p == PROG_VXI11_CORE,
                None => false,
            };
            if vxi11 {
                write_u32(&mut bytes, PUERTO_ANUNCIADO as u32);
                push_str(&mut resumen, "VXI-11 está en el puerto 9099");
            } else {
                write_u32(&mut bytes, 0);
                push_str(&mut resumen, "puerto 0 — ese programa no lo tengo");
            }
            return Some(Respuesta { bytes, resumen });
        }
        None
    }

    /// The head of an accepted reply; see [`accepted_header`]. All of it
    /// big-endian and aligned to four bytes, as XDR requires.
    pub fn cabecera_aceptada(&self) -> (r: Vec<u8>)
        ensures
            r@ == accepted_header(self.xid),
    {
        let mut r: Vec<u8> = Vec::new();
        write_u32(&mut r, self.xid);
        write_u32(&mut r, 1);
        write_u32(&mut r, 0);
        write_u32(&mut r, 0);
        write_u32(&mut r, 0);
        write_u32(&mut r, 0);
        assert(r@ =~= accepted_header(self.xid));
        r
    }
}

fn push_number(out: &mut String, n: u32)
    ensures
        final(out)@ == old(out)@ + nat_text(n as nat),
{
    let mut digits: Vec<char> = Vec::new();
    push_nat_text(&mut digits, n as u64);
    let s = string_from(&digits);
    push_str(out, s.as_str());
}

fn push_procedure(out: &mut String, p: u32)
    ensures
        final(out)@ == old(out)@ + procedure_name(p),
{
    if p == PROC_NULL {
        push_str(out, "NULL (¿estás ahí?)");
    } else if p == PROC_GETPORT {
        push_str(out, "GETPORT (¿en qué puerto está este programa?)");
    } else if p == PROC_DUMP {
        push_str(out, "DUMP (lista de programas registrados)");
    } else {
        push_str(out, "desconocido");
    }
}

/// The hexadecimal digits, in lower case.
pub open spec fn hex_digits() -> Seq<char> {
    seq!['0', '1', '2', '3', '4', '5', '6', '7', '8', '9', 'a', 'b', 'c', 'd', 'e', 'f']
}

/// A number in hexadecimal, with no leading zeros.
pub open spec fn hex_text(v: nat) -> Seq<char>
    decreases v,
{
    if v < 16 {
        seq![hex_digits()[v as int]]
    } else {
        hex_text(v / 16).push(hex_digits()[(v % 16) as int])
    }
}

/// `s` with zeros in front up to width `w`.
pub open spec fn zero_pad(s: Seq<char>, w: nat) -> Seq<char> {
    if s.len() >= w {
        s
    } else {
        Seq::new((w - s.len()) as nat, |i: int| '0') + s
    }
}

/// `s` with spaces behind up to width `w`.
pub open spec fn space_pad(s: Seq<char>, w: nat) -> Seq<char> {
    if s.len() >= w {
        s
    } else {
        s + Seq::new((w - s.len()) as nat, |i: int| ' ')
    }
}

/// The bytes in hexadecimal, two digits each, separated by spaces.
pub open spec fn hex_bytes(b: Seq<u8>) -> Seq<char>
    decreases b.len(),
{
    if b.len() == 0 {
        Seq::empty()
    } else if b.len() == 1 {
        zero_pad(hex_text(b[0] as nat), 2)
    } else {
        hex_bytes(b.drop_last()) + seq![' '] + zero_pad(hex_text(b.last() as nat), 2)
    }
}

/// A byte as text: itself when it is printable ASCII, a dot otherwise.
pub open spec fn shown(b: u8) -> char {
    if 0x20 <= b && b < 0x7f {
        b as char
    } else {
        '.'
    }
}

/// One line of a dump: the offset, the bytes in hexadecimal and the bytes
/// as text.
pub open spec fn dump_line(chunk: Seq<u8>, offset: nat) -> Seq<char> {
    "  "@ + zero_pad(hex_text(offset), 4) + "  "@ + space_pad(hex_bytes(chunk), 47) + "  "@
        + chunk.map_values(|b: u8| shown(b))
}

/// The lines of a dump, sixteen bytes each.
pub open spec fn dump_lines(d: Seq<u8>) -> Seq<Seq<char>>
    decreases d.len(),
{
    if d.len() == 0 {
        Seq::empty()
    } else {
        let n = (d.len() - 1) / 16;
        dump_lines(d.take(n * 16)).push(dump_line(d.skip(n * 16), (n * 16) as nat))
    }
}

fn push_hex(out: &mut Vec<char>, v: u64)
    ensures
        final(out)@ == old(out)@ + hex_text(v as nat),
    decreases v,
{
    let digits = vec!['0', '1', '2', '3', '4', '5', '6', '7', '8', '9', 'a', 'b', 'c', 'd', 'e', 'f'];
    assert(digits@ == hex_digits());
    if v < 16 {
        out.push(digits[v as usize]);
    } else {
        push_hex(out, v / 16);
        out.push(digits[(v % 16) as usize]);
    }
}

fn push_padded_hex(out: &mut Vec<char>, v: u64, w: usize)
    ensures
        final(out)@ == old(out)@ + zero_pad(hex_text(v as nat), w as nat),
{
    let mut h: Vec<char> = Vec::new();
    push_hex(&mut h, v);
    assert(h@ == hex_text(v as nat));
    let ghost start = out@;
    if h.len() < w {
        let mut k: usize = 0;
        while k < w - h.len()
            invariant
                h.len() < w,
                k <= w - h.len(),
                out@ == start + Seq::new(k as nat, |i: int| '0'),
            decreases w - h.len() - k,
        {
            out.push('0');
            assert(Seq::new((k + 1) as nat, |i: int| '0') =~= Seq::new(k as nat, |i: int| '0').push('0'));
            k += 1;
        }
    }
    let ghost mid = out@;
    let mut k: usize = 0;
    while k < h.len()
        invariant
            k <= h.len(),
            out@ == mid + h@.take(k as int),
        decreases h.len() - k,
    {
        out.push(h[k]);
        assert(h@.take(k + 1) == h@.take(k as int).push(h@[k as int]));
        k += 1;
    }
    assert(h@.take(h.len() as int) == h@);
    assert(out@ =~= start + zero_pad(hex_text(v as nat), w as nat));
}

fn shown_exec(b: u8) -> (c: char)
    ensures
        c == shown(b),
{
    if 0x20 <= b && b < 0x7f {
        b as char
    } else {
        '.'
    }
}

fn dump_line_exec(chunk: &[u8], offset: u64) -> (r: String)
    ensures
        r@ == dump_line(chunk@, offset as nat),
{
    proof {
        reveal_strlit("  ");
    }
    let mut out: Vec<char> = Vec::new();
    out.push(' ');
    out.push(' ');
    push_padded_hex(&mut out, offset, 4);
    out.push(' ');
    out.push(' ');
    let ghost before_hex = out@;
    assert(before_hex =~= "  "@ + zero_pad(hex_text(offset as nat), 4) + "  "@);
    let start_len = out.len();
    let mut i: usize = 0;
    while i < chunk.len()
        invariant
            i <= chunk.len(),
            out@ == before_hex + hex_bytes(chunk@.take(i as int)),
            start_len == before_hex.len(),
        decreases chunk.len() - i,
    {
        let ghost t = chunk@.take(i + 1);
        assert(t.drop_last() == chunk@.take(i as int));
        assert(t.last() == chunk@[i as int]);
        if i > 0 {
            out.push(' ');
        }
        push_padded_hex(&mut out, chunk[i] as u64, 2);
        assert(i == 0 ==> chunk@.take(i as int).len() == 0 && hex_bytes(chunk@.take(i as int)) =~= Seq::<
            char,
        >::empty());
        i += 1;
    }
    assert(chunk@.take(chunk.len() as int) == chunk@);
    let ghost hex = hex_bytes(chunk@);
    let n_hex = out.len() - start_len;
    assert(n_hex == hex.len());
    if n_hex < 47 {
        let ghost mid = out@;
        let mut k: usize = 0;
        while k < 47 - n_hex
            invariant
                n_hex < 47,
                k <= 47 - n_hex,
                out@ == mid + Seq::new(k as nat, |j: int| ' '),
            decreases 47 - n_hex - k,
        {
            out.push(' ');
            assert(Seq::new((k + 1) as nat, |j: int| ' ') =~= Seq::new(k as nat, |j: int| ' ').push(' '));
            k += 1;
        }
    }
    assert(out@ =~= before_hex + space_pad(hex, 47));
    let ghost after_pad = out@;
    out.push(' ');
    out.push(' ');
    let ghost before_text = out@;
    assert(before_text =~= after_pad + "  "@);
    let mut i: usize = 0;
    while i < chunk.len()
        invariant
            i <= chunk.len(),
            out@ == before_text + chunk@.take(i as int).map_values(|b: u8| shown(b)),
        decreases chunk.len() - i,
    {
        out.push(shown_exec(chunk[i]));
        assert(chunk@.take(i + 1).map_values(|b: u8| shown(b)) =~= chunk@.take(i as int).map_values(
            |b: u8| shown(b),
        ).push(shown(chunk@[i as int])));
        i += 1;
    }
    assert(chunk@.take(chunk.len() as int) == chunk@);
    assert(out@ =~= dump_line(chunk@, offset as nat));
    string_from(&out)
}

/// The bytes in hexadecimal with their text beside them, sixteen to a line,
/// to compare with a network capture if need be; see [`dump_lines`].
pub fn volcar_hex(d: &[u8]) -> (r: Vec<String>)
    ensures
        r@.map_values(|s: String| s@) == dump_lines(d@),
{
    let mut lines: Vec<String> = Vec::new();
    let mut start: usize = 0;
    assert(d@.take(0) =~= Seq::<u8>::empty());
    while start < d.len()
        invariant
            start <= d.len(),
            start % 16 == 0 || start == d.len(),
            lines@.map_values(|s: String| s@) == dump_lines(d@.take(start as int)),
        decreases d.len() - start,
    {
        let end = if d.len() - start > 16 {
            start + 16
        } else {
            d.len()
        };
        let chunk = &d[start..end];
        assert(chunk@ == d@.subrange(start as int, end as int));
        let line = dump_line_exec(chunk, start as u64);
        proof {
            let t = d@.take(end as int);
            let n = (t.len() - 1) / 16;
            assert(n * 16 == start) by (nonlinear_arith)
                requires
                    t.len() == end,
                    start < end <= start + 16,
                    start % 16 == 0,
                    n == (t.len() - 1) / 16,
            ;
            assert(t.take(n * 16) =~= d@.take(start as int));
            assert(t.skip(n * 16) =~= chunk@);
        }
        let ghost before = lines@.map_values(|s: String| s@);
        lines.push(line);
        assert(lines@.map_values(|s: String| s@) =~= before.push(line@));
        start = end;
    }
    assert(d@.take(d.len() as int) == d@);
    lines
}

} // verus!
