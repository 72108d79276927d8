//! Checks and messages of a bench before it starts: where each VXI-11 core
//! channel listens, which instruments would clash, and what to tell the user
//! when a socket will not open.
use vstd::prelude::*;
use crate::banco::{device_name_of, host_or_default_of, Transporte};
use crate::text::{chars_of, eq_chars, nat_text, push_char, push_nat_text, push_str, starts_with, string_from};
use vstd::utf8::encode_utf8;

verus! {

/// The well-known UDP port of the ONC RPC portmapper.
pub const PORTMAPPER_PORT: u16 = 111;

/// One VXI-11 core channel: the address it listens on. There is one per IP
/// address, as on a real bench where every instrument is its own box.
#[derive(Debug, Clone)]
pub struct Vxi11Endpoint {
    pub host: String,
    pub port: u16,
}

/// An instrument as the checks see it: its id and its transport.
pub open spec fn inst_id(i: (String, Transporte)) -> Seq<char> {
    i.0@
}

/// The port of a transport, if it names one.
pub open spec fn port_of(t: Transporte) -> Option<u16> {
    match t {
        Transporte::Tcp { puerto, .. } => puerto,
        Transporte::Vxi11 { puerto, .. } => puerto,
    }
}

/// The port, or zero.
pub open spec fn port_or_zero(t: Transporte) -> u16 {
    match port_of(t) {
        Some(p) => p,
        None => 0,
    }
}

/// The VXI-11 instruments, in order.
pub open spec fn vxi11_only(insts: Seq<(String, Transporte)>) -> Seq<(String, Transporte)>
    decreases insts.len(),
{
    if insts.len() == 0 {
        Seq::empty()
    } else if insts.last().1 is Vxi11 {
        vxi11_only(insts.drop_last()).push(insts.last())
    } else {
        vxi11_only(insts.drop_last())
    }
}

/// The position of the first endpoint with host `h`, if any.
pub open spec fn endpoint_at(eps: Seq<(Seq<char>, u16)>, h: Seq<char>) -> Option<int>
    decreases eps.len(),
{
    if eps.len() == 0 {
        None
    } else {
        match endpoint_at(eps.drop_last(), h) {
            Some(i) => Some(i),
            None => if eps.last().0 == h {
                Some(eps.len() - 1)
            } else {
                None
            },
        }
    }
}

/// The first instrument of `vx` on host `h`.
pub open spec fn first_on_host(vx: Seq<(String, Transporte)>, h: Seq<char>) -> Option<int>
    decreases vx.len(),
{
    if vx.len() == 0 {
        None
    } else {
        match first_on_host(vx.drop_last(), h) {
            Some(i) => Some(i),
            None => if host_or_default_of(vx.last().1) == h {
                Some(vx.len() - 1)
            } else {
                None
            },
        }
    }
}

/// The message for two ports on one VXI-11 IP.
pub open spec fn two_ports_message(first: Seq<char>, second: Seq<char>, host: Seq<char>, p1: u16, p2: u16) -> Seq<char> {
    "'"@ + first + "' y '"@ + second + "' comparten la IP "@ + host + " pero piden puertos distintos ("@
        + nat_text(p1 as nat) + " y "@ + nat_text(p2 as nat)
        + ").\n\nUn recurso TCPIP0::...::INSTR no lleva puerto, así que en una misma IP solo cabe un puerto vxi11 y los instrumentos se distinguen por su 'device'. Dales IPs distintas, o el mismo 'transporte.puerto'."@
}

/// The message for two instruments with one IP and one device name.
pub open spec fn same_device_message(a: Seq<char>, b: Seq<char>, host: Seq<char>, device: Seq<char>) -> Seq<char> {
    "'"@ + a + "' y '"@ + b + "' comparten la IP "@ + host + " y el device '"@ + device
        + "'. Dales IPs distintas (en un banco real cada equipo tiene la suya y todos son 'inst0'), o nombres de device distintos si quieren compartir IP."@
}

/// The endpoints after the first `n` VXI-11 instruments: one per IP, with the
/// port of the first instrument on it; two ports on one IP are an error,
/// since a VISA resource string has no room for a port.
pub open spec fn endpoints_after(vx: Seq<(String, Transporte)>, n: nat) -> Result<Seq<(Seq<char>, u16)>, Seq<char>>
    decreases n,
{
    if n == 0 {
        Ok(Seq::empty())
    } else {
        match endpoints_after(vx, (n - 1) as nat) {
            Err(m) => Err(m),
            Ok(eps) => {
                let inst = vx[n - 1];
                let host = host_or_default_of(inst.1);
                let port = port_or_zero(inst.1);
                match endpoint_at(eps, host) {
                    None => Ok(eps.push((host, port))),
                    Some(k) => if eps[k].1 != port {
                        let primero = vx[first_on_host(vx, host).unwrap()];
                        Err(two_ports_message(inst_id(primero), inst_id(inst), host, eps[k].1, port))
                    } else {
                        Ok(eps)
                    },
                }
            },
        }
    }
}

/// Whether instruments `i` and `j` share an IP and a device name.
pub open spec fn device_clash(vx: Seq<(String, Transporte)>, i: int, j: int) -> bool {
    host_or_default_of(vx[i].1) == host_or_default_of(vx[j].1) && device_name_of(vx[i].1)
        == device_name_of(vx[j].1)
}

/// The first clashing pair, scanning `i` and then `j > i` in order.
pub open spec fn first_clash(vx: Seq<(String, Transporte)>) -> Option<(int, int)> {
    if exists|i: int, j: int| 0 <= i < j < vx.len() && device_clash(vx, i, j) {
        let (i, j) = choose|i: int, j: int|
            0 <= i < j < vx.len() && device_clash(vx, i, j) && (forall|i2: int, j2: int|
                0 <= i2 < j2 < vx.len() && device_clash(vx, i2, j2) ==> i < i2 || (i == i2 && j <= j2));
        Some((i, j))
    } else {
        None
    }
}

/// The VXI-11 endpoints of a bench, or why it cannot be served: two ports
/// on one IP, or two instruments that one IP and one device name would make
/// indistinguishable.
pub open spec fn vxi11_endpoints_spec(insts: Seq<(String, Transporte)>) -> Result<Seq<(Seq<char>, u16)>, Seq<char>> {
    let vx = vxi11_only(insts);
    match endpoints_after(vx, vx.len()) {
        Err(m) => Err(m),
        Ok(eps) => match first_clash(vx) {
            Some((i, j)) => Err(
                same_device_message(
                    inst_id(vx[i]),
                    inst_id(vx[j]),
                    host_or_default_of(vx[i].1),
                    device_name_of(vx[i].1),
                ),
            ),
            None => Ok(eps),
        },
    }
}

pub open spec fn endpoint_views(v: Seq<Vxi11Endpoint>) -> Seq<(Seq<char>, u16)> {
    v.map_values(|e: Vxi11Endpoint| (e.host@, e.port))
}

fn same_text(a: &str, b: &str) -> (r: bool)
    ensures
        r == (a@ == b@),
{
    eq_chars(&chars_of(a), &chars_of(b))
}

fn nat_string(n: u16) -> (s: String)
    ensures
        s@ == nat_text(n as nat),
{
    let mut d: Vec<char> = Vec::new();
    push_nat_text(&mut d, n as u64);
    string_from(&d)
}

/// The instruments picked by a list of positions.
pub open spec fn picked(insts: Seq<(String, Transporte)>, idx: Seq<usize>) -> Seq<(String, Transporte)> {
    idx.map_values(|i: usize| insts[i as int])
}

/// Works out one endpoint per IP address and checks that each could be
/// reached by a VISA client. Empty when the bench has no VXI-11 instrument.
pub fn vxi11_endpoints(instrumentos: &Vec<(String, Transporte)>) -> (r: Result<Vec<Vxi11Endpoint>, String>)
    ensures
        match vxi11_endpoints_spec(instrumentos@) {
            Ok(eps) => r is Ok && endpoint_views(r.unwrap()@) == eps,
            Err(m) => r is Err && r->Err_0@ == m,
        },
{
    let ghost insts = instrumentos@;
    // The VXI-11 instruments, plain TCP ones left alone.
    let mut idx: Vec<usize> = Vec::new();
    let mut k: usize = 0;
    assert(picked(insts, idx@) =~= Seq::<(String, Transporte)>::empty());
    while k < instrumentos.len()
        invariant
            k <= instrumentos.len(),
            insts == instrumentos@,
            picked(insts, idx@) == vxi11_only(insts.take(k as int)),
            forall|j: int| 0 <= j < idx@.len() ==> idx@[j] < k,
        decreases instrumentos.len() - k,
    {
        assert(insts.take(k + 1).drop_last() == insts.take(k as int));
        assert(insts.take(k + 1).last() == insts[k as int]);
        let ghost before = idx@;
        if instrumentos[k].1.is_vxi11() {
            idx.push(k);
            assert(picked(insts, idx@) =~= picked(insts, before).push(insts[k as int]));
        }
        k += 1;
    }
    assert(insts.take(insts.len() as int) == insts);
    let ghost vx = vxi11_only(insts);
    let n = idx.len();
    let mut endpoints: Vec<Vxi11Endpoint> = Vec::new();
    let mut t: usize = 0;
    assert(endpoint_views(endpoints@) =~= Seq::<(Seq<char>, u16)>::empty());
    while t < n
        invariant
            t <= n == idx@.len(),
            insts == instrumentos@,
            vx == picked(insts, idx@),
            vx == vxi11_only(insts),
            forall|j: int| 0 <= j < idx@.len() ==> idx@[j] < insts.len(),
            endpoints_after(vx, t as nat) == Ok::<Seq<(Seq<char>, u16)>, Seq<char>>(endpoint_views(endpoints@)),
            forall|q: int| 0 <= q < endpoints@.len() ==> exists|m: int| 0 <= m < t && #[trigger] host_or_default_of(vx[m].1) == (#[trigger] endpoints@[q]).host@,
        decreases n - t,
    {
        let inst = &instrumentos[idx[t]];
        assert(vx[t as int] == insts[idx@[t as int] as int]);
        let host = inst.1.host_or_default();
        let port: u16 = match inst.1.puerto() {
            Some(p) => p,
            None => 0,
        };
        let ghost eps = endpoint_views(endpoints@);
        // Have we seen this IP already?
        let mut e: usize = 0;
        while e < endpoints.len() && !same_text(endpoints[e].host.as_str(), host)
            invariant
                e <= endpoints@.len(),
                eps == endpoint_views(endpoints@),
                forall|m: int| 0 <= m < e ==> eps[m].0 != host@,
            decreases endpoints.len() - e,
        {
            e += 1;
        }
        proof {
            lemma_endpoint_at(eps, host@, e as int);
        }
        if e == endpoints.len() {
            let ghost before = endpoints@;
            endpoints.push(Vxi11Endpoint { host: host.to_owned(), port });
            assert(endpoint_views(endpoints@) =~= endpoint_views(before).push((host@, port)));
            assert forall|q: int| 0 <= q < endpoints@.len() implies exists|m: int| 0 <= m < t + 1 && #[trigger] host_or_default_of(vx[m].1) == (#[trigger] endpoints@[q]).host@ by {
                if q < before.len() {
                    assert(endpoints@[q] == before[q]);
                } else {
                    assert(host_or_default_of(vx[t as int].1) == endpoints@[q].host@);
                }
            }
        } else if endpoints[e].port != port {
            // A resource string such as TCPIP0::127.0.0.1::inst0::INSTR has
            // no room for a port: one IP means one port.
            let mut f: usize = 0;
            while f < n && !same_text(instrumentos[idx[f]].1.host_or_default(), host)
                invariant
                    f <= n == idx@.len(),
                    insts == instrumentos@,
                    vx == picked(insts, idx@),
                    vx == vxi11_only(insts),
                    forall|j: int| 0 <= j < idx@.len() ==> idx@[j] < insts.len(),
                    forall|m: int| 0 <= m < f ==> host_or_default_of(vx[m].1) != host@,
                decreases n - f,
            {
                assert(vx[f as int] == insts[idx@[f as int] as int]);
                f += 1;
            }
            proof {
                assert(endpoints@[e as int].host@ == host@);
                let m = choose|m: int| 0 <= m < t && #[trigger] host_or_default_of(vx[m].1) == endpoints@[e as int].host@;
                assert(f <= m);
                assert(vx[f as int] == insts[idx@[f as int] as int]);
                lemma_first_on_host(vx, host@, f as int);
            }
            let primero = &instrumentos[idx[f]];
            let mut msg = String::new();
            push_str(&mut msg, "'");
            push_str(&mut msg, primero.0.as_str());
            push_str(&mut msg, "' y '");
            push_str(&mut msg, inst.0.as_str());
            push_str(&mut msg, "' comparten la IP ");
            push_str(&mut msg, endpoints[e].host.as_str());
            push_str(&mut msg, " pero piden puertos distintos (");
            push_str(&mut msg, nat_string(endpoints[e].port).as_str());
            push_str(&mut msg, " y ");
            push_str(&mut msg, nat_string(port).as_str());
            push_str(
                &mut msg,
                ").\n\nUn recurso TCPIP0::...::INSTR no lleva puerto, así que en una misma IP solo cabe un puerto vxi11 y los instrumentos se distinguen por su 'device'. Dales IPs distintas, o el mismo 'transporte.puerto'.",
            );
            proof {
                lemma_endpoints_error_sticks(vx, t as nat + 1);
                assert(msg@ == two_ports_message(inst_id(vx[f as int]), inst_id(vx[t as int]), host@, eps[e as int].1, port));
            }
            return Err(msg);
        }
        t += 1;
    }
    // Within one IP, two instruments answering to one device name would leave
    // one of them unreachable.
    let mut i: usize = 0;
    while i < n
        invariant
            i <= n == idx@.len(),
            insts == instrumentos@,
            vx == picked(insts, idx@),
            vx == vxi11_only(insts),
            forall|j: int| 0 <= j < idx@.len() ==> idx@[j] < insts.len(),
            forall|i2: int, j2: int| 0 <= i2 < i && i2 < j2 < n ==> !device_clash(vx, i2, j2),
            endpoints_after(vx, vx.len()) == Ok::<Seq<(Seq<char>, u16)>, Seq<char>>(endpoint_views(endpoints@)),
        decreases n - i,
    {
        let mut j: usize = i + 1;
        while j < n
            invariant
                i < n == idx@.len(),
                i + 1 <= j <= n,
                insts == instrumentos@,
                vx == picked(insts, idx@),
                vx == vxi11_only(insts),
                endpoints_after(vx, vx.len()) == Ok::<Seq<(Seq<char>, u16)>, Seq<char>>(endpoint_views(endpoints@)),
                forall|q: int| 0 <= q < idx@.len() ==> idx@[q] < insts.len(),
                forall|i2: int, j2: int| 0 <= i2 < i && i2 < j2 < n ==> !device_clash(vx, i2, j2),
                forall|j2: int| i < j2 < j ==> !device_clash(vx, i as int, j2),
            decreases n - j,
        {
            let a = &instrumentos[idx[i]];
            let b = &instrumentos[idx[j]];
            assert(vx[i as int] == insts[idx@[i as int] as int]);
            assert(vx[j as int] == insts[idx@[j as int] as int]);
            let misma_ip = same_text(a.1.host_or_default(), b.1.host_or_default());
            let mismo_device = same_text(a.1.device_name(), b.1.device_name());
            if misma_ip && mismo_device {
                let mut msg = String::new();
                push_str(&mut msg, "'");
                push_str(&mut msg, a.0.as_str());
                push_str(&mut msg, "' y '");
                push_str(&mut msg, b.0.as_str());
                push_str(&mut msg, "' comparten la IP ");
                push_str(&mut msg, a.1.host_or_default());
                push_str(&mut msg, " y el device '");
                push_str(&mut msg, a.1.device_name());
                push_str(
                    &mut msg,
                    "'. Dales IPs distintas (en un banco real cada equipo tiene la suya y todos son 'inst0'), o nombres de device distintos si quieren compartir IP.",
                );
                proof {
                    lemma_first_clash(vx, i as int, j as int);
                    assert(msg@ == same_device_message(inst_id(vx[i as int]), inst_id(vx[j as int]), host_or_default_of(vx[i as int].1), device_name_of(vx[i as int].1)));
                }
                return Err(msg);
            }
            j += 1;
        }
        i += 1;
    }
    proof {
        assert(!(exists|i2: int, j2: int| 0 <= i2 < j2 < vx.len() && device_clash(vx, i2, j2)));
    }
    Ok(endpoints)
}

/// The first endpoint with host `h` is the first position whose host is `h`.
proof fn lemma_endpoint_at(eps: Seq<(Seq<char>, u16)>, h: Seq<char>, e: int)
    requires
        0 <= e <= eps.len(),
        forall|m: int| 0 <= m < e ==> eps[m].0 != h,
        e < eps.len() ==> eps[e].0 == h,
    ensures
        endpoint_at(eps, h) == if e < eps.len() { Some(e) } else { None::<int> },
    decreases eps.len(),
{
    if eps.len() > 0 {
        lemma_endpoint_at(eps.drop_last(), h, if e < eps.len() - 1 { e } else { eps.len() - 1 });
    }
}

/// The first instrument on host `h` is the first position whose host is `h`.
proof fn lemma_first_on_host(vx: Seq<(String, Transporte)>, h: Seq<char>, f: int)
    requires
        0 <= f < vx.len(),
        forall|m: int| 0 <= m < f ==> host_or_default_of(vx[m].1) != h,
        host_or_default_of(vx[f].1) == h,
    ensures
        first_on_host(vx, h) == Some(f),
    decreases vx.len(),
{
    if f < vx.len() - 1 {
        lemma_first_on_host(vx.drop_last(), h, f);
    } else {
        lemma_no_host_before(vx.drop_last(), h);
    }
}

proof fn lemma_no_host_before(vx: Seq<(String, Transporte)>, h: Seq<char>)
    requires
        forall|m: int| 0 <= m < vx.len() ==> host_or_default_of(vx[m].1) != h,
    ensures
        first_on_host(vx, h) is None,
    decreases vx.len(),
{
    if vx.len() > 0 {
        lemma_no_host_before(vx.drop_last(), h);
    }
}

/// Once the endpoints fail after some instruments, they fail for all.
proof fn lemma_endpoints_error_sticks(vx: Seq<(String, Transporte)>, t: nat)
    requires
        t <= vx.len(),
        endpoints_after(vx, t) is Err,
    ensures
        endpoints_after(vx, vx.len()) == endpoints_after(vx, t),
    decreases vx.len() - t,
{
    if t < vx.len() {
        lemma_endpoints_error_sticks(vx, t + 1);
    }
}

/// The pair found by scanning in order is the first clash.
proof fn lemma_first_clash(vx: Seq<(String, Transporte)>, i: int, j: int)
    requires
        0 <= i < j < vx.len(),
        device_clash(vx, i, j),
        forall|i2: int, j2: int| 0 <= i2 < i && i2 < j2 < vx.len() ==> !device_clash(vx, i2, j2),
        forall|j2: int| i < j2 < j ==> !device_clash(vx, i, j2),
    ensures
        first_clash(vx) == Some((i, j)),
{
    let (a, b) = choose|a: int, b: int|
        0 <= a < b < vx.len() && device_clash(vx, a, b) && (forall|i2: int, j2: int|
            0 <= i2 < j2 < vx.len() && device_clash(vx, i2, j2) ==> a < i2 || (a == i2 && b <= j2));
    assert(forall|i2: int, j2: int|
        0 <= i2 < j2 < vx.len() && device_clash(vx, i2, j2) ==> i < i2 || (i == i2 && j <= j2));
    assert(0 <= a < b < vx.len() && device_clash(vx, a, b));
    assert(a < i || (a == i && b <= j));
    assert(i < a || (i == a && j <= b));
}

/// Whether instruments `i` and `j` would listen on one address: the same
/// port (or both none) on the same host, unless both are VXI-11, which are
/// told apart by their device name instead.
pub open spec fn address_clash(insts: Seq<(String, Transporte)>, i: int, j: int) -> bool {
    !(insts[i].1 is Vxi11 && insts[j].1 is Vxi11) && port_of(insts[i].1) == port_of(insts[j].1)
        && host_or_default_of(insts[i].1) == host_or_default_of(insts[j].1)
}

/// The message for two instruments on one address.
pub open spec fn same_address_message(a: Seq<char>, b: Seq<char>, host: Seq<char>, port: u16) -> Seq<char> {
    "'"@ + a + "' y '"@ + b + "' usan los dos "@ + host + ":"@ + nat_text(port as nat)
        + "; cada instrumento necesita su puerto"@
}

/// The first pair of instruments on one address, scanning `i` and then
/// `j > i` in order.
pub open spec fn first_address_clash(insts: Seq<(String, Transporte)>) -> Option<(int, int)> {
    if exists|i: int, j: int| 0 <= i < j < insts.len() && address_clash(insts, i, j) {
        let (i, j) = choose|i: int, j: int|
            0 <= i < j < insts.len() && address_clash(insts, i, j) && (forall|i2: int, j2: int|
                0 <= i2 < j2 < insts.len() && address_clash(insts, i2, j2) ==> i < i2 || (i == i2 && j
                    <= j2));
        Some((i, j))
    } else {
        None
    }
}

/// Two instruments on one address: the second could not listen. Better to
/// say so with their names than to let the system say "address in use".
pub fn comprobar_puertos_unicos(instrumentos: &Vec<(String, Transporte)>) -> (r: Result<(), String>)
    ensures
        match first_address_clash(instrumentos@) {
            None => r is Ok,
            Some((i, j)) => r matches Err(m) && m@ == same_address_message(
                inst_id(instrumentos@[i]),
                inst_id(instrumentos@[j]),
                host_or_default_of(instrumentos@[i].1),
                port_or_zero(instrumentos@[i].1),
            ),
        },
{
    let ghost insts = instrumentos@;
    let n = instrumentos.len();
    let mut i: usize = 0;
    while i < n
        invariant
            i <= n == insts.len(),
            insts == instrumentos@,
            forall|i2: int, j2: int| 0 <= i2 < i && i2 < j2 < n ==> !address_clash(insts, i2, j2),
        decreases n - i,
    {
        let mut j: usize = i + 1;
        while j < n
            invariant
                i < n == insts.len(),
                i + 1 <= j <= n,
                insts == instrumentos@,
                forall|i2: int, j2: int| 0 <= i2 < i && i2 < j2 < n ==> !address_clash(insts, i2, j2),
                forall|j2: int| i < j2 < j ==> !address_clash(insts, i as int, j2),
            decreases n - j,
        {
            let a = &instrumentos[i];
            let b = &instrumentos[j];
            let both_vxi11 = a.1.is_vxi11() && b.1.is_vxi11();
            if !both_vxi11 && a.1.puerto() == b.1.puerto() && same_text(
                a.1.host_or_default(),
                b.1.host_or_default(),
            ) {
                let port: u16 = match a.1.puerto() {
                    Some(p) => p,
                    None => 0,
                };
                let mut msg = String::new();
                push_str(&mut msg, "'");
                push_str(&mut msg, a.0.as_str());
                push_str(&mut msg, "' y '");
                push_str(&mut msg, b.0.as_str());
                push_str(&mut msg, "' usan los dos ");
                push_str(&mut msg, a.1.host_or_default());
                push_str(&mut msg, ":");
                push_str(&mut msg, nat_string(port).as_str());
                push_str(&mut msg, "; cada instrumento necesita su puerto");
                proof {
                    lemma_first_address_clash(insts, i as int, j as int);
                }
                return Err(msg);
            }
            j += 1;
        }
        i += 1;
    }
    Ok(())
}

proof fn lemma_first_address_clash(insts: Seq<(String, Transporte)>, i: int, j: int)
    requires
        0 <= i < j < insts.len(),
        address_clash(insts, i, j),
        forall|i2: int, j2: int| 0 <= i2 < i && i2 < j2 < insts.len() ==> !address_clash(insts, i2, j2),
        forall|j2: int| i < j2 < j ==> !address_clash(insts, i, j2),
    ensures
        first_address_clash(insts) == Some((i, j)),
{
    let (a, b) = choose|a: int, b: int|
        0 <= a < b < insts.len() && address_clash(insts, a, b) && (forall|i2: int, j2: int|
            0 <= i2 < j2 < insts.len() && address_clash(insts, i2, j2) ==> a < i2 || (a == i2 && b <= j2));
    assert(forall|i2: int, j2: int|
        0 <= i2 < j2 < insts.len() && address_clash(insts, i2, j2) ==> i < i2 || (i == i2 && j <= j2));
    assert(0 <= a < b < insts.len() && address_clash(insts, a, b));
    assert(a < i || (a == i && b <= j));
    assert(i < a || (i == a && j <= b));
}

/// The note added when a loopback address other than 127.0.0.1 will not
/// open: on Linux every 127.x.x.x is local, on Windows only 127.0.0.1 answers.
pub open spec fn loopback_hint(host: Seq<char>) -> Seq<char> {
    if starts_with(host, "127."@) && host != "127.0.0.1"@ {
        "\n\nNota: "@ + host
            + " es una IP de loopback distinta de 127.0.0.1. En Linux funcionan todas sin configurar nada, pero Windows solo atiende 127.0.0.1. Si estás en Windows, usa 127.0.0.1 con un puerto por instrumento."@
    } else {
        Seq::empty()
    }
}

pub fn loopback_ip_hint(host: &str) -> (r: String)
    ensures
        r@ == loopback_hint(host@),
{
    let h = chars_of(host);
    let p = chars_of("127.");
    let mut starts = h.len() >= p.len();
    if starts {
        let head = crate::text::slice_vec(&h, 0, p.len());
        starts = eq_chars(&head, &p);
        assert(head@ == h@.take(p@.len() as int));
    }
    let mut out = String::new();
    if starts && !same_text(host, "127.0.0.1") {
        push_str(&mut out, "\n\nNota: ");
        push_str(&mut out, host);
        push_str(
            &mut out,
            " es una IP de loopback distinta de 127.0.0.1. En Linux funcionan todas sin configurar nada, pero Windows solo atiende 127.0.0.1. Si estás en Windows, usa 127.0.0.1 con un puerto por instrumento.",
        );
    } else {
        assert(out@ =~= Seq::<char>::empty());
    }
    out
}

/// The same wording for any socket that will not open, because the cause and
/// the remedy are always the same; `error` is the text of the failure.
pub open spec fn cannot_listen_text(quien: Seq<char>, host: Seq<char>, puerto: u16, error: Seq<char>) -> Seq<char> {
    "'"@ + quien + "' no puede escuchar en "@ + host + ":"@ + nat_text(puerto as nat) + " ("@ + error
        + "). ¿Hay otro programa, u otro Crucible, usando ese puerto?"@ + loopback_hint(host)
}

pub fn cannot_listen_message(quien: &str, host: &str, puerto: u16, error: &str) -> (r: String)
    ensures
        r@ == cannot_listen_text(quien@, host@, puerto, error@),
{
    let mut out = String::new();
    push_str(&mut out, "'");
    push_str(&mut out, quien);
    push_str(&mut out, "' no puede escuchar en ");
    push_str(&mut out, host);
    push_str(&mut out, ":");
    push_str(&mut out, nat_string(puerto).as_str());
    push_str(&mut out, " (");
    push_str(&mut out, error);
    push_str(&mut out, "). ¿Hay otro programa, u otro Crucible, usando ese puerto?");
    push_str(&mut out, loopback_ip_hint(host).as_str());
    out
}

/// Why the portmapper will not open and what to do about it. The loopback
/// note is added only when the failure is not a permission error, where it
/// would hide the real remedy.
pub open spec fn portmapper_failure_text(host: Seq<char>, error: Seq<char>, permission_denied: bool) -> Seq<char> {
    "no puedo abrir el portmapper en "@ + host + ":111 ("@ + error
        + ").\n\nVXI-11 lo necesita: un recurso TCPIP0::…::INSTR no lleva puerto, así que el cliente pregunta al portmapper de esa IP por dónde escucha el instrumento. Sin él, no lo encuentra nadie.\n\nEl puerto 111 es privilegiado. En Linux, dale el permiso una vez:\n  sudo setcap 'cap_net_bind_service=+ep' <ruta del ejecutable>\no arranca con sudo. Comprueba también que no lo tenga ya rpcbind:\n  sudo ss -lunp | grep :111"@
        + if permission_denied { Seq::empty() } else { loopback_hint(host) }
}

pub fn portmapper_failure_message(host: &str, error: &str, permission_denied: bool) -> (r: String)
    ensures
        r@ == portmapper_failure_text(host@, error@, permission_denied),
{
    let mut out = String::new();
    push_str(&mut out, "no puedo abrir el portmapper en ");
    push_str(&mut out, host);
    push_str(&mut out, ":111 (");
    push_str(&mut out, error);
    push_str(
        &mut out,
        ").\n\nVXI-11 lo necesita: un recurso TCPIP0::…::INSTR no lleva puerto, así que el cliente pregunta al portmapper de esa IP por dónde escucha el instrumento. Sin él, no lo encuentra nadie.\n\nEl puerto 111 es privilegiado. En Linux, dale el permiso una vez:\n  sudo setcap 'cap_net_bind_service=+ep' <ruta del ejecutable>\no arranca con sudo. Comprueba también que no lo tenga ya rpcbind:\n  sudo ss -lunp | grep :111",
    );
    if !permission_denied {
        push_str(&mut out, loopback_ip_hint(host).as_str());
    } else {
        assert(out@ + Seq::<char>::empty() =~= out@);
    }
    out
}

/// The address to listen on: IPv6 literals go between brackets.
pub open spec fn address_text(bind: Seq<char>, puerto: u16) -> Seq<char> {
    if bind.contains(':') && !(bind.len() > 0 && bind[0] == '[') {
        seq!['['] + bind + "]:"@ + nat_text(puerto as nat)
    } else {
        bind + ":"@ + nat_text(puerto as nat)
    }
}

pub fn formato_direccion(bind: &str, puerto: u16) -> (r: String)
    ensures
        r@ == address_text(bind@, puerto),
{
    let b = chars_of(bind);
    let mut colon = false;
    let mut i: usize = 0;
    while i < b.len()
        invariant
            i <= b.len(),
            colon == b@.take(i as int).contains(':'),
        decreases b.len() - i,
    {
        proof {
            if b@.take(i as int).contains(':') {
                let k = choose|k: int| 0 <= k < i && b@.take(i as int)[k] == ':';
                assert(b@.take(i + 1)[k] == ':');
            }
        }
        if b[i] == ':' {
            colon = true;
            assert(b@.take(i + 1)[i as int] == ':');
        } else {
            assert forall|k: int| 0 <= k < i + 1 && #[trigger] b@.take(i + 1)[k] == ':' implies b@.take(i as int).contains(':') by {
                assert(b@.take(i as int)[k] == ':');
            }
        }
        i += 1;
    }
    assert(b@.take(b.len() as int) == b@);
    let mut out = String::new();
    if colon && !(b.len() > 0 && b[0] == '[') {
        push_str(&mut out, "[");
        push_str(&mut out, bind);
        push_str(&mut out, "]:");
        proof {
            reveal_strlit("[");
        }
    } else {
        push_str(&mut out, bind);
        push_str(&mut out, ":");
    }
    push_str(&mut out, nat_string(puerto).as_str());
    out
}

/// A line as received over plain TCP: without its trailing line breaks, or
/// `None` when nothing is left.
pub open spec fn received_message(line: Seq<char>) -> Option<Seq<char>> {
    let m = crate::vxi11::strip_line_end(line);
    if m.len() == 0 {
        None
    } else {
        Some(m)
    }
}

/// The message a received line carries; see [`received_message`].
pub fn mensaje_de_linea(line: &str) -> (r: Option<String>)
    ensures
        match received_message(line@) {
            None => r is None,
            Some(m) => r is Some && r.unwrap()@ == m,
        },
{
    let t = chars_of(line);
    let mut j: usize = t.len();
    assert(t@.take(j as int) == t@);
    while j > 0 && (t[j - 1] == '\r' || t[j - 1] == '\n')
        invariant
            j <= t.len(),
            crate::vxi11::strip_line_end(t@) == crate::vxi11::strip_line_end(t@.take(j as int)),
        decreases j,
    {
        assert(t@.take(j as int).drop_last() == t@.take(j - 1));
        j -= 1;
    }
    if j == 0 {
        return None;
    }
    Some(string_from(&crate::text::slice_vec(&t, 0, j)))
}

/// `s` padded with spaces up to `w` characters.
pub open spec fn pad_to(s: Seq<char>, w: nat) -> Seq<char> {
    if s.len() >= w {
        s
    } else {
        s + Seq::new((w - s.len()) as nat, |i: int| ' ')
    }
}

/// The widest of the texts, counted in bytes, and at least `floor`.
pub open spec fn widest(texts: Seq<Seq<char>>, floor: nat) -> nat
    decreases texts.len(),
{
    if texts.len() == 0 {
        floor
    } else {
        let w = widest(texts.drop_last(), floor);
        if encode_utf8(texts.last()).len() > w {
            encode_utf8(texts.last()).len()
        } else {
            w
        }
    }
}

/// The table of the instruments of a bench: a blank line, the header, and a
/// line per instrument with its id, its model and its VISA resource. The
/// columns are as wide as their widest entry (in bytes), and never narrower
/// than their heading.
pub open spec fn table_lines(rows: Seq<(Seq<char>, Seq<char>, Seq<char>)>) -> Seq<Seq<char>> {
    let wi = widest(rows.map_values(|r: (Seq<char>, Seq<char>, Seq<char>)| r.0), 2);
    let wm = widest(rows.map_values(|r: (Seq<char>, Seq<char>, Seq<char>)| r.1), 6);
    seq![Seq::empty(), "  "@ + pad_to("ID"@, wi) + "  "@ + pad_to("MODELO"@, wm) + "  RECURSO VISA"@]
        + rows.map_values(
        |r: (Seq<char>, Seq<char>, Seq<char>)| "  "@ + pad_to(r.0, wi) + "  "@ + pad_to(r.1, wm) + "  "@ + r.2,
    )
}

fn push_padded(out: &mut String, s: &str, w: usize)
    ensures
        final(out)@ == old(out)@ + pad_to(s@, w as nat),
{
    let n = chars_of(s).len();
    push_str(out, s);
    if n < w {
        let ghost mid = out@;
        let mut k: usize = 0;
        while k < w - n
            invariant
                n < w,
                n == s@.len(),
                k <= w - n,
                out@ == mid + Seq::new(k as nat, |i: int| ' '),
            decreases w - n - k,
        {
            push_char(out, ' ');
            assert(Seq::new((k + 1) as nat, |i: int| ' ') =~= Seq::new(k as nat, |i: int| ' ').push(' '));
            k += 1;
        }
    }
}

/// The ids (`first`) or the models of the table's rows.
spec fn column(rows: Seq<(String, String, String)>, first: bool) -> Seq<Seq<char>> {
    rows.map_values(|t: (String, String, String)| if first { t.0@ } else { t.1@ })
}

fn widest_exec(texts: &Vec<(String, String, String)>, first: bool, floor: usize) -> (r: usize)
    ensures
        r == widest(column(texts@, first), floor as nat),
{
    let ghost col = column(texts@, first);
    let mut w = floor;
    let mut i: usize = 0;
    assert(col.take(0) =~= Seq::<Seq<char>>::empty());
    while i < texts.len()
        invariant
            i <= texts.len(),
            col == column(texts@, first),
            w == widest(col.take(i as int), floor as nat),
        decreases texts.len() - i,
    {
        let n = if first {
            texts[i].0.as_str().as_bytes().len()
        } else {
            texts[i].1.as_str().as_bytes().len()
        };
        assert(col.take(i + 1).drop_last() == col.take(i as int));
        assert(col.take(i + 1).last() == col[i as int]);
        if n > w {
            w = n;
        }
        i += 1;
    }
    assert(col.take(texts.len() as int) == col);
    w
}

/// The lines of the table of a bench's instruments, given as (id, model,
/// VISA resource); see [`table_lines`].
pub fn lineas_de_tabla(filas: &Vec<(String, String, String)>) -> (r: Vec<String>)
    ensures
        r@.map_values(|s: String| s@) == table_lines(
            filas@.map_values(|f: (String, String, String)| (f.0@, f.1@, f.2@)),
        ),
{
    let ghost rows = filas@.map_values(|f: (String, String, String)| (f.0@, f.1@, f.2@));
    let wi = widest_exec(filas, true, 2);
    let wm = widest_exec(filas, false, 6);
    assert(column(filas@, true) =~= rows.map_values(|r: (Seq<char>, Seq<char>, Seq<char>)| r.0));
    assert(column(filas@, false) =~= rows.map_values(|r: (Seq<char>, Seq<char>, Seq<char>)| r.1));
    assert(wi == widest(rows.map_values(|r: (Seq<char>, Seq<char>, Seq<char>)| r.0), 2));
    assert(wm == widest(rows.map_values(|r: (Seq<char>, Seq<char>, Seq<char>)| r.1), 6));
    let mut lines: Vec<String> = Vec::new();
    lines.push(String::new());
    let mut cabecera = String::new();
    push_str(&mut cabecera, "  ");
    push_padded(&mut cabecera, "ID", wi);
    push_str(&mut cabecera, "  ");
    push_padded(&mut cabecera, "MODELO", wm);
    push_str(&mut cabecera, "  RECURSO VISA");
    lines.push(cabecera);
    let ghost head = seq![Seq::<char>::empty(), "  "@ + pad_to("ID"@, wi as nat) + "  "@ + pad_to("MODELO"@, wm as nat)
        + "  RECURSO VISA"@];
    assert(lines@.map_values(|s: String| s@) =~= head);
    let mut i: usize = 0;
    while i < filas.len()
        invariant
            i <= filas.len(),
            rows == filas@.map_values(|f: (String, String, String)| (f.0@, f.1@, f.2@)),
            wi == widest(rows.map_values(|r: (Seq<char>, Seq<char>, Seq<char>)| r.0), 2),
            wm == widest(rows.map_values(|r: (Seq<char>, Seq<char>, Seq<char>)| r.1), 6),
            lines@.map_values(|s: String| s@) == head + rows.take(i as int).map_values(
                |r: (Seq<char>, Seq<char>, Seq<char>)| "  "@ + pad_to(r.0, wi as nat) + "  "@ + pad_to(r.1, wm as nat)
                    + "  "@ + r.2,
            ),
        decreases filas.len() - i,
    {
        let mut l = String::new();
        push_str(&mut l, "  ");
        push_padded(&mut l, filas[i].0.as_str(), wi);
        push_str(&mut l, "  ");
        push_padded(&mut l, filas[i].1.as_str(), wm);
        push_str(&mut l, "  ");
        push_str(&mut l, filas[i].2.as_str());
        let ghost before = lines@.map_values(|s: String| s@);
        lines.push(l);
        assert(rows.take(i + 1) =~= rows.take(i as int).push(rows[i as int]));
        assert(lines@.map_values(|s: String| s@) =~= before.push(l@));
        assert(rows.take(i + 1).map_values(
            |r: (Seq<char>, Seq<char>, Seq<char>)| "  "@ + pad_to(r.0, wi as nat) + "  "@ + pad_to(r.1, wm as nat)
                + "  "@ + r.2,
        ) =~= rows.take(i as int).map_values(
            |r: (Seq<char>, Seq<char>, Seq<char>)| "  "@ + pad_to(r.0, wi as nat) + "  "@ + pad_to(r.1, wm as nat)
                + "  "@ + r.2,
        ).push("  "@ + pad_to(rows[i as int].0, wi as nat) + "  "@ + pad_to(rows[i as int].1, wm as nat) + "  "@
            + rows[i as int].2));
        i += 1;
    }
    assert(rows.take(filas.len() as int) == rows);
    lines
}

} // verus!
