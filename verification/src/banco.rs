//! A bench: the devices it serves and how each is reached.
use vstd::prelude::*;
use std::collections::HashMap;
use crate::text::{chars_of, eq_chars, lower_vec, nat_text, push_nat_text, push_str, string_from};

verus! {

/// A bench as its file describes it.
#[derive(Debug, Clone)]
pub struct Banco {
    pub banco: BancoDef,
}

/// The body of a bench: its name and its devices.
#[derive(Debug, Clone)]
pub struct BancoDef {
    pub nombre: String,
    pub dispositivos: Vec<InstanciaDispositivo>,
}

/// One device of a bench: its id, the profile it follows, how it is reached
/// and the state it starts with, overriding the profile's.
#[derive(Debug, Clone)]
pub struct InstanciaDispositivo {
    pub id: String,
    pub perfil: String,
    pub transporte: Transporte,
    pub estado_inicial: Option<HashMap<String, String>>,
}

/// How a device is reached.
#[derive(Debug, Clone)]
pub enum Transporte {
    Tcp { host: Option<String>, puerto: Option<u16> },
    Vxi11 { host: Option<String>, puerto: Option<u16>, device: Option<String> },
}

/// The text of an optional string.
pub open spec fn opt_text(o: Option<String>) -> Option<Seq<char>> {
    match o {
        Some(s) => Some(s@),
        None => None,
    }
}

/// The host a transport names, if any.
pub open spec fn host_of(t: Transporte) -> Option<Seq<char>> {
    match t {
        Transporte::Tcp { host, .. } => opt_text(host),
        Transporte::Vxi11 { host, .. } => opt_text(host),
    }
}

/// The host, or the loopback address when none is given.
pub open spec fn host_or_default_of(t: Transporte) -> Seq<char> {
    match host_of(t) {
        Some(h) => h,
        None => "127.0.0.1"@,
    }
}

/// The VXI-11 device name: the one given, or `inst0`; plain TCP has none.
pub open spec fn device_name_of(t: Transporte) -> Seq<char> {
    match t {
        Transporte::Vxi11 { device, .. } => match opt_text(device) {
            Some(d) => d,
            None => "inst0"@,
        },
        Transporte::Tcp { .. } => Seq::empty(),
    }
}

/// The VISA resource string of a transport.
pub open spec fn resource_of(t: Transporte) -> Seq<char> {
    match t {
        Transporte::Tcp { puerto, .. } => "TCPIP0::"@ + host_or_default_of(t) + "::"@ + nat_text(
            match puerto {
                Some(p) => p as nat,
                None => 5025,
            },
        ) + "::SOCKET"@,
        Transporte::Vxi11 { .. } => "TCPIP0::"@ + host_or_default_of(t) + "::"@ + device_name_of(t)
            + "::INSTR"@,
    }
}

/// The transport a bench file declares, from its `tipo` (in any case) and
/// its fields; an unknown `tipo` is the error message.
pub open spec fn transport_kind(tipo: Seq<char>) -> Option<bool> {
    let t = crate::text::lower(tipo);
    if t == "tcp"@ {
        Some(false)
    } else if t == "vxi11"@ || t == "vxi-11"@ || t == "vxi_11"@ {
        Some(true)
    } else {
        None
    }
}

/// The message for an unknown transport type.
pub open spec fn unknown_transport_message(tipo: Seq<char>) -> Seq<char> {
    "transporte tipo desconocido '"@ + crate::text::lower(tipo) + "'; esperaba 'tcp' o 'vxi11'"@
}

impl Transporte {
    pub fn host(&self) -> (r: Option<&str>)
        ensures
            match host_of(*self) {
                Some(h) => r is Some && r.unwrap()@ == h,
                None => r is None,
            },
    {
        match self {
            Transporte::Tcp { host, .. } => match host {
                Some(h) => Some(h.as_str()),
                None => None,
            },
            Transporte::Vxi11 { host, .. } => match host {
                Some(h) => Some(h.as_str()),
                None => None,
            },
        }
    }

    pub fn host_or_default(&self) -> (r: &str)
        ensures
            r@ == host_or_default_of(*self),
    {
        match self.host() {
            Some(h) => h,
            None => "127.0.0.1",
        }
    }

    pub fn puerto(&self) -> (r: Option<u16>)
        ensures
            r == match *self {
                Transporte::Tcp { puerto, .. } => puerto,
                Transporte::Vxi11 { puerto, .. } => puerto,
            },
    {
        match self {
            Transporte::Tcp { puerto, .. } => *puerto,
            Transporte::Vxi11 { puerto, .. } => *puerto,
        }
    }

    pub fn is_vxi11(&self) -> (r: bool)
        ensures
            r == (*self is Vxi11),
    {
        match self {
            Transporte::Vxi11 { .. } => true,
            Transporte::Tcp { .. } => false,
        }
    }

    pub fn device_name(&self) -> (r: &str)
        ensures
            r@ == device_name_of(*self),
    {
        match self {
            Transporte::Vxi11 { device, .. } => match device {
                Some(d) => d.as_str(),
                None => "inst0",
            },
            Transporte::Tcp { .. } => {
                proof {
                    reveal_strlit("");
                }
                ""
            },
        }
    }

    /// The VISA resource string.
    pub fn resource_string(&self) -> (r: String)
        ensures
            r@ == resource_of(*self),
    {
        let host = self.host_or_default();
        let mut out = String::new();
        push_str(&mut out, "TCPIP0::");
        push_str(&mut out, host);
        push_str(&mut out, "::");
        match self {
            Transporte::Tcp { puerto, .. } => {
                let p: u16 = match puerto {
                    Some(p) => *p,
                    None => 5025,
                };
                let mut digits: Vec<char> = Vec::new();
                push_nat_text(&mut digits, p as u64);
                let ds = string_from(&digits);
                push_str(&mut out, ds.as_str());
                push_str(&mut out, "::SOCKET");
            },
            Transporte::Vxi11 { .. } => {
                push_str(&mut out, self.device_name());
                push_str(&mut out, "::INSTR");
            },
        }
        out
    }

    /// The transport of a bench file, from the fields it may carry: `tcp`
    /// or `vxi11` (also written `vxi-11` or `vxi_11`), in any case; any other
    /// type is refused with a message.
    pub fn from_raw(tipo: &str, host: Option<String>, puerto: Option<u16>, device: Option<String>) -> (r: Result<Transporte, String>)
        ensures
            match transport_kind(tipo@) {
                Some(false) => r matches Ok(Transporte::Tcp { host: h, puerto: p }) && opt_text(h) == opt_text(host)
                    && p == puerto,
                Some(true) => r matches Ok(Transporte::Vxi11 { host: h, puerto: p, device: d })
                    && opt_text(h) == opt_text(host) && p == puerto && opt_text(d) == opt_text(device),
                None => r matches Err(m) && m@ == unknown_transport_message(tipo@),
            },
    {
        let t = lower_vec(&chars_of(tipo));
        if eq_chars(&t, &chars_of("tcp")) {
            Ok(Transporte::Tcp { host, puerto })
        } else if eq_chars(&t, &chars_of("vxi11")) || eq_chars(&t, &chars_of("vxi-11")) || eq_chars(
            &t,
            &chars_of("vxi_11"),
        ) {
            Ok(Transporte::Vxi11 { host, puerto, device })
        } else {
            let mut msg = String::new();
            push_str(&mut msg, "transporte tipo desconocido '");
            let ts = string_from(&t);
            push_str(&mut msg, ts.as_str());
            push_str(&mut msg, "'; esperaba 'tcp' o 'vxi11'");
            Err(msg)
        }
    }
}

} // verus!
