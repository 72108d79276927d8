//! Minimal ONC RPC portmapper (program 100000).
//!
//! A VISA client given `TCPIP0::host::inst0::INSTR` has no port to connect
//! to, so it first asks the portmapper which TCP port serves program 395183.
//! Only `GETPORT` matters; every answer points at the single core port of the
//! bank.
use vstd::prelude::*;
use crate::rpc::{
    be_bytes, parse_call, parse_call_spec, read_u32, read_u32_spec, reply_header, write_reply_header,
    write_u32, PROC_GETPORT, PROC_NULL, PROG_PORTMAP, PROG_VXI11_CORE,
};

verus! {

/// The reply to a portmapper request, or `None` when there is nothing to
/// answer: a call that does not parse, one for another program, or a
/// `GETPORT` whose four arguments are not all there.
pub open spec fn portmap_spec(data: Seq<u8>, vxi_port: u16) -> Option<Seq<u8>> {
    match parse_call_spec(data) {
        None => None,
        Some((xid, prog, _vers, proc_, off)) => if prog != PROG_PORTMAP {
            None
        } else if proc_ == PROC_NULL {
            Some(reply_header(xid))
        } else if proc_ == PROC_GETPORT {
            let p = off as int;
            match (
                read_u32_spec(data, p),
                read_u32_spec(data, p + 4),
                read_u32_spec(data, p + 8),
                read_u32_spec(data, p + 12),
            ) {
                (Some(req_prog), Some(_), Some(_), Some(_)) => Some(
                    reply_header(xid) + be_bytes(
                        if req_prog == PROG_VXI11_CORE {
                            vxi_port as u32
                        } else {
                            0
                        },
                    ),
                ),
                _ => None,
            }
        } else {
            // DUMP and the rest: port 0.
            Some(reply_header(xid) + be_bytes(0))
        },
    }
}

/// Answers one portmapper request, always pointing at `vxi_port` for the
/// VXI-11 core program.
pub fn handle_portmap_request(data: &[u8], vxi_port: u16) -> (r: Option<Vec<u8>>)
    ensures
        match portmap_spec(data@, vxi_port) {
            Some(b) => r is Some && r.unwrap()@ == b,
            None => r is None,
        },
{
    let (xid, prog, _vers, proc_, off) = match parse_call(data) {
        Some(c) => c,
        None => return None,
    };
    if prog != PROG_PORTMAP {
        return None;
    }
    if proc_ == PROC_NULL {
        let mut reply: Vec<u8> = Vec::new();
        write_reply_header(&mut reply, xid);
        Some(reply)
    } else if proc_ == PROC_GETPORT {
        let mut pos = off;
        let req_prog = match read_u32(data, &mut pos) {
            Some(v) => v,
            None => return None,
        };
        if read_u32(data, &mut pos).is_none() {
            return None;
        }
        // 6 = TCP, 17 = UDP
        if read_u32(data, &mut pos).is_none() {
            return None;
        }
        if read_u32(data, &mut pos).is_none() {
            return None;
        }
        let port: u32 = if req_prog == PROG_VXI11_CORE {
            vxi_port as u32
        } else {
            0
        };
        let mut reply: Vec<u8> = Vec::new();
        write_reply_header(&mut reply, xid);
        write_u32(&mut reply, port);
        Some(reply)
    } else {
        let mut reply: Vec<u8> = Vec::new();
        write_reply_header(&mut reply, xid);
        write_u32(&mut reply, 0);
        Some(reply)
    }
}

} // verus!
