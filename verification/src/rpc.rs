//! Minimal XDR and ONC RPC for VXI-11 and the portmapper.
//! Big-endian, aligned to 4 bytes.
use vstd::prelude::*;
use vstd::utf8::{decode_utf8, encode_utf8, encode_utf8_decode_utf8, encode_utf8_valid_utf8, valid_utf8};

verus! {

pub const PROG_PORTMAP: u32 = 100000;

pub const PROG_VXI11_CORE: u32 = 395183;

pub const PROC_NULL: u32 = 0;

pub const PROC_GETPORT: u32 = 3;

pub const PROC_CREATE_LINK: u32 = 10;

pub const PROC_DEVICE_WRITE: u32 = 11;

pub const PROC_DEVICE_READ: u32 = 12;

pub const PROC_DEVICE_READSTB: u32 = 13;

pub const PROC_DEVICE_CLEAR: u32 = 15;

pub const PROC_DEVICE_TRIGGER: u32 = 21;

pub const PROC_DESTROY_LINK: u32 = 23;

pub const MSG_CALL: u32 = 0;

pub const MSG_REPLY: u32 = 1;

pub const REPLY_ACCEPTED: u32 = 0;

pub const ACCEPT_SUCCESS: u32 = 0;

/// The server does not serve this program at all.
pub const ACCEPT_PROG_UNAVAIL: u32 = 1;

/// The server serves this program, but not in the version that was asked for.
pub const ACCEPT_PROG_MISMATCH: u32 = 2;

/// The four big-endian bytes of a 32-bit word.
pub open spec fn be_bytes(v: u32) -> Seq<u8> {
    seq![(v >> 24u32) as u8, (v >> 16u32) as u8, (v >> 8u32) as u8, v as u8]
}

/// The 32-bit word of four big-endian bytes.
pub open spec fn from_be(b0: u8, b1: u8, b2: u8, b3: u8) -> u32 {
    ((b0 as u32) << 24u32) | ((b1 as u32) << 16u32) | ((b2 as u32) << 8u32) | (b3 as u32)
}

/// Reading a word at `pos`: the word, or `None` when fewer than four bytes
/// remain. The position advances by four only when a word was read.
pub open spec fn read_u32_spec(data: Seq<u8>, pos: int) -> Option<u32> {
    if 0 <= pos && pos + 4 <= data.len() {
        Some(from_be(data[pos], data[pos + 1], data[pos + 2], data[pos + 3]))
    } else {
        None
    }
}

/// The number of zero bytes that pad `n` bytes to a multiple of four.
pub open spec fn pad_len(n: nat) -> nat {
    ((4 - n % 4) % 4) as nat
}

/// `n` zero bytes.
pub open spec fn zeros(n: nat) -> Seq<u8> {
    Seq::new(n, |i: int| 0u8)
}

/// XDR variable-length opaque data: the length, the bytes and the padding.
pub open spec fn xdr_opaque(bytes: Seq<u8>) -> Seq<u8> {
    be_bytes(bytes.len() as u32) + bytes + zeros(pad_len(bytes.len()))
}

/// A null `opaque_auth`: flavor 0 and no body.
pub open spec fn auth_null() -> Seq<u8> {
    be_bytes(0) + be_bytes(0)
}

/// Skipping an `opaque_auth` at `pos`: whether it fitted, and the position
/// reached (a failed read leaves the position after what was read).
pub open spec fn skip_auth_spec(data: Seq<u8>, pos: int) -> (Option<()>, int) {
    match read_u32_spec(data, pos) {
        None => (None, pos),
        Some(_) => match read_u32_spec(data, pos + 4) {
            None => (None, pos + 4),
            Some(len) => {
                let p = pos + 8;
                let end = p + len + pad_len(len as nat);
                if end > data.len() {
                    (None, p)
                } else {
                    (Some(()), end)
                }
            },
        },
    }
}

/// Reading opaque data at `pos`: the bytes and the position reached. The
/// padding is skipped without being checked.
pub open spec fn read_opaque_spec(data: Seq<u8>, pos: int) -> (Option<Seq<u8>>, int) {
    match read_u32_spec(data, pos) {
        None => (None, pos),
        Some(len) => {
            let p = pos + 4;
            if p + len > data.len() {
                (None, p)
            } else {
                (Some(data.subrange(p, p + len)), p + len + pad_len(len as nat))
            }
        },
    }
}

/// The text of a byte string read with `String::from_utf8_lossy`.
pub uninterp spec fn lossy_text(bytes: Seq<u8>) -> Seq<char>;

/// `String::from_utf8_lossy`, made owned. Valid UTF-8 is decoded as it
/// stands; what the function replaces in invalid input is not stated.
#[verifier::external_body]
pub(crate) fn from_utf8_lossy(bytes: &[u8]) -> (s: String)
    ensures
        s@ == lossy_text(bytes@),
        valid_utf8(bytes@) ==> s@ == decode_utf8(bytes@),
{
    String::from_utf8_lossy(bytes).into_owned()
}

/// A reply header for an accepted call that succeeded.
pub open spec fn reply_header(xid: u32) -> Seq<u8> {
    be_bytes(xid) + be_bytes(MSG_REPLY) + be_bytes(REPLY_ACCEPTED) + auth_null() + be_bytes(ACCEPT_SUCCESS)
}

/// The reply to a call for a program that is not served.
pub open spec fn prog_unavail_reply(xid: u32) -> Seq<u8> {
    be_bytes(xid) + be_bytes(MSG_REPLY) + be_bytes(REPLY_ACCEPTED) + auth_null() + be_bytes(ACCEPT_PROG_UNAVAIL)
}

/// The reply to a call for a served program in a version that is not, with
/// the range of versions that are.
pub open spec fn prog_mismatch_reply(xid: u32, low: u32, high: u32) -> Seq<u8> {
    be_bytes(xid) + be_bytes(MSG_REPLY) + be_bytes(REPLY_ACCEPTED) + auth_null() + be_bytes(ACCEPT_PROG_MISMATCH)
        + be_bytes(low) + be_bytes(high)
}

/// The fields of an RPC call header (xid, program, version, procedure) and
/// the offset of its arguments; `None` unless it is a CALL of RPC version 2
/// whose two authenticators fit.
pub open spec fn parse_call_spec(data: Seq<u8>) -> Option<(u32, u32, u32, u32, usize)> {
    match (read_u32_spec(data, 0), read_u32_spec(data, 4), read_u32_spec(data, 8)) {
        (Some(xid), Some(msg), Some(rpcvers)) => if msg != MSG_CALL || rpcvers != 2 {
            None
        } else {
            match (read_u32_spec(data, 12), read_u32_spec(data, 16), read_u32_spec(data, 20)) {
                (Some(prog), Some(vers), Some(proc_)) => {
                    let (a1, p1) = skip_auth_spec(data, 24);
                    let (a2, p2) = skip_auth_spec(data, p1);
                    if a1 is Some && a2 is Some {
                        Some((xid, prog, vers, proc_, p2 as usize))
                    } else {
                        None
                    }
                },
                _ => None,
            }
        },
        _ => None,
    }
}

/// Appends the four big-endian bytes of a word.
pub fn write_u32(buf: &mut Vec<u8>, v: u32)
    ensures
        final(buf)@ == old(buf)@ + be_bytes(v),
{
    buf.push((v >> 24u32) as u8);
    buf.push((v >> 16u32) as u8);
    buf.push((v >> 8u32) as u8);
    buf.push(v as u8);
    assert(buf@ =~= old(buf)@ + be_bytes(v));
}

pub fn write_i32(buf: &mut Vec<u8>, v: i32)
    ensures
        final(buf)@ == old(buf)@ + be_bytes(v as u32),
{
    write_u32(buf, v as u32);
}

/// Reads a big-endian word at `*pos` and advances past it.
pub fn read_u32(data: &[u8], pos: &mut usize) -> (r: Option<u32>)
    ensures
        r == read_u32_spec(data@, *old(pos) as int),
        *final(pos) == if r is Some { *old(pos) + 4 } else { *old(pos) as int },
{
    if data.len() < 4 || *pos > data.len() - 4 {
        return None;
    }
    let p = *pos;
    let v = ((data[p] as u32) << 24u32) | ((data[p + 1] as u32) << 16u32) | ((data[p + 2] as u32)
        << 8u32) | (data[p + 3] as u32);
    *pos = p + 4;
    Some(v)
}

pub fn read_i32(data: &[u8], pos: &mut usize) -> (r: Option<i32>)
    ensures
        r == match read_u32_spec(data@, *old(pos) as int) {
            Some(v) => Some(v as i32),
            None => None::<i32>,
        },
        *final(pos) == if r is Some { *old(pos) + 4 } else { *old(pos) as int },
{
    match read_u32(data, pos) {
        Some(v) => Some(v as i32),
        None => None,
    }
}

/// Skips an XDR `opaque_auth`: flavor and padded opaque body.
pub fn skip_auth(data: &[u8], pos: &mut usize) -> (r: Option<()>)
    ensures
        (r, *final(pos) as int) == skip_auth_spec(data@, *old(pos) as int),
{
    let _flavor = match read_u32(data, pos) {
        Some(f) => f,
        None => return None,
    };
    let len = match read_u32(data, pos) {
        Some(l) => l as usize,
        None => return None,
    };
    let pad = (4 - (len % 4)) % 4;
    if len > data.len() || pad > data.len() - len || *pos > data.len() - len - pad {
        return None;
    }
    *pos = *pos + len + pad;
    Some(())
}

/// Appends a null authenticator.
pub fn write_auth_null(buf: &mut Vec<u8>)
    ensures
        final(buf)@ == old(buf)@ + auth_null(),
{
    write_u32(buf, 0);
    write_u32(buf, 0);
    assert(buf@ =~= old(buf)@ + auth_null());
}

/// Appends bytes.
pub fn push_bytes(buf: &mut Vec<u8>, data: &[u8])
    ensures
        final(buf)@ == old(buf)@ + data@,
{
    let mut i: usize = 0;
    while i < data.len()
        invariant
            i <= data.len(),
            buf@ == old(buf)@ + data@.take(i as int),
        decreases data.len() - i,
    {
        buf.push(data[i]);
        assert(data@.take(i + 1) == data@.take(i as int).push(data@[i as int]));
        i += 1;
    }
    assert(data@.take(data.len() as int) == data@);
}

/// Appends `n` zero bytes.
fn push_zeros(buf: &mut Vec<u8>, n: usize)
    ensures
        final(buf)@ == old(buf)@ + zeros(n as nat),
{
    let mut i: usize = 0;
    while i < n
        invariant
            i <= n,
            buf@ == old(buf)@ + zeros(i as nat),
        decreases n - i,
    {
        buf.push(0);
        assert(zeros((i + 1) as nat) == zeros(i as nat).push(0u8));
        i += 1;
    }
}

/// XDR string: length, the UTF-8 bytes, padding.
pub fn write_string(buf: &mut Vec<u8>, s: &str)
    ensures
        final(buf)@ == old(buf)@ + xdr_opaque(encode_utf8(s@)),
{
    let bytes = s.as_bytes();
    write_opaque(buf, bytes);
}

/// Reads an XDR string; its bytes are decoded as `String::from_utf8_lossy`
/// does.
pub fn read_string(data: &[u8], pos: &mut usize) -> (r: Option<String>)
    requires
        data@.len() + 3 <= usize::MAX,
    ensures
        ({
            let (o, p) = read_opaque_spec(data@, *old(pos) as int);
            &&& *final(pos) == p
            &&& match o {
                Some(b) => r is Some && r.unwrap()@ == lossy_text(b) && (valid_utf8(b) ==> r.unwrap()@
                    == decode_utf8(b)),
                None => r is None,
            }
        }),
{
    match read_opaque(data, pos) {
        Some(v) => {
            let s = from_utf8_lossy(v.as_slice());
            Some(s)
        },
        None => None,
    }
}

/// XDR opaque: length, bytes, padding.
pub fn write_opaque(buf: &mut Vec<u8>, data: &[u8])
    ensures
        final(buf)@ == old(buf)@ + xdr_opaque(data@),
{
    write_u32(buf, data.len() as u32);
    push_bytes(buf, data);
    let pad = (4 - (data.len() % 4)) % 4;
    push_zeros(buf, pad);
    assert(buf@ =~= old(buf)@ + xdr_opaque(data@));
}

/// Reads XDR opaque data and skips its padding.
pub fn read_opaque(data: &[u8], pos: &mut usize) -> (r: Option<Vec<u8>>)
    requires
        data@.len() + 3 <= usize::MAX,
    ensures
        ({
            let (o, p) = read_opaque_spec(data@, *old(pos) as int);
            &&& *final(pos) == p
            &&& match o {
                Some(b) => r is Some && r.unwrap()@ == b,
                None => r is None,
            }
        }),
{
    let len = match read_u32(data, pos) {
        Some(l) => l as usize,
        None => return None,
    };
    if len > data.len() || *pos > data.len() - len {
        return None;
    }
    let start = *pos;
    let mut v: Vec<u8> = Vec::new();
    let mut i: usize = 0;
    while i < len
        invariant
            i <= len,
            start + len <= data.len(),
            v@ == data@.subrange(start as int, start + i),
        decreases len - i,
    {
        v.push(data[start + i]);
        assert(data@.subrange(start as int, start + i + 1) == data@.subrange(start as int, start + i).push(
            data@[start + i],
        ));
        i += 1;
    }
    let pad = (4 - (len % 4)) % 4;
    *pos = start + len + pad;
    Some(v)
}

/// Accepted reply header: XID, REPLY, MSG_ACCEPTED, null verifier, SUCCESS.
pub fn write_reply_header(buf: &mut Vec<u8>, xid: u32)
    ensures
        final(buf)@ == old(buf)@ + reply_header(xid),
{
    write_u32(buf, xid);
    write_u32(buf, MSG_REPLY);
    write_u32(buf, REPLY_ACCEPTED);
    write_auth_null(buf);
    write_u32(buf, ACCEPT_SUCCESS);
    assert(buf@ =~= old(buf)@ + reply_header(xid));
}

/// Reply for a program we do not serve: accepted message, PROG_UNAVAIL.
pub fn write_prog_unavail(xid: u32) -> (r: Vec<u8>)
    ensures
        r@ == prog_unavail_reply(xid),
{
    let mut buf: Vec<u8> = Vec::new();
    write_u32(&mut buf, xid);
    write_u32(&mut buf, MSG_REPLY);
    write_u32(&mut buf, REPLY_ACCEPTED);
    write_auth_null(&mut buf);
    write_u32(&mut buf, ACCEPT_PROG_UNAVAIL);
    assert(buf@ =~= be_bytes(xid) + be_bytes(MSG_REPLY) + be_bytes(REPLY_ACCEPTED) + auth_null()
        + be_bytes(ACCEPT_PROG_UNAVAIL));
    buf
}

/// Reply for a program we serve in a version we do not: accepted message,
/// PROG_MISMATCH, and the range of versions we do speak.
pub fn write_prog_mismatch(xid: u32, low: u32, high: u32) -> (r: Vec<u8>)
    ensures
        r@ == prog_mismatch_reply(xid, low, high),
{
    let mut buf: Vec<u8> = Vec::new();
    write_u32(&mut buf, xid);
    write_u32(&mut buf, MSG_REPLY);
    write_u32(&mut buf, REPLY_ACCEPTED);
    write_auth_null(&mut buf);
    write_u32(&mut buf, ACCEPT_PROG_MISMATCH);
    write_u32(&mut buf, low);
    write_u32(&mut buf, high);
    assert(buf@ =~= be_bytes(xid) + be_bytes(MSG_REPLY) + be_bytes(REPLY_ACCEPTED) + auth_null()
        + be_bytes(ACCEPT_PROG_MISMATCH) + be_bytes(low) + be_bytes(high));
    buf
}

/// Parses a CALL header: (xid, program, version, procedure, offset of the
/// arguments). Checks the message type and RPC version 2.
pub fn parse_call(data: &[u8]) -> (r: Option<(u32, u32, u32, u32, usize)>)
    ensures
        r == parse_call_spec(data@),
{
    let mut pos: usize = 0;
    let xid = match read_u32(data, &mut pos) {
        Some(v) => v,
        None => return None,
    };
    let msg = match read_u32(data, &mut pos) {
        Some(v) => v,
        None => return None,
    };
    if msg != MSG_CALL {
        return None;
    }
    let rpcvers = match read_u32(data, &mut pos) {
        Some(v) => v,
        None => return None,
    };
    if rpcvers != 2 {
        return None;
    }
    let prog = match read_u32(data, &mut pos) {
        Some(v) => v,
        None => return None,
    };
    let vers = match read_u32(data, &mut pos) {
        Some(v) => v,
        None => return None,
    };
    let proc_ = match read_u32(data, &mut pos) {
        Some(v) => v,
        None => return None,
    };
    if skip_auth(data, &mut pos).is_none() {
        return None;
    }
    if skip_auth(data, &mut pos).is_none() {
        return None;
    }
    Some((xid, prog, vers, proc_, pos))
}

/// The record-marking header of a last fragment of `n` bytes.
pub open spec fn record_header(n: nat) -> u32 {
    (n as u32) | 0x8000_0000u32
}

/// Record marking over TCP: 4 bytes, bit 31 "last fragment", bits 30-0 the
/// length, then the data.
pub fn encode_record(data: &[u8]) -> (r: Vec<u8>)
    ensures
        r@ == be_bytes(record_header(data@.len())) + data@,
{
    let mut out: Vec<u8> = Vec::new();
    let hdr = (data.len() as u32) | 0x8000_0000u32;
    write_u32(&mut out, hdr);
    push_bytes(&mut out, data);
    out
}

/// The bytes of a word give the word back.
pub proof fn lemma_be_roundtrip(v: u32)
    ensures
        from_be(be_bytes(v)[0], be_bytes(v)[1], be_bytes(v)[2], be_bytes(v)[3]) == v,
{
    assert(((((v >> 24u32) as u8) as u32) << 24u32) | ((((v >> 16u32) as u8) as u32) << 16u32) | ((((v
        >> 8u32) as u8) as u32) << 8u32) | ((v as u8) as u32) == v) by (bit_vector);
}

/// A word written into a buffer is read back from the same position, and
/// the reader moves past it.
pub proof fn law_u32_roundtrip(before: Seq<u8>, v: u32, after: Seq<u8>)
    ensures
        read_u32_spec(before + be_bytes(v) + after, before.len() as int) == Some(v),
{
    lemma_be_roundtrip(v);
    let data = before + be_bytes(v) + after;
    let p = before.len() as int;
    assert(data[p] == be_bytes(v)[0] && data[p + 1] == be_bytes(v)[1] && data[p + 2] == be_bytes(v)[2]
        && data[p + 3] == be_bytes(v)[3]);
}

/// Opaque data written into a buffer is read back whole from the same
/// position, and the reader ends just after its padding.
pub proof fn law_opaque_roundtrip(before: Seq<u8>, bytes: Seq<u8>, after: Seq<u8>)
    requires
        bytes.len() <= u32::MAX,
    ensures
        read_opaque_spec(before + xdr_opaque(bytes) + after, before.len() as int) == (
            Some(bytes),
            (before.len() + xdr_opaque(bytes).len()) as int,
        ),
{
    let data = before + xdr_opaque(bytes) + after;
    let p = before.len() as int;
    law_u32_roundtrip(before, bytes.len() as u32, zeros(0) + bytes + zeros(pad_len(bytes.len())) + after);
    assert(data =~= before + be_bytes(bytes.len() as u32) + (zeros(0) + bytes + zeros(pad_len(bytes.len())) + after));
    assert(data.subrange(p + 4, p + 4 + bytes.len()) =~= bytes);
}

/// A string written in XDR is read back as the same text: its UTF-8 bytes
/// come back whole and decode to it.
pub proof fn law_string_roundtrip(before: Seq<u8>, s: Seq<char>, after: Seq<u8>)
    requires
        encode_utf8(s).len() <= u32::MAX,
    ensures
        read_opaque_spec(before + xdr_opaque(encode_utf8(s)) + after, before.len() as int).0 == Some(
            encode_utf8(s),
        ),
        valid_utf8(encode_utf8(s)),
        decode_utf8(encode_utf8(s)) == s,
{
    law_opaque_roundtrip(before, encode_utf8(s), after);
    encode_utf8_valid_utf8(s);
    encode_utf8_decode_utf8(s);
}

/// The header of a call built field by field parses back into those fields,
/// with the arguments right after the two null authenticators.
pub proof fn law_parse_call_roundtrip(xid: u32, prog: u32, vers: u32, proc_: u32, args: Seq<u8>)
    ensures
        parse_call_spec(
            be_bytes(xid) + be_bytes(MSG_CALL) + be_bytes(2) + be_bytes(prog) + be_bytes(vers) + be_bytes(
                proc_,
            ) + auth_null() + auth_null() + args,
        ) == Some((xid, prog, vers, proc_, 40usize)),
{
    let data = be_bytes(xid) + be_bytes(MSG_CALL) + be_bytes(2) + be_bytes(prog) + be_bytes(vers)
        + be_bytes(proc_) + auth_null() + auth_null() + args;
    let words = seq![xid, MSG_CALL, 2u32, prog, vers, proc_, 0u32, 0u32, 0u32, 0u32];
    assert forall|k: int| 0 <= k < 10 implies read_u32_spec(data, 4 * k) == Some(words[k]) by {
        let before = data.take(4 * k);
        let after = data.skip(4 * k + 4);
        assert(data =~= before + be_bytes(words[k]) + after);
        law_u32_roundtrip(before, words[k], after);
    }
    assert(read_u32_spec(data, 0) == Some(xid));
    assert(read_u32_spec(data, 4) == Some(MSG_CALL));
    assert(read_u32_spec(data, 8) == Some(2u32));
    assert(read_u32_spec(data, 12) == Some(prog));
    assert(read_u32_spec(data, 16) == Some(vers));
    assert(read_u32_spec(data, 20) == Some(proc_));
    assert(read_u32_spec(data, 24) == Some(0u32));
    assert(read_u32_spec(data, 28) == Some(0u32));
    assert(read_u32_spec(data, 32) == Some(0u32));
    assert(read_u32_spec(data, 36) == Some(0u32));
    assert(skip_auth_spec(data, 24) == (Some(()), 32int));
    assert(skip_auth_spec(data, 32) == (Some(()), 40int));
}

/// The record-marking header flags the last fragment and carries the
/// length, for any length that fits in 31 bits.
pub proof fn law_record_header(n: nat)
    requires
        n < 0x8000_0000,
    ensures
        record_header(n) & 0x8000_0000u32 == 0x8000_0000u32,
        record_header(n) & 0x7fff_ffffu32 == n,
{
    let m = n as u32;
    assert((m | 0x8000_0000u32) & 0x8000_0000u32 == 0x8000_0000u32 && (m | 0x8000_0000u32)
        & 0x7fff_ffffu32 == m) by (bit_vector)
        requires
            m < 0x8000_0000u32,
    ;
}

} // verus!
