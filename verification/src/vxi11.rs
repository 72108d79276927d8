//! VXI-11 Device Core channel (program 395183, version 1).
//!
//! One listener serves every instrument of the bank: a VISA resource string
//! such as `TCPIP0::127.0.0.1::inst0::INSTR` has no room for a port, so the
//! client names the instrument (`inst0`, `inst1`, ...) when it opens a link.
//! The name is the only thing that tells two instruments apart.
//!
//! This module holds the decisions of the channel: what each call answers and
//! how the links of a connection change. Running the instrument on the
//! message of a `device_write` is work for the caller, who receives a
//! [`WriteRequest`] and hands the answer back to [`finish_device_write`].
use vstd::prelude::*;
use std::collections::HashMap;
use crate::parse::trim;
use crate::rpc::{
    be_bytes, lossy_text, parse_call, parse_call_spec, prog_mismatch_reply, prog_unavail_reply,
    push_bytes, read_i32, read_opaque, read_opaque_spec, read_string, read_u32, read_u32_spec,
    reply_header, write_i32, write_opaque, write_prog_mismatch, write_prog_unavail,
    write_reply_header, write_u32, xdr_opaque, PROC_CREATE_LINK, PROC_DESTROY_LINK,
    PROC_DEVICE_CLEAR, PROC_DEVICE_READ, PROC_DEVICE_READSTB, PROC_DEVICE_TRIGGER,
    PROC_DEVICE_WRITE, PROG_VXI11_CORE,
};
use crate::text::{chars_of, eq_chars, slice_vec, string_from};
use vstd::utf8::encode_utf8;

verus! {

broadcast use vstd::std_specs::hash::group_hash_axioms;

/// Largest answer we tell the client it may ask for in one `device_read`.
pub const MAX_RECV_SIZE: u32 = 1048576;

pub const ERROR_NONE: i32 = 0;

pub const ERROR_SYNTAX: i32 = 1;

/// The client named a device we do not serve.
pub const ERROR_DEVICE_NOT_ACCESSIBLE: i32 = 3;

/// The client used a link id we never handed out, or already destroyed.
pub const ERROR_INVALID_LINK: i32 = 4;

/// We sent exactly as many bytes as the client asked for, and there is more.
pub const REASON_REQCNT: u32 = 1;

/// We stopped on the termination character.
pub const REASON_CHR: u32 = 2;

/// We sent the last byte of the answer.
pub const REASON_END: u32 = 4;

/// Bit of the `device_read` flags meaning "the termChar argument counts".
pub const FLAG_TERMCHRSET: u32 = 0x80;

/// The abstract content of a link.
pub struct LinkView {
    /// The device name the link was opened for.
    pub device_name: Seq<char>,
    /// The answer of the last `device_write`, waiting to be read.
    pub pending: Seq<u8>,
}

/// The abstract state of a connection.
pub struct ConnView {
    pub next_lid: i32,
    pub links: Map<i32, LinkView>,
}

/// One open link, as created by `create_link`.
struct Link {
    device_name: String,
    pending: Vec<u8>,
}

impl Link {
    spec fn view(&self) -> LinkView {
        LinkView { device_name: self.device_name@, pending: self.pending@ }
    }
}

/// Per-connection state. Links belong to the connection that created them.
pub struct ConnState {
    next_lid: i32,
    links: HashMap<i32, Link>,
}

impl View for ConnState {
    type V = ConnView;

    closed spec fn view(&self) -> ConnView {
        ConnView { next_lid: self.next_lid, links: self.links@.map_values(|l: Link| l.view()) }
    }
}

impl ConnState {
    pub fn new() -> (r: Self)
        ensures
            r@ == (ConnView { next_lid: 1, links: Map::empty() }),
    {
        let r = ConnState { next_lid: 1, links: HashMap::new() };
        assert(r@.links =~= Map::<i32, LinkView>::empty());
        r
    }

    /// The link id the next `create_link` hands out.
    pub fn next_lid(&self) -> (r: i32)
        ensures
            r == self@.next_lid,
    {
        self.next_lid
    }
}

/// A word read at `pos`, or `default` when it does not fit; and the position
/// reached.
pub open spec fn read_u32_or(data: Seq<u8>, pos: int, default: u32) -> (u32, int) {
    match read_u32_spec(data, pos) {
        Some(v) => (v, pos + 4),
        None => (default, pos),
    }
}

/// The same, read as a signed word.
pub open spec fn read_i32_or(data: Seq<u8>, pos: int, default: i32) -> (i32, int) {
    match read_u32_spec(data, pos) {
        Some(v) => (v as i32, pos + 4),
        None => (default, pos),
    }
}

/// Whether a name is among those served.
pub open spec fn is_served(served: Seq<Seq<char>>, name: Seq<char>) -> bool {
    exists|i: int| 0 <= i < served.len() && served[i] == name
}

/// `create_link`: the device name asked for, the connection afterwards and
/// the reply. A name we do not serve is refused, so that no client ever talks
/// to an instrument it did not ask for.
pub open spec fn create_link_spec(xid: u32, data: Seq<u8>, pos: int, st: ConnView, served: Seq<Seq<char>>) -> (ConnView, Seq<u8>) {
    let (_, p1) = read_u32_or(data, pos, 0);
    let (_, p2) = read_u32_or(data, p1, 0);
    let (_, p3) = read_u32_or(data, p2, 0);
    let name = match read_opaque_spec(data, p3).0 {
        Some(b) => lossy_text(b),
        None => Seq::empty(),
    };
    if !is_served(served, name) {
        (st, reply_header(xid) + be_bytes(ERROR_DEVICE_NOT_ACCESSIBLE as u32) + be_bytes(0) + be_bytes(0)
            + be_bytes(0))
    } else {
        let lid = st.next_lid;
        (
            ConnView {
                next_lid: (lid + 1) as i32,
                links: st.links.insert(lid, LinkView { device_name: name, pending: Seq::empty() }),
            },
            reply_header(xid) + be_bytes(ERROR_NONE as u32) + be_bytes(lid as u32) + be_bytes(0) + be_bytes(
                MAX_RECV_SIZE,
            ),
        )
    }
}

/// The reason flags of a `device_read` reply.
pub open spec fn read_reason(sent_everything: bool, wants_term: bool, ends_with_term: bool) -> u32 {
    if sent_everything {
        if wants_term && ends_with_term {
            REASON_END | REASON_CHR
        } else {
            REASON_END
        }
    } else {
        REASON_REQCNT
    }
}

/// `device_read`: at most the size asked for, the rest kept for the next
/// read. `END` is claimed only when nothing is left over.
pub open spec fn device_read_spec(xid: u32, data: Seq<u8>, pos: int, st: ConnView) -> (ConnView, Seq<u8>) {
    let (lid, p1) = read_i32_or(data, pos, -1i32);
    let (req, p2) = read_u32_or(data, p1, 1024);
    let (_, p3) = read_u32_or(data, p2, 0);
    let (_, p4) = read_u32_or(data, p3, 0);
    let (flags, p5) = read_u32_or(data, p4, 0);
    let (term, _) = read_u32_or(data, p5, 0);
    if !st.links.contains_key(lid) {
        (st, reply_header(xid) + be_bytes(ERROR_INVALID_LINK as u32) + be_bytes(0) + xdr_opaque(Seq::empty()))
    } else {
        let link = st.links[lid];
        let all = link.pending.len() <= req;
        let cut = if all { link.pending.len() as int } else { req as int };
        let chunk = link.pending.take(cut);
        let reason = read_reason(
            all,
            flags & FLAG_TERMCHRSET != 0,
            chunk.len() > 0 && chunk.last() == term as u8,
        );
        (
            ConnView {
                links: st.links.insert(lid, LinkView { pending: link.pending.skip(cut), ..link }),
                ..st
            },
            reply_header(xid) + be_bytes(ERROR_NONE as u32) + be_bytes(reason) + xdr_opaque(chunk),
        )
    }
}

/// `destroy_link`: the link is forgotten; the reply is always success.
pub open spec fn destroy_link_spec(xid: u32, data: Seq<u8>, pos: int, st: ConnView) -> (ConnView, Seq<u8>) {
    let (lid, _) = read_i32_or(data, pos, -1i32);
    (ConnView { links: st.links.remove(lid), ..st }, reply_header(xid) + be_bytes(ERROR_NONE as u32))
}

/// `device_clear`: the answer nobody came to read is thrown away.
pub open spec fn device_clear_spec(xid: u32, data: Seq<u8>, pos: int, st: ConnView) -> (ConnView, Seq<u8>) {
    let (lid, _) = read_i32_or(data, pos, -1i32);
    if st.links.contains_key(lid) {
        (
            ConnView {
                links: st.links.insert(lid, LinkView { pending: Seq::empty(), ..st.links[lid] }),
                ..st
            },
            reply_header(xid) + be_bytes(ERROR_NONE as u32),
        )
    } else {
        (st, reply_header(xid) + be_bytes(ERROR_INVALID_LINK as u32))
    }
}

fn read_u32_or_default(data: &[u8], pos: &mut usize, default: u32) -> (r: u32)
    ensures
        (r, *final(pos) as int) == read_u32_or(data@, *old(pos) as int, default),
{
    match read_u32(data, pos) {
        Some(v) => v,
        None => default,
    }
}

fn read_i32_or_default(data: &[u8], pos: &mut usize, default: i32) -> (r: i32)
    ensures
        (r, *final(pos) as int) == read_i32_or(data@, *old(pos) as int, default),
{
    match read_i32(data, pos) {
        Some(v) => v,
        None => default,
    }
}

/// Whether one of the served names is `name`.
fn serves(served: &Vec<String>, name: &Vec<char>) -> (r: bool)
    ensures
        r == is_served(served@.map_values(|s: String| s@), name@),
{
    let ghost names = served@.map_values(|s: String| s@);
    let mut i: usize = 0;
    while i < served.len()
        invariant
            i <= served.len(),
            names == served@.map_values(|s: String| s@),
            forall|k: int| 0 <= k < i ==> names[k] != name@,
        decreases served.len() - i,
    {
        let n = chars_of(served[i].as_str());
        if eq_chars(&n, name) {
            assert(names[i as int] == name@);
            return true;
        }
        i += 1;
    }
    false
}

/// The reply header followed by a status word and three more words.
fn link_reply(xid: u32, error: i32, lid: i32, abort_port: u32, max_recv: u32) -> (r: Vec<u8>)
    ensures
        r@ == reply_header(xid) + be_bytes(error as u32) + be_bytes(lid as u32) + be_bytes(abort_port)
            + be_bytes(max_recv),
{
    let mut reply: Vec<u8> = Vec::new();
    write_reply_header(&mut reply, xid);
    write_i32(&mut reply, error);
    write_i32(&mut reply, lid);
    write_u32(&mut reply, abort_port);
    write_u32(&mut reply, max_recv);
    reply
}

/// `create_link`: opens a link to a served device, or refuses the name.
pub fn handle_create_link(xid: u32, data: &[u8], pos: usize, state: &mut ConnState, served: &Vec<String>) -> (r: Vec<u8>)
    requires
        old(state)@.next_lid < i32::MAX,
        data@.len() + 3 <= usize::MAX,
    ensures
        (final(state)@, r@) == create_link_spec(xid, data@, pos as int, old(state)@, served@.map_values(
            |s: String| s@,
        )),
{
    let mut pos = pos;
    let _client_id = read_u32_or_default(data, &mut pos, 0);
    let _lock_device = read_u32_or_default(data, &mut pos, 0);
    let _lock_timeout = read_u32_or_default(data, &mut pos, 0);
    let device_name = match read_string(data, &mut pos) {
        Some(s) => s,
        None => String::new(),
    };
    let name = chars_of(device_name.as_str());
    if !serves(served, &name) {
        return link_reply(xid, ERROR_DEVICE_NOT_ACCESSIBLE, 0, 0, 0);
    }
    let lid = state.next_lid;
    state.next_lid = lid + 1;
    let ghost before = state.links@;
    let link = Link { device_name, pending: Vec::new() };
    state.links.insert(lid, link);
    assert(state@.links =~= old(state)@.links.insert(lid, LinkView { device_name: name@, pending: Seq::empty() }));
    link_reply(xid, ERROR_NONE, lid, 0, MAX_RECV_SIZE)
}

/// `device_read`: hands out the pending answer, at most `requestSize` bytes
/// at a time.
pub fn handle_device_read(xid: u32, data: &[u8], pos: usize, state: &mut ConnState) -> (r: Vec<u8>)
    ensures
        (final(state)@, r@) == device_read_spec(xid, data@, pos as int, old(state)@),
{
    let mut pos = pos;
    let lid = read_i32_or_default(data, &mut pos, -1);
    let request_size = read_u32_or_default(data, &mut pos, 1024) as usize;
    let _io_timeout = read_u32_or_default(data, &mut pos, 0);
    let _lock_timeout = read_u32_or_default(data, &mut pos, 0);
    let flags = read_u32_or_default(data, &mut pos, 0);
    let term_char = read_u32_or_default(data, &mut pos, 0);
    let mut reply: Vec<u8> = Vec::new();
    write_reply_header(&mut reply, xid);
    let link = match state.links.remove(&lid) {
        Some(l) => l,
        None => {
            write_i32(&mut reply, ERROR_INVALID_LINK);
            write_u32(&mut reply, 0);
            let empty: Vec<u8> = Vec::new();
            write_opaque(&mut reply, empty.as_slice());
            assert(state@.links =~= old(state)@.links);
            return reply;
        },
    };
    let ghost lv = link.view();
    // Send at most what the client asked for and keep the rest.
    let sent_everything = link.pending.len() <= request_size;
    let cut = if sent_everything { link.pending.len() } else { request_size };
    let mut chunk: Vec<u8> = Vec::new();
    let mut rest: Vec<u8> = Vec::new();
    let mut i: usize = 0;
    while i < link.pending.len()
        invariant
            i <= link.pending.len(),
            cut <= link.pending.len(),
            chunk@ == link.pending@.take(if i < cut { i as int } else { cut as int }),
            rest@ == if i <= cut { Seq::<u8>::empty() } else { link.pending@.subrange(cut as int, i as int) },
        decreases link.pending.len() - i,
    {
        if i < cut {
            chunk.push(link.pending[i]);
            assert(link.pending@.take(i + 1) == link.pending@.take(i as int).push(link.pending@[i as int]));
        } else {
            rest.push(link.pending[i]);
            assert(link.pending@.subrange(cut as int, i + 1) == (if i <= cut { Seq::<u8>::empty() } else {
                link.pending@.subrange(cut as int, i as int)
            }).push(link.pending@[i as int]));
        }
        i += 1;
    }
    assert(rest@ == link.pending@.skip(cut as int));
    let wants_term_char = (flags & FLAG_TERMCHRSET) != 0;
    let ends_with_term = chunk.len() > 0 && chunk[chunk.len() - 1] == term_char as u8;
    let reason: u32 = if sent_everything {
        // Nothing left over: this really is the end of the message.
        if wants_term_char && ends_with_term {
            REASON_END | REASON_CHR
        } else {
            REASON_END
        }
    } else {
        // Stopped because the buffer was full, not because the message ended.
        REASON_REQCNT
    };
    let new_link = Link { device_name: link.device_name, pending: rest };
    state.links.insert(lid, new_link);
    assert(state@.links =~= old(state)@.links.insert(lid, LinkView { pending: lv.pending.skip(cut as int), ..lv }));
    write_i32(&mut reply, ERROR_NONE);
    write_u32(&mut reply, reason);
    write_opaque(&mut reply, chunk.as_slice());
    reply
}

/// `destroy_link`.
pub fn handle_destroy_link(xid: u32, data: &[u8], pos: usize, state: &mut ConnState) -> (r: Vec<u8>)
    ensures
        (final(state)@, r@) == destroy_link_spec(xid, data@, pos as int, old(state)@),
{
    let mut pos = pos;
    let lid = read_i32_or_default(data, &mut pos, -1);
    state.links.remove(&lid);
    assert(state@.links =~= old(state)@.links.remove(lid));
    let mut reply: Vec<u8> = Vec::new();
    write_reply_header(&mut reply, xid);
    write_i32(&mut reply, ERROR_NONE);
    reply
}

/// `device_clear`: throw away the answer nobody came to read, which is how a
/// client gets back in step after a timeout.
pub fn handle_device_clear(xid: u32, data: &[u8], pos: usize, state: &mut ConnState) -> (r: Vec<u8>)
    ensures
        (final(state)@, r@) == device_clear_spec(xid, data@, pos as int, old(state)@),
{
    let mut pos = pos;
    let lid = read_i32_or_default(data, &mut pos, -1);
    let mut reply: Vec<u8> = Vec::new();
    write_reply_header(&mut reply, xid);
    match state.links.remove(&lid) {
        Some(link) => {
            let ghost lv = link.view();
            let cleared = Link { device_name: link.device_name, pending: Vec::new() };
            state.links.insert(lid, cleared);
            assert(state@.links =~= old(state)@.links.insert(lid, LinkView { pending: Seq::empty(), ..lv }));
            write_i32(&mut reply, ERROR_NONE);
        },
        None => {
            assert(state@.links =~= old(state)@.links);
            write_i32(&mut reply, ERROR_INVALID_LINK);
        },
    }
    reply
}

/// `device_readstb`: there is no status byte to report, so it reports zero.
pub fn handle_readstb(xid: u32) -> (r: Vec<u8>)
    ensures
        r@ == reply_header(xid) + be_bytes(ERROR_NONE as u32) + be_bytes(0),
{
    let mut reply: Vec<u8> = Vec::new();
    write_reply_header(&mut reply, xid);
    write_i32(&mut reply, ERROR_NONE);
    write_u32(&mut reply, 0);
    reply
}

/// `device_trigger`: accepted and ignored.
pub fn handle_trigger(xid: u32) -> (r: Vec<u8>)
    ensures
        r@ == reply_header(xid) + be_bytes(ERROR_NONE as u32),
{
    let mut reply: Vec<u8> = Vec::new();
    write_reply_header(&mut reply, xid);
    write_i32(&mut reply, ERROR_NONE);
    reply
}

/// Trailing carriage returns and line feeds removed.
pub open spec fn strip_line_end(s: Seq<char>) -> Seq<char>
    decreases s.len(),
{
    if s.len() > 0 && (s.last() == '\r' || s.last() == '\n') {
        strip_line_end(s.drop_last())
    } else {
        s
    }
}

/// The SCPI message carried by a `device_write` payload, as the client typed
/// it without the surrounding white space and terminator.
pub open spec fn write_message(payload: Seq<u8>) -> Seq<char> {
    strip_line_end(trim(lossy_text(payload)))
}

/// A message to run on an instrument, on behalf of a `device_write`.
pub struct WriteRequest {
    pub xid: u32,
    /// The link the message came on.
    pub lid: i32,
    /// The instrument to run it on.
    pub device_name: String,
    /// The SCPI message.
    pub message: String,
    /// The size of the payload, which the reply acknowledges.
    pub payload_len: usize,
}

/// The abstract content of a [`WriteRequest`].
pub struct WriteRequestView {
    pub xid: u32,
    pub lid: i32,
    pub device_name: Seq<char>,
    pub message: Seq<char>,
    pub payload_len: nat,
}

impl View for WriteRequest {
    type V = WriteRequestView;

    open spec fn view(&self) -> WriteRequestView {
        WriteRequestView {
            xid: self.xid,
            lid: self.lid,
            device_name: self.device_name@,
            message: self.message@,
            payload_len: self.payload_len as nat,
        }
    }
}

/// What the channel does with a call: answer it at once, or first have an
/// instrument run a message.
pub enum RpcAction {
    Reply(Vec<u8>),
    Process(WriteRequest),
}

/// The abstract content of an [`RpcAction`].
pub enum RpcActionView {
    Reply(Seq<u8>),
    Process(WriteRequestView),
}

impl View for RpcAction {
    type V = RpcActionView;

    open spec fn view(&self) -> RpcActionView {
        match self {
            RpcAction::Reply(b) => RpcActionView::Reply(b@),
            RpcAction::Process(w) => RpcActionView::Process(w@),
        }
    }
}

/// The bytes left pending for `device_read` after an answer: its UTF-8
/// text, ending in a line feed; nothing when there was no answer.
pub open spec fn pending_after(answer: Option<Seq<char>>) -> Seq<u8> {
    match answer {
        Some(t) => {
            let b = encode_utf8(t);
            if b.len() > 0 && b.last() == 10u8 {
                b
            } else {
                b.push(10u8)
            }
        },
        None => Seq::empty(),
    }
}

/// Completing a `device_write`: the answer waits on its link, replacing
/// whatever the previous one left; the reply acknowledges the payload.
pub open spec fn finish_write_spec(st: ConnView, xid: u32, lid: i32, payload_len: nat, answer: Option<Seq<char>>) -> (ConnView, Seq<u8>) {
    (
        if st.links.contains_key(lid) {
            ConnView {
                links: st.links.insert(lid, LinkView { pending: pending_after(answer), ..st.links[lid] }),
                ..st
            }
        } else {
            st
        },
        reply_header(xid) + be_bytes(ERROR_NONE as u32) + be_bytes(payload_len as u32),
    )
}

/// `device_write`: refused for an unknown link or device; a blank message is
/// completed at once with no answer; otherwise the message goes to the
/// instrument.
pub open spec fn device_write_spec(xid: u32, data: Seq<u8>, pos: int, st: ConnView, served: Seq<Seq<char>>) -> (ConnView, RpcActionView) {
    let (lid, p1) = read_i32_or(data, pos, -1i32);
    let (_, p2) = read_u32_or(data, p1, 0);
    let (_, p3) = read_u32_or(data, p2, 0);
    let (_, p4) = read_u32_or(data, p3, 0);
    let payload = match read_opaque_spec(data, p4).0 {
        Some(b) => b,
        None => Seq::empty(),
    };
    if !st.links.contains_key(lid) {
        (st, RpcActionView::Reply(reply_header(xid) + be_bytes(ERROR_INVALID_LINK as u32) + be_bytes(0)))
    } else if !is_served(served, st.links[lid].device_name) {
        (st, RpcActionView::Reply(reply_header(xid) + be_bytes(ERROR_DEVICE_NOT_ACCESSIBLE as u32) + be_bytes(0)))
    } else if write_message(payload).len() == 0 {
        let (st2, reply) = finish_write_spec(st, xid, lid, payload.len(), None);
        (st2, RpcActionView::Reply(reply))
    } else {
        (
            st,
            RpcActionView::Process(
                WriteRequestView {
                    xid,
                    lid,
                    device_name: st.links[lid].device_name,
                    message: write_message(payload),
                    payload_len: payload.len(),
                },
            ),
        )
    }
}

/// A whole call: unparseable calls get no reply at all (there is no XID to
/// answer to), other programs and versions are refused, and each procedure
/// goes to its handler.
pub open spec fn rpc_spec(data: Seq<u8>, st: ConnView, served: Seq<Seq<char>>) -> (ConnView, RpcActionView) {
    match parse_call_spec(data) {
        None => (st, RpcActionView::Reply(Seq::empty())),
        Some((xid, prog, vers, proc_, off)) => if prog != PROG_VXI11_CORE {
            (st, RpcActionView::Reply(prog_unavail_reply(xid)))
        } else if vers != 1 {
            (st, RpcActionView::Reply(prog_mismatch_reply(xid, 1, 1)))
        } else if proc_ == PROC_CREATE_LINK {
            let (s, r) = create_link_spec(xid, data, off as int, st, served);
            (s, RpcActionView::Reply(r))
        } else if proc_ == PROC_DEVICE_WRITE {
            device_write_spec(xid, data, off as int, st, served)
        } else if proc_ == PROC_DEVICE_READ {
            let (s, r) = device_read_spec(xid, data, off as int, st);
            (s, RpcActionView::Reply(r))
        } else if proc_ == PROC_DESTROY_LINK {
            let (s, r) = destroy_link_spec(xid, data, off as int, st);
            (s, RpcActionView::Reply(r))
        } else if proc_ == PROC_DEVICE_CLEAR {
            let (s, r) = device_clear_spec(xid, data, off as int, st);
            (s, RpcActionView::Reply(r))
        } else if proc_ == PROC_DEVICE_READSTB {
            (st, RpcActionView::Reply(reply_header(xid) + be_bytes(ERROR_NONE as u32) + be_bytes(0)))
        } else if proc_ == PROC_DEVICE_TRIGGER {
            (st, RpcActionView::Reply(reply_header(xid) + be_bytes(ERROR_NONE as u32)))
        } else {
            (st, RpcActionView::Reply(reply_header(xid) + be_bytes(ERROR_SYNTAX as u32)))
        },
    }
}

/// Removes white space at both ends and then any trailing line ends.
fn write_message_exec(payload: &Vec<u8>) -> (r: String)
    ensures
        r@ == write_message(payload@),
{
    let text = crate::rpc::from_utf8_lossy(payload.as_slice());
    let v = chars_of(text.as_str());
    let t = crate::parse::trim_vec(&v);
    let mut j: usize = t.len();
    assert(t@.take(j as int) == t@);
    while j > 0 && (t[j - 1] == '\r' || t[j - 1] == '\n')
        invariant
            j <= t.len(),
            strip_line_end(t@) == strip_line_end(t@.take(j as int)),
        decreases j,
    {
        assert(t@.take(j as int).drop_last() == t@.take(j - 1));
        j -= 1;
    }
    let s = slice_vec(&t, 0, j);
    string_from(&s)
}

fn status_reply(xid: u32, error: i32, word: u32) -> (r: Vec<u8>)
    ensures
        r@ == reply_header(xid) + be_bytes(error as u32) + be_bytes(word),
{
    let mut reply: Vec<u8> = Vec::new();
    write_reply_header(&mut reply, xid);
    write_i32(&mut reply, error);
    write_u32(&mut reply, word);
    reply
}

/// Completes a `device_write` once the instrument has answered (or not).
pub fn finish_device_write(state: &mut ConnState, xid: u32, lid: i32, payload_len: usize, answer: Option<String>) -> (r: Vec<u8>)
    ensures
        (final(state)@, r@) == finish_write_spec(old(state)@, xid, lid, payload_len as nat, match answer {
            Some(s) => Some(s@),
            None => None,
        }),
{
    // A query leaves its answer waiting for the device_read that follows; a
    // command leaves nothing, and clears what the previous one left.
    let pending: Vec<u8> = match answer {
        Some(text) => {
            let mut bytes: Vec<u8> = Vec::new();
            push_bytes(&mut bytes, text.as_str().as_bytes());
            if !(bytes.len() > 0 && bytes[bytes.len() - 1] == 10u8) {
                bytes.push(10u8);
            }
            bytes
        },
        None => Vec::new(),
    };
    let ghost pv = pending@;
    match state.links.remove(&lid) {
        Some(link) => {
            let ghost lv = link.view();
            let updated = Link { device_name: link.device_name, pending };
            state.links.insert(lid, updated);
            assert(state@.links =~= old(state)@.links.insert(lid, LinkView { pending: pv, ..lv }));
        },
        None => {
            assert(state@.links =~= old(state)@.links);
        },
    }
    status_reply(xid, ERROR_NONE, payload_len as u32)
}

/// `device_write`: decides whether the message must go to an instrument.
pub fn handle_device_write(xid: u32, data: &[u8], pos: usize, state: &mut ConnState, served: &Vec<String>) -> (r: RpcAction)
    requires
        data@.len() + 3 <= usize::MAX,
    ensures
        (final(state)@, r@) == device_write_spec(xid, data@, pos as int, old(state)@, served@.map_values(
            |s: String| s@,
        )),
{
    let mut pos = pos;
    let lid = read_i32_or_default(data, &mut pos, -1);
    let _io_timeout = read_u32_or_default(data, &mut pos, 0);
    let _lock_timeout = read_u32_or_default(data, &mut pos, 0);
    let _flags = read_u32_or_default(data, &mut pos, 0);
    let payload = match read_opaque(data, &mut pos) {
        Some(p) => p,
        None => Vec::new(),
    };
    let device_name = match state.links.get(&lid) {
        Some(link) => link.device_name.clone(),
        None => {
            return RpcAction::Reply(status_reply(xid, ERROR_INVALID_LINK, 0));
        },
    };
    let name = chars_of(device_name.as_str());
    if !serves(served, &name) {
        // Refusing is better than answering with somebody else's instrument.
        return RpcAction::Reply(status_reply(xid, ERROR_DEVICE_NOT_ACCESSIBLE, 0));
    }
    let message = write_message_exec(&payload);
    if message.as_str().is_empty() {
        let reply = finish_device_write(state, xid, lid, payload.len(), None);
        return RpcAction::Reply(reply);
    }
    RpcAction::Process(WriteRequest { xid, lid, device_name, message, payload_len: payload.len() })
}

/// Handles one RPC call of the core channel.
pub fn handle_rpc(data: &[u8], state: &mut ConnState, served: &Vec<String>) -> (r: RpcAction)
    requires
        old(state)@.next_lid < i32::MAX,
        data@.len() + 3 <= usize::MAX,
    ensures
        (final(state)@, r@) == rpc_spec(data@, old(state)@, served@.map_values(|s: String| s@)),
{
    let (xid, prog, vers, proc_, off) = match parse_call(data) {
        Some(c) => c,
        None => {
            // Without an XID there is no reply the client could match.
            return RpcAction::Reply(Vec::new());
        },
    };
    if prog != PROG_VXI11_CORE {
        return RpcAction::Reply(write_prog_unavail(xid));
    }
    if vers != 1 {
        return RpcAction::Reply(write_prog_mismatch(xid, 1, 1));
    }
    if proc_ == PROC_CREATE_LINK {
        RpcAction::Reply(handle_create_link(xid, data, off, state, served))
    } else if proc_ == PROC_DEVICE_WRITE {
        handle_device_write(xid, data, off, state, served)
    } else if proc_ == PROC_DEVICE_READ {
        RpcAction::Reply(handle_device_read(xid, data, off, state))
    } else if proc_ == PROC_DESTROY_LINK {
        RpcAction::Reply(handle_destroy_link(xid, data, off, state))
    } else if proc_ == PROC_DEVICE_CLEAR {
        RpcAction::Reply(handle_device_clear(xid, data, off, state))
    } else if proc_ == PROC_DEVICE_READSTB {
        RpcAction::Reply(handle_readstb(xid))
    } else if proc_ == PROC_DEVICE_TRIGGER {
        RpcAction::Reply(handle_trigger(xid))
    } else {
        // A procedure not implemented: a plain Device_Error.
        let mut reply: Vec<u8> = Vec::new();
        write_reply_header(&mut reply, xid);
        write_i32(&mut reply, ERROR_SYNTAX);
        RpcAction::Reply(reply)
    }
}

/// A query's answer waits on its link for the `device_read` that follows:
/// a read that asks for at least its length gets it whole, flagged as the
/// end of the message, and leaves nothing pending on the link.
pub proof fn law_read_gives_back_the_answer(
    st: ConnView,
    wxid: u32,
    lid: i32,
    written: nat,
    answer: Seq<char>,
    rxid: u32,
    data: Seq<u8>,
    pos: int,
)
    requires
        st.links.contains_key(lid),
        read_i32_or(data, pos, -1i32).0 == lid,
        pending_after(Some(answer)).len() <= read_u32_or(data, read_i32_or(data, pos, -1i32).1, 1024).0,
    ensures
        ({
            let after_write = finish_write_spec(st, wxid, lid, written, Some(answer)).0;
            let (after_read, reply) = device_read_spec(rxid, data, pos, after_write);
            &&& exists|reason: u32|
                (reason == REASON_END || reason == (REASON_END | REASON_CHR)) && reply == reply_header(rxid)
                    + be_bytes(ERROR_NONE as u32) + #[trigger] be_bytes(reason) + xdr_opaque(pending_after(Some(answer)))
            &&& after_read.links.contains_key(lid)
            &&& after_read.links[lid].pending.len() == 0
        }),
{
    let after_write = finish_write_spec(st, wxid, lid, written, Some(answer)).0;
    let pending = pending_after(Some(answer));
    assert(after_write.links[lid].pending == pending);
    let (lid2, p1) = read_i32_or(data, pos, -1i32);
    let (req, p2) = read_u32_or(data, p1, 1024);
    let (_, p3) = read_u32_or(data, p2, 0);
    let (_, p4) = read_u32_or(data, p3, 0);
    let (flags, p5) = read_u32_or(data, p4, 0);
    let (term, _) = read_u32_or(data, p5, 0);
    assert(pending.take(pending.len() as int) == pending);
    let reason = read_reason(
        true,
        flags & FLAG_TERMCHRSET != 0,
        pending.len() > 0 && pending.last() == term as u8,
    );
    let reply = device_read_spec(rxid, data, pos, after_write).1;
    assert(reply == reply_header(rxid) + be_bytes(ERROR_NONE as u32) + be_bytes(reason) + xdr_opaque(pending));
}

/// A read cut short by the size asked for does not claim the end of the
/// message, and what it did not send waits on the link for the next read.
pub proof fn law_short_read_keeps_the_rest(st: ConnView, xid: u32, data: Seq<u8>, pos: int)
    requires
        st.links.contains_key(read_i32_or(data, pos, -1i32).0),
        read_u32_or(data, read_i32_or(data, pos, -1i32).1, 1024).0 < st.links[read_i32_or(
            data,
            pos,
            -1i32,
        ).0].pending.len(),
    ensures
        ({
            let lid = read_i32_or(data, pos, -1i32).0;
            let req = read_u32_or(data, read_i32_or(data, pos, -1i32).1, 1024).0;
            let pending = st.links[lid].pending;
            let (after, reply) = device_read_spec(xid, data, pos, st);
            &&& reply == reply_header(xid) + be_bytes(ERROR_NONE as u32) + be_bytes(REASON_REQCNT) + xdr_opaque(
                pending.take(req as int),
            )
            &&& after.links[lid].pending == pending.skip(req as int)
        }),
{
}

/// The links of a connection do not cross: writing an answer on one link,
/// reading from it or clearing it leaves every other link as it was.
pub proof fn law_links_do_not_cross(
    st: ConnView,
    xid: u32,
    lid: i32,
    other: i32,
    written: nat,
    answer: Option<Seq<char>>,
    data: Seq<u8>,
    pos: int,
)
    requires
        lid != other,
        st.links.contains_key(other),
        read_i32_or(data, pos, -1i32).0 == lid,
    ensures
        finish_write_spec(st, xid, lid, written, answer).0.links[other] == st.links[other],
        device_read_spec(xid, data, pos, st).0.links[other] == st.links[other],
        device_clear_spec(xid, data, pos, st).0.links[other] == st.links[other],
{
}

/// `device_clear` throws away the answer nobody read: a read that follows
/// gets an empty message.
pub proof fn law_clear_discards_the_answer(st: ConnView, xid: u32, rxid: u32, data: Seq<u8>, pos: int)
    requires
        st.links.contains_key(read_i32_or(data, pos, -1i32).0),
    ensures
        ({
            let lid = read_i32_or(data, pos, -1i32).0;
            let cleared = device_clear_spec(xid, data, pos, st).0;
            &&& cleared.links[lid].pending.len() == 0
            &&& device_read_spec(rxid, data, pos, cleared).1 == reply_header(rxid) + be_bytes(ERROR_NONE as u32)
                + be_bytes(REASON_END) + xdr_opaque(Seq::empty())
        }),
{
    let lid = read_i32_or(data, pos, -1i32).0;
    let cleared = device_clear_spec(xid, data, pos, st).0;
    assert(cleared.links[lid].pending.take(0) == Seq::<u8>::empty());
}

/// A device nobody serves is refused: the client is told so and the
/// connection opens no link.
pub proof fn law_unserved_device_is_refused(
    xid: u32,
    data: Seq<u8>,
    pos: int,
    st: ConnView,
    served: Seq<Seq<char>>,
    name: Seq<u8>,
)
    requires
        0 <= pos,
        read_opaque_spec(data, pos + 12).0 == Some(name),
        !is_served(served, lossy_text(name)),
    ensures
        create_link_spec(xid, data, pos, st, served) == (
            st,
            reply_header(xid) + be_bytes(ERROR_DEVICE_NOT_ACCESSIBLE as u32) + be_bytes(0) + be_bytes(0)
                + be_bytes(0),
        ),
{
}

} // verus!
