use instrusim::rpc::{
    read_opaque, read_u32, skip_auth, write_auth_null, write_opaque, write_string, write_u32, MSG_CALL,
    PROC_CREATE_LINK, PROC_DESTROY_LINK, PROC_DEVICE_CLEAR, PROC_DEVICE_READ, PROC_DEVICE_READSTB,
    PROC_DEVICE_TRIGGER, PROC_DEVICE_WRITE, PROG_VXI11_CORE,
};
use instrusim::vxi11::{
    finish_device_write, handle_rpc, ConnState, RpcAction, ERROR_DEVICE_NOT_ACCESSIBLE, ERROR_INVALID_LINK,
    ERROR_NONE, MAX_RECV_SIZE, REASON_CHR, REASON_END, REASON_REQCNT,
};

fn call(xid: u32, proc_: u32, args: &[u8]) -> Vec<u8> {
    let mut c = Vec::new();
    write_u32(&mut c, xid);
    write_u32(&mut c, MSG_CALL);
    write_u32(&mut c, 2);
    write_u32(&mut c, PROG_VXI11_CORE);
    write_u32(&mut c, 1);
    write_u32(&mut c, proc_);
    write_auth_null(&mut c);
    write_auth_null(&mut c);
    c.extend_from_slice(args);
    c
}

/// The words after the accepted-reply header.
fn body(reply: &[u8]) -> (Vec<u32>, usize) {
    let mut pos = 0;
    for _ in 0..3 {
        read_u32(reply, &mut pos).unwrap();
    }
    skip_auth(reply, &mut pos).unwrap();
    assert_eq!(read_u32(reply, &mut pos).unwrap(), 0);
    let mut words = Vec::new();
    let start = pos;
    while let Some(w) = read_u32(reply, &mut pos) {
        words.push(w);
    }
    (words, start)
}

fn reply(a: RpcAction) -> Vec<u8> {
    match a {
        RpcAction::Reply(r) => r,
        RpcAction::Process(_) => panic!("expected an immediate reply"),
    }
}

fn create_link(state: &mut ConnState, served: &Vec<String>, name: &str) -> Vec<u32> {
    let mut args = Vec::new();
    write_u32(&mut args, 1);
    write_u32(&mut args, 0);
    write_u32(&mut args, 0);
    write_string(&mut args, name);
    body(&reply(handle_rpc(&call(1, PROC_CREATE_LINK, &args), state, served))).0
}

fn device_read(state: &mut ConnState, lid: u32, size: u32, flags: u32, term: u32) -> (u32, u32, Vec<u8>) {
    let mut args = Vec::new();
    for w in [lid, size, 0, 0, flags, term] {
        write_u32(&mut args, w);
    }
    let r = reply(handle_rpc(&call(3, PROC_DEVICE_READ, &args), state, &Vec::new()));
    let (_, start) = body(&r);
    let mut pos = start;
    let err = read_u32(&r, &mut pos).unwrap();
    let reason = read_u32(&r, &mut pos).unwrap();
    let data = read_opaque(&r, &mut pos).unwrap();
    (err, reason, data)
}

fn device_write(state: &mut ConnState, served: &Vec<String>, lid: u32, msg: &[u8]) -> RpcAction {
    let mut args = Vec::new();
    for w in [lid, 0, 0, 0] {
        write_u32(&mut args, w);
    }
    write_opaque(&mut args, msg);
    handle_rpc(&call(2, PROC_DEVICE_WRITE, &args), state, served)
}

#[test]
fn un_dispositivo_que_nadie_sirve_se_rechaza() {
    let mut state = ConnState::new();
    let served = vec!["inst0".to_string()];
    assert_eq!(create_link(&mut state, &served, "inst9"), vec![ERROR_DEVICE_NOT_ACCESSIBLE as u32, 0, 0, 0]);
    assert_eq!(create_link(&mut state, &served, "inst0"), vec![ERROR_NONE as u32, 1, 0, MAX_RECV_SIZE]);
    assert_eq!(create_link(&mut state, &served, "inst0"), vec![ERROR_NONE as u32, 2, 0, MAX_RECV_SIZE]);
}

#[test]
fn una_lectura_corta_no_anuncia_el_final_del_mensaje() {
    let mut state = ConnState::new();
    let served = vec!["inst0".to_string()];
    create_link(&mut state, &served, "inst0");
    let req = match device_write(&mut state, &served, 1, b"*IDN?\n") {
        RpcAction::Process(w) => w,
        RpcAction::Reply(_) => panic!("the message should go to the instrument"),
    };
    assert_eq!(req.message, "*IDN?");
    assert_eq!(req.device_name, "inst0");
    let r = finish_device_write(&mut state, req.xid, req.lid, req.payload_len, Some("Keysight,34461A".into()));
    assert_eq!(body(&r).0, vec![ERROR_NONE as u32, 6]);

    let (err, reason, data) = device_read(&mut state, 1, 8, 0, 0);
    assert_eq!((err, reason, data.as_slice()), (0, REASON_REQCNT, &b"Keysight"[..]));
    let (err, reason, data) = device_read(&mut state, 1, 1024, 0x80, b'\n' as u32);
    assert_eq!((err, reason, data.as_slice()), (0, REASON_END | REASON_CHR, &b",34461A\n"[..]));
    let (_, reason, data) = device_read(&mut state, 1, 1024, 0, 0);
    assert_eq!((reason, data.len()), (REASON_END, 0));
}

#[test]
fn device_clear_tira_la_respuesta_que_nadie_leyo() {
    let mut state = ConnState::new();
    let served = vec!["inst0".to_string()];
    create_link(&mut state, &served, "inst0");
    finish_device_write(&mut state, 9, 1, 4, Some("42\n".into()));
    let mut args = Vec::new();
    write_u32(&mut args, 1);
    let r = reply(handle_rpc(&call(4, PROC_DEVICE_CLEAR, &args), &mut state, &served));
    assert_eq!(body(&r).0, vec![ERROR_NONE as u32]);
    let (_, reason, data) = device_read(&mut state, 1, 1024, 0, 0);
    assert_eq!((reason, data.len()), (REASON_END, 0));
}

#[test]
fn un_enlace_destruido_ya_no_vale() {
    let mut state = ConnState::new();
    let served = vec!["inst0".to_string()];
    create_link(&mut state, &served, "inst0");
    let mut args = Vec::new();
    write_u32(&mut args, 1);
    let r = reply(handle_rpc(&call(5, PROC_DESTROY_LINK, &args), &mut state, &served));
    assert_eq!(body(&r).0, vec![ERROR_NONE as u32]);
    let (err, _, _) = device_read(&mut state, 1, 1024, 0, 0);
    assert_eq!(err, ERROR_INVALID_LINK as u32);
    let r = reply(device_write(&mut state, &served, 1, b"*RST"));
    assert_eq!(body(&r).0, vec![ERROR_INVALID_LINK as u32, 0]);
}

#[test]
fn un_mensaje_en_blanco_no_llega_al_instrumento() {
    let mut state = ConnState::new();
    let served = vec!["inst0".to_string()];
    create_link(&mut state, &served, "inst0");
    let r = reply(device_write(&mut state, &served, 1, b" \r\n"));
    assert_eq!(body(&r).0, vec![ERROR_NONE as u32, 3]);
}

#[test]
fn los_demas_procedimientos_contestan_lo_suyo() {
    let mut state = ConnState::new();
    let r = reply(handle_rpc(&call(6, PROC_DEVICE_READSTB, &[]), &mut state, &Vec::new()));
    assert_eq!(body(&r).0, vec![ERROR_NONE as u32, 0]);
    let r = reply(handle_rpc(&call(7, PROC_DEVICE_TRIGGER, &[]), &mut state, &Vec::new()));
    assert_eq!(body(&r).0, vec![ERROR_NONE as u32]);
    let r = reply(handle_rpc(&call(8, 99, &[]), &mut state, &Vec::new()));
    assert_eq!(body(&r).0, vec![1]);
    let r = reply(handle_rpc(&[0, 0, 0], &mut state, &Vec::new()));
    assert!(r.is_empty());
}

#[test]
fn a_query_answer_is_read_back_whole() {
    let mut state = ConnState::new();
    let served = vec!["inst0".to_string()];
    create_link(&mut state, &served, "inst0");
    finish_device_write(&mut state, 7, 1, 6, Some("+1.00000E+00".into()));
    let (err, reason, data) = device_read(&mut state, 1, 1024, 0, 0);
    assert_eq!((err, reason, data.as_slice()), (0, REASON_END, &b"+1.00000E+00\n"[..]));
    let (_, reason, data) = device_read(&mut state, 1, 1024, 0, 0);
    assert_eq!((reason, data.len()), (REASON_END, 0));
}

#[test]
fn two_links_keep_their_own_answers() {
    let mut state = ConnState::new();
    let served = vec!["inst0".to_string(), "inst1".to_string()];
    create_link(&mut state, &served, "inst0");
    create_link(&mut state, &served, "inst1");
    finish_device_write(&mut state, 7, 1, 4, Some("UNO".into()));
    finish_device_write(&mut state, 8, 2, 4, Some("DOS".into()));
    let (_, _, data) = device_read(&mut state, 2, 1024, 0, 0);
    assert_eq!(data.as_slice(), &b"DOS\n"[..]);
    let (_, _, data) = device_read(&mut state, 1, 1024, 0, 0);
    assert_eq!(data.as_slice(), &b"UNO\n"[..]);
}
