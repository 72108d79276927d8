use instrusim::portmap::handle_portmap_request;
use instrusim::rpc::{
    encode_record, parse_call, read_opaque, read_string, read_u32, skip_auth, write_auth_null,
    write_opaque, write_prog_mismatch, write_prog_unavail, write_string, write_u32, ACCEPT_SUCCESS,
    MSG_CALL, MSG_REPLY, PROC_CREATE_LINK, PROC_GETPORT, PROG_PORTMAP, PROG_VXI11_CORE,
};

#[test]
fn xdr_u32_roundtrip() {
    let mut buf = Vec::new();
    write_u32(&mut buf, 0x01020304);
    let mut pos = 0;
    assert_eq!(read_u32(&buf, &mut pos).unwrap(), 0x01020304);
    assert_eq!(pos, 4);
}

#[test]
fn xdr_string_padded() {
    let mut buf = Vec::new();
    write_string(&mut buf, "hi");
    // len 2 + 2 bytes + 2 pad = 8
    assert_eq!(buf.len(), 8);
    let mut pos = 0;
    assert_eq!(read_string(&buf, &mut pos).unwrap(), "hi");
    assert_eq!(pos, 8);
}

#[test]
fn xdr_opaque_padded() {
    let mut buf = Vec::new();
    write_opaque(&mut buf, b"ABC");
    // len 3 + 3 bytes + 1 pad = 8
    assert_eq!(buf.len(), 8);
    let mut pos = 0;
    assert_eq!(read_opaque(&buf, &mut pos).unwrap(), b"ABC");
}

#[test]
fn parse_call_roundtrip() {
    let mut call = Vec::new();
    write_u32(&mut call, 123);
    write_u32(&mut call, MSG_CALL);
    write_u32(&mut call, 2);
    write_u32(&mut call, PROG_VXI11_CORE);
    write_u32(&mut call, 1);
    write_u32(&mut call, PROC_CREATE_LINK);
    write_auth_null(&mut call);
    write_auth_null(&mut call);
    write_string(&mut call, "inst0");
    let (xid, prog, vers, proc_, _off) = parse_call(&call).unwrap();
    assert_eq!(xid, 123);
    assert_eq!(prog, PROG_VXI11_CORE);
    assert_eq!(vers, 1);
    assert_eq!(proc_, PROC_CREATE_LINK);
}

#[test]
fn record_marking_roundtrip() {
    let data = b"hola";
    let rec = encode_record(data);
    let hdr = u32::from_be_bytes([rec[0], rec[1], rec[2], rec[3]]);
    assert_eq!(hdr & 0x8000_0000, 0x8000_0000);
    assert_eq!((hdr & 0x7fff_ffff) as usize, data.len());
    assert_eq!(&rec[4..], data);
}

#[test]
fn una_lectura_que_no_cabe_no_mueve_la_posicion() {
    let buf = vec![0u8, 0, 0];
    let mut pos = 0;
    assert_eq!(read_u32(&buf, &mut pos), None);
    assert_eq!(pos, 0);
    let mut buf = Vec::new();
    write_u32(&mut buf, 9);
    let mut pos = 0;
    assert_eq!(read_opaque(&buf, &mut pos), None);
    assert_eq!(pos, 4);
}

#[test]
fn una_llamada_que_no_es_de_la_version_2_no_se_lee() {
    let mut call = Vec::new();
    write_u32(&mut call, 1);
    write_u32(&mut call, MSG_CALL);
    write_u32(&mut call, 3);
    assert_eq!(parse_call(&call), None);
    let mut pos = 0;
    assert_eq!(skip_auth(&call, &mut pos), Some(()));
    assert_eq!(pos, 8);
}

#[test]
fn las_respuestas_de_rechazo_dicen_por_que() {
    let r = write_prog_unavail(7);
    assert_eq!(r, vec![0, 0, 0, 7, 0, 0, 0, 1, 0, 0, 0, 0, 0, 0, 0, 0, 0, 0, 0, 0, 0, 0, 0, 1]);
    let r = write_prog_mismatch(7, 1, 1);
    assert_eq!(r.len(), 32);
    assert_eq!(&r[20..], &[0, 0, 0, 2, 0, 0, 0, 1, 0, 0, 0, 1]);
}

fn build_getport(xid: u32, prog: u32) -> Vec<u8> {
    let mut call = Vec::new();
    write_u32(&mut call, xid);
    write_u32(&mut call, MSG_CALL);
    write_u32(&mut call, 2);
    write_u32(&mut call, PROG_PORTMAP);
    write_u32(&mut call, 2);
    write_u32(&mut call, PROC_GETPORT);
    write_auth_null(&mut call);
    write_auth_null(&mut call);
    write_u32(&mut call, prog);
    write_u32(&mut call, 1);
    write_u32(&mut call, 6); // TCP
    write_u32(&mut call, 0);
    call
}

#[test]
fn getport_vxi11_devuelve_puerto() {
    let call = build_getport(99, PROG_VXI11_CORE);
    let reply = handle_portmap_request(&call, 9099).unwrap();
    let mut pos = 0;
    let xid = read_u32(&reply, &mut pos).unwrap();
    assert_eq!(xid, 99);
    let mtype = read_u32(&reply, &mut pos).unwrap();
    assert_eq!(mtype, MSG_REPLY);
    let _ = read_u32(&reply, &mut pos).unwrap();
    skip_auth(&reply, &mut pos).unwrap();
    let acc = read_u32(&reply, &mut pos).unwrap();
    assert_eq!(acc, ACCEPT_SUCCESS);
    let port = read_u32(&reply, &mut pos).unwrap();
    assert_eq!(port, 9099);
}

#[test]
fn getport_otro_programa_devuelve_cero() {
    let call = build_getport(1, 12345);
    let reply = handle_portmap_request(&call, 9099).unwrap();
    let mut pos = 0;
    let _xid = read_u32(&reply, &mut pos).unwrap();
    let _mtype = read_u32(&reply, &mut pos).unwrap();
    let _accepted = read_u32(&reply, &mut pos).unwrap();
    skip_auth(&reply, &mut pos).unwrap();
    let _acc = read_u32(&reply, &mut pos).unwrap();
    let port = read_u32(&reply, &mut pos).unwrap();
    assert_eq!(port, 0);
}

#[test]
fn el_portmapper_ignora_otros_programas_y_getport_incompletos() {
    let mut call = build_getport(5, PROG_VXI11_CORE);
    call[15] = 1; // program 100001
    assert_eq!(handle_portmap_request(&call, 9099), None);
    let call = build_getport(5, PROG_VXI11_CORE);
    assert_eq!(handle_portmap_request(&call[..call.len() - 4], 9099), None);
}
