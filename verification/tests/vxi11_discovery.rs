use instrusim::discovery::{interpretar, volcar_hex, Llamada};

fn palabra(v: &mut Vec<u8>, x: u32) {
    v.extend_from_slice(&x.to_be_bytes());
}

/// A GETPORT call with empty credentials and verifier.
fn getport(xid: u32, prog: u32, vers: u32) -> Vec<u8> {
    let mut d = Vec::new();
    for x in [xid, 0, 2, 100_000, 2, 3, 0, 0, 0, 0, prog, vers, 17, 0] {
        palabra(&mut d, x);
    }
    d
}

#[test]
fn un_getport_de_vxi11_se_reconoce() {
    let l = interpretar(&getport(7, 395_183, 1)).unwrap();
    assert_eq!(l, Llamada { xid: 7, prog: 100_000, proc_: 3, pedido: Some((395_183, 1)) });
    assert_eq!(
        l.describir(),
        "¡ES LO QUE BUSCÁBAMOS! portmapper · GETPORT (¿en qué puerto está este programa?)\n  \
         Preguntan por el programa 395183 (canal core de VXI-11), versión 1"
    );
    let r = l.respuesta().unwrap();
    assert_eq!(r.resumen, "VXI-11 está en el puerto 9099");
    let mut esperado = Vec::new();
    for x in [7, 1, 0, 0, 0, 0, 9099] {
        palabra(&mut esperado, x);
    }
    assert_eq!(r.bytes, esperado);
}

#[test]
fn otro_programa_recibe_el_puerto_cero() {
    let l = interpretar(&getport(9, 12345, 3)).unwrap();
    assert_eq!(
        l.describir(),
        "portmapper · GETPORT (¿en qué puerto está este programa?)\n  \
         Preguntan por el programa 12345, versión 3 (no es VXI-11)"
    );
    let r = l.respuesta().unwrap();
    assert_eq!(r.resumen, "puerto 0 — ese programa no lo tengo");
    assert_eq!(&r.bytes[24..], &[0, 0, 0, 0]);
}

#[test]
fn las_credenciales_se_saltan_con_su_relleno() {
    let mut d = Vec::new();
    for x in [1, 0, 2, 100_000, 2, 3, 1, 5] {
        palabra(&mut d, x);
    }
    d.extend_from_slice(&[1, 2, 3, 4, 5, 0, 0, 0]);
    for x in [0, 0, 395_183, 1] {
        palabra(&mut d, x);
    }
    assert_eq!(interpretar(&d).unwrap().pedido, Some((395_183, 1)));
}

#[test]
fn lo_que_no_es_una_llamada_se_descarta() {
    assert_eq!(interpretar(&[0, 0, 0, 1]), None);
    let mut d = getport(1, 395_183, 1);
    d[7] = 1; // a reply, not a call
    assert_eq!(interpretar(&d), None);
    let mut d = getport(1, 395_183, 1);
    d[11] = 3; // RPC version 3
    assert_eq!(interpretar(&d), None);
}

#[test]
fn null_se_contesta_y_otros_programas_se_ignoran() {
    let mut d = Vec::new();
    for x in [5, 0, 2, 100_000, 2, 0, 0, 0, 0, 0] {
        palabra(&mut d, x);
    }
    let l = interpretar(&d).unwrap();
    assert_eq!(l.pedido, None);
    assert_eq!(l.describir(), "portmapper · NULL (¿estás ahí?)");
    let r = l.respuesta().unwrap();
    assert_eq!(r.resumen, "aquí estoy");
    assert_eq!(r.bytes.len(), 24);

    let otro = Llamada { xid: 1, prog: 42, proc_: 0, pedido: None };
    assert_eq!(otro.describir(), "llamada RPC al programa 42 — no es el portmapper, ignorada");
    assert!(otro.respuesta().is_none());
    let dump = Llamada { xid: 1, prog: 100_000, proc_: 4, pedido: None };
    assert!(dump.respuesta().is_none());
}

#[test]
fn el_volcado_pone_el_texto_al_lado() {
    let lineas = volcar_hex(b"hola\x00mundo, esto tiene mas de 16");
    assert_eq!(lineas.len(), 2);
    assert_eq!(
        lineas[0],
        format!("  0000  {:47}  {}", "68 6f 6c 61 00 6d 75 6e 64 6f 2c 20 65 73 74 6f", "hola.mundo, esto")
    );
    assert_eq!(
        lineas[1],
        format!("  0010  {:47}  {}", "20 74 69 65 6e 65 20 6d 61 73 20 64 65 20 31 36", " tiene mas de 16")
    );
    assert_eq!(volcar_hex(&[0xff]), vec![format!("  0000  {:47}  .", "ff")]);
    assert!(volcar_hex(&[]).is_empty());
}
