use instrusim::banco::Transporte;
use instrusim::bench::{
    cannot_listen_message, comprobar_puertos_unicos, formato_direccion, lineas_de_tabla, loopback_ip_hint,
    mensaje_de_linea, portmapper_failure_message, vxi11_endpoints,
};

fn vxi11_instrument(id: &str, host: &str, puerto: u16, device: &str) -> (String, Transporte) {
    (
        id.to_string(),
        Transporte::Vxi11 {
            host: Some(host.to_string()),
            puerto: Some(puerto),
            device: Some(device.to_string()),
        },
    )
}

fn tcp_instrument(id: &str, host: &str, puerto: u16) -> (String, Transporte) {
    (
        id.to_string(),
        Transporte::Tcp { host: Some(host.to_string()), puerto: Some(puerto) },
    )
}

#[test]
fn each_ip_gets_its_own_channel() {
    let banco = vec![
        vxi11_instrument("generador", "127.0.0.2", 5025, "inst0"),
        vxi11_instrument("fuente", "127.0.0.3", 5025, "inst0"),
    ];
    let endpoints = vxi11_endpoints(&banco).unwrap();
    assert_eq!(endpoints.len(), 2);
    assert_eq!(endpoints[0].host, "127.0.0.2");
    assert_eq!(endpoints[1].host, "127.0.0.3");
}

#[test]
fn several_devices_on_one_ip_share_a_channel() {
    let banco = vec![
        vxi11_instrument("generador", "127.0.0.1", 5025, "inst0"),
        vxi11_instrument("fuente", "127.0.0.1", 5025, "inst1"),
    ];
    let endpoints = vxi11_endpoints(&banco).unwrap();
    assert_eq!(endpoints.len(), 1, "una IP es un canal, no dos");
    assert_eq!(endpoints[0].port, 5025);
}

#[test]
fn two_ports_on_one_ip_are_refused() {
    let banco = vec![
        vxi11_instrument("generador", "127.0.0.1", 5025, "inst0"),
        vxi11_instrument("fuente", "127.0.0.1", 5026, "inst1"),
    ];
    let error = vxi11_endpoints(&banco).unwrap_err();
    assert!(error.contains("puertos distintos"), "dijo: {error}");
}

#[test]
fn the_same_device_twice_on_one_ip_is_refused() {
    let banco = vec![
        vxi11_instrument("generador", "127.0.0.1", 5025, "inst0"),
        vxi11_instrument("fuente", "127.0.0.1", 5025, "inst0"),
    ];
    let error = vxi11_endpoints(&banco).unwrap_err();
    assert!(error.contains("device 'inst0'"), "dijo: {error}");
}

#[test]
fn the_same_device_on_different_ips_is_fine() {
    let banco = vec![
        vxi11_instrument("generador", "127.0.0.2", 5025, "inst0"),
        vxi11_instrument("fuente", "127.0.0.3", 5025, "inst0"),
    ];
    assert!(vxi11_endpoints(&banco).is_ok());
}

#[test]
fn an_unusual_loopback_ip_warns_about_windows() {
    let pista = loopback_ip_hint("127.0.0.2");
    assert!(pista.contains("Windows"), "dijo: {pista}");
    assert!(loopback_ip_hint("127.0.0.1").is_empty());
    assert!(loopback_ip_hint("192.168.1.10").is_empty());
}

#[test]
fn tcp_instruments_open_no_vxi11_channel() {
    let banco = vec![
        tcp_instrument("fuente", "127.0.0.1", 5025),
        vxi11_instrument("generador", "127.0.0.2", 5025, "inst0"),
    ];
    let endpoints = vxi11_endpoints(&banco).unwrap();
    assert_eq!(endpoints.len(), 1);
    assert_eq!(endpoints[0].host, "127.0.0.2");
}

#[test]
fn two_instruments_on_one_address_are_refused() {
    let banco = vec![
        tcp_instrument("fuente", "127.0.0.1", 5025),
        tcp_instrument("carga", "127.0.0.1", 5025),
    ];
    assert!(comprobar_puertos_unicos(&banco).is_err());

    let banco = vec![
        tcp_instrument("fuente", "127.0.0.1", 5025),
        tcp_instrument("carga", "127.0.0.1", 5026),
    ];
    assert!(comprobar_puertos_unicos(&banco).is_ok());
}

#[test]
fn the_address_is_host_colon_port() {
    assert_eq!(formato_direccion("127.0.0.1", 5025), "127.0.0.1:5025");
}

#[test]
fn a_busy_port_names_who_and_where() {
    let m = cannot_listen_message("fuente", "127.0.0.1", 5025, "address in use");
    assert!(m.starts_with("'fuente' no puede escuchar en 127.0.0.1:5025 (address in use)."), "dijo: {m}");
    assert!(!m.contains("Windows"));
    let m = cannot_listen_message("fuente", "127.0.0.5", 5025, "address in use");
    assert!(m.contains("Windows"), "dijo: {m}");
}

#[test]
fn a_permission_problem_does_not_blame_the_address() {
    let m = portmapper_failure_message("127.0.0.5", "permission denied", true);
    assert!(m.contains("no puedo abrir el portmapper en 127.0.0.5:111 (permission denied)"), "dijo: {m}");
    assert!(!m.contains("Windows"));
    let m = portmapper_failure_message("127.0.0.5", "cannot assign", false);
    assert!(m.contains("Windows"), "dijo: {m}");
}

#[test]
fn the_table_columns_fit_the_widest_entry() {
    let filas = vec![
        ("fuente".to_string(), "E36312A".to_string(), "TCPIP0::127.0.0.1::5025::SOCKET".to_string()),
        ("dmm".to_string(), "X".to_string(), "TCPIP0::127.0.0.2::inst0::INSTR".to_string()),
    ];
    let lineas = lineas_de_tabla(&filas);
    assert_eq!(
        lineas,
        vec![
            "".to_string(),
            "  ID      MODELO   RECURSO VISA".to_string(),
            "  fuente  E36312A  TCPIP0::127.0.0.1::5025::SOCKET".to_string(),
            "  dmm     X        TCPIP0::127.0.0.2::inst0::INSTR".to_string(),
        ]
    );
}

#[test]
fn the_table_headings_set_the_narrowest_columns() {
    let filas = vec![("a".to_string(), "m".to_string(), "r".to_string())];
    assert_eq!(
        lineas_de_tabla(&filas),
        vec!["".to_string(), "  ID  MODELO  RECURSO VISA".to_string(), "  a   m       r".to_string()]
    );
    assert_eq!(lineas_de_tabla(&Vec::new()), vec!["".to_string(), "  ID  MODELO  RECURSO VISA".to_string()]);
}

#[test]
fn a_received_line_loses_its_line_breaks() {
    assert_eq!(mensaje_de_linea("*IDN?\r\n"), Some("*IDN?".to_string()));
    assert_eq!(mensaje_de_linea("VOLT 1\n"), Some("VOLT 1".to_string()));
    assert_eq!(mensaje_de_linea("  MEAS?\n\n"), Some("  MEAS?".to_string()));
    assert_eq!(mensaje_de_linea("\r\n"), None);
    assert_eq!(mensaje_de_linea(""), None);
}
