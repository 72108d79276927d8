use instrusim::cli::{
    analizar_argumentos, interpretar_argumentos, lineas_de_bienvenida, parse_port, Opciones, Orden, Peticion,
};

fn args(v: &[&str]) -> Vec<String> {
    v.iter().map(|s| s.to_string()).collect()
}

#[test]
fn sin_argumentos_se_arranca_el_banco_por_defecto() {
    assert_eq!(interpretar_argumentos(&args(&[])), Ok(Orden::ArrancarPorDefecto));
}

#[test]
fn la_ayuda_y_la_version() {
    for a in ["-h", "--help", "--ayuda"] {
        assert_eq!(interpretar_argumentos(&args(&[a])), Ok(Orden::Ayuda));
    }
    for a in ["-V", "--version"] {
        assert_eq!(interpretar_argumentos(&args(&[a])), Ok(Orden::Version));
    }
}

#[test]
fn validar_necesita_un_fichero() {
    assert_eq!(
        interpretar_argumentos(&args(&["--validar", "banco.yaml"])),
        Ok(Orden::Validar("banco.yaml".to_string()))
    );
    assert_eq!(
        interpretar_argumentos(&args(&["--validar"])),
        Err("falta el fichero: crucible --validar <fichero>".to_string())
    );
    assert_eq!(
        interpretar_argumentos(&args(&["--banco"])),
        Err("falta el fichero: crucible --banco <banco.yaml>".to_string())
    );
    assert_eq!(
        interpretar_argumentos(&args(&["--banco", "b.yaml"])),
        Ok(Orden::Arrancar("b.yaml".to_string(), None))
    );
}

#[test]
fn un_perfil_suelto_admite_su_puerto() {
    assert_eq!(
        interpretar_argumentos(&args(&["perfil.yaml", "5026"])),
        Ok(Orden::Arrancar("perfil.yaml".to_string(), Some(5026)))
    );
    assert_eq!(
        interpretar_argumentos(&args(&["perfil.yaml"])),
        Ok(Orden::Arrancar("perfil.yaml".to_string(), None))
    );
    assert_eq!(
        interpretar_argumentos(&args(&["perfil.yaml", "70000"])),
        Err("'70000' no es un puerto válido".to_string())
    );
}

#[test]
fn los_puertos_se_leen_como_u16() {
    assert_eq!(parse_port("5025"), Some(5025));
    assert_eq!(parse_port("+80"), Some(80));
    assert_eq!(parse_port("65535"), Some(65535));
    assert_eq!(parse_port("65536"), None);
    assert_eq!(parse_port(""), None);
    assert_eq!(parse_port("+"), None);
    assert_eq!(parse_port("-1"), None);
    assert_eq!(parse_port("5 025"), None);
}

#[test]
fn las_opciones_del_rack() {
    assert_eq!(
        analizar_argumentos(&args(&[])),
        Ok(Peticion::Arrancar(Opciones::default()))
    );
    assert_eq!(
        analizar_argumentos(&args(&["--bind", "0.0.0.0", "--port", "6000", "--virtual-clock"])),
        Ok(Peticion::Arrancar(Opciones {
            bind: "0.0.0.0".to_string(),
            puerto_base: 6000,
            reloj_virtual: true
        }))
    );
    assert_eq!(analizar_argumentos(&args(&["--port", "1", "-h"])), Ok(Peticion::Ayuda));
    assert_eq!(analizar_argumentos(&args(&["-V"])), Ok(Peticion::Version));
    assert_eq!(
        analizar_argumentos(&args(&["--bind"])),
        Err("--bind necesita una dirección".to_string())
    );
    assert_eq!(
        analizar_argumentos(&args(&["--port"])),
        Err("--port necesita un número".to_string())
    );
    assert_eq!(
        analizar_argumentos(&args(&["--port", "x"])),
        Err("puerto inválido: x".to_string())
    );
    assert_eq!(
        analizar_argumentos(&args(&["--rapido"])),
        Err("opción desconocida: --rapido".to_string())
    );
}

#[test]
fn the_welcome_names_every_instrument_and_a_first_query() {
    let servidos = vec![
        ("127.0.0.1".to_string(), 5025u16, "InstruSim,GDM-1000,0,1.0".to_string()),
        ("127.0.0.1".to_string(), 5026u16, "InstruSim,PSU-3000,0,1.0".to_string()),
    ];
    let lineas = lineas_de_bienvenida("0.1.0", &servidos);
    let esperado = vec![
        "InstruSim 0.1.0 — rack simulado en marcha",
        "",
        "  InstruSim,GDM-1000,0,1.0",
        "    VISA    TCPIP0::127.0.0.1::5025::SOCKET",
        "    netcat  nc 127.0.0.1 5025",
        "",
        "  InstruSim,PSU-3000,0,1.0",
        "    VISA    TCPIP0::127.0.0.1::5026::SOCKET",
        "    netcat  nc 127.0.0.1 5026",
        "",
        "Pruébelo:",
        "    printf '*IDN?\\n' | nc -q1 127.0.0.1 5025",
        "",
        "Ctrl-C para parar.",
    ];
    assert_eq!(lineas, esperado);
    assert_eq!(
        lineas_de_bienvenida("0.1.0", &Vec::new()),
        vec!["InstruSim 0.1.0 — rack simulado en marcha", "", "Pruébelo:", "", "Ctrl-C para parar."]
    );
}
