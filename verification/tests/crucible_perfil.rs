use instrusim::crucible_error::CrucibleError;
use instrusim::perfil::{Comando, DispositivoInfo, ModeloDef, Perfil, ProtocoloTipo};
use instrusim::protocolo::comprobar_protocolo;

fn comando(patron: &str, query: bool, respuesta: Option<&str>, modelo: Option<&str>) -> Comando {
    Comando {
        patron: patron.to_string(),
        args: Vec::new(),
        query,
        muta: None,
        respuesta: respuesta.map(|s| s.to_string()),
        modelo: modelo.map(|s| s.to_string()),
    }
}

fn formula(expr: Option<&str>, formato: Option<&str>) -> ModeloDef {
    ModeloDef {
        tipo: "formula".to_string(),
        cuando: None,
        expr: expr.map(|s| s.to_string()),
        fallback: None,
        formato: formato.map(|s| s.to_string()),
    }
}

fn perfil(modelo: &str, comandos: Vec<Comando>, modelos: Vec<(&str, ModeloDef)>) -> Perfil {
    Perfil {
        dispositivo: DispositivoInfo {
            modelo: modelo.to_string(),
            tipo: None,
            idn: Some("Keithley,2400,1234567,A1.2".to_string()),
        },
        protocolo: ProtocoloTipo::Scpi,
        comandos,
        registros: None,
        modelos: modelos.into_iter().map(|(n, m)| (n.to_string(), m)).collect(),
    }
}

fn motivo(p: &Perfil) -> String {
    match p.validar() {
        Err(CrucibleError::PerfilInvalido(m)) => m,
        other => panic!("unexpected {other:?}"),
    }
}

#[test]
fn un_perfil_bien_formado_se_acepta() {
    let p = perfil(
        "2400",
        vec![
            comando("SOURce:VOLTage[:LEVel]", false, None, None),
            comando("SOURce:VOLTage[:LEVel]", true, Some("{voltaje_fuente}"), None),
            comando("MEASure:VOLTage", true, None, Some("medida")),
        ],
        vec![("medida", formula(Some("voltaje_fuente * 1.0"), Some("fijo:3")))],
    );
    assert!(p.validar().is_ok());
}

#[test]
fn el_modelo_del_dispositivo_no_puede_faltar() {
    let p = perfil("", vec![], vec![]);
    assert_eq!(motivo(&p), "dispositivo.modelo no puede estar vacío");
}

#[test]
fn un_comando_no_puede_citar_un_modelo_que_no_existe() {
    let p = perfil("2400", vec![comando("MEAS:VOLT", true, None, Some("fantasma"))], vec![]);
    assert_eq!(motivo(&p), "comando 'MEAS:VOLT' referencia modelo 'fantasma' que no existe");
}

#[test]
fn los_patrones_del_formato_antiguo_se_rechazan() {
    let p = perfil("2400", vec![comando("SOUR:VOLT <x>", false, None, None)], vec![]);
    assert!(motivo(&p).contains("lleva un argumento incrustado"));
    let p = perfil("2400", vec![comando("SOUR:VOLT?", true, Some("1"), None)], vec![]);
    assert!(motivo(&p).contains("acaba en '?'"));
    let p = perfil("2400", vec![comando("*IDN", true, Some("x"), None)], vec![]);
    assert!(motivo(&p).contains("comando común de IEEE 488.2"));
    let p = perfil("2400", vec![comando("   ", false, None, None)], vec![]);
    assert_eq!(motivo(&p), "hay un patrón vacío");
}

#[test]
fn una_consulta_sin_respuesta_ni_modelo_se_rechaza() {
    let p = perfil("2400", vec![comando("MEAS:VOLT", true, None, None)], vec![]);
    assert_eq!(
        motivo(&p),
        "la consulta 'MEAS:VOLT' no tiene 'respuesta' ni 'modelo': no sabría qué contestar"
    );
}

#[test]
fn solo_existen_los_modelos_de_formula() {
    let mut m = formula(Some("1"), None);
    m.tipo = "tabla".to_string();
    let p = perfil("2400", vec![], vec![("m", m)]);
    assert_eq!(
        motivo(&p),
        "modelo 'm': tipo 'tabla' no soportado; el único que existe es 'formula'"
    );
}

#[test]
fn un_modelo_sin_formula_se_rechaza() {
    let p = perfil("2400", vec![], vec![("m", formula(None, None))]);
    assert_eq!(motivo(&p), "modelo 'm': falta 'expr'");
}

#[test]
fn el_formato_del_modelo_se_comprueba_al_cargar() {
    let p = perfil("2400", vec![], vec![("m", formula(Some("1"), Some("hex")))]);
    assert_eq!(
        motivo(&p),
        "modelo 'm': perfil inválido: formato 'hex' desconocido; usa 'entero', 'fijo:N' o 'cientifico:N'"
    );
}

#[test]
fn la_formula_del_modelo_se_comprueba_al_cargar() {
    let p = perfil("2400", vec![], vec![("m", formula(Some("a +"), None))]);
    let m = motivo(&p);
    assert!(m.starts_with("modelo 'm': error de evaluación: fórmula 'a +'"), "dijo: {m}");
}

#[test]
fn los_comandos_se_comprueban_antes_que_los_modelos() {
    let p = perfil(
        "2400",
        vec![comando("MEAS:VOLT", true, None, None)],
        vec![("m", formula(None, None))],
    );
    assert!(motivo(&p).starts_with("la consulta"));
}

#[test]
fn only_an_scpi_profile_becomes_an_scpi_device() {
    let mut p = perfil("2400", Vec::new(), Vec::new());
    assert!(comprobar_protocolo(&p).is_ok());
    p.protocolo = ProtocoloTipo::ModbusTcp;
    match comprobar_protocolo(&p) {
        Err(CrucibleError::Protocolo(m)) => assert_eq!(m, "el perfil '2400' declara protocolo ModbusTcp, no SCPI"),
        other => panic!("unexpected {other:?}"),
    }
}

#[test]
fn a_model_name_used_twice_is_refused() {
    let p = perfil(
        "2400",
        vec![comando("MEASure:VOLTage", true, None, Some("medida"))],
        vec![("medida", formula(Some("1.0"), None)), ("medida", formula(Some("2.0"), None))],
    );
    assert_eq!(motivo(&p), "modelo 'medida' declarado más de una vez");
}
