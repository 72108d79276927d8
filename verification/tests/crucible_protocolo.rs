use instrusim::error::ErrorCode;
use instrusim::parse::parse_message;
use instrusim::perfil::Comando;
use instrusim::protocolo::{planear_mutacion, resolver_plantilla, ComandosPerfil, Respuesta};

fn pares(v: &[(&str, &str)]) -> Vec<(String, String)> {
    v.iter().map(|(a, b)| (a.to_string(), b.to_string())).collect()
}

#[test]
fn la_plantilla_toma_variables_del_estado() {
    let estado = pares(&[("v", "5.0")]);
    assert_eq!(resolver_plantilla("V={v}", &estado, &Vec::new()), "V=5.0");
}

#[test]
fn una_referencia_inexistente_se_queda_literal() {
    assert_eq!(resolver_plantilla("{nada}", &Vec::new(), &Vec::new()), "{nada}");
}

#[test]
fn la_plantilla_toma_los_argumentos_por_su_nombre() {
    let estado = pares(&[("modo", "CW")]);
    let args = pares(&[("0", "3"), ("canal", "3")]);
    assert_eq!(
        resolver_plantilla("CH<canal>:{modo};<0>", &estado, &args),
        "CH3:CW;3"
    );
}

#[test]
fn una_marca_sin_cerrar_deja_el_resto_tal_cual() {
    let estado = pares(&[("v", "1")]);
    assert_eq!(resolver_plantilla("{v} y {v", &estado, &Vec::new()), "1 y {v");
    assert_eq!(resolver_plantilla("<x", &estado, &Vec::new()), "<x");
    assert_eq!(resolver_plantilla("respuesta fija", &estado, &Vec::new()), "respuesta fija");
}

#[test]
fn un_argumento_opcional_que_no_llega_no_cambia_nada() {
    let muta = pares(&[("rango", "<rango>"), ("funcion", "\"VOLT\"")]);
    let plan = planear_mutacion(&muta, &Vec::new());
    assert_eq!(plan, pares(&[("funcion", "VOLT")]));
}

#[test]
fn cada_variable_toma_el_valor_de_su_expresion() {
    let muta = pares(&[("a", "7"), ("b", "<x>"), ("c", " x ")]);
    let args = pares(&[("x", "no_es_un_numero")]);
    let plan = planear_mutacion(&muta, &args);
    assert_eq!(plan, pares(&[("a", "7"), ("b", "no_es_un_numero"), ("c", "no_es_un_numero")]));
}

fn comando(patron: &str, args: &[&str], query: bool, respuesta: Option<&str>, modelo: Option<&str>) -> Comando {
    Comando {
        patron: patron.to_string(),
        args: args.iter().map(|s| s.to_string()).collect(),
        query,
        muta: None,
        respuesta: respuesta.map(|s| s.to_string()),
        modelo: modelo.map(|s| s.to_string()),
    }
}

fn keithley() -> ComandosPerfil {
    ComandosPerfil::nuevo(vec![
        comando("OUTPut[:STATe]", &["on"], false, None, None),
        comando("SOURce:VOLTage[:LEVel]", &["v"], false, None, None),
        comando("SOURce:VOLTage[:LEVel]", &[], true, Some("{voltaje_fuente}"), None),
        comando("MEASure:VOLTage[:DC]", &[], true, None, Some("medir_voltaje")),
        comando("SYSTem:BEEPer", &[], true, None, None),
    ])
}

#[test]
fn la_forma_decide_que_comando_contesta() {
    let p = keithley();
    let orden = &parse_message("SOUR:VOLT 5.0").unwrap()[0];
    let d = p.despachar(orden).unwrap();
    assert_eq!(d.indice, 1);
    assert_eq!(d.respuesta, Respuesta::Ninguna);
    assert!(d.args.contains(&("v".to_string(), "5.0".to_string())));
    assert!(d.args.contains(&("0".to_string(), "5.0".to_string())));

    let consulta = &parse_message("source:voltage:level?").unwrap()[0];
    let d = p.despachar(consulta).unwrap();
    assert_eq!(d.indice, 2);
    assert_eq!(d.respuesta, Respuesta::Plantilla("{voltaje_fuente}".to_string()));
}

#[test]
fn una_consulta_con_modelo_pide_el_modelo() {
    let p = keithley();
    let c = &parse_message("MEAS:VOLT?").unwrap()[0];
    assert_eq!(p.despachar(c).unwrap().respuesta, Respuesta::Modelo("medir_voltaje".to_string()));
    let c = &parse_message("SYST:BEEP?").unwrap()[0];
    assert_eq!(p.despachar(c).unwrap().respuesta, Respuesta::Incompleta);
}

#[test]
fn una_cabecera_que_no_es_de_su_forma_no_existe() {
    let p = keithley();
    let c = &parse_message("OUTP?").unwrap()[0];
    let e = p.despachar(c).unwrap_err();
    assert_eq!(e.code, ErrorCode::UndefinedHeader);
    assert_eq!(e.to_string(), "-113,\"Undefined header;OUTP\"");
    let c = &parse_message("FOO:BAR").unwrap()[0];
    assert!(p.despachar(c).is_err());
    assert_eq!(p.comandos().len(), 5);
}
