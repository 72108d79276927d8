use instrusim::error::ErrorCode;
use instrusim::parse::{parse_message, Command};

fn uno(line: &str) -> Command {
    let mut cmds = parse_message(line).expect("should parse");
    assert_eq!(cmds.len(), 1, "a single command was expected");
    cmds.remove(0)
}

#[test]
fn un_comando_simple() {
    let c = uno("*IDN?");
    assert_eq!(c.header, "*IDN");
    assert!(c.query);
    assert!(c.args.is_empty());
    assert!(c.is_common());
}

#[test]
fn la_cabecera_se_normaliza_a_mayusculas() {
    assert_eq!(uno("meas:volt:dc?").header, "MEAS:VOLT:DC");
}

#[test]
fn los_dos_puntos_iniciales_se_descartan() {
    assert_eq!(uno(":CONF:VOLT:DC 10").header, "CONF:VOLT:DC");
}

#[test]
fn los_argumentos_se_separan_por_comas() {
    let c = uno("CONF:VOLT:DC 10,0.001");
    assert_eq!(c.args, vec!["10", "0.001"]);
    assert!(!c.query);
}

#[test]
fn varios_comandos_en_una_linea() {
    let cmds = parse_message("*CLS;*IDN?").unwrap();
    assert_eq!(cmds.len(), 2);
    assert_eq!(cmds[0].header, "*CLS");
    assert_eq!(cmds[1].header, "*IDN");
}

#[test]
fn las_cabeceras_encadenadas_son_relativas() {
    let cmds = parse_message("SENS:VOLT:DC:NPLC 1;RANG 10").unwrap();
    assert_eq!(cmds[0].header, "SENS:VOLT:DC:NPLC");
    assert_eq!(cmds[1].header, "SENS:VOLT:DC:RANG");
}

#[test]
fn los_dos_puntos_iniciales_vuelven_a_la_raiz() {
    let cmds = parse_message("SENS:VOLT:DC:NPLC 1;:OUTP ON").unwrap();
    assert_eq!(cmds[1].header, "OUTP");
}

#[test]
fn los_comandos_comunes_no_alteran_el_contexto() {
    let cmds = parse_message("SENS:VOLT:DC:NPLC 1;*CLS;RANG 10").unwrap();
    assert_eq!(cmds[2].header, "SENS:VOLT:DC:RANG");
}

#[test]
fn un_punto_y_coma_entre_comillas_no_parte_el_mensaje() {
    let c = uno("SYST:COMM:TEXT \"hola;adios\"");
    assert_eq!(c.args, vec!["\"hola;adios\""]);
}

#[test]
fn los_booleanos_admiten_las_cuatro_formas() {
    assert!(uno("OUTP ON").boolean(0).unwrap());
    assert!(uno("OUTP 1").boolean(0).unwrap());
    assert!(!uno("OUTP off").boolean(0).unwrap());
    assert!(!uno("OUTP 0").boolean(0).unwrap());
}

#[test]
fn los_argumentos_de_mas_se_rechazan() {
    assert_eq!(
        uno("*CLS 1").expect_no_args().unwrap_err().code,
        ErrorCode::ParameterNotAllowed
    );
}

#[test]
fn una_cabecera_vacia_es_un_error_de_sintaxis() {
    let e = parse_message("*CLS;?").unwrap_err();
    assert_eq!(e.code, ErrorCode::SyntaxError);
    assert_eq!(e.detail.as_deref(), Some("?"));
}

#[test]
fn los_trozos_en_blanco_se_ignoran() {
    let cmds = parse_message("  ;*RST;;  ").unwrap();
    assert_eq!(cmds.len(), 1);
    assert_eq!(cmds[0].header, "*RST");
    assert!(parse_message("").unwrap().is_empty());
}

#[test]
fn un_parametro_ausente_o_ilegible_da_el_error_del_estandar() {
    let c = uno("OUTP");
    assert_eq!(c.arg(0).unwrap_err().code, ErrorCode::MissingParameter);
    assert_eq!(c.boolean(0).unwrap_err().code, ErrorCode::MissingParameter);
    let c = uno("OUTP patata");
    assert_eq!(c.arg(0).unwrap(), "patata");
    let e = c.boolean(0).unwrap_err();
    assert_eq!(e.code, ErrorCode::IllegalParameterValue);
    assert_eq!(e.detail.as_deref(), Some("patata"));
    assert!(uno("OUTP").expect_no_args().is_ok());
}

#[test]
fn un_parametro_ausente_da_el_error_del_estandar() {
    let c = uno("VOLT");
    assert_eq!(c.numeric_arg(0).unwrap_err().code, ErrorCode::MissingParameter);
}
