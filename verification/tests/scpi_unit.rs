use instrusim::parse::{parse_message, NumericArg};
use instrusim::unit::{fin_de_mantisa, multiplicador, partir_decimal};

/// A decimal parameter read as a number in the base unit: the library takes
/// it apart and the number is read here.
fn parse_decimal(raw: &str) -> Option<f64> {
    let (mantisa, potencia) = partir_decimal(raw)?;
    let v: f64 = mantisa.parse().ok()?;
    Some(v * 10f64.powi(potencia as i32))
}

fn casi(a: Option<f64>, b: f64) {
    let a = a.expect("a number was expected");
    assert!((a - b).abs() <= b.abs() * 1e-12, "expected {b}, got {a}");
}

#[test]
fn un_numero_sin_sufijo_se_lee_tal_cual() {
    assert_eq!(parse_decimal("10"), Some(10.0));
    assert_eq!(parse_decimal("-3.5"), Some(-3.5));
    assert_eq!(parse_decimal("1e-3"), Some(1e-3));
    assert_eq!(parse_decimal("+2.5E3"), Some(2500.0));
}

#[test]
fn el_sufijo_de_frecuencia_aporta_el_multiplicador() {
    casi(parse_decimal("2.4 GHZ"), 2.4e9);
    casi(parse_decimal("2.4GHZ"), 2.4e9);
    casi(parse_decimal("100 MHZ"), 100e6);
    casi(parse_decimal("100 KHZ"), 100e3);
    assert_eq!(parse_decimal("9 HZ"), Some(9.0));
}

#[test]
fn la_eme_es_mega_en_hercios_y_mili_en_lo_demas() {
    casi(parse_decimal("1 MHZ"), 1e6);
    casi(parse_decimal("1 MAHZ"), 1e6);
    casi(parse_decimal("1 MA"), 1e-3);
    casi(parse_decimal("1 MV"), 1e-3);
    casi(parse_decimal("1 MS"), 1e-3);
}

#[test]
fn las_unidades_electricas_admiten_prefijo() {
    casi(parse_decimal("10 V"), 10.0);
    casi(parse_decimal("500 MV"), 0.5);
    casi(parse_decimal("2 KV"), 2000.0);
    casi(parse_decimal("25 A"), 25.0);
    casi(parse_decimal("100 UA"), 100e-6);
    casi(parse_decimal("1500 W"), 1500.0);
}

#[test]
fn las_unidades_logaritmicas_no_se_escalan() {
    assert_eq!(parse_decimal("-10 DBM"), Some(-10.0));
    assert_eq!(parse_decimal("-144DBM"), Some(-144.0));
    assert_eq!(parse_decimal("3 DB"), Some(3.0));
    assert_eq!(parse_decimal("1 MDBM"), None);
}

#[test]
fn la_e_del_exponente_no_se_confunde_con_el_prefijo_exa() {
    assert_eq!(parse_decimal("1E3"), Some(1000.0));
    assert_eq!(parse_decimal("1E3HZ"), Some(1000.0));
}

#[test]
fn un_sufijo_desconocido_es_un_error_y_no_un_descarte() {
    assert_eq!(parse_decimal("2 XYZZY"), None);
    assert_eq!(parse_decimal("MAX"), None);
    assert_eq!(parse_decimal(""), None);
    assert_eq!(parse_decimal("ON"), None);
}

#[test]
fn la_mantisa_y_la_potencia_salen_por_separado() {
    assert_eq!(partir_decimal("  2.4 GHZ "), Some(("2.4".to_string(), 9)));
    assert_eq!(partir_decimal("1EXHZ"), Some(("1".to_string(), 18)));
    assert_eq!(partir_decimal("1EX"), None);
    assert_eq!(partir_decimal("-5 mv"), Some(("-5".to_string(), -3)));
    assert_eq!(partir_decimal("7 PCT"), Some(("7".to_string(), 0)));
    assert_eq!(partir_decimal("   "), None);
}

#[test]
fn el_final_de_la_mantisa() {
    let v = |s: &str| s.chars().collect::<Vec<char>>();
    assert_eq!(fin_de_mantisa(&v("1E3HZ")), 3);
    assert_eq!(fin_de_mantisa(&v("1EX")), 1);
    assert_eq!(fin_de_mantisa(&v("-2.5e+4 V")), 7);
    assert_eq!(fin_de_mantisa(&v("1E")), 1);
    assert_eq!(fin_de_mantisa(&v("abc")), 0);
}

#[test]
fn los_multiplicadores_son_potencias_de_diez() {
    let v = |s: &str| s.chars().collect::<Vec<char>>();
    assert_eq!(multiplicador(&v("GHZ")), Some(9));
    assert_eq!(multiplicador(&v("MHZ")), Some(6));
    assert_eq!(multiplicador(&v("MA")), Some(-3));
    assert_eq!(multiplicador(&v("FS")), Some(-15));
    assert_eq!(multiplicador(&v("DBUV")), Some(0));
    assert_eq!(multiplicador(&v("KDB")), None);
    assert_eq!(multiplicador(&v("QV")), None);
}

#[test]
fn los_numeros_admiten_las_palabras_clave_del_estandar() {
    let c = &parse_message("VOLT MIN").unwrap()[0];
    assert_eq!(c.numeric_arg(0).unwrap(), NumericArg::Min);
    let c = &parse_message("VOLT MAXimum").unwrap()[0];
    assert_eq!(c.numeric_arg(0).unwrap(), NumericArg::Max);
    let c = &parse_message("VOLT def").unwrap()[0];
    assert_eq!(c.numeric_arg(0).unwrap(), NumericArg::Default);
}

#[test]
fn un_argumento_numerico_deja_fuera_la_unidad() {
    let c = &parse_message("VOLT 10 V").unwrap()[0];
    assert_eq!(
        c.numeric_arg(0).unwrap(),
        NumericArg::Number { digits: "10".to_string(), raw: "10 V".to_string() }
    );
    let c = &parse_message("VOLT patata").unwrap()[0];
    assert_eq!(
        c.numeric_arg(0).unwrap(),
        NumericArg::Number { digits: String::new(), raw: "patata".to_string() }
    );
    let c = &parse_message("VOLT").unwrap()[0];
    assert_eq!(c.numeric_arg(0).unwrap_err().code.code(), -109);
}
