use instrusim::pattern::Pattern;
use instrusim::table::CommandTable;

#[test]
fn acepta_forma_corta_y_larga() {
    let p = Pattern::parse("MEASure:VOLTage:DC");

    assert!(p.matches("MEAS:VOLT:DC").is_some());
    assert!(p.matches("MEASURE:VOLTAGE:DC").is_some());
    assert!(p.matches("MEAS:VOLTAGE:DC").is_some()); // mixed
}

#[test]
fn no_distingue_mayusculas_de_minusculas() {
    let p = Pattern::parse("MEASure:VOLTage:DC");
    assert!(p.matches("meas:volt:dc").is_some());
    assert!(p.matches("Measure:Voltage:Dc").is_some());
}

#[test]
fn rechaza_abreviaturas_que_el_estandar_no_admite() {
    let p = Pattern::parse("MEASure:VOLTage:DC");
    // "MEASUR" is neither the short nor the long form.
    assert!(p.matches("MEASUR:VOLT:DC").is_none());
    assert!(p.matches("M:VOLT:DC").is_none());
}

#[test]
fn los_tramos_opcionales_se_pueden_omitir_o_no() {
    let p = Pattern::parse("[SENSe:]VOLTage[:DC]:RANGe");

    assert!(p.matches("SENS:VOLT:DC:RANG").is_some());
    assert!(p.matches("VOLT:DC:RANG").is_some());
    assert!(p.matches("SENS:VOLT:RANG").is_some());
    assert!(p.matches("VOLT:RANG").is_some());
}

#[test]
fn los_tramos_obligatorios_no_se_pueden_omitir() {
    let p = Pattern::parse("[SENSe:]VOLTage[:DC]:RANGe");
    assert!(p.matches("SENS:DC:RANG").is_none());
    assert!(p.matches("VOLT:DC").is_none());
}

#[test]
fn sobran_tramos_al_final() {
    let p = Pattern::parse("MEASure:VOLTage");
    assert!(p.matches("MEAS:VOLT:DC").is_none());
}

#[test]
fn los_dos_puntos_iniciales_son_opcionales() {
    let p = Pattern::parse("MEASure:VOLTage");
    assert!(p.matches(":MEAS:VOLT").is_some());
}

#[test]
fn extrae_el_sufijo_numerico_de_canal() {
    let p = Pattern::parse("OUTPut:STATe");

    assert_eq!(p.matches("OUTP:STAT"), Some(vec![]));
    assert_eq!(p.matches("OUTP2:STAT"), Some(vec![2]));
    assert_eq!(p.matches("OUTPUT12:STATE"), Some(vec![12]));
}

#[test]
fn un_tramo_opcional_intermedio_se_salta_bien() {
    let p = Pattern::parse("SOURce[:CURRent]:CLIMit");
    assert!(p.matches("SOUR:CURR:CLIM").is_some());
    assert!(p.matches("SOUR:CLIM").is_some());
}

#[test]
fn la_vuelta_atras_deshace_una_eleccion_equivocada() {
    let p = Pattern::parse("A[:B]:B");
    assert!(p.matches("A:B").is_some());
    assert!(p.matches("A:B:B").is_some());
    assert!(p.matches("A").is_none());
}

#[test]
fn la_forma_canonica_es_la_larga() {
    let p = Pattern::parse("[SENSe:]VOLTage[:DC]:RANGe");
    assert_eq!(p.canonical(), "SENSE:VOLTAGE:DC:RANGE");
}

#[test]
fn un_patron_en_minusculas_solo_acepta_la_palabra_entera() {
    let p = Pattern::parse("volt");
    assert!(p.matches("VOLT").is_some());
    assert!(p.matches("VO").is_none());
}

#[test]
fn un_sufijo_demasiado_grande_no_lleva_canal() {
    let p = Pattern::parse("OUTPut");
    assert_eq!(p.matches("OUTP99999999999"), Some(vec![]));
}

#[derive(Debug, PartialEq, Clone, Copy)]
enum Accion {
    Medir,
    Configurar,
    Rango,
}

fn tabla() -> CommandTable<Accion> {
    CommandTable::from_pairs(vec![
        ("MEASure[:VOLTage][:DC]", Accion::Medir),
        ("CONFigure[:VOLTage][:DC]", Accion::Configurar),
        ("[SENSe:]VOLTage[:DC]:RANGe", Accion::Rango),
    ])
}

#[test]
fn encuentra_la_accion_por_forma_corta_y_larga() {
    let t = tabla();
    assert_eq!(t.lookup("MEAS").map(|(a, _)| *a), Some(Accion::Medir));
    assert_eq!(t.lookup("MEAS:VOLT:DC").map(|(a, _)| *a), Some(Accion::Medir));
    assert_eq!(t.lookup("MEASURE:VOLTAGE").map(|(a, _)| *a), Some(Accion::Medir));
}

#[test]
fn una_cabecera_desconocida_no_encuentra_nada() {
    assert!(tabla().lookup("MEAS:TEMP").is_none());
}

#[test]
fn devuelve_los_sufijos_de_canal() {
    let t = CommandTable::from_pairs(vec![("OUTPut[:STATe]", Accion::Medir)]);
    assert_eq!(t.lookup("OUTP3:STAT").map(|(_, s)| s), Some(vec![3]));
}

#[test]
fn el_primer_patron_que_encaja_gana() {
    let t = CommandTable::from_pairs(vec![
        ("VOLTage", Accion::Configurar),
        ("VOLTage", Accion::Rango),
    ]);
    assert_eq!(t.lookup("VOLT").map(|(a, _)| *a), Some(Accion::Configurar));
    assert_eq!(t.len(), 2);
    assert!(!t.is_empty());
    assert!(CommandTable::<Accion>::new().is_empty());
}

#[test]
fn the_first_declared_pattern_wins_and_adding_keeps_earlier_answers() {
    let mut t = CommandTable::from_pairs(vec![("VOLTage[:DC]", 1u8), ("VOLTage:DC", 2u8)]);
    assert_eq!(t.lookup("VOLT:DC").map(|(a, _)| *a), Some(1));
    assert_eq!(t.lookup("CURR").map(|(a, _)| *a), None);
    t.add("CURRent", 3u8);
    t.add("VOLT", 4u8);
    assert_eq!(t.lookup("VOLT").map(|(a, _)| *a), Some(1));
    assert_eq!(t.lookup("curr").map(|(a, _)| *a), Some(3));
    let mut u = CommandTable::new();
    u.add("VOLTage[:DC]", 1u8);
    u.add("VOLTage:DC", 2u8);
    assert_eq!(u.len(), 2);
    assert_eq!(u.lookup("VOLT:DC").map(|(a, _)| *a), Some(1));
}

#[test]
fn the_canonical_form_drops_the_brackets_and_empty_pieces() {
    assert_eq!(Pattern::parse("[SENSe:]VOLTage[:DC]:RANGe").canonical(), "SENSE:VOLTAGE:DC:RANGE");
    assert_eq!(Pattern::parse("::meas:[volt]").canonical(), "MEAS:VOLT");
}
