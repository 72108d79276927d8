use instrusim::banco::Transporte;
use instrusim::crucible_error::CrucibleError;
use instrusim::formula::{analizar, validar_formula, Expr};
use instrusim::modelo::{texto_a_bool, EvaluadorModelos, Formato};
use instrusim::perfil::{Comando, ModeloDef};
use instrusim::protocolo::{booleano, compilar_tabla, nombrar_args, resolver_expr};

#[test]
fn una_formula_mal_escrita_se_rechaza_al_validar() {
    for mala in ["(a + b", "a +", "foo(1)", "gauss(1)", "a $ b", "2 3"] {
        assert!(validar_formula(mala).is_err(), "accepted '{mala}'");
    }
    assert!(validar_formula("gauss(0, 1e-3) + (v / 2)").is_ok());
}

#[test]
fn el_formato_se_lee_del_perfil_y_rechaza_lo_desconocido() {
    assert_eq!(Formato::parse("entero").unwrap(), Formato::Entero);
    assert_eq!(Formato::parse("fijo:4").unwrap(), Formato::Fijo(4));
    assert_eq!(Formato::parse("Cientifico").unwrap(), Formato::Cientifico(6));
    for malo in ["hex", "fijo:x", "entero:2", "cientifico:99"] {
        assert!(Formato::parse(malo).is_err(), "accepted '{malo}'");
    }
}

fn mensaje(r: Result<(), CrucibleError>) -> String {
    match r {
        Err(CrucibleError::Evaluacion(m)) => m,
        other => panic!("unexpected {other:?}"),
    }
}

#[test]
fn el_error_dice_que_falla_y_donde() {
    assert_eq!(mensaje(validar_formula("(a + b")), "fórmula '(a + b': falta un ')' (posición 7)");
    assert_eq!(mensaje(validar_formula("2 3")), "fórmula '2 3': sobra texto al final (posición 3)");
    assert_eq!(
        mensaje(validar_formula("foo(1)")),
        "fórmula 'foo(1)': función 'foo' desconocida; existen: gauss, abs, sqrt, min, max (posición 4)"
    );
    assert_eq!(
        mensaje(validar_formula("gauss(1)")),
        "fórmula 'gauss(1)': gauss necesita 2 argumento(s) y recibe 1 (posición 9)"
    );
    assert_eq!(mensaje(validar_formula("1.2.3")), "fórmula '1.2.3': número mal escrito (posición 6)");
    assert_eq!(mensaje(validar_formula("\"v")), "fórmula '\"v': comilla sin cerrar (posición 3)");
    assert_eq!(mensaje(validar_formula("a $ b")), "fórmula 'a $ b': sobra texto al final (posición 3)");
    assert_eq!(mensaje(validar_formula("")), "fórmula '': la fórmula acaba antes de tiempo (posición 1)");
}

#[test]
fn la_formula_se_lee_con_su_precedencia() {
    match analizar("a + b * 3").unwrap() {
        Expr::Bin('+', izq, der) => {
            assert!(matches!(*izq, Expr::Var(ref n) if n == "a"));
            assert!(matches!(*der, Expr::Bin('*', _, _)));
        }
        otra => panic!("unexpected {otra:?}"),
    }
    assert!(matches!(analizar("2.5E+2").unwrap(), Expr::Num(ref t) if t == "2.5E+2"));
    assert!(matches!(analizar("-\"v\"").unwrap(), Expr::Neg(_)));
    assert!(matches!(analizar("max(x, 1)").unwrap(), Expr::Func(ref n, ref a) if n == "max" && a.len() == 2));
    assert!(validar_formula("1e").is_err());
    assert!(validar_formula(".5 * 2.").is_ok());
}

#[test]
fn el_formato_admite_mayusculas_espacios_y_acentos() {
    assert_eq!(Formato::parse("  FIJO:2 ").unwrap(), Formato::Fijo(2));
    assert_eq!(Formato::parse("Fijo: 2").unwrap(), Formato::Fijo(2));
    assert!(Formato::parse("fijo :2").is_err());
}

trait TextoDeError {
    fn unwrap_err_text(self) -> Option<String>;
}

impl TextoDeError for Result<Formato, CrucibleError> {
    fn unwrap_err_text(self) -> Option<String> {
        match self {
            Ok(_) => None,
            Err(CrucibleError::PerfilInvalido(m)) => Some(m),
            Err(e) => Some(format!("{e:?}")),
        }
    }
}

#[test]
fn los_decimales_fuera_de_rango_se_explican() {
    assert_eq!(Formato::parse("científico:2").unwrap(), Formato::Cientifico(2));
    assert_eq!(Formato::parse("fijo").unwrap(), Formato::Fijo(3));
    assert_eq!(Formato::parse("fijo:+17").unwrap(), Formato::Fijo(17));
    assert_eq!(
        Formato::parse("fijo:18").unwrap_err_text().unwrap(),
        "formato 'fijo:18': los decimales deben ser un número de 0 a 17"
    );
    assert_eq!(
        Formato::parse("hex").unwrap_err_text().unwrap(),
        "formato 'hex' desconocido; usa 'entero', 'fijo:N' o 'cientifico:N'"
    );
    let modelo = ModeloDef {
        tipo: "formula".into(),
        cuando: None,
        expr: Some("1".into()),
        fallback: None,
        formato: None,
    };
    assert_eq!(Formato::de_modelo(&modelo).unwrap(), Formato::PorDefecto);
}

#[test]
fn el_ruido_avanza_una_muestra_por_lectura() {
    let mut ev = EvaluadorModelos::con_semilla(42);
    assert_eq!(ev.next_noise_seed(), 42);
    assert_eq!(ev.next_noise_seed(), 43);
    let mut ev = EvaluadorModelos::con_semilla(u64::MAX);
    ev.next_noise_seed();
    assert_eq!(ev.next_noise_seed(), 0);
}

#[test]
fn las_guardas_y_las_variables_leen_booleanos() {
    assert_eq!(texto_a_bool("On"), Some(true));
    assert_eq!(texto_a_bool("FALSE"), Some(false));
    assert_eq!(texto_a_bool("1"), None);
    assert_eq!(booleano(" true "), Some(true));
    assert_eq!(booleano("0"), Some(false));
    assert_eq!(booleano("quizá"), None);
}

fn comando(patron: &str, args: &[&str], query: bool) -> Comando {
    Comando {
        patron: patron.into(),
        args: args.iter().map(|s| s.to_string()).collect(),
        query,
        muta: None,
        respuesta: None,
        modelo: None,
    }
}

#[test]
fn los_argumentos_toman_nombre_y_posicion() {
    let c = comando("SOURce:VOLTage", &["v"], false);
    let args = nombrar_args(&c, &vec!["5".to_string(), "7".to_string()]);
    assert_eq!(
        args,
        vec![
            ("0".to_string(), "5".to_string()),
            ("v".to_string(), "5".to_string()),
            ("1".to_string(), "7".to_string()),
        ]
    );
    assert_eq!(resolver_expr("<v>", &args), "5");
    assert_eq!(resolver_expr("\"v\"", &args), "5");
    assert_eq!(resolver_expr("\"texto\"", &args), "texto");
    assert_eq!(resolver_expr(" 1 ", &args), "7");
    assert_eq!(resolver_expr("<rango>", &args), "<rango>");
    assert_eq!(resolver_expr("otro", &args), "otro");
}

#[test]
fn cada_forma_tiene_su_tabla() {
    let comandos = vec![
        comando("SOURce:VOLTage", &["v"], false),
        comando("SOURce:VOLTage", &[], true),
        comando("OUTPut", &["on"], false),
    ];
    let ordenes = compilar_tabla(&comandos, false);
    let consultas = compilar_tabla(&comandos, true);
    assert_eq!(ordenes.lookup("SOUR:VOLT").map(|(i, _)| *i), Some(0));
    assert_eq!(consultas.lookup("SOUR:VOLT").map(|(i, _)| *i), Some(1));
    assert_eq!(ordenes.lookup("OUTP").map(|(i, _)| *i), Some(2));
    assert!(consultas.lookup("OUTP").is_none());
}

#[test]
fn los_patrones_antiguos_se_rechazan_con_su_motivo() {
    assert!(comando("SOURce:VOLTage", &[], false).validar_patron().is_ok());
    for malo in ["SOUR:VOLT <x>", "*IDN?", "*RST", "   "] {
        assert!(comando(malo, &[], false).validar_patron().is_err(), "accepted '{malo}'");
    }
    match comando("", &[], false).validar_patron() {
        Err(CrucibleError::PerfilInvalido(m)) => assert_eq!(m, "hay un patrón vacío"),
        other => panic!("unexpected {other:?}"),
    }
}

#[test]
fn el_transporte_se_describe_como_en_visa() {
    let tcp = Transporte::Tcp { host: None, puerto: None };
    assert_eq!(tcp.resource_string(), "TCPIP0::127.0.0.1::5025::SOCKET");
    assert_eq!(tcp.device_name(), "");
    assert!(!tcp.is_vxi11());
    let vxi = Transporte::Vxi11 { host: Some("127.0.0.2".into()), puerto: Some(4000), device: None };
    assert_eq!(vxi.resource_string(), "TCPIP0::127.0.0.2::inst0::INSTR");
    assert_eq!(vxi.host(), Some("127.0.0.2"));
    assert_eq!(vxi.puerto(), Some(4000));
    assert!(matches!(Transporte::from_raw("VXI-11", None, None, None), Ok(Transporte::Vxi11 { .. })));
    assert_eq!(
        Transporte::from_raw("Serie", None, None, None).unwrap_err(),
        "transporte tipo desconocido 'serie'; esperaba 'tcp' o 'vxi11'"
    );
}
