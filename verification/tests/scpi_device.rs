use instrusim::device::{handle_message, ScpiDevice};
use instrusim::error::{ErrorCode, ErrorQueue, ScpiError};
use instrusim::instrument::{Function, Identity};
use instrusim::parse::Command;
use instrusim::status::{esr, stb, StatusModel};

/// Smallest device there is, to exercise the common dispatch on its own.
struct Maniqui {
    identity: Identity,
    reseteado: bool,
}

impl ScpiDevice for Maniqui {
    fn idn(&self) -> String {
        self.identity.idn()
    }
    fn reset(&mut self) {
        self.reseteado = true;
    }
    fn execute(&mut self, cmd: &Command) -> Result<Option<String>, ScpiError> {
        match (cmd.header.as_str(), cmd.query) {
            ("ECHO", true) => Ok(Some("eco".into())),
            _ => Err(ScpiError::with_detail(ErrorCode::UndefinedHeader, &cmd.header)),
        }
    }
}

/// The device with its status registers and its error queue.
struct Puesto {
    dev: Maniqui,
    status: StatusModel,
    errors: ErrorQueue,
}

impl Puesto {
    fn new() -> Self {
        Self {
            dev: Maniqui { identity: Identity::new("InstruSim", "MANIQUI", "0", "1.0"), reseteado: false },
            status: StatusModel::new(),
            errors: ErrorQueue::default(),
        }
    }
}

/// Reads the mask parameter of `*ESE` and `*SRE` as a plain decimal number.
fn mascara(cmd: &Command) -> Result<u8, ScpiError> {
    let texto = cmd.arg(0)?;
    let v: f64 = texto
        .trim()
        .parse()
        .map_err(|_| ScpiError::new(ErrorCode::IllegalParameterValue))?;
    if !(0.0..=255.0).contains(&v) {
        return Err(ScpiError::new(ErrorCode::DataOutOfRange));
    }
    Ok(v as u8)
}

fn hablar(p: &mut Puesto, line: &str) -> Option<String> {
    handle_message(&mut p.dev, &mut p.status, &mut p.errors, line, &mascara)
}

#[test]
fn idn_devuelve_los_cuatro_campos() {
    let mut i = Puesto::new();
    assert_eq!(hablar(&mut i, "*IDN?").as_deref(), Some("InstruSim,MANIQUI,0,1.0"));
}

#[test]
fn un_comando_sin_consulta_no_contesta() {
    let mut i = Puesto::new();
    assert_eq!(hablar(&mut i, "*CLS"), None);
}

#[test]
fn rst_llega_al_instrumento() {
    let mut i = Puesto::new();
    hablar(&mut i, "*RST");
    assert!(i.dev.reseteado);
}

#[test]
fn varias_consultas_en_un_mensaje_se_contestan_unidas_por_punto_y_coma() {
    let mut i = Puesto::new();
    let r = hablar(&mut i, "*IDN?;ECHO?").unwrap();
    assert_eq!(r, "InstruSim,MANIQUI,0,1.0;eco");
}

#[test]
fn instrument_una_cabecera_desconocida_va_a_la_cola_de_errores() {
    let mut i = Puesto::new();

    assert_eq!(hablar(&mut i, "MEAS:PATATA?"), None);

    let e = hablar(&mut i, "SYST:ERR?").unwrap();
    assert_eq!(e, "-113,\"Undefined header;MEAS:PATATA\"");

    let e = hablar(&mut i, "SYST:ERR?").unwrap();
    assert_eq!(e, "0,\"No error\"");
}

#[test]
fn un_error_enciende_su_bit_del_registro_de_sucesos() {
    let mut i = Puesto::new();
    hablar(&mut i, "*CLS");

    hablar(&mut i, "COMANDO:INVENTADO");

    let esr: u8 = hablar(&mut i, "*ESR?").unwrap().parse().unwrap();
    assert_ne!(esr & (1 << esr::COMMAND_ERROR), 0);
}

#[test]
fn el_resto_del_mensaje_se_abandona_tras_un_error() {
    let mut i = Puesto::new();
    assert_eq!(hablar(&mut i, "NO:EXISTE;ECHO?"), None);
}

#[test]
fn cls_vacia_la_cola_de_errores() {
    let mut i = Puesto::new();
    hablar(&mut i, "NO:EXISTE");
    hablar(&mut i, "*CLS");

    assert_eq!(hablar(&mut i, "SYST:ERR?").as_deref(), Some("0,\"No error\""));
}

#[test]
fn las_mascaras_de_estado_se_leen_y_escriben() {
    let mut i = Puesto::new();

    hablar(&mut i, "*ESE 32");
    assert_eq!(hablar(&mut i, "*ESE?").as_deref(), Some("32"));

    hablar(&mut i, "*SRE 32");
    assert_eq!(hablar(&mut i, "*SRE?").as_deref(), Some("32"));
}

#[test]
fn el_byte_de_estado_avisa_de_que_hay_errores() {
    let mut i = Puesto::new();
    hablar(&mut i, "*CLS");
    hablar(&mut i, "NO:EXISTE");

    let s: u8 = hablar(&mut i, "*STB?").unwrap().parse().unwrap();
    assert_ne!(s & (1 << stb::ERROR_QUEUE), 0);
}

#[test]
fn opc_y_tst_contestan_lo_que_exige_la_norma() {
    let mut i = Puesto::new();
    assert_eq!(hablar(&mut i, "*OPC?").as_deref(), Some("1"));
    assert_eq!(hablar(&mut i, "*TST?").as_deref(), Some("0"));
}

#[test]
fn la_version_de_scpi_es_la_del_estandar() {
    let mut i = Puesto::new();
    assert_eq!(hablar(&mut i, "SYST:VERS?").as_deref(), Some("1999.0"));
}

#[test]
fn una_mascara_fuera_de_rango_se_rechaza_y_no_cambia_nada() {
    let mut i = Puesto::new();
    hablar(&mut i, "*ESE 32");
    hablar(&mut i, "*ESE 300");
    assert_eq!(hablar(&mut i, "*ESE?").as_deref(), Some("32"));
    assert_eq!(hablar(&mut i, "SYST:ERR?").as_deref(), Some("-222,\"Data out of range\""));
}

#[test]
fn una_orden_del_subsistema_de_sistema_es_un_error() {
    let mut i = Puesto::new();
    assert_eq!(hablar(&mut i, "SYST:VERS"), None);
    assert_eq!(hablar(&mut i, "SYST:ERR?").as_deref(), Some("-113,\"Undefined header;SYST:VERS\""));
}

#[test]
fn un_comando_comun_desconocido_es_una_cabecera_indefinida() {
    let mut i = Puesto::new();
    assert_eq!(hablar(&mut i, "*FOO?"), None);
    assert_eq!(hablar(&mut i, "SYST:ERR?").as_deref(), Some("-113,\"Undefined header;*FOO\""));
}

#[test]
fn opc_enciende_su_bit_del_registro_de_sucesos() {
    let mut i = Puesto::new();
    hablar(&mut i, "*CLS");
    hablar(&mut i, "*OPC");
    let esr: u8 = hablar(&mut i, "*ESR?").unwrap().parse().unwrap();
    assert_eq!(esr, 1 << esr::OPC);
}

#[test]
fn the_meter_function_is_read_quoted_or_not_in_any_case() {
    assert_eq!(Function::from_arg("\"volt:ac\"").unwrap(), Function::VoltageAc);
    assert_eq!(Function::from_arg("VOLTAGE").unwrap(), Function::VoltageDc);
    assert_eq!(Function::from_arg("Volt:DC").unwrap(), Function::VoltageDc);
    let e = Function::from_arg("\"curr\"").unwrap_err();
    assert_eq!(e.code, ErrorCode::IllegalParameterValue);
    assert_eq!(e.detail.as_deref(), Some("CURR"));
    assert_eq!(Function::VoltageAc.name(), "VOLT:AC");
}

/// A device that writes down every call that may change it.
struct Registro {
    llamadas: Vec<String>,
}

impl ScpiDevice for Registro {
    fn idn(&self) -> String {
        "InstruSim,REGISTRO,0,1.0".to_string()
    }
    fn reset(&mut self) {
        self.llamadas.push("reset".to_string());
    }
    fn execute(&mut self, cmd: &Command) -> Result<Option<String>, ScpiError> {
        self.llamadas.push(cmd.header.clone());
        if cmd.header == "MAL" {
            Err(ScpiError::with_detail(ErrorCode::UndefinedHeader, &cmd.header))
        } else if cmd.query {
            Ok(Some(cmd.header.to_lowercase()))
        } else {
            Ok(None)
        }
    }
}

#[test]
fn the_device_receives_its_commands_up_to_the_first_failure() {
    let mut dev = Registro { llamadas: Vec::new() };
    let mut status = StatusModel::new();
    let mut errors = ErrorQueue::default();
    let r = handle_message(&mut dev, &mut status, &mut errors, "UNO;*RST;DOS?;*ESR?;MAL;TRES", &mascara);
    assert_eq!(r.as_deref(), Some("dos;128"));
    assert_eq!(dev.llamadas, vec!["UNO", "reset", "DOS", "MAL"]);
    assert_eq!(errors.len(), 1);
}
