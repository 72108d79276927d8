use instrusim::error::{ErrorCode, ErrorQueue, ScpiError};

#[test]
fn el_formato_de_respuesta_es_el_del_estandar() {
    let e = ScpiError::new(ErrorCode::UndefinedHeader);
    assert_eq!(e.to_string(), "-113,\"Undefined header\"");
}

#[test]
fn el_detalle_va_tras_un_punto_y_coma() {
    let e = ScpiError::with_detail(ErrorCode::UndefinedHeader, "MEAS:FOO");
    assert_eq!(e.to_string(), "-113,\"Undefined header;MEAS:FOO\"");
}

#[test]
fn una_cola_vacia_responde_que_no_hay_error() {
    let mut cola = ErrorQueue::default();
    assert_eq!(cola.pop().code, ErrorCode::NoError);
}

#[test]
fn los_errores_salen_en_el_orden_en_que_entraron() {
    let mut cola = ErrorQueue::default();
    cola.push(ScpiError::new(ErrorCode::UndefinedHeader));
    cola.push(ScpiError::new(ErrorCode::DataOutOfRange));

    assert_eq!(cola.pop().code, ErrorCode::UndefinedHeader);
    assert_eq!(cola.pop().code, ErrorCode::DataOutOfRange);
    assert_eq!(cola.pop().code, ErrorCode::NoError);
}

#[test]
fn al_desbordarse_se_conservan_los_antiguos_y_se_avisa() {
    let mut cola = ErrorQueue::new(3);
    cola.push(ScpiError::new(ErrorCode::CommandError));
    cola.push(ScpiError::new(ErrorCode::SyntaxError));
    // This one no longer fits.
    cola.push(ScpiError::new(ErrorCode::DataOutOfRange));

    assert_eq!(cola.pop().code, ErrorCode::CommandError);
    assert_eq!(cola.pop().code, ErrorCode::SyntaxError);
    assert_eq!(cola.pop().code, ErrorCode::QueueOverflow);
    assert_eq!(cola.pop().code, ErrorCode::NoError);
}

#[test]
fn cada_familia_de_error_enciende_su_bit_del_registro_de_sucesos() {
    assert_eq!(ErrorCode::UndefinedHeader.esr_bit(), 5);
    assert_eq!(ErrorCode::DataOutOfRange.esr_bit(), 4);
    assert_eq!(ErrorCode::QueueOverflow.esr_bit(), 3);
    assert_eq!(ErrorCode::QueryInterrupted.esr_bit(), 2);
}

#[test]
fn los_codigos_y_los_textos_son_los_del_estandar() {
    assert_eq!(ErrorCode::NoError.code(), 0);
    assert_eq!(ErrorCode::ParameterNotAllowed.code(), -108);
    assert_eq!(ErrorCode::IllegalParameterValue.code(), -224);
    assert_eq!(ErrorCode::QueryInterrupted.message(), "Query INTERRUPTED");
    assert_eq!(ErrorCode::NoError.esr_bit(), 0);
    assert_eq!(ScpiError::new(ErrorCode::NoError).to_string(), "0,\"No error\"");
}

#[test]
fn vaciar_la_cola_olvida_tambien_el_desbordamiento() {
    let mut cola = ErrorQueue::new(2);
    cola.push(ScpiError::new(ErrorCode::CommandError));
    cola.push(ScpiError::new(ErrorCode::SyntaxError));
    assert_eq!(cola.len(), 1);
    assert!(!cola.is_empty());
    cola.clear();
    assert!(cola.is_empty());
    assert_eq!(cola.pop().code, ErrorCode::NoError);
}

#[test]
fn un_error_se_construye_desde_su_codigo() {
    let e: ScpiError = ErrorCode::SyntaxError.into();
    assert_eq!(e.code, ErrorCode::SyntaxError);
    assert_eq!(e.detail, None);
}
