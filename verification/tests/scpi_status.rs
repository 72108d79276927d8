use instrusim::format::{boolean, nr1};
use instrusim::status::{esr, stb, StatusModel};

#[test]
fn al_arrancar_se_marca_el_encendido() {
    let mut s = StatusModel::new();
    assert_eq!(s.read_event() & (1 << esr::POWER_ON), 1 << esr::POWER_ON);
}

#[test]
fn leer_los_sucesos_los_borra() {
    let mut s = StatusModel::new();
    s.read_event();

    s.set_event(esr::COMMAND_ERROR);
    assert_eq!(s.read_event(), 1 << esr::COMMAND_ERROR);
    assert_eq!(s.read_event(), 0, "the second read must come out clean");
}

#[test]
fn los_sucesos_se_acumulan_hasta_que_se_leen() {
    let mut s = StatusModel::new();
    s.read_event();

    s.set_event(esr::COMMAND_ERROR);
    s.set_event(esr::EXECUTION_ERROR);

    let esperado = (1 << esr::COMMAND_ERROR) | (1 << esr::EXECUTION_ERROR);
    assert_eq!(s.read_event(), esperado);
}

#[test]
fn un_suceso_no_habilitado_no_llega_al_resumen() {
    let mut s = StatusModel::new();
    s.read_event();

    s.set_event(esr::COMMAND_ERROR);
    assert_eq!(s.status_byte(false, false) & (1 << stb::EVENT_SUMMARY), 0);
}

#[test]
fn un_suceso_habilitado_enciende_el_resumen() {
    let mut s = StatusModel::new();
    s.read_event();

    s.set_event_enable(1 << esr::COMMAND_ERROR);
    s.set_event(esr::COMMAND_ERROR);

    let stb = s.status_byte(false, false);
    assert_ne!(stb & (1 << stb::EVENT_SUMMARY), 0);
}

#[test]
fn la_cascada_de_resumenes_llega_hasta_el_bit_maestro() {
    let mut s = StatusModel::new();
    s.read_event();

    s.set_event_enable(1 << esr::COMMAND_ERROR);
    s.set_service_enable(1 << stb::EVENT_SUMMARY);
    s.set_event(esr::COMMAND_ERROR);

    let stb = s.status_byte(false, false);
    assert_ne!(stb & (1 << stb::EVENT_SUMMARY), 0, "bit 5");
    assert_ne!(stb & (1 << stb::MASTER_SUMMARY), 0, "bit 6");
}

#[test]
fn la_cola_de_errores_y_la_respuesta_pendiente_tienen_su_bit() {
    let s = StatusModel::new();
    assert_ne!(s.status_byte(true, false) & (1 << stb::ERROR_QUEUE), 0);
    assert_ne!(s.status_byte(false, true) & (1 << stb::MESSAGE_AVAILABLE), 0);
}

#[test]
fn cls_borra_los_sucesos_pero_respeta_las_mascaras() {
    let mut s = StatusModel::new();
    s.set_event_enable(0xFF);
    s.set_event(esr::COMMAND_ERROR);

    s.clear();

    assert_eq!(s.read_event(), 0);
    assert_eq!(s.event_enable(), 0xFF, "*CLS must not touch *ESE");
}

#[test]
fn sin_resumen_habilitado_no_hay_bit_maestro() {
    let mut s = StatusModel::new();
    s.set_event_enable(1 << esr::POWER_ON);
    assert_eq!(s.status_byte(true, true), 4 | 16 | 32);
    s.set_service_enable(1 << stb::ERROR_QUEUE);
    assert_eq!(s.status_byte(true, false), 4 | 32 | 64);
    assert_eq!(s.service_enable(), 4);
}

#[test]
fn los_enteros_y_booleanos_van_sin_adornos() {
    assert_eq!(nr1(-113), "-113");
    assert_eq!(boolean(true), "1");
    assert_eq!(boolean(false), "0");
}

#[test]
fn los_enteros_extremos_se_escriben_enteros() {
    assert_eq!(nr1(0), "0");
    assert_eq!(nr1(i64::MIN), "-9223372036854775808");
    assert_eq!(nr1(i64::MAX), "9223372036854775807");
}
