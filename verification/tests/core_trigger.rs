use instrusim::time::SimTime;
use instrusim::trigger::{Edge, LineId, TriggerBus};

fn t(nanos: u64) -> SimTime {
    SimTime::from_nanos(nanos)
}

#[test]
fn un_bus_recien_creado_esta_vacio() {
    let bus = TriggerBus::new();
    assert!(bus.is_empty());
}

#[test]
fn los_eventos_salen_en_orden_cronologico_aunque_entren_desordenados() {
    let mut bus = TriggerBus::new();
    let linea = LineId(1);

    bus.pulse(linea, t(300));
    bus.pulse(linea, t(100));
    bus.pulse(linea, t(200));

    let eventos = bus.take_until(linea, t(1000));
    let instantes: Vec<u64> = eventos.iter().map(|e| e.at.as_nanos()).collect();

    assert_eq!(instantes, vec![100, 200, 300]);
}

#[test]
fn los_eventos_simultaneos_conservan_el_orden_de_emision() {
    let mut bus = TriggerBus::new();
    let linea = LineId(1);

    bus.emit(linea, t(100), Edge::Rising);
    bus.emit(linea, t(100), Edge::Falling);

    let eventos = bus.take_until(linea, t(100));
    assert_eq!(eventos.len(), 2);
    assert_eq!(eventos[0].edge, Edge::Rising);
    assert_eq!(eventos[1].edge, Edge::Falling);
}

#[test]
fn no_se_entregan_eventos_del_futuro() {
    let mut bus = TriggerBus::new();
    let linea = LineId(1);

    bus.pulse(linea, t(100));
    bus.pulse(linea, t(5_000));

    let eventos = bus.take_until(linea, t(1_000));
    assert_eq!(eventos.len(), 1);
    assert_eq!(eventos[0].at.as_nanos(), 100);

    assert_eq!(bus.len(), 1);
}

#[test]
fn cada_linea_ve_solo_lo_suyo() {
    let mut bus = TriggerBus::new();

    bus.pulse(LineId(1), t(100));
    bus.pulse(LineId(2), t(100));

    let de_la_uno = bus.take_until(LineId(1), t(1000));
    assert_eq!(de_la_uno.len(), 1);
    assert_eq!(de_la_uno[0].line, LineId(1));

    assert_eq!(bus.len(), 1);
}

#[test]
fn los_eventos_consumidos_no_se_repiten() {
    let mut bus = TriggerBus::new();
    let linea = LineId(1);

    bus.pulse(linea, t(100));
    assert_eq!(bus.take_until(linea, t(1000)).len(), 1);
    assert_eq!(bus.take_until(linea, t(1000)).len(), 0);
}

#[test]
fn el_disparo_por_software_va_por_su_linea_reservada() {
    let mut bus = TriggerBus::new();
    bus.software_trigger(t(42));

    let eventos = bus.take_until(LineId::software(), t(100));
    assert_eq!(eventos.len(), 1);
    assert_eq!(eventos[0].edge, Edge::Rising);
}

#[test]
fn abortar_descarta_lo_pendiente() {
    let mut bus = TriggerBus::new();
    bus.pulse(LineId(1), t(100));
    bus.pulse(LineId(2), t(200));

    bus.clear();
    assert!(bus.is_empty());
}

#[test]
fn se_pueden_recoger_todas_las_lineas_de_una_vez() {
    let mut bus = TriggerBus::new();
    bus.pulse(LineId(2), t(200));
    bus.pulse(LineId(1), t(100));
    bus.pulse(LineId(3), t(9_000));

    let eventos = bus.take_all_until(t(1_000));
    let instantes: Vec<u64> = eventos.iter().map(|e| e.at.as_nanos()).collect();

    assert_eq!(instantes, vec![100, 200]);
    assert_eq!(bus.len(), 1);
}

#[test]
fn el_ultimo_nanosegundo_del_limite_cuenta() {
    let mut bus = TriggerBus::default();
    bus.pulse(LineId(1), t(u64::MAX));
    bus.pulse(LineId(1), t(0));
    let eventos = bus.take_until(LineId(1), t(u64::MAX));
    let instantes: Vec<u64> = eventos.iter().map(|e| e.at.as_nanos()).collect();
    assert_eq!(instantes, vec![0, u64::MAX]);
}
