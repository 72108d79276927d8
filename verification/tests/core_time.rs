use instrusim::clock::{wall_lag_nanos, wall_wait_nanos, Clock, VirtualClock};
use instrusim::time::SimTime;
use std::time::Duration;

#[test]
fn el_cero_es_cero() {
    assert_eq!(SimTime::zero().as_nanos(), 0);
}

#[test]
fn avanzar_en_el_tiempo() {
    let t = SimTime::zero() + Duration::from_millis(1);
    assert_eq!(t.as_nanos(), 1_000_000);

    let mut t = SimTime::zero();
    t += Duration::from_micros(250);
    assert_eq!(t.as_nanos(), 250_000);
}

#[test]
fn diferencia_de_instantes_es_un_intervalo() {
    let a = SimTime::from_nanos(1_000);
    let b = SimTime::from_nanos(4_000);
    assert_eq!(b - a, Duration::from_nanos(3_000));
    // Subtracting the wrong way round saturates at zero.
    assert_eq!(a - b, Duration::ZERO);
}

#[test]
fn los_instantes_se_ordenan() {
    assert!(SimTime::from_nanos(1) < SimTime::from_nanos(2));
}

#[test]
fn resolucion_de_un_nanosegundo_tras_una_hora() {
    let una_hora = SimTime::from_nanos(3_600_000_000_000);
    let siguiente_muestra = una_hora + Duration::from_nanos(1);
    assert_ne!(una_hora, siguiente_muestra);
    assert_eq!(siguiente_muestra - una_hora, Duration::from_nanos(1));
}

#[test]
fn el_reloj_virtual_avanza_un_periodo_por_tic() {
    let mut reloj = VirtualClock::new(Duration::from_millis(1));
    assert_eq!(reloj.now(), SimTime::zero());
    assert_eq!(reloj.tick().as_nanos(), 1_000_000);
    assert_eq!(reloj.tick().as_nanos(), 2_000_000);
    assert_eq!(reloj.period(), Duration::from_millis(1));
}

#[test]
fn el_reloj_virtual_no_acumula_error_de_redondeo() {
    let mut reloj = VirtualClock::new(Duration::from_millis(1));
    for _ in 0..1000 {
        reloj.tick();
    }
    assert_eq!(reloj.now().as_nanos(), 1_000_000_000);
}

#[test]
fn el_reloj_virtual_puede_saltar() {
    let mut reloj = VirtualClock::new(Duration::from_millis(1));
    reloj.advance(Duration::from_secs(3600));
    assert_eq!(reloj.now().as_nanos(), 3_600_000_000_000);
}

#[test]
fn el_reloj_de_pared_solo_espera_lo_que_falta() {
    assert_eq!(wall_wait_nanos(20_000_000, 5_000_000), 15_000_000);
    assert_eq!(wall_wait_nanos(20_000_000, 25_000_000), 0);
    assert_eq!(wall_lag_nanos(SimTime::from_nanos(10), 15), 5);
    assert_eq!(wall_lag_nanos(SimTime::from_nanos(10), 5), 0);
}

#[test]
fn las_operaciones_de_nanosegundos_son_exactas() {
    let t = SimTime::from_nanos(7);
    assert_eq!(t.plus_nanos(3).as_nanos(), 10);
    assert_eq!(t.nanos_since(SimTime::from_nanos(2)), 5);
    assert_eq!(SimTime::from_nanos(2).nanos_since(t), 0);
    assert!(SimTime::from_nanos(2).is_before(t));
}

#[test]
fn adding_past_the_last_instant_leaves_the_instant_as_it_was() {
    let mut t = SimTime::from_nanos(u64::MAX - 5);
    t += Duration::from_nanos(5);
    assert_eq!(t.as_nanos(), u64::MAX);
    t += Duration::from_nanos(1);
    assert_eq!(t.as_nanos(), u64::MAX);
}
