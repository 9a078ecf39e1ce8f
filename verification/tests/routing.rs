use cooling_control::aquacomputer::{control_report, d5next, quadro};
use cooling_control::routing::{d5next_speeds, quadro_speeds, sensor_fault_messages, FULL_DUTY};

#[test]
fn quadro_speeds_route_duties() {
    assert_eq!(quadro_speeds(Some(40), Some(60)), vec![("fan1", 40), ("fan2", 40), ("fan3", 60)]);
}

#[test]
fn unavailable_sources_run_full() {
    assert_eq!(quadro_speeds(None, Some(25)), vec![("fan1", 100), ("fan2", 100), ("fan3", 25)]);
    assert_eq!(quadro_speeds(Some(25), None), vec![("fan1", 25), ("fan2", 25), ("fan3", 100)]);
    assert_eq!(d5next_speeds(None), vec![("pump", 100)]);
    assert_eq!(d5next_speeds(Some(65)), vec![("pump", 65)]);
    assert_eq!(FULL_DUTY, 100);
}

#[test]
fn missing_coolant_reaches_the_quadro_as_full_duty() {
    let q = quadro();
    let r = control_report(&q, &quadro_speeds(None, Some(50)), FULL_DUTY);
    assert_eq!(&r[0x36..0x39], &[0x00, 0x27, 0x10]);
    assert_eq!(&r[0x8B..0x8E], &[0x00, 0x27, 0x10]);
    assert_eq!(&r[0xE0..0xE3], &[0x00, 0x13, 0x88]);
    assert_eq!(&r[0x135..0x138], &[0x00, 0x27, 0x10]);
}

#[test]
fn missing_cpu_or_gpu_reaches_the_pump_as_full_duty() {
    let d = d5next();
    let r = control_report(&d, &d5next_speeds(None), FULL_DUTY);
    assert_eq!(&r[0x96..0x99], &[0x00, 0x27, 0x10]);
    assert_eq!(&r[0x41..0x44], &[0x00, 0x27, 0x10]);
}

#[test]
fn fault_messages_for_unavailable_sensors() {
    assert_eq!(sensor_fault_messages(true, true, true, true), Vec::<String>::new());
    assert_eq!(
        sensor_fault_messages(false, true, true, false),
        vec![
            "CPU temperature unavailable \u{2014} fans/pump defaulting to 100%".to_string(),
            "Motherboard temperature unavailable \u{2014} motherboard fan defaulting to 100%".to_string(),
        ]
    );
    assert_eq!(
        sensor_fault_messages(true, false, false, true),
        vec![
            "GPU temperature unavailable \u{2014} pump defaulting to 100%".to_string(),
            "Coolant temperature unavailable \u{2014} radiator fans defaulting to 100%".to_string(),
        ]
    );
}
