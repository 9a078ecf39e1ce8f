use cooling_control::aquacomputer::{control_report, d5next, quadro, seal_report, DeviceDescriptor, AQC_VID};

fn region(report: &[u8], base: usize) -> [u8; 3] {
    [report[base], report[base + 1], report[base + 2]]
}

#[test]
fn quadro_layout_is_as_documented() {
    let q = quadro();
    assert_eq!(q.pid, 0xF00D);
    assert_eq!(q.ctrl_report_len, 961);
    assert_eq!(q.channels, vec![("fan1", 0x36), ("fan2", 0x8B), ("fan3", 0xE0), ("fan4", 0x135)]);
    assert!(q.report_fits());
    assert_eq!(AQC_VID, 0x0C70);
}

#[test]
fn d5next_layout_is_as_documented() {
    let d = d5next();
    assert_eq!(d.pid, 0xF00E);
    assert_eq!(d.ctrl_report_len, 809);
    assert_eq!(d.channels, vec![("fan", 0x41), ("pump", 0x96)]);
    assert!(d.report_fits());
}

#[test]
fn report_fits_rejects_short_or_overflowing_layouts() {
    let short = DeviceDescriptor { pid: 1, ctrl_report_len: 2, channels: vec![] };
    assert!(!short.report_fits());
    let overflowing = DeviceDescriptor { pid: 1, ctrl_report_len: 10, channels: vec![("a", 8)] };
    assert!(!overflowing.report_fits());
    let exact = DeviceDescriptor { pid: 1, ctrl_report_len: 10, channels: vec![("a", 7)] };
    assert!(exact.report_fits());
}

#[test]
fn quadro_report_sets_listed_and_fallback_channels() {
    let q = quadro();
    let r = control_report(&q, &[("fan1", 50), ("fan2", 50), ("fan3", 30)], 100);
    assert_eq!(r.len(), 961);
    assert_eq!(r[0], 0x03);
    assert_eq!(region(&r, 0x36), [0x00, 0x13, 0x88]); // 5000
    assert_eq!(region(&r, 0x8B), [0x00, 0x13, 0x88]);
    assert_eq!(region(&r, 0xE0), [0x00, 0x0B, 0xB8]); // 3000
    assert_eq!(region(&r, 0x135), [0x00, 0x27, 0x10]); // fan4 not listed: 100% = 10000
    assert_eq!(&r[959..], &[0x18, 0x42]);
    for (i, b) in r.iter().enumerate().take(959).skip(1) {
        let in_channel = q.channels.iter().any(|&(_, base)| base <= i && i < base + 3);
        if !in_channel {
            assert_eq!(*b, 0, "byte {i}");
        }
    }
}

#[test]
fn emergency_report_sets_every_channel_to_full_duty() {
    let q = quadro();
    let r = control_report(&q, &[], 100);
    for &(_, base) in &q.channels {
        assert_eq!(region(&r, base), [0x00, 0x27, 0x10]);
    }
    assert_eq!(&r[959..], &[0x5A, 0xC3]);
}

#[test]
fn d5next_pump_report() {
    let d = d5next();
    let r = control_report(&d, &[("pump", 60)], 100);
    assert_eq!(r.len(), 809);
    assert_eq!(r[0], 0x03);
    assert_eq!(region(&r, 0x96), [0x00, 0x17, 0x70]); // 6000
    assert_eq!(region(&r, 0x41), [0x00, 0x27, 0x10]);
    assert_eq!(&r[807..], &[0xF0, 0x42]);
}

#[test]
fn first_listed_duty_wins() {
    let q = quadro();
    let r = control_report(&q, &[("fan1", 10), ("fan1", 90)], 0);
    assert_eq!(region(&r, 0x36), [0x00, 0x03, 0xE8]); // 1000
    assert_eq!(region(&r, 0x8B), [0x00, 0x00, 0x00]); // fallback 0
}

#[test]
fn unknown_names_are_ignored() {
    let d = d5next();
    let r = control_report(&d, &[("fan1", 20), ("Pump", 20)], 100);
    assert_eq!(region(&r, 0x96), [0x00, 0x27, 0x10]);
    assert_eq!(region(&r, 0x41), [0x00, 0x27, 0x10]);
}

#[test]
fn checksum_of_a_blank_body() {
    // nine zero bytes between the report ID and the checksum
    let d = DeviceDescriptor { pid: 0, ctrl_report_len: 12, channels: vec![] };
    let r = control_report(&d, &[], 100);
    assert_eq!(r, vec![0x03, 0, 0, 0, 0, 0, 0, 0, 0, 0, 0x0F, 0xF5]);
}

#[test]
fn maximal_duty_and_checksum_of_a_small_report() {
    let d = DeviceDescriptor { pid: 0, ctrl_report_len: 12, channels: vec![("pump", 1)] };
    let r = control_report(&d, &[("pump", 255)], 100);
    assert_eq!(r, vec![0x03, 0x00, 0x63, 0x9C, 0, 0, 0, 0, 0, 0, 0x3B, 0xEF]);
}

#[test]
fn seal_report_writes_the_checksum_big_endian() {
    assert_eq!(seal_report(vec![0x03, 1, 2, 0, 0], 0xB4C8), vec![0x03, 1, 2, 0xB4, 0xC8]);
    assert_eq!(seal_report(vec![9, 9], 0x0102), vec![0x01, 0x02]);
}
