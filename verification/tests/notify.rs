use cooling_control::notify::{is_numeric_uid, notify_send_args, session_bus_address, APP_NAME};

#[test]
fn numeric_uids() {
    assert!(is_numeric_uid("1000"));
    assert!(is_numeric_uid("0"));
    assert!(!is_numeric_uid("10a"));
    assert!(!is_numeric_uid("gdm"));
    assert!(!is_numeric_uid("\u{0661}"));
}

#[test]
fn bus_address() {
    assert_eq!(session_bus_address("1000"), "unix:path=/run/user/1000/bus");
}

#[test]
fn notify_send_command_line() {
    assert_eq!(APP_NAME, "liquidctl-monitor");
    assert_eq!(
        notify_send_args("critical", "Temperature warning: CPU", "hot"),
        vec!["--urgency", "critical", "--app-name", "liquidctl-monitor", "Temperature warning: CPU", "hot"]
    );
}
