use cooling_control::config::{keys_to_fill, Hardware};

fn strings(v: &[&str]) -> Vec<String> {
    v.iter().map(|s| s.to_string()).collect()
}

#[test]
fn missing_sections_are_filled_from_defaults() {
    let defaults = strings(&["fan_curve", "hardware", "monitoring", "pump_curve", "temperature_limits"]);
    let present = strings(&["monitoring", "hardware", "extra"]);
    assert_eq!(keys_to_fill(&present, &defaults), strings(&["fan_curve", "pump_curve", "temperature_limits"]));
}

#[test]
fn complete_file_needs_nothing() {
    let defaults = strings(&["a", "b"]);
    assert_eq!(keys_to_fill(&strings(&["b", "a"]), &defaults), Vec::<String>::new());
    assert_eq!(keys_to_fill(&vec![], &defaults), defaults);
}

#[test]
fn hardware_section_holds_device_names() {
    let h = Hardware { quadro_device: "auto".to_string(), d5_device: "auto".to_string() };
    assert_eq!(h.quadro_device, "auto");
    assert_eq!(h.d5_device, "auto");
}
