use cooling_control::sensors::{
    find_hwmon_by_name, find_hwmon_with_label, is_temp_label_file, is_tccd_label_file, join_path,
    nic_input_paths, tccd_input_paths, HwmonDevice, HwmonEntry, HwmonFile, SensorPaths,
};

fn file(name: &str, dir: &str, contents: Option<&str>) -> HwmonFile {
    HwmonFile {
        file_name: name.to_string(),
        path: format!("{dir}/{name}"),
        contents: contents.map(|c| c.to_string()),
    }
}

fn device(path: &str, name: Option<&str>, files: Option<Vec<HwmonFile>>) -> HwmonEntry {
    HwmonEntry::Device(HwmonDevice {
        path: path.to_string(),
        name: name.map(|n| n.to_string()),
        files,
    })
}

fn sample_listing() -> Vec<HwmonEntry> {
    let h3 = "/sys/class/hwmon/hwmon3";
    vec![
        device("/sys/class/hwmon/hwmon0", Some("nvme\n"), Some(vec![])),
        device("/sys/class/hwmon/hwmon1", Some("k10temp\n"), Some(vec![])),
        device("/sys/class/hwmon/hwmon2", Some("d5next\n"), None),
        device(
            h3,
            Some("r8169_0_a00:00\n"),
            Some(vec![
                file("temp1_input", h3, None),
                file("temp1_label", h3, Some("PHY Temperature\n")),
            ]),
        ),
    ]
}

#[test]
fn discover_finds_each_sensor() {
    let paths = SensorPaths::discover(&sample_listing());
    assert_eq!(paths.k10temp_dir.as_deref(), Some("/sys/class/hwmon/hwmon1"));
    assert_eq!(paths.d5next_coolant.as_deref(), Some("/sys/class/hwmon/hwmon2/temp1_input"));
    assert_eq!(paths.nic_dir.as_deref(), Some("/sys/class/hwmon/hwmon3"));
}

#[test]
fn discover_on_empty_listing_finds_nothing() {
    let paths = SensorPaths::discover(&vec![]);
    assert!(paths.k10temp_dir.is_none());
    assert!(paths.d5next_coolant.is_none());
    assert!(paths.nic_dir.is_none());
}

#[test]
fn listing_failure_hides_later_devices() {
    let mut listing = vec![HwmonEntry::Unreadable];
    listing.extend(sample_listing());
    let paths = SensorPaths::discover(&listing);
    assert!(paths.k10temp_dir.is_none());
    assert!(paths.d5next_coolant.is_none());
    assert!(paths.nic_dir.is_none());
}

#[test]
fn first_matching_name_wins() {
    let listing = vec![
        device("/a", None, None),
        device("/b", Some(" k10temp "), None),
        device("/c", Some("k10temp"), None),
    ];
    assert_eq!(find_hwmon_by_name(&listing, "k10temp"), Some(1));
    assert_eq!(find_hwmon_by_name(&listing, "k10"), None);
}

#[test]
fn label_search_needs_a_temp_label_file() {
    let d = "/x";
    let listing = vec![
        device(d, None, Some(vec![file("name", d, Some("PHY"))])),
        device("/y", None, Some(vec![file("temp2_label", "/y", Some("MAC Temperature"))])),
    ];
    assert_eq!(find_hwmon_with_label(&listing, &["PHY", "MAC"]), Some(1));
    assert_eq!(find_hwmon_with_label(&listing, &["phy"]), None);
}

#[test]
fn temp_label_file_names() {
    assert!(is_temp_label_file("temp1_label"));
    assert!(is_temp_label_file("temp_label"));
    assert!(!is_temp_label_file("temp1_input"));
    assert!(!is_temp_label_file("ttemp1_label"));
    assert!(!is_temp_label_file("temp1_label~"));
}

#[test]
fn tccd_inputs_are_the_ccd_labels_inputs() {
    let d = "/sys/class/hwmon/hwmon1";
    let files = vec![
        file("temp1_label", d, Some("Tctl\n")),
        file("temp1_input", d, None),
        file("temp3_label", d, Some("Tccd1\n")),
        file("temp4_label", d, Some("  Tccd2\n")),
        file("temp5_label", d, None),
        file("name", d, Some("Tccd")),
    ];
    assert!(is_tccd_label_file(&files[2]));
    assert!(!is_tccd_label_file(&files[0]));
    assert_eq!(
        tccd_input_paths(&files),
        vec![
            "/sys/class/hwmon/hwmon1/temp3_input".to_string(),
            "/sys/class/hwmon/hwmon1/temp4_input".to_string(),
        ]
    );
}

#[test]
fn tccd_input_path_replaces_every_label_occurrence() {
    let files = vec![file("temp3_label", "/a_label", Some("Tccd3"))];
    assert_eq!(tccd_input_paths(&files), vec!["/a_input/temp3_input".to_string()]);
}

#[test]
fn join_path_places_one_separator() {
    assert_eq!(join_path("/sys/x", "temp1_input"), "/sys/x/temp1_input");
    assert_eq!(join_path("/sys/x/", "temp1_input"), "/sys/x/temp1_input");
    assert_eq!(join_path("", "temp1_input"), "temp1_input");
}

#[test]
fn nic_inputs_are_temp1_and_temp2() {
    assert_eq!(
        nic_input_paths("/sys/class/hwmon/hwmon3"),
        (
            "/sys/class/hwmon/hwmon3/temp1_input".to_string(),
            "/sys/class/hwmon/hwmon3/temp2_input".to_string()
        )
    );
}
