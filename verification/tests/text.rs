use cooling_control::text::{contains, ends_with, replace, same_text, starts_with, trimmed_equals, trimmed_starts_with};

#[test]
fn trimming_uses_unicode_white_space() {
    assert!(trimmed_equals("k10temp\n", "k10temp"));
    assert!(trimmed_equals("\u{3000}\t k10temp \u{2028}", "k10temp"));
    assert!(!trimmed_equals("k10 temp", "k10temp"));
    assert!(trimmed_equals(" \n ", ""));
    assert!(trimmed_starts_with("\u{A0}Tccd1", "Tccd"));
    assert!(!trimmed_starts_with("Tcc", "Tccd"));
}

#[test]
fn prefix_suffix_and_infix() {
    assert!(starts_with("temp1_label", "temp"));
    assert!(ends_with("temp1_label", "_label"));
    assert!(!ends_with("el", "_label"));
    assert!(contains("PHY Temperature", "PHY"));
    assert!(contains("abc", ""));
    assert!(!contains("ab", "abc"));
    assert!(same_text("fan1", "fan1"));
    assert!(!same_text("fan1", "fan2"));
}

#[test]
fn replace_is_left_to_right_without_overlap() {
    assert_eq!(replace("aaa", "aa", "b"), "ba");
    assert_eq!(replace("x_label_label", "_label", "_input"), "x_input_input");
    assert_eq!(replace("none", "_label", "_input"), "none");
    assert_eq!(replace("temp1_label", "_label", "_input"), "temp1_input");
}
