use ssteq25_discover::text::{contains_text, decimal_text, ipv4_to_string, trim_char_text};
use ssteq25_discover::unique::{add_unique, merge_unique};

fn strings(items: &[&str]) -> Vec<String> {
    items.iter().map(|s| s.to_string()).collect()
}

#[test]
fn decimal_text_writes_numbers() {
    assert_eq!(decimal_text(0), "0");
    assert_eq!(decimal_text(7), "7");
    assert_eq!(decimal_text(100), "100");
    assert_eq!(decimal_text(4294967295), "4294967295");
}

#[test]
fn ipv4_to_string_writes_dotted_quads() {
    assert_eq!(ipv4_to_string(0xC0A8_2D01), "192.168.45.1");
    assert_eq!(ipv4_to_string(0), "0.0.0.0");
    assert_eq!(ipv4_to_string(0xFFFF_FFFF), "255.255.255.255");
    assert_eq!(ipv4_to_string(0x0A00_0105), "10.0.1.5");
}

#[test]
fn contains_text_finds_runs() {
    assert!(contains_text("my-allsky-pi", "allsky"));
    assert!(contains_text("allsky", "allsky"));
    assert!(!contains_text("all-sky", "allsky"));
    assert!(!contains_text("sky", "allsky"));
    assert!(contains_text("anything", ""));
}

#[test]
fn trim_char_text_strips_both_ends() {
    assert_eq!(trim_char_text("\"192.168.1.5\"", '"'), "192.168.1.5");
    assert_eq!(trim_char_text("\"\"a\"b\"\"", '"'), "a\"b");
    assert_eq!(trim_char_text("\"\"\"", '"'), "");
    assert_eq!(trim_char_text("", '"'), "");
    assert_eq!(trim_char_text("plain", '"'), "plain");
}

#[test]
fn add_unique_appends_only_new_text() {
    let mut list = strings(&["10.0.0.1"]);
    assert!(add_unique(&mut list, "10.0.0.2".to_string()));
    assert!(!add_unique(&mut list, "10.0.0.1".to_string()));
    assert_eq!(list, strings(&["10.0.0.1", "10.0.0.2"]));
}

#[test]
fn merge_unique_keeps_order_and_reports_change() {
    let mut list = strings(&["a", "b"]);
    let changed = merge_unique(&mut list, &strings(&["b", "c", "a", "c", "d"]));
    assert!(changed);
    assert_eq!(list, strings(&["a", "b", "c", "d"]));
    let changed_again = merge_unique(&mut list, &strings(&["d", "a"]));
    assert!(!changed_again);
    assert_eq!(list, strings(&["a", "b", "c", "d"]));
    let mut empty: Vec<String> = Vec::new();
    assert!(!merge_unique(&mut empty, &Vec::new()));
    assert!(empty.is_empty());
}
