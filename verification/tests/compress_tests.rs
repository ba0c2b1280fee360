use cani::compress::{compress, VersionGridCell};
use cani::errors::Error;

fn stats(pairs: &[(&str, &str)]) -> Vec<(String, String)> {
    pairs.iter().map(|(v, s)| (v.to_string(), s.to_string())).collect()
}

fn versions(slots: &[Option<&str>]) -> Vec<Option<String>> {
    slots.iter().map(|s| s.map(|v| v.to_string())).collect()
}

fn check_cell(cell: &VersionGridCell, start: &str, stop: Option<&str>, support: &str) {
    assert_eq!(cell.start, start);
    assert_eq!(cell.stop.as_deref(), stop);
    assert_eq!(cell.support, support);
}

#[test]
fn merges_equal_support_run() {
    let v = versions(&[Some("1"), Some("2"), Some("3")]);
    let s = stats(&[("1", "y"), ("2", "y"), ("3", "n")]);
    let cells = compress(&v, &s, &"firefox".to_string()).unwrap();
    assert_eq!(cells.len(), 2);
    check_cell(&cells[0], "1", Some("2"), "y");
    check_cell(&cells[1], "3", None, "n");
}

#[test]
fn skips_absent_slots() {
    let v = versions(&[None, Some("4"), Some("5")]);
    let s = stats(&[("4", "a"), ("5", "a")]);
    let cells = compress(&v, &s, &"chrome".to_string()).unwrap();
    assert_eq!(cells.len(), 1);
    check_cell(&cells[0], "4", Some("5"), "a");
}

#[test]
fn empty_versions_give_empty_output() {
    let v = versions(&[]);
    let s = stats(&[]);
    let cells = compress(&v, &s, &"ie".to_string()).unwrap();
    assert!(cells.is_empty());
}

#[test]
fn all_absent_slots_give_empty_output() {
    let v = versions(&[None, None, None]);
    let s = stats(&[("1", "y")]);
    let cells = compress(&v, &s, &"ie".to_string()).unwrap();
    assert!(cells.is_empty());
}

#[test]
fn missing_stats_entry_is_a_lookup_error() {
    let v = versions(&[Some("2")]);
    let s = stats(&[]);
    match compress(&v, &s, &"opera".to_string()) {
        Err(Error::LookupError { version, browser }) => {
            assert_eq!(version, "2");
            assert_eq!(browser, "opera");
        },
        _ => panic!("expected a LookupError"),
    }
}

#[test]
fn first_missing_version_is_reported() {
    let v = versions(&[Some("1"), Some("2"), Some("3")]);
    let s = stats(&[("1", "y"), ("3", "y")]);
    match compress(&v, &s, &"safari".to_string()) {
        Err(Error::LookupError { version, browser }) => {
            assert_eq!(version, "2");
            assert_eq!(browser, "safari");
        },
        _ => panic!("expected a LookupError"),
    }
}

#[test]
fn single_present_version_has_no_stop() {
    let v = versions(&[Some("11")]);
    let s = stats(&[("11", "a #1")]);
    let cells = compress(&v, &s, &"edge".to_string()).unwrap();
    assert_eq!(cells.len(), 1);
    check_cell(&cells[0], "11", None, "a #1");
}

#[test]
fn uniform_support_spans_first_to_last() {
    let v = versions(&[Some("1"), Some("2"), Some("3"), Some("4")]);
    let s = stats(&[("1", "y"), ("2", "y"), ("3", "y"), ("4", "y")]);
    let cells = compress(&v, &s, &"firefox".to_string()).unwrap();
    assert_eq!(cells.len(), 1);
    check_cell(&cells[0], "1", Some("4"), "y");
}

#[test]
fn absent_slot_does_not_split_a_run() {
    let with_gap = versions(&[Some("1"), None, Some("2")]);
    let without_gap = versions(&[Some("1"), Some("2")]);
    let s = stats(&[("1", "y"), ("2", "y")]);
    let b = "firefox".to_string();
    let gapped = compress(&with_gap, &s, &b).unwrap();
    let plain = compress(&without_gap, &s, &b).unwrap();
    assert_eq!(gapped.len(), 1);
    assert_eq!(plain.len(), 1);
    check_cell(&gapped[0], "1", Some("2"), "y");
    check_cell(&plain[0], "1", Some("2"), "y");
}

#[test]
fn alternating_support_never_merges() {
    let v = versions(&[Some("1"), Some("2"), Some("3"), Some("4")]);
    let s = stats(&[("1", "y"), ("2", "n"), ("3", "y"), ("4", "n")]);
    let cells = compress(&v, &s, &"firefox".to_string()).unwrap();
    assert_eq!(cells.len(), 4);
    check_cell(&cells[0], "1", None, "y");
    check_cell(&cells[1], "2", None, "n");
    check_cell(&cells[2], "3", None, "y");
    check_cell(&cells[3], "4", None, "n");
}

#[test]
fn runs_restart_after_support_changes_back() {
    let v = versions(&[Some("1"), Some("2"), Some("3"), Some("4"), Some("5")]);
    let s = stats(&[("1", "n"), ("2", "n"), ("3", "a"), ("4", "n"), ("5", "n")]);
    let cells = compress(&v, &s, &"chrome".to_string()).unwrap();
    assert_eq!(cells.len(), 3);
    check_cell(&cells[0], "1", Some("2"), "n");
    check_cell(&cells[1], "3", None, "a");
    check_cell(&cells[2], "4", Some("5"), "n");
}
