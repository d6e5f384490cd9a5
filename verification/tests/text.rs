//! Text: numerals, splitting and the list of devices.

use adb_client::client::parse_device_list;
use adb_client::numeral::to_numeral;
use adb_client::text::{chars_of, same_text, split, starts_with};

fn devices(list: &str) -> Vec<(String, String)> {
    parse_device_list(list).into_iter().map(|item| (item.id, item.device_type)).collect()
}

fn device(id: &str, device_type: &str) -> (String, String) {
    (id.to_string(), device_type.to_string())
}

#[test]
fn numerals() {
    assert_eq!(to_numeral(0, 10, 1), "0");
    assert_eq!(to_numeral(5555, 10, 1), "5555");
    assert_eq!(to_numeral(usize::MAX, 10, 1), usize::MAX.to_string());
    assert_eq!(to_numeral(0, 16, 4), "0000");
    assert_eq!(to_numeral(0xabc, 16, 4), "0abc");
    assert_eq!(to_numeral(0x800000, 16, 4), "800000");
    assert_eq!(to_numeral(35, 36, 0), "z");
}

#[test]
fn numerals_read_back() {
    for n in [0usize, 1, 9, 10, 15, 16, 255, 4096, 65535] {
        assert_eq!(usize::from_str_radix(&to_numeral(n, 16, 4), 16), Ok(n));
        assert_eq!(usize::from_str_radix(&to_numeral(n, 10, 1), 10), Ok(n));
    }
}

#[test]
fn pieces() {
    assert_eq!(split("", ','), vec![""]);
    assert_eq!(split("a", ','), vec!["a"]);
    assert_eq!(split("a,b,,c,", ','), vec!["a", "b", "", "c", ""]);
    assert_eq!(split("a,b,,c,", ',').join(","), "a,b,,c,");
}

#[test]
fn comparing() {
    assert_eq!(chars_of("a\u{2603}"), vec!['a', '\u{2603}']);
    assert!(same_text("OKAY", "OKAY"));
    assert!(!same_text("OKAY", "OKA"));
    assert!(!same_text("OKAY", "FAIL"));
    assert!(starts_with("connected to x", "connected to"));
    assert!(starts_with("x", ""));
    assert!(!starts_with("connected", "connected to"));
    assert!(!starts_with("Connected to", "connected to"));
}

#[test]
fn device_lists() {
    assert_eq!(devices(""), vec![]);
    assert_eq!(devices("\n"), vec![]);
    assert_eq!(devices("a\tdevice\n"), vec![device("a", "device")]);
    assert_eq!(
        devices("a\tdevice\nb\toffline\n"),
        vec![device("a", "device"), device("b", "offline")]
    );
    assert_eq!(devices("no tab\nb\toffline\n\nc\t"), vec![device("b", "offline")]);
    assert_eq!(devices("a\tb\tc\n"), vec![device("a", "b")]);
    assert_eq!(devices("x\n\tb\n y"), vec![device("", "b")]);
    assert_eq!(devices("\u{2003}a\tdevice\u{3000}\r\n"), vec![device("a", "device")]);
    assert_eq!(devices("a\t\nb\tc"), vec![device("a", ""), device("b", "c")]);
}

#[test]
fn device_items_can_be_cloned() {
    let items = parse_device_list("a\tdevice");
    let copy = items[0].clone();
    assert_eq!((copy.id, copy.device_type), device("a", "device"));
}
