use lighthouse_core::cache::{clear_cache, load_devices, save_devices, CacheError};
use lighthouse_core::device::DeviceInfo;

fn dev(name: &str, address: &str) -> DeviceInfo {
    DeviceInfo { name: name.to_string(), address: address.to_string() }
}

#[test]
fn round_trip_two_devices() {
    let devices = vec![dev("LHB-B91A", "AA:BB:CC:DD:EE:FF"), dev("LHB-0042", "11:22:33:44:55:66")];
    let bytes = save_devices(&devices);
    let loaded = load_devices(Some(&bytes)).unwrap();
    assert_eq!(loaded, devices);
}

#[test]
fn round_trip_empty_list() {
    let devices: Vec<DeviceInfo> = Vec::new();
    let bytes = save_devices(&devices);
    assert_eq!(bytes, b"[]".to_vec());
    let loaded = load_devices(Some(&bytes)).unwrap();
    assert!(loaded.is_empty());
}

#[test]
fn missing_file_is_empty_not_error() {
    let loaded = load_devices(None).unwrap();
    assert!(loaded.is_empty());
}

#[test]
fn round_trip_with_escapes() {
    let devices = vec![
        dev("quote \" backslash \\", "AA:BB"),
        dev("newline \n tab \t", "CC:DD"),
        dev("unicode \u{00e9}\u{6f22}", "EE:FF"),
    ];
    let bytes = save_devices(&devices);
    let loaded = load_devices(Some(&bytes)).unwrap();
    assert_eq!(loaded, devices);
}

#[test]
fn saved_bytes_parse_as_json() {
    let devices = vec![dev("LHB-B91A", "AA:BB"), dev("control \u{0001}", "CC:DD")];
    let bytes = save_devices(&devices);
    let text = String::from_utf8(bytes).unwrap();
    let value: serde_json::Value = serde_json::from_str(&text).unwrap();
    let arr = value.as_array().unwrap();
    assert_eq!(arr.len(), 2);
    assert_eq!(arr[0]["name"], "LHB-B91A");
    assert_eq!(arr[0]["address"], "AA:BB");
    assert_eq!(arr[1]["name"], "control \u{0001}");
    assert_eq!(arr[1]["address"], "CC:DD");
}

#[test]
fn loads_what_other_writers_pretty_print() {
    // the format another JSON writer produces for the same records
    let text = "[\n  {\n    \"name\": \"LHB-B91A\",\n    \"address\": \"AA:BB\"\n  }\n]";
    let loaded = load_devices(Some(text.as_bytes())).unwrap();
    assert_eq!(loaded, vec![dev("LHB-B91A", "AA:BB")]);
}

#[test]
fn loads_members_in_either_order() {
    let text = "[{\"address\": \"AA:BB\", \"name\": \"LHB-B91A\"}]";
    let loaded = load_devices(Some(text.as_bytes())).unwrap();
    assert_eq!(loaded, vec![dev("LHB-B91A", "AA:BB")]);
}

#[test]
fn loads_standard_escapes() {
    let text = "[{\"name\": \"a\\n\\t\\\\\\\"b\\u0041\", \"address\": \"AA\"}]";
    let loaded = load_devices(Some(text.as_bytes())).unwrap();
    assert_eq!(loaded[0].name, "a\n\t\\\"bA");
}

#[test]
fn rejects_malformed_input() {
    for bad in [
        "",
        "{}",
        "[",
        "[{]",
        "[{\"name\": \"a\"}]",
        "[{\"name\": \"a\", \"other\": \"b\"}]",
        "[{\"name\": \"a\", \"address\": \"b\"},]",
        "[{\"name\": \"a\", \"address\": \"b\"}] x",
        "[{\"name\": \"a\", \"address\": \"b\\uD800\"}]",
        "[{\"name\": \"a\", \"address\": \"b\\q\"}]",
    ] {
        assert_eq!(load_devices(Some(bad.as_bytes())), Err(CacheError::Malformed), "{bad}");
    }
}

#[test]
fn rejects_invalid_utf8_content() {
    // a file whose string content holds a raw byte that no UTF-8 text has
    let mut bytes = b"[{\"name\": \"".to_vec();
    bytes.push(0xFF);
    bytes.extend_from_slice(b"\", \"address\": \"AA\"}]");
    assert_eq!(load_devices(Some(&bytes)), Err(CacheError::InvalidUtf8));
}

#[test]
fn clear_cache_writes_the_empty_array() {
    let bytes = clear_cache();
    assert_eq!(bytes, b"[]".to_vec());
    let loaded = load_devices(Some(&bytes)).unwrap();
    assert!(loaded.is_empty());
}
