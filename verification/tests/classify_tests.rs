use lighthouse_core::classify::{classify, classify_scan, Advertisement, LIGHTHOUSE_MANUFACTURER_ID};

fn ad(name: Option<&str>, address: &str, ids: Vec<u16>) -> Advertisement {
    Advertisement {
        address: address.to_string(),
        local_name: name.map(|n| n.to_string()),
        manufacturer_ids: ids,
    }
}

#[test]
fn lighthouse_needs_prefix_and_manufacturer_id() {
    assert!(classify(&ad(Some("LHB-B91A"), "AA:BB", vec![1373])));
    assert!(classify(&ad(Some("LHB"), "AA:BB", vec![7, 1373, 9])));
    // the prefix alone is not enough
    assert!(!classify(&ad(Some("LHB-B91A"), "AA:BB", vec![76])));
    assert!(!classify(&ad(Some("LHB-B91A"), "AA:BB", vec![])));
    // the manufacturer id alone is not enough
    assert!(!classify(&ad(Some("Speaker"), "AA:BB", vec![1373])));
    // the prefix must be at the start
    assert!(!classify(&ad(Some("xLHB"), "AA:BB", vec![1373])));
    assert!(!classify(&ad(Some("LH"), "AA:BB", vec![1373])));
}

#[test]
fn missing_name_never_matches() {
    assert!(!classify(&ad(None, "AA:BB", vec![1373])));
}

#[test]
fn manufacturer_id_value() {
    assert_eq!(LIGHTHOUSE_MANUFACTURER_ID, 1373);
}

#[test]
fn scan_keeps_lighthouses_only_and_dedups() {
    let ads = vec![
        ad(Some("Speaker"), "00:11", vec![76]),
        ad(Some("LHB-B91A"), "AA:BB", vec![1373]),
        ad(Some("LHB-0042"), "CC:DD", vec![5, 1373]),
        ad(Some("LHB-B91A"), "AA:BB", vec![1373]),
        ad(None, "EE:FF", vec![1373]),
    ];
    let records = classify_scan(&ads);
    assert_eq!(records.len(), 2);
    assert_eq!(records[0].name, "LHB-B91A");
    assert_eq!(records[0].address, "AA:BB");
    assert_eq!(records[1].name, "LHB-0042");
    assert_eq!(records[1].address, "CC:DD");
}

#[test]
fn scan_with_no_lighthouses_is_empty() {
    let ads = vec![ad(Some("Speaker"), "00:11", vec![76]), ad(None, "22:33", vec![])];
    assert!(classify_scan(&ads).is_empty());
}
