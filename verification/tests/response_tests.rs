use lighthouse_core::config::AppConfig;
use lighthouse_core::app_state::AppState;
use lighthouse_core::device::DeviceInfo;
use lighthouse_core::response::{
    CommandResponse, EXIT_BLUETOOTH_ERROR, EXIT_COMMAND_FAILED, EXIT_GENERAL_ERROR,
    EXIT_NO_DEVICES_FOUND, EXIT_STEAMVR_ERROR, EXIT_SUCCESS,
};

fn dev(name: &str, address: &str) -> DeviceInfo {
    DeviceInfo { name: name.to_string(), address: address.to_string() }
}

#[test]
fn defined_error_codes() {
    assert_eq!(EXIT_SUCCESS, 0);
    assert_eq!(EXIT_GENERAL_ERROR, 1);
    assert_eq!(EXIT_BLUETOOTH_ERROR, 2);
    assert_eq!(EXIT_NO_DEVICES_FOUND, 3);
    assert_eq!(EXIT_COMMAND_FAILED, 4);
    assert_eq!(EXIT_STEAMVR_ERROR, 5);
}

#[test]
fn success_response_carries_devices_and_code_zero() {
    let r = CommandResponse::success("done", vec![dev("LHB-1", "AA")]);
    assert!(r.success);
    assert_eq!(r.message, "done");
    assert_eq!(r.devices, vec![dev("LHB-1", "AA")]);
    assert_eq!(r.error_code, 0);
}

#[test]
fn error_response_has_no_devices() {
    let r = CommandResponse::error("nothing found", EXIT_NO_DEVICES_FOUND);
    assert!(!r.success);
    assert_eq!(r.message, "nothing found");
    assert!(r.devices.is_empty());
    assert_eq!(r.error_code, 3);
}

#[test]
fn json_output_exact_bytes() {
    let r = CommandResponse::success("ok", vec![dev("LHB-1", "AA")]);
    let text = String::from_utf8(r.to_json()).unwrap();
    assert_eq!(
        text,
        "{\"success\":true,\"message\":\"ok\",\"devices\":[{\"name\":\"LHB-1\",\"address\":\"AA\"}],\"error_code\":0}"
    );
}

#[test]
fn json_output_parses_and_round_trips_fields() {
    let r = CommandResponse::success(
        "sent \"quoted\"\n",
        vec![dev("LHB-1", "AA"), dev("LHB-2", "BB")],
    );
    let text = String::from_utf8(r.to_json()).unwrap();
    let v: serde_json::Value = serde_json::from_str(&text).unwrap();
    assert_eq!(v["success"], true);
    assert_eq!(v["message"], "sent \"quoted\"\n");
    assert_eq!(v["devices"].as_array().unwrap().len(), 2);
    assert_eq!(v["devices"][1]["address"], "BB");
    assert_eq!(v["error_code"], 0);

    let e = CommandResponse::error("scan failed", EXIT_BLUETOOTH_ERROR);
    let v: serde_json::Value =
        serde_json::from_str(&String::from_utf8(e.to_json()).unwrap()).unwrap();
    assert_eq!(v["success"], false);
    assert_eq!(v["devices"].as_array().unwrap().len(), 0);
    assert_eq!(v["error_code"], 2);
}

#[test]
fn app_config_defaults() {
    let c = AppConfig::default();
    assert!(!c.do_not_show_install_prompt);
    assert_eq!(c.theme, "dark");
}

#[test]
fn selection_wraps_both_ways() {
    let mut s = AppState::new();
    assert_eq!(s.selected, 0);
    assert_eq!(s.status, "Press 'r' to scan for devices");
    // moves on an empty list stay put
    s.select_next();
    s.select_prev();
    assert_eq!(s.selected, 0);

    s.set_devices(vec![dev("a", "AA"), dev("b", "BB"), dev("c", "CC")], "Loaded 3 devices");
    assert_eq!(s.selected, 0);
    s.select_prev();
    assert_eq!(s.selected, 2);
    s.select_next();
    assert_eq!(s.selected, 0);
    s.select_next();
    assert_eq!(s.selected, 1);
    s.set_status("Scanning...");
    assert_eq!(s.status, "Scanning...");
    assert_eq!(s.selected, 1);
}
