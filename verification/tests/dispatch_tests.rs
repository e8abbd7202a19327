use lighthouse_core::device::DeviceInfo;
use lighthouse_core::dispatch::{
    choose_command, select_characteristic, BatchDispatcher, Command, GattCharacteristic, GattService,
    LIGHTHOUSE_CHAR_UUID, LIGHTHOUSE_SERVICE_UUID, POWERON_COMMAND, STANDBY_COMMAND,
};

fn dev(name: &str, address: &str) -> DeviceInfo {
    DeviceInfo { name: name.to_string(), address: address.to_string() }
}

fn ch(uuid: u128, write: bool, wwr: bool) -> GattCharacteristic {
    GattCharacteristic { uuid, write, write_without_response: wwr }
}

#[test]
fn command_bytes() {
    assert_eq!(Command::Standby.byte(), STANDBY_COMMAND);
    assert_eq!(Command::PowerOn.byte(), POWERON_COMMAND);
    assert_eq!(STANDBY_COMMAND, 0x00);
    assert_eq!(POWERON_COMMAND, 0x01);
}

#[test]
fn exact_pair_wins_over_earlier_writable() {
    let services = vec![
        GattService { uuid: 0x1111, characteristics: vec![ch(0x2222, true, true)] },
        GattService {
            uuid: LIGHTHOUSE_SERVICE_UUID,
            characteristics: vec![ch(0x3333, false, false), ch(LIGHTHOUSE_CHAR_UUID, false, true)],
        },
    ];
    assert_eq!(select_characteristic(&services), Some((1, 1)));
}

#[test]
fn falls_back_to_first_writable_characteristic() {
    let services = vec![
        GattService { uuid: 0x1111, characteristics: vec![ch(0x2222, false, false)] },
        GattService {
            uuid: 0x4444,
            characteristics: vec![ch(0x5555, false, true), ch(0x6666, true, false)],
        },
    ];
    assert_eq!(select_characteristic(&services), Some((1, 0)));
}

#[test]
fn no_writable_characteristic_anywhere() {
    let services = vec![
        GattService { uuid: 0x1111, characteristics: vec![ch(0x2222, false, false)] },
        GattService { uuid: 0x3333, characteristics: Vec::new() },
    ];
    assert_eq!(select_characteristic(&services), None);
}

#[test]
fn lighthouse_service_without_the_characteristic_is_not_exact() {
    let services = vec![GattService {
        uuid: LIGHTHOUSE_SERVICE_UUID,
        characteristics: vec![ch(0x9999, true, false)],
    }];
    assert_eq!(select_characteristic(&services), Some((0, 0)));
}

#[test]
fn batch_gives_each_device_one_attempt_despite_a_failure() {
    // device 2 of 3 fails: devices 1 and 3 still get exactly one attempt
    // each, and the overall result still reports success
    let targets = vec![dev("LHB-1", "AA"), dev("LHB-2", "BB"), dev("LHB-3", "CC")];
    let mut batch = BatchDispatcher::new(targets.clone());

    let mut attempted: Vec<String> = Vec::new();
    while let Some(d) = batch.next_target() {
        let ok = d.address != "BB";
        attempted.push(d.address);
        batch.record(ok);
    }
    assert_eq!(attempted, vec!["AA", "BB", "CC"]);
    assert!(batch.finished());
    assert_eq!(batch.attempted(), 3);

    let report = batch.summary("Command sent to devices");
    assert!(report.success);
    assert_eq!(report.error_code, 0);
    assert_eq!(report.devices, targets);
}

#[test]
fn batch_over_no_targets_finishes_at_once() {
    let batch = BatchDispatcher::new(Vec::new());
    assert!(batch.next_target().is_none());
    assert!(batch.finished());
    assert_eq!(batch.attempted(), 0);
}

#[test]
fn poweron_takes_priority_over_standby() {
    assert_eq!(choose_command(true, true), Some(Command::PowerOn));
    assert_eq!(choose_command(true, false), Some(Command::PowerOn));
    assert_eq!(choose_command(false, true), Some(Command::Standby));
    assert_eq!(choose_command(false, false), None);
}
