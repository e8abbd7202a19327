use lighthouse_core::classify::Advertisement;
use lighthouse_core::device::DeviceInfo;
use lighthouse_core::dispatch::Command;
use lighthouse_core::reconcile::{reconcile_targets, Action, Engine, Event, Mode};

fn dev(name: &str, address: &str) -> DeviceInfo {
    DeviceInfo { name: name.to_string(), address: address.to_string() }
}

fn ad(name: Option<&str>, address: &str, ids: Vec<u16>) -> Advertisement {
    Advertisement {
        address: address.to_string(),
        local_name: name.map(|n| n.to_string()),
        manufacturer_ids: ids,
    }
}

#[test]
fn empty_cache_scan_classify_save_dispatch() {
    // empty cache, one lighthouse on the air: it is cached and powered on
    let (engine, first) = Engine::new_dispatch(Command::PowerOn, Mode::Automated);
    assert!(matches!(first, Action::ReadCache));

    let (engine, action) = engine.step(Event::CacheLoaded(Vec::new()));
    assert!(matches!(action, Action::Scan));

    let scan = vec![
        ad(Some("Headphones"), "00:11", vec![76]),
        ad(Some("LHB-B91A"), "AA:BB:CC:DD:EE:FF", vec![1373]),
    ];
    let (engine, action) = engine.step(Event::ScanCompleted(scan));
    let saved = match action {
        Action::SaveCache(saved) => saved,
        _ => panic!("expected a cache write"),
    };
    assert_eq!(saved, vec![dev("LHB-B91A", "AA:BB:CC:DD:EE:FF")]);

    let (engine, action) = engine.step(Event::SaveFinished(true));
    let (targets, command) = match action {
        Action::Dispatch(t, c) => (t, c),
        _ => panic!("expected a dispatch"),
    };
    assert_eq!(targets, vec![dev("LHB-B91A", "AA:BB:CC:DD:EE:FF")]);
    assert_eq!(command.byte(), 0x01);

    let (_engine, action) = engine.step(Event::DispatchFinished);
    match action {
        Action::Report(r) => {
            assert!(r.success);
            assert_eq!(r.error_code, 0);
            assert_eq!(r.devices, vec![dev("LHB-B91A", "AA:BB:CC:DD:EE:FF")]);
        },
        _ => panic!("expected the final report"),
    }
}

#[test]
fn stale_cache_automated_mode_reports_no_devices() {
    // cache knows AA:BB, the air shows only CC:DD, automated mode:
    // error code 3, no devices, and no dispatch was ever requested
    let (engine, _) = Engine::new_dispatch(Command::PowerOn, Mode::Automated);
    let (engine, action) = engine.step(Event::CacheLoaded(vec![dev("LHB-B91A", "AA:BB")]));
    assert!(matches!(action, Action::Scan));

    let (_engine, action) = engine.step(Event::ScanCompleted(vec![ad(None, "CC:DD", vec![])]));
    match action {
        Action::Report(r) => {
            assert!(!r.success);
            assert_eq!(r.error_code, 3);
            assert!(r.devices.is_empty());
        },
        _ => panic!("expected a terminal report, not a dispatch"),
    }
}

#[test]
fn live_scan_dispatches_to_intersection_only() {
    let cache = vec![dev("LHB-1", "AA:BB"), dev("LHB-2", "CC:DD"), dev("LHB-3", "EE:FF")];
    let (engine, _) = Engine::new_dispatch(Command::Standby, Mode::Automated);
    let (engine, _) = engine.step(Event::CacheLoaded(cache));
    // only two of the three cached devices are on the air; an unknown
    // device is visible too and must not be targeted
    let scan = vec![
        ad(None, "EE:FF", vec![]),
        ad(Some("Speaker"), "77:88", vec![76]),
        ad(None, "AA:BB", vec![]),
    ];
    let (_engine, action) = engine.step(Event::ScanCompleted(scan));
    let (targets, command) = match action {
        Action::Dispatch(t, c) => (t, c),
        _ => panic!("expected a dispatch"),
    };
    assert_eq!(targets, vec![dev("LHB-1", "AA:BB"), dev("LHB-3", "EE:FF")]);
    assert_eq!(command.byte(), 0x00);
}

#[test]
fn reconcile_targets_is_the_address_intersection() {
    let cache = vec![dev("a", "AA"), dev("b", "BB"), dev("c", "CC")];
    let scan = vec![ad(None, "BB", vec![]), ad(None, "DD", vec![])];
    let targets = reconcile_targets(&cache, &scan);
    assert_eq!(targets, vec![dev("b", "BB")]);
}

#[test]
fn interactive_mode_prompts_then_rescans() {
    let (engine, _) = Engine::new_dispatch(Command::PowerOn, Mode::Interactive);
    let (engine, _) = engine.step(Event::CacheLoaded(vec![dev("LHB-1", "AA:BB")]));
    let (engine, action) = engine.step(Event::ScanCompleted(vec![ad(None, "CC:DD", vec![])]));
    assert!(matches!(action, Action::Prompt));
    let (engine, action) = engine.step(Event::PromptAnswered(true));
    assert!(matches!(action, Action::Scan));
    // the fresh scan classifies and caches anew
    let (_, action) = engine.step(Event::ScanCompleted(vec![ad(
        Some("LHB-9"),
        "99:99",
        vec![1373],
    )]));
    match action {
        Action::SaveCache(saved) => assert_eq!(saved, vec![dev("LHB-9", "99:99")]),
        _ => panic!("expected a cache write"),
    }
}

#[test]
fn interactive_mode_prompt_declined_reports_no_devices() {
    let (engine, _) = Engine::new_dispatch(Command::PowerOn, Mode::Interactive);
    let (engine, _) = engine.step(Event::CacheLoaded(vec![dev("LHB-1", "AA:BB")]));
    let (engine, _) = engine.step(Event::ScanCompleted(Vec::new()));
    let (_engine, action) = engine.step(Event::PromptAnswered(false));
    match action {
        Action::Report(r) => {
            assert!(!r.success);
            assert_eq!(r.error_code, 3);
        },
        _ => panic!("expected a terminal report"),
    }
}

#[test]
fn scan_failure_aborts_with_bluetooth_error() {
    let (engine, _) = Engine::new_scan(Mode::Automated);
    let (_engine, action) = engine.step(Event::ScanFailed);
    match action {
        Action::Report(r) => {
            assert!(!r.success);
            assert_eq!(r.error_code, 2);
        },
        _ => panic!("expected a terminal report"),
    }
}

#[test]
fn device_listing_reports_cache_without_scanning() {
    let (engine, first) = Engine::new_devices(Mode::Automated);
    assert!(matches!(first, Action::ReadCache));
    let (_engine, action) = engine.step(Event::CacheLoaded(vec![dev("LHB-1", "AA:BB")]));
    match action {
        Action::Report(r) => {
            assert!(r.success);
            assert_eq!(r.devices, vec![dev("LHB-1", "AA:BB")]);
        },
        _ => panic!("expected an immediate report"),
    }
}

#[test]
fn scan_only_run_saves_without_dispatching() {
    let (engine, first) = Engine::new_scan(Mode::Automated);
    assert!(matches!(first, Action::Scan));
    let (engine, action) = engine.step(Event::ScanCompleted(vec![ad(
        Some("LHB-7"),
        "12:34",
        vec![1373],
    )]));
    assert!(matches!(action, Action::SaveCache(_)));
    let (_engine, action) = engine.step(Event::SaveFinished(true));
    match action {
        Action::Report(r) => {
            assert!(r.success);
            assert_eq!(r.devices, vec![dev("LHB-7", "12:34")]);
        },
        _ => panic!("expected a report, not a dispatch"),
    }
}

#[test]
fn fresh_scan_without_lighthouses_is_an_error_only_when_dispatching() {
    let (engine, _) = Engine::new_dispatch(Command::PowerOn, Mode::Automated);
    let (engine, _) = engine.step(Event::CacheLoaded(Vec::new()));
    let (_e, action) = engine.step(Event::ScanCompleted(Vec::new()));
    match action {
        Action::Report(r) => {
            assert!(!r.success);
            assert_eq!(r.error_code, 3);
        },
        _ => panic!("expected a terminal report"),
    }

    let (engine, _) = Engine::new_scan(Mode::Automated);
    let (_e, action) = engine.step(Event::ScanCompleted(Vec::new()));
    match action {
        Action::Report(r) => {
            assert!(r.success);
            assert!(r.devices.is_empty());
        },
        _ => panic!("expected a terminal report"),
    }
}
