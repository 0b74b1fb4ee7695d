use visa_session::error::{Error, VisaError};
use visa_session::{AccessMode, FakeInstrument3000, ResourceManager, Scope, SimTransport};

fn bench() -> SimTransport {
    let mut t = SimTransport::new();
    assert!(t.add_resource("USB0::0x1234::0x5678::827B070G2::INSTR", "RS PRO,IDM-8341,827B070G2,1.02"));
    assert!(t.add_resource("GPIB0::5::INSTR", "Keysight,34465A,MY12345678,A.03.01"));
    assert!(t.add_resource("ASRL12::INSTR", "RS PRO,RSDM-3055,SDM35HBQ,1.01"));
    assert!(t.add_resource("TCPIP0::192.168.1.5::INSTR", "Rigol,DS1054Z,DS1ZA01,00.04"));
    assert!(t.add_resource("TCPIP0::169.254.9.2::INSTR", "Tek,TBS1052B,C012345,FV:1.0"));
    t
}

#[test]
fn test() {
    let mut t = bench();
    let mut resource_manager = ResourceManager::new(&mut t).unwrap();

    let instrument = resource_manager
        .open(&mut t, "ASRL12::INSTR", AccessMode::no_lock(), 0)
        .unwrap();

    let fake_instrument_3000 = FakeInstrument3000::new(instrument);

    fake_instrument_3000.instrument_specific_command();
}

#[test]
fn get_instruments_with_expression() {
    let mut t = bench();
    let mut resource_manager = ResourceManager::new(&mut t).unwrap();

    let resources = resource_manager
        .get_resources_with_expression(&mut t, "?*INSTR")
        .unwrap();
    println!("{:?}", resources);
    assert_eq!(resources.len(), 5);

    for resource in &resources {
        let instrument =
            resource_manager.open(&mut t, resource, AccessMode::exclusive_lock(), 0);

        println!("{}", resource);
        match instrument {
            Ok(mut instrument) => {
                println!("opened");
                let identification = instrument.query_identification(&mut t).unwrap();

                println!("{:?}", identification);
            },
            Err(e) => println!("{:?}", e),
        }
    }
}

#[test]
fn get_instruments_with_scope() {
    let mut t = bench();
    let mut resource_manager = ResourceManager::new(&mut t).unwrap();

    let resources = resource_manager
        .get_resources_with_scope(&mut t, Scope::Local)
        .unwrap();
    println!("{:?}", resources);

    for resource in resources {
        let instrument = resource_manager.open(&mut t, &resource, AccessMode::exclusive_lock(), 0);

        println!("{}", resource);
        match instrument {
            Ok(mut instrument) => {
                println!("opened");
                let identification = instrument.query_identification(&mut t).unwrap();

                println!("{:?}", identification);
            },
            Err(e) => println!("{:?}", e),
        }
    }
}

#[test]
fn get_instrument_with_identification() {
    let mut t = bench();
    let mut resource_manager = ResourceManager::new(&mut t).unwrap();

    let mut instrument = resource_manager
        .open_with_identification(
            &mut t,
            "RS PRO",
            "IDM-8341",
            "827B070G2",
            AccessMode::exclusive_lock(),
            Scope::Local,
            0,
        )
        .unwrap();

    let identification = instrument.query_identification(&mut t).unwrap();
    assert_eq!(identification.manufacturer, "RS PRO");
    assert_eq!(identification.model, "IDM-8341");
    assert_eq!(identification.serial_number, "827B070G2");

    println!("{:?}", identification);
}

#[test]
fn cache_returns_the_same_session() {
    let mut t = bench();
    let mut rm = ResourceManager::new(&mut t).unwrap();

    let a = rm.open(&mut t, "GPIB0::5::INSTR", AccessMode::no_lock(), 0).unwrap();
    let b = rm.open(&mut t, "GPIB0::5::INSTR", AccessMode::no_lock(), 0).unwrap();
    assert_eq!(a.as_vi_session(), b.as_vi_session());
}

#[test]
fn dead_instrument_is_evicted_and_reopened() {
    let mut t = bench();
    let mut rm = ResourceManager::new(&mut t).unwrap();

    let a = rm.open(&mut t, "GPIB0::5::INSTR", AccessMode::no_lock(), 0).unwrap();
    let old_handle = a.as_vi_session();

    // The instrument stops answering: the cached entry fails its liveness
    // check, is evicted, and the fresh open fails too.
    assert!(t.set_responding("GPIB0::5::INSTR", false));
    let dead = rm.open(&mut t, "GPIB0::5::INSTR", AccessMode::no_lock(), 0);
    assert!(dead.is_err());

    // Once it answers again, the next open builds a fresh native session
    // rather than returning the dead handle.
    assert!(t.set_responding("GPIB0::5::INSTR", true));
    let b = rm.open(&mut t, "GPIB0::5::INSTR", AccessMode::no_lock(), 0).unwrap();
    assert_ne!(b.as_vi_session(), old_handle);
}

#[test]
fn lock_round_trip() {
    let mut t = bench();
    let mut rm = ResourceManager::new(&mut t).unwrap();
    let inst = rm.open(&mut t, "ASRL12::INSTR", AccessMode::no_lock(), 0).unwrap();

    inst.lock_exclusive(&mut t, 100).unwrap();
    inst.unlock(&mut t).unwrap();
    let e = inst.unlock(&mut t).unwrap_err();
    assert_eq!(e, Error::Visa(VisaError::SessionNotLocked));
}

#[test]
fn exclusive_lock_bars_other_sessions() {
    let mut t = bench();
    let mut rm1 = ResourceManager::new(&mut t).unwrap();
    let mut rm2 = ResourceManager::new(&mut t).unwrap();
    let a = rm1.open(&mut t, "ASRL12::INSTR", AccessMode::no_lock(), 0).unwrap();
    let mut b = rm2.open(&mut t, "ASRL12::INSTR", AccessMode::no_lock(), 0).unwrap();

    a.lock_exclusive(&mut t, 100).unwrap();
    let denied = b.query_identification(&mut t).unwrap_err();
    assert_eq!(denied, Error::Visa(VisaError::ResourceLocked));
    a.unlock(&mut t).unwrap();
    b.query_identification(&mut t).unwrap();
}

#[test]
fn shared_lock_key_join() {
    let mut t = bench();
    let mut rm1 = ResourceManager::new(&mut t).unwrap();
    let mut rm2 = ResourceManager::new(&mut t).unwrap();
    let mut rm3 = ResourceManager::new(&mut t).unwrap();
    let a = rm1.open(&mut t, "ASRL12::INSTR", AccessMode::no_lock(), 0).unwrap();
    let b = rm2.open(&mut t, "ASRL12::INSTR", AccessMode::no_lock(), 0).unwrap();
    let c = rm3.open(&mut t, "ASRL12::INSTR", AccessMode::no_lock(), 0).unwrap();

    let key = a.lock_shared(&mut t, 100).unwrap();
    let joined = b.lock_shared_with_key(&mut t, 100, key.as_str()).unwrap();
    assert_eq!(joined, key);

    let refused = c.lock_shared_with_key(&mut t, 100, "not-the-key").unwrap_err();
    assert!(
        refused == Error::Visa(VisaError::InvalidAccessKey)
            || refused == Error::Visa(VisaError::ResourceLocked)
    );

    b.unlock(&mut t).unwrap();
    a.unlock(&mut t).unwrap();
    let e = a.unlock(&mut t).unwrap_err();
    assert_eq!(e, Error::Visa(VisaError::SessionNotLocked));
}

#[test]
fn scope_filtering() {
    let mut t = bench();
    let rm = ResourceManager::new(&mut t).unwrap();

    let local = rm.get_resources_with_scope(&mut t, Scope::Local).unwrap();
    for r in &local {
        assert!(!r.contains("TCPIP") || r.contains("169.254"));
    }
    assert!(!local.iter().any(|r| r == "TCPIP0::192.168.1.5::INSTR"));
    assert!(local.iter().any(|r| r == "TCPIP0::169.254.9.2::INSTR"));

    let global = rm.get_resources_with_scope(&mut t, Scope::Global).unwrap();
    for r in &local {
        assert!(global.iter().any(|g| g == r));
    }
}

#[test]
fn not_found_propagation() {
    let mut t = bench();
    let mut rm = ResourceManager::new(&mut t).unwrap();

    let e = rm
        .open_with_identification(
            &mut t,
            "NoSuchVendor",
            ".*",
            ".*",
            AccessMode::no_lock(),
            Scope::Global,
            0,
        )
        .unwrap_err();
    assert_eq!(e, Error::InstrumentNotFound);
}

#[test]
fn identification_scan_uses_the_patterns() {
    let mut t = bench();
    let mut rm = ResourceManager::new(&mut t).unwrap();

    // A prefix alone must not match in full, so anchoring is in effect.
    let e = rm
        .open_with_identification(&mut t, "RS", "IDM-8341", ".*", AccessMode::no_lock(), Scope::Global, 0)
        .unwrap_err();
    assert_eq!(e, Error::InstrumentNotFound);

    let found = rm
        .open_with_identification(&mut t, "RS.*", "IDM-.*", ".*", AccessMode::no_lock(), Scope::Global, 0)
        .unwrap();
    assert_eq!(found.identification.model, "IDM-8341");
}

#[test]
fn open_errors() {
    let mut t = bench();
    let mut rm = ResourceManager::new(&mut t).unwrap();

    let absent = rm.open(&mut t, "GPIB9::9::INSTR", AccessMode::no_lock(), 0).unwrap_err();
    assert_eq!(absent, Error::Visa(VisaError::ResourceNotFound));

    let nul = rm.open(&mut t, "bad\u{0}name", AccessMode::no_lock(), 0).unwrap_err();
    assert_eq!(nul, Error::InvalidString);

    let shared = rm
        .open(&mut t, "ASRL12::INSTR", AccessMode::shared_lock(), 0)
        .unwrap_err();
    assert_eq!(shared, Error::Visa(VisaError::InvalidAccessMode));

    let bad_expr = rm.get_resources_with_expression(&mut t, "(USB").unwrap_err();
    assert_eq!(bad_expr, Error::Visa(VisaError::InvalidExpression));

    let nul_expr = rm
        .get_resources_with_expression(&mut t, "?*IN\u{0}STR")
        .unwrap_err();
    assert_eq!(nul_expr, Error::InvalidString);
}

#[test]
fn close_removes_the_cached_instrument() {
    let mut t = bench();
    let mut rm = ResourceManager::new(&mut t).unwrap();

    rm.open(&mut t, "ASRL12::INSTR", AccessMode::no_lock(), 0).unwrap();
    rm.close(&mut t, "ASRL12::INSTR").unwrap();
    let e = rm.close(&mut t, "ASRL12::INSTR").unwrap_err();
    assert_eq!(e, Error::InstrumentNotFound);
}

#[test]
fn close_all_invalidates_the_manager() {
    let mut t = bench();
    let mut rm = ResourceManager::new(&mut t).unwrap();
    rm.open(&mut t, "ASRL12::INSTR", AccessMode::no_lock(), 0).unwrap();
    rm.close_all(&mut t).unwrap();

    let e = rm.open(&mut t, "ASRL12::INSTR", AccessMode::no_lock(), 0).unwrap_err();
    assert!(matches!(e, Error::Visa(_)));
}

#[test]
fn exclusive_open_takes_the_lock() {
    let mut t = bench();
    let mut rm1 = ResourceManager::new(&mut t).unwrap();
    let mut rm2 = ResourceManager::new(&mut t).unwrap();

    let _a = rm1.open(&mut t, "GPIB0::5::INSTR", AccessMode::exclusive_lock(), 0).unwrap();
    let denied = rm2.open(&mut t, "GPIB0::5::INSTR", AccessMode::exclusive_lock(), 0).unwrap_err();
    assert_eq!(denied, Error::Visa(VisaError::ResourceLocked));
}
