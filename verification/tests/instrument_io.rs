use visa_session::error::{Error, VisaError};
use visa_session::{AccessMode, FlushMode, ResourceManager, SimTransport};

fn bench() -> SimTransport {
    let mut t = SimTransport::new();
    assert!(t.add_resource("ASRL12::INSTR", "RS PRO,RSDM-3055,SDM35HBQ,1.01"));
    t
}

#[test]
fn query_answers_one_line() {
    let mut t = bench();
    let mut rm = ResourceManager::new(&mut t).unwrap();
    let mut inst = rm.open(&mut t, "ASRL12::INSTR", AccessMode::no_lock(), 0).unwrap();

    let answer = inst.query(&mut t, b"*TST?\n").unwrap();
    assert_eq!(answer, "0\n");

    let idn = inst.query(&mut t, b"*IDN?\n").unwrap();
    assert_eq!(idn, "RS PRO,RSDM-3055,SDM35HBQ,1.01\n");
}

#[test]
fn write_without_a_query_leaves_nothing_to_read() {
    let mut t = bench();
    let mut rm = ResourceManager::new(&mut t).unwrap();
    let mut inst = rm.open(&mut t, "ASRL12::INSTR", AccessMode::no_lock(), 0).unwrap();

    inst.write(&mut t, b"*RST\n").unwrap();
    let e = inst.read(&mut t).unwrap_err();
    assert_eq!(e, Error::Visa(VisaError::Timeout));
}

#[test]
fn read_raw_keeps_partial_lines() {
    let mut t = bench();
    let mut rm = ResourceManager::new(&mut t).unwrap();
    let mut inst = rm.open(&mut t, "ASRL12::INSTR", AccessMode::no_lock(), 0).unwrap();

    // A command written without its terminator draws no answer yet; the
    // partial read hands back what there was: nothing, and a timeout.
    inst.write(&mut t, b"*TST?").unwrap();
    let mut buf = Vec::new();
    let e = inst.read_raw(&mut t, &mut buf).unwrap_err();
    assert_eq!(e, Error::Visa(VisaError::Timeout));
    assert!(buf.is_empty());

    // Completing the line draws the answer.
    inst.write(&mut t, b"\n").unwrap();
    let mut buf2 = Vec::new();
    inst.read_raw(&mut t, &mut buf2).unwrap();
    assert_eq!(buf2, b"0\n".to_vec());
}

#[test]
fn flush_discards_received_data() {
    let mut t = bench();
    let mut rm = ResourceManager::new(&mut t).unwrap();
    let mut inst = rm.open(&mut t, "ASRL12::INSTR", AccessMode::no_lock(), 0).unwrap();

    inst.write(&mut t, b"*TST?\n").unwrap();
    inst.flush(&mut t, FlushMode::read_buf_discard()).unwrap();
    let e = inst.read(&mut t).unwrap_err();
    assert_eq!(e, Error::Visa(VisaError::Timeout));
}

#[test]
fn scpi_command_vocabulary() {
    let mut t = bench();
    let mut rm = ResourceManager::new(&mut t).unwrap();
    let mut inst = rm.open(&mut t, "ASRL12::INSTR", AccessMode::no_lock(), 0).unwrap();

    inst.reset(&mut t).unwrap();
    inst.query_self_test(&mut t).unwrap();
    inst.operation_complete(&mut t).unwrap();
    inst.query_operation_completed(&mut t).unwrap();
    inst.wait_on_complete(&mut t).unwrap();
    inst.clear_status(&mut t).unwrap();
    inst.event_status_enable(&mut t).unwrap();
    inst.query_event_status_enable(&mut t).unwrap();
    inst.query_event_status_register(&mut t).unwrap();
    inst.service_request_enable(&mut t).unwrap();
    inst.query_service_request_enable(&mut t).unwrap();
    inst.query_read_status_byte(&mut t).unwrap();
}

#[test]
fn query_identification_refreshes_the_snapshot() {
    let mut t = bench();
    let mut rm = ResourceManager::new(&mut t).unwrap();
    let mut inst = rm.open(&mut t, "ASRL12::INSTR", AccessMode::no_lock(), 0).unwrap();
    assert_eq!(inst.identification.model, "RSDM-3055");

    let id = inst.query_identification(&mut t).unwrap();
    assert_eq!(id.manufacturer, "RS PRO");
    assert_eq!(id.serial_number, "SDM35HBQ");
    assert_eq!(inst.identification, id);
}

#[test]
fn lock_key_with_interior_nul_is_rejected() {
    let mut t = bench();
    let mut rm = ResourceManager::new(&mut t).unwrap();
    let inst = rm.open(&mut t, "ASRL12::INSTR", AccessMode::no_lock(), 0).unwrap();

    let e = inst
        .lock_shared_with_key(&mut t, 100, "bad\u{0}key")
        .unwrap_err();
    assert_eq!(e, Error::InvalidString);
}

#[test]
fn status_description_answers_for_live_handles() {
    let mut t = bench();
    let mut rm = ResourceManager::new(&mut t).unwrap();
    let inst = rm.open(&mut t, "ASRL12::INSTR", AccessMode::no_lock(), 0).unwrap();
    let text = inst.status_description(&t, VisaError::Timeout).unwrap();
    assert!(!text.is_empty());
}

#[test]
fn shared_handles_name_one_session() {
    let mut t = bench();
    let mut rm = ResourceManager::new(&mut t).unwrap();
    let inst = rm.open(&mut t, "ASRL12::INSTR", AccessMode::no_lock(), 0).unwrap();
    let other = inst.share();
    assert_eq!(inst.as_vi_session(), other.as_vi_session());
    assert_eq!(inst.identification, other.identification);
}
