use visa_session::error::{Error, IdentificationField};
use visa_session::Identification;

#[test]
fn parses_four_fields() {
    let id = Identification::parse("RS PRO,IDM-8341,827B070G2,1.02").unwrap();
    assert_eq!(id.manufacturer, "RS PRO");
    assert_eq!(id.model, "IDM-8341");
    assert_eq!(id.serial_number, "827B070G2");
    assert_eq!(id.firmware_version, "1.02");
}

#[test]
fn missing_serial_number_is_named() {
    let e = Identification::parse("RS PRO,IDM-8341").unwrap_err();
    assert_eq!(
        e,
        Error::InvalidIdentification(IdentificationField::SerialNumber)
    );
}

#[test]
fn missing_model_is_named() {
    let e = Identification::parse("RS PRO").unwrap_err();
    assert_eq!(e, Error::InvalidIdentification(IdentificationField::Model));
}

#[test]
fn missing_firmware_version_is_named() {
    let e = Identification::parse("RS PRO,IDM-8341,827B070G2").unwrap_err();
    assert_eq!(
        e,
        Error::InvalidIdentification(IdentificationField::FirmwareVersion)
    );
}

#[test]
fn fields_are_trimmed() {
    let id = Identification::parse("  RS PRO , IDM-8341 ,\t827B070G2 , 1.02 \n").unwrap();
    assert_eq!(id.manufacturer, "RS PRO");
    assert_eq!(id.model, "IDM-8341");
    assert_eq!(id.serial_number, "827B070G2");
    assert_eq!(id.firmware_version, "1.02");
}

#[test]
fn unicode_whitespace_is_trimmed() {
    let id = Identification::parse("\u{a0}RS PRO\u{2009},IDM-8341\u{3000},827B070G2,1.02\u{85}").unwrap();
    assert_eq!(id.manufacturer, "RS PRO");
    assert_eq!(id.model, "IDM-8341");
    assert_eq!(id.firmware_version, "1.02");
}

#[test]
fn firmware_version_keeps_commas() {
    let id = Identification::parse("A,B,C,1.02,beta,7").unwrap();
    assert_eq!(id.firmware_version, "1.02,beta,7");
}

#[test]
fn empty_input_misses_model() {
    let e = Identification::parse("").unwrap_err();
    assert_eq!(e, Error::InvalidIdentification(IdentificationField::Model));
}
