use visa_session::expr::{check_expression, matches_expression};

#[test]
fn wildcard_star_spans_runs() {
    assert!(matches_expression("?*INSTR", "USB0::0x1234::0x5678::SER::INSTR"));
    assert!(matches_expression("?*INSTR", "GPIB0::5::INSTR"));
    assert!(!matches_expression("?*INSTR", "INSTR"));
    assert!(!matches_expression("?*INSTR", "USB0::RAW"));
}

#[test]
fn wildcard_question_is_one_character() {
    assert!(matches_expression("ASRL?::INSTR", "ASRL3::INSTR"));
    assert!(!matches_expression("ASRL?::INSTR", "ASRL31::INSTR"));
    assert!(!matches_expression("ASRL?::INSTR", "ASRL::INSTR"));
}

#[test]
fn alternation_groups() {
    assert!(matches_expression("(USB|GPIB)?*INSTR", "USB0::INSTR"));
    assert!(matches_expression("(USB|GPIB)?*INSTR", "GPIB0::5::INSTR"));
    assert!(!matches_expression("(USB|GPIB)?*INSTR", "ASRL3::INSTR"));
}

#[test]
fn local_scope_expression_filters_transports() {
    let local = "(USB|GPIB|VXI|ASRL|TCPIP?::169.254)?*INSTR";
    assert!(matches_expression(local, "USB0::0x1234::INSTR"));
    assert!(matches_expression(local, "ASRL3::INSTR"));
    assert!(matches_expression(local, "TCPIP0::169.254.1.5::INSTR"));
    assert!(!matches_expression(local, "TCPIP0::192.168.1.5::INSTR"));
}

#[test]
fn literal_matches_are_exact() {
    assert!(matches_expression("GPIB0::5::INSTR", "GPIB0::5::INSTR"));
    assert!(!matches_expression("GPIB0::5::INSTR", "GPIB0::6::INSTR"));
}

#[test]
fn validity_of_expressions() {
    assert!(check_expression("?*INSTR"));
    assert!(check_expression("(USB|GPIB|VXI|ASRL|TCPIP?::169.254)?*INSTR"));
    assert!(!check_expression("(USB"));
    assert!(!check_expression("USB)"));
    assert!(!check_expression("US|B"));
    assert!(!check_expression("((USB))"));
}
