use kelicad_agent::diagnostics::extract_ngspice_error;

#[test]
fn test_extract_ngspice_error_with_line_number() {
    let output = r#"Circuit: * test
Note: some note here
Error on line 14 or its substitute:
    Simulation interrupted due to error!
"#;
    let error = extract_ngspice_error(output);
    assert!(error.is_some());
    let msg = error.unwrap();
    assert!(msg.contains("Error on line 14"));
    assert!(msg.contains("Simulation interrupted"));
}

#[test]
fn test_extract_ngspice_error_no_error() {
    let output = r#"Circuit: * test
Note: no problems
Simulation completed with 0 errors
"#;
    let error = extract_ngspice_error(output);
    assert!(error.is_none());
}

#[test]
fn test_extract_ngspice_error_skips_notes() {
    let output = r#"Note: this is a note
Warning: this is a warning
Error: real error here
"#;
    let error = extract_ngspice_error(output);
    assert!(error.is_some());
    let msg = error.unwrap();
    assert!(msg.contains("real error here"));
    assert!(!msg.contains("this is a note"));
}

#[test]
fn test_extract_ngspice_error_includes_context() {
    let output = r#"line 5:
Error: Unknown device
    Did you mean R1?
"#;
    let error = extract_ngspice_error(output);
    assert!(error.is_some());
    let msg = error.unwrap();
    assert!(msg.contains("Error: Unknown device"));
}

#[test]
fn error_report_exact_text_and_dedup() {
    let output = "line 5:\nError: Unknown device\n    Did you mean R1?\nERROR: Unknown device\n";
    assert_eq!(
        extract_ngspice_error(output),
        Some("line 5:\nError: Unknown device\nDid you mean R1?\nERROR: Unknown device".to_string())
    );
    let repeated = "Error: x\nError: x\n";
    assert_eq!(extract_ngspice_error(repeated), Some("Error: x".to_string()));
}

#[test]
fn location_line_alone_is_no_error() {
    let output = "Circuit: t\nunknown token on line 3: foo\nDone\n";
    assert_eq!(extract_ngspice_error(output), None);
}

#[test]
fn empty_output_has_no_error() {
    assert_eq!(extract_ngspice_error(""), None);
}
