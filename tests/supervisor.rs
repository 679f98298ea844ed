use kelicad_agent::supervisor::{ltspice_outcome, ngspice_outcome};

#[test]
fn ltspice_nonzero_exit_fails_with_diagnostics() {
    assert_eq!(
        ltspice_outcome(false, "boom", "log text", true),
        Err("LTspice failed: boom\nlog text".to_string())
    );
}

#[test]
fn ltspice_missing_artifact_fails() {
    assert_eq!(
        ltspice_outcome(true, "", "", false),
        Err("No .raw file generated - simulation may have failed".to_string())
    );
    assert_eq!(ltspice_outcome(true, "warn", "", true), Ok(()));
}

#[test]
fn ngspice_error_lines_decide() {
    assert_eq!(
        ngspice_outcome("Circuit: t\nError: unknown model", "", true),
        Err("Error: unknown model".to_string())
    );
    assert_eq!(ngspice_outcome("Note: fine\n0 errors", "Warning: x", true), Ok(()));
    assert_eq!(
        ngspice_outcome("ok", "", false),
        Err("No .raw file generated - simulation may have failed.\nStdout: ok\nStderr: ".to_string())
    );
}
