use kelicad_agent::netlist::{plot_window_size, prepare_netlist, prepare_ngspice_netlist};
use std::path::PathBuf;

#[test]
fn test_prepare_netlist_adds_backanno() {
    let netlist = "* Test\nV1 in 0 1\nR1 in out 1k\n.tran 1m\n.end";
    let prepared = prepare_netlist(netlist, "balanced");
    assert!(prepared.contains(".backanno"));
}

#[test]
fn test_prepare_netlist_adds_save_all() {
    let netlist = "* Test\nV1 in 0 1\n.tran 1m\n.end";
    let prepared = prepare_netlist(netlist, "balanced");
    assert!(prepared.contains(".save all"));
}

#[test]
fn test_prepare_netlist_does_not_duplicate_backanno() {
    let netlist = "* Test\nV1 in 0 1\n.backanno\n.tran 1m\n.end";
    let prepared = prepare_netlist(netlist, "balanced");
    // Should only have one .backanno
    let count = prepared.matches(".backanno").count();
    assert_eq!(count, 1);
}

#[test]
fn test_prepare_netlist_does_not_duplicate_save() {
    let netlist = "* Test\nV1 in 0 1\n.save V(out)\n.tran 1m\n.end";
    let prepared = prepare_netlist(netlist, "balanced");
    // Should not add .save all if .save already exists
    assert!(!prepared.contains(".save all"));
}

#[test]
fn test_prepare_netlist_plotwinsize_fast() {
    let netlist = "* Test\nV1 in 0 1\n.tran 1m\n.end";
    let prepared = prepare_netlist(netlist, "fast");
    assert!(prepared.contains(".options plotwinsize=128"));
}

#[test]
fn test_prepare_netlist_plotwinsize_balanced() {
    let netlist = "* Test\nV1 in 0 1\n.tran 1m\n.end";
    let prepared = prepare_netlist(netlist, "balanced");
    assert!(prepared.contains(".options plotwinsize=0"));
}

#[test]
fn test_prepare_netlist_plotwinsize_smooth() {
    let netlist = "* Test\nV1 in 0 1\n.tran 1m\n.end";
    let prepared = prepare_netlist(netlist, "smooth");
    assert!(prepared.contains(".options plotwinsize=0"));
}

#[test]
fn plot_window_size_mapping() {
    assert_eq!(plot_window_size("fast"), 128);
    assert_eq!(plot_window_size("balanced"), 0);
    assert_eq!(plot_window_size("smooth"), 0);
    assert_eq!(plot_window_size("FAST"), 0);
    assert_eq!(plot_window_size(""), 0);
    let prepared = prepare_netlist("* x\n.op\n.end", "turbo");
    assert!(prepared.contains(".options plotwinsize=0"));
}

#[test]
fn test_prepare_netlist_preserves_content() {
    let netlist = "* My Circuit\nV1 in 0 DC 5\nR1 in out 1k\nC1 out 0 1u\n.tran 10m\n.end";
    let prepared = prepare_netlist(netlist, "balanced");
    assert!(prepared.contains("* My Circuit"));
    assert!(prepared.contains("V1 in 0 DC 5"));
    assert!(prepared.contains("R1 in out 1k"));
    assert!(prepared.contains("C1 out 0 1u"));
    assert!(prepared.contains(".tran 10m"));
    assert!(prepared.contains(".end"));
}

#[test]
fn test_prepare_netlist_inserts_before_end() {
    let netlist = "* Test\nV1 in 0 1\n.tran 1m\n.end";
    let prepared = prepare_netlist(netlist, "balanced");
    let lines: Vec<&str> = prepared.lines().collect();

    // Find positions
    let backanno_pos = lines.iter().position(|l| l.contains(".backanno"));
    let save_pos = lines.iter().position(|l| l.contains(".save all"));
    let end_pos = lines.iter().position(|l| l.trim().to_lowercase() == ".end");

    assert!(backanno_pos.is_some());
    assert!(save_pos.is_some());
    assert!(end_pos.is_some());

    // All directives should be before .end
    assert!(backanno_pos.unwrap() < end_pos.unwrap());
    assert!(save_pos.unwrap() < end_pos.unwrap());
}

#[test]
fn prepared_netlist_exact_text() {
    let prepared = prepare_netlist("* Test\nV1 in 0 1\n.tran 1m\n.end", "fast");
    assert_eq!(
        prepared,
        "* Test\nV1 in 0 1\n.tran 1m\n.backanno\n.save all\n.options plotwinsize=128\n.end"
    );
}

#[test]
fn missing_end_gets_directives_and_end_appended() {
    let prepared = prepare_netlist("* Test\nV1 in 0 1\n.tran 1m", "balanced");
    assert_eq!(prepared, "* Test\nV1 in 0 1\n.tran 1m\n.backanno\n.save all\n.options plotwinsize=0\n.end");
}

#[test]
fn preparing_twice_adds_nothing_more() {
    let once = prepare_netlist("* Test\r\nV1 in 0 1\r\n.tran 1m\r\n.END\r\n", "fast");
    let twice = prepare_netlist(&once, "fast");
    assert_eq!(once, twice);
    assert_eq!(twice.matches(".backanno").count(), 1);
    assert_eq!(twice.matches(".save").count(), 1);
    assert_eq!(twice.matches(".options plotwinsize").count(), 1);
}

#[test]
fn test_prepare_netlist_case_insensitive() {
    // Test with uppercase .END
    let netlist = "* Test\nV1 in 0 1\n.tran 1m\n.END";
    let prepared = prepare_netlist(netlist, "balanced");
    assert!(prepared.contains(".backanno"));
    assert!(prepared.contains(".save all"));
}

#[test]
fn existing_directives_in_other_case_are_kept() {
    let netlist = "* T\n.BACKANNO\n.SAVE V(out)\n.OPTIONS PLOTWINSIZE=7\n.end";
    let prepared = prepare_netlist(netlist, "fast");
    assert_eq!(prepared, netlist);
}

#[test]
fn test_prepare_netlist_complex_circuit() {
    let netlist = r#"* WiFi Wakeup Receiver
* Power supply
V1 VCC 0 3.3

* Antenna input (simulated signal)
V2 ANT 0 SINE(0 100m 915Meg)

* Matching network
L1 ANT match1 10n
C1 match1 0 1p

* Detector diode
D1 match1 det DSCHOTTKY
C2 det 0 100p
R1 det 0 1Meg

* Comparator
XU1 det ref wake VCC 0 LTC2063
R2 VCC ref 100k
R3 ref 0 100k

.tran 0 10u 0 1n
.model DSCHOTTKY D(Is=1e-8 Rs=10 N=1.05)
.end"#;

    let prepared = prepare_netlist(netlist, "smooth");

    // Verify the circuit's own lines are kept
    assert!(prepared.contains("* WiFi Wakeup Receiver"));
    assert!(prepared.contains("V1 VCC 0 3.3"));
    assert!(prepared.contains("L1 ANT match1 10n"));
    assert!(prepared.contains("XU1 det ref wake VCC 0 LTC2063"));
    assert!(prepared.contains(".model DSCHOTTKY"));

    // Verify directives added
    assert!(prepared.contains(".backanno"));
    assert!(prepared.contains(".save all"));
    assert!(prepared.contains(".options plotwinsize=0"));
}

#[test]
fn test_prepare_ngspice_netlist_adds_control_section() {
    let netlist = "* Test\nVin in 0 AC 1\nR1 in out 1k\nC1 out 0 100n\n.ac dec 10 1 100k\n.end";
    let raw_path = PathBuf::from("/tmp/test.raw");
    let prepared = prepare_ngspice_netlist(netlist, raw_path.to_str().unwrap());

    assert!(prepared.contains(".control"));
    assert!(prepared.contains("run"));
    assert!(prepared.contains("write"));
    assert!(prepared.contains(".endc"));
}

#[test]
fn test_prepare_ngspice_netlist_preserves_existing_control() {
    let netlist = "* Test\nVin in 0 AC 1\n.control\nrun\n.endc\n.end";
    let raw_path = PathBuf::from("/tmp/test.raw");
    let prepared = prepare_ngspice_netlist(netlist, raw_path.to_str().unwrap());

    // Should not add another .control section
    let control_count = prepared.matches(".control").count();
    assert_eq!(control_count, 1);
}

#[test]
fn ngspice_control_block_exact_text() {
    let prepared = prepare_ngspice_netlist("* T\nR1 a 0 1\n.end", "C:\\my dir\\out.raw");
    assert_eq!(
        prepared,
        "* T\nR1 a 0 1\n.control\nrun\nwrite 'C:/my dir/out.raw' all\nquit\n.endc\n.end"
    );
    let appended = prepare_ngspice_netlist("* T\nR1 a 0 1", "/tmp/x.raw");
    assert_eq!(appended, "* T\nR1 a 0 1\n.control\nrun\nwrite /tmp/x.raw all\nquit\n.endc\n.end");
}
