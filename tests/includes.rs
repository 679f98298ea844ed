use kelicad_agent::includes::{include_directives, is_bundled_library, rewrite_includes};

#[test]
fn directives_are_found_case_insensitively() {
    let netlist = "* t\n.include \"/abs/LTC3.lib\"\n.LIB opamp.sub\nR1 a b 1\n  .lib 'x y.lib'  \n";
    let found = include_directives(netlist).unwrap();
    let pairs: Vec<(String, String)> = found.into_iter().map(|d| (d.directive, d.path)).collect();
    assert_eq!(
        pairs,
        vec![
            (".include \"/abs/LTC3.lib\"".to_string(), "/abs/LTC3.lib".to_string()),
            (".LIB opamp.sub".to_string(), "opamp.sub".to_string()),
            // the trailing white space of the last line runs up to the end of the text
            ("  .lib 'x y.lib'  \n".to_string(), "x y.lib".to_string()),
        ]
    );
}

#[test]
fn netlist_without_directives() {
    assert!(include_directives("* t\nR1 a b 1\n.end").unwrap().is_empty());
}

#[test]
fn resolved_directives_point_at_copies() {
    let netlist = "* t\n.lib /opt/lib/LTC3.lib\nXU1 a b LTC3\n.lib /opt/lib/LTC3.lib\n.end";
    let resolved = vec![(".lib /opt/lib/LTC3.lib".to_string(), "LTC3.lib".to_string())];
    assert_eq!(
        rewrite_includes(netlist, &resolved),
        "* t\n.include LTC3.lib\nXU1 a b LTC3\n.include LTC3.lib\n.end"
    );
    assert_eq!(rewrite_includes(netlist, &vec![]), netlist);
}

#[test]
fn bundled_libraries_by_exact_name() {
    assert!(is_bundled_library("LTC3.lib"));
    assert!(!is_bundled_library("ltc3.lib"));
    assert!(!is_bundled_library("LTC3.lib.bak"));
}
