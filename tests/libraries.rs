use kelicad_agent::libraries::{list_available_libraries, list_ltspice_libraries, list_ngspice_libraries};

fn names(v: &[&str]) -> Vec<String> {
    v.iter().map(|s| s.to_string()).collect()
}

#[test]
fn ltspice_libraries_sorted_and_unique() {
    let found = names(&["LTC3.lib", "opamp.sub", "readme.txt", "diode.MOD", "LTC3.lib", "x.inc", ".lib", "noext"]);
    assert_eq!(list_ltspice_libraries(found), names(&["LTC3.lib", "diode.MOD", "opamp.sub", "x.inc"]));
}

#[test]
fn available_libraries_are_the_ltspice_ones() {
    let found = names(&["b.lib", "a.lib", "c.cir"]);
    assert_eq!(list_available_libraries(found), names(&["a.lib", "b.lib"]));
}

#[test]
fn ngspice_libraries_include_scripts() {
    let found = names(&["spinit", ".spiceinit", "models.cir", "a.sp", "b.SPI", "c.txt", "tclrc", "z.lib", "z.lib"]);
    assert_eq!(
        list_ngspice_libraries(found),
        names(&["a.sp", "b.SPI", "models.cir", "spinit", "tclrc", "z.lib"])
    );
}

#[test]
fn no_files_no_libraries() {
    assert!(list_ltspice_libraries(vec![]).is_empty());
    assert!(list_ngspice_libraries(names(&["notes.md"])).is_empty());
}
