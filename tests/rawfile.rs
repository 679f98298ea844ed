use kelicad_agent::binary::{find_binary_marker, find_subsequence};
use kelicad_agent::codec::DecodeError;
use kelicad_agent::ltspice::decode_ltspice_raw;
use kelicad_agent::ngspice::decode_ngspice_raw;
use kelicad_agent::protocol::{Sample, Scalar, SimulationResults};

fn scalar(x: &Scalar) -> f64 {
    match x {
        Scalar::Double(b) => f64::from_bits(*b),
        Scalar::Single(b) => f32::from_bits(*b) as f64,
        Scalar::Decimal(t) => t.parse().unwrap(),
    }
}

fn num(s: &Sample) -> f64 {
    match s {
        Sample::Real(x) => scalar(x),
        Sample::Magnitude(a, b) => {
            let (a, b) = (scalar(a), scalar(b));
            (a * a + b * b).sqrt()
        }
    }
}

fn nums(v: &[Sample]) -> Vec<f64> {
    v.iter().map(num).collect()
}

fn parse_ngspice(raw_content: &str) -> SimulationResults {
    decode_ngspice_raw(raw_content.as_bytes()).ok().unwrap()
}

#[test]
fn test_find_subsequence_found() {
    let haystack = b"hello world binary data here";
    let needle = b"binary";
    let pos = find_subsequence(haystack, needle);
    assert_eq!(pos, Some(12));
}

#[test]
fn test_find_subsequence_not_found() {
    let haystack = b"hello world";
    let needle = b"xyz";
    let pos = find_subsequence(haystack, needle);
    assert_eq!(pos, None);
}

#[test]
fn test_find_subsequence_at_start() {
    let haystack = b"hello world";
    let needle = b"hello";
    let pos = find_subsequence(haystack, needle);
    assert_eq!(pos, Some(0));
}

#[test]
fn test_find_subsequence_at_end() {
    let haystack = b"hello world";
    let needle = b"world";
    let pos = find_subsequence(haystack, needle);
    assert_eq!(pos, Some(6));
}

#[test]
fn test_find_subsequence_needle_longer_than_haystack() {
    let haystack = b"hi";
    let needle = b"hello world";
    let pos = find_subsequence(haystack, needle);
    assert_eq!(pos, None);
}

#[test]
fn binary_marker_spellings_in_order() {
    let utf16: Vec<u8> = "xBinary:\n".encode_utf16().flat_map(|c| c.to_le_bytes()).collect();
    assert_eq!(find_binary_marker(&utf16), Some(utf16.len()));
    let utf16_crlf: Vec<u8> = "Binary:\r\nzz".encode_utf16().flat_map(|c| c.to_le_bytes()).collect();
    assert_eq!(find_binary_marker(&utf16_crlf), Some(18));
    assert_eq!(find_binary_marker(b"ab\nBinary:\nDATA"), Some(11));
    assert_eq!(find_binary_marker(b"Binary:\r\nDATA"), Some(9));
    assert_eq!(find_binary_marker(b"Values:\nDATA"), None);
}

/// A family-A artifact: UTF-16LE header, then records of `width` bytes.
fn ltspice_artifact(flags: &str, vars: usize, points: usize, plot: &str) -> Vec<u8> {
    let mut header = format!(
        "Title: * test\nDate: today\nPlotname: {}\nFlags: {}\nNo. Variables: {}\nNo. Points: {}\nOffset: 0\nVariables:\n",
        plot, flags, vars, points
    );
    header.push_str("\t0\ttime\ttime\n");
    for v in 1..vars {
        header.push_str(&format!("\t{}\tV(n{})\tvoltage\n", v, v));
    }
    header.push_str("Binary:\n");
    header.encode_utf16().flat_map(|c| c.to_le_bytes()).collect()
}

#[test]
fn ltspice_single_precision_round_trip() {
    let mut data = ltspice_artifact("real forward", 3, 2, "Transient Analysis");
    for p in 0..2 {
        data.extend_from_slice(&(p as f64 * 0.001).to_le_bytes());
        data.extend_from_slice(&(1.5f32 + p as f32).to_le_bytes());
        data.extend_from_slice(&(-2.0f32 * p as f32).to_le_bytes());
    }
    let r = decode_ltspice_raw(&data).ok().unwrap();
    assert_eq!(nums(&r.time), vec![0.0, 0.001]);
    assert_eq!(r.traces.len(), 2);
    assert_eq!(r.traces[0].name, "V(n1)");
    assert_eq!(r.traces[0].unit, "V");
    assert_eq!(nums(&r.traces[0].data), vec![1.5, 2.5]);
    assert_eq!(nums(&r.traces[1].data), vec![0.0, -2.0]);
    assert!(matches!(r.traces[0].data[0], Sample::Real(Scalar::Single(_))));
    assert_eq!(r.analysis_type, "transient");
    assert_eq!(r.x_axis_label, Some("time".to_string()));
}

#[test]
fn ltspice_double_precision_round_trip() {
    let mut data = ltspice_artifact("real double forward", 2, 3, "AC Analysis");
    for p in 0..3 {
        data.extend_from_slice(&(p as f64).to_le_bytes());
        data.extend_from_slice(&(10.0 * p as f64).to_le_bytes());
    }
    let r = decode_ltspice_raw(&data).ok().unwrap();
    assert_eq!(nums(&r.time), vec![0.0, 1.0, 2.0]);
    assert_eq!(r.traces.len(), 1);
    assert_eq!(nums(&r.traces[0].data), vec![0.0, 10.0, 20.0]);
    assert_eq!(r.analysis_type, "ac");
}

#[test]
fn ltspice_truncated_binary_fails() {
    let mut data = ltspice_artifact("real forward", 3, 2, "Transient Analysis");
    data.extend_from_slice(&[0u8; 31]);
    match decode_ltspice_raw(&data) {
        Err(DecodeError::Truncated { expected, actual }) => {
            assert_eq!(expected, 32);
            assert_eq!(actual, 31);
        }
        _ => panic!("expected a truncation error"),
    }
}

#[test]
fn ltspice_header_without_points_fails() {
    let mut data = ltspice_artifact("real forward", 2, 0, "Transient Analysis");
    data.extend_from_slice(&[0u8; 32]);
    assert!(matches!(decode_ltspice_raw(&data), Err(DecodeError::Header)));
}

#[test]
fn ltspice_without_marker_fails() {
    let header = "No. Variables: 2\nNo. Points: 1\nVariables:\n\t0\ttime\ttime\n\t1\tV(a)\tvoltage\n";
    let data: Vec<u8> = header.encode_utf16().flat_map(|c| c.to_le_bytes()).collect();
    assert!(matches!(decode_ltspice_raw(&data), Err(DecodeError::MarkerNotFound)));
}

#[test]
fn test_parse_ngspice_raw_file_transient() {
    // Create a mock ngspice ASCII raw file for transient analysis
    let raw_content = r#"Title: * test circuit
Date: Sat Feb  7 12:00:00  2026
Plotname: Transient Analysis
Flags: real
No. Variables: 3
No. Points: 3
Variables:
	0	time	time
	1	v(in)	voltage
	2	v(out)	voltage
Values:
 0	0.000000000000000e+00
	1.000000000000000e+00
	0.000000000000000e+00

 1	1.000000000000000e-03
	1.000000000000000e+00
	5.000000000000000e-01

 2	2.000000000000000e-03
	1.000000000000000e+00
	8.000000000000000e-01
"#;

    let results = parse_ngspice(raw_content);

    assert_eq!(results.analysis_type, "transient");
    assert_eq!(results.x_axis_label, Some("time".to_string()));
    assert_eq!(results.time.len(), 3);
    assert_eq!(results.traces.len(), 2);

    // Check time values
    let time = nums(&results.time);
    assert!((time[0] - 0.0).abs() < 1e-10);
    assert!((time[1] - 0.001).abs() < 1e-10);
    assert!((time[2] - 0.002).abs() < 1e-10);

    // Check v(in) trace
    let v_in = &results.traces[0];
    assert_eq!(v_in.name, "v(in)");
    assert_eq!(v_in.unit, "V");
    assert!((num(&v_in.data[0]) - 1.0).abs() < 1e-10);

    // Check v(out) trace
    let v_out = &results.traces[1];
    assert_eq!(v_out.name, "v(out)");
    assert!((num(&v_out.data[0]) - 0.0).abs() < 1e-10);
    assert!((num(&v_out.data[1]) - 0.5).abs() < 1e-10);
    assert!((num(&v_out.data[2]) - 0.8).abs() < 1e-10);
    assert_eq!(v_out.unit, "V");
}

#[test]
fn test_parse_ngspice_raw_file_ac_complex() {
    // Create a mock ngspice ASCII raw file for AC analysis with complex values
    // Complex values are formatted as "real,imag"
    let raw_content = r#"Title: * ac test circuit
Date: Sat Feb  7 12:00:00  2026
Plotname: AC Analysis
Flags: complex
No. Variables: 3
No. Points: 3
Variables:
	0	frequency	frequency grid=3
	1	v(in)	voltage
	2	v(out)	voltage
Values:
 0	1.000000000000000e+00,0.000000000000000e+00
	1.000000000000000e+00,0.000000000000000e+00
	1.000000000000000e+00,0.000000000000000e+00

 1	1.000000000000000e+01,0.000000000000000e+00
	1.000000000000000e+00,0.000000000000000e+00
	7.071067811865476e-01,-7.071067811865476e-01

 2	1.000000000000000e+02,0.000000000000000e+00
	1.000000000000000e+00,0.000000000000000e+00
	9.950371902099893e-02,-9.950371902099893e-01
"#;

    let results = parse_ngspice(raw_content);

    assert_eq!(results.analysis_type, "ac");
    assert_eq!(results.x_axis_label, Some("frequency".to_string()));
    assert_eq!(results.time.len(), 3); // "time" field holds frequency for AC
    assert_eq!(results.traces.len(), 2);

    // Check frequency values (stored in "time" field)
    let time = nums(&results.time);
    assert!((time[0] - 1.0).abs() < 1e-10);
    assert!((time[1] - 10.0).abs() < 1e-10);
    assert!((time[2] - 100.0).abs() < 1e-10);

    // Check v(in) trace - should be magnitude of (1, 0) = 1
    let v_in = &results.traces[0];
    assert_eq!(v_in.name, "v(in)");
    assert!((num(&v_in.data[0]) - 1.0).abs() < 1e-10);
    assert!((num(&v_in.data[1]) - 1.0).abs() < 1e-10);
    assert!((num(&v_in.data[2]) - 1.0).abs() < 1e-10);

    // Check v(out) trace - magnitudes computed from complex values
    let v_out = &results.traces[1];
    assert_eq!(v_out.name, "v(out)");

    // At 1 Hz: magnitude of (1, 0) = 1
    assert!((num(&v_out.data[0]) - 1.0).abs() < 1e-10);

    // At 10 Hz: magnitude of (0.707, -0.707) = sqrt(0.5 + 0.5) = 1
    assert!((num(&v_out.data[1]) - 1.0).abs() < 1e-6);

    // At 100 Hz: magnitude of (0.0995, -0.995) = sqrt(0.0099 + 0.990) ≈ 1
    assert!((num(&v_out.data[2]) - 1.0).abs() < 1e-3);
}

#[test]
fn test_parse_ngspice_raw_file_dc_analysis() {
    // Create a mock ngspice ASCII raw file for DC analysis
    let raw_content = r#"Title: * dc test circuit
Date: Sat Feb  7 12:00:00  2026
Plotname: DC transfer characteristic
Flags: real
No. Variables: 2
No. Points: 3
Variables:
	0	v-sweep	voltage
	1	v(out)	voltage
Values:
 0	0.000000000000000e+00
	0.000000000000000e+00

 1	2.500000000000000e+00
	2.500000000000000e+00

 2	5.000000000000000e+00
	5.000000000000000e+00
"#;

    let results = parse_ngspice(raw_content);

    assert_eq!(results.analysis_type, "dc");
    assert_eq!(results.x_axis_label, Some("v-sweep".to_string()));
    assert_eq!(results.time.len(), 3);
    assert_eq!(results.traces.len(), 1);

    // Check sweep values
    let time = nums(&results.time);
    assert!((time[0] - 0.0).abs() < 1e-10);
    assert!((time[1] - 2.5).abs() < 1e-10);
    assert!((time[2] - 5.0).abs() < 1e-10);

    // Check v(out) trace
    let v_out = &results.traces[0];
    assert_eq!(v_out.name, "v(out)");
    assert!((num(&v_out.data[0]) - 0.0).abs() < 1e-10);
    assert!((num(&v_out.data[1]) - 2.5).abs() < 1e-10);
    assert!((num(&v_out.data[2]) - 5.0).abs() < 1e-10);
}

#[test]
fn test_complex_magnitude_calculation() {
    // Test the magnitude calculation: sqrt(real² + imag²)
    // This verifies the math used in AC analysis parsing

    // Pure real: (3, 0) -> magnitude = 3
    let real = 3.0_f64;
    let imag = 0.0_f64;
    let magnitude = (real * real + imag * imag).sqrt();
    assert!((magnitude - 3.0).abs() < 1e-10);

    // Pure imaginary: (0, 4) -> magnitude = 4
    let real = 0.0_f64;
    let imag = 4.0_f64;
    let magnitude = (real * real + imag * imag).sqrt();
    assert!((magnitude - 4.0).abs() < 1e-10);

    // 3-4-5 triangle: (3, 4) -> magnitude = 5
    let real = 3.0_f64;
    let imag = 4.0_f64;
    let magnitude = (real * real + imag * imag).sqrt();
    assert!((magnitude - 5.0).abs() < 1e-10);

    // Negative values: (-3, -4) -> magnitude = 5
    let real = -3.0_f64;
    let imag = -4.0_f64;
    let magnitude = (real * real + imag * imag).sqrt();
    assert!((magnitude - 5.0).abs() < 1e-10);
}

#[test]
fn decoded_complex_values_are_magnitudes() {
    let raw = "Plotname: AC Analysis\nFlags: complex\nNo. Variables: 2\nNo. Points: 3\nVariables:\n\t0\tfrequency\tfrequency\n\t1\tv(out)\tvoltage\nValues:\n 0\t1,0\n\t3,4\n 1\t2,0\n\t0,4\n 2\t3,0\n\t-3,-4\n";
    let r = parse_ngspice(raw);
    assert_eq!(nums(&r.time), vec![1.0, 2.0, 3.0]);
    assert_eq!(nums(&r.traces[0].data), vec![5.0, 4.0, 5.0]);
    assert_eq!(r.traces[0].unit, "V");
    assert!(matches!(&r.traces[0].data[0], Sample::Magnitude(Scalar::Decimal(a), Scalar::Decimal(b)) if a == "3" && b == "4"));
}

#[test]
fn ngspice_binary_real_and_complex() {
    let mut data = b"Plotname: Transient Analysis\nFlags: real\nNo. Variables: 2\nNo. Points: 2\nVariables:\n\t0\ttime\ttime\n\t1\ti(v1)\tcurrent\nBinary:\n".to_vec();
    for v in [0.0f64, 1.0, 1e-3, 2.0] {
        data.extend_from_slice(&v.to_le_bytes());
    }
    let r = decode_ngspice_raw(&data).ok().unwrap();
    assert_eq!(nums(&r.time), vec![0.0, 1e-3]);
    assert_eq!(nums(&r.traces[0].data), vec![1.0, 2.0]);
    assert_eq!(r.traces[0].unit, "A");

    let mut data = b"Plotname: AC Analysis\r\nFlags: complex\r\nNo. Variables: 2\r\nNo. Points: 5\r\nVariables:\r\n\t0\tfrequency\tfrequency\r\n\t1\tv(o)\tvoltage\r\nBinary:\r\n".to_vec();
    for v in [10.0f64, 0.0, 3.0, -4.0, 20.0, 0.0, 0.0, 2.0] {
        data.extend_from_slice(&v.to_le_bytes());
    }
    data.extend_from_slice(&[1u8; 7]);
    let r = decode_ngspice_raw(&data).ok().unwrap();
    assert_eq!(r.analysis_type, "ac");
    assert_eq!(r.x_axis_label, Some("frequency".to_string()));
    assert_eq!(nums(&r.time), vec![10.0, 20.0]);
    assert_eq!(nums(&r.traces[0].data), vec![5.0, 2.0]);
}

#[test]
fn ngspice_partial_point_is_dropped() {
    let raw = "Plotname: Transient Analysis\nNo. Variables: 2\nNo. Points: 9\nVariables:\n\t0\ttime\ttime\n\t1\tv(a)\tvoltage\nValues:\n 0\t0\n\t1\n 1\t1e-3\n\t2\n 2\t2e-3\n";
    let r = parse_ngspice(raw);
    assert_eq!(nums(&r.time), vec![0.0, 1e-3]);
    assert_eq!(nums(&r.traces[0].data), vec![1.0, 2.0]);
}

#[test]
fn ngspice_errors() {
    assert!(matches!(decode_ngspice_raw(b"Title: x\nValues:\n 0\t1\n"), Err(DecodeError::Header)));
    let no_data = b"No. Variables: 1\nVariables:\n\t0\ttime\ttime\nValues:\n";
    assert!(matches!(decode_ngspice_raw(no_data), Err(DecodeError::NoData)));
    let mut bad = b"No. Variables: 1\nVariables:\n\t0\ttime\ttime\nValues:\n 0\t1\n".to_vec();
    bad.push(0xFF);
    assert!(matches!(decode_ngspice_raw(&bad), Err(DecodeError::NotText)));
    let words = b"No. Variables: 1\nVariables:\n\t0\ttime\ttime\nValues:\n 0\tabc\n";
    assert!(matches!(decode_ngspice_raw(words), Err(DecodeError::NoData)));
}

#[test]
fn plot_names_pick_the_analysis() {
    let body = "Flags: real\nNo. Variables: 1\nVariables:\n\t0\tx\tvoltage\nValues:\n 0\t1\n";
    let kind = |plot: &str| parse_ngspice(&format!("Plotname: {}\n{}", plot, body)).analysis_type;
    assert_eq!(kind("Operating Point"), "dc");
    assert_eq!(kind("AC Analysis"), "ac");
    assert_eq!(kind("Noise Spectral Density"), "transient");
}
