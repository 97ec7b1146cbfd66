use touchstone::data_line::parse_data_line;
use touchstone::data_line::DataPair;
use touchstone::data_line::Matrix;
use touchstone::errors::CascadeError;
use touchstone::errors::TouchstoneError;
use touchstone::network::FrequencySample;
use touchstone::numeric::parses_as_f64;
use touchstone::Network;

#[test]
fn numeric_tokens_match_the_standard_parser() {
    let cases = [
        "3.14", "-3.14", "+0.5", ".5", "5.", "5.e3", "1e9", "1E-3", "2e+7", "0", "007",
        "inf", "INF", "-Infinity", "nan", "-NaN", "abc", "", ".", "e5", "1e", "+-1", "1.2.3",
        "0x10", "1_000", " 1", "1 ", "infx", "nan0", "--5", "1e+",
    ];
    for case in cases {
        assert_eq!(
            parses_as_f64(case),
            case.parse::<f64>().is_ok(),
            "token grammar disagrees on {:?}",
            case
        );
    }
}

#[test]
fn matrix_from_rows_and_access() {
    let pair = |a: &str, b: &str| DataPair(a.to_string(), b.to_string());
    let rows = vec![
        vec![pair("1", "2"), pair("3", "4")],
        vec![pair("5", "6"), pair("7", "8")],
    ];
    let mut m = Matrix::from_rows(rows).unwrap();
    assert_eq!(m.size(), 2);
    assert_eq!(m.get(1, 1).0, "1");
    assert_eq!(m.get(1, 2).1, "4");
    assert_eq!(m.get(2, 1).0, "5");
    assert_eq!(m.get(2, 2).1, "8");

    m.set(2, 1, pair("9", "10"));
    assert_eq!(m.get(2, 1).0, "9");
    assert_eq!(m.get(2, 1).1, "10");
    assert_eq!(m.get(1, 1).0, "1");
}

#[test]
fn matrix_from_rows_rejects_non_square() {
    let pair = |a: &str, b: &str| DataPair(a.to_string(), b.to_string());
    let rows = vec![vec![pair("1", "2"), pair("3", "4")], vec![pair("5", "6")]];
    assert!(matches!(
        Matrix::from_rows(rows),
        Err(TouchstoneError::NonSquareMatrix { rows: 2, row_len: 1 })
    ));
    assert!(matches!(
        Matrix::from_rows(Vec::new()),
        Err(TouchstoneError::NonSquareMatrix { .. })
    ));
}

#[test]
fn data_line_two_port() {
    let line = "1.5 0.1 0.2 0.3 0.4 0.5 0.6 0.7 0.8".to_string();
    let sample =
        parse_data_line(line, &"RI".to_string(), 2, &"GHz".to_string()).unwrap();
    assert_eq!(sample.frequency, "1.5");
    assert_eq!(sample.values.size(), 2);
    assert_eq!(sample.values.get(1, 1).0, "0.1");
    assert_eq!(sample.values.get(1, 1).1, "0.2");
    assert_eq!(sample.values.get(1, 2).0, "0.3");
    assert_eq!(sample.values.get(2, 1).0, "0.5");
    assert_eq!(sample.values.get(2, 2).1, "0.8");
}

#[test]
fn data_line_ignores_inline_comment() {
    let line = "1.5 0.1 0.2 0.3 0.4 0.5 0.6 0.7 0.8 ! measured".to_string();
    let sample =
        parse_data_line(line, &"RI".to_string(), 2, &"GHz".to_string()).unwrap();
    assert_eq!(sample.frequency, "1.5");
}

#[test]
fn data_line_wrong_token_count() {
    let line = "1.5 0.1 0.2 0.3 0.4 0.5 0.6".to_string();
    let r = parse_data_line(line, &"RI".to_string(), 2, &"GHz".to_string());
    assert!(matches!(
        r,
        Err(TouchstoneError::WrongTokenCount { expected: 9, got: 7 })
    ));
}

#[test]
fn data_line_numeric_parse_error() {
    let line = "1.5 0.1 0.2 bad 0.4 0.5 0.6 0.7 0.8".to_string();
    match parse_data_line(line, &"RI".to_string(), 2, &"GHz".to_string()) {
        Err(TouchstoneError::NumericParse { token }) => assert_eq!(token, "bad"),
        _ => panic!("expected a numeric-parse error"),
    }
}

#[test]
fn data_line_unsupported_unit_and_format() {
    let line = "1.5 0.1 0.2 0.3 0.4 0.5 0.6 0.7 0.8".to_string();
    match parse_data_line(line.clone(), &"RI".to_string(), 2, &"Parsecs".to_string()) {
        Err(TouchstoneError::UnsupportedFrequencyUnit { unit }) => assert_eq!(unit, "Parsecs"),
        _ => panic!("expected an unsupported-unit error"),
    }
    match parse_data_line(line, &"XY".to_string(), 2, &"GHz".to_string()) {
        Err(TouchstoneError::UnsupportedFormat { format }) => assert_eq!(format, "XY"),
        _ => panic!("expected an unsupported-format error"),
    }
}

const NTWK1: &str = "! test network one\n\
# GHz S RI R 50\n\
! after one\n\
1 0.1 0.2 0.3 0.4 0.5 0.6 0.7 0.8\n\
2 0.11 0.21 0.31 0.41 0.51 0.61 0.71 0.81\n\
3 0.12 0.22 0.32 0.42 0.52 0.62 0.72 0.82\n";

const NTWK2: &str = "! test network two\n\
# GHz S RI R 50\n\
! after two\n\
1 0.9 0.8 0.7 0.6 0.5 0.4 0.3 0.2\n\
2 0.91 0.81 0.71 0.61 0.51 0.41 0.31 0.21\n";

#[test]
fn parse_two_port_network() {
    let network = Network::parse("files/ntwk1.s2p".to_string(), NTWK1.to_string()).unwrap();

    assert_eq!(network.name, "files/ntwk1.s2p");
    assert_eq!(network.rank, 2);
    assert_eq!(network.frequency_unit, "GHz");
    assert_eq!(network.parameter, "S");
    assert_eq!(network.format, "RI");
    assert_eq!(network.resistance_string, "R");
    assert_eq!(network.z0, "50");
    assert_eq!(network.comments, vec!["! test network one".to_string()]);
    assert_eq!(
        network.comments_after_option_line,
        vec!["! after one".to_string()]
    );
    assert_eq!(network.f, vec!["1".to_string(), "2".to_string(), "3".to_string()]);
    assert_eq!(network.s.len(), 3);
    assert_eq!(network.s[1].frequency, "2");
    assert_eq!(network.s[1].values.get(2, 2).1, "0.81");
}

#[test]
fn parse_rejects_bad_extension() {
    for path in ["data.txt", "data.s0p", "plain", "x.s2x"] {
        match Network::parse(path.to_string(), NTWK1.to_string()) {
            Err(TouchstoneError::UnsupportedFileType { .. }) => {}
            _ => panic!("expected an unsupported-file-type error for {:?}", path),
        }
    }
}

#[test]
fn parse_rejects_second_option_line() {
    let contents = "# GHz S RI R 50\n# Hz S RI R 50\n";
    let r = Network::parse("a.s2p".to_string(), contents.to_string());
    assert!(matches!(r, Err(TouchstoneError::MultipleOptionLines)));
}

#[test]
fn parse_rejects_incomplete_record() {
    let contents = "# GHz S RI R 50\n1 0.1 0.2 0.3 0.4\n";
    let r = Network::parse("a.s2p".to_string(), contents.to_string());
    assert!(matches!(
        r,
        Err(TouchstoneError::WrongTokenCount { expected: 9, got: 5 })
    ));
}

#[test]
fn parse_without_option_line_uses_defaults() {
    let contents = "1 0.5 10 0.4 -20 0.3 30 0.2 -40\n";
    let network = Network::parse("a.s2p".to_string(), contents.to_string()).unwrap();
    assert_eq!(network.frequency_unit, "GHz");
    assert_eq!(network.parameter, "S");
    assert_eq!(network.format, "MA");
    assert_eq!(network.resistance_string, "R");
    assert_eq!(network.z0, "50");
}

#[test]
fn parse_three_port_multi_line_record() {
    // One record of a 3-port network spread over three physical lines.
    let contents = "# GHz S MA R 50\n\
5 0.1 1 0.2 2 0.3 3\n\
0.4 4 0.5 5 0.6 6\n\
0.7 7 0.8 8 0.9 9\n";
    let network = Network::parse("t.s3p".to_string(), contents.to_string()).unwrap();
    assert_eq!(network.rank, 3);
    assert_eq!(network.f, vec!["5".to_string()]);
    assert_eq!(network.s[0].values.size(), 3);
    assert_eq!(network.s[0].values.get(1, 1).0, "0.1");
    assert_eq!(network.s[0].values.get(2, 1).0, "0.4");
    assert_eq!(network.s[0].values.get(3, 3).1, "9");
}

fn assert_same_data(a: &Network, b: &Network) {
    assert_eq!(a.rank, b.rank);
    assert_eq!(a.frequency_unit, b.frequency_unit);
    assert_eq!(a.parameter, b.parameter);
    assert_eq!(a.format, b.format);
    assert_eq!(a.z0, b.z0);
    assert_eq!(a.f, b.f);
    assert_eq!(a.s.len(), b.s.len());
    for i in 0..a.s.len() {
        assert_eq!(a.s[i].frequency, b.s[i].frequency);
        let n = a.rank;
        for j in 1..=n {
            for k in 1..=n {
                assert_eq!(a.s[i].values.get(j, k).0, b.s[i].values.get(j, k).0);
                assert_eq!(a.s[i].values.get(j, k).1, b.s[i].values.get(j, k).1);
            }
        }
    }
}

#[test]
fn save_reload_round_trip_one_port() {
    let contents = "! one port\n# MHz S MA R 75\n100 0.99 -4\n200 0.80 -22\n";
    let network = Network::parse("one.s1p".to_string(), contents.to_string()).unwrap();
    let saved = network.to_file_string();
    let reloaded = Network::parse("one.s1p".to_string(), saved).unwrap();
    assert_same_data(&network, &reloaded);
}

#[test]
fn save_reload_round_trip_two_port() {
    let network = Network::parse("two.s2p".to_string(), NTWK1.to_string()).unwrap();
    let saved = network.to_file_string();
    let reloaded = Network::parse("two.s2p".to_string(), saved).unwrap();
    assert_same_data(&network, &reloaded);
    assert_eq!(network.comments, reloaded.comments);
    assert_eq!(
        network.comments_after_option_line,
        reloaded.comments_after_option_line
    );
}

#[test]
fn save_reload_round_trip_three_port() {
    let contents = "# GHz S MA R 50\n\
5 0.1 1 0.2 2 0.3 3\n\
0.4 4 0.5 5 0.6 6\n\
0.7 7 0.8 8 0.9 9\n";
    let network = Network::parse("t.s3p".to_string(), contents.to_string()).unwrap();
    let saved = network.to_file_string();
    let reloaded = Network::parse("t.s3p".to_string(), saved).unwrap();
    assert_same_data(&network, &reloaded);
}

#[test]
fn save_reload_round_trip_four_port() {
    let mut contents = String::from("# kHz S DB R 50\n7");
    for v in 0..32 {
        contents.push_str(&format!(" 0.{}", v + 1));
    }
    contents.push('\n');
    let network = Network::parse("q.s4p".to_string(), contents).unwrap();
    assert_eq!(network.rank, 4);
    let saved = network.to_file_string();
    let reloaded = Network::parse("q.s4p".to_string(), saved).unwrap();
    assert_same_data(&network, &reloaded);
}

#[test]
fn cascade_check_accepts_compatible_networks() {
    let a = Network::parse("a.s2p".to_string(), NTWK1.to_string()).unwrap();
    let b = Network::parse("b.s2p".to_string(), NTWK2.to_string()).unwrap();
    assert!(a.cascade_check(&b).is_ok());
}

#[test]
fn cascade_check_rejects_rank_mismatch() {
    let a = Network::parse("a.s2p".to_string(), NTWK1.to_string()).unwrap();
    let one = "# MHz S MA R 50\n100 0.99 -4\n";
    let b = Network::parse("b.s1p".to_string(), one.to_string()).unwrap();
    assert!(matches!(
        a.cascade_check(&b),
        Err(CascadeError::NotTwoPort { left_rank: 2, right_rank: 1 })
    ));
    // The failed check touched neither operand.
    assert_eq!(a.s.len(), 3);
    assert_eq!(b.s.len(), 1);
}

#[test]
fn cascade_check_rejects_z0_mismatch() {
    let a = Network::parse("a.s2p".to_string(), NTWK1.to_string()).unwrap();
    let other = NTWK2.replace("R 50", "R 75");
    let b = Network::parse("b.s2p".to_string(), other).unwrap();
    match a.cascade_check(&b) {
        Err(CascadeError::Z0Mismatch { left, right }) => {
            assert_eq!(left, "50");
            assert_eq!(right, "75");
        }
        _ => panic!("expected a z0 mismatch"),
    }
}

#[test]
fn cascade_check_rejects_frequency_unit_mismatch() {
    let a = Network::parse("a.s2p".to_string(), NTWK1.to_string()).unwrap();
    let other = NTWK2.replace("GHz", "MHz");
    let b = Network::parse("b.s2p".to_string(), other).unwrap();
    match a.cascade_check(&b) {
        Err(CascadeError::FrequencyUnitMismatch { left, right }) => {
            assert_eq!(left, "GHz");
            assert_eq!(right, "MHz");
        }
        _ => panic!("expected a frequency-unit mismatch"),
    }
}

#[test]
fn cascade_assembles_metadata_and_truncates() {
    let a = Network::parse("a.s2p".to_string(), NTWK1.to_string()).unwrap();
    let b = Network::parse("b.s2p".to_string(), NTWK2.to_string()).unwrap();
    assert!(a.cascade_check(&b).is_ok());

    // Stand-in results for the two aligned frequency points, as the
    // numeric layer would hand them in.
    let min_len = a.s.len().min(b.s.len());
    let mut s_new = Vec::new();
    for i in 0..min_len {
        let line = format!(
            "{} 0.5 0.5 0.5 0.5 0.5 0.5 0.5 0.5",
            a.s[i].frequency
        );
        s_new.push(
            parse_data_line(line, &"RI".to_string(), 2, &"GHz".to_string()).unwrap(),
        );
    }
    let cascaded = a.cascade_with_samples(&b, s_new);

    assert_eq!(cascaded.name, "Cascaded(a.s2p,b.s2p)");
    assert_eq!(cascaded.rank, 2);
    assert_eq!(cascaded.frequency_unit, "GHz");
    assert_eq!(cascaded.format, "RI");
    assert_eq!(cascaded.z0, "50");
    assert_eq!(cascaded.s.len(), 2);
    assert_eq!(cascaded.f, vec!["1".to_string(), "2".to_string()]);
    assert_eq!(
        cascaded.comments,
        vec![
            "! Cascaded network of a.s2p and b.s2p".to_string(),
            "! Comments from first network (\"a.s2p\"):".to_string(),
            "! test network one".to_string(),
            "! Comments from second network (\"b.s2p\"):".to_string(),
            "! test network two".to_string(),
        ]
    );
    assert_eq!(
        cascaded.comments_after_option_line,
        vec![
            "! Cascaded network of a.s2p and b.s2p".to_string(),
            "! Comments (after option line) from first network (\"a.s2p\"):".to_string(),
            "! after one".to_string(),
            "! Comments (after option line) from second network (\"b.s2p\"):".to_string(),
            "! after two".to_string(),
        ]
    );
}

#[test]
fn accessors_return_series() {
    let network = Network::parse("a.s2p".to_string(), NTWK1.to_string()).unwrap();
    assert_eq!(network.f(), network.f);

    let s21: Vec<FrequencySample> = network.s_pairs(2, 1);
    assert_eq!(s21.len(), 3);
    assert_eq!(s21[0].frequency, "1");
    assert_eq!(s21[0].value.0, "0.5");
    assert_eq!(s21[0].value.1, "0.6");
    assert_eq!(s21[2].value.0, "0.52");
}
