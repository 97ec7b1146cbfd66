use touchstone::option_line::parse_option_line;
use touchstone::option_line::Options;

#[test]
fn parse_s_ri_r_50() {
    let mut options = Options::default();
    parse_option_line("# ghz S ri R 50".to_string(), &mut options);

    assert_eq!(options.frequency_unit, "GHz");
    assert_eq!(options.parameter, "S");
    assert_eq!(options.format, "RI");
    assert_eq!(options.resistance_string, "R");
    assert_eq!(options.reference_resistance, "50");
}

#[test]
fn parse_y_ri_r_50() {
    let mut options = Options::default();
    parse_option_line("# ghz Y ri R 50".to_string(), &mut options);

    assert_eq!(options.frequency_unit, "GHz");
    assert_eq!(options.parameter, "Y");
    assert_eq!(options.format, "RI");
    assert_eq!(options.resistance_string, "R");
    assert_eq!(options.reference_resistance, "50");
}

#[test]
fn parse_z_ri_r_50() {
    let mut options = Options::default();
    parse_option_line("# ghz Z ri R 50".to_string(), &mut options);

    assert_eq!(options.frequency_unit, "GHz");
    assert_eq!(options.parameter, "Z");
    assert_eq!(options.format, "RI");
    assert_eq!(options.resistance_string, "R");
    assert_eq!(options.reference_resistance, "50");
}

#[test]
fn parse_h_ri_r_50() {
    let mut options = Options::default();
    parse_option_line("# ghz H ri R 50".to_string(), &mut options);

    assert_eq!(options.frequency_unit, "GHz");
    assert_eq!(options.parameter, "H");
    assert_eq!(options.format, "RI");
    assert_eq!(options.resistance_string, "R");
    assert_eq!(options.reference_resistance, "50");
}

#[test]
fn parse_g_ri_r_50() {
    let mut options = Options::default();
    parse_option_line("# ghz G ri R 50".to_string(), &mut options);

    assert_eq!(options.frequency_unit, "GHz");
    assert_eq!(options.parameter, "G");
    assert_eq!(options.format, "RI");
    assert_eq!(options.resistance_string, "R");
    assert_eq!(options.reference_resistance, "50");
}

#[test]
fn parse_s_ri_r_100() {
    let mut options = Options::default();
    parse_option_line("# ghz S ri R 100".to_string(), &mut options);

    assert_eq!(options.frequency_unit, "GHz");
    assert_eq!(options.parameter, "S");
    assert_eq!(options.format, "RI");
    assert_eq!(options.resistance_string, "R");
    assert_eq!(options.reference_resistance, "100");
}

#[test]
fn parse_s_ri() {
    let mut options = Options::default();
    parse_option_line("# ghz S ri".to_string(), &mut options);

    assert_eq!(options.frequency_unit, "GHz");
    assert_eq!(options.parameter, "S");
    assert_eq!(options.format, "RI");
    assert_eq!(options.resistance_string, "R");
    assert_eq!(options.reference_resistance, "50");
}

#[test]
fn parse_s_ri_mixed_case() {
    let mut options = Options::default();
    parse_option_line("# GHZ s RI".to_string(), &mut options);

    assert_eq!(options.frequency_unit, "GHz");
    assert_eq!(options.parameter, "S");
    assert_eq!(options.format, "RI");
    assert_eq!(options.resistance_string, "R");
    assert_eq!(options.reference_resistance, "50");
}

#[test]
fn parse_s_ri_r_50_mixed_case() {
    let mut options = Options::default();
    parse_option_line("# GHZ s RI r 50".to_string(), &mut options);

    assert_eq!(options.frequency_unit, "GHz");
    assert_eq!(options.parameter, "S");
    assert_eq!(options.format, "RI");
    assert_eq!(options.resistance_string, "R");
    assert_eq!(options.reference_resistance, "50");
}

#[test]
fn parse_s_ri_r_50_mixed_case_out_of_order() {
    let mut options = Options::default();
    parse_option_line("# s r 50 RI GHZ".to_string(), &mut options);

    assert_eq!(options.frequency_unit, "GHz");
    assert_eq!(options.parameter, "S");
    assert_eq!(options.format, "RI");
    assert_eq!(options.resistance_string, "R");
    assert_eq!(options.reference_resistance, "50");
}

#[test]
fn parse_s_ri_r_100_mixed_case_out_of_order() {
    let mut options = Options::default();
    parse_option_line("# s r 100 RI GHZ".to_string(), &mut options);

    assert_eq!(options.frequency_unit, "GHz");
    assert_eq!(options.parameter, "S");
    assert_eq!(options.format, "RI");
    assert_eq!(options.resistance_string, "R");
    assert_eq!(options.reference_resistance, "100");
}

#[test]
fn parse_s_ri_mixed_case_out_of_order() {
    let mut options = Options::default();
    parse_option_line("# s RI GHZ".to_string(), &mut options);

    assert_eq!(options.frequency_unit, "GHz");
    assert_eq!(options.parameter, "S");
    assert_eq!(options.format, "RI");
    assert_eq!(options.resistance_string, "R");
    assert_eq!(options.reference_resistance, "50");
}

#[test]
fn parse_y_ri_r_100_mixed_case_out_of_order() {
    let mut options = Options::default();
    parse_option_line("# Y r 100 RI GHZ".to_string(), &mut options);

    assert_eq!(options.frequency_unit, "GHz");
    assert_eq!(options.parameter, "Y");
    assert_eq!(options.format, "RI");
    assert_eq!(options.resistance_string, "R");
    assert_eq!(options.reference_resistance, "100");
}

#[test]
fn parse_z_ri_r_100_mixed_case_out_of_order() {
    let mut options = Options::default();
    parse_option_line("# Y r 100 RI GHZ".to_string(), &mut options);

    assert_eq!(options.frequency_unit, "GHz");
    assert_eq!(options.parameter, "Y");
    assert_eq!(options.format, "RI");
    assert_eq!(options.resistance_string, "R");
    assert_eq!(options.reference_resistance, "100");
}

#[test]
fn parse_z_ma_r_100_mixed_case_out_of_order() {
    let mut options = Options::default();
    parse_option_line("# Y r 100 MA gHz".to_string(), &mut options);

    assert_eq!(options.frequency_unit, "GHz");
    assert_eq!(options.parameter, "Y");
    assert_eq!(options.format, "MA");
    assert_eq!(options.resistance_string, "R");
    assert_eq!(options.reference_resistance, "100");
}

#[test]
fn parse_z_ma_r_100_mixed_case_out_of_order2() {
    let mut options = Options::default();
    parse_option_line("# Y r 100 ma GHZ".to_string(), &mut options);

    assert_eq!(options.frequency_unit, "GHz");
    assert_eq!(options.parameter, "Y");
    assert_eq!(options.format, "MA");
    assert_eq!(options.resistance_string, "R");
    assert_eq!(options.reference_resistance, "100");
}

#[test]
fn parse_z_db_r_100_mixed_case_out_of_order() {
    let mut options = Options::default();
    parse_option_line("# Y r 100 DB GHZ".to_string(), &mut options);

    assert_eq!(options.frequency_unit, "GHz");
    assert_eq!(options.parameter, "Y");
    assert_eq!(options.format, "DB");
    assert_eq!(options.resistance_string, "R");
    assert_eq!(options.reference_resistance, "100");
}

#[test]
fn to_string() {
    let options = Options::default();
    assert_eq!(options.to_option_line(), "# GHz S MA R 50");
}

#[test]
fn equivalent_lines_normalize_alike() {
    // Tokens in any order and case give the same canonical record.
    let mut first = Options::default();
    parse_option_line("# ghz S ri R 50".to_string(), &mut first);

    let mut second = Options::default();
    parse_option_line("# s RI GHZ".to_string(), &mut second);

    assert_eq!(first.frequency_unit, second.frequency_unit);
    assert_eq!(first.parameter, second.parameter);
    assert_eq!(first.format, second.format);
    assert_eq!(first.resistance_string, second.resistance_string);
    assert_eq!(first.reference_resistance, second.reference_resistance);

    let mut third = Options::default();
    parse_option_line("# s r 100 RI GHZ".to_string(), &mut third);
    assert_eq!(third.frequency_unit, "GHz");
    assert_eq!(third.format, "RI");
    assert_eq!(third.reference_resistance, "100");
    assert_ne!(third.reference_resistance, first.reference_resistance);
}

#[test]
fn options_new_keeps_fields() {
    let options = Options::new(
        "Hz".to_string(),
        "Z".to_string(),
        "DB".to_string(),
        "R".to_string(),
        "75".to_string(),
    );
    assert_eq!(options.frequency_unit, "Hz");
    assert_eq!(options.parameter, "Z");
    assert_eq!(options.format, "DB");
    assert_eq!(options.resistance_string, "R");
    assert_eq!(options.reference_resistance, "75");
}

#[test]
fn unrecognized_token_becomes_resistance() {
    // The permissive fallthrough: the last unrecognized token wins, stored
    // lower-cased.
    let mut options = Options::default();
    parse_option_line("# GHz S MA R 50 OHMS".to_string(), &mut options);
    assert_eq!(options.reference_resistance, "ohms");
}
