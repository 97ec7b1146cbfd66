use touchstone::file_extension::extension_part;
use touchstone::file_extension::extension_ports;
use touchstone::is_valid_file_extension;

#[test]
fn is_valid_file_extension_single_port() {
    assert!(is_valid_file_extension("s1p"));
}

#[test]
fn is_valid_file_extension_expected_two_port() {
    assert!(is_valid_file_extension("s2p"));
}

#[test]
fn is_valid_file_extension_expected_three_port() {
    assert!(is_valid_file_extension("s3p"));
}

#[test]
fn is_valid_file_extension_expected_four_port() {
    assert!(is_valid_file_extension("s4p"));
}

#[test]
fn is_valid_file_extension_large_values() {
    assert!(is_valid_file_extension("s10p"));
    assert!(is_valid_file_extension("s217p"));
}

#[test]
fn is_valid_file_extension_zeros() {
    assert!(!is_valid_file_extension("s0p"));
    assert!(!is_valid_file_extension("s01p"));
}

#[test]
fn is_valid_file_extension_other_extensions() {
    assert!(!is_valid_file_extension("txt"));
    assert!(!is_valid_file_extension("sxp"));
    assert!(!is_valid_file_extension("s2x"));
    assert!(!is_valid_file_extension("x2p"));
    assert!(!is_valid_file_extension("2p"));
    assert!(!is_valid_file_extension("s2"));
    assert!(!is_valid_file_extension("sp"));
    assert!(!is_valid_file_extension("s"));
    assert!(!is_valid_file_extension("1p"));
}

#[test]
fn is_valid_file_extension_no_extension() {
    assert!(!is_valid_file_extension(""));
}

#[test]
fn extension_part_takes_last_dot() {
    assert_eq!(extension_part("files/ntwk1.s2p"), "s2p");
    assert_eq!(extension_part("a.b.s4p"), "s4p");
    assert_eq!(extension_part("noext"), "noext");
    assert_eq!(extension_part("dir.d/"), "d/");
    assert_eq!(extension_part("trailing."), "");
}

#[test]
fn extension_ports_reads_digits() {
    assert_eq!(extension_ports("s2p"), Some(2));
    assert_eq!(extension_ports("s217p"), Some(217));
    assert_eq!(extension_ports("s99999999999999999999p"), None);
}
