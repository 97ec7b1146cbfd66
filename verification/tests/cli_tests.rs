use touchstone::cli::CliAction;
use touchstone::cli::CliError;
use touchstone::cli::Config;

#[test]
fn test_help_flag() {
    // Help flag test - verifies the flag is recognized
    // Note: In actual execution, this would exit the process
    // This test just documents the expected behavior
    let help_flags = vec!["--help", "-h"];
    for flag in help_flags {
        assert!(flag == "--help" || flag == "-h");
    }
}

#[test]
fn test_version_flag() {
    // Version flag test - verifies the flag is recognized
    // Note: In actual execution, this would exit the process
    // This test just documents the expected behavior
    let version_flags = vec!["--version", "-v"];
    for flag in version_flags {
        assert!(flag == "--version" || flag == "-v");
    }
}

fn args_of(parts: &[&str]) -> Vec<String> {
    parts.iter().map(|p| p.to_string()).collect()
}

#[test]
fn plan_not_enough_arguments() {
    let r = Config::plan(&args_of(&["program_name"]));
    assert!(matches!(r, Err(CliError::NotEnoughArguments)));
    assert_eq!(
        CliError::NotEnoughArguments.message(),
        "not enough arguments"
    );
}

#[test]
fn plan_too_many_arguments() {
    let r = Config::plan(&args_of(&["program_name", "a.s2p", "b.s2p"]));
    assert!(matches!(r, Err(CliError::TooManyArguments)));
}

#[test]
fn plan_version_and_help() {
    assert!(matches!(
        Config::plan(&args_of(&["p", "--version"])),
        Ok(CliAction::ShowVersion)
    ));
    assert!(matches!(
        Config::plan(&args_of(&["p", "-v"])),
        Ok(CliAction::ShowVersion)
    ));
    assert!(matches!(
        Config::plan(&args_of(&["p", "--help"])),
        Ok(CliAction::ShowHelp)
    ));
    assert!(matches!(
        Config::plan(&args_of(&["p", "-h"])),
        Ok(CliAction::ShowHelp)
    ));
}

#[test]
fn plan_plot_single_path() {
    match Config::plan(&args_of(&["p", "files/ntwk1.s2p"])) {
        Ok(CliAction::Plot { file_path }) => assert_eq!(file_path, "files/ntwk1.s2p"),
        _ => panic!("expected a plot action"),
    }
}

#[test]
fn plan_cascade_two_files() {
    match Config::plan(&args_of(&["p", "cascade", "a.s2p", "b.s2p"])) {
        Ok(CliAction::Cascade { file_paths, output_name }) => {
            assert_eq!(file_paths, vec!["a.s2p".to_string(), "b.s2p".to_string()]);
            assert!(output_name.is_none());
        }
        _ => panic!("expected a cascade action"),
    }
}

#[test]
fn plan_cascade_with_name() {
    match Config::plan(&args_of(&["p", "cascade", "a.s2p", "--name", "out.s2p", "b.s2p"])) {
        Ok(CliAction::Cascade { file_paths, output_name }) => {
            assert_eq!(file_paths, vec!["a.s2p".to_string(), "b.s2p".to_string()]);
            assert_eq!(output_name, Some("out.s2p".to_string()));
        }
        _ => panic!("expected a cascade action"),
    }
}

#[test]
fn plan_cascade_missing_name_argument() {
    let r = Config::plan(&args_of(&["p", "cascade", "a.s2p", "b.s2p", "--name"]));
    assert!(matches!(r, Err(CliError::MissingNameArgument)));
}

#[test]
fn plan_cascade_not_enough_files() {
    let r = Config::plan(&args_of(&["p", "cascade", "a.s2p"]));
    assert!(matches!(r, Err(CliError::CascadeNeedsTwoFiles)));
    assert_eq!(
        CliError::CascadeNeedsTwoFiles.message(),
        "cascade requires at least 2 files, e.g. `touchstone cascade file1 file2`"
    );
}
