//! Command-line planning: what a given argument vector asks for.  The
//! decision is pure and fully specified here; carrying it out — printing,
//! reading files, writing plots — is the caller's business.

use vstd::prelude::*;

use crate::text::seq_views;
use crate::text::str_eq;

verus! {

/// The mathematical content of a [`CliAction`].
pub ghost enum CliActionV {
    ShowVersion,
    ShowHelp,
    Cascade { file_paths: Seq<Seq<char>>, output_name: Option<Seq<char>> },
    Plot { file_path: Seq<char> },
}

/// What the command line asks for: print the version or the help text,
/// cascade the named files (optionally into a named output), or parse and
/// plot one path.
pub enum CliAction {
    ShowVersion,
    ShowHelp,
    Cascade { file_paths: Vec<String>, output_name: Option<String> },
    Plot { file_path: String },
}

impl View for CliAction {
    type V = CliActionV;

    open spec fn view(&self) -> CliActionV {
        match self {
            CliAction::ShowVersion => CliActionV::ShowVersion,
            CliAction::ShowHelp => CliActionV::ShowHelp,
            CliAction::Cascade { file_paths, output_name } => CliActionV::Cascade {
                file_paths: seq_views(file_paths@),
                output_name: match output_name {
                    Some(n) => Some(n@),
                    None => None,
                },
            },
            CliAction::Plot { file_path } => CliActionV::Plot { file_path: file_path@ },
        }
    }
}

/// A command-line usage error, each carrying the message the program
/// reports for it.
pub enum CliError {
    NotEnoughArguments,
    TooManyArguments,
    MissingNameArgument,
    CascadeNeedsTwoFiles,
}

impl CliError {
    /// The usage message of this error.
    pub fn message(&self) -> (r: &'static str)
        ensures
            self is NotEnoughArguments ==> r@ == "not enough arguments"@,
            self is TooManyArguments ==> r@
                == "too many arguments, expecting only 2, such as `touchstone filepath`"@,
            self is MissingNameArgument ==> r@ == "missing argument for --name"@,
            self is CascadeNeedsTwoFiles ==> r@
                == "cascade requires at least 2 files, e.g. `touchstone cascade file1 file2`"@,
    {
        match self {
            CliError::NotEnoughArguments => "not enough arguments",
            CliError::TooManyArguments => {
                "too many arguments, expecting only 2, such as `touchstone filepath`"
            },
            CliError::MissingNameArgument => "missing argument for --name",
            CliError::CascadeNeedsTwoFiles => {
                "cascade requires at least 2 files, e.g. `touchstone cascade file1 file2`"
            },
        }
    }
}

/// The result of scanning the arguments after `cascade`.
pub ghost enum CascadeScanV {
    Done { files: Seq<Seq<char>>, name: Option<Seq<char>> },
    MissingName,
}

/// Scans cascade arguments left to right: `--name`/`-n` takes the next
/// argument as the output name (later ones win), anything else is an
/// input file; a trailing `--name` without a value is an error.
pub open spec fn scan_cascade(
    rest: Seq<Seq<char>>,
    files: Seq<Seq<char>>,
    name: Option<Seq<char>>,
) -> CascadeScanV
    decreases rest.len(),
{
    if rest.len() == 0 {
        CascadeScanV::Done { files, name }
    } else if rest[0] == "--name"@ || rest[0] == "-n"@ {
        if rest.len() >= 2 {
            scan_cascade(rest.skip(2), files, Some(rest[1]))
        } else {
            CascadeScanV::MissingName
        }
    } else {
        scan_cascade(rest.skip(1), files.push(rest[0]), name)
    }
}

/// What a given argument vector asks for, `args[0]` being the program
/// name: too few or too many arguments are usage errors, `--version`/`-v`
/// and `--help`/`-h` are lookups, `cascade` scans its file and `--name`
/// arguments and needs at least two files, and anything else is a path to
/// parse and plot.
pub open spec fn spec_plan(args: Seq<Seq<char>>) -> Result<CliActionV, CliError> {
    if args.len() < 2 {
        Err(CliError::NotEnoughArguments)
    } else if args.len() > 2 && args[1] != "cascade"@ {
        Err(CliError::TooManyArguments)
    } else if args[1] == "cascade"@ {
        match scan_cascade(args.skip(2), Seq::empty(), None) {
            CascadeScanV::MissingName => Err(CliError::MissingNameArgument),
            CascadeScanV::Done { files, name } => {
                if files.len() < 2 {
                    Err(CliError::CascadeNeedsTwoFiles)
                } else {
                    Ok(CliActionV::Cascade { file_paths: files, output_name: name })
                }
            },
        }
    } else if args[1] == "--version"@ || args[1] == "-v"@ {
        Ok(CliActionV::ShowVersion)
    } else if args[1] == "--help"@ || args[1] == "-h"@ {
        Ok(CliActionV::ShowHelp)
    } else {
        Ok(CliActionV::Plot { file_path: args[1] })
    }
}

/// The command-line front end.
pub struct Config {}

impl Config {
    /// Decides what the argument vector asks for, without carrying any of
    /// it out.
    pub fn plan(args: &Vec<String>) -> (r: Result<CliAction, CliError>)
        ensures
            match (r, spec_plan(seq_views(args@))) {
                (Ok(a), Ok(av)) => a@ == av,
                (Err(e), Err(ev)) => e == ev,
                _ => false,
            },
    {
        let ghost argv = seq_views(args@);
        proof {
            assert(argv.len() == args@.len());
        }
        if args.len() < 2 {
            return Err(CliError::NotEnoughArguments);
        }
        proof {
            assert(argv[1] == args@[1]@);
        }
        if args.len() > 2 && !str_eq(args[1].as_str(), "cascade") {
            return Err(CliError::TooManyArguments);
        }
        if str_eq(args[1].as_str(), "cascade") {
            let mut file_paths: Vec<String> = Vec::new();
            let mut output_name: Option<String> = None;
            let mut i: usize = 2;
            proof {
                assert(argv.skip(2) =~= argv.skip(2));
                assert(seq_views(file_paths@) =~= Seq::<Seq<char>>::empty());
            }
            while i < args.len()
                invariant
                    2 <= i <= args@.len(),
                    argv == seq_views(args@),
                    argv.len() == args@.len(),
                    argv[1] == "cascade"@,
                    scan_cascade(
                        argv.skip(i as int),
                        seq_views(file_paths@),
                        match output_name {
                            Some(n) => Some(n@),
                            None => None,
                        },
                    ) == scan_cascade(argv.skip(2), Seq::empty(), None),
                decreases args.len() - i,
            {
                proof {
                    assert(argv.skip(i as int)[0] == argv[i as int]);
                    assert(argv[i as int] == args@[i as int]@);
                }
                if str_eq(args[i].as_str(), "--name") || str_eq(args[i].as_str(), "-n") {
                    if i + 1 < args.len() {
                        proof {
                            assert(argv.skip(i as int)[1] == argv[i + 1]);
                            assert(argv[i + 1] == args@[i + 1]@);
                            assert(argv.skip(i as int).skip(2) =~= argv.skip(i + 2));
                        }
                        output_name = Some(args[i + 1].clone());
                        i = i + 2;
                    } else {
                        return Err(CliError::MissingNameArgument);
                    }
                } else {
                    proof {
                        assert(argv.skip(i as int).skip(1) =~= argv.skip(i + 1));
                        assert(seq_views(file_paths@.push(args@[i as int])) =~= seq_views(
                            file_paths@,
                        ).push(args@[i as int]@));
                    }
                    file_paths.push(args[i].clone());
                    i = i + 1;
                }
            }
            proof {
                assert(argv.skip(args@.len() as int) =~= Seq::<Seq<char>>::empty());
            }
            if file_paths.len() < 2 {
                return Err(CliError::CascadeNeedsTwoFiles);
            }
            proof {
                assert(seq_views(file_paths@).len() == file_paths@.len());
            }
            return Ok(CliAction::Cascade { file_paths, output_name });
        }
        if str_eq(args[1].as_str(), "--version") || str_eq(args[1].as_str(), "-v") {
            return Ok(CliAction::ShowVersion);
        }
        if str_eq(args[1].as_str(), "--help") || str_eq(args[1].as_str(), "-h") {
            return Ok(CliAction::ShowHelp);
        }
        Ok(CliAction::Plot { file_path: args[1].clone() })
    }
}

} // verus!