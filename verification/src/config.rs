//! The configuration of a run, and the mode that the command line asks for.

use vstd::prelude::*;
use crate::text::same_text;

verus! {

/// What a run does with the resolved tree.
#[derive(Copy, Clone, Debug, PartialEq, Eq, Structural)]
pub enum Mode {
    Build,
    Check,
    Fix,
}

/// The configuration of a run.
#[derive(Debug, PartialEq)]
pub struct Config {
    pub file: ConfigFile,
    pub mode: Mode,
}

/// The configuration file. The versions of the tool that it asks for are
/// held as they are written.
#[derive(Debug, PartialEq)]
pub struct ConfigFile {
    pub version_req: String,
    pub metadata: Metadata,
    pub build: Build,
}

/// What the configuration says of the documents.
#[derive(Debug, PartialEq)]
pub struct Metadata {
    pub name: String,
    pub description: String,
    pub copyright: String,
}

/// Where the sources lie and where the site goes.
#[derive(Debug, PartialEq)]
pub struct Build {
    pub source: String,
    pub output: String,
}

/// What the first argument of the command line asks for.
#[derive(Copy, Clone, Debug, PartialEq, Eq, Structural)]
pub enum ModeArg {
    /// A run in a mode.
    Run(Mode),
    /// The help text: no argument, `help` or `--help`.
    Help,
    /// Nothing that is known.
    Unknown,
}

/// What an argument asks for: `b` or `build`, `c` or `check`, `f` or `fix`
/// for a run; nothing, `help` or `--help` for the help text.
pub open spec fn mode_arg_spec(arg: Option<Seq<char>>) -> ModeArg {
    match arg {
        None => ModeArg::Help,
        Some(arg) => if arg == "b"@ || arg == "build"@ {
            ModeArg::Run(Mode::Build)
        } else if arg == "c"@ || arg == "check"@ {
            ModeArg::Run(Mode::Check)
        } else if arg == "f"@ || arg == "fix"@ {
            ModeArg::Run(Mode::Fix)
        } else if arg == "help"@ || arg == "--help"@ {
            ModeArg::Help
        } else {
            ModeArg::Unknown
        },
    }
}

/// The characters of an optional argument.
pub open spec fn arg_text(arg: Option<&str>) -> Option<Seq<char>> {
    match arg {
        Some(arg) => Some(arg@),
        None => None,
    }
}

/// What the first argument of the command line asks for.
pub fn get_mode(arg: Option<&str>) -> (r: ModeArg)
    ensures
        r == mode_arg_spec(arg_text(arg)),
{
    match arg {
        None => ModeArg::Help,
        Some(arg) => {
            if same_text(arg, "b") || same_text(arg, "build") {
                ModeArg::Run(Mode::Build)
            } else if same_text(arg, "c") || same_text(arg, "check") {
                ModeArg::Run(Mode::Check)
            } else if same_text(arg, "f") || same_text(arg, "fix") {
                ModeArg::Run(Mode::Fix)
            } else if same_text(arg, "help") || same_text(arg, "--help") {
                ModeArg::Help
            } else {
                ModeArg::Unknown
            }
        },
    }
}

} // verus!
