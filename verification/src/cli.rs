//! The command surface: deciding what to do from the process argument list.
//! Reading the arguments, the file, and running the pipeline stay outside
//! the library; this module only decides.

use vstd::prelude::*;

verus! {

/// A command the program can perform.
#[derive(Debug)]
pub enum CliCommand {
    /// Execute the script in the named file.
    Run { file_execute: String },
}

/// The argument grammar, program name first: `<program> run <file>` names
/// the file to execute; anything else is not a command.
pub open spec fn cli_run_file(args: Seq<Seq<char>>) -> Option<Seq<char>> {
    if args.len() == 3 && args[1] == "run"@ {
        Some(args[2])
    } else {
        None
    }
}

/// Decide the command from the argument list; anything else is a usage
/// error.
pub fn init_cli(args: &Vec<String>) -> (r: Result<CliCommand, String>)
    ensures
        match r {
            Ok(cmd) => match cmd {
                CliCommand::Run { file_execute } => cli_run_file(args.deep_view()) == Some(
                    file_execute@,
                ),
            },
            Err(_) => cli_run_file(args.deep_view()) is None,
        },
{
    if args.len() == 3 {
        let run_word = String::from_str("run");
        if args[1].eq(&run_word) {
            let file = args[2].clone();
            proof {
                assert(args.deep_view()[1] == args@[1]@);
                assert(args.deep_view()[2] == args@[2]@);
            }
            return Ok(CliCommand::Run { file_execute: file });
        }
    }
    proof {
        assert(args.deep_view().len() == args@.len());
        if args@.len() == 3 {
            assert(args.deep_view()[1] == args@[1]@);
        }
    }
    Err(String::from_str("usage: run <file>"))
}

} // verus!
