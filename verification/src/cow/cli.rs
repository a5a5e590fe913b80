//! The command-line front end of the COW interpreter: argument handling and
//! the messages shown on errors.
use vstd::prelude::*;
use crate::text::push_str;
use crate::cow::machine::{CowError, error_text};
use crate::cow::run::{CowOutcome, cow_run, run_cow};

verus! {

/// The message shown when no script is named.
pub open spec fn usage_text() -> Seq<char> {
    "Error: No filename provided.\n"@ + "Usage: cargo run -- <filename.cow>\n"@
}

/// The message shown when the script cannot be read.
pub open spec fn read_failure_text(path: Seq<char>, err: Seq<char>) -> Seq<char> {
    "Failed to read file '"@ + path + "': "@ + err + "\n"@
}

/// The message shown when the script stops with an error.
pub open spec fn runtime_error_text(e: CowError) -> Seq<char> {
    "Runtime Error: "@ + error_text(e) + "\n"@
}

/// The usage message.
pub fn usage_message() -> (m: String)
    ensures
        m@ == usage_text(),
{
    let mut m = String::from_str("Error: No filename provided.\n");
    push_str(&mut m, "Usage: cargo run -- <filename.cow>\n");
    m
}

/// The message for a script that cannot be read.
pub fn read_failure_message(path: &str, err: &str) -> (m: String)
    ensures
        m@ == read_failure_text(path@, err@),
{
    let mut m = String::from_str("Failed to read file '");
    push_str(&mut m, path);
    push_str(&mut m, "': ");
    push_str(&mut m, err);
    push_str(&mut m, "\n");
    m
}

/// The line reporting that the script stopped, with the reason given.
pub fn runtime_error_line(reason: &str) -> (m: String)
    ensures
        m@ == "Runtime Error: "@ + reason@ + "\n"@,
{
    let mut m = String::from_str("Runtime Error: ");
    push_str(&mut m, reason);
    push_str(&mut m, "\n");
    m
}

/// The message for a script that stopped with an error.
pub fn runtime_error_message(e: &CowError) -> (m: String)
    ensures
        m@ == runtime_error_text(*e),
{
    let text = e.message();
    runtime_error_line(text.as_str())
}

/// Exit code and everything written to the output.
pub struct AppRun {
    pub exit_code: i32,
    pub output: String,
}

/// The exit code and output of the interpreter started with `args`, where
/// `file` is what reading the script named by `args[1]` gave; `None` when the
/// script does not finish within `max_steps` instructions.
pub open spec fn app_result(
    args: Seq<String>,
    file: Result<String, String>,
    input: Seq<char>,
    max_steps: nat,
) -> Option<(i32, Seq<char>)> {
    if args.len() < 2 {
        Some((1, usage_text()))
    } else {
        match file {
            Err(e) => Some((1, read_failure_text(args[1]@, e@))),
            Ok(source) => {
                let (outcome, out) = cow_run(source@, input, max_steps);
                match outcome {
                    CowOutcome::Completed => Some((0, out)),
                    CowOutcome::Failed(e) => Some((1, out + runtime_error_text(e))),
                    CowOutcome::Unfinished => None,
                }
            },
        }
    }
}

/// Runs the interpreter as the command line asks: `args[1]` names the script,
/// `file` is what reading it gave, `input` is the text read by the script.
pub fn run_app(args: &Vec<String>, file: Result<String, String>, input: &str, max_steps: u64) -> (r: Option<AppRun>)
    ensures
        match (app_result(args@, file, input@, max_steps as nat), r) {
            (Some((code, out)), Some(run)) => run.exit_code == code && run.output@ == out,
            (None, None) => true,
            _ => false,
        },
{
    if args.len() < 2 {
        return Some(AppRun { exit_code: 1, output: usage_message() });
    }
    match file {
        Err(e) => Some(AppRun { exit_code: 1, output: read_failure_message(args[1].as_str(), e.as_str()) }),
        Ok(source) => {
            let run = run_cow(source.as_str(), input, max_steps);
            match run.outcome {
                CowOutcome::Completed => Some(AppRun { exit_code: 0, output: run.output }),
                CowOutcome::Failed(e) => {
                    let mut output = run.output;
                    let m = runtime_error_message(&e);
                    push_str(&mut output, m.as_str());
                    Some(AppRun { exit_code: 1, output })
                },
                CowOutcome::Unfinished => None,
            }
        },
    }
}

} // verus!
