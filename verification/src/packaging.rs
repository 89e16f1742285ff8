//! Packaging of the program: what the packaging task was asked for, and whether the tools it needs
//! are there.

use vstd::prelude::*;

use crate::text;

verus! {

/// The build of the packaging tool that the installer is made with.
pub const CARGO_WIX_MAIN_REV: &'static str = "fde983c2e901970267e76b8fd68120fdd5457a57";

/// What the packaging task does.
#[derive(Clone, Copy, Debug, Eq, PartialEq, Structural)]
pub enum Task {
    PackageMsi,
    Help,
}

pub open spec fn task_of(command: Option<Seq<char>>) -> Option<Task> {
    match command {
        None => Some(Task::Help),
        Some(command) => if command == "package-msi"@ {
            Some(Task::PackageMsi)
        } else if command == "help"@ || command == "-h"@ || command == "--help"@ {
            Some(Task::Help)
        } else {
            None
        },
    }
}

pub open spec fn text_view(text: Option<&str>) -> Option<Seq<char>> {
    match text {
        Some(text) => Some(text@),
        None => None,
    }
}

/// What the first argument asks for. Without one, help is asked for.
pub fn task(command: Option<&str>) -> (task: Result<Task, String>)
    ensures
        match task {
            Ok(task) => task_of(text_view(command)) == Some(task),
            Err(message) => {
                &&& command is Some
                &&& task_of(text_view(command)) is None
                &&& message@ == "unknown xtask command `"@ + command->0@
                    + "`. Run `cargo xtask help`."@
            },
        },
{
    proof {
        reveal_strlit("package-msi");
        reveal_strlit("help");
        reveal_strlit("-h");
        reveal_strlit("--help");
        assert("package-msi"@.len() == 11);
        assert("help"@.len() == 4);
        assert("-h"@.len() == 2);
        assert("--help"@.len() == 6);
    }
    match command {
        None => Ok(Task::Help),
        Some(command) => {
            if text::same_text(command, "package-msi") {
                Ok(Task::PackageMsi)
            } else if text::same_text(command, "help") || text::same_text(command, "-h")
                || text::same_text(command, "--help") {
                Ok(Task::Help)
            } else {
                let mut message = "unknown xtask command `".to_owned();
                text::append(&mut message, command);
                text::append(&mut message, "`. Run `cargo xtask help`.");
                Err(message)
            }
        },
    }
}

pub open spec fn is_modern(help: Seq<char>, init_help: Seq<char>) -> bool {
    text::contains_part(help, "--toolset <toolset>"@) && text::contains_part(
        help,
        "--migrate <migrate>"@,
    ) && text::contains_part(init_help, "--schema <schema>"@)
}

pub open spec fn outdated_tool() -> Seq<char> {
    "installed cargo-wix does not expose modern WiX support. Install the pinned upstream build with: cargo install --git https://github.com/volks73/cargo-wix --rev "@
        + CARGO_WIX_MAIN_REV@ + " cargo-wix --force"@
}

fn mentions(text: &str, part: &str) -> (found: bool)
    ensures
        found == text::contains_part(text@, part@),
{
    let text = text::characters(text);
    let part = text::characters(part);
    text::has_part(&text, &part)
}

/// Checks by its help texts that the packaging tool knows the toolset.
pub fn ensure_modern_cargo_wix(help: &str, init_help: &str) -> (checked: Result<(), String>)
    ensures
        match checked {
            Ok(_) => is_modern(help@, init_help@),
            Err(message) => !is_modern(help@, init_help@) && message@ == outdated_tool(),
        },
{
    if mentions(help, "--toolset <toolset>") && mentions(help, "--migrate <migrate>") && mentions(
        init_help,
        "--schema <schema>",
    ) {
        return Ok(());
    }
    let mut message = "installed cargo-wix does not expose modern WiX support. Install the pinned upstream build with: cargo install --git https://github.com/volks73/cargo-wix --rev ".to_owned();
    text::append(&mut message, CARGO_WIX_MAIN_REV);
    text::append(&mut message, " cargo-wix --force");
    Err(message)
}

/// A version of the toolset that the installer can be made with.
pub open spec fn is_supported(version: Seq<char>) -> bool {
    version.len() > 0 && (version[0] == '4' || version[0] == '5' || version[0] == '6' || version[0]
        == '7')
}

/// Checks the version that the toolset prints.
pub fn ensure_wix_cli(version: &str) -> (checked: Result<(), String>)
    ensures
        match checked {
            Ok(_) => is_supported(text::trim(version@)),
            Err(message) => {
                &&& !is_supported(text::trim(version@))
                &&& message@
                    == "modern WiX CLI 4 or newer is required; `wix --version` returned `"@
                    + text::trim(version@) + "`"@
            },
        },
{
    let version = text::trimmed(version);
    let chars = text::characters(version.as_str());
    if chars.len() > 0 && (chars[0] == '4' || chars[0] == '5' || chars[0] == '6' || chars[0]
        == '7') {
        return Ok(());
    }
    let mut message = "modern WiX CLI 4 or newer is required; `wix --version` returned `".to_owned();
    text::append(&mut message, version.as_str());
    text::append(&mut message, "`");
    Err(message)
}

/// What came of a tool that was run: it could not be, or ended with a status.
#[derive(Debug, Eq, PartialEq)]
pub enum Outcome {
    NotRun { error: String },
    Ended { success: bool, status: String },
}

/// Checks that a tool ran and succeeded.
pub fn run_checked(label: &str, outcome: &Outcome) -> (checked: Result<(), String>)
    ensures
        match outcome {
            Outcome::NotRun { error } => checked matches Err(message) && message@
                == "failed to run `"@ + label@ + "`: "@ + error@,
            Outcome::Ended { success, status } => if *success {
                checked is Ok
            } else {
                checked matches Err(message) && message@ == "`"@ + label@ + "` failed with status "@
                    + status@
            },
        },
{
    match outcome {
        Outcome::NotRun { error } => {
            let mut message = "failed to run `".to_owned();
            text::append(&mut message, label);
            text::append(&mut message, "`: ");
            text::append(&mut message, error.as_str());
            Err(message)
        },
        Outcome::Ended { success, status } => {
            if *success {
                return Ok(());
            }
            let mut message = "`".to_owned();
            text::append(&mut message, label);
            text::append(&mut message, "` failed with status ");
            text::append(&mut message, status.as_str());
            Err(message)
        },
    }
}

/// What a tool printed, if it ran and succeeded.
pub fn output_checked(label: &str, outcome: &Outcome, output: &str, errors: &str) -> (checked:
    Result<String, String>)
    ensures
        match outcome {
            Outcome::NotRun { error } => checked matches Err(message) && message@
                == "failed to run `"@ + label@ + "`: "@ + error@,
            Outcome::Ended { success, status } => if *success {
                checked matches Ok(printed) && printed@ == output@
            } else {
                checked matches Err(message) && message@ == "`"@ + label@ + "` failed with status "@
                    + status@ + ":\n"@ + output@ + errors@
            },
        },
{
    match run_checked(label, outcome) {
        Ok(_) => Ok(output.to_owned()),
        Err(message) => {
            let mut message = message;
            match outcome {
                Outcome::NotRun { .. } => {},
                Outcome::Ended { .. } => {
                    text::append(&mut message, ":\n");
                    text::append(&mut message, output);
                    text::append(&mut message, errors);
                },
            }
            Err(message)
        },
    }
}

} // verus!
