//! What the program was asked to do.

use vstd::prelude::*;

use crate::text;

verus! {

/// What the program does.
#[derive(Clone, Copy, Debug, Eq, PartialEq, Structural)]
pub enum Command {
    /// Runs as the service.
    Serve,
    /// Installs the service.
    Install,
    /// Prints the diagnostics of the running service.
    Diagnostics,
}

/// Why the program ends early.
#[derive(Debug, Eq, PartialEq)]
pub enum AppError {
    Diagnostics(String),
    Logging(String),
    Service(String),
}

impl AppError {
    pub open spec fn text(self) -> Seq<char> {
        match self {
            AppError::Diagnostics(source) => "diagnostics failed: "@ + source@,
            AppError::Logging(message) => "logging initialization failed: "@ + message@,
            AppError::Service(source) => "service failed: "@ + source@,
        }
    }

    pub fn message(&self) -> (message: String)
        ensures
            message@ == self.text(),
    {
        let mut words = match self {
            AppError::Diagnostics(_) => "diagnostics failed: ".to_owned(),
            AppError::Logging(_) => "logging initialization failed: ".to_owned(),
            AppError::Service(_) => "service failed: ".to_owned(),
        };
        match self {
            AppError::Diagnostics(source) => text::append(&mut words, source.as_str()),
            AppError::Logging(message) => text::append(&mut words, message.as_str()),
            AppError::Service(source) => text::append(&mut words, source.as_str()),
        }
        words
    }
}

/// Whether the arguments ask for `command`, of a program that knows diagnostics or does not.
pub open spec fn asks_for(
    arguments: Seq<Seq<char>>,
    command: Command,
    diagnostics: bool,
) -> bool {
    match command {
        Command::Serve => arguments.len() == 0,
        Command::Install => arguments.len() == 1 && arguments[0] == "install"@,
        Command::Diagnostics => diagnostics && arguments.len() == 1 && arguments[0]
            == "diagnostics"@,
    }
}

/// Why the arguments ask for nothing.
pub open spec fn refusal(arguments: Seq<Seq<char>>, diagnostics: bool) -> AppErrorView {
    if arguments[0] == "install"@ {
        AppErrorView::Service(
            "service installation failed: unexpected argument after install: "@ + arguments[1],
        )
    } else if diagnostics && arguments[0] == "diagnostics"@ {
        AppErrorView::Diagnostics("unexpected argument after diagnostics: "@ + arguments[1])
    } else {
        AppErrorView::Service("service installation failed: unsupported command: "@ + arguments[0])
    }
}

pub enum AppErrorView {
    Diagnostics(Seq<char>),
    Logging(Seq<char>),
    Service(Seq<char>),
}

impl View for AppError {
    type V = AppErrorView;

    open spec fn view(&self) -> AppErrorView {
        match self {
            AppError::Diagnostics(source) => AppErrorView::Diagnostics(source@),
            AppError::Logging(message) => AppErrorView::Logging(message@),
            AppError::Service(source) => AppErrorView::Service(source@),
        }
    }
}

fn joined(words: &str, argument: &str) -> (message: String)
    ensures
        message@ == words@ + argument@,
{
    let mut message = words.to_owned();
    text::append(&mut message, argument);
    message
}

/// What the arguments behind the name of the program ask for. Only a program with `diagnostics`
/// knows the command of that name.
pub fn run(arguments: &Vec<String>, diagnostics: bool) -> (command: Result<Command, AppError>)
    ensures
        match command {
            Ok(command) => asks_for(text::views(arguments@), command, diagnostics),
            Err(error) => {
                &&& forall|command: Command| !#[trigger]
                    asks_for(text::views(arguments@), command, diagnostics)
                &&& error@ == refusal(text::views(arguments@), diagnostics)
            },
        },
{
    let ghost views = text::views(arguments@);
    assert(views.len() == arguments@.len());
    assert(forall|i: int| 0 <= i < views.len() ==> views[i] == #[trigger] arguments@[i]@);
    proof {
        reveal_strlit("install");
        reveal_strlit("diagnostics");
    }
    assert("install"@ != "diagnostics"@) by {
        assert("install"@[0] != "diagnostics"@[0]);
    }
    if arguments.len() == 0 {
        return Ok(Command::Serve);
    }
    if text::same_text(arguments[0].as_str(), "install") {
        if arguments.len() > 1 {
            return Err(
                AppError::Service(
                    joined(
                        "service installation failed: unexpected argument after install: ",
                        arguments[1].as_str(),
                    ),
                ),
            );
        }
        return Ok(Command::Install);
    }
    if diagnostics && text::same_text(arguments[0].as_str(), "diagnostics") {
        if arguments.len() > 1 {
            return Err(
                AppError::Diagnostics(
                    joined("unexpected argument after diagnostics: ", arguments[1].as_str()),
                ),
            );
        }
        return Ok(Command::Diagnostics);
    }
    Err(
        AppError::Service(
            joined(
                "service installation failed: unsupported command: ",
                arguments[0].as_str(),
            ),
        ),
    )
}

} // verus!
