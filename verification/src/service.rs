//! Failures of the service.

use vstd::prelude::*;

use crate::text;

verus! {

/// What the service can fail with.
#[derive(Debug, Eq, PartialEq)]
pub enum ServiceError {
    Windows { operation: String, source: String },
    WindowsLastError { operation: String, code: u32 },
    Trace { operation: String, code: u32 },
    Dbus { operation: String, source: String },
    Io { operation: String, path: Option<String>, source: String },
    Config { path: String, message: String },
    Affinity { expression: String, message: String },
    Install(String),
    InvalidProcessPath { process_id: u32 },
    ProcessIdentityMismatch {
        process_id: u32,
        expected_creation_time: u64,
        actual_creation_time: u64,
    },
    Poisoned(String),
}

/// `count` zeros.
pub open spec fn zeros(count: nat) -> Seq<char> {
    Seq::new(count, |i: int| '0')
}

/// The hexadecimal digits of `code`, at least eight.
pub open spec fn eight_digits(code: u32) -> Seq<char> {
    let digits = text::hexadecimal(code as nat);
    if digits.len() < 8 {
        zeros((8 - digits.len()) as nat) + digits
    } else {
        digits
    }
}

/// The words for a numbered failure of the operating system.
pub open spec fn numbered_failure(operation: Seq<char>, code: u32) -> Seq<char> {
    operation + " failed with Windows error "@ + text::decimal(code as nat) + " (0x"@
        + eight_digits(code) + ")"@
}

impl ServiceError {
    /// The words for the failure.
    pub open spec fn words(&self) -> Seq<char> {
        match self {
            ServiceError::Windows { operation, source } => operation@ + " failed: "@ + source@,
            ServiceError::WindowsLastError { operation, code } => numbered_failure(
                operation@,
                *code,
            ),
            ServiceError::Trace { operation, code } => numbered_failure(operation@, *code),
            ServiceError::Dbus { operation, source } => operation@ + " failed: "@ + source@,
            ServiceError::Io { operation, path, source } => match path {
                Some(path) => operation@ + " failed for "@ + path@ + ": "@ + source@,
                None => operation@ + " failed: "@ + source@,
            },
            ServiceError::Config { path, message } => "configuration "@ + path@ + " is invalid: "@
                + message@,
            ServiceError::Affinity { expression, message } => "affinity expression "@
                + text::debug_quoted(expression@) + " failed: "@ + message@,
            ServiceError::Install(message) => "service installation failed: "@ + message@,
            ServiceError::InvalidProcessPath { process_id } => "process "@ + text::decimal(
                *process_id as nat,
            ) + " has no resolvable image path"@,
            ServiceError::ProcessIdentityMismatch {
                process_id,
                expected_creation_time,
                actual_creation_time,
            } => "process "@ + text::decimal(*process_id as nat)
                + " identity changed: expected creation time "@ + text::decimal(
                *expected_creation_time as nat,
            ) + ", got "@ + text::decimal(*actual_creation_time as nat),
            ServiceError::Poisoned(name) => "shared service state poisoned: "@ + name@,
        }
    }

    pub fn message(&self) -> (message: String)
        ensures
            message@ == self.words(),
    {
        match self {
            ServiceError::Windows { operation, source } => join3(
                operation.as_str(),
                " failed: ",
                source.as_str(),
            ),
            ServiceError::WindowsLastError { operation, code } => numbered_message(
                operation.as_str(),
                *code,
            ),
            ServiceError::Trace { operation, code } => numbered_message(operation.as_str(), *code),
            ServiceError::Dbus { operation, source } => join3(
                operation.as_str(),
                " failed: ",
                source.as_str(),
            ),
            ServiceError::Io { operation, path, source } => match path {
                Some(path) => {
                    let mut message = join3(operation.as_str(), " failed for ", path.as_str());
                    text::append(&mut message, ": ");
                    text::append(&mut message, source.as_str());
                    message
                },
                None => join3(operation.as_str(), " failed: ", source.as_str()),
            },
            ServiceError::Config { path, message } => {
                let mut words = join3("configuration ", path.as_str(), " is invalid: ");
                text::append(&mut words, message.as_str());
                words
            },
            ServiceError::Affinity { expression, message } => {
                let quoted = text::quoted(expression.as_str());
                let mut words = join3("affinity expression ", quoted.as_str(), " failed: ");
                text::append(&mut words, message.as_str());
                words
            },
            ServiceError::Install(message) => {
                let mut words = "service installation failed: ".to_string();
                text::append(&mut words, message.as_str());
                words
            },
            ServiceError::InvalidProcessPath { process_id } => {
                let number = text::decimal_text(*process_id as u64);
                join3("process ", number.as_str(), " has no resolvable image path")
            },
            ServiceError::ProcessIdentityMismatch {
                process_id,
                expected_creation_time,
                actual_creation_time,
            } => {
                let number = text::decimal_text(*process_id as u64);
                let expected = text::decimal_text(*expected_creation_time);
                let actual = text::decimal_text(*actual_creation_time);
                let mut words = join3(
                    "process ",
                    number.as_str(),
                    " identity changed: expected creation time ",
                );
                text::append(&mut words, expected.as_str());
                text::append(&mut words, ", got ");
                text::append(&mut words, actual.as_str());
                words
            },
            ServiceError::Poisoned(name) => {
                let mut words = "shared service state poisoned: ".to_string();
                text::append(&mut words, name.as_str());
                words
            },
        }
    }
}

fn join3(a: &str, b: &str, c: &str) -> (joined: String)
    ensures
        joined@ == a@ + b@ + c@,
{
    let mut joined = a.to_owned();
    text::append(&mut joined, b);
    text::append(&mut joined, c);
    joined
}

fn numbered_message(operation: &str, code: u32) -> (message: String)
    ensures
        message@ == numbered_failure(operation@, code),
{
    let number = text::decimal_text(code as u64);
    let mut message = join3(operation, " failed with Windows error ", number.as_str());
    text::append(&mut message, " (0x");
    let digits = text::hexadecimal_characters(code as u64);
    let ghost start = message@;
    let mut written: usize = digits.len();
    while written < 8
        invariant
            digits@.len() <= written,
            written <= 8 || written == digits@.len(),
            message@ == start + zeros((written - digits@.len()) as nat),
        decreases 8 - written,
    {
        message.push('0');
        written = written + 1;
        assert(message@ =~= start + zeros((written - digits@.len()) as nat));
    }
    let digit_text = text::text_of(&digits);
    text::append(&mut message, digit_text.as_str());
    text::append(&mut message, ")");
    assert(start + eight_digits(code) =~= start + zeros((written - digits@.len()) as nat)
        + text::hexadecimal(code as nat));
    message
}

} // verus!
