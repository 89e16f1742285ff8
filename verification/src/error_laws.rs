//! What holds of the words that errors are told in.

use vstd::prelude::*;

use crate::affinity;
use crate::affinity::AffinityExpression;
use crate::affinity_laws::{is_free, lemma_usable};
use crate::bytes::ByteOrder;
use crate::cgroup_laws::word_value;
use crate::command::{AppError, Command};
use crate::confidence::Confidence;
use crate::diagnostics;
use crate::diagnostics::{DiagnosticError, DiagnosticSnapshot};
use crate::linux_process;
use crate::linux_process::IoFailure;
use crate::registry;
use crate::registry::{RawValue, RegistryError};
use crate::service::ServiceError;
use crate::storage::{StorageError, StoredProcessDecision};
use crate::text;
use crate::text_laws;
use crate::topology::CpuSetEntry;

verus! {

/// An operation that failed is named first, and what the system said comes last.
pub proof fn law_failed_operation_is_named(error: &ServiceError, message: String)
    requires
        call_ensures(ServiceError::message, (error,), message),
    ensures
        error matches ServiceError::Windows { operation, source } ==> message@ == operation@
            + " failed: "@ + source@,
        error matches ServiceError::Dbus { operation, source } ==> message@ == operation@
            + " failed: "@ + source@,
        error matches ServiceError::Io { operation, path: None, source } ==> message@ == operation@
            + " failed: "@ + source@,
        error matches ServiceError::Io { operation, path: Some(path), source } ==> message@
            == operation@ + " failed for "@ + path@ + ": "@ + source@,
        error matches ServiceError::Config { path, message: reason } ==> message@
            == "configuration "@ + path@ + " is invalid: "@ + reason@,
        error matches ServiceError::Install(reason) ==> message@ == "service installation failed: "@
            + reason@,
        error matches ServiceError::Poisoned(name) ==> message@ == "shared service state poisoned: "@
            + name@,
        error matches ServiceError::Affinity { expression, message: reason } ==> message@.len()
            >= reason@.len() && message@.skip(message@.len() - reason@.len()) == reason@,
{
    if let ServiceError::Affinity { expression, message: reason } = error {
        assert(message@.skip(message@.len() - reason@.len()) =~= reason@);
    }
}

/// The number of a failure is told twice, in decimal digits and in at least eight hexadecimal ones.
pub proof fn law_failure_number_is_told_twice(
    error: &ServiceError,
    code: u32,
    digits: String,
    message: String,
    name: Seq<char>,
)
    requires
        call_ensures(ServiceError::message, (error,), message),
        call_ensures(text::decimal_text, (code as u64,), digits),
        (error matches ServiceError::WindowsLastError { operation, code: told } && told == code
            && operation@ == name) || (error matches ServiceError::Trace {
            operation,
            code: told,
        } && told == code && operation@ == name),
    ensures
        ({
            let front = name + " failed with Windows error "@ + digits@ + " (0x"@;
            let hex = message@.subrange(front.len() as int, message@.len() - 1);
            &&& message@.len() >= front.len() + 9
            &&& message@.take(front.len() as int) == front
            &&& message@.last() == ')'
            &&& text_laws::hexadecimal_value(hex) == code
            &&& hex.len() >= 8
        }),
{
    reveal_strlit(")");
    let front = name + " failed with Windows error "@ + digits@ + " (0x"@;
    let hex = crate::service::eight_digits(code);
    lemma_eight_digits(code);
    assert(message@ =~= front + hex + ")"@);
    assert(message@.take(front.len() as int) =~= front);
    assert(message@.subrange(front.len() as int, message@.len() - 1) =~= hex);
}

proof fn lemma_zeros(count: nat, digits: Seq<char>)
    ensures
        text_laws::hexadecimal_value(crate::service::zeros(count) + digits)
            == text_laws::hexadecimal_value(digits),
    decreases digits.len(), count,
{
    let zeros = crate::service::zeros(count);
    if digits.len() == 0 {
        assert(zeros + digits =~= zeros);
        if count > 0 {
            lemma_zeros((count - 1) as nat, digits);
            assert(zeros.drop_last() =~= crate::service::zeros((count - 1) as nat));
            assert(crate::service::zeros((count - 1) as nat) + digits =~= zeros.drop_last());
            assert(zeros.last() == '0');
        } else {
            assert(zeros =~= digits);
        }
    } else {
        lemma_zeros(count, digits.drop_last());
        assert((zeros + digits).drop_last() =~= zeros + digits.drop_last());
        assert((zeros + digits).last() == digits.last());
    }
}

proof fn lemma_eight_digits(code: u32)
    ensures
        text_laws::hexadecimal_value(crate::service::eight_digits(code)) == code,
        crate::service::eight_digits(code).len() >= 8,
{
    text_laws::lemma_hexadecimal(code as nat);
    let digits = text::hexadecimal(code as nat);
    if digits.len() < 8 {
        lemma_zeros((8 - digits.len()) as nat, digits);
    }
}

/// A process that is not the one that was asked about is told by its number and by both times.
pub proof fn law_other_process_is_told_by_its_times(
    pid: u32,
    expected: u64,
    actual: u64,
    number: String,
    asked: String,
    found: String,
    path: String,
    message: String,
)
    requires
        call_ensures(text::decimal_text, (pid as u64,), number),
        call_ensures(text::decimal_text, (expected,), asked),
        call_ensures(text::decimal_text, (actual,), found),
        call_ensures(
            ServiceError::message,
            (&ServiceError::InvalidProcessPath { process_id: pid },),
            path,
        ),
        call_ensures(
            ServiceError::message,
            (&ServiceError::ProcessIdentityMismatch {
                process_id: pid,
                expected_creation_time: expected,
                actual_creation_time: actual,
            },),
            message,
        ),
    ensures
        message@ == "process "@ + number@ + " identity changed: expected creation time "@ + asked@
            + ", got "@ + found@,
        path@ == "process "@ + number@ + " has no resolvable image path"@,
{
}

/// What the store, the diagnostics and the program say begins with what failed and ends with why.
pub proof fn law_reason_comes_last(
    stored: &StorageError,
    told: &DiagnosticError,
    ended: &AppError,
    of_store: String,
    of_diagnostics: String,
    of_program: String,
)
    requires
        call_ensures(StorageError::message, (stored,), of_store),
        call_ensures(DiagnosticError::message, (told,), of_diagnostics),
        call_ensures(AppError::message, (ended,), of_program),
    ensures
        stored matches StorageError::Sqlite(why) ==> of_store@ == "sqlite error: "@ + why@,
        stored matches StorageError::Io(why) ==> of_store@ == "io error: "@ + why@,
        stored matches StorageError::PoisonedMutex(why) ==> of_store@ == "poisoned mutex: "@ + why@,
        stored matches StorageError::InvalidStoredValue(why) ==> of_store@
            == "invalid stored value: "@ + why@,
        stored matches StorageError::InvalidAffinity(why) ==> of_store@ == "invalid affinity: "@
            + why@,
        stored matches StorageError::InvalidMode(why) ==> of_store@ == "invalid mode: "@ + why@,
        stored matches StorageError::InvalidPath(why) ==> of_store@ == "invalid path: "@ + why@,
        stored is ImageNameTooLong ==> of_store@ == "image name exceeds 260 characters"@,
        told matches DiagnosticError::AlreadyExists(why) ==> of_diagnostics@
            == "mapping already exists: "@ + why@,
        told matches DiagnosticError::Argument(why) ==> of_diagnostics@ == why@,
        told matches DiagnosticError::InvalidMapping(why) ==> of_diagnostics@
            == "invalid diagnostics mapping: "@ + why@,
        told matches DiagnosticError::Windows { operation, source } ==> of_diagnostics@
            == operation@ + ": "@ + source@,
        ended matches AppError::Diagnostics(why) ==> of_program@ == "diagnostics failed: "@ + why@,
        ended matches AppError::Logging(why) ==> of_program@ == "logging initialization failed: "@
            + why@,
        ended matches AppError::Service(why) ==> of_program@ == "service failed: "@ + why@,
{
}

/// A control group that cannot be read is told by its file.
pub proof fn law_unreadable_process_is_told_by_its_file(
    pid: u32,
    number: String,
    failure: IoFailure,
    group: Result<Option<String>, ServiceError>,
)
    requires
        call_ensures(text::decimal_text, (pid as u64,), number),
        call_ensures(
            linux_process::read_process_cgroup,
            (pid, Err::<String, IoFailure>(failure)),
            group,
        ),
    ensures
        group matches Err(error) ==> (error matches ServiceError::Io {
            operation,
            path: Some(file),
            source,
        } && operation@ == "read process cgroup"@ && file@ == "/proc/"@ + number@ + "/cgroup"@
            && source@ == failure.source@),
{
    reveal_strlit("/");
    reveal_strlit("cgroup");
    reveal_strlit("/cgroup");
    assert("/"@ + "cgroup"@ =~= "/cgroup"@);
    assert("/proc/"@ + number@ + "/"@ + "cgroup"@ =~= "/proc/"@ + number@ + "/cgroup"@);
}

/// What is wrong with a value of the registry is told with the name of the value: that it is no text or
/// too long, that it holds a zero, or that its units make no text.
pub proof fn law_wrong_value_is_told_by_its_name(
    raw: RawValue,
    name: &str,
    failed: String,
    read: Result<Option<String>, RegistryError>,
    unread: Result<Option<String>, RegistryError>,
)
    requires
        call_ensures(
            registry::optional_string,
            (&Ok::<Option<RawValue>, String>(Some(raw)), name),
            read,
        ),
        call_ensures(
            registry::optional_string,
            (&Err::<Option<RawValue>, String>(failed), name),
            unread,
        ),
    ensures
        unread matches Err(RegistryError::Io(words)) && words@ == failed@,
        !raw.is_text || raw.bytes@.len() > 8192 || raw.bytes@.len() % 2 == 1 ==> (read matches Err(
            RegistryError::InvalidValue(words),
        ) && words@ == name@ + " must be REG_SZ with at most 4096 UTF-16 units"@),
        raw.is_text && raw.bytes@.len() <= 8192 && raw.bytes@.len() % 2 == 0 && read is Err ==> (
        read matches Err(RegistryError::InvalidValue(words)) && (words@ == name@
            + " contains embedded NUL"@ || words@ == name@ + " contains invalid UTF-16"@)),
        raw.is_text && raw.bytes@.len() <= 8192 && raw.bytes@.len() % 2 == 0 && (exists|i: int|
            0 <= i && 2 * i + 3 < raw.bytes@.len() && #[trigger] raw.bytes@[2 * i] == 0
                && raw.bytes@[2 * i + 1] == 0) ==> (read matches Err(
            RegistryError::InvalidValue(words),
        ) && words@ == name@ + " contains embedded NUL"@),
{
    let units = registry::value_units(raw.bytes@);
    let kept = registry::unterminated(units);
    if raw.is_text && raw.bytes@.len() <= 8192 && raw.bytes@.len() % 2 == 0 && (exists|i: int|
        0 <= i && 2 * i + 3 < raw.bytes@.len() && #[trigger] raw.bytes@[2 * i] == 0 && raw.bytes@[2
            * i + 1] == 0) {
        let i = choose|i: int|
            0 <= i && 2 * i + 3 < raw.bytes@.len() && #[trigger] raw.bytes@[2 * i] == 0
                && raw.bytes@[2 * i + 1] == 0;
        assert(units.len() == raw.bytes@.len() / 2);
        assert(units[i] == 0);
        assert(kept[i] == 0);
        assert(kept.contains(0));
    }
}

/// What cannot be asked for is told by the word that is wrong: the second behind a command that is
/// known, the first otherwise.
pub proof fn law_wrong_argument_is_told(
    arguments: &Vec<String>,
    diagnostics: bool,
    command: Result<Command, AppError>,
)
    requires
        call_ensures(crate::command::run, (arguments, diagnostics), command),
    ensures
        command is Err ==> arguments@.len() > 0,
        command matches Err(error) ==> (if arguments@[0]@ == "install"@ {
            arguments@.len() > 1 && (error matches AppError::Service(words) && words@
                == "service installation failed: unexpected argument after install: "@
                + arguments@[1]@)
        } else if diagnostics && arguments@[0]@ == "diagnostics"@ {
            arguments@.len() > 1 && (error matches AppError::Diagnostics(words) && words@
                == "unexpected argument after diagnostics: "@ + arguments@[1]@)
        } else {
            error matches AppError::Service(words) && words@
                == "service installation failed: unsupported command: "@ + arguments@[0]@
        }),
{
    let views = text::views(arguments@);
    assert(views.len() == arguments@.len());
    if arguments@.len() > 0 {
        assert(views[0] == arguments@[0]@);
    }
    if arguments@.len() > 1 {
        assert(views[1] == arguments@[1]@);
    }
    if command is Err {
        assert(!crate::command::asks_for(views, Command::Serve, diagnostics));
        assert(!crate::command::asks_for(views, Command::Install, diagnostics));
        assert(!crate::command::asks_for(views, Command::Diagnostics, diagnostics));
    }
}

/// What is wrong with a stored decision is told: first that its confidence is no number, then that it
/// holds what is not known, then that it names two modes.
pub proof fn law_wrong_decision_is_told(
    decision: &StoredProcessDecision,
    finite: bool,
    valid: Result<(), StorageError>,
)
    requires
        call_ensures(StoredProcessDecision::validate, (decision,), valid),
        call_ensures(Confidence::is_finite, (decision.confidence,), finite),
    ensures
        !finite ==> (valid matches Err(StorageError::InvalidStoredValue(words)) && words@
            == "confidence must be finite"@),
        finite && decision.decision.0 >= 128 ==> (valid matches Err(
            StorageError::InvalidStoredValue(words),
        ) && words@ == "unknown decision bits set: 0x80"@),
        finite && decision.decision.0 < 128 && valid is Err ==> (valid matches Err(
            StorageError::InvalidMode(words),
        ) && words@ == "invalid encoding: multiple process mode bits are set"@),
{
    let bits = decision.decision.0;
    assert(bits >= 128u8 <==> bits & 128u8 != 0) by (bit_vector);
}

/// Diagnostics that are none are told by the first of their marks that is wrong.
pub proof fn law_wrong_mark_is_told(
    memory: [u8; 256],
    order: ByteOrder,
    snapshot: Result<DiagnosticSnapshot, DiagnosticError>,
    failed: DiagnosticError,
    unopened: Result<DiagnosticSnapshot, DiagnosticError>,
)
    requires
        call_ensures(
            diagnostics::read_snapshot,
            (Ok::<[u8; 256], DiagnosticError>(memory), order),
            snapshot,
        ),
        call_ensures(
            diagnostics::read_snapshot,
            (Err::<[u8; 256], DiagnosticError>(failed), order),
            unopened,
        ),
    ensures
        unopened == Err::<DiagnosticSnapshot, DiagnosticError>(failed),
        snapshot is Err ==> (snapshot matches Err(DiagnosticError::InvalidMapping(words)) && (words@
            == "magic mismatch"@ || words@ == "unsupported diagnostics ABI version"@ || words@
            == "diagnostics structure size mismatch"@)),
        word_value(memory@, 8, order) != 1 ==> snapshot is Err,
        word_value(memory@, 12, order) != 256 ==> snapshot is Err,
        snapshot matches Err(DiagnosticError::InvalidMapping(words)) ==> {
            &&& words@ == "unsupported diagnostics ABI version"@ ==> word_value(memory@, 8, order)
                != 1
            &&& words@ == "diagnostics structure size mismatch"@ ==> word_value(memory@, 8, order)
                == 1 && word_value(memory@, 12, order) != 256
        },
{
    reveal_strlit("magic mismatch");
    reveal_strlit("unsupported diagnostics ABI version");
    reveal_strlit("diagnostics structure size mismatch");
    assert("magic mismatch"@.len() == 14);
    assert("unsupported diagnostics ABI version"@.len() == 35);
    assert("diagnostics structure size mismatch"@[0] == 'd');
    assert("unsupported diagnostics ABI version"@[0] == 'u');
}

/// A machine without a processor that may be used is told.
pub proof fn law_unusable_machine_is_told(
    expression: &AffinityExpression,
    entries: &[CpuSetEntry],
    found: Result<Option<usize>, String>,
)
    requires
        call_ensures(AffinityExpression::mask_from_entries, (expression, entries), found),
    ensures
        entries@.len() == 0 ==> (found matches Err(words) && words@ == "CPU topology is empty"@),
        entries@.len() > 0 && (forall|i: int|
            0 <= i < entries@.len() ==> !is_free(#[trigger] entries@[i])) ==> (found matches Err(
            words,
        ) && words@ == "no usable group-0 CPU-set entries are available"@),
{
    lemma_usable(entries@);
    let all = affinity::usable(entries@);
    if forall|i: int| 0 <= i < entries@.len() ==> !is_free(#[trigger] entries@[i]) {
        if all.len() > 0 {
            assert(all.contains(all[0]));
        }
    }
}

/// An expression without a term, and one with an empty term, are told.
pub proof fn law_empty_terms_are_told(
    source: String,
    whole: &str,
    inner: String,
    parsed: Result<AffinityExpression, String>,
)
    requires
        whole@ == source@,
        call_ensures(text::trimmed, (whole,), inner),
        call_ensures(AffinityExpression::parse, (source,), parsed),
    ensures
        inner@.len() == 0 ==> (parsed matches Err(words) && words@
            == "affinity expression must not be empty"@),
        inner@.len() > 0 ==> (parsed matches Err(words) ==> words@ == "empty affinity term in "@
            + text::debug_quoted(inner@) || exists|word: Seq<char>|
            words@ == "unsupported affinity term "@ + #[trigger] text::debug_quoted(word)
                + "; expected P, E, LPE, C, or a 0-based logical processor index: "@
                + text::parse_usize_error(word)),
{
}

} // verus!
