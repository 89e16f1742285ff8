//! Installation of the Windows service. A service of the same name is stopped and deleted first.

use vstd::prelude::*;

use crate::service::ServiceError;
use crate::text;

verus! {

pub const ERROR_SERVICE_DOES_NOT_EXIST: u32 = 1060;

pub const ERROR_SERVICE_NOT_ACTIVE: u32 = 1062;

pub const ERROR_SERVICE_MARKED_FOR_DELETE: u32 = 1072;

/// The state of a service that does not run.
pub const SERVICE_STOPPED: u32 = 1;

pub const DELETE_SERVICE_ACCESS: u32 = 0x1_0000;

/// How long the service that is replaced is waited for.
pub const SERVICE_REPLACEMENT_TIMEOUT_MS: u64 = 20_000;

pub const SERVICE_REPLACEMENT_POLL_MS: u64 = 250;

/// A call of the system that failed.
#[derive(Debug, Eq, PartialEq)]
pub struct WindowsFailure {
    pub code: i32,
    pub message: String,
}

/// The error of Win32 that a result code holds.
pub open spec fn win32_code(code: i32) -> int {
    (code as int) % 0x1_0000
}

pub fn source_win32_code(code: i32) -> (error: u32)
    ensures
        error == win32_code(code),
{
    let unsigned: u32 = code as u32;
    assert(code as u32 == if code < 0 {
        code + 0x1_0000_0000
    } else {
        code + 0
    }) by (bit_vector);
    assert(unsigned & 0xffff == unsigned % 0x1_0000) by (bit_vector);
    unsigned & 0xffff
}

impl WindowsFailure {
    fn is(&self, error: u32) -> (same: bool)
        ensures
            same == (win32_code(self.code) == error),
    {
        source_win32_code(self.code) == error
    }
}

/// How far the installation has come.
#[derive(Clone, Copy, Debug, Eq, PartialEq, Structural)]
pub enum InstallStage {
    OpeningManager,
    FindingService,
    QueryingService,
    StoppingService,
    WaitingForStop,
    DeletingService,
    WaitingForDeletion,
    CreatingService,
    DescribingService,
    Ended,
}

/// What happened to what was asked for. Of a wait, `expired` says whether it took too long.
#[derive(Debug, Eq, PartialEq)]
pub enum InstallEvent {
    Done,
    Failed(WindowsFailure),
    /// The state of the service was read.
    State { state: u32, expired: bool },
    /// The service was looked for.
    Present { expired: bool },
    Absent { failure: WindowsFailure, expired: bool },
}

/// What the installation asks for.
#[derive(Debug, Eq, PartialEq)]
pub enum InstallAction {
    FindService,
    QueryService,
    StopService,
    /// The state is read again, after a pause where `pause` says so.
    PollService { pause: bool },
    DeleteService,
    /// The service is looked for again, after a pause where `pause` says so.
    PollDeletion { pause: bool },
    CreateService,
    DescribeService,
    Installed,
    Fail(ServiceError),
}

/// An error that tells of a failed call.
pub open spec fn tells(error: ServiceError, operation: Seq<char>, failure: WindowsFailure) -> bool {
    error matches ServiceError::Windows { operation: named, source } && named@ == operation
        && source@ == failure.message@
}

/// An error that tells why the installation was given up.
pub open spec fn tells_why(error: ServiceError, message: Seq<char>) -> bool {
    error matches ServiceError::Install(words) && words@ == message
}

pub open spec fn not_stopped(state: u32) -> Seq<char> {
    "service did not stop before replacement; current state is SERVICE_STATUS_CURRENT_STATE("@
        + text::decimal(state as nat) + ")"@
}

/// Whether `action` gives the installation up because of a failed call.
pub open spec fn gives_up(action: InstallAction, operation: Seq<char>, failure: WindowsFailure) -> bool {
    action matches InstallAction::Fail(error) && tells(error, operation, failure)
}

/// Whether the event answers what was asked for in this stage.
pub open spec fn expects(stage: InstallStage, event: InstallEvent) -> bool {
    match stage {
        InstallStage::OpeningManager => event is Done || event is Failed,
        InstallStage::FindingService => event is Done || event is Failed,
        InstallStage::QueryingService => event is State || event is Failed,
        InstallStage::StoppingService => event is Done || event is Failed,
        InstallStage::WaitingForStop => event is State || event is Failed,
        InstallStage::DeletingService => event is Done || event is Failed,
        InstallStage::WaitingForDeletion => event is Present || event is Absent,
        InstallStage::CreatingService => event is Done || event is Failed,
        InstallStage::DescribingService => event is Done || event is Failed,
        InstallStage::Ended => false,
    }
}

/// How the installation goes on: the stage that follows, and what it asks for.
pub open spec fn goes_on(
    stage: InstallStage,
    event: InstallEvent,
    next: InstallStage,
    action: InstallAction,
) -> bool {
    match (stage, event) {
        (InstallStage::OpeningManager, InstallEvent::Done) => next == InstallStage::FindingService
            && action == InstallAction::FindService,
        (InstallStage::OpeningManager, InstallEvent::Failed(failure)) => next == InstallStage::Ended
            && gives_up(action, "OpenSCManagerW"@, failure),
        (InstallStage::FindingService, InstallEvent::Done) => next == InstallStage::QueryingService
            && action == InstallAction::QueryService,
        (InstallStage::FindingService, InstallEvent::Failed(failure)) => if win32_code(failure.code)
            == ERROR_SERVICE_DOES_NOT_EXIST {
            next == InstallStage::CreatingService && action == InstallAction::CreateService
        } else {
            next == InstallStage::Ended && gives_up(action, "OpenServiceW"@, failure)
        },
        (InstallStage::QueryingService, InstallEvent::State { state, .. }) => if state
            == SERVICE_STOPPED {
            next == InstallStage::DeletingService && action == InstallAction::DeleteService
        } else {
            next == InstallStage::StoppingService && action == InstallAction::StopService
        },
        (InstallStage::QueryingService, InstallEvent::Failed(failure)) => next
            == InstallStage::Ended && gives_up(action, "QueryServiceStatus"@, failure),
        (InstallStage::StoppingService, InstallEvent::Failed(failure)) => if win32_code(
            failure.code,
        ) == ERROR_SERVICE_NOT_ACTIVE {
            next == InstallStage::DeletingService && action == InstallAction::DeleteService
        } else {
            next == InstallStage::WaitingForStop && action == (InstallAction::PollService {
                pause: false,
            })
        },
        (InstallStage::StoppingService, InstallEvent::Done) => next == InstallStage::WaitingForStop
            && action == (InstallAction::PollService { pause: false }),
        (InstallStage::WaitingForStop, InstallEvent::State { state, expired }) => if state
            == SERVICE_STOPPED {
            next == InstallStage::DeletingService && action == InstallAction::DeleteService
        } else if expired {
            next == InstallStage::Ended && (action matches InstallAction::Fail(error) && tells_why(
                error,
                not_stopped(state),
            ))
        } else {
            next == InstallStage::WaitingForStop && action == (InstallAction::PollService {
                pause: true,
            })
        },
        (InstallStage::WaitingForStop, InstallEvent::Failed(failure)) => next == InstallStage::Ended
            && gives_up(action, "QueryServiceStatus"@, failure),
        (InstallStage::DeletingService, InstallEvent::Failed(failure)) => if win32_code(
            failure.code,
        ) == ERROR_SERVICE_MARKED_FOR_DELETE {
            next == InstallStage::WaitingForDeletion && action == (InstallAction::PollDeletion {
                pause: false,
            })
        } else {
            next == InstallStage::Ended && gives_up(action, "DeleteService"@, failure)
        },
        (InstallStage::DeletingService, InstallEvent::Done) => next
            == InstallStage::WaitingForDeletion && action == (InstallAction::PollDeletion {
            pause: false,
        }),
        (InstallStage::WaitingForDeletion, InstallEvent::Absent { failure, expired }) =>
            if win32_code(failure.code) == ERROR_SERVICE_DOES_NOT_EXIST {
            next == InstallStage::CreatingService && action == InstallAction::CreateService
        } else if win32_code(failure.code) != ERROR_SERVICE_MARKED_FOR_DELETE {
            next == InstallStage::Ended && gives_up(action, "OpenServiceW(wait deleted)"@, failure)
        } else {
            waits_for_deletion(expired, next, action)
        },
        (InstallStage::WaitingForDeletion, InstallEvent::Present { expired }) =>
            waits_for_deletion(expired, next, action),
        (InstallStage::CreatingService, InstallEvent::Done) => next
            == InstallStage::DescribingService && action == InstallAction::DescribeService,
        (InstallStage::CreatingService, InstallEvent::Failed(failure)) => next
            == InstallStage::Ended && gives_up(action, "CreateServiceW(affix)"@, failure),
        (InstallStage::DescribingService, InstallEvent::Done) => next == InstallStage::Ended
            && action == InstallAction::Installed,
        (InstallStage::DescribingService, InstallEvent::Failed(failure)) => next
            == InstallStage::Ended && gives_up(
            action,
            "ChangeServiceConfig2W(SERVICE_CONFIG_DESCRIPTION)"@,
            failure,
        ),
        _ => false,
    }
}

pub open spec fn waits_for_deletion(
    expired: bool,
    next: InstallStage,
    action: InstallAction,
) -> bool {
    if expired {
        next == InstallStage::Ended && (action matches InstallAction::Fail(error) && tells_why(
            error,
            "service remained present after DeleteService"@,
        ))
    } else {
        next == InstallStage::WaitingForDeletion && action == (InstallAction::PollDeletion {
            pause: true,
        })
    }
}

fn failed(operation: &str, failure: WindowsFailure) -> (action: InstallAction)
    ensures
        gives_up(action, operation@, failure),
{
    InstallAction::Fail(
        ServiceError::Windows { operation: operation.to_owned(), source: failure.message },
    )
}

fn stop_message(state: u32) -> (message: String)
    ensures
        message@ == not_stopped(state),
{
    let mut message = "service did not stop before replacement; current state is SERVICE_STATUS_CURRENT_STATE(".to_owned();
    let number = text::decimal_text(state as u64);
    text::append(&mut message, number.as_str());
    text::append(&mut message, ")");
    message
}

fn wait_for_service_deleted(expired: bool) -> (step: (InstallStage, InstallAction))
    ensures
        waits_for_deletion(expired, step.0, step.1),
{
    if expired {
        (
            InstallStage::Ended,
            InstallAction::Fail(
                ServiceError::Install("service remained present after DeleteService".to_owned()),
            ),
        )
    } else {
        (InstallStage::WaitingForDeletion, InstallAction::PollDeletion { pause: true })
    }
}

/// Goes on with the installation after what was asked for has happened.
pub fn install_service(stage: InstallStage, event: InstallEvent) -> (step: (
    InstallStage,
    InstallAction,
))
    requires
        expects(stage, event),
    ensures
        goes_on(stage, event, step.0, step.1),
{
    match (stage, event) {
        (InstallStage::OpeningManager, InstallEvent::Failed(failure)) => (
            InstallStage::Ended,
            failed("OpenSCManagerW", failure),
        ),
        (InstallStage::OpeningManager, _) => (
            InstallStage::FindingService,
            InstallAction::FindService,
        ),
        (InstallStage::FindingService, InstallEvent::Failed(failure)) => {
            if failure.is(ERROR_SERVICE_DOES_NOT_EXIST) {
                (InstallStage::CreatingService, InstallAction::CreateService)
            } else {
                (InstallStage::Ended, failed("OpenServiceW", failure))
            }
        },
        (InstallStage::FindingService, _) => (
            InstallStage::QueryingService,
            InstallAction::QueryService,
        ),
        (InstallStage::QueryingService, InstallEvent::State { state, .. }) => {
            if state == SERVICE_STOPPED {
                (InstallStage::DeletingService, InstallAction::DeleteService)
            } else {
                (InstallStage::StoppingService, InstallAction::StopService)
            }
        },
        (InstallStage::QueryingService, InstallEvent::Failed(failure)) => (
            InstallStage::Ended,
            failed("QueryServiceStatus", failure),
        ),
        (InstallStage::StoppingService, InstallEvent::Failed(failure)) => {
            if failure.is(ERROR_SERVICE_NOT_ACTIVE) {
                (InstallStage::DeletingService, InstallAction::DeleteService)
            } else {
                (InstallStage::WaitingForStop, InstallAction::PollService { pause: false })
            }
        },
        (InstallStage::StoppingService, _) => (
            InstallStage::WaitingForStop,
            InstallAction::PollService { pause: false },
        ),
        (InstallStage::WaitingForStop, InstallEvent::State { state, expired }) => {
            if state == SERVICE_STOPPED {
                (InstallStage::DeletingService, InstallAction::DeleteService)
            } else if expired {
                (
                    InstallStage::Ended,
                    InstallAction::Fail(ServiceError::Install(stop_message(state))),
                )
            } else {
                (InstallStage::WaitingForStop, InstallAction::PollService { pause: true })
            }
        },
        (InstallStage::WaitingForStop, InstallEvent::Failed(failure)) => (
            InstallStage::Ended,
            failed("QueryServiceStatus", failure),
        ),
        (InstallStage::DeletingService, InstallEvent::Failed(failure)) => {
            if failure.is(ERROR_SERVICE_MARKED_FOR_DELETE) {
                (InstallStage::WaitingForDeletion, InstallAction::PollDeletion { pause: false })
            } else {
                (InstallStage::Ended, failed("DeleteService", failure))
            }
        },
        (InstallStage::DeletingService, _) => (
            InstallStage::WaitingForDeletion,
            InstallAction::PollDeletion { pause: false },
        ),
        (InstallStage::WaitingForDeletion, InstallEvent::Absent { failure, expired }) => {
            if failure.is(ERROR_SERVICE_DOES_NOT_EXIST) {
                (InstallStage::CreatingService, InstallAction::CreateService)
            } else if failure.is(ERROR_SERVICE_MARKED_FOR_DELETE) {
                wait_for_service_deleted(expired)
            } else {
                (InstallStage::Ended, failed("OpenServiceW(wait deleted)", failure))
            }
        },
        (InstallStage::WaitingForDeletion, InstallEvent::Present { expired }) => {
            wait_for_service_deleted(expired)
        },
        (InstallStage::CreatingService, InstallEvent::Failed(failure)) => (
            InstallStage::Ended,
            failed("CreateServiceW(affix)", failure),
        ),
        (InstallStage::CreatingService, _) => (
            InstallStage::DescribingService,
            InstallAction::DescribeService,
        ),
        (InstallStage::DescribingService, InstallEvent::Failed(failure)) => (
            InstallStage::Ended,
            failed("ChangeServiceConfig2W(SERVICE_CONFIG_DESCRIPTION)", failure),
        ),
        _ => (InstallStage::Ended, InstallAction::Installed),
    }
}

/// A service is created only where none of its name is left: none was there, or the one that was
/// there is gone.
pub proof fn law_created_only_where_none_is_left(
    stage: InstallStage,
    event: InstallEvent,
    next: InstallStage,
    action: InstallAction,
)
    requires
        expects(stage, event),
        goes_on(stage, event, next, action),
        action == InstallAction::CreateService,
    ensures
        event matches InstallEvent::Failed(failure) ==> win32_code(failure.code)
            == ERROR_SERVICE_DOES_NOT_EXIST,
        event matches InstallEvent::Absent { failure, .. } ==> win32_code(failure.code)
            == ERROR_SERVICE_DOES_NOT_EXIST,
        event is Failed || event is Absent,
{
}

/// A service is deleted only once it is known not to run.
pub proof fn law_deleted_only_when_stopped(
    stage: InstallStage,
    event: InstallEvent,
    next: InstallStage,
    action: InstallAction,
)
    requires
        expects(stage, event),
        goes_on(stage, event, next, action),
        action == InstallAction::DeleteService,
    ensures
        event matches InstallEvent::State { state, .. } ==> state == SERVICE_STOPPED,
        event matches InstallEvent::Failed(failure) ==> win32_code(failure.code)
            == ERROR_SERVICE_NOT_ACTIVE,
        event is State || event is Failed,
{
}

} // verus!
