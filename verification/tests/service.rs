//! The service: how it is stopped, how it runs, and how it is installed.

use affix::command::{AppError, Command, run};
use affix::install::{
    InstallAction, InstallEvent, InstallStage, WindowsFailure, install_service, source_win32_code,
};
use affix::packaging::{
    Outcome, Task, ensure_modern_cargo_wix, ensure_wix_cli, output_checked, run_checked, task,
};
use affix::service::ServiceError;
use affix::service_control::{
    SERVICE_CONTROL_STOP, SERVICE_RUNNING, SERVICE_START_PENDING, SERVICE_STOP_PENDING,
    SERVICE_STOPPED, Service, ServiceEvent, ServiceRequest, StopState, Teardown,
};

/// Asks for a stop, and counts what follows.
fn request_stop(state: &mut StopState, signals: &mut u32, pending_reports: &mut u32) -> bool {
    let request = state.request_stop();
    if request.signal.is_some() {
        *signals += 1;
    }
    if request.first {
        *pending_reports += 1;
    }
    request.first
}

fn publish_stop_event(state: &mut StopState, raw: isize, signals: &mut u32) -> bool {
    match state.publish_stop_event(raw) {
        Some(signaled) => {
            assert_eq!(signaled, raw);
            *signals += 1;
            true
        }
        None => false,
    }
}

#[test]
fn stop_requested_before_event_publication_is_replayed() {
    let mut state = StopState::new();
    let mut signals = 0;
    let mut pending_reports = 0;
    assert!(request_stop(&mut state, &mut signals, &mut pending_reports));
    assert_eq!(signals, 0);
    assert_eq!(pending_reports, 1);
    assert!(publish_stop_event(&mut state, 41, &mut signals));
    assert_eq!(signals, 1);
    assert!(!request_stop(&mut state, &mut signals, &mut pending_reports));
    assert_eq!(signals, 1);
    assert_eq!(pending_reports, 1);
}

#[test]
fn stop_requested_after_event_publication_gets_published_handle_once() {
    let mut state = StopState::new();
    let mut signals = 0;
    let mut pending_reports = 0;
    assert!(!publish_stop_event(&mut state, 42, &mut signals));
    assert!(request_stop(&mut state, &mut signals, &mut pending_reports));
    assert_eq!(signals, 1);
    assert_eq!(pending_reports, 1);
    assert!(!request_stop(&mut state, &mut signals, &mut pending_reports));
    assert_eq!(signals, 1);
    assert_eq!(pending_reports, 1);
}

#[test]
fn pending_stop_prevents_later_running_status() {
    let mut state = StopState::new();
    let mut statuses = Vec::new();
    if state.request_stop().first {
        statuses.push("stop-pending");
    }
    assert!(!state.publish_status_if_not_stopping());
    if state.publish_status_if_not_stopping() {
        statuses.push("running");
    }
    assert_eq!(statuses, vec!["stop-pending"]);
}

#[test]
fn running_status_precedes_later_stop_pending_status() {
    let mut state = StopState { requested: false, event_raw: 42 };
    let mut statuses = Vec::new();
    assert!(state.publish_status_if_not_stopping());
    if state.publish_status_if_not_stopping() {
        statuses.push("running");
    }
    let request = state.request_stop();
    assert!(request.first);
    if request.first {
        statuses.push("stop-pending");
    }
    assert_eq!(statuses, vec!["running", "stop-pending"]);
}

#[test]
fn a_reset_state_can_be_stopped_again() {
    let mut state = StopState { requested: true, event_raw: 42 };
    state.reset_stop_state();
    assert_eq!(state, StopState::new());
    assert!(state.request_stop().first);
}

#[test]
fn the_service_starts_runs_and_takes_everything_down() {
    let mut service = Service::new();
    let action = service.service_main(ServiceEvent::Registered { handle: Some(9) });
    assert_eq!(action.report.unwrap().current_state, SERVICE_START_PENDING);
    assert_eq!(action.request, ServiceRequest::CreateStopEvent);
    let action = service.service_main(ServiceEvent::EventCreated { event: Ok(41) });
    assert_eq!(action.request, ServiceRequest::ApplyOwnPolicy);
    let action = service.service_main(ServiceEvent::OwnPolicyApplied);
    assert_eq!(action.request, ServiceRequest::CreateEngine);
    let action = service.service_main(ServiceEvent::EngineCreated { created: true });
    assert_eq!(action.request, ServiceRequest::StartPowerMonitor);
    let action = service.service_main(ServiceEvent::PowerMonitorStarted { started: false });
    assert_eq!(action.request, ServiceRequest::StartTraceMonitor);
    let action = service.service_main(ServiceEvent::TraceMonitorStarted { started: true });
    assert_eq!(action.request, ServiceRequest::Reconcile);
    let action = service.service_main(ServiceEvent::Reconciled { done: true });
    assert_eq!(action.report.unwrap().current_state, SERVICE_RUNNING);
    assert_eq!(action.request, ServiceRequest::WaitForStop);

    assert_eq!(service.service_control_handler(4), (None, None));
    let (report, signal) = service.service_control_handler(SERVICE_CONTROL_STOP);
    assert_eq!(report.unwrap().current_state, SERVICE_STOP_PENDING);
    assert_eq!(signal, Some(41));
    assert_eq!(
        service.service_control_handler(SERVICE_CONTROL_STOP),
        (None, None)
    );

    let action = service.service_main(ServiceEvent::StopSignaled);
    assert_eq!(
        action.request,
        ServiceRequest::TakeDown(Teardown {
            trace_monitor: true,
            power_monitor: false,
            engine: true,
        })
    );
    let action = service.service_main(ServiceEvent::TakenDown);
    let report = action.report.unwrap();
    assert_eq!(report.current_state, SERVICE_STOPPED);
    assert_eq!(report.exit_code, 0);
    assert_eq!(action.request, ServiceRequest::End);
}

#[test]
fn a_service_that_cannot_start_reports_why() {
    let mut service = Service::new();
    let action = service.service_main(ServiceEvent::Registered { handle: None });
    assert_eq!(action.report, None);
    assert_eq!(action.request, ServiceRequest::End);

    let mut service = Service::new();
    service.service_main(ServiceEvent::Registered { handle: Some(9) });
    let action = service.service_main(ServiceEvent::EventCreated { event: Err(5) });
    assert_eq!(action.report.unwrap().exit_code, 5);
    assert_eq!(action.request, ServiceRequest::End);

    let mut service = Service::new();
    service.service_main(ServiceEvent::Registered { handle: Some(9) });
    service.service_control_handler(SERVICE_CONTROL_STOP);
    let action = service.service_main(ServiceEvent::EventCreated { event: Ok(41) });
    assert_eq!(action.signal, Some(41));
    assert_eq!(action.report.unwrap().current_state, SERVICE_STOPPED);
}

fn windows_failure(code: i32) -> WindowsFailure {
    WindowsFailure { code, message: "refused".to_string() }
}

/// The result code of a Win32 error.
fn hresult(code: u32) -> i32 {
    (0x8007_0000u32 | code) as i32
}

#[test]
fn an_installed_service_is_replaced() {
    assert_eq!(source_win32_code(hresult(1060)), 1060);
    let mut stage = InstallStage::OpeningManager;
    let mut actions = Vec::new();
    for event in [
        InstallEvent::Done,
        InstallEvent::Done,
        InstallEvent::State { state: 4, expired: false },
        InstallEvent::Done,
        InstallEvent::State { state: 3, expired: false },
        InstallEvent::State { state: 1, expired: false },
        InstallEvent::Done,
        InstallEvent::Present { expired: false },
        InstallEvent::Absent { failure: windows_failure(hresult(1072)), expired: false },
        InstallEvent::Absent { failure: windows_failure(hresult(1060)), expired: false },
        InstallEvent::Done,
        InstallEvent::Done,
    ] {
        let (next, action) = install_service(stage, event);
        stage = next;
        actions.push(action);
    }
    assert_eq!(
        actions,
        vec![
            InstallAction::FindService,
            InstallAction::QueryService,
            InstallAction::StopService,
            InstallAction::PollService { pause: false },
            InstallAction::PollService { pause: true },
            InstallAction::DeleteService,
            InstallAction::PollDeletion { pause: false },
            InstallAction::PollDeletion { pause: true },
            InstallAction::PollDeletion { pause: true },
            InstallAction::CreateService,
            InstallAction::DescribeService,
            InstallAction::Installed,
        ]
    );
    assert_eq!(stage, InstallStage::Ended);
}

#[test]
fn an_installation_that_fails_tells_why() {
    let message = |stage: InstallStage, event: InstallEvent| match install_service(stage, event) {
        (InstallStage::Ended, InstallAction::Fail(error)) => error.message(),
        _ => panic!("expected a failure"),
    };
    let refused = || InstallEvent::Failed(windows_failure(hresult(5)));
    assert_eq!(
        message(InstallStage::OpeningManager, refused()),
        "OpenSCManagerW failed: refused"
    );
    assert_eq!(
        message(InstallStage::FindingService, refused()),
        "OpenServiceW failed: refused"
    );
    assert_eq!(
        message(InstallStage::DeletingService, refused()),
        "DeleteService failed: refused"
    );
    assert_eq!(
        message(InstallStage::CreatingService, refused()),
        "CreateServiceW(affix) failed: refused"
    );
    assert_eq!(
        message(
            InstallStage::WaitingForStop,
            InstallEvent::State { state: 3, expired: true }
        ),
        "service installation failed: service did not stop before replacement; current state is SERVICE_STATUS_CURRENT_STATE(3)"
    );
    assert_eq!(
        message(
            InstallStage::WaitingForDeletion,
            InstallEvent::Present { expired: true }
        ),
        "service installation failed: service remained present after DeleteService"
    );
    let (_, action) = install_service(
        InstallStage::StoppingService,
        InstallEvent::Failed(windows_failure(hresult(1062))),
    );
    assert_eq!(action, InstallAction::DeleteService);
    let (_, action) = install_service(
        InstallStage::FindingService,
        InstallEvent::Failed(windows_failure(hresult(1060))),
    );
    assert_eq!(action, InstallAction::CreateService);
}

fn arguments(words: &[&str]) -> Vec<String> {
    words.iter().map(|word| word.to_string()).collect()
}

#[test]
fn the_command_line_names_one_command() {
    for diagnostics in [false, true] {
        assert_eq!(run(&arguments(&[]), diagnostics), Ok(Command::Serve));
        assert_eq!(run(&arguments(&["install"]), diagnostics), Ok(Command::Install));
    }
    assert_eq!(run(&arguments(&["diagnostics"]), true), Ok(Command::Diagnostics));
    let plain = |words: &[&str]| run(&arguments(words), false).unwrap_err().message();
    assert_eq!(
        plain(&["diagnostics"]),
        "service failed: service installation failed: unsupported command: diagnostics"
    );
    assert_eq!(
        plain(&["diagnostics", "now"]),
        "service failed: service installation failed: unsupported command: diagnostics"
    );
    assert_eq!(
        plain(&["remove"]),
        "service failed: service installation failed: unsupported command: remove"
    );
    let message = |words: &[&str]| run(&arguments(words), true).unwrap_err().message();
    assert_eq!(
        message(&["install", "now"]),
        "service failed: service installation failed: unexpected argument after install: now"
    );
    assert_eq!(
        message(&["diagnostics", "now"]),
        "diagnostics failed: unexpected argument after diagnostics: now"
    );
    assert_eq!(
        message(&["remove"]),
        "service failed: service installation failed: unsupported command: remove"
    );
    assert_eq!(
        AppError::Logging("twice".to_string()).message(),
        "logging initialization failed: twice"
    );
}

#[test]
fn service_errors_read_as_sentences() {
    let text = |error: ServiceError| error.message();
    assert_eq!(
        text(ServiceError::Windows {
            operation: "OpenProcess".to_string(),
            source: "denied".to_string(),
        }),
        "OpenProcess failed: denied"
    );
    assert_eq!(
        text(ServiceError::WindowsLastError { operation: "SetEvent".to_string(), code: 6 }),
        "SetEvent failed with Windows error 6 (0x00000006)"
    );
    assert_eq!(
        text(ServiceError::Trace { operation: "StartTraceW".to_string(), code: 0x8000_00ab }),
        "StartTraceW failed with Windows error 2147483819 (0x800000ab)"
    );
    assert_eq!(
        text(ServiceError::Dbus {
            operation: "connect".to_string(),
            source: "closed".to_string(),
        }),
        "connect failed: closed"
    );
    assert_eq!(
        text(ServiceError::Io {
            operation: "read".to_string(),
            path: Some("/proc/1".to_string()),
            source: "gone".to_string(),
        }),
        "read failed for /proc/1: gone"
    );
    assert_eq!(
        text(ServiceError::Io {
            operation: "recv".to_string(),
            path: None,
            source: "gone".to_string(),
        }),
        "recv failed: gone"
    );
    assert_eq!(
        text(ServiceError::Config {
            path: "affix.toml".to_string(),
            message: "no rules".to_string(),
        }),
        "configuration affix.toml is invalid: no rules"
    );
    assert_eq!(
        text(ServiceError::Affinity {
            expression: "X\n".to_string(),
            message: "unknown".to_string(),
        }),
        "affinity expression \"X\\n\" failed: unknown"
    );
    assert_eq!(
        text(ServiceError::Install("late".to_string())),
        "service installation failed: late"
    );
    assert_eq!(
        text(ServiceError::InvalidProcessPath { process_id: 4 }),
        "process 4 has no resolvable image path"
    );
    assert_eq!(
        text(ServiceError::ProcessIdentityMismatch {
            process_id: 4,
            expected_creation_time: 1,
            actual_creation_time: 2,
        }),
        "process 4 identity changed: expected creation time 1, got 2"
    );
    assert_eq!(
        text(ServiceError::Poisoned("applied".to_string())),
        "shared service state poisoned: applied"
    );
}

#[test]
fn packaging_needs_modern_tools() {
    assert_eq!(task(None), Ok(Task::Help));
    assert_eq!(task(Some("-h")), Ok(Task::Help));
    assert_eq!(task(Some("package-msi")), Ok(Task::PackageMsi));
    assert_eq!(
        task(Some("ship")),
        Err("unknown xtask command `ship`. Run `cargo xtask help`.".to_string())
    );
    let help = "usage\n --toolset <toolset>\n --migrate <migrate>\n";
    assert_eq!(ensure_modern_cargo_wix(help, " --schema <schema>"), Ok(()));
    assert!(
        ensure_modern_cargo_wix(help, "")
            .unwrap_err()
            .contains("fde983c2e901970267e76b8fd68120fdd5457a57")
    );
    assert_eq!(ensure_wix_cli(" 5.0.2\n"), Ok(()));
    assert_eq!(
        ensure_wix_cli("3.14\n"),
        Err(
            "modern WiX CLI 4 or newer is required; `wix --version` returned `3.14`".to_string()
        )
    );
    let ended = |success: bool| Outcome::Ended { success, status: "exit status: 1".to_string() };
    let missing = Outcome::NotRun { error: "not found".to_string() };
    assert_eq!(run_checked("wix", &ended(true)), Ok(()));
    assert_eq!(
        run_checked("wix", &ended(false)),
        Err("`wix` failed with status exit status: 1".to_string())
    );
    assert_eq!(
        run_checked("wix", &missing),
        Err("failed to run `wix`: not found".to_string())
    );
    assert_eq!(
        output_checked("wix", &ended(true), "out", "err"),
        Ok("out".to_string())
    );
    assert_eq!(
        output_checked("wix", &ended(false), "out", "err"),
        Err("`wix` failed with status exit status: 1:\nouterr".to_string())
    );
}
