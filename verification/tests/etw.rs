//! Traces of processes.

use affix::bytes::ByteOrder;
use affix::engine::ProcessKey;
use affix::etw::{
    AFFIX_TRACE_SESSION_GUID, ERROR_CTX_CLOSE_PENDING_STATUS, ERROR_SUCCESS, EVENT_TRACE_GUID,
    EVENT_TRACE_REAL_TIME_MODE, EVENT_TRACE_SYSTEM_LOGGER_MODE, EVENT_TRACE_TYPE_DC_END,
    EVENT_TRACE_TYPE_DC_START, EVENT_TRACE_TYPE_END, EVENT_TRACE_TYPE_START, EtwMonitor,
    EtwProcessAction, INVALID_TRACE_HANDLE, LostEventState, MICROSOFT_WINDOWS_KERNEL_PROCESS_GUID,
    MonitorAction, PROCESS_GUID, SYSTEM_PROCESS_PROVIDER_GUID, StartAction, StartEvent,
    LOGGER_NAME_OFFSET_AT, StartFailure, TraceEvent, TraceProperties, WNODE_FLAG_TRACED_GUID,
    close_trace_status_is_success, creation_time_properties, handle_event,
    process_id_from_event_field, process_id_properties, process_key_from_values,
    reported_events_lost, route_classic_process_event, route_modern_process_event, session_name,
};

/// What the system answers to a monitor that starts.
struct FakeEtwApi {
    events: Vec<&'static str>,
    spawn_failure: bool,
    enable_status: u32,
    open_failure: bool,
}

impl FakeEtwApi {
    fn success() -> Self {
        Self {
            events: Vec::new(),
            spawn_failure: false,
            enable_status: ERROR_SUCCESS,
            open_failure: false,
        }
    }

    fn start(&mut self) -> Result<EtwMonitor, StartFailure> {
        let (mut monitor, mut action) = EtwMonitor::start();
        loop {
            let event = match action {
                StartAction::StartTrace => {
                    self.events.push("start");
                    StartEvent::Started { status: ERROR_SUCCESS, session: 11 }
                }
                StartAction::EnableProvider { session } => {
                    assert_eq!(session, 11);
                    self.events.push("enable");
                    StartEvent::Enabled { status: self.enable_status }
                }
                StartAction::OpenTrace => {
                    self.events.push("open");
                    StartEvent::Opened {
                        trace: if self.open_failure { INVALID_TRACE_HANDLE } else { 12 },
                        code: 5,
                    }
                }
                StartAction::SpawnWorker { trace } => {
                    assert_eq!(trace, 12);
                    self.events.push("spawn");
                    StartEvent::Spawned {
                        failure: if self.spawn_failure { Some(8) } else { None },
                    }
                }
                StartAction::CloseTrace { trace } => {
                    assert_eq!(trace, 12);
                    self.events.push("close");
                    StartEvent::Closed
                }
                StartAction::StopTrace { session } => {
                    assert_eq!(session, 11);
                    self.events.push("stop");
                    StartEvent::Stopped
                }
                StartAction::Monitor => return Ok(monitor),
                StartAction::Fail(failure) => return Err(failure),
            };
            action = monitor.start_with_api(event);
        }
    }
}

#[test]
fn trace_properties_enable_realtime_process_events() {
    let properties = TraceProperties::system_process_session();

    assert_eq!(properties.guid, AFFIX_TRACE_SESSION_GUID);
    assert_eq!(properties.flags, WNODE_FLAG_TRACED_GUID);
    assert_eq!(
        properties.log_file_mode,
        EVENT_TRACE_REAL_TIME_MODE | EVENT_TRACE_SYSTEM_LOGGER_MODE
    );
    assert_eq!(properties.enable_flags, 0);

    let name = session_name();
    let memory = properties.memory(&name, ByteOrder::Little);
    assert_eq!(memory.len(), 120 + 2 * name.len());
    assert_eq!(
        u32::from_le_bytes([memory[0], memory[1], memory[2], memory[3]]) as usize,
        memory.len()
    );
    assert_eq!(&memory[24..28], &[0xee, 0xa0, 0x00, 0x47]);
    let name_at = LOGGER_NAME_OFFSET_AT;
    assert_eq!(name_at, if std::mem::size_of::<usize>() == 8 { 116 } else { 112 });
    assert_eq!(&memory[name_at..name_at + 4], &[120, 0, 0, 0]);
    assert_eq!(&memory[120..122], &[b'a', 0]);
    assert_eq!(
        TraceProperties::events_lost(&memory, ByteOrder::Little),
        Some(0)
    );
    assert_eq!(
        TraceProperties::events_lost(&vec![0; 91], ByteOrder::Little),
        None
    );
    assert_eq!(String::from_utf16(&name).unwrap(), "affix-kernel-process\0");
}

#[test]
fn session_query_supplies_supported_lost_event_count() {
    assert_eq!(reported_events_lost(ERROR_SUCCESS, 7), Some(7));
}

#[test]
fn failed_session_query_does_not_invent_a_lost_event_count() {
    assert_eq!(reported_events_lost(5, 0), None);
}

#[test]
fn close_pending_is_a_successful_asynchronous_close() {
    assert!(close_trace_status_is_success(ERROR_SUCCESS));
    assert!(close_trace_status_is_success(
        ERROR_CTX_CLOSE_PENDING_STATUS
    ));
    assert!(!close_trace_status_is_success(5));
}

#[test]
fn exact_process_key_requires_pid_and_creation_time() {
    assert_eq!(
        process_key_from_values(Some(42), Some(100)),
        Some(ProcessKey {
            process_id: 42,
            creation_time: 100,
        })
    );
    assert_eq!(process_key_from_values(Some(42), None), None);
    assert_eq!(process_key_from_values(None, Some(100)), None);
}

#[test]
fn modern_events_require_exact_identity_for_start_and_stop() {
    let key = ProcessKey {
        process_id: 42,
        creation_time: 100,
    };
    assert_eq!(
        route_modern_process_event(1, Some(key)),
        EtwProcessAction::ApplyExact(key)
    );
    assert_eq!(
        route_modern_process_event(2, Some(key)),
        EtwProcessAction::RemoveExact(key)
    );
    assert_eq!(
        route_modern_process_event(1, None),
        EtwProcessAction::Ignore
    );
    assert_eq!(
        route_modern_process_event(2, None),
        EtwProcessAction::Ignore
    );
}

#[test]
fn classic_stop_and_rundown_end_never_remove_by_pid() {
    assert_eq!(
        route_classic_process_event(EVENT_TRACE_TYPE_START, Some(42)),
        EtwProcessAction::ApplyClassic(42)
    );
    assert_eq!(
        route_classic_process_event(EVENT_TRACE_TYPE_DC_START, Some(42)),
        EtwProcessAction::ApplyClassic(42)
    );
    assert_eq!(
        route_classic_process_event(EVENT_TRACE_TYPE_END, Some(42)),
        EtwProcessAction::Ignore
    );
    assert_eq!(
        route_classic_process_event(EVENT_TRACE_TYPE_DC_END, Some(42)),
        EtwProcessAction::Ignore
    );
}

#[test]
fn worker_spawn_failure_closes_consumer_then_stops_session_once() {
    let mut fake = FakeEtwApi::success();
    fake.spawn_failure = true;
    assert!(fake.start().is_err());
    assert_eq!(
        fake.events,
        vec!["start", "enable", "open", "spawn", "close", "stop"]
    );
}

#[test]
fn enable_failure_stops_started_session_without_opening_consumer() {
    let mut fake = FakeEtwApi::success();
    fake.enable_status = 5;
    assert!(fake.start().is_err());
    assert_eq!(fake.events, vec!["start", "enable", "stop"]);
}

#[test]
fn open_failure_stops_started_session_without_spawning_worker() {
    let mut fake = FakeEtwApi::success();
    fake.open_failure = true;
    let failure = fake.start().unwrap_err();
    assert_eq!(fake.events, vec!["start", "enable", "open", "stop"]);
    assert!(
        failure
            .error()
            .message()
            .ends_with("failed with Windows error 5 (0x00000005)")
    );
}

#[test]
fn stop_failure_still_closes_consumer_before_join_returns() {
    let mut fake = FakeEtwApi::success();
    let mut monitor = fake.start().unwrap();
    let steps = monitor.stop();
    assert_eq!(steps.stop_session, Some(11));
    assert_eq!(steps.close_trace, Some(12));
    assert!(steps.join_worker);
    assert_eq!(monitor.close(), None);
    let again = monitor.stop();
    assert_eq!(again.close_trace, None);
}

#[test]
fn increased_loss_count_during_reconciliation_gets_followup_pass() {
    let mut state = LostEventState::new();
    let mut reconciled = Vec::new();
    assert!(state.reconcile(1));
    let first = state.next_target().unwrap();
    reconciled.push(first);
    assert!(!state.reconcile(2));
    state.target_reconciled(first);
    while let Some(target) = state.next_target() {
        reconciled.push(target);
        state.target_reconciled(target);
    }
    assert_eq!(reconciled, vec![1, 2]);
    assert!(!state.reconcile(0));
    assert!(state.reconcile(2));
    assert_eq!(state.next_target(), None);
}

fn event(provider: u128) -> TraceEvent {
    TraceEvent {
        provider,
        opcode: EVENT_TRACE_TYPE_START,
        id: 1,
        version: 2,
        user_data: vec![1, 0, 0, 0, 42, 0, 0, 0, 9, 0, 0, 0],
        process_id_values: vec![None; 6],
        creation_time_values: vec![None; 2],
        order: ByteOrder::Little,
    }
}

#[test]
fn events_are_told_apart_by_their_provider() {
    assert_eq!(
        handle_event(&event(PROCESS_GUID)),
        MonitorAction::Process(EtwProcessAction::ApplyClassic(42))
    );
    let mut old = event(PROCESS_GUID);
    old.version = 1;
    assert_eq!(
        handle_event(&old),
        MonitorAction::Process(EtwProcessAction::ApplyClassic(1))
    );
    let mut named = event(PROCESS_GUID);
    named.process_id_values[1] = Some([77, 0, 0, 0, 0, 0, 0, 0]);
    assert_eq!(
        handle_event(&named),
        MonitorAction::Process(EtwProcessAction::ApplyClassic(77))
    );
    for provider in [
        MICROSOFT_WINDOWS_KERNEL_PROCESS_GUID,
        SYSTEM_PROCESS_PROVIDER_GUID,
    ] {
        let mut modern = event(provider);
        assert_eq!(
            handle_event(&modern),
            MonitorAction::Process(EtwProcessAction::Ignore)
        );
        modern.creation_time_values[1] = Some([100, 0, 0, 0, 0, 0, 0, 0]);
        assert_eq!(
            handle_event(&modern),
            MonitorAction::Process(EtwProcessAction::ApplyExact(ProcessKey {
                process_id: 1,
                creation_time: 100,
            }))
        );
        modern.id = 2;
        assert_eq!(
            handle_event(&modern),
            MonitorAction::Process(EtwProcessAction::RemoveExact(ProcessKey {
                process_id: 1,
                creation_time: 100,
            }))
        );
    }
    assert_eq!(process_id_properties()[0], "ProcessID");
    assert_eq!(creation_time_properties(), vec!["CreateTime", "CreationTime"]);
    assert_eq!(
        process_id_from_event_field(&vec![1, 2, 3], 0, ByteOrder::Little),
        None
    );
    let _ = handle_event(&event(EVENT_TRACE_GUID));
}
