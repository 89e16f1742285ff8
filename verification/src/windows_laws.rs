//! What holds of the Windows service: its life, its installation, its trace session, and the
//! policies that it reads.

use vstd::prelude::*;

use crate::bytes;
use crate::bytes::ByteOrder;
use crate::cgroup_laws;
use crate::classification;
use crate::classification::WindowOwner;
use crate::command;
use crate::command::{AppError, Command};
use crate::engine::ProcessKey;
use crate::etw;
use crate::etw::{
    EtwMonitor, EtwProcessAction, LostEventState, MonitorAction, MonitorStage, StartAction,
    StartEvent, StartFailure, StopSteps, TraceEvent, TraceProperties,
};
use crate::identity::ImageName;
use crate::install;
use crate::install::{InstallAction, InstallEvent, InstallStage, WindowsFailure};
use crate::packaging;
use crate::packaging::Task;
use crate::registry;
use crate::registry::{PolicyRule, PolicyValues, RawValue, RegistryError};
use crate::service::ServiceError;
use crate::service_control::{
    Service, ServiceAction, ServiceEvent, ServiceRequest, ServiceStage, ServiceStatus, StopRequest,
    StopState, Teardown,
};
use crate::text;
use crate::wide;

verus! {

/// The first request to stop signals the event, where there is one; any later one does nothing. An
/// event that is made known after a request is signaled at once.
pub proof fn law_first_request_signals(
    requesting: &mut StopState,
    publishing: &mut StopState,
    request: StopRequest,
    raw: isize,
    signal: Option<isize>,
)
    requires
        call_ensures(StopState::request_stop, (requesting,), request),
        call_ensures(StopState::publish_stop_event, (publishing, raw), signal),
    ensures
        final(requesting).requested,
        final(requesting).event_raw == old(requesting).event_raw,
        request.first <==> !old(requesting).requested,
        request.signal is Some <==> !old(requesting).requested && old(requesting).event_raw != 0,
        request.signal matches Some(event) ==> event == old(requesting).event_raw,
        final(publishing).event_raw == raw,
        final(publishing).requested == old(publishing).requested,
        signal is Some <==> old(publishing).requested,
        signal matches Some(event) ==> event == raw,
{
}

/// Only the control that stops the service is heeded, and only the first one is reported, as a stop
/// that is pending.
pub proof fn law_only_the_stop_control_is_heeded(
    service: &mut Service,
    control: u32,
    action: (Option<ServiceStatus>, Option<isize>),
)
    requires
        call_ensures(Service::service_control_handler, (service, control), action),
    ensures
        control != 1 ==> *final(service) == *old(service) && action.0 is None && action.1 is None,
        control == 1 ==> final(service).stop.requested && final(service).stage == old(service).stage
            && final(service).status_handle == old(service).status_handle,
        control == 1 ==> (action.0 is Some <==> !old(service).stop.requested && old(
            service).status_handle != 0),
        action.0 matches Some(status) ==> status.current_state == 3 && status.controls_accepted == 0
            && status.exit_code == 0,
        control == 1 ==> (action.1 is Some <==> !old(service).stop.requested && old(
            service).stop.event_raw != 0),
        action.1 matches Some(event) ==> event == old(service).stop.event_raw,
{
}

/// The service goes on, step by step, as long as each step succeeds: it registers, makes its stop
/// event, sets its own policy, makes the engine, starts the monitors, goes through the processes
/// and waits. A power monitor that does not start is gone without.
pub proof fn law_service_starts_step_by_step(
    service: &mut Service,
    event: ServiceEvent,
    action: ServiceAction,
)
    requires
        old(service).expects(event),
        call_ensures(Service::service_main, (service, event), action),
        !old(service).stop.requested,
    ensures
        event matches ServiceEvent::Registered { handle: Some(handle) } ==> action.request
            == ServiceRequest::CreateStopEvent && final(service).status_handle == handle,
        event matches ServiceEvent::Registered { handle: None } ==> action.request
            == ServiceRequest::End,
        event matches ServiceEvent::EventCreated { event: Ok(raw) } ==> action.request
            == ServiceRequest::ApplyOwnPolicy && final(service).stop.event_raw == raw,
        event is OwnPolicyApplied ==> action.request == ServiceRequest::CreateEngine,
        event matches ServiceEvent::EngineCreated { created } ==> action.request == if created {
            ServiceRequest::StartPowerMonitor
        } else {
            ServiceRequest::End
        },
        event is PowerMonitorStarted ==> action.request == ServiceRequest::StartTraceMonitor,
        event matches ServiceEvent::TraceMonitorStarted { started: true } ==> action.request
            == ServiceRequest::Reconcile,
        event matches ServiceEvent::Reconciled { done: true } ==> action.request
            == ServiceRequest::WaitForStop,
        event is StopSignaled ==> action.request is TakeDown,
        event is TakenDown ==> action.request == ServiceRequest::End,
        action.signal is None,
{
}

/// Whatever is taken down is what was started: the engine always, the trace monitor once it was
/// started, and the power monitor where it had started.
pub proof fn law_service_takes_down_what_it_started(
    power: &mut Service,
    trace: &mut Service,
    last: &mut Service,
    power_started: bool,
    trace_started: bool,
    done: bool,
    first: ServiceAction,
    second: ServiceAction,
    third: ServiceAction,
)
    requires
        old(power).stage == ServiceStage::StartingPowerMonitor,
        call_ensures(
            Service::service_main,
            (power, ServiceEvent::PowerMonitorStarted { started: power_started }),
            first,
        ),
        *old(trace) == *final(power),
        call_ensures(
            Service::service_main,
            (trace, ServiceEvent::TraceMonitorStarted { started: trace_started }),
            second,
        ),
        *old(last) == *final(trace),
        trace_started ==> call_ensures(
            Service::service_main,
            (last, ServiceEvent::Reconciled { done }),
            third,
        ),
    ensures
        !trace_started ==> second.request == ServiceRequest::TakeDown(
            Teardown { trace_monitor: false, power_monitor: power_started, engine: true },
        ),
        trace_started && !done ==> third.request == ServiceRequest::TakeDown(
            Teardown { trace_monitor: true, power_monitor: power_started, engine: true },
        ),
        trace_started && done && old(last).stop.requested ==> third.request
            == ServiceRequest::TakeDown(
            Teardown { trace_monitor: true, power_monitor: power_started, engine: true },
        ),
{
}

/// What the service reports: that it starts when it has registered, that it runs when it waits, that
/// it stops, and at its end that it has stopped, with the code of what failed. Asked to stop, it
/// reports neither that it starts nor that it runs.
pub proof fn law_service_reports_its_state(
    service: &mut Service,
    event: ServiceEvent,
    action: ServiceAction,
)
    requires
        old(service).expects(event),
        call_ensures(Service::service_main, (service, event), action),
    ensures
        action.report matches Some(status) ==> {
            &&& status.current_state == 2 || status.current_state == 4 ==> !old(service).stop.requested
            &&& status.current_state == 4 <==> action.request == ServiceRequest::WaitForStop
            &&& status.current_state == 4 <==> status.controls_accepted == 1
            &&& status.current_state == 2 <==> action.request == ServiceRequest::CreateStopEvent
            &&& status.current_state == 3 <==> action.request is TakeDown
            &&& status.current_state == 1 <==> action.request == ServiceRequest::End
        },
        old(service).stop.requested ==> action.request != ServiceRequest::WaitForStop,
        event matches ServiceEvent::EventCreated { event: Err(code) } ==> (action.report matches Some(
            status,
        ) ==> status.current_state == 1 && status.exit_code == code),
        event matches ServiceEvent::EngineCreated { created: false } ==> (
        action.report matches Some(status) ==> status.exit_code == 1),
        old(service).stage matches ServiceStage::Ending { exit_code } ==> (
        action.report matches Some(status) ==> status.exit_code == exit_code),
        old(service).status_handle != 0 && action.request == ServiceRequest::End && !(
        event is Registered) ==> action.report is Some,
{
}

/// A service that was asked to stop before its event was made signals the event and ends.
pub proof fn law_early_stop_ends_the_service(
    service: &mut Service,
    raw: isize,
    action: ServiceAction,
)
    requires
        old(service).stage == ServiceStage::CreatingEvent,
        old(service).stop.requested,
        call_ensures(
            Service::service_main,
            (service, ServiceEvent::EventCreated { event: Ok(raw) }),
            action,
        ),
    ensures
        action.signal == Some(raw),
        action.request == ServiceRequest::End,
        action.report matches Some(status) ==> status.current_state == 1 && status.exit_code == 0,
{
}

/// The first of the values that was found.
pub open spec fn is_first_value(values: Seq<Option<[u8; 8]>>, k: int) -> bool {
    0 <= k < values.len() && values[k] is Some && forall|i: int|
        0 <= i < k ==> (#[trigger] values[i]) is None
}

proof fn lemma_first_value(values: Seq<Option<[u8; 8]>>)
    ensures
        forall|k: int| #[trigger] is_first_value(values, k) ==> etw::first_found(values)
            == values[k],
        (forall|k: int| 0 <= k < values.len() ==> (#[trigger] values[k]) is None)
            ==> etw::first_found(values) is None,
    decreases values.len(),
{
    if values.len() > 0 {
        let rest = values.drop_first();
        lemma_first_value(rest);
        assert forall|k: int| #[trigger] is_first_value(values, k) implies etw::first_found(values)
            == values[k] by {
            if k > 0 {
                assert(values[0] is None);
                assert(is_first_value(rest, k - 1)) by {
                    assert forall|i: int| 0 <= i < k - 1 implies (#[trigger] rest[i]) is None by {
                        assert(rest[i] == values[i + 1]);
                    }
                }
            }
        }
        if forall|k: int| 0 <= k < values.len() ==> (#[trigger] values[k]) is None {
            assert(values[0] is None);
            assert forall|k: int| 0 <= k < rest.len() implies (#[trigger] rest[k]) is None by {
                assert(rest[k] == values[k + 1]);
            }
        }
    }
}

/// A process is known by the first of its named values or, where none is named, by the data of the
/// event: at its beginning or, in a classic event of version 2 and later, four bytes on.
pub proof fn law_events_name_processes(
    event: &TraceEvent,
    k: int,
    classic: Option<u32>,
    modern: Option<ProcessKey>,
)
    requires
        call_ensures(TraceEvent::process_id_from_classic_event, (event,), classic),
        call_ensures(TraceEvent::process_key_from_modern_event, (event,), modern),
        is_first_value(event.process_id_values@, k) || forall|i: int|
            0 <= i < event.process_id_values@.len() ==> (
            #[trigger] event.process_id_values@[i]) is None,
    ensures
        is_first_value(event.process_id_values@, k) ==> (classic matches Some(pid) && pid
            == cgroup_laws::word_value(event.process_id_values@[k]->0@, 0, event.order)) && (
        modern matches Some(key) ==> key.process_id == cgroup_laws::word_value(
            event.process_id_values@[k]->0@,
            0,
            event.order,
        )),
        !is_first_value(event.process_id_values@, k) ==> {
            let at = if event.version >= 2 {
                4int
            } else {
                0int
            };
            &&& classic is Some <==> event.user_data@.len() >= at + 4
            &&& classic matches Some(pid) ==> pid == cgroup_laws::word_value(
                event.user_data@,
                at,
                event.order,
            )
            &&& modern matches Some(key) ==> event.user_data@.len() >= 4 && key.process_id
                == cgroup_laws::word_value(event.user_data@, 0, event.order)
        },
        (forall|i: int|
            0 <= i < event.creation_time_values@.len() ==> (
            #[trigger] event.creation_time_values@[i]) is None) ==> modern is None,
{
    lemma_first_value(event.process_id_values@);
    lemma_first_value(event.creation_time_values@);
    if is_first_value(event.process_id_values@, k) {
        let value = event.process_id_values@[k]->0;
        assert(value@.len() == 8);
    }
}

/// What an event asks for depends on who sent it. A classic event names a process by its number: one
/// that starts, or that ran before the session, is looked at, and none is ended. A modern event
/// names an instance: one that starts is looked at, and one that ends is removed. An event about the
/// session asks for the number of lost events, and any other event for nothing.
pub proof fn law_senders_decide_about_events(
    event: &TraceEvent,
    action: MonitorAction,
    classic: Option<u32>,
    modern: Option<ProcessKey>,
)
    requires
        call_ensures(etw::handle_event, (event,), action),
        call_ensures(TraceEvent::process_id_from_classic_event, (event,), classic),
        call_ensures(TraceEvent::process_key_from_modern_event, (event,), modern),
    ensures
        ({
            let is_classic = event.provider == 0x3d6fa8d0_fe05_11d0_9dda_00c04fd7ba7cu128;
            let is_modern = event.provider == 0x22fb2cd6_0e7b_422b_a0c7_2fad1fd0e716u128
                || event.provider == 0x151f55dc_467d_471f_83b5_5f889d46ff66u128;
            let is_session = event.provider == 0x68fdd900_4a3e_11d1_84f4_0000f80464e3u128;
            &&& is_classic ==> action == MonitorAction::Process(
                if (event.opcode == 1 || event.opcode == 3) && classic is Some {
                    EtwProcessAction::ApplyClassic(classic->0)
                } else {
                    EtwProcessAction::Ignore
                },
            )
            &&& is_modern ==> action == MonitorAction::Process(
                if event.id == 1 && modern is Some {
                    EtwProcessAction::ApplyExact(modern->0)
                } else if event.id == 2 && modern is Some {
                    EtwProcessAction::RemoveExact(modern->0)
                } else {
                    EtwProcessAction::Ignore
                },
            )
            &&& is_session ==> action == MonitorAction::QueryLostEvents
            &&& !is_classic && !is_modern && !is_session ==> action == MonitorAction::Process(
                EtwProcessAction::Ignore,
            )
        }),
{
}

/// Events are routed by their number alone, and only where they name a process.
pub proof fn law_events_are_routed(
    opcode: u8,
    process_id: Option<u32>,
    classic: EtwProcessAction,
    id: u16,
    key: Option<ProcessKey>,
    modern: EtwProcessAction,
)
    requires
        call_ensures(etw::route_classic_process_event, (opcode, process_id), classic),
        call_ensures(etw::route_modern_process_event, (id, key), modern),
    ensures
        classic is ApplyClassic <==> process_id is Some && (opcode == 1 || opcode == 3),
        classic matches EtwProcessAction::ApplyClassic(pid) ==> process_id == Some(pid),
        classic is ApplyClassic || classic is Ignore,
        modern is ApplyExact <==> key is Some && id == 1,
        modern is RemoveExact <==> key is Some && id == 2,
        modern matches EtwProcessAction::ApplyExact(applied) ==> key == Some(applied),
        modern matches EtwProcessAction::RemoveExact(removed) ==> key == Some(removed),
        !(modern is ApplyClassic),
{
}

/// No lost event is passed over: after a report that is taken, the owner goes through the processes
/// up to it, and rests only when nothing that was reported is left.
pub proof fn law_no_report_is_passed_over(
    reporting: &mut LostEventState,
    asking: &mut LostEventState,
    completing: &mut LostEventState,
    lost: u32,
    owner: bool,
    target: Option<u32>,
    done: u32,
)
    requires
        call_ensures(LostEventState::reconcile, (reporting, lost), owner),
        call_ensures(LostEventState::next_target, (asking,), target),
        call_ensures(LostEventState::target_reconciled, (completing, done), ()),
    ensures
        owner <==> lost != 0 && !old(reporting).reconciling,
        lost != 0 ==> final(reporting).reconciling && final(reporting).observed >= lost && final(reporting).observed >= old(reporting).observed && (final(reporting).observed == lost || final(reporting).observed == old(reporting).observed),
        lost == 0 ==> *final(reporting) == *old(reporting),
        final(reporting).reconciled == old(reporting).reconciled,
        target is Some <==> old(asking).observed > old(asking).reconciled,
        target matches Some(up_to) ==> up_to == old(asking).observed && *final(asking) == *old(asking),
        target is None ==> !final(asking).reconciling,
        final(completing).reconciled >= done && final(completing).reconciled >= old(completing).reconciled,
        final(completing).reconciled == done || final(completing).reconciled == old(completing).reconciled,
        final(completing).observed == old(completing).observed,
{
}

/// How many events were lost is known only where the session could be asked.
pub proof fn law_unanswered_query_tells_nothing(status: u32, lost: u32, reported: Option<u32>)
    requires
        call_ensures(etw::reported_events_lost, (status, lost), reported),
    ensures
        status == 0 ==> reported == Some(lost),
        status != 0 ==> reported is None,
{
}

/// A session is set up in order: it is started, its provider is enabled, its trace is opened, and
/// its worker is started.
pub proof fn law_session_is_set_up_in_order(
    monitor: &mut EtwMonitor,
    event: StartEvent,
    action: StartAction,
)
    requires
        old(monitor).stage.expects(event),
        call_ensures(EtwMonitor::start_with_api, (monitor, event), action),
    ensures
        event matches StartEvent::Started { status: 0, session } ==> action == (
        StartAction::EnableProvider { session }) && final(monitor).stage == (
        MonitorStage::Enabling { session }),
        event matches StartEvent::Enabled { status: 0 } ==> action == StartAction::OpenTrace && (old(monitor).stage matches MonitorStage::Enabling { session } ==> final(monitor).stage == (
        MonitorStage::Opening { session })),
        event matches StartEvent::Opened { trace, .. } ==> (trace != u64::MAX ==> action == (
        StartAction::SpawnWorker { trace }) && (old(monitor).stage matches MonitorStage::Opening { session } ==> final(monitor).stage == (
        MonitorStage::Spawning { session, trace }))),
        event matches StartEvent::Spawned { failure: None } ==> action == StartAction::Monitor && (
        old(monitor).stage matches MonitorStage::Spawning { session, trace } ==> final(monitor).stage == (MonitorStage::Running { session, trace, closed: false })),
{
}

/// A set-up that fails takes down what stands, the trace before the session, and is told as the
/// failure that it was.
pub proof fn law_failed_set_up_is_taken_down(
    monitor: &mut EtwMonitor,
    event: StartEvent,
    action: StartAction,
)
    requires
        old(monitor).stage.expects(event),
        call_ensures(EtwMonitor::start_with_api, (monitor, event), action),
    ensures
        event matches StartEvent::Started { status, .. } ==> (status != 0 ==> action
            == StartAction::Fail(StartFailure::Start(status))),
        event matches StartEvent::Enabled { status } ==> (status != 0 ==> (old(monitor).stage matches MonitorStage::Enabling { session } ==> action == (StartAction::StopTrace {
            session,
        }) && final(monitor).stage == (MonitorStage::Stopping {
            failure: StartFailure::Enable(status),
        }))),
        event matches StartEvent::Opened { trace, code } ==> (trace == u64::MAX ==> (old(
            monitor).stage matches MonitorStage::Opening { session } ==> action == (
        StartAction::StopTrace { session }) && final(monitor).stage == (MonitorStage::Stopping {
            failure: StartFailure::Open(code),
        }))),
        event matches StartEvent::Spawned { failure: Some(code) } ==> (old(monitor).stage matches MonitorStage::Spawning { session, trace } ==> action == (
        StartAction::CloseTrace { trace }) && final(monitor).stage == (MonitorStage::Closing {
            session,
            failure: StartFailure::Spawn(code),
        })),
        old(monitor).stage matches MonitorStage::Closing { session, failure } ==> action == (
        StartAction::StopTrace { session }) && final(monitor).stage == (MonitorStage::Stopping {
            failure,
        }),
        old(monitor).stage matches MonitorStage::Stopping { failure } ==> action
            == StartAction::Fail(failure) && final(monitor).stage == MonitorStage::Ended,
{
}

/// The trace of a running session is closed once: by whoever is first, or at the end, which stops
/// the session and waits for the worker.
pub proof fn law_trace_is_closed_once(
    closing: &mut EtwMonitor,
    again: &mut EtwMonitor,
    stopping: &mut EtwMonitor,
    session: u64,
    open: u64,
    first: Option<u64>,
    second: Option<u64>,
    steps: StopSteps,
)
    requires
        old(closing).stage == (MonitorStage::Running { session, trace: open, closed: false }),
        call_ensures(EtwMonitor::close, (closing,), first),
        *old(again) == *final(closing),
        call_ensures(EtwMonitor::close, (again,), second),
        *old(stopping) == *old(closing) || *old(stopping) == *final(closing),
        call_ensures(EtwMonitor::stop, (stopping,), steps),
    ensures
        first == Some(open),
        second is None,
        steps.stop_session == Some(session),
        steps.join_worker,
        *old(stopping) == *old(closing) ==> steps.close_trace == Some(open),
        *old(stopping) == *final(closing) ==> steps.close_trace is None,
        final(stopping).stage == MonitorStage::Ended,
{
}

/// The error of Win32 in a failed call is the lower half of its code.
pub proof fn law_lower_half_is_the_error(code: i32, error: u32)
    requires
        call_ensures(install::source_win32_code, (code,), error),
    ensures
        error < 0x1_0000,
        (code - error) % 0x1_0000 == 0,
{
}

/// The installation finds what is there, stops it where it runs, deletes it, and only then creates
/// the service and describes it.
pub proof fn law_installation_replaces_the_service(
    stage: InstallStage,
    event: InstallEvent,
    step: (InstallStage, InstallAction),
)
    requires
        install::expects(stage, event),
        call_ensures(install::install_service, (stage, event), step),
    ensures
        stage == InstallStage::OpeningManager && event is Done ==> step == (
            InstallStage::FindingService,
            InstallAction::FindService,
        ),
        stage == InstallStage::FindingService && event is Done ==> step == (
            InstallStage::QueryingService,
            InstallAction::QueryService,
        ),
        stage == InstallStage::QueryingService ==> (event matches InstallEvent::State {
            state,
            ..
        } ==> step == if state == 1 {
            (InstallStage::DeletingService, InstallAction::DeleteService)
        } else {
            (InstallStage::StoppingService, InstallAction::StopService)
        }),
        stage == InstallStage::StoppingService && event is Done ==> step == (
            InstallStage::WaitingForStop,
            InstallAction::PollService { pause: false },
        ),
        stage == InstallStage::WaitingForStop ==> (event matches InstallEvent::State {
            state,
            expired,
        } ==> (state == 1 ==> step == (
            InstallStage::DeletingService,
            InstallAction::DeleteService,
        )) && (state != 1 && !expired ==> step == (
            InstallStage::WaitingForStop,
            InstallAction::PollService { pause: true },
        )) && (state != 1 && expired ==> step.0 == InstallStage::Ended && step.1 is Fail)),
        stage == InstallStage::DeletingService && event is Done ==> step == (
            InstallStage::WaitingForDeletion,
            InstallAction::PollDeletion { pause: false },
        ),
        event matches InstallEvent::Present { expired } ==> (!expired ==> step == (
            InstallStage::WaitingForDeletion,
            InstallAction::PollDeletion { pause: true },
        )) && (expired ==> step.0 == InstallStage::Ended && step.1 is Fail),
        stage == InstallStage::CreatingService && event is Done ==> step == (
            InstallStage::DescribingService,
            InstallAction::DescribeService,
        ),
        stage == InstallStage::DescribingService && event is Done ==> step == (
            InstallStage::Ended,
            InstallAction::Installed,
        ),
{
}

/// What a failure means to the installation: that no service is there where one is looked for, that
/// the service does not run where it is stopped, and that it is deleted already where it is deleted.
/// Any other failure ends the installation, except where the service is stopped.
pub proof fn law_failures_that_do_not_end_the_installation(
    stage: InstallStage,
    event: InstallEvent,
    step: (InstallStage, InstallAction),
    code: u32,
)
    requires
        install::expects(stage, event),
        call_ensures(install::install_service, (stage, event), step),
        event matches InstallEvent::Failed(failure) ==> call_ensures(
            install::source_win32_code,
            (failure.code,),
            code,
        ),
        event matches InstallEvent::Absent { failure, .. } ==> call_ensures(
            install::source_win32_code,
            (failure.code,),
            code,
        ),
    ensures
        event is Failed && stage == InstallStage::FindingService ==> (code == 1060 ==> step == (
            InstallStage::CreatingService,
            InstallAction::CreateService,
        )) && (code != 1060 ==> step.0 == InstallStage::Ended && step.1 is Fail),
        event is Failed && stage == InstallStage::StoppingService ==> step == if code == 1062 {
            (InstallStage::DeletingService, InstallAction::DeleteService)
        } else {
            (InstallStage::WaitingForStop, InstallAction::PollService { pause: false })
        },
        event is Failed && stage == InstallStage::DeletingService ==> (code == 1072 ==> step == (
            InstallStage::WaitingForDeletion,
            InstallAction::PollDeletion { pause: false },
        )) && (code != 1072 ==> step.0 == InstallStage::Ended && step.1 is Fail),
        event matches InstallEvent::Absent { expired, .. } ==> (code == 1060 ==> step == (
            InstallStage::CreatingService,
            InstallAction::CreateService,
        )) && (code != 1060 && code != 1072 ==> step.0 == InstallStage::Ended && step.1 is Fail) && (
        code == 1072 && expired ==> step.0 == InstallStage::Ended && step.1 is Fail) && (code == 1072
            && !expired ==> step == (
            InstallStage::WaitingForDeletion,
            InstallAction::PollDeletion { pause: true },
        )),
        event is Failed && stage != InstallStage::FindingService && stage
            != InstallStage::StoppingService && stage != InstallStage::DeletingService ==> step.0
            == InstallStage::Ended && step.1 is Fail,
{
}

/// The name of a key is the name of the image, which must not be empty, hold a separator or a zero,
/// or be longer than a key may be.
pub proof fn law_key_is_named_after_the_image(
    image: &ImageName,
    name: Result<String, RegistryError>,
    units: Seq<u16>,
)
    requires
        call_ensures(registry::image_subkey, (image,), name),
        units == wide::units(image@),
    ensures
        name matches Ok(name) ==> name@ == image@,
        name is Ok <==> image@.len() > 0 && !image@.contains('\\') && !image@.contains('/')
            && !image@.contains('\0') && units.len() <= 255,
{
}

/// A value that is a text is read unit by unit, the low byte first, without one zero at its end. A
/// value of another type, of an odd length, too long, with a zero inside or with ill-formed units is
/// refused.
pub proof fn law_values_are_read_as_text(
    value: &Result<Option<RawValue>, String>,
    name: &str,
    read: Result<Option<String>, RegistryError>,
    units: Seq<u16>,
)
    requires
        call_ensures(registry::optional_string, (value, name), read),
        *value matches Ok(Some(raw)) ==> units.len() == raw.bytes@.len() / 2 && forall|i: int|
            0 <= i < units.len() ==> (#[trigger] units[i]) == raw.bytes@[2 * i] + 256 * raw.bytes@[2
                * i + 1],
    ensures
        *value matches Ok(None) ==> read matches Ok(None),
        *value is Err ==> read is Err,
        *value matches Ok(Some(raw)) ==> {
            let kept = if units.len() > 0 && units.last() == 0 {
                units.drop_last()
            } else {
                units
            };
            &&& !raw.is_text || raw.bytes@.len() > 8192 || raw.bytes@.len() % 2 == 1 || kept.contains(
                0,
            ) ==> read is Err
            &&& !(read matches Ok(None))
            &&& read matches Ok(Some(found)) ==> wide::decoded(kept) == Some(found@)
            &&& raw.is_text && raw.bytes@.len() <= 8192 && raw.bytes@.len() % 2 == 0
                && !kept.contains(0) && wide::decoded(kept) is Some ==> read is Ok
        },
{
    if let Ok(Some(raw)) = *value {
        let own = registry::value_units(raw.bytes@);
        assert(own =~= units) by {
            assert forall|i: int| 0 <= i < units.len() implies own[i] == #[trigger] units[i] by {}
        }
    }
}

/// The policy of an image is the rule that the two values of its key make, where the key and both
/// values can be read. No key means no policy.
pub proof fn law_key_makes_the_policy(
    image: &ImageName,
    key: &Result<Option<PolicyValues>, String>,
    policy: Result<Option<PolicyRule>, RegistryError>,
    name: Result<String, RegistryError>,
)
    requires
        call_ensures(registry::get_policy, (image, key), policy),
        call_ensures(registry::image_subkey, (image,), name),
    ensures
        name is Err || *key is Err ==> policy is Err,
        name is Ok && (*key matches Ok(None)) ==> policy matches Ok(None),
        policy matches Ok(Some(rule)) ==> rule.image_name@ == image@ && (*key matches Ok(Some(_))),
        *key matches Ok(Some(_)) ==> !(policy matches Ok(None)),
        *key matches Ok(Some(values)) ==> forall|
            mode: Result<Option<String>, RegistryError>,
            source: Result<Option<String>, RegistryError>,
        |
            #![trigger call_ensures(registry::optional_string, (&values.mode, "Mode"), mode),
                call_ensures(registry::optional_string, (&values.affinity, "Affinity"), source)]
            call_ensures(registry::optional_string, (&values.mode, "Mode"), mode) && call_ensures(
                registry::optional_string,
                (&values.affinity, "Affinity"),
                source,
            ) ==> {
                &&& mode is Err || source is Err ==> policy is Err
                &&& policy matches Ok(Some(rule)) ==> (mode matches Ok(None) ==> rule.mode is None)
                &&& policy matches Ok(Some(rule)) ==> (mode matches Ok(Some(_)) ==> rule.mode is Some)
                &&& policy matches Ok(Some(rule)) ==> (source matches Ok(Some(_))
                    ==> rule.affinity is Some)
            },
{
}

/// The program serves without arguments, installs and prints diagnostics where it is asked for that
/// alone, and refuses anything else.
pub proof fn law_arguments_ask_for_commands(
    arguments: &Vec<String>,
    diagnostics: bool,
    asked: Result<Command, AppError>,
)
    requires
        call_ensures(command::run, (arguments, diagnostics), asked),
    ensures
        (asked matches Ok(Command::Serve)) <==> arguments@.len() == 0,
        (asked matches Ok(Command::Install)) <==> arguments@.len() == 1 && arguments@[0]@
            == "install"@,
        (asked matches Ok(Command::Diagnostics)) <==> diagnostics && arguments@.len() == 1
            && arguments@[0]@ == "diagnostics"@,
{
    let views = text::views(arguments@);
    assert(views.len() == arguments@.len());
    if arguments@.len() > 0 {
        assert(views[0] == arguments@[0]@);
    }
    reveal_strlit("install");
    reveal_strlit("diagnostics");
    assert("install"@.len() != "diagnostics"@.len());
    if let Err(error) = asked {
        assert(!command::asks_for(views, Command::Serve, diagnostics));
        assert(!command::asks_for(views, Command::Install, diagnostics));
        assert(!command::asks_for(views, Command::Diagnostics, diagnostics));
    }
}

/// The packaging task makes the installer where it is asked for that, and helps where it is asked
/// for help or for nothing.
pub proof fn law_arguments_ask_for_tasks(asked: Option<&str>, task: Result<Task, String>)
    requires
        call_ensures(packaging::task, (asked,), task),
    ensures
        asked is None ==> task matches Ok(Task::Help),
        asked matches Some(word) ==> {
            &&& (task matches Ok(Task::PackageMsi)) <==> word@ == "package-msi"@
            &&& (task matches Ok(Task::Help)) <==> word@ == "help"@ || word@ == "-h"@ || word@
                == "--help"@
        },
{
    reveal_strlit("package-msi");
    reveal_strlit("help");
    reveal_strlit("-h");
    reveal_strlit("--help");
    assert("package-msi"@.len() == 11 && "help"@.len() == 4 && "-h"@.len() == 2 && "--help"@.len()
        == 6);
}

/// A process has a visible window where one of the windows is visible and belongs to it.
pub proof fn law_windows_belong_to_processes(
    windows: &Vec<WindowOwner>,
    process_id: u32,
    found: bool,
    i: int,
)
    requires
        call_ensures(classification::has_visible_window, (windows, process_id), found),
    ensures
        0 <= i < windows@.len() && windows@[i].visible && windows@[i].process_id == process_id
            ==> found,
        found ==> exists|k: int|
            0 <= k < windows@.len() && (#[trigger] windows@[k]).visible && windows@[k].process_id
                == process_id,
{
    assert(found == classification::owns_visible_window(windows@, process_id));
}

/// The packaging tools are new enough where the options that are needed stand in what they print, and
/// where the version begins with a number that is supported.
pub proof fn law_tools_are_known_by_what_they_print(
    help: &str,
    init_help: &str,
    version: &str,
    number: String,
    modern: Result<(), String>,
    supported: Result<(), String>,
    fronts: (Seq<char>, Seq<char>, Seq<char>),
    backs: (Seq<char>, Seq<char>, Seq<char>),
)
    requires
        call_ensures(packaging::ensure_modern_cargo_wix, (help, init_help), modern),
        call_ensures(packaging::ensure_wix_cli, (version,), supported),
        call_ensures(text::trimmed, (version,), number),
    ensures
        help@ == fronts.0 + "--toolset <toolset>"@ + backs.0 && help@ == fronts.1
            + "--migrate <migrate>"@ + backs.1 && init_help@ == fronts.2 + "--schema <schema>"@
            + backs.2 ==> modern is Ok,
        init_help@.len() < "--schema <schema>"@.len() || help@.len() < "--toolset <toolset>"@.len()
            ==> modern is Err,
        supported is Ok <==> number@.len() > 0 && '4' <= number@[0] <= '7',
{
    let t = "--toolset <toolset>"@;
    let m = "--migrate <migrate>"@;
    let s = "--schema <schema>"@;
    if help@ == fronts.0 + t + backs.0 && help@ == fronts.1 + m + backs.1 && init_help@ == fronts.2
        + s + backs.2 {
        assert(help@.subrange(fronts.0.len() as int, (fronts.0.len() + t.len()) as int) =~= t);
        assert(help@.subrange(fronts.1.len() as int, (fronts.1.len() + m.len()) as int) =~= m);
        assert(init_help@.subrange(fronts.2.len() as int, (fronts.2.len() + s.len()) as int) =~= s);
        assert(text::occurs_at(help@, t, fronts.0.len() as int));
        assert(text::occurs_at(help@, m, fronts.1.len() as int));
        assert(text::occurs_at(init_help@, s, fronts.2.len() as int));
    }
}

/// A status is reported where the service is registered, and as it is.
pub proof fn law_registered_service_reports(
    service: &Service,
    status: ServiceStatus,
    report: Option<ServiceStatus>,
)
    requires
        call_ensures(Service::report_service_status, (service, status), report),
    ensures
        service.status_handle == 0 ==> report is None,
        service.status_handle != 0 ==> report == Some(status),
{
}

/// A service that cannot go on ends with the code one, a stopped one with zero, and the code that it
/// ends with is the one that it reports at last.
pub proof fn law_service_ends_with_its_failure(
    service: &mut Service,
    event: ServiceEvent,
    action: ServiceAction,
    ending: &mut Service,
    last: ServiceAction,
)
    requires
        old(service).expects(event),
        call_ensures(Service::service_main, (service, event), action),
        *old(ending) == *final(service),
        action.request is TakeDown,
        call_ensures(Service::service_main, (ending, ServiceEvent::TakenDown), last),
        old(service).status_handle != 0,
    ensures
        last.request == ServiceRequest::End,
        last.report is Some,
        last.report->0.current_state == 1,
        last.report->0.exit_code == if event == (ServiceEvent::TraceMonitorStarted { started: false })
            || event == (ServiceEvent::Reconciled { done: false }) {
            1u32
        } else {
            0u32
        },
        final(ending).status_handle == 0,
        final(ending).stop.event_raw == 0,
{
}

/// What runs is taken down when the stop is signaled, and the states of a registered service are
/// reported: that it starts, that it runs, that it stops.
pub proof fn law_registered_service_tells_its_states(
    service: &mut Service,
    event: ServiceEvent,
    action: ServiceAction,
)
    requires
        old(service).expects(event),
        call_ensures(Service::service_main, (service, event), action),
        old(service).status_handle != 0,
    ensures
        old(service).stage matches ServiceStage::Waiting { power } ==> action.request
            == ServiceRequest::TakeDown(
            Teardown { trace_monitor: true, power_monitor: power, engine: true },
        ) && action.report is Some && action.report->0.current_state == 3
            && action.report->0.checkpoint == 1 && action.report->0.wait_hint == 10000,
        old(service).stage matches ServiceStage::Reconciling { power } ==> (event == (
        ServiceEvent::Reconciled { done: true }) && !old(service).stop.requested ==> final(
            service).stage == (ServiceStage::Waiting { power }) && action.report is Some
            && action.report->0.current_state == 4 && action.report->0.checkpoint == 0
            && action.report->0.wait_hint == 0 && action.report->0.exit_code == 0),
        old(service).stage matches ServiceStage::Reconciling { power } ==> (event == (
        ServiceEvent::Reconciled { done: true }) && old(service).stop.requested
            ==> action.report is Some && action.report->0.current_state == 3),
        event matches ServiceEvent::Registered { handle: Some(handle) } ==> (!old(
            service).stop.requested && handle != 0 ==> action.report is Some
            && action.report->0.current_state == 2 && action.report->0.checkpoint == 1
            && action.report->0.wait_hint == 20000 && action.report->0.exit_code == 0),
        !(event is Registered) && !(event is Reconciled) && !(event is StopSignaled)
            && action.request != ServiceRequest::End ==> action.report is None,
{
}

/// A step that fails is named in the error, together with what the system said.
pub proof fn law_failed_step_is_named(
    stage: InstallStage,
    failure: WindowsFailure,
    step: (InstallStage, InstallAction),
    absent: (InstallStage, InstallAction),
    expired: bool,
)
    requires
        install::expects(stage, InstallEvent::Failed(failure)),
        call_ensures(install::install_service, (stage, InstallEvent::Failed(failure)), step),
        call_ensures(
            install::install_service,
            (InstallStage::WaitingForDeletion, InstallEvent::Absent { failure, expired }),
            absent,
        ),
    ensures
        step.1 matches InstallAction::Fail(error) ==> (error matches ServiceError::Windows {
            operation,
            source,
        } && source@ == failure.message@ && operation@ == match stage {
            InstallStage::OpeningManager => "OpenSCManagerW"@,
            InstallStage::FindingService => "OpenServiceW"@,
            InstallStage::DeletingService => "DeleteService"@,
            InstallStage::CreatingService => "CreateServiceW(affix)"@,
            InstallStage::DescribingService => "ChangeServiceConfig2W(SERVICE_CONFIG_DESCRIPTION)"@,
            _ => "QueryServiceStatus"@,
        }),
        absent.1 matches InstallAction::Fail(error) ==> (error matches ServiceError::Windows {
            operation,
            source,
        } ==> source@ == failure.message@ && operation@ == "OpenServiceW(wait deleted)"@),
        absent.1 matches InstallAction::Fail(error) ==> (error matches ServiceError::Install(words)
            ==> words@ == "service remained present after DeleteService"@),
{
}

/// The properties of a session stand in memory each in its place: the size first, then the GUID, then
/// the numbers, then where the name stands, and the name behind all of them. What is told in return
/// is not set.
pub proof fn law_properties_stand_in_their_places(
    properties: &TraceProperties,
    name: &Vec<u16>,
    order: ByteOrder,
    memory: Vec<u8>,
    lost: Option<u32>,
)
    requires
        name@.len() <= 0x7000_0000,
        call_ensures(TraceProperties::memory, (properties, name, order), memory),
        call_ensures(TraceProperties::events_lost, (&memory, order), lost),
    ensures
        memory@.len() == 120 + 2 * name@.len(),
        cgroup_laws::word_value(memory@, 0, order) == memory@.len(),
        cgroup_laws::word_value(memory@, 40, order) == properties.client_context,
        cgroup_laws::word_value(memory@, 44, order) == properties.flags,
        cgroup_laws::word_value(memory@, 48, order) == properties.buffer_size,
        cgroup_laws::word_value(memory@, 52, order) == properties.minimum_buffers,
        cgroup_laws::word_value(memory@, 56, order) == properties.maximum_buffers,
        cgroup_laws::word_value(memory@, 60, order) == 0,
        cgroup_laws::word_value(memory@, 64, order) == properties.log_file_mode,
        cgroup_laws::word_value(memory@, 68, order) == properties.flush_timer,
        cgroup_laws::word_value(memory@, 72, order) == properties.enable_flags,
        lost == Some(0u32),
{
    let size = (120 + 2 * name@.len()) as u32;
    let head = properties.head(size);
    let tail = properties.tail();
    let guid = etw::guid_bytes(properties.guid, order);
    let text = bytes::words_16(name@, order);
    bytes::lemma_words_16_length(name@, order);
    etw::law_properties_tell_their_size(*properties, name@, order);
    assert(memory@ == bytes::words_32(head, order) + guid + bytes::words_32(tail, order) + text);
    lemma_tail_word(head, guid, tail, text, order, 0);
    lemma_tail_word(head, guid, tail, text, order, 1);
    lemma_tail_word(head, guid, tail, text, order, 2);
    lemma_tail_word(head, guid, tail, text, order, 3);
    lemma_tail_word(head, guid, tail, text, order, 4);
    lemma_tail_word(head, guid, tail, text, order, 5);
    lemma_tail_word(head, guid, tail, text, order, 6);
    lemma_tail_word(head, guid, tail, text, order, 7);
    lemma_tail_word(head, guid, tail, text, order, 8);
    lemma_tail_word(head, guid, tail, text, order, 12);
}

proof fn lemma_tail_word(
    head: Seq<u32>,
    guid: Seq<u8>,
    tail: Seq<u32>,
    text: Seq<u8>,
    order: ByteOrder,
    k: int,
)
    requires
        head.len() == 6,
        guid.len() == 16,
        0 <= k < tail.len(),
    ensures
        ({
            let all = bytes::words_32(head, order) + guid + bytes::words_32(tail, order) + text;
            &&& bytes::u32_at(all, 40 + 4 * k, order) == tail[k]
            &&& cgroup_laws::word_value(all, 40 + 4 * k, order) == tail[k]
        }),
{
    let first = bytes::words_32(head, order);
    bytes::lemma_words_32(Seq::empty(), head, Seq::empty(), order);
    bytes::lemma_words_32(first + guid, tail, text, order);
    assert(tail[k] == tail[k]);
    assert((first + guid).len() == 40);
}

/// The GUID of a session stands behind the first six words, and its first part is a word.
pub proof fn law_guid_of_the_session_is_told(
    properties: &TraceProperties,
    name: &Vec<u16>,
    order: ByteOrder,
    memory: Vec<u8>,
)
    requires
        name@.len() <= 0x7000_0000,
        call_ensures(TraceProperties::memory, (properties, name, order), memory),
    ensures
        cgroup_laws::word_value(memory@, 24, order) == properties.guid
            / 0x1_0000_0000_0000_0000_0000_0000,
{
    let size = (120 + 2 * name@.len()) as u32;
    let head = bytes::words_32(properties.head(size), order);
    let tail = bytes::words_32(properties.tail(), order);
    let guid = etw::guid_bytes(properties.guid, order);
    let text = bytes::words_16(name@, order);
    bytes::lemma_words_32(Seq::empty(), properties.head(size), Seq::empty(), order);
    lemma_guid_bytes(properties.guid, order);
    lemma_stands_behind(head, guid, tail, text);
    assert(memory@ == head + guid + tail + text);
}

proof fn lemma_stands_behind(head: Seq<u8>, guid: Seq<u8>, tail: Seq<u8>, text: Seq<u8>)
    requires
        head.len() == 24,
        guid.len() == 16,
    ensures
        forall|i: int| 24 <= i < 40 ==> #[trigger] (head + guid + tail + text)[i] == guid[i - 24],
{
}

proof fn lemma_guid_bytes(guid: u128, order: ByteOrder)
    ensures
        etw::guid_bytes(guid, order).len() == 16,
        cgroup_laws::word_value(etw::guid_bytes(guid, order), 0, order) == guid
            / 0x1_0000_0000_0000_0000_0000_0000,
{
    let high = (guid / 0x1_0000_0000_0000_0000_0000_0000) as u32;
    assert(guid / 0x1_0000_0000_0000_0000_0000_0000 <= u32::MAX);
    assert(high == guid / 0x1_0000_0000_0000_0000_0000_0000);
    let word = bytes::u32_bytes(high, order);
    let all = etw::guid_bytes(guid, order);
    assert(all[0] == word[0] && all[1] == word[1] && all[2] == word[2] && all[3] == word[3]);
    let none = Seq::<u8>::empty();
    bytes::lemma_u32_round_trip(none, high, none, order);
    assert(none + word + none =~= word);
}

} // verus!
