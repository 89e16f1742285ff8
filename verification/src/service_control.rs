//! The life of the Windows service: how it starts, how it is stopped, and what it reports of itself.

use vstd::prelude::*;

verus! {

pub const SERVICE_NAME: &'static str = "affix";

pub const SERVICE_DISPLAY_NAME: &'static str = "Affix Process Monitor";

pub const SERVICE_DESCRIPTION: &'static str = "Enforces process affinity and efficiency policies.";

pub const SERVICE_CONTROL_STOP: u32 = 1;

pub const SERVICE_ACCEPT_STOP: u32 = 1;

pub const SERVICE_STOPPED: u32 = 1;

pub const SERVICE_START_PENDING: u32 = 2;

pub const SERVICE_STOP_PENDING: u32 = 3;

pub const SERVICE_RUNNING: u32 = 4;

pub const ERROR_SUCCESS: u32 = 0;

/// A request to stop, and the event that the service waits on for one.
#[derive(Clone, Copy, Debug, Eq, PartialEq, Structural)]
pub struct StopState {
    pub requested: bool,
    pub event_raw: isize,
}

/// What a request to stop asks for.
#[derive(Clone, Copy, Debug, Eq, PartialEq, Structural)]
pub struct StopRequest {
    pub first: bool,
    pub signal: Option<isize>,
}

impl StopState {
    pub open spec fn requesting(self) -> (StopState, StopRequest) {
        (
            StopState { requested: true, ..self },
            StopRequest {
                first: !self.requested,
                signal: if !self.requested && self.event_raw != 0 {
                    Some(self.event_raw)
                } else {
                    None
                },
            },
        )
    }

    pub open spec fn publishing(self, raw: isize) -> (StopState, Option<isize>) {
        (
            StopState { event_raw: raw, ..self },
            if self.requested {
                Some(raw)
            } else {
                None
            },
        )
    }

    /// Nobody asked the service to stop yet.
    pub fn new() -> (state: Self)
        ensures
            state == (StopState { requested: false, event_raw: 0 }),
    {
        StopState { requested: false, event_raw: 0 }
    }

    /// Asks the service to stop. The first request signals the event, if there is one already, and
    /// is reported.
    pub fn request_stop(&mut self) -> (request: StopRequest)
        ensures
            (*final(self), request) == old(self).requesting(),
    {
        let first = !self.requested;
        self.requested = true;
        let signal = if first && self.event_raw != 0 {
            Some(self.event_raw)
        } else {
            None
        };
        StopRequest { first, signal }
    }

    /// Makes the event known. Where the service was asked to stop before, the event has to be
    /// signaled now.
    pub fn publish_stop_event(&mut self, raw: isize) -> (signal: Option<isize>)
        ensures
            (*final(self), signal) == old(self).publishing(raw),
    {
        self.event_raw = raw;
        if self.requested {
            Some(raw)
        } else {
            None
        }
    }

    /// Whether a status that does not speak of stopping may be reported.
    pub fn publish_status_if_not_stopping(&self) -> (publish: bool)
        ensures
            publish == !self.requested,
    {
        !self.requested
    }

    pub fn reset_stop_state(&mut self)
        ensures
            *final(self) == (StopState { requested: false, event_raw: 0 }),
    {
        self.requested = false;
        self.event_raw = 0;
    }
}

/// A request to stop reaches the service exactly once, whether it comes before or after the event
/// is made known.
pub proof fn law_stop_reaches_the_service_once(state: StopState, raw: isize)
    requires
        !state.requested,
        state.event_raw == 0,
        raw != 0,
    ensures
        ({
            let (requested, early) = state.requesting();
            let (published, replayed) = requested.publishing(raw);
            let (_, again) = published.requesting();
            &&& early.first && early.signal is None
            &&& replayed == Some(raw)
            &&& !again.first && again.signal is None
        }),
        ({
            let (published, replayed) = state.publishing(raw);
            let (requested, late) = published.requesting();
            let (_, again) = requested.requesting();
            &&& replayed is None
            &&& late.first && late.signal == Some(raw)
            &&& !again.first && again.signal is None
        }),
{
}

/// What the service reports of itself.
#[derive(Clone, Copy, Debug, Eq, PartialEq, Structural)]
pub struct ServiceStatus {
    pub current_state: u32,
    pub controls_accepted: u32,
    pub checkpoint: u32,
    pub wait_hint: u32,
    pub exit_code: u32,
}

pub open spec fn start_pending() -> ServiceStatus {
    ServiceStatus {
        current_state: SERVICE_START_PENDING,
        controls_accepted: 0,
        checkpoint: 1,
        wait_hint: 20_000,
        exit_code: ERROR_SUCCESS,
    }
}

pub open spec fn running() -> ServiceStatus {
    ServiceStatus {
        current_state: SERVICE_RUNNING,
        controls_accepted: SERVICE_ACCEPT_STOP,
        checkpoint: 0,
        wait_hint: 0,
        exit_code: ERROR_SUCCESS,
    }
}

pub open spec fn stop_pending() -> ServiceStatus {
    ServiceStatus {
        current_state: SERVICE_STOP_PENDING,
        controls_accepted: 0,
        checkpoint: 1,
        wait_hint: 10_000,
        exit_code: ERROR_SUCCESS,
    }
}

pub open spec fn stopped(exit_code: u32) -> ServiceStatus {
    ServiceStatus {
        current_state: SERVICE_STOPPED,
        controls_accepted: 0,
        checkpoint: 0,
        wait_hint: 0,
        exit_code,
    }
}

/// How far the service has come.
#[derive(Clone, Copy, Debug, Eq, PartialEq, Structural)]
pub enum ServiceStage {
    Registering,
    CreatingEvent,
    ApplyingOwnPolicy,
    CreatingEngine,
    StartingPowerMonitor,
    StartingTraceMonitor { power: bool },
    Reconciling { power: bool },
    Waiting { power: bool },
    Ending { exit_code: u32 },
    Ended,
}

/// What happened to what the service asked for.
#[derive(Clone, Copy, Debug, Eq, PartialEq)]
pub enum ServiceEvent {
    /// The handler of controls was registered, and reports go to this handle.
    Registered { handle: Option<isize> },
    /// The stop event was created, or failed with a code.
    EventCreated { event: Result<isize, u32> },
    OwnPolicyApplied,
    EngineCreated { created: bool },
    PowerMonitorStarted { started: bool },
    TraceMonitorStarted { started: bool },
    Reconciled { done: bool },
    StopSignaled,
    TakenDown,
}

/// What is to be taken down, in the order of the fields.
#[derive(Clone, Copy, Debug, Eq, PartialEq, Structural)]
pub struct Teardown {
    pub trace_monitor: bool,
    pub power_monitor: bool,
    pub engine: bool,
}

/// What the service asks for.
#[derive(Clone, Copy, Debug, Eq, PartialEq, Structural)]
pub enum ServiceRequest {
    CreateStopEvent,
    ApplyOwnPolicy,
    CreateEngine,
    StartPowerMonitor,
    StartTraceMonitor,
    Reconcile,
    WaitForStop,
    TakeDown(Teardown),
    End,
}

/// What the service does: it reports, signals its stop event, and asks for something.
#[derive(Clone, Copy, Debug, Eq, PartialEq, Structural)]
pub struct ServiceAction {
    pub report: Option<ServiceStatus>,
    pub signal: Option<isize>,
    pub request: ServiceRequest,
}

/// The state of the service.
#[derive(Clone, Copy, Debug, Eq, PartialEq, Structural)]
pub struct Service {
    pub stop: StopState,
    pub status_handle: isize,
    pub stage: ServiceStage,
}

pub open spec fn asking(request: ServiceRequest) -> ServiceAction {
    ServiceAction { report: None, signal: None, request }
}

impl Service {
    /// A report goes out once the handle for reports is known.
    pub open spec fn reported(self, status: ServiceStatus) -> Option<ServiceStatus> {
        if self.status_handle == 0 {
            None
        } else {
            Some(status)
        }
    }

    /// The service has ended.
    pub open spec fn ending(self, exit_code: u32, signal: Option<isize>) -> (
        Service,
        ServiceAction,
    ) {
        (
            Service {
                stop: StopState { event_raw: 0, ..self.stop },
                status_handle: 0,
                stage: ServiceStage::Ended,
            },
            ServiceAction {
                report: self.reported(stopped(exit_code)),
                signal,
                request: ServiceRequest::End,
            },
        )
    }

    pub open spec fn at(self, stage: ServiceStage, request: ServiceRequest) -> (
        Service,
        ServiceAction,
    ) {
        (Service { stage, ..self }, asking(request))
    }

    pub open spec fn taking_down(
        self,
        exit_code: u32,
        report: Option<ServiceStatus>,
        teardown: Teardown,
    ) -> (Service, ServiceAction) {
        (
            Service { stage: ServiceStage::Ending { exit_code }, ..self },
            ServiceAction { report, signal: None, request: ServiceRequest::TakeDown(teardown) },
        )
    }

    /// How the service goes on.
    pub open spec fn after(self, event: ServiceEvent) -> (Service, ServiceAction) {
        match (self.stage, event) {
            (ServiceStage::Registering, ServiceEvent::Registered { handle }) => match handle {
                Some(handle) => {
                    let registered = Service {
                        status_handle: handle,
                        stage: ServiceStage::CreatingEvent,
                        ..self
                    };
                    (
                        registered,
                        ServiceAction {
                            report: if self.stop.requested {
                                None
                            } else {
                                registered.reported(start_pending())
                            },
                            signal: None,
                            request: ServiceRequest::CreateStopEvent,
                        },
                    )
                },
                None => self.at(ServiceStage::Ended, ServiceRequest::End),
            },
            (ServiceStage::CreatingEvent, ServiceEvent::EventCreated { event }) => match event {
                Ok(raw) => {
                    let (stop, signal) = self.stop.publishing(raw);
                    let published = Service { stop, ..self };
                    if signal is Some {
                        published.ending(ERROR_SUCCESS, signal)
                    } else {
                        published.at(
                            ServiceStage::ApplyingOwnPolicy,
                            ServiceRequest::ApplyOwnPolicy,
                        )
                    }
                },
                Err(code) => self.ending(code, None),
            },
            (ServiceStage::ApplyingOwnPolicy, ServiceEvent::OwnPolicyApplied) => self.at(
                ServiceStage::CreatingEngine,
                ServiceRequest::CreateEngine,
            ),
            (ServiceStage::CreatingEngine, ServiceEvent::EngineCreated { created }) => if created {
                self.at(ServiceStage::StartingPowerMonitor, ServiceRequest::StartPowerMonitor)
            } else {
                self.ending(1, None)
            },
            (ServiceStage::StartingPowerMonitor, ServiceEvent::PowerMonitorStarted { started }) =>
                self.at(
                ServiceStage::StartingTraceMonitor { power: started },
                ServiceRequest::StartTraceMonitor,
            ),
            (
                ServiceStage::StartingTraceMonitor { power },
                ServiceEvent::TraceMonitorStarted { started },
            ) => if started {
                self.at(ServiceStage::Reconciling { power }, ServiceRequest::Reconcile)
            } else {
                self.taking_down(
                    1,
                    None,
                    Teardown { trace_monitor: false, power_monitor: power, engine: true },
                )
            },
            (ServiceStage::Reconciling { power }, ServiceEvent::Reconciled { done }) => {
                let teardown = Teardown { trace_monitor: true, power_monitor: power, engine: true };
                if !done {
                    self.taking_down(1, None, teardown)
                } else if self.stop.requested {
                    self.taking_down(ERROR_SUCCESS, self.reported(stop_pending()), teardown)
                } else {
                    (
                        Service { stage: ServiceStage::Waiting { power }, ..self },
                        ServiceAction {
                            report: self.reported(running()),
                            signal: None,
                            request: ServiceRequest::WaitForStop,
                        },
                    )
                }
            },
            (ServiceStage::Waiting { power }, ServiceEvent::StopSignaled) => self.taking_down(
                ERROR_SUCCESS,
                self.reported(stop_pending()),
                Teardown { trace_monitor: true, power_monitor: power, engine: true },
            ),
            (ServiceStage::Ending { exit_code }, ServiceEvent::TakenDown) => self.ending(
                exit_code,
                None,
            ),
            _ => (self, asking(ServiceRequest::End)),
        }
    }

    /// Whether the event answers what the service asked for last.
    pub open spec fn expects(self, event: ServiceEvent) -> bool {
        match self.stage {
            ServiceStage::Registering => event is Registered,
            ServiceStage::CreatingEvent => event is EventCreated,
            ServiceStage::ApplyingOwnPolicy => event is OwnPolicyApplied,
            ServiceStage::CreatingEngine => event is EngineCreated,
            ServiceStage::StartingPowerMonitor => event is PowerMonitorStarted,
            ServiceStage::StartingTraceMonitor { .. } => event is TraceMonitorStarted,
            ServiceStage::Reconciling { .. } => event is Reconciled,
            ServiceStage::Waiting { .. } => event is StopSignaled,
            ServiceStage::Ending { .. } => event is TakenDown,
            ServiceStage::Ended => false,
        }
    }

    /// What stands: the trace monitor, the power monitor and the engine.
    pub open spec fn standing(self) -> Teardown {
        match self.stage {
            ServiceStage::StartingPowerMonitor => Teardown {
                trace_monitor: false,
                power_monitor: false,
                engine: true,
            },
            ServiceStage::StartingTraceMonitor { power } => Teardown {
                trace_monitor: false,
                power_monitor: power,
                engine: true,
            },
            ServiceStage::Reconciling { power } => Teardown {
                trace_monitor: true,
                power_monitor: power,
                engine: true,
            },
            ServiceStage::Waiting { power } => Teardown {
                trace_monitor: true,
                power_monitor: power,
                engine: true,
            },
            _ => Teardown { trace_monitor: false, power_monitor: false, engine: false },
        }
    }

    /// A service that has to register its handler of controls first.
    pub fn new() -> (service: Self)
        ensures
            service == (Service {
                stop: StopState { requested: false, event_raw: 0 },
                status_handle: 0,
                stage: ServiceStage::Registering,
            }),
    {
        Service {
            stop: StopState::new(),
            status_handle: 0,
            stage: ServiceStage::Registering,
        }
    }

    pub fn report_service_status(&self, status: ServiceStatus) -> (report: Option<ServiceStatus>)
        ensures
            report == self.reported(status),
    {
        if self.status_handle == 0 {
            None
        } else {
            Some(status)
        }
    }

    fn ask(&mut self, stage: ServiceStage, request: ServiceRequest) -> (action: ServiceAction)
        ensures
            (*final(self), action) == old(self).at(stage, request),
    {
        self.stage = stage;
        ServiceAction { report: None, signal: None, request }
    }

    /// The service has ended.
    fn finish_service_stopped(&mut self, exit_code: u32, signal: Option<isize>) -> (action:
        ServiceAction)
        ensures
            (*final(self), action) == old(self).ending(exit_code, signal),
    {
        let report = self.report_service_status(
            ServiceStatus {
                current_state: SERVICE_STOPPED,
                controls_accepted: 0,
                checkpoint: 0,
                wait_hint: 0,
                exit_code,
            },
        );
        self.stop.event_raw = 0;
        self.status_handle = 0;
        self.stage = ServiceStage::Ended;
        ServiceAction { report, signal, request: ServiceRequest::End }
    }

    fn take_down(
        &mut self,
        exit_code: u32,
        report: Option<ServiceStatus>,
        teardown: Teardown,
    ) -> (action: ServiceAction)
        ensures
            (*final(self), action) == old(self).taking_down(exit_code, report, teardown),
    {
        self.stage = ServiceStage::Ending { exit_code };
        ServiceAction { report, signal: None, request: ServiceRequest::TakeDown(teardown) }
    }

    fn stop_pending_report(&self) -> (report: Option<ServiceStatus>)
        ensures
            report == self.reported(stop_pending()),
    {
        self.report_service_status(
            ServiceStatus {
                current_state: SERVICE_STOP_PENDING,
                controls_accepted: 0,
                checkpoint: 1,
                wait_hint: 10_000,
                exit_code: ERROR_SUCCESS,
            },
        )
    }

    /// A control was sent to the service. Only the one that stops it is heeded.
    pub fn service_control_handler(&mut self, control: u32) -> (action: (
        Option<ServiceStatus>,
        Option<isize>,
    ))
        ensures
            control != SERVICE_CONTROL_STOP ==> *final(self) == *old(self) && action == (
                None::<ServiceStatus>,
                None::<isize>,
            ),
            control == SERVICE_CONTROL_STOP ==> {
                let (stop, request) = old(self).stop.requesting();
                &&& *final(self) == (Service { stop, ..*old(self) })
                &&& action.1 == request.signal
                &&& action.0 == if request.first {
                    old(self).reported(stop_pending())
                } else {
                    None
                }
            },
    {
        if control != SERVICE_CONTROL_STOP {
            return (None, None);
        }
        let request = self.stop.request_stop();
        if request.first {
            (self.stop_pending_report(), request.signal)
        } else {
            (None, request.signal)
        }
    }

    /// Goes on after what the service asked for has happened.
    pub fn service_main(&mut self, event: ServiceEvent) -> (action: ServiceAction)
        requires
            old(self).expects(event),
        ensures
            (*final(self), action) == old(self).after(event),
    {
        match (self.stage, event) {
            (ServiceStage::Registering, ServiceEvent::Registered { handle }) => match handle {
                Some(handle) => {
                    self.status_handle = handle;
                    self.stage = ServiceStage::CreatingEvent;
                    let report = if self.stop.publish_status_if_not_stopping() {
                        self.report_service_status(
                            ServiceStatus {
                                current_state: SERVICE_START_PENDING,
                                controls_accepted: 0,
                                checkpoint: 1,
                                wait_hint: 20_000,
                                exit_code: ERROR_SUCCESS,
                            },
                        )
                    } else {
                        None
                    };
                    ServiceAction { report, signal: None, request: ServiceRequest::CreateStopEvent }
                },
                None => self.ask(ServiceStage::Ended, ServiceRequest::End),
            },
            (ServiceStage::CreatingEvent, ServiceEvent::EventCreated { event }) => match event {
                Ok(raw) => {
                    let signal = self.stop.publish_stop_event(raw);
                    if signal.is_some() {
                        self.finish_service_stopped(ERROR_SUCCESS, signal)
                    } else {
                        self.ask(ServiceStage::ApplyingOwnPolicy, ServiceRequest::ApplyOwnPolicy)
                    }
                },
                Err(code) => self.finish_service_stopped(code, None),
            },
            (ServiceStage::ApplyingOwnPolicy, ServiceEvent::OwnPolicyApplied) => {
                self.ask(ServiceStage::CreatingEngine, ServiceRequest::CreateEngine)
            },
            (ServiceStage::CreatingEngine, ServiceEvent::EngineCreated { created }) => {
                if created {
                    self.ask(ServiceStage::StartingPowerMonitor, ServiceRequest::StartPowerMonitor)
                } else {
                    self.finish_service_stopped(1, None)
                }
            },
            (ServiceStage::StartingPowerMonitor, ServiceEvent::PowerMonitorStarted { started }) => {
                self.ask(
                    ServiceStage::StartingTraceMonitor { power: started },
                    ServiceRequest::StartTraceMonitor,
                )
            },
            (
                ServiceStage::StartingTraceMonitor { power },
                ServiceEvent::TraceMonitorStarted { started },
            ) => {
                if started {
                    self.ask(ServiceStage::Reconciling { power }, ServiceRequest::Reconcile)
                } else {
                    self.take_down(
                        1,
                        None,
                        Teardown { trace_monitor: false, power_monitor: power, engine: true },
                    )
                }
            },
            (ServiceStage::Reconciling { power }, ServiceEvent::Reconciled { done }) => {
                let teardown = Teardown { trace_monitor: true, power_monitor: power, engine: true };
                if !done {
                    return self.take_down(1, None, teardown);
                }
                if !self.stop.publish_status_if_not_stopping() {
                    let report = self.stop_pending_report();
                    return self.take_down(ERROR_SUCCESS, report, teardown);
                }
                let report = self.report_service_status(
                    ServiceStatus {
                        current_state: SERVICE_RUNNING,
                        controls_accepted: SERVICE_ACCEPT_STOP,
                        checkpoint: 0,
                        wait_hint: 0,
                        exit_code: ERROR_SUCCESS,
                    },
                );
                self.stage = ServiceStage::Waiting { power };
                ServiceAction { report, signal: None, request: ServiceRequest::WaitForStop }
            },
            (ServiceStage::Waiting { power }, ServiceEvent::StopSignaled) => {
                let report = self.stop_pending_report();
                self.take_down(
                    ERROR_SUCCESS,
                    report,
                    Teardown { trace_monitor: true, power_monitor: power, engine: true },
                )
            },
            (ServiceStage::Ending { exit_code }, ServiceEvent::TakenDown) => {
                self.finish_service_stopped(exit_code, None)
            },
            _ => ServiceAction { report: None, signal: None, request: ServiceRequest::End },
        }
    }
}

/// Once the service was asked to stop, it never reports again that it starts or runs.
pub proof fn law_no_running_report_after_a_stop(service: Service, event: ServiceEvent)
    requires
        service.expects(event),
        service.stop.requested,
    ensures
        service.after(event).0.stop.requested,
        service.after(event).1.report matches Some(status) ==> status.current_state
            == SERVICE_STOP_PENDING || status.current_state == SERVICE_STOPPED,
        service.after(event).1.request != ServiceRequest::WaitForStop,
{
}

/// Whatever fails on the way, the service takes down exactly what stands before it ends, and ends
/// with nothing standing.
pub proof fn law_service_takes_down_what_stands(service: Service, event: ServiceEvent)
    requires
        service.expects(event),
    ensures
        ({
            let (next, action) = service.after(event);
            let nothing = Teardown { trace_monitor: false, power_monitor: false, engine: false };
            &&& action.request matches ServiceRequest::TakeDown(teardown) ==> teardown
                == service.standing()
            &&& action.request == ServiceRequest::End ==> service.standing() == nothing
                && next.stage == ServiceStage::Ended
            &&& next.stage == ServiceStage::Ended ==> action.request == ServiceRequest::End
        }),
{
}

/// A service that could report at all reports that it has stopped when it ends, and then reports
/// nothing more.
pub proof fn law_service_reports_its_end(service: Service, event: ServiceEvent)
    requires
        service.expects(event),
        service.status_handle != 0,
        service.stage != ServiceStage::Registering,
    ensures
        ({
            let (next, action) = service.after(event);
            &&& next.stage == ServiceStage::Ended ==> {
                &&& action.report matches Some(status)
                &&& status.current_state == SERVICE_STOPPED
                &&& next.status_handle == 0
            }
            &&& next.stage != ServiceStage::Ended ==> next.status_handle == service.status_handle
        }),
{
}

} // verus!
