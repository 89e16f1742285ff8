//! Events of the kernel about processes: how a trace session is set up and taken down, and what its
//! events ask for.

use vstd::prelude::*;

use crate::bytes;
use crate::bytes::ByteOrder;
use crate::engine::ProcessKey;
use crate::service::ServiceError;
use crate::wide;

verus! {

pub const TRACE_SESSION_NAME: &'static str = "affix-kernel-process";

pub const SYSTEM_PROCESS_KW_GENERAL: u64 = 1;

pub const AFFIX_TRACE_SESSION_GUID: u128 = 0x4700a0ee_2655_44c8_91a9_2ae8ffb98f60;

/// The provider of modern process events.
pub const MICROSOFT_WINDOWS_KERNEL_PROCESS_GUID: u128 = 0x22fb2cd6_0e7b_422b_a0c7_2fad1fd0e716;

/// The provider of modern process events in a system session.
pub const SYSTEM_PROCESS_PROVIDER_GUID: u128 = 0x151f55dc_467d_471f_83b5_5f889d46ff66;

/// The provider of classic process events.
pub const PROCESS_GUID: u128 = 0x3d6fa8d0_fe05_11d0_9dda_00c04fd7ba7c;

/// The provider of events about the session itself.
pub const EVENT_TRACE_GUID: u128 = 0x68fdd900_4a3e_11d1_84f4_0000f80464e3;

pub const EVENT_TRACE_TYPE_START: u8 = 1;

pub const EVENT_TRACE_TYPE_END: u8 = 2;

pub const EVENT_TRACE_TYPE_DC_START: u8 = 3;

pub const EVENT_TRACE_TYPE_DC_END: u8 = 4;

pub const PROPERTY_ARRAY_INDEX_NONE: u32 = u32::MAX;

pub const ERROR_SUCCESS: u32 = 0;

/// The session was closed while its events were still being delivered.
pub const ERROR_CTX_CLOSE_PENDING_STATUS: u32 = 7007;

/// The handle that stands for a trace that could not be opened.
pub const INVALID_TRACE_HANDLE: u64 = u64::MAX;

pub const WNODE_FLAG_TRACED_GUID: u32 = 0x2_0000;

pub const EVENT_TRACE_REAL_TIME_MODE: u32 = 0x100;

pub const EVENT_TRACE_SYSTEM_LOGGER_MODE: u32 = 0x200_0000;

/// The size of the properties of a session, before the name. It is a multiple of eight bytes, so
/// that where a pointer takes four, four are left free at the end.
pub const EVENT_TRACE_PROPERTIES_SIZE: u32 = 120;

/// Where the properties say where the name stands: behind the handle of a thread, which is as wide
/// as a pointer, and another offset.
pub const LOGGER_NAME_OFFSET_AT: usize = 108 + bytes::WORD_SIZE;

/// Tells whether a trace is closed, or will be as soon as its events are delivered.
pub fn close_trace_status_is_success(status: u32) -> (success: bool)
    ensures
        success == (status == ERROR_SUCCESS || status == ERROR_CTX_CLOSE_PENDING_STATUS),
{
    status == ERROR_SUCCESS || status == ERROR_CTX_CLOSE_PENDING_STATUS
}

/// What an event about a process asks for.
#[derive(Clone, Copy, Debug, Eq, PartialEq, Structural)]
pub enum EtwProcessAction {
    /// The process with this number is looked at.
    ApplyClassic(u32),
    /// The process is looked at, if its number still belongs to this instance.
    ApplyExact(ProcessKey),
    /// The instance has ended.
    RemoveExact(ProcessKey),
    Ignore,
}

/// Classic events name a process by its number only, so they never end an instance.
pub fn route_classic_process_event(opcode: u8, process_id: Option<u32>) -> (action:
    EtwProcessAction)
    ensures
        action == if opcode == EVENT_TRACE_TYPE_START || opcode == EVENT_TRACE_TYPE_DC_START {
            match process_id {
                Some(process_id) => EtwProcessAction::ApplyClassic(process_id),
                None => EtwProcessAction::Ignore,
            }
        } else {
            EtwProcessAction::Ignore
        },
{
    if opcode == EVENT_TRACE_TYPE_START || opcode == EVENT_TRACE_TYPE_DC_START {
        match process_id {
            Some(process_id) => EtwProcessAction::ApplyClassic(process_id),
            None => EtwProcessAction::Ignore,
        }
    } else {
        EtwProcessAction::Ignore
    }
}

/// Modern events name an instance. One that does not is ignored.
pub fn route_modern_process_event(event_id: u16, process_key: Option<ProcessKey>) -> (action:
    EtwProcessAction)
    ensures
        action == match process_key {
            Some(key) => if event_id == 1 {
                EtwProcessAction::ApplyExact(key)
            } else if event_id == 2 {
                EtwProcessAction::RemoveExact(key)
            } else {
                EtwProcessAction::Ignore
            },
            None => EtwProcessAction::Ignore,
        },
{
    match process_key {
        Some(key) => if event_id == 1 {
            EtwProcessAction::ApplyExact(key)
        } else if event_id == 2 {
            EtwProcessAction::RemoveExact(key)
        } else {
            EtwProcessAction::Ignore
        },
        None => EtwProcessAction::Ignore,
    }
}

/// An instance is known by both of its values.
pub fn process_key_from_values(process_id: Option<u32>, creation_time: Option<u64>) -> (key: Option<
    ProcessKey,
>)
    ensures
        key == match (process_id, creation_time) {
            (Some(process_id), Some(creation_time)) => Some(
                ProcessKey { process_id, creation_time },
            ),
            _ => None,
        },
{
    match (process_id, creation_time) {
        (Some(process_id), Some(creation_time)) => Some(ProcessKey { process_id, creation_time }),
        _ => None,
    }
}

/// An event of the session. The properties are the values that were found under the names of
/// `process_id_properties` and `creation_time_properties`, in the order of the names.
pub struct TraceEvent {
    pub provider: u128,
    pub opcode: u8,
    pub id: u16,
    pub version: u8,
    pub user_data: Vec<u8>,
    pub process_id_values: Vec<Option<[u8; 8]>>,
    pub creation_time_values: Vec<Option<[u8; 8]>>,
    pub order: ByteOrder,
}

/// The names under which an event may hold the number of a process.
pub fn process_id_properties() -> (names: Vec<&'static str>)
    ensures
        names@ == seq!["ProcessID", "ProcessId", "ProcessIDValue", "ProcessIdValue", "PID", "Pid"],
{
    let names: Vec<&'static str> = vec![
        "ProcessID",
        "ProcessId",
        "ProcessIDValue",
        "ProcessIdValue",
        "PID",
        "Pid",
    ];
    assert(names@ =~= seq![
        "ProcessID",
        "ProcessId",
        "ProcessIDValue",
        "ProcessIdValue",
        "PID",
        "Pid",
    ]);
    names
}

/// The names under which an event may hold the time of creation of a process.
pub fn creation_time_properties() -> (names: Vec<&'static str>)
    ensures
        names@ == seq!["CreateTime", "CreationTime"],
{
    let names: Vec<&'static str> = vec!["CreateTime", "CreationTime"];
    assert(names@ =~= seq!["CreateTime", "CreationTime"]);
    names
}

/// The first value that was found.
pub open spec fn first_found(values: Seq<Option<[u8; 8]>>) -> Option<[u8; 8]>
    decreases values.len(),
{
    if values.len() == 0 {
        None
    } else if values[0] is Some {
        values[0]
    } else {
        first_found(values.drop_first())
    }
}

fn find_first(values: &Vec<Option<[u8; 8]>>) -> (found: Option<[u8; 8]>)
    ensures
        found == first_found(values@),
{
    let mut i: usize = 0;
    assert(values@.skip(0) =~= values@);
    while i < values.len()
        invariant
            i <= values@.len(),
            first_found(values@) == first_found(values@.skip(i as int)),
        decreases values@.len() - i,
    {
        let ghost rest = values@.skip(i as int);
        assert(rest[0] == values@[i as int]);
        if values[i].is_some() {
            return values[i];
        }
        i = i + 1;
        assert(rest.drop_first() =~= values@.skip(i as int));
    }
    None
}

/// The number of a process in the data of an event.
pub open spec fn field_at(user_data: Seq<u8>, offset: int, order: ByteOrder) -> Option<u32> {
    if user_data.len() < offset + 4 {
        None
    } else {
        Some(bytes::u32_at(user_data, offset, order))
    }
}

pub fn process_id_from_event_field(user_data: &Vec<u8>, offset: usize, order: ByteOrder) -> (found:
    Option<u32>)
    ensures
        found == field_at(user_data@, offset as int, order),
{
    if user_data.len() < 4 || user_data.len() - 4 < offset {
        return None;
    }
    Some(bytes::read_u32_at(user_data.as_slice(), offset, order))
}

impl TraceEvent {
    pub open spec fn named_process_id(&self) -> Option<u32> {
        match first_found(self.process_id_values@) {
            Some(value) => Some(bytes::u32_at(value@, 0, self.order)),
            None => None,
        }
    }

    pub open spec fn classic_process_id(&self) -> Option<u32> {
        match self.named_process_id() {
            Some(process_id) => Some(process_id),
            None => field_at(
                self.user_data@,
                if self.version >= 2 {
                    4
                } else {
                    0
                },
                self.order,
            ),
        }
    }

    pub open spec fn modern_key(&self) -> Option<ProcessKey> {
        let process_id = match self.named_process_id() {
            Some(process_id) => Some(process_id),
            None => field_at(self.user_data@, 0, self.order),
        };
        match (process_id, first_found(self.creation_time_values@)) {
            (Some(process_id), Some(value)) => Some(
                ProcessKey { process_id, creation_time: bytes::u64_at(value@, 0, self.order) },
            ),
            _ => None,
        }
    }

    /// The number of the process, where the event names it.
    pub fn process_id_from_named_property(&self) -> (process_id: Option<u32>)
        ensures
            process_id == self.named_process_id(),
    {
        match find_first(&self.process_id_values) {
            Some(value) => Some(bytes::read_u32_at(value.as_slice(), 0, self.order)),
            None => None,
        }
    }

    /// The number of the process of a classic event. In the data of an event of version 2 or later
    /// another field stands before it.
    pub fn process_id_from_classic_event(&self) -> (process_id: Option<u32>)
        ensures
            process_id == self.classic_process_id(),
    {
        match self.process_id_from_named_property() {
            Some(process_id) => Some(process_id),
            None => {
                let offset: usize = if self.version >= 2 {
                    4
                } else {
                    0
                };
                process_id_from_event_field(&self.user_data, offset, self.order)
            },
        }
    }

    /// The instance that a modern event is about.
    pub fn process_key_from_modern_event(&self) -> (key: Option<ProcessKey>)
        ensures
            key == self.modern_key(),
    {
        let process_id = match self.process_id_from_named_property() {
            Some(process_id) => Some(process_id),
            None => process_id_from_event_field(&self.user_data, 0, self.order),
        };
        let creation_time = match find_first(&self.creation_time_values) {
            Some(value) => Some(bytes::read_u64_at(value.as_slice(), 0, self.order)),
            None => None,
        };
        process_key_from_values(process_id, creation_time)
    }
}

/// What an event asks for.
#[derive(Clone, Copy, Debug, Eq, PartialEq, Structural)]
pub enum MonitorAction {
    Process(EtwProcessAction),
    /// The session is asked how many events it lost.
    QueryLostEvents,
}

pub open spec fn meaning_of(event: TraceEvent) -> MonitorAction {
    if event.provider == PROCESS_GUID {
        match event.classic_process_id() {
            Some(process_id) if event.opcode == EVENT_TRACE_TYPE_START || event.opcode
                == EVENT_TRACE_TYPE_DC_START => MonitorAction::Process(
                EtwProcessAction::ApplyClassic(process_id),
            ),
            _ => MonitorAction::Process(EtwProcessAction::Ignore),
        }
    } else if event.provider == MICROSOFT_WINDOWS_KERNEL_PROCESS_GUID || event.provider
        == SYSTEM_PROCESS_PROVIDER_GUID {
        match event.modern_key() {
            Some(key) if event.id == 1 => MonitorAction::Process(EtwProcessAction::ApplyExact(key)),
            Some(key) if event.id == 2 => MonitorAction::Process(
                EtwProcessAction::RemoveExact(key),
            ),
            _ => MonitorAction::Process(EtwProcessAction::Ignore),
        }
    } else if event.provider == EVENT_TRACE_GUID {
        MonitorAction::QueryLostEvents
    } else {
        MonitorAction::Process(EtwProcessAction::Ignore)
    }
}

/// What an event asks for, by who sent it.
pub fn handle_event(event: &TraceEvent) -> (action: MonitorAction)
    ensures
        action == meaning_of(*event),
{
    if event.provider == PROCESS_GUID {
        MonitorAction::Process(
            route_classic_process_event(event.opcode, event.process_id_from_classic_event()),
        )
    } else if event.provider == MICROSOFT_WINDOWS_KERNEL_PROCESS_GUID || event.provider
        == SYSTEM_PROCESS_PROVIDER_GUID {
        MonitorAction::Process(
            route_modern_process_event(event.id, event.process_key_from_modern_event()),
        )
    } else if event.provider == EVENT_TRACE_GUID {
        MonitorAction::QueryLostEvents
    } else {
        MonitorAction::Process(EtwProcessAction::Ignore)
    }
}

/// An instance is ended by an event only where the event names its number and its time of creation.
pub proof fn law_only_exact_events_remove(event: TraceEvent, key: ProcessKey)
    requires
        meaning_of(event) == MonitorAction::Process(EtwProcessAction::RemoveExact(key)),
    ensures
        event.provider != PROCESS_GUID,
        event.modern_key() == Some(key),
        first_found(event.creation_time_values@) is Some,
{
}

/// How many events the session lost, if it could be asked.
pub fn reported_events_lost(status: u32, events_lost: u32) -> (reported: Option<u32>)
    ensures
        reported == if status == ERROR_SUCCESS {
            Some(events_lost)
        } else {
            None
        },
{
    if status != ERROR_SUCCESS {
        return None;
    }
    Some(events_lost)
}

/// How many lost events were reported, and up to which of them all processes were gone through.
#[derive(Clone, Copy, Debug, Eq, PartialEq, Structural)]
pub struct LostEventState {
    pub observed: u32,
    pub reconciled: u32,
    pub reconciling: bool,
}

pub open spec fn larger(a: u32, b: u32) -> u32 {
    if a >= b {
        a
    } else {
        b
    }
}

impl LostEventState {
    /// While nobody goes through the processes, no report is open.
    pub open spec fn is_settled(self) -> bool {
        self.reconciling || self.observed <= self.reconciled
    }

    pub open spec fn reporting(self, events_lost: u32) -> LostEventState {
        if events_lost == 0 {
            self
        } else {
            LostEventState {
                observed: larger(self.observed, events_lost),
                reconciling: true,
                ..self
            }
        }
    }

    pub open spec fn completing(self, target: u32) -> LostEventState {
        LostEventState { reconciled: larger(self.reconciled, target), ..self }
    }

    pub open spec fn resting(self) -> LostEventState {
        if self.observed > self.reconciled {
            self
        } else {
            LostEventState { reconciling: false, ..self }
        }
    }

    pub fn new() -> (state: Self)
        ensures
            state == (LostEventState { observed: 0, reconciled: 0, reconciling: false }),
            state.is_settled(),
    {
        LostEventState { observed: 0, reconciled: 0, reconciling: false }
    }

    /// Takes a report. Says whether the caller has to go through the processes: where somebody
    /// does already, they will take up the report.
    pub fn reconcile(&mut self, events_lost: u32) -> (owner: bool)
        ensures
            *final(self) == old(self).reporting(events_lost),
            owner == (events_lost != 0 && !old(self).reconciling),
    {
        if events_lost == 0 {
            return false;
        }
        if events_lost > self.observed {
            self.observed = events_lost;
        }
        let owner = !self.reconciling;
        self.reconciling = true;
        owner
    }

    /// Up to where the owner has to go through the processes. Where no report is open, it is the
    /// owner no longer.
    pub fn next_target(&mut self) -> (target: Option<u32>)
        ensures
            *final(self) == old(self).resting(),
            target == if old(self).observed > old(self).reconciled {
                Some(old(self).observed)
            } else {
                None
            },
    {
        if self.observed > self.reconciled {
            Some(self.observed)
        } else {
            self.reconciling = false;
            None
        }
    }

    /// The owner went through the processes up to `target`.
    pub fn target_reconciled(&mut self, target: u32)
        ensures
            *final(self) == old(self).completing(target),
    {
        if target > self.reconciled {
            self.reconciled = target;
        }
    }
}

/// No report is lost: whatever is reported, while the owner is at work too, is open until the owner
/// has gone through the processes for it, and a larger report during the work asks for another
/// round.
pub proof fn law_every_report_is_taken_up(state: LostEventState, target: u32, events_lost: u32)
    requires
        state.is_settled(),
    ensures
        state.reporting(events_lost).is_settled(),
        state.reporting(events_lost).observed >= events_lost,
        state.completing(target).is_settled(),
        state.reconciling ==> state.resting().is_settled(),
        state.reconciling && events_lost > target && target >= state.reconciled
            ==> state.reporting(events_lost).completing(target).resting().reconciling,
{
}

/// Why no session is monitored.
#[derive(Clone, Copy, Debug, Eq, PartialEq, Structural)]
pub enum StartFailure {
    Start(u32),
    Enable(u32),
    Open(u32),
    Spawn(u32),
}

impl StartFailure {
    pub open spec fn is_told(self, error: ServiceError) -> bool {
        match self {
            StartFailure::Start(status) => error matches ServiceError::Trace { operation, code }
                && operation@ == "StartTraceW(affix-kernel-process)"@ && code == status,
            StartFailure::Enable(status) => error matches ServiceError::Trace { operation, code }
                && operation@ == "EnableTraceEx2(SystemProcessProviderGuid)"@ && code == status,
            StartFailure::Open(status) => error matches ServiceError::WindowsLastError {
                operation,
                code,
            } && operation@ == "OpenTraceW(affix-kernel-process)"@ && code == status,
            StartFailure::Spawn(status) => error matches ServiceError::WindowsLastError {
                operation,
                code,
            } && operation@ == "thread::Builder::spawn(affix-etw-process-trace)"@ && code == status,
        }
    }

    pub fn error(self) -> (error: ServiceError)
        ensures
            self.is_told(error),
    {
        match self {
            StartFailure::Start(code) => ServiceError::Trace {
                operation: "StartTraceW(affix-kernel-process)".to_owned(),
                code,
            },
            StartFailure::Enable(code) => ServiceError::Trace {
                operation: "EnableTraceEx2(SystemProcessProviderGuid)".to_owned(),
                code,
            },
            StartFailure::Open(code) => ServiceError::WindowsLastError {
                operation: "OpenTraceW(affix-kernel-process)".to_owned(),
                code,
            },
            StartFailure::Spawn(code) => ServiceError::WindowsLastError {
                operation: "thread::Builder::spawn(affix-etw-process-trace)".to_owned(),
                code,
            },
        }
    }
}

/// What happened while a session is set up.
#[derive(Clone, Copy, Debug, Eq, PartialEq, Structural)]
pub enum StartEvent {
    /// The session was started, or refused.
    Started { status: u32, session: u64 },
    /// The provider was enabled, or refused.
    Enabled { status: u32 },
    /// The trace was opened, or is the invalid handle.
    Opened { trace: u64, code: u32 },
    /// The worker runs, or could not be started.
    Spawned { failure: Option<u32> },
    /// The trace was closed.
    Closed,
    /// The session was stopped.
    Stopped,
}

/// What is to be done next while a session is set up.
#[derive(Clone, Copy, Debug, Eq, PartialEq, Structural)]
pub enum StartAction {
    StartTrace,
    EnableProvider { session: u64 },
    OpenTrace,
    SpawnWorker { trace: u64 },
    CloseTrace { trace: u64 },
    StopTrace { session: u64 },
    Monitor,
    Fail(StartFailure),
}

/// How far a session is set up.
#[derive(Clone, Copy, Debug, Eq, PartialEq, Structural)]
pub enum MonitorStage {
    Starting,
    Enabling { session: u64 },
    Opening { session: u64 },
    Spawning { session: u64, trace: u64 },
    /// What was set up is taken down again.
    Closing { session: u64, failure: StartFailure },
    Stopping { failure: StartFailure },
    /// Events are delivered. `closed` tells that the trace is.
    Running { session: u64, trace: u64, closed: bool },
    Ended,
}

impl MonitorStage {
    /// How the set-up goes on. Each failure takes down what stands, in the order opposite to that
    /// in which it was set up.
    pub open spec fn advanced(self, event: StartEvent) -> (MonitorStage, StartAction) {
        match (self, event) {
            (MonitorStage::Starting, StartEvent::Started { status, session }) => if status
                != ERROR_SUCCESS {
                (MonitorStage::Ended, StartAction::Fail(StartFailure::Start(status)))
            } else {
                (MonitorStage::Enabling { session }, StartAction::EnableProvider { session })
            },
            (MonitorStage::Enabling { session }, StartEvent::Enabled { status }) => if status
                != ERROR_SUCCESS {
                (
                    MonitorStage::Stopping { failure: StartFailure::Enable(status) },
                    StartAction::StopTrace { session },
                )
            } else {
                (MonitorStage::Opening { session }, StartAction::OpenTrace)
            },
            (MonitorStage::Opening { session }, StartEvent::Opened { trace, code }) => if trace
                == INVALID_TRACE_HANDLE {
                (
                    MonitorStage::Stopping { failure: StartFailure::Open(code) },
                    StartAction::StopTrace { session },
                )
            } else {
                (
                    MonitorStage::Spawning { session, trace },
                    StartAction::SpawnWorker { trace },
                )
            },
            (MonitorStage::Spawning { session, trace }, StartEvent::Spawned { failure }) => {
                match failure {
                    Some(code) => (
                        MonitorStage::Closing { session, failure: StartFailure::Spawn(code) },
                        StartAction::CloseTrace { trace },
                    ),
                    None => (
                        MonitorStage::Running { session, trace, closed: false },
                        StartAction::Monitor,
                    ),
                }
            },
            (MonitorStage::Closing { session, failure }, StartEvent::Closed) => (
                MonitorStage::Stopping { failure },
                StartAction::StopTrace { session },
            ),
            (MonitorStage::Stopping { failure }, StartEvent::Stopped) => (
                MonitorStage::Ended,
                StartAction::Fail(failure),
            ),
            _ => (self, StartAction::Monitor),
        }
    }

    /// Whether the event answers what was asked for last.
    pub open spec fn expects(self, event: StartEvent) -> bool {
        match self {
            MonitorStage::Starting => event is Started,
            MonitorStage::Enabling { .. } => event is Enabled,
            MonitorStage::Opening { .. } => event is Opened,
            MonitorStage::Spawning { .. } => event is Spawned,
            MonitorStage::Closing { .. } => event is Closed,
            MonitorStage::Stopping { .. } => event is Stopped,
            MonitorStage::Running { .. } => false,
            MonitorStage::Ended => false,
        }
    }

    /// What stands of the session: the session itself, and the trace.
    pub open spec fn standing(self) -> (bool, bool) {
        match self {
            MonitorStage::Starting => (false, false),
            MonitorStage::Enabling { .. } => (true, false),
            MonitorStage::Opening { .. } => (true, false),
            MonitorStage::Spawning { .. } => (true, true),
            MonitorStage::Closing { .. } => (true, true),
            MonitorStage::Stopping { .. } => (true, false),
            MonitorStage::Running { closed, .. } => (true, !closed),
            MonitorStage::Ended => (false, false),
        }
    }
}

/// What ends with the monitoring of a session, in the order of the fields.
#[derive(Clone, Copy, Debug, Eq, PartialEq, Structural)]
pub struct StopSteps {
    pub stop_session: Option<u64>,
    pub close_trace: Option<u64>,
    pub join_worker: bool,
}

/// The monitor of a session.
#[derive(Clone, Copy, Debug, Eq, PartialEq, Structural)]
pub struct EtwMonitor {
    pub stage: MonitorStage,
}

impl EtwMonitor {
    /// A monitor for which a session has to be started.
    pub fn start() -> (started: (Self, StartAction))
        ensures
            started == (
                EtwMonitor { stage: MonitorStage::Starting },
                StartAction::StartTrace,
            ),
    {
        (EtwMonitor { stage: MonitorStage::Starting }, StartAction::StartTrace)
    }

    /// Goes on with the set-up after what was asked for has happened.
    pub fn start_with_api(&mut self, event: StartEvent) -> (action: StartAction)
        requires
            old(self).stage.expects(event),
        ensures
            (final(self).stage, action) == old(self).stage.advanced(event),
    {
        match (self.stage, event) {
            (MonitorStage::Starting, StartEvent::Started { status, session }) => {
                if status != ERROR_SUCCESS {
                    self.stage = MonitorStage::Ended;
                    StartAction::Fail(StartFailure::Start(status))
                } else {
                    self.stage = MonitorStage::Enabling { session };
                    StartAction::EnableProvider { session }
                }
            },
            (MonitorStage::Enabling { session }, StartEvent::Enabled { status }) => {
                if status != ERROR_SUCCESS {
                    self.stage = MonitorStage::Stopping { failure: StartFailure::Enable(status) };
                    StartAction::StopTrace { session }
                } else {
                    self.stage = MonitorStage::Opening { session };
                    StartAction::OpenTrace
                }
            },
            (MonitorStage::Opening { session }, StartEvent::Opened { trace, code }) => {
                if trace == INVALID_TRACE_HANDLE {
                    self.stage = MonitorStage::Stopping { failure: StartFailure::Open(code) };
                    StartAction::StopTrace { session }
                } else {
                    self.stage = MonitorStage::Spawning { session, trace };
                    StartAction::SpawnWorker { trace }
                }
            },
            (MonitorStage::Spawning { session, trace }, StartEvent::Spawned { failure }) => {
                match failure {
                    Some(code) => {
                        self.stage = MonitorStage::Closing {
                            session,
                            failure: StartFailure::Spawn(code),
                        };
                        StartAction::CloseTrace { trace }
                    },
                    None => {
                        self.stage = MonitorStage::Running { session, trace, closed: false };
                        StartAction::Monitor
                    },
                }
            },
            (MonitorStage::Closing { session, failure }, StartEvent::Closed) => {
                self.stage = MonitorStage::Stopping { failure };
                StartAction::StopTrace { session }
            },
            (MonitorStage::Stopping { failure }, StartEvent::Stopped) => {
                self.stage = MonitorStage::Ended;
                StartAction::Fail(failure)
            },
            _ => StartAction::Monitor,
        }
    }

    /// The trace that has to be closed, unless somebody else closed it.
    pub fn close(&mut self) -> (trace: Option<u64>)
        ensures
            match old(self).stage {
                MonitorStage::Running { session, trace: open, closed } => {
                    &&& trace == if closed {
                        None
                    } else {
                        Some(open)
                    }
                    &&& final(self).stage == (MonitorStage::Running {
                        session,
                        trace: open,
                        closed: true,
                    })
                },
                _ => trace is None && final(self).stage == old(self).stage,
            },
    {
        match self.stage {
            MonitorStage::Running { session, trace, closed } => {
                self.stage = MonitorStage::Running { session, trace, closed: true };
                if closed {
                    None
                } else {
                    Some(trace)
                }
            },
            _ => None,
        }
    }

    /// Ends the monitoring. The session is stopped and the trace is closed before the worker is
    /// waited for, since the worker ends only then.
    pub fn stop(&mut self) -> (steps: StopSteps)
        ensures
            match old(self).stage {
                MonitorStage::Running { session, trace, closed } => {
                    &&& steps == (StopSteps {
                        stop_session: Some(session),
                        close_trace: if closed {
                            None
                        } else {
                            Some(trace)
                        },
                        join_worker: true,
                    })
                    &&& final(self).stage == MonitorStage::Ended
                },
                _ => {
                    &&& steps == (StopSteps {
                        stop_session: None,
                        close_trace: None,
                        join_worker: false,
                    })
                    &&& final(self).stage == old(self).stage
                },
            },
    {
        match self.stage {
            MonitorStage::Running { session, .. } => {
                let close_trace = self.close();
                self.stage = MonitorStage::Ended;
                StopSteps { stop_session: Some(session), close_trace, join_worker: true }
            },
            _ => StopSteps { stop_session: None, close_trace: None, join_worker: false },
        }
    }
}

/// A set-up that fails leaves nothing standing: it fails only in the stage in which neither a
/// session nor a trace stands, and takes each of them down where one stands.
pub proof fn law_failed_start_leaves_nothing(stage: MonitorStage, event: StartEvent)
    requires
        stage.expects(event),
    ensures
        ({
            let (next, action) = stage.advanced(event);
            &&& action is Fail ==> next == MonitorStage::Ended && next.standing() == (false, false)
            &&& next == MonitorStage::Ended ==> action is Fail
            &&& stage.standing().1 && !next.standing().1 ==> stage is Closing && event is Closed
            &&& stage.standing().0 && !next.standing().0 ==> stage is Stopping && event is Stopped
            &&& next is Closing ==> action is CloseTrace
            &&& next is Stopping ==> action is StopTrace
        }),
{
}

/// The values that a session is started with.
#[derive(Clone, Copy, Debug, Eq, PartialEq, Structural)]
pub struct TraceProperties {
    pub guid: u128,
    pub client_context: u32,
    pub flags: u32,
    pub buffer_size: u32,
    pub minimum_buffers: u32,
    pub maximum_buffers: u32,
    pub log_file_mode: u32,
    pub flush_timer: u32,
    pub enable_flags: u32,
}

/// A GUID as it stands in memory: its first three parts as integers, the rest byte by byte.
pub open spec fn guid_bytes(guid: u128, order: ByteOrder) -> Seq<u8> {
    bytes::u32_bytes((guid / 0x1_0000_0000_0000_0000_0000_0000) as u32, order) + bytes::u16_bytes(
        (guid / 0x1_0000_0000_0000_0000_0000 % 0x1_0000) as u16,
        order,
    ) + bytes::u16_bytes((guid / 0x1_0000_0000_0000_0000 % 0x1_0000) as u16, order)
        + bytes::u64_bytes((guid % 0x1_0000_0000_0000_0000) as u64, ByteOrder::Big)
}

fn push_guid(memory: &mut Vec<u8>, guid: u128, order: ByteOrder)
    ensures
        final(memory)@ == old(memory)@ + guid_bytes(guid, order),
{
    let ghost before = memory@;
    bytes::push_u32(memory, (guid / 0x1_0000_0000_0000_0000_0000_0000) as u32, order);
    bytes::push_u16(memory, (guid / 0x1_0000_0000_0000_0000_0000 % 0x1_0000) as u16, order);
    bytes::push_u16(memory, (guid / 0x1_0000_0000_0000_0000 % 0x1_0000) as u16, order);
    bytes::push_u64(memory, (guid % 0x1_0000_0000_0000_0000) as u64, ByteOrder::Big);
    assert(memory@ =~= before + guid_bytes(guid, order));
}

impl TraceProperties {
    /// A system session that delivers its events at once.
    pub fn system_process_session() -> (properties: Self)
        ensures
            properties == (TraceProperties {
                guid: AFFIX_TRACE_SESSION_GUID,
                client_context: 1,
                flags: WNODE_FLAG_TRACED_GUID,
                buffer_size: 64,
                minimum_buffers: 4,
                maximum_buffers: 16,
                log_file_mode: (EVENT_TRACE_REAL_TIME_MODE + EVENT_TRACE_SYSTEM_LOGGER_MODE) as u32,
                flush_timer: 1,
                enable_flags: 0,
            }),
    {
        TraceProperties {
            guid: AFFIX_TRACE_SESSION_GUID,
            client_context: 1,
            flags: WNODE_FLAG_TRACED_GUID,
            buffer_size: 64,
            minimum_buffers: 4,
            maximum_buffers: 16,
            log_file_mode: EVENT_TRACE_REAL_TIME_MODE + EVENT_TRACE_SYSTEM_LOGGER_MODE,
            flush_timer: 1,
            enable_flags: 0,
        }
    }

    pub open spec fn head(self, size: u32) -> Seq<u32> {
        seq![size, 0, 0, 0, 0, 0]
    }

    /// What ends the properties: the handle of a thread, where the name of a file stands, and where
    /// the name of the session stands.
    pub open spec fn offsets(self) -> Seq<u32> {
        if bytes::WORD_SIZE == 8 {
            seq![0, 0, 0, EVENT_TRACE_PROPERTIES_SIZE]
        } else {
            seq![0, 0, EVENT_TRACE_PROPERTIES_SIZE, 0]
        }
    }

    pub open spec fn tail(self) -> Seq<u32> {
        seq![
            self.client_context,
            self.flags,
            self.buffer_size,
            self.minimum_buffers,
            self.maximum_buffers,
            0,
            self.log_file_mode,
            self.flush_timer,
            self.enable_flags,
            0,
            0,
            0,
            0,
            0,
            0,
            0,
        ] + self.offsets()
    }

    /// The properties in memory, with the name of the session behind them.
    pub open spec fn layout(self, name: Seq<u16>, order: ByteOrder) -> Seq<u8> {
        bytes::words_32(
            self.head((EVENT_TRACE_PROPERTIES_SIZE + 2 * name.len()) as u32),
            order,
        ) + guid_bytes(self.guid, order) + bytes::words_32(self.tail(), order) + bytes::words_16(
            name,
            order,
        )
    }

    /// The properties in memory, with the name of the session behind them.
    pub fn memory(&self, name: &Vec<u16>, order: ByteOrder) -> (memory: Vec<u8>)
        requires
            name@.len() <= 0x7000_0000,
        ensures
            memory@ == self.layout(name@, order),
    {
        let mut memory: Vec<u8> = Vec::new();
        let size: u32 = EVENT_TRACE_PROPERTIES_SIZE + 2 * name.len() as u32;
        let head: Vec<u32> = vec![size, 0, 0, 0, 0, 0];
        assert(head@ =~= self.head(size));
        bytes::push_words_32(&mut memory, &head, order);
        push_guid(&mut memory, self.guid, order);
        let mut tail: Vec<u32> = vec![
            self.client_context,
            self.flags,
            self.buffer_size,
            self.minimum_buffers,
            self.maximum_buffers,
            0,
            self.log_file_mode,
            self.flush_timer,
            self.enable_flags,
            0,
            0,
            0,
            0,
            0,
            0,
            0,
        ];
        tail.push(0);
        tail.push(0);
        if bytes::WORD_SIZE == 8 {
            tail.push(0);
            tail.push(EVENT_TRACE_PROPERTIES_SIZE);
        } else {
            tail.push(EVENT_TRACE_PROPERTIES_SIZE);
            tail.push(0);
        }
        assert(tail@ =~= self.tail());
        bytes::push_words_32(&mut memory, &tail, order);
        bytes::push_words_16(&mut memory, name, order);
        memory
    }

    /// How many events a session lost, of its properties in memory.
    pub fn events_lost(memory: &Vec<u8>, order: ByteOrder) -> (lost: Option<u32>)
        ensures
            lost == field_at(memory@, 88, order),
    {
        process_id_from_event_field(memory, 88, order)
    }
}

/// The name under which the session is known to the system.
pub fn session_name() -> (name: Vec<u16>)
    ensures
        name@ == wide::units(TRACE_SESSION_NAME@).push(0),
{
    wide::wide_null(TRACE_SESSION_NAME)
}

proof fn lemma_sections(
    head: Seq<u32>,
    guid: Seq<u8>,
    tail: Seq<u32>,
    text: Seq<u8>,
    order: ByteOrder,
)
    requires
        head.len() == 6,
        guid.len() == 16,
        tail.len() == 20,
    ensures
        ({
            let all = bytes::words_32(head, order) + guid + bytes::words_32(tail, order) + text;
            &&& all.len() == 120 + text.len()
            &&& bytes::u32_at(all, 0, order) == head[0]
            &&& bytes::u32_at(all, 116, order) == tail[19]
            &&& bytes::u32_at(all, 112, order) == tail[18]
            &&& all.skip(120) == text
        }),
{
    let first = bytes::words_32(head, order);
    let last = bytes::words_32(tail, order);
    let all = first + guid + last + text;
    bytes::lemma_words_32(Seq::empty(), head, guid + last + text, order);
    assert(Seq::<u8>::empty() + first + (guid + last + text) =~= all);
    let _ = head[0];
    bytes::lemma_words_32(first + guid, tail, text, order);
    let _ = tail[19];
    let _ = tail[18];
    assert(all.skip(120) =~= text);
}

/// The properties take as many bytes as they say, and the name stands where they say.
pub proof fn law_properties_tell_their_size(
    properties: TraceProperties,
    name: Seq<u16>,
    order: ByteOrder,
)
    requires
        name.len() <= 0x7000_0000,
    ensures
        properties.layout(name, order).len() == EVENT_TRACE_PROPERTIES_SIZE + 2 * name.len(),
        bytes::u32_at(properties.layout(name, order), 0, order)
            == EVENT_TRACE_PROPERTIES_SIZE + 2 * name.len(),
        bytes::u32_at(properties.layout(name, order), LOGGER_NAME_OFFSET_AT as int, order)
            == EVENT_TRACE_PROPERTIES_SIZE,
        properties.layout(name, order).skip(EVENT_TRACE_PROPERTIES_SIZE as int) == bytes::words_16(
            name,
            order,
        ),
{
    let size = (EVENT_TRACE_PROPERTIES_SIZE + 2 * name.len()) as u32;
    let text = bytes::words_16(name, order);
    lemma_sections(
        properties.head(size),
        guid_bytes(properties.guid, order),
        properties.tail(),
        text,
        order,
    );
    bytes::lemma_words_16_length(name, order);
}

} // verus!
