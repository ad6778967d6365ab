//! The precision time protocol: the settings of the clock, what is done for
//! the port, and what is published of its state.

use crate::topic::{below, under};
use vstd::prelude::*;

verus! {

/// By how many nanoseconds the clock is ahead of the system time, both given
/// in seconds and nanoseconds.
pub open spec fn offset_of(secs: int, nanos: int, system_secs: int, system_nanos: int) -> int {
    (secs - system_secs) * 1_000_000_000 + (nanos - system_nanos)
}

/// By how many nanoseconds the clock is ahead of the system time.
pub fn current_offset(
    secs: u64,
    subsec_nanos: u32,
    system_secs: i64,
    system_nanos: i64,
) -> (offset: i64)
    requires
        secs <= i64::MAX,
        i64::MIN <= secs - system_secs <= i64::MAX,
        i64::MIN <= subsec_nanos - system_nanos <= i64::MAX,
        i64::MIN <= (secs - system_secs) * 1_000_000_000 <= i64::MAX,
        i64::MIN <= offset_of(
            secs as int,
            subsec_nanos as int,
            system_secs as int,
            system_nanos as int,
        ) <= i64::MAX,
    ensures
        offset == offset_of(
            secs as int,
            subsec_nanos as int,
            system_secs as int,
            system_nanos as int,
        ),
{
    let diff_s: i64 = secs as i64 - system_secs;
    let diff_ns: i64 = subsec_nanos as i64 - system_nanos;
    diff_s * 1_000_000_000 + diff_ns
}

/// The offset is what has to be added to the system time to get the time of
/// the clock.
pub proof fn lemma_offset_leads_to_clock(
    secs: int,
    nanos: int,
    system_secs: int,
    system_nanos: int,
)
    ensures
        system_secs * 1_000_000_000 + system_nanos + offset_of(
            secs,
            nanos,
            system_secs,
            system_nanos,
        ) == secs * 1_000_000_000 + nanos,
{
}

/// Whether a timer runs.
#[derive(Debug, Clone, Copy, PartialEq, Eq, Structural)]
pub struct TimerState {
    pub running: bool,
}

impl TimerState {
    /// A timer that does not run.
    pub fn new() -> (timer: TimerState)
        ensures
            !timer.running,
    {
        TimerState { running: false }
    }

    /// Starts the timer anew.
    pub fn reset(&mut self)
        ensures
            final(self).running,
    {
        self.running = true;
    }

    /// Whether the timer fires, given whether its time is over. It fires once
    /// for each time that it was started.
    pub fn poll(&mut self, elapsed: bool) -> (fires: bool)
        ensures
            fires == (old(self).running && elapsed),
            final(self).running == (old(self).running && !elapsed),
    {
        if self.running {
            if elapsed {
                self.running = false;
            }
            elapsed
        } else {
            false
        }
    }
}

/// Where a message of the protocol goes.
#[derive(Debug, Clone, Copy, PartialEq, Eq, Structural)]
pub enum MessageTarget {
    PrimaryEvent,
    PdelayEvent,
    PrimaryGeneral,
    PdelayGeneral,
}

/// A timer of a port.
#[derive(Debug, Clone, Copy, PartialEq, Eq, Structural)]
pub enum PortTimer {
    Announce,
    Sync,
    AnnounceTimeout,
    DelayRequest,
    FilterUpdate,
}

/// What a port asks for.
#[derive(Debug, Clone, Copy, PartialEq, Eq, Structural)]
pub enum PortRequest {
    SendEvent { link_local: bool },
    SendGeneral { link_local: bool },
    ResetAnnounceTimer,
    ResetSyncTimer,
    ResetDelayRequestTimer,
    ResetAnnounceReceiptTimer,
    ResetFilterUpdateTimer,
    ForwardTlv,
}

/// What is done for a port.
#[derive(Debug, Clone, Copy, PartialEq, Eq, Structural)]
pub enum PortStep {
    /// A message is sent, and the time at which it was sent is taken.
    SendTimed(MessageTarget),
    /// A message is sent.
    Send(MessageTarget),
    /// A timer is started anew.
    Reset(PortTimer),
    /// Information is passed on to the other ports.
    Forward,
}

/// What is done for what a port asks for.
pub open spec fn step_for(request: PortRequest) -> PortStep {
    match request {
        PortRequest::SendEvent { link_local } => PortStep::SendTimed(
            if link_local {
                MessageTarget::PdelayEvent
            } else {
                MessageTarget::PrimaryEvent
            },
        ),
        PortRequest::SendGeneral { link_local } => PortStep::Send(
            if link_local {
                MessageTarget::PdelayGeneral
            } else {
                MessageTarget::PrimaryGeneral
            },
        ),
        PortRequest::ResetAnnounceTimer => PortStep::Reset(PortTimer::Announce),
        PortRequest::ResetSyncTimer => PortStep::Reset(PortTimer::Sync),
        PortRequest::ResetDelayRequestTimer => PortStep::Reset(PortTimer::DelayRequest),
        PortRequest::ResetAnnounceReceiptTimer => PortStep::Reset(PortTimer::AnnounceTimeout),
        PortRequest::ResetFilterUpdateTimer => PortStep::Reset(PortTimer::FilterUpdate),
        PortRequest::ForwardTlv => PortStep::Forward,
    }
}

/// Decides what is done for what a port asks for.
pub fn port_step(request: PortRequest) -> (step: PortStep)
    ensures
        step == step_for(request),
{
    match request {
        PortRequest::SendEvent { link_local } => PortStep::SendTimed(
            if link_local {
                MessageTarget::PdelayEvent
            } else {
                MessageTarget::PrimaryEvent
            },
        ),
        PortRequest::SendGeneral { link_local } => PortStep::Send(
            if link_local {
                MessageTarget::PdelayGeneral
            } else {
                MessageTarget::PrimaryGeneral
            },
        ),
        PortRequest::ResetAnnounceTimer => PortStep::Reset(PortTimer::Announce),
        PortRequest::ResetSyncTimer => PortStep::Reset(PortTimer::Sync),
        PortRequest::ResetDelayRequestTimer => PortStep::Reset(PortTimer::DelayRequest),
        PortRequest::ResetAnnounceReceiptTimer => PortStep::Reset(PortTimer::AnnounceTimeout),
        PortRequest::ResetFilterUpdateTimer => PortStep::Reset(PortTimer::FilterUpdate),
        PortRequest::ForwardTlv => PortStep::Forward,
    }
}

/// The timestamp that a port is waiting for, after another message was sent:
/// that of the message, where it has one.
pub fn pending_timestamp<T>(pending: Option<T>, sent: Option<T>) -> (timestamp: Option<T>)
    ensures
        timestamp == (if sent is Some {
            sent
        } else {
            pending
        }),
{
    match sent {
        Some(timestamp) => Some(timestamp),
        None => pending,
    }
}

/// What is done with a datagram that came to the event socket.
#[derive(Debug, Clone, Copy, PartialEq, Eq, Structural)]
pub enum EventInput {
    /// It is of another version of the protocol, and is left out.
    Incompatible,
    /// It has no timestamp, and is left out.
    MissingTimestamp,
    /// It is handed to the port with its timestamp.
    Event,
    /// It is handed to the port without a timestamp.
    General,
}

/// Calls `statime::port::is_message_buffer_compatible`. The claim is that it
/// holds exactly for datagrams of at least two bytes in which the lower half
/// of the second byte is 2.
#[verifier::external_body]
pub(crate) fn is_compatible(datagram: &[u8]) -> (compatible: bool)
    ensures
        compatible == compatible_version(datagram@),
{
    statime::port::is_message_buffer_compatible(datagram)
}

/// Whether a datagram is a message of the second version of the protocol.
pub open spec fn compatible_version(datagram: Seq<u8>) -> bool {
    datagram.len() >= 2 && datagram[1] & 0xf == 2
}

/// Decides what is done with a datagram that came to an event socket.
pub fn event_input(datagram: &[u8], has_timestamp: bool) -> (input: EventInput)
    ensures
        input == (if !compatible_version(datagram@) {
            EventInput::Incompatible
        } else if has_timestamp {
            EventInput::Event
        } else {
            EventInput::MissingTimestamp
        }),
{
    if !is_compatible(datagram) {
        EventInput::Incompatible
    } else if has_timestamp {
        EventInput::Event
    } else {
        EventInput::MissingTimestamp
    }
}

/// Decides what is done with a frame that came to an ethernet socket, on which
/// both kinds of messages come.
pub fn ethernet_input(has_timestamp: bool) -> (input: EventInput)
    ensures
        input == (if has_timestamp {
            EventInput::Event
        } else {
            EventInput::General
        }),
{
    if has_timestamp {
        EventInput::Event
    } else {
        EventInput::General
    }
}

/// How messages of the protocol are carried.
#[derive(Debug, Clone, Copy, PartialEq, Eq, Structural)]
pub enum Transport {
    /// Over two sockets, one for messages with a timestamp.
    Udp,
    /// Over one socket for all messages.
    Ethernet,
}

/// What the task of a port is doing.
#[derive(Debug, Clone, Copy, PartialEq, Eq, Structural)]
pub enum TaskState {
    /// The best clock is being chosen, and the port is with those who do so.
    AwaitingPort,
    /// What the port asks for is carried out.
    Acting,
    /// Messages and timers are waited for.
    Listening,
}

/// What happens to the task of a port.
#[derive(Debug, Clone, Copy, PartialEq, Eq, Structural)]
pub enum TaskEvent {
    /// The port comes back, as a master or not.
    PortReceived { master: bool },
    /// What the port has asked for was carried out. A message can have been
    /// sent whose timestamp the port waits for.
    ActionsDone { timestamp: bool },
    /// A message has come.
    MessageReceived(EventInput),
    /// A timer has fired.
    TimerFired(PortTimer),
    /// The best clock is to be chosen.
    BmcaRequested,
}

/// What the task of a port does.
#[derive(Debug, Clone, Copy, PartialEq, Eq, Structural)]
pub enum TaskAction {
    /// The port goes on, and what it asks for is carried out. Where it is not a
    /// master, information that was to be forwarded can have to be dropped
    /// before that, so that it is not kept too long.
    EndBmca { drop_forwarded: bool },
    /// The port gets the timestamp that it waits for.
    HandleSendTimestamp,
    /// Messages and timers are waited for.
    Listen,
    /// The port gets a message with its timestamp.
    HandleEvent,
    /// The port gets a message.
    HandleGeneral,
    /// The message is left out.
    Skip,
    /// The port learns that a timer has fired.
    HandleTimer(PortTimer),
    /// The port is handed to those who choose the best clock.
    StartBmca,
}

/// What the task of a port does next, where the event is one that can happen.
pub open spec fn task_step(transport: Transport, state: TaskState, event: TaskEvent) -> Option<
    (TaskState, TaskAction),
> {
    match (state, event) {
        (TaskState::AwaitingPort, TaskEvent::PortReceived { master }) => Some(
            (
                TaskState::Acting,
                TaskAction::EndBmca { drop_forwarded: transport == Transport::Ethernet && !master },
            ),
        ),
        (TaskState::Acting, TaskEvent::ActionsDone { timestamp }) => if timestamp {
            Some((TaskState::Acting, TaskAction::HandleSendTimestamp))
        } else {
            Some((TaskState::Listening, TaskAction::Listen))
        },
        (TaskState::Listening, TaskEvent::MessageReceived(input)) => Some(
            (
                TaskState::Acting,
                match input {
                    EventInput::Event => TaskAction::HandleEvent,
                    EventInput::General => TaskAction::HandleGeneral,
                    EventInput::Incompatible | EventInput::MissingTimestamp => TaskAction::Skip,
                },
            ),
        ),
        (TaskState::Listening, TaskEvent::TimerFired(timer)) => Some(
            (TaskState::Acting, TaskAction::HandleTimer(timer)),
        ),
        (TaskState::Listening, TaskEvent::BmcaRequested) => Some(
            (TaskState::AwaitingPort, TaskAction::StartBmca),
        ),
        _ => None,
    }
}

/// The task of a port.
#[derive(Debug, Clone, Copy, PartialEq, Eq, Structural)]
pub struct PortTask {
    pub transport: Transport,
    pub state: TaskState,
}

impl PortTask {
    /// A task that waits for its port.
    pub fn new(transport: Transport) -> (task: PortTask)
        ensures
            task == (PortTask { transport, state: TaskState::AwaitingPort }),
    {
        PortTask { transport, state: TaskState::AwaitingPort }
    }

    /// Decides what the task does when something happens. Nothing changes
    /// where that cannot happen now.
    pub fn next(&mut self, event: TaskEvent) -> (action: Option<TaskAction>)
        ensures
            final(self).transport == old(self).transport,
            match task_step(old(self).transport, old(self).state, event) {
                Some((state, next)) => final(self).state == state && action == Some(next),
                None => final(self).state == old(self).state && action is None,
            },
            old(self).state == TaskState::Listening ==> (event matches TaskEvent::TimerFired(timer)
                ==> action == Some(TaskAction::HandleTimer(timer))),
    {
        match (self.state, event) {
            (TaskState::AwaitingPort, TaskEvent::PortReceived { master }) => {
                let drop_forwarded = match self.transport {
                    Transport::Ethernet => !master,
                    Transport::Udp => false,
                };
                self.state = TaskState::Acting;
                Some(TaskAction::EndBmca { drop_forwarded })
            },
            (TaskState::Acting, TaskEvent::ActionsDone { timestamp }) => {
                if timestamp {
                    Some(TaskAction::HandleSendTimestamp)
                } else {
                    self.state = TaskState::Listening;
                    Some(TaskAction::Listen)
                }
            },
            (TaskState::Listening, TaskEvent::MessageReceived(input)) => {
                self.state = TaskState::Acting;
                Some(
                    match input {
                        EventInput::Event => TaskAction::HandleEvent,
                        EventInput::General => TaskAction::HandleGeneral,
                        EventInput::Incompatible => TaskAction::Skip,
                        EventInput::MissingTimestamp => TaskAction::Skip,
                    },
                )
            },
            (TaskState::Listening, TaskEvent::TimerFired(timer)) => {
                self.state = TaskState::Acting;
                Some(TaskAction::HandleTimer(timer))
            },
            (TaskState::Listening, TaskEvent::BmcaRequested) => {
                self.state = TaskState::AwaitingPort;
                Some(TaskAction::StartBmca)
            },
            _ => None,
        }
    }
}

/// The port is handed to those who choose the best clock only when everything
/// that it has asked for was carried out and it waits for no timestamp: before
/// the port is given away the task listens, and it begins to listen only when
/// there is no timestamp to return.
pub proof fn lemma_port_is_given_away_at_rest(
    transport: Transport,
    state: TaskState,
    event: TaskEvent,
)
    ensures
        task_step(transport, state, event) matches Some((_, TaskAction::StartBmca))
            ==> state == TaskState::Listening,
        task_step(transport, state, event) matches Some((TaskState::Listening, _)) ==> {
            &&& state == TaskState::Acting
            &&& event == TaskEvent::ActionsDone { timestamp: false }
        },
        state == TaskState::AwaitingPort && task_step(transport, state, event) is Some
            ==> event is PortReceived,
{
}

/// The settings of the clock.
#[derive(Debug, Clone, Copy, PartialEq, Eq)]
pub struct InstanceSettings {
    pub clock_identity: [u8; 8],
    pub priority_1: u8,
    pub priority_2: u8,
    pub domain_number: u8,
    pub slave_only: bool,
    pub sdo_id: u16,
    pub path_trace: bool,
}

/// The settings of the port.
#[derive(Debug, Clone, Copy, PartialEq, Eq, Structural)]
pub struct PortSettings {
    pub announce_interval: i8,
    pub sync_interval: i8,
    pub announce_receipt_timeout: u8,
    pub master_only: bool,
    pub delay_asymmetry: i64,
    pub delay_interval: i8,
}

/// Calls `statime::config::ClockIdentity::from_mac_address`. The claim is that
/// the identity is the address followed by two zeros.
#[verifier::external_body]
pub(crate) fn clock_identity(mac: [u8; 6]) -> (identity: [u8; 8])
    ensures
        identity@ == mac@ + seq![0u8, 0u8],
{
    statime::config::ClockIdentity::from_mac_address(mac).0
}

/// The settings of the clock of a network interface: it comes last when the
/// best clock is chosen.
pub fn instance_settings(mac: [u8; 6]) -> (settings: InstanceSettings)
    ensures
        settings.clock_identity@ == mac@ + seq![0u8, 0u8],
        settings.priority_1 == 255,
        settings.priority_2 == 255,
        settings.domain_number == 0,
        !settings.slave_only,
        settings.sdo_id == 0,
        settings.path_trace,
{
    InstanceSettings {
        clock_identity: clock_identity(mac),
        priority_1: 255,
        priority_2: 255,
        domain_number: 0,
        slave_only: false,
        sdo_id: 0,
        path_trace: true,
    }
}

/// The settings of the port: intervals are powers of two of a second.
pub fn port_settings() -> (settings: PortSettings)
    ensures
        settings == (PortSettings {
            announce_interval: 1,
            sync_interval: 0,
            announce_receipt_timeout: 3,
            master_only: false,
            delay_asymmetry: 0,
            delay_interval: 1,
        }),
{
    PortSettings {
        announce_interval: 1,
        sync_interval: 0,
        announce_receipt_timeout: 3,
        master_only: false,
        delay_asymmetry: 0,
        delay_interval: 1,
    }
}

/// The state of the clock, each value in the form in which it is published.
#[derive(Debug)]
pub struct InstanceStats<V> {
    pub offset_from_master: V,
    pub steps_removed: V,
    pub clock_identity: V,
    pub clock_quality: V,
    pub domain_number: V,
    pub number_ports: V,
    pub priority_1: V,
    pub priority_2: V,
    pub sdo_id: V,
    pub slave_only: V,
    pub grandmaster_clock_quality: V,
    pub grandmaster_identity: V,
    pub grandmaster_priority_1: V,
    pub grandmaster_priority_2: V,
    pub parent_port_identity: V,
    pub path_trace_enabled: V,
    pub path_trace_list: V,
    pub current_utc_offset: V,
    pub frequency_traceable: V,
    pub is_ptp: V,
    pub leap_indicator: V,
    pub time_traceable: V,
}

/// A value that is published, or stored, under a key.
#[derive(Debug)]
pub struct Report<V> {
    /// Whether the value is stored, and not only handed to those who listen.
    pub stored: bool,
    pub key: String,
    pub value: V,
}

/// What is reported of a value.
pub open spec fn reported<V>(report: Report<V>) -> (bool, Seq<char>, V) {
    (report.stored, report.key@, report.value)
}

/// What is reported of the state of the clock, in this order.
pub open spec fn instance_report<V>(root: Seq<char>, stats: InstanceStats<V>) -> Seq<
    (bool, Seq<char>, V),
> {
    seq![
        (false, under(root, "status/current/offsetFromMaster"@), stats.offset_from_master),
        (false, under(root, "status/current/stepsRemoved"@), stats.steps_removed),
        (true, under(root, "status/default/clock/id"@), stats.clock_identity),
        (true, under(root, "status/default/clock/quality"@), stats.clock_quality),
        (true, under(root, "status/default/domain"@), stats.domain_number),
        (true, under(root, "status/default/ports"@), stats.number_ports),
        (true, under(root, "status/default/priority1"@), stats.priority_1),
        (true, under(root, "status/default/priority2"@), stats.priority_2),
        (true, under(root, "status/default/sdoID"@), stats.sdo_id),
        (true, under(root, "status/default/slaveOnly"@), stats.slave_only),
        (
            true,
            under(root, "status/ptp/parent/grandmaster/clock/quality"@),
            stats.grandmaster_clock_quality,
        ),
        (true, under(root, "status/parent/grandmaster/id"@), stats.grandmaster_identity),
        (
            true,
            under(root, "status/ptp/parent/grandmaster/priority1"@),
            stats.grandmaster_priority_1,
        ),
        (
            true,
            under(root, "status/ptp/parent/grandmaster/priority2"@),
            stats.grandmaster_priority_2,
        ),
        (true, under(root, "status/parent/port/id"@), stats.parent_port_identity),
        (true, under(root, "status/pathTrace/enabled"@), stats.path_trace_enabled),
        (true, under(root, "status/pathTrace/list"@), stats.path_trace_list),
        (false, under(root, "status/time/properties/utcOffset"@), stats.current_utc_offset),
        (
            true,
            under(root, "status/ptp/time/properties/frequencyTraceable"@),
            stats.frequency_traceable,
        ),
        (true, under(root, "status/time/properties/isPtp"@), stats.is_ptp),
        (true, under(root, "status/ptp/time/properties/leadIndicator"@), stats.leap_indicator),
        (true, under(root, "status/ptp/time/properties/timeTraceable"@), stats.time_traceable),
    ]
}

fn stored<V>(root: &str, key: &str, value: V) -> (report: Report<V>)
    ensures
        reported(report) == (true, under(root@, key@), value),
{
    Report { stored: true, key: below(root.to_owned(), key), value }
}

fn published<V>(root: &str, key: &str, value: V) -> (report: Report<V>)
    ensures
        reported(report) == (false, under(root@, key@), value),
{
    Report { stored: false, key: below(root.to_owned(), key), value }
}

/// Lists what is reported of the state of the clock.
pub fn report_stats<V>(root_key: &str, stats: InstanceStats<V>) -> (reports: Vec<Report<V>>)
    ensures
        reports@.map_values(|report: Report<V>| reported(report)) == instance_report(
            root_key@,
            stats,
        ),
{
    let reports = vec![
        published(root_key, "status/current/offsetFromMaster", stats.offset_from_master),
        published(root_key, "status/current/stepsRemoved", stats.steps_removed),
        stored(root_key, "status/default/clock/id", stats.clock_identity),
        stored(root_key, "status/default/clock/quality", stats.clock_quality),
        stored(root_key, "status/default/domain", stats.domain_number),
        stored(root_key, "status/default/ports", stats.number_ports),
        stored(root_key, "status/default/priority1", stats.priority_1),
        stored(root_key, "status/default/priority2", stats.priority_2),
        stored(root_key, "status/default/sdoID", stats.sdo_id),
        stored(root_key, "status/default/slaveOnly", stats.slave_only),
        stored(
            root_key,
            "status/ptp/parent/grandmaster/clock/quality",
            stats.grandmaster_clock_quality,
        ),
        stored(root_key, "status/parent/grandmaster/id", stats.grandmaster_identity),
        stored(
            root_key,
            "status/ptp/parent/grandmaster/priority1",
            stats.grandmaster_priority_1,
        ),
        stored(
            root_key,
            "status/ptp/parent/grandmaster/priority2",
            stats.grandmaster_priority_2,
        ),
        stored(root_key, "status/parent/port/id", stats.parent_port_identity),
        stored(root_key, "status/pathTrace/enabled", stats.path_trace_enabled),
        stored(root_key, "status/pathTrace/list", stats.path_trace_list),
        published(root_key, "status/time/properties/utcOffset", stats.current_utc_offset),
        stored(
            root_key,
            "status/ptp/time/properties/frequencyTraceable",
            stats.frequency_traceable,
        ),
        stored(root_key, "status/time/properties/isPtp", stats.is_ptp),
        stored(root_key, "status/ptp/time/properties/leadIndicator", stats.leap_indicator),
        stored(root_key, "status/ptp/time/properties/timeTraceable", stats.time_traceable),
    ];
    assert(reports@.map_values(|report: Report<V>| reported(report)) =~= instance_report(
        root_key@,
        stats,
    ));
    reports
}

/// Each timer is handled as itself: where the task listens and a timer fires,
/// the port learns that exactly this timer has fired, over either transport. So
/// two different timers never lead to the same action.
pub proof fn lemma_timers_are_handled_as_themselves(
    transport: Transport,
    timer: PortTimer,
    other: PortTimer,
)
    ensures
        task_step(transport, TaskState::Listening, TaskEvent::TimerFired(timer)) matches Some(
            (state, action),
        ) && state == TaskState::Acting && match timer {
            PortTimer::Announce => action == TaskAction::HandleTimer(PortTimer::Announce),
            PortTimer::Sync => action == TaskAction::HandleTimer(PortTimer::Sync),
            PortTimer::AnnounceTimeout => action == TaskAction::HandleTimer(
                PortTimer::AnnounceTimeout,
            ),
            PortTimer::DelayRequest => action == TaskAction::HandleTimer(PortTimer::DelayRequest),
            PortTimer::FilterUpdate => action == TaskAction::HandleTimer(PortTimer::FilterUpdate),
        },
        task_step(transport, TaskState::Listening, TaskEvent::TimerFired(timer)) == task_step(
            transport,
            TaskState::Listening,
            TaskEvent::TimerFired(other),
        ) <==> timer == other,
{
}

/// Each message that came while the task listens is handed to the port as what
/// it is: with its timestamp, without one, or not at all. The task then carries
/// out what the port asks for.
pub proof fn lemma_messages_are_handled_by_their_kind(
    transport: Transport,
    input: EventInput,
    other: TaskEvent,
)
    ensures
        task_step(
            transport,
            TaskState::Listening,
            TaskEvent::MessageReceived(input),
        ) matches Some((state, action)) && {
            &&& state == TaskState::Acting
            &&& action == TaskAction::HandleEvent <==> input == EventInput::Event
            &&& action == TaskAction::HandleGeneral <==> input == EventInput::General
            &&& action == TaskAction::Skip <==> input == EventInput::Incompatible || input
                == EventInput::MissingTimestamp
        },
        task_step(transport, TaskState::Listening, other) matches Some((_, action)) && (action
            is HandleEvent || action is HandleGeneral || action is Skip) ==> other
            is MessageReceived,
{
}

/// What can happen to a task: while it waits for its port, that the port comes
/// back; while it acts, that it is done; while it listens, that a message comes,
/// a timer fires or the best clock is to be chosen. Nothing else changes it.
pub proof fn lemma_what_can_happen_to_a_task(
    transport: Transport,
    state: TaskState,
    event: TaskEvent,
)
    ensures
        task_step(transport, state, event) is Some <==> match state {
            TaskState::AwaitingPort => event is PortReceived,
            TaskState::Acting => event is ActionsDone,
            TaskState::Listening => event is MessageReceived || event is TimerFired || event
                is BmcaRequested,
        },
{
}

/// A port goes round: it comes back from where the best clock is chosen, acts
/// until it waits for no timestamp, listens, and acts again for whatever happens,
/// until the best clock is to be chosen, for which it is given away. Information
/// that was to be forwarded is dropped where the messages are carried over
/// ethernet and the port came back as something else than a master, and only
/// there.
pub proof fn lemma_port_goes_round(transport: Transport, master: bool)
    ensures
        task_step(
            transport,
            TaskState::AwaitingPort,
            TaskEvent::PortReceived { master },
        ) matches Some((state, action)) && state == TaskState::Acting && action
            == (TaskAction::EndBmca { drop_forwarded: !master && transport is Ethernet }),
        task_step(
            transport,
            TaskState::Acting,
            TaskEvent::ActionsDone { timestamp: true },
        ) == Some((TaskState::Acting, TaskAction::HandleSendTimestamp)),
        task_step(
            transport,
            TaskState::Acting,
            TaskEvent::ActionsDone { timestamp: false },
        ) == Some((TaskState::Listening, TaskAction::Listen)),
        task_step(transport, TaskState::Listening, TaskEvent::BmcaRequested) == Some(
            (TaskState::AwaitingPort, TaskAction::StartBmca),
        ),
{
}

/// What a port asks for is what is done: a timer that is to be started is
/// started, each one for the request that names it; a message goes out timed
/// where it is one of those, to the peers on the link where it is meant for them
/// and to all others where it is not; and information is passed on where that is
/// asked for. No two requests are answered in the same way.
pub proof fn lemma_requests_are_carried_out(a: PortRequest, b: PortRequest, link_local: bool)
    ensures
        step_for(a) == step_for(b) ==> a == b,
        step_for(PortRequest::ResetAnnounceTimer) == PortStep::Reset(PortTimer::Announce),
        step_for(PortRequest::ResetSyncTimer) == PortStep::Reset(PortTimer::Sync),
        step_for(PortRequest::ResetDelayRequestTimer) == PortStep::Reset(PortTimer::DelayRequest),
        step_for(PortRequest::ResetAnnounceReceiptTimer) == PortStep::Reset(
            PortTimer::AnnounceTimeout,
        ),
        step_for(PortRequest::ResetFilterUpdateTimer) == PortStep::Reset(PortTimer::FilterUpdate),
        step_for(a) is Forward <==> a is ForwardTlv,
        step_for(PortRequest::SendEvent { link_local }) matches PortStep::SendTimed(target) && (
        target == MessageTarget::PdelayEvent || target == MessageTarget::PrimaryEvent) && (target
            == MessageTarget::PdelayEvent <==> link_local),
        step_for(PortRequest::SendGeneral { link_local }) matches PortStep::Send(target) && (target
            == MessageTarget::PdelayGeneral || target == MessageTarget::PrimaryGeneral) && (target
            == MessageTarget::PdelayGeneral <==> link_local),
{
}

/// A message is of the version that is understood where the lower half of its
/// second byte is 2, whatever the upper half is. What is shorter is none.
pub proof fn lemma_version_of_messages(datagram: Seq<u8>)
    ensures
        datagram.len() < 2 ==> !compatible_version(datagram),
        datagram.len() >= 2 ==> (compatible_version(datagram) <==> datagram[1] % 16 == 2),
{
    if datagram.len() >= 2 {
        let byte = datagram[1];
        assert(byte & 0xf == byte % 16) by (bit_vector);
    }
}

/// The offset grows with the time of the clock and shrinks with that of the
/// system, in nanoseconds, of which a second has a thousand million. Seconds
/// that are given as nanoseconds make no difference.
pub proof fn lemma_offset_in_nanoseconds(
    secs: int,
    nanos: int,
    system_secs: int,
    system_nanos: int,
    n: int,
)
    ensures
        offset_of(secs, nanos + n, system_secs, system_nanos) == offset_of(
            secs,
            nanos,
            system_secs,
            system_nanos,
        ) + n,
        offset_of(secs + n, nanos, system_secs, system_nanos) == offset_of(
            secs,
            nanos + n * 1_000_000_000,
            system_secs,
            system_nanos,
        ),
        offset_of(system_secs, system_nanos, secs, nanos) == -offset_of(
            secs,
            nanos,
            system_secs,
            system_nanos,
        ),
        offset_of(secs, nanos, secs, nanos) == 0,
{
}

/// What is reported of the state of the clock: each value once, under its own
/// key below the root. All of them are stored but the offset from the master,
/// the steps to it and the offset from universal time, which are only handed to
/// those who listen.
pub proof fn lemma_each_value_is_reported<V>(root: Seq<char>, stats: InstanceStats<V>)
    ensures
        ({
            let report = instance_report(root, stats);
            &&& report.len() == 22
            &&& forall|i: int|
                0 <= i < 22 ==> ((#[trigger] report[i]).0 <==> i != 0 && i != 1 && i != 17)
            &&& report[0].1 == under(root, "status/current/offsetFromMaster"@)
            &&& report[0].2 == stats.offset_from_master
            &&& report[1].1 == under(root, "status/current/stepsRemoved"@)
            &&& report[1].2 == stats.steps_removed
            &&& report[2].1 == under(root, "status/default/clock/id"@)
            &&& report[2].2 == stats.clock_identity
            &&& report[3].1 == under(root, "status/default/clock/quality"@)
            &&& report[3].2 == stats.clock_quality
            &&& report[4].1 == under(root, "status/default/domain"@)
            &&& report[4].2 == stats.domain_number
            &&& report[5].1 == under(root, "status/default/ports"@)
            &&& report[5].2 == stats.number_ports
            &&& report[6].1 == under(root, "status/default/priority1"@)
            &&& report[6].2 == stats.priority_1
            &&& report[7].1 == under(root, "status/default/priority2"@)
            &&& report[7].2 == stats.priority_2
            &&& report[8].1 == under(root, "status/default/sdoID"@)
            &&& report[8].2 == stats.sdo_id
            &&& report[9].1 == under(root, "status/default/slaveOnly"@)
            &&& report[9].2 == stats.slave_only
            &&& report[10].1 == under(root, "status/ptp/parent/grandmaster/clock/quality"@)
            &&& report[10].2 == stats.grandmaster_clock_quality
            &&& report[11].1 == under(root, "status/parent/grandmaster/id"@)
            &&& report[11].2 == stats.grandmaster_identity
            &&& report[12].1 == under(root, "status/ptp/parent/grandmaster/priority1"@)
            &&& report[12].2 == stats.grandmaster_priority_1
            &&& report[13].1 == under(root, "status/ptp/parent/grandmaster/priority2"@)
            &&& report[13].2 == stats.grandmaster_priority_2
            &&& report[14].1 == under(root, "status/parent/port/id"@)
            &&& report[14].2 == stats.parent_port_identity
            &&& report[15].1 == under(root, "status/pathTrace/enabled"@)
            &&& report[15].2 == stats.path_trace_enabled
            &&& report[16].1 == under(root, "status/pathTrace/list"@)
            &&& report[16].2 == stats.path_trace_list
            &&& report[17].1 == under(root, "status/time/properties/utcOffset"@)
            &&& report[17].2 == stats.current_utc_offset
            &&& report[18].1 == under(root, "status/ptp/time/properties/frequencyTraceable"@)
            &&& report[18].2 == stats.frequency_traceable
            &&& report[19].1 == under(root, "status/time/properties/isPtp"@)
            &&& report[19].2 == stats.is_ptp
            &&& report[20].1 == under(root, "status/ptp/time/properties/leadIndicator"@)
            &&& report[20].2 == stats.leap_indicator
            &&& report[21].1 == under(root, "status/ptp/time/properties/timeTraceable"@)
            &&& report[21].2 == stats.time_traceable
        }),
{
}

} // verus!
