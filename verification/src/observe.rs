//! What is logged of the connections of this process, and how their state is
//! written out for a reader.
use vstd::prelude::*;

use crate::text::{dec, dec_string, push_dec};

verus! {

/// From when on sending an item is worth a line, in nanoseconds.
pub const SLOW_CHANNEL_SEND: u64 = 10_000_000;

/// From when on a request is worth a line, in nanoseconds.
pub const SLOW_REQUEST: u64 = 10_000_000;

/// How prominently something is logged.
#[derive(Clone, Copy, Debug, PartialEq, Eq, Structural)]
pub enum LogLevel {
    Trace,
    Info,
    Warn,
}

/// A line of the log: how prominent it is, and what it says.
#[derive(Clone, Copy, Debug)]
pub struct LogLine {
    pub level: LogLevel,
    pub message: &'static str,
}

/// What happens to a request, as its caller or its handler sees it.
#[derive(Clone, Copy, Debug, PartialEq, Eq, Structural)]
pub enum RpcEvent {
    Started,
    Finished { ok: bool, elapsed_ns: u64 },
}

/// What happens to a channel.
#[derive(Clone, Copy, Debug, PartialEq, Eq, Structural)]
pub enum ChannelEvent {
    Opened,
    SendWaitingForCredit,
    SendFinished { sent: bool, elapsed_ns: u64 },
    TrySend { sent: bool },
    Closed,
    Reset,
    SendStarted,
    CreditGranted,
    ItemReceived,
    ItemConsumed,
}

/// What happens to a connection.
#[derive(Clone, Copy, Debug, PartialEq, Eq, Structural)]
pub enum DriverEvent {
    ConnectionOpened,
    ConnectionClosed,
    RequestFinished { ok: bool, elapsed_ns: u64 },
    OutboundQueueFull,
    OutboundQueueClosed,
    DecodeError,
    EncodeError,
    ProtocolError,
    RequestStarted,
    FrameRead,
    FrameWritten,
}

/// The line says `message` at `level`.
pub open spec fn says(line: LogLine, level: LogLevel, message: Seq<char>) -> bool {
    line.level == level && line.message@ == message
}

/// What went wrong or took long is told, the rest is detail.
pub open spec fn level_of(fine: bool, elapsed_ns: u64, slow: u64) -> LogLevel {
    if !fine || elapsed_ns >= slow {
        LogLevel::Info
    } else {
        LogLevel::Trace
    }
}

/// The line for an event of a request.
pub open spec fn is_rpc_line(event: RpcEvent, line: LogLine) -> bool {
    match event {
        RpcEvent::Started => says(line, LogLevel::Trace, "vox rpc started"@),
        RpcEvent::Finished { ok, elapsed_ns } => says(
            line,
            level_of(ok, elapsed_ns, SLOW_REQUEST),
            "vox rpc finished"@,
        ),
    }
}

/// The line for an event of a channel. An item that could be sent at once is not
/// worth one.
pub open spec fn is_channel_line(event: ChannelEvent, line: Option<LogLine>) -> bool {
    match event {
        ChannelEvent::TrySend { sent: true } => line is None,
        _ => line is Some && {
            let l = line->0;
            match event {
                ChannelEvent::Opened => says(l, LogLevel::Info, "vox channel opened"@),
                ChannelEvent::SendWaitingForCredit => says(
                    l,
                    LogLevel::Info,
                    "vox channel waiting for credit"@,
                ),
                ChannelEvent::SendFinished { sent, elapsed_ns } => says(
                    l,
                    level_of(sent, elapsed_ns, SLOW_CHANNEL_SEND),
                    "vox channel send finished"@,
                ),
                ChannelEvent::TrySend { .. } => says(
                    l,
                    LogLevel::Warn,
                    "vox channel try_send failed"@,
                ),
                ChannelEvent::Closed => says(l, LogLevel::Info, "vox channel closed"@),
                ChannelEvent::Reset => says(l, LogLevel::Warn, "vox channel reset"@),
                ChannelEvent::SendStarted => says(l, LogLevel::Trace, "vox channel send started"@),
                ChannelEvent::CreditGranted => says(
                    l,
                    LogLevel::Trace,
                    "vox channel credit granted"@,
                ),
                ChannelEvent::ItemReceived => says(
                    l,
                    LogLevel::Trace,
                    "vox channel item received"@,
                ),
                ChannelEvent::ItemConsumed => says(
                    l,
                    LogLevel::Trace,
                    "vox channel item consumed"@,
                ),
            }
        },
    }
}

/// The line for an event of a connection.
pub open spec fn is_driver_line(event: DriverEvent, line: LogLine) -> bool {
    match event {
        DriverEvent::ConnectionOpened => says(line, LogLevel::Info, "vox connection opened"@),
        DriverEvent::ConnectionClosed => says(line, LogLevel::Info, "vox connection closed"@),
        DriverEvent::RequestFinished { ok, elapsed_ns } => says(
            line,
            level_of(ok, elapsed_ns, SLOW_REQUEST),
            "vox request finished"@,
        ),
        DriverEvent::OutboundQueueFull => says(line, LogLevel::Warn, "vox outbound queue full"@),
        DriverEvent::OutboundQueueClosed => says(
            line,
            LogLevel::Warn,
            "vox outbound queue closed"@,
        ),
        DriverEvent::DecodeError => says(line, LogLevel::Warn, "vox decode error"@),
        DriverEvent::EncodeError => says(line, LogLevel::Warn, "vox encode error"@),
        DriverEvent::ProtocolError => says(line, LogLevel::Warn, "vox protocol error"@),
        DriverEvent::RequestStarted => says(line, LogLevel::Trace, "vox request started"@),
        DriverEvent::FrameRead => says(line, LogLevel::Trace, "vox frame read"@),
        DriverEvent::FrameWritten => says(line, LogLevel::Trace, "vox frame written"@),
    }
}

/// What went wrong or took long is told, the rest is detail.
fn level_for(fine: bool, elapsed_ns: u64, slow: u64) -> (l: LogLevel)
    ensures
        l == level_of(fine, elapsed_ns, slow),
{
    if !fine || elapsed_ns >= slow {
        LogLevel::Info
    } else {
        LogLevel::Trace
    }
}

/// Logs what happens on the connections of one part of the program.
#[derive(Clone, Copy, Debug)]
pub struct VoxObserverLogger {
    pub component: &'static str,
    pub surface: &'static str,
    pub pid: Option<u32>,
}

impl VoxObserverLogger {
    /// A logger that names no process.
    pub fn new(component: &'static str, surface: &'static str) -> (l: Self)
        ensures
            l.component@ == component@,
            l.surface@ == surface@,
            l.pid is None,
    {
        VoxObserverLogger { component, surface, pid: None }
    }

    /// The logger, naming the process `pid`.
    pub fn with_pid(self, pid: u32) -> (l: Self)
        ensures
            l.component@ == self.component@,
            l.surface@ == self.surface@,
            l.pid == Some(pid),
    {
        VoxObserverLogger { component: self.component, surface: self.surface, pid: Some(pid) }
    }

    /// What is logged of an event of a request.
    pub fn rpc_event(&self, event: RpcEvent) -> (line: LogLine)
        ensures
            is_rpc_line(event, line),
    {
        match event {
            RpcEvent::Started => LogLine { level: LogLevel::Trace, message: "vox rpc started" },
            RpcEvent::Finished { ok, elapsed_ns } => LogLine {
                level: level_for(ok, elapsed_ns, SLOW_REQUEST),
                message: "vox rpc finished",
            },
        }
    }

    /// What is logged of an event of a channel.
    pub fn channel_event(&self, event: ChannelEvent) -> (line: Option<LogLine>)
        ensures
            is_channel_line(event, line),
    {
        match event {
            ChannelEvent::Opened => Some(
                LogLine { level: LogLevel::Info, message: "vox channel opened" },
            ),
            ChannelEvent::SendWaitingForCredit => Some(
                LogLine { level: LogLevel::Info, message: "vox channel waiting for credit" },
            ),
            ChannelEvent::SendFinished { sent, elapsed_ns } => Some(
                LogLine {
                    level: level_for(sent, elapsed_ns, SLOW_CHANNEL_SEND),
                    message: "vox channel send finished",
                },
            ),
            ChannelEvent::TrySend { sent } => if sent {
                None
            } else {
                Some(LogLine { level: LogLevel::Warn, message: "vox channel try_send failed" })
            },
            ChannelEvent::Closed => Some(
                LogLine { level: LogLevel::Info, message: "vox channel closed" },
            ),
            ChannelEvent::Reset => Some(
                LogLine { level: LogLevel::Warn, message: "vox channel reset" },
            ),
            ChannelEvent::SendStarted => Some(
                LogLine { level: LogLevel::Trace, message: "vox channel send started" },
            ),
            ChannelEvent::CreditGranted => Some(
                LogLine { level: LogLevel::Trace, message: "vox channel credit granted" },
            ),
            ChannelEvent::ItemReceived => Some(
                LogLine { level: LogLevel::Trace, message: "vox channel item received" },
            ),
            ChannelEvent::ItemConsumed => Some(
                LogLine { level: LogLevel::Trace, message: "vox channel item consumed" },
            ),
        }
    }

    /// What is logged of an event of a connection.
    pub fn driver_event(&self, event: DriverEvent) -> (line: LogLine)
        ensures
            is_driver_line(event, line),
    {
        match event {
            DriverEvent::ConnectionOpened => LogLine {
                level: LogLevel::Info,
                message: "vox connection opened",
            },
            DriverEvent::ConnectionClosed => LogLine {
                level: LogLevel::Info,
                message: "vox connection closed",
            },
            DriverEvent::RequestFinished { ok, elapsed_ns } => LogLine {
                level: level_for(ok, elapsed_ns, SLOW_REQUEST),
                message: "vox request finished",
            },
            DriverEvent::OutboundQueueFull => LogLine {
                level: LogLevel::Warn,
                message: "vox outbound queue full",
            },
            DriverEvent::OutboundQueueClosed => LogLine {
                level: LogLevel::Warn,
                message: "vox outbound queue closed",
            },
            DriverEvent::DecodeError => LogLine {
                level: LogLevel::Warn,
                message: "vox decode error",
            },
            DriverEvent::EncodeError => LogLine {
                level: LogLevel::Warn,
                message: "vox encode error",
            },
            DriverEvent::ProtocolError => LogLine {
                level: LogLevel::Warn,
                message: "vox protocol error",
            },
            DriverEvent::RequestStarted => LogLine {
                level: LogLevel::Trace,
                message: "vox request started",
            },
            DriverEvent::FrameRead => LogLine { level: LogLevel::Trace, message: "vox frame read" },
            DriverEvent::FrameWritten => LogLine {
                level: LogLevel::Trace,
                message: "vox frame written",
            },
        }
    }

    /// What is logged of an event of the transport: all of it, as detail.
    pub fn transport_event(&self) -> (line: LogLine)
        ensures
            says(line, LogLevel::Trace, "vox transport event"@),
    {
        LogLine { level: LogLevel::Trace, message: "vox transport event" }
    }
}

/// The law of the log: failures and full queues are never logged as mere detail.
pub proof fn failures_are_told(
    rpc: RpcEvent,
    rpc_line: LogLine,
    channel: ChannelEvent,
    channel_line: Option<LogLine>,
    driver: DriverEvent,
    driver_line: LogLine,
)
    requires
        is_rpc_line(rpc, rpc_line),
        is_channel_line(channel, channel_line),
        is_driver_line(driver, driver_line),
    ensures
        rpc matches RpcEvent::Finished { ok, .. } ==> !ok ==> rpc_line.level != LogLevel::Trace,
        channel matches ChannelEvent::SendFinished { sent, .. } ==> !sent ==> channel_line is Some
            && channel_line->0.level != LogLevel::Trace,
        channel matches ChannelEvent::TrySend { sent } ==> !sent ==> channel_line is Some
            && channel_line->0.level == LogLevel::Warn,
        driver matches DriverEvent::RequestFinished { ok, .. } ==> !ok ==> driver_line.level
            != LogLevel::Trace,
        driver is OutboundQueueFull || driver is OutboundQueueClosed || driver is DecodeError
            || driver is EncodeError || driver is ProtocolError ==> driver_line.level
            == LogLevel::Warn,
{
}

/// A connection that can be asked for its state, and whose it is.
pub struct VoxDebugEntry<C> {
    pub id: u64,
    pub component: &'static str,
    pub surface: &'static str,
    pub role: &'static str,
    pub caller: C,
}

/// The connections that can be asked for their state.
pub struct VoxDebugRegistry<C> {
    next_id: u64,
    entries: Vec<VoxDebugEntry<C>>,
}

/// What is left where the registration `id` has gone.
pub open spec fn without_id<C>(s: Seq<VoxDebugEntry<C>>, id: u64) -> Seq<VoxDebugEntry<C>>
    decreases s.len(),
{
    if s.len() == 0 {
        s
    } else if s.last().id == id {
        without_id(s.drop_last(), id)
    } else {
        without_id(s.drop_last(), id).push(s.last())
    }
}

/// All registrations have numbers below `bound`.
pub open spec fn ids_below<C>(s: Seq<VoxDebugEntry<C>>, bound: u64) -> bool {
    forall|i: int| 0 <= i < s.len() ==> (#[trigger] s[i]).id < bound
}

impl<C> VoxDebugRegistry<C> {
    /// The registered connections, oldest first.
    pub closed spec fn entries(self) -> Seq<VoxDebugEntry<C>> {
        self.entries@
    }

    /// The number of the next registration.
    pub closed spec fn next(self) -> u64 {
        self.next_id
    }

    /// No registration has the number of the next one.
    pub open spec fn wf(self) -> bool {
        ids_below(self.entries(), self.next())
    }

    /// A registry without connections. Registrations are numbered from one.
    pub fn new() -> (r: Self)
        ensures
            r.entries().len() == 0,
            r.next() == 1,
            r.wf(),
    {
        VoxDebugRegistry { next_id: 1, entries: Vec::new() }
    }

    /// Registers a connection, and gives the number of the registration.
    pub fn register_caller(
        &mut self,
        component: &'static str,
        surface: &'static str,
        role: &'static str,
        caller: C,
    ) -> (id: u64)
        requires
            old(self).wf(),
            old(self).next() < u64::MAX,
        ensures
            final(self).wf(),
            id == old(self).next(),
            final(self).next() == old(self).next() + 1,
            final(self).entries() == old(self).entries().push(
                VoxDebugEntry { id, component, surface, role, caller },
            ),
    {
        let id: u64 = self.next_id;
        self.next_id = id + 1;
        self.entries.push(VoxDebugEntry { id, component, surface, role, caller });
        id
    }

    /// Takes a registration back.
    pub fn unregister(&mut self, id: u64)
        requires
            old(self).wf(),
        ensures
            final(self).wf(),
            final(self).next() == old(self).next(),
            final(self).entries() == without_id(old(self).entries(), id),
    {
        let ghost given = self.entries@;
        let ghost mut k: int = 0;
        let mut i: usize = 0;
        assert(given.take(0) =~= seq![]);
        assert(self.entries@ =~= without_id(given.take(0), id) + given.skip(0));
        while i < self.entries.len()
            invariant
                0 <= k <= given.len(),
                i == without_id(given.take(k), id).len(),
                self.entries@ == without_id(given.take(k), id) + given.skip(k),
                self.next_id == old(self).next_id,
                given == old(self).entries@,
                ids_below(self.entries@, self.next_id),
            decreases given.len() - k,
        {
            proof {
                assert(self.entries@[i as int] == given[k]);
                assert(given.take(k + 1).drop_last() =~= given.take(k));
                assert(given.take(k + 1).last() == given[k]);
            }
            if self.entries[i].id == id {
                let _ = self.entries.remove(i);
                assert(self.entries@ =~= without_id(given.take(k + 1), id) + given.skip(k + 1));
            } else {
                i = i + 1;
                assert(self.entries@ =~= without_id(given.take(k + 1), id) + given.skip(k + 1));
            }
            proof {
                k = k + 1;
            }
        }
        assert(given.skip(k).len() == 0);
        assert(given.take(k) =~= given);
        assert(self.entries@ =~= without_id(given, id));
    }

    /// The connections to ask.
    pub fn registered(&self) -> (e: &Vec<VoxDebugEntry<C>>)
        ensures
            e@ == self.entries(),
    {
        &self.entries
    }
}

/// What is left keeps its order, and what has gone was registered under `id`.
proof fn lemma_without_absent_id<C>(s: Seq<VoxDebugEntry<C>>, id: u64)
    requires
        forall|i: int| 0 <= i < s.len() ==> (#[trigger] s[i]).id != id,
    ensures
        without_id(s, id) == s,
    decreases s.len(),
{
    if s.len() > 0 {
        assert forall|i: int| 0 <= i < s.drop_last().len() implies (#[trigger] s.drop_last()[i]).id
            != id by {
            assert(s.drop_last()[i] == s[i]);
        }
        lemma_without_absent_id(s.drop_last(), id);
        assert(s.drop_last().push(s.last()) =~= s);
        assert(s[s.len() - 1].id != id);
    }
}

/// The law of registration: taking a registration back leaves the registry as it
/// was before it.
pub proof fn unregistering_undoes_registering<C>(
    before: VoxDebugRegistry<C>,
    entry: VoxDebugEntry<C>,
)
    requires
        before.wf(),
        entry.id == before.next(),
    ensures
        without_id(before.entries().push(entry), entry.id) == before.entries(),
{
    let s = before.entries();
    assert(s.push(entry).drop_last() =~= s);
    lemma_without_absent_id(s, entry.id);
}

/// The unit in which a duration is written. Nanoseconds are written whole, the
/// others with three decimals.
#[derive(Clone, Copy, Debug, PartialEq, Eq, Structural)]
pub enum DurationUnit {
    Seconds,
    Millis,
    Micros,
    Nanos,
}

/// The largest unit of which a duration holds one.
pub open spec fn unit_of(ns: u128) -> DurationUnit {
    if ns >= 1_000_000_000 {
        DurationUnit::Seconds
    } else if ns >= 1_000_000 {
        DurationUnit::Millis
    } else if ns >= 1_000 {
        DurationUnit::Micros
    } else {
        DurationUnit::Nanos
    }
}

/// The largest unit of which a duration holds one.
pub fn duration_unit(ns: u128) -> (u: DurationUnit)
    ensures
        u == unit_of(ns),
{
    if ns >= 1_000_000_000 {
        DurationUnit::Seconds
    } else if ns >= 1_000_000 {
        DurationUnit::Millis
    } else if ns >= 1_000 {
        DurationUnit::Micros
    } else {
        DurationUnit::Nanos
    }
}

/// A place in source code.
#[derive(Debug)]
pub struct SourceLocation {
    pub file: String,
    pub line: u32,
    pub column: u32,
}

/// What a channel was opened for.
#[derive(Debug)]
pub struct ChannelDebugContext {
    pub item_type: Option<String>,
    pub label: Option<String>,
    pub service: Option<String>,
    pub method: Option<String>,
    pub source_location: Option<SourceLocation>,
}

/// The state of a request. Identifiers and states are kept as they are shown;
/// so is its age.
#[derive(Debug)]
pub struct RequestSnapshot {
    pub request_id: String,
    pub state: String,
    pub age: String,
    pub service: Option<String>,
    pub method: Option<String>,
    pub method_id: String,
    pub response_sender_blocked: Option<bool>,
    pub associated_channels: Vec<String>,
}

/// The state of a channel. Identifiers and states are kept as they are shown;
/// so is how long ago something happened, where it did.
#[derive(Debug)]
pub struct ChannelSnapshot {
    pub connection_id: String,
    pub channel_id: String,
    pub direction: String,
    pub debug: Option<ChannelDebugContext>,
    pub initial_credit: u32,
    pub available_send_credit: Option<u64>,
    pub current_permit_count: Option<u64>,
    pub pending_local_grant_credit: u64,
    pub total_credit_granted: u64,
    pub total_credit_received: u64,
    pub last_credit_granted: Option<String>,
    pub last_credit_granted_amount: Option<u64>,
    pub last_credit_received: Option<String>,
    pub last_credit_received_amount: Option<u64>,
    pub receiver_state: String,
    pub inbound_queue_len: Option<u64>,
    pub inbound_queue_capacity: Option<u64>,
    pub items_received: u64,
    pub items_consumed: u64,
    pub last_item_received: Option<String>,
    pub last_item_consumed: Option<String>,
    pub sent: u64,
    pub sends_started: u64,
    pub sends_completed: u64,
    pub sends_waited_for_credit: u64,
    pub send_waiters_count: Option<u64>,
    pub zero_credit_with_blocked_senders: bool,
    pub outbound_runtime_queue_len: Option<u64>,
    pub outbound_runtime_queue_capacity: Option<u64>,
    pub last_item_sent: Option<String>,
    pub try_send_full_credit: u64,
    pub try_send_full_runtime_queue: u64,
    pub closed: bool,
    pub reset: bool,
    pub dropped: bool,
    pub close_reason: Option<String>,
    pub reset_reason: Option<String>,
}

/// The state of a connection. Identifiers and states are kept as they are shown;
/// so is how long ago something happened, where it did.
#[derive(Debug)]
pub struct ConnectionSnapshot {
    pub connection_id: String,
    pub state: String,
    pub driver_task_status: String,
    pub endpoint: Option<String>,
    pub surface: Option<String>,
    pub component: Option<String>,
    pub close_reason: Option<String>,
    pub outbound_queue_depth: Option<u64>,
    pub outbound_queue_capacity: Option<u64>,
    pub local_control_queue_depth: Option<u64>,
    pub local_control_queue_capacity: Option<u64>,
    pub last_inbound_message: Option<String>,
    pub last_outbound_message: Option<String>,
    pub last_progress: Option<String>,
    pub outstanding_requests: u64,
    pub requests: Vec<RequestSnapshot>,
    pub open_channels: Vec<ChannelSnapshot>,
}

/// The state of all connections.
#[derive(Debug)]
pub struct VoxDebugSnapshot {
    pub connections: Vec<ConnectionSnapshot>,
}

/// A text, or a dash for one that is missing.
pub open spec fn or_dash(v: Option<String>) -> Seq<char> {
    match v {
        Some(s) => s@,
        None => "-"@,
    }
}

/// A text, or a dash for one that is missing.
fn opt_or_dash(v: &Option<String>) -> (s: String)
    ensures
        s@ == or_dash(*v),
{
    match v {
        Some(s) => s.clone(),
        None => "-".to_owned(),
    }
}

/// A text, or a question mark for one that is missing.
pub open spec fn or_unknown(v: Option<String>) -> Seq<char> {
    match v {
        Some(s) => s@,
        None => "?"@,
    }
}

/// A text, or a question mark for one that is missing.
fn opt_or_unknown(v: &Option<String>) -> (s: String)
    ensures
        s@ == or_unknown(*v),
{
    match v {
        Some(s) => s.clone(),
        None => "?".to_owned(),
    }
}

/// A number, or a dash for one that is missing.
pub open spec fn num_or_dash(v: Option<u64>) -> Seq<char> {
    match v {
        Some(n) => dec(n as nat),
        None => "-"@,
    }
}

/// A number, or a dash for one that is missing.
fn opt_num(v: &Option<u64>) -> (s: String)
    ensures
        s@ == num_or_dash(*v),
{
    match v {
        Some(n) => dec_string(*n),
        None => "-".to_owned(),
    }
}

/// A truth value, written out.
pub open spec fn flag_text(v: bool) -> Seq<char> {
    if v {
        "true"@
    } else {
        "false"@
    }
}

/// A truth value, written out.
fn flag(v: bool) -> (s: &'static str)
    ensures
        s@ == flag_text(v),
{
    if v {
        "true"
    } else {
        "false"
    }
}

/// A truth value, or a dash for one that is missing.
pub open spec fn flag_or_dash(v: Option<bool>) -> Seq<char> {
    match v {
        Some(b) => flag_text(b),
        None => "-"@,
    }
}

/// A truth value, or a dash for one that is missing.
fn opt_flag(v: Option<bool>) -> (s: &'static str)
    ensures
        s@ == flag_or_dash(v),
{
    match v {
        Some(b) => flag(b),
        None => "-",
    }
}

/// How long ago something happened, or a dash where it did not.
pub open spec fn age_text(v: Option<String>) -> Seq<char> {
    match v {
        Some(s) => s@ + " ago"@,
        None => "-"@,
    }
}

/// How long ago something happened, or a dash where it did not.
fn age(v: &Option<String>) -> (s: String)
    ensures
        s@ == age_text(*v),
{
    match v {
        Some(t) => {
            let mut s = t.clone();
            s.append(" ago");
            s
        },
        None => "-".to_owned(),
    }
}

/// How long ago credit moved, and how much.
pub open spec fn age_with_amount_text(v: Option<String>, amount: Option<u64>) -> Seq<char> {
    match (v, amount) {
        (Some(s), Some(n)) => s@ + " ago (+"@ + dec(n as nat) + ")"@,
        (Some(s), None) => s@ + " ago"@,
        (None, Some(n)) => "never (+"@ + dec(n as nat) + ")"@,
        (None, None) => "-"@,
    }
}

/// How long ago credit moved, and how much.
fn age_with_amount(v: &Option<String>, amount: Option<u64>) -> (s: String)
    ensures
        s@ == age_with_amount_text(*v, amount),
{
    match v {
        Some(t) => match amount {
            Some(n) => {
                let mut s = t.clone();
                s.append(" ago (+");
                push_dec(&mut s, n);
                s.append(")");
                s
            },
            None => {
                let mut s = t.clone();
                s.append(" ago");
                s
            },
        },
        None => match amount {
            Some(n) => {
                let mut s = "never (+".to_owned();
                push_dec(&mut s, n);
                s.append(")");
                s
            },
            None => "-".to_owned(),
        },
    }
}

/// A place in source code, or a dash.
pub open spec fn location_text(v: Option<SourceLocation>) -> Seq<char> {
    match v {
        Some(l) => l.file@ + ":"@ + dec(l.line as nat) + ":"@ + dec(l.column as nat),
        None => "-"@,
    }
}

/// A place in source code, or a dash.
fn location(v: &Option<SourceLocation>) -> (s: String)
    ensures
        s@ == location_text(*v),
{
    match v {
        Some(l) => {
            let mut s = l.file.clone();
            s.append(":");
            push_dec(&mut s, l.line as u64);
            s.append(":");
            push_dec(&mut s, l.column as u64);
            s
        },
        None => "-".to_owned(),
    }
}

/// What a channel was opened for, as a list.
pub open spec fn known_context_block_text(debug: ChannelDebugContext) -> Seq<char> {
    "- debug:\n  - type: "@ + or_dash(debug.item_type) + "\n  - label: "@ + or_dash(debug.label)
        + "\n  - service: "@ + or_dash(debug.service) + "\n  - method: "@ + or_dash(debug.method)
        + "\n  - source: "@ + location_text(debug.source_location)
}

/// What a channel was opened for, as a list.
fn known_context_block(debug: &ChannelDebugContext) -> (s: String)
    ensures
        s@ == known_context_block_text(*debug),
{
    let mut s = "- debug:\n  - type: ".to_owned();
    s.append(opt_or_dash(&debug.item_type).as_str());
    s.append("\n  - label: ");
    s.append(opt_or_dash(&debug.label).as_str());
    s.append("\n  - service: ");
    s.append(opt_or_dash(&debug.service).as_str());
    s.append("\n  - method: ");
    s.append(opt_or_dash(&debug.method).as_str());
    s.append("\n  - source: ");
    s.append(location(&debug.source_location).as_str());
    s
}

/// What a channel was opened for, in one line.
pub open spec fn known_context_inline_text(debug: ChannelDebugContext) -> Seq<char> {
    "type="@ + or_dash(debug.item_type) + " label="@ + or_dash(debug.label) + " service="@
        + or_dash(debug.service) + " method="@ + or_dash(debug.method) + " source="@
        + location_text(debug.source_location)
}

/// What a channel was opened for, in one line.
fn known_context_inline(debug: &ChannelDebugContext) -> (s: String)
    ensures
        s@ == known_context_inline_text(*debug),
{
    let mut s = "type=".to_owned();
    s.append(opt_or_dash(&debug.item_type).as_str());
    s.append(" label=");
    s.append(opt_or_dash(&debug.label).as_str());
    s.append(" service=");
    s.append(opt_or_dash(&debug.service).as_str());
    s.append(" method=");
    s.append(opt_or_dash(&debug.method).as_str());
    s.append(" source=");
    s.append(location(&debug.source_location).as_str());
    s
}

/// What a channel was opened for, as a list, where it is known.
pub open spec fn context_block_text(debug: Option<ChannelDebugContext>) -> Seq<char> {
    match debug {
        Some(d) => known_context_block_text(d),
        None => "- debug: none"@,
    }
}

/// What a channel was opened for, as a list, where it is known.
pub fn format_channel_debug_block(debug: &Option<ChannelDebugContext>) -> (s: String)
    ensures
        s@ == context_block_text(*debug),
{
    match debug {
        Some(d) => known_context_block(d),
        None => "- debug: none".to_owned(),
    }
}

/// What a channel was opened for, in one line, where it is known.
pub open spec fn context_inline_text(debug: Option<ChannelDebugContext>) -> Seq<char> {
    match debug {
        Some(d) => known_context_inline_text(d),
        None => "debug=none"@,
    }
}

/// What a channel was opened for, in one line, where it is known.
pub fn format_channel_debug_inline(debug: &Option<ChannelDebugContext>) -> (s: String)
    ensures
        s@ == context_inline_text(*debug),
{
    match debug {
        Some(d) => known_context_inline(d),
        None => "debug=none".to_owned(),
    }
}

/// A channel, in one line.
pub open spec fn channel_detail_text(
    surface: Seq<char>,
    connection_id: Seq<char>,
    channel_id: Seq<char>,
    debug: Option<ChannelDebugContext>,
) -> Seq<char> {
    "surface="@ + surface + " connection_id="@ + connection_id + " channel_id="@ + channel_id
        + " "@ + context_inline_text(debug)
}

/// A channel, in one line.
pub fn channel_detail(
    surface: &str,
    connection_id: &str,
    channel_id: &str,
    debug: &Option<ChannelDebugContext>,
) -> (s: String)
    ensures
        s@ == channel_detail_text(surface@, connection_id@, channel_id@, *debug),
{
    let mut s = "surface=".to_owned();
    s.append(surface);
    s.append(" connection_id=");
    s.append(connection_id);
    s.append(" channel_id=");
    s.append(channel_id);
    s.append(" ");
    s.append(format_channel_debug_inline(debug).as_str());
    s
}

/// A text, or a dash for an empty one.
pub fn empty_as_dash(value: &str) -> (s: &str)
    ensures
        s@ == (if value@.len() == 0 {
            "-"@
        } else {
            value@
        }),
{
    if value.unicode_len() == 0 {
        "-"
    } else {
        value
    }
}

/// Identifiers behind one another, with commas between them.
pub open spec fn joined(ids: Seq<String>) -> Seq<char>
    decreases ids.len(),
{
    if ids.len() == 0 {
        seq![]
    } else if ids.len() == 1 {
        ids[0]@
    } else {
        joined(ids.drop_last()) + ", "@ + ids.last()@
    }
}

/// A list of identifiers, in brackets.
pub open spec fn channel_ids_text(ids: Seq<String>) -> Seq<char> {
    "["@ + joined(ids) + "]"@
}

/// A list of identifiers, in brackets.
pub fn format_channel_ids(ids: &Vec<String>) -> (s: String)
    ensures
        s@ == channel_ids_text(ids@),
{
    let mut s = "[".to_owned();
    let mut i: usize = 0;
    assert(ids@.take(0) =~= seq![]);
    assert(s@ =~= "["@ + joined(ids@.take(0)));
    while i < ids.len()
        invariant
            i <= ids@.len(),
            s@ == "["@ + joined(ids@.take(i as int)),
        decreases ids@.len() - i,
    {
        assert(ids@.take(i + 1).drop_last() =~= ids@.take(i as int));
        assert(ids@.take(i + 1).last() == ids@[i as int]);
        let ghost before = s@;
        if i > 0 {
            s.append(", ");
        }
        s.append(ids[i].as_str());
        proof {
            if i == 0 {
                assert(joined(ids@.take(0)) =~= seq![]);
                assert(before =~= "["@);
                assert(s@ =~= "["@ + joined(ids@.take(1)));
            } else {
                assert(s@ =~= "["@ + joined(ids@.take(i + 1)));
            }
        }
        i = i + 1;
    }
    assert(ids@.take(i as int) =~= ids@);
    s.append("]");
    s
}

/// The state of a request.
pub open spec fn request_text(r: RequestSnapshot) -> Seq<char> {
    "\n#### "@ + r.request_id@ + "\n\n- state: "@ + r.state@ + "\n- age: "@ + r.age@
        + "\n- method: "@ + or_unknown(r.service) + "::"@ + or_unknown(r.method)
        + "\n- method_id: "@ + r.method_id@ + "\n- response_sender_blocked: "@
        + flag_or_dash(r.response_sender_blocked) + "\n- associated_channels: "@
        + channel_ids_text(r.associated_channels@) + "\n"@
}

/// The state of a request.
fn request(r: &RequestSnapshot) -> (s: String)
    ensures
        s@ == request_text(*r),
{
    let mut s = "\n#### ".to_owned();
    s.append(r.request_id.as_str());
    s.append("\n\n- state: ");
    s.append(r.state.as_str());
    s.append("\n- age: ");
    s.append(r.age.as_str());
    s.append("\n- method: ");
    s.append(opt_or_unknown(&r.service).as_str());
    s.append("::");
    s.append(opt_or_unknown(&r.method).as_str());
    s.append("\n- method_id: ");
    s.append(r.method_id.as_str());
    s.append("\n- response_sender_blocked: ");
    s.append(opt_flag(r.response_sender_blocked));
    s.append("\n- associated_channels: ");
    s.append(format_channel_ids(&r.associated_channels).as_str());
    s.append("\n");
    s
}

/// What a channel is.
pub open spec fn channel_head_text(c: ChannelSnapshot) -> Seq<char> {
    "\n#### "@ + c.connection_id@ + "/"@ + c.channel_id@ + " · "@ + c.direction@ + "\n\n"@
        + context_block_text(c.debug) + "\n"@
}

/// What a channel is.
fn channel_head(c: &ChannelSnapshot) -> (s: String)
    ensures
        s@ == channel_head_text(*c),
{
    let mut s = "\n#### ".to_owned();
    s.append(c.connection_id.as_str());
    s.append("/");
    s.append(c.channel_id.as_str());
    s.append(" · ");
    s.append(c.direction.as_str());
    s.append("\n\n");
    s.append(format_channel_debug_block(&c.debug).as_str());
    s.append("\n");
    s
}

/// The credit of a channel.
pub open spec fn channel_credit_text(c: ChannelSnapshot) -> Seq<char> {
    "- credit:\n  - initial: "@ + dec(c.initial_credit as nat) + "\n  - available_send_credit: "@
        + num_or_dash(c.available_send_credit) + "\n  - current_permit_count: "@
        + num_or_dash(c.current_permit_count) + "\n  - pending_local_grant_credit: "@
        + dec(c.pending_local_grant_credit as nat) + "\n  - total_credit_granted: "@
        + dec(c.total_credit_granted as nat) + "\n  - total_credit_received: "@
        + dec(c.total_credit_received as nat) + "\n  - last_credit_granted: "@
        + age_with_amount_text(c.last_credit_granted, c.last_credit_granted_amount)
        + "\n  - last_credit_received: "@
        + age_with_amount_text(c.last_credit_received, c.last_credit_received_amount) + "\n"@
}

/// The credit of a channel.
fn channel_credit(c: &ChannelSnapshot) -> (s: String)
    ensures
        s@ == channel_credit_text(*c),
{
    let mut s = "- credit:\n  - initial: ".to_owned();
    push_dec(&mut s, c.initial_credit as u64);
    s.append("\n  - available_send_credit: ");
    s.append(opt_num(&c.available_send_credit).as_str());
    s.append("\n  - current_permit_count: ");
    s.append(opt_num(&c.current_permit_count).as_str());
    s.append("\n  - pending_local_grant_credit: ");
    push_dec(&mut s, c.pending_local_grant_credit);
    s.append("\n  - total_credit_granted: ");
    push_dec(&mut s, c.total_credit_granted);
    s.append("\n  - total_credit_received: ");
    push_dec(&mut s, c.total_credit_received);
    s.append("\n  - last_credit_granted: ");
    s.append(age_with_amount(&c.last_credit_granted, c.last_credit_granted_amount).as_str());
    s.append("\n  - last_credit_received: ");
    s.append(age_with_amount(&c.last_credit_received, c.last_credit_received_amount).as_str());
    s.append("\n");
    s
}

/// The receiving side of a channel.
pub open spec fn channel_receive_text(c: ChannelSnapshot) -> Seq<char> {
    "- receive:\n  - state: "@ + c.receiver_state@ + "\n  - queue: "@
        + num_or_dash(c.inbound_queue_len) + "/"@ + num_or_dash(c.inbound_queue_capacity)
        + "\n  - items_received: "@ + dec(c.items_received as nat) + "\n  - items_consumed: "@
        + dec(c.items_consumed as nat) + "\n  - last_item_received: "@
        + age_text(c.last_item_received) + "\n  - last_item_consumed: "@
        + age_text(c.last_item_consumed) + "\n"@
}

/// The receiving side of a channel.
fn channel_receive(c: &ChannelSnapshot) -> (s: String)
    ensures
        s@ == channel_receive_text(*c),
{
    let mut s = "- receive:\n  - state: ".to_owned();
    s.append(c.receiver_state.as_str());
    s.append("\n  - queue: ");
    s.append(opt_num(&c.inbound_queue_len).as_str());
    s.append("/");
    s.append(opt_num(&c.inbound_queue_capacity).as_str());
    s.append("\n  - items_received: ");
    push_dec(&mut s, c.items_received);
    s.append("\n  - items_consumed: ");
    push_dec(&mut s, c.items_consumed);
    s.append("\n  - last_item_received: ");
    s.append(age(&c.last_item_received).as_str());
    s.append("\n  - last_item_consumed: ");
    s.append(age(&c.last_item_consumed).as_str());
    s.append("\n");
    s
}

/// The sending side of a channel.
pub open spec fn channel_send_text(c: ChannelSnapshot) -> Seq<char> {
    "- send:\n  - sent: "@ + dec(c.sent as nat) + "\n  - sends_started: "@
        + dec(c.sends_started as nat) + "\n  - sends_completed: "@ + dec(c.sends_completed as nat)
        + "\n  - sends_waited_for_credit: "@ + dec(c.sends_waited_for_credit as nat)
        + "\n  - send_waiters_count: "@ + num_or_dash(c.send_waiters_count)
        + "\n  - zero_credit_with_blocked_senders: "@
        + flag_text(c.zero_credit_with_blocked_senders) + "\n  - outbound_runtime_queue: "@
        + num_or_dash(c.outbound_runtime_queue_len) + "/"@
        + num_or_dash(c.outbound_runtime_queue_capacity) + "\n  - last_item_sent: "@
        + age_text(c.last_item_sent) + "\n"@
}

/// The sending side of a channel.
fn channel_send(c: &ChannelSnapshot) -> (s: String)
    ensures
        s@ == channel_send_text(*c),
{
    let mut s = "- send:\n  - sent: ".to_owned();
    push_dec(&mut s, c.sent);
    s.append("\n  - sends_started: ");
    push_dec(&mut s, c.sends_started);
    s.append("\n  - sends_completed: ");
    push_dec(&mut s, c.sends_completed);
    s.append("\n  - sends_waited_for_credit: ");
    push_dec(&mut s, c.sends_waited_for_credit);
    s.append("\n  - send_waiters_count: ");
    s.append(opt_num(&c.send_waiters_count).as_str());
    s.append("\n  - zero_credit_with_blocked_senders: ");
    s.append(flag(c.zero_credit_with_blocked_senders));
    s.append("\n  - outbound_runtime_queue: ");
    s.append(opt_num(&c.outbound_runtime_queue_len).as_str());
    s.append("/");
    s.append(opt_num(&c.outbound_runtime_queue_capacity).as_str());
    s.append("\n  - last_item_sent: ");
    s.append(age(&c.last_item_sent).as_str());
    s.append("\n");
    s
}

/// What failed on a channel.
pub open spec fn channel_failures_text(c: ChannelSnapshot) -> Seq<char> {
    "- failures:\n  - try_send_full_credit: "@ + dec(c.try_send_full_credit as nat)
        + "\n  - try_send_full_runtime_queue: "@ + dec(c.try_send_full_runtime_queue as nat)
        + "\n  - closed: "@ + flag_text(c.closed) + "\n  - reset: "@ + flag_text(c.reset)
        + "\n  - dropped: "@ + flag_text(c.dropped) + "\n  - close_reason: "@
        + or_dash(c.close_reason) + "\n  - reset_reason: "@ + or_dash(c.reset_reason) + "\n"@
}

/// What failed on a channel.
fn channel_failures(c: &ChannelSnapshot) -> (s: String)
    ensures
        s@ == channel_failures_text(*c),
{
    let mut s = "- failures:\n  - try_send_full_credit: ".to_owned();
    push_dec(&mut s, c.try_send_full_credit);
    s.append("\n  - try_send_full_runtime_queue: ");
    push_dec(&mut s, c.try_send_full_runtime_queue);
    s.append("\n  - closed: ");
    s.append(flag(c.closed));
    s.append("\n  - reset: ");
    s.append(flag(c.reset));
    s.append("\n  - dropped: ");
    s.append(flag(c.dropped));
    s.append("\n  - close_reason: ");
    s.append(opt_or_dash(&c.close_reason).as_str());
    s.append("\n  - reset_reason: ");
    s.append(opt_or_dash(&c.reset_reason).as_str());
    s.append("\n");
    s
}

/// The state of a channel.
pub open spec fn channel_text(c: ChannelSnapshot) -> Seq<char> {
    channel_head_text(c) + channel_credit_text(c) + channel_receive_text(c) + channel_send_text(c)
        + channel_failures_text(c)
}

/// The state of a channel.
fn channel(c: &ChannelSnapshot) -> (s: String)
    ensures
        s@ == channel_text(*c),
{
    let mut s = channel_head(c);
    s.append(channel_credit(c).as_str());
    s.append(channel_receive(c).as_str());
    s.append(channel_send(c).as_str());
    s.append(channel_failures(c).as_str());
    s
}

/// What a connection is.
pub open spec fn connection_head_text(c: ConnectionSnapshot) -> Seq<char> {
    "\n## Connection "@ + c.connection_id@ + "\n\n- state: "@ + c.state@ + "\n- driver: "@
        + c.driver_task_status@ + "\n"@ + "- endpoint: "@ + or_dash(c.endpoint) + "\n- surface: "@
        + or_dash(c.surface) + "\n- component: "@ + or_dash(c.component) + "\n- close_reason: "@
        + or_dash(c.close_reason) + "\n"@
}

/// What a connection is.
fn connection_head(c: &ConnectionSnapshot) -> (s: String)
    ensures
        s@ == connection_head_text(*c),
{
    let mut s = "\n## Connection ".to_owned();
    s.append(c.connection_id.as_str());
    s.append("\n\n- state: ");
    s.append(c.state.as_str());
    s.append("\n- driver: ");
    s.append(c.driver_task_status.as_str());
    s.append("\n");
    s.append("- endpoint: ");
    s.append(opt_or_dash(&c.endpoint).as_str());
    s.append("\n- surface: ");
    s.append(opt_or_dash(&c.surface).as_str());
    s.append("\n- component: ");
    s.append(opt_or_dash(&c.component).as_str());
    s.append("\n- close_reason: ");
    s.append(opt_or_dash(&c.close_reason).as_str());
    s.append("\n");
    s
}

/// The queues of a connection, and when it was last used.
pub open spec fn connection_use_text(c: ConnectionSnapshot) -> Seq<char> {
    "- queues: outbound="@ + num_or_dash(c.outbound_queue_depth) + "/"@
        + num_or_dash(c.outbound_queue_capacity) + " · local_control="@
        + num_or_dash(c.local_control_queue_depth) + "/"@
        + num_or_dash(c.local_control_queue_capacity) + "\n"@ + "- last: inbound="@
        + age_text(c.last_inbound_message) + " · outbound="@ + age_text(c.last_outbound_message)
        + " · progress="@ + age_text(c.last_progress) + "\n"@
}

/// The queues of a connection, and when it was last used.
fn connection_use(c: &ConnectionSnapshot) -> (s: String)
    ensures
        s@ == connection_use_text(*c),
{
    let mut s = "- queues: outbound=".to_owned();
    s.append(opt_num(&c.outbound_queue_depth).as_str());
    s.append("/");
    s.append(opt_num(&c.outbound_queue_capacity).as_str());
    s.append(" · local_control=");
    s.append(opt_num(&c.local_control_queue_depth).as_str());
    s.append("/");
    s.append(opt_num(&c.local_control_queue_capacity).as_str());
    s.append("\n");
    s.append("- last: inbound=");
    s.append(age(&c.last_inbound_message).as_str());
    s.append(" · outbound=");
    s.append(age(&c.last_outbound_message).as_str());
    s.append(" · progress=");
    s.append(age(&c.last_progress).as_str());
    s.append("\n");
    s
}

/// The state of each request.
pub open spec fn requests_text(items: Seq<RequestSnapshot>) -> Seq<char>
    decreases items.len(),
{
    if items.len() == 0 {
        seq![]
    } else {
        requests_text(items.drop_last()) + request_text(items.last())
    }
}

/// The state of each request.
fn requests(items: &Vec<RequestSnapshot>) -> (s: String)
    ensures
        s@ == requests_text(items@),
{
    let mut s = String::new();
    let mut i: usize = 0;
    assert(s@ =~= requests_text(items@.take(0)));
    while i < items.len()
        invariant
            i <= items@.len(),
            s@ == requests_text(items@.take(i as int)),
        decreases items@.len() - i,
    {
        assert(items@.take(i + 1).drop_last() =~= items@.take(i as int));
        s.append(request(&items[i]).as_str());
        i = i + 1;
    }
    assert(items@.take(i as int) =~= items@);
    s
}

/// The state of each channel.
pub open spec fn channels_text(items: Seq<ChannelSnapshot>) -> Seq<char>
    decreases items.len(),
{
    if items.len() == 0 {
        seq![]
    } else {
        channels_text(items.drop_last()) + channel_text(items.last())
    }
}

/// The state of each channel.
fn channels(items: &Vec<ChannelSnapshot>) -> (s: String)
    ensures
        s@ == channels_text(items@),
{
    let mut s = String::new();
    let mut i: usize = 0;
    assert(s@ =~= channels_text(items@.take(0)));
    while i < items.len()
        invariant
            i <= items@.len(),
            s@ == channels_text(items@.take(i as int)),
        decreases items@.len() - i,
    {
        assert(items@.take(i + 1).drop_last() =~= items@.take(i as int));
        s.append(channel(&items[i]).as_str());
        i = i + 1;
    }
    assert(items@.take(i as int) =~= items@);
    s
}

/// The state of a connection. Requests and channels have a part of their own where
/// there are any.
pub open spec fn connection_text(c: ConnectionSnapshot) -> Seq<char> {
    connection_head_text(c) + connection_use_text(c) + request_part_text(c) + channel_part_text(c)
}

/// The part on requests.
pub open spec fn request_part_text(c: ConnectionSnapshot) -> Seq<char> {
    if c.requests@.len() == 0 {
        seq![]
    } else {
        "\n### Requests\n\n- outstanding: "@ + dec(c.outstanding_requests as nat)
            + "\n- tracked: "@ + dec(c.requests@.len()) + "\n"@ + requests_text(c.requests@)
    }
}

/// The part on requests.
fn request_part(c: &ConnectionSnapshot) -> (s: String)
    ensures
        s@ == request_part_text(*c),
{
    if c.requests.len() == 0 {
        return String::new();
    }
    let mut s = "\n### Requests\n\n- outstanding: ".to_owned();
    push_dec(&mut s, c.outstanding_requests);
    s.append("\n- tracked: ");
    push_dec(&mut s, c.requests.len() as u64);
    s.append("\n");
    s.append(requests(&c.requests).as_str());
    s
}

/// The part on channels.
pub open spec fn channel_part_text(c: ConnectionSnapshot) -> Seq<char> {
    if c.open_channels@.len() == 0 {
        seq![]
    } else {
        "\n### Channels\n\n- open: "@ + dec(c.open_channels@.len()) + "\n"@ + channels_text(
            c.open_channels@,
        )
    }
}

/// The part on channels.
fn channel_part(c: &ConnectionSnapshot) -> (s: String)
    ensures
        s@ == channel_part_text(*c),
{
    if c.open_channels.len() == 0 {
        return String::new();
    }
    let mut s = "\n### Channels\n\n- open: ".to_owned();
    push_dec(&mut s, c.open_channels.len() as u64);
    s.append("\n");
    s.append(channels(&c.open_channels).as_str());
    s
}

/// The state of a connection.
fn connection(c: &ConnectionSnapshot) -> (s: String)
    ensures
        s@ == connection_text(*c),
{
    let mut s = connection_head(c);
    s.append(connection_use(c).as_str());
    s.append(request_part(c).as_str());
    s.append(channel_part(c).as_str());
    s
}

/// The state of each connection.
pub open spec fn connections_text(items: Seq<ConnectionSnapshot>) -> Seq<char>
    decreases items.len(),
{
    if items.len() == 0 {
        seq![]
    } else {
        connections_text(items.drop_last()) + connection_text(items.last())
    }
}

/// The state of each connection.
fn connections(items: &Vec<ConnectionSnapshot>) -> (s: String)
    ensures
        s@ == connections_text(items@),
{
    let mut s = String::new();
    let mut i: usize = 0;
    assert(s@ =~= connections_text(items@.take(0)));
    while i < items.len()
        invariant
            i <= items@.len(),
            s@ == connections_text(items@.take(i as int)),
        decreases items@.len() - i,
    {
        assert(items@.take(i + 1).drop_last() =~= items@.take(i as int));
        s.append(connection(&items[i]).as_str());
        i = i + 1;
    }
    assert(items@.take(i as int) =~= items@);
    s
}

/// The state of all connections, written out.
pub open spec fn snapshot_text(snapshot: VoxDebugSnapshot) -> Seq<char> {
    "# Vox Debug Snapshot\n\n- connections: "@ + dec(snapshot.connections@.len()) + "\n"@
        + connections_text(snapshot.connections@)
}

/// The state of all connections, written out.
pub fn format_debug_snapshot(snapshot: &VoxDebugSnapshot) -> (s: String)
    ensures
        s@ == snapshot_text(*snapshot),
{
    let mut s = "# Vox Debug Snapshot\n\n- connections: ".to_owned();
    push_dec(&mut s, snapshot.connections.len() as u64);
    s.append("\n");
    s.append(connections(&snapshot.connections).as_str());
    s
}

/// The law of debug callers: the one with the number goes, and every other one stays.
pub proof fn only_the_caller_goes<C>(s: Seq<VoxDebugEntry<C>>, id: u64)
    ensures
        without_id(s, id) == s.filter(|e: VoxDebugEntry<C>| e.id != id),
    decreases s.len(),
{
    reveal(Seq::filter);
    if s.len() > 0 {
        only_the_caller_goes(s.drop_last(), id);
    }
}

/// The law of slow calls: what failed or took ten milliseconds or more is told, and the rest is
/// detail.
pub proof fn slow_calls_are_told(
    ok: bool,
    elapsed_ns: u64,
    rpc_line: LogLine,
    channel_line: LogLine,
    driver_line: LogLine,
)
    requires
        is_rpc_line(RpcEvent::Finished { ok, elapsed_ns }, rpc_line),
        is_channel_line(ChannelEvent::SendFinished { sent: ok, elapsed_ns }, Some(channel_line)),
        is_driver_line(DriverEvent::RequestFinished { ok, elapsed_ns }, driver_line),
    ensures
        !ok || elapsed_ns >= 10_000_000 ==> rpc_line.level == LogLevel::Info && channel_line.level
            == LogLevel::Info && driver_line.level == LogLevel::Info,
        ok && elapsed_ns < 10_000_000 ==> rpc_line.level == LogLevel::Trace && channel_line.level
            == LogLevel::Trace && driver_line.level == LogLevel::Trace,
{
}

/// The law of units: a duration is shown in the largest unit of which it holds one.
pub proof fn durations_have_their_unit(ns: u128)
    ensures
        (unit_of(ns) is Seconds) == (ns >= 1_000_000_000),
        (unit_of(ns) is Millis) == (1_000_000 <= ns < 1_000_000_000),
        (unit_of(ns) is Micros) == (1_000 <= ns < 1_000_000),
        (unit_of(ns) is Nanos) == (ns < 1_000),
{
}

/// A text holds another one from a place on.
pub open spec fn holds_at(whole: Seq<char>, part: Seq<char>, at: int) -> bool {
    0 <= at && at + part.len() <= whole.len() && whole.subrange(at, at + part.len()) == part
}

/// A text holds another one.
pub open spec fn shows_text(whole: Seq<char>, part: Seq<char>) -> bool {
    exists|at: int| holds_at(whole, part, at)
}

proof fn lemma_shows(before: Seq<char>, part: Seq<char>, behind: Seq<char>)
    ensures
        shows_text(before + part + behind, part),
{
    let whole = before + part + behind;
    assert(whole.subrange(before.len() as int, before.len() as int + part.len()) =~= part);
    assert(holds_at(whole, part, before.len() as int));
}

proof fn lemma_shows_through(whole: Seq<char>, middle: Seq<char>, part: Seq<char>)
    requires
        shows_text(whole, middle),
        shows_text(middle, part),
    ensures
        shows_text(whole, part),
{
    let a = choose|a: int| holds_at(whole, middle, a);
    let b = choose|b: int| holds_at(middle, part, b);
    assert forall|i: int| 0 <= i < part.len() implies whole[a + b + i] == part[i] by {
        assert(whole.subrange(a, a + middle.len())[b + i] == middle[b + i]);
        assert(middle.subrange(b, b + part.len())[i] == part[i]);
    }
    assert(whole.subrange(a + b, a + b + part.len()) =~= part);
    assert(holds_at(whole, part, a + b));
}

proof fn lemma_connection_shown(items: Seq<ConnectionSnapshot>, i: int)
    requires
        0 <= i < items.len(),
    ensures
        shows_text(connections_text(items), connection_text(items[i])),
    decreases items.len(),
{
    let before = connections_text(items.drop_last());
    let last = connection_text(items.last());
    if i == items.len() - 1 {
        lemma_shows(before, last, seq![]);
        assert(before + last + seq![] =~= before + last);
    } else {
        lemma_connection_shown(items.drop_last(), i);
        lemma_shows(seq![], before, last);
        assert(seq![] + before + last =~= before + last);
        lemma_shows_through(connections_text(items), before, connection_text(items[i]));
    }
}

proof fn lemma_request_shown(items: Seq<RequestSnapshot>, i: int)
    requires
        0 <= i < items.len(),
    ensures
        shows_text(requests_text(items), request_text(items[i])),
    decreases items.len(),
{
    let before = requests_text(items.drop_last());
    let last = request_text(items.last());
    if i == items.len() - 1 {
        lemma_shows(before, last, seq![]);
        assert(before + last + seq![] =~= before + last);
    } else {
        lemma_request_shown(items.drop_last(), i);
        lemma_shows(seq![], before, last);
        assert(seq![] + before + last =~= before + last);
        lemma_shows_through(requests_text(items), before, request_text(items[i]));
    }
}

proof fn lemma_channel_shown(items: Seq<ChannelSnapshot>, i: int)
    requires
        0 <= i < items.len(),
    ensures
        shows_text(channels_text(items), channel_text(items[i])),
    decreases items.len(),
{
    let before = channels_text(items.drop_last());
    let last = channel_text(items.last());
    if i == items.len() - 1 {
        lemma_shows(before, last, seq![]);
        assert(before + last + seq![] =~= before + last);
    } else {
        lemma_channel_shown(items.drop_last(), i);
        lemma_shows(seq![], before, last);
        assert(seq![] + before + last =~= before + last);
        lemma_shows_through(channels_text(items), before, channel_text(items[i]));
    }
}

/// A text that begins with another one still does when more is added.
proof fn lemma_begins(a: Seq<char>, b: Seq<char>, p: Seq<char>)
    requires
        holds_at(a, p, 0),
    ensures
        holds_at(a + b, p, 0),
{
    assert((a + b).subrange(0, p.len() as int) =~= a.subrange(0, p.len() as int));
}

/// Each of five texts in a row is in the row.
proof fn lemma_row(h: Seq<char>, a: Seq<char>, b: Seq<char>, d: Seq<char>, e: Seq<char>)
    ensures
        shows_text(h + a + b + d + e, h),
        shows_text(h + a + b + d + e, a),
        shows_text(h + a + b + d + e, b),
        shows_text(h + a + b + d + e, d),
        shows_text(h + a + b + d + e, e),
{
    let whole = h + a + b + d + e;
    lemma_shows(seq![], h, a + b + d + e);
    assert(seq![] + h + (a + b + d + e) =~= whole);
    lemma_shows(h, a, b + d + e);
    assert(h + a + (b + d + e) =~= whole);
    lemma_shows(h + a, b, d + e);
    assert(h + a + b + (d + e) =~= whole);
    lemma_shows(h + a + b, d, e);
    lemma_shows(h + a + b + d, e, seq![]);
    assert(h + a + b + d + e + seq![] =~= whole);
}

/// The text of a connection is in that of the snapshot.
proof fn lemma_connection_in_snapshot(s: VoxDebugSnapshot, i: int)
    requires
        0 <= i < s.connections@.len(),
    ensures
        shows_text(snapshot_text(s), connection_text(s.connections@[i])),
{
    let all = snapshot_text(s);
    let head = "# Vox Debug Snapshot\n\n- connections: "@ + dec(s.connections@.len()) + "\n"@;
    let rows = connections_text(s.connections@);
    lemma_shows(head, rows, seq![]);
    assert(head + rows + seq![] =~= all);
    lemma_connection_shown(s.connections@, i);
    lemma_shows_through(all, rows, connection_text(s.connections@[i]));
}

/// The law of snapshots: every connection is shown under its number, with its state.
#[verifier::spinoff_prover]
#[verifier::rlimit(40)]
pub proof fn snapshots_show_every_connection(s: VoxDebugSnapshot, i: int)
    requires
        0 <= i < s.connections@.len(),
    ensures
        shows_text(
            snapshot_text(s),
            "\n## Connection "@ + s.connections@[i].connection_id@ + "\n\n- state: "@
                + s.connections@[i].state@,
        ),
{
    let all = snapshot_text(s);
    let conn = s.connections@[i];
    let text = connection_text(conn);
    lemma_connection_in_snapshot(s, i);
    let first = connection_head_text(conn);
    let part = "\n## Connection "@ + conn.connection_id@ + "\n\n- state: "@ + conn.state@;
    assert(part.subrange(0, part.len() as int) =~= part);
    let t1 = part + "\n- driver: "@;
    let t2 = t1 + conn.driver_task_status@;
    let t3 = t2 + "\n"@;
    let t4 = t3 + "- endpoint: "@;
    let t5 = t4 + or_dash(conn.endpoint);
    let t6 = t5 + "\n- surface: "@;
    let t7 = t6 + or_dash(conn.surface);
    let t8 = t7 + "\n- component: "@;
    let t9 = t8 + or_dash(conn.component);
    let t10 = t9 + "\n- close_reason: "@;
    let t11 = t10 + or_dash(conn.close_reason);
    lemma_begins(part, "\n- driver: "@, part);
    lemma_begins(t1, conn.driver_task_status@, part);
    lemma_begins(t2, "\n"@, part);
    lemma_begins(t3, "- endpoint: "@, part);
    lemma_begins(t4, or_dash(conn.endpoint), part);
    lemma_begins(t5, "\n- surface: "@, part);
    lemma_begins(t6, or_dash(conn.surface), part);
    lemma_begins(t7, "\n- component: "@, part);
    lemma_begins(t8, or_dash(conn.component), part);
    lemma_begins(t9, "\n- close_reason: "@, part);
    lemma_begins(t10, or_dash(conn.close_reason), part);
    lemma_begins(t11, "\n"@, part);
    assert(first == t11 + "\n"@);
    lemma_begins(first, connection_use_text(conn), part);
    lemma_begins(first + connection_use_text(conn), request_part_text(conn), part);
    lemma_begins(
        first + connection_use_text(conn) + request_part_text(conn),
        channel_part_text(conn),
        part,
    );
    assert(holds_at(text, part, 0));
    lemma_shows_through(all, text, part);
}

/// The law of requests in snapshots: every one that a connection tracks is shown under its number, with
/// its state.
#[verifier::spinoff_prover]
#[verifier::rlimit(40)]
pub proof fn snapshots_show_every_request(s: VoxDebugSnapshot, i: int, r: int)
    requires
        0 <= i < s.connections@.len(),
        0 <= r < s.connections@[i].requests@.len(),
    ensures
        shows_text(
            snapshot_text(s),
            "\n#### "@ + s.connections@[i].requests@[r].request_id@ + "\n\n- state: "@
                + s.connections@[i].requests@[r].state@,
        ),
{
    let all = snapshot_text(s);
    let conn = s.connections@[i];
    let q = conn.requests@[r];
    let text = connection_text(conn);
    lemma_connection_in_snapshot(s, i);
    let third = request_part_text(conn);
    lemma_shows(
        connection_head_text(conn) + connection_use_text(conn),
        third,
        channel_part_text(conn),
    );
    lemma_shows_through(all, text, third);
    let listed = requests_text(conn.requests@);
    let intro = "\n### Requests\n\n- outstanding: "@ + dec(conn.outstanding_requests as nat)
        + "\n- tracked: "@ + dec(conn.requests@.len()) + "\n"@;
    lemma_shows(intro, listed, seq![]);
    assert(intro + listed + seq![] =~= third);
    lemma_shows_through(all, third, listed);
    lemma_request_shown(conn.requests@, r);
    lemma_shows_through(all, listed, request_text(q));
    let name = "\n#### "@ + q.request_id@ + "\n\n- state: "@ + q.state@;
    let rest = request_text(q).skip(name.len() as int);
    assert(request_text(q).take(name.len() as int) =~= name);
    lemma_shows(seq![], name, rest);
    assert(seq![] + name + rest =~= request_text(q));
    lemma_shows_through(all, request_text(q), name);
}

/// The law of channels in snapshots: every one that is open is shown under its numbers, with all that
/// is told of its credit, of receiving, of sending and of failures.
#[verifier::spinoff_prover]
#[verifier::rlimit(40)]
pub proof fn snapshots_show_every_channel(s: VoxDebugSnapshot, i: int, c: int)
    requires
        0 <= i < s.connections@.len(),
        0 <= c < s.connections@[i].open_channels@.len(),
    ensures
        ({
            let all = snapshot_text(s);
            let ch = s.connections@[i].open_channels@[c];
            &&& shows_text(all, "\n#### "@ + ch.connection_id@ + "/"@ + ch.channel_id@)
            &&& shows_text(all, channel_credit_text(ch))
            &&& shows_text(all, channel_receive_text(ch))
            &&& shows_text(all, channel_send_text(ch))
            &&& shows_text(all, channel_failures_text(ch))
        }),
{
    let all = snapshot_text(s);
    let conn = s.connections@[i];
    let ch = conn.open_channels@[c];
    let text = connection_text(conn);
    lemma_connection_in_snapshot(s, i);
    let before = connection_head_text(conn) + connection_use_text(conn) + request_part_text(conn);
    let fourth = channel_part_text(conn);
    lemma_shows(before, fourth, seq![]);
    assert(before + fourth + seq![] =~= text);
    lemma_shows_through(all, text, fourth);
    let listed = channels_text(conn.open_channels@);
    let intro = "\n### Channels\n\n- open: "@ + dec(conn.open_channels@.len()) + "\n"@;
    lemma_shows(intro, listed, seq![]);
    assert(intro + listed + seq![] =~= fourth);
    lemma_shows_through(all, fourth, listed);
    lemma_channel_shown(conn.open_channels@, c);
    let whole = channel_text(ch);
    lemma_shows_through(all, listed, whole);
    let head = channel_head_text(ch);
    let name = "\n#### "@ + ch.connection_id@ + "/"@ + ch.channel_id@;
    assert(name.subrange(0, name.len() as int) =~= name);
    let t1 = name + " · "@;
    let t2 = t1 + ch.direction@;
    let t3 = t2 + "\n\n"@;
    let t4 = t3 + context_block_text(ch.debug);
    lemma_begins(name, " · "@, name);
    lemma_begins(t1, ch.direction@, name);
    lemma_begins(t2, "\n\n"@, name);
    lemma_begins(t3, context_block_text(ch.debug), name);
    lemma_begins(t4, "\n"@, name);
    assert(head == t4 + "\n"@);
    assert(holds_at(head, name, 0));
    let a = channel_credit_text(ch);
    let b = channel_receive_text(ch);
    let d = channel_send_text(ch);
    let e = channel_failures_text(ch);
    lemma_row(head, a, b, d, e);
    lemma_shows_through(all, whole, head);
    lemma_shows_through(all, head, name);
    lemma_shows_through(all, whole, a);
    lemma_shows_through(all, whole, b);
    lemma_shows_through(all, whole, d);
    lemma_shows_through(all, whole, e);
}

} // verus!
