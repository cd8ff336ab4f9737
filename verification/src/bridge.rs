//! The event channel to the host: what is waiting for an acknowledgement, what the host
//! may ask for, and when to connect, announce, write and give up. Sockets, clocks and
//! threads stay outside: each function takes what they reported and says what is next.

use crate::endpoint;
use crate::endpoint::{parse_endpoint, BridgeEndpoint};
use crate::frame;
use crate::frame::{control_result_line, event_line, field, ready_line};
use crate::text;
use crate::text::{chars_of, decimal_of, find};
use std::collections::VecDeque;
use vstd::hash_set::StringHashSet;
use vstd::prelude::*;

verus! {

/// How many unacknowledged events are kept. Beyond that the oldest is dropped: events
/// are best effort, and a host that stays away must not eat the memory.
pub const MAX_PENDING: usize = 8;

/// How long to wait for acknowledgements before the connection counts as half dead.
pub const ACK_TIMEOUT_MILLIS: u64 = 1_500;

/// How long to pause between two looks at the acknowledgements.
pub const ACK_POLL_MILLIS: u64 = 20;

/// The interrupt signal of one turn.
#[derive(Debug, Clone, Copy, PartialEq, Eq, Structural)]
pub struct AbortSignal {
    pub aborted: bool,
}

impl AbortSignal {
    pub fn new() -> (signal: AbortSignal)
        ensures
            !signal.aborted,
    {
        AbortSignal { aborted: false }
    }

    pub fn abort(&mut self)
        ensures
            final(self).aborted,
    {
        self.aborted = true;
    }

    pub fn is_aborted(&self) -> (aborted: bool)
        ensures
            aborted == self.aborted,
    {
        self.aborted
    }
}

/// An event that the host has not acknowledged yet, and the frame that carries it.
#[derive(Debug, Clone)]
pub struct PendingEvent {
    pub message_id: String,
    pub line: String,
}

/// A pending event as two texts.
pub struct EventView {
    pub message_id: Seq<char>,
    pub line: Seq<char>,
}

impl View for PendingEvent {
    type V = EventView;

    open spec fn view(&self) -> EventView {
        EventView { message_id: self.message_id@, line: self.line@ }
    }
}

/// What the writing side and the reading side of a bridge share.
pub struct Shared {
    pub endpoint: BridgeEndpoint,
    /// Whether there is a connection.
    pub connected: bool,
    pub pending: VecDeque<PendingEvent>,
    pub acked: StringHashSet,
    /// The signal of the turn that is running, if one is.
    pub turn_signal: Option<AbortSignal>,
}

/// The shared state as a value.
pub struct SharedView {
    pub endpoint: endpoint::EndpointView,
    pub connected: bool,
    pub pending: Seq<EventView>,
    pub acked: Set<Seq<char>>,
    pub turn_signal: Option<AbortSignal>,
}

/// The events of a queue, oldest first.
pub open spec fn events_of(queue: Seq<PendingEvent>) -> Seq<EventView> {
    queue.map_values(|e: PendingEvent| e@)
}

impl View for Shared {
    type V = SharedView;

    open spec fn view(&self) -> SharedView {
        SharedView {
            endpoint: self.endpoint@,
            connected: self.connected,
            pending: events_of(self.pending@),
            acked: self.acked@,
            turn_signal: self.turn_signal,
        }
    }
}

/// The last `n` elements of `s`, all of them if there are fewer.
pub open spec fn newest<A>(s: Seq<A>, n: nat) -> Seq<A> {
    if s.len() <= n {
        s
    } else {
        s.skip(s.len() - n)
    }
}

impl SharedView {
    /// With one more event waiting, the oldest dropped if there are too many.
    pub open spec fn enqueue(self, event: EventView) -> SharedView {
        SharedView { pending: newest(self.pending.push(event), MAX_PENDING as nat), ..self }
    }

    /// Without the events that the host has acknowledged.
    pub open spec fn settled(self) -> SharedView {
        SharedView {
            pending: self.pending.filter(|e: EventView| !self.acked.contains(e.message_id)),
            ..self
        }
    }

    /// The frame to send first on a connection, if there is one.
    pub open spec fn announcement(self) -> Option<Seq<char>> {
        if self.connected {
            Some(frame::ready_frame(self.endpoint.token))
        } else {
            None
        }
    }

    /// With the connection up or down.
    pub open spec fn with_connection(self, connected: bool) -> SharedView {
        SharedView { connected, ..self }
    }
}

/// What a look at the acknowledgements says.
#[derive(Debug, Clone, Copy, PartialEq, Eq, Structural)]
pub enum AckWait {
    /// Nothing is waiting any more.
    Settled,
    /// Time is up and something is still waiting.
    TimedOut,
    /// Something is still waiting: pause, then look again.
    Poll,
}

impl Shared {
    /// Puts an event into the queue.
    pub fn enqueue(&mut self, message_id: String, line: String)
        ensures
            final(self)@ == old(self)@.enqueue(
                EventView { message_id: message_id@, line: line@ },
            ),
    {
        let ghost event = EventView { message_id: message_id@, line: line@ };
        self.pending.push_back(PendingEvent { message_id, line });
        let ghost all = self.pending@;
        assert(events_of(all) =~= old(self)@.pending.push(event));
        assert(all.skip(0) =~= all);
        let ghost mut dropped: int = 0;
        while self.pending.len() > MAX_PENDING
            invariant
                self.endpoint == old(self).endpoint,
                self.connected == old(self).connected,
                self.acked == old(self).acked,
                self.turn_signal == old(self).turn_signal,
                0 <= dropped <= all.len(),
                self.pending@ == all.skip(dropped),
                dropped == 0 || self.pending@.len() >= MAX_PENDING,
            decreases self.pending@.len(),
        {
            let _ = self.pending.pop_front();
            proof {
                dropped = dropped + 1;
                assert(self.pending@ =~= all.skip(dropped));
            }
        }
        assert(events_of(self.pending@) =~= newest(events_of(all), MAX_PENDING as nat));
    }

    /// Drops the acknowledged events. Acknowledgements that match nothing yet are kept:
    /// one can overtake its event.
    pub fn settle(&mut self) -> (settled: bool)
        ensures
            final(self)@ == old(self)@.settled(),
            settled == (final(self)@.pending.len() == 0),
    {
        let ghost acked = self.acked@;
        let ghost waits = |e: EventView| !acked.contains(e.message_id);
        let ghost all = self.pending@;
        let mut queue: VecDeque<PendingEvent> = VecDeque::new();
        core::mem::swap(&mut queue, &mut self.pending);
        let mut kept: VecDeque<PendingEvent> = VecDeque::new();
        let ghost mut seen: int = 0;
        proof {
            assert(all.skip(0) =~= all);
            assert(events_of(all).take(0) =~= Seq::<EventView>::empty());
            reveal_with_fuel(Seq::filter, 1);
            assert(events_of(kept@) =~= events_of(all).take(0).filter(waits));
        }
        while queue.len() > 0
            invariant
                self.endpoint == old(self).endpoint,
                self.connected == old(self).connected,
                self.acked == old(self).acked,
                self.turn_signal == old(self).turn_signal,
                acked == self.acked@,
                waits == (|e: EventView| !acked.contains(e.message_id)),
                0 <= seen <= all.len(),
                queue@ == all.skip(seen),
                events_of(kept@) == events_of(all).take(seen).filter(waits),
            decreases queue@.len(),
        {
            if let Some(event) = queue.pop_front() {
                let ghost before = events_of(kept@);
                proof {
                    let next = events_of(all).take(seen + 1);
                    assert(event == all[seen]);
                    assert(next.drop_last() =~= events_of(all).take(seen));
                    assert(next.last() == event@);
                    reveal_with_fuel(Seq::filter, 1);
                    assert(next.filter(waits) == (if waits(event@) {
                        before.push(event@)
                    } else {
                        before
                    }));
                    seen = seen + 1;
                    assert(queue@ =~= all.skip(seen));
                }
                if !self.acked.contains(event.message_id.as_str()) {
                    kept.push_back(event);
                    assert(events_of(kept@) =~= before.push(event@));
                }
            }
        }
        assert(events_of(all).take(seen) =~= events_of(all));
        self.pending = kept;
        assert(old(self)@.settled().pending == events_of(kept@)) by {
            assert(waits =~= (|e: EventView| !old(self)@.acked.contains(e.message_id)));
        }
        self.pending.len() == 0
    }

    /// One look at the acknowledgements, `elapsed_millis` after the events were written.
    pub fn wait_for_acks(&mut self, elapsed_millis: u64) -> (wait: AckWait)
        ensures
            final(self)@ == old(self)@.settled(),
            wait == (if final(self)@.pending.len() == 0 {
                AckWait::Settled
            } else if elapsed_millis >= ACK_TIMEOUT_MILLIS {
                AckWait::TimedOut
            } else {
                AckWait::Poll
            }),
    {
        if self.settle() {
            AckWait::Settled
        } else if elapsed_millis >= ACK_TIMEOUT_MILLIS {
            AckWait::TimedOut
        } else {
            AckWait::Poll
        }
    }

    /// The frame to send first on a new connection. Without it the host sends this
    /// connection no control commands, and says nothing about it.
    pub fn announcement(&self) -> (line: Option<String>)
        ensures
            text::optional_text(line) == self@.announcement(),
    {
        if self.connected {
            Some(ready_line(self.endpoint.token.as_str()))
        } else {
            None
        }
    }

    /// The frames that still wait for their acknowledgement, oldest first.
    pub fn pending_lines(&self) -> (lines: Vec<String>)
        ensures
            lines@.len() == self@.pending.len(),
            forall|i: int|
                0 <= i < lines@.len() ==> #[trigger] lines@[i]@ == self@.pending[i].line,
    {
        let mut lines: Vec<String> = Vec::new();
        let mut i: usize = 0;
        while i < self.pending.len()
            invariant
                i <= self.pending@.len(),
                lines@.len() == i,
                forall|j: int| 0 <= j < i ==> #[trigger] lines@[j]@ == self@.pending[j].line,
            decreases self.pending@.len() - i,
        {
            lines.push(self.pending[i].line.clone());
            i = i + 1;
        }
        lines
    }

    /// What a write tells about the connection: one that fails ends it.
    pub fn record_write(&mut self, written: bool)
        ensures
            final(self)@ == old(self)@.with_connection(old(self)@.connected && written),
    {
        if !written {
            self.connected = false;
        }
    }
}

/// What to do about a line from the host.
pub struct Inbound {
    /// Abort the turn that is running.
    pub abort: bool,
    /// Send this frame back.
    pub reply: Option<String>,
}

/// What to do about a line, as a value.
pub struct InboundView {
    pub abort: bool,
    pub reply: Option<Seq<char>>,
}

impl View for Inbound {
    type V = InboundView;

    open spec fn view(&self) -> InboundView {
        InboundView {
            abort: self.abort,
            reply: match self.reply {
                Some(line) => Some(line@),
                None => None,
            },
        }
    }
}

/// The line acknowledges an event.
pub open spec fn is_ack(line: Seq<char>) -> bool {
    text::contains_text(line, "\"kind\":\"ack\""@)
}

/// The line is a control command.
pub open spec fn is_control(line: Seq<char>) -> bool {
    !is_ack(line) && text::contains_text(line, "\"kind\":\"control\""@)
}

/// The command that a control line gives, empty if it gives none.
pub open spec fn command_of(line: Seq<char>) -> Seq<char> {
    match frame::field_of(line, "command"@) {
        Some(command) => command,
        None => Seq::empty(),
    }
}

/// The text that answers a command. An interrupt without a running turn is no failure:
/// the turn may just have ended.
pub open spec fn answer_text(command: Seq<char>, turn_running: bool) -> Seq<char> {
    if command != "interrupt"@ {
        "claw 尚未支持控制命令："@ + command
    } else if turn_running {
        "已请求中断：当前这轮读完即停"@
    } else {
        "当前没有正在进行的任务"@
    }
}

impl SharedView {
    /// The line interrupts the running turn.
    pub open spec fn interrupted_by(self, line: Seq<char>) -> bool {
        is_control(line) && command_of(line) == "interrupt"@ && self.turn_signal is Some
    }

    /// The state after a line from the host.
    pub open spec fn after_inbound(self, line: Seq<char>) -> SharedView {
        if is_ack(line) {
            match frame::field_of(line, "messageId"@) {
                Some(id) => SharedView { acked: self.acked.insert(id), ..self },
                None => self,
            }
        } else if self.interrupted_by(line) {
            SharedView { turn_signal: Some(AbortSignal { aborted: true }), ..self }
        } else {
            self
        }
    }

    /// What a line from the host asks for. A command is answered if it names its request
    /// and there is a connection to answer on.
    pub open spec fn effect_of(self, line: Seq<char>) -> InboundView {
        InboundView {
            abort: self.interrupted_by(line),
            reply: match frame::field_of(line, "requestId"@) {
                Some(id) if is_control(line) && self.connected => Some(
                    frame::control_result_frame(
                        self.endpoint.token,
                        id,
                        command_of(line) == "interrupt"@,
                        answer_text(command_of(line), self.turn_signal is Some),
                    ),
                ),
                _ => None,
            },
        }
    }
}

/// Whether `needle` stands somewhere in `line`.
fn line_contains(line: &str, needle: &str) -> (found: bool)
    ensures
        found == text::contains_text(line@, needle@),
{
    let line = chars_of(line);
    let needle = chars_of(needle);
    find(line.as_slice(), needle.as_slice()).is_some()
}

/// Takes one line from the host: keeps an acknowledgement, carries out a command, and
/// ignores everything else.
pub fn handle_inbound(shared: &mut Shared, line: &str) -> (inbound: Inbound)
    ensures
        final(shared)@ == old(shared)@.after_inbound(line@),
        inbound@ == old(shared)@.effect_of(line@),
{
    if line_contains(line, "\"kind\":\"ack\"") {
        if let Some(id) = field(line, "messageId") {
            let _ = shared.acked.insert(id);
        }
        return Inbound { abort: false, reply: None };
    }
    if !line_contains(line, "\"kind\":\"control\"") {
        return Inbound { abort: false, reply: None };
    }
    let request_id = field(line, "requestId");
    let command = match field(line, "command") {
        Some(command) => command,
        None => String::new(),
    };
    let mut abort = false;
    let ok = command == "interrupt".to_owned();
    let answer = if ok {
        if let Some(signal) = shared.turn_signal {
            let mut signal = signal;
            signal.abort();
            shared.turn_signal = Some(signal);
            abort = true;
            "已请求中断：当前这轮读完即停".to_owned()
        } else {
            "当前没有正在进行的任务".to_owned()
        }
    } else {
        let mut answer = "claw 尚未支持控制命令：".to_owned();
        answer.append(command.as_str());
        answer
    };
    let reply = match request_id {
        Some(id) => if shared.connected {
            Some(
                control_result_line(
                    shared.endpoint.token.as_str(),
                    id.as_str(),
                    ok,
                    answer.as_str(),
                ),
            )
        } else {
            None
        },
        None => None,
    };
    Inbound { abort, reply }
}

/// What a flush does next. The attempt is counted from 0.
#[derive(Debug, Clone, Copy, PartialEq, Eq, Structural)]
pub enum FlushStep {
    /// Open a connection to the host.
    Connect { attempt: u8 },
    /// Declare the new connection ready for control commands, and start to read from it.
    Announce { attempt: u8 },
    /// Write all pending frames, oldest first.
    Write { attempt: u8 },
    /// Wait until everything is acknowledged or time is up.
    AwaitAcks { attempt: u8 },
    /// Nothing more.
    Done,
}

/// The attempts that a flush makes.
pub const FLUSH_ATTEMPTS: u8 = 2;

/// The first step of an attempt: writing needs a connection.
pub open spec fn attempt_step(attempt: int, connected: bool) -> FlushStep {
    if attempt >= FLUSH_ATTEMPTS {
        FlushStep::Done
    } else if connected {
        FlushStep::Write { attempt: attempt as u8 }
    } else {
        FlushStep::Connect { attempt: attempt as u8 }
    }
}

impl SharedView {
    /// The connection after `step`, which went well or not.
    pub open spec fn after_step(self, step: FlushStep, ok: bool) -> SharedView {
        match step {
            FlushStep::Connect { .. } => self.with_connection(ok),
            FlushStep::Announce { .. } => self.with_connection(self.connected && ok),
            FlushStep::Write { .. } => self.with_connection(self.connected && ok),
            FlushStep::AwaitAcks { attempt } => self.with_connection(
                self.connected && (ok || attempt > 0),
            ),
            FlushStep::Done => self,
        }
    }

    /// What follows `step`, which went well or not. A failure ends the attempt. A new
    /// connection is announced before anything else is written to it.
    pub open spec fn next_step(self, step: FlushStep, ok: bool) -> FlushStep {
        let connected = self.after_step(step, ok).connected;
        match step {
            FlushStep::Connect { attempt } => if connected {
                FlushStep::Announce { attempt }
            } else {
                attempt_step(attempt + 1, connected)
            },
            FlushStep::Announce { attempt } => if connected {
                FlushStep::Write { attempt }
            } else {
                attempt_step(attempt + 1, connected)
            },
            FlushStep::Write { attempt } => if ok {
                FlushStep::AwaitAcks { attempt }
            } else {
                attempt_step(attempt + 1, connected)
            },
            FlushStep::AwaitAcks { attempt } => if ok {
                FlushStep::Done
            } else {
                attempt_step(attempt + 1, connected)
            },
            FlushStep::Done => FlushStep::Done,
        }
    }
}

impl Shared {
    /// The first step of a flush.
    pub fn start_flush(&self) -> (step: FlushStep)
        ensures
            step == attempt_step(0, self@.connected),
    {
        if self.connected {
            FlushStep::Write { attempt: 0 }
        } else {
            FlushStep::Connect { attempt: 0 }
        }
    }

    /// The first step of the attempt after `attempt`.
    fn next_attempt(&self, attempt: u8) -> (step: FlushStep)
        ensures
            step == attempt_step(attempt + 1, self@.connected),
    {
        if attempt >= FLUSH_ATTEMPTS - 1 {
            FlushStep::Done
        } else if self.connected {
            FlushStep::Write { attempt: attempt + 1 }
        } else {
            FlushStep::Connect { attempt: attempt + 1 }
        }
    }

    /// Takes the outcome of `step` and says what is next.
    pub fn flush(&mut self, step: FlushStep, ok: bool) -> (next: FlushStep)
        ensures
            final(self)@ == old(self)@.after_step(step, ok),
            next == old(self)@.next_step(step, ok),
    {
        match step {
            FlushStep::Connect { attempt } => {
                self.connected = ok;
                if ok {
                    FlushStep::Announce { attempt }
                } else {
                    self.next_attempt(attempt)
                }
            },
            FlushStep::Announce { attempt } => {
                self.record_write(ok);
                if self.connected {
                    FlushStep::Write { attempt }
                } else {
                    self.next_attempt(attempt)
                }
            },
            FlushStep::Write { attempt } => {
                self.record_write(ok);
                if ok {
                    FlushStep::AwaitAcks { attempt }
                } else {
                    self.next_attempt(attempt)
                }
            },
            FlushStep::AwaitAcks { attempt } => {
                if ok {
                    FlushStep::Done
                } else {
                    // A write that succeeds does not say that the peer received it: this
                    // is how a half-dead connection loses data.
                    if attempt == 0 {
                        self.connected = false;
                    }
                    self.next_attempt(attempt)
                }
            },
            FlushStep::Done => FlushStep::Done,
        }
    }
}

/// The id of message `n` of the process `pid`.
pub open spec fn message_id(pid: u32, n: u64) -> Seq<char> {
    "claw-"@ + text::decimal(pid as nat) + seq!['-'] + text::decimal(n as nat)
}

/// The event channel of one process.
pub struct ImBridge {
    pub shared: Shared,
    pub counter: u64,
}

/// A bridge as a value.
pub struct BridgeView {
    pub shared: SharedView,
    pub counter: u64,
}

impl View for ImBridge {
    type V = BridgeView;

    open spec fn view(&self) -> BridgeView {
        BridgeView { shared: self.shared@, counter: self.counter }
    }
}

/// The count after `n`; it starts again behind the largest.
pub open spec fn next_count(n: u64) -> u64 {
    if n == u64::MAX {
        0
    } else {
        (n + 1) as u64
    }
}

impl BridgeView {
    /// A bridge that nothing has passed yet.
    pub open spec fn fresh(endpoint: endpoint::EndpointView, connected: bool) -> BridgeView {
        BridgeView {
            shared: SharedView {
                endpoint,
                connected,
                pending: Seq::empty(),
                acked: Set::empty(),
                turn_signal: None,
            },
            counter: 0,
        }
    }

    /// The bridge with one more event waiting.
    pub open spec fn after_emit(self, pid: u32, kind: Seq<char>, text: Seq<char>) -> BridgeView {
        let id = message_id(pid, self.counter);
        BridgeView {
            shared: self.shared.enqueue(
                EventView {
                    message_id: id,
                    line: frame::event_frame(self.shared.endpoint.token, kind, text, id),
                },
            ),
            counter: next_count(self.counter),
        }
    }
}

impl ImBridge {
    /// A bridge to `endpoint`; `opened` says whether a connection to it could be opened.
    /// One that could not is no error: it is tried again when there is something to send.
    /// With the bridge comes the frame to send before anything else, if there is a
    /// connection to send it on.
    pub fn connect(endpoint: BridgeEndpoint, opened: bool) -> (result: (ImBridge, Option<String>))
        ensures
            result.0@ == BridgeView::fresh(endpoint@, opened),
            text::optional_text(result.1) == BridgeView::fresh(
                endpoint@,
                opened,
            ).shared.announcement(),
    {
        let bridge = ImBridge {
            shared: Shared {
                endpoint,
                connected: opened,
                pending: VecDeque::new(),
                acked: StringHashSet::new(),
                turn_signal: None,
            },
            counter: 0,
        };
        assert(bridge@.shared.pending =~= Seq::<EventView>::empty());
        let announcement = bridge.shared.announcement();
        (bridge, announcement)
    }

    /// The id for the next message of this process.
    pub fn next_message_id(&mut self, pid: u32) -> (id: String)
        ensures
            id@ == message_id(pid, old(self)@.counter),
            final(self)@ == (BridgeView {
                counter: next_count(old(self)@.counter),
                ..old(self)@
            }),
    {
        let n: u64 = self.counter;
        self.counter = if n == u64::MAX {
            0
        } else {
            n + 1
        };
        let mut id = "claw-".to_owned();
        id.append(decimal_of(pid as u64).as_str());
        id.push('-');
        id.append(decimal_of(n).as_str());
        assert(id@ =~= message_id(pid, n));
        id
    }

    /// Puts an event into the queue and says how to begin to send it.
    pub fn emit(&mut self, pid: u32, kind: &str, text: &str) -> (step: FlushStep)
        ensures
            final(self)@ == old(self)@.after_emit(pid, kind@, text@),
            step == attempt_step(0, old(self)@.shared.connected),
    {
        let id = self.next_message_id(pid);
        let line = event_line(self.shared.endpoint.token.as_str(), kind, text, id.as_str());
        self.shared.enqueue(id, line);
        self.shared.start_flush()
    }
}

/// The one bridge that a process may have: not decided yet, decided against, or there.
pub struct BridgeSlot {
    pub bridge: Option<Option<ImBridge>>,
}

impl View for BridgeSlot {
    type V = Option<Option<BridgeView>>;

    open spec fn view(&self) -> Option<Option<BridgeView>> {
        match self.bridge {
            Some(Some(bridge)) => Some(Some(bridge@)),
            Some(None) => Some(None),
            None => None,
        }
    }
}

impl BridgeSlot {
    pub fn new() -> (slot: BridgeSlot)
        ensures
            slot@ is None,
    {
        BridgeSlot { bridge: None }
    }
}

/// The slot after `raw` was installed: decided once, and for good.
pub open spec fn installed(
    slot: Option<Option<BridgeView>>,
    raw: Seq<char>,
    opened: bool,
) -> Option<Option<BridgeView>> {
    match slot {
        Some(decided) => Some(decided),
        None => match endpoint::endpoint_of(raw) {
            Some(endpoint) => Some(Some(BridgeView::fresh(endpoint, opened))),
            None => Some(None),
        },
    }
}

/// The frame to send before anything else once `raw` was installed: that of the new bridge,
/// if it has a connection.
pub open spec fn install_announcement(
    slot: Option<Option<BridgeView>>,
    raw: Seq<char>,
    opened: bool,
) -> Option<Seq<char>> {
    match (slot, installed(slot, raw, opened)) {
        (None, Some(Some(bridge))) => bridge.shared.announcement(),
        _ => None,
    }
}

/// Installs the bridge that `raw` names; `opened` says whether a connection to it could
/// be opened. What names no endpoint is installed as no bridge, and a second call
/// changes nothing. Handed back is the frame to send before anything else, if a bridge with
/// a connection was installed.
pub fn install(slot: &mut BridgeSlot, raw: &str, opened: bool) -> (announcement: Option<String>)
    ensures
        final(slot)@ == installed(old(slot)@, raw@, opened),
        text::optional_text(announcement) == install_announcement(old(slot)@, raw@, opened),
{
    if slot.bridge.is_some() {
        return None;
    }
    match parse_endpoint(raw) {
        Some(endpoint) => {
            let (bridge, announcement) = ImBridge::connect(endpoint, opened);
            slot.bridge = Some(Some(bridge));
            announcement
        },
        None => {
            slot.bridge = Some(None);
            None
        },
    }
}

/// Emits an event; nothing to do where no bridge is installed.
pub fn emit(slot: &mut BridgeSlot, pid: u32, kind: &str, text: &str) -> (step: FlushStep)
    ensures
        match old(slot)@ {
            Some(Some(bridge)) => {
                &&& final(slot)@ == Some(Some(bridge.after_emit(pid, kind@, text@)))
                &&& step == attempt_step(0, bridge.shared.connected)
            },
            _ => final(slot)@ == old(slot)@ && step == FlushStep::Done,
        },
{
    match &mut slot.bridge {
        Some(Some(bridge)) => bridge.emit(pid, kind, text),
        _ => FlushStep::Done,
    }
}

/// Registers the signal of the turn that begins, or clears it when the turn ends.
pub fn set_turn_signal(slot: &mut BridgeSlot, signal: Option<AbortSignal>)
    ensures
        final(slot)@ == (match old(slot)@ {
            Some(Some(bridge)) => Some(
                Some(
                    BridgeView {
                        shared: SharedView { turn_signal: signal, ..bridge.shared },
                        ..bridge
                    },
                ),
            ),
            _ => old(slot)@,
        }),
{
    match &mut slot.bridge {
        Some(Some(bridge)) => {
            bridge.shared.turn_signal = signal;
        },
        _ => {},
    }
}

/// A line that acknowledges never interrupts the running turn and is never answered,
/// whatever else it says.
pub proof fn law_ack_never_reaches_the_control_path(shared: SharedView, line: Seq<char>)
    requires
        is_ack(line),
    ensures
        shared.after_inbound(line).turn_signal == shared.turn_signal,
        !shared.effect_of(line).abort,
        shared.effect_of(line).reply is None,
{
}

/// A line that is neither an acknowledgement nor a command changes nothing.
pub proof fn law_other_lines_are_ignored(shared: SharedView, line: Seq<char>)
    requires
        !is_ack(line),
        !is_control(line),
    ensures
        shared.after_inbound(line) == shared,
        !shared.effect_of(line).abort,
        shared.effect_of(line).reply is None,
{
}

/// The frame by which the host acknowledges an event takes that event out of the queue,
/// and no other.
pub proof fn law_acknowledged_event_is_settled(
    shared: SharedView,
    token: Seq<char>,
    id: Seq<char>,
    event: EventView,
)
    requires
        frame::restorable(id),
    ensures
        ({
            let after = shared.after_inbound(frame::ack_frame(token, id));
            &&& after.acked == shared.acked.insert(id)
            &&& after.settled().pending.contains(event) <==> {
                &&& shared.pending.contains(event)
                &&& event.message_id != id
                &&& !shared.acked.contains(event.message_id)
            }
        }),
{
    frame::lemma_ack_frame(token, id);
    let after = shared.after_inbound(frame::ack_frame(token, id));
    law_settling_keeps_what_is_not_acknowledged(after, event);
}

/// Settling keeps exactly the events without an acknowledgement, and the acknowledgements
/// themselves.
pub proof fn law_settling_keeps_what_is_not_acknowledged(shared: SharedView, event: EventView)
    ensures
        shared.settled().pending.contains(event) <==> shared.pending.contains(event)
            && !shared.acked.contains(event.message_id),
        shared.settled().acked == shared.acked,
        shared.settled().settled() == shared.settled(),
{
    let waits = |e: EventView| !shared.acked.contains(e.message_id);
    let kept = shared.pending.filter(waits);
    if kept.contains(event) {
        shared.pending.lemma_filter_contains_rev(waits, event);
        let i: int = choose|i: int| 0 <= i < kept.len() && kept[i] == event;
        shared.pending.lemma_filter_pred(waits, i);
    }
    if shared.pending.contains(event) && waits(event) {
        let i: int = choose|i: int| 0 <= i < shared.pending.len() && shared.pending[i] == event;
        shared.pending.lemma_filter_contains(waits, i);
    }
    assert forall|i: int| 0 <= i < kept.len() implies waits(#[trigger] kept[i]) by {
        shared.pending.lemma_filter_pred(waits, i);
    }
    lemma_filter_of_all(kept, waits);
}

/// Filtering drops nothing where everything passes.
proof fn lemma_filter_of_all(s: Seq<EventView>, pred: spec_fn(EventView) -> bool)
    requires
        forall|i: int| 0 <= i < s.len() ==> pred(#[trigger] s[i]),
    ensures
        s.filter(pred) == s,
    decreases s.len(),
{
    reveal_with_fuel(Seq::filter, 1);
    if s.len() > 0 {
        lemma_filter_of_all(s.drop_last(), pred);
        assert(s.drop_last().push(s.last()) =~= s);
    }
}

/// The frame by which the host asks for an interrupt aborts the running turn, and is
/// answered with success whether or not one was running.
pub proof fn law_interrupt_aborts_the_running_turn(
    shared: SharedView,
    token: Seq<char>,
    request_id: Seq<char>,
)
    requires
        frame::restorable(request_id),
    ensures
        ({
            let line = frame::control_frame(token, request_id, "interrupt"@);
            let after = shared.after_inbound(line);
            let effect = shared.effect_of(line);
            &&& effect.abort == shared.turn_signal is Some
            &&& shared.turn_signal is Some ==> after.turn_signal == Some(
                AbortSignal { aborted: true },
            )
            &&& shared.turn_signal is None ==> after.turn_signal is None
            &&& after.pending == shared.pending
            &&& after.acked == shared.acked
            &&& shared.connected ==> effect.reply == Some(
                frame::control_result_frame(
                    shared.endpoint.token,
                    request_id,
                    true,
                    answer_text("interrupt"@, shared.turn_signal is Some),
                ),
            )
        }),
{
    reveal_strlit("interrupt");
    frame::lemma_control_frame(token, request_id, "interrupt"@);
}

/// A command that is not known changes nothing, and is answered with failure.
pub proof fn law_unknown_command_is_refused(
    shared: SharedView,
    token: Seq<char>,
    request_id: Seq<char>,
    command: Seq<char>,
)
    requires
        frame::restorable(request_id),
        frame::restorable(command),
        command != "interrupt"@,
    ensures
        ({
            let line = frame::control_frame(token, request_id, command);
            let effect = shared.effect_of(line);
            &&& shared.after_inbound(line) == shared
            &&& !effect.abort
            &&& shared.connected ==> effect.reply == Some(
                frame::control_result_frame(
                    shared.endpoint.token,
                    request_id,
                    false,
                    "claw 尚未支持控制命令："@ + command,
                ),
            )
        }),
{
    frame::lemma_control_frame(token, request_id, command);
}

/// The newest event is always kept, the events before it keep their order, only the
/// oldest is ever dropped, and none while there is room.
pub proof fn law_only_the_oldest_events_are_dropped(shared: SharedView, event: EventView)
    ensures
        ({
            let before = shared.pending;
            let after = shared.enqueue(event).pending;
            &&& 0 < after.len() <= MAX_PENDING
            &&& after.last() == event
            &&& after.is_suffix_of(before.push(event))
            &&& before.len() < MAX_PENDING ==> after == before.push(event)
            &&& before.len() == MAX_PENDING ==> after == before.skip(1).push(event)
        }),
{
    let all = shared.pending.push(event);
    let after = shared.enqueue(event).pending;
    assert(all.subrange(all.len() - after.len(), all.len() as int) =~= after);
    if shared.pending.len() == MAX_PENDING {
        assert(after =~= shared.pending.skip(1).push(event));
    }
}

impl SharedView {
    /// No more events wait than there is room for.
    pub open spec fn bounded(self) -> bool {
        self.pending.len() <= MAX_PENDING
    }
}

/// The queue of a bridge is bounded from the start, and nothing that happens to the
/// bridge changes that.
pub proof fn law_queue_stays_bounded(
    endpoint: endpoint::EndpointView,
    opened: bool,
    shared: SharedView,
    event: EventView,
    line: Seq<char>,
    step: FlushStep,
    ok: bool,
)
    ensures
        BridgeView::fresh(endpoint, opened).shared.bounded(),
        shared.enqueue(event).bounded(),
        shared.bounded() ==> shared.settled().bounded(),
        shared.bounded() ==> shared.after_inbound(line).bounded(),
        shared.bounded() ==> shared.after_step(step, ok).bounded(),
{
    shared.pending.lemma_filter_len(|e: EventView| !shared.acked.contains(e.message_id));
}

/// Different messages have different ids, in one process and across processes.
pub proof fn law_message_ids_are_unique(pid_a: u32, a: u64, pid_b: u32, b: u64)
    requires
        message_id(pid_a, a) == message_id(pid_b, b),
    ensures
        pid_a == pid_b,
        a == b,
{
    let x = text::decimal(pid_a as nat);
    let y = text::decimal(pid_b as nat);
    let u = text::decimal(a as nat);
    let v = text::decimal(b as nat);
    let id = message_id(pid_a, a);
    let n = "claw-"@.len() as int;
    assert(id[n + x.len()] == '-');
    assert(id[n + y.len()] == '-');
    if x.len() < y.len() {
        text::lemma_decimal_digits(pid_b as nat, x.len() as int);
        assert(id[n + x.len()] == y[x.len() as int]);
    }
    if y.len() < x.len() {
        text::lemma_decimal_digits(pid_a as nat, y.len() as int);
        assert(id[n + y.len()] == x[y.len() as int]);
    }
    assert(x =~= id.subrange(n, n + x.len()));
    assert(y =~= id.subrange(n, n + y.len()));
    text::lemma_decimal_injective(pid_a as nat, pid_b as nat);
    assert(u =~= id.skip(n + x.len() + 1));
    assert(v =~= id.skip(n + y.len() + 1));
    text::lemma_decimal_injective(a as nat, b as nat);
}

/// The first connection is announced before anything else: installing a bridge with a
/// connection hands back the announcement, and no event is waiting yet. Without a
/// connection there is nothing to announce, and a flush begins by opening one.
pub proof fn law_first_connection_is_announced(
    raw: Seq<char>,
    endpoint: endpoint::EndpointView,
    opened: bool,
)
    requires
        endpoint::endpoint_of(raw) == Some(endpoint),
    ensures
        ({
            let bridge = BridgeView::fresh(endpoint, opened);
            &&& installed(None, raw, opened) == Some(Some(bridge))
            &&& bridge.shared.pending.len() == 0
            &&& opened ==> install_announcement(None, raw, opened) == Some(
                frame::ready_frame(endpoint.token),
            )
            &&& !opened ==> install_announcement(None, raw, opened) is None && attempt_step(
                0,
                bridge.shared.connected,
            ) == (FlushStep::Connect { attempt: 0 })
        }),
{
}

/// A flush announces each connection that it opens before it writes an event to it.
pub proof fn law_new_connection_is_announced_first(shared: SharedView, attempt: u8, ok: bool)
    ensures
        shared.next_step(FlushStep::Connect { attempt }, true) == (FlushStep::Announce {
            attempt,
        }),
        shared.next_step(FlushStep::Connect { attempt }, ok) !is Write,
        shared.next_step(FlushStep::Announce { attempt }, ok) is Write ==> ok,
{
}

/// A flush touches nothing but the connection: every event that waited still waits, in
/// the same place, until it is acknowledged.
pub proof fn law_flush_keeps_what_waits(shared: SharedView, step: FlushStep, ok: bool)
    ensures
        shared.after_step(step, ok) == shared.with_connection(
            shared.after_step(step, ok).connected,
        ),
{
}

/// Events that are not acknowledged in time make the flush drop the connection, open a
/// new one, announce it and write them again.
pub proof fn law_timeout_reconnects_and_resends(shared: SharedView)
    ensures
        ({
            let waiting = FlushStep::AwaitAcks { attempt: 0 };
            let dropped = shared.after_step(waiting, false);
            let connect = shared.next_step(waiting, false);
            let opened = dropped.after_step(connect, true);
            let announce = dropped.next_step(connect, true);
            let announced = opened.after_step(announce, true);
            let write = opened.next_step(announce, true);
            &&& !dropped.connected
            &&& connect == FlushStep::Connect { attempt: 1 }
            &&& announce == FlushStep::Announce { attempt: 1 }
            &&& write == FlushStep::Write { attempt: 1 }
            &&& announced.connected
            &&& announced.pending == shared.pending
        }),
{
}

/// Events that cannot be written, or a connection that cannot be announced, make the flush
/// drop the connection, open a new one, announce it and write them again, as a timeout does.
pub proof fn law_failed_write_reconnects_and_resends(shared: SharedView, failed: FlushStep)
    requires
        failed == (FlushStep::Write { attempt: 0 }) || failed == (FlushStep::Announce {
            attempt: 0,
        }),
    ensures
        ({
            let dropped = shared.after_step(failed, false);
            let connect = shared.next_step(failed, false);
            let opened = dropped.after_step(connect, true);
            let announce = dropped.next_step(connect, true);
            let announced = opened.after_step(announce, true);
            let write = opened.next_step(announce, true);
            &&& !dropped.connected
            &&& connect == FlushStep::Connect { attempt: 1 }
            &&& announce == FlushStep::Announce { attempt: 1 }
            &&& write == FlushStep::Write { attempt: 1 }
            &&& announced.connected
            &&& announced.pending == shared.pending
        }),
{
}

/// How many steps a flush can still take.
pub open spec fn steps_left(step: FlushStep) -> int {
    match step {
        FlushStep::Connect { attempt } => 4 * (FLUSH_ATTEMPTS - attempt),
        FlushStep::Announce { attempt } => 4 * (FLUSH_ATTEMPTS - attempt) - 1,
        FlushStep::Write { attempt } => 4 * (FLUSH_ATTEMPTS - attempt) - 2,
        FlushStep::AwaitAcks { attempt } => 4 * (FLUSH_ATTEMPTS - attempt) - 3,
        FlushStep::Done => 0,
    }
}

/// The step belongs to one of the attempts that a flush makes.
pub open spec fn step_is_valid(step: FlushStep) -> bool {
    match step {
        FlushStep::Connect { attempt } => attempt < FLUSH_ATTEMPTS,
        FlushStep::Announce { attempt } => attempt < FLUSH_ATTEMPTS,
        FlushStep::Write { attempt } => attempt < FLUSH_ATTEMPTS,
        FlushStep::AwaitAcks { attempt } => attempt < FLUSH_ATTEMPTS,
        FlushStep::Done => true,
    }
}

/// A flush ends, whatever the connection does: it starts with at most eight steps left,
/// and each step leaves fewer.
pub proof fn law_flush_ends(shared: SharedView, step: FlushStep, ok: bool)
    requires
        step_is_valid(step),
    ensures
        step_is_valid(attempt_step(0, shared.connected)),
        steps_left(attempt_step(0, shared.connected)) <= 8,
        step_is_valid(shared.next_step(step, ok)),
        step !is Done ==> 0 <= steps_left(shared.next_step(step, ok)) < steps_left(step),
{
}

/// The first installation decides; a later one changes nothing.
pub proof fn law_bridge_is_installed_once(
    slot: Option<Option<BridgeView>>,
    raw: Seq<char>,
    opened: bool,
    later: Seq<char>,
    later_opened: bool,
)
    ensures
        installed(installed(slot, raw, opened), later, later_opened) == installed(
            slot,
            raw,
            opened,
        ),
{
}

/// Every event that a bridge emits ends up in the queue as one line with the bridge's
/// token, its kind, its text and the id by which the host acknowledges it.
pub proof fn law_emitted_event_waits(bridge: BridgeView, pid: u32, kind: Seq<char>, text: Seq<char>)
    ensures
        ({
            let event = bridge.after_emit(pid, kind, text).shared.pending.last();
            let token = bridge.shared.endpoint.token;
            &&& event.message_id == message_id(pid, bridge.counter)
            &&& event.line.last() == '\n'
            &&& forall|i: int|
                0 <= i < event.line.len() - 1 ==> #[trigger] event.line[i] != '\n'
            &&& frame::field_of(event.line, "messageId"@) == Some(event.message_id)
            &&& frame::restorable(token) ==> frame::field_of(event.line, "token"@) == Some(token)
            &&& frame::restorable(kind) ==> frame::field_of(event.line, "kind"@) == Some(kind)
            &&& frame::restorable(text) ==> frame::field_of(event.line, "text"@) == Some(text)
        }),
{
    let token = bridge.shared.endpoint.token;
    let id = message_id(pid, bridge.counter);
    let event = EventView {
        message_id: id,
        line: frame::event_frame(token, kind, text, id),
    };
    law_only_the_oldest_events_are_dropped(bridge.shared, event);
    assert(frame::restorable(id)) by {
        reveal_strlit("claw-");
        let x = text::decimal(pid as nat);
        let y = text::decimal(bridge.counter as nat);
        assert forall|i: int| 0 <= i < id.len() implies #[trigger] id[i] as u32 >= 0x20 by {
            if 5 <= i < 5 + x.len() {
                text::lemma_decimal_digits(pid as nat, i - 5);
                assert(id[i] == x[i - 5]);
            } else if i > 5 + x.len() {
                text::lemma_decimal_digits(bridge.counter as nat, i - 6 - x.len());
                assert(id[i] == y[i - 6 - x.len()]);
            }
        }
    }
    frame::law_event_frame(token, kind, text, id);
}

/// The shared state is made of its parts: the events keep their places, ids and frames.
pub proof fn law_state_is_made_of_its_parts(shared: Shared, bridge: ImBridge, slot: BridgeSlot)
    ensures
        shared@.endpoint.addr == shared.endpoint.addr@,
        shared@.endpoint.token == shared.endpoint.token@,
        shared@.connected == shared.connected,
        shared@.acked == shared.acked@,
        shared@.turn_signal == shared.turn_signal,
        shared@.pending.len() == shared.pending@.len(),
        forall|i: int|
            0 <= i < shared.pending@.len() ==> (#[trigger] shared@.pending[i]).message_id
                == shared.pending@[i].message_id@ && shared@.pending[i].line
                == shared.pending@[i].line@,
        bridge@.shared == bridge.shared@,
        bridge@.counter == bridge.counter,
        match slot.bridge {
            Some(Some(b)) => slot@ == Some(Some(b@)),
            Some(None) => slot@ == Some(None::<BridgeView>),
            None => slot@ is None,
        },
{
}

/// What a line from the host does to the state: an acknowledgement is kept, an interrupt of a
/// running turn sets its signal, and everything else stays as it is.
pub proof fn law_line_changes_the_state(shared: SharedView, line: Seq<char>)
    ensures
        ({
            let after = shared.after_inbound(line);
            let ack = text::contains_text(line, "\"kind\":\"ack\""@);
            let control = text::contains_text(line, "\"kind\":\"control\""@);
            let id = frame::field_of(line, "messageId"@);
            let command = frame::field_of(line, "command"@);
            &&& after.endpoint == shared.endpoint
            &&& after.connected == shared.connected
            &&& after.pending == shared.pending
            &&& after.acked == (if ack && id is Some {
                shared.acked.insert(id->Some_0)
            } else {
                shared.acked
            })
            &&& after.turn_signal == (if !ack && control && command == Some("interrupt"@)
                && shared.turn_signal is Some {
                Some(AbortSignal { aborted: true })
            } else {
                shared.turn_signal
            })
        }),
{
    reveal_strlit("interrupt");
}

/// What a line from the host asks for: an interrupt of a running turn is carried out, and a
/// command that names its request is answered on a connection: with success if it is an
/// interrupt, whether or not a turn was running, and with failure and the command's name
/// otherwise. Nothing else is carried out or answered.
pub proof fn law_line_asks_for(shared: SharedView, line: Seq<char>)
    ensures
        ({
            let effect = shared.effect_of(line);
            let ack = text::contains_text(line, "\"kind\":\"ack\""@);
            let control = text::contains_text(line, "\"kind\":\"control\""@);
            let request = frame::field_of(line, "requestId"@);
            let command = match frame::field_of(line, "command"@) {
                Some(command) => command,
                None => Seq::empty(),
            };
            let running = shared.turn_signal is Some;
            &&& effect.abort <==> !ack && control && command == "interrupt"@ && running
            &&& effect.reply is Some <==> !ack && control && request is Some && shared.connected
            &&& effect.reply is Some ==> effect.reply == Some(
                frame::control_result_frame(
                    shared.endpoint.token,
                    request->Some_0,
                    command == "interrupt"@,
                    if command != "interrupt"@ {
                        "claw 尚未支持控制命令："@ + command
                    } else if running {
                        "已请求中断：当前这轮读完即停"@
                    } else {
                        "当前没有正在进行的任务"@
                    },
                ),
            )
        }),
{
}

/// What was asked for is what is handed back.
pub proof fn law_answer_is_made_of_its_parts(inbound: Inbound)
    ensures
        inbound@.abort == inbound.abort,
        match inbound.reply {
            Some(line) => inbound@.reply == Some(line@),
            None => inbound@.reply is None,
        },
{
}

/// Settling looks at one event after the other, oldest first: each that is not acknowledged
/// stays, in its order, and nothing but the queue changes.
pub proof fn law_settling_goes_event_by_event(shared: SharedView, event: EventView)
    ensures
        (SharedView { pending: Seq::empty(), ..shared }).settled().pending == Seq::<
            EventView,
        >::empty(),
        (SharedView { pending: shared.pending.push(event), ..shared }).settled().pending == (
        if shared.acked.contains(event.message_id) {
            shared.settled().pending
        } else {
            shared.settled().pending.push(event)
        }),
        shared.settled() == (SharedView { pending: shared.settled().pending, ..shared }),
{
    let waits = |e: EventView| !shared.acked.contains(e.message_id);
    reveal_with_fuel(Seq::filter, 1);
    assert(shared.pending.push(event).drop_last() =~= shared.pending);
    assert((SharedView { pending: Seq::empty(), ..shared }).settled().pending =~= Seq::<
        EventView,
    >::empty());
    assert((|e: EventView| !(SharedView { pending: shared.pending.push(event), ..shared }).acked
        .contains(e.message_id)) =~= waits);
}

/// A new event goes to the end of the queue, and nothing but the queue changes.
pub proof fn law_queueing_changes_only_the_queue(shared: SharedView, event: EventView)
    ensures
        shared.enqueue(event) == (SharedView { pending: shared.enqueue(event).pending, ..shared }),
        shared.pending.len() < 8 ==> shared.enqueue(event).pending == shared.pending.push(event),
        shared.pending.len() >= 8 ==> shared.enqueue(event).pending == shared.pending.skip(
            shared.pending.len() - 7,
        ).push(event),
{
    if shared.pending.len() >= 8 {
        assert(shared.enqueue(event).pending =~= shared.pending.skip(
            shared.pending.len() - 7,
        ).push(event));
    }
}

/// A flush, step by step, in either of its two attempts: connect, announce, write, wait. What
/// fails ends the attempt; a second attempt begins with a new connection, and there is no
/// third.
pub proof fn law_flush_step_by_step(shared: SharedView)
    ensures
        attempt_step(0, true) == (FlushStep::Write { attempt: 0 }),
        attempt_step(0, false) == (FlushStep::Connect { attempt: 0 }),
        forall|a: u8|
            #![trigger shared.next_step(FlushStep::Connect { attempt: a }, true)]
            {
                &&& shared.next_step(FlushStep::Connect { attempt: a }, true) == (
                FlushStep::Announce { attempt: a })
                &&& shared.after_step(FlushStep::Connect { attempt: a }, true).connected
                &&& !shared.after_step(FlushStep::Connect { attempt: a }, false).connected
                &&& shared.connected ==> shared.next_step(
                    FlushStep::Announce { attempt: a },
                    true,
                ) == (FlushStep::Write { attempt: a })
                &&& shared.after_step(FlushStep::Announce { attempt: a }, true).connected
                    == shared.connected
                &&& !shared.after_step(FlushStep::Announce { attempt: a }, false).connected
                &&& shared.next_step(FlushStep::Write { attempt: a }, true) == (
                FlushStep::AwaitAcks { attempt: a })
                &&& shared.after_step(FlushStep::Write { attempt: a }, true).connected
                    == shared.connected
                &&& !shared.after_step(FlushStep::Write { attempt: a }, false).connected
                &&& shared.next_step(FlushStep::AwaitAcks { attempt: a }, true) is Done
                &&& shared.after_step(FlushStep::AwaitAcks { attempt: a }, true).connected
                    == shared.connected
            },
        shared.next_step(FlushStep::Connect { attempt: 0 }, false) == (FlushStep::Connect {
            attempt: 1,
        }),
        shared.next_step(FlushStep::Announce { attempt: 0 }, false) == (FlushStep::Connect {
            attempt: 1,
        }),
        shared.next_step(FlushStep::Write { attempt: 0 }, false) == (FlushStep::Connect {
            attempt: 1,
        }),
        shared.next_step(FlushStep::AwaitAcks { attempt: 0 }, false) == (FlushStep::Connect {
            attempt: 1,
        }),
        !shared.after_step(FlushStep::AwaitAcks { attempt: 0 }, false).connected,
        shared.next_step(FlushStep::Connect { attempt: 1 }, false) is Done,
        shared.next_step(FlushStep::Announce { attempt: 1 }, false) is Done,
        shared.next_step(FlushStep::Write { attempt: 1 }, false) is Done,
        shared.next_step(FlushStep::AwaitAcks { attempt: 1 }, false) is Done,
        shared.after_step(FlushStep::AwaitAcks { attempt: 1 }, false).connected
            == shared.connected,
        forall|ok: bool|
            #![trigger shared.next_step(FlushStep::Done, ok)]
            shared.next_step(FlushStep::Done, ok) is Done && shared.after_step(FlushStep::Done, ok)
                == shared,
{
}

/// The id of a message says the process and the number of the message.
pub proof fn law_message_id_letter_by_letter(pid: u32, n: u64)
    ensures
        message_id(pid, n) == "claw-"@ + text::decimal(pid as nat) + "-"@ + text::decimal(n as nat),
{
    reveal_strlit("-");
    assert("-"@ =~= seq!['-']);
}

/// Emitting an event changes the queue, which gets the event at its end, and the counter, which
/// goes on to the next number.
pub proof fn law_emitting_changes_queue_and_counter(
    bridge: BridgeView,
    pid: u32,
    kind: Seq<char>,
    text: Seq<char>,
)
    ensures
        ({
            let after = bridge.after_emit(pid, kind, text);
            let id = message_id(pid, bridge.counter);
            let event = EventView {
                message_id: id,
                line: frame::event_frame(bridge.shared.endpoint.token, kind, text, id),
            };
            &&& after.shared == bridge.shared.enqueue(event)
            &&& bridge.counter < u64::MAX ==> after.counter == bridge.counter + 1
            &&& bridge.counter == u64::MAX ==> after.counter == 0
        }),
{
}

/// What installing does: the first time it decides for the endpoint that the text names, if it
/// names one, with an empty queue and no running turn; after that it does nothing.
pub proof fn law_installing_decides_once(
    slot: Option<Option<BridgeView>>,
    raw: Seq<char>,
    opened: bool,
)
    ensures
        slot is Some ==> installed(slot, raw, opened) == slot && install_announcement(
            slot,
            raw,
            opened,
        ) is None,
        slot is None ==> match endpoint::endpoint_of(raw) {
            None => installed(slot, raw, opened) == Some(None::<BridgeView>)
                && install_announcement(slot, raw, opened) is None,
            Some(endpoint) => {
                &&& installed(slot, raw, opened) is Some && installed(
                    slot,
                    raw,
                    opened,
                )->Some_0 is Some
                &&& ({
                    let bridge = installed(slot, raw, opened)->Some_0->Some_0;
                    &&& bridge.counter == 0
                    &&& bridge.shared.endpoint == endpoint
                    &&& bridge.shared.connected == opened
                    &&& bridge.shared.pending == Seq::<EventView>::empty()
                    &&& bridge.shared.acked == Set::<Seq<char>>::empty()
                    &&& bridge.shared.turn_signal is None
                })
                &&& install_announcement(slot, raw, opened) == (if opened {
                    Some(frame::ready_frame(endpoint.token))
                } else {
                    None
                })
            },
        },
{
}

/// The limits of the channel: eight events wait at most, acknowledgements are waited for one and
/// a half seconds, looked at every twenty milliseconds, and a flush makes two attempts.
pub proof fn law_limits()
    ensures
        MAX_PENDING == 8,
        ACK_TIMEOUT_MILLIS == 1500,
        ACK_POLL_MILLIS == 20,
        FLUSH_ATTEMPTS == 2,
{
}

/// A connection is announced with the token of its endpoint, and only a connection is; a change
/// of the connection changes nothing else.
pub proof fn law_connection_is_announced_with_its_token(shared: SharedView, connected: bool)
    ensures
        shared.announcement() == (if shared.connected {
            Some(frame::ready_frame(shared.endpoint.token))
        } else {
            None
        }),
        shared.with_connection(connected) == (SharedView { connected, ..shared }),
{
}

/// The count goes on by one, and starts again behind the largest.
pub proof fn law_count_goes_on(n: u64)
    ensures
        n < u64::MAX ==> next_count(n) == n + 1,
        n == u64::MAX ==> next_count(n) == 0,
{
}

/// A new bridge has its endpoint, its connection if one was opened, and nothing else yet.
pub proof fn law_new_bridge_is_empty(endpoint: endpoint::EndpointView, connected: bool)
    ensures
        ({
            let bridge = BridgeView::fresh(endpoint, connected);
            &&& bridge.shared.endpoint == endpoint
            &&& bridge.shared.connected == connected
            &&& bridge.shared.pending == Seq::<EventView>::empty()
            &&& bridge.shared.acked == Set::<Seq<char>>::empty()
            &&& bridge.shared.turn_signal is None
            &&& bridge.counter == 0
        }),
{
}

} // verus!
