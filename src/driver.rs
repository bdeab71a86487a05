//! The decisions of the loop that drives the virtual device: read packets
//! until a message is complete, hand it to the emulator, wait for the reply,
//! write the reply back, and start over. One message is in flight at a time.
use vstd::prelude::*;
use crate::framing::{
    encode_apdu, encoding, ApduDecoder, DecoderState, Feed, FeedView, MAX_FRAMED_LEN,
    feed_spec, fresh_state, state_wf,
};

verus! {

/// Why the loop ends.
#[derive(Clone, Copy, Debug, PartialEq, Eq, Structural)]
pub enum StopReason {
    /// Reading from the device failed.
    DeviceReadFailed,
    /// Writing to the device failed.
    DeviceWriteFailed,
    /// The emulator task ended and no reply will come.
    EmulatorGone,
    /// The reply is too long for the two-byte length field.
    ReplyTooLong,
    /// An event came that the current phase does not wait for.
    UnexpectedEvent,
}

/// Where the loop stands.
#[derive(Clone, Copy, Debug, PartialEq, Eq, Structural)]
pub enum Phase {
    /// Reading packets from the host.
    AwaitingHostMessage,
    /// A message was handed to the emulator; its reply is awaited.
    AwaitingEmulatorReply,
    /// The packets of a reply are being written to the device.
    WritingReply,
    /// The loop has ended.
    Stopped(StopReason),
}

/// What the caller observed after performing the last action.
#[derive(Debug, PartialEq, Eq)]
pub enum DriverEvent {
    /// The host wrote a packet to the device.
    Packet(Vec<u8>),
    /// The device reported a lifecycle notification (open, close, start,
    /// stop, get or set report).
    Lifecycle,
    /// Reading from the device failed.
    ReadFailed,
    /// The emulator replied with this message.
    Reply(Vec<u8>),
    /// The emulator's reply queue is closed.
    ReplyQueueClosed,
    /// Every packet of the reply was written.
    Written,
    /// Writing a packet to the device failed.
    WriteFailed,
}

/// What the caller is to do next.
#[derive(Debug, PartialEq, Eq)]
pub enum DriverAction {
    /// Read the next event from the device.
    ReadDevice,
    /// Hand this message to the emulator and wait for its reply.
    Submit(Vec<u8>),
    /// Write these packets to the device, in order.
    WritePackets(Vec<Vec<u8>>),
    /// End the loop.
    Stop(StopReason),
}

pub ghost enum EventView {
    Packet(Seq<u8>),
    Lifecycle,
    ReadFailed,
    Reply(Seq<u8>),
    ReplyQueueClosed,
    Written,
    WriteFailed,
}

pub ghost enum ActionView {
    ReadDevice,
    Submit(Seq<u8>),
    WritePackets(Seq<Seq<u8>>),
    Stop(StopReason),
}

impl View for DriverEvent {
    type V = EventView;

    open spec fn view(&self) -> EventView {
        match self {
            DriverEvent::Packet(p) => EventView::Packet(p@),
            DriverEvent::Lifecycle => EventView::Lifecycle,
            DriverEvent::ReadFailed => EventView::ReadFailed,
            DriverEvent::Reply(m) => EventView::Reply(m@),
            DriverEvent::ReplyQueueClosed => EventView::ReplyQueueClosed,
            DriverEvent::Written => EventView::Written,
            DriverEvent::WriteFailed => EventView::WriteFailed,
        }
    }
}

impl View for DriverAction {
    type V = ActionView;

    open spec fn view(&self) -> ActionView {
        match self {
            DriverAction::ReadDevice => ActionView::ReadDevice,
            DriverAction::Submit(m) => ActionView::Submit(m@),
            DriverAction::WritePackets(ps) => ActionView::WritePackets(
                ps@.map_values(|p: Vec<u8>| p@),
            ),
            DriverAction::Stop(r) => ActionView::Stop(*r),
        }
    }
}

/// The phase of the loop and the state of the current assembly.
pub ghost struct DriverState {
    pub phase: Phase,
    pub decoder: DecoderState,
}

/// The state in which the loop starts.
pub open spec fn initial_state() -> DriverState {
    DriverState { phase: Phase::AwaitingHostMessage, decoder: fresh_state() }
}

/// One event handled in state `s`: the next state and the action to perform.
pub open spec fn driver_step(s: DriverState, e: EventView) -> (DriverState, ActionView) {
    let stop = |r: StopReason|
        (DriverState { phase: Phase::Stopped(r), decoder: fresh_state() }, ActionView::Stop(r));
    match s.phase {
        Phase::Stopped(r) => (s, ActionView::Stop(r)),
        Phase::AwaitingHostMessage => match e {
            EventView::Packet(p) => {
                let (d, o) = feed_spec(s.decoder, p);
                match o {
                    FeedView::Complete(m) => (
                        DriverState { phase: Phase::AwaitingEmulatorReply, decoder: d },
                        ActionView::Submit(m),
                    ),
                    _ => (DriverState { phase: s.phase, decoder: d }, ActionView::ReadDevice),
                }
            },
            EventView::Lifecycle => (initial_state(), ActionView::ReadDevice),
            EventView::ReadFailed => stop(StopReason::DeviceReadFailed),
            _ => stop(StopReason::UnexpectedEvent),
        },
        Phase::AwaitingEmulatorReply => match e {
            EventView::Reply(m) => if m.len() <= MAX_FRAMED_LEN {
                (
                    DriverState { phase: Phase::WritingReply, decoder: s.decoder },
                    ActionView::WritePackets(encoding(m)),
                )
            } else {
                stop(StopReason::ReplyTooLong)
            },
            EventView::ReplyQueueClosed => stop(StopReason::EmulatorGone),
            _ => stop(StopReason::UnexpectedEvent),
        },
        Phase::WritingReply => match e {
            EventView::Written => (initial_state(), ActionView::ReadDevice),
            EventView::WriteFailed => stop(StopReason::DeviceWriteFailed),
            _ => stop(StopReason::UnexpectedEvent),
        },
    }
}

/// The driver loop's state machine.
pub struct Driver {
    phase: Phase,
    decoder: ApduDecoder,
}

impl View for Driver {
    type V = DriverState;

    closed spec fn view(&self) -> DriverState {
        DriverState { phase: self.phase, decoder: self.decoder@ }
    }
}

impl Driver {
    pub open spec fn wf(&self) -> bool {
        state_wf(self@.decoder)
    }

    /// A loop that waits for the first packet of a message.
    pub fn new() -> (d: Driver)
        ensures
            d@ == initial_state(),
            d.wf(),
    {
        Driver { phase: Phase::AwaitingHostMessage, decoder: ApduDecoder::new() }
    }

    /// The phase the loop is in.
    pub fn phase(&self) -> (p: Phase)
        ensures
            p == self@.phase,
    {
        self.phase
    }

    fn stop(&mut self, reason: StopReason) -> (a: DriverAction)
        ensures
            final(self)@ == (DriverState { phase: Phase::Stopped(reason), decoder: fresh_state() }),
            final(self).wf(),
            a@ == ActionView::Stop(reason),
    {
        self.phase = Phase::Stopped(reason);
        self.decoder = ApduDecoder::new();
        DriverAction::Stop(reason)
    }

    /// Handles one event and says what to do next.
    pub fn step(&mut self, event: DriverEvent) -> (a: DriverAction)
        requires
            old(self).wf(),
        ensures
            final(self).wf(),
            (final(self)@, a@) == driver_step(old(self)@, event@),
    {
        match self.phase {
            Phase::Stopped(r) => DriverAction::Stop(r),
            Phase::AwaitingHostMessage => match event {
                DriverEvent::Packet(p) => match self.decoder.feed(p.as_slice()) {
                    Feed::Complete(m) => {
                        self.phase = Phase::AwaitingEmulatorReply;
                        DriverAction::Submit(m)
                    },
                    _ => DriverAction::ReadDevice,
                },
                DriverEvent::Lifecycle => {
                    self.decoder = ApduDecoder::new();
                    DriverAction::ReadDevice
                },
                DriverEvent::ReadFailed => self.stop(StopReason::DeviceReadFailed),
                _ => self.stop(StopReason::UnexpectedEvent),
            },
            Phase::AwaitingEmulatorReply => match event {
                DriverEvent::Reply(m) => {
                    if m.len() <= MAX_FRAMED_LEN {
                        self.phase = Phase::WritingReply;
                        let packets = encode_apdu(m.as_slice());
                        proof {
                            assert(packets@.map_values(|p: Vec<u8>| p@) =~= encoding(m@));
                        }
                        DriverAction::WritePackets(packets)
                    } else {
                        self.stop(StopReason::ReplyTooLong)
                    }
                },
                DriverEvent::ReplyQueueClosed => self.stop(StopReason::EmulatorGone),
                _ => self.stop(StopReason::UnexpectedEvent),
            },
            Phase::WritingReply => match event {
                DriverEvent::Written => {
                    self.phase = Phase::AwaitingHostMessage;
                    self.decoder = ApduDecoder::new();
                    DriverAction::ReadDevice
                },
                DriverEvent::WriteFailed => self.stop(StopReason::DeviceWriteFailed),
                _ => self.stop(StopReason::UnexpectedEvent),
            },
        }
    }
}


/// The state reached and the actions chosen when `evs` are handled in order
/// from state `s`.
pub open spec fn run(s: DriverState, evs: Seq<EventView>) -> (DriverState, Seq<ActionView>)
    decreases evs.len(),
{
    if evs.len() == 0 {
        (s, Seq::empty())
    } else {
        let (s1, acts) = run(s, evs.drop_last());
        let (s2, a) = driver_step(s1, evs.last());
        (s2, acts.push(a))
    }
}

/// Messages handed to the emulator minus replies written back.
pub open spec fn in_flight(acts: Seq<ActionView>) -> int
    decreases acts.len(),
{
    if acts.len() == 0 {
        0
    } else {
        in_flight(acts.drop_last()) + match acts.last() {
            ActionView::Submit(_) => 1int,
            ActionView::WritePackets(_) => -1int,
            _ => 0int,
        }
    }
}

/// After every prefix of `acts`, at most one message awaits its reply and no
/// reply is written that was not asked for: submissions and written replies
/// alternate, starting with a submission.
pub open spec fn one_in_flight(acts: Seq<ActionView>) -> bool
    decreases acts.len(),
{
    acts.len() == 0 || (one_in_flight(acts.drop_last()) && 0 <= in_flight(acts) <= 1)
}

/// How many messages await their reply in each phase.
pub open spec fn phase_in_flight(phase: Phase, n: int) -> bool {
    match phase {
        Phase::AwaitingHostMessage => n == 0,
        Phase::AwaitingEmulatorReply => n == 1,
        Phase::WritingReply => n == 0,
        Phase::Stopped(_) => 0 <= n <= 1,
    }
}

/// Whatever the events, the loop keeps one message in flight at a time: a new
/// message is handed to the emulator only after the reply to the previous one
/// was written back, so replies come back in the order the messages went out.
pub proof fn lemma_one_in_flight(evs: Seq<EventView>)
    ensures
        one_in_flight(run(initial_state(), evs).1),
        phase_in_flight(run(initial_state(), evs).0.phase, in_flight(run(initial_state(), evs).1)),
    decreases evs.len(),
{
    if evs.len() > 0 {
        lemma_one_in_flight(evs.drop_last());
        let (s1, acts) = run(initial_state(), evs.drop_last());
        let (s2, a) = driver_step(s1, evs.last());
        assert(acts.push(a).drop_last() =~= acts);
        assert(acts.push(a).last() == a);
    }
}

} // verus!
