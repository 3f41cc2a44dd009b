//! Session controller: the explicit state machine that drives one streaming
//! session through `Idle -> HeaderSent -> Streaming -> Closing -> Idle`,
//! deciding for every observed event what to do next, so that every exit
//! path's obligation to release the exclusive capture handle is a checked
//! property of the transition table rather than implicit control flow.
//! Also the throughput meter that reports frames per second once per
//! measurement window.

use vstd::prelude::*;
use vstd::arithmetic::div_mod::lemma_div_by_multiple;
use vstd::arithmetic::div_mod::lemma_div_is_ordered_by_denominator;

verus! {

/// Lifecycle of one streaming session.
#[derive(Clone, Copy, PartialEq, Eq, Structural, Debug)]
pub enum SessionState {
    Idle,
    HeaderSent,
    Streaming,
    Closing,
}

/// What the driving loop observed since the last step.
#[derive(Clone, Copy, PartialEq, Eq, Structural, Debug)]
pub enum SessionEvent {
    /// A client asked for the stream.
    StreamRequest,
    /// The pending write (header or frame part) was fully transmitted.
    WriteOk,
    /// A write reported an error or zero progress: fatal to the session.
    WriteFailed,
    /// Beginning a capture burst failed in the hardware.
    CaptureError,
    /// The current burst drained; the capture was stopped and restarted.
    BurstEnded,
    /// The burst drained without producing any data: logged, not fatal.
    SlowConsumer,
    /// The peer went away.
    PeerDisconnect,
    /// The released handle arrived back with its owner.
    HandleReturned,
}

/// What the driving loop must do after a step.
#[derive(Clone, Copy, PartialEq, Eq, Structural, Debug)]
pub enum SessionAction {
    /// Acquire the capture handle and image buffer, send the response header.
    SendHeader,
    /// Request the next burst from the capture hardware.
    BeginBurst,
    /// Keep pumping the current burst.
    ContinueStreaming,
    /// Log the throughput warning, then keep going.
    LogSlowConsumer,
    /// Stop the transfer and hand the capture handle back, whatever caused
    /// the close.
    ReleaseHandle,
    /// Nothing: the event does not apply to the state.
    Ignore,
}

/// The transition table. Fatal conditions (write failure, capture error,
/// disconnect) lead to `Closing` and always carry the one obligatory
/// action: release the handle.
pub open spec fn next_step(s: SessionState, e: SessionEvent) -> (SessionState, SessionAction) {
    match (s, e) {
        (SessionState::Idle, SessionEvent::StreamRequest) => (
            SessionState::HeaderSent,
            SessionAction::SendHeader,
        ),
        (SessionState::HeaderSent, SessionEvent::WriteOk) => (
            SessionState::Streaming,
            SessionAction::BeginBurst,
        ),
        (SessionState::HeaderSent, SessionEvent::WriteFailed) => (
            SessionState::Closing,
            SessionAction::ReleaseHandle,
        ),
        (SessionState::HeaderSent, SessionEvent::PeerDisconnect) => (
            SessionState::Closing,
            SessionAction::ReleaseHandle,
        ),
        (SessionState::Streaming, SessionEvent::WriteOk) => (
            SessionState::Streaming,
            SessionAction::ContinueStreaming,
        ),
        (SessionState::Streaming, SessionEvent::WriteFailed) => (
            SessionState::Closing,
            SessionAction::ReleaseHandle,
        ),
        (SessionState::Streaming, SessionEvent::CaptureError) => (
            SessionState::Closing,
            SessionAction::ReleaseHandle,
        ),
        (SessionState::Streaming, SessionEvent::PeerDisconnect) => (
            SessionState::Closing,
            SessionAction::ReleaseHandle,
        ),
        (SessionState::Streaming, SessionEvent::BurstEnded) => (
            SessionState::Streaming,
            SessionAction::BeginBurst,
        ),
        (SessionState::Streaming, SessionEvent::SlowConsumer) => (
            SessionState::Streaming,
            SessionAction::LogSlowConsumer,
        ),
        (SessionState::Closing, SessionEvent::HandleReturned) => (
            SessionState::Idle,
            SessionAction::Ignore,
        ),
        _ => (s, SessionAction::Ignore),
    }
}

/// The session holds the exclusive capture handle exactly in the two
/// active states; in `Closing` it has already been released.
pub open spec fn holds_handle(s: SessionState) -> bool {
    s == SessionState::HeaderSent || s == SessionState::Streaming
}

/// One streaming session's control state. The driving loop performs I/O,
/// observes outcomes, and feeds them back as events.
pub struct SessionMachine {
    pub state: SessionState,
}

impl SessionMachine {
    /// A fresh controller, not yet serving anyone.
    pub fn new() -> (r: SessionMachine)
        ensures
            r.state == SessionState::Idle,
    {
        SessionMachine { state: SessionState::Idle }
    }

    /// Advance on one observed event; the returned action is what the
    /// driving loop must perform next. Exactly the transition table.
    pub fn step(&mut self, e: SessionEvent) -> (a: SessionAction)
        ensures
            (final(self).state, a) == next_step(old(self).state, e),
    {
        let (s2, a) = match (self.state, e) {
            (SessionState::Idle, SessionEvent::StreamRequest) => (
                SessionState::HeaderSent,
                SessionAction::SendHeader,
            ),
            (SessionState::HeaderSent, SessionEvent::WriteOk) => (
                SessionState::Streaming,
                SessionAction::BeginBurst,
            ),
            (SessionState::HeaderSent, SessionEvent::WriteFailed) => (
                SessionState::Closing,
                SessionAction::ReleaseHandle,
            ),
            (SessionState::HeaderSent, SessionEvent::PeerDisconnect) => (
                SessionState::Closing,
                SessionAction::ReleaseHandle,
            ),
            (SessionState::Streaming, SessionEvent::WriteOk) => (
                SessionState::Streaming,
                SessionAction::ContinueStreaming,
            ),
            (SessionState::Streaming, SessionEvent::WriteFailed) => (
                SessionState::Closing,
                SessionAction::ReleaseHandle,
            ),
            (SessionState::Streaming, SessionEvent::CaptureError) => (
                SessionState::Closing,
                SessionAction::ReleaseHandle,
            ),
            (SessionState::Streaming, SessionEvent::PeerDisconnect) => (
                SessionState::Closing,
                SessionAction::ReleaseHandle,
            ),
            (SessionState::Streaming, SessionEvent::BurstEnded) => (
                SessionState::Streaming,
                SessionAction::BeginBurst,
            ),
            (SessionState::Streaming, SessionEvent::SlowConsumer) => (
                SessionState::Streaming,
                SessionAction::LogSlowConsumer,
            ),
            (SessionState::Closing, SessionEvent::HandleReturned) => (
                SessionState::Idle,
                SessionAction::Ignore,
            ),
            (s, _) => (s, SessionAction::Ignore),
        };
        self.state = s2;
        a
    }
}

/// The state reached after a run of events.
pub open spec fn run(s: SessionState, events: Seq<SessionEvent>) -> SessionState
    decreases events.len(),
{
    if events.len() == 0 {
        s
    } else {
        run(next_step(s, events[0]).0, events.drop_first())
    }
}

/// How many steps of a run acquire the handle (the `SendHeader` action).
pub open spec fn count_acquires(s: SessionState, events: Seq<SessionEvent>) -> nat
    decreases events.len(),
{
    if events.len() == 0 {
        0
    } else {
        (if next_step(s, events[0]).1 == SessionAction::SendHeader {
            1nat
        } else {
            0nat
        }) + count_acquires(next_step(s, events[0]).0, events.drop_first())
    }
}

/// How many steps of a run release the handle.
pub open spec fn count_releases(s: SessionState, events: Seq<SessionEvent>) -> nat
    decreases events.len(),
{
    if events.len() == 0 {
        0
    } else {
        (if next_step(s, events[0]).1 == SessionAction::ReleaseHandle {
            1nat
        } else {
            0nat
        }) + count_releases(next_step(s, events[0]).0, events.drop_first())
    }
}

/// Law: over any run of events, the handle is released exactly once per
/// acquisition — the only imbalance is the single acquisition still open
/// when the run ends in a holding state. In particular a session that has
/// returned to `Idle` (or reached `Closing`) has released the handle
/// exactly as many times as it acquired it.
pub proof fn law_handle_balance(s: SessionState, events: Seq<SessionEvent>)
    ensures
        count_acquires(s, events) + (if holds_handle(s) {
            1nat
        } else {
            0nat
        }) == count_releases(s, events) + (if holds_handle(run(s, events)) {
            1nat
        } else {
            0nat
        }),
    decreases events.len(),
{
    if events.len() > 0 {
        law_handle_balance(next_step(s, events[0]).0, events.drop_first());
    }
}

/// Law: a write failure while streaming closes the session at once, with
/// the handle-release action and nothing else.
pub proof fn law_write_failure_closes()
    ensures
        next_step(SessionState::Streaming, SessionEvent::WriteFailed) == (
            SessionState::Closing,
            SessionAction::ReleaseHandle,
        ),
{
}

/// Law: once closing, no event can make the session transmit or capture
/// again — the only way out is back to `Idle`, which demands a fresh
/// request to serve anything further.
pub proof fn law_closing_sends_nothing(e: SessionEvent)
    ensures
        next_step(SessionState::Closing, e).1 != SessionAction::SendHeader,
        next_step(SessionState::Closing, e).1 != SessionAction::BeginBurst,
        next_step(SessionState::Closing, e).1 != SessionAction::ContinueStreaming,
        next_step(SessionState::Closing, e).0 == SessionState::Closing || next_step(
            SessionState::Closing,
            e,
        ).0 == SessionState::Idle,
{
}

/// Frames per second over a window, by integer division.
pub open spec fn rate_of(frames: nat, elapsed_ms: nat) -> nat
    recommends
        elapsed_ms >= 1,
{
    frames * 1000 / elapsed_ms
}

/// Observability-only throughput accounting: each time a burst completes,
/// once at least a second has elapsed since the window began, report the
/// frame rate and start a new window.
pub struct ThroughputMeter {
    pub window_start_ms: u64,
    pub frames_at_start: u64,
}

impl ThroughputMeter {
    /// Start measuring at `now_ms` with the counter already at
    /// `frame_count`.
    pub fn new(now_ms: u64, frame_count: u64) -> (r: ThroughputMeter)
        ensures
            r.window_start_ms == now_ms,
            r.frames_at_start == frame_count,
    {
        ThroughputMeter { window_start_ms: now_ms, frames_at_start: frame_count }
    }

    /// Called when a burst completes, with the current time and the
    /// assembler's monotone frame counter. Reports the rate and resets the
    /// window once at least one second has passed; otherwise changes
    /// nothing.
    pub fn on_burst_complete(&mut self, now_ms: u64, frame_count: u64) -> (rate: Option<u64>)
        requires
            old(self).window_start_ms <= now_ms,
            old(self).frames_at_start <= frame_count,
        ensures
            now_ms - old(self).window_start_ms >= 1000 ==> {
                &&& rate == Some(
                    rate_of(
                        (frame_count - old(self).frames_at_start) as nat,
                        (now_ms - old(self).window_start_ms) as nat,
                    ) as u64,
                )
                &&& final(self).window_start_ms == now_ms
                &&& final(self).frames_at_start == frame_count
            },
            now_ms - old(self).window_start_ms < 1000 ==> {
                &&& rate is None
                &&& *final(self) == *old(self)
            },
    {
        let elapsed = now_ms - self.window_start_ms;
        if elapsed >= 1000 {
            let frames = frame_count - self.frames_at_start;
            let wide: u128 = frames as u128 * 1000u128 / elapsed as u128;
            proof {
                lemma_div_is_ordered_by_denominator(frames as int * 1000, 1000, elapsed as int);
                lemma_div_by_multiple(frames as int, 1000);
                assert(frames as int * 1000 / 1000 == frames as int);
                assert(wide <= frames);
            }
            let rate = wide as u64;
            self.window_start_ms = now_ms;
            self.frames_at_start = frame_count;
            Some(rate)
        } else {
            None
        }
    }
}

} // verus!
