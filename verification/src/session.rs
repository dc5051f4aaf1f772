//! The display firmware's main loop as a state machine: look the server up, connect, ask
//! for the frame, receive it, draw it, pause, and start over. A refused connection is
//! retried after a short pause; a drawn frame stays up for a minute.
use vstd::prelude::*;

verus! {

/// The address of the picture server on the local network.
pub const SERVER_IP: [u8; 4] = [192u8, 168u8, 178u8, 105u8];

/// The port of the picture server.
pub const SERVER_PORT: u16 = 8080;

/// How long a connection may stay silent, in seconds.
pub const CONNECT_TIMEOUT_SECS: u64 = 10;

/// The pause before a refused connection is tried again, in milliseconds.
pub const RETRY_PAUSE_MS: u64 = 5000;

/// The pause between two drawn frames, in milliseconds.
pub const FRAME_PAUSE_MS: u64 = 60000;

/// What the loop waits for.
#[derive(Clone, Copy, PartialEq, Eq, Structural, Debug)]
pub enum Phase {
    Resolving,
    Connecting,
    Sending,
    Receiving,
    Drawing,
    Pausing,
}

/// What happened outside.
#[derive(Clone, Copy, PartialEq, Eq, Structural, Debug)]
pub enum Event {
    /// The name lookup finished (its answer is only reported).
    Resolved,
    /// The connection to the server is open.
    Connected,
    /// The server could not be reached.
    ConnectFailed,
    /// The request has been written.
    Sent,
    /// The transfer of the frame ended.
    Received,
    /// The frame is on the display.
    Drawn,
    /// The pause is over.
    Slept,
}

/// What the firmware is to do next.
#[derive(Clone, Copy, PartialEq, Eq, Debug)]
pub enum Action {
    /// Look the server's name up.
    Resolve,
    /// Open a TCP connection to `ip:port` with the given timeout.
    Connect { ip: [u8; 4], port: u16, timeout_secs: u64 },
    /// Write the frame request (`frame_request`).
    Send,
    /// Read the response into the frame (with a fresh `Receiver`).
    Receive,
    /// Show the frame on the display.
    Draw,
    /// Wait for the given number of milliseconds.
    Sleep { ms: u64 },
}

/// The loop's state.
#[derive(Clone, Copy, PartialEq, Eq, Structural, Debug)]
pub struct Session {
    pub phase: Phase,
}

/// The phase and action that follow an event, or `None` when the event is not the one the
/// phase waits for.
pub open spec fn session_step(phase: Phase, ev: Event) -> Option<(Phase, Action)> {
    match (phase, ev) {
        (Phase::Resolving, Event::Resolved) => Some(
            (
                Phase::Connecting,
                Action::Connect {
                    ip: SERVER_IP,
                    port: SERVER_PORT,
                    timeout_secs: CONNECT_TIMEOUT_SECS,
                },
            ),
        ),
        (Phase::Connecting, Event::ConnectFailed) => Some(
            (Phase::Pausing, Action::Sleep { ms: RETRY_PAUSE_MS }),
        ),
        (Phase::Connecting, Event::Connected) => Some((Phase::Sending, Action::Send)),
        (Phase::Sending, Event::Sent) => Some((Phase::Receiving, Action::Receive)),
        (Phase::Receiving, Event::Received) => Some((Phase::Drawing, Action::Draw)),
        (Phase::Drawing, Event::Drawn) => Some(
            (Phase::Pausing, Action::Sleep { ms: FRAME_PAUSE_MS }),
        ),
        (Phase::Pausing, Event::Slept) => Some((Phase::Resolving, Action::Resolve)),
        _ => None,
    }
}

/// The request the firmware sends for a frame: `GET / HTTP/1.0\r\n\r\n`.
pub open spec fn frame_request_bytes() -> Seq<u8> {
    seq![
        71u8, 69u8, 84u8, 32u8, 47u8, 32u8, 72u8, 84u8, 84u8, 80u8, 47u8, 49u8, 46u8, 48u8,
        13u8, 10u8, 13u8, 10u8,
    ]
}

/// The bytes of the frame request.
pub fn frame_request() -> (req: Vec<u8>)
    ensures
        req@ == frame_request_bytes(),
{
    let req: Vec<u8> = vec![
        71u8, 69u8, 84u8, 32u8, 47u8, 32u8, 72u8, 84u8, 84u8, 80u8, 47u8, 49u8, 46u8, 48u8,
        13u8, 10u8, 13u8, 10u8,
    ];
    assert(req@ =~= frame_request_bytes());
    req
}

impl Session {
    /// A loop at its start, and its first action: look the server up.
    pub fn start() -> (res: (Session, Action))
        ensures
            res.0.phase == Phase::Resolving,
            res.1 == Action::Resolve,
    {
        (Session { phase: Phase::Resolving }, Action::Resolve)
    }

    /// Takes an event: moves to the next phase and returns the next action, or returns
    /// `None` and stays put when the event is not the one the phase waits for.
    pub fn on_event(&mut self, ev: Event) -> (act: Option<Action>)
        ensures
            match session_step(old(self).phase, ev) {
                Some((p, a)) => final(self).phase == p && act == Some(a),
                None => *final(self) == *old(self) && act is None,
            },
    {
        let next = match (self.phase, ev) {
            (Phase::Resolving, Event::Resolved) => Some(
                (
                    Phase::Connecting,
                    Action::Connect {
                        ip: SERVER_IP,
                        port: SERVER_PORT,
                        timeout_secs: CONNECT_TIMEOUT_SECS,
                    },
                ),
            ),
            (Phase::Connecting, Event::ConnectFailed) => Some(
                (Phase::Pausing, Action::Sleep { ms: RETRY_PAUSE_MS }),
            ),
            (Phase::Connecting, Event::Connected) => Some((Phase::Sending, Action::Send)),
            (Phase::Sending, Event::Sent) => Some((Phase::Receiving, Action::Receive)),
            (Phase::Receiving, Event::Received) => Some((Phase::Drawing, Action::Draw)),
            (Phase::Drawing, Event::Drawn) => Some(
                (Phase::Pausing, Action::Sleep { ms: FRAME_PAUSE_MS }),
            ),
            (Phase::Pausing, Event::Slept) => Some((Phase::Resolving, Action::Resolve)),
            _ => None,
        };
        match next {
            Some((p, a)) => {
                self.phase = p;
                Some(a)
            },
            None => None,
        }
    }
}

/// Every pause ends in a new lookup: whatever the loop did, once it is told to sleep, the
/// only event it takes next is the end of the pause, and that starts the cycle again.
pub proof fn law_pause_restarts_cycle(phase: Phase, ev: Event, ev2: Event)
    requires
        session_step(phase, ev) matches Some((_p, Action::Sleep { ms: _ms })),
    ensures
        ({
            let p2 = session_step(phase, ev).unwrap().0;
            &&& ev2 == Event::Slept ==> session_step(p2, ev2) == Some(
                (Phase::Resolving, Action::Resolve),
            )
            &&& ev2 != Event::Slept ==> session_step(p2, ev2) is None
        }),
{
}

/// The loop only draws after a whole exchange: it draws only on the end of a transfer,
/// receives only after sending, sends only on an open connection, and connects only to the
/// picture server after a lookup. A refused connection pauses for the retry time and
/// never leads to drawing.
pub proof fn law_actions_follow_exchange(phase: Phase, ev: Event)
    requires
        session_step(phase, ev) is Some,
    ensures
        ({
            let (p2, act) = session_step(phase, ev).unwrap();
            &&& act == Action::Draw <==> (phase == Phase::Receiving && ev == Event::Received)
            &&& act == Action::Receive <==> (phase == Phase::Sending && ev == Event::Sent)
            &&& act == Action::Send <==> (phase == Phase::Connecting && ev == Event::Connected)
            &&& (act is Connect) <==> (phase == Phase::Resolving && ev == Event::Resolved)
            &&& act matches Action::Connect { ip, port, timeout_secs } ==> (ip == SERVER_IP
                && port == SERVER_PORT && timeout_secs == CONNECT_TIMEOUT_SECS)
            &&& ev == Event::ConnectFailed ==> act == Action::Sleep { ms: RETRY_PAUSE_MS }
            &&& ev == Event::Drawn ==> act == Action::Sleep { ms: FRAME_PAUSE_MS }
        }),
{
}

/// The event each phase waits for when everything goes well.
pub open spec fn expected_event(phase: Phase) -> Event {
    match phase {
        Phase::Resolving => Event::Resolved,
        Phase::Connecting => Event::Connected,
        Phase::Sending => Event::Sent,
        Phase::Receiving => Event::Received,
        Phase::Drawing => Event::Drawn,
        Phase::Pausing => Event::Slept,
    }
}

/// The phase after `steps` expected events from `phase`.
pub open spec fn run_expected(phase: Phase, steps: nat) -> Phase
    decreases steps,
{
    if steps == 0 {
        phase
    } else {
        run_expected(session_step(phase, expected_event(phase)).unwrap().0, (steps - 1) as nat)
    }
}

/// Every phase takes its expected event, and when every step goes well the loop comes back
/// to the lookup after six events: lookup, connection, request, transfer, drawing, pause.
pub proof fn law_cycle_returns_to_lookup(phase: Phase)
    ensures
        session_step(phase, expected_event(phase)) is Some,
        run_expected(Phase::Resolving, 6) == Phase::Resolving,
        forall|k: nat| 0 < k < 6 ==> run_expected(Phase::Resolving, k) != Phase::Resolving,
{
    reveal_with_fuel(run_expected, 7);
    assert forall|k: nat| 0 < k < 6 implies run_expected(Phase::Resolving, k) != Phase::Resolving by {
        assert(k == 1 || k == 2 || k == 3 || k == 4 || k == 5);
    }
}

} // verus!
