//! The per-connection state machine: handshake, then relay, then close.
//! The caller performs each action (transport writes, sends to the room,
//! subscribing to the broadcast bus) and reports what happened as the next
//! input.

use vstd::prelude::*;
use vstd::string::StringExecFns;
use crate::message::{delivered_to, said_line, Evt, EvtView, Msg, MsgView};
use crate::room::{ids_unique, room_step, text_reaches_everyone_but_sender, Members};
use crate::name::{name_ok, trim_of, trimmed, valid_name};

verus! {

/// The banner every client receives on connecting.
pub open spec fn welcome_line() -> Seq<char> {
    "Welcome. Please enter the name you'd like to use.\n"@
}

/// The line a client with an invalid name receives before the close.
pub open spec fn reject_line() -> Seq<char> {
    "Your name must consist of one or more alphanumeric characters.\n"@
}

/// The warning a member receives when its subscription lost messages.
pub open spec fn lag_line() -> Seq<char> {
    "Your connection has lagged and dropped messages.\n"@
}

/// The banner sent to a client as soon as it connects.
pub fn welcome_text() -> (r: String)
    ensures
        r@ == welcome_line(),
{
    String::from_str("Welcome. Please enter the name you'd like to use.\n")
}

/// The line sent to a client whose proposed name is invalid.
pub fn reject_text() -> (r: String)
    ensures
        r@ == reject_line(),
{
    String::from_str("Your name must consist of one or more alphanumeric characters.\n")
}

/// The warning sent to a client whose subscription lost messages.
pub fn lag_text() -> (r: String)
    ensures
        r@ == lag_line(),
{
    String::from_str("Your connection has lagged and dropped messages.\n")
}

/// Where a session is in its life.
#[derive(Clone, Copy, Debug, PartialEq, Eq, Structural)]
pub enum Phase {
    /// Waiting for the client's proposed name.
    Handshaking,
    /// A member of the room, relaying lines both ways.
    Active,
    /// Finished; every further input is ignored.
    Closing,
}

/// One connection's state.
#[derive(Clone, Copy, Debug, PartialEq, Eq, Structural)]
pub struct Session {
    pub id: usize,
    pub phase: Phase,
}

/// What an input is, as mathematics.
pub enum InputView {
    Line(Seq<char>),
    ReadEnded,
    Delivered(MsgView),
    Lagged,
    BusClosed,
    WriteFailed,
}

/// What happened to a session.
pub enum Input {
    /// A complete line from the transport, terminator included.
    Line(String),
    /// The transport reached its end, or reading from it failed.
    ReadEnded,
    /// A message arrived on the broadcast subscription.
    Delivered(Msg),
    /// The subscription fell behind and lost messages.
    Lagged,
    /// The broadcast bus is closed for good.
    BusClosed,
    /// Writing to the transport failed.
    WriteFailed,
}

impl View for Input {
    type V = InputView;

    open spec fn view(&self) -> InputView {
        match self {
            Input::Line(l) => InputView::Line(l@),
            Input::ReadEnded => InputView::ReadEnded,
            Input::Delivered(m) => InputView::Delivered(m@),
            Input::Lagged => InputView::Lagged,
            Input::BusClosed => InputView::BusClosed,
            Input::WriteFailed => InputView::WriteFailed,
        }
    }
}

/// What an action is, as mathematics.
pub enum ActionView {
    Ignore,
    Write(Seq<char>),
    Join(EvtView),
    Forward(EvtView),
    Refuse(Seq<char>),
    Close(Option<EvtView>),
}

/// What the caller must do next for a session.
#[derive(Debug)]
pub enum Action {
    /// Nothing.
    Ignore,
    /// Write this line to the transport.
    Write(String),
    /// Subscribe to the broadcast bus, drop whatever the fresh subscription
    /// already holds, then send this arrival to the room.
    Join(Evt),
    /// Send this event to the room.
    Forward(Evt),
    /// Write this rejection line, then shut the transport down; the room is
    /// never told.
    Refuse(String),
    /// Send this departure to the room, if there is one, then shut the
    /// transport down.
    Close(Option<Evt>),
}

impl View for Action {
    type V = ActionView;

    open spec fn view(&self) -> ActionView {
        match self {
            Action::Ignore => ActionView::Ignore,
            Action::Write(t) => ActionView::Write(t@),
            Action::Join(e) => ActionView::Join(e@),
            Action::Forward(e) => ActionView::Forward(e@),
            Action::Refuse(t) => ActionView::Refuse(t@),
            Action::Close(e) => ActionView::Close(
                match e {
                    Some(e) => Some(e@),
                    None => None,
                },
            ),
        }
    }
}

/// Session `s` moved to phase `p`.
pub open spec fn with_phase(s: Session, p: Phase) -> Session {
    Session { id: s.id, phase: p }
}

/// A session in handshake that proposes the (already trimmed) `name`.
pub open spec fn claim(s: Session, name: Seq<char>) -> (Session, ActionView) {
    if valid_name(name) {
        (with_phase(s, Phase::Active), ActionView::Join(EvtView::Arrive(s.id, name)))
    } else {
        (with_phase(s, Phase::Closing), ActionView::Refuse(reject_line()))
    }
}

/// The next state of session `s` and what to do, on input `i`.
pub open spec fn session_next(s: Session, i: InputView) -> (Session, ActionView) {
    match s.phase {
        Phase::Closing => (s, ActionView::Ignore),
        Phase::Handshaking => match i {
            InputView::Line(l) => claim(s, trim_of(l)),
            InputView::Delivered(_) => (s, ActionView::Ignore),
            InputView::Lagged => (s, ActionView::Ignore),
            _ => (with_phase(s, Phase::Closing), ActionView::Close(None)),
        },
        Phase::Active => match i {
            InputView::Line(l) => (s, ActionView::Forward(EvtView::Text(s.id, l))),
            InputView::Delivered(m) => match delivered_to(m, s.id) {
                Some(t) => (s, ActionView::Write(t)),
                None => (s, ActionView::Ignore),
            },
            InputView::Lagged => (s, ActionView::Write(lag_line())),
            _ => (with_phase(s, Phase::Closing), ActionView::Close(Some(EvtView::Leave(s.id)))),
        },
    }
}

impl Session {
    /// A fresh session for connection `id`, waiting for a name.
    pub fn new(id: usize) -> (r: Session)
        ensures
            r == (Session { id, phase: Phase::Handshaking }),
    {
        Session { id, phase: Phase::Handshaking }
    }

    /// Handle the proposed display name `name`, already trimmed.
    pub fn claim_name(&mut self, name: String) -> (r: Action)
        requires
            old(self).phase == Phase::Handshaking,
        ensures
            (*final(self), r@) == claim(*old(self), name@),
    {
        if name_ok(name.as_str()) {
            self.phase = Phase::Active;
            Action::Join(Evt::Arrive { id: self.id, name })
        } else {
            self.phase = Phase::Closing;
            Action::Refuse(reject_text())
        }
    }

    /// Advance the session on one input.
    pub fn step(&mut self, input: Input) -> (r: Action)
        ensures
            (*final(self), r@) == session_next(*old(self), input@),
    {
        match self.phase {
            Phase::Closing => Action::Ignore,
            Phase::Handshaking => match input {
                Input::Line(l) => self.claim_name(trimmed(l.as_str())),
                Input::Delivered(_) => Action::Ignore,
                Input::Lagged => Action::Ignore,
                _ => {
                    self.phase = Phase::Closing;
                    Action::Close(None)
                },
            },
            Phase::Active => match input {
                Input::Line(l) => Action::Forward(Evt::Text { id: self.id, text: l }),
                Input::Delivered(m) => match m.text_for(self.id) {
                    Some(t) => Action::Write(t),
                    None => Action::Ignore,
                },
                Input::Lagged => Action::Write(lag_text()),
                _ => {
                    self.phase = Phase::Closing;
                    Action::Close(Some(Evt::Leave(self.id)))
                },
            },
        }
    }
}

/// A first line whose trimmed text is not a valid name is refused: the
/// session closes without ever telling the room, and nothing it receives
/// afterwards makes it act again.
pub proof fn invalid_name_is_refused(s: Session, line: Seq<char>)
    requires
        s.phase == Phase::Handshaking,
        !valid_name(trim_of(line)),
    ensures
        ({
            let (next, act) = session_next(s, InputView::Line(line));
            &&& act == ActionView::Refuse(reject_line())
            &&& next.phase == Phase::Closing
            &&& forall|i: InputView| #[trigger] session_next(next, i) == (next, ActionView::Ignore)
        }),
{
}

/// A member whose subscription lost messages is warned and stays a member.
pub proof fn lag_warns_and_continues(s: Session)
    requires
        s.phase == Phase::Active,
    ensures
        session_next(s, InputView::Lagged) == (s, ActionView::Write(lag_line())),
{
}

/// A line of text from member `k` is written, exactly as `[name] text`, by
/// the session of every other member, and by no session of the sender.
pub proof fn text_is_written_by_every_other_member(
    ms: Members,
    k: int,
    text: Seq<char>,
    j: int,
)
    requires
        ids_unique(ms),
        0 <= k < ms.len(),
        0 <= j < ms.len(),
    ensures
        ({
            let out = room_step(ms, EvtView::Text(ms[k].0, text))->Some_0.1;
            let s = Session { id: ms[j].0, phase: Phase::Active };
            &&& out.len() == 1
            &&& session_next(s, InputView::Delivered(out[0])) == (
                s,
                if j != k {
                    ActionView::Write(said_line(ms[k].1, text))
                } else {
                    ActionView::Ignore
                },
            )
        }),
{
    text_reaches_everyone_but_sender(ms, k, text);
    if j != k {
        assert(ms[j].0 != ms[k].0);
    }
}

} // verus!
