//! The authentication gate and the per-connection session state machine.
//!
//! A session goes `Connecting → Authenticating → Relaying → Closed`. Its
//! first frame is the password challenge: if it decodes under the shared key
//! the session is admitted to the registry and answered with a welcome
//! frame; otherwise it is answered with a fixed rejection notice and closed,
//! and it never enters the registry. There is exactly one attempt.
//!
//! The state machine decides; the caller performs the returned action
//! (writing a frame, handing a message to the relay, closing the socket).
use crate::cipher::{random_iv, RandomSourceFailed, IV_LEN, KEY_LEN};
use crate::codec::{
    decode, decode_spec, decodes_to, encode_with_iv, frame_of, zero_fill, DecodeError, MSG_SIZE,
};
use crate::message::{Message, MessageView, USERNAME_LENGTH};
use crate::registry::{has_addr, registered, without, ConnectionRegistry, EntryView};
use vstd::prelude::*;

verus! {

/// Longest peer address text that a session accepts.
pub const MAX_ADDR_LEN: usize = 64;

/// The text that follows the peer address in a welcome message:
/// a newline and "Successfully authenticated".
pub open spec fn welcome_suffix() -> Seq<u8> {
    seq![
        10u8, 83, 117, 99, 99, 101, 115, 115, 102, 117, 108, 108, 121, 32,
        97, 117, 116, 104, 101, 110, 116, 105, 99, 97, 116, 101, 100,
    ]
}

/// The notice that a rejected peer receives, unencrypted:
/// "from server :", a newline, a tab, and
/// "Incorect password, please try again".
pub open spec fn rejection_notice() -> Seq<u8> {
    seq![
        102u8, 114, 111, 109, 32, 115, 101, 114, 118, 101, 114, 32, 58, 10,
        9, 73, 110, 99, 111, 114, 101, 99, 116, 32, 112, 97, 115, 115,
        119, 111, 114, 100, 44, 32, 112, 108, 101, 97, 115, 101, 32, 116,
        114, 121, 32, 97, 103, 97, 105, 110,
    ]
}

/// The rejection frame: the notice, zero-filled to the frame length.
pub open spec fn rejection_frame() -> Seq<u8> {
    rejection_notice() + zero_fill((MSG_SIZE - rejection_notice().len()) as nat)
}

/// A username cut to at most `USERNAME_LENGTH` bytes.
pub open spec fn bounded_username(u: Seq<u8>) -> Seq<u8> {
    if u.len() <= USERNAME_LENGTH {
        u
    } else {
        u.subrange(0, USERNAME_LENGTH as int)
    }
}

/// The welcome message for a peer of address `addr` that authenticated as
/// `username`.
pub open spec fn welcome_message(addr: Seq<u8>, username: Seq<u8>) -> MessageView {
    MessageView { username: bounded_username(username), data: addr + welcome_suffix() }
}

/// The outcome of a password challenge.
pub enum AuthOutcome {
    /// The frame decoded: the username to record and the welcome frame.
    Authenticated { username: Vec<u8>, welcome: Vec<u8> },
    /// The frame did not decode: why, and the rejection frame.
    Rejected { reason: DecodeError, notice: Vec<u8> },
}

fn welcome_suffix_bytes() -> (r: Vec<u8>)
    ensures
        r@ == welcome_suffix(),
{
    let r = vec![
        10u8, 83, 117, 99, 99, 101, 115, 115, 102, 117, 108, 108, 121, 32,
        97, 117, 116, 104, 101, 110, 116, 105, 99, 97, 116, 101, 100,
    ];
    assert(r@ =~= welcome_suffix());
    r
}

/// The rejection frame.
pub fn rejection_frame_bytes() -> (r: Vec<u8>)
    ensures
        r@ == rejection_frame(),
        r@.len() == MSG_SIZE,
{
    let mut r = vec![
        102u8, 114, 111, 109, 32, 115, 101, 114, 118, 101, 114, 32, 58, 10,
        9, 73, 110, 99, 111, 114, 101, 99, 116, 32, 112, 97, 115, 115,
        119, 111, 114, 100, 44, 32, 112, 108, 101, 97, 115, 101, 32, 116,
        114, 121, 32, 97, 103, 97, 105, 110,
    ];
    let ghost n = rejection_notice();
    assert(r@ =~= n);
    while r.len() < MSG_SIZE
        invariant
            n == rejection_notice(),
            n.len() <= r@.len() <= MSG_SIZE,
            r@ == n + zero_fill((r@.len() - n.len()) as nat),
        decreases MSG_SIZE - r@.len(),
    {
        r.push(0u8);
        assert(r@ =~= n + zero_fill((r@.len() - n.len()) as nat));
    }
    r
}

/// Judges the password challenge `frame` of the peer of address `addr`.
///
/// If the frame decodes under `key`, the peer is authenticated: its
/// username, cut to `USERNAME_LENGTH` bytes, is recorded, and the welcome
/// frame carries the peer address followed by a confirmation, encrypted with
/// `iv`. Otherwise the peer is rejected with the reason and the rejection
/// frame.
pub fn handle_authentication(key: &[u8], frame: &[u8], addr: &[u8], iv: &[u8]) -> (r: AuthOutcome)
    requires
        key@.len() == KEY_LEN,
        iv@.len() == IV_LEN,
        addr@.len() <= MAX_ADDR_LEN,
    ensures
        match decode_spec(key@, frame@) {
            Ok(m) => r matches AuthOutcome::Authenticated { username, welcome }
                && username@ == bounded_username(m.username)
                && welcome@ == frame_of(key@, iv@, welcome_message(addr@, m.username))
                && welcome@.len() == MSG_SIZE
                && decodes_to(key@, welcome@, welcome_message(addr@, m.username)),
            Err(e) => r matches AuthOutcome::Rejected { reason, notice }
                && reason == e
                && notice@ == rejection_frame(),
        },
{
    match decode(key, frame) {
        Err(e) => AuthOutcome::Rejected { reason: e, notice: rejection_frame_bytes() },
        Ok(m) => {
            let ghost mv = m@;
            let mut username = m.username;
            username.truncate(USERNAME_LENGTH);
            let mut data = vstd::slice::slice_to_vec(addr);
            let mut suffix = welcome_suffix_bytes();
            data.append(&mut suffix);
            let reply = Message::new(vstd::slice::slice_to_vec(username.as_slice()), data);
            assert(username@ =~= bounded_username(mv.username));
            assert(reply@.data =~= addr@ + welcome_suffix());
            assert(reply@ == welcome_message(addr@, mv.username));
            match encode_with_iv(key, iv, &reply) {
                Ok(welcome) => AuthOutcome::Authenticated { username, welcome },
                Err(_) => {
                    assert(false);
                    AuthOutcome::Rejected { reason: DecodeError::BadPadding, notice: rejection_frame_bytes() }
                },
            }
        },
    }
}

/// Where a session stands.
#[derive(Debug, Clone, Copy, PartialEq, Eq, Structural)]
pub enum SessionState {
    /// The socket is accepted; nothing has been read.
    Connecting,
    /// Waiting for the password challenge.
    Authenticating,
    /// Admitted: frames are decoded and handed to the relay.
    Relaying,
    /// Terminal.
    Closed,
}

/// What happened on a session's connection.
pub enum SessionEvent {
    /// The connection was accepted.
    Accepted,
    /// A whole frame was read.
    Frame(Vec<u8>),
    /// The peer closed its side, or reading failed.
    Disconnected,
}

pub enum EventView {
    Accepted,
    Frame(Seq<u8>),
    Disconnected,
}

impl View for SessionEvent {
    type V = EventView;

    open spec fn view(&self) -> EventView {
        match self {
            SessionEvent::Accepted => EventView::Accepted,
            SessionEvent::Frame(f) => EventView::Frame(f@),
            SessionEvent::Disconnected => EventView::Disconnected,
        }
    }
}

/// What the owner of the connection is to do next.
pub enum SessionAction {
    /// Nothing; keep reading.
    Wait,
    /// Write this frame to the peer.
    Send(Vec<u8>),
    /// Write this frame to the peer, then close the connection.
    Reject(Vec<u8>),
    /// Hand this message to the relay.
    Forward(Message),
    /// The frame read did not decode; it is dropped and the session goes on.
    Drop(DecodeError),
    /// Close the connection.
    Close,
}

pub enum ActionView {
    Wait,
    Send(Seq<u8>),
    Reject(Seq<u8>),
    Forward(MessageView),
    Drop(DecodeError),
    Close,
}

impl View for SessionAction {
    type V = ActionView;

    open spec fn view(&self) -> ActionView {
        match self {
            SessionAction::Wait => ActionView::Wait,
            SessionAction::Send(f) => ActionView::Send(f@),
            SessionAction::Reject(f) => ActionView::Reject(f@),
            SessionAction::Forward(m) => ActionView::Forward(m@),
            SessionAction::Drop(e) => ActionView::Drop(*e),
            SessionAction::Close => ActionView::Close,
        }
    }
}

/// One connection, owned by the worker that serves it.
pub struct ClientSession {
    addr: Vec<u8>,
    state: SessionState,
    username: Vec<u8>,
}

pub struct SessionView {
    pub addr: Seq<u8>,
    pub state: SessionState,
    pub username: Seq<u8>,
}

impl View for ClientSession {
    type V = SessionView;

    closed spec fn view(&self) -> SessionView {
        SessionView { addr: self.addr@, state: self.state, username: self.username@ }
    }
}

/// The session after `e`.
pub open spec fn next_session(s: SessionView, key: Seq<u8>, e: EventView) -> SessionView {
    let closed = SessionView { addr: s.addr, state: SessionState::Closed, username: s.username };
    match s.state {
        SessionState::Connecting => match e {
            EventView::Accepted => SessionView {
                addr: s.addr,
                state: SessionState::Authenticating,
                username: s.username,
            },
            _ => closed,
        },
        SessionState::Authenticating => match e {
            EventView::Accepted => s,
            EventView::Frame(f) => match decode_spec(key, f) {
                Ok(m) => SessionView {
                    addr: s.addr,
                    state: SessionState::Relaying,
                    username: bounded_username(m.username),
                },
                Err(_) => closed,
            },
            EventView::Disconnected => closed,
        },
        SessionState::Relaying => match e {
            EventView::Disconnected => closed,
            _ => s,
        },
        SessionState::Closed => s,
    }
}

/// The registry after the session sees `e`: admitted on a challenge that
/// decodes, removed when a relaying session disconnects, else unchanged.
pub open spec fn next_registry(
    s: SessionView,
    reg: Seq<EntryView>,
    key: Seq<u8>,
    e: EventView,
) -> Seq<EntryView> {
    match s.state {
        SessionState::Authenticating => match e {
            EventView::Frame(f) => match decode_spec(key, f) {
                Ok(m) => registered(reg, s.addr, bounded_username(m.username)),
                Err(_) => reg,
            },
            _ => reg,
        },
        SessionState::Relaying => match e {
            EventView::Disconnected => without(reg, s.addr),
            _ => reg,
        },
        _ => reg,
    }
}

/// What the session asks for after `e`, the welcome frame using `iv`.
pub open spec fn action_of(s: SessionView, key: Seq<u8>, e: EventView, iv: Seq<u8>) -> ActionView {
    match s.state {
        SessionState::Connecting => match e {
            EventView::Accepted => ActionView::Wait,
            _ => ActionView::Close,
        },
        SessionState::Authenticating => match e {
            EventView::Accepted => ActionView::Wait,
            EventView::Frame(f) => match decode_spec(key, f) {
                Ok(m) => ActionView::Send(frame_of(key, iv, welcome_message(s.addr, m.username))),
                Err(_) => ActionView::Reject(rejection_frame()),
            },
            EventView::Disconnected => ActionView::Close,
        },
        SessionState::Relaying => match e {
            EventView::Accepted => ActionView::Wait,
            EventView::Frame(f) => match decode_spec(key, f) {
                Ok(m) => ActionView::Forward(MessageView { username: s.username, data: m.data }),
                Err(e) => ActionView::Drop(e),
            },
            EventView::Disconnected => ActionView::Close,
        },
        SessionState::Closed => ActionView::Wait,
    }
}

impl ClientSession {
    pub open spec fn wf(&self) -> bool {
        self@.addr.len() <= MAX_ADDR_LEN
    }

    /// A session for a just-accepted connection from the peer of address
    /// `addr` (its text form).
    pub fn new(addr: Vec<u8>) -> (r: ClientSession)
        requires
            addr@.len() <= MAX_ADDR_LEN,
        ensures
            r@ == (SessionView { addr: addr@, state: SessionState::Connecting, username: Seq::empty() }),
            r.wf(),
    {
        let r = ClientSession { addr, state: SessionState::Connecting, username: Vec::new() };
        assert(r@.username =~= Seq::<u8>::empty());
        r
    }

    pub fn state(&self) -> (r: SessionState)
        ensures
            r == self@.state,
    {
        self.state
    }

    pub fn addr(&self) -> (r: &[u8])
        ensures
            r@ == self@.addr,
    {
        self.addr.as_slice()
    }

    pub fn username(&self) -> (r: &[u8])
        ensures
            r@ == self@.username,
    {
        self.username.as_slice()
    }

    /// Takes one event, with `iv` for a welcome frame, updating the session
    /// and the registry.
    pub fn step_with_iv(
        &mut self,
        key: &[u8],
        registry: &mut ConnectionRegistry,
        event: SessionEvent,
        iv: &[u8],
    ) -> (r: SessionAction)
        requires
            old(self).wf(),
            old(registry).wf(),
            key@.len() == KEY_LEN,
            iv@.len() == IV_LEN,
        ensures
            final(self).wf(),
            final(registry).wf(),
            final(self)@ == next_session(old(self)@, key@, event@),
            final(registry)@ == next_registry(old(self)@, old(registry)@, key@, event@),
            r@ == action_of(old(self)@, key@, event@, iv@),
    {
        match self.state {
            SessionState::Connecting => match event {
                SessionEvent::Accepted => {
                    self.state = SessionState::Authenticating;
                    SessionAction::Wait
                },
                _ => {
                    self.state = SessionState::Closed;
                    SessionAction::Close
                },
            },
            SessionState::Authenticating => match event {
                SessionEvent::Accepted => SessionAction::Wait,
                SessionEvent::Frame(f) => {
                    match handle_authentication(key, f.as_slice(), self.addr.as_slice(), iv) {
                        AuthOutcome::Authenticated { username, welcome } => {
                            registry.register(vstd::slice::slice_to_vec(self.addr.as_slice()), vstd::slice::slice_to_vec(username.as_slice()));
                            self.username = username;
                            self.state = SessionState::Relaying;
                            SessionAction::Send(welcome)
                        },
                        AuthOutcome::Rejected { reason: _, notice } => {
                            self.state = SessionState::Closed;
                            SessionAction::Reject(notice)
                        },
                    }
                },
                SessionEvent::Disconnected => {
                    self.state = SessionState::Closed;
                    SessionAction::Close
                },
            },
            SessionState::Relaying => match event {
                SessionEvent::Accepted => SessionAction::Wait,
                SessionEvent::Frame(f) => match decode(key, f.as_slice()) {
                    Ok(m) => {
                        let username = vstd::slice::slice_to_vec(self.username.as_slice());
                        SessionAction::Forward(Message::new(username, m.data))
                    },
                    Err(e) => SessionAction::Drop(e),
                },
                SessionEvent::Disconnected => {
                    registry.unregister(self.addr.as_slice());
                    self.state = SessionState::Closed;
                    SessionAction::Close
                },
            },
            SessionState::Closed => SessionAction::Wait,
        }
    }

    /// Takes one event. A password challenge, the one event that may need a
    /// welcome frame, draws a fresh random IV; if the random source fails,
    /// the session and the registry are left as they were.
    pub fn step(&mut self, key: &[u8], registry: &mut ConnectionRegistry, event: SessionEvent) -> (r:
        Result<SessionAction, RandomSourceFailed>)
        requires
            old(self).wf(),
            old(registry).wf(),
            key@.len() == KEY_LEN,
        ensures
            final(self).wf(),
            final(registry).wf(),
            match r {
                Ok(a) => {
                    &&& final(self)@ == next_session(old(self)@, key@, event@)
                    &&& final(registry)@ == next_registry(old(self)@, old(registry)@, key@, event@)
                    &&& exists|iv: Seq<u8>| iv.len() == IV_LEN && a@ == action_of(old(self)@, key@, event@, iv)
                },
                Err(_) => {
                    &&& old(self)@.state == SessionState::Authenticating
                    &&& event@ is Frame
                    &&& final(self)@ == old(self)@
                    &&& final(registry)@ == old(registry)@
                },
            },
    {
        let needs_iv = match (&self.state, &event) {
            (SessionState::Authenticating, SessionEvent::Frame(_)) => true,
            _ => false,
        };
        let iv = if needs_iv {
            match random_iv() {
                Some(v) => v,
                None => return Err(RandomSourceFailed),
            }
        } else {
            vec![0u8; IV_LEN]
        };
        Ok(self.step_with_iv(key, registry, event, iv.as_slice()))
    }
}

/// A challenge that decodes admits an authenticating session: it moves to
/// `Relaying` with the username cut to `USERNAME_LENGTH` bytes, its address
/// enters the registry, and it is answered with the welcome frame that
/// carries its own address.
pub proof fn lemma_challenge_admits(
    s: SessionView,
    reg: Seq<EntryView>,
    key: Seq<u8>,
    frame: Seq<u8>,
    m: MessageView,
    iv: Seq<u8>,
)
    requires
        s.state == SessionState::Authenticating,
        decodes_to(key, frame, m),
    ensures
        next_session(s, key, EventView::Frame(frame)).state == SessionState::Relaying,
        next_session(s, key, EventView::Frame(frame)).username == bounded_username(m.username),
        has_addr(next_registry(s, reg, key, EventView::Frame(frame)), s.addr),
        action_of(s, key, EventView::Frame(frame), iv) == ActionView::Send(
            frame_of(key, iv, welcome_message(s.addr, m.username)),
        ),
        welcome_message(s.addr, m.username).data == s.addr + welcome_suffix(),
{
    let r = registered(reg, s.addr, bounded_username(m.username));
    assert(r[r.len() - 1].addr == s.addr);
}

/// The session and registry after the events `es`, one by one.
pub open spec fn run(
    s: SessionView,
    reg: Seq<EntryView>,
    key: Seq<u8>,
    es: Seq<EventView>,
) -> (SessionView, Seq<EntryView>)
    decreases es.len(),
{
    if es.len() == 0 {
        (s, reg)
    } else {
        run(next_session(s, key, es[0]), next_registry(s, reg, key, es[0]), key, es.drop_first())
    }
}

/// A closed session stays closed and touches the registry no more.
pub proof fn lemma_closed_is_final(s: SessionView, reg: Seq<EntryView>, key: Seq<u8>, es: Seq<EventView>)
    requires
        s.state == SessionState::Closed,
    ensures
        run(s, reg, key, es) == (s, reg),
    decreases es.len(),
{
    if es.len() > 0 {
        lemma_closed_is_final(s, reg, key, es.drop_first());
    }
}

/// A session whose password challenge does not decode is closed, leaves the
/// registry as it was, and whatever events follow, never puts its address
/// in the registry.
pub proof fn lemma_rejected_never_registered(
    s: SessionView,
    reg: Seq<EntryView>,
    key: Seq<u8>,
    frame: Seq<u8>,
    later: Seq<EventView>,
)
    requires
        s.state == SessionState::Authenticating,
        decode_spec(key, frame) is Err,
        !has_addr(reg, s.addr),
    ensures
        next_session(s, key, EventView::Frame(frame)).state == SessionState::Closed,
        next_registry(s, reg, key, EventView::Frame(frame)) == reg,
        !has_addr(run(next_session(s, key, EventView::Frame(frame)), reg, key, later).1, s.addr),
{
    lemma_closed_is_final(next_session(s, key, EventView::Frame(frame)), reg, key, later);
}

} // verus!
