//! The client's side of the protocol: the password challenge it sends, what
//! it makes of the frames it receives, and what it makes of a typed line.
use crate::cipher::{IV_LEN, KEY_LEN};
use crate::codec::{
    decode, decode_spec, decodes_to, encode, encode_with_iv, fits, frame_of, DecodeError, EncodeError,
    MSG_SIZE,
};
use crate::message::{Message, MessageView};
use crate::registry::bytes_eq;
use crate::session::{rejection_frame, rejection_frame_bytes};
use vstd::prelude::*;

verus! {

/// The message of a password challenge: the username and the password.
pub open spec fn challenge_message(password: Seq<u8>, username: Seq<u8>) -> MessageView {
    MessageView { username, data: password }
}

/// The password challenge of `username`, encrypted under the password itself
/// with the initialization vector `iv`. It fails only for a username too
/// long to fit in a frame.
pub fn password_challenge_with_iv(password: &[u8], username: &[u8], iv: &[u8]) -> (r: Result<
    Vec<u8>,
    EncodeError,
>)
    requires
        password@.len() == KEY_LEN,
        iv@.len() == IV_LEN,
    ensures
        match r {
            Ok(f) => {
                &&& fits(challenge_message(password@, username@))
                &&& f@ == frame_of(password@, iv@, challenge_message(password@, username@))
                &&& f@.len() == MSG_SIZE
                &&& decodes_to(password@, f@, challenge_message(password@, username@))
            },
            Err(e) => !fits(challenge_message(password@, username@)) && e
                == EncodeError::PayloadTooLarge,
        },
{
    let m = Message::new(
        vstd::slice::slice_to_vec(username),
        vstd::slice::slice_to_vec(password),
    );
    encode_with_iv(password, iv, &m)
}

/// The password challenge of `username`, with a fresh random initialization
/// vector. A username too long to fit is refused; otherwise it fails only
/// where the random source fails.
pub fn send_password_challenge(password: &[u8], username: &[u8]) -> (r: Result<Vec<u8>, EncodeError>)
    requires
        password@.len() == KEY_LEN,
    ensures
        match r {
            Ok(f) => {
                &&& fits(challenge_message(password@, username@))
                &&& f@ == frame_of(
                    password@,
                    f@.subrange(0, IV_LEN as int),
                    challenge_message(password@, username@),
                )
                &&& f@.len() == MSG_SIZE
                &&& decodes_to(password@, f@, challenge_message(password@, username@))
            },
            Err(EncodeError::PayloadTooLarge) => !fits(challenge_message(password@, username@)),
            Err(EncodeError::RandomSourceFailed) => fits(challenge_message(password@, username@)),
        },
{
    let m = Message::new(
        vstd::slice::slice_to_vec(username),
        vstd::slice::slice_to_vec(password),
    );
    encode(password, &m)
}

/// What a frame from the server turns out to be.
pub enum ServerReply {
    /// A message: the welcome after authentication, or one relayed.
    Message(Message),
    /// The server refused the password.
    Rejected,
    /// Neither: the frame did not decode.
    Unreadable(DecodeError),
}

pub enum ReplyView {
    Message(MessageView),
    Rejected,
    Unreadable(DecodeError),
}

impl View for ServerReply {
    type V = ReplyView;

    open spec fn view(&self) -> ReplyView {
        match self {
            ServerReply::Message(m) => ReplyView::Message(m@),
            ServerReply::Rejected => ReplyView::Rejected,
            ServerReply::Unreadable(e) => ReplyView::Unreadable(*e),
        }
    }
}

/// What the client makes of `frame`.
pub open spec fn reply_of(key: Seq<u8>, frame: Seq<u8>) -> ReplyView {
    match decode_spec(key, frame) {
        Ok(m) => ReplyView::Message(m),
        Err(e) => if frame == rejection_frame() {
            ReplyView::Rejected
        } else {
            ReplyView::Unreadable(e)
        },
    }
}

/// Reads a frame from the server under `key`: a message if it decodes, the
/// rejection if it is the rejection frame, else unreadable.
pub fn read_server_frame(key: &[u8], frame: &[u8]) -> (r: ServerReply)
    requires
        key@.len() == KEY_LEN,
    ensures
        r@ == reply_of(key@, frame@),
{
    match decode(key, frame) {
        Ok(m) => ServerReply::Message(m),
        Err(e) => {
            let notice = rejection_frame_bytes();
            if bytes_eq(frame, notice.as_slice()) {
                ServerReply::Rejected
            } else {
                ServerReply::Unreadable(e)
            }
        },
    }
}

/// Whether a byte is ASCII white space.
pub open spec fn is_space(b: u8) -> bool {
    b == 32 || b == 9 || b == 10 || b == 13 || b == 12
}

/// `s` without the white space at its start.
pub open spec fn trim_start(s: Seq<u8>) -> Seq<u8>
    decreases s.len(),
{
    if s.len() > 0 && is_space(s[0]) {
        trim_start(s.drop_first())
    } else {
        s
    }
}

/// `s` without the white space at its end.
pub open spec fn trim_end(s: Seq<u8>) -> Seq<u8>
    decreases s.len(),
{
    if s.len() > 0 && is_space(s.last()) {
        trim_end(s.drop_last())
    } else {
        s
    }
}

/// `s` without white space at either end.
pub open spec fn trimmed(s: Seq<u8>) -> Seq<u8> {
    trim_end(trim_start(s))
}

/// The command that ends a client session.
pub open spec fn quit_command() -> Seq<u8> {
    seq![58u8, 113, 117, 105, 116]
}

/// What a line typed by the user asks for.
pub enum InputLine {
    /// Nothing but white space: ignored.
    Empty,
    /// The quit command, `:quit`.
    Quit,
    /// Text to send, trimmed.
    Text(Vec<u8>),
}

pub enum InputView {
    Empty,
    Quit,
    Text(Seq<u8>),
}

impl View for InputLine {
    type V = InputView;

    open spec fn view(&self) -> InputView {
        match self {
            InputLine::Empty => InputView::Empty,
            InputLine::Quit => InputView::Quit,
            InputLine::Text(t) => InputView::Text(t@),
        }
    }
}

fn is_space_byte(b: u8) -> (r: bool)
    ensures
        r == is_space(b),
{
    b == 32 || b == 9 || b == 10 || b == 13 || b == 12
}

/// Classifies a typed line.
pub fn write_message(line: &[u8]) -> (r: InputLine)
    ensures
        r@ == (if trimmed(line@).len() == 0 {
            InputView::Empty
        } else if trimmed(line@) == quit_command() {
            InputView::Quit
        } else {
            InputView::Text(trimmed(line@))
        }),
{
    let mut start: usize = 0;
    assert(line@.subrange(0, line@.len() as int) =~= line@);
    while start < line.len() && is_space_byte(line[start])
        invariant
            start <= line@.len(),
            trim_start(line@.subrange(start as int, line@.len() as int)) == trim_start(line@),
        decreases line@.len() - start,
    {
        assert(line@.subrange(start as int, line@.len() as int).drop_first() =~= line@.subrange(
            start + 1,
            line@.len() as int,
        ));
        start = start + 1;
    }
    let ghost front = line@.subrange(start as int, line@.len() as int);
    assert(trim_start(line@) == front);
    let mut end: usize = line.len();
    assert(front.subrange(0, front.len() as int) =~= front);
    while end > start && is_space_byte(line[end - 1])
        invariant
            start <= end <= line@.len(),
            front == line@.subrange(start as int, line@.len() as int),
            trim_end(line@.subrange(start as int, end as int)) == trim_end(front),
        decreases end,
    {
        assert(line@.subrange(start as int, end as int).drop_last() =~= line@.subrange(
            start as int,
            end - 1,
        ));
        end = end - 1;
    }
    let text = vstd::slice::slice_to_vec(&line[start..end]);
    assert(text@ == trimmed(line@));
    if text.len() == 0 {
        return InputLine::Empty;
    }
    let quit: Vec<u8> = vec![58u8, 113, 117, 105, 116];
    assert(quit@ =~= quit_command());
    if bytes_eq(text.as_slice(), quit.as_slice()) {
        InputLine::Quit
    } else {
        InputLine::Text(text)
    }
}

} // verus!
