//! The frame codec: a message in, a fixed-size encrypted frame out, and back.
//!
//! A frame is `IV (16 bytes) ‖ ciphertext (MSG_SIZE - 16 bytes)`. The
//! ciphertext is AES-256-CBC with PKCS#7 padding of a plaintext of exactly
//! `PLAINTEXT_LEN` bytes: the serialized message followed by zero fill.
use crate::cipher::{
    aes_cbc_decrypt, aes_cbc_encrypt, cbc_decrypted, cbc_encrypted, padded_len, random_iv,
    BLOCK_LEN, IV_LEN, KEY_LEN,
};
use crate::message::{
    le_bytes, le_value, lemma_le_round_trip, serialize_data, serialized, Message, MessageView,
    LEN_FIELD,
};
use vstd::prelude::*;

verus! {

/// Total length in bytes of every frame on the wire.
pub const MSG_SIZE: usize = 4096;

/// Length of the ciphertext inside a frame.
pub const CIPHERTEXT_LEN: usize = MSG_SIZE - IV_LEN;

/// Length of the plaintext that is encrypted: one byte short of the
/// ciphertext, so that PKCS#7 padding adds exactly one byte.
pub const PLAINTEXT_LEN: usize = CIPHERTEXT_LEN - 1;

/// Largest number of username and data bytes, together, that a frame holds.
pub const MAX_PAYLOAD: usize = PLAINTEXT_LEN - 2 * LEN_FIELD;

#[derive(Debug, Clone, Copy, PartialEq, Eq, Structural)]
pub enum EncodeError {
    /// The username and data do not fit in one frame.
    PayloadTooLarge,
    /// No initialization vector could be drawn: the operating system's
    /// random source failed.
    RandomSourceFailed,
}

#[derive(Debug, Clone, Copy, PartialEq, Eq, Structural)]
pub enum DecodeError {
    /// The frame is shorter than an IV, or its ciphertext is not a whole
    /// number of blocks.
    Malformed,
    /// The plaintext does not validate: its padding, its length fields or
    /// its zero fill. This is what a wrong key or a corrupted frame gives.
    BadPadding,
}

/// Whether a message fits in one frame.
pub open spec fn fits(m: MessageView) -> bool {
    m.username.len() + m.data.len() <= MAX_PAYLOAD
}

/// `n` zero bytes.
pub open spec fn zero_fill(n: nat) -> Seq<u8> {
    Seq::new(n, |i: int| 0u8)
}

/// The plaintext that a frame carrying `m` encrypts.
pub open spec fn plaintext_of(m: MessageView) -> Seq<u8> {
    serialized(m) + zero_fill((PLAINTEXT_LEN - serialized(m).len()) as nat)
}

/// Whether every byte of `p` from `start` on is zero.
pub open spec fn zero_from(p: Seq<u8>, start: int) -> bool {
    forall|i: int| start <= i < p.len() ==> p[i] == 0
}

/// The message that a decrypted plaintext holds, if its length fields fit
/// and everything after the data is zero.
#[verifier::opaque]
pub open spec fn parse_plaintext(p: Seq<u8>) -> Option<MessageView> {
    if p.len() < 2 * LEN_FIELD {
        None
    } else {
        let ul = le_value(p, 0) as int;
        if ul > p.len() - 2 * LEN_FIELD {
            None
        } else {
            let dl = le_value(p, LEN_FIELD + ul) as int;
            let end = 2 * LEN_FIELD + ul + dl;
            if end > p.len() || !zero_from(p, end) {
                None
            } else {
                Some(
                    MessageView {
                        username: p.subrange(LEN_FIELD as int, LEN_FIELD + ul),
                        data: p.subrange(2 * LEN_FIELD + ul, end),
                    },
                )
            }
        }
    }
}

/// The frame that carries `m` under `key` with initialization vector `iv`.
pub open spec fn frame_of(key: Seq<u8>, iv: Seq<u8>, m: MessageView) -> Seq<u8> {
    iv + cbc_encrypted(key, iv, plaintext_of(m))
}

/// What decoding `frame` under `key` gives.
pub open spec fn decode_spec(key: Seq<u8>, frame: Seq<u8>) -> Result<MessageView, DecodeError> {
    if frame.len() < IV_LEN || (frame.len() - IV_LEN) % (BLOCK_LEN as int) != 0 {
        Err(DecodeError::Malformed)
    } else {
        match cbc_decrypted(key, frame.subrange(0, IV_LEN as int), frame.subrange(IV_LEN as int, frame.len() as int)) {
            None => Err(DecodeError::BadPadding),
            Some(p) => match parse_plaintext(p) {
                None => Err(DecodeError::BadPadding),
                Some(m) => Ok(m),
            },
        }
    }
}

/// Whether `frame` decodes to `m` under `key`.
pub open spec fn decodes_to(key: Seq<u8>, frame: Seq<u8>, m: MessageView) -> bool {
    decode_spec(key, frame) == Ok::<MessageView, DecodeError>(m)
}

/// The plaintext layout is lossless: the plaintext made of a message that
/// fits parses back to that same message, whatever bytes it holds.
pub proof fn lemma_plaintext_round_trip(m: MessageView)
    requires
        fits(m),
    ensures
        plaintext_of(m).len() == PLAINTEXT_LEN,
        parse_plaintext(plaintext_of(m)) == Some(m),
{
    reveal(parse_plaintext);
    let p = plaintext_of(m);
    let ul = m.username.len() as int;
    let dl = m.data.len() as int;
    assert(p.subrange(0, 8) =~= le_bytes(ul as u64));
    lemma_le_round_trip(p, 0, ul as u64);
    assert(p.subrange(8 + ul, 16 + ul) =~= le_bytes(dl as u64));
    lemma_le_round_trip(p, 8 + ul, dl as u64);
    assert(p.subrange(8, 8 + ul) =~= m.username);
    assert(p.subrange(16 + ul, 16 + ul + dl) =~= m.data);
    assert(zero_from(p, 16 + ul + dl));
}

/// A frame made of an IV and the encryption of a message's plaintext
/// decodes back to that message, given that decryption undoes encryption.
proof fn lemma_frame_decodes(key: Seq<u8>, iv: Seq<u8>, m: MessageView, c: Seq<u8>)
    requires
        fits(m),
        iv.len() == IV_LEN,
        c == cbc_encrypted(key, iv, plaintext_of(m)),
        c.len() == padded_len(plaintext_of(m).len()),
        cbc_decrypted(key, iv, c) == Some(plaintext_of(m)),
    ensures
        (iv + c) == frame_of(key, iv, m),
        (iv + c).len() == MSG_SIZE,
        decodes_to(key, iv + c, m),
{
    lemma_plaintext_round_trip(m);
    assert(padded_len(PLAINTEXT_LEN as nat) == CIPHERTEXT_LEN);
    let f = iv + c;
    assert(f.subrange(0, IV_LEN as int) =~= iv);
    assert(f.subrange(IV_LEN as int, f.len() as int) =~= c);
}

/// The plaintext that a frame carrying `m` encrypts.
fn frame_plaintext(m: &Message) -> (r: Vec<u8>)
    requires
        fits(m@),
    ensures
        r@ == plaintext_of(m@),
{
    let mut out = serialize_data(m);
    let ghost ser = out@;
    while out.len() < PLAINTEXT_LEN
        invariant
            ser == serialized(m@),
            ser.len() <= out@.len() <= PLAINTEXT_LEN,
            out@ == ser + zero_fill((out@.len() - ser.len()) as nat),
        decreases PLAINTEXT_LEN - out@.len(),
    {
        out.push(0u8);
        assert(out@ =~= ser + zero_fill((out@.len() - ser.len()) as nat));
    }
    out
}

/// The message that a decrypted plaintext holds, if it validates.
pub fn deserialize_data(p: &[u8]) -> (r: Option<Message>)
    ensures
        match r {
            Some(m) => parse_plaintext(p@) == Some(m@),
            None => parse_plaintext(p@) is None,
        },
{
    reveal(parse_plaintext);
    let len = p.len();
    if len < 2 * LEN_FIELD {
        return None;
    }
    let ul = read_le_at(p, 0);
    if ul > (len - 2 * LEN_FIELD) as u64 {
        return None;
    }
    let ul = ul as usize;
    let dl = read_le_at(p, LEN_FIELD + ul);
    if dl > (len - 2 * LEN_FIELD - ul) as u64 {
        return None;
    }
    let end = 2 * LEN_FIELD + ul + dl as usize;
    let mut i = end;
    while i < len
        invariant
            end <= i <= len,
            len == p@.len(),
            len >= 2 * LEN_FIELD,
            ul as int == le_value(p@, 0) as int,
            ul <= len - 2 * LEN_FIELD,
            dl == le_value(p@, LEN_FIELD + ul),
            end == 2 * LEN_FIELD + ul + dl,
            forall|j: int| end <= j < i ==> p@[j] == 0,
        decreases len - i,
    {
        if p[i] != 0 {
            proof {
                reveal(parse_plaintext);
                assert(!zero_from(p@, end as int));
            }
            return None;
        }
        i = i + 1;
    }
    let username = vstd::slice::slice_to_vec(&p[LEN_FIELD..LEN_FIELD + ul]);
    let data = vstd::slice::slice_to_vec(&p[2 * LEN_FIELD + ul..end]);
    Some(Message::new(username, data))
}

fn read_le_at(b: &[u8], at: usize) -> (r: u64)
    requires
        at + 8 <= b@.len(),
    ensures
        r == le_value(b@, at as int),
{
    crate::message::read_le(b, at)
}

/// Encodes `msg` under `key` with the initialization vector `iv`.
///
/// Succeeds exactly when the message fits in one frame; the frame is then
/// `MSG_SIZE` bytes long, starts with `iv`, and decodes back to `msg` under
/// the same key, whatever bytes the message holds.
pub fn encode_with_iv(key: &[u8], iv: &[u8], msg: &Message) -> (r: Result<Vec<u8>, EncodeError>)
    requires
        key@.len() == KEY_LEN,
        iv@.len() == IV_LEN,
    ensures
        match r {
            Ok(f) => {
                &&& fits(msg@)
                &&& f@ == frame_of(key@, iv@, msg@)
                &&& f@.len() == MSG_SIZE
                &&& decodes_to(key@, f@, msg@)
            },
            Err(e) => !fits(msg@) && e == EncodeError::PayloadTooLarge,
        },
{
    if msg.username.len() > MAX_PAYLOAD || msg.data.len() > MAX_PAYLOAD - msg.username.len() {
        return Err(EncodeError::PayloadTooLarge);
    }
    let plain = frame_plaintext(msg);
    let mut cipher = aes_cbc_encrypt(key, iv, plain.as_slice());
    let ghost c = cipher@;
    let mut frame = vstd::slice::slice_to_vec(iv);
    frame.append(&mut cipher);
    proof {
        lemma_frame_decodes(key@, iv@, msg@, c);
    }
    Ok(frame)
}

/// Encodes `msg` under `key` with a fresh random initialization vector.
///
/// A message that does not fit in one frame is refused. One that fits is
/// encoded unless the random source fails; the frame then decodes back to
/// `msg` under the same key.
pub fn encode(key: &[u8], msg: &Message) -> (r: Result<Vec<u8>, EncodeError>)
    requires
        key@.len() == KEY_LEN,
    ensures
        match r {
            Ok(f) => {
                &&& fits(msg@)
                &&& f@.len() == MSG_SIZE
                &&& f@ == frame_of(key@, f@.subrange(0, IV_LEN as int), msg@)
                &&& decodes_to(key@, f@, msg@)
            },
            Err(EncodeError::PayloadTooLarge) => !fits(msg@),
            Err(EncodeError::RandomSourceFailed) => fits(msg@),
        },
{
    if msg.username.len() > MAX_PAYLOAD || msg.data.len() > MAX_PAYLOAD - msg.username.len() {
        return Err(EncodeError::PayloadTooLarge);
    }
    let iv = match random_iv() {
        Some(v) => v,
        None => return Err(EncodeError::RandomSourceFailed),
    };
    let r = encode_with_iv(key, iv.as_slice(), msg);
    proof {
        if let Ok(f) = &r {
            assert(f@.subrange(0, IV_LEN as int) =~= iv@);
        }
    }
    r
}

/// Decodes `frame` under `key`.
///
/// A frame shorter than an IV or whose ciphertext is not a whole number of
/// blocks is `Malformed`; one whose plaintext does not validate is
/// `BadPadding`.
pub fn decode(key: &[u8], frame: &[u8]) -> (r: Result<Message, DecodeError>)
    requires
        key@.len() == KEY_LEN,
    ensures
        match r {
            Ok(m) => decodes_to(key@, frame@, m@),
            Err(e) => decode_spec(key@, frame@) == Err::<MessageView, DecodeError>(e),
        },
{
    if frame.len() < IV_LEN || (frame.len() - IV_LEN) % BLOCK_LEN != 0 {
        return Err(DecodeError::Malformed);
    }
    let iv = &frame[0..IV_LEN];
    let cipher = &frame[IV_LEN..frame.len()];
    match aes_cbc_decrypt(key, iv, cipher) {
        Err(_) => Err(DecodeError::BadPadding),
        Ok(plain) => match deserialize_data(plain.as_slice()) {
            None => Err(DecodeError::BadPadding),
            Some(m) => Ok(m),
        },
    }
}

} // verus!
