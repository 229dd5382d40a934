//! Chat messages and their plaintext byte layout.
//!
//! A message is written as the length of its username (eight bytes, least
//! significant first), the username, the length of its data in the same
//! form, and the data. Inside a frame this serialized form is followed by
//! zero bytes up to the fixed plaintext length, so the length fields, not
//! the zero fill, tell where the payload ends: payloads that end in zero
//! bytes come back whole.
use vstd::prelude::*;
use vstd::slice::slice_to_vec;
use vstd::string::StrSliceExecFns;
use vstd::utf8::encode_utf8;

verus! {

/// Number of bytes a username keeps.
pub const USERNAME_LENGTH: usize = 10;

/// Length in bytes of a length field.
pub const LEN_FIELD: usize = 8;

/// A message as it travels between sessions.
pub struct Message {
    pub username: Vec<u8>,
    pub data: Vec<u8>,
}

/// The mathematical value of a message.
pub struct MessageView {
    pub username: Seq<u8>,
    pub data: Seq<u8>,
}

impl View for Message {
    type V = MessageView;

    open spec fn view(&self) -> MessageView {
        MessageView { username: self.username@, data: self.data@ }
    }
}

impl Message {
    pub fn new(username: Vec<u8>, data: Vec<u8>) -> (r: Message)
        ensures
            r@ == (MessageView { username: username@, data: data@ }),
    {
        Message { username, data }
    }

    /// Empties both the username and the data.
    pub fn delete(&mut self)
        ensures
            final(self)@.username.len() == 0,
            final(self)@.data.len() == 0,
    {
        self.username.clear();
        self.data.clear();
    }

    pub fn clone(&self) -> (r: Message)
        ensures
            r@ == self@,
    {
        Message {
            username: slice_to_vec(self.username.as_slice()),
            data: slice_to_vec(self.data.as_slice()),
        }
    }
}

/// The eight bytes of `n`, least significant first.
pub open spec fn le_bytes(n: u64) -> Seq<u8> {
    seq![
        n as u8,
        (n >> 8u64) as u8,
        (n >> 16u64) as u8,
        (n >> 24u64) as u8,
        (n >> 32u64) as u8,
        (n >> 40u64) as u8,
        (n >> 48u64) as u8,
        (n >> 56u64) as u8,
    ]
}

/// The number whose eight bytes, least significant first, stand in `b`
/// from position `at`.
pub open spec fn le_value(b: Seq<u8>, at: int) -> u64 {
    (b[at] as u64)
    | ((b[at + 1] as u64) << 8u64)
    | ((b[at + 2] as u64) << 16u64)
    | ((b[at + 3] as u64) << 24u64)
    | ((b[at + 4] as u64) << 32u64)
    | ((b[at + 5] as u64) << 40u64)
    | ((b[at + 6] as u64) << 48u64)
    | ((b[at + 7] as u64) << 56u64)
}

/// A byte sequence preceded by its length.
pub open spec fn length_prefixed(s: Seq<u8>) -> Seq<u8> {
    le_bytes(s.len() as u64) + s
}

/// The serialized form of a message.
pub open spec fn serialized(m: MessageView) -> Seq<u8> {
    length_prefixed(m.username) + length_prefixed(m.data)
}

/// Reading eight bytes back gives the number they were written from.
pub proof fn lemma_le_round_trip(b: Seq<u8>, at: int, n: u64)
    requires
        0 <= at,
        at + 8 <= b.len(),
        b.subrange(at, at + 8) == le_bytes(n),
    ensures
        le_value(b, at) == n,
{
    let w = le_bytes(n);
    assert(forall|k: int| 0 <= k < 8 ==> b[at + k] == #[trigger] b.subrange(at, at + 8)[k]);
    assert(b[at] == w[0] && b[at + 1] == w[1] && b[at + 2] == w[2] && b[at + 3] == w[3]);
    assert(b[at + 4] == w[4] && b[at + 5] == w[5] && b[at + 6] == w[6] && b[at + 7] == w[7]);
    let (b0, b1, b2, b3, b4, b5, b6, b7) = (
        b[at], b[at + 1], b[at + 2], b[at + 3], b[at + 4], b[at + 5], b[at + 6], b[at + 7],
    );
    assert((b0 as u64) | ((b1 as u64) << 8u64) | ((b2 as u64) << 16u64) | ((b3 as u64) << 24u64)
        | ((b4 as u64) << 32u64) | ((b5 as u64) << 40u64) | ((b6 as u64) << 48u64)
        | ((b7 as u64) << 56u64) == n) by (bit_vector)
        requires
            b0 == n as u8,
            b1 == (n >> 8u64) as u8,
            b2 == (n >> 16u64) as u8,
            b3 == (n >> 24u64) as u8,
            b4 == (n >> 32u64) as u8,
            b5 == (n >> 40u64) as u8,
            b6 == (n >> 48u64) as u8,
            b7 == (n >> 56u64) as u8,
    ;
}

/// Appends the eight bytes of `n`, least significant first.
fn push_le(v: &mut Vec<u8>, n: u64)
    ensures
        final(v)@ == old(v)@ + le_bytes(n),
{
    v.push(n as u8);
    v.push((n >> 8u64) as u8);
    v.push((n >> 16u64) as u8);
    v.push((n >> 24u64) as u8);
    v.push((n >> 32u64) as u8);
    v.push((n >> 40u64) as u8);
    v.push((n >> 48u64) as u8);
    v.push((n >> 56u64) as u8);
    assert(final(v)@ =~= old(v)@ + le_bytes(n));
}

/// Reads eight bytes from position `at`, least significant first.
pub(crate) fn read_le(b: &[u8], at: usize) -> (r: u64)
    requires
        at + 8 <= b@.len(),
    ensures
        r == le_value(b@, at as int),
{
    (b[at] as u64)
    | ((b[at + 1] as u64) << 8u64)
    | ((b[at + 2] as u64) << 16u64)
    | ((b[at + 3] as u64) << 24u64)
    | ((b[at + 4] as u64) << 32u64)
    | ((b[at + 5] as u64) << 40u64)
    | ((b[at + 6] as u64) << 48u64)
    | ((b[at + 7] as u64) << 56u64)
}

/// Appends the bytes of `s`.
fn push_all(v: &mut Vec<u8>, s: &[u8])
    ensures
        final(v)@ == old(v)@ + s@,
{
    let mut i: usize = 0;
    while i < s.len()
        invariant
            i <= s@.len(),
            v@ == old(v)@ + s@.subrange(0, i as int),
        decreases s@.len() - i,
    {
        v.push(s[i]);
        i = i + 1;
        assert(v@ =~= old(v)@ + s@.subrange(0, i as int));
    }
    assert(s@.subrange(0, s@.len() as int) =~= s@);
}

/// The serialized form of `m`.
pub fn serialize_data(m: &Message) -> (r: Vec<u8>)
    ensures
        r@ == serialized(m@),
{
    let mut out: Vec<u8> = Vec::new();
    push_le(&mut out, m.username.len() as u64);
    push_all(&mut out, m.username.as_slice());
    push_le(&mut out, m.data.len() as u64);
    push_all(&mut out, m.data.as_slice());
    assert(out@ =~= serialized(m@));
    out
}

/// `s` without the zero bytes at its end.
pub open spec fn without_trailing_zeros(s: Seq<u8>) -> Seq<u8>
    decreases s.len(),
{
    if s.len() == 0 || s.last() != 0 {
        s
    } else {
        without_trailing_zeros(s.drop_last())
    }
}

/// At most the first `n` elements of `s`.
pub open spec fn at_most<A>(s: Seq<A>, n: nat) -> Seq<A> {
    if s.len() <= n {
        s
    } else {
        s.subrange(0, n as int)
    }
}

/// Removes the zero bytes at the end of `data`, keeping those inside it.
pub fn remove_trailing_zeros(data: Vec<u8>) -> (r: Vec<u8>)
    ensures
        r@ == without_trailing_zeros(data@),
{
    let mut data = data;
    let mut k = data.len();
    assert(data@.subrange(0, k as int) =~= data@);
    while k > 0 && data[k - 1] == 0
        invariant
            k <= data@.len(),
            without_trailing_zeros(data@.subrange(0, k as int)) == without_trailing_zeros(data@),
        decreases k,
    {
        assert(data@.subrange(0, k as int).drop_last() =~= data@.subrange(0, k - 1));
        k = k - 1;
    }
    proof {
        let t = data@.subrange(0, k as int);
        assert(t.len() == 0 || t.last() != 0);
    }
    data.truncate(k);
    data
}

/// The first `max_chars` characters of `s`, or all of it if it is shorter.
pub fn truncate(s: &str, max_chars: usize) -> (r: &str)
    ensures
        r@ == at_most(s@, max_chars as nat),
{
    if s.unicode_len() <= max_chars {
        s
    } else {
        s.substring_char(0, max_chars)
    }
}

/// The username that `s` gives: its first `max_chars` characters, encoded
/// as UTF-8 and cut to `USERNAME_LENGTH` bytes, without zero bytes at the end.
pub fn truncate_in_place(s: String, max_chars: usize) -> (r: Vec<u8>)
    ensures
        r@ == without_trailing_zeros(
            at_most(encode_utf8(at_most(s@, max_chars as nat)), USERNAME_LENGTH as nat),
        ),
        r@.len() <= USERNAME_LENGTH,
{
    let t = truncate(s.as_str(), max_chars);
    let bytes = t.as_bytes();
    let n = if bytes.len() <= USERNAME_LENGTH { bytes.len() } else { USERNAME_LENGTH };
    let mut buffer: Vec<u8> = Vec::new();
    let mut i: usize = 0;
    while i < n
        invariant
            n <= bytes@.len(),
            i <= n,
            buffer@ == bytes@.subrange(0, i as int),
        decreases n - i,
    {
        buffer.push(bytes[i]);
        i = i + 1;
        assert(buffer@ =~= bytes@.subrange(0, i as int));
    }
    assert(buffer@ =~= at_most(encode_utf8(at_most(s@, max_chars as nat)), USERNAME_LENGTH as nat));
    proof {
        lemma_without_trailing_zeros_len(buffer@);
    }
    remove_trailing_zeros(buffer)
}

proof fn lemma_without_trailing_zeros_len(s: Seq<u8>)
    ensures
        without_trailing_zeros(s).len() <= s.len(),
    decreases s.len(),
{
    if s.len() > 0 && s.last() == 0 {
        lemma_without_trailing_zeros_len(s.drop_last());
    }
}

} // verus!
