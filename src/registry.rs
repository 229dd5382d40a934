//! The registry of admitted sessions and their pending outbound messages.
//!
//! Sessions are kept in the order in which they were admitted and are keyed
//! by the text of their peer address. The registry holds no socket: only the
//! address, the username that the session authenticated with, and the
//! messages that the relay has queued for it and that have not yet been
//! handed out for writing.
use crate::codec::{decodes_to, encode_with_iv, fits, frame_of, EncodeError, MAX_PAYLOAD, MSG_SIZE};
use crate::cipher::{random_iv, RandomSourceFailed, IV_LEN, KEY_LEN};
use crate::message::{Message, MessageView};
use vstd::prelude::*;

verus! {

/// One admitted session.
pub struct SessionEntry {
    pub addr: Vec<u8>,
    pub username: Vec<u8>,
    pub outbox: Vec<Message>,
}

/// The mathematical value of a session entry.
pub struct EntryView {
    pub addr: Seq<u8>,
    pub username: Seq<u8>,
    pub outbox: Seq<MessageView>,
}

impl View for SessionEntry {
    type V = EntryView;

    open spec fn view(&self) -> EntryView {
        EntryView {
            addr: self.addr@,
            username: self.username@,
            outbox: self.outbox@.map_values(|m: Message| m@),
        }
    }
}

/// The live, admitted sessions.
pub struct ConnectionRegistry {
    entries: Vec<SessionEntry>,
}

impl View for ConnectionRegistry {
    type V = Seq<EntryView>;

    closed spec fn view(&self) -> Seq<EntryView> {
        self.entries@.map_values(|e: SessionEntry| e@)
    }
}

/// Whether a session with address `a` is registered.
pub open spec fn has_addr(s: Seq<EntryView>, a: Seq<u8>) -> bool {
    exists|i: int| 0 <= i < s.len() && s[i].addr == a
}

/// The position of the session with address `a`.
pub open spec fn index_of(s: Seq<EntryView>, a: Seq<u8>) -> int {
    choose|i: int| 0 <= i < s.len() && s[i].addr == a
}

/// No two sessions share an address.
pub open spec fn addrs_unique(s: Seq<EntryView>) -> bool {
    forall|i: int, j: int|
        0 <= i < s.len() && 0 <= j < s.len() && #[trigger] s[i].addr == #[trigger] s[j].addr ==> i == j
}

/// Every queued message fits in one frame.
pub open spec fn outboxes_fit(s: Seq<EntryView>) -> bool {
    forall|i: int, k: int|
        0 <= i < s.len() && 0 <= k < s[i].outbox.len() ==> fits(#[trigger] s[i].outbox[k])
}

pub open spec fn registry_wf(s: Seq<EntryView>) -> bool {
    addrs_unique(s) && outboxes_fit(s)
}

/// The registry without the session of address `a`.
pub open spec fn without(s: Seq<EntryView>, a: Seq<u8>) -> Seq<EntryView> {
    if has_addr(s, a) {
        s.remove(index_of(s, a))
    } else {
        s
    }
}

/// A newly admitted session, with nothing queued.
pub open spec fn fresh_entry(a: Seq<u8>, u: Seq<u8>) -> EntryView {
    EntryView { addr: a, username: u, outbox: Seq::empty() }
}

/// The registry after admitting a session: an earlier session of the same
/// address is replaced, and the new one comes last.
pub open spec fn registered(s: Seq<EntryView>, a: Seq<u8>, u: Seq<u8>) -> Seq<EntryView> {
    without(s, a).push(fresh_entry(a, u))
}

/// `e` with `m` queued at the end of its outbox.
pub open spec fn enqueued(e: EntryView, m: MessageView) -> EntryView {
    EntryView { addr: e.addr, username: e.username, outbox: e.outbox.push(m) }
}

/// The registry after relaying `m` from the session of address `sender`:
/// every other session has `m` queued last, the sender has nothing new.
pub open spec fn relayed(s: Seq<EntryView>, sender: Seq<u8>, m: MessageView) -> Seq<EntryView> {
    Seq::new(s.len(), |i: int| if s[i].addr == sender { s[i] } else { enqueued(s[i], m) })
}

/// The messages queued for the session of address `a`.
pub open spec fn pending(s: Seq<EntryView>, a: Seq<u8>) -> Seq<MessageView> {
    if has_addr(s, a) {
        s[index_of(s, a)].outbox
    } else {
        Seq::empty()
    }
}

/// The registry after the queue of the session of address `a` is handed out.
pub open spec fn drained(s: Seq<EntryView>, a: Seq<u8>) -> Seq<EntryView> {
    if has_addr(s, a) {
        let i = index_of(s, a);
        s.update(i, EntryView { addr: s[i].addr, username: s[i].username, outbox: Seq::empty() })
    } else {
        s
    }
}

/// Whether two byte strings are equal.
pub fn bytes_eq(a: &[u8], b: &[u8]) -> (r: bool)
    ensures
        r == (a@ == b@),
{
    if a.len() != b.len() {
        return false;
    }
    let mut i: usize = 0;
    while i < a.len()
        invariant
            a@.len() == b@.len(),
            i <= a@.len(),
            forall|j: int| 0 <= j < i ==> a@[j] == b@[j],
        decreases a@.len() - i,
    {
        if a[i] != b[i] {
            return false;
        }
        i = i + 1;
    }
    assert(a@ =~= b@);
    true
}

impl ConnectionRegistry {
    pub open spec fn wf(&self) -> bool {
        registry_wf(self@)
    }

    /// An empty registry.
    pub fn new() -> (r: ConnectionRegistry)
        ensures
            r@ == Seq::<EntryView>::empty(),
            r.wf(),
    {
        let r = ConnectionRegistry { entries: Vec::new() };
        assert(r@ =~= Seq::<EntryView>::empty());
        r
    }

    /// Number of registered sessions.
    pub fn len(&self) -> (r: usize)
        ensures
            r == self@.len(),
    {
        self.entries.len()
    }

    /// The position of the session of address `addr`, if it is registered.
    fn find(&self, addr: &[u8]) -> (r: Option<usize>)
        requires
            self.wf(),
        ensures
            match r {
                Some(i) => has_addr(self@, addr@) && i == index_of(self@, addr@),
                None => !has_addr(self@, addr@),
            },
    {
        let mut i: usize = 0;
        while i < self.entries.len()
            invariant
                self.wf(),
                i <= self@.len(),
                self@.len() == self.entries@.len(),
                forall|j: int| 0 <= j < i ==> self@[j].addr != addr@,
            decreases self@.len() - i,
        {
            if bytes_eq(self.entries[i].addr.as_slice(), addr) {
                assert(self@[i as int].addr == addr@);
                assert(has_addr(self@, addr@));
                proof {
                    let k = index_of(self@, addr@);
                    assert(self@[k].addr == self@[i as int].addr);
                }
                return Some(i);
            }
            i = i + 1;
        }
        None
    }

    /// Whether a session of address `addr` is registered.
    pub fn contains(&self, addr: &[u8]) -> (r: bool)
        requires
            self.wf(),
        ensures
            r == has_addr(self@, addr@),
    {
        self.find(addr).is_some()
    }

    /// Removes the session of address `addr`; tells whether there was one.
    pub fn unregister(&mut self, addr: &[u8]) -> (r: bool)
        requires
            old(self).wf(),
        ensures
            r == has_addr(old(self)@, addr@),
            final(self)@ == without(old(self)@, addr@),
            final(self).wf(),
    {
        match self.find(addr) {
            Some(i) => {
                self.entries.remove(i);
                proof {
                    assert(self@ =~= old(self)@.remove(i as int));
                    lemma_remove_keeps_wf(old(self)@, i as int);
                }
                true
            },
            None => false,
        }
    }

    /// Admits a session: one of the same address is replaced, and the new
    /// one, with nothing queued, comes last.
    pub fn register(&mut self, addr: Vec<u8>, username: Vec<u8>)
        requires
            old(self).wf(),
        ensures
            final(self)@ == registered(old(self)@, addr@, username@),
            final(self).wf(),
    {
        self.unregister(addr.as_slice());
        let ghost mid = self@;
        let entry = SessionEntry { addr, username, outbox: Vec::new() };
        proof {
            assert(entry@.outbox =~= Seq::<MessageView>::empty());
            lemma_without_drops(old(self)@, entry@.addr);
        }
        self.entries.push(entry);
        assert(self@ =~= mid.push(entry@));
    }

    /// The addresses of the registered sessions, in order.
    pub fn snapshot(&self) -> (r: Vec<Vec<u8>>)
        ensures
            r@.len() == self@.len(),
            forall|i: int| 0 <= i < r@.len() ==> (#[trigger] r@[i])@ == self@[i].addr,
    {
        let mut out: Vec<Vec<u8>> = Vec::new();
        let mut i: usize = 0;
        while i < self.entries.len()
            invariant
                i <= self@.len(),
                self@.len() == self.entries@.len(),
                out@.len() == i,
                forall|j: int| 0 <= j < i ==> (#[trigger] out@[j])@ == self@[j].addr,
            decreases self@.len() - i,
        {
            out.push(vstd::slice::slice_to_vec(self.entries[i].addr.as_slice()));
            i = i + 1;
        }
        out
    }

    /// Queues `msg` for every registered session but the one of address
    /// `sender`. A message that does not fit in one frame is refused and
    /// nothing is queued.
    pub fn relay_message(&mut self, sender: &[u8], msg: &Message) -> (r: Result<(), EncodeError>)
        requires
            old(self).wf(),
        ensures
            final(self).wf(),
            match r {
                Ok(()) => fits(msg@) && final(self)@ == relayed(old(self)@, sender@, msg@),
                Err(e) => !fits(msg@) && e == EncodeError::PayloadTooLarge && final(self)@ == old(self)@,
            },
    {
        if msg.username.len() > MAX_PAYLOAD || msg.data.len() > MAX_PAYLOAD - msg.username.len() {
            return Err(EncodeError::PayloadTooLarge);
        }
        let ghost s0 = old(self)@;
        let mut i: usize = 0;
        while i < self.entries.len()
            invariant
                fits(msg@),
                s0 == old(self)@,
                registry_wf(s0),
                self@.len() == s0.len(),
                self.entries@.len() == s0.len(),
                i <= s0.len(),
                forall|j: int| 0 <= j < i ==> #[trigger] self@[j] == relayed(s0, sender@, msg@)[j],
                forall|j: int| i <= j < s0.len() ==> #[trigger] self@[j] == s0[j],
            decreases s0.len() - i,
        {
            let ghost before = self@;
            if !bytes_eq(self.entries[i].addr.as_slice(), sender) {
                let m = msg.clone();
                self.entries[i].outbox.push(m);
                assert(self@[i as int].outbox =~= before[i as int].outbox.push(msg@));
                assert(self@ =~= before.update(i as int, enqueued(before[i as int], msg@)));
            }
            assert(self@[i as int] == relayed(s0, sender@, msg@)[i as int]);
            i = i + 1;
        }
        proof {
            assert(self@ =~= relayed(s0, sender@, msg@));
            lemma_relayed_keeps_wf(s0, sender@, msg@);
        }
        Ok(())
    }

    /// Hands out the messages queued for the session of address `addr`, in
    /// the order in which they were queued, and empties its queue.
    pub fn take_pending(&mut self, addr: &[u8]) -> (r: Vec<Message>)
        requires
            old(self).wf(),
        ensures
            r@.map_values(|m: Message| m@) == pending(old(self)@, addr@),
            final(self)@ == drained(old(self)@, addr@),
            final(self).wf(),
    {
        let mut out: Vec<Message> = Vec::new();
        match self.find(addr) {
            Some(i) => {
                let ghost before = self.entries@[i as int]@;
                std::mem::swap(&mut self.entries[i].outbox, &mut out);
                proof {
                    assert(out@.map_values(|m: Message| m@) =~= before.outbox);
                    let s0 = old(self)@;
                    assert(self@[i as int].outbox =~= Seq::<MessageView>::empty());
                    assert(self@ =~= s0.update(i as int, EntryView {
                        addr: s0[i as int].addr,
                        username: s0[i as int].username,
                        outbox: Seq::empty(),
                    }));
                }
            },
            None => {
                assert(out@.map_values(|m: Message| m@) =~= Seq::<MessageView>::empty());
            },
        }
        out
    }

    /// Hands out the messages queued for the session of address `addr` as
    /// frames under `key`, each with its own random initialization vector,
    /// in the order in which they were queued, and empties its queue. If the
    /// random source fails, nothing is handed out and the queue stays.
    pub fn pending_frames(&mut self, key: &[u8], addr: &[u8]) -> (r: Result<Vec<Vec<u8>>, RandomSourceFailed>)
        requires
            old(self).wf(),
            key@.len() == KEY_LEN,
        ensures
            final(self).wf(),
            match r {
                Ok(frames) => {
                    &&& frames@.len() == pending(old(self)@, addr@).len()
                    &&& forall|k: int|
                        0 <= k < frames@.len() ==> (#[trigger] frames@[k])@.len() == MSG_SIZE
                            && frames@[k]@ == frame_of(
                            key@,
                            frames@[k]@.subrange(0, IV_LEN as int),
                            pending(old(self)@, addr@)[k],
                        ) && decodes_to(key@, frames@[k]@, pending(old(self)@, addr@)[k])
                    &&& final(self)@ == drained(old(self)@, addr@)
                },
                Err(_) => final(self)@ == old(self)@ && pending(old(self)@, addr@).len() > 0,
            },
    {
        let n: usize = match self.find(addr) {
            Some(i) => self.entries[i].outbox.len(),
            None => 0,
        };
        let mut ivs: Vec<Vec<u8>> = Vec::new();
        while ivs.len() < n
            invariant
                self@ == old(self)@,
                registry_wf(old(self)@),
                n == pending(old(self)@, addr@).len(),
                ivs@.len() <= n,
                forall|j: int| 0 <= j < ivs@.len() ==> (#[trigger] ivs@[j])@.len() == IV_LEN,
            decreases n - ivs@.len(),
        {
            match random_iv() {
                Some(v) => ivs.push(v),
                None => return Err(RandomSourceFailed),
            }
        }
        let msgs = self.take_pending(addr);
        let ghost want = pending(old(self)@, addr@);
        proof {
            if has_addr(old(self)@, addr@) {
                let i = index_of(old(self)@, addr@);
                assert forall|k: int| 0 <= k < want.len() implies fits(#[trigger] want[k]) by {
                    assert(fits(old(self)@[i].outbox[k]));
                }
            }
            assert(msgs@.len() == want.len());
        }
        let mut out: Vec<Vec<u8>> = Vec::new();
        let mut k: usize = 0;
        while k < msgs.len()
            invariant
                key@.len() == KEY_LEN,
                msgs@.map_values(|m: Message| m@) == want,
                msgs@.len() == n,
                ivs@.len() == n,
                forall|j: int| 0 <= j < ivs@.len() ==> (#[trigger] ivs@[j])@.len() == IV_LEN,
                forall|j: int| 0 <= j < want.len() ==> fits(#[trigger] want[j]),
                k <= msgs@.len(),
                out@.len() == k,
                forall|j: int|
                    0 <= j < k ==> (#[trigger] out@[j])@.len() == MSG_SIZE && out@[j]@ == frame_of(
                        key@,
                        out@[j]@.subrange(0, IV_LEN as int),
                        want[j],
                    ) && decodes_to(key@, out@[j]@, want[j]),
            decreases msgs@.len() - k,
        {
            assert(msgs@[k as int]@ == want[k as int]);
            match encode_with_iv(key, ivs[k].as_slice(), &msgs[k]) {
                Ok(f) => {
                    assert(f@.subrange(0, IV_LEN as int) =~= ivs@[k as int]@);
                    out.push(f);
                },
                Err(_) => {
                    assert(false);
                },
            }
            k = k + 1;
        }
        Ok(out)
    }
}

/// Removing one session keeps addresses unique and queued messages fitting.
proof fn lemma_remove_keeps_wf(s: Seq<EntryView>, i: int)
    requires
        registry_wf(s),
        0 <= i < s.len(),
    ensures
        registry_wf(s.remove(i)),
{
    let t = s.remove(i);
    assert forall|a: int, b: int|
        0 <= a < t.len() && 0 <= b < t.len() && #[trigger] t[a].addr == #[trigger] t[b].addr implies a == b by {
        let a2 = if a < i { a } else { a + 1 };
        let b2 = if b < i { b } else { b + 1 };
        assert(s[a2].addr == s[b2].addr);
    }
    assert forall|a: int, k: int| 0 <= a < t.len() && 0 <= k < t[a].outbox.len() implies fits(
        #[trigger] t[a].outbox[k],
    ) by {
        let a2 = if a < i { a } else { a + 1 };
        assert(fits(s[a2].outbox[k]));
    }
}

/// After removing the session of address `a`, none of that address is left.
proof fn lemma_without_drops(s: Seq<EntryView>, a: Seq<u8>)
    requires
        registry_wf(s),
    ensures
        !has_addr(without(s, a), a),
        registry_wf(without(s, a)),
{
    if has_addr(s, a) {
        let i = index_of(s, a);
        lemma_remove_keeps_wf(s, i);
        let t = s.remove(i);
        assert forall|j: int| 0 <= j < t.len() implies t[j].addr != a by {
            let j2 = if j < i { j } else { j + 1 };
            assert(s[j2].addr != s[i].addr);
        }
    }
}

/// Relaying a message that fits keeps the registry well formed.
proof fn lemma_relayed_keeps_wf(s: Seq<EntryView>, sender: Seq<u8>, m: MessageView)
    requires
        registry_wf(s),
        fits(m),
    ensures
        registry_wf(relayed(s, sender, m)),
{
    let t = relayed(s, sender, m);
    assert forall|a: int, b: int|
        0 <= a < t.len() && 0 <= b < t.len() && #[trigger] t[a].addr == #[trigger] t[b].addr implies a == b by {
        assert(s[a].addr == s[b].addr);
    }
    assert forall|a: int, k: int| 0 <= a < t.len() && 0 <= k < t[a].outbox.len() implies fits(
        #[trigger] t[a].outbox[k],
    ) by {
        if k < s[a].outbox.len() {
            assert(fits(s[a].outbox[k]));
        }
    }
}

/// The registry after relaying each `(sender, message)` of `batch`, in order.
pub open spec fn relayed_all(s: Seq<EntryView>, batch: Seq<(Seq<u8>, MessageView)>) -> Seq<EntryView>
    decreases batch.len(),
{
    if batch.len() == 0 {
        s
    } else {
        let last = batch.last();
        relayed(relayed_all(s, batch.drop_last()), last.0, last.1)
    }
}

/// The messages of `batch` that a session of address `a` is owed: those
/// that other sessions sent, in the order of the batch.
pub open spec fn delivered_to(batch: Seq<(Seq<u8>, MessageView)>, a: Seq<u8>) -> Seq<MessageView>
    decreases batch.len(),
{
    if batch.len() == 0 {
        Seq::empty()
    } else {
        let rest = delivered_to(batch.drop_last(), a);
        if batch.last().0 != a {
            rest.push(batch.last().1)
        } else {
            rest
        }
    }
}

/// Broadcast exclusion: relaying `m` from `sender` queues `m` for every
/// other session and nothing for the sender, and leaves addresses and
/// usernames as they were.
pub proof fn lemma_sender_excluded(s: Seq<EntryView>, sender: Seq<u8>, m: MessageView)
    ensures
        relayed(s, sender, m).len() == s.len(),
        forall|i: int|
            0 <= i < s.len() ==> {
                let e = #[trigger] relayed(s, sender, m)[i];
                &&& e.addr == s[i].addr
                &&& e.username == s[i].username
                &&& s[i].addr == sender ==> e.outbox == s[i].outbox
                &&& s[i].addr != sender ==> e.outbox == s[i].outbox.push(m)
            },
{
}

/// Ordering: after a batch of messages is relayed, each session's queue is
/// what it held before followed by the messages that other sessions sent,
/// in the order in which the relay received them.
pub proof fn lemma_relay_order(s: Seq<EntryView>, batch: Seq<(Seq<u8>, MessageView)>)
    ensures
        relayed_all(s, batch).len() == s.len(),
        forall|i: int|
            0 <= i < s.len() ==> (#[trigger] relayed_all(s, batch)[i]).addr == s[i].addr
                && relayed_all(s, batch)[i].outbox == s[i].outbox + delivered_to(batch, s[i].addr),
    decreases batch.len(),
{
    if batch.len() == 0 {
        assert forall|i: int| 0 <= i < s.len() implies (#[trigger] relayed_all(s, batch)[i]).addr
            == s[i].addr && relayed_all(s, batch)[i].outbox == s[i].outbox + delivered_to(
            batch,
            s[i].addr,
        ) by {
            assert(s[i].outbox + Seq::<MessageView>::empty() =~= s[i].outbox);
        }
    } else {
        let prev = batch.drop_last();
        lemma_relay_order(s, prev);
        let t = relayed_all(s, prev);
        assert forall|i: int| 0 <= i < s.len() implies (#[trigger] relayed_all(s, batch)[i]).addr
            == s[i].addr && relayed_all(s, batch)[i].outbox == s[i].outbox + delivered_to(
            batch,
            s[i].addr,
        ) by {
            assert(t[i].outbox == s[i].outbox + delivered_to(prev, s[i].addr));
            if batch.last().0 != s[i].addr {
                assert(t[i].outbox.push(batch.last().1) =~= s[i].outbox + delivered_to(
                    prev,
                    s[i].addr,
                ).push(batch.last().1));
            }
        }
    }
}

/// Two messages relayed one after the other reach every session that sent
/// neither in that same order, each queued once.
pub proof fn lemma_two_messages_in_order(
    s: Seq<EntryView>,
    a1: Seq<u8>,
    m1: MessageView,
    a2: Seq<u8>,
    m2: MessageView,
)
    ensures
        forall|i: int|
            0 <= i < s.len() && s[i].addr != a1 && s[i].addr != a2 ==> (#[trigger] relayed(
                relayed(s, a1, m1),
                a2,
                m2,
            )[i]).outbox == s[i].outbox + seq![m1, m2],
{
    assert forall|i: int| 0 <= i < s.len() && s[i].addr != a1 && s[i].addr != a2 implies (
    #[trigger] relayed(relayed(s, a1, m1), a2, m2)[i]).outbox == s[i].outbox + seq![m1, m2] by {
        assert(s[i].outbox.push(m1).push(m2) =~= s[i].outbox + seq![m1, m2]);
    }
}

} // verus!
