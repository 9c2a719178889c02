//! Messages, the line protocol's message kinds, and the TTL-bounded queue.

use crate::platform::{new_uuid, wall_clock};
use vstd::prelude::*;

verus! {

/// A message in the queue. Times are Unix milliseconds.
#[derive(Debug, PartialEq)]
pub struct Message {
    /// Unique message id.
    pub id: String,
    /// Session id of the sender.
    pub from: String,
    pub content: String,
    /// When the message was created.
    pub timestamp: u64,
    /// When the message expires.
    pub expires_at: u64,
}

impl Clone for Message {
    fn clone(&self) -> (r: Self)
        ensures
            r == *self,
    {
        Message {
            id: self.id.clone(),
            from: self.from.clone(),
            content: self.content.clone(),
            timestamp: self.timestamp,
            expires_at: self.expires_at,
        }
    }
}

/// `now + ttl`, held at the largest `u64` where the sum would not fit.
pub open spec fn expiry(now: u64, ttl: u64) -> u64 {
    if now + ttl > u64::MAX {
        u64::MAX
    } else {
        (now + ttl) as u64
    }
}

/// A message is live at `now` while `now` is before its expiry.
pub open spec fn is_live(m: Message, now: u64) -> bool {
    now < m.expires_at
}

/// The current Unix time in milliseconds (zero for a clock set before the
/// epoch, the largest `u64` past its range).
pub fn current_millis() -> u64 {
    match wall_clock() {
        Some(t) => {
            if t.0 >= 18446744073709551 {
                u64::MAX
            } else {
                assert(t.0 * 1000 <= 18446744073709550000) by (nonlinear_arith)
                    requires t.0 < 18446744073709551;
                t.0 * 1000 + t.1 as u64
            }
        },
        None => 0,
    }
}

/// Whole seconds from the creation of `m` to `now` (zero if `now` is earlier).
pub open spec fn age_at(m: Message, now: u64) -> int {
    if now >= m.timestamp {
        (now - m.timestamp) / 1000
    } else {
        0
    }
}

impl Message {
    /// A message created now, expiring `ttl_ms` milliseconds later.
    pub fn new(from: String, content: String, ttl_ms: u64) -> (r: Self)
        ensures
            r.from == from,
            r.content == content,
            r.expires_at == expiry(r.timestamp, ttl_ms),
    {
        let id = new_uuid();
        let now = current_millis();
        Self::stamped(id, from, content, now, ttl_ms)
    }

    /// The message with the given id, created at `now`.
    pub fn stamped(id: String, from: String, content: String, now: u64, ttl_ms: u64) -> (r: Self)
        ensures
            r == (Message { id, from, content, timestamp: now, expires_at: expiry(now, ttl_ms) }),
    {
        let expires_at = if ttl_ms > u64::MAX - now {
            u64::MAX
        } else {
            now + ttl_ms
        };
        Message { id, from, content, timestamp: now, expires_at }
    }

    /// Whether the message has expired at `now`.
    pub fn is_expired_at(&self, now: u64) -> (r: bool)
        ensures
            r == !is_live(*self, now),
    {
        now >= self.expires_at
    }

    /// Whether the message has expired by the current time.
    pub fn is_expired(&self) -> (r: bool)
        ensures
            exists|now: u64| r == !is_live(*self, now),
    {
        self.is_expired_at(current_millis())
    }

    /// Whole seconds from creation to `now` (zero if `now` is earlier).
    pub fn age_seconds_at(&self, now: u64) -> (r: u64)
        ensures
            r == age_at(*self, now),
    {
        if now >= self.timestamp {
            (now - self.timestamp) / 1000
        } else {
            0
        }
    }

    /// Whole seconds since creation.
    pub fn age_seconds(&self) -> (r: u64)
        ensures
            exists|now: u64| r == age_at(*self, now),
    {
        self.age_seconds_at(current_millis())
    }
}

/// The messages of the line protocol.
#[derive(Debug)]
#[allow(inconsistent_fields)]
pub enum ProtocolMessage {
    /// Client authentication request.
    Auth { code: String, client_id: String },
    /// Authentication response.
    AuthResponse { success: bool, message: String, server_id: Option<String> },
    /// A client sends a message.
    Send { content: String },
    /// The server hands a message to a client.
    Broadcast { message: Message },
    /// Request for the live messages, optionally only those created at or
    /// after `since` (Unix milliseconds).
    Receive { since: Option<u64> },
    /// The live messages.
    ReceiveResponse { messages: Vec<Message> },
    Ping,
    Pong,
    Error { message: String },
}

/// The messages of `s` that are live at `now`, in order.
pub open spec fn live(s: Seq<Message>, now: u64) -> Seq<Message> {
    s.filter(|m: Message| now < m.expires_at)
}

/// The messages of `s` created at or after `since`, in order.
pub open spec fn created_since(s: Seq<Message>, since: u64) -> Seq<Message> {
    s.filter(|m: Message| m.timestamp >= since)
}

/// The oldest messages dropped so that one more fits under `max_size`.
pub open spec fn make_room(s: Seq<Message>, max_size: nat) -> Seq<Message> {
    if s.len() >= max_size {
        s.subrange(s.len() - max_size + 1, s.len() as int)
    } else {
        s
    }
}

/// The queue after pushing `m` at `now`: expired messages gone, the oldest
/// dropped to make room, `m` appended.
pub open spec fn pushed(s: Seq<Message>, now: u64, max_size: nat, m: Message) -> Seq<Message> {
    make_room(live(s, now), max_size).push(m)
}

proof fn lemma_live_push(s: Seq<Message>, m: Message, now: u64)
    ensures
        live(s.push(m), now) == if now < m.expires_at {
            live(s, now).push(m)
        } else {
            live(s, now)
        },
{
    s.lemma_filter_push(m, |x: Message| now < x.expires_at);
}

proof fn lemma_since_push(s: Seq<Message>, m: Message, since: u64)
    ensures
        created_since(s.push(m), since) == if m.timestamp >= since {
            created_since(s, since).push(m)
        } else {
            created_since(s, since)
        },
{
    s.lemma_filter_push(m, |x: Message| x.timestamp >= since);
}

/// Every message of `live(s, now)` is live at `now`.
pub proof fn lemma_live_only(s: Seq<Message>, now: u64)
    ensures
        forall|i: int| 0 <= i < live(s, now).len() ==> is_live(#[trigger] live(s, now)[i], now),
{
    assert forall|i: int| 0 <= i < live(s, now).len() implies is_live(#[trigger] live(s, now)[i], now) by {
        s.lemma_filter_pred(|m: Message| now < m.expires_at, i);
    }
}

/// A copy of a list of messages.
fn copy_messages(v: &Vec<Message>) -> (r: Vec<Message>)
    ensures
        r@ == v@,
{
    let mut out: Vec<Message> = Vec::new();
    let mut i: usize = 0;
    while i < v.len()
        invariant
            i <= v@.len(),
            out@ =~= v@.subrange(0, i as int),
        decreases v@.len() - i,
    {
        out.push(v[i].clone());
        i = i + 1;
    }
    out
}

/// In-memory FIFO of messages with a time to live and a bound on its length.
pub struct MessageQueue {
    messages: Vec<Message>,
    ttl: u64,
    max_size: usize,
}

impl View for MessageQueue {
    type V = Seq<Message>;

    closed spec fn view(&self) -> Seq<Message> {
        self.messages@
    }
}

impl MessageQueue {
    /// Time to live of new messages, in milliseconds.
    pub closed spec fn ttl_ms(&self) -> u64 {
        self.ttl
    }

    /// The most messages the queue holds.
    pub closed spec fn capacity(&self) -> nat {
        self.max_size as nat
    }

    /// The queue holds at most its capacity, which is at least one.
    pub open spec fn wf(&self) -> bool {
        &&& self.capacity() >= 1
        &&& self@.len() <= self.capacity()
    }

    /// An empty queue.
    pub fn new(ttl_ms: u64, max_size: usize) -> (r: Self)
        requires
            max_size >= 1,
        ensures
            r.wf(),
            r@ == Seq::<Message>::empty(),
            r.ttl_ms() == ttl_ms,
            r.capacity() == max_size,
    {
        MessageQueue { messages: Vec::new(), ttl: ttl_ms, max_size }
    }

    /// Remove the messages that have expired at `now`.
    fn scrub_at(&mut self, now: u64)
        requires
            old(self).wf(),
        ensures
            final(self).wf(),
            final(self)@ == live(old(self)@, now),
            final(self).ttl_ms() == old(self).ttl_ms(),
            final(self).capacity() == old(self).capacity(),
    {
        let ghost s = self.messages@;
        let mut out: Vec<Message> = Vec::new();
        let mut i: usize = 0;
        while i < self.messages.len()
            invariant
                self.messages@ == s,
                i <= s.len(),
                out@ == live(s.subrange(0, i as int), now),
            decreases s.len() - i,
        {
            let m = self.messages[i].clone();
            proof {
                assert(s.subrange(0, i + 1) =~= s.subrange(0, i as int).push(m));
                lemma_live_push(s.subrange(0, i as int), m, now);
            }
            if !m.is_expired_at(now) {
                out.push(m);
            }
            i = i + 1;
        }
        assert(s.subrange(0, s.len() as int) =~= s);
        proof {
            s.lemma_filter_len(|m: Message| now < m.expires_at);
        }
        self.messages = out;
    }

    /// Add a message from `from` created at `now` under the id `id`, after
    /// removing expired messages and dropping the oldest to keep the bound.
    pub fn push_at(&mut self, id: String, from: String, content: String, now: u64) -> (r: Message)
        requires
            old(self).wf(),
        ensures
            final(self).wf(),
            r == (Message { id, from, content, timestamp: now, expires_at: expiry(now, old(self).ttl_ms()) }),
            final(self)@ == pushed(old(self)@, now, old(self).capacity(), r),
            final(self)@.len() <= final(self).capacity(),
            final(self).ttl_ms() == old(self).ttl_ms(),
            final(self).capacity() == old(self).capacity(),
    {
        let message = Message::stamped(id, from, content, now, self.ttl);
        self.scrub_at(now);
        let n = self.messages.len();
        if n >= self.max_size {
            let start = n - self.max_size + 1;
            let ghost s = self.messages@;
            let mut kept: Vec<Message> = Vec::new();
            let mut i: usize = start;
            while i < n
                invariant
                    self.messages@ == s,
                    n == s.len(),
                    start <= i <= n,
                    kept@ =~= s.subrange(start as int, i as int),
                decreases n - i,
            {
                kept.push(self.messages[i].clone());
                i = i + 1;
            }
            self.messages = kept;
        }
        self.messages.push(message.clone());
        message
    }

    /// Add a message from `from` created now.
    pub fn push(&mut self, from: String, content: String) -> (r: Message)
        requires
            old(self).wf(),
        ensures
            final(self).wf(),
            r.from == from,
            r.content == content,
            r.expires_at == expiry(r.timestamp, old(self).ttl_ms()),
            final(self)@ == pushed(old(self)@, r.timestamp, old(self).capacity(), r),
            final(self)@.len() <= final(self).capacity(),
            final(self).ttl_ms() == old(self).ttl_ms(),
            final(self).capacity() == old(self).capacity(),
    {
        let id = new_uuid();
        let now = current_millis();
        self.push_at(id, from, content, now)
    }

    /// The messages live at `now`, oldest first; expired ones are removed.
    pub fn get_all_at(&mut self, now: u64) -> (r: Vec<Message>)
        requires
            old(self).wf(),
        ensures
            final(self).wf(),
            final(self)@ == live(old(self)@, now),
            r@ == final(self)@,
            forall|i: int| 0 <= i < r@.len() ==> is_live(#[trigger] r@[i], now),
            final(self).ttl_ms() == old(self).ttl_ms(),
            final(self).capacity() == old(self).capacity(),
    {
        self.scrub_at(now);
        proof {
            lemma_live_only(old(self)@, now);
        }
        copy_messages(&self.messages)
    }

    /// The messages live now, oldest first.
    pub fn get_all(&mut self) -> (r: Vec<Message>)
        requires
            old(self).wf(),
        ensures
            final(self).wf(),
            exists|now: u64|
                final(self)@ == live(old(self)@, now) && r@ == final(self)@ && forall|i: int|
                    0 <= i < r@.len() ==> is_live(#[trigger] r@[i], now),
            final(self).ttl_ms() == old(self).ttl_ms(),
            final(self).capacity() == old(self).capacity(),
    {
        let now = current_millis();
        self.get_all_at(now)
    }

    /// The messages live at `now` and created at or after `since`, oldest
    /// first; expired ones are removed.
    pub fn get_since_at(&mut self, since: u64, now: u64) -> (r: Vec<Message>)
        requires
            old(self).wf(),
        ensures
            final(self).wf(),
            final(self)@ == live(old(self)@, now),
            r@ == created_since(final(self)@, since),
            forall|i: int| 0 <= i < r@.len() ==> is_live(#[trigger] r@[i], now),
            final(self).ttl_ms() == old(self).ttl_ms(),
            final(self).capacity() == old(self).capacity(),
    {
        self.scrub_at(now);
        let ghost s = self.messages@;
        let mut out: Vec<Message> = Vec::new();
        let mut i: usize = 0;
        while i < self.messages.len()
            invariant
                self.messages@ == s,
                i <= s.len(),
                out@ == created_since(s.subrange(0, i as int), since),
            decreases s.len() - i,
        {
            let m = self.messages[i].clone();
            proof {
                assert(s.subrange(0, i + 1) =~= s.subrange(0, i as int).push(m));
                lemma_since_push(s.subrange(0, i as int), m, since);
            }
            if m.timestamp >= since {
                out.push(m);
            }
            i = i + 1;
        }
        proof {
            assert(s.subrange(0, s.len() as int) =~= s);
            lemma_live_only(old(self)@, now);
            assert forall|k: int| 0 <= k < out@.len() implies is_live(#[trigger] out@[k], now) by {
                s.lemma_filter_contains_rev(|m: Message| m.timestamp >= since, out@[k]);
                assert(out@.contains(out@[k]));
            }
        }
        out
    }

    /// The messages live now and created at or after `since`.
    pub fn get_since(&mut self, since: u64) -> (r: Vec<Message>)
        requires
            old(self).wf(),
        ensures
            final(self).wf(),
            exists|now: u64|
                final(self)@ == live(old(self)@, now) && r@ == created_since(final(self)@, since)
                    && forall|i: int| 0 <= i < r@.len() ==> is_live(#[trigger] r@[i], now),
            final(self).ttl_ms() == old(self).ttl_ms(),
            final(self).capacity() == old(self).capacity(),
    {
        let now = current_millis();
        self.get_since_at(since, now)
    }

    /// The number of messages live at `now`; expired ones are removed.
    pub fn len_at(&mut self, now: u64) -> (r: usize)
        requires
            old(self).wf(),
        ensures
            final(self).wf(),
            final(self)@ == live(old(self)@, now),
            r == final(self)@.len(),
            r <= final(self).capacity(),
            final(self).ttl_ms() == old(self).ttl_ms(),
            final(self).capacity() == old(self).capacity(),
    {
        self.scrub_at(now);
        self.messages.len()
    }

    /// The number of messages live now.
    pub fn len(&mut self) -> (r: usize)
        requires
            old(self).wf(),
        ensures
            final(self).wf(),
            exists|now: u64| final(self)@ == live(old(self)@, now),
            r == final(self)@.len(),
            r <= final(self).capacity(),
            final(self).ttl_ms() == old(self).ttl_ms(),
            final(self).capacity() == old(self).capacity(),
    {
        let now = current_millis();
        self.len_at(now)
    }

    /// Remove every message.
    pub fn clear(&mut self)
        requires
            old(self).wf(),
        ensures
            final(self).wf(),
            final(self)@ == Seq::<Message>::empty(),
            final(self).ttl_ms() == old(self).ttl_ms(),
            final(self).capacity() == old(self).capacity(),
    {
        self.messages = Vec::new();
    }
}

} // verus!
