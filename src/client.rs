//! Sessions and the registry that fans messages out to them.
//!
//! Each session holds the messages waiting for its wire writer. A session
//! whose writer has gone is marked closed; a broadcast that reaches a closed,
//! authenticated session removes it.

use crate::message::{Message, ProtocolMessage};
use crate::platform::new_uuid;
use crate::text::text_eq;
use vstd::prelude::*;

verus! {

/// Why a message could not be handed to a session.
#[derive(Debug, Clone, Copy, PartialEq, Eq, Structural)]
pub enum ClientError {
    /// No session has that id.
    NotFound,
    /// The session's writer is gone.
    Closed,
}

/// What a session is, for contracts.
pub struct SessionView {
    pub id: Seq<char>,
    pub authenticated: bool,
    /// Messages waiting for the writer, oldest first.
    pub outbound: Seq<ProtocolMessage>,
    /// Whether the writer still takes messages.
    pub open: bool,
}

/// A connected client session.
pub struct ClientConnection {
    pub id: String,
    pub authenticated: bool,
    outbound: Vec<ProtocolMessage>,
    open: bool,
}

impl View for ClientConnection {
    type V = SessionView;

    closed spec fn view(&self) -> SessionView {
        SessionView {
            id: self.id@,
            authenticated: self.authenticated,
            outbound: self.outbound@,
            open: self.open,
        }
    }
}

/// `c` with a broadcast of `m` waiting at the end of its outbound queue.
pub open spec fn delivered(c: SessionView, m: Message) -> SessionView {
    SessionView { outbound: c.outbound.push(ProtocolMessage::Broadcast { message: m }), ..c }
}

impl ClientConnection {
    /// A new, unauthenticated, open session with a fresh id.
    pub fn new() -> (r: Self)
        ensures
            !r@.authenticated,
            r@.open,
            r@.outbound == Seq::<ProtocolMessage>::empty(),
    {
        Self::with_id(new_uuid())
    }

    /// A new, unauthenticated, open session with the given id.
    pub fn with_id(id: String) -> (r: Self)
        ensures
            r@ == (SessionView { id: id@, authenticated: false, outbound: Seq::empty(), open: true }),
    {
        ClientConnection { id, authenticated: false, outbound: Vec::new(), open: true }
    }

    /// Queue a message for the session's writer.
    pub fn send(&mut self, message: ProtocolMessage) -> (r: Result<(), ClientError>)
        ensures
            old(self)@.open ==> r == Ok::<(), ClientError>(()) && final(self)@ == (SessionView {
                outbound: old(self)@.outbound.push(message),
                ..old(self)@
            }),
            !old(self)@.open ==> r == Err::<(), ClientError>(ClientError::Closed) && final(self)@ == old(self)@,
    {
        if self.open {
            self.outbound.push(message);
            Ok(())
        } else {
            Err(ClientError::Closed)
        }
    }

    /// Queue a broadcast of `message` for the session's writer.
    pub fn broadcast(&mut self, message: Message) -> (r: Result<(), ClientError>)
        ensures
            old(self)@.open ==> r == Ok::<(), ClientError>(()) && final(self)@ == delivered(old(self)@, message),
            !old(self)@.open ==> r == Err::<(), ClientError>(ClientError::Closed) && final(self)@ == old(self)@,
    {
        self.send(ProtocolMessage::Broadcast { message })
    }

    /// Hand the waiting messages to the writer, oldest first.
    pub fn take_outbound(&mut self) -> (r: Vec<ProtocolMessage>)
        ensures
            r@ == old(self)@.outbound,
            final(self)@ == (SessionView { outbound: Seq::empty(), ..old(self)@ }),
    {
        let mut taken: Vec<ProtocolMessage> = Vec::new();
        std::mem::swap(&mut taken, &mut self.outbound);
        taken
    }

    /// Mark the writer as gone.
    pub fn close(&mut self)
        ensures
            final(self)@ == (SessionView { open: false, ..old(self)@ }),
    {
        self.open = false;
    }

    /// Whether the writer still takes messages.
    pub fn is_open(&self) -> (r: bool)
        ensures
            r == self@.open,
    {
        self.open
    }
}

/// The sessions after a broadcast of `m`: each authenticated open session
/// gets the broadcast, each authenticated closed one is removed, the others
/// stay as they are; order is kept.
pub open spec fn fanout(s: Seq<SessionView>, m: Message) -> Seq<SessionView>
    decreases s.len(),
{
    if s.len() == 0 {
        seq![]
    } else {
        let rest = fanout(s.drop_last(), m);
        let c = s.last();
        if !c.authenticated {
            rest.push(c)
        } else if c.open {
            rest.push(delivered(c, m))
        } else {
            rest
        }
    }
}

/// No two sessions share an id.
pub open spec fn ids_unique(s: Seq<SessionView>) -> bool {
    forall|i: int, j: int| 0 <= i < s.len() && 0 <= j < s.len() && i != j ==> s[i].id != s[j].id
}

/// Whether some session has the id.
pub open spec fn has_id(s: Seq<SessionView>, id: Seq<char>) -> bool {
    exists|i: int| 0 <= i < s.len() && (#[trigger] s[i]).id == id
}

/// The position of the session with the given id.
pub open spec fn index_of(s: Seq<SessionView>, id: Seq<char>) -> int {
    choose|i: int| 0 <= i < s.len() && (#[trigger] s[i]).id == id
}

/// The sessions after `m` is queued for the session with the given id; an
/// unknown id or a session whose writer is gone leaves them as they are.
pub open spec fn sent_to(s: Seq<SessionView>, id: Seq<char>, m: ProtocolMessage) -> Seq<SessionView> {
    if has_id(s, id) && s[index_of(s, id)].open {
        s.update(index_of(s, id), SessionView { outbound: s[index_of(s, id)].outbound.push(m), ..s[index_of(s, id)] })
    } else {
        s
    }
}

/// What queueing a message for the session with the given id reports: an
/// unknown id, a session whose writer is gone, or success.
pub open spec fn send_result(s: Seq<SessionView>, id: Seq<char>) -> Result<(), ClientError> {
    if !has_id(s, id) {
        Err(ClientError::NotFound)
    } else if s[index_of(s, id)].open {
        Ok(())
    } else {
        Err(ClientError::Closed)
    }
}

/// The sessions after the one with the given id is marked authenticated.
pub open spec fn authenticated_as(s: Seq<SessionView>, id: Seq<char>) -> Seq<SessionView> {
    if has_id(s, id) {
        s.update(index_of(s, id), SessionView { authenticated: true, ..s[index_of(s, id)] })
    } else {
        s
    }
}

/// With unique ids, the session with an id is the one found by `index_of`.
pub proof fn lemma_index_of(s: Seq<SessionView>, id: Seq<char>, i: int)
    requires
        ids_unique(s),
        0 <= i < s.len(),
        s[i].id == id,
    ensures
        index_of(s, id) == i,
{
    assert(has_id(s, id));
}

/// The number of authenticated sessions.
pub open spec fn authenticated_in(s: Seq<SessionView>) -> nat
    decreases s.len(),
{
    if s.len() == 0 {
        0
    } else {
        authenticated_in(s.drop_last()) + if s.last().authenticated {
            1nat
        } else {
            0nat
        }
    }
}

/// The ids of the authenticated sessions, in order.
pub open spec fn authenticated_ids(s: Seq<SessionView>) -> Seq<Seq<char>>
    decreases s.len(),
{
    if s.len() == 0 {
        seq![]
    } else if s.last().authenticated {
        authenticated_ids(s.drop_last()).push(s.last().id)
    } else {
        authenticated_ids(s.drop_last())
    }
}

/// Every session left after a broadcast carries the id of a session that was
/// there before and was not an authenticated closed one.
proof fn lemma_fanout_ids(s: Seq<SessionView>, m: Message)
    ensures
        forall|k: int|
            0 <= k < fanout(s, m).len() ==> exists|j: int|
                0 <= j < s.len() && (#[trigger] fanout(s, m)[k]).id == (#[trigger] s[j]).id && (s[j].authenticated
                    ==> s[j].open),
    decreases s.len(),
{
    if s.len() > 0 {
        let p = s.drop_last();
        lemma_fanout_ids(p, m);
        assert forall|k: int| 0 <= k < fanout(s, m).len() implies exists|j: int|
            0 <= j < s.len() && (#[trigger] fanout(s, m)[k]).id == (#[trigger] s[j]).id && (s[j].authenticated
                ==> s[j].open) by {
            if k < fanout(p, m).len() {
                let j = choose|j: int|
                    0 <= j < p.len() && (#[trigger] fanout(p, m)[k]).id == (#[trigger] p[j]).id && (p[j].authenticated
                        ==> p[j].open);
                assert(s[j] == p[j]);
            } else {
                assert(fanout(s, m)[k].id == s[s.len() - 1].id);
            }
        }
    }
}

/// A broadcast keeps ids unique.
proof fn lemma_fanout_unique(s: Seq<SessionView>, m: Message)
    requires
        ids_unique(s),
    ensures
        ids_unique(fanout(s, m)),
    decreases s.len(),
{
    if s.len() > 0 {
        let p = s.drop_last();
        assert(ids_unique(p));
        lemma_fanout_unique(p, m);
        lemma_fanout_ids(p, m);
        let rest = fanout(p, m);
        assert forall|k: int| 0 <= k < rest.len() implies (#[trigger] rest[k]).id != s.last().id by {
            let j = choose|j: int|
                0 <= j < p.len() && (#[trigger] rest[k]).id == (#[trigger] p[j]).id && (p[j].authenticated ==> p[j].open);
            assert(p[j] == s[j]);
        }
    }
}

/// An authenticated open session receives the broadcast and stays; any other
/// session that was not authenticated stays unchanged.
proof fn lemma_fanout_keeps(s: Seq<SessionView>, m: Message, j: int)
    requires
        0 <= j < s.len(),
        s[j].authenticated ==> s[j].open,
    ensures
        exists|k: int|
            0 <= k < fanout(s, m).len() && #[trigger] fanout(s, m)[k] == if s[j].authenticated {
                delivered(s[j], m)
            } else {
                s[j]
            },
    decreases s.len(),
{
    let p = s.drop_last();
    if j == s.len() - 1 {
        let k = fanout(p, m).len() as int;
        assert(fanout(s, m)[k] == if s[j].authenticated {
            delivered(s[j], m)
        } else {
            s[j]
        });
    } else {
        assert(p[j] == s[j]);
        lemma_fanout_keeps(p, m, j);
        let k = choose|k: int|
            0 <= k < fanout(p, m).len() && #[trigger] fanout(p, m)[k] == if p[j].authenticated {
                delivered(p[j], m)
            } else {
                p[j]
            };
        assert(fanout(s, m)[k] == fanout(p, m)[k]);
    }
}

/// Broadcast fan-out: after a broadcast of `m`, every authenticated session
/// either has `m` at the end of its outbound queue, or, if its writer was
/// gone, has been removed from the registry.
pub proof fn lemma_broadcast_fanout(s: Seq<SessionView>, m: Message, j: int)
    requires
        ids_unique(s),
        0 <= j < s.len(),
        s[j].authenticated,
    ensures
        s[j].open ==> exists|k: int| 0 <= k < fanout(s, m).len() && #[trigger] fanout(s, m)[k] == delivered(s[j], m),
        !s[j].open ==> !has_id(fanout(s, m), s[j].id),
{
    if s[j].open {
        lemma_fanout_keeps(s, m, j);
    } else {
        lemma_fanout_ids(s, m);
        if has_id(fanout(s, m), s[j].id) {
            let k = choose|k: int| 0 <= k < fanout(s, m).len() && (#[trigger] fanout(s, m)[k]).id == s[j].id;
            let i = choose|i: int|
                0 <= i < s.len() && (#[trigger] fanout(s, m)[k]).id == (#[trigger] s[i]).id && (s[i].authenticated
                    ==> s[i].open);
            assert(i != j);
        }
    }
}

/// Order per session: after broadcasts of `m1` and then `m2`, an
/// authenticated session whose writer stays has both at the end of its
/// outbound queue, `m1` first.
pub proof fn lemma_broadcast_order(s: Seq<SessionView>, m1: Message, m2: Message, j: int)
    requires
        0 <= j < s.len(),
        s[j].authenticated,
        s[j].open,
    ensures
        exists|k: int|
            0 <= k < fanout(fanout(s, m1), m2).len() && (#[trigger] fanout(fanout(s, m1), m2)[k]) == (SessionView {
                outbound: s[j].outbound + seq![
                    ProtocolMessage::Broadcast { message: m1 },
                    ProtocolMessage::Broadcast { message: m2 },
                ],
                ..s[j]
            }),
{
    lemma_fanout_keeps(s, m1, j);
    let k1 = choose|k: int| 0 <= k < fanout(s, m1).len() && #[trigger] fanout(s, m1)[k] == delivered(s[j], m1);
    lemma_fanout_keeps(fanout(s, m1), m2, k1);
    let k2 = choose|k: int|
        0 <= k < fanout(fanout(s, m1), m2).len() && #[trigger] fanout(fanout(s, m1), m2)[k] == delivered(
            fanout(s, m1)[k1],
            m2,
        );
    assert(delivered(delivered(s[j], m1), m2).outbound =~= s[j].outbound + seq![
        ProtocolMessage::Broadcast { message: m1 },
        ProtocolMessage::Broadcast { message: m2 },
    ]);
}

/// The registry of live sessions.
pub struct ClientManager {
    clients: Vec<ClientConnection>,
}

impl View for ClientManager {
    type V = Seq<SessionView>;

    closed spec fn view(&self) -> Seq<SessionView> {
        self.clients@.map_values(|c: ClientConnection| c@)
    }
}

impl ClientManager {
    /// Session ids are unique.
    pub open spec fn wf(&self) -> bool {
        ids_unique(self@)
    }

    /// An empty registry.
    pub fn new() -> (r: Self)
        ensures
            r.wf(),
            r@ == Seq::<SessionView>::empty(),
    {
        let r = ClientManager { clients: Vec::new() };
        assert(r@ =~= Seq::<SessionView>::empty());
        r
    }

    /// The position of the session with the given id.
    fn position(&self, id: &str) -> (r: Option<usize>)
        requires
            self.wf(),
        ensures
            r matches Some(i) ==> i < self@.len() && self@[i as int].id == id@,
            r is None ==> !has_id(self@, id@),
    {
        let mut i: usize = 0;
        while i < self.clients.len()
            invariant
                i <= self.clients@.len(),
                self@.len() == self.clients@.len(),
                forall|j: int| 0 <= j < i ==> self@[j].id != id@,
            decreases self.clients@.len() - i,
        {
            if text_eq(self.clients[i].id.as_str(), id) {
                return Some(i);
            }
            i = i + 1;
        }
        None
    }

    /// Register a session and return its id; a session with the same id is
    /// replaced.
    pub fn add_client(&mut self, client: ClientConnection) -> (r: String)
        requires
            old(self).wf(),
        ensures
            final(self).wf(),
            r@ == client@.id,
            has_id(old(self)@, client@.id) ==> exists|i: int|
                0 <= i < old(self)@.len() && old(self)@[i].id == client@.id && final(self)@ == old(self)@.update(
                    i,
                    client@,
                ),
            !has_id(old(self)@, client@.id) ==> final(self)@ == old(self)@.push(client@),
    {
        let id = client.id.clone();
        let ghost s = self@;
        match self.position(id.as_str()) {
            Some(i) => {
                self.clients.remove(i);
                self.clients.insert(i, client);
                assert(self@ =~= s.update(i as int, client@));
            },
            None => {
                self.clients.push(client);
                assert(self@ =~= s.push(client@));
            },
        }
        id
    }

    /// Remove the session with the given id, if any.
    pub fn remove_client(&mut self, id: &str)
        requires
            old(self).wf(),
        ensures
            final(self).wf(),
            !has_id(final(self)@, id@),
            !has_id(old(self)@, id@) ==> final(self)@ == old(self)@,
            has_id(old(self)@, id@) ==> exists|i: int|
                0 <= i < old(self)@.len() && old(self)@[i].id == id@ && final(self)@ == old(self)@.remove(i),
    {
        let ghost s = self@;
        match self.position(id) {
            Some(i) => {
                self.clients.remove(i);
                assert(self@ =~= s.remove(i as int));
            },
            None => {},
        }
    }

    /// Mark the session with the given id as authenticated.
    pub fn authenticate_client(&mut self, id: &str) -> (r: Result<(), ClientError>)
        requires
            old(self).wf(),
        ensures
            final(self).wf(),
            r is Err <==> !has_id(old(self)@, id@),
            r is Err ==> r == Err::<(), ClientError>(ClientError::NotFound) && final(self)@ == old(self)@,
            final(self)@ == authenticated_as(old(self)@, id@),
            r is Ok ==> exists|i: int|
                0 <= i < old(self)@.len() && old(self)@[i].id == id@ && final(self)@ == old(self)@.update(
                    i,
                    SessionView { authenticated: true, ..old(self)@[i] },
                ),
    {
        let ghost s = self@;
        match self.position(id) {
            Some(i) => {
                let mut c = self.clients.remove(i);
                c.authenticated = true;
                let ghost cv = c@;
                self.clients.insert(i, c);
                assert(self@ =~= s.update(i as int, cv));
                proof {
                    lemma_index_of(s, id@, i as int);
                }
                Ok(())
            },
            None => Err(ClientError::NotFound),
        }
    }

    /// Queue a message for the session with the given id.
    pub fn send_to_client(&mut self, id: &str, message: ProtocolMessage) -> (r: Result<(), ClientError>)
        requires
            old(self).wf(),
        ensures
            final(self).wf(),
            !has_id(old(self)@, id@) ==> r == Err::<(), ClientError>(ClientError::NotFound) && final(self)@ == old(self)@,
            final(self)@ == sent_to(old(self)@, id@, message),
            r == send_result(old(self)@, id@),
            has_id(old(self)@, id@) ==> exists|i: int|
                0 <= i < old(self)@.len() && old(self)@[i].id == id@ && if old(self)@[i].open {
                    r is Ok && final(self)@ == old(self)@.update(
                        i,
                        SessionView { outbound: old(self)@[i].outbound.push(message), ..old(self)@[i] },
                    )
                } else {
                    r == Err::<(), ClientError>(ClientError::Closed) && final(self)@ == old(self)@
                },
    {
        let ghost s = self@;
        match self.position(id) {
            Some(i) => {
                let mut c = self.clients.remove(i);
                assert(c@ == s[i as int]);
                let r = c.send(message);
                let ghost cv = c@;
                self.clients.insert(i, c);
                assert(self@ =~= s.update(i as int, cv));
                proof {
                    lemma_index_of(s, id@, i as int);
                }
                proof {
                    assert(has_id(s, id@));
                    assert(index_of(s, id@) == i);
                    if s[i as int].open {
                        assert(send_result(s, id@) == Ok::<(), ClientError>(()));
                    } else {
                        assert(send_result(s, id@) == Err::<(), ClientError>(ClientError::Closed));
                        assert(r == Err::<(), ClientError>(ClientError::Closed));
                    }
                }
                assert(r == send_result(s, id@));
                if r.is_err() {
                    assert(self@ =~= s);
                }
                r
            },
            None => Err(ClientError::NotFound),
        }
    }

    /// Hand the waiting messages of the session with the given id to its
    /// writer (nothing for an unknown id).
    pub fn take_outbound(&mut self, id: &str) -> (r: Vec<ProtocolMessage>)
        requires
            old(self).wf(),
        ensures
            final(self).wf(),
            !has_id(old(self)@, id@) ==> r@ == Seq::<ProtocolMessage>::empty() && final(self)@ == old(self)@,
            has_id(old(self)@, id@) ==> exists|i: int|
                0 <= i < old(self)@.len() && old(self)@[i].id == id@ && r@ == old(self)@[i].outbound
                    && final(self)@ == old(self)@.update(i, SessionView { outbound: Seq::empty(), ..old(self)@[i] }),
    {
        let ghost s = self@;
        match self.position(id) {
            Some(i) => {
                let mut c = self.clients.remove(i);
                let r = c.take_outbound();
                let ghost cv = c@;
                self.clients.insert(i, c);
                assert(self@ =~= s.update(i as int, cv));
                r
            },
            None => Vec::new(),
        }
    }

    /// Mark the writer of the session with the given id as gone.
    pub fn close_client(&mut self, id: &str)
        requires
            old(self).wf(),
        ensures
            final(self).wf(),
            !has_id(old(self)@, id@) ==> final(self)@ == old(self)@,
            has_id(old(self)@, id@) ==> exists|i: int|
                0 <= i < old(self)@.len() && old(self)@[i].id == id@ && final(self)@ == old(self)@.update(
                    i,
                    SessionView { open: false, ..old(self)@[i] },
                ),
    {
        let ghost s = self@;
        match self.position(id) {
            Some(i) => {
                let mut c = self.clients.remove(i);
                c.close();
                let ghost cv = c@;
                self.clients.insert(i, c);
                assert(self@ =~= s.update(i as int, cv));
            },
            None => {},
        }
    }

    /// The ids of the authenticated sessions, in registration order.
    pub fn get_authenticated_clients(&self) -> (r: Vec<String>)
        ensures
            r@.len() == authenticated_ids(self@).len(),
            forall|i: int| 0 <= i < r@.len() ==> (#[trigger] r@[i])@ == authenticated_ids(self@)[i],
    {
        let mut out: Vec<String> = Vec::new();
        let mut i: usize = 0;
        while i < self.clients.len()
            invariant
                i <= self.clients@.len(),
                self@.len() == self.clients@.len(),
                out@.len() == authenticated_ids(self@.subrange(0, i as int)).len(),
                forall|k: int|
                    0 <= k < out@.len() ==> (#[trigger] out@[k])@ == authenticated_ids(self@.subrange(0, i as int))[k],
            decreases self.clients@.len() - i,
        {
            assert(self@.subrange(0, i + 1).drop_last() =~= self@.subrange(0, i as int));
            if self.clients[i].authenticated {
                out.push(self.clients[i].id.clone());
            }
            i = i + 1;
        }
        assert(self@.subrange(0, self@.len() as int) =~= self@);
        out
    }

    /// Hand a broadcast of `message` to every authenticated session; the
    /// authenticated sessions whose writer is gone are removed.
    pub fn broadcast(&mut self, message: Message)
        requires
            old(self).wf(),
        ensures
            final(self).wf(),
            final(self)@ == fanout(old(self)@, message),
    {
        let ghost s = self@;
        let mut rest: Vec<ClientConnection> = Vec::new();
        std::mem::swap(&mut rest, &mut self.clients);
        let mut out: Vec<ClientConnection> = Vec::new();
        let n = rest.len();
        let mut i: usize = 0;
        while rest.len() > 0
            invariant
                n == s.len(),
                i <= n,
                rest@.len() == n - i,
                forall|k: int| 0 <= k < rest@.len() ==> (#[trigger] rest@[k])@ == s[i + k],
                out@.map_values(|c: ClientConnection| c@) == fanout(s.subrange(0, i as int), message),
            decreases rest@.len(),
        {
            let mut c = rest.remove(0);
            let ghost cv = c@;
            assert(cv == s[i as int]);
            assert(s.subrange(0, i + 1).drop_last() =~= s.subrange(0, i as int));
            assert(s.subrange(0, i + 1).last() == cv);
            if !c.authenticated {
                out.push(c);
            } else if c.is_open() {
                let _ = c.broadcast(message.clone());
                out.push(c);
            }
            assert(out@.map_values(|c: ClientConnection| c@) =~= fanout(s.subrange(0, i + 1), message));
            i = i + 1;
        }
        assert(s.subrange(0, n as int) =~= s);
        self.clients = out;
        proof {
            lemma_fanout_unique(s, message);
        }
    }

    /// The number of sessions.
    pub fn client_count(&self) -> (r: usize)
        ensures
            r == self@.len(),
    {
        self.clients.len()
    }

    /// The number of authenticated sessions.
    pub fn authenticated_count(&self) -> (r: usize)
        ensures
            r == authenticated_in(self@),
    {
        let mut count: usize = 0;
        let mut i: usize = 0;
        while i < self.clients.len()
            invariant
                i <= self.clients@.len(),
                self@.len() == self.clients@.len(),
                count == authenticated_in(self@.subrange(0, i as int)),
                count <= i,
            decreases self.clients@.len() - i,
        {
            assert(self@.subrange(0, i + 1).drop_last() =~= self@.subrange(0, i as int));
            if self.clients[i].authenticated {
                count = count + 1;
            }
            i = i + 1;
        }
        assert(self@.subrange(0, self@.len() as int) =~= self@);
        count
    }
}

} // verus!
