//! The message broker: a single-owner state machine that takes one command
//! at a time, authenticates sessions, queues and fans out messages, and
//! answers receives and pings. The owner feeds it commands, the result of
//! looking up an authentication code, fresh message ids and the time.

use crate::client::{
    authenticated_as, fanout, has_id, send_result, sent_to, ClientConnection, ClientError, ClientManager,
    SessionView,
};
use crate::message::{created_since, live, pushed, Message, MessageQueue, ProtocolMessage};
use crate::storage::ClientConfig;
use crate::text::owned;
use vstd::prelude::*;

verus! {

/// Commands to the broker.
#[derive(Debug)]
pub enum BrokerCommand {
    /// A session sent a message.
    ClientMessage { client_id: String, message: ProtocolMessage },
    /// A session's transport closed.
    ClientDisconnected { client_id: String },
    /// Stop the broker.
    Shutdown,
}

/// What the owner does after a command.
#[derive(Debug)]
pub enum BrokerStep {
    /// Keep going; if a code id is given, record that code as connected. A
    /// reply that could not be queued is reported as `error`.
    Continue { connected_code: Option<String>, error: Option<ClientError> },
    /// The broker has stopped.
    Stop,
}

/// An authentication reply with the given outcome, text and server id.
pub open spec fn is_auth_reply(m: ProtocolMessage, success: bool, text: Seq<char>, server_id: Option<String>) -> bool {
    m matches ProtocolMessage::AuthResponse { success: s, message, server_id: sid } && s == success && message@ == text
        && sid == server_id
}

/// Whether a looked-up code admits a session to the server `server_id`: it
/// exists and, where the broker has a server id, belongs to that server.
pub open spec fn code_admits(found: Option<ClientConfig>, server_id: Option<String>) -> bool {
    match found {
        Some(c) => match server_id {
            Some(sid) => c.server_id@ == sid@,
            None => true,
        },
        None => false,
    }
}

/// The settings of the broker are those of `pre`.
pub open spec fn same_settings(pre: MessageBroker, post: MessageBroker) -> bool {
    &&& post.ttl_ms() == pre.ttl_ms()
    &&& post.capacity() == pre.capacity()
    &&& post.checks_codes() == pre.checks_codes()
    &&& post.serves() == pre.serves()
}

/// An authentication request of session `client_id`, with `found` from the
/// store, took `pre` to `post` and returned `r`: a session admitted (always
/// without a store) is marked authenticated and told so; otherwise it is told
/// the code is invalid. The id of an admitting code is returned for the store.
pub open spec fn auth_step(
    pre: MessageBroker,
    post: MessageBroker,
    client_id: Seq<char>,
    found: Option<ClientConfig>,
    r: Option<String>,
) -> bool {
    &&& same_settings(pre, post)
    &&& post.messages() == pre.messages()
    &&& !pre.checks_codes() || code_admits(found, pre.serves()) ==> if has_id(pre.sessions(), client_id) {
        exists|reply: ProtocolMessage|
            is_auth_reply(reply, true, "Authenticated"@, pre.serves()) && post.sessions() == sent_to(
                authenticated_as(pre.sessions(), client_id),
                client_id,
                reply,
            )
    } else {
        post.sessions() == pre.sessions()
    }
    &&& pre.checks_codes() && !code_admits(found, pre.serves()) ==> exists|reply: ProtocolMessage|
        is_auth_reply(reply, false, "Invalid code"@, pre.serves()) && post.sessions() == sent_to(
            pre.sessions(),
            client_id,
            reply,
        )
    &&& r is Some <==> pre.checks_codes() && code_admits(found, pre.serves()) && has_id(pre.sessions(), client_id)
    &&& r matches Some(id) ==> found matches Some(c) && id == c.id
}

/// A message from session `client_id` with content `content` was queued at
/// `now` as `m` and broadcast.
pub open spec fn send_step(pre: MessageBroker, post: MessageBroker, client_id: Seq<char>, content: String, now: u64, m: Message) -> bool {
    &&& same_settings(pre, post)
    &&& m.from@ == client_id
    &&& m.content == content
    &&& m.timestamp == now
    &&& post.messages() == pushed(pre.messages(), now, pre.capacity(), m)
    &&& post.sessions() == fanout(pre.sessions(), m)
}

/// A receive request of session `client_id` at `now` was answered.
pub open spec fn receive_step(
    pre: MessageBroker,
    post: MessageBroker,
    client_id: Seq<char>,
    since: Option<u64>,
    now: u64,
    r: Result<(), ClientError>,
) -> bool {
    &&& same_settings(pre, post)
    &&& r == send_result(pre.sessions(), client_id)
    &&& post.messages() == live(pre.messages(), now)
    &&& exists|messages: Vec<Message>|
        messages@ == match since {
            Some(t) => created_since(live(pre.messages(), now), t),
            None => live(pre.messages(), now),
        } && post.sessions() == sent_to(pre.sessions(), client_id, ProtocolMessage::ReceiveResponse { messages })
}

/// A ping of session `client_id` was answered with a pong.
pub open spec fn ping_step(pre: MessageBroker, post: MessageBroker, client_id: Seq<char>, r: Result<(), ClientError>) -> bool {
    &&& same_settings(pre, post)
    &&& post.messages() == pre.messages()
    &&& post.sessions() == sent_to(pre.sessions(), client_id, ProtocolMessage::Pong)
    &&& r == send_result(pre.sessions(), client_id)
}

/// A reply outcome with no code to record.
pub open spec fn without_code(d: Result<(), ClientError>) -> Result<Option<String>, ClientError> {
    match d {
        Ok(()) => Ok(None),
        Err(e) => Err(e),
    }
}

/// What the owner is told after a session's message was handled.
pub open spec fn step_of(res: Result<Option<String>, ClientError>) -> BrokerStep {
    match res {
        Ok(connected_code) => BrokerStep::Continue { connected_code, error: None },
        Err(e) => BrokerStep::Continue { connected_code: None, error: Some(e) },
    }
}

/// Message `message` of session `client_id` took `pre` to `post` with
/// outcome `r`: authentication, a sent message, a receive, a ping, or (for
/// anything else) nothing.
pub open spec fn message_step(
    pre: MessageBroker,
    post: MessageBroker,
    client_id: Seq<char>,
    message: ProtocolMessage,
    found: Option<ClientConfig>,
    message_id: String,
    now: u64,
    r: Result<Option<String>, ClientError>,
) -> bool {
    match message {
        ProtocolMessage::Auth { .. } => r matches Ok(code) && auth_step(pre, post, client_id, found, code),
        ProtocolMessage::Send { content } => r == Ok::<Option<String>, ClientError>(None) && exists|m: Message|
            m.id == message_id && #[trigger] send_step(pre, post, client_id, content, now, m),
        ProtocolMessage::Receive { since } => r == without_code(send_result(pre.sessions(), client_id))
            && receive_step(pre, post, client_id, since, now, send_result(pre.sessions(), client_id)),
        ProtocolMessage::Ping => r == without_code(send_result(pre.sessions(), client_id)) && ping_step(
            pre,
            post,
            client_id,
            send_result(pre.sessions(), client_id),
        ),
        _ => r == Ok::<Option<String>, ClientError>(None) && post == pre,
    }
}

/// The message broker.
pub struct MessageBroker {
    queue: MessageQueue,
    clients: ClientManager,
    has_store: bool,
    server_id: Option<String>,
}

impl MessageBroker {
    /// The sessions.
    pub closed spec fn sessions(&self) -> Seq<SessionView> {
        self.clients@
    }

    /// The queued messages.
    pub closed spec fn messages(&self) -> Seq<Message> {
        self.queue@
    }

    /// The queue's time to live, in milliseconds.
    pub closed spec fn ttl_ms(&self) -> u64 {
        self.queue.ttl_ms()
    }

    /// The queue's bound.
    pub closed spec fn capacity(&self) -> nat {
        self.queue.capacity()
    }

    /// Whether codes are checked against a store.
    pub closed spec fn checks_codes(&self) -> bool {
        self.has_store
    }

    /// The id of the server the broker serves, if any.
    pub closed spec fn serves(&self) -> Option<String> {
        self.server_id
    }

    /// The queue is within its bound and session ids are unique.
    pub closed spec fn wf(&self) -> bool {
        self.queue.wf() && self.clients.wf()
    }

    /// A broker with an empty queue and no sessions.
    pub fn new(ttl_ms: u64, max_queue_size: usize, has_store: bool, server_id: Option<String>) -> (r: Self)
        requires
            max_queue_size >= 1,
        ensures
            r.wf(),
            r.sessions() == Seq::<SessionView>::empty(),
            r.messages() == Seq::<Message>::empty(),
            r.ttl_ms() == ttl_ms,
            r.capacity() == max_queue_size,
            r.checks_codes() == has_store,
            r.serves() == server_id,
    {
        MessageBroker {
            queue: MessageQueue::new(ttl_ms, max_queue_size),
            clients: ClientManager::new(),
            has_store,
            server_id,
        }
    }

    /// The session registry.
    pub fn client_manager(&self) -> (r: &ClientManager)
        ensures
            r@ == self.sessions(),
    {
        &self.clients
    }

    /// The message queue.
    pub fn message_queue(&self) -> (r: &MessageQueue)
        ensures
            r@ == self.messages(),
    {
        &self.queue
    }

    /// Register a session.
    pub fn add_client(&mut self, client: ClientConnection) -> (r: String)
        requires
            old(self).wf(),
        ensures
            final(self).wf(),
            r@ == client@.id,
            has_id(final(self).sessions(), client@.id),
            has_id(old(self).sessions(), client@.id) ==> exists|i: int|
                0 <= i < old(self).sessions().len() && old(self).sessions()[i].id == client@.id && final(self).sessions()
                    == old(self).sessions().update(i, client@),
            !has_id(old(self).sessions(), client@.id) ==> final(self).sessions() == old(self).sessions().push(client@),
            final(self).messages() == old(self).messages(),
            final(self).ttl_ms() == old(self).ttl_ms(),
            final(self).capacity() == old(self).capacity(),
            final(self).checks_codes() == old(self).checks_codes(),
            final(self).serves() == old(self).serves(),
    {
        let r = self.clients.add_client(client);
        proof {
            let s = self.clients@;
            if has_id(old(self).clients@, r@) {
                let i = choose|i: int|
                    0 <= i < old(self).clients@.len() && old(self).clients@[i].id == r@ && s == old(self).clients@.update(i, client@);
                assert(s[i].id == r@);
            } else {
                assert(s[s.len() - 1].id == r@);
            }
        }
        r
    }

    /// Hand the waiting messages of a session to its writer.
    pub fn take_outbound(&mut self, client_id: &str) -> (r: Vec<ProtocolMessage>)
        requires
            old(self).wf(),
        ensures
            final(self).wf(),
            final(self).messages() == old(self).messages(),
            final(self).ttl_ms() == old(self).ttl_ms(),
            final(self).capacity() == old(self).capacity(),
            final(self).checks_codes() == old(self).checks_codes(),
            final(self).serves() == old(self).serves(),
            !has_id(old(self).sessions(), client_id@) ==> r@ == Seq::<ProtocolMessage>::empty()
                && final(self).sessions() == old(self).sessions(),
            has_id(old(self).sessions(), client_id@) ==> exists|i: int|
                0 <= i < old(self).sessions().len() && old(self).sessions()[i].id == client_id@ && r@ == old(self).sessions()[i].outbound && final(self).sessions() == old(self).sessions().update(
                    i,
                    SessionView { outbound: Seq::empty(), ..old(self).sessions()[i] },
                ),
    {
        self.clients.take_outbound(client_id)
    }

    /// Mark the writer of a session as gone.
    pub fn close_client(&mut self, client_id: &str)
        requires
            old(self).wf(),
        ensures
            final(self).wf(),
            final(self).messages() == old(self).messages(),
            final(self).ttl_ms() == old(self).ttl_ms(),
            final(self).capacity() == old(self).capacity(),
            final(self).checks_codes() == old(self).checks_codes(),
            final(self).serves() == old(self).serves(),
            !has_id(old(self).sessions(), client_id@) ==> final(self).sessions() == old(self).sessions(),
            has_id(old(self).sessions(), client_id@) ==> exists|i: int|
                0 <= i < old(self).sessions().len() && old(self).sessions()[i].id == client_id@ && final(self).sessions() == old(self).sessions().update(
                    i,
                    SessionView { open: false, ..old(self).sessions()[i] },
                ),
    {
        self.clients.close_client(client_id)
    }

    /// Send an authentication reply to a session.
    fn send_auth_response(&mut self, client_id: &str, success: bool, message: &str)
        requires
            old(self).wf(),
        ensures
            final(self).wf(),
            exists|reply: ProtocolMessage|
                is_auth_reply(reply, success, message@, old(self).serves()) && final(self).sessions() == sent_to(
                    old(self).sessions(),
                    client_id@,
                    reply,
                ),
            final(self).messages() == old(self).messages(),
            final(self).ttl_ms() == old(self).ttl_ms(),
            final(self).capacity() == old(self).capacity(),
            final(self).checks_codes() == old(self).checks_codes(),
            final(self).serves() == old(self).serves(),
    {
        let server_id = match &self.server_id {
            Some(s) => Some(s.clone()),
            None => None,
        };
        let response = ProtocolMessage::AuthResponse { success, message: owned(message), server_id };
        let ghost reply = response;
        let _ = self.clients.send_to_client(client_id, response);
        assert(is_auth_reply(reply, success, message@, old(self).serves()));
        assert(self.sessions() == sent_to(old(self).sessions(), client_id@, reply));
    }

    /// Handle an authentication request of a session. `found` is what the
    /// store holds under the presented code (ignored without a store).
    /// Returns the id of the code to record as connected, if any.
    pub fn handle_auth(&mut self, client_id: &str, found: Option<ClientConfig>) -> (r: Option<String>)
        requires
            old(self).wf(),
        ensures
            final(self).wf(),
            auth_step(*old(self), *final(self), client_id@, found, r),
    {
        proof {
            reveal_strlit("Authenticated");
            reveal_strlit("Invalid code");
        }
        if self.has_store {
            match found {
                Some(client_config) => {
                    let admitted = match &self.server_id {
                        Some(sid) => crate::text::text_eq(client_config.server_id.as_str(), sid.as_str()),
                        None => true,
                    };
                    if !admitted {
                        self.send_auth_response(client_id, false, "Invalid code");
                        return None;
                    }
                    match self.clients.authenticate_client(client_id) {
                        Ok(()) => {},
                        Err(_) => {
                            return None;
                        },
                    }
                    self.send_auth_response(client_id, true, "Authenticated");
                    Some(client_config.id)
                },
                None => {
                    self.send_auth_response(client_id, false, "Invalid code");
                    None
                },
            }
        } else {
            match self.clients.authenticate_client(client_id) {
                Ok(()) => {},
                Err(_) => {
                    return None;
                },
            }
            self.send_auth_response(client_id, true, "Authenticated");
            None
        }
    }

    /// Queue a message from a session, created at `now` under `message_id`,
    /// and broadcast it to every authenticated session.
    pub fn handle_send(&mut self, client_id: &str, content: String, message_id: String, now: u64) -> (r: Message)
        requires
            old(self).wf(),
        ensures
            final(self).wf(),
            r.id == message_id,
            r.from@ == client_id@,
            r.content == content,
            r.timestamp == now,
            final(self).messages() == pushed(old(self).messages(), now, old(self).capacity(), r),
            final(self).sessions() == fanout(old(self).sessions(), r),
            final(self).ttl_ms() == old(self).ttl_ms(),
            final(self).capacity() == old(self).capacity(),
            final(self).checks_codes() == old(self).checks_codes(),
            final(self).serves() == old(self).serves(),
    {
        let message = self.queue.push_at(message_id, owned(client_id), content, now);
        self.clients.broadcast(message.clone());
        message
    }

    /// Answer a receive request: the live messages, or those created at or
    /// after `since`, go to the asking session only.
    /// The reply goes out as `send_to_client` would send it: an unknown
    /// session or one whose writer is gone is reported.
    pub fn handle_receive(&mut self, client_id: &str, since: Option<u64>, now: u64) -> (r: Result<(), ClientError>)
        requires
            old(self).wf(),
        ensures
            final(self).wf(),
            receive_step(*old(self), *final(self), client_id@, since, now, r),
    {
        let messages = match since {
            Some(t) => self.queue.get_since_at(t, now),
            None => self.queue.get_all_at(now),
        };
        let ghost kept = messages;
        let response = ProtocolMessage::ReceiveResponse { messages };
        let r = self.clients.send_to_client(client_id, response);
        assert(self.sessions() == sent_to(old(self).sessions(), client_id@, ProtocolMessage::ReceiveResponse { messages: kept }));
        r
    }

    /// Answer a ping with a pong.
    pub fn handle_ping(&mut self, client_id: &str) -> (r: Result<(), ClientError>)
        requires
            old(self).wf(),
        ensures
            final(self).wf(),
            ping_step(*old(self), *final(self), client_id@, r),
    {
        self.clients.send_to_client(client_id, ProtocolMessage::Pong)
    }

    /// Drop the messages that have expired at `now`.
    pub fn expire_messages(&mut self, now: u64)
        requires
            old(self).wf(),
        ensures
            final(self).wf(),
            final(self).messages() == live(old(self).messages(), now),
            final(self).sessions() == old(self).sessions(),
            same_settings(*old(self), *final(self)),
    {
        let _ = self.queue.len_at(now);
    }

    /// Remove a session whose transport closed.
    pub fn handle_disconnect(&mut self, client_id: &str)
        requires
            old(self).wf(),
        ensures
            final(self).wf(),
            !has_id(final(self).sessions(), client_id@),
            !has_id(old(self).sessions(), client_id@) ==> final(self).sessions() == old(self).sessions(),
            has_id(old(self).sessions(), client_id@) ==> exists|i: int|
                0 <= i < old(self).sessions().len() && old(self).sessions()[i].id == client_id@ && final(self).sessions() == old(self).sessions().remove(i),
            final(self).messages() == old(self).messages(),
            final(self).ttl_ms() == old(self).ttl_ms(),
            final(self).capacity() == old(self).capacity(),
            final(self).checks_codes() == old(self).checks_codes(),
            final(self).serves() == old(self).serves(),
    {
        self.clients.remove_client(client_id)
    }

    /// Handle one message of a session. `found` is what the store holds
    /// under the code of an authentication request; `message_id` and `now`
    /// stamp a sent message. Returns the id of a code to record as connected,
    /// or why a reply could not be queued.
    pub fn handle_client_message(
        &mut self,
        client_id: &str,
        message: ProtocolMessage,
        found: Option<ClientConfig>,
        message_id: String,
        now: u64,
    ) -> (r: Result<Option<String>, ClientError>)
        requires
            old(self).wf(),
        ensures
            final(self).wf(),
            message_step(*old(self), *final(self), client_id@, message, found, message_id, now, r),
    {
        match message {
            ProtocolMessage::Auth { code: _, client_id: _ } => Ok(self.handle_auth(client_id, found)),
            ProtocolMessage::Send { content } => {
                let ghost c = content;
                let m = self.handle_send(client_id, content, message_id, now);
                assert(send_step(*old(self), *self, client_id@, c, now, m));
                Ok(None)
            },
            ProtocolMessage::Receive { since } => match self.handle_receive(client_id, since, now) {
                Ok(()) => Ok(None),
                Err(e) => Err(e),
            },
            ProtocolMessage::Ping => match self.handle_ping(client_id) {
                Ok(()) => Ok(None),
                Err(e) => Err(e),
            },
            _ => Ok(None),
        }
    }

    /// Handle one command.
    pub fn handle_command(
        &mut self,
        command: BrokerCommand,
        found: Option<ClientConfig>,
        message_id: String,
        now: u64,
    ) -> (r: BrokerStep)
        requires
            old(self).wf(),
        ensures
            final(self).wf(),
            match command {
                BrokerCommand::ClientMessage { client_id, message } => exists|res: Result<Option<String>, ClientError>|
                    #[trigger] message_step(*old(self), *final(self), client_id@, message, found, message_id, now, res)
                        && r == step_of(res),
                BrokerCommand::ClientDisconnected { client_id } => r matches BrokerStep::Continue {
                    connected_code: None,
                    error: None,
                } && same_settings(*old(self), *final(self)) && final(self).messages() == old(self).messages()
                    && !has_id(final(self).sessions(), client_id@) && (!has_id(old(self).sessions(), client_id@)
                    ==> final(self).sessions() == old(self).sessions()) && (has_id(old(self).sessions(), client_id@)
                    ==> exists|i: int|
                    0 <= i < old(self).sessions().len() && old(self).sessions()[i].id == client_id@ && final(self).sessions()
                        == old(self).sessions().remove(i)),
                BrokerCommand::Shutdown => r is Stop && *final(self) == *old(self),
            },
    {
        match command {
            BrokerCommand::ClientMessage { client_id, message } => {
                let ghost m = message;
                let res = self.handle_client_message(client_id.as_str(), message, found, message_id, now);
                let ghost g = res;
                let step = match res {
                    Ok(connected_code) => BrokerStep::Continue { connected_code, error: None },
                    Err(e) => BrokerStep::Continue { connected_code: None, error: Some(e) },
                };
                assert(step == step_of(g));
                step
            },
            BrokerCommand::ClientDisconnected { client_id } => {
                self.handle_disconnect(client_id.as_str());
                BrokerStep::Continue { connected_code: None, error: None }
            },
            BrokerCommand::Shutdown => BrokerStep::Stop,
        }
    }
}

/// A broker for a persistent server, with the access tokens it has issued.
pub struct FortressBroker {
    inner: MessageBroker,
    valid_tokens: Vec<String>,
}

impl FortressBroker {
    /// The inner broker.
    pub closed spec fn broker(&self) -> MessageBroker {
        self.inner
    }

    /// Whether `token` is a valid access token.
    pub closed spec fn has_token(&self, token: Seq<char>) -> bool {
        exists|i: int| 0 <= i < self.valid_tokens@.len() && (#[trigger] self.valid_tokens@[i])@ == token
    }

    /// A broker that checks codes against the store for server `server_id`,
    /// with no tokens.
    pub fn new(ttl_ms: u64, max_queue_size: usize, server_id: String) -> (r: Self)
        requires
            max_queue_size >= 1,
        ensures
            r.broker().wf(),
            r.broker().sessions() == Seq::<SessionView>::empty(),
            r.broker().messages() == Seq::<Message>::empty(),
            r.broker().ttl_ms() == ttl_ms,
            r.broker().capacity() == max_queue_size,
            r.broker().checks_codes(),
            r.broker().serves() == Some(server_id),
            forall|t: Seq<char>| !r.has_token(t),
    {
        FortressBroker { inner: MessageBroker::new(ttl_ms, max_queue_size, true, Some(server_id)), valid_tokens: Vec::new() }
    }

    /// Add a valid access token.
    pub fn add_token(&mut self, token: String)
        ensures
            final(self).broker() == old(self).broker(),
            forall|t: Seq<char>| final(self).has_token(t) == (old(self).has_token(t) || t == token@),
    {
        let ghost added = token@;
        let ghost before = self.valid_tokens@;
        self.valid_tokens.push(token);
        assert forall|t: Seq<char>| self.has_token(t) == (old(self).has_token(t) || t == added) by {
            if old(self).has_token(t) {
                let i = choose|i: int| 0 <= i < before.len() && (#[trigger] before[i])@ == t;
                assert(self.valid_tokens@[i] == before[i]);
            }
            if t == added {
                assert(self.valid_tokens@[before.len() as int]@ == t);
            }
            if self.has_token(t) {
                let i = choose|i: int| 0 <= i < self.valid_tokens@.len() && (#[trigger] self.valid_tokens@[i])@ == t;
                if i < before.len() {
                    assert(before[i] == self.valid_tokens@[i]);
                }
            }
        }
    }

    /// Revoke an access token.
    pub fn revoke_token(&mut self, token: &str)
        ensures
            final(self).broker() == old(self).broker(),
            forall|t: Seq<char>| final(self).has_token(t) == (old(self).has_token(t) && t != token@),
    {
        let ghost s = self.valid_tokens@;
        let mut kept: Vec<String> = Vec::new();
        let mut i: usize = 0;
        while i < self.valid_tokens.len()
            invariant
                s == self.valid_tokens@,
                i <= s.len(),
                forall|k: int| 0 <= k < kept@.len() ==> (#[trigger] kept@[k])@ != token@,
                forall|k: int|
                    #![trigger kept@[k]]
                    0 <= k < kept@.len() ==> exists|j: int| #![trigger s[j]] 0 <= j < i && s[j] == kept@[k],
                forall|j: int|
                    #![trigger s[j]]
                    0 <= j < i && s[j]@ != token@ ==> exists|k: int| #![trigger kept@[k]] 0 <= k < kept@.len() && kept@[k] == s[j],
            decreases s.len() - i,
        {
            let ghost prev = kept@;
            if !crate::text::text_eq(self.valid_tokens[i].as_str(), token) {
                let t = self.valid_tokens[i].clone();
                kept.push(t);
                assert(kept@[kept@.len() - 1] == s[i as int]);
            }
            assert forall|j: int|
                #![trigger s[j]]
                0 <= j < i + 1 && s[j]@ != token@ implies exists|k: int|
                #![trigger kept@[k]]
                0 <= k < kept@.len() && kept@[k] == s[j] by {
                if j < i {
                    let k = choose|k: int| #![trigger prev[k]] 0 <= k < prev.len() && prev[k] == s[j];
                    assert(kept@[k] == prev[k]);
                } else {
                    assert(kept@[kept@.len() - 1] == s[j]);
                }
            }
            i = i + 1;
        }
        self.valid_tokens = kept;
        assert forall|t: Seq<char>| self.has_token(t) == (old(self).has_token(t) && t != token@) by {
            if self.has_token(t) {
                let k = choose|k: int| 0 <= k < self.valid_tokens@.len() && (#[trigger] self.valid_tokens@[k])@ == t;
                let j = choose|j: int| #![trigger s[j]] 0 <= j < s.len() && s[j] == self.valid_tokens@[k];
                assert(s[j]@ == t);
            }
            if old(self).has_token(t) && t != token@ {
                let j = choose|j: int| 0 <= j < s.len() && (#[trigger] s[j])@ == t;
                let k = choose|k: int| #![trigger self.valid_tokens@[k]] 0 <= k < self.valid_tokens@.len() && self.valid_tokens@[k] == s[j];
                assert(self.valid_tokens@[k]@ == t);
            }
        }
    }

    /// Whether `token` is a valid access token.
    pub fn validate_token(&self, token: &str) -> (r: bool)
        ensures
            r == self.has_token(token@),
    {
        let mut i: usize = 0;
        while i < self.valid_tokens.len()
            invariant
                i <= self.valid_tokens@.len(),
                forall|j: int| 0 <= j < i ==> (#[trigger] self.valid_tokens@[j])@ != token@,
            decreases self.valid_tokens@.len() - i,
        {
            if crate::text::text_eq(self.valid_tokens[i].as_str(), token) {
                return true;
            }
            i = i + 1;
        }
        false
    }

    /// The inner broker, to run.
    pub fn into_broker(self) -> (r: MessageBroker)
        ensures
            r == self.broker(),
    {
        self.inner
    }

    /// The session registry.
    pub fn client_manager(&self) -> (r: &ClientManager)
        ensures
            r@ == self.broker().sessions(),
    {
        self.inner.client_manager()
    }
}

} // verus!
