//! Records of servers, client codes and client-side connections, and the
//! store that keeps them with its uniqueness rules. Times are Unix seconds.

use crate::platform::new_uuid;
use crate::handshake::current_timestamp;
use crate::text::{owned, random_text, text_eq};
use vstd::prelude::*;

verus! {

/// State of a server.
#[derive(Debug, Clone, Copy, PartialEq, Eq, Structural)]
pub enum ServerStatus {
    Running,
    Stopped,
    Error,
}

/// The stored name of a server state.
pub open spec fn server_status_text(s: ServerStatus) -> Seq<char> {
    match s {
        ServerStatus::Running => "running"@,
        ServerStatus::Stopped => "stopped"@,
        ServerStatus::Error => "error"@,
    }
}

/// The server state a stored name stands for; unknown names are errors.
pub open spec fn server_status_of(s: Seq<char>) -> ServerStatus {
    if s == "running"@ {
        ServerStatus::Running
    } else if s == "stopped"@ {
        ServerStatus::Stopped
    } else {
        ServerStatus::Error
    }
}

impl ServerStatus {
    pub fn to_string(&self) -> (r: String)
        ensures
            r@ == server_status_text(*self),
    {
        match self {
            ServerStatus::Running => owned("running"),
            ServerStatus::Stopped => owned("stopped"),
            ServerStatus::Error => owned("error"),
        }
    }

    pub fn from_string(s: &str) -> (r: Self)
        ensures
            r == server_status_of(s@),
    {
        if text_eq(s, "running") {
            ServerStatus::Running
        } else if text_eq(s, "stopped") {
            ServerStatus::Stopped
        } else {
            ServerStatus::Error
        }
    }
}

/// State of a client code.
#[derive(Debug, Clone, Copy, PartialEq, Eq, Structural)]
pub enum ClientStatus {
    Pending,
    Connected,
    Disconnected,
}

/// The stored name of a client state.
pub open spec fn client_status_text(s: ClientStatus) -> Seq<char> {
    match s {
        ClientStatus::Pending => "pending"@,
        ClientStatus::Connected => "connected"@,
        ClientStatus::Disconnected => "disconnected"@,
    }
}

/// The client state a stored name stands for; unknown names are
/// disconnected.
pub open spec fn client_status_of(s: Seq<char>) -> ClientStatus {
    if s == "pending"@ {
        ClientStatus::Pending
    } else if s == "connected"@ {
        ClientStatus::Connected
    } else {
        ClientStatus::Disconnected
    }
}

impl ClientStatus {
    pub fn to_string(&self) -> (r: String)
        ensures
            r@ == client_status_text(*self),
    {
        match self {
            ClientStatus::Pending => owned("pending"),
            ClientStatus::Connected => owned("connected"),
            ClientStatus::Disconnected => owned("disconnected"),
        }
    }

    pub fn from_string(s: &str) -> (r: Self)
        ensures
            r == client_status_of(s@),
    {
        if text_eq(s, "pending") {
            ClientStatus::Pending
        } else if text_eq(s, "connected") {
            ClientStatus::Connected
        } else {
            ClientStatus::Disconnected
        }
    }
}

fn copy_opt_string(s: &Option<String>) -> (r: Option<String>)
    ensures
        r == *s,
{
    match s {
        Some(x) => Some(x.clone()),
        None => None,
    }
}

/// A persistent server.
#[derive(Debug, PartialEq)]
pub struct ServerConfig {
    pub id: String,
    pub name: String,
    pub socket_path: String,
    pub created_at: u64,
    pub ttl_minutes: u64,
    pub onion_address: Option<String>,
    pub status: ServerStatus,
}

impl Clone for ServerConfig {
    fn clone(&self) -> (r: Self)
        ensures
            r == *self,
    {
        ServerConfig {
            id: self.id.clone(),
            name: self.name.clone(),
            socket_path: self.socket_path.clone(),
            created_at: self.created_at,
            ttl_minutes: self.ttl_minutes,
            onion_address: copy_opt_string(&self.onion_address),
            status: self.status,
        }
    }
}

/// A client authentication code of a server.
#[derive(Debug, PartialEq)]
pub struct ClientConfig {
    pub id: String,
    pub server_id: String,
    pub code: String,
    pub created_at: u64,
    pub connected_at: Option<u64>,
    pub status: ClientStatus,
}

impl Clone for ClientConfig {
    fn clone(&self) -> (r: Self)
        ensures
            r == *self,
    {
        ClientConfig {
            id: self.id.clone(),
            server_id: self.server_id.clone(),
            code: self.code.clone(),
            created_at: self.created_at,
            connected_at: self.connected_at,
            status: self.status,
        }
    }
}

/// A client-side connection to a remote server.
#[derive(Debug, PartialEq)]
pub struct ConnectionConfig {
    pub id: String,
    pub server_name: String,
    pub alias: Option<String>,
    pub code: String,
    pub socket_path: Option<String>,
    pub onion_address: Option<String>,
    pub connected_at: u64,
    pub status: ClientStatus,
}

impl Clone for ConnectionConfig {
    fn clone(&self) -> (r: Self)
        ensures
            r == *self,
    {
        ConnectionConfig {
            id: self.id.clone(),
            server_name: self.server_name.clone(),
            alias: copy_opt_string(&self.alias),
            code: self.code.clone(),
            socket_path: copy_opt_string(&self.socket_path),
            onion_address: copy_opt_string(&self.onion_address),
            connected_at: self.connected_at,
            status: self.status,
        }
    }
}

/// Why the store refused a record.
#[derive(Debug, Clone, Copy, PartialEq, Eq, Structural)]
pub enum StoreError {
    /// A server with that name or id is already stored.
    DuplicateServer,
    /// A client code with that code or id is already stored.
    DuplicateCode,
    /// A connection with that id is already stored.
    DuplicateConnection,
}

/// Characters of a client code.
pub open spec fn client_code_alphabet() -> Seq<char> {
    "ABCDEFGHJKLMNPQRSTUVWXYZ23456789"@
}

/// A freshly drawn client code for server `server_id`: twelve characters of
/// the code alphabet, pending, never connected.
pub open spec fn is_new_client_code(c: ClientConfig, server_id: Seq<char>) -> bool {
    &&& c.server_id@ == server_id
    &&& c.code@.len() == 12
    &&& forall|i: int| 0 <= i < 12 ==> client_code_alphabet().contains(#[trigger] c.code@[i])
    &&& c.connected_at is None
    &&& c.status == ClientStatus::Pending
}

/// Whether a stored client code shares its code or its id with `c`.
pub open spec fn collides(s: Seq<ClientConfig>, c: ClientConfig) -> bool {
    exists|i: int| 0 <= i < s.len() && ((#[trigger] s[i]).code@ == c.code@ || s[i].id@ == c.id@)
}

/// The last server of `s` named `name`.
pub open spec fn server_named(s: Seq<ServerConfig>, name: Seq<char>) -> Option<ServerConfig>
    decreases s.len(),
{
    if s.len() == 0 {
        None
    } else if s.last().name@ == name {
        Some(s.last())
    } else {
        server_named(s.drop_last(), name)
    }
}

/// The last server of `s` with id `id`.
pub open spec fn server_with_id(s: Seq<ServerConfig>, id: Seq<char>) -> Option<ServerConfig>
    decreases s.len(),
{
    if s.len() == 0 {
        None
    } else if s.last().id@ == id {
        Some(s.last())
    } else {
        server_with_id(s.drop_last(), id)
    }
}

/// `s` with every server whose id is `id` set to `status`.
pub open spec fn servers_with_status(s: Seq<ServerConfig>, id: Seq<char>, status: ServerStatus) -> Seq<ServerConfig> {
    Seq::new(s.len(), |i: int| if s[i].id@ == id { ServerConfig { status, ..s[i] } } else { s[i] })
}

/// The last client code of `s` equal to `code`.
pub open spec fn client_with_code(s: Seq<ClientConfig>, code: Seq<char>) -> Option<ClientConfig>
    decreases s.len(),
{
    if s.len() == 0 {
        None
    } else if s.last().code@ == code {
        Some(s.last())
    } else {
        client_with_code(s.drop_last(), code)
    }
}

/// Whether a connection is known under `name`, as server name or alias.
pub open spec fn connection_matches(c: ConnectionConfig, name: Seq<char>) -> bool {
    c.server_name@ == name || (c.alias matches Some(a) && a@ == name)
}

/// The last connection of `s` known under `name`.
pub open spec fn connection_named(s: Seq<ConnectionConfig>, name: Seq<char>) -> Option<ConnectionConfig>
    decreases s.len(),
{
    if s.len() == 0 {
        None
    } else if connection_matches(s.last(), name) {
        Some(s.last())
    } else {
        connection_named(s.drop_last(), name)
    }
}

/// No two elements of `s` share a key.
pub open spec fn unique_by<A>(s: Seq<A>, key: spec_fn(A) -> Seq<char>) -> bool {
    forall|i: int, j: int| 0 <= i < s.len() && 0 <= j < s.len() && i != j ==> key(s[i]) != key(s[j])
}

/// The elements of `s` that satisfy `p`, in order.
pub open spec fn keep<A>(s: Seq<A>, p: spec_fn(A) -> bool) -> Seq<A>
    decreases s.len(),
{
    if s.len() == 0 {
        seq![]
    } else if p(s.last()) {
        keep(s.drop_last(), p).push(s.last())
    } else {
        keep(s.drop_last(), p)
    }
}

/// Every element kept comes from `s`.
proof fn lemma_keep_from<A>(s: Seq<A>, p: spec_fn(A) -> bool)
    ensures
        forall|k: int| 0 <= k < keep(s, p).len() ==> exists|j: int| 0 <= j < s.len() && #[trigger] keep(s, p)[k] == s[j],
    decreases s.len(),
{
    if s.len() > 0 {
        let q = s.drop_last();
        lemma_keep_from(q, p);
        assert forall|k: int| 0 <= k < keep(s, p).len() implies exists|j: int|
            0 <= j < s.len() && #[trigger] keep(s, p)[k] == s[j] by {
            if k < keep(q, p).len() {
                let j = choose|j: int| 0 <= j < q.len() && #[trigger] keep(q, p)[k] == q[j];
                assert(s[j] == q[j]);
            } else {
                assert(keep(s, p)[k] == s[s.len() - 1]);
            }
        }
    }
}

/// Keeping some elements keeps keys unique.
proof fn lemma_keep_unique<A>(s: Seq<A>, p: spec_fn(A) -> bool, key: spec_fn(A) -> Seq<char>)
    requires
        unique_by(s, key),
    ensures
        unique_by(keep(s, p), key),
    decreases s.len(),
{
    if s.len() > 0 {
        let q = s.drop_last();
        assert(unique_by(q, key)) by {
            assert forall|i: int, j: int| 0 <= i < q.len() && 0 <= j < q.len() && i != j implies key(q[i]) != key(q[j]) by {
                assert(q[i] == s[i] && q[j] == s[j]);
            }
        }
        lemma_keep_unique(q, p, key);
        lemma_keep_from(q, p);
        let rest = keep(q, p);
        assert forall|k: int| 0 <= k < rest.len() implies key(#[trigger] rest[k]) != key(s.last()) by {
            let j = choose|j: int| 0 <= j < q.len() && #[trigger] rest[k] == q[j];
            assert(q[j] == s[j]);
        }
    }
}

/// The servers of `s` not named `name`.
pub open spec fn servers_without(s: Seq<ServerConfig>, name: Seq<char>) -> Seq<ServerConfig> {
    keep(s, |c: ServerConfig| c.name@ != name)
}

/// The client codes of `s` belonging to server `server_id`, in order.
pub open spec fn clients_of(s: Seq<ClientConfig>, server_id: Seq<char>) -> Seq<ClientConfig> {
    keep(s, |c: ClientConfig| c.server_id@ == server_id)
}

/// The client codes of `s` not belonging to server `server_id`, in order.
pub open spec fn clients_not_of(s: Seq<ClientConfig>, server_id: Seq<char>) -> Seq<ClientConfig> {
    keep(s, |c: ClientConfig| c.server_id@ != server_id)
}

/// The connections of `s` not known under `name`.
pub open spec fn connections_without(s: Seq<ConnectionConfig>, name: Seq<char>) -> Seq<ConnectionConfig> {
    keep(s, |c: ConnectionConfig| !connection_matches(c, name))
}

/// No two servers share a name or an id.
pub open spec fn servers_unique(s: Seq<ServerConfig>) -> bool {
    &&& unique_by(s, |c: ServerConfig| c.name@)
    &&& unique_by(s, |c: ServerConfig| c.id@)
}

/// No two client codes share a code or an id.
pub open spec fn codes_unique(s: Seq<ClientConfig>) -> bool {
    &&& unique_by(s, |c: ClientConfig| c.code@)
    &&& unique_by(s, |c: ClientConfig| c.id@)
}

/// No two connections share an id.
pub open spec fn connection_ids_unique(s: Seq<ConnectionConfig>) -> bool {
    unique_by(s, |c: ConnectionConfig| c.id@)
}

/// `after` is `before` with its onion address set to `onion` if its id is
/// `id`, and unchanged otherwise.
pub open spec fn onion_updated(before: ServerConfig, after: ServerConfig, id: Seq<char>, onion: Seq<char>) -> bool {
    if before.id@ == id {
        &&& after.onion_address matches Some(a) && a@ == onion
        &&& after == (ServerConfig { onion_address: after.onion_address, ..before })
    } else {
        after == before
    }
}

/// `s` is ordered newest first by `time`.
pub open spec fn newest_first<A>(s: Seq<A>, time: spec_fn(A) -> int) -> bool {
    forall|i: int, j: int| 0 <= i < j < s.len() ==> time(s[i]) >= time(s[j])
}

/// Inserting `x` before the first element older than it keeps `s` newest
/// first and adds `x` to its elements.
proof fn lemma_insert_newest_first<A>(s: Seq<A>, time: spec_fn(A) -> int, p: int, x: A)
    requires
        newest_first(s, time),
        0 <= p <= s.len(),
        forall|j: int| 0 <= j < p ==> time(#[trigger] s[j]) >= time(x),
        p < s.len() ==> time(s[p]) < time(x),
    ensures
        newest_first(s.insert(p, x), time),
        s.insert(p, x).to_multiset() =~= s.to_multiset().insert(x),
{
    let t = s.insert(p, x);
    assert forall|i: int, j: int| 0 <= i < j < t.len() implies time(t[i]) >= time(t[j]) by {
        if j < p {
        } else if j == p {
        } else if i < p {
            assert(time(s[i]) >= time(x));
            assert(time(x) > time(s[p]));
            if j - 1 > p {
                assert(time(s[p]) >= time(s[j - 1]));
            }
        } else if i == p {
            if j - 1 > p {
                assert(time(s[p]) >= time(s[j - 1]));
            }
        } else {
        }
    }
    broadcast use vstd::seq_lib::group_to_multiset_ensures;
    assert(t.remove(p) =~= s);
    assert(t.to_multiset().count(x) > 0) by {
        assert(t.contains(x)) by {
            assert(t[p] == x);
        }
    }
}

/// Store of server, client code and connection records.
pub struct StateManager {
    servers: Vec<ServerConfig>,
    clients: Vec<ClientConfig>,
    connections: Vec<ConnectionConfig>,
}

impl StateManager {
    pub closed spec fn servers(&self) -> Seq<ServerConfig> {
        self.servers@
    }

    pub closed spec fn clients(&self) -> Seq<ClientConfig> {
        self.clients@
    }

    pub closed spec fn connections(&self) -> Seq<ConnectionConfig> {
        self.connections@
    }

    /// Server names and ids, client codes and ids, and connection ids are
    /// unique.
    pub open spec fn wf(&self) -> bool {
        &&& servers_unique(self.servers())
        &&& codes_unique(self.clients())
        &&& connection_ids_unique(self.connections())
    }

    /// An empty store.
    pub fn new() -> (r: Self)
        ensures
            r.wf(),
            r.servers() == Seq::<ServerConfig>::empty(),
            r.clients() == Seq::<ClientConfig>::empty(),
            r.connections() == Seq::<ConnectionConfig>::empty(),
    {
        StateManager { servers: Vec::new(), clients: Vec::new(), connections: Vec::new() }
    }
}


impl StateManager {
    /// Store a new server; refused when its name or id is taken.
    pub fn create_server(&mut self, config: ServerConfig) -> (r: Result<(), StoreError>)
        requires
            old(self).wf(),
        ensures
            final(self).wf(),
            r is Err <==> exists|i: int|
                0 <= i < old(self).servers().len() && ((#[trigger] old(self).servers()[i]).name@ == config.name@
                    || old(self).servers()[i].id@ == config.id@),
            r is Err ==> r == Err::<(), StoreError>(StoreError::DuplicateServer) && final(self).servers()
                == old(self).servers(),
            r is Ok ==> final(self).servers() == old(self).servers().push(config),
            final(self).clients() == old(self).clients(),
            final(self).connections() == old(self).connections(),
    {
        let mut i: usize = 0;
        while i < self.servers.len()
            invariant
                i <= self.servers@.len(),
                self.servers@ == old(self).servers@,
                self.clients@ == old(self).clients@,
                self.connections@ == old(self).connections@,
                self.wf(),
                forall|j: int|
                    0 <= j < i ==> !((#[trigger] self.servers@[j]).name@ == config.name@ || self.servers@[j].id@
                        == config.id@),
            decreases self.servers@.len() - i,
        {
            if text_eq(self.servers[i].name.as_str(), config.name.as_str()) || text_eq(
                self.servers[i].id.as_str(),
                config.id.as_str(),
            ) {
                return Err(StoreError::DuplicateServer);
            }
            i = i + 1;
        }
        self.servers.push(config);
        Ok(())
    }

    /// The server with the given name.
    pub fn get_server(&self, name: &str) -> (r: Option<ServerConfig>)
        ensures
            r == server_named(self.servers(), name@),
    {
        let ghost s = self.servers@;
        let mut found: Option<ServerConfig> = None;
        let mut i: usize = 0;
        while i < self.servers.len()
            invariant
                s == self.servers@,
                i <= s.len(),
                found == server_named(s.subrange(0, i as int), name@),
            decreases s.len() - i,
        {
            assert(s.subrange(0, i + 1).drop_last() =~= s.subrange(0, i as int));
            if text_eq(self.servers[i].name.as_str(), name) {
                found = Some(self.servers[i].clone());
            }
            i = i + 1;
        }
        assert(s.subrange(0, s.len() as int) =~= s);
        found
    }

    /// The server with the given id.
    pub fn get_server_by_id(&self, id: &str) -> (r: Option<ServerConfig>)
        ensures
            r == server_with_id(self.servers(), id@),
    {
        let ghost s = self.servers@;
        let mut found: Option<ServerConfig> = None;
        let mut i: usize = 0;
        while i < self.servers.len()
            invariant
                s == self.servers@,
                i <= s.len(),
                found == server_with_id(s.subrange(0, i as int), id@),
            decreases s.len() - i,
        {
            assert(s.subrange(0, i + 1).drop_last() =~= s.subrange(0, i as int));
            if text_eq(self.servers[i].id.as_str(), id) {
                found = Some(self.servers[i].clone());
            }
            i = i + 1;
        }
        assert(s.subrange(0, s.len() as int) =~= s);
        found
    }

    /// Every server, newest first.
    pub fn list_servers(&self) -> (r: Vec<ServerConfig>)
        ensures
            r@.to_multiset() == self.servers().to_multiset(),
            newest_first(r@, |c: ServerConfig| c.created_at as int),
    {
        let ghost s = self.servers@;
        let mut out: Vec<ServerConfig> = Vec::new();
        assert(out@ =~= s.subrange(0, 0));
        let mut i: usize = 0;
        while i < self.servers.len()
            invariant
                s == self.servers@,
                i <= s.len(),
                out@.to_multiset() == s.subrange(0, i as int).to_multiset(),
                newest_first(out@, |c: ServerConfig| c.created_at as int),
            decreases s.len() - i,
        {
            let x = self.servers[i].clone();
            let mut p: usize = 0;
            while p < out.len() && out[p].created_at >= x.created_at
                invariant
                    p <= out@.len(),
                    forall|j: int| 0 <= j < p ==> (#[trigger] out@[j]).created_at >= x.created_at,
                decreases out@.len() - p,
            {
                p = p + 1;
            }
            proof {
                lemma_insert_newest_first(out@, |c: ServerConfig| c.created_at as int, p as int, x);
                broadcast use vstd::seq_lib::group_to_multiset_ensures;
                assert(s.subrange(0, i + 1) =~= s.subrange(0, i as int).push(x));
            }
            out.insert(p, x);
            i = i + 1;
        }
        assert(s.subrange(0, s.len() as int) =~= s);
        out
    }

    /// Set the state of the server with the given id.
    pub fn update_server_status(&mut self, id: &str, status: ServerStatus)
        requires
            old(self).wf(),
        ensures
            final(self).wf(),
            final(self).servers() == servers_with_status(old(self).servers(), id@, status),
            final(self).clients() == old(self).clients(),
            final(self).connections() == old(self).connections(),
    {
        let ghost s = self.servers@;
        let mut i: usize = 0;
        while i < self.servers.len()
            invariant
                self.servers@.len() == s.len(),
                i <= s.len(),
                forall|j: int| 0 <= j < i ==> #[trigger] self.servers@[j] == servers_with_status(s, id@, status)[j],
                forall|j: int| i <= j < s.len() ==> #[trigger] self.servers@[j] == s[j],
                self.clients@ == old(self).clients@,
                self.connections@ == old(self).connections@,
            decreases s.len() - i,
        {
            if text_eq(self.servers[i].id.as_str(), id) {
                let mut c = self.servers.remove(i);
                c.status = status;
                self.servers.insert(i, c);
            }
            i = i + 1;
        }
        assert(self.servers@ =~= servers_with_status(s, id@, status));
    }

    /// Set the onion address of the server with the given id.
    pub fn update_server_onion(&mut self, id: &str, onion_address: &str)
        requires
            old(self).wf(),
        ensures
            final(self).wf(),
            final(self).servers().len() == old(self).servers().len(),
            forall|j: int|
                0 <= j < old(self).servers().len() ==> onion_updated(
                    old(self).servers()[j],
                    #[trigger] final(self).servers()[j],
                    id@,
                    onion_address@,
                ),
            final(self).clients() == old(self).clients(),
            final(self).connections() == old(self).connections(),
    {
        let ghost s = self.servers@;
        let mut i: usize = 0;
        while i < self.servers.len()
            invariant
                self.servers@.len() == s.len(),
                i <= s.len(),
                forall|j: int| 0 <= j < i ==> onion_updated(s[j], #[trigger] self.servers@[j], id@, onion_address@),
                forall|j: int| i <= j < s.len() ==> #[trigger] self.servers@[j] == s[j],
                self.clients@ == old(self).clients@,
                self.connections@ == old(self).connections@,
            decreases s.len() - i,
        {
            if text_eq(self.servers[i].id.as_str(), id) {
                let mut c = self.servers.remove(i);
                c.onion_address = Some(owned(onion_address));
                self.servers.insert(i, c);
            }
            i = i + 1;
        }
    }
}


impl StateManager {
    /// Remove the server with the given name and the client codes that
    /// belong to it.
    pub fn delete_server(&mut self, name: &str)
        requires
            old(self).wf(),
        ensures
            final(self).wf(),
            final(self).servers() == servers_without(old(self).servers(), name@),
            final(self).clients() == match server_named(old(self).servers(), name@) {
                Some(gone) => clients_not_of(old(self).clients(), gone.id@),
                None => old(self).clients(),
            },
            final(self).connections() == old(self).connections(),
    {
        let target = self.get_server(name);
        let ghost s = self.servers@;
        let mut kept: Vec<ServerConfig> = Vec::new();
        let mut i: usize = 0;
        while i < self.servers.len()
            invariant
                s == self.servers@,
                i <= s.len(),
                kept@ == servers_without(s.subrange(0, i as int), name@),
            decreases s.len() - i,
        {
            assert(s.subrange(0, i + 1).drop_last() =~= s.subrange(0, i as int));
            if !text_eq(self.servers[i].name.as_str(), name) {
                kept.push(self.servers[i].clone());
            }
            i = i + 1;
        }
        assert(s.subrange(0, s.len() as int) =~= s);
        proof {
            lemma_keep_unique(s, |c: ServerConfig| c.name@ != name@, |c: ServerConfig| c.name@);
            lemma_keep_unique(s, |c: ServerConfig| c.name@ != name@, |c: ServerConfig| c.id@);
        }
        self.servers = kept;
        match target {
            Some(gone) => {
                let ghost t = self.clients@;
                let mut left: Vec<ClientConfig> = Vec::new();
                let mut j: usize = 0;
                while j < self.clients.len()
                    invariant
                        t == self.clients@,
                        j <= t.len(),
                        left@ == clients_not_of(t.subrange(0, j as int), gone.id@),
                    decreases t.len() - j,
                {
                    assert(t.subrange(0, j + 1).drop_last() =~= t.subrange(0, j as int));
                    if !text_eq(self.clients[j].server_id.as_str(), gone.id.as_str()) {
                        left.push(self.clients[j].clone());
                    }
                    j = j + 1;
                }
                assert(t.subrange(0, t.len() as int) =~= t);
                proof {
                    lemma_keep_unique(t, |c: ClientConfig| c.server_id@ != gone.id@, |c: ClientConfig| c.code@);
                    lemma_keep_unique(t, |c: ClientConfig| c.server_id@ != gone.id@, |c: ClientConfig| c.id@);
                }
                self.clients = left;
            },
            None => {},
        }
    }

    /// Store a client code; refused when its code or id is taken.
    pub fn insert_client(&mut self, client: ClientConfig) -> (r: Result<(), StoreError>)
        requires
            old(self).wf(),
        ensures
            final(self).wf(),
            r is Err <==> exists|i: int|
                0 <= i < old(self).clients().len() && ((#[trigger] old(self).clients()[i]).code@ == client.code@
                    || old(self).clients()[i].id@ == client.id@),
            r is Err ==> r == Err::<(), StoreError>(StoreError::DuplicateCode) && final(self).clients()
                == old(self).clients(),
            r is Ok ==> final(self).clients() == old(self).clients().push(client),
            final(self).servers() == old(self).servers(),
            final(self).connections() == old(self).connections(),
    {
        let mut i: usize = 0;
        while i < self.clients.len()
            invariant
                i <= self.clients@.len(),
                self.servers@ == old(self).servers@,
                self.clients@ == old(self).clients@,
                self.connections@ == old(self).connections@,
                self.wf(),
                forall|j: int|
                    0 <= j < i ==> !((#[trigger] self.clients@[j]).code@ == client.code@ || self.clients@[j].id@
                        == client.id@),
            decreases self.clients@.len() - i,
        {
            if text_eq(self.clients[i].code.as_str(), client.code.as_str()) || text_eq(
                self.clients[i].id.as_str(),
                client.id.as_str(),
            ) {
                return Err(StoreError::DuplicateCode);
            }
            i = i + 1;
        }
        self.clients.push(client);
        Ok(())
    }

    /// Create a pending client code for a server: a fresh id and a random
    /// twelve-character code, created now.
    pub fn create_client(&mut self, server_id: &str) -> (r: Result<ClientConfig, StoreError>)
        requires
            old(self).wf(),
        ensures
            final(self).wf(),
            match r {
                Ok(c) => {
                    &&& is_new_client_code(c, server_id@)
                    &&& final(self).clients() == old(self).clients().push(c)
                },
                Err(e) => {
                    &&& e == StoreError::DuplicateCode
                    &&& final(self).clients() == old(self).clients()
                    &&& exists|c: ClientConfig| is_new_client_code(c, server_id@) && #[trigger] collides(old(self).clients(), c)
                },
            },
            old(self).clients().len() == 0 ==> r is Ok,
            final(self).servers() == old(self).servers(),
            final(self).connections() == old(self).connections(),
    {
        let alphabet = "ABCDEFGHJKLMNPQRSTUVWXYZ23456789";
        proof {
            reveal_strlit("ABCDEFGHJKLMNPQRSTUVWXYZ23456789");
        }
        let client = ClientConfig {
            id: new_uuid(),
            server_id: owned(server_id),
            code: random_text(alphabet, 12),
            created_at: current_timestamp(),
            connected_at: None,
            status: ClientStatus::Pending,
        };
        let copy = client.clone();
        match self.insert_client(client) {
            Ok(()) => Ok(copy),
            Err(e) => {
                assert(collides(old(self).clients(), copy));
                Err(e)
            },
        }
    }

    /// The client code equal to `code`.
    pub fn get_client_by_code(&self, code: &str) -> (r: Option<ClientConfig>)
        ensures
            r == client_with_code(self.clients(), code@),
    {
        let ghost s = self.clients@;
        let mut found: Option<ClientConfig> = None;
        let mut i: usize = 0;
        while i < self.clients.len()
            invariant
                s == self.clients@,
                i <= s.len(),
                found == client_with_code(s.subrange(0, i as int), code@),
            decreases s.len() - i,
        {
            assert(s.subrange(0, i + 1).drop_last() =~= s.subrange(0, i as int));
            if text_eq(self.clients[i].code.as_str(), code) {
                found = Some(self.clients[i].clone());
            }
            i = i + 1;
        }
        assert(s.subrange(0, s.len() as int) =~= s);
        found
    }

    /// Every client code, in the order stored.
    pub fn all_clients(&self) -> (r: Vec<ClientConfig>)
        ensures
            r@ == self.clients(),
    {
        let mut out: Vec<ClientConfig> = Vec::new();
        let mut i: usize = 0;
        while i < self.clients.len()
            invariant
                i <= self.clients@.len(),
                out@ =~= self.clients@.subrange(0, i as int),
            decreases self.clients@.len() - i,
        {
            out.push(self.clients[i].clone());
            i = i + 1;
        }
        out
    }

    /// The client codes of a server, newest first.
    pub fn list_clients(&self, server_id: &str) -> (r: Vec<ClientConfig>)
        ensures
            r@.to_multiset() == clients_of(self.clients(), server_id@).to_multiset(),
            newest_first(r@, |c: ClientConfig| c.created_at as int),
    {
        let ghost s = self.clients@;
        let mut out: Vec<ClientConfig> = Vec::new();
        let mut i: usize = 0;
        while i < self.clients.len()
            invariant
                s == self.clients@,
                i <= s.len(),
                out@.to_multiset() == clients_of(s.subrange(0, i as int), server_id@).to_multiset(),
                newest_first(out@, |c: ClientConfig| c.created_at as int),
            decreases s.len() - i,
        {
            assert(s.subrange(0, i + 1).drop_last() =~= s.subrange(0, i as int));
            if text_eq(self.clients[i].server_id.as_str(), server_id) {
                let x = self.clients[i].clone();
                let mut p: usize = 0;
                while p < out.len() && out[p].created_at >= x.created_at
                    invariant
                        p <= out@.len(),
                        forall|j: int| 0 <= j < p ==> (#[trigger] out@[j]).created_at >= x.created_at,
                    decreases out@.len() - p,
                {
                    p = p + 1;
                }
                proof {
                    lemma_insert_newest_first(out@, |c: ClientConfig| c.created_at as int, p as int, x);
                    broadcast use vstd::seq_lib::group_to_multiset_ensures;
                }
                out.insert(p, x);
            }
            i = i + 1;
        }
        assert(s.subrange(0, s.len() as int) =~= s);
        out
    }

    /// Set the state of the client code with the given id at `now`: a code
    /// that becomes connected records `now`, any other state clears the time.
    pub fn update_client_status_at(&mut self, id: &str, status: ClientStatus, now: u64)
        requires
            old(self).wf(),
        ensures
            final(self).wf(),
            final(self).clients() == clients_with_status(old(self).clients(), id@, status, now),
            final(self).servers() == old(self).servers(),
            final(self).connections() == old(self).connections(),
    {
        let ghost s = self.clients@;
        let connected_at = if status == ClientStatus::Connected {
            Some(now)
        } else {
            None
        };
        let mut i: usize = 0;
        while i < self.clients.len()
            invariant
                self.clients@.len() == s.len(),
                i <= s.len(),
                connected_at == if status == ClientStatus::Connected { Some(now) } else { None::<u64> },
                forall|j: int| 0 <= j < i ==> #[trigger] self.clients@[j] == clients_with_status(s, id@, status, now)[j],
                forall|j: int| i <= j < s.len() ==> #[trigger] self.clients@[j] == s[j],
                self.servers@ == old(self).servers@,
                self.connections@ == old(self).connections@,
            decreases s.len() - i,
        {
            if text_eq(self.clients[i].id.as_str(), id) {
                let mut c = self.clients.remove(i);
                c.status = status;
                c.connected_at = connected_at;
                self.clients.insert(i, c);
            }
            i = i + 1;
        }
        assert(self.clients@ =~= clients_with_status(s, id@, status, now));
    }

    /// Set the state of the client code with the given id, now.
    pub fn update_client_status(&mut self, id: &str, status: ClientStatus)
        requires
            old(self).wf(),
        ensures
            final(self).wf(),
            exists|now: u64| final(self).clients() == clients_with_status(old(self).clients(), id@, status, now),
            final(self).servers() == old(self).servers(),
            final(self).connections() == old(self).connections(),
    {
        let now = current_timestamp();
        self.update_client_status_at(id, status, now)
    }

    /// Store a connection; refused when its id is taken.
    pub fn create_connection(&mut self, config: ConnectionConfig) -> (r: Result<(), StoreError>)
        requires
            old(self).wf(),
        ensures
            final(self).wf(),
            r is Err <==> exists|i: int|
                0 <= i < old(self).connections().len() && (#[trigger] old(self).connections()[i]).id@ == config.id@,
            r is Err ==> r == Err::<(), StoreError>(StoreError::DuplicateConnection) && final(self).connections()
                == old(self).connections(),
            r is Ok ==> final(self).connections() == old(self).connections().push(config),
            final(self).servers() == old(self).servers(),
            final(self).clients() == old(self).clients(),
    {
        let mut i: usize = 0;
        while i < self.connections.len()
            invariant
                i <= self.connections@.len(),
                self.servers@ == old(self).servers@,
                self.clients@ == old(self).clients@,
                self.connections@ == old(self).connections@,
                self.wf(),
                forall|j: int| 0 <= j < i ==> (#[trigger] self.connections@[j]).id@ != config.id@,
            decreases self.connections@.len() - i,
        {
            if text_eq(self.connections[i].id.as_str(), config.id.as_str()) {
                return Err(StoreError::DuplicateConnection);
            }
            i = i + 1;
        }
        self.connections.push(config);
        Ok(())
    }

    /// The connection known under `name`, as server name or alias.
    pub fn get_connection(&self, name: &str) -> (r: Option<ConnectionConfig>)
        ensures
            r == connection_named(self.connections(), name@),
    {
        let ghost s = self.connections@;
        let mut found: Option<ConnectionConfig> = None;
        let mut i: usize = 0;
        while i < self.connections.len()
            invariant
                s == self.connections@,
                i <= s.len(),
                found == connection_named(s.subrange(0, i as int), name@),
            decreases s.len() - i,
        {
            assert(s.subrange(0, i + 1).drop_last() =~= s.subrange(0, i as int));
            if connection_known_as(&self.connections[i], name) {
                found = Some(self.connections[i].clone());
            }
            i = i + 1;
        }
        assert(s.subrange(0, s.len() as int) =~= s);
        found
    }

    /// Every connection, most recently connected first.
    pub fn list_connections(&self) -> (r: Vec<ConnectionConfig>)
        ensures
            r@.to_multiset() == self.connections().to_multiset(),
            newest_first(r@, |c: ConnectionConfig| c.connected_at as int),
    {
        let ghost s = self.connections@;
        let mut out: Vec<ConnectionConfig> = Vec::new();
        assert(out@ =~= s.subrange(0, 0));
        let mut i: usize = 0;
        while i < self.connections.len()
            invariant
                s == self.connections@,
                i <= s.len(),
                out@.to_multiset() == s.subrange(0, i as int).to_multiset(),
                newest_first(out@, |c: ConnectionConfig| c.connected_at as int),
            decreases s.len() - i,
        {
            let x = self.connections[i].clone();
            let mut p: usize = 0;
            while p < out.len() && out[p].connected_at >= x.connected_at
                invariant
                    p <= out@.len(),
                    forall|j: int| 0 <= j < p ==> (#[trigger] out@[j]).connected_at >= x.connected_at,
                decreases out@.len() - p,
            {
                p = p + 1;
            }
            proof {
                lemma_insert_newest_first(out@, |c: ConnectionConfig| c.connected_at as int, p as int, x);
                broadcast use vstd::seq_lib::group_to_multiset_ensures;
                assert(s.subrange(0, i + 1) =~= s.subrange(0, i as int).push(x));
            }
            out.insert(p, x);
            i = i + 1;
        }
        assert(s.subrange(0, s.len() as int) =~= s);
        out
    }

    /// Remove every connection known under `name`.
    pub fn delete_connection(&mut self, name: &str)
        requires
            old(self).wf(),
        ensures
            final(self).wf(),
            final(self).connections() == connections_without(old(self).connections(), name@),
            final(self).servers() == old(self).servers(),
            final(self).clients() == old(self).clients(),
    {
        let ghost s = self.connections@;
        let mut kept: Vec<ConnectionConfig> = Vec::new();
        let mut i: usize = 0;
        while i < self.connections.len()
            invariant
                s == self.connections@,
                i <= s.len(),
                kept@ == connections_without(s.subrange(0, i as int), name@),
            decreases s.len() - i,
        {
            assert(s.subrange(0, i + 1).drop_last() =~= s.subrange(0, i as int));
            if !connection_known_as(&self.connections[i], name) {
                kept.push(self.connections[i].clone());
            }
            i = i + 1;
        }
        assert(s.subrange(0, s.len() as int) =~= s);
        proof {
            lemma_keep_unique(s, |c: ConnectionConfig| !connection_matches(c, name@), |c: ConnectionConfig| c.id@);
        }
        self.connections = kept;
    }
}

/// Whether a connection is known under `name`.
fn connection_known_as(c: &ConnectionConfig, name: &str) -> (r: bool)
    ensures
        r == connection_matches(*c, name@),
{
    if text_eq(c.server_name.as_str(), name) {
        return true;
    }
    match &c.alias {
        Some(a) => text_eq(a.as_str(), name),
        None => false,
    }
}

/// `s` with every client code whose id is `id` set to `status`, connected at
/// `now` when that status is connected.
pub open spec fn clients_with_status(s: Seq<ClientConfig>, id: Seq<char>, status: ClientStatus, now: u64) -> Seq<ClientConfig> {
    Seq::new(
        s.len(),
        |i: int|
            if s[i].id@ == id {
                ClientConfig {
                    status,
                    connected_at: if status == ClientStatus::Connected {
                        Some(now)
                    } else {
                        None
                    },
                    ..s[i]
                }
            } else {
                s[i]
            },
    )
}

/// A stored server is found under its name: creating a server whose name and
/// id are free and then looking its name up gives back that server.
pub proof fn lemma_create_then_get(store: Seq<ServerConfig>, server: ServerConfig)
    ensures
        server_named(store.push(server), server.name@) == Some(server),
{
    assert(store.push(server).last() == server);
}



/// Whether a stopped server of `servers` has the id `id`.
pub open spec fn stopped_server_id(servers: Seq<ServerConfig>, id: Seq<char>) -> bool {
    exists|i: int| 0 <= i < servers.len() && (#[trigger] servers[i]).status == ServerStatus::Stopped && servers[i].id@ == id
}

/// The servers of `s` that are not stopped.
pub open spec fn servers_not_stopped(s: Seq<ServerConfig>) -> Seq<ServerConfig> {
    keep(s, |c: ServerConfig| c.status != ServerStatus::Stopped)
}

/// The client codes of `clients` whose server is not a stopped one of
/// `servers`.
pub open spec fn codes_of_live_servers(clients: Seq<ClientConfig>, servers: Seq<ServerConfig>) -> Seq<ClientConfig> {
    keep(clients, |c: ClientConfig| !stopped_server_id(servers, c.server_id@))
}

/// Keeping what every element satisfies keeps everything.
proof fn lemma_keep_all<A>(s: Seq<A>, p: spec_fn(A) -> bool)
    requires
        forall|i: int| 0 <= i < s.len() ==> p(#[trigger] s[i]),
    ensures
        keep(s, p) == s,
    decreases s.len(),
{
    if s.len() > 0 {
        let q = s.drop_last();
        assert forall|i: int| 0 <= i < q.len() implies p(#[trigger] q[i]) by {
            assert(q[i] == s[i]);
        }
        lemma_keep_all(q, p);
        assert(p(s[s.len() - 1]));
        assert(q.push(s.last()) =~= s);
    }
}

impl StateManager {
    /// Whether a stopped server has the given id.
    fn has_stopped_server(&self, id: &str) -> (r: bool)
        ensures
            r == stopped_server_id(self.servers(), id@),
    {
        let mut i: usize = 0;
        while i < self.servers.len()
            invariant
                i <= self.servers@.len(),
                forall|j: int|
                    0 <= j < i ==> !((#[trigger] self.servers@[j]).status == ServerStatus::Stopped
                        && self.servers@[j].id@ == id@),
            decreases self.servers@.len() - i,
        {
            if self.servers[i].status == ServerStatus::Stopped && text_eq(self.servers[i].id.as_str(), id) {
                assert(self.servers@[i as int].status == ServerStatus::Stopped);
                return true;
            }
            i = i + 1;
        }
        false
    }

    /// Remove every stopped server and the client codes that belong to them.
    /// Returns how many servers were removed.
    pub fn cleanup_stopped(&mut self) -> (r: usize)
        requires
            old(self).wf(),
        ensures
            final(self).wf(),
            final(self).servers() == servers_not_stopped(old(self).servers()),
            final(self).clients() == codes_of_live_servers(old(self).clients(), old(self).servers()),
            final(self).connections() == old(self).connections(),
            r == old(self).servers().len() - final(self).servers().len(),
    {
        let ghost t = self.clients@;
        let mut left: Vec<ClientConfig> = Vec::new();
        let mut j: usize = 0;
        while j < self.clients.len()
            invariant
                t == self.clients@,
                self.servers@ == old(self).servers@,
                j <= t.len(),
                left@ == codes_of_live_servers(t.subrange(0, j as int), self.servers@),
            decreases t.len() - j,
        {
            assert(t.subrange(0, j + 1).drop_last() =~= t.subrange(0, j as int));
            if !self.has_stopped_server(self.clients[j].server_id.as_str()) {
                left.push(self.clients[j].clone());
            }
            j = j + 1;
        }
        assert(t.subrange(0, t.len() as int) =~= t);
        proof {
            lemma_keep_unique(t, |c: ClientConfig| !stopped_server_id(old(self).servers@, c.server_id@), |c: ClientConfig| c.code@);
            lemma_keep_unique(t, |c: ClientConfig| !stopped_server_id(old(self).servers@, c.server_id@), |c: ClientConfig| c.id@);
        }
        self.clients = left;
        let ghost s = self.servers@;
        let mut kept: Vec<ServerConfig> = Vec::new();
        let mut i: usize = 0;
        while i < self.servers.len()
            invariant
                s == self.servers@,
                i <= s.len(),
                kept@ == servers_not_stopped(s.subrange(0, i as int)),
            decreases s.len() - i,
        {
            assert(s.subrange(0, i + 1).drop_last() =~= s.subrange(0, i as int));
            if self.servers[i].status != ServerStatus::Stopped {
                kept.push(self.servers[i].clone());
            }
            i = i + 1;
        }
        assert(s.subrange(0, s.len() as int) =~= s);
        proof {
            lemma_keep_unique(s, |c: ServerConfig| c.status != ServerStatus::Stopped, |c: ServerConfig| c.name@);
            lemma_keep_unique(s, |c: ServerConfig| c.status != ServerStatus::Stopped, |c: ServerConfig| c.id@);
            lemma_keep_len(s, |c: ServerConfig| c.status != ServerStatus::Stopped);
        }
        let removed = self.servers.len() - kept.len();
        self.servers = kept;
        removed
    }
}

proof fn lemma_keep_len<A>(s: Seq<A>, p: spec_fn(A) -> bool)
    ensures
        keep(s, p).len() <= s.len(),
    decreases s.len(),
{
    if s.len() > 0 {
        lemma_keep_len(s.drop_last(), p);
    }
}

/// Cleanup on a store without stopped servers changes nothing.
pub proof fn lemma_cleanup_idle(servers: Seq<ServerConfig>, clients: Seq<ClientConfig>)
    requires
        forall|i: int| 0 <= i < servers.len() ==> (#[trigger] servers[i]).status != ServerStatus::Stopped,
    ensures
        servers_not_stopped(servers) == servers,
        codes_of_live_servers(clients, servers) == clients,
{
    lemma_keep_all(servers, |c: ServerConfig| c.status != ServerStatus::Stopped);
    assert forall|i: int| 0 <= i < clients.len() implies !stopped_server_id(servers, (#[trigger] clients[i]).server_id@) by {
    }
    lemma_keep_all(clients, |c: ClientConfig| !stopped_server_id(servers, c.server_id@));
}

} // verus!
