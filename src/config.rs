//! Configuration of the web bridge and of the command-line surfaces.

use crate::text::{concat, owned};
use vstd::prelude::*;

verus! {

/// `part` joined onto the path `base`: an absolute `part` replaces `base`,
/// otherwise a `/` separates them unless `base` is empty or ends with one.
pub open spec fn path_join(base: Seq<char>, part: Seq<char>) -> Seq<char> {
    if part.len() > 0 && part[0] == '/' {
        part
    } else if base.len() == 0 || base.last() == '/' {
        base + part
    } else {
        base + seq!['/'] + part
    }
}

/// Join `part` onto the path `base`.
pub fn join_path(base: &str, part: &str) -> (r: String)
    ensures
        r@ == path_join(base@, part@),
{
    let n = base.unicode_len();
    if part.unicode_len() > 0 && part.get_char(0) == '/' {
        owned(part)
    } else if n == 0 || base.get_char(n - 1) == '/' {
        concat(base, part)
    } else {
        let with_sep = concat(base, "/");
        proof {
            reveal_strlit("/");
        }
        let r = concat(with_sep.as_str(), part);
        assert(r@ =~= base@ + seq!['/'] + part@);
        r
    }
}

/// Configuration of the web bridge.
#[derive(Debug)]
pub struct EddiConfig {
    /// Unix-domain socket of the local application.
    pub socket_path: String,
    /// Working directory of the application, when it is spawned.
    pub app_dir: Option<String>,
    /// Application module, e.g. `app:app`.
    pub app_module: String,
    /// Number of worker processes.
    pub workers: u8,
    /// Nickname of the onion service.
    pub onion_service_nickname: String,
    /// Directory of onion service keys.
    pub key_dir: String,
    /// Whether to test the socket before serving.
    pub test_connection: bool,
    /// Whether to spawn the application.
    pub should_spawn: bool,
}

impl Default for EddiConfig {
    /// The command line's defaults, with keys under `.eddi/onion-services`.
    fn default() -> (r: Self)
        ensures
            r.socket_path@ == "/tmp/eddi.sock"@,
            r.app_dir is None,
            r.app_module@ == "app:app"@,
            r.workers == 2,
            r.onion_service_nickname@ == "eddi-demo"@,
            r.key_dir@ == ".eddi/onion-services"@,
            r.test_connection,
            r.should_spawn,
    {
        EddiConfig {
            socket_path: owned("/tmp/eddi.sock"),
            app_dir: None,
            app_module: owned("app:app"),
            workers: 2,
            onion_service_nickname: owned("eddi-demo"),
            key_dir: owned(".eddi/onion-services"),
            test_connection: true,
            should_spawn: true,
        }
    }
}

impl EddiConfig {
    /// Where the keys of this nickname are kept.
    pub fn get_key_storage_path(&self) -> (r: String)
        ensures
            r@ == path_join(self.key_dir@, self.onion_service_nickname@),
    {
        join_path(self.key_dir.as_str(), self.onion_service_nickname.as_str())
    }
}

/// Configuration of the standalone socket demo.
#[derive(Debug)]
pub struct Config {
    pub socket_path: String,
    pub app_dir: String,
    pub gunicorn_workers: u8,
}

impl Default for Config {
    fn default() -> (r: Self)
        ensures
            r.socket_path@ == "/tmp/eddi-task3.sock"@,
            r.app_dir@ == "test-apps/flask-demo"@,
            r.gunicorn_workers == 1,
    {
        Config {
            socket_path: owned("/tmp/eddi-task3.sock"),
            app_dir: owned("test-apps/flask-demo"),
            gunicorn_workers: 1,
        }
    }
}

/// Outcome of a run of connectivity checks.
#[derive(Debug, Clone, Copy, PartialEq, Eq, Structural)]
pub enum SummaryVerdict {
    /// Nothing failed and at least five checks passed.
    AllPassed,
    /// Nothing failed and three or four checks passed.
    CriticalPassed,
    /// Some check failed.
    SomeFailed,
    /// Nothing failed but fewer than three checks passed.
    Inconclusive,
}

/// The verdict of a run of connectivity checks.
pub fn summary_verdict(passed: u32, failed: u32) -> (r: SummaryVerdict)
    ensures
        r == if failed == 0 && passed >= 5 {
            SummaryVerdict::AllPassed
        } else if failed == 0 && passed >= 3 {
            SummaryVerdict::CriticalPassed
        } else if failed > 0 {
            SummaryVerdict::SomeFailed
        } else {
            SummaryVerdict::Inconclusive
        },
{
    if failed == 0 && passed >= 5 {
        SummaryVerdict::AllPassed
    } else if failed == 0 && passed >= 3 {
        SummaryVerdict::CriticalPassed
    } else if failed > 0 {
        SummaryVerdict::SomeFailed
    } else {
        SummaryVerdict::Inconclusive
    }
}

/// Path of the Unix-domain socket of the message server `name`.
pub fn server_socket_path(name: &str) -> (r: String)
    ensures
        r@ == "/tmp/eddi-msgsrv-"@ + name@ + ".sock"@,
{
    let head = concat("/tmp/eddi-msgsrv-", name);
    concat(head.as_str(), ".sock")
}

/// Subcommands of the message server's command line.
#[derive(Debug)]
#[allow(inconsistent_fields)]
pub enum MsgSrvCommand {
    CreateServer { name: String, ttl: u64, local_only: bool, stealth: bool },
    CreateBroker { server: String, namespace: String, timeout: u64, local_only: bool },
    Connect { code: String, namespace: String, time_window: i64, alias: Option<String> },
    Send { message: String, server: Option<String> },
    Receive { server: Option<String>, once: bool, since: Option<u64> },
    Listen { server: Option<String>, daemon: bool, background: bool },
    ListServers { verbose: bool },
    ListBrokers,
    ListClients { server: String },
    ListConnections { verbose: bool },
    Status { name: Option<String> },
    StopServer { name: String },
    StopBroker { id: String },
    Disconnect { name: String },
    RevokeClient { server: String, code: String },
    Cleanup { force: bool },
}

/// The message server's command line.
#[derive(Debug)]
pub struct MsgSrvCli {
    pub command: MsgSrvCommand,
}

} // verus!
