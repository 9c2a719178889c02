//! Configuration of a local application process bound to a Unix-domain
//! socket.

use crate::text::{concat, decimal, decimal_text, owned};
use vstd::prelude::*;

verus! {

/// How to run the local application.
#[derive(Debug)]
pub struct ProcessConfig {
    /// Path of the Unix-domain socket the application listens on.
    pub socket_path: String,
    /// Working directory of the application.
    pub app_dir: String,
    /// Program to run.
    pub command: String,
    /// Its arguments.
    pub args: Vec<String>,
}

impl Clone for ProcessConfig {
    fn clone(&self) -> (r: Self)
        ensures
            r.socket_path == self.socket_path,
            r.app_dir == self.app_dir,
            r.command == self.command,
            r.args@ == self.args@,
    {
        let mut args: Vec<String> = Vec::new();
        let mut i: usize = 0;
        while i < self.args.len()
            invariant
                i <= self.args@.len(),
                args@ =~= self.args@.subrange(0, i as int),
            decreases self.args@.len() - i,
        {
            args.push(self.args[i].clone());
            i = i + 1;
        }
        ProcessConfig {
            socket_path: self.socket_path.clone(),
            app_dir: self.app_dir.clone(),
            command: self.command.clone(),
            args,
        }
    }
}

impl ProcessConfig {
    /// A gunicorn process with `workers` workers serving `app_module`, bound
    /// to `unix:<socket_path>`.
    pub fn gunicorn(socket_path: String, app_dir: String, app_module: &str, workers: u8) -> (r: Self)
        ensures
            r.socket_path == socket_path,
            r.app_dir == app_dir,
            r.command@ == "gunicorn"@,
            r.args@.len() == 5,
            r.args@[0]@ == "--workers"@,
            r.args@[1]@ == decimal(workers as nat),
            r.args@[2]@ == "--bind"@,
            r.args@[3]@ == "unix:"@ + socket_path@,
            r.args@[4]@ == app_module@,
    {
        let bind_addr = concat("unix:", socket_path.as_str());
        let mut args: Vec<String> = Vec::new();
        args.push(owned("--workers"));
        args.push(decimal_text(workers));
        args.push(owned("--bind"));
        args.push(bind_addr);
        args.push(owned(app_module));
        ProcessConfig { socket_path, app_dir, command: owned("gunicorn"), args }
    }
}

/// What to do after a failed attempt to connect to the application's socket.
#[derive(Debug, Clone, Copy, PartialEq, Eq, Structural)]
pub enum ConnectRetry {
    /// Wait this many milliseconds, then try again.
    RetryAfter { millis: u64 },
    /// Stop trying.
    GiveUp,
}

/// How many failed attempts are retried.
pub const MAX_CONNECT_ATTEMPTS: u32 = 10;

/// The pause between attempts, in milliseconds.
pub const CONNECT_RETRY_MILLIS: u64 = 500;

/// The decision after `failed_attempts` failed attempts in a row: retry after
/// a pause while at most the limit have failed, give up after that.
pub fn after_failed_connect(failed_attempts: u32) -> (r: ConnectRetry)
    ensures
        r == if failed_attempts > MAX_CONNECT_ATTEMPTS {
            ConnectRetry::GiveUp
        } else {
            ConnectRetry::RetryAfter { millis: CONNECT_RETRY_MILLIS }
        },
{
    if failed_attempts > MAX_CONNECT_ATTEMPTS {
        ConnectRetry::GiveUp
    } else {
        ConnectRetry::RetryAfter { millis: CONNECT_RETRY_MILLIS }
    }
}

} // verus!
