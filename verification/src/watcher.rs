//! The watcher daemon supervisor's decision logic.
//!
//! The watcher itself is an auxiliary companion process, detached by a
//! double fork and monitored by periodically signalling its process id.
//! Forking, signalling and log redirection are operating-system work
//! done by the caller; this module holds the data carried around for it
//! and the one rule that matters: when a liveness probe justifies a
//! restart of the whole daemonization procedure.

use vstd::prelude::*;

verus! {

/// Configuration of the watcher daemon: where the wallet data lives
/// (handed to the watcher as its argument) and where its log file goes.
#[derive(Debug)]
pub struct Watcher {
    wallet_dir: String,
    log_dir: String,
}

impl Watcher {
    /// The wallet data directory, for contracts.
    pub closed spec fn wallet_dir_spec(&self) -> Seq<char> {
        self.wallet_dir@
    }

    /// The log directory, for contracts.
    pub closed spec fn log_dir_spec(&self) -> Seq<char> {
        self.log_dir@
    }

    pub fn new(wallet_dir: String, log_dir: String) -> (r: Self)
        ensures
            r.wallet_dir_spec() == wallet_dir@,
            r.log_dir_spec() == log_dir@,
    {
        Self { wallet_dir, log_dir }
    }

    /// The wallet data directory handed to the watcher process.
    pub fn wallet_dir(&self) -> (r: &String)
        ensures
            r@ == self.wallet_dir_spec(),
    {
        &self.wallet_dir
    }

    /// The path of the watcher's log file: the log directory with the
    /// log file name appended.
    pub fn log_file(&self) -> (r: String)
        ensures
            r@ == self.log_dir_spec() + "/watcher.log"@,
    {
        let mut r = clone_str(&self.log_dir);
        r.append("/watcher.log");
        r
    }
}

/// Whether a liveness probe of the watcher's process id calls for a
/// restart: only a failed probe whose error confirms that the process
/// no longer exists does. A successful probe means the daemon lives,
/// and any other probe error is transient and ignored.
pub fn liveness_restart(probe_failed: bool, no_such_process: bool) -> (r: bool)
    ensures
        r == (probe_failed && no_such_process),
{
    probe_failed && no_such_process
}

fn clone_str(s: &String) -> (r: String)
    ensures
        r@ == s@,
{
    s.clone()
}

} // verus!
