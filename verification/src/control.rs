//! Control protocol: newline-delimited JSON over a unix socket, one
//! request per line, one response per line. These are the messages; the
//! socket client and the JSON encoding live with the binaries.

use vstd::prelude::*;
use crate::net::Net;

verus! {

/// How long, in seconds, the CLI waits for the daemon before giving up.
/// Shell completions call the daemon on every tab press, so a wedged
/// daemon must not hang them.
pub const TIMEOUT_SECS: u64 = 5;

/// A request to the daemon.
#[derive(Debug, Clone, PartialEq, Eq)]
pub enum Request {
    Status,
    List,
    Ban { net: Net, ttl: Option<u64>, reason: Option<String> },
    Unban { net: Net },
    Filters,
    Ping,
}

/// One filter as the daemon reports it.
#[derive(Debug, Clone, PartialEq, Eq)]
pub struct FilterStatus {
    pub name: String,
    pub files: Vec<String>,
    pub journal: bool,
    pub maxretry: u32,
    pub findtime: u64,
    pub bantime: u64,
    pub matched: u64,
    pub banned: u64,
}

/// One active ban.
#[derive(Debug, Clone, PartialEq, Eq)]
pub struct BanInfo {
    pub net: Net,
    pub expires_in: Option<u64>,
    pub filter: Option<String>,
}

/// The daemon's status.
#[derive(Debug, Clone, PartialEq, Eq)]
pub struct Status {
    pub version: String,
    pub backend: String,
    pub uptime: u64,
    pub tracked_count: usize,
    pub lines: u64,
    pub bans_total: u64,
    pub active_bans: usize,
    pub filters: Vec<FilterStatus>,
}

/// The daemon's answer to a request.
#[derive(Debug, Clone, PartialEq, Eq)]
pub struct Response {
    pub ok: bool,
    pub error: Option<String>,
    pub message: Option<String>,
    pub status: Option<Status>,
    pub bans: Option<Vec<BanInfo>>,
    pub filters: Option<Vec<String>>,
}

impl Response {
    /// No payload: neither error, message, status, bans nor filters.
    pub open spec fn no_payload(self) -> bool {
        &&& self.error is None
        &&& self.message is None
        &&& self.status is None
        &&& self.bans is None
        &&& self.filters is None
    }

    /// A bare success.
    pub fn ok() -> (r: Self)
        ensures
            r.ok,
            r.no_payload(),
    {
        Self { ok: true, error: None, message: None, status: None, bans: None, filters: None }
    }

    /// A success carrying a message.
    pub fn message(m: String) -> (r: Self)
        ensures
            r.ok,
            r.message matches Some(t) && t@ == m@,
            r.error is None && r.status is None && r.bans is None && r.filters is None,
    {
        Self { ok: true, error: None, message: Some(m), status: None, bans: None, filters: None }
    }

    /// A failure carrying an error text.
    pub fn err(e: String) -> (r: Self)
        ensures
            !r.ok,
            r.error matches Some(t) && t@ == e@,
            r.message is None && r.status is None && r.bans is None && r.filters is None,
    {
        Self { ok: false, error: Some(e), message: None, status: None, bans: None, filters: None }
    }

    /// What a command that only needs success makes of this response: a
    /// success with the message to print (if any), or a failure with the
    /// error text (empty when there is none).
    pub fn finish(&self) -> (r: Result<Option<String>, String>)
        ensures
            self.ok ==> (r matches Ok(m) && match (m, self.message) {
                (Some(a), Some(b)) => a@ == b@,
                (None, None) => true,
                _ => false,
            }),
            !self.ok ==> (r matches Err(e) && e@ == match self.error {
                Some(t) => t@,
                None => Seq::<char>::empty(),
            }),
    {
        if self.ok {
            match &self.message {
                Some(m) => Ok(Some(m.clone())),
                None => Ok(None),
            }
        } else {
            match &self.error {
                Some(e) => Err(e.clone()),
                None => Err(String::new()),
            }
        }
    }
}

impl Default for Response {
    fn default() -> (r: Self)
        ensures
            !r.ok,
            r.no_payload(),
    {
        Self { ok: false, error: None, message: None, status: None, bans: None, filters: None }
    }
}

} // verus!
