//! How synchronisation failures are reported, and the checks made before
//! a synchronisation starts and on each reply of the remote store.
use vstd::prelude::*;

use crate::auth::{is_token_valid, jwt_exp, token_good, SyncConfig};
use crate::error::{error_text, CoreError};
use crate::moment::Moment;
use crate::sync::engine::SyncResult;

verus! {

/// A failure as the user interface shows it: a kind it can act on
/// (`busy`, `notConfigured`, `notAuthenticated`, `network` or `other`)
/// and a message.
pub struct SyncErrorInfo {
    pub kind: String,
    pub message: String,
}

impl SyncErrorInfo {
    /// A failure of a kind, with its message.
    pub fn new(kind: &str, message: String) -> (res: SyncErrorInfo)
        ensures
            res.kind@ == kind@,
            res.message == message,
    {
        SyncErrorInfo { kind: String::from_str(kind), message }
    }
}

/// The kind and message a library error is reported with: a rejected
/// login points to the settings, a network failure keeps its message
/// after `Network error: `, anything else is shown as it reads.
pub open spec fn classified(e: CoreError) -> (Seq<char>, Seq<char>) {
    match e {
        CoreError::NotAuthenticated => (
            "notAuthenticated"@,
            "The server rejected the login. Log in again from Settings."@,
        ),
        CoreError::Network(m) => ("network"@, "Network error: "@ + m@),
        _ => ("other"@, error_text(e)),
    }
}

/// Reports a library error with the kind the user interface acts on.
pub fn classify_core_error(e: &CoreError) -> (res: SyncErrorInfo)
    ensures
        (res.kind@, res.message@) == classified(*e),
{
    proof {
        reveal_strlit("notAuthenticated");
        reveal_strlit("The server rejected the login. Log in again from Settings.");
        reveal_strlit("network");
        reveal_strlit("Network error: ");
        reveal_strlit("other");
    }
    match e {
        CoreError::NotAuthenticated => SyncErrorInfo::new(
            "notAuthenticated",
            String::from_str("The server rejected the login. Log in again from Settings."),
        ),
        CoreError::Network(m) => {
            let mut msg = String::from_str("Network error: ");
            msg.append(m.as_str());
            SyncErrorInfo::new("network", msg)
        },
        _ => SyncErrorInfo::new("other", e.describe()),
    }
}

/// What the checks before a synchronisation give: the token to use, or
/// the failure to report. Settings come first, then the stored token
/// (`stored` is what reading it gave: an error message, no token, or the
/// token), then its expiry at `now` (seconds since the Unix epoch).
pub open spec fn readiness(configured: bool, stored: Result<Option<Seq<char>>, Seq<char>>, now: i64) -> Result<Seq<char>, (Seq<char>, Seq<char>)> {
    if !configured {
        Err(("notConfigured"@, "Sync is not set up. Add your Workers URL in Settings."@))
    } else {
        match stored {
            Err(m) => Err(("other"@, m)),
            Ok(None) => Err(("notAuthenticated"@, "Not logged in. Log in from Settings."@)),
            Ok(Some(t)) => if token_good(jwt_exp(t), now) {
                Ok(t)
            } else {
                Err(("notAuthenticated"@, "Login expired. Log in again from Settings."@))
            },
        }
    }
}

/// The checks made before a synchronisation starts.
pub fn check_sync_ready(config: &SyncConfig, stored: Result<Option<String>, String>, now: i64) -> (res: Result<String, SyncErrorInfo>)
    ensures
        match readiness(
            config.workers_url@.len() > 0,
            match stored {
                Ok(Some(t)) => Ok(Some(t@)),
                Ok(None) => Ok(None),
                Err(m) => Err(m@),
            },
            now,
        ) {
            Ok(t) => res matches Ok(r) && r@ == t,
            Err((k, m)) => res matches Err(info) && info.kind@ == k && info.message@ == m,
        },
{
    proof {
        reveal_strlit("notConfigured");
        reveal_strlit("Sync is not set up. Add your Workers URL in Settings.");
        reveal_strlit("other");
        reveal_strlit("notAuthenticated");
        reveal_strlit("Not logged in. Log in from Settings.");
        reveal_strlit("Login expired. Log in again from Settings.");
    }
    if !config.is_configured() {
        return Err(
            SyncErrorInfo::new(
                "notConfigured",
                String::from_str("Sync is not set up. Add your Workers URL in Settings."),
            ),
        );
    }
    match stored {
        Err(m) => Err(SyncErrorInfo::new("other", m)),
        Ok(None) => Err(
            SyncErrorInfo::new("notAuthenticated", String::from_str("Not logged in. Log in from Settings.")),
        ),
        Ok(Some(t)) => {
            if is_token_valid(t.as_str(), now) {
                Ok(t)
            } else {
                Err(
                    SyncErrorInfo::new(
                        "notAuthenticated",
                        String::from_str("Login expired. Log in again from Settings."),
                    ),
                )
            }
        },
    }
}

/// What a reply's HTTP status means: 401 is a rejected login, any other
/// status outside 200..=299 fails with `<context>: HTTP <status>`
/// (`status_text` is the status as the HTTP client shows it).
pub fn check_status(code: u16, status_text: &str, context: &str) -> (res: Result<(), CoreError>)
    ensures
        code == 401 ==> res == Err::<(), CoreError>(CoreError::NotAuthenticated),
        code != 401 && 200 <= code <= 299 ==> res is Ok,
        code != 401 && !(200 <= code <= 299) ==> (res matches Err(e) && e == CoreError::Sync(e->Sync_0)
            && e->Sync_0@ == context@ + ": HTTP "@ + status_text@),
{
    if code == 401 {
        return Err(CoreError::NotAuthenticated);
    }
    if code < 200 || code > 299 {
        proof {
            reveal_strlit(": HTTP ");
        }
        let mut msg = String::from_str(context);
        msg.append(": HTTP ");
        msg.append(status_text);
        return Err(CoreError::Sync(msg));
    }
    Ok(())
}

/// Whether a synchronisation is running, when the last one succeeded and
/// what the last failure said.
pub struct SyncStatusInfo {
    pub is_syncing: bool,
    pub last_synced_at: Option<Moment>,
    pub last_error: Option<String>,
}

impl SyncStatusInfo {
    /// Idle, never synchronised.
    pub fn new() -> (res: SyncStatusInfo)
        ensures
            !res.is_syncing,
            res.last_synced_at is None,
            res.last_error is None,
    {
        SyncStatusInfo { is_syncing: false, last_synced_at: None, last_error: None }
    }

    /// Starts a synchronisation: refused as `busy` while one is running,
    /// and then nothing changes.
    pub fn begin(&mut self) -> (res: Result<(), SyncErrorInfo>)
        ensures
            old(self).is_syncing ==> (res matches Err(e) && e.kind@ == "busy"@ && e.message@
                == "Sync already in progress"@ && *final(self) == *old(self)),
            !old(self).is_syncing ==> (res is Ok && final(self).is_syncing && final(self).last_synced_at
                == old(self).last_synced_at && final(self).last_error == old(self).last_error),
    {
        proof {
            reveal_strlit("busy");
            reveal_strlit("Sync already in progress");
        }
        if self.is_syncing {
            return Err(SyncErrorInfo::new("busy", String::from_str("Sync already in progress")));
        }
        self.is_syncing = true;
        Ok(())
    }

    /// Ends a synchronisation: a success records `now` and clears the last
    /// failure; a failure records its message and keeps the last success.
    pub fn end(&mut self, outcome: &Result<SyncResult, SyncErrorInfo>, now: Moment)
        ensures
            !final(self).is_syncing,
            match outcome {
                Ok(_) => final(self).last_synced_at == Some(now) && final(self).last_error is None,
                Err(e) => final(self).last_synced_at == old(self).last_synced_at && (final(self).last_error matches Some(m)
                    && m@ == e.message@),
            },
    {
        self.is_syncing = false;
        match outcome {
            Ok(_) => {
                self.last_synced_at = Some(now);
                self.last_error = None;
            },
            Err(e) => {
                self.last_error = Some(String::from_str(e.message.as_str()));
            },
        }
    }
}

} // verus!
