//! What the interface is told about sync: the direction a sync runs in, the
//! status line after it, the provider's status, and setup validation.
use vstd::prelude::*;
use crate::note::chars_eq;
use crate::sync::SyncStatus;
use crate::text::{chars_of, decimal, decimal_exec};

verus! {

/// A status and a sentence for the interface.
#[derive(Debug, PartialEq, Eq)]
pub struct StatusReport {
    /// One of `not_configured`, `idle`, `syncing`, `error`, `conflict`.
    pub status: String,
    pub message: String,
}

/// Which way a sync runs.
#[derive(Debug, Clone, Copy, PartialEq, Eq, Structural)]
pub enum SyncDirection {
    Push,
    Pull,
    /// Push, then pull.
    Full,
}

/// The direction named by `push`, `pull` or `full`.
pub open spec fn direction_named(s: Seq<char>) -> Option<SyncDirection> {
    if s == "push"@ {
        Some(SyncDirection::Push)
    } else if s == "pull"@ {
        Some(SyncDirection::Pull)
    } else if s == "full"@ {
        Some(SyncDirection::Full)
    } else {
        None
    }
}

/// The message for an unknown direction.
pub open spec fn invalid_direction_text() -> Seq<char> {
    "Invalid sync direction. Use 'push', 'pull', or 'full'."@
}

/// The direction a sync request names, or the message for an unknown one.
pub fn parse_direction(direction: &str) -> (r: Result<SyncDirection, String>)
    ensures
        direction_named(direction@) matches Some(d) ==> r == Ok::<SyncDirection, String>(d),
        direction_named(direction@) is None ==> (r matches Err(m) && m@ == invalid_direction_text()),
{
    let v = chars_of(direction);
    if chars_eq(&v, &chars_of("push")) {
        Ok(SyncDirection::Push)
    } else if chars_eq(&v, &chars_of("pull")) {
        Ok(SyncDirection::Pull)
    } else if chars_eq(&v, &chars_of("full")) {
        Ok(SyncDirection::Full)
    } else {
        Err(String::from_str("Invalid sync direction. Use 'push', 'pull', or 'full'."))
    }
}

/// The search index is rebuilt after a sync that pulled.
pub fn reindex_after(direction: SyncDirection) -> (b: bool)
    ensures
        b == (direction != SyncDirection::Push),
{
    match direction {
        SyncDirection::Push => false,
        _ => true,
    }
}

/// The status line after a sync in `direction` that pushed `pushed` notes,
/// pulled `pulled` notes and found `conflicts` conflicts.
pub open spec fn sync_report_text(
    direction: SyncDirection,
    pushed: nat,
    pulled: nat,
    conflicts: nat,
) -> (Seq<char>, Seq<char>) {
    match direction {
        SyncDirection::Push => ("idle"@, "Pushed "@ + decimal(pushed) + " notes"@),
        SyncDirection::Pull => if conflicts > 0 {
            (
                "conflict"@,
                "Pulled "@ + decimal(pulled) + " notes, "@ + decimal(conflicts)
                    + " conflicts detected"@,
            )
        } else {
            ("idle"@, "Pulled "@ + decimal(pulled) + " notes"@)
        },
        SyncDirection::Full => (
            if conflicts > 0 {
                "conflict"@
            } else {
                "idle"@
            },
            "Pushed "@ + decimal(pushed) + " notes, pulled "@ + decimal(pulled) + " notes"@,
        ),
    }
}

/// The status after a sync is `conflict` exactly when the sync pulled
/// (`Pull` or `Full`) and found conflicts, and `idle` otherwise, whatever
/// the numbers of notes pushed and pulled.
pub proof fn law_sync_status(direction: SyncDirection, pushed: nat, pulled: nat, conflicts: nat)
    ensures
        sync_report_text(direction, pushed, pulled, conflicts).0 == (if conflicts > 0 && direction
            != SyncDirection::Push {
            "conflict"@
        } else {
            "idle"@
        }),
{
}

/// The status line after a sync.
pub fn sync_report(direction: SyncDirection, pushed: usize, pulled: usize, conflicts: usize) -> (r:
    StatusReport)
    ensures
        (r.status@, r.message@) == sync_report_text(
            direction,
            pushed as nat,
            pulled as nat,
            conflicts as nat,
        ),
        r.status@ == (if conflicts > 0 && direction != SyncDirection::Push {
            "conflict"@
        } else {
            "idle"@
        }),
{
    match direction {
        SyncDirection::Push => {
            let mut m = String::from_str("Pushed ");
            m.append(decimal_exec(pushed).as_str());
            m.append(" notes");
            StatusReport { status: String::from_str("idle"), message: m }
        },
        SyncDirection::Pull => {
            let mut m = String::from_str("Pulled ");
            m.append(decimal_exec(pulled).as_str());
            if conflicts > 0 {
                m.append(" notes, ");
                m.append(decimal_exec(conflicts).as_str());
                m.append(" conflicts detected");
                StatusReport { status: String::from_str("conflict"), message: m }
            } else {
                m.append(" notes");
                StatusReport { status: String::from_str("idle"), message: m }
            }
        },
        SyncDirection::Full => {
            let mut m = String::from_str("Pushed ");
            m.append(decimal_exec(pushed).as_str());
            m.append(" notes, pulled ");
            m.append(decimal_exec(pulled).as_str());
            m.append(" notes");
            let status = if conflicts > 0 {
                String::from_str("conflict")
            } else {
                String::from_str("idle")
            };
            StatusReport { status, message: m }
        },
    }
}

/// The status the interface shows: sync needs a key first, then a
/// configured provider, whose own status is reported.
pub open spec fn status_report_text(key_configured: bool, provider: Option<SyncStatus>) -> (
    Seq<char>,
    Seq<char>,
) {
    if !key_configured {
        ("not_configured"@, "No sync key configured"@)
    } else {
        match provider {
            Some(SyncStatus::NotConfigured) => (
                "not_configured"@,
                "Sync provider not configured"@,
            ),
            Some(SyncStatus::Idle) => ("idle"@, "Ready to sync"@),
            Some(SyncStatus::Syncing) => ("syncing"@, "Sync in progress"@),
            Some(SyncStatus::Error(m)) => ("error"@, m@),
            Some(SyncStatus::Conflict(paths)) => (
                "conflict"@,
                decimal(paths@.len()) + " conflicts detected"@,
            ),
            None => ("not_configured"@, "Sync not configured"@),
        }
    }
}

/// The sync status for the interface.
pub fn status_report(key_configured: bool, provider: Option<SyncStatus>) -> (r: StatusReport)
    ensures
        (r.status@, r.message@) == status_report_text(key_configured, provider),
{
    if !key_configured {
        return StatusReport {
            status: String::from_str("not_configured"),
            message: String::from_str("No sync key configured"),
        };
    }
    match provider {
        Some(SyncStatus::NotConfigured) => StatusReport {
            status: String::from_str("not_configured"),
            message: String::from_str("Sync provider not configured"),
        },
        Some(SyncStatus::Idle) => StatusReport {
            status: String::from_str("idle"),
            message: String::from_str("Ready to sync"),
        },
        Some(SyncStatus::Syncing) => StatusReport {
            status: String::from_str("syncing"),
            message: String::from_str("Sync in progress"),
        },
        Some(SyncStatus::Error(m)) => StatusReport { status: String::from_str("error"), message: m },
        Some(SyncStatus::Conflict(paths)) => {
            let mut m = decimal_exec(paths.len());
            m.append(" conflicts detected");
            StatusReport { status: String::from_str("conflict"), message: m }
        },
        None => StatusReport {
            status: String::from_str("not_configured"),
            message: String::from_str("Sync not configured"),
        },
    }
}

/// The outcome of checking the sync setup.
#[derive(Debug)]
pub struct ValidationReport {
    pub git_installed: bool,
    pub key_exists: bool,
    pub remote_reachable: bool,
    /// One sentence per problem found.
    pub errors: Vec<String>,
}

/// The remote is only checked when `git` is installed and a URL was given.
pub fn should_check_remote(git_installed: bool, remote_url: &str) -> (b: bool)
    ensures
        b == (git_installed && remote_url@.len() > 0),
{
    git_installed && remote_url.unicode_len() > 0
}

/// The problems found, in order: no `git`, no key, unreachable remote.
pub open spec fn validation_errors(git_installed: bool, key_exists: bool, remote: Option<bool>) -> Seq<
    Seq<char>,
> {
    (if git_installed {
        Seq::<Seq<char>>::empty()
    } else {
        seq!["Git is not installed. Install Git to use sync."@]
    }) + (if key_exists {
        Seq::<Seq<char>>::empty()
    } else {
        seq!["No encryption key found. Generate or import a key first."@]
    }) + (if remote == Some(false) {
        seq!["Cannot reach remote repo. Check the URL and your access."@]
    } else {
        Seq::<Seq<char>>::empty()
    })
}

/// The setup report; `remote` is the reachability of the remote when it was
/// checked.
pub fn validation_report(git_installed: bool, key_exists: bool, remote: Option<bool>) -> (r:
    ValidationReport)
    ensures
        r.git_installed == git_installed,
        r.key_exists == key_exists,
        r.remote_reachable == (remote == Some(true)),
        crate::text::texts(r.errors@) == validation_errors(git_installed, key_exists, remote),
{
    let mut errors: Vec<String> = Vec::new();
    if !git_installed {
        errors.push(String::from_str("Git is not installed. Install Git to use sync."));
    }
    if !key_exists {
        errors.push(String::from_str("No encryption key found. Generate or import a key first."));
    }
    let reachable = match remote {
        Some(ok) => ok,
        None => false,
    };
    if remote.is_some() && !reachable {
        errors.push(String::from_str("Cannot reach remote repo. Check the URL and your access."));
    }
    assert(crate::text::texts(errors@) =~= validation_errors(git_installed, key_exists, remote));
    ValidationReport { git_installed, key_exists, remote_reachable: reachable, errors }
}

} // verus!
