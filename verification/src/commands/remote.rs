//! `anigit remote`: managing remote URLs needs push/pull, which needs the
//! planned hosting service, so each action answers that it is not
//! available yet.
use vstd::prelude::*;

verus! {

/// Why a remote action cannot run.
#[derive(Debug, Clone, Copy, PartialEq, Eq)]
pub enum RemoteError {
    /// The action is not implemented in this version.
    NotYetImplemented { action: &'static str },
}

/// `anigit remote add <name> <url>`: not available yet.
pub fn add(name: &str, url: &str) -> (r: Result<(), RemoteError>)
    ensures
        r matches Err(RemoteError::NotYetImplemented { action }) && action@ == "add"@,
{
    Err(RemoteError::NotYetImplemented { action: "add" })
}

/// `anigit remote remove <name>`: not available yet.
pub fn remove(name: &str) -> (r: Result<(), RemoteError>)
    ensures
        r matches Err(RemoteError::NotYetImplemented { action }) && action@ == "remove"@,
{
    Err(RemoteError::NotYetImplemented { action: "remove" })
}

/// `anigit remote list`: not available yet.
pub fn list() -> (r: Result<(), RemoteError>)
    ensures
        r matches Err(RemoteError::NotYetImplemented { action }) && action@ == "list"@,
{
    Err(RemoteError::NotYetImplemented { action: "list" })
}

} // verus!
