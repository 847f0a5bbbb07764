//! `anigit clone` and `anigit fork`: which source is accepted, where the
//! copy goes, and which files of `.anigit/` are copied. Only local paths
//! are sources until a hosting service exists.
use vstd::prelude::*;

use crate::repo::ANIGIT_DIR;
use crate::text::{chars_of, contains_chars, contains_seq, owned};

verus! {

/// Why a clone or fork cannot go ahead.
#[derive(Debug, Clone, PartialEq, Eq)]
pub enum CloneError {
    /// `url` names a remote (`scheme://...`); only local paths work for now.
    RemoteUnsupported,
    /// The source directory holds no `.anigit` directory.
    NotARepo { url: String },
    /// No destination was given and the source path has no final name.
    NoDestinationName { url: String },
    /// The destination already exists.
    DestinationExists { dest: String },
}

/// `url` names a remote rather than a local path.
pub open spec fn is_remote_url(url: Seq<char>) -> bool {
    contains_seq(url, "://"@)
}

/// Check the source of a clone: a local path (`url`) whose directory holds
/// a repository (`source_is_repo`: it has a `.anigit` directory).
pub fn check_source(url: &str, source_is_repo: bool) -> (r: Result<(), CloneError>)
    ensures
        is_remote_url(url@) ==> r == Err::<(), CloneError>(CloneError::RemoteUnsupported),
        !is_remote_url(url@) && !source_is_repo ==> (r matches Err(CloneError::NotARepo { url: u }) && u@ == url@),
        !is_remote_url(url@) && source_is_repo ==> r is Ok,
{
    let scheme = chars_of("://");
    proof {
        reveal_strlit("://");
    }
    if contains_chars(&chars_of(url), &scheme) {
        return Err(CloneError::RemoteUnsupported);
    }
    if !source_is_repo {
        return Err(CloneError::NotARepo { url: owned(url) });
    }
    Ok(())
}

/// Where the copy goes: the given `destination`, or else the final name of
/// the source's resolved path (`source_name`), in the working directory,
/// as `git clone` does.
pub fn destination_for(url: &str, destination: Option<&str>, source_name: Option<&str>) -> (r: Result<String, CloneError>)
    ensures
        destination matches Some(d) ==> (r matches Ok(p) && p@ == d@),
        destination is None ==> (source_name matches Some(n) ==> (r matches Ok(p) && p@ == n@)),
        destination is None && source_name is None ==> (r matches Err(CloneError::NoDestinationName { url: u }) && u@ == url@),
{
    match destination {
        Some(d) => Ok(owned(d)),
        None => match source_name {
            Some(n) => Ok(owned(n)),
            None => Err(CloneError::NoDestinationName { url: owned(url) }),
        },
    }
}

/// A clone never writes over an existing destination.
pub fn check_destination(dest: &str, exists: bool) -> (r: Result<(), CloneError>)
    ensures
        exists ==> (r matches Err(CloneError::DestinationExists { dest: d }) && d@ == dest@),
        !exists ==> r is Ok,
{
    if exists {
        Err(CloneError::DestinationExists { dest: owned(dest) })
    } else {
        Ok(())
    }
}

/// Whether the entry `name` of a directory being copied is copied: all are,
/// except `STAGED` directly inside the `.anigit` directory itself
/// (`dir_name` is that directory's own name), which is the source's
/// uncommitted working state rather than history.
pub fn copies_entry(name: &str, dir_name: &str) -> (r: bool)
    ensures
        r == !(name@ == "STAGED"@ && dir_name@ == ANIGIT_DIR@),
{
    !(crate::catalog::str_eq(name, "STAGED") && crate::catalog::str_eq(dir_name, ANIGIT_DIR))
}

} // verus!
