//! The commit data model: what a commit records, what the staging area
//! holds, and the per-repo settings. Timestamps are carried as the RFC 3339
//! text that the on-disk JSON holds.
use vstd::prelude::*;

use crate::text::{owned, push_str, push_string};

verus! {

/// Bump this only when making a breaking change to the commit format.
pub const CURRENT_SCHEMA_VERSION: u32 = 1;

/// Watch status, ordered from "least" to "furthest along".
#[derive(Debug, Clone, Copy, PartialEq, Eq, Structural, PartialOrd, Ord, Hash)]
pub enum WatchStatus {
    Dropped,
    Planning,
    Watching,
    Completed,
}

/// Fields a single commit can change; `None` means "not changed here".
#[derive(Debug, Clone, Copy, PartialEq, Eq, Structural)]
pub struct Changes {
    pub status: Option<WatchStatus>,
    pub episode_progress: Option<u32>,
    pub score: Option<u8>,
    pub rewatch_count: Option<u32>,
}

/// The delta that changes nothing.
pub open spec fn no_changes() -> Changes {
    Changes { status: None, episode_progress: None, score: None, rewatch_count: None }
}

impl Default for Changes {
    fn default() -> (r: Changes)
        ensures
            r == no_changes(),
    {
        Changes { status: None, episode_progress: None, score: None, rewatch_count: None }
    }
}

impl Changes {
    /// The delta that changes nothing.
    pub fn empty() -> (r: Changes)
        ensures
            r == no_changes(),
    {
        Changes { status: None, episode_progress: None, score: None, rewatch_count: None }
    }

    /// No field is set.
    pub fn is_empty(&self) -> (r: bool)
        ensures
            r == (*self == no_changes()),
    {
        self.status.is_none() && self.episode_progress.is_none() && self.score.is_none()
            && self.rewatch_count.is_none()
    }
}

/// A reference to one entry of the anime catalog: which catalog, and its ID there.
#[derive(Debug, Clone)]
pub struct CatalogRef {
    pub source: String,
    pub id: i64,
}

/// The value by which catalog references are compared and keyed.
pub open spec fn ref_key(r: CatalogRef) -> (Seq<char>, i64) {
    (r.source@, r.id)
}

impl PartialEq for CatalogRef {
    fn eq(&self, other: &CatalogRef) -> (r: bool) {
        self.source == other.source && self.id == other.id
    }
}

impl Eq for CatalogRef {
}

impl vstd::std_specs::cmp::PartialEqSpecImpl for CatalogRef {
    open spec fn obeys_eq_spec() -> bool {
        true
    }

    open spec fn eq_spec(&self, other: &CatalogRef) -> bool {
        ref_key(*self) == ref_key(*other)
    }
}

impl CatalogRef {
    /// A reference into the `anilist` catalog.
    pub fn anilist(id: i64) -> (r: CatalogRef)
        ensures
            r.source@ == "anilist"@,
            r.id == id,
    {
        CatalogRef { source: owned("anilist"), id }
    }

    /// Both references name the same catalog entry.
    pub fn same_as(&self, other: &CatalogRef) -> (r: bool)
        ensures
            r == (ref_key(*self) == ref_key(*other)),
    {
        self.source == other.source && self.id == other.id
    }

    /// This reference points into the `anilist` catalog.
    pub fn is_anilist(&self) -> (r: bool)
        ensures
            r == (self.source@ == "anilist"@),
    {
        let anilist = owned("anilist");
        self.source == anilist
    }
}

/// Whether a commit is an ordinary one or records a merge.
#[derive(Debug, Clone, Copy, PartialEq, Eq, Structural)]
pub enum CommitAction {
    Commit,
    Merge,
}

/// A value in a commit's open-ended metadata: text, or any other JSON
/// value carried through unchanged as its JSON text.
#[derive(Debug, Clone, PartialEq, Eq)]
pub enum MetaValue {
    Text(String),
    Json(String),
}

/// No key occurs twice in a metadata list, as in the map it is stored as.
pub open spec fn metadata_keys_distinct(m: Seq<(String, MetaValue)>) -> bool {
    forall|i: int, j: int| 0 <= i < j < m.len() ==> #[trigger] m[i].0@ != #[trigger] m[j].0@
}

/// One commit: the atomic unit of history. `timestamp` is RFC 3339 text;
/// `metadata` holds the open-ended extras (such as `reverts`), one value
/// per key.
#[derive(Debug, Clone)]
pub struct Commit {
    pub schema_version: u32,
    pub id: String,
    pub timestamp: String,
    pub parent_ids: Vec<String>,
    pub branch: String,
    pub author: String,
    pub action: CommitAction,
    pub catalog_ref: CatalogRef,
    pub changes: Changes,
    pub message: String,
    pub metadata: Vec<(String, MetaValue)>,
}

/// The simple (hyphen-free) rendering of a UUID: 32 lowercase hex digits.
pub open spec fn is_simple_uuid(s: Seq<char>) -> bool {
    &&& s.len() == 32
    &&& forall|i: int|
        0 <= i < 32 ==> (('0' <= #[trigger] s[i] && s[i] <= '9') || ('a' <= s[i] && s[i] <= 'f'))
}

/// `uuid::Uuid::new_v4()` rendered with `.simple()`: a fresh random UUID as
/// 32 lowercase hex digits. Which UUID comes back is left open.
#[verifier::external_body]
fn fresh_uuid_simple() -> (res: String)
    ensures
        is_simple_uuid(res@),
{
    uuid::Uuid::new_v4().simple().to_string()
}

/// `chrono::Utc::now()` rendered with `to_rfc3339()`. The instant itself
/// depends on the clock, so nothing is promised of the text: not even that
/// it parses back as RFC 3339, since chrono writes a year outside
/// `0..=9999` with a sign and five or more digits, which its own RFC 3339
/// parser refuses.
#[verifier::external_body]
fn now_rfc3339() -> (res: String) {
    chrono::Utc::now().to_rfc3339()
}

/// A commit id: `c_` followed by a simple UUID.
pub open spec fn is_commit_id(s: Seq<char>) -> bool {
    s.len() == 34 && s[0] == 'c' && s[1] == '_' && is_simple_uuid(s.subrange(2, 34))
}

impl Commit {
    /// A new, ordinary commit with a fresh ID and the current time; author is
    /// the local placeholder identity and metadata starts empty.
    pub fn new(
        parent_ids: Vec<String>,
        branch: String,
        catalog_ref: CatalogRef,
        changes: Changes,
        message: String,
    ) -> (c: Commit)
        ensures
            c.schema_version == CURRENT_SCHEMA_VERSION,
            is_commit_id(c.id@),
            c.parent_ids@ == parent_ids@,
            c.branch@ == branch@,
            c.author@ == "local-user"@,
            c.action == CommitAction::Commit,
            ref_key(c.catalog_ref) == ref_key(catalog_ref),
            c.changes == changes,
            c.message@ == message@,
            c.metadata@.len() == 0,
            metadata_keys_distinct(c.metadata@),
    {
        let uuid = fresh_uuid_simple();
        let mut id = owned("c_");
        push_string(&mut id, &uuid);
        proof {
            reveal_strlit("c_");
            assert(id@.subrange(2, 34) =~= uuid@);
        }
        Commit {
            schema_version: CURRENT_SCHEMA_VERSION,
            id,
            timestamp: now_rfc3339(),
            parent_ids,
            branch,
            author: owned("local-user"),
            action: CommitAction::Commit,
            catalog_ref,
            changes,
            message,
            metadata: Vec::new(),
        }
    }
}

/// The one entry currently staged for commit.
#[derive(Debug, Clone)]
pub struct StagedEntry {
    pub catalog_ref: CatalogRef,
    /// Title snapshot at stage time, for display only.
    pub anime_title: String,
    pub changes: Changes,
}

/// Who may contribute to a repo.
#[derive(Debug, Clone, Copy, PartialEq, Eq, Structural)]
pub enum RepoKind {
    Shared,
    SingleUser,
}

/// Visibility levels, after GitHub's own.
#[derive(Debug, Clone, Copy, PartialEq, Eq, Structural)]
pub enum Visibility {
    PublicContributable,
    PublicViewOnly,
    Private,
    PrivateSharedWithSpecificPeople,
}

/// A remote this repo knows about.
#[derive(Debug, Clone)]
pub struct RemoteEntry {
    pub name: String,
    pub url: String,
}

/// Where a forked repo came from, and when (RFC 3339 text).
#[derive(Debug, Clone)]
pub struct ForkProvenance {
    pub source: String,
    pub forked_at: String,
}

/// Repo-level settings (`.anigit/config`).
#[derive(Debug, Clone)]
pub struct RepoConfig {
    pub repo_kind: RepoKind,
    pub visibility: Visibility,
    pub owner: String,
    pub remotes: Vec<RemoteEntry>,
    pub forked_from: Option<ForkProvenance>,
}

impl Default for RepoConfig {
    /// New repos start single-user and private, owned by the local placeholder identity.
    fn default() -> (c: RepoConfig)
        ensures
            c.repo_kind == RepoKind::SingleUser,
            c.visibility == Visibility::Private,
            c.owner@ == "local-user"@,
            c.remotes@.len() == 0,
            c.forked_from is None,
    {
        RepoConfig {
            repo_kind: RepoKind::SingleUser,
            visibility: Visibility::Private,
            owner: owned("local-user"),
            remotes: Vec::new(),
            forked_from: None,
        }
    }
}

impl RepoConfig {
    /// The settings after `anigit fork` of `source`: the same settings with
    /// the fork provenance recorded at the current time.
    pub fn with_fork_provenance(self, source: &str) -> (c: RepoConfig)
        ensures
            c.repo_kind == self.repo_kind,
            c.visibility == self.visibility,
            c.owner == self.owner,
            c.remotes == self.remotes,
            c.forked_from matches Some(p) && p.source@ == source@,
    {
        let mut c = self;
        let mut src = String::new();
        push_str(&mut src, source);
        c.forked_from = Some(ForkProvenance { source: src, forked_at: now_rfc3339() });
        c
    }
}

} // verus!
