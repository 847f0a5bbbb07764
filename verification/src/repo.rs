//! The `.anigit/` repository format: where each file lives, how ref files
//! read, which ref names are allowed, and why a branch ref moved.
//!
//! ```text
//! .anigit/
//!   HEAD                  which branch you're on
//!   config                repo kind, visibility, owner, remotes
//!   STAGED                the one entry staged for commit
//!   logs/HEAD             one JSON line per ref move (the reflog)
//!   refs/branches/<name>  commit ID a branch points at (empty: no commits)
//!   refs/tags/<name>      commit ID a tag marks
//!   objects/commits/<id>.json
//! ```
use vstd::prelude::*;

use crate::model::{Commit, CommitAction, CURRENT_SCHEMA_VERSION};
use crate::text::{chars_of, owned, push_str, string_from_range, trim_bounds, trim_ws, spec_is_whitespace, is_whitespace};

verus! {

/// Name of the repository directory inside a working directory.
pub const ANIGIT_DIR: &'static str = ".anigit";

/// The branch a new repository starts on.
pub const DEFAULT_BRANCH: &'static str = "main";

/// The path `base` joined with `name`, as `Path::join` forms it with the
/// separator of the platform the library is built for.
pub uninterp spec fn path_join(base: Seq<char>, name: Seq<char>) -> Seq<char>;

/// The path without its final component, as `Path::parent` gives it.
pub uninterp spec fn path_parent(p: Seq<char>) -> Option<Seq<char>>;

/// `Path::join`, rendered back to text; the claim is only that the result is
/// the `path_join` of the two texts (which separator it uses is left open).
#[verifier::external_body]
pub(crate) fn join_path(base: &str, name: &str) -> (r: String)
    ensures
        r@ == path_join(base@, name@),
{
    std::path::Path::new(base).join(name).to_string_lossy().into_owned()
}

/// `Path::parent`, rendered back to text. The parent drops a final
/// component, so when there is one it is shorter than the path.
#[verifier::external_body]
fn parent_path(p: &str) -> (r: Option<String>)
    ensures
        path_parent(p@) is None <==> r is None,
        r matches Some(q) ==> path_parent(p@) == Some(q@) && q@.len() < p@.len(),
{
    std::path::Path::new(p).parent().map(|q| q.to_string_lossy().into_owned())
}

/// Errors from the repository's own rules.
#[derive(Debug, Clone, PartialEq, Eq)]
pub enum RepoError {
    /// A branch or tag name that could escape its directory or is unusable.
    InvalidRefName { kind: String, name: String },
    /// No repository here or in any parent directory.
    NotARepo,
    /// `init` found an existing repository.
    AlreadyExists { path: String },
    NoSuchBranch { name: String },
    BranchExists { name: String },
    /// Tags are permanent markers and are never overwritten.
    TagExists { name: String },
    /// A commit object with this id already exists.
    CommitExists { id: String },
    /// The commit was written by a newer version of the format.
    NewerSchema { id: String, schema_version: u32 },
}

/// An opened repository: the path of its `.anigit` directory.
#[derive(Debug, Clone)]
pub struct Repo {
    pub root: String,
}

/// One step of walking up from a directory in search of a repository.
#[derive(Debug, Clone)]
pub enum DiscoverStep {
    /// The candidate directory exists: this is the repository.
    Found(Repo),
    /// Not here; try this parent directory next.
    Up(String),
    /// No parent is left to try.
    NotARepo,
}

impl Repo {
    /// The repository directory a working directory would hold.
    pub fn candidate(dir: &str) -> (r: String)
        ensures
            r@ == path_join(dir@, ANIGIT_DIR@),
    {
        join_path(dir, ANIGIT_DIR)
    }

    /// One step of opening an existing repository the way git does, walking
    /// upward from a start directory: when `dir`'s candidate exists as a
    /// directory that is the repository, else go on with `dir`'s parent,
    /// and stop once there is none.
    pub fn discover(dir: &str, candidate_is_dir: bool) -> (r: DiscoverStep)
        ensures
            candidate_is_dir ==> (r matches DiscoverStep::Found(repo) && repo.root@ == path_join(
                dir@,
                ANIGIT_DIR@,
            )),
            !candidate_is_dir && path_parent(dir@) is None ==> r is NotARepo,
            !candidate_is_dir && path_parent(dir@) is Some ==> (r matches DiscoverStep::Up(p)
                && Some(p@) == path_parent(dir@) && p@.len() < dir@.len()),
    {
        if candidate_is_dir {
            return DiscoverStep::Found(Repo { root: Repo::candidate(dir) });
        }
        match parent_path(dir) {
            Some(p) => DiscoverStep::Up(p),
            None => DiscoverStep::NotARepo,
        }
    }

    /// `.anigit/<name>`.
    pub fn file(&self, name: &str) -> (r: String)
        ensures
            r@ == path_join(self.root@, name@),
    {
        join_path(self.root.as_str(), name)
    }

    /// `.anigit/HEAD`: which branch is checked out.
    pub fn head_path(&self) -> (r: String)
        ensures
            r@ == path_join(self.root@, "HEAD"@),
    {
        self.file("HEAD")
    }

    /// `.anigit/config`.
    pub fn config_path(&self) -> (r: String)
        ensures
            r@ == path_join(self.root@, "config"@),
    {
        self.file("config")
    }

    /// `.anigit/STAGED`: the one staged entry.
    pub fn staged_path(&self) -> (r: String)
        ensures
            r@ == path_join(self.root@, "STAGED"@),
    {
        self.file("STAGED")
    }

    /// `.anigit/logs/HEAD`: the reflog.
    pub fn reflog_path(&self) -> (r: String)
        ensures
            r@ == path_join(path_join(self.root@, "logs"@), "HEAD"@),
    {
        let logs = self.file("logs");
        join_path(logs.as_str(), "HEAD")
    }

    /// `.anigit/refs/branches`.
    pub fn branches_dir(&self) -> (r: String)
        ensures
            r@ == path_join(path_join(self.root@, "refs"@), "branches"@),
    {
        let refs = self.file("refs");
        join_path(refs.as_str(), "branches")
    }

    /// `.anigit/refs/branches/<name>`.
    pub fn branch_ref_path(&self, name: &str) -> (r: String)
        ensures
            r@ == path_join(path_join(path_join(self.root@, "refs"@), "branches"@), name@),
    {
        let dir = self.branches_dir();
        join_path(dir.as_str(), name)
    }

    /// `.anigit/refs/tags`.
    pub fn tags_dir(&self) -> (r: String)
        ensures
            r@ == path_join(path_join(self.root@, "refs"@), "tags"@),
    {
        let refs = self.file("refs");
        join_path(refs.as_str(), "tags")
    }

    /// `.anigit/objects/commits/<id>.json`.
    pub fn commit_path(&self, id: &str) -> (r: String)
        ensures
            r@ == path_join(path_join(path_join(self.root@, "objects"@), "commits"@), id@ + ".json"@),
    {
        let objects = self.file("objects");
        let commits = join_path(objects.as_str(), "commits");
        let mut file = owned(id);
        push_str(&mut file, ".json");
        join_path(commits.as_str(), file.as_str())
    }
}

/// A ref name is allowed when it is non-empty, not `.` or `..`, and holds no
/// path separator and no whitespace.
pub open spec fn valid_ref_name(name: Seq<char>) -> bool {
    &&& name.len() > 0
    &&& name != "."@
    &&& name != ".."@
    &&& !name.contains('/')
    &&& !name.contains('\\')
    &&& forall|i: int| 0 <= i < name.len() ==> !spec_is_whitespace(#[trigger] name[i])
}

/// Ref names become file names directly under `.anigit/refs/`, so reject
/// anything that could escape that directory or make an unusable file.
pub fn validate_ref_name(name: &str, kind: &str) -> (r: Result<(), RepoError>)
    ensures
        valid_ref_name(name@) ==> r is Ok,
        !valid_ref_name(name@) ==> (r matches Err(RepoError::InvalidRefName { kind: k, name: n })
            && k@ == kind@ && n@ == name@),
{
    let cs = chars_of(name);
    let mut bad = cs.len() == 0 || crate::catalog::str_eq(name, ".") || crate::catalog::str_eq(name, "..");
    let mut i: usize = 0;
    while i < cs.len()
        invariant
            i <= cs@.len(),
            cs@ == name@,
            bad == (name@.len() == 0 || name@ == "."@ || name@ == ".."@ || exists|k: int|
                0 <= k < i && (cs@[k] == '/' || cs@[k] == '\\' || spec_is_whitespace(#[trigger] cs@[k]))),
        decreases cs@.len() - i,
    {
        if cs[i] == '/' || cs[i] == '\\' || is_whitespace(cs[i]) {
            bad = true;
        }
        i = i + 1;
    }
    proof {
        if name@.contains('/') {
            let k = choose|k: int| 0 <= k < name@.len() && name@[k] == '/';
            assert(spec_is_whitespace(cs@[k]) || cs@[k] == '/');
        }
        if name@.contains('\\') {
            let k = choose|k: int| 0 <= k < name@.len() && name@[k] == '\\';
            assert(spec_is_whitespace(cs@[k]) || cs@[k] == '\\');
        }
        if exists|k: int| 0 <= k < i && (cs@[k] == '/' || cs@[k] == '\\' || spec_is_whitespace(#[trigger] cs@[k])) {
            let k = choose|k: int| 0 <= k < i && (cs@[k] == '/' || cs@[k] == '\\' || spec_is_whitespace(#[trigger] cs@[k]));
            if cs@[k] == '/' {
                assert(name@.contains('/'));
            } else if cs@[k] == '\\' {
                assert(name@.contains('\\'));
            }
        }
    }
    if bad {
        Err(RepoError::InvalidRefName { kind: owned(kind), name: owned(name) })
    } else {
        Ok(())
    }
}

/// What a ref file's text says: its trimmed contents, or nothing yet when
/// they are blank.
pub open spec fn ref_target(contents: Seq<char>) -> Option<Seq<char>> {
    if trim_ws(contents).len() == 0 {
        None
    } else {
        Some(trim_ws(contents))
    }
}

/// The commit a branch ref file points at, or `None` for a branch with no
/// commits yet.
pub fn parse_ref(contents: &str) -> (r: Option<String>)
    ensures
        match r {
            Some(s) => ref_target(contents@) == Some(s@),
            None => ref_target(contents@) is None,
        },
{
    let cs = chars_of(contents);
    let (a, b) = trim_bounds(&cs, 0, cs.len());
    proof {
        assert(cs@.subrange(0, cs@.len() as int) =~= cs@);
    }
    if a == b {
        None
    } else {
        Some(string_from_range(&cs, a, b))
    }
}

/// `HEAD`'s text with surrounding whitespace removed: the current branch.
pub fn branch_from_head(contents: &str) -> (r: String)
    ensures
        r@ == trim_ws(contents@),
{
    let cs = chars_of(contents);
    let (a, b) = trim_bounds(&cs, 0, cs.len());
    proof {
        assert(cs@.subrange(0, cs@.len() as int) =~= cs@);
    }
    string_from_range(&cs, a, b)
}

/// Why a branch ref moves when `commit` is written onto a branch whose head
/// was `old_head`: a merge commit says so itself; a commit that chains onto
/// the old head is a plain commit; one that does not (the tip replaced
/// sideways) is an amend.
pub open spec fn reflog_reason_text(action: CommitAction, old_head: Option<Seq<char>>, parents: Seq<Seq<char>>) -> Seq<char> {
    match action {
        CommitAction::Merge => "merge"@,
        CommitAction::Commit => match old_head {
            Some(h) => if !parents.contains(h) {
                "amend"@
            } else {
                "commit"@
            },
            None => "commit"@,
        },
    }
}

/// The views of a list of strings.
pub open spec fn strings_view(v: Seq<String>) -> Seq<Seq<char>> {
    v.map_values(|s: String| s@)
}

/// Why a branch ref moves when `commit` lands on a branch whose head was `old_head`.
pub fn reflog_reason(commit: &Commit, old_head: &Option<String>) -> (r: &'static str)
    ensures
        r@ == reflog_reason_text(commit.action, match old_head {
            Some(h) => Some(h@),
            None => None,
        }, strings_view(commit.parent_ids@)),
{
    match commit.action {
        CommitAction::Merge => "merge",
        CommitAction::Commit => match old_head {
            Some(h) => {
                let mut found = false;
                let mut i: usize = 0;
                while i < commit.parent_ids.len()
                    invariant
                        i <= commit.parent_ids@.len(),
                        found == (exists|k: int| 0 <= k < i && commit.parent_ids@[k]@ == h@),
                    decreases commit.parent_ids@.len() - i,
                {
                    if commit.parent_ids[i] == *h {
                        found = true;
                    }
                    i = i + 1;
                }
                proof {
                    let pv = strings_view(commit.parent_ids@);
                    if found {
                        let k = choose|k: int| 0 <= k < i && commit.parent_ids@[k]@ == h@;
                        assert(pv[k] == h@);
                    }
                    if pv.contains(h@) {
                        let k = choose|k: int| 0 <= k < pv.len() && pv[k] == h@;
                        assert(commit.parent_ids@[k]@ == h@);
                    }
                }
                if !found {
                    "amend"
                } else {
                    "commit"
                }
            },
            None => "commit",
        },
    }
}

/// One line of the reflog: a branch ref moving.
#[derive(Debug, Clone)]
pub struct ReflogEntry {
    pub branch: String,
    /// Where the ref pointed before, or `None` for a branch's first commit.
    pub old_id: Option<String>,
    pub new_id: String,
    /// RFC 3339 text of when the ref moved.
    pub timestamp: String,
    /// Why it moved: "commit", "amend", "merge", "branch created".
    pub reason: String,
}

/// A commit read back from disk is usable only when this version of the
/// format understands it.
pub fn check_schema(commit: Commit) -> (r: Result<Commit, RepoError>)
    ensures
        commit.schema_version <= CURRENT_SCHEMA_VERSION ==> r == Ok::<Commit, RepoError>(commit),
        commit.schema_version > CURRENT_SCHEMA_VERSION ==> (r matches Err(RepoError::NewerSchema { id, schema_version })
            && id@ == commit.id@ && schema_version == commit.schema_version),
{
    if commit.schema_version > CURRENT_SCHEMA_VERSION {
        let id = owned(commit.id.as_str());
        return Err(RepoError::NewerSchema { id, schema_version: commit.schema_version });
    }
    Ok(commit)
}

/// The next commit back along a history walk: the first parent (the
/// first-parent chain, as `git log` follows on merge-heavy history).
pub fn first_parent(commit: &Commit) -> (r: Option<String>)
    ensures
        commit.parent_ids@.len() == 0 ==> r is None,
        commit.parent_ids@.len() > 0 ==> (r matches Some(p) && p@ == commit.parent_ids@[0]@),
{
    if commit.parent_ids.len() == 0 {
        None
    } else {
        Some(owned(commit.parent_ids[0].as_str()))
    }
}

/// The first characters of an id shown in short listings: at most eleven.
pub fn short_id(id: &str) -> (r: String)
    ensures
        r@ == id@.take(if id@.len() < 11 { id@.len() as int } else { 11 }),
{
    let cs = chars_of(id);
    let n = if cs.len() < 11 { cs.len() } else { 11 };
    let r = string_from_range(&cs, 0, n);
    assert(cs@.subrange(0, n as int) =~= id@.take(n as int));
    r
}

} // verus!
