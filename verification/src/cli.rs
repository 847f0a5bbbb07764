//! The command-line surface: every subcommand and its arguments, as plain
//! values, plus how the settings arguments map onto repo settings.
use vstd::prelude::*;

use crate::model::{RepoConfig, RepoKind, Visibility};

verus! {

/// The parsed command line.
pub struct Cli {
    pub command: Command,
}

/// One anigit subcommand with its arguments.
pub enum Command {
    Init,
    Add,
    Commit { message: String, amend: bool },
    Status,
    Log { oneline: bool, graph: bool },
    Diff { from: Option<String>, to: Option<String> },
    Show { commit_id: String },
    Branch { delete: bool, force_delete: bool, name: Option<String> },
    Checkout { create: bool, branch: String },
    Switch { create: bool, branch: String },
    Merge { branch: String },
    Tag { name: String },
    Clone { url: String, destination: Option<String> },
    Fork { url: String, destination: Option<String> },
    Remote { action: RemoteAction },
    Push { remote: Option<String> },
    Pull { remote: Option<String> },
    Fetch { remote: Option<String> },
    Blame,
    Reflog,
    Revert { commit_id: String },
    Compare { other_repo: String },
    Refresh,
    Config { action: ConfigAction },
    Uninstall { confirm: bool },
}

/// `anigit config` actions.
pub enum ConfigAction {
    Show,
    SetKind { kind: KindArg },
    SetVisibility { visibility: VisibilityArg },
}

/// The repo kinds as typed on the command line.
#[derive(Debug, Clone, Copy, PartialEq, Eq, Structural)]
pub enum KindArg {
    Shared,
    SingleUser,
}

/// The visibility levels as typed on the command line.
#[derive(Debug, Clone, Copy, PartialEq, Eq, Structural)]
pub enum VisibilityArg {
    PublicContributable,
    PublicViewOnly,
    Private,
    PrivateSharedWithSpecificPeople,
}

/// `anigit remote` actions.
pub enum RemoteAction {
    Add { name: String, url: String },
    Remove { name: String },
    List,
}

/// The repo kind a command-line kind stands for.
pub open spec fn kind_of(k: KindArg) -> RepoKind {
    match k {
        KindArg::Shared => RepoKind::Shared,
        KindArg::SingleUser => RepoKind::SingleUser,
    }
}

/// The visibility a command-line visibility stands for.
pub open spec fn visibility_of(v: VisibilityArg) -> Visibility {
    match v {
        VisibilityArg::PublicContributable => Visibility::PublicContributable,
        VisibilityArg::PublicViewOnly => Visibility::PublicViewOnly,
        VisibilityArg::Private => Visibility::Private,
        VisibilityArg::PrivateSharedWithSpecificPeople => Visibility::PrivateSharedWithSpecificPeople,
    }
}

impl KindArg {
    /// The repo kind this argument names.
    pub fn to_repo_kind(self) -> (r: RepoKind)
        ensures
            r == kind_of(self),
    {
        match self {
            KindArg::Shared => RepoKind::Shared,
            KindArg::SingleUser => RepoKind::SingleUser,
        }
    }
}

impl VisibilityArg {
    /// The visibility this argument names.
    pub fn to_visibility(self) -> (r: Visibility)
        ensures
            r == visibility_of(self),
    {
        match self {
            VisibilityArg::PublicContributable => Visibility::PublicContributable,
            VisibilityArg::PublicViewOnly => Visibility::PublicViewOnly,
            VisibilityArg::Private => Visibility::Private,
            VisibilityArg::PrivateSharedWithSpecificPeople => Visibility::PrivateSharedWithSpecificPeople,
        }
    }
}

/// The settings after an `anigit config` action: `set-kind` and
/// `set-visibility` change just that setting (at any time, whatever it
/// was), `show` changes nothing. Also says whether anything is to be saved.
pub fn apply_config_action(config: RepoConfig, action: &ConfigAction) -> (r: (RepoConfig, bool))
    ensures
        match *action {
            ConfigAction::Show => r.0 == config && !r.1,
            ConfigAction::SetKind { kind } => r.0 == (RepoConfig { repo_kind: kind_of(kind), ..config }) && r.1,
            ConfigAction::SetVisibility { visibility } => r.0 == (RepoConfig { visibility: visibility_of(visibility), ..config }) && r.1,
        },
{
    let mut c = config;
    match action {
        ConfigAction::Show => (c, false),
        ConfigAction::SetKind { kind } => {
            c.repo_kind = kind.to_repo_kind();
            (c, true)
        },
        ConfigAction::SetVisibility { visibility } => {
            c.visibility = visibility.to_visibility();
            (c, true)
        },
    }
}

} // verus!
