//! The decisions behind each subcommand, apart from reading and writing
//! the repository: what a commit records, how a merge resolves, which
//! branch operations are allowed, and what the stub commands answer.
pub mod blame;
pub mod branch;
pub mod clone_fork;
pub mod commit;
pub mod log;
pub mod merge;
pub mod remote;
