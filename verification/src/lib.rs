//! Verified core of anigit: the commit data model, history replay, the
//! working-tree view plan, the interactive screens' state machines, and the
//! rules behind every subcommand.
pub mod text;
pub mod model;
pub mod replay;
pub mod input;
pub mod form;
pub mod catalog;
pub mod search;
pub mod order;
pub mod render;
pub mod tree;
pub mod uninstall;
pub mod repo;
pub mod revert;
pub mod sync;
pub mod cli;
pub mod commands;
