//! Organise local clones of git repositories under one root directory,
//! laid out as `root/host/owner/name`: resolve references to repository
//! identities, find managed and unmanaged clones, and filter, deduplicate
//! and sort listings of them.

pub mod add;
pub mod cli;
pub mod config;
pub mod error;
pub mod list;
pub mod log;
pub mod reference;
pub mod repo;
pub mod sort;
pub mod text;
pub mod unique;
pub mod urlcheck;
