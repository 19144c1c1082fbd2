//! Core engine of a multi-tenant task-synchronization server.
//!
//! A *space* gathers members (admins and contributors) around hierarchical
//! lists of tasks.  This crate holds the authenticated mutation and
//! synchronization engine: role resolution, per-list permission enforcement,
//! the task lifecycle, idempotent create-by-client-id, the pull/push delta
//! protocol, and the transactional space backup and restore.  Every operation
//! works on an in-memory table store ([`domain::Db`]) and carries a contract
//! describing exactly which rows it reads and writes.
//!
//! Password hashing, token signing, UUID generation and JSON validity checks
//! are delegated to outside crates through small trusted wrappers; everything
//! that decides or computes is verified.

pub mod backup;
pub mod domain;
pub mod identity;
pub mod lists;
pub mod members;
pub mod profile;
pub mod order;
pub mod strutil;
pub mod sync;
pub mod tasks;
