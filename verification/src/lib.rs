//! A task and organization coordination platform: accounts create profiles,
//! post tasks with a budget, volunteer for them and complete them, propose
//! and sign vision documents, and gather in named organizations.
//!
//! The platform is modelled as three cooperating in-memory stores:
//! a profile store (one profile per account, with a reputation counter),
//! a task store (the core: a status lifecycle, a per-account ownership
//! index, and a currency transfer from the volunteer to the initiator when
//! a task starts), and an organization store (named member lists with a
//! founder at position zero, plus content-addressed vision documents).
//!
//! Every operation takes an already-authenticated caller account and
//! returns a typed result; a successful request makes exactly one change
//! and records exactly one event, and a failed request leaves all state
//! unchanged. The laws of the task lifecycle (exclusive ownership,
//! forward-only status, reputation granted exactly once) are stated and
//! proved in `laws`.

pub mod bmap;
pub mod dao;
pub mod hashing;
pub mod laws;
pub mod ledger;
pub mod profile;
pub mod task;

pub use hashing::task_id_of;
