//! A revision log with snapshots for a structured document.
//!
//! A document (a grid of fields, rows and cells) is never stored as such.
//! What is stored is the ordered log of the operation sets that were applied
//! to it, one revision per set, and now and then a snapshot of the
//! materialised state, so that opening the document does not have to replay
//! the log from its start.
//!
//! * [`wire`], [`field`] and [`operation`]: operations and their byte form.
//! * [`pad_view`]: the model of a document, what operations do to it, and
//!   the laws of both. [`pad`]: the materialised document itself.
//!   [`render`]: its rendering as text.
//! * [`revision`] and [`store`]: the values that are persisted and the
//!   contracts of the two stores that persist them. [`memory`]: stores that
//!   keep them in memory.
//! * [`history`]: how log and snapshots determine the document, and the laws
//!   of the manager's state. [`manager`]: the revision manager, which owns
//!   the pad, numbers the revisions and decides when a snapshot is written.
//! * [`app`] and [`infra`]: the records of the workspace's apps.
//!
//! The manager is the single writer of its document: every call that
//! changes it takes the manager by `&mut`, so no two of them run at once.

pub mod app;
pub mod error;
pub mod field;
pub mod history;
pub mod infra;
pub mod manager;
pub mod memory;
pub mod operation;
pub mod pad;
pub mod pad_view;
pub mod render;
pub mod revision;
pub mod store;
pub mod wire;

