//! Incremental synchronisation of newly published package releases into a
//! review-tracking store.
//!
//! The crate holds the rules of one synchronisation pass: which releases fall
//! into the window of a pass, which version precedes a release in the history
//! that the registry reports, what is written to the tracking store, and in
//! which order the steps of a pass follow each other. Talking to the catalog,
//! the registry and the store is left to the caller, which is driven by
//! [`sync::Orchestrator`].
//!
//! - [`window`]: the week that a pass looks at.
//! - [`catalog`]: the releases of that week, most recent first.
//! - [`registry`]: the address of a package's history, and the reading of
//!   the registry's reply; [`json`] reads the reply's body.
//! - [`version`]: the predecessor of a version, by the order of [`text`].
//! - [`store`]: insert-or-ignore into the tracking store.
//! - [`sync`]: the steps of a pass; [`run`]: what holds of whole passes.

pub mod catalog;
pub mod error;
pub mod json;
pub mod registry;
pub mod run;
pub mod store;
pub mod sync;
pub mod text;
pub mod version;
pub mod window;
