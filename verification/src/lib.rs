//! Synchronisation of remote email templates with a local directory.
//!
//! The crate has two layers:
//! - [`codec`]: a flat-file text format for a single template (name,
//!   plain-text body, HTML body), with a verified encoder and parser.
//! - [`reconcile`]: pure decision logic that matches a set of locally stored
//!   templates against the records a remote provider reports, classifies each
//!   pair (new / unchanged / diverged / corrupt / anomalous), and says which
//!   file, if any, is to be written.
//!
//! All I/O (directory scans, HTTP calls to the provider, file writes) stays
//! with the caller; the functions here work on plain strings and vectors.

mod codec;
mod reconcile;

pub use codec::Template;
pub use codec::TemplateError;
pub use codec::TemplateErrorView;
pub use codec::TemplateView;

pub use reconcile::ActiveClassification;
pub use reconcile::CheckOutcome;
pub use reconcile::ContentField;
pub use reconcile::PlanEntry;
pub use reconcile::RemoteTemplateRecord;
pub use reconcile::ResolvedVersion;
pub use reconcile::SyncDecision;
pub use reconcile::VersionRecord;

pub use reconcile::add_template;
pub use reconcile::build_candidate;
pub use reconcile::build_local_set;
pub use reconcile::check_templates;
pub use reconcile::classify_active;
pub use reconcile::decide_sync_action;
pub use reconcile::pending_filename;
pub use reconcile::plan_fetches;
pub use reconcile::sync_filename;
