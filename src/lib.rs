//! Reconciles a declared identity-directory state (groups, persons and OAuth2
//! clients) against the entities a directory service reports, and decides the
//! calls that bring the service in line with the declaration.

pub mod text;
pub mod codec;
pub mod error;
pub mod remote;
pub mod state;
pub mod call;
pub mod reconcile;
pub mod sync;
pub mod oauth2;
pub mod tracking;
pub mod laws;
pub mod run;
