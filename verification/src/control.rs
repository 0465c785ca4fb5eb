//! The control plane's own logic: source definitions and bundles, the SQL it
//! generates for them, and its session credentials.
pub mod auth;
pub mod model;
pub mod ops;
pub mod sql;
