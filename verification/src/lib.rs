//! A bridge between a software-supply-chain knowledge base and a
//! vulnerability-exchange report format.
//!
//! The crate parses package identifiers into the query service's structured
//! input form, maps an internal vulnerability taxonomy into the service's
//! "exactly one variant" input shape, and folds vulnerability-certification
//! results into a vulnerability-exchange document.

pub mod client;
pub mod purl;
pub mod vex;
pub mod vuln;
