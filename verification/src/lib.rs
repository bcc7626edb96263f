//! Line-coverage analysis for declarative infrastructure configuration.
//!
//! A directory of configuration files is scanned into a line-addressed
//! catalog of declared blocks (module references, data sources, resources).
//! Deployed-resource addresses are parsed and resolved through the catalog,
//! marking the matching declarations as used, and a coverage report sums the
//! line spans of the declarations that no deployed address ever touched.

pub mod catalog;
pub mod scan;
pub mod address;
pub mod resolver;
pub mod report;
