//! Library half of a file-offer data plane.

pub mod decimal;
pub mod vocab;
pub mod rdf;
pub mod offer;
pub mod graph;
pub mod sort;
pub mod policy;
pub mod roundtrip;
pub mod isolation;
pub mod tokens;
pub mod config;
pub mod registration;
pub mod handler;
pub mod public;
pub mod connector;
pub mod json;
