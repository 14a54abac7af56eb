//! Short links: a radix-36 codec between link identifiers and short codes,
//! and the lifecycle of the link records that carry them.

pub mod config;
pub mod error;
pub mod laws;
pub mod radix;
pub mod response;
pub mod url;
