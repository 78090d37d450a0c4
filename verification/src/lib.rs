//! Verified core of a small static file server: request routing, path
//! confinement, HTML page composition, command-line parsing and the
//! handling of the TLS credential files.

pub mod text;
pub mod escape;
pub mod encoding;
pub mod paths;
pub mod request;
pub mod sort;
pub mod preview;
pub mod listing;
pub mod cli;
pub mod credentials;
