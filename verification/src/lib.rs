//! The logic of a small command-line tool for AWS: what its commands ask for, send and
//! show.
pub mod bytes;
pub mod cli;
pub mod client;
pub mod error;
pub mod json;
pub mod measure;
pub mod number;
pub mod output;
pub mod services;
pub mod text;
