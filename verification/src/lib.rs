//! Verified core of the Pipe Network command-line client.
pub mod amount;
pub mod config;
pub mod credentials;
pub mod credits;
pub mod jwt;
pub mod siws;
pub mod text;
pub mod types;
pub mod wallet;
