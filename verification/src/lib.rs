//! Credential-pool front end for AI-model API calls: validates key
//! configuration from environment-style key/value sources and selects a key
//! for each outgoing call by a configurable rotation policy.

pub mod config;
pub mod errors;
pub mod facade;
pub mod keylist;
pub mod keypool;
pub mod lb;
pub mod text;
