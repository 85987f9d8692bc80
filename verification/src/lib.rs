//! Credential and protected-record subsystem: a record store kept encrypted at
//! rest, salted memory-hard password hashing, and an authentication flow that
//! equalizes the cost of unknown-identity and wrong-secret rejections.

pub mod auth;
pub mod crypto;
pub mod db;
pub mod digest;
pub mod hash;
pub mod serial;
