//! Credential and session authentication for an adaptive-learning backend:
//! salted password hashing, opaque refresh credentials checked by scanning
//! stored session hashes, and short-lived signed access tokens.

pub mod difficulty;
pub mod error;
pub mod text;
pub mod claims;
pub mod jwt;
pub mod password;
pub mod store;
pub mod account;
pub mod service;
pub mod structs;
