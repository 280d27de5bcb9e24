use vstd::prelude::*;

verus! {

/// What went wrong in an account, session or token operation.
///
/// Wrong passwords, unknown users, unmatched refresh credentials and
/// rejected access tokens all surface as `Authentication`, so a caller
/// cannot tell which check failed.
#[derive(Debug, Clone, PartialEq, Eq)]
pub enum AccountError {
    /// The store refused or failed a read or a write.
    Database(String),
    /// A stored hash record is malformed, or the hashing backend failed.
    Hashing(String),
    /// The presented secret, credential or token was not accepted.
    Authentication(String),
    /// An access token could not be signed.
    TokenCreation(String),
    /// A presented access token is not well formed.
    InvalidToken(String),
    /// Required configuration, such as the signing secret, is missing.
    Configuration(String),
    /// Any other failure.
    Other(String),
}

/// What went wrong while reading or updating a knowledge score.
#[derive(Debug, Clone, PartialEq, Eq)]
pub enum KnowledgeError {
    Database(String),
    InvalidInput(String),
    Other(String),
}

/// What went wrong while listing modules or talking to the question generator.
#[derive(Debug, Clone, PartialEq, Eq)]
pub enum GeneratorError {
    Database(String),
    Authentication(String),
    Validation(String),
    Connection(String),
    Other(String),
}

} // verus!
