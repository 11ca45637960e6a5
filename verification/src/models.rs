//! Plain data carried between the serving layer and the ledger: request
//! payloads and the identity records of the separate user store.

use vstd::prelude::*;

verus! {

/// The claims of a bearer token: subject identity and issue/expiry times.
#[derive(Debug, Clone)]
pub struct Claims {
    pub sub: String,
    pub iat: usize,
    pub exp: usize,
}

/// A registered user of the separate user store.
#[derive(Debug, Clone)]
pub struct User {
    pub id: Option<i32>,
    pub name: String,
    pub email: String,
}

/// A signup request: name, email and the password to be hashed.
#[derive(Debug, Clone)]
pub struct SignupData {
    pub name: String,
    pub email: String,
    pub password: String,
}

/// A login request: email and password.
#[derive(Debug, Clone)]
pub struct LoginData {
    pub email: String,
    pub password: String,
}

/// A token-validation request.
#[derive(Debug, Clone)]
pub struct AuthData {
    pub token: String,
}

/// A request to create an election with its permitted vote options.
#[derive(Debug, Clone)]
pub struct CreateElectionPayload {
    pub election_id: String,
    pub vote_options: Vec<String>,
}

/// A request to cast one vote.
#[derive(Debug, Clone)]
pub struct VotePayload {
    pub election_id: String,
    pub vote_option_id: String,
}

} // verus!
