//! Item collection service: the rules of a small JSON-file-backed item store,
//! the bearer-token check in front of it, and the in-memory credential store.
use vstd::prelude::*;

pub mod items;
pub mod token;
pub mod users;

verus! {

/// The shared secret that signs and checks bearer tokens.
pub const SECRET_KEY: &'static str = "SuperSecretKey";

/// The JSON body of every error reply: a short label and a hint for the caller.
pub struct ErrorResponse {
    pub error: String,
    pub msg: String,
}

impl ErrorResponse {
    /// An error body made of the two texts.
    pub fn new(error: &str, msg: &str) -> (r: ErrorResponse)
        ensures
            r.error@ == error@,
            r.msg@ == msg@,
    {
        ErrorResponse { error: error.to_owned(), msg: msg.to_owned() }
    }
}

} // verus!
