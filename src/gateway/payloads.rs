use vstd::prelude::*;

verus! {

/// Why the gateway turned a message down.
#[derive(Debug, Clone, PartialEq, Eq)]
pub enum Error {
    BadRequest(String),
    Declined,
    BadToken,
    InvalidToken,
    InternalServerError,
    NotFound,
    Forbidden,
}

/// The greeting sent on a new connection: how often the client is to send
/// a heartbeat, in seconds.
#[derive(Debug, Clone, Copy, PartialEq, Eq, Structural)]
pub struct Hello {
    pub heartbeat_interval: u64,
}

impl Hello {
    pub fn new(heartbeat_interval: u64) -> (r: Hello)
        ensures
            r.heartbeat_interval == heartbeat_interval,
    {
        Hello { heartbeat_interval }
    }
}

/// A client's request to be identified by its login token.
#[derive(Debug, Clone)]
pub struct Identify {
    pub token: String,
}

impl Identify {
    pub fn new(token: String) -> (r: Identify)
        ensures
            r.token@ == token@,
    {
        Identify { token }
    }

    pub fn token(&self) -> (r: String)
        ensures
            r@ == self.token@,
    {
        self.token.clone()
    }
}

} // verus!
