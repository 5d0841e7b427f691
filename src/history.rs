//! The history recorder: a sink that accepts every broadcast and produces
//! nothing.
use vstd::prelude::*;

use crate::error::RoutingError;
use crate::message::Message;

verus! {

pub struct History {}

impl History {
    pub fn new() -> (r: Self) {
        History {}
    }

    /// The messages this sink produces: none.
    pub fn stream(&self) -> (r: Vec<Message>)
        ensures
            r@.len() == 0,
    {
        Vec::new()
    }

    /// Accepts one broadcast message; never fails.
    pub fn broadcast(&self, message: &Message) -> (r: Result<(), RoutingError>)
        ensures
            r is Ok,
    {
        Ok(())
    }
}

} // verus!
