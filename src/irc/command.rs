//! Command words and numeric replies that the bouncer interprets.
use vstd::prelude::*;

use crate::irc::message::chars_of;

verus! {

pub const PING: &'static str = "PING";
pub const PONG: &'static str = "PONG";
pub const PRIVMSG: &'static str = "PRIVMSG";
pub const JOIN: &'static str = "JOIN";
pub const USER: &'static str = "USER";
pub const NICK: &'static str = "NICK";
pub const CAP: &'static str = "CAP";
/// Names listing of a channel.
pub const RPL_NAMREPLY: &'static str = "353";
/// End of a names listing.
pub const RPL_ENDOFNAMES: &'static str = "366";
/// End of the message of the day: registration is complete.
pub const RPL_ENDOFMOTD: &'static str = "376";
/// No message of the day: registration is complete.
pub const ERR_NOMOTD: &'static str = "422";

/// Whether two strings hold the same characters.
pub fn same_text(a: &str, b: &str) -> (r: bool)
    ensures
        r == (a@ == b@),
{
    let x = chars_of(a);
    let y = chars_of(b);
    if x.len() != y.len() {
        return false;
    }
    let mut i: usize = 0;
    while i < x.len()
        invariant
            i <= x@.len(),
            x@ == a@,
            y@ == b@,
            x@.len() == y@.len(),
            forall|j: int| 0 <= j < i ==> x@[j] == y@[j],
        decreases x.len() - i,
    {
        if x[i] != y[i] {
            assert(x@[i as int] != y@[i as int]);
            return false;
        }
        i += 1;
    }
    assert(x@ =~= y@);
    true
}

} // verus!
