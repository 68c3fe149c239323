//! What a connection to a counting port amounts to.
//!
//! The application accepts the connection and reads what the client
//! volunteered, bounded by a byte cap and a short timeout; this decides what
//! is noted: where it was going, if it named somewhere, and when. The
//! application hands that note to the history and nothing else. Nothing is
//! ever written back to the client.
use vstd::prelude::*;
use crate::domain::sni::{destination_name, parse_destination_name};

verus! {

/// The reach to note for a connection that sent `read` at `now`: the
/// destination it named, at that time, or nothing when it named none.
pub fn note_reach(read: &[u8], now: i64) -> (noted: Option<(String, i64)>)
    ensures
        match destination_name(read@) {
            Some(name) => noted matches Some((text, at)) && text@ == name && at == now,
            None => noted is None,
        },
{
    match parse_destination_name(read) {
        Some(domain) => Some((crate::ipc::state::sentence(domain.as_str()), now)),
        None => None,
    }
}

} // verus!
