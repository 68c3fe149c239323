//! The channel the application talks to the helper over: length-prefixed
//! frames with a hard cap. The helper parses bytes from a less-privileged
//! process, so the cap and the closed verb list are the whole of its input
//! surface.
use vstd::prelude::*;
use crate::ipc::state::sentence;
use crate::protocol::{Response, TroubleKind};

verus! {

/// The largest frame either end will read or write.
pub const MAX_FRAME_BYTES: usize = 4 * 1024 * 1024;

/// The length a four-byte big-endian prefix announces.
pub open spec fn announced(prefix: [u8; 4]) -> int {
    prefix[0] as int * 16777216 + prefix[1] as int * 65536 + prefix[2] as int * 256 + prefix[3] as int
}

/// How many payload bytes to read after `prefix`, or `None` when the frame
/// is larger than the helper will read: an oversized frame is refused before
/// any of it is read.
pub fn frame_length(prefix: [u8; 4]) -> (length: Option<usize>)
    ensures
        announced(prefix) <= MAX_FRAME_BYTES ==> length == Some(announced(prefix) as usize),
        announced(prefix) > MAX_FRAME_BYTES ==> length is None,
{
    let length = prefix[0] as u64 * 16777216 + prefix[1] as u64 * 65536 + prefix[2] as u64 * 256 + prefix[3] as u64;
    if length > MAX_FRAME_BYTES as u64 {
        None
    } else {
        Some(length as usize)
    }
}

/// The four-byte big-endian prefix for a payload of `length` bytes, or
/// `None` when the payload is larger than the channel carries.
pub fn frame_prefix(length: usize) -> (prefix: Option<[u8; 4]>)
    ensures
        length <= MAX_FRAME_BYTES ==> (prefix matches Some(p) && announced(p) == length),
        length > MAX_FRAME_BYTES ==> prefix is None,
{
    if length > MAX_FRAME_BYTES {
        return None;
    }
    let value = length as u32;
    let prefix = [(value / 16777216) as u8, (value / 65536 % 256) as u8, (value / 256 % 256) as u8, (value % 256) as u8];
    assert(announced(prefix) == length) by (nonlinear_arith)
        requires
            prefix[0] == value / 16777216,
            prefix[1] == value / 65536 % 256,
            prefix[2] == value / 256 % 256,
            prefix[3] == value % 256,
            value == length,
            length <= 4194304,
    {
    }
    Some(prefix)
}

/// Whether a connection from `peer` may be answered: only the person Cairn
/// was installed for (`owner`), and root. Anyone else is refused before a
/// byte of the request is read.
pub fn peer_allowed(peer: u32, owner: u32) -> (allowed: bool)
    ensures
        allowed == (peer == owner || peer == 0),
{
    peer == owner || peer == 0
}

/// The sentence for bytes that are not a request.
pub open spec fn unrecognised_text() -> Seq<char> {
    "Cairn did not recognise that request."@
}

/// The answer to bytes that are not a request: rejected, never ignored.
pub fn unrecognised() -> (answer: Response)
    ensures
        answer matches Response::Trouble { message, kind } && kind == TroubleKind::UnknownVerb
            && message@ == unrecognised_text(),
{
    Response::Trouble { message: sentence("Cairn did not recognise that request."), kind: TroubleKind::UnknownVerb }
}

} // verus!
