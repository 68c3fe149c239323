//! The application's end of the channel to the privileged helper: what it
//! says when the helper cannot be reached, and what it makes of the helper's
//! answer when it asks for the counting ports.
use vstd::prelude::*;
use crate::ipc::state::sentence;
use crate::protocol::{CountingSockets, Response};
use crate::services::Trouble;

verus! {

/// The sentence when the background component cannot be reached.
pub open spec fn not_reachable_text() -> Seq<char> {
    "Cairn cannot reach the background component that keeps protection in force. Nothing on this machine has been changed."@
}

/// What Cairn says when the helper is not there: a sentence that can be
/// shown as written, that does not blame the person, and that says what is
/// true.
pub fn not_reachable() -> (trouble: Trouble)
    ensures
        trouble.message@ == not_reachable_text(),
{
    Trouble::new(
        sentence(
            "Cairn cannot reach the background component that keeps protection in force. Nothing on this machine has been changed.",
        ),
    )
}

/// The sentence when this build cannot take the counting ports. It names
/// what is still true, because that is the part that matters.
pub open spec fn not_counting_here_text() -> Seq<char> {
    "Cairn is not counting the sites you reach for on this machine yet. Everything you have protected is still protected."@
}

/// The sentence when this build cannot take the counting ports.
pub fn not_counting_here() -> (text: String)
    ensures
        text@ == not_counting_here_text(),
{
    sentence(
        "Cairn is not counting the sites you reach for on this machine yet. Everything you have protected is still protected.",
    )
}

/// The ports whose listening sockets follow the helper's answer to a
/// request for them, or the sentence saying why Cairn is not counting: the
/// helper's own reason for a conflict or trouble, and otherwise (another
/// answer, or no ports at all) that this build is not counting here. Ports
/// being bound is not the same as counting; only sockets received are.
pub fn handover_ports(answer: Response) -> (ports: Result<Vec<u16>, String>)
    ensures
        match answer {
            Response::CountingSockets(CountingSockets::Bound { ports: bound }) => if bound@.len() > 0 {
                ports == Ok::<Vec<u16>, String>(bound)
            } else {
                ports matches Err(reason) && reason@ == not_counting_here_text()
            },
            Response::CountingSockets(CountingSockets::Conflict { reason }) => ports == Err::<Vec<u16>, String>(
                reason,
            ),
            Response::Trouble { message, .. } => ports == Err::<Vec<u16>, String>(message),
            _ => ports matches Err(reason) && reason@ == not_counting_here_text(),
        },
{
    match answer {
        Response::CountingSockets(CountingSockets::Bound { ports }) => {
            if ports.len() > 0 {
                Ok(ports)
            } else {
                Err(not_counting_here())
            }
        },
        Response::CountingSockets(CountingSockets::Conflict { reason }) => Err(reason),
        Response::Trouble { message, .. } => Err(message),
        _ => Err(not_counting_here()),
    }
}

} // verus!
