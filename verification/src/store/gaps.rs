//! The periods Cairn was not watching.
use vstd::prelude::*;

verus! {

/// A period, in wall-clock seconds, during which nothing was counted.
#[derive(Clone, Copy, PartialEq, Eq, Debug, Structural)]
pub struct Gap {
    pub from: i64,
    pub to: i64,
}

} // verus!
