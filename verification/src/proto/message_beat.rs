//! BEAT: the client's keep-alive, a message without body.
use vstd::prelude::*;

verus! {

pub const BEAT_ID: u8 = 3;

#[derive(Debug, Clone, Copy, PartialEq, Eq, Structural)]
pub struct Beat;

impl View for Beat {
    type V = Beat;

    open spec fn view(&self) -> Beat {
        *self
    }
}

} // verus!
