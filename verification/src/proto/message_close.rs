//! CLOSE: ends the session, a message without body.
use vstd::prelude::*;

verus! {

pub const CLOSE_ID: u8 = 8;

#[derive(Debug, Clone, Copy, PartialEq, Eq, Structural)]
pub struct Close;

impl View for Close {
    type V = Close;

    open spec fn view(&self) -> Close {
        *self
    }
}

} // verus!
