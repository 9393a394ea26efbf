//! ACK: acknowledges the REL messages up to a sequence number.
use vstd::prelude::*;
use crate::codec::{PRes, Reader, read_outcome, p_u16, bytes16, put_u8, put_u16};
use crate::error::Error;

verus! {

pub const ACK_ID: u8 = 2;

#[derive(Debug, Clone, Copy, PartialEq, Eq, Structural)]
pub struct Ack {
    pub seq: u16,
}

impl View for Ack {
    type V = Ack;

    open spec fn view(&self) -> Ack {
        *self
    }
}

pub open spec fn p_ack(s: Seq<u8>, p: int) -> PRes<Ack> {
    match p_u16(s, p) {
        Err(e) => Err(e),
        Ok((seq, q)) => Ok((Ack { seq }, q)),
    }
}

/// The bytes of an ACK message, type byte included.
pub open spec fn ack_bytes(a: Ack) -> Seq<u8> {
    seq![ACK_ID] + bytes16(a.seq as int)
}

impl Ack {
    pub fn new(seq: u16) -> (a: Ack)
        ensures
            a.seq == seq,
    {
        Ack { seq }
    }

    /// Decodes the body of an ACK message: the sequence number.
    pub fn from_buf(r: &mut Reader) -> (res: Result<Ack, Error>)
        ensures
            final(r).data() == old(r).data(),
            old(r).pos() <= final(r).pos() <= final(r).data().len(),
            read_outcome(res, old(r).pos(), final(r).pos(), p_ack(old(r).data(), old(r).pos())),
    {
        Ok(Ack { seq: r.u16()? })
    }

    /// Appends the whole ACK message to `w`.
    pub fn to_buf(&self, w: &mut Vec<u8>)
        ensures
            final(w)@ == old(w)@ + ack_bytes(*self),
    {
        put_u8(w, ACK_ID);
        put_u16(w, self.seq);
        assert(final(w)@ =~= old(w)@ + ack_bytes(*self));
    }
}

} // verus!
