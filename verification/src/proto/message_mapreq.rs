//! MAPREQ: the client asks for the map grid at a grid coordinate.
use vstd::prelude::*;
use crate::codec::{PRes, Reader, read_outcome, p_i32, bytes32, unsigned_of, put_u8, put_i32};
use crate::error::Error;

verus! {

pub const MAPREQ_ID: u8 = 4;

#[derive(Debug, Clone, Copy, PartialEq, Eq, Structural)]
pub struct MapReq {
    pub x: i32,
    pub y: i32,
}

impl View for MapReq {
    type V = MapReq;

    open spec fn view(&self) -> MapReq {
        *self
    }
}

pub open spec fn p_mapreq(s: Seq<u8>, p: int) -> PRes<MapReq> {
    match p_i32(s, p) {
        Err(e) => Err(e),
        Ok((x, p1)) => match p_i32(s, p1) {
            Err(e) => Err(e),
            Ok((y, p2)) => Ok((MapReq { x, y }, p2)),
        },
    }
}

/// The bytes of a MAPREQ message, type byte included.
pub open spec fn mapreq_bytes(m: MapReq) -> Seq<u8> {
    seq![MAPREQ_ID] + bytes32(unsigned_of(m.x as int, 0x1_0000_0000)) + bytes32(
        unsigned_of(m.y as int, 0x1_0000_0000),
    )
}

impl MapReq {
    pub fn new(x: i32, y: i32) -> (m: MapReq)
        ensures
            m.x == x,
            m.y == y,
    {
        MapReq { x, y }
    }

    /// Decodes the body of a MAPREQ message: the two grid coordinates.
    pub fn from_buf(r: &mut Reader) -> (res: Result<MapReq, Error>)
        ensures
            final(r).data() == old(r).data(),
            old(r).pos() <= final(r).pos() <= final(r).data().len(),
            read_outcome(res, old(r).pos(), final(r).pos(), p_mapreq(old(r).data(), old(r).pos())),
    {
        let (x, y) = r.coord()?;
        Ok(MapReq { x, y })
    }

    /// Appends the whole MAPREQ message to `w`.
    pub fn to_buf(&self, w: &mut Vec<u8>)
        ensures
            final(w)@ == old(w)@ + mapreq_bytes(*self),
    {
        put_u8(w, MAPREQ_ID);
        put_i32(w, self.x);
        put_i32(w, self.y);
        assert(final(w)@ =~= old(w)@ + mapreq_bytes(*self));
    }
}

} // verus!
