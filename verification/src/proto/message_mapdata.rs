//! MAPDATA: one fragment of a compressed map grid sent by the server.
use vstd::prelude::*;
use crate::codec::{PRes, Reader, read_outcome, p_i32, p_u16};
use crate::error::Error;

verus! {

pub const MAPDATA_ID: u8 = 5;

/// A fragment: the packet it belongs to, its offset in the packet, the
/// packet's total length and the fragment's bytes.
#[derive(Debug)]
pub struct MapData {
    pub pktid: i32,
    pub off: u16,
    pub len: u16,
    pub buf: Vec<u8>,
}

pub struct MapDataV {
    pub pktid: i32,
    pub off: u16,
    pub len: u16,
    pub buf: Seq<u8>,
}

impl View for MapData {
    type V = MapDataV;

    open spec fn view(&self) -> MapDataV {
        MapDataV { pktid: self.pktid, off: self.off, len: self.len, buf: self.buf@ }
    }
}

/// The body of a MAPDATA message: the header and then every byte that is
/// left.
pub open spec fn p_mapdata(s: Seq<u8>, p: int) -> PRes<MapDataV> {
    match p_i32(s, p) {
        Err(e) => Err(e),
        Ok((pktid, p1)) => match p_u16(s, p1) {
            Err(e) => Err(e),
            Ok((off, p2)) => match p_u16(s, p2) {
                Err(e) => Err(e),
                Ok((len, p3)) => Ok(
                    (MapDataV { pktid, off, len, buf: s.subrange(p3, s.len() as int) }, s.len() as int),
                ),
            },
        },
    }
}

impl MapData {
    pub fn new(pktid: i32, off: u16, len: u16, buf: Vec<u8>) -> (m: MapData)
        ensures
            m.pktid == pktid,
            m.off == off,
            m.len == len,
            m.buf == buf,
    {
        MapData { pktid, off, len, buf }
    }

    /// Decodes the body of a MAPDATA message.
    pub fn from_buf(r: &mut Reader) -> (res: Result<MapData, Error>)
        ensures
            final(r).data() == old(r).data(),
            old(r).pos() <= final(r).pos() <= final(r).data().len(),
            read_outcome(res, old(r).pos(), final(r).pos(), p_mapdata(old(r).data(), old(r).pos())),
    {
        let start = r.position_in_bounds();
        let pktid = r.i32()?;
        let off = match r.u16() {
            Ok(v) => v,
            Err(e) => {
                r.seek(start);
                return Err(e);
            },
        };
        let len = match r.u16() {
            Ok(v) => v,
            Err(e) => {
                r.seek(start);
                return Err(e);
            },
        };
        let buf = r.read_to_end();
        Ok(MapData { pktid, off, len, buf })
    }
}

} // verus!
