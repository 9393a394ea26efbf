//! OBJACK: the client acknowledges object updates.
use vstd::prelude::*;
use crate::codec::{Reader, bytes32, unsigned_of, put_u8, put_u32, put_i32};
use crate::error::Error;
use crate::proto::message_objdata::{ObjData, ObjDataElemV};

verus! {

pub const OBJACK_ID: u8 = 7;

#[derive(Debug, Clone, Copy, PartialEq, Eq, Structural)]
pub struct ObjAckElem {
    pub id: u32,
    pub frame: i32,
}

#[derive(Debug)]
pub struct ObjAck {
    pub obj: Vec<ObjAckElem>,
}

impl View for ObjAck {
    type V = Seq<ObjAckElem>;

    open spec fn view(&self) -> Seq<ObjAckElem> {
        self.obj@
    }
}

/// The acknowledgement of each object update: its id and frame.
pub open spec fn objacks(v: Seq<ObjDataElemV>) -> Seq<ObjAckElem> {
    v.map_values(|e: ObjDataElemV| ObjAckElem { id: e.id, frame: e.frame })
}

/// The bytes of one acknowledged object: its id and frame.
pub open spec fn objack_elem_bytes(o: ObjAckElem) -> Seq<u8> {
    bytes32(o.id as int) + bytes32(unsigned_of(o.frame as int, 0x1_0000_0000))
}

pub open spec fn objack_elems_bytes(v: Seq<ObjAckElem>) -> Seq<u8>
    decreases v.len(),
{
    if v.len() == 0 {
        seq![]
    } else {
        objack_elems_bytes(v.drop_last()) + objack_elem_bytes(v.last())
    }
}

/// The bytes of an OBJACK message, type byte included.
pub open spec fn objack_bytes(v: Seq<ObjAckElem>) -> Seq<u8> {
    seq![OBJACK_ID] + objack_elems_bytes(v)
}

impl ObjAck {
    pub fn new(obj: Vec<ObjAckElem>) -> (o: ObjAck)
        ensures
            o.obj == obj,
    {
        ObjAck { obj }
    }

    /// Decodes the body of an OBJACK message. The body is not interpreted:
    /// the result is always empty and nothing is consumed.
    pub fn from_buf(r: &mut Reader) -> (res: Result<ObjAck, Error>)
        ensures
            final(r).data() == old(r).data(),
            final(r).pos() == old(r).pos(),
            res matches Ok(o) && o@ == Seq::<ObjAckElem>::empty(),
    {
        Ok(ObjAck { obj: Vec::new() })
    }

    /// The acknowledgement of every object update of `objdata`, in order.
    pub fn from_objdata(objdata: &ObjData) -> (o: ObjAck)
        ensures
            o@ == objacks(objdata@),
            o@.len() == objdata@.len(),
            forall|i: int|
                0 <= i < o@.len() ==> (#[trigger] o@[i]).id == objdata@[i].id && o@[i].frame
                    == objdata@[i].frame,
    {
        let mut obj: Vec<ObjAckElem> = Vec::new();
        let mut i: usize = 0;
        while i < objdata.obj.len()
            invariant
                i <= objdata.obj@.len(),
                obj@.len() == i,
                forall|j: int|
                    0 <= j < i ==> (#[trigger] obj@[j]).id == objdata.obj@[j].id && obj@[j].frame
                        == objdata.obj@[j].frame,
            decreases objdata.obj@.len() - i,
        {
            obj.push(ObjAckElem { id: objdata.obj[i].id, frame: objdata.obj[i].frame });
            i = i + 1;
        }
        assert(obj@ =~= objacks(objdata@));
        ObjAck { obj }
    }

    /// Appends the whole OBJACK message to `w`.
    pub fn to_buf(&self, w: &mut Vec<u8>)
        ensures
            final(w)@ == old(w)@ + objack_bytes(self@),
    {
        put_u8(w, OBJACK_ID);
        let mut i: usize = 0;
        while i < self.obj.len()
            invariant
                i <= self.obj@.len(),
                w@ == old(w)@ + seq![OBJACK_ID] + objack_elems_bytes(self.obj@.take(i as int)),
            decreases self.obj@.len() - i,
        {
            let ghost before = w@;
            put_u32(w, self.obj[i].id);
            put_i32(w, self.obj[i].frame);
            proof {
                assert(self.obj@.take(i as int + 1).drop_last() == self.obj@.take(i as int));
                assert(w@ =~= before + objack_elem_bytes(self.obj@[i as int]));
            }
            i = i + 1;
        }
        assert(self.obj@.take(i as int) == self.obj@);
        assert(final(w)@ =~= old(w)@ + objack_bytes(self@));
    }
}

} // verus!
