//! OBJDATA: the server's updates of the objects in view. Each object update
//! is a list of properties ended by the END tag.
use vstd::prelude::*;
use crate::codec::{
    PRes, Reader, read_outcome, loose_outcome, p_u8, p_u16, p_u32, p_i32, p_coord, p_strz, p_bytes,
};
use crate::error::{Error, ErrorKind};

verus! {

pub const OBJDATA_ID: u8 = 6;

pub const OD_REM: u8 = 0;
pub const OD_MOVE: u8 = 1;
pub const OD_RES: u8 = 2;
pub const OD_LINBEG: u8 = 3;
pub const OD_LINSTEP: u8 = 4;
pub const OD_SPEECH: u8 = 5;
pub const OD_COMPOSE: u8 = 6;
pub const OD_DRAWOFF: u8 = 7;
pub const OD_LUMIN: u8 = 8;
pub const OD_AVATAR: u8 = 9;
pub const OD_FOLLOW: u8 = 10;
pub const OD_HOMING: u8 = 11;
pub const OD_OVERLAY: u8 = 12;
pub const OD_AUTH: u8 = 13;
pub const OD_HEALTH: u8 = 14;
pub const OD_BUDDY: u8 = 15;
pub const OD_CMPPOSE: u8 = 16;
pub const OD_CMPMOD: u8 = 17;
pub const OD_CMPEQU: u8 = 18;
pub const OD_ICON: u8 = 19;
pub const OD_END: u8 = 255;

/// The end marker of the resource id lists.
pub const LIST_END: u16 = 65535;

#[allow(non_camel_case_types)]
#[derive(Debug)]
pub enum odFOLLOW {
    Stop,
    To(u32, u16, String),
}

pub enum FollowV {
    Stop,
    To(u32, u16, Seq<char>),
}

#[allow(non_camel_case_types)]
#[derive(Debug)]
pub enum odHOMING {
    New((i32, i32), u16),
    Change((i32, i32), u16),
    Delete,
}

#[allow(non_camel_case_types)]
#[derive(Debug)]
pub enum odBUDDY {
    Update(String, u8, u8),
    Delete,
}

pub enum BuddyV {
    Update(Seq<char>, u8, u8),
    Delete,
}

#[allow(non_camel_case_types)]
#[derive(Debug, Clone, Copy, PartialEq, Eq, Structural)]
pub enum odICON {
    SetTo(u16),
    Del,
}

/// One equipment slot of a composite object: slot, attachment point,
/// resource and optional offset.
pub type Equ = (u8, String, u16, Option<(u16, u16, u16)>);

pub type EquV = (u8, Seq<char>, u16, Option<(u16, u16, u16)>);

/// One property of an object update.
#[allow(non_camel_case_types)]
#[derive(Debug)]
pub enum ObjDataElemProp {
    odREM,
    odMOVE((i32, i32), u16),
    odRES(u16),
    odLINBEG((i32, i32), (i32, i32), i32),
    odLINSTEP(i32),
    odSPEECH(u16, String),
    odCOMPOSE(u16),
    odDRAWOFF((i32, i32)),
    odLUMIN((i32, i32), u16, u8),
    odAVATAR(Vec<u16>),
    odFOLLOW(odFOLLOW),
    odHOMING(odHOMING),
    odOVERLAY(u16),
    odAUTH,
    odHEALTH(u8),
    odBUDDY(odBUDDY),
    odCMPPOSE(u8, Option<Vec<u16>>, Option<(Option<Vec<u16>>, u8)>),
    odCMPMOD(Option<Vec<Vec<u16>>>),
    odCMPEQU(Option<Vec<Equ>>),
    odICON(odICON),
}

pub enum PropV {
    Rem,
    Move((i32, i32), u16),
    Res(u16),
    Linbeg((i32, i32), (i32, i32), i32),
    Linstep(i32),
    Speech(u16, Seq<char>),
    Compose(u16),
    Drawoff((i32, i32)),
    Lumin((i32, i32), u16, u8),
    Avatar(Seq<u16>),
    Follow(FollowV),
    Homing(odHOMING),
    Overlay(u16),
    Auth,
    Health(u8),
    Buddy(BuddyV),
    Cmppose(u8, Option<Seq<u16>>, Option<(Option<Seq<u16>>, u8)>),
    Cmpmod(Option<Seq<Seq<u16>>>),
    Cmpequ(Option<Seq<EquV>>),
    Icon(odICON),
}

pub open spec fn opt_vec_view(o: Option<Vec<u16>>) -> Option<Seq<u16>> {
    match o {
        Some(v) => Some(v@),
        None => None,
    }
}

pub open spec fn equ_view(e: Equ) -> EquV {
    (e.0, e.1@, e.2, e.3)
}

impl View for ObjDataElemProp {
    type V = PropV;

    open spec fn view(&self) -> PropV {
        match self {
            ObjDataElemProp::odREM => PropV::Rem,
            ObjDataElemProp::odMOVE(c, a) => PropV::Move(*c, *a),
            ObjDataElemProp::odRES(r) => PropV::Res(*r),
            ObjDataElemProp::odLINBEG(a, b, c) => PropV::Linbeg(*a, *b, *c),
            ObjDataElemProp::odLINSTEP(l) => PropV::Linstep(*l),
            ObjDataElemProp::odSPEECH(z, t) => PropV::Speech(*z, t@),
            ObjDataElemProp::odCOMPOSE(r) => PropV::Compose(*r),
            ObjDataElemProp::odDRAWOFF(c) => PropV::Drawoff(*c),
            ObjDataElemProp::odLUMIN(c, z, s) => PropV::Lumin(*c, *z, *s),
            ObjDataElemProp::odAVATAR(v) => PropV::Avatar(v@),
            ObjDataElemProp::odFOLLOW(f) => PropV::Follow(
                match f {
                    odFOLLOW::Stop => FollowV::Stop,
                    odFOLLOW::To(o, x, n) => FollowV::To(*o, *x, n@),
                },
            ),
            ObjDataElemProp::odHOMING(h) => PropV::Homing(*h),
            ObjDataElemProp::odOVERLAY(r) => PropV::Overlay(*r),
            ObjDataElemProp::odAUTH => PropV::Auth,
            ObjDataElemProp::odHEALTH(h) => PropV::Health(*h),
            ObjDataElemProp::odBUDDY(b) => PropV::Buddy(
                match b {
                    odBUDDY::Update(n, g, t) => BuddyV::Update(n@, *g, *t),
                    odBUDDY::Delete => BuddyV::Delete,
                },
            ),
            ObjDataElemProp::odCMPPOSE(seq, ids1, ids2) => PropV::Cmppose(
                *seq,
                opt_vec_view(*ids1),
                match ids2 {
                    Some((i, t)) => Some((opt_vec_view(*i), *t)),
                    None => None,
                },
            ),
            ObjDataElemProp::odCMPMOD(m) => PropV::Cmpmod(
                match m {
                    Some(v) => Some(v@.map_values(|x: Vec<u16>| x@)),
                    None => None,
                },
            ),
            ObjDataElemProp::odCMPEQU(e) => PropV::Cmpequ(
                match e {
                    Some(v) => Some(v@.map_values(|x: Equ| equ_view(x))),
                    None => None,
                },
            ),
            ObjDataElemProp::odICON(i) => PropV::Icon(*i),
        }
    }
}

// ---------------------------------------------------------------------------
// Specifications of the property decoders

/// A resource id whose top bit announces attached data: the bit is cleared
/// and the data (a length byte and that many bytes) skipped.
pub open spec fn p_sdt(s: Seq<u8>, p: int, resid: u16) -> PRes<u16> {
    if resid & 0x8000 != 0 {
        match p_u8(s, p) {
            Err(e) => Err(e),
            Ok((n, p1)) => match p_bytes(s, p1, n as int) {
                Err(e) => Err(e),
                Ok((_, p2)) => Ok((resid & !0x8000u16, p2)),
            },
        }
    } else {
        Ok((resid, p))
    }
}

/// Resource ids (each possibly with attached data) up to the 65535 marker,
/// appended to `acc`.
pub open spec fn p_resids(s: Seq<u8>, p: int, acc: Seq<u16>) -> PRes<Seq<u16>>
    decreases s.len() - p,
{
    match p_u16(s, p) {
        Err(e) => Err(e),
        Ok((r, p1)) => if r == LIST_END {
            Ok((acc, p1))
        } else {
            match p_sdt(s, p1, r) {
                Err(e) => Err(e),
                Ok((id, p2)) => if p < p2 <= s.len() {
                    p_resids(s, p2, acc.push(id))
                } else {
                    Err(ErrorKind::Eof)
                },
            }
        },
    }
}

/// Plain 16-bit values up to the 65535 marker, appended to `acc`.
pub open spec fn p_ids(s: Seq<u8>, p: int, acc: Seq<u16>) -> PRes<Seq<u16>>
    decreases s.len() - p,
{
    match p_u16(s, p) {
        Err(e) => Err(e),
        Ok((r, p1)) => if r == LIST_END {
            Ok((acc, p1))
        } else if p < p1 <= s.len() {
            p_ids(s, p1, acc.push(r))
        } else {
            Err(ErrorKind::Eof)
        },
    }
}

/// CMPMOD models: a model id and its texture ids, until the 65535 marker;
/// models without textures are dropped.
pub open spec fn p_mods(s: Seq<u8>, p: int, acc: Seq<Seq<u16>>) -> PRes<Seq<Seq<u16>>>
    decreases s.len() - p,
{
    match p_u16(s, p) {
        Err(e) => Err(e),
        Ok((m, p1)) => if m == LIST_END {
            Ok((acc, p1))
        } else {
            match p_ids(s, p1, seq![]) {
                Err(e) => Err(e),
                Ok((ids, p2)) => if p < p2 <= s.len() {
                    p_mods(s, p2, if ids.len() > 0 { acc.push(ids) } else { acc })
                } else {
                    Err(ErrorKind::Eof)
                },
            }
        },
    }
}

/// CMPEQU slots until the 255 marker.
pub open spec fn p_equs(s: Seq<u8>, p: int, acc: Seq<EquV>) -> PRes<Seq<EquV>>
    decreases s.len() - p,
{
    match p_u8(s, p) {
        Err(e) => Err(e),
        Ok((h, p1)) => if h == 255 {
            Ok((acc, p1))
        } else {
            match p_strz(s, p1) {
                Err(e) => Err(e),
                Ok((at, p2)) => match p_u16(s, p2) {
                    Err(e) => Err(e),
                    Ok((resid, p3)) => {
                        let off: PRes<Option<(u16, u16, u16)>> = if h & 0x80 != 0 {
                            match p_u16(s, p3) {
                                Err(e) => Err(e),
                                Ok((x, q1)) => match p_u16(s, q1) {
                                    Err(e) => Err(e),
                                    Ok((y, q2)) => match p_u16(s, q2) {
                                        Err(e) => Err(e),
                                        Ok((z, q3)) => Ok((Some((x, y, z)), q3)),
                                    },
                                },
                            }
                        } else {
                            Ok((None, p3))
                        };
                        match off {
                            Err(e) => Err(e),
                            Ok((o, p4)) => if p < p4 <= s.len() {
                                p_equs(s, p4, acc.push((h & 0x7f, at, resid, o)))
                            } else {
                                Err(ErrorKind::Eof)
                            },
                        }
                    },
                },
            }
        },
    }
}

pub open spec fn nonempty(v: Seq<u16>) -> Option<Seq<u16>> {
    if v.len() > 0 { Some(v) } else { None }
}

/// The CMPPOSE property after its tag.
pub open spec fn p_cmppose(s: Seq<u8>, p: int) -> PRes<PropV> {
    match p_u8(s, p) {
        Err(e) => Err(e),
        Ok((pfl, p1)) => match p_u8(s, p1) {
            Err(e) => Err(e),
            Ok((seq, p2)) => {
                let ids1: PRes<Option<Seq<u16>>> = if pfl & 2 != 0 {
                    match p_resids(s, p2, seq![]) {
                        Err(e) => Err(e),
                        Ok((v, q)) => Ok((nonempty(v), q)),
                    }
                } else {
                    Ok((None, p2))
                };
                match ids1 {
                    Err(e) => Err(e),
                    Ok((i1, p3)) => {
                        let ids2: PRes<Option<(Option<Seq<u16>>, u8)>> = if pfl & 4 != 0 {
                            match p_resids(s, p3, seq![]) {
                                Err(e) => Err(e),
                                Ok((v, q)) => match p_u8(s, q) {
                                    Err(e) => Err(e),
                                    Ok((ttime, q2)) => Ok((Some((nonempty(v), ttime)), q2)),
                                },
                            }
                        } else {
                            Ok((None, p3))
                        };
                        match ids2 {
                            Err(e) => Err(e),
                            Ok((i2, p4)) => Ok((PropV::Cmppose(seq, i1, i2), p4)),
                        }
                    },
                }
            },
        },
    }
}

/// One property: a tag and its value; END and unknown tags end the
/// property list.
pub open spec fn p_prop(s: Seq<u8>, p: int) -> PRes<Option<PropV>> {
    match p_u8(s, p) {
        Err(e) => Err(e),
        Ok((t, p1)) => if t == OD_END || t > OD_ICON {
            Ok((None, p1))
        } else {
            match p_prop_body(s, p1, t) {
                Err(e) => Err(e),
                Ok((v, q)) => Ok((Some(v), q)),
            }
        },
    }
}

/// The value of a property with tag `t` at position `p`.
pub open spec fn p_prop_body(s: Seq<u8>, p1: int, t: u8) -> PRes<PropV> {
            if t == OD_REM {
                Ok((PropV::Rem, p1))
            } else if t == OD_MOVE {
                match p_coord(s, p1) {
                    Err(e) => Err(e),
                    Ok((xy, p2)) => match p_u16(s, p2) {
                        Err(e) => Err(e),
                        Ok((ia, p3)) => Ok((PropV::Move(xy, ia), p3)),
                    },
                }
            } else if t == OD_RES {
                match p_u16(s, p1) {
                    Err(e) => Err(e),
                    Ok((r, p2)) => match p_sdt(s, p2, r) {
                        Err(e) => Err(e),
                        Ok((id, p3)) => Ok((PropV::Res(id), p3)),
                    },
                }
            } else if t == OD_LINBEG {
                match p_coord(s, p1) {
                    Err(e) => Err(e),
                    Ok((a, p2)) => match p_coord(s, p2) {
                        Err(e) => Err(e),
                        Ok((b, p3)) => match p_i32(s, p3) {
                            Err(e) => Err(e),
                            Ok((c, p4)) => Ok((PropV::Linbeg(a, b, c), p4)),
                        },
                    },
                }
            } else if t == OD_LINSTEP {
                match p_i32(s, p1) {
                    Err(e) => Err(e),
                    Ok((l, p2)) => Ok((PropV::Linstep(l), p2)),
                }
            } else if t == OD_SPEECH {
                match p_u16(s, p1) {
                    Err(e) => Err(e),
                    Ok((zo, p2)) => match p_strz(s, p2) {
                        Err(e) => Err(e),
                        Ok((text, p3)) => Ok((PropV::Speech(zo, text), p3)),
                    },
                }
            } else if t == OD_COMPOSE {
                match p_u16(s, p1) {
                    Err(e) => Err(e),
                    Ok((r, p2)) => Ok((PropV::Compose(r), p2)),
                }
            } else if t == OD_DRAWOFF {
                match p_coord(s, p1) {
                    Err(e) => Err(e),
                    Ok((c, p2)) => Ok((PropV::Drawoff(c), p2)),
                }
            } else if t == OD_LUMIN {
                match p_coord(s, p1) {
                    Err(e) => Err(e),
                    Ok((off, p2)) => match p_u16(s, p2) {
                        Err(e) => Err(e),
                        Ok((sz, p3)) => match p_u8(s, p3) {
                            Err(e) => Err(e),
                            Ok((st, p4)) => Ok((PropV::Lumin(off, sz, st), p4)),
                        },
                    },
                }
            } else if t == OD_AVATAR {
                match p_ids(s, p1, seq![]) {
                    Err(e) => Err(e),
                    Ok((v, p2)) => Ok((PropV::Avatar(v), p2)),
                }
            } else if t == OD_FOLLOW {
                match p_u32(s, p1) {
                    Err(e) => Err(e),
                    Ok((oid, p2)) => if oid == 0xffff_ffff {
                        Ok((PropV::Follow(FollowV::Stop), p2))
                    } else {
                        match p_u16(s, p2) {
                            Err(e) => Err(e),
                            Ok((xfres, p3)) => match p_strz(s, p3) {
                                Err(e) => Err(e),
                                Ok((xfname, p4)) => Ok(
                                    (PropV::Follow(FollowV::To(oid, xfres, xfname)), p4),
                                ),
                            },
                        }
                    },
                }
            } else if t == OD_HOMING {
                match p_u32(s, p1) {
                    Err(e) => Err(e),
                    Ok((oid, p2)) => if oid == 0xffff_ffff {
                        Ok((PropV::Homing(odHOMING::Delete), p2))
                    } else {
                        match p_coord(s, p2) {
                            Err(e) => Err(e),
                            Ok((tgtc, p3)) => match p_u16(s, p3) {
                                Err(e) => Err(e),
                                Ok((v, p4)) => Ok(
                                    (
                                        PropV::Homing(
                                            if oid == 0xffff_fffe {
                                                odHOMING::Change(tgtc, v)
                                            } else {
                                                odHOMING::New(tgtc, v)
                                            },
                                        ),
                                        p4,
                                    ),
                                ),
                            },
                        }
                    },
                }
            } else if t == OD_OVERLAY {
                match p_i32(s, p1) {
                    Err(e) => Err(e),
                    Ok((_olid, p2)) => match p_u16(s, p2) {
                        Err(e) => Err(e),
                        Ok((r, p3)) => if r != 0xffff {
                            match p_sdt(s, p3, r) {
                                Err(e) => Err(e),
                                Ok((id, p4)) => Ok((PropV::Overlay(id), p4)),
                            }
                        } else {
                            Ok((PropV::Overlay(r & !0x8000u16), p3))
                        },
                    },
                }
            } else if t == OD_AUTH {
                Ok((PropV::Auth, p1))
            } else if t == OD_HEALTH {
                match p_u8(s, p1) {
                    Err(e) => Err(e),
                    Ok((hp, p2)) => Ok((PropV::Health(hp), p2)),
                }
            } else if t == OD_BUDDY {
                match p_strz(s, p1) {
                    Err(e) => Err(e),
                    Ok((name, p2)) => if name.len() == 0 {
                        Ok((PropV::Buddy(BuddyV::Delete), p2))
                    } else {
                        match p_u8(s, p2) {
                            Err(e) => Err(e),
                            Ok((g, p3)) => match p_u8(s, p3) {
                                Err(e) => Err(e),
                                Ok((b, p4)) => Ok((PropV::Buddy(BuddyV::Update(name, g, b)), p4)),
                            },
                        }
                    },
                }
            } else if t == OD_CMPPOSE {
                p_cmppose(s, p1)
            } else if t == OD_CMPMOD {
                match p_mods(s, p1, seq![]) {
                    Err(e) => Err(e),
                    Ok((m, p2)) => Ok(
                        (PropV::Cmpmod(if m.len() > 0 { Some(m) } else { None }), p2),
                    ),
                }
            } else if t == OD_CMPEQU {
                match p_equs(s, p1, seq![]) {
                    Err(e) => Err(e),
                    Ok((e, p2)) => Ok(
                        (PropV::Cmpequ(if e.len() > 0 { Some(e) } else { None }), p2),
                    ),
                }
            } else if t == OD_ICON {
                match p_u16(s, p1) {
                    Err(e) => Err(e),
                    Ok((r, p2)) => if r == 65535 {
                        Ok((PropV::Icon(odICON::Del), p2))
                    } else {
                        match p_u8(s, p2) {
                            Err(e) => Err(e),
                            Ok((_ifl, p3)) => Ok((PropV::Icon(odICON::SetTo(r)), p3)),
                        }
                    },
                }
            } else {
                Err(ErrorKind::UnknownMessage)
            }
}

// ---------------------------------------------------------------------------
// Decoders

fn sdt(r: &mut Reader, resid: u16) -> (res: Result<u16, Error>)
    ensures
        final(r).data() == old(r).data(),
        old(r).pos() <= final(r).pos() <= final(r).data().len(),
        loose_outcome(res, final(r).pos(), p_sdt(old(r).data(), old(r).pos(), resid)),
{
    let _ = r.position_in_bounds();
    if resid & 0x8000 != 0 {
        let n = r.u8()?;
        let _data = r.read_exact(n as usize)?;
        Ok(resid & !0x8000u16)
    } else {
        Ok(resid)
    }
}

fn resids(r: &mut Reader) -> (res: Result<Vec<u16>, Error>)
    ensures
        final(r).data() == old(r).data(),
        old(r).pos() <= final(r).pos() <= final(r).data().len(),
        loose_outcome(res, final(r).pos(), p_resids(old(r).data(), old(r).pos(), seq![])),
{
    let ghost s = r.data();
    let ghost start = r.pos();
    let mut acc: Vec<u16> = Vec::new();
    let _ = r.position_in_bounds();
    loop
        invariant
            r.data() == s,
            s == old(r).data(),
            start == old(r).pos(),
            start <= r.pos() <= s.len(),
            p_resids(s, r.pos(), acc@) == p_resids(s, start, seq![]),
        decreases s.len() - r.pos(),
    {
        let v = r.u16()?;
        if v == LIST_END {
            return Ok(acc);
        }
        let id = sdt(r, v)?;
        acc.push(id);
    }
}

fn ids(r: &mut Reader) -> (res: Result<Vec<u16>, Error>)
    ensures
        final(r).data() == old(r).data(),
        old(r).pos() <= final(r).pos() <= final(r).data().len(),
        loose_outcome(res, final(r).pos(), p_ids(old(r).data(), old(r).pos(), seq![])),
{
    let ghost s = r.data();
    let ghost start = r.pos();
    let mut acc: Vec<u16> = Vec::new();
    let _ = r.position_in_bounds();
    loop
        invariant
            r.data() == s,
            s == old(r).data(),
            start == old(r).pos(),
            start <= r.pos() <= s.len(),
            p_ids(s, r.pos(), acc@) == p_ids(s, start, seq![]),
        decreases s.len() - r.pos(),
    {
        let v = r.u16()?;
        if v == LIST_END {
            return Ok(acc);
        }
        acc.push(v);
    }
}

pub open spec fn mods_view(v: Seq<Vec<u16>>) -> Seq<Seq<u16>> {
    v.map_values(|x: Vec<u16>| x@)
}

fn mods(r: &mut Reader) -> (res: Result<Vec<Vec<u16>>, Error>)
    ensures
        final(r).data() == old(r).data(),
        old(r).pos() <= final(r).pos() <= final(r).data().len(),
        match p_mods(old(r).data(), old(r).pos(), seq![]) {
            Ok((v, p)) => res matches Ok(x) && mods_view(x@) == v && final(r).pos() == p,
            Err(k) => res matches Err(e) && e.kind == k,
        },
{
    let ghost s = r.data();
    let ghost start = r.pos();
    let mut acc: Vec<Vec<u16>> = Vec::new();
    let _ = r.position_in_bounds();
    assert(mods_view(acc@) =~= seq![]);
    loop
        invariant
            r.data() == s,
            s == old(r).data(),
            start == old(r).pos(),
            start <= r.pos() <= s.len(),
            p_mods(s, r.pos(), mods_view(acc@)) == p_mods(s, start, seq![]),
        decreases s.len() - r.pos(),
    {
        let m = r.u16()?;
        if m == LIST_END {
            return Ok(acc);
        }
        let v = ids(r)?;
        if v.len() > 0 {
            let ghost before = acc@;
            acc.push(v);
            assert(mods_view(acc@) =~= mods_view(before).push(v@));
        }
    }
}

pub open spec fn equs_view(v: Seq<Equ>) -> Seq<EquV> {
    v.map_values(|x: Equ| equ_view(x))
}

fn equs(r: &mut Reader) -> (res: Result<Vec<Equ>, Error>)
    ensures
        final(r).data() == old(r).data(),
        old(r).pos() <= final(r).pos() <= final(r).data().len(),
        match p_equs(old(r).data(), old(r).pos(), seq![]) {
            Ok((v, p)) => res matches Ok(x) && equs_view(x@) == v && final(r).pos() == p,
            Err(k) => res matches Err(e) && e.kind == k,
        },
{
    let ghost s = r.data();
    let ghost start = r.pos();
    let mut acc: Vec<Equ> = Vec::new();
    let _ = r.position_in_bounds();
    assert(equs_view(acc@) =~= seq![]);
    loop
        invariant
            r.data() == s,
            s == old(r).data(),
            start == old(r).pos(),
            start <= r.pos() <= s.len(),
            p_equs(s, r.pos(), equs_view(acc@)) == p_equs(s, start, seq![]),
        decreases s.len() - r.pos(),
    {
        let h = r.u8()?;
        if h == 255 {
            return Ok(acc);
        }
        let at = r.strz()?;
        let resid = r.u16()?;
        let off = if h & 0x80 != 0 {
            let x = r.u16()?;
            let y = r.u16()?;
            let z = r.u16()?;
            Some((x, y, z))
        } else {
            None
        };
        let ghost before = acc@;
        let e: Equ = (h & 0x7f, at, resid, off);
        let ghost ev = equ_view(e);
        acc.push(e);
        assert(equs_view(acc@) =~= equs_view(before).push(ev));
    }
}

fn cmppose(r: &mut Reader) -> (res: Result<ObjDataElemProp, Error>)
    ensures
        final(r).data() == old(r).data(),
        old(r).pos() <= final(r).pos() <= final(r).data().len(),
        loose_outcome(res, final(r).pos(), p_cmppose(old(r).data(), old(r).pos())),
{
    let pfl = r.u8()?;
    let seq = r.u8()?;
    let ids1 = if pfl & 2 != 0 {
        let v = resids(r)?;
        if v.len() > 0 { Some(v) } else { None }
    } else {
        None
    };
    let ids2 = if pfl & 4 != 0 {
        let v = resids(r)?;
        let ttime = r.u8()?;
        if v.len() > 0 { Some((Some(v), ttime)) } else { Some((None, ttime)) }
    } else {
        None
    };
    Ok(ObjDataElemProp::odCMPPOSE(seq, ids1, ids2))
}

/// The value of a property with tag `t` (not END and not unknown).
#[verifier::rlimit(50)]
fn prop_value(r: &mut Reader, t: u8) -> (res: Result<ObjDataElemProp, Error>)
    requires
        t <= OD_ICON,
    ensures
        final(r).data() == old(r).data(),
        old(r).pos() <= final(r).pos() <= final(r).data().len(),
        loose_outcome(res, final(r).pos(), p_prop_body(old(r).data(), old(r).pos(), t)),
{
    let _ = r.position_in_bounds();
    if t == OD_REM {
        Ok(ObjDataElemProp::odREM)
    } else if t == OD_MOVE {
        let xy = r.coord()?;
        let ia = r.u16()?;
        Ok(ObjDataElemProp::odMOVE(xy, ia))
    } else if t == OD_RES {
        let v = r.u16()?;
        let id = sdt(r, v)?;
        Ok(ObjDataElemProp::odRES(id))
    } else if t == OD_LINBEG {
        let a = r.coord()?;
        let b = r.coord()?;
        let c = r.i32()?;
        Ok(ObjDataElemProp::odLINBEG(a, b, c))
    } else if t == OD_LINSTEP {
        Ok(ObjDataElemProp::odLINSTEP(r.i32()?))
    } else if t == OD_SPEECH {
        let zo = r.u16()?;
        let text = r.strz()?;
        Ok(ObjDataElemProp::odSPEECH(zo, text))
    } else if t == OD_COMPOSE {
        Ok(ObjDataElemProp::odCOMPOSE(r.u16()?))
    } else if t == OD_DRAWOFF {
        Ok(ObjDataElemProp::odDRAWOFF(r.coord()?))
    } else if t == OD_LUMIN {
        let off = r.coord()?;
        let sz = r.u16()?;
        let st = r.u8()?;
        Ok(ObjDataElemProp::odLUMIN(off, sz, st))
    } else if t == OD_AVATAR {
        Ok(ObjDataElemProp::odAVATAR(ids(r)?))
    } else if t == OD_FOLLOW {
        let oid = r.u32()?;
        if oid == 0xffff_ffff {
            Ok(ObjDataElemProp::odFOLLOW(odFOLLOW::Stop))
        } else {
            let xfres = r.u16()?;
            let xfname = r.strz()?;
            Ok(ObjDataElemProp::odFOLLOW(odFOLLOW::To(oid, xfres, xfname)))
        }
    } else if t == OD_HOMING {
        let oid = r.u32()?;
        if oid == 0xffff_ffff {
            Ok(ObjDataElemProp::odHOMING(odHOMING::Delete))
        } else {
            let tgtc = r.coord()?;
            let v = r.u16()?;
            if oid == 0xffff_fffe {
                Ok(ObjDataElemProp::odHOMING(odHOMING::Change(tgtc, v)))
            } else {
                Ok(ObjDataElemProp::odHOMING(odHOMING::New(tgtc, v)))
            }
        }
    } else if t == OD_OVERLAY {
        let _olid = r.i32()?;
        let v = r.u16()?;
        if v != 0xffff {
            Ok(ObjDataElemProp::odOVERLAY(sdt(r, v)?))
        } else {
            Ok(ObjDataElemProp::odOVERLAY(v & !0x8000u16))
        }
    } else if t == OD_AUTH {
        Ok(ObjDataElemProp::odAUTH)
    } else if t == OD_HEALTH {
        Ok(ObjDataElemProp::odHEALTH(r.u8()?))
    } else if t == OD_BUDDY {
        let name = r.strz()?;
        if name.as_str().is_empty() {
            Ok(ObjDataElemProp::odBUDDY(odBUDDY::Delete))
        } else {
            let g = r.u8()?;
            let b = r.u8()?;
            Ok(ObjDataElemProp::odBUDDY(odBUDDY::Update(name, g, b)))
        }
    } else if t == OD_CMPPOSE {
        cmppose(r)
    } else if t == OD_CMPMOD {
        let m = mods(r)?;
        let ghost mv = mods_view(m@);
        let res = if m.len() > 0 { Some(m) } else { None };
        proof {
            assert(m@.len() == mv.len());
        }
        Ok(ObjDataElemProp::odCMPMOD(res))
    } else if t == OD_CMPEQU {
        let e = equs(r)?;
        let ghost ev = equs_view(e@);
        let res = if e.len() > 0 { Some(e) } else { None };
        proof {
            assert(e@.len() == ev.len());
        }
        Ok(ObjDataElemProp::odCMPEQU(res))
    } else {
        let v = r.u16()?;
        if v == 65535 {
            Ok(ObjDataElemProp::odICON(odICON::Del))
        } else {
            let _ifl = r.u8()?;
            Ok(ObjDataElemProp::odICON(odICON::SetTo(v)))
        }
    }
}

impl ObjDataElemProp {
    /// Decodes one property; `None` for the END tag and for tags that the
    /// protocol does not define.
    pub fn from_buf(r: &mut Reader) -> (res: Result<Option<ObjDataElemProp>, Error>)
        ensures
            final(r).data() == old(r).data(),
            old(r).pos() <= final(r).pos() <= final(r).data().len(),
            match p_prop(old(r).data(), old(r).pos()) {
                Ok((None, p)) => res matches Ok(None) && final(r).pos() == p,
                Ok((Some(v), p)) => res matches Ok(Some(x)) && x@ == v && final(r).pos() == p,
                Err(k) => res matches Err(e) && e.kind == k && final(r).pos() == old(r).pos(),
            },
            res is Ok ==> final(r).pos() > old(r).pos(),
    {
        let start = r.position_in_bounds();
        let t = r.u8()?;
        if t == OD_END || t > OD_ICON {
            return Ok(None);
        }
        match prop_value(r, t) {
            Ok(v) => Ok(Some(v)),
            Err(e) => {
                r.seek(start);
                Err(e)
            },
        }
    }
}

/// The update of one object: flags, id, frame number and properties.
#[derive(Debug)]
pub struct ObjDataElem {
    pub fl: u8,
    pub id: u32,
    pub frame: i32,
    pub prop: Vec<ObjDataElemProp>,
}

pub struct ObjDataElemV {
    pub fl: u8,
    pub id: u32,
    pub frame: i32,
    pub prop: Seq<PropV>,
}

pub open spec fn props_view(v: Seq<ObjDataElemProp>) -> Seq<PropV> {
    v.map_values(|x: ObjDataElemProp| x@)
}

impl View for ObjDataElem {
    type V = ObjDataElemV;

    open spec fn view(&self) -> ObjDataElemV {
        ObjDataElemV { fl: self.fl, id: self.id, frame: self.frame, prop: props_view(self.prop@) }
    }
}

/// The object updates of an OBJDATA message.
#[derive(Debug)]
pub struct ObjData {
    pub obj: Vec<ObjDataElem>,
}

pub open spec fn elems_view(v: Seq<ObjDataElem>) -> Seq<ObjDataElemV> {
    v.map_values(|x: ObjDataElem| x@)
}

impl View for ObjData {
    type V = Seq<ObjDataElemV>;

    open spec fn view(&self) -> Seq<ObjDataElemV> {
        elems_view(self.obj@)
    }
}

/// Properties up to the END tag (or an unknown tag), appended to `acc`.
pub open spec fn p_props(s: Seq<u8>, p: int, acc: Seq<PropV>) -> PRes<Seq<PropV>>
    decreases s.len() - p,
{
    match p_prop(s, p) {
        Err(e) => Err(e),
        Ok((None, q)) => Ok((acc, q)),
        Ok((Some(x), q)) => if p < q <= s.len() {
            p_props(s, q, acc.push(x))
        } else {
            Err(ErrorKind::Eof)
        },
    }
}

/// Object updates until the input ends, appended to `acc`.
pub open spec fn p_objs(s: Seq<u8>, p: int, acc: Seq<ObjDataElemV>) -> PRes<Seq<ObjDataElemV>>
    decreases s.len() - p,
{
    if p < 0 || p >= s.len() {
        Ok((acc, p))
    } else {
        match p_u32(s, p + 1) {
            Err(e) => Err(e),
            Ok((id, p1)) => match p_i32(s, p1) {
                Err(e) => Err(e),
                Ok((frame, p2)) => match p_props(s, p2, seq![]) {
                    Err(e) => Err(e),
                    Ok((prop, p3)) => if p < p3 <= s.len() {
                        p_objs(s, p3, acc.push(ObjDataElemV { fl: s[p], id, frame, prop }))
                    } else {
                        Err(ErrorKind::Eof)
                    },
                },
            },
        }
    }
}

/// The body of an OBJDATA message: object updates up to the end of input.
pub open spec fn p_objdata(s: Seq<u8>, p: int) -> PRes<Seq<ObjDataElemV>> {
    p_objs(s, p, seq![])
}

fn props(r: &mut Reader) -> (res: Result<Vec<ObjDataElemProp>, Error>)
    ensures
        final(r).data() == old(r).data(),
        old(r).pos() <= final(r).pos() <= final(r).data().len(),
        match p_props(old(r).data(), old(r).pos(), seq![]) {
            Ok((v, p)) => res matches Ok(x) && props_view(x@) == v && final(r).pos() == p,
            Err(k) => res matches Err(e) && e.kind == k,
        },
{
    let ghost s = r.data();
    let ghost start = r.pos();
    let mut acc: Vec<ObjDataElemProp> = Vec::new();
    let _ = r.position_in_bounds();
    assert(props_view(acc@) =~= seq![]);
    loop
        invariant
            r.data() == s,
            s == old(r).data(),
            start == old(r).pos(),
            start <= r.pos() <= s.len(),
            p_props(s, r.pos(), props_view(acc@)) == p_props(s, start, seq![]),
        decreases s.len() - r.pos(),
    {
        match ObjDataElemProp::from_buf(r)? {
            Some(x) => {
                let ghost before = acc@;
                let ghost xv = x@;
                acc.push(x);
                assert(props_view(acc@) =~= props_view(before).push(xv));
            },
            None => {
                return Ok(acc);
            },
        }
    }
}

impl ObjData {
    pub fn new(obj: Vec<ObjDataElem>) -> (o: ObjData)
        ensures
            o.obj == obj,
    {
        ObjData { obj }
    }

    /// Decodes the body of an OBJDATA message.
    pub fn from_buf(r: &mut Reader) -> (res: Result<ObjData, Error>)
        ensures
            final(r).data() == old(r).data(),
            old(r).pos() <= final(r).pos() <= final(r).data().len(),
            read_outcome(res, old(r).pos(), final(r).pos(), p_objdata(old(r).data(), old(r).pos())),
    {
        let start = r.position_in_bounds();
        let ghost s = r.data();
        let mut obj: Vec<ObjDataElem> = Vec::new();
        assert(elems_view(obj@) =~= seq![]);
        loop
            invariant
                r.data() == s,
                s == old(r).data(),
                start == old(r).pos(),
                start <= r.pos() <= s.len(),
                p_objs(s, r.pos(), elems_view(obj@)) == p_objdata(s, start as int),
            decreases s.len() - r.pos(),
        {
            let fl = match r.u8() {
                Ok(b) => b,
                Err(_) => {
                    return Ok(ObjData { obj });
                },
            };
            let id = match r.u32() {
                Ok(v) => v,
                Err(e) => {
                    r.seek(start);
                    return Err(e);
                },
            };
            let frame = match r.i32() {
                Ok(v) => v,
                Err(e) => {
                    r.seek(start);
                    return Err(e);
                },
            };
            let prop = match props(r) {
                Ok(v) => v,
                Err(e) => {
                    r.seek(start);
                    return Err(e);
                },
            };
            let ghost before = obj@;
            let elem = ObjDataElem { fl, id, frame, prop };
            let ghost ev = elem@;
            obj.push(elem);
            assert(elems_view(obj@) =~= elems_view(before).push(ev));
        }
    }
}

} // verus!
