//! REL: reliable, sequenced messages. One REL message carries several
//! elements; each element but the last has its length before it.
use vstd::prelude::*;
use crate::codec::{
    PRes, Reader, read_outcome, loose_outcome, p_u8, p_u16, p_i32, p_strz, p_bytes, p_color, bytes16,
    strz_bytes, put_u8, put_u16, put_strz, put_bytes,
};
use crate::error::{Error, ErrorKind};
use crate::list::{List, ListV, lists_view, p_list, list_bytes, list_to_buf, all_encodable};

verus! {

pub const REL_ID: u8 = 1;

/// Set in an element's type byte when another element follows.
pub const MORE_RELS_ATTACHED_BIT: u8 = 0x80;

pub const NEWWDG_ID: u8 = 0;
pub const WDGMSG_ID: u8 = 1;
pub const DSTWDG_ID: u8 = 2;
pub const MAPIV_ID: u8 = 3;
pub const GLOBLOB_ID: u8 = 4;
pub const PAGINAE_ID: u8 = 5;
pub const RESID_ID: u8 = 6;
pub const PARTY_ID: u8 = 7;
pub const SFX_ID: u8 = 8;
pub const CATTR_ID: u8 = 9;
pub const MUSIC_ID: u8 = 10;
pub const TILES_ID: u8 = 11;
pub const BUFF_ID: u8 = 12;
pub const SESSKEY_ID: u8 = 13;

pub const GMSG_TIME: u8 = 0;
pub const GMSG_LIGHT: u8 = 2;
pub const GMSG_SKY: u8 = 3;

/// A new widget: id, type name, parent and creation arguments.
#[derive(Debug)]
pub struct NewWdg {
    pub id: u16,
    pub name: String,
    pub parent: u16,
    pub pargs: Vec<List>,
    pub cargs: Vec<List>,
}

pub struct NewWdgV {
    pub id: u16,
    pub name: Seq<char>,
    pub parent: u16,
    pub pargs: Seq<ListV>,
    pub cargs: Seq<ListV>,
}

impl View for NewWdg {
    type V = NewWdgV;

    open spec fn view(&self) -> NewWdgV {
        NewWdgV {
            id: self.id,
            name: self.name@,
            parent: self.parent,
            pargs: lists_view(self.pargs@),
            cargs: lists_view(self.cargs@),
        }
    }
}

/// A message to or from a widget.
#[derive(Debug)]
pub struct WdgMsg {
    pub id: u16,
    pub name: String,
    pub args: Vec<List>,
}

pub struct WdgMsgV {
    pub id: u16,
    pub name: Seq<char>,
    pub args: Seq<ListV>,
}

impl View for WdgMsg {
    type V = WdgMsgV;

    open spec fn view(&self) -> WdgMsgV {
        WdgMsgV { id: self.id, name: self.name@, args: lists_view(self.args@) }
    }
}

impl WdgMsg {
    pub fn new(id: u16, name: String, args: Vec<List>) -> (m: WdgMsg)
        ensures
            m.id == id,
            m.name == name,
            m.args == args,
    {
        WdgMsg { id, name, args }
    }
}

#[derive(Debug, Clone, Copy, PartialEq, Eq, Structural)]
pub struct DstWdg {
    pub id: u16,
}

#[derive(Debug, Clone, Copy, PartialEq, Eq, Structural)]
pub struct MapIv;

/// A global state update.
#[derive(Debug)]
pub enum Glob {
    Time { time: i32, season: u8, inc: u8 },
    Light {
        amb: (u8, u8, u8, u8),
        dif: (u8, u8, u8, u8),
        spc: (u8, u8, u8, u8),
        ang: i32,
        ele: i32,
        inc: u8,
    },
    Sky(Option<(u16, Option<(u16, i32)>)>),
}

impl View for Glob {
    type V = Glob;

    open spec fn view(&self) -> Glob {
        *self
    }
}

#[derive(Debug)]
pub struct Globs {
    pub globs: Vec<Glob>,
}

/// Another name of the global-state element.
pub type GlobLob = Globs;

#[derive(Debug, Clone, Copy, PartialEq, Eq, Structural)]
pub struct Paginae;

/// A resource name bound to a resource id.
#[derive(Debug)]
pub struct ResId {
    pub id: u16,
    pub name: String,
    pub ver: u16,
}

pub struct ResIdV {
    pub id: u16,
    pub name: Seq<char>,
    pub ver: u16,
}

impl View for ResId {
    type V = ResIdV;

    open spec fn view(&self) -> ResIdV {
        ResIdV { id: self.id, name: self.name@, ver: self.ver }
    }
}

#[derive(Debug, Clone, Copy, PartialEq, Eq, Structural)]
pub struct Party;

#[derive(Debug, Clone, Copy, PartialEq, Eq, Structural)]
pub struct Sfx;

#[derive(Debug, Clone, Copy, PartialEq, Eq, Structural)]
pub struct Cattr;

#[derive(Debug, Clone, Copy, PartialEq, Eq, Structural)]
pub struct Music;

/// A tile resource: the tile id, the resource name and its version.
#[derive(Debug)]
pub struct Tile {
    pub id: u8,
    pub name: String,
    pub ver: u16,
}

/// Another name of a tile resource.
pub type TilesElem = Tile;

pub struct TileV {
    pub id: u8,
    pub name: Seq<char>,
    pub ver: u16,
}

impl View for Tile {
    type V = TileV;

    open spec fn view(&self) -> TileV {
        TileV { id: self.id, name: self.name@, ver: self.ver }
    }
}

#[derive(Debug)]
pub struct Tiles {
    pub tiles: Vec<Tile>,
}

pub open spec fn tiles_view(v: Seq<Tile>) -> Seq<TileV> {
    v.map_values(|t: Tile| t@)
}

#[derive(Debug, Clone, Copy, PartialEq, Eq, Structural)]
pub struct Buff;

#[derive(Debug, Clone, Copy, PartialEq, Eq, Structural)]
pub struct SessKey;

/// One REL element.
#[derive(Debug)]
pub enum Rel {
    NEWWDG(NewWdg),
    WDGMSG(WdgMsg),
    DSTWDG(DstWdg),
    MAPIV(MapIv),
    GLOBLOB(Globs),
    PAGINAE(Paginae),
    RESID(ResId),
    PARTY(Party),
    SFX(Sfx),
    CATTR(Cattr),
    MUSIC(Music),
    TILES(Tiles),
    BUFF(Buff),
    SESSKEY(SessKey),
}

pub enum RelV {
    NewWdg(NewWdgV),
    WdgMsg(WdgMsgV),
    DstWdg(u16),
    MapIv,
    Globlob(Seq<Glob>),
    Paginae,
    ResId(ResIdV),
    Party,
    Sfx,
    Cattr,
    Music,
    Tiles(Seq<TileV>),
    Buff,
    SessKey,
}

impl View for Rel {
    type V = RelV;

    open spec fn view(&self) -> RelV {
        match self {
            Rel::NEWWDG(w) => RelV::NewWdg(w@),
            Rel::WDGMSG(m) => RelV::WdgMsg(m@),
            Rel::DSTWDG(d) => RelV::DstWdg(d.id),
            Rel::MAPIV(_) => RelV::MapIv,
            Rel::GLOBLOB(g) => RelV::Globlob(g.globs@),
            Rel::PAGINAE(_) => RelV::Paginae,
            Rel::RESID(r) => RelV::ResId(r@),
            Rel::PARTY(_) => RelV::Party,
            Rel::SFX(_) => RelV::Sfx,
            Rel::CATTR(_) => RelV::Cattr,
            Rel::MUSIC(_) => RelV::Music,
            Rel::TILES(t) => RelV::Tiles(tiles_view(t.tiles@)),
            Rel::BUFF(_) => RelV::Buff,
            Rel::SESSKEY(_) => RelV::SessKey,
        }
    }
}

/// A REL message: the sequence number of its first element and the
/// elements, numbered consecutively.
#[derive(Debug)]
pub struct Rels {
    pub seq: u16,
    pub rels: Vec<Rel>,
}

pub struct RelsV {
    pub seq: u16,
    pub rels: Seq<RelV>,
}

pub open spec fn rels_view(v: Seq<Rel>) -> Seq<RelV> {
    v.map_values(|r: Rel| r@)
}

impl View for Rels {
    type V = RelsV;

    open spec fn view(&self) -> RelsV {
        RelsV { seq: self.seq, rels: rels_view(self.rels@) }
    }
}

// ---------------------------------------------------------------------------
// Decoding specifications

pub open spec fn p_newwdg(s: Seq<u8>, p: int) -> PRes<NewWdgV> {
    match p_u16(s, p) {
        Err(e) => Err(e),
        Ok((id, p1)) => match p_strz(s, p1) {
            Err(e) => Err(e),
            Ok((name, p2)) => match p_u16(s, p2) {
                Err(e) => Err(e),
                Ok((parent, p3)) => match p_list(s, p3) {
                    Err(e) => Err(e),
                    Ok((pargs, p4)) => match p_list(s, p4) {
                        Err(e) => Err(e),
                        Ok((cargs, p5)) => Ok((NewWdgV { id, name, parent, pargs, cargs }, p5)),
                    },
                },
            },
        },
    }
}

pub open spec fn p_wdgmsg(s: Seq<u8>, p: int) -> PRes<WdgMsgV> {
    match p_u16(s, p) {
        Err(e) => Err(e),
        Ok((id, p1)) => match p_strz(s, p1) {
            Err(e) => Err(e),
            Ok((name, p2)) => match p_list(s, p2) {
                Err(e) => Err(e),
                Ok((args, p3)) => Ok((WdgMsgV { id, name, args }, p3)),
            },
        },
    }
}

pub open spec fn p_resid(s: Seq<u8>, p: int) -> PRes<ResIdV> {
    match p_u16(s, p) {
        Err(e) => Err(e),
        Ok((id, p1)) => match p_strz(s, p1) {
            Err(e) => Err(e),
            Ok((name, p2)) => match p_u16(s, p2) {
                Err(e) => Err(e),
                Ok((ver, p3)) => Ok((ResIdV { id, name, ver }, p3)),
            },
        },
    }
}

/// The SKY global after its type byte.
pub open spec fn p_sky(s: Seq<u8>, p: int) -> PRes<Option<(u16, Option<(u16, i32)>)>> {
    match p_u16(s, p) {
        Err(e) => Err(e),
        Ok((id1, p1)) => if id1 == 0xffff {
            Ok((None, p1))
        } else {
            match p_u16(s, p1) {
                Err(e) => Err(e),
                Ok((id2, p2)) => if id2 == 0xffff {
                    Ok((Some((id1, None)), p2))
                } else {
                    match p_i32(s, p2) {
                        Err(e) => Err(e),
                        Ok((b, p3)) => Ok((Some((id1, Some((id2, b)))), p3)),
                    }
                },
            }
        },
    }
}

/// The LIGHT global after its type byte.
pub open spec fn p_light(s: Seq<u8>, p: int, inc: u8) -> PRes<Glob> {
    match p_color(s, p) {
        Err(e) => Err(e),
        Ok((amb, p1)) => match p_color(s, p1) {
            Err(e) => Err(e),
            Ok((dif, p2)) => match p_color(s, p2) {
                Err(e) => Err(e),
                Ok((spc, p3)) => match p_i32(s, p3) {
                    Err(e) => Err(e),
                    Ok((ang, p4)) => match p_i32(s, p4) {
                        Err(e) => Err(e),
                        Ok((ele, p5)) => Ok((Glob::Light { amb, dif, spc, ang, ele, inc }, p5)),
                    },
                },
            },
        },
    }
}

/// One global after its type byte `t`.
pub open spec fn p_glob(s: Seq<u8>, p: int, t: u8, inc: u8) -> PRes<Glob> {
    if t == GMSG_TIME {
        match p_i32(s, p) {
            Err(e) => Err(e),
            Ok((time, p1)) => match p_u8(s, p1) {
                Err(e) => Err(e),
                Ok((season, p2)) => Ok((Glob::Time { time, season, inc }, p2)),
            },
        }
    } else if t == GMSG_LIGHT {
        p_light(s, p, inc)
    } else if t == GMSG_SKY {
        match p_sky(s, p) {
            Err(e) => Err(e),
            Ok((v, p1)) => Ok((Glob::Sky(v), p1)),
        }
    } else {
        Err(ErrorKind::UnknownGlob)
    }
}

/// Globals until the input ends, appended to `acc`.
pub open spec fn p_globs_from(s: Seq<u8>, p: int, inc: u8, acc: Seq<Glob>) -> PRes<Seq<Glob>>
    decreases s.len() - p,
{
    if p < 0 || p >= s.len() {
        Ok((acc, p))
    } else {
        match p_glob(s, p + 1, s[p], inc) {
            Err(e) => Err(e),
            Ok((g, q)) => if p < q <= s.len() {
                p_globs_from(s, q, inc, acc.push(g))
            } else {
                Err(ErrorKind::Eof)
            },
        }
    }
}

/// GLOBLOB: an increment flag, then globals until the input ends.
pub open spec fn p_globs(s: Seq<u8>, p: int) -> PRes<Seq<Glob>> {
    match p_u8(s, p) {
        Err(e) => Err(e),
        Ok((inc, p1)) => p_globs_from(s, p1, inc, seq![]),
    }
}

/// Tiles until the input ends, appended to `acc`.
pub open spec fn p_tiles_from(s: Seq<u8>, p: int, acc: Seq<TileV>) -> PRes<Seq<TileV>>
    decreases s.len() - p,
{
    if p < 0 || p >= s.len() {
        Ok((acc, p))
    } else {
        match p_strz(s, p + 1) {
            Err(e) => Err(e),
            Ok((name, p1)) => match p_u16(s, p1) {
                Err(e) => Err(e),
                Ok((ver, p2)) => if p < p2 <= s.len() {
                    p_tiles_from(s, p2, acc.push(TileV { id: s[p], name, ver }))
                } else {
                    Err(ErrorKind::Eof)
                },
            },
        }
    }
}

/// The element of type `kind` whose bytes are `b`.
#[verifier::opaque]
pub open spec fn p_rel(kind: u8, b: Seq<u8>) -> Result<RelV, ErrorKind> {
    if kind == NEWWDG_ID {
        match p_newwdg(b, 0) {
            Err(e) => Err(e),
            Ok((v, _)) => Ok(RelV::NewWdg(v)),
        }
    } else if kind == WDGMSG_ID {
        match p_wdgmsg(b, 0) {
            Err(e) => Err(e),
            Ok((v, _)) => Ok(RelV::WdgMsg(v)),
        }
    } else if kind == DSTWDG_ID {
        match p_u16(b, 0) {
            Err(e) => Err(e),
            Ok((v, _)) => Ok(RelV::DstWdg(v)),
        }
    } else if kind == MAPIV_ID {
        Ok(RelV::MapIv)
    } else if kind == GLOBLOB_ID {
        match p_globs(b, 0) {
            Err(e) => Err(e),
            Ok((v, _)) => Ok(RelV::Globlob(v)),
        }
    } else if kind == PAGINAE_ID {
        Ok(RelV::Paginae)
    } else if kind == RESID_ID {
        match p_resid(b, 0) {
            Err(e) => Err(e),
            Ok((v, _)) => Ok(RelV::ResId(v)),
        }
    } else if kind == PARTY_ID {
        Ok(RelV::Party)
    } else if kind == SFX_ID {
        Ok(RelV::Sfx)
    } else if kind == CATTR_ID {
        Ok(RelV::Cattr)
    } else if kind == MUSIC_ID {
        Ok(RelV::Music)
    } else if kind == TILES_ID {
        match p_tiles_from(b, 0, seq![]) {
            Err(e) => Err(e),
            Ok((v, _)) => Ok(RelV::Tiles(v)),
        }
    } else if kind == BUFF_ID {
        Ok(RelV::Buff)
    } else if kind == SESSKEY_ID {
        Ok(RelV::SessKey)
    } else {
        Err(ErrorKind::UnknownRel)
    }
}

/// Elements from position `p`, appended to `acc`: an element whose type
/// byte has the top bit set has a 16-bit length before its bytes; the
/// first one without it takes every byte that is left and is the last.
pub open spec fn p_rel_items(s: Seq<u8>, p: int, acc: Seq<RelV>) -> PRes<Seq<RelV>>
    decreases s.len() - p,
{
    match p_u8(s, p) {
        Err(e) => Err(e),
        Ok((t, p1)) => if t & MORE_RELS_ATTACHED_BIT != 0 {
            match p_u16(s, p1) {
                Err(e) => Err(e),
                Ok((n, p2)) => match p_bytes(s, p2, n as int) {
                    Err(e) => Err(e),
                    Ok((b, p3)) => match p_rel(t & !MORE_RELS_ATTACHED_BIT, b) {
                        Err(e) => Err(e),
                        Ok(x) => if p < p3 <= s.len() {
                            p_rel_items(s, p3, acc.push(x))
                        } else {
                            Err(ErrorKind::Eof)
                        },
                    },
                },
            }
        } else {
            match p_rel(t, s.subrange(p1, s.len() as int)) {
                Err(e) => Err(e),
                Ok(x) => Ok((acc.push(x), s.len() as int)),
            }
        },
    }
}

/// The body of a REL message: the sequence number and the elements.
pub open spec fn p_rels(s: Seq<u8>, p: int) -> PRes<RelsV> {
    match p_u16(s, p) {
        Err(e) => Err(e),
        Ok((seq, p1)) => match p_rel_items(s, p1, seq![]) {
            Err(e) => Err(e),
            Ok((rels, p2)) => Ok((RelsV { seq, rels }, p2)),
        },
    }
}

/// Elements under the open framing: as `p_rel_items`, except that
/// the input may end after any element, even before the first one.
pub open spec fn p_rel_items_open(s: Seq<u8>, p: int, acc: Seq<RelV>) -> PRes<Seq<RelV>>
    decreases s.len() - p,
{
    if p < 0 || p >= s.len() {
        Ok((acc, p))
    } else {
        match p_u8(s, p) {
            Err(e) => Err(e),
            Ok((t, p1)) => if t & MORE_RELS_ATTACHED_BIT != 0 {
                match p_u16(s, p1) {
                    Err(e) => Err(e),
                    Ok((n, p2)) => match p_bytes(s, p2, n as int) {
                        Err(e) => Err(e),
                        Ok((b, p3)) => match p_rel(t & !MORE_RELS_ATTACHED_BIT, b) {
                            Err(e) => Err(e),
                            Ok(x) => if p < p3 <= s.len() {
                                p_rel_items_open(s, p3, acc.push(x))
                            } else {
                                Err(ErrorKind::Eof)
                            },
                        },
                    },
                }
            } else {
                match p_rel(t, s.subrange(p1, s.len() as int)) {
                    Err(e) => Err(e),
                    Ok(x) => Ok((acc.push(x), s.len() as int)),
                }
            },
        }
    }
}

/// The body of a REL message under the open framing.
pub open spec fn p_rels_open(s: Seq<u8>, p: int) -> PRes<RelsV> {
    match p_u16(s, p) {
        Err(e) => Err(e),
        Ok((seq, p1)) => match p_rel_items_open(s, p1, seq![]) {
            Err(e) => Err(e),
            Ok((rels, p2)) => Ok((RelsV { seq, rels }, p2)),
        },
    }
}

// ---------------------------------------------------------------------------
// Decoders

impl NewWdg {
    pub fn from_buf(r: &mut Reader) -> (res: Result<NewWdg, Error>)
        ensures
            final(r).data() == old(r).data(),
            old(r).pos() <= final(r).pos() <= final(r).data().len(),
            loose_outcome(res, final(r).pos(), p_newwdg(old(r).data(), old(r).pos())),
    {
        let id = r.u16()?;
        let name = r.strz()?;
        let parent = r.u16()?;
        let pargs = List::from_buf(r)?;
        let cargs = List::from_buf(r)?;
        Ok(NewWdg { id, name, parent, pargs, cargs })
    }
}

impl WdgMsg {
    pub fn from_buf(r: &mut Reader) -> (res: Result<WdgMsg, Error>)
        ensures
            final(r).data() == old(r).data(),
            old(r).pos() <= final(r).pos() <= final(r).data().len(),
            loose_outcome(res, final(r).pos(), p_wdgmsg(old(r).data(), old(r).pos())),
    {
        let id = r.u16()?;
        let name = r.strz()?;
        let args = List::from_buf(r)?;
        Ok(WdgMsg { id, name, args })
    }
}

impl ResId {
    pub fn from_buf(r: &mut Reader) -> (res: Result<ResId, Error>)
        ensures
            final(r).data() == old(r).data(),
            old(r).pos() <= final(r).pos() <= final(r).data().len(),
            loose_outcome(res, final(r).pos(), p_resid(old(r).data(), old(r).pos())),
    {
        let id = r.u16()?;
        let name = r.strz()?;
        let ver = r.u16()?;
        Ok(ResId { id, name, ver })
    }
}

fn sky(r: &mut Reader) -> (res: Result<Option<(u16, Option<(u16, i32)>)>, Error>)
    ensures
        final(r).data() == old(r).data(),
        old(r).pos() <= final(r).pos() <= final(r).data().len(),
        match p_sky(old(r).data(), old(r).pos()) {
            Ok((v, p)) => res == Ok::<Option<(u16, Option<(u16, i32)>)>, Error>(v) && final(r).pos() == p,
            Err(k) => res matches Err(e) && e.kind == k,
        },
{
    let id1 = r.u16()?;
    if id1 == 0xffff {
        return Ok(None);
    }
    let id2 = r.u16()?;
    if id2 == 0xffff {
        return Ok(Some((id1, None)));
    }
    let b = r.i32()?;
    Ok(Some((id1, Some((id2, b)))))
}

fn glob(r: &mut Reader, t: u8, inc: u8) -> (res: Result<Glob, Error>)
    ensures
        final(r).data() == old(r).data(),
        old(r).pos() <= final(r).pos() <= final(r).data().len(),
        loose_outcome(res, final(r).pos(), p_glob(old(r).data(), old(r).pos(), t, inc)),
{
    let _ = r.position_in_bounds();
    if t == GMSG_TIME {
        let time = r.i32()?;
        let season = r.u8()?;
        Ok(Glob::Time { time, season, inc })
    } else if t == GMSG_LIGHT {
        let amb = r.color()?;
        let dif = r.color()?;
        let spc = r.color()?;
        let ang = r.i32()?;
        let ele = r.i32()?;
        Ok(Glob::Light { amb, dif, spc, ang, ele, inc })
    } else if t == GMSG_SKY {
        Ok(Glob::Sky(sky(r)?))
    } else {
        Err(Error::of(ErrorKind::UnknownGlob))
    }
}

impl Globs {
    pub fn from_buf(r: &mut Reader) -> (res: Result<Globs, Error>)
        ensures
            final(r).data() == old(r).data(),
            old(r).pos() <= final(r).pos() <= final(r).data().len(),
            match p_globs(old(r).data(), old(r).pos()) {
                Ok((v, p)) => res matches Ok(x) && x.globs@ == v && final(r).pos() == p,
                Err(k) => res matches Err(e) && e.kind == k,
            },
    {
        let ghost s = r.data();
        let inc = r.u8()?;
        let ghost start = r.pos();
        let mut globs: Vec<Glob> = Vec::new();
        loop
            invariant
                r.data() == s,
                s == old(r).data(),
                start <= r.pos() <= s.len(),
                old(r).pos() < start,
                p_globs_from(s, r.pos(), inc, globs@) == p_globs(s, old(r).pos()),
            decreases s.len() - r.pos(),
        {
            let t = match r.u8() {
                Ok(b) => b,
                Err(_) => {
                    return Ok(Globs { globs });
                },
            };
            let g = glob(r, t, inc)?;
            globs.push(g);
        }
    }
}

impl Tiles {
    pub fn from_buf(r: &mut Reader) -> (res: Result<Tiles, Error>)
        ensures
            final(r).data() == old(r).data(),
            old(r).pos() <= final(r).pos() <= final(r).data().len(),
            match p_tiles_from(old(r).data(), old(r).pos(), seq![]) {
                Ok((v, p)) => res matches Ok(x) && tiles_view(x.tiles@) == v && final(r).pos() == p,
                Err(k) => res matches Err(e) && e.kind == k,
            },
    {
        let ghost s = r.data();
        let _ = r.position_in_bounds();
        let mut tiles: Vec<Tile> = Vec::new();
        assert(tiles_view(tiles@) =~= seq![]);
        loop
            invariant
                r.data() == s,
                s == old(r).data(),
                old(r).pos() <= r.pos() <= s.len(),
                p_tiles_from(s, r.pos(), tiles_view(tiles@)) == p_tiles_from(s, old(r).pos(), seq![]),
            decreases s.len() - r.pos(),
        {
            let id = match r.u8() {
                Ok(b) => b,
                Err(_) => {
                    return Ok(Tiles { tiles });
                },
            };
            let name = r.strz()?;
            let ver = r.u16()?;
            let ghost before = tiles@;
            let t = Tile { id, name, ver };
            let ghost tv = t@;
            tiles.push(t);
            assert(tiles_view(tiles@) =~= tiles_view(before).push(tv));
        }
    }
}

impl Rel {
    /// Decodes the element of type `kind` whose bytes are `buf`.
    pub fn from_buf(kind: u8, buf: &[u8]) -> (res: Result<Rel, Error>)
        ensures
            match p_rel(kind, buf@) {
                Ok(v) => res matches Ok(x) && x@ == v,
                Err(k) => res matches Err(e) && e.kind == k,
            },
    {
        reveal(p_rel);
        let mut r = Reader::new(buf);
        if kind == NEWWDG_ID {
            Ok(Rel::NEWWDG(NewWdg::from_buf(&mut r)?))
        } else if kind == WDGMSG_ID {
            Ok(Rel::WDGMSG(WdgMsg::from_buf(&mut r)?))
        } else if kind == DSTWDG_ID {
            Ok(Rel::DSTWDG(DstWdg { id: r.u16()? }))
        } else if kind == MAPIV_ID {
            Ok(Rel::MAPIV(MapIv))
        } else if kind == GLOBLOB_ID {
            Ok(Rel::GLOBLOB(Globs::from_buf(&mut r)?))
        } else if kind == PAGINAE_ID {
            Ok(Rel::PAGINAE(Paginae))
        } else if kind == RESID_ID {
            Ok(Rel::RESID(ResId::from_buf(&mut r)?))
        } else if kind == PARTY_ID {
            Ok(Rel::PARTY(Party))
        } else if kind == SFX_ID {
            Ok(Rel::SFX(Sfx))
        } else if kind == CATTR_ID {
            Ok(Rel::CATTR(Cattr))
        } else if kind == MUSIC_ID {
            Ok(Rel::MUSIC(Music))
        } else if kind == TILES_ID {
            Ok(Rel::TILES(Tiles::from_buf(&mut r)?))
        } else if kind == BUFF_ID {
            Ok(Rel::BUFF(Buff))
        } else if kind == SESSKEY_ID {
            Ok(Rel::SESSKEY(SessKey))
        } else {
            Err(Error::of(ErrorKind::UnknownRel))
        }
    }
}

impl Rels {
    pub fn new(seq: u16) -> (r: Rels)
        ensures
            r@.seq == seq,
            r@.rels == Seq::<RelV>::empty(),
    {
        let r = Rels { seq, rels: Vec::new() };
        assert(rels_view(r.rels@) =~= Seq::<RelV>::empty());
        r
    }

    pub fn append(&mut self, rel: Rel)
        ensures
            final(self)@.seq == old(self)@.seq,
            final(self)@.rels == old(self)@.rels.push(rel@),
    {
        let ghost rv = rel@;
        self.rels.push(rel);
        assert(rels_view(self.rels@) =~= rels_view(old(self).rels@).push(rv));
    }

    /// Decodes the body of a REL message.
    pub fn from_buf(r: &mut Reader) -> (res: Result<Rels, Error>)
        ensures
            final(r).data() == old(r).data(),
            old(r).pos() <= final(r).pos() <= final(r).data().len(),
            read_outcome(res, old(r).pos(), final(r).pos(), p_rels(old(r).data(), old(r).pos())),
    {
        let start = r.position_in_bounds();
        match Self::from_buf_inner(r) {
            Ok(v) => Ok(v),
            Err(e) => {
                r.seek(start);
                Err(e)
            },
        }
    }

    fn from_buf_inner(r: &mut Reader) -> (res: Result<Rels, Error>)
        ensures
            final(r).data() == old(r).data(),
            old(r).pos() <= final(r).pos() <= final(r).data().len(),
            loose_outcome(res, final(r).pos(), p_rels(old(r).data(), old(r).pos())),
    {
        let ghost s = r.data();
        let seq = r.u16()?;
        let ghost p1 = r.pos();
        let mut rels: Vec<Rel> = Vec::new();
        assert(rels_view(rels@) =~= seq![]);
        loop
            invariant
                r.data() == s,
                s == old(r).data(),
                old(r).pos() < p1 <= r.pos() <= s.len(),
                p_u16(s, old(r).pos()) == Ok::<(u16, int), ErrorKind>((seq, p1)),
                p_rel_items(s, r.pos(), rels_view(rels@)) == p_rel_items(s, p1, seq![]),
            decreases s.len() - r.pos(),
        {
            let t = r.u8()?;
            let ghost before = rels@;
            if t & MORE_RELS_ATTACHED_BIT != 0 {
                let n = r.u16()?;
                let b = r.read_exact(n as usize)?;
                let x = Rel::from_buf(t & !MORE_RELS_ATTACHED_BIT, b.as_slice())?;
                let ghost xv = x@;
                rels.push(x);
                assert(rels_view(rels@) =~= rels_view(before).push(xv));
            } else {
                let b = r.read_to_end();
                let x = Rel::from_buf(t, b.as_slice())?;
                let ghost xv = x@;
                rels.push(x);
                assert(rels_view(rels@) =~= rels_view(before).push(xv));
                return Ok(Rels { seq, rels });
            }
        }
    }

    /// Decodes the body of a REL message under the open framing: the
    /// message may end after any element, even before the first one.
    pub fn from_buf_open(r: &mut Reader) -> (res: Result<Rels, Error>)
        ensures
            final(r).data() == old(r).data(),
            old(r).pos() <= final(r).pos() <= final(r).data().len(),
            read_outcome(res, old(r).pos(), final(r).pos(), p_rels_open(old(r).data(), old(r).pos())),
    {
        let start = r.position_in_bounds();
        match Self::from_buf_open_inner(r) {
            Ok(v) => Ok(v),
            Err(e) => {
                r.seek(start);
                Err(e)
            },
        }
    }

    fn from_buf_open_inner(r: &mut Reader) -> (res: Result<Rels, Error>)
        ensures
            final(r).data() == old(r).data(),
            old(r).pos() <= final(r).pos() <= final(r).data().len(),
            loose_outcome(res, final(r).pos(), p_rels_open(old(r).data(), old(r).pos())),
    {
        let ghost s = r.data();
        let seq = r.u16()?;
        let ghost p1 = r.pos();
        let mut rels: Vec<Rel> = Vec::new();
        assert(rels_view(rels@) =~= seq![]);
        loop
            invariant
                r.data() == s,
                s == old(r).data(),
                old(r).pos() < p1 <= r.pos() <= s.len(),
                p_u16(s, old(r).pos()) == Ok::<(u16, int), ErrorKind>((seq, p1)),
                p_rel_items_open(s, r.pos(), rels_view(rels@)) == p_rel_items_open(s, p1, seq![]),
            decreases s.len() - r.pos(),
        {
            if r.is_empty() {
                return Ok(Rels { seq, rels });
            }
            let t = r.u8()?;
            let ghost before = rels@;
            if t & MORE_RELS_ATTACHED_BIT != 0 {
                let n = r.u16()?;
                let b = r.read_exact(n as usize)?;
                let x = Rel::from_buf(t & !MORE_RELS_ATTACHED_BIT, b.as_slice())?;
                let ghost xv = x@;
                rels.push(x);
                assert(rels_view(rels@) =~= rels_view(before).push(xv));
            } else {
                let b = r.read_to_end();
                let x = Rel::from_buf(t, b.as_slice())?;
                let ghost xv = x@;
                rels.push(x);
                assert(rels_view(rels@) =~= rels_view(before).push(xv));
                return Ok(Rels { seq, rels });
            }
        }
    }
}

// ---------------------------------------------------------------------------
// Encoding

/// The body of a WDGMSG element: widget id, message name and arguments.
pub open spec fn wdgmsg_body(m: WdgMsgV) -> Seq<u8> {
    bytes16(m.id as int) + strz_bytes(m.name) + list_bytes(m.args)
}

/// The bytes of a WDGMSG element: its type byte, then, unless it is the
/// last element of the message, the body's length, then the body.
pub open spec fn wdgmsg_elem_bytes(m: WdgMsgV, last: bool) -> Seq<u8> {
    if last {
        seq![WDGMSG_ID] + wdgmsg_body(m)
    } else {
        seq![WDGMSG_ID | MORE_RELS_ATTACHED_BIT] + bytes16(wdgmsg_body(m).len() as int)
            + wdgmsg_body(m)
    }
}

/// Elements that have an encoding: WDGMSG elements whose arguments can be
/// encoded and whose body fits the length field unless it is the last.
pub open spec fn rel_encodable(r: RelV, last: bool) -> bool {
    &&& r is WdgMsg
    &&& all_encodable(r->WdgMsg_0.args)
    &&& (last || wdgmsg_body(r->WdgMsg_0).len() <= 0xffff)
}

/// Why an element has no encoding: an element that is no WDGMSG, or has an
/// argument without encoding, is not implemented; otherwise its body is too
/// long for the length field.
pub open spec fn rel_error(r: RelV) -> ErrorKind {
    if r is WdgMsg && all_encodable(r->WdgMsg_0.args) {
        ErrorKind::BadLength
    } else {
        ErrorKind::NotImplemented
    }
}

impl Rel {
    /// The encoding of this element; only WDGMSG elements are encoded.
    pub fn to_buf(&self, last: bool) -> (res: Result<Vec<u8>, Error>)
        ensures
            res is Ok <==> rel_encodable(self@, last),
            res matches Ok(b) ==> b@ == wdgmsg_elem_bytes(self@->WdgMsg_0, last),
            res matches Err(e) ==> e.kind == rel_error(self@),
    {
        match self {
            Rel::WDGMSG(msg) => {
                let mut tmp: Vec<u8> = Vec::new();
                put_u16(&mut tmp, msg.id);
                put_strz(&mut tmp, msg.name.as_str());
                list_to_buf(msg.args.as_slice(), &mut tmp)?;
                assert(tmp@ =~= wdgmsg_body(msg@));
                let mut w: Vec<u8> = Vec::new();
                if last {
                    put_u8(&mut w, WDGMSG_ID);
                } else {
                    put_u8(&mut w, WDGMSG_ID | MORE_RELS_ATTACHED_BIT);
                    if tmp.len() > 0xffff {
                        return Err(Error::of(ErrorKind::BadLength));
                    }
                    put_u16(&mut w, tmp.len() as u16);
                }
                put_bytes(&mut w, tmp.as_slice());
                assert(w@ =~= wdgmsg_elem_bytes(msg@, last));
                Ok(w)
            },
            _ => Err(Error::of(ErrorKind::NotImplemented)),
        }
    }
}

} // verus!
