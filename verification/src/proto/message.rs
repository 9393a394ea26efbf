//! The messages of each direction: a type byte and its body.
use vstd::prelude::*;
use crate::codec::{
    PRes, Reader, p_u8, put_u8, put_u16, put_bytes, bytes16, bytes32, unsigned_of, strz_bytes, lemma_split,
    lemma_le16_bytes16, lemma_le32_bytes32, lemma_strz_roundtrip, lemma_concat,
};
use vstd::utf8::encode_utf8;
use crate::list::{all_encodable, all_nul_free, list_bytes, lemma_list_at};
use crate::proto::message_sess::{proto_name, lemma_proto_name_bytes};
use crate::proto::message_rel::{WdgMsgV, WDGMSG_ID, MORE_RELS_ATTACHED_BIT, wdgmsg_body, p_wdgmsg, p_rel, p_rel_items, rel_error};
use crate::error::{Error, ErrorKind};
use crate::proto::message_sess::{cSess, sSess, CSessV, SESS_ID, p_csess, p_ssess, csess_bytes};
use crate::proto::message_rel::{
    Rels, RelsV, RelV, REL_ID, p_rels, rel_encodable, wdgmsg_elem_bytes, rels_view,
};
use crate::proto::message_ack::{Ack, ACK_ID, p_ack, ack_bytes};
use crate::proto::message_beat::{Beat, BEAT_ID};
use crate::proto::message_mapreq::{MapReq, MAPREQ_ID, p_mapreq, mapreq_bytes};
use crate::proto::message_mapdata::{MapData, MapDataV, MAPDATA_ID, p_mapdata};
use crate::proto::message_objdata::{ObjData, ObjDataElemV, OBJDATA_ID, p_objdata};
use crate::proto::message_objack::{ObjAck, ObjAckElem, OBJACK_ID, objack_bytes};
use crate::proto::message_close::{Close, CLOSE_ID};

verus! {

/// The messages that the client sends.
#[derive(Debug)]
pub enum ClientMessage {
    SESS(cSess),
    REL(Rels),
    ACK(Ack),
    BEAT(Beat),
    MAPREQ(MapReq),
    OBJACK(ObjAck),
    CLOSE(Close),
}

pub enum ClientMessageV {
    Sess(CSessV),
    Rel(RelsV),
    Ack(Ack),
    Beat,
    MapReq(MapReq),
    ObjAck(Seq<ObjAckElem>),
    Close,
}

impl View for ClientMessage {
    type V = ClientMessageV;

    open spec fn view(&self) -> ClientMessageV {
        match self {
            ClientMessage::SESS(s) => ClientMessageV::Sess(s@),
            ClientMessage::REL(r) => ClientMessageV::Rel(r@),
            ClientMessage::ACK(a) => ClientMessageV::Ack(*a),
            ClientMessage::BEAT(_) => ClientMessageV::Beat,
            ClientMessage::MAPREQ(m) => ClientMessageV::MapReq(*m),
            ClientMessage::OBJACK(o) => ClientMessageV::ObjAck(o@),
            ClientMessage::CLOSE(_) => ClientMessageV::Close,
        }
    }
}

/// The messages that the server sends.
#[derive(Debug)]
pub enum ServerMessage {
    SESS(sSess),
    REL(Rels),
    ACK(Ack),
    MAPDATA(MapData),
    OBJDATA(ObjData),
    CLOSE(Close),
}

pub enum ServerMessageV {
    Sess(sSess),
    Rel(RelsV),
    Ack(Ack),
    MapData(MapDataV),
    ObjData(Seq<ObjDataElemV>),
    Close,
}

impl View for ServerMessage {
    type V = ServerMessageV;

    open spec fn view(&self) -> ServerMessageV {
        match self {
            ServerMessage::SESS(s) => ServerMessageV::Sess(*s),
            ServerMessage::REL(r) => ServerMessageV::Rel(r@),
            ServerMessage::ACK(a) => ServerMessageV::Ack(*a),
            ServerMessage::MAPDATA(m) => ServerMessageV::MapData(m@),
            ServerMessage::OBJDATA(o) => ServerMessageV::ObjData(o@),
            ServerMessage::CLOSE(_) => ServerMessageV::Close,
        }
    }
}

// ---------------------------------------------------------------------------
// Decoding

/// A client message at `p`: its type byte and body. The body of OBJACK is
/// not interpreted.
pub open spec fn p_client_body(s: Seq<u8>, p: int) -> PRes<ClientMessageV> {
    match p_u8(s, p) {
        Err(e) => Err(e),
        Ok((t, p1)) => if t == SESS_ID {
            match p_csess(s, p1) {
                Err(e) => Err(e),
                Ok((v, q)) => Ok((ClientMessageV::Sess(v), q)),
            }
        } else if t == REL_ID {
            match p_rels(s, p1) {
                Err(e) => Err(e),
                Ok((v, q)) => Ok((ClientMessageV::Rel(v), q)),
            }
        } else if t == ACK_ID {
            match p_ack(s, p1) {
                Err(e) => Err(e),
                Ok((v, q)) => Ok((ClientMessageV::Ack(v), q)),
            }
        } else if t == BEAT_ID {
            Ok((ClientMessageV::Beat, p1))
        } else if t == MAPREQ_ID {
            match p_mapreq(s, p1) {
                Err(e) => Err(e),
                Ok((v, q)) => Ok((ClientMessageV::MapReq(v), q)),
            }
        } else if t == OBJACK_ID {
            Ok((ClientMessageV::ObjAck(seq![]), p1))
        } else if t == CLOSE_ID {
            Ok((ClientMessageV::Close, p1))
        } else {
            Err(ErrorKind::UnknownMessage)
        },
    }
}

/// A server message at `p`: its type byte and body.
pub open spec fn p_server_body(s: Seq<u8>, p: int) -> PRes<ServerMessageV> {
    match p_u8(s, p) {
        Err(e) => Err(e),
        Ok((t, p1)) => if t == SESS_ID {
            match p_ssess(s, p1) {
                Err(e) => Err(e),
                Ok((v, q)) => Ok((ServerMessageV::Sess(v), q)),
            }
        } else if t == REL_ID {
            match p_rels(s, p1) {
                Err(e) => Err(e),
                Ok((v, q)) => Ok((ServerMessageV::Rel(v), q)),
            }
        } else if t == ACK_ID {
            match p_ack(s, p1) {
                Err(e) => Err(e),
                Ok((v, q)) => Ok((ServerMessageV::Ack(v), q)),
            }
        } else if t == MAPDATA_ID {
            match p_mapdata(s, p1) {
                Err(e) => Err(e),
                Ok((v, q)) => Ok((ServerMessageV::MapData(v), q)),
            }
        } else if t == OBJDATA_ID {
            match p_objdata(s, p1) {
                Err(e) => Err(e),
                Ok((v, q)) => Ok((ServerMessageV::ObjData(v), q)),
            }
        } else if t == CLOSE_ID {
            Ok((ServerMessageV::Close, p1))
        } else {
            Err(ErrorKind::UnknownMessage)
        },
    }
}

/// A decoded message and the bytes that follow it.
pub open spec fn with_remains<T>(s: Seq<u8>, r: PRes<T>) -> Result<(T, Seq<u8>), ErrorKind> {
    match r {
        Err(e) => Err(e),
        Ok((v, q)) => Ok((v, s.subrange(q, s.len() as int))),
    }
}

/// `remains` is what the decoders return for the bytes `rest` that follow
/// a message: nothing when there are none.
pub open spec fn remains_match(remains: Option<Vec<u8>>, rest: Seq<u8>) -> bool {
    if rest.len() == 0 {
        remains is None
    } else {
        remains matches Some(v) && v@ == rest
    }
}

fn remains(r: &mut Reader) -> (o: Option<Vec<u8>>)
    ensures
        final(r).data() == old(r).data(),
        final(r).pos() == old(r).data().len(),
        remains_match(o, old(r).data().subrange(old(r).pos(), old(r).data().len() as int)),
{
    let tmp = r.read_to_end();
    if tmp.len() == 0 {
        None
    } else {
        Some(tmp)
    }
}

impl ClientMessage {
    /// Decodes a client message from the cursor, and returns it with the
    /// bytes that follow it, if any.
    pub fn from_buf(r: &mut Reader) -> (res: Result<(ClientMessage, Option<Vec<u8>>), Error>)
        ensures
            final(r).data() == old(r).data(),
            match with_remains(old(r).data(), p_client_body(old(r).data(), old(r).pos())) {
                Ok((m, rest)) => res matches Ok((x, o)) && x@ == m && remains_match(o, rest),
                Err(k) => res matches Err(e) && e.kind == k,
            },
    {
        let t = r.u8()?;
        let msg = if t == SESS_ID {
            ClientMessage::SESS(cSess::from_buf(r)?)
        } else if t == REL_ID {
            ClientMessage::REL(Rels::from_buf(r)?)
        } else if t == ACK_ID {
            ClientMessage::ACK(Ack::from_buf(r)?)
        } else if t == BEAT_ID {
            ClientMessage::BEAT(Beat)
        } else if t == MAPREQ_ID {
            ClientMessage::MAPREQ(MapReq::from_buf(r)?)
        } else if t == OBJACK_ID {
            ClientMessage::OBJACK(ObjAck::from_buf(r)?)
        } else if t == CLOSE_ID {
            ClientMessage::CLOSE(Close)
        } else {
            return Err(Error::of(ErrorKind::UnknownMessage));
        };
        let rem = remains(r);
        Ok((msg, rem))
    }

    pub fn is_rel(&self) -> (b: bool)
        ensures
            b == (self is REL),
    {
        match self {
            ClientMessage::REL(_) => true,
            _ => false,
        }
    }
}

impl ServerMessage {
    /// Decodes a server message from the cursor, and returns it with the
    /// bytes that follow it, if any.
    pub fn from_buf(r: &mut Reader) -> (res: Result<(ServerMessage, Option<Vec<u8>>), Error>)
        ensures
            final(r).data() == old(r).data(),
            match with_remains(old(r).data(), p_server_body(old(r).data(), old(r).pos())) {
                Ok((m, rest)) => res matches Ok((x, o)) && x@ == m && remains_match(o, rest),
                Err(k) => res matches Err(e) && e.kind == k,
            },
    {
        let t = r.u8()?;
        let msg = if t == SESS_ID {
            ServerMessage::SESS(sSess::from_buf(r)?)
        } else if t == REL_ID {
            ServerMessage::REL(Rels::from_buf(r)?)
        } else if t == ACK_ID {
            ServerMessage::ACK(Ack::from_buf(r)?)
        } else if t == MAPDATA_ID {
            ServerMessage::MAPDATA(MapData::from_buf(r)?)
        } else if t == OBJDATA_ID {
            ServerMessage::OBJDATA(ObjData::from_buf(r)?)
        } else if t == CLOSE_ID {
            ServerMessage::CLOSE(Close)
        } else {
            return Err(Error::of(ErrorKind::UnknownMessage));
        };
        let rem = remains(r);
        Ok((msg, rem))
    }

    pub fn is_rel(&self) -> (b: bool)
        ensures
            b == (self is REL),
    {
        match self {
            ServerMessage::REL(_) => true,
            _ => false,
        }
    }
}

// ---------------------------------------------------------------------------
// Encoding

/// The bytes of the first `k` elements of a REL message of the elements
/// `rs`; the last element of the message has no length field.
pub open spec fn rel_items_bytes(rs: Seq<RelV>, k: int) -> Seq<u8>
    decreases k,
{
    if k <= 0 {
        seq![]
    } else {
        rel_items_bytes(rs, k - 1) + wdgmsg_elem_bytes(rs[k - 1]->WdgMsg_0, k - 1 == rs.len() - 1)
    }
}

pub open spec fn rels_encodable(rs: Seq<RelV>) -> bool {
    forall|i: int| 0 <= i < rs.len() ==> rel_encodable(#[trigger] rs[i], i == rs.len() - 1)
}

/// The bytes of a REL message, type byte included.
pub open spec fn rels_bytes(r: RelsV) -> Seq<u8> {
    seq![REL_ID] + bytes16(r.seq as int) + rel_items_bytes(r.rels, r.rels.len() as int)
}

/// Client messages that have an encoding: all but REL messages with an
/// element that is not an encodable WDGMSG.
pub open spec fn client_encodable(m: ClientMessageV) -> bool {
    m matches ClientMessageV::Rel(r) ==> rels_encodable(r.rels)
}

/// The error of the first element of `rs`, from index `i` on, that has no
/// encoding.
pub open spec fn first_rel_error(rs: Seq<RelV>, i: int) -> ErrorKind
    decreases rs.len() - i,
{
    if i < 0 || i >= rs.len() {
        ErrorKind::NotImplemented
    } else if !rel_encodable(rs[i], i == rs.len() - 1) {
        rel_error(rs[i])
    } else {
        first_rel_error(rs, i + 1)
    }
}

/// Why a client message has no encoding: the error of its first element
/// without one.
pub open spec fn client_error(m: ClientMessageV) -> ErrorKind {
    match m {
        ClientMessageV::Rel(r) => first_rel_error(r.rels, 0),
        _ => ErrorKind::NotImplemented,
    }
}

proof fn lemma_first_rel_error(rs: Seq<RelV>, i: int)
    requires
        0 <= i <= rs.len(),
        forall|j: int| 0 <= j < i ==> rel_encodable(#[trigger] rs[j], j == rs.len() - 1),
    ensures
        first_rel_error(rs, 0) == first_rel_error(rs, i),
    decreases i,
{
    if i > 0 {
        lemma_first_rel_error(rs, i - 1);
        assert(rel_encodable(rs[i - 1], i - 1 == rs.len() - 1));
    }
}

/// The bytes of a client message.
pub open spec fn client_bytes(m: ClientMessageV) -> Seq<u8> {
    match m {
        ClientMessageV::Sess(c) => csess_bytes(c),
        ClientMessageV::Rel(r) => rels_bytes(r),
        ClientMessageV::Ack(a) => ack_bytes(a),
        ClientMessageV::Beat => seq![BEAT_ID],
        ClientMessageV::MapReq(m) => mapreq_bytes(m),
        ClientMessageV::ObjAck(v) => objack_bytes(v),
        ClientMessageV::Close => seq![CLOSE_ID],
    }
}

impl ClientMessage {
    /// Appends the encoding of this message to `w`. A REL message is
    /// refused at its first element that has no encoding.
    #[verifier::rlimit(40)]
    pub fn to_buf(&self, w: &mut Vec<u8>) -> (res: Result<(), Error>)
        ensures
            res is Ok <==> client_encodable(self@),
            res is Ok ==> final(w)@ == old(w)@ + client_bytes(self@),
            res matches Err(e) ==> e.kind == client_error(self@),
    {
        match self {
            ClientMessage::SESS(sess) => {
                sess.to_buf(w);
                Ok(())
            },
            ClientMessage::ACK(ack) => {
                ack.to_buf(w);
                Ok(())
            },
            ClientMessage::BEAT(_) => {
                put_u8(w, BEAT_ID);
                assert(final(w)@ =~= old(w)@ + seq![BEAT_ID]);
                Ok(())
            },
            ClientMessage::REL(rel) => {
                put_u8(w, REL_ID);
                put_u16(w, rel.seq);
                let n = rel.rels.len();
                let ghost rs = rel@.rels;
                let mut i: usize = 0;
                while i < n
                    invariant
                        self@ == ClientMessageV::Rel(rel@),
                        n == rel.rels@.len(),
                        rs == rels_view(rel.rels@),
                        rs.len() == n,
                        i <= n,
                        w@ == old(w)@ + seq![REL_ID] + bytes16(rel.seq as int) + rel_items_bytes(
                            rs,
                            i as int,
                        ),
                        forall|j: int| 0 <= j < i ==> rel_encodable(#[trigger] rs[j], j == n - 1),
                    decreases n - i,
                {
                    let b = match rel.rels[i].to_buf(i == n - 1) {
                        Ok(b) => b,
                        Err(e) => {
                            assert(!rels_encodable(rs)) by {
                                assert(rs[i as int] == rel.rels@[i as int]@);
                                assert(!rel_encodable(rs[i as int], i == n - 1));
                            }
                            assert(self@ == ClientMessageV::Rel(rel@));
                            assert(rel@.rels == rs);
                            assert(!client_encodable(self@));
                            proof {
                                lemma_first_rel_error(rs, i as int);
                            }
                            return Err(e);
                        },
                    };
                    let ghost before = w@;
                    put_bytes(w, b.as_slice());
                    proof {
                        assert(rs[i as int] == rel.rels@[i as int]@);
                        assert(rel_items_bytes(rs, i as int + 1) == rel_items_bytes(rs, i as int)
                            + wdgmsg_elem_bytes(rs[i as int]->WdgMsg_0, i == n - 1));
                        assert(w@ =~= old(w)@ + seq![REL_ID] + bytes16(rel.seq as int)
                            + rel_items_bytes(rs, i as int + 1));
                    }
                    i = i + 1;
                }
                assert(final(w)@ =~= old(w)@ + client_bytes(self@));
                Ok(())
            },
            ClientMessage::MAPREQ(mapreq) => {
                mapreq.to_buf(w);
                Ok(())
            },
            ClientMessage::OBJACK(objack) => {
                objack.to_buf(w);
                Ok(())
            },
            ClientMessage::CLOSE(_) => {
                put_u8(w, CLOSE_ID);
                assert(final(w)@ =~= old(w)@ + seq![CLOSE_ID]);
                Ok(())
            },
        }
    }
}

// ---------------------------------------------------------------------------
// Decoding what was encoded

/// WDGMSG elements whose name and arguments survive the encoding: no zero
/// byte in the strings' encodings, and no argument without encoding.
pub open spec fn wdgmsg_roundtrips(m: WdgMsgV) -> bool {
    &&& !encode_utf8(m.name).contains(0u8)
    &&& all_encodable(m.args)
    &&& all_nul_free(m.args)
}

/// REL messages that decode back to themselves: at least one element, and
/// only encodable WDGMSG elements whose strings survive the encoding.
pub open spec fn rels_roundtrip(rs: Seq<RelV>) -> bool {
    &&& rs.len() > 0
    &&& rels_encodable(rs)
    &&& forall|i: int| 0 <= i < rs.len() ==> wdgmsg_roundtrips(#[trigger] rs[i]->WdgMsg_0)
}

/// Client messages that decode back to themselves. A SESS message carries
/// its cookie length as 32 whatever the cookie, and OBJACK bodies are not
/// decoded.
pub open spec fn client_roundtrips(m: ClientMessageV) -> bool {
    match m {
        ClientMessageV::Sess(c) => c.cookie.len() == 32 && !encode_utf8(c.login).contains(0u8),
        ClientMessageV::Rel(r) => rels_roundtrip(r.rels),
        ClientMessageV::ObjAck(v) => v.len() == 0,
        _ => true,
    }
}

#[verifier::rlimit(40)]
#[verifier::spinoff_prover]
proof fn lemma_wdgmsg_roundtrip(s: Seq<u8>, p: int, m: WdgMsgV)
    requires
        wdgmsg_roundtrips(m),
        0 <= p,
        p + wdgmsg_body(m).len() <= s.len(),
        s.subrange(p, p + wdgmsg_body(m).len()) == wdgmsg_body(m),
    ensures
        p_wdgmsg(s, p) == Ok::<(WdgMsgV, int), ErrorKind>((m, p + wdgmsg_body(m).len())),
{
    let a = bytes16(m.id as int);
    let b = strz_bytes(m.name);
    let c = list_bytes(m.args);
    assert(wdgmsg_body(m) == (a + b) + c);
    lemma_split(s, p, a + b, c);
    lemma_split(s, p, a, b);
    lemma_le16_bytes16(m.id as int, s, p);
    lemma_strz_roundtrip(s, p + 2, m.name);
    lemma_list_at(s, p + 2 + b.len(), m.args);
}

#[verifier::rlimit(40)]
#[verifier::spinoff_prover]
proof fn lemma_rel_wdgmsg(body: Seq<u8>, m: WdgMsgV)
    requires
        wdgmsg_roundtrips(m),
        body == wdgmsg_body(m),
    ensures
        p_rel(WDGMSG_ID, body) == Ok::<RelV, ErrorKind>(RelV::WdgMsg(m)),
{
    reveal(p_rel);
    assert(body.subrange(0, body.len() as int) =~= body);
    lemma_wdgmsg_roundtrip(body, 0, m);
}

#[verifier::rlimit(40)]
#[verifier::spinoff_prover]
proof fn lemma_rel_items_prefix(rs: Seq<RelV>, j: int, k: int)
    requires
        0 <= j <= k,
    ensures
        rel_items_bytes(rs, j).len() <= rel_items_bytes(rs, k).len(),
        rel_items_bytes(rs, k).subrange(0, rel_items_bytes(rs, j).len() as int) == rel_items_bytes(rs, j),
    decreases k - j,
{
    if j < k {
        lemma_rel_items_prefix(rs, j, k - 1);
        let a = rel_items_bytes(rs, k - 1);
        let b = rel_items_bytes(rs, j);
        assert(rel_items_bytes(rs, k) == a + wdgmsg_elem_bytes(rs[k - 1]->WdgMsg_0, k - 1 == rs.len() - 1));
        assert(rel_items_bytes(rs, k).subrange(0, b.len() as int) =~= a.subrange(0, b.len() as int));
    } else {
        assert(rel_items_bytes(rs, k).subrange(0, rel_items_bytes(rs, k).len() as int) =~= rel_items_bytes(rs, k));
    }
}

#[verifier::rlimit(60)]
#[verifier::spinoff_prover]
proof fn lemma_rel_items_from(s: Seq<u8>, base: int, rs: Seq<RelV>, k: int)
    requires
        rels_roundtrip(rs),
        0 <= k < rs.len(),
        0 <= base,
        s.len() == base + rel_items_bytes(rs, rs.len() as int).len(),
        s.subrange(base, s.len() as int) == rel_items_bytes(rs, rs.len() as int),
    ensures
        p_rel_items(s, base + rel_items_bytes(rs, k).len(), rs.take(k)) == Ok::<(Seq<RelV>, int), ErrorKind>(
            (rs, s.len() as int),
        ),
    decreases rs.len() - k,
{
    let n = rs.len() as int;
    let ik = rel_items_bytes(rs, k);
    let ik1 = rel_items_bytes(rs, k + 1);
    let all = rel_items_bytes(rs, n);
    let last = k == n - 1;
    let m = rs[k]->WdgMsg_0;
    let e = wdgmsg_elem_bytes(m, last);
    let pk = base + ik.len();
    assert(ik1 == ik + e);
    lemma_rel_items_prefix(rs, k + 1, n);
    assert(rel_encodable(rs[k], last));
    assert(wdgmsg_roundtrips(m));
    assert(rs[k] == RelV::WdgMsg(m));
    assert(s.subrange(pk, pk + e.len()) =~= e) by {
        assert forall|i: int| 0 <= i < e.len() implies s.subrange(pk, pk + e.len())[i] == e[i] by {
            assert(s[pk + i] == s.subrange(base, s.len() as int)[ik.len() + i]);
            assert(all.subrange(0, ik1.len() as int)[ik.len() + i] == ik1[ik.len() + i]);
        }
    }
    let body = wdgmsg_body(m);
    assert(WDGMSG_ID == 1u8 && MORE_RELS_ATTACHED_BIT == 0x80u8);
    assert((0x81u8 & 0x80u8) != 0u8 && (0x81u8 & !0x80u8) == 1u8 && (1u8 & 0x80u8) == 0u8
        && (1u8 | 0x80u8) == 0x81u8) by (bit_vector);
    lemma_rel_wdgmsg(body, m);
    assert(rs.take(k).push(rs[k]) =~= rs.take(k + 1));
    if last {
        assert(e == seq![WDGMSG_ID] + body);
        assert(s[pk] == e[0]);
        assert(ik1 == all);
        assert(s.subrange(pk + 1, s.len() as int) =~= body) by {
            lemma_split(s, pk, seq![WDGMSG_ID], body);
        }
        assert(rs.take(k + 1) =~= rs);
    } else {
        let hdr = seq![0x81u8] + bytes16(body.len() as int);
        assert(e == hdr + body);
        lemma_split(s, pk, hdr, body);
        lemma_split(s, pk, seq![0x81u8], bytes16(body.len() as int));
        assert(s[pk] == e[0]);
        lemma_le16_bytes16(body.len() as int, s, pk + 1);
        lemma_rel_items_from(s, base, rs, k + 1);
    }
}

#[verifier::rlimit(40)]
#[verifier::spinoff_prover]
proof fn lemma_rels_roundtrip(r: RelsV)
    requires
        rels_roundtrip(r.rels),
    ensures
        p_client_body(rels_bytes(r), 0) == Ok::<(ClientMessageV, int), ErrorKind>(
            (ClientMessageV::Rel(r), rels_bytes(r).len() as int),
        ),
{
    let s = rels_bytes(r);
    let hd = seq![REL_ID] + bytes16(r.seq as int);
    let items = rel_items_bytes(r.rels, r.rels.len() as int);
    assert(s == hd + items);
    lemma_concat(hd, items);
    lemma_split(s, 0, hd, items);
    lemma_split(s, 0, seq![REL_ID], bytes16(r.seq as int));
    assert(s[0] == REL_ID);
    lemma_le16_bytes16(r.seq as int, s, 1);
    assert(s.subrange(3, s.len() as int) =~= items);
    assert(rel_items_bytes(r.rels, 0) =~= Seq::<u8>::empty());
    assert(r.rels.take(0) =~= Seq::<RelV>::empty());
    lemma_rel_items_from(s, 3, r.rels, 0);
}

#[verifier::rlimit(40)]
#[verifier::spinoff_prover]
proof fn lemma_csess_roundtrip(c: CSessV)
    requires
        c.cookie.len() == 32,
        !encode_utf8(c.login).contains(0u8),
    ensures
        p_client_body(csess_bytes(c), 0) == Ok::<(ClientMessageV, int), ErrorKind>(
            (ClientMessageV::Sess(c), csess_bytes(c).len() as int),
        ),
{
    let s = csess_bytes(c);
    let a = seq![SESS_ID];
    let b = bytes16(2);
    let pn = strz_bytes(proto_name());
    let v = bytes16(36);
    let l = strz_bytes(c.login);
    let n = bytes16(32);
    assert(s == a + b + pn + v + l + n + c.cookie);
    lemma_concat(a + b + pn + v + l + n, c.cookie);
    lemma_split(s, 0, a + b + pn + v + l + n, c.cookie);
    lemma_split(s, 0, a + b + pn + v + l, n);
    lemma_split(s, 0, a + b + pn + v, l);
    lemma_split(s, 0, a + b + pn, v);
    lemma_split(s, 0, a + b, pn);
    lemma_split(s, 0, a, b);
    lemma_proto_name_bytes();
    assert(!encode_utf8(proto_name()).contains(0u8)) by {
        if encode_utf8(proto_name()).contains(0u8) {
            let i = choose|i: int| 0 <= i < 5 && encode_utf8(proto_name())[i] == 0u8;
            assert(seq![83u8, 97u8, 108u8, 101u8, 109u8][i] != 0u8);
        }
    }
    assert(s[0] == SESS_ID);
    lemma_le16_bytes16(2, s, 1);
    lemma_strz_roundtrip(s, 3, proto_name());
    lemma_le16_bytes16(36, s, 3 + pn.len() as int);
    lemma_strz_roundtrip(s, 5 + pn.len() as int, c.login);
    lemma_le16_bytes16(32, s, 5 + pn.len() + l.len() as int);
}

#[verifier::rlimit(40)]
#[verifier::spinoff_prover]
proof fn lemma_ack_roundtrip(a: Ack)
    ensures
        p_client_body(ack_bytes(a), 0) == Ok::<(ClientMessageV, int), ErrorKind>(
            (ClientMessageV::Ack(a), ack_bytes(a).len() as int),
        ),
{
    let s = ack_bytes(a);
    lemma_concat(seq![ACK_ID], bytes16(a.seq as int));
    lemma_split(s, 0, seq![ACK_ID], bytes16(a.seq as int));
    assert(s[0] == ACK_ID);
    lemma_le16_bytes16(a.seq as int, s, 1);
}

#[verifier::rlimit(40)]
#[verifier::spinoff_prover]
proof fn lemma_mapreq_roundtrip(q: MapReq)
    ensures
        p_client_body(mapreq_bytes(q), 0) == Ok::<(ClientMessageV, int), ErrorKind>(
            (ClientMessageV::MapReq(q), mapreq_bytes(q).len() as int),
        ),
{
    let s = mapreq_bytes(q);
    let bx = bytes32(unsigned_of(q.x as int, 0x1_0000_0000));
    let by = bytes32(unsigned_of(q.y as int, 0x1_0000_0000));
    assert(s == seq![MAPREQ_ID] + bx + by);
    lemma_concat(seq![MAPREQ_ID] + bx, by);
    lemma_split(s, 0, seq![MAPREQ_ID] + bx, by);
    lemma_split(s, 0, seq![MAPREQ_ID], bx);
    assert(s[0] == MAPREQ_ID);
    lemma_le32_bytes32(unsigned_of(q.x as int, 0x1_0000_0000), s, 1);
    lemma_le32_bytes32(unsigned_of(q.y as int, 0x1_0000_0000), s, 5);
}

#[verifier::rlimit(40)]
#[verifier::spinoff_prover]
proof fn lemma_unit_roundtrip(m: ClientMessageV)
    requires
        m is Beat || m is Close || m == ClientMessageV::ObjAck(Seq::<ObjAckElem>::empty()),
    ensures
        p_client_body(client_bytes(m), 0) == Ok::<(ClientMessageV, int), ErrorKind>(
            (m, client_bytes(m).len() as int),
        ),
{
    if m is ObjAck {
        assert(objack_bytes(Seq::<ObjAckElem>::empty()) =~= seq![OBJACK_ID]);
    }
}

/// A client message that `to_buf` encodes, within `client_roundtrips`,
/// decodes back to itself with nothing left over: the client codec
/// round-trips.
#[verifier::rlimit(40)]
#[verifier::spinoff_prover]
pub proof fn lemma_client_message_roundtrip(m: ClientMessageV)
    requires
        client_roundtrips(m),
    ensures
        client_encodable(m),
        with_remains(client_bytes(m), p_client_body(client_bytes(m), 0)) == Ok::<
            (ClientMessageV, Seq<u8>),
            ErrorKind,
        >((m, Seq::<u8>::empty())),
{
    let s = client_bytes(m);
    match m {
        ClientMessageV::Sess(c) => {
            lemma_csess_roundtrip(c);
        },
        ClientMessageV::Rel(r) => {
            lemma_rels_roundtrip(r);
        },
        ClientMessageV::Ack(a) => {
            lemma_ack_roundtrip(a);
        },
        ClientMessageV::MapReq(q) => {
            lemma_mapreq_roundtrip(q);
        },
        ClientMessageV::ObjAck(v) => {
            assert(v =~= Seq::<ObjAckElem>::empty());
            lemma_unit_roundtrip(m);
        },
        _ => {
            lemma_unit_roundtrip(m);
        },
    }
    assert(s.subrange(s.len() as int, s.len() as int) =~= Seq::<u8>::empty());
}

} // verus!
