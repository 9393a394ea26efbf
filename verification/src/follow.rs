//! The choices of the capture viewer: which messages to show by their type,
//! and, when it follows a REL stream, which elements of a REL message are
//! new: those numbered as the next one expected.
use vstd::prelude::*;
use crate::proto::message::{ClientMessage, ClientMessageV, ServerMessage, ServerMessageV, p_client_body, p_server_body};
use crate::proto::message_sess::SESS_ID;
use crate::proto::message_rel::REL_ID;
use crate::proto::message_ack::ACK_ID;
use crate::proto::message_beat::BEAT_ID;
use crate::proto::message_mapreq::MAPREQ_ID;
use crate::proto::message_mapdata::MAPDATA_ID;
use crate::proto::message_objdata::OBJDATA_ID;
use crate::proto::message_objack::OBJACK_ID;
use crate::proto::message_close::CLOSE_ID;
use crate::state::map::next_offset;

verus! {

/// A type of message.
#[derive(Debug, Clone, Copy, PartialEq, Eq, Structural)]
pub enum MsgType {
    Sess,
    Rel,
    Ack,
    Beat,
    Mapreq,
    Mapdata,
    Objdata,
    Objack,
    Close,
}

/// The type that a name gives, if it is one of the nine names.
pub open spec fn type_of_name(t: Seq<char>) -> Option<MsgType> {
    if t == "SESS"@ {
        Some(MsgType::Sess)
    } else if t == "REL"@ {
        Some(MsgType::Rel)
    } else if t == "ACK"@ {
        Some(MsgType::Ack)
    } else if t == "BEAT"@ {
        Some(MsgType::Beat)
    } else if t == "MAPREQ"@ {
        Some(MsgType::Mapreq)
    } else if t == "MAPDATA"@ {
        Some(MsgType::Mapdata)
    } else if t == "OBJDATA"@ {
        Some(MsgType::Objdata)
    } else if t == "OBJACK"@ {
        Some(MsgType::Objack)
    } else if t == "CLOSE"@ {
        Some(MsgType::Close)
    } else {
        None
    }
}

pub open spec fn client_type_spec(m: ClientMessageV) -> MsgType {
    match m {
        ClientMessageV::Sess(_) => MsgType::Sess,
        ClientMessageV::Rel(_) => MsgType::Rel,
        ClientMessageV::Ack(_) => MsgType::Ack,
        ClientMessageV::Beat => MsgType::Beat,
        ClientMessageV::MapReq(_) => MsgType::Mapreq,
        ClientMessageV::ObjAck(_) => MsgType::Objack,
        ClientMessageV::Close => MsgType::Close,
    }
}

pub open spec fn server_type_spec(m: ServerMessageV) -> MsgType {
    match m {
        ServerMessageV::Sess(_) => MsgType::Sess,
        ServerMessageV::Rel(_) => MsgType::Rel,
        ServerMessageV::Ack(_) => MsgType::Ack,
        ServerMessageV::MapData(_) => MsgType::Mapdata,
        ServerMessageV::ObjData(_) => MsgType::Objdata,
        ServerMessageV::Close => MsgType::Close,
    }
}

fn same(a: &str, b: &str) -> (r: bool)
    ensures
        r == (a@ == b@),
{
    a.to_owned() == b.to_owned()
}

impl MsgType {
    /// The type of a name; the viewer accepts only the nine names.
    pub fn from_str(t: &str) -> (r: MsgType)
        requires
            type_of_name(t@) is Some,
        ensures
            Some(r) == type_of_name(t@),
    {
        if same(t, "SESS") {
            MsgType::Sess
        } else if same(t, "REL") {
            MsgType::Rel
        } else if same(t, "ACK") {
            MsgType::Ack
        } else if same(t, "BEAT") {
            MsgType::Beat
        } else if same(t, "MAPREQ") {
            MsgType::Mapreq
        } else if same(t, "MAPDATA") {
            MsgType::Mapdata
        } else if same(t, "OBJDATA") {
            MsgType::Objdata
        } else if same(t, "OBJACK") {
            MsgType::Objack
        } else {
            MsgType::Close
        }
    }
}

/// The type of a client message.
pub fn client_type(m: &ClientMessage) -> (t: MsgType)
    ensures
        t == client_type_spec(m@),
{
    match m {
        ClientMessage::SESS(_) => MsgType::Sess,
        ClientMessage::REL(_) => MsgType::Rel,
        ClientMessage::ACK(_) => MsgType::Ack,
        ClientMessage::BEAT(_) => MsgType::Beat,
        ClientMessage::MAPREQ(_) => MsgType::Mapreq,
        ClientMessage::OBJACK(_) => MsgType::Objack,
        ClientMessage::CLOSE(_) => MsgType::Close,
    }
}

/// The type of a server message.
pub fn server_type(m: &ServerMessage) -> (t: MsgType)
    ensures
        t == server_type_spec(m@),
{
    match m {
        ServerMessage::SESS(_) => MsgType::Sess,
        ServerMessage::REL(_) => MsgType::Rel,
        ServerMessage::ACK(_) => MsgType::Ack,
        ServerMessage::MAPDATA(_) => MsgType::Mapdata,
        ServerMessage::OBJDATA(_) => MsgType::Objdata,
        ServerMessage::CLOSE(_) => MsgType::Close,
    }
}

/// Whether a message of type `t` is shown: all are when no type was asked
/// for, else those of a type asked for.
pub fn shown(types: &Vec<MsgType>, t: MsgType) -> (b: bool)
    ensures
        b == (types@.len() == 0 || types@.contains(t)),
{
    if types.len() == 0 {
        return true;
    }
    let mut i: usize = 0;
    while i < types.len()
        invariant
            i <= types@.len(),
            forall|j: int| 0 <= j < i ==> types@[j] != t,
        decreases types@.len() - i,
    {
        if types[i] == t {
            assert(types@[i as int] == t);
            return true;
        }
        i = i + 1;
    }
    false
}

/// The elements of a REL message numbered from `seq`, from index `i` on,
/// that are new when `expected` is the next number awaited: each one whose
/// number is the awaited one is new, and the awaited number moves on by
/// one. The indices of the new ones are added to `acc`; the awaited number
/// after the message comes last.
pub open spec fn follow_from(expected: u16, seq: u16, i: int, n: int, acc: Seq<usize>) -> (Seq<usize>, u16)
    decreases n - i,
{
    if i >= n {
        (acc, expected)
    } else if seq == expected {
        follow_from(next_offset(expected, 1), next_offset(seq, 1), i + 1, n, acc.push(i as usize))
    } else {
        follow_from(expected, next_offset(seq, 1), i + 1, n, acc)
    }
}

/// The indices of the new elements of a REL message of `n` elements
/// numbered from `seq`, and the number awaited after it.
pub fn follow(expected: u16, seq: u16, n: usize) -> (r: (Vec<usize>, u16))
    ensures
        (r.0@, r.1) == follow_from(expected, seq, 0, n as int, seq![]),
{
    let mut out: Vec<usize> = Vec::new();
    let mut e = expected;
    let mut s = seq;
    let mut i: usize = 0;
    while i < n
        invariant
            i <= n,
            follow_from(expected, seq, 0, n as int, seq![]) == follow_from(e, s, i as int, n as int, out@),
        decreases n - i,
    {
        if s == e {
            out.push(i);
            e = if e == 0xffff { 0 } else { e + 1 };
        }
        s = if s == 0xffff { 0 } else { s + 1 };
        i = i + 1;
    }
    (out, e)
}

/// A REL message that starts at the awaited number is new as a whole, and
/// the awaited number moves past it.
pub proof fn lemma_follow_in_order(e: u16, i: int, n: int, acc: Seq<usize>)
    requires
        0 <= i <= n,
        n <= usize::MAX,
    ensures
        follow_from(e, e, i, n, acc).0 == acc + Seq::new((n - i) as nat, |k: int| (i + k) as usize),
        follow_from(e, e, i, n, acc).1 == next_offset(e, n - i),
    decreases n - i,
{
    if i < n {
        lemma_follow_in_order(next_offset(e, 1), i + 1, n, acc.push(i as usize));
        assert(acc.push(i as usize) + Seq::new((n - i - 1) as nat, |k: int| (i + 1 + k) as usize)
            =~= acc + Seq::new((n - i) as nat, |k: int| (i + k) as usize));
        assert(next_offset(next_offset(e, 1), n - i - 1) == next_offset(e, n - i));
    } else {
        assert(acc + Seq::new(0, |k: int| (i + k) as usize) =~= acc);
        assert(next_offset(e, 0) == e);
    }
}

/// The type that a message's own type byte on the wire names.
pub open spec fn type_of_id(t: u8) -> Option<MsgType> {
    if t == SESS_ID {
        Some(MsgType::Sess)
    } else if t == REL_ID {
        Some(MsgType::Rel)
    } else if t == ACK_ID {
        Some(MsgType::Ack)
    } else if t == BEAT_ID {
        Some(MsgType::Beat)
    } else if t == MAPREQ_ID {
        Some(MsgType::Mapreq)
    } else if t == MAPDATA_ID {
        Some(MsgType::Mapdata)
    } else if t == OBJDATA_ID {
        Some(MsgType::Objdata)
    } else if t == OBJACK_ID {
        Some(MsgType::Objack)
    } else if t == CLOSE_ID {
        Some(MsgType::Close)
    } else {
        None
    }
}

/// The type the viewer gives a server message is the one its own type
/// byte names: an OBJDATA message is of type OBJDATA, and so on.
pub proof fn lemma_server_type_is_own(s: Seq<u8>, p: int)
    requires
        p_server_body(s, p) is Ok,
    ensures
        type_of_id(s[p]) == Some(server_type_spec(p_server_body(s, p)->Ok_0.0)),
{
}

/// The type the viewer gives a client message is the one its own type
/// byte names.
pub proof fn lemma_client_type_is_own(s: Seq<u8>, p: int)
    requires
        p_client_body(s, p) is Ok,
    ensures
        type_of_id(s[p]) == Some(client_type_spec(p_client_body(s, p)->Ok_0.0)),
{
}

/// A message of the same kind sent either way gets the same type.
pub proof fn lemma_types_agree(s: Seq<u8>, p: int, q: Seq<u8>, r: int)
    requires
        p_server_body(s, p) is Ok,
        p_client_body(q, r) is Ok,
        s[p] == q[r],
    ensures
        server_type_spec(p_server_body(s, p)->Ok_0.0) == client_type_spec(p_client_body(q, r)->Ok_0.0),
{
}

} // verus!
