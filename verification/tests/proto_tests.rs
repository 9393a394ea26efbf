use xux::codec::Reader;
use xux::error::ErrorKind;
use xux::list::List;
use xux::proto::message::{ClientMessage, ServerMessage};
use xux::proto::message_ack::Ack;
use xux::proto::message_beat::Beat;
use xux::proto::message_close::Close;
use xux::proto::message_mapreq::MapReq;
use xux::proto::message_objack::{ObjAck, ObjAckElem};
use xux::proto::message_objdata::{ObjData, ObjDataElemProp};
use xux::proto::message_rel::{Rel, Rels, WdgMsg};
use xux::proto::message_sess::{cSess, sSess, SessError};

fn encode(m: &ClientMessage) -> Result<Vec<u8>, ErrorKind> {
    let mut w = Vec::new();
    m.to_buf(&mut w).map(|_| w).map_err(|e| e.kind)
}

#[test]
fn client_messages_encode() {
    assert_eq!(encode(&ClientMessage::ACK(Ack::new(0x0102))), Ok(vec![2, 2, 1]));
    assert_eq!(encode(&ClientMessage::BEAT(Beat)), Ok(vec![3]));
    assert_eq!(encode(&ClientMessage::CLOSE(Close)), Ok(vec![8]));
    assert_eq!(encode(&ClientMessage::MAPREQ(MapReq::new(-1, 2))), Ok(vec![4, 0xff, 0xff, 0xff, 0xff, 2, 0, 0, 0]));
    assert_eq!(
        encode(&ClientMessage::OBJACK(ObjAck::new(vec![ObjAckElem { id: 5, frame: -1 }]))),
        Ok(vec![7, 5, 0, 0, 0, 0xff, 0xff, 0xff, 0xff])
    );
}

#[test]
fn rel_with_two_wdgmsgs_encodes_lengths() {
    let mut rel = Rels::new(9);
    rel.append(Rel::WDGMSG(WdgMsg::new(1, "a".into(), vec![])));
    rel.append(Rel::WDGMSG(WdgMsg::new(2, "b".into(), vec![List::Int(3)])));
    let b = encode(&ClientMessage::REL(rel)).unwrap();
    assert_eq!(b, vec![1, 9, 0, 0x81, 5, 0, 1, 0, b'a', 0, 0, 1, 2, 0, b'b', 0, 1, 3, 0, 0, 0, 0]);
    // and decodes back
    let mut r = Reader::new(&b);
    let (m, rest) = ClientMessage::from_buf(&mut r).unwrap();
    assert!(rest.is_none());
    match m {
        ClientMessage::REL(r) => {
            assert_eq!(r.seq, 9);
            assert_eq!(r.rels.len(), 2);
        }
        other => panic!("unexpected {:?}", other),
    }
}

#[test]
fn non_wdgmsg_rel_is_not_encoded() {
    let mut rel = Rels::new(0);
    rel.append(Rel::DSTWDG(xux::proto::message_rel::DstWdg { id: 1 }));
    assert_eq!(encode(&ClientMessage::REL(rel)), Err(ErrorKind::NotImplemented));
}

#[test]
fn session_request_roundtrip() {
    let c = cSess::new("me".into(), vec![1u8; 32]);
    let b = encode(&ClientMessage::SESS(c)).unwrap();
    let mut r = Reader::new(&b);
    match ClientMessage::from_buf(&mut r).unwrap().0 {
        ClientMessage::SESS(c) => {
            assert_eq!(c.login, "me");
            assert_eq!(c.cookie, vec![1u8; 32]);
        }
        other => panic!("unexpected {:?}", other),
    }
}

#[test]
fn server_messages_decode() {
    let mut r = Reader::new(&[0u8, 3]);
    match ServerMessage::from_buf(&mut r).unwrap().0 {
        ServerMessage::SESS(s) => assert_eq!(s, sSess::new(3)),
        other => panic!("unexpected {:?}", other),
    }
    assert_eq!(sSess::new(3).err, SessError::CONN);
    assert_eq!(SessError::new(200), SessError::UNKNOWN(200));
    let mut r = Reader::new(&[2u8, 5, 0, 9, 9]);
    let (m, rest) = ServerMessage::from_buf(&mut r).unwrap();
    assert!(matches!(m, ServerMessage::ACK(Ack { seq: 5 })));
    assert_eq!(rest, Some(vec![9, 9]));
}

#[test]
fn objdata_props_decode() {
    // MOVE (1,2) 3; RES with extra data; LINBEG; LINSTEP; SPEECH; END
    let mut b = vec![1u8];
    b.extend(1i32.to_le_bytes());
    b.extend(2i32.to_le_bytes());
    b.extend(3u16.to_le_bytes());
    b.push(2);
    b.extend(0x8005u16.to_le_bytes());
    b.extend([2u8, 0xaa, 0xbb]);
    b.push(3);
    for v in [1i32, 2, 3, 4, 10] {
        b.extend(v.to_le_bytes());
    }
    b.push(4);
    b.extend(7i32.to_le_bytes());
    b.push(5);
    b.extend(1u16.to_le_bytes());
    b.extend(b"hi\0");
    b.push(255);
    let mut r = Reader::new(&b);
    let mut props = Vec::new();
    while let Some(p) = ObjDataElemProp::from_buf(&mut r).unwrap() {
        props.push(p);
    }
    assert!(r.is_empty());
    assert_eq!(props.len(), 5);
    assert!(matches!(props[0], ObjDataElemProp::odMOVE((1, 2), 3)));
    assert!(matches!(props[1], ObjDataElemProp::odRES(5)));
    assert!(matches!(props[2], ObjDataElemProp::odLINBEG((1, 2), (3, 4), 10)));
    assert!(matches!(props[3], ObjDataElemProp::odLINSTEP(7)));
    match &props[4] {
        ObjDataElemProp::odSPEECH(1, s) => assert_eq!(s, "hi"),
        other => panic!("unexpected {:?}", other),
    }
}

#[test]
fn objdata_and_objack() {
    let mut b = vec![0u8];
    b.extend(9u32.to_le_bytes());
    b.extend(4i32.to_le_bytes());
    b.push(255);
    let mut r = Reader::new(&b);
    let od = ObjData::from_buf(&mut r).unwrap();
    assert_eq!(od.obj.len(), 1);
    let ack = ObjAck::from_objdata(&od);
    assert_eq!(ack.obj, vec![ObjAckElem { id: 9, frame: 4 }]);
}

#[test]
fn truncated_objdata_is_eof() {
    let b = [0u8, 9, 0];
    let mut r = Reader::new(&b);
    assert_eq!(ObjData::from_buf(&mut r).unwrap_err().kind, ErrorKind::Eof);
}

#[test]
fn unknown_rel_is_an_error() {
    assert_eq!(Rel::from_buf(99, &[]).unwrap_err().kind, ErrorKind::UnknownRel);
}

#[test]
fn open_rel_framing_accepts_what_the_strict_one_refuses() {
    // seq 3 and no element
    let mut r = Reader::new(&[3u8, 0]);
    let rels = Rels::from_buf_open(&mut r).unwrap();
    assert_eq!(rels.seq, 3);
    assert!(rels.rels.is_empty());
    let mut r = Reader::new(&[3u8, 0]);
    assert_eq!(Rels::from_buf(&mut r).unwrap_err().kind, ErrorKind::Eof);
    // seq 4, then a length-prefixed DSTWDG of widget 9 that ends the input
    let b = [4u8, 0, 0x82, 2, 0, 9, 0];
    let mut r = Reader::new(&b);
    let rels = Rels::from_buf_open(&mut r).unwrap();
    assert_eq!(rels.rels.len(), 1);
    assert!(matches!(&rels.rels[0], Rel::DSTWDG(d) if d.id == 9));
    assert!(r.is_empty());
    let mut r = Reader::new(&b);
    assert_eq!(Rels::from_buf(&mut r).unwrap_err().kind, ErrorKind::Eof);
}
