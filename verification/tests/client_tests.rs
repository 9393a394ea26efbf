use xux::proto::message::ClientMessage;
use xux::proto::message_mapreq::MapReq;
use xux::state::client::Client;

fn le16(v: u16) -> Vec<u8> {
    v.to_le_bytes().to_vec()
}

fn le32(v: i32) -> Vec<u8> {
    v.to_le_bytes().to_vec()
}

fn strz(s: &str) -> Vec<u8> {
    let mut v = s.as_bytes().to_vec();
    v.push(0);
    v
}

fn list(items: &[Vec<u8>]) -> Vec<u8> {
    let mut v = Vec::new();
    for i in items {
        v.extend(i.iter());
    }
    v.push(0);
    v
}

fn newwdg(id: u16, name: &str, parent: u16) -> (u8, Vec<u8>) {
    let mut b = le16(id);
    b.extend(strz(name));
    b.extend(le16(parent));
    b.extend(list(&[]));
    b.extend(list(&[]));
    (0, b)
}

fn wdgmsg(id: u16, name: &str, args: &[Vec<u8>]) -> (u8, Vec<u8>) {
    let mut b = le16(id);
    b.extend(strz(name));
    b.extend(list(args));
    (1, b)
}

fn resid(id: u16, name: &str, ver: u16) -> (u8, Vec<u8>) {
    let mut b = le16(id);
    b.extend(strz(name));
    b.extend(le16(ver));
    (6, b)
}

fn dstwdg(id: u16) -> (u8, Vec<u8>) {
    (2, le16(id))
}

fn rel(seq: u16, elems: &[(u8, Vec<u8>)]) -> Vec<u8> {
    let mut v = vec![1u8];
    v.extend(le16(seq));
    for (i, (t, body)) in elems.iter().enumerate() {
        if i + 1 < elems.len() {
            v.push(t | 0x80);
            v.extend(le16(body.len() as u16));
        } else {
            v.push(*t);
        }
        v.extend(body.iter());
    }
    v
}

fn ack(seq: u16) -> Vec<u8> {
    let mut v = vec![2u8];
    v.extend(le16(seq));
    v
}

fn obj_move(id: u32, frame: i32, x: i32, y: i32, res: u16) -> Vec<u8> {
    let mut v = vec![0u8];
    v.extend(id.to_le_bytes());
    v.extend(le32(frame));
    v.push(1);
    v.extend(le32(x));
    v.extend(le32(y));
    v.extend(le16(0));
    v.push(2);
    v.extend(le16(res));
    v.push(255);
    v
}

fn mapreq_bytes(x: i32, y: i32) -> Vec<u8> {
    let mut b = Vec::new();
    ClientMessage::MAPREQ(MapReq::new(x, y)).to_buf(&mut b).unwrap();
    b
}

#[test]
fn every_rel_is_acknowledged_at_once() {
    // REL 7 with one DSTWDG: acknowledged though 0 was expected
    let mut c = Client::new();
    c.dispatch_message(&[1u8, 7, 0, 2, 4, 0]).unwrap();
    assert_eq!(c.tx_buf.front().cloned(), Some(vec![2u8, 7, 0]));
    assert_eq!(c.widgets.len(), 1);
    // two elements: acknowledged by the last one's number
    c.dispatch_message(&rel(9, &[resid(5, "gfx/tree", 1), resid(6, "gfx/rock", 1)])).unwrap();
    assert_eq!(c.tx_buf.front().cloned(), Some(ack(10)));
    assert_eq!(c.resources.get(&6).map(|s| s.as_str()), Some("gfx/rock"));
    assert_eq!(c.tx_buf.len(), 2);
}

#[test]
fn destroyed_widget_is_kept() {
    let mut c = Client::new();
    c.dispatch_message(&rel(0, &[newwdg(3, "charlist", 0), dstwdg(3)])).unwrap();
    assert_eq!(c.widgets.get(&3).map(|s| s.as_str()), Some("charlist"));
}

#[test]
fn characters_are_offered_and_the_first_is_played() {
    let mut c = Client::new();
    c.seq = 4;
    let mut s = vec![2u8];
    s.extend(strz("Bob"));
    c.rx(&rel(0, &[newwdg(3, "charlist", 0), wdgmsg(3, "add", &[s])])).unwrap();
    assert!(c.charlist.is_empty());
    // the ACK, then the REL that plays Bob with the session's number
    assert_eq!(c.tx_buf.len(), 2);
    let mut play = vec![1u8, 4, 0, 1];
    play.extend(le16(3));
    play.extend(strz("play"));
    play.push(2);
    play.extend(strz("Bob"));
    play.push(0);
    assert_eq!(c.tx_buf.front().cloned(), Some(play));
    assert_eq!(c.seq, 4);
}

#[test]
fn ack_of_the_current_number_moves_it_on() {
    let mut c = Client::new();
    c.seq = 2;
    c.dispatch_message(&ack(1)).unwrap();
    assert_eq!(c.seq, 2);
    c.dispatch_message(&ack(2)).unwrap();
    assert_eq!(c.seq, 3);
    c.seq = 0xffff;
    c.dispatch_message(&ack(0xffff)).unwrap();
    assert_eq!(c.seq, 0);
}

#[test]
fn objects_are_kept_and_their_grids_asked_for() {
    let mut c = Client::new();
    let mut od = vec![6u8];
    od.extend(obj_move(1, 1, 2300, -1200, 9));
    c.dispatch_message(&od).unwrap();
    let o = c.objects.get(&1).unwrap();
    assert_eq!(o.xy, (2300, -1200));
    assert_eq!(o.resid, 9);
    // rounded towards zero: (2, -1)
    assert_eq!(c.grids, vec![(2, -1)]);
    assert_eq!(c.tx_buf.front().cloned(), Some(mapreq_bytes(2, -1)));
    assert_eq!(c.tx_buf.len(), 2);
    // the same grid is not asked for again
    let mut od = vec![6u8];
    od.extend(obj_move(2, 1, 2400, -1100, 9));
    c.dispatch_message(&od).unwrap();
    assert_eq!(c.grids, vec![(2, -1)]);
    assert_eq!(c.tx_buf.len(), 3);
}

#[test]
fn map_data_and_close() {
    let mut c = Client::new();
    let mut md = vec![5u8];
    md.extend(le32(1));
    md.extend(le16(0));
    md.extend(le16(10));
    md.extend([1u8, 2, 3]);
    c.dispatch_message(&md).unwrap();
    assert!(c.tx_buf.is_empty());
    assert!(c.dispatch_message(&[8u8]).is_err());
}

#[test]
fn connect_is_repeated() {
    let mut c = Client::new();
    c.user = "User".to_string();
    c.cookie = vec![1, 2, 3];
    c.connect();
    assert_eq!(c.que.len(), 1);
    assert_eq!(c.tx_buf.len(), 1);
    assert_eq!(c.que.front(), c.tx_buf.front());
    c.mapreq(3, 4);
    assert_eq!(c.tx_buf.front().cloned(), Some(mapreq_bytes(3, 4)));
    assert_eq!(c.widget_id_by_name("root"), Some(0));
    assert_eq!(c.widget_id_by_name("charlist"), None);
}
