use std::io::Write;
use xux::codec::Reader;
use xux::proto::message::ClientMessage;
use xux::driver::{Event as DriverEvent, RenderEvent};
use xux::error::ErrorKind;
use xux::state::map::grid;
use xux::state::obj::{Obj, ObjProp};
use xux::state::queue::MessageHint;
use xux::state::session::{Event, State};

// ---------------------------------------------------------------------------
// Byte builders for server messages

fn le16(v: u16) -> Vec<u8> {
    v.to_le_bytes().to_vec()
}

fn le32(v: i32) -> Vec<u8> {
    v.to_le_bytes().to_vec()
}

fn strz(s: &str) -> Vec<u8> {
    let mut v = s.as_bytes().to_vec();
    v.push(0);
    v
}

fn list_str(s: &str) -> Vec<u8> {
    let mut v = vec![2u8];
    v.extend(strz(s));
    v
}

fn list_int(i: i32) -> Vec<u8> {
    let mut v = vec![1u8];
    v.extend(le32(i));
    v
}

fn list_coord(x: i32, y: i32) -> Vec<u8> {
    let mut v = vec![3u8];
    v.extend(le32(x));
    v.extend(le32(y));
    v
}

fn list_u16(u: u16) -> Vec<u8> {
    let mut v = vec![5u8];
    v.extend(le16(u));
    v
}

fn list(items: &[Vec<u8>]) -> Vec<u8> {
    let mut v = Vec::new();
    for i in items {
        v.extend(i.iter());
    }
    v.push(0);
    v
}

fn newwdg(id: u16, name: &str, parent: u16, pargs: &[Vec<u8>], cargs: &[Vec<u8>]) -> (u8, Vec<u8>) {
    let mut b = le16(id);
    b.extend(strz(name));
    b.extend(le16(parent));
    b.extend(list(pargs));
    b.extend(list(cargs));
    (0, b)
}

fn wdgmsg(id: u16, name: &str, args: &[Vec<u8>]) -> (u8, Vec<u8>) {
    let mut b = le16(id);
    b.extend(strz(name));
    b.extend(list(args));
    (1, b)
}

fn dstwdg(id: u16) -> (u8, Vec<u8>) {
    (2, le16(id))
}

fn resid(id: u16, name: &str, ver: u16) -> (u8, Vec<u8>) {
    let mut b = le16(id);
    b.extend(strz(name));
    b.extend(le16(ver));
    (6, b)
}

fn rel(seq: u16, elems: &[(u8, Vec<u8>)]) -> Vec<u8> {
    let mut v = vec![1u8];
    v.extend(le16(seq));
    for (i, (t, body)) in elems.iter().enumerate() {
        if i + 1 < elems.len() {
            v.push(t | 0x80);
            v.extend(le16(body.len() as u16));
        } else {
            v.push(*t);
        }
        v.extend(body.iter());
    }
    v
}

fn ack(seq: u16) -> Vec<u8> {
    let mut v = vec![2u8];
    v.extend(le16(seq));
    v
}

fn obj_move(id: u32, frame: i32, x: i32, y: i32, res: u16) -> Vec<u8> {
    let mut v = vec![0u8];
    v.extend(id.to_le_bytes());
    v.extend(le32(frame));
    v.push(1);
    v.extend(le32(x));
    v.extend(le32(y));
    v.extend(le16(0));
    v.push(2);
    v.extend(le16(res));
    v.push(255);
    v
}

fn obj_rem(id: u32, frame: i32) -> Vec<u8> {
    let mut v = vec![0u8];
    v.extend(id.to_le_bytes());
    v.extend(le32(frame));
    v.push(0);
    v.push(255);
    v
}

fn objdata(elems: &[Vec<u8>]) -> Vec<u8> {
    let mut v = vec![6u8];
    for e in elems {
        v.extend(e.iter());
    }
    v
}

fn drain(s: &mut State) -> Vec<Vec<u8>> {
    let mut out = Vec::new();
    while let Some(b) = s.tx() {
        out.push(b.buf);
    }
    out
}

fn session_with_charlist() -> State {
    let mut s = State::new();
    s.rx(&rel(0, &[newwdg(3, "charlist", 0, &[], &[]), wdgmsg(3, "add", &[list_str("Bob")])]))
        .unwrap();
    s
}

// ---------------------------------------------------------------------------
// Tests

#[test]
fn new_session_has_root_widget() {
    let s = State::new();
    assert_eq!(s.widget_id("root", None), Some(0));
    assert!(!s.widget_exists("charlist", None));
    assert!(!s.hero_exists());
    assert_eq!(s.seq, 0);
    assert_eq!(s.rx_rel_seq, 0);
}

#[test]
fn connect_sends_session_request_until_answered() {
    let mut s = State::new();
    let cookie = [7u8; 32];
    s.connect("User", &cookie).unwrap();
    let sent = drain(&mut s);
    let mut expected = vec![0u8, 2, 0];
    expected.extend(b"Salem\0");
    expected.extend(le16(36));
    expected.extend(b"User\0");
    expected.extend(le16(32));
    expected.extend(cookie.iter());
    assert_eq!(sent, vec![expected.clone()]);
    assert_eq!(s.que.len(), 1);
    // the timer of the request runs out: it is sent again
    s.timeout(0);
    assert_eq!(drain(&mut s), vec![expected]);
    // a timer of another message sends nothing
    s.timeout(5);
    assert!(drain(&mut s).is_empty());
    // the server accepts
    s.rx(&[0, 0]).unwrap();
    assert_eq!(s.que.len(), 0);
}

#[test]
fn refused_session_is_an_error() {
    let mut s = State::new();
    s.connect("User", &[1u8; 32]).unwrap();
    assert_eq!(s.rx(&[0, 1]).unwrap_err().kind, ErrorKind::Session);
    assert_eq!(s.que.len(), 1);
}

#[test]
fn close_from_server_is_an_error() {
    let mut s = State::new();
    assert_eq!(s.rx(&[8]).unwrap_err().kind, ErrorKind::Closed);
}

#[test]
fn unknown_message_is_an_error() {
    let mut s = State::new();
    assert_eq!(s.rx(&[42, 1, 2]).unwrap_err().kind, ErrorKind::UnknownMessage);
    assert_eq!(s.rx(&[]).unwrap_err().kind, ErrorKind::Eof);
}

#[test]
fn in_order_rel_is_applied_and_acknowledged() {
    let mut s = session_with_charlist();
    assert_eq!(s.charlist, vec!["Bob".to_string()]);
    assert_eq!(s.widget_id("charlist", None), Some(3));
    assert_eq!(s.rx_rel_seq, 2);
    assert_eq!(drain(&mut s), vec![ack(1)]);
}

#[test]
fn repeated_rel_is_applied_once() {
    let mut s = session_with_charlist();
    drain(&mut s);
    s.rx(&rel(0, &[newwdg(3, "charlist", 0, &[], &[]), wdgmsg(3, "add", &[list_str("Bob")])]))
        .unwrap();
    assert_eq!(s.charlist.len(), 1);
    assert_eq!(s.rx_rel_seq, 2);
    assert_eq!(drain(&mut s), vec![ack(1)]);
}

#[test]
fn future_rel_waits_for_the_gap() {
    let mut s = State::new();
    s.rx(&rel(2, &[resid(9, "gfx/tree", 1)])).unwrap();
    assert!(s.rel_cache.contains_key(&2));
    assert!(s.resources.is_empty());
    assert!(drain(&mut s).is_empty());
    s.rx(&rel(0, &[resid(7, "gfx/rock", 1), resid(8, "gfx/bush", 2)])).unwrap();
    assert_eq!(s.resources.len(), 3);
    assert_eq!(s.resources.get(&9).map(|x| x.as_str()), Some("gfx/tree"));
    assert!(s.rel_cache.is_empty());
    assert_eq!(s.rx_rel_seq, 3);
    assert_eq!(drain(&mut s), vec![ack(2)]);
}

#[test]
fn destroyed_widget_is_forgotten() {
    let mut s = session_with_charlist();
    s.rx(&rel(2, &[dstwdg(3)])).unwrap();
    assert!(!s.widget_exists("charlist", None));
}

#[test]
fn send_play_sends_the_chosen_character() {
    let mut s = session_with_charlist();
    drain(&mut s);
    s.send_play(0).unwrap();
    let mut expected = vec![1u8, 0, 0, 1];
    expected.extend(le16(3));
    expected.extend(b"play\0");
    expected.extend(list(&[list_str("Bob")]));
    assert_eq!(drain(&mut s), vec![expected]);
    assert_eq!(s.seq, 1);
    // the server acknowledges it
    s.rx(&ack(0)).unwrap();
    assert_eq!(s.que.len(), 0);
}

#[test]
fn waiting_messages_are_sent_one_at_a_time() {
    let mut s = session_with_charlist();
    drain(&mut s);
    s.send_play(0).unwrap();
    s.close().unwrap();
    assert_eq!(drain(&mut s).len(), 1);
    assert_eq!(s.que.len(), 2);
    // an acknowledgement of something else changes nothing
    s.rx(&ack(9)).unwrap();
    assert!(drain(&mut s).is_empty());
    // the answer to the REL sends the CLOSE
    s.rx(&ack(0)).unwrap();
    assert_eq!(drain(&mut s), vec![vec![8u8]]);
    assert_eq!(s.que[0].msg_hint, MessageHint::CLOSE);
}

#[test]
fn mapview_sets_origin_and_go_clicks() {
    let mut s = State::new();
    s.rx(&rel(0, &[newwdg(6, "mapview", 0, &[], &[list_coord(100, 200)])])).unwrap();
    assert_eq!(s.origin, Some((100, 200)));
    drain(&mut s);
    s.go(39683, 36377).unwrap();
    let mut expected = vec![1u8, 0, 0, 1];
    expected.extend(le16(6));
    expected.extend(b"click\0");
    expected.extend(list(&[list_coord(907, 755), list_coord(39683, 36377), list_int(1), list_int(0)]));
    assert_eq!(drain(&mut s), vec![expected]);
}

#[test]
fn choose_pick_and_pick_messages() {
    let mut s = State::new();
    s.choose_pick(12).unwrap();
    let mut expected = vec![1u8, 0, 0, 1];
    expected.extend(le16(12));
    expected.extend(b"cl\0");
    expected.extend(list(&[list_int(0), list_int(0)]));
    assert_eq!(drain(&mut s), vec![expected]);

    let mut s = State::new();
    s.rx(&rel(0, &[newwdg(6, "mapview", 0, &[], &[])])).unwrap();
    s.rx(&objdata(&[obj_move(325183464, 1, 39737, 36437, 4)])).unwrap();
    drain(&mut s);
    s.pick(325183464).unwrap();
    let mut expected = vec![1u8, 0, 0, 1];
    expected.extend(le16(6));
    expected.extend(b"click\0");
    expected.extend(list(&[
        list_coord(863, 832),
        list_coord(39736, 36438),
        list_int(3),
        list_int(0),
        list_int(0),
        list_int(325183464),
        list_coord(39737, 36437),
        list_int(0),
        list_int(-1),
    ]));
    assert_eq!(drain(&mut s), vec![expected]);
}

#[test]
fn objects_are_updated_acknowledged_and_removed() {
    let mut s = State::new();
    s.rx(&objdata(&[obj_move(77, 5, 1000, -2000, 42)])).unwrap();
    let o = s.objects.get(&77).unwrap();
    assert_eq!(o.xy, Some((1000, -2000)));
    assert_eq!(o.resid, Some(42));
    assert_eq!(o.frame, Some(5));
    let mut expected = vec![7u8];
    expected.extend(77u32.to_le_bytes());
    expected.extend(le32(5));
    assert_eq!(drain(&mut s), vec![expected]);
    match s.next_event() {
        Some(Event::Obj(xy)) => assert_eq!(xy, (1000, -2000)),
        other => panic!("unexpected event {:?}", other),
    }
    // an older update is ignored
    s.rx(&objdata(&[obj_move(77, 5, 1, 1, 1)])).unwrap();
    assert_eq!(s.objects.get(&77).unwrap().xy, Some((1000, -2000)));
    assert!(s.next_event().is_none());
    // a removal forgets it
    s.rx(&objdata(&[obj_rem(77, 6)])).unwrap();
    assert!(s.objects.get(&77).is_none());
}

#[test]
fn hero_appears_and_grids_around_are_requested() {
    let mut s = State::new();
    s.rx(&objdata(&[obj_move(5, 1, 2300, -50, 1)])).unwrap();
    drain(&mut s);
    s.rx(&rel(0, &[newwdg(4, "gameui", 0, &[], &[list_str("Hero"), list_int(5)])])).unwrap();
    assert_eq!(s.hero.name.as_deref(), Some("Hero"));
    assert_eq!(s.hero.obj, Some(5));
    assert_eq!(s.start_point(), Some((2300, -50)));
    assert_eq!(s.hero_xy(), Some((2300, -50)));
    assert_eq!(s.hero_grid_xy(), Some((2, -1)));
    assert!(s.hero_exists());
    assert!(!s.hero_grid_exists());
    assert!(!s.hero_is_moving());
    // nine grid requests wait; the first is sent with the acknowledgement
    assert_eq!(s.que.len(), 9);
    let sent = drain(&mut s);
    let mut first = vec![4u8];
    first.extend(le32(2));
    first.extend(le32(-1));
    assert_eq!(sent, vec![first, ack(0)]);
}

#[test]
fn gameui_with_unknown_hero_is_an_error() {
    let mut s = State::new();
    let e = s.rx(&rel(0, &[newwdg(4, "gameui", 0, &[], &[list_str("Hero"), list_int(5)])])).unwrap_err();
    assert_eq!(e.kind, ErrorKind::NoObject);
    let mut s = State::new();
    let e = s.rx(&rel(0, &[newwdg(4, "gameui", 0, &[], &[list_str("Hero"), list_int(-5)])])).unwrap_err();
    assert_eq!(e.kind, ErrorKind::NoObject);
}

#[test]
fn hero_messages_update_the_hero() {
    let mut s = State::new();
    s.rx(&rel(0, &[
        newwdg(4, "gameui", 0, &[], &[]),
        newwdg(5, "chr", 0, &[], &[]),
        newwdg(6, "ui/hrtptr:11", 0, &[], &[]),
        wdgmsg(4, "weight", &[list_u16(1234)]),
        wdgmsg(5, "tmexp", &[list_int(-7)]),
        wdgmsg(6, "upd", &[list_coord(10, 20)]),
    ])).unwrap();
    assert_eq!(s.hero.weight, Some(1234));
    assert_eq!(s.hero.tmexp, Some(-7));
    assert_eq!(s.hero.hearthfire, Some((10, 20)));
}

#[test]
fn items_fill_inventory_and_equipment() {
    let mut s = State::new();
    s.rx(&rel(0, &[
        newwdg(10, "inv", 0, &[], &[]),
        newwdg(11, "epry", 0, &[], &[]),
        newwdg(12, "item", 10, &[list_coord(1, 2)], &[list_u16(300)]),
        newwdg(13, "item", 11, &[vec![4u8, 6u8]], &[list_u16(301)]),
        newwdg(14, "item", 10, &[list_coord(1, 2)], &[list_u16(302)]),
    ])).unwrap();
    let last = s.hero.inventory.iter().rev().find(|e| e.0 == (1, 2)).map(|e| e.1);
    assert_eq!(last, Some(302));
    assert_eq!(s.hero.equipment.get(&6), Some(&301));
}

fn grid_packet(x: i32, y: i32) -> Vec<u8> {
    let mut body = Vec::new();
    body.extend(77i64.to_le_bytes());
    for i in 0..10000 {
        body.push((i % 251) as u8);
    }
    for i in 0..10000i32 {
        body.extend(((i - 5000) as i16).to_le_bytes());
    }
    // a plot of type 0 with flags 1 (bit 2) over the cells x 2..3, y 0..1
    body.extend([5u8, 0, 2, 0, 3, 1, 255]);
    let mut enc = flate2::write::ZlibEncoder::new(Vec::new(), flate2::Compression::default());
    enc.write_all(&body).unwrap();
    let z = enc.finish().unwrap();
    let mut p = Vec::new();
    p.extend(le32(x));
    p.extend(le32(y));
    p.extend(strz("grid"));
    p.extend([5u8, 1, 255]);
    p.extend(z);
    p
}

fn mapdata(pktid: i32, off: u16, len: u16, buf: &[u8]) -> Vec<u8> {
    let mut v = vec![5u8];
    v.extend(le32(pktid));
    v.extend(le16(off));
    v.extend(le16(len));
    v.extend(buf.iter());
    v
}

#[test]
fn fragments_make_a_grid() {
    let mut s = State::new();
    s.mapreq(3, -4).unwrap();
    drain(&mut s);
    let packet = grid_packet(3, -4);
    let n = packet.len() as u16;
    let cut = 10usize;
    s.rx(&mapdata(9, cut as u16, n, &packet[cut..])).unwrap();
    assert!(s.next_event().is_none());
    assert!(s.map.partial.contains_key(&9));
    s.rx(&mapdata(9, 0, n, &packet[..cut])).unwrap();
    assert!(!s.map.partial.contains_key(&9));
    assert_eq!(s.que.len(), 0);
    assert!(s.map.has_grid((3, -4)));
    match s.next_event() {
        Some(Event::Grid(x, y, tiles, z)) => {
            assert_eq!((x, y), (3, -4));
            assert_eq!(tiles.len(), 10000);
            assert_eq!(tiles[300], (300 % 251) as u8);
            assert_eq!(z[0], -5000);
            assert_eq!(z[9999], 4999);
        }
        other => panic!("unexpected event {:?}", other),
    }
    // a grid that was received is not requested again
    s.mapreq(3, -4).unwrap();
    assert_eq!(s.que.len(), 0);
}

#[test]
fn broken_grid_is_an_error() {
    let mut s = State::new();
    let mut p = Vec::new();
    p.extend(le32(1));
    p.extend(le32(1));
    p.extend(strz("g"));
    p.push(255);
    p.extend([1u8, 2, 3]);
    let n = p.len() as u16;
    assert_eq!(s.rx(&mapdata(1, 0, n, &p)).unwrap_err().kind, ErrorKind::Inflate);
}

#[test]
fn grid_coordinates() {
    assert_eq!(grid((0, 0)), (0, 0));
    assert_eq!(grid((1099, 1100)), (0, 1));
    assert_eq!(grid((-1, -1099)), (-1, -1));
    assert_eq!(grid((-1100, -1101)), (-2, -2));
    assert_eq!(grid((i32::MAX, i32::MIN)), (1952257, -1952258));
}

#[test]
fn driver_events() {
    let mut s = State::new();
    s.dispatch_event(DriverEvent::Rx(rel(0, &[newwdg(6, "mapview", 0, &[], &[])]))).unwrap();
    // no hero: walking does nothing
    drain(&mut s);
    s.dispatch_event(DriverEvent::Render(RenderEvent::Up)).unwrap();
    assert!(drain(&mut s).is_empty());
    s.rx(&objdata(&[obj_move(5, 1, 100, 100, 1)])).unwrap();
    s.hero.obj = Some(5);
    drain(&mut s);
    s.dispatch_event(DriverEvent::Render(RenderEvent::Left)).unwrap();
    let sent = drain(&mut s);
    let mut expected = vec![1u8, 0, 0, 1];
    expected.extend(le16(6));
    expected.extend(b"click\0");
    expected.extend(list(&[list_coord(907, 755), list_coord(0, 100), list_int(1), list_int(0)]));
    assert_eq!(sent, vec![expected.clone()]);
    s.dispatch_event(DriverEvent::Timeout(0)).unwrap();
    assert_eq!(drain(&mut s), vec![expected]);
    s.dispatch_event(DriverEvent::Render(RenderEvent::Quit)).unwrap();
    assert_eq!(s.que.len(), 2);
}

#[test]
fn what_is_sent_decodes_to_what_was_enqueued() {
    let mut s = State::new();
    s.connect("someone", &[3u8; 32]).unwrap();
    let sent = s.tx().unwrap().buf;
    let mut r = Reader::new(&sent);
    match ClientMessage::from_buf(&mut r).unwrap() {
        (ClientMessage::SESS(c), None) => {
            assert_eq!(c.login, "someone");
            assert_eq!(c.cookie, vec![3u8; 32]);
        }
        other => panic!("unexpected {:?}", other),
    }
}

#[test]
fn object_update_ignores_old_frames() {
    let mut o = Obj::new(1, Some(5), Some(3), None, None);
    let p = ObjProp { xy: Some((10, 20)), resid: None, line: None, step: None };
    assert!(!o.apply(5, &p));
    assert!(!o.apply(4, &p));
    assert_eq!(o.frame, Some(5));
    assert_eq!(o.xy, None);
    assert!(o.apply(6, &p));
    assert_eq!(o.frame, Some(6));
    assert_eq!(o.xy, Some((10, 20)));
    assert_eq!(o.resid, Some(3));
    let mut n = Obj::new(2, None, None, None, None);
    assert!(n.apply(-7, &p));
    assert_eq!(n.frame, Some(-7));
}
