use xux::codec::{ReadExtExt, Reader};
use xux::error::{Error, ErrorKind};
use xux::list::{read_list, read_sublist, List};
use xux::pages::{env_page, objects_page, responce, widgets_page};
use xux::state::obj::Obj;
use xux::state::session::State;
use xux::util::tiles_rgb;
use xux::web::{route, Page};

#[test]
fn error_new_keeps_kind_and_detail() {
    let e = Error::new(ErrorKind::BadAnswer, Some("x".to_string()));
    assert_eq!(e.kind, ErrorKind::BadAnswer);
    assert_eq!(e.detail.as_deref(), Some("x"));
    assert!(Error::of(ErrorKind::Eof).detail.is_none());
}

#[test]
fn sublist_is_skipped() {
    // INT, TTOL [ STR "ab", TTOL [ NIL ] ], BYTES(2), END, then 0x99
    let b = [1u8, 1, 0, 0, 0, 8, 2, b'a', b'b', 0, 8, 12, 0, 0, 14, 2, 7, 7, 0, 0x99];
    let mut r = Reader::new(&b);
    read_sublist(&mut r);
    assert_eq!(r.position(), 19);
    assert_eq!(r.u8().unwrap(), 0x99);
    // an unknown tag stops right after it
    let mut r = Reader::new(&[4u8, 1, 42, 5]);
    read_sublist(&mut r);
    assert_eq!(r.position(), 3);
    // a long byte string
    let mut b = vec![14u8, 0x80];
    b.extend(3i32.to_le_bytes());
    b.extend([1u8, 2, 3, 0]);
    let mut r = Reader::new(&b);
    read_sublist(&mut r);
    assert!(r.is_empty());
}

#[test]
fn web_routes() {
    assert_eq!(route(b"GET / HTTP/1.1\r\n"), Page::Index);
    assert_eq!(route(b"GET /env HTTP/1.1\r\nHost: x"), Page::Env);
    assert_eq!(route(b"GET /objects HTTP/1.1\r\n"), Page::Objects);
    assert_eq!(route(b"GET /widgets HTTP/1.1\n"), Page::Widgets);
    assert_eq!(route(b"GET /resources HTTP/1.1\r\n"), Page::Resources);
    assert_eq!(route(b"GET /go/1/2 HTTP/1.1\r\n"), Page::Go);
    assert_eq!(route(b"GET /quit HTTP/1.1\r\n"), Page::Quit);
    assert_eq!(route(b"GET /envx HTTP/1.1\r\n"), Page::NotFound);
    assert_eq!(route(b"POST / HTTP/1.1\r\n"), Page::NotFound);
    assert_eq!(route(b"GET /env\r\n HTTP"), Page::NotFound);
}

#[test]
fn tiles_take_palette_colors() {
    let tiles: Vec<u8> = (0..10000).map(|i| (i % 3) as u8).collect();
    let palette = [[1u8, 2, 3, 0], [4, 5, 6, 0], [7, 8, 9, 0]];
    let raw = tiles_rgb(&tiles, &palette);
    assert_eq!(raw.len(), 30000);
    assert_eq!(&raw[..9], &[1, 2, 3, 4, 5, 6, 7, 8, 9]);
    assert_eq!(&raw[3 * 9999..], &[1, 2, 3]);
}

#[test]
fn read_strz_reads_up_to_zero() {
    let mut r = Reader::new(b"ab\0cd");
    assert_eq!(r.read_strz().unwrap(), "ab");
    assert_eq!(r.position(), 3);
    // without a zero byte the last byte is dropped
    assert_eq!(r.read_strz().unwrap(), "c");
    assert!(r.is_empty());
    assert_eq!(r.read_strz().unwrap(), "");
}

#[test]
fn lenient_list_stops_at_unknown_tag() {
    // NIL, then the undefined tag 7, then a byte left unread
    let mut r = Reader::new(&[12u8, 7, 1]);
    let l = read_list(&mut r).unwrap();
    assert_eq!(l.len(), 1);
    assert!(matches!(l[0], List::Nil));
    assert_eq!(r.position(), 2);
    // an unfinished inner list is dropped
    let mut r = Reader::new(&[1u8, 5, 0, 0, 0, 8, 12, 99]);
    let l = read_list(&mut r).unwrap();
    assert_eq!(l.len(), 1);
    assert!(matches!(l[0], List::Int(5)));
    assert_eq!(r.position(), 8);
    // a string tag at the very end is an empty string
    let mut r = Reader::new(&[2u8]);
    let l = read_list(&mut r).unwrap();
    assert!(matches!(&l[0], List::Str(t) if t.is_empty()));
    // the strict reader refuses the same bytes
    let mut r = Reader::new(&[12u8, 7, 1]);
    assert_eq!(List::from_buf(&mut r).unwrap_err().kind, ErrorKind::UnknownList);
}

#[test]
fn pages_show_the_session() {
    let mut s = State::new();
    s.resources.insert(7, "gfx/tree".to_string());
    s.objects.insert(1, Obj::new(1, Some(3), Some(7), Some((-5, 12)), None));
    let body = "[ {\"x\":-5,\"y\":12,\"resid\":7,\"resname\":\"gfx/tree\"} ]";
    let expected = format!(
        "HTTP/1.1 200 OK\r\nContent-Type: text/json\r\nContent-Length: {}\r\nAccess-Control-Allow-Origin: *\r\n\r\n{}",
        body.len(),
        body
    );
    assert_eq!(String::from_utf8(objects_page(&s)).unwrap(), expected);
    assert_eq!(String::from_utf8(responce(b"GET /objects HTTP/1.1\r\n", &s)).unwrap(), expected);
    let w = String::from_utf8(widgets_page(&s)).unwrap();
    assert!(w.ends_with("[ {\"id\":0,\"name\":\"root\",\"parent\":\"0\"} ]"), "{}", w);
    let e = String::from_utf8(env_page(&s)).unwrap();
    let mut map = vec!["0"; 10000].join(",");
    map.push_str("]}");
    let env_body = format!(
        "{{\"res\":[\r\n{{\"id\":7,\"name\":\"gfx/tree\"}}],\"obj\":[\r\n{{\"x\":-5,\"y\":12,\"resid\":7,\"resname\":\"gfx/tree\"}}],\"wid\":[\r\n{{\"id\":0,\"name\":\"root\",\"parent\":\"0\"}}],\"map\":[{}",
        map
    );
    assert!(e.ends_with(&env_body), "{}", &e[..200]);
    assert!(e.contains(&format!("Content-Length: {}\r\n", env_body.len())));
    // a second resource comes after a comma on a line of its own
    s.resources.insert(8, "gfx/bush".to_string());
    let e = String::from_utf8(env_page(&s)).unwrap();
    assert!(e.contains("\r\n,{\"id\":"));
    assert_eq!(String::from_utf8(responce(b"GET /quit HTTP/1.1\r\n", &s)).unwrap(), "HTTP/1.1 200 OK\r\n\r\n");
    assert_eq!(String::from_utf8(responce(b"POST / HTTP/1.1\r\n", &s)).unwrap(), "HTTP/1.1 404 Not Found\r\n\r\n");
    let i = String::from_utf8(responce(b"GET / HTTP/1.1\r\n", &s)).unwrap();
    assert!(i.starts_with("HTTP/1.1 200 OK\r\nContent-Type: text/html; charset=utf-8\r\nContent-Length: "));
    assert!(i.ends_with("</html>\r\n\r\n"));
}
