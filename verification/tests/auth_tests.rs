use xux::auth::{answer_len, cookie_command, frame, login_of, parse_answer, pw_command};
use xux::error::ErrorKind;

#[test]
fn commands_are_framed_big_endian() {
    assert_eq!(frame(b"abc"), vec![0, 3, b'a', b'b', b'c']);
    let long = vec![1u8; 300];
    let f = frame(&long);
    assert_eq!(&f[..2], &[1, 44]);
    assert_eq!(f.len(), 302);
    assert_eq!(answer_len(&[1, 44]), 300);
}

#[test]
fn password_command_carries_the_digest() {
    let c = pw_command("bob", "secret").unwrap();
    let mut expected = b"pw\0bob\0".to_vec();
    expected.extend([
        43u8, 184, 13, 83, 123, 29, 163, 227, 139, 211, 3, 97, 170, 133, 86, 134, 189, 224, 234, 205, 113, 98,
        254, 246, 162, 95, 233, 123, 245, 39, 162, 91,
    ]);
    assert_eq!(c, expected);
    assert_eq!(cookie_command(), b"cookie\0".to_vec());
}

#[test]
fn answers() {
    assert_eq!(parse_answer(b"ok\0bob\0").unwrap(), b"bob\0".to_vec());
    let e = parse_answer(b"no\0bad password").unwrap_err();
    assert_eq!(e.kind, ErrorKind::AuthRefused);
    assert_eq!(e.detail.as_deref(), Some("bad password"));
    let e = parse_answer(b"what?").unwrap_err();
    assert_eq!(e.kind, ErrorKind::BadAnswer);
    assert_eq!(e.detail.as_deref(), Some("what?"));
    assert_eq!(parse_answer(b"ok").unwrap_err().kind, ErrorKind::BadAnswer);
    assert_eq!(parse_answer(b"no\0\xff").unwrap_err().kind, ErrorKind::Utf8);
    assert_eq!(parse_answer(b"\xff\xfe\xfd").unwrap_err().kind, ErrorKind::Utf8);
}

#[test]
fn login_drops_the_terminator() {
    assert_eq!(login_of(b"bob\0").unwrap(), "bob");
    assert_eq!(login_of(b"\0").unwrap(), "");
    assert_eq!(login_of(b"\xff\0").unwrap_err().kind, ErrorKind::Utf8);
}
