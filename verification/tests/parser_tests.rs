use xux::codec::{strz_terminated, Reader};
use xux::error::ErrorKind;
use xux::proto::message_sess::cSess;

fn strz(input: &[u8]) -> Result<(Vec<u8>, String), ErrorKind> {
    match strz_terminated(input) {
        Ok((s, rest)) => Ok((rest, s)),
        Err(e) => Err(e.kind),
    }
}

#[test]
fn test_strz() {
    assert_eq!(strz(b"aaa\0bbb"), Ok((b"bbb".to_vec(), "aaa".to_string())));
    assert_eq!(strz(b"\0aaa\0bbb"), Ok((b"aaa\0bbb".to_vec(), "".to_string())));
    assert_eq!(strz(b"aaabbb"), Err(ErrorKind::Eof));
}

#[test]
fn test_parse_csess() {
    let input = b"\x00\x00Salem\0\x00\x00User\0\x20\x00cookiecookiecookiecookiecookie12";
    let mut r = Reader::new(input);
    let c = cSess::from_buf(&mut r).unwrap();
    let expected = cSess::new("User".into(), b"cookiecookiecookiecookiecookie12".to_vec());
    assert_eq!(c.login, expected.login);
    assert_eq!(c.cookie, expected.cookie);
    assert!(r.is_empty());
}

#[test]
fn strz_rejects_bad_utf8() {
    assert_eq!(strz(b"\xff\xfe\0"), Err(ErrorKind::Utf8));
}

#[test]
fn csess_truncated_is_eof() {
    let input = b"\x00\x00Salem\0\x00\x00User\0\x20\x00cookie";
    let mut r = Reader::new(input);
    assert_eq!(cSess::from_buf(&mut r).unwrap_err().kind, ErrorKind::Eof);
    assert_eq!(r.position(), 0);
}

#[test]
fn reader_strz_without_zero_drops_last_byte() {
    let mut r = Reader::new(b"aaabbb");
    assert_eq!(r.strz().unwrap(), "aaabb");
    assert!(r.is_empty());
    let mut r = Reader::new(b"");
    assert_eq!(r.strz().unwrap_err().kind, ErrorKind::Eof);
}
