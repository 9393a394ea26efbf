//! The authentication exchange: length-framed commands to the
//! authentication server and its answers, "ok" or "no".
use vstd::prelude::*;
use vstd::utf8::{encode_utf8, valid_utf8, decode_utf8};
use crate::codec::{be16, be_read_u16, be_write_u16, put_bytes, slice_to_vec, string_from_utf8};
use crate::error::{Error, ErrorKind};

verus! {

/// The SHA-256 digest of `data`, as OpenSSL computes it.
pub uninterp spec fn sha256_of(data: Seq<u8>) -> Seq<u8>;

/// Hashes `data` with `openssl::hash::hash(MessageDigest::sha256(), ..)`.
/// The contract claims that a digest, when OpenSSL gives one, is the one
/// named `sha256_of` for these bytes and has the 32 bytes of SHA-256; it
/// says nothing of when OpenSSL reports an error, which depends on the
/// state of the library rather than on the data.
#[verifier::external_body]
fn sha256(data: &[u8]) -> (res: Option<Vec<u8>>)
    ensures
        res matches Some(d) ==> d@ == sha256_of(data@) && d@.len() == 32,
{
    match openssl::hash::hash(openssl::hash::MessageDigest::sha256(), data) {
        Ok(d) => Some(d.to_vec()),
        Err(_) => None,
    }
}

/// A command as it is sent: its length in two big-endian bytes (counted in
/// 16 bits), then the command.
pub open spec fn framed(cmd: Seq<u8>) -> Seq<u8> {
    be16((cmd.len() % 0x10000) as int) + cmd
}

/// The bytes of `pw`, `ok`, `no` and `cookie`.
pub open spec fn pw_tag() -> Seq<u8> {
    seq![0x70u8, 0x77u8, 0u8]
}

pub open spec fn ok_tag() -> Seq<u8> {
    seq![0x6fu8, 0x6bu8, 0u8]
}

pub open spec fn no_tag() -> Seq<u8> {
    seq![0x6eu8, 0x6fu8, 0u8]
}

pub open spec fn cookie_cmd() -> Seq<u8> {
    seq![0x63u8, 0x6fu8, 0x6fu8, 0x6bu8, 0x69u8, 0x65u8, 0u8]
}

/// The password command: `pw`, the user name, and the digest of the
/// password, each of the first two ended by a zero byte.
pub open spec fn pw_cmd(user: Seq<char>, digest: Seq<u8>) -> Seq<u8> {
    pw_tag() + encode_utf8(user) + seq![0u8] + digest
}

/// What an answer of the server means: after `ok` the payload; after `no`
/// a refusal whose reason is text; anything else, or an answer shorter than
/// a tag, is unexpected. Text that is not UTF-8 is an error of its own.
pub open spec fn answer_spec(m: Seq<u8>) -> Result<Seq<u8>, ErrorKind> {
    if m.len() < 3 {
        Err(ErrorKind::BadAnswer)
    } else if m.take(3) == ok_tag() {
        Ok(m.skip(3))
    } else if m.take(3) == no_tag() {
        if valid_utf8(m.skip(3)) {
            Err(ErrorKind::AuthRefused)
        } else {
            Err(ErrorKind::Utf8)
        }
    } else if valid_utf8(m) {
        Err(ErrorKind::BadAnswer)
    } else {
        Err(ErrorKind::Utf8)
    }
}

/// Frames a command: its length, then the command.
pub fn frame(cmd: &[u8]) -> (m: Vec<u8>)
    ensures
        m@ == framed(cmd@),
{
    let mut m: Vec<u8> = Vec::new();
    let n = (cmd.len() % 0x10000) as u16;
    be_write_u16(&mut m, n);
    put_bytes(&mut m, cmd);
    m
}

/// The length of an answer, from its two big-endian bytes.
pub fn answer_len(b: &[u8]) -> (n: u16)
    requires
        b@.len() >= 2,
    ensures
        n == b@[0] * 256 + b@[1],
{
    be_read_u16(b)
}

/// The password command for `user` from the digest of the password.
pub fn pw_command_from_digest(user: &str, digest: &[u8]) -> (c: Vec<u8>)
    ensures
        c@ == pw_cmd(user@, digest@),
{
    let mut buf: Vec<u8> = Vec::new();
    buf.push(0x70);
    buf.push(0x77);
    buf.push(0);
    put_bytes(&mut buf, user.as_bytes());
    buf.push(0);
    put_bytes(&mut buf, digest);
    assert(buf@ =~= pw_cmd(user@, digest@));
    buf
}

/// The password command for `user`; fails only where OpenSSL cannot hash.
pub fn pw_command(user: &str, pass: &str) -> (res: Result<Vec<u8>, Error>)
    ensures
        res matches Ok(c) ==> c@ == pw_cmd(user@, sha256_of(encode_utf8(pass@))),
        res matches Err(e) ==> e.kind == ErrorKind::Crypto,
{
    let digest = match sha256(pass.as_bytes()) {
        Some(d) => d,
        None => {
            return Err(Error::of(ErrorKind::Crypto));
        },
    };
    Ok(pw_command_from_digest(user, digest.as_slice()))
}

/// The command that asks for the session cookie.
pub fn cookie_command() -> (c: Vec<u8>)
    ensures
        c@ == cookie_cmd(),
{
    let mut buf: Vec<u8> = Vec::new();
    buf.push(0x63);
    buf.push(0x6f);
    buf.push(0x6f);
    buf.push(0x6b);
    buf.push(0x69);
    buf.push(0x65);
    buf.push(0);
    assert(buf@ =~= cookie_cmd());
    buf
}

fn tag_is(m: &[u8], a: u8, b: u8) -> (r: bool)
    requires
        m@.len() >= 3,
    ensures
        r == (m@.take(3) == seq![a, b, 0u8]),
{
    let r = m[0] == a && m[1] == b && m[2] == 0;
    proof {
        if r {
            assert(m@.take(3) =~= seq![a, b, 0u8]);
        } else {
            if m@.take(3) == seq![a, b, 0u8] {
                assert(m@.take(3)[0] == a);
                assert(m@.take(3)[1] == b);
                assert(m@.take(3)[2] == 0);
            }
        }
    }
    r
}

/// Reads an answer of the server: the payload after `ok`; after `no` a
/// refusal that carries the server's reason; otherwise an unexpected
/// answer that carries its text.
pub fn parse_answer(m: &[u8]) -> (res: Result<Vec<u8>, Error>)
    ensures
        match answer_spec(m@) {
            Ok(p) => res matches Ok(v) && v@ == p,
            Err(k) => res matches Err(e) && e.kind == k,
        },
        (res matches Err(e) && e.kind == ErrorKind::AuthRefused) ==> (res->Err_0.detail matches Some(d)
            && d@ == decode_utf8(m@.skip(3))),
        (res matches Err(e) && e.kind == ErrorKind::BadAnswer && m@.len() >= 3) ==> (
        res->Err_0.detail matches Some(d) && d@ == decode_utf8(m@)),
{
    if m.len() < 3 {
        return Err(Error::of(ErrorKind::BadAnswer));
    }
    let rest = slice_to_vec(vstd::slice::slice_subrange(m, 3, m.len()));
    assert(rest@ =~= m@.skip(3));
    if tag_is(m, 0x6f, 0x6b) {
        Ok(rest)
    } else if tag_is(m, 0x6e, 0x6f) {
        match string_from_utf8(rest) {
            Some(reason) => Err(Error::new(ErrorKind::AuthRefused, Some(reason))),
            None => Err(Error::of(ErrorKind::Utf8)),
        }
    } else {
        match string_from_utf8(slice_to_vec(m)) {
            Some(text) => Err(Error::new(ErrorKind::BadAnswer, Some(text))),
            None => Err(Error::of(ErrorKind::Utf8)),
        }
    }
}

/// The login that the server confirmed: the payload of its answer to the
/// password command, without its last (terminating) byte.
pub fn login_of(payload: &[u8]) -> (res: Result<String, Error>)
    requires
        payload@.len() >= 1,
    ensures
        valid_utf8(payload@.drop_last()) ==> (res matches Ok(s) && s@ == decode_utf8(
            payload@.drop_last(),
        )),
        !valid_utf8(payload@.drop_last()) ==> (res matches Err(e) && e.kind == ErrorKind::Utf8),
{
    let body = slice_to_vec(vstd::slice::slice_subrange(payload, 0, payload.len() - 1));
    assert(body@ =~= payload@.drop_last());
    match string_from_utf8(body) {
        Some(s) => Ok(s),
        None => Err(Error::of(ErrorKind::Utf8)),
    }
}

/// An answer that begins with `ok` gives back what follows it.
pub proof fn lemma_ok_answer(payload: Seq<u8>)
    ensures
        answer_spec(ok_tag() + payload) == Ok::<Seq<u8>, ErrorKind>(payload),
{
    assert((ok_tag() + payload).take(3) =~= ok_tag());
    assert((ok_tag() + payload).skip(3) =~= payload);
}

/// A command and its frame: the frame is two bytes longer and ends with
/// the command.
pub proof fn lemma_frame(cmd: Seq<u8>)
    ensures
        framed(cmd).len() == cmd.len() + 2,
        framed(cmd).skip(2) == cmd,
{
    assert(framed(cmd).skip(2) =~= cmd);
}

} // verus!
