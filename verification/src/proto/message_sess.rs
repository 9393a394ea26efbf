//! SESS: the session request of the client and the server's answer.
use vstd::prelude::*;
use vstd::utf8::encode_utf8;
use crate::codec::{PRes, Reader, read_outcome, p_u8, p_u16, p_strz, p_bytes, bytes16, strz_bytes, put_u8, put_u16, put_strz, put_bytes};
use crate::error::Error;

verus! {

/// The status that the server answers a session request with.
#[allow(non_camel_case_types)]
#[derive(Debug, Clone, Copy, PartialEq, Eq, Structural)]
pub enum SessError {
    OK,
    AUTH,
    BUSY,
    CONN,
    PVER,
    EXPR,
    UNKNOWN(u8),
}

impl View for SessError {
    type V = SessError;

    open spec fn view(&self) -> SessError {
        *self
    }
}

/// The status that a code stands for.
pub open spec fn spec_sess_error(t: u8) -> SessError {
    if t == 0 {
        SessError::OK
    } else if t == 1 {
        SessError::AUTH
    } else if t == 2 {
        SessError::BUSY
    } else if t == 3 {
        SessError::CONN
    } else if t == 4 {
        SessError::PVER
    } else if t == 5 {
        SessError::EXPR
    } else {
        SessError::UNKNOWN(t)
    }
}

impl SessError {
    pub fn new(t: u8) -> (e: SessError)
        ensures
            e == spec_sess_error(t),
    {
        match t {
            0 => SessError::OK,
            1 => SessError::AUTH,
            2 => SessError::BUSY,
            3 => SessError::CONN,
            4 => SessError::PVER,
            5 => SessError::EXPR,
            _ => SessError::UNKNOWN(t),
        }
    }
}

/// The server's answer to a session request.
#[allow(non_camel_case_types)]
#[derive(Debug, Clone, Copy, PartialEq, Eq, Structural)]
pub struct sSess {
    pub err: SessError,
}

impl View for sSess {
    type V = sSess;

    open spec fn view(&self) -> sSess {
        *self
    }
}

/// The message type byte of SESS.
pub const SESS_ID: u8 = 0;

pub open spec fn p_ssess(s: Seq<u8>, p: int) -> PRes<sSess> {
    match p_u8(s, p) {
        Err(e) => Err(e),
        Ok((t, q)) => Ok((sSess { err: spec_sess_error(t) }, q)),
    }
}

impl sSess {
    pub fn new(error: u8) -> (s: sSess)
        ensures
            s.err == spec_sess_error(error),
    {
        sSess { err: SessError::new(error) }
    }

    /// Decodes the body of a server SESS message: one status byte.
    pub fn from_buf(r: &mut Reader) -> (res: Result<sSess, Error>)
        ensures
            final(r).data() == old(r).data(),
            old(r).pos() <= final(r).pos() <= final(r).data().len(),
            read_outcome(res, old(r).pos(), final(r).pos(), p_ssess(old(r).data(), old(r).pos())),
    {
        let t = r.u8()?;
        Ok(sSess::new(t))
    }
}

/// The client's session request: the account name and the cookie that the
/// authentication server gave.
#[allow(non_camel_case_types)]
#[derive(Debug)]
pub struct cSess {
    pub login: String,
    pub cookie: Vec<u8>,
}

pub struct CSessV {
    pub login: Seq<char>,
    pub cookie: Seq<u8>,
}

impl View for cSess {
    type V = CSessV;

    open spec fn view(&self) -> CSessV {
        CSessV { login: self.login@, cookie: self.cookie@ }
    }
}

/// The protocol name that the client announces.
pub open spec fn proto_name() -> Seq<char> {
    seq!['S', 'a', 'l', 'e', 'm']
}

/// The protocol version that the client announces.
pub const PROTO_VERSION: u16 = 36;

/// The length that the client announces for its cookie.
pub const COOKIE_LEN: u16 = 32;

/// The body of a client SESS message: a 16-bit field, the protocol name,
/// the version, the login, the cookie length and the cookie.
pub open spec fn p_csess(s: Seq<u8>, p: int) -> PRes<CSessV> {
    match p_u16(s, p) {
        Err(e) => Err(e),
        Ok((_unknown, p1)) => match p_strz(s, p1) {
            Err(e) => Err(e),
            Ok((_proto, p2)) => match p_u16(s, p2) {
                Err(e) => Err(e),
                Ok((_version, p3)) => match p_strz(s, p3) {
                    Err(e) => Err(e),
                    Ok((login, p4)) => match p_u16(s, p4) {
                        Err(e) => Err(e),
                        Ok((n, p5)) => match p_bytes(s, p5, n as int) {
                            Err(e) => Err(e),
                            Ok((cookie, p6)) => Ok((CSessV { login, cookie }, p6)),
                        },
                    },
                },
            },
        },
    }
}

/// The bytes of a client SESS message, type byte included.
pub open spec fn csess_bytes(c: CSessV) -> Seq<u8> {
    seq![SESS_ID] + bytes16(2) + strz_bytes(proto_name()) + bytes16(PROTO_VERSION as int) + strz_bytes(
        c.login,
    ) + bytes16(COOKIE_LEN as int) + c.cookie
}

impl cSess {
    pub fn new(login: String, cookie: Vec<u8>) -> (c: cSess)
        ensures
            c.login == login,
            c.cookie == cookie,
    {
        cSess { login, cookie }
    }

    /// Decodes the body of a client SESS message; the protocol name and
    /// version are read and dropped.
    pub fn from_buf(r: &mut Reader) -> (res: Result<cSess, Error>)
        ensures
            final(r).data() == old(r).data(),
            old(r).pos() <= final(r).pos() <= final(r).data().len(),
            read_outcome(res, old(r).pos(), final(r).pos(), p_csess(old(r).data(), old(r).pos())),
    {
        let start = r.position_in_bounds();
        let res = Self::from_buf_inner(r);
        if res.is_err() {
            r.seek(start);
        }
        res
    }

    fn from_buf_inner(r: &mut Reader) -> (res: Result<cSess, Error>)
        ensures
            final(r).data() == old(r).data(),
            old(r).pos() <= final(r).pos() <= final(r).data().len(),
            match p_csess(old(r).data(), old(r).pos()) {
                Ok((v, p)) => res matches Ok(x) && x@ == v && final(r).pos() == p,
                Err(k) => res matches Err(e) && e.kind == k,
            },
    {
        let _unknown = r.u16()?;
        let _proto = r.strz()?;
        let _version = r.u16()?;
        let login = r.strz()?;
        let cookie_len = r.u16()?;
        let cookie = r.read_exact(cookie_len as usize)?;
        Ok(cSess { login, cookie })
    }

    /// Appends the whole client SESS message, type byte included, to `w`.
    /// The cookie length field always announces 32 bytes.
    pub fn to_buf(&self, w: &mut Vec<u8>)
        ensures
            final(w)@ == old(w)@ + csess_bytes(self@),
    {
        put_u8(w, SESS_ID);
        put_u16(w, 2);
        put_bytes(w, &[83u8, 97u8, 108u8, 101u8, 109u8]);
        put_u8(w, 0);
        put_u16(w, PROTO_VERSION);
        put_strz(w, self.login.as_str());
        put_u16(w, COOKIE_LEN);
        put_bytes(w, self.cookie.as_slice());
        proof {
            lemma_proto_name_bytes();
        }
        assert(final(w)@ =~= old(w)@ + csess_bytes(self@));
    }
}

pub proof fn lemma_proto_name_bytes()
    ensures
        encode_utf8(proto_name()) == seq![83u8, 97u8, 108u8, 101u8, 109u8],
{
    let c = proto_name();
    assert(vstd::utf8::is_ascii_chars(c));
    vstd::utf8::is_ascii_chars_encode_utf8(c);
    let e = encode_utf8(c);
    assert(e[0] == c[0] as u8);
    assert(e[1] == c[1] as u8);
    assert(e[2] == c[2] as u8);
    assert(e[3] == c[3] as u8);
    assert(e[4] == c[4] as u8);
    assert(e =~= seq![83u8, 97u8, 108u8, 101u8, 109u8]);
}

} // verus!
