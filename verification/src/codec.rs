//! Little-endian wire codec: a cursor that reads the protocol's primitive
//! values out of a byte slice, and writers that append them to a buffer.
use vstd::prelude::*;
use vstd::utf8::*;
use byteorder::{BigEndian, ByteOrder, LittleEndian};
use crate::error::{Error, ErrorKind};

verus! {

/// The outcome of decoding a value at a position: the value and the position
/// after it, or the kind of error.
pub type PRes<T> = Result<(T, int), ErrorKind>;

// ---------------------------------------------------------------------------
// Integer encodings

/// Value of the two little-endian bytes at `p`.
pub open spec fn le16(s: Seq<u8>, p: int) -> int {
    s[p] + 256 * s[p + 1]
}

/// Value of the four little-endian bytes at `p`.
pub open spec fn le32(s: Seq<u8>, p: int) -> int {
    le16(s, p) + 65536 * le16(s, p + 2)
}

/// Value of the eight little-endian bytes at `p`.
pub open spec fn le64(s: Seq<u8>, p: int) -> int {
    le32(s, p) + 4294967296 * le32(s, p + 4)
}

/// Two's complement reading of a 16-bit pattern.
pub open spec fn signed16(u: int) -> int {
    if u >= 0x8000 { u - 0x10000 } else { u }
}

/// Two's complement reading of a 32-bit pattern.
pub open spec fn signed32(u: int) -> int {
    if u >= 0x8000_0000 { u - 0x1_0000_0000 } else { u }
}

/// Two's complement reading of a 64-bit pattern.
pub open spec fn signed64(u: int) -> int {
    if u >= 0x8000_0000_0000_0000 { u - 0x1_0000_0000_0000_0000 } else { u }
}

/// Two's complement reading of an 8-bit pattern.
pub open spec fn signed8(u: int) -> int {
    if u >= 0x80 { u - 0x100 } else { u }
}

/// The bit pattern of a signed value of the given range.
pub open spec fn unsigned_of(x: int, range: int) -> int {
    if x < 0 { x + range } else { x }
}

/// The two little-endian bytes of `x` (taken modulo 2^16).
pub open spec fn bytes16(x: int) -> Seq<u8> {
    seq![(x % 256) as u8, ((x / 256) % 256) as u8]
}

/// The four little-endian bytes of `x` (taken modulo 2^32).
pub open spec fn bytes32(x: int) -> Seq<u8> {
    bytes16(x % 65536) + bytes16((x / 65536) % 65536)
}

/// The eight little-endian bytes of `x` (taken modulo 2^64).
pub open spec fn bytes64(x: int) -> Seq<u8> {
    bytes32(x % 4294967296) + bytes32((x / 4294967296) % 4294967296)
}

pub proof fn lemma_le16_bytes16(x: int, s: Seq<u8>, p: int)
    requires
        0 <= x < 65536,
        0 <= p,
        p + 2 <= s.len(),
        s.subrange(p, p + 2) == bytes16(x),
    ensures
        le16(s, p) == x,
{
    assert(s[p] == s.subrange(p, p + 2)[0]);
    assert(s[p + 1] == s.subrange(p, p + 2)[1]);
}

pub proof fn lemma_le32_bytes32(x: int, s: Seq<u8>, p: int)
    requires
        0 <= x < 4294967296,
        0 <= p,
        p + 4 <= s.len(),
        s.subrange(p, p + 4) == bytes32(x),
    ensures
        le32(s, p) == x,
{
    assert(s.subrange(p, p + 2) == s.subrange(p, p + 4).subrange(0, 2));
    assert(s.subrange(p + 2, p + 4) == s.subrange(p, p + 4).subrange(2, 4));
    assert(bytes32(x).subrange(0, 2) == bytes16(x % 65536));
    assert(bytes32(x).subrange(2, 4) == bytes16((x / 65536) % 65536));
    let lo = x % 65536;
    let hi = x / 65536;
    assert(0 <= hi < 65536 && x == lo + 65536 * hi && 0 <= lo < 65536) by (nonlinear_arith)
        requires
            0 <= x < 4294967296,
            lo == x % 65536,
            hi == x / 65536,
    ;
    assert(hi % 65536 == hi);
    lemma_le16_bytes16(lo, s, p);
    lemma_le16_bytes16(hi, s, p + 2);
}

pub proof fn lemma_le64_bytes64(x: int, s: Seq<u8>, p: int)
    requires
        0 <= x < 0x1_0000_0000_0000_0000,
        0 <= p,
        p + 8 <= s.len(),
        s.subrange(p, p + 8) == bytes64(x),
    ensures
        le64(s, p) == x,
{
    assert(s.subrange(p, p + 4) == s.subrange(p, p + 8).subrange(0, 4));
    assert(s.subrange(p + 4, p + 8) == s.subrange(p, p + 8).subrange(4, 8));
    assert(bytes64(x).subrange(0, 4) == bytes32(x % 4294967296));
    assert(bytes64(x).subrange(4, 8) == bytes32((x / 4294967296) % 4294967296));
    let lo = x % 4294967296;
    let hi = x / 4294967296;
    assert(0 <= hi < 4294967296 && x == lo + 4294967296 * hi && 0 <= lo < 4294967296)
        by (nonlinear_arith)
        requires
            0 <= x < 0x1_0000_0000_0000_0000,
            lo == x % 4294967296,
            hi == x / 4294967296,
    ;
    assert(hi % 4294967296 == hi);
    lemma_le32_bytes32(lo, s, p);
    lemma_le32_bytes32(hi, s, p + 4);
}

// ---------------------------------------------------------------------------
// Trusted byteorder calls

/// `LittleEndian::read_u16` of byteorder: the first two bytes as a
/// little-endian integer.
#[verifier::external_body]
fn le_read_u16(b: &[u8]) -> (r: u16)
    requires
        b@.len() >= 2,
    ensures
        r == le16(b@, 0),
{
    LittleEndian::read_u16(b)
}

/// `LittleEndian::read_i16` of byteorder: the first two bytes as a
/// little-endian two's complement integer.
#[verifier::external_body]
fn le_read_i16(b: &[u8]) -> (r: i16)
    requires
        b@.len() >= 2,
    ensures
        r == signed16(le16(b@, 0)),
{
    LittleEndian::read_i16(b)
}

/// `LittleEndian::read_u32` of byteorder.
#[verifier::external_body]
fn le_read_u32(b: &[u8]) -> (r: u32)
    requires
        b@.len() >= 4,
    ensures
        r == le32(b@, 0),
{
    LittleEndian::read_u32(b)
}

/// `LittleEndian::read_i32` of byteorder.
#[verifier::external_body]
fn le_read_i32(b: &[u8]) -> (r: i32)
    requires
        b@.len() >= 4,
    ensures
        r == signed32(le32(b@, 0)),
{
    LittleEndian::read_i32(b)
}

/// `LittleEndian::read_u64` of byteorder.
#[verifier::external_body]
fn le_read_u64(b: &[u8]) -> (r: u64)
    requires
        b@.len() >= 8,
    ensures
        r == le64(b@, 0),
{
    LittleEndian::read_u64(b)
}

/// `LittleEndian::read_i64` of byteorder.
#[verifier::external_body]
fn le_read_i64(b: &[u8]) -> (r: i64)
    requires
        b@.len() >= 8,
    ensures
        r == signed64(le64(b@, 0)),
{
    LittleEndian::read_i64(b)
}

/// `LittleEndian::write_u16` of byteorder into a fresh two-byte array, which
/// is then appended to `w`.
#[verifier::external_body]
fn le_write_u16(w: &mut Vec<u8>, n: u16)
    ensures
        final(w)@ == old(w)@ + bytes16(n as int),
{
    let mut b = [0u8; 2];
    LittleEndian::write_u16(&mut b, n);
    w.extend_from_slice(&b);
}

/// `LittleEndian::write_i16` of byteorder, appended to `w`.
#[verifier::external_body]
fn le_write_i16(w: &mut Vec<u8>, n: i16)
    ensures
        final(w)@ == old(w)@ + bytes16(unsigned_of(n as int, 0x10000)),
{
    let mut b = [0u8; 2];
    LittleEndian::write_i16(&mut b, n);
    w.extend_from_slice(&b);
}

/// `LittleEndian::write_u32` of byteorder, appended to `w`.
#[verifier::external_body]
fn le_write_u32(w: &mut Vec<u8>, n: u32)
    ensures
        final(w)@ == old(w)@ + bytes32(n as int),
{
    let mut b = [0u8; 4];
    LittleEndian::write_u32(&mut b, n);
    w.extend_from_slice(&b);
}

/// `LittleEndian::write_i32` of byteorder, appended to `w`.
#[verifier::external_body]
fn le_write_i32(w: &mut Vec<u8>, n: i32)
    ensures
        final(w)@ == old(w)@ + bytes32(unsigned_of(n as int, 0x1_0000_0000)),
{
    let mut b = [0u8; 4];
    LittleEndian::write_i32(&mut b, n);
    w.extend_from_slice(&b);
}

/// `LittleEndian::write_u64` of byteorder, appended to `w`.
#[verifier::external_body]
fn le_write_u64(w: &mut Vec<u8>, n: u64)
    ensures
        final(w)@ == old(w)@ + bytes64(n as int),
{
    let mut b = [0u8; 8];
    LittleEndian::write_u64(&mut b, n);
    w.extend_from_slice(&b);
}

/// The two bytes of `n`, most significant first.
pub open spec fn be16(n: int) -> Seq<u8> {
    seq![(n / 256) as u8, (n % 256) as u8]
}

/// `BigEndian::read_u16` of byteorder: the first two bytes as a big-endian
/// integer.
#[verifier::external_body]
pub(crate) fn be_read_u16(b: &[u8]) -> (r: u16)
    requires
        b@.len() >= 2,
    ensures
        r == b@[0] * 256 + b@[1],
{
    BigEndian::read_u16(b)
}

/// `BigEndian::write_u16` of byteorder into a fresh two-byte array, which
/// is then appended to `w`.
#[verifier::external_body]
pub(crate) fn be_write_u16(w: &mut Vec<u8>, n: u16)
    ensures
        final(w)@ == old(w)@ + be16(n as int),
{
    let mut b = [0u8; 2];
    BigEndian::write_u16(&mut b, n);
    w.extend_from_slice(&b);
}

/// `String::from_utf8` of std: the string that the bytes encode, if they
/// are valid UTF-8.
#[verifier::external_body]
pub(crate) fn string_from_utf8(v: Vec<u8>) -> (r: Option<String>)
    ensures
        r is Some <==> valid_utf8(v@),
        r matches Some(s) ==> s@ == decode_utf8(v@),
{
    String::from_utf8(v).ok()
}

// ---------------------------------------------------------------------------
// Decoding specifications of the primitives

pub open spec fn p_u8(s: Seq<u8>, p: int) -> PRes<u8> {
    if 0 <= p < s.len() { Ok((s[p], p + 1)) } else { Err(ErrorKind::Eof) }
}

pub open spec fn p_i8(s: Seq<u8>, p: int) -> PRes<i8> {
    if 0 <= p < s.len() { Ok((signed8(s[p] as int) as i8, p + 1)) } else { Err(ErrorKind::Eof) }
}

pub open spec fn p_u16(s: Seq<u8>, p: int) -> PRes<u16> {
    if 0 <= p && p + 2 <= s.len() { Ok((le16(s, p) as u16, p + 2)) } else { Err(ErrorKind::Eof) }
}

pub open spec fn p_i16(s: Seq<u8>, p: int) -> PRes<i16> {
    if 0 <= p && p + 2 <= s.len() {
        Ok((signed16(le16(s, p)) as i16, p + 2))
    } else {
        Err(ErrorKind::Eof)
    }
}

pub open spec fn p_u32(s: Seq<u8>, p: int) -> PRes<u32> {
    if 0 <= p && p + 4 <= s.len() { Ok((le32(s, p) as u32, p + 4)) } else { Err(ErrorKind::Eof) }
}

pub open spec fn p_i32(s: Seq<u8>, p: int) -> PRes<i32> {
    if 0 <= p && p + 4 <= s.len() {
        Ok((signed32(le32(s, p)) as i32, p + 4))
    } else {
        Err(ErrorKind::Eof)
    }
}

pub open spec fn p_u64(s: Seq<u8>, p: int) -> PRes<u64> {
    if 0 <= p && p + 8 <= s.len() { Ok((le64(s, p) as u64, p + 8)) } else { Err(ErrorKind::Eof) }
}

pub open spec fn p_i64(s: Seq<u8>, p: int) -> PRes<i64> {
    if 0 <= p && p + 8 <= s.len() {
        Ok((signed64(le64(s, p)) as i64, p + 8))
    } else {
        Err(ErrorKind::Eof)
    }
}

/// A pair of i32 values.
pub open spec fn p_coord(s: Seq<u8>, p: int) -> PRes<(i32, i32)> {
    match p_i32(s, p) {
        Err(e) => Err(e),
        Ok((x, p1)) => match p_i32(s, p1) {
            Err(e) => Err(e),
            Ok((y, p2)) => Ok(((x, y), p2)),
        },
    }
}

/// Four bytes: red, green, blue, alpha.
pub open spec fn p_color(s: Seq<u8>, p: int) -> PRes<(u8, u8, u8, u8)> {
    if 0 <= p && p + 4 <= s.len() {
        Ok(((s[p], s[p + 1], s[p + 2], s[p + 3]), p + 4))
    } else {
        Err(ErrorKind::Eof)
    }
}

/// `n` raw bytes.
pub open spec fn p_bytes(s: Seq<u8>, p: int, n: int) -> PRes<Seq<u8>> {
    if 0 <= p && 0 <= n && p + n <= s.len() {
        Ok((s.subrange(p, p + n), p + n))
    } else {
        Err(ErrorKind::Eof)
    }
}

/// The index of the first zero byte at or after `p`, or -1.
pub open spec fn find_nul(s: Seq<u8>, p: int) -> int
    decreases s.len() - p,
{
    if p < 0 || p >= s.len() {
        -1
    } else if s[p] == 0 {
        p
    } else {
        find_nul(s, p + 1)
    }
}

/// A zero-terminated UTF-8 string; the terminator is consumed. Without a
/// zero byte the rest of the input is read and its last byte dropped; at
/// the end of the input there is no string.
pub open spec fn p_strz(s: Seq<u8>, p: int) -> PRes<Seq<char>> {
    if p < 0 || p >= s.len() {
        Err(ErrorKind::Eof)
    } else {
        let (t, q) = until_nul_text(s, p);
        if valid_utf8(t) {
            Ok((decode_utf8(t), q))
        } else {
            Err(ErrorKind::Utf8)
        }
    }
}

pub proof fn lemma_find_nul(s: Seq<u8>, p: int)
    requires
        0 <= p,
    ensures
        find_nul(s, p) == -1 || (p <= find_nul(s, p) < s.len() && s[find_nul(s, p)] == 0),
        find_nul(s, p) == -1 ==> forall|i: int| p <= i < s.len() ==> s[i] != 0,
        find_nul(s, p) != -1 ==> forall|i: int| p <= i < find_nul(s, p) ==> s[i] != 0,
    decreases s.len() - p,
{
    if p < s.len() && s[p] != 0 {
        lemma_find_nul(s, p + 1);
    }
}

/// `find_nul` in a buffer that continues a zero-free stretch with a zero.
pub proof fn lemma_find_nul_at(s: Seq<u8>, p: int, e: int)
    requires
        0 <= p <= e < s.len(),
        s[e] == 0,
        forall|i: int| p <= i < e ==> s[i] != 0,
    ensures
        find_nul(s, p) == e,
    decreases e - p,
{
    if p < e {
        lemma_find_nul_at(s, p + 1, e);
    }
}

/// An encoded zero-terminated string decodes to itself when its encoding
/// holds no zero byte.
pub proof fn lemma_strz_roundtrip(s: Seq<u8>, p: int, t: Seq<char>)
    requires
        !encode_utf8(t).contains(0u8),
        0 <= p,
        p + strz_bytes(t).len() <= s.len(),
        s.subrange(p, p + strz_bytes(t).len()) == strz_bytes(t),
    ensures
        p_strz(s, p) == Ok::<(Seq<char>, int), ErrorKind>((t, p + strz_bytes(t).len())),
{
    let enc = encode_utf8(t);
    let b = strz_bytes(t);
    let e_at = p + enc.len();
    assert(s[e_at] == b[enc.len() as int]);
    assert forall|j: int| p <= j < e_at implies s[j] != 0 by {
        assert(s[j] == b[j - p]);
        assert(b[j - p] == enc[j - p]);
        if s[j] == 0 {
            assert(enc.contains(0u8));
        }
    }
    lemma_find_nul_at(s, p, e_at);
    assert(s.subrange(p, e_at) =~= enc);
    encode_utf8_valid_utf8(t);
    encode_utf8_decode_utf8(t);
}

/// Splits a known stretch of bytes in two.
pub proof fn lemma_split(s: Seq<u8>, p: int, a: Seq<u8>, b: Seq<u8>)
    requires
        0 <= p,
        p + a.len() + b.len() <= s.len(),
        s.subrange(p, p + a.len() + b.len()) == a + b,
    ensures
        s.subrange(p, p + a.len()) == a,
        s.subrange(p + a.len(), p + a.len() + b.len()) == b,
{
    assert(s.subrange(p, p + a.len()) =~= (a + b).subrange(0, a.len() as int));
    assert(s.subrange(p + a.len(), p + a.len() + b.len()) =~= (a + b).subrange(
        a.len() as int,
        (a.len() + b.len()) as int,
    ));
}

/// The two halves of a concatenation.
pub proof fn lemma_concat(a: Seq<u8>, b: Seq<u8>)
    ensures
        (a + b).subrange(0, a.len() as int) == a,
        (a + b).subrange(a.len() as int, (a.len() + b.len()) as int) == b,
        (a + b).subrange(0, (a + b).len() as int) == a + b,
{
    assert((a + b).subrange(0, a.len() as int) =~= a);
    assert((a + b).subrange(a.len() as int, (a.len() + b.len()) as int) =~= b);
    assert((a + b).subrange(0, (a + b).len() as int) =~= a + b);
}

/// `res` is what a reader that started at `old_pos` and stopped at `new_pos`
/// returns when the specification of the read is `spec`.
pub open spec fn read_outcome<T: View>(
    res: Result<T, Error>,
    old_pos: int,
    new_pos: int,
    spec: PRes<T::V>,
) -> bool {
    match spec {
        Ok((v, p)) => res matches Ok(x) && x@ == v && new_pos == p,
        Err(k) => res matches Err(e) && e.kind == k && new_pos == old_pos,
    }
}

/// Like `read_outcome`, but an error leaves the position unspecified.
pub open spec fn loose_outcome<T: View>(res: Result<T, Error>, new_pos: int, spec: PRes<T::V>) -> bool {
    match spec {
        Ok((v, p)) => res matches Ok(x) && x@ == v && new_pos == p,
        Err(k) => res matches Err(e) && e.kind == k,
    }
}

// ---------------------------------------------------------------------------
// Reader

/// A cursor over a byte slice.
pub struct Reader<'a> {
    buf: &'a [u8],
    pos: usize,
}

impl<'a> Reader<'a> {
    #[verifier::type_invariant]
    spec fn inv(&self) -> bool {
        self.pos <= self.buf@.len()
    }

    /// The bytes under the cursor.
    pub closed spec fn data(&self) -> Seq<u8> {
        self.buf@
    }

    /// The position of the cursor.
    pub closed spec fn pos(&self) -> int {
        self.pos as int
    }

    /// The position of the cursor, which never passes the end of the data.
    pub fn position_in_bounds(&self) -> (p: usize)
        ensures
            p == self.pos(),
            self.pos() <= self.data().len(),
    {
        proof { use_type_invariant(self); }
        self.pos
    }

    /// A cursor at the start of `buf`.
    pub fn new(buf: &'a [u8]) -> (r: Reader<'a>)
        ensures
            r.data() == buf@,
            r.pos() == 0,
    {
        Reader { buf, pos: 0 }
    }

    /// A cursor at position `pos` of `buf`.
    pub fn at(buf: &'a [u8], pos: usize) -> (r: Reader<'a>)
        requires
            pos <= buf@.len(),
        ensures
            r.data() == buf@,
            r.pos() == pos,
    {
        Reader { buf, pos }
    }

    pub fn position(&self) -> (p: usize)
        ensures
            p == self.pos(),
    {
        self.pos
    }

    /// Moves the cursor to `p`.
    pub fn seek(&mut self, p: usize)
        requires
            p <= old(self).data().len(),
        ensures
            final(self).data() == old(self).data(),
            final(self).pos() == p,
    {
        self.pos = p;
    }

    /// Number of bytes left.
    pub fn remaining(&self) -> (n: usize)
        ensures
            n == self.data().len() - self.pos(),
    {
        proof { use_type_invariant(self); }
        self.buf.len() - self.pos
    }

    /// True when no byte is left.
    pub fn is_empty(&self) -> (b: bool)
        ensures
            b == (self.pos() == self.data().len()),
    {
        proof { use_type_invariant(self); }
        self.pos == self.buf.len()
    }

    pub fn u8(&mut self) -> (res: Result<u8, Error>)
        ensures
            final(self).data() == old(self).data(),
            old(self).pos() <= final(self).pos() <= final(self).data().len(),
            read_outcome(res, old(self).pos(), final(self).pos(), p_u8(old(self).data(), old(self).pos())),
    {
        proof { use_type_invariant(&*self); }
        if self.pos < self.buf.len() {
            let b = self.buf[self.pos];
            self.pos = self.pos + 1;
            Ok(b)
        } else {
            Err(Error::of(ErrorKind::Eof))
        }
    }

    pub fn i8(&mut self) -> (res: Result<i8, Error>)
        ensures
            final(self).data() == old(self).data(),
            old(self).pos() <= final(self).pos() <= final(self).data().len(),
            read_outcome(res, old(self).pos(), final(self).pos(), p_i8(old(self).data(), old(self).pos())),
    {
        proof { use_type_invariant(&*self); }
        if self.pos < self.buf.len() {
            let b = self.buf[self.pos];
            self.pos = self.pos + 1;
            let v: i8 = if b >= 128 { (b as i16 - 256) as i8 } else { b as i8 };
            Ok(v)
        } else {
            Err(Error::of(ErrorKind::Eof))
        }
    }

    /// The next `n` bytes as a slice, advancing past them.
    fn take(&mut self, n: usize) -> (res: Option<&'a [u8]>)
        ensures
            final(self).data() == old(self).data(),
            old(self).pos() <= final(self).pos() <= final(self).data().len(),
            old(self).pos() + n <= old(self).data().len() ==> (res matches Some(b) && b@
                == old(self).data().subrange(old(self).pos(), old(self).pos() + n)
                && final(self).pos() == old(self).pos() + n),
            old(self).pos() + n > old(self).data().len() ==> res is None && final(self).pos()
                == old(self).pos(),
    {
        proof { use_type_invariant(&*self); }
        if n <= self.buf.len() - self.pos {
            let b = slice_range(self.buf, self.pos, self.pos + n);
            self.pos = self.pos + n;
            Some(b)
        } else {
            None
        }
    }

    pub fn u16(&mut self) -> (res: Result<u16, Error>)
        ensures
            final(self).data() == old(self).data(),
            old(self).pos() <= final(self).pos() <= final(self).data().len(),
            read_outcome(res, old(self).pos(), final(self).pos(), p_u16(old(self).data(), old(self).pos())),
    {
        proof { use_type_invariant(&*self); }
        match self.take(2) {
            Some(b) => {
                let v = le_read_u16(b);
                proof {
                    assert(le16(b@, 0) == le16(old(self).data(), old(self).pos()));
                }
                Ok(v)
            }
            None => Err(Error::of(ErrorKind::Eof)),
        }
    }

    pub fn i16(&mut self) -> (res: Result<i16, Error>)
        ensures
            final(self).data() == old(self).data(),
            old(self).pos() <= final(self).pos() <= final(self).data().len(),
            read_outcome(res, old(self).pos(), final(self).pos(), p_i16(old(self).data(), old(self).pos())),
    {
        proof { use_type_invariant(&*self); }
        match self.take(2) {
            Some(b) => {
                let v = le_read_i16(b);
                proof {
                    assert(le16(b@, 0) == le16(old(self).data(), old(self).pos()));
                }
                Ok(v)
            }
            None => Err(Error::of(ErrorKind::Eof)),
        }
    }

    pub fn u32(&mut self) -> (res: Result<u32, Error>)
        ensures
            final(self).data() == old(self).data(),
            old(self).pos() <= final(self).pos() <= final(self).data().len(),
            read_outcome(res, old(self).pos(), final(self).pos(), p_u32(old(self).data(), old(self).pos())),
    {
        proof { use_type_invariant(&*self); }
        match self.take(4) {
            Some(b) => {
                let v = le_read_u32(b);
                proof {
                    assert(le32(b@, 0) == le32(old(self).data(), old(self).pos()));
                }
                Ok(v)
            }
            None => Err(Error::of(ErrorKind::Eof)),
        }
    }

    pub fn i32(&mut self) -> (res: Result<i32, Error>)
        ensures
            final(self).data() == old(self).data(),
            old(self).pos() <= final(self).pos() <= final(self).data().len(),
            read_outcome(res, old(self).pos(), final(self).pos(), p_i32(old(self).data(), old(self).pos())),
    {
        proof { use_type_invariant(&*self); }
        match self.take(4) {
            Some(b) => {
                let v = le_read_i32(b);
                proof {
                    assert(le32(b@, 0) == le32(old(self).data(), old(self).pos()));
                }
                Ok(v)
            }
            None => Err(Error::of(ErrorKind::Eof)),
        }
    }

    pub fn u64(&mut self) -> (res: Result<u64, Error>)
        ensures
            final(self).data() == old(self).data(),
            old(self).pos() <= final(self).pos() <= final(self).data().len(),
            read_outcome(res, old(self).pos(), final(self).pos(), p_u64(old(self).data(), old(self).pos())),
    {
        proof { use_type_invariant(&*self); }
        match self.take(8) {
            Some(b) => {
                let v = le_read_u64(b);
                proof {
                    assert(le64(b@, 0) == le64(old(self).data(), old(self).pos()));
                }
                Ok(v)
            }
            None => Err(Error::of(ErrorKind::Eof)),
        }
    }

    pub fn i64(&mut self) -> (res: Result<i64, Error>)
        ensures
            final(self).data() == old(self).data(),
            old(self).pos() <= final(self).pos() <= final(self).data().len(),
            read_outcome(res, old(self).pos(), final(self).pos(), p_i64(old(self).data(), old(self).pos())),
    {
        proof { use_type_invariant(&*self); }
        match self.take(8) {
            Some(b) => {
                let v = le_read_i64(b);
                proof {
                    assert(le64(b@, 0) == le64(old(self).data(), old(self).pos()));
                }
                Ok(v)
            }
            None => Err(Error::of(ErrorKind::Eof)),
        }
    }

    pub fn coord(&mut self) -> (res: Result<(i32, i32), Error>)
        ensures
            final(self).data() == old(self).data(),
            old(self).pos() <= final(self).pos() <= final(self).data().len(),
            read_outcome(res, old(self).pos(), final(self).pos(), p_coord(old(self).data(), old(self).pos())),
    {
        let start = self.pos;
        let x = self.i32()?;
        match self.i32() {
            Ok(y) => Ok((x, y)),
            Err(e) => {
                self.pos = start;
                Err(e)
            }
        }
    }

    pub fn color(&mut self) -> (res: Result<(u8, u8, u8, u8), Error>)
        ensures
            final(self).data() == old(self).data(),
            old(self).pos() <= final(self).pos() <= final(self).data().len(),
            read_outcome(res, old(self).pos(), final(self).pos(), p_color(old(self).data(), old(self).pos())),
    {
        proof { use_type_invariant(&*self); }
        match self.take(4) {
            Some(b) => Ok((b[0], b[1], b[2], b[3])),
            None => Err(Error::of(ErrorKind::Eof)),
        }
    }

    /// The next `n` bytes.
    pub fn read_exact(&mut self, n: usize) -> (res: Result<Vec<u8>, Error>)
        ensures
            final(self).data() == old(self).data(),
            old(self).pos() <= final(self).pos() <= final(self).data().len(),
            read_outcome(res, old(self).pos(), final(self).pos(), p_bytes(old(self).data(), old(self).pos(), n as int)),
    {
        match self.take(n) {
            Some(b) => Ok(slice_to_vec(b)),
            None => Err(Error::of(ErrorKind::Eof)),
        }
    }

    /// All the bytes that are left.
    pub fn read_to_end(&mut self) -> (v: Vec<u8>)
        ensures
            final(self).data() == old(self).data(),
            old(self).pos() <= final(self).pos() <= final(self).data().len(),
            v@ == old(self).data().subrange(old(self).pos(), old(self).data().len() as int),
            final(self).pos() == old(self).data().len(),
    {
        proof { use_type_invariant(&*self); }
        let n = self.buf.len() - self.pos;
        match self.take(n) {
            Some(b) => slice_to_vec(b),
            None => Vec::new(),
        }
    }

    /// A zero-terminated UTF-8 string.
    pub fn strz(&mut self) -> (res: Result<String, Error>)
        ensures
            final(self).data() == old(self).data(),
            old(self).pos() <= final(self).pos() <= final(self).data().len(),
            read_outcome(res, old(self).pos(), final(self).pos(), p_strz(old(self).data(), old(self).pos())),
    {
        proof {
            use_type_invariant(&*self);
            lemma_find_nul(self.buf@, self.pos as int);
        }
        let start = self.pos;
        let mut i = self.pos;
        while i < self.buf.len() && self.buf[i] != 0
            invariant
                start <= i <= self.buf@.len(),
                start == self.pos,
                forall|j: int| start <= j < i ==> self.buf@[j] != 0,
            decreases self.buf@.len() - i,
        {
            i = i + 1;
        }
        if start == self.buf.len() {
            return Err(Error::of(ErrorKind::Eof));
        }
        let (end, next) = if i < self.buf.len() {
            proof {
                lemma_find_nul_at(self.buf@, start as int, i as int);
            }
            (i, i + 1)
        } else {
            (self.buf.len() - 1, self.buf.len())
        };
        let bytes = slice_to_vec(slice_range(self.buf, start, end));
        match string_from_utf8(bytes) {
            Some(s) => {
                self.pos = next;
                Ok(s)
            }
            None => Err(Error::of(ErrorKind::Utf8)),
        }
    }
}

/// A string that must end with a zero byte, as the capture parser reads it:
/// the text before the first zero byte and the input after it.
pub open spec fn p_strz_terminated(s: Seq<u8>) -> Result<(Seq<char>, Seq<u8>), ErrorKind> {
    let e = find_nul(s, 0);
    if e < 0 {
        Err(ErrorKind::Eof)
    } else if valid_utf8(s.subrange(0, e)) {
        Ok((decode_utf8(s.subrange(0, e)), s.subrange(e + 1, s.len() as int)))
    } else {
        Err(ErrorKind::Utf8)
    }
}

/// Splits `input` at its first zero byte into the UTF-8 text before it and
/// the bytes after it; without a zero byte the input is incomplete (`Eof`).
pub fn strz_terminated(input: &[u8]) -> (res: Result<(String, Vec<u8>), Error>)
    ensures
        match p_strz_terminated(input@) {
            Ok((t, rest)) => res matches Ok((x, v)) && x@ == t && v@ == rest,
            Err(k) => res matches Err(e) && e.kind == k,
        },
{
    proof {
        lemma_find_nul(input@, 0);
    }
    let mut i: usize = 0;
    while i < input.len() && input[i] != 0
        invariant
            i <= input@.len(),
            forall|j: int| 0 <= j < i ==> input@[j] != 0,
        decreases input@.len() - i,
    {
        i = i + 1;
    }
    if i == input.len() {
        return Err(Error::of(ErrorKind::Eof));
    }
    proof {
        lemma_find_nul_at(input@, 0, i as int);
    }
    let bytes = slice_to_vec(slice_range(input, 0, i));
    match string_from_utf8(bytes) {
        Some(t) => Ok((t, slice_to_vec(slice_range(input, i + 1, input.len())))),
        None => Err(Error::of(ErrorKind::Utf8)),
    }
}

/// The bytes `b[lo..hi]`.
fn slice_range<'b>(b: &'b [u8], lo: usize, hi: usize) -> (r: &'b [u8])
    requires
        lo <= hi <= b@.len(),
    ensures
        r@ == b@.subrange(lo as int, hi as int),
{
    vstd::slice::slice_subrange(b, lo, hi)
}

/// A copy of `b` as a vector.
pub fn slice_to_vec(b: &[u8]) -> (v: Vec<u8>)
    ensures
        v@ == b@,
{
    let mut v: Vec<u8> = Vec::new();
    let mut i: usize = 0;
    while i < b.len()
        invariant
            i <= b@.len(),
            v@ == b@.subrange(0, i as int),
        decreases b@.len() - i,
    {
        v.push(b[i]);
        i = i + 1;
        assert(v@ == b@.subrange(0, i as int));
    }
    v
}

// ---------------------------------------------------------------------------
// Writers

/// The bytes of a zero-terminated string.
pub open spec fn strz_bytes(s: Seq<char>) -> Seq<u8> {
    encode_utf8(s).push(0u8)
}

/// The bytes of a coordinate pair.
pub open spec fn coord_bytes(x: i32, y: i32) -> Seq<u8> {
    bytes32(unsigned_of(x as int, 0x1_0000_0000)) + bytes32(unsigned_of(y as int, 0x1_0000_0000))
}

pub fn put_u8(w: &mut Vec<u8>, n: u8)
    ensures
        final(w)@ == old(w)@.push(n),
{
    w.push(n);
}

pub fn put_i8(w: &mut Vec<u8>, n: i8)
    ensures
        final(w)@ == old(w)@.push(unsigned_of(n as int, 0x100) as u8),
{
    let b: u8 = if n < 0 { (n as i16 + 256) as u8 } else { n as u8 };
    w.push(b);
}

pub fn put_u16(w: &mut Vec<u8>, n: u16)
    ensures
        final(w)@ == old(w)@ + bytes16(n as int),
{
    le_write_u16(w, n);
}

pub fn put_i16(w: &mut Vec<u8>, n: i16)
    ensures
        final(w)@ == old(w)@ + bytes16(unsigned_of(n as int, 0x10000)),
{
    le_write_i16(w, n);
}

pub fn put_u32(w: &mut Vec<u8>, n: u32)
    ensures
        final(w)@ == old(w)@ + bytes32(n as int),
{
    le_write_u32(w, n);
}

pub fn put_i32(w: &mut Vec<u8>, n: i32)
    ensures
        final(w)@ == old(w)@ + bytes32(unsigned_of(n as int, 0x1_0000_0000)),
{
    le_write_i32(w, n);
}

pub fn put_u64(w: &mut Vec<u8>, n: u64)
    ensures
        final(w)@ == old(w)@ + bytes64(n as int),
{
    le_write_u64(w, n);
}

pub fn put_bytes(w: &mut Vec<u8>, b: &[u8])
    ensures
        final(w)@ == old(w)@ + b@,
{
    let mut i: usize = 0;
    while i < b.len()
        invariant
            i <= b@.len(),
            w@ == old(w)@ + b@.subrange(0, i as int),
        decreases b@.len() - i,
    {
        w.push(b[i]);
        i = i + 1;
        assert(w@ == old(w)@ + b@.subrange(0, i as int));
    }
    assert(b@.subrange(0, b@.len() as int) == b@);
}

/// A string followed by a zero byte.
pub fn put_strz(w: &mut Vec<u8>, s: &str)
    ensures
        final(w)@ == old(w)@ + strz_bytes(s@),
{
    put_bytes(w, s.as_bytes());
    w.push(0);
    assert(final(w)@ == old(w)@ + strz_bytes(s@));
}

pub fn put_coord(w: &mut Vec<u8>, x: i32, y: i32)
    ensures
        final(w)@ == old(w)@ + coord_bytes(x, y),
{
    put_i32(w, x);
    put_i32(w, y);
    assert(final(w)@ == old(w)@ + coord_bytes(x, y));
}

pub fn put_color(w: &mut Vec<u8>, r: u8, g: u8, b: u8, a: u8)
    ensures
        final(w)@ == old(w)@ + seq![r, g, b, a],
{
    w.push(r);
    w.push(g);
    w.push(b);
    w.push(a);
    assert(final(w)@ == old(w)@ + seq![r, g, b, a]);
}

// ---------------------------------------------------------------------------
// Text read up to a zero byte, as a buffered reader reads it

/// The bytes that reading up to a zero byte gives, without their last
/// byte, and where the reading stops: up to and past the zero byte, or,
/// without one, all the bytes left but the last.
pub open spec fn until_nul_text(s: Seq<u8>, p: int) -> (Seq<u8>, int) {
    if find_nul(s, p) >= 0 {
        (s.subrange(p, find_nul(s, p)), find_nul(s, p) + 1)
    } else if 0 <= p < s.len() {
        (s.subrange(p, s.len() - 1), s.len() as int)
    } else {
        (Seq::empty(), p)
    }
}

/// Text read up to a zero byte.
pub trait ReadExtExt {
    /// Whether the text up to the next zero byte is UTF-8.
    spec fn strz_text_ok(&self) -> bool;

    /// The text up to the next zero byte, which is consumed; without one,
    /// the bytes left but the last.
    fn read_strz(&mut self) -> Result<String, Error>
        requires
            old(self).strz_text_ok(),
    ;
}

impl<'a> ReadExtExt for Reader<'a> {
    open spec fn strz_text_ok(&self) -> bool {
        valid_utf8(until_nul_text(self.data(), self.pos()).0)
    }

    fn read_strz(&mut self) -> (res: Result<String, Error>)
        ensures
            final(self).data() == old(self).data(),
            final(self).pos() == until_nul_text(old(self).data(), old(self).pos()).1,
            res matches Ok(t) && t@ == decode_utf8(until_nul_text(old(self).data(), old(self).pos()).0),
    {
        proof {
            use_type_invariant(&*self);
            lemma_find_nul(self.buf@, self.pos as int);
        }
        let start = self.pos;
        let mut i = self.pos;
        while i < self.buf.len() && self.buf[i] != 0
            invariant
                start <= i <= self.buf@.len(),
                start == self.pos,
                forall|j: int| start <= j < i ==> self.buf@[j] != 0,
            decreases self.buf@.len() - i,
        {
            i = i + 1;
        }
        let (end, next) = if i < self.buf.len() {
            proof {
                lemma_find_nul_at(self.buf@, start as int, i as int);
            }
            (i, i + 1)
        } else if start < self.buf.len() {
            (self.buf.len() - 1, self.buf.len())
        } else {
            (start, start)
        };
        let bytes = slice_to_vec(slice_range(self.buf, start, end));
        match string_from_utf8(bytes) {
            Some(t) => {
                self.pos = next;
                Ok(t)
            },
            None => Err(Error::of(ErrorKind::Utf8)),
        }
    }
}

} // verus!
