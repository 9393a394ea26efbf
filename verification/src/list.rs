//! The protocol's typed argument lists: a sequence of tagged values, where a
//! TTOL tag opens a nested list and an END tag closes the innermost one.
use vstd::prelude::*;
use crate::codec::{bytes16, bytes32, bytes64, coord_bytes, strz_bytes, unsigned_of, put_u8, put_i8, put_u16, put_i16, put_i32, put_u32, put_u64, put_strz, put_coord, put_color, lemma_le16_bytes16, lemma_le32_bytes32, lemma_le64_bytes64, lemma_find_nul_at, find_nul, PRes, Reader, read_outcome, p_i32, p_strz, p_coord, p_u8, p_u16, p_color, p_i8, p_i16, p_bytes, p_u32, p_u64};
use crate::error::{Error, ErrorKind};
use vstd::utf8::encode_utf8;

verus! {

pub const T_END: u8 = 0;
pub const T_INT: u8 = 1;
pub const T_STR: u8 = 2;
pub const T_COORD: u8 = 3;
pub const T_UINT8: u8 = 4;
pub const T_UINT16: u8 = 5;
pub const T_COLOR: u8 = 6;
pub const T_TTOL: u8 = 8;
pub const T_INT8: u8 = 9;
pub const T_INT16: u8 = 10;
pub const T_NIL: u8 = 12;
pub const T_BYTES: u8 = 14;
pub const T_FLOAT32: u8 = 15;
pub const T_FLOAT64: u8 = 16;

/// Largest accepted length of a long BYTES element.
pub const MAX_BYTES_LEN: i32 = 1048576;

/// One element of an argument list. Floating-point values are kept as their
/// IEEE-754 bit patterns.
#[derive(Debug)]
pub enum List {
    Int(i32),
    Str(String),
    Coord((i32, i32)),
    Uint8(u8),
    Uint16(u16),
    Color((u8, u8, u8, u8)),
    Ttol(Vec<List>),
    Int8(i8),
    Int16(i16),
    Nil,
    Bytes(Vec<u8>),
    Float32(u32),
    Float64(u64),
}

/// The mathematical value of a list element.
pub enum ListV {
    Int(i32),
    Str(Seq<char>),
    Coord((i32, i32)),
    Uint8(u8),
    Uint16(u16),
    Color((u8, u8, u8, u8)),
    Ttol(Seq<ListV>),
    Int8(i8),
    Int16(i16),
    Nil,
    Bytes(Seq<u8>),
    Float32(u32),
    Float64(u64),
}

impl View for List {
    type V = ListV;

    open spec fn view(&self) -> ListV
        decreases self,
    {
        match self {
            List::Int(i) => ListV::Int(*i),
            List::Str(s) => ListV::Str(s@),
            List::Coord(c) => ListV::Coord(*c),
            List::Uint8(u) => ListV::Uint8(*u),
            List::Uint16(u) => ListV::Uint16(*u),
            List::Color(c) => ListV::Color(*c),
            List::Ttol(v) => ListV::Ttol(lists_view(v@)),
            List::Int8(i) => ListV::Int8(*i),
            List::Int16(i) => ListV::Int16(*i),
            List::Nil => ListV::Nil,
            List::Bytes(b) => ListV::Bytes(b@),
            List::Float32(f) => ListV::Float32(*f),
            List::Float64(f) => ListV::Float64(*f),
        }
    }
}

/// The values of a sequence of list elements.
pub open spec fn lists_view(v: Seq<List>) -> Seq<ListV>
    decreases v,
{
    if v.len() == 0 {
        seq![]
    } else {
        lists_view(v.drop_last()).push(v.last()@)
    }
}

/// `read_outcome` for a decoded sequence of list elements.
pub open spec fn lists_outcome(
    res: Result<Vec<List>, Error>,
    old_pos: int,
    new_pos: int,
    spec: PRes<Seq<ListV>>,
) -> bool {
    match spec {
        Ok((v, p)) => res matches Ok(x) && lists_view(x@) == v && new_pos == p,
        Err(k) => res matches Err(e) && e.kind == k && new_pos == old_pos,
    }
}

/// The values of a stack of open lists.
pub open spec fn stack_view(v: Seq<Vec<List>>) -> Seq<Seq<ListV>> {
    Seq::new(v.len(), |i: int| lists_view(v[i]@))
}

// ---------------------------------------------------------------------------
// Decoding

/// The value that follows tag `t` at position `p` (tags END and TTOL carry
/// no value and are handled by the list itself).
pub open spec fn p_elem(s: Seq<u8>, p: int, t: u8) -> PRes<ListV> {
    if t == T_INT {
        match p_i32(s, p) {
            Err(e) => Err(e),
            Ok((v, q)) => Ok((ListV::Int(v), q)),
        }
    } else if t == T_STR {
        match p_strz(s, p) {
            Err(e) => Err(e),
            Ok((v, q)) => Ok((ListV::Str(v), q)),
        }
    } else if t == T_COORD {
        match p_coord(s, p) {
            Err(e) => Err(e),
            Ok((v, q)) => Ok((ListV::Coord(v), q)),
        }
    } else if t == T_UINT8 {
        match p_u8(s, p) {
            Err(e) => Err(e),
            Ok((v, q)) => Ok((ListV::Uint8(v), q)),
        }
    } else if t == T_UINT16 {
        match p_u16(s, p) {
            Err(e) => Err(e),
            Ok((v, q)) => Ok((ListV::Uint16(v), q)),
        }
    } else if t == T_COLOR {
        match p_color(s, p) {
            Err(e) => Err(e),
            Ok((v, q)) => Ok((ListV::Color(v), q)),
        }
    } else if t == T_INT8 {
        match p_i8(s, p) {
            Err(e) => Err(e),
            Ok((v, q)) => Ok((ListV::Int8(v), q)),
        }
    } else if t == T_INT16 {
        match p_i16(s, p) {
            Err(e) => Err(e),
            Ok((v, q)) => Ok((ListV::Int16(v), q)),
        }
    } else if t == T_NIL {
        Ok((ListV::Nil, p))
    } else if t == T_BYTES {
        match p_u8(s, p) {
            Err(e) => Err(e),
            Ok((len, p1)) => if len >= 128 {
                match p_i32(s, p1) {
                    Err(e) => Err(e),
                    Ok((n, p2)) => if n <= 0 || n > MAX_BYTES_LEN {
                        Err(ErrorKind::BadLength)
                    } else {
                        match p_bytes(s, p2, n as int) {
                            Err(e) => Err(e),
                            Ok((b, q)) => Ok((ListV::Bytes(b), q)),
                        }
                    },
                }
            } else {
                match p_bytes(s, p1, len as int) {
                    Err(e) => Err(e),
                    Ok((b, q)) => Ok((ListV::Bytes(b), q)),
                }
            },
        }
    } else if t == T_FLOAT32 {
        match p_u32(s, p) {
            Err(e) => Err(e),
            Ok((v, q)) => Ok((ListV::Float32(v), q)),
        }
    } else if t == T_FLOAT64 {
        match p_u64(s, p) {
            Err(e) => Err(e),
            Ok((v, q)) => Ok((ListV::Float64(v), q)),
        }
    } else {
        Err(ErrorKind::UnknownList)
    }
}

/// Appends `x` to the innermost open list.
pub open spec fn push_top(stack: Seq<Seq<ListV>>, x: ListV) -> Seq<Seq<ListV>> {
    stack.update(stack.len() - 1, stack.last().push(x))
}

/// Closes the innermost open list into a TTOL element of its parent.
pub open spec fn close_top(stack: Seq<Seq<ListV>>) -> Seq<Seq<ListV>> {
    push_top(stack.drop_last(), ListV::Ttol(stack.last()))
}

/// Closes every open list and yields the outermost one.
pub open spec fn close_all(stack: Seq<Seq<ListV>>) -> Seq<ListV>
    decreases stack.len(),
{
    if stack.len() == 0 {
        seq![]
    } else if stack.len() == 1 {
        stack[0]
    } else {
        close_all(close_top(stack))
    }
}

/// Decoding of a list from position `p` with `stack` the lists opened so
/// far: the end of the input closes all open lists, END closes the innermost
/// one (and ends the list when it is the outermost), TTOL opens a new one.
pub open spec fn p_list_from(s: Seq<u8>, p: int, stack: Seq<Seq<ListV>>) -> PRes<Seq<ListV>>
    decreases s.len() - p,
{
    if p < 0 || p >= s.len() {
        Ok((close_all(stack), p))
    } else if s[p] == T_END {
        if stack.len() > 1 {
            p_list_from(s, p + 1, close_top(stack))
        } else {
            Ok((close_all(stack), p + 1))
        }
    } else if s[p] == T_TTOL {
        p_list_from(s, p + 1, stack.push(seq![]))
    } else {
        match p_elem(s, p + 1, s[p]) {
            Err(e) => Err(e),
            Ok((x, q)) => if p < q <= s.len() {
                p_list_from(s, q, push_top(stack, x))
            } else {
                Err(ErrorKind::Eof)
            },
        }
    }
}

/// Decoding of a list at position `p`.
pub open spec fn p_list(s: Seq<u8>, p: int) -> PRes<Seq<ListV>> {
    p_list_from(s, p, seq![seq![]])
}

proof fn lemma_close_top(stack: Seq<Seq<ListV>>, top: Seq<ListV>)
    requires
        stack.len() >= 1,
    ensures
        close_top(stack.push(top)) == push_top(stack, ListV::Ttol(top)),
{
    assert(stack.push(top).drop_last() == stack);
}

/// The value after tag `t`, read from `r`.
fn elem_from_buf(r: &mut Reader, t: u8) -> (res: Result<List, Error>)
    ensures
        final(r).data() == old(r).data(),
        old(r).pos() <= final(r).pos() <= final(r).data().len(),
        read_outcome(res, old(r).pos(), final(r).pos(), p_elem(old(r).data(), old(r).pos(), t)),
{
    let start = r.position_in_bounds();
    if t == T_INT {
        Ok(List::Int(r.i32()?))
    } else if t == T_STR {
        Ok(List::Str(r.strz()?))
    } else if t == T_COORD {
        Ok(List::Coord(r.coord()?))
    } else if t == T_UINT8 {
        Ok(List::Uint8(r.u8()?))
    } else if t == T_UINT16 {
        Ok(List::Uint16(r.u16()?))
    } else if t == T_COLOR {
        Ok(List::Color(r.color()?))
    } else if t == T_INT8 {
        Ok(List::Int8(r.i8()?))
    } else if t == T_INT16 {
        Ok(List::Int16(r.i16()?))
    } else if t == T_NIL {
        Ok(List::Nil)
    } else if t == T_BYTES {
        let len = r.u8()?;
        if len >= 128 {
            let n = match r.i32() {
                Ok(n) => n,
                Err(e) => {
                    r.seek(start);
                    return Err(e);
                }
            };
            if n <= 0 || n > MAX_BYTES_LEN {
                r.seek(start);
                return Err(Error::of(ErrorKind::BadLength));
            }
            match r.read_exact(n as usize) {
                Ok(b) => Ok(List::Bytes(b)),
                Err(e) => {
                    r.seek(start);
                    Err(e)
                }
            }
        } else {
            match r.read_exact(len as usize) {
                Ok(b) => Ok(List::Bytes(b)),
                Err(e) => {
                    r.seek(start);
                    Err(e)
                }
            }
        }
    } else if t == T_FLOAT32 {
        Ok(List::Float32(r.u32()?))
    } else if t == T_FLOAT64 {
        Ok(List::Float64(r.u64()?))
    } else {
        Err(Error::of(ErrorKind::UnknownList))
    }
}

/// Pops the innermost open list.
fn pop_top(stack: &mut Vec<Vec<List>>) -> (top: Vec<List>)
    requires
        old(stack)@.len() >= 1,
    ensures
        final(stack)@ == old(stack)@.drop_last(),
        top == old(stack)@.last(),
{
    match stack.pop() {
        Some(t) => t,
        None => Vec::new(),
    }
}

/// Appends `x` to the innermost open list.
fn push_to_top(stack: &mut Vec<Vec<List>>, x: List)
    requires
        old(stack)@.len() >= 1,
    ensures
        stack_view(final(stack)@) == push_top(stack_view(old(stack)@), x@),
        final(stack)@.len() == old(stack)@.len(),
{
    let mut top = pop_top(stack);
    let ghost old_top = top@;
    top.push(x);
    stack.push(top);
    proof {
        assert(top@.drop_last() == old_top);
        assert(lists_view(top@) == lists_view(old_top).push(x@));
        assert(stack_view(final(stack)@) =~= push_top(stack_view(old(stack)@), x@));
    }
}

impl List {
    /// Decodes a list: the elements up to the END tag that closes it, or up
    /// to the end of the input, which closes every open list.
    pub fn from_buf(r: &mut Reader) -> (res: Result<Vec<List>, Error>)
        ensures
            final(r).data() == old(r).data(),
            old(r).pos() <= final(r).pos() <= final(r).data().len(),
            lists_outcome(res, old(r).pos(), final(r).pos(), p_list(old(r).data(), old(r).pos())),
    {
        let start = r.position_in_bounds();
        let ghost s = r.data();
        let mut stack: Vec<Vec<List>> = Vec::new();
        stack.push(Vec::new());
        proof {
            assert(stack_view(stack@) =~= seq![seq![]]);
        }
        loop
            invariant
                r.data() == s,
                s == old(r).data(),
                start == old(r).pos(),
                start <= r.pos() <= s.len(),
                stack@.len() >= 1,
                p_list_from(s, r.pos(), stack_view(stack@)) == p_list(s, start as int),
            decreases s.len() - r.pos(),
        {
            let p = r.position_in_bounds();
            let t = match r.u8() {
                Ok(b) => b,
                Err(_) => {
                    let ghost st0 = stack_view(stack@);
                    while stack.len() > 1
                        invariant
                            stack@.len() >= 1,
                            close_all(stack_view(stack@)) == close_all(st0),
                        decreases stack@.len(),
                    {
                        let ghost before = stack_view(stack@);
                        let top = pop_top(&mut stack);
                        proof {
                            assert(before == stack_view(stack@).push(lists_view(top@)));
                            lemma_close_top(stack_view(stack@), lists_view(top@));
                        }
                        push_to_top(&mut stack, List::Ttol(top));
                    }
                    let outer = pop_top(&mut stack);
                    return Ok(outer);
                }
            };
            if t == T_END {
                if stack.len() > 1 {
                    let ghost before = stack_view(stack@);
                    let top = pop_top(&mut stack);
                    proof {
                        assert(before == stack_view(stack@).push(lists_view(top@)));
                        lemma_close_top(stack_view(stack@), lists_view(top@));
                    }
                    push_to_top(&mut stack, List::Ttol(top));
                } else {
                    let outer = pop_top(&mut stack);
                    return Ok(outer);
                }
            } else if t == T_TTOL {
                let ghost before = stack_view(stack@);
                stack.push(Vec::new());
                proof {
                    assert(stack_view(stack@) =~= before.push(seq![]));
                }
            } else {
                match elem_from_buf(r, t) {
                    Ok(x) => {
                        push_to_top(&mut stack, x);
                    }
                    Err(e) => {
                        r.seek(start);
                        return Err(e);
                    }
                }
            }
        }
    }
}

// ---------------------------------------------------------------------------
// Lenient decoding

/// The tags that the list format defines.
pub open spec fn known_tag(t: u8) -> bool {
    t == T_END || t == T_INT || t == T_STR || t == T_COORD || t == T_UINT8 || t == T_UINT16
        || t == T_COLOR || t == T_TTOL || t == T_INT8 || t == T_INT16 || t == T_NIL
        || t == T_BYTES || t == T_FLOAT32 || t == T_FLOAT64
}

/// Decoding as `p_list_from`, except that a tag the format does not define
/// ends the reading: it is consumed, and the outermost list, as far as it
/// was read, is the result (lists still open inside it are dropped); and a
/// string tag at the very end of the input is an empty string.
pub open spec fn p_list_lenient_from(s: Seq<u8>, p: int, stack: Seq<Seq<ListV>>) -> PRes<Seq<ListV>>
    decreases s.len() - p,
{
    if p < 0 || p >= s.len() {
        Ok((close_all(stack), p))
    } else if s[p] == T_END {
        if stack.len() > 1 {
            p_list_lenient_from(s, p + 1, close_top(stack))
        } else {
            Ok((close_all(stack), p + 1))
        }
    } else if s[p] == T_TTOL {
        p_list_lenient_from(s, p + 1, stack.push(seq![]))
    } else if !known_tag(s[p]) {
        Ok((stack[0], p + 1))
    } else if s[p] == T_STR && p + 1 >= s.len() {
        p_list_lenient_from(s, p + 1, push_top(stack, ListV::Str(seq![])))
    } else {
        match p_elem(s, p + 1, s[p]) {
            Err(e) => Err(e),
            Ok((x, q)) => if p < q <= s.len() {
                p_list_lenient_from(s, q, push_top(stack, x))
            } else {
                Err(ErrorKind::Eof)
            },
        }
    }
}

/// Lenient decoding of a list at position `p`.
pub open spec fn p_list_lenient(s: Seq<u8>, p: int) -> PRes<Seq<ListV>> {
    p_list_lenient_from(s, p, seq![seq![]])
}

/// Whether `t` is a tag of the list format.
fn is_known_tag(t: u8) -> (b: bool)
    ensures
        b == known_tag(t),
{
    t == T_END || t == T_INT || t == T_STR || t == T_COORD || t == T_UINT8 || t == T_UINT16
        || t == T_COLOR || t == T_TTOL || t == T_INT8 || t == T_INT16 || t == T_NIL
        || t == T_BYTES || t == T_FLOAT32 || t == T_FLOAT64
}

/// Decodes a list as `List::from_buf` does, but stops at a tag that the
/// format does not define: that tag is consumed and the elements of the
/// outermost list read so far are returned.
pub fn read_list(r: &mut Reader) -> (res: Result<Vec<List>, Error>)
    ensures
        final(r).data() == old(r).data(),
        old(r).pos() <= final(r).pos() <= final(r).data().len(),
        lists_outcome(res, old(r).pos(), final(r).pos(), p_list_lenient(old(r).data(), old(r).pos())),
{
    let start = r.position_in_bounds();
    let ghost s = r.data();
    let mut stack: Vec<Vec<List>> = Vec::new();
    stack.push(Vec::new());
    proof {
        assert(stack_view(stack@) =~= seq![seq![]]);
    }
    loop
        invariant
            r.data() == s,
            s == old(r).data(),
            start == old(r).pos(),
            start <= r.pos() <= s.len(),
            stack@.len() >= 1,
            p_list_lenient_from(s, r.pos(), stack_view(stack@)) == p_list_lenient(s, start as int),
        decreases s.len() - r.pos(),
    {
        let p = r.position_in_bounds();
        let t = match r.u8() {
            Ok(b) => b,
            Err(_) => {
                let ghost st0 = stack_view(stack@);
                while stack.len() > 1
                    invariant
                        stack@.len() >= 1,
                        close_all(stack_view(stack@)) == close_all(st0),
                    decreases stack@.len(),
                {
                    let ghost before = stack_view(stack@);
                    let top = pop_top(&mut stack);
                    proof {
                        assert(before == stack_view(stack@).push(lists_view(top@)));
                        lemma_close_top(stack_view(stack@), lists_view(top@));
                    }
                    push_to_top(&mut stack, List::Ttol(top));
                }
                let outer = pop_top(&mut stack);
                return Ok(outer);
            }
        };
        if t == T_END {
            if stack.len() > 1 {
                let ghost before = stack_view(stack@);
                let top = pop_top(&mut stack);
                proof {
                    assert(before == stack_view(stack@).push(lists_view(top@)));
                    lemma_close_top(stack_view(stack@), lists_view(top@));
                }
                push_to_top(&mut stack, List::Ttol(top));
            } else {
                let outer = pop_top(&mut stack);
                return Ok(outer);
            }
        } else if t == T_TTOL {
            let ghost before = stack_view(stack@);
            stack.push(Vec::new());
            proof {
                assert(stack_view(stack@) =~= before.push(seq![]));
            }
        } else if t == T_STR && r.is_empty() {
            push_to_top(&mut stack, List::Str(String::new()));
        } else if !is_known_tag(t) {
            let ghost before = stack_view(stack@);
            stack.truncate(1);
            let outer = pop_top(&mut stack);
            proof {
                assert(lists_view(outer@) == before[0]);
            }
            return Ok(outer);
        } else {
            match elem_from_buf(r, t) {
                Ok(x) => {
                    push_to_top(&mut stack, x);
                }
                Err(e) => {
                    r.seek(start);
                    return Err(e);
                }
            }
        }
    }
}

// ---------------------------------------------------------------------------
// Encoding

/// Elements that have an encoding: all but TTOL and BYTES.
pub open spec fn encodable(x: ListV) -> bool {
    !(x is Ttol) && !(x is Bytes)
}

/// The bytes of one encodable element: its tag followed by its value.
pub open spec fn elem_bytes(x: ListV) -> Seq<u8> {
    match x {
        ListV::Int(i) => seq![T_INT] + bytes32(unsigned_of(i as int, 0x1_0000_0000)),
        ListV::Str(s) => seq![T_STR] + strz_bytes(s),
        ListV::Coord((a, b)) => seq![T_COORD] + coord_bytes(a, b),
        ListV::Uint8(u) => seq![T_UINT8, u],
        ListV::Uint16(u) => seq![T_UINT16] + bytes16(u as int),
        ListV::Color((r, g, b, a)) => seq![T_COLOR, r, g, b, a],
        ListV::Int8(i) => seq![T_INT8, unsigned_of(i as int, 0x100) as u8],
        ListV::Int16(i) => seq![T_INT16] + bytes16(unsigned_of(i as int, 0x10000)),
        ListV::Nil => seq![T_NIL],
        ListV::Float32(f) => seq![T_FLOAT32] + bytes32(f as int),
        ListV::Float64(f) => seq![T_FLOAT64] + bytes64(f as int),
        _ => seq![],
    }
}

/// The bytes of a sequence of elements, without the closing END tag.
pub open spec fn items_bytes(xs: Seq<ListV>) -> Seq<u8>
    decreases xs.len(),
{
    if xs.len() == 0 {
        seq![]
    } else {
        elem_bytes(xs[0]) + items_bytes(xs.drop_first())
    }
}

/// The bytes of an encodable list: its elements and the END tag.
pub open spec fn list_bytes(xs: Seq<ListV>) -> Seq<u8> {
    items_bytes(xs).push(T_END)
}

pub open spec fn all_encodable(xs: Seq<ListV>) -> bool {
    forall|i: int| 0 <= i < xs.len() ==> encodable(#[trigger] xs[i])
}

pub proof fn lemma_items_bytes_push(xs: Seq<ListV>, x: ListV)
    ensures
        items_bytes(xs.push(x)) == items_bytes(xs) + elem_bytes(x),
    decreases xs.len(),
{
    if xs.len() == 0 {
        assert(xs.push(x).drop_first() =~= Seq::<ListV>::empty());
        assert(items_bytes(xs.push(x).drop_first()) == Seq::<u8>::empty());
        assert(items_bytes(xs.push(x)) =~= elem_bytes(x));
    } else {
        assert(xs.push(x).drop_first() =~= xs.drop_first().push(x));
        lemma_items_bytes_push(xs.drop_first(), x);
        assert(items_bytes(xs.push(x)) =~= items_bytes(xs) + elem_bytes(x));
    }
}

impl List {
    /// Appends the encoding of this element to `w`; TTOL and BYTES elements
    /// have none and are refused.
    pub fn to_buf(&self, w: &mut Vec<u8>) -> (res: Result<(), Error>)
        ensures
            res is Ok <==> encodable(self@),
            res is Ok ==> final(w)@ == old(w)@ + elem_bytes(self@),
            res matches Err(e) ==> e.kind == ErrorKind::NotImplemented && final(w)@ == old(w)@,
    {
        match self {
            List::Int(i) => {
                put_u8(w, T_INT);
                put_i32(w, *i);
            },
            List::Str(s) => {
                put_u8(w, T_STR);
                put_strz(w, s.as_str());
            },
            List::Coord((x, y)) => {
                put_u8(w, T_COORD);
                put_coord(w, *x, *y);
            },
            List::Uint8(u) => {
                put_u8(w, T_UINT8);
                put_u8(w, *u);
            },
            List::Uint16(u) => {
                put_u8(w, T_UINT16);
                put_u16(w, *u);
            },
            List::Color((r, g, b, a)) => {
                put_u8(w, T_COLOR);
                put_color(w, *r, *g, *b, *a);
            },
            List::Ttol(_) => {
                return Err(Error::of(ErrorKind::NotImplemented));
            },
            List::Int8(i) => {
                put_u8(w, T_INT8);
                put_i8(w, *i);
            },
            List::Int16(i) => {
                put_u8(w, T_INT16);
                put_i16(w, *i);
            },
            List::Nil => {
                put_u8(w, T_NIL);
            },
            List::Bytes(_) => {
                return Err(Error::of(ErrorKind::NotImplemented));
            },
            List::Float32(f) => {
                put_u8(w, T_FLOAT32);
                put_u32(w, *f);
            },
            List::Float64(f) => {
                put_u8(w, T_FLOAT64);
                put_u64(w, *f);
            },
        }
        assert(final(w)@ =~= old(w)@ + elem_bytes(self@));
        Ok(())
    }
}

/// Appends the encoding of a list to `w`: each element, then the END tag.
/// The first element without encoding (TTOL or BYTES) stops the encoding
/// with an error, after the elements before it have been written.
pub fn list_to_buf(xs: &[List], w: &mut Vec<u8>) -> (res: Result<(), Error>)
    ensures
        res is Ok <==> all_encodable(lists_view(xs@)),
        res is Ok ==> final(w)@ == old(w)@ + list_bytes(lists_view(xs@)),
        res matches Err(e) ==> e.kind == ErrorKind::NotImplemented && exists|k: int|
            0 <= k < xs@.len() && !encodable(#[trigger] lists_view(xs@)[k]) && all_encodable(
                lists_view(xs@).take(k),
            ) && final(w)@ == old(w)@ + items_bytes(lists_view(xs@).take(k)),
{
    let ghost v = lists_view(xs@);
    proof { lemma_lists_view_len(xs@); }
    let mut i: usize = 0;
    while i < xs.len()
        invariant
            i <= xs@.len(),
            v == lists_view(xs@),
            v.len() == xs@.len(),
            all_encodable(v.take(i as int)),
            w@ == old(w)@ + items_bytes(v.take(i as int)),
        decreases xs@.len() - i,
    {
        proof { lemma_lists_view_index(xs@, i as int); }
        match xs[i].to_buf(w) {
            Ok(()) => {},
            Err(e) => {
                proof {
                    assert(!encodable(v[i as int]));
                }
                return Err(e);
            },
        }
        proof {
            assert(v.take(i as int + 1) == v.take(i as int).push(v[i as int]));
            lemma_items_bytes_push(v.take(i as int), v[i as int]);
        }
        i = i + 1;
    }
    assert(v.take(i as int) == v);
    put_u8(w, T_END);
    Ok(())
}

pub proof fn lemma_lists_view_len(v: Seq<List>)
    ensures
        lists_view(v).len() == v.len(),
    decreases v.len(),
{
    if v.len() > 0 {
        assert(lists_view(v) == lists_view(v.drop_last()).push(v.last()@));
        lemma_lists_view_len(v.drop_last());
    }
}

pub proof fn lemma_lists_view_index(v: Seq<List>, i: int)
    requires
        0 <= i < v.len(),
    ensures
        lists_view(v)[i] == v[i]@,
    decreases v.len(),
{
    lemma_lists_view_len(v.drop_last());
    assert(lists_view(v) == lists_view(v.drop_last()).push(v.last()@));
    if i < v.len() - 1 {
        lemma_lists_view_index(v.drop_last(), i);
    }
}

// ---------------------------------------------------------------------------
// Decoding what was encoded

/// Strings whose UTF-8 encoding holds no zero byte, which would end them
/// early on the wire.
pub open spec fn nul_free(x: ListV) -> bool {
    x matches ListV::Str(t) ==> !encode_utf8(t).contains(0u8)
}

pub open spec fn all_nul_free(xs: Seq<ListV>) -> bool {
    forall|i: int| 0 <= i < xs.len() ==> nul_free(#[trigger] xs[i])
}

proof fn lemma_sub(s: Seq<u8>, p: int, a: Seq<u8>, b: Seq<u8>)
    requires
        0 <= p,
        p + a.len() + b.len() <= s.len(),
        s.subrange(p, p + a.len() + b.len()) == a + b,
    ensures
        s.subrange(p, p + a.len()) == a,
        s.subrange(p + a.len(), p + a.len() + b.len()) == b,
{
    assert(s.subrange(p, p + a.len()) =~= (a + b).subrange(0, a.len() as int));
    assert(s.subrange(p + a.len(), p + a.len() + b.len()) =~= (a + b).subrange(
        a.len() as int,
        (a.len() + b.len()) as int,
    ));
}

proof fn lemma_u32_roundtrip(s: Seq<u8>, p: int, i: i32)
    requires
        0 <= p,
        p + 4 <= s.len(),
        s.subrange(p, p + 4) == bytes32(unsigned_of(i as int, 0x1_0000_0000)),
    ensures
        p_i32(s, p) == Ok::<(i32, int), ErrorKind>((i, p + 4)),
{
    lemma_le32_bytes32(unsigned_of(i as int, 0x1_0000_0000), s, p);
}

/// An encoded element decodes to itself.
#[verifier::rlimit(60)]
#[verifier::spinoff_prover]
pub proof fn lemma_elem_roundtrip(s: Seq<u8>, p: int, x: ListV)
    requires
        encodable(x),
        nul_free(x),
        0 <= p,
        p + elem_bytes(x).len() <= s.len(),
        s.subrange(p, p + elem_bytes(x).len()) == elem_bytes(x),
    ensures
        elem_bytes(x).len() >= 1,
        s[p] == elem_bytes(x)[0],
        s[p] != T_END,
        s[p] != T_TTOL,
        p_elem(s, p + 1, s[p]) == Ok::<(ListV, int), ErrorKind>((x, p + elem_bytes(x).len())),
{
    let e = elem_bytes(x);
    assert(s[p] == s.subrange(p, p + e.len())[0]);
    let tag = seq![e[0]];
    assert(e == tag + e.subrange(1, e.len() as int));
    lemma_sub(s, p, tag, e.subrange(1, e.len() as int));
    let body = e.subrange(1, e.len() as int);
    match x {
        ListV::Int(i) => {
            assert(body == bytes32(unsigned_of(i as int, 0x1_0000_0000)));
            lemma_u32_roundtrip(s, p + 1, i);
        },
        ListV::Str(t) => {
            let enc = encode_utf8(t);
            assert(body == enc.push(0u8));
            let e_at = p + 1 + enc.len();
            assert(s[e_at] == body[enc.len() as int]);
            assert forall|j: int| p + 1 <= j < e_at implies s[j] != 0 by {
                assert(s[j] == body[j - p - 1]);
                assert(body[j - p - 1] == enc[j - p - 1]);
                if s[j] == 0 {
                    assert(enc.contains(0u8));
                }
            }
            lemma_find_nul_at(s, p + 1, e_at);
            assert(s.subrange(p + 1, e_at) =~= enc);
            vstd::utf8::encode_utf8_valid_utf8(t);
            vstd::utf8::encode_utf8_decode_utf8(t);
        },
        ListV::Coord((a, b)) => {
            let ba = bytes32(unsigned_of(a as int, 0x1_0000_0000));
            let bb = bytes32(unsigned_of(b as int, 0x1_0000_0000));
            assert(body == ba + bb);
            lemma_sub(s, p + 1, ba, bb);
            lemma_u32_roundtrip(s, p + 1, a);
            lemma_u32_roundtrip(s, p + 5, b);
        },
        ListV::Uint8(u) => {
            assert(s[p + 1] == body[0]);
        },
        ListV::Uint16(u) => {
            assert(body == bytes16(u as int));
            lemma_le16_bytes16(u as int, s, p + 1);
        },
        ListV::Color((r, g, b, a)) => {
            assert(s[p + 1] == body[0]);
            assert(s[p + 2] == body[1]);
            assert(s[p + 3] == body[2]);
            assert(s[p + 4] == body[3]);
        },
        ListV::Int8(i) => {
            assert(s[p + 1] == body[0]);
        },
        ListV::Int16(i) => {
            assert(body == bytes16(unsigned_of(i as int, 0x10000)));
            lemma_le16_bytes16(unsigned_of(i as int, 0x10000), s, p + 1);
        },
        ListV::Nil => {},
        ListV::Float32(f) => {
            assert(body == bytes32(f as int));
            lemma_le32_bytes32(f as int, s, p + 1);
        },
        ListV::Float64(f) => {
            assert(body == bytes64(f as int));
            lemma_le64_bytes64(f as int, s, p + 1);
        },
        _ => {},
    }
}

pub proof fn lemma_list_from_items(s: Seq<u8>, p: int, acc: Seq<ListV>, xs: Seq<ListV>)
    requires
        all_encodable(xs),
        all_nul_free(xs),
        0 <= p,
        p + list_bytes(xs).len() <= s.len(),
        s.subrange(p, p + list_bytes(xs).len()) == list_bytes(xs),
    ensures
        p_list_from(s, p, seq![acc]) == Ok::<(Seq<ListV>, int), ErrorKind>(
            (acc + xs, p + list_bytes(xs).len()),
        ),
    decreases xs.len(),
{
    if xs.len() == 0 {
        assert(list_bytes(xs) == seq![T_END]);
        assert(s[p] == s.subrange(p, p + 1)[0]);
        assert(acc + xs =~= acc);
    } else {
        let x = xs[0];
        let rest = xs.drop_first();
        assert(encodable(x) && nul_free(x));
        assert(list_bytes(xs) =~= elem_bytes(x) + list_bytes(rest));
        lemma_sub(s, p, elem_bytes(x), list_bytes(rest));
        lemma_elem_roundtrip(s, p, x);
        let q = p + elem_bytes(x).len();
        assert(push_top(seq![acc], x) =~= seq![acc.push(x)]);
        assert forall|i: int| 0 <= i < rest.len() implies encodable(#[trigger] rest[i]) && nul_free(
            rest[i],
        ) by {
            assert(rest[i] == xs[i + 1]);
        }
        lemma_list_from_items(s, q, acc.push(x), rest);
        assert(acc.push(x) + rest =~= acc + xs);
    }
}

/// A list that `list_to_buf` encodes decodes back to itself, whatever
/// follows it: the list codec round-trips.
pub proof fn lemma_list_roundtrip(xs: Seq<ListV>, rest: Seq<u8>)
    requires
        all_encodable(xs),
        all_nul_free(xs),
    ensures
        p_list(list_bytes(xs) + rest, 0) == Ok::<(Seq<ListV>, int), ErrorKind>(
            (xs, list_bytes(xs).len() as int),
        ),
{
    let s = list_bytes(xs) + rest;
    assert(s.subrange(0, list_bytes(xs).len() as int) =~= list_bytes(xs));
    lemma_list_from_items(s, 0, seq![], xs);
    assert(Seq::<ListV>::empty() + xs =~= xs);
}

/// An encoded list decodes to itself at any position.
pub proof fn lemma_list_at(s: Seq<u8>, p: int, xs: Seq<ListV>)
    requires
        all_encodable(xs),
        all_nul_free(xs),
        0 <= p,
        p + list_bytes(xs).len() <= s.len(),
        s.subrange(p, p + list_bytes(xs).len()) == list_bytes(xs),
    ensures
        p_list(s, p) == Ok::<(Seq<ListV>, int), ErrorKind>((xs, p + list_bytes(xs).len())),
{
    lemma_list_from_items(s, p, seq![], xs);
    assert(Seq::<ListV>::empty() + xs =~= xs);
}

} // verus!

verus! {

// ---------------------------------------------------------------------------
// Skipping a list

/// The position after the first zero byte at or after `p`, or the end.
pub open spec fn past_nul(s: Seq<u8>, p: int) -> int {
    if find_nul(s, p) >= 0 {
        find_nul(s, p) + 1
    } else {
        s.len() as int
    }
}

/// The size of the value of a tag whose value has a fixed size.
pub open spec fn fixed_size(t: u8) -> Option<int> {
    if t == T_INT || t == T_COLOR || t == T_FLOAT32 {
        Some(4)
    } else if t == T_COORD || t == T_FLOAT64 {
        Some(8)
    } else if t == T_UINT8 || t == T_INT8 {
        Some(1)
    } else if t == T_UINT16 || t == T_INT16 {
        Some(2)
    } else {
        None
    }
}

/// Where skipping a list that is `deep` lists down, from `p`, stops: after
/// the END tag of the outermost list, at the end of the input, or after an
/// unknown tag. None where a value is cut short or a byte string has a
/// negative length, on which the skip cannot go on.
pub open spec fn sublist_end(s: Seq<u8>, p: int, deep: nat) -> Option<int>
    decreases s.len() - p,
{
    if p < 0 || p >= s.len() {
        Some(p)
    } else {
        let t = s[p];
        let p1 = p + 1;
        if t == T_END {
            if deep == 0 {
                Some(p1)
            } else {
                sublist_end(s, p1, (deep - 1) as nat)
            }
        } else if t == T_TTOL {
            sublist_end(s, p1, deep + 1)
        } else if t == T_NIL {
            sublist_end(s, p1, deep)
        } else if t == T_STR {
            let q = past_nul(s, p1);
            if p < q <= s.len() {
                sublist_end(s, q, deep)
            } else {
                None
            }
        } else if t == T_BYTES {
            if p1 >= s.len() {
                None
            } else if s[p1] & 128 != 0 {
                match p_i32(s, p1 + 1) {
                    Err(_) => None,
                    Ok((m, p3)) => if m < 0 || p3 + m > s.len() {
                        None
                    } else {
                        sublist_end(s, p3 + m, deep)
                    },
                }
            } else if p1 + 1 + s[p1] > s.len() {
                None
            } else {
                sublist_end(s, p1 + 1 + s[p1], deep)
            }
        } else {
            match fixed_size(t) {
                Some(k) => if p1 + k > s.len() {
                    None
                } else {
                    sublist_end(s, p1 + k, deep)
                },
                None => Some(p1),
            }
        }
    }
}

proof fn lemma_past_nul(s: Seq<u8>, p: int)
    requires
        0 <= p,
    ensures
        p <= past_nul(s, p) <= s.len() || (p > s.len() && past_nul(s, p) == s.len()),
    decreases s.len() - p,
{
    crate::codec::lemma_find_nul(s, p);
}

/// Skipping over the encoding of one element lands right after it.
proof fn lemma_elem_skip(s: Seq<u8>, p: int, x: ListV, d: nat)
    requires
        0 <= p,
        encodable(x),
        nul_free(x),
        p + elem_bytes(x).len() <= s.len(),
        s.subrange(p, p + elem_bytes(x).len()) == elem_bytes(x),
    ensures
        sublist_end(s, p, d) == sublist_end(s, p + elem_bytes(x).len(), d),
{
    let e = elem_bytes(x);
    assert(s[p] == e[0]);
    if let ListV::Str(t) = x {
        let enc = encode_utf8(t);
        let z = p + 1 + enc.len();
        assert(e =~= seq![T_STR] + enc.push(0u8));
        assert(s[z] == e[z - p]);
        assert forall|j: int| p + 1 <= j < z implies s[j] != 0 by {
            assert(s[j] == e[j - p]);
            assert(e[j - p] == enc[j - p - 1]);
            if s[j] == 0 {
                assert(enc.contains(0u8));
            }
        }
        lemma_find_nul_at(s, p + 1, z);
    }
}

/// Skipping over the encoding of a sequence of elements lands right after
/// it.
proof fn lemma_items_skip(s: Seq<u8>, p: int, xs: Seq<ListV>, d: nat)
    requires
        0 <= p,
        all_encodable(xs),
        all_nul_free(xs),
        p + items_bytes(xs).len() <= s.len(),
        s.subrange(p, p + items_bytes(xs).len()) == items_bytes(xs),
    ensures
        sublist_end(s, p, d) == sublist_end(s, p + items_bytes(xs).len(), d),
    decreases xs.len(),
{
    if xs.len() > 0 {
        let a = elem_bytes(xs[0]);
        let b = items_bytes(xs.drop_first());
        assert(items_bytes(xs) == a + b);
        lemma_sub(s, p, a, b);
        assert(encodable(xs[0]) && nul_free(xs[0]));
        lemma_elem_skip(s, p, xs[0], d);
        assert forall|i: int| 0 <= i < xs.drop_first().len() implies encodable(#[trigger] xs.drop_first()[i]) && nul_free(xs.drop_first()[i]) by {
            assert(xs.drop_first()[i] == xs[i + 1]);
        }
        lemma_items_skip(s, p + a.len(), xs.drop_first(), d);
    }
}

/// Skipping a list stops right after its encoding: whatever follows it is
/// left unread.
pub proof fn lemma_sublist_skips_encoding(xs: Seq<ListV>, rest: Seq<u8>)
    requires
        all_encodable(xs),
        all_nul_free(xs),
    ensures
        sublist_end(list_bytes(xs) + rest, 0, 0) == Some(list_bytes(xs).len() as int),
{
    let s = list_bytes(xs) + rest;
    let n = items_bytes(xs).len() as int;
    assert(s.subrange(0, n) =~= items_bytes(xs));
    lemma_items_skip(s, 0, xs, 0);
    assert(s[n] == T_END);
}

/// Skips a list at the cursor, lists inside it included.
pub fn read_sublist(r: &mut Reader)
    requires
        sublist_end(old(r).data(), old(r).pos(), 0) is Some,
    ensures
        final(r).data() == old(r).data(),
        final(r).pos() == sublist_end(old(r).data(), old(r).pos(), 0)->0,
{
    let _ = r.position_in_bounds();
    let ghost s = r.data();
    let ghost target = sublist_end(s, r.pos(), 0);
    let mut deep: usize = 0;
    loop
        invariant
            r.data() == s,
            s == old(r).data(),
            r.pos() <= s.len(),
            deep <= r.pos(),
            target == sublist_end(old(r).data(), old(r).pos(), 0),
            target is Some,
            sublist_end(s, r.pos(), deep as nat) == target,
        decreases s.len() - r.pos(),
    {
        let p = r.position_in_bounds();
        let t = match r.u8() {
            Ok(b) => b,
            Err(_) => {
                return;
            },
        };
        let p1 = r.position();
        assert(p1 == p + 1);
        if t == T_END {
            if deep == 0 {
                return;
            }
            deep = deep - 1;
        } else if t == T_TTOL {
            deep = deep + 1;
        } else if t == T_NIL {
        } else if t == T_STR {
            proof {
                lemma_past_nul(s, p1 as int);
            }
            loop
                invariant_except_break
                    past_nul(s, p1 as int) == past_nul(s, r.pos()),
                invariant
                    r.data() == s,
                    p < r.pos() <= s.len(),
                ensures
                    r.pos() == past_nul(s, p1 as int),
                decreases s.len() - r.pos(),
            {
                let q = r.position_in_bounds();
                match r.u8() {
                    Ok(0) => {
                        proof {
                            crate::codec::lemma_find_nul_at(s, q as int, q as int);
                        }
                        break;
                    },
                    Ok(_) => {},
                    Err(_) => {
                        break;
                    },
                }
            }
        } else if t == T_BYTES {
            let n = match r.u8() {
                Ok(n) => n,
                Err(_) => {
                    return;
                },
            };
            if n & 128 != 0 {
                let m = match r.i32() {
                    Ok(m) => m,
                    Err(_) => {
                        return;
                    },
                };
                if m < 0 {
                    return;
                }
                let _ = r.read_exact(m as usize);
            } else {
                let _ = r.read_exact(n as usize);
            }
        } else if t == T_INT || t == T_COLOR || t == T_FLOAT32 {
            let _ = r.read_exact(4);
        } else if t == T_COORD || t == T_FLOAT64 {
            let _ = r.read_exact(8);
        } else if t == T_UINT8 || t == T_INT8 {
            let _ = r.read_exact(1);
        } else if t == T_UINT16 || t == T_INT16 {
            let _ = r.read_exact(2);
        } else {
            return;
        }
    }
}

/// Where strict decoding succeeds, lenient decoding gives the same: the two
/// differ only on an undefined tag and on a string tag at the very end,
/// on both of which strict decoding fails.
pub proof fn lemma_lenient_agrees(s: Seq<u8>, p: int, stack: Seq<Seq<ListV>>)
    requires
        stack.len() >= 1,
        p_list_from(s, p, stack) is Ok,
    ensures
        p_list_lenient_from(s, p, stack) == p_list_from(s, p, stack),
    decreases s.len() - p,
{
    if 0 <= p < s.len() {
        let t = s[p];
        if t == T_END {
            if stack.len() > 1 {
                lemma_lenient_agrees(s, p + 1, close_top(stack));
            }
        } else if t == T_TTOL {
            lemma_lenient_agrees(s, p + 1, stack.push(seq![]));
        } else {
            if !known_tag(t) {
                assert(p_elem(s, p + 1, t) is Err);
            } else if t == T_STR && p + 1 >= s.len() {
                assert(p_elem(s, p + 1, t) is Err);
            } else {
                match p_elem(s, p + 1, t) {
                    Err(_) => {},
                    Ok((x, q)) => if p < q <= s.len() {
                        lemma_lenient_agrees(s, q, push_top(stack, x));
                    },
                }
            }
        }
    }
}

/// A list that `list_to_buf` encodes is read back by `read_list` too,
/// whatever follows it, and the reading stops right after its END tag.
pub proof fn lemma_read_list_roundtrip(xs: Seq<ListV>, rest: Seq<u8>)
    requires
        all_encodable(xs),
        all_nul_free(xs),
    ensures
        p_list_lenient(list_bytes(xs) + rest, 0) == Ok::<(Seq<ListV>, int), ErrorKind>(
            (xs, list_bytes(xs).len() as int),
        ),
{
    lemma_list_roundtrip(xs, rest);
    lemma_lenient_agrees(list_bytes(xs) + rest, 0, seq![seq![]]);
}

/// Where the value after tag `t` decodes, skipping it lands where the
/// decoding stops.
proof fn lemma_elem_skip_decoded(s: Seq<u8>, p: int, t: u8, d: nat)
    requires
        0 <= p < s.len(),
        s[p] == t,
        t != T_END,
        t != T_TTOL,
        p_elem(s, p + 1, t) is Ok,
        p < p_elem(s, p + 1, t)->Ok_0.1 <= s.len(),
    ensures
        sublist_end(s, p, d) == sublist_end(s, p_elem(s, p + 1, t)->Ok_0.1, d),
{
    if t == T_STR {
        crate::codec::lemma_find_nul(s, p + 1);
    } else if t == T_BYTES {
        let b = s[p + 1];
        assert((b & 128u8 != 0) == (b >= 128u8)) by (bit_vector);
    }
}

/// Skipping a list stops where decoding it stops: for every list that
/// decodes, nested lists and byte strings included, `read_sublist` consumes
/// exactly the bytes that decoding reads.
pub proof fn lemma_sublist_skips_decoded(s: Seq<u8>, p: int, stack: Seq<Seq<ListV>>)
    requires
        0 <= p,
        stack.len() >= 1,
        p_list_from(s, p, stack) is Ok,
    ensures
        sublist_end(s, p, (stack.len() - 1) as nat) == Some(p_list_from(s, p, stack)->Ok_0.1),
    decreases s.len() - p,
{
    if p < s.len() {
        let t = s[p];
        if t == T_END {
            if stack.len() > 1 {
                lemma_sublist_skips_decoded(s, p + 1, close_top(stack));
            }
        } else if t == T_TTOL {
            lemma_sublist_skips_decoded(s, p + 1, stack.push(seq![]));
        } else {
            let (x, q) = p_elem(s, p + 1, t)->Ok_0;
            lemma_elem_skip_decoded(s, p, t, (stack.len() - 1) as nat);
            lemma_sublist_skips_decoded(s, q, push_top(stack, x));
        }
    }
}

/// A list that decodes at `p` is skipped exactly.
pub proof fn lemma_sublist_skips_list(s: Seq<u8>, p: int)
    requires
        0 <= p,
        p_list(s, p) is Ok,
    ensures
        sublist_end(s, p, 0) == Some(p_list(s, p)->Ok_0.1),
{
    lemma_sublist_skips_decoded(s, p, seq![seq![]]);
}

} // verus!
