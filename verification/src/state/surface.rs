//! A decoded map grid: its terrain, heights and plot overlay.
use vstd::prelude::*;
use crate::codec::{PRes, Reader, p_u8, p_i64, p_bytes, p_coord, p_strz, le16, signed16};
use crate::error::{Error, ErrorKind};

verus! {

/// Cells of a grid: 100 by 100.
pub const GRID_CELLS: usize = 10000;

/// A grid: its grid coordinates, name and id, and per cell the tile, the
/// height and the overlay bits of the plots that cover it.
#[derive(Debug)]
pub struct Surface {
    pub x: i32,
    pub y: i32,
    pub name: String,
    pub id: i64,
    pub tiles: Vec<u8>,
    pub z: Vec<i16>,
    pub ol: Vec<u8>,
}

pub struct SurfaceV {
    pub x: i32,
    pub y: i32,
    pub name: Seq<char>,
    pub id: i64,
    pub tiles: Seq<u8>,
    pub z: Seq<i16>,
    pub ol: Seq<u8>,
}

impl View for Surface {
    type V = SurfaceV;

    open spec fn view(&self) -> SurfaceV {
        SurfaceV {
            x: self.x,
            y: self.y,
            name: self.name@,
            id: self.id,
            tiles: self.tiles@,
            z: self.z@,
            ol: self.ol@,
        }
    }
}

/// What flate2's zlib decoder yields for `data` when read to the end:
/// the inflated bytes, or None where it reports an error.
pub uninterp spec fn zlib_inflate(data: Seq<u8>) -> Option<Seq<u8>>;

/// Inflates `data` with `flate2::read::ZlibDecoder`, read to its end with
/// `Read::read_to_end`. The contract claims only that the outcome is the
/// one named by `zlib_inflate` for these bytes.
#[verifier::external_body]
fn inflate(data: &[u8]) -> (res: Option<Vec<u8>>)
    ensures
        match zlib_inflate(data@) {
            Some(u) => res matches Some(v) && v@ == u,
            None => res is None,
        },
{
    let mut decoder = flate2::read::ZlibDecoder::new(data);
    let mut out: Vec<u8> = Vec::new();
    match std::io::Read::read_to_end(&mut decoder, &mut out) {
        Ok(_) => Some(out),
        Err(_) => None,
    }
}

// ---------------------------------------------------------------------------
// The format

/// 10000 little-endian i16 heights.
pub open spec fn p_heights(s: Seq<u8>, p: int) -> PRes<Seq<i16>> {
    if 0 <= p && p + 20000 <= s.len() {
        Ok((Seq::new(10000, |i: int| signed16(le16(s, p + 2 * i)) as i16), p + 20000))
    } else {
        Err(ErrorKind::Eof)
    }
}

/// The overlay bit of a plot of type `typ` whose flags are `fl`.
pub open spec fn plot_bit(typ: u8, fl: u8) -> Option<u8> {
    if typ == 0 {
        Some(if fl & 1 == 1 { 2u8 } else { 1u8 })
    } else if typ == 1 {
        Some(if fl & 1 == 1 { 8u8 } else { 4u8 })
    } else if typ == 2 {
        Some(16u8)
    } else {
        None
    }
}

/// The column of cell `i` counted from the start of row `y`.
pub open spec fn cell_col(i: int, y: int) -> int {
    i - 100 * y
}

/// Whether cell `i` is at some `(x, y)` with `x1 <= x <= x2` and
/// `y1 <= y <= y2`, the cell of `(x, y)` being `y * 100 + x`.
pub open spec fn in_rect(i: int, x1: int, y1: int, x2: int, y2: int) -> bool {
    exists|y: int| y1 <= y && y <= y2 && x1 <= #[trigger] cell_col(i, y) && cell_col(i, y) <= x2
}

/// A rectangle that is empty or whose last cell is in the grid.
pub open spec fn rect_fits(x1: int, y1: int, x2: int, y2: int) -> bool {
    x1 > x2 || y1 > y2 || y2 * 100 + x2 < 10000
}

/// The overlay with `bit` set in every cell of the rectangle.
pub open spec fn paint(ol: Seq<u8>, x1: u8, y1: u8, x2: u8, y2: u8, bit: u8) -> Seq<u8> {
    Seq::new(
        ol.len(),
        |i: int|
            if in_rect(i, x1 as int, y1 as int, x2 as int, y2 as int) {
                ol[i] | bit
            } else {
                ol[i]
            },
    )
}

/// The plots up to the index 255: each an index into the flags, a type and
/// a rectangle, painted in turn onto the overlay.
pub open spec fn p_plots(s: Seq<u8>, p: int, pfl: Seq<u8>, ol: Seq<u8>) -> PRes<Seq<u8>>
    decreases s.len() - p,
{
    match p_u8(s, p) {
        Err(e) => Err(e),
        Ok((pidx, p1)) => if pidx == 255 {
            Ok((ol, p1))
        } else {
            match p_u8(s, p1) {
                Err(e) => Err(e),
                Ok((typ, p2)) => match p_bytes(s, p2, 4) {
                    Err(e) => Err(e),
                    Ok((c, p3)) => match plot_bit(typ, pfl[pidx as int]) {
                        None => Err(ErrorKind::UnknownPlot),
                        Some(bit) => if !rect_fits(c[0] as int, c[1] as int, c[2] as int, c[3] as int) {
                            Err(ErrorKind::PlotRange)
                        } else {
                            p_plots(s, p3, pfl, paint(ol, c[0], c[1], c[2], c[3], bit))
                        },
                    },
                },
            }
        },
    }
}

/// The plot flags up to the index 255: pairs of an index and its flags.
pub open spec fn p_flags(s: Seq<u8>, p: int, pfl: Seq<u8>) -> PRes<Seq<u8>>
    decreases s.len() - p,
{
    match p_u8(s, p) {
        Err(e) => Err(e),
        Ok((pidx, p1)) => if pidx == 255 {
            Ok((pfl, p1))
        } else {
            match p_u8(s, p1) {
                Err(e) => Err(e),
                Ok((f, p2)) => p_flags(s, p2, pfl.update(pidx as int, f)),
            }
        },
    }
}

pub open spec fn no_flags() -> Seq<u8> {
    Seq::new(256, |i: int| 0u8)
}

pub open spec fn no_overlay() -> Seq<u8> {
    Seq::new(10000, |i: int| 0u8)
}

/// The inflated part of a grid at `p`: the id, the tiles, the heights and
/// the plots painted on an empty overlay.
pub open spec fn grid_body(s: Seq<u8>, p: int, pfl: Seq<u8>) -> Result<
    (i64, Seq<u8>, Seq<i16>, Seq<u8>),
    ErrorKind,
> {
    match p_i64(s, p) {
        Err(e) => Err(e),
        Ok((id, p1)) => match p_bytes(s, p1, 10000) {
            Err(e) => Err(e),
            Ok((tiles, p2)) => match p_heights(s, p2) {
                Err(e) => Err(e),
                Ok((z, p3)) => match p_plots(s, p3, pfl, no_overlay()) {
                    Err(e) => Err(e),
                    Ok((ol, _)) => Ok((id, tiles, z, ol)),
                },
            },
        },
    }
}

/// A grid packet: its coordinates, name and plot flags, then the zlib
/// stream of the rest.
pub open spec fn p_surface(s: Seq<u8>) -> Result<SurfaceV, ErrorKind> {
    match p_coord(s, 0) {
        Err(e) => Err(e),
        Ok(((x, y), p1)) => match p_strz(s, p1) {
            Err(e) => Err(e),
            Ok((name, p2)) => match p_flags(s, p2, no_flags()) {
                Err(e) => Err(e),
                Ok((pfl, p3)) => match zlib_inflate(s.subrange(p3, s.len() as int)) {
                    None => Err(ErrorKind::Inflate),
                    Some(u) => match grid_body(u, 0, pfl) {
                        Err(e) => Err(e),
                        Ok((id, tiles, z, ol)) => Ok(SurfaceV { x, y, name, id, tiles, z, ol }),
                    },
                },
            },
        },
    }
}

// ---------------------------------------------------------------------------
// Decoding

fn heights(r: &mut Reader) -> (res: Result<Vec<i16>, Error>)
    ensures
        final(r).data() == old(r).data(),
        match p_heights(old(r).data(), old(r).pos()) {
            Ok((v, p)) => res matches Ok(z) && z@ == v && final(r).pos() == p,
            Err(k) => res matches Err(e) && e.kind == k,
        },
{
    let start = r.position_in_bounds();
    let ghost s = r.data();
    let ghost p0 = r.pos();
    let mut z: Vec<i16> = Vec::new();
    let mut i: usize = 0;
    while i < GRID_CELLS
        invariant
            r.data() == s,
            s == old(r).data(),
            p0 == old(r).pos(),
            0 <= p0,
            i <= 10000,
            r.pos() == p0 + 2 * i,
            p0 + 2 * i <= s.len(),
            z@ == Seq::new(i as nat, |k: int| signed16(le16(s, p0 + 2 * k)) as i16),
        decreases 10000 - i,
    {
        let v = r.i16()?;
        z.push(v);
        i = i + 1;
        assert(z@ =~= Seq::new(i as nat, |k: int| signed16(le16(s, p0 + 2 * k)) as i16));
    }
    Ok(z)
}

proof fn lemma_or_twice(a: u8, b: u8)
    ensures
        (a | b) | b == a | b,
{
    assert((a | b) | b == a | b) by (bit_vector);
}

spec fn painted_rows(i: int, x1: int, y1: int, x2: int, ycur: int) -> bool {
    exists|y: int| y1 <= y && y < ycur && x1 <= #[trigger] cell_col(i, y) && cell_col(i, y) <= x2
}

spec fn painted(i: int, x1: int, y1: int, x2: int, ycur: int, xcur: int) -> bool {
    painted_rows(i, x1, y1, x2, ycur) || (x1 <= cell_col(i, ycur) && cell_col(i, ycur) < xcur)
}

/// Sets `bit` in every cell of the rectangle.
fn paint_rect(ol: &mut Vec<u8>, x1: u8, y1: u8, x2: u8, y2: u8, bit: u8)
    requires
        old(ol)@.len() == 10000,
        rect_fits(x1 as int, y1 as int, x2 as int, y2 as int),
    ensures
        final(ol)@ == paint(old(ol)@, x1, y1, x2, y2, bit),
{
    let ghost o = ol@;
    let ghost (a1, b1, a2, b2) = (x1 as int, y1 as int, x2 as int, y2 as int);
    if x1 > x2 || y1 > y2 {
        assert forall|i: int| !in_rect(i, a1, b1, a2, b2) by {}
        assert(ol@ =~= paint(o, x1, y1, x2, y2, bit));
        return;
    }
    let mut y: usize = y1 as usize;
    while y <= y2 as usize
        invariant
            ol@.len() == 10000,
            o.len() == 10000,
            a1 <= a2,
            b1 <= y <= b2 + 1,
            b2 * 100 + a2 < 10000,
            a1 == x1,
            a2 == x2,
            b1 == y1,
            b2 == y2,
            forall|i: int|
                0 <= i < 10000 ==> #[trigger] ol@[i] == if painted_rows(i, a1, b1, a2, y as int) {
                    o[i] | bit
                } else {
                    o[i]
                },
        decreases b2 + 1 - y,
    {
        let mut x: usize = x1 as usize;
        while x <= x2 as usize
            invariant
                ol@.len() == 10000,
                o.len() == 10000,
                b1 <= y <= b2,
                a1 <= x <= a2 + 1,
                b2 * 100 + a2 < 10000,
                a1 == x1,
                a2 == x2,
                b1 == y1,
                b2 == y2,
                forall|i: int|
                    0 <= i < 10000 ==> #[trigger] ol@[i] == if painted(
                        i,
                        a1,
                        b1,
                        a2,
                        y as int,
                        x as int,
                    ) {
                        o[i] | bit
                    } else {
                        o[i]
                    },
            decreases a2 + 1 - x,
        {
            assert(y * 100 + x <= b2 * 100 + a2) by (nonlinear_arith)
                requires
                    y <= b2,
                    x <= a2,
            ;
            let k = y * 100 + x;
            proof {
                lemma_or_twice(o[k as int], bit);
            }
            let v = ol[k] | bit;
            ol.set(k, v);
            let ghost xn = x + 1;
            assert forall|i: int| 0 <= i < 10000 implies #[trigger] ol@[i] == if painted(
                i,
                a1,
                b1,
                a2,
                y as int,
                xn,
            ) {
                o[i] | bit
            } else {
                o[i]
            } by {
                if i == k {
                    assert(cell_col(i, y as int) == x);
                } else {
                    assert(painted(i, a1, b1, a2, y as int, xn) == painted(
                        i,
                        a1,
                        b1,
                        a2,
                        y as int,
                        x as int,
                    ));
                }
            }
            x = x + 1;
        }
        let ghost yn = y + 1;
        assert forall|i: int| 0 <= i < 10000 implies #[trigger] ol@[i] == if painted_rows(
            i,
            a1,
            b1,
            a2,
            yn,
        ) {
            o[i] | bit
        } else {
            o[i]
        } by {
            if painted_rows(i, a1, b1, a2, yn) {
                let w = choose|w: int|
                    b1 <= w && w < yn && a1 <= #[trigger] cell_col(i, w) && cell_col(i, w) <= a2;
                if w < y {
                    assert(painted_rows(i, a1, b1, a2, y as int));
                }
            } else {
                if painted_rows(i, a1, b1, a2, y as int) {
                    let w = choose|w: int|
                        b1 <= w && w < y && a1 <= #[trigger] cell_col(i, w) && cell_col(i, w) <= a2;
                    assert(painted_rows(i, a1, b1, a2, yn));
                }
                if a1 <= cell_col(i, y as int) && cell_col(i, y as int) <= a2 {
                    assert(painted_rows(i, a1, b1, a2, yn));
                }
            }
        }
        y = y + 1;
    }
    assert forall|i: int|
        0 <= i < 10000 implies #[trigger] painted_rows(i, a1, b1, a2, b2 + 1) == in_rect(
        i,
        a1,
        b1,
        a2,
        b2,
    ) by {
        if painted_rows(i, a1, b1, a2, b2 + 1) {
            let w = choose|w: int|
                b1 <= w && w < b2 + 1 && a1 <= #[trigger] cell_col(i, w) && cell_col(i, w) <= a2;
            assert(in_rect(i, a1, b1, a2, b2));
        }
        if in_rect(i, a1, b1, a2, b2) {
            let w = choose|w: int|
                b1 <= w && w <= b2 && a1 <= #[trigger] cell_col(i, w) && cell_col(i, w) <= a2;
            assert(painted_rows(i, a1, b1, a2, b2 + 1));
        }
    }
    assert(ol@ =~= paint(o, x1, y1, x2, y2, bit));
}

fn bit_of_plot(typ: u8, fl: u8) -> (b: Option<u8>)
    ensures
        b == plot_bit(typ, fl),
{
    if typ == 0 {
        Some(if fl & 1 == 1 { 2u8 } else { 1u8 })
    } else if typ == 1 {
        Some(if fl & 1 == 1 { 8u8 } else { 4u8 })
    } else if typ == 2 {
        Some(16u8)
    } else {
        None
    }
}

fn plots(r: &mut Reader, pfl: &[u8], ol: &mut Vec<u8>) -> (res: Result<(), Error>)
    requires
        old(ol)@.len() == 10000,
        pfl@.len() >= 255,
    ensures
        final(r).data() == old(r).data(),
        match p_plots(old(r).data(), old(r).pos(), pfl@, old(ol)@) {
            Ok((v, p)) => res is Ok && final(ol)@ == v && final(r).pos() == p,
            Err(k) => res matches Err(e) && e.kind == k,
        },
{
    let _ = r.position_in_bounds();
    let ghost s = r.data();
    let ghost spec_res = p_plots(s, r.pos(), pfl@, ol@);
    loop
        invariant
            r.data() == s,
            s == old(r).data(),
            spec_res == p_plots(old(r).data(), old(r).pos(), pfl@, old(ol)@),
            r.pos() <= s.len(),
            ol@.len() == 10000,
            pfl@.len() >= 255,
            spec_res == p_plots(s, r.pos(), pfl@, ol@),
        decreases s.len() - r.pos(),
    {
        let pidx = r.u8()?;
        if pidx == 255 {
            return Ok(());
        }
        let fl = pfl[pidx as usize];
        let typ = r.u8()?;
        let c = r.read_exact(4)?;
        let (x1, y1, x2, y2) = (c[0], c[1], c[2], c[3]);
        let bit = match bit_of_plot(typ, fl) {
            Some(b) => b,
            None => {
                return Err(Error::of(ErrorKind::UnknownPlot));
            },
        };
        let fits = x1 > x2 || y1 > y2 || (y2 as usize) * 100 + (x2 as usize) < GRID_CELLS;
        if !fits {
            return Err(Error::of(ErrorKind::PlotRange));
        }
        paint_rect(ol, x1, y1, x2, y2, bit);
    }
}

fn flags(r: &mut Reader, pfl: &mut Vec<u8>) -> (res: Result<(), Error>)
    requires
        old(pfl)@.len() == 256,
    ensures
        final(r).data() == old(r).data(),
        final(pfl)@.len() == 256,
        match p_flags(old(r).data(), old(r).pos(), old(pfl)@) {
            Ok((v, p)) => res is Ok && final(pfl)@ == v && final(r).pos() == p,
            Err(k) => res matches Err(e) && e.kind == k,
        },
{
    let _ = r.position_in_bounds();
    let ghost s = r.data();
    let ghost spec_res = p_flags(s, r.pos(), pfl@);
    loop
        invariant
            r.data() == s,
            s == old(r).data(),
            spec_res == p_flags(old(r).data(), old(r).pos(), old(pfl)@),
            r.pos() <= s.len(),
            pfl@.len() == 256,
            spec_res == p_flags(s, r.pos(), pfl@),
        decreases s.len() - r.pos(),
    {
        let pidx = r.u8()?;
        if pidx == 255 {
            return Ok(());
        }
        let f = r.u8()?;
        pfl.set(pidx as usize, f);
    }
}

fn zeros(n: usize) -> (v: Vec<u8>)
    ensures
        v@ == Seq::new(n as nat, |i: int| 0u8),
{
    let mut v: Vec<u8> = Vec::new();
    let mut i: usize = 0;
    while i < n
        invariant
            i <= n,
            v@ == Seq::new(i as nat, |k: int| 0u8),
        decreases n - i,
    {
        v.push(0);
        i = i + 1;
        assert(v@ =~= Seq::new(i as nat, |k: int| 0u8));
    }
    v
}

impl Surface {
    /// Decodes the inflated part of a grid at the cursor: the id, 10000
    /// tiles, 10000 heights, then the plots, each painted with the flags
    /// `pfl` of its index. A plot rectangle that reaches past the last cell
    /// is refused.
    pub fn surface(r: &mut Reader, pfl: &[u8], x: i32, y: i32, name: String) -> (res: Result<
        Surface,
        Error,
    >)
        requires
            pfl@.len() >= 255,
        ensures
            final(r).data() == old(r).data(),
            match grid_body(old(r).data(), old(r).pos(), pfl@) {
                Ok((id, tiles, z, ol)) => res matches Ok(g) && g@ == (SurfaceV {
                    x,
                    y,
                    name: name@,
                    id,
                    tiles,
                    z,
                    ol,
                }),
                Err(k) => res matches Err(e) && e.kind == k,
            },
    {
        let id = r.i64()?;
        let tiles = r.read_exact(GRID_CELLS)?;
        let z = heights(r)?;
        let mut ol = zeros(GRID_CELLS);
        plots(r, pfl, &mut ol)?;
        Ok(Surface { x, y, name, id, tiles, z, ol })
    }

    /// Decodes a reassembled grid packet: the grid coordinates, the name,
    /// the plot flags, then the zlib stream that holds the rest.
    pub fn from_buf(buf: &[u8]) -> (res: Result<Surface, Error>)
        ensures
            match p_surface(buf@) {
                Ok(v) => res matches Ok(g) && g@ == v,
                Err(k) => res matches Err(e) && e.kind == k,
            },
    {
        let mut r = Reader::new(buf);
        let (x, y) = r.coord()?;
        let name = r.strz()?;
        let mut pfl = zeros(256);
        flags(&mut r, &mut pfl)?;
        let rest = r.read_to_end();
        let unzipped = match inflate(rest.as_slice()) {
            Some(u) => u,
            None => {
                return Err(Error::of(ErrorKind::Inflate));
            },
        };
        let mut ur = Reader::new(unzipped.as_slice());
        Self::surface(&mut ur, pfl.as_slice(), x, y, name)
    }
}

/// One plot on an empty overlay: the plot at `p` (flags index, type and
/// rectangle), followed by the end mark, marks every cell of its rectangle
/// with one bit and leaves every other cell empty. The bit tells the kind
/// of plot: type 0 gives 1, or 2 when bit 0 of its flags is set; type 1
/// gives 4, or 8 when bit 0 of its flags is set; type 2 gives 16.
pub proof fn lemma_one_plot(s: Seq<u8>, p: int, pfl: Seq<u8>)
    requires
        0 <= p,
        p + 7 <= s.len(),
        s[p] != 255,
        s[p + 1] <= 2,
        s[p + 6] == 255,
        pfl.len() == 256,
        rect_fits(s[p + 2] as int, s[p + 3] as int, s[p + 4] as int, s[p + 5] as int),
    ensures
        p_plots(s, p, pfl, no_overlay()) is Ok,
        p_plots(s, p, pfl, no_overlay())->Ok_0.1 == p + 7,
        p_plots(s, p, pfl, no_overlay())->Ok_0.0.len() == 10000,
        forall|i: int|
            0 <= i < 10000 ==> #[trigger] p_plots(s, p, pfl, no_overlay())->Ok_0.0[i] == if in_rect(
                i,
                s[p + 2] as int,
                s[p + 3] as int,
                s[p + 4] as int,
                s[p + 5] as int,
            ) {
                if s[p + 1] == 0 {
                    if pfl[s[p] as int] & 1 == 1 { 2u8 } else { 1u8 }
                } else if s[p + 1] == 1 {
                    if pfl[s[p] as int] & 1 == 1 { 8u8 } else { 4u8 }
                } else {
                    16u8
                }
            } else {
                0u8
            },
{
    let c = s.subrange(p + 2, p + 6);
    assert(c[0] == s[p + 2] && c[1] == s[p + 3] && c[2] == s[p + 4] && c[3] == s[p + 5]);
    let bit = plot_bit(s[p + 1], pfl[s[p] as int])->0;
    let ol = paint(no_overlay(), c[0], c[1], c[2], c[3], bit);
    assert(p_plots(s, p + 6, pfl, ol) == Ok::<(Seq<u8>, int), ErrorKind>((ol, p + 7)));
    assert(p_plots(s, p, pfl, no_overlay()) == p_plots(s, p + 6, pfl, ol));
    assert forall|i: int| 0 <= i < 10000 implies (#[trigger] ol[i]) == if in_rect(
        i,
        s[p + 2] as int,
        s[p + 3] as int,
        s[p + 4] as int,
        s[p + 5] as int,
    ) {
        bit
    } else {
        0u8
    } by {
        lemma_or_zero(bit);
    }
}

proof fn lemma_or_zero(b: u8)
    ensures
        (0u8 | b) == b,
{
    assert((0u8 | b) == b) by (bit_vector);
}

/// Reading the plot flags: a pair of an index and flags sets the flags at
/// that index, reading goes on after the pair, and indices not named keep
/// their flags.
pub proof fn lemma_flags_pair(s: Seq<u8>, p: int, pfl: Seq<u8>)
    requires
        0 <= p,
        p + 2 < s.len(),
        s[p] != 255,
        pfl.len() == 256,
    ensures
        p_flags(s, p, pfl) == p_flags(s, p + 2, pfl.update(s[p] as int, s[p + 1])),
        pfl.update(s[p] as int, s[p + 1])[s[p] as int] == s[p + 1],
        forall|i: int| 0 <= i < 256 && i != s[p] ==> #[trigger] pfl.update(s[p] as int, s[p + 1])[i] == pfl[i],
{
}

/// The end mark of the plot flags ends them at once.
pub proof fn lemma_flags_end(s: Seq<u8>, p: int, pfl: Seq<u8>)
    requires
        0 <= p < s.len(),
        s[p] == 255,
    ensures
        p_flags(s, p, pfl) == Ok::<(Seq<u8>, int), ErrorKind>((pfl, p + 1)),
{
}

} // verus!
