//! Map grids: the fragments of a grid packet, their reassembly, and the
//! grid coordinates of a world position.
use vstd::prelude::*;
use crate::state::session::copy_str;
use std::collections::HashMap;
use crate::codec::put_bytes;
use crate::proto::message_mapdata::{MapData, MapDataV};

verus! {

broadcast use vstd::std_specs::hash::group_hash_axioms;

/// Width of a grid in world units.
pub const GRID_UNITS: i64 = 1100;

/// Steps after which the walk over the fragments of a packet has visited
/// every possible offset.
pub const WALK_FUEL: u32 = 65536;

/// The fragments received so far of one grid packet, by offset.
pub struct MapPieces {
    pub total_len: u16,
    pub pieces: HashMap<u16, Vec<u8>>,
}

pub struct MapPiecesV {
    pub total_len: u16,
    pub pieces: Map<u16, Seq<u8>>,
}

pub open spec fn pieces_view(m: Map<u16, Vec<u8>>) -> Map<u16, Seq<u8>> {
    m.map_values(|v: Vec<u8>| v@)
}

impl View for MapPieces {
    type V = MapPiecesV;

    open spec fn view(&self) -> MapPiecesV {
        MapPiecesV { total_len: self.total_len, pieces: pieces_view(self.pieces@) }
    }
}

/// A grid that was received: its grid coordinates, name and id.
pub struct GridHint {
    pub xy: (i32, i32),
    pub name: String,
    pub id: i64,
}

pub struct GridHintV {
    pub xy: (i32, i32),
    pub name: Seq<char>,
    pub id: i64,
}

impl View for GridHint {
    type V = GridHintV;

    open spec fn view(&self) -> GridHintV {
        GridHintV { xy: self.xy, name: self.name@, id: self.id }
    }
}

/// The grid packets being received, by packet id, and the grids received.
pub struct GridMap {
    pub partial: HashMap<i32, MapPieces>,
    pub grids: Vec<GridHint>,
}

pub struct GridMapV {
    pub partial: Map<i32, MapPiecesV>,
    pub grids: Seq<GridHintV>,
}

pub open spec fn partial_view(m: Map<i32, MapPieces>) -> Map<i32, MapPiecesV> {
    m.map_values(|p: MapPieces| p@)
}

pub open spec fn grids_view(g: Seq<GridHint>) -> Seq<GridHintV> {
    g.map_values(|h: GridHint| h@)
}

impl View for GridMap {
    type V = GridMapV;

    open spec fn view(&self) -> GridMapV {
        GridMapV { partial: partial_view(self.partial@), grids: grids_view(self.grids@) }
    }
}

// ---------------------------------------------------------------------------
// The model of reassembly

/// The packet after the fragment `d` was stored: a packet seen for the first
/// time takes its total length from `d`; a fragment at an offset that was
/// already filled replaces the earlier one.
pub open spec fn map_append(m: GridMapV, d: MapDataV) -> GridMapV {
    let base = if m.partial.contains_key(d.pktid) {
        m.partial[d.pktid]
    } else {
        MapPiecesV { total_len: d.len, pieces: Map::empty() }
    };
    GridMapV {
        partial: m.partial.insert(
            d.pktid,
            MapPiecesV { total_len: base.total_len, pieces: base.pieces.insert(d.off, d.buf) },
        ),
        grids: m.grids,
    }
}

/// The offset that follows a fragment of `n` bytes at `off`, counted in 16
/// bits as the protocol counts offsets.
pub open spec fn next_offset(off: u16, n: int) -> u16 {
    ((off + n) % 0x10000) as u16
}

/// Whether the chain of fragments that starts at `off` ends exactly at the
/// packet's total length within `fuel` fragments.
pub open spec fn reaches(p: MapPiecesV, off: u16, fuel: nat) -> bool
    decreases fuel,
{
    if fuel == 0 || !p.pieces.contains_key(off) {
        false
    } else {
        let nx = next_offset(off, p.pieces[off].len() as int);
        nx == p.total_len || reaches(p, nx, (fuel - 1) as nat)
    }
}

/// The bytes of the chain of fragments that starts at `off`, up to the
/// fragment that ends at the total length or to the first missing offset.
pub open spec fn gather(p: MapPiecesV, off: u16, fuel: nat) -> Seq<u8>
    decreases fuel,
{
    if fuel == 0 || !p.pieces.contains_key(off) {
        Seq::empty()
    } else {
        let b = p.pieces[off];
        let nx = next_offset(off, b.len() as int);
        if nx == p.total_len {
            b
        } else {
            b + gather(p, nx, (fuel - 1) as nat)
        }
    }
}

/// A packet is complete when its fragments, chained from offset 0, end
/// exactly at its total length. A chain that runs into a cycle never ends
/// there: every offset is visited within `WALK_FUEL` steps.
pub open spec fn is_complete(m: GridMapV, pktid: i32) -> bool {
    m.partial.contains_key(pktid) && reaches(m.partial[pktid], 0, WALK_FUEL as nat)
}

/// The bytes of a packet, reassembled from offset 0.
pub open spec fn assembled(m: GridMapV, pktid: i32) -> Seq<u8> {
    if m.partial.contains_key(pktid) {
        gather(m.partial[pktid], 0, WALK_FUEL as nat)
    } else {
        Seq::empty()
    }
}

/// Whether a grid at `xy` was received.
pub open spec fn has_grid(m: GridMapV, xy: (i32, i32)) -> bool {
    exists|i: int| 0 <= i < m.grids.len() && (#[trigger] m.grids[i]).xy == xy
}

/// No two recorded grids are at the same place.
pub open spec fn grids_distinct(g: Seq<GridHintV>) -> bool {
    forall|i: int, j: int| 0 <= i < j < g.len() ==> (#[trigger] g[i]).xy != (#[trigger] g[j]).xy
}

/// The recorded grids after `h` is recorded: it replaces the grid at its
/// place, or is added when there is none.
pub open spec fn grids_insert(g: Seq<GridHintV>, h: GridHintV) -> Seq<GridHintV> {
    if exists|i: int| 0 <= i < g.len() && (#[trigger] g[i]).xy == h.xy {
        Seq::new(g.len(), |i: int| if g[i].xy == h.xy { h } else { g[i] })
    } else {
        g.push(h)
    }
}

/// Recording a grid keeps the recorded grids at distinct places, and the
/// grid is then recorded at its place.
pub proof fn lemma_grids_insert(g: Seq<GridHintV>, h: GridHintV)
    requires
        grids_distinct(g),
    ensures
        grids_distinct(grids_insert(g, h)),
        exists|i: int| 0 <= i < grids_insert(g, h).len() && #[trigger] grids_insert(g, h)[i] == h,
{
    let r = grids_insert(g, h);
    if exists|i: int| 0 <= i < g.len() && (#[trigger] g[i]).xy == h.xy {
        let k = choose|i: int| 0 <= i < g.len() && (#[trigger] g[i]).xy == h.xy;
        assert(r[k] == h);
        assert forall|i: int, j: int| 0 <= i < j < r.len() implies (#[trigger] r[i]).xy != (#[trigger] r[j]).xy by {
            if g[i].xy == h.xy {
                assert(g[j].xy != h.xy);
            }
        }
    } else {
        assert(r[g.len() as int] == h);
        assert forall|i: int, j: int| 0 <= i < j < r.len() implies (#[trigger] r[i]).xy != (#[trigger] r[j]).xy by {
            if j == g.len() {
                assert(g[i].xy != h.xy);
            }
        }
    }
}

/// `off` moved on by `n`, in 16 bits.
pub fn next_off(off: u16, n: usize) -> (r: u16)
    ensures
        r == next_offset(off, n as int),
{
    let low = (n % 0x10000) as u64;
    let s = off as u64 + low;
    proof {
        assert((off + n) % 0x10000 == (off + low) % 0x10000) by (nonlinear_arith)
            requires
                low == n % 0x10000,
                0 <= n,
        ;
    }
    (s % 0x10000) as u16
}

impl GridMap {
    /// An empty map: no packet in progress, no grid received.
    pub fn new() -> (m: GridMap)
        ensures
            m@.partial == Map::<i32, MapPiecesV>::empty(),
            m@.grids == Seq::<GridHintV>::empty(),
    {
        let m = GridMap { partial: HashMap::new(), grids: Vec::new() };
        assert(partial_view(m.partial@) =~= Map::<i32, MapPiecesV>::empty());
        assert(grids_view(m.grids@) =~= Seq::<GridHintV>::empty());
        m
    }

    /// Stores a fragment of a grid packet.
    pub fn append(&mut self, mapdata: MapData)
        ensures
            final(self)@ == map_append(old(self)@, mapdata@),
    {
        let ghost d = mapdata@;
        let ghost old_partial = self.partial@;
        let MapData { pktid, off, len, buf } = mapdata;
        let taken = self.partial.remove(&pktid);
        let mut p = match taken {
            Some(p) => p,
            None => {
                let p = MapPieces { total_len: len, pieces: HashMap::new() };
                assert(pieces_view(p.pieces@) =~= Map::<u16, Seq<u8>>::empty());
                p
            },
        };
        let ghost before = p.pieces@;
        p.pieces.insert(off, buf);
        assert(pieces_view(p.pieces@) =~= pieces_view(before).insert(off, d.buf));
        self.partial.insert(pktid, p);
        assert(partial_view(self.partial@) =~= map_append(old(self)@, d).partial);
    }

    /// Whether every fragment of the packet `pktid` was received.
    pub fn complete(&self, pktid: i32) -> (b: bool)
        ensures
            b == is_complete(self@, pktid),
    {
        let map = match self.partial.get(&pktid) {
            Some(m) => m,
            None => {
                return false;
            },
        };
        let ghost pv = map@;
        assert(pv == self@.partial[pktid]);
        let mut len: u16 = 0;
        let mut fuel: u32 = WALK_FUEL;
        while fuel > 0
            invariant
                pv == map@,
                self@.partial.contains_key(pktid),
                pv == self@.partial[pktid],
                fuel <= WALK_FUEL,
                reaches(pv, 0, WALK_FUEL as nat) == reaches(pv, len, fuel as nat),
            decreases fuel,
        {
            match map.pieces.get(&len) {
                Some(buf) => {
                    assert(pv.pieces[len] == buf@);
                    len = next_off(len, buf.len());
                    if len == map.total_len {
                        return true;
                    }
                },
                None => {
                    return false;
                },
            }
            fuel = fuel - 1;
        }
        false
    }

    /// Takes the packet `pktid` out of the packets in progress and returns
    /// its bytes, chained from offset 0; an unknown packet gives no bytes.
    pub fn assemble(&mut self, pktid: i32) -> (buf: Vec<u8>)
        ensures
            final(self)@.partial == old(self)@.partial.remove(pktid),
            final(self)@.grids == old(self)@.grids,
            buf@ == assembled(old(self)@, pktid),
    {
        let taken = self.partial.remove(&pktid);
        assert(partial_view(self.partial@) =~= old(self)@.partial.remove(pktid));
        let map = match taken {
            Some(map) => map,
            None => {
                return Vec::new();
            },
        };
        let ghost pv = map@;
        assert(pv == old(self)@.partial[pktid]);
        let mut len: u16 = 0;
        let mut buf: Vec<u8> = Vec::new();
        let mut fuel: u32 = WALK_FUEL;
        while fuel > 0
            invariant
                pv == map@,
                old(self)@.partial.contains_key(pktid),
                pv == old(self)@.partial[pktid],
                self@.partial == old(self)@.partial.remove(pktid),
                self@.grids == old(self)@.grids,
                fuel <= WALK_FUEL,
                gather(pv, 0, WALK_FUEL as nat) == buf@ + gather(pv, len, fuel as nat),
            decreases fuel,
        {
            match map.pieces.get(&len) {
                Some(b) => {
                    assert(pv.pieces[len] == b@);
                    let ghost before = buf@;
                    put_bytes(&mut buf, b.as_slice());
                    len = next_off(len, b.len());
                    if len == map.total_len {
                        assert(gather(pv, 0, WALK_FUEL as nat) == buf@);
                        return buf;
                    }
                    assert(before + (b@ + gather(pv, len, (fuel - 1) as nat)) == buf@ + gather(
                        pv,
                        len,
                        (fuel - 1) as nat,
                    ));
                },
                None => {
                    assert(buf@ + Seq::<u8>::empty() == buf@);
                    return buf;
                },
            }
            fuel = fuel - 1;
        }
        assert(buf@ + Seq::<u8>::empty() == buf@);
        buf
    }

    /// Whether a grid at `xy` was received.
    pub fn has_grid(&self, xy: (i32, i32)) -> (b: bool)
        ensures
            b == has_grid(self@, xy),
    {
        let mut i: usize = 0;
        while i < self.grids.len()
            invariant
                i <= self.grids@.len(),
                forall|j: int| 0 <= j < i ==> (#[trigger] self@.grids[j]).xy != xy,
            decreases self.grids@.len() - i,
        {
            assert(self@.grids[i as int] == self.grids@[i as int]@);
            if self.grids[i].xy.0 == xy.0 && self.grids[i].xy.1 == xy.1 {
                return true;
            }
            i = i + 1;
        }
        false
    }

    /// Records a received grid: it replaces the grid recorded at its place,
    /// or is added when there is none.
    pub fn add_grid(&mut self, hint: GridHint)
        ensures
            final(self)@.partial == old(self)@.partial,
            final(self)@.grids == grids_insert(old(self)@.grids, hint@),
    {
        let ghost h = hint@;
        let ghost g0 = self@.grids;
        let mut found = false;
        let mut i: usize = 0;
        while i < self.grids.len()
            invariant
                i <= self.grids@.len(),
                self@.partial == old(self)@.partial,
                g0 == old(self)@.grids,
                self.grids@.len() == g0.len(),
                h == hint@,
                found <==> exists|j: int| 0 <= j < i && (#[trigger] g0[j]).xy == h.xy,
                forall|j: int| 0 <= j < i ==> (#[trigger] self@.grids[j]) == (if g0[j].xy == h.xy { h } else { g0[j] }),
                forall|j: int| i <= j < self.grids@.len() ==> (#[trigger] self@.grids[j]) == g0[j],
            decreases self.grids@.len() - i,
        {
            assert(self@.grids[i as int] == self.grids@[i as int]@);
            if self.grids[i].xy.0 == hint.xy.0 && self.grids[i].xy.1 == hint.xy.1 {
                let c = GridHint { xy: hint.xy, name: copy_str(&hint.name), id: hint.id };
                let ghost prev = self.grids@;
                self.grids.set(i, c);
                assert(self.grids@ == prev.update(i as int, c));
                assert(self@.grids =~= grids_view(prev).update(i as int, h));
                found = true;
            }
            i = i + 1;
        }
        if found {
            proof {
                assert(exists|j: int| 0 <= j < g0.len() && (#[trigger] g0[j]).xy == h.xy);
                let r = Seq::new(g0.len(), |j: int| if g0[j].xy == h.xy { h } else { g0[j] });
                assert(grids_insert(g0, h) == r);
                assert forall|j: int| 0 <= j < r.len() implies #[trigger] self@.grids[j] == r[j] by {
                    assert(self@.grids[j] == (if g0[j].xy == h.xy { h } else { g0[j] }));
                }
                assert(self@.grids =~= r);
            }
        } else {
            let ghost prev = self.grids@;
            proof {
                assert forall|j: int| 0 <= j < g0.len() implies #[trigger] grids_view(prev)[j] == g0[j] by {
                    assert(self@.grids[j] == (if g0[j].xy == h.xy { h } else { g0[j] }));
                    if g0[j].xy == h.xy {
                        assert(exists|k: int| 0 <= k < i && (#[trigger] g0[k]).xy == h.xy);
                    }
                }
                assert(grids_view(prev) =~= g0);
                assert(!exists|k: int| 0 <= k < g0.len() && (#[trigger] g0[k]).xy == h.xy);
            }
            self.grids.push(hint);
            assert(self@.grids =~= grids_view(prev).push(h));
            assert(self@.grids =~= grids_insert(g0, h));
        }
    }
}

// ---------------------------------------------------------------------------
// Laws of reassembly

/// Along a chain that ends at the total length, the length of the gathered
/// bytes, counted in 16 bits from the chain's start, is the total length.
proof fn lemma_gather_len(p: MapPiecesV, off: u16, fuel: nat)
    requires
        reaches(p, off, fuel),
    ensures
        (off + gather(p, off, fuel).len()) % 0x10000 == p.total_len,
    decreases fuel,
{
    let b = p.pieces[off];
    let nx = next_offset(off, b.len() as int);
    if nx != p.total_len {
        lemma_gather_len(p, nx, (fuel - 1) as nat);
        let g = gather(p, nx, (fuel - 1) as nat);
        assert((off + (b + g).len()) % 0x10000 == p.total_len) by (nonlinear_arith)
            requires
                nx == (off + b.len()) % 0x10000,
                (nx + g.len()) % 0x10000 == p.total_len,
                (b + g).len() == b.len() + g.len(),
                0 <= off,
        ;
    }
}

/// A complete packet reassembles to as many bytes as its total length,
/// counted in 16 bits as the protocol counts lengths.
pub proof fn lemma_complete_assembles_total(m: GridMapV, pktid: i32)
    requires
        is_complete(m, pktid),
    ensures
        assembled(m, pktid).len() % 0x10000 == m.partial[pktid].total_len,
{
    lemma_gather_len(m.partial[pktid], 0, WALK_FUEL as nat);
}

/// A packet that arrives in one fragment, whose length is the packet's
/// length, is complete at once and reassembles to that fragment.
pub proof fn lemma_single_fragment(m: GridMapV, d: MapDataV)
    requires
        !m.partial.contains_key(d.pktid),
        d.off == 0,
        d.buf.len() == d.len,
        d.len > 0,
    ensures
        is_complete(map_append(m, d), d.pktid),
        assembled(map_append(m, d), d.pktid) == d.buf,
{
    let p = map_append(m, d).partial[d.pktid];
    assert(p.pieces.contains_key(0u16));
    assert(next_offset(0, d.buf.len() as int) == d.len);
    reveal_with_fuel(reaches, 2);
    reveal_with_fuel(gather, 2);
}

/// Storing a fragment leaves every other packet as it was.
pub proof fn lemma_append_other_packets(m: GridMapV, d: MapDataV, pktid: i32)
    requires
        pktid != d.pktid,
    ensures
        map_append(m, d).partial.contains_key(pktid) == m.partial.contains_key(pktid),
        m.partial.contains_key(pktid) ==> map_append(m, d).partial[pktid] == m.partial[pktid],
        is_complete(map_append(m, d), pktid) == is_complete(m, pktid),
        assembled(map_append(m, d), pktid) == assembled(m, pktid),
{
}

// ---------------------------------------------------------------------------
// Grid coordinates

/// The grid coordinate of a world coordinate: the quotient by the grid
/// width, rounded toward zero, less one for negative coordinates.
pub open spec fn grid_coord(v: int) -> int {
    if v >= 0 {
        v / 1100
    } else {
        -((-v) / 1100) - 1
    }
}

fn grid_axis(v: i32) -> (g: i32)
    ensures
        g == grid_coord(v as int),
        -1952258 <= g <= 1952257,
{
    let w = v as i64;
    if w >= 0 {
        (w / GRID_UNITS) as i32
    } else {
        let q = (-w) / GRID_UNITS;
        (-q - 1) as i32
    }
}

/// The grid that holds the world coordinate `(x, y)`.
pub fn grid(xy: (i32, i32)) -> (g: (i32, i32))
    ensures
        g.0 == grid_coord(xy.0 as int),
        g.1 == grid_coord(xy.1 as int),
        -1952258 <= g.0 <= 1952257,
        -1952258 <= g.1 <= 1952257,
{
    (grid_axis(xy.0), grid_axis(xy.1))
}

/// The grid of a coordinate holds it: the coordinate lies in the grid's
/// width; a negative multiple of the width is the one exception, and lies
/// on the far edge of its grid.
pub proof fn lemma_grid_contains(v: int)
    ensures
        (v >= 0 || v % 1100 != 0) ==> 1100 * grid_coord(v) <= v < 1100 * (grid_coord(v) + 1),
        (v < 0 && v % 1100 == 0) ==> v == 1100 * (grid_coord(v) + 1),
{
    if v >= 0 {
        assert(1100 * (v / 1100) <= v < 1100 * (v / 1100 + 1)) by (nonlinear_arith)
            requires
                v >= 0,
        ;
    } else {
        let w = -v;
        let q = w / 1100;
        assert(1100 * q <= w < 1100 * q + 1100) by (nonlinear_arith)
            requires
                w > 0,
                q == w / 1100,
        ;
        assert(v % 1100 == 0 <==> w % 1100 == 0) by (nonlinear_arith)
            requires
                w == -v,
        ;
        assert(w % 1100 == 0 <==> w == 1100 * q) by (nonlinear_arith)
            requires
                w > 0,
                q == w / 1100,
        ;
    }
}

/// Moving by one grid width moves to the neighbouring grid, for
/// non-negative coordinates.
pub proof fn lemma_grid_step(v: int)
    requires
        v >= 0,
    ensures
        grid_coord(v + 1100) == grid_coord(v) + 1,
{
    assert((v + 1100) / 1100 == v / 1100 + 1) by (nonlinear_arith)
        requires
            v >= 0,
    ;
}

} // verus!
