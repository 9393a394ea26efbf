//! The session state: widgets, objects, the hero, the grids, the message
//! queues; and the requests that the client makes.
use vstd::prelude::*;
use std::collections::{HashMap, VecDeque};
use crate::codec::slice_to_vec;
use crate::error::{Error, ErrorKind};
use crate::list::{List, ListV};
use crate::proto::message::{ClientMessage, ClientMessageV, client_bytes, client_encodable, client_error};
use crate::proto::message_rel::{Rel, Rels, RelsV, RelV, WdgMsg, WdgMsgV};
use crate::proto::message_sess::cSess;
use crate::proto::message_mapreq::MapReq;
use crate::proto::message_close::Close;
use crate::state::map::{GridMap, GridMapV, GridHint, GridHintV, grid, grid_coord, has_grid, next_off, next_offset};
use crate::state::obj::Obj;
use crate::state::queue::{
    EnqueuedBuffer, EnqueuedBufferV, MessageHint, Timeout, bufs_view, hint_of, timeout_of,
    enqueue_bufs, answered, timed_out,
};

verus! {

broadcast use vstd::std_specs::hash::group_hash_axioms;

/// A widget: its id, type, parent and name.
#[derive(Debug)]
pub struct Widget {
    pub id: u16,
    pub typ: String,
    pub parent: u16,
    pub name: Option<String>,
}

pub struct WidgetV {
    pub id: u16,
    pub typ: Seq<char>,
    pub parent: u16,
    pub name: Option<Seq<char>>,
}

pub open spec fn opt_str_view(o: Option<String>) -> Option<Seq<char>> {
    match o {
        Some(s) => Some(s@),
        None => None,
    }
}

impl View for Widget {
    type V = WidgetV;

    open spec fn view(&self) -> WidgetV {
        WidgetV { id: self.id, typ: self.typ@, parent: self.parent, name: opt_str_view(self.name) }
    }
}

/// What the client knows of its character.
#[derive(Debug)]
pub struct Hero {
    pub name: Option<String>,
    pub obj: Option<u32>,
    pub weight: Option<u16>,
    pub tmexp: Option<i32>,
    pub hearthfire: Option<(i32, i32)>,
    /// The inventory items by cell; the first entry of a cell counts.
    pub inventory: Vec<((i32, i32), u16)>,
    pub equipment: HashMap<u8, u16>,
    pub start_xy: Option<(i32, i32)>,
}

pub struct HeroV {
    pub name: Option<Seq<char>>,
    pub obj: Option<u32>,
    pub weight: Option<u16>,
    pub tmexp: Option<i32>,
    pub hearthfire: Option<(i32, i32)>,
    pub inventory: Map<(i32, i32), u16>,
    pub equipment: Map<u8, u16>,
    pub start_xy: Option<(i32, i32)>,
}

/// The map that a list of entries describes: the first entry for a key
/// counts.
pub open spec fn cells_view(s: Seq<((i32, i32), u16)>) -> Map<(i32, i32), u16>
    decreases s.len(),
{
    if s.len() == 0 {
        Map::empty()
    } else {
        cells_view(s.drop_first()).insert(s[0].0, s[0].1)
    }
}

/// Replacing the first entry of a key sets the key in the map.
pub proof fn lemma_cells_update(s: Seq<((i32, i32), u16)>, i: int, v: u16)
    requires
        0 <= i < s.len(),
        forall|j: int| 0 <= j < i ==> (#[trigger] s[j]).0 != s[i].0,
    ensures
        cells_view(s.update(i, (s[i].0, v))) == cells_view(s).insert(s[i].0, v),
    decreases s.len(),
{
    let k = s[i].0;
    let t = s.update(i, (k, v));
    if i == 0 {
        assert(t.drop_first() =~= s.drop_first());
        assert(cells_view(t) =~= cells_view(s).insert(k, v));
    } else {
        assert(t.drop_first() =~= s.drop_first().update(i - 1, (k, v)));
        assert forall|j: int| 0 <= j < i - 1 implies (#[trigger] s.drop_first()[j]).0 != s.drop_first()[i
            - 1].0 by {
            assert(s.drop_first()[j] == s[j + 1]);
        }
        lemma_cells_update(s.drop_first(), i - 1, v);
        assert(s[0].0 != k);
        assert(t[0] == s[0]);
        assert(s.drop_first()[i - 1] == s[i]);
        assert(cells_view(t.drop_first()) == cells_view(s.drop_first()).insert(k, v));
        assert(cells_view(t) == cells_view(t.drop_first()).insert(s[0].0, s[0].1));
        assert(cells_view(s) == cells_view(s.drop_first()).insert(s[0].0, s[0].1));
        let m = cells_view(s.drop_first());
        assert(m.insert(k, v).insert(s[0].0, s[0].1) =~= m.insert(s[0].0, s[0].1).insert(k, v));
    }
}

/// Appending an entry of a key that has none sets the key in the map.
pub proof fn lemma_cells_push(s: Seq<((i32, i32), u16)>, k: (i32, i32), v: u16)
    requires
        forall|j: int| 0 <= j < s.len() ==> (#[trigger] s[j]).0 != k,
    ensures
        cells_view(s.push((k, v))) == cells_view(s).insert(k, v),
    decreases s.len(),
{
    let t = s.push((k, v));
    if s.len() == 0 {
        assert(t.drop_first() =~= Seq::<((i32, i32), u16)>::empty());
        assert(cells_view(t.drop_first()) == Map::<(i32, i32), u16>::empty());
        assert(t[0] == (k, v));
        assert(cells_view(t) == cells_view(t.drop_first()).insert(k, v));
    } else {
        assert(t.drop_first() =~= s.drop_first().push((k, v)));
        assert forall|j: int| 0 <= j < s.drop_first().len() implies (#[trigger] s.drop_first()[j]).0
            != k by {
            assert(s.drop_first()[j] == s[j + 1]);
        }
        lemma_cells_push(s.drop_first(), k, v);
        assert(s[0].0 != k);
        assert(t[0] == s[0]);
        assert(cells_view(t.drop_first()) == cells_view(s.drop_first()).insert(k, v));
        assert(cells_view(t) == cells_view(t.drop_first()).insert(s[0].0, s[0].1));
        assert(cells_view(s) == cells_view(s.drop_first()).insert(s[0].0, s[0].1));
        let m = cells_view(s.drop_first());
        assert(m.insert(k, v).insert(s[0].0, s[0].1) =~= m.insert(s[0].0, s[0].1).insert(k, v));
    }
}

impl View for Hero {
    type V = HeroV;

    open spec fn view(&self) -> HeroV {
        HeroV {
            name: opt_str_view(self.name),
            obj: self.obj,
            weight: self.weight,
            tmexp: self.tmexp,
            hearthfire: self.hearthfire,
            inventory: cells_view(self.inventory@),
            equipment: self.equipment@,
            start_xy: self.start_xy,
        }
    }
}

/// What the client reports to its user: a new grid, or an object that
/// moved.
#[derive(Debug)]
pub enum Event {
    Grid(i32, i32, Vec<u8>, Vec<i16>),
    Obj((i32, i32)),
}

pub enum EventV {
    Grid(i32, i32, Seq<u8>, Seq<i16>),
    Obj((i32, i32)),
}

impl View for Event {
    type V = EventV;

    open spec fn view(&self) -> EventV {
        match self {
            Event::Grid(x, y, t, z) => EventV::Grid(*x, *y, t@, z@),
            Event::Obj(xy) => EventV::Obj(*xy),
        }
    }
}

/// The session.
pub struct State {
    pub widgets: HashMap<u16, Widget>,
    pub objects: HashMap<u32, Obj>,
    pub charlist: Vec<String>,
    pub resources: HashMap<u16, String>,
    pub seq: u16,
    pub rx_rel_seq: u16,
    pub que: VecDeque<EnqueuedBuffer>,
    pub tx_buf: VecDeque<EnqueuedBuffer>,
    pub enqueue_seq: usize,
    pub rel_cache: HashMap<u16, Rels>,
    pub hero: Hero,
    pub map: GridMap,
    pub events: VecDeque<Event>,
    pub origin: Option<(i32, i32)>,
}

pub struct StateV {
    pub widgets: Map<u16, WidgetV>,
    pub objects: Map<u32, Obj>,
    pub charlist: Seq<Seq<char>>,
    pub resources: Map<u16, Seq<char>>,
    pub seq: u16,
    pub rx_rel_seq: u16,
    pub que: Seq<EnqueuedBufferV>,
    pub tx_buf: Seq<EnqueuedBufferV>,
    pub enqueue_seq: usize,
    pub rel_cache: Map<u16, RelsV>,
    pub hero: HeroV,
    pub map: GridMapV,
    pub events: Seq<EventV>,
    pub origin: Option<(i32, i32)>,
}

pub open spec fn widgets_view(m: Map<u16, Widget>) -> Map<u16, WidgetV> {
    m.map_values(|w: Widget| w@)
}

pub open spec fn strings_view(v: Seq<String>) -> Seq<Seq<char>> {
    v.map_values(|s: String| s@)
}

pub open spec fn resources_view(m: Map<u16, String>) -> Map<u16, Seq<char>> {
    m.map_values(|s: String| s@)
}

pub open spec fn cache_view(m: Map<u16, Rels>) -> Map<u16, RelsV> {
    m.map_values(|r: Rels| r@)
}

pub open spec fn events_view(v: Seq<Event>) -> Seq<EventV> {
    v.map_values(|e: Event| e@)
}

impl View for State {
    type V = StateV;

    open spec fn view(&self) -> StateV {
        StateV {
            widgets: widgets_view(self.widgets@),
            objects: self.objects@,
            charlist: strings_view(self.charlist@),
            resources: resources_view(self.resources@),
            seq: self.seq,
            rx_rel_seq: self.rx_rel_seq,
            que: bufs_view(self.que@),
            tx_buf: bufs_view(self.tx_buf@),
            enqueue_seq: self.enqueue_seq,
            rel_cache: cache_view(self.rel_cache@),
            hero: self.hero@,
            map: self.map@,
            events: events_view(self.events@),
            origin: self.origin,
        }
    }
}

// ---------------------------------------------------------------------------
// The model of the requests

/// The session at its start: only the root widget, nothing sent or
/// received.
pub open spec fn initial_state() -> StateV {
    StateV {
        widgets: Map::empty().insert(
            0u16,
            WidgetV { id: 0, typ: "root"@, parent: 0, name: None },
        ),
        objects: Map::empty(),
        charlist: Seq::empty(),
        resources: Map::empty(),
        seq: 0,
        rx_rel_seq: 0,
        que: Seq::empty(),
        tx_buf: Seq::empty(),
        enqueue_seq: 0,
        rel_cache: Map::empty(),
        hero: HeroV {
            name: None,
            obj: None,
            weight: None,
            tmexp: None,
            hearthfire: None,
            inventory: Map::empty(),
            equipment: Map::empty(),
            start_xy: None,
        },
        map: GridMapV { partial: Map::empty(), grids: Seq::empty() },
        events: Seq::empty(),
        origin: None,
    }
}

/// The error part of a result.
pub open spec fn outcome(res: Result<(), Error>) -> Result<(), ErrorKind> {
    match res {
        Ok(_) => Ok(()),
        Err(e) => Err(e.kind),
    }
}

pub open spec fn next_count(n: usize) -> usize {
    if n == usize::MAX {
        0
    } else {
        (n + 1) as usize
    }
}

/// The message as it is sent: a REL message takes the next sequence
/// numbers of the session.
pub open spec fn numbered(s: StateV, m: ClientMessageV) -> ClientMessageV {
    match m {
        ClientMessageV::Rel(r) => ClientMessageV::Rel(RelsV { seq: s.seq, rels: r.rels }),
        _ => m,
    }
}

/// Enqueuing a message: a REL message is numbered, and the session's
/// sequence number moves past its elements (in 16 bits) whether or not it
/// can be encoded; a message that can be encoded joins the queues, and a
/// message that waits for an answer takes the next enqueue number.
pub open spec fn enqueue_spec(s: StateV, m: ClientMessageV) -> (StateV, Result<(), ErrorKind>) {
    let m1 = numbered(s, m);
    let s1 = match m {
        ClientMessageV::Rel(r) => StateV { seq: next_offset(s.seq, r.rels.len() as int), ..s },
        _ => s,
    };
    if !client_encodable(m1) {
        (s1, Err(client_error(m1)))
    } else {
        let e = EnqueuedBufferV {
            buf: client_bytes(m1),
            msg_hint: hint_of(m1),
            timeout: timeout_of(m1, s.enqueue_seq),
        };
        let qs = enqueue_bufs(s.que, s.tx_buf, e);
        (
            StateV {
                que: qs.0,
                tx_buf: qs.1,
                enqueue_seq: if e.timeout is Some {
                    next_count(s.enqueue_seq)
                } else {
                    s.enqueue_seq
                },
                ..s1
            },
            Ok(()),
        )
    }
}

pub open spec fn remove_spec(s: StateV, hint: MessageHint) -> StateV {
    let qs = answered(s.que, s.tx_buf, hint);
    StateV { que: qs.0, tx_buf: qs.1, ..s }
}

pub open spec fn widget_matches(w: WidgetV, typ: Seq<char>, name: Option<Seq<char>>) -> bool {
    w.typ == typ && w.name == name
}

/// The smallest id, from `i` on, of a widget of type `typ` and name
/// `name`.
pub open spec fn widget_from(
    ws: Map<u16, WidgetV>,
    typ: Seq<char>,
    name: Option<Seq<char>>,
    i: int,
) -> Option<u16>
    decreases 0x10000 - i,
{
    if i < 0 || i >= 0x10000 {
        None
    } else if ws.contains_key(i as u16) && widget_matches(ws[i as u16], typ, name) {
        Some(i as u16)
    } else {
        widget_from(ws, typ, name, i + 1)
    }
}

pub open spec fn widget_id_spec(s: StateV, typ: Seq<char>, name: Option<Seq<char>>) -> Option<u16> {
    widget_from(s.widgets, typ, name, 0)
}

/// A REL message of one WDGMSG element.
pub open spec fn wdgmsg_rel(id: u16, name: Seq<char>, args: Seq<ListV>) -> ClientMessageV {
    ClientMessageV::Rel(
        RelsV { seq: 0, rels: seq![RelV::WdgMsg(WdgMsgV { id, name, args })] },
    )
}

/// The click of the map widget that walks the hero to `(x, y)`.
pub open spec fn go_msg(s: StateV, x: i32, y: i32) -> ClientMessageV {
    wdgmsg_rel(
        widget_id_spec(s, "mapview"@, None)->0,
        "click"@,
        seq![ListV::Coord((907, 755)), ListV::Coord((x, y)), ListV::Int(1), ListV::Int(0)],
    )
}

/// Requesting a grid: only a grid that was not received yet is requested.
pub open spec fn mapreq_spec(s: StateV, x: i32, y: i32) -> StateV {
    if has_grid(s.map, (x, y)) {
        s
    } else {
        enqueue_spec(s, ClientMessageV::MapReq(MapReq { x, y })).0
    }
}

pub open spec fn hero_obj_spec(s: StateV) -> Option<Obj> {
    match s.hero.obj {
        Some(id) => if s.objects.contains_key(id) {
            Some(s.objects[id])
        } else {
            None
        },
        None => None,
    }
}

pub open spec fn hero_xy_spec(s: StateV) -> Option<(i32, i32)> {
    match hero_obj_spec(s) {
        Some(o) => o.xy,
        None => None,
    }
}

pub open spec fn hero_grid_xy_spec(s: StateV) -> Option<(i32, i32)> {
    match hero_xy_spec(s) {
        Some(xy) => Some((grid_coord(xy.0 as int) as i32, grid_coord(xy.1 as int) as i32)),
        None => None,
    }
}

/// The first record of the grid at `xy`, from index `i` on.
pub open spec fn grid_from(g: Seq<GridHintV>, xy: (i32, i32), i: int) -> Option<GridHintV>
    decreases g.len() - i,
{
    if i < 0 || i >= g.len() {
        None
    } else if g[i].xy == xy {
        Some(g[i])
    } else {
        grid_from(g, xy, i + 1)
    }
}

pub open spec fn hero_grid_spec(s: StateV) -> Option<GridHintV> {
    match hero_grid_xy_spec(s) {
        Some(xy) => grid_from(s.map.grids, xy, 0),
        None => None,
    }
}

// ---------------------------------------------------------------------------
// Helpers

fn same_opt_str(a: &Option<String>, b: &Option<String>) -> (r: bool)
    ensures
        r == (opt_str_view(*a) == opt_str_view(*b)),
{
    match (a, b) {
        (None, None) => true,
        (Some(x), Some(y)) => *x == *y,
        _ => false,
    }
}

/// A copy of a string.
pub(crate) fn copy_str(s: &String) -> (r: String)
    ensures
        r@ == s@,
{
    s.as_str().to_owned()
}

impl State {
    /// A new session: only the root widget exists.
    pub fn new() -> (s: State)
        ensures
            s@ == initial_state(),
    {
        let mut widgets: HashMap<u16, Widget> = HashMap::new();
        widgets.insert(0, Widget { id: 0, typ: "root".to_owned(), parent: 0, name: None });
        let s = State {
            widgets,
            objects: HashMap::new(),
            charlist: Vec::new(),
            resources: HashMap::new(),
            seq: 0,
            rx_rel_seq: 0,
            que: VecDeque::new(),
            tx_buf: VecDeque::new(),
            enqueue_seq: 0,
            rel_cache: HashMap::new(),
            hero: Hero {
                name: None,
                obj: None,
                weight: None,
                tmexp: None,
                hearthfire: None,
                inventory: Vec::new(),
                equipment: HashMap::new(),
                start_xy: None,
            },
            map: GridMap::new(),
            events: VecDeque::new(),
            origin: None,
        };
        proof {
            let i = initial_state();
            assert(s@.widgets =~= i.widgets);
            assert(s@.resources =~= i.resources);
            assert(s@.rel_cache =~= i.rel_cache);
            assert(s@.charlist =~= i.charlist);
            assert(s@.que =~= i.que);
            assert(s@.tx_buf =~= i.tx_buf);
            assert(s@.events =~= i.events);
            assert(s@.hero.inventory =~= i.hero.inventory);
        }
        s
    }

    /// Encodes a message and queues it: a message that waits for an answer
    /// joins the waiting queue and is sent at once only if nothing else
    /// waits; any other message is sent at once. A REL message is numbered
    /// here, and must come with the number 0.
    pub fn enqueue_to_send(&mut self, msg: ClientMessage) -> (res: Result<(), Error>)
        requires
            msg@ matches ClientMessageV::Rel(r) ==> r.seq == 0,
        ensures
            (final(self)@, outcome(res)) == enqueue_spec(old(self)@, msg@),
    {
        let ghost s0 = self@;
        let ghost m0 = msg@;
        let msg = match msg {
            ClientMessage::REL(rel) => {
                let n = rel.rels.len();
                let r = Rels { seq: self.seq, rels: rel.rels };
                self.seq = next_off(self.seq, n);
                ClientMessage::REL(r)
            },
            other => other,
        };
        assert(msg@ == numbered(s0, m0));
        let mut buf: Vec<u8> = Vec::new();
        match msg.to_buf(&mut buf) {
            Ok(()) => {},
            Err(e) => {
                return Err(e);
            },
        }
        assert(buf@ =~= client_bytes(msg@));
        let (msg_hint, timeout) = match &msg {
            ClientMessage::SESS(_) => (
                MessageHint::C_SESS,
                Some(Timeout { ms: 100, seq: self.enqueue_seq }),
            ),
            ClientMessage::REL(rel) => (
                MessageHint::REL(rel.seq),
                Some(Timeout { ms: 100, seq: self.enqueue_seq }),
            ),
            ClientMessage::CLOSE(_) => (
                MessageHint::CLOSE,
                Some(Timeout { ms: 100, seq: self.enqueue_seq }),
            ),
            ClientMessage::MAPREQ(mapreq) => (
                MessageHint::MAPREQ(mapreq.x, mapreq.y),
                Some(Timeout { ms: 400, seq: self.enqueue_seq }),
            ),
            ClientMessage::ACK(_) => (MessageHint::NONE, None),
            ClientMessage::BEAT(_) => (MessageHint::NONE, None),
            ClientMessage::OBJACK(_) => (MessageHint::NONE, None),
        };
        let ebuf = EnqueuedBuffer { buf, msg_hint, timeout };
        let ghost e = ebuf@;
        let ghost que0 = self.que@;
        let ghost tx0 = self.tx_buf@;
        match ebuf.timeout {
            Some(_) => {
                if self.que.len() == 0 {
                    self.tx_buf.push_front(ebuf.duplicate());
                }
                self.que.push_front(ebuf);
                self.enqueue_seq = if self.enqueue_seq == usize::MAX {
                    0
                } else {
                    self.enqueue_seq + 1
                };
            },
            None => {
                self.tx_buf.push_front(ebuf);
            },
        }
        proof {
            assert(bufs_view(self.que@) =~= enqueue_bufs(bufs_view(que0), bufs_view(tx0), e).0);
            assert(bufs_view(self.tx_buf@) =~= enqueue_bufs(bufs_view(que0), bufs_view(tx0), e).1);
        }
        Ok(())
    }

    /// Ends the wait for the oldest waiting message when the answer is for
    /// it, and sends the next waiting message.
    pub fn remove_from_que(&mut self, msg_hint: MessageHint)
        ensures
            final(self)@ == remove_spec(old(self)@, msg_hint),
    {
        let ghost que0 = self.que@;
        let ghost tx0 = self.tx_buf@;
        let n = self.que.len();
        if n > 0 && self.que[n - 1].msg_hint == msg_hint {
            let _ = self.que.pop_back();
            let m = self.que.len();
            if m > 0 {
                let b = self.que[m - 1].duplicate();
                self.tx_buf.push_front(b);
            }
            proof {
                assert(que0.subrange(0, que0.len() - 1) == que0.drop_last());
                assert(bufs_view(self.que@) =~= bufs_view(que0).drop_last());
            }
        }
        proof {
            assert(bufs_view(self.que@) =~= answered(bufs_view(que0), bufs_view(tx0), msg_hint).0);
            assert(bufs_view(self.tx_buf@) =~= answered(bufs_view(que0), bufs_view(tx0), msg_hint).1);
        }
    }

    /// The timer of the message enqueued as number `seq` ran out: the
    /// oldest waiting message is sent again if it is that message.
    pub fn timeout(&mut self, seq: usize)
        ensures
            final(self)@ == (StateV { tx_buf: timed_out(old(self)@.que, old(self)@.tx_buf, seq), ..old(self)@ }),
    {
        let ghost tx0 = self.tx_buf@;
        let n = self.que.len();
        if n > 0 {
            match self.que[n - 1].timeout {
                Some(t) => {
                    if t.seq == seq {
                        let b = self.que[n - 1].duplicate();
                        self.tx_buf.push_front(b);
                    }
                },
                None => {},
            }
        }
        assert(bufs_view(self.tx_buf@) =~= timed_out(bufs_view(self.que@), bufs_view(tx0), seq));
    }

    /// The oldest message that is due to be sent, taken out of the send
    /// queue.
    pub fn tx(&mut self) -> (b: Option<EnqueuedBuffer>)
        ensures
            old(self)@.tx_buf.len() == 0 ==> b is None && final(self)@ == old(self)@,
            old(self)@.tx_buf.len() > 0 ==> (b matches Some(e) && e@ == old(self)@.tx_buf.last()
                && final(self)@ == (StateV {
                tx_buf: old(self)@.tx_buf.drop_last(),
                ..old(self)@
            })),
    {
        let ghost tx0 = self.tx_buf@;
        let b = self.tx_buf.pop_back();
        proof {
            if tx0.len() > 0 {
                assert(bufs_view(self.tx_buf@) =~= bufs_view(tx0).drop_last());
            }
        }
        b
    }

    /// The smallest id of a widget of type `typ` and name `name`.
    pub fn widget_id(&self, typ: &str, name: Option<String>) -> (r: Option<u16>)
        ensures
            r == widget_id_spec(self@, typ@, opt_str_view(name)),
    {
        let t = typ.to_owned();
        let mut i: u32 = 0;
        while i < 0x10000
            invariant
                i <= 0x10000,
                t@ == typ@,
                widget_from(self@.widgets, typ@, opt_str_view(name), 0) == widget_from(
                    self@.widgets,
                    typ@,
                    opt_str_view(name),
                    i as int,
                ),
            decreases 0x10000 - i,
        {
            let id = i as u16;
            match self.widgets.get(&id) {
                Some(w) => {
                    assert(self@.widgets[id] == w@);
                    if w.typ == t && same_opt_str(&w.name, &name) {
                        return Some(id);
                    }
                },
                None => {},
            }
            i = i + 1;
        }
        None
    }

    pub fn widget_exists(&self, typ: &str, name: Option<String>) -> (b: bool)
        ensures
            b == widget_id_spec(self@, typ@, opt_str_view(name)) is Some,
    {
        match self.widget_id(typ, name) {
            Some(_) => true,
            None => false,
        }
    }

    /// Opens the session with the login and the cookie of the
    /// authentication.
    pub fn connect(&mut self, login: &str, cookie: &[u8]) -> (res: Result<(), Error>)
        ensures
            (final(self)@, outcome(res)) == enqueue_spec(
                old(self)@,
                ClientMessageV::Sess(crate::proto::message_sess::CSessV { login: login@, cookie: cookie@ }),
            ),
    {
        self.enqueue_to_send(ClientMessage::SESS(cSess::new(login.to_owned(), slice_to_vec(cookie))))
    }

    /// Requests the grid at `(x, y)` unless it was received.
    pub fn mapreq(&mut self, x: i32, y: i32) -> (res: Result<(), Error>)
        ensures
            res is Ok,
            final(self)@ == mapreq_spec(old(self)@, x, y),
    {
        if !self.map.has_grid((x, y)) {
            self.enqueue_to_send(ClientMessage::MAPREQ(MapReq::new(x, y)))?;
        }
        Ok(())
    }

    /// Closes the session.
    pub fn close(&mut self) -> (res: Result<(), Error>)
        ensures
            res is Ok,
            final(self)@ == enqueue_spec(old(self)@, ClientMessageV::Close).0,
    {
        self.enqueue_to_send(ClientMessage::CLOSE(Close))
    }

    fn send_wdgmsg(&mut self, id: u16, name: String, args: Vec<List>) -> (res: Result<(), Error>)
        ensures
            (final(self)@, outcome(res)) == enqueue_spec(
                old(self)@,
                wdgmsg_rel(id, name@, crate::list::lists_view(args@)),
            ),
    {
        let mut rel = Rels::new(0);
        rel.append(Rel::WDGMSG(WdgMsg::new(id, name, args)));
        proof {
            assert(rel@.rels =~= seq![RelV::WdgMsg(WdgMsgV { id, name: name@, args: crate::list::lists_view(args@) })]);
        }
        self.enqueue_to_send(ClientMessage::REL(rel))
    }
    /// Chooses the character number `i` of the character list.
    pub fn send_play(&mut self, i: usize) -> (res: Result<(), Error>)
        requires
            i < old(self)@.charlist.len(),
            widget_id_spec(old(self)@, "charlist"@, None) is Some,
        ensures
            (final(self)@, outcome(res)) == enqueue_spec(
                old(self)@,
                wdgmsg_rel(
                    widget_id_spec(old(self)@, "charlist"@, None)->0,
                    "play"@,
                    seq![ListV::Str(old(self)@.charlist[i as int])],
                ),
            ),
            res is Ok,
    {
        let id = match self.widget_id("charlist", None) {
            Some(id) => id,
            None => {
                return Err(Error::of(ErrorKind::NoWidget));
            },
        };
        let charname = copy_str(&self.charlist[i]);
        let mut args: Vec<List> = Vec::new();
        args.push(List::Str(charname));
        proof {
            assert(crate::list::lists_view(args@) =~= seq![ListV::Str(self@.charlist[i as int])]) by {
                crate::list::lemma_lists_view_len(args@);
                crate::list::lemma_lists_view_index(args@, 0);
            }
        }
        self.send_wdgmsg(id, "play".to_owned(), args)
    }

    /// Walks to the world position `(x, y)`.
    pub fn go(&mut self, x: i32, y: i32) -> (res: Result<(), Error>)
        requires
            widget_id_spec(old(self)@, "mapview"@, None) is Some,
        ensures
            (final(self)@, outcome(res)) == enqueue_spec(old(self)@, go_msg(old(self)@, x, y)),
            res is Ok,
    {
        let id = match self.widget_id("mapview", None) {
            Some(id) => id,
            None => {
                return Err(Error::of(ErrorKind::NoWidget));
            },
        };
        let mut args: Vec<List> = Vec::new();
        args.push(List::Coord((907, 755)));
        args.push(List::Coord((x, y)));
        args.push(List::Int(1));
        args.push(List::Int(0));
        proof {
            crate::list::lemma_lists_view_len(args@);
            crate::list::lemma_lists_view_index(args@, 0);
            crate::list::lemma_lists_view_index(args@, 1);
            crate::list::lemma_lists_view_index(args@, 2);
            crate::list::lemma_lists_view_index(args@, 3);
            assert(crate::list::lists_view(args@) =~= seq![
                ListV::Coord((907, 755)),
                ListV::Coord((x, y)),
                ListV::Int(1),
                ListV::Int(0),
            ]);
        }
        self.send_wdgmsg(id, "click".to_owned(), args)
    }

    /// Picks up the object `obj_id`.
    pub fn pick(&mut self, obj_id: u32) -> (res: Result<(), Error>)
        requires
            widget_id_spec(old(self)@, "mapview"@, None) is Some,
            old(self)@.objects.contains_key(obj_id),
            old(self)@.objects[obj_id].xy matches Some(xy) && xy.0 > i32::MIN && xy.1 < i32::MAX,
        ensures
            ({
                let xy = old(self)@.objects[obj_id].xy->0;
                (final(self)@, outcome(res)) == enqueue_spec(
                    old(self)@,
                    wdgmsg_rel(
                        widget_id_spec(old(self)@, "mapview"@, None)->0,
                        "click"@,
                        seq![
                            ListV::Coord((863, 832)),
                            ListV::Coord(((xy.0 - 1) as i32, (xy.1 + 1) as i32)),
                            ListV::Int(3),
                            ListV::Int(0),
                            ListV::Int(0),
                            ListV::Int(obj_id as i32),
                            ListV::Coord(xy),
                            ListV::Int(0),
                            ListV::Int(-1i32),
                        ],
                    ),
                )
            }),
            res is Ok,
    {
        let id = match self.widget_id("mapview", None) {
            Some(id) => id,
            None => {
                return Err(Error::of(ErrorKind::NoWidget));
            },
        };
        let (obj_x, obj_y) = match self.objects.get(&obj_id) {
            Some(obj) => match obj.xy {
                Some(xy) => xy,
                None => {
                    return Err(Error::of(ErrorKind::NoObject));
                },
            },
            None => {
                return Err(Error::of(ErrorKind::NoObject));
            },
        };
        let mut args: Vec<List> = Vec::new();
        args.push(List::Coord((863, 832)));
        args.push(List::Coord((obj_x - 1, obj_y + 1)));
        args.push(List::Int(3));
        args.push(List::Int(0));
        args.push(List::Int(0));
        args.push(List::Int(obj_id as i32));
        args.push(List::Coord((obj_x, obj_y)));
        args.push(List::Int(0));
        args.push(List::Int(-1));
        proof {
            crate::list::lemma_lists_view_len(args@);
            assert forall|k: int| 0 <= k < 9 implies crate::list::lists_view(args@)[k] == args@[k]@ by {
                crate::list::lemma_lists_view_index(args@, k);
            }
            assert(crate::list::lists_view(args@) =~= seq![
                ListV::Coord((863, 832)),
                ListV::Coord(((obj_x - 1) as i32, (obj_y + 1) as i32)),
                ListV::Int(3),
                ListV::Int(0),
                ListV::Int(0),
                ListV::Int(obj_id as i32),
                ListV::Coord((obj_x, obj_y)),
                ListV::Int(0),
                ListV::Int(-1i32),
            ]);
        }
        self.send_wdgmsg(id, "click".to_owned(), args)
    }

    /// Chooses the first entry of the flower menu `wdg_id`.
    pub fn choose_pick(&mut self, wdg_id: u16) -> (res: Result<(), Error>)
        ensures
            (final(self)@, outcome(res)) == enqueue_spec(
                old(self)@,
                wdgmsg_rel(wdg_id, "cl"@, seq![ListV::Int(0), ListV::Int(0)]),
            ),
            res is Ok,
    {
        let mut args: Vec<List> = Vec::new();
        args.push(List::Int(0));
        args.push(List::Int(0));
        proof {
            crate::list::lemma_lists_view_len(args@);
            crate::list::lemma_lists_view_index(args@, 0);
            crate::list::lemma_lists_view_index(args@, 1);
            assert(crate::list::lists_view(args@) =~= seq![ListV::Int(0), ListV::Int(0)]);
        }
        self.send_wdgmsg(wdg_id, "cl".to_owned(), args)
    }

    /// The hero's object.
    pub fn hero_obj(&self) -> (o: Option<&Obj>)
        ensures
            match o {
                Some(x) => hero_obj_spec(self@) == Some(*x),
                None => hero_obj_spec(self@) is None,
            },
    {
        match self.hero.obj {
            Some(id) => self.objects.get(&id),
            None => None,
        }
    }

    pub fn hero_xy(&self) -> (r: Option<(i32, i32)>)
        ensures
            r == hero_xy_spec(self@),
    {
        match self.hero_obj() {
            Some(hero) => hero.xy,
            None => None,
        }
    }

    pub fn hero_grid_xy(&self) -> (r: Option<(i32, i32)>)
        ensures
            r == hero_grid_xy_spec(self@),
    {
        match self.hero_xy() {
            Some(xy) => Some(grid(xy)),
            None => None,
        }
    }

    /// The record of the grid that the hero is in.
    pub fn hero_grid(&self) -> (r: Option<&GridHint>)
        ensures
            match r {
                Some(g) => hero_grid_spec(self@) == Some(g@),
                None => hero_grid_spec(self@) is None,
            },
    {
        match self.hero_grid_xy() {
            Some(xy) => {
                let mut i: usize = 0;
                while i < self.map.grids.len()
                    invariant
                        i <= self.map.grids@.len(),
                        hero_grid_xy_spec(self@) == Some(xy),
                        grid_from(self@.map.grids, xy, 0) == grid_from(self@.map.grids, xy, i as int),
                    decreases self.map.grids@.len() - i,
                {
                    assert(self@.map.grids[i as int] == self.map.grids@[i as int]@);
                    if self.map.grids[i].xy.0 == xy.0 && self.map.grids[i].xy.1 == xy.1 {
                        return Some(&self.map.grids[i]);
                    }
                    i = i + 1;
                }
                None
            },
            None => None,
        }
    }

    pub fn hero_exists(&self) -> (b: bool)
        ensures
            b == hero_obj_spec(self@) is Some,
    {
        match self.hero_obj() {
            Some(_) => true,
            None => false,
        }
    }

    pub fn hero_grid_exists(&self) -> (b: bool)
        ensures
            b == hero_grid_spec(self@) is Some,
    {
        match self.hero_grid() {
            Some(_) => true,
            None => false,
        }
    }

    pub fn hero_movement(&self) -> (m: Option<crate::state::obj::Movement>)
        ensures
            m == (match hero_obj_spec(self@) {
                Some(o) => o.movement,
                None => None,
            }),
    {
        match self.hero_obj() {
            Some(hero) => hero.movement,
            None => None,
        }
    }

    pub fn hero_is_moving(&self) -> (b: bool)
        ensures
            b == (hero_obj_spec(self@) matches Some(o) && o.movement is Some),
    {
        match self.hero_movement() {
            Some(_) => true,
            None => false,
        }
    }

    /// Where the hero was when its object became known.
    pub fn start_point(&self) -> (r: Option<(i32, i32)>)
        ensures
            r == self@.hero.start_xy,
    {
        self.hero.start_xy
    }

    /// The oldest event not yet taken.
    pub fn next_event(&mut self) -> (e: Option<Event>)
        ensures
            old(self)@.events.len() == 0 ==> e is None && final(self)@ == old(self)@,
            old(self)@.events.len() > 0 ==> (e matches Some(x) && x@ == old(self)@.events.last()
                && final(self)@ == (StateV {
                events: old(self)@.events.drop_last(),
                ..old(self)@
            })),
    {
        let ghost ev0 = self.events@;
        let e = self.events.pop_back();
        proof {
            if ev0.len() > 0 {
                assert(events_view(self.events@) =~= events_view(ev0).drop_last());
            }
        }
        e
    }
}

} // verus!
