//! A plainer session, kept beside the ordered one: every REL message is
//! acknowledged on arrival and its elements applied at once; an ACK of the
//! current number moves the number on; objects keep only a resource and a
//! position, and the grids under them are requested; nothing is resent.
use vstd::prelude::*;
use std::collections::{HashMap, VecDeque};
use crate::error::{Error, ErrorKind};
use crate::list::{List, ListV};
use crate::proto::message::{ClientMessage, ClientMessageV, ServerMessage, ServerMessageV, client_bytes, client_encodable, p_server_body, with_remains};
use crate::proto::message_ack::Ack;
use crate::proto::message_mapreq::MapReq;
use crate::proto::message_objack::{ObjAck, objacks};
use crate::proto::message_objdata::{ObjData, ObjDataElemProp, ObjDataElemV, PropV};
use crate::proto::message_rel::{Rel, Rels, RelsV, RelV, WdgMsg, WdgMsgV};
use crate::proto::message_sess::{cSess, CSessV, SessError};
use crate::codec::Reader;
use crate::pages::{is_key_order, map_keys};
use crate::state::dispatch::last_seq;
use crate::state::map::next_offset;

verus! {

broadcast use vstd::std_specs::hash::group_hash_axioms;

/// An object: its resource and position.
#[derive(Clone, Copy, Debug)]
pub struct Obj {
    pub resid: u16,
    pub xy: (i32, i32),
}

/// The session: widget types by id, objects, the grids asked for, the
/// characters offered, resource names, the number of the next REL message
/// sent, the messages to repeat and the messages to send (both newest
/// first).
pub struct Client {
    pub user: String,
    pub cookie: Vec<u8>,
    pub widgets: HashMap<u16, String>,
    pub objects: HashMap<u32, Obj>,
    pub grids: Vec<(i32, i32)>,
    pub charlist: Vec<String>,
    pub resources: HashMap<u16, String>,
    pub seq: u16,
    pub que: VecDeque<Vec<u8>>,
    pub tx_buf: VecDeque<Vec<u8>>,
}

pub struct ClientV {
    pub user: Seq<char>,
    pub cookie: Seq<u8>,
    pub widgets: Map<u16, Seq<char>>,
    pub objects: Map<u32, Obj>,
    pub grids: Seq<(i32, i32)>,
    pub charlist: Seq<Seq<char>>,
    pub resources: Map<u16, Seq<char>>,
    pub seq: u16,
    pub que: Seq<Seq<u8>>,
    pub tx_buf: Seq<Seq<u8>>,
}

pub open spec fn names_view(m: Map<u16, String>) -> Map<u16, Seq<char>> {
    m.map_values(|s: String| s@)
}

pub open spec fn texts_view(v: Seq<String>) -> Seq<Seq<char>> {
    v.map_values(|s: String| s@)
}

pub open spec fn bytes_view(v: Seq<Vec<u8>>) -> Seq<Seq<u8>> {
    v.map_values(|b: Vec<u8>| b@)
}

impl View for Client {
    type V = ClientV;

    open spec fn view(&self) -> ClientV {
        ClientV {
            user: self.user@,
            cookie: self.cookie@,
            widgets: names_view(self.widgets@),
            objects: self.objects@,
            grids: self.grids@,
            charlist: texts_view(self.charlist@),
            resources: names_view(self.resources@),
            seq: self.seq,
            que: bytes_view(self.que@),
            tx_buf: bytes_view(self.tx_buf@),
        }
    }
}

// ---------------------------------------------------------------------------
// What the session does

/// A message put before those to send, when it has an encoding; one
/// without is dropped.
pub open spec fn sent(c: ClientV, m: ClientMessageV) -> ClientV {
    if client_encodable(m) {
        ClientV { tx_buf: seq![client_bytes(m)] + c.tx_buf, ..c }
    } else {
        c
    }
}

/// Whether a message is a character added to the character list.
pub open spec fn adds_character(c: ClientV, m: WdgMsgV) -> bool {
    c.widgets.contains_key(m.id) && c.widgets[m.id] == "charlist"@ && m.name == "add"@
}

/// A REL element: a new widget is recorded by its type; a character added
/// to the character list by name is kept; a resource name is recorded.
pub open spec fn elem_step(c: ClientV, e: RelV) -> ClientV {
    match e {
        RelV::NewWdg(w) => ClientV { widgets: c.widgets.insert(w.id, w.name), ..c },
        RelV::WdgMsg(m) => if adds_character(c, m) && m.args.len() > 0 && m.args[0] is Str {
            ClientV { charlist: c.charlist.push(m.args[0]->Str_0), ..c }
        } else {
            c
        },
        RelV::ResId(r) => ClientV { resources: c.resources.insert(r.id, r.name), ..c },
        _ => c,
    }
}

pub open spec fn elems_step(c: ClientV, es: Seq<RelV>, i: int) -> ClientV
    decreases es.len() - i,
{
    if i < 0 || i >= es.len() {
        c
    } else {
        elems_step(elem_step(c, es[i]), es, i + 1)
    }
}

/// The elements of a REL message can be applied: a character added to the
/// character list comes with an argument.
pub open spec fn elems_ok(c: ClientV, es: Seq<RelV>, i: int) -> bool
    decreases es.len() - i,
{
    if i < 0 || i >= es.len() {
        true
    } else {
        (es[i] matches RelV::WdgMsg(m) ==> (adds_character(c, m) ==> m.args.len() > 0))
            && elems_ok(elem_step(c, es[i]), es, i + 1)
    }
}

/// A REL message: its last element is acknowledged, then its elements are
/// applied.
pub open spec fn rel_step(c: ClientV, r: RelsV) -> ClientV {
    elems_step(sent(c, ClientMessageV::Ack(Ack { seq: last_seq(r) })), r.rels, 0)
}

/// An object after properties: a move sets the position, a resource or a
/// composition the resource.
pub open spec fn props_step(o: Obj, ps: Seq<PropV>, i: int) -> Obj
    decreases ps.len() - i,
{
    if i < 0 || i >= ps.len() {
        o
    } else {
        let o1 = match ps[i] {
            PropV::Move(xy, _) => Obj { xy, ..o },
            PropV::Res(r) => Obj { resid: r, ..o },
            PropV::Compose(r) => Obj { resid: r, ..o },
            _ => o,
        };
        props_step(o1, ps, i + 1)
    }
}

/// Object updates applied in turn; an unknown object starts with resource 0
/// at (0, 0).
pub open spec fn objs_step(c: ClientV, os: Seq<ObjDataElemV>, i: int) -> ClientV
    decreases os.len() - i,
{
    if i < 0 || i >= os.len() {
        c
    } else {
        let o = os[i];
        let base = if c.objects.contains_key(o.id) {
            c.objects[o.id]
        } else {
            Obj { resid: 0, xy: (0, 0) }
        };
        objs_step(ClientV { objects: c.objects.insert(o.id, props_step(base, o.prop, 0)), ..c }, os, i + 1)
    }
}

/// A coordinate divided by the grid size, rounded towards zero.
pub open spec fn tdiv(x: int) -> int {
    if x >= 0 {
        x / 1100
    } else {
        -((-x) / 1100)
    }
}

pub open spec fn grid_of(xy: (i32, i32)) -> (i32, i32) {
    (tdiv(xy.0 as int) as i32, tdiv(xy.1 as int) as i32)
}

/// The grids under the objects, taken in the order `ks`: each grid not yet
/// asked for is added to `grids` and to the new ones `fresh`.
pub open spec fn grids_walk(
    objs: Map<u32, Obj>,
    ks: Seq<u32>,
    i: int,
    grids: Seq<(i32, i32)>,
    fresh: Seq<(i32, i32)>,
) -> (Seq<(i32, i32)>, Seq<(i32, i32)>)
    decreases ks.len() - i,
{
    if i < 0 || i >= ks.len() {
        (grids, fresh)
    } else {
        let g = grid_of(objs[ks[i]].xy);
        if grids.contains(g) {
            grids_walk(objs, ks, i + 1, grids, fresh)
        } else {
            grids_walk(objs, ks, i + 1, grids.push(g), fresh.push(g))
        }
    }
}

/// Grid requests sent in turn.
pub open spec fn mapreqs_sent(c: ClientV, gs: Seq<(i32, i32)>, i: int) -> ClientV
    decreases gs.len() - i,
{
    if i < 0 || i >= gs.len() {
        c
    } else {
        mapreqs_sent(sent(c, ClientMessageV::MapReq(MapReq { x: gs[i].0, y: gs[i].1 })), gs, i + 1)
    }
}

/// Object updates: acknowledged, applied, and the grids under all objects,
/// taken in the order `ks`, that were not asked for are asked for.
pub open spec fn objdata_step(c: ClientV, os: Seq<ObjDataElemV>, ks: Seq<u32>) -> ClientV {
    let c1 = objs_step(sent(c, ClientMessageV::ObjAck(objacks(os))), os, 0);
    let (g, fresh) = grids_walk(c1.objects, ks, 0, c1.grids, seq![]);
    mapreqs_sent(ClientV { grids: g, ..c1 }, fresh, 0)
}

/// The objects after object updates, whose keys give the order in which
/// their grids are looked at.
pub open spec fn objdata_objects(c: ClientV, os: Seq<ObjDataElemV>) -> Map<u32, Obj> {
    objs_step(sent(c, ClientMessageV::ObjAck(objacks(os))), os, 0).objects
}

/// A message of the server can be applied.
pub open spec fn dispatch_ok(c: ClientV, m: ServerMessageV) -> bool {
    m matches ServerMessageV::Rel(r) ==> elems_ok(sent(c, ClientMessageV::Ack(Ack { seq: last_seq(r) })), r.rels, 0)
}

/// What a message of the server does to the session, the objects' grids
/// looked at in the order `ks`: a refused session and a close are errors.
pub open spec fn dispatch_step(c: ClientV, m: ServerMessageV, ks: Seq<u32>) -> (ClientV, Result<(), ErrorKind>) {
    match m {
        ServerMessageV::Sess(ss) => if ss.err == SessError::OK {
            (c, Ok(()))
        } else {
            (c, Err(ErrorKind::Session))
        },
        ServerMessageV::Rel(r) => (rel_step(c, r), Ok(())),
        ServerMessageV::Ack(a) => if a.seq == c.seq {
            (ClientV { seq: next_offset(c.seq, 1), ..c }, Ok(()))
        } else {
            (c, Ok(()))
        },
        ServerMessageV::MapData(_) => (c, Ok(())),
        ServerMessageV::ObjData(os) => (objdata_step(c, os, ks), Ok(())),
        ServerMessageV::Close => (c, Err(ErrorKind::Closed)),
    }
}

/// The order in which the grids under the objects are looked at: that of
/// the keys of the objects after the update, each once.
pub open spec fn grid_order_ok(c: ClientV, m: ServerMessageV, ks: Seq<u32>) -> bool {
    match m {
        ServerMessageV::ObjData(os) => is_key_order(ks, objdata_objects(c, os)),
        _ => true,
    }
}

// ---------------------------------------------------------------------------
// The session at work

/// Whether `w` is the type `t`.
fn is_type(w: &String, t: &str) -> (b: bool)
    ensures
        b == (w@ == t@),
{
    *w == t.to_owned()
}

impl Client {
    /// A new session: only the root widget exists.
    pub fn new() -> (c: Client)
        ensures
            c@.widgets == map![0u16 => "root"@],
            c@.objects == Map::<u32, Obj>::empty(),
            c@.grids == Seq::<(i32, i32)>::empty(),
            c@.charlist == Seq::<Seq<char>>::empty(),
            c@.resources == Map::<u16, Seq<char>>::empty(),
            c@.seq == 0,
            c@.que == Seq::<Seq<u8>>::empty(),
            c@.tx_buf == Seq::<Seq<u8>>::empty(),
            c@.user == Seq::<char>::empty(),
            c@.cookie == Seq::<u8>::empty(),
    {
        let mut widgets: HashMap<u16, String> = HashMap::new();
        widgets.insert(0, "root".to_owned());
        let c = Client {
            user: String::new(),
            cookie: Vec::new(),
            widgets,
            objects: HashMap::new(),
            grids: Vec::new(),
            charlist: Vec::new(),
            resources: HashMap::new(),
            seq: 0,
            que: VecDeque::new(),
            tx_buf: VecDeque::new(),
        };
        proof {
            assert(c@.widgets =~= map![0u16 => "root"@]);
            assert(c@.charlist =~= Seq::<Seq<char>>::empty());
            assert(c@.resources =~= Map::<u16, Seq<char>>::empty());
            assert(c@.que =~= Seq::<Seq<u8>>::empty());
            assert(c@.tx_buf =~= Seq::<Seq<u8>>::empty());
        }
        c
    }

    /// Puts a message before those to send; one without an encoding is
    /// dropped.
    pub fn enqueue_to_send(&mut self, msg: ClientMessage)
        ensures
            final(self)@ == sent(old(self)@, msg@),
    {
        let mut buf: Vec<u8> = Vec::new();
        match msg.to_buf(&mut buf) {
            Ok(()) => {
                let ghost b = buf@;
                let ghost t0 = self.tx_buf@;
                self.tx_buf.push_front(buf);
                assert(bytes_view(self.tx_buf@) =~= seq![b] + bytes_view(t0));
            },
            Err(_) => {},
        }
    }

    /// Puts a message before those to send and before those to repeat.
    pub fn enqueue_to_send_and_repeat(&mut self, msg: ClientMessage)
        ensures
            final(self)@ == if client_encodable(msg@) {
                ClientV {
                    que: seq![client_bytes(msg@)] + old(self)@.que,
                    tx_buf: seq![client_bytes(msg@)] + old(self)@.tx_buf,
                    ..old(self)@
                }
            } else {
                old(self)@
            },
    {
        let mut buf: Vec<u8> = Vec::new();
        match msg.to_buf(&mut buf) {
            Ok(()) => {
                let ghost b = buf@;
                let ghost t0 = self.tx_buf@;
                let ghost q0 = self.que@;
                let copy = crate::codec::slice_to_vec(buf.as_slice());
                self.tx_buf.push_front(copy);
                self.que.push_front(buf);
                assert(bytes_view(self.tx_buf@) =~= seq![b] + bytes_view(t0));
                assert(bytes_view(self.que@) =~= seq![b] + bytes_view(q0));
            },
            Err(_) => {},
        }
    }

    /// Opens the session with the login and the cookie, to be repeated.
    pub fn connect(&mut self)
        ensures
            ({
                let m = ClientMessageV::Sess(CSessV { login: old(self)@.user, cookie: old(self)@.cookie });
                final(self)@ == if client_encodable(m) {
                    ClientV {
                        que: seq![client_bytes(m)] + old(self)@.que,
                        tx_buf: seq![client_bytes(m)] + old(self)@.tx_buf,
                        ..old(self)@
                    }
                } else {
                    old(self)@
                }
            }),
    {
        let login = crate::state::session::copy_str(&self.user);
        let cookie = crate::codec::slice_to_vec(self.cookie.as_slice());
        self.enqueue_to_send_and_repeat(ClientMessage::SESS(cSess::new(login, cookie)));
    }

    /// Asks for the grid at `(x, y)`.
    pub fn mapreq(&mut self, x: i32, y: i32)
        ensures
            final(self)@ == sent(old(self)@, ClientMessageV::MapReq(MapReq { x, y })),
    {
        self.enqueue_to_send(ClientMessage::MAPREQ(MapReq::new(x, y)));
    }

    fn dispatch_elem(&mut self, e: &Rel)
        requires
            e@ matches RelV::WdgMsg(m) ==> (adds_character(old(self)@, m) ==> m.args.len() > 0),
        ensures
            final(self)@ == elem_step(old(self)@, e@),
    {
        match e {
            Rel::NEWWDG(w) => {
                let ghost w0 = self.widgets@;
                self.widgets.insert(w.id, crate::state::session::copy_str(&w.name));
                assert(names_view(self.widgets@) =~= names_view(w0).insert(w.id, w.name@));
            },
            Rel::WDGMSG(m) => {
                let is_charlist = match self.widgets.get(&m.id) {
                    Some(t) => is_type(t, "charlist"),
                    None => false,
                };
                if is_charlist && m.name == "add".to_owned() {
                    proof {
                        crate::list::lemma_lists_view_len(m.args@);
                    }
                    if let List::Str(n) = &m.args[0] {
                        proof {
                            crate::list::lemma_lists_view_index(m.args@, 0);
                        }
                        let ghost c0 = self.charlist@;
                        self.charlist.push(crate::state::session::copy_str(n));
                        assert(texts_view(self.charlist@) =~= texts_view(c0).push(n@));
                    } else {
                        proof {
                            crate::list::lemma_lists_view_index(m.args@, 0);
                        }
                    }
                }
            },
            Rel::RESID(r) => {
                let ghost r0 = self.resources@;
                self.resources.insert(r.id, crate::state::session::copy_str(&r.name));
                assert(names_view(self.resources@) =~= names_view(r0).insert(r.id, r.name@));
            },
            _ => {},
        }
    }

    /// Acknowledges a REL message, then applies its elements in turn.
    pub fn dispatch_rel(&mut self, rel: &Rels)
        requires
            elems_ok(sent(old(self)@, ClientMessageV::Ack(Ack { seq: last_seq(rel@) })), rel@.rels, 0),
        ensures
            final(self)@ == rel_step(old(self)@, rel@),
    {
        let mut last = crate::state::map::next_off(rel.seq, rel.rels.len());
        last = if last == 0 { 0xffff } else { last - 1 };
        assert(last == last_seq(rel@)) by {
            assert(next_offset(rel.seq, rel@.rels.len() as int - 1) == if next_offset(rel.seq, rel@.rels.len() as int) == 0 { 0xffffu16 } else { (next_offset(rel.seq, rel@.rels.len() as int) - 1) as u16 });
        }
        self.enqueue_to_send(ClientMessage::ACK(Ack::new(last)));
        let ghost s1 = self@;
        let ghost es = rel@.rels;
        let mut i: usize = 0;
        while i < rel.rels.len()
            invariant
                i <= rel.rels@.len(),
                es == crate::proto::message_rel::rels_view(rel.rels@),
                es.len() == rel.rels@.len(),
                elems_step(s1, es, 0) == elems_step(self@, es, i as int),
                elems_ok(self@, es, i as int),
            decreases rel.rels@.len() - i,
        {
            assert(es[i as int] == rel.rels@[i as int]@);
            self.dispatch_elem(&rel.rels[i]);
            i = i + 1;
        }
    }
}

fn tdiv_exec(x: i32) -> (r: i32)
    ensures
        r == tdiv(x as int),
{
    let v = x as i64;
    let q = if v >= 0 { v / 1100 } else { -((-v) / 1100) };
    q as i32
}

fn apply_props(o: Obj, ps: &Vec<ObjDataElemProp>) -> (r: Obj)
    ensures
        r == props_step(o, crate::proto::message_objdata::props_view(ps@), 0),
{
    let ghost pv = crate::proto::message_objdata::props_view(ps@);
    let mut r = o;
    let mut i: usize = 0;
    while i < ps.len()
        invariant
            i <= ps@.len(),
            pv == crate::proto::message_objdata::props_view(ps@),
            pv.len() == ps@.len(),
            props_step(o, pv, 0) == props_step(r, pv, i as int),
        decreases ps@.len() - i,
    {
        assert(pv[i as int] == ps@[i as int]@);
        match &ps[i] {
            ObjDataElemProp::odMOVE(xy, _) => {
                r = Obj { xy: *xy, ..r };
            },
            ObjDataElemProp::odRES(id) => {
                r = Obj { resid: *id, ..r };
            },
            ObjDataElemProp::odCOMPOSE(id) => {
                r = Obj { resid: *id, ..r };
            },
            _ => {},
        }
        i = i + 1;
    }
    r
}

impl Client {
    fn dispatch_objs(&mut self, objdata: &ObjData)
        ensures
            final(self)@ == objs_step(old(self)@, objdata@, 0),
    {
        let ghost os = objdata@;
        let mut i: usize = 0;
        while i < objdata.obj.len()
            invariant
                i <= objdata.obj@.len(),
                os == objdata@,
                os.len() == objdata.obj@.len(),
                objs_step(old(self)@, os, 0) == objs_step(self@, os, i as int),
            decreases objdata.obj@.len() - i,
        {
            let o = &objdata.obj[i];
            assert(os[i as int] == o@);
            let base = match self.objects.get(&o.id) {
                Some(x) => *x,
                None => Obj { resid: 0, xy: (0, 0) },
            };
            let n = apply_props(base, &o.prop);
            self.objects.insert(o.id, n);
            i = i + 1;
        }
    }

    fn grids_contain(&self, g: (i32, i32)) -> (b: bool)
        ensures
            b == self@.grids.contains(g),
    {
        let mut i: usize = 0;
        while i < self.grids.len()
            invariant
                i <= self.grids@.len(),
                forall|j: int| 0 <= j < i ==> self.grids@[j] != g,
            decreases self.grids@.len() - i,
        {
            if self.grids[i].0 == g.0 && self.grids[i].1 == g.1 {
                assert(self.grids@[i as int] == g);
                return true;
            }
            i = i + 1;
        }
        false
    }

    /// Asks for the grids under the objects, in the order the objects are
    /// given out, that were not asked for.
    fn request_grids(&mut self) -> (ks: Ghost<Seq<u32>>)
        ensures
            is_key_order(ks@, old(self)@.objects),
            ({
                let (g, fresh) = grids_walk(old(self)@.objects, ks@, 0, old(self)@.grids, seq![]);
                final(self)@ == mapreqs_sent(ClientV { grids: g, ..old(self)@ }, fresh, 0)
            }),
    {
        let ks = map_keys(&self.objects);
        let ghost objs = self@.objects;
        proof {
            assert forall|i: int| 0 <= i < ks@.len() implies objs.contains_key(#[trigger] ks@[i]) by {
                assert(ks@.contains(ks@[i]));
                assert(ks@.to_set().contains(ks@[i]));
            }
        }
        let mut fresh: Vec<(i32, i32)> = Vec::new();
        let mut i: usize = 0;
        while i < ks.len()
            invariant
                i <= ks@.len(),
                objs == self@.objects,
                objs == old(self)@.objects,
                forall|j: int| 0 <= j < ks@.len() ==> objs.contains_key(#[trigger] ks@[j]),
                self@ == (ClientV { grids: self@.grids, ..old(self)@ }),
                grids_walk(objs, ks@, 0, old(self)@.grids, seq![]) == grids_walk(objs, ks@, i as int, self@.grids, fresh@),
            decreases ks@.len() - i,
        {
            let k = ks[i];
            assert(objs.contains_key(ks@[i as int]));
            let xy = match self.objects.get(&k) {
                Some(o) => o.xy,
                None => {
                    assert(false);
                    (0, 0)
                },
            };
            let g = (tdiv_exec(xy.0), tdiv_exec(xy.1));
            assert(g == grid_of(objs[ks@[i as int]].xy));
            if !self.grids_contain(g) {
                self.grids.push(g);
                fresh.push(g);
            }
            i = i + 1;
        }
        let ghost c1 = self@;
        let mut j: usize = 0;
        while j < fresh.len()
            invariant
                j <= fresh@.len(),
                mapreqs_sent(c1, fresh@, 0) == mapreqs_sent(self@, fresh@, j as int),
            decreases fresh@.len() - j,
        {
            let g = fresh[j];
            self.mapreq(g.0, g.1);
            j = j + 1;
        }
        Ghost(ks@)
    }

    /// Acknowledges object updates, applies them, then asks for the grids
    /// under the objects that were not asked for.
    pub fn dispatch_objdata(&mut self, objdata: &ObjData)
        ensures
            exists|ks: Seq<u32>|
                is_key_order(ks, objdata_objects(old(self)@, objdata@))
                && final(self)@ == #[trigger] objdata_step(old(self)@, objdata@, ks),
    {
        let ack = ObjAck::from_objdata(objdata);
        self.enqueue_to_send(ClientMessage::OBJACK(ack));
        self.dispatch_objs(objdata);
        let ks = self.request_grids();
        assert(final(self)@ == objdata_step(old(self)@, objdata@, ks@));
    }
}

/// The character list widget exists when a character was offered, so
/// that the first one can be chosen.
pub open spec fn react_ok(c: ClientV) -> bool {
    c.charlist.len() > 0 ==> exists|id: u16| c.widgets.contains_key(id) && #[trigger] c.widgets[id] == "charlist"@
}

/// The widgets and offered characters after a message of the server: only
/// a REL message changes them.
pub open spec fn names_after(c: ClientV, m: ServerMessageV) -> ClientV {
    match m {
        ServerMessageV::Rel(r) => rel_step(c, r),
        _ => c,
    }
}

/// The message of a datagram can be applied and a character then chosen.
pub open spec fn rx_ok(c: ClientV, buf: Seq<u8>) -> bool {
    match with_remains(buf, p_server_body(buf, 0)) {
        Err(_) => true,
        Ok((m, _)) => dispatch_ok(c, m) && react_ok(names_after(c, m)),
    }
}

/// What a datagram does, the objects' grids looked at in the order `ks`.
pub open spec fn message_step(c: ClientV, buf: Seq<u8>, ks: Seq<u32>) -> (ClientV, Result<(), ErrorKind>) {
    match with_remains(buf, p_server_body(buf, 0)) {
        Err(k) => (c, Err(k)),
        Ok((m, _)) => dispatch_step(c, m, ks),
    }
}

pub open spec fn message_order_ok(c: ClientV, buf: Seq<u8>, ks: Seq<u32>) -> bool {
    match with_remains(buf, p_server_body(buf, 0)) {
        Err(_) => true,
        Ok((m, _)) => grid_order_ok(c, m, ks),
    }
}

/// The first character offered is chosen through the character list
/// widget `id`, in a REL message numbered as the session's next one, and
/// the offered characters are forgotten.
pub open spec fn react_step(c: ClientV, id: u16) -> ClientV {
    let m = ClientMessageV::Rel(RelsV {
        seq: c.seq,
        rels: seq![RelV::WdgMsg(WdgMsgV { id, name: "play"@, args: seq![ListV::Str(c.charlist[0])] })],
    });
    ClientV { charlist: seq![], ..sent(c, m) }
}

impl Client {
    /// Applies a message of the server.
    pub fn dispatch(&mut self, msg: ServerMessage) -> (res: Result<(), Error>)
        requires
            dispatch_ok(old(self)@, msg@),
        ensures
            exists|ks: Seq<u32>|
                grid_order_ok(old(self)@, msg@, ks)
                && (final(self)@, crate::state::session::outcome(res)) == #[trigger] dispatch_step(old(self)@, msg@, ks),
    {
        let ghost mv = msg@;
        let res = match msg {
            ServerMessage::SESS(sess) => {
                if sess.err == SessError::OK {
                    Ok(())
                } else {
                    Err(Error::of(ErrorKind::Session))
                }
            },
            ServerMessage::REL(rel) => {
                self.dispatch_rel(&rel);
                Ok(())
            },
            ServerMessage::ACK(ack) => {
                if ack.seq == self.seq {
                    self.seq = if self.seq == 0xffff { 0 } else { self.seq + 1 };
                }
                Ok(())
            },
            ServerMessage::MAPDATA(_) => Ok(()),
            ServerMessage::OBJDATA(objdata) => {
                self.dispatch_objdata(&objdata);
                Ok(())
            },
            ServerMessage::CLOSE(_) => Err(Error::of(ErrorKind::Closed)),
        };
        proof {
            if mv is ObjData {
                let os = mv->ObjData_0;
                let ks = choose|ks: Seq<u32>|
                    is_key_order(ks, objdata_objects(old(self)@, os))
                    && self@ == #[trigger] objdata_step(old(self)@, os, ks);
                assert(grid_order_ok(old(self)@, mv, ks) && (self@, crate::state::session::outcome(res)) == dispatch_step(old(self)@, mv, ks));
            } else {
                assert(grid_order_ok(old(self)@, mv, seq![]) && (self@, crate::state::session::outcome(res)) == dispatch_step(old(self)@, mv, seq![]));
            }
        }
        res
    }

    /// Applies a datagram of the server; one that does not decode leaves
    /// the session as it was.
    pub fn dispatch_message(&mut self, buf: &[u8]) -> (res: Result<(), Error>)
        requires
            match with_remains(buf@, p_server_body(buf@, 0)) {
                Err(_) => true,
                Ok((m, _)) => dispatch_ok(old(self)@, m),
            },
        ensures
            exists|ks: Seq<u32>|
                message_order_ok(old(self)@, buf@, ks)
                && (final(self)@, crate::state::session::outcome(res)) == #[trigger] message_step(old(self)@, buf@, ks),
    {
        let mut r = Reader::new(buf);
        let (msg, _remains) = match ServerMessage::from_buf(&mut r) {
            Ok(x) => x,
            Err(e) => {
                assert(message_step(old(self)@, buf@, seq![]) == (old(self)@, crate::state::session::outcome(Err::<(), Error>(e))));
                return Err(e);
            },
        };
        let ghost mv = msg@;
        let res = self.dispatch(msg);
        proof {
            let ks = choose|ks: Seq<u32>|
                grid_order_ok(old(self)@, mv, ks)
                && (self@, crate::state::session::outcome(res)) == #[trigger] dispatch_step(old(self)@, mv, ks);
            assert(message_order_ok(old(self)@, buf@, ks) && (self@, crate::state::session::outcome(res)) == message_step(old(self)@, buf@, ks));
        }
        res
    }

    /// The id of a widget of type `name`, if there is one.
    pub fn widget_id_by_name(&self, name: &str) -> (r: Option<u16>)
        ensures
            match r {
                Some(id) => self@.widgets.contains_key(id) && self@.widgets[id] == name@,
                None => forall|id: u16| self@.widgets.contains_key(id) ==> #[trigger] self@.widgets[id] != name@,
            },
    {
        let ks = map_keys(&self.widgets);
        let mut i: usize = 0;
        while i < ks.len()
            invariant
                i <= ks@.len(),
                ks@.to_set() == self.widgets@.dom(),
                forall|j: int| 0 <= j < i ==> self@.widgets[#[trigger] ks@[j]] != name@,
            decreases ks@.len() - i,
        {
            let k = ks[i];
            assert(ks@.contains(ks@[i as int]));
            assert(ks@.to_set().contains(ks@[i as int]));
            match self.widgets.get(&k) {
                Some(t) => {
                    if is_type(t, name) {
                        return Some(k);
                    }
                },
                None => {},
            }
            i = i + 1;
        }
        proof {
            assert forall|id: u16| self@.widgets.contains_key(id) implies #[trigger] self@.widgets[id] != name@ by {
                assert(ks@.to_set().contains(id));
                let j = choose|j: int| 0 <= j < ks@.len() && ks@[j] == id;
                assert(self@.widgets[ks@[j]] != name@);
            }
        }
        None
    }

    /// Chooses the first character offered, if any.
    pub fn react(&mut self)
        requires
            react_ok(old(self)@),
        ensures
            old(self)@.charlist.len() == 0 ==> final(self)@ == old(self)@,
            old(self)@.charlist.len() > 0 ==> exists|id: u16|
                old(self)@.widgets.contains_key(id) && old(self)@.widgets[id] == "charlist"@
                && final(self)@ == #[trigger] react_step(old(self)@, id),
    {
        if self.charlist.len() > 0 {
            let id = match self.widget_id_by_name("charlist") {
                Some(id) => id,
                None => {
                    assert(false);
                    return;
                },
            };
            let name = crate::state::session::copy_str(&self.charlist[0]);
            let ghost nv = name@;
            let mut args: Vec<List> = Vec::new();
            args.push(List::Str(name));
            let mut rels: Vec<Rel> = Vec::new();
            rels.push(Rel::WDGMSG(WdgMsg { id, name: "play".to_owned(), args }));
            let rel = Rels { seq: self.seq, rels };
            proof {
                assert(crate::list::lists_view(args@) =~= seq![ListV::Str(nv)]) by {
                    reveal_with_fuel(crate::list::lists_view, 2);
                }
                assert(crate::proto::message_rel::rels_view(rels@) =~= seq![RelV::WdgMsg(WdgMsgV { id, name: "play"@, args: seq![ListV::Str(nv)] })]);
            }
            self.enqueue_to_send(ClientMessage::REL(rel));
            self.charlist = Vec::new();
            assert(texts_view(self.charlist@) =~= Seq::<Seq<char>>::empty());
            assert(final(self)@ == react_step(old(self)@, id));
        }
    }
}

/// What choosing a character does: nothing when none was offered; else the
/// choice through some character list widget.
pub open spec fn reacted(c: ClientV, c2: ClientV) -> bool {
    if c.charlist.len() == 0 {
        c2 == c
    } else {
        exists|id: u16| c.widgets.contains_key(id) && c.widgets[id] == "charlist"@ && c2 == #[trigger] react_step(c, id)
    }
}

proof fn lemma_objs_keep_names(c: ClientV, os: Seq<ObjDataElemV>, i: int)
    ensures
        objs_step(c, os, i).widgets == c.widgets,
        objs_step(c, os, i).charlist == c.charlist,
    decreases os.len() - i,
{
    if 0 <= i < os.len() {
        let o = os[i];
        let base = if c.objects.contains_key(o.id) { c.objects[o.id] } else { Obj { resid: 0, xy: (0, 0) } };
        lemma_objs_keep_names(ClientV { objects: c.objects.insert(o.id, props_step(base, o.prop, 0)), ..c }, os, i + 1);
    }
}

proof fn lemma_mapreqs_keep_names(c: ClientV, gs: Seq<(i32, i32)>, i: int)
    ensures
        mapreqs_sent(c, gs, i).widgets == c.widgets,
        mapreqs_sent(c, gs, i).charlist == c.charlist,
    decreases gs.len() - i,
{
    if 0 <= i < gs.len() {
        lemma_mapreqs_keep_names(sent(c, ClientMessageV::MapReq(MapReq { x: gs[i].0, y: gs[i].1 })), gs, i + 1);
    }
}

/// Only a REL message changes the widgets and the offered characters.
proof fn lemma_step_keeps_names(c: ClientV, m: ServerMessageV, ks: Seq<u32>)
    ensures
        dispatch_step(c, m, ks).0.widgets == names_after(c, m).widgets,
        dispatch_step(c, m, ks).0.charlist == names_after(c, m).charlist,
{
    if let ServerMessageV::ObjData(os) = m {
        let c0 = sent(c, ClientMessageV::ObjAck(objacks(os)));
        lemma_objs_keep_names(c0, os, 0);
        let c1 = objs_step(c0, os, 0);
        let (g, fresh) = grids_walk(c1.objects, ks, 0, c1.grids, seq![]);
        lemma_mapreqs_keep_names(ClientV { grids: g, ..c1 }, fresh, 0);
    }
}

impl Client {
    /// Receives a datagram of the server: applies it, then chooses the
    /// first character offered, if any.
    pub fn rx(&mut self, buf: &[u8]) -> (res: Result<(), Error>)
        requires
            rx_ok(old(self)@, buf@),
        ensures
            exists|ks: Seq<u32>|
                message_order_ok(old(self)@, buf@, ks) && ({
                    let st = #[trigger] message_step(old(self)@, buf@, ks);
                    match st.1 {
                        Err(k) => final(self)@ == st.0 && (res matches Err(e) && e.kind == k),
                        Ok(_) => res is Ok && reacted(st.0, final(self)@),
                    }
                }),
    {
        let ghost c0 = self@;
        let r = self.dispatch_message(buf);
        let ghost c1 = self@;
        let ghost ks = choose|ks: Seq<u32>|
            message_order_ok(c0, buf@, ks) && (c1, crate::state::session::outcome(r)) == #[trigger] message_step(c0, buf@, ks);
        match r {
            Ok(()) => {},
            Err(e) => {
                return Err(e);
            },
        }
        proof {
            if let Ok((m, _)) = with_remains(buf@, p_server_body(buf@, 0)) {
                lemma_step_keeps_names(c0, m, ks);
                assert(c1.charlist == names_after(c0, m).charlist);
                assert(c1.widgets == names_after(c0, m).widgets);
                if c1.charlist.len() > 0 {
                    let id = choose|id: u16| names_after(c0, m).widgets.contains_key(id) && #[trigger] names_after(c0, m).widgets[id] == "charlist"@;
                    assert(c1.widgets.contains_key(id) && c1.widgets[id] == "charlist"@);
                }
            }
        }
        self.react();
        Ok(())
    }
}

proof fn lemma_elems_keep_tx(c: ClientV, es: Seq<RelV>, i: int)
    ensures
        elems_step(c, es, i).tx_buf == c.tx_buf,
        elems_step(c, es, i).seq == c.seq,
    decreases es.len() - i,
{
    if 0 <= i < es.len() {
        lemma_elems_keep_tx(elem_step(c, es[i]), es, i + 1);
    }
}

/// Every REL message, whatever its number, is answered at once by the
/// acknowledgement of its last element, put before everything else to
/// send; its elements send nothing and leave the session's own number as
/// it was.
pub proof fn lemma_every_rel_acknowledged(c: ClientV, r: RelsV)
    ensures
        rel_step(c, r).tx_buf == seq![client_bytes(ClientMessageV::Ack(Ack { seq: last_seq(r) }))] + c.tx_buf,
        rel_step(c, r).seq == c.seq,
        rel_step(c, r).que == c.que,
{
    lemma_elems_keep_tx(sent(c, ClientMessageV::Ack(Ack { seq: last_seq(r) })), r.rels, 0);
    lemma_elems_keep_que(sent(c, ClientMessageV::Ack(Ack { seq: last_seq(r) })), r.rels, 0);
}

proof fn lemma_elems_keep_que(c: ClientV, es: Seq<RelV>, i: int)
    ensures
        elems_step(c, es, i).que == c.que,
    decreases es.len() - i,
{
    if 0 <= i < es.len() {
        lemma_elems_keep_que(elem_step(c, es[i]), es, i + 1);
    }
}

/// The acknowledgement of the session's current number moves it on by one;
/// any other leaves it.
pub proof fn lemma_ack_moves_number(c: ClientV, a: Ack, ks: Seq<u32>)
    ensures
        dispatch_step(c, ServerMessageV::Ack(a), ks).0.seq == if a.seq == c.seq { next_offset(c.seq, 1) } else { c.seq },
{
}

/// The grid of a coordinate rounds towards zero: the coordinate lies in
/// the grid's span of 1100, counted from zero on its own side.
pub proof fn lemma_grid_of_span(x: i32)
    ensures
        x >= 0 ==> 0 <= tdiv(x as int) && 1100 * tdiv(x as int) <= x < 1100 * tdiv(x as int) + 1100,
        x < 0 ==> tdiv(x as int) <= 0 && 1100 * tdiv(x as int) - 1100 < x <= 1100 * tdiv(x as int),
{
    if x < 0 {
        let q = (-(x as int)) / 1100;
        assert(1100 * q <= -(x as int) < 1100 * q + 1100);
    }
}

} // verus!
