//! What the session does with each message of the server.
use vstd::prelude::*;
use crate::codec::Reader;
use crate::error::{Error, ErrorKind};
use crate::list::{List, ListV, lists_view, lemma_lists_view_len, lemma_lists_view_index};
use crate::proto::message::{ClientMessage, ClientMessageV, ServerMessage, ServerMessageV, p_server_body, with_remains};
use crate::proto::message_ack::Ack;
use crate::proto::message_mapdata::MapDataV;
use crate::proto::message_objack::{ObjAck, objacks};
use crate::proto::message_objdata::{ObjDataElem, ObjDataElemV};
use crate::proto::message_rel::{NewWdg, NewWdgV, Rel, Rels, RelsV, RelV, WdgMsg, WdgMsgV, rels_view};
use crate::proto::message_sess::SessError;
use crate::state::map::{GridHint, GridHintV, GridMapV, map_append, is_complete, assembled, has_grid, grid, grid_coord, next_off, next_offset};
use crate::state::obj::{Obj, ObjProp, obj_apply, props_apply, no_prop};
use crate::state::queue::MessageHint;
use crate::state::session::{State, StateV, HeroV, WidgetV, Widget, Event, EventV, enqueue_spec, remove_spec, mapreq_spec, hero_xy_spec, outcome, cache_view, widgets_view, resources_view, strings_view, events_view, copy_str, lemma_cells_update, lemma_cells_push};
use crate::state::surface::{Surface, p_surface};

verus! {

broadcast use vstd::std_specs::hash::group_hash_axioms;

pub type Step = (StateV, Result<(), ErrorKind>);

// ---------------------------------------------------------------------------
// The model

/// The nine grids around `g`, in the order they are requested.
pub open spec fn grids_around_spec(s: StateV, g: (i32, i32)) -> StateV {
    let (x, y) = g;
    let (xm, xp, ym, yp) = ((x - 1) as i32, (x + 1) as i32, (y - 1) as i32, (y + 1) as i32);
    let s1 = mapreq_spec(s, x, y);
    let s2 = mapreq_spec(s1, xm, y);
    let s3 = mapreq_spec(s2, xp, y);
    let s4 = mapreq_spec(s3, xm, ym);
    let s5 = mapreq_spec(s4, x, ym);
    let s6 = mapreq_spec(s5, xp, ym);
    let s7 = mapreq_spec(s6, xm, yp);
    let s8 = mapreq_spec(s7, x, yp);
    mapreq_spec(s8, xp, yp)
}

/// The game UI widget names the hero and gives its object: the client
/// then knows where the hero starts and requests the grids around it. An
/// object id that is negative, or whose object has no position yet, is an
/// error.
pub open spec fn gameui_spec(s: StateV, cargs: Seq<ListV>) -> Step {
    let s1 = if cargs.len() > 0 && cargs[0] is Str {
        StateV { hero: HeroV { name: Some(cargs[0]->Str_0), ..s.hero }, ..s }
    } else {
        s
    };
    if cargs.len() > 1 && cargs[1] is Int {
        let obj = cargs[1]->Int_0;
        if obj < 0 {
            (s1, Err(ErrorKind::NoObject))
        } else {
            let s2 = StateV { hero: HeroV { obj: Some(obj as u32), ..s1.hero }, ..s1 };
            match hero_xy_spec(s2) {
                None => (s2, Err(ErrorKind::NoObject)),
                Some(xy) => {
                    let s3 = StateV { hero: HeroV { start_xy: Some(xy), ..s2.hero }, ..s2 };
                    (
                        grids_around_spec(
                            s3,
                            (grid_coord(xy.0 as int) as i32, grid_coord(xy.1 as int) as i32),
                        ),
                        Ok(()),
                    )
                },
            }
        }
    } else {
        (s1, Ok(()))
    }
}

/// An item widget in the inventory or the equipment records what it
/// holds.
pub open spec fn item_spec(s: StateV, w: NewWdgV) -> StateV {
    if s.widgets.contains_key(w.parent) {
        let t = s.widgets[w.parent].typ;
        if t == "inv"@ {
            if w.pargs.len() > 0 && w.pargs[0] is Coord && w.cargs.len() > 0 && w.cargs[0] is Uint16 {
                StateV {
                    hero: HeroV {
                        inventory: s.hero.inventory.insert(w.pargs[0]->Coord_0, w.cargs[0]->Uint16_0),
                        ..s.hero
                    },
                    ..s
                }
            } else {
                s
            }
        } else if t == "epry"@ {
            if w.pargs.len() > 0 && w.pargs[0] is Uint8 && w.cargs.len() > 0 && w.cargs[0] is Uint16 {
                StateV {
                    hero: HeroV {
                        equipment: s.hero.equipment.insert(w.pargs[0]->Uint8_0, w.cargs[0]->Uint16_0),
                        ..s.hero
                    },
                    ..s
                }
            } else {
                s
            }
        } else {
            s
        }
    } else {
        s
    }
}

/// A new widget is recorded, then looked at by its type.
pub open spec fn newwdg_spec(s: StateV, w: NewWdgV) -> Step {
    let s1 = StateV {
        widgets: s.widgets.insert(w.id, WidgetV { id: w.id, typ: w.name, parent: w.parent, name: None }),
        ..s
    };
    if w.name == "gameui"@ {
        gameui_spec(s1, w.cargs)
    } else if w.name == "mapview"@ {
        if w.cargs.len() > 0 && w.cargs[0] is Coord {
            (StateV { origin: Some(w.cargs[0]->Coord_0), ..s1 }, Ok(()))
        } else {
            (s1, Ok(()))
        }
    } else if w.name == "item"@ {
        (item_spec(s1, w), Ok(()))
    } else {
        (s1, Ok(()))
    }
}

/// A message to a known widget: a character of the list, the hero's
/// weight, experience or hearth fire.
pub open spec fn wdgmsg_spec(s: StateV, m: WdgMsgV) -> StateV {
    if s.widgets.contains_key(m.id) {
        let t = s.widgets[m.id].typ;
        let a = m.args;
        if t == "charlist"@ {
            if m.name == "add"@ && a.len() > 0 && a[0] is Str {
                StateV { charlist: s.charlist.push(a[0]->Str_0), ..s }
            } else {
                s
            }
        } else if t == "gameui"@ {
            if m.name == "weight"@ && a.len() > 0 && a[0] is Uint16 {
                StateV { hero: HeroV { weight: Some(a[0]->Uint16_0), ..s.hero }, ..s }
            } else {
                s
            }
        } else if t == "chr"@ {
            if m.name == "tmexp"@ && a.len() > 0 && a[0] is Int {
                StateV { hero: HeroV { tmexp: Some(a[0]->Int_0), ..s.hero }, ..s }
            } else {
                s
            }
        } else if t == "ui/hrtptr:11"@ {
            if m.name == "upd"@ && a.len() > 0 && a[0] is Coord {
                StateV { hero: HeroV { hearthfire: Some(a[0]->Coord_0), ..s.hero }, ..s }
            } else {
                s
            }
        } else {
            s
        }
    } else {
        s
    }
}

pub open spec fn rel_elem_spec(s: StateV, e: RelV) -> Step {
    match e {
        RelV::NewWdg(w) => newwdg_spec(s, w),
        RelV::WdgMsg(m) => (wdgmsg_spec(s, m), Ok(())),
        RelV::DstWdg(id) => (StateV { widgets: s.widgets.remove(id), ..s }, Ok(())),
        RelV::ResId(r) => (StateV { resources: s.resources.insert(r.id, r.name), ..s }, Ok(())),
        _ => (s, Ok(())),
    }
}

/// The elements of a REL message from index `i` on, applied in turn up to
/// the first error.
pub open spec fn rel_elems_spec(s: StateV, es: Seq<RelV>, i: int) -> Step
    decreases es.len() - i,
{
    if i < 0 || i >= es.len() {
        (s, Ok(()))
    } else {
        let st = rel_elem_spec(s, es[i]);
        if st.1 is Err {
            st
        } else {
            rel_elems_spec(st.0, es, i + 1)
        }
    }
}

/// The sequence number of the last element of a REL message.
pub open spec fn last_seq(r: RelsV) -> u16 {
    next_offset(r.seq, r.rels.len() as int - 1)
}

/// The cached REL messages that follow the one that ended at `last`,
/// applied in turn while the next one is in the cache.
pub open spec fn drain_spec(s: StateV, last: u16, fuel: nat) -> (StateV, Result<(), ErrorKind>, u16)
    decreases fuel,
{
    let nx = next_offset(last, 1);
    if fuel == 0 || !s.rel_cache.contains_key(nx) {
        (s, Ok(()), last)
    } else {
        let r = s.rel_cache[nx];
        let s1 = StateV { rel_cache: s.rel_cache.remove(nx), ..s };
        let st = rel_elems_spec(s1, r.rels, 0);
        if st.1 is Err {
            (st.0, st.1, last)
        } else {
            drain_spec(st.0, last_seq(r), (fuel - 1) as nat)
        }
    }
}

/// The REL message that was expected: it is applied, then the cached ones
/// that follow it; the last of them is acknowledged and the next one is
/// expected.
pub open spec fn in_order_spec(s: StateV, r: RelsV) -> Step {
    let st = rel_elems_spec(s, r.rels, 0);
    if st.1 is Err {
        st
    } else {
        let d = drain_spec(st.0, last_seq(r), st.0.rel_cache.dom().len());
        if d.1 is Err {
            (d.0, d.1)
        } else {
            let s2 = enqueue_spec(d.0, ClientMessageV::Ack(Ack { seq: d.2 })).0;
            (StateV { rx_rel_seq: next_offset(d.2, 1), ..s2 }, Ok(()))
        }
    }
}

/// A REL message: the expected one is applied; one ahead of it (by less
/// than half the 16-bit range) is cached; one behind it is answered with
/// the acknowledgement of the last one applied.
pub open spec fn rel_spec(s: StateV, r: RelsV) -> Step {
    if r.seq == s.rx_rel_seq {
        in_order_spec(s, r)
    } else if (r.seq - s.rx_rel_seq) % 0x10000 < 0x7fff {
        (StateV { rel_cache: s.rel_cache.insert(r.seq, r), ..s }, Ok(()))
    } else {
        (enqueue_spec(s, ClientMessageV::Ack(Ack { seq: next_offset(s.rx_rel_seq, -1) })).0, Ok(()))
    }
}

/// A fragment of a grid: stored; when the grid is complete it is decoded,
/// its request ends, and a grid not received before is recorded and
/// reported.
pub open spec fn mapdata_spec(s: StateV, d: MapDataV) -> Step {
    let m1 = map_append(s.map, d);
    if !is_complete(m1, d.pktid) {
        (StateV { map: m1, ..s }, Ok(()))
    } else {
        let buf = assembled(m1, d.pktid);
        let s2 = StateV { map: GridMapV { partial: m1.partial.remove(d.pktid), grids: m1.grids }, ..s };
        match p_surface(buf) {
            Err(k) => (s2, Err(k)),
            Ok(g) => {
                let s3 = remove_spec(s2, MessageHint::MAPREQ(g.x, g.y));
                if has_grid(s3.map, (g.x, g.y)) {
                    (s3, Ok(()))
                } else {
                    (
                        StateV {
                            events: seq![EventV::Grid(g.x, g.y, g.tiles, g.z)] + s3.events,
                            map: GridMapV {
                                grids: s3.map.grids.push(GridHintV { xy: (g.x, g.y), name: g.name, id: g.id }),
                                ..s3.map
                            },
                            ..s3
                        },
                        Ok(()),
                    )
                }
            },
        }
    }
}

/// An object update: a removal forgets the object; an update older than
/// or as old as the last one is ignored; otherwise the object (new or
/// known) takes the frame and the update, and its position is reported.
pub open spec fn obj_elem_spec(s: StateV, o: ObjDataElemV) -> StateV {
    match props_apply(no_prop(), o.prop) {
        None => StateV { objects: s.objects.remove(o.id), ..s },
        Some(p) => {
            let o0 = if s.objects.contains_key(o.id) {
                s.objects[o.id]
            } else {
                Obj { id: o.id, frame: None, resid: None, xy: None, movement: None }
            };
            let (o1, applied) = obj_apply(o0, o.frame, p);
            if !applied {
                s
            } else {
                StateV {
                    objects: s.objects.insert(o.id, o1),
                    events: if o1.xy is Some {
                        seq![EventV::Obj(o1.xy->0)] + s.events
                    } else {
                        s.events
                    },
                    ..s
                }
            }
        },
    }
}

pub open spec fn objs_spec(s: StateV, os: Seq<ObjDataElemV>, i: int) -> StateV
    decreases os.len() - i,
{
    if i < 0 || i >= os.len() {
        s
    } else {
        objs_spec(obj_elem_spec(s, os[i]), os, i + 1)
    }
}

/// Object updates: acknowledged at once, then applied in turn.
pub open spec fn objdata_spec(s: StateV, os: Seq<ObjDataElemV>) -> StateV {
    objs_spec(enqueue_spec(s, ClientMessageV::ObjAck(objacks(os))).0, os, 0)
}

/// What the session does with a message of the server.
pub open spec fn dispatch_spec(s: StateV, m: ServerMessageV) -> Step {
    match m {
        ServerMessageV::Sess(ss) => if ss.err == SessError::OK {
            (remove_spec(s, MessageHint::C_SESS), Ok(()))
        } else {
            (s, Err(ErrorKind::Session))
        },
        ServerMessageV::Rel(r) => rel_spec(s, r),
        ServerMessageV::Ack(a) => (remove_spec(s, MessageHint::REL(a.seq)), Ok(())),
        ServerMessageV::MapData(d) => mapdata_spec(s, d),
        ServerMessageV::ObjData(os) => (objdata_spec(s, os), Ok(())),
        ServerMessageV::Close => (s, Err(ErrorKind::Closed)),
    }
}

/// What the session does with the bytes of a datagram of the server: a
/// datagram that does not decode leaves it as it was.
pub open spec fn rx_spec(s: StateV, buf: Seq<u8>) -> Step {
    match with_remains(buf, p_server_body(buf, 0)) {
        Err(k) => (s, Err(k)),
        Ok((m, _)) => dispatch_spec(s, m),
    }
}

// ---------------------------------------------------------------------------
// Facts the implementation relies on

/// A REL element leaves the cache of REL messages as it was.
pub proof fn lemma_elem_keeps_cache(s: StateV, e: RelV)
    ensures
        rel_elem_spec(s, e).0.rel_cache == s.rel_cache,
{
    reveal_with_fuel(mapreq_spec, 1);
}

/// REL elements leave the cache of REL messages as it was.
pub proof fn lemma_elems_keep_cache(s: StateV, es: Seq<RelV>, i: int)
    ensures
        rel_elems_spec(s, es, i).0.rel_cache == s.rel_cache,
    decreases es.len() - i,
{
    if 0 <= i < es.len() {
        lemma_elem_keeps_cache(s, es[i]);
        lemma_elems_keep_cache(rel_elem_spec(s, es[i]).0, es, i + 1);
    }
}

/// A REL element leaves the grids as they were.
pub proof fn lemma_elem_keeps_map(s: StateV, e: RelV)
    ensures
        rel_elem_spec(s, e).0.map == s.map,
{
    reveal_with_fuel(mapreq_spec, 1);
}

/// REL elements leave the grids as they were.
pub proof fn lemma_elems_keep_map(s: StateV, es: Seq<RelV>, i: int)
    ensures
        rel_elems_spec(s, es, i).0.map == s.map,
    decreases es.len() - i,
{
    if 0 <= i < es.len() {
        lemma_elem_keeps_map(s, es[i]);
        lemma_elems_keep_map(rel_elem_spec(s, es[i]).0, es, i + 1);
    }
}

/// Applying cached REL messages leaves the grids as they were.
pub proof fn lemma_drain_keeps_map(s: StateV, last: u16, fuel: nat)
    ensures
        drain_spec(s, last, fuel).0.map == s.map,
    decreases fuel,
{
    let nx = next_offset(last, 1);
    if fuel > 0 && s.rel_cache.contains_key(nx) {
        let r = s.rel_cache[nx];
        let s1 = StateV { rel_cache: s.rel_cache.remove(nx), ..s };
        lemma_elems_keep_map(s1, r.rels, 0);
        lemma_drain_keeps_map(rel_elems_spec(s1, r.rels, 0).0, last_seq(r), (fuel - 1) as nat);
    }
}

/// Object updates leave the grids as they were.
pub proof fn lemma_objs_keep_map(s: StateV, os: Seq<ObjDataElemV>, i: int)
    ensures
        objs_spec(s, os, i).map == s.map,
    decreases os.len() - i,
{
    if 0 <= i < os.len() {
        lemma_objs_keep_map(obj_elem_spec(s, os[i]), os, i + 1);
    }
}

proof fn lemma_arg(v: Seq<List>, i: int)
    requires
        0 <= i < v.len(),
    ensures
        lists_view(v).len() == v.len(),
        lists_view(v)[i] == v[i]@,
{
    lemma_lists_view_len(v);
    lemma_lists_view_index(v, i);
}

impl State {
    #[verifier::rlimit(40)]
    #[verifier::spinoff_prover]
    fn update_grids_around(&mut self, g: (i32, i32))
        requires
            -1952258 <= g.0 <= 1952257,
            -1952258 <= g.1 <= 1952257,
        ensures
            final(self)@ == grids_around_spec(old(self)@, g),
    {
        let (x, y) = g;
        let _ = self.mapreq(x, y);
        let _ = self.mapreq(x - 1, y);
        let _ = self.mapreq(x + 1, y);
        let _ = self.mapreq(x - 1, y - 1);
        let _ = self.mapreq(x, y - 1);
        let _ = self.mapreq(x + 1, y - 1);
        let _ = self.mapreq(x - 1, y + 1);
        let _ = self.mapreq(x, y + 1);
        let _ = self.mapreq(x + 1, y + 1);
    }

    #[verifier::rlimit(40)]
    #[verifier::spinoff_prover]
    fn dispatch_gameui(&mut self, cargs: &Vec<List>) -> (res: Result<(), Error>)
        ensures
            (final(self)@, outcome(res)) == gameui_spec(old(self)@, lists_view(cargs@)),
    {
        proof {
            lemma_lists_view_len(cargs@);
        }
        if cargs.len() > 0 {
            proof {
                lemma_arg(cargs@, 0);
            }
            if let List::Str(name) = &cargs[0] {
                self.hero.name = Some(copy_str(name));
            }
        }
        if cargs.len() > 1 {
            proof {
                lemma_arg(cargs@, 1);
            }
            if let List::Int(obj) = &cargs[1] {
                if *obj < 0 {
                    return Err(Error::of(ErrorKind::NoObject));
                }
                self.hero.obj = Some(*obj as u32);
                match self.hero_xy() {
                    Some(xy) => {
                        self.hero.start_xy = Some(xy);
                        let g = grid(xy);
                        self.update_grids_around(g);
                    },
                    None => {
                        return Err(Error::of(ErrorKind::NoObject));
                    },
                }
            }
        }
        Ok(())
    }

    #[verifier::rlimit(40)]
    #[verifier::spinoff_prover]
    fn set_inventory(&mut self, xy: (i32, i32), id: u16)
        ensures
            final(self)@ == (StateV {
                hero: HeroV { inventory: old(self)@.hero.inventory.insert(xy, id), ..old(self)@.hero },
                ..old(self)@
            }),
    {
        let ghost inv0 = self.hero.inventory@;
        let mut i: usize = 0;
        while i < self.hero.inventory.len()
            invariant
                i <= inv0.len(),
                self.hero.inventory@ == inv0,
                self@ == old(self)@,
                forall|j: int| 0 <= j < i ==> (#[trigger] inv0[j]).0 != xy,
            decreases inv0.len() - i,
        {
            let (k, _) = self.hero.inventory[i];
            if k.0 == xy.0 && k.1 == xy.1 {
                proof {
                    lemma_cells_update(inv0, i as int, id);
                }
                self.hero.inventory.set(i, (xy, id));
                return;
            }
            i = i + 1;
        }
        proof {
            lemma_cells_push(inv0, xy, id);
        }
        self.hero.inventory.push((xy, id));
    }

    fn dispatch_item(&mut self, wdg: &NewWdg)
        ensures
            final(self)@ == item_spec(old(self)@, wdg@),
    {
        proof {
            lemma_lists_view_len(wdg.pargs@);
            lemma_lists_view_len(wdg.cargs@);
        }
        let ptyp = match self.widgets.get(&wdg.parent) {
            Some(p) => copy_str(&p.typ),
            None => {
                return;
            },
        };
        if wdg.pargs.len() == 0 || wdg.cargs.len() == 0 {
            return;
        }
        proof {
            lemma_arg(wdg.pargs@, 0);
            lemma_arg(wdg.cargs@, 0);
        }
        if ptyp == "inv".to_owned() {
            if let List::Coord(xy) = &wdg.pargs[0] {
                if let List::Uint16(id) = &wdg.cargs[0] {
                    self.set_inventory(*xy, *id);
                }
            }
        } else if ptyp == "epry".to_owned() {
            if let List::Uint8(i) = &wdg.pargs[0] {
                if let List::Uint16(id) = &wdg.cargs[0] {
                    self.hero.equipment.insert(*i, *id);
                }
            }
        }
    }

    /// Records a new widget and looks at it by its type.
    #[verifier::rlimit(40)]
    #[verifier::spinoff_prover]
    fn dispatch_newwdg(&mut self, wdg: &NewWdg) -> (res: Result<(), Error>)
        ensures
            (final(self)@, outcome(res)) == newwdg_spec(old(self)@, wdg@),
    {
        let ghost w0 = self.widgets@;
        self.widgets.insert(
            wdg.id,
            Widget { id: wdg.id, typ: copy_str(&wdg.name), parent: wdg.parent, name: None },
        );
        assert(widgets_view(self.widgets@) =~= widgets_view(w0).insert(
            wdg.id,
            WidgetV { id: wdg.id, typ: wdg.name@, parent: wdg.parent, name: None },
        ));
        if wdg.name == "gameui".to_owned() {
            self.dispatch_gameui(&wdg.cargs)
        } else if wdg.name == "mapview".to_owned() {
            proof {
                lemma_lists_view_len(wdg.cargs@);
            }
            if wdg.cargs.len() > 0 {
                proof {
                    lemma_arg(wdg.cargs@, 0);
                }
                if let List::Coord(xy) = &wdg.cargs[0] {
                    self.origin = Some(*xy);
                }
            }
            Ok(())
        } else if wdg.name == "item".to_owned() {
            self.dispatch_item(wdg);
            Ok(())
        } else {
            Ok(())
        }
    }

    /// Looks at a message to a known widget.
    #[verifier::rlimit(40)]
    #[verifier::spinoff_prover]
    fn dispatch_wdgmsg(&mut self, msg: &WdgMsg)
        ensures
            final(self)@ == wdgmsg_spec(old(self)@, msg@),
    {
        let typ = match self.widgets.get(&msg.id) {
            Some(w) => copy_str(&w.typ),
            None => {
                return;
            },
        };
        proof {
            lemma_lists_view_len(msg.args@);
        }
        if msg.args.len() == 0 {
            return;
        }
        proof {
            lemma_arg(msg.args@, 0);
        }
        if typ == "charlist".to_owned() {
            if msg.name == "add".to_owned() {
                if let List::Str(name) = &msg.args[0] {
                    let ghost c0 = self.charlist@;
                    self.charlist.push(copy_str(name));
                    assert(strings_view(self.charlist@) =~= strings_view(c0).push(name@));
                }
            }
        } else if typ == "gameui".to_owned() {
            if msg.name == "weight".to_owned() {
                if let List::Uint16(w) = &msg.args[0] {
                    self.hero.weight = Some(*w);
                }
            }
        } else if typ == "chr".to_owned() {
            if msg.name == "tmexp".to_owned() {
                if let List::Int(i) = &msg.args[0] {
                    self.hero.tmexp = Some(*i);
                }
            }
        } else if typ == "ui/hrtptr:11".to_owned() {
            if msg.name == "upd".to_owned() {
                if let List::Coord(xy) = &msg.args[0] {
                    self.hero.hearthfire = Some(*xy);
                }
            }
        }
    }

    fn dispatch_elem(&mut self, e: &Rel) -> (res: Result<(), Error>)
        ensures
            (final(self)@, outcome(res)) == rel_elem_spec(old(self)@, e@),
    {
        match e {
            Rel::NEWWDG(w) => self.dispatch_newwdg(w),
            Rel::WDGMSG(m) => {
                self.dispatch_wdgmsg(m);
                Ok(())
            },
            Rel::DSTWDG(d) => {
                let ghost w0 = self.widgets@;
                let _ = self.widgets.remove(&d.id);
                assert(widgets_view(self.widgets@) =~= widgets_view(w0).remove(d.id));
                Ok(())
            },
            Rel::RESID(r) => {
                let ghost r0 = self.resources@;
                self.resources.insert(r.id, copy_str(&r.name));
                assert(resources_view(self.resources@) =~= resources_view(r0).insert(r.id, r.name@));
                Ok(())
            },
            _ => Ok(()),
        }
    }

    /// Applies the elements of a REL message in turn.
    fn dispatch_rel(&mut self, rel: &Rels) -> (res: Result<(), Error>)
        ensures
            (final(self)@, outcome(res)) == rel_elems_spec(old(self)@, rel@.rels, 0),
    {
        let ghost es = rel@.rels;
        let mut i: usize = 0;
        while i < rel.rels.len()
            invariant
                i <= rel.rels@.len(),
                es == rels_view(rel.rels@),
                es.len() == rel.rels@.len(),
                rel_elems_spec(old(self)@, es, 0) == rel_elems_spec(self@, es, i as int),
            decreases rel.rels@.len() - i,
        {
            assert(es[i as int] == rel.rels@[i as int]@);
            match self.dispatch_elem(&rel.rels[i]) {
                Ok(()) => {},
                Err(e) => {
                    return Err(e);
                },
            }
            i = i + 1;
        }
        Ok(())
    }

    /// Applies the expected REL message, then the cached ones that follow
    /// it, and acknowledges the last.
    #[verifier::rlimit(40)]
    #[verifier::spinoff_prover]
    fn dispatch_rel_cache(&mut self, rel: &Rels) -> (res: Result<(), Error>)
        ensures
            (final(self)@, outcome(res)) == in_order_spec(old(self)@, rel@),
    {
        let ghost s0 = self@;
        self.dispatch_rel(rel)?;
        proof {
            lemma_elems_keep_cache(s0, rel@.rels, 0);
        }
        let ghost s1 = self@;
        let mut last = next_off(rel.seq, rel.rels.len());
        last = if last == 0 { 0xffff } else { last - 1 };
        assert(last == last_seq(rel@)) by {
            assert(next_offset(rel.seq, rel@.rels.len() as int - 1) == if next_offset(rel.seq, rel@.rels.len() as int) == 0 { 0xffffu16 } else { (next_offset(rel.seq, rel@.rels.len() as int) - 1) as u16 });
        }
        let ghost d0 = drain_spec(s1, last, s1.rel_cache.dom().len());
        loop
            invariant
                self@.rel_cache.dom() == self.rel_cache@.dom(),
                drain_spec(self@, last, self@.rel_cache.dom().len()) == d0,
                rel_elems_spec(old(self)@, rel@.rels, 0) == (s1, Ok::<(), ErrorKind>(())),
                d0 == drain_spec(s1, last_seq(rel@), s1.rel_cache.dom().len()),
            ensures
                d0 == (self@, Ok::<(), ErrorKind>(()), last),
            decreases self@.rel_cache.dom().len(),
        {
            let nx = if last == 0xffff { 0 } else { last + 1 };
            assert(nx == next_offset(last, 1));
            let ghost sa = self@;
            proof {
                assert(sa.rel_cache.dom().finite());
            }
            let next = match self.rel_cache.remove(&nx) {
                Some(r) => r,
                None => {
                    proof {
                        assert(!sa.rel_cache.contains_key(nx));
                        assert(cache_view(self.rel_cache@) =~= sa.rel_cache);
                        assert(self@ == sa);
                    }
                    break;
                },
            };
            proof {
                assert(sa.rel_cache.contains_key(nx));
                assert(sa.rel_cache[nx] == next@);
                assert(cache_view(self.rel_cache@) =~= sa.rel_cache.remove(nx));
                assert(self@ == (StateV { rel_cache: sa.rel_cache.remove(nx), ..sa }));
                assert(self@.rel_cache.dom().len() == sa.rel_cache.dom().len() - 1);
                lemma_elems_keep_cache(self@, next@.rels, 0);
            }
            match self.dispatch_rel(&next) {
                Ok(()) => {},
                Err(e) => {
                    proof {
                        assert(drain_spec(sa, last, sa.rel_cache.dom().len()) == (
                            self@,
                            outcome(Err::<(), Error>(e)),
                            last,
                        ));
                    }
                    return Err(e);
                },
            }
            let mut l = next_off(next.seq, next.rels.len());
            l = if l == 0 { 0xffff } else { l - 1 };
            assert(l == last_seq(next@)) by {
                assert(next_offset(next.seq, next@.rels.len() as int - 1) == if next_offset(next.seq, next@.rels.len() as int) == 0 { 0xffffu16 } else { (next_offset(next.seq, next@.rels.len() as int) - 1) as u16 });
            }
            last = l;
            assert(self@.rel_cache.dom() =~= self.rel_cache@.dom());
        }
        self.enqueue_to_send(ClientMessage::ACK(Ack::new(last)))?;
        self.rx_rel_seq = if last == 0xffff { 0 } else { last + 1 };
        Ok(())
    }
    /// Applies one object update.
    #[verifier::rlimit(40)]
    #[verifier::spinoff_prover]
    fn dispatch_obj(&mut self, o: &ObjDataElem)
        ensures
            final(self)@ == obj_elem_spec(old(self)@, o@),
    {
        match ObjProp::from_obj_data_elem_prop(o.prop.as_slice()) {
            None => {
                let _ = self.objects.remove(&o.id);
            },
            Some(p) => {
                let mut obj = match self.objects.get(&o.id) {
                    Some(x) => *x,
                    None => Obj::new(o.id, None, None, None, None),
                };
                if !obj.apply(o.frame, &p) {
                    return;
                }
                self.objects.insert(o.id, obj);
                if let Some(xy) = obj.xy {
                    let ghost ev0 = self.events@;
                    self.events.push_front(Event::Obj(xy));
                    assert(events_view(self.events@) =~= seq![EventV::Obj(xy)] + events_view(ev0));
                }
            },
        }
    }

    /// Stores a grid fragment; a grid made complete by it is decoded,
    /// recorded and reported.
    #[verifier::rlimit(40)]
    #[verifier::spinoff_prover]
    fn dispatch_mapdata(&mut self, mapdata: crate::proto::message_mapdata::MapData) -> (res: Result<(), Error>)
        ensures
            (final(self)@, outcome(res)) == mapdata_spec(old(self)@, mapdata@),
    {
        let pktid = mapdata.pktid;
        self.map.append(mapdata);
        if self.map.complete(pktid) {
            let map_buf = self.map.assemble(pktid);
            let g = Surface::from_buf(map_buf.as_slice())?;
            self.remove_from_que(MessageHint::MAPREQ(g.x, g.y));
            if !self.map.has_grid((g.x, g.y)) {
                let Surface { x, y, name, id, tiles, z, ol: _ } = g;
                let ghost ev0 = self.events@;
                let ghost tv = tiles@;
                let ghost zv = z@;
                self.events.push_front(Event::Grid(x, y, tiles, z));
                assert(events_view(self.events@) =~= seq![EventV::Grid(x, y, tv, zv)] + events_view(ev0));
                self.map.add_grid(GridHint { xy: (x, y), name, id });
            }
        }
        Ok(())
    }

    /// Acknowledges object updates, then applies them in turn.
    #[verifier::rlimit(40)]
    #[verifier::spinoff_prover]
    fn dispatch_objdata(&mut self, objdata: crate::proto::message_objdata::ObjData)
        ensures
            final(self)@ == objdata_spec(old(self)@, objdata@),
    {
        let ack = ObjAck::from_objdata(&objdata);
        let _ = self.enqueue_to_send(ClientMessage::OBJACK(ack));
        let ghost os = objdata@;
        let mut i: usize = 0;
        while i < objdata.obj.len()
            invariant
                i <= objdata.obj@.len(),
                os == objdata@,
                os.len() == objdata.obj@.len(),
                objdata_spec(old(self)@, os) == objs_spec(self@, os, i as int),
            decreases objdata.obj@.len() - i,
        {
            assert(os[i as int] == objdata.obj@[i as int]@);
            self.dispatch_obj(&objdata.obj[i]);
            i = i + 1;
        }
    }

    /// Applies a REL message by its sequence number: the expected one at
    /// once, with the cached ones that follow it; one ahead is cached; one
    /// behind is answered with the acknowledgement of the last one applied.
    #[verifier::rlimit(40)]
    #[verifier::spinoff_prover]
    fn dispatch_rels(&mut self, rel: Rels) -> (res: Result<(), Error>)
        ensures
            (final(self)@, outcome(res)) == rel_spec(old(self)@, rel@),
    {
        if rel.seq == self.rx_rel_seq {
            self.dispatch_rel_cache(&rel)
        } else {
            let d = if rel.seq >= self.rx_rel_seq {
                rel.seq - self.rx_rel_seq
            } else {
                (rel.seq as u32 + 0x10000 - self.rx_rel_seq as u32) as u16
            };
            assert(d == (rel.seq - self.rx_rel_seq) % 0x10000);
            if d < 0x7fff {
                let ghost c0 = self.rel_cache@;
                let ghost rv = rel@;
                self.rel_cache.insert(rel.seq, rel);
                assert(cache_view(self.rel_cache@) =~= cache_view(c0).insert(rv.seq, rv));
                Ok(())
            } else {
                let prev = if self.rx_rel_seq == 0 { 0xffff } else { self.rx_rel_seq - 1 };
                assert(prev == next_offset(self.rx_rel_seq, -1));
                let _ = self.enqueue_to_send(ClientMessage::ACK(Ack::new(prev)));
                Ok(())
            }
        }
    }

    /// Applies a message of the server.
    #[verifier::rlimit(40)]
    #[verifier::spinoff_prover]
    pub fn dispatch_message(&mut self, buf: &[u8]) -> (res: Result<(), Error>)
        ensures
            (final(self)@, outcome(res)) == rx_spec(old(self)@, buf@),
    {
        let mut r = Reader::new(buf);
        let (msg, _remains) = ServerMessage::from_buf(&mut r)?;
        match msg {
            ServerMessage::SESS(sess) => {
                if sess.err == SessError::OK {
                    self.remove_from_que(MessageHint::C_SESS);
                    Ok(())
                } else {
                    Err(Error::of(ErrorKind::Session))
                }
            },
            ServerMessage::REL(rel) => self.dispatch_rels(rel),
            ServerMessage::ACK(ack) => {
                self.remove_from_que(MessageHint::REL(ack.seq));
                Ok(())
            },
            ServerMessage::MAPDATA(mapdata) => self.dispatch_mapdata(mapdata),
            ServerMessage::OBJDATA(objdata) => {
                self.dispatch_objdata(objdata);
                Ok(())
            },
            ServerMessage::CLOSE(_) => Err(Error::of(ErrorKind::Closed)),
        }
    }

    /// Receives a datagram of the server.
    pub fn rx(&mut self, buf: &[u8]) -> (res: Result<(), Error>)
        ensures
            (final(self)@, outcome(res)) == rx_spec(old(self)@, buf@),
    {
        self.dispatch_message(buf)
    }
}

} // verus!
