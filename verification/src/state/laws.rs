//! What holds of the session across its operations.
use vstd::prelude::*;
use crate::error::ErrorKind;
use crate::proto::message::{ClientMessageV, client_bytes, client_encodable, client_roundtrips, p_client_body, p_server_body, with_remains, lemma_client_message_roundtrip};
use crate::proto::message_ack::Ack;
use crate::proto::message_objdata::{ObjDataElemV, PropV};
use crate::proto::message_rel::RelsV;
use crate::proto::message::ServerMessageV;
use crate::state::dispatch::{rx_spec, lemma_elems_keep_map, lemma_drain_keeps_map, lemma_objs_keep_map, dispatch_spec, rel_spec, in_order_spec, rel_elems_spec, drain_spec, last_seq, obj_elem_spec, lemma_elems_keep_cache};
use crate::state::map::{GridMapV, has_grid, next_offset, grids_distinct, map_append, is_complete, assembled, GridHintV};
use crate::state::surface::p_surface;
use crate::proto::message_objack::objacks;
use crate::state::obj::{ObjProp, props_apply, no_prop};
use crate::state::queue::{EnqueuedBufferV, MessageHint, enqueue_bufs, answered, timed_out};
use crate::state::session::{StateV, HeroV, enqueue_spec, mapreq_spec, numbered, hero_xy_spec, hero_grid_xy_spec};
use crate::state::dispatch::{grids_around_spec, gameui_spec};
use crate::state::map::grid_coord;
use crate::list::ListV;

verus! {

// ---------------------------------------------------------------------------
// Sending

/// What the client sends first, when nothing waits and nothing is due,
/// decodes, as the server reads it, to the message that was enqueued, with
/// its number.
pub proof fn lemma_sent_decodes(s: StateV, m: ClientMessageV)
    requires
        s.que.len() == 0,
        s.tx_buf.len() == 0,
        client_roundtrips(numbered(s, m)),
    ensures
        enqueue_spec(s, m).1 is Ok,
        enqueue_spec(s, m).0.tx_buf.len() == 1,
        ({
            let b = enqueue_spec(s, m).0.tx_buf[0].buf;
            with_remains(b, p_client_body(b, 0)) == Ok::<(ClientMessageV, Seq<u8>), ErrorKind>(
                (numbered(s, m), Seq::<u8>::empty()),
            )
        }),
{
    lemma_client_message_roundtrip(numbered(s, m));
}

/// A message that waits for an answer is not sent while another one
/// waits: it joins the waiting queue, and the send queue stays as it was.
pub proof fn lemma_stop_and_wait(que: Seq<EnqueuedBufferV>, tx: Seq<EnqueuedBufferV>, e: EnqueuedBufferV)
    requires
        que.len() > 0,
        e.timeout is Some,
    ensures
        enqueue_bufs(que, tx, e).0 == seq![e] + que,
        enqueue_bufs(que, tx, e).1 == tx,
{
}

/// The answer to the oldest waiting message ends its wait and sends the
/// next waiting one.
pub proof fn lemma_answer_releases_next(
    que: Seq<EnqueuedBufferV>,
    tx: Seq<EnqueuedBufferV>,
    hint: MessageHint,
)
    requires
        que.len() >= 2,
        que.last().msg_hint == hint,
    ensures
        answered(que, tx, hint).0 == que.drop_last(),
        answered(que, tx, hint).1 == seq![que[que.len() - 2]] + tx,
{
}

/// An answer to anything but the oldest waiting message changes nothing.
pub proof fn lemma_other_answer_ignored(
    que: Seq<EnqueuedBufferV>,
    tx: Seq<EnqueuedBufferV>,
    hint: MessageHint,
)
    requires
        que.len() == 0 || que.last().msg_hint != hint,
    ensures
        answered(que, tx, hint) == (que, tx),
{
}

pub open spec fn all_timed(que: Seq<EnqueuedBufferV>) -> bool {
    forall|i: int| 0 <= i < que.len() ==> (#[trigger] que[i]).timeout is Some
}

/// Every waiting message has a timer: enqueuing and answering keep it so.
pub proof fn lemma_waiting_have_timers(
    que: Seq<EnqueuedBufferV>,
    tx: Seq<EnqueuedBufferV>,
    e: EnqueuedBufferV,
    hint: MessageHint,
)
    requires
        all_timed(que),
    ensures
        all_timed(enqueue_bufs(que, tx, e).0),
        all_timed(answered(que, tx, hint).0),
{
    if e.timeout is Some {
        let q = seq![e] + que;
        assert forall|i: int| 0 <= i < q.len() implies (#[trigger] q[i]).timeout is Some by {
            if i > 0 {
                assert(q[i] == que[i - 1]);
            }
        }
    }
}

/// A timer that runs out sends the oldest waiting message again only if
/// it is the message of that timer; a timer of a message that was answered
/// sends nothing.
pub proof fn lemma_timer_resends_oldest(que: Seq<EnqueuedBufferV>, tx: Seq<EnqueuedBufferV>, seq: usize)
    ensures
        (que.len() > 0 && (que.last().timeout matches Some(t) && t.seq == seq)) ==> timed_out(
            que,
            tx,
            seq,
        ) == seq![que.last()] + tx,
        !(que.len() > 0 && (que.last().timeout matches Some(t) && t.seq == seq)) ==> timed_out(
            que,
            tx,
            seq,
        ) == tx,
{
}

/// A REL message takes the session's sequence number, is answered by the
/// acknowledgement of that number, and moves the number past its elements.
pub proof fn lemma_rel_numbering(s: StateV, r: RelsV)
    requires
        client_encodable(numbered(s, ClientMessageV::Rel(r))),
    ensures
        enqueue_spec(s, ClientMessageV::Rel(r)).0.seq == next_offset(s.seq, r.rels.len() as int),
        enqueue_spec(s, ClientMessageV::Rel(r)).0.que[0].msg_hint == MessageHint::REL(s.seq),
        enqueue_spec(s, ClientMessageV::Rel(r)).0.que[0].buf == client_bytes(
            ClientMessageV::Rel(RelsV { seq: s.seq, rels: r.rels }),
        ),
{
}

// ---------------------------------------------------------------------------
// Receiving

/// A REL message that was applied, received again, is not applied again:
/// the session only acknowledges once more the last element it applied.
pub proof fn lemma_rel_applied_once(s: StateV, r: RelsV)
    requires
        s.rel_cache.dom().len() == 0,
        s.rel_cache.dom().finite(),
        r.seq == s.rx_rel_seq,
        1 <= r.rels.len() <= 0x7fff,
        in_order_spec(s, r).1 is Ok,
    ensures
        ({
            let s1 = in_order_spec(s, r).0;
            &&& s1.rx_rel_seq == next_offset(last_seq(r), 1)
            &&& rel_spec(s1, r) == (
                enqueue_spec(s1, ClientMessageV::Ack(Ack { seq: last_seq(r) })).0,
                Ok::<(), ErrorKind>(()),
            )
        }),
{
    let st = rel_elems_spec(s, r.rels, 0);
    lemma_elems_keep_cache(s, r.rels, 0);
    assert(st.0.rel_cache.dom().len() == 0);
    assert(drain_spec(st.0, last_seq(r), 0) == (st.0, Ok::<(), ErrorKind>(()), last_seq(r)));
    let s1 = in_order_spec(s, r).0;
    let n = r.rels.len() as int;
    assert(s1.rx_rel_seq == ((r.seq + n - 1) % 0x10000 + 1) % 0x10000);
    assert(s1.rx_rel_seq == (r.seq + n) % 0x10000) by (nonlinear_arith)
        requires
            s1.rx_rel_seq == ((r.seq + n - 1) % 0x10000 + 1) % 0x10000,
            1 <= n,
            0 <= r.seq < 0x10000,
    ;
    assert((r.seq - s1.rx_rel_seq) % 0x10000 == 0x10000 - n) by (nonlinear_arith)
        requires
            s1.rx_rel_seq == (r.seq + n) % 0x10000,
            1 <= n <= 0x7fff,
            0 <= r.seq < 0x10000,
    ;
    assert(next_offset(s1.rx_rel_seq, -1) == last_seq(r)) by (nonlinear_arith)
        requires
            s1.rx_rel_seq == (r.seq + n) % 0x10000,
            next_offset(s1.rx_rel_seq, -1) == (s1.rx_rel_seq - 1) % 0x10000,
            last_seq(r) == (r.seq + n - 1) % 0x10000,
            1 <= n,
            0 <= r.seq < 0x10000,
    ;
}

/// A REL message ahead of the expected one is kept for later and nothing
/// else changes.
pub proof fn lemma_future_rel_cached(s: StateV, r: RelsV)
    requires
        r.seq != s.rx_rel_seq,
        (r.seq - s.rx_rel_seq) % 0x10000 < 0x7fff,
    ensures
        rel_spec(s, r) == (StateV { rel_cache: s.rel_cache.insert(r.seq, r), ..s }, Ok::<(), ErrorKind>(())),
{
}

/// An object update that is not newer than what the session holds of the
/// object changes nothing.
pub proof fn lemma_stale_update_ignored(s: StateV, o: ObjDataElemV)
    requires
        props_apply(no_prop(), o.prop) is Some,
        s.objects.contains_key(o.id),
        s.objects[o.id].frame matches Some(f) && o.frame <= f,
    ensures
        obj_elem_spec(s, o) == s,
{
}

proof fn lemma_rem_removes(acc: ObjProp, ps: Seq<PropV>, i: int)
    requires
        0 <= i < ps.len(),
        ps[i] is Rem,
    ensures
        props_apply(acc, ps) is None,
    decreases ps.len(),
{
    if i > 0 {
        let rest = ps.drop_first();
        assert(rest[i - 1] is Rem);
        match ps[0] {
            PropV::Rem => {},
            PropV::Move(xy, _) => lemma_rem_removes(ObjProp { xy: Some(xy), ..acc }, rest, i - 1),
            PropV::Res(r) => lemma_rem_removes(ObjProp { resid: Some(r), ..acc }, rest, i - 1),
            PropV::Compose(r) => lemma_rem_removes(ObjProp { resid: Some(r), ..acc }, rest, i - 1),
            PropV::Linbeg(f, t, n) => lemma_rem_removes(ObjProp { line: Some((f, t, n)), ..acc }, rest, i - 1),
            PropV::Linstep(st) => lemma_rem_removes(ObjProp { step: Some(st), ..acc }, rest, i - 1),
            _ => lemma_rem_removes(acc, rest, i - 1),
        }
    }
}

/// An update with a removal forgets the object, whatever else it says.
pub proof fn lemma_removal_forgets(s: StateV, o: ObjDataElemV, i: int)
    requires
        0 <= i < o.prop.len(),
        o.prop[i] is Rem,
    ensures
        !obj_elem_spec(s, o).objects.contains_key(o.id),
        obj_elem_spec(s, o) == (StateV { objects: s.objects.remove(o.id), ..s }),
{
    lemma_rem_removes(no_prop(), o.prop, i);
}

/// A grid that was received is not requested again.
pub proof fn lemma_known_grid_not_requested(s: StateV, x: i32, y: i32)
    requires
        has_grid(s.map, (x, y)),
    ensures
        mapreq_spec(s, x, y) == s,
{
}

/// A REL message that fills the gap before a cached one applies both, in
/// order: the session then expects the message after the cached one,
/// forgets the cache, and acknowledges the cached one's last element.
pub proof fn lemma_gap_filled(s: StateV, r1: RelsV, r2: RelsV)
    requires
        r1.seq == s.rx_rel_seq,
        r2.seq == next_offset(last_seq(r1), 1),
        s.rel_cache == Map::<u16, RelsV>::empty().insert(r2.seq, r2),
        rel_elems_spec(s, r1.rels, 0).1 is Ok,
        rel_elems_spec(
            StateV { rel_cache: Map::empty(), ..rel_elems_spec(s, r1.rels, 0).0 },
            r2.rels,
            0,
        ).1 is Ok,
    ensures
        in_order_spec(s, r1).1 is Ok,
        in_order_spec(s, r1).0.rx_rel_seq == next_offset(last_seq(r2), 1),
        in_order_spec(s, r1).0.rel_cache == Map::<u16, RelsV>::empty(),
        in_order_spec(s, r1).0.tx_buf[0].buf == client_bytes(
            ClientMessageV::Ack(Ack { seq: last_seq(r2) }),
        ),
{
    let st = rel_elems_spec(s, r1.rels, 0);
    lemma_elems_keep_cache(s, r1.rels, 0);
    assert(st.0.rel_cache.dom() =~= set![r2.seq]);
    assert(st.0.rel_cache.dom().len() == 1);
    let s1 = StateV { rel_cache: st.0.rel_cache.remove(r2.seq), ..st.0 };
    assert(s1.rel_cache =~= Map::<u16, RelsV>::empty());
    assert(s1 == StateV { rel_cache: Map::empty(), ..st.0 });
    let st2 = rel_elems_spec(s1, r2.rels, 0);
    lemma_elems_keep_cache(s1, r2.rels, 0);
    assert(drain_spec(st2.0, last_seq(r2), 0) == (st2.0, Ok::<(), ErrorKind>(()), last_seq(r2)));
    assert(drain_spec(st.0, last_seq(r1), 1) == (st2.0, Ok::<(), ErrorKind>(()), last_seq(r2)));
}

/// The frame of a known object never goes back: an update leaves it or
/// moves it on.
pub proof fn lemma_frame_grows(s: StateV, o: ObjDataElemV)
    requires
        s.objects.contains_key(o.id),
        s.objects[o.id].frame is Some,
        obj_elem_spec(s, o).objects.contains_key(o.id),
    ensures
        obj_elem_spec(s, o).objects[o.id].frame is Some,
        obj_elem_spec(s, o).objects[o.id].frame->0 >= s.objects[o.id].frame->0,
{
}

/// The acknowledgement of a REL message's number ends the wait for it:
/// a REL message sent when nothing waited leaves the waiting queue when the
/// server acknowledges its number.
pub proof fn lemma_ack_releases_rel(s: StateV, r: RelsV)
    requires
        s.que.len() == 0,
        client_encodable(numbered(s, ClientMessageV::Rel(r))),
    ensures
        ({
            let s1 = enqueue_spec(s, ClientMessageV::Rel(r)).0;
            &&& s1.que.len() == 1
            &&& dispatch_spec(s1, ServerMessageV::Ack(Ack { seq: s.seq })).0.que.len() == 0
            &&& dispatch_spec(s1, ServerMessageV::Ack(Ack { seq: s.seq })).1 is Ok
        }),
{
}

/// Receiving never records two grids at the same place.
pub proof fn lemma_rx_keeps_grids_distinct(s: StateV, buf: Seq<u8>)
    requires
        grids_distinct(s.map.grids),
    ensures
        grids_distinct(rx_spec(s, buf).0.map.grids),
{
    match with_remains(buf, p_server_body(buf, 0)) {
        Err(_) => {},
        Ok((m, _)) => match m {
            ServerMessageV::Rel(r) => {
                lemma_elems_keep_map(s, r.rels, 0);
                let st = rel_elems_spec(s, r.rels, 0);
                lemma_drain_keeps_map(st.0, last_seq(r), st.0.rel_cache.dom().len());
            },
            ServerMessageV::MapData(d) => {
                let m1 = map_append(s.map, d);
                assert(m1.grids == s.map.grids);
                if is_complete(m1, d.pktid) {
                    match p_surface(assembled(m1, d.pktid)) {
                        Err(_) => {},
                        Ok(g) => {
                            let h = GridHintV { xy: (g.x, g.y), name: g.name, id: g.id };
                            if !has_grid(s.map, (g.x, g.y)) {
                                assert forall|i: int, j: int| 0 <= i < j < s.map.grids.push(h).len() implies (#[trigger] s.map.grids.push(h)[i]).xy != (#[trigger] s.map.grids.push(h)[j]).xy by {
                                    if j == s.map.grids.len() {
                                        assert(s.map.grids[i].xy != h.xy);
                                    }
                                }
                            }
                        },
                    }
                }
            },
            ServerMessageV::ObjData(os) => {
                lemma_objs_keep_map(enqueue_spec(s, ClientMessageV::ObjAck(objacks(os))).0, os, 0);
            },
            _ => {},
        },
    }
}

// ---------------------------------------------------------------------------
// Grids around the hero

/// A grid request for `(x, y)` waits in the queue.
pub open spec fn requested(q: Seq<EnqueuedBufferV>, x: i32, y: i32) -> bool {
    exists|i: int| 0 <= i < q.len() && (#[trigger] q[i]).msg_hint == MessageHint::MAPREQ(x, y)
}

/// Every grid `(gx + dx, gy + dy)` around `g`, with `dx` and `dy` in
/// {-1, 0, 1}, is received in `m` or has a request waiting in `q`.
pub open spec fn around_ok(m: GridMapV, q: Seq<EnqueuedBufferV>, g: (i32, i32)) -> bool {
    forall|dx: int, dy: int|
        -1 <= dx <= 1 && -1 <= dy <= 1 ==> has_grid(m, ((g.0 + dx) as i32, (g.1 + dy) as i32))
            || #[trigger] requested(q, (g.0 + dx) as i32, (g.1 + dy) as i32)
}

/// A grid request keeps what is known of the world and what already waits,
/// and after it the grid is received or its request waits.
proof fn lemma_mapreq_step(s: StateV, x: i32, y: i32)
    ensures
        mapreq_spec(s, x, y).map == s.map,
        mapreq_spec(s, x, y).hero == s.hero,
        mapreq_spec(s, x, y).objects == s.objects,
        has_grid(s.map, (x, y)) || requested(mapreq_spec(s, x, y).que, x, y),
        forall|a: i32, b: i32| requested(s.que, a, b) ==> #[trigger] requested(mapreq_spec(s, x, y).que, a, b),
        forall|a: i32, b: i32| #[trigger] requested(mapreq_spec(s, x, y).que, a, b) ==> requested(s.que, a, b) || (a == x && b == y),
{
    if !has_grid(s.map, (x, y)) {
        let r = mapreq_spec(s, x, y);
        assert forall|a: i32, b: i32| #[trigger] requested(r.que, a, b) implies requested(s.que, a, b) || (a == x && b == y) by {
            let i = choose|i: int| 0 <= i < r.que.len() && (#[trigger] r.que[i]).msg_hint == MessageHint::MAPREQ(a, b);
            if i > 0 {
                assert(r.que[i] == s.que[i - 1]);
            }
        }
        assert(r.que[0].msg_hint == MessageHint::MAPREQ(x, y));
        assert forall|a: i32, b: i32| requested(s.que, a, b) implies #[trigger] requested(r.que, a, b) by {
            let i = choose|i: int| 0 <= i < s.que.len() && (#[trigger] s.que[i]).msg_hint == MessageHint::MAPREQ(a, b);
            assert(r.que[i + 1] == s.que[i]);
        }
    }
}

/// Requesting the grids around `g` asks for each of the nine grids around
/// it that was not received: afterwards every grid `(gx + dx, gy + dy)`,
/// with `dx` and `dy` in {-1, 0, 1}, is received or has a request waiting.
/// What is known of the world, the hero and the objects stays as it was.
pub proof fn lemma_grids_around_requested(s: StateV, g: (i32, i32))
    requires
        -1952258 <= g.0 <= 1952257,
        -1952258 <= g.1 <= 1952257,
    ensures
        grids_around_spec(s, g).map == s.map,
        grids_around_spec(s, g).hero == s.hero,
        grids_around_spec(s, g).objects == s.objects,
        forall|dx: int, dy: int|
            -1 <= dx <= 1 && -1 <= dy <= 1 ==> has_grid(s.map, ((g.0 + dx) as i32, (g.1 + dy) as i32))
                || #[trigger] requested(grids_around_spec(s, g).que, (g.0 + dx) as i32, (g.1 + dy) as i32),
        forall|a: i32, b: i32|
            #[trigger] requested(grids_around_spec(s, g).que, a, b) ==> requested(s.que, a, b) || (g.0 - 1 <= a
                <= g.0 + 1 && g.1 - 1 <= b <= g.1 + 1),
{
    let (x, y) = g;
    let (xm, xp, ym, yp) = ((x - 1) as i32, (x + 1) as i32, (y - 1) as i32, (y + 1) as i32);
    let s1 = mapreq_spec(s, x, y);
    let s2 = mapreq_spec(s1, xm, y);
    let s3 = mapreq_spec(s2, xp, y);
    let s4 = mapreq_spec(s3, xm, ym);
    let s5 = mapreq_spec(s4, x, ym);
    let s6 = mapreq_spec(s5, xp, ym);
    let s7 = mapreq_spec(s6, xm, yp);
    let s8 = mapreq_spec(s7, x, yp);
    let s9 = mapreq_spec(s8, xp, yp);
    lemma_mapreq_step(s, x, y);
    lemma_mapreq_step(s1, xm, y);
    lemma_mapreq_step(s2, xp, y);
    lemma_mapreq_step(s3, xm, ym);
    lemma_mapreq_step(s4, x, ym);
    lemma_mapreq_step(s5, xp, ym);
    lemma_mapreq_step(s6, xm, yp);
    lemma_mapreq_step(s7, x, yp);
    lemma_mapreq_step(s8, xp, yp);
    assert(s9 == grids_around_spec(s, g));
    assert forall|a: i32, b: i32| #[trigger] requested(s9.que, a, b) implies requested(s.que, a, b) || (g.0 - 1
        <= a <= g.0 + 1 && g.1 - 1 <= b <= g.1 + 1) by {
        assert(requested(s9.que, a, b) ==> requested(s8.que, a, b) || (a == xp && b == yp));
        assert(requested(s8.que, a, b) ==> requested(s7.que, a, b) || (a == x && b == yp));
        assert(requested(s7.que, a, b) ==> requested(s6.que, a, b) || (a == xm && b == yp));
        assert(requested(s6.que, a, b) ==> requested(s5.que, a, b) || (a == xp && b == ym));
        assert(requested(s5.que, a, b) ==> requested(s4.que, a, b) || (a == x && b == ym));
        assert(requested(s4.que, a, b) ==> requested(s3.que, a, b) || (a == xm && b == ym));
        assert(requested(s3.que, a, b) ==> requested(s2.que, a, b) || (a == xp && b == y));
        assert(requested(s2.que, a, b) ==> requested(s1.que, a, b) || (a == xm && b == y));
        assert(requested(s1.que, a, b) ==> requested(s.que, a, b) || (a == x && b == y));
    }
    assert forall|dx: int, dy: int|
        -1 <= dx <= 1 && -1 <= dy <= 1 implies has_grid(s.map, ((g.0 + dx) as i32, (g.1 + dy) as i32))
            || #[trigger] requested(s9.que, (g.0 + dx) as i32, (g.1 + dy) as i32) by {
        let a = (g.0 + dx) as i32;
        let b = (g.1 + dy) as i32;
        if !has_grid(s.map, (a, b)) {
            if dx == 0 && dy == 0 {
                assert(requested(s1.que, a, b));
            } else if dx == -1 && dy == 0 {
                assert(requested(s2.que, a, b));
            } else if dx == 1 && dy == 0 {
                assert(requested(s3.que, a, b));
            } else if dx == -1 && dy == -1 {
                assert(requested(s4.que, a, b));
            } else if dx == 0 && dy == -1 {
                assert(requested(s5.que, a, b));
            } else if dx == 1 && dy == -1 {
                assert(requested(s6.que, a, b));
            } else if dx == -1 && dy == 1 {
                assert(requested(s7.que, a, b));
            } else if dx == 0 && dy == 1 {
                assert(requested(s8.que, a, b));
            } else {
                assert(requested(s9.que, a, b));
            }
            assert(requested(s1.que, a, b) ==> requested(s2.que, a, b));
            assert(requested(s2.que, a, b) ==> requested(s3.que, a, b));
            assert(requested(s3.que, a, b) ==> requested(s4.que, a, b));
            assert(requested(s4.que, a, b) ==> requested(s5.que, a, b));
            assert(requested(s5.que, a, b) ==> requested(s6.que, a, b));
            assert(requested(s6.que, a, b) ==> requested(s7.que, a, b));
            assert(requested(s7.que, a, b) ==> requested(s8.que, a, b));
            assert(requested(s8.que, a, b) ==> requested(s9.que, a, b));
        }
    }
}

/// When the game UI names the hero's object and that object has a
/// position, the nine grids around the hero's grid are each received or
/// requested afterwards.
pub proof fn lemma_gameui_requests_around(s: StateV, cargs: Seq<ListV>)
    requires
        gameui_spec(s, cargs).1 is Ok,
        cargs.len() > 1,
        cargs[1] is Int,
    ensures
        ({
            let r = gameui_spec(s, cargs).0;
            &&& hero_grid_xy_spec(r) is Some
            &&& around_ok(s.map, r.que, hero_grid_xy_spec(r)->0)
        }),
{
    let s1 = if cargs.len() > 0 && cargs[0] is Str {
        StateV { hero: HeroV { name: Some(cargs[0]->Str_0), ..s.hero }, ..s }
    } else {
        s
    };
    let obj = cargs[1]->Int_0;
    let s2 = StateV { hero: HeroV { obj: Some(obj as u32), ..s1.hero }, ..s1 };
    let xy = hero_xy_spec(s2)->0;
    let s3 = StateV { hero: HeroV { start_xy: Some(xy), ..s2.hero }, ..s2 };
    let g = (grid_coord(xy.0 as int) as i32, grid_coord(xy.1 as int) as i32);
    lemma_grid_coord_range(xy.0);
    lemma_grid_coord_range(xy.1);
    lemma_grids_around_requested(s3, g);
    assert(hero_xy_spec(s3) == Some(xy));
}

proof fn lemma_grid_coord_range(v: i32)
    ensures
        -1952258 <= grid_coord(v as int) <= 1952257,
{
}

} // verus!
