//! The pages of the debugging web view, written from the session: the
//! index page and the JSON views of resources, objects and widgets, each
//! with its HTTP header. Maps are written in the order in which they give
//! out their keys, which no one chooses: the contracts hold for that order,
//! whichever it is.
use vstd::prelude::*;
use vstd::utf8::encode_utf8;
use std::collections::HashMap;
use crate::codec::put_bytes;
use crate::state::obj::Obj;
use crate::state::session::{State, StateV, WidgetV, resources_view};
use crate::web::{Page, route, route_spec, request_ok};

verus! {

broadcast use vstd::std_specs::hash::group_hash_axioms;

// ---------------------------------------------------------------------------
// Text

/// The decimal digits of `n`.
pub open spec fn dec(n: nat) -> Seq<u8>
    decreases n,
{
    if n < 10 {
        seq![(0x30 + n) as u8]
    } else {
        dec(n / 10).push((0x30 + n % 10) as u8)
    }
}

/// An integer in decimal, with a minus sign when it is negative.
pub open spec fn int_dec(i: int) -> Seq<u8> {
    if i < 0 {
        seq![0x2du8] + dec((-i) as nat)
    } else {
        dec(i as nat)
    }
}

/// The UTF-8 bytes of a text.
pub open spec fn txt(s: &str) -> Seq<u8> {
    encode_utf8(s@)
}

fn put_dec(w: &mut Vec<u8>, n: u64)
    ensures
        final(w)@ == old(w)@ + dec(n as nat),
    decreases n,
{
    if n >= 10 {
        put_dec(w, n / 10);
    }
    let d = (n % 10) as u8;
    w.push(0x30 + d);
    proof {
        if n >= 10 {
            assert(final(w)@ =~= old(w)@ + dec(n as nat));
        } else {
            assert(final(w)@ =~= old(w)@ + dec(n as nat));
        }
    }
}

fn put_int(w: &mut Vec<u8>, i: i64)
    ensures
        final(w)@ == old(w)@ + int_dec(i as int),
{
    if i < 0 {
        w.push(0x2d);
        let m: u64 = if i == i64::MIN { 0x8000_0000_0000_0000u64 } else { (-i) as u64 };
        let ghost w1 = w@;
        put_dec(w, m);
        assert(final(w)@ =~= old(w)@ + int_dec(i as int));
    } else {
        put_dec(w, i as u64);
    }
}

fn put_text(w: &mut Vec<u8>, s: &str)
    ensures
        final(w)@ == old(w)@ + txt(s),
{
    put_bytes(w, s.as_bytes());
}

/// The keys of a map, each once, in the order the map gives them out.
pub(crate) fn map_keys<K: Copy + std::hash::Hash + Eq, V>(m: &HashMap<K, V>) -> (ks: Vec<K>)
    requires
        vstd::std_specs::hash::obeys_key_model::<K>(),
    ensures
        is_key_order(ks@, m@),
{
    let mut ks: Vec<K> = Vec::new();
    let keys = m.keys();
    let ghost g = vstd::std_specs::iter::IteratorSpec::remaining(&keys);
    assert(g.unref().to_set() == m@.dom());
    for k in it: keys
        invariant
            it.seq() == g,
            ks@ == it.seq().take(it.index() as int).map_values(|r: &K| *r),
    {
        ks.push(*k);
    }
    assert(ks@ =~= g.unref());
    ks
}

// ---------------------------------------------------------------------------
// What the pages hold

/// An order in which to write the entries of `m`: each key once.
pub open spec fn is_key_order<K, V>(ks: Seq<K>, m: Map<K, V>) -> bool {
    ks.no_duplicates() && ks.to_set() == m.dom()
}

/// Entries joined by commas.
pub open spec fn joined(es: Seq<Seq<u8>>) -> Seq<u8>
    decreases es.len(),
{
    if es.len() == 0 {
        seq![]
    } else if es.len() == 1 {
        es[0]
    } else {
        joined(es.drop_last()) + seq![0x2cu8] + es.last()
    }
}

/// Entries each on a line of its own, the lines after the first starting
/// with a comma.
pub open spec fn lines(es: Seq<Seq<u8>>) -> Seq<u8>
    decreases es.len(),
{
    if es.len() == 0 {
        seq![]
    } else if es.len() == 1 {
        seq![0x0du8, 0x0au8] + es[0]
    } else {
        lines(es.drop_last()) + seq![0x0du8, 0x0au8, 0x2cu8] + es.last()
    }
}

/// A resource: its id and name.
pub open spec fn res_entry(id: u16, name: Seq<char>) -> Seq<u8> {
    txt("{\"id\":") + dec(id as nat) + txt(",\"name\":\"") + encode_utf8(name) + txt("\"}")
}

/// The resource of an object, its name, or `null` when it has none or the
/// name is unknown.
pub open spec fn res_name(o: Obj, res: Map<u16, Seq<char>>) -> Seq<u8> {
    match o.resid {
        Some(r) => if res.contains_key(r) {
            encode_utf8(res[r])
        } else {
            txt("null")
        },
        None => txt("null"),
    }
}

/// An object: its position, or (0, 0), its resource, or 0, and the name of
/// its resource.
pub open spec fn obj_entry(o: Obj, res: Map<u16, Seq<char>>) -> Seq<u8> {
    let (x, y) = match o.xy {
        Some(xy) => xy,
        None => (0i32, 0i32),
    };
    let r: u16 = match o.resid {
        Some(r) => r,
        None => 0,
    };
    txt("{\"x\":") + int_dec(x as int) + txt(",\"y\":") + int_dec(y as int) + txt(",\"resid\":")
        + dec(r as nat) + txt(",\"resname\":\"") + res_name(o, res) + txt("\"}")
}

/// A widget: its id, its type and its parent.
pub open spec fn wid_entry(id: u16, w: WidgetV) -> Seq<u8> {
    txt("{\"id\":") + dec(id as nat) + txt(",\"name\":\"") + encode_utf8(w.typ) + txt(
        "\",\"parent\":\"",
    ) + dec(w.parent as nat) + txt("\"}")
}

pub open spec fn res_entries(ks: Seq<u16>, s: StateV) -> Seq<Seq<u8>> {
    ks.map_values(|k: u16| res_entry(k, s.resources[k]))
}

pub open spec fn obj_entries(ks: Seq<u32>, s: StateV) -> Seq<Seq<u8>> {
    ks.map_values(|k: u32| obj_entry(s.objects[k], s.resources))
}

pub open spec fn wid_entries(ks: Seq<u16>, s: StateV) -> Seq<Seq<u8>> {
    ks.map_values(|k: u16| wid_entry(k, s.widgets[k]))
}

/// `n` zeros joined by commas.
pub open spec fn zeros(n: nat) -> Seq<u8>
    decreases n,
{
    if n == 0 {
        seq![]
    } else if n == 1 {
        seq![0x30u8]
    } else {
        zeros((n - 1) as nat) + seq![0x2cu8, 0x30u8]
    }
}

/// The heights sent with the environment: 100 by 100 zeros.
pub const HEIGHTS: usize = 10000;

/// The environment: resources, objects and widgets, in the given orders,
/// and the heights.
pub open spec fn env_body(rk: Seq<u16>, ok: Seq<u32>, wk: Seq<u16>, s: StateV) -> Seq<u8> {
    txt("{\"res\":[") + lines(res_entries(rk, s)) + txt("],\"obj\":[") + lines(obj_entries(ok, s))
        + txt("],\"wid\":[") + lines(wid_entries(wk, s)) + txt("],\"map\":[") + zeros(HEIGHTS as nat)
        + txt("]}")
}

/// A JSON reply.
pub open spec fn json_reply(body: Seq<u8>) -> Seq<u8> {
    txt("HTTP/1.1 200 OK\r\nContent-Type: text/json\r\nContent-Length: ") + dec(body.len())
        + txt("\r\nAccess-Control-Allow-Origin: *\r\n\r\n") + body
}

/// The objects, in the given order, as a JSON array.
pub open spec fn objects_body(ok: Seq<u32>, s: StateV) -> Seq<u8> {
    txt("[ ") + joined(obj_entries(ok, s)) + txt(" ]")
}

/// The widgets, in the given order, as a JSON array.
pub open spec fn widgets_body(wk: Seq<u16>, s: StateV) -> Seq<u8> {
    txt("[ ") + joined(wid_entries(wk, s)) + txt(" ]")
}

// ---------------------------------------------------------------------------
// Writing the pages

fn put_res_entry(w: &mut Vec<u8>, id: u16, name: &String)
    ensures
        final(w)@ == old(w)@ + res_entry(id, name@),
{
    put_text(w, "{\"id\":");
    put_dec(w, id as u64);
    put_text(w, ",\"name\":\"");
    put_text(w, name.as_str());
    put_text(w, "\"}");
    assert(final(w)@ =~= old(w)@ + res_entry(id, name@));
}

fn put_res_name(w: &mut Vec<u8>, o: &Obj, res: &HashMap<u16, String>)
    ensures
        final(w)@ == old(w)@ + res_name(*o, resources_view(res@)),
{
    match o.resid {
        Some(r) => match res.get(&r) {
            Some(name) => put_text(w, name.as_str()),
            None => put_text(w, "null"),
        },
        None => put_text(w, "null"),
    }
}

#[verifier::rlimit(60)]
#[verifier::spinoff_prover]
fn put_obj_entry(w: &mut Vec<u8>, o: &Obj, res: &HashMap<u16, String>)
    ensures
        final(w)@ == old(w)@ + obj_entry(*o, resources_view(res@)),
{
    let (x, y) = match o.xy {
        Some(xy) => xy,
        None => (0i32, 0i32),
    };
    let r: u16 = match o.resid {
        Some(r) => r,
        None => 0,
    };
    let ghost w0 = w@;
    put_text(w, "{\"x\":");
    put_int(w, x as i64);
    put_text(w, ",\"y\":");
    put_int(w, y as i64);
    put_text(w, ",\"resid\":");
    put_dec(w, r as u64);
    put_text(w, ",\"resname\":\"");
    put_res_name(w, o, res);
    put_text(w, "\"}");
    assert(w@ =~= w0 + obj_entry(*o, resources_view(res@)));
}

fn put_wid_entry(w: &mut Vec<u8>, id: u16, wd: &crate::state::session::Widget)
    ensures
        final(w)@ == old(w)@ + wid_entry(id, wd@),
{
    put_text(w, "{\"id\":");
    put_dec(w, id as u64);
    put_text(w, ",\"name\":\"");
    put_text(w, wd.typ.as_str());
    put_text(w, "\",\"parent\":\"");
    put_dec(w, wd.parent as u64);
    put_text(w, "\"}");
    assert(final(w)@ =~= old(w)@ + wid_entry(id, wd@));
}

/// Writes an entry of a list: on a line of its own, after a comma but for
/// the first; or after a comma but for the first.
fn put_sep(w: &mut Vec<u8>, first: bool, on_lines: bool)
    ensures
        final(w)@ == old(w)@ + if on_lines {
            if first { seq![0x0du8, 0x0au8] } else { seq![0x0du8, 0x0au8, 0x2cu8] }
        } else {
            if first { seq![] } else { seq![0x2cu8] }
        },
{
    if on_lines {
        w.push(0x0d);
        w.push(0x0a);
    }
    if !first {
        w.push(0x2c);
    }
    assert(final(w)@ =~= old(w)@ + if on_lines {
        if first { seq![0x0du8, 0x0au8] } else { seq![0x0du8, 0x0au8, 0x2cu8] }
    } else {
        if first { seq![] } else { seq![0x2cu8] }
    });
}

/// `lines` or `joined` of entries, as `on_lines` says.
pub open spec fn list_of(es: Seq<Seq<u8>>, on_lines: bool) -> Seq<u8> {
    if on_lines { lines(es) } else { joined(es) }
}

proof fn lemma_list_push(es: Seq<Seq<u8>>, e: Seq<u8>, on_lines: bool)
    ensures
        list_of(es.push(e), on_lines) == list_of(es, on_lines) + if on_lines {
            if es.len() == 0 { seq![0x0du8, 0x0au8] } else { seq![0x0du8, 0x0au8, 0x2cu8] }
        } else {
            if es.len() == 0 { seq![] } else { seq![0x2cu8] }
        } + e,
{
    assert(es.push(e).drop_last() =~= es);
    if es.len() == 0 {
        assert(es.push(e)[0] == e);
        assert(lines(es) == Seq::<u8>::empty());
        assert(joined(es) == Seq::<u8>::empty());
        assert(list_of(es.push(e), on_lines) =~= list_of(es, on_lines) + if on_lines {
            seq![0x0du8, 0x0au8]
        } else {
            seq![]
        } + e);
    }
}

fn put_res_list(w: &mut Vec<u8>, s: &State, ks: &Vec<u16>, on_lines: bool)
    requires
        forall|i: int| 0 <= i < ks@.len() ==> s@.resources.contains_key(#[trigger] ks@[i]),
    ensures
        final(w)@ == old(w)@ + list_of(res_entries(ks@, s@), on_lines),
{
    let mut i: usize = 0;
    while i < ks.len()
        invariant
            i <= ks@.len(),
            forall|j: int| 0 <= j < ks@.len() ==> s@.resources.contains_key(#[trigger] ks@[j]),
            w@ == old(w)@ + list_of(res_entries(ks@.take(i as int), s@), on_lines),
        decreases ks@.len() - i,
    {
        let k = ks[i];
        assert(s@.resources.contains_key(ks@[i as int]));
        let name = match s.resources.get(&k) {
            Some(n) => n,
            None => {
                assert(false);
                return;
            },
        };
        let ghost es = res_entries(ks@.take(i as int), s@);
        proof {
            assert(res_entries(ks@.take(i as int + 1), s@) =~= es.push(res_entry(k, s@.resources[k])));
            lemma_list_push(es, res_entry(k, s@.resources[k]), on_lines);
        }
        put_sep(w, i == 0, on_lines);
        put_res_entry(w, k, name);
        i = i + 1;
        assert(w@ =~= old(w)@ + list_of(res_entries(ks@.take(i as int), s@), on_lines));
    }
    assert(ks@.take(ks@.len() as int) =~= ks@);
}

fn put_obj_list(w: &mut Vec<u8>, s: &State, ks: &Vec<u32>, on_lines: bool)
    requires
        forall|i: int| 0 <= i < ks@.len() ==> s@.objects.contains_key(#[trigger] ks@[i]),
    ensures
        final(w)@ == old(w)@ + list_of(obj_entries(ks@, s@), on_lines),
{
    let mut i: usize = 0;
    while i < ks.len()
        invariant
            i <= ks@.len(),
            forall|j: int| 0 <= j < ks@.len() ==> s@.objects.contains_key(#[trigger] ks@[j]),
            w@ == old(w)@ + list_of(obj_entries(ks@.take(i as int), s@), on_lines),
        decreases ks@.len() - i,
    {
        let k = ks[i];
        assert(s@.objects.contains_key(ks@[i as int]));
        let o = match s.objects.get(&k) {
            Some(o) => o,
            None => {
                assert(false);
                return;
            },
        };
        let ghost es = obj_entries(ks@.take(i as int), s@);
        proof {
            assert(obj_entries(ks@.take(i as int + 1), s@) =~= es.push(obj_entry(s@.objects[k], s@.resources)));
            lemma_list_push(es, obj_entry(s@.objects[k], s@.resources), on_lines);
        }
        put_sep(w, i == 0, on_lines);
        put_obj_entry(w, o, &s.resources);
        i = i + 1;
        assert(w@ =~= old(w)@ + list_of(obj_entries(ks@.take(i as int), s@), on_lines));
    }
    assert(ks@.take(ks@.len() as int) =~= ks@);
}

fn put_wid_list(w: &mut Vec<u8>, s: &State, ks: &Vec<u16>, on_lines: bool)
    requires
        forall|i: int| 0 <= i < ks@.len() ==> s@.widgets.contains_key(#[trigger] ks@[i]),
    ensures
        final(w)@ == old(w)@ + list_of(wid_entries(ks@, s@), on_lines),
{
    let mut i: usize = 0;
    while i < ks.len()
        invariant
            i <= ks@.len(),
            forall|j: int| 0 <= j < ks@.len() ==> s@.widgets.contains_key(#[trigger] ks@[j]),
            w@ == old(w)@ + list_of(wid_entries(ks@.take(i as int), s@), on_lines),
        decreases ks@.len() - i,
    {
        let k = ks[i];
        assert(s@.widgets.contains_key(ks@[i as int]));
        let wd = match s.widgets.get(&k) {
            Some(x) => x,
            None => {
                assert(false);
                return;
            },
        };
        let ghost es = wid_entries(ks@.take(i as int), s@);
        proof {
            assert(wid_entries(ks@.take(i as int + 1), s@) =~= es.push(wid_entry(k, s@.widgets[k])));
            lemma_list_push(es, wid_entry(k, s@.widgets[k]), on_lines);
        }
        put_sep(w, i == 0, on_lines);
        put_wid_entry(w, k, wd);
        i = i + 1;
        assert(w@ =~= old(w)@ + list_of(wid_entries(ks@.take(i as int), s@), on_lines));
    }
    assert(ks@.take(ks@.len() as int) =~= ks@);
}

proof fn lemma_keys_in<K, V>(ks: Seq<K>, m: Map<K, V>)
    requires
        is_key_order(ks, m),
    ensures
        forall|i: int| 0 <= i < ks.len() ==> m.contains_key(#[trigger] ks[i]),
{
    assert forall|i: int| 0 <= i < ks.len() implies m.contains_key(#[trigger] ks[i]) by {
        assert(ks.contains(ks[i]));
        assert(ks.to_set().contains(ks[i]));
    }
}

fn put_zeros(w: &mut Vec<u8>, n: usize)
    ensures
        final(w)@ == old(w)@ + zeros(n as nat),
{
    let mut i: usize = 0;
    while i < n
        invariant
            i <= n,
            w@ == old(w)@ + zeros(i as nat),
        decreases n - i,
    {
        if i > 0 {
            w.push(0x2c);
        }
        w.push(0x30);
        i = i + 1;
        assert(w@ =~= old(w)@ + zeros(i as nat));
    }
}

fn reply_json(body: &Vec<u8>) -> (p: Vec<u8>)
    ensures
        p@ == json_reply(body@),
{
    let mut p: Vec<u8> = Vec::new();
    put_text(&mut p, "HTTP/1.1 200 OK\r\nContent-Type: text/json\r\nContent-Length: ");
    put_dec(&mut p, body.len() as u64);
    put_text(&mut p, "\r\nAccess-Control-Allow-Origin: *\r\n\r\n");
    put_bytes(&mut p, body.as_slice());
    assert(p@ =~= json_reply(body@));
    p
}

/// The environment page: resources, objects and widgets, each in the order
/// its map gives out its keys, and the heights.
pub fn env_page(s: &State) -> (p: Vec<u8>)
    ensures
        exists|rk: Seq<u16>, ok: Seq<u32>, wk: Seq<u16>|
            is_key_order(rk, s@.resources) && is_key_order(ok, s@.objects) && is_key_order(wk, s@.widgets)
            && p@ == json_reply(#[trigger] env_body(rk, ok, wk, s@)),
{
    let rk = map_keys(&s.resources);
    let ok = map_keys(&s.objects);
    let wk = map_keys(&s.widgets);
    assert(s@.resources.dom() == s.resources@.dom());
    assert(s@.widgets.dom() == s.widgets@.dom());
    proof { lemma_keys_in(rk@, s@.resources); }
    proof { lemma_keys_in(ok@, s@.objects); }
    proof { lemma_keys_in(wk@, s@.widgets); }
    let mut b: Vec<u8> = Vec::new();
    put_text(&mut b, "{\"res\":[");
    put_res_list(&mut b, s, &rk, true);
    put_text(&mut b, "],\"obj\":[");
    put_obj_list(&mut b, s, &ok, true);
    put_text(&mut b, "],\"wid\":[");
    put_wid_list(&mut b, s, &wk, true);
    put_text(&mut b, "],\"map\":[");
    put_zeros(&mut b, HEIGHTS);
    put_text(&mut b, "]}");
    assert(b@ =~= env_body(rk@, ok@, wk@, s@));
    reply_json(&b)
}

/// The objects page, each object in the order the map gives out its keys.
pub fn objects_page(s: &State) -> (p: Vec<u8>)
    requires
        s@.objects.dom().len() > 0,
    ensures
        exists|ok: Seq<u32>| is_key_order(ok, s@.objects) && p@ == json_reply(#[trigger] objects_body(ok, s@)),
{
    let ok = map_keys(&s.objects);
    proof { lemma_keys_in(ok@, s@.objects); }
    let mut b: Vec<u8> = Vec::new();
    put_text(&mut b, "[ ");
    put_obj_list(&mut b, s, &ok, false);
    put_text(&mut b, " ]");
    assert(b@ =~= objects_body(ok@, s@));
    reply_json(&b)
}

/// The widgets page, each widget in the order the map gives out its keys.
pub fn widgets_page(s: &State) -> (p: Vec<u8>)
    requires
        s@.widgets.dom().len() > 0,
    ensures
        exists|wk: Seq<u16>| is_key_order(wk, s@.widgets) && p@ == json_reply(#[trigger] widgets_body(wk, s@)),
{
    let wk = map_keys(&s.widgets);
    assert(s@.widgets.dom() == s.widgets@.dom());
    proof { lemma_keys_in(wk@, s@.widgets); }
    let mut b: Vec<u8> = Vec::new();
    put_text(&mut b, "[ ");
    put_wid_list(&mut b, s, &wk, false);
    put_text(&mut b, " ]");
    assert(b@ =~= widgets_body(wk@, s@));
    reply_json(&b)
}

/// The index page: a script that fetches the data.
pub const INDEX_BODY: &'static str = "<html> \r\n<head> \r\n<title></title> \r\n<script src=\"http://code.jquery.com/jquery-1.11.3.min.js\" stype=\"text/javascript\"></script> \r\n<script type=\"text/javascript\"> \r\n$(document).ready(function(){ \r\n$('#getdata-button').on('click', function(){ \r\n$.get('http://localhost:33000/data', function(data) { \r\n$('#showdata').html(\"<p>\"+data+\"</p>\"); \r\n}); \r\n}); \r\n}); \r\n</script> \r\n</head> \r\n<body> \r\n<a href=\"#\" id=\"getdata-button\">C</a> \r\n<div id=\"showdata\"></div> \r\n</body> \r\n</html>\r\n\r\n";

/// The index page with its header.
pub open spec fn index_page() -> Seq<u8> {
    txt("HTTP/1.1 200 OK\r\nContent-Type: text/html; charset=utf-8\r\nContent-Length: ")
        + dec(txt(INDEX_BODY).len()) + txt("\r\n\r\n") + txt(INDEX_BODY)
}

/// The reply to a request of the web view, from the session.
pub open spec fn reply_ok(p: Seq<u8>, req: Seq<u8>, s: StateV) -> bool {
    match route_spec(req) {
        Page::Index => p == index_page(),
        Page::Env => exists|rk: Seq<u16>, ok: Seq<u32>, wk: Seq<u16>|
            is_key_order(rk, s.resources) && is_key_order(ok, s.objects) && is_key_order(wk, s.widgets)
            && p == json_reply(#[trigger] env_body(rk, ok, wk, s)),
        Page::Objects => exists|ok: Seq<u32>| is_key_order(ok, s.objects) && p == json_reply(#[trigger] objects_body(ok, s)),
        Page::Widgets => exists|wk: Seq<u16>| is_key_order(wk, s.widgets) && p == json_reply(#[trigger] widgets_body(wk, s)),
        Page::Resources => p == txt("HTTP/1.1 404 Not Implemented\r\n\r\n"),
        Page::Go => p == txt("HTTP/1.1 200 OK\r\n\r\n"),
        Page::Quit => p == txt("HTTP/1.1 200 OK\r\n\r\n"),
        Page::NotFound => p == txt("HTTP/1.1 404 Not Found\r\n\r\n"),
    }
}

/// The index page.
pub fn index_page_bytes() -> (p: Vec<u8>)
    ensures
        p@ == index_page(),
{
    let mut p: Vec<u8> = Vec::new();
    put_text(&mut p, "HTTP/1.1 200 OK\r\nContent-Type: text/html; charset=utf-8\r\nContent-Length: ");
    put_dec(&mut p, INDEX_BODY.as_bytes().len() as u64);
    put_text(&mut p, "\r\n\r\n");
    put_text(&mut p, INDEX_BODY);
    assert(p@ =~= index_page());
    p
}

/// The reply to a request of the web view. The object and widget pages
/// list at least one entry.
pub fn responce(req: &[u8], s: &State) -> (p: Vec<u8>)
    requires
        request_ok(req@),
        route_spec(req@) == Page::Objects ==> s@.objects.dom().len() > 0,
        route_spec(req@) == Page::Widgets ==> s@.widgets.dom().len() > 0,
    ensures
        reply_ok(p@, req@, s@),
{
    let mut p: Vec<u8> = Vec::new();
    match route(req) {
        Page::Index => index_page_bytes(),
        Page::Env => env_page(s),
        Page::Objects => objects_page(s),
        Page::Widgets => widgets_page(s),
        Page::Resources => {
            put_text(&mut p, "HTTP/1.1 404 Not Implemented\r\n\r\n");
            p
        },
        Page::Go | Page::Quit => {
            put_text(&mut p, "HTTP/1.1 200 OK\r\n\r\n");
            p
        },
        Page::NotFound => {
            put_text(&mut p, "HTTP/1.1 404 Not Found\r\n\r\n");
            p
        },
    }
}

} // verus!
