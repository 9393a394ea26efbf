//! The pages of the debugging web view: which page an HTTP request asks
//! for.
use vstd::prelude::*;
use vstd::utf8::valid_utf8;

verus! {

/// A page of the web view.
#[derive(Debug, Clone, Copy, PartialEq, Eq, Structural)]
pub enum Page {
    /// The HTML page that fetches the data.
    Index,
    /// Resources, objects, widgets and heights as JSON.
    Env,
    /// The objects as JSON.
    Objects,
    /// The widgets as JSON.
    Widgets,
    /// Resources: not implemented.
    Resources,
    /// A walking command, which the view acknowledges and ignores.
    Go,
    /// A closing command, which the view acknowledges and ignores.
    Quit,
    /// Anything else.
    NotFound,
}

/// Whether `s` begins with `p`.
pub open spec fn starts_with(s: Seq<u8>, p: Seq<u8>) -> bool {
    p.len() <= s.len() && s.take(p.len() as int) == p
}

/// The index of the first CR or LF at or after `i`, or the length.
pub open spec fn line_end(s: Seq<u8>, i: int) -> int
    decreases s.len() - i,
{
    if i < 0 || i >= s.len() {
        s.len() as int
    } else if s[i] == 13 || s[i] == 10 {
        i
    } else {
        line_end(s, i + 1)
    }
}

pub open spec fn get_prefix() -> Seq<u8> {
    seq![0x47u8, 0x45, 0x54, 0x20, 0x2f]
}

/// The page of a path, by its beginning: " ", "env ", "objects ",
/// "widgets ", "resources ", "go/", "quit ".
pub open spec fn page_of(path: Seq<u8>) -> Page {
    if starts_with(path, seq![0x20u8]) {
        Page::Index
    } else if starts_with(path, seq![0x65u8, 0x6e, 0x76, 0x20]) {
        Page::Env
    } else if starts_with(path, seq![0x6fu8, 0x62, 0x6a, 0x65, 0x63, 0x74, 0x73, 0x20]) {
        Page::Objects
    } else if starts_with(path, seq![0x77u8, 0x69, 0x64, 0x67, 0x65, 0x74, 0x73, 0x20]) {
        Page::Widgets
    } else if starts_with(path, seq![0x72u8, 0x65, 0x73, 0x6f, 0x75, 0x72, 0x63, 0x65, 0x73, 0x20]) {
        Page::Resources
    } else if starts_with(path, seq![0x67u8, 0x6f, 0x2f]) {
        Page::Go
    } else if starts_with(path, seq![0x71u8, 0x75, 0x69, 0x74, 0x20]) {
        Page::Quit
    } else {
        Page::NotFound
    }
}

/// The path of a request: what follows "GET /" up to the end of the line.
pub open spec fn request_path(req: Seq<u8>) -> Seq<u8> {
    req.subrange(5, line_end(req, 5))
}

/// The page that a request asks for: a GET of a known path, or none.
pub open spec fn route_spec(req: Seq<u8>) -> Page {
    if starts_with(req, get_prefix()) {
        page_of(request_path(req))
    } else {
        Page::NotFound
    }
}

/// Requests that can be answered: text in UTF-8, whose walking commands
/// hold a space after the command.
pub open spec fn request_ok(req: Seq<u8>) -> bool {
    &&& valid_utf8(req)
    &&& route_spec(req) == Page::Go ==> request_path(req).contains(0x20u8)
}

fn prefix_is(s: &[u8], from: usize, p: &[u8]) -> (r: bool)
    requires
        from <= s@.len(),
    ensures
        r == starts_with(s@.subrange(from as int, s@.len() as int), p@),
{
    let ghost t = s@.subrange(from as int, s@.len() as int);
    let n = s.len();
    if n - from < p.len() {
        return false;
    }
    let mut i: usize = 0;
    while i < p.len()
        invariant
            i <= p@.len(),
            n == s@.len(),
            from + p@.len() <= n,
            t == s@.subrange(from as int, s@.len() as int),
            forall|j: int| 0 <= j < i ==> s@[from + j] == p@[j],
        decreases p@.len() - i,
    {
        if s[from + i] != p[i] {
            assert(t.take(p@.len() as int)[i as int] != p@[i as int]);
            return false;
        }
        i = i + 1;
    }
    assert(t.take(p@.len() as int) =~= p@);
    true
}

fn path_is(s: &[u8], from: usize, end: usize, p: &[u8]) -> (r: bool)
    requires
        from <= end <= s@.len(),
    ensures
        r == starts_with(s@.subrange(from as int, end as int), p@),
{
    let ghost t = s@.subrange(from as int, end as int);
    if end - from < p.len() {
        return false;
    }
    let mut i: usize = 0;
    while i < p.len()
        invariant
            i <= p@.len(),
            from + p@.len() <= end <= s@.len(),
            t == s@.subrange(from as int, end as int),
            forall|j: int| 0 <= j < i ==> s@[from + j] == p@[j],
        decreases p@.len() - i,
    {
        if s[from + i] != p[i] {
            assert(t.take(p@.len() as int)[i as int] != p@[i as int]);
            return false;
        }
        i = i + 1;
    }
    assert(t.take(p@.len() as int) =~= p@);
    true
}

/// The page that a request asks for.
pub fn route(req: &[u8]) -> (p: Page)
    requires
        request_ok(req@),
    ensures
        p == route_spec(req@),
{
    assert(req@.subrange(0, req@.len() as int) =~= req@);
    let get: [u8; 5] = [0x47, 0x45, 0x54, 0x20, 0x2f];
    assert(get@ =~= get_prefix());
    if !prefix_is(req, 0, get.as_slice()) {
        return Page::NotFound;
    }
    let mut e: usize = 5;
    while e < req.len() && req[e] != 13 && req[e] != 10
        invariant
            5 <= e <= req@.len(),
            line_end(req@, 5) == line_end(req@, e as int),
        decreases req@.len() - e,
    {
        e = e + 1;
    }
    assert(line_end(req@, e as int) == e);
    let p_index: [u8; 1] = [0x20];
    let p_env: [u8; 4] = [0x65, 0x6e, 0x76, 0x20];
    let p_objects: [u8; 8] = [0x6f, 0x62, 0x6a, 0x65, 0x63, 0x74, 0x73, 0x20];
    let p_widgets: [u8; 8] = [0x77, 0x69, 0x64, 0x67, 0x65, 0x74, 0x73, 0x20];
    let p_resources: [u8; 10] = [0x72, 0x65, 0x73, 0x6f, 0x75, 0x72, 0x63, 0x65, 0x73, 0x20];
    let p_go: [u8; 3] = [0x67, 0x6f, 0x2f];
    let p_quit: [u8; 5] = [0x71, 0x75, 0x69, 0x74, 0x20];
    assert(p_index@ =~= seq![0x20u8]);
    assert(p_env@ =~= seq![0x65u8, 0x6e, 0x76, 0x20]);
    assert(p_objects@ =~= seq![0x6fu8, 0x62, 0x6a, 0x65, 0x63, 0x74, 0x73, 0x20]);
    assert(p_widgets@ =~= seq![0x77u8, 0x69, 0x64, 0x67, 0x65, 0x74, 0x73, 0x20]);
    assert(p_resources@ =~= seq![0x72u8, 0x65, 0x73, 0x6f, 0x75, 0x72, 0x63, 0x65, 0x73, 0x20]);
    assert(p_go@ =~= seq![0x67u8, 0x6f, 0x2f]);
    assert(p_quit@ =~= seq![0x71u8, 0x75, 0x69, 0x74, 0x20]);
    if path_is(req, 5, e, p_index.as_slice()) {
        Page::Index
    } else if path_is(req, 5, e, p_env.as_slice()) {
        Page::Env
    } else if path_is(req, 5, e, p_objects.as_slice()) {
        Page::Objects
    } else if path_is(req, 5, e, p_widgets.as_slice()) {
        Page::Widgets
    } else if path_is(req, 5, e, p_resources.as_slice()) {
        Page::Resources
    } else if path_is(req, 5, e, p_go.as_slice()) {
        Page::Go
    } else if path_is(req, 5, e, p_quit.as_slice()) {
        Page::Quit
    } else {
        Page::NotFound
    }
}

} // verus!
