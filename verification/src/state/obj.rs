//! The objects of the world as the client knows them, and how an OBJDATA
//! element updates one.
use vstd::prelude::*;
use crate::proto::message_objdata::{ObjDataElemProp, PropV, props_view};

verus! {

/// A straight movement from `from` to `to` in `steps` steps, of which
/// `step` are done.
#[derive(Clone, Copy, Debug)]
pub struct Movement {
    pub from: (i32, i32),
    pub to: (i32, i32),
    pub steps: i32,
    pub step: i32,
}

impl Movement {
    pub fn new(from: (i32, i32), to: (i32, i32), steps: i32, step: i32) -> (m: Movement)
        ensures
            m == (Movement { from, to, steps, step }),
    {
        Movement { from, to, steps, step }
    }
}

/// An object: its id, the frame of its last update, its resource, position
/// and movement.
#[derive(Clone, Copy, Debug)]
pub struct Obj {
    pub id: u32,
    pub frame: Option<i32>,
    pub resid: Option<u16>,
    pub xy: Option<(i32, i32)>,
    pub movement: Option<Movement>,
}

impl Obj {
    pub fn new(
        id: u32,
        frame: Option<i32>,
        resid: Option<u16>,
        xy: Option<(i32, i32)>,
        movement: Option<Movement>,
    ) -> (o: Obj)
        ensures
            o == (Obj { id, frame, resid, xy, movement }),
    {
        Obj { id, frame, resid, xy, movement }
    }
}

/// What the properties of one OBJDATA element say of an object.
#[derive(Clone, Copy, Debug)]
pub struct ObjProp {
    pub xy: Option<(i32, i32)>,
    pub resid: Option<u16>,
    pub line: Option<((i32, i32), (i32, i32), i32)>,
    pub step: Option<i32>,
}

pub open spec fn no_prop() -> ObjProp {
    ObjProp { xy: None, resid: None, line: None, step: None }
}

/// The properties `ps` applied in turn to `acc`; a removal gives None.
/// Position, resource, line start and line step: the last of each wins.
pub open spec fn props_apply(acc: ObjProp, ps: Seq<PropV>) -> Option<ObjProp>
    decreases ps.len(),
{
    if ps.len() == 0 {
        Some(acc)
    } else {
        let rest = ps.drop_first();
        match ps[0] {
            PropV::Rem => None,
            PropV::Move(xy, _) => props_apply(ObjProp { xy: Some(xy), ..acc }, rest),
            PropV::Res(r) => props_apply(ObjProp { resid: Some(r), ..acc }, rest),
            PropV::Compose(r) => props_apply(ObjProp { resid: Some(r), ..acc }, rest),
            PropV::Linbeg(f, t, n) => props_apply(ObjProp { line: Some((f, t, n)), ..acc }, rest),
            PropV::Linstep(s) => props_apply(ObjProp { step: Some(s), ..acc }, rest),
            _ => props_apply(acc, rest),
        }
    }
}

/// The object after an update: a new resource or position replaces the
/// old one; a line start begins a movement at step 0; a line step moves
/// the movement on when it lies strictly between 0 and the step count, and
/// otherwise, or without a movement, ends it.
pub open spec fn obj_update(o: Obj, p: ObjProp) -> Obj {
    let o1 = Obj {
        resid: if p.resid is Some { p.resid } else { o.resid },
        xy: if p.xy is Some { p.xy } else { o.xy },
        movement: match p.line {
            Some((f, t, n)) => Some(Movement { from: f, to: t, steps: n, step: 0 }),
            None => o.movement,
        },
        ..o
    };
    match p.step {
        None => o1,
        Some(s) => Obj {
            movement: match o1.movement {
                Some(m) => if 0 < s && s < m.steps {
                    Some(Movement { step: s, ..m })
                } else {
                    None
                },
                None => None,
            },
            ..o1
        },
    }
}

/// An update at `frame`: one not newer than the last frame the object took
/// is ignored (false); otherwise the object takes the frame and the update
/// (true).
pub open spec fn obj_apply(o: Obj, frame: i32, p: ObjProp) -> (Obj, bool) {
    if o.frame matches Some(f) && frame <= f {
        (o, false)
    } else {
        (obj_update(Obj { frame: Some(frame), ..o }, p), true)
    }
}

impl ObjProp {
    pub fn new() -> (p: ObjProp)
        ensures
            p == no_prop(),
    {
        ObjProp { xy: None, resid: None, line: None, step: None }
    }

    /// What the properties say of the object, or None when one of them
    /// removes it.
    pub fn from_obj_data_elem_prop(odep: &[ObjDataElemProp]) -> (res: Option<ObjProp>)
        ensures
            res == props_apply(no_prop(), props_view(odep@)),
    {
        let ghost ps = props_view(odep@);
        let mut prop = ObjProp::new();
        let mut i: usize = 0;
        assert(ps.subrange(0, ps.len() as int) =~= ps);
        while i < odep.len()
            invariant
                i <= odep@.len(),
                ps == props_view(odep@),
                props_apply(no_prop(), ps) == props_apply(prop, ps.subrange(i as int, ps.len() as int)),
            decreases odep@.len() - i,
        {
            let ghost rest = ps.subrange(i as int + 1, ps.len() as int);
            assert(ps.subrange(i as int, ps.len() as int).drop_first() =~= rest);
            assert(ps.subrange(i as int, ps.len() as int)[0] == odep@[i as int]@);
            match &odep[i] {
                ObjDataElemProp::odREM => {
                    return None;
                },
                ObjDataElemProp::odMOVE(xy, _) => {
                    prop.xy = Some(*xy);
                },
                ObjDataElemProp::odRES(resid) => {
                    prop.resid = Some(*resid);
                },
                ObjDataElemProp::odCOMPOSE(resid) => {
                    prop.resid = Some(*resid);
                },
                ObjDataElemProp::odLINBEG(from, to, steps) => {
                    prop.line = Some((*from, *to, *steps));
                },
                ObjDataElemProp::odLINSTEP(step) => {
                    prop.step = Some(*step);
                },
                _ => {},
            }
            i = i + 1;
        }
        assert(ps.subrange(i as int, ps.len() as int) =~= Seq::<PropV>::empty());
        Some(prop)
    }
}

impl Obj {
    /// Applies what an OBJDATA element says of this object.
    pub fn update(&mut self, prop: &ObjProp)
        ensures
            *final(self) == obj_update(*old(self), *prop),
    {
        if let Some(resid) = prop.resid {
            self.resid = Some(resid);
        }
        if let Some(xy) = prop.xy {
            self.xy = Some(xy);
        }
        if let Some((from, to, steps)) = prop.line {
            self.movement = Some(Movement::new(from, to, steps, 0));
        }
        if let Some(step) = prop.step {
            let movement = match self.movement {
                Some(m) => {
                    if step > 0 && step < m.steps {
                        Some(Movement::new(m.from, m.to, m.steps, step))
                    } else {
                        None
                    }
                },
                None => None,
            };
            self.movement = movement;
        }
    }
}

impl Obj {
    /// Applies an update at `frame` unless the object already took that frame
    /// or a newer one; says whether it was applied.
    pub fn apply(&mut self, frame: i32, prop: &ObjProp) -> (applied: bool)
        ensures
            (*final(self), applied) == obj_apply(*old(self), frame, *prop),
    {
        if let Some(f) = self.frame {
            if frame <= f {
                return false;
            }
        }
        self.frame = Some(frame);
        self.update(prop);
        true
    }
}

/// What an update does to an object: the id and frame stay; a given
/// position or resource replaces the old one, else it stays; a line start
/// begins a movement along that line at step 0; a line step `s` on a
/// movement of `n` steps moves it to step `s` when `0 < s < n`, keeping
/// its line and step count, and otherwise, or without a movement, ends it;
/// without either, the movement stays.
pub proof fn lemma_update_effect(o: Obj, p: ObjProp)
    ensures
        obj_update(o, p).id == o.id,
        obj_update(o, p).frame == o.frame,
        obj_update(o, p).xy == (if p.xy is Some { p.xy } else { o.xy }),
        obj_update(o, p).resid == (if p.resid is Some { p.resid } else { o.resid }),
        p.line is None && p.step is None ==> obj_update(o, p).movement == o.movement,
        p.line is Some && p.step is None ==> obj_update(o, p).movement == Some(
            Movement { from: p.line.unwrap().0, to: p.line.unwrap().1, steps: p.line.unwrap().2, step: 0 },
        ),
        p.line is None && o.movement is Some && p.step is Some && 0 < p.step.unwrap() < o.movement.unwrap().steps
            ==> obj_update(o, p).movement == Some(
            Movement {
                from: o.movement.unwrap().from,
                to: o.movement.unwrap().to,
                steps: o.movement.unwrap().steps,
                step: p.step.unwrap(),
            },
        ),
        p.line is None && o.movement is Some && p.step is Some && !(0 < p.step.unwrap() < o.movement.unwrap().steps)
            ==> obj_update(o, p).movement is None,
        p.line is None && o.movement is None && p.step is Some ==> obj_update(o, p).movement is None,
        p.line is Some && p.step is Some && 0 < p.step.unwrap() < p.line.unwrap().2 ==> obj_update(o, p).movement
            == Some(
            Movement { from: p.line.unwrap().0, to: p.line.unwrap().1, steps: p.line.unwrap().2, step: p.step.unwrap() },
        ),
        p.line is Some && p.step is Some && !(0 < p.step.unwrap() < p.line.unwrap().2) ==> obj_update(o, p).movement
            is None,
{
}

/// A stale update changes nothing; a newer one takes its frame and does
/// what `lemma_update_effect` says.
pub proof fn lemma_apply_effect(o: Obj, frame: i32, p: ObjProp)
    ensures
        o.frame is Some && frame <= o.frame.unwrap() ==> obj_apply(o, frame, p) == (o, false),
        !(o.frame is Some && frame <= o.frame.unwrap()) ==> {
            &&& obj_apply(o, frame, p).1
            &&& obj_apply(o, frame, p).0.frame == Some(frame)
            &&& obj_apply(o, frame, p).0 == obj_update(Obj { frame: Some(frame), ..o }, p)
        },
{
}

} // verus!
