//! A scripted player: it picks the first character, waits for the world,
//! then walks a fixed figure 400 times and closes the session.
use vstd::prelude::*;
use crate::list::ListV;
use crate::proto::message::ClientMessageV;
use crate::state::session::{
    State, StateV, enqueue_spec, go_msg, hero_grid_spec, hero_obj_spec, hero_xy_spec, wdgmsg_rel,
    widget_id_spec,
};

verus! {

/// Where the script is.
#[derive(Debug, Clone, Copy, PartialEq, Eq, Structural)]
pub enum AiState {
    WaitForCharList,
    WaitForWorld,
    Walking,
    Walking1,
    Walking2,
    WaitForEnd,
}

/// The leg of the walked figure.
#[derive(Debug, Clone, Copy, PartialEq, Eq, Structural)]
pub enum Step {
    A,
    B,
    C,
    D,
}

/// Figures walked before the script closes the session.
pub const CYCLES: usize = 400;

/// The script: where it is, which leg comes next, and how many figures
/// were begun.
pub struct AiDecl {
    state: AiState,
    step: Step,
    cycle: usize,
}

pub struct AiDeclV {
    pub state: AiState,
    pub step: Step,
    pub cycle: usize,
}

impl View for AiDecl {
    type V = AiDeclV;

    closed spec fn view(&self) -> AiDeclV {
        AiDeclV { state: self.state, step: self.step, cycle: self.cycle }
    }
}

/// The move of each leg.
pub open spec fn leg(step: Step) -> (i32, i32) {
    match step {
        Step::A => (10i32, 0i32),
        Step::B => (0i32, 10i32),
        Step::C => (-100i32, 0i32),
        Step::D => (0i32, -1000i32),
    }
}

pub open spec fn next_leg(step: Step) -> Step {
    match step {
        Step::A => Step::B,
        Step::B => Step::C,
        Step::C => Step::D,
        Step::D => Step::A,
    }
}

pub open spec fn moving(s: StateV) -> bool {
    hero_obj_spec(s) matches Some(o) && o.movement is Some
}

/// What one update of the script does to itself and to the session.
pub open spec fn ai_update_spec(a: AiDeclV, s: StateV) -> (AiDeclV, StateV) {
    match a.state {
        AiState::WaitForCharList => if s.charlist.len() > 0 {
            (
                AiDeclV { state: AiState::WaitForWorld, ..a },
                enqueue_spec(
                    s,
                    wdgmsg_rel(
                        widget_id_spec(s, "charlist"@, None)->0,
                        "play"@,
                        seq![ListV::Str(s.charlist[0])],
                    ),
                ).0,
            )
        } else {
            (a, s)
        },
        AiState::WaitForWorld => if widget_id_spec(s, "mapview"@, None) is Some && hero_obj_spec(
            s,
        ) is Some && hero_grid_spec(s) is Some && !moving(s) {
            (AiDeclV { state: AiState::Walking, ..a }, s)
        } else {
            (a, s)
        },
        AiState::Walking => match hero_xy_spec(s) {
            Some((x, y)) => {
                let (dx, dy) = leg(a.step);
                (
                    AiDeclV {
                        state: AiState::Walking1,
                        step: next_leg(a.step),
                        cycle: if a.step == Step::D {
                            (a.cycle + 1) as usize
                        } else {
                            a.cycle
                        },
                    },
                    enqueue_spec(
                        s,
                        wdgmsg_rel(
                            widget_id_spec(s, "mapview"@, None)->0,
                            "click"@,
                            seq![
                                ListV::Coord((907, 755)),
                                ListV::Coord(((x + dx) as i32, (y + dy) as i32)),
                                ListV::Int(1),
                                ListV::Int(0),
                            ],
                        ),
                    ).0,
                )
            },
            None => (a, s),
        },
        AiState::Walking1 => if moving(s) {
            (AiDeclV { state: AiState::Walking2, ..a }, s)
        } else {
            (a, s)
        },
        AiState::Walking2 => if !moving(s) {
            if a.cycle < CYCLES {
                (AiDeclV { state: AiState::Walking, ..a }, s)
            } else {
                (AiDeclV { state: AiState::WaitForEnd, ..a }, enqueue_spec(s, ClientMessageV::Close).0)
            }
        } else {
            (a, s)
        },
        AiState::WaitForEnd => (a, s),
    }
}

/// The sessions on which an update can run: the character list widget is
/// there when a character is chosen, and the map widget is there and the
/// target in range when the hero walks.
pub open spec fn ai_can_update(a: AiDeclV, s: StateV) -> bool {
    &&& (a.state == AiState::WaitForCharList && s.charlist.len() > 0) ==> widget_id_spec(
        s,
        "charlist"@,
        None,
    ) is Some
    &&& (a.state == AiState::Walking && hero_xy_spec(s) is Some) ==> {
        let (x, y) = hero_xy_spec(s)->0;
        let (dx, dy) = leg(a.step);
        &&& widget_id_spec(s, "mapview"@, None) is Some
        &&& i32::MIN <= x + dx <= i32::MAX
        &&& i32::MIN <= y + dy <= i32::MAX
    }
}

impl AiDecl {
    #[verifier::type_invariant]
    spec fn inv(self) -> bool {
        &&& self.cycle <= CYCLES
        &&& self.state == AiState::Walking ==> self.cycle < CYCLES
        &&& (self.state == AiState::WaitForCharList || self.state == AiState::WaitForWorld)
            ==> self.cycle == 0
    }

    /// A script that waits for the character list.
    pub fn new() -> (a: AiDecl)
        ensures
            a@ == (AiDeclV { state: AiState::WaitForCharList, step: Step::A, cycle: 0 }),
    {
        AiDecl { state: AiState::WaitForCharList, step: Step::A, cycle: 0 }
    }

    /// Where the script is.
    pub fn ai_state(&self) -> (s: AiState)
        ensures
            s == self@.state,
    {
        self.state
    }

    /// Figures begun.
    pub fn cycles(&self) -> (c: usize)
        ensures
            c == self@.cycle,
            c <= CYCLES,
    {
        proof {
            use_type_invariant(self);
        }
        self.cycle
    }

    /// Whether the session can take the script's next step.
    pub fn can_update(&self, state: &State) -> (b: bool)
        ensures
            b == ai_can_update(self@, state@),
    {
        if self.state == AiState::WaitForCharList && state.charlist.len() > 0 {
            return state.widget_exists("charlist", None);
        }
        if self.state == AiState::Walking {
            match state.hero_xy() {
                Some((x, y)) => {
                    let (dx, dy): (i64, i64) = match self.step {
                        Step::A => (10, 0),
                        Step::B => (0, 10),
                        Step::C => (-100, 0),
                        Step::D => (0, -1000),
                    };
                    let tx = x as i64 + dx;
                    let ty = y as i64 + dy;
                    return state.widget_exists("mapview", None) && i32::MIN as i64 <= tx && tx
                        <= i32::MAX as i64 && i32::MIN as i64 <= ty && ty <= i32::MAX as i64;
                },
                None => {},
            }
        }
        true
    }

    /// One step of the script, from what the session shows.
    pub fn update(&mut self, state: &mut State)
        requires
            ai_can_update(old(self)@, old(state)@),
        ensures
            (final(self)@, final(state)@) == ai_update_spec(old(self)@, old(state)@),
    {
        proof {
            use_type_invariant(&*self);
        }
        match self.state {
            AiState::WaitForCharList => {
                if state.charlist.len() > 0 {
                    let _ = state.send_play(0);
                    self.state = AiState::WaitForWorld;
                }
            },
            AiState::WaitForWorld => {
                if state.widget_exists("mapview", None) && state.hero_exists()
                    && state.hero_grid_exists() && !state.hero_is_moving() {
                    self.state = AiState::Walking;
                }
            },
            AiState::Walking => {
                match state.hero_xy() {
                    Some((x, y)) => {
                        let (dx, dy): (i32, i32) = match self.step {
                            Step::A => (10, 0),
                            Step::B => (0, 10),
                            Step::C => (-100, 0),
                            Step::D => (0, -1000),
                        };
                        self.state = AiState::Walking1;
                        if self.step == Step::D {
                            self.cycle = self.cycle + 1;
                        }
                        self.step = match self.step {
                            Step::A => Step::B,
                            Step::B => Step::C,
                            Step::C => Step::D,
                            Step::D => Step::A,
                        };
                        let _ = state.go(x + dx, y + dy);
                    },
                    None => {},
                }
            },
            AiState::Walking1 => {
                if state.hero_is_moving() {
                    self.state = AiState::Walking2;
                }
            },
            AiState::Walking2 => {
                if !state.hero_is_moving() {
                    if self.cycle < CYCLES {
                        self.state = AiState::Walking;
                    } else {
                        let _ = state.close();
                        self.state = AiState::WaitForEnd;
                    }
                }
            },
            AiState::WaitForEnd => {},
        }
    }
}

// ---------------------------------------------------------------------------
// The script over a run of updates

/// The position of a leg in the figure.
pub open spec fn leg_index(step: Step) -> int {
    match step {
        Step::A => 0,
        Step::B => 1,
        Step::C => 2,
        Step::D => 3,
    }
}

/// The leg at position `i` of the figure.
pub open spec fn leg_at(i: int) -> Step {
    if i == 0 {
        Step::A
    } else if i == 1 {
        Step::B
    } else if i == 2 {
        Step::C
    } else {
        Step::D
    }
}

/// How many walking clicks the script has sent.
pub open spec fn walks_sent(a: AiDeclV) -> int {
    4 * a.cycle + leg_index(a.step)
}

/// What holds of every script that started as `AiDecl::new` made it.
pub open spec fn ai_reachable(a: AiDeclV) -> bool {
    &&& a.cycle <= CYCLES
    &&& a.cycle == CYCLES ==> a.step == Step::A
    &&& a.state == AiState::Walking ==> a.cycle < CYCLES
    &&& (a.state == AiState::WaitForCharList || a.state == AiState::WaitForWorld) ==> a.cycle == 0
        && a.step == Step::A
}

/// The script after updates on the sessions `ss`, one after the other, as
/// the server changed the session between them.
pub open spec fn ai_run(a: AiDeclV, ss: Seq<StateV>) -> AiDeclV
    decreases ss.len(),
{
    if ss.len() == 0 {
        a
    } else {
        ai_run(ai_update_spec(a, ss[0]).0, ss.drop_first())
    }
}

/// A new script has sent no walking click and is reachable.
pub proof fn lemma_new_script()
    ensures
        ai_reachable(AiDeclV { state: AiState::WaitForCharList, step: Step::A, cycle: 0 }),
        walks_sent(AiDeclV { state: AiState::WaitForCharList, step: Step::A, cycle: 0 }) == 0,
{
}

/// One update of a reachable script: the walking click it sends is the
/// next one, and moves the hero by the leg of the figure that its count
/// gives (10,0), (0,10), (-100,0), (0,-1000) in turn; the session is closed
/// only after the 1600th click, that is after 400 figures, and from then on
/// nothing changes; otherwise no click is counted.
pub proof fn lemma_ai_step(a: AiDeclV, s: StateV)
    requires
        ai_reachable(a),
    ensures
        ({
            let (a2, s2) = ai_update_spec(a, s);
            &&& ai_reachable(a2)
            &&& (a.state == AiState::Walking && hero_xy_spec(s) is Some) ==> {
                let (x, y) = hero_xy_spec(s)->0;
                let (dx, dy) = leg(leg_at(walks_sent(a) % 4));
                &&& walks_sent(a2) == walks_sent(a) + 1
                &&& s2 == enqueue_spec(s, go_msg(s, (x + dx) as i32, (y + dy) as i32)).0
            }
            &&& !(a.state == AiState::Walking && hero_xy_spec(s) is Some) ==> walks_sent(a2) == walks_sent(a)
            &&& a2.state == AiState::WaitForEnd && a.state != AiState::WaitForEnd ==> {
                &&& walks_sent(a) == 4 * CYCLES
                &&& s2 == enqueue_spec(s, ClientMessageV::Close).0
            }
            &&& a.state == AiState::WaitForEnd ==> a2 == a && s2 == s
        }),
{
    assert(walks_sent(a) % 4 == leg_index(a.step));
}

/// A run of updates keeps the script reachable, never counts more than
/// 1600 walking clicks, and leaves a finished script as it was.
pub proof fn lemma_ai_run(a: AiDeclV, ss: Seq<StateV>)
    requires
        ai_reachable(a),
    ensures
        ai_reachable(ai_run(a, ss)),
        walks_sent(ai_run(a, ss)) <= 4 * CYCLES,
        walks_sent(a) <= walks_sent(ai_run(a, ss)),
        a.state == AiState::WaitForEnd ==> ai_run(a, ss) == a,
    decreases ss.len(),
{
    if ss.len() > 0 {
        lemma_ai_step(a, ss[0]);
        lemma_ai_run(ai_update_spec(a, ss[0]).0, ss.drop_first());
    }
}

/// What one update of the script sends: nothing, the choice of the first
/// character, a walking click by a leg of the figure, or the close.
pub enum AiAction {
    Nothing,
    Play,
    Walk(i32, i32),
    Close,
}

pub open spec fn ai_action(a: AiDeclV, s: StateV) -> AiAction {
    match a.state {
        AiState::WaitForCharList => if s.charlist.len() > 0 {
            AiAction::Play
        } else {
            AiAction::Nothing
        },
        AiState::Walking => if hero_xy_spec(s) is Some {
            AiAction::Walk(leg(a.step).0, leg(a.step).1)
        } else {
            AiAction::Nothing
        },
        AiState::Walking2 => if !moving(s) && a.cycle >= CYCLES {
            AiAction::Close
        } else {
            AiAction::Nothing
        },
        _ => AiAction::Nothing,
    }
}

/// What a run of updates on the sessions `ss` sends, update by update.
pub open spec fn ai_trace(a: AiDeclV, ss: Seq<StateV>) -> Seq<AiAction>
    decreases ss.len(),
{
    if ss.len() == 0 {
        seq![]
    } else {
        seq![ai_action(a, ss[0])] + ai_trace(ai_update_spec(a, ss[0]).0, ss.drop_first())
    }
}

/// A trace as the script must send it, after `n` walking clicks and with
/// the session closed or not: the character is chosen before any click;
/// the click after `n` others moves by the leg at `n` mod 4, and there are
/// fewer than 1600 of them; the close comes once, after exactly 1600
/// clicks; after it nothing is sent.
pub open spec fn trace_ok(tr: Seq<AiAction>, n: int, closed: bool) -> bool
    decreases tr.len(),
{
    if tr.len() == 0 {
        true
    } else {
        let rest = tr.drop_first();
        match tr[0] {
            AiAction::Nothing => trace_ok(rest, n, closed),
            AiAction::Play => !closed && n == 0 && trace_ok(rest, n, closed),
            AiAction::Walk(dx, dy) => !closed && n < 4 * CYCLES && (dx, dy) == leg(leg_at(n % 4))
                && trace_ok(rest, n + 1, closed),
            AiAction::Close => !closed && n == 4 * CYCLES && trace_ok(rest, n, true),
        }
    }
}

/// Each action is what the update sends to the session: nothing, the
/// choice of the first character, the click by the leg from where the hero
/// is, or the close.
pub proof fn lemma_ai_action_sent(a: AiDeclV, s: StateV)
    ensures
        ai_update_spec(a, s).1 == match ai_action(a, s) {
            AiAction::Nothing => s,
            AiAction::Play => enqueue_spec(
                s,
                wdgmsg_rel(widget_id_spec(s, "charlist"@, None)->0, "play"@, seq![ListV::Str(s.charlist[0])]),
            ).0,
            AiAction::Walk(dx, dy) => {
                let (x, y) = hero_xy_spec(s)->0;
                enqueue_spec(s, go_msg(s, (x + dx) as i32, (y + dy) as i32)).0
            },
            AiAction::Close => enqueue_spec(s, ClientMessageV::Close).0,
        },
{
}

/// Over any run of updates, a reachable script sends a trace as it must.
pub proof fn lemma_ai_trace(a: AiDeclV, ss: Seq<StateV>)
    requires
        ai_reachable(a),
    ensures
        trace_ok(ai_trace(a, ss), walks_sent(a), a.state == AiState::WaitForEnd),
    decreases ss.len(),
{
    if ss.len() > 0 {
        let a2 = ai_update_spec(a, ss[0]).0;
        lemma_ai_step(a, ss[0]);
        lemma_ai_trace(a2, ss.drop_first());
        let tr = ai_trace(a, ss);
        assert(tr[0] == ai_action(a, ss[0]));
        assert(tr.drop_first() =~= ai_trace(a2, ss.drop_first()));
        assert(walks_sent(a) % 4 == leg_index(a.step));
    }
}

/// The script's whole life: from a new script, whatever the server does to
/// the session between updates, the k-th walking click moves the hero by
/// (10, 0), (0, 10), (-100, 0), (0, -1000) for k - 1 mod 4 = 0, 1, 2, 3;
/// the session is closed once, after the 1600th click, and nothing is sent
/// after that.
pub proof fn lemma_ai_whole_run(ss: Seq<StateV>)
    ensures
        trace_ok(ai_trace(AiDeclV { state: AiState::WaitForCharList, step: Step::A, cycle: 0 }, ss), 0, false),
{
    lemma_ai_trace(AiDeclV { state: AiState::WaitForCharList, step: Step::A, cycle: 0 }, ss);
}

} // verus!
