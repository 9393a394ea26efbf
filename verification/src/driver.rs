//! The events that drive a session: datagrams of the server, timers that
//! run out, and the user's commands.
use vstd::prelude::*;
use crate::error::Error;
use crate::proto::message::ClientMessageV;
use crate::state::queue::timed_out;
use crate::state::session::{State, StateV, enqueue_spec, go_msg, hero_xy_spec, outcome, widget_id_spec};
use crate::state::dispatch::rx_spec;

verus! {

/// A command of the user.
#[derive(Debug, Clone, Copy, PartialEq, Eq, Structural)]
pub enum RenderEvent {
    Up,
    Down,
    Left,
    Right,
    Quit,
}

/// What happened: a datagram arrived, the timer of an enqueued message ran
/// out, or the user gave a command.
#[derive(Debug)]
pub enum Event {
    Rx(Vec<u8>),
    Timeout(usize),
    Render(RenderEvent),
}

/// Where a walking command sends the hero from `(x, y)`: 100 units up,
/// down, left or right.
pub open spec fn walk_target(e: RenderEvent, xy: (i32, i32)) -> (int, int) {
    match e {
        RenderEvent::Up => (xy.0 as int, xy.1 + 100),
        RenderEvent::Down => (xy.0 as int, xy.1 - 100),
        RenderEvent::Left => (xy.0 - 100, xy.1 as int),
        RenderEvent::Right => (xy.0 + 100, xy.1 as int),
        RenderEvent::Quit => (xy.0 as int, xy.1 as int),
    }
}

/// The sessions on which a command can run: a walking command of a hero
/// whose position is known needs the map widget and a target in range.
pub open spec fn command_ok(s: StateV, e: RenderEvent) -> bool {
    (e != RenderEvent::Quit && hero_xy_spec(s) is Some) ==> {
        let t = walk_target(e, hero_xy_spec(s)->0);
        &&& widget_id_spec(s, "mapview"@, None) is Some
        &&& i32::MIN <= t.0 <= i32::MAX
        &&& i32::MIN <= t.1 <= i32::MAX
    }
}

/// What the session does with a command: a walking command walks a hero
/// whose position is known, and does nothing otherwise; Quit closes the
/// session.
pub open spec fn command_spec(s: StateV, e: RenderEvent) -> StateV {
    if e == RenderEvent::Quit {
        enqueue_spec(s, ClientMessageV::Close).0
    } else {
        match hero_xy_spec(s) {
            None => s,
            Some(xy) => {
                let t = walk_target(e, xy);
                enqueue_spec(s, go_msg(s, t.0 as i32, t.1 as i32)).0
            },
        }
    }
}

impl State {
    /// Whether the session can take a command of the user.
    pub fn can_command(&self, e: RenderEvent) -> (b: bool)
        ensures
            b == command_ok(self@, e),
    {
        if e == RenderEvent::Quit {
            return true;
        }
        match self.hero_xy() {
            None => true,
            Some((x, y)) => {
                let (tx, ty): (i64, i64) = match e {
                    RenderEvent::Up => (x as i64, y as i64 + 100),
                    RenderEvent::Down => (x as i64, y as i64 - 100),
                    RenderEvent::Left => (x as i64 - 100, y as i64),
                    RenderEvent::Right => (x as i64 + 100, y as i64),
                    RenderEvent::Quit => (x as i64, y as i64),
                };
                self.widget_exists("mapview", None) && i32::MIN as i64 <= tx && tx <= i32::MAX as i64
                    && i32::MIN as i64 <= ty && ty <= i32::MAX as i64
            },
        }
    }

    /// Applies one event.
    pub fn dispatch_event(&mut self, event: Event) -> (res: Result<(), Error>)
        requires
            event matches Event::Render(e) ==> command_ok(old(self)@, e),
        ensures
            match event {
                Event::Rx(buf) => (final(self)@, outcome(res)) == rx_spec(old(self)@, buf@),
                Event::Timeout(seq) => res is Ok && final(self)@ == (StateV {
                    tx_buf: timed_out(old(self)@.que, old(self)@.tx_buf, seq),
                    ..old(self)@
                }),
                Event::Render(e) => res is Ok && final(self)@ == command_spec(old(self)@, e),
            },
    {
        match event {
            Event::Rx(buf) => self.rx(buf.as_slice()),
            Event::Timeout(seq) => {
                self.timeout(seq);
                Ok(())
            },
            Event::Render(RenderEvent::Quit) => self.close(),
            Event::Render(e) => {
                match self.hero_xy() {
                    Some((x, y)) => {
                        let (tx, ty) = match e {
                            RenderEvent::Up => (x, y + 100),
                            RenderEvent::Down => (x, y - 100),
                            RenderEvent::Left => (x - 100, y),
                            RenderEvent::Right => (x + 100, y),
                            RenderEvent::Quit => (x, y),
                        };
                        self.go(tx, ty)
                    },
                    None => Ok(()),
                }
            },
        }
    }
}

} // verus!
