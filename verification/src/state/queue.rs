//! The encoded messages that wait to be sent, and those that wait for the
//! server's answer before they are sent again.
use vstd::prelude::*;
use crate::codec::slice_to_vec;
use crate::proto::message::ClientMessageV;

verus! {

/// When to send a message again: after `ms` milliseconds, if the message
/// enqueued as number `seq` still waits for its answer.
#[derive(Clone, Copy, Debug)]
pub struct Timeout {
    pub ms: u64,
    pub seq: usize,
}

/// Which answer of the server ends the wait for a message.
#[allow(non_camel_case_types)]
#[derive(Clone, Copy, Debug, PartialEq, Eq, Structural)]
pub enum MessageHint {
    C_SESS,
    REL(u16),
    MAPREQ(i32, i32),
    CLOSE,
    NONE,
}

/// An encoded message, what answers it and when to send it again.
#[derive(Clone, Debug)]
pub struct EnqueuedBuffer {
    pub buf: Vec<u8>,
    pub msg_hint: MessageHint,
    pub timeout: Option<Timeout>,
}

pub struct EnqueuedBufferV {
    pub buf: Seq<u8>,
    pub msg_hint: MessageHint,
    pub timeout: Option<Timeout>,
}

impl View for EnqueuedBuffer {
    type V = EnqueuedBufferV;

    open spec fn view(&self) -> EnqueuedBufferV {
        EnqueuedBufferV { buf: self.buf@, msg_hint: self.msg_hint, timeout: self.timeout }
    }
}

impl EnqueuedBuffer {
    /// A copy of this buffer.
    pub fn duplicate(&self) -> (c: EnqueuedBuffer)
        ensures
            c@ == self@,
    {
        EnqueuedBuffer {
            buf: slice_to_vec(self.buf.as_slice()),
            msg_hint: self.msg_hint,
            timeout: self.timeout,
        }
    }
}

pub open spec fn bufs_view(q: Seq<EnqueuedBuffer>) -> Seq<EnqueuedBufferV> {
    q.map_values(|e: EnqueuedBuffer| e@)
}

/// What answers a client message: the session, the REL message by its
/// sequence number, the grid request by its coordinates, the close; the
/// other messages wait for nothing.
pub open spec fn hint_of(m: ClientMessageV) -> MessageHint {
    match m {
        ClientMessageV::Sess(_) => MessageHint::C_SESS,
        ClientMessageV::Rel(r) => MessageHint::REL(r.seq),
        ClientMessageV::MapReq(q) => MessageHint::MAPREQ(q.x, q.y),
        ClientMessageV::Close => MessageHint::CLOSE,
        _ => MessageHint::NONE,
    }
}

/// When a client message is sent again: SESS, REL and CLOSE after 100 ms,
/// grid requests after 400 ms, the other messages never.
pub open spec fn timeout_of(m: ClientMessageV, seq: usize) -> Option<Timeout> {
    match m {
        ClientMessageV::Sess(_) => Some(Timeout { ms: 100, seq }),
        ClientMessageV::Rel(_) => Some(Timeout { ms: 100, seq }),
        ClientMessageV::Close => Some(Timeout { ms: 100, seq }),
        ClientMessageV::MapReq(_) => Some(Timeout { ms: 400, seq }),
        _ => None,
    }
}

// ---------------------------------------------------------------------------
// The two queues. Both take new buffers at the front (index 0) and give
// them out at the back (the last index): the oldest buffer is the last.

/// The queues after `e` was enqueued: a buffer that waits for an answer
/// joins the waiting queue, and is sent at once only if nothing else waits;
/// a buffer that waits for nothing is sent at once.
pub open spec fn enqueue_bufs(
    que: Seq<EnqueuedBufferV>,
    tx: Seq<EnqueuedBufferV>,
    e: EnqueuedBufferV,
) -> (Seq<EnqueuedBufferV>, Seq<EnqueuedBufferV>) {
    if e.timeout is Some {
        (seq![e] + que, if que.len() == 0 { seq![e] + tx } else { tx })
    } else {
        (que, seq![e] + tx)
    }
}

/// The queues after an answer of kind `hint`: when the oldest waiting
/// buffer waits for it, it leaves, and the next one is sent.
pub open spec fn answered(
    que: Seq<EnqueuedBufferV>,
    tx: Seq<EnqueuedBufferV>,
    hint: MessageHint,
) -> (Seq<EnqueuedBufferV>, Seq<EnqueuedBufferV>) {
    if que.len() > 0 && que.last().msg_hint == hint {
        let q = que.drop_last();
        (q, if q.len() > 0 { seq![q.last()] + tx } else { tx })
    } else {
        (que, tx)
    }
}

/// The send queue after the timer of buffer number `seq` ran out: the
/// oldest waiting buffer is sent again if it is that buffer.
pub open spec fn timed_out(que: Seq<EnqueuedBufferV>, tx: Seq<EnqueuedBufferV>, seq: usize) -> Seq<
    EnqueuedBufferV,
> {
    if que.len() > 0 && (que.last().timeout matches Some(t) && t.seq == seq) {
        seq![que.last()] + tx
    } else {
        tx
    }
}

} // verus!
