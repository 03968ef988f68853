//! The byte pump between a client and an origin: what it does after each
//! read, and how many bytes it has moved when it ends. The reads and writes
//! themselves are the caller's; each direction has a buffer of its own.

use crate::error::{ErrorView, ProxyError};
use vstd::prelude::*;

verus! {

/// The size of the buffer of each direction, in bytes.
pub const PUMP_BUFFER_SIZE: usize = 8192;

/// What has happened at the pump.
#[derive(Debug, Clone, PartialEq, Eq)]
pub enum PumpEvent {
    /// A read gave `count` bytes, more than none, and all of them were
    /// written to the other side and flushed.
    Moved { count: usize },
    /// A read gave no bytes: that side has closed.
    Eof,
    /// A read failed.
    ReadFailed,
    /// A write or flush failed, with this message.
    WriteFailed { message: String },
}

/// What the pump does next.
#[derive(Debug, Clone, PartialEq, Eq)]
pub enum PumpStep {
    /// Go on reading from both sides.
    Continue,
    /// Stop: the pump has moved `total` bytes.
    Done { total: u64 },
    /// Stop with an error.
    Failed { error: ProxyError },
}

/// The bytes that the moves among the events have moved.
pub open spec fn bytes_moved(events: Seq<PumpEvent>) -> nat
    decreases events.len(),
{
    if events.len() == 0 {
        0
    } else {
        bytes_moved(events.drop_last()) + match events.last() {
            PumpEvent::Moved { count } => count as nat,
            _ => 0,
        }
    }
}

/// Whether every event is a move.
pub open spec fn all_moves(events: Seq<PumpEvent>) -> bool {
    forall|i: int| 0 <= i < events.len() ==> #[trigger] events[i] is Moved
}

/// The step that an event leads to, from a total of bytes moved so far: a move
/// adds its bytes and the pump goes on; the end of a side and a failed read
/// end the pump with the total; a failed write ends it with an I/O error.
pub open spec fn pump_step(total: nat, event: PumpEvent) -> (nat, Option<Result<nat, ErrorView>>) {
    match event {
        PumpEvent::Moved { count } => (total + count as nat, None),
        PumpEvent::Eof => (total, Some(Ok(total))),
        PumpEvent::ReadFailed => (total, Some(Ok(total))),
        PumpEvent::WriteFailed { message } => (total, Some(Err(ErrorView::Io(message@)))),
    }
}

/// The total after a run of moves, from none.
pub open spec fn total_after(events: Seq<PumpEvent>) -> nat
    decreases events.len(),
{
    if events.len() == 0 {
        0
    } else {
        pump_step(total_after(events.drop_last()), events.last()).0
    }
}

/// A pump that has only moved bytes, and then sees a side close, reports
/// exactly the bytes that its moves have moved.
pub proof fn lemma_byte_conservation(moves: Seq<PumpEvent>)
    requires
        all_moves(moves),
    ensures
        total_after(moves) == bytes_moved(moves),
        pump_step(total_after(moves), PumpEvent::Eof).1 == Some(
            Ok::<nat, ErrorView>(bytes_moved(moves)),
        ),
    decreases moves.len(),
{
    if moves.len() > 0 {
        assert forall|i: int| 0 <= i < moves.drop_last().len() implies #[trigger] moves.drop_last()[i] is Moved by {
            assert(moves.drop_last()[i] == moves[i]);
        }
        lemma_byte_conservation(moves.drop_last());
        assert(moves[moves.len() - 1] is Moved);
    }
}

/// The pump: the bytes moved so far, and whether it has ended.
#[derive(Debug)]
pub struct Pump {
    total: u64,
    ended: bool,
}

impl Pump {
    /// The bytes moved so far.
    pub closed spec fn total(self) -> nat {
        self.total as nat
    }

    /// Whether the pump has ended.
    pub closed spec fn ended(self) -> bool {
        self.ended
    }

    /// A pump that has moved nothing yet.
    pub fn new() -> (pump: Pump)
        ensures
            pump.total() == 0,
            !pump.ended(),
    {
        Pump { total: 0, ended: false }
    }

    /// The bytes moved so far.
    pub fn bytes(&self) -> (n: u64)
        ensures
            n == self.total(),
    {
        self.total
    }

    /// Whether the pump has ended.
    pub fn has_ended(&self) -> (r: bool)
        ensures
            r == self.ended(),
    {
        self.ended
    }

    /// Whether the pump can count this many bytes more.
    pub fn can_move(&self, count: usize) -> (r: bool)
        ensures
            r == (self.total() + count <= u64::MAX),
    {
        count as u64 <= u64::MAX - self.total
    }

    /// Takes an event and says what to do next.
    pub fn step(&mut self, event: PumpEvent) -> (next: PumpStep)
        requires
            !old(self).ended(),
            event matches PumpEvent::Moved { count } ==> old(self).total() + count <= u64::MAX,
        ensures
            final(self).total() == pump_step(old(self).total(), event).0,
            final(self).ended() == pump_step(old(self).total(), event).1 is Some,
            match next {
                PumpStep::Continue => pump_step(old(self).total(), event).1 is None,
                PumpStep::Done { total } => pump_step(old(self).total(), event).1 == Some(
                    Ok::<nat, ErrorView>(total as nat),
                ),
                PumpStep::Failed { error } => pump_step(old(self).total(), event).1 == Some(
                    Err::<nat, ErrorView>(error@),
                ),
            },
    {
        match event {
            PumpEvent::Moved { count } => {
                self.total = self.total + count as u64;
                PumpStep::Continue
            },
            PumpEvent::Eof => {
                self.ended = true;
                PumpStep::Done { total: self.total }
            },
            PumpEvent::ReadFailed => {
                self.ended = true;
                PumpStep::Done { total: self.total }
            },
            PumpEvent::WriteFailed { message } => {
                self.ended = true;
                PumpStep::Failed { error: ProxyError::Io(message) }
            },
        }
    }
}

} // verus!
