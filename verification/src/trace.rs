//! What the interpreter reports of each step.

use vstd::prelude::*;

verus! {

/// The kind of a trace event.
#[derive(Debug, Clone, PartialEq, Eq)]
pub enum Action {
    /// The interpreter asks for one input value.
    Input,
    /// The current cell was written to the output.
    Output,
    /// The data pointer or the current cell changed.
    Tape,
    /// The run ended in a fault, with the reason.
    Error(String),
    /// The interpreter is held by a pause.
    Paused,
}

/// One trace event: the data pointer and the content of its cell after the
/// step, what happened, and the source offset of the instruction.
#[derive(Debug, Clone, PartialEq, Eq)]
pub struct CellChange {
    pub index: usize,
    pub content: u8,
    pub action: Action,
    pub text_index: usize,
}

/// The mathematical value of an [`Action`].
pub enum Kind {
    Input,
    Output,
    Tape,
    Error(Seq<char>),
    Paused,
}

/// The mathematical value of a [`CellChange`].
pub struct Event {
    pub index: usize,
    pub content: u8,
    pub kind: Kind,
    pub text_index: usize,
}

impl View for Action {
    type V = Kind;

    open spec fn view(&self) -> Kind {
        match *self {
            Action::Input => Kind::Input,
            Action::Output => Kind::Output,
            Action::Tape => Kind::Tape,
            Action::Error(reason) => Kind::Error(reason@),
            Action::Paused => Kind::Paused,
        }
    }
}

impl View for CellChange {
    type V = Event;

    open spec fn view(&self) -> Event {
        Event {
            index: self.index,
            content: self.content,
            kind: self.action@,
            text_index: self.text_index,
        }
    }
}

/// The value of a step's report, which may be no event at all.
pub open spec fn event_of(report: Option<CellChange>) -> Option<Event> {
    match report {
        Some(change) => Some(change@),
        None => None,
    }
}

/// The values of a sequence of events.
pub open spec fn events_of(changes: Seq<CellChange>) -> Seq<Event> {
    Seq::new(changes.len(), |i: int| changes[i]@)
}

} // verus!
