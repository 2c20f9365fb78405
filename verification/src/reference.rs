//! A reference model of the language: the opcodes as they stand in the
//! source, run by a program counter and a stack of open loops.

use vstd::prelude::*;
use crate::machine::{with_report, Applied, Cells, Next, Status};
use crate::opcode::OpCode;
use crate::parser::matching_close;
use crate::text::message;
use crate::trace::{Event, Kind};

verus! {

/// The state of the reference model.
///
/// `pc` is the index of the next opcode.  `loops` holds the indices of the
/// `[` of the loops that are being run, the innermost last.
pub struct Reference {
    pub ops: Seq<(OpCode, usize)>,
    pub cells: Cells,
    pub pc: int,
    pub loops: Seq<int>,
    pub status: Status,
}

/// A run of the reference model after some moves.
pub struct ReferenceProgress {
    pub machine: Reference,
    pub taken: nat,
    pub trace: Seq<Event>,
}

impl Reference {
    /// The model before the first opcode.
    pub open spec fn start(ops: Seq<(OpCode, usize)>) -> Reference {
        (Reference {
            ops,
            cells: Cells::initial(),
            pc: 0,
            loops: Seq::empty(),
            status: Status::Running,
        }).jump(0, Seq::empty())
    }

    /// The model with its program counter moved, and completed if that is
    /// the end of the opcodes.
    pub open spec fn jump(self, pc: int, loops: Seq<int>) -> Reference {
        Reference {
            pc,
            loops,
            status: if pc >= self.ops.len() {
                Status::Completed
            } else {
                Status::Running
            },
            ..self
        }
    }

    /// The model after an instruction was applied, with the event to report.
    pub open spec fn settle(self, applied: Applied) -> (Reference, Option<Event>) {
        let machine = Reference { cells: applied.cells, ..self };
        (
            match applied.next {
                Next::Advance => machine.jump(self.pc + 1, self.loops),
                Next::Await => Reference { status: Status::AwaitingInput, ..machine },
                Next::Fault => Reference { status: Status::Faulted, ..machine },
            },
            Some(applied.event),
        )
    }

    /// The end of the run in a fault with the given wording.
    pub open spec fn broken(self, prefix: Seq<char>, position: usize) -> (
        Reference,
        Option<Event>,
    ) {
        (
            Reference { status: Status::Faulted, ..self },
            Some(self.cells.report(Kind::Error(message(prefix, position)), position)),
        )
    }

    /// One step of the running model.
    ///
    /// A `[` over a cell that is 0 jumps behind its matching `]`; over any
    /// other cell it opens the loop.  A `]` over a cell that is not 0 jumps
    /// back behind the `[` of the innermost open loop; over 0 it closes the
    /// loop.  A bracket without its partner ends the run in a fault.  Any
    /// other opcode is applied to the cells.
    pub open spec fn step(self) -> (Reference, Option<Event>) {
        if self.status != Status::Running {
            (self, None)
        } else {
            let (op, position) = self.ops[self.pc];
            match op {
                OpCode::LoopBegin => if matching_close(self.ops, self.pc) >= self.ops.len() {
                    self.broken("Loop without ending at index "@, position)
                } else if self.cells.current() != 0 {
                    (self.jump(self.pc + 1, self.loops.push(self.pc)), None)
                } else {
                    (self.jump(matching_close(self.ops, self.pc) + 1, self.loops), None)
                },
                OpCode::LoopEnd => if self.loops.len() == 0 {
                    self.broken("Loop without beginning at index "@, position)
                } else if self.cells.current() != 0 {
                    (self.jump(self.loops.last() + 1, self.loops), None)
                } else {
                    (self.jump(self.pc + 1, self.loops.drop_last()), None)
                },
                _ => self.settle(self.cells.apply(op, position)),
            }
        }
    }

    /// The answer to a read: the model that waits for input takes `value`.
    pub open spec fn supply(self, value: i16) -> (Reference, Option<Event>) {
        if self.status != Status::AwaitingInput {
            (self, None)
        } else {
            self.settle(self.cells.store(value, self.ops[self.pc].1))
        }
    }

    /// The run after `moves` moves, with `inputs` as the values that answer
    /// its reads, in their order.
    pub open spec fn run(self, inputs: Seq<i16>, moves: nat) -> ReferenceProgress
        decreases moves,
    {
        if moves == 0 {
            ReferenceProgress { machine: self, taken: 0, trace: Seq::empty() }
        } else {
            self.run(inputs, (moves - 1) as nat).next(inputs)
        }
    }
}

impl ReferenceProgress {
    /// The run can go no further on these inputs.
    pub open spec fn settled(self, inputs: Seq<i16>) -> bool {
        match self.machine.status {
            Status::Running => false,
            Status::AwaitingInput => self.taken >= inputs.len(),
            _ => true,
        }
    }

    /// The run one move further: a running model takes a step, a waiting
    /// one takes the next input value.  A settled run stays as it is.
    pub open spec fn next(self, inputs: Seq<i16>) -> ReferenceProgress {
        if self.settled(inputs) {
            self
        } else if self.machine.status is Running {
            let (machine, report) = self.machine.step();
            ReferenceProgress {
                machine,
                taken: self.taken,
                trace: with_report(self.trace, report),
            }
        } else {
            let (machine, report) = self.machine.supply(inputs[self.taken as int]);
            ReferenceProgress {
                machine,
                taken: self.taken + 1,
                trace: with_report(self.trace, report),
            }
        }
    }
}

} // verus!
