//! The meaning of a run: the tape, and the machine that walks the tree.
//!
//! Everything here is mathematics.  The executable interpreter is held to
//! these definitions by its contracts.

use vstd::prelude::*;
use crate::control::{ControlState, Directive, SINGLE_STEP_DELAY};
use crate::instruction::{Code, Node};
use crate::opcode::OpCode;
use crate::text::message;
use crate::trace::{Event, Kind};

verus! {

/// The number of cells of the tape.
pub const TAPE_LEN: usize = 32;

/// Where a run stands.
#[derive(Debug, Clone, Copy, PartialEq, Eq, Structural)]
pub enum Status {
    /// The next step executes an instruction.
    Running,
    /// A read has asked for a value and waits for it.
    AwaitingInput,
    /// The program ran to its end.
    Completed,
    /// The run ended in a fault.
    Faulted,
}

/// The tape and the data pointer.
pub struct Cells {
    pub tape: Seq<u8>,
    pub pointer: int,
}

/// What follows the application of one instruction.
pub enum Next {
    /// Go on with the instruction behind it.
    Advance,
    /// Wait for an input value.
    Await,
    /// End the run.
    Fault,
}

/// The result of applying one instruction to the cells.
pub struct Applied {
    pub cells: Cells,
    pub event: Event,
    pub next: Next,
}

impl Cells {
    /// The tape has its fixed length and the pointer is on it.
    pub open spec fn wf(self) -> bool {
        self.tape.len() == TAPE_LEN && 0 <= self.pointer < TAPE_LEN
    }

    /// The tape of a fresh run: every cell 0, the pointer on cell 0.
    pub open spec fn initial() -> Cells {
        Cells { tape: Seq::new(TAPE_LEN as nat, |i: int| 0u8), pointer: 0 }
    }

    /// The content of the cell under the pointer.
    pub open spec fn current(self) -> u8 {
        self.tape[self.pointer]
    }

    /// An event of the given kind for the cell under the pointer.
    pub open spec fn report(self, kind: Kind, position: usize) -> Event {
        Event {
            index: self.pointer as usize,
            content: self.current(),
            kind,
            text_index: position,
        }
    }

    /// The fault with the given wording: the cells stay as they are.
    pub open spec fn fault(self, prefix: Seq<char>, position: usize) -> Applied {
        Applied {
            cells: self,
            event: self.report(Kind::Error(message(prefix, position)), position),
            next: Next::Fault,
        }
    }

    /// The cells after a change, reported as a tape event.
    pub open spec fn changed(self, position: usize) -> Applied {
        Applied { cells: self, event: self.report(Kind::Tape, position), next: Next::Advance }
    }

    /// Applies the instruction of a leaf opcode that stands at source offset
    /// `position`.
    ///
    /// Moving the pointer off either end of the tape, incrementing a cell
    /// that holds 255 and decrementing one that holds 0 are faults.
    pub open spec fn apply(self, op: OpCode, position: usize) -> Applied {
        match op {
            OpCode::IncrementPointer => if self.pointer < TAPE_LEN - 1 {
                (Cells { pointer: self.pointer + 1, ..self }).changed(position)
            } else {
                self.fault("Data pointer out of bounds at index "@, position)
            },
            OpCode::DecrementPointer => if self.pointer > 0 {
                (Cells { pointer: self.pointer - 1, ..self }).changed(position)
            } else {
                self.fault("Data pointer out of bounds at index "@, position)
            },
            OpCode::Increment => if self.current() < 255 {
                (Cells {
                    tape: self.tape.update(self.pointer, (self.current() + 1) as u8),
                    ..self
                }).changed(position)
            } else {
                self.fault("Addition overflow at index "@, position)
            },
            OpCode::Decrement => if self.current() > 0 {
                (Cells {
                    tape: self.tape.update(self.pointer, (self.current() - 1) as u8),
                    ..self
                }).changed(position)
            } else {
                self.fault("Subtraction underflow at index "@, position)
            },
            OpCode::Write => Applied {
                cells: self,
                event: self.report(Kind::Output, position),
                next: Next::Advance,
            },
            _ => Applied {
                cells: self,
                event: self.report(Kind::Input, position),
                next: Next::Await,
            },
        }
    }

    /// Stores the value that answers the read at source offset `position`.
    /// A value that is no byte is a fault.
    pub open spec fn store(self, value: i16, position: usize) -> Applied {
        if 0 <= value <= 255 {
            (Cells { tape: self.tape.update(self.pointer, value as u8), ..self }).changed(position)
        } else {
            self.fault("invalid input at index "@, position)
        }
    }
}

/// The instructions that the loop at `path` holds: `path` leads from the
/// program's top level down through loops, one index for each.  The empty
/// path stands for the program itself.
pub open spec fn body_at(program: Seq<Node>, path: Seq<int>) -> Seq<Node>
    decreases path.len(),
{
    if path.len() == 0 {
        program
    } else {
        let outer = body_at(program, path.drop_last());
        let i = path.last();
        if 0 <= i < outer.len() {
            match outer[i].code {
                Code::Loop(inner) => inner,
                _ => Seq::empty(),
            }
        } else {
            Seq::empty()
        }
    }
}

/// Every index of `path` names a loop in the body that the indices before it
/// lead to.
pub open spec fn valid_path(program: Seq<Node>, path: Seq<int>) -> bool
    decreases path.len(),
{
    path.len() == 0 || {
        let outer = body_at(program, path.drop_last());
        let i = path.last();
        &&& valid_path(program, path.drop_last())
        &&& 0 <= i < outer.len()
        &&& outer[i].code is Loop
    }
}

/// The cursor one instruction further in the same body.
pub open spec fn next_of(cursor: Seq<int>) -> Seq<int> {
    cursor.drop_last().push(cursor.last() + 1)
}

/// The state of a tree walk.
///
/// `cursor` is the path to the loop that is being run, followed by the index
/// of the next instruction in that loop's body.  An index equal to the body's
/// length means that the body has been run through: in a loop the condition
/// is due, at the top level the program has ended.
pub struct Machine {
    pub program: Seq<Node>,
    pub cells: Cells,
    pub cursor: Seq<int>,
    pub status: Status,
}

impl Machine {
    /// The path to the loop that is being run.
    pub open spec fn path(self) -> Seq<int> {
        self.cursor.drop_last()
    }

    /// The body that is being run.
    pub open spec fn body(self) -> Seq<Node> {
        body_at(self.program, self.path())
    }

    /// The body that is being run has been run through.
    pub open spec fn at_body_end(self) -> bool {
        self.cursor.last() >= self.body().len()
    }

    /// The cursor stands behind the last instruction of the program.
    pub open spec fn at_program_end(self) -> bool {
        self.cursor.len() == 1 && self.cursor[0] >= self.program.len()
    }

    /// The instruction under the cursor.
    pub open spec fn current(self) -> Node {
        self.body()[self.cursor.last()]
    }

    /// The loop whose body is being run.
    pub open spec fn enclosing(self) -> Node {
        body_at(self.program, self.path().drop_last())[self.path().last()]
    }

    /// The source offset of what the next step deals with: the instruction
    /// under the cursor, or the closing bracket of the loop whose body has
    /// been run through.
    pub open spec fn position(self) -> usize {
        if !self.at_body_end() {
            self.current().index
        } else if self.path().len() > 0 {
            self.enclosing().index
        } else {
            0
        }
    }

    /// The state is consistent.
    pub open spec fn wf(self) -> bool {
        &&& self.cells.wf()
        &&& self.cursor.len() >= 1
        &&& valid_path(self.program, self.path())
        &&& 0 <= self.cursor.last() <= self.body().len()
        &&& self.status is Completed ==> self.at_program_end()
        &&& self.status is Running ==> !self.at_program_end()
        &&& self.status is AwaitingInput ==> !self.at_body_end() && self.current().code is Read
    }

    /// The machine before the first step of `program`.
    pub open spec fn start(program: Seq<Node>) -> Machine {
        (Machine {
            program,
            cells: Cells::initial(),
            cursor: seq![0int],
            status: Status::Running,
        }).jump(seq![0int])
    }

    /// The machine with its cursor moved, and completed if that is the end
    /// of the program.
    pub open spec fn jump(self, cursor: Seq<int>) -> Machine {
        let moved = Machine { cursor, ..self };
        Machine {
            status: if moved.at_program_end() {
                Status::Completed
            } else {
                Status::Running
            },
            ..moved
        }
    }

    /// The machine after an instruction was applied, with the event to
    /// report.
    pub open spec fn settle(self, applied: Applied) -> (Machine, Option<Event>) {
        let machine = Machine { cells: applied.cells, ..self };
        (
            match applied.next {
                Next::Advance => machine.jump(next_of(self.cursor)),
                Next::Await => Machine { status: Status::AwaitingInput, ..machine },
                Next::Fault => Machine { status: Status::Faulted, ..machine },
            },
            Some(applied.event),
        )
    }

    /// One step of a running machine, with the event that it reports.
    ///
    /// At the end of a loop's body, and at a loop, the step tests the cell
    /// under the pointer and moves the cursor: into the body if the cell is
    /// not 0, behind the loop if it is.  Neither reports an event.  An error
    /// instruction ends the run with its message.  Any other instruction is
    /// applied to the cells.  A machine that is not running stays as it is.
    pub open spec fn step(self) -> (Machine, Option<Event>) {
        if self.status != Status::Running {
            (self, None)
        } else if self.at_body_end() {
            if self.cells.current() != 0 {
                (self.jump(self.path().push(0)), None)
            } else {
                (self.jump(next_of(self.path())), None)
            }
        } else {
            let node = self.current();
            match node.code {
                Code::Loop(_) => if self.cells.current() != 0 {
                    (self.jump(self.cursor.push(0)), None)
                } else {
                    (self.jump(next_of(self.cursor)), None)
                },
                Code::Error(reason) => (
                    Machine { status: Status::Faulted, ..self },
                    Some(self.cells.report(Kind::Error(reason), node.index)),
                ),
                _ => self.settle(self.cells.apply(node.code.opcode()->0, node.index)),
            }
        }
    }

    /// The answer to a read: the machine that waits for input takes `value`.
    /// A machine that does not wait stays as it is.
    pub open spec fn supply(self, value: i16) -> (Machine, Option<Event>) {
        if self.status != Status::AwaitingInput {
            (self, None)
        } else {
            self.settle(self.cells.store(value, self.current().index))
        }
    }
}

/// A run after some steps: the machine, how many of the input values it has
/// taken, and the events that it has reported, in their order.
pub struct Progress {
    pub machine: Machine,
    pub taken: nat,
    pub trace: Seq<Event>,
}

/// The trace with the report of one more step.
pub open spec fn with_report(trace: Seq<Event>, report: Option<Event>) -> Seq<Event> {
    match report {
        Some(event) => trace.push(event),
        None => trace,
    }
}

impl Progress {
    /// The run can go no further on these inputs: it has ended, or it waits
    /// for a value that is not there.
    pub open spec fn settled(self, inputs: Seq<i16>) -> bool {
        match self.machine.status {
            Status::Running => false,
            Status::AwaitingInput => self.taken >= inputs.len(),
            _ => true,
        }
    }

    /// The run one move further: a running machine takes a step, a waiting
    /// one takes the next input value.  A settled run stays as it is.
    pub open spec fn next(self, inputs: Seq<i16>) -> Progress {
        if self.settled(inputs) {
            self
        } else if self.machine.status is Running {
            let (machine, report) = self.machine.step();
            Progress { machine, taken: self.taken, trace: with_report(self.trace, report) }
        } else {
            let (machine, report) = self.machine.supply(inputs[self.taken as int]);
            Progress { machine, taken: self.taken + 1, trace: with_report(self.trace, report) }
        }
    }
}

impl Machine {
    /// What the running thread is to do next under the given controls.
    ///
    /// Cancellation comes first, then the pause, unless a single step is
    /// asked for.  A step at the end of a loop's body, which only tests the
    /// loop's condition again, is not delayed.
    pub open spec fn directive(self, control: ControlState) -> Directive {
        if control.cancel_requested || self.status is Completed || self.status is Faulted {
            Directive::Halt
        } else if control.held() {
            Directive::Park
        } else if self.status is AwaitingInput {
            Directive::Receive
        } else if self.at_body_end() {
            Directive::Step(0)
        } else {
            Directive::Step(control.pace())
        }
    }

    /// The control state after a move from `self` to `after` that made the
    /// given report.
    ///
    /// A run that has just faulted asks for cancellation.  A single step is
    /// used up by the first move that reports an event or ends the run; the
    /// run is paused again from then on.
    pub open spec fn control_after(
        self,
        control: ControlState,
        after: Machine,
        report: Option<Event>,
    ) -> ControlState {
        let faulted = !(self.status is Faulted) && after.status is Faulted;
        let stepped = control.step_requested && (report is Some || after.status is Completed
            || after.status is Faulted);
        let marked = if faulted {
            ControlState { cancel_requested: true, ..control }
        } else {
            control
        };
        if stepped {
            marked.step_taken()
        } else {
            marked
        }
    }

    /// The run after `moves` moves, with `inputs` as the values that answer
    /// its reads, in their order.
    pub open spec fn run(self, inputs: Seq<i16>, moves: nat) -> Progress
        decreases moves,
    {
        if moves == 0 {
            Progress { machine: self, taken: 0, trace: Seq::empty() }
        } else {
            self.run(inputs, (moves - 1) as nat).next(inputs)
        }
    }
}

/// A run keeps the machine consistent and never takes more input values than
/// there are.
pub proof fn lemma_run_wf(m: Machine, inputs: Seq<i16>, moves: nat)
    requires
        m.wf(),
    ensures
        m.run(inputs, moves).machine.wf(),
        m.run(inputs, moves).machine.program == m.program,
        m.run(inputs, moves).taken <= inputs.len(),
    decreases moves,
{
    if moves > 0 {
        lemma_run_wf(m, inputs, (moves - 1) as nat);
        let before = m.run(inputs, (moves - 1) as nat);
        lemma_step_wf(before.machine);
        if before.taken < inputs.len() {
            lemma_supply_wf(before.machine, inputs[before.taken as int]);
        }
    }
}

/// A settled run stays where it is, however many moves follow.
pub proof fn lemma_run_settled(m: Machine, inputs: Seq<i16>, reached: nat, moves: nat)
    requires
        reached <= moves,
        m.run(inputs, reached).settled(inputs),
    ensures
        m.run(inputs, moves) == m.run(inputs, reached),
    decreases moves,
{
    if reached < moves {
        lemma_run_settled(m, inputs, reached, (moves - 1) as nat);
    }
}

/// What a run has reported stays reported: the trace after more moves
/// begins with the trace after fewer.
pub proof fn lemma_trace_grows(m: Machine, inputs: Seq<i16>, fewer: nat, more: nat)
    requires
        fewer <= more,
    ensures
        m.run(inputs, fewer).trace.is_prefix_of(m.run(inputs, more).trace),
        m.run(inputs, fewer).taken <= m.run(inputs, more).taken,
    decreases more,
{
    if fewer < more {
        lemma_trace_grows(m, inputs, fewer, (more - 1) as nat);
    }
}

/// A single step lets exactly one instruction through.
///
/// Under a request for a single step a running machine is directed to step.
/// Steps that report nothing, the tests of loop conditions, leave the
/// request standing.  The first step that reports an event or ends the run
/// uses the request up: the run is paused again, and the next directive is
/// to park, or to halt if the run has ended.
pub proof fn lemma_single_step(m: Machine, control: ControlState)
    requires
        m.wf(),
        m.status is Running,
        !control.cancel_requested,
        control.step_requested,
    ensures
        m.directive(control) is Step,
        !m.at_body_end() ==> m.directive(control) == Directive::Step(SINGLE_STEP_DELAY),
        ({
            let (after, report) = m.step();
            let then = m.control_after(control, after, report);
            if report is None && after.status is Running {
                then == control
            } else {
                &&& then.paused
                &&& !then.step_requested
                &&& after.directive(then) is Park || after.directive(then) is Halt
            }
        }),
{
}

/// The answer to a read counts as the single step that was asked for.
pub proof fn lemma_single_input(m: Machine, control: ControlState, value: i16)
    requires
        m.wf(),
        m.status is AwaitingInput,
        !control.cancel_requested,
        control.step_requested,
    ensures
        m.directive(control) is Receive,
        ({
            let (after, report) = m.supply(value);
            let then = m.control_after(control, after, report);
            &&& report is Some
            &&& then.paused
            &&& !then.step_requested
            &&& after.directive(then) is Park || after.directive(then) is Halt
        }),
{
}

/// A move reports a fault exactly when it ends the run in one.
pub proof fn lemma_fault_reported(run: Progress, inputs: Seq<i16>)
    requires
        run.machine.wf(),
        !(run.machine.status is Faulted),
    ensures
        ({
            let after = run.next(inputs);
            &&& after.machine.status is Faulted <==> after.trace.len() == run.trace.len() + 1
                && after.trace.last().kind is Error
            &&& after.trace.len() == run.trace.len() || after.trace == run.trace.push(
                after.trace.last(),
            )
        }),
{
}

/// A run reports at most one fault, as its last event, and a run that has
/// faulted has reported it.
pub proof fn lemma_fault_ends_trace(m: Machine, inputs: Seq<i16>, moves: nat)
    requires
        m.wf(),
        !(m.status is Faulted),
    ensures
        ({
            let run = m.run(inputs, moves);
            &&& forall|i: int|
                0 <= i < run.trace.len() && (#[trigger] run.trace[i]).kind is Error ==> i
                    == run.trace.len() - 1 && run.machine.status is Faulted
            &&& run.machine.status is Faulted ==> run.trace.len() > 0
                && run.trace.last().kind is Error
        }),
    decreases moves,
{
    if moves > 0 {
        let before = m.run(inputs, (moves - 1) as nat);
        lemma_fault_ends_trace(m, inputs, (moves - 1) as nat);
        lemma_run_wf(m, inputs, (moves - 1) as nat);
        if !(before.machine.status is Faulted) {
            lemma_fault_reported(before, inputs);
        }
    }
}

/// Moving the cursor as a step does keeps it inside the program.
pub proof fn lemma_jump_wf(m: Machine, cursor: Seq<int>)
    requires
        m.wf(),
        m.status is Running,
        cursor == next_of(m.cursor) && !m.at_body_end() || cursor == m.cursor.push(0)
            && !m.at_body_end() && m.current().code is Loop || cursor == m.path().push(0)
            && m.at_body_end() || cursor == next_of(m.path()) && m.at_body_end(),
    ensures
        m.path().len() == 0 ==> !m.at_body_end(),
        m.jump(cursor).wf(),
{
    let after = m.jump(cursor);
    if m.at_body_end() {
        if cursor == m.path().push(0) {
            assert(after.path() =~= m.path());
        } else {
            assert(after.path() =~= m.path().drop_last());
        }
    } else {
        if cursor == next_of(m.cursor) {
            assert(after.path() =~= m.path());
        } else {
            assert(after.path() =~= m.cursor);
        }
    }
}

/// A step keeps the machine consistent, and what it reports is a cell of
/// the tape.
pub proof fn lemma_step_wf(m: Machine)
    requires
        m.wf(),
    ensures
        m.step().0.wf(),
        m.step().0.program == m.program,
        m.step().1 is Some ==> m.step().1->0.index < TAPE_LEN,
{
    if m.status is Running {
        if m.at_body_end() {
            if m.cells.current() != 0 {
                lemma_jump_wf(m, m.path().push(0));
            } else {
                lemma_jump_wf(m, next_of(m.path()));
            }
        } else {
            match m.current().code {
                Code::Loop(_) => {
                    if m.cells.current() != 0 {
                        lemma_jump_wf(m, m.cursor.push(0));
                    } else {
                        lemma_jump_wf(m, next_of(m.cursor));
                    }
                },
                Code::Error(_) => {},
                _ => {
                    let applied = m.cells.apply(m.current().code.opcode()->0, m.current().index);
                    lemma_settle_wf(m, applied);
                },
            }
        }
    }
}

/// Taking an input value keeps the machine consistent.
pub proof fn lemma_supply_wf(m: Machine, value: i16)
    requires
        m.wf(),
    ensures
        m.supply(value).0.wf(),
        m.supply(value).0.program == m.program,
        m.supply(value).1 is Some ==> m.supply(value).1->0.index < TAPE_LEN,
{
    if m.status is AwaitingInput {
        lemma_settle_wf(m, m.cells.store(value, m.current().index));
    }
}

/// Settling after an instruction keeps the machine consistent.
pub proof fn lemma_settle_wf(m: Machine, applied: Applied)
    requires
        m.wf(),
        !m.at_body_end(),
        m.status is Running || m.status is AwaitingInput,
        applied.cells.wf(),
        applied.next is Await ==> m.current().code is Read,
    ensures
        m.settle(applied).0.wf(),
{
    if applied.next is Advance {
        lemma_jump_wf(Machine { status: Status::Running, ..m }, next_of(m.cursor));
    }
}

} // verus!
