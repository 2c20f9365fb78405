//! The executable tree walker.

use vstd::prelude::*;
use crate::control::{ControlState, Directive, SINGLE_STEP_DELAY};
use crate::instruction::{lemma_loop_view, nodes_of, Code, Instruction, InstructionIndex, Node};
use crate::machine::{
    body_at, lemma_jump_wf, lemma_run_settled, lemma_step_wf, lemma_supply_wf, next_of,
    valid_path, Applied, Cells, Machine, Next, Progress, Status, TAPE_LEN,
};
use crate::opcode::OpCode;
use crate::text::message_at;
use crate::trace::{event_of, events_of, Action, CellChange, Kind};

verus! {

/// A cursor as mathematical integers.
pub open spec fn indices(cursor: Seq<usize>) -> Seq<int> {
    Seq::new(cursor.len(), |i: int| cursor[i] as int)
}

/// A program in the middle of its run: the instruction tree, the tape, the
/// data pointer and the place that the walk has reached.
pub struct Interpreter {
    program: Vec<InstructionIndex>,
    tape: Vec<u8>,
    data_pointer: usize,
    cursor: Vec<usize>,
    status: Status,
}

/// What stands under the cursor.
enum Fetched {
    /// A leaf instruction, with its source offset.
    Leaf(OpCode, usize),
    /// A loop.
    Loop,
    /// An error instruction, with its message and source offset.
    Malformed(String, usize),
    /// The end of the body that is being run.
    BodyEnd,
}

impl View for Interpreter {
    type V = Machine;

    closed spec fn view(&self) -> Machine {
        Machine {
            program: nodes_of(self.program@),
            cells: Cells { tape: self.tape@, pointer: self.data_pointer as int },
            cursor: indices(self.cursor@),
            status: self.status,
        }
    }
}

/// Looks up what stands under the cursor, and the source offset that the
/// next step deals with.
fn fetch(program: &Vec<InstructionIndex>, cursor: &Vec<usize>) -> (found: (Fetched, usize))
    requires
        cursor@.len() >= 1,
        valid_path(nodes_of(program@), indices(cursor@).drop_last()),
        cursor@.last() <= body_at(nodes_of(program@), indices(cursor@).drop_last()).len(),
    ensures
        ({
            let body = body_at(nodes_of(program@), indices(cursor@).drop_last());
            let i = cursor@.last() as int;
            let m = Machine {
                program: nodes_of(program@),
                cells: Cells::initial(),
                cursor: indices(cursor@),
                status: Status::Running,
            };
            &&& body.len() <= usize::MAX
            &&& cursor@.len() >= 2 ==> cursor@[cursor@.len() - 2] < usize::MAX
            &&& found.1 == m.position()
            &&& match found.0 {
                Fetched::BodyEnd => i == body.len(),
                Fetched::Loop => i < body.len() && body[i].code is Loop,
                Fetched::Malformed(reason, position) => i < body.len() && body[i].code
                    == Code::Error(reason@) && body[i].index == position,
                Fetched::Leaf(op, position) => i < body.len() && body[i].code.opcode() == Some(op)
                    && !op.is_bracket() && body[i].index == position,
            }
        }),
{
    let ghost tree = nodes_of(program@);
    let ghost path = indices(cursor@);
    let mut body: &Vec<InstructionIndex> = program;
    let mut closing: usize = 0;
    let mut level: usize = 0;
    while level + 1 < cursor.len()
        invariant
            tree == nodes_of(program@),
            path == indices(cursor@),
            cursor@.len() >= 1,
            level + 1 <= cursor.len(),
            valid_path(tree, path.drop_last()),
            nodes_of(body@) == body_at(tree, path.take(level as int)),
            level == 0 ==> closing == 0,
            level > 0 ==> cursor@[level - 1] < usize::MAX,
            level > 0 ==> closing == body_at(tree, path.take(level - 1))[path[level
                - 1]].index,
        decreases cursor.len() - level,
    {
        proof {
            lemma_valid_prefix(tree, path.drop_last(), level + 1);
            assert(path.drop_last().take(level + 1) =~= path.take(level + 1));
            assert(path.take(level + 1).drop_last() =~= path.take(level as int));
            assert(cursor@[level as int] < body.len());
        }
        let node = &body[cursor[level]];
        match &node.code {
            Instruction::Loop(inner) => {
                proof {
                    lemma_loop_view(*node);
                }
                closing = node.index;
                body = inner;
            },
            _ => {
                // A valid path leads through loops only.
                proof {
                    assert(false);
                }
            },
        }
        level += 1;
    }
    proof {
        if level > 0 {
            assert(path.take(level - 1) =~= path.drop_last().drop_last());
        }
    }
    let i: usize = cursor[level];
    if i >= body.len() {
        (Fetched::BodyEnd, closing)
    } else {
        let node = &body[i];
        let position: usize = node.index;
        proof {
            if node.code is Loop {
                lemma_loop_view(*node);
            }
        }
        let found = match &node.code {
            Instruction::IncrementPointer => Fetched::Leaf(OpCode::IncrementPointer, position),
            Instruction::DecrementPointer => Fetched::Leaf(OpCode::DecrementPointer, position),
            Instruction::Increment => Fetched::Leaf(OpCode::Increment, position),
            Instruction::Decrement => Fetched::Leaf(OpCode::Decrement, position),
            Instruction::Write => Fetched::Leaf(OpCode::Write, position),
            Instruction::Read => Fetched::Leaf(OpCode::Read, position),
            Instruction::Loop(_) => Fetched::Loop,
            Instruction::Error(reason) => Fetched::Malformed(reason.clone(), position),
        };
        (found, position)
    }
}

impl Interpreter {
    /// The interpreter's state is consistent: the tape has its length, the
    /// pointer is on it and the cursor is inside the program.
    pub open spec fn wf(&self) -> bool {
        self@.wf()
    }

    /// An interpreter at the start of `program`: all cells 0, the pointer on
    /// cell 0, the cursor before the first instruction.
    pub fn new(program: Vec<InstructionIndex>) -> (interpreter: Interpreter)
        ensures
            interpreter.wf(),
            interpreter@ == Machine::start(nodes_of(program@)),
    {
        let mut tape: Vec<u8> = Vec::new();
        while tape.len() < TAPE_LEN
            invariant
                tape.len() <= TAPE_LEN,
                forall|i: int| 0 <= i < tape@.len() ==> tape@[i] == 0,
            decreases TAPE_LEN - tape.len(),
        {
            tape.push(0);
        }
        let mut cursor: Vec<usize> = Vec::new();
        cursor.push(0);
        let status = if program.len() == 0 {
            Status::Completed
        } else {
            Status::Running
        };
        let interpreter = Interpreter { program, tape, data_pointer: 0, cursor, status };
        proof {
            assert(interpreter@.cells.tape =~= Cells::initial().tape);
            assert(interpreter@.cursor =~= seq![0int]);
        }
        interpreter
    }

    /// Where the run stands.
    pub fn status(&self) -> (status: Status)
        ensures
            status == self@.status,
    {
        self.status
    }

    /// The tape.
    pub fn tape(&self) -> (tape: &Vec<u8>)
        ensures
            tape@ == self@.cells.tape,
    {
        &self.tape
    }

    /// The data pointer.
    pub fn data_pointer(&self) -> (pointer: usize)
        ensures
            pointer == self@.cells.pointer,
    {
        self.data_pointer
    }

    /// The event for the cell under the pointer.
    fn report(&self, action: Action, position: usize) -> (change: CellChange)
        requires
            self.wf(),
        ensures
            change@ == self@.cells.report(action@, position),
            change.index < TAPE_LEN,
    {
        CellChange {
            index: self.data_pointer,
            content: self.tape[self.data_pointer],
            action,
            text_index: position,
        }
    }

    /// The fault event with the given wording.
    fn fault(&self, prefix: &str, position: usize) -> (change: CellChange)
        requires
            self.wf(),
        ensures
            change@ == self@.cells.fault(prefix@, position).event,
            change.index < TAPE_LEN,
    {
        self.report(Action::Error(message_at(prefix, position)), position)
    }

    /// Applies one leaf instruction to the tape and the pointer.
    fn apply(&mut self, op: OpCode, position: usize) -> (outcome: (CellChange, Next))
        requires
            old(self).wf(),
            !op.is_bracket(),
        ensures
            final(self).program == old(self).program,
            final(self).cursor == old(self).cursor,
            final(self).status == old(self).status,
            final(self)@.cells == old(self)@.cells.apply(op, position).cells,
            outcome.0@ == old(self)@.cells.apply(op, position).event,
            outcome.1 == old(self)@.cells.apply(op, position).next,
            final(self)@.cells.wf(),
            outcome.0.index < TAPE_LEN,
    {
        match op {
            OpCode::IncrementPointer => {
                if self.data_pointer < TAPE_LEN - 1 {
                    self.data_pointer += 1;
                    (self.report(Action::Tape, position), Next::Advance)
                } else {
                    (self.fault("Data pointer out of bounds at index ", position), Next::Fault)
                }
            },
            OpCode::DecrementPointer => {
                if self.data_pointer > 0 {
                    self.data_pointer -= 1;
                    (self.report(Action::Tape, position), Next::Advance)
                } else {
                    (self.fault("Data pointer out of bounds at index ", position), Next::Fault)
                }
            },
            OpCode::Increment => {
                let content: u8 = self.tape[self.data_pointer];
                if content < 255 {
                    self.tape.set(self.data_pointer, content + 1);
                    (self.report(Action::Tape, position), Next::Advance)
                } else {
                    (self.fault("Addition overflow at index ", position), Next::Fault)
                }
            },
            OpCode::Decrement => {
                let content: u8 = self.tape[self.data_pointer];
                if content > 0 {
                    self.tape.set(self.data_pointer, content - 1);
                    (self.report(Action::Tape, position), Next::Advance)
                } else {
                    (self.fault("Subtraction underflow at index ", position), Next::Fault)
                }
            },
            OpCode::Write => (self.report(Action::Output, position), Next::Advance),
            _ => (self.report(Action::Input, position), Next::Await),
        }
    }

    /// Moves the cursor one instruction further.
    fn advance(&mut self)
        requires
            old(self).cursor@.len() >= 1,
            old(self).cursor@.last() < usize::MAX,
        ensures
            final(self).program == old(self).program,
            final(self).tape == old(self).tape,
            final(self).data_pointer == old(self).data_pointer,
            final(self)@ == old(self)@.jump(next_of(old(self)@.cursor)),
    {
        let last: usize = self.cursor.len() - 1;
        let i: usize = self.cursor[last];
        self.cursor.set(last, i + 1);
        self.settle_status();
        proof {
            assert(indices(self.cursor@) =~= next_of(indices(old(self).cursor@)));
        }
    }

    /// Sets the status by the cursor: completed at the end of the program,
    /// else running.
    fn settle_status(&mut self)
        requires
            old(self).cursor@.len() >= 1,
        ensures
            final(self).program == old(self).program,
            final(self).tape == old(self).tape,
            final(self).data_pointer == old(self).data_pointer,
            final(self).cursor == old(self).cursor,
            final(self)@ == old(self)@.jump(old(self)@.cursor),
    {
        if self.cursor.len() == 1 && self.cursor[0] >= self.program.len() {
            self.status = Status::Completed;
        } else {
            self.status = Status::Running;
        }
    }

    /// Settles after an instruction was applied.
    fn settle(&mut self, next: Next)
        requires
            old(self).cursor@.len() >= 1,
            old(self).cursor@.last() < usize::MAX,
        ensures
            final(self)@ == old(self)@.settle(
                Applied { cells: old(self)@.cells, event: arbitrary(), next },
            ).0,
    {
        match next {
            Next::Advance => self.advance(),
            Next::Await => {
                self.status = Status::AwaitingInput;
            },
            Next::Fault => {
                self.status = Status::Faulted;
            },
        }
    }

    /// Takes the value that answers a read, whatever the controls say.
    fn take_input(&mut self, value: i16) -> (report: Option<CellChange>)
        requires
            old(self).wf(),
        ensures
            final(self).wf(),
            final(self)@ == old(self)@.supply(value).0,
            event_of(report) == old(self)@.supply(value).1,
            report is Some ==> report->0.index < TAPE_LEN,
    {
        let ghost before = self@;
        proof {
            lemma_supply_wf(before, value);
        }
        match self.status {
            Status::AwaitingInput => {},
            _ => {
                return None;
            },
        }
        let (_, position) = fetch(&self.program, &self.cursor);
        if 0 <= value && value <= 255 {
            self.tape.set(self.data_pointer, value as u8);
            let change = self.report(Action::Tape, position);
            self.settle(Next::Advance);
            Some(change)
        } else {
            let change = self.fault("invalid input at index ", position);
            self.status = Status::Faulted;
            Some(change)
        }
    }

    /// What the thread that runs the program is to do next.
    ///
    /// `Halt` once the run has ended or cancellation is requested; else
    /// `Park` while the run is paused and no single step is asked for; else
    /// `Receive` while a read waits for its value; else `Step` with the
    /// delay to sleep before the step.
    pub fn directive(&self, control: &ControlState) -> (directive: Directive)
        requires
            self.wf(),
        ensures
            directive == self@.directive(*control),
    {
        if control.cancel_requested {
            return Directive::Halt;
        }
        match self.status {
            Status::Completed => Directive::Halt,
            Status::Faulted => Directive::Halt,
            Status::AwaitingInput => if control.paused && !control.step_requested {
                Directive::Park
            } else {
                Directive::Receive
            },
            Status::Running => if control.paused && !control.step_requested {
                Directive::Park
            } else {
                let (found, _) = fetch(&self.program, &self.cursor);
                match found {
                    Fetched::BodyEnd => Directive::Step(0),
                    _ => if control.step_requested {
                        Directive::Step(SINGLE_STEP_DELAY)
                    } else {
                        Directive::Step(control.step_delay)
                    },
                }
            },
        }
    }

    /// The event that tells a front end where a paused run is held: the cell
    /// under the pointer, and the source offset of what the next step deals
    /// with.
    pub fn paused_event(&self) -> (change: CellChange)
        requires
            self.wf(),
        ensures
            change@ == self@.cells.report(Kind::Paused, self@.position()),
            change.index < TAPE_LEN,
    {
        let (_, position) = fetch(&self.program, &self.cursor);
        self.report(Action::Paused, position)
    }

    /// The run has ended in a fault.
    fn faulted(&self) -> (faulted: bool)
        ensures
            faulted == (self@.status is Faulted),
    {
        match self.status {
            Status::Faulted => true,
            _ => false,
        }
    }

    /// Brings the control state up to date after a move.
    fn settle_control(&self, control: &mut ControlState, was_faulted: bool, reported: bool)
        ensures
            *final(control) == ({
                let stepped = old(control).step_requested && (reported || self@.status is Completed
                    || self@.status is Faulted);
                let marked = if !was_faulted && self@.status is Faulted {
                    ControlState { cancel_requested: true, ..*old(control) }
                } else {
                    *old(control)
                };
                if stepped {
                    marked.step_taken()
                } else {
                    marked
                }
            }),
    {
        let ended = match self.status {
            Status::Completed => true,
            Status::Faulted => true,
            _ => false,
        };
        if !was_faulted && self.faulted() {
            control.request_cancel();
        }
        if control.step_requested && (reported || ended) {
            control.take_step();
        }
    }

    /// Lets the interpreter take one step, unless cancellation is requested.
    ///
    /// Returns the event that the step reports, if it reports one.  A step
    /// that ends the run in a fault requests cancellation.  A step that
    /// reports an event or ends the run uses up a request for a single step
    /// and pauses the run again.
    pub fn step(&mut self, control: &mut ControlState) -> (report: Option<CellChange>)
        requires
            old(self).wf(),
        ensures
            final(self).wf(),
            old(control).cancel_requested ==> final(self)@ == old(self)@ && report is None
                && *final(control) == *old(control),
            !old(control).cancel_requested ==> {
                &&& final(self)@ == old(self)@.step().0
                &&& event_of(report) == old(self)@.step().1
                &&& *final(control) == old(self)@.control_after(
                    *old(control),
                    final(self)@,
                    event_of(report),
                )
            },
            report is Some ==> report->0.index < TAPE_LEN,
    {
        if control.cancel_requested {
            return None;
        }
        let was_faulted = self.faulted();
        let report = self.advance_one();
        self.settle_control(control, was_faulted, report.is_some());
        report
    }

    /// Hands the interpreter the value that answers the read it waits on,
    /// unless cancellation is requested.
    ///
    /// A byte, 0 to 255, is stored in the cell under the pointer, and the
    /// changed cell is reported.  Any other value ends the run in a fault,
    /// which requests cancellation.  An interpreter that does not wait for
    /// input stays as it is and reports nothing.
    pub fn supply_input(&mut self, value: i16, control: &mut ControlState) -> (report: Option<
        CellChange,
    >)
        requires
            old(self).wf(),
        ensures
            final(self).wf(),
            old(control).cancel_requested ==> final(self)@ == old(self)@ && report is None
                && *final(control) == *old(control),
            !old(control).cancel_requested ==> {
                &&& final(self)@ == old(self)@.supply(value).0
                &&& event_of(report) == old(self)@.supply(value).1
                &&& *final(control) == old(self)@.control_after(
                    *old(control),
                    final(self)@,
                    event_of(report),
                )
            },
            report is Some ==> report->0.index < TAPE_LEN,
    {
        if control.cancel_requested {
            return None;
        }
        let was_faulted = self.faulted();
        let report = self.take_input(value);
        self.settle_control(control, was_faulted, report.is_some());
        report
    }

    /// Runs the program for at most `limit` moves, answering its reads with
    /// `inputs` in their order, and returns the events in the order in which
    /// they were reported.
    ///
    /// A move is a step, or the handing over of one input value.  The run
    /// ends early when the program has completed or faulted, or when a read
    /// waits and no value is left.
    pub fn run(&mut self, inputs: &Vec<i16>, limit: usize) -> (trace: Vec<CellChange>)
        requires
            old(self).wf(),
        ensures
            final(self).wf(),
            final(self)@ == old(self)@.run(inputs@, limit as nat).machine,
            events_of(trace@) == old(self)@.run(inputs@, limit as nat).trace,
            forall|i: int| 0 <= i < trace@.len() ==> (#[trigger] trace@[i]).index < TAPE_LEN,
    {
        let ghost start = self@;
        let mut trace: Vec<CellChange> = Vec::new();
        let mut taken: usize = 0;
        let mut moves: usize = 0;
        proof {
            assert(events_of(trace@) =~= start.run(inputs@, 0).trace);
        }
        while moves < limit
            invariant
                moves <= limit,
                self.wf(),
                taken <= inputs.len(),
                start.run(inputs@, moves as nat) == (Progress {
                    machine: self@,
                    taken: taken as nat,
                    trace: events_of(trace@),
                }),
                forall|i: int| 0 <= i < trace@.len() ==> (#[trigger] trace@[i]).index < TAPE_LEN,
            ensures
                self.wf(),
                start.run(inputs@, limit as nat) == (Progress {
                    machine: self@,
                    taken: taken as nat,
                    trace: events_of(trace@),
                }),
                forall|i: int| 0 <= i < trace@.len() ==> (#[trigger] trace@[i]).index < TAPE_LEN,
            decreases limit - moves,
        {
            let ghost events = events_of(trace@);
            let report = match self.status {
                Status::Running => self.advance_one(),
                Status::AwaitingInput => {
                    if taken < inputs.len() {
                        let value: i16 = inputs[taken];
                        taken += 1;
                        self.take_input(value)
                    } else {
                        proof {
                            lemma_run_settled(start, inputs@, moves as nat, limit as nat);
                        }
                        break ;
                    }
                },
                _ => {
                    proof {
                        lemma_run_settled(start, inputs@, moves as nat, limit as nat);
                    }
                    break ;
                },
            };
            match report {
                Some(change) => {
                    trace.push(change);
                    proof {
                        assert(events_of(trace@) =~= events.push(change@));
                    }
                },
                None => {},
            }
            moves += 1;
        }
        trace
    }

    /// One step of the machine, whatever the controls say.
    fn advance_one(&mut self) -> (report: Option<CellChange>)
        requires
            old(self).wf(),
        ensures
            final(self).wf(),
            final(self)@ == old(self)@.step().0,
            event_of(report) == old(self)@.step().1,
            report is Some ==> report->0.index < TAPE_LEN,
    {
        let ghost before = self@;
        proof {
            lemma_step_wf(before);
        }
        match self.status {
            Status::Running => {},
            _ => {
                return None;
            },
        }
        let (found, _) = fetch(&self.program, &self.cursor);
        match found {
            Fetched::BodyEnd => {
                proof {
                    lemma_jump_wf(before, before.path().push(0));
                }
                if self.tape[self.data_pointer] != 0 {
                    let last: usize = self.cursor.len() - 1;
                    self.cursor.set(last, 0);
                    proof {
                        assert(indices(self.cursor@) =~= before.path().push(0));
                    }
                    self.settle_status();
                } else {
                    self.cursor.pop();
                    proof {
                        assert(indices(self.cursor@) =~= before.path());
                    }
                    self.advance();
                }
                None
            },
            Fetched::Loop => {
                if self.tape[self.data_pointer] != 0 {
                    self.cursor.push(0);
                    proof {
                        assert(indices(self.cursor@) =~= before.cursor.push(0));
                    }
                    self.settle_status();
                } else {
                    self.advance();
                }
                None
            },
            Fetched::Malformed(reason, position) => {
                let change = self.report(Action::Error(reason), position);
                self.status = Status::Faulted;
                Some(change)
            },
            Fetched::Leaf(op, position) => {
                let (change, next) = self.apply(op, position);
                self.settle(next);
                Some(change)
            },
        }
    }
}

/// A prefix of a valid path is a valid path.
pub proof fn lemma_valid_prefix(program: Seq<Node>, path: Seq<int>, n: int)
    requires
        valid_path(program, path),
        0 <= n <= path.len(),
    ensures
        valid_path(program, path.take(n)),
    decreases path.len(),
{
    if n < path.len() {
        lemma_valid_prefix(program, path.drop_last(), n);
        assert(path.drop_last().take(n) =~= path.take(n));
    } else {
        assert(path.take(n) =~= path);
    }
}

} // verus!
