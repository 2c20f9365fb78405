//! The limits of the tape and of a cell, as whole programs meet them.

use vstd::prelude::*;
use crate::brackets::balanced_from;
use crate::machine::{Cells, Machine, TAPE_LEN};
use crate::opcode::OpCode;
use crate::parser::parse_spec;
use crate::reference::Reference;
use crate::simulation::lemma_tree_walk_matches_reference;
use crate::text::message;
use crate::trace::{Event, Kind};

verus! {

/// Every opcode of the program is `op`.
pub open spec fn solely(ops: Seq<(OpCode, usize)>, op: OpCode) -> bool {
    forall|i: int| 0 <= i < ops.len() ==> (#[trigger] ops[i]).0 == op
}

/// The fault event with the given wording at the instruction with source
/// offset `position`.
pub open spec fn fault_event(cells: Cells, prefix: Seq<char>, position: usize) -> Event {
    cells.report(Kind::Error(message(prefix, position)), position)
}

/// A program without brackets is well-bracketed.
proof fn lemma_plain_balanced(ops: Seq<(OpCode, usize)>, op: OpCode, from: int)
    requires
        solely(ops, op),
        !op.is_bracket(),
        0 <= from <= ops.len(),
    ensures
        balanced_from(ops, from, 0),
    decreases ops.len() - from,
{
    if from < ops.len() {
        assert(ops[from].0 == op);
        lemma_plain_balanced(ops, op, from + 1);
    }
}

/// The reference model of a program of forward moves, while it has not yet
/// reached the last cell: one move, one cell.
proof fn lemma_forward_moves(ops: Seq<(OpCode, usize)>, inputs: Seq<i16>, moves: nat)
    requires
        solely(ops, OpCode::IncrementPointer),
        moves < TAPE_LEN <= ops.len(),
    ensures
        ({
            let run = Reference::start(ops).run(inputs, moves);
            &&& run.machine.ops == ops
            &&& run.machine.pc == moves
            &&& run.machine.cells == (Cells { pointer: moves as int, ..Cells::initial() })
            &&& run.machine.status is Running
            &&& run.trace.len() == moves
        }),
    decreases moves,
{
    if moves > 0 {
        lemma_forward_moves(ops, inputs, (moves - 1) as nat);
        assert(ops[moves - 1].0 == OpCode::IncrementPointer);
    }
}

/// The reference model of a program of increments, while the first cell is
/// not yet full: one move, one more.
proof fn lemma_increments(ops: Seq<(OpCode, usize)>, inputs: Seq<i16>, moves: nat)
    requires
        solely(ops, OpCode::Increment),
        moves <= 255 < ops.len(),
    ensures
        ({
            let run = Reference::start(ops).run(inputs, moves);
            &&& run.machine.ops == ops
            &&& run.machine.pc == moves
            &&& run.machine.cells.wf()
            &&& run.machine.cells.pointer == 0
            &&& run.machine.cells.current() == moves
            &&& run.machine.status is Running
            &&& run.trace.len() == moves
        }),
    decreases moves,
{
    if moves > 0 {
        lemma_increments(ops, inputs, (moves - 1) as nat);
        assert(ops[moves - 1].0 == OpCode::Increment);
    }
}

/// A program that consists solely of `>`, 32 of them or more, faults at the
/// 32nd: the first 31 moves bring the pointer to the last cell, and the
/// 32nd reports that the data pointer is out of bounds, at the source
/// offset of the 32nd `>`.
pub proof fn lemma_forward_off_the_tape(ops: Seq<(OpCode, usize)>, inputs: Seq<i16>)
    requires
        solely(ops, OpCode::IncrementPointer),
        ops.len() >= TAPE_LEN,
    ensures
        ({
            let run = Machine::start(parse_spec(ops)).run(inputs, TAPE_LEN as nat);
            let last = Cells { pointer: TAPE_LEN - 1, ..Cells::initial() };
            &&& run.machine.status is Faulted
            &&& run.machine.cells == last
            &&& run.trace.len() == TAPE_LEN
            &&& run.trace[TAPE_LEN - 1] == fault_event(
                last,
                "Data pointer out of bounds at index "@,
                ops[TAPE_LEN - 1].1,
            )
        }),
{
    lemma_plain_balanced(ops, OpCode::IncrementPointer, 0);
    lemma_tree_walk_matches_reference(ops, inputs, TAPE_LEN as nat);
    lemma_forward_moves(ops, inputs, (TAPE_LEN - 1) as nat);
    assert(ops[TAPE_LEN - 1].0 == OpCode::IncrementPointer);
}

/// A program that consists solely of `<` faults with its first move: the
/// data pointer is out of bounds at the source offset of the first `<`.
pub proof fn lemma_back_off_the_tape(ops: Seq<(OpCode, usize)>, inputs: Seq<i16>)
    requires
        solely(ops, OpCode::DecrementPointer),
        ops.len() >= 1,
    ensures
        ({
            let run = Machine::start(parse_spec(ops)).run(inputs, 1);
            &&& run.machine.status is Faulted
            &&& run.machine.cells == Cells::initial()
            &&& run.trace == seq![
                fault_event(Cells::initial(), "Data pointer out of bounds at index "@, ops[0].1),
            ]
        }),
{
    lemma_plain_balanced(ops, OpCode::DecrementPointer, 0);
    lemma_tree_walk_matches_reference(ops, inputs, 1);
    assert(ops[0].0 == OpCode::DecrementPointer);
    let run = Reference::start(ops).run(inputs, 1);
    assert(Reference::start(ops).run(inputs, 0).trace =~= Seq::<Event>::empty());
    assert(run.trace =~= seq![
        fault_event(Cells::initial(), "Data pointer out of bounds at index "@, ops[0].1),
    ]);
}

/// A program that consists solely of `+`, 256 of them or more, faults at the
/// 256th: the first 255 moves fill the first cell, and the 256th reports an
/// addition overflow at the source offset of the 256th `+`.
pub proof fn lemma_cell_overflows(ops: Seq<(OpCode, usize)>, inputs: Seq<i16>)
    requires
        solely(ops, OpCode::Increment),
        ops.len() >= 256,
    ensures
        ({
            let run = Machine::start(parse_spec(ops)).run(inputs, 256);
            &&& run.machine.status is Faulted
            &&& run.machine.cells.pointer == 0
            &&& run.machine.cells.current() == 255
            &&& run.trace.len() == 256
            &&& run.trace[255] == fault_event(
                run.machine.cells,
                "Addition overflow at index "@,
                ops[255].1,
            )
        }),
{
    lemma_plain_balanced(ops, OpCode::Increment, 0);
    lemma_tree_walk_matches_reference(ops, inputs, 256);
    lemma_increments(ops, inputs, 255);
    assert(ops[255].0 == OpCode::Increment);
}

/// A program that consists solely of `-` faults with its first move: a cell
/// that holds 0 cannot be decremented, and the subtraction underflow is
/// reported at the source offset of the first `-`.
pub proof fn lemma_cell_underflows(ops: Seq<(OpCode, usize)>, inputs: Seq<i16>)
    requires
        solely(ops, OpCode::Decrement),
        ops.len() >= 1,
    ensures
        ({
            let run = Machine::start(parse_spec(ops)).run(inputs, 1);
            &&& run.machine.status is Faulted
            &&& run.machine.cells == Cells::initial()
            &&& run.trace == seq![
                fault_event(Cells::initial(), "Subtraction underflow at index "@, ops[0].1),
            ]
        }),
{
    lemma_plain_balanced(ops, OpCode::Decrement, 0);
    lemma_tree_walk_matches_reference(ops, inputs, 1);
    assert(ops[0].0 == OpCode::Decrement);
    let run = Reference::start(ops).run(inputs, 1);
    assert(Reference::start(ops).run(inputs, 0).trace =~= Seq::<Event>::empty());
    assert(run.trace =~= seq![
        fault_event(Cells::initial(), "Subtraction underflow at index "@, ops[0].1),
    ]);
}

} // verus!
