//! From opcodes to the instruction tree.

use vstd::prelude::*;
use crate::instruction::{lemma_loop_view, nodes_of, Code, Instruction, InstructionIndex, Node};
use crate::opcode::OpCode;
use crate::text::{message, message_at};

verus! {

/// The index of the `]` that brings the nesting depth from `depth` to zero,
/// scanning from `from`; the length of `ops` if there is none.
pub open spec fn closing(ops: Seq<(OpCode, usize)>, from: int, depth: nat) -> int
    decreases ops.len() - from,
{
    if from < 0 || from >= ops.len() {
        ops.len() as int
    } else {
        match ops[from].0 {
            OpCode::LoopBegin => closing(ops, from + 1, depth + 1),
            OpCode::LoopEnd => if depth <= 1 {
                from
            } else {
                closing(ops, from + 1, (depth - 1) as nat)
            },
            _ => closing(ops, from + 1, depth),
        }
    }
}

/// The index of the `]` that closes the `[` at index `open`; the length of
/// `ops` if that loop is never closed.
pub open spec fn matching_close(ops: Seq<(OpCode, usize)>, open: int) -> int {
    closing(ops, open + 1, 1)
}

/// The leaf instruction for an opcode that is no bracket.
pub open spec fn leaf_code(op: OpCode) -> Code {
    match op {
        OpCode::IncrementPointer => Code::IncrementPointer,
        OpCode::DecrementPointer => Code::DecrementPointer,
        OpCode::Increment => Code::Increment,
        OpCode::Decrement => Code::Decrement,
        OpCode::Write => Code::Write,
        _ => Code::Read,
    }
}

/// The error that stands for a `]` at offset `position` that closes nothing.
pub open spec fn stray_close(position: usize) -> Node {
    Node { index: position, code: Code::Error(message("Loop without beginning at index "@, position)) }
}

/// The error that stands for a `[` at offset `position` that is never closed.
pub open spec fn unclosed_open(position: usize) -> Node {
    Node { index: position, code: Code::Error(message("Loop without ending at index "@, position)) }
}

/// The instructions that the opcodes from index `from` on stand for.
///
/// A leaf opcode is one instruction with the opcode's own offset.  A `[` with
/// its matching `]` is one loop, whose body is the parse of the opcodes
/// strictly between the two and whose offset is that of the `]`.  A `]` with
/// nothing open is an error instruction, after which parsing goes on.  A `[`
/// that is never closed is an error instruction that ends the program: the
/// opcodes behind it all belong to the loop that does not end.
pub open spec fn parse_from(ops: Seq<(OpCode, usize)>, from: int) -> Seq<Node>
    decreases ops.len(), ops.len() - from,
{
    if from < 0 || from >= ops.len() {
        Seq::empty()
    } else {
        let (op, position) = ops[from];
        match op {
            OpCode::LoopBegin => {
                let close = matching_close(ops, from);
                if from < close < ops.len() {
                    seq![
                        Node {
                            index: ops[close].1,
                            code: Code::Loop(parse_from(ops.subrange(from + 1, close), 0)),
                        },
                    ] + parse_from(ops, close + 1)
                } else {
                    seq![unclosed_open(position)]
                }
            },
            OpCode::LoopEnd => seq![stray_close(position)] + parse_from(ops, from + 1),
            _ => seq![Node { index: position, code: leaf_code(op) }] + parse_from(ops, from + 1),
        }
    }
}

/// The program that a sequence of opcodes stands for.
pub open spec fn parse_spec(ops: Seq<(OpCode, usize)>) -> Seq<Node> {
    parse_from(ops, 0)
}

/// A closing bracket is never found before the place where the scan began.
pub proof fn lemma_closing_bounds(ops: Seq<(OpCode, usize)>, from: int, depth: nat)
    requires
        0 <= from <= ops.len(),
    ensures
        from <= closing(ops, from, depth) <= ops.len(),
        closing(ops, from, depth) < ops.len() ==> ops[closing(ops, from, depth)].0
            == OpCode::LoopEnd,
    decreases ops.len() - from,
{
    if from < ops.len() {
        match ops[from].0 {
            OpCode::LoopBegin => lemma_closing_bounds(ops, from + 1, depth + 1),
            OpCode::LoopEnd => if depth > 1 {
                lemma_closing_bounds(ops, from + 1, (depth - 1) as nat)
            },
            _ => lemma_closing_bounds(ops, from + 1, depth),
        }
    }
}

/// The opcodes of `opcodes` from index `low` up to, not including, `high`.
fn tokens_between(opcodes: &Vec<(OpCode, usize)>, low: usize, high: usize) -> (part: Vec<
    (OpCode, usize),
>)
    requires
        low <= high <= opcodes.len(),
    ensures
        part@ == opcodes@.subrange(low as int, high as int),
{
    let mut part: Vec<(OpCode, usize)> = Vec::new();
    let mut k: usize = low;
    while k < high
        invariant
            low <= k <= high <= opcodes.len(),
            part@ == opcodes@.subrange(low as int, k as int),
        decreases high - k,
    {
        part.push(opcodes[k]);
        k += 1;
        assert(part@ =~= opcodes@.subrange(low as int, k as int));
    }
    part
}

/// The instruction for one opcode that is no `[`.
fn single(op: OpCode, position: usize) -> (instruction: InstructionIndex)
    requires
        op != OpCode::LoopBegin,
    ensures
        op == OpCode::LoopEnd ==> instruction@ == stray_close(position),
        op != OpCode::LoopEnd ==> instruction@ == (Node { index: position, code: leaf_code(op) }),
{
    let code = match op {
        OpCode::IncrementPointer => Instruction::IncrementPointer,
        OpCode::DecrementPointer => Instruction::DecrementPointer,
        OpCode::Increment => Instruction::Increment,
        OpCode::Decrement => Instruction::Decrement,
        OpCode::Write => Instruction::Write,
        OpCode::Read => Instruction::Read,
        _ => Instruction::Error(message_at("Loop without beginning at index ", position)),
    };
    InstructionIndex { index: position, code }
}

/// Turns opcodes into the instruction tree.
///
/// Parsing never fails: a bracket without its partner becomes an error
/// instruction at the place where it stands, so that the program runs up to
/// that place.
pub fn parse(opcodes: Vec<(OpCode, usize)>) -> (program: Vec<InstructionIndex>)
    ensures
        nodes_of(program@) == parse_spec(opcodes@),
    decreases opcodes.len(),
{
    let ghost ops = opcodes@;
    let mut program: Vec<InstructionIndex> = Vec::new();
    let mut loop_stack: usize = 0;
    let mut loop_start: usize = 0;
    let mut i: usize = 0;
    assert(nodes_of(program@) + parse_from(ops, 0) =~= parse_from(ops, 0));
    while i < opcodes.len()
        invariant
            ops == opcodes@,
            i <= opcodes.len(),
            loop_stack <= i,
            loop_stack == 0 ==> nodes_of(program@) + parse_from(ops, i as int) == parse_from(
                ops,
                0,
            ),
            loop_stack > 0 ==> {
                &&& loop_start < i
                &&& ops[loop_start as int].0 == OpCode::LoopBegin
                &&& nodes_of(program@) + parse_from(ops, loop_start as int) == parse_from(ops, 0)
                &&& closing(ops, i as int, loop_stack as nat) == matching_close(
                    ops,
                    loop_start as int,
                )
            },
        decreases opcodes.len() - i,
    {
        let (op, position) = opcodes[i];
        let ghost before = nodes_of(program@);
        if loop_stack == 0 {
            match op {
                OpCode::LoopBegin => {
                    loop_start = i;
                    loop_stack += 1;
                },
                _ => {
                    let instruction = single(op, position);
                    program.push(instruction);
                    proof {
                        assert(nodes_of(program@) =~= before.push(instruction@));
                        assert(before.push(instruction@) + parse_from(ops, i + 1) =~= before + (
                        seq![instruction@] + parse_from(ops, i + 1)));
                    }
                },
            }
        } else {
            match op {
                OpCode::LoopBegin => {
                    loop_stack += 1;
                },
                OpCode::LoopEnd => {
                    loop_stack -= 1;
                    if loop_stack == 0 {
                        let inner = tokens_between(&opcodes, loop_start + 1, i);
                        let body = parse(inner);
                        let instruction = InstructionIndex {
                            index: position,
                            code: Instruction::Loop(body),
                        };
                        program.push(instruction);
                        proof {
                            lemma_loop_view(instruction);
                            assert(matching_close(ops, loop_start as int) == i);
                            assert(nodes_of(program@) =~= before.push(instruction@));
                            assert(before.push(instruction@) + parse_from(ops, i + 1) =~= before
                                + (seq![instruction@] + parse_from(ops, i + 1)));
                        }
                    }
                },
                _ => (),
            }
        }
        i += 1;
    }
    if loop_stack != 0 {
        let ghost before = nodes_of(program@);
        let position: usize = opcodes[loop_start].1;
        let instruction = InstructionIndex {
            index: position,
            code: Instruction::Error(message_at("Loop without ending at index ", position)),
        };
        program.push(instruction);
        proof {
            assert(matching_close(ops, loop_start as int) == ops.len());
            assert(nodes_of(program@) =~= before.push(instruction@));
            assert(before.push(instruction@) =~= before + seq![instruction@]);
        }
    } else {
        assert(nodes_of(program@) + parse_from(ops, i as int) =~= nodes_of(program@));
    }
    program
}

} // verus!
