//! The instruction tree that the parser builds and the interpreter walks.

use vstd::prelude::*;
use crate::opcode::OpCode;

verus! {

/// What one node of the program tree does.
#[derive(Debug, PartialEq, Eq)]
pub enum Instruction {
    IncrementPointer,
    DecrementPointer,
    Increment,
    Decrement,
    Write,
    Read,
    /// A loop with its body.
    Loop(Vec<InstructionIndex>),
    /// A structural error found while parsing, with its message.
    Error(String),
}

/// An instruction together with an offset into the source text: that of its
/// own character, for a loop that of its closing bracket, and for an error
/// that of the bracket at fault.
#[derive(Debug, PartialEq, Eq)]
pub struct InstructionIndex {
    pub index: usize,
    pub code: Instruction,
}

/// The mathematical value of an [`Instruction`].
pub enum Code {
    IncrementPointer,
    DecrementPointer,
    Increment,
    Decrement,
    Write,
    Read,
    Loop(Seq<Node>),
    Error(Seq<char>),
}

/// The mathematical value of an [`InstructionIndex`].
pub struct Node {
    pub index: usize,
    pub code: Code,
}

/// The value of what an instruction does.
pub open spec fn code_of(code: Instruction) -> Code
    decreases code,
{
    match code {
        Instruction::IncrementPointer => Code::IncrementPointer,
        Instruction::DecrementPointer => Code::DecrementPointer,
        Instruction::Increment => Code::Increment,
        Instruction::Decrement => Code::Decrement,
        Instruction::Write => Code::Write,
        Instruction::Read => Code::Read,
        Instruction::Loop(body) => Code::Loop(
            Seq::new(
                body@.len(),
                |i: int|
                    if 0 <= i < body@.len() {
                        node_of(body@[i])
                    } else {
                        arbitrary()
                    },
            ),
        ),
        Instruction::Error(message) => Code::Error(message@),
    }
}

/// The value of one instruction of the tree.
pub open spec fn node_of(instruction: InstructionIndex) -> Node
    decreases instruction,
{
    Node { index: instruction.index, code: code_of(instruction.code) }
}

/// The values of a sequence of instructions.
pub open spec fn nodes_of(instructions: Seq<InstructionIndex>) -> Seq<Node> {
    Seq::new(instructions.len(), |i: int| node_of(instructions[i]))
}

impl View for Instruction {
    type V = Code;

    open spec fn view(&self) -> Code {
        code_of(*self)
    }
}

impl View for InstructionIndex {
    type V = Node;

    open spec fn view(&self) -> Node {
        node_of(*self)
    }
}

impl Code {
    /// The opcode that a leaf instruction came from; `None` for a loop or an
    /// error.
    pub open spec fn opcode(self) -> Option<OpCode> {
        match self {
            Code::IncrementPointer => Some(OpCode::IncrementPointer),
            Code::DecrementPointer => Some(OpCode::DecrementPointer),
            Code::Increment => Some(OpCode::Increment),
            Code::Decrement => Some(OpCode::Decrement),
            Code::Write => Some(OpCode::Write),
            Code::Read => Some(OpCode::Read),
            Code::Loop(_) => None,
            Code::Error(_) => None,
        }
    }
}

/// The value of a loop is the loop of the values of its body.
pub proof fn lemma_loop_view(instruction: InstructionIndex)
    requires
        instruction.code is Loop,
    ensures
        instruction@.index == instruction.index,
        instruction.code@ == Code::Loop(nodes_of(instruction.code->Loop_0@)),
        instruction@.code == Code::Loop(nodes_of(instruction.code->Loop_0@)),
{
    let body = instruction.code->Loop_0;
    assert(code_of(instruction.code)->Loop_0 =~= nodes_of(body@));
}

/// A copy of what an instruction does, with the same value.
pub fn copy_code(code: &Instruction) -> (copy: Instruction)
    ensures
        copy@ == code@,
    decreases *code,
{
    match code {
        Instruction::IncrementPointer => Instruction::IncrementPointer,
        Instruction::DecrementPointer => Instruction::DecrementPointer,
        Instruction::Increment => Instruction::Increment,
        Instruction::Decrement => Instruction::Decrement,
        Instruction::Write => Instruction::Write,
        Instruction::Read => Instruction::Read,
        Instruction::Loop(body) => {
            let mut copies: Vec<InstructionIndex> = Vec::new();
            let mut i: usize = 0;
            while i < body.len()
                invariant
                    i <= body.len(),
                    code is Loop,
                    code->Loop_0 == *body,
                    copies@.len() == i,
                    forall|k: int| 0 <= k < i ==> (#[trigger] copies@[k])@ == body@[k]@,
                decreases body.len() - i,
            {
                proof {
                    vstd::std_specs::vec::axiom_vec_index_decreases(*body, i as int);
                }
                copies.push(copy_instruction(&body[i]));
                i += 1;
            }
            let copy = Instruction::Loop(copies);
            proof {
                assert(nodes_of(copies@) =~= nodes_of(body@));
                lemma_loop_view(InstructionIndex { index: 0, code: *code });
                lemma_loop_view(InstructionIndex { index: 0, code: copy });
            }
            copy
        },
        Instruction::Error(message) => Instruction::Error(message.clone()),
    }
}

/// A copy of one instruction, with the same value.
pub fn copy_instruction(instruction: &InstructionIndex) -> (copy: InstructionIndex)
    ensures
        copy@ == instruction@,
    decreases *instruction,
{
    InstructionIndex { index: instruction.index, code: copy_code(&instruction.code) }
}

impl Clone for Instruction {
    fn clone(&self) -> (copy: Self)
        ensures
            copy@ == self@,
    {
        copy_code(self)
    }
}

impl Clone for InstructionIndex {
    fn clone(&self) -> (copy: Self)
        ensures
            copy@ == self@,
    {
        copy_instruction(self)
    }
}

} // verus!
