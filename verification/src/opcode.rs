//! The eight symbols of the language.

use vstd::prelude::*;

verus! {

/// One lexical symbol.
#[derive(Debug, Clone, Copy, PartialEq, Eq, Structural)]
pub enum OpCode {
    IncrementPointer,
    DecrementPointer,
    Increment,
    Decrement,
    Write,
    Read,
    LoopBegin,
    LoopEnd,
}

impl OpCode {
    /// The opcode that a character of the source stands for, if any.
    pub open spec fn of_char(c: char) -> Option<OpCode> {
        if c == '>' {
            Some(OpCode::IncrementPointer)
        } else if c == '<' {
            Some(OpCode::DecrementPointer)
        } else if c == '+' {
            Some(OpCode::Increment)
        } else if c == '-' {
            Some(OpCode::Decrement)
        } else if c == '.' {
            Some(OpCode::Write)
        } else if c == ',' {
            Some(OpCode::Read)
        } else if c == '[' {
            Some(OpCode::LoopBegin)
        } else if c == ']' {
            Some(OpCode::LoopEnd)
        } else {
            None
        }
    }

    /// Whether this opcode opens or closes a loop.
    pub open spec fn is_bracket(self) -> bool {
        self == OpCode::LoopBegin || self == OpCode::LoopEnd
    }

    /// Reads one character of source text: an opcode, or `None` for a
    /// character that is a comment.
    pub fn from_char(c: char) -> (op: Option<OpCode>)
        ensures
            op == Self::of_char(c),
    {
        match c {
            '>' => Some(OpCode::IncrementPointer),
            '<' => Some(OpCode::DecrementPointer),
            '+' => Some(OpCode::Increment),
            '-' => Some(OpCode::Decrement),
            '.' => Some(OpCode::Write),
            ',' => Some(OpCode::Read),
            '[' => Some(OpCode::LoopBegin),
            ']' => Some(OpCode::LoopEnd),
            _ => None,
        }
    }
}

} // verus!
