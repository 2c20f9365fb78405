//! A steppable evaluator for an eight-instruction tape language.
//!
//! Source text is lexed into opcodes ([`lexer`]), the opcodes are parsed into
//! a tree of instructions with nested loops ([`parser`]), and the tree is
//! walked one step at a time against a tape of 32 byte cells
//! ([`interpreter`]).  Every step reports what it changed ([`trace`]), so
//! that a front end can draw the tape while the program runs ([`screen`]),
//! answer its reads ([`input`]) and pause, pace, single-step or cancel it
//! ([`control`]).
//!
//! The interpreter does no input or output and never waits.  It tells the
//! thread that runs it what to do next, and that thread sleeps, sends and
//! receives.
//!
//! What the executable code does is stated over a mathematical model of the
//! run ([`machine`]).  Beside it stand the laws that hold of it: what
//! parsing makes of well-bracketed programs ([`brackets`]), that the tree
//! walk does what a plain model of the opcodes does ([`reference`],
//! [`simulation`]), and where programs meet the limits of the tape
//! ([`boundaries`]).

pub mod opcode;
pub mod lexer;
pub mod instruction;
pub mod text;
pub mod parser;
pub mod brackets;
pub mod trace;
pub mod control;
pub mod machine;
pub mod interpreter;
pub mod screen;
pub mod input;
pub mod reference;
pub mod simulation;
pub mod boundaries;
