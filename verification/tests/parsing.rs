//! The parser: the shape of the tree and the errors it records.

use brainfuck_visualizer::instruction::{copy_instruction, Instruction, InstructionIndex};
use brainfuck_visualizer::lexer::lex;
use brainfuck_visualizer::opcode::OpCode;
use brainfuck_visualizer::parser::parse;

fn tree(source: &str) -> Vec<InstructionIndex> {
    parse(lex(String::from(source)))
}

fn leaf(index: usize, code: Instruction) -> InstructionIndex {
    InstructionIndex { index, code }
}

fn error(index: usize, message: &str) -> InstructionIndex {
    InstructionIndex { index, code: Instruction::Error(String::from(message)) }
}

fn looped(index: usize, body: Vec<InstructionIndex>) -> InstructionIndex {
    InstructionIndex { index, code: Instruction::Loop(body) }
}

fn has_error(program: &[InstructionIndex]) -> bool {
    program.iter().any(|instruction| match &instruction.code {
        Instruction::Error(_) => true,
        Instruction::Loop(body) => has_error(body),
        _ => false,
    })
}

fn leaves(program: &[InstructionIndex], found: &mut Vec<(OpCode, usize)>) {
    for instruction in program {
        let op = match &instruction.code {
            Instruction::IncrementPointer => OpCode::IncrementPointer,
            Instruction::DecrementPointer => OpCode::DecrementPointer,
            Instruction::Increment => OpCode::Increment,
            Instruction::Decrement => OpCode::Decrement,
            Instruction::Write => OpCode::Write,
            Instruction::Read => OpCode::Read,
            Instruction::Loop(body) => {
                leaves(body, found);
                continue;
            }
            Instruction::Error(_) => continue,
        };
        found.push((op, instruction.index));
    }
}

#[test]
fn empty_program() {
    assert_eq!(parse(Vec::new()), vec![]);
}

#[test]
fn leaves_keep_their_offsets() {
    assert_eq!(
        tree("a>b<c+d-e.f,"),
        vec![
            leaf(1, Instruction::IncrementPointer),
            leaf(3, Instruction::DecrementPointer),
            leaf(5, Instruction::Increment),
            leaf(7, Instruction::Decrement),
            leaf(9, Instruction::Write),
            leaf(11, Instruction::Read),
        ]
    );
}

#[test]
fn empty_loop_is_a_loop_without_body() {
    assert_eq!(tree("[]"), vec![looped(1, vec![])]);
}

#[test]
fn loop_carries_the_offset_of_its_closing_bracket() {
    assert_eq!(
        tree("+[-]."),
        vec![
            leaf(0, Instruction::Increment),
            looped(3, vec![leaf(2, Instruction::Decrement)]),
            leaf(4, Instruction::Write),
        ]
    );
    assert_eq!(tree("see [ this ] loop"), vec![looped(11, vec![])]);
}

#[test]
fn loops_nest() {
    assert_eq!(
        tree("[>[+]<[[-]]]"),
        vec![looped(
            11,
            vec![
                leaf(1, Instruction::IncrementPointer),
                looped(4, vec![leaf(3, Instruction::Increment)]),
                leaf(5, Instruction::DecrementPointer),
                looped(10, vec![looped(9, vec![leaf(8, Instruction::Decrement)])]),
            ]
        )]
    );
}

#[test]
fn stray_closing_bracket_becomes_an_error_and_parsing_goes_on() {
    assert_eq!(
        tree("+]-"),
        vec![
            leaf(0, Instruction::Increment),
            error(1, "Loop without beginning at index 1"),
            leaf(2, Instruction::Decrement),
        ]
    );
}

#[test]
fn each_stray_closing_bracket_has_its_own_error() {
    assert_eq!(
        tree("]]"),
        vec![
            error(0, "Loop without beginning at index 0"),
            error(1, "Loop without beginning at index 1"),
        ]
    );
    assert_eq!(
        tree("[]]+[]"),
        vec![
            looped(1, vec![]),
            error(2, "Loop without beginning at index 2"),
            leaf(3, Instruction::Increment),
            looped(5, vec![]),
        ]
    );
}

#[test]
fn unclosed_loop_becomes_an_error_at_the_end() {
    assert_eq!(
        tree("+[-"),
        vec![leaf(0, Instruction::Increment), error(1, "Loop without ending at index 1")]
    );
}

#[test]
fn the_outermost_unclosed_loop_is_reported() {
    assert_eq!(tree("[[]"), vec![error(0, "Loop without ending at index 0")]);
    assert_eq!(
        tree("[]+[[-"),
        vec![
            looped(1, vec![]),
            leaf(2, Instruction::Increment),
            error(3, "Loop without ending at index 3"),
        ]
    );
    assert_eq!(
        tree("][["),
        vec![
            error(0, "Loop without beginning at index 0"),
            error(1, "Loop without ending at index 1"),
        ]
    );
}

#[test]
fn errors_speak_of_source_offsets() {
    assert_eq!(tree("xx]"), vec![error(2, "Loop without beginning at index 2")]);
    assert_eq!(tree("xxx[+"), vec![error(3, "Loop without ending at index 3")]);
    let far = format!("{}]", " ".repeat(1234));
    assert_eq!(tree(&far), vec![error(1234, "Loop without beginning at index 1234")]);
}

#[test]
fn well_bracketed_sources_parse_without_errors_and_keep_their_leaves() {
    let sources = [
        "",
        "+",
        "[]",
        "+[-]",
        "[[[]]]",
        "a[b[c]d]e+[,.]",
        "++++++++[>++++[>++>+++>+++>+<<<<-]>+>+>->>+[<]<-]>>.",
    ];
    for source in sources {
        let tokens = lex(String::from(source));
        let plain: Vec<(OpCode, usize)> = tokens
            .iter()
            .copied()
            .filter(|(op, _)| *op != OpCode::LoopBegin && *op != OpCode::LoopEnd)
            .collect();
        let program = parse(tokens);
        assert!(!has_error(&program));
        let mut found = Vec::new();
        leaves(&program, &mut found);
        assert_eq!(found, plain);
    }
}

#[test]
fn a_copy_is_equal_and_independent() {
    let program = tree("+[>[-]<]]");
    for instruction in &program {
        let copy = copy_instruction(instruction);
        assert_eq!(&copy, instruction);
        assert_eq!(instruction.clone(), copy);
    }
    let mut copy = program[1].clone();
    copy.index = 0;
    assert_eq!(program[1].index, 7);
}
