//! The lexer: which characters count, and with which offsets.

use brainfuck_visualizer::lexer::lex;
use brainfuck_visualizer::opcode::OpCode;

#[test]
fn each_symbol_has_its_opcode() {
    assert_eq!(
        lex(String::from("><+-.,[]")),
        vec![
            (OpCode::IncrementPointer, 0),
            (OpCode::DecrementPointer, 1),
            (OpCode::Increment, 2),
            (OpCode::Decrement, 3),
            (OpCode::Write, 4),
            (OpCode::Read, 5),
            (OpCode::LoopBegin, 6),
            (OpCode::LoopEnd, 7),
        ]
    );
}

#[test]
fn from_char_knows_eight_characters() {
    assert_eq!(OpCode::from_char('>'), Some(OpCode::IncrementPointer));
    assert_eq!(OpCode::from_char('<'), Some(OpCode::DecrementPointer));
    assert_eq!(OpCode::from_char('+'), Some(OpCode::Increment));
    assert_eq!(OpCode::from_char('-'), Some(OpCode::Decrement));
    assert_eq!(OpCode::from_char('.'), Some(OpCode::Write));
    assert_eq!(OpCode::from_char(','), Some(OpCode::Read));
    assert_eq!(OpCode::from_char('['), Some(OpCode::LoopBegin));
    assert_eq!(OpCode::from_char(']'), Some(OpCode::LoopEnd));
    let known = (0..=0x7f_u8).filter(|byte| OpCode::from_char(*byte as char).is_some()).count();
    assert_eq!(known, 8);
    assert_eq!(OpCode::from_char('é'), None);
}

#[test]
fn empty_source_has_no_opcodes() {
    assert_eq!(lex(String::new()), vec![]);
}

#[test]
fn comments_are_dropped_and_offsets_kept() {
    assert_eq!(
        lex(String::from("add: + then\n move > (done)")),
        vec![(OpCode::Increment, 5), (OpCode::IncrementPointer, 18)]
    );
}

#[test]
fn offsets_count_characters_not_bytes() {
    assert_eq!(
        lex(String::from("é+ü-")),
        vec![(OpCode::Increment, 1), (OpCode::Decrement, 3)]
    );
}

#[test]
fn output_is_no_longer_than_input_and_points_at_its_characters() {
    let sources = ["", "hello", "+[-]", "a[b]c+d-e.f,g<h>i", "[[[[", "]]]]", "é[ü]+"];
    for source in sources {
        let characters: Vec<char> = source.chars().collect();
        let tokens = lex(String::from(source));
        assert!(tokens.len() <= characters.len());
        for (op, offset) in &tokens {
            assert_eq!(OpCode::from_char(characters[*offset]), Some(*op));
        }
        for pair in tokens.windows(2) {
            assert!(pair[0].1 < pair[1].1);
        }
        let symbols = characters.iter().filter(|c| OpCode::from_char(**c).is_some()).count();
        assert_eq!(tokens.len(), symbols);
    }
}
