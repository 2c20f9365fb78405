//! From typed text to the value that answers a read.

use brainfuck_visualizer::input::{decode_input, INVALID_INPUT};

#[test]
fn the_sentinel_is_minus_one() {
    assert_eq!(INVALID_INPUT, -1);
}

#[test]
fn numerals_in_range_stand_for_their_number() {
    assert_eq!(decode_input("0", true), 0);
    assert_eq!(decode_input("7", true), 7);
    assert_eq!(decode_input("65", true), 65);
    assert_eq!(decode_input("255", true), 255);
    assert_eq!(decode_input("007", true), 7);
    assert_eq!(decode_input("+12", true), 12);
    assert_eq!(decode_input("-0", true), 0);
    assert_eq!(decode_input("000000000000000000000000000000255", true), 255);
    for n in 0..=255 {
        assert_eq!(decode_input(&n.to_string(), true), n);
        assert_eq!(decode_input(&n.to_string(), false), n);
    }
}

#[test]
fn numerals_out_of_range_are_invalid() {
    assert_eq!(decode_input("256", true), -1);
    assert_eq!(decode_input("1000", true), -1);
    assert_eq!(decode_input("-1", true), -1);
    assert_eq!(decode_input("-255", true), -1);
    assert_eq!(decode_input("65536", true), -1);
    assert_eq!(decode_input("9223372036854775807", true), -1);
    assert_eq!(decode_input("99999999999999999999999999", true), -1);
    assert_eq!(decode_input("-99999999999999999999999999", true), -1);
    for n in 256..3000 {
        assert_eq!(decode_input(&n.to_string(), true), -1);
    }
}

#[test]
fn a_single_character_stands_for_its_code_when_confirmed() {
    assert_eq!(decode_input("a", true), 97);
    assert_eq!(decode_input("A", true), 65);
    assert_eq!(decode_input(" ", true), 32);
    assert_eq!(decode_input("+", true), 43);
    assert_eq!(decode_input("-", true), 45);
    assert_eq!(decode_input("\n", true), 10);
    assert_eq!(decode_input("\u{7f}", true), 127);
    assert_eq!(decode_input("\u{0}", true), 0);
}

#[test]
fn a_digit_is_its_number_not_its_code() {
    assert_eq!(decode_input("5", true), 5);
    assert_eq!(decode_input("5", false), 5);
}

#[test]
fn a_single_character_is_invalid_when_the_prompt_was_not_confirmed() {
    assert_eq!(decode_input("a", false), -1);
    assert_eq!(decode_input("+", false), -1);
}

#[test]
fn other_text_is_invalid() {
    assert_eq!(decode_input("", true), -1);
    assert_eq!(decode_input("", false), -1);
    assert_eq!(decode_input("ab", true), -1);
    assert_eq!(decode_input("12a", true), -1);
    assert_eq!(decode_input("a12", true), -1);
    assert_eq!(decode_input(" 5", true), -1);
    assert_eq!(decode_input("5 ", true), -1);
    assert_eq!(decode_input("+-5", true), -1);
    assert_eq!(decode_input("--5", true), -1);
    assert_eq!(decode_input("5+", true), -1);
    assert_eq!(decode_input("1.5", true), -1);
    assert_eq!(decode_input("0x10", true), -1);
}

#[test]
fn a_character_beyond_ascii_is_invalid() {
    assert_eq!(decode_input("é", true), -1);
    assert_eq!(decode_input("\u{80}", true), -1);
    assert_eq!(decode_input("€", true), -1);
    assert_eq!(decode_input("٣", true), -1);
}

#[test]
fn agrees_with_the_standard_integer_parser() {
    let texts = [
        "", "0", "-0", "+0", "12", "+12", "-12", "255", "256", "a", "ab", "+", "-", "1a", "é",
        "00255", "-00", "9999999999999999999", " 1", "1 ", "٣", "+a", "2-",
    ];
    for text in texts {
        for confirmed in [true, false] {
            let expected = match text.parse::<i64>() {
                Ok(number) if (0..=255).contains(&number) => number as i16,
                Ok(_) => -1,
                Err(_) if confirmed && text.len() == 1 => text.as_bytes()[0] as i16,
                Err(_) => -1,
            };
            assert_eq!(decode_input(text, confirmed), expected, "{:?}", text);
        }
    }
}
