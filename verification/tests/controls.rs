//! The control state and the screen.

use brainfuck_visualizer::control::{
    slider_delay, ControlState, DEFAULT_DELAY, MAX_SLIDER, SINGLE_STEP_DELAY,
};
use brainfuck_visualizer::screen::{start_parsing, Screen};
use brainfuck_visualizer::machine::{Status, TAPE_LEN};
use brainfuck_visualizer::text::{decimal_string, message_at, push_decimal};
use brainfuck_visualizer::trace::{Action, CellChange};

fn change(index: usize, content: u8, action: Action, text_index: usize) -> CellChange {
    CellChange { index, content, action, text_index }
}

fn state(cancel_requested: bool, paused: bool, step_delay: u16, step_requested: bool) -> ControlState {
    ControlState { cancel_requested, paused, step_delay, step_requested }
}

#[test]
fn a_fresh_control_state_lets_the_run_go_at_the_default_pace() {
    let control = ControlState::new();
    assert_eq!(control, state(false, false, 500, false));
    assert_eq!(DEFAULT_DELAY, 500);
}

#[test]
fn every_run_starts_from_the_fresh_control_state() {
    let mut control = state(true, true, 3, true);
    control.begin_run();
    assert_eq!(control, ControlState::new());
}

#[test]
fn each_control_changes_its_own_signal_only() {
    let mut control = ControlState::new();
    control.pause();
    assert_eq!(control, state(false, true, 500, false));
    control.pause();
    assert!(control.paused);
    control.set_speed(120);
    assert_eq!(control, state(false, true, 120, false));
    control.request_cancel();
    assert_eq!(control, state(true, true, 120, false));
    control.resume();
    assert_eq!(control, state(true, false, 120, false));
    control.toggle_pause();
    assert!(control.paused);
    control.toggle_pause();
    assert!(!control.paused);
    assert_eq!(control.step_delay, 120);
    assert!(control.cancel_requested);
}

#[test]
fn a_single_step_is_asked_for_and_taken() {
    let mut control = state(false, true, 750, false);
    control.step();
    assert_eq!(control, state(false, true, 750, true));
    assert_eq!(SINGLE_STEP_DELAY, 10);
    control.take_step();
    assert_eq!(control, state(false, true, 750, false));
}

#[test]
fn a_single_step_pauses_a_run_that_is_going() {
    let mut control = ControlState::new();
    control.step();
    assert_eq!(control, state(false, true, 500, true));
}

#[test]
fn pausing_and_resuming_drop_a_step_that_was_not_taken() {
    for change in [ControlState::pause, ControlState::resume, ControlState::toggle_pause] {
        let mut control = state(false, true, 500, true);
        change(&mut control);
        assert!(!control.step_requested);
    }
}

#[test]
fn the_slider_counts_hundredths_of_a_second() {
    assert_eq!(slider_delay(0), 0);
    assert_eq!(slider_delay(1), 10);
    assert_eq!(slider_delay(50), 500);
    assert_eq!(slider_delay(100), 1000);
    assert_eq!(slider_delay(MAX_SLIDER), 65530);
}

#[test]
fn a_fresh_screen_is_blank() {
    let screen = Screen::new();
    assert_eq!(screen.cells(), &vec![0u8; 32]);
    assert_eq!(TAPE_LEN, 32);
    assert_eq!(screen.marker(), None);
    assert_eq!(screen.output(), "");
    assert_eq!(screen.selection(), None);
    assert_eq!(screen.source(), "");
    assert!(screen.editable());
    for cell in 0..32 {
        assert_eq!(screen.cell_text(cell), "0");
        assert_eq!(screen.marker_text(cell), "");
    }
}

#[test]
fn a_tape_event_marks_its_cell_and_shows_its_content() {
    let mut screen = Screen::new();
    screen.apply(&change(3, 200, Action::Tape, 17));
    assert_eq!(screen.marker(), Some(3));
    assert_eq!(screen.cells()[3], 200);
    assert_eq!(screen.cell_text(3), "200");
    assert_eq!(screen.selection(), Some(17));
    assert_eq!(screen.output(), "");
    screen.apply(&change(4, 0, Action::Tape, 18));
    assert_eq!(screen.marker(), Some(4));
    assert_eq!(screen.cells()[3], 200);
    for cell in 0..32 {
        assert_eq!(screen.marker_text(cell), if cell == 4 { "#" } else { "" });
    }
}

#[test]
fn input_and_pause_events_show_the_cell_like_a_tape_event() {
    for action in [Action::Input, Action::Paused] {
        let mut screen = Screen::new();
        screen.apply(&change(31, 9, action, 2));
        assert_eq!(screen.marker(), Some(31));
        assert_eq!(screen.cells()[31], 9);
        assert_eq!(screen.selection(), Some(2));
        assert_eq!(screen.output(), "");
    }
}

#[test]
fn an_output_event_appends_its_byte_as_a_character() {
    let mut screen = Screen::new();
    screen.apply(&change(5, b'O', Action::Output, 1));
    screen.apply(&change(5, b'k', Action::Output, 2));
    screen.apply(&change(5, 0xe9, Action::Output, 3));
    assert_eq!(screen.output(), "Ok\u{e9}");
    assert_eq!(screen.selection(), Some(3));
    assert_eq!(screen.marker(), None);
    assert_eq!(screen.cells(), &vec![0u8; 32]);
}

#[test]
fn a_fault_replaces_the_output() {
    let mut screen = Screen::new();
    screen.apply(&change(0, b'x', Action::Output, 0));
    screen.apply(&change(0, 120, Action::Error(String::from("Addition overflow at index 7")), 7));
    assert_eq!(screen.output(), "Error: Addition overflow at index 7");
    assert_eq!(screen.selection(), Some(0));
}

#[test]
fn starting_a_run_clears_tape_and_output_and_locks_the_source() {
    let mut screen = Screen::new();
    let mut control = state(true, true, 1, true);
    screen.apply(&change(2, 5, Action::Tape, 9));
    screen.apply(&change(2, b'!', Action::Output, 9));
    screen.set_source(String::from("+>"));
    let run = start_parsing(&mut control, &mut screen);
    assert_eq!(control, ControlState::new());
    assert_eq!(screen.cells(), &vec![0u8; 32]);
    assert_eq!(screen.marker(), None);
    assert_eq!(screen.output(), "");
    assert_eq!(screen.source(), "+>");
    assert_eq!(screen.selection(), Some(9));
    assert!(!screen.editable());
    assert_eq!(run.status(), Status::Running);
    assert_eq!(run.tape(), &vec![0u8; 32]);
    screen.end_run();
    assert!(screen.editable());
    assert_eq!(screen.source(), "+>");
}

#[test]
fn numerals_are_decimal_without_padding() {
    assert_eq!(decimal_string(0), "0");
    assert_eq!(decimal_string(7), "7");
    assert_eq!(decimal_string(10), "10");
    assert_eq!(decimal_string(47), "47");
    assert_eq!(decimal_string(255), "255");
    assert_eq!(decimal_string(1000), "1000");
    assert_eq!(decimal_string(9876543210), "9876543210");
    assert_eq!(decimal_string(usize::MAX), usize::MAX.to_string());
    for n in 0..2000 {
        assert_eq!(decimal_string(n), n.to_string());
    }
}

#[test]
fn push_decimal_appends() {
    let mut text = String::from("cell ");
    push_decimal(&mut text, 31);
    push_decimal(&mut text, 0);
    assert_eq!(text, "cell 310");
}

#[test]
fn messages_end_in_the_offset() {
    assert_eq!(message_at("Addition overflow at index ", 255), "Addition overflow at index 255");
    assert_eq!(message_at("", 0), "0");
}
