//! Whole runs, from source text to what the screen shows.

use brainfuck_visualizer::control::{ControlState, Directive};
use brainfuck_visualizer::screen::{reset_app, start_parsing, Screen};
use brainfuck_visualizer::input::decode_input;
use brainfuck_visualizer::interpreter::Interpreter;
use brainfuck_visualizer::machine::Status;
use brainfuck_visualizer::trace::{Action, CellChange};

const HELLO: &str = "++++++++[>++++[>++>+++>+++>+<<<<-]>+>+>->>+[<]<-]>>.>---.+++++++..+++.>>.<-.<.+++.------.--------.>>+.>++.";

/// Runs the source that `screen` holds as a front end would: follows the
/// interpreter's directives, shows each event, and answers each read with
/// the next of `answers`, decoded as typed text.
fn run_on(
    screen: &mut Screen,
    control: &mut ControlState,
    answers: &[&str],
) -> (Interpreter, Vec<CellChange>) {
    let mut interpreter = start_parsing(control, screen);
    let mut trace = Vec::new();
    let mut next_answer = 0;
    let mut moves = 0;
    loop {
        assert!(moves < 1_000_000, "the run does not end");
        moves += 1;
        control.set_speed(0);
        let report = match interpreter.directive(control) {
            Directive::Halt => break,
            Directive::Park => panic!("nothing pauses this run"),
            Directive::Receive => {
                let text = answers[next_answer];
                next_answer += 1;
                interpreter.supply_input(decode_input(text, true), control)
            }
            Directive::Step(delay) => {
                assert_eq!(delay, 0);
                interpreter.step(control)
            }
        };
        if let Some(change) = report {
            assert!(change.index < 32);
            screen.apply(&change);
            trace.push(change);
        }
    }
    screen.end_run();
    (interpreter, trace)
}

fn show(source: &str) -> (Screen, Vec<CellChange>) {
    let mut screen = Screen::new();
    let mut control = ControlState::new();
    screen.set_source(String::from(source));
    let (_, trace) = run_on(&mut screen, &mut control, &[]);
    (screen, trace)
}

#[test]
fn normal_parse() {
    let (screen, _) = show(HELLO);
    assert_eq!(screen.output(), "Hello World!\n");
}

#[test]
fn loop_no_start() {
    let (screen, _) = show("++++++++>++++[>++>+++>+++>+<<<<-]>+>+>->>+[<]<-]>>.>---.+++++++..+++.>>.<-.<.+++.------.--------.>>+.>++.");
    assert_eq!(screen.output(), "Error: Loop without beginning at index 47");
}

#[test]
fn loop_no_end() {
    let (screen, _) = show("++++++++[>++++[>++>+++>+++>+<<<<-]>+>+>->>+[<]<->>.>---.+++++++..+++.>>.<-.<.+++.------.--------.>>+.>++.");
    assert_eq!(screen.output(), "Error: Loop without ending at index 8");
}

#[test]
fn subtraction_underflow() {
    let (screen, _) = show("-");
    assert_eq!(screen.output(), "Error: Subtraction underflow at index 0");
}

#[test]
fn addition_overflow() {
    let (screen, _) = show("++++++++++++++++++++++++++++++++++++++++++++++++++++++++++++++++++++++++++++++++++++++++++++++++++++++++++++++++++++++++++++++++++++++++++++++++++++++++++++++++++++++++++++++++++++++++++++++++++++++++++++++++++++++++++++++++++++++++++++++++++++++++++++++++");
    assert_eq!(screen.output(), "Error: Addition overflow at index 255");
}

#[test]
fn pointer_out_of_bounds_lower() {
    let (screen, _) = show("<");
    assert_eq!(screen.output(), "Error: Data pointer out of bounds at index 0");
}

#[test]
fn pointer_out_of_bounds_upper() {
    let (screen, _) = show(">>>>>>>>>>>>>>>>>>>>>>>>>>>>>>>>");
    assert_eq!(screen.output(), "Error: Data pointer out of bounds at index 31");
}

#[test]
fn reset() {
    let mut screen = Screen::new();
    let mut control = ControlState::new();
    screen.set_source(String::from(HELLO));
    run_on(&mut screen, &mut control, &[]);
    assert_eq!(screen.output(), "Hello World!\n");

    reset_app(&mut control, &mut screen);

    assert_eq!(screen.output(), "");
    assert_eq!(screen.source(), "");
}

#[test]
fn hello_world_runs_to_completion_without_fault() {
    let mut screen = Screen::new();
    let mut control = ControlState::new();
    screen.set_source(String::from(HELLO));
    let (interpreter, trace) = run_on(&mut screen, &mut control, &[]);
    assert_eq!(interpreter.status(), Status::Completed);
    assert!(trace.iter().all(|change| !matches!(change.action, Action::Error(_))));
    assert!(!control.cancel_requested);
    let written: Vec<u8> = trace
        .iter()
        .filter(|change| change.action == Action::Output)
        .map(|change| change.content)
        .collect();
    assert_eq!(written, b"Hello World!\n".to_vec());
    assert!(screen.editable());
}

#[test]
fn stray_closing_bracket_is_the_only_event() {
    let (screen, trace) = show("]");
    assert_eq!(
        trace,
        vec![CellChange {
            index: 0,
            content: 0,
            action: Action::Error(String::from("Loop without beginning at index 0")),
            text_index: 0,
        }]
    );
    assert_eq!(screen.output(), "Error: Loop without beginning at index 0");
}

#[test]
fn unclosed_bracket_faults_at_its_own_offset() {
    let (screen, trace) = show("[");
    assert_eq!(
        trace,
        vec![CellChange {
            index: 0,
            content: 0,
            action: Action::Error(String::from("Loop without ending at index 0")),
            text_index: 0,
        }]
    );
    assert_eq!(screen.output(), "Error: Loop without ending at index 0");
}

#[test]
fn unclosed_bracket_faults_only_when_reached() {
    let (screen, trace) = show("+.[+");
    assert_eq!(trace.len(), 3);
    assert_eq!(trace[0].action, Action::Tape);
    assert_eq!(trace[1].action, Action::Output);
    assert_eq!(
        trace[2].action,
        Action::Error(String::from("Loop without ending at index 2"))
    );
    assert_eq!(screen.output(), "Error: Loop without ending at index 2");
}

#[test]
fn runtime_fault_before_a_stray_bracket_wins() {
    let (screen, _) = show("-]");
    assert_eq!(screen.output(), "Error: Subtraction underflow at index 0");
}

#[test]
fn messages_name_source_offsets_not_opcode_counts() {
    let (screen, _) = show("ab ]");
    assert_eq!(screen.output(), "Error: Loop without beginning at index 3");
    let (screen, _) = show("note: [");
    assert_eq!(screen.output(), "Error: Loop without ending at index 6");
    let (screen, _) = show("x<");
    assert_eq!(screen.output(), "Error: Data pointer out of bounds at index 1");
}

#[test]
fn more_than_32_forward_moves_fault_at_the_32nd() {
    let (screen, trace) = show(&">".repeat(40));
    assert_eq!(screen.output(), "Error: Data pointer out of bounds at index 31");
    assert_eq!(trace.len(), 32);
    assert_eq!(trace[30].index, 31);
    assert_eq!(trace[31].index, 31);
    let (screen, trace) = show(&">".repeat(31));
    assert_eq!(screen.output(), "");
    assert_eq!(trace.len(), 31);
    assert_eq!(screen.marker(), Some(31));
}

#[test]
fn cell_holds_255_and_faults_on_the_256th_increment() {
    let (screen, trace) = show(&"+".repeat(255));
    assert_eq!(screen.output(), "");
    assert_eq!(trace.last().map(|change| change.content), Some(255));
    assert_eq!(screen.cell_text(0), "255");
    let (screen, trace) = show(&"+".repeat(256));
    assert_eq!(screen.output(), "Error: Addition overflow at index 255");
    assert_eq!(trace.len(), 256);
    assert_eq!(screen.cells()[0], 255);
}

#[test]
fn decrement_from_zero_after_work_faults() {
    let (screen, _) = show("+--");
    assert_eq!(screen.output(), "Error: Subtraction underflow at index 2");
}

#[test]
fn reads_are_answered_from_typed_text() {
    let mut screen = Screen::new();
    let mut control = ControlState::new();
    screen.set_source(String::from(",.>,."));
    let (interpreter, trace) = run_on(&mut screen, &mut control, &["72", "i"]);
    assert_eq!(interpreter.status(), Status::Completed);
    assert_eq!(screen.output(), "Hi");
    let kinds: Vec<Action> = trace.iter().map(|change| change.action.clone()).collect();
    assert_eq!(
        kinds,
        vec![
            Action::Input,
            Action::Tape,
            Action::Output,
            Action::Tape,
            Action::Input,
            Action::Tape,
            Action::Output,
        ]
    );
    assert_eq!(trace[1].content, 72);
    assert_eq!(trace[5].content, 105);
    assert_eq!(trace[5].index, 1);
}

#[test]
fn invalid_answer_faults_the_read() {
    let mut screen = Screen::new();
    let mut control = ControlState::new();
    screen.set_source(String::from("+,"));
    let (interpreter, trace) = run_on(&mut screen, &mut control, &["256"]);
    assert_eq!(interpreter.status(), Status::Faulted);
    assert_eq!(screen.output(), "Error: invalid input at index 1");
    assert_eq!(trace.len(), 3);
    assert_eq!(trace[2].content, 1);
    assert!(control.cancel_requested);
}

#[test]
fn reset_after_any_run_gives_the_blank_screen() {
    let blank = Screen::new();
    for source in [HELLO, "-", "+>+>+", "]"] {
        let mut screen = Screen::new();
        let mut control = ControlState::new();
        screen.set_source(String::from(source));
        run_on(&mut screen, &mut control, &[]);
        reset_app(&mut control, &mut screen);
        assert!(control.cancel_requested);
        assert_eq!(screen.cells(), blank.cells());
        assert_eq!(screen.cells(), &vec![0u8; 32]);
        assert_eq!(screen.marker(), None);
        assert_eq!(screen.output(), "");
        assert_eq!(screen.selection(), None);
        assert_eq!(screen.source(), "");
        assert!(screen.editable());
        reset_app(&mut control, &mut screen);
        assert_eq!(screen.cells(), &vec![0u8; 32]);
        assert_eq!(screen.output(), "");
    }
}

#[test]
fn reset_of_a_cancelled_run_and_the_run_after_it() {
    let mut screen = Screen::new();
    let mut control = ControlState::new();
    screen.set_source(String::from("+[]"));
    let mut interpreter = start_parsing(&mut control, &mut screen);
    for _ in 0..10 {
        if let Some(change) = interpreter.step(&mut control) {
            screen.apply(&change);
        }
    }
    assert_eq!(interpreter.status(), Status::Running);
    assert_eq!(screen.cells()[0], 1);
    reset_app(&mut control, &mut screen);
    assert_eq!(interpreter.directive(&control), Directive::Halt);
    assert_eq!(interpreter.step(&mut control), None);
    assert_eq!(screen.cells(), &vec![0u8; 32]);

    screen.set_source(String::from("+."));
    let (next, trace) = run_on(&mut screen, &mut control, &[]);
    assert_eq!(next.status(), Status::Completed);
    assert_eq!(
        control,
        ControlState { cancel_requested: false, paused: false, step_delay: 0, step_requested: false }
    );
    assert_eq!(trace.len(), 2);
    assert_eq!(screen.output(), "\u{1}");
    assert_eq!(next.tape()[0], 1);
}
