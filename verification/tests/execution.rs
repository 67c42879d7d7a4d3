use interpreter::enums::{MemoryUnitType, SessionSignal};
use interpreter::interpreter::Interpreter;
use interpreter::parser::Parser;

const FUEL: u64 = 100_000_000;

fn run_line(interp: &mut Interpreter, line: &str, input: &str) -> (Option<SessionSignal>, String, u64) {
    let p = Parser::from_string(&line.to_string()).unwrap();
    let input: Vec<char> = input.chars().collect();
    let outcome = interp.interpret_commands(p.get_commands(), p.get_bracket_pairs(), &input, FUEL);
    let text: String = outcome.output.iter().collect();
    (outcome.signal, text, outcome.warnings)
}

#[test]
fn hello_world_greets() {
    let mut interp = Interpreter::new(MemoryUnitType::Int8Bit);
    let line = "++++++++[>++++[>++>+++>+++>+<<<<-]>+>+>->>+[<]<-]>>.>---.+++++++..+++.>>.<-.<.+++.------.--------.>>+.>++.";
    let (signal, text, warnings) = run_line(&mut interp, line, "");
    assert_eq!(signal, Some(SessionSignal::Continue));
    assert_eq!(text, "Hello World!\n");
    assert_eq!(warnings, 0);
}

#[test]
fn quit_directive_ends_in_one_step() {
    let mut interp = Interpreter::new(MemoryUnitType::Int8Bit);
    let p = Parser::from_string(&":q".to_string()).unwrap();
    assert_eq!(p.get_commands().len(), 1);
    let outcome = interp.interpret_commands(p.get_commands(), p.get_bracket_pairs(), &vec![], 1);
    assert_eq!(outcome.signal, Some(SessionSignal::Quit));
}

#[test]
fn quit_skips_the_rest_of_the_line() {
    let mut interp = Interpreter::new(MemoryUnitType::Int8Bit);
    let (signal, text, _) = run_line(&mut interp, "+.:q+.", "");
    assert_eq!(signal, Some(SessionSignal::Quit));
    assert_eq!(text, "\u{1}");
    assert_eq!(interp.memory.get_data_as_char(), Some('\u{1}'));
}

#[test]
fn input_is_read_and_echoed() {
    let mut interp = Interpreter::new(MemoryUnitType::Int8Bit);
    let (signal, text, _) = run_line(&mut interp, ",.", "A");
    assert_eq!(signal, Some(SessionSignal::Continue));
    assert_eq!(text, "A");
    assert_eq!(interp.memory.get_data_as_char(), Some('A'));
}

#[test]
fn end_of_input_yields_null() {
    let mut interp = Interpreter::new(MemoryUnitType::Int8Bit);
    let (signal, text, _) = run_line(&mut interp, "+,.", "");
    assert_eq!(signal, Some(SessionSignal::Continue));
    assert_eq!(text, "\0");
    assert!(interp.memory.is_data_at_pointer_zero());
}

#[test]
fn retreat_at_origin_warns_and_goes_on() {
    let mut interp = Interpreter::new(MemoryUnitType::Int8Bit);
    let (signal, text, warnings) = run_line(&mut interp, "<<+.", "");
    assert_eq!(signal, Some(SessionSignal::Continue));
    assert_eq!(text, "\u{1}");
    assert_eq!(warnings, 2);
}

#[test]
fn unprintable_output_halts_the_run() {
    let mut interp = Interpreter::new(MemoryUnitType::Int32Bit);
    let mut line = String::new();
    for _ in 0..0xD800 {
        line.push('+');
    }
    line.push('.');
    line.push('.'); // never reached
    let (signal, text, _) = run_line(&mut interp, &line, "");
    assert_eq!(signal, Some(SessionSignal::Halted));
    assert_eq!(text, "");
}

#[test]
fn loop_counts_down_to_zero() {
    let mut interp = Interpreter::new(MemoryUnitType::Int8Bit);
    let (signal, _, _) = run_line(&mut interp, "+++++[-]", "");
    assert_eq!(signal, Some(SessionSignal::Continue));
    assert!(interp.memory.is_data_at_pointer_zero());
}

#[test]
fn skipped_loop_body_never_runs() {
    let mut interp = Interpreter::new(MemoryUnitType::Int8Bit);
    let (signal, text, _) = run_line(&mut interp, "[.]+.", "");
    assert_eq!(signal, Some(SessionSignal::Continue));
    assert_eq!(text, "\u{1}");
}

#[test]
fn endless_loop_exhausts_the_budget() {
    let mut interp = Interpreter::new(MemoryUnitType::Int8Bit);
    let p = Parser::from_string(&"+[]".to_string()).unwrap();
    let outcome = interp.interpret_commands(p.get_commands(), p.get_bracket_pairs(), &vec![], 1000);
    assert_eq!(outcome.signal, None);
    assert_eq!(outcome.output.len(), 0);
}

#[test]
fn reset_clears_tape_and_buffer() {
    let mut interp = Interpreter::new(MemoryUnitType::Int8Bit);
    let (signal, text, _) = run_line(&mut interp, "+.:r:p", "");
    assert_eq!(signal, Some(SessionSignal::Continue));
    // '.' sends one character; the flush after the reset sends nothing more.
    assert_eq!(text, "\u{1}");
    assert!(interp.memory.is_data_at_pointer_zero());
    assert_eq!(interp.output_buffer.len(), 0);
}

#[test]
fn flush_emits_the_accumulated_buffer() {
    let mut interp = Interpreter::new(MemoryUnitType::Int8Bit);
    let mut line = String::new();
    for _ in 0..65 {
        line.push('+');
    }
    line.push('.');
    line.push_str(":p");
    let (signal, text, _) = run_line(&mut interp, &line, "");
    assert_eq!(signal, Some(SessionSignal::Continue));
    assert_eq!(text, "AA");
    assert_eq!(interp.output_buffer.len(), 0);
}

#[test]
fn buffer_survives_between_lines() {
    let mut interp = Interpreter::new(MemoryUnitType::Int8Bit);
    let mut line = String::new();
    for _ in 0..66 {
        line.push('+');
    }
    line.push('.');
    let (_, first, _) = run_line(&mut interp, &line, "");
    assert_eq!(first, "B");
    let (_, second, _) = run_line(&mut interp, ":p", "");
    assert_eq!(second, "B");
}

#[test]
fn tape_survives_between_lines() {
    let mut interp = Interpreter::new(MemoryUnitType::Int8Bit);
    run_line(&mut interp, "+++", "");
    let (_, text, _) = run_line(&mut interp, "-.", "");
    assert_eq!(text, "\u{2}");
}
