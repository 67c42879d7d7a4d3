use interpreter::bracket_pair::BracketPair;
use interpreter::command_iterator::CommandInterator;
use interpreter::enums::{BrainfuckCommand, Command};
use interpreter::parser::Parser;

fn parts(line: &str) -> (Vec<Command>, Vec<BracketPair>) {
    let p = Parser::from_string(&line.to_string()).unwrap();
    (p.get_commands().clone(), p.get_bracket_pairs().clone())
}

#[test]
fn hands_out_commands_in_order() {
    let (cmds, pairs) = parts("+-");
    let mut it = CommandInterator::new(cmds, pairs);
    assert!(it.has_next());
    assert_eq!(it.next(), Some(Command::Brainfuck(BrainfuckCommand::DataIncrement)));
    assert_eq!(it.next(), Some(Command::Brainfuck(BrainfuckCommand::DataDecrement)));
    assert!(!it.has_next());
    assert_eq!(it.next(), None);
}

#[test]
fn jumps_from_open_to_past_close() {
    let (cmds, pairs) = parts("+[-]+");
    let mut it = CommandInterator::new(cmds, pairs);
    it.next(); // '+'
    assert_eq!(it.next(), Some(Command::Brainfuck(BrainfuckCommand::OpenBracket)));
    assert!(it.jump_to_matching_bracket());
    // now past the ']' at index 3: the next command is the trailing '+'
    assert_eq!(it.next(), Some(Command::Brainfuck(BrainfuckCommand::DataIncrement)));
    assert!(!it.has_next());
}

#[test]
fn jumps_from_close_to_past_open() {
    let (cmds, pairs) = parts("[-]");
    let mut it = CommandInterator::new(cmds, pairs);
    it.next(); // '['
    it.next(); // '-'
    assert_eq!(it.next(), Some(Command::Brainfuck(BrainfuckCommand::ClosedBracket)));
    assert!(it.jump_to_matching_bracket());
    // back just past the '[': the loop body comes again
    assert_eq!(it.next(), Some(Command::Brainfuck(BrainfuckCommand::DataDecrement)));
}

#[test]
fn refuses_to_jump_off_other_commands() {
    let (cmds, pairs) = parts("+[]");
    let mut it = CommandInterator::new(cmds, pairs);
    it.next(); // '+'
    assert!(!it.jump_to_matching_bracket());
    assert_eq!(it.next(), Some(Command::Brainfuck(BrainfuckCommand::OpenBracket)));
}

#[test]
fn bracket_pair_keeps_its_indices() {
    let pair = BracketPair::from_indeces((2, 7));
    assert_eq!(pair.get_first_bracket_index(), 2);
    assert_eq!(pair.get_second_bracket_index(), 7);
}
