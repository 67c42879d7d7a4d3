use interpreter::enums::{BrainfuckCommand, Command, LexError, ShellCommand};
use interpreter::parser::{do_brackets_match, Parser};

fn lex(s: &str) -> Result<Vec<Command>, LexError> {
    Parser::parse_commands(&s.to_string())
}

#[test]
fn lexes_each_tape_character() {
    let cmds = lex("><+-.,[]").unwrap();
    assert_eq!(
        cmds,
        vec![
            Command::Brainfuck(BrainfuckCommand::PointerIncrement),
            Command::Brainfuck(BrainfuckCommand::PointerDecrement),
            Command::Brainfuck(BrainfuckCommand::DataIncrement),
            Command::Brainfuck(BrainfuckCommand::DataDecrement),
            Command::Brainfuck(BrainfuckCommand::ReturnDataAtPointer),
            Command::Brainfuck(BrainfuckCommand::WriteDataToPointer),
            Command::Brainfuck(BrainfuckCommand::OpenBracket),
            Command::Brainfuck(BrainfuckCommand::ClosedBracket),
        ]
    );
}

#[test]
fn lexes_shell_directives() {
    let cmds = lex(":r:p:q").unwrap();
    assert_eq!(
        cmds,
        vec![
            Command::Shell(ShellCommand::ResetValues),
            Command::Shell(ShellCommand::PrintString),
            Command::Shell(ShellCommand::QuitProgram),
        ]
    );
}

#[test]
fn drops_unknown_characters_silently() {
    let cmds = lex("a + b - c").unwrap();
    assert_eq!(
        cmds,
        vec![
            Command::Brainfuck(BrainfuckCommand::DataIncrement),
            Command::Brainfuck(BrainfuckCommand::DataDecrement),
        ]
    );
}

#[test]
fn escape_at_end_of_input_yields_nothing() {
    assert_eq!(lex(":").unwrap(), vec![]);
    assert_eq!(
        lex("+:").unwrap(),
        vec![Command::Brainfuck(BrainfuckCommand::DataIncrement)]
    );
}

#[test]
fn escape_forces_shell_alphabet() {
    // The character after the escape is read against the shell alphabet only:
    // a tape character there is consumed and dropped.
    assert_eq!(lex(":+").unwrap(), vec![]);
    assert_eq!(lex("::r").unwrap(), vec![]);
    assert_eq!(lex(":x+").unwrap(), vec![Command::Brainfuck(BrainfuckCommand::DataIncrement)]);
}

#[test]
fn escaped_bracket_is_not_counted() {
    // ':' consumes the '[', so only the ']' remains and the counts differ.
    assert_eq!(lex(":[]"), Err(LexError::UnbalancedBrackets));
}

#[test]
fn unbalanced_line_is_rejected() {
    assert_eq!(lex("["), Err(LexError::UnbalancedBrackets));
    assert_eq!(lex("[[]"), Err(LexError::UnbalancedBrackets));
    assert_eq!(lex("]"), Err(LexError::UnbalancedBrackets));
}

#[test]
fn balanced_but_reversed_line_lexes() {
    // Equal counts pass the lexer; nesting is only checked at resolution.
    let cmds = lex("][").unwrap();
    assert_eq!(
        cmds,
        vec![
            Command::Brainfuck(BrainfuckCommand::ClosedBracket),
            Command::Brainfuck(BrainfuckCommand::OpenBracket),
        ]
    );
}

#[test]
fn brackets_match_counts_characters() {
    assert!(do_brackets_match(&"[]".to_string()));
    assert!(do_brackets_match(&"][".to_string()));
    assert!(do_brackets_match(&"+-.,".to_string()));
    assert!(!do_brackets_match(&"[".to_string()));
    assert!(!do_brackets_match(&"[[]".to_string()));
}

#[test]
fn from_string_builds_program_and_table() {
    let p = Parser::from_string(&"+[-]".to_string()).unwrap();
    assert_eq!(p.get_commands().len(), 4);
    let pairs = p.get_bracket_pairs();
    assert_eq!(pairs.len(), 1);
    assert_eq!(pairs[0].get_first_bracket_index(), 1);
    assert_eq!(pairs[0].get_second_bracket_index(), 3);
}

#[test]
fn from_string_rejects_bad_nesting() {
    assert!(matches!(
        Parser::from_string(&"][".to_string()),
        Err(LexError::UnmatchedClose(0))
    ));
}

#[test]
fn parse_string_replaces_contents_only_on_success() {
    let mut p = Parser::new();
    assert!(p.parse_string(&"++".to_string()).is_ok());
    assert_eq!(p.get_commands().len(), 2);
    assert_eq!(p.parse_string(&"[".to_string()), Err(LexError::UnbalancedBrackets));
    assert_eq!(p.get_commands().len(), 2);
}
