use arglex::{Lexer, Token};

fn argv(list: &[&str]) -> Vec<Vec<u8>> {
    list.iter().map(|arg| arg.as_bytes().to_vec()).collect()
}

fn value_of(raw: &str) -> Option<Token> {
    Some(Token::Value(raw.as_bytes().to_vec()))
}

#[test]
fn program_name_is_skipped_when_it_is_there() {
    let mut lexer = Lexer::from(argv(&["prog", "x"]), true);
    assert_eq!(lexer.next_token().unwrap(), value_of("x"));
    assert!(lexer.finished());
}

#[test]
fn first_argument_is_read_when_there_is_no_program_name() {
    let mut lexer = Lexer::from(argv(&["prog", "x"]), false);
    assert_eq!(lexer.next_token().unwrap(), value_of("prog"));
    assert_eq!(lexer.next_token().unwrap(), value_of("x"));
    assert!(lexer.finished());
}

#[test]
fn program_name_can_be_switched_off_before_reading() {
    let mut lexer = Lexer::from(argv(&["prog", "x"]), true);
    lexer.starts_with_program_name(false);
    assert_eq!(lexer.next_token().unwrap(), value_of("prog"));
    assert_eq!(lexer.next_token().unwrap(), value_of("x"));
}

#[test]
fn program_name_can_be_switched_on_before_reading() {
    let mut lexer = Lexer::from(argv(&["prog", "x"]), false);
    lexer.starts_with_program_name(true);
    assert_eq!(lexer.next_token().unwrap(), value_of("x"));
    assert!(lexer.finished());
}

#[test]
fn program_name_can_be_switched_back_and_forth_before_reading() {
    let mut lexer = Lexer::from(argv(&["prog", "x"]), true);
    lexer.starts_with_program_name(true);
    lexer.starts_with_program_name(false);
    lexer.starts_with_program_name(false);
    lexer.starts_with_program_name(true);
    assert_eq!(lexer.next_token().unwrap(), value_of("x"));
}

#[test]
fn switch_does_nothing_once_an_argument_was_read() {
    let mut lexer = Lexer::from(argv(&["a", "b", "c"]), false);
    assert_eq!(lexer.next_token().unwrap(), value_of("a"));
    lexer.starts_with_program_name(false);
    assert_eq!(lexer.next_token().unwrap(), value_of("b"));
    lexer.starts_with_program_name(true);
    lexer.starts_with_program_name(false);
    assert_eq!(lexer.next_token().unwrap(), value_of("c"));
    assert!(lexer.finished());
}

#[test]
fn switch_does_nothing_inside_an_argument() {
    let mut lexer = Lexer::from(argv(&["-ab", "c"]), false);
    assert_eq!(lexer.next_token().unwrap(), Some(Token::ShortFlag('a')));
    lexer.starts_with_program_name(true);
    assert_eq!(lexer.next_token().unwrap(), Some(Token::ShortFlag('b')));
    assert_eq!(lexer.next_token().unwrap(), value_of("c"));
}

#[test]
fn switch_works_while_a_marker_holds_the_scan_at_the_start() {
    let mut lexer = Lexer::from(argv(&["--", "x"]), false);
    assert_eq!(lexer.next_token().unwrap(), None);
    lexer.starts_with_program_name(true);
    assert_eq!(lexer.next_token().unwrap(), value_of("x"));
}

#[test]
fn program_name_alone_leaves_nothing_to_read() {
    let mut lexer = Lexer::from(argv(&["prog"]), true);
    assert!(lexer.finished());
    assert_eq!(lexer.next_token().unwrap(), None);
    lexer.starts_with_program_name(false);
    assert!(!lexer.finished());
    assert_eq!(lexer.next_token().unwrap(), value_of("prog"));
}
