use arglex::{Error, Lexer, Token};

fn message(result: Result<Option<Token>, Error>) -> String {
    match result {
        Ok(token) => panic!("expected a failure, got {:?}", token),
        Err(err) => err.to_string(),
    }
}

#[test]
fn long_flag_with_malformed_name_fails_and_stays() {
    let arg: Vec<u8> = b"--\xffname".to_vec();
    let mut lexer = Lexer::from(vec![arg.clone(), b"x".to_vec()], false);
    let expected = format!(
        "Invalid unicode character(s) in argument {}: {}",
        String::from_utf8_lossy(&arg),
        std::str::from_utf8(&arg[2..]).unwrap_err()
    );
    assert_eq!(message(lexer.next_token()), expected);
    let shown = "Invalid unicode character(s) in argument --\u{fffd}name";
    let detail = "invalid utf-8 sequence of 1 bytes from index 0";
    assert_eq!(expected, format!("{}: {}", shown, detail));
    assert!(!lexer.finished());
    assert_eq!(message(lexer.next_token()), expected);
    assert_eq!(lexer.get_value(), None);
    assert!(!lexer.finished());
}

#[test]
fn failure_of_a_name_speaks_of_the_name_alone() {
    let arg: Vec<u8> = b"--ab\xc3=\xff".to_vec();
    let mut lexer = Lexer::from(vec![arg.clone()], false);
    let expected = format!(
        "Invalid unicode character(s) in argument {}: {}",
        String::from_utf8_lossy(&arg),
        std::str::from_utf8(b"ab\xc3").unwrap_err()
    );
    assert_eq!(message(lexer.next_token()), expected);
    let shown = "Invalid unicode character(s) in argument --ab\u{fffd}=\u{fffd}";
    let detail = "incomplete utf-8 byte sequence from index 2";
    assert_eq!(expected, format!("{}: {}", shown, detail));
    assert!(!lexer.finished());
}

#[test]
fn malformed_value_does_not_fail_the_name() {
    let mut lexer = Lexer::from(vec![b"--name=\xff".to_vec()], false);
    assert_eq!(lexer.next_token().unwrap(), Some(Token::LongFlag("name".to_string())));
    assert_eq!(lexer.get_value(), Some(vec![0xff]));
}

#[test]
fn malformed_letter_in_a_cluster_fails_where_it_stands() {
    let arg: Vec<u8> = b"-a\xffb".to_vec();
    let mut lexer = Lexer::from(vec![arg.clone(), b"x".to_vec()], false);
    assert_eq!(lexer.next_token().unwrap(), Some(Token::ShortFlag('a')));
    let expected = "Invalid unicode character in -a\u{fffd}b".to_string();
    assert_eq!(message(lexer.next_token()), expected);
    assert!(!lexer.finished());
    assert_eq!(message(lexer.next_token()), expected);
    assert_eq!(lexer.get_value(), Some(b"\xffb".to_vec()));
    assert_eq!(lexer.next_token().unwrap(), Some(Token::Value(b"x".to_vec())));
}

#[test]
fn malformed_first_letter_fails_at_once() {
    let mut lexer = Lexer::from(vec![b"-\x80".to_vec()], false);
    assert_eq!(message(lexer.next_token()), "Invalid unicode character in -\u{fffd}");
    assert!(!lexer.finished());
    assert_eq!(lexer.get_value(), None);
}

#[test]
fn cut_off_letter_fails() {
    let mut lexer = Lexer::from(vec![b"-x\xe6\x97".to_vec()], false);
    assert_eq!(lexer.next_token().unwrap(), Some(Token::ShortFlag('x')));
    assert_eq!(message(lexer.next_token()), "Invalid unicode character in -x\u{fffd}");
    assert_eq!(lexer.get_value(), Some(vec![0xe6, 0x97]));
    assert!(lexer.finished());
}

#[test]
fn overlong_and_surrogate_letters_fail() {
    let malformed: [&[u8]; 5] = [
        b"-\xc0\xaf",
        b"-\xe0\x80\xaf",
        b"-\xed\xa0\x80",
        b"-\xf4\x90\x80\x80",
        b"-\xf8\x88\x80\x80\x80",
    ];
    for bad in malformed {
        let mut lexer = Lexer::from(vec![bad.to_vec()], false);
        let expected = format!("Invalid unicode character in {}", String::from_utf8_lossy(bad));
        assert_eq!(message(lexer.next_token()), expected);
        assert!(!lexer.finished());
    }
}

#[test]
fn replacement_character_in_a_cluster_fails() {
    let mut lexer = Lexer::from(vec!["-a\u{fffd}b".as_bytes().to_vec()], false);
    assert_eq!(lexer.next_token().unwrap(), Some(Token::ShortFlag('a')));
    assert_eq!(message(lexer.next_token()), "Invalid unicode character in -a\u{fffd}b");
    assert_eq!(lexer.get_value(), Some("\u{fffd}b".as_bytes().to_vec()));
    assert!(lexer.finished());
}

#[test]
fn replacement_character_in_a_long_name_is_a_name() {
    let mut lexer = Lexer::from(vec!["--a\u{fffd}".as_bytes().to_vec()], false);
    assert_eq!(lexer.next_token().unwrap(), Some(Token::LongFlag("a\u{fffd}".to_string())));
    assert!(lexer.finished());
}

#[test]
fn error_carries_its_message() {
    let err = Error::from("something went wrong".to_string());
    assert_eq!(err.to_string(), "something went wrong");
    let empty = Error::from(String::new());
    assert_eq!(empty.to_string(), "");
}
