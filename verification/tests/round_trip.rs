use arglex::{Lexer, Token};

/// Asks for every token and, after each flag, for its value, and writes all
/// of it out one piece behind the other.
fn gather(mut lexer: Lexer) -> Vec<u8> {
    let mut written: Vec<u8> = Vec::new();
    while let Some(token) = lexer.next_token().unwrap() {
        match token.flag_text() {
            Some(text) => {
                written.extend_from_slice(text.as_bytes());
                if let Some(value) = lexer.get_value() {
                    written.extend_from_slice(&value);
                }
            }
            None => match token {
                Token::Value(raw) => written.extend_from_slice(&raw),
                other => panic!("a flag without text: {:?}", other),
            },
        }
    }
    assert!(lexer.finished());
    written
}

#[test]
fn pieces_give_back_the_arguments() {
    let given: Vec<Vec<u8>> = vec![
        b"plain".to_vec(),
        b"-xyz".to_vec(),
        b"--long".to_vec(),
        b"tail\xff".to_vec(),
        b"-q".to_vec(),
        b"--last".to_vec(),
    ];
    let expected: Vec<u8> = given.concat();
    assert_eq!(gather(Lexer::from(given, false)), expected);
}

#[test]
fn pieces_leave_out_the_separators_that_were_passed() {
    let given: Vec<Vec<u8>> = vec![
        b"prog".to_vec(),
        b"-a=1".to_vec(),
        b"--name=val=ue".to_vec(),
        b"k=v".to_vec(),
        b"-b=".to_vec(),
        b"--=c".to_vec(),
        "-\u{e9}=\u{e8}".as_bytes().to_vec(),
        b"--empty=".to_vec(),
    ];
    let expected: Vec<u8> = "-a1--nameval=uek=v-b--=c-\u{e9}\u{e8}--empty".as_bytes().to_vec();
    assert_eq!(gather(Lexer::from(given, true)), expected);
}

#[test]
fn marker_cuts_the_round_trip_short() {
    let mut lexer = Lexer::from(vec![b"a".to_vec(), b"--".to_vec(), b"b".to_vec()], false);
    assert_eq!(lexer.next_token().unwrap(), Some(Token::Value(b"a".to_vec())));
    assert_eq!(lexer.next_token().unwrap(), None);
    assert!(!lexer.finished());
}
