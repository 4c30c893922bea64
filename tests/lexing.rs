use minilang::{lex, LexError, Stream, TokenClass};

fn classes(mut stream: Stream) -> Vec<TokenClass> {
    let mut out = Vec::new();
    while let Some(token) = stream.pop() {
        out.push(token.data);
    }
    out
}

fn lex_classes(src: &str) -> Vec<TokenClass> {
    classes(lex(&src.to_string()).expect("lexes"))
}

fn ident(s: &str) -> TokenClass {
    TokenClass::Identifier(s.to_string())
}

fn op(s: &str) -> TokenClass {
    TokenClass::Operator(s.to_string())
}

#[test]
fn lex_definition_statement() {
    assert_eq!(
        lex_classes("x := 1 + 22;\n"),
        vec![
            ident("x"),
            TokenClass::Define,
            TokenClass::Integer(1),
            op("+"),
            TokenClass::Integer(22),
            TokenClass::EndOfStatement,
        ]
    );
}

#[test]
fn lex_brackets_are_single_tokens() {
    assert_eq!(
        lex_classes("(()){}[]\n"),
        vec![
            TokenClass::ParenOpen,
            TokenClass::ParenOpen,
            TokenClass::ParenClose,
            TokenClass::ParenClose,
            TokenClass::CurlyOpen,
            TokenClass::CurlyClose,
            TokenClass::BracketOpen,
            TokenClass::BracketClose,
        ]
    );
}

#[test]
fn lex_keywords_and_identifiers() {
    assert_eq!(
        lex_classes("fun while if elif else import for return value\n"),
        vec![
            TokenClass::Keyword("fun".to_string()),
            TokenClass::Keyword("while".to_string()),
            TokenClass::Keyword("if".to_string()),
            TokenClass::Keyword("elif".to_string()),
            TokenClass::Keyword("else".to_string()),
            TokenClass::Keyword("import".to_string()),
            TokenClass::Keyword("for".to_string()),
            TokenClass::Keyword("return".to_string()),
            ident("value"),
        ]
    );
}

#[test]
fn lex_non_ascii_letters_are_alphabetic() {
    assert_eq!(lex_classes("été;\n"), vec![ident("été"), TokenClass::EndOfStatement]);
}

#[test]
fn lex_comment_runs_to_end_of_line() {
    let mut stream = lex(&"a // b c := 1\nd\n".to_string()).unwrap();
    let first = stream.pop().unwrap();
    assert_eq!(first.data, ident("a"));
    assert_eq!(first.line_index, 1);
    let second = stream.pop().unwrap();
    assert_eq!(second.data, ident("d"));
    assert_eq!(second.line_index, 2);
    assert!(stream.pop().is_none());
}

#[test]
fn lex_string_keeps_spaces_and_symbols() {
    assert_eq!(
        lex_classes("\"a b + c\";\n"),
        vec![TokenClass::String("a b + c".to_string()), TokenClass::EndOfStatement]
    );
}

#[test]
fn lex_string_escape_sequences() {
    assert_eq!(
        lex_classes("\"x\\ty\\nz\";\n"),
        vec![TokenClass::String("x\ty\nz".to_string()), TokenClass::EndOfStatement]
    );
}

#[test]
fn lex_empty_string() {
    assert_eq!(
        lex_classes("\"\";\n"),
        vec![TokenClass::String(String::new()), TokenClass::EndOfStatement]
    );
}

#[test]
fn lex_numbers() {
    assert_eq!(
        lex_classes("1.5 .5 7. 18446744073709551615 18446744073709551616\n"),
        vec![
            TokenClass::Float("1.5".to_string()),
            TokenClass::Float(".5".to_string()),
            TokenClass::Float("7.".to_string()),
            TokenClass::Integer(u64::MAX),
            TokenClass::Float("18446744073709551616".to_string()),
        ]
    );
}

#[test]
fn lex_symbols() {
    assert_eq!(
        lex_classes("a = b; c += d , e :: f >= g && h\n"),
        vec![
            ident("a"),
            TokenClass::Assign,
            ident("b"),
            TokenClass::EndOfStatement,
            ident("c"),
            TokenClass::AssignOp("+=".to_string()),
            ident("d"),
            TokenClass::Comma,
            ident("e"),
            TokenClass::Namespace,
            ident("f"),
            op(">="),
            ident("g"),
            op("&&"),
            ident("h"),
        ]
    );
}

#[test]
fn lex_bad_number() {
    match lex(&"x := 1.2.3;\n".to_string()) {
        Err(LexError::BadNumber { text, line }) => {
            assert_eq!(text, "1.2.3");
            assert_eq!(line, 1);
        }
        other => panic!("unexpected {:?}", other.map(|_| ())),
    }
}

#[test]
fn lex_bad_symbol() {
    match lex(&"\nx != y\n".to_string()) {
        Err(LexError::BadSymbol { text, line }) => {
            assert_eq!(text, "!=");
            assert_eq!(line, 2);
        }
        other => panic!("unexpected {:?}", other.map(|_| ())),
    }
}

#[test]
fn lex_end_of_text_ends_the_last_token() {
    assert_eq!(lex_classes("x"), vec![ident("x")]);
    assert_eq!(lex_classes("x "), vec![ident("x")]);
    assert_eq!(
        lex_classes("x := 1;"),
        vec![ident("x"), TokenClass::Define, TokenClass::Integer(1), TokenClass::EndOfStatement]
    );
    assert_eq!(lex_classes("\"a b\""), vec![TokenClass::String("a b".to_string())]);
    assert_eq!(lex_classes("x // note"), vec![ident("x")]);
    assert_eq!(lex_classes("x //"), vec![ident("x")]);
}

#[test]
fn lex_bad_symbol_at_end_of_text() {
    assert!(matches!(lex(&"x $".to_string()), Err(LexError::BadSymbol { .. })));
}

#[test]
fn stream_cursor_operations() {
    let mut stream = lex(&"a ( b\n".to_string()).unwrap();
    assert_eq!(stream.lookhead(1), Some(&TokenClass::ParenOpen));
    assert_eq!(stream.lookhead(3), None);
    assert_eq!(stream.peek().unwrap().data, ident("a"));
    stream.maybe(TokenClass::Comma);
    assert_eq!(stream.peek().unwrap().data, ident("a"));
    stream.maybe(ident("a"));
    assert!(stream.expect(TokenClass::ParenOpen).is_ok());
    let err = stream.expect(TokenClass::ParenClose).unwrap_err();
    assert_eq!(err.line, 1);
    assert!(stream.peek().is_none());
    assert!(stream.expect(TokenClass::Comma).is_err());
    stream.next();
    assert!(stream.pop().is_none());
}
