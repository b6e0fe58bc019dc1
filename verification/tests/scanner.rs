use rlox::scanner::{try_reserved, CharClass, ParserError, Scanner, Token, TokenType};

fn scan(source: &str) -> Vec<Result<Token, ParserError>> {
    Scanner::new(source).scan_tokens().collect()
}

fn kinds(source: &str) -> Vec<(TokenType, String, usize)> {
    scan(source)
        .into_iter()
        .map(|t| {
            let t = t.expect("a token");
            (t.typ, t.lexeme, t.line)
        })
        .collect()
}

fn tok(typ: TokenType, lexeme: &str, line: usize) -> (TokenType, String, usize) {
    (typ, lexeme.to_string(), line)
}

#[test]
fn scans_single_and_double_character_tokens() {
    assert_eq!(
        kinds("(){},.-+;*/ ! != = == < <= > >="),
        vec![
            tok(TokenType::LeftParen, "(", 0),
            tok(TokenType::RightParen, ")", 0),
            tok(TokenType::LeftBrace, "{", 0),
            tok(TokenType::RightBrace, "}", 0),
            tok(TokenType::Comma, ",", 0),
            tok(TokenType::Dot, ".", 0),
            tok(TokenType::Minus, "-", 0),
            tok(TokenType::Plus, "+", 0),
            tok(TokenType::Semicolon, ";", 0),
            tok(TokenType::Star, "*", 0),
            tok(TokenType::Slash, "/", 0),
            tok(TokenType::Bang, "!", 0),
            tok(TokenType::BangEqual, "!=", 0),
            tok(TokenType::Equal, "=", 0),
            tok(TokenType::EqualEqual, "==", 0),
            tok(TokenType::Less, "<", 0),
            tok(TokenType::LessEqual, "<=", 0),
            tok(TokenType::Greater, ">", 0),
            tok(TokenType::GreaterEqual, ">=", 0),
        ]
    );
}

#[test]
fn scans_numbers_with_and_without_fraction() {
    assert_eq!(
        kinds("12 3.25 4. .5 6.x"),
        vec![
            tok(TokenType::Number, "12", 0),
            tok(TokenType::Number, "3.25", 0),
            tok(TokenType::Number, "4", 0),
            tok(TokenType::Dot, ".", 0),
            tok(TokenType::Dot, ".", 0),
            tok(TokenType::Number, "5", 0),
            tok(TokenType::Number, "6", 0),
            tok(TokenType::Dot, ".", 0),
            tok(TokenType::Identifier, "x", 0),
        ]
    );
}

#[test]
fn scans_keywords_and_identifiers() {
    assert_eq!(
        kinds("and class else false for fun if nil or print return super this true var while whiles t tab"),
        vec![
            tok(TokenType::And, "and", 0),
            tok(TokenType::Class, "class", 0),
            tok(TokenType::Else, "else", 0),
            tok(TokenType::False, "false", 0),
            tok(TokenType::For, "for", 0),
            tok(TokenType::Fun, "fun", 0),
            tok(TokenType::If, "if", 0),
            tok(TokenType::Nil, "nil", 0),
            tok(TokenType::Or, "or", 0),
            tok(TokenType::Print, "print", 0),
            tok(TokenType::Return, "return", 0),
            tok(TokenType::Super, "super", 0),
            tok(TokenType::This, "this", 0),
            tok(TokenType::True, "true", 0),
            tok(TokenType::Var, "var", 0),
            tok(TokenType::While, "while", 0),
            tok(TokenType::Identifier, "whiles", 0),
            tok(TokenType::Identifier, "t", 0),
            tok(TokenType::Identifier, "tab", 0),
        ]
    );
}

#[test]
fn identifiers_may_hold_digits_and_letters_of_any_script() {
    assert_eq!(
        kinds("a1 été x2y"),
        vec![
            tok(TokenType::Identifier, "a1", 0),
            tok(TokenType::Identifier, "été", 0),
            tok(TokenType::Identifier, "x2y", 0),
        ]
    );
}

#[test]
fn strings_exclude_their_quotes_and_may_span_lines() {
    assert_eq!(
        kinds("\"hi\" \"\" \"a\nb\" x"),
        vec![
            tok(TokenType::String, "hi", 0),
            tok(TokenType::String, "", 0),
            tok(TokenType::String, "a\nb", 1),
            tok(TokenType::Identifier, "x", 1),
        ]
    );
}

#[test]
fn comments_are_tokens_that_end_with_the_line() {
    assert_eq!(
        kinds("1 // one\n2 //"),
        vec![
            tok(TokenType::Number, "1", 0),
            tok(TokenType::Comment, "// one", 0),
            tok(TokenType::Number, "2", 1),
            tok(TokenType::Comment, "//", 1),
        ]
    );
}

#[test]
fn blanks_separate_and_line_ends_count() {
    assert_eq!(
        kinds(" a\t\r\nb\n\n c"),
        vec![
            tok(TokenType::Identifier, "a", 0),
            tok(TokenType::Identifier, "b", 1),
            tok(TokenType::Identifier, "c", 3),
        ]
    );
    assert_eq!(kinds(""), vec![]);
    assert_eq!(kinds(" \n\t "), vec![]);
}

#[test]
fn unterminated_string_is_reported() {
    let found = scan("1 \"abc\nd");
    assert_eq!(found.len(), 2);
    match &found[1] {
        Err(ParserError::UnterminatedString { line, loc, msg }) => {
            assert_eq!(*line, 1);
            assert_eq!(loc, "\"abc\nd");
            assert_eq!(msg, "Unterminated string");
        }
        other => panic!("unexpected {:?}", other),
    }
    assert_eq!(
        found[1].as_ref().unwrap_err().message(),
        "[line 1] Error \"abc\nd: Unterminated string"
    );
}

#[test]
fn unexpected_character_is_reported_and_scanning_goes_on() {
    let found = scan("a\n_ b");
    assert_eq!(found.len(), 3);
    match &found[1] {
        Err(ParserError::UnexpectedToken { line, loc, msg }) => {
            assert_eq!(*line, 1);
            assert_eq!(loc, "_");
            assert_eq!(msg, "Unexpected token");
        }
        other => panic!("unexpected {:?}", other),
    }
    assert_eq!(found[1].as_ref().unwrap_err().message(), "[line 1] Error _: Unexpected token");
    assert_eq!(found[2].as_ref().unwrap().lexeme, "b");
}

#[test]
fn next_reads_one_token_at_a_time() {
    let scanner = Scanner::new("a + 1");
    let mut tokens = scanner.scan_tokens();
    assert!(!tokens.is_at_end());
    assert_eq!(tokens.next().unwrap().unwrap().typ, TokenType::Identifier);
    assert_eq!(tokens.next().unwrap().unwrap().typ, TokenType::Plus);
    assert_eq!(tokens.next().unwrap().unwrap().typ, TokenType::Number);
    assert!(tokens.is_at_end());
    assert!(tokens.next().is_none());
    assert!(tokens.next().is_none());
}

#[test]
fn cursor_moves_by_characters_read() {
    let scanner = Scanner::new("ab\"c");
    let mut tokens = scanner.scan_tokens();
    assert_eq!(tokens.advance(), Some('a'));
    assert!(!tokens.matches('x'));
    assert!(tokens.matches('b'));
    assert_eq!(tokens.next_if(CharClass::NotQuote), None);
    assert_eq!(tokens.next_if(CharClass::NotNewline), Some('"'));
    assert_eq!(tokens.next_if(CharClass::Digit), None);
    assert_eq!(tokens.next_if(CharClass::AlphaNumeric), Some('c'));
    assert_eq!(tokens.advance(), None);
    assert_eq!(tokens.cursor, 4);
}

#[test]
fn reserved_words_are_recognised_exactly() {
    assert_eq!(try_reserved("and"), Some(TokenType::And));
    assert_eq!(try_reserved("class"), Some(TokenType::Class));
    assert_eq!(try_reserved("else"), Some(TokenType::Else));
    assert_eq!(try_reserved("false"), Some(TokenType::False));
    assert_eq!(try_reserved("for"), Some(TokenType::For));
    assert_eq!(try_reserved("fun"), Some(TokenType::Fun));
    assert_eq!(try_reserved("if"), Some(TokenType::If));
    assert_eq!(try_reserved("nil"), Some(TokenType::Nil));
    assert_eq!(try_reserved("or"), Some(TokenType::Or));
    assert_eq!(try_reserved("print"), Some(TokenType::Print));
    assert_eq!(try_reserved("return"), Some(TokenType::Return));
    assert_eq!(try_reserved("super"), Some(TokenType::Super));
    assert_eq!(try_reserved("this"), Some(TokenType::This));
    assert_eq!(try_reserved("true"), Some(TokenType::True));
    assert_eq!(try_reserved("var"), Some(TokenType::Var));
    assert_eq!(try_reserved("while"), Some(TokenType::While));
    assert_eq!(try_reserved("While"), None);
    assert_eq!(try_reserved("an"), None);
    assert_eq!(try_reserved(""), None);
}

#[test]
fn token_keeps_what_it_is_made_of() {
    let token = Token::new(TokenType::Plus, "+", 3);
    assert_eq!(token.typ, TokenType::Plus);
    assert_eq!(token.lexeme, "+");
    assert_eq!(token.line, 3);
    let copy = token.clone();
    assert_eq!(copy.lexeme, "+");
}
