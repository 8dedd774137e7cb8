use texlex::errors::ErrorKind;
use texlex::tokenize::{Token, Tokens};

#[test]
fn simple() {
    let input = "{ab}".as_bytes();
    let tokens = Tokens::new(input);
    let output = tokens.collect().unwrap();
    assert_eq!(
        output,
        vec![
            Token::BeginGroup,
            Token::Char('a'),
            Token::Char('b'),
            Token::EndGroup,
        ]
    );
}

#[test]
fn command() {
    let input = "\\abc".as_bytes();
    let tokens = Tokens::new(input);
    let output = tokens.collect().unwrap();
    assert_eq!(output, vec![Token::Command(String::from("abc"))]);
}

#[test]
fn verbatim() {
    let input = "\\verbatim!a\\b!".as_bytes();
    let tokens = Tokens::new(input);
    let output = tokens.collect().unwrap();
    assert_eq!(output, vec![Token::Verbatim(String::from("a\\b"))]);
}

#[test]
fn verbatim_unclosed() {
    let input = "\\verbatim!a\\b".as_bytes();
    let tokens = Tokens::new(input);
    let output = tokens.collect().unwrap_err();
    assert_eq!(output.kind(), ErrorKind::UnclosedVerbatim(1, 9));
}

#[test]
fn verbatim_escape() {
    let input = "\\verbatim!a!!b!".as_bytes();
    let tokens = Tokens::new(input);
    let output = tokens.collect().unwrap();
    assert_eq!(output, vec![Token::Verbatim(String::from("a!b"))]);
}

#[test]
fn invalid_unicode() {
    let input: &[u8] = b"a\xff";
    let tokens = Tokens::new(input);
    let output = tokens.collect().unwrap_err();
    assert_eq!(output.kind(), ErrorKind::Unicode(1));
}

fn lex(input: &[u8]) -> Vec<Token> {
    Tokens::new(input).collect().unwrap()
}

fn lex_err(input: &[u8]) -> ErrorKind {
    Tokens::new(input).collect().unwrap_err().kind()
}

fn command_token(name: &str) -> Token {
    Token::Command(String::from(name))
}

fn verbatim_token(text: &str) -> Token {
    Token::Verbatim(String::from(text))
}

#[test]
fn empty_input_has_no_tokens() {
    assert_eq!(lex(b""), vec![]);
}

#[test]
fn escaped_backslash_and_braces_are_characters() {
    assert_eq!(
        lex("\\\\\\{\\}".as_bytes()),
        vec![Token::Char('\\'), Token::Char('{'), Token::Char('}')]
    );
}

#[test]
fn single_symbol_is_a_command_of_its_own() {
    assert_eq!(
        lex("\\!\\!".as_bytes()),
        vec![command_token("!"), command_token("!")]
    );
    assert_eq!(lex("\\ x".as_bytes()), vec![command_token(" "), Token::Char('x')]);
}

#[test]
fn backslash_before_a_line_break_is_a_newline_command() {
    assert_eq!(
        lex("\\\nab".as_bytes()),
        vec![command_token("\n"), Token::Char('a'), Token::Char('b')]
    );
}

#[test]
fn command_takes_the_whole_identifier_and_nothing_more() {
    assert_eq!(
        lex("\\abc!d".as_bytes()),
        vec![command_token("abc"), Token::Char('!'), Token::Char('d')]
    );
    assert_eq!(
        lex("\\ab1 2".as_bytes()),
        vec![command_token("ab1"), Token::Char(' '), Token::Char('2')]
    );
    assert_eq!(
        lex("\\a{b}".as_bytes()),
        vec![
            command_token("a"),
            Token::BeginGroup,
            Token::Char('b'),
            Token::EndGroup
        ]
    );
    assert_eq!(lex("\\a\\b".as_bytes()), vec![command_token("a"), command_token("b")]);
}

#[test]
fn identifier_ends_with_its_line() {
    assert_eq!(
        lex("\\ab\ncd".as_bytes()),
        vec![
            command_token("ab"),
            Token::Char('\n'),
            Token::Char('c'),
            Token::Char('d')
        ]
    );
}

#[test]
fn identifier_may_hold_letters_and_digits_beyond_ascii() {
    assert_eq!(
        lex("\\éß٣ x".as_bytes()),
        vec![command_token("éß٣"), Token::Char(' '), Token::Char('x')]
    );
    assert_eq!(lex("\\€".as_bytes()), vec![command_token("€")]);
    assert_eq!(lex("\\_a".as_bytes()), vec![command_token("_"), Token::Char('a')]);
}

#[test]
fn words_around_verbatim_are_commands() {
    assert_eq!(lex("\\verb".as_bytes()), vec![command_token("verb")]);
    assert_eq!(lex("\\verbatimx!a!".as_bytes()), vec![
        command_token("verbatimx"),
        Token::Char('!'),
        Token::Char('a'),
        Token::Char('!'),
    ]);
    assert_eq!(lex("\\Verbatim".as_bytes()), vec![command_token("Verbatim")]);
    assert_eq!(lex("\\verbatin".as_bytes()), vec![command_token("verbatin")]);
}

#[test]
fn backslash_at_the_end_is_an_error() {
    assert_eq!(lex_err("\\".as_bytes()), ErrorKind::EndOfInput);
    assert_eq!(lex_err("ab\\".as_bytes()), ErrorKind::EndOfInput);
}

#[test]
fn verbatim_without_a_delimiter_is_an_error() {
    assert_eq!(lex_err("\\verbatim".as_bytes()), ErrorKind::EndOfInput);
}

#[test]
fn empty_verbatim() {
    assert_eq!(lex("\\verbatim||".as_bytes()), vec![verbatim_token("")]);
}

#[test]
fn verbatim_keeps_braces_and_backslashes() {
    assert_eq!(
        lex("\\verbatim|{\\x}\\\\|".as_bytes()),
        vec![verbatim_token("{\\x}\\\\")]
    );
}

#[test]
fn verbatim_is_followed_by_ordinary_tokens() {
    assert_eq!(
        lex("a\\verbatim|x|{\\b".as_bytes()),
        vec![
            Token::Char('a'),
            verbatim_token("x"),
            Token::BeginGroup,
            command_token("b")
        ]
    );
}

#[test]
fn verbatim_may_span_lines() {
    assert_eq!(
        lex("\\verbatim|a\nb\n|c".as_bytes()),
        vec![verbatim_token("a\nb\n"), Token::Char('c')]
    );
}

#[test]
fn doubled_delimiters_collapse_one_pair_at_a_time() {
    assert_eq!(lex("\\verbatim!!!!".as_bytes()), vec![verbatim_token("!")]);
    assert_eq!(lex("\\verbatim!!!!!!".as_bytes()), vec![verbatim_token("!!")]);
    assert_eq!(lex("\\verbatim!a!!!!b!".as_bytes()), vec![verbatim_token("a!!b")]);
    assert_eq!(
        lex("\\verbatim!a!!!b".as_bytes()),
        vec![verbatim_token("a!"), Token::Char('b')]
    );
}

#[test]
fn delimiter_at_the_end_of_a_line_closes_the_span() {
    assert_eq!(
        lex("\\verbatim!a!\n!b".as_bytes()),
        vec![
            verbatim_token("a"),
            Token::Char('\n'),
            Token::Char('!'),
            Token::Char('b')
        ]
    );
}

#[test]
fn delimiter_may_be_a_backslash_or_a_brace() {
    assert_eq!(lex("\\verbatim\\a{b\\".as_bytes()), vec![verbatim_token("a{b")]);
    assert_eq!(lex("\\verbatim{a}{".as_bytes()), vec![verbatim_token("a}")]);
}

#[test]
fn newline_as_delimiter_cannot_be_doubled() {
    assert_eq!(
        lex("\\verbatim\nab\n\ncd".as_bytes()),
        vec![
            verbatim_token("ab"),
            Token::Char('\n'),
            Token::Char('c'),
            Token::Char('d')
        ]
    );
}

#[test]
fn delimiter_may_stand_on_the_next_line() {
    assert_eq!(lex_err("\\verbatim".as_bytes()), ErrorKind::EndOfInput);
    assert_eq!(lex("\\verbatim\n\n".as_bytes()), vec![verbatim_token("")]);
}

#[test]
fn unclosed_verbatim_reports_where_it_began() {
    assert_eq!(lex_err("\\verbatim!".as_bytes()), ErrorKind::UnclosedVerbatim(1, 9));
    assert_eq!(
        lex_err("ab\n\n  \\verbatim|x\ny\nz".as_bytes()),
        ErrorKind::UnclosedVerbatim(3, 11)
    );
    assert_eq!(
        lex_err("\\verbatim!a!!".as_bytes()),
        ErrorKind::UnclosedVerbatim(1, 9)
    );
}

#[test]
fn invalid_line_inside_a_verbatim_span_is_reported() {
    assert_eq!(lex_err(b"\\verbatim!a\n\xff!"), ErrorKind::Unicode(2));
}

#[test]
fn invalid_line_after_plain_lines_reports_its_number() {
    assert_eq!(lex_err(b"ab\n{c}\n\n\xc3\x28\n"), ErrorKind::Unicode(4));
}

#[test]
fn tokens_before_an_error_are_still_handed_out() {
    let mut tokens = Tokens::new(b"a\n\xff");
    assert_eq!(tokens.next_res().unwrap(), Some(Token::Char('a')));
    assert_eq!(tokens.next_res().unwrap(), Some(Token::Char('\n')));
    assert_eq!(tokens.next_res().unwrap_err().kind(), ErrorKind::Unicode(2));
}

#[test]
fn stream_is_exhausted_after_an_error() {
    let mut tokens = Tokens::new(b"\xff\nab");
    assert_eq!(tokens.next_res().unwrap_err().kind(), ErrorKind::Unicode(1));
    assert_eq!(tokens.next_res().unwrap(), None);
    assert_eq!(tokens.next_res().unwrap(), None);

    let mut tokens = Tokens::new("a\\".as_bytes());
    assert_eq!(tokens.next_res().unwrap(), Some(Token::Char('a')));
    assert_eq!(tokens.next_res().unwrap_err().kind(), ErrorKind::EndOfInput);
    assert_eq!(tokens.next_res().unwrap(), None);

    let mut tokens = Tokens::new("\\verbatim!a".as_bytes());
    assert_eq!(
        tokens.next_res().unwrap_err().kind(),
        ErrorKind::UnclosedVerbatim(1, 9)
    );
    assert_eq!(tokens.next_res().unwrap(), None);
}

#[test]
fn stream_stays_at_its_end() {
    let mut tokens = Tokens::new("a".as_bytes());
    assert_eq!(tokens.next_res().unwrap(), Some(Token::Char('a')));
    assert_eq!(tokens.next_res().unwrap(), None);
    assert_eq!(tokens.next_res().unwrap(), None);
}

#[test]
fn next_yields_tokens_then_none() {
    let mut tokens = Tokens::new("{\\a".as_bytes());
    assert_eq!(tokens.next().map(|r| r.unwrap()), Some(Token::BeginGroup));
    assert_eq!(tokens.next().map(|r| r.unwrap()), Some(command_token("a")));
    assert!(tokens.next().is_none());
}

#[test]
fn next_yields_an_error_as_an_item() {
    let mut tokens = Tokens::new("\\".as_bytes());
    let item = tokens.next().unwrap();
    assert_eq!(item.unwrap_err().kind(), ErrorKind::EndOfInput);
    assert!(tokens.next().is_none());
}

#[test]
fn tokenize_lexes_a_whole_input() {
    let output = texlex::tokenize::tokenize("{\\it a}\\verbatim+x++y+\n".as_bytes()).unwrap();
    assert_eq!(
        output,
        vec![
            Token::BeginGroup,
            command_token("it"),
            Token::Char(' '),
            Token::Char('a'),
            Token::EndGroup,
            verbatim_token("x+y"),
            Token::Char('\n'),
        ]
    );
    let err = texlex::tokenize::tokenize(b"{\\it \xff}").unwrap_err();
    assert_eq!(err.kind(), ErrorKind::Unicode(1));
}

#[test]
fn parser_is_built_over_a_source() {
    let parser = texlex::parser::Parser::new("{a}".as_bytes());
    assert!(format!("{:?}", parser).contains("Parser"));
}

#[test]
fn failed_read_comes_after_the_tokens_before_it() {
    let mut tokens = Tokens::with_failure("{a\n".as_bytes(), false);
    assert_eq!(tokens.next_res().unwrap(), Some(Token::BeginGroup));
    assert_eq!(tokens.next_res().unwrap(), Some(Token::Char('a')));
    assert_eq!(tokens.next_res().unwrap(), Some(Token::Char('\n')));
    assert_eq!(tokens.next_res().unwrap_err().kind(), ErrorKind::Io(2));
    assert_eq!(tokens.next_res().unwrap(), None);
}

#[test]
fn failed_read_inside_a_token_is_the_token_s_error() {
    let err = Tokens::with_failure("\\".as_bytes(), false).collect().unwrap_err();
    assert_eq!(err.kind(), ErrorKind::Io(2));
    let err = Tokens::with_failure("\\verbatim".as_bytes(), false).collect().unwrap_err();
    assert_eq!(err.kind(), ErrorKind::Io(2));
    let err = Tokens::with_failure("\\verbatim!ab\ncd\n".as_bytes(), false)
        .collect()
        .unwrap_err();
    assert_eq!(err.kind(), ErrorKind::Io(3));
    let err = Tokens::with_failure("\\verbatim!ab\ncd\n".as_bytes(), true)
        .collect()
        .unwrap_err();
    assert_eq!(err.kind(), ErrorKind::Unicode(3));
}

#[test]
fn identifier_does_not_wait_for_a_failed_read() {
    let mut tokens = Tokens::with_failure("\\ab".as_bytes(), false);
    assert_eq!(tokens.next_res().unwrap(), Some(command_token("ab")));
    assert_eq!(tokens.next_res().unwrap_err().kind(), ErrorKind::Io(2));
}

#[test]
fn ascii_identifier_characters_are_the_letters_and_digits() {
    for byte in 0u8..128 {
        let c = char::from(byte);
        let input = format!("\\a{}.", c);
        let mut expected = if c.is_ascii_alphanumeric() {
            vec![Token::Command(format!("a{}", c))]
        } else if c == '\\' {
            vec![command_token("a"), command_token(".")]
        } else if c == '{' {
            vec![command_token("a"), Token::BeginGroup]
        } else if c == '}' {
            vec![command_token("a"), Token::EndGroup]
        } else {
            vec![command_token("a"), Token::Char(c)]
        };
        if c != '\\' {
            expected.push(Token::Char('.'));
        }
        assert_eq!(lex(input.as_bytes()), expected);
    }
}
