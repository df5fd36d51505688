use solver::tokenizer::{tokenize, LexError, Operator, Sym, Token};

fn name(s: &str) -> Token {
    Token::Var(s.to_string())
}

#[test]
fn empty_text_has_no_tokens() {
    assert_eq!(tokenize(b""), Ok(vec![]));
    assert_eq!(tokenize(b" \t\n\x0c\r"), Ok(vec![]));
}

#[test]
fn integer_literals_run_as_far_as_digits_go() {
    assert_eq!(tokenize(b"7"), Ok(vec![Token::Int(7)]));
    assert_eq!(tokenize(b"1024"), Ok(vec![Token::Int(1024)]));
    assert_eq!(tokenize(b"90 8"), Ok(vec![Token::Int(90), Token::Int(8)]));
}

#[test]
fn a_literal_ends_where_a_name_starts() {
    assert_eq!(tokenize(b"12abc"), Ok(vec![Token::Int(12), name("abc")]));
}

#[test]
fn the_largest_integer_is_a_literal() {
    let text = isize::MAX.to_string();
    assert_eq!(tokenize(text.as_bytes()), Ok(vec![Token::Int(isize::MAX)]));
}

#[test]
fn a_literal_beyond_the_largest_integer_is_too_large() {
    let mut text = String::from("1 + ");
    text.push_str(&isize::MAX.to_string());
    text.push('0');
    assert_eq!(
        tokenize(text.as_bytes()),
        Err(LexError::IntegerTooLarge { position: 4 })
    );
    let next = (isize::MAX as u128 + 1).to_string();
    assert_eq!(
        tokenize(next.as_bytes()),
        Err(LexError::IntegerTooLarge { position: 0 })
    );
}

#[test]
fn a_leading_zero_starts_no_token() {
    assert_eq!(
        tokenize(b"0"),
        Err(LexError::UnexpectedByte { position: 0, byte: b'0' })
    );
    assert_eq!(
        tokenize(b"1 + 05"),
        Err(LexError::UnexpectedByte { position: 4, byte: b'0' })
    );
}

#[test]
fn keywords_and_truth_values() {
    assert_eq!(
        tokenize(b"if then else true false let in"),
        Ok(vec![
            Token::If,
            Token::Then,
            Token::Else,
            Token::Bool(true),
            Token::Bool(false),
            Token::Let,
            Token::In
        ])
    );
}

#[test]
fn a_keyword_inside_a_longer_word_is_a_name() {
    assert_eq!(tokenize(b"iffy"), Ok(vec![name("iffy")]));
    assert_eq!(tokenize(b"thence"), Ok(vec![name("thence")]));
    assert_eq!(tokenize(b"elsewhere"), Ok(vec![name("elsewhere")]));
    assert_eq!(tokenize(b"truely"), Ok(vec![name("truely")]));
    assert_eq!(tokenize(b"falsehood"), Ok(vec![name("falsehood")]));
    assert_eq!(tokenize(b"letter"), Ok(vec![name("letter")]));
    assert_eq!(tokenize(b"int"), Ok(vec![name("int")]));
    assert_eq!(tokenize(b"in1"), Ok(vec![name("in1")]));
    assert_eq!(tokenize(b"if_"), Ok(vec![name("if_")]));
    assert_eq!(tokenize(b"i"), Ok(vec![name("i")]));
}

#[test]
fn a_keyword_before_a_sign_is_a_keyword() {
    assert_eq!(
        tokenize(b"if(x)then"),
        Ok(vec![
            Token::If,
            Token::Sym(Sym::LParen),
            name("x"),
            Token::Sym(Sym::RParen),
            Token::Then
        ])
    );
}

#[test]
fn names_hold_letters_digits_underscores_and_apostrophes() {
    assert_eq!(tokenize(b"x"), Ok(vec![name("x")]));
    assert_eq!(tokenize(b"_tmp"), Ok(vec![name("_tmp")]));
    assert_eq!(tokenize(b"x'"), Ok(vec![name("x'")]));
    assert_eq!(tokenize(b"aB9_'z"), Ok(vec![name("aB9_'z")]));
    assert_eq!(tokenize(b"x y"), Ok(vec![name("x"), name("y")]));
}

#[test]
fn a_capital_letter_starts_no_token() {
    assert_eq!(
        tokenize(b"Xy"),
        Err(LexError::UnexpectedByte { position: 0, byte: b'X' })
    );
    assert_eq!(
        tokenize(b"'a"),
        Err(LexError::UnexpectedByte { position: 0, byte: b'\'' })
    );
}

#[test]
fn operators_and_punctuation() {
    assert_eq!(
        tokenize(b"+-*<=(),"),
        Ok(vec![
            Token::Op(Operator::Plus),
            Token::Op(Operator::Minus),
            Token::Op(Operator::Mul),
            Token::Op(Operator::LessThan),
            Token::Op(Operator::Equal),
            Token::Sym(Sym::LParen),
            Token::Sym(Sym::RParen),
            Token::Sym(Sym::Comma)
        ])
    );
}

#[test]
fn an_at_sign_is_a_lexical_error() {
    assert_eq!(
        tokenize(b"1 @ 2"),
        Err(LexError::UnexpectedByte { position: 2, byte: b'@' })
    );
}

#[test]
fn the_first_unexpected_byte_is_reported() {
    assert_eq!(
        tokenize(b"x = 1 # y $"),
        Err(LexError::UnexpectedByte { position: 6, byte: b'#' })
    );
    assert_eq!(
        tokenize(b"a |- b"),
        Err(LexError::UnexpectedByte { position: 2, byte: b'|' })
    );
    assert_eq!(
        tokenize(&[b'a', 0xc3, 0xa9]),
        Err(LexError::UnexpectedByte { position: 1, byte: 0xc3 })
    );
}

#[test]
fn a_whole_judgement() {
    assert_eq!(
        tokenize(b"x = 10, y = true if x then y + 1 else y - 1"),
        Ok(vec![
            name("x"),
            Token::Op(Operator::Equal),
            Token::Int(10),
            Token::Sym(Sym::Comma),
            name("y"),
            Token::Op(Operator::Equal),
            Token::Bool(true),
            Token::If,
            name("x"),
            Token::Then,
            name("y"),
            Token::Op(Operator::Plus),
            Token::Int(1),
            Token::Else,
            name("y"),
            Token::Op(Operator::Minus),
            Token::Int(1)
        ])
    );
}

#[test]
fn tokens_can_be_cloned() {
    let t = name("x");
    assert_eq!(t.clone(), t);
    assert_eq!(Token::Int(3).clone(), Token::Int(3));
    assert_eq!(Token::If.clone(), Token::If);
}

#[test]
fn tokens_as_text() {
    let texts = [
        (Token::Int(12), "12"),
        (Token::Int(-3), "-3"),
        (Token::Bool(true), "true"),
        (Token::Bool(false), "false"),
        (Token::Op(Operator::Plus), "+"),
        (Token::Op(Operator::Minus), "-"),
        (Token::Op(Operator::Mul), "*"),
        (Token::Op(Operator::LessThan), "<"),
        (Token::Op(Operator::Equal), "="),
        (Token::Sym(Sym::LParen), "("),
        (Token::Sym(Sym::RParen), ")"),
        (Token::Sym(Sym::Comma), ","),
        (Token::If, "if"),
        (Token::Then, "then"),
        (Token::Else, "else"),
        (name("x'"), "x'"),
        (Token::Let, "let"),
        (Token::In, "in"),
    ];
    for (token, text) in texts {
        assert_eq!(token.to_text(), text);
    }
    let mut buf = String::from("found ");
    Token::Then.write_to(&mut buf);
    assert_eq!(buf, "found then");
}

#[test]
fn lexical_errors_say_what_and_where() {
    assert_eq!(
        tokenize(b"1 @ 2").unwrap_err().message(),
        "unexpected byte 64 at position 2"
    );
    assert_eq!(
        LexError::UnexpectedByte { position: 0, byte: 255 }.message(),
        "unexpected byte 255 at position 0"
    );
    assert_eq!(
        LexError::IntegerTooLarge { position: 17 }.message(),
        "integer literal at position 17 is too large"
    );
    assert_eq!(
        LexError::IntegerTooLarge { position: usize::MAX }.message(),
        format!("integer literal at position {} is too large", usize::MAX)
    );
}

#[test]
fn an_integer_written_in_decimal_reads_back() {
    for n in [1isize, 9, 10, 99, 100, 4096, 1234567890, isize::MAX] {
        let text = Token::Int(n).to_text();
        assert_eq!(tokenize(text.as_bytes()), Ok(vec![Token::Int(n)]));
    }
}
