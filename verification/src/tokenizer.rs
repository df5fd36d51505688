//! The lexer: bytes of source text to a flat sequence of tokens.

use crate::text::{decimal, decimal_nat, push_char, write_int, write_usize, DIGIT_0};
use vstd::prelude::*;
use vstd::string::StringExecFns;

verus! {

/// The operator signs.
#[derive(Debug, Clone, Copy, PartialEq, Eq, Structural)]
pub enum Operator {
    Plus,
    Minus,
    Mul,
    LessThan,
    Equal,
}

/// The punctuation signs.
#[derive(Debug, Clone, Copy, PartialEq, Eq, Structural)]
pub enum Sym {
    LParen,
    RParen,
    Comma,
}

/// A token of the source text.
#[derive(Debug, PartialEq, Eq)]
pub enum Token {
    Int(isize),
    Bool(bool),
    Op(Operator),
    Sym(Sym),
    If,
    Then,
    Else,
    Var(String),
    Let,
    In,
}

/// The model of a token: the same token with its name as a character
/// sequence.
pub enum TokenModel {
    Int(isize),
    Bool(bool),
    Op(Operator),
    Sym(Sym),
    If,
    Then,
    Else,
    Var(Seq<char>),
    Let,
    In,
}

/// Why a text has no tokens.
#[derive(Debug, Clone, Copy, PartialEq, Eq, Structural)]
pub enum LexError {
    /// The byte at `position` starts no token and is no white space.
    UnexpectedByte { position: usize, byte: u8 },
    /// The integer literal that starts at `position` does not fit `isize`.
    IntegerTooLarge { position: usize },
}

impl View for Token {
    type V = TokenModel;

    open spec fn view(&self) -> TokenModel {
        match self {
            Token::Int(i) => TokenModel::Int(*i),
            Token::Bool(b) => TokenModel::Bool(*b),
            Token::Op(o) => TokenModel::Op(*o),
            Token::Sym(s) => TokenModel::Sym(*s),
            Token::If => TokenModel::If,
            Token::Then => TokenModel::Then,
            Token::Else => TokenModel::Else,
            Token::Var(name) => TokenModel::Var(name@),
            Token::Let => TokenModel::Let,
            Token::In => TokenModel::In,
        }
    }
}

impl Clone for Token {
    fn clone(&self) -> (res: Self)
        ensures
            res == *self,
    {
        match self {
            Token::Int(i) => Token::Int(*i),
            Token::Bool(b) => Token::Bool(*b),
            Token::Op(o) => Token::Op(*o),
            Token::Sym(s) => Token::Sym(*s),
            Token::If => Token::If,
            Token::Then => Token::Then,
            Token::Else => Token::Else,
            Token::Var(name) => Token::Var(name.clone()),
            Token::Let => Token::Let,
            Token::In => Token::In,
        }
    }
}

/// The sign of an operator.
pub open spec fn operator_text(o: Operator) -> Seq<char> {
    match o {
        Operator::Plus => "+"@,
        Operator::Minus => "-"@,
        Operator::Mul => "*"@,
        Operator::LessThan => "<"@,
        Operator::Equal => "="@,
    }
}

/// The sign of a punctuation mark.
pub open spec fn sym_text(s: Sym) -> Seq<char> {
    match s {
        Sym::LParen => "("@,
        Sym::RParen => ")"@,
        Sym::Comma => ","@,
    }
}

/// A token as it is written in source text.
pub open spec fn token_text(t: TokenModel) -> Seq<char> {
    match t {
        TokenModel::Int(i) => decimal(i as int),
        TokenModel::Bool(true) => "true"@,
        TokenModel::Bool(false) => "false"@,
        TokenModel::Op(o) => operator_text(o),
        TokenModel::Sym(s) => sym_text(s),
        TokenModel::If => "if"@,
        TokenModel::Then => "then"@,
        TokenModel::Else => "else"@,
        TokenModel::Var(name) => name,
        TokenModel::Let => "let"@,
        TokenModel::In => "in"@,
    }
}

/// What a lexical error says: the unexpected byte by its number and its
/// position, or the position of the literal that is too large.
pub open spec fn lex_error_text(e: LexError) -> Seq<char> {
    match e {
        LexError::UnexpectedByte { position, byte } => "unexpected byte "@ + decimal(byte as int)
            + " at position "@ + decimal(position as int),
        LexError::IntegerTooLarge { position } => "integer literal at position "@ + decimal(
            position as int,
        ) + " is too large"@,
    }
}

impl Token {
    /// Appends the token, as it is written in source text, to `buf`.
    pub fn write_to(&self, buf: &mut String)
        ensures
            final(buf)@ == old(buf)@ + token_text(self@),
    {
        match self {
            Token::Int(i) => write_int(buf, *i),
            Token::Bool(true) => buf.append("true"),
            Token::Bool(false) => buf.append("false"),
            Token::Op(Operator::Plus) => buf.append("+"),
            Token::Op(Operator::Minus) => buf.append("-"),
            Token::Op(Operator::Mul) => buf.append("*"),
            Token::Op(Operator::LessThan) => buf.append("<"),
            Token::Op(Operator::Equal) => buf.append("="),
            Token::Sym(Sym::LParen) => buf.append("("),
            Token::Sym(Sym::RParen) => buf.append(")"),
            Token::Sym(Sym::Comma) => buf.append(","),
            Token::If => buf.append("if"),
            Token::Then => buf.append("then"),
            Token::Else => buf.append("else"),
            Token::Var(name) => buf.append(name.as_str()),
            Token::Let => buf.append("let"),
            Token::In => buf.append("in"),
        }
    }

    /// The token as it is written in source text.
    pub fn to_text(&self) -> (res: String)
        ensures
            res@ == token_text(self@),
    {
        let mut buf = String::new();
        self.write_to(&mut buf);
        assert(buf@ =~= token_text(self@));
        buf
    }
}

impl LexError {
    /// What the error says, for a reader.
    pub fn message(&self) -> (res: String)
        ensures
            res@ == lex_error_text(*self),
    {
        let mut buf = String::new();
        match self {
            LexError::UnexpectedByte { position, byte } => {
                buf.append("unexpected byte ");
                write_usize(&mut buf, *byte as usize);
                buf.append(" at position ");
                write_usize(&mut buf, *position);
            },
            LexError::IntegerTooLarge { position } => {
                buf.append("integer literal at position ");
                write_usize(&mut buf, *position);
                buf.append(" is too large");
            },
        }
        assert(buf@ =~= lex_error_text(*self));
        buf
    }
}

/// The bytes that the lexer tells apart, by name.
pub const BLANK: u8 = 32;

pub const TAB: u8 = 9;

pub const LINE_FEED: u8 = 10;

pub const FORM_FEED: u8 = 12;

pub const CARRIAGE_RETURN: u8 = 13;

pub const DIGIT_1: u8 = 49;

pub const DIGIT_9: u8 = 57;

pub const SMALL_A: u8 = 97;

pub const SMALL_Z: u8 = 122;

pub const CAPITAL_A: u8 = 65;

pub const CAPITAL_Z: u8 = 90;

pub const UNDERSCORE: u8 = 95;

pub const APOSTROPHE: u8 = 39;

pub const PLUS_SIGN: u8 = 43;

pub const MINUS_SIGN: u8 = 45;

pub const STAR: u8 = 42;

pub const LESS_THAN_SIGN: u8 = 60;

pub const EQUALS_SIGN: u8 = 61;

pub const LEFT_PARENTHESIS: u8 = 40;

pub const RIGHT_PARENTHESIS: u8 = 41;

pub const COMMA: u8 = 44;

/// The models of a sequence of tokens, one for one.
pub open spec fn token_models(tokens: Seq<Token>) -> Seq<TokenModel> {
    Seq::new(tokens.len(), |i: int| tokens[i]@)
}

/// White space: blank, tab, line feed, form feed, carriage return.
pub open spec fn is_space(b: u8) -> bool {
    b == BLANK || b == TAB || b == LINE_FEED || b == FORM_FEED || b == CARRIAGE_RETURN
}

/// A decimal digit.
pub open spec fn is_digit(b: u8) -> bool {
    DIGIT_0 <= b <= DIGIT_9
}

/// A byte that can start a name: a small letter or an underscore.
pub open spec fn is_name_start(b: u8) -> bool {
    b == UNDERSCORE || SMALL_A <= b <= SMALL_Z
}

/// A byte that can stand in a name: a letter, a digit, an underscore or an
/// apostrophe.
pub open spec fn is_name_byte(b: u8) -> bool {
    is_name_start(b) || CAPITAL_A <= b <= CAPITAL_Z || is_digit(b) || b == APOSTROPHE
}

/// Where the run of digits that starts at `from` ends.
pub open spec fn digits_end(s: Seq<u8>, from: int) -> int
    decreases s.len() - from,
{
    if 0 <= from < s.len() && is_digit(s[from]) {
        digits_end(s, from + 1)
    } else {
        from
    }
}

/// Where the run of name bytes that starts at `from` ends.
pub open spec fn name_end(s: Seq<u8>, from: int) -> int
    decreases s.len() - from,
{
    if 0 <= from < s.len() && is_name_byte(s[from]) {
        name_end(s, from + 1)
    } else {
        from
    }
}

/// The number that a run of digits writes in decimal.
pub open spec fn decimal_value(digits: Seq<u8>) -> nat
    decreases digits.len(),
{
    if digits.len() == 0 {
        0
    } else {
        decimal_value(digits.drop_last()) * 10 + (digits.last() - DIGIT_0) as nat
    }
}

/// Bytes of plain text as characters.
pub open spec fn as_chars(bytes: Seq<u8>) -> Seq<char> {
    Seq::new(bytes.len(), |i: int| bytes[i] as char)
}

/// The token that a word stands for: a keyword, a truth value, or else a
/// name.
pub open spec fn word_token(word: Seq<char>) -> TokenModel {
    if word == "if"@ {
        TokenModel::If
    } else if word == "then"@ {
        TokenModel::Then
    } else if word == "else"@ {
        TokenModel::Else
    } else if word == "true"@ {
        TokenModel::Bool(true)
    } else if word == "false"@ {
        TokenModel::Bool(false)
    } else if word == "let"@ {
        TokenModel::Let
    } else if word == "in"@ {
        TokenModel::In
    } else {
        TokenModel::Var(word)
    }
}

/// The token that a single byte stands for, if it is an operator or a
/// punctuation sign.
pub open spec fn sign_token(b: u8) -> Option<TokenModel> {
    if b == PLUS_SIGN {
        Some(TokenModel::Op(Operator::Plus))
    } else if b == MINUS_SIGN {
        Some(TokenModel::Op(Operator::Minus))
    } else if b == STAR {
        Some(TokenModel::Op(Operator::Mul))
    } else if b == LESS_THAN_SIGN {
        Some(TokenModel::Op(Operator::LessThan))
    } else if b == EQUALS_SIGN {
        Some(TokenModel::Op(Operator::Equal))
    } else if b == LEFT_PARENTHESIS {
        Some(TokenModel::Sym(Sym::LParen))
    } else if b == RIGHT_PARENTHESIS {
        Some(TokenModel::Sym(Sym::RParen))
    } else if b == COMMA {
        Some(TokenModel::Sym(Sym::Comma))
    } else {
        None
    }
}

/// A token in front of the tokens that follow it, if those exist.
pub open spec fn followed_by(t: TokenModel, rest: Result<Seq<TokenModel>, LexError>) -> Result<
    Seq<TokenModel>,
    LexError,
> {
    match rest {
        Ok(ts) => Ok(seq![t] + ts),
        Err(e) => Err(e),
    }
}

/// A run of digits does not end before it starts, nor behind the text.
pub proof fn lemma_digits_end(s: Seq<u8>, from: int)
    requires
        0 <= from <= s.len(),
    ensures
        from <= digits_end(s, from) <= s.len(),
        forall|i: int| from <= i < digits_end(s, from) ==> is_digit(#[trigger] s[i]),
        digits_end(s, from) < s.len() ==> !is_digit(s[digits_end(s, from)]),
    decreases s.len() - from,
{
    if from < s.len() && is_digit(s[from]) {
        lemma_digits_end(s, from + 1);
    }
}

/// A run of name bytes does not end before it starts, nor behind the text.
pub proof fn lemma_name_end(s: Seq<u8>, from: int)
    requires
        0 <= from <= s.len(),
    ensures
        from <= name_end(s, from) <= s.len(),
        forall|i: int| from <= i < name_end(s, from) ==> is_name_byte(#[trigger] s[i]),
        name_end(s, from) < s.len() ==> !is_name_byte(s[name_end(s, from)]),
    decreases s.len() - from,
{
    if from < s.len() && is_name_byte(s[from]) {
        lemma_name_end(s, from + 1);
    }
}

/// The tokens of the text from position `from` on, or the first reason
/// why it has none.
///
/// At each position, in this order: white space is passed over; a digit
/// from 1 to 9 starts an integer literal that runs as far as digits go; a
/// small letter or an underscore starts a word that runs as far as name
/// bytes go, and the whole word is a keyword, a truth value or a name; an
/// operator or punctuation sign stands for itself; any other byte is
/// unexpected, a `0` that no literal holds among them. A literal whose
/// value is above the largest `isize` is too large.
pub open spec fn lex(s: Seq<u8>, from: int) -> Result<Seq<TokenModel>, LexError>
    decreases s.len() - from,
{
    if from < 0 || from >= s.len() {
        Ok(Seq::empty())
    } else if is_space(s[from]) {
        lex(s, from + 1)
    } else if DIGIT_1 <= s[from] <= DIGIT_9 {
        let end = digits_end(s, from + 1);
        proof {
            lemma_digits_end(s, from + 1);
        }
        if decimal_value(s.subrange(from, end)) > isize::MAX {
            Err(LexError::IntegerTooLarge { position: from as usize })
        } else {
            followed_by(
                TokenModel::Int(decimal_value(s.subrange(from, end)) as isize),
                lex(s, end),
            )
        }
    } else if is_name_start(s[from]) {
        let end = name_end(s, from + 1);
        proof {
            lemma_name_end(s, from + 1);
        }
        followed_by(word_token(as_chars(s.subrange(from, end))), lex(s, end))
    } else {
        match sign_token(s[from]) {
            Some(t) => followed_by(t, lex(s, from + 1)),
            None => Err(LexError::UnexpectedByte { position: from as usize, byte: s[from] }),
        }
    }
}

/// An unexpected byte is reported with the place where it stands, and it
/// is a byte that the lexer has no use for: no white space, no digit from
/// 1 to 9, no start of a name, no operator or punctuation sign. An integer
/// literal that is too large is reported with the place of its first digit.
pub proof fn lemma_lex_errors(s: Seq<u8>, from: int)
    requires
        0 <= from,
        s.len() <= usize::MAX,
    ensures
        match lex(s, from) {
            Err(LexError::UnexpectedByte { position, byte }) => {
                &&& from <= position < s.len()
                &&& s[position as int] == byte
                &&& !is_space(byte)
                &&& !(DIGIT_1 <= byte <= DIGIT_9)
                &&& !is_name_start(byte)
                &&& sign_token(byte) is None
            },
            Err(LexError::IntegerTooLarge { position }) => {
                &&& from <= position < s.len()
                &&& is_digit(s[position as int])
                &&& decimal_value(s.subrange(position as int, digits_end(s, position + 1)))
                    > isize::MAX
            },
            Ok(_) => true,
        },
    decreases s.len() - from,
{
    if from >= s.len() {
    } else if is_space(s[from]) {
        lemma_lex_errors(s, from + 1);
    } else if DIGIT_1 <= s[from] <= DIGIT_9 {
        lemma_digits_end(s, from + 1);
        lemma_lex_errors(s, digits_end(s, from + 1));
    } else if is_name_start(s[from]) {
        lemma_name_end(s, from + 1);
        lemma_lex_errors(s, name_end(s, from + 1));
    } else if sign_token(s[from]) is Some {
        lemma_lex_errors(s, from + 1);
    }
}

/// Characters of plain text as bytes.
pub open spec fn as_bytes(chars: Seq<char>) -> Seq<u8> {
    Seq::new(chars.len(), |i: int| chars[i] as u8)
}

/// A number written in decimal reads back as itself: its text is a run
/// of digits, with no leading zero unless the number is zero, and the
/// value of that run is the number.
pub proof fn lemma_decimal_reads_back(n: nat)
    ensures
        decimal_value(as_bytes(decimal_nat(n))) == n,
        forall|i: int|
            0 <= i < decimal_nat(n).len() ==> is_digit(#[trigger] as_bytes(decimal_nat(n))[i]),
        decimal_nat(n).len() > 0,
        n > 0 ==> as_bytes(decimal_nat(n))[0] != DIGIT_0,
    decreases n,
{
    let text = as_bytes(decimal_nat(n));
    if n < 10 {
        assert(text.drop_last() =~= Seq::<u8>::empty());
        assert(decimal_value(text.drop_last()) == 0);
    } else {
        lemma_decimal_reads_back(n / 10);
        let front = as_bytes(decimal_nat(n / 10));
        assert(text.drop_last() =~= front);
        assert(text.last() == DIGIT_0 + n % 10);
        assert forall|i: int| 0 <= i < decimal_nat(n).len() implies is_digit(
            #[trigger] text[i],
        ) by {
            if i < front.len() {
                assert(text[i] == front[i]);
            }
        }
        assert(text[0] == front[0]);
    }
}

/// Tokens already read, in front of what the rest of the text gives.
pub open spec fn read_so_far(
    read: Seq<TokenModel>,
    rest: Result<Seq<TokenModel>, LexError>,
) -> Result<Seq<TokenModel>, LexError> {
    match rest {
        Ok(ts) => Ok(read + ts),
        Err(e) => Err(e),
    }
}

/// Reading one more token moves it from the rest to what was read.
proof fn lemma_read_one(
    read: Seq<TokenModel>,
    t: TokenModel,
    rest: Result<Seq<TokenModel>, LexError>,
)
    ensures
        read_so_far(read, followed_by(t, rest)) == read_so_far(read.push(t), rest),
{
    if let Ok(ts) = rest {
        assert(read + (seq![t] + ts) =~= read.push(t) + ts);
    }
}

/// The value of a run of digits is at least the value of each run that
/// it starts with.
proof fn lemma_decimal_value_grows(digits: Seq<u8>, n: int)
    requires
        0 <= n <= digits.len(),
    ensures
        decimal_value(digits.subrange(0, n)) <= decimal_value(digits),
    decreases digits.len(),
{
    if n == digits.len() {
        assert(digits.subrange(0, n) =~= digits);
    } else {
        lemma_decimal_value_grows(digits.drop_last(), n);
        assert(digits.drop_last().subrange(0, n) =~= digits.subrange(0, n));
    }
}

/// Where the run of digits that starts at `from` ends.
fn get_num_str(chars: &[u8], from: usize) -> (end: usize)
    requires
        from <= chars@.len(),
    ensures
        end == digits_end(chars@, from as int),
        from <= end <= chars@.len(),
{
    let mut i: usize = from;
    while i < chars.len() && DIGIT_0 <= chars[i] && chars[i] <= DIGIT_9
        invariant
            from <= i <= chars@.len(),
            digits_end(chars@, from as int) == digits_end(chars@, i as int),
        decreases chars@.len() - i,
    {
        i += 1;
    }
    i
}

/// Whether a byte can stand in a name.
fn name_byte(b: u8) -> (res: bool)
    ensures
        res == is_name_byte(b),
{
    b == UNDERSCORE || (SMALL_A <= b && b <= SMALL_Z) || (CAPITAL_A <= b && b <= CAPITAL_Z)
        || (DIGIT_0 <= b && b <= DIGIT_9) || b == APOSTROPHE
}

/// Where the run of name bytes that starts at `from` ends.
fn get_var_str(chars: &[u8], from: usize) -> (end: usize)
    requires
        from <= chars@.len(),
    ensures
        end == name_end(chars@, from as int),
        from <= end <= chars@.len(),
{
    let mut i: usize = from;
    while i < chars.len() && name_byte(chars[i])
        invariant
            from <= i <= chars@.len(),
            name_end(chars@, from as int) == name_end(chars@, i as int),
        decreases chars@.len() - i,
    {
        i += 1;
    }
    i
}

/// The integer literal that starts at `from`: its value and where it
/// ends, or nothing where the value does not fit `isize`.
fn get_num(chars: &[u8], from: usize) -> (res: Option<(isize, usize)>)
    requires
        from < chars@.len(),
        is_digit(chars@[from as int]),
    ensures
        match res {
            Some((n, end)) => end == digits_end(chars@, from + 1) && n == decimal_value(
                chars@.subrange(from as int, end as int),
            ),
            None => decimal_value(
                chars@.subrange(from as int, digits_end(chars@, from + 1)),
            ) > isize::MAX,
        },
{
    assert(from < chars.len());
    let end = get_num_str(chars, from + 1);
    let ghost digits = chars@.subrange(from as int, end as int);
    let mut n: isize = 0;
    let mut i: usize = from;
    proof {
        lemma_digits_end(chars@, from + 1);
        assert(chars@.subrange(from as int, from as int) =~= Seq::<u8>::empty());
    }
    while i < end
        invariant
            from <= i <= end <= chars@.len(),
            digits == chars@.subrange(from as int, end as int),
            forall|j: int| from <= j < end ==> is_digit(#[trigger] chars@[j]),
            n == decimal_value(chars@.subrange(from as int, i as int)),
            end == digits_end(chars@, from + 1),
        decreases end - i,
    {
        let d: isize = (chars[i] - DIGIT_0) as isize;
        let ghost longer = chars@.subrange(from as int, i + 1);
        proof {
            assert(longer.drop_last() =~= chars@.subrange(from as int, i as int));
            assert(longer.last() == chars@[i as int]);
            assert(decimal_value(longer) == n * 10 + d);
            lemma_decimal_value_grows(digits, i + 1 - from);
            assert(digits.subrange(0, i + 1 - from) =~= longer);
        }
        if n > (isize::MAX - d) / 10 {
            return None;
        }
        n = n * 10 + d;
        i += 1;
    }
    Some((n, end))
}

/// The word that starts at `from`, as text, and where it ends.
fn get_var(chars: &[u8], from: usize) -> (res: (String, usize))
    requires
        from < chars@.len(),
    ensures
        res.1 == name_end(chars@, from + 1),
        res.0@ == as_chars(chars@.subrange(from as int, res.1 as int)),
{
    assert(from < chars.len());
    let end = get_var_str(chars, from + 1);
    let mut word = String::new();
    let mut i: usize = from;
    while i < end
        invariant
            from <= i <= end <= chars@.len(),
            word@ == as_chars(chars@.subrange(from as int, i as int)),
        decreases end - i,
    {
        push_char(&mut word, chars[i] as char);
        assert(word@ =~= as_chars(chars@.subrange(from as int, i + 1)));
        i += 1;
    }
    (word, end)
}

/// The token that a word stands for.
fn keyword_or_name(word: String) -> (t: Token)
    ensures
        t@ == word_token(word@),
{
    if word == String::from_str("if") {
        Token::If
    } else if word == String::from_str("then") {
        Token::Then
    } else if word == String::from_str("else") {
        Token::Else
    } else if word == String::from_str("true") {
        Token::Bool(true)
    } else if word == String::from_str("false") {
        Token::Bool(false)
    } else if word == String::from_str("let") {
        Token::Let
    } else if word == String::from_str("in") {
        Token::In
    } else {
        Token::Var(word)
    }
}

/// The token that a single byte stands for, if it is an operator or a
/// punctuation sign.
fn sign(b: u8) -> (res: Option<Token>)
    ensures
        match res {
            Some(t) => sign_token(b) == Some(t@),
            None => sign_token(b) is None,
        },
{
    if b == PLUS_SIGN {
        Some(Token::Op(Operator::Plus))
    } else if b == MINUS_SIGN {
        Some(Token::Op(Operator::Minus))
    } else if b == STAR {
        Some(Token::Op(Operator::Mul))
    } else if b == LESS_THAN_SIGN {
        Some(Token::Op(Operator::LessThan))
    } else if b == EQUALS_SIGN {
        Some(Token::Op(Operator::Equal))
    } else if b == LEFT_PARENTHESIS {
        Some(Token::Sym(Sym::LParen))
    } else if b == RIGHT_PARENTHESIS {
        Some(Token::Sym(Sym::RParen))
    } else if b == COMMA {
        Some(Token::Sym(Sym::Comma))
    } else {
        None
    }
}

/// Appends a token to those already read.
fn new_token(tokens: &mut Vec<Token>, token: Token)
    ensures
        token_models(final(tokens)@) == token_models(old(tokens)@).push(token@),
{
    tokens.push(token);
    assert(token_models(tokens@) =~= token_models(old(tokens)@).push(token@));
}

/// The tokens of a text, in order, or the first reason why it has none:
/// a byte that starts no token, or an integer literal too large for
/// `isize`. White space separates tokens and is not one itself.
pub fn tokenize(chars: &[u8]) -> (res: Result<Vec<Token>, LexError>)
    ensures
        match lex(chars@, 0) {
            Ok(ts) => res is Ok && token_models(res->Ok_0@) == ts,
            Err(e) => res == Err::<Vec<Token>, LexError>(e),
        },
{
    let mut tokens: Vec<Token> = Vec::new();
    let mut i: usize = 0;
    assert(token_models(tokens@) =~= Seq::<TokenModel>::empty());
    while i < chars.len()
        invariant
            i <= chars@.len(),
            lex(chars@, 0) == read_so_far(token_models(tokens@), lex(chars@, i as int)),
        decreases chars@.len() - i,
    {
        let b = chars[i];
        let ghost read = token_models(tokens@);
        if b == BLANK || b == TAB || b == LINE_FEED || b == FORM_FEED || b == CARRIAGE_RETURN {
            i += 1;
        } else if DIGIT_1 <= b && b <= DIGIT_9 {
            match get_num(chars, i) {
                Some((n, end)) => {
                    proof {
                        lemma_digits_end(chars@, i + 1);
                        lemma_read_one(read, TokenModel::Int(n), lex(chars@, end as int));
                    }
                    new_token(&mut tokens, Token::Int(n));
                    i = end;
                },
                None => {
                    return Err(LexError::IntegerTooLarge { position: i });
                },
            }
        } else if b == UNDERSCORE || (SMALL_A <= b && b <= SMALL_Z) {
            let (word, end) = get_var(chars, i);
            let token = keyword_or_name(word);
            proof {
                lemma_name_end(chars@, i + 1);
                lemma_read_one(read, token@, lex(chars@, end as int));
            }
            new_token(&mut tokens, token);
            i = end;
        } else {
            match sign(b) {
                Some(token) => {
                    proof {
                        lemma_read_one(read, token@, lex(chars@, i + 1));
                    }
                    new_token(&mut tokens, token);
                    i += 1;
                },
                None => {
                    return Err(LexError::UnexpectedByte { position: i, byte: b });
                },
            }
        }
    }
    assert(token_models(tokens@) + Seq::<TokenModel>::empty() =~= token_models(tokens@));
    Ok(tokens)
}

} // verus!
