use carta_schema::{CartaError, Token, TokenType, TokenValue, Tokeniser};

fn token(kind: TokenType, val: &str, line_no: usize) -> Option<Token> {
    Some(Token::new(kind, line_no, TokenValue::StringVal(val.to_string())))
}

fn int_token(val: u32, line_no: usize) -> Option<Token> {
    Some(Token::new(TokenType::Integer, line_no, TokenValue::IntVal(val)))
}

#[test]
fn tokenise_word() -> Result<(), CartaError> {
    let tok = Tokeniser::new("abc")?;
    let mut iter = tok.into_iter().into_iter();
    assert_eq!(iter.next(), token(TokenType::Word, "abc", 1));
    assert_eq!(iter.next(), None);
    Ok(())
}

#[test]
fn space_at_start_plus_number() -> Result<(), CartaError> {
    let tok = Tokeniser::new(" abc23")?;
    let mut iter = tok.into_iter().into_iter();
    assert_eq!(iter.next(), token(TokenType::Word, "abc23", 1));
    assert_eq!(iter.next(), None);
    Ok(())
}

#[test]
fn newline_at_start_plus_underscore() -> Result<(), CartaError> {
    let tok = Tokeniser::new("\n_abc_abc")?;
    let mut iter = tok.into_iter().into_iter();
    assert_eq!(iter.next(), token(TokenType::NewLine, "\n", 1));
    assert_eq!(iter.next(), token(TokenType::Word, "_abc_abc", 2));
    assert_eq!(iter.next(), None);
    Ok(())
}

#[test]
fn whitespace_at_start_tab() -> Result<(), CartaError> {
    let tok = Tokeniser::new("\tabc")?;
    let mut iter = tok.into_iter().into_iter();
    assert_eq!(iter.next(), token(TokenType::Word, "abc", 1));
    assert_eq!(iter.next(), None);
    Ok(())
}

#[test]
fn multiple_words() -> Result<(), CartaError> {
    let tok = Tokeniser::new("abc def\nghi\tjkl ")?;
    let mut iter = tok.into_iter().into_iter();
    assert_eq!(iter.next(), token(TokenType::Word, "abc", 1));
    assert_eq!(iter.next(), token(TokenType::Word, "def", 1));
    assert_eq!(iter.next(), token(TokenType::NewLine, "\n", 1));
    assert_eq!(iter.next(), token(TokenType::Word, "ghi", 2));
    assert_eq!(iter.next(), token(TokenType::Word, "jkl", 2));
    assert_eq!(iter.next(), None);
    Ok(())
}

#[test]
fn basic_typeof() -> Result<(), CartaError> {
    let tok = Tokeniser::new("abc: uint64_le")?;
    let mut iter = tok.into_iter().into_iter();
    assert_eq!(iter.next(), token(TokenType::Word, "abc", 1));
    assert_eq!(iter.next(), token(TokenType::Colon, ":", 1));
    assert_eq!(iter.next(), token(TokenType::Word, "uint64_le", 1));
    assert_eq!(iter.next(), None);
    Ok(())
}

#[test]
fn basic_struct() -> Result<(), CartaError> {
    let tok = Tokeniser::new(
        "
        struct new_type {
            val1: type1,
            val2: type2
        }",
    )?;
    let mut iter = tok.into_iter().into_iter();
    assert_eq!(iter.next(), token(TokenType::NewLine, "\n", 1));
    assert_eq!(iter.next(), token(TokenType::Word, "struct", 2));
    assert_eq!(iter.next(), token(TokenType::Word, "new_type", 2));
    assert_eq!(iter.next(), token(TokenType::OpenBrace, "{", 2));
    assert_eq!(iter.next(), token(TokenType::NewLine, "\n", 2));
    assert_eq!(iter.next(), token(TokenType::Word, "val1", 3));
    assert_eq!(iter.next(), token(TokenType::Colon, ":", 3));
    assert_eq!(iter.next(), token(TokenType::Word, "type1", 3));
    assert_eq!(iter.next(), token(TokenType::Comma, ",", 3));
    assert_eq!(iter.next(), token(TokenType::NewLine, "\n", 3));
    assert_eq!(iter.next(), token(TokenType::Word, "val2", 4));
    assert_eq!(iter.next(), token(TokenType::Colon, ":", 4));
    assert_eq!(iter.next(), token(TokenType::Word, "type2", 4));
    assert_eq!(iter.next(), token(TokenType::NewLine, "\n", 4));
    assert_eq!(iter.next(), token(TokenType::CloseBrace, "}", 5));
    Ok(())
}

#[test]
fn unknown_token() {
    let tok = Tokeniser::new("\tabc😃");
    assert_eq!(tok, Err(CartaError::new_unknown_symbol(0, '😃')));
}

#[test]
fn line_comment() -> Result<(), CartaError> {
    let tok = Tokeniser::new("//\nabc//xyz\n")?;
    let mut iter = tok.into_iter().into_iter();
    assert_eq!(iter.next(), token(TokenType::Word, "abc", 2));
    assert_eq!(iter.next(), None);
    Ok(())
}

#[test]
fn block_comment() -> Result<(), CartaError> {
    let tok = Tokeniser::new("/*abc*/abc/**/")?;
    let mut iter = tok.into_iter().into_iter();
    assert_eq!(iter.next(), token(TokenType::Word, "abc", 1));
    assert_eq!(iter.next(), None);
    Ok(())
}

#[test]
fn incomplete_block_comment() {
    let tok = Tokeniser::new("/*");
    assert_eq!(tok, Err(CartaError::new_unclosed_block_comment(0)));
}

#[test]
fn integer() -> Result<(), CartaError> {
    let tok = Tokeniser::new("123456789")?;
    let mut iter = tok.into_iter().into_iter();
    assert_eq!(iter.next(), int_token(123456789, 1));
    assert_eq!(iter.next(), None);
    Ok(())
}

#[test]
fn large_integer() {
    let tok = Tokeniser::new("1000000000");
    assert_eq!(tok, Err(CartaError::new_integer_too_large(0)));
}

#[test]
fn leading_zero() {
    let tok = Tokeniser::new("01");
    assert_eq!(tok, Err(CartaError::new_leading_zero(0)));
}

#[test]
fn tokeniser_test_tokenise_word() {
    let tok = Tokeniser::new("abc").unwrap();
    let mut iter = tok.into_iter().into_iter();
    assert_eq!(iter.next(), token(TokenType::Word, "abc", 1));
    assert_eq!(iter.next(), None);
}

#[test]
fn tokeniser_test_space_at_start_plus_number() {
    let tok = Tokeniser::new(" abc23").unwrap();
    let mut iter = tok.into_iter().into_iter();
    assert_eq!(iter.next(), token(TokenType::Word, "abc23", 1));
    assert_eq!(iter.next(), None);
}

#[test]
fn tokeniser_test_newline_at_start_plus_underscore() {
    let tok = Tokeniser::new("\n_abc_abc").unwrap();
    let mut iter = tok.into_iter().into_iter();
    assert_eq!(iter.next(), token(TokenType::NewLine, "\n", 1));
    assert_eq!(iter.next(), token(TokenType::Word, "_abc_abc", 2));
    assert_eq!(iter.next(), None);
}

#[test]
fn tokeniser_test_whitespace_at_start_tab() {
    let tok = Tokeniser::new("\tabc").unwrap();
    let mut iter = tok.into_iter().into_iter();
    assert_eq!(iter.next(), token(TokenType::Word, "abc", 1));
    assert_eq!(iter.next(), None);
}

#[test]
fn tokeniser_test_multiple_words() {
    let tok = Tokeniser::new("abc def\nghi\tjkl ").unwrap();
    let mut iter = tok.into_iter().into_iter();
    assert_eq!(iter.next(), token(TokenType::Word, "abc", 1));
    assert_eq!(iter.next(), token(TokenType::Word, "def", 1));
    assert_eq!(iter.next(), token(TokenType::NewLine, "\n", 1));
    assert_eq!(iter.next(), token(TokenType::Word, "ghi", 2));
    assert_eq!(iter.next(), token(TokenType::Word, "jkl", 2));
    assert_eq!(iter.next(), None);
}

#[test]
fn tokeniser_test_basic_typeof() {
    let tok = Tokeniser::new("abc: uint64_le").unwrap();
    let mut iter = tok.into_iter().into_iter();
    assert_eq!(iter.next(), token(TokenType::Word, "abc", 1));
    assert_eq!(iter.next(), token(TokenType::Colon, ":", 1));
    assert_eq!(iter.next(), token(TokenType::Word, "uint64_le", 1));
    assert_eq!(iter.next(), None);
}

#[test]
fn test_basic_struct() {
    let tok = Tokeniser::new(
        "
        struct new_type {
            val1: type1,
            val2: type2
        }",
    )
    .unwrap();
    let mut iter = tok.into_iter().into_iter();
    assert_eq!(iter.next(), token(TokenType::NewLine, "\n", 1));
    assert_eq!(iter.next(), token(TokenType::Word, "struct", 2));
    assert_eq!(iter.next(), token(TokenType::Word, "new_type", 2));
    assert_eq!(iter.next(), token(TokenType::OpenBrace, "{", 2));
    assert_eq!(iter.next(), token(TokenType::NewLine, "\n", 2));
    assert_eq!(iter.next(), token(TokenType::Word, "val1", 3));
    assert_eq!(iter.next(), token(TokenType::Colon, ":", 3));
    assert_eq!(iter.next(), token(TokenType::Word, "type1", 3));
    assert_eq!(iter.next(), token(TokenType::Comma, ",", 3));
    assert_eq!(iter.next(), token(TokenType::NewLine, "\n", 3));
    assert_eq!(iter.next(), token(TokenType::Word, "val2", 4));
    assert_eq!(iter.next(), token(TokenType::Colon, ":", 4));
    assert_eq!(iter.next(), token(TokenType::Word, "type2", 4));
    assert_eq!(iter.next(), token(TokenType::NewLine, "\n", 4));
    assert_eq!(iter.next(), token(TokenType::CloseBrace, "}", 5));
}

#[test]
fn nine_digit_maximum() {
    let tok = Tokeniser::new("999999999").unwrap();
    let mut iter = tok.into_iter().into_iter();
    assert_eq!(iter.next(), int_token(999_999_999, 1));
    assert_eq!(iter.next(), None);
}

#[test]
fn digit_starts_integer_then_word() {
    let tok = Tokeniser::new("1abc").unwrap();
    let mut iter = tok.into_iter().into_iter();
    assert_eq!(iter.next(), int_token(1, 1));
    assert_eq!(iter.next(), token(TokenType::Word, "abc", 1));
    assert_eq!(iter.next(), None);
}

#[test]
fn punctuation_tokens() {
    let tok = Tokeniser::new("[;]").unwrap();
    let mut iter = tok.into_iter().into_iter();
    assert_eq!(iter.next(), token(TokenType::OpenBracket, "[", 1));
    assert_eq!(iter.next(), token(TokenType::Semicolon, ";", 1));
    assert_eq!(iter.next(), token(TokenType::CloseBracket, "]", 1));
    assert_eq!(iter.next(), None);
}

#[test]
fn comment_start_without_form_is_error() {
    let tok = Tokeniser::new("/x");
    assert_eq!(tok, Err(CartaError::new_unexpected_symbol(0, "* or /", 'x')));
}

#[test]
fn integer_token_text() {
    let tok = Tokeniser::new("42").unwrap();
    let toks = tok.into_iter();
    assert_eq!(toks.len(), 1);
    let t = toks.into_iter().next().unwrap();
    assert_eq!(t.get_string(), "42".to_string());
}
