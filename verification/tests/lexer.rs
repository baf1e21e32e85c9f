use rcc::errors::CompileError;
use rcc::tokenize::{tokenize, Token, TokenKind, Type};

fn source(text: &str) -> Vec<u8> {
    let mut bytes = text.as_bytes().to_vec();
    bytes.push(0);
    bytes
}

fn kinds(tokens: &[Token]) -> Vec<TokenKind> {
    tokens.iter().map(|t| t.kind).collect()
}

#[test]
fn stream_opens_with_ini_and_ends_with_eof() {
    let tokens = tokenize(source("")).unwrap();
    assert_eq!(kinds(&tokens), vec![TokenKind::INI, TokenKind::EOF]);
    assert_eq!(tokens[0].pos, 0);
    // `EOF` records the offset of the NUL
    assert_eq!(tokens[1].pos, 0);
    assert_eq!(tokens[1].char, vec![0u8]);
}

#[test]
fn offsets_follow_the_tokens_and_stop_at_the_nul() {
    let tokens = tokenize(source("int main(){ return 42; }")).unwrap();
    assert_eq!(
        kinds(&tokens),
        vec![
            TokenKind::INI,
            TokenKind::TYPE(Type::INT),
            TokenKind::IDENT,
            TokenKind::PUNCT,
            TokenKind::PUNCT,
            TokenKind::PUNCT,
            TokenKind::RETURN,
            TokenKind::NUM,
            TokenKind::PUNCT,
            TokenKind::PUNCT,
            TokenKind::EOF
        ]
    );
    let offsets: Vec<usize> = tokens.iter().map(|t| t.pos).collect();
    assert_eq!(offsets, vec![0, 3, 8, 9, 10, 11, 18, 21, 22, 24, 24]);
    assert_eq!(tokens[2].char, b"main".to_vec());
    assert_eq!(tokens[7].value, 42);

    let tokens = tokenize(source("a>=b")).unwrap();
    assert_eq!(
        kinds(&tokens),
        vec![TokenKind::INI, TokenKind::IDENT, TokenKind::BE, TokenKind::IDENT, TokenKind::EOF]
    );
    let offsets: Vec<usize> = tokens.iter().map(|t| t.pos).collect();
    assert_eq!(offsets, vec![0, 1, 3, 4, 4]);
}

#[test]
fn length_of_a_number_without_lexeme_is_that_of_its_value() {
    let number = Token { kind: TokenKind::NUM, value: 42, char: Vec::new(), pos: 21 };
    assert_eq!(number.len(), 2);
    let negative = Token { kind: TokenKind::NUM, value: -7, char: Vec::new(), pos: 21 };
    assert_eq!(negative.len(), 2);
    let zero = Token { kind: TokenKind::NUM, value: 0, char: Vec::new(), pos: 1 };
    assert_eq!(zero.len(), 1);
    let name = Token { kind: TokenKind::IDENT, value: 0, char: b"main".to_vec(), pos: 8 };
    assert_eq!(name.len(), 4);
    let empty = Token { kind: TokenKind::IDENT, value: 42, char: Vec::new(), pos: 8 };
    assert_eq!(empty.len(), 0);
}

#[test]
fn two_byte_operators_come_before_their_prefixes() {
    let tokens = tokenize(source("== != <= >= = < >")).unwrap();
    assert_eq!(
        kinds(&tokens),
        vec![
            TokenKind::INI,
            TokenKind::EQ,
            TokenKind::NEQ,
            TokenKind::LE,
            TokenKind::BE,
            TokenKind::PUNCT,
            TokenKind::LT,
            TokenKind::BT,
            TokenKind::EOF
        ]
    );
    assert_eq!(tokens[1].char, b"==".to_vec());
    assert_eq!(tokens[1].pos, 2);
    assert_eq!(tokens[4].char, b">=".to_vec());
    assert_eq!(tokens[5].char, b"=".to_vec());
}

#[test]
fn numbers_carry_their_value_and_digits() {
    let tokens = tokenize(source("42 007")).unwrap();
    assert_eq!(tokens[1].kind, TokenKind::NUM);
    assert_eq!(tokens[1].value, 42);
    assert_eq!(tokens[1].pos, 2);
    assert_eq!(tokens[1].len(), 2);
    assert_eq!(tokens[1].input_pos(), 0);
    assert_eq!(tokens[2].value, 7);
    assert_eq!(tokens[2].len(), 3);
    assert_eq!(tokens[2].input_pos(), 3);
}

#[test]
fn largest_number_fits_and_the_next_does_not() {
    let tokens = tokenize(source("2147483647")).unwrap();
    assert_eq!(tokens[1].value, 2147483647);
    assert_eq!(tokenize(source("a 2147483648")).unwrap_err(), CompileError::LexError { pos: 2 });
}

#[test]
fn keywords_and_identifiers() {
    let tokens = tokenize(source("return if else for int foo")).unwrap();
    assert_eq!(
        kinds(&tokens),
        vec![
            TokenKind::INI,
            TokenKind::RETURN,
            TokenKind::IF,
            TokenKind::ELSE,
            TokenKind::FOR,
            TokenKind::TYPE(Type::INT),
            TokenKind::IDENT,
            TokenKind::EOF
        ]
    );
    assert_eq!(tokens[6].char, b"foo".to_vec());
    assert_eq!(tokens[6].pos, 26);
}

#[test]
fn else_if_is_one_token() {
    let tokens = tokenize(source("else   if(")).unwrap();
    assert_eq!(tokens[1].kind, TokenKind::ELIF);
    assert_eq!(tokens[1].char, b"else if".to_vec());
    assert_eq!(tokens[1].pos, 9);
    assert_eq!(tokens[2].char, b"(".to_vec());
}

#[test]
fn else_before_a_brace_is_else() {
    let tokens = tokenize(source("else{")).unwrap();
    assert_eq!(tokens[1].kind, TokenKind::ELSE);
    assert_eq!(tokens[1].pos, 4);
    assert_eq!(tokens[2].char, b"{".to_vec());
    assert_eq!(tokens[2].pos, 5);
}

#[test]
fn unknown_byte_is_a_lex_error_at_its_offset() {
    assert_eq!(tokenize(source("int a # b")).unwrap_err(), CompileError::LexError { pos: 6 });
    assert_eq!(tokenize(source("a ! b")).unwrap_err(), CompileError::LexError { pos: 2 });
}

#[test]
fn lexing_stops_at_the_first_nul() {
    let tokens = tokenize(b"a\0b\0".to_vec()).unwrap();
    assert_eq!(kinds(&tokens), vec![TokenKind::INI, TokenKind::IDENT, TokenKind::EOF]);
}
