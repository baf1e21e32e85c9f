//! The lexer: from source bytes to tokens, and the cursor the parser reads
//! them with.
use vstd::prelude::*;
use vstd::string::StringSliceAdditionalSpecFns;
use crate::errors::CompileError;
use crate::text::{bytes_eq, copy_bytes, is_byte, is_text, put_signed_decimal, signed_decimal};

verus! {

/// The types of the language.
#[derive(Clone, Copy, Debug, PartialEq, Eq, Structural)]
pub enum Type {
    /// No type: the type of a node that carries none.
    NoType,
    /// Not yet determined.
    Unknown,
    /// `int`, eight bytes wide.
    INT,
}

impl Type {
    /// The size of a value of this type, in bytes.
    pub fn size(&self) -> (n: usize)
        requires
            *self == Type::INT,
        ensures
            n == 8,
    {
        8
    }
}

/// The kinds of token.
#[derive(Clone, Copy, Debug, PartialEq, Eq, Structural)]
pub enum TokenKind {
    /// The sentinel that opens every token stream.
    INI,
    NUM,
    PUNCT,
    EOF,
    IDENT,
    RETURN,
    /// `==`
    EQ,
    /// `!=`
    NEQ,
    /// `<=`
    LE,
    /// `<`
    LT,
    /// `>=`
    BE,
    /// `>`
    BT,
    IF,
    /// `else if`
    ELIF,
    ELSE,
    FOR,
    TYPE(Type),
}

/// A token: its kind, its value where it is a number, its lexeme, and the
/// source offset that follows its last byte; of `EOF`, the offset of the NUL
/// that ends the source.
#[derive(Clone, Debug)]
pub struct Token {
    pub kind: TokenKind,
    /// The value of a `NUM` token; 0 in every other.
    pub value: i32,
    pub char: Vec<u8>,
    pub pos: usize,
}

/// The mathematical view of a [`Token`].
pub struct TokenView {
    pub kind: TokenKind,
    pub value: i32,
    pub char: Seq<u8>,
    pub pos: usize,
}

impl View for Token {
    type V = TokenView;

    open spec fn view(&self) -> TokenView {
        TokenView { kind: self.kind, value: self.value, char: self.char@, pos: self.pos }
    }
}

/// The views of a sequence of tokens.
pub open spec fn token_views(ts: Seq<Token>) -> Seq<TokenView> {
    ts.map_values(|t: Token| t@)
}

/// The length of a token in the source: that of its lexeme; of a number
/// without lexeme, the number of characters of its value in decimal.
pub open spec fn token_len(t: TokenView) -> nat {
    if t.kind == TokenKind::NUM && t.char.len() == 0 {
        signed_decimal(t.value as int).len()
    } else {
        t.char.len()
    }
}

impl Token {
    pub fn new_token(kind: TokenKind, value: i32, char: Vec<u8>, cur_pos: usize) -> (tok: Token)
        ensures
            tok@ == (TokenView { kind, value, char: char@, pos: cur_pos }),
    {
        Token { kind, value, char, pos: cur_pos }
    }

    /// A fresh copy of this token.
    pub fn copy(&self) -> (tok: Token)
        ensures
            tok@ == self@,
    {
        Token { kind: self.kind, value: self.value, char: copy_bytes(&self.char), pos: self.pos }
    }

    /// The length of the token in the source: see `token_len`. A number that
    /// the lexer made has its digits as its lexeme. The lexeme of `else if`
    /// counts the blanks between its two words as one.
    pub fn len(&self) -> (n: usize)
        ensures
            n == token_len(self@),
    {
        if self.kind == TokenKind::NUM && self.char.len() == 0 {
            let mut digits: Vec<u8> = Vec::new();
            put_signed_decimal(&mut digits, self.value);
            assert(digits@ =~= signed_decimal(self.value as int));
            digits.len()
        } else {
            self.char.len()
        }
    }

    /// The source offset at which the token starts.
    pub fn input_pos(&self) -> (p: usize)
        requires
            self@.char.len() <= self@.pos,
        ensures
            p == self@.pos - self@.char.len(),
    {
        self.pos - self.char.len()
    }
}

/// `0`..`9`
pub open spec fn is_digit(b: u8) -> bool {
    '0' as u8 <= b <= '9' as u8
}

/// `a`..`z` or `A`..`Z`
pub open spec fn is_alpha(b: u8) -> bool {
    ('a' as u8 <= b <= 'z' as u8) || ('A' as u8 <= b <= 'Z' as u8)
}

/// Blank, tab, line feed, vertical tab, form feed or carriage return.
pub open spec fn is_space(b: u8) -> bool {
    b == ' ' as u8 || (9 <= b <= 13)
}

/// The bytes that stand alone as `PUNCT` tokens, besides `=`.
pub open spec fn is_single_punct(b: u8) -> bool {
    b == '+' as u8 || b == '-' as u8 || b == '*' as u8 || b == '/' as u8 || b == ';' as u8 || b
        == '(' as u8 || b == ')' as u8 || b == '{' as u8 || b == '}' as u8 || b == ',' as u8
}

/// The byte at offset `i`, and NUL past the end of the input.
pub open spec fn byte_at(input: Seq<u8>, i: int) -> u8 {
    if 0 <= i < input.len() {
        input[i]
    } else {
        0
    }
}

/// The number of digits from offset `pos` on, before the first other byte.
pub open spec fn digit_run(input: Seq<u8>, pos: int) -> nat
    decreases input.len() - pos,
{
    if 0 <= pos < input.len() && is_digit(input[pos]) {
        1 + digit_run(input, pos + 1)
    } else {
        0
    }
}

/// The number of letters from offset `pos` on, before the first other byte.
pub open spec fn alpha_run(input: Seq<u8>, pos: int) -> nat
    decreases input.len() - pos,
{
    if 0 <= pos < input.len() && is_alpha(input[pos]) {
        1 + alpha_run(input, pos + 1)
    } else {
        0
    }
}

/// The number of blanks from offset `pos` on, before the first other byte.
pub open spec fn space_run(input: Seq<u8>, pos: int) -> nat
    decreases input.len() - pos,
{
    if 0 <= pos < input.len() && is_space(input[pos]) {
        1 + space_run(input, pos + 1)
    } else {
        0
    }
}

/// The number that a run of decimal digits denotes.
pub open spec fn number_value(digits: Seq<u8>) -> nat
    decreases digits.len(),
{
    if digits.len() == 0 {
        0
    } else {
        number_value(digits.drop_last()) * 10 + (digits.last() - '0' as u8) as nat
    }
}

/// The kind of token that a run of letters makes, `else` aside.
pub open spec fn word_kind(word: Seq<u8>) -> TokenKind {
    if word == "for".spec_bytes() {
        TokenKind::FOR
    } else if word == "return".spec_bytes() {
        TokenKind::RETURN
    } else if word == "if".spec_bytes() {
        TokenKind::IF
    } else if word == "int".spec_bytes() {
        TokenKind::TYPE(Type::INT)
    } else {
        TokenKind::IDENT
    }
}

/// The operator or punctuation mark at offset `pos`, with its lexeme, where
/// one stands there. Two-byte operators are tried before their one-byte
/// prefixes.
pub open spec fn punct_at(input: Seq<u8>, pos: int) -> Option<(TokenKind, Seq<u8>)> {
    let b = byte_at(input, pos);
    let b1 = byte_at(input, pos + 1);
    if b == '=' as u8 && b1 == '=' as u8 {
        Some((TokenKind::EQ, seq![b, b1]))
    } else if b == '!' as u8 && b1 == '=' as u8 {
        Some((TokenKind::NEQ, seq![b, b1]))
    } else if b == '<' as u8 && b1 == '=' as u8 {
        Some((TokenKind::LE, seq![b, b1]))
    } else if b == '>' as u8 && b1 == '=' as u8 {
        Some((TokenKind::BE, seq![b, b1]))
    } else if b == '=' as u8 {
        Some((TokenKind::PUNCT, seq![b]))
    } else if b == '<' as u8 {
        Some((TokenKind::LT, seq![b]))
    } else if b == '>' as u8 {
        Some((TokenKind::BT, seq![b]))
    } else if is_single_punct(b) {
        Some((TokenKind::PUNCT, seq![b]))
    } else {
        None
    }
}

/// What stands at one offset of the input.
pub enum Scan {
    /// The NUL that ends the input.
    End,
    /// One blank.
    Blank,
    /// A token of `1 + more` bytes.
    Lexeme { kind: TokenKind, value: i32, char: Seq<u8>, more: nat },
    /// Nothing that the language knows.
    Unknown,
}

/// What stands at offset `pos` of the input.
///
/// A run of digits is a number, and unknown where its value does not fit the
/// token. A run of letters is a keyword or an identifier; `else`, blanks and
/// `if` make one `else if` token, whose lexeme holds a single blank.
pub open spec fn scan(input: Seq<u8>, pos: int) -> Scan {
    let b = byte_at(input, pos);
    if b == 0 {
        Scan::End
    } else if let Some((kind, char)) = punct_at(input, pos) {
        Scan::Lexeme { kind, value: 0, char, more: (char.len() - 1) as nat }
    } else if is_digit(b) {
        let more = digit_run(input, pos + 1);
        let digits = input.subrange(pos, pos + 1 + more);
        if number_value(digits) <= i32::MAX {
            Scan::Lexeme {
                kind: TokenKind::NUM,
                value: number_value(digits) as i32,
                char: digits,
                more,
            }
        } else {
            Scan::Unknown
        }
    } else if is_alpha(b) {
        let more = alpha_run(input, pos + 1);
        let word = input.subrange(pos, pos + 1 + more);
        let gap = space_run(input, pos + 1 + more);
        let after = pos + 1 + more + gap;
        if word == "else".spec_bytes() {
            if byte_at(input, after) == 'i' as u8 && byte_at(input, after + 1) == 'f' as u8 {
                Scan::Lexeme {
                    kind: TokenKind::ELIF,
                    value: 0,
                    char: word + seq![' ' as u8, 'i' as u8, 'f' as u8],
                    more: more + gap + 2,
                }
            } else {
                Scan::Lexeme { kind: TokenKind::ELSE, value: 0, char: word, more }
            }
        } else {
            Scan::Lexeme { kind: word_kind(word), value: 0, char: word, more }
        }
    } else if is_space(b) {
        Scan::Blank
    } else {
        Scan::Unknown
    }
}

/// The tokens from offset `pos` up to and with `EOF`, or the offset of the
/// first byte that starts no token. Each token records the offset that
/// follows its last byte; `EOF` records the offset of the NUL.
pub open spec fn lex_from(input: Seq<u8>, pos: int) -> Result<Seq<TokenView>, CompileError>
    decreases
        if pos < input.len() {
            input.len() - pos
        } else {
            0
        },
{
    if pos < 0 || pos >= input.len() {
        Err(CompileError::LexError { pos: pos as usize })
    } else {
        match scan(input, pos) {
            Scan::End => Ok(
                seq![
                    TokenView {
                        kind: TokenKind::EOF,
                        value: 0,
                        char: seq![0u8],
                        pos: pos as usize,
                    },
                ],
            ),
            Scan::Blank => lex_from(input, pos + 1),
            Scan::Lexeme { kind, value, char, more } => {
                let end = pos + 1 + more;
                match lex_from(input, end) {
                    Ok(rest) => Ok(seq![TokenView { kind, value, char, pos: end as usize }] + rest),
                    Err(e) => Err(e),
                }
            },
            Scan::Unknown => Err(CompileError::LexError { pos: pos as usize }),
        }
    }
}

/// The sentinel that opens every token stream.
pub open spec fn initial_token() -> TokenView {
    TokenView { kind: TokenKind::INI, value: 0, char: Seq::empty(), pos: 0 }
}

/// The token stream of a source text: the sentinel `INI`, the tokens in source
/// order, and `EOF` for the first NUL; or the first lexical error.
pub open spec fn lex(input: Seq<u8>) -> Result<Seq<TokenView>, CompileError> {
    match lex_from(input, 0) {
        Ok(rest) => Ok(seq![initial_token()] + rest),
        Err(e) => Err(e),
    }
}

/// A run of letters ends before the end of the input, at a byte that is no
/// letter.
pub proof fn lemma_alpha_run_end(input: Seq<u8>, pos: int)
    requires
        0 <= pos,
    ensures
        pos + alpha_run(input, pos) <= input.len() || alpha_run(input, pos) == 0,
        !is_alpha(byte_at(input, pos + alpha_run(input, pos))),
    decreases input.len() - pos,
{
    if pos < input.len() && is_alpha(input[pos]) {
        lemma_alpha_run_end(input, pos + 1);
    }
}

/// A run of digits ends before the end of the input.
pub proof fn lemma_digit_run_end(input: Seq<u8>, pos: int)
    requires
        0 <= pos,
    ensures
        pos + digit_run(input, pos) <= input.len() || digit_run(input, pos) == 0,
    decreases input.len() - pos,
{
    if pos < input.len() && is_digit(input[pos]) {
        lemma_digit_run_end(input, pos + 1);
    }
}

/// A token at offset `pos` ends inside the input, and its lexeme is no
/// longer than the offset of its end.
pub proof fn lemma_scan_lexeme(input: Seq<u8>, pos: int)
    requires
        0 <= pos < input.len(),
        scan(input, pos) is Lexeme,
    ensures
        pos + 1 + scan(input, pos)->more <= input.len(),
        1 <= scan(input, pos)->char.len() <= pos + 1 + scan(input, pos)->more,
{
    lemma_digit_run_end(input, pos + 1);
    lemma_alpha_run_end(input, pos + 1);
    let b = byte_at(input, pos);
    if punct_at(input, pos) is None && is_alpha(b) {
        let more = alpha_run(input, pos + 1);
        let gap = space_run(input, pos + 1 + more);
        if gap == 0 {
            assert(!is_alpha(byte_at(input, pos + 1 + more)));
        }
    }
}

/// What holds of the tokens that follow `INI`, lexed from the offset `from`
/// on: the last is `EOF`, at the offset of a NUL of the input, and no other is
/// `EOF` or `INI`; every other token ends after `from` and inside the input
/// and has a lexeme that is not empty and no longer than the offset of the
/// token's end; the offsets do not decrease.
pub open spec fn tokens_from(ts: Seq<TokenView>, input: Seq<u8>, from: int) -> bool {
    &&& ts.len() >= 1
    &&& ts.last().kind == TokenKind::EOF
    &&& ts.last().char == seq![0u8]
    &&& from <= ts.last().pos < input.len()
    &&& input[ts.last().pos as int] == 0
    &&& forall|k: int|
        0 <= k < ts.len() - 1 ==> {
            &&& (#[trigger] ts[k]).kind != TokenKind::EOF
            &&& ts[k].kind != TokenKind::INI
            &&& from < ts[k].pos
            &&& 1 <= ts[k].char.len() <= ts[k].pos
        }
    &&& forall|i: int, j: int|
        0 <= i <= j < ts.len() ==> (#[trigger] ts[i]).pos <= (#[trigger] ts[j]).pos
}

/// What holds of the token stream of a source text: it opens with `INI` at
/// offset 0, and `tokens_from` holds of the tokens after it. So the stream
/// ends with `EOF`, no offset exceeds that of the NUL that `EOF` stands for,
/// and the start of every token between the two is its offset less the length
/// of its lexeme.
pub open spec fn token_stream(ts: Seq<TokenView>, input: Seq<u8>) -> bool {
    &&& ts.len() >= 2
    &&& ts.first() == initial_token()
    &&& tokens_from(ts.subrange(1, ts.len() as int), input, 0)
}

/// The tokens lexed from an offset on are as `tokens_from` says.
pub proof fn lemma_lex_from(input: Seq<u8>, pos: int)
    requires
        0 <= pos,
        input.len() <= usize::MAX,
        lex_from(input, pos) is Ok,
    ensures
        tokens_from(lex_from(input, pos)->Ok_0, input, pos),
    decreases input.len() - pos,
{
    let ts = lex_from(input, pos)->Ok_0;
    if pos < input.len() {
        match scan(input, pos) {
            Scan::Blank => {
                lemma_lex_from(input, pos + 1);
            },
            Scan::Lexeme { kind, value, char, more } => {
                lemma_scan_lexeme(input, pos);
                let end = pos + 1 + more;
                lemma_lex_from(input, end);
                let rest = lex_from(input, end)->Ok_0;
                assert forall|k: int| 0 <= k < ts.len() implies #[trigger] ts[k] == if k == 0 {
                    TokenView { kind, value, char, pos: end as usize }
                } else {
                    rest[k - 1]
                } by {};
                assert(ts.last() == rest.last());
                assert forall|i: int, j: int| 0 <= i <= j < ts.len() implies (#[trigger] ts[i]).pos
                    <= (#[trigger] ts[j]).pos by {
                    if i > 0 {
                        assert(rest[i - 1].pos <= rest[j - 1].pos);
                    } else if j > 0 {
                        if j - 1 < rest.len() - 1 {
                            assert(end < rest[j - 1].pos);
                        }
                    }
                }
            },
            _ => {},
        }
    }
}

/// The token stream of a source text is as `token_stream` says.
pub proof fn lemma_lex(input: Seq<u8>)
    requires
        input.len() <= usize::MAX,
        lex(input) is Ok,
    ensures
        token_stream(lex(input)->Ok_0, input),
{
    lemma_lex_from(input, 0);
    let ts = lex(input)->Ok_0;
    assert(ts.subrange(1, ts.len() as int) =~= lex_from(input, 0)->Ok_0);
}

/// `front` before the tokens of `back`, or the error of `back`.
pub open spec fn glue(front: Seq<TokenView>, back: Result<Seq<TokenView>, CompileError>) -> Result<
    Seq<TokenView>,
    CompileError,
> {
    match back {
        Ok(rest) => Ok(front + rest),
        Err(e) => Err(e),
    }
}

/// The value of a digit run does not shrink when a digit is added.
proof fn lemma_number_value_push(digits: Seq<u8>, d: u8)
    ensures
        number_value(digits.push(d)) == number_value(digits) * 10 + (d - '0' as u8) as nat,
{
    assert(digits.push(d).drop_last() =~= digits);
}

/// Reads the input byte by byte and collects the tokens.
struct Lexer {
    input: Vec<u8>,
    pos: usize,
    token_vec: Vec<Token>,
}

impl Lexer {
    spec fn wf(&self) -> bool {
        self.pos <= self.input.len()
    }

    fn new(input: Vec<u8>) -> (l: Self)
        ensures
            l.wf(),
            l.input == input,
            l.pos == 0,
            l.token_vec@.len() == 0,
    {
        Lexer { input, pos: 0, token_vec: Vec::new() }
    }

    fn cur_char(&self) -> (b: u8)
        ensures
            b == byte_at(self.input@, self.pos as int),
    {
        if self.pos < self.input.len() {
            self.input[self.pos]
        } else {
            0
        }
    }

    fn cur_pos(&self) -> (p: usize)
        ensures
            p == self.pos,
    {
        self.pos
    }

    fn next(&mut self)
        requires
            old(self).pos < old(self).input.len(),
        ensures
            final(self).pos == old(self).pos + 1,
            final(self).input == old(self).input,
            final(self).token_vec == old(self).token_vec,
    {
        self.pos = self.pos + 1;
    }

    fn next_nth(&mut self, n: usize)
        requires
            old(self).pos + n <= old(self).input.len(),
        ensures
            final(self).pos == old(self).pos + n,
            final(self).input == old(self).input,
            final(self).token_vec == old(self).token_vec,
    {
        self.pos = self.pos + n;
    }

    fn next_char(&mut self) -> (b: u8)
        requires
            old(self).pos < old(self).input.len(),
        ensures
            final(self).pos == old(self).pos + 1,
            final(self).input == old(self).input,
            final(self).token_vec == old(self).token_vec,
            b == byte_at(final(self).input@, final(self).pos as int),
    {
        self.pos = self.pos + 1;
        self.cur_char()
    }

    fn get_nth_next(&self, n: usize) -> (b: u8)
        requires
            self.wf(),
        ensures
            b == byte_at(self.input@, self.pos + n),
    {
        if n < self.input.len() - self.pos {
            self.input[self.pos + n]
        } else {
            0
        }
    }

    fn push_tok(&mut self, tok: Token)
        ensures
            final(self).pos == old(self).pos,
            final(self).input == old(self).input,
            final(self).token_vec@ == old(self).token_vec@.push(tok),
    {
        self.token_vec.push(tok);
    }

    /// Whether the bytes `b0` and `b1` stand at the current offset.
    fn expect(&self, b0: u8, b1: u8) -> (r: bool)
        requires
            self.wf(),
        ensures
            r == (byte_at(self.input@, self.pos as int) == b0 && byte_at(
                self.input@,
                self.pos + 1,
            ) == b1),
    {
        self.cur_char() == b0 && self.get_nth_next(1) == b1
    }

    /// As `expect`, and steps over the two bytes where they stand there.
    fn expect_and_read(&mut self, b0: u8, b1: u8) -> (r: bool)
        requires
            old(self).wf(),
            b0 != 0,
            b1 != 0,
        ensures
            final(self).wf(),
            r == (byte_at(old(self).input@, old(self).pos as int) == b0 && byte_at(
                old(self).input@,
                old(self).pos + 1,
            ) == b1),
            final(self).pos == if r {
                old(self).pos + 2
            } else {
                old(self).pos as int
            },
            final(self).input == old(self).input,
            final(self).token_vec == old(self).token_vec,
    {
        if self.expect(b0, b1) {
            self.next_nth(2);
            true
        } else {
            false
        }
    }

    /// Reads the byte at the current offset and the letters that follow it.
    fn read_to_whitespace(&mut self) -> (word: Vec<u8>)
        requires
            old(self).pos < old(self).input.len(),
        ensures
            final(self).wf(),
            final(self).pos == old(self).pos + 1 + alpha_run(old(self).input@, old(self).pos + 1),
            word@ == old(self).input@.subrange(old(self).pos as int, final(self).pos as int),
            final(self).input == old(self).input,
            final(self).token_vec == old(self).token_vec,
    {
        let ghost start = self.pos as int;
        let mut cur_str: Vec<u8> = Vec::new();
        cur_str.push(self.cur_char());
        self.next();
        assert(cur_str@ =~= self.input@.subrange(start, start + 1));
        loop
            invariant
                self.input == old(self).input,
                self.token_vec == old(self).token_vec,
                start == old(self).pos,
                start < self.pos <= self.input.len(),
                cur_str@ == self.input@.subrange(start, self.pos as int),
                self.pos + alpha_run(self.input@, self.pos as int) == start + 1 + alpha_run(
                    self.input@,
                    start + 1,
                ),
            ensures
                alpha_run(self.input@, self.pos as int) == 0,
            decreases self.input.len() - self.pos,
        {
            let b = self.cur_char();
            if !(self.pos < self.input.len() && is_alpha_byte(b)) {
                break ;
            }
            cur_str.push(b);
            self.next();
            assert(cur_str@ =~= self.input@.subrange(start, self.pos as int));
        }
        cur_str
    }
}

fn is_digit_byte(b: u8) -> (r: bool)
    ensures
        r == is_digit(b),
{
    '0' as u8 <= b && b <= '9' as u8
}

fn is_alpha_byte(b: u8) -> (r: bool)
    ensures
        r == is_alpha(b),
{
    ('a' as u8 <= b && b <= 'z' as u8) || ('A' as u8 <= b && b <= 'Z' as u8)
}

fn is_space_byte(b: u8) -> (r: bool)
    ensures
        r == is_space(b),
{
    b == ' ' as u8 || (9 <= b && b <= 13)
}

fn is_single_punct_byte(b: u8) -> (r: bool)
    ensures
        r == is_single_punct(b),
{
    b == '+' as u8 || b == '-' as u8 || b == '*' as u8 || b == '/' as u8 || b == ';' as u8 || b
        == '(' as u8 || b == ')' as u8 || b == '{' as u8 || b == '}' as u8 || b == ',' as u8
}

/// The kind of token that a run of letters makes, `else` aside.
fn kind_of_word(word: &Vec<u8>) -> (kind: TokenKind)
    ensures
        kind == word_kind(word@),
{
    if is_text(word, "for") {
        TokenKind::FOR
    } else if is_text(word, "return") {
        TokenKind::RETURN
    } else if is_text(word, "if") {
        TokenKind::IF
    } else if is_text(word, "int") {
        TokenKind::TYPE(Type::INT)
    } else {
        TokenKind::IDENT
    }
}

/// Reads the operator or punctuation mark at the current offset, if one
/// stands there, and steps over it.
fn read_punct(l: &mut Lexer) -> (r: Option<Token>)
    requires
        old(l).wf(),
    ensures
        final(l).wf(),
        final(l).input == old(l).input,
        final(l).token_vec == old(l).token_vec,
        match punct_at(old(l).input@, old(l).pos as int) {
            Some((kind, char)) => {
                &&& r is Some
                &&& r->0@ == (TokenView { kind, value: 0, char, pos: final(l).pos })
                &&& final(l).pos == old(l).pos + char.len()
            },
            None => r is None && final(l).pos == old(l).pos,
        },
{
    let eq = '=' as u8;
    let lt = '<' as u8;
    let gt = '>' as u8;
    let bang = '!' as u8;
    if l.expect_and_read(eq, eq) {
        let char = vec![eq, eq];
        assert(char@ =~= seq![eq, eq]);
        return Some(Token::new_token(TokenKind::EQ, 0, char, l.cur_pos()));
    } else if l.expect_and_read(bang, eq) {
        let char = vec![bang, eq];
        assert(char@ =~= seq![bang, eq]);
        return Some(Token::new_token(TokenKind::NEQ, 0, char, l.cur_pos()));
    } else if l.expect_and_read(lt, eq) {
        let char = vec![lt, eq];
        assert(char@ =~= seq![lt, eq]);
        return Some(Token::new_token(TokenKind::LE, 0, char, l.cur_pos()));
    } else if l.expect_and_read(gt, eq) {
        let char = vec![gt, eq];
        assert(char@ =~= seq![gt, eq]);
        return Some(Token::new_token(TokenKind::BE, 0, char, l.cur_pos()));
    }
    let b = l.cur_char();
    let kind = if b == eq {
        TokenKind::PUNCT
    } else if b == lt {
        TokenKind::LT
    } else if b == gt {
        TokenKind::BT
    } else if is_single_punct_byte(b) {
        TokenKind::PUNCT
    } else {
        return None;
    };
    l.next();
    let char = vec![b];
    assert(char@ =~= seq![b]);
    Some(Token::new_token(kind, 0, char, l.cur_pos()))
}

/// Reads the run of digits at the current offset: its value, where it fits
/// the token, and its digits.
fn read_number(l: &mut Lexer) -> (r: (Option<i32>, Vec<u8>))
    requires
        old(l).pos < old(l).input.len(),
        is_digit(old(l).input@[old(l).pos as int]),
    ensures
        final(l).wf(),
        final(l).input == old(l).input,
        final(l).token_vec == old(l).token_vec,
        final(l).pos == old(l).pos + 1 + digit_run(old(l).input@, old(l).pos + 1),
        r.1@ == old(l).input@.subrange(old(l).pos as int, final(l).pos as int),
        match r.0 {
            Some(v) => v == number_value(r.1@),
            None => number_value(r.1@) > i32::MAX,
        },
{
    let ghost start = l.pos as int;
    let b = l.cur_char();
    let mut digits: Vec<u8> = Vec::new();
    digits.push(b);
    let mut cur_num: Option<i32> = Some((b - '0' as u8) as i32);
    l.next();
    proof {
        assert(digits@ =~= l.input@.subrange(start, start + 1));
        lemma_number_value_push(Seq::empty(), b);
        assert(Seq::<u8>::empty().push(b) =~= digits@);
    }
    loop
        invariant
            l.input == old(l).input,
            l.token_vec == old(l).token_vec,
            start == old(l).pos,
            start < l.pos <= l.input.len(),
            digits@ == l.input@.subrange(start, l.pos as int),
            l.pos + digit_run(l.input@, l.pos as int) == start + 1 + digit_run(
                l.input@,
                start + 1,
            ),
            match cur_num {
                Some(v) => v == number_value(digits@),
                None => number_value(digits@) > i32::MAX,
            },
        ensures
            digit_run(l.input@, l.pos as int) == 0,
        decreases l.input.len() - l.pos,
    {
        let b = l.cur_char();
        if !(l.pos < l.input.len() && is_digit_byte(b)) {
            break ;
        }
        proof {
            lemma_number_value_push(digits@, b);
        }
        let d: i32 = (b - '0' as u8) as i32;
        cur_num =
        match cur_num {
            Some(v) => if v <= (i32::MAX - d) / 10 {
                Some(v * 10 + d)
            } else {
                None
            },
            None => None,
        };
        digits.push(b);
        l.next_char();
        assert(digits@ =~= l.input@.subrange(start, l.pos as int));
    }
    (cur_num, digits)
}

/// Steps over the blanks at the current offset.
fn skip_blanks(l: &mut Lexer)
    requires
        old(l).wf(),
    ensures
        final(l).wf(),
        final(l).input == old(l).input,
        final(l).token_vec == old(l).token_vec,
        final(l).pos == old(l).pos + space_run(old(l).input@, old(l).pos as int),
{
    loop
        invariant
            l.input == old(l).input,
            l.token_vec == old(l).token_vec,
            old(l).pos <= l.pos <= l.input.len(),
            l.pos + space_run(l.input@, l.pos as int) == old(l).pos + space_run(
                l.input@,
                old(l).pos as int,
            ),
        ensures
            space_run(l.input@, l.pos as int) == 0,
        decreases l.input.len() - l.pos,
    {
        let b = l.cur_char();
        if !(l.pos < l.input.len() && is_space_byte(b)) {
            break ;
        }
        l.next();
    }
}

/// Splits a source text into tokens.
///
/// The text ends in a NUL, which the caller appends. The stream opens with
/// `INI` and ends with `EOF` for the first NUL that the lexer meets; the
/// first byte that starts no token is an error.
pub fn tokenize(string: Vec<u8>) -> (r: Result<Vec<Token>, CompileError>)
    requires
        string@.len() > 0,
        string@.last() == 0,
    ensures
        match lex(string@) {
            Ok(ts) => r is Ok && token_views(r->Ok_0@) == ts,
            Err(e) => r == Err::<Vec<Token>, CompileError>(e),
        },
        r is Ok ==> token_stream(token_views(r->Ok_0@), string@),
{
    let mut l = Lexer::new(string);
    let tok = Token::new_token(TokenKind::INI, 0, Vec::new(), 0);
    l.push_tok(tok);
    assert(token_views(l.token_vec@) =~= seq![initial_token()]);
    loop
        invariant
            l.wf(),
            l.input@ == string@,
            string@.len() > 0,
            string@.last() == 0,
            lex(string@) == glue(token_views(l.token_vec@), lex_from(string@, l.pos as int)),
        decreases l.input.len() - l.pos,
    {
        let ghost before = token_views(l.token_vec@);
        let ghost pos = l.pos as int;
        if l.pos >= l.input.len() {
            return Err(CompileError::LexError { pos: l.cur_pos() });
        }
        let b = l.cur_char();
        if b == 0 {
            let tok = Token::new_token(TokenKind::EOF, 0, vec![0u8], l.cur_pos());
            l.push_tok(tok);
            proof {
                assert(tok@.char =~= seq![0u8]);
                assert(scan(string@, pos) == Scan::End);
                assert(lex_from(string@, pos) == Ok::<Seq<TokenView>, CompileError>(seq![tok@]));
                assert(token_views(l.token_vec@) =~= before + seq![tok@]);
                lemma_lex(string@);
            }
            return Ok(l.token_vec);
        }
        let found =
        match read_punct(&mut l) {
            Some(tok) => {
                proof {
                    let ghost more = (tok@.char.len() - 1) as nat;
                    assert(scan(string@, pos) == Scan::Lexeme {
                        kind: tok@.kind,
                        value: 0,
                        char: tok@.char,
                        more,
                    });
                    assert(l.pos == pos + 1 + more);
                }
                Some(tok)
            },
            None => {
                if is_digit_byte(b) {
                    let start = l.cur_pos();
                    let (value, digits) = read_number(&mut l);
                    match value {
                        Some(v) => {
                            let tok = Token::new_token(TokenKind::NUM, v, digits, l.cur_pos());
                            proof {
                                let ghost more = digit_run(string@, pos + 1);
                                assert(scan(string@, pos) == Scan::Lexeme {
                                    kind: tok@.kind,
                                    value: tok@.value,
                                    char: tok@.char,
                                    more,
                                });
                            }
                            Some(tok)
                        },
                        None => {
                            assert(scan(string@, pos) == Scan::Unknown);
                            return Err(CompileError::LexError { pos: start });
                        },
                    }
                } else if is_alpha_byte(b) {
                    let mut cur_str = l.read_to_whitespace();
                    let ghost word = cur_str@;
                    let tok_kind: TokenKind;
                    if is_text(&cur_str, "else") {
                        // `else`, blanks and `if` are one token
                        let word_end = l.cur_pos();
                        skip_blanks(&mut l);
                        if l.expect_and_read('i' as u8, 'f' as u8) {
                            tok_kind = TokenKind::ELIF;
                            cur_str.push(' ' as u8);
                            cur_str.push('i' as u8);
                            cur_str.push('f' as u8);
                            assert(cur_str@ =~= word + seq![' ' as u8, 'i' as u8, 'f' as u8]);
                        } else {
                            tok_kind = TokenKind::ELSE;
                            l.pos = word_end;
                        }
                    } else {
                        tok_kind = kind_of_word(&cur_str);
                    }
                    let tok = Token::new_token(tok_kind, 0, cur_str, l.cur_pos());
                    proof {
                        let ghost total = (l.pos - pos - 1) as nat;
                        assert(scan(string@, pos) == Scan::Lexeme {
                            kind: tok@.kind,
                            value: 0,
                            char: tok@.char,
                            more: total,
                        });
                    }
                    Some(tok)
                } else if is_space_byte(b) {
                    l.next();
                    assert(scan(string@, pos) == Scan::Blank);
                    None
                } else {
                    assert(scan(string@, pos) == Scan::Unknown);
                    return Err(CompileError::LexError { pos: l.cur_pos() });
                }
            },
        };
        match found {
            Some(tok) => {
                assert(lex_from(string@, pos) == glue(seq![tok@], lex_from(string@, l.pos as int)));
                l.push_tok(tok);
                proof {
                    assert(token_views(l.token_vec@) =~= before + seq![tok@]);
                    assert forall|rest: Seq<TokenView>|
                        before + (seq![tok@] + rest) == #[trigger] ((before + seq![tok@]) + rest) by {
                        assert(before + (seq![tok@] + rest) =~= (before + seq![tok@]) + rest);
                    }
                }
            },
            None => {
                assert(lex_from(string@, pos) == lex_from(string@, l.pos as int));
            },
        }
    }
}

/// What the cursor reads past the end of the tokens: an `EOF` without lexeme.
pub open spec fn end_token() -> TokenView {
    TokenView { kind: TokenKind::EOF, value: 0, char: Seq::empty(), pos: 0 }
}

/// The token at index `i`, and `end_token` past the end.
pub open spec fn token_at(ts: Seq<TokenView>, i: int) -> TokenView {
    if 0 <= i < ts.len() {
        ts[i]
    } else {
        end_token()
    }
}

/// A cursor over a token stream.
#[derive(Clone, Debug)]
pub struct TokenReader {
    pub tokens: Vec<Token>,
    pub cur: usize,
}

impl View for TokenReader {
    type V = Seq<TokenView>;

    /// The tokens; the cursor is the field `cur`.
    open spec fn view(&self) -> Seq<TokenView> {
        token_views(self.tokens@)
    }
}

impl TokenReader {
    /// The token under the cursor.
    pub fn cur_tok(&self) -> (tok: Token)
        requires
            self.cur < self.tokens.len(),
        ensures
            tok@ == self@[self.cur as int],
    {
        self.tokens[self.cur].copy()
    }

    /// The source offset at which the token under the cursor starts.
    pub fn cur_input_pos(&self) -> (p: usize)
        requires
            self.cur < self.tokens.len(),
            self@[self.cur as int].char.len() <= self@[self.cur as int].pos,
        ensures
            p == self@[self.cur as int].pos - self@[self.cur as int].char.len(),
    {
        self.tokens[self.cur].input_pos()
    }

    /// The length of the token under the cursor: see `token_len`.
    pub fn cur_tok_len(&self) -> (n: usize)
        requires
            self.cur < self.tokens.len(),
        ensures
            n == token_len(self@[self.cur as int]),
    {
        self.tokens[self.cur].len()
    }

    /// Moves the cursor one token on.
    pub fn next_tok(&mut self)
        requires
            old(self).cur < usize::MAX,
        ensures
            final(self).cur == old(self).cur + 1,
            final(self).tokens == old(self).tokens,
    {
        self.next();
    }

    /// Moves the cursor `n` tokens on.
    pub fn next_nth_tok(&mut self, n: usize)
        requires
            old(self).cur + n <= usize::MAX,
        ensures
            final(self).cur == old(self).cur + n,
            final(self).tokens == old(self).tokens,
    {
        let mut i: usize = 0;
        while i < n
            invariant
                i <= n,
                self.cur == old(self).cur + i,
                self.tokens == old(self).tokens,
                old(self).cur + n <= usize::MAX,
            decreases n - i,
        {
            self.next();
            i += 1;
        }
    }

    /// The token after the one under the cursor.
    pub fn get_next_tok(&self) -> (tok: Token)
        requires
            self.cur + 1 < self.tokens.len(),
        ensures
            tok@ == self@[self.cur + 1],
    {
        self.tokens[self.cur + 1].copy()
    }

    /// The token `offset` tokens after the one under the cursor.
    pub fn get_next_nth_tok(&self, offset: usize) -> (tok: Token)
        requires
            self.cur + offset < self.tokens.len(),
        ensures
            tok@ == self@[self.cur + offset],
    {
        self.tokens[self.cur + offset].copy()
    }

    /// Moves the cursor one token on.
    pub fn next(&mut self)
        requires
            old(self).cur < usize::MAX,
        ensures
            final(self).cur == old(self).cur + 1,
            final(self).tokens == old(self).tokens,
    {
        self.cur += 1;
    }

    /// Whether the lexeme of the token under the cursor is `s`.
    pub fn expect(&self, s: &[u8]) -> (r: bool)
        requires
            self.cur < self.tokens.len(),
        ensures
            r == (self@[self.cur as int].char == s@),
    {
        bytes_eq(self.tokens[self.cur].char.as_slice(), s)
    }

    /// The kind of the token `offset` tokens after the cursor, `EOF` past the
    /// end.
    pub fn kind_at(&self, offset: usize) -> (kind: TokenKind)
        ensures
            kind == token_at(self@, self.cur + offset).kind,
            kind != TokenKind::EOF ==> self.cur + offset < self.tokens.len(),
            self@.len() == self.tokens.len(),
    {
        if self.cur < self.tokens.len() && offset < self.tokens.len() - self.cur {
            self.tokens[self.cur + offset].kind
        } else {
            TokenKind::EOF
        }
    }

    /// Whether the lexeme of the token `offset` tokens after the cursor is
    /// the single byte `b`; false past the end.
    pub fn is_at(&self, offset: usize, b: u8) -> (r: bool)
        ensures
            r == (token_at(self@, self.cur + offset).char == seq![b]),
            r ==> self.cur + offset < self.tokens.len(),
            self@.len() == self.tokens.len(),
    {
        if self.cur < self.tokens.len() && offset < self.tokens.len() - self.cur {
            is_byte(&self.tokens[self.cur + offset].char, b)
        } else {
            assert(Seq::<u8>::empty().len() != seq![b].len());
            false
        }
    }
}

/// A cursor at the first of the given tokens.
#[allow(non_snake_case)]
pub fn NewTokenReader(token: Vec<Token>) -> (reader: TokenReader)
    ensures
        reader.tokens == token,
        reader.cur == 0,
{
    TokenReader { tokens: token, cur: 0 }
}

} // verus!
